//! FL Studio `.flp` projects: a binary tag-length-value event stream.
//!
//! Event ranges:
//! - BYTE  (0..63):   1-byte value
//! - WORD  (64..127):  2-byte little-endian value
//! - DWORD (128..191): 4-byte little-endian value
//! - TEXT  (192..255): 4-byte little-endian length, then that many bytes
use vstd::prelude::*;
use crate::text::{chars_of, decimal, decimal_chars, is_control, is_control_exec, string_from_chars, until, utf16_lossy, utf16_lossy_of, utf8_lossy, utf8_lossy_of};
use crate::tally::{keys_of, tally, tally_names};
use crate::number::{Number, NumberModel};
use crate::{ParsedIntelligence, IntelModel, TrackInfo, TrackModel, blank_intel};

verus! {

/// BYTE event: time signature numerator.
pub const EVENT_TIME_SIG_NUM: u8 = 17;
/// BYTE event: time signature denominator.
pub const EVENT_TIME_SIG_DEN: u8 = 18;
/// WORD event: a new channel.
pub const EVENT_NEW_CHANNEL: u8 = 64;
/// DWORD event: tempo in thousandths of a BPM.
pub const EVENT_BPM: u8 = 156;
/// TEXT event: channel name.
pub const EVENT_CHANNEL_NAME: u8 = 192;
/// TEXT event: plugin name.
pub const EVENT_PLUGIN_NAME: u8 = 201;

/// Largest file this parser accepts (5 MiB).
pub const MAX_FLP_BYTES: u64 = 5242880;

/// Little-endian 16-bit units of a byte sequence of even length.
pub open spec fn le_units(data: Seq<u8>) -> Seq<u16> {
    Seq::new(data.len() / 2, |i: int| (data[2 * i] + 256 * data[2 * i + 1]) as u16)
}

/// The characters of a TEXT event payload: UTF-16LE up to the first NUL unit
/// when that decodes to non-empty text free of control characters other than
/// newline; otherwise the bytes up to the first NUL, decoded as lossy UTF-8.
pub open spec fn decode_text_spec(data: Seq<u8>) -> Seq<char> {
    let units = until(le_units(data), 0u16);
    let decoded = utf16_lossy_of(units);
    if data.len() >= 2 && data.len() % 2 == 0 && units.len() > 0 && decoded.len() > 0
        && (forall|i: int| 0 <= i < decoded.len() ==> !is_control(#[trigger] decoded[i]) || decoded[i] == '\n')
    {
        decoded
    } else {
        utf8_lossy_of(until(data, 0u8))
    }
}

fn until_zero_units(units: &Vec<u16>) -> (r: Vec<u16>)
    ensures
        r@ == until(units@, 0u16),
{
    let mut r: Vec<u16> = Vec::new();
    let mut i: usize = 0;
    assert(units@.skip(0) =~= units@);
    assert(r@.add(until(units@, 0u16)) =~= until(units@, 0u16));
    while i < units.len() && units[i] != 0
        invariant
            0 <= i <= units.len(),
            r@ == units@.take(i as int),
            forall|k: int| 0 <= k < i ==> units@[k] != 0u16,
            until(units@, 0u16) == r@.add(until(units@.skip(i as int), 0u16)),
        decreases units.len() - i,
    {
        proof {
            assert(units@.skip(i as int).drop_first() =~= units@.skip(i + 1));
            assert(until(units@.skip(i as int), 0u16) =~= seq![units@[i as int]].add(until(units@.skip(i + 1), 0u16)));
        }
        r.push(units[i]);
        i = i + 1;
        assert(r@ =~= units@.take(i as int));
        assert(until(units@, 0u16) =~= r@.add(until(units@.skip(i as int), 0u16)));
    }
    proof {
        if i < units.len() {
            assert(until(units@.skip(i as int), 0u16) =~= Seq::<u16>::empty());
        } else {
            assert(units@.skip(i as int) =~= Seq::<u16>::empty());
        }
        assert(until(units@, 0u16) =~= r@);
    }
    r
}

fn until_zero_bytes(data: &[u8]) -> (r: Vec<u8>)
    ensures
        r@ == until(data@, 0u8),
        forall|k: int| 0 <= k < r@.len() ==> r@[k] != 0u8,
{
    let mut r: Vec<u8> = Vec::new();
    let mut i: usize = 0;
    assert(data@.skip(0) =~= data@);
    assert(r@.add(until(data@, 0u8)) =~= until(data@, 0u8));
    while i < data.len() && data[i] != 0
        invariant
            0 <= i <= data.len(),
            r@ == data@.take(i as int),
            forall|k: int| 0 <= k < i ==> data@[k] != 0u8,
            until(data@, 0u8) == r@.add(until(data@.skip(i as int), 0u8)),
        decreases data.len() - i,
    {
        proof {
            assert(data@.skip(i as int).drop_first() =~= data@.skip(i + 1));
            assert(until(data@.skip(i as int), 0u8) =~= seq![data@[i as int]].add(until(data@.skip(i + 1), 0u8)));
        }
        r.push(data[i]);
        i = i + 1;
        assert(r@ =~= data@.take(i as int));
        assert(until(data@, 0u8) =~= r@.add(until(data@.skip(i as int), 0u8)));
    }
    proof {
        if i < data.len() {
            assert(until(data@.skip(i as int), 0u8) =~= Seq::<u8>::empty());
        } else {
            assert(data@.skip(i as int) =~= Seq::<u8>::empty());
        }
        assert(until(data@, 0u8) =~= r@);
    }
    r
}

/// Decodes a TEXT event payload (UTF-16LE first, lossy UTF-8 otherwise). The
/// text holds no NUL character, and an empty payload gives empty text.
pub fn decode_text(data: &[u8]) -> (r: String)
    ensures
        r@ == decode_text_spec(data@),
        forall|j: int| 0 <= j < r@.len() ==> r@[j] != '\0',
        data@.len() == 0 ==> r@.len() == 0,
{
    if data.len() >= 2 && data.len() % 2 == 0 {
        let mut units: Vec<u16> = Vec::new();
        let mut i: usize = 0;
        while i < data.len() / 2
            invariant
                data.len() % 2 == 0,
                0 <= i <= data.len() / 2,
                units@ == le_units(data@).take(i as int),
            decreases data.len() / 2 - i,
        {
            let u: u16 = (data[2 * i] as u16) + 256 * (data[2 * i + 1] as u16);
            units.push(u);
            i = i + 1;
            assert(units@ =~= le_units(data@).take(i as int));
        }
        assert(units@ =~= le_units(data@));
        let trimmed = until_zero_units(&units);
        if trimmed.len() > 0 {
            let decoded = utf16_lossy(trimmed.as_slice());
            let dchars = chars_of(decoded.as_str());
            if dchars.len() > 0 {
                let mut ok = true;
                let mut k: usize = 0;
                while k < dchars.len()
                    invariant
                        0 <= k <= dchars.len(),
                        dchars@ == decoded@,
                        ok == (forall|j: int| 0 <= j < k ==> !is_control(#[trigger] dchars@[j]) || dchars@[j] == '\n'),
                    decreases dchars.len() - k,
                {
                    let c = dchars[k];
                    if is_control_exec(c) && c != '\n' {
                        ok = false;
                    }
                    k = k + 1;
                }
                if ok {
                    assert forall|j: int| 0 <= j < decoded@.len() implies decoded@[j] != '\0' by {
                        assert(!is_control(dchars@[j]) || dchars@[j] == '\n');
                    }
                    return decoded;
                }
            }
        }
    }
    let prefix = until_zero_bytes(data);
    utf8_lossy(prefix.as_slice())
}

/// Little-endian 32-bit value of the four bytes at `p`.
pub open spec fn u32le(b: Seq<u8>, p: int) -> int {
    b[p] + 256 * b[p + 1] + 65536 * b[p + 2] + 16777216 * b[p + 3]
}

fn read_u32le(b: &[u8], p: usize) -> (r: u32)
    requires
        p + 4 <= b@.len(),
    ensures
        r == u32le(b@, p as int),
{
    (b[p] as u32) + 256 * (b[p + 1] as u32) + 65536 * (b[p + 2] as u32) + 16777216 * (b[p + 3] as u32)
}

/// What the event scan has gathered so far.
pub struct FlScan {
    pub num: Option<u8>,
    pub den: Option<u8>,
    pub channels: nat,
    pub names: Seq<Seq<char>>,
    pub plugins: Seq<Seq<char>>,
    /// Tempo in thousandths of a BPM, when a tempo event lay in 30..=300 BPM.
    pub bpm: Option<u32>,
}

pub open spec fn empty_scan() -> FlScan {
    FlScan { num: None, den: None, channels: 0, names: Seq::empty(), plugins: Seq::empty(), bpm: None }
}

/// The effect of the TEXT event with id `id` and payload `data`.
pub open spec fn text_event(st: FlScan, id: u8, data: Seq<u8>) -> FlScan {
    if id == EVENT_CHANNEL_NAME && data.len() > 0 {
        let name = decode_text_spec(data);
        if name.len() > 0 { FlScan { names: st.names.push(name), ..st } } else { st }
    } else if id == EVENT_PLUGIN_NAME && data.len() > 0 {
        let name = decode_text_spec(data);
        if name.len() > 0 { FlScan { plugins: st.plugins.push(name), ..st } } else { st }
    } else {
        st
    }
}

/// The event at `pos`: the position after it and the state it leads to, or
/// `None` when the input ends inside it.
pub open spec fn fl_event(b: Seq<u8>, pos: int, st: FlScan) -> Option<(int, FlScan)> {
    let id = b[pos];
    let p = pos + 1;
    if id < 64 {
        if p >= b.len() {
            None
        } else if id == EVENT_TIME_SIG_NUM {
            Some((p + 1, FlScan { num: Some(b[p]), ..st }))
        } else if id == EVENT_TIME_SIG_DEN {
            Some((p + 1, FlScan { den: Some(b[p]), ..st }))
        } else {
            Some((p + 1, st))
        }
    } else if id < 128 {
        if p + 2 > b.len() {
            None
        } else if id == EVENT_NEW_CHANNEL {
            Some((p + 2, FlScan { channels: st.channels + 1, ..st }))
        } else {
            Some((p + 2, st))
        }
    } else if id < 192 {
        if p + 4 > b.len() {
            None
        } else {
            let v = u32le(b, p);
            if id == EVENT_BPM && 30000 <= v <= 300000 {
                Some((p + 4, FlScan { bpm: Some(v as u32), ..st }))
            } else {
                Some((p + 4, st))
            }
        }
    } else {
        if p + 4 > b.len() {
            None
        } else {
            let len = u32le(b, p);
            let q = p + 4;
            if q + len > b.len() {
                None
            } else {
                Some((q + len, text_event(st, id, b.subrange(q, q + len))))
            }
        }
    }
}

/// The state after scanning the events from `pos` while `pos < end`.
pub open spec fn fl_scan(b: Seq<u8>, pos: int, end: int, st: FlScan) -> FlScan
    decreases b.len() - pos,
{
    if 0 <= pos && pos < end && pos < b.len() {
        match fl_event(b, pos, st) {
            None => st,
            Some((next, st2)) => if next > pos { fl_scan(b, next, end, st2) } else { st },
        }
    } else {
        st
    }
}

/// The track a channel name stands for.
pub open spec fn channel_track(n: Seq<char>) -> TrackModel {
    TrackModel { name: n, track_type: "channel"@, plugins: Seq::empty(), color: None }
}

/// The tracks for a sequence of channel names.
pub open spec fn channel_tracks(names: Seq<Seq<char>>) -> Seq<TrackModel> {
    names.map_values(|n: Seq<char>| channel_track(n))
}

/// The four bytes at `p` spell `tag`.
pub open spec fn bytes_are(b: Seq<u8>, p: int, tag: Seq<char>) -> bool {
    p + tag.len() <= b.len() && forall|i: int| 0 <= i < tag.len() ==> b[p + i] as u32 == tag[i] as u32
}

/// The record the scan state describes.
pub open spec fn fl_intel(st: FlScan) -> IntelModel {
    let base = blank_intel("FL Studio"@);
    IntelModel {
        bpm: match st.bpm {
            Some(v) => Some(NumberModel::Thousandths(v)),
            None => None,
        },
        time_signature: match (st.num, st.den) {
            (Some(n), Some(d)) => if n > 0 && d > 0 {
                Some(decimal(n as nat).push('/') + decimal(d as nat))
            } else {
                None
            },
            _ => None,
        },
        tracks: channel_tracks(st.names),
        plugins: tally(keys_of("vst"@, st.plugins)),
        mixer: crate::MixerInfo {
            total_tracks: if st.channels > 0 { st.channels as u32 } else { st.names.len() as u32 },
            ..base.mixer
        },
        ..base
    }
}

/// The outcome of parsing the bytes of an `.flp` file.
pub open spec fn parse_bytes_spec(b: Seq<u8>) -> Result<IntelModel, Seq<char>> {
    if b.len() < 12 {
        Err("File too short for FLP header"@)
    } else if !bytes_are(b, 0, "FLhd"@) {
        Err("Missing FLhd magic — not an FLP file"@)
    } else {
        let header_end = 8 + u32le(b, 4);
        if b.len() < header_end {
            Err("Truncated FLP header data"@)
        } else if b.len() < header_end + 8 {
            Err("Missing FLdt chunk"@)
        } else if !bytes_are(b, header_end, "FLdt"@) {
            Err("Expected FLdt chunk after header"@)
        } else {
            let data_start = header_end + 8;
            let data_end = if data_start + u32le(b, header_end + 4) < b.len() {
                data_start + u32le(b, header_end + 4)
            } else {
                b.len() as int
            };
            Ok(fl_intel(fl_scan(b, data_start, data_end, empty_scan())))
        }
    }
}

fn tag_matches(b: &[u8], p: usize, tag: &str) -> (r: bool)
    requires
        p + 4 <= b@.len(),
        tag@.len() == 4,
    ensures
        r == bytes_are(b@, p as int, tag@),
{
    let t = chars_of(tag);
    let mut i: usize = 0;
    while i < 4
        invariant
            0 <= i <= 4,
            t@ == tag@,
            t@.len() == 4,
            p + 4 <= b.len(),
            forall|k: int| 0 <= k < i ==> b@[p + k] as u32 == tag@[k] as u32,
        decreases 4 - i,
    {
        if b[p + i] as u32 != t[i] as u32 {
            assert(b@[p + i] as u32 != tag@[i as int] as u32);
            return false;
        }
        i = i + 1;
    }
    true
}

/// Exec state of the event scan.
struct Scanner {
    num: Option<u8>,
    den: Option<u8>,
    channels: u32,
    names: Vec<String>,
    plugins: Vec<String>,
    bpm: Option<u32>,
}

impl Scanner {
    spec fn model(&self) -> FlScan {
        FlScan {
            num: self.num,
            den: self.den,
            channels: self.channels as nat,
            names: self.names.deep_view(),
            plugins: self.plugins.deep_view(),
            bpm: self.bpm,
        }
    }
}

/// Parses the contents of an `.flp` file: header checks, then the event scan.
pub fn parse_bytes(bytes: &[u8]) -> (r: Result<ParsedIntelligence, String>)
    requires
        bytes@.len() <= 3 * (u32::MAX as int),
    ensures
        match (r, parse_bytes_spec(bytes@)) {
            (Ok(v), Ok(m)) => v@ == m,
            (Err(e), Err(m)) => e@ == m,
            _ => false,
        },
{
    if bytes.len() < 12 {
        return Err(String::from_str("File too short for FLP header"));
    }
    proof {
        reveal_strlit("FLhd");
        reveal_strlit("FLdt");
    }
    if !tag_matches(bytes, 0, "FLhd") {
        return Err(String::from_str("Missing FLhd magic — not an FLP file"));
    }
    let header_size = read_u32le(bytes, 4) as u64;
    let header_end: u64 = 8 + header_size;
    let len = bytes.len() as u64;
    if len < header_end {
        return Err(String::from_str("Truncated FLP header data"));
    }
    if len < header_end + 8 {
        return Err(String::from_str("Missing FLdt chunk"));
    }
    let he = header_end as usize;
    if !tag_matches(bytes, he, "FLdt") {
        return Err(String::from_str("Expected FLdt chunk after header"));
    }
    let data_size = read_u32le(bytes, he + 4) as u64;
    let data_start = he + 8;
    let data_end: usize = if (data_start as u64) + data_size < len {
        ((data_start as u64) + data_size) as usize
    } else {
        bytes.len()
    };
    let mut sc = Scanner { num: None, den: None, channels: 0, names: Vec::new(), plugins: Vec::new(), bpm: None };
    assert(sc.names.deep_view() =~= Seq::<Seq<char>>::empty());
    assert(sc.plugins.deep_view() =~= Seq::<Seq<char>>::empty());
    let ghost init = sc.model();
    let ghost goal = fl_scan(bytes@, data_start as int, data_end as int, init);
    let mut pos: usize = data_start;
    let mut done = false;
    while !done && pos < data_end
        invariant
            data_end <= bytes@.len(),
            bytes@.len() <= 3 * (u32::MAX as int),
            data_start <= pos <= bytes@.len(),
            done ==> sc.model() == goal,
            !done ==> fl_scan(bytes@, pos as int, data_end as int, sc.model()) == goal,
            3 * sc.channels <= pos,
            6 * sc.plugins@.len() <= pos,
        decreases bytes@.len() - pos,
    {
        let ghost before = sc.model();
        let ghost p0 = pos as int;
        let event_id = bytes[pos];
        pos = pos + 1;
        if event_id < 64 {
            if pos >= bytes.len() {
                done = true;
            } else {
                let value = bytes[pos];
                pos = pos + 1;
                if event_id == EVENT_TIME_SIG_NUM {
                    sc.num = Some(value);
                } else if event_id == EVENT_TIME_SIG_DEN {
                    sc.den = Some(value);
                }
            }
        } else if event_id < 128 {
            if bytes.len() - pos < 2 {
                done = true;
            } else {
                pos = pos + 2;
                if event_id == EVENT_NEW_CHANNEL {
                    sc.channels = sc.channels + 1;
                }
            }
        } else if event_id < 192 {
            if bytes.len() - pos < 4 {
                done = true;
            } else {
                let value = read_u32le(bytes, pos);
                pos = pos + 4;
                if event_id == EVENT_BPM && 30000 <= value && value <= 300000 {
                    sc.bpm = Some(value);
                }
            }
        } else {
            if bytes.len() - pos < 4 {
                done = true;
            } else {
                let length = read_u32le(bytes, pos) as usize;
                let ghost len_spec = u32le(bytes@, pos as int);
                pos = pos + 4;
                if (read_u32le(bytes, pos - 4) as u64) > ((bytes.len() - pos) as u64) {
                    done = true;
                } else {
                    assert(length as int == len_spec);
                    let event_data = vstd::slice::slice_subrange(bytes, pos, pos + length);
                    if event_id == EVENT_CHANNEL_NAME && length > 0 {
                        let name = decode_text(event_data);
                        if !name.as_str().is_empty() {
                            let ghost nv = name@;
                            let ghost prev = sc.names.deep_view();
                            sc.names.push(name);
                            assert(sc.names.deep_view() =~= prev.push(nv));
                        }
                    } else if event_id == EVENT_PLUGIN_NAME && length > 0 {
                        let name = decode_text(event_data);
                        if !name.as_str().is_empty() {
                            let ghost nv = name@;
                            let ghost prev = sc.plugins.deep_view();
                            sc.plugins.push(name);
                            assert(sc.plugins.deep_view() =~= prev.push(nv));
                        }
                    }
                    pos = pos + length;
                }
            }
        }
        proof {
            if done {
                assert(fl_event(bytes@, p0, before) is None);
                assert(sc.model() == before);
            } else {
                assert(fl_event(bytes@, p0, before) == Some((pos as int, sc.model())));
            }
        }
    }
    proof {
        assert(sc.model() == goal);
    }
    let mut time_signature: Option<String> = None;
    match (sc.num, sc.den) {
        (Some(n), Some(d)) => {
            if n > 0 && d > 0 {
                let mut ts = decimal_chars(n as u64);
                ts.push('/');
                let dd = decimal_chars(d as u64);
                let mut k: usize = 0;
                let ghost base = ts@;
                while k < dd.len()
                    invariant
                        0 <= k <= dd.len(),
                        ts@ == base + dd@.take(k as int),
                    decreases dd.len() - k,
                {
                    ts.push(dd[k]);
                    k = k + 1;
                    assert(ts@ =~= base + dd@.take(k as int));
                }
                assert(dd@.take(dd.len() as int) =~= dd@);
                time_signature = Some(string_from_chars(ts.as_slice()));
            }
        },
        _ => {},
    }
    let tracks = channel_tracks_exec(&sc.names);
    let plugins = tally_names("vst", &sc.plugins);
    let bpm = match sc.bpm {
        Some(v) => Some(Number::Thousandths(v)),
        None => None,
    };
    let total: u32 = if sc.channels > 0 { sc.channels } else { sc.names.len() as u32 };
    let mut intel = ParsedIntelligence::blank("FL Studio");
    intel.time_signature = time_signature;
    intel.tracks = tracks;
    intel.plugins = plugins;
    intel.bpm = bpm;
    intel.mixer.total_tracks = total;
    Ok(intel)
}

/// The track list for channel names: one `channel` track per name.
fn channel_tracks_exec(names: &Vec<String>) -> (r: Vec<TrackInfo>)
    ensures
        r.deep_view() == channel_tracks(names.deep_view()),
{
    let mut tracks: Vec<TrackInfo> = Vec::new();
    let mut i: usize = 0;
    while i < names.len()
        invariant
            0 <= i <= names.len(),
            tracks.deep_view() =~= channel_tracks(names.deep_view().take(i as int)),
        decreases names.len() - i,
    {
        let t = TrackInfo {
            name: names[i].clone(),
            track_type: String::from_str("channel"),
            plugins: Vec::new(),
            color: None,
        };
        assert(t.plugins.deep_view() =~= Seq::<Seq<char>>::empty());
        let ghost tv = t@;
        assert(tv == channel_track(names.deep_view()[i as int]));
        let ghost prev = tracks.deep_view();
        tracks.push(t);
        i = i + 1;
        assert(tracks.deep_view() =~= prev.push(tv));
        assert(channel_tracks(names.deep_view().take(i as int)) =~= channel_tracks(names.deep_view().take(i - 1)).push(tv));
    }
    assert(names.deep_view().take(names.len() as int) =~= names.deep_view());
    tracks
}

/// The error for a file of `len` bytes, when that is over the size limit.
pub open spec fn size_error(len: nat) -> Option<Seq<char>> {
    if len > MAX_FLP_BYTES {
        Some("File too large: "@ + decimal(len) + " bytes"@)
    } else {
        None
    }
}

/// Refuses a file of `len` bytes when it is larger than [`MAX_FLP_BYTES`].
pub fn check_size(len: u64) -> (r: Result<(), String>)
    ensures
        match r {
            Ok(()) => size_error(len as nat) is None,
            Err(e) => size_error(len as nat) == Some(e@),
        },
{
    if len > MAX_FLP_BYTES {
        let mut msg = String::from_str("File too large: ");
        let digits = decimal_chars(len);
        let d = string_from_chars(digits.as_slice());
        msg.append(d.as_str());
        msg.append(" bytes");
        Err(msg)
    } else {
        Ok(())
    }
}

/// Parses the whole contents of an `.flp` file: the size limit, then [`parse_bytes`].
pub fn parse(bytes: &[u8]) -> (r: Result<ParsedIntelligence, String>)
    ensures
        match size_error(bytes@.len()) {
            Some(e) => r matches Err(m) && m@ == e,
            None => match (r, parse_bytes_spec(bytes@)) {
                (Ok(v), Ok(m)) => v@ == m,
                (Err(e), Err(m)) => e@ == m,
                _ => false,
            },
        },
{
    check_size(bytes.len() as u64)?;
    parse_bytes(bytes)
}

} // verus!

verus! {

/// What every scan state reached from `pos` satisfies: the tempo, if any, lies in
/// 30..=300 BPM, and there are at most `pos / 6` plugin names (each takes an
/// id, a length and at least one byte).
pub open spec fn scan_inv(st: FlScan, pos: int) -> bool {
    &&& 6 * st.plugins.len() <= pos
    &&& (st.bpm matches Some(v) ==> 30000 <= v <= 300000)
}

proof fn lemma_scan_inv(b: Seq<u8>, pos: int, end: int, st: FlScan)
    requires
        0 <= pos <= b.len(),
        scan_inv(st, pos),
    ensures
        scan_inv(fl_scan(b, pos, end, st), b.len() as int),
    decreases b.len() - pos,
{
    if 0 <= pos && pos < end && pos < b.len() {
        match fl_event(b, pos, st) {
            None => {},
            Some((next, st2)) => {
                if next > pos {
                    let id = b[pos];
                    if id >= 192 {
                        let q = pos + 5;
                        let len = u32le(b, pos + 1);
                        let data = b.subrange(q, q + len);
                        if st2.plugins.len() > st.plugins.len() {
                            assert(id == EVENT_PLUGIN_NAME && data.len() > 0);
                        }
                    }
                    lemma_scan_inv(b, next, end, st2);
                }
            },
        }
    }
}

/// An FL Studio record names its DAW `FL Studio`; its tracks are all
/// `channel`s; it lists each plugin once with a positive count; its tempo, if
/// any, lies within 30 to 300 BPM; its numbers read as `f64`; and it gives no
/// DAW version, samples, MIDI summaries, markers, automated parameters,
/// duration or swing.
pub proof fn law_fl_record_is_consistent(b: Seq<u8>)
    requires
        b.len() <= 3 * (u32::MAX as int),
    ensures
        parse_bytes_spec(b) matches Ok(m) ==> {
            &&& m.daw == crate::daw_label(crate::Daw::FlStudio)
            &&& forall|i: int| 0 <= i < m.tracks.len() ==> (#[trigger] m.tracks[i]).track_type == "channel"@
            &&& crate::plugins_tallied(m.plugins)
            &&& crate::tempo_in_range(m.bpm)
            &&& crate::numbers_readable(m)
            &&& m.daw_version is None
            &&& m.samples.len() == 0
            &&& m.midi_tracks.len() == 0
            &&& m.markers.len() == 0
            &&& m.automated_params.len() == 0
            &&& m.duration_seconds is None
            &&& m.swing_percentage is None
        },
{
    if let Ok(m) = parse_bytes_spec(b) {
        let header_end = 8 + u32le(b, 4);
        let data_start = header_end + 8;
        let data_end = if data_start + u32le(b, header_end + 4) < b.len() {
            data_start + u32le(b, header_end + 4)
        } else {
            b.len() as int
        };
        lemma_scan_inv(b, data_start, data_end, empty_scan());
        let st = fl_scan(b, data_start, data_end, empty_scan());
        crate::tally::law_tally_lists_each_plugin_once(keys_of("vst"@, st.plugins));
    }
}

} // verus!

verus! {

/// The event at `pos`: its id, its payload and the position after it, or `None`
/// when the input ends inside it.
pub open spec fn fl_frame(b: Seq<u8>, pos: int) -> Option<(u8, Seq<u8>, int)> {
    let id = b[pos];
    let p = pos + 1;
    let size: int = if id < 64 { 1 } else if id < 128 { 2 } else { 4 };
    if p + size > b.len() {
        None
    } else if id < 192 {
        Some((id, b.subrange(p, p + size), p + size))
    } else {
        let q = p + 4;
        let len = u32le(b, p);
        if q + len > b.len() { None } else { Some((id, b.subrange(q, q + len), q + len)) }
    }
}

/// The events (id and payload) of the data from `pos` up to `end`, in order.
pub open spec fn fl_events(b: Seq<u8>, pos: int, end: int) -> Seq<(u8, Seq<u8>)>
    decreases b.len() - pos,
{
    if 0 <= pos && pos < end && pos < b.len() {
        match fl_frame(b, pos) {
            None => Seq::empty(),
            Some((id, data, next)) => if next > pos {
                seq![(id, data)] + fl_events(b, next, end)
            } else {
                Seq::empty()
            },
        }
    } else {
        Seq::empty()
    }
}

/// The event is a tempo event whose value lies in 30..=300 BPM.
pub open spec fn is_tempo_event(e: (u8, Seq<u8>)) -> bool {
    e.0 == EVENT_BPM && 30000 <= u32le(e.1, 0) <= 300000
}

/// The value (thousandths of a BPM) of the last tempo event of `evs` whose value
/// lies in 30..=300 BPM.
pub open spec fn last_fl_tempo(evs: Seq<(u8, Seq<u8>)>) -> Option<u32>
    decreases evs.len(),
{
    if evs.len() == 0 {
        None
    } else {
        match last_fl_tempo(evs.drop_first()) {
            Some(v) => Some(v),
            None => if is_tempo_event(evs[0]) { Some(u32le(evs[0].1, 0) as u32) } else { None },
        }
    }
}

/// Where the event data of an `.flp` file starts.
pub open spec fn fl_data_start(b: Seq<u8>) -> int {
    8 + u32le(b, 4) + 8
}

/// Where the event data of an `.flp` file ends: after the size the `FLdt` chunk
/// gives, or at the end of the file.
pub open spec fn fl_data_end(b: Seq<u8>) -> int {
    let header_end = 8 + u32le(b, 4);
    if header_end + 8 + u32le(b, header_end + 4) < b.len() {
        header_end + 8 + u32le(b, header_end + 4)
    } else {
        b.len() as int
    }
}

proof fn lemma_scan_tempo(b: Seq<u8>, pos: int, end: int, st: FlScan)
    ensures
        fl_scan(b, pos, end, st).bpm == (match last_fl_tempo(fl_events(b, pos, end)) {
            Some(v) => Some(v),
            None => st.bpm,
        }),
    decreases b.len() - pos,
{
    if 0 <= pos && pos < end && pos < b.len() {
        let id = b[pos];
        let p = pos + 1;
        match fl_event(b, pos, st) {
            None => {
                assert(fl_frame(b, pos) is None);
            },
            Some((next, st2)) => {
                let (fid, data, fnext) = fl_frame(b, pos).unwrap();
                assert(fnext == next);
                if next > pos {
                    lemma_scan_tempo(b, next, end, st2);
                    let evs = fl_events(b, pos, end);
                    assert(evs.drop_first() =~= fl_events(b, next, end));
                    if 128 <= id < 192 {
                        assert(data[0] == b[p] && data[1] == b[p + 1] && data[2] == b[p + 2] && data[3] == b[p + 3]);
                        assert(u32le(data, 0) == u32le(b, p));
                    }
                }
            },
        }
    }
}

/// The tempo of an FL Studio record is the value of the last tempo event whose
/// value lies within 30 to 300 BPM, and there is none when no such event exists.
pub proof fn law_fl_tempo_is_last_in_range(b: Seq<u8>)
    ensures
        parse_bytes_spec(b) matches Ok(m) ==> m.bpm == (match last_fl_tempo(fl_events(b, fl_data_start(b), fl_data_end(b))) {
            Some(v) => Some(NumberModel::Thousandths(v)),
            None => None,
        }),
{
    lemma_scan_tempo(b, fl_data_start(b), fl_data_end(b), empty_scan());
}

/// Reading an `.flp` file fails exactly when its header is bad: shorter than 12
/// bytes, without the `FLhd` magic, or without a complete `FLdt` chunk header right
/// after the header data. Events that are truncated, empty or oversized never
/// make it fail.
pub proof fn law_fl_fails_only_on_bad_header(b: Seq<u8>)
    ensures
        parse_bytes_spec(b) is Err <==> (b.len() < 12 || !bytes_are(b, 0, "FLhd"@)
            || b.len() < 8 + u32le(b, 4) + 8 || !bytes_are(b, 8 + u32le(b, 4), "FLdt"@)),
{
}

/// The number of new-channel events among `evs`.
pub open spec fn new_channel_events(evs: Seq<(u8, Seq<u8>)>) -> nat
    decreases evs.len(),
{
    if evs.len() == 0 {
        0
    } else {
        (if evs[0].0 == EVENT_NEW_CHANNEL { 1nat } else { 0nat }) + new_channel_events(evs.drop_first())
    }
}

proof fn lemma_scan_channels(b: Seq<u8>, pos: int, end: int, st: FlScan)
    ensures
        fl_scan(b, pos, end, st).channels == st.channels + new_channel_events(fl_events(b, pos, end)),
    decreases b.len() - pos,
{
    if 0 <= pos && pos < end && pos < b.len() {
        match fl_event(b, pos, st) {
            None => {
                assert(fl_frame(b, pos) is None);
            },
            Some((next, st2)) => {
                let (fid, data, fnext) = fl_frame(b, pos).unwrap();
                assert(fnext == next);
                if next > pos {
                    lemma_scan_channels(b, next, end, st2);
                    let evs = fl_events(b, pos, end);
                    assert(evs.drop_first() =~= fl_events(b, next, end));
                    assert(evs[0].0 == b[pos]);
                }
            },
        }
    }
}

/// The track total of an FL Studio record is the number of new-channel events
/// when there is one, however many channel names there are; without any it is
/// the number of named channels.
pub proof fn law_fl_track_total_counts_new_channels(b: Seq<u8>)
    ensures
        parse_bytes_spec(b) matches Ok(m) ==> {
            let n = new_channel_events(fl_events(b, fl_data_start(b), fl_data_end(b)));
            &&& n > 0 ==> m.mixer.total_tracks == n as u32
            &&& n == 0 ==> m.mixer.total_tracks == m.tracks.len() as u32
        },
{
    lemma_scan_channels(b, fl_data_start(b), fl_data_end(b), empty_scan());
}

} // verus!

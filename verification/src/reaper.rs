//! REAPER `.rpp` projects.
//!
//! An `.rpp` file is plain text with a bracketed block structure (`<TRACK` …
//! `>`). It is read line by line: each trimmed line may open or close a block
//! and may match one of the patterns of [`crate::rpp_line`].
use vstd::prelude::*;
use vstd::string::StringSliceAdditionalSpecFns;
use crate::number::{Number, NumberModel};
use crate::rpp_line::{
    au_line, au_line_exec, auxrecv_line, auxrecv_line_exec, clap_line, clap_line_exec, envelope_line,
    envelope_line_exec, js_line, js_line_exec, keyed_line, keyed_line_exec, marker_line, marker_line_exec,
    note_line, note_line_exec, tempo_line, tempo_line_exec, version_line, version_line_exec, vst_line,
    vst_line_exec,
};
use crate::tally::{counts_at_most, tally_add, tally_push};
use crate::text::{chars_of, decimal, starts_with, string_from_chars, trim, until};
use crate::{
    IntelModel, MarkerInfo, MarkerModel, MidiTrackInfo, MidiTrackModel, MixerInfo, ParsedIntelligence,
    PluginInfo, PluginModel, SampleInfo, SampleModel, TrackInfo, TrackModel, blank_intel,
};

verus! {

/// A plugin name without the vendor in parentheses, trimmed:
/// `FabFilter Pro-Q 3 (FabFilter)` gives `FabFilter Pro-Q 3`. A name that
/// begins with `(` is only trimmed.
pub open spec fn clean_name(raw: Seq<char>) -> Seq<char> {
    if until(raw, '(').len() > 0 { trim(until(raw, '(')) } else { trim(raw) }
}

/// Strips the vendor in parentheses from a plugin name, and trims it.
pub fn clean_plugin_name(raw: &str) -> (r: String)
    ensures
        r@ == clean_name(raw@),
{
    let c = chars_of(raw);
    let head = crate::text::until_char(c.as_slice(), '(');
    if head.len() > 0 {
        string_from_chars(crate::text::trim_chars(head.as_slice()).as_slice())
    } else {
        string_from_chars(crate::text::trim_chars(c.as_slice()).as_slice())
    }
}

/// The part of a path after its last `/` or `\`.
pub open spec fn last_segment(p: Seq<char>) -> Seq<char>
    decreases p.len(),
{
    if p.len() == 0 {
        p
    } else if p.last() == '/' || p.last() == '\\' {
        Seq::empty()
    } else {
        last_segment(p.drop_last()).push(p.last())
    }
}

fn last_segment_exec(p: &[char]) -> (r: Vec<char>)
    ensures
        r@ == last_segment(p@),
{
    let mut k: usize = p.len();
    assert(p@.take(k as int) =~= p@);
    assert(p@.subrange(k as int, p@.len() as int) =~= Seq::<char>::empty());
    while k > 0 && p[k - 1] != '/' && p[k - 1] != '\\'
        invariant
            0 <= k <= p@.len(),
            last_segment(p@) == last_segment(p@.take(k as int)) + p@.subrange(k as int, p@.len() as int),
        decreases k,
    {
        assert(p@.take(k as int).drop_last() =~= p@.take(k - 1));
        assert(p@.subrange(k - 1, p@.len() as int) =~= seq![p@[k - 1]] + p@.subrange(k as int, p@.len() as int));
        assert(last_segment(p@.take(k as int)) == last_segment(p@.take(k - 1)).push(p@[k - 1]));
        k = k - 1;
    }
    proof {
        if k > 0 {
            assert(last_segment(p@.take(k as int)) =~= Seq::<char>::empty());
        } else {
            assert(p@.take(0) =~= Seq::<char>::empty());
        }
        assert(last_segment(p@) =~= p@.subrange(k as int, p@.len() as int));
    }
    vstd::slice::slice_to_vec(vstd::slice::slice_subrange(p, k, p.len()))
}

/// Value of one hexadecimal digit.
pub open spec fn hex_digit(c: char) -> nat {
    if '0' <= c && c <= '9' {
        (c as u32 - '0' as u32) as nat
    } else if 'a' <= c && c <= 'f' {
        (c as u32 - 'a' as u32 + 10) as nat
    } else {
        (c as u32 - 'A' as u32 + 10) as nat
    }
}

/// Value of two hexadecimal digits.
pub open spec fn hex_byte(h: Seq<char>) -> nat {
    16 * hex_digit(h[0]) + hex_digit(h[1])
}

fn hex_digit_exec(c: char) -> (r: u8)
    requires
        crate::rpp_line::is_hex(c),
    ensures
        r == hex_digit(c),
{
    if '0' <= c && c <= '9' {
        (c as u32 - '0' as u32) as u8
    } else if 'a' <= c && c <= 'f' {
        (c as u32 - 'a' as u32 + 10) as u8
    } else {
        (c as u32 - 'A' as u32 + 10) as u8
    }
}

/// The smallest element of a non-empty sequence.
pub open spec fn seq_min(s: Seq<u8>) -> u8
    decreases s.len(),
{
    if s.len() <= 1 {
        s[0]
    } else if s.last() < seq_min(s.drop_last()) {
        s.last()
    } else {
        seq_min(s.drop_last())
    }
}

/// The largest element of a non-empty sequence.
pub open spec fn seq_max(s: Seq<u8>) -> u8
    decreases s.len(),
{
    if s.len() <= 1 {
        s[0]
    } else if s.last() > seq_max(s.drop_last()) {
        s.last()
    } else {
        seq_max(s.drop_last())
    }
}

fn min_max(s: &Vec<u8>) -> (r: (u8, u8))
    requires
        s@.len() > 0,
    ensures
        r.0 == seq_min(s@),
        r.1 == seq_max(s@),
{
    let mut lo = s[0];
    let mut hi = s[0];
    let mut i: usize = 1;
    while i < s.len()
        invariant
            1 <= i <= s@.len(),
            lo == seq_min(s@.take(i as int)),
            hi == seq_max(s@.take(i as int)),
        decreases s.len() - i,
    {
        assert(s@.take(i + 1).drop_last() =~= s@.take(i as int));
        if s[i] < lo {
            lo = s[i];
        }
        if s[i] > hi {
            hi = s[i];
        }
        i = i + 1;
    }
    assert(s@.take(s.len() as int) =~= s@);
    (lo, hi)
}

/// A parsed count, or 4 when the text does not parse as a `u32`.
pub open spec fn or_four(t: Seq<char>) -> u32 {
    match crate::project_data::parse_u32(t) {
        Some(v) => v,
        None => 4,
    }
}

/// The time signature text `N/D` of a `TEMPO` line.
pub open spec fn signature_text(num: Seq<char>, den: Seq<char>) -> Seq<char> {
    decimal(or_four(num) as nat).push('/') + decimal(or_four(den) as nat)
}

/// What the line-by-line reading has gathered so far.
#[verifier::ext_equal]
pub struct RppScan {
    pub version: Option<Seq<char>>,
    pub depth: int,
    pub in_track: bool,
    pub in_source: bool,
    /// Name, plugins, return flag and note pitches of the track being read.
    pub name: Seq<char>,
    pub track_plugins: Seq<Seq<char>>,
    pub auxrecv: bool,
    pub notes: Seq<u8>,
    /// Plugin tally by (type, name), in order of first occurrence.
    pub plugins: Seq<PluginModel>,
    pub tracks: Seq<TrackModel>,
    pub audio: nat,
    pub midi: nat,
    pub returns: nat,
    pub sidechain: bool,
    pub bpm: Option<NumberModel>,
    pub time_signature: Option<Seq<char>>,
    pub markers: Seq<MarkerModel>,
    pub samples: Seq<SampleModel>,
    pub midi_tracks: Seq<MidiTrackModel>,
    pub automated: Seq<Seq<char>>,
}

pub open spec fn rpp_start() -> RppScan {
    RppScan {
        version: None,
        depth: 0,
        in_track: false,
        in_source: false,
        name: Seq::empty(),
        track_plugins: Seq::empty(),
        auxrecv: false,
        notes: Seq::empty(),
        plugins: Seq::empty(),
        tracks: Seq::empty(),
        audio: 0,
        midi: 0,
        returns: 0,
        sidechain: false,
        bpm: None,
        time_signature: None,
        markers: Seq::empty(),
        samples: Seq::empty(),
        midi_tracks: Seq::empty(),
        automated: Seq::empty(),
    }
}

/// The first line that names a version sets it.
pub open spec fn version_step(st: RppScan, t: Seq<char>) -> RppScan {
    if st.version is None {
        match version_line(t) {
            Some(v) => RppScan { version: Some(v), ..st },
            None => st,
        }
    } else {
        st
    }
}

/// The plugin a line names, with its type: `vst`, `au`, `clap` (names cleaned
/// of their vendor) or `js`.
pub open spec fn plugin_of_line(t: Seq<char>) -> Option<(Seq<char>, Seq<char>)> {
    match vst_line(t) {
        Some(c) => Some(("vst"@, clean_name(c))),
        None => match au_line(t) {
            Some(c) => Some(("au"@, clean_name(c))),
            None => match clap_line(t) {
                Some(c) => Some(("clap"@, clean_name(c))),
                None => match js_line(t) {
                    Some(c) => Some(("js"@, c)),
                    None => None,
                },
            },
        },
    }
}

/// A line that opens a block (`<…`): one level deeper; `<TRACK` at the second
/// level starts a track; `<SOURCE` enters a source; inside a track, a plugin line
/// adds the plugin to the track and to the tally.
pub open spec fn open_step(st: RppScan, t: Seq<char>) -> RppScan {
    if t.len() > 0 && t[0] == '<' {
        let d = st.depth + 1;
        let s1 = if starts_with(t, "<TRACK"@) && d == 2 {
            RppScan {
                depth: d,
                in_track: true,
                name: Seq::empty(),
                track_plugins: Seq::empty(),
                auxrecv: false,
                notes: Seq::empty(),
                ..st
            }
        } else {
            RppScan { depth: d, ..st }
        };
        let s2 = if starts_with(t, "<SOURCE"@) { RppScan { in_source: true, ..s1 } } else { s1 };
        if s2.in_track {
            match plugin_of_line(t) {
                Some((kind, name)) => RppScan {
                    track_plugins: s2.track_plugins.push(name),
                    plugins: tally_add(s2.plugins, kind, name),
                    ..s2
                },
                None => s2,
            }
        } else {
            s2
        }
    } else {
        st
    }
}

/// The type of the track being read: `return` when it receives an aux send,
/// else `midi` when it has notes, else `audio`.
pub open spec fn track_kind(st: RppScan) -> Seq<char> {
    if st.auxrecv {
        "return"@
    } else if st.notes.len() > 0 {
        "midi"@
    } else {
        "audio"@
    }
}

/// The track being read is complete: it is counted, summarised (with its note
/// range when it has notes) and added.
pub open spec fn finish_track(st: RppScan) -> RppScan {
    RppScan {
        returns: if st.auxrecv { st.returns + 1 } else { st.returns },
        midi: if !st.auxrecv && st.notes.len() > 0 { st.midi + 1 } else { st.midi },
        audio: if !st.auxrecv && st.notes.len() == 0 { st.audio + 1 } else { st.audio },
        midi_tracks: if st.notes.len() > 0 {
            st.midi_tracks.push(MidiTrackModel {
                track_name: st.name,
                note_count: st.notes.len() as u32,
                pitch_low: Some(seq_min(st.notes)),
                pitch_high: Some(seq_max(st.notes)),
            })
        } else {
            st.midi_tracks
        },
        tracks: st.tracks.push(TrackModel {
            name: st.name,
            track_type: track_kind(st),
            plugins: st.track_plugins,
            color: None,
        }),
        in_track: false,
        ..st
    }
}

/// A line `>` closes a block: one level up; a track ends when the level drops
/// below two; any source is left.
pub open spec fn close_step(st: RppScan, t: Seq<char>) -> RppScan {
    if t == ">"@ {
        let s1 = RppScan { depth: st.depth - 1, ..st };
        let s2 = if s1.in_track && s1.depth < 2 { finish_track(s1) } else { s1 };
        RppScan { in_source: false, ..s2 }
    } else {
        st
    }
}

/// A `TEMPO` line at the top level sets the time signature, and the tempo when
/// it parses to a value in `30.0..=300.0`.
pub open spec fn tempo_step(st: RppScan, t: Seq<char>) -> RppScan {
    if st.depth <= 1 {
        match tempo_line(t) {
            Some((b, n, d)) => RppScan {
                bpm: if crate::number::in_tempo_range(b) { Some(NumberModel::Literal(b)) } else { st.bpm },
                time_signature: Some(signature_text(n, d)),
                ..st
            },
            None => st,
        }
    } else {
        st
    }
}

/// A `MARKER` line with a non-empty name adds a marker (at position zero when
/// its position does not parse).
pub open spec fn marker_step(st: RppScan, t: Seq<char>) -> RppScan {
    match marker_line(t) {
        Some((p, name)) => if name.len() > 0 {
            RppScan {
                markers: st.markers.push(MarkerModel {
                    name: name,
                    position_seconds: if crate::number::is_float_literal(p) {
                        NumberModel::Literal(p)
                    } else {
                        NumberModel::Zero
                    },
                }),
                ..st
            }
        } else {
            st
        },
        None => st,
    }
}

/// Inside a track that has no name yet, a `NAME` line names it.
pub open spec fn name_step(st: RppScan, t: Seq<char>) -> RppScan {
    if st.in_track && st.name.len() == 0 {
        match keyed_line(t, "NAME"@) {
            Some(n) => RppScan { name: n, ..st },
            None => st,
        }
    } else {
        st
    }
}

/// Inside a track, an `AUXRECV` line makes it a return track and marks a sidechain.
pub open spec fn auxrecv_step(st: RppScan, t: Seq<char>) -> RppScan {
    if st.in_track && auxrecv_line(t) { RppScan { auxrecv: true, sidechain: true, ..st } } else { st }
}

/// Inside a source, a `FILE` line adds a sample named by the path's last segment.
pub open spec fn file_step(st: RppScan, t: Seq<char>) -> RppScan {
    if st.in_source {
        match keyed_line(t, "FILE"@) {
            Some(p) => RppScan {
                samples: st.samples.push(SampleModel { name: last_segment(p), path: Some(p) }),
                ..st
            },
            None => st,
        }
    } else {
        st
    }
}

/// Inside a track, a note-on event with a non-zero velocity adds its pitch.
pub open spec fn note_step(st: RppScan, t: Seq<char>) -> RppScan {
    if st.in_track {
        match note_line(t) {
            Some((p, v)) => if hex_byte(v) > 0 { RppScan { notes: st.notes.push(hex_byte(p) as u8), ..st } } else { st },
            None => st,
        }
    } else {
        st
    }
}

/// An automation envelope line is kept as it stands.
pub open spec fn envelope_step(st: RppScan, t: Seq<char>) -> RppScan {
    if envelope_line(t) { RppScan { automated: st.automated.push(t), ..st } } else { st }
}

/// The effect of one trimmed line, the checks in this order.
pub open spec fn rpp_step(st: RppScan, t: Seq<char>) -> RppScan {
    envelope_step(
        note_step(
            file_step(
                auxrecv_step(name_step(marker_step(tempo_step(close_step(open_step(version_step(st, t), t), t), t), t), t), t),
                t,
            ),
            t,
        ),
        t,
    )
}

/// The pieces of `s` between `\n` characters (the last one possibly empty).
pub open spec fn split_lines(s: Seq<char>) -> Seq<Seq<char>>
    decreases s.len(),
{
    if s.len() == 0 {
        seq![Seq::empty()]
    } else {
        let p = split_lines(s.drop_last());
        if s.last() == '\n' {
            p.push(Seq::empty())
        } else {
            p.update(p.len() - 1, p.last().push(s.last()))
        }
    }
}

/// The lines of `s` (`str::lines`, up to the `\r` that trimming removes anyway):
/// the pieces between `\n` characters, without an empty last one.
pub open spec fn text_lines(s: Seq<char>) -> Seq<Seq<char>> {
    let p = split_lines(s);
    if p.last().len() == 0 { p.drop_last() } else { p }
}

/// The state after reading `lines`, each one trimmed.
pub open spec fn rpp_scan(lines: Seq<Seq<char>>) -> RppScan
    decreases lines.len(),
{
    if lines.len() == 0 {
        rpp_start()
    } else {
        rpp_step(rpp_scan(lines.drop_last()), trim(lines.last()))
    }
}

/// The record the reading state describes.
pub open spec fn rpp_intel(st: RppScan) -> IntelModel {
    IntelModel {
        daw_version: st.version,
        bpm: st.bpm,
        time_signature: st.time_signature,
        tracks: st.tracks,
        plugins: st.plugins,
        samples: st.samples,
        midi_tracks: st.midi_tracks,
        markers: st.markers,
        mixer: MixerInfo {
            total_tracks: st.tracks.len() as u32,
            audio_tracks: st.audio as u32,
            midi_tracks: st.midi as u32,
            return_tracks: st.returns as u32,
            group_tracks: 0,
            has_sidechain: st.sidechain,
        },
        automated_params: st.automated,
        ..blank_intel("Reaper"@)
    }
}

/// What [`parse_content`] makes of the text of an `.rpp` file.
pub open spec fn parse_content_spec(content: Seq<char>) -> IntelModel {
    rpp_intel(rpp_scan(text_lines(content)))
}

/// After `n` lines, no counter of the reading state exceeds `n`.
pub open spec fn bounded(st: RppScan, n: int) -> bool {
    &&& -n <= st.depth <= n
    &&& st.audio <= n
    &&& st.midi <= n
    &&& st.returns <= n
    &&& st.notes.len() <= n
    &&& st.tracks.len() <= n
    &&& counts_at_most(st.plugins, n)
}

proof fn lemma_open_bounded(st: RppScan, t: Seq<char>, n: int)
    requires
        bounded(st, n),
        0 <= n,
    ensures
        bounded(open_step(st, t), n + 1),
        open_step(st, t).notes.len() <= st.notes.len(),
{
    if t.len() > 0 && t[0] == '<' {
        let d = st.depth + 1;
        let a = if starts_with(t, "<TRACK"@) && d == 2 {
            RppScan { depth: d, in_track: true, name: Seq::empty(), track_plugins: Seq::empty(), auxrecv: false, notes: Seq::empty(), ..st }
        } else {
            RppScan { depth: d, ..st }
        };
        let b = if starts_with(t, "<SOURCE"@) { RppScan { in_source: true, ..a } } else { a };
        assert(bounded(b, n + 1));
        if b.in_track {
            if let Some((kind, name)) = plugin_of_line(t) {
                crate::tally::lemma_tally_add_bound(b.plugins, kind, name, n + 1);
                crate::tally::lemma_tally_add_bound(b.plugins, kind, name, n);
            }
        }
    }
}

proof fn lemma_close_bounded(st: RppScan, t: Seq<char>, n: int)
    requires
        bounded(st, n),
        0 <= n,
    ensures
        bounded(close_step(st, t), n + 1),
        close_step(st, t).notes == st.notes,
{
}

proof fn lemma_step_bounded(st: RppScan, t: Seq<char>, n: int)
    requires
        bounded(st, n),
        0 <= n,
    ensures
        bounded(rpp_step(st, t), n + 1),
{
    reveal_strlit(">");
    let s0 = version_step(st, t);
    let s1 = open_step(s0, t);
    lemma_open_bounded(s0, t, n);
    let s2 = close_step(s1, t);
    if t == ">"@ {
        assert(t[0] == '>');
        assert(s1 == s0);
        lemma_close_bounded(s0, t, n);
    }
    assert(bounded(s2, n + 1) && s2.notes.len() <= n);
    let s3 = auxrecv_step(name_step(marker_step(tempo_step(s2, t), t), t), t);
    assert(bounded(s3, n + 1) && s3.notes.len() <= n);
    let s4 = file_step(s3, t);
    assert(bounded(s4, n + 1) && s4.notes.len() <= n);
}

} // verus!

verus! {

/// Exec state of the line-by-line reading.
struct RppScanner {
    version: Option<String>,
    depth: i32,
    in_track: bool,
    in_source: bool,
    name: String,
    track_plugins: Vec<String>,
    auxrecv: bool,
    notes: Vec<u8>,
    plugins: Vec<PluginInfo>,
    tracks: Vec<TrackInfo>,
    audio: u32,
    midi: u32,
    returns: u32,
    sidechain: bool,
    bpm: Option<Number>,
    time_signature: Option<String>,
    markers: Vec<MarkerInfo>,
    samples: Vec<SampleInfo>,
    midi_tracks: Vec<MidiTrackInfo>,
    automated: Vec<String>,
}

impl RppScanner {
    spec fn model(&self) -> RppScan {
        RppScan {
            version: self.version.deep_view(),
            depth: self.depth as int,
            in_track: self.in_track,
            in_source: self.in_source,
            name: self.name@,
            track_plugins: self.track_plugins.deep_view(),
            auxrecv: self.auxrecv,
            notes: self.notes@,
            plugins: self.plugins.deep_view(),
            tracks: self.tracks.deep_view(),
            audio: self.audio as nat,
            midi: self.midi as nat,
            returns: self.returns as nat,
            sidechain: self.sidechain,
            bpm: self.bpm.deep_view(),
            time_signature: self.time_signature.deep_view(),
            markers: self.markers.deep_view(),
            samples: self.samples.deep_view(),
            midi_tracks: self.midi_tracks.deep_view(),
            automated: self.automated.deep_view(),
        }
    }
}

fn new_scanner() -> (sc: RppScanner)
    ensures
        sc.model() =~= rpp_start(),
{
    let sc = RppScanner {
        version: None,
        depth: 0,
        in_track: false,
        in_source: false,
        name: String::new(),
        track_plugins: Vec::new(),
        auxrecv: false,
        notes: Vec::new(),
        plugins: Vec::new(),
        tracks: Vec::new(),
        audio: 0,
        midi: 0,
        returns: 0,
        sidechain: false,
        bpm: None,
        time_signature: None,
        markers: Vec::new(),
        samples: Vec::new(),
        midi_tracks: Vec::new(),
        automated: Vec::new(),
    };
    assert(sc.model().track_plugins =~= Seq::<Seq<char>>::empty());
    assert(sc.model().plugins =~= Seq::<PluginModel>::empty());
    assert(sc.model().tracks =~= Seq::<TrackModel>::empty());
    assert(sc.model().markers =~= Seq::<MarkerModel>::empty());
    assert(sc.model().samples =~= Seq::<SampleModel>::empty());
    assert(sc.model().midi_tracks =~= Seq::<MidiTrackModel>::empty());
    assert(sc.model().automated =~= Seq::<Seq<char>>::empty());
    sc
}

pub(crate) fn clone_strings(v: &Vec<String>) -> (r: Vec<String>)
    ensures
        r.deep_view() == v.deep_view(),
{
    let mut r: Vec<String> = Vec::new();
    let mut i: usize = 0;
    while i < v.len()
        invariant
            0 <= i <= v.len(),
            r.deep_view() =~= v.deep_view().take(i as int),
        decreases v.len() - i,
    {
        let ghost prev = r.deep_view();
        r.push(v[i].clone());
        assert(r.deep_view() =~= prev.push(v.deep_view()[i as int]));
        assert(v.deep_view().take(i + 1) =~= v.deep_view().take(i as int).push(v.deep_view()[i as int]));
        i = i + 1;
    }
    assert(v.deep_view().take(v.len() as int) =~= v.deep_view());
    r
}

fn version_exec(sc: &mut RppScanner, t: &[char])
    ensures
        final(sc).model() =~= version_step(old(sc).model(), t@),
{
    if sc.version.is_none() {
        if let Some(v) = version_line_exec(t) {
            sc.version = Some(string_from_chars(v.as_slice()));
        }
    }
}

fn plugin_of_line_exec(t: &[char]) -> (r: Option<(String, String)>)
    ensures
        match (r, plugin_of_line(t@)) {
            (Some((k, n)), Some((sk, sn))) => k@ == sk && n@ == sn,
            (None, None) => true,
            _ => false,
        },
{
    if let Some(c) = vst_line_exec(t) {
        return Some((String::from_str("vst"), clean_plugin_name(string_from_chars(c.as_slice()).as_str())));
    }
    if let Some(c) = au_line_exec(t) {
        return Some((String::from_str("au"), clean_plugin_name(string_from_chars(c.as_slice()).as_str())));
    }
    if let Some(c) = clap_line_exec(t) {
        return Some((String::from_str("clap"), clean_plugin_name(string_from_chars(c.as_slice()).as_str())));
    }
    if let Some(c) = js_line_exec(t) {
        return Some((String::from_str("js"), string_from_chars(c.as_slice())));
    }
    None
}

fn open_exec(sc: &mut RppScanner, t: &[char], Ghost(n): Ghost<int>)
    requires
        bounded(old(sc).model(), n),
        0 <= n < i32::MAX,
    ensures
        final(sc).model() =~= open_step(old(sc).model(), t@),
{
    if t.len() > 0 && t[0] == '<' {
        let ghost st = sc.model();
        sc.depth = sc.depth + 1;
        if crate::text::begins_with(t, "<TRACK") && sc.depth == 2 {
            sc.in_track = true;
            sc.name = String::new();
            sc.track_plugins = Vec::new();
            sc.auxrecv = false;
            sc.notes = Vec::new();
            assert(sc.track_plugins.deep_view() =~= Seq::<Seq<char>>::empty());
            assert(sc.notes@ =~= Seq::<u8>::empty());
        }
        if crate::text::begins_with(t, "<SOURCE") {
            sc.in_source = true;
        }
        if sc.in_track {
            if let Some((kind, name)) = plugin_of_line_exec(t) {
                let ghost kv = kind@;
                let ghost nv = name@;
                let ghost prev = sc.track_plugins.deep_view();
                sc.track_plugins.push(name.clone());
                assert(sc.track_plugins.deep_view() =~= prev.push(nv));
                tally_push(&mut sc.plugins, kind, name, Ghost(n));
            }
        }
    }
}

fn finish_track_exec(sc: &mut RppScanner)
    requires
        old(sc).audio < u32::MAX,
        old(sc).midi < u32::MAX,
        old(sc).returns < u32::MAX,
        old(sc).notes@.len() <= u32::MAX,
    ensures
        final(sc).model() =~= finish_track(old(sc).model()),
{
    let ghost st = sc.model();
    let track_type = if sc.auxrecv {
        sc.returns = sc.returns + 1;
        String::from_str("return")
    } else if sc.notes.len() > 0 {
        sc.midi = sc.midi + 1;
        String::from_str("midi")
    } else {
        sc.audio = sc.audio + 1;
        String::from_str("audio")
    };
    if sc.notes.len() > 0 {
        let (lo, hi) = min_max(&sc.notes);
        let ghost prev = sc.midi_tracks.deep_view();
        let info = MidiTrackInfo {
            track_name: sc.name.clone(),
            note_count: sc.notes.len() as u32,
            pitch_low: Some(lo),
            pitch_high: Some(hi),
        };
        let ghost iv = info@;
        sc.midi_tracks.push(info);
        assert(sc.midi_tracks.deep_view() =~= prev.push(iv));
    }
    let track = TrackInfo {
        name: sc.name.clone(),
        track_type: track_type,
        plugins: clone_strings(&sc.track_plugins),
        color: None,
    };
    let ghost tv = track@;
    let ghost prev_tracks = sc.tracks.deep_view();
    sc.tracks.push(track);
    assert(sc.tracks.deep_view() =~= prev_tracks.push(tv));
    sc.in_track = false;
}

fn close_exec(sc: &mut RppScanner, t: &[char], Ghost(n): Ghost<int>)
    requires
        bounded(old(sc).model(), n),
        0 <= n < i32::MAX,
    ensures
        final(sc).model() =~= close_step(old(sc).model(), t@),
{
    if crate::text::equals_str(t, ">") {
        sc.depth = sc.depth - 1;
        if sc.in_track && sc.depth < 2 {
            finish_track_exec(sc);
        }
        sc.in_source = false;
    }
}

} // verus!

verus! {

fn signature_exec(num: &[char], den: &[char]) -> (r: String)
    ensures
        r@ == signature_text(num@, den@),
{
    let n = match crate::project_data::parse_u32_exec(num) { Some(v) => v, None => 4 };
    let d = match crate::project_data::parse_u32_exec(den) { Some(v) => v, None => 4 };
    let mut ts = crate::text::decimal_chars(n as u64);
    ts.push('/');
    let dd = crate::text::decimal_chars(d as u64);
    let mut k: usize = 0;
    let ghost base = ts@;
    while k < dd.len()
        invariant
            0 <= k <= dd.len(),
            ts@ == base + dd@.take(k as int),
        decreases dd.len() - k,
    {
        ts.push(dd[k]);
        k = k + 1;
        assert(ts@ =~= base + dd@.take(k as int));
    }
    assert(dd@.take(dd.len() as int) =~= dd@);
    string_from_chars(ts.as_slice())
}

fn tempo_exec(sc: &mut RppScanner, t: &[char])
    ensures
        final(sc).model() =~= tempo_step(old(sc).model(), t@),
{
    if sc.depth <= 1 {
        if let Some((b, n, d)) = tempo_line_exec(t) {
            if crate::number::in_tempo_range_exec(b.as_slice()) {
                sc.bpm = Some(Number::Literal(string_from_chars(b.as_slice())));
            }
            sc.time_signature = Some(signature_exec(n.as_slice(), d.as_slice()));
        }
    }
}

fn marker_exec(sc: &mut RppScanner, t: &[char])
    ensures
        final(sc).model() =~= marker_step(old(sc).model(), t@),
{
    if let Some((p, name)) = marker_line_exec(t) {
        if name.len() > 0 {
            let m = MarkerInfo {
                name: string_from_chars(name.as_slice()),
                position_seconds: crate::number::literal_or_zero(p.as_slice()),
            };
            let ghost mv = m@;
            let ghost prev = sc.markers.deep_view();
            sc.markers.push(m);
            assert(sc.markers.deep_view() =~= prev.push(mv));
        }
    }
}

fn name_exec(sc: &mut RppScanner, t: &[char])
    ensures
        final(sc).model() =~= name_step(old(sc).model(), t@),
{
    if sc.in_track && sc.name.as_str().is_empty() {
        if let Some(v) = keyed_line_exec(t, "NAME") {
            sc.name = string_from_chars(v.as_slice());
        }
    }
}

fn auxrecv_exec(sc: &mut RppScanner, t: &[char])
    ensures
        final(sc).model() =~= auxrecv_step(old(sc).model(), t@),
{
    if sc.in_track && auxrecv_line_exec(t) {
        sc.auxrecv = true;
        sc.sidechain = true;
    }
}

fn file_exec(sc: &mut RppScanner, t: &[char])
    ensures
        final(sc).model() =~= file_step(old(sc).model(), t@),
{
    if sc.in_source {
        if let Some(p) = keyed_line_exec(t, "FILE") {
            let name = last_segment_exec(p.as_slice());
            let s = SampleInfo { name: string_from_chars(name.as_slice()), path: Some(string_from_chars(p.as_slice())) };
            let ghost sv = s@;
            let ghost prev = sc.samples.deep_view();
            sc.samples.push(s);
            assert(sc.samples.deep_view() =~= prev.push(sv));
        }
    }
}

fn hex_byte_exec(h: &[char]) -> (r: u8)
    requires
        crate::rpp_line::hex2_at(h@, 0),
    ensures
        r == hex_byte(h@),
{
    let hi = hex_digit_exec(h[0]);
    let lo = hex_digit_exec(h[1]);
    (16 * (hi as u32) + (lo as u32)) as u8
}

fn note_exec(sc: &mut RppScanner, t: &[char])
    ensures
        final(sc).model() =~= note_step(old(sc).model(), t@),
{
    if sc.in_track {
        if let Some((p, v)) = note_line_exec(t) {
            if hex_byte_exec(v.as_slice()) > 0 {
                sc.notes.push(hex_byte_exec(p.as_slice()));
            }
        }
    }
}

fn envelope_exec(sc: &mut RppScanner, t: &[char])
    ensures
        final(sc).model() =~= envelope_step(old(sc).model(), t@),
{
    if envelope_line_exec(t) {
        let ghost prev = sc.automated.deep_view();
        sc.automated.push(string_from_chars(t));
        assert(sc.automated.deep_view() =~= prev.push(t@));
    }
}

fn step_exec(sc: &mut RppScanner, t: &[char], Ghost(n): Ghost<int>)
    requires
        bounded(old(sc).model(), n),
        0 <= n < i32::MAX,
    ensures
        final(sc).model() =~= rpp_step(old(sc).model(), t@),
        bounded(final(sc).model(), n + 1),
{
    proof {
        lemma_step_bounded(sc.model(), t@, n);
        reveal_strlit(">");
    }
    let ghost s0 = sc.model();
    version_exec(sc, t);
    assert(bounded(sc.model(), n));
    if t.len() > 0 && t[0] == '<' {
        open_exec(sc, t, Ghost(n));
    } else {
        assert(open_step(version_step(s0, t@), t@) == version_step(s0, t@));
        if t.len() == 1 && t[0] == '>' {
            close_exec(sc, t, Ghost(n));
        } else {
            assert(t@ != ">"@);
        }
    }
    proof {
        if t@ == ">"@ {
            assert(t@[0] == '>');
        }
    }
    tempo_exec(sc, t);
    marker_exec(sc, t);
    name_exec(sc, t);
    auxrecv_exec(sc, t);
    file_exec(sc, t);
    note_exec(sc, t);
    envelope_exec(sc, t);
}

} // verus!

verus! {

proof fn lemma_split_lines_len(s: Seq<char>)
    ensures
        split_lines(s).len() >= 1,
        split_lines(s).len() <= s.len() + 1,
    decreases s.len(),
{
    if s.len() > 0 {
        lemma_split_lines_len(s.drop_last());
    }
}

/// Reads the text of an `.rpp` file. It never fails: lines that match no
/// pattern are passed over.
#[verifier::rlimit(40)]
pub fn parse_content(content: &str) -> (r: Result<ParsedIntelligence, String>)
    requires
        content@.len() < i32::MAX,
    ensures
        r matches Ok(v) && v@ == parse_content_spec(content@),
{
    let c = chars_of(content);
    let mut sc = new_scanner();
    let mut cur: Vec<char> = Vec::new();
    let mut i: usize = 0;
    assert(c@.take(0) =~= Seq::<char>::empty());
    assert(split_lines(Seq::<char>::empty()).drop_last() =~= Seq::<Seq<char>>::empty());
    while i < c.len()
        invariant
            0 <= i <= c@.len(),
            c@ == content@,
            c@.len() < i32::MAX,
            sc.model() == rpp_scan(split_lines(c@.take(i as int)).drop_last()),
            cur@ == split_lines(c@.take(i as int)).last(),
            split_lines(c@.take(i as int)).len() >= 1,
            bounded(sc.model(), split_lines(c@.take(i as int)).len() - 1),
            split_lines(c@.take(i as int)).len() <= i + 1,
        decreases c.len() - i,
    {
        let ghost p = split_lines(c@.take(i as int));
        assert(c@.take(i + 1).drop_last() =~= c@.take(i as int));
        if c[i] == '\n' {
            let t = crate::text::trim_chars(cur.as_slice());
            step_exec(&mut sc, t.as_slice(), Ghost(p.len() - 1));
            cur = Vec::new();
            proof {
                let p2 = split_lines(c@.take(i + 1));
                assert(p2 == p.push(Seq::<char>::empty()));
                assert(p2.drop_last() =~= p);
                assert(p.drop_last() == p.drop_last());
                assert(cur@ =~= p2.last());
            }
        } else {
            cur.push(c[i]);
            proof {
                let p2 = split_lines(c@.take(i + 1));
                assert(p2.drop_last() =~= p.drop_last());
            }
        }
        i = i + 1;
    }
    assert(c@.take(c.len() as int) =~= c@);
    let ghost p = split_lines(c@);
    if cur.len() > 0 {
        let t = crate::text::trim_chars(cur.as_slice());
        step_exec(&mut sc, t.as_slice(), Ghost(p.len() - 1));
        assert(text_lines(c@) == p);
        assert(p.drop_last().push(p.last()) =~= p);
    } else {
        assert(text_lines(c@) == p.drop_last());
    }
    let mut intel = ParsedIntelligence::blank("Reaper");
    intel.daw_version = sc.version;
    intel.bpm = sc.bpm;
    intel.time_signature = sc.time_signature;
    intel.mixer = MixerInfo {
        total_tracks: sc.tracks.len() as u32,
        audio_tracks: sc.audio,
        midi_tracks: sc.midi,
        return_tracks: sc.returns,
        group_tracks: 0,
        has_sidechain: sc.sidechain,
    };
    intel.tracks = sc.tracks;
    intel.plugins = sc.plugins;
    intel.samples = sc.samples;
    intel.midi_tracks = sc.midi_tracks;
    intel.markers = sc.markers;
    intel.automated_params = sc.automated;
    Ok(intel)
}

} // verus!

verus! {

/// Largest `.rpp` file this parser reads (10 MiB).
pub const MAX_READ_BYTES: u64 = 10485760;

/// The error for a file of `len` bytes, when that is over the size limit.
pub open spec fn size_error(len: nat) -> Option<Seq<char>> {
    if len > MAX_READ_BYTES {
        Some("File too large: "@ + decimal(len) + " bytes"@)
    } else {
        None
    }
}

/// Refuses a file of `len` bytes when it is larger than [`MAX_READ_BYTES`].
pub fn check_size(len: u64) -> (r: Result<(), String>)
    ensures
        match r {
            Ok(()) => size_error(len as nat) is None,
            Err(e) => size_error(len as nat) == Some(e@),
        },
{
    if len > MAX_READ_BYTES {
        let mut msg = String::from_str("File too large: ");
        let digits = crate::text::decimal_chars(len);
        let d = string_from_chars(digits.as_slice());
        msg.append(d.as_str());
        msg.append(" bytes");
        Err(msg)
    } else {
        Ok(())
    }
}

proof fn lemma_chars_within_bytes(chars: Seq<char>)
    ensures
        chars.len() <= vstd::utf8::encode_utf8(chars).len(),
    decreases chars.len(),
{
    if chars.len() > 0 {
        lemma_chars_within_bytes(chars.drop_first());
    }
}

/// Reads the text of an `.rpp` file: refused when its UTF-8 encoding is larger
/// than [`MAX_READ_BYTES`], else [`parse_content`].
pub fn parse(content: &str) -> (r: Result<ParsedIntelligence, String>)
    ensures
        match size_error(content.spec_bytes().len()) {
            Some(e) => r matches Err(m) && m@ == e,
            None => r matches Ok(v) && v@ == parse_content_spec(content@),
        },
{
    let len = content.as_bytes().len();
    match check_size(len as u64) {
        Err(e) => Err(e),
        Ok(()) => {
            proof {
                lemma_chars_within_bytes(content@);
            }
            parse_content(content)
        },
    }
}

} // verus!

verus! {

/// What stays true of the reading state from line to line.
pub open spec fn rpp_inv(st: RppScan) -> bool {
    &&& crate::plugins_tallied(st.plugins)
    &&& st.audio == crate::tracks_of_type(st.tracks, "audio"@)
    &&& st.midi == crate::tracks_of_type(st.tracks, "midi"@)
    &&& st.returns == crate::tracks_of_type(st.tracks, "return"@)
    &&& crate::tracks_of_type(st.tracks, "group"@) == 0
    &&& crate::tempo_in_range(st.bpm)
    &&& forall|i: int| 0 <= i < st.markers.len() ==> crate::number::number_ok(#[trigger] st.markers[i].position_seconds)
    &&& crate::midi_summaries_sound(st.midi_tracks)
    &&& crate::track_types_among(st.tracks, set!["audio"@, "midi"@, "return"@])
    &&& (st.auxrecv ==> st.sidechain)
    &&& (st.returns > 0 ==> st.sidechain)
}

proof fn lemma_seq_min_max(s: Seq<u8>)
    requires
        s.len() > 0,
    ensures
        seq_min(s) <= seq_max(s),
        forall|i: int| 0 <= i < s.len() ==> seq_min(s) <= #[trigger] s[i] && s[i] <= seq_max(s),
    decreases s.len(),
{
    if s.len() > 1 {
        lemma_seq_min_max(s.drop_last());
        assert forall|i: int| 0 <= i < s.len() implies seq_min(s) <= #[trigger] s[i] && s[i] <= seq_max(s) by {
            if i < s.len() - 1 {
                assert(s[i] == s.drop_last()[i]);
            }
        }
    }
}

pub proof fn lemma_types_push(tracks: Seq<TrackModel>, t: TrackModel, kind: Seq<char>)
    ensures
        crate::tracks_of_type(tracks.push(t), kind)
            == crate::tracks_of_type(tracks, kind) + if t.track_type == kind { 1nat } else { 0nat },
{
    assert(tracks.push(t).drop_last() =~= tracks);
}

pub proof fn lemma_kinds_distinct()
    ensures
        "audio"@ != "midi"@,
        "audio"@ != "return"@,
        "audio"@ != "group"@,
        "midi"@ != "return"@,
        "midi"@ != "group"@,
        "return"@ != "group"@,
{
    reveal_strlit("audio");
    reveal_strlit("midi");
    reveal_strlit("return");
    reveal_strlit("group");
    assert("audio"@[0] != "group"@[0]);
    assert("midi"@.len() != "return"@.len());
    assert("midi"@.len() != "group"@.len());
    assert("return"@.len() != "group"@.len());
    assert("audio"@.len() != "midi"@.len());
    assert("audio"@.len() != "return"@.len());
}

proof fn lemma_finish_inv(st: RppScan, n: int)
    requires
        rpp_inv(st),
        bounded(st, n),
        0 <= n < u32::MAX - 1,
    ensures
        rpp_inv(finish_track(st)),
{
    let t = TrackModel { name: st.name, track_type: track_kind(st), plugins: st.track_plugins, color: None };
    lemma_kinds_distinct();
    lemma_types_push(st.tracks, t, "audio"@);
    lemma_types_push(st.tracks, t, "midi"@);
    lemma_types_push(st.tracks, t, "return"@);
    lemma_types_push(st.tracks, t, "group"@);
    let f = finish_track(st);
    assert forall|i: int| 0 <= i < f.tracks.len() implies set!["audio"@, "midi"@, "return"@].contains(#[trigger] f.tracks[i].track_type) by {
        if i < st.tracks.len() {
            assert(f.tracks[i] == st.tracks[i]);
        }
    }
    if st.notes.len() > 0 {
        lemma_seq_min_max(st.notes);
        assert forall|i: int| 0 <= i < f.midi_tracks.len() implies {
            let m = #[trigger] f.midi_tracks[i];
            &&& m.note_count >= 1
            &&& match (m.pitch_low, m.pitch_high) {
                (Some(lo), Some(hi)) => lo <= hi,
                (None, None) => true,
                _ => false,
            }
        } by {
            if i < st.midi_tracks.len() {
                assert(f.midi_tracks[i] == st.midi_tracks[i]);
            }
        }
    }
}

proof fn lemma_step_inv(st: RppScan, t: Seq<char>, n: int)
    requires
        rpp_inv(st),
        bounded(st, n),
        0 <= n < u32::MAX - 2,
    ensures
        rpp_inv(rpp_step(st, t)),
{
    reveal_strlit(">");
    let s0 = version_step(st, t);
    let s1 = open_step(s0, t);
    assert(rpp_inv(s1)) by {
        if t.len() > 0 && t[0] == '<' {
            let d = s0.depth + 1;
            let a = if starts_with(t, "<TRACK"@) && d == 2 {
                RppScan { depth: d, in_track: true, name: Seq::empty(), track_plugins: Seq::empty(), auxrecv: false, notes: Seq::empty(), ..s0 }
            } else {
                RppScan { depth: d, ..s0 }
            };
            let b = if starts_with(t, "<SOURCE"@) { RppScan { in_source: true, ..a } } else { a };
            if b.in_track {
                if let Some((kind, name)) = plugin_of_line(t) {
                    crate::tally::lemma_counts_mono(b.plugins, n, u32::MAX - 1);
                    crate::tally::lemma_tally_add_tallied(b.plugins, kind, name);
                }
            }
        }
    }
    let s2 = close_step(s1, t);
    assert(rpp_inv(s2)) by {
        if t == ">"@ {
            assert(t[0] == '>');
            assert(s1 == s0);
            let a = RppScan { depth: s1.depth - 1, ..s1 };
            if a.in_track && a.depth < 2 {
                lemma_finish_inv(a, n + 1);
            }
        }
    }
    let s3 = tempo_step(s2, t);
    let s4 = marker_step(s3, t);
    assert(rpp_inv(s4)) by {
        if let Some((p, name)) = marker_line(t) {
            if name.len() > 0 {
                assert forall|i: int| 0 <= i < s4.markers.len() implies crate::number::number_ok(#[trigger] s4.markers[i].position_seconds) by {
                    if i < s3.markers.len() {
                        assert(s4.markers[i] == s3.markers[i]);
                    }
                }
            }
        }
    }
}

proof fn lemma_scan_inv(lines: Seq<Seq<char>>)
    requires
        lines.len() < u32::MAX - 2,
    ensures
        rpp_inv(rpp_scan(lines)),
        bounded(rpp_scan(lines), lines.len() as int),
    decreases lines.len(),
{
    if lines.len() == 0 {
        reveal_strlit("audio");
    } else {
        lemma_scan_inv(lines.drop_last());
        let st = rpp_scan(lines.drop_last());
        lemma_step_inv(st, trim(lines.last()), lines.len() - 1);
        lemma_step_bounded(st, trim(lines.last()), lines.len() - 1);
    }
}

proof fn lemma_text_lines_len(s: Seq<char>)
    ensures
        text_lines(s).len() <= s.len() + 1,
{
    lemma_split_lines_len(s);
}

/// A REAPER record names its DAW `Reaper`; its mixer summary counts its tracks
/// (all of them `audio`, `midi` or `return`); it lists each plugin once with a
/// positive count; its tempo, if any, lies within 30 to 300 BPM; its numbers read
/// as `f64`; each MIDI summary has notes and a sound pitch range; every track is
/// `audio`, `midi` or `return`, so the three counts add up to the total and
/// there are no groups; a return track means a sidechain; and it gives no
/// duration or swing.
pub proof fn law_reaper_record_is_consistent(content: Seq<char>)
    requires
        content.len() < i32::MAX,
    ensures
        parse_content_spec(content).daw == crate::daw_label(crate::Daw::Reaper),
        crate::mixer_counts_tracks(parse_content_spec(content)),
        crate::plugins_tallied(parse_content_spec(content).plugins),
        crate::tempo_in_range(parse_content_spec(content).bpm),
        crate::numbers_readable(parse_content_spec(content)),
        crate::midi_summaries_sound(parse_content_spec(content).midi_tracks),
        parse_content_spec(content).duration_seconds is None,
        parse_content_spec(content).swing_percentage is None,
        crate::track_types_among(parse_content_spec(content).tracks, set!["audio"@, "midi"@, "return"@]),
        parse_content_spec(content).mixer.group_tracks == 0,
        parse_content_spec(content).mixer.total_tracks == parse_content_spec(content).mixer.audio_tracks
            + parse_content_spec(content).mixer.midi_tracks + parse_content_spec(content).mixer.return_tracks,
        parse_content_spec(content).mixer.return_tracks > 0 ==> parse_content_spec(content).mixer.has_sidechain,
{
    lemma_text_lines_len(content);
    let lines = text_lines(content);
    lemma_scan_inv(lines);
    let st = rpp_scan(lines);
    let m = parse_content_spec(content);
    assert(m.tracks == st.tracks);
    assert forall|i: int| 0 <= i < m.tracks.len() implies crate::mixer_types().contains(#[trigger] m.tracks[i].track_type) by {
        assert(set!["audio"@, "midi"@, "return"@].contains(m.tracks[i].track_type));
    }
    crate::lemma_type_counts_sum(m.tracks);
}

} // verus!

verus! {

/// The bracket depth after `lines`: one level down for each trimmed line that
/// begins with `<`, one up for each line that is `>`.
pub open spec fn bracket_depth(lines: Seq<Seq<char>>) -> int
    decreases lines.len(),
{
    if lines.len() == 0 {
        0
    } else {
        let t = trim(lines.last());
        bracket_depth(lines.drop_last()) + (if t.len() > 0 && t[0] == '<' { 1int } else { 0int })
            - (if t == ">"@ { 1int } else { 0int })
    }
}

/// The tempo of the last `TEMPO` line among `lines` that stands at bracket depth
/// at most one and whose tempo lies in `30.0..=300.0`.
pub open spec fn last_tempo(lines: Seq<Seq<char>>) -> Option<Seq<char>>
    decreases lines.len(),
{
    if lines.len() == 0 {
        None
    } else {
        match tempo_line(trim(lines.last())) {
            Some((b, _, _)) => if bracket_depth(lines.drop_last()) <= 1 && crate::number::in_tempo_range(b) {
                Some(b)
            } else {
                last_tempo(lines.drop_last())
            },
            None => last_tempo(lines.drop_last()),
        }
    }
}

#[verifier::spinoff_prover]
#[verifier::rlimit(40)]
proof fn lemma_scan_depth_tempo(lines: Seq<Seq<char>>)
    ensures
        rpp_scan(lines).depth == bracket_depth(lines),
        rpp_scan(lines).bpm == (match last_tempo(lines) {
            Some(b) => Some(NumberModel::Literal(b)),
            None => None,
        }),
    decreases lines.len(),
{
    if lines.len() > 0 {
        lemma_scan_depth_tempo(lines.drop_last());
        let t = trim(lines.last());
        reveal_strlit("TEMPO");
        reveal_strlit(">");
        if tempo_line(t) is Some {
            assert(crate::text::occurs_at(t, "TEMPO"@, 0));
            assert(t[0] == "TEMPO"@[0]);
            assert(t.len() != 1 || t[0] != ">"@[0]);
            assert(t != ">"@);
        }
    }
}

/// The tempo of a REAPER record is that of the last `TEMPO` line at bracket depth
/// at most one whose tempo lies within 30 to 300 BPM, and there is none when no
/// such line exists.
pub proof fn law_reaper_tempo_is_last_top_level_tempo(content: Seq<char>)
    ensures
        parse_content_spec(content).bpm == (match last_tempo(text_lines(content)) {
            Some(b) => Some(NumberModel::Literal(b)),
            None => None,
        }),
{
    lemma_scan_depth_tempo(text_lines(content));
}

/// A track keeps the first name it is given: once the current track has a
/// name, no later line inside it (a `NAME` of an item or a source, or any other
/// line) changes that name, unless the line opens a new track.
pub proof fn law_reaper_track_keeps_its_first_name(st: RppScan, t: Seq<char>)
    requires
        st.in_track,
        st.name.len() > 0,
        !starts_with(t, "<TRACK"@),
    ensures
        rpp_step(st, t).name == st.name,
        rpp_step(st, t).in_track || rpp_step(st, t).tracks.last().name == st.name,
{
}

} // verus!

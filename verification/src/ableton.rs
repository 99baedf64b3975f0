//! Ableton Live `.als` sets.
//!
//! An `.als` file is gzip-compressed XML. The parser walks the reader's events
//! with a stack of open tags and a set of flags saying which parts of the set it
//! is inside (a track, a device chain, a locator, a MIDI clip, …).
use vstd::prelude::*;
use crate::number::{Number, NumberModel};
use crate::tally::{tally_add, tally_push, wrap_inc};
use crate::text::{chars_of, dedup, dedup_push, equals_str, string_from_chars, utf8_lossy, utf8_lossy_of};
use crate::xml_events::{
    ends_once, is_final, next_event, reader_events, xml_events_of, xml_reader, XmlAttr, XmlEvent, XmlEventModel, XmlTag,
    XmlTagModel,
};
use crate::{
    IntelModel, MarkerInfo, MarkerModel, MidiTrackInfo, MidiTrackModel, MixerInfo, ParsedIntelligence, PluginInfo,
    PluginModel, SampleInfo, SampleModel, TrackInfo, TrackModel, blank_intel,
};

verus! {

/// The kinds of track element a set holds.
#[derive(Debug, Clone, Copy, PartialEq, Eq, Structural)]
pub enum TrackKind {
    Audio,
    Midi,
    Return,
    Group,
}

/// The track kind a tag name opens, if any.
pub open spec fn track_kind_for(tag: Seq<char>) -> Option<TrackKind> {
    if tag == "AudioTrack"@ {
        Some(TrackKind::Audio)
    } else if tag == "MidiTrack"@ {
        Some(TrackKind::Midi)
    } else if tag == "ReturnTrack"@ {
        Some(TrackKind::Return)
    } else if tag == "GroupTrack"@ {
        Some(TrackKind::Group)
    } else {
        None
    }
}

/// The track type the unified record uses for a kind.
pub open spec fn kind_text(k: TrackKind) -> Seq<char> {
    match k {
        TrackKind::Audio => "audio"@,
        TrackKind::Midi => "midi"@,
        TrackKind::Return => "return"@,
        TrackKind::Group => "group"@,
    }
}

/// The element names that wrap a VST or AU plugin inside `<Devices>`.
pub open spec fn is_wrapper(n: Seq<char>) -> bool {
    n == "PluginDevice"@ || n == "AuPluginDevice"@ || n == "Vst3PluginDevice"@ || n == "MxPatchRef"@
}

/// The elements whose `Sidechain` section can switch a sidechain on.
pub open spec fn is_dynamics(n: Seq<char>) -> bool {
    n == "Compressor"@ || n == "GlueCompressor"@ || n == "Gate"@
}

pub open spec fn is_sidechain_section(n: Seq<char>) -> bool {
    n == "Sidechain"@ || n == "SideChain"@
}

pub open spec fn is_master(n: Seq<char>) -> bool {
    n == "MasterTrack"@ || n == "MainTrack"@
}

/// The attribute key `k` (bytes) spells `name`.
pub open spec fn key_is(k: Seq<u8>, name: Seq<char>) -> bool {
    k.len() == name.len() && forall|i: int| 0 <= i < k.len() ==> k[i] as u32 == name[i] as u32
}

/// The values of the attributes named `key`, decoded, in document order
/// (attributes the reader rejected are skipped).
pub open spec fn attr_values(attrs: Seq<Option<(Seq<u8>, Seq<u8>)>>, key: Seq<char>) -> Seq<Seq<char>>
    decreases attrs.len(),
{
    if attrs.len() == 0 {
        Seq::empty()
    } else {
        let prev = attr_values(attrs.drop_last(), key);
        match attrs.last() {
            Some((k, v)) => if key_is(k, key) { prev.push(utf8_lossy_of(v)) } else { prev },
            None => prev,
        }
    }
}

/// The non-empty strings of `s`, in order.
pub open spec fn nonempty(s: Seq<Seq<char>>) -> Seq<Seq<char>>
    decreases s.len(),
{
    if s.len() == 0 {
        Seq::empty()
    } else if s.last().len() > 0 {
        nonempty(s.drop_last()).push(s.last())
    } else {
        nonempty(s.drop_last())
    }
}

/// The strings of `s` that parse to a tempo in `30.0..=300.0`, in order.
pub open spec fn tempo_values(s: Seq<Seq<char>>) -> Seq<Seq<char>>
    decreases s.len(),
{
    if s.len() == 0 {
        Seq::empty()
    } else if crate::number::in_tempo_range(s.last()) {
        tempo_values(s.drop_last()).push(s.last())
    } else {
        tempo_values(s.drop_last())
    }
}

/// What the reading has gathered for the unified record.
#[verifier::ext_equal]
pub struct AbInfo {
    pub version: Option<Seq<char>>,
    pub found_version: bool,
    pub bpm: Option<NumberModel>,
    pub has_sidechain: bool,
    pub markers: Seq<MarkerModel>,
    /// Sample names, repeats included.
    pub samples: Seq<Seq<char>>,
    pub midi_tracks: Seq<MidiTrackModel>,
    pub automated: Seq<Seq<char>>,
}

/// The track being read.
#[verifier::ext_equal]
pub struct AbTrack {
    pub in_track: bool,
    pub kind: Option<TrackKind>,
    pub name: Seq<char>,
    pub plugins: Seq<Seq<char>>,
    pub color: Option<Seq<char>>,
    pub in_devices: bool,
    pub in_wrapper: bool,
}

/// The tracks read so far and the plugin tally.
#[verifier::ext_equal]
pub struct AbTotals {
    /// Plugin tally by (type, name), in order of first occurrence.
    pub tally: Seq<PluginModel>,
    pub audio: u32,
    pub midi: u32,
    pub returns: u32,
    pub groups: u32,
    pub tracks: Seq<TrackModel>,
}

/// Where in the set the reading stands.
#[verifier::ext_equal]
pub struct AbCtx {
    /// Names of the open elements, outermost first.
    pub stack: Seq<Seq<char>>,
    pub in_master: bool,
    pub in_midi_clip: bool,
    pub in_key_track: bool,
    pub note_count: u32,
    pub in_dynamics: bool,
    pub in_sidechain: bool,
    pub sidechain_pending: bool,
    pub in_envelope: bool,
}

/// The locator and sample reference being read.
#[verifier::ext_equal]
pub struct AbRefs {
    pub in_locator: bool,
    pub locator_name: Seq<char>,
    pub locator_time: NumberModel,
    pub in_sample_ref: bool,
    pub in_file_ref: bool,
}

/// What the reading has gathered so far.
#[verifier::ext_equal]
pub struct AbState {
    /// The end of the document was reached.
    pub done: bool,
    pub info: AbInfo,
    pub track: AbTrack,
    pub totals: AbTotals,
    pub ctx: AbCtx,
    pub refs: AbRefs,
}

pub open spec fn ab_start() -> AbState {
    AbState {
        done: false,
        info: AbInfo {
            version: None,
            found_version: false,
            bpm: None,
            has_sidechain: false,
            markers: Seq::empty(),
            samples: Seq::empty(),
            midi_tracks: Seq::empty(),
            automated: Seq::empty(),
        },
        track: AbTrack {
            in_track: false,
            kind: None,
            name: Seq::empty(),
            plugins: Seq::empty(),
            color: None,
            in_devices: false,
            in_wrapper: false,
        },
        totals: AbTotals { tally: Seq::empty(), audio: 0, midi: 0, returns: 0, groups: 0, tracks: Seq::empty() },
        ctx: AbCtx {
            stack: Seq::empty(),
            in_master: false,
            in_midi_clip: false,
            in_key_track: false,
            note_count: 0,
            in_dynamics: false,
            in_sidechain: false,
            sidechain_pending: false,
            in_envelope: false,
        },
        refs: AbRefs {
            in_locator: false,
            locator_name: Seq::empty(),
            locator_time: NumberModel::Zero,
            in_sample_ref: false,
            in_file_ref: false,
        },
    }
}

/// The innermost open element is `n`.
pub open spec fn parent_is(stack: Seq<Seq<char>>, n: Seq<char>) -> bool {
    stack.len() > 0 && stack.last() == n
}

/// A plugin found in the current track: listed with the track and tallied.
pub open spec fn add_plugin(tr: AbTrack, tot: AbTotals, kind: Seq<char>, name: Seq<char>) -> (AbTrack, AbTotals) {
    (AbTrack { plugins: tr.plugins.push(name), ..tr }, AbTotals { tally: tally_add(tot.tally, kind, name), ..tot })
}

/// Several plugins of one kind, in order.
pub open spec fn add_plugins(tr: AbTrack, tot: AbTotals, kind: Seq<char>, names: Seq<Seq<char>>) -> (AbTrack, AbTotals)
    decreases names.len(),
{
    if names.len() == 0 {
        (tr, tot)
    } else {
        let (t1, o1) = add_plugins(tr, tot, kind, names.drop_last());
        add_plugin(t1, o1, kind, names.last())
    }
}

/// The automated parameter ids, each kept once.
pub open spec fn add_ids(list: Seq<Seq<char>>, ids: Seq<Seq<char>>) -> Seq<Seq<char>>
    decreases ids.len(),
{
    if ids.len() == 0 { list } else { dedup_push(add_ids(list, ids.drop_last()), ids.last()) }
}

// ---- start tags ----

/// `<Ableton Creator="…">` gives the version (the first such tag only).
pub open spec fn start_version(info: AbInfo, n: Seq<char>, attrs: Seq<Option<(Seq<u8>, Seq<u8>)>>) -> AbInfo {
    let vs = attr_values(attrs, "Creator"@);
    if !info.found_version && n == "Ableton"@ && vs.len() > 0 {
        AbInfo { version: Some(vs.last()), found_version: true, ..info }
    } else {
        info
    }
}

/// Track elements, device chains inside a track, and plugin wrappers inside a
/// device chain.
pub open spec fn track_open(tr: AbTrack, n: Seq<char>) -> AbTrack {
    let t1 = match track_kind_for(n) {
        Some(k) => AbTrack { in_track: true, kind: Some(k), name: Seq::empty(), plugins: Seq::empty(), ..tr },
        None => tr,
    };
    let t2 = if n == "Devices"@ && t1.in_track { AbTrack { in_devices: true, ..t1 } } else { t1 };
    if t2.in_devices && is_wrapper(n) { AbTrack { in_wrapper: true, ..t2 } } else { t2 }
}

/// A device directly inside `<Devices>` and outside any wrapper is a native plugin.
pub open spec fn is_native_device(tr: AbTrack, n: Seq<char>, parent: bool) -> bool {
    tr.in_devices && !tr.in_wrapper && n != "Devices"@ && parent
}

/// A start tag directly inside `<Devices>`.
pub open spec fn native_open(tr: AbTrack, tot: AbTotals, stack: Seq<Seq<char>>, n: Seq<char>) -> (AbTrack, AbTotals) {
    if is_native_device(tr, n, stack.len() >= 2 && stack[stack.len() - 2] == "Devices"@) {
        add_plugin(tr, tot, "native"@, n)
    } else {
        (tr, tot)
    }
}

/// The master track, MIDI clips, their key tracks and their notes.
pub open spec fn start_clip(c: AbCtx, n: Seq<char>) -> AbCtx {
    let c0 = if is_master(n) { AbCtx { in_master: true, ..c } } else { c };
    let c1 = if n == "MidiClip"@ { AbCtx { in_midi_clip: true, note_count: 0, ..c0 } } else { c0 };
    let c2 = if n == "KeyTrack"@ && c1.in_midi_clip { AbCtx { in_key_track: true, ..c1 } } else { c1 };
    if n == "MidiNoteEvent"@ && c2.in_key_track { AbCtx { note_count: wrap_inc(c2.note_count), ..c2 } } else { c2 }
}

/// Dynamics devices, their sidechain sections, and automation envelopes.
pub open spec fn start_dynamics(c: AbCtx, n: Seq<char>) -> AbCtx {
    let c1 = if is_dynamics(n) { AbCtx { in_dynamics: true, ..c } } else { c };
    let c2 = if c1.in_dynamics && is_sidechain_section(n) { AbCtx { in_sidechain: true, ..c1 } } else { c1 };
    if n == "AutomationEnvelope"@ { AbCtx { in_envelope: true, ..c2 } } else { c2 }
}

/// Locators and sample references.
pub open spec fn start_refs(r: AbRefs, n: Seq<char>) -> AbRefs {
    let r1 = if n == "Locator"@ {
        AbRefs { in_locator: true, locator_name: Seq::empty(), locator_time: NumberModel::Zero, ..r }
    } else {
        r
    };
    let r2 = if n == "SampleRef"@ { AbRefs { in_sample_ref: true, ..r1 } } else { r1 };
    if n == "FileRef"@ && r2.in_sample_ref { AbRefs { in_file_ref: true, ..r2 } } else { r2 }
}

/// A start tag: pushed on the stack, then read.
pub open spec fn start_step(st: AbState, tag: XmlTagModel) -> AbState {
    let n = utf8_lossy_of(tag.name);
    let stack = st.ctx.stack.push(n);
    let tr = track_open(st.track, n);
    let (tr2, tot2) = native_open(tr, st.totals, stack, n);
    AbState {
        done: st.done,
        info: start_version(st.info, n, tag.attrs),
        track: tr2,
        totals: tot2,
        ctx: start_dynamics(start_clip(AbCtx { stack: stack, ..st.ctx }, n), n),
        refs: start_refs(st.refs, n),
    }
}

// ---- empty-element tags ----

/// A note event inside a key track.
pub open spec fn empty_note(c: AbCtx, n: Seq<char>) -> AbCtx {
    if n == "MidiNoteEvent"@ && c.in_key_track { AbCtx { note_count: wrap_inc(c.note_count), ..c } } else { c }
}

/// An empty-element tag directly inside `<Devices>`.
pub open spec fn native_empty(tr: AbTrack, tot: AbTotals, stack: Seq<Seq<char>>, n: Seq<char>) -> (AbTrack, AbTotals) {
    if is_native_device(tr, n, parent_is(stack, "Devices"@)) {
        add_plugin(tr, tot, "native"@, n)
    } else {
        (tr, tot)
    }
}

/// `<Manual Value="…"/>` inside `<Tempo>` sets the tempo, when the value lies in
/// `30.0..=300.0` and the tag stands in the master track or outside any track.
pub open spec fn empty_tempo(
    info: AbInfo,
    n: Seq<char>,
    attrs: Seq<Option<(Seq<u8>, Seq<u8>)>>,
    stack: Seq<Seq<char>>,
    in_master: bool,
    in_track: bool,
) -> AbInfo {
    let vs = tempo_values(attr_values(attrs, "Value"@));
    if n == "Manual"@ && parent_is(stack, "Tempo"@) && vs.len() > 0 && (in_master || !in_track) {
        AbInfo { bpm: Some(NumberModel::Literal(vs.last())), ..info }
    } else {
        info
    }
}

/// The track's name: `<EffectiveName Value="…"/>` inside `<Name>`, else
/// `<UserName Value="…"/>`, while the track has no name.
pub open spec fn empty_track_name(tr: AbTrack, n: Seq<char>, attrs: Seq<Option<(Seq<u8>, Seq<u8>)>>, stack: Seq<Seq<char>>) -> AbTrack {
    let vs = nonempty(attr_values(attrs, "Value"@));
    if tr.in_track && tr.name.len() == 0 {
        let t1 = if n == "EffectiveName"@ && parent_is(stack, "Name"@) && vs.len() > 0 {
            AbTrack { name: vs.last(), ..tr }
        } else {
            tr
        };
        if t1.name.len() == 0 && n == "UserName"@ && vs.len() > 0 {
            AbTrack { name: vs.last(), ..t1 }
        } else {
            t1
        }
    } else {
        tr
    }
}

/// Inside a plugin wrapper, `<PlugName Value="…"/>` and `<UserName Value="…"/>`
/// name a `vst` plugin.
pub open spec fn empty_plugin_name(tr: AbTrack, tot: AbTotals, n: Seq<char>, attrs: Seq<Option<(Seq<u8>, Seq<u8>)>>) -> (AbTrack, AbTotals) {
    if tr.in_wrapper && (n == "PlugName"@ || n == "UserName"@) {
        add_plugins(tr, tot, "vst"@, nonempty(attr_values(attrs, "Value"@)))
    } else {
        (tr, tot)
    }
}

/// Inside a locator, `<Name Value="…"/>` and `<Time Value="…"/>` (a time that
/// does not parse counts as zero).
pub open spec fn empty_locator(r: AbRefs, n: Seq<char>, attrs: Seq<Option<(Seq<u8>, Seq<u8>)>>) -> AbRefs {
    let vs = attr_values(attrs, "Value"@);
    if r.in_locator && vs.len() > 0 {
        if n == "Name"@ {
            AbRefs { locator_name: vs.last(), ..r }
        } else if n == "Time"@ {
            AbRefs {
                locator_time: if crate::number::is_float_literal(vs.last()) {
                    NumberModel::Literal(vs.last())
                } else {
                    NumberModel::Zero
                },
                ..r
            }
        } else {
            r
        }
    } else {
        r
    }
}

/// `<Manual Value="true"/>` inside `<On>` of a sidechain section switches the
/// sidechain on when the device closes.
pub open spec fn empty_sidechain(c: AbCtx, n: Seq<char>, attrs: Seq<Option<(Seq<u8>, Seq<u8>)>>) -> AbCtx {
    if c.in_sidechain && n == "Manual"@ && parent_is(c.stack, "On"@) && attr_values(attrs, "Value"@).contains("true"@) {
        AbCtx { sidechain_pending: true, ..c }
    } else {
        c
    }
}

/// The track's first `<Color Value="N"/>` gives the colour `ableton_color_N`.
pub open spec fn empty_color(tr: AbTrack, n: Seq<char>, attrs: Seq<Option<(Seq<u8>, Seq<u8>)>>) -> AbTrack {
    let vs = nonempty(attr_values(attrs, "Value"@));
    if tr.in_track && n == "Color"@ && tr.color is None && vs.len() > 0 {
        AbTrack { color: Some("ableton_color_"@ + vs.last()), ..tr }
    } else {
        tr
    }
}

/// Inside an automation envelope, `<PointeeId Value="N"/>` names an automated
/// parameter (each kept once); inside a file reference, `<Name Value="…"/>`
/// names a sample.
pub open spec fn empty_ids(info: AbInfo, in_envelope: bool, in_file_ref: bool, n: Seq<char>, attrs: Seq<Option<(Seq<u8>, Seq<u8>)>>) -> AbInfo {
    let vs = nonempty(attr_values(attrs, "Value"@));
    let i1 = if in_envelope && n == "PointeeId"@ { AbInfo { automated: add_ids(info.automated, vs), ..info } } else { info };
    if in_file_ref && n == "Name"@ { AbInfo { samples: i1.samples + vs, ..i1 } } else { i1 }
}

/// An empty-element tag, read in the order: note, native device, tempo, track
/// name, plugin name, locator, sidechain, colour, automation id, sample.
pub open spec fn empty_step(st: AbState, tag: XmlTagModel) -> AbState {
    let n = utf8_lossy_of(tag.name);
    let a = tag.attrs;
    let stack = st.ctx.stack;
    let (tr1, tot1) = native_empty(st.track, st.totals, stack, n);
    let info1 = empty_tempo(st.info, n, a, stack, st.ctx.in_master, tr1.in_track);
    let tr2 = empty_track_name(tr1, n, a, stack);
    let (tr3, tot2) = empty_plugin_name(tr2, tot1, n, a);
    let refs1 = empty_locator(st.refs, n, a);
    let ctx1 = empty_sidechain(empty_note(st.ctx, n), n, a);
    AbState {
        done: st.done,
        info: empty_ids(info1, ctx1.in_envelope, refs1.in_file_ref, n, a),
        track: empty_color(tr3, n, a),
        totals: tot2,
        ctx: ctx1,
        refs: refs1,
    }
}

// ---- end tags ----

/// Closing a MIDI clip reports its notes (for the current track).
pub open spec fn end_clip_info(info: AbInfo, c: AbCtx, track_name: Seq<char>, n: Seq<char>) -> AbInfo {
    if n == "MidiClip"@ && c.in_midi_clip && c.note_count > 0 {
        AbInfo {
            midi_tracks: info.midi_tracks.push(MidiTrackModel {
                track_name: track_name,
                note_count: c.note_count,
                pitch_low: None,
                pitch_high: None,
            }),
            ..info
        }
    } else {
        info
    }
}

/// Closing the master track, a MIDI clip or a key track.
pub open spec fn end_clip_ctx(c: AbCtx, n: Seq<char>) -> AbCtx {
    let c1 = if is_master(n) { AbCtx { in_master: false, ..c } } else { c };
    let c2 = if n == "MidiClip"@ {
        AbCtx { in_midi_clip: false, in_key_track: false, note_count: 0, ..c1 }
    } else {
        c1
    };
    if n == "KeyTrack"@ { AbCtx { in_key_track: false, ..c2 } } else { c2 }
}

/// Closing a dynamics device, a sidechain section or an automation envelope.
pub open spec fn end_dynamics_ctx(c: AbCtx, n: Seq<char>) -> AbCtx {
    let c1 = if is_dynamics(n) {
        AbCtx { sidechain_pending: false, in_dynamics: false, in_sidechain: false, ..c }
    } else {
        c
    };
    let c2 = if is_sidechain_section(n) { AbCtx { in_sidechain: false, ..c1 } } else { c1 };
    if n == "AutomationEnvelope"@ { AbCtx { in_envelope: false, ..c2 } } else { c2 }
}

/// The closed element leaves the stack.
pub open spec fn pop_ctx(c: AbCtx) -> AbCtx {
    AbCtx { stack: if c.stack.len() > 0 { c.stack.drop_last() } else { c.stack }, ..c }
}

/// Closing the master track, a MIDI clip, a key track, a dynamics device, a
/// sidechain section or an automation envelope; then the element leaves the stack.
pub open spec fn end_ctx(c: AbCtx, n: Seq<char>) -> AbCtx {
    pop_ctx(end_dynamics_ctx(end_clip_ctx(c, n), n))
}

/// Closing the current track: it is counted and added with its colour.
pub open spec fn end_track(tr: AbTrack, tot: AbTotals, n: Seq<char>) -> (AbTrack, AbTotals) {
    match track_kind_for(n) {
        Some(k) => if tr.in_track && tr.kind == Some(k) {
            (
                AbTrack { color: None, in_track: false, kind: None, in_devices: false, in_wrapper: false, ..tr },
                AbTotals {
                    audio: if k == TrackKind::Audio { wrap_inc(tot.audio) } else { tot.audio },
                    midi: if k == TrackKind::Midi { wrap_inc(tot.midi) } else { tot.midi },
                    returns: if k == TrackKind::Return { wrap_inc(tot.returns) } else { tot.returns },
                    groups: if k == TrackKind::Group { wrap_inc(tot.groups) } else { tot.groups },
                    tracks: tot.tracks.push(TrackModel {
                        name: tr.name,
                        track_type: kind_text(k),
                        plugins: tr.plugins,
                        color: tr.color,
                    }),
                    ..tot
                },
            )
        } else {
            (tr, tot)
        },
        None => (tr, tot),
    }
}

/// Closing a device chain or a plugin wrapper.
pub open spec fn end_devices(tr: AbTrack, n: Seq<char>) -> AbTrack {
    let t1 = if n == "Devices"@ { AbTrack { in_devices: false, in_wrapper: false, ..tr } } else { tr };
    if is_wrapper(n) { AbTrack { in_wrapper: false, ..t1 } } else { t1 }
}

/// Closing a dynamics device commits a pending sidechain; closing a named
/// locator adds its marker.
pub open spec fn end_info(info: AbInfo, c: AbCtx, r: AbRefs, n: Seq<char>) -> AbInfo {
    let i1 = if is_dynamics(n) && c.sidechain_pending { AbInfo { has_sidechain: true, ..info } } else { info };
    if n == "Locator"@ && r.in_locator && r.locator_name.len() > 0 {
        AbInfo { markers: i1.markers.push(MarkerModel { name: r.locator_name, position_seconds: r.locator_time }), ..i1 }
    } else {
        i1
    }
}

/// Closing a locator, a file reference or a sample reference.
pub open spec fn end_refs(r: AbRefs, n: Seq<char>) -> AbRefs {
    let r1 = if n == "Locator"@ { AbRefs { in_locator: false, ..r } } else { r };
    let r2 = if n == "FileRef"@ { AbRefs { in_file_ref: false, ..r1 } } else { r1 };
    if n == "SampleRef"@ { AbRefs { in_sample_ref: false, ..r2 } } else { r2 }
}

/// An end tag; the element then leaves the stack.
pub open spec fn end_step(st: AbState, name: Seq<u8>) -> AbState {
    let n = utf8_lossy_of(name);
    let info1 = end_clip_info(st.info, st.ctx, st.track.name, n);
    let (tr1, tot1) = end_track(st.track, st.totals, n);
    AbState {
        done: st.done,
        info: end_info(info1, st.ctx, st.refs, n),
        track: end_devices(tr1, n),
        totals: tot1,
        ctx: end_ctx(st.ctx, n),
        refs: end_refs(st.refs, n),
    }
}

/// The outcome of reading `events` in order: the state at the end of the
/// document (or of the sequence), or the message of the first error.
pub open spec fn ab_run(events: Seq<XmlEventModel>) -> Result<AbState, Seq<char>>
    decreases events.len(),
{
    if events.len() == 0 {
        Ok(ab_start())
    } else {
        match ab_run(events.drop_last()) {
            Err(e) => Err(e),
            Ok(st) => if st.done {
                Ok(st)
            } else {
                match events.last() {
                    XmlEventModel::Start(t) => Ok(start_step(st, t)),
                    XmlEventModel::Empty(t) => Ok(empty_step(st, t)),
                    XmlEventModel::End(n) => Ok(end_step(st, n)),
                    XmlEventModel::Eof => Ok(AbState { done: true, ..st }),
                    XmlEventModel::Error(m) => Err("XML parse error: "@ + m),
                    XmlEventModel::Other => Ok(st),
                }
            },
        }
    }
}

/// The sample entry for a name.
pub open spec fn unlocated(n: Seq<char>) -> SampleModel {
    SampleModel { name: n, path: None }
}

/// The record the reading state describes: samples kept once per name.
pub open spec fn ab_intel(st: AbState) -> IntelModel {
    IntelModel {
        daw_version: st.info.version,
        bpm: st.info.bpm,
        tracks: st.totals.tracks,
        plugins: st.totals.tally,
        samples: dedup(st.info.samples).map_values(|n: Seq<char>| unlocated(n)),
        midi_tracks: st.info.midi_tracks,
        markers: st.info.markers,
        mixer: MixerInfo {
            total_tracks: st.totals.tracks.len() as u32,
            audio_tracks: st.totals.audio,
            midi_tracks: st.totals.midi,
            return_tracks: st.totals.returns,
            group_tracks: st.totals.groups,
            has_sidechain: st.info.has_sidechain,
        },
        automated_params: st.info.automated,
        ..blank_intel("Ableton Live"@)
    }
}

/// What [`parse_xml_events`] makes of a sequence of reader events.
pub open spec fn parse_events_spec(events: Seq<XmlEventModel>) -> Result<IntelModel, Seq<char>> {
    match ab_run(events) {
        Ok(st) => Ok(ab_intel(st)),
        Err(e) => Err(e),
    }
}

} // verus!

verus! {

/// The weight of an event: one, plus its attributes for a tag. No counter of
/// the reading grows by more than this.
pub open spec fn event_weight(e: XmlEventModel) -> nat {
    match e {
        XmlEventModel::Start(t) => 1 + t.attrs.len(),
        XmlEventModel::Empty(t) => 1 + t.attrs.len(),
        _ => 1,
    }
}

/// The total weight of a sequence of events.
pub open spec fn events_weight(s: Seq<XmlEventModel>) -> nat
    decreases s.len(),
{
    if s.len() == 0 { 0 } else { events_weight(s.drop_last()) + event_weight(s.last()) }
}

/// No plugin count exceeds `n`.
#[verifier::opaque]
pub open spec fn plugins_within(list: Seq<PluginModel>, n: int) -> bool {
    crate::tally::counts_at_most(list, n)
}

/// No total exceeds `n`.
pub open spec fn totals_within(t: AbTotals, n: int) -> bool {
    &&& t.audio <= n
    &&& t.midi <= n
    &&& t.returns <= n
    &&& t.groups <= n
    &&& t.tracks.len() <= n
    &&& plugins_within(t.tally, n)
}

/// No counter of the reading state exceeds `n`.
pub open spec fn ab_bounded(st: AbState, n: int) -> bool {
    st.ctx.note_count <= n && totals_within(st.totals, n)
}

proof fn lemma_plugins_within_mono(list: Seq<PluginModel>, n: int, m: int)
    requires
        plugins_within(list, n),
        n <= m,
    ensures
        plugins_within(list, m),
{
    reveal(plugins_within);
}

proof fn lemma_totals_within_mono(t: AbTotals, n: int, m: int)
    requires
        totals_within(t, n),
        n <= m,
    ensures
        totals_within(t, m),
{
    lemma_plugins_within_mono(t.tally, n, m);
}

proof fn lemma_add_plugin_bound(tr: AbTrack, tot: AbTotals, kind: Seq<char>, name: Seq<char>, n: int)
    requires
        totals_within(tot, n),
        0 <= n,
    ensures
        totals_within(add_plugin(tr, tot, kind, name).1, n + 1),
{
    reveal(plugins_within);
    crate::tally::lemma_tally_add_bound(tot.tally, kind, name, n);
}

proof fn lemma_add_plugins_bound(tr: AbTrack, tot: AbTotals, kind: Seq<char>, names: Seq<Seq<char>>, n: int)
    requires
        totals_within(tot, n),
        0 <= n,
    ensures
        totals_within(add_plugins(tr, tot, kind, names).1, n + names.len()),
    decreases names.len(),
{
    if names.len() > 0 {
        lemma_add_plugins_bound(tr, tot, kind, names.drop_last(), n);
        let (t1, o1) = add_plugins(tr, tot, kind, names.drop_last());
        lemma_add_plugin_bound(t1, o1, kind, names.last(), n + names.len() - 1);
    }
}

proof fn lemma_attr_values_len(attrs: Seq<Option<(Seq<u8>, Seq<u8>)>>, key: Seq<char>)
    ensures
        attr_values(attrs, key).len() <= attrs.len(),
    decreases attrs.len(),
{
    if attrs.len() > 0 {
        lemma_attr_values_len(attrs.drop_last(), key);
    }
}

proof fn lemma_nonempty_len(s: Seq<Seq<char>>)
    ensures
        nonempty(s).len() <= s.len(),
    decreases s.len(),
{
    if s.len() > 0 {
        lemma_nonempty_len(s.drop_last());
    }
}

proof fn lemma_native_bound(tr: AbTrack, tot: AbTotals, stack: Seq<Seq<char>>, n: Seq<char>, m: int)
    requires
        totals_within(tot, m),
        0 <= m,
    ensures
        totals_within(native_open(tr, tot, stack, n).1, m + 1),
        totals_within(native_empty(tr, tot, stack, n).1, m + 1),
{
    lemma_add_plugin_bound(tr, tot, "native"@, n, m);
    lemma_totals_within_mono(tot, m, m + 1);
}

proof fn lemma_start_bounded(st: AbState, t: XmlTagModel, m: int)
    requires
        ab_bounded(st, m),
        0 <= m,
    ensures
        ab_bounded(start_step(st, t), m + 1),
{
    let n = utf8_lossy_of(t.name);
    lemma_native_bound(track_open(st.track, n), st.totals, st.ctx.stack.push(n), n, m);
}

proof fn lemma_empty_bounded(st: AbState, t: XmlTagModel, m: int)
    requires
        ab_bounded(st, m),
        0 <= m,
    ensures
        ab_bounded(empty_step(st, t), m + 1 + t.attrs.len()),
{
    let n = utf8_lossy_of(t.name);
    let a = t.attrs;
    lemma_native_bound(st.track, st.totals, st.ctx.stack, n, m);
    let (tr1, tot1) = native_empty(st.track, st.totals, st.ctx.stack, n);
    let tr2 = empty_track_name(tr1, n, a, st.ctx.stack);
    let vals = nonempty(attr_values(a, "Value"@));
    lemma_attr_values_len(a, "Value"@);
    lemma_nonempty_len(attr_values(a, "Value"@));
    lemma_add_plugins_bound(tr2, tot1, "vst"@, vals, m + 1);
    lemma_totals_within_mono(add_plugins(tr2, tot1, "vst"@, vals).1, m + 1 + vals.len(), m + 1 + a.len());
    lemma_totals_within_mono(tot1, m + 1, m + 1 + a.len());
}

proof fn lemma_end_bounded(st: AbState, name: Seq<u8>, m: int)
    requires
        ab_bounded(st, m),
        0 <= m,
    ensures
        ab_bounded(end_step(st, name), m + 1),
{
    lemma_totals_within_mono(st.totals, m, m + 1);
}

/// Reading an event raises no counter by more than its weight.
proof fn lemma_event_bounded(st: AbState, e: XmlEventModel, m: int)
    requires
        ab_bounded(st, m),
        0 <= m,
    ensures
        match e {
            XmlEventModel::Start(t) => ab_bounded(start_step(st, t), m + event_weight(e)),
            XmlEventModel::Empty(t) => ab_bounded(empty_step(st, t), m + event_weight(e)),
            XmlEventModel::End(n) => ab_bounded(end_step(st, n), m + event_weight(e)),
            _ => ab_bounded(st, m + event_weight(e)),
        },
{
    match e {
        XmlEventModel::Start(t) => {
            lemma_start_bounded(st, t, m);
            lemma_totals_within_mono(start_step(st, t).totals, m + 1, m + event_weight(e));
        },
        XmlEventModel::Empty(t) => {
            lemma_empty_bounded(st, t, m);
        },
        XmlEventModel::End(n) => {
            lemma_end_bounded(st, n, m);
        },
        _ => {
            lemma_totals_within_mono(st.totals, m, m + 1);
        },
    }
}

} // verus!

verus! {

struct InfoScanner {
    version: Option<String>,
    found_version: bool,
    bpm: Option<Number>,
    has_sidechain: bool,
    markers: Vec<MarkerInfo>,
    samples: Vec<String>,
    midi_tracks: Vec<MidiTrackInfo>,
    automated: Vec<String>,
}

impl InfoScanner {
    spec fn model(&self) -> AbInfo {
        AbInfo {
            version: self.version.deep_view(),
            found_version: self.found_version,
            bpm: self.bpm.deep_view(),
            has_sidechain: self.has_sidechain,
            markers: self.markers.deep_view(),
            samples: self.samples.deep_view(),
            midi_tracks: self.midi_tracks.deep_view(),
            automated: self.automated.deep_view(),
        }
    }
}

struct TrackScanner {
    in_track: bool,
    kind: Option<TrackKind>,
    name: String,
    plugins: Vec<String>,
    color: Option<String>,
    in_devices: bool,
    in_wrapper: bool,
}

impl TrackScanner {
    spec fn model(&self) -> AbTrack {
        AbTrack {
            in_track: self.in_track,
            kind: self.kind,
            name: self.name@,
            plugins: self.plugins.deep_view(),
            color: self.color.deep_view(),
            in_devices: self.in_devices,
            in_wrapper: self.in_wrapper,
        }
    }
}

struct TotalsScanner {
    tally: Vec<PluginInfo>,
    audio: u32,
    midi: u32,
    returns: u32,
    groups: u32,
    tracks: Vec<TrackInfo>,
}

impl TotalsScanner {
    spec fn model(&self) -> AbTotals {
        AbTotals {
            tally: self.tally.deep_view(),
            audio: self.audio,
            midi: self.midi,
            returns: self.returns,
            groups: self.groups,
            tracks: self.tracks.deep_view(),
        }
    }
}

struct CtxScanner {
    stack: Vec<String>,
    in_master: bool,
    in_midi_clip: bool,
    in_key_track: bool,
    note_count: u32,
    in_dynamics: bool,
    in_sidechain: bool,
    sidechain_pending: bool,
    in_envelope: bool,
}

impl CtxScanner {
    spec fn model(&self) -> AbCtx {
        AbCtx {
            stack: self.stack.deep_view(),
            in_master: self.in_master,
            in_midi_clip: self.in_midi_clip,
            in_key_track: self.in_key_track,
            note_count: self.note_count,
            in_dynamics: self.in_dynamics,
            in_sidechain: self.in_sidechain,
            sidechain_pending: self.sidechain_pending,
            in_envelope: self.in_envelope,
        }
    }
}

struct RefsScanner {
    in_locator: bool,
    locator_name: String,
    locator_time: Number,
    in_sample_ref: bool,
    in_file_ref: bool,
}

impl RefsScanner {
    spec fn model(&self) -> AbRefs {
        AbRefs {
            in_locator: self.in_locator,
            locator_name: self.locator_name@,
            locator_time: self.locator_time@,
            in_sample_ref: self.in_sample_ref,
            in_file_ref: self.in_file_ref,
        }
    }
}

/// Exec state of the event walk.
struct AbScanner {
    done: bool,
    info: InfoScanner,
    track: TrackScanner,
    totals: TotalsScanner,
    ctx: CtxScanner,
    refs: RefsScanner,
}

impl AbScanner {
    spec fn model(&self) -> AbState {
        AbState {
            done: self.done,
            info: self.info.model(),
            track: self.track.model(),
            totals: self.totals.model(),
            ctx: self.ctx.model(),
            refs: self.refs.model(),
        }
    }
}

fn new_ab_scanner() -> (sc: AbScanner)
    ensures
        sc.model() =~~= ab_start(),
{
    let sc = AbScanner {
        done: false,
        info: InfoScanner {
            version: None,
            found_version: false,
            bpm: None,
            has_sidechain: false,
            markers: Vec::new(),
            samples: Vec::new(),
            midi_tracks: Vec::new(),
            automated: Vec::new(),
        },
        track: TrackScanner {
            in_track: false,
            kind: None,
            name: String::new(),
            plugins: Vec::new(),
            color: None,
            in_devices: false,
            in_wrapper: false,
        },
        totals: TotalsScanner { tally: Vec::new(), audio: 0, midi: 0, returns: 0, groups: 0, tracks: Vec::new() },
        ctx: CtxScanner {
            stack: Vec::new(),
            in_master: false,
            in_midi_clip: false,
            in_key_track: false,
            note_count: 0,
            in_dynamics: false,
            in_sidechain: false,
            sidechain_pending: false,
            in_envelope: false,
        },
        refs: RefsScanner {
            in_locator: false,
            locator_name: String::new(),
            locator_time: Number::Zero,
            in_sample_ref: false,
            in_file_ref: false,
        },
    };
    assert(sc.info.model().markers =~= Seq::<MarkerModel>::empty());
    assert(sc.info.model().samples =~= Seq::<Seq<char>>::empty());
    assert(sc.info.model().midi_tracks =~= Seq::<MidiTrackModel>::empty());
    assert(sc.info.model().automated =~= Seq::<Seq<char>>::empty());
    assert(sc.track.model().plugins =~= Seq::<Seq<char>>::empty());
    assert(sc.totals.model().tally =~= Seq::<PluginModel>::empty());
    assert(sc.totals.model().tracks =~= Seq::<TrackModel>::empty());
    assert(sc.ctx.model().stack =~= Seq::<Seq<char>>::empty());
    sc
}

fn key_is_exec(k: &Vec<u8>, name: &str) -> (r: bool)
    ensures
        r == key_is(k@, name@),
{
    let c = chars_of(name);
    if k.len() != c.len() {
        return false;
    }
    let mut i: usize = 0;
    while i < k.len()
        invariant
            0 <= i <= k.len(),
            k.len() == c.len(),
            c@ == name@,
            forall|j: int| 0 <= j < i ==> k@[j] as u32 == c@[j] as u32,
        decreases k.len() - i,
    {
        if k[i] as u32 != c[i] as u32 {
            return false;
        }
        i = i + 1;
    }
    true
}

fn attr_values_exec(attrs: &Vec<Option<XmlAttr>>, key: &str) -> (r: Vec<String>)
    ensures
        r.deep_view() == attr_values(attrs.deep_view(), key@),
{
    let ghost av = attrs.deep_view();
    let mut r: Vec<String> = Vec::new();
    let mut i: usize = 0;
    assert(av.take(0) =~= Seq::<Option<(Seq<u8>, Seq<u8>)>>::empty());
    assert(r.deep_view() =~= Seq::<Seq<char>>::empty());
    while i < attrs.len()
        invariant
            0 <= i <= attrs.len(),
            av == attrs.deep_view(),
            r.deep_view() == attr_values(av.take(i as int), key@),
        decreases attrs.len() - i,
    {
        assert(av.take(i + 1).drop_last() =~= av.take(i as int));
        match &attrs[i] {
            Some(a) => {
                if key_is_exec(&a.key, key) {
                    let v = utf8_lossy(a.value.as_slice());
                    let ghost prev = r.deep_view();
                    let ghost vv = v@;
                    r.push(v);
                    assert(r.deep_view() =~= prev.push(vv));
                }
            },
            None => {},
        }
        i = i + 1;
    }
    assert(av.take(attrs.len() as int) =~= av);
    r
}

fn nonempty_exec(v: &Vec<String>) -> (r: Vec<String>)
    ensures
        r.deep_view() == nonempty(v.deep_view()),
{
    let ghost vv = v.deep_view();
    let mut r: Vec<String> = Vec::new();
    let mut i: usize = 0;
    assert(vv.take(0) =~= Seq::<Seq<char>>::empty());
    assert(r.deep_view() =~= Seq::<Seq<char>>::empty());
    while i < v.len()
        invariant
            0 <= i <= v.len(),
            vv == v.deep_view(),
            r.deep_view() == nonempty(vv.take(i as int)),
        decreases v.len() - i,
    {
        assert(vv.take(i + 1).drop_last() =~= vv.take(i as int));
        if !v[i].as_str().is_empty() {
            let ghost prev = r.deep_view();
            r.push(v[i].clone());
            assert(r.deep_view() =~= prev.push(vv[i as int]));
        }
        i = i + 1;
    }
    assert(vv.take(v.len() as int) =~= vv);
    r
}

fn tempo_values_exec(v: &Vec<String>) -> (r: Vec<String>)
    ensures
        r.deep_view() == tempo_values(v.deep_view()),
{
    let ghost vv = v.deep_view();
    let mut r: Vec<String> = Vec::new();
    let mut i: usize = 0;
    assert(vv.take(0) =~= Seq::<Seq<char>>::empty());
    assert(r.deep_view() =~= Seq::<Seq<char>>::empty());
    while i < v.len()
        invariant
            0 <= i <= v.len(),
            vv == v.deep_view(),
            r.deep_view() == tempo_values(vv.take(i as int)),
        decreases v.len() - i,
    {
        assert(vv.take(i + 1).drop_last() =~= vv.take(i as int));
        let c = chars_of(v[i].as_str());
        if crate::number::in_tempo_range_exec(c.as_slice()) {
            let ghost prev = r.deep_view();
            r.push(v[i].clone());
            assert(r.deep_view() =~= prev.push(vv[i as int]));
        }
        i = i + 1;
    }
    assert(vv.take(v.len() as int) =~= vv);
    r
}

fn lossy_chars(bytes: &Vec<u8>) -> (r: Vec<char>)
    ensures
        r@ == utf8_lossy_of(bytes@),
{
    let s = utf8_lossy(bytes.as_slice());
    chars_of(s.as_str())
}

fn last_string(v: &Vec<String>) -> (r: String)
    requires
        v@.len() > 0,
    ensures
        r@ == v.deep_view().last(),
{
    v[v.len() - 1].clone()
}

fn string_is(s: &String, lit: &str) -> (r: bool)
    ensures
        r == (s@ == lit@),
{
    let c = chars_of(s.as_str());
    equals_str(c.as_slice(), lit)
}

fn parent_is_exec(stack: &Vec<String>, lit: &str) -> (r: bool)
    ensures
        r == parent_is(stack.deep_view(), lit@),
{
    if stack.len() == 0 {
        return false;
    }
    string_is(&stack[stack.len() - 1], lit)
}

fn track_kind_exec(n: &[char]) -> (r: Option<TrackKind>)
    ensures
        r == track_kind_for(n@),
{
    if equals_str(n, "AudioTrack") {
        Some(TrackKind::Audio)
    } else if equals_str(n, "MidiTrack") {
        Some(TrackKind::Midi)
    } else if equals_str(n, "ReturnTrack") {
        Some(TrackKind::Return)
    } else if equals_str(n, "GroupTrack") {
        Some(TrackKind::Group)
    } else {
        None
    }
}

fn is_wrapper_exec(n: &[char]) -> (r: bool)
    ensures
        r == is_wrapper(n@),
{
    equals_str(n, "PluginDevice") || equals_str(n, "AuPluginDevice") || equals_str(n, "Vst3PluginDevice")
        || equals_str(n, "MxPatchRef")
}

fn is_dynamics_exec(n: &[char]) -> (r: bool)
    ensures
        r == is_dynamics(n@),
{
    equals_str(n, "Compressor") || equals_str(n, "GlueCompressor") || equals_str(n, "Gate")
}

fn is_sidechain_section_exec(n: &[char]) -> (r: bool)
    ensures
        r == is_sidechain_section(n@),
{
    equals_str(n, "Sidechain") || equals_str(n, "SideChain")
}

fn is_master_exec(n: &[char]) -> (r: bool)
    ensures
        r == is_master(n@),
{
    equals_str(n, "MasterTrack") || equals_str(n, "MainTrack")
}

} // verus!

verus! {

fn add_plugin_exec(tr: &mut TrackScanner, tot: &mut TotalsScanner, kind: &str, name: String)
    ensures
        final(tr).model() =~~= add_plugin(old(tr).model(), old(tot).model(), kind@, name@).0,
        final(tot).model() =~~= add_plugin(old(tr).model(), old(tot).model(), kind@, name@).1,
{
    let ghost prev = tr.plugins.deep_view();
    let ghost nv = name@;
    tr.plugins.push(name.clone());
    assert(tr.plugins.deep_view() =~= prev.push(nv));
    tally_push(&mut tot.tally, String::from_str(kind), name, Ghost(0));
}

fn start_version_exec(info: &mut InfoScanner, n: &[char], attrs: &Vec<Option<XmlAttr>>)
    ensures
        final(info).model() =~~= start_version(old(info).model(), n@, attrs.deep_view()),
{
    let vs = attr_values_exec(attrs, "Creator");
    if !info.found_version && equals_str(n, "Ableton") && vs.len() > 0 {
        info.version = Some(last_string(&vs));
        info.found_version = true;
    }
}

fn track_open_exec(tr: &mut TrackScanner, n: &[char])
    ensures
        final(tr).model() =~~= track_open(old(tr).model(), n@),
{
    match track_kind_exec(n) {
        Some(k) => {
            tr.in_track = true;
            tr.kind = Some(k);
            tr.name = String::new();
            tr.plugins = Vec::new();
            assert(tr.plugins.deep_view() =~= Seq::<Seq<char>>::empty());
        },
        None => {},
    }
    if equals_str(n, "Devices") && tr.in_track {
        tr.in_devices = true;
    }
    if tr.in_devices && is_wrapper_exec(n) {
        tr.in_wrapper = true;
    }
}

fn native_open_exec(tr: &mut TrackScanner, tot: &mut TotalsScanner, stack: &Vec<String>, n: &[char])
    ensures
        final(tr).model() =~~= native_open(old(tr).model(), old(tot).model(), stack.deep_view(), n@).0,
        final(tot).model() =~~= native_open(old(tr).model(), old(tot).model(), stack.deep_view(), n@).1,
{
    if tr.in_devices && !tr.in_wrapper && !equals_str(n, "Devices") && stack.len() >= 2
        && string_is(&stack[stack.len() - 2], "Devices")
    {
        add_plugin_exec(tr, tot, "native", string_from_chars(n));
    }
}

fn start_clip_exec(c: &mut CtxScanner, n: &[char])
    ensures
        final(c).model() =~~= start_clip(old(c).model(), n@),
{
    if is_master_exec(n) {
        c.in_master = true;
    }
    if equals_str(n, "MidiClip") {
        c.in_midi_clip = true;
        c.note_count = 0;
    }
    if equals_str(n, "KeyTrack") && c.in_midi_clip {
        c.in_key_track = true;
    }
    if equals_str(n, "MidiNoteEvent") && c.in_key_track {
        c.note_count = if c.note_count == u32::MAX { 0 } else { c.note_count + 1 };
    }
}

fn start_dynamics_exec(c: &mut CtxScanner, n: &[char])
    ensures
        final(c).model() =~~= start_dynamics(old(c).model(), n@),
{
    if is_dynamics_exec(n) {
        c.in_dynamics = true;
    }
    if c.in_dynamics && is_sidechain_section_exec(n) {
        c.in_sidechain = true;
    }
    if equals_str(n, "AutomationEnvelope") {
        c.in_envelope = true;
    }
}

fn start_refs_exec(r: &mut RefsScanner, n: &[char])
    ensures
        final(r).model() =~~= start_refs(old(r).model(), n@),
{
    if equals_str(n, "Locator") {
        r.in_locator = true;
        r.locator_name = String::new();
        r.locator_time = Number::Zero;
    }
    if equals_str(n, "SampleRef") {
        r.in_sample_ref = true;
    }
    if equals_str(n, "FileRef") && r.in_sample_ref {
        r.in_file_ref = true;
    }
}

fn start_exec(sc: &mut AbScanner, tag: &XmlTag)
    ensures
        final(sc).model() =~~= start_step(old(sc).model(), tag@),
{
    let n = lossy_chars(&tag.name);
    let ghost prev = sc.ctx.stack.deep_view();
    sc.ctx.stack.push(string_from_chars(n.as_slice()));
    assert(sc.ctx.stack.deep_view() =~= prev.push(n@));
    start_version_exec(&mut sc.info, n.as_slice(), &tag.attrs);
    track_open_exec(&mut sc.track, n.as_slice());
    native_open_exec(&mut sc.track, &mut sc.totals, &sc.ctx.stack, n.as_slice());
    start_clip_exec(&mut sc.ctx, n.as_slice());
    start_dynamics_exec(&mut sc.ctx, n.as_slice());
    start_refs_exec(&mut sc.refs, n.as_slice());
}

} // verus!

verus! {

fn empty_note_exec(c: &mut CtxScanner, n: &[char])
    ensures
        final(c).model() =~~= empty_note(old(c).model(), n@),
{
    if equals_str(n, "MidiNoteEvent") && c.in_key_track {
        c.note_count = if c.note_count == u32::MAX { 0 } else { c.note_count + 1 };
    }
}

fn native_empty_exec(tr: &mut TrackScanner, tot: &mut TotalsScanner, stack: &Vec<String>, n: &[char])
    ensures
        final(tr).model() =~~= native_empty(old(tr).model(), old(tot).model(), stack.deep_view(), n@).0,
        final(tot).model() =~~= native_empty(old(tr).model(), old(tot).model(), stack.deep_view(), n@).1,
{
    if tr.in_devices && !tr.in_wrapper && !equals_str(n, "Devices") && parent_is_exec(stack, "Devices") {
        add_plugin_exec(tr, tot, "native", string_from_chars(n));
    }
}

fn empty_tempo_exec(
    info: &mut InfoScanner,
    n: &[char],
    attrs: &Vec<Option<XmlAttr>>,
    stack: &Vec<String>,
    in_master: bool,
    in_track: bool,
)
    ensures
        final(info).model() =~~= empty_tempo(old(info).model(), n@, attrs.deep_view(), stack.deep_view(), in_master, in_track),
{
    if equals_str(n, "Manual") && parent_is_exec(stack, "Tempo") && (in_master || !in_track) {
        let vs = tempo_values_exec(&attr_values_exec(attrs, "Value"));
        if vs.len() > 0 {
            info.bpm = Some(Number::Literal(last_string(&vs)));
        }
    }
}

fn empty_track_name_exec(tr: &mut TrackScanner, n: &[char], attrs: &Vec<Option<XmlAttr>>, stack: &Vec<String>)
    ensures
        final(tr).model() =~~= empty_track_name(old(tr).model(), n@, attrs.deep_view(), stack.deep_view()),
{
    if tr.in_track && tr.name.as_str().is_empty() {
        let vs = nonempty_exec(&attr_values_exec(attrs, "Value"));
        if equals_str(n, "EffectiveName") && parent_is_exec(stack, "Name") && vs.len() > 0 {
            tr.name = last_string(&vs);
        }
        if tr.name.as_str().is_empty() && equals_str(n, "UserName") && vs.len() > 0 {
            tr.name = last_string(&vs);
        }
    }
}

fn empty_plugin_name_exec(
    tr: &mut TrackScanner,
    tot: &mut TotalsScanner,
    n: &[char],
    attrs: &Vec<Option<XmlAttr>>,
)
    ensures
        final(tr).model() =~~= empty_plugin_name(old(tr).model(), old(tot).model(), n@, attrs.deep_view()).0,
        final(tot).model() =~~= empty_plugin_name(old(tr).model(), old(tot).model(), n@, attrs.deep_view()).1,
{
    if tr.in_wrapper && (equals_str(n, "PlugName") || equals_str(n, "UserName")) {
        let vs = nonempty_exec(&attr_values_exec(attrs, "Value"));
        proof {
            lemma_attr_values_len(attrs.deep_view(), "Value"@);
            lemma_nonempty_len(attr_values(attrs.deep_view(), "Value"@));
        }
        let ghost vv = vs.deep_view();
        let ghost tr0 = tr.model();
        let ghost tot0 = tot.model();
        let mut i: usize = 0;
        assert(vv.take(0) =~= Seq::<Seq<char>>::empty());
        while i < vs.len()
            invariant
                0 <= i <= vs.len(),
                vv == vs.deep_view(),
                tr.model() =~~= add_plugins(tr0, tot0, "vst"@, vv.take(i as int)).0,
                tot.model() =~~= add_plugins(tr0, tot0, "vst"@, vv.take(i as int)).1,
            decreases vs.len() - i,
        {
            assert(vv.take(i + 1).drop_last() =~= vv.take(i as int));
            add_plugin_exec(tr, tot, "vst", vs[i].clone());
            i = i + 1;
        }
        assert(vv.take(vs.len() as int) =~= vv);
    }
}

fn empty_locator_exec(r: &mut RefsScanner, n: &[char], attrs: &Vec<Option<XmlAttr>>)
    ensures
        final(r).model() =~~= empty_locator(old(r).model(), n@, attrs.deep_view()),
{
    if r.in_locator {
        let vs = attr_values_exec(attrs, "Value");
        if vs.len() > 0 {
            if equals_str(n, "Name") {
                r.locator_name = last_string(&vs);
            } else if equals_str(n, "Time") {
                let t = chars_of(vs[vs.len() - 1].as_str());
                r.locator_time = crate::number::literal_or_zero(t.as_slice());
            }
        }
    }
}

fn contains_true(vs: &Vec<String>) -> (r: bool)
    ensures
        r == vs.deep_view().contains("true"@),
{
    let mut i: usize = 0;
    while i < vs.len()
        invariant
            0 <= i <= vs.len(),
            forall|k: int| 0 <= k < i ==> vs.deep_view()[k] != "true"@,
        decreases vs.len() - i,
    {
        if string_is(&vs[i], "true") {
            assert(vs.deep_view()[i as int] == "true"@);
            return true;
        }
        i = i + 1;
    }
    false
}

fn empty_sidechain_exec(c: &mut CtxScanner, n: &[char], attrs: &Vec<Option<XmlAttr>>)
    ensures
        final(c).model() =~~= empty_sidechain(old(c).model(), n@, attrs.deep_view()),
{
    if c.in_sidechain && equals_str(n, "Manual") && parent_is_exec(&c.stack, "On") {
        if contains_true(&attr_values_exec(attrs, "Value")) {
            c.sidechain_pending = true;
        }
    }
}

fn empty_color_exec(tr: &mut TrackScanner, n: &[char], attrs: &Vec<Option<XmlAttr>>)
    ensures
        final(tr).model() =~~= empty_color(old(tr).model(), n@, attrs.deep_view()),
{
    if tr.in_track && equals_str(n, "Color") && tr.color.is_none() {
        let vs = nonempty_exec(&attr_values_exec(attrs, "Value"));
        if vs.len() > 0 {
            let mut text = chars_of("ableton_color_");
            let v = chars_of(vs[vs.len() - 1].as_str());
            let ghost base = text@;
            let mut k: usize = 0;
            while k < v.len()
                invariant
                    0 <= k <= v.len(),
                    text@ == base + v@.take(k as int),
                decreases v.len() - k,
            {
                text.push(v[k]);
                k = k + 1;
                assert(text@ =~= base + v@.take(k as int));
            }
            assert(v@.take(v.len() as int) =~= v@);
            tr.color = Some(string_from_chars(text.as_slice()));
        }
    }
}

fn empty_ids_exec(info: &mut InfoScanner, in_envelope: bool, in_file_ref: bool, n: &[char], attrs: &Vec<Option<XmlAttr>>)
    ensures
        final(info).model() =~~= empty_ids(old(info).model(), in_envelope, in_file_ref, n@, attrs.deep_view()),
{
    let vs = nonempty_exec(&attr_values_exec(attrs, "Value"));
    let ghost vv = vs.deep_view();
    if in_envelope && equals_str(n, "PointeeId") {
        let ghost start = info.automated.deep_view();
        let ghost info0 = info.model();
        let mut i: usize = 0;
        assert(vv.take(0) =~= Seq::<Seq<char>>::empty());
        while i < vs.len()
            invariant
                0 <= i <= vs.len(),
                vv == vs.deep_view(),
                info.automated.deep_view() == add_ids(start, vv.take(i as int)),
                info.model() =~~= (AbInfo { automated: add_ids(start, vv.take(i as int)), ..info0 }),
            decreases vs.len() - i,
        {
            assert(vv.take(i + 1).drop_last() =~= vv.take(i as int));
            crate::text::push_new(&mut info.automated, vs[i].clone());
            i = i + 1;
        }
        assert(vv.take(vs.len() as int) =~= vv);
    }
    if in_file_ref && equals_str(n, "Name") {
        let ghost start = info.samples.deep_view();
        let ghost info1 = info.model();
        let mut i: usize = 0;
        assert(vv.take(0) =~= Seq::<Seq<char>>::empty());
        while i < vs.len()
            invariant
                0 <= i <= vs.len(),
                vv == vs.deep_view(),
                info.samples.deep_view() =~= start + vv.take(i as int),
                info.model() =~~= (AbInfo { samples: start + vv.take(i as int), ..info1 }),
            decreases vs.len() - i,
        {
            let ghost prev = info.samples.deep_view();
            info.samples.push(vs[i].clone());
            assert(info.samples.deep_view() =~= prev.push(vv[i as int]));
            assert(vv.take(i + 1) =~= vv.take(i as int).push(vv[i as int]));
            i = i + 1;
        }
        assert(vv.take(vs.len() as int) =~= vv);
    }
}

fn empty_exec(sc: &mut AbScanner, tag: &XmlTag)
    ensures
        final(sc).model() =~~= empty_step(old(sc).model(), tag@),
{
    let ghost st = sc.model();
    let n = lossy_chars(&tag.name);
    let ns = n.as_slice();
    native_empty_exec(&mut sc.track, &mut sc.totals, &sc.ctx.stack, ns);
    let in_track = sc.track.in_track;
    empty_tempo_exec(&mut sc.info, ns, &tag.attrs, &sc.ctx.stack, sc.ctx.in_master, in_track);
    empty_track_name_exec(&mut sc.track, ns, &tag.attrs, &sc.ctx.stack);
    empty_plugin_name_exec(&mut sc.track, &mut sc.totals, ns, &tag.attrs);
    empty_locator_exec(&mut sc.refs, ns, &tag.attrs);
    empty_note_exec(&mut sc.ctx, ns);
    empty_sidechain_exec(&mut sc.ctx, ns, &tag.attrs);
    let in_envelope = sc.ctx.in_envelope;
    let in_file_ref = sc.refs.in_file_ref;
    empty_ids_exec(&mut sc.info, in_envelope, in_file_ref, ns, &tag.attrs);
    empty_color_exec(&mut sc.track, ns, &tag.attrs);
}

} // verus!

verus! {

fn end_clip_info_exec(info: &mut InfoScanner, c: &CtxScanner, track_name: &String, n: &[char])
    ensures
        final(info).model() =~~= end_clip_info(old(info).model(), c.model(), track_name@, n@),
{
    if equals_str(n, "MidiClip") && c.in_midi_clip && c.note_count > 0 {
        let t = MidiTrackInfo { track_name: track_name.clone(), note_count: c.note_count, pitch_low: None, pitch_high: None };
        let ghost tv = t@;
        let ghost prev = info.midi_tracks.deep_view();
        info.midi_tracks.push(t);
        assert(info.midi_tracks.deep_view() =~= prev.push(tv));
    }
}

fn end_info_exec(info: &mut InfoScanner, c: &CtxScanner, r: &RefsScanner, n: &[char])
    ensures
        final(info).model() =~~= end_info(old(info).model(), c.model(), r.model(), n@),
{
    if is_dynamics_exec(n) && c.sidechain_pending {
        info.has_sidechain = true;
    }
    if equals_str(n, "Locator") && r.in_locator && !r.locator_name.as_str().is_empty() {
        let mk = MarkerInfo { name: r.locator_name.clone(), position_seconds: r.locator_time.duplicate() };
        let ghost mv = mk@;
        let ghost prev = info.markers.deep_view();
        info.markers.push(mk);
        assert(info.markers.deep_view() =~= prev.push(mv));
    }
}

} // verus!

verus! {

fn end_track_exec(tr: &mut TrackScanner, tot: &mut TotalsScanner, n: &[char])
    ensures
        final(tr).model() =~~= end_track(old(tr).model(), old(tot).model(), n@).0,
        final(tot).model() =~~= end_track(old(tr).model(), old(tot).model(), n@).1,
{
    match track_kind_exec(n) {
        Some(k) => {
            if tr.in_track && tr.kind == Some(k) {
                let track_type = match k {
                    TrackKind::Audio => {
                        tot.audio = if tot.audio == u32::MAX { 0 } else { tot.audio + 1 };
                        String::from_str("audio")
                    },
                    TrackKind::Midi => {
                        tot.midi = if tot.midi == u32::MAX { 0 } else { tot.midi + 1 };
                        String::from_str("midi")
                    },
                    TrackKind::Return => {
                        tot.returns = if tot.returns == u32::MAX { 0 } else { tot.returns + 1 };
                        String::from_str("return")
                    },
                    TrackKind::Group => {
                        tot.groups = if tot.groups == u32::MAX { 0 } else { tot.groups + 1 };
                        String::from_str("group")
                    },
                };
                let plugins = crate::reaper::clone_strings(&tr.plugins);
                let color = tr.color.take();
                let t = TrackInfo { name: tr.name.clone(), track_type: track_type, plugins: plugins, color: color };
                let ghost tv = t@;
                let ghost prev = tot.tracks.deep_view();
                tot.tracks.push(t);
                assert(tot.tracks.deep_view() =~= prev.push(tv));
                tr.in_track = false;
                tr.kind = None;
                tr.in_devices = false;
                tr.in_wrapper = false;
            }
        },
        None => {},
    }
}

fn end_devices_exec(tr: &mut TrackScanner, n: &[char])
    ensures
        final(tr).model() =~~= end_devices(old(tr).model(), n@),
{
    if equals_str(n, "Devices") {
        tr.in_devices = false;
        tr.in_wrapper = false;
    }
    if is_wrapper_exec(n) {
        tr.in_wrapper = false;
    }
}

fn end_clip_ctx_exec(c: &mut CtxScanner, n: &[char])
    ensures
        final(c).model() =~~= end_clip_ctx(old(c).model(), n@),
{
    if is_master_exec(n) {
        c.in_master = false;
    }
    if equals_str(n, "MidiClip") {
        c.in_midi_clip = false;
        c.in_key_track = false;
        c.note_count = 0;
    }
    if equals_str(n, "KeyTrack") {
        c.in_key_track = false;
    }
}

fn end_dynamics_ctx_exec(c: &mut CtxScanner, n: &[char])
    ensures
        final(c).model() =~~= end_dynamics_ctx(old(c).model(), n@),
{
    if is_dynamics_exec(n) {
        c.sidechain_pending = false;
        c.in_dynamics = false;
        c.in_sidechain = false;
    }
    if is_sidechain_section_exec(n) {
        c.in_sidechain = false;
    }
    if equals_str(n, "AutomationEnvelope") {
        c.in_envelope = false;
    }
}

fn pop_ctx_exec(c: &mut CtxScanner)
    ensures
        final(c).model() =~~= pop_ctx(old(c).model()),
{
    if c.stack.len() > 0 {
        let ghost prev = c.stack.deep_view();
        c.stack.pop();
        assert(c.stack.deep_view() =~= prev.drop_last());
    }
}

fn end_refs_exec(r: &mut RefsScanner, n: &[char])
    ensures
        final(r).model() =~~= end_refs(old(r).model(), n@),
{
    if equals_str(n, "Locator") {
        r.in_locator = false;
    }
    if equals_str(n, "FileRef") {
        r.in_file_ref = false;
    }
    if equals_str(n, "SampleRef") {
        r.in_sample_ref = false;
    }
}

fn end_exec(sc: &mut AbScanner, name: &Vec<u8>)
    ensures
        final(sc).model() =~~= end_step(old(sc).model(), name@),
{
    let n = lossy_chars(name);
    let ns = n.as_slice();
    end_clip_info_exec(&mut sc.info, &sc.ctx, &sc.track.name, ns);
    end_info_exec(&mut sc.info, &sc.ctx, &sc.refs, ns);
    end_track_exec(&mut sc.track, &mut sc.totals, ns);
    end_devices_exec(&mut sc.track, ns);
    end_clip_ctx_exec(&mut sc.ctx, ns);
    end_dynamics_ctx_exec(&mut sc.ctx, ns);
    pop_ctx_exec(&mut sc.ctx);
    end_refs_exec(&mut sc.refs, ns);
}

} // verus!

verus! {

/// The track type a tag name opens (`audio`, `midi`, `return` or `group`), if any.
pub fn track_type_for_tag(tag: &str) -> (r: Option<&'static str>)
    ensures
        match (r, track_kind_for(tag@)) {
            (Some(s), Some(k)) => s@ == kind_text(k),
            (None, None) => true,
            _ => false,
        },
{
    let n = chars_of(tag);
    match track_kind_exec(n.as_slice()) {
        Some(TrackKind::Audio) => Some("audio"),
        Some(TrackKind::Midi) => Some("midi"),
        Some(TrackKind::Return) => Some("return"),
        Some(TrackKind::Group) => Some("group"),
        None => None,
    }
}

/// Once the reading fails, or reaches the end of the document, further events
/// change nothing.
proof fn lemma_run_settled(events: Seq<XmlEventModel>, k: int)
    requires
        0 <= k <= events.len(),
        ab_run(events.take(k)) is Err || (ab_run(events.take(k)) matches Ok(st) && st.done),
    ensures
        ab_run(events) == ab_run(events.take(k)),
    decreases events.len() - k,
{
    if k < events.len() {
        assert(events.take(k + 1).drop_last() =~= events.take(k));
        lemma_run_settled(events, k + 1);
    } else {
        assert(events.take(k) =~= events);
    }
}

/// Reads one event into the state: `Err` with the message of a reader error.
fn apply_event(sc: &mut AbScanner, e: &XmlEvent) -> (r: Result<(), String>)
    requires
        !old(sc).done,
    ensures
        match e@ {
            XmlEventModel::Start(t) => r is Ok && final(sc).model() =~~= start_step(old(sc).model(), t),
            XmlEventModel::Empty(t) => r is Ok && final(sc).model() =~~= empty_step(old(sc).model(), t),
            XmlEventModel::End(n) => r is Ok && final(sc).model() =~~= end_step(old(sc).model(), n),
            XmlEventModel::Eof => r is Ok && final(sc).model() =~~= (AbState { done: true, ..old(sc).model() }),
            XmlEventModel::Error(msg) => r matches Err(s) && s@ == "XML parse error: "@ + msg,
            XmlEventModel::Other => r is Ok && final(sc).model() =~~= old(sc).model(),
        },
{
    match e {
        XmlEvent::Start(t) => {
            start_exec(sc, t);
            Ok(())
        },
        XmlEvent::Empty(t) => {
            empty_exec(sc, t);
            Ok(())
        },
        XmlEvent::End(n) => {
            end_exec(sc, n);
            Ok(())
        },
        XmlEvent::Eof => {
            sc.done = true;
            Ok(())
        },
        XmlEvent::Error(msg) => {
            let mut v = chars_of("XML parse error: ");
            let mc = chars_of(msg.as_str());
            let ghost base = v@;
            let mut k: usize = 0;
            while k < mc.len()
                invariant
                    0 <= k <= mc.len(),
                    v@ == base + mc@.take(k as int),
                decreases mc.len() - k,
            {
                v.push(mc[k]);
                k = k + 1;
                assert(v@ =~= base + mc@.take(k as int));
            }
            assert(mc@.take(mc.len() as int) =~= mc@);
            Err(string_from_chars(v.as_slice()))
        },
        XmlEvent::Other => Ok(()),
    }
}

/// The unified record of a finished reading state.
fn ab_finish(sc: AbScanner) -> (r: ParsedIntelligence)
    ensures
        r@ == ab_intel(sc.model()),
{
    let ghost st = sc.model();
    let names = crate::project_data::dedup_strings(&sc.info.samples);
    let ghost nv = names.deep_view();
    let mut samples: Vec<SampleInfo> = Vec::new();
    let mut i: usize = 0;
    while i < names.len()
        invariant
            0 <= i <= names.len(),
            nv == names.deep_view(),
            samples.deep_view() =~= nv.take(i as int).map_values(|n: Seq<char>| unlocated(n)),
        decreases names.len() - i,
    {
        let ghost prev = samples.deep_view();
        samples.push(SampleInfo { name: names[i].clone(), path: None });
        assert(samples.deep_view() =~= prev.push(unlocated(nv[i as int])));
        assert(nv.take(i + 1) =~= nv.take(i as int).push(nv[i as int]));
        i = i + 1;
    }
    assert(nv.take(names.len() as int) =~= nv);
    let mut intel = ParsedIntelligence::blank("Ableton Live");
    intel.daw_version = sc.info.version;
    intel.bpm = sc.info.bpm;
    intel.mixer = MixerInfo {
        total_tracks: sc.totals.tracks.len() as u32,
        audio_tracks: sc.totals.audio,
        midi_tracks: sc.totals.midi,
        return_tracks: sc.totals.returns,
        group_tracks: sc.totals.groups,
        has_sidechain: sc.info.has_sidechain,
    };
    intel.tracks = sc.totals.tracks;
    intel.plugins = sc.totals.tally;
    intel.samples = samples;
    intel.midi_tracks = sc.info.midi_tracks;
    intel.markers = sc.info.markers;
    intel.automated_params = sc.info.automated;
    intel
}

/// Reads an Ableton set from the reader's events, in order: the record, or the
/// message of the first reader error (`XML parse error: …`). Events after the
/// end of the document are ignored; a sequence without one reads to its end.
/// The `u32` counts (tracks by type, notes of a clip, plugin occurrences) wrap
/// past `u32::MAX` to zero.
pub fn parse_xml_events(events: &[XmlEvent]) -> (r: Result<ParsedIntelligence, String>)
    ensures
        match (r, parse_events_spec(events.deep_view())) {
            (Ok(v), Ok(m)) => v@ == m,
            (Err(e), Err(m)) => e@ == m,
            _ => false,
        },
{
    let ghost ev = events.deep_view();
    let mut sc = new_ab_scanner();
    let mut i: usize = 0;
    assert(ev.take(0) =~= Seq::<XmlEventModel>::empty());
    while i < events.len() && !sc.done
        invariant
            0 <= i <= events.len(),
            ev == events.deep_view(),
            ab_run(ev.take(i as int)) == Ok::<AbState, Seq<char>>(sc.model()),
        decreases events.len() - i,
    {
        assert(ev.take(i + 1).drop_last() =~= ev.take(i as int));
        assert(ev.take(i + 1).last() == ev[i as int]);
        assert(ev[i as int] == events@[i as int]@);
        match apply_event(&mut sc, &events[i]) {
            Err(msg) => {
                proof {
                    lemma_run_settled(ev, i + 1);
                }
                return Err(msg);
            },
            Ok(()) => {},
        }
        i = i + 1;
    }
    proof {
        if i == events.len() {
            assert(ev.take(i as int) =~= ev);
        } else {
            lemma_run_settled(ev, i as int);
        }
    }
    Ok(ab_finish(sc))
}

} // verus!

verus! {

/// What [`parse_xml_content`] makes of the bytes of a set's XML.
pub open spec fn parse_xml_content_spec(xml: Seq<u8>) -> Result<IntelModel, Seq<char>> {
    parse_events_spec(xml_events_of(xml))
}

fn is_final_exec(e: &XmlEvent) -> (r: bool)
    ensures
        r == is_final(e@),
{
    match e {
        XmlEvent::Eof => true,
        XmlEvent::Error(_) => true,
        _ => false,
    }
}

/// Reads the XML of an Ableton set (not compressed): the events quick-xml's
/// reader yields, through [`parse_xml_events`].
pub fn parse_xml_content(xml: &[u8]) -> (r: Result<ParsedIntelligence, String>)
    ensures
        match (r, parse_xml_content_spec(xml@)) {
            (Ok(v), Ok(m)) => v@ == m,
            (Err(e), Err(m)) => e@ == m,
            _ => false,
        },
{
    let mut reader = xml_reader(xml);
    let ghost ev = xml_events_of(xml@);
    let mut events: Vec<XmlEvent> = Vec::new();
    let mut finished = false;
    assert(ev.take(0) =~= Seq::<XmlEventModel>::empty());
    assert(ev.skip(0) =~= ev);
    while !finished
        invariant
            ev == xml_events_of(xml@),
            ends_once(ev),
            !finished ==> reader_events(reader) == ev.skip(events@.len() as int),
            !finished ==> events@.len() < ev.len(),
            finished ==> events.deep_view() == ev,
            events.deep_view() == ev.take(events@.len() as int),
            events@.len() <= ev.len(),
        decreases ev.len() - events@.len(),
    {
        let ghost k = events@.len() as int;
        let e = next_event(&mut reader);
        assert(e@ == ev[k]);
        assert(ev.take(k + 1).drop_last() =~= ev.take(k));
        assert(ev.take(k + 1).last() == ev[k]);
        let fin = is_final_exec(&e);
        let ghost prev = events.deep_view();
        events.push(e);
        assert(events.deep_view() =~= prev.push(ev[k]));
        assert(ev.take(k + 1) =~= ev.take(k).push(ev[k]));
        assert(ev.skip(k).drop_first() =~= ev.skip(k + 1));
        if fin {
            assert(k == ev.len() - 1);
            assert(ev.take(k + 1) =~= ev);
            finished = true;
        }
    }
    parse_xml_events(events.as_slice())
}

/// Largest uncompressed XML this parser reads (5 MiB).
pub const MAX_UNCOMPRESSED: u64 = 5242880;

/// What flate2's `GzDecoder` reading (at most `limit` bytes) makes of gzip
/// data: the decompressed bytes, or the I/O error's message.
pub uninterp spec fn gunzip_of(gz: Seq<u8>, limit: u64) -> Result<Seq<u8>, Seq<char>>;

/// The bytes begin with a gzip member header: at least the ten fixed header
/// bytes, starting with the magic `1f 8b` and the deflate method `08`.
pub open spec fn gzip_header_start(b: Seq<u8>) -> bool {
    b.len() >= 10 && b[0] == 0x1f && b[1] == 0x8b && b[2] == 8
}

/// Decompresses gzip data with `flate2::read::GzDecoder`, reading at most
/// `limit` bytes of output (`Read::take` then `read_to_end`). The contract names
/// the result without describing the decompression, and claims one fact of
/// flate2's source: the decoder parses the ten-byte header when it is created,
/// so input that is shorter or lacks the magic and method bytes fails on the
/// first read (which `take` makes only for a positive limit).
#[verifier::external_body]
fn gunzip(gz: &[u8], limit: u64) -> (r: Result<Vec<u8>, String>)
    ensures
        match (r, gunzip_of(gz@, limit)) {
            (Ok(v), Ok(m)) => v@ == m,
            (Err(e), Err(m)) => e@ == m,
            _ => false,
        },
        limit > 0 && !gzip_header_start(gz@) ==> r is Err,
{
    let mut out = Vec::new();
    let decoder = flate2::read::GzDecoder::new(gz);
    match std::io::Read::read_to_end(&mut std::io::Read::take(decoder, limit), &mut out) {
        Ok(_) => Ok(out),
        Err(e) => Err(e.to_string()),
    }
}

/// What [`parse_decompressed`] makes of the outcome of decompressing a set.
pub open spec fn parse_decompressed_spec(xml: Result<Seq<u8>, Seq<char>>) -> Result<IntelModel, Seq<char>> {
    match xml {
        Err(e) => Err("Decompress: "@ + e),
        Ok(x) => if x.len() >= MAX_UNCOMPRESSED {
            Err("Uncompressed XML exceeds 5242880 byte limit"@)
        } else {
            parse_xml_content_spec(x)
        },
    }
}

fn prefixed(prefix: &str, s: &String) -> (r: String)
    ensures
        r@ == prefix@ + s@,
{
    let mut v = chars_of(prefix);
    let c = chars_of(s.as_str());
    let ghost base = v@;
    let mut k: usize = 0;
    while k < c.len()
        invariant
            0 <= k <= c.len(),
            v@ == base + c@.take(k as int),
        decreases c.len() - k,
    {
        v.push(c[k]);
        k = k + 1;
        assert(v@ =~= base + c@.take(k as int));
    }
    assert(c@.take(c.len() as int) =~= c@);
    string_from_chars(v.as_slice())
}

/// Reads a set from the outcome of decompressing it: a decompression error is
/// reported as `Decompress: …`; XML of [`MAX_UNCOMPRESSED`] bytes or more is
/// refused; else [`parse_xml_content`].
pub fn parse_decompressed(xml: Result<Vec<u8>, String>) -> (r: Result<ParsedIntelligence, String>)
    ensures
        match (r, parse_decompressed_spec(match xml { Ok(v) => Ok(v@), Err(e) => Err(e@) })) {
            (Ok(v), Ok(m)) => v@ == m,
            (Err(e), Err(m)) => e@ == m,
            _ => false,
        },
{
    match xml {
        Err(e) => Err(prefixed("Decompress: ", &e)),
        Ok(x) => {
            if x.len() as u64 >= MAX_UNCOMPRESSED {
                Err(String::from_str("Uncompressed XML exceeds 5242880 byte limit"))
            } else {
                parse_xml_content(x.as_slice())
            }
        },
    }
}

/// Reads a gzip-compressed `.als` file: decompressed (at most
/// [`MAX_UNCOMPRESSED`] bytes), then [`parse_decompressed`]. A file that does not
/// begin with a gzip header is an error.
pub fn parse(gz: &[u8]) -> (r: Result<ParsedIntelligence, String>)
    ensures
        match (r, parse_decompressed_spec(gunzip_of(gz@, MAX_UNCOMPRESSED))) {
            (Ok(v), Ok(m)) => v@ == m,
            (Err(e), Err(m)) => e@ == m,
            _ => false,
        },
        !gzip_header_start(gz@) ==> r is Err,
{
    parse_decompressed(gunzip(gz, MAX_UNCOMPRESSED))
}

} // verus!

verus! {

/// What stays true of the reading state from event to event.
pub open spec fn ab_inv(st: AbState) -> bool {
    &&& crate::plugins_tallied(st.totals.tally)
    &&& st.totals.audio == crate::tracks_of_type(st.totals.tracks, "audio"@)
    &&& st.totals.midi == crate::tracks_of_type(st.totals.tracks, "midi"@)
    &&& st.totals.returns == crate::tracks_of_type(st.totals.tracks, "return"@)
    &&& st.totals.groups == crate::tracks_of_type(st.totals.tracks, "group"@)
    &&& crate::tempo_in_range(st.info.bpm)
    &&& crate::number::number_ok(st.refs.locator_time)
    &&& forall|i: int| 0 <= i < st.info.markers.len() ==> crate::number::number_ok(#[trigger] st.info.markers[i].position_seconds)
    &&& crate::midi_summaries_sound(st.info.midi_tracks)
}

proof fn lemma_add_plugin_tallied(tr: AbTrack, tot: AbTotals, kind: Seq<char>, name: Seq<char>, m: int)
    requires
        crate::plugins_tallied(tot.tally),
        plugins_within(tot.tally, m),
        0 <= m < u32::MAX,
    ensures
        crate::plugins_tallied(add_plugin(tr, tot, kind, name).1.tally),
        plugins_within(add_plugin(tr, tot, kind, name).1.tally, m + 1),
{
    reveal(plugins_within);
    crate::tally::lemma_counts_mono(tot.tally, m, u32::MAX - 1);
    crate::tally::lemma_tally_add_tallied(tot.tally, kind, name);
    crate::tally::lemma_tally_add_bound(tot.tally, kind, name, m);
}

proof fn lemma_add_plugins_tallied(tr: AbTrack, tot: AbTotals, kind: Seq<char>, names: Seq<Seq<char>>, m: int)
    requires
        crate::plugins_tallied(tot.tally),
        plugins_within(tot.tally, m),
        0 <= m,
        m + names.len() <= u32::MAX,
    ensures
        crate::plugins_tallied(add_plugins(tr, tot, kind, names).1.tally),
        plugins_within(add_plugins(tr, tot, kind, names).1.tally, m + names.len()),
        add_plugins(tr, tot, kind, names).1 == (AbTotals { tally: add_plugins(tr, tot, kind, names).1.tally, ..tot }),
    decreases names.len(),
{
    if names.len() > 0 {
        lemma_add_plugins_tallied(tr, tot, kind, names.drop_last(), m);
        let (t1, o1) = add_plugins(tr, tot, kind, names.drop_last());
        let k = m + names.len() - 1;
        reveal(plugins_within);
        crate::tally::lemma_counts_mono(o1.tally, k, u32::MAX - 1);
        crate::tally::lemma_tally_add_tallied(o1.tally, kind, names.last());
        crate::tally::lemma_tally_add_bound(o1.tally, kind, names.last(), k);
    }
}

proof fn lemma_tempo_values_in_range(s: Seq<Seq<char>>)
    ensures
        forall|i: int| 0 <= i < tempo_values(s).len() ==> crate::number::in_tempo_range(#[trigger] tempo_values(s)[i]),
    decreases s.len(),
{
    if s.len() > 0 {
        lemma_tempo_values_in_range(s.drop_last());
        let p = tempo_values(s.drop_last());
        if crate::number::in_tempo_range(s.last()) {
            assert forall|i: int| 0 <= i < tempo_values(s).len() implies crate::number::in_tempo_range(#[trigger] tempo_values(s)[i]) by {
                if i < p.len() {
                    assert(tempo_values(s)[i] == p[i]);
                }
            }
        }
    }
}

proof fn lemma_start_inv(st: AbState, t: XmlTagModel, m: int)
    requires
        ab_inv(st),
        ab_bounded(st, m),
        0 <= m,
        m + 1 < u32::MAX,
    ensures
        ab_inv(start_step(st, t)),
{
    let n = utf8_lossy_of(t.name);
    let stack = st.ctx.stack.push(n);
    let tr = track_open(st.track, n);
    if is_native_device(tr, n, stack.len() >= 2 && stack[stack.len() - 2] == "Devices"@) {
        lemma_add_plugin_tallied(tr, st.totals, "native"@, n, m);
    }
}

proof fn lemma_empty_inv(st: AbState, t: XmlTagModel, m: int)
    requires
        ab_inv(st),
        ab_bounded(st, m),
        0 <= m,
        m + 1 + t.attrs.len() < u32::MAX,
    ensures
        ab_inv(empty_step(st, t)),
{
    let n = utf8_lossy_of(t.name);
    let a = t.attrs;
    let stack = st.ctx.stack;
    let (tr1, tot1) = native_empty(st.track, st.totals, stack, n);
    assert(crate::plugins_tallied(tot1.tally) && plugins_within(tot1.tally, m + 1)) by {
        if is_native_device(st.track, n, parent_is(stack, "Devices"@)) {
            lemma_add_plugin_tallied(st.track, st.totals, "native"@, n, m);
        } else {
            lemma_plugins_within_mono(st.totals.tally, m, m + 1);
        }
    }
    let tr2 = empty_track_name(tr1, n, a, stack);
    let vals = nonempty(attr_values(a, "Value"@));
    lemma_attr_values_len(a, "Value"@);
    lemma_nonempty_len(attr_values(a, "Value"@));
    lemma_add_plugins_tallied(tr2, tot1, "vst"@, vals, m + 1);
    let vs = tempo_values(attr_values(a, "Value"@));
    lemma_tempo_values_in_range(attr_values(a, "Value"@));
    if vs.len() > 0 {
        assert(crate::number::in_tempo_range(vs[vs.len() - 1]));
    }
    let r1 = empty_locator(st.refs, n, a);
    assert(crate::number::number_ok(r1.locator_time));
}

proof fn lemma_end_inv(st: AbState, name: Seq<u8>, m: int)
    requires
        ab_inv(st),
        ab_bounded(st, m),
        0 <= m,
        m + 1 < u32::MAX,
    ensures
        ab_inv(end_step(st, name)),
{
    let n = utf8_lossy_of(name);
    crate::reaper::lemma_kinds_distinct();
    let info1 = end_clip_info(st.info, st.ctx, st.track.name, n);
    assert(crate::midi_summaries_sound(info1.midi_tracks)) by {
        if n == "MidiClip"@ && st.ctx.in_midi_clip && st.ctx.note_count > 0 {
            assert forall|i: int| 0 <= i < info1.midi_tracks.len() implies {
                let x = #[trigger] info1.midi_tracks[i];
                &&& x.note_count >= 1
                &&& match (x.pitch_low, x.pitch_high) {
                    (Some(lo), Some(hi)) => lo <= hi,
                    (None, None) => true,
                    _ => false,
                }
            } by {
                if i < st.info.midi_tracks.len() {
                    assert(info1.midi_tracks[i] == st.info.midi_tracks[i]);
                }
            }
        }
    }
    let info2 = end_info(info1, st.ctx, st.refs, n);
    assert forall|i: int| 0 <= i < info2.markers.len() implies crate::number::number_ok(#[trigger] info2.markers[i].position_seconds) by {
        if i < info1.markers.len() {
            assert(info2.markers[i] == info1.markers[i]);
        }
    }
    match track_kind_for(n) {
        Some(k) => {
            if st.track.in_track && st.track.kind == Some(k) {
                let t = TrackModel { name: st.track.name, track_type: kind_text(k), plugins: st.track.plugins, color: st.track.color };
                crate::reaper::lemma_types_push(st.totals.tracks, t, "audio"@);
                crate::reaper::lemma_types_push(st.totals.tracks, t, "midi"@);
                crate::reaper::lemma_types_push(st.totals.tracks, t, "return"@);
                crate::reaper::lemma_types_push(st.totals.tracks, t, "group"@);
            }
        },
        None => {},
    }
}

/// Reading events keeps the invariant, up to an error.
proof fn lemma_run_inv(events: Seq<XmlEventModel>)
    requires
        events_weight(events) < u32::MAX,
    ensures
        ab_run(events) matches Ok(st) ==> ab_inv(st) && ab_bounded(st, events_weight(events) as int),
    decreases events.len(),
{
    if events.len() == 0 {
        reveal(plugins_within);
    } else {
        let prev = events.drop_last();
        lemma_run_inv(prev);
        if let Ok(st) = ab_run(prev) {
            if !st.done {
                let e = events.last();
                let m = events_weight(prev) as int;
                lemma_event_bounded(st, e, m);
                match e {
                    XmlEventModel::Start(t) => lemma_start_inv(st, t, m),
                    XmlEventModel::Empty(t) => lemma_empty_inv(st, t, m),
                    XmlEventModel::End(nm) => lemma_end_inv(st, nm, m),
                    _ => {},
                }
            } else {
                lemma_totals_within_mono(st.totals, events_weight(prev) as int, events_weight(events) as int);
            }
        }
    }
}

/// An Ableton record names its DAW `Ableton Live`; its mixer summary counts its
/// tracks; it lists each plugin once with a positive count; its tempo, if any,
/// lies within 30 to 300 BPM; its numbers read as `f64`; each MIDI summary has
/// notes; no sample name occurs twice; and it gives no time signature, duration
/// or swing, which the format does not expose dependably. The counts hold while
/// the events are few enough that no `u32` count wraps.
pub proof fn law_ableton_record_is_consistent(events: Seq<XmlEventModel>)
    requires
        events_weight(events) < u32::MAX,
    ensures
        parse_events_spec(events) matches Ok(m) ==> {
            &&& m.daw == crate::daw_label(crate::Daw::AbletonLive)
            &&& crate::mixer_counts_tracks(m)
            &&& crate::plugins_tallied(m.plugins)
            &&& crate::tempo_in_range(m.bpm)
            &&& crate::numbers_readable(m)
            &&& crate::midi_summaries_sound(m.midi_tracks)
            &&& crate::sample_names_distinct(m.samples)
            &&& m.time_signature is None
            &&& m.duration_seconds is None
            &&& m.swing_percentage is None
        },
{
    lemma_run_inv(events);
    if let Ok(st) = ab_run(events) {
        let m = ab_intel(st);
        crate::text::lemma_dedup_distinct(st.info.samples);
        let d = dedup(st.info.samples);
        assert forall|i: int, j: int| 0 <= i < j < m.samples.len() implies #[trigger] m.samples[i].name != #[trigger] m.samples[j].name by {
            assert(m.samples[i].name == d[i] && m.samples[j].name == d[j]);
        }
    }
}

} // verus!

verus! {

/// Every plugin of the tally is `native` or `vst`.
pub open spec fn plugin_types_ok(tally: Seq<PluginModel>) -> bool {
    forall|i: int| 0 <= i < tally.len() ==> (#[trigger] tally[i]).plugin_type == "native"@ || tally[i].plugin_type == "vst"@
}

/// No two entries are equal.
pub open spec fn ids_distinct(s: Seq<Seq<char>>) -> bool {
    forall|i: int, j: int| 0 <= i < j < s.len() ==> #[trigger] s[i] != #[trigger] s[j]
}

/// The shape every reading state keeps: plugins `native` or `vst`, tracks of the
/// four mixer types, automated parameters without repeats.
pub open spec fn ab_shape(st: AbState) -> bool {
    &&& plugin_types_ok(st.totals.tally)
    &&& crate::track_types_among(st.totals.tracks, crate::mixer_types())
    &&& ids_distinct(st.info.automated)
}

proof fn lemma_add_plugin_types(tr: AbTrack, tot: AbTotals, kind: Seq<char>, name: Seq<char>)
    requires
        plugin_types_ok(tot.tally),
        kind == "native"@ || kind == "vst"@,
    ensures
        plugin_types_ok(add_plugin(tr, tot, kind, name).1.tally),
        add_plugin(tr, tot, kind, name).1.tracks == tot.tracks,
{
    crate::tally::lemma_tally_add_kinds(tot.tally, kind, name);
}

proof fn lemma_add_plugins_types(tr: AbTrack, tot: AbTotals, kind: Seq<char>, names: Seq<Seq<char>>)
    requires
        plugin_types_ok(tot.tally),
        kind == "native"@ || kind == "vst"@,
    ensures
        plugin_types_ok(add_plugins(tr, tot, kind, names).1.tally),
        add_plugins(tr, tot, kind, names).1.tracks == tot.tracks,
    decreases names.len(),
{
    if names.len() > 0 {
        lemma_add_plugins_types(tr, tot, kind, names.drop_last());
        let (t1, o1) = add_plugins(tr, tot, kind, names.drop_last());
        lemma_add_plugin_types(t1, o1, kind, names.last());
    }
}

proof fn lemma_add_ids_distinct(list: Seq<Seq<char>>, ids: Seq<Seq<char>>)
    requires
        ids_distinct(list),
    ensures
        ids_distinct(add_ids(list, ids)),
    decreases ids.len(),
{
    if ids.len() > 0 {
        lemma_add_ids_distinct(list, ids.drop_last());
        let p = add_ids(list, ids.drop_last());
        let x = ids.last();
        if !p.contains(x) {
            let r = p.push(x);
            assert forall|i: int, j: int| 0 <= i < j < r.len() implies #[trigger] r[i] != #[trigger] r[j] by {
                if j == p.len() {
                    if r[i] == x {
                        assert(p[i] == x);
                        assert(p.contains(x));
                    }
                } else {
                    assert(p[i] != p[j]);
                }
            }
        }
    }
}

proof fn lemma_step_shape(st: AbState, e: XmlEventModel)
    requires
        ab_shape(st),
    ensures
        match e {
            XmlEventModel::Start(t) => ab_shape(start_step(st, t)),
            XmlEventModel::Empty(t) => ab_shape(empty_step(st, t)),
            XmlEventModel::End(n) => ab_shape(end_step(st, n)),
            _ => true,
        },
{
    reveal_strlit("native");
    reveal_strlit("vst");
    match e {
        XmlEventModel::Start(t) => {
            let n = utf8_lossy_of(t.name);
            let stack = st.ctx.stack.push(n);
            let tr = track_open(st.track, n);
            if is_native_device(tr, n, stack.len() >= 2 && stack[stack.len() - 2] == "Devices"@) {
                lemma_add_plugin_types(tr, st.totals, "native"@, n);
            }
        },
        XmlEventModel::Empty(t) => {
            let n = utf8_lossy_of(t.name);
            let a = t.attrs;
            let (tr1, tot1) = native_empty(st.track, st.totals, st.ctx.stack, n);
            if is_native_device(st.track, n, parent_is(st.ctx.stack, "Devices"@)) {
                lemma_add_plugin_types(st.track, st.totals, "native"@, n);
            }
            let tr2 = empty_track_name(tr1, n, a, st.ctx.stack);
            lemma_add_plugins_types(tr2, tot1, "vst"@, nonempty(attr_values(a, "Value"@)));
            let info1 = empty_tempo(st.info, n, a, st.ctx.stack, st.ctx.in_master, tr1.in_track);
            lemma_add_ids_distinct(info1.automated, nonempty(attr_values(a, "Value"@)));
        },
        XmlEventModel::End(nm) => {
            let n = utf8_lossy_of(nm);
            let tot = st.totals;
            let (tr1, tot1) = end_track(st.track, st.totals, n);
            assert forall|i: int| 0 <= i < tot1.tracks.len() implies crate::mixer_types().contains(#[trigger] tot1.tracks[i].track_type) by {
                if i < tot.tracks.len() {
                    assert(tot1.tracks[i] == tot.tracks[i]);
                }
            }
        },
        _ => {},
    }
}

proof fn lemma_run_shape(events: Seq<XmlEventModel>)
    ensures
        ab_run(events) matches Ok(st) ==> ab_shape(st),
    decreases events.len(),
{
    if events.len() > 0 {
        lemma_run_shape(events.drop_last());
        if let Ok(st) = ab_run(events.drop_last()) {
            if !st.done {
                lemma_step_shape(st, events.last());
            }
        }
    }
}

/// Every plugin of an Ableton record is `native` or `vst`; every track is
/// `audio`, `midi`, `return` or `group`; and no automated parameter is listed
/// twice.
pub proof fn law_ableton_record_shape(events: Seq<XmlEventModel>)
    ensures
        parse_events_spec(events) matches Ok(m) ==> {
            &&& forall|i: int| 0 <= i < m.plugins.len() ==>
                (#[trigger] m.plugins[i]).plugin_type == "native"@ || m.plugins[i].plugin_type == "vst"@
            &&& crate::track_types_among(m.tracks, crate::mixer_types())
            &&& forall|i: int, j: int| 0 <= i < j < m.automated_params.len() ==>
                #[trigger] m.automated_params[i] != #[trigger] m.automated_params[j]
        },
{
    lemma_run_shape(events);
}

/// The tag is a tempo tag for the reading state `st`: a `<Manual>` directly
/// inside `<Tempo>`, standing in the master (or main) track or outside every
/// track, with a `Value` that is a tempo in `30.0..=300.0`.
pub open spec fn is_tempo_tag(st: AbState, t: XmlTagModel) -> bool {
    &&& utf8_lossy_of(t.name) == "Manual"@
    &&& parent_is(st.ctx.stack, "Tempo"@)
    &&& (st.ctx.in_master || !st.track.in_track)
    &&& tempo_values(attr_values(t.attrs, "Value"@)).len() > 0
}

/// The tempo of the last tempo tag among `events` (its last in-range `Value`).
pub open spec fn last_ab_tempo(events: Seq<XmlEventModel>) -> Option<Seq<char>>
    decreases events.len(),
{
    if events.len() == 0 {
        None
    } else {
        match (ab_run(events.drop_last()), events.last()) {
            (Ok(st), XmlEventModel::Empty(t)) => if !st.done && is_tempo_tag(st, t) {
                Some(tempo_values(attr_values(t.attrs, "Value"@)).last())
            } else {
                last_ab_tempo(events.drop_last())
            },
            _ => last_ab_tempo(events.drop_last()),
        }
    }
}

/// The tempo of an Ableton record is that of the last tempo tag: a `<Manual>`
/// directly inside `<Tempo>`, in the master (or main) track or outside every
/// track, whose value lies within 30 to 300 BPM; there is none without one.
pub proof fn law_ableton_tempo_is_last_tempo_tag(events: Seq<XmlEventModel>)
    ensures
        ab_run(events) matches Ok(st) ==> st.info.bpm == (match last_ab_tempo(events) {
            Some(v) => Some(NumberModel::Literal(v)),
            None => None,
        }),
    decreases events.len(),
{
    if events.len() > 0 {
        law_ableton_tempo_is_last_tempo_tag(events.drop_last());
    }
}

proof fn lemma_add_plugins_entries(tr: AbTrack, tot: AbTotals, kind: Seq<char>, names: Seq<Seq<char>>)
    ensures
        forall|v: Seq<char>| names.contains(v) ==> crate::tally::has_entry(add_plugins(tr, tot, kind, names).1.tally, kind, v),
        forall|k2: Seq<char>, n2: Seq<char>| crate::tally::has_entry(tot.tally, k2, n2)
            ==> crate::tally::has_entry(add_plugins(tr, tot, kind, names).1.tally, k2, n2),
    decreases names.len(),
{
    if names.len() > 0 {
        let p = names.drop_last();
        lemma_add_plugins_entries(tr, tot, kind, p);
        let (t1, o1) = add_plugins(tr, tot, kind, p);
        crate::tally::lemma_tally_add_keeps(o1.tally, kind, names.last());
        assert forall|v: Seq<char>| names.contains(v) implies
            crate::tally::has_entry(add_plugins(tr, tot, kind, names).1.tally, kind, v) by {
            let q = choose|q: int| 0 <= q < names.len() && names[q] == v;
            if q < p.len() {
                assert(p[q] == v);
                assert(p.contains(v));
            }
        }
    }
}

/// A VST or AU wrapper element (`PluginDevice`, `AuPluginDevice`,
/// `Vst3PluginDevice`, `MxPatchRef`) opened inside a device chain is never
/// counted as a native device: the tallies and tracks are unchanged, and the
/// reading is then inside a wrapper.
pub proof fn law_plugin_wrappers_are_not_native(st: AbState, t: XmlTagModel)
    requires
        utf8_lossy_of(t.name) == "PluginDevice"@ || utf8_lossy_of(t.name) == "AuPluginDevice"@
            || utf8_lossy_of(t.name) == "Vst3PluginDevice"@ || utf8_lossy_of(t.name) == "MxPatchRef"@,
    ensures
        start_step(st, t).totals == st.totals,
        st.track.in_devices ==> start_step(st, t).track.in_wrapper,
{
    reveal_strlit("PluginDevice");
    reveal_strlit("AuPluginDevice");
    reveal_strlit("Vst3PluginDevice");
    reveal_strlit("MxPatchRef");
    reveal_strlit("Devices");
    reveal_strlit("AudioTrack");
    reveal_strlit("MidiTrack");
    reveal_strlit("ReturnTrack");
    reveal_strlit("GroupTrack");
    let n = utf8_lossy_of(t.name);
    assert(n != "Devices"@) by {
        assert(n.len() != "Devices"@.len() || n[0] != "Devices"@[0]);
    }
}

/// Inside a VST or AU wrapper, each non-empty `Value` of a `<PlugName>` (or
/// `<UserName>`) tag is tallied as a `vst` plugin, and no earlier entry is lost.
pub proof fn law_wrapped_plugin_names_are_vst(st: AbState, t: XmlTagModel)
    requires
        st.track.in_wrapper,
        utf8_lossy_of(t.name) == "PlugName"@ || utf8_lossy_of(t.name) == "UserName"@,
    ensures
        forall|v: Seq<char>| nonempty(attr_values(t.attrs, "Value"@)).contains(v)
            ==> crate::tally::has_entry(empty_step(st, t).totals.tally, "vst"@, v),
        forall|k2: Seq<char>, n2: Seq<char>| crate::tally::has_entry(st.totals.tally, k2, n2)
            ==> crate::tally::has_entry(empty_step(st, t).totals.tally, k2, n2),
{
    let n = utf8_lossy_of(t.name);
    let a = t.attrs;
    let (tr1, tot1) = native_empty(st.track, st.totals, st.ctx.stack, n);
    let tr2 = empty_track_name(tr1, n, a, st.ctx.stack);
    lemma_add_plugins_entries(tr2, tot1, "vst"@, nonempty(attr_values(a, "Value"@)));
}

/// A track keeps the first name it is given: once the current track has a
/// name, no empty-element tag inside it (a `<UserName>` or `<EffectiveName>` of a
/// device, a clip, …) changes that name.
pub proof fn law_ableton_track_keeps_its_first_name(st: AbState, t: XmlTagModel)
    requires
        st.track.in_track,
        st.track.name.len() > 0,
    ensures
        empty_step(st, t).track.name == st.track.name,
{
    let n = utf8_lossy_of(t.name);
    let a = t.attrs;
    let (tr1, tot1) = native_empty(st.track, st.totals, st.ctx.stack, n);
    let tr2 = empty_track_name(tr1, n, a, st.ctx.stack);
    lemma_add_plugins_name(tr2, tot1, "vst"@, nonempty(attr_values(a, "Value"@)));
}

proof fn lemma_add_plugins_name(tr: AbTrack, tot: AbTotals, kind: Seq<char>, names: Seq<Seq<char>>)
    ensures
        add_plugins(tr, tot, kind, names).0.name == tr.name,
    decreases names.len(),
{
    if names.len() > 0 {
        lemma_add_plugins_name(tr, tot, kind, names.drop_last());
    }
}

} // verus!

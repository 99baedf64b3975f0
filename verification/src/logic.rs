//! Logic Pro `.logicx` bundles.
//!
//! The bundle's `ProjectData` binary is read by [`crate::project_data`]; this
//! module turns that Logic-specific record into the unified one. Finding the
//! `ProjectData` file inside the bundle is left to the caller.
use vstd::prelude::*;
use crate::number::{Number, NumberModel};
use crate::project_data::{PluginCountModel, ProjectIntelligence, ProjectModel};
use crate::text::{begins_with, chars_of, starts_with};
use crate::{
    IntelModel, MarkerInfo, MarkerModel, MixerInfo, ParsedIntelligence, PluginInfo, PluginModel,
    SampleInfo, SampleModel, TrackInfo, TrackModel, blank_intel,
};

verus! {

/// The kind of track a Logic track name stands for.
#[derive(Debug, Clone, Copy, PartialEq, Eq, Structural)]
pub enum HintKind {
    Audio,
    Midi,
    Return,
}

/// `Audio …` names an audio track, `Inst …` a software instrument (MIDI),
/// `Aux …` and `Bus …` a return; anything else (`Track N`) counts as audio.
pub open spec fn hint_kind(h: Seq<char>) -> HintKind {
    if starts_with(h, "Audio "@) {
        HintKind::Audio
    } else if starts_with(h, "Inst "@) {
        HintKind::Midi
    } else if starts_with(h, "Aux "@) || starts_with(h, "Bus "@) {
        HintKind::Return
    } else {
        HintKind::Audio
    }
}

/// The track type the unified record uses for a kind.
pub open spec fn kind_name(k: HintKind) -> Seq<char> {
    match k {
        HintKind::Audio => "audio"@,
        HintKind::Midi => "midi"@,
        HintKind::Return => "return"@,
    }
}

/// How many of `hints` are of kind `k`.
pub open spec fn kind_count(hints: Seq<Seq<char>>, k: HintKind) -> nat
    decreases hints.len(),
{
    if hints.len() == 0 {
        0
    } else {
        kind_count(hints.drop_last(), k) + if hint_kind(hints.last()) == k { 1nat } else { 0nat }
    }
}

/// The unified track for a Logic track name.
pub open spec fn hint_track(h: Seq<char>) -> TrackModel {
    TrackModel { name: h, track_type: kind_name(hint_kind(h)), plugins: Seq::empty(), color: None }
}

pub open spec fn native_plugin(p: PluginCountModel) -> PluginModel {
    PluginModel { name: p.name, plugin_type: "native"@, count: p.count }
}

pub open spec fn unplaced_marker(n: Seq<char>) -> MarkerModel {
    MarkerModel { name: n, position_seconds: NumberModel::Zero }
}

pub open spec fn unlocated_sample(n: Seq<char>) -> SampleModel {
    SampleModel { name: n, path: None }
}

/// The unified record for a Logic project: tempo fields carried over, every
/// stock plugin `native`, one track per track name, markers at position zero,
/// samples without a path, and the mixer counted from the track kinds (no
/// group tracks; a sidechain wherever routing was seen).
pub open spec fn logic_intel(raw: ProjectModel) -> IntelModel {
    IntelModel {
        bpm: raw.bpm,
        time_signature: raw.time_signature,
        duration_seconds: raw.duration_seconds,
        swing_percentage: raw.swing_percentage,
        plugins: raw.plugins.map_values(|p: PluginCountModel| native_plugin(p)),
        tracks: raw.track_hints.map_values(|h: Seq<char>| hint_track(h)),
        markers: raw.markers.map_values(|n: Seq<char>| unplaced_marker(n)),
        samples: raw.samples.map_values(|n: Seq<char>| unlocated_sample(n)),
        mixer: MixerInfo {
            total_tracks: raw.track_hints.len() as u32,
            audio_tracks: kind_count(raw.track_hints, HintKind::Audio) as u32,
            midi_tracks: kind_count(raw.track_hints, HintKind::Midi) as u32,
            return_tracks: kind_count(raw.track_hints, HintKind::Return) as u32,
            group_tracks: 0,
            has_sidechain: raw.routing_hints.has_routing,
        },
        ..blank_intel("Logic Pro"@)
    }
}

fn hint_kind_exec(hint: &str) -> (r: HintKind)
    ensures
        r == hint_kind(hint@),
{
    let h = chars_of(hint);
    let hs = h.as_slice();
    if begins_with(hs, "Audio ") {
        HintKind::Audio
    } else if begins_with(hs, "Inst ") {
        HintKind::Midi
    } else if begins_with(hs, "Aux ") || begins_with(hs, "Bus ") {
        HintKind::Return
    } else {
        HintKind::Audio
    }
}

/// The track type of a Logic track name: `audio`, `midi` or `return`.
pub fn classify_track_hint(hint: &str) -> (r: &'static str)
    ensures
        r@ == kind_name(hint_kind(hint@)),
{
    match hint_kind_exec(hint) {
        HintKind::Audio => "audio",
        HintKind::Midi => "midi",
        HintKind::Return => "return",
    }
}

proof fn lemma_kind_count_bound(hints: Seq<Seq<char>>, k: HintKind)
    ensures
        kind_count(hints, k) <= hints.len(),
    decreases hints.len(),
{
    if hints.len() > 0 {
        lemma_kind_count_bound(hints.drop_last(), k);
    }
}

/// The unified record for a Logic project record.
pub fn map_to_unified(raw: ProjectIntelligence) -> (r: ParsedIntelligence)
    requires
        raw@.track_hints.len() <= u32::MAX,
    ensures
        r@ == logic_intel(raw@),
{
    let ghost rm = raw@;
    let mut intel = ParsedIntelligence::blank("Logic Pro");
    intel.bpm = raw.bpm;
    intel.time_signature = raw.time_signature;
    intel.duration_seconds = raw.duration_seconds;
    intel.swing_percentage = raw.swing_percentage;

    let mut plugins: Vec<PluginInfo> = Vec::new();
    let mut i: usize = 0;
    while i < raw.plugins.len()
        invariant
            0 <= i <= raw.plugins.len(),
            raw@ == rm,
            plugins.deep_view() =~= rm.plugins.take(i as int).map_values(|p: PluginCountModel| native_plugin(p)),
        decreases raw.plugins.len() - i,
    {
        let pc = &raw.plugins[i];
        let ghost prev = plugins.deep_view();
        plugins.push(PluginInfo { name: pc.name.clone(), plugin_type: String::from_str("native"), count: pc.count });
        assert(plugins.deep_view() =~= prev.push(native_plugin(rm.plugins[i as int])));
        assert(rm.plugins.take(i + 1) =~= rm.plugins.take(i as int).push(rm.plugins[i as int]));
        i = i + 1;
    }
    assert(rm.plugins.take(raw.plugins.len() as int) =~= rm.plugins);
    intel.plugins = plugins;

    let mut tracks: Vec<TrackInfo> = Vec::new();
    let mut audio: u32 = 0;
    let mut midi: u32 = 0;
    let mut ret: u32 = 0;
    let mut j: usize = 0;
    proof {
        lemma_kind_count_bound(rm.track_hints, HintKind::Audio);
    }
    while j < raw.track_hints.len()
        invariant
            0 <= j <= raw.track_hints.len(),
            raw@ == rm,
            rm.track_hints.len() <= u32::MAX,
            tracks.deep_view() =~= rm.track_hints.take(j as int).map_values(|h: Seq<char>| hint_track(h)),
            audio == kind_count(rm.track_hints.take(j as int), HintKind::Audio),
            midi == kind_count(rm.track_hints.take(j as int), HintKind::Midi),
            ret == kind_count(rm.track_hints.take(j as int), HintKind::Return),
        decreases raw.track_hints.len() - j,
    {
        let hint = &raw.track_hints[j];
        let k = hint_kind_exec(hint.as_str());
        let ghost hv = rm.track_hints[j as int];
        assert(rm.track_hints.take(j + 1).drop_last() =~= rm.track_hints.take(j as int));
        proof {
            lemma_kind_count_bound(rm.track_hints.take(j + 1), HintKind::Audio);
            lemma_kind_count_bound(rm.track_hints.take(j + 1), HintKind::Midi);
            lemma_kind_count_bound(rm.track_hints.take(j + 1), HintKind::Return);
        }
        match k {
            HintKind::Audio => audio = audio + 1,
            HintKind::Midi => midi = midi + 1,
            HintKind::Return => ret = ret + 1,
        }
        let track_type = match k {
            HintKind::Audio => String::from_str("audio"),
            HintKind::Midi => String::from_str("midi"),
            HintKind::Return => String::from_str("return"),
        };
        let ghost prev = tracks.deep_view();
        tracks.push(TrackInfo { name: hint.clone(), track_type: track_type, plugins: Vec::new(), color: None });
        assert(tracks.deep_view() =~= prev.push(hint_track(hv))) by {
            assert(tracks@.last().plugins.deep_view() =~= Seq::<Seq<char>>::empty());
        }
        assert(rm.track_hints.take(j + 1) =~= rm.track_hints.take(j as int).push(hv));
        j = j + 1;
    }
    assert(rm.track_hints.take(raw.track_hints.len() as int) =~= rm.track_hints);
    let total = tracks.len() as u32;
    intel.tracks = tracks;

    let mut markers: Vec<MarkerInfo> = Vec::new();
    let mut m: usize = 0;
    while m < raw.markers.len()
        invariant
            0 <= m <= raw.markers.len(),
            raw@ == rm,
            markers.deep_view() =~= rm.markers.take(m as int).map_values(|n: Seq<char>| unplaced_marker(n)),
        decreases raw.markers.len() - m,
    {
        let ghost prev = markers.deep_view();
        markers.push(MarkerInfo { name: raw.markers[m].clone(), position_seconds: Number::Zero });
        assert(markers.deep_view() =~= prev.push(unplaced_marker(rm.markers[m as int])));
        assert(rm.markers.take(m + 1) =~= rm.markers.take(m as int).push(rm.markers[m as int]));
        m = m + 1;
    }
    assert(rm.markers.take(raw.markers.len() as int) =~= rm.markers);
    intel.markers = markers;

    let mut samples: Vec<SampleInfo> = Vec::new();
    let mut s: usize = 0;
    while s < raw.samples.len()
        invariant
            0 <= s <= raw.samples.len(),
            raw@ == rm,
            samples.deep_view() =~= rm.samples.take(s as int).map_values(|n: Seq<char>| unlocated_sample(n)),
        decreases raw.samples.len() - s,
    {
        let ghost prev = samples.deep_view();
        samples.push(SampleInfo { name: raw.samples[s].clone(), path: None });
        assert(samples.deep_view() =~= prev.push(unlocated_sample(rm.samples[s as int])));
        assert(rm.samples.take(s + 1) =~= rm.samples.take(s as int).push(rm.samples[s as int]));
        s = s + 1;
    }
    assert(rm.samples.take(raw.samples.len() as int) =~= rm.samples);
    intel.samples = samples;

    intel.mixer = MixerInfo {
        total_tracks: total,
        audio_tracks: audio,
        midi_tracks: midi,
        return_tracks: ret,
        group_tracks: 0,
        has_sidechain: raw.routing_hints.has_routing,
    };
    intel
}

} // verus!

verus! {

/// Reads a Logic project from the bytes of its `ProjectData` binary: `None` when
/// the binary is over [`crate::project_data::MAX_PROJECT_DATA_BYTES`], else the
/// unified record of what it holds.
pub fn parse(bytes: &[u8]) -> (r: Option<ParsedIntelligence>)
    ensures
        match (r, crate::project_data::parse_project_data_spec(bytes@)) {
            (Some(v), Some(m)) => v@ == logic_intel(m),
            (None, None) => true,
            _ => false,
        },
{
    proof {
        crate::project_data::lemma_track_hints_bound(bytes@);
    }
    match crate::project_data::parse_project_data(bytes) {
        Some(raw) => Some(map_to_unified(raw)),
        None => None,
    }
}

} // verus!

verus! {

/// The unified tracks for a sequence of Logic track names.
pub open spec fn hint_tracks(hints: Seq<Seq<char>>) -> Seq<TrackModel> {
    hints.map_values(|h: Seq<char>| hint_track(h))
}

proof fn lemma_hint_tracks(hints: Seq<Seq<char>>, k: HintKind)
    ensures
        crate::tracks_of_type(hint_tracks(hints), kind_name(k)) == kind_count(hints, k),
        crate::tracks_of_type(hint_tracks(hints), "group"@) == 0,
    decreases hints.len(),
{
    reveal_strlit("audio");
    reveal_strlit("midi");
    reveal_strlit("return");
    reveal_strlit("group");
    if hints.len() > 0 {
        let p = hints.drop_last();
        lemma_hint_tracks(p, k);
        let t = hint_tracks(hints);
        assert(t.drop_last() =~= hint_tracks(p));
        let hk = hint_kind(hints.last());
        assert(t.last().track_type == kind_name(hk));
        crate::reaper::lemma_kinds_distinct();
        assert((kind_name(hk) == kind_name(k)) == (hk == k)) by {
            if hk != k {
                if kind_name(hk).len() == kind_name(k).len() {
                    assert(false);
                }
            }
        }
    }
}

/// A Logic record names its DAW `Logic Pro`; its mixer summary counts its tracks
/// (each `audio`, `midi` or `return`, none a group); it lists its plugins as
/// `native`, most frequent first, each once with a positive count; it reports a
/// sidechain exactly when routing was seen; its numbers read as `f64`; and it
/// gives no DAW version, MIDI summaries or automated parameters.
pub proof fn law_logic_record_is_consistent(bytes: Seq<u8>)
    ensures
        crate::project_data::parse_project_data_spec(bytes) matches Some(raw) ==> {
            let m = logic_intel(raw);
            &&& m.daw == crate::daw_label(crate::Daw::LogicPro)
            &&& crate::mixer_counts_tracks(m)
            &&& crate::plugins_tallied(m.plugins)
            &&& forall|i: int| 0 <= i < m.plugins.len() ==> (#[trigger] m.plugins[i]).plugin_type == "native"@
            &&& forall|i: int, j: int| 0 <= i < j < m.plugins.len() ==> #[trigger] m.plugins[i].count >= #[trigger] m.plugins[j].count
            &&& m.mixer.has_sidechain == raw.routing_hints.has_routing
            &&& crate::tempo_in_range(m.bpm)
            &&& crate::numbers_readable(m)
            &&& m.daw_version is None
            &&& m.midi_tracks.len() == 0
            &&& m.automated_params.len() == 0
        },
{
    crate::project_data::lemma_track_hints_bound(bytes);
    crate::project_data::law_project_data_is_consistent(bytes);
    if let Some(raw) = crate::project_data::parse_project_data_spec(bytes) {
        let m = logic_intel(raw);
        let hints = raw.track_hints;
        assert(m.tracks =~= hint_tracks(hints));
        lemma_hint_tracks(hints, HintKind::Audio);
        lemma_hint_tracks(hints, HintKind::Midi);
        lemma_hint_tracks(hints, HintKind::Return);
        lemma_kind_count_bound(hints, HintKind::Audio);
        lemma_kind_count_bound(hints, HintKind::Midi);
        lemma_kind_count_bound(hints, HintKind::Return);
        assert(crate::mixer_counts_tracks(m));
        let pl = m.plugins;
        assert forall|i: int, j: int| 0 <= i < j < pl.len() implies !(#[trigger] pl[i].plugin_type == #[trigger] pl[j].plugin_type
            && pl[i].name == pl[j].name) by {
            assert(raw.plugins[i].name != raw.plugins[j].name);
        }
        assert forall|i: int| 0 <= i < pl.len() implies #[trigger] pl[i].count >= 1 by {
            assert(raw.plugins[i].count >= 1);
        }
        assert forall|i: int, j: int| 0 <= i < j < pl.len() implies #[trigger] pl[i].count >= #[trigger] pl[j].count by {
            assert(raw.plugins[i].count >= raw.plugins[j].count);
        }
    }
}

/// Mapping a Logic record keeps the tempo fields; gives one track per track
/// name, typed by [`classify_track_hint`], without plugins or colour; one
/// `native` plugin per plugin count; each marker at position zero; each sample
/// without a path; and a mixer counting the track types, with no groups and a
/// sidechain exactly when routing was seen.
pub proof fn law_logic_mapping(raw: ProjectModel)
    requires
        raw.track_hints.len() <= u32::MAX,
    ensures
        ({
            let m = logic_intel(raw);
            &&& m.daw == crate::daw_label(crate::Daw::LogicPro)
            &&& m.bpm == raw.bpm && m.time_signature == raw.time_signature
            &&& m.duration_seconds == raw.duration_seconds && m.swing_percentage == raw.swing_percentage
            &&& m.tracks.len() == raw.track_hints.len()
            &&& forall|i: int| 0 <= i < m.tracks.len() ==> #[trigger] m.tracks[i] == (TrackModel {
                name: raw.track_hints[i],
                track_type: kind_name(hint_kind(raw.track_hints[i])),
                plugins: Seq::empty(),
                color: None,
            })
            &&& m.plugins.len() == raw.plugins.len()
            &&& forall|i: int| 0 <= i < m.plugins.len() ==> #[trigger] m.plugins[i] == (PluginModel {
                name: raw.plugins[i].name,
                plugin_type: "native"@,
                count: raw.plugins[i].count,
            })
            &&& m.markers.len() == raw.markers.len()
            &&& forall|i: int| 0 <= i < m.markers.len() ==> #[trigger] m.markers[i] == (MarkerModel {
                name: raw.markers[i],
                position_seconds: NumberModel::Zero,
            })
            &&& m.samples.len() == raw.samples.len()
            &&& forall|i: int| 0 <= i < m.samples.len() ==> #[trigger] m.samples[i] == (SampleModel {
                name: raw.samples[i],
                path: None,
            })
            &&& crate::mixer_counts_tracks(m)
            &&& m.mixer.group_tracks == 0
            &&& m.mixer.has_sidechain == raw.routing_hints.has_routing
        }),
{
    let m = logic_intel(raw);
    let hints = raw.track_hints;
    assert(m.tracks =~= hint_tracks(hints));
    lemma_hint_tracks(hints, HintKind::Audio);
    lemma_hint_tracks(hints, HintKind::Midi);
    lemma_hint_tracks(hints, HintKind::Return);
    lemma_kind_count_bound(hints, HintKind::Audio);
    lemma_kind_count_bound(hints, HintKind::Midi);
    lemma_kind_count_bound(hints, HintKind::Return);
}

} // verus!

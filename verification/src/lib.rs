//! Reads DAW project files (Ableton Live, FL Studio, Logic Pro, REAPER) into one
//! unified record, [`ParsedIntelligence`].
//!
//! Every parser here works on the bytes or text of a project file; reading files
//! from disk is left to the caller. Fields that a format does not expose in a
//! dependable way are left empty rather than guessed.
use vstd::prelude::*;

pub mod text;
pub mod number;
pub mod tally;
pub mod fl_studio;
pub mod project_data;
pub mod embedded_json;
pub mod logic;
pub mod rpp_line;
pub mod reaper;
pub mod xml_events;
pub mod ableton;


use crate::number::{Number, NumberModel};

verus! {

/// The DAWs whose project files this library reads.
#[derive(Debug, Clone, Copy, PartialEq, Eq, Structural)]
pub enum Daw {
    AbletonLive,
    LogicPro,
    FlStudio,
    Reaper,
}

/// Stable machine-readable identifier of a DAW.
pub open spec fn daw_id(d: Daw) -> Seq<char> {
    match d {
        Daw::AbletonLive => "ableton"@,
        Daw::LogicPro => "logic"@,
        Daw::FlStudio => "fl_studio"@,
        Daw::Reaper => "reaper"@,
    }
}

/// Human-readable name of a DAW.
pub open spec fn daw_label(d: Daw) -> Seq<char> {
    match d {
        Daw::AbletonLive => "Ableton Live"@,
        Daw::LogicPro => "Logic Pro"@,
        Daw::FlStudio => "FL Studio"@,
        Daw::Reaper => "Reaper"@,
    }
}

/// The DAW a lower-case extension (or identifier) names.
pub open spec fn daw_for_ext(l: Seq<char>) -> Option<Daw> {
    if l == "als"@ || l == "ableton"@ {
        Some(Daw::AbletonLive)
    } else if l == "logicx"@ || l == "logic"@ {
        Some(Daw::LogicPro)
    } else if l == "flp"@ || l == "fl_studio"@ {
        Some(Daw::FlStudio)
    } else if l == "rpp"@ || l == "reaper"@ {
        Some(Daw::Reaper)
    } else {
        None
    }
}

/// What std's `Path::extension` gives for a path: the part of its file name
/// after the last `.`, if the file name has a `.` that is not its first character
/// (file names and separators as the platform the library is built for has them).
pub uninterp spec fn path_extension_of(path: Seq<char>) -> Option<Seq<char>>;

/// `std::path::Path::extension` on a path given as text, the extension converted
/// with `to_string_lossy`. The contract names the result without describing the
/// path syntax.
#[verifier::external_body]
fn path_extension(path: &str) -> (r: Option<String>)
    ensures
        r.deep_view() == path_extension_of(path@),
{
    std::path::Path::new(path).extension().map(|e| e.to_string_lossy().into_owned())
}

impl Daw {
    /// Stable machine-readable identifier.
    pub fn as_str(&self) -> (r: &'static str)
        ensures
            r@ == daw_id(*self),
    {
        match self {
            Daw::AbletonLive => "ableton",
            Daw::LogicPro => "logic",
            Daw::FlStudio => "fl_studio",
            Daw::Reaper => "reaper",
        }
    }

    /// Human-readable name.
    pub fn label(&self) -> (r: &'static str)
        ensures
            r@ == daw_label(*self),
    {
        match self {
            Daw::AbletonLive => "Ableton Live",
            Daw::LogicPro => "Logic Pro",
            Daw::FlStudio => "FL Studio",
            Daw::Reaper => "Reaper",
        }
    }

    /// Detects a DAW from a file extension, ignoring letter case (`als`,
    /// `logicx`, `flp`, `rpp`, or the DAW's identifier). Only ASCII letters
    /// matter: no other character lower-cases to one of these names.
    pub fn from_ext(ext: &str) -> (r: Option<Daw>)
        ensures
            r == daw_for_ext(crate::text::lower(ext@)),
    {
        let e = crate::text::chars_of(ext);
        let lv = crate::text::lower_chars(e.as_slice());
        let l = lv.as_slice();
        if crate::text::equals_str(l, "als") || crate::text::equals_str(l, "ableton") {
            Some(Daw::AbletonLive)
        } else if crate::text::equals_str(l, "logicx") || crate::text::equals_str(l, "logic") {
            Some(Daw::LogicPro)
        } else if crate::text::equals_str(l, "flp") || crate::text::equals_str(l, "fl_studio") {
            Some(Daw::FlStudio)
        } else if crate::text::equals_str(l, "rpp") || crate::text::equals_str(l, "reaper") {
            Some(Daw::Reaper)
        } else {
            None
        }
    }

    /// Detects a DAW from the extension of a project path.
    pub fn detect(path: &str) -> (r: Option<Daw>)
        ensures
            r == (match path_extension_of(path@) {
                Some(e) => daw_for_ext(crate::text::lower(e)),
                None => None,
            }),
    {
        match path_extension(path) {
            Some(e) => Daw::from_ext(e.as_str()),
            None => None,
        }
    }
}

/// Reading an identifier back gives the DAW it identifies.
pub proof fn lemma_from_ext_inverts_as_str(d: Daw)
    ensures
        daw_for_ext(crate::text::lower(daw_id(d))) == Some(d),
{
    reveal_strlit("ableton");
    reveal_strlit("logic");
    reveal_strlit("fl_studio");
    reveal_strlit("reaper");
    reveal_strlit("als");
    reveal_strlit("logicx");
    reveal_strlit("flp");
    reveal_strlit("rpp");
    let id = daw_id(d);
    assert(crate::text::lower(id) =~= id);
    match d {
        Daw::AbletonLive => {},
        Daw::LogicPro => {
            assert(id.len() != "als"@.len() && id.len() != "ableton"@.len());
        },
        Daw::FlStudio => {
            assert(id.len() != "als"@.len() && id.len() != "ableton"@.len());
            assert(id.len() != "logicx"@.len() && id.len() != "logic"@.len());
        },
        Daw::Reaper => {
            assert(id.len() != "als"@.len() && id.len() != "ableton"@.len());
            assert(id[0] != "logicx"@[0] && id.len() != "logic"@.len());
            assert(id.len() != "flp"@.len() && id.len() != "fl_studio"@.len());
        },
    }
}

/// Why a project could not be read.
#[derive(Debug, Clone)]
pub enum Error {
    /// The path's extension matches no supported format.
    UnknownFormat(String),
    /// The file matched a supported format but could not be parsed.
    Parse { daw: Daw, path: String, message: String },
}

/// The message of an error: `unrecognized project format: <path>` or
/// `<DAW label> parse failed for <path>: <message>`.
pub open spec fn error_text(e: Error) -> Seq<char> {
    match e {
        Error::UnknownFormat(path) => "unrecognized project format: "@ + path@,
        Error::Parse { daw, path, message } => daw_label(daw) + " parse failed for "@ + path@ + ": "@ + message@,
    }
}

fn append_str(v: &mut Vec<char>, s: &str)
    ensures
        final(v)@ == old(v)@ + s@,
{
    let c = crate::text::chars_of(s);
    let mut i: usize = 0;
    let ghost start = v@;
    while i < c.len()
        invariant
            0 <= i <= c.len(),
            c@ == s@,
            v@ == start + c@.take(i as int),
        decreases c.len() - i,
    {
        v.push(c[i]);
        assert(c@.take(i + 1) =~= c@.take(i as int).push(c@[i as int]));
        i = i + 1;
    }
    assert(c@.take(c.len() as int) =~= c@);
}

impl Error {
    /// The error's message, as [`error_text`] gives it.
    pub fn to_message(&self) -> (r: String)
        ensures
            r@ == error_text(*self),
    {
        let mut v: Vec<char> = Vec::new();
        match self {
            Error::UnknownFormat(path) => {
                append_str(&mut v, "unrecognized project format: ");
                append_str(&mut v, path.as_str());
            },
            Error::Parse { daw, path, message } => {
                append_str(&mut v, daw.label());
                append_str(&mut v, " parse failed for ");
                append_str(&mut v, path.as_str());
                append_str(&mut v, ": ");
                append_str(&mut v, message.as_str());
            },
        }
        proof {
            assert(Seq::<char>::empty() + "unrecognized project format: "@ =~= "unrecognized project format: "@);
        }
        crate::text::string_from_chars(v.as_slice())
    }
}

/// A track of a project.
#[derive(Debug, Clone)]
pub struct TrackInfo {
    pub name: String,
    /// audio | midi | return | group | channel
    pub track_type: String,
    pub plugins: Vec<String>,
    pub color: Option<String>,
}

pub struct TrackModel {
    pub name: Seq<char>,
    pub track_type: Seq<char>,
    pub plugins: Seq<Seq<char>>,
    pub color: Option<Seq<char>>,
}

impl View for TrackInfo {
    type V = TrackModel;

    open spec fn view(&self) -> TrackModel {
        TrackModel {
            name: self.name@,
            track_type: self.track_type@,
            plugins: self.plugins.deep_view(),
            color: self.color.deep_view(),
        }
    }
}

impl DeepView for TrackInfo {
    type V = TrackModel;

    open spec fn deep_view(&self) -> TrackModel {
        self@
    }
}

/// A plugin and how many times it occurs in the project.
#[derive(Debug, Clone)]
pub struct PluginInfo {
    pub name: String,
    /// native | vst | au | clap | js
    pub plugin_type: String,
    pub count: u32,
}

pub struct PluginModel {
    pub name: Seq<char>,
    pub plugin_type: Seq<char>,
    pub count: u32,
}

impl View for PluginInfo {
    type V = PluginModel;

    open spec fn view(&self) -> PluginModel {
        PluginModel { name: self.name@, plugin_type: self.plugin_type@, count: self.count }
    }
}

impl DeepView for PluginInfo {
    type V = PluginModel;

    open spec fn deep_view(&self) -> PluginModel {
        self@
    }
}

/// An audio sample the project uses.
#[derive(Debug, Clone)]
pub struct SampleInfo {
    pub name: String,
    pub path: Option<String>,
}

pub struct SampleModel {
    pub name: Seq<char>,
    pub path: Option<Seq<char>>,
}

impl View for SampleInfo {
    type V = SampleModel;

    open spec fn view(&self) -> SampleModel {
        SampleModel { name: self.name@, path: self.path.deep_view() }
    }
}

impl DeepView for SampleInfo {
    type V = SampleModel;

    open spec fn deep_view(&self) -> SampleModel {
        self@
    }
}

/// Note statistics of a MIDI track or clip.
#[derive(Debug, Clone)]
pub struct MidiTrackInfo {
    pub track_name: String,
    pub note_count: u32,
    pub pitch_low: Option<u8>,
    pub pitch_high: Option<u8>,
}

pub struct MidiTrackModel {
    pub track_name: Seq<char>,
    pub note_count: u32,
    pub pitch_low: Option<u8>,
    pub pitch_high: Option<u8>,
}

impl View for MidiTrackInfo {
    type V = MidiTrackModel;

    open spec fn view(&self) -> MidiTrackModel {
        MidiTrackModel {
            track_name: self.track_name@,
            note_count: self.note_count,
            pitch_low: self.pitch_low,
            pitch_high: self.pitch_high,
        }
    }
}

impl DeepView for MidiTrackInfo {
    type V = MidiTrackModel;

    open spec fn deep_view(&self) -> MidiTrackModel {
        self@
    }
}

/// A named position in the arrangement.
#[derive(Debug, Clone)]
pub struct MarkerInfo {
    pub name: String,
    pub position_seconds: Number,
}

pub struct MarkerModel {
    pub name: Seq<char>,
    pub position_seconds: NumberModel,
}

impl View for MarkerInfo {
    type V = MarkerModel;

    open spec fn view(&self) -> MarkerModel {
        MarkerModel { name: self.name@, position_seconds: self.position_seconds@ }
    }
}

impl DeepView for MarkerInfo {
    type V = MarkerModel;

    open spec fn deep_view(&self) -> MarkerModel {
        self@
    }
}

/// Track counts of the mixer.
#[derive(Debug, Clone, Copy, PartialEq, Eq, Structural)]
pub struct MixerInfo {
    pub total_tracks: u32,
    pub audio_tracks: u32,
    pub midi_tracks: u32,
    pub return_tracks: u32,
    pub group_tracks: u32,
    pub has_sidechain: bool,
}

pub open spec fn empty_mixer() -> MixerInfo {
    MixerInfo {
        total_tracks: 0,
        audio_tracks: 0,
        midi_tracks: 0,
        return_tracks: 0,
        group_tracks: 0,
        has_sidechain: false,
    }
}

impl Default for MixerInfo {
    fn default() -> (r: MixerInfo)
        ensures
            r == empty_mixer(),
    {
        MixerInfo {
            total_tracks: 0,
            audio_tracks: 0,
            midi_tracks: 0,
            return_tracks: 0,
            group_tracks: 0,
            has_sidechain: false,
        }
    }
}

/// The unified record every parser produces.
#[derive(Debug, Clone)]
pub struct ParsedIntelligence {
    pub daw: String,
    pub daw_version: Option<String>,
    pub bpm: Option<Number>,
    pub key: Option<String>,
    pub time_signature: Option<String>,
    pub duration_seconds: Option<Number>,
    pub swing_percentage: Option<Number>,
    pub tracks: Vec<TrackInfo>,
    pub plugins: Vec<PluginInfo>,
    pub samples: Vec<SampleInfo>,
    pub midi_tracks: Vec<MidiTrackInfo>,
    pub markers: Vec<MarkerInfo>,
    pub mixer: MixerInfo,
    pub automated_params: Vec<String>,
}

pub struct IntelModel {
    pub daw: Seq<char>,
    pub daw_version: Option<Seq<char>>,
    pub bpm: Option<NumberModel>,
    pub key: Option<Seq<char>>,
    pub time_signature: Option<Seq<char>>,
    pub duration_seconds: Option<NumberModel>,
    pub swing_percentage: Option<NumberModel>,
    pub tracks: Seq<TrackModel>,
    pub plugins: Seq<PluginModel>,
    pub samples: Seq<SampleModel>,
    pub midi_tracks: Seq<MidiTrackModel>,
    pub markers: Seq<MarkerModel>,
    pub mixer: MixerInfo,
    pub automated_params: Seq<Seq<char>>,
}

impl View for ParsedIntelligence {
    type V = IntelModel;

    open spec fn view(&self) -> IntelModel {
        IntelModel {
            daw: self.daw@,
            daw_version: self.daw_version.deep_view(),
            bpm: self.bpm.deep_view(),
            key: self.key.deep_view(),
            time_signature: self.time_signature.deep_view(),
            duration_seconds: self.duration_seconds.deep_view(),
            swing_percentage: self.swing_percentage.deep_view(),
            tracks: self.tracks.deep_view(),
            plugins: self.plugins.deep_view(),
            samples: self.samples.deep_view(),
            midi_tracks: self.midi_tracks.deep_view(),
            markers: self.markers.deep_view(),
            mixer: self.mixer,
            automated_params: self.automated_params.deep_view(),
        }
    }
}

/// A record with only the DAW name filled in.
pub open spec fn blank_intel(daw: Seq<char>) -> IntelModel {
    IntelModel {
        daw: daw,
        daw_version: None,
        bpm: None,
        key: None,
        time_signature: None,
        duration_seconds: None,
        swing_percentage: None,
        tracks: Seq::empty(),
        plugins: Seq::empty(),
        samples: Seq::empty(),
        midi_tracks: Seq::empty(),
        markers: Seq::empty(),
        mixer: empty_mixer(),
        automated_params: Seq::empty(),
    }
}

impl ParsedIntelligence {
    /// A record for `daw` with every other field empty.
    pub fn blank(daw: &str) -> (r: ParsedIntelligence)
        ensures
            r@ == blank_intel(daw@),
    {
        let r = ParsedIntelligence {
            daw: String::from_str(daw),
            daw_version: None,
            bpm: None,
            key: None,
            time_signature: None,
            duration_seconds: None,
            swing_percentage: None,
            tracks: Vec::new(),
            plugins: Vec::new(),
            samples: Vec::new(),
            midi_tracks: Vec::new(),
            markers: Vec::new(),
            mixer: MixerInfo::default(),
            automated_params: Vec::new(),
        };
        assert(r@.tracks =~= Seq::<TrackModel>::empty());
        assert(r@.plugins =~= Seq::<PluginModel>::empty());
        assert(r@.samples =~= Seq::<SampleModel>::empty());
        assert(r@.midi_tracks =~= Seq::<MidiTrackModel>::empty());
        assert(r@.markers =~= Seq::<MarkerModel>::empty());
        assert(r@.automated_params =~= Seq::<Seq<char>>::empty());
        r
    }
}

impl Default for ParsedIntelligence {
    fn default() -> (r: ParsedIntelligence)
        ensures
            r@ == blank_intel(Seq::empty()),
    {
        proof {
            reveal_strlit("");
            assert(""@ =~= Seq::<char>::empty());
        }
        ParsedIntelligence::blank("")
    }
}

/// How many of `tracks` have the type `kind`.
pub open spec fn tracks_of_type(tracks: Seq<TrackModel>, kind: Seq<char>) -> nat
    decreases tracks.len(),
{
    if tracks.len() == 0 {
        0
    } else {
        tracks_of_type(tracks.drop_last(), kind) + if tracks.last().track_type == kind { 1nat } else { 0nat }
    }
}

/// Every track has one of the types in `kinds`.
pub open spec fn track_types_among(tracks: Seq<TrackModel>, kinds: Set<Seq<char>>) -> bool {
    forall|i: int| 0 <= i < tracks.len() ==> kinds.contains(#[trigger] tracks[i].track_type)
}

/// The four track types of the mixer summary.
pub open spec fn mixer_types() -> Set<Seq<char>> {
    set!["audio"@, "midi"@, "return"@, "group"@]
}

/// When every track has one of the four mixer types, the per-type counts add
/// up to the number of tracks.
pub proof fn lemma_type_counts_sum(tracks: Seq<TrackModel>)
    requires
        track_types_among(tracks, mixer_types()),
    ensures
        tracks.len() == tracks_of_type(tracks, "audio"@) + tracks_of_type(tracks, "midi"@)
            + tracks_of_type(tracks, "return"@) + tracks_of_type(tracks, "group"@),
    decreases tracks.len(),
{
    if tracks.len() > 0 {
        crate::reaper::lemma_kinds_distinct();
        let p = tracks.drop_last();
        assert forall|i: int| 0 <= i < p.len() implies mixer_types().contains(#[trigger] p[i].track_type) by {
            assert(p[i] == tracks[i]);
        }
        lemma_type_counts_sum(p);
        assert(mixer_types().contains(tracks[tracks.len() - 1].track_type));
    }
}

/// The mixer summary counts the record's tracks: all of them, and those of each
/// type (`audio`, `midi`, `return`, `group`).
pub open spec fn mixer_counts_tracks(m: IntelModel) -> bool {
    &&& m.mixer.total_tracks == m.tracks.len()
    &&& m.mixer.audio_tracks == tracks_of_type(m.tracks, "audio"@)
    &&& m.mixer.midi_tracks == tracks_of_type(m.tracks, "midi"@)
    &&& m.mixer.return_tracks == tracks_of_type(m.tracks, "return"@)
    &&& m.mixer.group_tracks == tracks_of_type(m.tracks, "group"@)
}

/// Each (type, name) pair occurs once in the plugin list, with a count of at
/// least one.
pub open spec fn plugins_tallied(list: Seq<PluginModel>) -> bool {
    &&& forall|i: int, j: int|
        0 <= i < j < list.len() ==> !(#[trigger] list[i].plugin_type == #[trigger] list[j].plugin_type
            && list[i].name == list[j].name)
    &&& forall|i: int| 0 <= i < list.len() ==> #[trigger] list[i].count >= 1
}

/// A tempo, when the record has one, lies within 30 to 300 BPM.
pub open spec fn tempo_in_range(bpm: Option<NumberModel>) -> bool {
    match bpm {
        None => true,
        Some(NumberModel::Literal(v)) => crate::number::in_tempo_range(v),
        Some(NumberModel::Thousandths(t)) => 30000 <= t && t <= 300000,
        Some(NumberModel::Zero) => false,
    }
}

/// Every number of the record reads as an `f64`: literals are in the syntax
/// std's `f64` parser accepts.
pub open spec fn numbers_readable(m: IntelModel) -> bool {
    &&& (m.bpm matches Some(n) ==> crate::number::number_ok(n))
    &&& (m.duration_seconds matches Some(n) ==> crate::number::number_ok(n))
    &&& (m.swing_percentage matches Some(n) ==> crate::number::number_ok(n))
    &&& forall|i: int| 0 <= i < m.markers.len() ==> crate::number::number_ok(#[trigger] m.markers[i].position_seconds)
}

/// Every MIDI summary counts at least one note, and gives either no pitch
/// range or a range whose low end is not above its high end.
pub open spec fn midi_summaries_sound(s: Seq<MidiTrackModel>) -> bool {
    forall|i: int| 0 <= i < s.len() ==> {
        let t = #[trigger] s[i];
        &&& t.note_count >= 1
        &&& match (t.pitch_low, t.pitch_high) {
            (Some(lo), Some(hi)) => lo <= hi,
            (None, None) => true,
            _ => false,
        }
    }
}

/// No two samples of the list share a name.
pub open spec fn sample_names_distinct(s: Seq<SampleModel>) -> bool {
    forall|i: int, j: int| 0 <= i < j < s.len() ==> #[trigger] s[i].name != #[trigger] s[j].name
}

} // verus!

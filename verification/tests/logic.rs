use bravoh_daw::logic::{classify_track_hint, map_to_unified, parse};
use bravoh_daw::number::Number;
use bravoh_daw::project_data::{PluginCount, ProjectIntelligence, RoutingHints};

fn value(n: &Number) -> f64 {
    match n {
        Number::Literal(s) => s.parse().unwrap(),
        Number::Thousandths(v) => *v as f64 / 1000.0,
        Number::Zero => 0.0,
    }
}

fn sample_raw() -> ProjectIntelligence {
    let mut raw = ProjectIntelligence::default();
    raw.bpm = Some(Number::Literal("120.0".to_string()));
    raw.time_signature = Some("4/4".to_string());
    raw.duration_seconds = Some(Number::Literal("180.0".to_string()));
    raw.swing_percentage = Some(Number::Literal("12.5".to_string()));
    raw.plugins = vec![
        PluginCount { name: "Channel EQ".to_string(), count: 3 },
        PluginCount { name: "Compressor".to_string(), count: 2 },
    ];
    raw.track_hints = vec![
        "Audio 1".to_string(),
        "Audio 2".to_string(),
        "Inst 1".to_string(),
        "Aux 1".to_string(),
        "Bus 1".to_string(),
    ];
    raw.markers = vec!["Verse".to_string(), "Chorus".to_string()];
    raw.samples = vec!["kick_909.wav".to_string()];
    raw.routing_hints = RoutingHints { has_routing: true, buses_used: vec![1], bus_count: 1, send_count: 2 };
    raw
}

#[test]
fn map_to_unified_preserves_bpm() {
    let intel = map_to_unified(sample_raw());
    assert_eq!(intel.daw, "Logic Pro");
    assert_eq!(intel.bpm.as_ref().map(value), Some(120.0));
    assert_eq!(intel.time_signature.as_deref(), Some("4/4"));
    assert_eq!(intel.duration_seconds.as_ref().map(value), Some(180.0));
    assert_eq!(intel.swing_percentage.as_ref().map(value), Some(12.5));
}

#[test]
fn map_to_unified_maps_plugins() {
    let intel = map_to_unified(sample_raw());
    assert_eq!(intel.plugins.len(), 2);
    let eq = intel.plugins.iter().find(|p| p.name == "Channel EQ").unwrap();
    assert_eq!(eq.plugin_type, "native");
    assert_eq!(eq.count, 3);
    let comp = intel.plugins.iter().find(|p| p.name == "Compressor").unwrap();
    assert_eq!(comp.plugin_type, "native");
    assert_eq!(comp.count, 2);
}

#[test]
fn map_to_unified_classifies_track_hints() {
    let intel = map_to_unified(sample_raw());
    assert_eq!(intel.tracks.len(), 5);
    let audio_1 = intel.tracks.iter().find(|t| t.name == "Audio 1").unwrap();
    assert_eq!(audio_1.track_type, "audio");
    let inst_1 = intel.tracks.iter().find(|t| t.name == "Inst 1").unwrap();
    assert_eq!(inst_1.track_type, "midi");
    let aux_1 = intel.tracks.iter().find(|t| t.name == "Aux 1").unwrap();
    assert_eq!(aux_1.track_type, "return");
    let bus_1 = intel.tracks.iter().find(|t| t.name == "Bus 1").unwrap();
    assert_eq!(bus_1.track_type, "return");
    assert_eq!(intel.mixer.total_tracks, 5);
    assert_eq!(intel.mixer.audio_tracks, 2);
    assert_eq!(intel.mixer.midi_tracks, 1);
    assert_eq!(intel.mixer.return_tracks, 2);
    assert_eq!(intel.mixer.group_tracks, 0);
    assert!(intel.mixer.has_sidechain);
}

#[test]
fn map_to_unified_maps_markers_and_samples() {
    let intel = map_to_unified(sample_raw());
    assert_eq!(intel.markers.len(), 2);
    assert_eq!(intel.markers[0].name, "Verse");
    assert_eq!(value(&intel.markers[0].position_seconds), 0.0);
    assert_eq!(intel.markers[1].name, "Chorus");
    assert_eq!(intel.samples.len(), 1);
    assert_eq!(intel.samples[0].name, "kick_909.wav");
    assert!(intel.samples[0].path.is_none());
}

#[test]
fn map_empty_project() {
    let intel = map_to_unified(ProjectIntelligence::default());
    assert_eq!(intel.daw, "Logic Pro");
    assert!(intel.bpm.is_none());
    assert!(intel.tracks.is_empty());
    assert!(intel.plugins.is_empty());
    assert!(intel.markers.is_empty());
    assert!(intel.samples.is_empty());
    assert_eq!(intel.mixer.total_tracks, 0);
    assert!(!intel.mixer.has_sidechain);
}

#[test]
fn classify_track_hint_prefixes() {
    assert_eq!(classify_track_hint("Audio 3"), "audio");
    assert_eq!(classify_track_hint("Inst 1"), "midi");
    assert_eq!(classify_track_hint("Aux 2"), "return");
    assert_eq!(classify_track_hint("Bus 4"), "return");
    assert_eq!(classify_track_hint("Track 7"), "audio");
    assert_eq!(classify_track_hint("Audio"), "audio");
    assert_eq!(classify_track_hint("Instrument"), "audio");
}

#[test]
fn parse_reads_project_data_bytes() {
    let mut bytes = Vec::new();
    for s in ["Audio 1", "Inst 1", "Bus 3", "Compressor"] {
        bytes.extend_from_slice(s.as_bytes());
        bytes.push(0);
    }
    let intel = parse(&bytes).unwrap();
    assert_eq!(intel.daw, "Logic Pro");
    assert_eq!(intel.tracks.len(), 3);
    assert_eq!(intel.mixer.return_tracks, 1);
    assert!(intel.mixer.has_sidechain);
    assert_eq!(intel.plugins.len(), 1);
    assert_eq!(intel.plugins[0].plugin_type, "native");
    assert!(parse(&vec![0u8; 10 * 1024 * 1024 + 1]).is_none());
}

#[test]
fn logic_mixer_counts_match_track_types() {
    let mut bytes = Vec::new();
    for s in ["Audio 1", "Inst 1", "Inst 2", "Aux 1", "Track 7", "Sampler", "Sampler", "Compressor"] {
        bytes.extend_from_slice(s.as_bytes());
        bytes.push(0);
    }
    let intel = parse(&bytes).unwrap();
    let count = |t: &str| intel.tracks.iter().filter(|x| x.track_type == t).count() as u32;
    assert_eq!(intel.mixer.total_tracks as usize, intel.tracks.len());
    assert_eq!(intel.mixer.audio_tracks, count("audio"));
    assert_eq!(intel.mixer.midi_tracks, count("midi"));
    assert_eq!(intel.mixer.return_tracks, count("return"));
    assert_eq!(intel.mixer.group_tracks, 0);
    assert!(!intel.mixer.has_sidechain);
    assert_eq!(intel.plugins[0].name, "Sampler");
    assert_eq!(intel.plugins[0].count, 2);
    assert!(intel.daw_version.is_none() && intel.midi_tracks.is_empty() && intel.automated_params.is_empty());
}

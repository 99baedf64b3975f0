use bravoh_daw::number::Number;
use bravoh_daw::reaper::{clean_plugin_name, parse, parse_content};

fn value(n: &Number) -> f64 {
    match n {
        Number::Literal(s) => s.parse().unwrap(),
        Number::Thousandths(v) => *v as f64 / 1000.0,
        Number::Zero => 0.0,
    }
}

const SIMPLE_RPP: &str = r#"<REAPER_PROJECT 0.1 "7.0" 1234567890
  TEMPO 120 4 4
  MARKER 1 10.5 "Verse"
  MARKER 2 45.0 "Chorus"
  <TRACK
    NAME "Bass"
    <FXCHAIN
      <VST "VST: Serum (Xfer Records)" Serum.dll
      >
    >
  >
  <TRACK
    NAME "Drums"
    <SOURCE WAVE
      FILE "kick_808.wav"
    >
  >
  <TRACK
    NAME "FX Return"
    AUXRECV 0 0 1 0 0 0 0
  >
>"#;

#[test]
fn parse_bpm_and_time_sig() {
    let intel = parse_content(SIMPLE_RPP).unwrap();
    assert_eq!(intel.bpm.as_ref().map(value), Some(120.0));
    assert_eq!(intel.time_signature.as_deref(), Some("4/4"));
}

#[test]
fn parse_version() {
    let intel = parse_content(SIMPLE_RPP).unwrap();
    assert_eq!(intel.daw_version.as_deref(), Some("7.0"));
}

#[test]
fn reaper_parse_markers() {
    let intel = parse_content(SIMPLE_RPP).unwrap();
    assert_eq!(intel.markers.len(), 2);
    assert_eq!(intel.markers[0].name, "Verse");
    assert_eq!(intel.markers[1].name, "Chorus");
    assert!((value(&intel.markers[0].position_seconds) - 10.5).abs() < 0.01);
}

#[test]
fn parse_tracks_and_types() {
    let intel = parse_content(SIMPLE_RPP).unwrap();
    assert_eq!(intel.tracks.len(), 3);
    assert_eq!(intel.tracks[0].name, "Bass");
    assert_eq!(intel.tracks[1].name, "Drums");
    assert_eq!(intel.tracks[2].name, "FX Return");
    assert_eq!(intel.tracks[2].track_type, "return");
}

#[test]
fn parse_plugins() {
    let intel = parse_content(SIMPLE_RPP).unwrap();
    assert_eq!(intel.plugins.len(), 1);
    assert_eq!(intel.plugins[0].name, "Serum");
    assert_eq!(intel.plugins[0].plugin_type, "vst");
}

#[test]
fn reaper_parse_samples() {
    let intel = parse_content(SIMPLE_RPP).unwrap();
    assert_eq!(intel.samples.len(), 1);
    assert_eq!(intel.samples[0].name, "kick_808.wav");
}

#[test]
fn parse_mixer_info() {
    let intel = parse_content(SIMPLE_RPP).unwrap();
    assert_eq!(intel.mixer.total_tracks, 3);
    assert_eq!(intel.mixer.audio_tracks, 2);
    assert_eq!(intel.mixer.return_tracks, 1);
    assert!(intel.mixer.has_sidechain);
}

#[test]
fn parse_rejects_out_of_range_bpm() {
    let content = r#"<REAPER_PROJECT 0.1 "7.0" 1234567890
  TEMPO 999 4 4
>"#;
    let intel = parse_content(content).unwrap();
    assert!(intel.bpm.is_none());
}

#[test]
fn reaper_parse_empty_project() {
    let content = r#"<REAPER_PROJECT 0.1 "7.0" 1234567890
>"#;
    let intel = parse_content(content).unwrap();
    assert_eq!(intel.daw, "Reaper");
    assert!(intel.tracks.is_empty());
}

#[test]
fn clean_plugin_name_strips_vendor() {
    assert_eq!(clean_plugin_name("FabFilter Pro-Q 3 (FabFilter)"), "FabFilter Pro-Q 3");
    assert_eq!(clean_plugin_name("Serum"), "Serum");
}

#[test]
fn parse_empty_content() {
    let intel = parse_content("").unwrap();
    assert_eq!(intel.daw, "Reaper");
    assert!(intel.tracks.is_empty());
}

#[test]
fn parse_unclosed_brackets() {
    let content = "<REAPER_PROJECT 0.1 \"7.0\" 123\n  <TRACK\n    NAME \"Orphan\"";
    assert!(parse_content(content).is_ok());
}

#[test]
fn parse_binary_garbage_in_text() {
    let content = "<REAPER_PROJECT 0.1 \"7.0\" 123\n  TEMPO 120 4 4\n\x00\x01\x02\n>";
    assert!(parse_content(content).is_ok());
}

#[test]
fn parse_extremely_long_track_name() {
    let long_name = "A".repeat(10000);
    let content = format!("<REAPER_PROJECT 0.1 \"7.0\" 123\n  <TRACK\n    NAME \"{}\"\n  >\n>", long_name);
    let intel = parse_content(&content).unwrap();
    assert_eq!(intel.tracks[0].name, long_name);
}

#[test]
fn clean_plugin_name_edge_cases() {
    assert_eq!(clean_plugin_name("  Pad  "), "Pad");
    assert_eq!(clean_plugin_name("(Vendor) Name"), "(Vendor) Name");
    assert_eq!(clean_plugin_name("Reverb ("), "Reverb");
    assert_eq!(clean_plugin_name(""), "");
}

#[test]
fn plugin_kinds_and_tally() {
    let content = "<REAPER_PROJECT 0.1 \"6.5\" 1\n<TRACK\n  <FXCHAIN\n    <VST \"VSTi: Vital (Vital Audio)\" v.dll\n    >\n    <AU \"AU: Delay (Apple)\" x\n    >\n    <CLAP \"CLAP: Surge XT (Surge)\" y\n    >\n    <JS \"utility/volume\" \"\"\n    >\n    <VST \"VST3: Vital (Vital Audio)\" v.vst3\n    >\n  >\n>\n>";
    let intel = parse_content(content).unwrap();
    let names: Vec<(String, String, u32)> = intel
        .plugins
        .iter()
        .map(|p| (p.plugin_type.clone(), p.name.clone(), p.count))
        .collect();
    assert_eq!(
        names,
        vec![
            ("vst".to_string(), "Vital".to_string(), 2),
            ("au".to_string(), "Delay".to_string(), 1),
            ("clap".to_string(), "Surge XT".to_string(), 1),
            ("js".to_string(), "utility/volume".to_string(), 1),
        ]
    );
    assert_eq!(intel.tracks.len(), 1);
    assert_eq!(intel.tracks[0].plugins.len(), 5);
    assert_eq!(intel.tracks[0].track_type, "audio");
}

#[test]
fn midi_notes_make_a_midi_track() {
    let content = "<REAPER_PROJECT 0.1 \"7.0\" 1\n<TRACK\nNAME \"Keys\"\n<ITEM\n<SOURCE MIDI\nE 0 90 3c 60\nE 0 90 40 00\nE 0 91 30 7f\nE 0 80 3c 00\n>\n>\n>\n>";
    let intel = parse_content(content).unwrap();
    assert_eq!(intel.tracks.len(), 1);
    assert_eq!(intel.tracks[0].track_type, "midi");
    assert_eq!(intel.mixer.midi_tracks, 1);
    assert_eq!(intel.midi_tracks.len(), 1);
    assert_eq!(intel.midi_tracks[0].track_name, "Keys");
    assert_eq!(intel.midi_tracks[0].note_count, 2);
    assert_eq!(intel.midi_tracks[0].pitch_low, Some(0x30));
    assert_eq!(intel.midi_tracks[0].pitch_high, Some(0x3c));
}

#[test]
fn tempo_edge_values_and_signature_defaults() {
    let intel = parse_content("TEMPO 300 99999999999 3\n").unwrap();
    assert_eq!(intel.bpm.as_ref().map(value), Some(300.0));
    assert_eq!(intel.time_signature.as_deref(), Some("4/3"));
    let intel = parse_content("TEMPO 29.99 7 8\n").unwrap();
    assert!(intel.bpm.is_none());
    assert_eq!(intel.time_signature.as_deref(), Some("7/8"));
    let intel = parse_content("TEMPO 300.0000000000000284 07 008\n").unwrap();
    assert_eq!(intel.bpm.as_ref().map(value), Some(300.0));
    assert_eq!(intel.time_signature.as_deref(), Some("7/8"));
    let intel = parse_content("TEMPO 300.0000000000001 4 4\n").unwrap();
    assert!(intel.bpm.is_none());
}

#[test]
fn samples_use_last_path_segment_and_envelopes_are_kept() {
    let content = "<TRACK\n<SOURCE WAVE\nFILE \"C:\\\\Samples\\\\snare.wav\"\n>\n<VOLENV2\n>\n>\n<SOURCE WAVE\nFILE \"/loops/drum.aif\"\n>";
    let intel = parse_content(content).unwrap();
    assert_eq!(intel.samples.len(), 2);
    assert_eq!(intel.samples[0].name, "snare.wav");
    assert_eq!(intel.samples[0].path.as_deref(), Some("C:\\\\Samples\\\\snare.wav"));
    assert_eq!(intel.samples[1].name, "drum.aif");
    assert_eq!(intel.automated_params, vec!["<VOLENV2".to_string()]);
}

#[test]
fn reaper_size_limit_message() {
    let big = "a".repeat(10 * 1024 * 1024 + 1);
    assert_eq!(parse(&big).unwrap_err(), "File too large: 10485761 bytes");
    assert!(parse(SIMPLE_RPP).is_ok());
}

#[test]
fn reaper_mixer_counts_match_track_types() {
    let content = r#"<REAPER_PROJECT 0.1 "7.0" 1
  <TRACK
    NAME "A"
    <FXCHAIN
      <VST "VST: Serum (Xfer Records)" Serum.dll
      >
      <VST "VST: Serum (Xfer Records)" Serum.dll
      >
    >
  >
  <TRACK
    NAME "B"
    AUXRECV 0 0 1 0 0 0 0
    <FXCHAIN
      <VST "VST: Serum (Xfer Records)" Serum.dll
      >
    >
  >
>"#;
    let intel = parse_content(content).unwrap();
    let count = |t: &str| intel.tracks.iter().filter(|x| x.track_type == t).count() as u32;
    assert_eq!(intel.mixer.total_tracks as usize, intel.tracks.len());
    assert_eq!(intel.mixer.audio_tracks, count("audio"));
    assert_eq!(intel.mixer.midi_tracks, count("midi"));
    assert_eq!(intel.mixer.return_tracks, count("return"));
    assert_eq!(intel.plugins.len(), 1);
    assert_eq!(intel.plugins[0].count, 3);
    assert!(intel.duration_seconds.is_none() && intel.swing_percentage.is_none());
}

#[test]
fn tempo_is_the_last_top_level_tempo_in_range() {
    let content = "<REAPER_PROJECT 0.1 \"7.0\" 1\n  TEMPO 100 4 4\n  TEMPO 110 3 4\n  TEMPO 999 4 4\n  <TRACK\n    TEMPO 150 4 4\n  >\n>";
    let intel = parse_content(content).unwrap();
    assert_eq!(intel.bpm.as_ref().map(value), Some(110.0));
}

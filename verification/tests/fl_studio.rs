use bravoh_daw::fl_studio::{
    decode_text, parse, parse_bytes, EVENT_BPM, EVENT_CHANNEL_NAME, EVENT_NEW_CHANNEL, EVENT_PLUGIN_NAME,
    EVENT_TIME_SIG_DEN, EVENT_TIME_SIG_NUM,
};
use bravoh_daw::number::Number;

fn value(n: &Number) -> f64 {
    match n {
        Number::Literal(s) => s.parse().unwrap(),
        Number::Thousandths(v) => *v as f64 / 1000.0,
        Number::Zero => 0.0,
    }
}

fn build_flp(events: &[u8]) -> Vec<u8> {
    let mut bytes = Vec::new();
    bytes.extend_from_slice(b"FLhd");
    bytes.extend_from_slice(&6u32.to_le_bytes());
    bytes.extend_from_slice(&[0u8; 6]);
    bytes.extend_from_slice(b"FLdt");
    let data_len = events.len() as u32;
    bytes.extend_from_slice(&data_len.to_le_bytes());
    bytes.extend_from_slice(events);
    bytes
}

fn utf16z(s: &str) -> Vec<u8> {
    s.encode_utf16().chain(std::iter::once(0u16)).flat_map(|c| c.to_le_bytes()).collect()
}

#[test]
fn rejects_non_flp() {
    let data = b"This is not an FLP file at all";
    let result = parse_bytes(data);
    assert!(result.is_err());
    assert!(result.unwrap_err().contains("FLhd"));
}

#[test]
fn rejects_truncated() {
    let data = b"FLhd";
    let result = parse_bytes(data);
    assert!(result.is_err());
}

#[test]
fn parses_minimal_valid() {
    let bytes = build_flp(&[]);
    let intel = parse_bytes(&bytes).unwrap();
    assert_eq!(intel.daw, "FL Studio");
    assert!(intel.bpm.is_none());
}

#[test]
fn extracts_bpm_from_event_156() {
    let mut events = Vec::new();
    events.push(EVENT_BPM);
    events.extend_from_slice(&128000u32.to_le_bytes());
    let bytes = build_flp(&events);
    let intel = parse_bytes(&bytes).unwrap();
    assert_eq!(intel.bpm.as_ref().map(value), Some(128.0));
}

#[test]
fn rejects_bpm_out_of_range() {
    let mut events = Vec::new();
    events.push(EVENT_BPM);
    events.extend_from_slice(&500000u32.to_le_bytes());
    let bytes = build_flp(&events);
    let intel = parse_bytes(&bytes).unwrap();
    assert!(intel.bpm.is_none());
}

#[test]
fn extracts_time_signature() {
    let events = vec![EVENT_TIME_SIG_NUM, 3, EVENT_TIME_SIG_DEN, 4];
    let bytes = build_flp(&events);
    let intel = parse_bytes(&bytes).unwrap();
    assert_eq!(intel.time_signature.as_deref(), Some("3/4"));
}

#[test]
fn counts_new_channels() {
    let mut events = Vec::new();
    for _ in 0..3 {
        events.push(EVENT_NEW_CHANNEL);
        events.extend_from_slice(&0u16.to_le_bytes());
    }
    let bytes = build_flp(&events);
    let intel = parse_bytes(&bytes).unwrap();
    assert_eq!(intel.mixer.total_tracks, 3);
}

#[test]
fn extracts_channel_names() {
    let mut events = Vec::new();
    let name_bytes = utf16z("Kick");
    events.push(EVENT_CHANNEL_NAME);
    events.extend_from_slice(&(name_bytes.len() as u32).to_le_bytes());
    events.extend_from_slice(&name_bytes);
    let bytes = build_flp(&events);
    let intel = parse_bytes(&bytes).unwrap();
    assert_eq!(intel.tracks.len(), 1);
    assert_eq!(intel.tracks[0].name, "Kick");
    assert_eq!(intel.tracks[0].track_type, "channel");
}

#[test]
fn extracts_plugin_names() {
    let mut events = Vec::new();
    for plugin in &["Serum", "Serum"] {
        let name_bytes = utf16z(plugin);
        events.push(EVENT_PLUGIN_NAME);
        events.extend_from_slice(&(name_bytes.len() as u32).to_le_bytes());
        events.extend_from_slice(&name_bytes);
    }
    let bytes = build_flp(&events);
    let intel = parse_bytes(&bytes).unwrap();
    assert_eq!(intel.plugins.len(), 1);
    assert_eq!(intel.plugins[0].name, "Serum");
    assert_eq!(intel.plugins[0].count, 2);
}

#[test]
fn skips_non_bpm_events() {
    let mut events = Vec::new();
    events.push(10);
    events.push(0x42);
    events.push(64);
    events.extend_from_slice(&1u16.to_le_bytes());
    events.push(130);
    events.extend_from_slice(&999u32.to_le_bytes());
    events.push(200);
    events.extend_from_slice(&3u32.to_le_bytes());
    events.extend_from_slice(&[0xAA, 0xBB, 0xCC]);
    events.push(EVENT_BPM);
    events.extend_from_slice(&140000u32.to_le_bytes());
    let bytes = build_flp(&events);
    let intel = parse_bytes(&bytes).unwrap();
    assert_eq!(intel.bpm.as_ref().map(value), Some(140.0));
}

#[test]
fn full_project_parsing() {
    let mut events = Vec::new();
    events.push(EVENT_BPM);
    events.extend_from_slice(&120000u32.to_le_bytes());
    events.push(EVENT_TIME_SIG_NUM);
    events.push(4);
    events.push(EVENT_TIME_SIG_DEN);
    events.push(4);
    events.push(EVENT_NEW_CHANNEL);
    events.extend_from_slice(&0u16.to_le_bytes());
    events.push(EVENT_NEW_CHANNEL);
    events.extend_from_slice(&0u16.to_le_bytes());
    for name in &["Kick", "Snare"] {
        let name_bytes = utf16z(name);
        events.push(EVENT_CHANNEL_NAME);
        events.extend_from_slice(&(name_bytes.len() as u32).to_le_bytes());
        events.extend_from_slice(&name_bytes);
    }
    let plugin_bytes = utf16z("Sausage Fattener");
    events.push(EVENT_PLUGIN_NAME);
    events.extend_from_slice(&(plugin_bytes.len() as u32).to_le_bytes());
    events.extend_from_slice(&plugin_bytes);

    let bytes = build_flp(&events);
    let intel = parse_bytes(&bytes).unwrap();

    assert_eq!(intel.bpm.as_ref().map(value), Some(120.0));
    assert_eq!(intel.time_signature.as_deref(), Some("4/4"));
    assert_eq!(intel.mixer.total_tracks, 2);
    assert_eq!(intel.tracks.len(), 2);
    assert_eq!(intel.tracks[0].name, "Kick");
    assert_eq!(intel.plugins.len(), 1);
    assert_eq!(intel.plugins[0].name, "Sausage Fattener");
}

#[test]
fn parse_truncated_dword_event() {
    let events = vec![156u8, 0x00];
    let bytes = build_flp(&events);
    let intel = parse_bytes(&bytes).unwrap();
    assert_eq!(intel.daw, "FL Studio");
}

#[test]
fn parse_zero_length_text_event() {
    let mut events = Vec::new();
    events.push(192u8);
    events.extend_from_slice(&0u32.to_le_bytes());
    let bytes = build_flp(&events);
    assert!(parse_bytes(&bytes).is_ok());
}

#[test]
fn parse_oversized_text_length() {
    let mut events = Vec::new();
    events.push(192u8);
    events.extend_from_slice(&999999u32.to_le_bytes());
    events.extend_from_slice(b"hi");
    let bytes = build_flp(&events);
    assert!(parse_bytes(&bytes).is_ok());
}

#[test]
fn parse_all_byte_event_ids_no_panic() {
    let mut events: Vec<u8> = Vec::new();
    for id in 0..64u8 {
        events.push(id);
        events.push(0);
    }
    let bytes = build_flp(&events);
    assert!(parse_bytes(&bytes).is_ok());
}

#[test]
fn header_errors_name_their_cause() {
    assert_eq!(parse_bytes(b"FLhd").unwrap_err(), "File too short for FLP header");
    let mut b = b"FLhd".to_vec();
    b.extend_from_slice(&100u32.to_le_bytes());
    b.extend_from_slice(&[0u8; 4]);
    assert_eq!(parse_bytes(&b).unwrap_err(), "Truncated FLP header data");
    let mut b = b"FLhd".to_vec();
    b.extend_from_slice(&0u32.to_le_bytes());
    b.extend_from_slice(b"FLxx\0\0\0\0");
    assert_eq!(parse_bytes(&b).unwrap_err(), "Expected FLdt chunk after header");
}

#[test]
fn flp_size_limit_message() {
    let big = vec![0u8; 5 * 1024 * 1024 + 1];
    assert_eq!(parse(&big).unwrap_err(), "File too large: 5242881 bytes");
}

#[test]
fn decode_text_utf16_and_utf8() {
    assert_eq!(decode_text(&utf16z("Kick")), "Kick");
    assert_eq!(decode_text(b"Plain\0res"), "Plain");
}

#[test]
fn repeated_plugins_are_listed_once_with_their_count() {
    let mut events = Vec::new();
    for name in &["Serum", "Sytrus", "Serum", "Serum"] {
        let b = utf16z(name);
        events.push(EVENT_PLUGIN_NAME);
        events.extend_from_slice(&(b.len() as u32).to_le_bytes());
        events.extend_from_slice(&b);
    }
    events.push(EVENT_BPM);
    events.extend_from_slice(&400000u32.to_le_bytes());
    let intel = parse_bytes(&build_flp(&events)).unwrap();
    let got: Vec<(&str, &str, u32)> =
        intel.plugins.iter().map(|p| (p.name.as_str(), p.plugin_type.as_str(), p.count)).collect();
    assert_eq!(got, vec![("Serum", "vst", 3), ("Sytrus", "vst", 1)]);
    assert!(intel.bpm.is_none());
    assert!(intel.daw_version.is_none() && intel.samples.is_empty() && intel.markers.is_empty());
}

#[test]
fn tempo_is_the_last_in_range_tempo_event() {
    let mut events = Vec::new();
    for v in [120000u32, 140000, 999000] {
        events.push(EVENT_BPM);
        events.extend_from_slice(&v.to_le_bytes());
    }
    let intel = parse_bytes(&build_flp(&events)).unwrap();
    assert_eq!(intel.bpm.as_ref().map(value), Some(140.0));
}

#[test]
fn decoded_text_has_no_nul_and_empty_stays_empty() {
    assert_eq!(decode_text(b""), "");
    assert_eq!(decode_text(b"ab\0cd"), "ab");
    assert!(!decode_text(&[0x41, 0, 0, 0, 0x42, 0]).contains('\0'));
}

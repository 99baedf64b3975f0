use bravoh_daw::embedded_json::extract_tempo_from_json;
use bravoh_daw::number::Number;
use bravoh_daw::project_data::{extract_routing_hints, extract_strings, parse_project_data, ProjectIntelligence, RoutingHints};

fn value(n: &Number) -> f64 {
    match n {
        Number::Literal(s) => s.parse().unwrap(),
        Number::Thousandths(v) => *v as f64 / 1000.0,
        Number::Zero => 0.0,
    }
}

#[test]
fn extract_strings_basic() {
    let data = b"hello\x00world\x00ab\x00longstring";
    let strings = extract_strings(data, 4);
    assert!(strings.contains(&"hello".to_string()));
    assert!(strings.contains(&"world".to_string()));
    assert!(strings.contains(&"longstring".to_string()));
    assert!(!strings.contains(&"ab".to_string())); // too short
}

#[test]
fn extract_strings_keeps_runs_in_order() {
    let data = b"\x01abcd\x7fefgh\xffij";
    assert_eq!(extract_strings(data, 4), vec!["abcd".to_string(), "efgh".to_string()]);
    assert_eq!(extract_strings(data, 2), vec!["abcd".to_string(), "efgh".to_string(), "ij".to_string()]);
    assert!(extract_strings(b"", 1).is_empty());
}

#[test]
fn extract_tempo_from_json_test() {
    let text = r#"stuff"Tempo":[{"t":0,"conf":-1,"tempo":128}]more"time_signatures":[{"t":0,"conf":-1,"signature":"4/4"}]"#;
    let mut intel = ProjectIntelligence::default();
    extract_tempo_from_json(text, &mut intel);
    assert_eq!(intel.bpm.as_ref().map(value), Some(128.0));
    assert_eq!(intel.time_signature, Some("4/4".to_string()));
}

#[test]
fn extract_drummer_character() {
    let text = "blah\"selectedCharacterIdentifier\":\"Acoustic Drummer - Pop Rock\"blah";
    let mut intel = ProjectIntelligence::default();
    extract_tempo_from_json(text, &mut intel);
    assert_eq!(intel.drummer_character, Some("Acoustic Drummer - Pop Rock".to_string()));
}

#[test]
fn extract_tempo_needs_a_terminator_and_a_slash() {
    let mut intel = ProjectIntelligence::default();
    // the number runs to the end of the text: no terminator, no tempo
    extract_tempo_from_json("\"Tempo\":[{\"tempo\":128", &mut intel);
    assert!(intel.bpm.is_none());
    // a signature without '/' is ignored
    extract_tempo_from_json("\"signature\":\"44\"", &mut intel);
    assert!(intel.time_signature.is_none());
    // "1.2.3" does not parse as a number
    extract_tempo_from_json("\"Tempo\":[{\"tempo\":1.2.3}", &mut intel);
    assert!(intel.bpm.is_none());
    extract_tempo_from_json("\"Tempo\":[{\"tempo\":99.5}", &mut intel);
    assert_eq!(intel.bpm.as_ref().map(value), Some(99.5));
}

#[test]
fn extract_routing_hints_detects_buses() {
    let strings = vec![
        "Bus 1".to_string(),
        "Bus 3".to_string(),
        "Bus 1".to_string(), // duplicate
        "Send Level".to_string(),
        "Send Pan".to_string(),
        "Other string".to_string(),
    ];
    let hints = extract_routing_hints(&strings);
    assert!(hints.has_routing);
    assert_eq!(hints.bus_count, 2);
    assert_eq!(hints.buses_used, vec![1, 3]);
    assert_eq!(hints.send_count, 2);
}

#[test]
fn extract_routing_hints_empty() {
    let strings = vec!["Channel EQ".to_string(), "Compressor".to_string()];
    let hints = extract_routing_hints(&strings);
    assert!(!hints.has_routing);
    assert_eq!(hints.bus_count, 0);
    assert!(hints.buses_used.is_empty());
    assert_eq!(hints.send_count, 0);
}

#[test]
fn routing_hints_sorted_and_unicode_spacing() {
    let strings = vec![
        "xBus 12 and Bus 2".to_string(),
        "Bus\u{3000}7".to_string(),
        "Bus 99999999999".to_string(),
        "Send On/Off".to_string(),
    ];
    let hints = extract_routing_hints(&strings);
    assert_eq!(hints.buses_used, vec![7, 12]);
    assert_eq!(hints.send_count, 1);
    let d = RoutingHints::default();
    assert!(!d.has_routing && d.buses_used.is_empty());
}

#[test]
fn parse_project_data_reads_strings() {
    let mut bytes = Vec::new();
    for s in ["Channel EQ", "Audio 1", "Inst 2", "Channel EQ", "Verse", "Bus 2", "Lead Sheet"] {
        bytes.extend_from_slice(s.as_bytes());
        bytes.push(0);
    }
    let p = parse_project_data(&bytes).unwrap();
    assert!(p.bpm.is_none());
    assert_eq!(p.plugins.len(), 1);
    assert_eq!(p.plugins[0].name, "Channel EQ");
    assert_eq!(p.plugins[0].count, 2);
    assert_eq!(p.track_hints, vec!["Audio 1".to_string(), "Inst 2".to_string(), "Bus 2".to_string()]);
    assert_eq!(p.markers, vec!["Verse".to_string()]);
    assert!(p.has_lead_sheet);
    assert_eq!(p.routing_hints.buses_used, vec![2]);
}

#[test]
fn parse_project_data_refuses_large_input() {
    let bytes = vec![b'a'; 10 * 1024 * 1024 + 1];
    assert!(parse_project_data(&bytes).is_none());
}

#[test]
fn plugins_most_frequent_first_and_lists_without_repeats() {
    let mut bytes = Vec::new();
    for s in [
        "Compressor", "Channel EQ", "Channel EQ", "Sampler", "Channel EQ", "Sampler", "Chorus", "Chorus",
        "Audio 1", "Audio 1", "Bus 9", "Bus 2", "Bus 9", "Send Level",
    ] {
        bytes.extend_from_slice(s.as_bytes());
        bytes.push(0);
    }
    let p = parse_project_data(&bytes).unwrap();
    let names: Vec<&str> = p.plugins.iter().map(|c| c.name.as_str()).collect();
    let counts: Vec<u32> = p.plugins.iter().map(|c| c.count).collect();
    // Ties keep the order of first occurrence.
    assert_eq!(names, vec!["Channel EQ", "Sampler", "Chorus", "Compressor"]);
    assert_eq!(counts, vec![3, 2, 2, 1]);
    assert_eq!(p.track_hints, vec!["Audio 1".to_string(), "Bus 9".to_string(), "Bus 2".to_string()]);
    assert_eq!(p.routing_hints.buses_used, vec![2, 9]);
    assert_eq!(p.routing_hints.bus_count, 2);
    assert_eq!(p.routing_hints.send_count, 1);
    assert!(p.routing_hints.has_routing);
}

#[test]
fn extracted_strings_are_long_enough() {
    let s = extract_strings(b"ab\x01abcd\x02abc\x03abcdef", 4);
    assert_eq!(s, vec!["abcd".to_string(), "abcdef".to_string()]);
    assert!(s.iter().all(|x| x.len() >= 4));
}

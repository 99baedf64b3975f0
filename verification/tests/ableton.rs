use std::io::Write;
use bravoh_daw::ableton::{parse, parse_decompressed, parse_xml_content, parse_xml_events, track_type_for_tag};
use bravoh_daw::number::Number;
use bravoh_daw::xml_events::{XmlAttr, XmlEvent, XmlTag};

fn value(n: &Number) -> f64 {
    match n {
        Number::Literal(s) => s.parse().unwrap(),
        Number::Thousandths(v) => *v as f64 / 1000.0,
        Number::Zero => 0.0,
    }
}


#[test]
fn parse_bpm() {
    let xml = br#"<?xml version="1.0" encoding="UTF-8"?>
<Ableton Creator="Ableton Live 11.3.2">
<LiveSet>
    <MasterTrack>
        <DeviceChain>
            <Mixer>
                <Tempo>
                    <Manual Value="128"/>
                </Tempo>
            </Mixer>
        </DeviceChain>
    </MasterTrack>
</LiveSet>
</Ableton>"#;
    let intel = parse_xml_content(xml).unwrap();
    assert_eq!(intel.bpm.as_ref().map(value), Some(128.0));
    assert_eq!(intel.daw, "Ableton Live");
    assert_eq!(intel.daw_version.as_deref(), Some("Ableton Live 11.3.2"));
}

#[test]
fn parse_bpm_live12_main_track() {
    let xml = br#"<?xml version="1.0" encoding="UTF-8"?>
<Ableton Creator="Ableton Live 12.0">
<LiveSet>
    <MainTrack>
        <DeviceChain>
            <Mixer>
                <Tempo>
                    <Manual Value="140.5"/>
                </Tempo>
            </Mixer>
        </DeviceChain>
    </MainTrack>
</LiveSet>
</Ableton>"#;
    let intel = parse_xml_content(xml).unwrap();
    assert_eq!(intel.bpm.as_ref().map(value), Some(140.5));
}

#[test]
fn parse_bpm_rejects_out_of_range() {
    let xml = br#"<?xml version="1.0" encoding="UTF-8"?>
<Ableton Creator="Ableton Live 11.3.2">
<LiveSet>
    <MasterTrack>
        <Tempo>
            <Manual Value="999"/>
        </Tempo>
    </MasterTrack>
</LiveSet>
</Ableton>"#;
    let intel = parse_xml_content(xml).unwrap();
    assert!(intel.bpm.is_none());
}

#[test]
fn parse_tracks() {
    let xml = br#"<?xml version="1.0" encoding="UTF-8"?>
<Ableton Creator="Ableton Live 11.3.2">
<LiveSet>
    <Tracks>
        <AudioTrack>
            <Name>
                <EffectiveName Value="Drums"/>
            </Name>
        </AudioTrack>
        <MidiTrack>
            <Name>
                <EffectiveName Value="Synth Lead"/>
            </Name>
        </MidiTrack>
        <ReturnTrack>
            <Name>
                <EffectiveName Value="Reverb Bus"/>
            </Name>
        </ReturnTrack>
        <GroupTrack>
            <Name>
                <EffectiveName Value="Drums Group"/>
            </Name>
        </GroupTrack>
    </Tracks>
</LiveSet>
</Ableton>"#;
    let intel = parse_xml_content(xml).unwrap();
    assert_eq!(intel.tracks.len(), 4);

    assert_eq!(intel.tracks[0].name, "Drums");
    assert_eq!(intel.tracks[0].track_type, "audio");

    assert_eq!(intel.tracks[1].name, "Synth Lead");
    assert_eq!(intel.tracks[1].track_type, "midi");

    assert_eq!(intel.tracks[2].name, "Reverb Bus");
    assert_eq!(intel.tracks[2].track_type, "return");

    assert_eq!(intel.tracks[3].name, "Drums Group");
    assert_eq!(intel.tracks[3].track_type, "group");

    assert_eq!(intel.mixer.total_tracks, 4);
    assert_eq!(intel.mixer.audio_tracks, 1);
    assert_eq!(intel.mixer.midi_tracks, 1);
    assert_eq!(intel.mixer.return_tracks, 1);
    assert_eq!(intel.mixer.group_tracks, 1);
}

#[test]
fn parse_plugins_native() {
    let xml = br#"<?xml version="1.0" encoding="UTF-8"?>
<Ableton Creator="Ableton Live 11.3.2">
<LiveSet>
    <Tracks>
        <AudioTrack>
            <Name>
                <EffectiveName Value="Bass"/>
            </Name>
            <DeviceChain>
                <Devices>
                    <Eq8/>
                    <Compressor/>
                </Devices>
            </DeviceChain>
        </AudioTrack>
    </Tracks>
</LiveSet>
</Ableton>"#;
    let intel = parse_xml_content(xml).unwrap();

    // Track should have the native plugins listed
    assert_eq!(intel.tracks.len(), 1);
    assert!(intel.tracks[0].plugins.contains(&"Eq8".to_string()));
    assert!(intel.tracks[0].plugins.contains(&"Compressor".to_string()));

    // Global plugin list
    assert_eq!(intel.plugins.len(), 2);
    let names: Vec<&str> = intel.plugins.iter().map(|p| p.name.as_str()).collect();
    assert!(names.contains(&"Eq8"));
    assert!(names.contains(&"Compressor"));
    for p in &intel.plugins {
        assert_eq!(p.plugin_type, "native");
    }
}

#[test]
fn parse_plugins_vst() {
    let xml = br#"<?xml version="1.0" encoding="UTF-8"?>
<Ableton Creator="Ableton Live 11.3.2">
<LiveSet>
    <Tracks>
        <MidiTrack>
            <Name>
                <EffectiveName Value="Lead"/>
            </Name>
            <DeviceChain>
                <Devices>
                    <PluginDevice>
                        <PluginDesc>
                            <VstPluginInfo>
                                <PlugName Value="Serum"/>
                            </VstPluginInfo>
                        </PluginDesc>
                    </PluginDevice>
                    <AuPluginDevice>
                        <PluginDesc>
                            <AuPluginInfo>
                                <UserName Value="FabFilter Pro-Q 3"/>
                            </AuPluginInfo>
                        </PluginDesc>
                    </AuPluginDevice>
                </Devices>
            </DeviceChain>
        </MidiTrack>
    </Tracks>
</LiveSet>
</Ableton>"#;
    let intel = parse_xml_content(xml).unwrap();

    assert_eq!(intel.tracks.len(), 1);
    assert!(intel.tracks[0].plugins.contains(&"Serum".to_string()));
    assert!(intel.tracks[0]
        .plugins
        .contains(&"FabFilter Pro-Q 3".to_string()));

    let names: Vec<&str> = intel.plugins.iter().map(|p| p.name.as_str()).collect();
    assert!(names.contains(&"Serum"));
    assert!(names.contains(&"FabFilter Pro-Q 3"));
    for p in &intel.plugins {
        assert_eq!(p.plugin_type, "vst");
    }
}

#[test]
fn ableton_parse_markers() {
    let xml = br#"<?xml version="1.0" encoding="UTF-8"?>
<Ableton Creator="Ableton Live 11.3.2">
<LiveSet>
    <Locators>
        <Locators>
            <Locator>
                <Name Value="Intro"/>
                <Time Value="0.0"/>
            </Locator>
            <Locator>
                <Name Value="Chorus"/>
                <Time Value="45.0"/>
            </Locator>
        </Locators>
    </Locators>
</LiveSet>
</Ableton>"#;
    let intel = parse_xml_content(xml).unwrap();
    assert_eq!(intel.markers.len(), 2);
    assert_eq!(intel.markers[0].name, "Intro");
    assert!((value(&intel.markers[0].position_seconds) - 0.0).abs() < 0.01);
    assert_eq!(intel.markers[1].name, "Chorus");
    assert!((value(&intel.markers[1].position_seconds) - 45.0).abs() < 0.01);
}

#[test]
fn ableton_parse_samples() {
    let xml = br#"<?xml version="1.0" encoding="UTF-8"?>
<Ableton Creator="Ableton Live 11.3.2">
<LiveSet>
    <Tracks>
        <AudioTrack>
            <Name>
                <EffectiveName Value="Drums"/>
            </Name>
            <DeviceChain>
                <MainSequencer>
                    <ClipSlotList>
                        <ClipSlot>
                            <ClipSlot>
                                <Value>
                                    <AudioClip>
                                        <SampleRef>
                                            <FileRef>
                                                <Name Value="kick.wav"/>
                                            </FileRef>
                                        </SampleRef>
                                    </AudioClip>
                                </Value>
                            </ClipSlot>
                        </ClipSlot>
                    </ClipSlotList>
                </MainSequencer>
            </DeviceChain>
        </AudioTrack>
    </Tracks>
</LiveSet>
</Ableton>"#;
    let intel = parse_xml_content(xml).unwrap();
    assert_eq!(intel.samples.len(), 1);
    assert_eq!(intel.samples[0].name, "kick.wav");
}

#[test]
fn ableton_parse_empty_project() {
    let xml = br#"<?xml version="1.0" encoding="UTF-8"?>
<Ableton Creator="Ableton Live 11.3.2">
<LiveSet>
</LiveSet>
</Ableton>"#;
    let intel = parse_xml_content(xml).unwrap();
    assert_eq!(intel.daw, "Ableton Live");
    assert!(intel.tracks.is_empty());
    assert!(intel.plugins.is_empty());
    assert!(intel.samples.is_empty());
    assert!(intel.markers.is_empty());
    assert_eq!(intel.mixer.total_tracks, 0);
}

#[test]
fn parse_track_name_fallback_to_username() {
    let xml = br#"<?xml version="1.0" encoding="UTF-8"?>
<Ableton Creator="Ableton Live 11.3.2">
<LiveSet>
    <Tracks>
        <AudioTrack>
            <Name>
                <EffectiveName Value=""/>
                <UserName Value="My Custom Name"/>
            </Name>
        </AudioTrack>
    </Tracks>
</LiveSet>
</Ableton>"#;
    let intel = parse_xml_content(xml).unwrap();
    assert_eq!(intel.tracks.len(), 1);
    assert_eq!(intel.tracks[0].name, "My Custom Name");
}

#[test]
fn parse_midi_note_count() {
    let xml = br#"<?xml version="1.0" encoding="UTF-8"?>
<Ableton Creator="Ableton Live 11.3.2">
<LiveSet>
    <Tracks>
        <MidiTrack>
            <Name><EffectiveName Value="Piano"/></Name>
            <DeviceChain>
                <MainSequencer>
                    <ClipSlotList>
                        <ClipSlot><ClipSlot><Value>
                            <MidiClip>
                                <Notes>
                                    <KeyTracks>
                                        <KeyTrack>
                                            <MidiKey Value="60"/>
                                            <Notes>
                                                <MidiNoteEvent/>
                                                <MidiNoteEvent/>
                                                <MidiNoteEvent/>
                                            </Notes>
                                        </KeyTrack>
                                    </KeyTracks>
                                </Notes>
                            </MidiClip>
                        </Value></ClipSlot></ClipSlot>
                    </ClipSlotList>
                </MainSequencer>
            </DeviceChain>
        </MidiTrack>
    </Tracks>
</LiveSet>
</Ableton>"#;
    let intel = parse_xml_content(xml).unwrap();
    assert!(!intel.midi_tracks.is_empty(), "Should have MIDI track info");
    assert_eq!(intel.midi_tracks[0].note_count, 3);
}

#[test]
fn parse_sidechain_detection() {
    let xml = br#"<?xml version="1.0" encoding="UTF-8"?>
<Ableton Creator="Ableton Live 11.3.2">
<LiveSet>
    <Tracks>
        <AudioTrack>
            <Name><EffectiveName Value="Bass"/></Name>
            <DeviceChain>
                <Devices>
                    <Compressor>
                        <Sidechain>
                            <On>
                                <Manual Value="true"/>
                            </On>
                        </Sidechain>
                    </Compressor>
                </Devices>
            </DeviceChain>
        </AudioTrack>
    </Tracks>
</LiveSet>
</Ableton>"#;
    let intel = parse_xml_content(xml).unwrap();
    assert!(intel.mixer.has_sidechain, "Should detect sidechain");
}

#[test]
fn parse_track_color() {
    let xml = br#"<?xml version="1.0" encoding="UTF-8"?>
<Ableton Creator="Ableton Live 11.3.2">
<LiveSet>
    <Tracks>
        <AudioTrack>
            <Color Value="13"/>
            <Name><EffectiveName Value="Drums"/></Name>
        </AudioTrack>
    </Tracks>
</LiveSet>
</Ableton>"#;
    let intel = parse_xml_content(xml).unwrap();
    assert_eq!(intel.tracks[0].color.as_deref(), Some("ableton_color_13"));
}

#[test]
fn parse_automation_pointee_id() {
    let xml = br#"<?xml version="1.0" encoding="UTF-8"?>
<Ableton Creator="Ableton Live 11.3.2">
<LiveSet>
    <Tracks>
        <AudioTrack>
            <Name><EffectiveName Value="Lead"/></Name>
            <AutomationEnvelopes>
                <Envelopes>
                    <AutomationEnvelope>
                        <PointeeId Value="42"/>
                    </AutomationEnvelope>
                    <AutomationEnvelope>
                        <PointeeId Value="77"/>
                    </AutomationEnvelope>
                </Envelopes>
            </AutomationEnvelopes>
        </AudioTrack>
    </Tracks>
</LiveSet>
</Ableton>"#;
    let intel = parse_xml_content(xml).unwrap();
    assert_eq!(intel.automated_params.len(), 2);
    assert!(intel.automated_params.contains(&"42".to_string()));
    assert!(intel.automated_params.contains(&"77".to_string()));
}

#[test]
fn parse_no_sidechain_when_off() {
    let xml = br#"<?xml version="1.0" encoding="UTF-8"?>
<Ableton Creator="Ableton Live 11.3.2">
<LiveSet>
    <Tracks>
        <AudioTrack>
            <Name><EffectiveName Value="Bass"/></Name>
            <DeviceChain>
                <Devices>
                    <Compressor>
                        <Sidechain>
                            <On>
                                <Manual Value="false"/>
                            </On>
                        </Sidechain>
                    </Compressor>
                </Devices>
            </DeviceChain>
        </AudioTrack>
    </Tracks>
</LiveSet>
</Ableton>"#;
    let intel = parse_xml_content(xml).unwrap();
    assert!(
        !intel.mixer.has_sidechain,
        "Sidechain Off should not be detected"
    );
}

#[test]
fn parse_deduplicates_samples() {
    let xml = br#"<?xml version="1.0" encoding="UTF-8"?>
<Ableton Creator="Ableton Live 11.3.2">
<LiveSet>
    <Tracks>
        <AudioTrack>
            <Name><EffectiveName Value="Drums"/></Name>
            <DeviceChain>
                <MainSequencer>
                    <SampleRef><FileRef><Name Value="kick.wav"/></FileRef></SampleRef>
                    <SampleRef><FileRef><Name Value="kick.wav"/></FileRef></SampleRef>
                    <SampleRef><FileRef><Name Value="snare.wav"/></FileRef></SampleRef>
                </MainSequencer>
            </DeviceChain>
        </AudioTrack>
    </Tracks>
</LiveSet>
</Ableton>"#;
    let intel = parse_xml_content(xml).unwrap();
    assert_eq!(intel.samples.len(), 2);
    let names: Vec<&str> = intel.samples.iter().map(|s| s.name.as_str()).collect();
    assert!(names.contains(&"kick.wav"));
    assert!(names.contains(&"snare.wav"));
}


#[test]
fn parse_empty_xml() {
    let result = parse_xml_content(b"");
    assert!(result.is_ok());
    assert!(result.unwrap().tracks.is_empty());
}

#[test]
fn parse_non_ableton_xml() {
    let xml = br#"<?xml version="1.0"?><Root><Child/></Root>"#;
    let result = parse_xml_content(xml);
    assert!(result.is_ok());
}

#[test]
fn parse_truncated_xml_no_panic() {
    let result = parse_xml_content(b"<Ableton Creator=\"Test\"><LiveSet><Tracks><AudioTrack>");
    // Truncated — may error or produce partial result, but must not panic
    let _ = result;
}

#[test]
fn parse_deeply_nested_xml() {
    let mut xml = String::from("<?xml version=\"1.0\"?><Ableton Creator=\"Test\">");
    for _ in 0..100 {
        xml.push_str("<Nested>");
    }
    for _ in 0..100 {
        xml.push_str("</Nested>");
    }
    xml.push_str("</Ableton>");
    assert!(parse_xml_content(xml.as_bytes()).is_ok());
}


fn tag(name: &str, attrs: &[(&str, &str)]) -> XmlTag {
    XmlTag {
        name: name.as_bytes().to_vec(),
        attrs: attrs
            .iter()
            .map(|(k, v)| Some(XmlAttr { key: k.as_bytes().to_vec(), value: v.as_bytes().to_vec() }))
            .collect(),
    }
}

#[test]
fn track_type_for_tag_names() {
    assert_eq!(track_type_for_tag("AudioTrack"), Some("audio"));
    assert_eq!(track_type_for_tag("MidiTrack"), Some("midi"));
    assert_eq!(track_type_for_tag("ReturnTrack"), Some("return"));
    assert_eq!(track_type_for_tag("GroupTrack"), Some("group"));
    assert_eq!(track_type_for_tag("MasterTrack"), None);
    assert_eq!(track_type_for_tag("audiotrack"), None);
}

#[test]
fn events_reader_error_is_reported() {
    let events = vec![
        XmlEvent::Start(tag("Ableton", &[("Creator", "X")])),
        XmlEvent::Error("ill-formed document: boom".to_string()),
        XmlEvent::Start(tag("AudioTrack", &[])),
    ];
    assert_eq!(parse_xml_events(&events).unwrap_err(), "XML parse error: ill-formed document: boom");
}

#[test]
fn events_after_eof_are_ignored() {
    let events = vec![
        XmlEvent::Start(tag("AudioTrack", &[])),
        XmlEvent::End(b"AudioTrack".to_vec()),
        XmlEvent::Eof,
        XmlEvent::Start(tag("MidiTrack", &[])),
        XmlEvent::End(b"MidiTrack".to_vec()),
        XmlEvent::Error("late".to_string()),
    ];
    let intel = parse_xml_events(&events).unwrap();
    assert_eq!(intel.tracks.len(), 1);
    assert_eq!(intel.mixer.audio_tracks, 1);
    assert_eq!(intel.mixer.midi_tracks, 0);
}

#[test]
fn rejected_attributes_are_skipped() {
    let mut t = tag("Ableton", &[("Creator", "Live 12")]);
    t.attrs.insert(0, None);
    let events = vec![XmlEvent::Start(t), XmlEvent::Eof];
    let intel = parse_xml_events(&events).unwrap();
    assert_eq!(intel.daw_version.as_deref(), Some("Live 12"));
}

#[test]
fn mismatched_end_tag_is_an_error() {
    let result = parse_xml_content(b"<Ableton><LiveSet></Ableton>");
    let err = result.unwrap_err();
    assert!(err.starts_with("XML parse error: "));
}

#[test]
fn tempo_inside_a_normal_track_is_ignored() {
    let xml = br#"<Ableton><LiveSet><Tracks><AudioTrack><Tempo><Manual Value="90"/></Tempo></AudioTrack></Tracks>
<Tempo><Manual Value="75.5"/></Tempo></LiveSet></Ableton>"#;
    let intel = parse_xml_content(xml).unwrap();
    assert_eq!(intel.bpm.as_ref().map(value), Some(75.5));
    let xml = br#"<Ableton><AudioTrack><Tempo><Manual Value="90"/></Tempo></AudioTrack></Ableton>"#;
    assert!(parse_xml_content(xml).unwrap().bpm.is_none());
}

#[test]
fn native_devices_are_tallied_across_tracks() {
    let xml = br#"<Ableton><AudioTrack><DeviceChain><Devices><Eq8/><Reverb><On/></Reverb></Devices></DeviceChain></AudioTrack>
<MidiTrack><DeviceChain><Devices><Eq8/></Devices></DeviceChain></MidiTrack></Ableton>"#;
    let intel = parse_xml_content(xml).unwrap();
    let tally: Vec<(String, String, u32)> =
        intel.plugins.iter().map(|p| (p.plugin_type.clone(), p.name.clone(), p.count)).collect();
    assert_eq!(
        tally,
        vec![("native".to_string(), "Eq8".to_string(), 2), ("native".to_string(), "Reverb".to_string(), 1)]
    );
    assert_eq!(intel.tracks[0].plugins, vec!["Eq8".to_string(), "Reverb".to_string()]);
    assert_eq!(intel.tracks[1].plugins, vec!["Eq8".to_string()]);
}

#[test]
fn locator_time_that_does_not_parse_is_zero() {
    let xml = br#"<Ableton><Locator><Name Value="Drop"/><Time Value="abc"/></Locator><Locator><Time Value="4"/></Locator></Ableton>"#;
    let intel = parse_xml_content(xml).unwrap();
    assert_eq!(intel.markers.len(), 1);
    assert_eq!(intel.markers[0].name, "Drop");
    assert_eq!(value(&intel.markers[0].position_seconds), 0.0);
}

#[test]
fn decompression_errors_and_limits() {
    let err = parse(b"not a gzip file").unwrap_err();
    assert!(err.starts_with("Decompress: "));
    let err = parse_decompressed(Err("bad".to_string())).unwrap_err();
    assert_eq!(err, "Decompress: bad");
    let big = vec![b' '; 5 * 1024 * 1024];
    assert_eq!(parse_decompressed(Ok(big)).unwrap_err(), "Uncompressed XML exceeds 5242880 byte limit");
    let ok = parse_decompressed(Ok(b"<Ableton Creator=\"Live\"/>".to_vec())).unwrap();
    assert_eq!(ok.daw, "Ableton Live");
}

#[test]
fn parse_corrupt_file_errors() {
    assert!(parse(b"not a gzip file").is_err());
}

#[test]
fn parse_reads_gzip_compressed_set() {
    let xml = br#"<?xml version="1.0" encoding="UTF-8"?>
<Ableton Creator="Ableton Live 11.3.2"><LiveSet><MasterTrack><Tempo><Manual Value="128"/></Tempo></MasterTrack></LiveSet></Ableton>"#;
    let mut enc = flate2::write::GzEncoder::new(Vec::new(), flate2::Compression::default());
    enc.write_all(xml).unwrap();
    let gz = enc.finish().unwrap();
    let intel = parse(&gz).unwrap();
    assert_eq!(intel.daw_version.as_deref(), Some("Ableton Live 11.3.2"));
    assert_eq!(intel.bpm.as_ref().map(value), Some(128.0));
}

#[test]
fn input_without_a_gzip_header_is_an_error() {
    assert!(parse(b"").is_err());
    assert!(parse(&[0x1f, 0x8b, 8, 0]).is_err());
    assert!(parse(&[0x1f, 0x8b, 7, 0, 0, 0, 0, 0, 0, 3, 1, 2, 3]).is_err());
    // A real set whose header is cut short fails too.
    let mut enc = flate2::write::GzEncoder::new(Vec::new(), flate2::Compression::default());
    enc.write_all(b"<Ableton/>").unwrap();
    let gz = enc.finish().unwrap();
    assert!(parse(&gz[..9]).is_err());
    assert!(parse(&gz).is_ok());
}

#[test]
fn ableton_mixer_counts_match_track_types() {
    let xml = br#"<Ableton Creator="Ableton Live 12.0"><LiveSet><Tracks>
<AudioTrack><Name><EffectiveName Value="A"/></Name></AudioTrack>
<AudioTrack><Name><EffectiveName Value="B"/></Name></AudioTrack>
<MidiTrack><Name><EffectiveName Value="C"/></Name></MidiTrack>
<GroupTrack><Name><EffectiveName Value="D"/></Name></GroupTrack>
</Tracks></LiveSet></Ableton>"#;
    let intel = parse_xml_content(xml).unwrap();
    let count = |t: &str| intel.tracks.iter().filter(|x| x.track_type == t).count() as u32;
    assert_eq!(intel.mixer.total_tracks as usize, intel.tracks.len());
    assert_eq!(intel.mixer.audio_tracks, count("audio"));
    assert_eq!(intel.mixer.midi_tracks, count("midi"));
    assert_eq!(intel.mixer.return_tracks, count("return"));
    assert_eq!(intel.mixer.group_tracks, count("group"));
    assert_eq!((intel.mixer.audio_tracks, intel.mixer.midi_tracks, intel.mixer.group_tracks), (2, 1, 1));
    assert!(intel.time_signature.is_none() && intel.duration_seconds.is_none());
}

#[test]
fn tempo_is_the_last_master_tempo_in_range() {
    let xml = br#"<Ableton><LiveSet><MasterTrack><Tempo><Manual Value="100"/></Tempo><Tempo><Manual Value="126"/></Tempo><Tempo><Manual Value="999"/></Tempo></MasterTrack><Tracks><AudioTrack><Tempo><Manual Value="90"/></Tempo></AudioTrack></Tracks></LiveSet></Ableton>"#;
    let intel = parse_xml_content(xml).unwrap();
    assert_eq!(intel.bpm.as_ref().map(value), Some(126.0));
}

use bravoh_daw::{Daw, Error, MixerInfo, ParsedIntelligence};

#[test]
fn mixer_info_defaults() {
    let m = MixerInfo::default();
    assert_eq!(m.total_tracks, 0);
    assert!(!m.has_sidechain);
}

#[test]
fn detect_by_extension() {
    assert_eq!(Daw::detect("x.als"), Some(Daw::AbletonLive));
    assert_eq!(Daw::detect("x.FLP"), Some(Daw::FlStudio));
    assert_eq!(Daw::detect("x.logicx"), Some(Daw::LogicPro));
    assert_eq!(Daw::detect("x.rpp"), Some(Daw::Reaper));
    assert_eq!(Daw::detect("x.wav"), None);
    assert_eq!(Daw::detect("noext"), None);
}

#[test]
fn detect_uses_last_extension_of_file_name() {
    assert_eq!(Daw::detect("/projects/song.v2.Rpp"), Some(Daw::Reaper));
    assert_eq!(Daw::detect("/projects/.als"), None);
    assert_eq!(Daw::detect("/projects/als"), None);
    assert_eq!(Daw::detect("dir.als/"), Some(Daw::AbletonLive));
}

#[test]
fn from_ext_accepts_identifiers_in_any_case() {
    for d in [Daw::AbletonLive, Daw::LogicPro, Daw::FlStudio, Daw::Reaper] {
        assert_eq!(Daw::from_ext(d.as_str()), Some(d));
        assert_eq!(Daw::from_ext(&d.as_str().to_uppercase()), Some(d));
    }
    assert_eq!(Daw::from_ext("ALS"), Some(Daw::AbletonLive));
    assert_eq!(Daw::from_ext("LogicX"), Some(Daw::LogicPro));
    assert_eq!(Daw::from_ext("flp"), Some(Daw::FlStudio));
    assert_eq!(Daw::from_ext("RPP"), Some(Daw::Reaper));
    assert_eq!(Daw::from_ext(""), None);
    assert_eq!(Daw::from_ext("als "), None);
    assert_eq!(Daw::from_ext("wav"), None);
}

#[test]
fn identifiers_and_labels() {
    assert_eq!(Daw::AbletonLive.as_str(), "ableton");
    assert_eq!(Daw::LogicPro.as_str(), "logic");
    assert_eq!(Daw::FlStudio.as_str(), "fl_studio");
    assert_eq!(Daw::Reaper.as_str(), "reaper");
    assert_eq!(Daw::AbletonLive.label(), "Ableton Live");
    assert_eq!(Daw::LogicPro.label(), "Logic Pro");
    assert_eq!(Daw::FlStudio.label(), "FL Studio");
    assert_eq!(Daw::Reaper.label(), "Reaper");
}

#[test]
fn error_messages() {
    let e = Error::UnknownFormat("/x/song.wav".to_string());
    assert_eq!(e.to_message(), "unrecognized project format: /x/song.wav");
    let e = Error::Parse {
        daw: Daw::AbletonLive,
        path: "/x/a.als".to_string(),
        message: "Open: missing".to_string(),
    };
    assert_eq!(e.to_message(), "Ableton Live parse failed for /x/a.als: Open: missing");
}

#[test]
fn blank_record_has_only_the_daw() {
    let r = ParsedIntelligence::blank("Reaper");
    assert_eq!(r.daw, "Reaper");
    assert!(r.daw_version.is_none() && r.bpm.is_none() && r.key.is_none());
    assert!(r.tracks.is_empty() && r.plugins.is_empty() && r.samples.is_empty());
    assert_eq!(r.mixer, MixerInfo::default());
    let d = ParsedIntelligence::default();
    assert_eq!(d.daw, "");
}

use base64_simd::STANDARD;
use rpp_scan::rpp::usages::{ITEM_BITS, PLUGIN_BITS, RECORD_PATH_BITS};
use rpp_scan::rpp::{
    iter_metronome_paths, iter_track_item_paths, parse_project, try_parse_project,
    try_track_item_paths, Child, Element,
};

/// The library's element for what `rpp_parser` read.
fn convert<'a>(e: &rpp_parser::parser::Element<'a>) -> Element<'a> {
    Element {
        tag: e.tag,
        attr: e.attr.clone(),
        children: e
            .children
            .iter()
            .map(|c| match c {
                rpp_parser::parser::Child::Line(items) => Child::Line(items.clone()),
                rpp_parser::parser::Child::Element(sub) => Child::Element(convert(sub)),
            })
            .collect(),
    }
}

fn usages_of(text: &str) -> Vec<(String, u8)> {
    let parsed = rpp_parser::parser::parse_element(text).expect("rpp text");
    let e = convert(&parsed);
    let project = parse_project(&e).expect("project");
    project.usages.entries().iter().map(|(p, u)| (p.clone(), u.bits())).collect()
}

fn error_of(text: &str) -> String {
    let parsed = rpp_parser::parser::parse_element(text).expect("rpp text");
    let e = convert(&parsed);
    match parse_project(&e) {
        Ok(_) => panic!("expected an error"),
        Err(msg) => msg,
    }
}

const PROJECT: &str = r#"<REAPER_PROJECT 0.1 "7.18/win64" 1720945588
  RIPPLE 0
  RECORD_PATH "Audio" ""
  <METRONOME 6 2
    VOL 0.25 0.125
    SAMPLES "C:\click hi.wav" "" "C:\click lo.wav"
  >
  <MASTERFXLIST
    SHOW 0
  >
  <TRACK {A}
    NAME drums
    <ITEM
      POSITION 0
      <SOURCE WAVE
        FILE "C:\drums\kick.wav"
      >
    >
    <ITEM
      <SOURCE MIDI
        HASDATA 1 960 QN
      >
    >
    <ITEM
      <SOURCE SECTION
        LENGTH 2
        <SOURCE _OFFLINE_FLAC
          FILE "Audio\loop.flac"
        >
      >
    >
  >
  <TRACK {B}
    <ITEM
      <SOURCE WAVE
        FILE "C:\drums\kick.wav"
      >
    >
  >
>
"#;

#[test]
fn project_usages_from_tracks_and_record_path() {
    assert_eq!(
        usages_of(PROJECT),
        vec![
            ("Audio".to_string(), RECORD_PATH_BITS),
            ("Audio\\loop.flac".to_string(), ITEM_BITS),
            ("C:\\drums\\kick.wav".to_string(), ITEM_BITS),
        ]
    );
}

#[test]
fn project_date_is_the_third_attribute() {
    let parsed = rpp_parser::parser::parse_element(PROJECT).unwrap();
    let e = convert(&parsed);
    let project = parse_project(&e).unwrap();
    assert_eq!(project.date, jiff::Timestamp::from_second(1720945588).unwrap());
    assert_eq!(project.date.as_second(), 1720945588);
    assert_eq!(project.date_second, 1720945588);
}

#[test]
fn project_plugins_get_the_plugin_flag() {
    let sample = STANDARD.encode_to_string(b"C:\\drums\\kick.wav");
    let other = STANDARD.encode_to_string(b"D:\\bass.wav");
    let text = format!(
        r#"<REAPER_PROJECT 0.1 "7.18/win64" 0
  <MASTERFXLIST
    <VST "VSTi: ReaSamplOmatic5000 (Cockos)" reasamplomatic.dll 0 ""
      {sample}
    >
  >
  <TRACK
    <ITEM
      <SOURCE WAVE
        FILE "C:\drums\kick.wav"
      >
    >
    <FXCHAIN
      <VST "VSTi: ReaSamplOmatic5000 (Cockos)" reasamplomatic.dll 0 ""
        {other}
      >
    >
    <FXCHAIN
      <VST "VSTi: ReaSamplOmatic5000 (Cockos)" reasamplomatic.dll 0 ""
        {sample}
      >
    >
  >
>
"#
    );
    assert_eq!(
        usages_of(&text),
        vec![
            ("C:\\drums\\kick.wav".to_string(), PLUGIN_BITS | ITEM_BITS),
            ("D:\\bass.wav".to_string(), PLUGIN_BITS),
        ]
    );
}

#[test]
fn project_errors_in_order() {
    assert_eq!(error_of("<TRACK 1 2 3\n>\n"), "expected project tag: TRACK");
    assert_eq!(
        error_of("<REAPER_PROJECT 0.1 \"7.18/win64\"\n>\n"),
        "can't find project date: [\"0.1\", \"7.18/win64\"]"
    );
    assert_eq!(
        error_of("<REAPER_PROJECT 0.1 \"7.18/win64\" 12x\n>\n"),
        "project date is malformed: [\"0.1\", \"7.18/win64\", \"12x\"]"
    );
    assert_eq!(
        error_of("<REAPER_PROJECT 0.1 v 999999999999\n>\n"),
        "invalid project date: [\"0.1\", \"v\", \"999999999999\"]"
    );
    assert_eq!(
        error_of("<REAPER_PROJECT 0.1 v 5\n  RECORD_PATH Audio\n>\n"),
        "expected project record path to have exactly 2 values: [\"Audio\"]"
    );
    assert_eq!(
        error_of("<REAPER_PROJECT 0.1 v 5\n  RECORD_PATH a b c\n>\n"),
        "expected project record path to have exactly 2 values: [\"a\", \"b\", \"c\"]"
    );
}

#[test]
fn project_date_range_edges() {
    for (date, ok) in [
        ("253402207200", true),
        ("253402207201", false),
        ("-377705023201", true),
        ("-377705023202", false),
        ("+0", true),
    ] {
        let text = format!("<REAPER_PROJECT 0.1 v {date}\n>\n");
        let parsed = rpp_parser::parser::parse_element(&text).unwrap();
        let e = convert(&parsed);
        assert_eq!(parse_project(&e).is_ok(), ok, "{date}");
    }
}

#[test]
fn project_with_unreadable_source_is_refused() {
    let text = "<REAPER_PROJECT 0.1 v 5\n  <TRACK\n    <ITEM\n      <SOURCE NEWTYPE\n      >\n    >\n  >\n>\n";
    let parsed = rpp_parser::parser::parse_element(text).unwrap();
    let e = convert(&parsed);
    assert!(try_parse_project(&e).is_none());
    let fine = convert(&rpp_parser::parser::parse_element(PROJECT).unwrap());
    assert!(matches!(try_parse_project(&fine), Some(Ok(_))));
}

#[test]
fn record_path_error_comes_before_later_children() {
    let text = "<REAPER_PROJECT 0.1 v 5\n  RECORD_PATH x\n  <TRACK\n    <ITEM\n      <SOURCE NEWTYPE\n      >\n    >\n  >\n>\n";
    let e = convert(&rpp_parser::parser::parse_element(text).unwrap());
    assert_eq!(
        try_parse_project(&e).map(|r| r.err()),
        Some(Some("expected project record path to have exactly 2 values: [\"x\"]".to_string()))
    );
}

#[test]
fn metronome_paths_skip_empty_values() {
    let parsed = rpp_parser::parser::parse_element(PROJECT).unwrap();
    let e = convert(&parsed);
    let metronome = e
        .children
        .iter()
        .find_map(|c| match c {
            Child::Element(m) if m.tag == "METRONOME" => Some(m),
            _ => None,
        })
        .unwrap();
    assert_eq!(iter_metronome_paths(metronome), vec!["C:\\click hi.wav", "C:\\click lo.wav"]);
}

#[test]
fn track_item_paths_in_order() {
    let parsed = rpp_parser::parser::parse_element(PROJECT).unwrap();
    let e = convert(&parsed);
    let track = e
        .children
        .iter()
        .find_map(|c| match c {
            Child::Element(t) if t.tag == "TRACK" => Some(t),
            _ => None,
        })
        .unwrap();
    assert_eq!(iter_track_item_paths(track), vec!["C:\\drums\\kick.wav", "Audio\\loop.flac"]);
    assert_eq!(try_track_item_paths(track), Some(vec!["C:\\drums\\kick.wav", "Audio\\loop.flac"]));
}

#[test]
fn no_file_is_marked_as_metronome_use() {
    for (_, bits) in usages_of(PROJECT) {
        assert_eq!(bits & rpp_scan::rpp::usages::METRONOME_BITS, 0);
        assert_ne!(bits, 0);
    }
}

#[test]
fn project_paths_compare_as_paths() {
    let text = "<REAPER_PROJECT 0.1 v 5\n  RECORD_PATH a/b \"\"\n  <TRACK\n    <ITEM\n      <SOURCE WAVE\n        FILE a/b/\n      >\n    >\n    <ITEM\n      <SOURCE WAVE\n        FILE a//./b\n      >\n    >\n    <ITEM\n      <SOURCE WAVE\n        FILE /a/b\n      >\n    >\n  >\n>\n";
    assert_eq!(
        usages_of(text),
        vec![
            ("/a/b".to_string(), ITEM_BITS),
            ("a/b".to_string(), RECORD_PATH_BITS | ITEM_BITS),
        ]
    );
}

fn element_of(text: &str) -> rpp_parser::parser::Element<'_> {
    rpp_parser::parser::parse_element(text).expect("rpp text")
}

#[test]
fn project_children_order_does_not_change_flags() {
    let a = "<REAPER_PROJECT 0.1 v 7\n  RECORD_PATH \"a/b\" \"\"\n  <TRACK\n    <ITEM\n      <SOURCE WAVE\n        FILE \"a/b/\"\n      >\n    >\n  >\n  RECORD_PATH \"c\" \"\"\n>\n";
    let b = "<REAPER_PROJECT 0.1 v 7\n  RECORD_PATH \"c\" \"\"\n  <TRACK\n    <ITEM\n      <SOURCE WAVE\n        FILE \"a/b/\"\n      >\n    >\n  >\n  RECORD_PATH \"a/b\" \"\"\n>\n";
    let ea = element_of(a);
    let eb = element_of(b);
    let pa = parse_project(&convert(&ea)).unwrap();
    let pb = parse_project(&convert(&eb)).unwrap();
    assert_eq!(pa.date_second, pb.date_second);
    assert_eq!(pa.usages.len(), 2);
    assert_eq!(pb.usages.len(), 2);
    for path in ["a/b", "a/b/", "c", "./c"] {
        assert_eq!(pa.usages.get(path).map(|u| u.bits()), pb.usages.get(path).map(|u| u.bits()));
    }
    assert_eq!(pa.usages.get("a/b").map(|u| u.bits()), Some(RECORD_PATH_BITS | ITEM_BITS));
    assert_eq!(pb.usages.get("c").map(|u| u.bits()), Some(RECORD_PATH_BITS));
}

#[test]
fn project_ignored_children_change_nothing() {
    let plain = "<REAPER_PROJECT 0.1 v 7\n  RECORD_PATH \"Audio\" \"\"\n>\n";
    let padded = "<REAPER_PROJECT 0.1 v 7\n  RIPPLE 0\n  <METRONOME 6 2\n    SAMPLES \"C:\\click.wav\"\n  >\n  RECORD_PATH \"Audio\" \"\"\n  <EXTENSIONS\n    RECORD_PATH x\n  >\n>\n";
    assert_eq!(usages_of(plain), usages_of(padded));
    let bad = "<REAPER_PROJECT 0.1 v 7\n  RECORD_PATH x\n>\n";
    let bad_padded = "<REAPER_PROJECT 0.1 v 7\n  <METRONOME\n  >\n  RECORD_PATH x\n  NAME y\n>\n";
    assert_eq!(error_of(bad), error_of(bad_padded));
}

#[test]
fn project_error_exactly_on_bad_record_path_line() {
    let good = "<REAPER_PROJECT 0.1 v 7\n  RECORD_PATH a b\n  RECORD_PATHS x\n  NAME\n>\n";
    assert!(parse_project(&convert(&element_of(good))).is_ok());
    let bad = "<REAPER_PROJECT 0.1 v 7\n  RECORD_PATH a b\n  NAME\n  RECORD_PATH\n>\n";
    assert_eq!(
        parse_project(&convert(&element_of(bad))).err(),
        Some("expected project record path to have exactly 2 values: []".to_string())
    );
}

#[test]
fn project_usages_have_exactly_the_flags_given() {
    let usages = usages_of(PROJECT);
    for (_, bits) in &usages {
        assert_ne!(*bits, 0);
        assert_eq!(bits & !(ITEM_BITS | PLUGIN_BITS | RECORD_PATH_BITS), 0);
    }
}

#[test]
fn project_date_is_the_timestamp_of_its_second() {
    let e = Element {
        tag: "REAPER_PROJECT",
        attr: vec!["0.1", "7.0/win64", "1700000000"],
        children: vec![Child::Line(vec!["RECORD_PATH", "Media", ""])],
    };
    let p = parse_project(&e).unwrap();
    assert_eq!(p.date, jiff::Timestamp::from_second(1700000000).unwrap());
    assert_eq!(p.usages.len(), 1);
    assert_eq!(p.usages.get("Media").map(|u| u.bits()), Some(RECORD_PATH_BITS));
}

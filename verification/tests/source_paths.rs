use rpp_scan::rpp::source::{get_source_path, try_get_source_path};
use rpp_scan::rpp::utils::{attr_as_arr, child_as_arr};
use rpp_scan::rpp::{Child, Element};

fn line<'a>(items: &[&'a str]) -> Child<'a> {
    Child::Line(items.to_vec())
}

fn element<'a>(tag: &'a str, attr: &[&'a str], children: Vec<Child<'a>>) -> Element<'a> {
    Element { tag, attr: attr.to_vec(), children }
}

#[test]
fn attr_as_arr_takes_exact_length() {
    let attr = ["WAVE"];
    assert_eq!(attr_as_arr::<1>(&attr), Some(["WAVE"]));
    assert_eq!(attr_as_arr::<2>(&attr), None);
    let attr2 = ["a", "b", "c"];
    assert_eq!(attr_as_arr::<3>(&attr2), Some(["a", "b", "c"]));
    assert_eq!(attr_as_arr::<0>(&attr2), None);
    let empty: [&str; 0] = [];
    assert_eq!(attr_as_arr::<0>(&empty), Some([]));
}

#[test]
fn child_as_arr_reads_lines_only() {
    let l = line(&["FILE", "a.wav"]);
    assert_eq!(child_as_arr::<2>(&l), Some(["FILE", "a.wav"]));
    assert_eq!(child_as_arr::<3>(&l), None);
    let e = Child::Element(element("SOURCE", &["WAVE"], vec![]));
    assert_eq!(child_as_arr::<0>(&e), None);
}

#[test]
fn wave_source_path() {
    let src = element("SOURCE", &["WAVE"], vec![line(&["LENGTH", "3"]), line(&["FILE", "C:\\a.wav"])]);
    assert_eq!(get_source_path(&src), Some("C:\\a.wav"));
}

#[test]
fn file_line_with_three_values_is_not_a_wave_file() {
    let src = element(
        "SOURCE",
        &["WAVE"],
        vec![line(&["FILE", "C:\\wrong.wav", "1"]), line(&["FILE", "C:\\b.wav"])],
    );
    assert_eq!(get_source_path(&src), Some("C:\\b.wav"));
}

#[test]
fn mp3_source_path() {
    let src = element("SOURCE", &["MP3"], vec![line(&["FILE", "song.mp3", "1"])]);
    assert_eq!(get_source_path(&src), Some("song.mp3"));
}

#[test]
fn midi_source_has_no_path() {
    for t in ["MIDI", "MIDIPOOL", "CLICK", "EMPTY"] {
        let src = element("SOURCE", &[t], vec![line(&["FILE", "x.mid"])]);
        assert_eq!(get_source_path(&src), None);
    }
}

#[test]
fn offline_source_has_online_path() {
    let online = element("SOURCE", &["FLAC"], vec![line(&["FILE", "a.flac"])]);
    let offline = element("SOURCE", &["_OFFLINE_FLAC"], vec![line(&["FILE", "a.flac"])]);
    assert_eq!(get_source_path(&online), get_source_path(&offline));
    assert_eq!(get_source_path(&offline), Some("a.flac"));
}

#[test]
fn section_source_finds_inner_source() {
    let inner_midi = element("SOURCE", &["MIDI"], vec![]);
    let inner_wave = element("SOURCE", &["WAVE"], vec![line(&["FILE", "inner.wav"])]);
    let section = element(
        "SOURCE",
        &["SECTION"],
        vec![
            line(&["LENGTH", "1"]),
            Child::Element(inner_midi),
            Child::Element(inner_wave),
        ],
    );
    assert_eq!(get_source_path(&section), Some("inner.wav"));
}

#[test]
fn source_with_two_attributes_has_no_path() {
    let src = element("SOURCE", &["WAVE", "extra"], vec![line(&["FILE", "a.wav"])]);
    assert_eq!(get_source_path(&src), None);
}

#[test]
fn unknown_source_type_fails() {
    let src = element("SOURCE", &["SOMETHING_NEW"], vec![line(&["FILE", "a.wav"])]);
    assert_eq!(try_get_source_path(&src), None);
}

#[test]
fn file_source_without_file_line_fails() {
    let src = element("SOURCE", &["VORBIS"], vec![line(&["LENGTH", "1"])]);
    assert_eq!(try_get_source_path(&src), None);
    let section = element("SOURCE", &["SECTION"], vec![Child::Element(element("SOURCE", &["MIDI"], vec![]))]);
    assert_eq!(try_get_source_path(&section), None);
}

#[test]
fn try_source_path_agrees_when_found() {
    let src = element("SOURCE", &["RPP_PROJECT"], vec![line(&["FILE", "sub.rpp"])]);
    assert_eq!(try_get_source_path(&src), Some(Some("sub.rpp")));
    let midi = element("SOURCE", &["MIDI"], vec![]);
    assert_eq!(try_get_source_path(&midi), Some(None));
}

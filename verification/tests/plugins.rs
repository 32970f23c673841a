use base64_simd::STANDARD;
use rpp_scan::rpp::paths::PathList;
use rpp_scan::rpp::plugin::{
    collect_plugins, extract_fxchain_paths, extract_plugin_path, extract_plugin_strings,
    nadir_paths, sitala_paths, try_collect_plugins, try_extract_fxchain_paths,
    try_extract_plugin_path,
};
use rpp_scan::rpp::plugin_data::{b64_extract_strings, split_data, split_parts};
use rpp_scan::rpp::{Child, Element, Plugin, PluginKind};

fn line<'a>(items: &[&'a str]) -> Child<'a> {
    Child::Line(items.to_vec())
}

fn element<'a>(tag: &'a str, attr: &[&'a str], children: Vec<Child<'a>>) -> Element<'a> {
    Element { tag, attr: attr.to_vec(), children }
}

/// Base64 lines of `data`, split into lines of at most 40 characters as
/// REAPER writes them.
fn b64_lines(data: &[u8]) -> Vec<String> {
    let mut lines = vec![];
    for chunk in data.chunks(30) {
        lines.push(STANDARD.encode_to_string(chunk));
    }
    lines
}

fn data_children(lines: &[String]) -> Vec<Child<'_>> {
    lines.iter().map(|l| Child::Line(vec![l.as_str()])).collect()
}

fn paths(p: PathList) -> Vec<String> {
    p.into_vec()
}

#[test]
fn data_strings_split_at_controls() {
    let data = b"abc\x00hello world\x01xy\nzzzzz\x02\x03longer string\xff\xfeafter bad\x7f1234";
    let lines = b64_lines(data);
    let children = data_children(&lines);
    let strings = b64_extract_strings(&children);
    assert_eq!(strings, vec!["hello world", "xy\nzzzzz", "longer string", "after bad"]);
}

#[test]
fn data_strings_keep_five_character_pieces() {
    let lines = b64_lines(b"1234\x0012345\x00123456");
    let strings = b64_extract_strings(&data_children(&lines));
    assert_eq!(strings, vec!["12345", "123456"]);
    let lines = b64_lines("\u{e9}\u{e9}\u{e9}\u{e9}\u{e9}".as_bytes());
    let strings = b64_extract_strings(&data_children(&lines));
    assert_eq!(strings, vec!["\u{e9}\u{e9}\u{e9}\u{e9}\u{e9}"]);
}

#[test]
fn data_strings_skip_non_lines_and_take_first_value() {
    let l1 = STANDARD.encode_to_string(b"first part ");
    let l2 = STANDARD.encode_to_string(b"second part");
    let children = vec![
        Child::Line(vec![l1.as_str(), "ignored"]),
        Child::Element(element("STATE", &[], vec![])),
        Child::Line(vec![]),
        Child::Line(vec![l2.as_str()]),
    ];
    assert_eq!(b64_extract_strings(&children), vec!["first part second part"]);
}

#[test]
fn data_strings_empty_on_bad_base64() {
    let good = STANDARD.encode_to_string(b"a good string");
    let children = vec![Child::Line(vec![good.as_str()]), Child::Line(vec!["not base64!"])];
    assert_eq!(b64_extract_strings(&children), Vec::<String>::new());
    assert_eq!(b64_extract_strings(&[]), Vec::<String>::new());
}

#[test]
fn collect_plugins_in_order_with_containers() {
    let chain = element(
        "FXCHAIN",
        &[],
        vec![
            line(&["SHOW", "0"]),
            Child::Element(element("VST", &["VST: ReaEQ (Cockos)", "reaeq.dll", "0"], vec![])),
            Child::Element(element("PARMENV", &["1"], vec![])),
            Child::Element(element(
                "CONTAINER",
                &["Container", "inner"],
                vec![
                    Child::Element(element("CLAP", &["CLAP: Surge XT", "org.surge-synth-team.surge-xt"], vec![])),
                    Child::Element(element("COMMENT", &[], vec![])),
                ],
            )),
            Child::Element(element("JS", &["utility/volume", "Volume Adjustment"], vec![])),
            Child::Element(element("JS_SER", &[], vec![])),
        ],
    );
    let mut out: Vec<Plugin> = vec![];
    collect_plugins(&chain, &mut out);
    let got: Vec<(PluginKind, &str, &str)> =
        out.iter().map(|p| (p.kind(), p.display_name(), p.ident())).collect();
    assert_eq!(
        got,
        vec![
            (PluginKind::VST, "VST: ReaEQ (Cockos)", "reaeq.dll"),
            (PluginKind::CLAP, "CLAP: Surge XT", "org.surge-synth-team.surge-xt"),
            (PluginKind::JS, "Volume Adjustment", "utility/volume"),
        ]
    );
}

#[test]
fn collect_plugins_appends_to_out() {
    let chain1 = element("FXCHAIN", &[], vec![Child::Element(element("VST", &["A", "a.dll"], vec![]))]);
    let chain2 = element("FXCHAIN", &[], vec![Child::Element(element("VST", &["B", "b.dll"], vec![]))]);
    let mut out = vec![];
    collect_plugins(&chain1, &mut out);
    collect_plugins(&chain2, &mut out);
    let idents: Vec<&str> = out.iter().map(|p| p.ident()).collect();
    assert_eq!(idents, vec!["a.dll", "b.dll"]);
}

#[test]
fn collect_plugins_fails_on_unknown_or_unnamed() {
    let unknown = element("FXCHAIN", &[], vec![Child::Element(element("LV2", &["x", "y"], vec![]))]);
    let mut out = vec![];
    assert!(!try_collect_plugins(&unknown, &mut out));
    let unnamed = element("FXCHAIN", &[], vec![Child::Element(element("VST", &["only a name"], vec![]))]);
    let mut out = vec![];
    assert!(!try_collect_plugins(&unnamed, &mut out));
    let fine = element("FXCHAIN", &[], vec![Child::Element(element("VIDEO_EFFECT", &[], vec![]))]);
    let mut out = vec![];
    assert!(try_collect_plugins(&fine, &mut out));
    assert!(out.is_empty());
}

fn sampler_element<'a>(lines: &'a [String]) -> Element<'a> {
    element(
        "VST",
        &["VSTi: ReaSamplOmatic5000 (Cockos)", "reasamplomatic.dll", "0", ""],
        data_children(lines),
    )
}

#[test]
fn sampler_plugin_path_is_first_string() {
    let lines = b64_lines(b"\x00\x00C:\\Samples\\kick.wav\x00\x00\x01other string here");
    let vst = sampler_element(&lines);
    let chain = element("FXCHAIN", &[], vec![Child::Element(vst)]);
    let mut out = vec![];
    collect_plugins(&chain, &mut out);
    assert_eq!(paths(out[0].extract_paths()), vec!["C:\\Samples\\kick.wav"]);
    assert_eq!(out[0].try_extract_paths().map(paths), Some(vec!["C:\\Samples\\kick.wav".to_string()]));
}

#[test]
fn sampler_without_strings_has_no_path() {
    let lines = b64_lines(b"\x00\x01\x02abc");
    let chain = element("FXCHAIN", &[], vec![Child::Element(sampler_element(&lines))]);
    let mut out = vec![];
    collect_plugins(&chain, &mut out);
    assert!(paths(out[0].extract_paths()).is_empty());
}

fn nadir_config() -> String {
    let mut cfg = String::from("junk{\"version\": 3, \"IRPath0\" : \"C:\\\\IRs\\\\hall \\\"big\\\".wav\", ");
    cfg.push_str("\"IRPath1\":\"${documents}/NadIR/default.wav\", \"IRPath2\": \"D:\\\\not.wav\", ");
    cfg.push_str("\"padding\": \"................................................\"}junk");
    assert!(cfg.len() >= 100);
    cfg
}

#[test]
fn nadir_plugin_paths_from_config() {
    let mut data = b"short\x00".to_vec();
    data.extend_from_slice(nadir_config().as_bytes());
    let lines = b64_lines(&data);
    let vst = element("VST", &["VST3: NadIR (Ignite Amps)", "NadIR.vst3", "0"], data_children(&lines));
    let chain = element("FXCHAIN", &[], vec![Child::Element(vst)]);
    let mut out = vec![];
    collect_plugins(&chain, &mut out);
    assert_eq!(paths(out[0].extract_paths()), vec!["C:\\IRs\\hall \"big\".wav"]);
}

#[test]
fn nadir_malformed_json_is_refused() {
    let cfg = format!("\"IRPath0\": \"C:\\x\"{}", ".".repeat(120));
    let lines = b64_lines(cfg.as_bytes());
    let vst = element("VST", &["VST3: NadIR (Ignite Amps)", "NadIR.vst3", "0"], data_children(&lines));
    let chain = element("FXCHAIN", &[], vec![Child::Element(vst)]);
    let mut out = vec![];
    collect_plugins(&chain, &mut out);
    assert!(out[0].try_extract_paths().is_none());
    assert!(try_extract_fxchain_paths(&chain).is_none());
}

#[test]
fn nadir_without_long_string_has_no_path() {
    let lines = b64_lines(b"\"IRPath0\": \"C:\\\\a.wav\"");
    let vst = element("VST", &["VST3: NadIR (Ignite Amps)", "NadIR.vst3", "0"], data_children(&lines));
    let chain = element("FXCHAIN", &[], vec![Child::Element(vst)]);
    assert_eq!(try_extract_fxchain_paths(&chain).map(|p| p.into_vec()), Some(vec![]));
}

fn sitala_config() -> String {
    let mut cfg = String::from("<sitala><sound slot=\"1\" location=\"file:///C:/Samples/kick%20a.wav\" gain=\"0\"/>");
    cfg.push_str("<sound slot=\"2\" location=\"http://example.com/x.wav\"/>");
    cfg.push_str("<sound slot=\"12\" location=\"file:///D:/snare.wav\"/></sitala>");
    cfg
}

#[test]
fn sitala_plugin_paths_from_config() {
    let lines = b64_lines(sitala_config().as_bytes());
    let vst = element("VST", &["VSTi: Sitala (Decomposer)", "Sitala.dll", "0"], data_children(&lines));
    let chain = element("FXCHAIN", &[], vec![Child::Element(vst)]);
    let mut out = vec![];
    collect_plugins(&chain, &mut out);
    assert_eq!(paths(out[0].extract_paths()), vec!["C:/Samples/kick a.wav", "D:/snare.wav"]);
}

#[test]
fn clap_plugin_reads_state_and_js_has_no_paths() {
    let lines = b64_lines(b"C:\\Samples\\clap.wav");
    let clap = element(
        "CLAP",
        &["CLAP: Sampler", "com.example.sampler"],
        vec![Child::Element(element("STATE", &[], data_children(&lines)))],
    );
    let js = element("JS", &["loser/sampler", "Sampler"], vec![]);
    let chain = element("FXCHAIN", &[], vec![Child::Element(clap), Child::Element(js)]);
    let mut out = vec![];
    collect_plugins(&chain, &mut out);
    assert!(paths(out[0].extract_paths()).is_empty());
    assert!(paths(out[1].extract_paths()).is_empty());
}

#[test]
fn fxchain_paths_concatenate_plugin_paths() {
    let s1 = b64_lines(b"C:\\one.wav");
    let s2 = b64_lines(b"C:\\two.wav");
    let sitala = b64_lines(sitala_config().as_bytes());
    let chain = element(
        "FXCHAIN",
        &[],
        vec![
            Child::Element(sampler_element(&s1)),
            Child::Element(element(
                "CONTAINER",
                &["c", "c"],
                vec![Child::Element(element("VST", &["VSTi: Sitala", "Sitala.dll"], data_children(&sitala)))],
            )),
            Child::Element(sampler_element(&s2)),
            Child::Element(element("VST", &["VST: ReaEQ", "reaeq.dll"], vec![])),
        ],
    );
    assert_eq!(
        extract_fxchain_paths(&chain).into_vec(),
        vec!["C:\\one.wav", "C:/Samples/kick a.wav", "D:/snare.wav", "C:\\two.wav"]
    );
}

#[test]
fn sitala_percent_escapes_decoded_as_urlencoding_does() {
    let cfg = "<sound slot=\"1\" location=\"file:///C:/a%zz%4g%41%2\"/><sound slot=\"2\" location=\"file:///C:/bad%FF.wav\"/><sound slot=\"3\" location=\"file:///C:/caf%C3%A9+x.wav\"/>";
    let lines = b64_lines(cfg.as_bytes());
    let vst = element("VST", &["VSTi: Sitala (Decomposer)", "Sitala.dll", "0"], data_children(&lines));
    let chain = element("FXCHAIN", &[], vec![Child::Element(vst)]);
    let mut out = vec![];
    collect_plugins(&chain, &mut out);
    assert_eq!(paths(out[0].extract_paths()), vec!["C:/a%zz%4gA%2", "C:/café+x.wav"]);
}

#[test]
fn data_strings_lie_within_one_valid_utf8_part() {
    let mut data = b"abcdefg".to_vec();
    data.push(0xff);
    data.extend_from_slice(b"hijklmn\x01opq");
    let lines = b64_lines(&data);
    let got = b64_extract_strings(&data_children(&lines));
    assert_eq!(got, vec!["abcdefg".to_string(), "hijklmn".to_string()]);
}

#[test]
fn nadir_paths_from_matches() {
    let ms = vec![
        Some(r#""C:\\IR\\a.wav""#.to_string()),
        None,
        Some("\"${documents}/b.wav\"".to_string()),
        Some("\"D:/c.wav\"".to_string()),
    ];
    assert_eq!(nadir_paths(&ms).map(paths), Some(vec!["C:\\IR\\a.wav".to_string(), "D:/c.wav".to_string()]));
    assert!(nadir_paths(&vec![Some("\"x".to_string())]).is_none());
}

#[test]
fn sitala_paths_from_matches() {
    let ms = vec![
        Some("\"file:///C:/a%20b.wav\"".to_string()),
        Some("\"http://x/y.wav\"".to_string()),
        None,
        Some("\"file:///bad%FF\"".to_string()),
    ];
    assert_eq!(sitala_paths(&ms).map(paths), Some(vec!["C:/a b.wav".to_string()]));
    assert!(sitala_paths(&vec![Some("nope".to_string())]).is_none());
}

#[test]
fn split_parts_at_separators() {
    let parts = vec!["abcde\u{1}fg\nhijkl".to_string(), "xy\rzzzzz".to_string()];
    assert_eq!(split_parts(&parts, false), vec!["abcde", "fg\nhijkl", "xy\rzzzzz"]);
    assert_eq!(split_parts(&parts, true), vec!["abcde", "hijkl", "zzzzz"]);
}

#[test]
fn split_data_at_line_breaks_or_not() {
    let lines = b64_lines(b"first line\nsecond line\x00third line");
    let children = data_children(&lines);
    assert_eq!(split_data(&children, false), vec!["first line\nsecond line", "third line"]);
    assert_eq!(split_data(&children, true), vec!["first line", "second line", "third line"]);
}

#[test]
fn plugin_element_strings_by_tag() {
    let lines = b64_lines(b"C:\\a.wav\nD:\\b.wav");
    let vst = element("VST", &["VSTi: X", "x.dll", "0"], data_children(&lines));
    assert_eq!(extract_plugin_strings(&vst), Some(vec!["C:\\a.wav".to_string(), "D:\\b.wav".to_string()]));
    let clap = element("CLAP", &["CLAP: X", "x"], vec![Child::Element(element("STATE", &[], data_children(&lines)))]);
    assert_eq!(extract_plugin_strings(&clap).map(|v| v.len()), Some(2));
    let bare = element("CLAP", &["CLAP: X", "x"], vec![]);
    assert_eq!(extract_plugin_strings(&bare), None);
    let js = element("JS", &["a", "b"], vec![]);
    assert_eq!(extract_plugin_strings(&js), None);
}

#[test]
fn plugin_element_paths_of_sampler_and_nadir() {
    let lines = b64_lines(b"C:\\kick.wav\nother");
    let rs = element("VST", &["VSTi: ReaSamplOmatic5000 (Cockos)", "reasamplomatic.dll", "0"], data_children(&lines));
    assert_eq!(paths(extract_plugin_path(&rs)), vec!["C:\\kick.wav"]);
    let cfg = format!(
        "{{\"IRPath0\": \"C:\\\\IRs\\\\hall.wav\", \"IRPath1\": \"${{documents}}/x.wav\", \"pad\": \"{}\"}}",
        ".".repeat(100)
    );
    let nl = b64_lines(cfg.as_bytes());
    let nadir = element("VST", &["VST3: NadIR (Ignite Amps)", "NadIR.vst3", "0"], data_children(&nl));
    assert_eq!(paths(extract_plugin_path(&nadir)), vec!["C:\\IRs\\hall.wav"]);
    let sitala_lines = b64_lines(sitala_config().as_bytes());
    let sitala = element("VST", &["VSTi: Sitala (Decomposer)", "Sitala.dll", "0"], data_children(&sitala_lines));
    assert_eq!(paths(extract_plugin_path(&sitala)), Vec::<String>::new());
    let bad = format!("\"IRPath0\": \"C:\\x\"{}", ".".repeat(120));
    let bl = b64_lines(bad.as_bytes());
    let broken = element("VST", &["VST3: NadIR (Ignite Amps)", "NadIR.vst3", "0"], data_children(&bl));
    assert!(try_extract_plugin_path(&broken).is_none());
}

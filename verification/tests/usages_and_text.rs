use rpp_scan::argparse::Args;
use std::collections::BTreeMap;
use std::path::Path;
use rpp_scan::rpp::text::{is_control, parse_i64};
use rpp_scan::rpp::usages::{ITEM_BITS, METRONOME_BITS, PLUGIN_BITS, RECORD_PATH_BITS};
use rpp_scan::rpp::{PathUsages, Usages};

#[test]
fn usages_flags_have_their_bits() {
    assert_eq!(Usages::empty().bits(), 0);
    assert_eq!(Usages::item().bits(), ITEM_BITS);
    assert_eq!(Usages::plugin().bits(), PLUGIN_BITS);
    assert_eq!(Usages::record_path().bits(), RECORD_PATH_BITS);
    assert_eq!(Usages::metronome().bits(), METRONOME_BITS);
    assert_eq!(ITEM_BITS, 0b0000_0001);
    assert_eq!(PLUGIN_BITS, 0b0000_0100);
    assert_eq!(RECORD_PATH_BITS, 0b0100_0000);
    assert_eq!(METRONOME_BITS, 0b1000_0000);
}

#[test]
fn usages_display_columns() {
    assert_eq!(Usages::empty().display(), "    ");
    assert_eq!(Usages::item().display(), "I   ");
    assert_eq!(Usages::plugin().display(), " P  ");
    assert_eq!(Usages::record_path().display(), "  R ");
    assert_eq!(Usages::metronome().display(), "   M");
    let all = Usages::item()
        .union(Usages::plugin())
        .union(Usages::record_path())
        .union(Usages::metronome());
    assert_eq!(all.display(), "IPRM");
    assert_eq!(Usages::item().union(Usages::metronome()).display(), "I  M");
}

#[test]
fn usages_insert_then_contains() {
    let mut u = Usages::empty();
    assert!(!u.contains(Usages::item()));
    assert!(u.contains(Usages::empty()));
    u.insert(Usages::item());
    assert!(u.contains(Usages::item()));
    assert!(!u.contains(Usages::plugin()));
    u.insert(Usages::plugin());
    assert!(u.contains(Usages::item()));
    assert!(u.contains(Usages::plugin()));
    assert!(u.contains(Usages::item().union(Usages::plugin())));
    let before = u;
    u.insert(Usages::plugin());
    assert_eq!(u, before);
    assert_eq!(u.bits(), ITEM_BITS | PLUGIN_BITS);
}

#[test]
fn path_usages_merge_flags_per_path() {
    let mut m = PathUsages::new();
    assert_eq!(m.len(), 0);
    m.add("a.wav", Usages::item());
    m.add("b.wav", Usages::plugin());
    m.add("a.wav", Usages::plugin());
    m.add("a.wav", Usages::item());
    assert_eq!(m.len(), 2);
    assert_eq!(m.get("a.wav").map(|u| u.bits()), Some(ITEM_BITS | PLUGIN_BITS));
    assert_eq!(m.get("b.wav").map(|u| u.bits()), Some(PLUGIN_BITS));
    assert_eq!(m.get("c.wav"), None);
    let entries: Vec<(&str, u8)> = m.entries().iter().map(|(p, u)| (p.as_str(), u.bits())).collect();
    assert_eq!(entries, vec![("a.wav", ITEM_BITS | PLUGIN_BITS), ("b.wav", PLUGIN_BITS)]);
}

#[test]
fn path_usages_distinguish_paths_by_text() {
    let mut m = PathUsages::new();
    m.add("Audio", Usages::record_path());
    m.add("audio", Usages::record_path());
    m.add("", Usages::item());
    assert_eq!(m.len(), 3);
    assert_eq!(m.get("").map(|u| u.bits()), Some(ITEM_BITS));
}

#[test]
fn parse_i64_reads_signed_decimals() {
    assert_eq!(parse_i64("1720945588"), Some(1720945588));
    assert_eq!(parse_i64("+5"), Some(5));
    assert_eq!(parse_i64("-0"), Some(0));
    assert_eq!(parse_i64("-42"), Some(-42));
    assert_eq!(parse_i64("007"), Some(7));
    assert_eq!(parse_i64("9223372036854775807"), Some(i64::MAX));
    assert_eq!(parse_i64("-9223372036854775808"), Some(i64::MIN));
    assert_eq!(parse_i64("9223372036854775808"), None);
    assert_eq!(parse_i64("-9223372036854775809"), None);
    assert_eq!(parse_i64("123456789012345678901234567890"), None);
    assert_eq!(parse_i64(""), None);
    assert_eq!(parse_i64("-"), None);
    assert_eq!(parse_i64("+"), None);
    assert_eq!(parse_i64(" 1"), None);
    assert_eq!(parse_i64("1 "), None);
    assert_eq!(parse_i64("1a"), None);
    assert_eq!(parse_i64("0.1"), None);
    assert_eq!(parse_i64("--1"), None);
}

#[test]
fn parse_i64_agrees_with_std() {
    for s in ["0", "12", "-12", "+12", "x", "", "99999999999999999999", "-", "1_000", "٣"] {
        assert_eq!(parse_i64(s), s.parse::<i64>().ok(), "{s:?}");
    }
}

#[test]
fn control_characters() {
    for c in ['\u{0}', '\u{1}', '\n', '\r', '\u{1f}', '\u{7f}', '\u{80}', '\u{9f}'] {
        assert!(is_control(c));
        assert_eq!(is_control(c), c.is_control());
    }
    for c in [' ', 'a', '\u{a0}', '\u{20}', '\u{7e}', 'é'] {
        assert!(!is_control(c));
        assert_eq!(is_control(c), c.is_control());
    }
}

#[test]
fn args_keep_the_path() {
    let a = Args::new("D:\\Audio Projects".to_string());
    assert_eq!(a.path(), "D:\\Audio Projects");
}

#[test]
fn path_usages_merge_paths_that_compare_equal() {
    let mut m = PathUsages::new();
    m.add("a/b", Usages::record_path());
    m.add("a/b/", Usages::item());
    m.add("a//b", Usages::plugin());
    m.add("a/./b/.", Usages::item());
    m.add("./a/b", Usages::item());
    assert_eq!(m.len(), 2);
    let entries: Vec<(&str, u8)> = m.entries().iter().map(|(p, u)| (p.as_str(), u.bits())).collect();
    assert_eq!(
        entries,
        vec![("./a/b", ITEM_BITS), ("a/b", RECORD_PATH_BITS | ITEM_BITS | PLUGIN_BITS)]
    );
    assert_eq!(m.get("a/b//").map(|u| u.bits()), Some(RECORD_PATH_BITS | ITEM_BITS | PLUGIN_BITS));
}

const SAMPLE_PATHS: &[&str] = &[
    "", ".", "./", "..", "../a", "/", "//", "/a", "a", "a/", "a//b", "a/./b", "a/b", "a/b/.",
    "./a/b", "a/../b", "a/..", ".a", "a.", "...", "a/.b", "A", "b", "ab", "a b", "\\x", "/.",
    "/..", "./.", ".//a", "é", "z/é", "a/b/c", "a/bc", "a/b/c/", "x/y", "\u{10000}", "\u{ffff}",
];

#[test]
fn path_usages_key_equality_is_path_equality() {
    for a in SAMPLE_PATHS {
        for b in SAMPLE_PATHS {
            let mut m = PathUsages::new();
            m.add(a, Usages::item());
            m.add(b, Usages::plugin());
            let same = Path::new(a) == Path::new(b);
            assert_eq!(m.len() == 1, same, "{a:?} {b:?}");
        }
    }
}

#[test]
fn path_usages_entries_in_path_order() {
    let mut m = PathUsages::new();
    let mut expected: BTreeMap<&Path, &str> = BTreeMap::new();
    for p in SAMPLE_PATHS.iter().rev() {
        m.add(p, Usages::item());
        expected.entry(Path::new(p)).or_insert(p);
    }
    let got: Vec<&str> = m.entries().iter().map(|(p, _)| p.as_str()).collect();
    let want: Vec<&str> = expected.values().copied().collect();
    assert_eq!(got, want);
}

#[test]
fn usages_bitflags_operations() {
    let mut u = Usages::all();
    assert_eq!(u.bits(), ITEM_BITS | PLUGIN_BITS | RECORD_PATH_BITS | METRONOME_BITS);
    assert!(!u.is_empty());
    u.remove(Usages::plugin());
    assert!(!u.contains(Usages::plugin()));
    assert!(u.contains(Usages::item()));
    assert_eq!(u.bits(), ITEM_BITS | RECORD_PATH_BITS | METRONOME_BITS);
    assert!(Usages::default().is_empty());
    assert_eq!(Usages::default(), Usages::empty());
    assert_eq!((Usages::item() | Usages::plugin()).bits(), ITEM_BITS | PLUGIN_BITS);
}

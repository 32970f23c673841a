use rpp_scan::files::is_rpp_name;
use std::path::Path;

#[test]
fn rpp_names_by_extension() {
    for (name, want) in [
        ("song.rpp", true),
        ("Song.RPP", true),
        ("a.b.RpP", true),
        (".rpp", false),
        ("rpp", false),
        ("song.rpp-bak", false),
        ("song.rpp.bak", false),
        ("song.rp", false),
        ("songrpp", false),
        ("x.rpq", false),
        ("..rpp", true),
        ("", false),
    ] {
        assert_eq!(is_rpp_name(name.as_bytes()), want, "{name:?}");
    }
}

#[test]
fn rpp_names_agree_with_path_extension() {
    for name in [
        "a.rpp", "A.RPP", ".rpp", "..rpp", "a..rpp", "rpp", "a.rppx", "a.xrpp", "a rpp", "é.rPp",
        "a.rpp.", "x", ".", "..", "...rpp",
    ] {
        let std_says = Path::new(name)
            .extension()
            .is_some_and(|ext| ext.eq_ignore_ascii_case("rpp"));
        assert_eq!(is_rpp_name(name.as_bytes()), std_says, "{name:?}");
    }
}

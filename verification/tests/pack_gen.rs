use mc_translator::file::pack_gen::{goes_in_pack, output_destination, output_path_from_parts};

fn dest(name: &str) -> (String, bool) {
    output_destination(name, "en_us", "zh_tw")
}

#[test]
fn test_output_destination_bundle_without_folder() {
    assert_eq!(dest("[BUNDLE]en_us.json"), ("assets/unknown/lang/zh_tw.json".to_string(), true));
}

#[test]
fn test_output_destination_bundle_absolute_paths() {
    assert_eq!(
        dest("[BUNDLE]/tmp/pack_gen_tests/1/modname/en_us.json"),
        ("assets/modname/lang/zh_tw.json".to_string(), true)
    );
    assert_eq!(
        dest("[BUNDLE]/tmp/pack_gen_tests/1/modname2/custom.json"),
        ("assets/modname2/lang/zh_tw.json".to_string(), true)
    );
}

#[test]
fn test_output_destination_patchouli_book() {
    assert_eq!(
        dest("assets/modname/patchouli_books/book/en_us/book.json"),
        ("assets/modname/patchouli_books/book/zh_tw/book.json".to_string(), true)
    );
}

#[test]
fn test_output_destination_mirrored_files() {
    assert_eq!(dest("scripts/a.js"), ("scripts/a.js".to_string(), false));
    assert_eq!(dest("config/en_us.json"), ("config/zh_tw.json".to_string(), false));
    assert_eq!(dest("../evil/a.js"), ("evil/a.js".to_string(), false));
    assert_eq!(
        dest("assets/m/lang/en_us.json"),
        ("assets/m/lang/zh_tw.json".to_string(), true)
    );
    assert_eq!(dest("assets\\m\\lang\\en_us.json").1, true);
}

#[test]
fn test_output_path_from_parts_is_platform_free() {
    assert_eq!(
        output_path_from_parts(
            "[BUNDLE]C:\\mods\\foo\\en_us.json",
            "en_us",
            "zh_tw",
            true,
            true,
            Some("en_us.json".to_string()),
            Some("foo".to_string()),
        ),
        "assets/foo/lang/zh_tw.json"
    );
    assert_eq!(
        output_path_from_parts("[BUNDLE]x.json", "en_us", "zh_tw", false, false, None, None),
        "assets/unknown/lang/zh_tw.json"
    );
    assert_eq!(
        output_path_from_parts("[BUNDLE]x.json", "en_us", "ja_jp", false, true, Some("x.json".to_string()), None),
        "assets/unknown/lang/ja_jp.json"
    );
    assert_eq!(
        output_path_from_parts("kubejs/en_us.json.bak", "en_us", "zh_tw", false, true, None, None),
        "kubejs/en_us.json.bak"
    );
}

#[test]
fn test_goes_in_pack_rules() {
    assert!(goes_in_pack("[BUNDLE]a/b.json"));
    assert!(!goes_in_pack("[BUNDLE]a/b.js"));
    assert!(goes_in_pack("x/patchouli_books/b/en_us/p.json"));
    assert!(!goes_in_pack("config/x.json"));
}

#[test]
fn test_output_destination_drops_parent_and_root_components() {
    let (p, in_pack) = output_destination("assets/../../x.json", "en_us", "zh_tw");
    assert!(in_pack);
    let sep = std::path::MAIN_SEPARATOR.to_string();
    assert_eq!(p, ["assets", "x.json"].join(&sep));
    let (p, _) = output_destination("./a/./b.txt", "en_us", "zh_tw");
    assert_eq!(p, ["a", "b.txt"].join(&sep));
    assert!(!std::path::Path::new(&p).is_absolute());
}

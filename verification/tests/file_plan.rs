use mc_translator::file::plan::{
    extension_of, group_key, group_key_path, group_order, group_windows, item_order, key_equal,
    key_less,
};
use mc_translator::translation::batching::GlobalBatchItem;

fn chars(s: &str) -> Vec<char> {
    s.chars().collect()
}

fn key(parts: &[&str]) -> Vec<String> {
    parts.iter().map(|p| p.to_string()).collect()
}

#[test]
fn test_extension_of_follows_path_rules() {
    assert_eq!(extension_of(&chars("a.jar")), Some(chars("jar")));
    assert_eq!(extension_of(&chars("x.tar.gz")), Some(chars("gz")));
    assert_eq!(extension_of(&chars("foo.")), Some(chars("")));
    assert_eq!(extension_of(&chars(".bashrc")), None);
    assert_eq!(extension_of(&chars("noext")), None);
    assert_eq!(extension_of(&chars("")), None);
}

#[test]
fn test_group_key_path_archive_or_folder() {
    assert_eq!(
        group_key_path("mods/a.JAR", Some("a.JAR".to_string()), Some("mods".to_string())),
        "mods/a.JAR"
    );
    assert_eq!(
        group_key_path(
            "assets/x/lang/en_us.json",
            Some("en_us.json".to_string()),
            Some("assets/x/lang".to_string())
        ),
        "assets/x/lang"
    );
    assert_eq!(group_key_path("weird", Some("weird".to_string()), None), "weird");
}

#[test]
fn test_group_key_components() {
    assert_eq!(group_key("/tmp/mods/a.jar"), key(&["/", "tmp", "mods", "a.jar"]));
    assert_eq!(group_key("assets/lang/en.json"), key(&["assets", "lang"]));
    assert!(group_key("").is_empty());
}

#[test]
fn test_key_order_is_by_component() {
    assert!(key_less(&key(&["a", "b"]), &key(&["a", "c"])));
    assert!(key_less(&key(&["a"]), &key(&["a", "b"])));
    // "a/b" sorts before "a-b" as paths, since "a" < "a-b"
    assert!(key_less(&key(&["a", "b"]), &key(&["a-b"])));
    assert!(!key_less(&key(&["a", "b"]), &key(&["a", "b"])));
    assert!(key_equal(&key(&["a", "b"]), &key(&["a", "b"])));
    assert!(!key_equal(&key(&["a"]), &key(&["a", "b"])));
}

#[test]
fn test_group_order_is_stable() {
    let keys = vec![key(&["b"]), key(&["a"]), key(&["b"]), key(&["a"])];
    assert_eq!(group_order(&keys), vec![1, 3, 0, 2]);
    assert!(group_order(&Vec::new()).is_empty());
}

#[test]
fn test_group_windows_runs() {
    let sorted = vec![key(&["a"]), key(&["a"]), key(&["b"])];
    assert_eq!(group_windows(&sorted), vec![(0, 2), (2, 3)]);
    assert!(group_windows(&Vec::new()).is_empty());
    let single = vec![key(&["x"])];
    assert_eq!(group_windows(&single), vec![(0, 1)]);
}

#[test]
fn test_item_order_follows_files() {
    let ids = [0usize, 1, 0, 2];
    let items: Vec<GlobalBatchItem> = ids
        .iter()
        .enumerate()
        .map(|(i, id)| GlobalBatchItem::new(&format!("t{}", i), *id, "f.json", "k"))
        .collect();
    assert_eq!(item_order(&items, &vec![2, 0, 1]), vec![3, 0, 2, 1]);
    assert_eq!(item_order(&items, &vec![0, 0]), vec![0, 2]);
    assert!(item_order(&items, &vec![7]).is_empty());
}

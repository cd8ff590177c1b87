use mc_translator::gui::dictionary_page::{query_dictionary, replace_translations, viewer_page};

fn pairs(v: &[(&str, &str)]) -> Vec<(String, String)> {
    v.iter().map(|(a, b)| (a.to_string(), b.to_string())).collect()
}

#[test]
fn test_query_dictionary_sorts_filters_and_pages() {
    let entries = pairs(&[("b", "x"), ("a", "y"), ("c", "ab")]);
    let p0 = query_dictionary(&entries, "", 0, 2);
    assert_eq!(p0.items, pairs(&[("a", "y"), ("b", "x")]));
    assert_eq!((p0.total_pages, p0.page, p0.page_size), (2, 0, 2));
    let p1 = query_dictionary(&entries, "", 1, 2);
    assert_eq!(p1.items, pairs(&[("c", "ab")]));
    let p2 = query_dictionary(&entries, "", 2, 2);
    assert!(p2.items.is_empty());
    assert_eq!(p2.total_pages, 2);
    let found = query_dictionary(&entries, "a", 0, 0);
    assert_eq!(found.items, pairs(&[("a", "y"), ("c", "ab")]));
    assert_eq!((found.total_pages, found.page_size), (1, 10));
    let huge = query_dictionary(&entries, "", usize::MAX, 3);
    assert!(huge.items.is_empty());
    let none = query_dictionary(&Vec::new(), "", 0, 5);
    assert_eq!(none.total_pages, 0);
}

#[test]
fn test_viewer_page_lowercases_and_resets_page() {
    let entries = pairs(&[("Zebra", "斑馬"), ("apple", "蘋果"), ("Apricot", "杏")]);
    let p = viewer_page(&entries, "AP", 0);
    assert_eq!(p.items, pairs(&[("Apricot", "杏"), ("apple", "蘋果")]));
    assert_eq!((p.total_pages, p.page, p.page_size), (1, 0, 50));
    let past = viewer_page(&entries, "", 7);
    assert_eq!(past.page, 0);
    assert_eq!(past.items.len(), 3);
    let empty = viewer_page(&Vec::new(), "", 0);
    assert_eq!((empty.total_pages, empty.items.len()), (1, 0));
    let many: Vec<(String, String)> = (0..120).map(|i| (format!("k{:03}", i), "v".to_string())).collect();
    let second = viewer_page(&many, "", 2);
    assert_eq!(second.total_pages, 3);
    assert_eq!(second.items.len(), 20);
    assert_eq!(second.items[0].0, "k100");
}

#[test]
fn test_replace_translations_exact_and_partial() {
    let entries = pairs(&[("a", "紅石"), ("b", "紅石粉"), ("c", "鐵")]);
    let (kept, changed) = replace_translations(&entries, "紅石", "赤石", true);
    assert_eq!(kept, pairs(&[("b", "紅石粉"), ("c", "鐵")]));
    assert_eq!(changed, pairs(&[("a", "赤石")]));
    let (kept, changed) = replace_translations(&entries, "紅石", "赤石", false);
    assert_eq!(kept, pairs(&[("c", "鐵")]));
    assert_eq!(changed, pairs(&[("a", "赤石"), ("b", "赤石粉")]));
    let (kept, changed) = replace_translations(&entries, "", "x", false);
    assert_eq!(kept, entries);
    assert!(changed.is_empty());
}

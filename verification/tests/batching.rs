use mc_translator::translation::batching::{
    build_tagged_batch_texts, create_adaptive_batches_from_indices, GlobalBatchItem,
};

#[test]
fn test_create_adaptive_batches_from_indices_limits() {
    let mut items = Vec::new();
    for i in 1..=5 {
        items.push(GlobalBatchItem::new(
            &format!("Item {}", i),
            i,
            "test.json",
            &format!("k{}", i),
        ));
    }

    let indices = vec![0, 1, 2, 3, 4];

    let batches = create_adaptive_batches_from_indices(&items, &indices, 2, 1000);
    assert_eq!(batches.len(), 3);
    assert_eq!(batches[0], vec![0, 1]);
    assert_eq!(batches[1], vec![2, 3]);
    assert_eq!(batches[2], vec![4]);

    let batches_chars = create_adaptive_batches_from_indices(&items, &indices, 10, 13);
    assert_eq!(batches_chars.len(), 3);
    assert_eq!(batches_chars[0], vec![0, 1]);
    assert_eq!(batches_chars[1], vec![2, 3]);
    assert_eq!(batches_chars[2], vec![4]);
}

#[test]
fn new_item_starts_untranslated() {
    let item = GlobalBatchItem::new("Apple", 7, "lang/en_us.json", "item.apple");
    assert_eq!(item.original, "Apple");
    assert_eq!(item.preprocessed, "Apple");
    assert!(item.markers.is_empty());
    assert_eq!(item.file_id, 7);
    assert_eq!(item.rel_path, "lang/en_us.json");
    assert_eq!(item.key, "item.apple");
    assert!(item.translated.is_none());
    assert!(item.alt_source.is_none());
}

#[test]
fn oversized_item_gets_a_batch_of_its_own() {
    let items = vec![
        GlobalBatchItem::new("short", 0, "a", "k0"),
        GlobalBatchItem::new("a much longer text than the limit", 0, "a", "k1"),
        GlobalBatchItem::new("tiny", 0, "a", "k2"),
    ];
    let batches = create_adaptive_batches_from_indices(&items, &[0, 1, 2], 10, 10);
    assert_eq!(batches, vec![vec![0], vec![1], vec![2]]);
}

#[test]
fn batches_cover_indices_in_order_with_zero_limit() {
    let items: Vec<GlobalBatchItem> = (0..4)
        .map(|i| GlobalBatchItem::new("x", i, "a", "k"))
        .collect();
    let batches = create_adaptive_batches_from_indices(&items, &[3, 1, 2], 0, 100);
    assert_eq!(batches, vec![vec![3], vec![1], vec![2]]);
    let empty = create_adaptive_batches_from_indices(&items, &[], 5, 100);
    assert!(empty.is_empty());
}

#[test]
fn batch_bytes_count_utf8_length() {
    let items = vec![
        GlobalBatchItem::new("蘋果", 0, "a", "k0"),
        GlobalBatchItem::new("香蕉", 0, "a", "k1"),
    ];
    let batches = create_adaptive_batches_from_indices(&items, &[0, 1], 10, 11);
    assert_eq!(batches, vec![vec![0], vec![1]]);
    let together = create_adaptive_batches_from_indices(&items, &[0, 1], 10, 12);
    assert_eq!(together, vec![vec![0, 1]]);
}

#[test]
fn tagged_texts_skip_repeated_texts() {
    let items = vec![
        GlobalBatchItem::new("Apple", 0, "a", "k0"),
        GlobalBatchItem::new("Pear", 0, "a", "k1"),
        GlobalBatchItem::new("Apple", 1, "b", "k2"),
        GlobalBatchItem::new("Plum", 1, "b", "k3"),
    ];
    let (tagged, texts) = build_tagged_batch_texts(&items, &[2, 1, 0, 3]);
    assert_eq!(tagged, vec!["[i0]Apple", "[i1]Pear", "[i3]Plum"]);
    assert_eq!(texts, vec!["Apple", "Pear", "Plum"]);
}

use mc_translator::translation::batching::{
    batch_outcome, convert_pending_fast, fast_convert_mode, pending_indices, retry_limits,
    FastConvert,
};
use mc_translator::translation::glossary::automaton::GlossaryAutomaton;

#[test]
fn pending_skips_translated_items() {
    let mut items = vec![
        GlobalBatchItem::new("a", 0, "f", "k0"),
        GlobalBatchItem::new("b", 0, "f", "k1"),
        GlobalBatchItem::new("c", 0, "f", "k2"),
    ];
    items[1].translated = Some("乙".to_string());
    assert_eq!(pending_indices(&items), vec![0, 2]);
    let (ok, failed) = batch_outcome(&items, &[2, 1, 0]);
    assert_eq!(ok, 1);
    assert_eq!(failed, vec![2, 0]);
}

#[test]
fn fast_convert_modes() {
    assert_eq!(fast_convert_mode(true, "zh_cn", "zh_tw"), FastConvert::WholeBatch { to_tw: true });
    assert_eq!(fast_convert_mode(true, "zh_tw", "zh_cn"), FastConvert::WholeBatch { to_tw: false });
    assert_eq!(fast_convert_mode(true, "en_us", "zh_tw"), FastConvert::FromSibling { to_tw: true });
    assert_eq!(fast_convert_mode(true, "zh_tw", "zh_tw"), FastConvert::FromSibling { to_tw: true });
    assert_eq!(fast_convert_mode(false, "zh_cn", "zh_tw"), FastConvert::Off);
    assert_eq!(fast_convert_mode(true, "en_us", "ja_jp"), FastConvert::Off);
}

#[test]
fn retry_batches_are_halved_with_floors() {
    assert_eq!(retry_limits(150, 3500), (75, 1750));
    assert_eq!(retry_limits(1, 150), (1, 100));
    assert_eq!(retry_limits(0, 0), (1, 100));
}

#[test]
fn sibling_texts_are_converted() {
    let automaton = GlossaryAutomaton::new(&Vec::new(), &Vec::new());
    let mut items = vec![
        GlobalBatchItem::new("Apple", 0, "f", "k0"),
        GlobalBatchItem::new("Pear", 0, "f", "k1"),
    ];
    items[0].alt_source = Some("苹果".to_string());
    let pending = pending_indices(&items);
    let n = convert_pending_fast(&mut items, &pending, &automaton, FastConvert::FromSibling { to_tw: true });
    assert_eq!(n, 1);
    assert_eq!(items[0].translated.as_deref(), Some("蘋果"));
    assert!(items[1].translated.is_none());
    let n = convert_pending_fast(&mut items, &vec![1], &automaton, FastConvert::Off);
    assert_eq!(n, 0);
}

#[test]
fn fast_pair_run_needs_no_service_and_ends_one_of_one() {
    use_fast_pair();
}

fn use_fast_pair() {
    let automaton = GlossaryAutomaton::new(&Vec::new(), &Vec::new());
    let mut items = vec![
        GlobalBatchItem::new("苹果", 0, "f", "k0"),
        GlobalBatchItem::new("简体", 0, "f", "k1"),
    ];
    let pending = pending_indices(&items);
    let mode = fast_convert_mode(true, "zh_cn", "zh_tw");
    let n = convert_pending_fast(&mut items, &pending, &automaton, mode);
    assert_eq!(n, 2);
    assert_eq!(items[0].translated.as_deref(), Some("蘋果"));
    assert_eq!(items[1].translated.as_deref(), Some("簡體"));
    let rest = pending_indices(&items);
    let mut run = mc_translator::translation::batch_run::BatchRun::start(&items, &rest, 10, 1000, 7);
    assert_eq!((run.total_batches, run.current_batch, run.progress), (1, 1, 9));
    assert!(matches!(run.next_step(&items, false), mc_translator::translation::batch_run::RunStep::Done));
}

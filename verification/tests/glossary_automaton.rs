use mc_translator::translation::batching::apply_glossary_then_hanconv;
use mc_translator::translation::glossary::automaton::{GlossaryAutomaton, GlossaryEntry, TermType};

fn pairs(v: &[(&str, &str)]) -> Vec<(String, String)> {
    v.iter().map(|(a, b)| (a.to_string(), b.to_string())).collect()
}

fn get<'a>(m: &'a [(String, (String, TermType))], k: &str) -> Option<&'a (String, TermType)> {
    m.iter().find(|(a, _)| a == k).map(|(_, v)| v)
}

#[test]
fn test_glossary_match_standard() {
    let exact = pairs(&[("Apple", "蘋果"), ("Stone", "石頭")]);
    let (automaton, _) = GlossaryAutomaton::new_with_inferred(&exact, &Vec::new(), "official");
    let results = automaton.extract(&["I have an Apple and some Stone".to_string()]);
    assert!(get(&results, "apple").is_some());
    assert_eq!(get(&results, "apple").unwrap().0, "蘋果");
    assert!(get(&results, "stone").is_some());
}

#[test]
fn test_glossary_match_utf8() {
    let exact = pairs(&[("❄️ Ice方塊", "冰塊")]);
    let (automaton, _) = GlossaryAutomaton::new_with_inferred(&exact, &Vec::new(), "official");
    let results = automaton.extract(&["這是一個 ❄️ Ice方塊 在這裡".to_string()]);
    assert!(get(&results, "❄️ ice方塊").is_some());
    assert_eq!(get(&results, "❄️ ice方塊").unwrap().0, "冰塊");
}

#[test]
fn test_glossary_circular_definition_safety() {
    let exact = pairs(&[("A", "B"), ("B", "A")]);
    let (automaton, _) = GlossaryAutomaton::new_with_inferred(&exact, &Vec::new(), "official");
    let results = automaton.extract(&["A and B".to_string()]);
    assert!(get(&results, "a").is_some());
    assert!(get(&results, "b").is_some());
}

#[test]
fn terms_inside_words_are_not_found() {
    let exact = pairs(&[("Iron", "鐵")]);
    let automaton = GlossaryAutomaton::new(&exact, &Vec::new());
    let results = automaton.extract(&["Ironwood and IRON".to_string(), "Environment".to_string()]);
    assert_eq!(results.len(), 1);
    assert_eq!(get(&results, "iron").unwrap(), &("鐵".to_string(), TermType::Official));
}

#[test]
fn priority_decides_which_translation_wins() {
    let exact = pairs(&[("Apple", "蘋果")]);
    let memory = pairs(&[("apple", "林檎"), ("123", "數字")]);
    let official = GlossaryAutomaton::new_with_terms(&exact, &memory, &Vec::new(), "official");
    let user = GlossaryAutomaton::new_with_terms(&exact, &memory, &Vec::new(), "user");
    assert_eq!(official.entries.len(), 1);
    assert_eq!(official.entries[0].translated, "蘋果");
    assert_eq!(user.entries[0].translated, "林檎");
}

#[test]
fn inferred_terms_come_last_and_longest_first() {
    let exact = pairs(&[("Oak", "橡木")]);
    let inferred = pairs(&[("oak", "不用"), ("Birch Planks", "白樺木材")]);
    let a = GlossaryAutomaton::new_with_terms(&exact, &Vec::new(), &inferred, "official");
    let got: Vec<(String, TermType)> = a
        .entries
        .iter()
        .map(|e: &GlossaryEntry| (e.original.clone(), e.source))
        .collect();
    assert_eq!(
        got,
        vec![("birch planks".to_string(), TermType::Inferred), ("oak".to_string(), TermType::Official)]
    );
}

#[test]
fn glossary_then_script_conversion() {
    let exact = pairs(&[("Apple", "苹果")]);
    let automaton = GlossaryAutomaton::new(&exact, &Vec::new());
    assert_eq!(apply_glossary_then_hanconv("Apple", &automaton, true), "蘋果");
    let back = GlossaryAutomaton::new(&pairs(&[("Apple", "蘋果")]), &Vec::new());
    assert_eq!(apply_glossary_then_hanconv("Apple", &back, false), "苹果");
    assert_eq!(apply_glossary_then_hanconv("无", &automaton, true), "無");
}

fn entry_for<'a>(a: &'a GlossaryAutomaton, k: &str) -> Option<&'a GlossaryEntry> {
    a.entries.iter().find(|e| e.original == k)
}

#[test]
fn test_glossary_priority_picks_whose_translation() {
    let exact = pairs(&[("Stone", "石頭")]);
    let memory = pairs(&[("stone", "岩石"), ("Gear", "齒輪")]);
    let inferred = pairs(&[("stone", "石"), ("ore", "礦")]);
    let user = GlossaryAutomaton::new_with_terms(&exact, &memory, &inferred, "user");
    assert_eq!(entry_for(&user, "stone").unwrap().translated, "岩石");
    let official = GlossaryAutomaton::new_with_terms(&exact, &memory, &inferred, "official");
    assert_eq!(entry_for(&official, "stone").unwrap().translated, "石頭");
    let ore = entry_for(&official, "ore").unwrap();
    assert_eq!(ore.translated, "礦");
    assert!(ore.source == TermType::Inferred);
    assert_eq!(official.entries.iter().filter(|e| e.original == "stone").count(), 1);
}

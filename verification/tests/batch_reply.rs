use mc_translator::translation::api::batch_reply::{
    batch_reply_json_first, batch_reply_translations, read_batch_reply,
};

fn texts(t: &[&str]) -> Vec<String> {
    t.iter().map(|s| s.to_string()).collect()
}

fn pairs(p: &[(&str, &str)]) -> Vec<(String, String)> {
    p.iter().map(|(a, b)| (a.to_string(), b.to_string())).collect()
}

#[test]
fn json_reply_keeps_numbered_strings() {
    let t = texts(&["a", "b", "c"]);
    let reply = r#"{"1":"甲","3":"","2":"{}","4":"x","01":"乙","+2":{"k":1}}"#;
    assert_eq!(batch_reply_translations(reply, &t, true), pairs(&[("a", "乙"), ("a", "甲")]));
}

#[test]
fn numbered_lines_are_read_when_json_gives_nothing() {
    let t = texts(&["Hello", "World"]);
    let reply = "[1] 你好\n[2]   世界\n[3] x\n[0] y";
    assert_eq!(batch_reply_translations(reply, &t, false), pairs(&[("Hello", "你好"), ("World", "世界")]));
    assert_eq!(batch_reply_translations(reply, &t, true), pairs(&[("Hello", "你好"), ("World", "世界")]));
    assert_eq!(batch_reply_translations("{ broken [1] one", &t, true), pairs(&[("Hello", "one")]));
}

#[test]
fn line_answer_may_start_on_a_later_line() {
    let t = texts(&["a"]);
    assert_eq!(batch_reply_translations("[1]\n  text\n", &t, false), pairs(&[("a", "text")]));
    assert_eq!(batch_reply_translations("[1]  \n", &t, false), pairs(&[("a", " ")]));
    assert_eq!(batch_reply_translations("[1]\n\n", &t, false), pairs(&[]));
    assert_eq!(batch_reply_translations("[x] a [1]b", &t, false), pairs(&[("a", "b")]));
}

#[test]
fn which_replies_are_read_as_json_first() {
    assert!(batch_reply_json_first("Ollama", "[1] a"));
    assert!(batch_reply_json_first("OpenAI", "  {\"1\":\"a\"}"));
    assert!(batch_reply_json_first("Gemini", "see ```json"));
    assert!(!batch_reply_json_first("OpenAI", "[1] a"));
}

#[test]
fn fenced_json_reply_is_read() {
    let t = texts(&["a", "b"]);
    let reply = "Here:\n```json\n{\"1\": \"甲\", \"2\": \"乙\"}\n```";
    assert_eq!(read_batch_reply("OpenAI", reply, &t), pairs(&[("a", "甲"), ("b", "乙")]));
}

//! Reading the reply of a batch request: the service was asked to answer
//! each numbered line `[n] text` with its translation, and answers either
//! with a JSON object keyed by the numbers or with numbered lines.
use vstd::prelude::*;
use crate::json::{parse_json, spec_parse_json, JsonValue};
use crate::text::{
    chars_eq_str, chars_of, char_is_whitespace, parse_decimal_upto, contains_str, parse_unsigned, spec_is_whitespace,
    starts_with_str, string_of, sub_chars, trim, trim_chars,
};
use crate::translation::api::client::{extract_json_from_text, spec_extract_json};
use crate::translation::api::models::string_pairs;
use crate::translation::batching::strings_view;

verus! {

// ---------------------------------------------------------------------------
// The JSON form: {"1": "...", "2": "..."}
// ---------------------------------------------------------------------------

/// An answer worth keeping: not empty and not an empty object's text.
pub open spec fn kept_answer(t: Seq<char>) -> bool {
    t.len() > 0 && t != "{}"@ && t != "{ }"@
}

/// The number a key names among `n` texts (counted from one): the key read
/// as `usize` (see `parse_unsigned`), when it is between 1 and `n`.
pub open spec fn reply_index(k: Seq<char>, n: nat) -> Option<nat> {
    match parse_unsigned(k, 10, n) {
        Some(v) => if v >= 1 {
            Some(v)
        } else {
            None
        },
        None => None,
    }
}

/// The `(text, translation)` pairs of the fields of a JSON reply, in field
/// order: a field whose key names a text and whose value is a kept string.
pub open spec fn json_reply_pairs(fields: Seq<(String, JsonValue)>, texts: Seq<Seq<char>>) -> Seq<
    (Seq<char>, Seq<char>),
>
    decreases fields.len(),
{
    if fields.len() == 0 {
        Seq::empty()
    } else {
        let rest = json_reply_pairs(fields.drop_last(), texts);
        let f = fields.last();
        match (reply_index(f.0@, texts.len()), f.1) {
            (Some(i), JsonValue::String(t)) => if kept_answer(t@) {
                rest.push((texts[i - 1], t@))
            } else {
                rest
            },
            _ => rest,
        }
    }
}

/// The pairs of a reply read as JSON (see `spec_extract_json`): those of its
/// object, none when it holds no JSON object.
pub open spec fn json_reply(reply: Seq<char>, texts: Seq<Seq<char>>) -> Seq<(Seq<char>, Seq<char>)> {
    match spec_extract_json(reply) {
        Some(js) => match spec_parse_json(js) {
            Some(JsonValue::Object(fields)) => json_reply_pairs(fields@, texts),
            _ => Seq::empty(),
        },
        None => Seq::empty(),
    }
}

// ---------------------------------------------------------------------------
// The line form: `[n] translation`
// ---------------------------------------------------------------------------

/// An ASCII digit.
pub open spec fn is_ascii_digit(c: char) -> bool {
    '0' <= c && c <= '9'
}

/// The end of the run of ASCII digits starting at `j`.
pub open spec fn digit_run_end(s: Seq<char>, j: int) -> int
    decreases s.len() - j,
{
    if 0 <= j < s.len() && is_ascii_digit(s[j]) {
        digit_run_end(s, j + 1)
    } else {
        j
    }
}

/// The end of the run of whitespace starting at `j`.
pub open spec fn space_run_end(s: Seq<char>, j: int) -> int
    decreases s.len() - j,
{
    if 0 <= j < s.len() && spec_is_whitespace(s[j]) {
        space_run_end(s, j + 1)
    } else {
        j
    }
}

/// The first `\n` at or after `j`, else the end of the text.
pub open spec fn line_end(s: Seq<char>, j: int) -> int
    decreases s.len() - j,
{
    if 0 <= j < s.len() && s[j] != '\n' {
        line_end(s, j + 1)
    } else {
        j
    }
}

/// The last character before `e`, at or after `j`, that is not `\n`.
pub open spec fn last_non_newline(s: Seq<char>, j: int, e: int) -> Option<int>
    decreases e - j,
{
    if j < e && e <= s.len() {
        if s[e - 1] != '\n' {
            Some(e - 1)
        } else {
            last_non_newline(s, j, e - 1)
        }
    } else {
        None
    }
}

/// The match of `\[(\d+)\]\s*(.+)` that starts at `i`, with ASCII digits:
/// the digits, the translation and where the match ends. The whitespace run
/// is taken whole when a character of a line follows it; when it runs to
/// the end, the translation is its last character that is not `\n`.
pub open spec fn line_match_at(s: Seq<char>, i: int) -> Option<(Seq<char>, Seq<char>, int)> {
    let d = digit_run_end(s, i + 1);
    if !(0 <= i < s.len() && s[i] == '[' && d > i + 1 && d < s.len() && s[d] == ']') {
        None
    } else {
        let w = space_run_end(s, d + 1);
        let k = if w < s.len() {
            Some(w)
        } else {
            last_non_newline(s, d + 1, s.len() as int)
        };
        match k {
            Some(k) => Some((s.subrange(i + 1, d), s.subrange(k, line_end(s, k)), line_end(s, k))),
            None => None,
        }
    }
}

/// The matches from `i` on, left to right, none overlapping: each as its
/// digits and its translation.
pub open spec fn line_scan(s: Seq<char>, i: int) -> Seq<(Seq<char>, Seq<char>)>
    decreases s.len() - i,
{
    if i < 0 || i >= s.len() {
        Seq::empty()
    } else {
        match line_match_at(s, i) {
            Some((d, c, e)) => if i < e <= s.len() {
                seq![(d, c)] + line_scan(s, e)
            } else {
                Seq::empty()
            },
            None => line_scan(s, i + 1),
        }
    }
}

/// The `(text, translation)` pairs of the matches whose number names a text.
pub open spec fn line_pairs(ms: Seq<(Seq<char>, Seq<char>)>, texts: Seq<Seq<char>>) -> Seq<
    (Seq<char>, Seq<char>),
>
    decreases ms.len(),
{
    if ms.len() == 0 {
        Seq::empty()
    } else {
        let rest = line_pairs(ms.drop_last(), texts);
        match reply_index(ms.last().0, texts.len()) {
            Some(i) => rest.push((texts[i - 1], ms.last().1)),
            None => rest,
        }
    }
}

/// What a batch reply gives, as `(text, translation)` pairs in the order a
/// map would take them (a later pair for the same text overrides an earlier
/// one): when the reply is to be read as JSON first and that gives pairs,
/// those; else the pairs of its numbered lines.
pub open spec fn spec_batch_reply(reply: Seq<char>, texts: Seq<Seq<char>>, json_first: bool) -> Seq<
    (Seq<char>, Seq<char>),
> {
    let j = if json_first {
        json_reply(reply, texts)
    } else {
        Seq::empty()
    };
    if j.len() > 0 {
        j
    } else {
        line_pairs(line_scan(reply, 0), texts)
    }
}

/// Whether a reply is read as JSON first: the service is Ollama, or the
/// trimmed reply opens with `{`, or it holds a code fence.
pub open spec fn spec_json_first(provider: Seq<char>, reply: Seq<char>) -> bool {
    ||| provider == "Ollama"@
    ||| (trim(reply).len() > 0 && trim(reply)[0] == '{')
    ||| exists|k: int| 0 <= k && k + 3 <= reply.len() && #[trigger] reply.subrange(k, k + 3) == "```"@
}

// ---------------------------------------------------------------------------
// Executable readers
// ---------------------------------------------------------------------------

/// The number a key names among `n` texts (see `reply_index`).
fn reply_index_exec(k: &Vec<char>, n: usize) -> (r: Option<usize>)
    ensures
        match r {
            Some(v) => reply_index(k@, n as nat) == Some(v as nat),
            None => reply_index(k@, n as nat) is None,
        },
{
    match parse_decimal_upto(k, n) {
        Some(v) => if v >= 1 {
            Some(v)
        } else {
            None
        },
        None => None,
    }
}

/// The pairs of the fields of a JSON reply (see `json_reply_pairs`).
fn json_reply_pairs_exec(fields: &Vec<(String, JsonValue)>, texts: &Vec<String>) -> (r: Vec<(String, String)>)
    ensures
        string_pairs(r@) == json_reply_pairs(fields@, strings_view(texts@)),
{
    let ghost tv = strings_view(texts@);
    let mut out: Vec<(String, String)> = Vec::new();
    let mut i: usize = 0;
    assert(fields@.take(0) =~= Seq::<(String, JsonValue)>::empty());
    while i < fields.len()
        invariant
            i <= fields@.len(),
            tv == strings_view(texts@),
            string_pairs(out@) == json_reply_pairs(fields@.take(i as int), tv),
        decreases fields.len() - i,
    {
        let ghost t = fields@.take(i + 1);
        assert(t.drop_last() =~= fields@.take(i as int));
        assert(t.last() == fields@[i as int]);
        let ghost before = string_pairs(out@);
        match reply_index_exec(&chars_of(fields[i].0.as_str()), texts.len()) {
            Some(idx) => match &fields[i].1 {
                JsonValue::String(s) => {
                    let sv = chars_of(s.as_str());
                    if sv.len() > 0 && !chars_eq_str(&sv, "{}") && !chars_eq_str(&sv, "{ }") {
                        let text = texts[idx - 1].clone();
                        let ghost p = (text@, s@);
                        out.push((text, s.clone()));
                        assert(string_pairs(out@) =~= before.push(p));
                    }
                },
                _ => {},
            },
            None => {},
        }
        i = i + 1;
    }
    assert(fields@.take(fields@.len() as int) =~= fields@);
    out
}

fn digit_run_end_exec(s: &Vec<char>, j: usize) -> (r: usize)
    requires
        j <= s@.len(),
    ensures
        r as int == digit_run_end(s@, j as int),
        j <= r <= s@.len(),
    decreases s@.len() - j,
{
    if j < s.len() && '0' <= s[j] && s[j] <= '9' {
        digit_run_end_exec(s, j + 1)
    } else {
        j
    }
}

fn space_run_end_exec(s: &Vec<char>, j: usize) -> (r: usize)
    requires
        j <= s@.len(),
    ensures
        r as int == space_run_end(s@, j as int),
        j <= r <= s@.len(),
        r < s@.len() ==> !spec_is_whitespace(s@[r as int]),
    decreases s@.len() - j,
{
    if j < s.len() && char_is_whitespace(s[j]) {
        space_run_end_exec(s, j + 1)
    } else {
        j
    }
}

fn line_end_exec(s: &Vec<char>, j: usize) -> (r: usize)
    requires
        j <= s@.len(),
    ensures
        r as int == line_end(s@, j as int),
        j <= r <= s@.len(),
        j < s@.len() && s@[j as int] != '\n' ==> r > j,
    decreases s@.len() - j,
{
    if j < s.len() && s[j] != '\n' {
        line_end_exec(s, j + 1)
    } else {
        j
    }
}

fn last_non_newline_exec(s: &Vec<char>, j: usize, e: usize) -> (r: Option<usize>)
    requires
        e <= s@.len(),
    ensures
        match r {
            Some(k) => last_non_newline(s@, j as int, e as int) == Some(k as int) && j <= k < e && s@[k as int] != '\n',
            None => last_non_newline(s@, j as int, e as int) is None,
        },
    decreases e,
{
    if j < e {
        if s[e - 1] != '\n' {
            Some(e - 1)
        } else {
            last_non_newline_exec(s, j, e - 1)
        }
    } else {
        None
    }
}

/// The match starting at `i` (see `line_match_at`): the digits' range, the
/// translation's start and the match's end.
fn line_match_at_exec(s: &Vec<char>, i: usize) -> (r: Option<(usize, usize, usize)>)
    requires
        i < s@.len(),
    ensures
        match r {
            Some((d, k, e)) => line_match_at(s@, i as int) == Some(
                (s@.subrange(i + 1, d as int), s@.subrange(k as int, e as int), e as int),
            ) && i + 1 < d < k <= e <= s@.len() && k < e,
            None => line_match_at(s@, i as int) is None,
        },
{
    let n = s.len();
    if s[i] != '[' {
        return None;
    }
    let d = digit_run_end_exec(s, i + 1);
    if !(d > i + 1 && d < s.len() && s[d] == ']') {
        return None;
    }
    let w = space_run_end_exec(s, d + 1);
    let k = if w < s.len() {
        w
    } else {
        match last_non_newline_exec(s, d + 1, s.len()) {
            Some(k) => k,
            None => {
                return None;
            },
        }
    };
    let e = line_end_exec(s, k);
    proof {
        if w < s.len() {
            assert(!spec_is_whitespace(s@[w as int]));
            assert(spec_is_whitespace('\n')) by {
                assert(('\n' as u32) == 0x0a);
            }
            assert(s@[w as int] != '\n');
        }
        assert(s@[k as int] != '\n');
    }
    Some((d, k, e))
}

/// The `[n] translation` matches of a reply (see `line_scan`), as
/// `(digits, translation)`.
fn line_scan_exec(s: &Vec<char>) -> (r: Vec<(Vec<char>, Vec<char>)>)
    ensures
        r@.map_values(|p: (Vec<char>, Vec<char>)| (p.0@, p.1@)) == line_scan(s@, 0),
{
    let mut out: Vec<(Vec<char>, Vec<char>)> = Vec::new();
    let mut i: usize = 0;
    while i < s.len()
        invariant
            i <= s@.len(),
            out@.map_values(|p: (Vec<char>, Vec<char>)| (p.0@, p.1@)) + line_scan(s@, i as int) == line_scan(
                s@,
                0,
            ),
        decreases s@.len() - i,
    {
        let ghost before = out@.map_values(|p: (Vec<char>, Vec<char>)| (p.0@, p.1@));
        match line_match_at_exec(s, i) {
            Some((d, k, e)) => {
                let digits = sub_chars(s, i + 1, d);
                let text = sub_chars(s, k, e);
                let ghost p = (digits@, text@);
                out.push((digits, text));
                assert(out@.map_values(|p: (Vec<char>, Vec<char>)| (p.0@, p.1@)) =~= before.push(p));
                assert(line_scan(s@, i as int) == seq![p] + line_scan(s@, e as int));
                assert(before.push(p) + line_scan(s@, e as int) =~= before + (seq![p] + line_scan(
                    s@,
                    e as int,
                )));
                i = e;
            },
            None => {
                i = i + 1;
            },
        }
    }
    assert(line_scan(s@, i as int) =~= Seq::<(Seq<char>, Seq<char>)>::empty());
    assert(out@.map_values(|p: (Vec<char>, Vec<char>)| (p.0@, p.1@)) + Seq::<(Seq<char>, Seq<char>)>::empty()
        =~= out@.map_values(|p: (Vec<char>, Vec<char>)| (p.0@, p.1@)));
    out
}

/// Whether a reply is read as JSON first (see `spec_json_first`).
pub fn batch_reply_json_first(provider: &str, reply: &str) -> (r: bool)
    ensures
        r == spec_json_first(provider@, reply@),
{
    let rv = chars_of(reply);
    let t = trim_chars(&rv);
    let opens = t.len() > 0 && t[0] == '{';
    let fenced = contains_str(&rv, "```");
    proof {
        reveal_strlit("```");
        reveal_strlit("Ollama");
    }
    let ollama = chars_eq_str(&chars_of(provider), "Ollama");
    proof {
        if fenced {
            let k = choose|k: int| crate::text::occurs_at("```"@, rv@, k);
            assert(rv@.subrange(k, k + 3) == "```"@);
        }
        if exists|k: int| 0 <= k && k + 3 <= rv@.len() && #[trigger] rv@.subrange(k, k + 3) == "```"@ {
            let k = choose|k: int| 0 <= k && k + 3 <= rv@.len() && #[trigger] rv@.subrange(k, k + 3) == "```"@;
            assert(crate::text::occurs_at("```"@, rv@, k));
        }
    }
    ollama || opens || fenced
}

/// The `(text, translation)` pairs of a batch reply to the numbered `texts`
/// (see `spec_batch_reply`): a later pair for the same text overrides an
/// earlier one. Digits are ASCII digits; a `[n]` written with other decimal
/// digits names no text.
pub fn batch_reply_translations(reply: &str, texts: &Vec<String>, json_first: bool) -> (r: Vec<(String, String)>)
    ensures
        string_pairs(r@) == spec_batch_reply(reply@, strings_view(texts@), json_first),
{
    let ghost tv = strings_view(texts@);
    if json_first {
        match extract_json_from_text(reply) {
            Some(js) => match parse_json(js.as_str()) {
                Some(JsonValue::Object(fields)) => {
                    let pairs = json_reply_pairs_exec(&fields, texts);
                    if pairs.len() > 0 {
                        return pairs;
                    }
                },
                _ => {},
            },
            None => {},
        }
    }
    let s = chars_of(reply);
    let ms = line_scan_exec(&s);
    let mut out: Vec<(String, String)> = Vec::new();
    let mut i: usize = 0;
    let ghost mv = ms@.map_values(|p: (Vec<char>, Vec<char>)| (p.0@, p.1@));
    assert(mv.take(0) =~= Seq::<(Seq<char>, Seq<char>)>::empty());
    while i < ms.len()
        invariant
            i <= ms@.len(),
            mv == ms@.map_values(|p: (Vec<char>, Vec<char>)| (p.0@, p.1@)),
            tv == strings_view(texts@),
            string_pairs(out@) == line_pairs(mv.take(i as int), tv),
        decreases ms.len() - i,
    {
        let ghost t = mv.take(i + 1);
        assert(t.drop_last() =~= mv.take(i as int));
        assert(t.last() == mv[i as int]);
        let ghost before = string_pairs(out@);
        match reply_index_exec(&ms[i].0, texts.len()) {
            Some(idx) => {
                let text = texts[idx - 1].clone();
                let tr = string_of(&ms[i].1);
                let ghost p = (text@, tr@);
                out.push((text, tr));
                assert(string_pairs(out@) =~= before.push(p));
            },
            None => {},
        }
        i = i + 1;
    }
    assert(mv.take(mv.len() as int) =~= mv);
    out
}

/// What the reply of `provider` to a batch request for `texts` gives (see
/// `spec_batch_reply`, read as JSON first as `spec_json_first` says).
pub fn read_batch_reply(provider: &str, reply: &str, texts: &Vec<String>) -> (r: Vec<(String, String)>)
    ensures
        string_pairs(r@) == spec_batch_reply(reply@, strings_view(texts@), spec_json_first(provider@, reply@)),
{
    let json_first = batch_reply_json_first(provider, reply);
    batch_reply_translations(reply, texts, json_first)
}

} // verus!

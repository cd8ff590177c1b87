//! JSON values as the library reads them (numbers kept as their text), and
//! the lookups that answers of web services are read with.
use vstd::prelude::*;
use crate::text::{chars_eq_str, chars_of, parse_decimal_upto, parse_unsigned};

verus! {

/// A JSON value, numbers kept as their text.
pub enum JsonValue {
    Null,
    Bool(bool),
    Number(String),
    String(String),
    Array(Vec<JsonValue>),
    Object(Vec<(String, JsonValue)>),
}

/// The value of the first field named `key`.
pub open spec fn first_field(fields: Seq<(String, JsonValue)>, key: Seq<char>) -> Option<JsonValue>
    decreases fields.len(),
{
    if fields.len() == 0 {
        None
    } else if fields[0].0@ == key {
        Some(fields[0].1)
    } else {
        first_field(fields.drop_first(), key)
    }
}

/// `value[key]`: the field's value for an object that has it, else none.
pub open spec fn field_of(v: Option<JsonValue>, key: Seq<char>) -> Option<JsonValue> {
    match v {
        Some(JsonValue::Object(fields)) => first_field(fields@, key),
        _ => None,
    }
}

/// `value[i]`: the element of an array that has it, else none.
pub open spec fn item_of(v: Option<JsonValue>, i: int) -> Option<JsonValue> {
    match v {
        Some(JsonValue::Array(items)) => if 0 <= i < items@.len() {
            Some(items@[i])
        } else {
            None
        },
        _ => None,
    }
}

/// `value.as_str()`: the text of a string value.
pub open spec fn str_of(v: Option<JsonValue>) -> Option<Seq<char>> {
    match v {
        Some(JsonValue::String(s)) => Some(s@),
        _ => None,
    }
}

/// A borrowed value, if any, as a value.
pub open spec fn opt_json(v: Option<&JsonValue>) -> Option<JsonValue> {
    match v {
        Some(y) => Some(*y),
        None => None,
    }
}

/// `value[key]` (see `field_of`).
pub fn json_field<'a>(v: Option<&'a JsonValue>, key: &str) -> (r: Option<&'a JsonValue>)
    ensures
        match r {
            Some(x) => field_of(opt_json(v), key@) == Some(*x),
            None => field_of(opt_json(v), key@) is None,
        },
{
    match v {
        Some(JsonValue::Object(fields)) => {
            assert(field_of(opt_json(v), key@) == first_field(fields@, key@));
            let mut i: usize = 0;
            assert(fields@.skip(0) =~= fields@);
            while i < fields.len()
                invariant
                    i <= fields@.len(),
                    first_field(fields@, key@) == first_field(fields@.skip(i as int), key@),
                    field_of(opt_json(v), key@) == first_field(fields@, key@),
                decreases fields.len() - i,
            {
                assert(fields@.skip(i as int)[0] == fields@[i as int]);
                assert(fields@.skip(i as int).drop_first() =~= fields@.skip(i + 1));
                if chars_eq_str(&chars_of(fields[i].0.as_str()), key) {
                    assert(fields@[i as int].0@ == key@);
                    assert(first_field(fields@.skip(i as int), key@) == Some(fields@[i as int].1));
                    return Some(&fields[i].1);
                }
                i = i + 1;
            }
            None
        },
        _ => None,
    }
}

/// `value[i]` (see `item_of`).
pub fn json_item<'a>(v: Option<&'a JsonValue>, i: usize) -> (r: Option<&'a JsonValue>)
    ensures
        match r {
            Some(x) => item_of(opt_json(v), i as int) == Some(*x),
            None => item_of(opt_json(v), i as int) is None,
        },
{
    match v {
        Some(JsonValue::Array(items)) => {
            if i < items.len() {
                Some(&items[i])
            } else {
                None
            }
        },
        _ => None,
    }
}

/// `value.as_str()` (see `str_of`).
pub fn json_str(v: Option<&JsonValue>) -> (r: Option<String>)
    ensures
        match r {
            Some(s) => str_of(opt_json(v)) == Some(s@),
            None => str_of(opt_json(v)) is None,
        },
{
    match v {
        Some(JsonValue::String(s)) => Some(s.clone()),
        _ => None,
    }
}

/// serde's JSON value, carried only into the conversion below.
#[verifier::external_type_specification]
#[verifier::external_body]
pub struct ExSerdeJsonValue(serde_json::Value);

/// serde's JSON value as the library's, variant by variant (numbers by
/// their text, object fields in serde's order). Nothing is stated of it.
#[verifier::external_body]
fn from_serde(v: &serde_json::Value) -> JsonValue {
    match v {
        serde_json::Value::Null => JsonValue::Null,
        serde_json::Value::Bool(b) => JsonValue::Bool(*b),
        serde_json::Value::Number(n) => JsonValue::Number(n.to_string()),
        serde_json::Value::String(t) => JsonValue::String(t.clone()),
        serde_json::Value::Array(a) => JsonValue::Array(a.iter().map(from_serde).collect()),
        serde_json::Value::Object(m) => JsonValue::Object(m.iter().map(|(k, x)| (k.clone(), from_serde(x))).collect()),
    }
}

/// What `serde_json::from_str::<serde_json::Value>` makes of a text, as the
/// library's value: none when the text is not JSON.
pub uninterp spec fn spec_parse_json(s: Seq<char>) -> Option<JsonValue>;

/// Whether a text is JSON (serde_json reads it as a value).
pub open spec fn parses_as_json(s: Seq<char>) -> bool {
    spec_parse_json(s) is Some
}

/// `serde_json::from_str::<serde_json::Value>` on the text, converted to the
/// library's value; the result is named by `spec_parse_json` (JSON's
/// grammar is not written out here).
#[verifier::external_body]
pub(crate) fn parse_json(s: &str) -> (r: Option<JsonValue>)
    ensures
        r == spec_parse_json(s@),
{
    match serde_json::from_str::<serde_json::Value>(s) {
        Ok(v) => Some(from_serde(&v)),
        Err(_) => None,
    }
}


/// The value of the last field named `key`.
pub open spec fn last_field(fields: Seq<(String, JsonValue)>, key: Seq<char>) -> Option<JsonValue>
    decreases fields.len(),
{
    if fields.len() == 0 {
        None
    } else if fields.last().0@ == key {
        Some(fields.last().1)
    } else {
        last_field(fields.drop_last(), key)
    }
}

/// A field's value after the fields `over` were laid over `base`: the last
/// of `over` named `key`, else the first of `base`.
pub open spec fn overlaid(base: Seq<(String, JsonValue)>, over: Seq<(String, JsonValue)>, key: Seq<char>) -> Option<
    JsonValue,
> {
    match last_field(over, key) {
        Some(x) => Some(x),
        None => first_field(base, key),
    }
}

proof fn lemma_first_field_none(fs: Seq<(String, JsonValue)>, key: Seq<char>)
    requires
        forall|m: int| 0 <= m < fs.len() ==> (#[trigger] fs[m]).0@ != key,
    ensures
        first_field(fs, key) is None,
    decreases fs.len(),
{
    if fs.len() > 0 {
        assert forall|m: int| 0 <= m < fs.drop_first().len() implies (#[trigger] fs.drop_first()[m]).0@ != key by {
            assert(fs.drop_first()[m] == fs[m + 1]);
        }
        lemma_first_field_none(fs.drop_first(), key);
    }
}

proof fn lemma_first_field_update(fs: Seq<(String, JsonValue)>, j: int, p: (String, JsonValue), key: Seq<char>)
    requires
        0 <= j < fs.len(),
        fs[j].0@ == p.0@,
        forall|m: int| 0 <= m < j ==> (#[trigger] fs[m]).0@ != p.0@,
    ensures
        first_field(fs.update(j, p), key) == if key == p.0@ {
            Some(p.1)
        } else {
            first_field(fs, key)
        },
    decreases j,
{
    let u = fs.update(j, p);
    if j > 0 {
        assert(u.drop_first() =~= fs.drop_first().update(j - 1, p));
        assert forall|m: int| 0 <= m < j - 1 implies (#[trigger] fs.drop_first()[m]).0@ != p.0@ by {
            assert(fs.drop_first()[m] == fs[m + 1]);
        }
        lemma_first_field_update(fs.drop_first(), j - 1, p, key);
        assert(u[0] == fs[0]);
        assert(fs[0].0@ != p.0@);
    } else {
        assert(u.drop_first() =~= fs.drop_first());
        assert(u[0] == p);
    }
}

proof fn lemma_first_field_push(fs: Seq<(String, JsonValue)>, p: (String, JsonValue), key: Seq<char>)
    ensures
        first_field(fs.push(p), key) == match first_field(fs, key) {
            Some(x) => Some(x),
            None => if p.0@ == key {
                Some(p.1)
            } else {
                None
            },
        },
    decreases fs.len(),
{
    reveal_with_fuel(first_field, 2);
    if fs.len() > 0 {
        assert(fs.push(p).drop_first() =~= fs.drop_first().push(p));
        assert(fs.push(p)[0] == fs[0]);
        lemma_first_field_push(fs.drop_first(), p, key);
    } else {
        assert(fs.push(p).drop_first() =~= Seq::<(String, JsonValue)>::empty());
        assert(fs.push(p)[0] == p);
    }
}

/// The fields of `over` laid over those of `base`, as `serde_json::Map::insert`
/// does it field by field: a field already there gets the new value in its
/// place, a new one comes last.
pub fn overlay_fields(base: Vec<(String, JsonValue)>, over: Vec<(String, JsonValue)>) -> (r: Vec<(String, JsonValue)>)
    ensures
        forall|key: Seq<char>| #[trigger] first_field(r@, key) == overlaid(base@, over@, key),
{
    let ghost orig = over@;
    let mut over = over;
    let mut out = base;
    let mut i: usize = 0;
    let n = over.len();
    assert(orig.len() == n);
    assert(orig.skip(0) =~= orig);
    while over.len() > 0
        invariant
            i <= orig.len(),
            orig.len() <= usize::MAX,
            over@ == orig.skip(i as int),
            forall|key: Seq<char>| #[trigger] first_field(out@, key) == overlaid(base@, orig.take(i as int), key),
        decreases over.len(),
    {
        assert(over@[0] == orig[i as int]);
        let (k, v) = over.remove(0);
        assert(over@ =~= orig.skip(i + 1));
        let ghost before = out@;
        let ghost p = (k, v);
        let mut j: usize = 0;
        let mut found = false;
        while j < out.len() && !found
            invariant
                out@ == before,
                j <= out.len(),
                forall|m: int| 0 <= m < j ==> (#[trigger] out@[m]).0@ != k@,
                found ==> j < out.len() && out@[j as int].0@ == k@,
            decreases out.len() - j, if found { 0int } else { 1int },
        {
            if chars_eq_str(&chars_of(out[j].0.as_str()), k.as_str()) {
                found = true;
            } else {
                j = j + 1;
            }
        }
        let ghost t = orig.take(i + 1);
        assert(t.drop_last() =~= orig.take(i as int));
        assert(t.last() == orig[i as int]);
        if found {
            out.set(j, (k, v));
            proof {
                assert forall|key: Seq<char>| #[trigger] first_field(out@, key) == overlaid(base@, t, key) by {
                    lemma_first_field_update(before, j as int, p, key);
                }
            }
        } else {
            out.push((k, v));
            proof {
                assert forall|key: Seq<char>| #[trigger] first_field(out@, key) == overlaid(base@, t, key) by {
                    lemma_first_field_push(before, p, key);
                    if key == p.0@ {
                        lemma_first_field_none(before, key);
                    }
                }
            }
        }
        i = i + 1;
    }
    assert(orig.take(i as int) =~= orig);
    out
}

/// The members of an object as `(key, text)` pairs, in order, when every
/// value is a string.
pub open spec fn string_members(fields: Seq<(String, JsonValue)>) -> Option<Seq<(Seq<char>, Seq<char>)>>
    decreases fields.len(),
{
    if fields.len() == 0 {
        Some(Seq::empty())
    } else {
        match (string_members(fields.drop_last()), fields.last().1) {
            (Some(r), JsonValue::String(t)) => Some(r.push((fields.last().0@, t@))),
            _ => None,
        }
    }
}

/// What reading a text as a map from strings to strings gives: the object's
/// members, when the text is a JSON object whose values are all strings.
pub open spec fn spec_string_map(text: Seq<char>) -> Option<Seq<(Seq<char>, Seq<char>)>> {
    match spec_parse_json(text) {
        Some(JsonValue::Object(fields)) => string_members(fields@),
        _ => None,
    }
}

/// Pairs of strings as character sequences.
pub open spec fn str_pairs(v: Seq<(String, String)>) -> Seq<(Seq<char>, Seq<char>)> {
    v.map_values(|p: (String, String)| (p.0@, p.1@))
}

/// Pairs of strings, if any, as character sequences.
pub open spec fn opt_str_pairs(v: Option<Vec<(String, String)>>) -> Option<Seq<(Seq<char>, Seq<char>)>> {
    match v {
        Some(x) => Some(str_pairs(x@)),
        None => None,
    }
}

fn string_members_exec(fields: &Vec<(String, JsonValue)>) -> (r: Option<Vec<(String, String)>>)
    ensures
        opt_str_pairs(r) == string_members(fields@),
{
    let mut out: Vec<(String, String)> = Vec::new();
    let mut i: usize = 0;
    assert(fields@.take(0) =~= Seq::<(String, JsonValue)>::empty());
    while i < fields.len()
        invariant
            i <= fields@.len(),
            string_members(fields@.take(i as int)) == Some(str_pairs(out@)),
        decreases fields.len() - i,
    {
        let ghost t = fields@.take(i + 1);
        assert(t.drop_last() =~= fields@.take(i as int));
        assert(t.last() == fields@[i as int]);
        match &fields[i].1 {
            JsonValue::String(v) => {
                let ghost before = str_pairs(out@);
                out.push((fields[i].0.clone(), v.clone()));
                assert(str_pairs(out@) =~= before.push((fields@[i as int].0@, v@)));
            },
            _ => {
                proof {
                    lemma_string_members_none(fields@, i as int + 1);
                }
                return None;
            },
        }
        i = i + 1;
    }
    assert(fields@.take(fields@.len() as int) =~= fields@);
    Some(out)
}

proof fn lemma_string_members_none(fields: Seq<(String, JsonValue)>, k: int)
    requires
        0 < k <= fields.len(),
        string_members(fields.take(k)) is None,
    ensures
        string_members(fields) is None,
    decreases fields.len() - k,
{
    if k < fields.len() {
        let t = fields.take(k + 1);
        assert(t.drop_last() =~= fields.take(k));
        lemma_string_members_none(fields, k + 1);
    } else {
        assert(fields.take(k) =~= fields);
    }
}

/// A text read as a map from strings to strings (see `spec_string_map`): the
/// members in order, or `None` when it is not such an object.
pub fn string_map_from_json(text: &str) -> (r: Option<Vec<(String, String)>>)
    ensures
        opt_str_pairs(r) == spec_string_map(text@),
{
    match parse_json(text) {
        Some(JsonValue::Object(fields)) => string_members_exec(&fields),
        _ => None,
    }
}

/// What a cache written as `[count, {word: translation}]` gives for a
/// dictionary of `count` entries: the words, when the text is such an array
/// (the count a number that `usize` holds) and its count is `count`.
pub open spec fn spec_counted_map(text: Seq<char>, count: nat) -> Option<Seq<(Seq<char>, Seq<char>)>> {
    match spec_parse_json(text) {
        Some(JsonValue::Array(items)) => if items@.len() == 2 {
            match (items@[0], items@[1]) {
                (JsonValue::Number(t), JsonValue::Object(fields)) => if parse_unsigned(t@, 10, usize::MAX as nat)
                    == Some(count) {
                    string_members(fields@)
                } else {
                    None
                },
                _ => None,
            }
        } else {
            None
        },
        _ => None,
    }
}

/// The map of a `[count, {..}]` text kept for a table of `count` entries
/// (see `spec_counted_map`): `None` when the text is not such a pair, or was
/// written for another count.
pub fn counted_map_from_json(text: &str, count: usize) -> (r: Option<Vec<(String, String)>>)
    ensures
        opt_str_pairs(r) == spec_counted_map(text@, count as nat),
{
    match parse_json(text) {
        Some(JsonValue::Array(items)) => {
            if items.len() != 2 {
                return None;
            }
            match (&items[0], &items[1]) {
                (JsonValue::Number(t), JsonValue::Object(fields)) => {
                    match parse_decimal_upto(&chars_of(t.as_str()), usize::MAX) {
                        Some(v) => if v == count {
                            string_members_exec(fields)
                        } else {
                            None
                        },
                        None => None,
                    }
                },
                _ => None,
            }
        },
        _ => None,
    }
}

} // verus!

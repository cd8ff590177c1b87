//! The texts of a JSON language file: its tree, its (key, text) pairs, and
//! the sibling Chinese file whose texts a fast conversion starts from.
use vstd::prelude::*;
pub use crate::json::JsonValue;
use crate::json::{parse_json, parses_as_json, spec_parse_json, field_of, item_of, json_field, json_item, json_str, str_of};
use crate::file::plan::opt_view;
use crate::text::{chars_eq_str, chars_of};
use crate::translation::batching::GlobalBatchItem;
use crate::translation::glossary::mc_lang::lang_view;

verus! {

/// The key a text without a key of its own (an element of an array) is
/// listed under.
pub open spec fn array_element_key() -> Seq<char> {
    "__ARRAY_ELEMENT__"@
}

/// The (key, text) pairs of a value, depth first in document order: a text
/// is listed under the key of the field that holds it (`array_element_key`
/// inside an array or at the top).
pub open spec fn flatten(v: JsonValue, key: Option<Seq<char>>) -> Seq<(Seq<char>, Seq<char>)>
    decreases v, 1nat, 0nat,
{
    match v {
        JsonValue::String(s) => seq![
            (
                match key {
                    Some(k) => k,
                    None => array_element_key(),
                },
                s@,
            ),
        ],
        JsonValue::Object(_) => flatten_fields(v, v->Object_0@.len()),
        JsonValue::Array(_) => flatten_items(v, v->Array_0@.len()),
        _ => Seq::empty(),
    }
}

/// The pairs of the first `n` fields of an object.
pub open spec fn flatten_fields(v: JsonValue, n: nat) -> Seq<(Seq<char>, Seq<char>)>
    decreases v, 0nat, n,
{
    match v {
        JsonValue::Object(fields) => if n == 0 || n > fields@.len() {
            Seq::empty()
        } else {
            let f = fields@[n - 1];
            flatten_fields(v, (n - 1) as nat) + flatten(f.1, Some(f.0@))
        },
        _ => Seq::empty(),
    }
}

/// The pairs of the first `n` elements of an array.
pub open spec fn flatten_items(v: JsonValue, n: nat) -> Seq<(Seq<char>, Seq<char>)>
    decreases v, 0nat, n,
{
    match v {
        JsonValue::Array(items) => if n == 0 || n > items@.len() {
            Seq::empty()
        } else {
            flatten_items(v, (n - 1) as nat) + flatten(items@[n - 1], None)
        },
        _ => Seq::empty(),
    }
}

/// An optional key as characters.
pub open spec fn key_opt(key: Option<&str>) -> Option<Seq<char>> {
    match key {
        Some(k) => Some(k@),
        None => None,
    }
}

/// Appends the (key, text) pairs of `value` to `out` (see `flatten`).
pub fn flatten_json_values(value: &JsonValue, key: Option<&str>, out: &mut Vec<(String, String)>)
    ensures
        lang_view(final(out)@) == lang_view(old(out)@) + flatten(*value, key_opt(key)),
    decreases value,
{
    match value {
        JsonValue::String(s) => {
            let k: String = match key {
                Some(k) => k.to_owned(),
                None => "__ARRAY_ELEMENT__".to_owned(),
            };
            let ghost before = lang_view(out@);
            out.push((k, s.clone()));
            assert(lang_view(out@) =~= before.push((k@, s@)));
        },
        JsonValue::Object(fields) => {
            let ghost before = lang_view(out@);
            let mut i: usize = 0;
            while i < fields.len()
                invariant
                    i <= fields@.len(),
                    *value == JsonValue::Object(*fields),
                    lang_view(out@) == before + flatten_fields(*value, i as nat),
                decreases fields.len() - i,
            {
                let ghost mid = lang_view(out@);
                flatten_json_values(&fields[i].1, Some(fields[i].0.as_str()), out);
                i = i + 1;
                assert(before + flatten_fields(*value, i as nat) =~= mid + flatten(
                    fields@[i - 1].1,
                    Some(fields@[i - 1].0@),
                ));
            }
        },
        JsonValue::Array(items) => {
            let ghost before = lang_view(out@);
            let mut i: usize = 0;
            while i < items.len()
                invariant
                    i <= items@.len(),
                    *value == JsonValue::Array(*items),
                    lang_view(out@) == before + flatten_items(*value, i as nat),
                decreases items.len() - i,
            {
                let ghost mid = lang_view(out@);
                flatten_json_values(&items[i], None, out);
                i = i + 1;
                assert(before + flatten_items(*value, i as nat) =~= mid + flatten(items@[i - 1], None));
            }
        },
        _ => {
            assert(lang_view(out@) =~= lang_view(old(out)@) + Seq::<(Seq<char>, Seq<char>)>::empty());
        },
    }
}

/// Whether a language code is one of the two Chinese scripts.
pub open spec fn is_chinese(lang: Seq<char>) -> bool {
    lang == "zh_cn"@ || lang == "zh_tw"@
}

/// The sibling Chinese language file a fast conversion starts from: when
/// fast conversion is on and the target is a Chinese script while the source
/// is not, the file of the other Chinese script; else none.
pub open spec fn spec_sibling_lang(fast_convert: bool, source: Seq<char>, target: Seq<char>) -> Option<
    Seq<char>,
> {
    if fast_convert && is_chinese(target) && !is_chinese(source) {
        Some(
            if target == "zh_tw"@ {
                "zh_cn"@
            } else {
                "zh_tw"@
            },
        )
    } else {
        None
    }
}

/// The sibling Chinese language of a run (see `spec_sibling_lang`).
pub fn sibling_lang(fast_convert: bool, source_lang: &str, target_lang: &str) -> (r: Option<String>)
    ensures
        opt_view(r) == spec_sibling_lang(fast_convert, source_lang@, target_lang@),
{
    let s = chars_of(source_lang);
    let t = chars_of(target_lang);
    let t_tw = chars_eq_str(&t, "zh_tw");
    let target_chinese = chars_eq_str(&t, "zh_cn") || t_tw;
    let source_chinese = chars_eq_str(&s, "zh_cn") || chars_eq_str(&s, "zh_tw");
    if fast_convert && target_chinese && !source_chinese {
        if t_tw {
            Some("zh_cn".to_owned())
        } else {
            Some("zh_tw".to_owned())
        }
    } else {
        None
    }
}

/// The texts listed under key `k`, in order.
pub open spec fn values_of(pairs: Seq<(Seq<char>, Seq<char>)>, k: Seq<char>) -> Seq<Seq<char>>
    decreases pairs.len(),
{
    if pairs.len() == 0 {
        Seq::empty()
    } else if pairs.last().0 == k {
        values_of(pairs.drop_last(), k).push(pairs.last().1)
    } else {
        values_of(pairs.drop_last(), k)
    }
}

/// How many of the first `j` items have the key `k`.
pub open spec fn key_count(items: Seq<GlobalBatchItem>, k: Seq<char>, j: int) -> nat
    decreases j,
{
    if j <= 0 {
        0
    } else if items[j - 1].key@ == k {
        key_count(items, k, j - 1) + 1
    } else {
        key_count(items, k, j - 1)
    }
}

/// The sibling text of item `j`: the `n`-th text under its key in the
/// sibling file, `n` counting the earlier items with the same key, so that
/// repeated keys take the sibling's texts in turn.
pub open spec fn sibling_text(items: Seq<GlobalBatchItem>, pairs: Seq<(Seq<char>, Seq<char>)>, j: int) -> Option<
    Seq<char>,
> {
    let vs = values_of(pairs, items[j].key@);
    let n = key_count(items, items[j].key@, j);
    if n < vs.len() {
        Some(vs[n as int])
    } else {
        None
    }
}

/// `b` is `a` with at most its sibling text changed.
pub open spec fn same_but_sibling(a: GlobalBatchItem, b: GlobalBatchItem) -> bool {
    &&& b.original == a.original
    &&& b.preprocessed == a.preprocessed
    &&& b.markers == a.markers
    &&& b.file_id == a.file_id
    &&& b.rel_path == a.rel_path
    &&& b.key == a.key
    &&& b.translated == a.translated
}

/// The `n`-th text under key `k` in the pairs, if there are that many.
fn nth_value(pairs: &Vec<(String, String)>, k: &String, n: usize) -> (r: Option<String>)
    ensures
        ({
            let vs = values_of(lang_view(pairs@), k@);
            if n < vs.len() {
                r matches Some(v) && v@ == vs[n as int]
            } else {
                r is None
            }
        }),
{
    let ghost pv = lang_view(pairs@);
    let mut seen: usize = 0;
    let mut i: usize = 0;
    assert(pv.take(0) =~= Seq::<(Seq<char>, Seq<char>)>::empty());
    while i < pairs.len()
        invariant
            pv == lang_view(pairs@),
            i <= pairs.len(),
            seen == values_of(pv.take(i as int), k@).len(),
            seen <= n,
            forall|m: int| 0 <= m < seen ==> values_of(pv.take(i as int), k@)[m] == values_of(pv, k@)[m],
            values_of(pv.take(i as int), k@).is_prefix_of(values_of(pv, k@)),
        decreases pairs.len() - i,
    {
        assert(pv.take(i + 1).drop_last() =~= pv.take(i as int));
        assert(pv.take(i + 1).last() == pv[i as int]);
        proof {
            lemma_values_of_prefix(pv, i + 1, k@);
        }
        if pairs[i].0 == *k {
            if seen == n {
                assert(values_of(pv.take(i + 1), k@)[n as int] == pairs@[i as int].1@);
                return Some(pairs[i].1.clone());
            }
            seen = seen + 1;
        }
        i = i + 1;
    }
    assert(pv.take(pairs@.len() as int) =~= pv);
    None
}

/// The texts under a key of a prefix of the pairs begin the texts under the
/// key of all of them.
proof fn lemma_values_of_prefix(pv: Seq<(Seq<char>, Seq<char>)>, i: int, k: Seq<char>)
    requires
        0 <= i <= pv.len(),
    ensures
        values_of(pv.take(i), k).is_prefix_of(values_of(pv, k)),
    decreases pv.len() - i,
{
    if i < pv.len() {
        lemma_values_of_prefix(pv, i + 1, k);
        assert(pv.take(i + 1).drop_last() =~= pv.take(i));
    } else {
        assert(pv.take(i) =~= pv);
    }
}

/// Gives each item the sibling text that belongs to it (see
/// `sibling_text`); an item with none keeps what it had.
pub fn attach_sibling_texts(items: &mut Vec<GlobalBatchItem>, pairs: &Vec<(String, String)>)
    ensures
        final(items)@.len() == old(items)@.len(),
        forall|j: int|
            0 <= j < old(items)@.len() ==> same_but_sibling(old(items)@[j], #[trigger] final(items)@[j]),
        forall|j: int|
            0 <= j < old(items)@.len() ==> opt_view((#[trigger] final(items)@[j]).alt_source) == match sibling_text(
                old(items)@,
                lang_view(pairs@),
                j,
            ) {
                Some(t) => Some(t),
                None => opt_view(old(items)@[j].alt_source),
            },
{
    let ghost orig = items@;
    let mut j: usize = 0;
    while j < items.len()
        invariant
            items@.len() == orig.len(),
            j <= items@.len(),
            forall|q: int| 0 <= q < orig.len() ==> same_but_sibling(orig[q], #[trigger] items@[q]),
            forall|q: int| j <= q < orig.len() ==> #[trigger] items@[q] == orig[q],
            forall|q: int|
                0 <= q < j ==> opt_view((#[trigger] items@[q]).alt_source) == match sibling_text(
                    orig,
                    lang_view(pairs@),
                    q,
                ) {
                    Some(t) => Some(t),
                    None => opt_view(orig[q].alt_source),
                },
        decreases items.len() - j,
    {
        let mut n: usize = 0;
        let mut i: usize = 0;
        while i < j
            invariant
                items@.len() == orig.len(),
                j < items@.len(),
                i <= j,
                forall|q: int| 0 <= q < orig.len() ==> same_but_sibling(orig[q], #[trigger] items@[q]),
                n == key_count(orig, orig[j as int].key@, i as int),
                n <= i,
            decreases j - i,
        {
            assert(items@[i as int].key == orig[i as int].key);
            assert(items@[j as int].key == orig[j as int].key);
            if items[i].key == items[j].key {
                n = n + 1;
            }
            i = i + 1;
        }
        let found = nth_value(pairs, &items[j].key, n);
        assert(items@[j as int].key == orig[j as int].key);
        match found {
            Some(v) => {
                let ghost before = items@;
                items[j].alt_source = Some(v);
                proof {
                    assert forall|q: int| 0 <= q < orig.len() && q != j implies #[trigger] items@[q] == before[q] by {}
                }
            },
            None => {},
        }
        j = j + 1;
    }
}

/// A fresh item of a file: its text sent as it is, nothing translated.
pub open spec fn fresh_item(item: GlobalBatchItem, orig: Seq<char>, file_id: usize, rel_path: Seq<char>, key: Seq<char>) -> bool {
    &&& item.original@ == orig
    &&& item.preprocessed@ == orig
    &&& item.markers@.len() == 0
    &&& item.file_id == file_id
    &&& item.rel_path@ == rel_path
    &&& item.key@ == key
    &&& item.translated is None
}

/// An item of a file whose text already has the translation `t`.
pub open spec fn prefilled_item(
    item: GlobalBatchItem,
    orig: Seq<char>,
    file_id: usize,
    rel_path: Seq<char>,
    key: Seq<char>,
    t: Seq<char>,
) -> bool {
    &&& item.original@ == orig
    &&& item.preprocessed@ == orig
    &&& item.markers@.len() == 0
    &&& item.file_id == file_id
    &&& item.rel_path@ == rel_path
    &&& item.key@ == key
    &&& opt_view(item.translated) == Some(t)
    &&& item.alt_source is None
}

/// The number of earlier items with a key depends on the keys alone.
proof fn lemma_key_count_keys(a: Seq<GlobalBatchItem>, b: Seq<GlobalBatchItem>, k: Seq<char>, j: int)
    requires
        0 <= j <= a.len(),
        j <= b.len(),
        forall|q: int| 0 <= q < j ==> (#[trigger] a[q]).key@ == b[q].key@,
    ensures
        key_count(a, k, j) == key_count(b, k, j),
    decreases j,
{
    if j > 0 {
        lemma_key_count_keys(a, b, k, j - 1);
    }
}

/// Triples of strings as character sequences.
pub open spec fn triple_view(v: Seq<(String, String, String)>) -> Seq<(Seq<char>, Seq<char>, Seq<char>)> {
    v.map_values(|t: (String, String, String)| (t.0@, t.1@, t.2@))
}

/// The items of a JSON file (see `json_task_items`): one fresh item for
/// each pending `(text, key)`, in order, each with the sibling text that
/// belongs to it, then one translated item for each prefilled
/// `(text, key, translation)`.
pub open spec fn items_of_json(
    items: Seq<GlobalBatchItem>,
    pending: Seq<(Seq<char>, Seq<char>)>,
    prefilled: Seq<(Seq<char>, Seq<char>, Seq<char>)>,
    file_id: usize,
    rel_path: Seq<char>,
    sibling_pairs: Seq<(Seq<char>, Seq<char>)>,
) -> bool {
    let np = pending.len() as int;
    &&& items.len() == pending.len() + prefilled.len()
    &&& forall|j: int| 0 <= j < np ==> fresh_item(#[trigger] items[j], pending[j].0, file_id, rel_path, pending[j].1)
    &&& forall|j: int| 0 <= j < np ==> opt_view((#[trigger] items[j]).alt_source) == sibling_text(items.take(np), sibling_pairs, j)
    &&& forall|j: int|
        np <= j < items.len() ==> prefilled_item(
            #[trigger] items[j],
            prefilled[j - np].0,
            file_id,
            rel_path,
            prefilled[j - np].1,
            prefilled[j - np].2,
        )
}

/// The items of a JSON file: one for each pending `(text, key)`, in order,
/// each given the sibling text that belongs to it (see `sibling_text`),
/// then one for each prefilled `(text, key, translation)`, already
/// translated. None when there is neither.
pub fn json_task_items(
    pending: &[(String, String)],
    prefilled: &[(String, String, String)],
    file_id: usize,
    rel_path: &str,
    sibling_pairs: &Vec<(String, String)>,
) -> (r: Option<Vec<GlobalBatchItem>>)
    ensures
        r is None <==> pending@.len() == 0 && prefilled@.len() == 0,
        r matches Some(items) ==> {
            let np = pending@.len() as int;
            &&& items@.len() == pending@.len() + prefilled@.len()
            &&& forall|j: int| 0 <= j < np ==> fresh_item(#[trigger] items@[j], pending@[j].0@, file_id, rel_path@, pending@[j].1@)
            &&& forall|j: int| 0 <= j < np ==> opt_view((#[trigger] items@[j]).alt_source) == sibling_text(
                items@.take(np),
                lang_view(sibling_pairs@),
                j,
            )
            &&& forall|j: int|
                np <= j < items@.len() ==> prefilled_item(
                    #[trigger] items@[j],
                    prefilled@[j - np].0@,
                    file_id,
                    rel_path@,
                    prefilled@[j - np].1@,
                    prefilled@[j - np].2@,
                )
            &&& items_of_json(
                items@,
                lang_view(pending@),
                triple_view(prefilled@),
                file_id,
                rel_path@,
                lang_view(sibling_pairs@),
            )
        },
{
    if pending.len() == 0 && prefilled.len() == 0 {
        return None;
    }
    let mut items: Vec<GlobalBatchItem> = Vec::new();
    let mut i: usize = 0;
    while i < pending.len()
        invariant
            i <= pending@.len(),
            items@.len() == i,
            forall|j: int| 0 <= j < i ==> fresh_item(#[trigger] items@[j], pending@[j].0@, file_id, rel_path@, pending@[j].1@),
            forall|j: int| 0 <= j < i ==> (#[trigger] items@[j]).alt_source is None,
        decreases pending.len() - i,
    {
        items.push(GlobalBatchItem::new(pending[i].0.as_str(), file_id, rel_path, pending[i].1.as_str()));
        i = i + 1;
    }
    let ghost fresh = items@;
    attach_sibling_texts(&mut items, sibling_pairs);
    proof {
        let np = pending@.len() as int;
        assert(items@.take(np) =~= items@);
        assert forall|j: int| 0 <= j < np implies opt_view((#[trigger] items@[j]).alt_source) == sibling_text(
            items@.take(np),
            lang_view(sibling_pairs@),
            j,
        ) by {
            lemma_key_count_keys(fresh, items@, items@[j].key@, j);
        }
    }
    let ghost attached = items@;
    let mut k: usize = 0;
    while k < prefilled.len()
        invariant
            k <= prefilled@.len(),
            items@.len() == pending@.len() + k,
            items@.take(pending@.len() as int) == attached,
            forall|j: int|
                pending@.len() <= j < items@.len() ==> prefilled_item(
                    #[trigger] items@[j],
                    prefilled@[j - pending@.len()].0@,
                    file_id,
                    rel_path@,
                    prefilled@[j - pending@.len()].1@,
                    prefilled@[j - pending@.len()].2@,
                ),
        decreases prefilled.len() - k,
    {
        let mut item = GlobalBatchItem::new(prefilled[k].0.as_str(), file_id, rel_path, prefilled[k].1.as_str());
        item.translated = Some(prefilled[k].2.clone());
        let ghost before = items@;
        items.push(item);
        assert(items@.take(pending@.len() as int) =~= before.take(pending@.len() as int));
        k = k + 1;
    }
    proof {
        let np = pending@.len() as int;
        assert forall|j: int| 0 <= j < np implies #[trigger] items@[j] == attached[j] by {
            assert(items@.take(np)[j] == items@[j]);
        }
        assert(items@.take(np) =~= attached);
        let pv = lang_view(pending@);
        let fv = triple_view(prefilled@);
        assert forall|j: int| 0 <= j < np implies fresh_item(#[trigger] items@[j], pv[j].0, file_id, rel_path@, pv[j].1) by {
            assert(pv[j] == (pending@[j].0@, pending@[j].1@));
        }
        assert forall|j: int| np <= j < items@.len() implies prefilled_item(
            #[trigger] items@[j],
            fv[j - np].0,
            file_id,
            rel_path@,
            fv[j - np].1,
            fv[j - np].2,
        ) by {
            assert(fv[j - np] == (prefilled@[j - np].0@, prefilled@[j - np].1@, prefilled@[j - np].2@));
        }
    }
    Some(items)
}

// ---------------------------------------------------------------------------
// The strings of a JSON file to translate
// ---------------------------------------------------------------------------

/// What the walk of a value finds: pending `(text, key)` pairs, and
/// prefilled `(text, key, existing translation)` triples.
pub type Walk = (Seq<(Seq<char>, Seq<char>)>, Seq<(Seq<char>, Seq<char>, Seq<char>)>);

/// Two walks one after the other.
pub open spec fn walk_then(a: Walk, b: Walk) -> Walk {
    (a.0 + b.0, a.1 + b.1)
}

/// The value `base[key]`, or null when there is none.
pub open spec fn base_field(base: JsonValue, key: Seq<char>) -> JsonValue {
    match field_of(Some(base), key) {
        Some(x) => x,
        None => JsonValue::Null,
    }
}

/// The value `base[i]`, or null when there is none.
pub open spec fn base_item(base: JsonValue, i: int) -> JsonValue {
    match item_of(Some(base), i) {
        Some(x) => x,
        None => JsonValue::Null,
    }
}

/// The strings of a value to translate, depth first in document order,
/// each under the key of the field that holds it (`array_element_key`
/// inside an array or at the top), with `base` the target language's value
/// at the same place. A string is pending, unless translation memory is
/// used and the target already holds a different, non-empty text there:
/// then it is prefilled with that text.
pub open spec fn walk_strings(v: JsonValue, base: JsonValue, key: Option<Seq<char>>, skip_memory: bool) -> Walk
    decreases v, 1nat, 0nat,
{
    match v {
        JsonValue::String(s) => {
            let k = match key {
                Some(k) => k,
                None => array_element_key(),
            };
            if !skip_memory && (str_of(Some(base)) matches Some(e) && e.len() > 0 && e != s@) {
                (Seq::empty(), seq![(s@, k, str_of(Some(base))->0)])
            } else {
                (seq![(s@, k)], Seq::empty())
            }
        },
        JsonValue::Object(_) => walk_fields(v, base, skip_memory, v->Object_0@.len()),
        JsonValue::Array(_) => walk_items(v, base, skip_memory, v->Array_0@.len()),
        _ => (Seq::empty(), Seq::empty()),
    }
}

/// The walk of the first `n` fields of an object.
pub open spec fn walk_fields(v: JsonValue, base: JsonValue, skip_memory: bool, n: nat) -> Walk
    decreases v, 0nat, n,
{
    match v {
        JsonValue::Object(fields) => if n == 0 || n > fields@.len() {
            (Seq::empty(), Seq::empty())
        } else {
            let f = fields@[n - 1];
            walk_then(
                walk_fields(v, base, skip_memory, (n - 1) as nat),
                walk_strings(f.1, base_field(base, f.0@), Some(f.0@), skip_memory),
            )
        },
        _ => (Seq::empty(), Seq::empty()),
    }
}

/// The walk of the first `n` elements of an array.
pub open spec fn walk_items(v: JsonValue, base: JsonValue, skip_memory: bool, n: nat) -> Walk
    decreases v, 0nat, n,
{
    match v {
        JsonValue::Array(items) => if n == 0 || n > items@.len() {
            (Seq::empty(), Seq::empty())
        } else {
            walk_then(
                walk_items(v, base, skip_memory, (n - 1) as nat),
                walk_strings(items@[n - 1], base_item(base, n - 1), None, skip_memory),
            )
        },
        _ => (Seq::empty(), Seq::empty()),
    }
}

/// Appends the strings of `value` to translate (see `walk_strings`): the
/// pending ones to `pending`, the prefilled ones to `prefilled`.
pub fn collect_translatable_strings(
    value: &JsonValue,
    target_base: &JsonValue,
    key: Option<&str>,
    skip_memory: bool,
    pending: &mut Vec<(String, String)>,
    prefilled: &mut Vec<(String, String, String)>,
)
    ensures
        lang_view(final(pending)@) == lang_view(old(pending)@) + walk_strings(*value, *target_base, key_opt(key), skip_memory).0,
        triple_view(final(prefilled)@) == triple_view(old(prefilled)@) + walk_strings(*value, *target_base, key_opt(key), skip_memory).1,
    decreases value,
{
    match value {
        JsonValue::String(s) => {
            let k: String = match key {
                Some(k) => k.to_owned(),
                None => "__ARRAY_ELEMENT__".to_owned(),
            };
            let existing = json_str(Some(target_base));
            let prefill = match &existing {
                Some(e) => {
                    let ev = chars_of(e.as_str());
                    !skip_memory && ev.len() > 0 && !chars_eq_str(&ev, s.as_str())
                },
                None => false,
            };
            if prefill {
                let e = existing.unwrap();
                let ghost before = triple_view(prefilled@);
                prefilled.push((s.clone(), k, e));
                assert(triple_view(prefilled@) =~= before.push((s@, key_or_array(key_opt(key)), str_of(Some(*target_base))->0)));
                assert(lang_view(pending@) =~= lang_view(old(pending)@) + Seq::<(Seq<char>, Seq<char>)>::empty());
            } else {
                let ghost before = lang_view(pending@);
                pending.push((s.clone(), k));
                assert(lang_view(pending@) =~= before.push((s@, key_or_array(key_opt(key)))));
                assert(triple_view(prefilled@) =~= triple_view(old(prefilled)@) + Seq::<(Seq<char>, Seq<char>, Seq<char>)>::empty());
            }
        },
        JsonValue::Object(fields) => {
            let null = JsonValue::Null;
            let ghost bp = lang_view(pending@);
            let ghost bf = triple_view(prefilled@);
            let mut i: usize = 0;
            while i < fields.len()
                invariant
                    i <= fields@.len(),
                    *value == JsonValue::Object(*fields),
                    null == JsonValue::Null,
                    lang_view(pending@) == bp + walk_fields(*value, *target_base, skip_memory, i as nat).0,
                    triple_view(prefilled@) == bf + walk_fields(*value, *target_base, skip_memory, i as nat).1,
                decreases fields.len() - i,
            {
                let next = match json_field(Some(target_base), fields[i].0.as_str()) {
                    Some(x) => x,
                    None => &null,
                };
                assert(*next == base_field(*target_base, fields@[i as int].0@));
                let ghost mp = lang_view(pending@);
                let ghost mf = triple_view(prefilled@);
                collect_translatable_strings(&fields[i].1, next, Some(fields[i].0.as_str()), skip_memory, pending, prefilled);
                i = i + 1;
                let ghost w = walk_strings(fields@[i - 1].1, base_field(*target_base, fields@[i - 1].0@), Some(fields@[i - 1].0@), skip_memory);
                assert(bp + walk_fields(*value, *target_base, skip_memory, i as nat).0 =~= mp + w.0);
                assert(bf + walk_fields(*value, *target_base, skip_memory, i as nat).1 =~= mf + w.1);
            }
        },
        JsonValue::Array(items) => {
            let null = JsonValue::Null;
            let ghost bp = lang_view(pending@);
            let ghost bf = triple_view(prefilled@);
            let mut i: usize = 0;
            while i < items.len()
                invariant
                    i <= items@.len(),
                    *value == JsonValue::Array(*items),
                    null == JsonValue::Null,
                    lang_view(pending@) == bp + walk_items(*value, *target_base, skip_memory, i as nat).0,
                    triple_view(prefilled@) == bf + walk_items(*value, *target_base, skip_memory, i as nat).1,
                decreases items.len() - i,
            {
                let next = match json_item(Some(target_base), i) {
                    Some(x) => x,
                    None => &null,
                };
                assert(*next == base_item(*target_base, i as int));
                let ghost mp = lang_view(pending@);
                let ghost mf = triple_view(prefilled@);
                collect_translatable_strings(&items[i], next, None, skip_memory, pending, prefilled);
                i = i + 1;
                let ghost w = walk_strings(items@[i - 1], base_item(*target_base, i - 1), None, skip_memory);
                assert(bp + walk_items(*value, *target_base, skip_memory, i as nat).0 =~= mp + w.0);
                assert(bf + walk_items(*value, *target_base, skip_memory, i as nat).1 =~= mf + w.1);
            }
        },
        _ => {
            assert(lang_view(pending@) =~= lang_view(old(pending)@) + Seq::<(Seq<char>, Seq<char>)>::empty());
            assert(triple_view(prefilled@) =~= triple_view(old(prefilled)@) + Seq::<(Seq<char>, Seq<char>, Seq<char>)>::empty());
        },
    }
}

/// A key, or `array_element_key` when there is none.
pub open spec fn key_or_array(key: Option<Seq<char>>) -> Seq<char> {
    match key {
        Some(k) => k,
        None => array_element_key(),
    }
}

/// A text read as JSON, or null when there is none or it is not JSON.
pub open spec fn parsed_or_null(t: Option<Seq<char>>) -> JsonValue {
    match t {
        Some(c) => match spec_parse_json(c) {
            Some(v) => v,
            None => JsonValue::Null,
        },
        None => JsonValue::Null,
    }
}

/// The `(key, text)` pairs of a sibling file's text (see `flatten`), none
/// when there is no such file or it is not JSON.
pub open spec fn sibling_pairs_of(t: Option<Seq<char>>) -> Seq<(Seq<char>, Seq<char>)> {
    match t {
        Some(c) => match spec_parse_json(c) {
            Some(v) => flatten(v, None),
            None => Seq::empty(),
        },
        None => Seq::empty(),
    }
}

/// The `(key, text)` pairs of a JSON text, depth first (see
/// `flatten_json_values`); none when there is no text or it is not JSON.
pub fn sibling_text_pairs(text: Option<&str>) -> (r: Vec<(String, String)>)
    ensures
        lang_view(r@) == sibling_pairs_of(key_opt(text)),
{
    let mut pairs: Vec<(String, String)> = Vec::new();
    match text {
        Some(c) => match parse_json(c) {
            Some(v) => {
                flatten_json_values(&v, None, &mut pairs);
                assert(lang_view(pairs@) =~= flatten(v, None));
            },
            None => {},
        },
        None => {},
    }
    assert(lang_view(pairs@) =~= sibling_pairs_of(key_opt(text)));
    pairs
}

/// The items of a JSON language file, from its text, the target language's
/// file (if there is one) and the sibling Chinese file (if one is used): an
/// error when the text is not JSON; none when it has no string to
/// translate or prefill (see `walk_strings`, the target file giving the
/// existing translations); else the items of `items_of_json`.
pub fn json_file_task(
    content: &str,
    target_content: Option<&str>,
    sibling_content: Option<&str>,
    file_id: usize,
    rel_path: &str,
    skip_memory: bool,
) -> (r: Result<Option<Vec<GlobalBatchItem>>, ()>)
    ensures
        r is Err <==> !parses_as_json(content@),
        r matches Ok(o) ==> {
            let w = walk_strings(spec_parse_json(content@)->0, parsed_or_null(key_opt(target_content)), None, skip_memory);
            &&& (o is None <==> w.0.len() == 0 && w.1.len() == 0)
            &&& o matches Some(items) ==> items_of_json(
                items@,
                w.0,
                w.1,
                file_id,
                rel_path@,
                sibling_pairs_of(key_opt(sibling_content)),
            )
        },
{
    let source = match parse_json(content) {
        Some(v) => v,
        None => {
            return Err(());
        },
    };
    let target = match target_content {
        Some(t) => match parse_json(t) {
            Some(v) => v,
            None => JsonValue::Null,
        },
        None => JsonValue::Null,
    };
    let sibling = sibling_text_pairs(sibling_content);
    let mut pending: Vec<(String, String)> = Vec::new();
    let mut prefilled: Vec<(String, String, String)> = Vec::new();
    collect_translatable_strings(&source, &target, None, skip_memory, &mut pending, &mut prefilled);
    let ghost w = walk_strings(source, target, None, skip_memory);
    assert(lang_view(pending@) =~= w.0);
    assert(triple_view(prefilled@) =~= w.1);
    Ok(json_task_items(&pending, &prefilled, file_id, rel_path, &sibling))
}


// ---------------------------------------------------------------------------
// Laws of the walk: which target text a string is compared with
// ---------------------------------------------------------------------------

/// The text of a string value (empty for another value).
pub open spec fn text_of(v: JsonValue) -> Seq<char> {
    match v {
        JsonValue::String(s) => s@,
        _ => Seq::empty(),
    }
}

/// `t` holds a translation of `s`: a non-empty text other than `s`.
pub open spec fn translates(s: JsonValue, t: JsonValue) -> bool {
    &&& s is String
    &&& t is String
    &&& text_of(t).len() > 0
    &&& text_of(t) != text_of(s)
}

proof fn lemma_items_prefilled(v: JsonValue, base: JsonValue, n: nat)
    requires
        v is Array,
        base is Array,
        n <= v->Array_0@.len(),
        v->Array_0@.len() == base->Array_0@.len(),
        forall|i: int| 0 <= i < v->Array_0@.len() ==> translates(#[trigger] v->Array_0@[i], base->Array_0@[i]),
    ensures
        walk_items(v, base, false, n) == (
            Seq::<(Seq<char>, Seq<char>)>::empty(),
            Seq::new(
                n,
                |i: int| (text_of(v->Array_0@[i]), "__ARRAY_ELEMENT__"@, text_of(base->Array_0@[i])),
            ),
        ),
    decreases n,
{
    let items = v->Array_0@;
    let tg = base->Array_0@;
    if n > 0 {
        lemma_items_prefilled(v, base, (n - 1) as nat);
        let i = n - 1;
        assert(translates(items[i as int], tg[i as int]));
        assert(base_item(base, i as int) == tg[i as int]);
        let w = walk_strings(items[i as int], tg[i as int], None, false);
        assert(w == (
            Seq::<(Seq<char>, Seq<char>)>::empty(),
            seq![(text_of(items[i as int]), array_element_key(), text_of(tg[i as int]))],
        ));
        reveal_strlit("__ARRAY_ELEMENT__");
        assert(walk_items(v, base, false, n).0 =~= Seq::<(Seq<char>, Seq<char>)>::empty());
        assert(walk_items(v, base, false, n).1 =~= Seq::new(
            n,
            |i: int| (text_of(items[i]), "__ARRAY_ELEMENT__"@, text_of(tg[i])),
        ));
    } else {
        assert(walk_items(v, base, false, n).1 =~= Seq::new(
            n,
            |i: int| (text_of(items[i]), "__ARRAY_ELEMENT__"@, text_of(tg[i])),
        ));
    }
}

/// An array of strings is compared element by element with the target's
/// array: when the target's `i`-th text translates the `i`-th string, every
/// string is prefilled, in order, with the target text at its own index
/// (under the array key), and none is pending.
pub proof fn law_array_prefilled_by_index(v: JsonValue, base: JsonValue, key: Option<Seq<char>>)
    requires
        v is Array,
        base is Array,
        v->Array_0@.len() == base->Array_0@.len(),
        forall|i: int| 0 <= i < v->Array_0@.len() ==> translates(#[trigger] v->Array_0@[i], base->Array_0@[i]),
    ensures
        walk_strings(v, base, key, false).0.len() == 0,
        walk_strings(v, base, key, false).1.len() == v->Array_0@.len(),
        forall|i: int|
            0 <= i < v->Array_0@.len() ==> #[trigger] walk_strings(v, base, key, false).1[i] == (
                text_of(v->Array_0@[i]),
                "__ARRAY_ELEMENT__"@,
                text_of(base->Array_0@[i]),
            ),
{
    lemma_items_prefilled(v, base, v->Array_0@.len());
}

proof fn lemma_fields_prefilled(v: JsonValue, base: JsonValue, n: nat)
    requires
        v is Object,
        n <= v->Object_0@.len(),
        forall|i: int| 0 <= i < v->Object_0@.len() ==> {
            let f = #[trigger] v->Object_0@[i];
            field_of(Some(base), f.0@) matches Some(t) && translates(f.1, t)
        },
    ensures
        walk_fields(v, base, false, n) == (
            Seq::<(Seq<char>, Seq<char>)>::empty(),
            Seq::new(
                n,
                |i: int| (text_of(v->Object_0@[i].1), v->Object_0@[i].0@, text_of(base_field(base, v->Object_0@[i].0@))),
            ),
        ),
    decreases n,
{
    let fs = v->Object_0@;
    if n > 0 {
        lemma_fields_prefilled(v, base, (n - 1) as nat);
        let f = fs[n - 1];
        assert(field_of(Some(base), f.0@) matches Some(t) && translates(f.1, t));
        let t = base_field(base, f.0@);
        assert(translates(f.1, t));
        let w = walk_strings(f.1, t, Some(f.0@), false);
        assert(w == (Seq::<(Seq<char>, Seq<char>)>::empty(), seq![(text_of(f.1), f.0@, text_of(t))]));
        assert(walk_fields(v, base, false, n) == walk_then(walk_fields(v, base, false, (n - 1) as nat), w));
        assert(walk_fields(v, base, false, n).0 =~= Seq::<(Seq<char>, Seq<char>)>::empty());
        assert(walk_fields(v, base, false, n).1 =~= Seq::new(
            n,
            |i: int| (text_of(fs[i].1), fs[i].0@, text_of(base_field(base, fs[i].0@))),
        ));
    } else {
        assert(walk_fields(v, base, false, n).1 =~= Seq::new(
            n,
            |i: int| (text_of(fs[i].1), fs[i].0@, text_of(base_field(base, fs[i].0@))),
        ));
    }
}

/// An object of strings is compared field by field with the target's field
/// of the same key: when each target field translates its string, every
/// string is prefilled, in field order, under its own key, with the target
/// text of that key, and none is pending.
pub proof fn law_object_prefilled_by_key(v: JsonValue, base: JsonValue, key: Option<Seq<char>>)
    requires
        v is Object,
        forall|i: int| 0 <= i < v->Object_0@.len() ==> {
            let f = #[trigger] v->Object_0@[i];
            field_of(Some(base), f.0@) matches Some(t) && translates(f.1, t)
        },
    ensures
        walk_strings(v, base, key, false).0.len() == 0,
        walk_strings(v, base, key, false).1.len() == v->Object_0@.len(),
        forall|i: int|
            0 <= i < v->Object_0@.len() ==> (field_of(Some(base), v->Object_0@[i].0@) matches Some(t) && #[trigger] walk_strings(
                v,
                base,
                key,
                false,
            ).1[i] == (text_of(v->Object_0@[i].1), v->Object_0@[i].0@, text_of(t))),
{
    lemma_fields_prefilled(v, base, v->Object_0@.len());
}

proof fn lemma_items_pending(v: JsonValue, base: JsonValue, skip_memory: bool, n: nat)
    requires
        v is Array,
        n <= v->Array_0@.len(),
        forall|i: int| 0 <= i < v->Array_0@.len() ==> (#[trigger] v->Array_0@[i]) is String && (skip_memory
            || !translates(v->Array_0@[i], base_item(base, i))),
    ensures
        walk_items(v, base, skip_memory, n) == (
            Seq::new(n, |i: int| (text_of(v->Array_0@[i]), "__ARRAY_ELEMENT__"@)),
            Seq::<(Seq<char>, Seq<char>, Seq<char>)>::empty(),
        ),
    decreases n,
{
    let items = v->Array_0@;
    reveal_strlit("__ARRAY_ELEMENT__");
    if n > 0 {
        lemma_items_pending(v, base, skip_memory, (n - 1) as nat);
        assert(items[n - 1] is String);
        let w = walk_strings(items[n - 1], base_item(base, n - 1), None, skip_memory);
        assert(w == (seq![(text_of(items[n - 1]), array_element_key())], Seq::<(Seq<char>, Seq<char>, Seq<char>)>::empty()));
        assert(walk_items(v, base, skip_memory, n) == walk_then(walk_items(v, base, skip_memory, (n - 1) as nat), w));
        assert(walk_items(v, base, skip_memory, n).1 =~= Seq::<(Seq<char>, Seq<char>, Seq<char>)>::empty());
        assert(walk_items(v, base, skip_memory, n).0 =~= Seq::new(n, |i: int| (text_of(items[i]), "__ARRAY_ELEMENT__"@)));
    } else {
        assert(walk_items(v, base, skip_memory, n).0 =~= Seq::new(n, |i: int| (text_of(items[i]), "__ARRAY_ELEMENT__"@)));
    }
}

/// An array of strings none of which the target translates at its own index
/// (no target file, no text there, an empty one or the same text), or any
/// array of strings when translation memory is not used, leaves every string
/// pending, in order, under the array key, and prefills none.
pub proof fn law_array_pending_without_translation(v: JsonValue, base: JsonValue, key: Option<Seq<char>>, skip_memory: bool)
    requires
        v is Array,
        forall|i: int| 0 <= i < v->Array_0@.len() ==> (#[trigger] v->Array_0@[i]) is String && (skip_memory
            || !translates(v->Array_0@[i], base_item(base, i))),
    ensures
        walk_strings(v, base, key, skip_memory).1.len() == 0,
        walk_strings(v, base, key, skip_memory).0 == Seq::new(
            v->Array_0@.len(),
            |i: int| (text_of(v->Array_0@[i]), "__ARRAY_ELEMENT__"@),
        ),
{
    lemma_items_pending(v, base, skip_memory, v->Array_0@.len());
}

} // verus!

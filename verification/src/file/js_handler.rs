//! The texts of a script file: which of its matched text ranges are
//! translated (ordered by start, none overlapping one kept before it), the
//! items they make, and the translated content, where each kept range is
//! replaced by the translation of its text, the latest range first so that
//! earlier ranges keep their byte offsets.
use vstd::prelude::*;
use crate::order::{insert_ordered, lemma_insert_ordered_at, lemma_sort_ordered, sort_ordered, sorted_by, strict_weak_order};
use crate::text::{char_index_at_byte, char_index_of_byte, chars_of, decimal, decimal_chars, extend_chars, extend_str, is_byte_boundary, string_of, sub_chars, utf8_len, utf8_len_exec};
use crate::translation::batching::GlobalBatchItem;

verus! {

/// A replacement: a byte range of the content and its new text.
pub type JsReplacement = (usize, usize, Seq<char>);

/// The key under which the text of match `idx` was collected.
pub open spec fn js_key(idx: usize) -> Seq<char> {
    "js_key_"@ + decimal(idx as nat)
}

/// The translation of the first item with the key that has one.
pub open spec fn first_translated(items: Seq<GlobalBatchItem>, k: Seq<char>) -> Option<Seq<char>>
    decreases items.len(),
{
    if items.len() == 0 {
        None
    } else {
        match first_translated(items.drop_last(), k) {
            Some(t) => Some(t),
            None => if items.last().key@ == k && items.last().translated is Some {
                Some(items.last().translated->0@)
            } else {
                None
            },
        }
    }
}

/// The replacements of the matches `(start, end, index)` whose texts have
/// a translation, in the matches' order.
pub open spec fn js_replacements(matches: Seq<(usize, usize, usize)>, items: Seq<GlobalBatchItem>) -> Seq<JsReplacement>
    decreases matches.len(),
{
    if matches.len() == 0 {
        Seq::empty()
    } else {
        let rest = js_replacements(matches.drop_last(), items);
        let m = matches.last();
        match first_translated(items, js_key(m.2)) {
            Some(t) => rest.push((m.0, m.1, t)),
            None => rest,
        }
    }
}

/// Replacements ordered by start.
pub open spec fn start_before() -> spec_fn(JsReplacement, JsReplacement) -> bool {
    |a: JsReplacement, b: JsReplacement| a.0 < b.0
}

/// The replacements made one after the other on the content: one whose
/// range is not empty and ends within the content replaces that range
/// (when both ends fall between characters; else the content cannot be
/// made and there is none); any other is passed over.
pub open spec fn apply_js(c: Seq<char>, rs: Seq<JsReplacement>) -> Option<Seq<char>>
    decreases rs.len(),
{
    if rs.len() == 0 {
        Some(c)
    } else {
        let r = rs[0];
        if r.0 < r.1 && r.1 <= utf8_len(c) {
            if is_byte_boundary(c, r.0 as int) && is_byte_boundary(c, r.1 as int) {
                let a = char_index_of_byte(c, r.0 as int);
                let b = char_index_of_byte(c, r.1 as int);
                apply_js(c.take(a) + r.2 + c.skip(b), rs.drop_first())
            } else {
                None
            }
        } else {
            apply_js(c, rs.drop_first())
        }
    }
}

/// The translated content of a script: the replacements of its matches
/// sorted by start and then reversed (latest first), made on the original
/// content (see `apply_js`).
pub open spec fn spec_js_content(
    original: Seq<char>,
    matches: Seq<(usize, usize, usize)>,
    items: Seq<GlobalBatchItem>,
) -> Option<Seq<char>> {
    apply_js(original, sort_ordered(js_replacements(matches, items), start_before()).reverse())
}

fn first_translated_exec(items: &[GlobalBatchItem], k: &Vec<char>) -> (r: Option<Vec<char>>)
    ensures
        match r {
            Some(t) => first_translated(items@, k@) == Some(t@),
            None => first_translated(items@, k@) is None,
        },
{
    let mut i: usize = 0;
    assert(items@.take(0) =~= Seq::<GlobalBatchItem>::empty());
    while i < items.len()
        invariant
            i <= items@.len(),
            first_translated(items@.take(i as int), k@) is None,
        decreases items.len() - i,
    {
        assert(items@.take(i + 1).drop_last() =~= items@.take(i as int));
        assert(items@.take(i + 1).last() == items@[i as int]);
        match &items[i].translated {
            Some(t) => {
                if crate::text::chars_eq(&chars_of(items[i].key.as_str()), k) {
                    proof {
                        lemma_first_translated_prefix(items@, i + 1, k@);
                    }
                    return Some(chars_of(t.as_str()));
                }
            },
            None => {},
        }
        i = i + 1;
    }
    assert(items@.take(items@.len() as int) =~= items@);
    None
}

/// A translation found in a prefix of the items is the first one.
proof fn lemma_first_translated_prefix(items: Seq<GlobalBatchItem>, i: int, k: Seq<char>)
    requires
        0 <= i <= items.len(),
        first_translated(items.take(i), k) is Some,
    ensures
        first_translated(items, k) == first_translated(items.take(i), k),
    decreases items.len() - i,
{
    if i < items.len() {
        assert(items.take(i + 1).drop_last() =~= items.take(i));
        lemma_first_translated_prefix(items, i + 1, k);
    } else {
        assert(items.take(i) =~= items);
    }
}

/// Replacements as sequences of characters.
pub open spec fn rep_views(v: Seq<(usize, usize, Vec<char>)>) -> Seq<JsReplacement> {
    v.map_values(|r: (usize, usize, Vec<char>)| (r.0, r.1, r.2@))
}

fn js_replacements_exec(matches: &Vec<(usize, usize, usize)>, items: &[GlobalBatchItem]) -> (r: Vec<(usize, usize, Vec<char>)>)
    ensures
        rep_views(r@) == js_replacements(matches@, items@),
{
    let mut r: Vec<(usize, usize, Vec<char>)> = Vec::new();
    let mut i: usize = 0;
    assert(matches@.take(0) =~= Seq::<(usize, usize, usize)>::empty());
    while i < matches.len()
        invariant
            i <= matches@.len(),
            rep_views(r@) == js_replacements(matches@.take(i as int), items@),
        decreases matches.len() - i,
    {
        assert(matches@.take(i + 1).drop_last() =~= matches@.take(i as int));
        assert(matches@.take(i + 1).last() == matches@[i as int]);
        let (s, e, idx) = matches[i];
        let mut key = chars_of("js_key_");
        extend_chars(&mut key, &decimal_chars(idx));
        assert(key@ == js_key(idx));
        match first_translated_exec(items, &key) {
            Some(t) => {
                let ghost before = rep_views(r@);
                let ghost tv = t@;
                r.push((s, e, t));
                assert(rep_views(r@) =~= before.push((s, e, tv)));
            },
            None => {},
        }
        i = i + 1;
    }
    assert(matches@.take(matches@.len() as int) =~= matches@);
    r
}

fn copy_chars(v: &Vec<char>) -> (r: Vec<char>)
    ensures
        r@ == v@,
{
    let mut r: Vec<char> = Vec::new();
    let mut i: usize = 0;
    while i < v.len()
        invariant
            i <= v@.len(),
            r@ == v@.take(i as int),
        decreases v.len() - i,
    {
        r.push(v[i]);
        i = i + 1;
        assert(r@ =~= v@.take(i as int));
    }
    assert(v@.take(v@.len() as int) =~= v@);
    r
}

fn sort_by_start(v: &Vec<(usize, usize, Vec<char>)>) -> (r: Vec<(usize, usize, Vec<char>)>)
    ensures
        rep_views(r@) == sort_ordered(rep_views(v@), start_before()),
{
    let ghost vv = rep_views(v@);
    let mut out: Vec<(usize, usize, Vec<char>)> = Vec::new();
    let mut i: usize = 0;
    assert(vv.take(0) =~= Seq::<JsReplacement>::empty());
    while i < v.len()
        invariant
            vv == rep_views(v@),
            i <= v@.len(),
            rep_views(out@) == sort_ordered(vv.take(i as int), start_before()),
        decreases v.len() - i,
    {
        let x = (v[i].0, v[i].1, copy_chars(&v[i].2));
        let ghost xv: JsReplacement = (x.0, x.1, x.2@);
        assert(xv == vv[i as int]);
        let ghost o = rep_views(out@);
        let mut p: usize = out.len();
        while p > 0 && x.0 < out[p - 1].0
            invariant
                o == rep_views(out@),
                p <= out@.len(),
                xv.0 == x.0,
                forall|k: int| p <= k < o.len() ==> start_before()(xv, #[trigger] o[k]),
            decreases p,
        {
            assert(o[p - 1].0 == out@[p - 1].0);
            p = p - 1;
        }
        proof {
            if p > 0 {
                assert(o[p - 1].0 == out@[p - 1].0);
            }
            lemma_insert_ordered_at(o, xv, start_before(), p as int);
            assert(vv.take(i + 1).drop_last() =~= vv.take(i as int));
            assert(vv.take(i + 1).last() == xv);
        }
        out.insert(p, x);
        assert(rep_views(out@) =~= o.insert(p as int, xv));
        i = i + 1;
    }
    assert(vv.take(v@.len() as int) =~= vv);
    out
}

/// The translated content of a script (see `spec_js_content`): the matches
/// are `(start byte, end byte, index)`, the items those of the script. None
/// when a replacement would cut a character.
pub fn js_translated_content(
    original: &str,
    matches: &Vec<(usize, usize, usize)>,
    items: &[GlobalBatchItem],
) -> (r: Option<String>)
    ensures
        match r {
            Some(t) => spec_js_content(original@, matches@, items@) == Some(t@),
            None => spec_js_content(original@, matches@, items@) is None,
        },
{
    let reps = sort_by_start(&js_replacements_exec(matches, items));
    let ghost rs = sort_ordered(js_replacements(matches@, items@), start_before()).reverse();
    let mut c = chars_of(original);
    let mut k: usize = reps.len();
    assert(rs.skip(0) =~= rs);
    while k > 0
        invariant
            k <= reps@.len(),
            rs == rep_views(reps@).reverse(),
            rs == sort_ordered(js_replacements(matches@, items@), start_before()).reverse(),
            apply_js(original@, rs) == apply_js(c@, rs.skip(reps@.len() - k)),
        decreases k,
    {
        let ghost j = reps@.len() - k;
        let ghost r = rs[j];
        assert(r == rep_views(reps@)[k - 1]);
        assert(rs.skip(j).drop_first() =~= rs.skip(j + 1));
        assert(rs.skip(j)[0] == r);
        let s = reps[k - 1].0;
        let e = reps[k - 1].1;
        let len = utf8_len_exec(&c);
        if s < e && (e as u128) <= len {
            match (char_index_at_byte(&c, s), char_index_at_byte(&c, e)) {
                (Some(a), Some(b)) => {
                    proof {
                        crate::text::lemma_char_index_of_byte_unique(c@, s as int, a as int);
                        crate::text::lemma_char_index_of_byte_unique(c@, e as int, b as int);
                        if a > b {
                            crate::text::lemma_utf8_len_take_strict(c@, b as int, a as int);
                        }
                    }
                    let mut next = sub_chars(&c, 0, a);
                    extend_chars(&mut next, &reps[k - 1].2);
                    let tail = sub_chars(&c, b, c.len());
                    extend_chars(&mut next, &tail);
                    assert(tail@ =~= c@.skip(b as int));
                    assert(next@ =~= c@.take(a as int) + r.2 + c@.skip(b as int));
                    c = next;
                },
                _ => {
                    proof {
                        assert(s == r.0 && e == r.1);
                        assert(!(is_byte_boundary(c@, s as int) && is_byte_boundary(c@, e as int)));
                        assert(apply_js(c@, rs.skip(j)) is None);
                        assert(apply_js(original@, rs) is None);
                        assert(spec_js_content(original@, matches@, items@) is None);
                    }
                    return None;
                },
            }
        }
        k = k - 1;
    }
    assert(rs.skip(reps@.len() as int).len() == 0);
    Some(string_of(&c))
}

/// A match of a script's text: start byte, end byte, text, and its number
/// in the order the matches were found.
pub type JsMatch = (usize, usize, Seq<char>, usize);

/// Matches as sequences of characters.
pub open spec fn match_views(v: Seq<(usize, usize, String, usize)>) -> Seq<JsMatch> {
    v.map_values(|m: (usize, usize, String, usize)| (m.0, m.1, m.2@, m.3))
}

/// Matches ordered by start.
pub open spec fn match_start_before() -> spec_fn(JsMatch, JsMatch) -> bool {
    |a: JsMatch, b: JsMatch| a.0 < b.0
}

/// The matches kept among the first `i` of `s`, and the end of the last one
/// kept (zero before any): a match is kept when it starts at or after that
/// end.
pub open spec fn kept_matches(s: Seq<JsMatch>, i: nat) -> (Seq<JsMatch>, nat)
    decreases i,
{
    if i == 0 {
        (Seq::empty(), 0)
    } else {
        let (k, e) = kept_matches(s, (i - 1) as nat);
        let m = s[i - 1];
        if m.0 >= e {
            (k.push(m), m.1 as nat)
        } else {
            (k, e)
        }
    }
}

/// The matches of a script that are translated: all of them sorted by
/// start (matches with the same start keeping their order), then each kept
/// that starts at or after the end of the last one kept.
pub open spec fn spec_filter_js_matches(s: Seq<JsMatch>) -> Seq<JsMatch> {
    let sorted = sort_ordered(s, match_start_before());
    kept_matches(sorted, sorted.len()).0
}

fn copy_match(m: &(usize, usize, String, usize)) -> (r: (usize, usize, String, usize))
    ensures
        r == *m,
{
    (m.0, m.1, m.2.clone(), m.3)
}

fn sort_matches(v: &Vec<(usize, usize, String, usize)>) -> (r: Vec<(usize, usize, String, usize)>)
    ensures
        match_views(r@) == sort_ordered(match_views(v@), match_start_before()),
{
    let ghost vv = match_views(v@);
    let mut out: Vec<(usize, usize, String, usize)> = Vec::new();
    let mut i: usize = 0;
    assert(vv.take(0) =~= Seq::<JsMatch>::empty());
    while i < v.len()
        invariant
            vv == match_views(v@),
            i <= v@.len(),
            match_views(out@) == sort_ordered(vv.take(i as int), match_start_before()),
        decreases v.len() - i,
    {
        let x = copy_match(&v[i]);
        let ghost xv: JsMatch = (x.0, x.1, x.2@, x.3);
        assert(xv == vv[i as int]);
        let ghost o = match_views(out@);
        let mut p: usize = out.len();
        while p > 0 && x.0 < out[p - 1].0
            invariant
                o == match_views(out@),
                p <= out@.len(),
                xv.0 == x.0,
                forall|k: int| p <= k < o.len() ==> match_start_before()(xv, #[trigger] o[k]),
            decreases p,
        {
            assert(o[p - 1].0 == out@[p - 1].0);
            p = p - 1;
        }
        proof {
            if p > 0 {
                assert(o[p - 1].0 == out@[p - 1].0);
            }
            lemma_insert_ordered_at(o, xv, match_start_before(), p as int);
            assert(vv.take(i + 1).drop_last() =~= vv.take(i as int));
            assert(vv.take(i + 1).last() == xv);
        }
        out.insert(p, x);
        assert(match_views(out@) =~= o.insert(p as int, xv));
        i = i + 1;
    }
    assert(vv.take(v@.len() as int) =~= vv);
    out
}

/// The matches of a script that are translated (see
/// `spec_filter_js_matches`).
pub fn filter_js_matches(matches: &Vec<(usize, usize, String, usize)>) -> (r: Vec<(usize, usize, String, usize)>)
    ensures
        match_views(r@) == spec_filter_js_matches(match_views(matches@)),
{
    let sorted = sort_matches(matches);
    let ghost sv = match_views(sorted@);
    let mut kept: Vec<(usize, usize, String, usize)> = Vec::new();
    let mut last_end: usize = 0;
    let mut i: usize = 0;
    while i < sorted.len()
        invariant
            sv == match_views(sorted@),
            i <= sorted@.len(),
            match_views(kept@) == kept_matches(sv, i as nat).0,
            last_end as nat == kept_matches(sv, i as nat).1,
        decreases sorted.len() - i,
    {
        assert(sv[i as int] == (sorted@[i as int].0, sorted@[i as int].1, sorted@[i as int].2@, sorted@[i as int].3));
        if sorted[i].0 >= last_end {
            let ghost before = match_views(kept@);
            kept.push(copy_match(&sorted[i]));
            assert(match_views(kept@) =~= before.push(sv[i as int]));
            last_end = sorted[i].1;
        }
        i = i + 1;
    }
    kept
}

/// The items of the kept matches, in order: each match's text under the
/// key `js_key_<number>`.
pub open spec fn js_item_ok(item: GlobalBatchItem, m: JsMatch, file_id: usize, rel_path: Seq<char>) -> bool {
    &&& item.original@ == m.2
    &&& item.preprocessed@ == m.2
    &&& item.markers@.len() == 0
    &&& item.file_id == file_id
    &&& item.rel_path@ == rel_path
    &&& item.key@ == js_key(m.3)
    &&& item.translated is None
    &&& item.alt_source is None
}

/// The translation items of a script's kept matches (see `js_item_ok`).
pub fn js_items(kept: &Vec<(usize, usize, String, usize)>, file_id: usize, rel_path: &str) -> (r: Vec<GlobalBatchItem>)
    ensures
        r@.len() == kept@.len(),
        forall|k: int| 0 <= k < r@.len() ==> js_item_ok(#[trigger] r@[k], match_views(kept@)[k], file_id, rel_path@),
{
    let mut out: Vec<GlobalBatchItem> = Vec::new();
    let mut i: usize = 0;
    while i < kept.len()
        invariant
            i <= kept@.len(),
            out@.len() == i,
            forall|k: int| 0 <= k < i ==> js_item_ok(#[trigger] out@[k], match_views(kept@)[k], file_id, rel_path@),
        decreases kept.len() - i,
    {
        let mut key = chars_of("js_key_");
        extend_chars(&mut key, &decimal_chars(kept[i].3));
        assert(key@ == js_key(kept@[i as int].3));
        let k = string_of(&key);
        let item = GlobalBatchItem::new(kept[i].2.as_str(), file_id, rel_path, k.as_str());
        out.push(item);
        i = i + 1;
    }
    out
}

/// What a script's matches give: none when nothing matched, else the kept
/// matches (see `filter_js_matches`) and their items (see `js_items`).
pub fn collect_js_matches(matches: &Vec<(usize, usize, String, usize)>, file_id: usize, rel_path: &str) -> (r: Option<
    (Vec<(usize, usize, String, usize)>, Vec<GlobalBatchItem>),
>)
    ensures
        matches@.len() == 0 <==> r is None,
        r matches Some((kept, items)) ==> {
            &&& match_views(kept@) == spec_filter_js_matches(match_views(matches@))
            &&& items@.len() == kept@.len()
            &&& forall|k: int| 0 <= k < items@.len() ==> js_item_ok(#[trigger] items@[k], match_views(kept@)[k], file_id, rel_path@)
        },
{
    if matches.len() == 0 {
        return None;
    }
    let kept = filter_js_matches(matches);
    let items = js_items(&kept, file_id, rel_path);
    Some((kept, items))
}

/// Each kept match starts at or after the end of the match kept before it,
/// the kept matches come in order of start, and each of them is one of the
/// matches.
pub proof fn law_js_matches_disjoint(matches: Seq<JsMatch>)
    ensures
        forall|k: int|
            0 < k < spec_filter_js_matches(matches).len() ==> (#[trigger] spec_filter_js_matches(matches)[k]).0
                >= spec_filter_js_matches(matches)[k - 1].1,
        sorted_by(spec_filter_js_matches(matches), match_start_before()),
        forall|k: int|
            0 <= k < spec_filter_js_matches(matches).len() ==> matches.contains(
                #[trigger] spec_filter_js_matches(matches)[k],
            ),
{
    broadcast use vstd::seq_lib::group_to_multiset_ensures;

    let sorted = sort_ordered(matches, match_start_before());
    lemma_sort_ordered(matches, match_start_before());
    assert(strict_weak_order(match_start_before()));
    lemma_kept_matches(sorted, sorted.len());
    let kept = spec_filter_js_matches(matches);
    assert forall|k: int| 0 <= k < kept.len() implies matches.contains(#[trigger] kept[k]) by {
        let j = choose|j: int| 0 <= j < sorted.len() && sorted[j] == kept[k];
        assert(sorted.contains(kept[k]));
        assert(matches.to_multiset().count(kept[k]) > 0);
    }
}

/// What `kept_matches` keeps: the last kept end is that of its last match,
/// each kept match starts at or after the end of the one before, the kept
/// matches are in the order of `s` and are matches of `s`.
proof fn lemma_kept_matches(s: Seq<JsMatch>, i: nat)
    requires
        i <= s.len(),
        sorted_by(s, match_start_before()),
    ensures
        ({
            let (k, e) = kept_matches(s, i);
            &&& k.len() > 0 ==> e == k.last().1
            &&& k.len() == 0 ==> e == 0
            &&& forall|a: int| 0 < a < k.len() ==> (#[trigger] k[a]).0 >= k[a - 1].1
            &&& sorted_by(k, match_start_before())
            &&& forall|a: int| 0 <= a < k.len() ==> exists|j: int| 0 <= j < i && s[j] == #[trigger] k[a]
        }),
    decreases i,
{
    if i > 0 {
        lemma_kept_matches(s, (i - 1) as nat);
    }
}

} // verus!

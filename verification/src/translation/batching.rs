//! Items of a translation run and how they are grouped into the batches sent
//! to a translation service.
use vstd::prelude::*;
use crate::order::{insert_ordered, lemma_sort_ordered, sort_ordered};
use crate::translation::glossary::automaton::{ac_leftmost_longest_ci, ac_patterns, entry_terms, find_all_matches, leftmost_longest_ci_matches, GlossaryAutomaton, GlossaryEntry, Term};
use aho_corasick::AhoCorasick;
use crate::file::plan::opt_view;
use crate::text::{chars_eq_str, char_index_at_byte, char_index_of_byte, is_byte_boundary, sub_chars, byte_len, chars_of, decimal, decimal_chars, dedup, extend_chars, extend_str, lemma_dedup_contains, string_of, utf8_len};

verus! {

/// One text of a translation run, with where it came from and what became
/// of it.
pub struct GlobalBatchItem {
    /// The text as it stands in its file, formatting codes included.
    pub original: String,
    /// The text that goes to the translation service.
    pub preprocessed: String,
    /// What was taken out of `original` to make `preprocessed`.
    pub markers: Vec<String>,
    /// The file task the text belongs to.
    pub file_id: usize,
    /// The file's path, for the log.
    pub rel_path: String,
    /// The key or path of the text within its file.
    pub key: String,
    /// The translation, once there is one.
    pub translated: Option<String>,
    /// The same key's text in a sibling Chinese language file, if any.
    pub alt_source: Option<String>,
}

impl GlobalBatchItem {
    /// A fresh item: nothing translated yet, no sibling text, and the text
    /// sent as it is (`preprocessed` is the original, no markers).
    pub fn new(original: &str, file_id: usize, rel_path: &str, key: &str) -> (r: Self)
        ensures
            r.original@ == original@,
            r.preprocessed@ == original@,
            r.markers@.len() == 0,
            r.file_id == file_id,
            r.rel_path@ == rel_path@,
            r.key@ == key@,
            r.translated is None,
            r.alt_source is None,
    {
        GlobalBatchItem {
            original: original.to_owned(),
            preprocessed: original.to_owned(),
            markers: Vec::new(),
            file_id,
            rel_path: rel_path.to_owned(),
            key: key.to_owned(),
            translated: None,
            alt_source: None,
        }
    }
}

// ---------------------------------------------------------------------------
// Batches
// ---------------------------------------------------------------------------

/// The byte length of an item's text as sent.
pub open spec fn item_len(items: Seq<GlobalBatchItem>, idx: usize) -> nat {
    utf8_len(items[idx as int].preprocessed@)
}

/// The total byte length of a batch.
pub open spec fn batch_chars(items: Seq<GlobalBatchItem>, b: Seq<usize>) -> nat
    decreases b.len(),
{
    if b.len() == 0 {
        0
    } else {
        batch_chars(items, b.drop_last()) + item_len(items, b.last())
    }
}

/// A batch fits: a single item always does; more items fit when there are
/// at most `max_items` of them and at most `max_chars` bytes in all.
pub open spec fn fits(items: Seq<GlobalBatchItem>, b: Seq<usize>, max_items: nat, max_chars: nat) -> bool {
    b.len() == 1 || (b.len() <= max_items && batch_chars(items, b) <= max_chars)
}

/// The batches one after the other.
pub open spec fn concat(bs: Seq<Seq<usize>>) -> Seq<usize>
    decreases bs.len(),
{
    if bs.len() == 0 {
        Seq::empty()
    } else {
        concat(bs.drop_last()) + bs.last()
    }
}

/// The batches cut from `indices` greedily: in order, none empty, each
/// fitting, and none that could have taken the first item of the next.
pub open spec fn greedy_batches(
    items: Seq<GlobalBatchItem>,
    indices: Seq<usize>,
    max_items: nat,
    max_chars: nat,
    bs: Seq<Seq<usize>>,
) -> bool {
    &&& concat(bs) == indices
    &&& forall|k: int|
        0 <= k < bs.len() ==> (#[trigger] bs[k]).len() > 0 && fits(items, bs[k], max_items, max_chars)
    &&& forall|k: int|
        0 <= k < bs.len() - 1 ==> !fits(items, (#[trigger] bs[k]).push(bs[k + 1][0]), max_items, max_chars)
}

/// Views of a vector of index vectors.
pub open spec fn index_batches(v: Seq<Vec<usize>>) -> Seq<Seq<usize>> {
    v.map_values(|b: Vec<usize>| b@)
}

/// Groups `indices` into batches of at most `max_items` items and
/// `max_chars` bytes (a single item may exceed the byte limit), cutting a new
/// batch only when the next item does not fit.
pub fn create_adaptive_batches_from_indices(
    items: &[GlobalBatchItem],
    indices: &[usize],
    max_items: u32,
    max_chars: u32,
) -> (r: Vec<Vec<usize>>)
    requires
        forall|k: int| 0 <= k < indices@.len() ==> (#[trigger] indices@[k]) < items@.len(),
        forall|k: int|
            0 <= k < indices@.len() ==> item_len(items@, #[trigger] indices@[k]) <= u32::MAX,
    ensures
        greedy_batches(items@, indices@, max_items as nat, max_chars as nat, index_batches(r@)),
{
    let mut batches: Vec<Vec<usize>> = Vec::new();
    let mut current: Vec<usize> = Vec::new();
    let mut current_chars: u64 = 0;
    let mut i: usize = 0;
    while i < indices.len()
        invariant
            i <= indices.len(),
            forall|k: int| 0 <= k < indices@.len() ==> (#[trigger] indices@[k]) < items@.len(),
            forall|k: int|
                0 <= k < indices@.len() ==> item_len(items@, #[trigger] indices@[k]) <= u32::MAX,
            concat(index_batches(batches@)) + current@ == indices@.take(i as int),
            forall|k: int|
                0 <= k < batches@.len() ==> (#[trigger] index_batches(batches@)[k]).len() > 0
                    && fits(items@, index_batches(batches@)[k], max_items as nat, max_chars as nat),
            forall|k: int|
                0 <= k < batches@.len() - 1 ==> !fits(
                    items@,
                    (#[trigger] index_batches(batches@)[k]).push(index_batches(batches@)[k + 1][0]),
                    max_items as nat,
                    max_chars as nat,
                ),
            current@.len() > 0 ==> fits(items@, current@, max_items as nat, max_chars as nat),
            current@.len() > 0 && batches@.len() > 0 ==> !fits(
                items@,
                index_batches(batches@).last().push(current@[0]),
                max_items as nat,
                max_chars as nat,
            ),
            current@.len() == 0 ==> i == 0 && batches@.len() == 0,
            current_chars == batch_chars(items@, current@),
            current_chars <= u32::MAX as nat || current@.len() == 1,
            current_chars <= 2 * (u32::MAX as nat),
            current@.len() <= i,
        decreases indices.len() - i,
    {
        let idx = indices[i];
        let len = byte_len(items[idx].preprocessed.as_str()) as u64;
        let ghost bv = index_batches(batches@);
        let ghost cv = current@;
        let start_new = current.len() > 0 && (current.len() as u64 >= max_items as u64
            || current_chars + len > max_chars as u64);
        assert(cv.push(idx).drop_last() =~= cv);
        if start_new {
            batches.push(current);
            current = Vec::new();
            current_chars = 0;
            proof {
                assert(index_batches(batches@) =~= bv.push(cv));
                assert(bv.push(cv).drop_last() =~= bv);
                assert(concat(bv.push(cv)) == concat(bv) + cv);
            }
        }
        let ghost cv2 = current@;
        assert(batch_chars(items@, cv2) == current_chars);
        current.push(idx);
        current_chars = current_chars + len;
        proof {
            assert(current@.drop_last() =~= cv2);
            assert(current@.last() == idx);
            assert(len == item_len(items@, idx));
            assert(indices@.take(i + 1) =~= indices@.take(i as int).push(idx));
            if start_new {
                assert(current@ =~= seq![idx]);
                assert(seq![idx].drop_last() =~= Seq::<usize>::empty());
            }
        }
        i = i + 1;
    }
    if current.len() > 0 {
        let ghost bv = index_batches(batches@);
        let ghost cv = current@;
        batches.push(current);
        proof {
            assert(index_batches(batches@) =~= bv.push(cv));
            assert(bv.push(cv).drop_last() =~= bv);
            assert(concat(bv.push(cv)) == concat(bv) + cv);
        }
    }
    proof {
        assert(indices@.take(indices@.len() as int) =~= indices@);
    }
    batches
}

// ---------------------------------------------------------------------------
// Tagged texts of a batch
// ---------------------------------------------------------------------------

/// The texts of the batch's items, in batch order.
pub open spec fn batch_texts(items: Seq<GlobalBatchItem>, b: Seq<usize>) -> Seq<Seq<char>> {
    b.map_values(|i: usize| items[i as int].preprocessed@)
}

/// `[i<p>]` followed by the text: the text tagged with its position in the
/// batch.
pub open spec fn tag(p: nat, text: Seq<char>) -> Seq<char> {
    seq!['[', 'i'] + decimal(p) + seq![']'] + text
}

/// The tagged texts sent for a batch: each distinct text once, tagged with
/// the position of its first occurrence.
pub open spec fn tagged_texts(items: Seq<GlobalBatchItem>, b: Seq<usize>) -> Seq<Seq<char>>
    decreases b.len(),
{
    if b.len() == 0 {
        Seq::empty()
    } else {
        let pre = items[b.last() as int].preprocessed@;
        if batch_texts(items, b.drop_last()).contains(pre) {
            tagged_texts(items, b.drop_last())
        } else {
            tagged_texts(items, b.drop_last()).push(tag((b.len() - 1) as nat, pre))
        }
    }
}

/// The strings' character sequences.
pub open spec fn strings_view(v: Seq<String>) -> Seq<Seq<char>> {
    v.map_values(|s: String| s@)
}

pub(crate) fn contains_string(v: &Vec<String>, s: &String) -> (r: bool)
    ensures
        r == strings_view(v@).contains(s@),
{
    let mut j: usize = 0;
    while j < v.len()
        invariant
            j <= v.len(),
            forall|k: int| 0 <= k < j ==> strings_view(v@)[k] != s@,
        decreases v.len() - j,
    {
        if v[j] == *s {
            assert(strings_view(v@)[j as int] == s@);
            return true;
        }
        j = j + 1;
    }
    false
}

/// The tagged texts of a batch and the distinct texts to translate: each
/// distinct text of the batch once, in order of first occurrence, tagged
/// `[i<p>]` with the position `p` of that occurrence.
pub fn build_tagged_batch_texts(all_items: &[GlobalBatchItem], batch_indices: &[usize]) -> (r: (
    Vec<String>,
    Vec<String>,
))
    requires
        forall|k: int|
            0 <= k < batch_indices@.len() ==> (#[trigger] batch_indices@[k]) < all_items@.len(),
    ensures
        strings_view(r.0@) == tagged_texts(all_items@, batch_indices@),
        strings_view(r.1@) == dedup(batch_texts(all_items@, batch_indices@)),
{
    let mut texts: Vec<String> = Vec::new();
    let mut tagged: Vec<String> = Vec::new();
    let mut p: usize = 0;
    let ghost b = batch_indices@;
    assert(b.take(0) =~= Seq::<usize>::empty());
    assert(batch_texts(all_items@, b.take(0)) =~= Seq::<Seq<char>>::empty());
    while p < batch_indices.len()
        invariant
            b == batch_indices@,
            p <= b.len(),
            forall|k: int| 0 <= k < b.len() ==> (#[trigger] b[k]) < all_items@.len(),
            strings_view(tagged@) == tagged_texts(all_items@, b.take(p as int)),
            strings_view(texts@) == dedup(batch_texts(all_items@, b.take(p as int))),
        decreases b.len() - p,
    {
        let idx = batch_indices[p];
        let pre = &all_items[idx].preprocessed;
        let ghost prev = batch_texts(all_items@, b.take(p as int));
        proof {
            assert(b.take(p + 1).drop_last() =~= b.take(p as int));
            assert(b.take(p + 1).last() == idx);
            assert(batch_texts(all_items@, b.take(p + 1)) =~= prev.push(pre@));
            assert(prev.push(pre@).drop_last() =~= prev);
            lemma_dedup_contains(prev, pre@);
        }
        if !contains_string(&texts, pre) {
            let mut t = chars_of("[i");
            proof {
                reveal_strlit("[i");
            }
            assert(t@ =~= seq!['[', 'i']);
            extend_chars(&mut t, &decimal_chars(p));
            t.push(']');
            extend_str(&mut t, pre.as_str());
            assert(t@ =~= tag(p as nat, pre@));
            let ghost tv = strings_view(tagged@);
            let ghost xv = strings_view(texts@);
            tagged.push(string_of(&t));
            texts.push(pre.clone());
            proof {
                assert(strings_view(tagged@) =~= tv.push(tag(p as nat, pre@)));
                assert(strings_view(texts@) =~= xv.push(pre@));
            }
        }
        p = p + 1;
    }
    assert(b.take(b.len() as int) =~= b);
    (tagged, texts)
}

// ---------------------------------------------------------------------------
// Fast conversion between Chinese scripts
// ---------------------------------------------------------------------------

/// What `hanconv::s2tw` makes of a text: Simplified Chinese converted to
/// Traditional Chinese (Taiwan) by the crate's dictionaries.
pub uninterp spec fn spec_s2tw(s: Seq<char>) -> Seq<char>;

/// What `hanconv::tw2s` makes of a text: Traditional Chinese (Taiwan)
/// converted to Simplified Chinese by the crate's dictionaries.
pub uninterp spec fn spec_tw2s(s: Seq<char>) -> Seq<char>;

/// `hanconv::s2tw`; the result is named by `spec_s2tw`.
#[verifier::external_body]
pub(crate) fn s2tw_text(s: &str) -> (r: String)
    ensures
        r@ == spec_s2tw(s@),
{
    hanconv::s2tw(s)
}

/// `hanconv::tw2s`; the result is named by `spec_tw2s`.
#[verifier::external_body]
fn tw2s(s: &str) -> (r: String)
    ensures
        r@ == spec_tw2s(s@),
{
    hanconv::tw2s(s)
}

/// A replacement of the bytes `start..end` by a text.
pub type Repl = (usize, usize, Seq<char>);

/// The replacements of the matches: each match's range by its entry's
/// translation (matches of no entry give none).
pub open spec fn match_repls(entries: Seq<Term>, ms: Seq<(usize, usize, usize)>) -> Seq<Repl>
    decreases ms.len(),
{
    if ms.len() == 0 {
        Seq::empty()
    } else {
        let m = ms.last();
        let rest = match_repls(entries, ms.drop_last());
        if (m.0 as int) < entries.len() {
            rest.push((m.1, m.2, entries[m.0 as int].1))
        } else {
            rest
        }
    }
}

/// `x` placed into `s` (latest start first) after every replacement that
/// starts no earlier.
pub open spec fn insert_by_start(s: Seq<Repl>, x: Repl) -> Seq<Repl>
    decreases s.len(),
{
    if s.len() == 0 {
        seq![x]
    } else if x.0 > s.last().0 {
        insert_by_start(s.drop_last(), x).push(s.last())
    } else {
        s.push(x)
    }
}

/// The replacements, latest start first, those with equal starts keeping
/// their order (a stable sort).
pub open spec fn sort_by_start_desc(s: Seq<Repl>) -> Seq<Repl>
    decreases s.len(),
{
    if s.len() == 0 {
        s
    } else {
        insert_by_start(sort_by_start_desc(s.drop_last()), s.last())
    }
}

/// The replacements applied one after the other to `cur` (which agrees with
/// the text `t` before position `limit`): each whose byte range falls
/// between characters of `t` and ends no later than where the previous one
/// started replaces that range; others are passed over.
pub open spec fn apply_repls(t: Seq<char>, rs: Seq<Repl>, cur: Seq<char>, limit: int) -> Seq<char>
    decreases rs.len(),
{
    if rs.len() == 0 {
        cur
    } else {
        let r = rs[0];
        let a = char_index_of_byte(t, r.0 as int);
        let b = char_index_of_byte(t, r.1 as int);
        if is_byte_boundary(t, r.0 as int) && is_byte_boundary(t, r.1 as int) && a <= b <= limit {
            apply_repls(t, rs.drop_first(), cur.take(a) + r.2 + cur.skip(b), a)
        } else {
            apply_repls(t, rs.drop_first(), cur, limit)
        }
    }
}

/// The text with the glossary's terms replaced by their translations (from
/// the last match to the first), then converted by `hanconv`: to
/// Traditional Chinese (Taiwan) when `to_tw`, else to Simplified Chinese.
pub open spec fn spec_glossary_then_hanconv(
    ac: AhoCorasick,
    entries: Seq<Term>,
    text: Seq<char>,
    to_tw: bool,
) -> Seq<char> {
    let rs = sort_by_start_desc(match_repls(entries, leftmost_longest_ci_matches(ac_patterns(ac), text)));
    let replaced = apply_repls(text, rs, text, text.len() as int);
    if to_tw {
        spec_s2tw(replaced)
    } else {
        spec_tw2s(replaced)
    }
}

// ---------------------------------------------------------------------------
// Law of the replacement: every match is replaced
// ---------------------------------------------------------------------------

/// The character position of byte `b` of `t`.
pub open spec fn cpos(t: Seq<char>, b: usize) -> int {
    char_index_of_byte(t, b as int)
}

/// Replacements latest first that do not overlap: each range falls between
/// characters of `t`, and each ends no later than the one before it starts.
pub open spec fn disjoint_latest_first(t: Seq<char>, rs: Seq<Repl>) -> bool {
    &&& forall|i: int|
        0 <= i < rs.len() ==> is_byte_boundary(t, (#[trigger] rs[i]).0 as int) && is_byte_boundary(t, rs[i].1 as int)
            && cpos(t, rs[i].0) <= cpos(t, rs[i].1)
    &&& forall|i: int| 0 <= i < rs.len() - 1 ==> cpos(t, (#[trigger] rs[i + 1]).1) <= cpos(t, rs[i].0)
}

/// The first `end` characters of `t` with every range of `rs` (latest
/// first, all before `end`) replaced by its text: the part before the
/// latest range, its text, then the rest of `t` up to `end`.
pub open spec fn spliced(t: Seq<char>, rs: Seq<Repl>, end: int) -> Seq<char>
    decreases rs.len(),
{
    if rs.len() == 0 {
        t.take(end)
    } else {
        spliced(t, rs.drop_first(), cpos(t, rs[0].0)) + rs[0].2 + t.subrange(cpos(t, rs[0].1), end)
    }
}

proof fn lemma_byte_pos_in_range(t: Seq<char>, b: int)
    requires
        is_byte_boundary(t, b),
    ensures
        0 <= char_index_of_byte(t, b) <= t.len(),
{
}

proof fn lemma_apply_repls_spliced(t: Seq<char>, rs: Seq<Repl>, cur: Seq<char>, limit: int)
    requires
        disjoint_latest_first(t, rs),
        0 <= limit <= t.len(),
        limit <= cur.len(),
        cur.take(limit) == t.take(limit),
        rs.len() > 0 ==> cpos(t, rs[0].1) <= limit,
    ensures
        apply_repls(t, rs, cur, limit) == spliced(t, rs, limit) + cur.skip(limit),
    decreases rs.len(),
{
    if rs.len() == 0 {
        assert(cur =~= cur.take(limit) + cur.skip(limit));
    } else {
        let r = rs[0];
        assert(is_byte_boundary(t, r.0 as int) && is_byte_boundary(t, r.1 as int) && cpos(t, r.0) <= cpos(t, r.1));
        lemma_byte_pos_in_range(t, r.0 as int);
        lemma_byte_pos_in_range(t, r.1 as int);
        let a = cpos(t, r.0);
        let b = cpos(t, r.1);
        let next = cur.take(a) + r.2 + cur.skip(b);
        let rest = rs.drop_first();
        assert forall|i: int| 0 <= i < rest.len() implies is_byte_boundary(t, (#[trigger] rest[i]).0 as int)
            && is_byte_boundary(t, rest[i].1 as int) && cpos(t, rest[i].0) <= cpos(t, rest[i].1) by {
            assert(rest[i] == rs[i + 1]);
        }
        assert forall|i: int| 0 <= i < rest.len() - 1 implies cpos(t, (#[trigger] rest[i + 1]).1) <= cpos(
            t,
            rest[i].0,
        ) by {
            assert(rest[i] == rs[i + 1]);
            assert(rest[i + 1] == rs[i + 2]);
        }
        if rest.len() > 0 {
            assert(rest[0] == rs[1]);
        }
        assert(next.take(a) =~= cur.take(a));
        assert(cur.take(a) =~= cur.take(limit).take(a));
        assert(t.take(a) =~= t.take(limit).take(a));
        lemma_apply_repls_spliced(t, rest, next, a);
        assert(next.skip(a) =~= r.2 + cur.skip(b));
        assert(cur.skip(b) =~= cur.take(limit).subrange(b, limit) + cur.skip(limit));
        assert(t.subrange(b, limit) =~= t.take(limit).subrange(b, limit));
        assert(spliced(t, rs, limit) == spliced(t, rest, a) + r.2 + t.subrange(b, limit));
        assert(apply_repls(t, rs, cur, limit) == apply_repls(t, rest, next, a));
        assert(spliced(t, rest, a) + r.2 + t.subrange(b, limit) + cur.skip(limit) =~= spliced(t, rest, a) + (r.2
            + cur.skip(b)));
    }
}

/// Every replacement is made: replacements latest first that do not overlap
/// turn the text into the text with each range replaced by its own text
/// (see `spliced`), whatever their number; none is left out.
pub proof fn law_every_replacement_made(t: Seq<char>, rs: Seq<Repl>)
    requires
        disjoint_latest_first(t, rs),
    ensures
        apply_repls(t, rs, t, t.len() as int) == spliced(t, rs, t.len() as int),
{
    if rs.len() > 0 {
        assert(is_byte_boundary(t, rs[0].1 as int));
        lemma_byte_pos_in_range(t, rs[0].1 as int);
    }
    assert(t.take(t.len() as int) =~= t);
    lemma_apply_repls_spliced(t, rs, t, t.len() as int);
    assert(spliced(t, rs, t.len() as int) + t.skip(t.len() as int) =~= spliced(t, rs, t.len() as int));
}

/// Fast conversion replaces every glossary match before converting the
/// script: when the matches' replacements (latest first) do not overlap, the
/// result is the converted text with every matched range replaced by its
/// term's translation.
pub proof fn law_glossary_then_hanconv_replaces_all(ac: AhoCorasick, entries: Seq<Term>, text: Seq<char>, to_tw: bool)
    requires
        disjoint_latest_first(
            text,
            sort_by_start_desc(match_repls(entries, leftmost_longest_ci_matches(ac_patterns(ac), text))),
        ),
    ensures
        ({
            let rs = sort_by_start_desc(match_repls(entries, leftmost_longest_ci_matches(ac_patterns(ac), text)));
            let whole = spliced(text, rs, text.len() as int);
            spec_glossary_then_hanconv(ac, entries, text, to_tw) == if to_tw {
                spec_s2tw(whole)
            } else {
                spec_tw2s(whole)
            }
        }),
{
    let rs = sort_by_start_desc(match_repls(entries, leftmost_longest_ci_matches(ac_patterns(ac), text)));
    law_every_replacement_made(text, rs);
}

fn copy_chars_vec(v: &Vec<char>) -> (r: Vec<char>)
    ensures
        r@ == v@,
{
    let r = sub_chars(v, 0, v.len());
    assert(v@.subrange(0, v@.len() as int) =~= v@);
    r
}

proof fn lemma_insert_by_start_at(s: Seq<Repl>, x: Repl, p: int)
    requires
        0 <= p <= s.len(),
        forall|k: int| p <= k < s.len() ==> x.0 > (#[trigger] s[k]).0,
        p > 0 ==> !(x.0 > s[p - 1].0),
    ensures
        insert_by_start(s, x) == s.insert(p, x),
    decreases s.len() - p,
{
    if p == s.len() {
        if s.len() == 0 {
            assert(s.insert(p, x) =~= seq![x]);
        } else {
            assert(s.insert(p, x) =~= s.push(x));
        }
    } else {
        let d = s.drop_last();
        assert forall|k: int| p <= k < d.len() implies x.0 > (#[trigger] d[k]).0 by {
            assert(d[k] == s[k]);
        }
        if p > 0 {
            assert(d[p - 1] == s[p - 1]);
        }
        assert(x.0 > s[s.len() - 1].0);
        lemma_insert_by_start_at(d, x, p);
        assert(d.insert(p, x).push(s.last()) =~= s.insert(p, x));
    }
}

/// Replacements as the specifications see them.
pub open spec fn repl_views(v: Seq<(usize, usize, Vec<char>)>) -> Seq<Repl> {
    v.map_values(|r: (usize, usize, Vec<char>)| (r.0, r.1, r.2@))
}

fn collect_repls(entries: &Vec<GlossaryEntry>, ms: &Vec<(usize, usize, usize)>) -> (r: Vec<(usize, usize, Vec<char>)>)
    ensures
        repl_views(r@) == sort_by_start_desc(match_repls(entry_terms(entries@), ms@)),
{
    let ghost es = entry_terms(entries@);
    let mut out: Vec<(usize, usize, Vec<char>)> = Vec::new();
    let mut i: usize = 0;
    assert(ms@.take(0) =~= Seq::<(usize, usize, usize)>::empty());
    while i < ms.len()
        invariant
            es == entry_terms(entries@),
            i <= ms.len(),
            repl_views(out@) == sort_by_start_desc(match_repls(es, ms@.take(i as int))),
        decreases ms.len() - i,
    {
        proof {
            assert(ms@.take(i + 1).drop_last() =~= ms@.take(i as int));
            assert(ms@.take(i + 1).last() == ms@[i as int]);
        }
        let (pat, start, end) = ms[i];
        if pat < entries.len() {
            let rep = chars_of(entries[pat].translated.as_str());
            let ghost x: Repl = (start, end, rep@);
            assert(x == (start, end, es[pat as int].1));
            let ghost o = repl_views(out@);
            let mut p: usize = out.len();
            while p > 0 && start > out[p - 1].0
                invariant
                    o == repl_views(out@),
                    p <= out.len(),
                    x.0 == start,
                    forall|k: int| p <= k < o.len() ==> x.0 > (#[trigger] o[k]).0,
                decreases p,
            {
                assert(o[p - 1].0 == out@[p - 1].0);
                p = p - 1;
            }
            proof {
                if p > 0 {
                    assert(o[p - 1].0 == out@[p - 1].0);
                }
                lemma_insert_by_start_at(o, x, p as int);
            }
            out.insert(p, (start, end, rep));
            proof {
                let s0 = match_repls(es, ms@.take(i as int));
                assert(match_repls(es, ms@.take(i + 1)) == s0.push(x));
                assert(s0.push(x).drop_last() =~= s0);
                assert(sort_by_start_desc(s0.push(x)) == insert_by_start(sort_by_start_desc(s0), x));
                assert(repl_views(out@) =~= o.insert(p as int, x));
            }
        } else {
            assert(match_repls(es, ms@.take(i + 1)) == match_repls(es, ms@.take(i as int)));
        }
        i = i + 1;
    }
    assert(ms@.take(ms.len() as int) =~= ms@);
    out
}

/// The text with the glossary's terms replaced by their translations, then
/// converted between Chinese scripts (see `spec_glossary_then_hanconv`).
pub fn apply_glossary_then_hanconv(text: &str, automaton: &GlossaryAutomaton, to_tw: bool) -> (r: String)
    ensures
        ac_leftmost_longest_ci(automaton.ac) ==> r@ == spec_glossary_then_hanconv(
            automaton.ac,
            entry_terms(automaton.entries@),
            text@,
            to_tw,
        ),
{
    let t = chars_of(text);
    let ms = find_all_matches(&automaton.ac, text);
    let rs = collect_repls(&automaton.entries, &ms);
    let ghost rv = repl_views(rs@);
    let mut cur = copy_chars_vec(&t);
    let mut limit: usize = t.len();
    let mut i: usize = 0;
    assert(rv.skip(0) =~= rv);
    while i < rs.len()
        invariant
            rv == repl_views(rs@),
            i <= rs.len(),
            limit <= cur@.len(),
            limit <= t@.len(),
            cur@.take(limit as int) == t@.take(limit as int),
            apply_repls(t@, rv.skip(i as int), cur@, limit as int) == apply_repls(t@, rv, t@, t@.len() as int),
        decreases rs.len() - i,
    {
        let ghost rest = rv.skip(i as int);
        assert(rest[0] == rv[i as int]);
        assert(rest.drop_first() =~= rv.skip(i + 1));
        let (start, end) = (rs[i].0, rs[i].1);
        let a = char_index_at_byte(&t, start);
        let b = char_index_at_byte(&t, end);
        match (a, b) {
            (Some(a), Some(b)) => {
                if a <= b && b <= limit {
                    let mut next = sub_chars(&cur, 0, a);
                    extend_chars(&mut next, &rs[i].2);
                    let tail = sub_chars(&cur, b, cur.len());
                    extend_chars(&mut next, &tail);
                    proof {
                        assert(cur@.subrange(0, a as int) =~= cur@.take(a as int));
                        assert(cur@.subrange(b as int, cur@.len() as int) =~= cur@.skip(b as int));
                        assert(next@ =~= cur@.take(a as int) + rv[i as int].2 + cur@.skip(b as int));
                        assert(next@.take(a as int) =~= cur@.take(a as int));
                        assert(cur@.take(a as int) =~= cur@.take(limit as int).take(a as int));
                        assert(t@.take(a as int) =~= t@.take(limit as int).take(a as int));
                    }
                    cur = next;
                    limit = a;
                }
            },
            _ => {},
        }
        i = i + 1;
    }
    let replaced = string_of(&cur);
    if to_tw {
        s2tw_text(replaced.as_str())
    } else {
        tw2s(replaced.as_str())
    }
}

// ---------------------------------------------------------------------------
// The decisions of a run over a group of items
// ---------------------------------------------------------------------------

/// The positions of the items not yet translated, in order.
pub open spec fn spec_pending(items: Seq<GlobalBatchItem>) -> Seq<usize>
    decreases items.len(),
{
    if items.len() == 0 {
        Seq::empty()
    } else if items.last().translated is None {
        spec_pending(items.drop_last()).push((items.len() - 1) as usize)
    } else {
        spec_pending(items.drop_last())
    }
}

/// The positions of the items not yet translated, in order.
pub fn pending_indices(items: &[GlobalBatchItem]) -> (r: Vec<usize>)
    ensures
        r@ == spec_pending(items@),
{
    let mut r: Vec<usize> = Vec::new();
    let mut i: usize = 0;
    assert(items@.take(0) =~= Seq::<GlobalBatchItem>::empty());
    while i < items.len()
        invariant
            i <= items.len(),
            r@ == spec_pending(items@.take(i as int)),
        decreases items.len() - i,
    {
        assert(items@.take(i + 1).drop_last() =~= items@.take(i as int));
        assert(items@.take(i + 1).last() == items@[i as int]);
        if items[i].translated.is_none() {
            r.push(i);
        }
        i = i + 1;
    }
    assert(items@.take(items.len() as int) =~= items@);
    r
}

/// How a run converts between Chinese scripts without a translation
/// service.
#[derive(Clone, Copy, Debug, PartialEq, Eq, Structural)]
pub enum FastConvert {
    /// Source and target are the two Chinese scripts: every pending item is
    /// converted (to Traditional when `to_tw`).
    WholeBatch { to_tw: bool },
    /// The target is a Chinese script and the source is not: the pending
    /// items with a sibling Chinese text are converted from it.
    FromSibling { to_tw: bool },
    /// No conversion; every pending item goes to the service.
    Off,
}

/// The fast conversion that the settings call for.
pub open spec fn spec_fast_convert(enabled: bool, source: Seq<char>, target: Seq<char>) -> FastConvert {
    let pair = (source == "zh_cn"@ && target == "zh_tw"@) || (source == "zh_tw"@ && target == "zh_cn"@);
    if enabled && pair {
        FastConvert::WholeBatch { to_tw: source == "zh_cn"@ }
    } else if enabled && (target == "zh_cn"@ || target == "zh_tw"@) {
        FastConvert::FromSibling { to_tw: target == "zh_tw"@ }
    } else {
        FastConvert::Off
    }
}

/// The fast conversion that the settings call for (see `spec_fast_convert`).
pub fn fast_convert_mode(enabled: bool, source_lang: &str, target_lang: &str) -> (r: FastConvert)
    ensures
        r == spec_fast_convert(enabled, source_lang@, target_lang@),
{
    let s = chars_of(source_lang);
    let t = chars_of(target_lang);
    let s_cn = chars_eq_str(&s, "zh_cn");
    let s_tw = chars_eq_str(&s, "zh_tw");
    let t_cn = chars_eq_str(&t, "zh_cn");
    let t_tw = chars_eq_str(&t, "zh_tw");
    let pair = (s_cn && t_tw) || (s_tw && t_cn);
    if enabled && pair {
        FastConvert::WholeBatch { to_tw: s_cn }
    } else if enabled && (t_cn || t_tw) {
        FastConvert::FromSibling { to_tw: t_tw }
    } else {
        FastConvert::Off
    }
}

/// `b` is `a` with at most its translation changed.
pub open spec fn same_but_translation(a: GlobalBatchItem, b: GlobalBatchItem) -> bool {
    &&& b.original == a.original
    &&& b.preprocessed == a.preprocessed
    &&& b.markers == a.markers
    &&& b.file_id == a.file_id
    &&& b.rel_path == a.rel_path
    &&& b.key == a.key
    &&& b.alt_source == a.alt_source
}

/// A step of a run over the items: it keeps their number and every field but
/// the translation, and never changes a translation already there.
pub open spec fn keeps_filled(before: Seq<GlobalBatchItem>, after: Seq<GlobalBatchItem>) -> bool {
    &&& after.len() == before.len()
    &&& forall|j: int| 0 <= j < before.len() ==> same_but_translation(before[j], #[trigger] after[j])
    &&& forall|j: int|
        0 <= j < before.len() && before[j].translated is Some ==> opt_view(#[trigger] after[j].translated)
            == opt_view(before[j].translated)
}

/// Steps that each keep the items' fields and their translations compose
/// into a run that does too: a run of such steps fills only items that had
/// no translation.
pub proof fn law_run_keeps_filled(a: Seq<GlobalBatchItem>, b: Seq<GlobalBatchItem>, c: Seq<GlobalBatchItem>)
    requires
        keeps_filled(a, b),
        keeps_filled(b, c),
    ensures
        keeps_filled(a, c),
{
    assert forall|j: int| 0 <= j < a.len() implies same_but_translation(a[j], #[trigger] c[j]) by {
        assert(same_but_translation(a[j], b[j]));
        assert(same_but_translation(b[j], c[j]));
    }
    assert forall|j: int| 0 <= j < a.len() && a[j].translated is Some implies opt_view(#[trigger] c[j].translated)
        == opt_view(a[j].translated) by {
        assert(opt_view(b[j].translated) == opt_view(a[j].translated));
        assert(b[j].translated is Some);
        assert(opt_view(c[j].translated) == opt_view(b[j].translated));
    }
}

/// The text an item is converted from, if the mode converts it: its own
/// text for a whole batch, its sibling's for a conversion from siblings.
pub open spec fn convert_source(mode: FastConvert, item: GlobalBatchItem) -> Option<Seq<char>> {
    match mode {
        FastConvert::WholeBatch { .. } => Some(item.original@),
        FastConvert::FromSibling { .. } => match item.alt_source {
            Some(a) => Some(a@),
            None => None,
        },
        FastConvert::Off => None,
    }
}

/// Whether the mode converts to Traditional Chinese.
pub open spec fn converts_to_tw(mode: FastConvert) -> bool {
    match mode {
        FastConvert::WholeBatch { to_tw } => to_tw,
        FastConvert::FromSibling { to_tw } => to_tw,
        FastConvert::Off => false,
    }
}

/// Converts the pending items that the mode converts: each gets as its
/// translation its source text (see `convert_source`) with the glossary's
/// terms replaced and the script converted; the other items are left as
/// they were. Returns how many were converted.
pub fn convert_pending_fast(
    items: &mut Vec<GlobalBatchItem>,
    pending: &Vec<usize>,
    automaton: &GlossaryAutomaton,
    mode: FastConvert,
) -> (n: usize)
    requires
        forall|k: int| 0 <= k < pending@.len() ==> (#[trigger] pending@[k]) < old(items)@.len(),
        forall|a: int, b: int| 0 <= a < b < pending@.len() ==> pending@[a] != pending@[b],
    ensures
        final(items)@.len() == old(items)@.len(),
        forall|j: int| 0 <= j < old(items)@.len() ==> same_but_translation(old(items)@[j], #[trigger] final(items)@[j]),
        forall|j: int|
            0 <= j < old(items)@.len() ==> (if pending@.contains(j as usize) && convert_source(mode, old(items)@[j]) is Some {
                (#[trigger] final(items)@[j]).translated matches Some(t) && (ac_leftmost_longest_ci(automaton.ac) ==> t@
                    == spec_glossary_then_hanconv(
                    automaton.ac,
                    entry_terms(automaton.entries@),
                    convert_source(mode, old(items)@[j])->0,
                    converts_to_tw(mode),
                ))
            } else {
                final(items)@[j] == old(items)@[j]
            }),
        n <= pending@.len(),
        (forall|k: int| 0 <= k < pending@.len() ==> old(items)@[#[trigger] pending@[k] as int].translated is None)
            ==> keeps_filled(old(items)@, final(items)@),
{
    let ghost old_items = items@;
    let mut n: usize = 0;
    let mut i: usize = 0;
    while i < pending.len()
        invariant
            old_items == old(items)@,
            items@.len() == old_items.len(),
            i <= pending.len(),
            n <= i,
            forall|k: int| 0 <= k < pending@.len() ==> (#[trigger] pending@[k]) < old_items.len(),
            forall|a: int, b: int| 0 <= a < b < pending@.len() ==> pending@[a] != pending@[b],
            forall|j: int| 0 <= j < old_items.len() ==> same_but_translation(old_items[j], #[trigger] items@[j]),
            forall|j: int|
                0 <= j < old_items.len() ==> (if pending@.take(i as int).contains(j as usize) && convert_source(mode, old_items[j]) is Some {
                    (#[trigger] items@[j]).translated matches Some(t) && (ac_leftmost_longest_ci(automaton.ac) ==> t@
                        == spec_glossary_then_hanconv(
                        automaton.ac,
                        entry_terms(automaton.entries@),
                        convert_source(mode, old_items[j])->0,
                        converts_to_tw(mode),
                    ))
                } else {
                    items@[j] == old_items[j]
                }),
        decreases pending.len() - i,
    {
        let idx = pending[i];
        proof {
            assert(pending@.take(i + 1) =~= pending@.take(i as int).push(idx));
            if pending@.take(i as int).contains(idx) {
                let q = choose|q: int| 0 <= q < i && #[trigger] pending@.take(i as int)[q] == idx;
                assert(pending@[q] == pending@[i as int]);
            }
            assert(items@[idx as int] == old_items[idx as int]);
        }
        let to_tw = match mode {
            FastConvert::WholeBatch { to_tw } => to_tw,
            FastConvert::FromSibling { to_tw } => to_tw,
            FastConvert::Off => false,
        };
        let source: Option<String> = match mode {
            FastConvert::WholeBatch { .. } => Some(items[idx].original.clone()),
            FastConvert::FromSibling { .. } => items[idx].alt_source.clone(),
            FastConvert::Off => None,
        };
        match source {
            Some(text) => {
                let converted = apply_glossary_then_hanconv(text.as_str(), automaton, to_tw);
                let ghost before = items@;
                items[idx].translated = Some(converted);
                n = n + 1;
                proof {
                    assert forall|j: int| 0 <= j < old_items.len() && j != idx implies #[trigger] items@[j] == before[j] by {}
                }
            },
            None => {},
        }
        proof {
            assert forall|j: int| 0 <= j < old_items.len() implies (if pending@.take(i + 1).contains(j as usize) && convert_source(mode, old_items[j]) is Some {
                (#[trigger] items@[j]).translated matches Some(t) && (ac_leftmost_longest_ci(automaton.ac) ==> t@
                    == spec_glossary_then_hanconv(
                    automaton.ac,
                    entry_terms(automaton.entries@),
                    convert_source(mode, old_items[j])->0,
                    converts_to_tw(mode),
                ))
            } else {
                items@[j] == old_items[j]
            }) by {
                if j != idx {
                    if pending@.take(i + 1).contains(j as usize) {
                        let q = choose|q: int| 0 <= q < i + 1 && #[trigger] pending@.take(i + 1)[q] == j as usize;
                        assert(pending@.take(i + 1)[i as int] == idx);
                        assert(items@.len() == items.len());
                        assert(j <= usize::MAX);
                        assert((j as usize) as int == j);
                        assert(j as usize != idx);
                        assert(q != i);
                        assert(pending@.take(i as int)[q] == j as usize);
                    }
                    if pending@.take(i as int).contains(j as usize) {
                        let q = choose|q: int| 0 <= q < i && #[trigger] pending@.take(i as int)[q] == j as usize;
                        assert(pending@.take(i + 1)[q] == j as usize);
                    }
                } else {
                    assert(pending@.take(i + 1)[i as int] == idx);
                }
            }
        }
        i = i + 1;
    }
    assert(pending@.take(pending.len() as int) =~= pending@);
    assert(items@.len() == items.len());
    proof {
        if forall|k: int| 0 <= k < pending@.len() ==> old_items[#[trigger] pending@[k] as int].translated is None {
            assert forall|j: int| 0 <= j < old_items.len() && old_items[j].translated is Some implies opt_view(
                #[trigger] items@[j].translated,
            ) == opt_view(old_items[j].translated) by {
                assert((j as usize) as int == j);
                if pending@.take(pending.len() as int).contains(j as usize) {
                    assert(pending@.contains(j as usize));
                    let k = choose|k: int| 0 <= k < pending@.len() && pending@[k] == j as usize;
                    assert(old_items[pending@[k] as int].translated is None);
                }
            }
        }
    }
    n
}

/// The smaller batches of a retry: half the items (at least one) and half
/// the bytes (at least a hundred).
pub fn retry_limits(batch_size: u32, max_chars: u32) -> (r: (u32, u32))
    ensures
        r.0 == (if batch_size / 2 > 1 { batch_size / 2 } else { 1 }),
        r.1 == (if max_chars / 2 > 100 { max_chars / 2 } else { 100 }),
{
    let a = batch_size / 2;
    let b = max_chars / 2;
    (if a > 1 { a } else { 1 }, if b > 100 { b } else { 100 })
}

/// The items of a batch still without a translation, in batch order.
pub open spec fn untranslated_of(items: Seq<GlobalBatchItem>, batch: Seq<usize>) -> Seq<usize>
    decreases batch.len(),
{
    if batch.len() == 0 {
        Seq::empty()
    } else if items[batch.last() as int].translated is None {
        untranslated_of(items, batch.drop_last()).push(batch.last())
    } else {
        untranslated_of(items, batch.drop_last())
    }
}

/// After a batch came back: how many of its items were translated, and the
/// positions of those that were not (to retry), in batch order.
pub fn batch_outcome(items: &[GlobalBatchItem], batch: &[usize]) -> (r: (usize, Vec<usize>))
    requires
        forall|k: int| 0 <= k < batch@.len() ==> (#[trigger] batch@[k]) < items@.len(),
    ensures
        r.1@ == untranslated_of(items@, batch@),
        r.0 + r.1@.len() == batch@.len(),
{
    let mut ok: usize = 0;
    let mut failed: Vec<usize> = Vec::new();
    let mut i: usize = 0;
    assert(batch@.take(0) =~= Seq::<usize>::empty());
    while i < batch.len()
        invariant
            i <= batch.len(),
            forall|k: int| 0 <= k < batch@.len() ==> (#[trigger] batch@[k]) < items@.len(),
            failed@ == untranslated_of(items@, batch@.take(i as int)),
            ok + failed@.len() == i,
        decreases batch.len() - i,
    {
        assert(batch@.take(i + 1).drop_last() =~= batch@.take(i as int));
        assert(batch@.take(i + 1).last() == batch@[i as int]);
        let idx = batch[i];
        if items[idx].translated.is_none() {
            failed.push(idx);
        } else {
            ok = ok + 1;
        }
        i = i + 1;
    }
    assert(batch@.take(batch.len() as int) =~= batch@);
    (ok, failed)
}


/// Replacements ordered by where they start, latest first.
pub open spec fn later_start_first() -> spec_fn(Repl, Repl) -> bool {
    |a: Repl, b: Repl| a.0 > b.0
}

proof fn lemma_insert_by_start_ordered(s: Seq<Repl>, x: Repl)
    ensures
        insert_by_start(s, x) == insert_ordered(s, x, later_start_first()),
    decreases s.len(),
{
    if s.len() > 0 {
        lemma_insert_by_start_ordered(s.drop_last(), x);
    }
}

proof fn lemma_sort_by_start_ordered(s: Seq<Repl>)
    ensures
        sort_by_start_desc(s) == sort_ordered(s, later_start_first()),
    decreases s.len(),
{
    if s.len() > 0 {
        lemma_sort_by_start_ordered(s.drop_last());
        lemma_insert_by_start_ordered(sort_by_start_desc(s.drop_last()), s.last());
    }
}

/// Glossary replacements are made from the end of the text backwards: the
/// sorted list holds the same replacements, and none is followed by one
/// that starts later (so a replacement never moves the text of one still
/// to come).
pub proof fn law_replacements_latest_first(s: Seq<Repl>)
    ensures
        sort_by_start_desc(s).to_multiset() == s.to_multiset(),
        forall|i: int, j: int|
            0 <= i < j < s.len() ==> (#[trigger] sort_by_start_desc(s)[i]).0 >= (#[trigger] sort_by_start_desc(
                s,
            )[j]).0,
{
    lemma_sort_by_start_ordered(s);
    lemma_sort_ordered(s, later_start_first());
    let r = sort_by_start_desc(s);
    assert forall|i: int, j: int| 0 <= i < j < s.len() implies (#[trigger] r[i]).0 >= (#[trigger] r[j]).0 by {
        assert(!later_start_first()(r[j], r[i]));
    }
}

} // verus!

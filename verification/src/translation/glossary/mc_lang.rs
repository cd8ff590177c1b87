//! The term tables made from Minecraft's own language files: the exact
//! English-to-Traditional-Chinese names, and the places where the
//! Traditional file differs from a plain conversion of the Simplified one.
use vstd::prelude::*;
use crate::order::{insert_ordered, lemma_sort_ordered, sort_ordered};
use crate::text::{chars_eq_str, chars_of, spec_to_lowercase, to_lowercase, utf8_len, utf8_len_exec};
use crate::translation::batching::{s2tw_text, spec_s2tw};

verus! {

/// Minecraft's language files, each as its language code and its entries
/// (key, text).
pub struct McLangFiles {
    pub langs: Vec<(String, Vec<(String, String)>)>,
}

/// A language file's entries as pairs of character sequences.
pub type LangMap = Seq<(Seq<char>, Seq<char>)>;

/// The text of the first entry with the key.
pub open spec fn lookup(m: LangMap, k: Seq<char>) -> Option<Seq<char>>
    decreases m.len(),
{
    if m.len() == 0 {
        None
    } else if m[0].0 == k {
        Some(m[0].1)
    } else {
        lookup(m.drop_first(), k)
    }
}

/// The exact table: for each English entry whose key the Traditional file
/// also has, the lowercased English text maps to the Traditional text (a
/// later entry overwriting an earlier one with the same lowercased text).
pub open spec fn exact_map(en: LangMap, tw: LangMap) -> Map<Seq<char>, Seq<char>>
    decreases en.len(),
{
    if en.len() == 0 {
        Map::empty()
    } else {
        let m = exact_map(en.drop_last(), tw);
        match lookup(tw, en.last().0) {
            Some(t) => m.insert(spec_to_lowercase(en.last().1), t),
            None => m,
        }
    }
}

/// The differences: for each Simplified entry whose key the Traditional
/// file has with another text that is also not the Simplified text
/// converted by `hanconv::s2tw`, the pair (Simplified, Traditional).
pub open spec fn script_diffs(cn: LangMap, tw: LangMap) -> LangMap
    decreases cn.len(),
{
    if cn.len() == 0 {
        Seq::empty()
    } else {
        let rest = script_diffs(cn.drop_last(), tw);
        let c = cn.last().1;
        match lookup(tw, cn.last().0) {
            Some(t) => if c != t && spec_s2tw(c) != t {
                rest.push((c, t))
            } else {
                rest
            },
            None => rest,
        }
    }
}

/// `x` placed into `s` (longest first) after every pair at least as long.
pub open spec fn insert_pair_by_len(s: LangMap, x: (Seq<char>, Seq<char>)) -> LangMap
    decreases s.len(),
{
    if s.len() == 0 {
        seq![x]
    } else if utf8_len(x.0) > utf8_len(s.last().0) {
        insert_pair_by_len(s.drop_last(), x).push(s.last())
    } else {
        s.push(x)
    }
}

/// The pairs longest first (by the byte length of the first text), pairs
/// of equal length keeping their order.
pub open spec fn sort_pairs_by_len_desc(s: LangMap) -> LangMap
    decreases s.len(),
{
    if s.len() == 0 {
        s
    } else {
        insert_pair_by_len(sort_pairs_by_len_desc(s.drop_last()), s.last())
    }
}

/// Pairs of strings as pairs of character sequences.
pub open spec fn lang_view(v: Seq<(String, String)>) -> LangMap {
    v.map_values(|p: (String, String)| (p.0@, p.1@))
}

/// The pairs hold the map: each key once, with the map's value, and every
/// key of the map.
pub open spec fn holds_map(r: LangMap, m: Map<Seq<char>, Seq<char>>) -> bool {
    &&& forall|a: int, b: int| 0 <= a < b < r.len() ==> (#[trigger] r[a]).0 != (#[trigger] r[b]).0
    &&& forall|a: int| 0 <= a < r.len() ==> m.contains_key((#[trigger] r[a]).0) && m[r[a].0] == r[a].1
    &&& forall|k: Seq<char>| #[trigger] m.contains_key(k) ==> exists|a: int| 0 <= a < r.len() && (#[trigger] r[a]).0 == k
}

fn lookup_exec(m: &Vec<(String, String)>, k: &String) -> (r: Option<String>)
    ensures
        match r {
            Some(v) => lookup(lang_view(m@), k@) == Some(v@),
            None => lookup(lang_view(m@), k@) is None,
        },
{
    let ghost mv = lang_view(m@);
    let mut i: usize = 0;
    assert(mv.skip(0) =~= mv);
    while i < m.len()
        invariant
            mv == lang_view(m@),
            i <= m.len(),
            lookup(mv, k@) == lookup(mv.skip(i as int), k@),
        decreases m.len() - i,
    {
        let ghost rest = mv.skip(i as int);
        assert(rest[0] == mv[i as int]);
        assert(rest.drop_first() =~= mv.skip(i + 1));
        if m[i].0 == *k {
            return Some(m[i].1.clone());
        }
        i = i + 1;
    }
    assert(mv.skip(i as int).len() == 0);
    None
}

fn upsert_pair(out: &mut Vec<(String, String)>, k: String, v: String, Ghost(m): Ghost<Map<Seq<char>, Seq<char>>>)
    requires
        holds_map(lang_view(old(out)@), m),
    ensures
        holds_map(lang_view(final(out)@), m.insert(k@, v@)),
{
    let ghost o = lang_view(out@);
    let ghost kv = k@;
    let mut j: usize = 0;
    while j < out.len()
        invariant
            o == lang_view(out@),
            kv == k@,
            j <= out.len(),
            forall|a: int| 0 <= a < j ==> o[a].0 != kv,
        ensures
            o == lang_view(out@),
            j <= out.len(),
            forall|a: int| 0 <= a < j ==> o[a].0 != kv,
            j < out.len() ==> o[j as int].0 == kv,
        decreases out.len() - j,
    {
        assert(o[j as int].0 == out@[j as int].0@);
        if out[j].0 == k {
            break;
        }
        j = j + 1;
    }
    let m2 = Ghost(m.insert(k@, v@));
    if j < out.len() {
        let ghost vv = v@;
        out.set(j, (k, v));
        proof {
            let n = lang_view(out@);
            assert(n =~= o.update(j as int, (kv, vv)));
            assert forall|a: int| 0 <= a < n.len() implies m2@.contains_key((#[trigger] n[a]).0) && m2@[n[a].0] == n[a].1 by {
                if a != j {
                    assert(n[a] == o[a]);
                }
            }
            assert forall|key: Seq<char>| #[trigger] m2@.contains_key(key) implies exists|a: int| 0 <= a < n.len() && (#[trigger] n[a]).0 == key by {
                if key == kv {
                    assert(n[j as int].0 == key);
                } else {
                    let a = choose|a: int| 0 <= a < o.len() && (#[trigger] o[a]).0 == key;
                    assert(n[a].0 == key);
                }
            }
            assert forall|a: int, b: int| 0 <= a < b < n.len() implies (#[trigger] n[a]).0 != (#[trigger] n[b]).0 by {
                assert(n[a].0 == o[a].0 && n[b].0 == o[b].0);
            }
        }
    } else {
        let ghost vv = v@;
        out.push((k, v));
        proof {
            let n = lang_view(out@);
            assert(n =~= o.push((kv, vv)));
            assert forall|a: int| 0 <= a < n.len() implies m2@.contains_key((#[trigger] n[a]).0) && m2@[n[a].0] == n[a].1 by {
                if a != o.len() {
                    assert(n[a] == o[a]);
                }
            }
            assert forall|key: Seq<char>| #[trigger] m2@.contains_key(key) implies exists|a: int| 0 <= a < n.len() && (#[trigger] n[a]).0 == key by {
                if key == kv {
                    assert(n[o.len() as int].0 == key);
                } else {
                    let a = choose|a: int| 0 <= a < o.len() && (#[trigger] o[a]).0 == key;
                    assert(n[a].0 == key);
                }
            }
            assert forall|a: int, b: int| 0 <= a < b < n.len() implies (#[trigger] n[a]).0 != (#[trigger] n[b]).0 by {
                if b == o.len() {
                    assert(n[a] == o[a]);
                } else {
                    assert(n[a] == o[a] && n[b] == o[b]);
                }
            }
        }
    }
}

/// The exact table of an English and a Traditional Chinese language file
/// (see `exact_map`), as pairs with distinct keys.
pub fn build_exact_table(en: &Vec<(String, String)>, tw: &Vec<(String, String)>) -> (r: Vec<(String, String)>)
    ensures
        holds_map(lang_view(r@), exact_map(lang_view(en@), lang_view(tw@))),
{
    let ghost ev = lang_view(en@);
    let ghost tv = lang_view(tw@);
    let mut out: Vec<(String, String)> = Vec::new();
    let mut i: usize = 0;
    proof {
        assert(ev.take(0) =~= Seq::<(Seq<char>, Seq<char>)>::empty());
        assert(exact_map(ev.take(0), tv) == Map::<Seq<char>, Seq<char>>::empty());
    }
    while i < en.len()
        invariant
            ev == lang_view(en@),
            tv == lang_view(tw@),
            i <= en.len(),
            holds_map(lang_view(out@), exact_map(ev.take(i as int), tv)),
        decreases en.len() - i,
    {
        proof {
            assert(ev.take(i + 1).drop_last() =~= ev.take(i as int));
            assert(ev.take(i + 1).last() == ev[i as int]);
        }
        match lookup_exec(tw, &en[i].0) {
            Some(t) => {
                let low = to_lowercase(en[i].1.as_str());
                upsert_pair(&mut out, low, t, Ghost(exact_map(ev.take(i as int), tv)));
            },
            None => {},
        }
        i = i + 1;
    }
    assert(ev.take(en.len() as int) =~= ev);
    out
}

proof fn lemma_insert_pair_at(s: LangMap, x: (Seq<char>, Seq<char>), p: int)
    requires
        0 <= p <= s.len(),
        forall|k: int| p <= k < s.len() ==> utf8_len(x.0) > utf8_len((#[trigger] s[k]).0),
        p > 0 ==> !(utf8_len(x.0) > utf8_len(s[p - 1].0)),
    ensures
        insert_pair_by_len(s, x) == s.insert(p, x),
    decreases s.len() - p,
{
    if p == s.len() {
        if s.len() == 0 {
            assert(s.insert(p, x) =~= seq![x]);
        } else {
            assert(s.insert(p, x) =~= s.push(x));
        }
    } else {
        let d = s.drop_last();
        assert forall|k: int| p <= k < d.len() implies utf8_len(x.0) > utf8_len((#[trigger] d[k]).0) by {
            assert(d[k] == s[k]);
        }
        if p > 0 {
            assert(d[p - 1] == s[p - 1]);
        }
        assert(utf8_len(x.0) > utf8_len(s[s.len() - 1].0));
        lemma_insert_pair_at(d, x, p);
        assert(d.insert(p, x).push(s.last()) =~= s.insert(p, x));
    }
}

/// The differences between a Simplified and a Traditional Chinese language
/// file (see `script_diffs`), longest Simplified text first.
pub fn build_script_diffs(cn: &Vec<(String, String)>, tw: &Vec<(String, String)>) -> (r: Vec<(String, String)>)
    ensures
        lang_view(r@) == sort_pairs_by_len_desc(script_diffs(lang_view(cn@), lang_view(tw@))),
{
    let ghost cv = lang_view(cn@);
    let ghost tv = lang_view(tw@);
    let mut out: Vec<(String, String)> = Vec::new();
    let mut lens: Vec<u128> = Vec::new();
    let mut i: usize = 0;
    assert(cv.take(0) =~= Seq::<(Seq<char>, Seq<char>)>::empty());
    while i < cn.len()
        invariant
            cv == lang_view(cn@),
            tv == lang_view(tw@),
            i <= cn.len(),
            lens@.len() == out@.len(),
            forall|k: int| 0 <= k < out@.len() ==> lens@[k] == utf8_len(#[trigger] out@[k].0@),
            lang_view(out@) == sort_pairs_by_len_desc(script_diffs(cv.take(i as int), tv)),
        decreases cn.len() - i,
    {
        proof {
            assert(cv.take(i + 1).drop_last() =~= cv.take(i as int));
            assert(cv.take(i + 1).last() == cv[i as int]);
        }
        let c = &cn[i].1;
        match lookup_exec(tw, &cn[i].0) {
            Some(t) => {
                let conv = s2tw_text(c.as_str());
                if *c != t && conv != t {
                    let ghost x = (c@, t@);
                    let ghost o = lang_view(out@);
                    let xl = utf8_len_exec(&chars_of(c.as_str()));
                    let mut p: usize = out.len();
                    while p > 0 && xl > lens[p - 1]
                        invariant
                            o == lang_view(out@),
                            lens@.len() == out@.len(),
                            forall|k: int| 0 <= k < out@.len() ==> lens@[k] == utf8_len(#[trigger] out@[k].0@),
                            p <= out.len(),
                            xl == utf8_len(x.0),
                            forall|k: int| p <= k < o.len() ==> utf8_len(x.0) > utf8_len((#[trigger] o[k]).0),
                        decreases p,
                    {
                        assert(o[p - 1].0 == out@[p - 1].0@);
                        p = p - 1;
                    }
                    proof {
                        if p > 0 {
                            assert(o[p - 1].0 == out@[p - 1].0@);
                        }
                        lemma_insert_pair_at(o, x, p as int);
                        let s0 = script_diffs(cv.take(i as int), tv);
                        assert(script_diffs(cv.take(i + 1), tv) == s0.push(x));
                        assert(s0.push(x).drop_last() =~= s0);
                    }
                    let ghost lv = lens@;
                    let ghost ov = out@;
                    out.insert(p, (c.clone(), t));
                    lens.insert(p, xl);
                    proof {
                        assert(lang_view(out@) =~= o.insert(p as int, x));
                        assert forall|k: int| 0 <= k < out@.len() implies lens@[k] == utf8_len(#[trigger] out@[k].0@) by {
                            if k < p {
                                assert(out@[k] == ov[k] && lens@[k] == lv[k]);
                            } else if k > p {
                                assert(out@[k] == ov[k - 1] && lens@[k] == lv[k - 1]);
                            }
                        }
                    }
                } else {
                    assert(script_diffs(cv.take(i + 1), tv) == script_diffs(cv.take(i as int), tv));
                }
            },
            None => {
                assert(script_diffs(cv.take(i + 1), tv) == script_diffs(cv.take(i as int), tv));
            },
        }
        i = i + 1;
    }
    assert(cv.take(cn.len() as int) =~= cv);
    out
}

/// The entries of the first language file with the language code.
pub open spec fn lang_file(langs: Seq<(String, Vec<(String, String)>)>, code: Seq<char>) -> Option<LangMap>
    decreases langs.len(),
{
    if langs.len() == 0 {
        None
    } else if langs[0].0@ == code {
        Some(lang_view(langs[0].1@))
    } else {
        lang_file(langs.drop_first(), code)
    }
}

/// The entries of the language file of a language code, if there is one.
fn file_of<'a>(files: &'a McLangFiles, code: &str) -> (r: Option<&'a Vec<(String, String)>>)
    ensures
        match r {
            Some(v) => lang_file(files.langs@, code@) == Some(lang_view(v@)),
            None => lang_file(files.langs@, code@) is None,
        },
{
    let ghost ls = files.langs@;
    let mut i: usize = 0;
    assert(ls.skip(0) =~= ls);
    while i < files.langs.len()
        invariant
            ls == files.langs@,
            i <= files.langs.len(),
            lang_file(ls, code@) == lang_file(ls.skip(i as int), code@),
        decreases files.langs.len() - i,
    {
        let ghost rest = ls.skip(i as int);
        assert(rest[0] == ls[i as int]);
        assert(rest.drop_first() =~= ls.skip(i + 1));
        if chars_eq_str(&chars_of(files.langs[i].0.as_str()), code) {
            return Some(&files.langs[i].1);
        }
        i = i + 1;
    }
    None
}

/// The exact table of a run (see `exact_map`): from the `en_us` and `zh_tw`
/// files when the run goes from English into Traditional Chinese and both
/// files are there, else empty.
pub open spec fn run_exact_map(files: McLangFiles, source: Seq<char>, target: Seq<char>) -> Map<Seq<char>, Seq<char>> {
    let en = lang_file(files.langs@, "en_us"@);
    let tw = lang_file(files.langs@, "zh_tw"@);
    if source == "en_us"@ && target == "zh_tw"@ && en is Some && tw is Some {
        exact_map(en->0, tw->0)
    } else {
        Map::empty()
    }
}

/// The differences of a run (see `script_diffs`), longest first: from the
/// `zh_cn` and `zh_tw` files when the run goes from English into
/// Traditional Chinese and both files are there, else empty.
pub open spec fn run_script_diffs(files: McLangFiles, source: Seq<char>, target: Seq<char>) -> LangMap {
    let cn = lang_file(files.langs@, "zh_cn"@);
    let tw = lang_file(files.langs@, "zh_tw"@);
    if source == "en_us"@ && target == "zh_tw"@ && cn is Some && tw is Some {
        sort_pairs_by_len_desc(script_diffs(cn->0, tw->0))
    } else {
        Seq::empty()
    }
}

/// The term tables of a run from Minecraft's language files (see
/// `run_exact_map` and `run_script_diffs`).
pub fn build_term_tables(files: &McLangFiles, source_lang: &str, target_lang: &str) -> (r: (
    Vec<(String, String)>,
    Vec<(String, String)>,
))
    ensures
        holds_map(lang_view(r.0@), run_exact_map(*files, source_lang@, target_lang@)),
        lang_view(r.1@) == run_script_diffs(*files, source_lang@, target_lang@),
{
    let mut exact: Vec<(String, String)> = Vec::new();
    let mut diffs: Vec<(String, String)> = Vec::new();
    assert(lang_view(diffs@) =~= Seq::<(Seq<char>, Seq<char>)>::empty());
    if chars_eq_str(&chars_of(source_lang), "en_us") && chars_eq_str(&chars_of(target_lang), "zh_tw") {
        if let (Some(en), Some(tw)) = (file_of(files, "en_us"), file_of(files, "zh_tw")) {
            exact = build_exact_table(en, tw);
        }
        if let (Some(cn), Some(tw)) = (file_of(files, "zh_cn"), file_of(files, "zh_tw")) {
            diffs = build_script_diffs(cn, tw);
        }
    }
    (exact, diffs)
}


/// The map the pairs make when each pair is written in turn, a later pair
/// replacing an earlier one with the same key.
pub open spec fn map_of(pairs: LangMap) -> Map<Seq<char>, Seq<char>>
    decreases pairs.len(),
{
    if pairs.len() == 0 {
        Map::empty()
    } else {
        map_of(pairs.drop_last()).insert(pairs.last().0, pairs.last().1)
    }
}

/// Whether a run merges the script differences into its exact table: when
/// it converts between scripts quickly, or its target is a Chinese script.
pub open spec fn merges_diffs(fast_convert: bool, target: Seq<char>) -> bool {
    fast_convert || target == "zh_tw"@ || target == "zh_cn"@
}

/// The exact table a run's glossary is built from: the exact pairs, then,
/// when the run merges them (see `merges_diffs`), the script differences
/// written over them.
pub fn merge_term_diffs(
    exact: &Vec<(String, String)>,
    diffs: &Vec<(String, String)>,
    fast_convert: bool,
    target_lang: &str,
) -> (r: Vec<(String, String)>)
    ensures
        holds_map(
            lang_view(r@),
            map_of(
                lang_view(exact@) + (if merges_diffs(fast_convert, target_lang@) {
                    lang_view(diffs@)
                } else {
                    Seq::empty()
                }),
            ),
        ),
{
    let t = chars_of(target_lang);
    let merge = fast_convert || chars_eq_str(&t, "zh_tw") || chars_eq_str(&t, "zh_cn");
    let ghost all = lang_view(exact@) + (if merge { lang_view(diffs@) } else { Seq::<(Seq<char>, Seq<char>)>::empty() });
    let mut out: Vec<(String, String)> = Vec::new();
    assert(all.take(0) =~= Seq::<(Seq<char>, Seq<char>)>::empty());
    let mut i: usize = 0;
    while i < exact.len()
        invariant
            all == lang_view(exact@) + (if merge { lang_view(diffs@) } else { Seq::<(Seq<char>, Seq<char>)>::empty() }),
            i <= exact.len(),
            holds_map(lang_view(out@), map_of(all.take(i as int))),
        decreases exact.len() - i,
    {
        assert(all.take(i + 1).drop_last() =~= all.take(i as int));
        assert(all.take(i + 1).last() == (exact@[i as int].0@, exact@[i as int].1@));
        upsert_pair(&mut out, exact[i].0.clone(), exact[i].1.clone(), Ghost(map_of(all.take(i as int))));
        i = i + 1;
    }
    if merge {
        let mut j: usize = 0;
        while j < diffs.len()
            invariant
                merge,
                all == lang_view(exact@) + lang_view(diffs@),
                j <= diffs.len(),
                holds_map(lang_view(out@), map_of(all.take(exact.len() + j))),
            decreases diffs.len() - j,
        {
            let ghost n = exact.len() + j;
            assert(all.take(n + 1).drop_last() =~= all.take(n));
            assert(all.take(n + 1).last() == (diffs@[j as int].0@, diffs@[j as int].1@));
            upsert_pair(&mut out, diffs[j].0.clone(), diffs[j].1.clone(), Ghost(map_of(all.take(n))));
            j = j + 1;
        }
        assert(all.take(exact.len() + diffs.len()) =~= all);
    } else {
        assert(all.take(exact.len() as int) =~= all);
    }
    out
}


/// Pairs ordered by the byte length of their first text, longest first.
pub open spec fn longer_key_first() -> spec_fn((Seq<char>, Seq<char>), (Seq<char>, Seq<char>)) -> bool {
    |a: (Seq<char>, Seq<char>), b: (Seq<char>, Seq<char>)| utf8_len(a.0) > utf8_len(b.0)
}

proof fn lemma_insert_pair_by_len_ordered(s: LangMap, x: (Seq<char>, Seq<char>))
    ensures
        insert_pair_by_len(s, x) == insert_ordered(s, x, longer_key_first()),
    decreases s.len(),
{
    if s.len() > 0 {
        lemma_insert_pair_by_len_ordered(s.drop_last(), x);
    }
}

proof fn lemma_sort_pairs_by_len_ordered(s: LangMap)
    ensures
        sort_pairs_by_len_desc(s) == sort_ordered(s, longer_key_first()),
    decreases s.len(),
{
    if s.len() > 0 {
        lemma_sort_pairs_by_len_ordered(s.drop_last());
        lemma_insert_pair_by_len_ordered(sort_pairs_by_len_desc(s.drop_last()), s.last());
    }
}

/// The script differences are listed longest first: the sorted list holds
/// the same pairs, and no pair is followed by one with a longer first text.
pub proof fn law_script_diffs_longest_first(s: LangMap)
    ensures
        sort_pairs_by_len_desc(s).to_multiset() == s.to_multiset(),
        forall|i: int, j: int|
            0 <= i < j < s.len() ==> utf8_len((#[trigger] sort_pairs_by_len_desc(s)[i]).0) >= utf8_len(
                (#[trigger] sort_pairs_by_len_desc(s)[j]).0,
            ),
{
    lemma_sort_pairs_by_len_ordered(s);
    lemma_sort_ordered(s, longer_key_first());
    let r = sort_pairs_by_len_desc(s);
    assert forall|i: int, j: int| 0 <= i < j < s.len() implies utf8_len((#[trigger] r[i]).0) >= utf8_len(
        (#[trigger] r[j]).0,
    ) by {
        assert(!longer_key_first()(r[j], r[i]));
    }
}

} // verus!

//! Finding the glossary's terms in texts with an Aho-Corasick automaton.
use vstd::prelude::*;
use crate::order::{insert_ordered, lemma_sort_ordered, sort_ordered};
use aho_corasick::{AhoCorasick, MatchKind};
use crate::config::settings::strs;
use crate::translation::glossary::analyzer::{analyze_dictionary, entries_view, spec_inferred};
use crate::text::{char_is_alphabetic, chars_eq_str, spec_is_alphabetic, spec_to_lowercase, to_lowercase, char_index_at_byte, char_index_of_byte, chars_of, is_byte_boundary, utf8_len, utf8_len_exec};

verus! {

/// Where a glossary term comes from.
#[derive(Clone, Copy, Debug, PartialEq, Eq, Structural)]
pub enum TermType {
    /// From a dictionary (the official one or the user's).
    Official,
    /// Inferred from the dictionary by word analysis.
    Inferred,
}

/// A term of the glossary and its translation.
pub struct GlossaryEntry {
    pub original: String,
    pub translated: String,
    pub source: TermType,
}

// ---------------------------------------------------------------------------
// The automaton of the aho-corasick crate
// ---------------------------------------------------------------------------

#[verifier::external_type_specification]
#[verifier::external_body]
pub struct ExAhoCorasick(AhoCorasick);

/// The patterns an automaton was built from, in order (a pattern's index is
/// its position here).
pub uninterp spec fn ac_patterns(ac: AhoCorasick) -> Seq<Seq<char>>;

/// Whether the automaton reports leftmost-longest matches and ignores the
/// case of ASCII letters.
pub uninterp spec fn ac_leftmost_longest_ci(ac: AhoCorasick) -> bool;

/// The non-overlapping matches, left to right, of the patterns in the text
/// under leftmost-longest, ASCII-case-insensitive semantics: each as
/// (pattern index, start byte, end byte).
pub uninterp spec fn leftmost_longest_ci_matches(patterns: Seq<Seq<char>>, text: Seq<char>) -> Seq<
    (usize, usize, usize),
>;

/// `AhoCorasick::builder()` set to `MatchKind::LeftmostLongest` and ASCII
/// case insensitivity, then `build` over the patterns. The crate refuses a
/// pattern set too large for its automata (a `BuildError`), which gives
/// `None`; an automaton that is built holds the patterns in order.
#[verifier::external_body]
fn build_leftmost_longest_ci(patterns: &Vec<String>) -> (r: Option<AhoCorasick>)
    ensures
        r matches Some(ac) ==> ac_patterns(ac) == strs(patterns@) && ac_leftmost_longest_ci(ac),
{
    match AhoCorasick::builder().match_kind(MatchKind::LeftmostLongest).ascii_case_insensitive(
        true,
    ).build(patterns) {
        Ok(ac) => Some(ac),
        Err(_) => None,
    }
}

/// `AhoCorasick::new` over the single pattern `___dummy___`, with the
/// crate's default (standard, case-sensitive) matching.
#[verifier::external_body]
fn placeholder_automaton() -> (r: AhoCorasick)
    ensures
        ac_patterns(r) == seq!["___dummy___"@],
        !ac_leftmost_longest_ci(r),
{
    AhoCorasick::new(["___dummy___"]).unwrap()
}

/// `AhoCorasick::find_iter` over the text, each match as (pattern index,
/// start byte, end byte). For an automaton built leftmost-longest and
/// ASCII-case-insensitive they are `leftmost_longest_ci_matches` of its
/// patterns and the text; of another nothing is stated.
#[verifier::external_body]
pub(crate) fn find_all_matches(ac: &AhoCorasick, text: &str) -> (r: Vec<(usize, usize, usize)>)
    ensures
        ac_leftmost_longest_ci(*ac) ==> r@ == leftmost_longest_ci_matches(ac_patterns(*ac), text@),
{
    ac.find_iter(text).map(|m| (m.pattern().as_usize(), m.start(), m.end())).collect()
}

// ---------------------------------------------------------------------------
// The glossary automaton
// ---------------------------------------------------------------------------

/// A term as the automaton is built from it: text, translation and source.
pub type Term = (Seq<char>, Seq<char>, TermType);

/// The terms of the entries.
pub open spec fn entry_terms(entries: Seq<GlossaryEntry>) -> Seq<Term> {
    entries.map_values(|e: GlossaryEntry| (e.original@, e.translated@, e.source))
}

/// `x` placed into `s` (longest first) after every term at least as long.
pub open spec fn insert_by_len(s: Seq<Term>, x: Term) -> Seq<Term>
    decreases s.len(),
{
    if s.len() == 0 {
        seq![x]
    } else if utf8_len(x.0) > utf8_len(s.last().0) {
        insert_by_len(s.drop_last(), x).push(s.last())
    } else {
        s.push(x)
    }
}

/// The terms longest first (in bytes), terms of equal length keeping their
/// order (a stable sort).
pub open spec fn sort_by_len_desc(s: Seq<Term>) -> Seq<Term>
    decreases s.len(),
{
    if s.len() == 0 {
        s
    } else {
        insert_by_len(sort_by_len_desc(s.drop_last()), s.last())
    }
}

/// The known terms of a glossary and an automaton that finds them.
pub struct GlossaryAutomaton {
    pub ac: AhoCorasick,
    pub entries: Vec<GlossaryEntry>,
}

impl GlossaryAutomaton {
    /// The automaton finds the entries' originals: when it was built for
    /// leftmost-longest, ASCII-case-insensitive matching, its patterns are
    /// the entries' originals in order.
    pub open spec fn finds_entries(&self) -> bool {
        ac_leftmost_longest_ci(self.ac) ==> ac_patterns(self.ac) == entry_terms(
            self.entries@,
        ).map_values(|t: Term| t.0)
    }
}

fn copy_entry(e: &GlossaryEntry) -> (r: GlossaryEntry)
    ensures
        r.original@ == e.original@,
        r.translated@ == e.translated@,
        r.source == e.source,
{
    GlossaryEntry { original: e.original.clone(), translated: e.translated.clone(), source: e.source }
}

proof fn lemma_insert_by_len_at(s: Seq<Term>, x: Term, p: int)
    requires
        0 <= p <= s.len(),
        forall|k: int| p <= k < s.len() ==> utf8_len(x.0) > utf8_len((#[trigger] s[k]).0),
        p > 0 ==> !(utf8_len(x.0) > utf8_len(s[p - 1].0)),
    ensures
        insert_by_len(s, x) == s.insert(p, x),
    decreases s.len() - p,
{
    if p == s.len() {
        if s.len() == 0 {
            assert(s.insert(p, x) =~= seq![x]);
        } else {
            assert(s.insert(p, x) =~= s.push(x));
        }
    } else {
        let d = s.drop_last();
        assert forall|k: int| p <= k < d.len() implies utf8_len(x.0) > utf8_len((#[trigger] d[k]).0) by {
            assert(d[k] == s[k]);
        }
        if p > 0 {
            assert(d[p - 1] == s[p - 1]);
        }
        assert(utf8_len(x.0) > utf8_len(s[s.len() - 1].0));
        lemma_insert_by_len_at(d, x, p);
        assert(d.insert(p, x).push(s.last()) =~= s.insert(p, x));
    }
}

/// The entries of the terms, longest first, terms of equal length in their
/// given order.
fn sort_entries_by_len(terms: &Vec<GlossaryEntry>) -> (r: Vec<GlossaryEntry>)
    ensures
        entry_terms(r@) == sort_by_len_desc(entry_terms(terms@)),
{
    let ghost tv = entry_terms(terms@);
    let mut out: Vec<GlossaryEntry> = Vec::new();
    let mut lens: Vec<u128> = Vec::new();
    let mut i: usize = 0;
    assert(tv.take(0) =~= Seq::<Term>::empty());
    while i < terms.len()
        invariant
            tv == entry_terms(terms@),
            i <= terms.len(),
            lens@.len() == out@.len(),
            forall|k: int| 0 <= k < out@.len() ==> lens@[k] == utf8_len(#[trigger] out@[k].original@),
            entry_terms(out@) == sort_by_len_desc(tv.take(i as int)),
        decreases terms.len() - i,
    {
        let x = copy_entry(&terms[i]);
        let xl = utf8_len_exec(&chars_of(x.original.as_str()));
        let ghost xt: Term = (x.original@, x.translated@, x.source);
        assert(xt == tv[i as int]);
        let ghost o = entry_terms(out@);
        let mut p: usize = out.len();
        while p > 0 && xl > lens[p - 1]
            invariant
                o == entry_terms(out@),
                lens@.len() == out@.len(),
                forall|k: int| 0 <= k < out@.len() ==> lens@[k] == utf8_len(#[trigger] out@[k].original@),
                p <= out.len(),
                xl == utf8_len(xt.0),
                forall|k: int| p <= k < o.len() ==> utf8_len(xt.0) > utf8_len((#[trigger] o[k]).0),
            decreases p,
        {
            assert(o[p - 1].0 == out@[p - 1].original@);
            p = p - 1;
        }
        proof {
            if p > 0 {
                assert(o[p - 1].0 == out@[p - 1].original@);
            }
            lemma_insert_by_len_at(o, xt, p as int);
            assert(tv.take(i + 1).drop_last() =~= tv.take(i as int));
            assert(tv.take(i + 1).last() == xt);
        }
        let ghost lv = lens@;
        let ghost ov = out@;
        out.insert(p, x);
        lens.insert(p, xl);
        proof {
            assert(entry_terms(out@) =~= o.insert(p as int, xt));
            assert forall|k: int| 0 <= k < out@.len() implies lens@[k] == utf8_len(#[trigger] out@[k].original@) by {
                if k < p {
                    assert(out@[k] == ov[k] && lens@[k] == lv[k]);
                } else if k > p {
                    assert(out@[k] == ov[k - 1] && lens@[k] == lv[k - 1]);
                }
            }
        }
        i = i + 1;
    }
    assert(tv.take(terms.len() as int) =~= tv);
    out
}

impl GlossaryAutomaton {
    /// The automaton of the given terms: the entries longest first (terms of
    /// equal length in their given order) and an automaton over their texts,
    /// leftmost-longest and ASCII-case-insensitive; should the crate refuse
    /// the set, an automaton of a placeholder pattern.
    pub fn build_automaton(terms: &Vec<GlossaryEntry>) -> (r: Self)
        ensures
            entry_terms(r.entries@) == sort_by_len_desc(entry_terms(terms@)),
            r.finds_entries(),
    {
        let entries = sort_entries_by_len(terms);
        let mut patterns: Vec<String> = Vec::new();
        let mut i: usize = 0;
        while i < entries.len()
            invariant
                i <= entries.len(),
                strs(patterns@) == entry_terms(entries@).map_values(|t: Term| t.0).take(i as int),
            decreases entries.len() - i,
        {
            let ghost before = strs(patterns@);
            let o = entries[i].original.clone();
            patterns.push(o);
            proof {
                let want = entry_terms(entries@).map_values(|t: Term| t.0);
                assert(want[i as int] == entries@[i as int].original@);
                assert(strs(patterns@) =~= before.push(o@));
                assert(want.take(i + 1) =~= want.take(i as int).push(want[i as int]));
            }
            i = i + 1;
        }
        assert(entry_terms(entries@).map_values(|t: Term| t.0).take(entries.len() as int)
            =~= entry_terms(entries@).map_values(|t: Term| t.0));
        let ac = match build_leftmost_longest_ci(&patterns) {
            Some(ac) => ac,
            None => placeholder_automaton(),
        };
        GlossaryAutomaton { ac, entries }
    }
}

// ---------------------------------------------------------------------------
// Extracting the terms found in texts
// ---------------------------------------------------------------------------

/// An ASCII letter.
pub open spec fn is_ascii_alpha(c: char) -> bool {
    ('a' <= c && c <= 'z') || ('A' <= c && c <= 'Z')
}

/// The match from byte `start` to byte `end` stands as a whole word: the
/// character before it and the one after it, where there is one, are not
/// ASCII letters.
pub open spec fn at_word_bounds(t: Seq<char>, start: usize, end: usize) -> bool {
    &&& (start == 0 || (is_byte_boundary(t, start as int) && !is_ascii_alpha(
        t[char_index_of_byte(t, start as int) - 1],
    )))
    &&& (end == utf8_len(t) || (is_byte_boundary(t, end as int) && char_index_of_byte(
        t,
        end as int,
    ) < t.len() && !is_ascii_alpha(t[char_index_of_byte(t, end as int)])))
}

/// The terms of the matches in `t` that stand as whole words, in order.
pub open spec fn accepted_terms(entries: Seq<Term>, t: Seq<char>, ms: Seq<(usize, usize, usize)>) -> Seq<
    Term,
>
    decreases ms.len(),
{
    if ms.len() == 0 {
        Seq::empty()
    } else {
        let m = ms.last();
        let rest = accepted_terms(entries, t, ms.drop_last());
        if (m.0 as int) < entries.len() && at_word_bounds(t, m.1, m.2) {
            rest.push(entries[m.0 as int])
        } else {
            rest
        }
    }
}

/// The terms found in the texts, text after text.
pub open spec fn found_terms(ac: AhoCorasick, entries: Seq<Term>, texts: Seq<Seq<char>>) -> Seq<Term>
    decreases texts.len(),
{
    if texts.len() == 0 {
        Seq::empty()
    } else {
        found_terms(ac, entries, texts.drop_last()) + accepted_terms(
            entries,
            texts.last(),
            leftmost_longest_ci_matches(ac_patterns(ac), texts.last()),
        )
    }
}

/// The translation and source of the last of the terms whose text is `key`.
pub open spec fn last_with(f: Seq<Term>, key: Seq<char>) -> (Seq<char>, TermType)
    decreases f.len(),
{
    if f.len() == 0 {
        (Seq::empty(), TermType::Official)
    } else if f.last().0 == key {
        (f.last().1, f.last().2)
    } else {
        last_with(f.drop_last(), key)
    }
}

/// A map from terms to (translation, source) as pairs of views.
pub open spec fn found_view(v: Seq<(String, (String, TermType))>) -> Seq<(Seq<char>, (Seq<char>, TermType))> {
    v.map_values(|p: (String, (String, TermType))| (p.0@, (p.1.0@, p.1.1)))
}

/// The found terms as a map: each term text once, with the translation and
/// source of its last occurrence.
pub open spec fn is_term_map(r: Seq<(Seq<char>, (Seq<char>, TermType))>, f: Seq<Term>) -> bool {
    &&& forall|a: int, b: int| 0 <= a < b < r.len() ==> (#[trigger] r[a]).0 != (#[trigger] r[b]).0
    &&& forall|a: int| 0 <= a < r.len() ==> exists|j: int| 0 <= j < f.len() && (#[trigger] f[j]).0 == (#[trigger] r[a]).0
    &&& forall|j: int| 0 <= j < f.len() ==> exists|a: int| 0 <= a < r.len() && (#[trigger] r[a]).0 == (#[trigger] f[j]).0
    &&& forall|a: int| 0 <= a < r.len() ==> (#[trigger] r[a]).1 == last_with(f, r[a].0)
}

/// The characters of the strings.
pub open spec fn texts_of(v: Seq<String>) -> Seq<Seq<char>> {
    v.map_values(|s: String| s@)
}

proof fn lemma_last_with_push(f: Seq<Term>, x: Term)
    ensures
        last_with(f.push(x), x.0) == (x.1, x.2),
        forall|key: Seq<char>| key != x.0 ==> last_with(f.push(x), key) == last_with(f, key),
{
    assert(f.push(x).drop_last() =~= f);
}

proof fn lemma_term_map_update(o: Seq<(Seq<char>, (Seq<char>, TermType))>, f: Seq<Term>, x: Term, k: int)
    requires
        is_term_map(o, f),
        0 <= k < o.len(),
        o[k].0 == x.0,
    ensures
        is_term_map(o.update(k, (x.0, (x.1, x.2))), f.push(x)),
{
    let f2 = f.push(x);
    let n = o.update(k, (x.0, (x.1, x.2)));
    lemma_last_with_push(f, x);
    assert forall|a: int| 0 <= a < n.len() implies exists|j: int| 0 <= j < f2.len() && (#[trigger] f2[j]).0 == (#[trigger] n[a]).0 by {
        if a == k {
            assert(f2[f.len() as int].0 == n[a].0);
        } else {
            let j = choose|j: int| 0 <= j < f.len() && (#[trigger] f[j]).0 == (#[trigger] o[a]).0;
            assert(f2[j] == f[j]);
        }
    }
    assert forall|j: int| 0 <= j < f2.len() implies exists|a: int| 0 <= a < n.len() && (#[trigger] n[a]).0 == (#[trigger] f2[j]).0 by {
        if j == f.len() {
            assert(n[k].0 == f2[j].0);
        } else {
            assert(f2[j] == f[j]);
            let a = choose|a: int| 0 <= a < o.len() && (#[trigger] o[a]).0 == (#[trigger] f[j]).0;
            assert(n[a].0 == o[a].0);
        }
    }
    assert forall|a: int| 0 <= a < n.len() implies (#[trigger] n[a]).1 == last_with(f2, n[a].0) by {
        if a != k {
            assert(n[a] == o[a]);
        }
    }
    assert forall|a: int, b: int| 0 <= a < b < n.len() implies (#[trigger] n[a]).0 != (#[trigger] n[b]).0 by {
        assert(n[a].0 == o[a].0 && n[b].0 == o[b].0);
    }
}

proof fn lemma_term_map_push(o: Seq<(Seq<char>, (Seq<char>, TermType))>, f: Seq<Term>, x: Term)
    requires
        is_term_map(o, f),
        forall|a: int| 0 <= a < o.len() ==> o[a].0 != x.0,
    ensures
        is_term_map(o.push((x.0, (x.1, x.2))), f.push(x)),
{
    let f2 = f.push(x);
    let n = o.push((x.0, (x.1, x.2)));
    lemma_last_with_push(f, x);
    assert forall|a: int| 0 <= a < n.len() implies exists|j: int| 0 <= j < f2.len() && (#[trigger] f2[j]).0 == (#[trigger] n[a]).0 by {
        if a == o.len() {
            assert(f2[f.len() as int].0 == n[a].0);
        } else {
            let j = choose|j: int| 0 <= j < f.len() && (#[trigger] f[j]).0 == (#[trigger] o[a]).0;
            assert(f2[j] == f[j]);
        }
    }
    assert forall|j: int| 0 <= j < f2.len() implies exists|a: int| 0 <= a < n.len() && (#[trigger] n[a]).0 == (#[trigger] f2[j]).0 by {
        if j == f.len() {
            assert(n[o.len() as int].0 == f2[j].0);
        } else {
            assert(f2[j] == f[j]);
            let a = choose|a: int| 0 <= a < o.len() && (#[trigger] o[a]).0 == (#[trigger] f[j]).0;
            assert(n[a].0 == o[a].0);
        }
    }
    assert forall|a: int| 0 <= a < n.len() implies (#[trigger] n[a]).1 == last_with(f2, n[a].0) by {
        if a != o.len() {
            assert(n[a] == o[a]);
        }
    }
    assert forall|a: int, b: int| 0 <= a < b < n.len() implies (#[trigger] n[a]).0 != (#[trigger] n[b]).0 by {
        if b == o.len() {
            assert(n[a] == o[a]);
        } else {
            assert(n[a] == o[a] && n[b] == o[b]);
        }
    }
}

fn upsert(out: &mut Vec<(String, (String, TermType))>, e: &GlossaryEntry, Ghost(f): Ghost<Seq<Term>>)
    requires
        is_term_map(found_view(old(out)@), f),
    ensures
        is_term_map(found_view(final(out)@), f.push((e.original@, e.translated@, e.source))),
{
    let ghost x: Term = (e.original@, e.translated@, e.source);
    let ghost o = found_view(out@);
    let mut k: usize = 0;
    while k < out.len()
        invariant
            o == found_view(out@),
            x == (e.original@, e.translated@, e.source),
            k <= out.len(),
            forall|a: int| 0 <= a < k ==> o[a].0 != x.0,
        ensures
            o == found_view(out@),
            k <= out.len(),
            forall|a: int| 0 <= a < k ==> o[a].0 != x.0,
            k < out.len() ==> o[k as int].0 == x.0,
        decreases out.len() - k,
    {
        assert(o[k as int].0 == out@[k as int].0@);
        if out[k].0 == e.original {
            break;
        }
        k = k + 1;
    }
    if k < out.len() {
        let key = e.original.clone();
        out.set(k, (key, (e.translated.clone(), e.source)));
        proof {
            assert(o[k as int].0 == x.0);
            assert(found_view(out@) =~= o.update(k as int, (x.0, (x.1, x.2))));
            lemma_term_map_update(o, f, x, k as int);
        }
    } else {
        let key = e.original.clone();
        out.push((key, (e.translated.clone(), e.source)));
        proof {
            assert(found_view(out@) =~= o.push((x.0, (x.1, x.2))));
            lemma_term_map_push(o, f, x);
        }
    }
}

fn is_ascii_alpha_exec(c: char) -> (r: bool)
    ensures
        r == is_ascii_alpha(c),
{
    ('a' <= c && c <= 'z') || ('A' <= c && c <= 'Z')
}

fn at_word_bounds_exec(t: &Vec<char>, tlen: u128, start: usize, end: usize) -> (r: bool)
    requires
        tlen == utf8_len(t@),
    ensures
        r == at_word_bounds(t@, start, end),
{
    let start_ok = if start == 0 {
        true
    } else {
        match char_index_at_byte(t, start) {
            Some(k) => {
                proof {
                    if k == 0 {
                        assert(t@.take(0) =~= Seq::<char>::empty());
                    }
                }
                !is_ascii_alpha_exec(t[k - 1])
            },
            None => false,
        }
    };
    let end_ok = if end as u128 == tlen {
        true
    } else {
        match char_index_at_byte(t, end) {
            Some(k) => k < t.len() && !is_ascii_alpha_exec(t[k]),
            None => false,
        }
    };
    start_ok && end_ok
}

impl GlossaryAutomaton {
    /// The glossary's terms found in the texts as whole words (no ASCII
    /// letter right before or after), as a map from each term's text to its
    /// translation and source. When the automaton was built for the entries
    /// (leftmost-longest, ASCII-case-insensitive), the map is exactly that of
    /// `found_terms`. When aho-corasick refused to build it and the
    /// placeholder automaton (the one pattern `___dummy___`) stands in, the
    /// terms found are not stated.
    pub fn extract(&self, texts: &[String]) -> (r: Vec<(String, (String, TermType))>)
        ensures
            self.finds_entries() && ac_leftmost_longest_ci(self.ac) ==> is_term_map(
                found_view(r@),
                found_terms(self.ac, entry_terms(self.entries@), texts_of(texts@)),
            ),
    {
        let ghost es = entry_terms(self.entries@);
        let ghost tv = texts_of(texts@);
        let ghost mode = self.finds_entries() && ac_leftmost_longest_ci(self.ac);
        let mut out: Vec<(String, (String, TermType))> = Vec::new();
        let ghost mut f: Seq<Term> = Seq::empty();
        let mut i: usize = 0;
        proof {
            assert(tv.take(0) =~= Seq::<Seq<char>>::empty());
        }
        while i < texts.len()
            invariant
                es == entry_terms(self.entries@),
                tv == texts_of(texts@),
                mode == (self.finds_entries() && ac_leftmost_longest_ci(self.ac)),
                i <= texts.len(),
                mode ==> f == found_terms(self.ac, es, tv.take(i as int)),
                is_term_map(found_view(out@), f),
            decreases texts.len() - i,
        {
            let t = chars_of(texts[i].as_str());
            let tlen = utf8_len_exec(&t);
            let ms = find_all_matches(&self.ac, texts[i].as_str());
            let ghost f0 = f;
            let mut j: usize = 0;
            proof {
                assert(ms@.take(0) =~= Seq::<(usize, usize, usize)>::empty());
            }
            while j < ms.len()
                invariant
                    es == entry_terms(self.entries@),
                    t@ == tv[i as int],
                    tlen == utf8_len(t@),
                    j <= ms.len(),
                    f == f0 + accepted_terms(es, t@, ms@.take(j as int)),
                    is_term_map(found_view(out@), f),
                decreases ms.len() - j,
            {
                let (pat, start, end) = ms[j];
                proof {
                    assert(ms@.take(j + 1).drop_last() =~= ms@.take(j as int));
                    assert(ms@.take(j + 1).last() == ms@[j as int]);
                }
                if pat < self.entries.len() && at_word_bounds_exec(&t, tlen, start, end) {
                    let e = &self.entries[pat];
                    assert(es[pat as int] == (e.original@, e.translated@, e.source));
                    upsert(&mut out, e, Ghost(f));
                    proof {
                        f = f.push((e.original@, e.translated@, e.source));
                        assert(f =~= f0 + accepted_terms(es, t@, ms@.take(j + 1)));
                    }
                } else {
                    assert(f =~= f0 + accepted_terms(es, t@, ms@.take(j + 1)));
                }
                j = j + 1;
            }
            proof {
                assert(ms@.take(ms@.len() as int) =~= ms@);
                assert(tv.take(i + 1).drop_last() =~= tv.take(i as int));
                assert(tv.take(i + 1).last() == tv[i as int]);
                assert(texts@[i as int]@ == tv[i as int]);
            }
            i = i + 1;
        }
        proof {
            assert(tv.take(texts.len() as int) =~= tv);
        }
        out
    }
}

// ---------------------------------------------------------------------------
// The glossary's terms
// ---------------------------------------------------------------------------

/// `k` holds an alphabetic character.
pub open spec fn has_alphabetic(k: Seq<char>) -> bool {
    exists|i: int| 0 <= i < k.len() && spec_is_alphabetic(#[trigger] k[i])
}

/// The terms' texts.
pub open spec fn term_keys(ts: Seq<Term>) -> Seq<Seq<char>> {
    ts.map_values(|t: Term| t.0)
}

/// `acc` with the pairs of `src` added in order: each pair's key lowercased,
/// and added (with the given source) unless that key is already there, or,
/// when `need_alpha`, the key holds no alphabetic character.
pub open spec fn add_terms(acc: Seq<Term>, src: Seq<(Seq<char>, Seq<char>)>, need_alpha: bool, kind: TermType) -> Seq<
    Term,
>
    decreases src.len(),
{
    if src.len() == 0 {
        acc
    } else {
        let a = add_terms(acc, src.drop_last(), need_alpha, kind);
        let k = src.last().0;
        let kl = spec_to_lowercase(k);
        if (need_alpha && !has_alphabetic(k)) || term_keys(a).contains(kl) {
            a
        } else {
            a.push((kl, src.last().1, kind))
        }
    }
}

/// The glossary's terms: the dictionary's and the user's entries (the
/// user's first when `user_first`), all official, then the inferred ones.
pub open spec fn glossary_terms(
    exact: Seq<(Seq<char>, Seq<char>)>,
    memory: Seq<(Seq<char>, Seq<char>)>,
    inferred: Seq<(Seq<char>, Seq<char>)>,
    user_first: bool,
) -> Seq<Term> {
    let known = if user_first {
        add_terms(add_terms(Seq::empty(), memory, true, TermType::Official), exact, true, TermType::Official)
    } else {
        add_terms(add_terms(Seq::empty(), exact, true, TermType::Official), memory, true, TermType::Official)
    };
    add_terms(known, inferred, false, TermType::Inferred)
}

/// Pairs of strings as pairs of character sequences.
pub open spec fn pair_view(v: Seq<(String, String)>) -> Seq<(Seq<char>, Seq<char>)> {
    v.map_values(|p: (String, String)| (p.0@, p.1@))
}

fn has_alphabetic_exec(k: &Vec<char>) -> (r: bool)
    ensures
        r == has_alphabetic(k@),
{
    let mut i: usize = 0;
    while i < k.len()
        invariant
            i <= k.len(),
            forall|j: int| 0 <= j < i ==> !spec_is_alphabetic(#[trigger] k@[j]),
        decreases k.len() - i,
    {
        if char_is_alphabetic(k[i]) {
            return true;
        }
        i = i + 1;
    }
    false
}

fn add_terms_exec(acc: &mut Vec<GlossaryEntry>, src: &Vec<(String, String)>, need_alpha: bool, kind: TermType)
    ensures
        entry_terms(final(acc)@) == add_terms(entry_terms(old(acc)@), pair_view(src@), need_alpha, kind),
{
    let ghost a0 = entry_terms(acc@);
    let ghost sv = pair_view(src@);
    let mut i: usize = 0;
    assert(sv.take(0) =~= Seq::<(Seq<char>, Seq<char>)>::empty());
    while i < src.len()
        invariant
            sv == pair_view(src@),
            i <= src.len(),
            entry_terms(acc@) == add_terms(a0, sv.take(i as int), need_alpha, kind),
        decreases src.len() - i,
    {
        proof {
            assert(sv.take(i + 1).drop_last() =~= sv.take(i as int));
            assert(sv.take(i + 1).last() == sv[i as int]);
        }
        let k = chars_of(src[i].0.as_str());
        let skip_alpha = need_alpha && !has_alphabetic_exec(&k);
        if !skip_alpha {
            let kl = to_lowercase(src[i].0.as_str());
            let ghost keys = term_keys(entry_terms(acc@));
            let mut j: usize = 0;
            while j < acc.len()
                invariant
                    keys == term_keys(entry_terms(acc@)),
                    j <= acc.len(),
                    forall|q: int| 0 <= q < j ==> keys[q] != kl@,
                ensures
                    j <= acc.len(),
                    forall|q: int| 0 <= q < j ==> keys[q] != kl@,
                    j < acc.len() ==> keys[j as int] == kl@,
                decreases acc.len() - j,
            {
                assert(keys[j as int] == acc@[j as int].original@);
                if acc[j].original == kl {
                    break;
                }
                j = j + 1;
            }
            let present = j < acc.len();
            if !present {
                let ghost before = entry_terms(acc@);
                acc.push(GlossaryEntry { original: kl, translated: src[i].1.clone(), source: kind });
                assert(entry_terms(acc@) =~= before.push((spec_to_lowercase(sv[i as int].0), sv[i as int].1, kind)));
            }
        }
        i = i + 1;
    }
    assert(sv.take(src.len() as int) =~= sv);
}

impl GlossaryAutomaton {
    /// The automaton of the glossary made from the dictionary `exact_map`,
    /// the user's `memory_map` and the already `inferred` words: every key
    /// lowercased; the dictionary's and the user's keys kept only when they
    /// hold an alphabetic character and, when a key comes twice, the first
    /// wins, the user's entries going first when `priority` is `user`; the
    /// inferred words added last.
    pub fn new_with_terms(
        exact_map: &Vec<(String, String)>,
        memory_map: &Vec<(String, String)>,
        inferred: &Vec<(String, String)>,
        priority: &str,
    ) -> (r: Self)
        ensures
            entry_terms(r.entries@) == sort_by_len_desc(
                glossary_terms(pair_view(exact_map@), pair_view(memory_map@), pair_view(inferred@), priority@ == "user"@),
            ),
            r.finds_entries(),
    {
        let mut terms: Vec<GlossaryEntry> = Vec::new();
        assert(entry_terms(terms@) =~= Seq::<Term>::empty());
        let user_first = chars_eq_str(&chars_of(priority), "user");
        if user_first {
            add_terms_exec(&mut terms, memory_map, true, TermType::Official);
            add_terms_exec(&mut terms, exact_map, true, TermType::Official);
        } else {
            add_terms_exec(&mut terms, exact_map, true, TermType::Official);
            add_terms_exec(&mut terms, memory_map, true, TermType::Official);
        }
        add_terms_exec(&mut terms, inferred, false, TermType::Inferred);
        Self::build_automaton(&terms)
    }

    /// The automaton of the glossary with the words that `analyze_dictionary`
    /// infers from the dictionary (see `new_with_terms`); the map of newly
    /// inferred words that comes with it is always empty.
    pub fn new_with_inferred(
        exact_map: &Vec<(String, String)>,
        memory_map: &Vec<(String, String)>,
        priority: &str,
    ) -> (r: (Self, Vec<(String, String)>))
        ensures
            exists|inf: Seq<(Seq<char>, Seq<char>)>|
                is_inferred_map(pair_view(exact_map@), inf) && entry_terms(r.0.entries@)
                    == sort_by_len_desc(
                    glossary_terms(pair_view(exact_map@), pair_view(memory_map@), inf, priority@ == "user"@),
                ),
            r.0.finds_entries(),
            r.1@.len() == 0,
    {
        let inferred = analyze_dictionary(exact_map);
        proof {
            assert(pair_view(inferred@) =~= crate::translation::glossary::analyzer::pairs_view(inferred@));
            assert(pair_view(exact_map@) =~= entries_view(exact_map@));
        }
        let a = Self::new_with_terms(exact_map, memory_map, &inferred, priority);
        proof {
            assert(is_inferred_map(pair_view(exact_map@), pair_view(inferred@)));
        }
        (a, Vec::new())
    }

    /// The automaton of the glossary, the dictionary's entries before the
    /// user's (see `new_with_inferred`).
    pub fn new(exact_map: &Vec<(String, String)>, memory_map: &Vec<(String, String)>) -> (r: Self)
        ensures
            exists|inf: Seq<(Seq<char>, Seq<char>)>|
                is_inferred_map(pair_view(exact_map@), inf) && entry_terms(r.entries@)
                    == sort_by_len_desc(
                    glossary_terms(pair_view(exact_map@), pair_view(memory_map@), inf, false),
                ),
            r.finds_entries(),
    {
        let (a, _) = Self::new_with_inferred(exact_map, memory_map, "official");
        proof {
            reveal_strlit("official");
            reveal_strlit("user");
            assert("official"@ != "user"@) by {
                assert("official"@.len() != "user"@.len());
            }
            let inf = choose|inf: Seq<(Seq<char>, Seq<char>)>|
                is_inferred_map(pair_view(exact_map@), inf) && entry_terms(a.entries@)
                    == sort_by_len_desc(
                    glossary_terms(pair_view(exact_map@), pair_view(memory_map@), inf, "official"@ == "user"@),
                );
            assert(is_inferred_map(pair_view(exact_map@), inf));
        }
        a
    }
}

/// `inf` is what `analyze_dictionary` infers from the entries: each word
/// with an inferred translation once, with that translation, and no other.
pub open spec fn is_inferred_map(es: Seq<(Seq<char>, Seq<char>)>, inf: Seq<(Seq<char>, Seq<char>)>) -> bool {
    &&& forall|a: int, b: int| 0 <= a < b < inf.len() ==> (#[trigger] inf[a]).0 != (#[trigger] inf[b]).0
    &&& forall|a: int| 0 <= a < inf.len() ==> spec_inferred(es, (#[trigger] inf[a]).0) == Some(inf[a].1)
    &&& forall|w: Seq<char>| (#[trigger] spec_inferred(es, w)) is Some ==> exists|a: int|
        0 <= a < inf.len() && (#[trigger] inf[a]).0 == w
}


/// Terms ordered by the byte length of their originals, longest first.
pub open spec fn longer_original_first() -> spec_fn(Term, Term) -> bool {
    |a: Term, b: Term| utf8_len(a.0) > utf8_len(b.0)
}

proof fn lemma_insert_by_len_ordered(s: Seq<Term>, x: Term)
    ensures
        insert_by_len(s, x) == insert_ordered(s, x, longer_original_first()),
    decreases s.len(),
{
    if s.len() > 0 {
        lemma_insert_by_len_ordered(s.drop_last(), x);
    }
}

proof fn lemma_sort_by_len_ordered(s: Seq<Term>)
    ensures
        sort_by_len_desc(s) == sort_ordered(s, longer_original_first()),
    decreases s.len(),
{
    if s.len() > 0 {
        lemma_sort_by_len_ordered(s.drop_last());
        lemma_insert_by_len_ordered(sort_by_len_desc(s.drop_last()), s.last());
    }
}

/// A glossary's terms are listed longest first: the sorted list holds the
/// same terms, and no term is followed by a longer one (so a longer term is
/// met before any shorter term inside it).
pub proof fn law_glossary_terms_longest_first(s: Seq<Term>)
    ensures
        sort_by_len_desc(s).to_multiset() == s.to_multiset(),
        forall|i: int, j: int|
            0 <= i < j < s.len() ==> utf8_len((#[trigger] sort_by_len_desc(s)[i]).0) >= utf8_len(
                (#[trigger] sort_by_len_desc(s)[j]).0,
            ),
{
    lemma_sort_by_len_ordered(s);
    lemma_sort_ordered(s, longer_original_first());
    let r = sort_by_len_desc(s);
    assert forall|i: int, j: int| 0 <= i < j < s.len() implies utf8_len((#[trigger] r[i]).0) >= utf8_len(
        (#[trigger] r[j]).0,
    ) by {
        assert(!longer_original_first()(r[j], r[i]));
    }
}


/// The translation and source of the first term with the text `k`.
pub open spec fn term_lookup(ts: Seq<Term>, k: Seq<char>) -> Option<(Seq<char>, TermType)>
    decreases ts.len(),
{
    if ts.len() == 0 {
        None
    } else {
        match term_lookup(ts.drop_last(), k) {
            Some(x) => Some(x),
            None => if ts.last().0 == k {
                Some((ts.last().1, ts.last().2))
            } else {
                None
            },
        }
    }
}

/// Whether a pair makes a term with the text `k`: its key lowercases to
/// `k` (and holds an alphabetic character, when that is asked).
pub open spec fn makes_term(p: (Seq<char>, Seq<char>), k: Seq<char>, need_alpha: bool) -> bool {
    spec_to_lowercase(p.0) == k && !(need_alpha && !has_alphabetic(p.0))
}

/// The translation of the first pair that makes a term with the text `k`.
pub open spec fn first_translation(src: Seq<(Seq<char>, Seq<char>)>, k: Seq<char>, need_alpha: bool) -> Option<Seq<char>>
    decreases src.len(),
{
    if src.len() == 0 {
        None
    } else {
        match first_translation(src.drop_last(), k, need_alpha) {
            Some(v) => Some(v),
            None => if makes_term(src.last(), k, need_alpha) {
                Some(src.last().1)
            } else {
                None
            },
        }
    }
}

proof fn lemma_term_lookup_none(ts: Seq<Term>, k: Seq<char>)
    ensures
        term_lookup(ts, k) is None <==> !term_keys(ts).contains(k),
    decreases ts.len(),
{
    if ts.len() > 0 {
        lemma_term_lookup_none(ts.drop_last(), k);
        let d = ts.drop_last();
        assert(term_keys(ts) =~= term_keys(d).push(ts.last().0));
        if term_keys(d).contains(k) {
            let w = choose|w: int| 0 <= w < term_keys(d).len() && term_keys(d)[w] == k;
            assert(term_keys(ts)[w] == k);
        }
        if term_keys(ts).contains(k) && ts.last().0 != k {
            let w = choose|w: int| 0 <= w < term_keys(ts).len() && term_keys(ts)[w] == k;
            assert(w != ts.len() - 1);
            assert(term_keys(d)[w] == k);
        }
        if ts.last().0 == k {
            assert(term_keys(ts)[ts.len() - 1] == k);
        }
    }
}

proof fn lemma_term_lookup_push(ts: Seq<Term>, t: Term, k: Seq<char>)
    ensures
        term_lookup(ts.push(t), k) == match term_lookup(ts, k) {
            Some(x) => Some(x),
            None => if t.0 == k {
                Some((t.1, t.2))
            } else {
                None
            },
        },
{
    assert(ts.push(t).drop_last() =~= ts);
}

/// Adding pairs to terms: a text the terms have keeps its term, else it
/// gets the first pair that makes it.
proof fn lemma_add_terms_lookup(acc: Seq<Term>, src: Seq<(Seq<char>, Seq<char>)>, need_alpha: bool, kind: TermType, k: Seq<char>)
    ensures
        term_lookup(add_terms(acc, src, need_alpha, kind), k) == match term_lookup(acc, k) {
            Some(x) => Some(x),
            None => match first_translation(src, k, need_alpha) {
                Some(v) => Some((v, kind)),
                None => None,
            },
        },
    decreases src.len(),
{
    if src.len() > 0 {
        let d = src.drop_last();
        lemma_add_terms_lookup(acc, d, need_alpha, kind, k);
        let a = add_terms(acc, d, need_alpha, kind);
        let kl = spec_to_lowercase(src.last().0);
        if (need_alpha && !has_alphabetic(src.last().0)) || term_keys(a).contains(kl) {
            if term_keys(a).contains(kl) && kl == k {
                lemma_term_lookup_none(a, k);
            }
        } else {
            lemma_term_lookup_push(a, (kl, src.last().1, kind), k);
            lemma_term_lookup_none(a, kl);
        }
    }
}

/// The glossary priority decides whose translation a word gets: a word
/// (lowercased, with an alphabetic character) that the user's memory and
/// the dictionary both know takes the memory's translation under user
/// priority and the dictionary's otherwise (the first entry of each that
/// gives it); a word neither knows takes its inferred translation, if any.
pub proof fn law_glossary_priority(
    exact: Seq<(Seq<char>, Seq<char>)>,
    memory: Seq<(Seq<char>, Seq<char>)>,
    inferred: Seq<(Seq<char>, Seq<char>)>,
    user_first: bool,
    k: Seq<char>,
)
    ensures
        term_lookup(glossary_terms(exact, memory, inferred, user_first), k) == ({
            let (first, second) = if user_first {
                (memory, exact)
            } else {
                (exact, memory)
            };
            match first_translation(first, k, true) {
                Some(v) => Some((v, TermType::Official)),
                None => match first_translation(second, k, true) {
                    Some(v) => Some((v, TermType::Official)),
                    None => match first_translation(inferred, k, false) {
                        Some(v) => Some((v, TermType::Inferred)),
                        None => None,
                    },
                },
            }
        }),
{
    let (first, second) = if user_first {
        (memory, exact)
    } else {
        (exact, memory)
    };
    let e = Seq::<Term>::empty();
    lemma_add_terms_lookup(e, first, true, TermType::Official, k);
    let one = add_terms(e, first, true, TermType::Official);
    lemma_add_terms_lookup(one, second, true, TermType::Official, k);
    let two = add_terms(one, second, true, TermType::Official);
    lemma_add_terms_lookup(two, inferred, false, TermType::Inferred, k);
}


// ---------------------------------------------------------------------------
// Laws of extraction: terms are found as whole words
// ---------------------------------------------------------------------------

/// The match from byte `start` to byte `end` of `t` is a whole word: it
/// starts the text or the character just before it is no ASCII letter, and
/// it ends the text or the character just after it is no ASCII letter.
pub open spec fn whole_word(t: Seq<char>, start: int, end: int) -> bool {
    &&& (start == 0 || (is_byte_boundary(t, start) && {
        let c = t[char_index_of_byte(t, start) - 1];
        !(('a' <= c && c <= 'z') || ('A' <= c && c <= 'Z'))
    }))
    &&& (end == utf8_len(t) || (is_byte_boundary(t, end) && char_index_of_byte(t, end) < t.len() && {
        let c = t[char_index_of_byte(t, end)];
        !(('a' <= c && c <= 'z') || ('A' <= c && c <= 'Z'))
    }))
}

proof fn lemma_accepted_sound(entries: Seq<Term>, t: Seq<char>, ms: Seq<(usize, usize, usize)>)
    ensures
        forall|k: int| 0 <= k < accepted_terms(entries, t, ms).len() ==> exists|w: int|
            0 <= w < ms.len() && (ms[w].0 as int) < entries.len() && entries[ms[w].0 as int]
                == #[trigger] accepted_terms(entries, t, ms)[k] && whole_word(t, ms[w].1 as int, ms[w].2 as int),
    decreases ms.len(),
{
    if ms.len() > 0 {
        let d = ms.drop_last();
        lemma_accepted_sound(entries, t, d);
        let a = accepted_terms(entries, t, ms);
        let ad = accepted_terms(entries, t, d);
        assert forall|k: int| 0 <= k < a.len() implies exists|w: int|
            0 <= w < ms.len() && (ms[w].0 as int) < entries.len() && entries[ms[w].0 as int] == #[trigger] a[k]
                && whole_word(t, ms[w].1 as int, ms[w].2 as int) by {
            if k < ad.len() {
                assert(a[k] == ad[k]);
                let w = choose|w: int|
                    0 <= w < d.len() && (d[w].0 as int) < entries.len() && entries[d[w].0 as int] == #[trigger] ad[k]
                        && whole_word(t, d[w].1 as int, d[w].2 as int);
                assert(ms[w] == d[w]);
            } else {
                let w = ms.len() - 1;
                assert(at_word_bounds(t, ms[w].1, ms[w].2));
                assert(whole_word(t, ms[w].1 as int, ms[w].2 as int));
            }
        }
    }
}

proof fn lemma_accepted_complete(entries: Seq<Term>, t: Seq<char>, ms: Seq<(usize, usize, usize)>)
    ensures
        forall|w: int|
            0 <= w < ms.len() && (ms[w].0 as int) < entries.len() && whole_word(t, ms[w].1 as int, ms[w].2 as int)
                ==> accepted_terms(entries, t, ms).contains(entries[#[trigger] ms[w].0 as int]),
    decreases ms.len(),
{
    if ms.len() > 0 {
        let d = ms.drop_last();
        lemma_accepted_complete(entries, t, d);
        let a = accepted_terms(entries, t, ms);
        let ad = accepted_terms(entries, t, d);
        assert forall|w: int|
            0 <= w < ms.len() && (ms[w].0 as int) < entries.len() && whole_word(t, ms[w].1 as int, ms[w].2 as int)
                implies a.contains(entries[#[trigger] ms[w].0 as int]) by {
            if w < d.len() {
                assert(d[w] == ms[w]);
                assert(ad.contains(entries[d[w].0 as int]));
                let k = choose|k: int| 0 <= k < ad.len() && ad[k] == entries[d[w].0 as int];
                if at_word_bounds(t, ms.last().1, ms.last().2) && (ms.last().0 as int) < entries.len() {
                    assert(a[k] == ad[k]);
                } else {
                    assert(a == ad);
                }
            } else {
                assert(at_word_bounds(t, ms[w].1, ms[w].2));
                assert(a[a.len() - 1] == entries[ms[w].0 as int]);
            }
        }
    }
}

/// `term` is the term of a match, in one of the texts, that stands as a
/// whole word (see `whole_word`).
pub open spec fn whole_word_match_of(ac: AhoCorasick, entries: Seq<Term>, texts: Seq<Seq<char>>, term: Term) -> bool {
    exists|j: int, w: int|
        #![trigger leftmost_longest_ci_matches(ac_patterns(ac), texts[j])[w]]
        0 <= j < texts.len() && 0 <= w < leftmost_longest_ci_matches(ac_patterns(ac), texts[j]).len() && {
            let m = leftmost_longest_ci_matches(ac_patterns(ac), texts[j])[w];
            &&& (m.0 as int) < entries.len()
            &&& entries[m.0 as int] == term
            &&& whole_word(texts[j], m.1 as int, m.2 as int)
        }
}

/// Terms are found as whole words: every term the automaton's matches give
/// comes from a match in one of the texts whose neighbours (the characters
/// just before and after it, where there are any) are not ASCII letters; and
/// every match of a term that stands so is found (`Apple` in `Pineapple`
/// is not).
pub proof fn law_terms_found_as_whole_words(ac: AhoCorasick, entries: Seq<Term>, texts: Seq<Seq<char>>)
    ensures
        forall|k: int| 0 <= k < found_terms(ac, entries, texts).len() ==> whole_word_match_of(
            ac,
            entries,
            texts,
            #[trigger] found_terms(ac, entries, texts)[k],
        ),
        forall|j: int, w: int|
            0 <= j < texts.len() && 0 <= w < leftmost_longest_ci_matches(ac_patterns(ac), texts[j]).len() && {
                let m = #[trigger] leftmost_longest_ci_matches(ac_patterns(ac), texts[j])[w];
                (m.0 as int) < entries.len() && whole_word(texts[j], m.1 as int, m.2 as int)
            } ==> found_terms(ac, entries, texts).contains(
                entries[leftmost_longest_ci_matches(ac_patterns(ac), texts[j])[w].0 as int],
            ),
    decreases texts.len(),
{
    if texts.len() > 0 {
        let d = texts.drop_last();
        law_terms_found_as_whole_words(ac, entries, d);
        let t = texts.last();
        let ms = leftmost_longest_ci_matches(ac_patterns(ac), t);
        lemma_accepted_sound(entries, t, ms);
        lemma_accepted_complete(entries, t, ms);
        let f = found_terms(ac, entries, texts);
        let fd = found_terms(ac, entries, d);
        let at = accepted_terms(entries, t, ms);
        assert(f == fd + at);
        assert forall|k: int| 0 <= k < f.len() implies whole_word_match_of(ac, entries, texts, #[trigger] f[k]) by {
            if k < fd.len() {
                assert(f[k] == fd[k]);
                assert(whole_word_match_of(ac, entries, d, fd[k]));
                let (j, w) = choose|j: int, w: int|
                    #![trigger leftmost_longest_ci_matches(ac_patterns(ac), d[j])[w]]
                    0 <= j < d.len() && 0 <= w < leftmost_longest_ci_matches(ac_patterns(ac), d[j]).len() && {
                        let m = leftmost_longest_ci_matches(ac_patterns(ac), d[j])[w];
                        &&& (m.0 as int) < entries.len()
                        &&& entries[m.0 as int] == fd[k]
                        &&& whole_word(d[j], m.1 as int, m.2 as int)
                    };
                assert(texts[j] == d[j]);
                let _m = leftmost_longest_ci_matches(ac_patterns(ac), texts[j])[w];
            } else {
                assert(f[k] == at[k - fd.len()]);
                let w = choose|w: int|
                    0 <= w < ms.len() && (ms[w].0 as int) < entries.len() && entries[ms[w].0 as int]
                        == #[trigger] at[k - fd.len()] && whole_word(t, ms[w].1 as int, ms[w].2 as int);
                let j = texts.len() - 1;
                assert(texts[j] == t);
                let _m = leftmost_longest_ci_matches(ac_patterns(ac), texts[j])[w];
            }
        }
        assert forall|j: int, w: int|
            0 <= j < texts.len() && 0 <= w < leftmost_longest_ci_matches(ac_patterns(ac), texts[j]).len() && {
                let m = #[trigger] leftmost_longest_ci_matches(ac_patterns(ac), texts[j])[w];
                (m.0 as int) < entries.len() && whole_word(texts[j], m.1 as int, m.2 as int)
            } implies f.contains(entries[leftmost_longest_ci_matches(ac_patterns(ac), texts[j])[w].0 as int]) by {
            let e = entries[leftmost_longest_ci_matches(ac_patterns(ac), texts[j])[w].0 as int];
            if j < d.len() {
                assert(texts[j] == d[j]);
                let _m = leftmost_longest_ci_matches(ac_patterns(ac), d[j])[w];
                assert(fd.contains(e));
                let k = choose|k: int| 0 <= k < fd.len() && fd[k] == e;
                assert(f[k] == fd[k]);
            } else {
                assert(texts[j] == t);
                let _m = ms[w];
                assert(at.contains(e));
                let k = choose|k: int| 0 <= k < at.len() && at[k] == e;
                assert(f[fd.len() + k] == at[k]);
            }
        }
    }
}

/// What `extract` gives for texts (a map of the found terms, see
/// `is_term_map`) holds only terms with a whole-word match: `Apple` is not
/// extracted from `Pineapple`.
pub proof fn law_extracted_terms_are_whole_words(
    ac: AhoCorasick,
    entries: Seq<Term>,
    texts: Seq<Seq<char>>,
    r: Seq<(Seq<char>, (Seq<char>, TermType))>,
)
    requires
        is_term_map(r, found_terms(ac, entries, texts)),
    ensures
        forall|a: int| 0 <= a < r.len() ==> exists|x: Term|
            #[trigger] whole_word_match_of(ac, entries, texts, x) && x.0 == (#[trigger] r[a]).0,
{
    let f = found_terms(ac, entries, texts);
    law_terms_found_as_whole_words(ac, entries, texts);
    assert forall|a: int| 0 <= a < r.len() implies exists|x: Term|
        #[trigger] whole_word_match_of(ac, entries, texts, x) && x.0 == (#[trigger] r[a]).0 by {
        let j = choose|j: int| 0 <= j < f.len() && (#[trigger] f[j]).0 == r[a].0;
        assert(whole_word_match_of(ac, entries, texts, f[j]));
    }
}

} // verus!

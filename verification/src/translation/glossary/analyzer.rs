//! Inferring word translations from a dictionary of multi-word names: a word
//! that recurs across several entries is paired with the run of CJK
//! characters that their translations share.
use vstd::prelude::*;
use crate::text::{lemma_dedup_contains, chars_eq, chars_eq_str, char_is_alphabetic, to_lowercase, utf8_len_exec, char_is_whitespace, spec_is_whitespace, spec_is_alphabetic, spec_to_lowercase, utf8_len, dedup, chars_less, contains_chars, ends_with_chars, occurs_at, starts_with_chars, chars_lt, chars_of, lemma_chars_lt_irreflexive, lemma_chars_lt_total, lemma_chars_lt_transitive, occurs_in, string_of, sub_chars};

verus! {

// ---------------------------------------------------------------------------
// CJK characters
// ---------------------------------------------------------------------------

/// A CJK unified ideograph (U+4E00 to U+9FFF) or one of extension A (U+3400
/// to U+4DBF).
pub open spec fn spec_is_cjk(c: char) -> bool {
    (0x4e00 <= (c as u32) <= 0x9fff) || (0x3400 <= (c as u32) <= 0x4dbf)
}

/// Whether `c` is a CJK ideograph (see `spec_is_cjk`).
pub fn is_cjk(c: char) -> (r: bool)
    ensures
        r == spec_is_cjk(c),
{
    let u = c as u32;
    (0x4e00 <= u && u <= 0x9fff) || (0x3400 <= u && u <= 0x4dbf)
}

/// The CJK characters of `s`, in order.
pub open spec fn cjk_chars(s: Seq<char>) -> Seq<char>
    decreases s.len(),
{
    if s.len() == 0 {
        s
    } else if spec_is_cjk(s.last()) {
        cjk_chars(s.drop_last()).push(s.last())
    } else {
        cjk_chars(s.drop_last())
    }
}

fn cjk_chars_exec(v: &Vec<char>) -> (r: Vec<char>)
    ensures
        r@ == cjk_chars(v@),
{
    let mut r: Vec<char> = Vec::new();
    let mut i: usize = 0;
    assert(v@.take(0) =~= Seq::<char>::empty());
    while i < v.len()
        invariant
            i <= v.len(),
            r@ == cjk_chars(v@.take(i as int)),
        decreases v.len() - i,
    {
        assert(v@.take(i + 1).drop_last() =~= v@.take(i as int));
        if is_cjk(v[i]) {
            r.push(v[i]);
        }
        i = i + 1;
    }
    assert(v@.take(v.len() as int) =~= v@);
    r
}

// ---------------------------------------------------------------------------
// Cleaning an inferred translation
// ---------------------------------------------------------------------------

/// Inferred translations that carry no meaning of their own.
pub open spec fn inference_blacklist() -> Seq<Seq<char>> {
    seq![
        seq!['色'],
        seq!['的'],
        seq!['了'],
        seq!['是'],
        seq!['在'],
        seq!['有'],
        seq!['為'],
        seq!['牆', '上'],
    ]
}

/// A leading `色`, then a trailing `色`, then a leading `木` are dropped (each
/// only from a text of more than one character); a blacklisted or empty
/// result gives nothing.
pub open spec fn spec_clean_inferred_zh(s: Seq<char>) -> Option<Seq<char>> {
    let a = if s.len() > 1 && s[0] == '色' {
        s.drop_first()
    } else {
        s
    };
    let b = if a.len() > 1 && a.last() == '色' {
        a.drop_last()
    } else {
        a
    };
    let c = if b.len() > 1 && b[0] == '木' {
        b.drop_first()
    } else {
        b
    };
    if inference_blacklist().contains(c) || c.len() == 0 {
        None
    } else {
        Some(c)
    }
}

fn blacklisted(c: &Vec<char>) -> (r: bool)
    ensures
        r == inference_blacklist().contains(c@),
{
    let ghost bl = inference_blacklist();
    let r = if c.len() == 1 {
        let x = c[0];
        x == '色' || x == '的' || x == '了' || x == '是' || x == '在' || x == '有' || x == '為'
    } else if c.len() == 2 {
        c[0] == '牆' && c[1] == '上'
    } else {
        false
    };
    proof {
        if r {
            let k: int = if c@.len() == 2 {
                7
            } else if c@[0] == '色' {
                0
            } else if c@[0] == '的' {
                1
            } else if c@[0] == '了' {
                2
            } else if c@[0] == '是' {
                3
            } else if c@[0] == '在' {
                4
            } else if c@[0] == '有' {
                5
            } else {
                6
            };
            assert(bl[k] =~= c@);
        }
        if bl.contains(c@) {
            let k = choose|k: int| 0 <= k < bl.len() && bl[k] == c@;
            assert(bl[k] == c@);
            assert(c@.len() == bl[k].len());
            if k < 7 {
                assert(c@[0] == bl[k][0]);
            } else {
                assert(c@[0] == bl[k][0] && c@[1] == bl[k][1]);
            }
        }
    }
    r
}

fn clean_chars(s: &Vec<char>) -> (r: Option<Vec<char>>)
    ensures
        match r {
            Some(c) => spec_clean_inferred_zh(s@) == Some(c@),
            None => spec_clean_inferred_zh(s@) is None,
        },
{
    let mut a = if s.len() > 1 && s[0] == '色' {
        sub_chars(s, 1, s.len())
    } else {
        sub_chars(s, 0, s.len())
    };
    assert(s@.subrange(0, s@.len() as int) =~= s@);
    assert(s@.len() > 0 ==> s@.subrange(1, s@.len() as int) =~= s@.drop_first());
    if a.len() > 1 && a[a.len() - 1] == '色' {
        a = sub_chars(&a, 0, a.len() - 1);
        assert(a@ =~= a@);
    }
    let c = if a.len() > 1 && a[0] == '木' {
        sub_chars(&a, 1, a.len())
    } else {
        a
    };
    if blacklisted(&c) || c.len() == 0 {
        None
    } else {
        Some(c)
    }
}

/// The inferred translation `s` cleaned as `spec_clean_inferred_zh` says.
pub fn clean_inferred_zh(s: &str) -> (r: Option<String>)
    ensures
        match r {
            Some(c) => spec_clean_inferred_zh(s@) == Some(c@),
            None => spec_clean_inferred_zh(s@) is None,
        },
{
    let v = chars_of(s);
    match clean_chars(&v) {
        Some(c) => Some(string_of(&c)),
        None => None,
    }
}

// ---------------------------------------------------------------------------
// The run of CJK characters that most translations share
// ---------------------------------------------------------------------------

/// Where a run of characters is looked for in a text: at its start, at its
/// end, or anywhere.
#[derive(Clone, Copy)]
pub enum GramKind {
    Prefix,
    Suffix,
    Anywhere,
}

/// The non-empty run `g` occurs in `c` as the kind says.
pub open spec fn gram_in(kind: GramKind, g: Seq<char>, c: Seq<char>) -> bool {
    g.len() > 0 && match kind {
        GramKind::Prefix => g.is_prefix_of(c),
        GramKind::Suffix => g.is_suffix_of(c),
        GramKind::Anywhere => occurs_in(g, c),
    }
}

/// How many of the texts `cs` contain `g` as the kind says.
pub open spec fn gram_count(kind: GramKind, cs: Seq<Seq<char>>, g: Seq<char>) -> nat
    decreases cs.len(),
{
    if cs.len() == 0 {
        0
    } else {
        gram_count(kind, cs.drop_last(), g) + if gram_in(kind, g, cs.last()) {
            1nat
        } else {
            0nat
        }
    }
}

/// The length of the shortest of the texts (0 when there is none).
pub open spec fn min_len(cs: Seq<Seq<char>>) -> nat
    decreases cs.len(),
{
    if cs.len() == 0 {
        0
    } else if cs.len() == 1 {
        cs[0].len()
    } else if cs.last().len() < min_len(cs.drop_last()) {
        cs.last().len()
    } else {
        min_len(cs.drop_last())
    }
}

/// Runs are ranked by count, then length, then text (in `String` order).
pub open spec fn rank_le(c1: nat, g1: Seq<char>, c2: nat, g2: Seq<char>) -> bool {
    c1 < c2 || (c1 == c2 && (g1.len() < g2.len() || (g1.len() == g2.len() && (g1 == g2
        || chars_lt(g1, g2)))))
}

/// A run found in more than half of the texts and no longer than the shortest.
pub open spec fn eligible(kind: GramKind, cs: Seq<Seq<char>>, g: Seq<char>) -> bool {
    gram_count(kind, cs, g) >= cs.len() / 2 + 1 && g.len() <= min_len(cs)
}

/// `g` is the eligible run of highest rank.
pub open spec fn is_best_gram(kind: GramKind, cs: Seq<Seq<char>>, g: Seq<char>) -> bool {
    &&& eligible(kind, cs, g)
    &&& forall|h: Seq<char>| #[trigger]
        eligible(kind, cs, h) ==> rank_le(gram_count(kind, cs, h), h, gram_count(kind, cs, g), g)
}

/// The eligible run of highest rank, with its count, if there is one.
pub open spec fn best_gram(kind: GramKind, cs: Seq<Seq<char>>) -> Option<(Seq<char>, nat)> {
    if exists|g: Seq<char>| is_best_gram(kind, cs, g) {
        let g = choose|g: Seq<char>| is_best_gram(kind, cs, g);
        Some((g, gram_count(kind, cs, g)))
    } else {
        None
    }
}

/// Of two candidates, the later one unless the earlier has a higher
/// (count, length) (what `Iterator::max_by_key` keeps).
pub open spec fn later_unless_lower(
    acc: Option<(Seq<char>, nat)>,
    x: Option<(Seq<char>, nat)>,
) -> Option<(Seq<char>, nat)> {
    match x {
        None => acc,
        Some((g, c)) => match acc {
            None => x,
            Some((a, ac)) => if ac < c || (ac == c && a.len() <= g.len()) {
                x
            } else {
                acc
            },
        },
    }
}

/// The run of CJK characters shared by most of the texts: the best leading,
/// trailing and inner runs compete by (count, length), the later winning a
/// tie, and the winner is cleaned. Fewer than three texts give nothing.
pub open spec fn spec_find_common_hanzi(texts: Seq<Seq<char>>) -> Option<Seq<char>> {
    if texts.len() < 3 {
        None
    } else {
        let cs = texts.map_values(|t: Seq<char>| cjk_chars(t));
        let pick = later_unless_lower(
            later_unless_lower(best_gram(GramKind::Prefix, cs), best_gram(GramKind::Suffix, cs)),
            best_gram(GramKind::Anywhere, cs),
        );
        match pick {
            Some((g, _)) => spec_clean_inferred_zh(g),
            None => None,
        }
    }
}

proof fn lemma_rank_le_trans(c1: nat, g1: Seq<char>, c2: nat, g2: Seq<char>, c3: nat, g3: Seq<char>)
    requires
        rank_le(c1, g1, c2, g2),
        rank_le(c2, g2, c3, g3),
    ensures
        rank_le(c1, g1, c3, g3),
{
    if c1 == c2 && c2 == c3 && g1.len() == g2.len() && g2.len() == g3.len() {
        if g1 != g2 && g2 != g3 {
            lemma_chars_lt_transitive(g1, g2, g3);
        }
    }
}

proof fn lemma_rank_le_total(c1: nat, g1: Seq<char>, c2: nat, g2: Seq<char>)
    ensures
        rank_le(c1, g1, c2, g2) || rank_le(c2, g2, c1, g1),
{
    lemma_chars_lt_total(g1, g2);
}

proof fn lemma_rank_le_antisym(c1: nat, g1: Seq<char>, c2: nat, g2: Seq<char>)
    requires
        rank_le(c1, g1, c2, g2),
        rank_le(c2, g2, c1, g1),
    ensures
        g1 == g2,
{
    if g1 != g2 {
        lemma_chars_lt_irreflexive(g1);
        lemma_chars_lt_transitive(g1, g2, g1);
    }
}

proof fn lemma_best_gram_is(kind: GramKind, cs: Seq<Seq<char>>, g: Seq<char>)
    requires
        is_best_gram(kind, cs, g),
    ensures
        best_gram(kind, cs) == Some((g, gram_count(kind, cs, g))),
{
    let h = choose|h: Seq<char>| is_best_gram(kind, cs, h);
    assert(is_best_gram(kind, cs, h));
    assert(eligible(kind, cs, g));
    assert(eligible(kind, cs, h));
    lemma_rank_le_antisym(gram_count(kind, cs, h), h, gram_count(kind, cs, g), g);
}

/// The CJK characters of the texts.
pub open spec fn cjk_texts(texts: Seq<Seq<char>>) -> Seq<Seq<char>> {
    texts.map_values(|t: Seq<char>| cjk_chars(t))
}

proof fn lemma_cjk_chars_all(s: Seq<char>)
    ensures
        forall|j: int| 0 <= j < cjk_chars(s).len() ==> spec_is_cjk(#[trigger] cjk_chars(s)[j]),
    decreases s.len(),
{
    if s.len() > 0 {
        lemma_cjk_chars_all(s.drop_last());
        let d = cjk_chars(s.drop_last());
        assert forall|j: int| 0 <= j < cjk_chars(s).len() implies spec_is_cjk(#[trigger] cjk_chars(s)[j]) by {
            if j < d.len() {
                assert(cjk_chars(s)[j] == d[j]);
            }
        }
    }
}

proof fn lemma_min_len_le(cs: Seq<Seq<char>>, i: int)
    requires
        0 <= i < cs.len(),
    ensures
        min_len(cs) <= cs[i].len(),
    decreases cs.len(),
{
    if cs.len() > 1 {
        if i < cs.len() - 1 {
            lemma_min_len_le(cs.drop_last(), i);
            assert(cs.drop_last()[i] == cs[i]);
        }
    }
}

/// A run found as the kind says is found anywhere.
proof fn lemma_gram_in_occurs(kind: GramKind, g: Seq<char>, c: Seq<char>)
    requires
        gram_in(kind, g, c),
    ensures
        occurs_in(g, c),
{
    match kind {
        GramKind::Prefix => {
            assert(occurs_at(g, c, 0));
        },
        GramKind::Suffix => {
            assert(c.subrange(c.len() - g.len(), c.len() as int) =~= g);
            assert(occurs_at(g, c, c.len() - g.len()));
        },
        GramKind::Anywhere => {},
    }
}

/// A piece of a run found in a text is found in it too.
proof fn lemma_occurs_sub(g: Seq<char>, c: Seq<char>, a: int, b: int)
    requires
        occurs_in(g, c),
        0 <= a <= b <= g.len(),
    ensures
        occurs_in(g.subrange(a, b), c),
{
    let k = choose|k: int| occurs_at(g, c, k);
    assert(c.subrange(k + a, k + b) =~= g.subrange(a, b)) by {
        assert(c.subrange(k, k + g.len()) == g);
        assert forall|j: int| 0 <= j < b - a implies c.subrange(k + a, k + b)[j] == g.subrange(a, b)[j] by {
            assert(c.subrange(k, k + g.len())[a + j] == c[k + a + j]);
        }
    }
    assert(occurs_at(g.subrange(a, b), c, k + a));
}

/// Texts holding `g` as the kind says hold a piece of it anywhere.
proof fn lemma_count_piece(kind: GramKind, cs: Seq<Seq<char>>, g: Seq<char>, a: int, b: int)
    requires
        0 <= a < b <= g.len(),
    ensures
        gram_count(kind, cs, g) <= gram_count(GramKind::Anywhere, cs, g.subrange(a, b)),
    decreases cs.len(),
{
    if cs.len() > 0 {
        lemma_count_piece(kind, cs.drop_last(), g, a, b);
        if gram_in(kind, g, cs.last()) {
            lemma_gram_in_occurs(kind, g, cs.last());
            lemma_occurs_sub(g, cs.last(), a, b);
        }
    }
}

/// Some text holds a run that is counted.
proof fn lemma_count_witness(kind: GramKind, cs: Seq<Seq<char>>, g: Seq<char>)
    requires
        gram_count(kind, cs, g) > 0,
    ensures
        exists|k: int| 0 <= k < cs.len() && gram_in(kind, g, #[trigger] cs[k]),
    decreases cs.len(),
{
    if gram_in(kind, g, cs.last()) {
        assert(cs[cs.len() - 1] == cs.last());
    } else {
        lemma_count_witness(kind, cs.drop_last(), g);
        let k = choose|k: int| 0 <= k < cs.drop_last().len() && gram_in(kind, g, #[trigger] cs.drop_last()[k]);
        assert(cs.drop_last()[k] == cs[k]);
    }
}

/// What cleaning keeps is a non-empty, allowed piece of the run.
proof fn lemma_clean_piece(g: Seq<char>)
    ensures
        spec_clean_inferred_zh(g) matches Some(s) ==> s.len() > 0 && !inference_blacklist().contains(s) && exists|
            a: int,
            b: int,
        | 0 <= a < b <= g.len() && s == g.subrange(a, b),
{
    if let Some(s) = spec_clean_inferred_zh(g) {
        let a0: int = if g.len() > 1 && g[0] == '色' { 1 } else { 0 };
        let a = g.subrange(a0, g.len() as int);
        let b1: int = if a.len() > 1 && a.last() == '色' { g.len() - 1 } else { g.len() as int };
        let b = g.subrange(a0, b1);
        let a2: int = if b.len() > 1 && b[0] == '木' { a0 + 1 } else { a0 };
        assert(s =~= g.subrange(a2, b1));
    }
}

/// The winner of the three competing runs is one of them.
proof fn lemma_pick_one(
    x: Option<(Seq<char>, nat)>,
    y: Option<(Seq<char>, nat)>,
    z: Option<(Seq<char>, nat)>,
)
    ensures
        ({
            let p = later_unless_lower(later_unless_lower(x, y), z);
            p is Some ==> p == x || p == y || p == z
        }),
{
}

/// The run shared by most texts: with fewer than three texts, or a text
/// without CJK characters, there is none; otherwise it is a non-empty run
/// of CJK characters, not a blacklisted one, no longer than the CJK
/// characters of any text, and found in more than half of them.
pub proof fn law_common_hanzi(texts: Seq<Seq<char>>)
    ensures
        texts.len() < 3 ==> spec_find_common_hanzi(texts) is None,
        (exists|i: int| 0 <= i < texts.len() && (#[trigger] cjk_chars(texts[i])).len() == 0) ==> spec_find_common_hanzi(
            texts,
        ) is None,
        spec_find_common_hanzi(texts) matches Some(s) ==> {
            &&& s.len() > 0
            &&& forall|j: int| 0 <= j < s.len() ==> spec_is_cjk(#[trigger] s[j])
            &&& !inference_blacklist().contains(s)
            &&& forall|i: int| 0 <= i < texts.len() ==> s.len() <= (#[trigger] cjk_chars(texts[i])).len()
            &&& gram_count(GramKind::Anywhere, cjk_texts(texts), s) >= texts.len() / 2 + 1
        },
{
    if texts.len() >= 3 {
        let cs = cjk_texts(texts);
        assert(cs =~= texts.map_values(|t: Seq<char>| cjk_chars(t)));
        let bp = best_gram(GramKind::Prefix, cs);
        let bs = best_gram(GramKind::Suffix, cs);
        let ba = best_gram(GramKind::Anywhere, cs);
        lemma_pick_one(bp, bs, ba);
        let pick = later_unless_lower(later_unless_lower(bp, bs), ba);
        if let Some((g, _)) = pick {
            let kind = if pick == bp {
                GramKind::Prefix
            } else if pick == bs {
                GramKind::Suffix
            } else {
                GramKind::Anywhere
            };
            assert(best_gram(kind, cs) == pick);
            assert(exists|h: Seq<char>| is_best_gram(kind, cs, h));
            let h = choose|h: Seq<char>| is_best_gram(kind, cs, h);
            assert(h == g);
            assert(eligible(kind, cs, g));
            lemma_count_witness(kind, cs, g);
            let k = choose|k: int| 0 <= k < cs.len() && gram_in(kind, g, #[trigger] cs[k]);
            lemma_gram_in_occurs(kind, g, cs[k]);
            assert(g.len() > 0);
            assert forall|i: int| 0 <= i < texts.len() implies g.len() <= (#[trigger] cjk_chars(texts[i])).len() by {
                lemma_min_len_le(cs, i);
                assert(cs[i] == cjk_chars(texts[i]));
            }
            if exists|i: int| 0 <= i < texts.len() && (#[trigger] cjk_chars(texts[i])).len() == 0 {
                let i = choose|i: int| 0 <= i < texts.len() && (#[trigger] cjk_chars(texts[i])).len() == 0;
                assert(g.len() <= cjk_chars(texts[i]).len());
                assert(false);
            }
            lemma_clean_piece(g);
            if let Some(s) = spec_find_common_hanzi(texts) {
                assert(spec_clean_inferred_zh(g) == Some(s));
                let (a, b) = choose|a: int, b: int| 0 <= a < b <= g.len() && s == g.subrange(a, b);
                lemma_count_piece(kind, cs, g, a, b);
                let c = cs[k];
                let kk = choose|kk: int| occurs_at(g, c, kk);
                lemma_cjk_chars_all(texts[k]);
                assert(cs[k] == cjk_chars(texts[k]));
                assert forall|j: int| 0 <= j < s.len() implies spec_is_cjk(#[trigger] s[j]) by {
                    assert(s[j] == g[a + j]);
                    assert(c.subrange(kk, kk + g.len()) == g);
                    assert(c.subrange(kk, kk + g.len())[a + j] == c[kk + a + j]);
                }
            }
        } else {
            assert(spec_find_common_hanzi(texts) is None);
        }
    }
}

/// The character sequences held by a vector of character vectors.
pub open spec fn views(v: Seq<Vec<char>>) -> Seq<Seq<char>> {
    v.map_values(|x: Vec<char>| x@)
}

/// A candidate run with its count, as the specifications see it.
pub open spec fn cand_view(o: Option<(Vec<char>, usize)>) -> Option<(Seq<char>, nat)> {
    match o {
        Some((g, c)) => Some((g@, c as nat)),
        None => None,
    }
}

/// Every eligible `h` ranks at most as high as the current best candidate.
pub open spec fn dominated(
    kind: GramKind,
    cs: Seq<Seq<char>>,
    best: Option<(Seq<char>, nat)>,
    h: Seq<char>,
) -> bool {
    eligible(kind, cs, h) ==> match best {
        Some((g, c)) => rank_le(gram_count(kind, cs, h), h, c, g),
        None => false,
    }
}

/// The candidate `new` ranks at least as high as `old` (and exists if `old` does).
pub open spec fn no_lower(old: Option<(Seq<char>, nat)>, new: Option<(Seq<char>, nat)>) -> bool {
    match old {
        None => true,
        Some((og, oc)) => match new {
            Some((ng, nc)) => rank_le(oc, og, nc, ng),
            None => false,
        },
    }
}

proof fn lemma_gram_count_witness(kind: GramKind, cs: Seq<Seq<char>>, g: Seq<char>)
    requires
        gram_count(kind, cs, g) > 0,
    ensures
        exists|j: int| 0 <= j < cs.len() && gram_in(kind, g, #[trigger] cs[j]),
    decreases cs.len(),
{
    if gram_in(kind, g, cs.last()) {
        assert(gram_in(kind, g, cs[cs.len() - 1]));
    } else {
        lemma_gram_count_witness(kind, cs.drop_last(), g);
        let j = choose|j: int| 0 <= j < cs.drop_last().len() && gram_in(kind, g, #[trigger] cs.drop_last()[j]);
        assert(cs[j] == cs.drop_last()[j]);
    }
}

/// An eligible run is a slice of one of the texts.
proof fn lemma_eligible_is_slice(kind: GramKind, cs: Seq<Seq<char>>, g: Seq<char>)
    requires
        eligible(kind, cs, g),
    ensures
        exists|j: int, a: int, b: int|
            0 <= j < cs.len() && 0 <= a < b <= cs[j].len() && g == #[trigger] cs[j].subrange(a, b),
{
    lemma_gram_count_witness(kind, cs, g);
    let j = choose|j: int| 0 <= j < cs.len() && gram_in(kind, g, #[trigger] cs[j]);
    let c = cs[j];
    match kind {
        GramKind::Prefix => {
            assert(g == c.subrange(0, g.len() as int));
        },
        GramKind::Suffix => {
            assert(g == c.subrange(c.len() - g.len(), c.len() as int));
        },
        GramKind::Anywhere => {
            let k = choose|k: int| occurs_at(g, c, k);
            assert(g == c.subrange(k, k + g.len()));
        },
    }
}

fn gram_in_exec(kind: GramKind, g: &Vec<char>, c: &Vec<char>) -> (r: bool)
    ensures
        r == gram_in(kind, g@, c@),
{
    if g.len() == 0 {
        return false;
    }
    match kind {
        GramKind::Prefix => starts_with_chars(c, g),
        GramKind::Suffix => ends_with_chars(c, g),
        GramKind::Anywhere => contains_chars(c, g),
    }
}

fn gram_count_exec(kind: GramKind, cs: &Vec<Vec<char>>, g: &Vec<char>) -> (r: usize)
    ensures
        r == gram_count(kind, views(cs@), g@),
        r <= cs.len(),
{
    let ghost vs = views(cs@);
    let mut n: usize = 0;
    let mut j: usize = 0;
    assert(vs.take(0) =~= Seq::<Seq<char>>::empty());
    while j < cs.len()
        invariant
            vs == views(cs@),
            j <= cs.len(),
            n == gram_count(kind, vs.take(j as int), g@),
            n <= j,
        decreases cs.len() - j,
    {
        assert(vs.take(j + 1).drop_last() =~= vs.take(j as int));
        assert(vs.take(j + 1).last() == cs@[j as int]@);
        if gram_in_exec(kind, g, &cs[j]) {
            n = n + 1;
        }
        j = j + 1;
    }
    assert(vs.take(cs.len() as int) =~= vs);
    n
}

fn min_len_exec(cs: &Vec<Vec<char>>) -> (r: usize)
    ensures
        r == min_len(views(cs@)),
{
    let ghost vs = views(cs@);
    if cs.len() == 0 {
        return 0;
    }
    let mut m = cs[0].len();
    let mut j: usize = 1;
    assert(vs.take(1).len() == 1);
    while j < cs.len()
        invariant
            vs == views(cs@),
            1 <= j <= cs.len(),
            m == min_len(vs.take(j as int)),
        decreases cs.len() - j,
    {
        assert(vs.take(j + 1).drop_last() =~= vs.take(j as int));
        assert(vs.take(j + 1).last() == cs@[j as int]@);
        if cs[j].len() < m {
            m = cs[j].len();
        }
        j = j + 1;
    }
    assert(vs.take(cs.len() as int) =~= vs);
    m
}

proof fn lemma_dominated_step(
    kind: GramKind,
    cs: Seq<Seq<char>>,
    old: Option<(Seq<char>, nat)>,
    new: Option<(Seq<char>, nat)>,
    h: Seq<char>,
)
    requires
        dominated(kind, cs, old, h),
        no_lower(old, new),
    ensures
        dominated(kind, cs, new, h),
{
    if eligible(kind, cs, h) {
        let (og, oc) = old.unwrap();
        let (ng, nc) = new.unwrap();
        lemma_rank_le_trans(gram_count(kind, cs, h), h, oc, og, nc, ng);
    }
}

/// Whether the candidate `(c, g)` ranks strictly above `best`.
fn ranks_above(c: usize, g: &Vec<char>, best: &Option<(Vec<char>, usize)>) -> (r: bool)
    ensures
        r == match cand_view(*best) {
            None => true,
            Some((bg, bc)) => !rank_le(c as nat, g@, bc, bg),
        },
{
    match best {
        None => true,
        Some((bg, bc)) => {
            proof {
                lemma_rank_le_total(c as nat, g@, *bc as nat, bg@);
                lemma_chars_lt_irreflexive(g@);
                if g@ != bg@ && g@.len() == bg@.len() {
                    lemma_chars_lt_total(g@, bg@);
                    if chars_lt(g@, bg@) && chars_lt(bg@, g@) {
                        lemma_chars_lt_transitive(g@, bg@, g@);
                    }
                }
            }
            if c != *bc {
                c > *bc
            } else if g.len() != bg.len() {
                g.len() > bg.len()
            } else {
                chars_less(bg, g)
            }
        },
    }
}

/// The candidate, if any, is eligible and carries its count.
pub open spec fn cand_ok(kind: GramKind, cs: Seq<Seq<char>>, best: Option<(Seq<char>, nat)>) -> bool {
    match best {
        Some((g, c)) => eligible(kind, cs, g) && c == gram_count(kind, cs, g),
        None => true,
    }
}

proof fn lemma_candidate_step(
    kind: GramKind,
    cs: Seq<Seq<char>>,
    old: Option<(Seq<char>, nat)>,
    g: Seq<char>,
    c: nat,
    taken: bool,
)
    requires
        cand_ok(kind, cs, old),
        c == gram_count(kind, cs, g),
        taken <==> (eligible(kind, cs, g) && match old {
            None => true,
            Some((bg, bc)) => !rank_le(c, g, bc, bg),
        }),
    ensures
        taken ==> no_lower(old, Some((g, c))) && cand_ok(kind, cs, Some((g, c))) && dominated(
            kind,
            cs,
            Some((g, c)),
            g,
        ),
        !taken ==> dominated(kind, cs, old, g),
{
    if taken {
        if let Some((bg, bc)) = old {
            lemma_rank_le_total(c, g, bc, bg);
        }
    }
}

/// The eligible run of highest rank among all slices of the texts.
fn best_of_kind(kind: GramKind, cs: &Vec<Vec<char>>, max_len: usize) -> (r: Option<(Vec<char>, usize)>)
    requires
        max_len == min_len(views(cs@)),
    ensures
        match cand_view(r) {
            Some((g, c)) => is_best_gram(kind, views(cs@), g) && c == gram_count(kind, views(cs@), g),
            None => forall|h: Seq<char>| !eligible(kind, views(cs@), h),
        },
{
    let ghost vs = views(cs@);
    let min_freq = cs.len() / 2 + 1;
    let mut best: Option<(Vec<char>, usize)> = None;
    let mut j: usize = 0;
    while j < cs.len()
        invariant
            vs == views(cs@),
            max_len == min_len(vs),
            min_freq == cs.len() / 2 + 1,
            j <= cs.len(),
            cand_ok(kind, vs, cand_view(best)),
            forall|j2: int, a2: int, b2: int|
                0 <= j2 < j && 0 <= a2 < b2 <= vs[j2].len() ==> dominated(
                    kind,
                    vs,
                    cand_view(best),
                    #[trigger] vs[j2].subrange(a2, b2),
                ),
        decreases cs.len() - j,
    {
        let n = cs[j].len();
        let mut a: usize = 0;
        while a < n
            invariant
                vs == views(cs@),
                max_len == min_len(vs),
                min_freq == cs.len() / 2 + 1,
                j < cs.len(),
                n == vs[j as int].len(),
                a <= n,
                cand_ok(kind, vs, cand_view(best)),
                forall|j2: int, a2: int, b2: int|
                    ((0 <= j2 < j && 0 <= a2 < b2 <= vs[j2].len()) || (j2 == j && 0 <= a2 < a
                        && a2 < b2 <= n)) ==> dominated(
                        kind,
                        vs,
                        cand_view(best),
                        #[trigger] vs[j2].subrange(a2, b2),
                    ),
            decreases n - a,
        {
            let mut e: usize = a;
            while e < n
                invariant
                    vs == views(cs@),
                    max_len == min_len(vs),
                    min_freq == cs.len() / 2 + 1,
                    j < cs.len(),
                    n == vs[j as int].len(),
                    a < n,
                    a <= e <= n,
                    cand_ok(kind, vs, cand_view(best)),
                    forall|j2: int, a2: int, b2: int|
                        ((0 <= j2 < j && 0 <= a2 < b2 <= vs[j2].len()) || (j2 == j && 0 <= a2 < a
                            && a2 < b2 <= n) || (j2 == j && a2 == a && a < b2 <= e)) ==> dominated(
                            kind,
                            vs,
                            cand_view(best),
                            #[trigger] vs[j2].subrange(a2, b2),
                        ),
                decreases n - e,
            {
                let g = sub_chars(&cs[j], a, e + 1);
                assert(g@ == vs[j as int].subrange(a as int, e + 1));
                let c = gram_count_exec(kind, cs, &g);
                let ghost old = cand_view(best);
                let above = ranks_above(c, &g, &best);
                let taken = c >= min_freq && g.len() <= max_len && above;
                proof {
                    lemma_candidate_step(kind, vs, old, g@, c as nat, taken);
                }
                if taken {
                    let ghost gv = g@;
                    best = Some((g, c));
                    proof {
                        assert(cand_view(best) == Some((gv, c as nat)));
                        assert forall|j2: int, a2: int, b2: int|
                            ((0 <= j2 < j && 0 <= a2 < b2 <= vs[j2].len()) || (j2 == j && 0 <= a2
                                < a && a2 < b2 <= n) || (j2 == j && a2 == a && a < b2 <= e + 1))
                                implies dominated(
                            kind,
                            vs,
                            cand_view(best),
                            #[trigger] vs[j2].subrange(a2, b2),
                        ) by {
                            if !(j2 == j && a2 == a && b2 == e + 1) {
                                lemma_dominated_step(
                                    kind,
                                    vs,
                                    old,
                                    cand_view(best),
                                    vs[j2].subrange(a2, b2),
                                );
                            }
                        }
                    }
                }
                e = e + 1;
            }
            a = a + 1;
        }
        j = j + 1;
    }
    proof {
        assert forall|h: Seq<char>| eligible(kind, vs, h) implies dominated(
            kind,
            vs,
            cand_view(best),
            h,
        ) by {
            lemma_eligible_is_slice(kind, vs, h);
            let (j2, a2, b2) = choose|j2: int, a2: int, b2: int|
                0 <= j2 < vs.len() && 0 <= a2 < b2 <= vs[j2].len() && h == #[trigger] vs[j2].subrange(
                    a2,
                    b2,
                );
            assert(dominated(kind, vs, cand_view(best), vs[j2].subrange(a2, b2)));
        }
    }
    best
}

fn later_unless_lower_exec(acc: Option<(Vec<char>, usize)>, x: Option<(Vec<char>, usize)>) -> (r:
    Option<(Vec<char>, usize)>)
    ensures
        cand_view(r) == later_unless_lower(cand_view(acc), cand_view(x)),
{
    match x {
        None => acc,
        Some((g, c)) => match acc {
            None => Some((g, c)),
            Some((a, ac)) => {
                if ac < c || (ac == c && a.len() <= g.len()) {
                    Some((g, c))
                } else {
                    Some((a, ac))
                }
            },
        },
    }
}

/// The texts' character sequences.
pub open spec fn texts_view(texts: Seq<&String>) -> Seq<Seq<char>> {
    texts.map_values(|t: &String| t@)
}

fn find_common_hanzi_chars(texts: &Vec<Vec<char>>) -> (r: Option<Vec<char>>)
    ensures
        match r {
            Some(s) => spec_find_common_hanzi(views(texts@)) == Some(s@),
            None => spec_find_common_hanzi(views(texts@)) is None,
        },
{
    if texts.len() < 3 {
        return None;
    }
    let ghost tv = views(texts@);
    let ghost cs_spec = tv.map_values(|t: Seq<char>| cjk_chars(t));
    let mut cs: Vec<Vec<char>> = Vec::new();
    let mut i: usize = 0;
    while i < texts.len()
        invariant
            tv == views(texts@),
            cs_spec == tv.map_values(|t: Seq<char>| cjk_chars(t)),
            i <= texts.len(),
            cs.len() == i,
            views(cs@) == cs_spec.take(i as int),
        decreases texts.len() - i,
    {
        let c = cjk_chars_exec(&texts[i]);
        assert(tv[i as int] == texts@[i as int]@);
        let ghost before = cs@;
        cs.push(c);
        proof {
            assert forall|k: int| 0 <= k < i + 1 implies views(cs@)[k] == cs_spec.take(i + 1)[k] by {
                if k < i {
                    assert(cs@[k] == before[k]);
                    assert(views(before)[k] == cs_spec.take(i as int)[k]);
                }
            }
        }
        i = i + 1;
        assert(views(cs@) =~= cs_spec.take(i as int));
    }
    assert(cs_spec.take(texts.len() as int) =~= cs_spec);
    let max_len = min_len_exec(&cs);
    let p = best_of_kind(GramKind::Prefix, &cs, max_len);
    let s = best_of_kind(GramKind::Suffix, &cs, max_len);
    let n = best_of_kind(GramKind::Anywhere, &cs, max_len);
    proof {
        if let Some((g, c)) = cand_view(p) {
            lemma_best_gram_is(GramKind::Prefix, cs_spec, g);
        } else {
            assert(!exists|g: Seq<char>| is_best_gram(GramKind::Prefix, cs_spec, g));
        }
        if let Some((g, c)) = cand_view(s) {
            lemma_best_gram_is(GramKind::Suffix, cs_spec, g);
        } else {
            assert(!exists|g: Seq<char>| is_best_gram(GramKind::Suffix, cs_spec, g));
        }
        if let Some((g, c)) = cand_view(n) {
            lemma_best_gram_is(GramKind::Anywhere, cs_spec, g);
        } else {
            assert(!exists|g: Seq<char>| is_best_gram(GramKind::Anywhere, cs_spec, g));
        }
    }
    let pick = later_unless_lower_exec(later_unless_lower_exec(p, s), n);
    match pick {
        Some((g, _)) => clean_chars(&g),
        None => None,
    }
}

/// The run of CJK characters that more than half of the texts share, as
/// `spec_find_common_hanzi` states it.
pub fn find_common_hanzi(texts: Vec<&String>) -> (r: Option<String>)
    ensures
        match r {
            Some(s) => spec_find_common_hanzi(texts_view(texts@)) == Some(s@),
            None => spec_find_common_hanzi(texts_view(texts@)) is None,
        },
{
    let mut vs: Vec<Vec<char>> = Vec::new();
    let mut i: usize = 0;
    while i < texts.len()
        invariant
            i <= texts.len(),
            vs.len() == i,
            views(vs@) == texts_view(texts@).take(i as int),
        decreases texts.len() - i,
    {
        let t: &String = texts[i];
        let c = chars_of(t.as_str());
        let ghost before = vs@;
        vs.push(c);
        proof {
            assert forall|k: int| 0 <= k < i + 1 implies views(vs@)[k] == texts_view(texts@).take(
                i + 1,
            )[k] by {
                if k < i {
                    assert(vs@[k] == before[k]);
                    assert(views(before)[k] == texts_view(texts@).take(i as int)[k]);
                }
            }
        }
        i = i + 1;
        assert(views(vs@) =~= texts_view(texts@).take(i as int));
    }
    assert(texts_view(texts@).take(texts.len() as int) =~= texts_view(texts@));
    match find_common_hanzi_chars(&vs) {
        Some(c) => Some(string_of(&c)),
        None => None,
    }
}

// ---------------------------------------------------------------------------
// Inferring word translations from a dictionary
// ---------------------------------------------------------------------------

/// The whitespace-separated words of `s` (what `str::split_whitespace`
/// yields).
pub open spec fn split_ws(s: Seq<char>) -> Seq<Seq<char>>
    decreases s.len(),
{
    if s.len() == 0 {
        Seq::empty()
    } else if spec_is_whitespace(s.last()) {
        split_ws(s.drop_last())
    } else {
        let w = split_ws(s.drop_last());
        if s.len() >= 2 && !spec_is_whitespace(s[s.len() - 2]) {
            w.update(w.len() - 1, w.last().push(s.last()))
        } else {
            w.push(seq![s.last()])
        }
    }
}

/// Common English words that say nothing about a name.
pub open spec fn is_stop_word(w: Seq<char>) -> bool {
    ||| w == "the"@
    ||| w == "of"@
    ||| w == "and"@
    ||| w == "a"@
    ||| w == "an"@
    ||| w == "with"@
    ||| w == "in"@
    ||| w == "to"@
    ||| w == "for"@
    ||| w == "on"@
    ||| w == "from"@
    ||| w == "into"@
    ||| w == "by"@
    ||| w == "as"@
    ||| w == "at"@
    ||| w == "is"@
    ||| w == "its"@
    ||| w == "or"@
    ||| w == "some"@
    ||| w == "any"@
    ||| w == "each"@
    ||| w == "every"@
}

/// A lowercased word worth counting: at least three bytes long, not a stop
/// word, and alphabetic throughout.
pub open spec fn word_kept(wl: Seq<char>) -> bool {
    &&& utf8_len(wl) >= 3
    &&& !is_stop_word(wl)
    &&& forall|i: int| 0 <= i < wl.len() ==> spec_is_alphabetic(#[trigger] wl[i])
}

/// The kept lowercased forms of the words, in order.
pub open spec fn kept_lower(ws: Seq<Seq<char>>) -> Seq<Seq<char>>
    decreases ws.len(),
{
    if ws.len() == 0 {
        Seq::empty()
    } else {
        let rest = kept_lower(ws.drop_last());
        let wl = spec_to_lowercase(ws.last());
        if word_kept(wl) {
            rest.push(wl)
        } else {
            rest
        }
    }
}

/// The words that a dictionary entry contributes: none unless its key has
/// more than one word and its value holds a CJK character.
pub open spec fn entry_words(e: (Seq<char>, Seq<char>)) -> Seq<Seq<char>> {
    if split_ws(e.0).len() > 1 && cjk_chars(e.1).len() > 0 {
        kept_lower(split_ws(e.0))
    } else {
        Seq::empty()
    }
}

/// How often `w` occurs in `ws`.
pub open spec fn occ(ws: Seq<Seq<char>>, w: Seq<char>) -> nat
    decreases ws.len(),
{
    if ws.len() == 0 {
        0
    } else {
        occ(ws.drop_last(), w) + if ws.last() == w {
            1nat
        } else {
            0nat
        }
    }
}

/// How often the entries contribute the word `w`.
pub open spec fn word_count(es: Seq<(Seq<char>, Seq<char>)>, w: Seq<char>) -> nat
    decreases es.len(),
{
    if es.len() == 0 {
        0
    } else {
        word_count(es.drop_last(), w) + occ(entry_words(es.last()), w)
    }
}

/// The values of the entries that contribute `w`, in order.
pub open spec fn word_values(es: Seq<(Seq<char>, Seq<char>)>, w: Seq<char>) -> Seq<Seq<char>>
    decreases es.len(),
{
    if es.len() == 0 {
        Seq::empty()
    } else if entry_words(es.last()).contains(w) {
        word_values(es.drop_last(), w).push(es.last().1)
    } else {
        word_values(es.drop_last(), w)
    }
}

/// The translation inferred for `w`: a word contributed at least three times
/// gets the cleaned run shared by its distinct values, if that run is at most
/// six characters long.
pub open spec fn spec_inferred(es: Seq<(Seq<char>, Seq<char>)>, w: Seq<char>) -> Option<Seq<char>> {
    if word_count(es, w) < 3 {
        None
    } else {
        match spec_find_common_hanzi(dedup(word_values(es, w))) {
            Some(zh) => match spec_clean_inferred_zh(zh) {
                Some(c) => if c.len() <= 6 {
                    Some(c)
                } else {
                    None
                },
                None => None,
            },
            None => None,
        }
    }
}

fn split_ws_exec(s: &Vec<char>) -> (r: Vec<Vec<char>>)
    ensures
        views(r@) == split_ws(s@),
{
    let mut done: Vec<Vec<char>> = Vec::new();
    let mut cur: Vec<char> = Vec::new();
    let mut i: usize = 0;
    assert(s@.take(0) =~= Seq::<char>::empty());
    while i < s.len()
        invariant
            i <= s.len(),
            split_ws(s@.take(i as int)) == if cur.len() > 0 {
                views(done@).push(cur@)
            } else {
                views(done@)
            },
            cur.len() > 0 <==> (i > 0 && !spec_is_whitespace(s@[i - 1])),
        decreases s.len() - i,
    {
        let c = s[i];
        let ghost t = s@.take(i + 1);
        assert(t.drop_last() =~= s@.take(i as int));
        assert(t.last() == c);
        if char_is_whitespace(c) {
            if cur.len() > 0 {
                let ghost dv = views(done@);
                let ghost cv = cur@;
                done.push(cur);
                assert(views(done@) =~= dv.push(cv));
                cur = Vec::new();
            }
        } else {
            if cur.len() > 0 {
                assert(t[t.len() - 2] == s@[i - 1]);
                let ghost dv = views(done@);
                cur.push(c);
                assert(dv.push(cur@.drop_last()).update(dv.len() as int, cur@) =~= dv.push(cur@));
            } else {
                if i > 0 {
                    assert(t[t.len() - 2] == s@[i - 1]);
                }
                cur.push(c);
                assert(cur@ =~= seq![c]);
            }
        }
        i = i + 1;
    }
    assert(s@.take(s.len() as int) =~= s@);
    if cur.len() > 0 {
        let ghost dv = views(done@);
        let ghost cv = cur@;
        done.push(cur);
        assert(views(done@) =~= dv.push(cv));
    }
    done
}

proof fn lemma_utf8_len_at_least_len(s: Seq<char>)
    ensures
        utf8_len(s) >= s.len(),
    decreases s.len(),
{
    if s.len() > 0 {
        lemma_utf8_len_at_least_len(s.drop_last());
    }
}

fn is_stop_word_exec(w: &Vec<char>) -> (r: bool)
    ensures
        r == is_stop_word(w@),
{
    chars_eq_str(w, "the") || chars_eq_str(w, "of") || chars_eq_str(w, "and") || chars_eq_str(w, "a")
        || chars_eq_str(w, "an") || chars_eq_str(w, "with") || chars_eq_str(w, "in")
        || chars_eq_str(w, "to") || chars_eq_str(w, "for") || chars_eq_str(w, "on")
        || chars_eq_str(w, "from") || chars_eq_str(w, "into") || chars_eq_str(w, "by")
        || chars_eq_str(w, "as") || chars_eq_str(w, "at") || chars_eq_str(w, "is")
        || chars_eq_str(w, "its") || chars_eq_str(w, "or") || chars_eq_str(w, "some")
        || chars_eq_str(w, "any") || chars_eq_str(w, "each") || chars_eq_str(w, "every")
}

fn word_kept_exec(wl: &Vec<char>) -> (r: bool)
    ensures
        r == word_kept(wl@),
{
    proof {
        lemma_utf8_len_at_least_len(wl@);
    }
    if wl.len() < 3 {
        if utf8_len_exec(wl) < 3 {
            return false;
        }
    }
    if is_stop_word_exec(wl) {
        return false;
    }
    let mut i: usize = 0;
    while i < wl.len()
        invariant
            i <= wl.len(),
            forall|j: int| 0 <= j < i ==> spec_is_alphabetic(#[trigger] wl@[j]),
        decreases wl.len() - i,
    {
        if !char_is_alphabetic(wl[i]) {
            return false;
        }
        i = i + 1;
    }
    true
}

fn entry_words_exec(k: &Vec<char>, v: &Vec<char>) -> (r: Vec<Vec<char>>)
    ensures
        views(r@) == entry_words((k@, v@)),
{
    let ws = split_ws_exec(k);
    if ws.len() <= 1 {
        return Vec::new();
    }
    let zh = cjk_chars_exec(v);
    if zh.len() == 0 {
        return Vec::new();
    }
    let ghost wsv = views(ws@);
    let mut r: Vec<Vec<char>> = Vec::new();
    let mut m: usize = 0;
    assert(wsv.take(0) =~= Seq::<Seq<char>>::empty());
    while m < ws.len()
        invariant
            wsv == views(ws@),
            m <= ws.len(),
            views(r@) == kept_lower(wsv.take(m as int)),
        decreases ws.len() - m,
    {
        assert(wsv.take(m + 1).drop_last() =~= wsv.take(m as int));
        assert(wsv.take(m + 1).last() == ws@[m as int]@);
        let word = string_of(&ws[m]);
        let low = to_lowercase(word.as_str());
        let wl = chars_of(low.as_str());
        if word_kept_exec(&wl) {
            let ghost rv = views(r@);
            let ghost wv = wl@;
            r.push(wl);
            assert(views(r@) =~= rv.push(wv));
        }
        m = m + 1;
    }
    assert(wsv.take(ws.len() as int) =~= wsv);
    r
}

/// The dictionary entries as pairs of character sequences.
pub open spec fn entries_view(entries: Seq<(String, String)>) -> Seq<(Seq<char>, Seq<char>)> {
    entries.map_values(|p: (String, String)| (p.0@, p.1@))
}

/// A count, capped at three (all that the inference asks of it).
pub open spec fn min3(n: nat) -> nat {
    if n < 3 {
        n
    } else {
        3
    }
}

/// Count of `w` after the first `i` entries and the first `m` words `kw` of
/// the next one.
pub open spec fn cnt_mid(
    es: Seq<(Seq<char>, Seq<char>)>,
    i: int,
    kw: Seq<Seq<char>>,
    m: int,
    w: Seq<char>,
) -> nat {
    word_count(es.take(i), w) + occ(kw.take(m), w)
}

/// Values contributing `w` after the first `i` entries and the first `m`
/// words `kw` of the next one, whose value is `ev`.
pub open spec fn vals_mid(
    es: Seq<(Seq<char>, Seq<char>)>,
    i: int,
    kw: Seq<Seq<char>>,
    m: int,
    ev: Seq<char>,
    w: Seq<char>,
) -> Seq<Seq<char>> {
    if kw.take(m).contains(w) {
        word_values(es.take(i), w).push(ev)
    } else {
        word_values(es.take(i), w)
    }
}

/// The nested character sequences of a vector of vectors of characters.
pub open spec fn views2(v: Seq<Vec<Vec<char>>>) -> Seq<Seq<Seq<char>>> {
    v.map_values(|x: Vec<Vec<char>>| views(x@))
}

/// The word tables after the first `i` entries and `m` words of the next:
/// distinct words, their capped counts and the distinct values behind them.
pub open spec fn tables_ok(
    words: Seq<Seq<char>>,
    counts: Seq<usize>,
    trans: Seq<Seq<Seq<char>>>,
    es: Seq<(Seq<char>, Seq<char>)>,
    i: int,
    kw: Seq<Seq<char>>,
    m: int,
    ev: Seq<char>,
) -> bool {
    &&& words.len() == counts.len()
    &&& words.len() == trans.len()
    &&& words.no_duplicates()
    &&& forall|w: Seq<char>| #[trigger] cnt_mid(es, i, kw, m, w) > 0 <==> words.contains(w)
    &&& forall|k: int|
        0 <= k < words.len() ==> counts[k] == min3(cnt_mid(es, i, kw, m, #[trigger] words[k]))
    &&& forall|k: int|
        0 <= k < words.len() ==> trans[k] == dedup(vals_mid(es, i, kw, m, ev, #[trigger] words[k]))
}

proof fn lemma_occ_contains(ws: Seq<Seq<char>>, w: Seq<char>)
    ensures
        occ(ws, w) > 0 <==> ws.contains(w),
    decreases ws.len(),
{
    if ws.len() > 0 {
        lemma_occ_contains(ws.drop_last(), w);
        if ws.drop_last().contains(w) {
            let k = choose|k: int| 0 <= k < ws.drop_last().len() && ws.drop_last()[k] == w;
            assert(ws[k] == w);
        }
        if ws.contains(w) && ws.last() != w {
            let k = choose|k: int| 0 <= k < ws.len() && ws[k] == w;
            assert(ws.drop_last()[k] == w);
        }
        if ws.last() == w {
            assert(ws[ws.len() - 1] == w);
        }
    }
}

proof fn lemma_no_count_no_values(es: Seq<(Seq<char>, Seq<char>)>, w: Seq<char>)
    requires
        word_count(es, w) == 0,
    ensures
        word_values(es, w) == Seq::<Seq<char>>::empty(),
    decreases es.len(),
{
    if es.len() > 0 {
        lemma_occ_contains(entry_words(es.last()), w);
        lemma_no_count_no_values(es.drop_last(), w);
    }
}

proof fn lemma_mid_start(es: Seq<(Seq<char>, Seq<char>)>, i: int, kw: Seq<Seq<char>>, ev: Seq<char>, w: Seq<char>)
    ensures
        cnt_mid(es, i, kw, 0, w) == word_count(es.take(i), w),
        vals_mid(es, i, kw, 0, ev, w) == word_values(es.take(i), w),
{
    assert(kw.take(0) =~= Seq::<Seq<char>>::empty());
}

proof fn lemma_mid_end(es: Seq<(Seq<char>, Seq<char>)>, i: int, w: Seq<char>)
    requires
        0 <= i < es.len(),
    ensures
        cnt_mid(es, i, entry_words(es[i]), entry_words(es[i]).len() as int, w) == word_count(
            es.take(i + 1),
            w,
        ),
        vals_mid(es, i, entry_words(es[i]), entry_words(es[i]).len() as int, es[i].1, w)
            == word_values(es.take(i + 1), w),
{
    let kw = entry_words(es[i]);
    assert(kw.take(kw.len() as int) =~= kw);
    assert(es.take(i + 1).drop_last() =~= es.take(i));
    assert(es.take(i + 1).last() == es[i]);
}

proof fn lemma_mid_step(
    es: Seq<(Seq<char>, Seq<char>)>,
    i: int,
    kw: Seq<Seq<char>>,
    m: int,
    ev: Seq<char>,
    w: Seq<char>,
)
    requires
        0 <= m < kw.len(),
    ensures
        cnt_mid(es, i, kw, m + 1, w) == cnt_mid(es, i, kw, m, w) + if kw[m] == w {
            1nat
        } else {
            0nat
        },
        kw[m] != w ==> vals_mid(es, i, kw, m + 1, ev, w) == vals_mid(es, i, kw, m, ev, w),
        kw[m] == w ==> vals_mid(es, i, kw, m + 1, ev, w) == word_values(es.take(i), w).push(ev),
{
    assert(kw.take(m + 1).drop_last() =~= kw.take(m));
    assert(kw.take(m + 1).last() == kw[m]);
    if kw[m] != w {
        if kw.take(m + 1).contains(w) {
            let k = choose|k: int| 0 <= k < m + 1 && #[trigger] kw.take(m + 1)[k] == w;
            assert(kw.take(m)[k] == w);
        }
        if kw.take(m).contains(w) {
            let k = choose|k: int| 0 <= k < m && #[trigger] kw.take(m)[k] == w;
            assert(kw.take(m + 1)[k] == w);
        }
    } else {
        assert(kw.take(m + 1)[m] == w);
    }
}

fn copy_chars(x: &Vec<char>) -> (r: Vec<char>)
    ensures
        r@ == x@,
{
    let r = sub_chars(x, 0, x.len());
    assert(x@.subrange(0, x@.len() as int) =~= x@);
    r
}

fn values_contain(vs: &Vec<Vec<char>>, ev: &Vec<char>) -> (r: bool)
    ensures
        r == views(vs@).contains(ev@),
{
    let mut j: usize = 0;
    while j < vs.len()
        invariant
            j <= vs.len(),
            forall|k: int| 0 <= k < j ==> views(vs@)[k] != ev@,
        decreases vs.len() - j,
    {
        if chars_eq(&vs[j], ev) {
            assert(views(vs@)[j as int] == ev@);
            return true;
        }
        j = j + 1;
    }
    false
}

fn find_word(words: &Vec<Vec<char>>, x: &Vec<char>) -> (r: Option<usize>)
    ensures
        match r {
            Some(k) => k < words.len() && views(words@)[k as int] == x@,
            None => !views(words@).contains(x@),
        },
{
    let mut j: usize = 0;
    while j < words.len()
        invariant
            j <= words.len(),
            forall|k: int| 0 <= k < j ==> views(words@)[k] != x@,
        decreases words.len() - j,
    {
        if chars_eq(&words[j], x) {
            return Some(j);
        }
        j = j + 1;
    }
    None
}

fn add_word(
    words: &mut Vec<Vec<char>>,
    counts: &mut Vec<usize>,
    trans: &mut Vec<Vec<Vec<char>>>,
    x: &Vec<char>,
    ev: &Vec<char>,
    Ghost(es): Ghost<Seq<(Seq<char>, Seq<char>)>>,
    Ghost(i): Ghost<int>,
    Ghost(kw): Ghost<Seq<Seq<char>>>,
    Ghost(m): Ghost<int>,
)
    requires
        tables_ok(views(old(words)@), old(counts)@, views2(old(trans)@), es, i, kw, m, ev@),
        0 <= m < kw.len(),
        kw[m] == x@,
    ensures
        tables_ok(views(final(words)@), final(counts)@, views2(final(trans)@), es, i, kw, m + 1, ev@),
{
    let ghost w0 = views(words@);
    let ghost t0 = views2(trans@);
    let ghost c0 = counts@;
    proof {
        assert forall|w: Seq<char>| w != x@ implies cnt_mid(es, i, kw, m + 1, w) == cnt_mid(
            es,
            i,
            kw,
            m,
            w,
        ) && vals_mid(es, i, kw, m + 1, ev@, w) == vals_mid(es, i, kw, m, ev@, w) by {
            lemma_mid_step(es, i, kw, m, ev@, w);
        }
        lemma_mid_step(es, i, kw, m, ev@, x@);
    }
    match find_word(words, x) {
        Some(k) => {
            let c = counts[k];
            let nc = if c < 3 {
                c + 1
            } else {
                3
            };
            counts.set(k, nc);
            let ghost tk = t0[k as int];
            let present = values_contain(&trans[k], ev);
            if !present {
                let e2 = copy_chars(ev);
                trans[k].push(e2);
            }
            proof {
                let base = word_values(es.take(i), x@);
                if kw.take(m).contains(x@) {
                    lemma_dedup_contains(base.push(ev@), ev@);
                    assert(base.push(ev@)[base.len() as int] == ev@);
                    assert(tk == dedup(base.push(ev@)));
                } else {
                    assert(base.push(ev@).drop_last() =~= base);
                }
                assert(views2(trans@)[k as int] == dedup(vals_mid(es, i, kw, m + 1, ev@, x@)));
                assert forall|j: int| 0 <= j < views(words@).len() && j != k implies views2(
                    trans@,
                )[j] == t0[j] by {}
                assert(views(words@) == w0);
                assert forall|w: Seq<char>| #[trigger]
                    cnt_mid(es, i, kw, m + 1, w) > 0 <==> views(words@).contains(w) by {
                    lemma_mid_step(es, i, kw, m, ev@, w);
                    if w != x@ {
                    } else {
                        assert(views(words@)[k as int] == w);
                    }
                }
            }
        },
        None => {
            proof {
                assert(cnt_mid(es, i, kw, m, x@) == 0);
                lemma_no_count_no_values(es.take(i), x@);
                lemma_occ_contains(kw.take(m), x@);
            }
            let x2 = copy_chars(x);
            words.push(x2);
            counts.push(1);
            let e2 = copy_chars(ev);
            let tv: Vec<Vec<char>> = vec![e2];
            assert(views(tv@) =~= seq![ev@]);
            trans.push(tv);
            proof {
                assert(views(words@) =~= w0.push(x@));
                assert(views2(trans@) =~= t0.push(seq![ev@]));
                let base = word_values(es.take(i), x@);
                assert(base.push(ev@) =~= seq![ev@]);
                assert(seq![ev@].drop_last() =~= Seq::<Seq<char>>::empty());
                let e0 = Seq::<Seq<char>>::empty();
                assert(dedup(e0) == e0);
                assert(!e0.contains(ev@));
                assert(dedup(seq![ev@]) == dedup(e0).push(ev@));
                assert(dedup(seq![ev@]) =~= seq![ev@]);
                assert forall|w: Seq<char>| #[trigger]
                    cnt_mid(es, i, kw, m + 1, w) > 0 <==> views(words@).contains(w) by {
                    lemma_mid_step(es, i, kw, m, ev@, w);
                    if w == x@ {
                        assert(views(words@)[w0.len() as int] == w);
                    } else {
                        if views(words@).contains(w) {
                            let j = choose|j: int| 0 <= j < views(words@).len() && views(words@)[j] == w;
                            assert(w0[j] == w);
                        }
                        if w0.contains(w) {
                            let j = choose|j: int| 0 <= j < w0.len() && w0[j] == w;
                            assert(views(words@)[j] == w);
                        }
                    }
                }
                assert forall|a: int, b: int| 0 <= a < b < views(words@).len() implies views(words@)[a]
                    != views(words@)[b] by {
                    if b == w0.len() {
                        assert(w0[a] == views(words@)[a]);
                    }
                }
            }
        },
    }
}

/// The pairs' character sequences.
pub open spec fn pairs_view(r: Seq<(String, String)>) -> Seq<(Seq<char>, Seq<char>)> {
    entries_view(r)
}

/// Word translations inferred from the dictionary entries `(name, translation)`:
/// each word `w` with `spec_inferred` Some appears once, with that translation,
/// and no other word appears (in no particular order).
pub fn analyze_dictionary(entries: &Vec<(String, String)>) -> (r: Vec<(String, String)>)
    ensures
        forall|a: int, b: int|
            0 <= a < b < r@.len() ==> (#[trigger] pairs_view(r@)[a]).0 != (
            #[trigger] pairs_view(r@)[b]).0,
        forall|a: int|
            0 <= a < r@.len() ==> spec_inferred(entries_view(entries@), (#[trigger] pairs_view(r@)[a]).0)
                == Some(pairs_view(r@)[a].1),
        forall|w: Seq<char>|
            (#[trigger] spec_inferred(entries_view(entries@), w)) is Some ==> exists|a: int|
                0 <= a < r@.len() && (#[trigger] pairs_view(r@)[a]).0 == w,
{
    let ghost es = entries_view(entries@);
    let mut words: Vec<Vec<char>> = Vec::new();
    let mut counts: Vec<usize> = Vec::new();
    let mut trans: Vec<Vec<Vec<char>>> = Vec::new();
    let mut i: usize = 0;
    proof {
        assert(es.take(0) =~= Seq::<(Seq<char>, Seq<char>)>::empty());
        assert forall|w: Seq<char>| #[trigger] cnt_mid(es, 0, Seq::empty(), 0, w) == 0 by {
            lemma_mid_start(es, 0, Seq::empty(), Seq::empty(), w);
        }
    }
    while i < entries.len()
        invariant
            es == entries_view(entries@),
            i <= entries.len(),
            tables_ok(views(words@), counts@, views2(trans@), es, i as int, Seq::empty(), 0, Seq::empty()),
        decreases entries.len() - i,
    {
        let k = chars_of(entries[i].0.as_str());
        let v = chars_of(entries[i].1.as_str());
        assert(es[i as int] == (k@, v@));
        let kw = entry_words_exec(&k, &v);
        let ghost kwv = views(kw@);
        proof {
            assert forall|w: Seq<char>|
                #![trigger cnt_mid(es, i as int, kwv, 0, w)]
                #![trigger vals_mid(es, i as int, kwv, 0, v@, w)]
                cnt_mid(es, i as int, kwv, 0, w) == cnt_mid(es, i as int, Seq::empty(), 0, w)
                && vals_mid(es, i as int, kwv, 0, v@, w) == vals_mid(
                es,
                i as int,
                Seq::empty(),
                0,
                Seq::empty(),
                w,
            ) by {
                lemma_mid_start(es, i as int, kwv, v@, w);
                lemma_mid_start(es, i as int, Seq::empty(), Seq::empty(), w);
            }
        }
        let mut m: usize = 0;
        while m < kw.len()
            invariant
                es == entries_view(entries@),
                i < entries.len(),
                kwv == views(kw@),
                kwv == entry_words(es[i as int]),
                es[i as int].1 == v@,
                m <= kw.len(),
                tables_ok(views(words@), counts@, views2(trans@), es, i as int, kwv, m as int, v@),
            decreases kw.len() - m,
        {
            add_word(
                &mut words,
                &mut counts,
                &mut trans,
                &kw[m],
                &v,
                Ghost(es),
                Ghost(i as int),
                Ghost(kwv),
                Ghost(m as int),
            );
            m = m + 1;
        }
        proof {
            assert forall|w: Seq<char>|
                #![trigger cnt_mid(es, i + 1, Seq::empty(), 0, w)]
                #![trigger vals_mid(es, i + 1, Seq::empty(), 0, Seq::empty(), w)]
                cnt_mid(es, i + 1, Seq::empty(), 0, w) == cnt_mid(es, i as int, kwv, m as int, w)
                && vals_mid(es, i + 1, Seq::empty(), 0, Seq::empty(), w) == vals_mid(
                es,
                i as int,
                kwv,
                m as int,
                v@,
                w,
            ) by {
                lemma_mid_end(es, i as int, w);
                lemma_mid_start(es, i + 1, Seq::empty(), Seq::empty(), w);
            }
        }
        i = i + 1;
    }
    proof {
        assert(es.take(entries.len() as int) =~= es);
        assert forall|w: Seq<char>|
            #![trigger cnt_mid(es, entries.len() as int, Seq::empty(), 0, w)]
            cnt_mid(es, entries.len() as int, Seq::empty(), 0, w) == word_count(es, w) && vals_mid(
                es,
                entries.len() as int,
                Seq::empty(),
                0,
                Seq::empty(),
                w,
            ) == word_values(es, w) by {
            lemma_mid_start(es, entries.len() as int, Seq::empty(), Seq::empty(), w);
        }
    }
    let ghost wv = views(words@);
    let mut out: Vec<(String, String)> = Vec::new();
    let mut j: usize = 0;
    while j < words.len()
        invariant
            es == entries_view(entries@),
            wv == views(words@),
            tables_ok(wv, counts@, views2(trans@), es, entries.len() as int, Seq::empty(), 0, Seq::empty()),
            forall|w: Seq<char>|
                #![trigger cnt_mid(es, entries.len() as int, Seq::empty(), 0, w)]
                cnt_mid(es, entries.len() as int, Seq::empty(), 0, w) == word_count(es, w) && vals_mid(
                    es,
                    entries.len() as int,
                    Seq::empty(),
                    0,
                    Seq::empty(),
                    w,
                ) == word_values(es, w),
            j <= words.len(),
            forall|a: int, b: int|
                0 <= a < b < out@.len() ==> (#[trigger] pairs_view(out@)[a]).0 != (
                #[trigger] pairs_view(out@)[b]).0,
            forall|a: int|
                0 <= a < out@.len() ==> spec_inferred(es, (#[trigger] pairs_view(out@)[a]).0) == Some(
                    pairs_view(out@)[a].1,
                ) && wv.take(j as int).contains(pairs_view(out@)[a].0),
            forall|q: int|
                0 <= q < j && (#[trigger] spec_inferred(es, wv[q])) is Some ==> exists|a: int|
                    0 <= a < out@.len() && (#[trigger] pairs_view(out@)[a]).0 == wv[q],
        decreases words.len() - j,
    {
        let ghost w = wv[j as int];
        assert(cnt_mid(es, entries.len() as int, Seq::empty(), 0, w) == word_count(es, w));
        let ghost inf = spec_inferred(es, w);
        let mut found: Option<Vec<char>> = None;
        if counts[j] >= 3 {
            assert(vals_mid(es, entries.len() as int, Seq::empty(), 0, Seq::empty(), w) == word_values(es, w));
            assert(views(trans@[j as int]@) == dedup(word_values(es, w)));
            match find_common_hanzi_chars(&trans[j]) {
                Some(zh) => match clean_chars(&zh) {
                    Some(c) => {
                        if c.len() <= 6 {
                            found = Some(c);
                        }
                    },
                    None => {},
                },
                None => {},
            }
        }
        assert(found matches Some(c) ==> inf == Some(c@));
        assert(found is None ==> inf is None);
        let ghost before = out@;
        match found {
            Some(c) => {
                let key = string_of(&words[j]);
                let val = string_of(&c);
                out.push((key, val));
                proof {
                    assert(pairs_view(out@) =~= pairs_view(before).push((w, c@)));
                }
            },
            None => {},
        }
        proof {
            assert(wv.take(j + 1).drop_last() =~= wv.take(j as int));
            assert(wv.take(j + 1)[j as int] == w);
            assert forall|a: int| 0 <= a < out@.len() implies spec_inferred(
                es,
                (#[trigger] pairs_view(out@)[a]).0,
            ) == Some(pairs_view(out@)[a].1) && wv.take(j + 1).contains(pairs_view(out@)[a].0) by {
                if a < before.len() {
                    assert(pairs_view(out@)[a] == pairs_view(before)[a]);
                    let q = choose|q: int| 0 <= q < j && wv.take(j as int)[q] == pairs_view(before)[a].0;
                    assert(wv.take(j + 1)[q] == pairs_view(before)[a].0);
                }
            }
            assert forall|a: int, b: int| 0 <= a < b < out@.len() implies (
            #[trigger] pairs_view(out@)[a]).0 != (#[trigger] pairs_view(out@)[b]).0 by {
                if b == before.len() {
                    assert(pairs_view(out@)[a] == pairs_view(before)[a]);
                    let q = choose|q: int| 0 <= q < j && wv.take(j as int)[q] == pairs_view(before)[a].0;
                    assert(wv[q] != wv[j as int]);
                } else {
                    assert(pairs_view(out@)[a] == pairs_view(before)[a]);
                    assert(pairs_view(out@)[b] == pairs_view(before)[b]);
                }
            }
            assert forall|q: int|
                0 <= q < j + 1 && (#[trigger] spec_inferred(es, wv[q])) is Some implies exists|a: int|
                    0 <= a < out@.len() && (#[trigger] pairs_view(out@)[a]).0 == wv[q] by {
                if q < j {
                    let a = choose|a: int| 0 <= a < before.len() && (#[trigger] pairs_view(before)[a]).0 == wv[q];
                    assert(pairs_view(out@)[a] == pairs_view(before)[a]);
                } else {
                    assert(pairs_view(out@)[before.len() as int].0 == wv[q]);
                }
            }
        }
        j = j + 1;
    }
    proof {
        assert forall|w: Seq<char>| (#[trigger] spec_inferred(es, w)) is Some implies exists|a: int|
            0 <= a < out@.len() && (#[trigger] pairs_view(out@)[a]).0 == w by {
            assert(cnt_mid(es, entries.len() as int, Seq::empty(), 0, w) == word_count(es, w));
            assert(wv.contains(w));
            let q = choose|q: int| 0 <= q < wv.len() && wv[q] == w;
            assert(spec_inferred(es, wv[q]) is Some);
        }
    }
    out
}


proof fn lemma_kept_lower_kept(ws: Seq<Seq<char>>)
    ensures
        forall|j: int| 0 <= j < kept_lower(ws).len() ==> word_kept(#[trigger] kept_lower(ws)[j]),
    decreases ws.len(),
{
    if ws.len() > 0 {
        let rest = kept_lower(ws.drop_last());
        lemma_kept_lower_kept(ws.drop_last());
        assert forall|j: int| 0 <= j < kept_lower(ws).len() implies word_kept(#[trigger] kept_lower(ws)[j]) by {
            if j < rest.len() {
                assert(kept_lower(ws)[j] == rest[j]);
            }
        }
    }
}

proof fn lemma_occ_witness(ws: Seq<Seq<char>>, w: Seq<char>)
    requires
        occ(ws, w) > 0,
    ensures
        exists|j: int| 0 <= j < ws.len() && ws[j] == w,
    decreases ws.len(),
{
    if ws.last() != w {
        lemma_occ_witness(ws.drop_last(), w);
        let j = choose|j: int| 0 <= j < ws.drop_last().len() && ws.drop_last()[j] == w;
        assert(ws[j] == w);
    } else {
        assert(ws[ws.len() - 1] == w);
    }
}

proof fn lemma_counted_word_kept(es: Seq<(Seq<char>, Seq<char>)>, w: Seq<char>)
    requires
        word_count(es, w) > 0,
    ensures
        word_kept(w),
    decreases es.len(),
{
    if occ(entry_words(es.last()), w) > 0 {
        let ws = entry_words(es.last());
        lemma_occ_witness(ws, w);
        let j = choose|j: int| 0 <= j < ws.len() && ws[j] == w;
        lemma_kept_lower_kept(split_ws(es.last().0));
    } else {
        lemma_counted_word_kept(es.drop_last(), w);
    }
}

/// A word gets a translation only when it is a kept word (lowercased, at
/// least three bytes, alphabetic, not a stop word) that the entries give at
/// least three times, with at least three distinct values; the translation
/// is one to six CJK characters, not a blacklisted one. An empty dictionary
/// infers nothing.
pub proof fn law_inferred_word(es: Seq<(Seq<char>, Seq<char>)>, w: Seq<char>)
    ensures
        es.len() == 0 ==> spec_inferred(es, w) is None,
        spec_inferred(es, w) matches Some(z) ==> {
            &&& word_kept(w)
            &&& word_count(es, w) >= 3
            &&& dedup(word_values(es, w)).len() >= 3
            &&& 1 <= z.len() <= 6
            &&& forall|j: int| 0 <= j < z.len() ==> spec_is_cjk(#[trigger] z[j])
            &&& !inference_blacklist().contains(z)
        },
{
    if let Some(z) = spec_inferred(es, w) {
        lemma_counted_word_kept(es, w);
        let texts = dedup(word_values(es, w));
        law_common_hanzi(texts);
        let zh = spec_find_common_hanzi(texts)->0;
        lemma_clean_piece(zh);
        let (a, b) = choose|a: int, b: int| 0 <= a < b <= zh.len() && z == zh.subrange(a, b);
        assert forall|j: int| 0 <= j < z.len() implies spec_is_cjk(#[trigger] z[j]) by {
            assert(z[j] == zh[a + j]);
        }
    }
}

} // verus!

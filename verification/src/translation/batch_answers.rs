//! Reading a batch's answer back into its items. Each text of a batch was
//! sent tagged `[i<n>]` with its position `n` in the batch; the service
//! answers with pairs of a tagged text and its translation. The tag of a
//! pair's text finds the item; its translation, without any tags and
//! trimmed (and converted to Traditional Chinese for `zh_tw`), goes to
//! every item of the batch with that item's text.
//!
//! A tag is `[i`, one or more ASCII digits, `]`; the first tag in the text
//! counts. The texts' own formatting markers and clean-up rules are not
//! applied here: the items of this library carry no markers.
use vstd::prelude::*;
use crate::text::{digit_value, digits_value, trim, trim_chars, chars_of, string_of};
use crate::translation::batch_run::all_below;
use crate::translation::batching::{keeps_filled, same_but_translation, spec_s2tw, s2tw_text, GlobalBatchItem};
use crate::file::plan::opt_view;

verus! {

/// An ASCII digit.
pub open spec fn ascii_digit(c: char) -> bool {
    '0' <= c && c <= '9'
}

/// How many ASCII digits follow one another from position `p`.
pub open spec fn digit_run(s: Seq<char>, p: int) -> nat
    decreases s.len() - p,
{
    if 0 <= p < s.len() && ascii_digit(s[p]) {
        1 + digit_run(s, p + 1)
    } else {
        0
    }
}

/// A tag starts at `p`: `[i`, at least one digit, `]`.
pub open spec fn tag_at(s: Seq<char>, p: int) -> bool {
    &&& 0 <= p
    &&& p + 2 < s.len()
    &&& s[p] == '['
    &&& s[p + 1] == 'i'
    &&& digit_run(s, p + 2) > 0
    &&& p + 2 + digit_run(s, p + 2) < s.len()
    &&& s[p + 2 + digit_run(s, p + 2)] == ']'
}

/// The first tag at or after `p`.
pub open spec fn first_tag_from(s: Seq<char>, p: int) -> Option<int>
    decreases s.len() - p,
{
    if p < 0 || p >= s.len() {
        None
    } else if tag_at(s, p) {
        Some(p)
    } else {
        first_tag_from(s, p + 1)
    }
}

/// The number of the tag at `p`.
pub open spec fn tag_number(s: Seq<char>, p: int) -> nat {
    digits_value(s.subrange(p + 2, p + 2 + digit_run(s, p + 2)), 10)
}

/// The position in a batch of `n` texts that a tagged text names: the
/// number of its first tag, when it is below `n`.
pub open spec fn answer_index(tagged: Seq<char>, n: nat) -> Option<nat> {
    match first_tag_from(tagged, 0) {
        Some(p) => if tag_number(tagged, p) < n {
            Some(tag_number(tagged, p))
        } else {
            None
        },
        None => None,
    }
}

/// The text from `p` on with every tag taken out.
pub open spec fn strip_tags_from(s: Seq<char>, p: int) -> Seq<char>
    decreases s.len() - p,
{
    if p < 0 || p >= s.len() {
        Seq::empty()
    } else if tag_at(s, p) {
        strip_tags_from(s, p + 3 + digit_run(s, p + 2))
    } else {
        seq![s[p]] + strip_tags_from(s, p + 1)
    }
}

/// The translation an item gets from an answer: without tags, trimmed, and
/// converted to Traditional Chinese when asked.
pub open spec fn finished_answer(t: Seq<char>, to_tw: bool) -> Seq<char> {
    let c = trim(strip_tags_from(t, 0));
    if to_tw {
        spec_s2tw(c)
    } else {
        c
    }
}

/// Position `j` is one of the batch's.
pub open spec fn in_batch(batch: Seq<usize>, j: int) -> bool {
    exists|w: int| 0 <= w < batch.len() && #[trigger] batch[w] as int == j
}

/// The translations of the items, as characters.
pub open spec fn translated_views(items: Seq<GlobalBatchItem>) -> Seq<Option<Seq<char>>> {
    items.map_values(|it: GlobalBatchItem| opt_view(it.translated))
}

/// The answer pairs as characters.
pub open spec fn answer_views(a: Seq<(String, String)>) -> Seq<(Seq<char>, Seq<char>)> {
    a.map_values(|p: (String, String)| (p.0@, p.1@))
}

/// The translations after the answers were read in order: an answer whose
/// tag names position `k` of the batch gives its finished translation to
/// each item of the batch whose text is that of the item at `k`; a later
/// answer overrides an earlier one.
pub open spec fn answers_effect(
    items: Seq<GlobalBatchItem>,
    batch: Seq<usize>,
    answers: Seq<(Seq<char>, Seq<char>)>,
    to_tw: bool,
    start: Seq<Option<Seq<char>>>,
) -> Seq<Option<Seq<char>>>
    decreases answers.len(),
{
    if answers.len() == 0 {
        start
    } else {
        let prev = answers_effect(items, batch, answers.drop_last(), to_tw, start);
        let a = answers.last();
        match answer_index(a.0, batch.len()) {
            Some(k) => {
                let target = items[batch[k as int] as int].preprocessed@;
                let v = finished_answer(a.1, to_tw);
                Seq::new(
                    prev.len(),
                    |j: int| if in_batch(batch, j) && items[j].preprocessed@ == target {
                        Some(v)
                    } else {
                        prev[j]
                    },
                )
            },
            None => prev,
        }
    }
}

/// A batch made of items without a translation leaves every translated item
/// as it was: answers fill only items that had none.
pub proof fn law_answers_keep_translations(
    items: Seq<GlobalBatchItem>,
    batch: Seq<usize>,
    answers: Seq<(Seq<char>, Seq<char>)>,
    to_tw: bool,
    start: Seq<Option<Seq<char>>>,
)
    requires
        start.len() == items.len(),
        forall|k: int| 0 <= k < batch.len() && batch[k] < start.len() ==> start[#[trigger] batch[k] as int] is None,
    ensures
        forall|j: int|
            0 <= j < start.len() && start[j] is Some ==> #[trigger] answers_effect(items, batch, answers, to_tw, start)[j]
                == start[j],
{
    law_answers_touch_only_batch(items, batch, answers, to_tw, start);
    assert forall|j: int|
        0 <= j < start.len() && start[j] is Some implies #[trigger] answers_effect(items, batch, answers, to_tw, start)[j]
            == start[j] by {
        if in_batch(batch, j) {
            let w = choose|w: int| 0 <= w < batch.len() && #[trigger] batch[w] as int == j;
            assert(start[batch[w] as int] is None);
        }
    }
}

/// Reading answers changes only the items of the batch: every other item
/// keeps its translation (so a run that sends only items without one fills
/// only those), and every item of the batch that gets one gets a finished
/// answer.
pub proof fn law_answers_touch_only_batch(
    items: Seq<GlobalBatchItem>,
    batch: Seq<usize>,
    answers: Seq<(Seq<char>, Seq<char>)>,
    to_tw: bool,
    start: Seq<Option<Seq<char>>>,
)
    requires
        start.len() == items.len(),
    ensures
        answers_effect(items, batch, answers, to_tw, start).len() == start.len(),
        forall|j: int|
            0 <= j < start.len() && !in_batch(batch, j) ==> #[trigger] answers_effect(items, batch, answers, to_tw, start)[j]
                == start[j],
        forall|j: int|
            0 <= j < start.len() && #[trigger] answers_effect(items, batch, answers, to_tw, start)[j] != start[j]
                ==> exists|k: int| 0 <= k < answers.len() && answers_effect(items, batch, answers, to_tw, start)[j] == Some(
                finished_answer(#[trigger] answers[k].1, to_tw),
            ),
    decreases answers.len(),
{
    if answers.len() > 0 {
        let d = answers.drop_last();
        law_answers_touch_only_batch(items, batch, d, to_tw, start);
        let prev = answers_effect(items, batch, d, to_tw, start);
        let cur = answers_effect(items, batch, answers, to_tw, start);
        assert forall|j: int|
            0 <= j < start.len() && cur[j] != start[j] implies exists|k: int|
                0 <= k < answers.len() && cur[j] == Some(finished_answer(#[trigger] answers[k].1, to_tw)) by {
            if cur[j] == prev[j] {
                let k = choose|k: int| 0 <= k < d.len() && prev[j] == Some(finished_answer(#[trigger] d[k].1, to_tw));
                assert(answers[k] == d[k]);
            } else {
                assert(answers[answers.len() - 1] == answers.last());
            }
        }
    }
}

// ---------------------------------------------------------------------------
// Executable
// ---------------------------------------------------------------------------

fn digit_run_exec(s: &Vec<char>, p: usize) -> (r: usize)
    requires
        p <= s@.len(),
    ensures
        r == digit_run(s@, p as int),
        p + r <= s@.len(),
{
    let mut q = s.len();
    let mut i = p;
    while i < s.len() && '0' <= s[i] && s[i] <= '9'
        invariant
            p <= i <= s@.len(),
            forall|k: int| p <= k < i ==> ascii_digit(#[trigger] s@[k]),
        decreases s.len() - i,
    {
        i = i + 1;
    }
    q = i;
    proof {
        lemma_digit_run_upto(s@, p as int, q as int);
    }
    q - p
}

proof fn lemma_digit_run_upto(s: Seq<char>, p: int, q: int)
    requires
        0 <= p <= q <= s.len(),
        forall|k: int| p <= k < q ==> ascii_digit(#[trigger] s[k]),
        q == s.len() || !ascii_digit(s[q]),
    ensures
        digit_run(s, p) == q - p,
    decreases q - p,
{
    if p < q {
        lemma_digit_run_upto(s, p + 1, q);
    }
}

fn tag_at_exec(s: &Vec<char>, p: usize) -> (r: bool)
    requires
        p <= s@.len(),
    ensures
        r == tag_at(s@, p as int),
{
    if s.len() - p <= 2 || s[p] != '[' || s[p + 1] != 'i' {
        return false;
    }
    let d = digit_run_exec(s, p + 2);
    d > 0 && p + 2 + d < s.len() && s[p + 2 + d] == ']'
}

fn first_tag(s: &Vec<char>) -> (r: Option<usize>)
    ensures
        match r {
            Some(p) => first_tag_from(s@, 0) == Some(p as int) && p < s@.len() && tag_at(s@, p as int),
            None => first_tag_from(s@, 0) is None,
        },
{
    let mut p: usize = 0;
    while p < s.len()
        invariant
            p <= s@.len(),
            first_tag_from(s@, 0) == first_tag_from(s@, p as int),
        decreases s.len() - p,
    {
        if tag_at_exec(s, p) {
            return Some(p);
        }
        p = p + 1;
    }
    None
}

proof fn lemma_digits_prefix_le(d: Seq<char>, k: int)
    requires
        0 <= k <= d.len(),
    ensures
        digits_value(d.take(k), 10) <= digits_value(d, 10),
    decreases d.len() - k,
{
    if k < d.len() {
        lemma_digits_prefix_le(d, k + 1);
        assert(d.take(k + 1).drop_last() =~= d.take(k));
    } else {
        assert(d.take(k) =~= d);
    }
}

/// The position in a batch of `n` texts that a tagged text names (see
/// `answer_index`).
pub fn tag_index(tagged: &str, n: usize) -> (r: Option<usize>)
    ensures
        match r {
            Some(k) => answer_index(tagged@, n as nat) == Some(k as nat),
            None => answer_index(tagged@, n as nat) is None,
        },
{
    if n == 0 {
        return None;
    }
    let s = chars_of(tagged);
    let len = s.len();
    let p = match first_tag(&s) {
        Some(p) => p,
        None => {
            return None;
        },
    };
    let d = digit_run_exec(&s, p + 2);
    let ghost digits = s@.subrange(p + 2, p + 2 + d);
    let mut v: u128 = 0;
    let mut i: usize = 0;
    while i < d
        invariant
            i <= d,
            len == s@.len(),
            s@ == tagged@,
            p + 2 + d <= len,
            first_tag_from(s@, 0) == Some(p as int),
            d == digit_run(s@, p + 2),
            digits == s@.subrange(p + 2, p + 2 + d),
            v as nat == digits_value(digits.take(i as int), 10),
            v < n,
        decreases d - i,
    {
        proof {
            lemma_digit_run_all(s@, p + 2, i as int);
            assert(digits.take(i + 1).drop_last() =~= digits.take(i as int));
            assert(digits.take(i + 1).last() == s@[p + 2 + i]);
        }
        let c = s[p + 2 + i];
        let dv = (c as u32 - '0' as u32) as u128;
        assert(v * 10 + dv <= (n as u128) * 10 + 9) by (nonlinear_arith)
            requires
                v < n,
                dv <= 9,
        ;
        proof {
            assert(digit_value(c, 10) == Some(dv as nat));
            assert(digits.take(i + 1).last() == c);
        }
        v = v * 10 + dv;
        i = i + 1;
        assert(v as nat == digits_value(digits.take(i as int), 10));
        if v >= n as u128 {
            proof {
                lemma_digits_prefix_le(digits, i as int);
                assert(tag_number(s@, p as int) == digits_value(digits, 10));
                assert(tag_number(s@, p as int) >= n);
            }
            return None;
        }
    }
    assert(digits.take(d as int) =~= digits);
    Some(v as usize)
}

proof fn lemma_digit_run_all(s: Seq<char>, p: int, i: int)
    requires
        0 <= i < digit_run(s, p),
        0 <= p,
    ensures
        ascii_digit(s[p + i]),
        p + i < s.len(),
    decreases i,
{
    if i > 0 {
        lemma_digit_run_all(s, p + 1, i - 1);
    }
}

/// The text with every tag taken out (see `strip_tags_from`).
pub fn strip_batch_tags(t: &Vec<char>) -> (r: Vec<char>)
    ensures
        r@ == strip_tags_from(t@, 0),
{
    let mut out: Vec<char> = Vec::new();
    let mut p: usize = 0;
    while p < t.len()
        invariant
            p <= t@.len(),
            out@ + strip_tags_from(t@, p as int) == strip_tags_from(t@, 0),
        decreases t.len() - p,
    {
        if tag_at_exec(t, p) {
            let d = digit_run_exec(t, p + 2);
            p = p + 3 + d;
        } else {
            let ghost before = out@;
            out.push(t[p]);
            assert(before + strip_tags_from(t@, p as int) =~= out@ + strip_tags_from(t@, p + 1));
            p = p + 1;
        }
    }
    assert(out@ + Seq::<char>::empty() =~= out@);
    out
}

/// The translation an item gets from an answer (see `finished_answer`).
pub fn finish_answer(t: &str, to_tw: bool) -> (r: String)
    ensures
        r@ == finished_answer(t@, to_tw),
{
    let c = string_of(&trim_chars(&strip_batch_tags(&chars_of(t))));
    if to_tw {
        s2tw_text(c.as_str())
    } else {
        c
    }
}

/// Gives the item at `idx` the translation of the service's answer when it
/// was sent alone (see `single_answer`); nothing else changes, so an item
/// sent without a translation leaves every filled one as it was.
pub fn fill_single(items: &mut Vec<GlobalBatchItem>, idx: usize, answer: &str, to_tw: bool)
    requires
        idx < old(items)@.len(),
    ensures
        final(items)@.len() == old(items)@.len(),
        opt_view(final(items)@[idx as int].translated) == Some(if to_tw {
            spec_s2tw(answer@)
        } else {
            answer@
        }),
        forall|j: int| 0 <= j < old(items)@.len() && j != idx ==> #[trigger] final(items)@[j] == old(items)@[j],
        same_but_translation(old(items)@[idx as int], final(items)@[idx as int]),
        old(items)@[idx as int].translated is None ==> keeps_filled(old(items)@, final(items)@),
{
    let t = single_answer(answer, to_tw);
    items[idx].translated = Some(t);
}

/// The translation an item gets when sent alone: the service's text,
/// converted to Traditional Chinese when asked.
pub fn single_answer(t: &str, to_tw: bool) -> (r: String)
    ensures
        r@ == (if to_tw {
            spec_s2tw(t@)
        } else {
            t@
        }),
{
    if to_tw {
        s2tw_text(t)
    } else {
        t.to_owned()
    }
}

/// Reads a batch's answers into its items, in the given order (see
/// `answers_effect`); nothing else of an item changes. True when some
/// answer named an item of the batch.
pub fn apply_batch_answers(
    items: &mut Vec<GlobalBatchItem>,
    batch: &[usize],
    answers: &[(String, String)],
    to_tw: bool,
) -> (r: bool)
    requires
        all_below(batch@, old(items)@.len()),
    ensures
        final(items)@.len() == old(items)@.len(),
        forall|j: int| 0 <= j < old(items)@.len() ==> same_but_translation(old(items)@[j], #[trigger] final(items)@[j]),
        translated_views(final(items)@) == answers_effect(
            old(items)@,
            batch@,
            answer_views(answers@),
            to_tw,
            translated_views(old(items)@),
        ),
        r == exists|k: int| 0 <= k < answers@.len() && (#[trigger] answer_index(answers@[k].0@, batch@.len())) is Some,
        (forall|k: int| 0 <= k < batch@.len() ==> old(items)@[#[trigger] batch@[k] as int].translated is None)
            ==> keeps_filled(old(items)@, final(items)@),
{
    let ghost orig = items@;
    let ghost av = answer_views(answers@);
    let mut any = false;
    let mut a: usize = 0;
    while a < answers.len()
        invariant
            a <= answers@.len(),
            av == answer_views(answers@),
            items@.len() == orig.len(),
            all_below(batch@, orig.len()),
            forall|j: int| 0 <= j < orig.len() ==> same_but_translation(orig[j], #[trigger] items@[j]),
            translated_views(items@) == answers_effect(orig, batch@, av.take(a as int), to_tw, translated_views(orig)),
            any == exists|k: int| 0 <= k < a && (#[trigger] answer_index(answers@[k].0@, batch@.len())) is Some,
        decreases answers.len() - a,
    {
        proof {
            assert(av.take(a + 1).drop_last() =~= av.take(a as int));
            assert(av.take(a + 1).last() == av[a as int]);
        }
        let ghost prev = translated_views(items@);
        match tag_index(answers[a].0.as_str(), batch.len()) {
            Some(k) => {
                let target = items[batch[k]].preprocessed.clone();
                assert(target@ == orig[batch@[k as int] as int].preprocessed@);
                let v = finish_answer(answers[a].1.as_str(), to_tw);
                let mut q: usize = 0;
                while q < batch.len()
                    invariant
                        q <= batch@.len(),
                        items@.len() == orig.len(),
                        all_below(batch@, orig.len()),
                        forall|j: int| 0 <= j < orig.len() ==> same_but_translation(orig[j], #[trigger] items@[j]),
                        prev.len() == orig.len(),
                        translated_views(items@) == Seq::new(
                            prev.len(),
                            |j: int| if in_batch(batch@.take(q as int), j) && orig[j].preprocessed@ == target@ {
                                Some(v@)
                            } else {
                                prev[j]
                            },
                        ),
                    decreases batch.len() - q,
                {
                    let b = batch[q];
                    let ghost before = items@;
                    if items[b].preprocessed == target {
                        items[b].translated = Some(v.clone());
                    }
                    proof {
                        assert forall|j: int| 0 <= j < orig.len() implies same_but_translation(orig[j], #[trigger] items@[j]) by {
                            if j != b {
                                assert(items@[j] == before[j]);
                            }
                        }
                        assert forall|j: int| 0 <= j < prev.len() implies #[trigger] in_batch(batch@.take(q + 1), j)
                            == (in_batch(batch@.take(q as int), j) || j == b) by {
                            if in_batch(batch@.take(q + 1), j) {
                                let w = choose|w: int| 0 <= w < q + 1 && #[trigger] batch@.take(q + 1)[w] as int == j;
                                if w < q {
                                    assert(batch@.take(q as int)[w] == batch@.take(q + 1)[w]);
                                }
                            }
                            if in_batch(batch@.take(q as int), j) {
                                let w = choose|w: int| 0 <= w < q && #[trigger] batch@.take(q as int)[w] as int == j;
                                assert(batch@.take(q + 1)[w] == batch@.take(q as int)[w]);
                            }
                            if j == b {
                                assert(batch@.take(q + 1)[q as int] == b);
                            }
                        }
                        let nw = Seq::new(
                            prev.len(),
                            |j: int| if in_batch(batch@.take(q + 1), j) && orig[j].preprocessed@ == target@ {
                                Some(v@)
                            } else {
                                prev[j]
                            },
                        );
                        let od = Seq::new(
                            prev.len(),
                            |j: int| if in_batch(batch@.take(q as int), j) && orig[j].preprocessed@ == target@ {
                                Some(v@)
                            } else {
                                prev[j]
                            },
                        );
                        assert(translated_views(before) == od);
                        assert forall|j: int| 0 <= j < prev.len() implies translated_views(items@)[j] == nw[j] by {
                            assert(translated_views(before)[j] == od[j]);
                            assert(translated_views(items@)[j] == opt_view(items@[j].translated));
                            assert(translated_views(before)[j] == opt_view(before[j].translated));
                            if j != b {
                                assert(items@[j] == before[j]);
                            } else {
                                assert(before[j].preprocessed == orig[j].preprocessed);
                            }
                        }
                        assert(translated_views(items@) =~= nw);
                    }
                    q = q + 1;
                }
                proof {
                    assert(batch@.take(batch@.len() as int) =~= batch@);
                    assert(translated_views(items@) =~= answers_effect(orig, batch@, av.take(a + 1), to_tw, translated_views(orig)));
                }
                any = true;
            },
            None => {},
        }
        a = a + 1;
    }
    assert(av.take(answers@.len() as int) =~= av);
    proof {
        if forall|k: int| 0 <= k < batch@.len() ==> orig[#[trigger] batch@[k] as int].translated is None {
            let start = translated_views(orig);
            assert forall|k: int| 0 <= k < batch@.len() && batch@[k] < start.len() implies start[#[trigger] batch@[k] as int] is None by {
                assert(orig[batch@[k] as int].translated is None);
            }
            law_answers_keep_translations(orig, batch@, av, to_tw, start);
            assert forall|j: int| 0 <= j < orig.len() && orig[j].translated is Some implies opt_view(
                #[trigger] items@[j].translated,
            ) == opt_view(orig[j].translated) by {
                assert(start[j] is Some);
                assert(translated_views(items@)[j] == opt_view(items@[j].translated));
            }
        }
    }
    any
}

} // verus!

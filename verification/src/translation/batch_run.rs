//! The decisions of a translation run over a group of items: batches at the
//! configured size first, then the failed items again in smaller batches,
//! then those that failed twice one at a time. The caller performs each step
//! (the calls to the translation service) and reports back.
use vstd::prelude::*;
use crate::translation::batching::{
    batch_outcome, concat, create_adaptive_batches_from_indices, fits, greedy_batches, index_batches,
    item_len, retry_limits, untranslated_of, GlobalBatchItem,
};

verus! {

/// The stage a run is in.
#[derive(Clone, Copy, Debug, PartialEq, Eq, Structural)]
pub enum RunPhase {
    /// Batches at the configured size.
    Initial,
    /// The items that failed, in batches of half the size.
    Retry,
    /// The items that failed again, one at a time.
    Single,
}

/// What the caller does next.
#[derive(Debug)]
pub enum RunStep {
    /// Send these items to the service as one batch, then report the outcome
    /// with `BatchRun::batch_done`.
    Batch(Vec<usize>),
    /// Translate this item on its own.
    Single(usize),
    /// Nothing is left to do.
    Done,
}

/// Every index in `s` is below `n`.
pub open spec fn all_below(s: Seq<usize>, n: nat) -> bool {
    forall|k: int| 0 <= k < s.len() ==> (#[trigger] s[k]) < n
}

/// Every item's text is at most `u32::MAX` bytes long.
pub open spec fn texts_fit(items: Seq<GlobalBatchItem>) -> bool {
    forall|i: usize| i < items.len() ==> #[trigger] item_len(items, i) <= u32::MAX
}

/// A run over the items of a group.
pub struct BatchRun {
    /// The current stage.
    pub phase: RunPhase,
    /// The batches of the current stage (initial or retry).
    pub batches: Vec<Vec<usize>>,
    /// The items of the single-item stage.
    pub singles: Vec<usize>,
    /// How many batches (or single items) of the stage were handed out.
    pub next: usize,
    /// The items that failed in the current stage so far.
    pub failed: Vec<usize>,
    /// The batch size of the retry stage.
    pub retry_size: u32,
    /// The byte limit of the retry stage.
    pub retry_chars: u32,
    /// The number of items of the group.
    pub item_count: usize,
    /// The number of batches of the current stage, as the run reports it.
    pub total_batches: u32,
    /// The number of the batch handed out last in the current stage.
    pub current_batch: u32,
    /// The items done so far, counted from the run's offset (the items of
    /// the groups before it).
    pub progress: usize,
}

/// `a + b`, held at `usize::MAX`.
pub open spec fn sat_add(a: nat, b: nat) -> nat {
    if a + b > usize::MAX {
        usize::MAX as nat
    } else {
        a + b
    }
}

impl BatchRun {
    /// The number of steps of the current stage.
    pub open spec fn queue_len(self) -> nat {
        if self.phase is Single {
            self.singles@.len()
        } else {
            self.batches@.len()
        }
    }

    /// The steps of the current stage not handed out yet.
    pub open spec fn remaining(self) -> nat {
        (self.queue_len() - self.next) as nat
    }

    /// How many stages may follow the current one.
    pub open spec fn rank(self) -> nat {
        match self.phase {
            RunPhase::Initial => 2,
            RunPhase::Retry => 1,
            RunPhase::Single => 0,
        }
    }

    /// Every index held refers to an item, and no more steps were handed out
    /// than the stage has.
    pub open spec fn wf(self) -> bool {
        &&& forall|k: int|
            0 <= k < self.batches@.len() ==> all_below(#[trigger] self.batches@[k]@, self.item_count as nat)
        &&& all_below(self.singles@, self.item_count as nat)
        &&& all_below(self.failed@, self.item_count as nat)
        &&& self.next <= self.queue_len()
    }

    /// A run starting on the `pending` items: they are cut into batches of at
    /// most `batch_size` items and `max_chars` bytes (see
    /// `create_adaptive_batches_from_indices`); the retry stage will use half
    /// of both (at least one item and a hundred bytes). The run reports its
    /// batches as `0` of their number, or `1` of `1` when nothing is pending,
    /// and its progress as `offset` plus the items not pending.
    pub fn start(items: &[GlobalBatchItem], pending: &[usize], batch_size: u32, max_chars: u32, offset: usize) -> (r: Self)
        requires
            all_below(pending@, items@.len()),
            texts_fit(items@),
        ensures
            pending@.len() == 0 ==> r.total_batches == 1 && r.current_batch == 1,
            pending@.len() > 0 ==> r.total_batches == r.batches@.len() as u32 && r.current_batch == 0,
            r.progress == sat_add(offset as nat, if pending@.len() <= items@.len() {
                (items@.len() - pending@.len()) as nat
            } else {
                0
            }),
            r.wf(),
            r.phase == RunPhase::Initial,
            r.next == 0,
            r.failed@.len() == 0,
            r.singles@.len() == 0,
            r.item_count == items@.len(),
            greedy_batches(items@, pending@, batch_size as nat, max_chars as nat, index_batches(r.batches@)),
            r.retry_size == (if batch_size / 2 > 1 { batch_size / 2 } else { 1 }),
            r.retry_chars == (if max_chars / 2 > 100 { max_chars / 2 } else { 100 }),
    {
        let batches = cut(items, pending, batch_size, max_chars);
        let (retry_size, retry_chars) = retry_limits(batch_size, max_chars);
        let (total_batches, current_batch): (u32, u32) = if pending.len() == 0 {
            (1, 1)
        } else {
            (batches.len() as u32, 0)
        };
        let done = items.len().saturating_sub(pending.len());
        BatchRun {
            total_batches,
            current_batch,
            progress: offset.saturating_add(done),
            phase: RunPhase::Initial,
            batches,
            singles: Vec::new(),
            next: 0,
            failed: Vec::new(),
            retry_size,
            retry_chars,
            item_count: items.len(),
        }
    }

    /// Records how a batch came back: when the service answered, its items
    /// still without a translation failed and the others count as done; when
    /// it did not, all of them failed.
    pub fn batch_done(&mut self, items: &[GlobalBatchItem], batch: &[usize], answered: bool)
        requires
            old(self).wf(),
            items@.len() == old(self).item_count,
            all_below(batch@, items@.len()),
        ensures
            final(self).wf(),
            final(self).failed@ == old(self).failed@ + (if answered {
                untranslated_of(items@, batch@)
            } else {
                batch@
            }),
            final(self).phase == old(self).phase,
            final(self).batches@ == old(self).batches@,
            final(self).singles@ == old(self).singles@,
            final(self).next == old(self).next,
            final(self).retry_size == old(self).retry_size,
            final(self).retry_chars == old(self).retry_chars,
            final(self).item_count == old(self).item_count,
            final(self).total_batches == old(self).total_batches,
            final(self).current_batch == old(self).current_batch,
            final(self).progress == (if answered {
                sat_add(old(self).progress as nat, (batch@.len() - untranslated_of(items@, batch@).len()) as nat)
            } else {
                old(self).progress as nat
            }),
    {
        let mut add: Vec<usize> = if answered {
            let (ok, missing) = batch_outcome(items, batch);
            self.progress = self.progress.saturating_add(ok);
            proof {
                lemma_untranslated_below(items@, batch@);
            }
            missing
        } else {
            let mut copy: Vec<usize> = Vec::new();
            let mut i: usize = 0;
            while i < batch.len()
                invariant
                    i <= batch@.len(),
                    copy@ == batch@.take(i as int),
                decreases batch.len() - i,
            {
                assert(batch@.take(i + 1) =~= batch@.take(i as int).push(batch@[i as int]));
                copy.push(batch[i]);
                i = i + 1;
            }
            assert(batch@.take(batch@.len() as int) =~= batch@);
            copy
        };
        let ghost before = self.failed@;
        let ghost added = add@;
        self.failed.append(&mut add);
        proof {
            assert forall|k: int| 0 <= k < self.failed@.len() implies (#[trigger] self.failed@[k]) < self.item_count by {
                if k >= before.len() {
                    assert(self.failed@[k] == added[k - before.len()]);
                }
            }
        }
    }

    /// The next step of the run. A cancelled run is done. Within a stage the
    /// next batch (or single item) is handed out. When the initial stage is
    /// through and items failed, the retry stage cuts them into smaller
    /// batches; when the retry stage is through and items failed again, the
    /// single stage takes them one at a time. Otherwise the run is done.
    /// Every step that is not `Done` lowers the stage, or the steps left in
    /// it, so a run always ends.
    pub fn next_step(&mut self, items: &[GlobalBatchItem], cancelled: bool) -> (r: RunStep)
        requires
            old(self).wf(),
            items@.len() == old(self).item_count,
            texts_fit(items@),
        ensures
            final(self).wf(),
            final(self).item_count == old(self).item_count,
            final(self).retry_size == old(self).retry_size,
            final(self).retry_chars == old(self).retry_chars,
            r is Done <==> (cancelled || (old(self).remaining() == 0 && (old(self).phase == RunPhase::Single
                || old(self).failed@.len() == 0))),
            r is Done ==> *final(self) == *old(self),
            !cancelled && old(self).remaining() > 0 ==> continues(*old(self), *final(self), r),
            !cancelled && old(self).remaining() == 0 && old(self).phase == RunPhase::Initial
                && old(self).failed@.len() > 0 ==> starts_retry(items@, *old(self), *final(self), r),
            !cancelled && old(self).remaining() == 0 && old(self).phase == RunPhase::Retry
                && old(self).failed@.len() > 0 ==> starts_single(*old(self), *final(self), r),
            !(r is Done) ==> final(self).rank() < old(self).rank() || (final(self).rank() == old(self).rank()
                && final(self).remaining() < old(self).remaining()),
            step_of(items@, *old(self), *final(self), r),
            final(self).progress == old(self).progress,
            r is Batch ==> final(self).current_batch == final(self).next as u32,
            r is Batch && old(self).phase != final(self).phase ==> final(self).total_batches
                == final(self).batches@.len() as u32,
            !(r is Batch && old(self).phase != final(self).phase) ==> final(self).total_batches
                == old(self).total_batches,
            !(r is Batch) ==> final(self).current_batch == old(self).current_batch,
    {
        if cancelled {
            return RunStep::Done;
        }
        match self.phase {
            RunPhase::Single => {
                if self.next < self.singles.len() {
                    let idx = self.singles[self.next];
                    self.next = self.next + 1;
                    RunStep::Single(idx)
                } else {
                    RunStep::Done
                }
            },
            RunPhase::Initial => {
                if self.next < self.batches.len() {
                    self.hand_out_batch()
                } else if self.failed.len() == 0 {
                    RunStep::Done
                } else {
                    let batches = cut(items, self.failed.as_slice(), self.retry_size, self.retry_chars);
                    proof {
                        lemma_concat_nonempty(index_batches(batches@));
                    }
                    self.total_batches = batches.len() as u32;
                    self.batches = batches;
                    self.phase = RunPhase::Retry;
                    self.failed = Vec::new();
                    self.next = 0;
                    self.hand_out_batch()
                }
            },
            RunPhase::Retry => {
                if self.next < self.batches.len() {
                    self.hand_out_batch()
                } else if self.failed.len() == 0 {
                    RunStep::Done
                } else {
                    let singles = self.failed.clone();
                    let idx = singles[0];
                    self.singles = singles;
                    self.phase = RunPhase::Single;
                    self.failed = Vec::new();
                    self.next = 1;
                    RunStep::Single(idx)
                }
            },
        }
    }

    /// Records how a single item came back: one more item is done when it got
    /// a translation.
    pub fn single_done(&mut self, translated: bool)
        ensures
            final(self).progress == (if translated {
                sat_add(old(self).progress as nat, 1)
            } else {
                old(self).progress as nat
            }),
            final(self).phase == old(self).phase,
            final(self).batches@ == old(self).batches@,
            final(self).singles@ == old(self).singles@,
            final(self).failed@ == old(self).failed@,
            final(self).next == old(self).next,
            final(self).retry_size == old(self).retry_size,
            final(self).retry_chars == old(self).retry_chars,
            final(self).item_count == old(self).item_count,
            final(self).total_batches == old(self).total_batches,
            final(self).current_batch == old(self).current_batch,
    {
        if translated {
            self.progress = self.progress.saturating_add(1);
        }
    }

    /// Hands out the next batch of an initial or retry stage.
    fn hand_out_batch(&mut self) -> (r: RunStep)
        requires
            old(self).wf(),
            !(old(self).phase is Single),
            old(self).next < old(self).batches@.len(),
        ensures
            continues(*old(self), *final(self), r),
            final(self).wf(),
            final(self).item_count == old(self).item_count,
            final(self).retry_size == old(self).retry_size,
            final(self).retry_chars == old(self).retry_chars,
            final(self).total_batches == old(self).total_batches,
            final(self).current_batch == final(self).next as u32,
            final(self).progress == old(self).progress,
    {
        let _n = self.batches.len();
        let b = self.batches[self.next].clone();
        assert(b@ =~= self.batches@[self.next as int]@);
        self.next = self.next + 1;
        self.current_batch = self.next as u32;
        RunStep::Batch(b)
    }
}

/// A step within a stage: the next batch (or single item) is handed out and
/// nothing else changes.
pub open spec fn continues(before: BatchRun, after: BatchRun, r: RunStep) -> bool {
    &&& after.phase == before.phase
    &&& after.batches@ == before.batches@
    &&& after.singles@ == before.singles@
    &&& after.failed@ == before.failed@
    &&& after.next == before.next + 1
    &&& if before.phase is Single {
        r == RunStep::Single(before.singles@[before.next as int])
    } else {
        r matches RunStep::Batch(b) && b@ == before.batches@[before.next as int]@
    }
}

/// The retry stage begins: the failed items are cut into batches at the
/// retry limits, and the first of them is handed out.
pub open spec fn starts_retry(items: Seq<GlobalBatchItem>, before: BatchRun, after: BatchRun, r: RunStep) -> bool {
    &&& after.phase == RunPhase::Retry
    &&& greedy_batches(
        items,
        before.failed@,
        before.retry_size as nat,
        before.retry_chars as nat,
        index_batches(after.batches@),
    )
    &&& after.batches@.len() > 0
    &&& after.singles@ == before.singles@
    &&& after.failed@.len() == 0
    &&& after.next == 1
    &&& r matches RunStep::Batch(b) && b@ == after.batches@[0]@
}

/// The single stage begins: the items that failed again are taken one at a
/// time, the first of them now.
pub open spec fn starts_single(before: BatchRun, after: BatchRun, r: RunStep) -> bool {
    &&& after.phase == RunPhase::Single
    &&& after.singles@ == before.failed@
    &&& after.batches@ == before.batches@
    &&& after.failed@.len() == 0
    &&& after.next == 1
    &&& r == RunStep::Single(before.failed@[0])
}

/// One step of a run as `BatchRun::next_step` takes it: the run is done and
/// unchanged, or it hands out the next step of its stage, or it begins the
/// retry or the single stage; the retry limits never change.
pub open spec fn step_of(items: Seq<GlobalBatchItem>, before: BatchRun, after: BatchRun, r: RunStep) -> bool {
    &&& after.retry_size == before.retry_size
    &&& after.retry_chars == before.retry_chars
    &&& {
        ||| r is Done && after == before
        ||| continues(before, after, r)
        ||| starts_retry(items, before, after, r)
        ||| starts_single(before, after, r)
    }
}

/// In the retry stage every batch fits the retry limits.
pub open spec fn retry_fits(items: Seq<GlobalBatchItem>, run: BatchRun) -> bool {
    run.phase == RunPhase::Retry ==> forall|k: int|
        0 <= k < run.batches@.len() ==> fits(
            items,
            #[trigger] run.batches@[k]@,
            run.retry_size as nat,
            run.retry_chars as nat,
        )
}

/// Half the batch size, at least one item.
pub open spec fn half_size(batch_size: u32) -> nat {
    if batch_size / 2 > 1 {
        (batch_size / 2) as nat
    } else {
        1
    }
}

/// Half the byte limit, at least a hundred bytes.
pub open spec fn half_chars(max_chars: u32) -> nat {
    if max_chars / 2 > 100 {
        (max_chars / 2) as nat
    } else {
        100
    }
}

/// The retry ladder: a run started with `batch_size` and `max_chars` (see
/// `BatchRun::start`, whose run meets `retry_fits`) keeps every batch of its
/// retry stage within half of both limits (at least one item and a hundred
/// bytes; a single item may exceed the byte limit), step after step; the
/// single stage hands out one item at a time.
pub proof fn law_retry_ladder(
    items: Seq<GlobalBatchItem>,
    before: BatchRun,
    after: BatchRun,
    r: RunStep,
    batch_size: u32,
    max_chars: u32,
)
    requires
        before.wf(),
        after.wf(),
        before.retry_size == half_size(batch_size),
        before.retry_chars == half_chars(max_chars),
        retry_fits(items, before),
        step_of(items, before, after, r),
    ensures
        after.retry_size == half_size(batch_size),
        after.retry_chars == half_chars(max_chars),
        retry_fits(items, after),
        after.phase == RunPhase::Retry && r is Batch ==> fits(
            items,
            r->Batch_0@,
            half_size(batch_size),
            half_chars(max_chars),
        ),
        after.phase == RunPhase::Single && !(r is Done) ==> r is Single,
{
    if starts_retry(items, before, after, r) {
        assert forall|k: int| 0 <= k < after.batches@.len() implies fits(
            items,
            #[trigger] after.batches@[k]@,
            after.retry_size as nat,
            after.retry_chars as nat,
        ) by {
            assert(index_batches(after.batches@)[k] == after.batches@[k]@);
        }
    }
    if after.phase == RunPhase::Retry && r is Batch {
        if continues(before, after, r) {
            assert(retry_fits(items, before));
            let k = before.next as int;
            assert(fits(items, before.batches@[k]@, before.retry_size as nat, before.retry_chars as nat));
        } else if starts_retry(items, before, after, r) {
            assert(fits(items, after.batches@[0]@, after.retry_size as nat, after.retry_chars as nat));
        }
    }
}

/// What reporting a batch keeps of a run: its stage, its batches and its
/// retry limits (see `BatchRun::batch_done` and `BatchRun::single_done`).
pub open spec fn same_plan(a: BatchRun, b: BatchRun) -> bool {
    &&& b.phase == a.phase
    &&& b.batches@ == a.batches@
    &&& b.retry_size == a.retry_size
    &&& b.retry_chars == a.retry_chars
    &&& b.wf()
}

proof fn lemma_run_retry_fits(
    items: Seq<GlobalBatchItem>,
    runs: Seq<BatchRun>,
    mids: Seq<BatchRun>,
    steps: Seq<RunStep>,
    batch_size: u32,
    max_chars: u32,
    k: int,
)
    requires
        runs.len() == steps.len() + 1,
        mids.len() == steps.len(),
        runs[0].wf(),
        runs[0].retry_size == half_size(batch_size),
        runs[0].retry_chars == half_chars(max_chars),
        retry_fits(items, runs[0]),
        forall|j: int| 0 <= j < steps.len() ==> (#[trigger] mids[j]).wf() && step_of(items, runs[j], mids[j], steps[j])
            && same_plan(mids[j], runs[j + 1]),
        0 <= k < runs.len(),
    ensures
        runs[k].wf(),
        runs[k].retry_size == half_size(batch_size),
        runs[k].retry_chars == half_chars(max_chars),
        retry_fits(items, runs[k]),
    decreases k,
{
    if k > 0 {
        lemma_run_retry_fits(items, runs, mids, steps, batch_size, max_chars, k - 1);
        let j = k - 1;
        assert(mids[j].wf() && step_of(items, runs[j], mids[j], steps[j]) && same_plan(mids[j], runs[j + 1]));
        law_retry_ladder(items, runs[j], mids[j], steps[j], batch_size, max_chars);
    }
}

/// The retry ladder over a whole run: a run started with `batch_size` and
/// `max_chars` (see `BatchRun::start`) that takes steps (see `step_of`) and
/// reports between them (see `same_plan`) sends, in its retry stage, only
/// batches within half of both limits (at least one item and a hundred
/// bytes; a single item may exceed the byte limit), and in its single stage
/// one item at a time.
pub proof fn law_retry_ladder_run(
    items: Seq<GlobalBatchItem>,
    runs: Seq<BatchRun>,
    mids: Seq<BatchRun>,
    steps: Seq<RunStep>,
    batch_size: u32,
    max_chars: u32,
)
    requires
        runs.len() == steps.len() + 1,
        mids.len() == steps.len(),
        runs[0].wf(),
        runs[0].phase == RunPhase::Initial,
        runs[0].retry_size == half_size(batch_size),
        runs[0].retry_chars == half_chars(max_chars),
        forall|j: int| 0 <= j < steps.len() ==> (#[trigger] mids[j]).wf() && step_of(items, runs[j], mids[j], steps[j])
            && same_plan(mids[j], runs[j + 1]),
    ensures
        forall|j: int|
            0 <= j < steps.len() && mids[j].phase == RunPhase::Retry && #[trigger] steps[j] is Batch ==> fits(
                items,
                steps[j]->Batch_0@,
                half_size(batch_size),
                half_chars(max_chars),
            ),
        forall|j: int| 0 <= j < steps.len() && mids[j].phase == RunPhase::Single && !(#[trigger] steps[j] is Done) ==> steps[j] is Single,
{
    assert forall|j: int| 0 <= j < steps.len() implies (mids[j].phase == RunPhase::Retry && #[trigger] steps[j] is Batch
        ==> fits(items, steps[j]->Batch_0@, half_size(batch_size), half_chars(max_chars))) && (mids[j].phase
        == RunPhase::Single && !(steps[j] is Done) ==> steps[j] is Single) by {
        lemma_run_retry_fits(items, runs, mids, steps, batch_size, max_chars, j);
        assert(mids[j].wf() && step_of(items, runs[j], mids[j], steps[j]) && same_plan(mids[j], runs[j + 1]));
        law_retry_ladder(items, runs[j], mids[j], steps[j], batch_size, max_chars);
    }
}

/// Cuts `indices` into batches, each of whose indices refers to an item.
fn cut(items: &[GlobalBatchItem], indices: &[usize], size: u32, chars: u32) -> (r: Vec<Vec<usize>>)
    requires
        all_below(indices@, items@.len()),
        texts_fit(items@),
    ensures
        greedy_batches(items@, indices@, size as nat, chars as nat, index_batches(r@)),
        forall|k: int| 0 <= k < r@.len() ==> all_below(#[trigger] r@[k]@, items@.len()),
{
    let r = create_adaptive_batches_from_indices(items, indices, size, chars);
    proof {
        let bs = index_batches(r@);
        assert forall|k: int| 0 <= k < r@.len() implies all_below(#[trigger] r@[k]@, items@.len()) by {
            assert forall|j: int| 0 <= j < r@[k]@.len() implies (#[trigger] r@[k]@[j]) < items@.len() by {
                assert(bs[k] == r@[k]@);
                lemma_concat_contains(bs, k, j);
                let w = choose|w: int| 0 <= w < concat(bs).len() && concat(bs)[w] == bs[k][j];
                assert(indices@[w] == r@[k]@[j]);
            }
        }
    }
    r
}

/// Each index of a batch appears in the batches one after the other.
proof fn lemma_concat_contains(bs: Seq<Seq<usize>>, k: int, j: int)
    requires
        0 <= k < bs.len(),
        0 <= j < bs[k].len(),
    ensures
        exists|w: int| 0 <= w < concat(bs).len() && concat(bs)[w] == bs[k][j],
    decreases bs.len(),
{
    let c = concat(bs.drop_last());
    assert(concat(bs) == c + bs.last());
    if k == bs.len() - 1 {
        assert(concat(bs)[c.len() + j] == bs[k][j]);
    } else {
        assert(bs.drop_last()[k] == bs[k]);
        lemma_concat_contains(bs.drop_last(), k, j);
        let w = choose|w: int| 0 <= w < c.len() && c[w] == bs[k][j];
        assert(concat(bs)[w] == c[w]);
    }
}

/// Batches with no batch have no items.
proof fn lemma_concat_nonempty(bs: Seq<Seq<usize>>)
    requires
        concat(bs).len() > 0,
    ensures
        bs.len() > 0,
{
}

/// The untranslated items of a batch are among its items.
proof fn lemma_untranslated_below(items: Seq<GlobalBatchItem>, batch: Seq<usize>)
    requires
        all_below(batch, items.len()),
    ensures
        all_below(untranslated_of(items, batch), items.len()),
    decreases batch.len(),
{
    if batch.len() > 0 {
        lemma_untranslated_below(items, batch.drop_last());
    }
}

} // verus!

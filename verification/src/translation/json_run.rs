//! The decisions of translating the strings of one JSON file. Its distinct
//! texts go to the translation service in batches where that pays; the
//! texts that did not come back are then sent one at a time; every
//! translation is recorded under each key whose text it is. The caller
//! performs each step (the calls to the service, the waiting while paused)
//! and reports back.
use vstd::prelude::*;
use crate::text::{chars_of, chars_eq_str, dedup, lemma_dedup_contains, lemma_dedup_no_duplicates, starts_with_str};
use crate::translation::batching::{contains_string, strings_view};
use crate::translation::glossary::mc_lang::{lang_view, LangMap};
use crate::translation::job::JobConfig;
use crate::file::plan::opt_view;

verus! {

/// The texts of the pending `(text, key)` items, in order.
pub open spec fn texts_of(pending: LangMap) -> Seq<Seq<char>> {
    pending.map_values(|p: (Seq<char>, Seq<char>)| p.0)
}

/// The distinct texts of the pending items, in order of first occurrence.
pub open spec fn distinct_texts(pending: LangMap) -> Seq<Seq<char>> {
    dedup(texts_of(pending))
}

/// The `(key, translation)` records that a translation `t` of the text
/// `orig` makes: one for each pending item with that text, in order.
pub open spec fn records_for(pending: LangMap, orig: Seq<char>, t: Seq<char>) -> LangMap
    decreases pending.len(),
{
    if pending.len() == 0 {
        Seq::empty()
    } else if pending.last().0 == orig {
        records_for(pending.drop_last(), orig, t).push((pending.last().1, t))
    } else {
        records_for(pending.drop_last(), orig, t)
    }
}

/// Whether the texts go to the service in batches first: the service is
/// Ollama or an API key is set, there is more than one distinct text, and
/// the batch size is above one.
pub open spec fn spec_uses_batches(provider: Seq<char>, api_key: Seq<char>, distinct: nat, batch_size: nat) -> bool {
    (provider == "Ollama"@ || api_key.len() > 0) && distinct > 1 && batch_size > 1
}

/// An error message that ends the whole file when a batch fails: a time-out,
/// an error of the service, of the network, of the answer, or a provider
/// that is not supported.
pub open spec fn spec_batch_error_is_fatal(msg: Seq<char>) -> bool {
    ||| "TIMEOUT:"@.is_prefix_of(msg)
    ||| "API_ERROR:"@.is_prefix_of(msg)
    ||| "NETWORK_ERROR:"@.is_prefix_of(msg)
    ||| "PARSE_ERROR:"@.is_prefix_of(msg)
    ||| "UNSUPPORTED:"@.is_prefix_of(msg)
}

/// An error message that ends the whole file when a single text fails: a
/// time-out.
pub open spec fn spec_single_error_is_fatal(msg: Seq<char>) -> bool {
    "TIMEOUT:"@.is_prefix_of(msg)
}

/// The distinct texts of the pending `(text, key)` items, in order of first
/// occurrence.
pub fn distinct_pending_texts(pending: &[(String, String)]) -> (r: Vec<String>)
    ensures
        strings_view(r@) == distinct_texts(lang_view(pending@)),
{
    let mut texts: Vec<String> = Vec::new();
    let mut i: usize = 0;
    let ghost all = texts_of(lang_view(pending@));
    assert(all.take(0) =~= Seq::<Seq<char>>::empty());
    while i < pending.len()
        invariant
            i <= pending@.len(),
            all == texts_of(lang_view(pending@)),
            strings_view(texts@) == dedup(all.take(i as int)),
        decreases pending.len() - i,
    {
        let t = &pending[i].0;
        let ghost prev = all.take(i as int);
        proof {
            assert(all.take(i + 1) =~= prev.push(t@));
            assert(prev.push(t@).drop_last() =~= prev);
            lemma_dedup_contains(prev, t@);
        }
        let found = contains_string(&texts, t);
        if !found {
            let ghost before = strings_view(texts@);
            texts.push(t.clone());
            assert(strings_view(texts@) =~= before.push(t@));
        }
        i = i + 1;
    }
    assert(all.take(pending@.len() as int) =~= all);
    texts
}

/// Whether the texts go to the service in batches first (see
/// `spec_uses_batches`).
pub fn uses_batches(config: &JobConfig, distinct: usize) -> (r: bool)
    ensures
        r == spec_uses_batches(config.api_provider@, config.api_key@, distinct as nat, config.batch_size as nat),
{
    let provider = chars_of(config.api_provider.as_str());
    let key = chars_of(config.api_key.as_str());
    (chars_eq_str(&provider, "Ollama") || key.len() > 0) && distinct > 1 && config.batch_size > 1
}

/// Whether a failed batch ends the whole file (see `spec_batch_error_is_fatal`).
pub fn batch_error_is_fatal(msg: &str) -> (r: bool)
    ensures
        r == spec_batch_error_is_fatal(msg@),
{
    let m = chars_of(msg);
    starts_with_str(&m, "TIMEOUT:") || starts_with_str(&m, "API_ERROR:") || starts_with_str(&m, "NETWORK_ERROR:")
        || starts_with_str(&m, "PARSE_ERROR:") || starts_with_str(&m, "UNSUPPORTED:")
}

/// Whether a failed single text ends the whole file (see
/// `spec_single_error_is_fatal`).
pub fn single_error_is_fatal(msg: &str) -> (r: bool)
    ensures
        r == spec_single_error_is_fatal(msg@),
{
    let m = chars_of(msg);
    starts_with_str(&m, "TIMEOUT:")
}

/// Appends the records that the translation `t` of `orig` makes (see
/// `records_for`).
fn record(translations: &mut Vec<(String, String)>, pending: &[(String, String)], orig: &String, t: &String)
    ensures
        lang_view(final(translations)@) == lang_view(old(translations)@) + records_for(lang_view(pending@), orig@, t@),
{
    let ghost before = lang_view(translations@);
    let mut i: usize = 0;
    assert(lang_view(pending@).take(0) =~= Seq::<(Seq<char>, Seq<char>)>::empty());
    while i < pending.len()
        invariant
            i <= pending@.len(),
            lang_view(translations@) == before + records_for(lang_view(pending@).take(i as int), orig@, t@),
        decreases pending.len() - i,
    {
        let ghost pv = lang_view(pending@);
        assert(pv.take(i + 1).drop_last() =~= pv.take(i as int));
        assert(pv.take(i + 1).last() == pv[i as int]);
        if pending[i].0 == *orig {
            let ghost mid = lang_view(translations@);
            translations.push((pending[i].1.clone(), t.clone()));
            assert(lang_view(translations@) =~= mid.push((pending@[i as int].1@, t@)));
        }
        i = i + 1;
    }
    assert(lang_view(pending@).take(pending@.len() as int) =~= lang_view(pending@));
}

/// The stage a run is in.
#[derive(Clone, Copy, Debug, PartialEq, Eq, Structural)]
pub enum JsonPhase {
    /// The distinct texts, in batches.
    Batches,
    /// The texts still without a translation, one at a time.
    Singles,
    /// Nothing is left to do.
    Finished,
}

/// What the caller does next.
#[derive(Debug)]
pub enum JsonStep {
    /// Send these texts to the service as one batch, then report with
    /// `JsonRun::batch_done`.
    Batch(Vec<String>),
    /// Translate this text on its own, then report with
    /// `JsonRun::single_done`.
    Single(String),
    /// Nothing is left to do.
    Done,
}

/// How a batch came back.
pub enum BatchReply {
    /// The service answered: for each text of the batch, in order, its
    /// finished translation where the answer held one.
    Answered(Vec<Option<String>>),
    /// The call failed with this message.
    Failed(String),
}

/// How a single text came back.
pub enum SingleReply {
    /// Its finished translation.
    Translated(String),
    /// The answer repeated itself and was dropped.
    Rejected,
    /// The call failed with this message.
    Failed(String),
}

/// What the check after a step found: go on, the run was cancelled (leave
/// the current stage), or it was cancelled while paused (stop at once).
#[derive(Clone, Copy, Debug, PartialEq, Eq, Structural)]
pub enum StepEnd {
    Go,
    Break,
    Stop,
}

/// What the run has to report in its log.
#[derive(Debug)]
pub enum JsonNote {
    /// A batch failed, not fatally.
    BatchError(String),
    /// A single text failed, not fatally.
    SingleFailed(String),
    /// A single text's answer repeated itself.
    LoopDetected,
}

/// The translation of each distinct text so far, as characters.
pub open spec fn results_view(r: Seq<Option<String>>) -> Seq<Option<Seq<char>>> {
    r.map_values(|o: Option<String>| opt_view(o))
}

/// How many of the results from position `p` on are still missing.
pub open spec fn open_from(r: Seq<Option<String>>, p: int) -> nat
    decreases r.len() - p,
{
    if p < 0 || p >= r.len() {
        0
    } else if r[p] is None {
        1 + open_from(r, p + 1)
    } else {
        open_from(r, p + 1)
    }
}

/// The first position from `p` on whose result is missing, or the length.
pub open spec fn first_open(r: Seq<Option<String>>, p: int) -> int
    decreases r.len() - p,
{
    if p < 0 || p >= r.len() {
        r.len() as int
    } else if r[p] is None {
        p
    } else {
        first_open(r, p + 1)
    }
}

/// The answer for position `p` of a batch, if the answer has one.
pub open spec fn answer_at(a: Seq<Option<String>>, p: int) -> Option<Seq<char>> {
    if 0 <= p < a.len() {
        opt_view(a[p])
    } else {
        None
    }
}

/// The records that the first `len` answers of a batch starting at text
/// `start` make, in order.
pub open spec fn batch_records(pending: LangMap, texts: Seq<Seq<char>>, a: Seq<Option<String>>, start: int, len: nat) -> LangMap
    decreases len,
{
    if len == 0 {
        Seq::empty()
    } else {
        let prev = batch_records(pending, texts, a, start, (len - 1) as nat);
        match answer_at(a, len - 1) {
            Some(t) => prev + records_for(pending, texts[start + len - 1], t),
            None => prev,
        }
    }
}

/// How many of the first `len` answers of a batch hold a translation.
pub open spec fn answered_count(a: Seq<Option<String>>, len: nat) -> nat
    decreases len,
{
    if len == 0 {
        0
    } else {
        answered_count(a, (len - 1) as nat) + if answer_at(a, len - 1) is Some { 1nat } else { 0nat }
    }
}

/// The results after a batch of `len` texts from `start` came back.
pub open spec fn batch_results(r: Seq<Option<Seq<char>>>, a: Seq<Option<String>>, start: int, len: nat) -> Seq<Option<Seq<char>>> {
    Seq::new(r.len(), |j: int| if start <= j < start + len && answer_at(a, j - start) is Some {
        answer_at(a, j - start)
    } else {
        r[j]
    })
}

/// The run over the strings of one file.
pub struct JsonRun {
    /// The `(text, key)` items to translate.
    pub pending: Vec<(String, String)>,
    /// Their distinct texts, in order of first occurrence.
    pub texts: Vec<String>,
    /// The batch size.
    pub size: usize,
    /// The current stage.
    pub phase: JsonPhase,
    /// The first text of the next batch, or the next text to look at alone.
    pub pos: usize,
    /// How many batches came back.
    pub batch_index: usize,
    /// How many batches the distinct texts make.
    pub batch_total: usize,
    /// The translation of each distinct text, where there is one.
    pub results: Vec<Option<String>>,
    /// The `(key, translation)` records, in the order they were made.
    pub translations: Vec<(String, String)>,
    /// How many texts were dealt with (the progress shown).
    pub counter: usize,
    /// What the log reports.
    pub notes: Vec<JsonNote>,
    /// The message of the error that ended the run, if one did.
    pub error: Option<String>,
}

impl JsonRun {
    /// The number of distinct texts.
    pub open spec fn total(self) -> nat {
        self.texts@.len()
    }

    /// The last text (exclusive) of the batch starting at `pos`.
    pub open spec fn batch_end(self) -> int {
        if self.pos + self.size <= self.total() {
            self.pos + self.size
        } else {
            self.total() as int
        }
    }

    /// A measure that every report lowers and nothing raises.
    pub open spec fn measure(self) -> nat {
        match self.phase {
            JsonPhase::Batches => (2 * self.total() + 1 - self.pos) as nat,
            JsonPhase::Singles => (self.total() - self.pos) as nat,
            JsonPhase::Finished => 0,
        }
    }

    /// The texts are the distinct texts of the items, every text has one
    /// result slot, the progress never passes the number of texts, and in
    /// the batch stage no text from `pos` on has a result yet.
    pub open spec fn wf(self) -> bool {
        &&& strings_view(self.texts@) == distinct_texts(lang_view(self.pending@))
        &&& self.results@.len() == self.total()
        &&& self.pos <= self.total()
        &&& self.size >= 1
        &&& self.batch_index <= self.total()
        &&& self.counter <= self.total()
        &&& self.phase is Batches ==> {
            &&& self.batch_index <= self.pos
            &&& forall|j: int| self.pos <= j < self.total() ==> (#[trigger] self.results@[j]) is None
            &&& self.counter + open_from(self.results@, 0) <= self.total()
        }
        &&& self.phase is Singles ==> self.counter + open_from(self.results@, self.pos as int) <= self.total()
    }

    /// A run over the pending `(text, key)` items. With nothing pending
    /// it is finished at once; where `spec_uses_batches` holds it starts
    /// with batches of the configured size, else with single texts.
    pub fn new(pending: Vec<(String, String)>, config: &JobConfig) -> (r: Self)
        ensures
            r.wf(),
            r.pending@ == pending@,
            strings_view(r.texts@) == distinct_texts(lang_view(pending@)),
            r.phase == (if pending@.len() == 0 {
                JsonPhase::Finished
            } else if spec_uses_batches(config.api_provider@, config.api_key@, r.total(), config.batch_size as nat) {
                JsonPhase::Batches
            } else {
                JsonPhase::Singles
            }),
            r.size == (if r.phase is Batches { config.batch_size as usize } else { 1 }),
            r.pos == 0,
            r.batch_index == 0,
            r.batch_total == r.total() / (r.size as nat) + if r.total() % (r.size as nat) == 0 { 0nat } else { 1nat },
            forall|j: int| 0 <= j < r.total() ==> (#[trigger] r.results@[j]) is None,
            r.translations@.len() == 0,
            r.counter == 0,
            r.notes@.len() == 0,
            r.error is None,
            r.matched(),
    {
        let texts = distinct_pending_texts(pending.as_slice());
        let n = texts.len();
        let mut results: Vec<Option<String>> = Vec::new();
        let mut i: usize = 0;
        while i < n
            invariant
                i <= n,
                results@.len() == i,
                forall|j: int| 0 <= j < i ==> (#[trigger] results@[j]) is None,
            decreases n - i,
        {
            results.push(None);
            i = i + 1;
        }
        proof {
            lemma_open_all(results@, 0);
            lemma_open_bound(results@, 0);
        }
        let batches = uses_batches(config, n);
        let phase = if pending.len() == 0 {
            JsonPhase::Finished
        } else if batches {
            JsonPhase::Batches
        } else {
            JsonPhase::Singles
        };
        let size: usize = if batches {
            config.batch_size as usize
        } else {
            1
        };
        assert(n % size != 0 ==> n / size < n) by (nonlinear_arith)
            requires
                size >= 1,
        ;
        let batch_total = n / size + if n % size == 0 {
            0
        } else {
            1
        };
        JsonRun {
            pending,
            texts,
            size,
            phase,
            pos: 0,
            batch_index: 0,
            batch_total,
            results,
            translations: Vec::new(),
            counter: 0,
            notes: Vec::new(),
            error: None,
        }
    }
}

impl JsonRun {
    /// The next step. In the batch stage the batch from `pos` (at most
    /// `size` texts) is handed out; when the batches are through, the single
    /// stage begins at the first text still without a translation. In the
    /// single stage that text is handed out. The run is done when no text is
    /// left without a translation, or when it was finished.
    pub fn next_step(&mut self) -> (r: JsonStep)
        requires
            old(self).wf(),
        ensures
            final(self).wf(),
            final(self).measure() <= old(self).measure(),
            old(self).matched() ==> final(self).matched(),
            r is Done <==> final(self).phase is Finished,
            old(self).phase is Finished ==> *final(self) == *old(self),
            old(self).phase is Batches && old(self).pos < old(self).total() ==> {
                &&& *final(self) == *old(self)
                &&& r matches JsonStep::Batch(b) && strings_view(b@) == strings_view(old(self).texts@).subrange(
                    old(self).pos as int,
                    old(self).batch_end(),
                )
            },
            old(self).phase is Batches && old(self).pos == old(self).total() ==> enters_singles(*old(self), *final(self), 0, r),
            old(self).phase is Singles ==> enters_singles(*old(self), *final(self), old(self).pos as int, r),
    {
        match self.phase {
            JsonPhase::Finished => JsonStep::Done,
            JsonPhase::Batches => {
                if self.pos < self.texts.len() {
                    let end = self.end_of_batch();
                    let mut b: Vec<String> = Vec::new();
                    let mut i = self.pos;
                    while i < end
                        invariant
                            self.pos <= i <= end,
                            end <= self.texts@.len(),
                            strings_view(b@) == strings_view(self.texts@).subrange(self.pos as int, i as int),
                        decreases end - i,
                    {
                        let ghost before = strings_view(b@);
                        b.push(self.texts[i].clone());
                        assert(strings_view(b@) =~= before.push(self.texts@[i as int]@));
                        assert(strings_view(b@) =~= strings_view(self.texts@).subrange(self.pos as int, i + 1));
                        i = i + 1;
                    }
                    JsonStep::Batch(b)
                } else {
                    self.enter_singles(0)
                }
            },
            JsonPhase::Singles => {
                let p = self.pos;
                self.enter_singles(p)
            },
        }
    }

    /// The end of the batch from `pos` (see `batch_end`).
    fn end_of_batch(&self) -> (e: usize)
        requires
            self.wf(),
        ensures
            e == self.batch_end(),
            self.pos < e || self.pos == self.total(),
    {
        if self.size <= self.texts.len() - self.pos {
            self.pos + self.size
        } else {
            self.texts.len()
        }
    }

    /// Moves to the first text from `p` on still without a translation and
    /// hands it out alone, or finishes when there is none.
    fn enter_singles(&mut self, p: usize) -> (r: JsonStep)
        requires
            old(self).wf(),
            p <= old(self).total(),
            !(old(self).phase is Finished),
            old(self).phase is Batches ==> p == 0 && old(self).pos == old(self).total(),
            old(self).phase is Singles ==> p == old(self).pos,
        ensures
            final(self).wf(),
            final(self).measure() <= old(self).measure(),
            r is Done <==> final(self).phase is Finished,
            enters_singles(*old(self), *final(self), p as int, r),
    {
        let mut q = p;
        while q < self.results.len() && self.results[q].is_some()
            invariant
                self.wf(),
                p <= q <= self.total(),
                first_open(self.results@, p as int) == first_open(self.results@, q as int),
                open_from(self.results@, p as int) == open_from(self.results@, q as int),
            decreases self.total() - q,
        {
            q = q + 1;
        }
        proof {
            lemma_open_bound(self.results@, q as int);
            lemma_first_open(self.results@, p as int);
        }
        if q < self.texts.len() {
            self.phase = JsonPhase::Singles;
            self.pos = q;
            JsonStep::Single(self.texts[q].clone())
        } else {
            self.phase = JsonPhase::Finished;
            self.pos = q;
            JsonStep::Done
        }
    }
}

impl JsonRun {
    /// Records how the batch from `pos` came back. When the service
    /// answered, each text of the batch with a translation gets it, its
    /// records are made, and the progress counts it. When the call failed
    /// with a fatal message (see `spec_batch_error_is_fatal`) the run ends
    /// with that error; otherwise the failure is noted. Either way but the
    /// fatal one, the next batch starts after this one.
    pub fn batch_done(&mut self, reply: BatchReply) -> (fatal: bool)
        requires
            old(self).wf(),
            old(self).phase is Batches,
            old(self).pos < old(self).total(),
        ensures
            final(self).wf(),
            final(self).measure() < old(self).measure(),
            old(self).matched() ==> final(self).matched(),
            fatal <==> final(self).phase is Finished,
            match reply {
                BatchReply::Answered(a) => !fatal && batch_answered(*old(self), *final(self), a@),
                BatchReply::Failed(m) => fatal == spec_batch_error_is_fatal(m@) && if fatal {
                    ended_with(*old(self), *final(self), m)
                } else {
                    batch_failed(*old(self), *final(self), m)
                },
            },
    {
        let start = self.pos;
        let end = self.end_of_batch();
        match reply {
            BatchReply::Answered(answers) => {
                let ghost old_self = *self;
                let ghost len = (end - start) as nat;
                let n = self.texts.len();
                let mut p: usize = 0;
                while p < end - start
                    invariant
                        n == old_self.total(),
                        old_self.wf(),
                        start == old_self.pos,
                        end == old_self.batch_end(),
                        start < end <= old_self.total(),
                        p <= end - start,
                        self.pending == old_self.pending,
                        self.texts == old_self.texts,
                        self.size == old_self.size,
                        self.phase == old_self.phase,
                        self.pos == old_self.pos,
                        self.batch_index == old_self.batch_index,
                        self.batch_total == old_self.batch_total,
                        self.notes == old_self.notes,
                        self.error == old_self.error,
                        self.results@.len() == old_self.total(),
                        results_view(self.results@) == batch_results(results_view(old_self.results@), answers@, start as int, p as nat),
                        lang_view(self.translations@) == lang_view(old_self.translations@) + batch_records(
                            lang_view(old_self.pending@),
                            strings_view(old_self.texts@),
                            answers@,
                            start as int,
                            p as nat,
                        ),
                        self.counter == old_self.counter + answered_count(answers@, p as nat),
                        forall|j: int| start + p <= j < old_self.total() ==> (#[trigger] self.results@[j]) is None,
                        self.counter + open_from(self.results@, 0) <= old_self.total(),
                        old_self.matched() ==> self.matched(),
                    decreases end - start - p,
                {
                    let i = start + p;
                    let ghost rv = results_view(self.results@);
                    let ghost tv = lang_view(self.translations@);
                    proof {
                        lemma_open_bound(self.results@, 0);
                    }
                    if p < answers.len() {
                        match &answers[p] {
                            Some(t) => {
                                record(&mut self.translations, self.pending.as_slice(), &self.texts[i], t);
                                let ghost before = self.results@;
                                self.results.set(i, Some(t.clone()));
                                proof {
                                    lemma_open_fill(before, i as int, self.results@, 0);
                                    assert(results_view(self.results@) =~= results_view(before).update(i as int, Some(t@)));
                                    assert(strings_view(self.texts@)[i as int] == self.texts@[i as int]@);
                                    if old_self.matched() {
                                        lemma_resolve_matched(
                                            lang_view(self.pending@),
                                            strings_view(self.texts@),
                                            results_view(before),
                                            tv,
                                            i as int,
                                            t@,
                                        );
                                    }
                                }
                                self.counter = self.counter + 1;
                            },
                            None => {},
                        }
                    }
                    proof {
                        let nb = batch_results(results_view(old_self.results@), answers@, start as int, (p + 1) as nat);
                        let ob = batch_results(results_view(old_self.results@), answers@, start as int, p as nat);
                        assert forall|j: int| 0 <= j < n && j != i implies nb[j] == ob[j] by {}
                        assert(nb[i as int] == results_view(self.results@)[i as int]);
                        assert(results_view(self.results@) =~= batch_results(
                            results_view(old_self.results@),
                            answers@,
                            start as int,
                            (p + 1) as nat,
                        ));
                        assert(strings_view(old_self.texts@)[i as int] == old_self.texts@[i as int]@);
                    }
                    p = p + 1;
                }
                self.pos = end;
                self.batch_index = self.batch_index + 1;
                false
            },
            BatchReply::Failed(msg) => {
                if batch_error_is_fatal(msg.as_str()) {
                    self.phase = JsonPhase::Finished;
                    self.error = Some(msg);
                    true
                } else {
                    self.notes.push(JsonNote::BatchError(msg));
                    self.pos = end;
                    self.batch_index = self.batch_index + 1;
                    false
                }
            },
        }
    }
}

impl JsonRun {
    /// Records how the text at `pos` came back alone. A translation is
    /// recorded for each of its keys; a repeated answer or a failure is
    /// noted; a time-out (see `spec_single_error_is_fatal`) ends the run.
    /// But for the time-out, the progress counts the text and the run goes
    /// on after it.
    pub fn single_done(&mut self, reply: SingleReply) -> (fatal: bool)
        requires
            old(self).wf(),
            old(self).phase is Singles,
            old(self).pos < old(self).total(),
            old(self).results@[old(self).pos as int] is None,
        ensures
            final(self).wf(),
            final(self).measure() < old(self).measure(),
            old(self).matched() ==> final(self).matched(),
            fatal <==> final(self).phase is Finished,
            match reply {
                SingleReply::Translated(t) => !fatal && single_translated(*old(self), *final(self), t),
                SingleReply::Rejected => !fatal && single_noted(*old(self), *final(self), JsonNote::LoopDetected),
                SingleReply::Failed(m) => fatal == spec_single_error_is_fatal(m@) && if fatal {
                    ended_with(*old(self), *final(self), m)
                } else {
                    single_noted(*old(self), *final(self), JsonNote::SingleFailed(m))
                },
            },
    {
        let i = self.pos;
        let _n = self.texts.len();
        proof {
            lemma_open_bound(self.results@, i + 1);
        }
        match reply {
            SingleReply::Translated(t) => {
                let ghost tv = lang_view(self.translations@);
                record(&mut self.translations, self.pending.as_slice(), &self.texts[i], &t);
                let ghost before = self.results@;
                let ghost tview = t@;
                self.results.set(i, Some(t));
                proof {
                    lemma_open_same(before, self.results@, i + 1);
                    assert(results_view(self.results@) =~= results_view(before).update(i as int, Some(tview)));
                    assert(strings_view(self.texts@)[i as int] == self.texts@[i as int]@);
                    if old(self).matched() {
                        lemma_resolve_matched(
                            lang_view(self.pending@),
                            strings_view(self.texts@),
                            results_view(before),
                            tv,
                            i as int,
                            tview,
                        );
                    }
                }
                self.counter = self.counter + 1;
                self.pos = i + 1;
                false
            },
            SingleReply::Rejected => {
                self.notes.push(JsonNote::LoopDetected);
                self.counter = self.counter + 1;
                self.pos = i + 1;
                false
            },
            SingleReply::Failed(msg) => {
                if single_error_is_fatal(msg.as_str()) {
                    self.phase = JsonPhase::Finished;
                    self.error = Some(msg);
                    true
                } else {
                    self.notes.push(JsonNote::SingleFailed(msg));
                    self.counter = self.counter + 1;
                    self.pos = i + 1;
                    false
                }
            },
        }
    }

    /// Applies what the check after a step found: `Go` changes nothing;
    /// `Stop` finishes the run; `Break` leaves the current stage, from the
    /// batches to the single texts (from the first text on), from the
    /// single texts to the end.
    pub fn after_step(&mut self, end: StepEnd)
        requires
            old(self).wf(),
        ensures
            final(self).wf(),
            final(self).measure() <= old(self).measure(),
            old(self).matched() ==> final(self).matched(),
            final(self).pending == old(self).pending,
            final(self).texts == old(self).texts,
            final(self).size == old(self).size,
            final(self).batch_index == old(self).batch_index,
            final(self).batch_total == old(self).batch_total,
            final(self).results == old(self).results,
            final(self).translations == old(self).translations,
            final(self).counter == old(self).counter,
            final(self).notes == old(self).notes,
            final(self).error == old(self).error,
            end == StepEnd::Go ==> *final(self) == *old(self),
            end == StepEnd::Stop ==> final(self).phase is Finished && final(self).pos == old(self).pos,
            end == StepEnd::Break ==> if old(self).phase is Batches {
                final(self).phase is Singles && final(self).pos == 0
            } else {
                final(self).phase is Finished && final(self).pos == old(self).pos
            },
    {
        match end {
            StepEnd::Go => {},
            StepEnd::Stop => {
                self.phase = JsonPhase::Finished;
            },
            StepEnd::Break => {
                if self.phase == JsonPhase::Batches {
                    self.phase = JsonPhase::Singles;
                    self.pos = 0;
                } else {
                    self.phase = JsonPhase::Finished;
                }
            },
        }
    }
}

/// The text at `pos` got the translation `t`: its records are made, it
/// is counted, and the run goes on after it.
pub open spec fn single_translated(before: JsonRun, after: JsonRun, t: String) -> bool {
    &&& after.pending == before.pending
    &&& after.texts == before.texts
    &&& after.size == before.size
    &&& after.phase == before.phase
    &&& after.pos == before.pos + 1
    &&& after.batch_index == before.batch_index
    &&& after.batch_total == before.batch_total
    &&& after.results@ == before.results@.update(before.pos as int, Some(t))
    &&& lang_view(after.translations@) == lang_view(before.translations@) + records_for(
        lang_view(before.pending@),
        before.texts@[before.pos as int]@,
        t@,
    )
    &&& after.counter == before.counter + 1
    &&& after.notes == before.notes
    &&& after.error == before.error
}

/// The text at `pos` got no translation: the note is made, it is counted,
/// and the run goes on after it.
pub open spec fn single_noted(before: JsonRun, after: JsonRun, note: JsonNote) -> bool {
    &&& after.pending == before.pending
    &&& after.texts == before.texts
    &&& after.size == before.size
    &&& after.phase == before.phase
    &&& after.pos == before.pos + 1
    &&& after.batch_index == before.batch_index
    &&& after.batch_total == before.batch_total
    &&& after.results == before.results
    &&& after.translations == before.translations
    &&& after.counter == before.counter + 1
    &&& after.notes@ == before.notes@.push(note)
    &&& after.error == before.error
}

/// A batch came back answered: the texts of the batch with an answer get
/// it, their records are made in order, the progress counts them, and the
/// next batch starts after this one.
pub open spec fn batch_answered(before: JsonRun, after: JsonRun, a: Seq<Option<String>>) -> bool {
    let len = (before.batch_end() - before.pos) as nat;
    &&& after.pending == before.pending
    &&& after.texts == before.texts
    &&& after.size == before.size
    &&& after.phase == before.phase
    &&& after.pos == before.batch_end()
    &&& after.batch_index == before.batch_index + 1
    &&& after.batch_total == before.batch_total
    &&& results_view(after.results@) == batch_results(results_view(before.results@), a, before.pos as int, len)
    &&& lang_view(after.translations@) == lang_view(before.translations@) + batch_records(
        lang_view(before.pending@),
        strings_view(before.texts@),
        a,
        before.pos as int,
        len,
    )
    &&& after.counter == before.counter + answered_count(a, len)
    &&& after.notes == before.notes
    &&& after.error == before.error
}

/// A batch failed, not fatally: the failure is noted and the next batch
/// starts after this one.
pub open spec fn batch_failed(before: JsonRun, after: JsonRun, m: String) -> bool {
    &&& after.pending == before.pending
    &&& after.texts == before.texts
    &&& after.size == before.size
    &&& after.phase == before.phase
    &&& after.pos == before.batch_end()
    &&& after.batch_index == before.batch_index + 1
    &&& after.batch_total == before.batch_total
    &&& after.results == before.results
    &&& after.translations == before.translations
    &&& after.counter == before.counter
    &&& after.notes@ == before.notes@.push(JsonNote::BatchError(m))
    &&& after.error == before.error
}

/// The run ended with the error `m`; all else stays.
pub open spec fn ended_with(before: JsonRun, after: JsonRun, m: String) -> bool {
    &&& after.pending == before.pending
    &&& after.texts == before.texts
    &&& after.size == before.size
    &&& after.phase == JsonPhase::Finished
    &&& after.pos == before.pos
    &&& after.batch_index == before.batch_index
    &&& after.batch_total == before.batch_total
    &&& after.results == before.results
    &&& after.translations == before.translations
    &&& after.counter == before.counter
    &&& after.notes == before.notes
    &&& after.error == Some(m)
}

/// The single stage begins (or goes on) at the first text from `p` on
/// still without a translation, which is handed out; when there is none,
/// the run is finished. Nothing else changes.
pub open spec fn enters_singles(before: JsonRun, after: JsonRun, p: int, r: JsonStep) -> bool {
    let q = first_open(before.results@, p);
    &&& after.pending == before.pending
    &&& after.texts == before.texts
    &&& after.size == before.size
    &&& after.batch_index == before.batch_index
    &&& after.batch_total == before.batch_total
    &&& after.results == before.results
    &&& after.translations == before.translations
    &&& after.counter == before.counter
    &&& after.notes == before.notes
    &&& after.error == before.error
    &&& after.pos == q
    &&& forall|k: int| p <= k < q ==> (#[trigger] before.results@[k]) is Some
    &&& if q < before.total() {
        &&& before.results@[q] is None
        &&& after.phase == JsonPhase::Singles
        &&& r matches JsonStep::Single(t) && t@ == before.texts@[q]@
    } else {
        &&& after.phase == JsonPhase::Finished
        &&& r is Done
    }
}

/// The record is the key of an item and the translation of that item's
/// text.
pub open spec fn record_ok(
    pending: LangMap,
    texts: Seq<Seq<char>>,
    results: Seq<Option<Seq<char>>>,
    rec: (Seq<char>, Seq<char>),
) -> bool {
    exists|i: int, j: int|
        #![trigger pending[i], texts[j]]
        0 <= i < pending.len() && 0 <= j < texts.len() && pending[i].0 == texts[j] && pending[i].1 == rec.0
            && results[j] == Some(rec.1)
}

/// Each record is the key of an item and the translation of that item's
/// text.
pub open spec fn records_sound(
    pending: LangMap,
    texts: Seq<Seq<char>>,
    results: Seq<Option<Seq<char>>>,
    records: LangMap,
) -> bool {
    forall|a: int| 0 <= a < records.len() ==> record_ok(pending, texts, results, #[trigger] records[a])
}

/// Each item whose text has a translation has a record of it.
pub open spec fn records_complete(
    pending: LangMap,
    texts: Seq<Seq<char>>,
    results: Seq<Option<Seq<char>>>,
    records: LangMap,
) -> bool {
    forall|i: int, j: int|
        #![trigger pending[i], results[j]]
        0 <= i < pending.len() && 0 <= j < texts.len() && pending[i].0 == texts[j] && results[j] is Some
            ==> records.contains((pending[i].1, results[j].unwrap()))
}

/// The records are those of the translations found (see `records_sound`
/// and `records_complete`).
pub open spec fn records_match(
    pending: LangMap,
    texts: Seq<Seq<char>>,
    results: Seq<Option<Seq<char>>>,
    records: LangMap,
) -> bool {
    &&& records_sound(pending, texts, results, records)
    &&& records_complete(pending, texts, results, records)
}

impl JsonRun {
    /// The run's records are those of its translations (see `records_match`).
    pub open spec fn matched(self) -> bool {
        records_match(
            lang_view(self.pending@),
            strings_view(self.texts@),
            results_view(self.results@),
            lang_view(self.translations@),
        )
    }
}

/// Each record that a translation makes belongs to an item with that text.
proof fn lemma_records_for_sound(pending: LangMap, u: Seq<char>, t: Seq<char>, a: int)
    requires
        0 <= a < records_for(pending, u, t).len(),
    ensures
        exists|i: int|
            0 <= i < pending.len() && pending[i].0 == u && pending[i].1 == records_for(pending, u, t)[a].0
                && records_for(pending, u, t)[a].1 == t,
    decreases pending.len(),
{
    let prev = records_for(pending.drop_last(), u, t);
    if a < prev.len() {
        lemma_records_for_sound(pending.drop_last(), u, t, a);
        let i = choose|i: int|
            0 <= i < pending.drop_last().len() && pending.drop_last()[i].0 == u && pending.drop_last()[i].1 == prev[a].0
                && prev[a].1 == t;
        assert(pending[i] == pending.drop_last()[i]);
    } else {
        assert(pending[pending.len() - 1] == pending.last());
    }
}

/// Each item with the text gets a record of the translation.
proof fn lemma_records_for_complete(pending: LangMap, u: Seq<char>, t: Seq<char>, i: int)
    requires
        0 <= i < pending.len(),
        pending[i].0 == u,
    ensures
        records_for(pending, u, t).contains((pending[i].1, t)),
    decreases pending.len(),
{
    let prev = records_for(pending.drop_last(), u, t);
    let cur = records_for(pending, u, t);
    if i < pending.len() - 1 {
        assert(pending.drop_last()[i] == pending[i]);
        lemma_records_for_complete(pending.drop_last(), u, t, i);
        let a = choose|a: int| 0 <= a < prev.len() && prev[a] == (pending[i].1, t);
        if pending.last().0 == u {
            assert(cur[a] == prev[a]);
        }
    } else {
        assert(cur[prev.len() as int] == (pending[i].1, t));
    }
}

/// Finding the translation `t` of the text at `j`, which had none, and
/// making its records keeps the records matched.
proof fn lemma_resolve_matched(
    pending: LangMap,
    texts: Seq<Seq<char>>,
    results: Seq<Option<Seq<char>>>,
    records: LangMap,
    j: int,
    t: Seq<char>,
)
    requires
        records_match(pending, texts, results, records),
        results.len() == texts.len(),
        0 <= j < texts.len(),
        results[j] is None,
    ensures
        records_match(pending, texts, results.update(j, Some(t)), records + records_for(pending, texts[j], t)),
{
    let r2 = results.update(j, Some(t));
    let new = records_for(pending, texts[j], t);
    let l2 = records + new;
    assert forall|a: int| 0 <= a < l2.len() implies record_ok(pending, texts, r2, #[trigger] l2[a]) by {
        if a < records.len() {
            assert(l2[a] == records[a]);
            assert(record_ok(pending, texts, results, records[a]));
            let (i, k) = choose|i: int, k: int|
                #![trigger pending[i], texts[k]]
                0 <= i < pending.len() && 0 <= k < texts.len() && pending[i].0 == texts[k] && pending[i].1
                    == records[a].0 && results[k] == Some(records[a].1);
            assert(k != j);
            assert(r2[k] == results[k]);
        } else {
            let b = a - records.len();
            assert(l2[a] == new[b]);
            lemma_records_for_sound(pending, texts[j], t, b);
            let i = choose|i: int|
                0 <= i < pending.len() && pending[i].0 == texts[j] && pending[i].1 == new[b].0 && new[b].1 == t;
            assert(pending[i].0 == texts[j]);
            assert(r2[j] == Some(t));
        }
    }
    assert forall|i: int, k: int|
        #![trigger pending[i], r2[k]]
        0 <= i < pending.len() && 0 <= k < texts.len() && pending[i].0 == texts[k] && r2[k] is Some
            implies l2.contains((pending[i].1, r2[k].unwrap())) by {
        if k == j {
            lemma_records_for_complete(pending, texts[j], t, i);
            let b = choose|b: int| 0 <= b < new.len() && new[b] == (pending[i].1, t);
            assert(l2[records.len() + b] == new[b]);
        } else {
            assert(r2[k] == results[k]);
            assert(records.contains((pending[i].1, results[k].unwrap())));
            let a = choose|a: int| 0 <= a < records.len() && records[a] == (pending[i].1, results[k].unwrap());
            assert(l2[a] == records[a]);
        }
    }
    assert(records_sound(pending, texts, r2, l2));
    assert(records_complete(pending, texts, r2, l2));
}

/// The distinct texts hold each pending text once and nothing else.
pub proof fn law_distinct_texts(pending: LangMap)
    ensures
        distinct_texts(pending).no_duplicates(),
        forall|i: int| 0 <= i < pending.len() ==> distinct_texts(pending).contains(#[trigger] pending[i].0),
        forall|t: Seq<char>| #[trigger] distinct_texts(pending).contains(t) ==> texts_of(pending).contains(t),
{
    lemma_dedup_no_duplicates(texts_of(pending));
    assert forall|i: int| 0 <= i < pending.len() implies distinct_texts(pending).contains(#[trigger] pending[i].0) by {
        lemma_dedup_contains(texts_of(pending), pending[i].0);
        assert(texts_of(pending)[i] == pending[i].0);
    }
    assert forall|t: Seq<char>| #[trigger] distinct_texts(pending).contains(t) implies texts_of(pending).contains(t) by {
        lemma_dedup_contains(texts_of(pending), t);
    }
}

/// The progress shown never passes the number of distinct texts.
pub proof fn law_progress_within_total(run: JsonRun)
    requires
        run.wf(),
    ensures
        run.counter <= run.total(),
{
}

/// Each missing result from `p` on is counted.
proof fn lemma_open_all(r: Seq<Option<String>>, p: int)
    requires
        0 <= p <= r.len(),
        forall|j: int| p <= j < r.len() ==> (#[trigger] r[j]) is None,
    ensures
        open_from(r, p) == r.len() - p,
    decreases r.len() - p,
{
    if p < r.len() {
        lemma_open_all(r, p + 1);
    }
}

/// Filling a missing result at `j` (from `p` on) leaves one fewer missing.
proof fn lemma_open_fill(r: Seq<Option<String>>, j: int, r2: Seq<Option<String>>, p: int)
    requires
        0 <= p <= j < r.len(),
        r[j] is None,
        r2.len() == r.len(),
        r2[j] is Some,
        forall|k: int| 0 <= k < r.len() && k != j ==> r2[k] == r[k],
    ensures
        open_from(r2, p) + 1 == open_from(r, p),
    decreases j - p,
{
    if p < j {
        lemma_open_fill(r, j, r2, p + 1);
    } else {
        lemma_open_same(r, r2, p + 1);
    }
}

/// Results that agree from `p` on leave as many missing from there.
proof fn lemma_open_same(r: Seq<Option<String>>, r2: Seq<Option<String>>, p: int)
    requires
        0 <= p,
        r2.len() == r.len(),
        forall|k: int| p <= k < r.len() ==> r2[k] == r[k],
    ensures
        open_from(r2, p) == open_from(r, p),
    decreases r.len() - p,
{
    if p < r.len() {
        lemma_open_same(r, r2, p + 1);
    }
}

/// The first missing result from `p` on is missing, and all before it
/// (from `p` on) are there.
proof fn lemma_first_open(r: Seq<Option<String>>, p: int)
    requires
        0 <= p <= r.len(),
    ensures
        p <= first_open(r, p) <= r.len(),
        first_open(r, p) < r.len() ==> r[first_open(r, p)] is None,
        forall|k: int| p <= k < first_open(r, p) ==> (#[trigger] r[k]) is Some,
    decreases r.len() - p,
{
    if p < r.len() && r[p] is Some {
        lemma_first_open(r, p + 1);
    }
}

/// No more results are missing than there are.
proof fn lemma_open_bound(r: Seq<Option<String>>, p: int)
    requires
        0 <= p <= r.len(),
    ensures
        open_from(r, p) <= r.len() - p,
    decreases r.len() - p,
{
    if p < r.len() {
        lemma_open_bound(r, p + 1);
    }
}

} // verus!

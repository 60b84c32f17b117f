//! Embeddings: how texts are packed into batches, and what the worker does.
use crate::loader::{vulkan_devices, vulkan_indices, Device};
use crate::text::{signed_decimal, signed_decimal_text, views};
use crate::types::{LoadError, LoadErrorView};
use vstd::prelude::*;
use vstd::string::*;

verus! {

/// The dimensions of an embedding, of a model that has `model` of them.
pub open spec fn chosen_dims(asked: Option<usize>, model: usize) -> usize {
    match asked {
        Some(dims) => dims,
        None => model,
    }
}

/// What was asked for decides, whatever the model has; where nothing was, the
/// model does.
pub proof fn law_asked_dimensions_decide(dims: usize, model: usize)
    ensures
        chosen_dims(Some(dims), model) == dims,
        chosen_dims(None, model) == model,
{
}

/// The number of dimensions of an embedding: what was asked for, or what the
/// model has.
pub fn embedding_dims(asked: Option<usize>, model: usize) -> (dims: usize)
    ensures
        dims == match asked {
            Some(dims) => dims,
            None => model,
        },
        dims == chosen_dims(asked, model),
{
    match asked {
        Some(dims) => dims,
        None => model,
    }
}

/// The sequences of a context for `texts` texts.
pub open spec fn sequence_count(texts: usize) -> u32 {
    if texts as u32 == 0 {
        1
    } else {
        texts as u32
    }
}

/// There is a sequence for each text, as long as they can be counted in 32
/// bits, and one where there is no text.
pub proof fn law_every_text_has_a_sequence(texts: usize)
    ensures
        sequence_count(texts) >= 1,
        1 <= texts <= u32::MAX ==> sequence_count(texts) == texts,
        sequence_count(0) == 1,
{
}

/// The number of sequences that a context for `texts` texts takes: at least one.
pub fn max_sequences(texts: usize) -> (sequences: u32)
    ensures
        sequences == (if texts as u32 == 0 {
            1
        } else {
            texts as u32
        }),
        sequences == sequence_count(texts),
{
    let count: u32 = texts as u32;
    if count == 0 {
        1
    } else {
        count
    }
}

/// The number of tokens in the texts `from..to`.
pub open spec fn token_count(texts: Seq<Seq<i32>>, from: int, to: int) -> nat
    decreases to - from,
{
    if from >= to {
        0
    } else {
        token_count(texts, from, to - 1) + texts[to - 1].len()
    }
}

/// Whether the texts `from..to` go into one batch of at most `limit` tokens: a
/// text on its own always does.
pub open spec fn packs(texts: Seq<Seq<i32>>, from: int, to: int, limit: int) -> bool {
    to == from + 1 || token_count(texts, from, to) <= limit
}

/// The end of the batch that starts with the text `from` and already holds the
/// texts up to `to`: further texts are added as long as they fit.
pub open spec fn pack_end(texts: Seq<Seq<i32>>, from: int, to: int, limit: int) -> int
    decreases texts.len() - to,
{
    if to < texts.len() && packs(texts, from, to + 1, limit) {
        pack_end(texts, from, to + 1, limit)
    } else {
        to
    }
}

/// The ends of the batches from the text `from` on: each takes as many texts as fit.
pub open spec fn pack_ends(texts: Seq<Seq<i32>>, from: int, limit: int) -> Seq<int>
    decreases texts.len() - from,
{
    if from >= texts.len() {
        Seq::empty()
    } else {
        let end = pack_end(texts, from, from, limit);
        if from < end <= texts.len() {
            seq![end] + pack_ends(texts, end, limit)
        } else {
            seq![end]
        }
    }
}

/// A batch starts with a text of its own, fits, and is as large as possible.
pub proof fn lemma_pack_end(texts: Seq<Seq<i32>>, from: int, to: int, limit: int)
    requires
        0 <= from <= to <= texts.len(),
        from < texts.len(),
        to > from ==> packs(texts, from, to, limit),
    ensures
        ({
            let end = pack_end(texts, from, to, limit);
            &&& to <= end <= texts.len()
            &&& from < end
            &&& packs(texts, from, end, limit)
            &&& end < texts.len() ==> !packs(texts, from, end + 1, limit)
        }),
    decreases texts.len() - to,
{
    if to < texts.len() && packs(texts, from, to + 1, limit) {
        lemma_pack_end(texts, from, to + 1, limit);
    }
}

/// Every text goes into exactly one batch, in order: each batch begins where
/// the one before it ended, and the last one ends with the last text. A batch
/// has at least one text, and its tokens fit unless it is a text on its own.
pub proof fn law_batches_partition_the_texts(texts: Seq<Seq<i32>>, from: int, limit: int)
    requires
        0 <= from <= texts.len(),
    ensures
        ({
            let ends = pack_ends(texts, from, limit);
            &&& ends.len() > 0 <==> from < texts.len()
            &&& ends.len() > 0 ==> ends.last() == texts.len()
            &&& forall|i: int|
                0 <= i < ends.len() ==> {
                    let start = if i == 0 {
                        from
                    } else {
                        ends[i - 1]
                    };
                    &&& start < #[trigger] ends[i] <= texts.len()
                    &&& packs(texts, start, ends[i], limit)
                }
        }),
    decreases texts.len() - from,
{
    if from < texts.len() {
        lemma_pack_end(texts, from, from, limit);
        let end = pack_end(texts, from, from, limit);
        let rest = pack_ends(texts, end, limit);
        let ends = pack_ends(texts, from, limit);
        law_batches_partition_the_texts(texts, end, limit);
        assert(ends =~= seq![end] + rest);
        if rest.len() > 0 {
            assert(ends.last() == rest.last());
        }
        assert forall|i: int| 0 <= i < ends.len() implies {
            let start = if i == 0 {
                from
            } else {
                ends[i - 1]
            };
            &&& start < #[trigger] ends[i] <= texts.len()
            &&& packs(texts, start, ends[i], limit)
        } by {
            if i > 0 {
                assert(ends[i] == rest[i - 1]);
                if i > 1 {
                    assert(ends[i - 1] == rest[i - 2]);
                }
            }
        }
    }
}

/// A token of a text in a batch.
#[derive(Clone, Copy, PartialEq, Eq, Structural)]
pub struct EmbeddingEntry {
    /// The token.
    pub token: i32,
    /// Its position in the text.
    pub position: i32,
    /// The place of the text in the batch.
    pub sequence: i32,
}

/// The entries of a text at the place `sequence` of a batch.
pub open spec fn text_entries(text: Seq<i32>, sequence: int) -> Seq<EmbeddingEntry> {
    Seq::new(
        text.len(),
        |i: int|
            EmbeddingEntry { token: text[i], position: i as i32, sequence: sequence as i32 },
    )
}

/// The entries of a batch of the texts `from..to`.
pub open spec fn batch_entries(texts: Seq<Seq<i32>>, from: int, to: int) -> Seq<EmbeddingEntry>
    decreases to - from,
{
    if from >= to {
        Seq::empty()
    } else {
        batch_entries(texts, from, to - 1) + text_entries(texts[to - 1], to - 1 - from)
    }
}

/// More texts have no fewer tokens.
proof fn lemma_token_count_grows(texts: Seq<Seq<i32>>, from: int, to: int, end: int)
    requires
        from <= to <= end,
    ensures
        token_count(texts, from, to) <= token_count(texts, from, end),
    decreases end - to,
{
    if to < end {
        lemma_token_count_grows(texts, from, to, end - 1);
    }
}

/// A batch holds the tokens of its texts and no others: text by text, each
/// token with its position in the text and the place of the text in the batch.
pub proof fn law_batches_hold_their_texts(texts: Seq<Seq<i32>>, from: int, to: int)
    requires
        0 <= from <= to <= texts.len(),
    ensures
        batch_entries(texts, from, to).len() == token_count(texts, from, to),
        forall|k: int, p: int|
            from <= k < to && 0 <= p < texts[k].len() ==> batch_entries(texts, from, to)[token_count(
                texts,
                from,
                k,
            ) + p] == (EmbeddingEntry {
                token: #[trigger] texts[k][p],
                position: p as i32,
                sequence: (k - from) as i32,
            }),
    decreases to - from,
{
    if from < to {
        let before = batch_entries(texts, from, to - 1);
        law_batches_hold_their_texts(texts, from, to - 1);
        assert forall|k: int, p: int| from <= k < to && 0 <= p < texts[k].len() implies batch_entries(
            texts,
            from,
            to,
        )[token_count(texts, from, k) + p] == (EmbeddingEntry {
            token: #[trigger] texts[k][p],
            position: p as i32,
            sequence: (k - from) as i32,
        }) by {
            if k < to - 1 {
                lemma_token_count_grows(texts, from, k + 1, to - 1);
                assert(token_count(texts, from, k) + p < before.len());
            }
        }
    }
}

/// A batch that is to be encoded.
pub struct EmbeddingBatch {
    /// Its tokens.
    pub entries: Vec<EmbeddingEntry>,
    /// The number of its texts; their embeddings are read in order.
    pub sequences: usize,
}

/// What went wrong while texts were embedded.
pub enum EmbeddingFailure {
    /// No context could be made.
    Context(String),
    /// A text could not be tokenized.
    Tokenize(String),
    /// A token could not be put into the batch.
    Add(String),
    /// The batch could not be encoded.
    Encode(String),
    /// The embedding of the text at this place could not be read.
    Read(i32, String),
}

/// What a failure is reported as.
pub open spec fn embedding_failure_text(failure: EmbeddingFailure) -> Seq<char> {
    match failure {
        EmbeddingFailure::Context(reason) => "Embedding context creation failed: "@ + reason@,
        EmbeddingFailure::Tokenize(reason) => "Tokenization failed: "@ + reason@,
        EmbeddingFailure::Add(reason) => "Batch add failed: "@ + reason@,
        EmbeddingFailure::Encode(reason) => "Embedding encode failed: "@ + reason@,
        EmbeddingFailure::Read(sequence, reason) => "Failed to get embedding for seq "@
            + signed_decimal(sequence as int) + ": "@ + reason@,
    }
}

impl EmbeddingFailure {
    /// Says what went wrong.
    pub fn message(&self) -> (text: String)
        ensures
            text@ == embedding_failure_text(*self),
    {
        match self {
            EmbeddingFailure::Context(reason) => {
                let mut text = "Embedding context creation failed: ".to_owned();
                text.append(reason.as_str());
                text
            },
            EmbeddingFailure::Tokenize(reason) => {
                let mut text = "Tokenization failed: ".to_owned();
                text.append(reason.as_str());
                text
            },
            EmbeddingFailure::Add(reason) => {
                let mut text = "Batch add failed: ".to_owned();
                text.append(reason.as_str());
                text
            },
            EmbeddingFailure::Encode(reason) => {
                let mut text = "Embedding encode failed: ".to_owned();
                text.append(reason.as_str());
                text
            },
            EmbeddingFailure::Read(sequence, reason) => {
                let mut text = "Failed to get embedding for seq ".to_owned();
                text.append(signed_decimal_text(*sequence).as_str());
                text.append(": ");
                text.append(reason.as_str());
                text
            },
        }
    }
}

/// Texts that are being embedded.
pub struct EmbeddingRun {
    texts: Vec<Vec<i32>>,
    limit: usize,
    next: usize,
}

/// The view of an [`EmbeddingRun`].
pub struct EmbeddingRunView {
    /// The tokens of the texts.
    pub texts: Seq<Seq<i32>>,
    /// The number of tokens that fit in a batch.
    pub limit: usize,
    /// The number of texts that are in batches already.
    pub next: usize,
}

impl View for EmbeddingRun {
    type V = EmbeddingRunView;

    closed spec fn view(&self) -> EmbeddingRunView {
        EmbeddingRunView { texts: views(self.texts@), limit: self.limit, next: self.next }
    }
}

impl EmbeddingRunView {
    /// No more texts are in batches than there are.
    pub open spec fn wf(self) -> bool {
        self.next <= self.texts.len() <= usize::MAX
    }

    /// The end of the next batch.
    pub open spec fn batch_end(self) -> int {
        pack_end(self.texts, self.next as int, self.next as int, self.limit as int)
    }
}

impl EmbeddingRunView {
    /// The sequences that a batch takes.
    pub open spec fn sequences(self) -> int {
        if self.texts.len() < self.limit {
            self.texts.len() as int
        } else {
            self.limit as int
        }
    }

    /// The run once its next batch is packed, and that batch: its entries and
    /// the number of its texts. Nothing where no text is left.
    pub open spec fn packed(self) -> (EmbeddingRunView, Option<(Seq<EmbeddingEntry>, int)>) {
        if self.next < self.texts.len() {
            (
                EmbeddingRunView { next: self.batch_end() as usize, ..self },
                Some(
                    (
                        batch_entries(self.texts, self.next as int, self.batch_end()),
                        self.batch_end() - self.next,
                    ),
                ),
            )
        } else {
            (self, None)
        }
    }
}

/// A run over these texts, before its first batch.
pub open spec fn new_run(texts: Seq<Seq<i32>>, n_batch: u32) -> EmbeddingRunView {
    EmbeddingRunView {
        texts,
        limit: if n_batch < 1 {
            1
        } else {
            n_batch as usize
        },
        next: 0,
    }
}

/// A run packs a batch as long as texts are left, and the batch holds the tokens
/// of just the texts that it counts, the first that are left: all of them, each
/// token with its position, and as many texts as fit, but at least one. The run
/// goes on right behind them.
pub proof fn law_a_run_packs_every_text_once(run: EmbeddingRunView)
    requires
        run.wf(),
    ensures
        run.next == run.texts.len() ==> run.packed() == (
            run,
            None::<(Seq<EmbeddingEntry>, int)>,
        ),
        run.next < run.texts.len() ==> (run.packed().1 matches Some((entries, count)) && {
            let end = run.next + count;
            &&& 1 <= count
            &&& end <= run.texts.len()
            &&& run.packed().0 == (EmbeddingRunView { next: end as usize, ..run })
            &&& run.packed().0.next == end
            &&& run.packed().0.wf()
            &&& entries.len() == token_count(run.texts, run.next as int, end)
            &&& count > 1 ==> entries.len() <= run.limit
            &&& end < run.texts.len() ==> token_count(run.texts, run.next as int, end + 1)
                > run.limit
            &&& forall|k: int, p: int|
                run.next <= k < end && 0 <= p < run.texts[k].len() ==> entries[token_count(
                    run.texts,
                    run.next as int,
                    k,
                ) + p] == (EmbeddingEntry {
                    token: #[trigger] run.texts[k][p],
                    position: p as i32,
                    sequence: (k - run.next) as i32,
                })
        }),
{
    if run.next < run.texts.len() {
        law_batches_are_as_large_as_they_can_be(run.texts, run.next as int, run.limit as int);
        law_batches_hold_their_texts(run.texts, run.next as int, run.batch_end());
    }
}

/// A run starts with its first text, and a batch takes at least one token. A
/// batch has no more sequences than there are texts or than tokens fit.
pub proof fn law_a_run_starts_with_its_first_text(texts: Seq<Seq<i32>>, n_batch: u32)
    requires
        texts.len() <= usize::MAX,
    ensures
        new_run(texts, n_batch).wf(),
        new_run(texts, n_batch).texts == texts,
        new_run(texts, n_batch).next == 0,
        n_batch >= 1 ==> new_run(texts, n_batch).limit == n_batch,
        new_run(texts, 0).limit == 1,
        new_run(texts, n_batch).sequences() <= texts.len(),
        new_run(texts, n_batch).sequences() <= new_run(texts, n_batch).limit,
        new_run(texts, n_batch).sequences() == texts.len() || new_run(texts, n_batch).sequences()
            == new_run(texts, n_batch).limit,
{
}

impl EmbeddingRun {
    /// Starts with these texts, for a context whose batches take `n_batch`
    /// tokens, but at least one.
    pub fn new(texts: Vec<Vec<i32>>, n_batch: u32) -> (run: Self)
        ensures
            run@ == (EmbeddingRunView {
                texts: views(texts@),
                limit: if n_batch < 1 {
                    1
                } else {
                    n_batch as usize
                },
                next: 0,
            }),
            run@ == new_run(views(texts@), n_batch),
            run@.wf(),
    {
        assert(texts@.len() == texts.len());
        let limit: usize = if n_batch < 1 {
            1
        } else {
            n_batch as usize
        };
        EmbeddingRun { texts, limit, next: 0 }
    }

    /// The number of tokens that fit in a batch.
    pub fn batch_limit(&self) -> (limit: usize)
        ensures
            limit == self@.limit,
    {
        self.limit
    }

    /// The number of sequences that a batch takes: as many as there are texts,
    /// but no more than tokens fit.
    pub fn batch_sequences(&self) -> (sequences: usize)
        ensures
            sequences == (if self@.texts.len() < self@.limit {
                self@.texts.len() as int
            } else {
                self@.limit as int
            }),
            sequences == self@.sequences(),
    {
        if self.texts.len() < self.limit {
            self.texts.len()
        } else {
            self.limit
        }
    }

    /// Packs the next batch: as many of the texts that are left as fit, and at
    /// least one. Nothing where no text is left.
    pub fn next_batch(&mut self) -> (batch: Option<EmbeddingBatch>)
        requires
            old(self)@.wf(),
        ensures
            final(self)@.wf(),
            if old(self)@.next < old(self)@.texts.len() {
                &&& batch is Some
                &&& final(self)@ == (EmbeddingRunView {
                    next: old(self)@.batch_end() as usize,
                    ..old(self)@
                })
                &&& old(self)@.next < final(self)@.next
                &&& batch->0.entries@ == batch_entries(
                    old(self)@.texts,
                    old(self)@.next as int,
                    old(self)@.batch_end(),
                )
                &&& batch->0.sequences == old(self)@.batch_end() - old(self)@.next
            } else {
                batch is None && final(self)@ == old(self)@
            },
            final(self)@ == old(self)@.packed().0,
            batch is Some <==> old(self)@.packed().1 is Some,
            batch matches Some(batch) ==> old(self)@.packed().1 == Some(
                (batch.entries@, batch.sequences as int),
            ),
    {
        let ghost texts = views(self.texts@);
        let start: usize = self.next;
        if start >= self.texts.len() {
            return None;
        }
        proof {
            lemma_pack_end(texts, start as int, start as int, self.limit as int);
        }
        let ghost end = pack_end(texts, start as int, start as int, self.limit as int);
        let mut entries: Vec<EmbeddingEntry> = Vec::new();
        let mut total: usize = 0;
        let mut i: usize = start;
        let limit: usize = self.limit;
        while i < self.texts.len() && (i == start || (total <= limit && self.texts[i].len() <= limit
            - total))
            invariant
                start <= i <= self.texts.len(),
                start < self.texts.len(),
                texts == views(self.texts@),
                limit == self.limit,
                self.next == start,
                *self == *old(self),
                total == token_count(texts, start as int, i as int),
                entries@ == batch_entries(texts, start as int, i as int),
                pack_end(texts, start as int, i as int, limit as int) == end,
            decreases self.texts.len() - i,
        {
            let text = &self.texts[i];
            assert(texts[i as int] == text@);
            assert(total <= limit || i == start);
            let ghost before = entries@;
            let sequence: i32 = (i - start) as i32;
            let mut k: usize = 0;
            assert(before + text_entries(text@, i - start).take(0) =~= before);
            while k < text.len()
                invariant
                    k <= text@.len(),
                    start <= i,
                    sequence == (i - start) as i32,
                    entries@ == before + text_entries(text@, i - start).take(k as int),
                decreases text@.len() - k,
            {
                let ghost whole = text_entries(text@, i - start);
                entries.push(EmbeddingEntry { token: text[k], position: k as i32, sequence });
                assert(whole.take(k + 1) =~= whole.take(k as int).push(whole[k as int]));
                assert(entries@ =~= before + whole.take(k + 1));
                k = k + 1;
            }
            assert(text_entries(text@, i - start).take(k as int) =~= text_entries(
                text@,
                i - start,
            ));
            if i == start {
                assert(token_count(texts, start as int, start as int) == 0);
                total = text.len();
            } else {
                total = total + text.len();
            }
            i = i + 1;
        }
        self.next = i;
        Some(EmbeddingBatch { entries, sequences: i - start })
    }
}

/// Where an embedding worker stands: which event it waits for.
#[derive(Clone, Copy, PartialEq, Eq, Structural)]
pub enum EmbeddingPhase {
    /// The backend is being initialised.
    Starting,
    /// The devices are being configured.
    Configuring,
    /// The model is being loaded.
    Loading,
    /// The worker waits for a command.
    Serving,
    /// Texts are being embedded.
    Embedding,
    /// The worker has ended.
    Stopped,
}

/// What happens to an embedding worker; an error comes with its text.
pub enum EmbeddingEvent {
    /// The backend was initialised, or was not. With it come whether it can
    /// offload to a GPU, and its devices.
    Backend(Result<(bool, Vec<Device>), String>),
    /// The devices were configured, or were not.
    Configured(Result<(), String>),
    /// A model whose embeddings have this many dimensions was loaded, or it was not.
    Loaded(Result<i32, String>),
    /// Texts came to be embedded (`true`), or the worker is to end (`false`).
    Command(bool),
    /// The texts were answered.
    Answered,
}

/// What an embedding worker does next.
pub enum EmbeddingAction {
    /// Restrict the model to these devices.
    Configure(Vec<usize>),
    /// Load the model.
    Load,
    /// Report how loading went.
    Report(Result<usize, LoadError>),
    /// Embed the texts.
    Embed,
    /// Wait for a command.
    Wait,
    /// End.
    Stop,
}

/// The view of an [`EmbeddingAction`].
pub enum EmbeddingActionView {
    Configure(Seq<usize>),
    Load,
    Report(Result<usize, LoadErrorView>),
    Embed,
    Wait,
    Stop,
}

impl View for EmbeddingAction {
    type V = EmbeddingActionView;

    open spec fn view(&self) -> EmbeddingActionView {
        match self {
            EmbeddingAction::Configure(devices) => EmbeddingActionView::Configure(devices@),
            EmbeddingAction::Load => EmbeddingActionView::Load,
            EmbeddingAction::Report(Ok(dims)) => EmbeddingActionView::Report(Ok(*dims)),
            EmbeddingAction::Report(Err(error)) => EmbeddingActionView::Report(Err(error@)),
            EmbeddingAction::Embed => EmbeddingActionView::Embed,
            EmbeddingAction::Wait => EmbeddingActionView::Wait,
            EmbeddingAction::Stop => EmbeddingActionView::Stop,
        }
    }
}

impl EmbeddingPhase {
    /// Whether the worker waits for such an event.
    pub open spec fn expects(self, event: EmbeddingEvent) -> bool {
        match self {
            EmbeddingPhase::Starting => event is Backend,
            EmbeddingPhase::Configuring => event is Configured,
            EmbeddingPhase::Loading => event is Loaded,
            EmbeddingPhase::Serving => event is Command,
            EmbeddingPhase::Embedding => event is Answered,
            EmbeddingPhase::Stopped => false,
        }
    }

    /// The worker after `event`, and what it does next. The first error on the
    /// way to a loaded model is reported and ends it.
    pub open spec fn after(self, event: EmbeddingEvent) -> (EmbeddingPhase, EmbeddingActionView) {
        match event {
            EmbeddingEvent::Backend(Err(text)) => (
                EmbeddingPhase::Stopped,
                EmbeddingActionView::Report(Err(LoadErrorView::BackendInit(text@))),
            ),
            EmbeddingEvent::Backend(Ok((gpu_offload, devices))) => {
                let indices = vulkan_indices(views(devices@));
                if gpu_offload && indices.len() > 0 {
                    (EmbeddingPhase::Configuring, EmbeddingActionView::Configure(indices))
                } else {
                    (EmbeddingPhase::Loading, EmbeddingActionView::Load)
                }
            },
            EmbeddingEvent::Configured(Ok(_)) => (
                EmbeddingPhase::Loading,
                EmbeddingActionView::Load,
            ),
            EmbeddingEvent::Configured(Err(text)) => (
                EmbeddingPhase::Stopped,
                EmbeddingActionView::Report(Err(LoadErrorView::ConfigureDevices(text@))),
            ),
            EmbeddingEvent::Loaded(Ok(dims)) => (
                EmbeddingPhase::Serving,
                EmbeddingActionView::Report(Ok(dims as usize)),
            ),
            EmbeddingEvent::Loaded(Err(text)) => (
                EmbeddingPhase::Stopped,
                EmbeddingActionView::Report(Err(LoadErrorView::ModelLoad(text@))),
            ),
            EmbeddingEvent::Command(embed) => if embed {
                (EmbeddingPhase::Embedding, EmbeddingActionView::Embed)
            } else {
                (EmbeddingPhase::Stopped, EmbeddingActionView::Stop)
            },
            EmbeddingEvent::Answered => (EmbeddingPhase::Serving, EmbeddingActionView::Wait),
        }
    }

    /// Takes in an event and decides what to do next.
    pub fn step(&mut self, event: EmbeddingEvent) -> (action: EmbeddingAction)
        requires
            old(self).expects(event),
        ensures
            (*final(self), action@) == old(self).after(event),
    {
        match event {
            EmbeddingEvent::Backend(Err(text)) => {
                *self = EmbeddingPhase::Stopped;
                EmbeddingAction::Report(Err(LoadError::BackendInit(text)))
            },
            EmbeddingEvent::Backend(Ok((gpu_offload, devices))) => {
                if gpu_offload {
                    let indices = vulkan_devices(&devices);
                    if indices.len() > 0 {
                        *self = EmbeddingPhase::Configuring;
                        return EmbeddingAction::Configure(indices);
                    }
                }
                *self = EmbeddingPhase::Loading;
                EmbeddingAction::Load
            },
            EmbeddingEvent::Configured(Ok(_)) => {
                *self = EmbeddingPhase::Loading;
                EmbeddingAction::Load
            },
            EmbeddingEvent::Configured(Err(text)) => {
                *self = EmbeddingPhase::Stopped;
                EmbeddingAction::Report(Err(LoadError::ConfigureDevices(text)))
            },
            EmbeddingEvent::Loaded(Ok(dims)) => {
                *self = EmbeddingPhase::Serving;
                EmbeddingAction::Report(Ok(dims as usize))
            },
            EmbeddingEvent::Loaded(Err(text)) => {
                *self = EmbeddingPhase::Stopped;
                EmbeddingAction::Report(Err(LoadError::ModelLoad(text)))
            },
            EmbeddingEvent::Command(embed) => {
                if embed {
                    *self = EmbeddingPhase::Embedding;
                    EmbeddingAction::Embed
                } else {
                    *self = EmbeddingPhase::Stopped;
                    EmbeddingAction::Stop
                }
            },
            EmbeddingEvent::Answered => {
                *self = EmbeddingPhase::Serving;
                EmbeddingAction::Wait
            },
        }
    }
}

/// Tokens are counted text by text: no texts have none, one text has its own,
/// and two runs of texts have those of both.
pub proof fn law_tokens_are_counted_text_by_text(
    texts: Seq<Seq<i32>>,
    from: int,
    middle: int,
    to: int,
)
    requires
        0 <= from <= middle <= to <= texts.len(),
    ensures
        token_count(texts, from, from) == 0,
        from < texts.len() ==> token_count(texts, from, from + 1) == texts[from].len(),
        token_count(texts, from, to) == token_count(texts, from, middle) + token_count(
            texts,
            middle,
            to,
        ),
    decreases to - middle,
{
    reveal_with_fuel(token_count, 2);
    if middle < to {
        law_tokens_are_counted_text_by_text(texts, from, middle, to - 1);
    }
}

/// A batch takes as many texts as its tokens allow and no more, but always one.
pub proof fn law_batches_are_as_large_as_they_can_be(
    texts: Seq<Seq<i32>>,
    from: int,
    limit: int,
)
    requires
        0 <= from < texts.len(),
    ensures
        ({
            let end = pack_end(texts, from, from, limit);
            &&& from < end <= texts.len()
            &&& end > from + 1 ==> token_count(texts, from, end) <= limit
            &&& end < texts.len() ==> token_count(texts, from, end + 1) > limit
        }),
        pack_ends(texts, from, limit).len() > 0,
        pack_ends(texts, from, limit)[0] == pack_end(texts, from, from, limit),
        pack_ends(texts, from, limit).drop_first() == pack_ends(
            texts,
            pack_end(texts, from, from, limit),
            limit,
        ),
{
    lemma_pack_end(texts, from, from, limit);
    let end = pack_end(texts, from, from, limit);
    assert(pack_ends(texts, from, limit) == seq![end] + pack_ends(texts, end, limit));
    assert(pack_ends(texts, from, limit).drop_first() =~= pack_ends(texts, end, limit));
}

/// Each failure is reported with what failed and why.
pub proof fn law_failures_say_what_failed(reason: String, sequence: i32)
    ensures
        embedding_failure_text(EmbeddingFailure::Context(reason))
            == "Embedding context creation failed: "@ + reason@,
        embedding_failure_text(EmbeddingFailure::Tokenize(reason)) == "Tokenization failed: "@
            + reason@,
        embedding_failure_text(EmbeddingFailure::Add(reason)) == "Batch add failed: "@ + reason@,
        embedding_failure_text(EmbeddingFailure::Encode(reason)) == "Embedding encode failed: "@
            + reason@,
        embedding_failure_text(EmbeddingFailure::Read(sequence, reason))
            == "Failed to get embedding for seq "@ + signed_decimal(sequence as int) + ": "@
            + reason@,
{
}

/// An embedding worker configures its Vulkan devices, where its backend offloads
/// and there are any, and then loads its model; the first error is reported as
/// the step that failed, and ends it.
pub proof fn law_embedding_workers_load_step_by_step(
    phase: EmbeddingPhase,
    devices: Vec<Device>,
    text: String,
    dims: i32,
)
    ensures
        vulkan_indices(views(devices@)).len() > 0 ==> phase.after(
            EmbeddingEvent::Backend(Ok((true, devices))),
        ) == (
            EmbeddingPhase::Configuring,
            EmbeddingActionView::Configure(vulkan_indices(views(devices@))),
        ),
        vulkan_indices(views(devices@)).len() == 0 ==> phase.after(
            EmbeddingEvent::Backend(Ok((true, devices))),
        ) == (EmbeddingPhase::Loading, EmbeddingActionView::Load),
        phase.after(EmbeddingEvent::Backend(Ok((false, devices)))) == (
            EmbeddingPhase::Loading,
            EmbeddingActionView::Load,
        ),
        phase.after(EmbeddingEvent::Configured(Ok(()))) == (
            EmbeddingPhase::Loading,
            EmbeddingActionView::Load,
        ),
        phase.after(EmbeddingEvent::Loaded(Ok(dims))) == (
            EmbeddingPhase::Serving,
            EmbeddingActionView::Report(Ok(dims as usize)),
        ),
        phase.after(EmbeddingEvent::Backend(Err(text))) == (
            EmbeddingPhase::Stopped,
            EmbeddingActionView::Report(Err(LoadErrorView::BackendInit(text@))),
        ),
        phase.after(EmbeddingEvent::Configured(Err(text))) == (
            EmbeddingPhase::Stopped,
            EmbeddingActionView::Report(Err(LoadErrorView::ConfigureDevices(text@))),
        ),
        phase.after(EmbeddingEvent::Loaded(Err(text))) == (
            EmbeddingPhase::Stopped,
            EmbeddingActionView::Report(Err(LoadErrorView::ModelLoad(text@))),
        ),
{
}

/// An embedding worker embeds the texts that come, waits again once they are
/// answered, and ends where it is told to.
pub proof fn law_texts_are_embedded_one_by_one(phase: EmbeddingPhase)
    ensures
        ({
            let (embedding, action) = phase.after(EmbeddingEvent::Command(true));
            &&& action is Embed
            &&& embedding.expects(EmbeddingEvent::Answered)
            &&& embedding.after(EmbeddingEvent::Answered) == (
                EmbeddingPhase::Serving,
                EmbeddingActionView::Wait,
            )
        }),
        phase.after(EmbeddingEvent::Command(false)) == (
            EmbeddingPhase::Stopped,
            EmbeddingActionView::Stop,
        ),
        forall|event: EmbeddingEvent| !(#[trigger] EmbeddingPhase::Stopped.expects(event)),
        forall|event: EmbeddingEvent|
            #[trigger] EmbeddingPhase::Serving.expects(event) <==> event is Command,
{
}

/// What an action shows is what it holds.
pub proof fn law_embedding_actions_show_what_they_hold(action: EmbeddingAction)
    ensures
        action matches EmbeddingAction::Configure(devices) ==> action@
            == EmbeddingActionView::Configure(devices@),
        action is Load ==> action@ is Load,
        action matches EmbeddingAction::Report(Ok(dims)) ==> action@ == EmbeddingActionView::Report(
            Ok(dims),
        ),
        action matches EmbeddingAction::Report(Err(error)) ==> action@
            == EmbeddingActionView::Report(Err(error@)),
        action is Embed ==> action@ is Embed,
        action is Wait ==> action@ is Wait,
        action is Stop ==> action@ is Stop,
{
}

}

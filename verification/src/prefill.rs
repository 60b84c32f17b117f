//! Prefill: bringing the cache of a persistent context up to a new prompt.
//!
//! The cache holds the tokens of the previous turn. What it shares with the
//! new prompt is kept, the rest is rolled back, and the suffix of the prompt
//! is decoded in batches.
use crate::generation::{cancel_error, cancel_message, DecodeFailure};
use crate::slot::{BatchEntry, SlotEntry};
use crate::text::{decimal, decimal_text, result_view};
use vstd::prelude::*;
use vstd::string::*;

verus! {

/// The tokens of a prompt, or why it cannot be run: it could not be tokenized,
/// it is empty, or it does not fit in the context.
pub open spec fn checked_tokens(tokens: Result<Seq<i32>, Seq<char>>, n_ctx: u32) -> Result<
    Seq<i32>,
    Seq<char>,
> {
    match tokens {
        Err(reason) => Err("Tokenization failed: "@ + reason),
        Ok(tokens) => if tokens.len() == 0 {
            Err("Empty prompt after tokenization"@)
        } else if tokens.len() > n_ctx {
            Err(
                "Prompt "@ + decimal(tokens.len()) + " tokens exceeds n_ctx "@ + decimal(
                    n_ctx as nat,
                ),
            )
        } else {
            Ok(tokens)
        },
    }
}

/// Computes [`checked_tokens`].
pub fn check_prompt(tokens: Result<Vec<i32>, String>, n_ctx: u32) -> (checked: Result<
    Vec<i32>,
    String,
>)
    ensures
        result_view(checked) == checked_tokens(
            result_view(tokens),
            n_ctx,
        ),
{
    match tokens {
        Err(reason) => {
            let mut error = "Tokenization failed: ".to_owned();
            error.append(reason.as_str());
            Err(error)
        },
        Ok(tokens) => {
            if tokens.len() == 0 {
                return Err("Empty prompt after tokenization".to_owned());
            }
            let length: u64 = tokens.len() as u64;
            if length > n_ctx as u64 {
                let mut error = "Prompt ".to_owned();
                error.append(decimal_text(length).as_str());
                error.append(" tokens exceeds n_ctx ");
                error.append(decimal_text(n_ctx as u64).as_str());
                return Err(error);
            }
            Ok(tokens)
        },
    }
}

/// The entries of a prompt that is all text.
pub open spec fn text_entries(tokens: Seq<i32>) -> Seq<SlotEntry> {
    tokens.map_values(|token: i32| SlotEntry::Text(token))
}

/// Lists [`text_entries`].
pub fn entries_of_tokens(tokens: &Vec<i32>) -> (entries: Vec<SlotEntry>)
    ensures
        entries@ == text_entries(tokens@),
{
    let mut entries: Vec<SlotEntry> = Vec::new();
    let mut i: usize = 0;
    while i < tokens.len()
        invariant
            i <= tokens@.len(),
            entries@ == text_entries(tokens@.take(i as int)),
        decreases tokens@.len() - i,
    {
        entries.push(SlotEntry::Text(tokens[i]));
        assert(entries@ =~= text_entries(tokens@.take(i + 1)));
        i = i + 1;
    }
    assert(tokens@.take(i as int) =~= tokens@);
    entries
}

/// The batch entries of the tokens `from..to` of a prompt. Only the logits of
/// its last token are wanted.
pub open spec fn prompt_entries(tokens: Seq<i32>, from: int, to: int) -> Seq<BatchEntry> {
    Seq::new(
        (to - from) as nat,
        |i: int|
            BatchEntry {
                token: tokens[from + i],
                position: (from + i) as i32,
                logits: from + i + 1 == tokens.len(),
            },
    )
}

/// The end of the batch that starts at `from`.
pub open spec fn batch_end(tokens: Seq<i32>, from: int, limit: int) -> int {
    if from + limit < tokens.len() {
        from + limit
    } else {
        tokens.len() as int
    }
}

/// The batches that decode a prompt from position `from` on, each of at most
/// `limit` tokens.
pub open spec fn prompt_batches(tokens: Seq<i32>, from: int, limit: int) -> Seq<Seq<BatchEntry>>
    decreases tokens.len() - from,
{
    if from >= tokens.len() || limit < 1 {
        Seq::empty()
    } else {
        let end = batch_end(tokens, from, limit);
        seq![prompt_entries(tokens, from, end)] + prompt_batches(tokens, end, limit)
    }
}

/// The entries of a list of batches, one after the other.
pub open spec fn all_entries(batches: Seq<Seq<BatchEntry>>) -> Seq<BatchEntry>
    decreases batches.len(),
{
    if batches.len() == 0 {
        Seq::empty()
    } else {
        batches[0] + all_entries(batches.drop_first())
    }
}

/// The batches decode every token of the suffix exactly once and in order, no
/// batch is empty or over the limit.
pub proof fn law_batches_cover_the_suffix(tokens: Seq<i32>, from: int, limit: int)
    requires
        0 <= from <= tokens.len(),
        limit >= 1,
    ensures
        all_entries(prompt_batches(tokens, from, limit)) == prompt_entries(
            tokens,
            from,
            tokens.len() as int,
        ),
        forall|i: int|
            0 <= i < prompt_batches(tokens, from, limit).len() ==> 0 < (#[trigger] prompt_batches(
                tokens,
                from,
                limit,
            )[i]).len() <= limit,
    decreases tokens.len() - from,
{
    let batches = prompt_batches(tokens, from, limit);
    if from < tokens.len() {
        let end = batch_end(tokens, from, limit);
        law_batches_cover_the_suffix(tokens, end, limit);
        assert(batches.drop_first() =~= prompt_batches(tokens, end, limit));
        assert(prompt_entries(tokens, from, end) + prompt_entries(tokens, end, tokens.len() as int)
            =~= prompt_entries(tokens, from, tokens.len() as int));
        assert forall|i: int| 0 <= i < batches.len() implies 0 < (#[trigger] batches[i]).len()
            <= limit by {
            if i > 0 {
                assert(batches[i] == batches.drop_first()[i - 1]);
            }
        }
    } else {
        assert(prompt_entries(tokens, from, tokens.len() as int) =~= Seq::empty());
    }
}

/// In a prompt the logits of exactly the last token are wanted, and every token
/// stands at its own position, as long as positions fit in 32 bits.
pub proof fn law_only_the_last_logits_are_wanted(tokens: Seq<i32>, from: int)
    requires
        0 <= from < tokens.len() <= i32::MAX,
    ensures
        ({
            let entries = prompt_entries(tokens, from, tokens.len() as int);
            &&& entries.len() == tokens.len() - from
            &&& entries.last().logits
            &&& forall|i: int|
                0 <= i < entries.len() ==> {
                    &&& (#[trigger] entries[i]).token == tokens[from + i]
                    &&& entries[i].position == from + i
                    &&& entries[i].logits ==> i == entries.len() - 1
                }
        }),
{
}

/// What to do next to bring the cache up to a prompt.
pub enum PrefillAction {
    /// Drop the positions from this one on, and say whether that worked.
    Trim { from: u32 },
    /// Restore the closest checkpoint at or below `cached` positions, or clear
    /// the cache, and say how many positions are left. `unsupported` says that
    /// the model was just found to be unable to drop positions.
    Restore { cached: usize, unsupported: bool },
    /// Keep only the checkpoints below this position.
    Retain { below: usize },
    /// Decode this batch.
    Decode(Vec<BatchEntry>),
    /// Take a checkpoint where one is due, with this many of the tokens of the
    /// prompt in the cache.
    Checkpoint { decoded: usize, prompt_len: usize },
    /// Sample: this many tokens of the prompt were served from the cache.
    Finish { cached: usize },
    /// Give up, with this message.
    Fail(String),
}

/// The view of a [`PrefillAction`].
pub enum PrefillActionView {
    Trim { from: u32 },
    Restore { cached: usize, unsupported: bool },
    Retain { below: usize },
    Decode(Seq<BatchEntry>),
    Checkpoint { decoded: usize, prompt_len: usize },
    Finish { cached: usize },
    Fail(Seq<char>),
}

impl View for PrefillAction {
    type V = PrefillActionView;

    open spec fn view(&self) -> PrefillActionView {
        match self {
            PrefillAction::Trim { from } => PrefillActionView::Trim { from: *from },
            PrefillAction::Restore { cached, unsupported } => PrefillActionView::Restore {
                cached: *cached,
                unsupported: *unsupported,
            },
            PrefillAction::Retain { below } => PrefillActionView::Retain { below: *below },
            PrefillAction::Decode(batch) => PrefillActionView::Decode(batch@),
            PrefillAction::Checkpoint { decoded, prompt_len } => PrefillActionView::Checkpoint {
                decoded: *decoded,
                prompt_len: *prompt_len,
            },
            PrefillAction::Finish { cached } => PrefillActionView::Finish { cached: *cached },
            PrefillAction::Fail(text) => PrefillActionView::Fail(text@),
        }
    }
}

/// What came of an action.
pub enum PrefillEvent {
    /// Positions were dropped, or the model cannot drop them, or it failed.
    Trimmed(Result<bool, String>),
    /// The cache holds this many positions now.
    Restored(usize),
    /// Checkpoints were dropped or taken.
    Ready,
    /// A batch was decoded, or was not.
    Decoded(Result<(), DecodeFailure>),
}

/// Where a prefill stands: which event it waits for.
#[derive(Clone, Copy, PartialEq, Eq, Structural)]
pub enum PrefillPhase {
    /// What follows the shared part is being dropped.
    Trimming,
    /// A checkpoint is being restored.
    Restoring,
    /// Checkpoints are being dropped or taken.
    Waiting,
    /// A batch of the prompt is being decoded.
    Decoding,
    /// The last position is being dropped.
    Dropping,
    /// The last token is being decoded again.
    Redecoding,
    /// Nothing is left to do.
    Ended,
}

/// A prompt that the cache is brought up to.
pub struct Prefill {
    phase: PrefillPhase,
    tokens: Vec<i32>,
    limit: usize,
    cached: usize,
    decoded: usize,
}

/// The view of a [`Prefill`].
pub struct PrefillView {
    /// Where it stands.
    pub phase: PrefillPhase,
    /// The tokens of the prompt.
    pub tokens: Seq<i32>,
    /// The number of tokens that fit in a batch.
    pub limit: usize,
    /// The number of tokens that are served from the cache.
    pub cached: usize,
    /// The number of tokens that are in the cache.
    pub decoded: usize,
}

impl View for Prefill {
    type V = PrefillView;

    closed spec fn view(&self) -> PrefillView {
        PrefillView {
            phase: self.phase,
            tokens: self.tokens@,
            limit: self.limit,
            cached: self.cached,
            decoded: self.decoded,
        }
    }
}

/// What a failure to drop positions is reported as.
pub open spec fn trim_error(reason: Seq<char>) -> Seq<char> {
    "KV cache trim failed: "@ + reason
}

/// What a failure to decode a prompt is reported as.
pub open spec fn prompt_failure_text(failure: DecodeFailure) -> Seq<char> {
    match failure {
        DecodeFailure::Add(reason) => "Batch add failed: "@ + reason@,
        DecodeFailure::Decode(reason) => "Prompt decode failed: "@ + reason@,
    }
}

impl PrefillView {
    /// The prompt is not empty and fits in memory, a batch takes at least one
    /// token, and a batch is decoded only while tokens are left.
    pub open spec fn wf(self) -> bool {
        &&& self.limit >= 1
        &&& 0 < self.tokens.len() <= usize::MAX
        &&& self.cached <= self.decoded
        &&& self.phase == PrefillPhase::Decoding ==> self.decoded < self.tokens.len()
        &&& self.cached < self.tokens.len() ==> self.decoded <= self.tokens.len()
    }

    /// Whether the prefill waits for such an event. A restore leaves no more
    /// than it was asked for.
    pub open spec fn expects(self, event: PrefillEvent) -> bool {
        match self.phase {
            PrefillPhase::Trimming => event is Trimmed,
            PrefillPhase::Restoring => event matches PrefillEvent::Restored(left) && left
                <= self.cached,
            PrefillPhase::Waiting => event is Ready,
            PrefillPhase::Decoding => event is Decoded,
            PrefillPhase::Dropping => event is Trimmed,
            PrefillPhase::Redecoding => event is Decoded,
            PrefillPhase::Ended => false,
        }
    }

    /// The batch that is to be decoded next.
    pub open spec fn next_batch(self) -> Seq<BatchEntry> {
        prompt_entries(
            self.tokens,
            self.decoded as int,
            batch_end(self.tokens, self.decoded as int, self.limit as int),
        )
    }

    /// The prefill with an action that fails it.
    pub open spec fn failed(self, error: Seq<char>) -> (PrefillView, PrefillActionView) {
        (PrefillView { phase: PrefillPhase::Ended, ..self }, PrefillActionView::Fail(error))
    }

    /// How to go on decoding: a prompt that the cache served whole has its last
    /// position dropped, to be decoded again; another has its next batch
    /// decoded, unless that was the last one, or the inference is cancelled.
    pub open spec fn proceed(self, cancelled: bool) -> (PrefillView, PrefillActionView) {
        if self.cached >= self.tokens.len() {
            (
                PrefillView { phase: PrefillPhase::Dropping, ..self },
                PrefillActionView::Trim { from: (self.tokens.len() - 1) as u32 },
            )
        } else if self.decoded >= self.tokens.len() {
            (
                PrefillView { phase: PrefillPhase::Ended, ..self },
                PrefillActionView::Finish { cached: self.cached },
            )
        } else if cancelled {
            self.failed(cancel_error())
        } else {
            (
                PrefillView { phase: PrefillPhase::Decoding, ..self },
                PrefillActionView::Decode(self.next_batch()),
            )
        }
    }

    /// The prefill after `event`, and what to do next.
    pub open spec fn after(self, event: PrefillEvent, cancelled: bool) -> (
        PrefillView,
        PrefillActionView,
    ) {
        match (self.phase, event) {
            (_, PrefillEvent::Trimmed(Err(reason))) => self.failed(trim_error(reason@)),
            (PrefillPhase::Dropping, PrefillEvent::Trimmed(Ok(trimmed))) => if trimmed {
                (
                    PrefillView { phase: PrefillPhase::Redecoding, ..self },
                    PrefillActionView::Decode(
                        prompt_entries(
                            self.tokens,
                            self.tokens.len() - 1,
                            self.tokens.len() as int,
                        ),
                    ),
                )
            } else {
                self.failed(
                    "KV cache trim (rollback) returned false at pos "@ + decimal(
                        (self.tokens.len() - 1) as nat,
                    ),
                )
            },
            (_, PrefillEvent::Trimmed(Ok(trimmed))) => if trimmed {
                (
                    PrefillView { phase: PrefillPhase::Waiting, ..self },
                    PrefillActionView::Retain { below: self.cached },
                )
            } else {
                (
                    PrefillView { phase: PrefillPhase::Restoring, ..self },
                    PrefillActionView::Restore { cached: self.cached, unsupported: true },
                )
            },
            (_, PrefillEvent::Restored(left)) => PrefillView {
                cached: left,
                decoded: left,
                ..self
            }.proceed(cancelled),
            (_, PrefillEvent::Ready) => self.proceed(cancelled),
            (_, PrefillEvent::Decoded(Err(failure))) => self.failed(prompt_failure_text(failure)),
            (PrefillPhase::Redecoding, PrefillEvent::Decoded(Ok(_))) => (
                PrefillView { phase: PrefillPhase::Ended, ..self },
                PrefillActionView::Finish { cached: self.cached },
            ),
            (_, PrefillEvent::Decoded(Ok(_))) => {
                let decoded = batch_end(
                    self.tokens,
                    self.decoded as int,
                    self.limit as int,
                ) as usize;
                (
                    PrefillView { phase: PrefillPhase::Waiting, decoded, ..self },
                    PrefillActionView::Checkpoint {
                        decoded,
                        prompt_len: self.tokens.len() as usize,
                    },
                )
            },
        }
    }
}

/// The first action: with nothing behind the shared part it stays, and
/// checkpoints past it are dropped; else the rest is dropped, or, where the
/// model is known to be unable to do that, a checkpoint is restored.
pub open spec fn first_action(cached: usize, entries: usize, trim_unsupported: bool) -> (
    PrefillPhase,
    PrefillActionView,
) {
    if cached >= entries {
        (
            PrefillPhase::Waiting,
            PrefillActionView::Retain {
                below: if cached < 1 {
                    1
                } else {
                    cached
                },
            },
        )
    } else if trim_unsupported {
        (PrefillPhase::Restoring, PrefillActionView::Restore { cached, unsupported: false })
    } else {
        (PrefillPhase::Trimming, PrefillActionView::Trim { from: cached as u32 })
    }
}

/// Writes [`trim_error`].
fn trim_failure(reason: String) -> (text: String)
    ensures
        text@ == trim_error(reason@),
{
    let mut text = "KV cache trim failed: ".to_owned();
    text.append(reason.as_str());
    text
}

/// Writes [`prompt_failure_text`].
fn prompt_failure(failure: DecodeFailure) -> (text: String)
    ensures
        text@ == prompt_failure_text(failure),
{
    match failure {
        DecodeFailure::Add(reason) => {
            let mut text = "Batch add failed: ".to_owned();
            text.append(reason.as_str());
            text
        },
        DecodeFailure::Decode(reason) => {
            let mut text = "Prompt decode failed: ".to_owned();
            text.append(reason.as_str());
            text
        },
    }
}

impl Prefill {
    /// Starts a prefill with the prompt `tokens` on a cache of `entries`
    /// positions, of which the prompt shares the first `cached`. A batch of the
    /// context takes `n_batch` tokens, but at least one.
    pub fn start(
        tokens: Vec<i32>,
        cached: usize,
        entries: usize,
        trim_unsupported: bool,
        n_batch: u32,
    ) -> (started: (Self, PrefillAction))
        requires
            0 < tokens@.len(),
        ensures
            started.0@.wf(),
            started.0@ == (PrefillView {
                phase: first_action(cached, entries, trim_unsupported).0,
                tokens: tokens@,
                limit: if n_batch < 1 {
                    1
                } else {
                    n_batch as usize
                },
                cached,
                decoded: cached,
            }),
            started.1@ == first_action(cached, entries, trim_unsupported).1,
            (started.0@, started.1@) == ({
                let start = prefill_start(
                    tokens@,
                    cached,
                    entries,
                    trim_unsupported,
                    tokens_per_batch(n_batch),
                );
                (start.prefill, start.action)
            }),
    {
        assert(tokens@.len() == tokens.len());
        let (phase, action) = if cached >= entries {
            let below: usize = if cached < 1 {
                1
            } else {
                cached
            };
            (PrefillPhase::Waiting, PrefillAction::Retain { below })
        } else if trim_unsupported {
            (PrefillPhase::Restoring, PrefillAction::Restore { cached, unsupported: false })
        } else {
            (PrefillPhase::Trimming, PrefillAction::Trim { from: cached as u32 })
        };
        let limit: usize = if n_batch < 1 {
            1
        } else {
            n_batch as usize
        };
        (Prefill { phase, tokens, limit, cached, decoded: cached }, action)
    }

    /// The end of the next batch.
    fn end_of_batch(&self) -> (end: usize)
        requires
            self@.wf(),
            self.decoded < self.tokens.len(),
        ensures
            end == batch_end(self.tokens@, self.decoded as int, self.limit as int),
            self.decoded < end <= self.tokens.len(),
    {
        if self.limit < self.tokens.len() - self.decoded {
            self.decoded + self.limit
        } else {
            self.tokens.len()
        }
    }

    /// Lists the batch entries of the tokens `from..to`.
    fn entries(&self, from: usize, to: usize) -> (batch: Vec<BatchEntry>)
        requires
            from <= to <= self.tokens.len(),
        ensures
            batch@ == prompt_entries(self.tokens@, from as int, to as int),
    {
        let mut batch: Vec<BatchEntry> = Vec::new();
        let mut i: usize = from;
        while i < to
            invariant
                from <= i <= to <= self.tokens.len(),
                batch@ == prompt_entries(self.tokens@, from as int, i as int),
            decreases to - i,
        {
            batch.push(
                BatchEntry {
                    token: self.tokens[i],
                    position: i as i32,
                    logits: i == self.tokens.len() - 1,
                },
            );
            assert(batch@ =~= prompt_entries(self.tokens@, from as int, i + 1));
            i = i + 1;
        }
        batch
    }

    /// Decides how to go on decoding.
    fn proceed(&mut self, cancelled: bool) -> (action: PrefillAction)
        requires
            old(self)@.wf(),
            old(self)@.phase != PrefillPhase::Ended,
        ensures
            final(self)@.wf(),
            (final(self)@, action@) == old(self)@.proceed(cancelled),
    {
        if self.cached >= self.tokens.len() {
            self.phase = PrefillPhase::Dropping;
            PrefillAction::Trim { from: (self.tokens.len() - 1) as u32 }
        } else if self.decoded >= self.tokens.len() {
            self.phase = PrefillPhase::Ended;
            PrefillAction::Finish { cached: self.cached }
        } else if cancelled {
            self.phase = PrefillPhase::Ended;
            PrefillAction::Fail(cancel_message())
        } else {
            let end: usize = self.end_of_batch();
            let batch = self.entries(self.decoded, end);
            self.phase = PrefillPhase::Decoding;
            PrefillAction::Decode(batch)
        }
    }

    /// Takes in what came of the last action and decides what to do next.
    /// `cancelled` says whether the inference was cancelled.
    pub fn step(&mut self, event: PrefillEvent, cancelled: bool) -> (action: PrefillAction)
        requires
            old(self)@.wf(),
            old(self)@.expects(event),
        ensures
            final(self)@.wf(),
            (final(self)@, action@) == old(self)@.after(event, cancelled),
    {
        match event {
            PrefillEvent::Trimmed(Err(reason)) => {
                self.phase = PrefillPhase::Ended;
                PrefillAction::Fail(trim_failure(reason))
            },
            PrefillEvent::Trimmed(Ok(trimmed)) => {
                if self.phase == PrefillPhase::Dropping {
                    let last: usize = self.tokens.len() - 1;
                    if trimmed {
                        let batch = self.entries(last, self.tokens.len());
                        self.phase = PrefillPhase::Redecoding;
                        PrefillAction::Decode(batch)
                    } else {
                        let mut error = "KV cache trim (rollback) returned false at pos ".to_owned();
                        error.append(decimal_text(last as u64).as_str());
                        self.phase = PrefillPhase::Ended;
                        PrefillAction::Fail(error)
                    }
                } else if trimmed {
                    self.phase = PrefillPhase::Waiting;
                    PrefillAction::Retain { below: self.cached }
                } else {
                    self.phase = PrefillPhase::Restoring;
                    PrefillAction::Restore { cached: self.cached, unsupported: true }
                }
            },
            PrefillEvent::Restored(left) => {
                self.cached = left;
                self.decoded = left;
                self.proceed(cancelled)
            },
            PrefillEvent::Ready => self.proceed(cancelled),
            PrefillEvent::Decoded(Err(failure)) => {
                self.phase = PrefillPhase::Ended;
                PrefillAction::Fail(prompt_failure(failure))
            },
            PrefillEvent::Decoded(Ok(_)) => {
                if self.phase == PrefillPhase::Redecoding {
                    self.phase = PrefillPhase::Ended;
                    PrefillAction::Finish { cached: self.cached }
                } else {
                    self.decoded = self.end_of_batch();
                    self.phase = PrefillPhase::Waiting;
                    PrefillAction::Checkpoint {
                        decoded: self.decoded,
                        prompt_len: self.tokens.len(),
                    }
                }
            },
        }
    }
}

/// The batches that a prefill asks for from here on, where it is not cancelled
/// and none of them fails.
pub open spec fn remaining_batches(prefill: PrefillView) -> Seq<Seq<BatchEntry>>
    decreases prefill.tokens.len() - prefill.decoded,
{
    match prefill.proceed(false) {
        (next, PrefillActionView::Decode(batch)) => {
            let after = next.after(PrefillEvent::Decoded(Ok(())), false).0;
            if after.decoded > prefill.decoded {
                seq![batch] + remaining_batches(after)
            } else {
                seq![batch]
            }
        },
        _ => Seq::empty(),
    }
}

/// A prefill decodes the part of the prompt that is not in the cache, batch by batch.
pub proof fn law_prefill_decodes_the_suffix(prefill: PrefillView)
    requires
        prefill.wf(),
        prefill.phase == PrefillPhase::Waiting,
        prefill.cached < prefill.tokens.len(),
    ensures
        remaining_batches(prefill) == prompt_batches(
            prefill.tokens,
            prefill.decoded as int,
            prefill.limit as int,
        ),
        all_entries(remaining_batches(prefill)) == prompt_entries(
            prefill.tokens,
            prefill.decoded as int,
            prefill.tokens.len() as int,
        ),
    decreases prefill.tokens.len() - prefill.decoded,
{
    law_batches_cover_the_suffix(prefill.tokens, prefill.decoded as int, prefill.limit as int);
    if prefill.decoded < prefill.tokens.len() {
        let next = prefill.proceed(false).0;
        let after = next.after(PrefillEvent::Decoded(Ok(())), false).0;
        law_prefill_decodes_the_suffix(after);
    }
}

/// The prefill after a list of events, each with whether the inference was
/// cancelled by then.
pub open spec fn after_events(prefill: PrefillView, events: Seq<(PrefillEvent, bool)>) -> PrefillView
    decreases events.len(),
{
    if events.len() == 0 {
        prefill
    } else {
        after_events(prefill, events.drop_last()).after(events.last().0, events.last().1).0
    }
}

/// Whether the prefill waits for each of these events when it comes.
pub open spec fn expects_all(prefill: PrefillView, events: Seq<(PrefillEvent, bool)>) -> bool
    decreases events.len(),
{
    events.len() > 0 ==> expects_all(prefill, events.drop_last()) && after_events(
        prefill,
        events.drop_last(),
    ).expects(events.last().0)
}

/// However a prefill goes, no more tokens are reported as served from the cache
/// than the prompt shares with it.
pub proof fn law_no_more_is_served_than_is_shared(
    prefill: PrefillView,
    events: Seq<(PrefillEvent, bool)>,
    event: PrefillEvent,
    cancelled: bool,
)
    requires
        expects_all(prefill, events),
        after_events(prefill, events).expects(event),
    ensures
        after_events(prefill, events).after(event, cancelled).1 matches PrefillActionView::Finish {
            cached,
        } ==> cached <= prefill.cached,
{
    lemma_cached_never_grows(prefill, events);
}

/// The number of tokens that are served from the cache never grows.
proof fn lemma_cached_never_grows(prefill: PrefillView, events: Seq<(PrefillEvent, bool)>)
    requires
        expects_all(prefill, events),
    ensures
        after_events(prefill, events).cached <= prefill.cached,
    decreases events.len(),
{
    if events.len() > 0 {
        lemma_cached_never_grows(prefill, events.drop_last());
    }
}

/// A prompt that the cache serves whole has its last token decoded again, with
/// its logits, so that there is something to sample from.
pub proof fn law_a_cached_prompt_decodes_its_last_token(prefill: PrefillView, cancelled: bool)
    requires
        prefill.wf(),
        prefill.phase == PrefillPhase::Waiting,
        prefill.cached >= prefill.tokens.len(),
    ensures
        ({
            let (dropping, trim) = prefill.proceed(cancelled);
            let (redecoding, decode) = dropping.after(PrefillEvent::Trimmed(Ok(true)), cancelled);
            let (ended, finish) = redecoding.after(PrefillEvent::Decoded(Ok(())), cancelled);
            &&& trim == PrefillActionView::Trim { from: (prefill.tokens.len() - 1) as u32 }
            &&& decode matches PrefillActionView::Decode(batch) && batch.len() == 1
                && batch[0].token == prefill.tokens.last() && batch[0].logits
            &&& finish == PrefillActionView::Finish { cached: prefill.cached }
        }),
{
}

/// What a context holds while a prefill goes on, as far as it is the prompt's:
/// its length, and how much of the prompt it was left with when decoding began.
pub struct CacheModel {
    /// The number of positions that the cache holds.
    pub len: int,
    /// The number of tokens of the prompt that were left in the cache.
    pub served: int,
}

impl CacheModel {
    /// The cache after an action that came out as `event` says: dropping
    /// positions cuts it off, a restore leaves what it reports, and a batch is
    /// appended.
    pub open spec fn after(self, action: PrefillActionView, event: PrefillEvent) -> CacheModel {
        match (action, event) {
            (PrefillActionView::Trim { from }, PrefillEvent::Trimmed(Ok(true))) => CacheModel {
                len: if from < self.len {
                    from as int
                } else {
                    self.len
                },
                ..self
            },
            (_, PrefillEvent::Restored(left)) => CacheModel { len: left as int, served: left as int },
            (PrefillActionView::Decode(batch), PrefillEvent::Decoded(Ok(_))) => CacheModel {
                len: self.len + batch.len(),
                ..self
            },
            _ => self,
        }
    }

    /// Whether `batch` holds the tokens of the prompt that come right after the
    /// cache, each at its own position, with the logits of the last one alone.
    pub open spec fn continued_by(self, tokens: Seq<i32>, batch: Seq<BatchEntry>) -> bool {
        &&& batch.len() > 0
        &&& self.len + batch.len() <= tokens.len()
        &&& forall|k: int|
            0 <= k < batch.len() ==> {
                &&& (#[trigger] batch[k]).token == tokens[self.len + k]
                &&& batch[k].position == (self.len + k) as i32
                &&& batch[k].logits <==> self.len + k == tokens.len() - 1
            }
    }
}

/// A prefill that has come some way: where it stands, what it asked for last,
/// and what the cache holds.
pub struct PrefillRun {
    pub prefill: PrefillView,
    pub action: PrefillActionView,
    pub cache: CacheModel,
}

/// A prefill that was just started, on a cache of `entries` positions.
pub open spec fn started(prefill: PrefillView, action: PrefillActionView, entries: usize) -> PrefillRun {
    PrefillRun {
        prefill,
        action,
        cache: CacheModel { len: entries as int, served: prefill.cached as int },
    }
}

/// A prefill after a list of events, each with whether the inference was
/// cancelled by then.
pub open spec fn run_of(start: PrefillRun, events: Seq<(PrefillEvent, bool)>) -> PrefillRun
    decreases events.len(),
{
    if events.len() == 0 {
        start
    } else {
        let before = run_of(start, events.drop_last());
        let (event, cancelled) = events.last();
        let (prefill, action) = before.prefill.after(event, cancelled);
        PrefillRun { prefill, action, cache: before.cache.after(before.action, event) }
    }
}

/// Whether the prefill waits for each of these events when it comes.
pub open spec fn run_expects(start: PrefillRun, events: Seq<(PrefillEvent, bool)>) -> bool
    decreases events.len(),
{
    events.len() > 0 ==> run_expects(start, events.drop_last()) && run_of(
        start,
        events.drop_last(),
    ).prefill.expects(events.last().0)
}

/// What an action of a prefill means, given what the cache holds: a batch goes
/// on where the cache ends, sampling begins only once the whole prompt is in
/// the cache, checkpoints that are kept lie within the cache, and a checkpoint
/// is taken of the cache as it is.
pub open spec fn action_is_sound(tokens: Seq<i32>, cache: CacheModel, action: PrefillActionView) -> bool {
    match action {
        PrefillActionView::Decode(batch) => cache.continued_by(tokens, batch),
        PrefillActionView::Finish { cached } => cache.len == tokens.len() && cached == cache.served,
        PrefillActionView::Trim { from } => from < cache.len && (from == cache.served || from
            == tokens.len() - 1),
        PrefillActionView::Restore { cached, .. } => cached == cache.served,
        PrefillActionView::Retain { below } => below == cache.len || (cache.len == 0 && below == 1),
        PrefillActionView::Checkpoint { decoded, prompt_len } => decoded == cache.len && prompt_len
            == tokens.len(),
        PrefillActionView::Fail(_) => true,
    }
}

/// How the state of a prefill, its last action and the cache belong together.
spec fn in_step(tokens: Seq<i32>, run: PrefillRun) -> bool {
    let prefill = run.prefill;
    &&& prefill.wf()
    &&& prefill.tokens == tokens
    &&& prefill.tokens.len() <= u32::MAX
    &&& run.cache.served == prefill.cached
    &&& prefill.cached <= tokens.len()
    &&& prefill.decoded <= tokens.len()
    &&& match prefill.phase {
        PrefillPhase::Trimming => {
            &&& run.action == PrefillActionView::Trim { from: prefill.cached as u32 }
            &&& prefill.decoded == prefill.cached < run.cache.len
        },
        PrefillPhase::Restoring => {
            &&& run.action is Restore
            &&& prefill.decoded == prefill.cached
        },
        PrefillPhase::Waiting => {
            &&& run.action is Retain || run.action is Checkpoint
            &&& run.cache.len == prefill.decoded
        },
        PrefillPhase::Decoding => {
            &&& run.action == PrefillActionView::Decode(prefill.next_batch())
            &&& run.cache.len == prefill.decoded < tokens.len()
        },
        PrefillPhase::Dropping => {
            &&& run.action == PrefillActionView::Trim { from: (tokens.len() - 1) as u32 }
            &&& run.cache.len == prefill.cached == tokens.len()
        },
        PrefillPhase::Redecoding => {
            &&& run.action matches PrefillActionView::Decode(batch) && batch.len() == 1
            &&& run.cache.len == tokens.len() - 1
        },
        PrefillPhase::Ended => true,
    }
    &&& action_is_sound(tokens, run.cache, run.action)
}

/// An event that the prefill waits for keeps all in step.
proof fn lemma_stays_in_step(tokens: Seq<i32>, run: PrefillRun, event: PrefillEvent, cancelled: bool)
    requires
        in_step(tokens, run),
        run.prefill.expects(event),
    ensures
        ({
            let (prefill, action) = run.prefill.after(event, cancelled);
            in_step(tokens, PrefillRun { prefill, action, cache: run.cache.after(run.action, event) })
        }),
{
}

/// However a prefill goes, from its start on a cache of which the prompt shares
/// the first `cached` positions: every batch goes on exactly where the cache
/// ends, with the prompt's own tokens, so that nothing is left out and nothing
/// decoded twice, whatever was dropped or restored; and sampling begins only
/// once the cache holds the whole prompt.
pub proof fn law_a_prefill_leaves_no_gaps(
    tokens: Seq<i32>,
    cached: usize,
    entries: usize,
    trim_unsupported: bool,
    limit: usize,
    events: Seq<(PrefillEvent, bool)>,
)
    requires
        0 < tokens.len() <= u32::MAX,
        cached <= tokens.len(),
        cached <= entries,
        limit >= 1,
        run_expects(prefill_start(tokens, cached, entries, trim_unsupported, limit), events),
    ensures
        ({
            let run = run_of(
                prefill_start(tokens, cached, entries, trim_unsupported, limit),
                events,
            );
            action_is_sound(tokens, run.cache, run.action)
        }),
{
    lemma_run_in_step(tokens, cached, entries, trim_unsupported, limit, events);
}

/// The number of tokens that a batch of a context takes, of which `n_batch` was asked for.
pub open spec fn tokens_per_batch(n_batch: u32) -> usize {
    if n_batch < 1 {
        1
    } else {
        n_batch as usize
    }
}

/// A batch takes what was asked for, but at least one token.
pub proof fn law_a_batch_takes_a_token(n_batch: u32)
    ensures
        tokens_per_batch(0) == 1,
        n_batch > 0 ==> tokens_per_batch(n_batch) == n_batch,
{
}

/// A prefill as [`Prefill::start`] leaves it.
pub open spec fn prefill_start(
    tokens: Seq<i32>,
    cached: usize,
    entries: usize,
    trim_unsupported: bool,
    limit: usize,
) -> PrefillRun {
    let (phase, action) = first_action(cached, entries, trim_unsupported);
    started(PrefillView { phase, tokens, limit, cached, decoded: cached }, action, entries)
}

/// However a prefill goes, all stays in step.
proof fn lemma_run_in_step(
    tokens: Seq<i32>,
    cached: usize,
    entries: usize,
    trim_unsupported: bool,
    limit: usize,
    events: Seq<(PrefillEvent, bool)>,
)
    requires
        0 < tokens.len() <= u32::MAX,
        cached <= tokens.len(),
        cached <= entries,
        limit >= 1,
        run_expects(prefill_start(tokens, cached, entries, trim_unsupported, limit), events),
    ensures
        in_step(
            tokens,
            run_of(prefill_start(tokens, cached, entries, trim_unsupported, limit), events),
        ),
    decreases events.len(),
{
    if events.len() > 0 {
        let start = prefill_start(tokens, cached, entries, trim_unsupported, limit);
        lemma_run_in_step(tokens, cached, entries, trim_unsupported, limit, events.drop_last());
        lemma_stays_in_step(
            tokens,
            run_of(start, events.drop_last()),
            events.last().0,
            events.last().1,
        );
    }
}

/// A batch takes as many of the tokens that are left as fit.
pub proof fn law_batches_are_full(prefill: PrefillView, cancelled: bool)
    requires
        prefill.wf(),
    ensures
        prefill.proceed(cancelled).1 matches PrefillActionView::Decode(batch) ==> batch.len()
            == prefill.limit || batch.len() == prefill.tokens.len() - prefill.decoded
            < prefill.limit,
{
}

/// A prefill fails only where an action failed, the last position could not be
/// dropped, or the inference was cancelled; and where an action failed, it
/// does, and says why. A cancelled prefill decodes no further part of a prompt.
pub proof fn law_a_prefill_fails_for_a_reason(
    prefill: PrefillView,
    event: PrefillEvent,
    cancelled: bool,
)
    requires
        prefill.wf(),
        prefill.expects(event),
    ensures
        ({
            let action = prefill.after(event, cancelled).1;
            let broken = match event {
                PrefillEvent::Trimmed(outcome) => outcome is Err,
                PrefillEvent::Decoded(outcome) => outcome is Err,
                _ => false,
            };
            &&& broken ==> action is Fail
            &&& action is Fail ==> broken || cancelled || (prefill.phase == PrefillPhase::Dropping
                && event == PrefillEvent::Trimmed(Ok(false)))
            &&& action is Fail ==> prefill.after(event, cancelled).0.phase == PrefillPhase::Ended
            &&& cancelled && action is Decode ==> prefill.phase == PrefillPhase::Dropping
            &&& event matches PrefillEvent::Trimmed(Err(reason)) ==> action
                == PrefillActionView::Fail("KV cache trim failed: "@ + reason@)
            &&& event matches PrefillEvent::Decoded(Err(DecodeFailure::Add(reason))) ==> action
                == PrefillActionView::Fail("Batch add failed: "@ + reason@)
            &&& event matches PrefillEvent::Decoded(Err(DecodeFailure::Decode(reason))) ==> action
                == PrefillActionView::Fail("Prompt decode failed: "@ + reason@)
        }),
{
}

/// A prompt is run where it could be tokenized, is not empty and fits in the
/// context, and then with all its tokens; else the report says which of these
/// it was.
pub proof fn law_prompts_that_fit_are_run(tokens: Result<Seq<i32>, Seq<char>>, n_ctx: u32)
    ensures
        checked_tokens(tokens, n_ctx) is Ok <==> tokens is Ok && 0 < tokens->Ok_0.len() <= n_ctx,
        checked_tokens(tokens, n_ctx) is Ok ==> checked_tokens(tokens, n_ctx) == tokens,
        tokens matches Err(reason) ==> checked_tokens(tokens, n_ctx) == Err::<Seq<i32>, Seq<char>>(
            "Tokenization failed: "@ + reason,
        ),
        tokens is Ok && tokens->Ok_0.len() == 0 ==> checked_tokens(tokens, n_ctx) == Err::<
            Seq<i32>,
            Seq<char>,
        >("Empty prompt after tokenization"@),
        tokens is Ok && tokens->Ok_0.len() > n_ctx ==> checked_tokens(tokens, n_ctx) == Err::<
            Seq<i32>,
            Seq<char>,
        >(
            "Prompt "@ + decimal(tokens->Ok_0.len()) + " tokens exceeds n_ctx "@ + decimal(
                n_ctx as nat,
            ),
        ) || tokens->Ok_0.len() == 0,
{
}

/// The entries of a prompt are its tokens, one for one.
pub proof fn law_prompts_are_all_text(tokens: Seq<i32>)
    ensures
        text_entries(tokens).len() == tokens.len(),
        forall|i: int|
            0 <= i < tokens.len() ==> #[trigger] text_entries(tokens)[i] == SlotEntry::Text(tokens[i]),
{
}

/// A prefill starts without touching a cache that holds nothing but the shared
/// part. Else it drops what is behind that part, or has a checkpoint restored
/// where the model is known to be unable to drop anything; where it is found to
/// be unable only then, a checkpoint is restored as well, and that is said.
pub proof fn law_the_shared_part_is_kept(
    cached: usize,
    entries: usize,
    trim_unsupported: bool,
    prefill: PrefillView,
    cancelled: bool,
)
    requires
        cached <= entries <= u32::MAX,
        prefill.phase == PrefillPhase::Trimming,
    ensures
        cached == entries ==> first_action(cached, entries, trim_unsupported).1 is Retain,
        cached < entries && trim_unsupported ==> first_action(cached, entries, trim_unsupported).1
            == (PrefillActionView::Restore { cached, unsupported: false }),
        cached < entries && !trim_unsupported ==> first_action(
            cached,
            entries,
            trim_unsupported,
        ).1 == (PrefillActionView::Trim { from: cached as u32 }),
        prefill.after(PrefillEvent::Trimmed(Ok(true)), cancelled) == (
            PrefillView { phase: PrefillPhase::Waiting, ..prefill },
            PrefillActionView::Retain { below: prefill.cached },
        ),
        prefill.after(PrefillEvent::Trimmed(Ok(false)), cancelled) == (
            PrefillView { phase: PrefillPhase::Restoring, ..prefill },
            PrefillActionView::Restore { cached: prefill.cached, unsupported: true },
        ),
{
}

/// A decoded batch is followed by a checkpoint where one is due. A prefill that
/// is cancelled while tokens are left says so, and one whose last position
/// cannot be dropped says where.
pub proof fn law_a_prefill_says_where_it_stands(prefill: PrefillView, cancelled: bool)
    requires
        prefill.wf(),
    ensures
        prefill.phase == PrefillPhase::Decoding ==> prefill.after(
            PrefillEvent::Decoded(Ok(())),
            cancelled,
        ).1 is Checkpoint,
        prefill.phase == PrefillPhase::Decoding ==> prefill.after(
            PrefillEvent::Decoded(Ok(())),
            cancelled,
        ).0.cached == prefill.cached,
        prefill.cached < prefill.tokens.len() && prefill.decoded < prefill.tokens.len()
            ==> prefill.proceed(true).1 == PrefillActionView::Fail("inference cancelled"@),
        prefill.cached < prefill.tokens.len() && prefill.decoded < prefill.tokens.len()
            ==> prefill.proceed(false).1 is Decode,
        prefill.phase == PrefillPhase::Dropping ==> prefill.after(
            PrefillEvent::Trimmed(Ok(false)),
            cancelled,
        ).1 == PrefillActionView::Fail(
            "KV cache trim (rollback) returned false at pos "@ + decimal(
                (prefill.tokens.len() - 1) as nat,
            ),
        ),
        prefill.phase == PrefillPhase::Waiting ==> prefill.after(PrefillEvent::Ready, cancelled)
            == prefill.proceed(cancelled),
{
}

/// What an action shows is what it holds.
pub proof fn law_prefill_actions_show_what_they_hold(action: PrefillAction)
    ensures
        action matches PrefillAction::Trim { from } ==> action@ == (PrefillActionView::Trim { from }),
        action matches PrefillAction::Restore { cached, unsupported } ==> action@ == (
        PrefillActionView::Restore { cached, unsupported }),
        action matches PrefillAction::Retain { below } ==> action@ == (PrefillActionView::Retain {
            below,
        }),
        action matches PrefillAction::Decode(batch) ==> action@ == PrefillActionView::Decode(batch@),
        action matches PrefillAction::Checkpoint { decoded, prompt_len } ==> action@ == (
        PrefillActionView::Checkpoint { decoded, prompt_len }),
        action matches PrefillAction::Finish { cached } ==> action@ == (PrefillActionView::Finish {
            cached,
        }),
        action matches PrefillAction::Fail(text) ==> action@ == PrefillActionView::Fail(text@),
{
}

}

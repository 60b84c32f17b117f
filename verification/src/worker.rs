//! The worker: which command it takes, when it loads a model, and how one turn
//! of text inference goes.
use crate::prefill::{
    after_events, entries_of_tokens, expects_all, law_no_more_is_served_than_is_shared,
    text_entries, PrefillActionView, PrefillEvent, PrefillView,
};
use crate::slot::{
    common_prefix, get_common_prefix, law_lists_differ_behind_the_common_prefix, SlotEntry,
};
use crate::types::{
    closing_chunk, usage_of, CheckpointParams, InferenceResult, LoadError, StreamChunk,
};
use vstd::prelude::*;

verus! {

/// Whether a request with this many images is run with them.
pub open spec fn images_are_run(images: usize, has_projector: bool) -> bool {
    images > 0 && has_projector
}

/// Images are run only where there are some and a projector reads them, and
/// then always.
pub proof fn law_images_need_a_projector(images: usize)
    ensures
        !images_are_run(images, false),
        !images_are_run(0, true),
        images > 0 ==> images_are_run(images, true),
{
}

/// Whether a request is run with its images: it has some, and the model has a
/// projector for them.
pub fn runs_with_images(images: usize, has_projector: bool) -> (with_images: bool)
    ensures
        with_images == (images > 0 && has_projector),
        with_images == images_are_run(images, has_projector),
{
    images > 0 && has_projector
}

/// What a stream ends with: the chunk of its result, or its error.
pub open spec fn ended_with(result: Result<InferenceResult, String>) -> Result<StreamChunk, String> {
    match result {
        Ok(result) => Ok(closing_chunk(result)),
        Err(error) => Err(error),
    }
}

/// A stream whose inference succeeded ends with the text and with all token
/// counts, from which its usage follows; one whose inference failed ends with
/// just that error.
pub proof fn law_streams_end_with_their_counts(result: InferenceResult, error: String)
    ensures
        ended_with(Err(error)) == Err::<StreamChunk, String>(error),
        ended_with(Ok(result)) matches Ok(chunk) && {
            &&& chunk.text == result.text
            &&& usage_of(chunk) matches Some(usage)
            &&& usage.input_tokens == result.prompt_tokens
            &&& usage.output_tokens == result.completion_tokens
            &&& usage.cached_input_tokens == result.cached_input_tokens
        },
{
}

/// What ends the stream of a request: the final chunk, or the error.
pub fn stream_end(result: Result<InferenceResult, String>) -> (end: Result<StreamChunk, String>)
    ensures
        match result {
            Ok(result) => {
                &&& end is Ok
                &&& end->Ok_0.text == result.text
                &&& end->Ok_0.prompt_tokens == Some(result.prompt_tokens)
                &&& end->Ok_0.completion_tokens == Some(result.completion_tokens)
                &&& end->Ok_0.cached_input_tokens == Some(result.cached_input_tokens)
            },
            Err(error) => end == Err::<StreamChunk, String>(error),
        },
        end == ended_with(result),
{
    match result {
        Ok(result) => Ok(result.final_chunk()),
        Err(error) => Err(error),
    }
}

/// What to do once a prompt was decoded and its completion sampled, or was not.
pub enum TurnAction {
    /// Sample the completion: the prompt has this many tokens, of which this
    /// many were served from the cache, and the first token that is sampled
    /// stands at this position.
    Sample { prompt_tokens: u64, cached_tokens: u64, position: i32 },
    /// Drop the persistent context, make a fresh one, and decode the prompt
    /// again, with nothing cached.
    Retry,
    /// Drop the persistent context and give up, with this message.
    Fail(String),
    /// Answer with this result.
    Answer(InferenceResult),
}

/// Whether the persistent context stays after `action`: not where it has to be
/// made afresh, nor where the turn failed.
pub open spec fn context_kept(action: TurnAction) -> bool {
    action is Sample || action is Answer
}

impl TurnAction {
    /// Decides [`context_kept`].
    pub fn keeps_context(&self) -> (keep: bool)
        ensures
            keep == context_kept(*self),
    {
        match self {
            TurnAction::Sample { .. } => true,
            TurnAction::Retry => false,
            TurnAction::Fail(_) => false,
            TurnAction::Answer(_) => true,
        }
    }
}

/// One turn of text inference.
pub struct Turn {
    entries: Vec<SlotEntry>,
    prompt_len: usize,
    cached: usize,
    retried: bool,
}

/// The view of a [`Turn`].
pub struct TurnView {
    /// What the cache holds once the prompt is decoded, until it is handed out.
    pub entries: Seq<SlotEntry>,
    /// The number of tokens of the prompt.
    pub prompt_len: usize,
    /// How much of the prompt the cache holds already.
    pub cached: usize,
    /// Whether the prompt is decoded for the second time.
    pub retried: bool,
}

impl View for Turn {
    type V = TurnView;

    closed spec fn view(&self) -> TurnView {
        TurnView {
            entries: self.entries@,
            prompt_len: self.prompt_len,
            cached: self.cached,
            retried: self.retried,
        }
    }
}

impl TurnView {
    /// No more of the prompt is cached than it has, and a second attempt starts
    /// with nothing cached.
    pub open spec fn wf(self) -> bool {
        &&& self.cached <= self.prompt_len
        &&& self.retried ==> self.cached == 0
    }

    /// The turn after an attempt to decode the prompt, which left `outcome`
    /// tokens to the cache or failed, and whether it is tried again: a failure
    /// is, where part of the prompt was served from the cache.
    pub open spec fn after_prefill(self, outcome: Result<usize, String>) -> (TurnView, bool) {
        if outcome is Err && self.cached > 0 {
            (TurnView { cached: 0, retried: true, ..self }, true)
        } else {
            (self, false)
        }
    }

    /// What to do after an attempt to decode the prompt.
    pub open spec fn prefilled(self, outcome: Result<usize, String>) -> TurnAction {
        match outcome {
            Ok(effective) => TurnAction::Sample {
                prompt_tokens: self.prompt_len as u64,
                cached_tokens: effective as u64,
                position: self.prompt_len as i32,
            },
            Err(error) => if self.after_prefill(outcome).1 {
                TurnAction::Retry
            } else {
                TurnAction::Fail(error)
            },
        }
    }
}

/// A prompt is decoded at most twice, and only the first attempt builds on the cache.
pub proof fn law_a_turn_retries_at_most_once(turn: TurnView, outcome: Result<usize, String>)
    requires
        turn.wf(),
    ensures
        turn.after_prefill(outcome).0.wf(),
        turn.after_prefill(outcome).1 ==> !turn.retried && turn.after_prefill(outcome).0.retried,
        turn.retried ==> !turn.after_prefill(outcome).1,
{
}

/// A turn for a prompt of these tokens, on a cache that holds `last_entries`.
pub open spec fn new_turn(tokens: Seq<i32>, last_entries: Seq<SlotEntry>) -> TurnView {
    TurnView {
        entries: text_entries(tokens),
        prompt_len: tokens.len() as usize,
        cached: common_prefix(last_entries, text_entries(tokens)) as usize,
        retried: false,
    }
}

/// A turn starts with all of its prompt, and builds on as much of the cache as
/// holds the same tokens from the start on: what is right behind that differs.
pub proof fn law_a_turn_builds_on_the_shared_tokens(
    tokens: Seq<i32>,
    last_entries: Seq<SlotEntry>,
)
    requires
        tokens.len() <= usize::MAX,
    ensures
        ({
            let turn = new_turn(tokens, last_entries);
            &&& turn.wf()
            &&& !turn.retried
            &&& turn.prompt_len == tokens.len()
            &&& turn.entries.len() == tokens.len()
            &&& forall|i: int|
                0 <= i < tokens.len() ==> #[trigger] turn.entries[i] == SlotEntry::Text(tokens[i])
            &&& turn.cached <= tokens.len()
            &&& turn.cached <= last_entries.len()
            &&& forall|i: int|
                0 <= i < turn.cached ==> #[trigger] last_entries[i] == SlotEntry::Text(tokens[i])
            &&& turn.cached < tokens.len() && turn.cached < last_entries.len()
                ==> last_entries[turn.cached as int] != SlotEntry::Text(tokens[turn.cached as int])
        }),
{
    law_lists_differ_behind_the_common_prefix(last_entries, text_entries(tokens));
}

impl Turn {
    /// A turn for a prompt of these tokens, on a cache that holds `last_entries`.
    pub fn new(tokens: &Vec<i32>, last_entries: &Vec<SlotEntry>) -> (turn: Self)
        ensures
            turn@ == (TurnView {
                entries: text_entries(tokens@),
                prompt_len: tokens@.len() as usize,
                cached: common_prefix(last_entries@, text_entries(tokens@)) as usize,
                retried: false,
            }),
            turn@.prompt_len == tokens@.len(),
            turn@.cached == common_prefix(last_entries@, text_entries(tokens@)),
            turn@ == new_turn(tokens@, last_entries@),
            turn@.wf(),
    {
        let entries = entries_of_tokens(tokens);
        let cached: usize = get_common_prefix(last_entries, &entries);
        assert(entries@.len() == tokens.len());
        Turn { entries, prompt_len: tokens.len(), cached, retried: false }
    }

    /// How much of the prompt the cache holds already.
    pub fn cached(&self) -> (cached: usize)
        ensures
            cached == self@.cached,
    {
        self.cached
    }

    /// Takes in how decoding the prompt went: how much of it was served from
    /// the cache, or why it failed.
    pub fn take_prefill(&mut self, outcome: Result<usize, String>) -> (action: TurnAction)
        requires
            old(self)@.wf(),
        ensures
            final(self)@.wf(),
            final(self)@ == old(self)@.after_prefill(outcome).0,
            action == old(self)@.prefilled(outcome),
    {
        match outcome {
            Ok(effective) => TurnAction::Sample {
                prompt_tokens: self.prompt_len as u64,
                cached_tokens: effective as u64,
                position: self.prompt_len as i32,
            },
            Err(error) => if self.cached > 0 {
                self.cached = 0;
                self.retried = true;
                TurnAction::Retry
            } else {
                TurnAction::Fail(error)
            },
        }
    }

    /// Hands out what the cache holds now that the prompt is decoded.
    pub fn take_entries(&mut self) -> (entries: Vec<SlotEntry>)
        ensures
            entries@ == old(self)@.entries,
            final(self)@ == (TurnView { entries: Seq::empty(), ..old(self)@ }),
    {
        let mut entries: Vec<SlotEntry> = Vec::new();
        std::mem::swap(&mut entries, &mut self.entries);
        assert(self.entries@ =~= Seq::empty());
        entries
    }

    /// Takes in how sampling went, which ends the turn. Where it failed, output
    /// may have been streamed already, so that it is not tried again.
    pub fn take_sampling(self, result: Result<InferenceResult, String>) -> (action: TurnAction)
        ensures
            action == sampled(result),
    {
        match result {
            Ok(result) => TurnAction::Answer(result),
            Err(error) => TurnAction::Fail(error),
        }
    }
}

/// What ends a turn: the result of sampling, or its error.
pub open spec fn sampled(result: Result<InferenceResult, String>) -> TurnAction {
    match result {
        Ok(result) => TurnAction::Answer(result),
        Err(error) => TurnAction::Fail(error),
    }
}

/// Where part of a prompt is in the cache and decoding it fails, the context is
/// dropped and the prompt decoded once more with nothing cached. What comes of
/// that decides: it is sampled, and the turn ends as sampling does, or it fails
/// with the second error. Where it fails either way, the context is dropped.
pub proof fn law_a_failed_prefill_is_tried_afresh(
    turn: TurnView,
    first: String,
    second: Result<usize, String>,
    result: Result<InferenceResult, String>,
)
    requires
        turn.wf(),
        turn.cached > 0,
    ensures
        turn.prefilled(Err(first)) == TurnAction::Retry,
        !context_kept(turn.prefilled(Err(first))),
        context_kept(turn.after_prefill(Err(first)).0.prefilled(second)) == (second is Ok),
        context_kept(sampled(result)) == (result is Ok),
        ({
            let retry = turn.after_prefill(Err(first)).0;
            &&& retry.cached == 0
            &&& retry.entries == turn.entries
            &&& match second {
                Ok(effective) => retry.prefilled(second) == (TurnAction::Sample {
                    prompt_tokens: turn.prompt_len as u64,
                    cached_tokens: effective as u64,
                    position: turn.prompt_len as i32,
                }),
                Err(error) => retry.prefilled(second) == TurnAction::Fail(error),
            }
        }),
        match result {
            Ok(result) => sampled(Ok(result)) == TurnAction::Answer(result),
            Err(error) => sampled(Err(error)) == TurnAction::Fail(error),
        },
{
}

/// The second attempt to decode a prompt serves nothing from the cache.
pub proof fn law_a_retry_serves_nothing(
    turn: TurnView,
    first: String,
    prefill: PrefillView,
    events: Seq<(PrefillEvent, bool)>,
    event: PrefillEvent,
    cancelled: bool,
)
    requires
        turn.wf(),
        turn.cached > 0,
        prefill.cached == turn.after_prefill(Err(first)).0.cached,
        expects_all(prefill, events),
        after_events(prefill, events).expects(event),
    ensures
        after_events(prefill, events).after(event, cancelled).1 matches PrefillActionView::Finish {
            cached,
        } ==> cached == 0,
{
    law_no_more_is_served_than_is_shared(prefill, events, event, cancelled);
}

/// Where a worker stands.
#[derive(Clone, Copy)]
pub enum WorkerPhase {
    /// The backend is being initialised.
    Starting,
    /// The first model is being loaded.
    Loading,
    /// The worker waits for a command.
    Serving,
    /// A request is being answered.
    Answering,
    /// Another model is being loaded, to be run with these parameters.
    Reloading(CheckpointParams),
    /// The worker has ended.
    Stopped,
}

/// A worker: where it stands, and the parameters that its model is run with.
#[derive(Clone, Copy)]
pub struct WorkerState {
    /// Where it stands.
    pub phase: WorkerPhase,
    /// The parameters that its model is run with.
    pub checkpoint_params: CheckpointParams,
}

/// What a client asks of a worker.
#[derive(Clone, Copy)]
pub enum WorkerCommand {
    /// Answer a request.
    Request,
    /// Load another model, to be run with these parameters.
    Reload(CheckpointParams),
    /// End.
    Shutdown,
}

/// What happens to a worker.
pub enum WorkerEvent {
    /// The backend was initialised, or was not.
    Backend(Result<(), String>),
    /// A model was loaded, or was not.
    Loaded(Result<(), LoadError>),
    /// A command came, or the channel of commands closed.
    Command(Option<WorkerCommand>),
    /// A request was answered; `cancelled` says whether the client goes away.
    Answered { cancelled: bool },
}

/// What a worker does next.
pub enum WorkerAction {
    /// Load the first model.
    Load,
    /// Drop the model and load another.
    Reload,
    /// Report how loading went, then go on as the phase says.
    Report(Result<(), LoadError>),
    /// Run the request.
    Run,
    /// Wait for a command.
    Wait,
    /// End.
    Stop,
}

impl WorkerState {
    /// Whether `event` can happen where the worker stands.
    pub open spec fn expects(self, event: WorkerEvent) -> bool {
        match self.phase {
            WorkerPhase::Starting => event is Backend,
            WorkerPhase::Loading => event is Loaded,
            WorkerPhase::Serving => event is Command,
            WorkerPhase::Answering => event is Answered,
            WorkerPhase::Reloading(_) => event is Loaded,
            WorkerPhase::Stopped => false,
        }
    }

    /// The worker after `event`, and what it does next.
    pub open spec fn after(self, event: WorkerEvent) -> (WorkerState, WorkerAction) {
        match event {
            WorkerEvent::Backend(Ok(_)) => (
                WorkerState { phase: WorkerPhase::Loading, ..self },
                WorkerAction::Load,
            ),
            WorkerEvent::Backend(Err(reason)) => (
                WorkerState { phase: WorkerPhase::Stopped, ..self },
                WorkerAction::Report(Err(LoadError::BackendInit(reason))),
            ),
            WorkerEvent::Loaded(Ok(loaded)) => (
                WorkerState {
                    phase: WorkerPhase::Serving,
                    checkpoint_params: match self.phase {
                        WorkerPhase::Reloading(params) => params,
                        _ => self.checkpoint_params,
                    },
                },
                WorkerAction::Report(Ok(loaded)),
            ),
            WorkerEvent::Loaded(Err(error)) => (
                WorkerState { phase: WorkerPhase::Stopped, ..self },
                WorkerAction::Report(Err(error)),
            ),
            WorkerEvent::Command(Some(WorkerCommand::Request)) => (
                WorkerState { phase: WorkerPhase::Answering, ..self },
                WorkerAction::Run,
            ),
            WorkerEvent::Command(Some(WorkerCommand::Reload(params))) => (
                WorkerState { phase: WorkerPhase::Reloading(params), ..self },
                WorkerAction::Reload,
            ),
            WorkerEvent::Command(_) => (
                WorkerState { phase: WorkerPhase::Stopped, ..self },
                WorkerAction::Stop,
            ),
            WorkerEvent::Answered { cancelled } => if cancelled {
                (WorkerState { phase: WorkerPhase::Stopped, ..self }, WorkerAction::Stop)
            } else {
                (WorkerState { phase: WorkerPhase::Serving, ..self }, WorkerAction::Wait)
            },
        }
    }

    /// A worker before its backend is initialised.
    pub fn new(checkpoint_params: CheckpointParams) -> (state: Self)
        ensures
            state.phase == WorkerPhase::Starting,
            state.checkpoint_params == checkpoint_params,
    {
        WorkerState { phase: WorkerPhase::Starting, checkpoint_params }
    }

    /// Takes in an event and decides what to do next.
    pub fn step(&mut self, event: WorkerEvent) -> (action: WorkerAction)
        requires
            old(self).expects(event),
        ensures
            (*final(self), action) == old(self).after(event),
    {
        match event {
            WorkerEvent::Backend(Ok(_)) => {
                self.phase = WorkerPhase::Loading;
                WorkerAction::Load
            },
            WorkerEvent::Backend(Err(reason)) => {
                self.phase = WorkerPhase::Stopped;
                WorkerAction::Report(Err(LoadError::BackendInit(reason)))
            },
            WorkerEvent::Loaded(Ok(loaded)) => {
                if let WorkerPhase::Reloading(params) = self.phase {
                    self.checkpoint_params = params;
                }
                self.phase = WorkerPhase::Serving;
                WorkerAction::Report(Ok(loaded))
            },
            WorkerEvent::Loaded(Err(error)) => {
                self.phase = WorkerPhase::Stopped;
                WorkerAction::Report(Err(error))
            },
            WorkerEvent::Command(Some(WorkerCommand::Request)) => {
                self.phase = WorkerPhase::Answering;
                WorkerAction::Run
            },
            WorkerEvent::Command(Some(WorkerCommand::Reload(params))) => {
                self.phase = WorkerPhase::Reloading(params);
                WorkerAction::Reload
            },
            WorkerEvent::Command(_) => {
                self.phase = WorkerPhase::Stopped;
                WorkerAction::Stop
            },
            WorkerEvent::Answered { cancelled } => {
                if cancelled {
                    self.phase = WorkerPhase::Stopped;
                    WorkerAction::Stop
                } else {
                    self.phase = WorkerPhase::Serving;
                    WorkerAction::Wait
                }
            },
        }
    }
}

/// Every attempt to load is reported as it went, and one that failed ends the worker.
pub proof fn law_loading_is_reported(state: WorkerState, outcome: Result<(), LoadError>)
    requires
        state.expects(WorkerEvent::Loaded(outcome)),
    ensures
        state.after(WorkerEvent::Loaded(outcome)).1 == WorkerAction::Report(outcome),
        outcome is Err <==> state.after(WorkerEvent::Loaded(outcome)).0.phase is Stopped,
        outcome is Ok <==> state.after(WorkerEvent::Loaded(outcome)).0.phase is Serving,
{
}

/// A worker that is told to end, whose client goes away, or whose commands end
/// takes no further event.
pub proof fn law_a_stopped_worker_takes_no_event(state: WorkerState, event: WorkerEvent)
    requires
        state.expects(event),
        state.after(event).0.phase is Stopped,
    ensures
        forall|other: WorkerEvent| !(#[trigger] state.after(event).0.expects(other)),
{
}

/// The parameters of a worker change only where another model was loaded.
pub proof fn law_parameters_change_with_the_model(state: WorkerState, event: WorkerEvent)
    requires
        state.expects(event),
    ensures
        state.after(event).0.checkpoint_params == state.checkpoint_params || (
        state.phase matches WorkerPhase::Reloading(params) && event matches WorkerEvent::Loaded(
            Ok(_),
        ) && state.after(event).0.checkpoint_params == params),
{
}

/// A prompt that was decoded is sampled, behind all of its tokens and with as
/// many of them counted as cached as were; one that failed with nothing cached
/// ends the turn with its error. Neither changes the turn.
pub proof fn law_a_decoded_prompt_is_sampled(turn: TurnView, effective: usize, error: String)
    ensures
        turn.prefilled(Ok(effective)) == (TurnAction::Sample {
            prompt_tokens: turn.prompt_len as u64,
            cached_tokens: effective as u64,
            position: turn.prompt_len as i32,
        }),
        turn.after_prefill(Ok(effective)).0 == turn,
        turn.cached == 0 ==> turn.prefilled(Err(error)) == TurnAction::Fail(error),
        turn.cached == 0 ==> turn.after_prefill(Err(error)).0 == turn,
        turn.after_prefill(Err(error)).0.prompt_len == turn.prompt_len,
{
}

/// A worker loads its model once the backend is there, and says why where it is not.
pub proof fn law_a_worker_starts_with_its_backend(state: WorkerState, reason: String)
    ensures
        state.after(WorkerEvent::Backend(Ok(()))).1 is Load,
        state.after(WorkerEvent::Backend(Ok(()))).0 == (WorkerState {
            phase: WorkerPhase::Loading,
            checkpoint_params: state.checkpoint_params,
        }),
        state.after(WorkerEvent::Backend(Err(reason))).1 == WorkerAction::Report(
            Err(LoadError::BackendInit(reason)),
        ),
        state.after(WorkerEvent::Backend(Err(reason))).0.phase is Stopped,
{
}

/// A worker runs a request where one comes, and waits for the next command once
/// it is answered, with the model that it has; it ends where the client goes away.
pub proof fn law_requests_are_answered_one_by_one(state: WorkerState)
    ensures
        ({
            let (answering, action) = state.after(WorkerEvent::Command(Some(WorkerCommand::Request)));
            &&& action is Run
            &&& answering.phase is Answering
            &&& answering.after(WorkerEvent::Answered { cancelled: false }).0 == (WorkerState {
                phase: WorkerPhase::Serving,
                checkpoint_params: state.checkpoint_params,
            })
            &&& answering.after(WorkerEvent::Answered { cancelled: false }).1 is Wait
            &&& answering.after(WorkerEvent::Answered { cancelled: true }).0.phase is Stopped
            &&& answering.after(WorkerEvent::Answered { cancelled: true }).1 is Stop
        }),
        state.after(WorkerEvent::Command(Some(WorkerCommand::Shutdown))).0.phase is Stopped,
        state.after(WorkerEvent::Command(Some(WorkerCommand::Shutdown))).1 is Stop,
        state.after(WorkerEvent::Command(None)).0.phase is Stopped,
        state.after(WorkerEvent::Command(None)).1 is Stop,
{
}

/// A worker that is told to load another model loads it, and once that is done
/// runs it with the parameters that came with the command.
pub proof fn law_a_reloaded_model_has_its_own_parameters(
    state: WorkerState,
    params: CheckpointParams,
)
    ensures
        ({
            let (reloading, action) = state.after(
                WorkerEvent::Command(Some(WorkerCommand::Reload(params))),
            );
            &&& action is Reload
            &&& reloading.phase is Reloading
            &&& reloading.after(WorkerEvent::Loaded(Ok(()))).0 == (WorkerState {
                phase: WorkerPhase::Serving,
                checkpoint_params: params,
            })
        }),
        state.phase is Loading ==> state.after(WorkerEvent::Loaded(Ok(()))).0 == (WorkerState {
            phase: WorkerPhase::Serving,
            checkpoint_params: state.checkpoint_params,
        }),
{
}

/// What each phase of a worker waits for is all that can happen in it.
pub proof fn law_a_worker_waits_for_one_kind_of_event(state: WorkerState, event: WorkerEvent)
    ensures
        event is Backend ==> (state.expects(event) <==> state.phase is Starting),
        event is Loaded ==> (state.expects(event) <==> state.phase is Loading
            || state.phase is Reloading),
        event is Command ==> (state.expects(event) <==> state.phase is Serving),
        event is Answered ==> (state.expects(event) <==> state.phase is Answering),
{
}

}

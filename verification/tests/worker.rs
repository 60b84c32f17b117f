use rig_llama_cpp::slot::SlotEntry;
use rig_llama_cpp::types::InferenceResult;
use rig_llama_cpp::worker::{
    runs_with_images, stream_end, Turn, TurnAction, WorkerAction, WorkerCommand, WorkerEvent,
    WorkerPhase, WorkerState,
};
use rig_llama_cpp::{CheckpointParams, LoadError};

#[test]
fn images_need_a_projector() {
    assert!(runs_with_images(1, true));
    assert!(!runs_with_images(0, true));
    assert!(!runs_with_images(1, false));
}

#[test]
fn streams_end_with_the_counts_or_the_error() {
    let result = InferenceResult {
        text: "t".to_string(),
        choice: Vec::new(),
        prompt_tokens: 3,
        completion_tokens: 2,
        cached_input_tokens: 1,
    };
    let chunk = stream_end(Ok(result)).unwrap();
    assert_eq!(chunk.text, "t");
    assert_eq!(chunk.prompt_tokens, Some(3));
    assert_eq!(chunk.completion_tokens, Some(2));
    assert_eq!(chunk.cached_input_tokens, Some(1));
    assert!(matches!(stream_end(Err("e".to_string())), Err(error) if error == "e"));
}

#[test]
fn turn_builds_on_the_shared_prefix() {
    let last = vec![SlotEntry::Text(1), SlotEntry::Text(2), SlotEntry::Image(9)];
    let mut turn = Turn::new(&vec![1, 2, 3, 4], &last);
    assert_eq!(turn.cached(), 2);
    assert!(matches!(
        turn.take_prefill(Ok(1)),
        TurnAction::Sample { prompt_tokens: 4, cached_tokens: 1, position: 4 }
    ));
    assert!(turn.take_entries() == vec![1, 2, 3, 4].into_iter().map(SlotEntry::Text).collect::<Vec<_>>());
}

#[test]
fn turn_retries_once_without_the_cache() {
    let mut turn = Turn::new(&vec![1, 2], &vec![SlotEntry::Text(1)]);
    assert_eq!(turn.cached(), 1);
    assert!(matches!(turn.take_prefill(Err("first".to_string())), TurnAction::Retry));
    assert_eq!(turn.cached(), 0);
    assert!(matches!(
        turn.take_prefill(Err("second".to_string())),
        TurnAction::Fail(error) if error == "second"
    ));
    let mut fresh = Turn::new(&vec![1, 2], &Vec::new());
    assert!(matches!(fresh.take_prefill(Err("e".to_string())), TurnAction::Fail(_)));
}

fn serving() -> WorkerState {
    let mut state = WorkerState::new(CheckpointParams::default());
    assert!(matches!(state.step(WorkerEvent::Backend(Ok(()))), WorkerAction::Load));
    assert!(matches!(state.step(WorkerEvent::Loaded(Ok(()))), WorkerAction::Report(Ok(()))));
    assert!(matches!(state.phase, WorkerPhase::Serving));
    state
}

#[test]
fn worker_answers_until_it_is_cancelled() {
    let mut state = serving();
    assert!(matches!(state.step(WorkerEvent::Command(Some(WorkerCommand::Request))), WorkerAction::Run));
    assert!(matches!(state.step(WorkerEvent::Answered { cancelled: false }), WorkerAction::Wait));
    state.step(WorkerEvent::Command(Some(WorkerCommand::Request)));
    assert!(matches!(state.step(WorkerEvent::Answered { cancelled: true }), WorkerAction::Stop));
    assert!(matches!(state.phase, WorkerPhase::Stopped));
}

#[test]
fn worker_stops_on_shutdown_and_closed_channel() {
    let mut state = serving();
    assert!(matches!(state.step(WorkerEvent::Command(Some(WorkerCommand::Shutdown))), WorkerAction::Stop));
    let mut state = serving();
    assert!(matches!(state.step(WorkerEvent::Command(None)), WorkerAction::Stop));
    assert!(matches!(state.phase, WorkerPhase::Stopped));
}

#[test]
fn reload_changes_the_parameters_once_it_worked() {
    let params = CheckpointParams::default().with_max_checkpoints(1);
    let mut state = serving();
    let action = state.step(WorkerEvent::Command(Some(WorkerCommand::Reload(params))));
    assert!(matches!(action, WorkerAction::Reload));
    assert_eq!(state.checkpoint_params.max_checkpoints, 8);
    assert!(matches!(state.step(WorkerEvent::Loaded(Ok(()))), WorkerAction::Report(Ok(()))));
    assert_eq!(state.checkpoint_params.max_checkpoints, 1);
    assert!(matches!(state.phase, WorkerPhase::Serving));
}

#[test]
fn failed_loads_are_reported_and_stop_the_worker() {
    let mut state = serving();
    state.step(WorkerEvent::Command(Some(WorkerCommand::Reload(CheckpointParams::default()))));
    let action = state.step(WorkerEvent::Loaded(Err(LoadError::ModelLoad("m".to_string()))));
    assert!(matches!(action, WorkerAction::Report(Err(LoadError::ModelLoad(text))) if text == "m"));
    assert!(matches!(state.phase, WorkerPhase::Stopped));
    let mut state = WorkerState::new(CheckpointParams::default());
    let action = state.step(WorkerEvent::Backend(Err("b".to_string())));
    assert!(matches!(action, WorkerAction::Report(Err(LoadError::BackendInit(text))) if text == "b"));
    assert!(matches!(state.phase, WorkerPhase::Stopped));
}

#[test]
fn failures_drop_the_context() {
    let result = || InferenceResult {
        text: "t".to_string(),
        choice: Vec::new(),
        prompt_tokens: 2,
        completion_tokens: 1,
        cached_input_tokens: 0,
    };
    let turn = || Turn::new(&vec![1, 2], &vec![SlotEntry::Text(1)]);
    let mut first = turn();
    assert!(first.take_prefill(Ok(1)).keeps_context());
    let answer = first.take_sampling(Ok(result()));
    assert!(answer.keeps_context());
    assert!(matches!(answer, TurnAction::Answer(result) if result.text == "t"));
    let mut second = turn();
    assert!(!second.take_prefill(Err("e".to_string())).keeps_context());
    assert!(matches!(
        second.take_prefill(Ok(0)),
        TurnAction::Sample { prompt_tokens: 2, cached_tokens: 0, position: 2 }
    ));
    let failure = second.take_sampling(Err("late".to_string()));
    assert!(!failure.keeps_context());
    assert!(matches!(failure, TurnAction::Fail(error) if error == "late"));
}

use rig_llama_cpp::embedding::{
    embedding_dims, max_sequences, EmbeddingAction, EmbeddingEvent, EmbeddingFailure,
    EmbeddingPhase, EmbeddingRun,
};
use rig_llama_cpp::loader::Device;
use rig_llama_cpp::LoadError;

#[test]
fn dimensions_default_to_the_model() {
    assert_eq!(embedding_dims(Some(3), 8), 3);
    assert_eq!(embedding_dims(None, 8), 8);
    assert_eq!(max_sequences(0), 1);
    assert_eq!(max_sequences(5), 5);
}

#[test]
fn texts_are_packed_greedily() {
    let texts = vec![vec![1, 2], vec![3], vec![4, 5, 6, 7, 8], vec![], vec![9], vec![10, 11, 12]];
    let mut run = EmbeddingRun::new(texts.clone(), 4);
    assert_eq!(run.batch_limit(), 4);
    assert_eq!(run.batch_sequences(), 4);
    let mut sizes = Vec::new();
    let mut tokens = Vec::new();
    let mut text: usize = 0;
    while let Some(batch) = run.next_batch() {
        sizes.push(batch.sequences);
        for entry in &batch.entries {
            let place = text + entry.sequence as usize;
            assert_eq!(texts[place][entry.position as usize], entry.token);
            tokens.push(entry.token);
        }
        text += batch.sequences;
    }
    assert_eq!(sizes, vec![2, 1, 3]);
    assert_eq!(text, texts.len());
    assert_eq!(tokens, (1..=12).collect::<Vec<i32>>());
}

#[test]
fn batch_limit_is_at_least_one() {
    let mut run = EmbeddingRun::new(vec![vec![1], vec![2]], 0);
    assert_eq!(run.batch_limit(), 1);
    assert_eq!(run.next_batch().map(|batch| batch.sequences), Some(1));
    assert_eq!(run.next_batch().map(|batch| batch.sequences), Some(1));
    assert!(run.next_batch().is_none());
    assert!(EmbeddingRun::new(Vec::new(), 5).next_batch().is_none());
}

#[test]
fn embedding_failures_say_what_failed() {
    let text = || "e".to_string();
    assert_eq!(EmbeddingFailure::Context(text()).message(), "Embedding context creation failed: e");
    assert_eq!(EmbeddingFailure::Tokenize(text()).message(), "Tokenization failed: e");
    assert_eq!(EmbeddingFailure::Add(text()).message(), "Batch add failed: e");
    assert_eq!(EmbeddingFailure::Encode(text()).message(), "Embedding encode failed: e");
    assert_eq!(EmbeddingFailure::Read(2, text()).message(), "Failed to get embedding for seq 2: e");
}

#[test]
fn embedding_worker_reports_and_serves() {
    let device = || Device { index: 4, backend: "vulkan".to_string() };
    let mut phase = EmbeddingPhase::Starting;
    let action = phase.step(EmbeddingEvent::Backend(Ok((true, vec![device()]))));
    assert!(matches!(action, EmbeddingAction::Configure(indices) if indices == vec![4]));
    assert!(matches!(phase.step(EmbeddingEvent::Configured(Ok(()))), EmbeddingAction::Load));
    assert!(matches!(phase.step(EmbeddingEvent::Loaded(Ok(768))), EmbeddingAction::Report(Ok(768))));
    assert!(matches!(phase.step(EmbeddingEvent::Command(true)), EmbeddingAction::Embed));
    assert!(matches!(phase.step(EmbeddingEvent::Answered), EmbeddingAction::Wait));
    assert!(matches!(phase.step(EmbeddingEvent::Command(false)), EmbeddingAction::Stop));
    assert!(phase == EmbeddingPhase::Stopped);
    let mut phase = EmbeddingPhase::Starting;
    let action = phase.step(EmbeddingEvent::Backend(Ok((false, vec![device()]))));
    assert!(matches!(action, EmbeddingAction::Load));
}

#[test]
fn embedding_worker_reports_the_first_error() {
    let text = || "e".to_string();
    let mut phase = EmbeddingPhase::Starting;
    let action = phase.step(EmbeddingEvent::Backend(Err(text())));
    assert!(matches!(action, EmbeddingAction::Report(Err(LoadError::BackendInit(_)))));
    let mut phase = EmbeddingPhase::Configuring;
    let action = phase.step(EmbeddingEvent::Configured(Err(text())));
    assert!(matches!(action, EmbeddingAction::Report(Err(LoadError::ConfigureDevices(_)))));
    let mut phase = EmbeddingPhase::Loading;
    let action = phase.step(EmbeddingEvent::Loaded(Err(text())));
    assert!(matches!(action, EmbeddingAction::Report(Err(LoadError::ModelLoad(_)))));
    assert!(phase == EmbeddingPhase::Stopped);
}

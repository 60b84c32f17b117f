use rig_llama_cpp::generation::DecodeFailure;
use rig_llama_cpp::prefill::{check_prompt, entries_of_tokens, Prefill, PrefillAction, PrefillEvent};
use rig_llama_cpp::slot::{BatchEntry, SlotEntry};

fn error_of(action: PrefillAction) -> String {
    match action {
        PrefillAction::Fail(text) => text,
        _ => panic!("expected a failure"),
    }
}

fn batch_of(action: PrefillAction) -> Vec<BatchEntry> {
    match action {
        PrefillAction::Decode(batch) => batch,
        _ => panic!("expected a batch"),
    }
}

#[test]
fn prompts_are_checked() {
    assert_eq!(check_prompt(Ok(vec![1, 2]), 2), Ok(vec![1, 2]));
    assert_eq!(check_prompt(Ok(vec![]), 2), Err("Empty prompt after tokenization".to_string()));
    assert_eq!(
        check_prompt(Ok(vec![1, 2, 3]), 2),
        Err("Prompt 3 tokens exceeds n_ctx 2".to_string())
    );
    assert_eq!(
        check_prompt(Err("why".to_string()), 2),
        Err("Tokenization failed: why".to_string())
    );
}

#[test]
fn prompt_entries_are_text() {
    assert!(entries_of_tokens(&vec![3, 4]) == vec![SlotEntry::Text(3), SlotEntry::Text(4)]);
}

#[test]
fn suffix_is_decoded_in_batches() {
    let tokens = vec![10, 11, 12, 13, 14, 15];
    let (mut prefill, action) = Prefill::start(tokens.clone(), 1, 1, false, 2);
    assert!(matches!(action, PrefillAction::Retain { below: 1 }));
    let mut seen: Vec<BatchEntry> = Vec::new();
    let mut sizes = Vec::new();
    let mut action = prefill.step(PrefillEvent::Ready, false);
    loop {
        match action {
            PrefillAction::Decode(batch) => {
                sizes.push(batch.len());
                seen.extend(batch);
                action = prefill.step(PrefillEvent::Decoded(Ok(())), false);
            }
            PrefillAction::Checkpoint { decoded, prompt_len } => {
                assert_eq!(decoded, 1 + seen.len());
                assert_eq!(prompt_len, 6);
                action = prefill.step(PrefillEvent::Ready, false);
            }
            PrefillAction::Finish { cached } => {
                assert_eq!(cached, 1);
                break;
            }
            _ => panic!("unexpected action"),
        }
    }
    assert_eq!(sizes, vec![2, 2, 1]);
    for (i, entry) in seen.iter().enumerate() {
        assert_eq!(entry.token, tokens[i + 1]);
        assert_eq!(entry.position, i as i32 + 1);
        assert_eq!(entry.logits, i + 2 == tokens.len());
    }
}

#[test]
fn diverging_cache_is_trimmed() {
    let (mut prefill, action) = Prefill::start(vec![1, 2, 3], 2, 5, false, 0);
    assert!(matches!(action, PrefillAction::Trim { from: 2 }));
    let action = prefill.step(PrefillEvent::Trimmed(Ok(true)), false);
    assert!(matches!(action, PrefillAction::Retain { below: 2 }));
    let batch = batch_of(prefill.step(PrefillEvent::Ready, false));
    assert!(batch == vec![BatchEntry { token: 3, position: 2, logits: true }]);
}

#[test]
fn untrimmable_cache_is_restored() {
    let (mut prefill, _) = Prefill::start(vec![1, 2, 3], 2, 5, false, 8);
    let action = prefill.step(PrefillEvent::Trimmed(Ok(false)), false);
    assert!(matches!(action, PrefillAction::Restore { cached: 2, unsupported: true }));
    let batch = batch_of(prefill.step(PrefillEvent::Restored(1), false));
    assert_eq!(batch.len(), 2);
    assert_eq!(batch[0].position, 1);
    prefill.step(PrefillEvent::Decoded(Ok(())), false);
    let action = prefill.step(PrefillEvent::Ready, false);
    assert!(matches!(action, PrefillAction::Finish { cached: 1 }));
    let (_, action) = Prefill::start(vec![1, 2, 3], 2, 5, true, 8);
    assert!(matches!(action, PrefillAction::Restore { cached: 2, unsupported: false }));
}

#[test]
fn cached_prompt_decodes_its_last_token_again() {
    let (mut prefill, action) = Prefill::start(vec![7, 8], 2, 2, false, 8);
    assert!(matches!(action, PrefillAction::Retain { below: 2 }));
    let action = prefill.step(PrefillEvent::Ready, true);
    assert!(matches!(action, PrefillAction::Trim { from: 1 }));
    let batch = batch_of(prefill.step(PrefillEvent::Trimmed(Ok(true)), false));
    assert!(batch == vec![BatchEntry { token: 8, position: 1, logits: true }]);
    let action = prefill.step(PrefillEvent::Decoded(Ok(())), false);
    assert!(matches!(action, PrefillAction::Finish { cached: 2 }));
}

#[test]
fn prefill_failures_are_reported() {
    let start = |cached: usize, entries: usize| Prefill::start(vec![7, 8], cached, entries, false, 8).0;
    let mut prefill = start(0, 1);
    assert_eq!(
        error_of(prefill.step(PrefillEvent::Trimmed(Err("X".to_string())), false)),
        "KV cache trim failed: X"
    );
    let mut prefill = start(2, 2);
    prefill.step(PrefillEvent::Ready, false);
    assert_eq!(
        error_of(prefill.step(PrefillEvent::Trimmed(Ok(false)), false)),
        "KV cache trim (rollback) returned false at pos 1"
    );
    let mut prefill = start(2, 2);
    prefill.step(PrefillEvent::Ready, false);
    assert_eq!(
        error_of(prefill.step(PrefillEvent::Trimmed(Err("Y".to_string())), false)),
        "KV cache trim failed: Y"
    );
    let mut prefill = start(0, 0);
    assert_eq!(error_of(prefill.step(PrefillEvent::Ready, true)), "inference cancelled");
    let mut prefill = start(0, 0);
    prefill.step(PrefillEvent::Ready, false);
    assert_eq!(
        error_of(prefill.step(PrefillEvent::Decoded(Err(DecodeFailure::Add("a".to_string()))), false)),
        "Batch add failed: a"
    );
    let mut prefill = start(0, 0);
    prefill.step(PrefillEvent::Ready, false);
    assert_eq!(
        error_of(prefill.step(PrefillEvent::Decoded(Err(DecodeFailure::Decode("d".to_string()))), false)),
        "Prompt decode failed: d"
    );
}

#[test]
fn empty_cache_keeps_the_first_checkpoint_position() {
    let (_, action) = Prefill::start(vec![7], 0, 0, false, 1);
    assert!(matches!(action, PrefillAction::Retain { below: 1 }));
}

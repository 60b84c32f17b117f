use rig_llama_cpp::types::InferenceResult;
use rig_llama_cpp::{CheckpointParams, FitParams, KvCacheParams, KvCacheType, RawResponse};

#[test]
fn defaults_are_documented_values() {
    let fit = FitParams::default();
    assert!(fit.margins.is_none());
    assert_eq!(fit.n_ctx_min, 4096);
    let checkpoints = CheckpointParams::default();
    assert_eq!(checkpoints.max_checkpoints, 8);
    assert_eq!(checkpoints.every_n_tokens, 8192);
    assert_eq!(checkpoints.min_tokens, 64);
    assert_eq!(checkpoints.min_gap, 64);
    let cache = KvCacheParams::default();
    assert_eq!(cache.type_k, KvCacheType::F16);
    assert_eq!(cache.type_v, KvCacheType::F16);
}

#[test]
fn setters_change_one_field() {
    let fit = FitParams::default().with_margins(Some(vec![1, 2])).with_n_ctx_min(512);
    assert_eq!(fit.margins, Some(vec![1, 2]));
    assert_eq!(fit.n_ctx_min, 512);
    let checkpoints = CheckpointParams::default()
        .with_max_checkpoints(1)
        .with_every_n_tokens(-1)
        .with_min_tokens(2)
        .with_min_gap(3);
    assert_eq!(checkpoints.max_checkpoints, 1);
    assert_eq!(checkpoints.every_n_tokens, -1);
    assert_eq!(checkpoints.min_tokens, 2);
    assert_eq!(checkpoints.min_gap, 3);
    let cache = KvCacheParams::default().with_type_k(KvCacheType::Q8_0);
    assert_eq!(cache.type_k, KvCacheType::Q8_0);
    assert_eq!(cache.type_v, KvCacheType::F16);
    assert_eq!(cache.with_type_v(KvCacheType::Q4_0).type_v, KvCacheType::Q4_0);
}

#[test]
fn final_chunk_counts_tokens() {
    let result = InferenceResult {
        text: "done".to_string(),
        choice: Vec::new(),
        prompt_tokens: 10,
        completion_tokens: 5,
        cached_input_tokens: 4,
    };
    let mut chunk = result.final_chunk();
    assert_eq!(chunk.text, "done");
    let usage = chunk.token_usage().unwrap();
    assert_eq!(usage.input_tokens, 10);
    assert_eq!(usage.output_tokens, 5);
    assert_eq!(usage.total_tokens, 15);
    assert_eq!(usage.cached_input_tokens, 4);
    assert_eq!(usage.cache_creation_input_tokens, 0);
    assert_eq!(usage.reasoning_tokens, 0);
    chunk.cached_input_tokens = None;
    assert_eq!(chunk.token_usage().unwrap().cached_input_tokens, 0);
    chunk.completion_tokens = None;
    assert!(chunk.token_usage().is_none());
}

#[test]
fn raw_response_holds_the_text() {
    assert_eq!(RawResponse::new("all of it".to_string()).text, "all of it");
}

//! Settings, results and errors.
use crate::message::{AssistantContent, AssistantContentView};
use crate::text::views;
use vstd::prelude::*;
use vstd::string::*;

verus! {

/// Raw completion response returned by the model.
#[derive(Clone, Debug)]
#[non_exhaustive]
pub struct RawResponse {
    /// The full generated text.
    pub text: String,
}

impl RawResponse {
    /// The response with the text `text`.
    pub fn new(text: String) -> (response: Self)
        ensures
            response.text == text,
    {
        RawResponse { text }
    }
}

/// The tokens that a completion took.
pub struct Usage {
    /// Tokens of the prompt.
    pub input_tokens: u64,
    /// Tokens that were generated.
    pub output_tokens: u64,
    /// Both together.
    pub total_tokens: u64,
    /// Tokens of the prompt that were already in the cache.
    pub cached_input_tokens: u64,
    /// Tokens that were written to a provider's cache; a local model has none.
    pub cache_creation_input_tokens: u64,
    /// Tokens of reasoning, which are not counted apart.
    pub reasoning_tokens: u64,
}

/// A single chunk emitted during streaming inference.
///
/// The final chunk in a stream includes token usage counts.
#[derive(Clone, Debug)]
#[non_exhaustive]
pub struct StreamChunk {
    /// The text fragment for this chunk.
    pub text: String,
    /// Number of prompt tokens (only set on the final chunk).
    pub prompt_tokens: Option<u64>,
    /// Number of completion tokens (only set on the final chunk).
    pub completion_tokens: Option<u64>,
    /// Number of prompt tokens that were served from the persistent KV-cache
    /// prefix (only set on the final chunk).
    pub cached_input_tokens: Option<u64>,
}

/// The token usage that a chunk tells, where it says how many tokens the prompt
/// and the completion have.
pub open spec fn usage_of(chunk: StreamChunk) -> Option<Usage> {
    match (chunk.prompt_tokens, chunk.completion_tokens) {
        (Some(input), Some(output)) => Some(
            Usage {
                input_tokens: input,
                output_tokens: output,
                total_tokens: (input + output) as u64,
                cached_input_tokens: match chunk.cached_input_tokens {
                    Some(cached) => cached,
                    None => 0,
                },
                cache_creation_input_tokens: 0,
                reasoning_tokens: 0,
            },
        ),
        _ => None,
    }
}

/// A chunk tells its usage exactly where it has both counts. The total is what
/// the prompt and the completion take, and what was cached is part of neither
/// twice: it changes no other count.
pub proof fn law_usage_adds_up(chunk: StreamChunk, cached: Option<u64>)
    requires
        chunk.prompt_tokens is Some && chunk.completion_tokens is Some ==> chunk.prompt_tokens->0
            + chunk.completion_tokens->0 <= u64::MAX,
    ensures
        usage_of(chunk) is None <==> chunk.prompt_tokens is None || chunk.completion_tokens is None,
        usage_of(chunk) matches Some(usage) ==> {
            let other = usage_of(StreamChunk { cached_input_tokens: cached, ..chunk })->0;
            &&& usage.total_tokens == usage.input_tokens + usage.output_tokens
            &&& Some(usage.input_tokens) == chunk.prompt_tokens
            &&& Some(usage.output_tokens) == chunk.completion_tokens
            &&& chunk.cached_input_tokens is Some ==> Some(usage.cached_input_tokens)
                == chunk.cached_input_tokens
            &&& chunk.cached_input_tokens is None ==> usage.cached_input_tokens == 0
            &&& usage.cache_creation_input_tokens == 0
            &&& usage.reasoning_tokens == 0
            &&& other == (Usage { cached_input_tokens: other.cached_input_tokens, ..usage })
        },
{
}

/// The chunk that ends a stream with this result.
pub open spec fn closing_chunk(result: InferenceResult) -> StreamChunk {
    StreamChunk {
        text: result.text,
        prompt_tokens: Some(result.prompt_tokens),
        completion_tokens: Some(result.completion_tokens),
        cached_input_tokens: Some(result.cached_input_tokens),
    }
}

impl StreamChunk {
    /// A chunk with this text and these counts.
    pub fn new(
        text: String,
        prompt_tokens: Option<u64>,
        completion_tokens: Option<u64>,
        cached_input_tokens: Option<u64>,
    ) -> (chunk: Self)
        ensures
            chunk.text == text,
            chunk.prompt_tokens == prompt_tokens,
            chunk.completion_tokens == completion_tokens,
            chunk.cached_input_tokens == cached_input_tokens,
    {
        StreamChunk { text, prompt_tokens, completion_tokens, cached_input_tokens }
    }

    /// The token usage, where the chunk says how many tokens the prompt and the
    /// completion have.
    pub fn token_usage(&self) -> (usage: Option<Usage>)
        requires
            self.prompt_tokens is Some && self.completion_tokens is Some ==> self.prompt_tokens->0
                + self.completion_tokens->0 <= u64::MAX,
        ensures
            usage is Some <==> self.prompt_tokens is Some && self.completion_tokens is Some,
            usage matches Some(usage) ==> {
                &&& usage.input_tokens == self.prompt_tokens->0
                &&& usage.output_tokens == self.completion_tokens->0
                &&& usage.total_tokens == self.prompt_tokens->0 + self.completion_tokens->0
                &&& usage.cached_input_tokens == match self.cached_input_tokens {
                    Some(cached) => cached,
                    None => 0,
                }
                &&& usage.cache_creation_input_tokens == 0
                &&& usage.reasoning_tokens == 0
            },
            usage == usage_of(*self),
    {
        match (self.prompt_tokens, self.completion_tokens) {
            (Some(input), Some(output)) => Some(
                Usage {
                    input_tokens: input,
                    output_tokens: output,
                    total_tokens: input + output,
                    cached_input_tokens: match self.cached_input_tokens {
                        Some(cached) => cached,
                        None => 0,
                    },
                    cache_creation_input_tokens: 0,
                    reasoning_tokens: 0,
                },
            ),
            _ => None,
        }
    }
}

/// What an inference produced.
pub struct InferenceResult {
    /// The generated text, or its JSON object where a stream sent just that.
    pub text: String,
    /// What the text says.
    pub choice: Vec<AssistantContent>,
    /// Tokens of the prompt.
    pub prompt_tokens: u64,
    /// Tokens that were generated.
    pub completion_tokens: u64,
    /// Tokens of the prompt that were already present in the persistent KV
    /// cache (the longest common prefix shared with the previous request).
    pub cached_input_tokens: u64,
}

/// The view of an [`InferenceResult`].
pub struct InferenceResultView {
    pub text: Seq<char>,
    pub choice: Seq<AssistantContentView>,
    pub prompt_tokens: u64,
    pub completion_tokens: u64,
    pub cached_input_tokens: u64,
}

impl View for InferenceResult {
    type V = InferenceResultView;

    open spec fn view(&self) -> InferenceResultView {
        InferenceResultView {
            text: self.text@,
            choice: views(self.choice@),
            prompt_tokens: self.prompt_tokens,
            completion_tokens: self.completion_tokens,
            cached_input_tokens: self.cached_input_tokens,
        }
    }
}

impl InferenceResult {
    /// The chunk that ends a stream: the text and the token counts.
    pub fn final_chunk(self) -> (chunk: StreamChunk)
        ensures
            chunk.text == self.text,
            chunk.prompt_tokens == Some(self.prompt_tokens),
            chunk.completion_tokens == Some(self.completion_tokens),
            chunk.cached_input_tokens == Some(self.cached_input_tokens),
            chunk == closing_chunk(self),
    {
        StreamChunk::new(
            self.text,
            Some(self.prompt_tokens),
            Some(self.completion_tokens),
            Some(self.cached_input_tokens),
        )
    }
}

/// Why a model could not be loaded.
pub enum LoadError {
    /// The llama.cpp backend could not be initialised.
    BackendInit(String),
    /// The GPU devices could not be configured.
    ConfigureDevices(String),
    /// The path of the model is not a valid C string.
    InvalidPath(String),
    /// The parameters could not be fitted to the device memory.
    Fit(String),
    /// The model could not be loaded.
    ModelLoad(String),
    /// The multimodal projector could not be initialised.
    MmprojInit(String),
    /// The worker went away before it was ready.
    WorkerInitDisconnected,
}

/// The view of a [`LoadError`].
pub enum LoadErrorView {
    BackendInit(Seq<char>),
    ConfigureDevices(Seq<char>),
    InvalidPath(Seq<char>),
    Fit(Seq<char>),
    ModelLoad(Seq<char>),
    MmprojInit(Seq<char>),
    WorkerInitDisconnected,
}

impl View for LoadError {
    type V = LoadErrorView;

    open spec fn view(&self) -> LoadErrorView {
        match self {
            LoadError::BackendInit(text) => LoadErrorView::BackendInit(text@),
            LoadError::ConfigureDevices(text) => LoadErrorView::ConfigureDevices(text@),
            LoadError::InvalidPath(text) => LoadErrorView::InvalidPath(text@),
            LoadError::Fit(text) => LoadErrorView::Fit(text@),
            LoadError::ModelLoad(text) => LoadErrorView::ModelLoad(text@),
            LoadError::MmprojInit(text) => LoadErrorView::MmprojInit(text@),
            LoadError::WorkerInitDisconnected => LoadErrorView::WorkerInitDisconnected,
        }
    }
}

/// Configuration for automatic GPU/CPU layer fitting.
///
/// llama.cpp probes the available device memory and picks the number of
/// layers to offload to the GPU, instead of requiring a manual value.
#[derive(Clone, Debug)]
#[non_exhaustive]
pub struct FitParams {
    /// Memory margin per device in bytes. If `None`, defaults to 1 GiB per device.
    pub margins: Option<Vec<usize>>,
    /// Minimum context size to preserve during fitting (default: `4096`).
    pub n_ctx_min: u32,
}

impl Default for FitParams {
    fn default() -> (params: Self)
        ensures
            params.margins is None,
            params.n_ctx_min == 4096,
    {
        FitParams { margins: None, n_ctx_min: 4096 }
    }
}

impl FitParams {
    /// Override the per-device memory margin in bytes.
    #[must_use]
    pub fn with_margins(self, margins: Option<Vec<usize>>) -> (params: Self)
        ensures
            params.margins == margins,
            params.n_ctx_min == self.n_ctx_min,
    {
        let mut params = self;
        params.margins = margins;
        params
    }

    /// Override the minimum context size to preserve during fitting.
    #[must_use]
    pub fn with_n_ctx_min(self, n_ctx_min: u32) -> (params: Self)
        ensures
            params.margins == self.margins,
            params.n_ctx_min == n_ctx_min,
    {
        let mut params = self;
        params.n_ctx_min = n_ctx_min;
        params
    }
}

/// Tunable parameters for the in-memory state-checkpoint cache used to
/// preserve KV/recurrent state across chat turns for hybrid models.
///
/// The recurrent state of a hybrid model cannot be rolled back to an arbitrary
/// earlier position, so snapshots are taken during prompt prefill and the
/// closest one is restored when the next prompt diverges.
#[derive(Clone, Copy, Debug)]
#[non_exhaustive]
pub struct CheckpointParams {
    /// Maximum number of checkpoints retained per persistent context.
    /// `0` disables checkpointing entirely.
    pub max_checkpoints: u32,
    /// Approximate spacing between checkpoints during prompt prefill, in
    /// tokens. `<= 0` means "only checkpoint near the end of the prompt".
    pub every_n_tokens: i32,
    /// Don't checkpoint the very start of a prompt.
    pub min_tokens: u32,
    /// Don't take two checkpoints closer than this many tokens apart.
    pub min_gap: u32,
}

impl Default for CheckpointParams {
    fn default() -> (params: Self)
        ensures
            params.max_checkpoints == 8,
            params.every_n_tokens == 8192,
            params.min_tokens == 64,
            params.min_gap == 64,
    {
        CheckpointParams { max_checkpoints: 8, every_n_tokens: 8192, min_tokens: 64, min_gap: 64 }
    }
}

impl CheckpointParams {
    /// Override the maximum number of checkpoints retained per context.
    #[must_use]
    pub fn with_max_checkpoints(self, max_checkpoints: u32) -> (params: Self)
        ensures
            params == (CheckpointParams { max_checkpoints, ..self }),
    {
        CheckpointParams { max_checkpoints, ..self }
    }

    /// Override the approximate spacing between checkpoints (in tokens).
    #[must_use]
    pub fn with_every_n_tokens(self, every_n_tokens: i32) -> (params: Self)
        ensures
            params == (CheckpointParams { every_n_tokens, ..self }),
    {
        CheckpointParams { every_n_tokens, ..self }
    }

    /// Override the minimum prompt length before checkpoints are taken.
    #[must_use]
    pub fn with_min_tokens(self, min_tokens: u32) -> (params: Self)
        ensures
            params == (CheckpointParams { min_tokens, ..self }),
    {
        CheckpointParams { min_tokens, ..self }
    }

    /// Override the minimum spacing between two consecutive checkpoints.
    #[must_use]
    pub fn with_min_gap(self, min_gap: u32) -> (params: Self)
        ensures
            params == (CheckpointParams { min_gap, ..self }),
    {
        CheckpointParams { min_gap, ..self }
    }
}

/// Data type used for an entry in the attention KV cache.
///
/// Mirrors the subset of `ggml_type` values that `llama.cpp` accepts as KV
/// cache element types. The `F16` default preserves full attention quality;
/// quantizing (e.g. `Q8_0` is about half the size, `Q4_0` about a quarter) trades a small amount
/// of accuracy for a large VRAM reduction at long `n_ctx`.
#[derive(Clone, Copy, Debug, PartialEq, Eq, Hash, Structural)]
#[allow(non_camel_case_types)]
#[non_exhaustive]
pub enum KvCacheType {
    /// IEEE 754 single precision.
    F32,
    /// IEEE 754 half precision (llama.cpp's default for both K and V).
    F16,
    /// Brain floating-point 16, common on newer NVIDIA / AMD GPUs.
    BF16,
    /// IEEE 754 double precision.
    F64,
    /// 4-bit block quantization, type 0.
    Q4_0,
    /// 4-bit block quantization, type 1.
    Q4_1,
    /// 5-bit block quantization, type 0.
    Q5_0,
    /// 5-bit block quantization, type 1.
    Q5_1,
    /// 8-bit block quantization, type 0.
    Q8_0,
    /// 8-bit block quantization, type 1.
    Q8_1,
    /// 2-bit K-quant.
    Q2_K,
    /// 3-bit K-quant.
    Q3_K,
    /// 4-bit K-quant.
    Q4_K,
    /// 5-bit K-quant.
    Q5_K,
    /// 6-bit K-quant.
    Q6_K,
    /// 8-bit K-quant.
    Q8_K,
    /// Importance-weighted 2-bit, extra-extra-small.
    IQ2_XXS,
    /// Importance-weighted 2-bit, extra-small.
    IQ2_XS,
    /// Importance-weighted 2-bit, small.
    IQ2_S,
    /// Importance-weighted 3-bit, extra-extra-small.
    IQ3_XXS,
    /// Importance-weighted 3-bit, small.
    IQ3_S,
    /// Importance-weighted 1-bit, small.
    IQ1_S,
    /// Importance-weighted 1-bit, medium.
    IQ1_M,
    /// Importance-weighted 4-bit, extra-small.
    IQ4_XS,
    /// Importance-weighted 4-bit, non-linear.
    IQ4_NL,
    /// Signed 8-bit integer.
    I8,
    /// Signed 16-bit integer.
    I16,
    /// Signed 32-bit integer.
    I32,
    /// Signed 64-bit integer.
    I64,
    /// Ternary 1-bit, type 0.
    TQ1_0,
    /// Ternary 2-bit, type 0.
    TQ2_0,
    /// Microscaling FP4.
    MXFP4,
}

/// KV cache quantization configuration.
///
/// Controls the data type used for the attention K and V caches. Quantizing
/// trades a small amount of accuracy for a large reduction in memory, which is
/// often the dominant cost at long contexts.
#[derive(Clone, Copy, Debug)]
#[non_exhaustive]
pub struct KvCacheParams {
    /// Data type for the K cache (default: [`KvCacheType::F16`]).
    pub type_k: KvCacheType,
    /// Data type for the V cache (default: [`KvCacheType::F16`]).
    pub type_v: KvCacheType,
}

impl Default for KvCacheParams {
    fn default() -> (params: Self)
        ensures
            params.type_k == KvCacheType::F16,
            params.type_v == KvCacheType::F16,
    {
        KvCacheParams { type_k: KvCacheType::F16, type_v: KvCacheType::F16 }
    }
}

impl KvCacheParams {
    /// Override the K cache data type.
    #[must_use]
    pub fn with_type_k(self, type_k: KvCacheType) -> (params: Self)
        ensures
            params == (KvCacheParams { type_k, ..self }),
    {
        KvCacheParams { type_k, ..self }
    }

    /// Override the V cache data type.
    #[must_use]
    pub fn with_type_v(self, type_v: KvCacheType) -> (params: Self)
        ensures
            params == (KvCacheParams { type_v, ..self }),
    {
        KvCacheParams { type_v, ..self }
    }
}

/// What a result or an error shows is what it holds, under the same kind.
pub proof fn law_results_show_what_they_hold(result: InferenceResult, error: LoadError)
    ensures
        result@.text == result.text@,
        result@.choice == views(result.choice@),
        result@.prompt_tokens == result.prompt_tokens,
        result@.completion_tokens == result.completion_tokens,
        result@.cached_input_tokens == result.cached_input_tokens,
        error matches LoadError::BackendInit(text) ==> error@ == LoadErrorView::BackendInit(text@),
        error matches LoadError::ConfigureDevices(text) ==> error@
            == LoadErrorView::ConfigureDevices(text@),
        error matches LoadError::InvalidPath(text) ==> error@ == LoadErrorView::InvalidPath(text@),
        error matches LoadError::Fit(text) ==> error@ == LoadErrorView::Fit(text@),
        error matches LoadError::ModelLoad(text) ==> error@ == LoadErrorView::ModelLoad(text@),
        error matches LoadError::MmprojInit(text) ==> error@ == LoadErrorView::MmprojInit(text@),
        error is WorkerInitDisconnected ==> error@ is WorkerInitDisconnected,
{
}

}

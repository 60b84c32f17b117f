//! # rig-llama-cpp
//!
//! A [Rig](https://docs.rs/rig-core) provider that runs GGUF models locally
//! via [llama.cpp](https://github.com/ggml-org/llama.cpp).
//!
//! This crate is its logic: how a completion request becomes the messages,
//! tools and images of a chat template, what the output of a model says, how
//! a stream of deltas becomes tool calls, and the decisions of the loops that
//! load models, fill the cache, generate tokens and embed texts. Everything
//! here is verified. Model files, threads and channels belong to the program
//! around it, which performs what the state machines of this crate ask for.
//!
//! - [`request`] prepares requests, [`turns`] their messages and [`images`]
//!   their images; [`markers`] says how both fit together, and [`message`]
//!   holds what they are made from.
//! - [`parsing`] and [`xml`] read finished output, [`streaming`] reads deltas.
//! - [`sampling`] and [`generation`] decide how tokens are sampled.
//! - [`slot`] and [`prefill`] decide what of a prompt the cache serves.
//! - [`worker`], [`loader`] and [`embedding`] decide what the workers do.
//! - [`types`] holds settings and results, [`json`] JSON values, [`text`]
//!   the operations on strings that the others are specified with.
use vstd::prelude::*;

pub mod embedding;
pub mod generation;
pub mod images;
pub mod json;
pub mod loader;
pub mod markers;
pub mod message;
pub mod parsing;
pub mod prefill;
pub mod request;
pub mod sampling;
pub mod slot;
pub mod streaming;
pub mod text;
pub mod turns;
pub mod types;
pub mod worker;
pub mod xml;

pub use crate::types::{
    CheckpointParams, FitParams, KvCacheParams, KvCacheType, LoadError, RawResponse, StreamChunk,
};

verus! {

/// Whether the value of an environment variable switches a flag on: it is `1`,
/// `true`, `yes` or `on`, in any case and between any white space.
pub open spec fn switches_on(value: Seq<char>) -> bool {
    let word = text::lower(text::trim(value));
    word == "1"@ || word == "true"@ || word == "yes"@ || word == "on"@
}

/// Decides whether a flag is on, given the value of its environment variable,
/// where it has one.
pub fn env_flag_enabled(value: Option<&str>) -> (enabled: bool)
    ensures
        enabled == (value is Some && switches_on(value->0@)),
{
    match value {
        Some(value) => {
            let word = text::lower_text(text::trim_text(value).as_str());
            text::same_text(word.as_str(), "1") || text::same_text(word.as_str(), "true")
                || text::same_text(word.as_str(), "yes") || text::same_text(word.as_str(), "on")
        },
        None => false,
    }
}

/// Whether to forward llama.cpp's own logging to standard error, given the
/// value of the environment variable that asks for it.
pub fn llama_logs_enabled(value: Option<&str>) -> (enabled: bool)
    ensures
        enabled == (value is Some && switches_on(value->0@)),
{
    env_flag_enabled(value)
}

/// A flag is on exactly where its value is one of four words, in capitals or
/// not and whatever white space is around it.
pub proof fn law_flags_ignore_case_and_white_space(
    lead: Seq<char>,
    word: Seq<char>,
    trail: Seq<char>,
)
    requires
        text::all_white(lead),
        text::all_white(trail),
        word.len() > 0 ==> !text::white_space(word[0]) && !text::white_space(word.last()),
    ensures
        switches_on(lead + word + trail) <==> (text::lower(word) == "1"@ || text::lower(word)
            == "true"@ || text::lower(word) == "yes"@ || text::lower(word) == "on"@),
{
    text::law_trimming_keeps_what_is_between(lead, word, trail);
}

}

//! Generation: the decisions of the loop that samples a completion.
//!
//! The loop itself runs outside: it samples tokens, turns them into text and
//! decodes them. Before each of these it asks a [`Generation`] what to do, and
//! afterwards it tells it what came of it.
use crate::message::{AssistantContent, AssistantContentView};
use crate::parsing::{
    completion_output, extract_structured_json, needs_template_parse, parse_completion_output,
    reparsed_calls, structured_json, template_decides,
};
use crate::sampling::{token_piece, token_piece_or_empty, TokenToStringError};
use crate::slot::{BatchEntry, SlotEntry};
use crate::streaming::{
    after_delta, call_deltas, consistent, delta_of, flushed_calls, gathered_after_deltas,
    has_broken_call, StreamChoice, StreamChoiceView, StreamDeltaState, StreamToolCallView,
};
use crate::text::{
    chars_of, ends_with, lemma_views_add, lemma_views_push, matches_at, option_view,
    slice_of, substring, views,
};
use crate::types::{InferenceResult, InferenceResultView};
use std::collections::HashSet;
use vstd::prelude::*;
use vstd::std_specs::hash::*;
use vstd::string::*;

verus! {

/// What an inference fails with once it is cancelled.
pub open spec fn cancel_error() -> Seq<char> {
    "inference cancelled"@
}

/// Writes [`cancel_error`].
pub fn cancel_message() -> (text: String)
    ensures
        text@ == cancel_error(),
{
    "inference cancelled".to_owned()
}

/// What to do at the start of a step.
pub enum Step {
    /// Give up, with this message.
    Fail(String),
    /// End the generation.
    Finish,
    /// Sample a token from the logits at this index of the batch; `-1` is the last.
    Sample(i32),
}

/// The view of a [`Step`].
pub enum StepView {
    Fail(Seq<char>),
    Finish,
    Sample(i32),
}

impl View for Step {
    type V = StepView;

    open spec fn view(&self) -> StepView {
        match self {
            Step::Fail(text) => StepView::Fail(text@),
            Step::Finish => StepView::Finish,
            Step::Sample(index) => StepView::Sample(*index),
        }
    }
}

/// What to do with a sampled token.
#[derive(Clone, Copy, PartialEq, Eq, Structural)]
pub enum TokenAction {
    /// End the generation.
    Finish,
    /// Turn the token into text.
    Detokenize { decode_special: bool },
}

/// What to do with the text of a token, before the token is decoded.
pub enum PieceAction {
    /// Give up, with this message.
    Fail(String),
    /// End the generation.
    Finish,
    /// Decode the token.
    Decode,
    /// Send this event, then decode the token.
    Send(StreamChoice),
    /// Hand this text to the parser of the stream, then decode the token.
    Feed(String),
}

/// The view of a [`PieceAction`].
pub enum PieceActionView {
    Fail(Seq<char>),
    Finish,
    Decode,
    Send(StreamChoiceView),
    Feed(Seq<char>),
}

impl View for PieceAction {
    type V = PieceActionView;

    open spec fn view(&self) -> PieceActionView {
        match self {
            PieceAction::Fail(text) => PieceActionView::Fail(text@),
            PieceAction::Finish => PieceActionView::Finish,
            PieceAction::Decode => PieceActionView::Decode,
            PieceAction::Send(choice) => PieceActionView::Send(choice@),
            PieceAction::Feed(text) => PieceActionView::Feed(text@),
        }
    }
}

/// Why a token could not be decoded.
pub enum DecodeFailure {
    /// It could not be put into the batch.
    Add(String),
    /// The batch could not be decoded.
    Decode(String),
}

/// What a failure is reported as.
pub open spec fn failure_text(failure: DecodeFailure) -> Seq<char> {
    match failure {
        DecodeFailure::Add(reason) => "Batch add failed: "@ + reason@,
        DecodeFailure::Decode(reason) => "Decode failed: "@ + reason@,
    }
}

/// A completion that is being generated.
pub struct Generation {
    max_tokens: u32,
    start: i32,
    from_last_logits: bool,
    streaming: bool,
    has_json_schema: bool,
    has_parser: bool,
    preserved: HashSet<i32>,
    stops: Vec<Vec<char>>,
    output: Vec<char>,
    completion_tokens: u64,
    steps: u32,
    deltas: StreamDeltaState,
}

/// The view of a [`Generation`].
pub struct GenerationView {
    /// The number of steps after which the generation ends.
    pub max_tokens: u32,
    /// The position of the first token.
    pub start: i32,
    /// Whether the first token is sampled from the last logits of the context.
    pub from_last_logits: bool,
    /// Whether the events of the generation are streamed.
    pub streaming: bool,
    /// Whether the output has to meet a JSON schema.
    pub has_json_schema: bool,
    /// Whether the stream has a parser.
    pub has_parser: bool,
    /// The special tokens that are shown.
    pub preserved: Set<i32>,
    /// The texts that end the output.
    pub stops: Seq<Seq<char>>,
    /// The output so far.
    pub output: Seq<char>,
    /// The number of tokens that have been turned into text.
    pub completion_tokens: u64,
    /// The number of tokens that have been decoded.
    pub steps: u32,
    /// The tool calls that the stream has begun.
    pub calls: Seq<(u64, StreamToolCallView)>,
    /// The fragments of arguments that were gathered for them.
    pub gathered: Map<u64, Seq<char>>,
}

impl View for Generation {
    type V = GenerationView;

    closed spec fn view(&self) -> GenerationView {
        GenerationView {
            max_tokens: self.max_tokens,
            start: self.start,
            from_last_logits: self.from_last_logits,
            streaming: self.streaming,
            has_json_schema: self.has_json_schema,
            has_parser: self.has_parser,
            preserved: self.preserved@,
            stops: views(self.stops@),
            output: self.output@,
            completion_tokens: self.completion_tokens,
            steps: self.steps,
            calls: self.deltas@,
            gathered: self.deltas.gathered(),
        }
    }
}

/// Whether a stream needs a parser: not where its output has to meet a schema,
/// which the parser would hold back.
pub open spec fn parser_wanted(streaming: bool, has_json_schema: bool) -> bool {
    streaming && !has_json_schema
}

/// Decides [`parser_wanted`].
pub fn wants_parser(streaming: bool, has_json_schema: bool) -> (wanted: bool)
    ensures
        wanted == parser_wanted(streaming, has_json_schema),
{
    streaming && !has_json_schema
}

impl GenerationView {
    /// The counts fit together, and the calls are consistent with what was
    /// gathered for them.
    pub open spec fn wf(self) -> bool {
        &&& self.steps <= self.max_tokens
        &&& self.steps <= self.completion_tokens <= self.steps + 1
        &&& consistent(self.calls, self.gathered)
    }

    /// Between two steps: every token that was turned into text was decoded.
    pub open spec fn between_steps(self) -> bool {
        self.wf() && self.completion_tokens == self.steps
    }

    /// Within a step: one more token was turned into text than was decoded.
    pub open spec fn within_step(self) -> bool {
        self.wf() && self.steps < self.max_tokens && self.completion_tokens == self.steps + 1
    }

    /// What to do with a sampled token.
    pub open spec fn token_action(self, token: i32, ends_generation: bool) -> TokenAction {
        if ends_generation {
            TokenAction::Finish
        } else {
            TokenAction::Detokenize { decode_special: self.preserved.contains(token) }
        }
    }

    /// What is decoded for the token of this step.
    pub open spec fn step_entry(self, token: i32) -> BatchEntry {
        BatchEntry { token, position: self.position() as i32, logits: true }
    }

    /// The position of the next token.
    pub open spec fn position(self) -> int {
        self.start + self.steps
    }

    /// What to do at the start of a step: end after `max_tokens`, fail once
    /// cancelled, end where nobody listens, and else sample.
    pub open spec fn next_step(self, cancelled: bool, closed: bool, batch_tokens: i32) -> StepView {
        if self.steps == self.max_tokens {
            StepView::Finish
        } else if cancelled {
            StepView::Fail(cancel_error())
        } else if self.streaming && closed {
            StepView::Finish
        } else if self.from_last_logits && self.completion_tokens == 0 {
            StepView::Sample(-1i32)
        } else {
            StepView::Sample((batch_tokens - 1) as i32)
        }
    }

    /// The generation after a piece of text, and what to do. A piece that
    /// completes a stop text ends the generation, without that text.
    pub open spec fn after_piece(self, piece: Result<Seq<char>, Seq<char>>) -> (
        GenerationView,
        PieceActionView,
    ) {
        match piece {
            Err(error) => (self, PieceActionView::Fail(error)),
            Ok(piece) => {
                let output = self.output + piece;
                let completion_tokens = (self.completion_tokens + 1) as u64;
                match first_stop(self.stops, output) {
                    Some(stop) => (
                        GenerationView {
                            output: output.take(output.len() - stop.len()),
                            completion_tokens,
                            ..self
                        },
                        PieceActionView::Finish,
                    ),
                    None => (
                        GenerationView { output, completion_tokens, ..self },
                        if !parser_wanted(self.streaming, self.has_json_schema) {
                            PieceActionView::Decode
                        } else if self.has_parser {
                            PieceActionView::Feed(piece)
                        } else {
                            PieceActionView::Send(StreamChoiceView::Message(piece))
                        },
                    ),
                }
            },
        }
    }

    /// The generation after a token was decoded.
    pub open spec fn after_decode(self) -> GenerationView {
        GenerationView { steps: (self.steps + 1) as u32, ..self }
    }

    /// Whether `after` and `choices` are what comes of the deltas `texts`, where
    /// the calls that they start are identified by `fresh_ids`.
    pub open spec fn deltas_taken(
        self,
        texts: Seq<Seq<char>>,
        fresh_ids: Seq<Seq<Seq<char>>>,
        after: GenerationView,
        choices: Seq<StreamChoiceView>,
    ) -> bool {
        let (calls, emitted) = after_delta_texts(self.calls, texts, fresh_ids);
        &&& enough_ids(texts, fresh_ids)
        &&& choices == emitted
        &&& after == GenerationView {
            calls,
            gathered: gathered_after_texts(self.gathered, texts),
            ..self
        }
    }

    /// What the end of the generation emits, once the parser is closed: the
    /// calls of a stream, or the JSON object of an output with a schema.
    pub open spec fn closing_choices(self, oaicompat: Option<Seq<char>>) -> Seq<StreamChoiceView> {
        if !self.streaming {
            Seq::empty()
        } else if !self.has_json_schema {
            flushed_calls(self.calls, reparsed_calls(self.output, oaicompat))
        } else {
            match structured_json(self.output) {
                Some(json) => seq![StreamChoiceView::Message(json)],
                None => Seq::empty(),
            }
        }
    }

    /// The generation once its stream has ended: a free stream has sent its calls.
    pub open spec fn closed(self) -> GenerationView {
        if parser_wanted(self.streaming, self.has_json_schema) {
            GenerationView { calls: Seq::empty(), gathered: Map::empty(), ..self }
        } else {
            self
        }
    }

    /// The generation once the token of this step was decoded, or was not, and
    /// what the cache holds by then.
    pub open spec fn decode_taken(
        self,
        token: i32,
        outcome: Result<(), DecodeFailure>,
        entries: Seq<SlotEntry>,
    ) -> (GenerationView, Seq<SlotEntry>) {
        if outcome is Ok {
            (self.after_decode(), entries.push(SlotEntry::Text(token)))
        } else {
            (self, entries)
        }
    }

    /// The result, for a prompt with these counts.
    pub open spec fn result(
        self,
        oaicompat: Option<Seq<char>>,
        prompt_tokens: u64,
        cached_input_tokens: u64,
    ) -> InferenceResultView {
        InferenceResultView {
            text: self.result_text(),
            choice: self.choice(oaicompat),
            prompt_tokens,
            completion_tokens: self.completion_tokens,
            cached_input_tokens,
        }
    }

    /// The text of the result: the output, or, where a stream sent the JSON
    /// object of an output with a schema, that object, as it was sent.
    pub open spec fn result_text(self) -> Seq<char> {
        if self.streaming && self.has_json_schema && structured_json(self.output) is Some {
            structured_json(self.output)->0
        } else {
            self.output
        }
    }

    /// What the output says. A stream has told it already, so that its text
    /// stands for it, cleaned where it has to meet a schema.
    pub open spec fn choice(self, oaicompat: Option<Seq<char>>) -> Seq<AssistantContentView> {
        if !self.streaming {
            completion_output(self.output, oaicompat, self.has_json_schema)
        } else {
            seq![AssistantContentView::Text(self.result_text())]
        }
    }
}

/// The first of the stop texts that `output` ends with.
pub open spec fn first_stop(stops: Seq<Seq<char>>, output: Seq<char>) -> Option<Seq<char>>
    decreases stops.len(),
{
    if stops.len() == 0 {
        None
    } else if ends_with(output, stops[0]) {
        Some(stops[0])
    } else {
        first_stop(stops.drop_first(), output)
    }
}

/// The pieces one after the other.
pub open spec fn concat(pieces: Seq<Seq<char>>) -> Seq<char>
    decreases pieces.len(),
{
    if pieces.len() == 0 {
        Seq::empty()
    } else {
        concat(pieces.drop_last()) + pieces.last()
    }
}

/// The generation after tokens with these texts, each decoded.
pub open spec fn after_pieces(generation: GenerationView, pieces: Seq<Seq<char>>) -> GenerationView
    decreases pieces.len(),
{
    if pieces.len() == 0 {
        generation
    } else {
        after_pieces(generation, pieces.drop_last()).after_piece(
            Ok(pieces.last()),
        ).0.after_decode()
    }
}

/// What is sent for tokens with these texts, as text.
pub open spec fn sent_text(generation: GenerationView, pieces: Seq<Seq<char>>) -> Seq<char>
    decreases pieces.len(),
{
    if pieces.len() == 0 {
        Seq::empty()
    } else {
        let before = after_pieces(generation, pieces.drop_last());
        sent_text(generation, pieces.drop_last()) + match before.after_piece(Ok(pieces.last())).1 {
            PieceActionView::Send(StreamChoiceView::Message(text)) => text,
            _ => Seq::empty(),
        }
    }
}

/// Whether no piece completes a stop text.
pub open spec fn never_stops(generation: GenerationView, pieces: Seq<Seq<char>>) -> bool {
    forall|n: int|
        0 < n <= pieces.len() ==> first_stop(
            generation.stops,
            generation.output + concat(#[trigger] pieces.take(n)),
        ) is None
}

/// Until a stop text ends it, a generation spells out the texts of its tokens
/// and counts them, and their positions follow one another.
pub proof fn law_output_is_the_pieces(generation: GenerationView, pieces: Seq<Seq<char>>)
    requires
        generation.between_steps(),
        generation.steps + pieces.len() <= generation.max_tokens,
        never_stops(generation, pieces),
    ensures
        after_pieces(generation, pieces) == (GenerationView {
            output: generation.output + concat(pieces),
            completion_tokens: (generation.completion_tokens + pieces.len()) as u64,
            steps: (generation.steps + pieces.len()) as u32,
            ..generation
        }),
        after_pieces(generation, pieces).between_steps(),
        after_pieces(generation, pieces).position() == generation.position() + pieces.len(),
    decreases pieces.len(),
{
    if pieces.len() == 0 {
        assert(generation.output + concat(pieces) =~= generation.output);
    } else {
        let before = pieces.drop_last();
        assert forall|n: int| 0 < n <= before.len() implies first_stop(
            generation.stops,
            generation.output + concat(#[trigger] before.take(n)),
        ) is None by {
            assert(before.take(n) =~= pieces.take(n));
        }
        law_output_is_the_pieces(generation, before);
        assert(pieces.take(pieces.len() as int) =~= pieces);
        assert(generation.output + concat(before) + pieces.last() =~= generation.output + concat(
            pieces,
        ));
    }
}

/// A stream without a parser sends what it generates.
pub proof fn law_unparsed_stream_sends_the_output(
    generation: GenerationView,
    pieces: Seq<Seq<char>>,
)
    requires
        generation.between_steps(),
        generation.steps + pieces.len() <= generation.max_tokens,
        never_stops(generation, pieces),
        generation.streaming,
        !generation.has_json_schema,
        !generation.has_parser,
    ensures
        after_pieces(generation, pieces).output == generation.output + sent_text(
            generation,
            pieces,
        ),
    decreases pieces.len(),
{
    law_output_is_the_pieces(generation, pieces);
    if pieces.len() == 0 {
        assert(generation.output + sent_text(generation, pieces) =~= generation.output);
    } else {
        let before = pieces.drop_last();
        assert forall|n: int| 0 < n <= before.len() implies first_stop(
            generation.stops,
            generation.output + concat(#[trigger] before.take(n)),
        ) is None by {
            assert(before.take(n) =~= pieces.take(n));
        }
        law_unparsed_stream_sends_the_output(generation, before);
        law_output_is_the_pieces(generation, before);
        assert(pieces.take(pieces.len() as int) =~= pieces);
        assert(generation.output + concat(before) + pieces.last() =~= generation.output + concat(
            pieces,
        ));
        assert(generation.output + sent_text(generation, before) + pieces.last()
            =~= generation.output + sent_text(generation, pieces));
    }
}

/// A piece that completes a stop text ends the generation, and exactly that
/// text is missing from the output.
pub proof fn law_stop_texts_are_cut(generation: GenerationView, piece: Seq<char>)
    ensures
        first_stop(generation.stops, generation.output + piece) matches Some(stop) ==> {
            let (after, action) = generation.after_piece(Ok(piece));
            &&& action is Finish
            &&& after.output + stop == generation.output + piece
            &&& generation.stops.contains(stop)
        },
{
    let output = generation.output + piece;
    lemma_first_stop(generation.stops, output);
    if let Some(stop) = first_stop(generation.stops, output) {
        let kept = output.len() - stop.len();
        assert(output.take(kept) + output.skip(kept) =~= output);
    }
}

/// What a piece of text does to a generation, whatever came before. Where the
/// output then ends with none of the stop texts, it is the output before with
/// the piece behind it, and the piece itself, unchanged, goes to who reads the
/// stream: to the parser, where the stream has one, and else out as a message.
/// Where it ends with some, the first of them in the list is cut off, and the
/// generation ends. Nothing else changes but the count of tokens.
pub proof fn law_a_piece_is_handed_on(generation: GenerationView, piece: Seq<char>, stop: int)
    requires
        generation.completion_tokens < u64::MAX,
    ensures
        ({
            let whole = generation.output + piece;
            let (after, action) = generation.after_piece(Ok(piece));
            &&& after == (GenerationView {
                output: after.output,
                completion_tokens: (generation.completion_tokens + 1) as u64,
                ..generation
            })
            &&& (forall|i: int|
                0 <= i < generation.stops.len() ==> !(#[trigger] generation.stops[i]).is_suffix_of(
                    whole,
                )) ==> {
                &&& after.output == whole
                &&& generation.streaming && !generation.has_json_schema && generation.has_parser
                    ==> action == PieceActionView::Feed(piece)
                &&& generation.streaming && !generation.has_json_schema && !generation.has_parser
                    ==> action == PieceActionView::Send(StreamChoiceView::Message(piece))
                &&& !generation.streaming || generation.has_json_schema ==> action
                    == PieceActionView::Decode
            }
            &&& 0 <= stop < generation.stops.len() && generation.stops[stop].is_suffix_of(whole) && (
            forall|i: int|
                0 <= i < stop ==> !(#[trigger] generation.stops[i]).is_suffix_of(whole)) ==> {
                &&& after.output + generation.stops[stop] == whole
                &&& action == PieceActionView::Finish
            }
        }),
{
    let whole = generation.output + piece;
    let stops = generation.stops;
    lemma_suffixes(stops, whole);
    lemma_first_stop_at(stops, whole);
    if 0 <= stop < stops.len() && stops[stop].is_suffix_of(whole) && (forall|i: int|
        0 <= i < stop ==> !(#[trigger] stops[i]).is_suffix_of(whole)) {
        assert(ends_with(whole, stops[stop]));
        let at = choose|at: int|
            0 <= at < stops.len() && first_stop(stops, whole) == Some(stops[at]) && ends_with(
                whole,
                stops[at],
            ) && forall|i: int| 0 <= i < at ==> !ends_with(whole, #[trigger] stops[i]);
        assert(at == stop);
        let kept = whole.len() - stops[stop].len();
        assert(whole.take(kept) + whole.skip(kept) =~= whole);
    }
}

/// To end with a text is to have it as a suffix.
proof fn lemma_suffixes(stops: Seq<Seq<char>>, whole: Seq<char>)
    ensures
        forall|i: int|
            0 <= i < stops.len() ==> (#[trigger] stops[i]).is_suffix_of(whole) == ends_with(
                whole,
                stops[i],
            ),
{
    assert forall|i: int| 0 <= i < stops.len() implies (#[trigger] stops[i]).is_suffix_of(whole)
        == ends_with(whole, stops[i]) by {
        if stops[i].len() <= whole.len() {
            let kept = whole.len() - stops[i].len();
            assert(whole.subrange(kept, whole.len() as int) =~= whole.skip(kept));
        }
    }
}

/// The first stop text has a place, before which none fits.
proof fn lemma_first_stop_at(stops: Seq<Seq<char>>, output: Seq<char>)
    ensures
        first_stop(stops, output) is None ==> forall|i: int|
            0 <= i < stops.len() ==> !ends_with(output, #[trigger] stops[i]),
        first_stop(stops, output) is Some ==> exists|at: int|
            0 <= at < stops.len() && first_stop(stops, output) == Some(stops[at]) && ends_with(
                output,
                stops[at],
            ) && forall|i: int| 0 <= i < at ==> !ends_with(output, #[trigger] stops[i]),
    decreases stops.len(),
{
    if stops.len() > 0 {
        if ends_with(output, stops[0]) {
            assert(first_stop(stops, output) == Some(stops[0]));
        } else {
            let rest = stops.drop_first();
            lemma_first_stop_at(rest, output);
            if first_stop(rest, output) is Some {
                let at = choose|at: int|
                    0 <= at < rest.len() && first_stop(rest, output) == Some(rest[at]) && ends_with(
                        output,
                        rest[at],
                    ) && forall|i: int| 0 <= i < at ==> !ends_with(output, #[trigger] rest[i]);
                assert(stops[at + 1] == rest[at]);
                assert forall|i: int| 0 <= i < at + 1 implies !ends_with(
                    output,
                    #[trigger] stops[i],
                ) by {
                    if i > 0 {
                        assert(rest[i - 1] == stops[i]);
                    }
                }
            } else {
                assert forall|i: int| 0 <= i < stops.len() implies !ends_with(
                    output,
                    #[trigger] stops[i],
                ) by {
                    if i > 0 {
                        assert(rest[i - 1] == stops[i]);
                    }
                }
            }
        }
    }
}

/// What is fed to the parser for tokens with these texts.
pub open spec fn fed_text(generation: GenerationView, pieces: Seq<Seq<char>>) -> Seq<char>
    decreases pieces.len(),
{
    if pieces.len() == 0 {
        Seq::empty()
    } else {
        let before = after_pieces(generation, pieces.drop_last());
        fed_text(generation, pieces.drop_last()) + match before.after_piece(Ok(pieces.last())).1 {
            PieceActionView::Feed(text) => text,
            _ => Seq::empty(),
        }
    }
}

/// A stream with a parser feeds it what it generates, all of it and nothing twice.
pub proof fn law_parsed_stream_feeds_the_output(
    generation: GenerationView,
    pieces: Seq<Seq<char>>,
)
    requires
        generation.between_steps(),
        generation.steps + pieces.len() <= generation.max_tokens,
        never_stops(generation, pieces),
        generation.streaming,
        !generation.has_json_schema,
        generation.has_parser,
    ensures
        fed_text(generation, pieces) == pieces.flatten(),
        after_pieces(generation, pieces).output == generation.output + pieces.flatten(),
        after_pieces(generation, pieces).output == generation.output + fed_text(
            generation,
            pieces,
        ),
    decreases pieces.len(),
{
    law_output_is_the_pieces(generation, pieces);
    law_pieces_are_concatenated(pieces);
    if pieces.len() == 0 {
        assert(fed_text(generation, pieces) =~= pieces.flatten());
    } else {
        let before = pieces.drop_last();
        assert forall|n: int| 0 < n <= before.len() implies first_stop(
            generation.stops,
            generation.output + concat(#[trigger] before.take(n)),
        ) is None by {
            assert(before.take(n) =~= pieces.take(n));
        }
        law_parsed_stream_feeds_the_output(generation, before);
        law_output_is_the_pieces(generation, before);
        law_pieces_are_concatenated(before);
        assert(pieces.take(pieces.len() as int) =~= pieces);
        assert(generation.output + concat(before) + pieces.last() =~= generation.output + concat(
            pieces,
        ));
    }
}

/// Pieces one after the other are the flattened list of pieces.
pub proof fn law_pieces_are_concatenated(pieces: Seq<Seq<char>>)
    ensures
        concat(pieces) == pieces.flatten(),
    decreases pieces.len(),
{
    if pieces.len() == 0 {
        assert(concat(pieces) =~= pieces.flatten());
    } else {
        let before = pieces.drop_last();
        law_pieces_are_concatenated(before);
        assert(pieces =~= before.push(pieces.last()));
        before.lemma_flatten_push(pieces.last());
    }
}

/// A token without text costs a token and adds nothing; a token that could not
/// be turned into text fails the generation, which stays as it was.
pub proof fn law_failed_pieces_change_nothing(generation: GenerationView, error: Seq<char>)
    ensures
        generation.after_piece(Err(error)) == (generation, PieceActionView::Fail(error)),
{
}

/// What comes before each token: a generation ends after `max_tokens` and no
/// sooner by itself; before that it fails once it is cancelled, ends where its
/// stream has no listener, and else samples, from the last logits of the
/// context for the first token where it was told so, and otherwise from the
/// last token of the batch.
pub proof fn law_steps_are_taken_while_wanted(
    generation: GenerationView,
    cancelled: bool,
    closed: bool,
    batch_tokens: i32,
)
    requires
        generation.between_steps(),
        batch_tokens > i32::MIN,
    ensures
        ({
            let step = generation.next_step(cancelled, closed, batch_tokens);
            &&& generation.steps == generation.max_tokens ==> step is Finish
            &&& generation.steps < generation.max_tokens ==> {
                &&& step is Fail <==> cancelled
                &&& step is Finish <==> !cancelled && closed && generation.streaming
            }
            &&& step matches StepView::Fail(error) ==> error == "inference cancelled"@
            &&& step matches StepView::Sample(index) ==> if generation.from_last_logits
                && generation.steps == 0 {
                index == -1
            } else {
                index == batch_tokens - 1
            }
        }),
{
}

/// A decoded token moves the generation on by one position and changes nothing else.
pub proof fn law_a_decoded_token_takes_one_position(generation: GenerationView)
    requires
        generation.within_step(),
    ensures
        generation.after_decode().position() == generation.position() + 1,
        generation.after_decode() == (GenerationView {
            steps: generation.after_decode().steps,
            ..generation
        }),
        generation.after_decode().between_steps(),
{
}

/// What a generation results in. Without a schema a stream sends its calls at
/// the end, and its text stands for what it said; where nothing is streamed
/// nothing is sent, and the whole output is read; the text of the result is the
/// output, unless a stream sent the JSON object in its place.
pub proof fn law_results_hold_the_output(generation: GenerationView, oaicompat: Option<Seq<char>>)
    ensures
        !generation.streaming ==> {
            &&& generation.closing_choices(oaicompat).len() == 0
            &&& generation.result_text() == generation.output
            &&& generation.choice(oaicompat) == completion_output(
                generation.output,
                oaicompat,
                generation.has_json_schema,
            )
        },
        generation.streaming && !generation.has_json_schema ==> {
            &&& generation.closing_choices(oaicompat) == flushed_calls(
                generation.calls,
                reparsed_calls(generation.output, oaicompat),
            )
            &&& generation.result_text() == generation.output
        },
        generation.streaming && structured_json(generation.output) is None
            ==> generation.result_text() == generation.output,
        generation.streaming ==> generation.choice(oaicompat) == seq![
            AssistantContentView::Text(generation.result_text()),
        ],
{
}

/// A parser is wanted for exactly the streams whose output is free.
pub proof fn law_free_streams_want_a_parser(streaming: bool, has_json_schema: bool)
    ensures
        parser_wanted(streaming, has_json_schema) <==> streaming && !has_json_schema,
{
}

/// Deltas that come in two lists do what they do in one, and emit the same.
pub proof fn law_lists_of_delta_texts_chain(
    calls: Seq<(u64, StreamToolCallView)>,
    first: Seq<Seq<char>>,
    second: Seq<Seq<char>>,
    first_ids: Seq<Seq<Seq<char>>>,
    second_ids: Seq<Seq<Seq<char>>>,
)
    requires
        first_ids.len() == first.len(),
        second_ids.len() == second.len(),
    ensures
        ({
            let (middle, shown) = after_delta_texts(calls, first, first_ids);
            let (end, more) = after_delta_texts(middle, second, second_ids);
            after_delta_texts(calls, first + second, first_ids + second_ids) == (end, shown + more)
        }),
        first.len() == 1 ==> after_delta_texts(calls, first, first_ids) == after_delta(
            calls,
            delta_of(first[0]),
            first_ids[0],
        ),
    decreases second.len(),
{
    let (middle, shown) = after_delta_texts(calls, first, first_ids);
    if first.len() == 1 {
        reveal_with_fuel(after_delta_texts, 2);
        let emitted = after_delta(calls, delta_of(first[0]), first_ids[0]).1;
        assert(Seq::<StreamChoiceView>::empty() + emitted =~= emitted);
    }
    if second.len() == 0 {
        assert(first + second =~= first);
        assert(first_ids + second_ids =~= first_ids);
        assert(shown + Seq::<StreamChoiceView>::empty() =~= shown);
    } else {
        assert((first + second).drop_last() =~= first + second.drop_last());
        assert((first_ids + second_ids).drop_last() =~= first_ids + second_ids.drop_last());
        law_lists_of_delta_texts_chain(
            calls,
            first,
            second.drop_last(),
            first_ids,
            second_ids.drop_last(),
        );
        let (before, more) = after_delta_texts(middle, second.drop_last(), second_ids.drop_last());
        let last = after_delta(before, delta_of(second.last()), second_ids.last()).1;
        assert(shown + more + last =~= shown + (more + last));
    }
}

/// The first stop text is one of them, and the output ends with it.
proof fn lemma_first_stop(stops: Seq<Seq<char>>, output: Seq<char>)
    ensures
        first_stop(stops, output) matches Some(stop) ==> ends_with(output, stop) && stops.contains(
            stop,
        ),
    decreases stops.len(),
{
    if stops.len() > 0 {
        if ends_with(output, stops[0]) {
            assert(stops.contains(stops[0]));
        } else {
            let rest = stops.drop_first();
            lemma_first_stop(rest, output);
            if let Some(stop) = first_stop(rest, output) {
                let i = choose|i: int| 0 <= i < rest.len() && rest[i] == stop;
                assert(stops[i + 1] == stop);
            }
        }
    }
}

/// A stream whose output has to meet a schema sends nothing until it ends, and
/// then the JSON object of the output, where it has one, which is also the text
/// of its result and what the result says.
pub proof fn law_structured_stream_sends_one_message(
    generation: GenerationView,
    piece: Seq<char>,
    oaicompat: Option<Seq<char>>,
)
    requires
        generation.streaming,
        generation.has_json_schema,
    ensures
        generation.after_piece(Ok(piece)).1 is Decode || generation.after_piece(
            Ok(piece),
        ).1 is Finish,
        structured_json(generation.output) matches Some(json) ==> {
            &&& generation.closing_choices(oaicompat) == seq![StreamChoiceView::Message(json)]
            &&& generation.choice(oaicompat) == seq![AssistantContentView::Text(json)]
            &&& generation.result_text() == json
        },
        structured_json(generation.output) is None ==> generation.closing_choices(oaicompat).len()
            == 0,
{
}

/// The calls after a list of deltas, given as JSON texts, and what is emitted
/// for them.
pub open spec fn after_delta_texts(
    calls: Seq<(u64, StreamToolCallView)>,
    texts: Seq<Seq<char>>,
    fresh_ids: Seq<Seq<Seq<char>>>,
) -> (Seq<(u64, StreamToolCallView)>, Seq<StreamChoiceView>)
    decreases texts.len(),
{
    if texts.len() == 0 {
        (calls, Seq::empty())
    } else {
        let (before, emitted) = after_delta_texts(calls, texts.drop_last(), fresh_ids.drop_last());
        let (after, choices) = after_delta(before, delta_of(texts.last()), fresh_ids.last());
        (after, emitted + choices)
    }
}

/// What was gathered after a list of deltas, given as JSON texts.
pub open spec fn gathered_after_texts(
    gathered: Map<u64, Seq<char>>,
    texts: Seq<Seq<char>>,
) -> Map<u64, Seq<char>>
    decreases texts.len(),
{
    if texts.len() == 0 {
        gathered
    } else {
        gathered_after_deltas(
            gathered_after_texts(gathered, texts.drop_last()),
            call_deltas(delta_of(texts.last())),
        )
    }
}

/// Whether `fresh_ids` holds an identifier for each call delta of `texts`.
pub open spec fn enough_ids(texts: Seq<Seq<char>>, fresh_ids: Seq<Seq<Seq<char>>>) -> bool {
    &&& fresh_ids.len() == texts.len()
    &&& forall|i: int|
        0 <= i < texts.len() ==> (#[trigger] fresh_ids[i]).len() == call_deltas(
            delta_of(texts[i]),
        ).len()
}

/// Feeds a list of deltas to `state`.
fn parse_deltas(state: &mut StreamDeltaState, texts: &Vec<String>) -> (choices: Vec<StreamChoice>)
    requires
        old(state).wf(),
    ensures
        final(state).wf(),
        exists|fresh_ids: Seq<Seq<Seq<char>>>|
            enough_ids(views(texts@), fresh_ids) && (final(state)@, views(choices@))
                == #[trigger] after_delta_texts(old(state)@, views(texts@), fresh_ids),
        final(state).gathered() == gathered_after_texts(old(state).gathered(), views(texts@)),
{
    let ghost all = views(texts@);
    let ghost mut fresh_ids: Seq<Seq<Seq<char>>> = Seq::empty();
    let mut choices: Vec<StreamChoice> = Vec::new();
    assert(views(choices@) =~= Seq::empty());
    let mut i: usize = 0;
    while i < texts.len()
        invariant
            i <= texts@.len(),
            all == views(texts@),
            state.wf(),
            state.gathered() == gathered_after_texts(old(state).gathered(), all.take(i as int)),
            enough_ids(all.take(i as int), fresh_ids),
            (state@, views(choices@)) == after_delta_texts(
                old(state)@,
                all.take(i as int),
                fresh_ids,
            ),
        decreases texts@.len() - i,
    {
        let ghost before = state@;
        let mut emitted = state.parse_delta(texts[i].as_str());
        proof {
            let ids = choose|ids: Seq<Seq<char>>|
                ids.len() == call_deltas(delta_of(all[i as int])).len() && (
                    state@,
                    views(emitted@),
                ) == #[trigger] after_delta(before, delta_of(all[i as int]), ids);
            let more = fresh_ids.push(ids);
            assert(all.take(i + 1).drop_last() =~= all.take(i as int));
            assert(more.drop_last() =~= fresh_ids);
            assert forall|k: int| 0 <= k < i + 1 implies (#[trigger] more[k]).len() == call_deltas(
                delta_of(all.take(i + 1)[k]),
            ).len() by {
                if k < i {
                    assert(more[k] == fresh_ids[k]);
                    assert(all.take(i + 1)[k] == all.take(i as int)[k]);
                }
            }
            lemma_views_add(choices@, emitted@);
            fresh_ids = more;
        }
        choices.append(&mut emitted);
        i = i + 1;
    }
    assert(all.take(i as int) =~= all);
    choices
}

impl Generation {
    /// A generation before its first step. The first token stands at the
    /// position `start` and is sampled from the last logits of the context
    /// where `from_last_logits` says so, and else from the end of the batch.
    pub fn new(
        max_tokens: u32,
        start: i32,
        from_last_logits: bool,
        streaming: bool,
        has_json_schema: bool,
        has_parser: bool,
        preserved: HashSet<i32>,
        stops: &Vec<String>,
    ) -> (generation: Self)
        ensures
            generation@ == (GenerationView {
                max_tokens,
                start,
                from_last_logits,
                streaming,
                has_json_schema,
                has_parser,
                preserved: preserved@,
                stops: views(stops@),
                output: Seq::empty(),
                completion_tokens: 0,
                steps: 0,
                calls: Seq::empty(),
                gathered: Map::empty(),
            }),
            generation@.between_steps(),
    {
        let ghost all = views(stops@);
        let mut ends: Vec<Vec<char>> = Vec::new();
        let mut i: usize = 0;
        assert(views(ends@) =~= all.take(0));
        while i < stops.len()
            invariant
                i <= stops@.len(),
                all == views(stops@),
                views(ends@) == all.take(i as int),
            decreases stops@.len() - i,
        {
            broadcast use lemma_views_push;

            ends.push(chars_of(stops[i].as_str()));
            assert(all.take(i + 1) =~= all.take(i as int).push(all[i as int]));
            i = i + 1;
        }
        assert(all.take(i as int) =~= all);
        Generation {
            max_tokens,
            start,
            from_last_logits,
            streaming,
            has_json_schema,
            has_parser,
            preserved,
            stops: ends,
            output: Vec::new(),
            completion_tokens: 0,
            steps: 0,
            deltas: StreamDeltaState::new(),
        }
    }

    /// Decides what to do at the start of a step: `cancelled` says whether the
    /// inference was cancelled, `closed` whether the stream has no listener,
    /// and `batch_tokens` how many tokens the batch holds.
    pub fn next_step(&self, cancelled: bool, closed: bool, batch_tokens: i32) -> (step: Step)
        requires
            self@.between_steps(),
            batch_tokens > i32::MIN,
        ensures
            step@ == self@.next_step(cancelled, closed, batch_tokens),
    {
        if self.steps == self.max_tokens {
            Step::Finish
        } else if cancelled {
            Step::Fail(cancel_message())
        } else if self.streaming && closed {
            Step::Finish
        } else if self.from_last_logits && self.completion_tokens == 0 {
            Step::Sample(-1)
        } else {
            Step::Sample(batch_tokens - 1)
        }
    }

    /// Decides what to do with a sampled token: one that ends the generation
    /// ends it, and of the others the preserved ones are shown though special.
    pub fn take_token(&self, token: i32, ends_generation: bool) -> (action: TokenAction)
        ensures
            action == (if ends_generation {
                TokenAction::Finish
            } else {
                TokenAction::Detokenize { decode_special: self@.preserved.contains(token) }
            }),
            action == self@.token_action(token, ends_generation),
    {
        broadcast use group_hash_axioms;

        if ends_generation {
            TokenAction::Finish
        } else {
            TokenAction::Detokenize { decode_special: self.preserved.contains(&token) }
        }
    }

    /// Finds the first stop text that the output ends with, and measures it.
    fn find_stop(&self) -> (length: Option<usize>)
        ensures
            match length {
                Some(length) => first_stop(self@.stops, self@.output) is Some && first_stop(
                    self@.stops,
                    self@.output,
                )->0.len() == length && length <= self.output.len(),
                None => first_stop(self@.stops, self@.output) is None,
            },
    {
        let ghost all = views(self.stops@);
        let mut i: usize = 0;
        assert(all.skip(0) =~= all);
        while i < self.stops.len()
            invariant
                i <= self.stops@.len(),
                all == views(self.stops@),
                first_stop(all.skip(i as int), self.output@) == first_stop(all, self.output@),
            decreases self.stops@.len() - i,
        {
            let stop = &self.stops[i];
            assert(all.skip(i as int)[0] == stop@);
            assert(all.skip(i as int).drop_first() =~= all.skip(i + 1));
            if stop.len() <= self.output.len() {
                let at: usize = self.output.len() - stop.len();
                assert(self.output@.subrange(at as int, at + stop@.len()) =~= self.output@.skip(
                    at as int,
                ));
                if matches_at(&self.output, at, stop) {
                    return Some(stop.len());
                }
            }
            i = i + 1;
        }
        None
    }

    /// Takes in the text of a sampled token and decides what to do with it.
    pub fn take_piece(&mut self, piece: Result<String, TokenToStringError>) -> (action: PieceAction)
        requires
            old(self)@.between_steps(),
            old(self)@.steps < old(self)@.max_tokens,
        ensures
            (final(self)@, action@) == old(self)@.after_piece(token_piece(piece)),
            token_piece(piece) is Ok ==> final(self)@.within_step(),
    {
        let piece = match token_piece_or_empty(piece) {
            Ok(piece) => piece,
            Err(error) => {
                return PieceAction::Fail(error);
            },
        };
        let mut chars = chars_of(piece.as_str());
        self.output.append(&mut chars);
        self.completion_tokens = self.completion_tokens + 1;
        if let Some(length) = self.find_stop() {
            let kept: usize = self.output.len() - length;
            self.output = slice_of(&self.output, 0, kept);
            assert(self.output@ =~= (old(self)@.output + piece@).take(kept as int));
            return PieceAction::Finish;
        }
        if !wants_parser(self.streaming, self.has_json_schema) {
            PieceAction::Decode
        } else if self.has_parser {
            PieceAction::Feed(piece)
        } else {
            PieceAction::Send(StreamChoice::Message(piece))
        }
    }

    /// Takes in what the parser made of a piece, and says what to send: the
    /// events of its deltas, or the piece itself where it failed.
    pub fn take_deltas(&mut self, piece: String, deltas: Option<&Vec<String>>) -> (choices: Vec<
        StreamChoice,
    >)
        requires
            old(self)@.wf(),
        ensures
            final(self)@.wf(),
            match deltas {
                None => final(self)@ == old(self)@ && views(choices@) == seq![
                    StreamChoiceView::Message(piece@),
                ],
                Some(deltas) => exists|fresh_ids: Seq<Seq<Seq<char>>>| #[trigger]
                    old(self)@.deltas_taken(
                        views(deltas@),
                        fresh_ids,
                        final(self)@,
                        views(choices@),
                    ),
            },
    {
        match deltas {
            None => {
                let mut choices: Vec<StreamChoice> = Vec::new();
                choices.push(StreamChoice::Message(piece));
                assert(views(choices@) =~= seq![StreamChoiceView::Message(piece@)]);
                choices
            },
            Some(deltas) => {
                let choices = parse_deltas(&mut self.deltas, deltas);
                proof {
                    let fresh_ids = choose|fresh_ids: Seq<Seq<Seq<char>>>|
                        enough_ids(views(deltas@), fresh_ids) && (
                            self.deltas@,
                            views(choices@),
                        ) == #[trigger] after_delta_texts(
                            old(self)@.calls,
                            views(deltas@),
                            fresh_ids,
                        );
                    assert(old(self)@.deltas_taken(
                        views(deltas@),
                        fresh_ids,
                        self@,
                        views(choices@),
                    ));
                }
                choices
            },
        }
    }

    /// What to decode for the token of this step.
    pub fn batch_entry(&self, token: i32) -> (entry: BatchEntry)
        requires
            self@.within_step(),
            self@.position() <= i32::MAX,
        ensures
            entry == (BatchEntry { token, position: self@.position() as i32, logits: true }),
            entry == self@.step_entry(token),
    {
        let position: i64 = self.start as i64 + self.steps as i64;
        BatchEntry { token, position: position as i32, logits: true }
    }

    /// Takes in whether the token of this step was decoded. Where it was, it
    /// is now part of the cache, whose `entries` it extends.
    pub fn take_decode(
        &mut self,
        token: i32,
        outcome: Result<(), DecodeFailure>,
        entries: &mut Vec<SlotEntry>,
    ) -> (result: Result<(), String>)
        requires
            old(self)@.within_step(),
        ensures
            match outcome {
                Ok(_) => {
                    &&& result is Ok
                    &&& final(self)@ == old(self)@.after_decode()
                    &&& final(self)@.between_steps()
                    &&& final(entries)@ == old(entries)@.push(SlotEntry::Text(token))
                },
                Err(failure) => {
                    &&& result matches Err(error) && error@ == failure_text(failure)
                    &&& final(self)@ == old(self)@
                    &&& final(entries)@ == old(entries)@
                },
            },
            (final(self)@, final(entries)@) == old(self)@.decode_taken(
                token,
                outcome,
                old(entries)@,
            ),
    {
        match outcome {
            Ok(_) => {
                self.steps = self.steps + 1;
                entries.push(SlotEntry::Text(token));
                Ok(())
            },
            Err(DecodeFailure::Add(reason)) => {
                let mut error = "Batch add failed: ".to_owned();
                error.append(reason.as_str());
                Err(error)
            },
            Err(DecodeFailure::Decode(reason)) => {
                let mut error = "Decode failed: ".to_owned();
                error.append(reason.as_str());
                Err(error)
            },
        }
    }

    /// Takes in what the parser of the stream still had when it was closed, and
    /// says what to send for it. Without a parser, or where it failed, nothing is sent.
    pub fn close_parser(&mut self, deltas: Option<&Vec<String>>) -> (choices: Vec<StreamChoice>)
        requires
            old(self)@.wf(),
        ensures
            final(self)@.wf(),
            if old(self)@.has_parser && parser_wanted(
                old(self)@.streaming,
                old(self)@.has_json_schema,
            ) && deltas is Some {
                exists|fresh_ids: Seq<Seq<Seq<char>>>| #[trigger]
                    old(self)@.deltas_taken(
                        views(deltas->0@),
                        fresh_ids,
                        final(self)@,
                        views(choices@),
                    )
            } else {
                final(self)@ == old(self)@ && views(choices@) == Seq::<StreamChoiceView>::empty()
            },
    {
        if self.has_parser && wants_parser(self.streaming, self.has_json_schema)
            && deltas.is_some() {
            return self.take_deltas(String::new(), deltas);
        }
        let choices: Vec<StreamChoice> = Vec::new();
        assert(views(choices@) =~= Seq::empty());
        choices
    }

    /// Whether [`Self::close`] depends on what the chat template's parser makes
    /// of the whole output.
    pub fn close_needs_template(&self) -> (needed: bool)
        ensures
            needed == (parser_wanted(self@.streaming, self@.has_json_schema) && has_broken_call(
                self@.calls,
            )),
    {
        wants_parser(self.streaming, self.has_json_schema) && self.deltas.has_broken_calls()
    }

    /// Ends the stream and says what to send: the calls that it began, complete
    /// where `oaicompat`, the message that the chat template's parser made of
    /// the output, helps, or the JSON object of an output with a schema.
    pub fn close(&mut self, oaicompat: Option<&str>) -> (choices: Vec<StreamChoice>)
        requires
            old(self)@.wf(),
        ensures
            views(choices@) == old(self)@.closing_choices(option_view(oaicompat)),
            final(self)@.wf(),
            final(self)@ == (GenerationView {
                calls: if parser_wanted(old(self)@.streaming, old(self)@.has_json_schema) {
                    Seq::empty()
                } else {
                    old(self)@.calls
                },
                gathered: if parser_wanted(old(self)@.streaming, old(self)@.has_json_schema) {
                    Map::empty()
                } else {
                    old(self)@.gathered
                },
                ..old(self)@
            }),
            final(self)@ == old(self)@.closed(),
    {
        let mut choices: Vec<StreamChoice> = Vec::new();
        assert(views(choices@) =~= Seq::empty());
        if self.streaming {
            let output = self.text();
            if !self.has_json_schema {
                choices = self.deltas.flush_tool_calls(output.as_str(), oaicompat);
            } else if let Some(json) = extract_structured_json(output.as_str()) {
                choices.push(StreamChoice::Message(json));
                assert(views(choices@) =~= seq![StreamChoiceView::Message(json@)]);
            }
        }
        choices
    }

    /// The output as a string.
    pub fn text(&self) -> (text: String)
        ensures
            text@ == self@.output,
    {
        assert(self.output@.subrange(0, self.output@.len() as int) =~= self.output@);
        substring(&self.output, 0, self.output.len())
    }

    /// Whether [`Self::into_result`] depends on what the chat template's parser
    /// makes of the output.
    pub fn result_needs_template(&self) -> (needed: bool)
        ensures
            needed == (!self@.streaming && template_decides(self@.output, self@.has_json_schema)),
    {
        !self.streaming && needs_template_parse(self.text().as_str(), self.has_json_schema)
    }

    /// The result of the generation.
    pub fn into_result(
        self,
        oaicompat: Option<&str>,
        prompt_tokens: u64,
        cached_input_tokens: u64,
    ) -> (result: InferenceResult)
        ensures
            result@ == (InferenceResultView {
                text: self@.result_text(),
                choice: self@.choice(option_view(oaicompat)),
                prompt_tokens,
                completion_tokens: self@.completion_tokens,
                cached_input_tokens,
            }),
            result@ == self@.result(option_view(oaicompat), prompt_tokens, cached_input_tokens),
    {
        let mut text = self.text();
        let choice = if !self.streaming {
            parse_completion_output(text.as_str(), oaicompat, self.has_json_schema)
        } else {
            if self.has_json_schema {
                if let Some(json) = extract_structured_json(text.as_str()) {
                    text = json;
                }
            }
            let mut content: Vec<AssistantContent> = Vec::new();
            content.push(AssistantContent::Text(text.clone()));
            assert(views(content@) =~= self@.choice(option_view(oaicompat)));
            content
        };
        InferenceResult {
            text,
            choice,
            prompt_tokens,
            completion_tokens: self.completion_tokens,
            cached_input_tokens,
        }
    }
}

/// A token that could not be decoded is reported with which step failed and why.
pub proof fn law_decode_failures_say_what_failed(reason: String)
    ensures
        failure_text(DecodeFailure::Add(reason)) == "Batch add failed: "@ + reason@,
        failure_text(DecodeFailure::Decode(reason)) == "Decode failed: "@ + reason@,
        cancel_error() == "inference cancelled"@,
{
}

/// Only a token that ends the generation ends it; any other is turned into
/// text, and a special one is shown exactly where it is preserved.
pub proof fn law_special_tokens_are_shown_where_preserved(generation: GenerationView, token: i32)
    ensures
        generation.token_action(token, true) is Finish,
        generation.token_action(token, false) is Detokenize,
        generation.preserved.contains(token) <==> generation.token_action(token, false) == (
        TokenAction::Detokenize { decode_special: true }),
{
}

/// Each token is decoded right behind the one before, with its logits wanted,
/// so that the next can be sampled from them.
pub proof fn law_tokens_are_decoded_one_behind_the_other(
    generation: GenerationView,
    token: i32,
    next: i32,
)
    requires
        generation.within_step(),
        generation.position() < i32::MAX,
    ensures
        generation.step_entry(token).token == token,
        generation.step_entry(token).logits,
        generation.step_entry(token).position == generation.start + generation.steps,
        generation.after_decode().step_entry(next).position == generation.step_entry(token).position
            + 1,
{
}

/// What a step or an action shows is what it holds.
pub proof fn law_steps_show_what_they_hold(step: Step, action: PieceAction)
    ensures
        step matches Step::Fail(text) ==> step@ == StepView::Fail(text@),
        step is Finish ==> step@ is Finish,
        step matches Step::Sample(index) ==> step@ == StepView::Sample(index),
        action matches PieceAction::Fail(text) ==> action@ == PieceActionView::Fail(text@),
        action is Finish ==> action@ is Finish,
        action is Decode ==> action@ is Decode,
        action matches PieceAction::Send(choice) ==> action@ == PieceActionView::Send(choice@),
        action matches PieceAction::Feed(text) ==> action@ == PieceActionView::Feed(text@),
{
}

/// Deltas that a generation takes in change its calls, and show, what they do
/// one after the other, with an identifier for every call that they may start;
/// its output and its counts stay.
pub proof fn law_deltas_change_the_calls_only(
    generation: GenerationView,
    texts: Seq<Seq<char>>,
    fresh_ids: Seq<Seq<Seq<char>>>,
    after: GenerationView,
    choices: Seq<StreamChoiceView>,
)
    requires
        generation.deltas_taken(texts, fresh_ids, after, choices),
    ensures
        (after.calls, choices) == after_delta_texts(generation.calls, texts, fresh_ids),
        fresh_ids.len() == texts.len(),
        after == (GenerationView { calls: after.calls, gathered: after.gathered, ..generation }),
        texts.len() == 0 ==> after.calls == generation.calls && choices.len() == 0,
{
}

/// A result tells the counts of its prompt as they are given, and as many tokens
/// of its own as were turned into text.
pub proof fn law_results_hold_their_counts(
    generation: GenerationView,
    oaicompat: Option<Seq<char>>,
    prompt_tokens: u64,
    cached_input_tokens: u64,
)
    ensures
        ({
            let result = generation.result(oaicompat, prompt_tokens, cached_input_tokens);
            &&& result.prompt_tokens == prompt_tokens
            &&& result.cached_input_tokens == cached_input_tokens
            &&& result.completion_tokens == generation.completion_tokens
            &&& result.text == generation.result_text()
            &&& result.choice == generation.choice(oaicompat)
        }),
{
}

/// A decoded token is added to what the cache holds, behind all that is there,
/// and counts as a step; one that was not decoded is neither.
pub proof fn law_the_cache_holds_what_was_decoded(
    generation: GenerationView,
    token: i32,
    failure: DecodeFailure,
    entries: Seq<SlotEntry>,
)
    requires
        generation.within_step(),
    ensures
        ({
            let (after, held) = generation.decode_taken(token, Ok(()), entries);
            &&& held.len() == entries.len() + 1
            &&& held.drop_last() == entries
            &&& held.last() == SlotEntry::Text(token)
            &&& after.steps == generation.steps + 1
            &&& after.output == generation.output
        }),
        generation.decode_taken(token, Err(failure), entries) == (generation, entries),
{
    assert(entries.push(SlotEntry::Text(token)).drop_last() =~= entries);
}

/// A stream that has ended sends its calls no second time, and what it generated
/// stays as it was.
pub proof fn law_calls_are_sent_once(generation: GenerationView, oaicompat: Option<Seq<char>>)
    ensures
        generation.streaming && !generation.has_json_schema
            ==> generation.closed().closing_choices(oaicompat).len() == 0,
        generation.closed().closed() == generation.closed(),
        generation.closed().output == generation.output,
        generation.closed().completion_tokens == generation.completion_tokens,
        generation.closed().result_text() == generation.result_text(),
        generation.closed().choice(oaicompat) == generation.choice(oaicompat),
        !generation.streaming || generation.has_json_schema ==> generation.closed() == generation,
{
}

}

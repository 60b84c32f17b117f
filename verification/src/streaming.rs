//! Streaming: accumulating tool calls from the deltas of a generation.
use crate::json::{
    json_text, number_as_u64, parse_json, parsed_json, read_to_its_end, Json, JsonView,
};
use crate::parsing::{
    complete_arguments, is_valid_json_args, reparse_tool_calls_from_output, reparsed_calls,
};
use crate::text::{
    all_white, chars_of, drop_white_space, join, law_trimming_keeps_what_is_between, option_view,
    result_view, same_text, skip_white_space, trim_end, trim_start, views, white_space,
};
use vstd::prelude::*;
use vstd::string::*;

verus! {

/// A tool call while its deltas come in, and as it is emitted in the end.
pub struct StreamToolCall {
    /// The identifier that the model gave the call.
    pub id: String,
    /// The identifier that was made for the call here.
    pub internal_call_id: String,
    /// The name of the tool.
    pub name: String,
    /// The arguments: `null` before the first fragment, the text so far while
    /// it is not an object, and the object once it is one.
    pub arguments: Json,
}

/// The view of a [`StreamToolCall`].
pub struct StreamToolCallView {
    pub id: Seq<char>,
    pub internal_call_id: Seq<char>,
    pub name: Seq<char>,
    pub arguments: JsonView,
}

impl View for StreamToolCall {
    type V = StreamToolCallView;

    open spec fn view(&self) -> StreamToolCallView {
        StreamToolCallView {
            id: self.id@,
            internal_call_id: self.internal_call_id@,
            name: self.name@,
            arguments: self.arguments@,
        }
    }
}

/// What a delta adds to a tool call.
pub enum ToolCallDeltaContent {
    /// The name of the tool.
    Name(String),
    /// A fragment of the arguments.
    Delta(String),
}

/// The view of a [`ToolCallDeltaContent`].
pub enum ToolCallDeltaContentView {
    Name(Seq<char>),
    Delta(Seq<char>),
}

impl View for ToolCallDeltaContent {
    type V = ToolCallDeltaContentView;

    open spec fn view(&self) -> ToolCallDeltaContentView {
        match self {
            ToolCallDeltaContent::Name(name) => ToolCallDeltaContentView::Name(name@),
            ToolCallDeltaContent::Delta(text) => ToolCallDeltaContentView::Delta(text@),
        }
    }
}

/// One event of a stream.
pub enum StreamChoice {
    /// A piece of the answer.
    Message(String),
    /// A piece of the reasoning.
    ReasoningDelta(String),
    /// A piece of a tool call.
    ToolCallDelta { id: String, internal_call_id: String, content: ToolCallDeltaContent },
    /// A whole tool call.
    ToolCall(StreamToolCall),
}

/// The view of a [`StreamChoice`].
pub enum StreamChoiceView {
    Message(Seq<char>),
    ReasoningDelta(Seq<char>),
    ToolCallDelta {
        id: Seq<char>,
        internal_call_id: Seq<char>,
        content: ToolCallDeltaContentView,
    },
    ToolCall(StreamToolCallView),
}

impl View for StreamChoice {
    type V = StreamChoiceView;

    open spec fn view(&self) -> StreamChoiceView {
        match self {
            StreamChoice::Message(text) => StreamChoiceView::Message(text@),
            StreamChoice::ReasoningDelta(text) => StreamChoiceView::ReasoningDelta(text@),
            StreamChoice::ToolCallDelta { id, internal_call_id, content } =>
                StreamChoiceView::ToolCallDelta {
                    id: id@,
                    internal_call_id: internal_call_id@,
                    content: content@,
                },
            StreamChoice::ToolCall(call) => StreamChoiceView::ToolCall(call@),
        }
    }
}

/// The text that the next fragment of arguments is appended to.
pub open spec fn arguments_text(arguments: JsonView) -> Seq<char> {
    match arguments {
        JsonView::Null => Seq::empty(),
        JsonView::Str(text) => text,
        other => json_text(other),
    }
}

/// Whether `text` starts and ends with a brace, white space aside.
pub open spec fn braced(text: Seq<char>) -> bool {
    &&& trim_start(text).len() > 0
    &&& trim_start(text)[0] == '{'
    &&& trim_end(text).len() > 0
    &&& trim_end(text).last() == '}'
}

/// The arguments whose text so far is `text`: what was read from it as JSON,
/// where braces enclose it and it can be read, and else the text itself.
pub open spec fn arguments_read(text: Seq<char>, parsed: Result<JsonView, Seq<char>>) -> JsonView {
    if braced(text) && parsed is Ok {
        parsed->Ok_0
    } else {
        JsonView::Str(text)
    }
}

/// The arguments whose text so far is `text`.
pub open spec fn arguments_of(text: Seq<char>) -> JsonView {
    arguments_read(text, parsed_json(text))
}

/// The arguments after one more fragment.
pub open spec fn next_arguments(arguments: JsonView, fragment: Seq<char>) -> JsonView {
    arguments_of(arguments_text(arguments) + fragment)
}

/// The arguments after a list of fragments.
pub open spec fn arguments_after(arguments: JsonView, fragments: Seq<Seq<char>>) -> JsonView
    decreases fragments.len(),
{
    if fragments.len() == 0 {
        arguments
    } else {
        next_arguments(arguments_after(arguments, fragments.drop_last()), fragments.last())
    }
}

/// Whether further fragments are appended to `text` itself: what is read from
/// it, where anything is, prints as it was written.
pub open spec fn keeps_text(text: Seq<char>) -> bool {
    arguments_text(arguments_of(text)) == text
}

/// The fragments of a call are worth their concatenation, unless the text
/// that was there in between was read as JSON and prints otherwise.
pub proof fn law_fragments_concatenate(fragments: Seq<Seq<char>>)
    requires
        fragments.len() > 0,
        forall|n: int|
            0 < n < fragments.len() ==> keeps_text(
                join(#[trigger] fragments.take(n), Seq::empty()),
            ),
    ensures
        arguments_after(JsonView::Null, fragments) == arguments_of(
            join(fragments, Seq::empty()),
        ),
    decreases fragments.len(),
{
    let before = fragments.drop_last();
    if before.len() == 0 {
        assert(fragments =~= seq![fragments[0]]);
        assert(arguments_after(JsonView::Null, before) == JsonView::Null);
        assert(Seq::<char>::empty() + fragments.last() =~= fragments.last());
    } else {
        assert forall|n: int| 0 < n < before.len() implies keeps_text(
            join(#[trigger] before.take(n), Seq::empty()),
        ) by {
            assert(before.take(n) =~= fragments.take(n));
        }
        law_fragments_concatenate(before);
        assert(fragments.take(fragments.len() - 1) =~= before);
        assert(join(before, Seq::empty()) + Seq::<char>::empty() =~= join(before, Seq::empty()));
    }
}

/// Decides [`braced`].
fn is_braced(text: &str) -> (enclosed: bool)
    ensures
        enclosed == braced(text@),
{
    let chars = chars_of(text);
    let start: usize = skip_white_space(&chars, 0, chars.len());
    let end: usize = drop_white_space(&chars, 0, chars.len());
    proof {
        assert(chars@.subrange(0, chars@.len() as int) =~= text@);
        assert(trim_start(text@) == chars@.subrange(start as int, chars@.len() as int));
        assert(trim_end(text@) == chars@.subrange(0, end as int));
    }
    start < chars.len() && chars[start] == '{' && end > 0 && chars[end - 1] == '}'
}

/// Computes [`arguments_read`].
pub fn take_arguments(text: String, parsed: Result<Json, String>) -> (arguments: Json)
    ensures
        arguments@ == arguments_read(text@, result_view(parsed)),
{
    match parsed {
        Ok(value) if is_braced(text.as_str()) => value,
        _ => Json::Str(text),
    }
}

/// Whether `text`, where it is read as JSON, is read to its end, so that no
/// object starts with it.
pub open spec fn settled(text: Seq<char>) -> bool {
    braced(text) && parsed_json(text) is Ok ==> read_to_its_end(text)
}

/// Whether `s` is the text of a JSON object, which ends with its closing brace.
pub open spec fn object_text(s: Seq<char>) -> bool {
    &&& braced(s)
    &&& s.last() == '}'
    &&& parsed_json(s) is Ok
    &&& parsed_json(s)->Ok_0 is Object
}

/// Whether no text that starts with `text` is that of an object.
pub open spec fn starts_no_object(text: Seq<char>) -> bool {
    forall|rest: Seq<char>| !(#[trigger] object_text(text + rest))
}

/// Whether the arguments of a call are what its fragments, `gathered` so far,
/// say, or else no further fragment makes these the text of an object.
pub open spec fn true_to(arguments: JsonView, gathered: Seq<char>) -> bool {
    ||| gathered.len() == 0 && arguments == JsonView::Null
    ||| arguments == arguments_of(gathered) && settled(gathered)
    ||| starts_no_object(gathered)
}

/// Where the text of an object was gathered, the arguments are that object.
proof fn lemma_true_to_object(arguments: JsonView, gathered: Seq<char>)
    requires
        true_to(arguments, gathered),
        object_text(gathered),
    ensures
        parsed_json(gathered) == Ok::<JsonView, Seq<char>>(arguments),
{
    let none = Seq::<char>::empty();
    assert(gathered + none =~= gathered);
    assert(object_text(gathered + none));
    if gathered.len() == 0 {
        assert(trim_start(gathered) == gathered);
    }
}

/// One more fragment keeps the arguments true to what was gathered.
proof fn lemma_fragment_keeps_true(arguments: JsonView, gathered: Seq<char>, fragment: Seq<char>)
    requires
        true_to(arguments, gathered),
        fragment.len() > 0,
        settled(arguments_text(arguments) + fragment),
    ensures
        true_to(next_arguments(arguments, fragment), gathered + fragment),
{
    let longer = gathered + fragment;
    if gathered.len() == 0 && arguments == JsonView::Null {
        assert(Seq::<char>::empty() + fragment =~= longer);
    } else if starts_no_object(gathered) {
        assert forall|rest: Seq<char>| !(#[trigger] object_text(longer + rest)) by {
            assert(longer + rest =~= gathered + (fragment + rest));
            assert(!object_text(gathered + (fragment + rest)));
        }
    } else if braced(gathered) && parsed_json(gathered) is Ok {
        assert forall|rest: Seq<char>| !(#[trigger] object_text(longer + rest)) by {
            let more = fragment + rest;
            assert(longer + rest =~= gathered + more);
            if object_text(longer + rest) {
                assert(parsed_json(gathered + more) is Ok);
                assert(more[more.len() - 1] == (longer + rest).last());
            }
        }
    }
}

/// Computes [`next_arguments`]. The text so far is settled by it.
fn append_arguments(arguments: &Json, fragment: &str) -> (next: Json)
    ensures
        next@ == next_arguments(arguments@, fragment@),
        settled(arguments_text(arguments@) + fragment@),
{
    let mut text = match arguments {
        Json::Null => String::new(),
        Json::Str(text) => text.clone(),
        other => other.print(),
    };
    assert(text@ =~= arguments_text(arguments@));
    text.append(fragment);
    if !is_braced(text.as_str()) {
        return Json::Str(text);
    }
    let parsed = parse_json(text.as_str());
    take_arguments(text, parsed)
}

/// A call after the delta `delta`, and what is emitted for it: a name sets the
/// name, a fragment extends the arguments, and an identifier, where the delta
/// has one, is set before either is emitted.
pub open spec fn updated_call(call: StreamToolCallView, delta: JsonView) -> (
    StreamToolCallView,
    Seq<StreamChoiceView>,
) {
    let call = match delta.get_str("id"@) {
        Some(id) if id.len() > 0 => StreamToolCallView { id, ..call },
        _ => call,
    };
    match delta.get_object("function"@) {
        Some(function) => {
            let (call, named) = match function.get_str("name"@) {
                Some(name) if name.len() > 0 => (
                    StreamToolCallView { name, ..call },
                    seq![delta_choice(call, ToolCallDeltaContentView::Name(name))],
                ),
                _ => (call, Seq::empty()),
            };
            match function.get_str("arguments"@) {
                Some(text) if text.len() > 0 => (
                    StreamToolCallView {
                        arguments: next_arguments(call.arguments, text),
                        ..call
                    },
                    named.push(delta_choice(call, ToolCallDeltaContentView::Delta(text))),
                ),
                _ => (call, named),
            }
        },
        None => (call, Seq::empty()),
    }
}

/// The event for what a delta adds to `call`.
pub open spec fn delta_choice(
    call: StreamToolCallView,
    content: ToolCallDeltaContentView,
) -> StreamChoiceView {
    StreamChoiceView::ToolCallDelta {
        id: call.id,
        internal_call_id: call.internal_call_id,
        content,
    }
}

/// The fragment of arguments that a delta carries, where it does.
pub open spec fn fragment_of(delta: JsonView) -> Option<Seq<char>> {
    match delta.get_object("function"@) {
        Some(function) => match function.get_str("arguments"@) {
            Some(text) if text.len() > 0 => Some(text),
            _ => None,
        },
        None => None,
    }
}

/// The fragment of arguments that a delta carries; nothing where it carries none.
pub open spec fn fragment_text(delta: JsonView) -> Seq<char> {
    match fragment_of(delta) {
        Some(text) => text,
        None => Seq::empty(),
    }
}

/// Whether the text that a delta makes of the arguments is settled.
pub open spec fn settled_by(arguments: JsonView, delta: JsonView) -> bool {
    fragment_of(delta) matches Some(text) ==> settled(arguments_text(arguments) + text)
}

/// The fragments of arguments that deltas carry, in order.
pub open spec fn fragments_of(deltas: Seq<JsonView>) -> Seq<Seq<char>>
    decreases deltas.len(),
{
    if deltas.len() == 0 {
        Seq::empty()
    } else {
        match fragment_of(deltas.last()) {
            Some(text) => fragments_of(deltas.drop_last()).push(text),
            None => fragments_of(deltas.drop_last()),
        }
    }
}

/// The fragments of arguments that events show, in order.
pub open spec fn shown_fragments(choices: Seq<StreamChoiceView>) -> Seq<Seq<char>>
    decreases choices.len(),
{
    if choices.len() == 0 {
        Seq::empty()
    } else {
        let before = shown_fragments(choices.drop_last());
        match choices.last() {
            StreamChoiceView::ToolCallDelta { content: ToolCallDeltaContentView::Delta(text), .. } => {
                before.push(text)
            },
            _ => before,
        }
    }
}

/// A call after a list of deltas, and what is emitted for them.
pub open spec fn call_after(call: StreamToolCallView, deltas: Seq<JsonView>) -> (
    StreamToolCallView,
    Seq<StreamChoiceView>,
)
    decreases deltas.len(),
{
    if deltas.len() == 0 {
        (call, Seq::empty())
    } else {
        let (before, emitted) = call_after(call, deltas.drop_last());
        let (after, choices) = updated_call(before, deltas.last());
        (after, emitted + choices)
    }
}

/// The fragments that two lists of events show are shown by both together.
proof fn lemma_shown_fragments_add(left: Seq<StreamChoiceView>, right: Seq<StreamChoiceView>)
    ensures
        shown_fragments(left + right) == shown_fragments(left) + shown_fragments(right),
    decreases right.len(),
{
    if right.len() == 0 {
        assert(left + right =~= left);
        assert(shown_fragments(left) + shown_fragments(right) =~= shown_fragments(left));
    } else {
        assert((left + right).drop_last() =~= left + right.drop_last());
        lemma_shown_fragments_add(left, right.drop_last());
        assert(shown_fragments(left + right) =~= shown_fragments(left) + shown_fragments(right));
    }
}

/// A call gathers the fragments of its deltas, and the events for it show
/// exactly these, so that who listens gathers the same.
pub proof fn law_a_call_gathers_what_is_shown(call: StreamToolCallView, deltas: Seq<JsonView>)
    ensures
        call_after(call, deltas).0.arguments == arguments_after(
            call.arguments,
            fragments_of(deltas),
        ),
        shown_fragments(call_after(call, deltas).1) == fragments_of(deltas),
    decreases deltas.len(),
{
    if deltas.len() > 0 {
        let delta = deltas.last();
        let (before, emitted) = call_after(call, deltas.drop_last());
        let choices = updated_call(before, delta).1;
        law_a_call_gathers_what_is_shown(call, deltas.drop_last());
        lemma_shown_fragments_add(emitted, choices);
        reveal_with_fuel(shown_fragments, 3);
        let earlier = fragments_of(deltas.drop_last());
        match fragment_of(delta) {
            Some(text) => {
                assert(shown_fragments(choices) =~= seq![text]);
                assert(earlier + seq![text] =~= earlier.push(text));
                assert(earlier.push(text).drop_last() =~= earlier);
            },
            None => {
                assert(shown_fragments(choices) =~= Seq::empty());
                assert(earlier + Seq::<Seq<char>>::empty() =~= earlier);
            },
        }
    }
}

/// A call keeps the identifier that was made for it, and a fragment that comes
/// without a name is shown by one event, under that identifier.
pub proof fn law_a_fragment_is_shown_alone(call: StreamToolCallView, delta: JsonView)
    ensures
        updated_call(call, delta).0.internal_call_id == call.internal_call_id,
        fragment_of(delta) matches Some(text) && !(delta.get_object("function"@)->0.get_str(
            "name"@,
        ) matches Some(name) && name.len() > 0) ==> updated_call(call, delta).1 == seq![
            delta_choice(
                updated_call(call, delta).0,
                ToolCallDeltaContentView::Delta(fragment_of(delta)->0),
            ),
        ],
{
}

/// Computes [`updated_call`]. The text of the arguments so far is settled by it.
fn update_call(call: StreamToolCall, delta: &Json) -> (updated: (StreamToolCall, Vec<StreamChoice>))
    ensures
        (updated.0@, views(updated.1@)) == updated_call(call@, delta@),
        settled_by(call@.arguments, delta@),
{
    broadcast use crate::text::lemma_views_push;

    let mut choices: Vec<StreamChoice> = Vec::new();
    assert(views(choices@) =~= Seq::empty());
    let mut call = call;
    if let Some(id) = delta.get_str("id") {
        if !id.as_str().is_empty() {
            call.id = id.clone();
        }
    }
    if let Some(function) = delta.get_object("function") {
        if let Some(name) = function.get_str("name") {
            if !name.as_str().is_empty() {
                call.name = name.clone();
                choices.push(
                    StreamChoice::ToolCallDelta {
                        id: call.id.clone(),
                        internal_call_id: call.internal_call_id.clone(),
                        content: ToolCallDeltaContent::Name(name.clone()),
                    },
                );
                assert(views(choices@) =~= seq![
                    delta_choice(call@, ToolCallDeltaContentView::Name(name@)),
                ]);
            }
        }
        if let Some(arguments) = function.get_str("arguments") {
            if !arguments.as_str().is_empty() {
                let next = append_arguments(&call.arguments, arguments.as_str());
                call.arguments = next;
                choices.push(
                    StreamChoice::ToolCallDelta {
                        id: call.id.clone(),
                        internal_call_id: call.internal_call_id.clone(),
                        content: ToolCallDeltaContent::Delta(arguments.clone()),
                    },
                );
            }
        }
    }
    (call, choices)
}

/// The place of the call with the index `index`.
pub open spec fn place_of(calls: Seq<(u64, StreamToolCallView)>, index: u64) -> Option<int>
    decreases calls.len(),
{
    if calls.len() == 0 {
        None
    } else if calls.last().0 == index {
        Some(calls.len() - 1)
    } else {
        place_of(calls.drop_last(), index)
    }
}

/// The index that a delta speaks of; 0 where it names none.
pub open spec fn delta_index(delta: JsonView) -> u64 {
    match delta.get("index"@) {
        Some(index) => match index.as_u64() {
            Some(index) => index,
            None => 0,
        },
        None => 0,
    }
}

/// A call of which nothing is known yet but the identifier made for it.
pub open spec fn new_call(internal_call_id: Seq<char>) -> StreamToolCallView {
    StreamToolCallView {
        id: Seq::empty(),
        internal_call_id,
        name: Seq::empty(),
        arguments: JsonView::Null,
    }
}

/// The calls after a delta for the call with the index `index`, and what is
/// emitted for it. Where there is no such call yet the delta starts one, which
/// is identified by `fresh_id`.
pub open spec fn after_delta_at(
    calls: Seq<(u64, StreamToolCallView)>,
    index: u64,
    delta: JsonView,
    fresh_id: Seq<char>,
) -> (Seq<(u64, StreamToolCallView)>, Seq<StreamChoiceView>) {
    match place_of(calls, index) {
        Some(place) => {
            let (call, choices) = updated_call(calls[place].1, delta);
            (calls.update(place, (index, call)), choices)
        },
        None => {
            let (call, choices) = updated_call(new_call(fresh_id), delta);
            (calls.push((index, call)), choices)
        },
    }
}

/// The calls after one delta, for the call whose index it names, and what is
/// emitted for it.
pub open spec fn after_call_delta(
    calls: Seq<(u64, StreamToolCallView)>,
    delta: JsonView,
    fresh_id: Seq<char>,
) -> (Seq<(u64, StreamToolCallView)>, Seq<StreamChoiceView>) {
    after_delta_at(calls, delta_index(delta), delta, fresh_id)
}

/// The calls after a list of deltas, and what is emitted for them.
pub open spec fn after_call_deltas(
    calls: Seq<(u64, StreamToolCallView)>,
    deltas: Seq<JsonView>,
    fresh_ids: Seq<Seq<char>>,
) -> (Seq<(u64, StreamToolCallView)>, Seq<StreamChoiceView>)
    decreases deltas.len(),
{
    if deltas.len() == 0 {
        (calls, Seq::empty())
    } else {
        let (before, emitted) = after_call_deltas(
            calls,
            deltas.drop_last(),
            fresh_ids.drop_last(),
        );
        let (after, choices) = after_call_delta(before, deltas.last(), fresh_ids.last());
        (after, emitted + choices)
    }
}

/// Whether no two calls have the same index.
pub open spec fn distinct_indices(calls: Seq<(u64, StreamToolCallView)>) -> bool {
    forall|i: int, j: int|
        0 <= i < j < calls.len() ==> (#[trigger] calls[i]).0 != (#[trigger] calls[j]).0
}

/// [`place_of`] finds a call with the index, and finds one wherever there is one.
pub proof fn lemma_place_of(calls: Seq<(u64, StreamToolCallView)>, index: u64)
    ensures
        match place_of(calls, index) {
            Some(place) => 0 <= place < calls.len() && calls[place].0 == index,
            None => forall|i: int| 0 <= i < calls.len() ==> (#[trigger] calls[i]).0 != index,
        },
    decreases calls.len(),
{
    if calls.len() > 0 && calls.last().0 != index {
        let before = calls.drop_last();
        lemma_place_of(before, index);
        if place_of(before, index) is None {
            assert forall|i: int| 0 <= i < calls.len() implies (#[trigger] calls[i]).0 != index by {
                if i < before.len() {
                    assert(before[i] == calls[i]);
                }
            }
        }
    }
}

/// A delta keeps the indices distinct.
pub proof fn law_indices_stay_distinct(
    calls: Seq<(u64, StreamToolCallView)>,
    index: u64,
    delta: JsonView,
    fresh_id: Seq<char>,
)
    requires
        distinct_indices(calls),
    ensures
        distinct_indices(after_delta_at(calls, index, delta, fresh_id).0),
{
    lemma_place_of(calls, index);
}

/// A list of deltas keeps the indices distinct.
pub proof fn law_indices_stay_distinct_over_deltas(
    calls: Seq<(u64, StreamToolCallView)>,
    deltas: Seq<JsonView>,
    fresh_ids: Seq<Seq<char>>,
)
    requires
        distinct_indices(calls),
    ensures
        distinct_indices(after_call_deltas(calls, deltas, fresh_ids).0),
    decreases deltas.len(),
{
    if deltas.len() > 0 {
        law_indices_stay_distinct_over_deltas(calls, deltas.drop_last(), fresh_ids.drop_last());
        law_indices_stay_distinct(
            after_call_deltas(calls, deltas.drop_last(), fresh_ids.drop_last()).0,
            delta_index(deltas.last()),
            deltas.last(),
            fresh_ids.last(),
        );
    }
}

/// The fragments that were gathered for the index `index`, one after the other.
pub open spec fn text_at(gathered: Map<u64, Seq<char>>, index: u64) -> Seq<char> {
    if gathered.contains_key(index) {
        gathered[index]
    } else {
        Seq::empty()
    }
}

/// What was gathered after a delta for the call with the index `index`.
pub open spec fn gathered_at(
    gathered: Map<u64, Seq<char>>,
    index: u64,
    delta: JsonView,
) -> Map<u64, Seq<char>> {
    gathered.insert(index, text_at(gathered, index) + fragment_text(delta))
}

/// What was gathered after a list of deltas.
pub open spec fn gathered_after_deltas(
    gathered: Map<u64, Seq<char>>,
    deltas: Seq<JsonView>,
) -> Map<u64, Seq<char>>
    decreases deltas.len(),
{
    if deltas.len() == 0 {
        gathered
    } else {
        gathered_at(
            gathered_after_deltas(gathered, deltas.drop_last()),
            delta_index(deltas.last()),
            deltas.last(),
        )
    }
}

/// Whether each index stands for one call, whose arguments are true to what was
/// gathered for it, and nothing was gathered for any other.
pub open spec fn consistent(
    calls: Seq<(u64, StreamToolCallView)>,
    gathered: Map<u64, Seq<char>>,
) -> bool {
    &&& distinct_indices(calls)
    &&& forall|i: int|
        0 <= i < calls.len() ==> true_to(
            (#[trigger] calls[i]).1.arguments,
            text_at(gathered, calls[i].0),
        )
    &&& forall|index: u64| #[trigger]
        gathered.contains_key(index) ==> place_of(calls, index) is Some
}

/// A delta keeps the calls consistent with what was gathered.
proof fn lemma_delta_keeps_consistent(
    calls: Seq<(u64, StreamToolCallView)>,
    gathered: Map<u64, Seq<char>>,
    index: u64,
    delta: JsonView,
    fresh_id: Seq<char>,
)
    requires
        consistent(calls, gathered),
        settled_by(
            match place_of(calls, index) {
                Some(place) => calls[place].1.arguments,
                None => JsonView::Null,
            },
            delta,
        ),
    ensures
        consistent(
            after_delta_at(calls, index, delta, fresh_id).0,
            gathered_at(gathered, index, delta),
        ),
{
    let after = after_delta_at(calls, index, delta, fresh_id).0;
    let longer = gathered_at(gathered, index, delta);
    law_indices_stay_distinct(calls, index, delta, fresh_id);
    lemma_place_of(calls, index);
    let before = match place_of(calls, index) {
        Some(place) => calls[place].1,
        None => new_call(fresh_id),
    };
    let text = text_at(gathered, index);
    assert(true_to(before.arguments, text)) by {
        if place_of(calls, index) is None {
            assert(!gathered.contains_key(index));
        }
    }
    match fragment_of(delta) {
        Some(fragment) => {
            lemma_fragment_keeps_true(before.arguments, text, fragment);
        },
        None => {
            assert(text + Seq::<char>::empty() =~= text);
        },
    }
    assert(true_to(updated_call(before, delta).0.arguments, text_at(longer, index)));
    assert forall|i: int| 0 <= i < after.len() implies true_to(
        (#[trigger] after[i]).1.arguments,
        text_at(longer, after[i].0),
    ) by {
        if after[i].0 != index {
            assert(after[i] == calls[i]);
        } else if place_of(calls, index) is Some {
            assert(after[place_of(calls, index)->0].0 == index);
        }
    }
    assert forall|other: u64| #[trigger] longer.contains_key(other) implies place_of(after, other)
        is Some by {
        lemma_place_of(after, other);
        lemma_place_of(calls, other);
        if other == index {
            match place_of(calls, index) {
                Some(place) => {
                    assert(after[place].0 == index);
                },
                None => {
                    assert(after[calls.len() as int].0 == index);
                },
            }
        } else {
            assert(gathered.contains_key(other));
            let place = place_of(calls, other)->0;
            assert(after[place] == calls[place]);
        }
    }
}

/// Deltas for one call gather their fragments, one after the other.
pub proof fn law_fragments_are_gathered(
    gathered: Map<u64, Seq<char>>,
    deltas: Seq<JsonView>,
    index: u64,
)
    requires
        forall|i: int| 0 <= i < deltas.len() ==> delta_index(#[trigger] deltas[i]) == index,
    ensures
        text_at(gathered_after_deltas(gathered, deltas), index) == text_at(gathered, index) + join(
            fragments_of(deltas),
            Seq::empty(),
        ),
    decreases deltas.len(),
{
    let start = text_at(gathered, index);
    if deltas.len() == 0 {
        assert(start + Seq::<char>::empty() =~= start);
    } else {
        let before = deltas.drop_last();
        let delta = deltas.last();
        let earlier = fragments_of(before);
        assert forall|i: int| 0 <= i < before.len() implies delta_index(#[trigger] before[i])
            == index by {
            assert(before[i] == deltas[i]);
        }
        assert(deltas[deltas.len() - 1] == delta);
        law_fragments_are_gathered(gathered, before, index);
        match fragment_of(delta) {
            Some(text) => {
                assert(earlier.push(text).drop_last() =~= earlier);
                assert(join(earlier.push(text), Seq::empty()) =~= join(earlier, Seq::empty())
                    + text);
                assert(start + join(earlier, Seq::empty()) + text =~= start + (join(
                    earlier,
                    Seq::empty(),
                ) + text));
            },
            None => {
                assert(start + join(earlier, Seq::empty()) + Seq::<char>::empty() =~= start + join(
                    earlier,
                    Seq::empty(),
                ));
            },
        }
    }
}

/// Deltas gather the same whether they come in one list or in two.
pub proof fn law_lists_of_deltas_gather_alike(
    gathered: Map<u64, Seq<char>>,
    first: Seq<JsonView>,
    second: Seq<JsonView>,
)
    ensures
        gathered_after_deltas(gathered, first + second) == gathered_after_deltas(
            gathered_after_deltas(gathered, first),
            second,
        ),
    decreases second.len(),
{
    if second.len() == 0 {
        assert(first + second =~= first);
    } else {
        assert((first + second).drop_last() =~= first + second.drop_last());
        law_lists_of_deltas_gather_alike(gathered, first, second.drop_last());
    }
}

/// The text of an object, in whatever fragments it came, leaves that object as
/// the arguments of its call. `calls` are those of a state that has taken in
/// the deltas, which is consistent with what they gathered.
pub proof fn law_an_object_is_gathered_however_it_is_cut(
    calls: Seq<(u64, StreamToolCallView)>,
    deltas: Seq<JsonView>,
    index: u64,
)
    requires
        consistent(calls, gathered_after_deltas(Map::empty(), deltas)),
        forall|i: int| 0 <= i < deltas.len() ==> delta_index(#[trigger] deltas[i]) == index,
        object_text(join(fragments_of(deltas), Seq::empty())),
    ensures
        call_at(calls, index) is Some,
        parsed_json(join(fragments_of(deltas), Seq::empty())) == Ok::<JsonView, Seq<char>>(
            call_at(calls, index)->0.arguments,
        ),
{
    let gathered = gathered_after_deltas(Map::empty(), deltas);
    let text = join(fragments_of(deltas), Seq::empty());
    law_fragments_are_gathered(Map::empty(), deltas, index);
    assert(Seq::<char>::empty() + text =~= text);
    if !gathered.contains_key(index) {
        assert(text.len() == 0);
        assert(trim_start(text) == text);
    }
    lemma_place_of(calls, index);
    let place = place_of(calls, index)->0;
    assert(true_to(calls[place].1.arguments, text_at(gathered, calls[place].0)));
    lemma_true_to_object(calls[place].1.arguments, text);
}

/// The call with the index `index`.
pub open spec fn call_at(calls: Seq<(u64, StreamToolCallView)>, index: u64) -> Option<
    StreamToolCallView,
> {
    match place_of(calls, index) {
        Some(place) => Some(calls[place].1),
        None => None,
    }
}

/// A delta updates the call of its index, which it starts where there is none
/// yet, and leaves every other call as it was.
pub proof fn law_a_delta_changes_one_call(
    calls: Seq<(u64, StreamToolCallView)>,
    index: u64,
    delta: JsonView,
    fresh_id: Seq<char>,
    other: u64,
)
    requires
        distinct_indices(calls),
    ensures
        call_at(after_delta_at(calls, index, delta, fresh_id).0, index) == Some(
            updated_call(
                match call_at(calls, index) {
                    Some(call) => call,
                    None => new_call(fresh_id),
                },
                delta,
            ).0,
        ),
        other != index ==> call_at(after_delta_at(calls, index, delta, fresh_id).0, other)
            == call_at(calls, other),
{
    let after = after_delta_at(calls, index, delta, fresh_id).0;
    law_indices_stay_distinct(calls, index, delta, fresh_id);
    lemma_place_of(calls, index);
    lemma_place_of(after, index);
    lemma_place_of(calls, other);
    lemma_place_of(after, other);
    match place_of(calls, index) {
        Some(place) => {
            assert(after[place].0 == index);
            assert(place_of(after, index) == Some(place));
        },
        None => {
            assert(after[calls.len() as int].0 == index);
            assert(place_of(after, index) == Some(calls.len() as int));
        },
    }
    if other != index {
        match place_of(calls, other) {
            Some(place) => {
                assert(after[place] == calls[place]);
                assert(place_of(after, other) == Some(place));
            },
            None => {
                if place_of(after, other) is Some {
                    let place = place_of(after, other)->0;
                    assert(after[place].0 == other);
                    if place < calls.len() {
                        assert(calls[place].0 == other);
                    }
                }
            },
        }
    }
}

/// What the answer and the reasoning of a delta emit.
pub open spec fn text_choices(delta: JsonView) -> Seq<StreamChoiceView> {
    let content = match delta.get_str("content"@) {
        Some(text) if text.len() > 0 => seq![StreamChoiceView::Message(text)],
        _ => Seq::empty(),
    };
    match delta.get_str("reasoning_content"@) {
        Some(text) if text.len() > 0 => content.push(StreamChoiceView::ReasoningDelta(text)),
        _ => content,
    }
}

/// The tool-call deltas of a delta.
pub open spec fn call_deltas(delta: JsonView) -> Seq<JsonView> {
    match delta.get_array("tool_calls"@) {
        Some(deltas) => deltas,
        None => Seq::empty(),
    }
}

/// The calls after a delta, and what is emitted for it: the answer, then the
/// reasoning, then the tool calls.
pub open spec fn after_delta(
    calls: Seq<(u64, StreamToolCallView)>,
    delta: JsonView,
    fresh_ids: Seq<Seq<char>>,
) -> (Seq<(u64, StreamToolCallView)>, Seq<StreamChoiceView>) {
    let (after, choices) = after_call_deltas(calls, call_deltas(delta), fresh_ids);
    (after, text_choices(delta) + choices)
}

/// What the JSON text of a delta says; `null` where it cannot be read.
pub open spec fn delta_of(delta_json: Seq<char>) -> JsonView {
    match parsed_json(delta_json) {
        Ok(delta) => delta,
        Err(_) => JsonView::Null,
    }
}

/// The arguments of the first of `calls` with the name `name`.
pub open spec fn first_named(calls: Seq<(Seq<char>, JsonView)>, name: Seq<char>) -> Option<JsonView>
    decreases calls.len(),
{
    if calls.len() == 0 {
        None
    } else if calls[0].0 == name {
        Some(calls[0].1)
    } else {
        first_named(calls.drop_first(), name)
    }
}

/// `call` as it is emitted: where its arguments are not complete they are
/// replaced by those of the first call of the same name among `reparsed`, if
/// there is one.
pub open spec fn repaired_call(
    call: StreamToolCallView,
    reparsed: Option<Seq<(Seq<char>, JsonView)>>,
) -> StreamToolCallView {
    if complete_arguments(call.arguments) || reparsed is None {
        call
    } else {
        match first_named(reparsed->0, call.name) {
            Some(arguments) => StreamToolCallView { arguments, ..call },
            None => call,
        }
    }
}

/// What the end of a stream emits: every call that has a name, repaired.
pub open spec fn flushed_calls(
    calls: Seq<(u64, StreamToolCallView)>,
    reparsed: Option<Seq<(Seq<char>, JsonView)>>,
) -> Seq<StreamChoiceView>
    decreases calls.len(),
{
    if calls.len() == 0 {
        Seq::empty()
    } else {
        let before = flushed_calls(calls.drop_last(), reparsed);
        let call = calls.last().1;
        if call.name.len() == 0 {
            before
        } else {
            before.push(StreamChoiceView::ToolCall(repaired_call(call, reparsed)))
        }
    }
}

/// Whether some call has a name and arguments that are not complete.
pub open spec fn has_broken_call(calls: Seq<(u64, StreamToolCallView)>) -> bool {
    exists|i: int|
        0 <= i < calls.len() && #[trigger] calls[i].1.name.len() > 0 && !complete_arguments(
            calls[i].1.arguments,
        )
}

/// Where no call is broken, the finished output has no say in what is emitted.
pub proof fn law_unbroken_calls_are_emitted_unchanged(
    calls: Seq<(u64, StreamToolCallView)>,
    reparsed: Option<Seq<(Seq<char>, JsonView)>>,
)
    requires
        !has_broken_call(calls),
    ensures
        flushed_calls(calls, reparsed) == flushed_calls(calls, None),
    decreases calls.len(),
{
    if calls.len() > 0 {
        let before = calls.drop_last();
        assert forall|i: int|
            0 <= i < before.len() && #[trigger] before[i].1.name.len()
                > 0 implies complete_arguments(before[i].1.arguments) by {
            assert(calls[i] == before[i]);
        }
        law_unbroken_calls_are_emitted_unchanged(before, reparsed);
        assert(calls[calls.len() - 1] == calls.last());
    }
}

/// Every call that the end of a stream emits has a name. The arguments of all
/// of them are complete where the finished output repairs every broken call:
/// each has a namesake among the calls read from it, whose arguments are complete.
pub proof fn law_emitted_calls_are_named_and_complete(
    calls: Seq<(u64, StreamToolCallView)>,
    reparsed: Option<Seq<(Seq<char>, JsonView)>>,
)
    ensures
        forall|i: int|
            0 <= i < flushed_calls(calls, reparsed).len() ==> (#[trigger] flushed_calls(
                calls,
                reparsed,
            )[i]) is ToolCall && flushed_calls(calls, reparsed)[i]->ToolCall_0.name.len() > 0,
        reparsed is Some && (forall|j: int|
            0 <= j < reparsed->0.len() ==> complete_arguments((#[trigger] reparsed->0[j]).1)) && (
        forall|k: int|
            0 <= k < calls.len() && #[trigger] calls[k].1.name.len() > 0 && !complete_arguments(
                calls[k].1.arguments,
            ) ==> first_named(reparsed->0, calls[k].1.name) is Some) ==> forall|i: int|
            0 <= i < flushed_calls(calls, reparsed).len() ==> complete_arguments(
                (#[trigger] flushed_calls(calls, reparsed)[i])->ToolCall_0.arguments,
            ),
    decreases calls.len(),
{
    if calls.len() > 0 {
        let before = calls.drop_last();
        let call = calls.last().1;
        law_emitted_calls_are_named_and_complete(before, reparsed);
        if reparsed is Some {
            lemma_first_named_is_one_of(reparsed->0, call.name);
            assert forall|k: int|
                0 <= k < before.len() && #[trigger] before[k].1.name.len() > 0 implies calls[k]
                == before[k] by {}
            assert(calls[calls.len() - 1] == calls.last());
        }
    }
}

/// What [`first_named`] finds belongs to one of the calls.
proof fn lemma_first_named_is_one_of(calls: Seq<(Seq<char>, JsonView)>, name: Seq<char>)
    ensures
        first_named(calls, name) is Some ==> exists|j: int|
            0 <= j < calls.len() && (#[trigger] calls[j]).1 == first_named(calls, name)->0,
    decreases calls.len(),
{
    if calls.len() > 0 && calls[0].0 != name {
        let rest = calls.drop_first();
        lemma_first_named_is_one_of(rest, name);
        if first_named(rest, name) is Some {
            let j = choose|j: int|
                0 <= j < rest.len() && (#[trigger] rest[j]).1 == first_named(rest, name)->0;
            assert(calls[j + 1] == rest[j]);
        }
    }
}

/// Finds the first of `calls` with the name `name` and copies its arguments.
fn find_named(calls: &Vec<(String, Json)>, name: &str) -> (arguments: Option<Json>)
    ensures
        option_view(arguments) == first_named(views(calls@), name@),
{
    let ghost named = views(calls@);
    let mut i: usize = 0;
    assert(named.skip(0) =~= named);
    while i < calls.len()
        invariant
            i <= calls@.len(),
            named == views(calls@),
            first_named(named.skip(i as int), name@) == first_named(named, name@),
        decreases calls@.len() - i,
    {
        assert(named.skip(i as int)[0] == calls@[i as int]@);
        assert(named.skip(i as int).drop_first() =~= named.skip(i + 1));
        if same_text(calls[i].0.as_str(), name) {
            return Some(calls[i].1.clone());
        }
        i = i + 1;
    }
    None
}

/// A fresh identifier for a call: `RawStreamingToolCall::empty` of `rig_core`
/// draws it at random, so nothing is claimed of it.
#[verifier::external_body]
fn fresh_call_id() -> String {
    rig_core::streaming::RawStreamingToolCall::empty().internal_call_id
}

/// The tool calls that a stream has begun, each under the index that its
/// deltas carry, in the order in which they began.
pub struct StreamDeltaState {
    calls: Vec<(u64, StreamToolCall)>,
    gathered: Ghost<Map<u64, Seq<char>>>,
}

impl View for StreamDeltaState {
    type V = Seq<(u64, StreamToolCallView)>;

    closed spec fn view(&self) -> Seq<(u64, StreamToolCallView)> {
        views(self.calls@)
    }
}

impl StreamDeltaState {
    /// The fragments of arguments that were gathered under each index.
    pub closed spec fn gathered(&self) -> Map<u64, Seq<char>> {
        self.gathered@
    }

    /// Each index stands for one call, which is true to its fragments.
    pub open spec fn wf(&self) -> bool {
        consistent(self@, self.gathered())
    }

    /// No calls.
    pub fn new() -> (state: Self)
        ensures
            state.wf(),
            state@ == Seq::<(u64, StreamToolCallView)>::empty(),
            state.gathered() == Map::<u64, Seq<char>>::empty(),
    {
        let state = StreamDeltaState { calls: Vec::new(), gathered: Ghost(Map::empty()) };
        assert(state@ =~= Seq::empty());
        state
    }

    /// Computes [`place_of`].
    fn place(&self, index: u64) -> (place: Option<usize>)
        ensures
            match place {
                Some(place) => {
                    &&& place_of(self@, index) == Some(place as int)
                    &&& place < self.calls.len()
                    &&& self@[place as int].0 == index
                },
                None => place_of(self@, index) is None,
            },
    {
        let mut n: usize = self.calls.len();
        assert(self@.take(n as int) =~= self@);
        while n > 0
            invariant
                n <= self.calls@.len(),
                place_of(self@.take(n as int), index) == place_of(self@, index),
            decreases n,
        {
            assert(self@.take(n as int).drop_last() =~= self@.take(n - 1));
            assert(self@[n - 1] == self.calls@[n - 1]@);
            if self.calls[n - 1].0 == index {
                return Some(n - 1);
            }
            n = n - 1;
        }
        None
    }

    /// Takes in one delta for the call with the index `index`. `fresh_id`
    /// identifies the call where the delta starts one.
    pub fn apply_delta_at(&mut self, index: u64, delta: &Json, fresh_id: String) -> (choices: Vec<
        StreamChoice,
    >)
        requires
            old(self).wf(),
        ensures
            final(self).wf(),
            (final(self)@, views(choices@)) == after_delta_at(
                old(self)@,
                index,
                delta@,
                fresh_id@,
            ),
            final(self).gathered() == gathered_at(old(self).gathered(), index, delta@),
    {
        broadcast use crate::text::lemma_views_push;

        let ghost longer = gathered_at(self.gathered@, index, delta@);
        let choices = match self.place(index) {
            Some(place) => {
                let (_, call) = self.calls.remove(place);
                assert(old(self)@[place as int] == (index, call@));
                let (call, choices) = update_call(call, delta);
                self.calls.insert(place, (index, call));
                assert(self@ =~= old(self)@.update(place as int, (index, call@)));
                assert(settled_by(old(self)@[place as int].1.arguments, delta@));
                choices
            },
            None => {
                let call = StreamToolCall {
                    id: String::new(),
                    internal_call_id: fresh_id,
                    name: String::new(),
                    arguments: Json::Null,
                };
                let (call, choices) = update_call(call, delta);
                self.calls.push((index, call));
                choices
            },
        };
        proof {
            lemma_delta_keeps_consistent(
                old(self)@,
                old(self).gathered(),
                index,
                delta@,
                fresh_id@,
            );
        }
        self.gathered = Ghost(longer);
        choices
    }

    /// Takes in one tool-call delta, for the call whose index it names.
    /// `fresh_id` identifies the call where the delta starts one.
    pub fn apply_call_delta(&mut self, delta: &Json, fresh_id: String) -> (choices: Vec<
        StreamChoice,
    >)
        requires
            old(self).wf(),
        ensures
            final(self).wf(),
            (final(self)@, views(choices@)) == after_call_delta(old(self)@, delta@, fresh_id@),
            final(self).gathered() == gathered_at(
                old(self).gathered(),
                delta_index(delta@),
                delta@,
            ),
    {
        let index: u64 = match delta.get("index") {
            Some(index) => match index.as_u64() {
                Some(index) => index,
                None => 0,
            },
            None => 0,
        };
        self.apply_delta_at(index, delta, fresh_id)
    }

    /// Takes in one delta and returns what is emitted for it. `fresh_ids` holds
    /// an identifier for each of its tool-call deltas.
    pub fn apply_delta(&mut self, delta: &Json, fresh_ids: Vec<String>) -> (choices: Vec<
        StreamChoice,
    >)
        requires
            old(self).wf(),
            fresh_ids@.len() == call_deltas(delta@).len(),
        ensures
            final(self).wf(),
            (final(self)@, views(choices@)) == after_delta(
                old(self)@,
                delta@,
                views(fresh_ids@),
            ),
            final(self).gathered() == gathered_after_deltas(
                old(self).gathered(),
                call_deltas(delta@),
            ),
    {
        broadcast use crate::text::lemma_views_push;

        let mut choices: Vec<StreamChoice> = Vec::new();
        assert(views(choices@) =~= Seq::empty());
        if let Some(text) = delta.get_str("content") {
            if !text.as_str().is_empty() {
                choices.push(StreamChoice::Message(text.clone()));
                assert(views(choices@) =~= seq![StreamChoiceView::Message(text@)]);
            }
        }
        if let Some(text) = delta.get_str("reasoning_content") {
            if !text.as_str().is_empty() {
                choices.push(StreamChoice::ReasoningDelta(text.clone()));
            }
        }
        let ghost lead = text_choices(delta@);
        let ghost ids = views(fresh_ids@);
        assert(views(choices@) =~= lead + Seq::<StreamChoiceView>::empty());
        if let Some(deltas) = delta.get_array("tool_calls") {
            let ghost all = views(deltas@);
            assert(all.len() == deltas@.len());
            let mut place: usize = 0;
            for fresh_id in it: fresh_ids
                invariant
                    it.seq() == fresh_ids@,
                    fresh_ids@.len() == deltas.len(),
                    place == it.index(),
                    all == views(deltas@),
                    ids == views(fresh_ids@),
                    self.wf(),
                    self.gathered() == gathered_after_deltas(
                        old(self).gathered(),
                        all.take(it.index()),
                    ),
                    ({
                        let (after, emitted) = after_call_deltas(
                            old(self)@,
                            all.take(it.index()),
                            ids.take(it.index()),
                        );
                        self@ == after && views(choices@) == lead + emitted
                    }),
            {
                let ghost shown = views(choices@);
                let ghost n = it.index();
                let mut emitted = self.apply_call_delta(&deltas[place], fresh_id);
                proof {
                    assert(ids.take(n + 1).drop_last() =~= ids.take(n));
                    assert(all.take(n + 1).drop_last() =~= all.take(n));
                    let before = after_call_deltas(old(self)@, all.take(n), ids.take(n)).1;
                    assert(lead + (before + views(emitted@)) =~= shown + views(emitted@));
                    crate::text::lemma_views_add(choices@, emitted@);
                }
                choices.append(&mut emitted);
                place = place + 1;
            }
            assert(all.take(all.len() as int) =~= all);
            assert(ids.take(ids.len() as int) =~= ids);
        }
        choices
    }

    /// Takes in one delta, given as JSON text, and returns what is emitted for
    /// it. The identifiers of the calls that it starts are drawn at random.
    pub fn parse_delta(&mut self, delta_json: &str) -> (choices: Vec<StreamChoice>)
        requires
            old(self).wf(),
        ensures
            final(self).wf(),
            exists|fresh_ids: Seq<Seq<char>>|
                fresh_ids.len() == call_deltas(delta_of(delta_json@)).len() && (
                    final(self)@,
                    views(choices@),
                ) == #[trigger] after_delta(old(self)@, delta_of(delta_json@), fresh_ids),
            final(self).gathered() == gathered_after_deltas(
                old(self).gathered(),
                call_deltas(delta_of(delta_json@)),
            ),
    {
        let delta = match parse_json(delta_json) {
            Ok(delta) => delta,
            Err(_) => Json::Null,
        };
        let mut fresh_ids: Vec<String> = Vec::new();
        if let Some(deltas) = delta.get_array("tool_calls") {
            assert(views(deltas@).len() == deltas@.len());
            while fresh_ids.len() < deltas.len()
                invariant
                    fresh_ids@.len() <= deltas@.len(),
                decreases deltas@.len() - fresh_ids@.len(),
            {
                fresh_ids.push(fresh_call_id());
            }
        }
        assert(views(fresh_ids@).len() == fresh_ids@.len());
        self.apply_delta(&delta, fresh_ids)
    }

    /// Decides [`has_broken_call`]: whether [`Self::flush_tool_calls`] depends
    /// on what the chat template's parser makes of the output.
    pub fn has_broken_calls(&self) -> (broken: bool)
        ensures
            broken == has_broken_call(self@),
    {
        let mut i: usize = 0;
        while i < self.calls.len()
            invariant
                i <= self.calls@.len(),
                forall|k: int|
                    0 <= k < i && #[trigger] self@[k].1.name.len() > 0 ==> complete_arguments(
                        self@[k].1.arguments,
                    ),
            decreases self.calls@.len() - i,
        {
            let call = &self.calls[i].1;
            assert(self@[i as int].1 == call@);
            if !call.name.as_str().is_empty() && !is_valid_json_args(&call.arguments) {
                assert(self@[i as int].1.name.len() > 0);
                return true;
            }
            i = i + 1;
        }
        false
    }

    /// Ends the stream: empties the state and returns its calls, where arguments
    /// that are not complete are repaired from `reparsed`, the calls that were
    /// read from the whole output.
    pub fn flush_repaired(&mut self, reparsed: Option<&Vec<(String, Json)>>) -> (choices: Vec<
        StreamChoice,
    >)
        requires
            old(self).wf(),
        ensures
            final(self).wf(),
            final(self)@ == Seq::<(u64, StreamToolCallView)>::empty(),
            final(self).gathered() == Map::<u64, Seq<char>>::empty(),
            views(choices@) == flushed_calls(
                old(self)@,
                match reparsed {
                    Some(calls) => Some(views(calls@)),
                    None => None,
                },
            ),
    {
        let mut calls: Vec<(u64, StreamToolCall)> = Vec::new();
        std::mem::swap(&mut calls, &mut self.calls);
        self.gathered = Ghost(Map::empty());
        assert(self@ =~= Seq::<(u64, StreamToolCallView)>::empty());
        let ghost all = views(calls@);
        let ghost repairs = match reparsed {
            Some(calls) => Some(views(calls@)),
            None => None,
        };
        let mut choices: Vec<StreamChoice> = Vec::new();
        assert(views(choices@) =~= Seq::empty());
        for entry in it: calls
            invariant
                it.seq() == calls@,
                all == views(calls@),
                repairs == (match reparsed {
                    Some(calls) => Some(views(calls@)),
                    None => None,
                }),
                views(choices@) == flushed_calls(all.take(it.index()), repairs),
        {
            broadcast use crate::text::lemma_views_push;

            assert(all.take(it.index() + 1).drop_last() =~= all.take(it.index()));
            assert(all.take(it.index() + 1).last() == entry@);
            let mut call = entry.1;
            if !call.name.as_str().is_empty() {
                if let Some(fixes) = reparsed {
                    if !is_valid_json_args(&call.arguments) {
                        if let Some(arguments) = find_named(fixes, call.name.as_str()) {
                            call.arguments = arguments;
                        }
                    }
                }
                choices.push(StreamChoice::ToolCall(call));
            }
        }
        assert(all.take(all.len() as int) =~= all);
        choices
    }

    /// Ends the stream: empties the state and returns its calls, complete. The
    /// arguments that are not complete are read again from the whole `output`,
    /// by way of `oaicompat`, the message that the chat template's parser made
    /// of it, or of the XML in it.
    pub fn flush_tool_calls(&mut self, output: &str, oaicompat: Option<&str>) -> (choices: Vec<
        StreamChoice,
    >)
        requires
            old(self).wf(),
        ensures
            final(self).wf(),
            final(self)@ == Seq::<(u64, StreamToolCallView)>::empty(),
            final(self).gathered() == Map::<u64, Seq<char>>::empty(),
            views(choices@) == flushed_calls(
                old(self)@,
                reparsed_calls(output@, option_view(oaicompat)),
            ),
    {
        let broken = self.has_broken_calls();
        let reparsed = if broken {
            reparse_tool_calls_from_output(output, oaicompat)
        } else {
            None
        };
        proof {
            if !broken {
                law_unbroken_calls_are_emitted_unchanged(
                    self@,
                    reparsed_calls(output@, option_view(oaicompat)),
                );
            }
        }
        self.flush_repaired(reparsed.as_ref())
    }
}

/// A delta sets the identifier and the name that it brings, where they are not
/// empty, and appends its fragment to the arguments; what it does not bring
/// stays. It shows the name and then the fragment, each under the identifiers
/// that the call has by then.
pub proof fn law_a_delta_changes_what_it_brings(call: StreamToolCallView, delta: JsonView)
    ensures
        ({
            let (after, shown) = updated_call(call, delta);
            let function = match delta.get("function"@) {
                Some(JsonView::Object(members)) => JsonView::Object(members),
                _ => JsonView::Null,
            };
            let identified = delta.get("id"@) matches Some(JsonView::Str(id)) && id.len() > 0;
            let named = function.get("name"@) matches Some(JsonView::Str(name)) && name.len() > 0;
            let extended = function.get("arguments"@) matches Some(JsonView::Str(text))
                && text.len() > 0;
            &&& after.internal_call_id == call.internal_call_id
            &&& identified ==> after.id == delta.get("id"@)->0->Str_0
            &&& !identified ==> after.id == call.id
            &&& named ==> after.name == function.get("name"@)->0->Str_0
            &&& !named ==> after.name == call.name
            &&& extended ==> after.arguments == arguments_of(
                arguments_text(call.arguments) + function.get("arguments"@)->0->Str_0,
            )
            &&& !extended ==> after.arguments == call.arguments
            &&& shown.len() == (if named {
                1int
            } else {
                0
            }) + (if extended {
                1int
            } else {
                0
            })
            &&& named ==> shown[0] == (StreamChoiceView::ToolCallDelta {
                id: after.id,
                internal_call_id: call.internal_call_id,
                content: ToolCallDeltaContentView::Name(after.name),
            })
            &&& extended ==> shown.last() == (StreamChoiceView::ToolCallDelta {
                id: after.id,
                internal_call_id: call.internal_call_id,
                content: ToolCallDeltaContentView::Delta(function.get("arguments"@)->0->Str_0),
            })
        }),
{
}

/// The text of arguments is read as JSON only where it stands between braces,
/// white space aside, and can be read; else it is kept as it is. What is not
/// text is appended to as it prints, and nothing counts as an empty text.
pub proof fn law_arguments_are_read_between_braces(
    lead: Seq<char>,
    core: Seq<char>,
    trail: Seq<char>,
    value: JsonView,
)
    requires
        all_white(lead),
        all_white(trail),
        core.len() > 0 ==> !white_space(core[0]) && !white_space(core.last()),
    ensures
        ({
            let text = lead + core + trail;
            let enclosed = core.len() > 0 && core[0] == '{' && core.last() == '}';
            &&& enclosed ==> match parsed_json(text) {
                Ok(read) => arguments_of(text) == read,
                Err(_) => arguments_of(text) == JsonView::Str(text),
            }
            &&& !enclosed ==> arguments_of(text) == JsonView::Str(text)
        }),
        arguments_text(JsonView::Null) == Seq::<char>::empty(),
        arguments_text(JsonView::Str(core)) == core,
        !(value is Null) && !(value is Str) ==> arguments_text(value) == json_text(value),
        next_arguments(value, core) == arguments_of(arguments_text(value) + core),
{
    let text = lead + core + trail;
    if core.len() > 0 {
        law_trimming_keeps_what_is_between(lead, core, trail);
        assert((core + trail)[0] == core[0]);
        assert(text =~= (lead + core) + trail);
        assert((lead + core).last() == core.last());
        lemma_only_trail_is_trimmed(lead + core, trail);
    } else {
        assert(text =~= (lead + trail) + core);
        assert(all_white(text)) by {
            assert forall|i: int| 0 <= i < text.len() implies white_space(#[trigger] text[i]) by {
                if i < lead.len() {
                    assert(text[i] == lead[i]);
                } else {
                    assert(text[i] == trail[i - lead.len()]);
                }
            }
        }
        assert(Seq::<char>::empty() + text =~= text);
        law_trimming_keeps_what_is_between(Seq::empty(), Seq::empty(), text);
        assert(trim_end(text) =~= Seq::empty());
    }
}

/// White space is trimmed off the end of a text that ends otherwise.
proof fn lemma_only_trail_is_trimmed(rest: Seq<char>, trail: Seq<char>)
    requires
        all_white(trail),
        rest.len() > 0,
        !white_space(rest.last()),
    ensures
        trim_end(rest + trail) == rest,
    decreases trail.len(),
{
    if trail.len() == 0 {
        assert(rest + trail =~= rest);
    } else {
        assert((rest + trail).last() == trail[trail.len() - 1]);
        assert((rest + trail).drop_last() =~= rest + trail.drop_last());
        lemma_only_trail_is_trimmed(rest, trail.drop_last());
    }
}

/// A delta speaks of the call whose index it names, and of the first where it
/// names none.
pub proof fn law_deltas_name_their_call(members: Map<Seq<char>, JsonView>)
    ensures
        ({
            let delta = JsonView::Object(members);
            let named = members.contains_key("index"@) && (members["index"@] matches JsonView::Number(
                number,
            ) && number_as_u64(number) is Some);
            &&& named ==> Some(delta_index(delta)) == number_as_u64(members["index"@]->Number_0)
            &&& !named ==> delta_index(delta) == 0
        }),
{
}

/// A delta for a call that has begun changes nothing but that call; one for a
/// new call puts it behind the others. What it shows is what that call shows.
pub proof fn law_calls_keep_their_places(
    calls: Seq<(u64, StreamToolCallView)>,
    index: u64,
    delta: JsonView,
    fresh_id: Seq<char>,
)
    requires
        distinct_indices(calls),
    ensures
        ({
            let (after, shown) = after_delta_at(calls, index, delta, fresh_id);
            let begun = exists|i: int| 0 <= i < calls.len() && (#[trigger] calls[i]).0 == index;
            &&& after.len() == calls.len() + if begun {
                0int
            } else {
                1
            }
            &&& forall|i: int|
                0 <= i < calls.len() ==> (#[trigger] after[i]).0 == calls[i].0 && after[i].1 == if calls[i].0
                    == index {
                    updated_call(calls[i].1, delta).0
                } else {
                    calls[i].1
                }
            &&& forall|i: int|
                0 <= i < calls.len() && (#[trigger] calls[i]).0 == index ==> shown == updated_call(
                    calls[i].1,
                    delta,
                ).1
            &&& !begun ==> {
                let first = updated_call(
                    StreamToolCallView {
                        id: Seq::empty(),
                        internal_call_id: fresh_id,
                        name: Seq::empty(),
                        arguments: JsonView::Null,
                    },
                    delta,
                );
                after.last() == (index, first.0) && shown == first.1
            }
        }),
{
    lemma_place_of(calls, index);
}

/// Deltas change the calls, and are shown, alike whether they come in one list
/// or in two; one delta counts for the call that it names.
pub proof fn law_lists_of_call_deltas_chain(
    calls: Seq<(u64, StreamToolCallView)>,
    first: Seq<JsonView>,
    second: Seq<JsonView>,
    first_ids: Seq<Seq<char>>,
    second_ids: Seq<Seq<char>>,
    delta: JsonView,
    fresh_id: Seq<char>,
)
    requires
        first_ids.len() == first.len(),
        second_ids.len() == second.len(),
    ensures
        ({
            let (middle, shown) = after_call_deltas(calls, first, first_ids);
            let (after, rest) = after_call_deltas(middle, second, second_ids);
            after_call_deltas(calls, first + second, first_ids + second_ids) == (
                after,
                shown + rest,
            )
        }),
        after_call_deltas(calls, Seq::empty(), Seq::empty()) == (
            calls,
            Seq::<StreamChoiceView>::empty(),
        ),
        after_call_deltas(calls, seq![delta], seq![fresh_id]) == after_delta_at(
            calls,
            delta_index(delta),
            delta,
            fresh_id,
        ),
    decreases second.len(),
{
    reveal_with_fuel(after_call_deltas, 2);
    assert(seq![delta].drop_last() =~= Seq::empty());
    let one = after_delta_at(calls, delta_index(delta), delta, fresh_id);
    assert(Seq::<StreamChoiceView>::empty() + one.1 =~= one.1);
    let (middle, shown) = after_call_deltas(calls, first, first_ids);
    if second.len() == 0 {
        assert(first + second =~= first);
        assert(first_ids + second_ids =~= first_ids);
        assert(shown + Seq::<StreamChoiceView>::empty() =~= shown);
    } else {
        assert((first + second).drop_last() =~= first + second.drop_last());
        assert((first_ids + second_ids).drop_last() =~= first_ids + second_ids.drop_last());
        law_lists_of_call_deltas_chain(
            calls,
            first,
            second.drop_last(),
            first_ids,
            second_ids.drop_last(),
            delta,
            fresh_id,
        );
        let (before, rest) = after_call_deltas(middle, second.drop_last(), second_ids.drop_last());
        let (after, last) = after_call_delta(before, second.last(), second_ids.last());
        assert(shown + rest + last =~= shown + (rest + last));
    }
}

/// A delta shows its answer, then its reasoning, where they are not empty, and
/// then what its tool calls show; a text that is no JSON shows and changes
/// nothing.
pub proof fn law_a_delta_shows_all_that_it_brings(
    calls: Seq<(u64, StreamToolCallView)>,
    delta: JsonView,
    fresh_ids: Seq<Seq<char>>,
    delta_json: Seq<char>,
)
    ensures
        ({
            let (after, shown) = after_delta(calls, delta, fresh_ids);
            let deltas = match delta.get("tool_calls"@) {
                Some(JsonView::Array(deltas)) => deltas,
                _ => Seq::empty(),
            };
            let answered = delta.get("content"@) matches Some(JsonView::Str(text)) && text.len()
                > 0;
            let reasoned = delta.get("reasoning_content"@) matches Some(JsonView::Str(text))
                && text.len() > 0;
            let lead = (if answered {
                1int
            } else {
                0
            }) + (if reasoned {
                1int
            } else {
                0
            });
            &&& (after, shown.skip(lead)) == after_call_deltas(calls, deltas, fresh_ids)
            &&& shown.len() >= lead
            &&& answered ==> shown[0] == StreamChoiceView::Message(delta.get("content"@)->0->Str_0)
            &&& reasoned ==> shown[lead - 1] == StreamChoiceView::ReasoningDelta(
                delta.get("reasoning_content"@)->0->Str_0,
            )
        }),
        parsed_json(delta_json) matches Ok(delta) ==> delta_of(delta_json) == delta,
        parsed_json(delta_json) is Err ==> after_delta(
            calls,
            delta_of(delta_json),
            Seq::empty(),
        ) == (calls, Seq::<StreamChoiceView>::empty()),
{
    let (after, shown) = after_delta(calls, delta, fresh_ids);
    let texts = text_choices(delta);
    let rest = after_call_deltas(calls, call_deltas(delta), fresh_ids);
    assert(shown == texts + rest.1);
    assert(shown.skip(texts.len() as int) =~= rest.1);
    if parsed_json(delta_json) is Err {
        assert(text_choices(JsonView::Null) =~= Seq::empty());
        assert(call_deltas(JsonView::Null) =~= Seq::empty());
        assert(text_choices(JsonView::Null) + Seq::<StreamChoiceView>::empty() =~= Seq::empty());
    }
}

/// The first call of a name is the one that no other of that name precedes.
pub proof fn law_the_first_namesake_counts(calls: Seq<(Seq<char>, JsonView)>, name: Seq<char>)
    ensures
        (forall|i: int| 0 <= i < calls.len() ==> (#[trigger] calls[i]).0 != name) ==> first_named(
            calls,
            name,
        ) is None,
        forall|i: int|
            0 <= i < calls.len() && (#[trigger] calls[i]).0 == name && (forall|j: int|
                0 <= j < i ==> (#[trigger] calls[j]).0 != name) ==> first_named(calls, name) == Some(
                calls[i].1,
            ),
    decreases calls.len(),
{
    if calls.len() > 0 && calls[0].0 != name {
        let rest = calls.drop_first();
        law_the_first_namesake_counts(rest, name);
        assert forall|i: int|
            0 <= i < calls.len() && (#[trigger] calls[i]).0 == name && (forall|j: int|
                0 <= j < i ==> (#[trigger] calls[j]).0 != name) implies first_named(calls, name)
            == Some(calls[i].1) by {
            assert(rest[i - 1] == calls[i]);
            assert forall|j: int| 0 <= j < i - 1 implies (#[trigger] rest[j]).0 != name by {
                assert(calls[j + 1] == rest[j]);
            }
        }
        if forall|i: int| 0 <= i < calls.len() ==> (#[trigger] calls[i]).0 != name {
            assert forall|i: int| 0 <= i < rest.len() implies (#[trigger] rest[i]).0 != name by {
                assert(calls[i + 1] == rest[i]);
            }
        }
    }
}

/// The calls that the end of a stream emits for two lists, one after the other,
/// are those of the first and then those of the second. A call without a name is
/// dropped; any other is emitted with its identifiers and its name, and with its
/// arguments, unless they are not complete and it has a namesake in the finished
/// output, whose arguments it gets.
pub proof fn law_every_named_call_is_emitted(
    left: Seq<(u64, StreamToolCallView)>,
    right: Seq<(u64, StreamToolCallView)>,
    entry: (u64, StreamToolCallView),
    reparsed: Option<Seq<(Seq<char>, JsonView)>>,
)
    ensures
        flushed_calls(left + right, reparsed) == flushed_calls(left, reparsed) + flushed_calls(right, reparsed),
        entry.1.name == Seq::<char>::empty() ==> flushed_calls(seq![entry], reparsed) == Seq::<
            StreamChoiceView,
        >::empty(),
        entry.1.name != Seq::<char>::empty() ==> {
            let namesake = match reparsed {
                Some(calls) => first_named(calls, entry.1.name),
                None => None,
            };
            flushed_calls(seq![entry], reparsed) == seq![
                StreamChoiceView::ToolCall(
                    StreamToolCallView {
                        id: entry.1.id,
                        internal_call_id: entry.1.internal_call_id,
                        name: entry.1.name,
                        arguments: if !complete_arguments(entry.1.arguments) && namesake is Some {
                            namesake->0
                        } else {
                            entry.1.arguments
                        },
                    },
                ),
            ]
        },
    decreases right.len(),
{
    if entry.1.name.len() == 0 {
        assert(entry.1.name =~= Seq::empty());
    }
    reveal_with_fuel(flushed_calls, 2);
    assert(seq![entry].drop_last() =~= Seq::empty());
    if right.len() == 0 {
        assert(left + right =~= left);
        assert(flushed_calls(left, reparsed) + flushed_calls(right, reparsed) =~= flushed_calls(left, reparsed));
    } else {
        assert((left + right).drop_last() =~= left + right.drop_last());
        law_every_named_call_is_emitted(left, right.drop_last(), entry, reparsed);
        assert(flushed_calls(left + right, reparsed) =~= flushed_calls(left, reparsed) + flushed_calls(right, reparsed));
    }
}

/// Some call of two lists is broken where one of either is; one call is where it
/// has a name and its arguments are not complete.
pub proof fn law_broken_calls_are_found(
    left: Seq<(u64, StreamToolCallView)>,
    right: Seq<(u64, StreamToolCallView)>,
    entry: (u64, StreamToolCallView),
)
    ensures
        has_broken_call(left + right) <==> has_broken_call(left) || has_broken_call(right),
        has_broken_call(seq![entry]) <==> entry.1.name != Seq::<char>::empty()
            && !complete_arguments(entry.1.arguments),
        !has_broken_call(Seq::empty()),
{
    let both = left + right;
    if has_broken_call(both) {
        let i = choose|i: int|
            0 <= i < both.len() && #[trigger] both[i].1.name.len() > 0 && !complete_arguments(
                both[i].1.arguments,
            );
        if i < left.len() {
            assert(left[i].1.name.len() > 0);
        } else {
            assert(right[i - left.len()].1.name.len() > 0);
        }
    }
    if has_broken_call(left) {
        let i = choose|i: int|
            0 <= i < left.len() && #[trigger] left[i].1.name.len() > 0 && !complete_arguments(
                left[i].1.arguments,
            );
        assert(both[i].1.name.len() > 0);
    }
    if has_broken_call(right) {
        let i = choose|i: int|
            0 <= i < right.len() && #[trigger] right[i].1.name.len() > 0 && !complete_arguments(
                right[i].1.arguments,
            );
        assert(both[i + left.len()] == right[i]);
        assert(both[i + left.len()].1.name.len() > 0);
    }
    assert(seq![entry][0] == entry);
    if entry.1.name.len() == 0 {
        assert(entry.1.name =~= Seq::empty());
    } else {
        assert(seq![entry][0].1.name.len() > 0);
    }
}

/// What a streamed call or an event shows is what it holds.
pub proof fn law_events_show_what_they_hold(call: StreamToolCall, choice: StreamChoice)
    ensures
        call@.id == call.id@,
        call@.internal_call_id == call.internal_call_id@,
        call@.name == call.name@,
        call@.arguments == call.arguments@,
        choice matches StreamChoice::Message(text) ==> choice@ == StreamChoiceView::Message(text@),
        choice matches StreamChoice::ReasoningDelta(text) ==> choice@
            == StreamChoiceView::ReasoningDelta(text@),
        choice matches StreamChoice::ToolCall(made) ==> choice@ == StreamChoiceView::ToolCall(made@),
        choice matches StreamChoice::ToolCallDelta {
            id,
            internal_call_id,
            content: ToolCallDeltaContent::Name(name),
        } ==> choice@ == (StreamChoiceView::ToolCallDelta {
            id: id@,
            internal_call_id: internal_call_id@,
            content: ToolCallDeltaContentView::Name(name@),
        }),
        choice matches StreamChoice::ToolCallDelta {
            id,
            internal_call_id,
            content: ToolCallDeltaContent::Delta(text),
        } ==> choice@ == (StreamChoiceView::ToolCallDelta {
            id: id@,
            internal_call_id: internal_call_id@,
            content: ToolCallDeltaContentView::Delta(text@),
        }),
{
}

}

//! Turns: the messages of a chat in the form the chat template takes.
use crate::json::{json_text, lemma_items_view, parse_json, parsed_json, Json, JsonView};
use crate::message::{
    AssistantContent, AssistantContentView, DocumentSource, DocumentSourceView, Message,
    MessageView, ToolCall, ToolCallView, ToolResult, ToolResultContent, ToolResultContentView,
    ToolResultView, UserContent, UserContentView,
};
use crate::text::{
    decimal, decimal_text, join, join_texts, option_view, result_view, views,
};
use rig_core::message::DocumentSourceKind;
use vstd::prelude::*;
use vstd::string::*;
use vstd::utf8::*;

verus! {

/// What `String::from_utf8_lossy` makes of bytes.
pub uninterp spec fn lossy_text(bytes: Seq<u8>) -> Seq<char>;

/// `String::from_utf8_lossy` decodes bytes that are valid UTF-8; in other
/// bytes it replaces what it cannot decode, in a way that is left unsaid here.
#[verifier::external_body]
fn decode_lossy(bytes: &Vec<u8>) -> (text: String)
    ensures
        text@ == lossy_text(bytes@),
        valid_utf8(bytes@) ==> text@ == decode_utf8(bytes@),
{
    String::from_utf8_lossy(bytes).into_owned()
}

/// What `ToolResultContent::from_tool_output` of `rig_core` reads from the
/// output of a tool.
pub uninterp spec fn tool_output_parts(text: Seq<char>) -> Seq<ToolResultContentView>;

/// `ToolResultContent::from_tool_output` of `rig_core` reads image and hybrid
/// JSON into parts; a text that is no JSON it keeps as one text part.
#[verifier::external_body]
fn read_tool_output(text: &str) -> (parts: Vec<ToolResultContent>)
    ensures
        views(parts@) == tool_output_parts(text@),
        parsed_json(text@) is Err ==> views(parts@) == seq![ToolResultContentView::Text(text@)],
{
    let parts = rig_core::message::ToolResultContent::from_tool_output(text);
    parts.into_iter().map(|part| match part {
        rig_core::message::ToolResultContent::Text(text) => ToolResultContent::Text(text.text),
        rig_core::message::ToolResultContent::Image(image) => ToolResultContent::Image(match image.data {
            DocumentSourceKind::Url(text) => DocumentSource::Url(text),
            DocumentSourceKind::Base64(text) => DocumentSource::Base64(text),
            DocumentSourceKind::FileId(text) => DocumentSource::FileId(text),
            DocumentSourceKind::Raw(bytes) => DocumentSource::Raw(bytes),
            DocumentSourceKind::String(text) => DocumentSource::Text(text),
            _ => DocumentSource::Unknown,
        }),
    }).collect()
}

/// The text of a document within a message.
pub open spec fn document_text_of(source: DocumentSourceView) -> Seq<char> {
    match source {
        DocumentSourceView::Text(text) => text,
        DocumentSourceView::Url(text) => text,
        DocumentSourceView::Base64(text) => text,
        DocumentSourceView::Raw(bytes) => lossy_text(bytes),
        DocumentSourceView::FileId(_) => Seq::empty(),
        DocumentSourceView::Unknown => Seq::empty(),
    }
}

/// Computes [`document_text_of`]. Bytes that are valid UTF-8 are decoded.
pub fn document_text(source: &DocumentSource) -> (text: String)
    ensures
        text@ == document_text_of(source@),
        source@ matches DocumentSourceView::Raw(bytes) ==> valid_utf8(bytes) ==> text@
            == decode_utf8(bytes),
{
    match source {
        DocumentSource::Text(text) => text.clone(),
        DocumentSource::Url(text) => text.clone(),
        DocumentSource::Base64(text) => text.clone(),
        DocumentSource::Raw(bytes) => decode_lossy(bytes),
        DocumentSource::FileId(_) => String::new(),
        DocumentSource::Unknown => String::new(),
    }
}

/// The text of a part of a user message, where it has one.
pub open spec fn user_text_of(content: UserContentView) -> Option<Seq<char>> {
    match content {
        UserContentView::Text(text) => Some(text),
        UserContentView::Document(source) => Some(document_text_of(source)),
        _ => None,
    }
}

/// Computes [`user_text_of`].
pub fn user_content_text(content: &UserContent) -> (text: Option<String>)
    ensures
        option_view(text) == user_text_of(content@),
{
    match content {
        UserContent::Text(text) => Some(text.clone()),
        UserContent::Document(source) => Some(document_text(source)),
        _ => None,
    }
}

/// A message whose content is a text.
pub open spec fn text_message(role: Seq<char>, content: Seq<char>) -> JsonView {
    JsonView::Object(map!["role"@ => JsonView::Str(role), "content"@ => JsonView::Str(content)])
}

/// A message of the user whose content is a list of parts.
pub open spec fn parts_message(parts: Seq<JsonView>) -> JsonView {
    JsonView::Object(map!["role"@ => JsonView::Str("user"@), "content"@ => JsonView::Array(parts)])
}

/// A part of a message: a text, or the marker of an image.
pub open spec fn message_part(kind: Seq<char>, text: Seq<char>) -> JsonView {
    JsonView::Object(map!["type"@ => JsonView::Str(kind), "text"@ => JsonView::Str(text)])
}

/// Builds a [`text_message`].
pub(crate) fn make_text_message(role: &str, content: String) -> (message: Json)
    ensures
        message@ == text_message(role@, content@),
{
    Json::empty_object().with("role", Json::Str(role.to_owned())).with("content", Json::Str(content))
}

/// Builds a [`parts_message`].
fn make_parts_message(parts: Vec<Json>) -> (message: Json)
    ensures
        message@ == parts_message(views(parts@)),
{
    proof {
        lemma_items_view(parts@);
    }
    Json::empty_object().with("role", Json::Str("user".to_owned())).with(
        "content",
        Json::Array(parts),
    )
}

/// Builds a [`message_part`].
fn make_part(kind: &str, text: &str) -> (part: Json)
    ensures
        part@ == message_part(kind@, text@),
{
    Json::empty_object().with("type", Json::Str(kind.to_owned())).with(
        "text",
        Json::Str(text.to_owned()),
    )
}

/// The texts of a user message, in order.
pub open spec fn user_texts(content: Seq<UserContentView>) -> Seq<Seq<char>>
    decreases content.len(),
{
    if content.len() == 0 {
        Seq::empty()
    } else {
        let before = user_texts(content.drop_last());
        match user_text_of(content.last()) {
            Some(text) => before.push(text),
            None => before,
        }
    }
}

/// The parts of a user message with images: its texts, and the marker in the
/// place of each image.
pub open spec fn content_parts(content: Seq<UserContentView>, marker: Seq<char>) -> Seq<JsonView>
    decreases content.len(),
{
    if content.len() == 0 {
        Seq::empty()
    } else {
        let before = content_parts(content.drop_last(), marker);
        match content.last() {
            UserContentView::Image(_) => before.push(message_part("media_marker"@, marker)),
            other => match user_text_of(other) {
                Some(text) => before.push(message_part("text"@, text)),
                None => before,
            },
        }
    }
}

/// Whether a user message holds an image of its own.
pub open spec fn has_image(content: Seq<UserContentView>) -> bool {
    exists|i: int| 0 <= i < content.len() && (#[trigger] content[i]) is Image
}

/// The message for what the user says, tool results aside: a list of parts
/// where images are read (there is a marker for them) and it holds one, else
/// its texts in lines, and nothing where they are empty.
pub open spec fn user_turn(content: Seq<UserContentView>, marker: Option<Seq<char>>) -> Seq<
    JsonView,
> {
    if marker is Some && has_image(content) {
        seq![parts_message(content_parts(content, marker->0))]
    } else {
        let text = join(user_texts(content), "\n"@);
        if text.len() == 0 {
            Seq::empty()
        } else {
            seq![text_message("user"@, text)]
        }
    }
}

/// Computes [`user_turn`].
fn make_user_turn(content: &Vec<UserContent>, marker: Option<&str>) -> (turn: Vec<Json>)
    ensures
        views(turn@) == user_turn(views(content@), option_view(marker)),
{
    broadcast use crate::text::lemma_views_push;

    let ghost all = views(content@);
    let mut turn: Vec<Json> = Vec::new();
    let mut texts: Vec<String> = Vec::new();
    let mut parts: Vec<Json> = Vec::new();
    let mut pictured = false;
    assert(views(turn@) =~= Seq::empty());
    assert(views(texts@) =~= Seq::empty());
    assert(views(parts@) =~= Seq::empty());
    let mut i: usize = 0;
    while i < content.len()
        invariant
            i <= content@.len(),
            all == views(content@),
            views(texts@) == user_texts(all.take(i as int)),
            marker is Some ==> views(parts@) == content_parts(all.take(i as int), marker->0@),
            pictured == has_image(all.take(i as int)),
        decreases content@.len() - i,
    {
        broadcast use crate::text::lemma_views_push;

        let ghost before = all.take(i as int);
        let ghost after = all.take(i + 1);
        assert(after.drop_last() =~= before);
        assert(after.last() == content@[i as int]@);
        assert forall|k: int| 0 <= k < i implies after[k] == #[trigger] before[k] by {}
        let item = &content[i];
        if let UserContent::Image(_) = item {
            if let Some(marker) = marker {
                parts.push(make_part("media_marker", marker));
            }
            pictured = true;
            assert(after[i as int] is Image);
        } else {
            if let Some(text) = user_content_text(item) {
                if marker.is_some() {
                    parts.push(make_part("text", text.as_str()));
                }
                texts.push(text);
            }
            assert(has_image(after) ==> has_image(before)) by {
                if has_image(after) {
                    let k = choose|k: int| 0 <= k < after.len() && (#[trigger] after[k]) is Image;
                    assert(before[k] is Image);
                }
            }
        }
        assert(has_image(before) ==> has_image(after)) by {
            if has_image(before) {
                let k = choose|k: int| 0 <= k < before.len() && (#[trigger] before[k]) is Image;
                assert(after[k] is Image);
            }
        }
        i = i + 1;
    }
    assert(all.take(i as int) =~= all);
    if pictured && marker.is_some() {
        turn.push(make_parts_message(parts));
        assert(views(turn@) =~= user_turn(all, option_view(marker)));
        return turn;
    }
    let text = join_texts(&texts, "\n");
    if !text.as_str().is_empty() {
        turn.push(make_text_message("user", text));
    }
    assert(views(turn@) =~= user_turn(all, option_view(marker)));
    turn
}

/// The tool results of a user message, in order.
pub open spec fn tool_results(content: Seq<UserContentView>) -> Seq<ToolResultView>
    decreases content.len(),
{
    if content.len() == 0 {
        Seq::empty()
    } else {
        let before = tool_results(content.drop_last());
        match content.last() {
            UserContentView::ToolResult(result) => before.push(result),
            _ => before,
        }
    }
}

/// The parts of a tool result, with image and hybrid JSON read into parts of
/// their own.
pub open spec fn normalized_parts(content: Seq<ToolResultContentView>) -> Seq<
    ToolResultContentView,
>
    decreases content.len(),
{
    if content.len() == 0 {
        Seq::empty()
    } else {
        normalized_parts(content.drop_last()) + match content.last() {
            ToolResultContentView::Text(text) => tool_output_parts(text),
            other => seq![other],
        }
    }
}

/// Whether no part is a text that can be read as JSON.
pub open spec fn holds_no_json(content: Seq<ToolResultContentView>) -> bool {
    forall|i: int|
        0 <= i < content.len() ==> ((#[trigger] content[i]) is Text ==> parsed_json(
            content[i]->Text_0,
        ) is Err)
}

/// Computes [`normalized_parts`]. Parts that hold no JSON stay as they are.
pub fn normalized_tool_parts(content: &Vec<ToolResultContent>) -> (parts: Vec<ToolResultContent>)
    ensures
        views(parts@) == normalized_parts(views(content@)),
        holds_no_json(views(content@)) ==> views(parts@) == views(content@),
{
    let ghost all = views(content@);
    let mut parts: Vec<ToolResultContent> = Vec::new();
    assert(views(parts@) =~= Seq::empty());
    let mut i: usize = 0;
    while i < content.len()
        invariant
            i <= content@.len(),
            all == views(content@),
            views(parts@) == normalized_parts(all.take(i as int)),
            holds_no_json(all) ==> views(parts@) == all.take(i as int),
        decreases content@.len() - i,
    {
        broadcast use crate::text::lemma_views_push;

        assert(all.take(i + 1).drop_last() =~= all.take(i as int));
        assert(all.take(i + 1) =~= all.take(i as int).push(all[i as int]));
        assert(all[i as int] == content@[i as int]@);
        let ghost before = parts@;
        match &content[i] {
            ToolResultContent::Text(text) => {
                let mut read = read_tool_output(text.as_str());
                proof {
                    crate::text::lemma_views_add(before, read@);
                    assert(views(before) + seq![all[i as int]] =~= views(before).push(all[i as int]));
                }
                parts.append(&mut read);
            },
            ToolResultContent::Image(source) => {
                parts.push(ToolResultContent::Image(source.clone()));
                assert(views(before).push(all[i as int]) =~= views(before) + seq![all[i as int]]);
            },
        }
        i = i + 1;
    }
    assert(all.take(i as int) =~= all);
    parts
}

/// The texts among the parts of a tool result.
pub open spec fn part_texts(parts: Seq<ToolResultContentView>) -> Seq<Seq<char>>
    decreases parts.len(),
{
    if parts.len() == 0 {
        Seq::empty()
    } else {
        let before = part_texts(parts.drop_last());
        match parts.last() {
            ToolResultContentView::Text(text) => before.push(text),
            _ => before,
        }
    }
}

/// The images among the parts of a tool result.
pub open spec fn part_images(parts: Seq<ToolResultContentView>) -> Seq<DocumentSourceView>
    decreases parts.len(),
{
    if parts.len() == 0 {
        Seq::empty()
    } else {
        let before = part_images(parts.drop_last());
        match parts.last() {
            ToolResultContentView::Image(source) => before.push(source),
            _ => before,
        }
    }
}

/// The parts of a tool result as they count: normalized where images are read.
pub open spec fn result_parts(result: ToolResultView, multimodal: bool) -> Seq<
    ToolResultContentView,
> {
    if multimodal {
        normalized_parts(result.content)
    } else {
        result.content
    }
}

/// The identifier of the call that a tool result answers.
pub open spec fn answered_call(result: ToolResultView) -> Seq<char> {
    match result.call_id {
        Some(call_id) => call_id,
        None => result.id,
    }
}

/// The content of the message for a tool result with these parts: its texts in
/// lines, or, where images are read and there are some but no text, a note that
/// says how many images follow.
pub open spec fn parts_content(parts: Seq<ToolResultContentView>, multimodal: bool) -> Seq<char> {
    let text = join(part_texts(parts), "\n"@);
    let images = part_images(parts).len();
    if multimodal && images > 0 && text.len() == 0 {
        "[returned "@ + decimal(images) + " image(s); see next message]"@
    } else {
        text
    }
}

/// The content of the message for a tool result.
pub open spec fn tool_content(result: ToolResultView, multimodal: bool) -> Seq<char> {
    parts_content(result_parts(result, multimodal), multimodal)
}

/// The message that answers the call `call` with `content`.
pub open spec fn answer_message(call: Seq<char>, content: Seq<char>) -> JsonView {
    JsonView::Object(
        map![
            "role"@ => JsonView::Str("tool"@),
            "tool_call_id"@ => JsonView::Str(call),
            "content"@ => JsonView::Str(content),
        ],
    )
}

/// The message for a tool result.
pub open spec fn tool_message(result: ToolResultView, multimodal: bool) -> JsonView {
    answer_message(answered_call(result), tool_content(result, multimodal))
}

/// The images that a list of tool results carries, in order.
pub open spec fn result_images(results: Seq<ToolResultView>) -> Seq<DocumentSourceView>
    decreases results.len(),
{
    if results.len() == 0 {
        Seq::empty()
    } else {
        result_images(results.drop_last()) + part_images(normalized_parts(results.last().content))
    }
}

/// A call that a tool result could be the answer to.
pub open spec fn synthetic_call(result: ToolResultView) -> JsonView {
    JsonView::Object(
        map![
            "id"@ => JsonView::Str(answered_call(result)),
            "type"@ => JsonView::Str("function"@),
            "function"@ => JsonView::Object(
                map![
                    "name"@ => JsonView::Str(result.id),
                    "arguments"@ => JsonView::Str("{}"@),
                ],
            ),
        ],
    )
}

/// An assistant message that makes the calls which the results answer.
pub open spec fn synthetic_message(results: Seq<ToolResultView>) -> JsonView {
    JsonView::Object(
        map![
            "role"@ => JsonView::Str("assistant"@),
            "content"@ => JsonView::Null,
            "tool_calls"@ => JsonView::Array(
                results.map_values(|result: ToolResultView| synthetic_call(result)),
            ),
        ],
    )
}

/// Whether the last message makes a call.
pub open spec fn ends_with_calls(messages: Seq<JsonView>) -> bool {
    messages.len() > 0 && match messages.last().get_array("tool_calls"@) {
        Some(calls) => calls.len() > 0,
        None => false,
    }
}

/// The message that brings the images of tool results: a line of text, then
/// one marker for each.
pub open spec fn image_message(count: nat, marker: Seq<char>) -> JsonView {
    parts_message(
        seq![message_part("text"@, "Image(s) returned by the tool call above:"@)] + Seq::new(
            count,
            |i: int| message_part("media_marker"@, marker),
        ),
    )
}

/// What comes before the messages for `results`: the calls that they answer,
/// where the last message makes none.
pub open spec fn call_turn(messages: Seq<JsonView>, results: Seq<ToolResultView>) -> Seq<JsonView> {
    if ends_with_calls(messages) {
        Seq::empty()
    } else {
        seq![synthetic_message(results)]
    }
}

/// What comes after the messages for `results`: their images, where images are
/// read and there are any.
pub open spec fn image_turn(results: Seq<ToolResultView>, marker: Option<Seq<char>>) -> Seq<
    JsonView,
> {
    if marker is Some && result_images(results).len() > 0 {
        seq![image_message(result_images(results).len(), marker->0)]
    } else {
        Seq::empty()
    }
}

/// The messages for the tool results `results`, which come after `messages`.
pub open spec fn tool_turn(
    messages: Seq<JsonView>,
    results: Seq<ToolResultView>,
    marker: Option<Seq<char>>,
) -> Seq<JsonView> {
    if results.len() == 0 {
        Seq::empty()
    } else {
        call_turn(messages, results) + results.map_values(
            |result: ToolResultView| tool_message(result, marker is Some),
        ) + image_turn(results, marker)
    }
}

/// Copies the identifier of the call that `result` answers.
fn call_identifier(result: &ToolResult) -> (id: String)
    ensures
        id@ == answered_call(result@),
{
    match &result.call_id {
        Some(call_id) => call_id.clone(),
        None => result.id.clone(),
    }
}

/// Builds the [`tool_message`] of `result`, and one marker part for each of its images.
fn make_tool_message(result: &ToolResult, marker: Option<&str>) -> (message: (Json, Vec<Json>))
    ensures
        message.0@ == tool_message(result@, marker is Some),
        marker is Some ==> views(message.1@) == Seq::new(
            part_images(normalized_parts(result@.content)).len(),
            |i: int| message_part("media_marker"@, marker->0@),
        ),
        marker is None ==> views(message.1@) == Seq::<JsonView>::empty(),
{
    let call = call_identifier(result);
    if marker.is_some() {
        let parts = normalized_tool_parts(&result.content);
        answer_with_parts(call, &parts, marker)
    } else {
        answer_with_parts(call, &result.content, marker)
    }
}

/// Builds the message that answers the call `call` with these parts, and one
/// marker part for each image among them, where images are read.
pub fn answer_with_parts(call: String, parts: &Vec<ToolResultContent>, marker: Option<&str>) -> (
    message: (Json, Vec<Json>))
    ensures
        message.0@ == answer_message(call@, parts_content(views(parts@), marker is Some)),
        marker is Some ==> views(message.1@) == Seq::new(
            part_images(views(parts@)).len(),
            |i: int| message_part("media_marker"@, marker->0@),
        ),
        marker is None ==> views(message.1@) == Seq::<JsonView>::empty(),
{
    let ghost all = views(parts@);
    let mut texts: Vec<String> = Vec::new();
    let mut markers: Vec<Json> = Vec::new();
    let mut images: u64 = 0;
    assert(views(texts@) =~= Seq::empty());
    assert(views(markers@) =~= Seq::empty());
    assert(parts@.len() == parts.len());
    let mut i: usize = 0;
    while i < parts.len()
        invariant
            i <= parts@.len() == parts.len(),
            all == views(parts@),
            images <= i,
            views(texts@) == part_texts(all.take(i as int)),
            images == part_images(all.take(i as int)).len(),
            marker is Some ==> views(markers@) == Seq::new(
                images as nat,
                |i: int| message_part("media_marker"@, marker->0@),
            ),
            marker is None ==> views(markers@) == Seq::<JsonView>::empty(),
        decreases parts@.len() - i,
    {
        broadcast use crate::text::lemma_views_push;

        assert(all.take(i + 1).drop_last() =~= all.take(i as int));
        assert(all.take(i + 1).last() == parts@[i as int]@);
        match &parts[i] {
            ToolResultContent::Text(text) => {
                texts.push(text.clone());
            },
            ToolResultContent::Image(_) => {
                let ghost before = views(markers@);
                images = images + 1;
                if let Some(marker) = marker {
                    markers.push(make_part("media_marker", marker));
                    assert(views(markers@) =~= Seq::new(
                        images as nat,
                        |i: int| message_part("media_marker"@, marker@),
                    ));
                }
            },
        }
        i = i + 1;
    }
    assert(all.take(i as int) =~= all);
    let text = join_texts(&texts, "\n");
    let content = if marker.is_some() && images > 0 && text.as_str().is_empty() {
        let mut note = "[returned ".to_owned();
        note.append(decimal_text(images).as_str());
        note.append(" image(s); see next message]");
        note
    } else {
        text
    };
    let message = Json::empty_object().with("role", Json::Str("tool".to_owned())).with(
        "tool_call_id",
        Json::Str(call),
    ).with("content", Json::Str(content));
    (message, markers)
}

/// Decides [`ends_with_calls`].
fn last_makes_calls(messages: &Vec<Json>) -> (calls: bool)
    ensures
        calls == ends_with_calls(views(messages@)),
{
    if messages.len() == 0 {
        return false;
    }
    let last = &messages[messages.len() - 1];
    assert(views(messages@).last() == last@);
    match last.get_array("tool_calls") {
        Some(calls) => {
            assert(views(calls@).len() == calls@.len());
            calls.len() > 0
        },
        None => false,
    }
}

/// Builds the [`synthetic_call`] of `result`.
fn make_synthetic_call(result: &ToolResult) -> (call: Json)
    ensures
        call@ == synthetic_call(result@),
{
    let function = Json::empty_object().with("name", Json::Str(result.id.clone())).with(
        "arguments",
        Json::Str("{}".to_owned()),
    );
    Json::empty_object().with("id", Json::Str(call_identifier(result))).with(
        "type",
        Json::Str("function".to_owned()),
    ).with("function", function)
}

/// Builds the [`synthetic_message`] of `results`.
fn make_synthetic_message(results: &Vec<&ToolResult>) -> (message: Json)
    ensures
        message@ == synthetic_message(views(results@)),
{
    let ghost all = views(results@).map_values(|result: ToolResultView| synthetic_call(result));
    let mut calls: Vec<Json> = Vec::new();
    let mut i: usize = 0;
    assert(views(calls@) =~= Seq::empty());
    while i < results.len()
        invariant
            i <= results@.len(),
            all == views(results@).map_values(|result: ToolResultView| synthetic_call(result)),
            views(calls@) == all.take(i as int),
        decreases results@.len() - i,
    {
        broadcast use crate::text::lemma_views_push;

        calls.push(make_synthetic_call(results[i]));
        assert(all.take(i + 1) =~= all.take(i as int).push(all[i as int]));
        i = i + 1;
    }
    assert(all.take(i as int) =~= all);
    proof {
        lemma_items_view(calls@);
    }
    Json::empty_object().with("role", Json::Str("assistant".to_owned())).with(
        "content",
        Json::Null,
    ).with("tool_calls", Json::Array(calls))
}

/// Appends the [`tool_turn`] of `results` to `messages`.
fn append_tool_turn(messages: &mut Vec<Json>, results: &Vec<&ToolResult>, marker: Option<&str>)
    ensures
        views(final(messages)@) == views(old(messages)@) + tool_turn(
            views(old(messages)@),
            views(results@),
            option_view(marker),
        ),
{
    broadcast use crate::text::lemma_views_push;

    let ghost start = views(messages@);
    let ghost all = views(results@);
    if results.len() == 0 {
        assert(start + Seq::<JsonView>::empty() =~= start);
        return;
    }
    if !last_makes_calls(messages) {
        messages.push(make_synthetic_message(results));
    }
    let ghost called = start + call_turn(start, all);
    assert(views(messages@) =~= called);
    let ghost told = all.map_values(|result: ToolResultView| tool_message(result, marker is Some));
    let mut parts: Vec<Json> = Vec::new();
    parts.push(make_part("text", "Image(s) returned by the tool call above:"));
    let ghost header = message_part("text"@, "Image(s) returned by the tool call above:"@);
    assert(views(parts@) =~= seq![header]);
    assert(called =~= called + told.take(0));
    let mut i: usize = 0;
    while i < results.len()
        invariant
            i <= results@.len(),
            all == views(results@),
            told == all.map_values(
                |result: ToolResultView| tool_message(result, marker is Some),
            ),
            views(messages@) == called + told.take(i as int),
            marker is Some ==> views(parts@) =~= seq![header] + Seq::new(
                result_images(all.take(i as int)).len(),
                |i: int| message_part("media_marker"@, marker->0@),
            ),
            marker is None ==> parts@.len() == 1,
        decreases results@.len() - i,
    {
        broadcast use crate::text::lemma_views_push;

        let ghost before = all.take(i as int);
        assert(all.take(i + 1).drop_last() =~= before);
        assert(all.take(i + 1).last() == results@[i as int]@);
        let (message, mut markers) = make_tool_message(results[i], marker);
        proof {
            crate::text::lemma_views_add(parts@, markers@);
            assert(views(markers@).len() == markers@.len());
            assert(called + told.take(i + 1) =~= (called + told.take(i as int)).push(
                told[i as int],
            ));
        }
        parts.append(&mut markers);
        messages.push(message);
        i = i + 1;
    }
    assert(all.take(i as int) =~= all);
    assert(told.take(i as int) =~= told);
    assert(views(parts@).len() == parts@.len());
    if parts.len() > 1 {
        messages.push(make_parts_message(parts));
        assert(views(messages@) =~= (called + told).push(
            image_message(result_images(all).len(), marker->0@),
        ));
    }
    assert(views(messages@) =~= start + tool_turn(start, all, option_view(marker)));
}

/// The texts of an assistant message, in order.
pub open spec fn assistant_texts(content: Seq<AssistantContentView>) -> Seq<Seq<char>>
    decreases content.len(),
{
    if content.len() == 0 {
        Seq::empty()
    } else {
        let before = assistant_texts(content.drop_last());
        match content.last() {
            AssistantContentView::Text(text) => before.push(text),
            _ => before,
        }
    }
}

/// A text where it could be read as JSON, and `{}` where it could not.
pub open spec fn text_or_nothing(
    text: Seq<char>,
    parsed: Result<JsonView, Seq<char>>,
) -> Seq<char> {
    if parsed is Ok {
        text
    } else {
        "{}"@
    }
}

/// Computes [`text_or_nothing`].
pub fn take_text_or_nothing(text: &str, parsed: &Result<Json, String>) -> (kept: String)
    ensures
        kept@ == text_or_nothing(text@, result_view(*parsed)),
{
    if parsed.is_ok() {
        text.to_owned()
    } else {
        "{}".to_owned()
    }
}

/// The arguments of a call as the chat template takes them, as JSON text: a
/// string passes where it is such a text already, and gives `{}` where it is not.
pub open spec fn argument_text(arguments: JsonView) -> Seq<char> {
    match arguments {
        JsonView::Str(text) => text_or_nothing(text, parsed_json(text)),
        other => json_text(other),
    }
}

/// Arguments that are a text reach the chat template unchanged where they can be
/// read as JSON, and as an empty object where they cannot.
pub proof fn law_unreadable_arguments_become_an_empty_object(text: Seq<char>)
    ensures
        parsed_json(text) is Ok ==> argument_text(JsonView::Str(text)) == text,
        parsed_json(text) is Err ==> argument_text(JsonView::Str(text)) == "{}"@,
{
}

/// A call as the chat template takes it.
pub open spec fn call_json(call: ToolCallView) -> JsonView {
    JsonView::Object(
        map![
            "id"@ => JsonView::Str(call.id),
            "type"@ => JsonView::Str("function"@),
            "function"@ => JsonView::Object(
                map![
                    "name"@ => JsonView::Str(call.name),
                    "arguments"@ => JsonView::Str(argument_text(call.arguments)),
                ],
            ),
        ],
    )
}

/// Computes [`call_json`].
pub fn tool_call_json(call: &ToolCall) -> (json: Json)
    ensures
        json@ == call_json(call@),
{
    let arguments = match &call.arguments {
        Json::Str(text) => take_text_or_nothing(text.as_str(), &parse_json(text.as_str())),
        other => other.print(),
    };
    let function = Json::empty_object().with("name", Json::Str(call.name.clone())).with(
        "arguments",
        Json::Str(arguments),
    );
    Json::empty_object().with("id", Json::Str(call.id.clone())).with(
        "type",
        Json::Str("function".to_owned()),
    ).with("function", function)
}

/// The calls of an assistant message, in order.
pub open spec fn assistant_calls(content: Seq<AssistantContentView>) -> Seq<JsonView>
    decreases content.len(),
{
    if content.len() == 0 {
        Seq::empty()
    } else {
        let before = assistant_calls(content.drop_last());
        match content.last() {
            AssistantContentView::ToolCall(call) => before.push(call_json(call)),
            _ => before,
        }
    }
}

/// The message for what the model said: its texts in lines and its calls,
/// `null` where there are none; nothing where there are neither.
pub open spec fn assistant_turn(content: Seq<AssistantContentView>) -> Seq<JsonView> {
    let text = join(assistant_texts(content), "\n"@);
    let calls = assistant_calls(content);
    if text.len() == 0 && calls.len() == 0 {
        Seq::empty()
    } else {
        seq![
            JsonView::Object(
                map![
                    "role"@ => JsonView::Str("assistant"@),
                    "content"@ => if text.len() == 0 {
                        JsonView::Null
                    } else {
                        JsonView::Str(text)
                    },
                    "tool_calls"@ => if calls.len() == 0 {
                        JsonView::Null
                    } else {
                        JsonView::Array(calls)
                    },
                ],
            ),
        ]
    }
}

/// Computes [`assistant_turn`].
fn make_assistant_turn(content: &Vec<AssistantContent>) -> (turn: Vec<Json>)
    ensures
        views(turn@) == assistant_turn(views(content@)),
{
    broadcast use crate::text::lemma_views_push;

    let ghost all = views(content@);
    let mut turn: Vec<Json> = Vec::new();
    let mut texts: Vec<String> = Vec::new();
    let mut calls: Vec<Json> = Vec::new();
    assert(views(texts@) =~= Seq::empty());
    assert(views(calls@) =~= Seq::empty());
    let mut i: usize = 0;
    while i < content.len()
        invariant
            i <= content@.len(),
            all == views(content@),
            views(texts@) == assistant_texts(all.take(i as int)),
            views(calls@) == assistant_calls(all.take(i as int)),
        decreases content@.len() - i,
    {
        broadcast use crate::text::lemma_views_push;

        assert(all.take(i + 1).drop_last() =~= all.take(i as int));
        assert(all.take(i + 1).last() == content@[i as int]@);
        match &content[i] {
            AssistantContent::Text(text) => {
                texts.push(text.clone());
            },
            AssistantContent::ToolCall(call) => {
                calls.push(tool_call_json(call));
            },
            _ => {},
        }
        i = i + 1;
    }
    assert(all.take(i as int) =~= all);
    proof {
        lemma_items_view(calls@);
        assert(views(calls@).len() == calls@.len());
    }
    let text = join_texts(&texts, "\n");
    if !text.as_str().is_empty() || calls.len() > 0 {
        let content = if text.as_str().is_empty() {
            Json::Null
        } else {
            Json::Str(text)
        };
        let tool_calls = if calls.len() == 0 {
            Json::Null
        } else {
            Json::Array(calls)
        };
        turn.push(
            Json::empty_object().with("role", Json::Str("assistant".to_owned())).with(
                "content",
                content,
            ).with("tool_calls", tool_calls),
        );
    }
    assert(views(turn@) =~= assistant_turn(all));
    turn
}

/// The messages after one more message of the chat.
pub open spec fn after_message(
    messages: Seq<JsonView>,
    message: MessageView,
    marker: Option<Seq<char>>,
) -> Seq<JsonView> {
    match message {
        MessageView::User(content) => {
            let told = messages + user_turn(content, marker);
            told + tool_turn(told, tool_results(content), marker)
        },
        MessageView::Assistant(content) => messages + assistant_turn(content),
        MessageView::System(text) => messages.push(text_message("system"@, text)),
    }
}

/// Appends the messages for `message` to `messages`. `marker` is what stands
/// for an image in a prompt; without it images are not read.
pub fn append_message_json(messages: &mut Vec<Json>, message: &Message, marker: Option<&str>)
    ensures
        views(final(messages)@) == after_message(
            views(old(messages)@),
            message@,
            option_view(marker),
        ),
{
    broadcast use crate::text::lemma_views_push;

    match message {
        Message::User(content) => {
            let ghost all = views(content@);
            let mut turn = make_user_turn(content, marker);
            proof {
                crate::text::lemma_views_add(messages@, turn@);
            }
            messages.append(&mut turn);
            let mut results: Vec<&ToolResult> = Vec::new();
            assert(views(results@) =~= Seq::empty());
            let mut i: usize = 0;
            while i < content.len()
                invariant
                    i <= content@.len(),
                    all == views(content@),
                    views(results@) == tool_results(all.take(i as int)),
                decreases content@.len() - i,
            {
                broadcast use crate::text::lemma_views_push;

                assert(all.take(i + 1).drop_last() =~= all.take(i as int));
                assert(all.take(i + 1).last() == content@[i as int]@);
                if let UserContent::ToolResult(result) = &content[i] {
                    results.push(result);
                }
                i = i + 1;
            }
            assert(all.take(i as int) =~= all);
            append_tool_turn(messages, &results, marker);
        },
        Message::Assistant(content) => {
            let mut turn = make_assistant_turn(content);
            proof {
                crate::text::lemma_views_add(messages@, turn@);
            }
            messages.append(&mut turn);
        },
        Message::System(text) => {
            messages.push(make_text_message("system", text.clone()));
        },
    }
}

/// The first of the messages for tool results comes right after a message that
/// makes calls.
pub proof fn law_tool_results_follow_calls(
    messages: Seq<JsonView>,
    results: Seq<ToolResultView>,
    marker: Option<Seq<char>>,
)
    requires
        results.len() > 0,
    ensures
        ({
            let calls = call_turn(messages, results);
            &&& tool_turn(messages, results, marker).len() > calls.len()
            &&& tool_turn(messages, results, marker)[calls.len() as int] == tool_message(
                results[0],
                marker is Some,
            )
            &&& ends_with_calls(messages + calls)
        }),
{
    if ends_with_calls(messages) {
        assert(messages + call_turn(messages, results) =~= messages);
    } else {
        assert((messages + call_turn(messages, results)).last() == synthetic_message(results));
    }
}

/// Where images are read, the message for a tool result that returned an image
/// has some text.
pub proof fn law_image_results_have_text(result: ToolResultView)
    requires
        part_images(normalized_parts(result.content)).len() > 0,
    ensures
        tool_content(result, true).len() > 0,
{
    reveal_strlit("[returned ");
}

/// The texts of two lists of parts, one after the other, are those of the first
/// and then those of the second. A text and a document give one each, a document
/// that is only named gives an empty one, and tool results, images, sound and
/// films give none.
pub proof fn law_user_texts_keep_their_order(
    left: Seq<UserContentView>,
    right: Seq<UserContentView>,
    part: UserContentView,
)
    ensures
        user_texts(left + right) == user_texts(left) + user_texts(right),
        part matches UserContentView::Text(text) ==> user_texts(seq![part]) == seq![text],
        part matches UserContentView::Document(DocumentSourceView::Text(text)) ==> user_texts(
            seq![part],
        ) == seq![text],
        part matches UserContentView::Document(DocumentSourceView::Url(text)) ==> user_texts(
            seq![part],
        ) == seq![text],
        part matches UserContentView::Document(DocumentSourceView::Base64(text)) ==> user_texts(
            seq![part],
        ) == seq![text],
        part matches UserContentView::Document(DocumentSourceView::Raw(bytes)) ==> user_texts(
            seq![part],
        ) == seq![lossy_text(bytes)],
        part matches UserContentView::Document(DocumentSourceView::FileId(_)) ==> user_texts(
            seq![part],
        ) == seq![Seq::<char>::empty()],
        part == UserContentView::Document(DocumentSourceView::Unknown) ==> user_texts(seq![part])
            == seq![Seq::<char>::empty()],
        !(part is Text) && !(part is Document) ==> user_texts(seq![part]) == Seq::<Seq<char>>::empty(),
    decreases right.len(),
{
    reveal_with_fuel(user_texts, 2);
    assert(seq![part].drop_last() =~= Seq::empty());
    if right.len() == 0 {
        assert(left + right =~= left);
        assert(user_texts(left) + user_texts(right) =~= user_texts(left));
    } else {
        assert((left + right).drop_last() =~= left + right.drop_last());
        law_user_texts_keep_their_order(left, right.drop_last(), part);
        assert(user_texts(left + right) =~= user_texts(left) + user_texts(right));
    }
}

/// The parts of two lists of content, one after the other, are those of the
/// first and then those of the second. An image gives the marker, a text and a
/// document give their text, and the rest gives nothing.
pub proof fn law_parts_stand_in_the_place_of_the_content(
    left: Seq<UserContentView>,
    right: Seq<UserContentView>,
    part: UserContentView,
    marker: Seq<char>,
)
    ensures
        content_parts(left + right, marker) == content_parts(left, marker) + content_parts(right, marker),
        part is Image ==> content_parts(seq![part], marker) == seq![
            JsonView::Object(
                map!["type"@ => JsonView::Str("media_marker"@), "text"@ => JsonView::Str(marker)],
            ),
        ],
        part is Text || part is Document ==> content_parts(seq![part], marker) == seq![
            JsonView::Object(
                map![
                    "type"@ => JsonView::Str("text"@),
                    "text"@ => JsonView::Str(user_texts(seq![part])[0]),
                ],
            ),
        ],
        part is ToolResult || part is Audio || part is Video ==> content_parts(seq![part], marker)
            == Seq::<JsonView>::empty(),
    decreases right.len(),
{
    reveal_with_fuel(user_texts, 2);
    reveal_with_fuel(content_parts, 2);
    assert(seq![part].drop_last() =~= Seq::empty());
    if right.len() == 0 {
        assert(left + right =~= left);
        assert(content_parts(left, marker) + content_parts(right, marker) =~= content_parts(left, marker));
    } else {
        assert((left + right).drop_last() =~= left + right.drop_last());
        law_parts_stand_in_the_place_of_the_content(left, right.drop_last(), part, marker);
        assert(content_parts(left + right, marker) =~= content_parts(left, marker) + content_parts(right, marker));
    }
}

/// The tool results of two lists of parts, one after the other, are those of the
/// first and then those of the second; no other part gives one.
pub proof fn law_every_tool_result_is_kept(
    left: Seq<UserContentView>,
    right: Seq<UserContentView>,
    part: UserContentView,
)
    ensures
        tool_results(left + right) == tool_results(left) + tool_results(right),
        part matches UserContentView::ToolResult(result) ==> tool_results(seq![part]) == seq![result],
        !(part is ToolResult) ==> tool_results(seq![part]) == Seq::<ToolResultView>::empty(),
    decreases right.len(),
{
    reveal_with_fuel(tool_results, 2);
    assert(seq![part].drop_last() =~= Seq::empty());
    if right.len() == 0 {
        assert(left + right =~= left);
        assert(tool_results(left) + tool_results(right) =~= tool_results(left));
    } else {
        assert((left + right).drop_last() =~= left + right.drop_last());
        law_every_tool_result_is_kept(left, right.drop_last(), part);
        assert(tool_results(left + right) =~= tool_results(left) + tool_results(right));
    }
}

/// Two lists of parts, one after the other, are normalized one after the other;
/// a text gives what is read from it, an image stays as it is.
pub proof fn law_normalizing_goes_part_by_part(
    left: Seq<ToolResultContentView>,
    right: Seq<ToolResultContentView>,
    part: ToolResultContentView,
)
    ensures
        normalized_parts(left + right) == normalized_parts(left) + normalized_parts(right),
        part matches ToolResultContentView::Text(text) ==> normalized_parts(seq![part])
            == tool_output_parts(text),
        part is Image ==> normalized_parts(seq![part]) == seq![part],
    decreases right.len(),
{
    reveal_with_fuel(normalized_parts, 2);
    assert(seq![part].drop_last() =~= Seq::empty());
    if right.len() == 0 {
        assert(left + right =~= left);
        assert(normalized_parts(left) + normalized_parts(right) =~= normalized_parts(left));
    } else {
        assert((left + right).drop_last() =~= left + right.drop_last());
        law_normalizing_goes_part_by_part(left, right.drop_last(), part);
        assert(normalized_parts(left + right) =~= normalized_parts(left) + normalized_parts(right));
    }
}

/// The texts of two lists of parts of a tool result, one after the other, are
/// those of the first and then those of the second; an image gives none.
pub proof fn law_result_texts_keep_their_order(
    left: Seq<ToolResultContentView>,
    right: Seq<ToolResultContentView>,
    part: ToolResultContentView,
)
    ensures
        part_texts(left + right) == part_texts(left) + part_texts(right),
        part matches ToolResultContentView::Text(text) ==> part_texts(seq![part]) == seq![text],
        part is Image ==> part_texts(seq![part]) == Seq::<Seq<char>>::empty(),
    decreases right.len(),
{
    reveal_with_fuel(part_texts, 2);
    assert(seq![part].drop_last() =~= Seq::empty());
    if right.len() == 0 {
        assert(left + right =~= left);
        assert(part_texts(left) + part_texts(right) =~= part_texts(left));
    } else {
        assert((left + right).drop_last() =~= left + right.drop_last());
        law_result_texts_keep_their_order(left, right.drop_last(), part);
        assert(part_texts(left + right) =~= part_texts(left) + part_texts(right));
    }
}

/// The images of two lists of parts of a tool result, one after the other, are
/// those of the first and then those of the second; a text gives none.
pub proof fn law_result_images_keep_their_order(
    left: Seq<ToolResultContentView>,
    right: Seq<ToolResultContentView>,
    part: ToolResultContentView,
)
    ensures
        part_images(left + right) == part_images(left) + part_images(right),
        part matches ToolResultContentView::Image(source) ==> part_images(seq![part]) == seq![source],
        part is Text ==> part_images(seq![part]) == Seq::<DocumentSourceView>::empty(),
    decreases right.len(),
{
    reveal_with_fuel(part_images, 2);
    assert(seq![part].drop_last() =~= Seq::empty());
    if right.len() == 0 {
        assert(left + right =~= left);
        assert(part_images(left) + part_images(right) =~= part_images(left));
    } else {
        assert((left + right).drop_last() =~= left + right.drop_last());
        law_result_images_keep_their_order(left, right.drop_last(), part);
        assert(part_images(left + right) =~= part_images(left) + part_images(right));
    }
}

/// The images of two lists of tool results, one after the other, are those of
/// the first and then those of the second.
pub proof fn law_images_of_results_keep_their_order(
    left: Seq<ToolResultView>,
    right: Seq<ToolResultView>,
    result: ToolResultView,
)
    ensures
        result_images(left + right) == result_images(left) + result_images(right),
        result_images(seq![result]) == part_images(normalized_parts(result.content)),
    decreases right.len(),
{
    reveal_with_fuel(result_images, 2);
    assert(seq![result].drop_last() =~= Seq::empty());
    if right.len() == 0 {
        assert(left + right =~= left);
        assert(result_images(left) + result_images(right) =~= result_images(left));
    } else {
        assert((left + right).drop_last() =~= left + right.drop_last());
        law_images_of_results_keep_their_order(left, right.drop_last(), result);
        assert(result_images(left + right) =~= result_images(left) + result_images(right));
    }
}

/// The texts of two lists of what the model said, one after the other, are those
/// of the first and then those of the second; calls, reasoning and images give none.
pub proof fn law_assistant_texts_keep_their_order(
    left: Seq<AssistantContentView>,
    right: Seq<AssistantContentView>,
    part: AssistantContentView,
)
    ensures
        assistant_texts(left + right) == assistant_texts(left) + assistant_texts(right),
        part matches AssistantContentView::Text(text) ==> assistant_texts(seq![part]) == seq![text],
        !(part is Text) ==> assistant_texts(seq![part]) == Seq::<Seq<char>>::empty(),
    decreases right.len(),
{
    reveal_with_fuel(assistant_texts, 2);
    assert(seq![part].drop_last() =~= Seq::empty());
    if right.len() == 0 {
        assert(left + right =~= left);
        assert(assistant_texts(left) + assistant_texts(right) =~= assistant_texts(left));
    } else {
        assert((left + right).drop_last() =~= left + right.drop_last());
        law_assistant_texts_keep_their_order(left, right.drop_last(), part);
        assert(assistant_texts(left + right) =~= assistant_texts(left) + assistant_texts(right));
    }
}

/// The calls of two lists of what the model said, one after the other, are those
/// of the first and then those of the second. A call keeps its identifier and its
/// name, and its arguments become JSON text.
pub proof fn law_every_assistant_call_is_kept(
    left: Seq<AssistantContentView>,
    right: Seq<AssistantContentView>,
    part: AssistantContentView,
)
    ensures
        assistant_calls(left + right) == assistant_calls(left) + assistant_calls(right),
        part matches AssistantContentView::ToolCall(call) ==> assistant_calls(seq![part]) == seq![
            JsonView::Object(
                map![
                    "id"@ => JsonView::Str(call.id),
                    "type"@ => JsonView::Str("function"@),
                    "function"@ => JsonView::Object(
                        map![
                            "name"@ => JsonView::Str(call.name),
                            "arguments"@ => JsonView::Str(argument_text(call.arguments)),
                        ],
                    ),
                ],
            ),
        ],
        !(part is ToolCall) ==> assistant_calls(seq![part]) == Seq::<JsonView>::empty(),
    decreases right.len(),
{
    reveal_with_fuel(assistant_calls, 2);
    assert(seq![part].drop_last() =~= Seq::empty());
    if right.len() == 0 {
        assert(left + right =~= left);
        assert(assistant_calls(left) + assistant_calls(right) =~= assistant_calls(left));
    } else {
        assert((left + right).drop_last() =~= left + right.drop_last());
        law_every_assistant_call_is_kept(left, right.drop_last(), part);
        assert(assistant_calls(left + right) =~= assistant_calls(left) + assistant_calls(right));
    }
}

/// Arguments that are no text reach the chat template as they are printed.
pub proof fn law_other_arguments_are_printed(arguments: JsonView)
    requires
        !(arguments is Str),
    ensures
        argument_text(arguments) == json_text(arguments),
{
}

/// What the user says becomes one message: its parts, where it holds an image
/// and images are read, and else the lines of its text; a message without
/// either is left out.
pub proof fn law_user_messages_hold_all_text(
    content: Seq<UserContentView>,
    marker: Option<Seq<char>>,
)
    ensures
        marker is Some && (exists|i: int|
            0 <= i < content.len() && (#[trigger] content[i]) is Image) ==> user_turn(
            content,
            marker,
        ) == seq![
            JsonView::Object(
                map![
                    "role"@ => JsonView::Str("user"@),
                    "content"@ => JsonView::Array(content_parts(content, marker->0)),
                ],
            ),
        ],
        marker is None || (forall|i: int|
            0 <= i < content.len() ==> !((#[trigger] content[i]) is Image)) ==> user_turn(
            content,
            marker,
        ) == if join(user_texts(content), "\n"@) == Seq::<char>::empty() {
            Seq::<JsonView>::empty()
        } else {
            seq![
                JsonView::Object(
                    map![
                        "role"@ => JsonView::Str("user"@),
                        "content"@ => JsonView::Str(join(user_texts(content), "\n"@)),
                    ],
                ),
            ]
        },
{
    let text = join(user_texts(content), "\n"@);
    if text.len() == 0 {
        assert(text =~= Seq::empty());
    }
}

/// Whether a message of the assistant makes these calls and says nothing.
pub open spec fn makes_calls(message: JsonView, calls: Seq<JsonView>) -> bool {
    message == JsonView::Object(
        map![
            "role"@ => JsonView::Str("assistant"@),
            "content"@ => JsonView::Null,
            "tool_calls"@ => JsonView::Array(calls),
        ],
    )
}

/// Whether a message of the user has these parts.
pub open spec fn shows_parts(message: JsonView, parts: Seq<JsonView>) -> bool {
    message == JsonView::Object(
        map!["role"@ => JsonView::Str("user"@), "content"@ => JsonView::Array(parts)],
    )
}

/// Every tool result becomes a message of its own, in order, that answers its
/// call under the provider's identifier, or else its own. A message in front
/// makes a call for each of them where the chat before makes none, and one
/// behind brings the images, with a marker for each, where images are read.
pub proof fn law_every_tool_result_is_answered(
    messages: Seq<JsonView>,
    results: Seq<ToolResultView>,
    marker: Option<Seq<char>>,
)
    requires
        results.len() > 0,
    ensures
        ({
            let turn = tool_turn(messages, results, marker);
            let called = messages.len() > 0 && (messages.last().get("tool_calls"@) matches Some(
                JsonView::Array(calls),
            ) && calls.len() > 0);
            let lead: int = if called {
                0
            } else {
                1
            };
            let count = result_images(results).len();
            let shown = marker is Some && count > 0;
            &&& turn.len() == lead + results.len() + if shown {
                1int
            } else {
                0
            }
            &&& forall|k: int|
                0 <= k < results.len() ==> #[trigger] turn[lead + k] == JsonView::Object(
                    map![
                        "role"@ => JsonView::Str("tool"@),
                        "tool_call_id"@ => JsonView::Str(
                            match results[k].call_id {
                                Some(call_id) => call_id,
                                None => results[k].id,
                            },
                        ),
                        "content"@ => JsonView::Str(tool_content(results[k], marker is Some)),
                    ],
                )
            &&& !called ==> exists|calls: Seq<JsonView>|
                #[trigger] makes_calls(turn[0], calls) && calls.len() == results.len() && forall|k: int|
                    0 <= k < results.len() ==> #[trigger] calls[k] == JsonView::Object(
                        map![
                            "id"@ => JsonView::Str(
                                match results[k].call_id {
                                    Some(call_id) => call_id,
                                    None => results[k].id,
                                },
                            ),
                            "type"@ => JsonView::Str("function"@),
                            "function"@ => JsonView::Object(
                                map![
                                    "name"@ => JsonView::Str(results[k].id),
                                    "arguments"@ => JsonView::Str("{}"@),
                                ],
                            ),
                        ],
                    )
            &&& shown ==> exists|parts: Seq<JsonView>|
                #[trigger] shows_parts(turn.last(), parts) && parts.len() == count + 1 && parts[0] == JsonView::Object(
                    map![
                        "type"@ => JsonView::Str("text"@),
                        "text"@ => JsonView::Str("Image(s) returned by the tool call above:"@),
                    ],
                ) && forall|k: int|
                    1 <= k <= count ==> #[trigger] parts[k] == JsonView::Object(
                        map![
                            "type"@ => JsonView::Str("media_marker"@),
                            "text"@ => JsonView::Str(marker->0),
                        ],
                    )
        }),
{
    let turn = tool_turn(messages, results, marker);
    let calls = call_turn(messages, results);
    let answers = results.map_values(|result: ToolResultView| tool_message(result, marker is Some));
    let images = image_turn(results, marker);
    assert(turn == calls + answers + images);
    assert forall|k: int| 0 <= k < results.len() implies #[trigger] turn[calls.len() + k]
        == tool_message(results[k], marker is Some) by {
        assert(turn[calls.len() + k] == answers[k]);
    }
    if !ends_with_calls(messages) {
        let made = results.map_values(|result: ToolResultView| synthetic_call(result));
        assert(turn[0] == synthetic_message(results));
        assert(makes_calls(turn[0], made));
    }
    if marker is Some && result_images(results).len() > 0 {
        let count = result_images(results).len();
        let parts = seq![message_part("text"@, "Image(s) returned by the tool call above:"@)]
            + Seq::new(count, |i: int| message_part("media_marker"@, marker->0));
        assert(turn.last() == parts_message(parts));
        assert(shows_parts(turn.last(), parts));
    }
}

/// What a tool result says is the lines of its text; only where images are
/// read, and it brings images and no text, a note that counts them stands in.
pub proof fn law_tool_results_say_their_text(result: ToolResultView)
    ensures
        tool_content(result, false) == join(part_texts(result.content), "\n"@),
        ({
            let parts = normalized_parts(result.content);
            let text = join(part_texts(parts), "\n"@);
            if text == Seq::<char>::empty() && part_images(parts).len() > 0 {
                tool_content(result, true) == "[returned "@ + decimal(part_images(parts).len())
                    + " image(s); see next message]"@
            } else {
                tool_content(result, true) == text
            }
        }),
{
    let text = join(part_texts(normalized_parts(result.content)), "\n"@);
    if text.len() == 0 {
        assert(text =~= Seq::empty());
    }
}

/// What the model said becomes one message with the lines of its text and its
/// calls, each `null` where there is none, and nothing where there is neither.
pub proof fn law_assistant_messages_hold_text_and_calls(content: Seq<AssistantContentView>)
    ensures
        ({
            let text = join(assistant_texts(content), "\n"@);
            let calls = assistant_calls(content);
            let said = text != Seq::<char>::empty();
            let called = calls != Seq::<JsonView>::empty();
            &&& !said && !called ==> assistant_turn(content) == Seq::<JsonView>::empty()
            &&& said || called ==> assistant_turn(content).len() == 1
            &&& said && called ==> assistant_turn(content)[0] == JsonView::Object(
                map![
                    "role"@ => JsonView::Str("assistant"@),
                    "content"@ => JsonView::Str(text),
                    "tool_calls"@ => JsonView::Array(calls),
                ],
            )
            &&& said && !called ==> assistant_turn(content)[0] == JsonView::Object(
                map![
                    "role"@ => JsonView::Str("assistant"@),
                    "content"@ => JsonView::Str(text),
                    "tool_calls"@ => JsonView::Null,
                ],
            )
            &&& !said && called ==> assistant_turn(content)[0] == JsonView::Object(
                map![
                    "role"@ => JsonView::Str("assistant"@),
                    "content"@ => JsonView::Null,
                    "tool_calls"@ => JsonView::Array(calls),
                ],
            )
        }),
{
    let text = join(assistant_texts(content), "\n"@);
    let calls = assistant_calls(content);
    if text.len() == 0 {
        assert(text =~= Seq::empty());
    }
    if calls.len() == 0 {
        assert(calls =~= Seq::empty());
    }
}

/// A message of the chat adds its own messages behind those that are there: one
/// for instructions, one at most for what the model said, and for a user what
/// they say in front of the tool results.
pub proof fn law_messages_are_added_behind(
    messages: Seq<JsonView>,
    message: MessageView,
    marker: Option<Seq<char>>,
)
    ensures
        messages.len() <= after_message(messages, message, marker).len(),
        after_message(messages, message, marker).take(messages.len() as int) == messages,
        message matches MessageView::System(text) ==> after_message(messages, message, marker).skip(
            messages.len() as int,
        ) == seq![
            JsonView::Object(
                map!["role"@ => JsonView::Str("system"@), "content"@ => JsonView::Str(text)],
            ),
        ],
        message matches MessageView::Assistant(content) ==> after_message(
            messages,
            message,
            marker,
        ).skip(messages.len() as int) == assistant_turn(content),
        message matches MessageView::User(content) ==> after_message(
            messages,
            message,
            marker,
        ).skip(messages.len() as int) == user_turn(content, marker) + tool_turn(
            messages + user_turn(content, marker),
            tool_results(content),
            marker,
        ),
        tool_turn(messages, Seq::empty(), marker) == Seq::<JsonView>::empty(),
{
    let after = after_message(messages, message, marker);
    assert(after.take(messages.len() as int) =~= messages);
    match message {
        MessageView::System(text) => {
            assert(after.skip(messages.len() as int) =~= seq![text_message("system"@, text)]);
        },
        MessageView::Assistant(content) => {
            assert(after.skip(messages.len() as int) =~= assistant_turn(content));
        },
        MessageView::User(content) => {
            let told = messages + user_turn(content, marker);
            assert(after.skip(messages.len() as int) =~= user_turn(content, marker) + tool_turn(
                told,
                tool_results(content),
                marker,
            ));
        },
    }
}

}

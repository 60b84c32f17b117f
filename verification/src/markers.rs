//! Images and their markers: every image of a chat has one marker in the
//! messages, and both come in the same order.
use crate::images::{
    direct_images, history_images, image_bytes, prepared_images,
};
use crate::json::JsonView;
use crate::message::{DocumentSourceView, MessageView, ToolResultView, UserContentView};
use crate::request::{
    after_history, document_parts, prepared_request, request_messages, system_text,
    CompletionRequest,
};
use crate::slot::fnv1a;
use crate::text::{option_view, views};
use crate::turns::{
    assistant_turn, call_turn, content_parts, has_image, image_message, image_turn, message_part,
    result_images, text_message, tool_message, tool_results,
    tool_turn, user_text_of, user_turn,
};
use vstd::prelude::*;
use vstd::string::*;

verus! {

/// Whether a part of a message is the marker of an image.
pub open spec fn is_marker(part: JsonView) -> bool {
    part.get_str("type"@) == Some("media_marker"@)
}

/// The number of markers among the parts of a message.
pub open spec fn markers_in(parts: Seq<JsonView>) -> nat
    decreases parts.len(),
{
    if parts.len() == 0 {
        0
    } else {
        markers_in(parts.drop_last()) + if is_marker(parts.last()) {
            1nat
        } else {
            0
        }
    }
}

/// The number of markers in a message.
pub open spec fn message_markers(message: JsonView) -> nat {
    match message.get_array("content"@) {
        Some(parts) => markers_in(parts),
        None => 0,
    }
}

/// The number of markers in a list of messages.
pub open spec fn media_markers(messages: Seq<JsonView>) -> nat
    decreases messages.len(),
{
    if messages.len() == 0 {
        0
    } else {
        media_markers(messages.drop_last()) + message_markers(messages.last())
    }
}

/// Markers of two lists of messages add up.
proof fn lemma_media_markers_add(left: Seq<JsonView>, right: Seq<JsonView>)
    ensures
        media_markers(left + right) == media_markers(left) + media_markers(right),
    decreases right.len(),
{
    if right.len() == 0 {
        assert(left + right =~= left);
    } else {
        assert((left + right).drop_last() =~= left + right.drop_last());
        lemma_media_markers_add(left, right.drop_last());
    }
}

/// A part is the marker of an image where its kind says so.
proof fn lemma_message_part(kind: Seq<char>, text: Seq<char>)
    ensures
        is_marker(message_part(kind, text)) == (kind == "media_marker"@),
{
    reveal_strlit("type");
    reveal_strlit("text");
    assert("type"@[1] != "text"@[1]);
}

/// The parts of a user message hold one marker for each of its own images.
proof fn lemma_content_parts(content: Seq<UserContentView>, marker: Seq<char>)
    ensures
        markers_in(content_parts(content, marker)) == direct_images(content).len(),
    decreases content.len(),
{
    if content.len() > 0 {
        let before = content_parts(content.drop_last(), marker);
        lemma_content_parts(content.drop_last(), marker);
        reveal_strlit("text");
        reveal_strlit("media_marker");
        assert("text"@.len() != "media_marker"@.len());
        match content.last() {
            UserContentView::Image(_) => {
                lemma_message_part("media_marker"@, marker);
                assert(before.push(message_part("media_marker"@, marker)).drop_last() =~= before);
            },
            other => {
                if let Some(text) = user_text_of(other) {
                    lemma_message_part("text"@, text);
                    assert(before.push(message_part("text"@, text)).drop_last() =~= before);
                }
            },
        }
    }
}

/// A message without an image of its own has none in its list either.
proof fn lemma_no_direct_images(content: Seq<UserContentView>)
    requires
        !has_image(content),
    ensures
        direct_images(content).len() == 0,
    decreases content.len(),
{
    if content.len() > 0 {
        let before = content.drop_last();
        if has_image(before) {
            let i = choose|i: int| 0 <= i < before.len() && (#[trigger] before[i]) is Image;
            assert(content[i] is Image);
        }
        assert(!(content[content.len() - 1] is Image));
        lemma_no_direct_images(before);
    }
}

/// The message for what the user says holds one marker for each of its images.
proof fn lemma_user_turn_markers(content: Seq<UserContentView>, marker: Seq<char>)
    ensures
        media_markers(user_turn(content, Some(marker))) == direct_images(content).len(),
{
    reveal_with_fuel(media_markers, 2);
    if has_image(content) {
        lemma_content_parts(content, marker);
    } else {
        lemma_no_direct_images(content);
    }
}

/// The message that brings `count` images holds as many markers.
proof fn lemma_image_message_markers(count: nat, marker: Seq<char>)
    ensures
        message_markers(image_message(count, marker)) == count,
    decreases count,
{
    let header = message_part("text"@, "Image(s) returned by the tool call above:"@);
    let part = message_part("media_marker"@, marker);
    let parts = seq![header] + Seq::new(count, |i: int| part);
    reveal_strlit("text");
    reveal_strlit("media_marker");
    assert("text"@.len() != "media_marker"@.len());
    if count == 0 {
        reveal_with_fuel(markers_in, 2);
        assert(parts =~= seq![header]);
        lemma_message_part("text"@, "Image(s) returned by the tool call above:"@);
    } else {
        let fewer = (count - 1) as nat;
        lemma_image_message_markers(fewer, marker);
        lemma_message_part("media_marker"@, marker);
        assert(parts.drop_last() =~= seq![header] + Seq::new(fewer, |i: int| part));
        assert(Seq::new(fewer, |i: int| part) =~= Seq::new(
            fewer,
            |i: int| message_part("media_marker"@, marker),
        ));
        assert(parts.last() == part);
    }
    assert(Seq::new(count, |i: int| part) =~= Seq::new(
        count,
        |i: int| message_part("media_marker"@, marker),
    ));
}

/// The messages for tool results hold no markers.
proof fn lemma_tool_message_markers(results: Seq<ToolResultView>, multimodal: bool)
    ensures
        media_markers(
            results.map_values(|result: ToolResultView| tool_message(result, multimodal)),
        ) == 0,
    decreases results.len(),
{
    let messages = results.map_values(|result: ToolResultView| tool_message(result, multimodal));
    if results.len() > 0 {
        let before = results.drop_last();
        lemma_tool_message_markers(before, multimodal);
        assert(messages.drop_last() =~= before.map_values(
            |result: ToolResultView| tool_message(result, multimodal),
        ));
    }
}

/// The messages for tool results hold one marker for each of their images.
proof fn lemma_tool_turn_markers(
    messages: Seq<JsonView>,
    results: Seq<ToolResultView>,
    marker: Seq<char>,
)
    ensures
        media_markers(tool_turn(messages, results, Some(marker))) == result_images(results).len(),
{
    reveal_with_fuel(media_markers, 2);
    reveal_strlit("content");
    reveal_strlit("tool_calls");
    assert("content"@.len() != "tool_calls"@.len());
    if results.len() > 0 {
        let calls = call_turn(messages, results);
        let told = results.map_values(|result: ToolResultView| tool_message(result, true));
        let images = image_turn(results, Some(marker));
        assert(results.map_values(|result: ToolResultView| tool_message(result, Some(marker) is Some))
            =~= told);
        lemma_tool_message_markers(results, true);
        lemma_image_message_markers(result_images(results).len(), marker);
        lemma_media_markers_add(calls, told);
        lemma_media_markers_add(calls + told, images);
        assert(media_markers(calls) == 0);
        assert(media_markers(images) == result_images(results).len());
    }
}

/// Where images are read, the messages of a chat hold exactly one marker for
/// each image of the chat.
pub proof fn law_every_image_has_a_marker(
    messages: Seq<JsonView>,
    history: Seq<MessageView>,
    marker: Seq<char>,
)
    ensures
        media_markers(after_history(messages, history, Some(marker))) == media_markers(messages)
            + history_images(history).len(),
    decreases history.len(),
{
    if history.len() > 0 {
        let before = after_history(messages, history.drop_last(), Some(marker));
        law_every_image_has_a_marker(messages, history.drop_last(), marker);
        match history.last() {
            MessageView::User(content) => {
                let turn = user_turn(content, Some(marker));
                lemma_media_markers_add(before, turn);
                lemma_user_turn_markers(content, marker);
                lemma_media_markers_add(
                    before + turn,
                    tool_turn(before + turn, tool_results(content), Some(marker)),
                );
                lemma_tool_turn_markers(before + turn, tool_results(content), marker);
            },
            MessageView::Assistant(content) => {
                reveal_with_fuel(media_markers, 2);
                reveal_strlit("content");
                reveal_strlit("tool_calls");
                assert("content"@.len() != "tool_calls"@.len());
                lemma_media_markers_add(before, assistant_turn(content));
            },
            MessageView::System(text) => {
                assert(before.push(text_message("system"@, text)).drop_last() =~= before);
            },
        }
    }
}

/// For each part of a user message with images, the image that it was written
/// for: nothing for a text, and the image itself for the marker in its place.
pub open spec fn content_labels(content: Seq<UserContentView>) -> Seq<Option<DocumentSourceView>>
    decreases content.len(),
{
    if content.len() == 0 {
        Seq::empty()
    } else {
        let before = content_labels(content.drop_last());
        match content.last() {
            UserContentView::Image(source) => before.push(Some(source)),
            other => match user_text_of(other) {
                Some(_) => before.push(None),
                None => before,
            },
        }
    }
}

/// The labels of messages that have no parts.
pub open spec fn no_labels(count: nat) -> Seq<Seq<Option<DocumentSourceView>>> {
    Seq::new(count, |i: int| Seq::empty())
}

/// For each part of the message for what the user says, the image that it was
/// written for.
pub open spec fn user_labels(content: Seq<UserContentView>, marker: Seq<char>) -> Seq<
    Seq<Option<DocumentSourceView>>,
> {
    if has_image(content) {
        seq![content_labels(content)]
    } else {
        no_labels(user_turn(content, Some(marker)).len())
    }
}

/// For each part of the message that brings the images of tool results, the
/// image that it was written for: nothing for its line of text, and then the
/// images in order.
pub open spec fn image_labels(images: Seq<DocumentSourceView>) -> Seq<Option<DocumentSourceView>> {
    seq![None] + images.map_values(|image: DocumentSourceView| Some(image))
}

/// For each part of the messages for tool results, the image that it was
/// written for. Only the last of these messages has parts.
pub open spec fn tool_labels(messages: Seq<JsonView>, results: Seq<ToolResultView>) -> Seq<
    Seq<Option<DocumentSourceView>>,
> {
    if results.len() == 0 {
        Seq::empty()
    } else {
        no_labels(call_turn(messages, results).len() + results.len()) + if result_images(
            results,
        ).len() > 0 {
            seq![image_labels(result_images(results))]
        } else {
            Seq::empty()
        }
    }
}

/// For each part of the messages of a chat after `messages`, which have none,
/// the image that it was written for.
pub open spec fn chat_labels(
    messages: Seq<JsonView>,
    history: Seq<MessageView>,
    marker: Seq<char>,
) -> Seq<Seq<Option<DocumentSourceView>>>
    decreases history.len(),
{
    if history.len() == 0 {
        no_labels(messages.len())
    } else {
        let before = after_history(messages, history.drop_last(), Some(marker));
        chat_labels(messages, history.drop_last(), marker) + match history.last() {
            MessageView::User(content) => user_labels(content, marker) + tool_labels(
                before + user_turn(content, Some(marker)),
                tool_results(content),
            ),
            MessageView::Assistant(content) => no_labels(assistant_turn(content).len()),
            MessageView::System(_) => no_labels(1),
        }
    }
}

/// Whether the markers of a message are exactly those of its parts that are
/// labelled with an image.
pub open spec fn labels_fit(message: JsonView, labels: Seq<Option<DocumentSourceView>>) -> bool {
    match message.get_array("content"@) {
        Some(parts) => parts_fit(parts, labels),
        None => labels.len() == 0,
    }
}

/// Whether the markers among `parts` are exactly those that are labelled with
/// an image.
pub open spec fn parts_fit(parts: Seq<JsonView>, labels: Seq<Option<DocumentSourceView>>) -> bool {
    &&& labels.len() == parts.len()
    &&& forall|j: int| 0 <= j < parts.len() ==> is_marker(#[trigger] parts[j]) == (labels[j] is Some)
}

/// Whether the labels of each message fit.
pub open spec fn all_fit(
    messages: Seq<JsonView>,
    labels: Seq<Seq<Option<DocumentSourceView>>>,
) -> bool {
    &&& labels.len() == messages.len()
    &&& forall|i: int| 0 <= i < messages.len() ==> labels_fit(#[trigger] messages[i], labels[i])
}

/// The images among the labels of a message, in the order of its parts.
pub open spec fn labelled_in(labels: Seq<Option<DocumentSourceView>>) -> Seq<DocumentSourceView>
    decreases labels.len(),
{
    if labels.len() == 0 {
        Seq::empty()
    } else {
        match labels.last() {
            Some(image) => labelled_in(labels.drop_last()).push(image),
            None => labelled_in(labels.drop_last()),
        }
    }
}

/// The images among the labels of all messages, in order.
pub open spec fn labelled_images(labels: Seq<Seq<Option<DocumentSourceView>>>) -> Seq<
    DocumentSourceView,
>
    decreases labels.len(),
{
    if labels.len() == 0 {
        Seq::empty()
    } else {
        labelled_images(labels.drop_last()) + labelled_in(labels.last())
    }
}

/// The images of two lists of labels follow one another.
proof fn lemma_labelled_add(
    left: Seq<Seq<Option<DocumentSourceView>>>,
    right: Seq<Seq<Option<DocumentSourceView>>>,
)
    ensures
        labelled_images(left + right) == labelled_images(left) + labelled_images(right),
    decreases right.len(),
{
    if right.len() == 0 {
        assert(left + right =~= left);
        assert(labelled_images(left) + labelled_images(right) =~= labelled_images(left));
    } else {
        assert((left + right).drop_last() =~= left + right.drop_last());
        lemma_labelled_add(left, right.drop_last());
        assert(labelled_images(left + right) =~= labelled_images(left) + labelled_images(right));
    }
}

/// Messages without parts are labelled with no image.
proof fn lemma_no_labels(count: nat)
    ensures
        labelled_images(no_labels(count)) == Seq::<DocumentSourceView>::empty(),
    decreases count,
{
    if count > 0 {
        let fewer = (count - 1) as nat;
        lemma_no_labels(fewer);
        assert(no_labels(count).drop_last() =~= no_labels(fewer));
        assert(labelled_images(no_labels(count)) =~= Seq::empty());
    }
}

/// One message is labelled with the images among its labels.
proof fn lemma_labelled_one(labels: Seq<Option<DocumentSourceView>>)
    ensures
        labelled_images(seq![labels]) == labelled_in(labels),
{
    let one = seq![labels];
    assert(one.drop_last() =~= Seq::empty());
    reveal_with_fuel(labelled_images, 2);
    assert(labelled_images(one) =~= labelled_in(labels));
}

/// The markers among the parts of a user message are labelled with its own
/// images, in order.
proof fn lemma_content_labels(content: Seq<UserContentView>, marker: Seq<char>)
    ensures
        parts_fit(content_parts(content, marker), content_labels(content)),
        labelled_in(content_labels(content)) == direct_images(content),
    decreases content.len(),
{
    if content.len() > 0 {
        let parts = content_parts(content.drop_last(), marker);
        let labels = content_labels(content.drop_last());
        lemma_content_labels(content.drop_last(), marker);
        lemma_message_part("media_marker"@, marker);
        reveal_strlit("text");
        reveal_strlit("media_marker");
        assert("text"@.len() != "media_marker"@.len());
        match content.last() {
            UserContentView::Image(source) => {
                assert(labels.push(Some(source)).drop_last() =~= labels);
            },
            other => {
                if let Some(text) = user_text_of(other) {
                    lemma_message_part("text"@, text);
                    assert(labels.push(None).drop_last() =~= labels);
                }
            },
        }
    }
}

/// The labels of the message for what the user says fit, and hold its own
/// images in order.
proof fn lemma_user_labels(content: Seq<UserContentView>, marker: Seq<char>)
    ensures
        all_fit(user_turn(content, Some(marker)), user_labels(content, marker)),
        labelled_images(user_labels(content, marker)) == direct_images(content),
{
    lemma_content_labels(content, marker);
    if has_image(content) {
        lemma_labelled_one(content_labels(content));
    } else {
        lemma_no_direct_images(content);
        lemma_no_labels(user_turn(content, Some(marker)).len());
        assert(direct_images(content) =~= Seq::empty());
    }
}

/// The labels of the message that brings the images of tool results hold these
/// images in order.
proof fn lemma_image_labels(images: Seq<DocumentSourceView>)
    ensures
        labelled_in(image_labels(images)) == images,
    decreases images.len(),
{
    let labels = image_labels(images);
    if images.len() == 0 {
        reveal_with_fuel(labelled_in, 2);
        assert(labels =~= seq![None]);
        assert(labelled_in(labels) =~= images);
    } else {
        lemma_image_labels(images.drop_last());
        assert(labels.drop_last() =~= image_labels(images.drop_last()));
        assert(labels.last() == Some(images.last()));
        assert(images.drop_last().push(images.last()) =~= images);
    }
}

/// The labels of the messages for tool results fit, and hold their images in order.
proof fn lemma_tool_labels(messages: Seq<JsonView>, results: Seq<ToolResultView>, marker: Seq<char>)
    ensures
        all_fit(tool_turn(messages, results, Some(marker)), tool_labels(messages, results)),
        labelled_images(tool_labels(messages, results)) == result_images(results),
{
    reveal_strlit("content");
    reveal_strlit("tool_calls");
    assert("content"@.len() != "tool_calls"@.len());
    if results.len() > 0 {
        let calls = call_turn(messages, results);
        let told = results.map_values(
            |result: ToolResultView| tool_message(result, Some(marker) is Some),
        );
        let images = result_images(results);
        let turn = tool_turn(messages, results, Some(marker));
        let labels = tool_labels(messages, results);
        let plain = (calls.len() + results.len()) as nat;
        lemma_no_labels(plain);
        assert forall|i: int| 0 <= i < turn.len() implies labels_fit(
            #[trigger] turn[i],
            labels[i],
        ) by {
            if i < plain {
                assert(turn[i] == (calls + told)[i]);
            } else {
                let parts = image_message(images.len(), marker).get_array("content"@)->0;
                assert(turn[i] == image_message(images.len(), marker));
                assert(labels[i] == image_labels(images));
                lemma_message_part("media_marker"@, marker);
                lemma_message_part("text"@, "Image(s) returned by the tool call above:"@);
                reveal_strlit("text");
                reveal_strlit("media_marker");
                assert("text"@.len() != "media_marker"@.len());
                assert(parts_fit(parts, image_labels(images)));
            }
        }
        if images.len() > 0 {
            lemma_labelled_add(no_labels(plain), seq![image_labels(images)]);
            lemma_labelled_one(image_labels(images));
            lemma_image_labels(images);
            assert(labelled_images(labels) =~= images);
        } else {
            assert(labels =~= no_labels(plain));
            assert(images =~= Seq::empty());
        }
    } else {
        assert(result_images(results) =~= Seq::empty());
    }
}

/// Labels that fit two lists of messages fit both together.
proof fn lemma_all_fit_add(
    messages: Seq<JsonView>,
    labels: Seq<Seq<Option<DocumentSourceView>>>,
    more: Seq<JsonView>,
    more_labels: Seq<Seq<Option<DocumentSourceView>>>,
)
    requires
        all_fit(messages, labels),
        all_fit(more, more_labels),
    ensures
        all_fit(messages + more, labels + more_labels),
{
    let n = messages.len() as int;
    assert forall|i: int| 0 <= i < (messages + more).len() implies labels_fit(
        #[trigger] (messages + more)[i],
        (labels + more_labels)[i],
    ) by {
        if i < n {
            assert(labels_fit(messages[i], labels[i]));
        } else {
            assert(labels_fit(more[i - n], more_labels[i - n]));
        }
    }
}

/// Every marker in the messages of a chat stands for an image: the parts that
/// are markers are exactly those written for one, and in the order of these
/// markers their images are the images of the chat, as they are collected.
pub proof fn law_each_marker_has_its_image(
    messages: Seq<JsonView>,
    history: Seq<MessageView>,
    marker: Seq<char>,
)
    requires
        forall|i: int|
            0 <= i < messages.len() ==> (#[trigger] messages[i]).get_array("content"@) is None,
    ensures
        all_fit(
            after_history(messages, history, Some(marker)),
            chat_labels(messages, history, marker),
        ),
        labelled_images(chat_labels(messages, history, marker)) == history_images(
            history,
        ).map_values(|image: (bool, DocumentSourceView)| image.1),
    decreases history.len(),
{
    let sources = |image: (bool, DocumentSourceView)| image.1;
    let labels = chat_labels(messages, history, marker);
    if history.len() == 0 {
        lemma_no_labels(messages.len());
        assert(history_images(history).map_values(sources) =~= Seq::empty());
    } else {
        let earlier = history.drop_last();
        let before = after_history(messages, earlier, Some(marker));
        let before_labels = chat_labels(messages, earlier, marker);
        law_each_marker_has_its_image(messages, earlier, marker);
        match history.last() {
            MessageView::User(content) => {
                let turn = user_turn(content, Some(marker));
                let results = tool_results(content);
                let own = user_labels(content, marker);
                let tools = tool_labels(before + turn, results);
                lemma_user_labels(content, marker);
                lemma_tool_labels(before + turn, results, marker);
                lemma_all_fit_add(before, before_labels, turn, own);
                lemma_all_fit_add(
                    before + turn,
                    before_labels + own,
                    tool_turn(before + turn, results, Some(marker)),
                    tools,
                );
                assert(labels =~= before_labels + own + tools);
                lemma_labelled_add(before_labels, own);
                lemma_labelled_add(before_labels + own, tools);
                assert(labelled_images(labels) =~= history_images(history).map_values(sources));
            },
            MessageView::Assistant(content) => {
                reveal_strlit("content");
                reveal_strlit("tool_calls");
                assert("content"@.len() != "tool_calls"@.len());
                let turn = assistant_turn(content);
                assert(all_fit(turn, no_labels(turn.len())));
                lemma_all_fit_add(before, before_labels, turn, no_labels(turn.len()));
                lemma_no_labels(turn.len());
                lemma_labelled_add(before_labels, no_labels(turn.len()));
                assert(labelled_images(labels) =~= history_images(history).map_values(sources));
            },
            MessageView::System(text) => {
                let turn = seq![text_message("system"@, text)];
                assert(all_fit(turn, no_labels(1)));
                lemma_all_fit_add(before, before_labels, turn, no_labels(1));
                assert(before + turn =~= before.push(text_message("system"@, text)));
                lemma_no_labels(1);
                lemma_labelled_add(before_labels, no_labels(1));
                assert(labelled_images(labels) =~= history_images(history).map_values(sources));
            },
        }
    }
}

/// Messages that were written stay as they are while the chat goes on.
pub proof fn law_messages_are_only_appended(
    messages: Seq<JsonView>,
    history: Seq<MessageView>,
    marker: Option<Seq<char>>,
)
    ensures
        messages.is_prefix_of(after_history(messages, history, marker)),
    decreases history.len(),
{
    if history.len() > 0 {
        law_messages_are_only_appended(messages, history.drop_last(), marker);
        assert(messages =~= after_history(messages, history, marker).take(messages.len() as int));
    }
}

/// Every image of a list is prepared in its place, where none fails.
proof fn lemma_prepared_in_place(images: Seq<(bool, DocumentSourceView)>)
    ensures
        prepared_images(images) matches Ok(prepared) ==> {
            &&& prepared.len() == images.len()
            &&& forall|k: int|
                0 <= k < images.len() ==> image_bytes((#[trigger] images[k]).1) == Ok::<
                    Seq<u8>,
                    Seq<char>,
                >(prepared[k].bytes) && prepared[k].hash == fnv1a(prepared[k].bytes)
        },
    decreases images.len(),
{
    if images.len() > 0 && prepared_images(images) is Ok {
        let before = images.drop_last();
        let prepared = prepared_images(images)->Ok_0;
        lemma_prepared_in_place(before);
        assert forall|k: int| 0 <= k < images.len() implies image_bytes((#[trigger] images[k]).1)
            == Ok::<Seq<u8>, Seq<char>>(prepared[k].bytes) && prepared[k].hash == fnv1a(
            prepared[k].bytes,
        ) by {
            if k < before.len() {
                assert(before[k] == images[k]);
            }
        }
    }
}

/// The instructions of a request, as the message that comes before its chat.
pub open spec fn instructions(request: CompletionRequest) -> Seq<JsonView> {
    let system = system_text(
        option_view(request.preamble),
        document_parts(views(request.documents@)),
    );
    if system.len() == 0 {
        Seq::empty()
    } else {
        seq![text_message("system"@, system)]
    }
}

/// For each part of the messages of a request, the image that it was written for.
pub open spec fn request_labels(request: CompletionRequest, marker: Seq<char>) -> Seq<
    Seq<Option<DocumentSourceView>>,
> {
    chat_labels(instructions(request), views(request.chat_history@), marker)
}

/// The markers in the messages of a prepared request are exactly the parts that
/// were written for an image, there are as many as the request has images, and
/// in the place of each marker the request has the bytes of the image that it
/// was written for, with their hash.
pub proof fn law_images_match_markers(request: CompletionRequest, marker: Seq<char>)
    ensures
        all_fit(request_messages(request, Some(marker)), request_labels(request, marker)),
        prepared_request(request, Some(marker)) matches Ok(prepared) ==> {
            let marked = labelled_images(request_labels(request, marker));
            &&& prepared.images.len() == media_markers(request_messages(request, Some(marker)))
            &&& prepared.images.len() == marked.len()
            &&& forall|k: int|
                0 <= k < marked.len() ==> image_bytes(#[trigger] marked[k]) == Ok::<
                    Seq<u8>,
                    Seq<char>,
                >(prepared.images[k].bytes) && prepared.images[k].hash == fnv1a(
                    prepared.images[k].bytes,
                )
        },
{
    let history = views(request.chat_history@);
    let start = instructions(request);
    reveal_with_fuel(media_markers, 2);
    assert(media_markers(start) == 0);
    law_every_image_has_a_marker(start, history, marker);
    law_each_marker_has_its_image(start, history, marker);
    lemma_prepared_in_place(history_images(history));
    let sources = history_images(history).map_values(|image: (bool, DocumentSourceView)| image.1);
    assert forall|k: int| 0 <= k < sources.len() implies #[trigger] sources[k] == history_images(
        history,
    )[k].1 by {}
}

}

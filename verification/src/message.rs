//! The chat messages that a completion request carries.
use crate::json::{Json, JsonView};
use crate::text::{option_view, views};
use vstd::prelude::*;

verus! {

/// Where the data of a document or an image comes from.
pub enum DocumentSource {
    /// A file URL or URI.
    Url(String),
    /// Base64 text.
    Base64(String),
    /// The identifier of an uploaded file.
    FileId(String),
    /// Raw bytes.
    Raw(Vec<u8>),
    /// Plain text.
    Text(String),
    /// Nothing is known of the source.
    Unknown,
}

/// The view of a [`DocumentSource`].
pub enum DocumentSourceView {
    Url(Seq<char>),
    Base64(Seq<char>),
    FileId(Seq<char>),
    Raw(Seq<u8>),
    Text(Seq<char>),
    Unknown,
}

impl View for DocumentSource {
    type V = DocumentSourceView;

    open spec fn view(&self) -> DocumentSourceView {
        match self {
            DocumentSource::Url(text) => DocumentSourceView::Url(text@),
            DocumentSource::Base64(text) => DocumentSourceView::Base64(text@),
            DocumentSource::FileId(text) => DocumentSourceView::FileId(text@),
            DocumentSource::Raw(bytes) => DocumentSourceView::Raw(bytes@),
            DocumentSource::Text(text) => DocumentSourceView::Text(text@),
            DocumentSource::Unknown => DocumentSourceView::Unknown,
        }
    }
}

impl Clone for DocumentSource {
    fn clone(&self) -> (copy: Self)
        ensures
            copy@ == self@,
    {
        match self {
            DocumentSource::Url(text) => DocumentSource::Url(text.clone()),
            DocumentSource::Base64(text) => DocumentSource::Base64(text.clone()),
            DocumentSource::FileId(text) => DocumentSource::FileId(text.clone()),
            DocumentSource::Raw(bytes) => {
                let copy = bytes.clone();
                assert(copy@ =~= bytes@);
                DocumentSource::Raw(copy)
            },
            DocumentSource::Text(text) => DocumentSource::Text(text.clone()),
            DocumentSource::Unknown => DocumentSource::Unknown,
        }
    }
}

/// One part of what a tool returned.
pub enum ToolResultContent {
    /// Text.
    Text(String),
    /// An image.
    Image(DocumentSource),
}

/// The view of a [`ToolResultContent`].
pub enum ToolResultContentView {
    Text(Seq<char>),
    Image(DocumentSourceView),
}

impl View for ToolResultContent {
    type V = ToolResultContentView;

    open spec fn view(&self) -> ToolResultContentView {
        match self {
            ToolResultContent::Text(text) => ToolResultContentView::Text(text@),
            ToolResultContent::Image(source) => ToolResultContentView::Image(source@),
        }
    }
}

/// The answer of a tool to a call.
pub struct ToolResult {
    /// The identifier of the call.
    pub id: String,
    /// The provider's identifier of the call, where it differs from `id`.
    pub call_id: Option<String>,
    /// What the tool returned.
    pub content: Vec<ToolResultContent>,
}

/// The view of a [`ToolResult`].
pub struct ToolResultView {
    pub id: Seq<char>,
    pub call_id: Option<Seq<char>>,
    pub content: Seq<ToolResultContentView>,
}

impl View for ToolResult {
    type V = ToolResultView;

    open spec fn view(&self) -> ToolResultView {
        ToolResultView {
            id: self.id@,
            call_id: option_view(self.call_id),
            content: views(self.content@),
        }
    }
}

/// One part of a user message.
pub enum UserContent {
    /// Plain text.
    Text(String),
    /// The answer of a tool.
    ToolResult(ToolResult),
    /// An image.
    Image(DocumentSource),
    /// Sound, which the local models do not read.
    Audio,
    /// A film, which the local models do not read.
    Video,
    /// A document.
    Document(DocumentSource),
}

/// The view of a [`UserContent`].
pub enum UserContentView {
    Text(Seq<char>),
    ToolResult(ToolResultView),
    Image(DocumentSourceView),
    Audio,
    Video,
    Document(DocumentSourceView),
}

impl View for UserContent {
    type V = UserContentView;

    open spec fn view(&self) -> UserContentView {
        match self {
            UserContent::Text(text) => UserContentView::Text(text@),
            UserContent::ToolResult(result) => UserContentView::ToolResult(result@),
            UserContent::Image(source) => UserContentView::Image(source@),
            UserContent::Audio => UserContentView::Audio,
            UserContent::Video => UserContentView::Video,
            UserContent::Document(source) => UserContentView::Document(source@),
        }
    }
}

/// A call of a tool that the model asks for.
pub struct ToolCall {
    /// The identifier of the call.
    pub id: String,
    /// The name of the tool.
    pub name: String,
    /// The arguments of the call.
    pub arguments: Json,
}

/// The view of a [`ToolCall`].
pub struct ToolCallView {
    pub id: Seq<char>,
    pub name: Seq<char>,
    pub arguments: JsonView,
}

impl View for ToolCall {
    type V = ToolCallView;

    open spec fn view(&self) -> ToolCallView {
        ToolCallView { id: self.id@, name: self.name@, arguments: self.arguments@ }
    }
}

/// One part of what the model says.
pub enum AssistantContent {
    /// Plain text.
    Text(String),
    /// A call of a tool.
    ToolCall(ToolCall),
    /// The model's reasoning.
    Reasoning(String),
    /// An image.
    Image,
}

/// The view of an [`AssistantContent`].
pub enum AssistantContentView {
    Text(Seq<char>),
    ToolCall(ToolCallView),
    Reasoning(Seq<char>),
    Image,
}

impl View for AssistantContent {
    type V = AssistantContentView;

    open spec fn view(&self) -> AssistantContentView {
        match self {
            AssistantContent::Text(text) => AssistantContentView::Text(text@),
            AssistantContent::ToolCall(call) => AssistantContentView::ToolCall(call@),
            AssistantContent::Reasoning(text) => AssistantContentView::Reasoning(text@),
            AssistantContent::Image => AssistantContentView::Image,
        }
    }
}

/// One message of a chat.
pub enum Message {
    /// Instructions to the model.
    System(String),
    /// What the user says.
    User(Vec<UserContent>),
    /// What the model said.
    Assistant(Vec<AssistantContent>),
}

/// The view of a [`Message`].
pub enum MessageView {
    System(Seq<char>),
    User(Seq<UserContentView>),
    Assistant(Seq<AssistantContentView>),
}

impl View for Message {
    type V = MessageView;

    open spec fn view(&self) -> MessageView {
        match self {
            Message::System(text) => MessageView::System(text@),
            Message::User(content) => MessageView::User(views(content@)),
            Message::Assistant(content) => MessageView::Assistant(views(content@)),
        }
    }
}

/// What a tool result, a call, or a part of a message shows is what it holds:
/// every field of its own, under the same kind.
pub proof fn law_messages_show_what_they_hold(
    result: ToolResult,
    call: ToolCall,
    part: UserContent,
    said: AssistantContent,
)
    ensures
        result@.id == result.id@,
        result@.call_id is Some <==> result.call_id is Some,
        result.call_id is Some ==> result@.call_id->0 == result.call_id->0@,
        result@.content.len() == result.content@.len(),
        forall|k: int|
            0 <= k < result.content@.len() ==> #[trigger] result@.content[k] == result.content@[k]@,
        call@.id == call.id@,
        call@.name == call.name@,
        call@.arguments == call.arguments@,
        part matches UserContent::Text(text) ==> part@ == UserContentView::Text(text@),
        part matches UserContent::ToolResult(answer) ==> part@ == UserContentView::ToolResult(answer@),
        part matches UserContent::Image(source) ==> part@ == UserContentView::Image(source@),
        part matches UserContent::Document(source) ==> part@ == UserContentView::Document(source@),
        part is Audio ==> part@ is Audio,
        part is Video ==> part@ is Video,
        said matches AssistantContent::Text(text) ==> said@ == AssistantContentView::Text(text@),
        said matches AssistantContent::ToolCall(made) ==> said@ == AssistantContentView::ToolCall(
            made@,
        ),
        said matches AssistantContent::Reasoning(text) ==> said@ == AssistantContentView::Reasoning(
            text@,
        ),
        said is Image ==> said@ is Image,
{
}

/// What a source, a part of a tool result, or a message shows is what it holds.
pub proof fn law_sources_show_what_they_hold(
    source: DocumentSource,
    part: ToolResultContent,
    message: Message,
)
    ensures
        source matches DocumentSource::Url(text) ==> source@ == DocumentSourceView::Url(text@),
        source matches DocumentSource::Base64(text) ==> source@ == DocumentSourceView::Base64(text@),
        source matches DocumentSource::FileId(text) ==> source@ == DocumentSourceView::FileId(text@),
        source matches DocumentSource::Raw(bytes) ==> source@ == DocumentSourceView::Raw(bytes@),
        source matches DocumentSource::Text(text) ==> source@ == DocumentSourceView::Text(text@),
        source is Unknown ==> source@ is Unknown,
        part matches ToolResultContent::Text(text) ==> part@ == ToolResultContentView::Text(text@),
        part matches ToolResultContent::Image(image) ==> part@ == ToolResultContentView::Image(image@),
        message matches Message::System(text) ==> message@ == MessageView::System(text@),
        message matches Message::User(content) ==> message@ == MessageView::User(views(content@)),
        message matches Message::Assistant(content) ==> message@ == MessageView::Assistant(
            views(content@),
        ),
{
}

}

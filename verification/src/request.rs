//! Requests: chat messages, tools and images in the form the chat template takes.
use crate::images::{
    collect_history_images, history_images, prepare_images, prepared_images, quoted,
    PreparedImage, PreparedImageView,
};
use crate::json::{json_text, lemma_items_view, schema_text, Json, JsonView};
use crate::message::{
    DocumentSource, DocumentSourceView, Message, MessageView, UserContent, UserContentView,
};
use crate::text::{
    join, join_texts, law_joins_put_separators_between, option_view, option_views, result_view, views,
};
use crate::turns::{after_message, append_message_json, make_text_message, text_message};
use vstd::prelude::*;
use vstd::string::*;
use vstd::utf8::*;

verus! {

/// A document that is put before the model with the instructions.
pub struct Document {
    /// The identifier of the document.
    pub id: String,
    /// The text of the document.
    pub text: String,
    /// Further properties, by name; of two with the same name the later counts.
    pub additional_props: Vec<(String, String)>,
}

/// The view of a [`Document`].
pub struct DocumentView {
    pub id: Seq<char>,
    pub text: Seq<char>,
    pub additional_props: Map<Seq<char>, Seq<char>>,
}

/// The properties that a list of entries gives.
pub open spec fn properties(entries: Seq<(String, String)>) -> Map<Seq<char>, Seq<char>>
    decreases entries.len(),
{
    if entries.len() == 0 {
        Map::empty()
    } else {
        properties(entries.drop_last()).insert(entries.last().0@, entries.last().1@)
    }
}

impl View for Document {
    type V = DocumentView;

    open spec fn view(&self) -> DocumentView {
        DocumentView {
            id: self.id@,
            text: self.text@,
            additional_props: properties(self.additional_props@),
        }
    }
}

/// A tool that the model may call.
pub struct ToolDefinition {
    /// The name of the tool.
    pub name: String,
    /// What the tool is for.
    pub description: String,
    /// The JSON schema of its arguments.
    pub parameters: Json,
}

/// The view of a [`ToolDefinition`].
pub struct ToolDefinitionView {
    pub name: Seq<char>,
    pub description: Seq<char>,
    pub parameters: JsonView,
}

impl View for ToolDefinition {
    type V = ToolDefinitionView;

    open spec fn view(&self) -> ToolDefinitionView {
        ToolDefinitionView {
            name: self.name@,
            description: self.description@,
            parameters: self.parameters@,
        }
    }
}

/// Whether the model is to call a tool.
pub enum ToolChoice {
    /// The model decides.
    Auto,
    /// No tool is called.
    Never,
    /// Some tool is called.
    Required,
    /// One of the named tools is called.
    Specific(Vec<String>),
}

/// A JSON schema: an object, or a boolean.
pub struct Schema {
    json: Json,
}

impl View for Schema {
    type V = JsonView;

    closed spec fn view(&self) -> JsonView {
        self.json@
    }
}

impl Schema {
    /// What can be a schema.
    #[verifier::type_invariant]
    spec fn inv(self) -> bool {
        self.json@ is Object || self.json@ is Bool
    }

    /// The schema that `json` is, where it is one.
    pub fn new(json: Json) -> (schema: Option<Self>)
        ensures
            schema is Some <==> json@ is Object || json@ is Bool,
            schema matches Some(schema) ==> schema@ == json@,
    {
        if json.is_object() || json.as_bool().is_some() {
            Some(Schema { json })
        } else {
            None
        }
    }

    /// Prints the schema.
    pub fn print(&self) -> (text: String)
        ensures
            text@ == schema_text(self@),
    {
        proof {
            use_type_invariant(self);
        }
        self.json.print_schema()
    }
}

/// A request for a completion.
pub struct CompletionRequest {
    /// Instructions to the model.
    pub preamble: Option<String>,
    /// The chat so far, the prompt last.
    pub chat_history: Vec<Message>,
    /// Documents to put before the model.
    pub documents: Vec<Document>,
    /// The tools that the model may call.
    pub tools: Vec<ToolDefinition>,
    /// Whether the model is to call one.
    pub tool_choice: Option<ToolChoice>,
    /// Further parameters, as a JSON object.
    pub additional_params: Option<Json>,
    /// The JSON schema that the answer has to meet.
    pub output_schema: Option<Schema>,
}

/// A request in the form the chat template takes.
pub struct PreparedRequest {
    /// The messages, as a JSON array.
    pub messages_json: String,
    /// The tools, as a JSON array.
    pub tools_json: Option<String>,
    /// Whether the model is to call a tool.
    pub tool_choice: Option<String>,
    /// The JSON schema of the answer.
    pub json_schema: Option<String>,
    /// Whether the model is to reason before it answers.
    pub enable_thinking: bool,
    /// The images, in the order of their markers.
    pub images: Vec<PreparedImage>,
}

/// The view of a [`PreparedRequest`].
pub struct PreparedRequestView {
    pub messages_json: Seq<char>,
    pub tools_json: Option<Seq<char>>,
    pub tool_choice: Option<Seq<char>>,
    pub json_schema: Option<Seq<char>>,
    pub enable_thinking: bool,
    pub images: Seq<PreparedImageView>,
}

impl View for PreparedRequest {
    type V = PreparedRequestView;

    open spec fn view(&self) -> PreparedRequestView {
        PreparedRequestView {
            messages_json: self.messages_json@,
            tools_json: option_view(self.tools_json),
            tool_choice: option_view(self.tool_choice),
            json_schema: option_view(self.json_schema),
            enable_thinking: self.enable_thinking,
            images: views(self.images@),
        }
    }
}

/// `std::str::from_utf8` decodes the bytes where they are valid UTF-8, and
/// fails where they are not.
#[verifier::external_body]
fn decode_strict(bytes: &Vec<u8>) -> (text: Option<String>)
    ensures
        match text {
            Some(text) => valid_utf8(bytes@) && text@ == decode_utf8(bytes@),
            None => !valid_utf8(bytes@),
        },
{
    std::str::from_utf8(bytes).ok().map(|text| text.to_string())
}

/// Whether `left` comes before `right` where texts are ordered by their
/// characters.
pub open spec fn precedes(left: Seq<char>, right: Seq<char>) -> bool
    decreases left.len(),
{
    right.len() > 0 && (left.len() == 0 || left[0] < right[0] || (left[0] == right[0] && precedes(
        left.drop_first(),
        right.drop_first(),
    )))
}

/// Whether each name comes before those after it.
pub open spec fn sorted(names: Seq<Seq<char>>) -> bool {
    forall|i: int, j: int|
        0 <= i < j < names.len() ==> precedes(#[trigger] names[i], #[trigger] names[j])
}

/// Whether `names` lists the names of the properties, sorted.
pub open spec fn lists_names(names: Seq<Seq<char>>, props: Map<Seq<char>, Seq<char>>) -> bool {
    sorted(names) && names.to_set() == props.dom()
}

/// The properties in the order of their names, each as its name and its quoted text.
pub open spec fn metadata(props: Map<Seq<char>, Seq<char>>) -> Seq<char> {
    let names = choose|names: Seq<Seq<char>>| lists_names(names, props);
    join(names.map_values(|name: Seq<char>| name + ": "@ + quoted(props[name])), " "@)
}

/// A document as it is put before the model: its properties on a line of their
/// own, where it has any, and its text, between a line that opens the file and
/// one that closes it.
pub open spec fn document_rendering(document: DocumentView) -> Seq<char> {
    let lead = if document.additional_props.dom() == Set::<Seq<char>>::empty() {
        Seq::empty()
    } else {
        "<metadata "@ + metadata(document.additional_props) + " />\n"@
    };
    "<file id: "@ + document.id + ">\n"@ + lead + document.text + "\n</file>\n"@
}

/// `Document::to_string` of `rig_core` writes the document with its identifier,
/// its properties, sorted by name, and its text. It writes the text of a
/// property as `str`'s `Debug` does.
#[verifier::external_body]
fn render_document(document: &Document) -> (text: String)
    ensures
        text@ == document_rendering(document@),
{
    rig_core::completion::Document {
        id: document.id.clone(),
        text: document.text.clone(),
        additional_props: document.additional_props.iter().cloned().collect(),
    }.to_string()
}

/// Of two texts at most one comes before the other.
proof fn lemma_precedes_one_way(left: Seq<char>, right: Seq<char>)
    ensures
        !(precedes(left, right) && precedes(right, left)),
    decreases left.len(),
{
    if left.len() > 0 && right.len() > 0 {
        lemma_precedes_one_way(left.drop_first(), right.drop_first());
    }
}

/// Two sorted lists of the same names are the same.
proof fn lemma_one_sorted_list(left: Seq<Seq<char>>, right: Seq<Seq<char>>)
    requires
        sorted(left),
        sorted(right),
        left.to_set() == right.to_set(),
    ensures
        left == right,
    decreases left.len(),
{
    if left.len() == 0 {
        if right.len() > 0 {
            assert(right.to_set().contains(right[0]));
            assert(left.contains(right[0]));
        }
    } else {
        assert(right.contains(left.last())) by {
            assert(left.to_set().contains(left[left.len() - 1]));
        }
        assert(left.contains(right.last())) by {
            assert(right.to_set().contains(right[right.len() - 1]));
        }
        let i = choose|i: int| 0 <= i < left.len() && left[i] == right.last();
        let j = choose|j: int| 0 <= j < right.len() && right[j] == left.last();
        lemma_precedes_one_way(left.last(), right.last());
        assert(left.last() == right.last()) by {
            if i < left.len() - 1 && j < right.len() - 1 {
                assert(precedes(left[i], left[left.len() - 1]));
                assert(precedes(right[j], right[right.len() - 1]));
            }
        }
        lemma_dropping_last_name(left);
        lemma_dropping_last_name(right);
        lemma_one_sorted_list(left.drop_last(), right.drop_last());
        assert(left =~= left.drop_last().push(left.last()));
        assert(right =~= right.drop_last().push(right.last()));
    }
}

/// A sorted list without its last name has all the other names, and is sorted.
proof fn lemma_dropping_last_name(names: Seq<Seq<char>>)
    requires
        sorted(names),
        names.len() > 0,
    ensures
        sorted(names.drop_last()),
        names.drop_last().to_set() == names.to_set().remove(names.last()),
{
    let before = names.drop_last();
    assert forall|i: int, j: int| 0 <= i < j < before.len() implies precedes(
        #[trigger] before[i],
        #[trigger] before[j],
    ) by {
        assert(precedes(names[i], names[j]));
    }
    assert forall|name: Seq<char>| #[trigger] before.to_set().contains(name)
        == names.to_set().remove(names.last()).contains(name) by {
        if before.contains(name) {
            let i = choose|i: int| 0 <= i < before.len() && before[i] == name;
            assert(names[i] == name);
            assert(precedes(names[i], names[names.len() - 1]));
            lemma_precedes_one_way(names[i], names[i]);
        }
        if names.contains(name) && name != names.last() {
            let i = choose|i: int| 0 <= i < names.len() && names[i] == name;
            assert(before[i] == name);
        }
    }
    assert(before.to_set() =~= names.to_set().remove(names.last()));
}

/// The properties of a document have one order: any sorted list of their names
/// is the one in which they are written.
pub proof fn law_properties_have_one_order(
    names: Seq<Seq<char>>,
    props: Map<Seq<char>, Seq<char>>,
)
    requires
        lists_names(names, props),
    ensures
        metadata(props) == join(
            names.map_values(|name: Seq<char>| name + ": "@ + quoted(props[name])),
            " "@,
        ),
{
    let chosen = choose|names: Seq<Seq<char>>| lists_names(names, props);
    lemma_one_sorted_list(names, chosen);
}

/// Whether `params` asks the model to reason: the boolean under `reasoning`,
/// or, where there is nothing under that, the one under `thinking`.
pub open spec fn thinking_requested(params: JsonView) -> bool {
    let asked = match params.get("reasoning"@) {
        Some(reasoning) => Some(reasoning),
        None => params.get("thinking"@),
    };
    match asked {
        Some(value) => value.as_bool() == Some(true),
        None => false,
    }
}

/// Decides [`thinking_requested`].
pub fn has_thinking_request(params: &Json) -> (requested: bool)
    ensures
        requested == thinking_requested(params@),
{
    let asked = match params.get("reasoning") {
        Some(reasoning) => Some(reasoning),
        None => params.get("thinking"),
    };
    match asked {
        Some(value) => match value.as_bool() {
            Some(enabled) => enabled,
            None => false,
        },
        None => false,
    }
}

/// The documents as parts of a user message, where there are any: each is a
/// document whose text is its rendering.
pub open spec fn document_parts(documents: Seq<DocumentView>) -> Option<Seq<UserContentView>> {
    if documents.len() == 0 {
        None
    } else {
        Some(
            documents.map_values(
                |document: DocumentView|
                    UserContentView::Document(
                        DocumentSourceView::Text(
                            document_rendering(document),
                        ),
                    ),
            ),
        )
    }
}

/// Computes [`document_parts`].
pub fn normalized_documents(documents: &Vec<Document>) -> (content: Option<Vec<UserContent>>)
    ensures
        option_views(content) == document_parts(views(documents@)),
{
    if documents.len() == 0 {
        return None;
    }
    let ghost all = document_parts(views(documents@))->0;
    let mut content: Vec<UserContent> = Vec::new();
    assert(views(content@) =~= all.take(0));
    let mut i: usize = 0;
    while i < documents.len()
        invariant
            i <= documents@.len(),
            documents@.len() > 0,
            all == document_parts(views(documents@))->0,
            views(content@) == all.take(i as int),
        decreases documents@.len() - i,
    {
        broadcast use crate::text::lemma_views_push;

        assert(views(documents@)[i as int] == documents@[i as int]@);
        assert(all.take(i + 1) =~= all.take(i as int).push(all[i as int]));
        content.push(
            UserContent::Document(DocumentSource::Text(render_document(&documents[i]))),
        );
        i = i + 1;
    }
    assert(all.take(i as int) =~= all);
    Some(content)
}

/// The text of a part among the documents, where it has one. Unlike within a
/// message, a file identifier counts as text, and bytes that are no valid
/// UTF-8 count as empty.
pub open spec fn context_text_of(content: UserContentView) -> Option<Seq<char>> {
    match content {
        UserContentView::Text(text) => Some(text),
        UserContentView::Document(source) => Some(
            match source {
                DocumentSourceView::Url(text) => text,
                DocumentSourceView::Base64(text) => text,
                DocumentSourceView::FileId(text) => text,
                DocumentSourceView::Raw(bytes) => if valid_utf8(bytes) {
                    decode_utf8(bytes)
                } else {
                    Seq::empty()
                },
                DocumentSourceView::Text(text) => text,
                DocumentSourceView::Unknown => Seq::empty(),
            },
        ),
        _ => None,
    }
}

/// Computes [`context_text_of`].
fn context_text(content: &UserContent) -> (text: Option<String>)
    ensures
        option_view(text) == context_text_of(content@),
{
    match content {
        UserContent::Text(text) => Some(text.clone()),
        UserContent::Document(source) => Some(
            match source {
                DocumentSource::Url(text) => text.clone(),
                DocumentSource::Base64(text) => text.clone(),
                DocumentSource::FileId(text) => text.clone(),
                DocumentSource::Raw(bytes) => match decode_strict(bytes) {
                    Some(text) => text,
                    None => String::new(),
                },
                DocumentSource::Text(text) => text.clone(),
                DocumentSource::Unknown => String::new(),
            },
        ),
        _ => None,
    }
}

/// The texts of the parts among the documents, in order.
pub open spec fn context_texts(content: Seq<UserContentView>) -> Seq<Seq<char>>
    decreases content.len(),
{
    if content.len() == 0 {
        Seq::empty()
    } else {
        let before = context_texts(content.drop_last());
        match context_text_of(content.last()) {
            Some(text) => before.push(text),
            None => before,
        }
    }
}

/// The instructions to the model: the preamble, and after an empty line the
/// texts of the documents in lines. Of two parts the empty one is left out.
pub open spec fn system_text(
    preamble: Option<Seq<char>>,
    documents: Option<Seq<UserContentView>>,
) -> Seq<char> {
    let instructions = match preamble {
        Some(text) => text,
        None => Seq::empty(),
    };
    let context = match documents {
        Some(content) => join(context_texts(content), "\n"@),
        None => Seq::empty(),
    };
    if context.len() == 0 {
        instructions
    } else if instructions.len() == 0 {
        context
    } else {
        instructions + "\n\n"@ + context
    }
}

/// Computes [`system_text`].
pub fn system_prompt(preamble: Option<&str>, documents: Option<&Vec<UserContent>>) -> (text: String)
    ensures
        text@ == system_text(
            option_view(preamble),
            match documents {
                Some(content) => Some(views(content@)),
                None => None,
            },
        ),
{
    let mut system = match preamble {
        Some(text) => text.to_owned(),
        None => String::new(),
    };
    if let Some(content) = documents {
        let ghost all = views(content@);
        let mut texts: Vec<String> = Vec::new();
        assert(views(texts@) =~= Seq::empty());
        let mut i: usize = 0;
        while i < content.len()
            invariant
                i <= content@.len(),
                all == views(content@),
                views(texts@) == context_texts(all.take(i as int)),
            decreases content@.len() - i,
        {
            broadcast use crate::text::lemma_views_push;

            assert(all.take(i + 1).drop_last() =~= all.take(i as int));
            assert(all.take(i + 1).last() == content@[i as int]@);
            if let Some(text) = context_text(&content[i]) {
                texts.push(text);
            }
            i = i + 1;
        }
        assert(all.take(i as int) =~= all);
        let context = join_texts(&texts, "\n");
        if !context.as_str().is_empty() {
            if !system.as_str().is_empty() {
                system.append("\n\n");
                system.append(context.as_str());
            } else {
                system = context;
            }
        }
    }
    system
}

/// A tool as the chat template takes it.
pub open spec fn tool_json(tool: ToolDefinitionView) -> JsonView {
    JsonView::Object(
        map![
            "type"@ => JsonView::Str("function"@),
            "function"@ => JsonView::Object(
                map![
                    "name"@ => JsonView::Str(tool.name),
                    "description"@ => JsonView::Str(tool.description),
                    "parameters"@ => tool.parameters,
                ],
            ),
        ],
    )
}

/// The tools as the chat template takes them.
pub open spec fn tool_list(tools: Seq<ToolDefinitionView>) -> Seq<JsonView> {
    tools.map_values(|tool: ToolDefinitionView| tool_json(tool))
}

/// The tools as a JSON array, where there are any.
pub open spec fn tools_text(tools: Seq<ToolDefinitionView>) -> Option<Seq<char>> {
    if tools.len() == 0 {
        None
    } else {
        Some(json_text(JsonView::Array(tool_list(tools))))
    }
}

/// Computes [`tools_text`].
fn print_tools(tools: &Vec<ToolDefinition>) -> (text: Option<String>)
    ensures
        option_view(text) == tools_text(views(tools@)),
{
    if tools.len() == 0 {
        return None;
    }
    let items = list_tools(tools);
    proof {
        lemma_items_view(items@);
    }
    Some(Json::Array(items).print())
}

/// Computes [`tool_list`].
pub fn list_tools(tools: &Vec<ToolDefinition>) -> (items: Vec<Json>)
    ensures
        views(items@) == tool_list(views(tools@)),
{
    let ghost all = views(tools@).map_values(|tool: ToolDefinitionView| tool_json(tool));
    let mut items: Vec<Json> = Vec::new();
    assert(views(items@) =~= all.take(0));
    let mut i: usize = 0;
    while i < tools.len()
        invariant
            i <= tools@.len(),
            all == views(tools@).map_values(|tool: ToolDefinitionView| tool_json(tool)),
            views(items@) == all.take(i as int),
        decreases tools@.len() - i,
    {
        broadcast use crate::text::lemma_views_push;

        let tool = &tools[i];
        assert(views(tools@)[i as int] == tool@);
        assert(all.take(i + 1) =~= all.take(i as int).push(all[i as int]));
        let function = Json::empty_object().with("name", Json::Str(tool.name.clone())).with(
            "description",
            Json::Str(tool.description.clone()),
        ).with("parameters", tool.parameters.clone());
        items.push(
            Json::empty_object().with("type", Json::Str("function".to_owned())).with(
                "function",
                function,
            ),
        );
        i = i + 1;
    }
    assert(all.take(i as int) =~= all);
    items
}

/// The messages after a whole chat.
pub open spec fn after_history(
    messages: Seq<JsonView>,
    history: Seq<MessageView>,
    marker: Option<Seq<char>>,
) -> Seq<JsonView>
    decreases history.len(),
{
    if history.len() == 0 {
        messages
    } else {
        after_message(after_history(messages, history.drop_last(), marker), history.last(), marker)
    }
}

/// The messages of a chat after these instructions, where there are any.
pub open spec fn instructed_messages(
    system: Seq<char>,
    history: Seq<MessageView>,
    marker: Option<Seq<char>>,
) -> Seq<JsonView> {
    after_history(
        if system.len() == 0 {
            Seq::empty()
        } else {
            seq![text_message("system"@, system)]
        },
        history,
        marker,
    )
}

/// Builds [`instructed_messages`].
pub fn build_messages(system: String, history: &Vec<Message>, marker: Option<&str>) -> (messages:
    Vec<Json>)
    ensures
        views(messages@) == instructed_messages(system@, views(history@), option_view(marker)),
{
    broadcast use crate::text::lemma_views_push;

    let ghost instructions = system@;
    let mut messages: Vec<Json> = Vec::new();
    assert(views(messages@) =~= Seq::empty());
    if !system.as_str().is_empty() {
        messages.push(make_text_message("system", system));
    }
    let ghost start = views(messages@);
    assert(instructions.len() > 0 ==> start =~= seq![text_message("system"@, instructions)]);
    let ghost all = views(history@);
    let mut i: usize = 0;
    assert(all.take(0) =~= Seq::empty());
    while i < history.len()
        invariant
            i <= history@.len(),
            all == views(history@),
            views(messages@) == after_history(start, all.take(i as int), option_view(marker)),
        decreases history@.len() - i,
    {
        assert(all.take(i + 1).drop_last() =~= all.take(i as int));
        assert(all.take(i + 1).last() == history@[i as int]@);
        append_message_json(&mut messages, &history[i], marker);
        i = i + 1;
    }
    assert(all.take(i as int) =~= all);
    messages
}

/// The messages of a request: the instructions, where there are any, and the chat.
pub open spec fn request_messages(request: CompletionRequest, marker: Option<Seq<char>>) -> Seq<
    JsonView,
> {
    let system = system_text(
        option_view(request.preamble),
        document_parts(views(request.documents@)),
    );
    instructed_messages(system, views(request.chat_history@), marker)
}

/// The images of a request; without a marker images are not read.
pub open spec fn request_images(request: CompletionRequest, marker: Option<Seq<char>>) -> Seq<
    (bool, DocumentSourceView),
> {
    if marker is Some {
        history_images(views(request.chat_history@))
    } else {
        Seq::empty()
    }
}

/// What a tool choice is called; one of specific tools cannot be asked for.
pub open spec fn choice_text(choice: Option<ToolChoice>) -> Result<Option<Seq<char>>, Seq<char>> {
    match choice {
        None => Ok(None),
        Some(ToolChoice::Auto) => Ok(Some("auto"@)),
        Some(ToolChoice::Never) => Ok(Some("none"@)),
        Some(ToolChoice::Required) => Ok(Some("required"@)),
        Some(ToolChoice::Specific(_)) => Err(
            "Specific tool choice is not supported by local llama adapter"@,
        ),
    }
}

/// The prepared form of `request`. It fails where specific tools are asked for,
/// and else where the bytes of an image cannot be had.
pub open spec fn prepared_request(request: CompletionRequest, marker: Option<Seq<char>>) -> Result<
    PreparedRequestView,
    Seq<char>,
> {
    match choice_text(request.tool_choice) {
        Err(error) => Err(error),
        Ok(tool_choice) => match prepared_images(request_images(request, marker)) {
            Err(error) => Err(error),
            Ok(images) => Ok(
                PreparedRequestView {
                    messages_json: json_text(JsonView::Array(request_messages(request, marker))),
                    tools_json: tools_text(views(request.tools@)),
                    tool_choice,
                    json_schema: match request.output_schema {
                        Some(schema) => Some(schema_text(schema@)),
                        None => None,
                    },
                    enable_thinking: match request.additional_params {
                        Some(params) => thinking_requested(params@),
                        None => false,
                    },
                    images,
                },
            ),
        },
    }
}

/// Prepares `request`. `marker` is what stands for an image in a prompt;
/// without it images are not read.
pub fn prepare_request(request: &CompletionRequest, marker: Option<&str>) -> (prepared: Result<
    PreparedRequest,
    String,
>)
    ensures
        result_view(prepared) == prepared_request(*request, option_view(marker)),
{
    let documents = normalized_documents(&request.documents);
    let preamble: Option<&str> = match &request.preamble {
        Some(text) => Some(text.as_str()),
        None => None,
    };
    let system = system_prompt(preamble, documents.as_ref());
    let messages = build_messages(system, &request.chat_history, marker);
    let tools_json = print_tools(&request.tools);
    let tool_choice = match &request.tool_choice {
        None => None,
        Some(ToolChoice::Auto) => Some("auto".to_owned()),
        Some(ToolChoice::Never) => Some("none".to_owned()),
        Some(ToolChoice::Required) => Some("required".to_owned()),
        Some(ToolChoice::Specific(_)) => {
            return Err("Specific tool choice is not supported by local llama adapter".to_owned());
        },
    };
    let json_schema = match &request.output_schema {
        Some(schema) => Some(schema.print()),
        None => None,
    };
    let sources = if marker.is_some() {
        collect_history_images(&request.chat_history)
    } else {
        Vec::new()
    };
    assert(views(sources@) =~= request_images(*request, option_view(marker)));
    let images = match prepare_images(sources) {
        Ok(images) => images,
        Err(error) => {
            return Err(error);
        },
    };
    let enable_thinking = match &request.additional_params {
        Some(params) => has_thinking_request(params),
        None => false,
    };
    proof {
        lemma_items_view(messages@);
    }
    let messages_json = Json::Array(messages).print();
    Ok(
        PreparedRequest {
            messages_json,
            tools_json,
            tool_choice,
            json_schema,
            enable_thinking,
            images,
        },
    )
}

/// The tools of a request are all listed, in order, each as a function with its
/// own name, its own description and its own parameters.
pub proof fn law_every_tool_is_listed_in_full(tools: Seq<ToolDefinition>)
    ensures
        tool_list(views(tools)).len() == tools.len(),
        forall|k: int|
            0 <= k < tools.len() ==> {
                &&& #[trigger] tool_list(views(tools))[k] matches JsonView::Object(item)
                &&& item.dom() == set!["type"@, "function"@]
                &&& item["type"@] == JsonView::Str("function"@)
                &&& item["function"@] matches JsonView::Object(function)
                &&& function.dom() == set!["name"@, "description"@, "parameters"@]
                &&& function["name"@] == JsonView::Str(tools[k].name@)
                &&& function["description"@] == JsonView::Str(tools[k].description@)
                &&& function["parameters"@] == tools[k].parameters@
            },
        tools_text(views(tools)) is None <==> tools.len() == 0,
        tools_text(views(tools)) is Some ==> tools_text(views(tools))->0 == json_text(
            JsonView::Array(tool_list(views(tools))),
        ),
{
    reveal_strlit("type");
    reveal_strlit("function");
    reveal_strlit("name");
    reveal_strlit("description");
    reveal_strlit("parameters");
    assert("type"@.len() == 4 && "function"@.len() == 8);
    assert("name"@.len() == 4 && "description"@.len() == 11 && "parameters"@.len() == 10);
    assert forall|k: int| 0 <= k < tools.len() implies {
        &&& #[trigger] tool_list(views(tools))[k] matches JsonView::Object(item)
        &&& item.dom() == set!["type"@, "function"@]
        &&& item["type"@] == JsonView::Str("function"@)
        &&& item["function"@] matches JsonView::Object(function)
        &&& function.dom() == set!["name"@, "description"@, "parameters"@]
        &&& function["name"@] == JsonView::Str(tools[k].name@)
        &&& function["description"@] == JsonView::Str(tools[k].description@)
        &&& function["parameters"@] == tools[k].parameters@
    } by {
        let item = tool_json(tools[k]@)->Object_0;
        let function = item["function"@]->Object_0;
        assert(tool_list(views(tools))[k] == tool_json(tools[k]@));
        assert(item.dom() =~= set!["type"@, "function"@]);
        assert(function.dom() =~= set!["name"@, "description"@, "parameters"@]);
    }
}

/// The texts of two lists of parts among the documents, one after the other, are
/// those of the first and then those of the second. A text and a document give one
/// each, where bytes that are no text and an unknown document count as empty; other
/// parts give none.
pub proof fn law_context_texts_keep_their_order(
    left: Seq<UserContentView>,
    right: Seq<UserContentView>,
    part: UserContentView,
)
    ensures
        context_texts(left + right) == context_texts(left) + context_texts(right),
        part matches UserContentView::Text(text) ==> context_texts(seq![part]) == seq![text],
        part matches UserContentView::Document(DocumentSourceView::Url(text)) ==> context_texts(
            seq![part],
        ) == seq![text],
        part matches UserContentView::Document(DocumentSourceView::Base64(text)) ==> context_texts(
            seq![part],
        ) == seq![text],
        part matches UserContentView::Document(DocumentSourceView::FileId(text)) ==> context_texts(
            seq![part],
        ) == seq![text],
        part matches UserContentView::Document(DocumentSourceView::Text(text)) ==> context_texts(
            seq![part],
        ) == seq![text],
        part matches UserContentView::Document(DocumentSourceView::Raw(bytes)) ==> context_texts(
            seq![part],
        ) == seq![if valid_utf8(bytes) { decode_utf8(bytes) } else { Seq::empty() }],
        part == UserContentView::Document(DocumentSourceView::Unknown) ==> context_texts(seq![part])
            == seq![Seq::<char>::empty()],
        !(part is Text) && !(part is Document) ==> context_texts(seq![part]) == Seq::<Seq<char>>::empty(),
    decreases right.len(),
{
    reveal_with_fuel(context_texts, 2);
    assert(seq![part].drop_last() =~= Seq::empty());
    if right.len() == 0 {
        assert(left + right =~= left);
        assert(context_texts(left) + context_texts(right) =~= context_texts(left));
    } else {
        assert((left + right).drop_last() =~= left + right.drop_last());
        law_context_texts_keep_their_order(left, right.drop_last(), part);
        assert(context_texts(left + right) =~= context_texts(left) + context_texts(right));
    }
}

/// A text that is joined from parts is empty only where its first part is.
proof fn lemma_join_nonempty(parts: Seq<Seq<char>>, separator: Seq<char>)
    requires
        parts.len() > 0,
        parts[0].len() > 0,
    ensures
        join(parts, separator).len() > 0,
{
    if parts.len() > 1 {
        assert(seq![parts[0]] + parts.drop_first() =~= parts);
        law_joins_put_separators_between(
            seq![parts[0]],
            parts.drop_first(),
            parts[0],
            separator,
        );
    }
}

/// Every document of a request is put before the model, in order, in lines
/// behind the preamble and an empty line; without documents the preamble stands
/// alone, and without a preamble the documents do.
pub proof fn law_instructions_hold_preamble_and_documents(
    preamble: Seq<char>,
    documents: Seq<DocumentView>,
    renderings: Seq<Seq<char>>,
)
    requires
        renderings.len() == documents.len(),
        forall|k: int|
            0 <= k < documents.len() ==> #[trigger] renderings[k] == document_rendering(documents[k]),
    ensures
        documents.len() == 0 ==> system_text(Some(preamble), document_parts(documents)) == preamble
            && system_text(None, document_parts(documents)) == Seq::<char>::empty(),
        documents.len() > 0 ==> system_text(None, document_parts(documents)) == join(
            renderings,
            "\n"@,
        ),
        documents.len() > 0 && preamble.len() > 0 ==> system_text(
            Some(preamble),
            document_parts(documents),
        ) == preamble + "\n\n"@ + join(renderings, "\n"@),
        documents.len() > 0 && preamble.len() == 0 ==> system_text(
            Some(preamble),
            document_parts(documents),
        ) == join(renderings, "\n"@),
{
    if documents.len() > 0 {
        let parts = document_parts(documents)->0;
        lemma_context_of_documents(documents);
        assert(context_texts(parts) =~= renderings);
        reveal_strlit("<file id: ");
        assert(renderings[0].len() > 0) by {
            assert(renderings[0] == document_rendering(documents[0]));
        }
        lemma_join_nonempty(renderings, "\n"@);
    }
}

/// The texts of documents are their renderings.
proof fn lemma_context_of_documents(documents: Seq<DocumentView>)
    requires
        documents.len() > 0,
    ensures
        context_texts(document_parts(documents)->0).len() == documents.len(),
        forall|k: int|
            0 <= k < documents.len() ==> #[trigger] context_texts(document_parts(documents)->0)[k]
                == document_rendering(documents[k]),
    decreases documents.len(),
{
    let parts = document_parts(documents)->0;
    if documents.len() == 1 {
        reveal_with_fuel(context_texts, 2);
        assert(parts.drop_last() =~= Seq::empty());
    } else {
        lemma_context_of_documents(documents.drop_last());
        assert(parts.drop_last() =~= document_parts(documents.drop_last())->0);
    }
}

/// Instructions that are not empty come first, as a system message; then the
/// messages of the chat are added, one after the other.
pub proof fn law_the_chat_follows_the_instructions(
    system: Seq<char>,
    left: Seq<MessageView>,
    right: Seq<MessageView>,
    message: MessageView,
    messages: Seq<JsonView>,
    marker: Option<Seq<char>>,
)
    ensures
        instructed_messages(Seq::empty(), Seq::empty(), marker) == Seq::<JsonView>::empty(),
        system.len() > 0 ==> instructed_messages(system, Seq::empty(), marker) == seq![
            JsonView::Object(
                map!["role"@ => JsonView::Str("system"@), "content"@ => JsonView::Str(system)],
            ),
        ],
        instructed_messages(system, left.push(message), marker) == after_message(
            instructed_messages(system, left, marker),
            message,
            marker,
        ),
        after_history(messages, left + right, marker) == after_history(
            after_history(messages, left, marker),
            right,
            marker,
        ),
        after_history(messages, Seq::empty(), marker) == messages,
        after_history(messages, seq![message], marker) == after_message(messages, message, marker),
    decreases right.len(),
{
    reveal_with_fuel(after_history, 2);
    assert(left.push(message).drop_last() =~= left);
    assert(seq![message].drop_last() =~= Seq::empty());
    if right.len() == 0 {
        assert(left + right =~= left);
    } else {
        assert((left + right).drop_last() =~= left + right.drop_last());
        law_the_chat_follows_the_instructions(
            system,
            left,
            right.drop_last(),
            message,
            messages,
            marker,
        );
    }
}

/// Reasoning is asked for exactly where `reasoning` is `true`, or where there is
/// no `reasoning` and `thinking` is `true`.
pub proof fn law_reasoning_is_asked_for_by_name(params: Map<Seq<char>, JsonView>)
    ensures
        params.contains_key("reasoning"@) ==> thinking_requested(JsonView::Object(params)) == (
        params["reasoning"@] == JsonView::Bool(true)),
        !params.contains_key("reasoning"@) ==> thinking_requested(JsonView::Object(params)) == (
        params.contains_key("thinking"@) && params["thinking"@] == JsonView::Bool(true)),
        forall|value: JsonView|
            !(value is Object) ==> !(#[trigger] thinking_requested(value)),
{
}

/// A request for specific tools is refused; else a request whose images can be
/// had is prepared with its messages, its tools, the name of its tool choice,
/// its schema, its wish for reasoning and its images. Without a marker no
/// images are read.
pub proof fn law_prepared_requests_hold_the_request(
    request: CompletionRequest,
    marker: Option<Seq<char>>,
)
    ensures
        request.tool_choice matches Some(ToolChoice::Specific(_)) ==> prepared_request(
            request,
            marker,
        ) == Err::<PreparedRequestView, Seq<char>>(
            "Specific tool choice is not supported by local llama adapter"@,
        ),
        ({
            let images = prepared_images(
                if marker is Some {
                    history_images(views(request.chat_history@))
                } else {
                    Seq::empty()
                },
            );
            let instructions = system_text(
                option_view(request.preamble),
                document_parts(views(request.documents@)),
            );
            &&& !(request.tool_choice matches Some(ToolChoice::Specific(_))) ==> (
            prepared_request(request, marker) is Ok <==> images is Ok)
            &&& prepared_request(request, marker) matches Ok(prepared) ==> {
                &&& prepared.images == images->Ok_0
                &&& prepared.messages_json == json_text(
                    JsonView::Array(
                        instructed_messages(
                            instructions,
                            views(request.chat_history@),
                            marker,
                        ),
                    ),
                )
                &&& prepared.tools_json == tools_text(views(request.tools@))
                &&& request.tool_choice is None ==> prepared.tool_choice is None
                &&& request.tool_choice == Some(ToolChoice::Auto) ==> prepared.tool_choice == Some(
                    "auto"@,
                )
                &&& request.tool_choice == Some(ToolChoice::Never) ==> prepared.tool_choice == Some(
                    "none"@,
                )
                &&& request.tool_choice == Some(ToolChoice::Required) ==> prepared.tool_choice
                    == Some("required"@)
                &&& request.output_schema is None ==> prepared.json_schema is None
                &&& request.output_schema matches Some(schema) ==> prepared.json_schema == Some(
                    schema_text(schema@),
                )
                &&& prepared.enable_thinking == (request.additional_params matches Some(params)
                    && thinking_requested(params@))
            }
            &&& !(request.tool_choice matches Some(ToolChoice::Specific(_))) && images is Err
                ==> prepared_request(request, marker) == Err::<PreparedRequestView, Seq<char>>(
                images->Err_0,
            )
        }),
{
}

/// Whatever parts are among the documents, the instructions are the preamble,
/// an empty line and the lines of their texts; where either is empty, the other
/// stands alone.
pub proof fn law_instructions_join_preamble_and_context(
    preamble: Seq<char>,
    content: Seq<UserContentView>,
)
    ensures
        system_text(Some(preamble), None) == preamble,
        system_text(None, None) == Seq::<char>::empty(),
        ({
            let context = join(context_texts(content), "\n"@);
            &&& system_text(None, Some(content)) == context
            &&& context == Seq::<char>::empty() ==> system_text(Some(preamble), Some(content))
                == preamble
            &&& context != Seq::<char>::empty() && preamble == Seq::<char>::empty() ==> system_text(
                Some(preamble),
                Some(content),
            ) == context
            &&& context != Seq::<char>::empty() && preamble != Seq::<char>::empty()
                ==> system_text(Some(preamble), Some(content)) == preamble + "\n\n"@ + context
        }),
{
    let context = join(context_texts(content), "\n"@);
    if context.len() == 0 {
        assert(context =~= Seq::empty());
    }
    if preamble.len() == 0 {
        assert(preamble =~= Seq::empty());
    }
}

/// What a document, a tool or a prepared request shows is what it holds.
pub proof fn law_requests_show_what_they_hold(
    document: Document,
    tool: ToolDefinition,
    prepared: PreparedRequest,
)
    ensures
        document@.id == document.id@,
        document@.text == document.text@,
        tool@.name == tool.name@,
        tool@.description == tool.description@,
        tool@.parameters == tool.parameters@,
        prepared@.messages_json == prepared.messages_json@,
        prepared@.tools_json == option_view(prepared.tools_json),
        prepared@.tool_choice == option_view(prepared.tool_choice),
        prepared@.json_schema == option_view(prepared.json_schema),
        prepared@.enable_thinking == prepared.enable_thinking,
        prepared@.images == views(prepared.images@),
{
}

}

use rig_llama_cpp::json::{parse_json, Json};
use rig_llama_cpp::message::{
    AssistantContent, DocumentSource, Message, ToolCall, ToolResult, ToolResultContent, UserContent,
};
use rig_llama_cpp::images::{
    collect_history_images, extract_image_bytes, prepare_image, prepare_images, take_decoded,
};
use rig_llama_cpp::request::{
    build_messages, has_thinking_request, list_tools, normalized_documents, prepare_request, system_prompt, CompletionRequest,
    Document, PreparedRequest, Schema, ToolChoice, ToolDefinition,
};
use rig_llama_cpp::slot::fnv1a_64;
use rig_llama_cpp::turns::{
    answer_with_parts, append_message_json, document_text, normalized_tool_parts,
    take_text_or_nothing, tool_call_json, user_content_text,
};

const PNG: &str = "iVBORw0KGgo=";

fn value(text: &str) -> Json {
    match parse_json(text) {
        Ok(value) => value,
        Err(message) => panic!("{message}"),
    }
}

fn text(text: &str) -> UserContent {
    UserContent::Text(text.to_string())
}

fn result(id: &str, call_id: Option<&str>, content: Vec<ToolResultContent>) -> UserContent {
    UserContent::ToolResult(ToolResult {
        id: id.to_string(),
        call_id: call_id.map(|text| text.to_string()),
        content,
    })
}

fn said(text: &str) -> ToolResultContent {
    ToolResultContent::Text(text.to_string())
}

fn request(chat_history: Vec<Message>) -> CompletionRequest {
    CompletionRequest {
        preamble: None,
        chat_history,
        documents: Vec::new(),
        tools: Vec::new(),
        tool_choice: None,
        additional_params: None,
        output_schema: None,
    }
}

fn prepared(request: &CompletionRequest, marker: Option<&str>) -> PreparedRequest {
    match prepare_request(request, marker) {
        Ok(prepared) => prepared,
        Err(error) => panic!("{error}"),
    }
}

fn refused(request: &CompletionRequest, marker: Option<&str>) -> String {
    match prepare_request(request, marker) {
        Ok(_) => panic!("expected an error"),
        Err(error) => error,
    }
}

fn appended(message: &Message, marker: Option<&str>) -> Vec<String> {
    let mut messages: Vec<Json> = Vec::new();
    append_message_json(&mut messages, message, marker);
    messages.iter().map(|message| message.print()).collect()
}

#[test]
fn user_texts_become_one_message_in_lines() {
    let message = Message::User(vec![
        text("a"),
        UserContent::Audio,
        UserContent::Document(DocumentSource::Text("b".to_string())),
        UserContent::Video,
    ]);
    assert_eq!(appended(&message, None), vec![r#"{"content":"a\nb","role":"user"}"#]);
    assert!(appended(&Message::User(vec![text("")]), None).is_empty());
    assert!(appended(&Message::User(Vec::new()), Some("<m>")).is_empty());
}

#[test]
fn images_become_markers_in_place() {
    let image = UserContent::Image(DocumentSource::Base64(PNG.to_string()));
    let message = Message::User(vec![text("a"), image, text("b")]);
    let parts = r#"[{"text":"a","type":"text"},{"text":"<m>","type":"media_marker"},{"text":"b","type":"text"}]"#;
    assert_eq!(appended(&message, Some("<m>")), vec![format!(r#"{{"content":{parts},"role":"user"}}"#)]);
    assert_eq!(appended(&message, None), vec![r#"{"content":"a\nb","role":"user"}"#]);
}

#[test]
fn assistant_message_has_text_and_calls() {
    let call = AssistantContent::ToolCall(ToolCall {
        id: "c1".to_string(),
        name: "f".to_string(),
        arguments: value(r#"{"a":1}"#),
    });
    let message = Message::Assistant(vec![
        AssistantContent::Text("x".to_string()),
        AssistantContent::Reasoning("r".to_string()),
        AssistantContent::Image,
        AssistantContent::Text("y".to_string()),
        call,
    ]);
    assert_eq!(
        appended(&message, None),
        vec![
            r#"{"content":"x\ny","role":"assistant","tool_calls":[{"function":{"arguments":"{\"a\":1}","name":"f"},"id":"c1","type":"function"}]}"#
        ]
    );
    let silent = Message::Assistant(vec![AssistantContent::Text("x".to_string())]);
    assert_eq!(appended(&silent, None), vec![r#"{"content":"x","role":"assistant","tool_calls":null}"#]);
    assert!(appended(&Message::Assistant(vec![AssistantContent::Image]), None).is_empty());
}

#[test]
fn system_message_is_kept() {
    let message = Message::System(String::new());
    assert_eq!(appended(&message, None), vec![r#"{"content":"","role":"system"}"#]);
}

#[test]
fn call_arguments_that_are_no_json_are_dropped() {
    let call = |arguments: Json| {
        let call = ToolCall { id: "1".to_string(), name: "f".to_string(), arguments };
        tool_call_json(&call).print()
    };
    let with = |arguments: &str| {
        format!(r#"{{"function":{{"arguments":{arguments},"name":"f"}},"id":"1","type":"function"}}"#)
    };
    assert_eq!(call(Json::Str("{\"a\": 1}".to_string())), with(r#""{\"a\": 1}""#));
    assert_eq!(call(Json::Str("{oops".to_string())), with(r#""{}""#));
    assert_eq!(call(Json::Null), with(r#""null""#));
}

#[test]
fn tool_results_get_the_call_that_they_answer() {
    let message = Message::User(vec![
        text("here"),
        result("f", Some("c1"), vec![said("one"), said("two")]),
        result("g", None, vec![said("three")]),
    ]);
    let messages = appended(&message, None);
    assert_eq!(messages.len(), 4);
    assert_eq!(messages[0], r#"{"content":"here","role":"user"}"#);
    assert_eq!(
        messages[1],
        r#"{"content":null,"role":"assistant","tool_calls":[{"function":{"arguments":"{}","name":"f"},"id":"c1","type":"function"},{"function":{"arguments":"{}","name":"g"},"id":"g","type":"function"}]}"#
    );
    assert_eq!(messages[2], r#"{"content":"one\ntwo","role":"tool","tool_call_id":"c1"}"#);
    assert_eq!(messages[3], r#"{"content":"three","role":"tool","tool_call_id":"g"}"#);
}

#[test]
fn calls_that_precede_tool_results_are_not_made_up() {
    let mut messages: Vec<Json> = Vec::new();
    let call = ToolCall { id: "c1".to_string(), name: "f".to_string(), arguments: Json::Null };
    append_message_json(&mut messages, &Message::Assistant(vec![AssistantContent::ToolCall(call)]), None);
    append_message_json(&mut messages, &Message::User(vec![result("f", Some("c1"), vec![said("x")])]), None);
    assert_eq!(messages.len(), 2);
    assert_eq!(messages[1].print(), r#"{"content":"x","role":"tool","tool_call_id":"c1"}"#);
}

#[test]
fn images_of_tool_results_follow_in_a_message_of_their_own() {
    let image = format!(r#"{{"type": "image", "data": "{PNG}", "mimeType": "image/png"}}"#);
    let message = Message::User(vec![
        result("f", None, vec![said(&image)]),
        result("g", None, vec![said("text"), ToolResultContent::Image(DocumentSource::Raw(vec![1]))]),
    ]);
    let messages = appended(&message, Some("<m>"));
    assert_eq!(messages.len(), 4);
    assert_eq!(
        messages[1],
        r#"{"content":"[returned 1 image(s); see next message]","role":"tool","tool_call_id":"f"}"#
    );
    assert_eq!(messages[2], r#"{"content":"text","role":"tool","tool_call_id":"g"}"#);
    assert_eq!(
        messages[3],
        r#"{"content":[{"text":"Image(s) returned by the tool call above:","type":"text"},{"text":"<m>","type":"media_marker"},{"text":"<m>","type":"media_marker"}],"role":"user"}"#
    );
    let unread = appended(&message, None);
    assert_eq!(unread.len(), 3);
    assert!(unread[1].contains("image/png"));
}

#[test]
fn tool_output_is_read_into_parts() {
    let hybrid = format!(
        r#"{{"response": {{"ok": true}}, "parts": [{{"type": "image", "data": "{PNG}", "mimeType": "image/png"}}]}}"#
    );
    let parts = normalized_tool_parts(&vec![said("plain"), said(&hybrid)]);
    assert_eq!(parts.len(), 3);
    assert!(matches!(&parts[0], ToolResultContent::Text(text) if text == "plain"));
    assert!(matches!(&parts[1], ToolResultContent::Text(text) if text == r#"{"ok":true}"#));
    assert!(matches!(&parts[2], ToolResultContent::Image(DocumentSource::Base64(data)) if data == PNG));
    let url = r#"{"type": "image", "data": "https://a.b/c.png", "mimeType": "image/png"}"#;
    let parts = normalized_tool_parts(&vec![said(url)]);
    assert!(matches!(&parts[0], ToolResultContent::Image(DocumentSource::Url(_))));
}

#[test]
fn document_texts_depend_on_their_source() {
    assert_eq!(document_text(&DocumentSource::Url("u".to_string())), "u");
    assert_eq!(document_text(&DocumentSource::Base64("b".to_string())), "b");
    assert_eq!(document_text(&DocumentSource::Text("t".to_string())), "t");
    assert_eq!(document_text(&DocumentSource::FileId("f".to_string())), "");
    assert_eq!(document_text(&DocumentSource::Unknown), "");
    assert_eq!(document_text(&DocumentSource::Raw("é".as_bytes().to_vec())), "é");
    assert_eq!(document_text(&DocumentSource::Raw(vec![97, 0xff])), "a\u{fffd}");
    assert_eq!(user_content_text(&UserContent::Audio), None);
}

#[test]
fn documents_are_rendered_as_files() {
    let plain = Document { id: "d1".to_string(), text: "body".to_string(), additional_props: Vec::new() };
    let described = Document {
        id: "d2".to_string(),
        text: "more".to_string(),
        additional_props: vec![
            ("b".to_string(), "2".to_string()),
            ("a".to_string(), "1".to_string()),
            ("b".to_string(), "3".to_string()),
        ],
    };
    let content = normalized_documents(&vec![plain, described]).unwrap();
    assert!(matches!(
        &content[0],
        UserContent::Document(DocumentSource::Text(text)) if text == "<file id: d1>\nbody\n</file>\n"
    ));
    assert!(matches!(
        &content[1],
        UserContent::Document(DocumentSource::Text(text))
            if text == "<file id: d2>\n<metadata a: \"1\" b: \"3\" />\nmore\n</file>\n"
    ));
    assert!(normalized_documents(&Vec::new()).is_none());
}

#[test]
fn system_prompt_joins_preamble_and_documents() {
    let content = vec![
        text("a"),
        UserContent::Document(DocumentSource::FileId("b".to_string())),
        UserContent::Document(DocumentSource::Raw(vec![0xff])),
        UserContent::Document(DocumentSource::Raw(b"c".to_vec())),
        UserContent::Audio,
    ];
    assert_eq!(system_prompt(Some("p"), Some(&content)), "p\n\na\nb\n\nc");
    assert_eq!(system_prompt(None, Some(&content)), "a\nb\n\nc");
    assert_eq!(system_prompt(Some("p"), Some(&vec![text("")])), "p");
    assert_eq!(system_prompt(Some("p"), None), "p");
    assert_eq!(system_prompt(None, None), "");
}

#[test]
fn request_starts_with_the_instructions() {
    let mut asked = request(vec![Message::User(vec![text("hi")])]);
    asked.preamble = Some("be brief".to_string());
    asked.documents =
        vec![Document { id: "1".to_string(), text: "t".to_string(), additional_props: Vec::new() }];
    let ready = prepared(&asked, None);
    assert_eq!(
        ready.messages_json,
        r#"[{"content":"be brief\n\n<file id: 1>\nt\n</file>\n","role":"system"},{"content":"hi","role":"user"}]"#
    );
    assert!(ready.tools_json.is_none());
    assert!(ready.tool_choice.is_none());
    assert!(ready.json_schema.is_none());
    assert!(!ready.enable_thinking);
    assert!(ready.images.is_empty());
}

#[test]
fn tools_and_schema_are_printed() {
    let mut asked = request(vec![Message::User(vec![text("hi")])]);
    asked.tools = vec![ToolDefinition {
        name: "f".to_string(),
        description: "does f".to_string(),
        parameters: value(r#"{"type": "object"}"#),
    }];
    asked.output_schema = Schema::new(value(r#"{"type": "string"}"#));
    asked.additional_params = Some(value(r#"{"thinking": true}"#));
    let ready = prepared(&asked, None);
    assert_eq!(
        ready.tools_json.as_deref(),
        Some(r#"[{"function":{"description":"does f","name":"f","parameters":{"type":"object"}},"type":"function"}]"#)
    );
    assert_eq!(ready.json_schema.as_deref(), Some(r#"{"type":"string"}"#));
    assert!(ready.enable_thinking);
}

#[test]
fn tool_choices_are_named() {
    let choice = |choice: ToolChoice| {
        let mut asked = request(vec![Message::User(vec![text("hi")])]);
        asked.tool_choice = Some(choice);
        asked
    };
    assert_eq!(prepared(&choice(ToolChoice::Auto), None).tool_choice.as_deref(), Some("auto"));
    assert_eq!(prepared(&choice(ToolChoice::Never), None).tool_choice.as_deref(), Some("none"));
    assert_eq!(prepared(&choice(ToolChoice::Required), None).tool_choice.as_deref(), Some("required"));
    assert_eq!(
        refused(&choice(ToolChoice::Specific(vec!["f".to_string()])), None),
        "Specific tool choice is not supported by local llama adapter"
    );
}

#[test]
fn thinking_is_asked_for_by_either_name() {
    assert!(has_thinking_request(&value(r#"{"reasoning": true}"#)));
    assert!(has_thinking_request(&value(r#"{"thinking": true}"#)));
    assert!(!has_thinking_request(&value(r#"{"reasoning": false, "thinking": true}"#)));
    assert!(!has_thinking_request(&value(r#"{"reasoning": "yes", "thinking": true}"#)));
    assert!(!has_thinking_request(&value("{}")));
    assert!(!has_thinking_request(&value("[]")));
}

#[test]
fn image_bytes_are_extracted_or_refused() {
    assert_eq!(extract_image_bytes(&DocumentSource::Raw(vec![1, 2])), Ok(vec![1, 2]));
    assert_eq!(
        extract_image_bytes(&DocumentSource::Base64("aGVsbG8=".to_string())),
        Ok(b"hello".to_vec())
    );
    assert_eq!(
        extract_image_bytes(&DocumentSource::Base64("a".to_string())),
        Err("Base64 decode failed: Invalid input length: 1".to_string())
    );
    assert_eq!(
        extract_image_bytes(&DocumentSource::Url("u".to_string())),
        Err("URL image sources are not supported; pre-fetch the image data".to_string())
    );
    assert_eq!(
        extract_image_bytes(&DocumentSource::FileId("a\"b".to_string())),
        Err("Unsupported image source kind: FileId(\"a\\\"b\")".to_string())
    );
    assert_eq!(
        extract_image_bytes(&DocumentSource::Text("t".to_string())),
        Err("Unsupported image source kind: String(\"t\")".to_string())
    );
    assert_eq!(
        extract_image_bytes(&DocumentSource::Unknown),
        Err("Unsupported image source kind: Unknown".to_string())
    );
}

#[test]
fn images_match_the_markers() {
    let history = vec![
        Message::User(vec![
            UserContent::Image(DocumentSource::Raw(vec![1])),
            result("f", None, vec![ToolResultContent::Image(DocumentSource::Raw(vec![2]))]),
        ]),
        Message::Assistant(vec![AssistantContent::Image]),
        Message::User(vec![UserContent::Image(DocumentSource::Base64("Aw==".to_string()))]),
    ];
    let ready = prepared(&request(history), Some("<m>"));
    let bytes: Vec<Vec<u8>> = ready.images.iter().map(|image| image.bytes.clone()).collect();
    assert_eq!(bytes, vec![vec![1], vec![2], vec![3]]);
    assert_eq!(ready.messages_json.matches("media_marker").count(), 3);
    assert_eq!(ready.images[0].hash, fnv1a_64(&vec![1]));
}

#[test]
fn images_are_ignored_without_a_marker() {
    let history =
        vec![Message::User(vec![text("a"), UserContent::Image(DocumentSource::Url("u".to_string()))])];
    let ready = prepared(&request(history), None);
    assert!(ready.images.is_empty());
    assert_eq!(ready.messages_json, r#"[{"content":"a","role":"user"}]"#);
}

#[test]
fn image_failures_say_where_the_image_was() {
    let direct = vec![Message::User(vec![UserContent::Image(DocumentSource::Unknown)])];
    assert_eq!(
        refused(&request(direct), Some("<m>")),
        "Image extraction failed: Unsupported image source kind: Unknown"
    );
    let returned = vec![Message::User(vec![result(
        "f",
        None,
        vec![ToolResultContent::Image(DocumentSource::Unknown)],
    )])];
    assert_eq!(
        refused(&request(returned), Some("<m>")),
        "Tool-result image extraction failed: Unsupported image source kind: Unknown"
    );
    let mut both = request(vec![Message::User(vec![UserContent::Image(DocumentSource::Unknown)])]);
    both.tool_choice = Some(ToolChoice::Specific(Vec::new()));
    assert_eq!(
        refused(&both, Some("<m>")),
        "Specific tool choice is not supported by local llama adapter"
    );
}

#[test]
fn answers_are_built_from_given_parts() {
    let parts = vec![said("a"), ToolResultContent::Image(DocumentSource::Unknown), said("b")];
    let (message, markers) = answer_with_parts("c".to_string(), &parts, Some("<m>"));
    assert_eq!(message.print(), r#"{"content":"a\nb","role":"tool","tool_call_id":"c"}"#);
    assert_eq!(markers.len(), 1);
    assert_eq!(markers[0].print(), r#"{"text":"<m>","type":"media_marker"}"#);
    let images = vec![
        ToolResultContent::Image(DocumentSource::Unknown),
        said(""),
        ToolResultContent::Image(DocumentSource::Unknown),
    ];
    let (message, markers) = answer_with_parts("c".to_string(), &images, Some("<m>"));
    assert_eq!(
        message.print(),
        r#"{"content":"[returned 2 image(s); see next message]","role":"tool","tool_call_id":"c"}"#
    );
    assert_eq!(markers.len(), 2);
    let (message, markers) = answer_with_parts("c".to_string(), &images, None);
    assert_eq!(message.print(), r#"{"content":"","role":"tool","tool_call_id":"c"}"#);
    assert!(markers.is_empty());
}

#[test]
fn outside_results_are_taken_as_they_come() {
    assert_eq!(take_text_or_nothing("t", &Ok(Json::Null)), "t");
    assert_eq!(take_text_or_nothing("t", &Err("e".to_string())), "{}");
    assert_eq!(take_decoded(Ok(vec![1])), Ok(vec![1]));
    assert_eq!(take_decoded(Err("e".to_string())), Err("Base64 decode failed: e".to_string()));
    let image = match prepare_image(true, Ok(b"a".to_vec())) {
        Ok(image) => image,
        Err(error) => panic!("{error}"),
    };
    assert_eq!(image.bytes, b"a".to_vec());
    assert_eq!(image.hash, 0xaf63dc4c8601ec8c);
    assert!(matches!(
        prepare_image(true, Err("e".to_string())),
        Err(error) if error == "Tool-result image extraction failed: e"
    ));
    assert!(matches!(
        prepare_image(false, Err("e".to_string())),
        Err(error) if error == "Image extraction failed: e"
    ));
}

#[test]
fn images_are_collected_in_order() {
    let history = vec![
        Message::System("s".to_string()),
        Message::User(vec![
            result("f", None, vec![ToolResultContent::Image(DocumentSource::Raw(vec![1]))]),
            UserContent::Image(DocumentSource::Raw(vec![2])),
            result("g", None, vec![ToolResultContent::Image(DocumentSource::Raw(vec![3]))]),
        ]),
    ];
    let found = collect_history_images(&history);
    let origins: Vec<bool> = found.iter().map(|image| image.0).collect();
    assert_eq!(origins, vec![false, true, true]);
    let bytes: Vec<Vec<u8>> = match prepare_images(found) {
        Ok(images) => images.into_iter().map(|image| image.bytes).collect(),
        Err(error) => panic!("{error}"),
    };
    assert_eq!(bytes, vec![vec![2], vec![1], vec![3]]);
    let failing = vec![
        (false, DocumentSource::Raw(vec![1])),
        (true, DocumentSource::Unknown),
        (false, DocumentSource::Unknown),
    ];
    assert!(matches!(
        prepare_images(failing),
        Err(error) if error == "Tool-result image extraction failed: Unsupported image source kind: Unknown"
    ));
}

#[test]
fn messages_and_tools_are_built_before_they_are_printed() {
    let history = vec![Message::User(vec![text("hi")])];
    let messages = build_messages("be brief".to_string(), &history, None);
    assert_eq!(messages.len(), 2);
    assert_eq!(messages[0].print(), r#"{"content":"be brief","role":"system"}"#);
    assert_eq!(build_messages(String::new(), &history, None).len(), 1);
    let tool = ToolDefinition {
        name: "f".to_string(),
        description: "d".to_string(),
        parameters: Json::Null,
    };
    assert_eq!(
        list_tools(&vec![tool])[0].print(),
        r#"{"function":{"description":"d","name":"f","parameters":null},"type":"function"}"#
    );
}

#[test]
fn images_and_markers_line_up_over_a_chat() {
    let image = |byte: u8| DocumentSource::Raw(vec![byte]);
    let history = vec![
        Message::User(vec![
            UserContent::Image(image(1)),
            text("look"),
            UserContent::Image(image(2)),
            result("f", None, vec![ToolResultContent::Image(image(3))]),
        ]),
        Message::Assistant(vec![AssistantContent::Text("seen".to_string())]),
        Message::User(vec![UserContent::Image(image(4))]),
    ];
    let marks = |messages: &[Json]| -> usize {
        messages.iter().map(|message| message.print().matches("media_marker").count()).sum()
    };
    let mut messages = Vec::new();
    let mut counts = Vec::new();
    for message in &history {
        let before: Vec<String> = messages.iter().map(Json::print).collect();
        append_message_json(&mut messages, message, Some("<m>"));
        let after: Vec<String> = messages.iter().map(Json::print).collect();
        assert_eq!(after[..before.len()], before[..]);
        counts.push(marks(&messages));
    }
    assert_eq!(counts, vec![3, 3, 4]);
    let bytes: Vec<Vec<u8>> = match prepare_images(collect_history_images(&history)) {
        Ok(images) => images.into_iter().map(|image| image.bytes).collect(),
        Err(error) => panic!("{error}"),
    };
    assert_eq!(bytes, vec![vec![1], vec![2], vec![3], vec![4]]);
}

#[test]
fn schemas_are_printed_with_their_keywords_in_order() {
    let schema = |text: &str| Schema::new(value(text)).map(|schema| schema.print());
    assert_eq!(
        schema(
            r#"{"$defs": {"b": 1, "a": {"type": "null", "title": "t"}}, "anyOf": [],
                "properties": {"type": true}, "type": "object", "title": "T"}"#
        ),
        Some(
            [
                r#"{"title":"T","type":"object","properties":{"type":true},"anyOf":[],"#,
                r#""$defs":{"a":{"title":"t","type":"null"},"b":1}}"#,
            ]
            .concat()
        )
    );
    assert_eq!(schema("false"), Some("false".to_string()));
    assert_eq!(schema("null"), None);
    assert_eq!(schema("[]"), None);
    assert_eq!(schema("\"object\""), None);
}

#[test]
fn markers_and_images_line_up_though_a_tool_result_comes_first() {
    let asked = request(vec![Message::User(vec![
        result("f", None, vec![said("a"), ToolResultContent::Image(DocumentSource::Raw(vec![1]))]),
        UserContent::Image(DocumentSource::Raw(vec![2])),
    ])]);
    let prepared = prepared(&asked, Some("<m>"));
    let messages = value(&prepared.messages_json);
    let messages = messages.as_array().unwrap();
    assert_eq!(messages.len(), 4);
    assert_eq!(messages[0].print(), r#"{"content":[{"text":"<m>","type":"media_marker"}],"role":"user"}"#);
    assert!(messages[3].print().contains("Image(s) returned by the tool call above:"));
    let bytes: Vec<Vec<u8>> = prepared.images.iter().map(|image| image.bytes.clone()).collect();
    assert_eq!(bytes, vec![vec![2], vec![1]]);
    assert_eq!(prepared.images[0].hash, fnv1a_64(&vec![2]));
    assert_eq!(prepared.images[1].hash, fnv1a_64(&vec![1]));
}

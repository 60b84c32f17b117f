use rig_llama_cpp::json::{parse_json, Json};
use rig_llama_cpp::message::AssistantContent;
use rig_llama_cpp::parsing::{
    decode_arguments, extract_structured_json, extract_text_content, is_object, is_valid_json_args,
    needs_template_parse, parse_completion_output, parse_oaicompat_message, parse_tool_call,
    read_calls_from_output, read_completion, read_message, reparse_tool_calls_from_output,
    take_value_or_text,
};
use rig_llama_cpp::xml::parse_xml_tool_calls;

#[test]
fn extract_structured_json_plain_object() {
    let out = extract_structured_json(r#"{"name":"Ada","age":36}"#).unwrap();
    assert_eq!(out, r#"{"name":"Ada","age":36}"#);
}

#[test]
fn extract_structured_json_strips_markdown_fence() {
    let raw = "```json\n{\n  \"name\": \"Ada\",\n  \"age\": 36\n}\n```";
    let out = extract_structured_json(raw).unwrap();
    assert_eq!(out, "{\n  \"name\": \"Ada\",\n  \"age\": 36\n}");
}

#[test]
fn extract_structured_json_strips_plain_fence() {
    let raw = "```\n{\"ok\": true}\n```";
    let out = extract_structured_json(raw).unwrap();
    assert_eq!(out, r#"{"ok": true}"#);
}

#[test]
fn extract_structured_json_strips_chatml_role_prefix() {
    let raw = "<|im_start|>assistant\n```json\n{\"value\": 1}\n```";
    let out = extract_structured_json(raw).unwrap();
    assert_eq!(out, r#"{"value": 1}"#);
}

#[test]
fn extract_structured_json_strips_leading_prose() {
    let raw = "Sure, here is the answer: {\"answer\": 42}";
    let out = extract_structured_json(raw).unwrap();
    assert_eq!(out, r#"{"answer": 42}"#);
}

#[test]
fn extract_structured_json_handles_nested_objects() {
    let raw = r#"```json
{"person": {"name": "Ada", "skills": {"lang": "rust"}}, "age": 36}
```"#;
    let out = extract_structured_json(raw).unwrap();
    assert_eq!(
        out,
        r#"{"person": {"name": "Ada", "skills": {"lang": "rust"}}, "age": 36}"#
    );
}

#[test]
fn extract_structured_json_ignores_braces_inside_strings() {
    let raw = r#"{"text": "an { inside } string", "ok": true}"#;
    let out = extract_structured_json(raw).unwrap();
    assert_eq!(out, raw);
}

#[test]
fn extract_structured_json_handles_escaped_quotes_in_strings() {
    let raw = r#"{"text": "she said \"hi\"", "brace": "}"}"#;
    let out = extract_structured_json(raw).unwrap();
    assert_eq!(out, raw);
}

#[test]
fn extract_structured_json_stops_at_first_balanced_object() {
    let raw = r#"{"first": 1} and then {"second": 2}"#;
    let out = extract_structured_json(raw).unwrap();
    assert_eq!(out, r#"{"first": 1}"#);
}

#[test]
fn extract_structured_json_returns_none_when_unbalanced() {
    assert!(extract_structured_json(r#"{"broken": "#).is_none());
}

#[test]
fn extract_structured_json_returns_none_when_no_object() {
    assert!(extract_structured_json("just plain text, no json").is_none());
    assert!(extract_structured_json("").is_none());
}

#[test]
fn extract_structured_json_handles_real_qwen_output() {
    // Shape observed in practice: ChatML role token, markdown fence, indented body.
    let raw = "<|im_start|>assistant\n```json\n{\n  \"age\": 36,\n  \"name\": \"Ada\",\n  \"occupation\": \"Software Engineer\"\n}\n```";
    let out = extract_structured_json(raw).unwrap();
    let parsed: serde_json::Value = serde_json::from_str(&out).unwrap();
    assert_eq!(parsed["name"], "Ada");
    assert_eq!(parsed["age"], 36);
    assert_eq!(parsed["occupation"], "Software Engineer");
}

fn json(text: &str) -> Json {
    match parse_json(text) {
        Ok(value) => value,
        Err(message) => panic!("{message}"),
    }
}

/// A short form of content parts, to compare them by.
fn shown(content: &[AssistantContent]) -> Vec<String> {
    content
        .iter()
        .map(|part| match part {
            AssistantContent::Text(text) => format!("text:{text}"),
            AssistantContent::Reasoning(text) => format!("reasoning:{text}"),
            AssistantContent::ToolCall(call) => {
                format!("call:{}:{}:{}", call.id, call.name, call.arguments.print())
            }
            AssistantContent::Image => "image".to_string(),
        })
        .collect()
}

#[test]
fn leading_and_trailing_text_is_dropped() {
    let object = r#"{"a": {"b": "}"}}"#;
    let wrapped = format!("no braces here {object} {{ and more }}");
    assert_eq!(extract_structured_json(&wrapped).as_deref(), Some(object));
}

#[test]
fn extraction_is_idempotent() {
    let once = extract_structured_json("x {\"k\": [1, {}]} y").unwrap();
    assert_eq!(extract_structured_json(&once), Some(once.clone()));
}

#[test]
fn extraction_keeps_characters_outside_ascii() {
    let raw = "é {\"ü\": \"日本 {\"} ß";
    assert_eq!(extract_structured_json(raw).as_deref(), Some("{\"ü\": \"日本 {\"}"));
}

#[test]
fn xml_tool_call_with_two_parameters() {
    let output = "<tool_call>\n<function=write_file>\n<parameter=path>\noutput.txt\n</parameter>\n\
                  <parameter=content>\nHello from LLM\n</parameter>\n</function>\n</tool_call>";
    let calls = parse_xml_tool_calls(output).unwrap();
    assert_eq!(calls.len(), 1);
    assert_eq!(calls[0].0, "write_file");
    assert_eq!(calls[0].1.print(), r#"{"content":"Hello from LLM","path":"output.txt"}"#);
}

#[test]
fn xml_tool_calls_come_in_order() {
    let output = "text <tool_call><function= a ></tool_call> <tool_call><function=b>\
                  <parameter=k>1</parameter></tool_call>";
    let calls = parse_xml_tool_calls(output).unwrap();
    let names: Vec<&str> = calls.iter().map(|call| call.0.as_str()).collect();
    assert_eq!(names, vec!["a", "b"]);
    assert_eq!(calls[0].1.print(), "{}");
    assert_eq!(calls[1].1.print(), r#"{"k":"1"}"#);
}

#[test]
fn xml_block_without_a_function_leaves_nothing() {
    assert!(parse_xml_tool_calls("<tool_call><function=a></tool_call><tool_call></tool_call>").is_none());
    assert!(parse_xml_tool_calls("<tool_call><function=a").is_none());
    assert!(parse_xml_tool_calls("no calls").is_none());
    assert!(parse_xml_tool_calls("<tool_call><function= ></tool_call>").is_none());
}

#[test]
fn xml_parameters_stop_at_the_first_incomplete_one() {
    let output = "<tool_call><function=f><parameter=a>1</parameter><parameter=b>2<parameter=c></tool_call>";
    let calls = parse_xml_tool_calls(output).unwrap();
    assert_eq!(calls[0].1.print(), r#"{"a":"1"}"#);
    let output = "<tool_call><function=f><parameter=a>1</parameter><parameter=b";
    assert_eq!(parse_xml_tool_calls(output).unwrap()[0].1.print(), r#"{"a":"1"}"#);
}

#[test]
fn later_xml_parameter_of_the_same_name_counts() {
    let output = "<tool_call><function=f><parameter=a>1</parameter><parameter=a>2</parameter></tool_call>";
    assert_eq!(parse_xml_tool_calls(output).unwrap()[0].1.print(), r#"{"a":"2"}"#);
}

#[test]
fn completion_with_a_schema_is_its_json_object() {
    let content = parse_completion_output("```json\n{\"a\": 1}\n```", None, true);
    assert_eq!(shown(&content), vec!["text:{\"a\": 1}"]);
    assert!(!needs_template_parse("```json\n{\"a\": 1}\n```", true));
    assert!(needs_template_parse("{\"a\": 1}", false));
    assert!(needs_template_parse("none", true));
}

#[test]
fn completion_follows_the_template_parser() {
    let message = r#"{"content": "hi", "reasoning_content": " think ",
        "tool_calls": [{"id": "1", "function": {"name": "f", "arguments": "{\"x\": 1}"}}]}"#;
    let content = parse_completion_output("raw", Some(message), false);
    assert_eq!(shown(&content), vec!["reasoning:think", "text:hi", "call:1:f:{\"x\":1}"]);
}

#[test]
fn completion_falls_back_to_xml_and_then_to_text() {
    let raw = "<tool_call><function=f></tool_call><tool_call><function=g></tool_call>";
    let content = parse_completion_output(raw, Some("not json"), false);
    assert_eq!(shown(&content), vec!["call:xml-tool-call-0:f:{}", "call:xml-tool-call-1:g:{}"]);
    assert_eq!(shown(&parse_completion_output("plain", None, false)), vec!["text:plain"]);
    assert_eq!(shown(&parse_completion_output("plain", None, true)), vec!["text:plain"]);
}

#[test]
fn message_without_content_is_the_raw_text() {
    let content = match parse_oaicompat_message("{}", "raw") {
        Ok(content) => content,
        Err(error) => panic!("{error}"),
    };
    assert_eq!(shown(&content), vec!["text:raw"]);
    let content = parse_oaicompat_message(r#"{"content": "", "reasoning_content": "  "}"#, "raw");
    assert_eq!(content.map(|content| shown(&content)), Ok(vec!["text:raw".to_string()]));
}

fn message_error(message: &str) -> String {
    match parse_oaicompat_message(message, "raw") {
        Ok(_) => panic!("expected an error"),
        Err(error) => error,
    }
}

#[test]
fn message_errors_say_what_is_missing() {
    assert!(message_error("{").starts_with("Parsed response JSON deserialization failed: "));
    assert_eq!(message_error("[]"), "Parsed response is not a JSON object");
    assert_eq!(message_error(r#"{"tool_calls": [{}]}"#), "Tool call is missing id");
    assert_eq!(message_error(r#"{"tool_calls": [{"id": "1"}]}"#), "Tool call is missing function");
    assert_eq!(
        message_error(r#"{"tool_calls": [{"id": "1", "function": {}}]}"#),
        "Tool call function is missing name"
    );
}

#[test]
fn tool_call_arguments_are_decoded() {
    let call = |text: &str| match parse_tool_call(&json(text)) {
        Ok(call) => call.arguments.print(),
        Err(error) => panic!("{error}"),
    };
    assert_eq!(call(r#"{"id": "1", "function": {"name": "f", "arguments": "{\"a\":1}"}}"#), r#"{"a":1}"#);
    assert_eq!(call(r#"{"id": "1", "function": {"name": "f", "arguments": "{oops"}}"#), "\"{oops\"");
    assert_eq!(call(r#"{"id": "1", "function": {"name": "f", "arguments": [1]}}"#), "[1]");
    assert_eq!(call(r#"{"id": "1", "function": {"name": "f"}}"#), "null");
    assert_eq!(decode_arguments(None).print(), "null");
}

#[test]
fn text_content_joins_its_parts() {
    assert_eq!(extract_text_content(Some(&json("\"a\""))).as_deref(), Some("a"));
    let parts = json(r#"[{"text": "a"}, {"refusal": "b"}, {"text": 1, "refusal": "c"}, {"other": 1}, 5]"#);
    assert_eq!(extract_text_content(Some(&parts)).as_deref(), Some("a\nb\nc"));
    assert_eq!(extract_text_content(Some(&json("[]"))).as_deref(), Some(""));
    assert_eq!(extract_text_content(Some(&json("null"))), None);
    assert_eq!(extract_text_content(None), None);
}

#[test]
fn complete_arguments_are_objects_or_none() {
    assert!(is_valid_json_args(&json("{}")));
    assert!(is_valid_json_args(&json("null")));
    assert!(is_valid_json_args(&json("\"{}\"")));
    assert!(!is_valid_json_args(&json("\"{\"")));
    assert!(!is_valid_json_args(&json("\"[]\"")));
    assert!(!is_valid_json_args(&json("[]")));
    assert!(!is_valid_json_args(&json("1")));
}

fn reparsed(output: &str, message: Option<&str>) -> Option<Vec<String>> {
    reparse_tool_calls_from_output(output, message)
        .map(|calls| calls.iter().map(|call| format!("{}:{}", call.0, call.1.print())).collect())
}

#[test]
fn output_is_reparsed_by_the_template_first() {
    let xml = "<tool_call><function=x></tool_call>";
    let message = r#"{"tool_calls": [{"function": {"name": "f", "arguments": "{}"}}, {}]}"#;
    assert_eq!(reparsed(xml, Some(message)), Some(vec!["f:{}".to_string()]));
    assert_eq!(reparsed(xml, Some("{}")), Some(vec!["x:{}".to_string()]));
    assert_eq!(reparsed(xml, Some("[")), Some(vec!["x:{}".to_string()]));
    assert_eq!(reparsed(xml, Some(r#"{"tool_calls": []}"#)), Some(vec!["x:{}".to_string()]));
    assert_eq!(reparsed(xml, Some(r#"{"tool_calls": [{"function": {}}]}"#)), None);
    assert_eq!(reparsed("", None), None);
}

#[test]
fn parse_results_are_taken_as_they_come() {
    assert_eq!(take_value_or_text(Ok(Json::Bool(true)), "x").print(), "true");
    assert_eq!(take_value_or_text(Err("e".to_string()), "x").print(), "\"x\"");
    assert!(is_object(&Ok(Json::empty_object())));
    assert!(!is_object(&Ok(Json::Null)));
    assert!(!is_object(&Err("e".to_string())));
    let error = match read_message(Err("at 1".to_string()), "raw") {
        Ok(_) => panic!("expected an error"),
        Err(error) => error,
    };
    assert_eq!(error, "Parsed response JSON deserialization failed: at 1");
}

#[test]
fn read_message_counts_unless_a_schema_was_met() {
    let message = || Some(vec![AssistantContent::Text("m".to_string())]);
    assert_eq!(shown(&read_completion("{}", message(), false)), vec!["text:m"]);
    assert_eq!(shown(&read_completion("{}", message(), true)), vec!["text:{}"]);
    assert_eq!(shown(&read_completion("raw", message(), true)), vec!["text:m"]);
    assert_eq!(shown(&read_completion("raw", None, true)), vec!["text:raw"]);
}

#[test]
fn listed_calls_come_before_written_ones() {
    let function = Json::empty_object().with("name", Json::Str("f".to_string()));
    let call = Json::empty_object().with("function", function);
    let message = Json::empty_object().with("tool_calls", Json::Array(vec![call]));
    let xml = "<tool_call><function=g></tool_call>";
    let named = |message: Option<&Json>| {
        read_calls_from_output(xml, message).map(|calls| calls.into_iter().map(|call| call.0).collect())
    };
    assert_eq!(named(Some(&message)), Some(vec!["f".to_string()]));
    assert_eq!(named(Some(&Json::Null)), Some(vec!["g".to_string()]));
    assert_eq!(named(None), Some(vec!["g".to_string()]));
}

#[test]
fn written_calls_are_read_back() {
    let calls = [
        ("f", vec![("a", "1 < 2"), ("b", "two\nlines"), ("a", "x")]),
        ("g.h", vec![("k k", "<parameter=z>"), ("e", "")]),
    ];
    let mut output = String::from("Let me see.\n");
    for (name, parameters) in &calls {
        output.push_str(&format!("<tool_call>\n<function={name}>"));
        for (key, value) in parameters {
            output.push_str(&format!("\n<parameter={key}>\n{value}\n</parameter>"));
        }
        output.push_str("\n</function>\n</tool_call>\n");
    }
    let read = parse_xml_tool_calls(&output).unwrap();
    assert_eq!(read.len(), 2);
    assert_eq!(read[0].0, "f");
    assert_eq!(read[0].1.print(), r#"{"a":"x","b":"two\nlines"}"#);
    assert_eq!(read[1].0, "g.h");
    assert_eq!(read[1].1.print(), r#"{"e":"","k k":"<parameter=z>"}"#);
}

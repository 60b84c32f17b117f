use rig_llama_cpp::json::{parse_json, Json};
use rig_llama_cpp::streaming::{
    take_arguments, StreamChoice, StreamDeltaState, ToolCallDeltaContent,
};

fn value(text: &str) -> Json {
    match parse_json(text) {
        Ok(value) => value,
        Err(message) => panic!("{message}"),
    }
}

/// A short form of events, without the identifiers that are drawn at random.
fn events(choices: &[StreamChoice]) -> Vec<String> {
    choices
        .iter()
        .map(|choice| match choice {
            StreamChoice::Message(text) => format!("message:{text}"),
            StreamChoice::ReasoningDelta(text) => format!("reasoning:{text}"),
            StreamChoice::ToolCallDelta { id, content, .. } => match content {
                ToolCallDeltaContent::Name(name) => format!("name:{id}:{name}"),
                ToolCallDeltaContent::Delta(text) => format!("delta:{id}:{text}"),
            },
            StreamChoice::ToolCall(call) => {
                format!("call:{}:{}:{}", call.id, call.name, call.arguments.print())
            }
        })
        .collect()
}

#[test]
fn delta_emits_answer_then_reasoning() {
    let mut state = StreamDeltaState::new();
    let delta = r#"{"reasoning_content": "why", "content": "so"}"#;
    assert_eq!(events(&state.parse_delta(delta)), vec!["message:so", "reasoning:why"]);
    assert!(state.parse_delta(r#"{"content": "", "reasoning_content": ""}"#).is_empty());
}

#[test]
fn unreadable_deltas_emit_nothing() {
    let mut state = StreamDeltaState::new();
    for delta in ["", "{", "[]", "1", r#"{"content": 1, "tool_calls": {}}"#] {
        assert!(state.parse_delta(delta).is_empty(), "{delta}");
    }
    assert!(state.flush_tool_calls("", None).is_empty());
}

#[test]
fn tool_call_is_put_together_from_deltas() {
    let mut state = StreamDeltaState::new();
    let first = r#"{"tool_calls": [{"index": 0, "id": "c1", "function": {"name": "f", "arguments": "{\"a\""}}]}"#;
    assert_eq!(events(&state.parse_delta(first)), vec!["name:c1:f", "delta:c1:{\"a\""]);
    let second = r#"{"tool_calls": [{"index": 0, "function": {"arguments": ": 1}"}}]}"#;
    assert_eq!(events(&state.parse_delta(second)), vec!["delta:c1:: 1}"]);
    assert!(!state.has_broken_calls());
    assert_eq!(events(&state.flush_tool_calls("", None)), vec!["call:c1:f:{\"a\":1}"]);
    assert!(state.flush_tool_calls("", None).is_empty());
}

#[test]
fn calls_are_kept_apart_by_index() {
    let mut state = StreamDeltaState::new();
    state.parse_delta(r#"{"tool_calls": [{"index": 1, "id": "b", "function": {"name": "g"}}]}"#);
    state.parse_delta(r#"{"tool_calls": [{"id": "a", "function": {"name": "f"}}]}"#);
    state.parse_delta(r#"{"tool_calls": [{"index": 1, "function": {"arguments": "{}"}}]}"#);
    assert_eq!(events(&state.flush_tool_calls("", None)), vec!["call:b:g:{}", "call:a:f:null"]);
}

#[test]
fn fresh_identifiers_are_drawn_and_kept() {
    let mut state = StreamDeltaState::new();
    let first = state.parse_delta(r#"{"tool_calls": [{"index": 0, "function": {"name": "f"}}]}"#);
    let second = state.parse_delta(r#"{"tool_calls": [{"index": 0, "function": {"arguments": "{}"}}]}"#);
    let other = state.parse_delta(r#"{"tool_calls": [{"index": 1, "function": {"name": "f"}}]}"#);
    let id = |choices: &[StreamChoice]| match &choices[0] {
        StreamChoice::ToolCallDelta { internal_call_id, .. } => internal_call_id.clone(),
        _ => panic!("expected a delta of a call"),
    };
    assert!(!id(&first).is_empty());
    assert_eq!(id(&first), id(&second));
    assert_ne!(id(&first), id(&other));
}

#[test]
fn given_identifier_is_used_for_a_new_call_only() {
    let mut state = StreamDeltaState::new();
    state.apply_call_delta(&value(r#"{"index": 3, "function": {"name": "f"}}"#), "one".to_string());
    let choices =
        state.apply_call_delta(&value(r#"{"index": 3, "function": {"name": "g"}}"#), "two".to_string());
    match &choices[0] {
        StreamChoice::ToolCallDelta { internal_call_id, .. } => assert_eq!(internal_call_id, "one"),
        _ => panic!("expected a delta of a call"),
    }
}

#[test]
fn fragments_are_worth_their_concatenation() {
    let mut apart = StreamDeltaState::new();
    for fragment in [r#" {"k": "#, r#""}""#, r#" } "#] {
        let delta = Json::empty_object().with(
            "function",
            Json::empty_object()
                .with("name", Json::Str("f".to_string()))
                .with("arguments", Json::Str(fragment.to_string())),
        );
        apart.apply_call_delta(&delta, "i".to_string());
    }
    assert_eq!(events(&apart.flush_tool_calls("", None)), vec![r#"call::f:{"k":"}"}"#]);
}

#[test]
fn text_after_an_object_makes_it_a_string_again() {
    let mut state = StreamDeltaState::new();
    state.parse_delta(r#"{"tool_calls": [{"function": {"name": "f", "arguments": "{}"}}]}"#);
    state.parse_delta(r#"{"tool_calls": [{"function": {"arguments": "x"}}]}"#);
    assert!(state.has_broken_calls());
    assert_eq!(events(&state.flush_tool_calls("", None)), vec!["call::f:\"{}x\""]);
}

#[test]
fn broken_arguments_are_read_again_from_the_output() {
    let broken = r#"{"tool_calls": [{"id": "c", "function": {"name": "f", "arguments": "{\"a\": "}}]}"#;
    let output = "<tool_call><function=f><parameter=a>1</parameter></tool_call>";
    let mut state = StreamDeltaState::new();
    state.parse_delta(broken);
    assert!(state.has_broken_calls());
    assert_eq!(events(&state.flush_tool_calls(output, None)), vec![r#"call:c:f:{"a":"1"}"#]);
    let message = r#"{"tool_calls": [{"function": {"name": "f", "arguments": "{\"a\": 2}"}}]}"#;
    let mut state = StreamDeltaState::new();
    state.parse_delta(broken);
    assert_eq!(events(&state.flush_tool_calls(output, Some(message))), vec![r#"call:c:f:{"a":2}"#]);
    let mut state = StreamDeltaState::new();
    state.parse_delta(broken);
    assert_eq!(events(&state.flush_tool_calls("none", None)), vec![r#"call:c:f:"{\"a\": ""#]);
}

#[test]
fn unbroken_and_nameless_calls_ignore_the_output() {
    let mut state = StreamDeltaState::new();
    state.parse_delta(r#"{"tool_calls": [{"index": 0, "function": {"name": "f", "arguments": "{\"a\": 9}"}},
        {"index": 1, "function": {"arguments": "{"}}]}"#);
    assert!(!state.has_broken_calls());
    let output = "<tool_call><function=f><parameter=a>1</parameter></tool_call>";
    assert_eq!(events(&state.flush_tool_calls(output, None)), vec![r#"call::f:{"a":9}"#]);
}

#[test]
fn arguments_are_read_only_between_braces() {
    let read = |text: &str| take_arguments(text.to_string(), Ok(Json::Bool(true))).print();
    assert_eq!(read(" {x} \n"), "true");
    assert_eq!(read("{x"), "\"{x\"");
    assert_eq!(read("x}"), "\"x}\"");
    assert_eq!(read(""), "\"\"");
    assert_eq!(take_arguments("{}".to_string(), Err("e".to_string())).print(), "\"{}\"");
}

#[test]
fn deltas_are_applied_with_given_identifiers() {
    let mut state = StreamDeltaState::new();
    let call = |name: &str| {
        Json::empty_object()
            .with("function", Json::empty_object().with("name", Json::Str(name.to_string())))
    };
    let delta = Json::empty_object()
        .with("content", Json::Str("hi".to_string()))
        .with("tool_calls", Json::Array(vec![call("f"), call("g")]));
    let choices = state.apply_delta(&delta, vec!["one".to_string(), "two".to_string()]);
    assert_eq!(events(&choices), vec!["message:hi", "name::f", "name::g"]);
    for choice in &choices[1..] {
        match choice {
            StreamChoice::ToolCallDelta { internal_call_id, .. } => assert_eq!(internal_call_id, "one"),
            _ => panic!("expected a delta of a call"),
        }
    }
    assert_eq!(events(&state.flush_tool_calls("", None)), vec!["call::g:null"]);
}

#[test]
fn delta_changes_the_call_of_its_index_only() {
    let mut state = StreamDeltaState::new();
    let named = |name: &str| {
        Json::empty_object()
            .with("function", Json::empty_object().with("name", Json::Str(name.to_string())))
    };
    state.apply_delta_at(5, &named("f"), "a".to_string());
    state.apply_delta_at(u64::MAX, &named("g"), "b".to_string());
    state.apply_delta_at(5, &named("h"), "c".to_string());
    assert_eq!(events(&state.flush_tool_calls("", None)), vec!["call::h:null", "call::g:null"]);
}

#[test]
fn broken_calls_are_repaired_by_their_first_namesake() {
    let mut state = StreamDeltaState::new();
    let broken = Json::empty_object().with(
        "function",
        Json::empty_object()
            .with("name", Json::Str("f".to_string()))
            .with("arguments", Json::Str("{".to_string())),
    );
    state.apply_delta_at(0, &broken, "a".to_string());
    let reparsed = vec![
        ("g".to_string(), Json::Bool(false)),
        ("f".to_string(), Json::empty_object()),
        ("f".to_string(), Json::Bool(true)),
    ];
    assert_eq!(events(&state.flush_repaired(Some(&reparsed))), vec!["call::f:{}"]);
    assert!(state.flush_repaired(Some(&reparsed)).is_empty());
}

#[test]
fn shown_fragments_are_what_a_call_gathers() {
    let mut state = StreamDeltaState::new();
    let mut shown = String::new();
    for fragment in ["{\"a\"", "", ": [1, ", "2]", "}"] {
        let delta = Json::empty_object().with(
            "function",
            Json::empty_object()
                .with("name", Json::Str("f".to_string()))
                .with("arguments", Json::Str(fragment.to_string())),
        );
        for choice in state.apply_delta_at(0, &delta, "id".to_string()) {
            if let StreamChoice::ToolCallDelta { content: ToolCallDeltaContent::Delta(text), .. } = choice {
                shown.push_str(&text);
            }
        }
    }
    assert_eq!(shown, "{\"a\": [1, 2]}");
    assert_eq!(events(&state.flush_repaired(None)), vec!["call::f:{\"a\":[1,2]}"]);
}

#[test]
fn object_is_gathered_however_it_is_cut() {
    let object = " { \"a\": \"}{\", \"b\": {\"c\": [1, {}]}, \"d\": 2.50 }";
    let chars: Vec<char> = object.chars().collect();
    for first in 1..chars.len() {
        for second in first..chars.len() {
            let mut state = StreamDeltaState::new();
            let mut ids: Vec<String> = Vec::new();
            for cut in [&chars[..first], &chars[first..second], &chars[second..]] {
                let fragment: String = cut.iter().collect();
                let call = Json::empty_object().with(
                    "function",
                    Json::empty_object().with("arguments", Json::Str(fragment.clone())),
                );
                let delta = Json::empty_object().with("tool_calls", Json::Array(vec![call]));
                let choices = state.parse_delta(&delta.print());
                if fragment.is_empty() {
                    assert!(choices.is_empty());
                    continue;
                }
                assert_eq!(choices.len(), 1);
                match &choices[0] {
                    StreamChoice::ToolCallDelta {
                        internal_call_id,
                        content: ToolCallDeltaContent::Delta(text),
                        ..
                    } => {
                        assert_eq!(*text, fragment);
                        ids.push(internal_call_id.clone());
                    }
                    _ => panic!("expected a fragment"),
                }
            }
            assert!(ids.iter().all(|id| *id == ids[0]));
            let name = Json::empty_object()
                .with("function", Json::empty_object().with("name", Json::Str("f".to_string())));
            state.apply_delta_at(0, &name, "unused".to_string());
            assert_eq!(
                events(&state.flush_repaired(None)),
                vec!["call::f:{\"a\":\"}{\",\"b\":{\"c\":[1,{}]},\"d\":2.5}"]
            );
        }
    }
}

use std::collections::HashSet;

use rig_llama_cpp::generation::{
    cancel_message, wants_parser, DecodeFailure, Generation, PieceAction, Step, TokenAction,
};
use rig_llama_cpp::message::AssistantContent;
use rig_llama_cpp::sampling::TokenToStringError;
use rig_llama_cpp::slot::SlotEntry;
use rig_llama_cpp::streaming::StreamChoice;

fn generation(max_tokens: u32, streaming: bool, schema: bool, parser: bool, stops: &[&str]) -> Generation {
    let stops: Vec<String> = stops.iter().map(|stop| stop.to_string()).collect();
    Generation::new(max_tokens, 10, false, streaming, schema, parser, HashSet::from([99]), &stops)
}

fn piece(text: &str) -> Result<String, TokenToStringError> {
    Ok(text.to_string())
}

fn texts(choices: &[StreamChoice]) -> Vec<String> {
    choices
        .iter()
        .map(|choice| match choice {
            StreamChoice::Message(text) => text.clone(),
            StreamChoice::ToolCall(call) => format!("{}({})", call.name, call.arguments.print()),
            _ => "delta".to_string(),
        })
        .collect()
}

#[test]
fn steps_are_bounded_cancelled_and_closed() {
    let mut run = generation(1, true, false, false, &[]);
    assert!(matches!(run.next_step(false, false, 5), Step::Sample(4)));
    assert!(matches!(run.next_step(true, true, 5), Step::Fail(text) if text == "inference cancelled"));
    assert!(matches!(run.next_step(false, true, 5), Step::Finish));
    let mut entries = Vec::new();
    run.take_piece(piece("a"));
    assert!(run.take_decode(3, Ok(()), &mut entries).is_ok());
    assert!(matches!(run.next_step(true, false, 1), Step::Finish));
    let silent = generation(1, false, false, false, &[]);
    assert!(matches!(silent.next_step(false, true, 1), Step::Sample(0)));
    assert_eq!(cancel_message(), "inference cancelled");
}

#[test]
fn first_token_may_come_from_the_last_logits() {
    let mut run = Generation::new(9, 0, true, false, false, false, HashSet::new(), &Vec::new());
    assert!(matches!(run.next_step(false, false, 8), Step::Sample(-1)));
    run.take_piece(piece("a"));
    let mut entries = Vec::new();
    assert!(run.take_decode(1, Ok(()), &mut entries).is_ok());
    assert!(matches!(run.next_step(false, false, 1), Step::Sample(0)));
}

#[test]
fn preserved_tokens_are_shown() {
    let run = generation(5, false, false, false, &[]);
    assert!(run.take_token(99, false) == TokenAction::Detokenize { decode_special: true });
    assert!(run.take_token(1, false) == TokenAction::Detokenize { decode_special: false });
    assert!(run.take_token(99, true) == TokenAction::Finish);
}

#[test]
fn output_is_the_pieces_at_following_positions() {
    let mut run = generation(5, false, false, false, &["STOP"]);
    let mut entries = vec![SlotEntry::Text(1)];
    for (token, text) in [(4, "a"), (5, ""), (6, "bé")] {
        assert!(matches!(run.take_piece(piece(text)), PieceAction::Decode));
        let entry = run.batch_entry(token);
        assert_eq!(entry.position, 10 + entries.len() as i32 - 1);
        assert_eq!(entry.token, token);
        assert!(entry.logits);
        assert!(run.take_decode(token, Ok(()), &mut entries).is_ok());
    }
    assert!(entries == vec![SlotEntry::Text(1), SlotEntry::Text(4), SlotEntry::Text(5), SlotEntry::Text(6)]);
    let result = run.into_result(None, 10, 7);
    assert_eq!(result.text, "abé");
    assert_eq!(result.completion_tokens, 3);
    assert_eq!(result.prompt_tokens, 10);
    assert_eq!(result.cached_input_tokens, 7);
    assert!(matches!(&result.choice[0], AssistantContent::Text(text) if text == "abé"));
}

#[test]
fn stop_texts_end_the_output_and_are_cut() {
    let mut run = generation(5, true, false, false, &["xx", "END"]);
    let mut entries = Vec::new();
    assert!(matches!(run.take_piece(piece("text E")), PieceAction::Send(_)));
    assert!(run.take_decode(1, Ok(()), &mut entries).is_ok());
    assert!(matches!(run.take_piece(piece("ND")), PieceAction::Finish));
    assert_eq!(run.text(), "text ");
    assert_eq!(run.into_result(None, 1, 0).completion_tokens, 2);
    let mut empty = generation(5, false, false, false, &[""]);
    assert!(matches!(empty.take_piece(piece("a")), PieceAction::Finish));
    assert_eq!(empty.text(), "a");
}

#[test]
fn pieces_without_text_are_empty_and_others_fail() {
    let mut run = generation(5, true, false, false, &[]);
    assert!(matches!(
        run.take_piece(Err(TokenToStringError::InsufficientBufferSpace(-9))),
        PieceAction::Fail(text) if text == "Token to piece failed: Insufficient Buffer Space -9"
    ));
    assert!(matches!(
        run.take_piece(Err(TokenToStringError::UnknownTokenType)),
        PieceAction::Send(StreamChoice::Message(text)) if text.is_empty()
    ));
}

#[test]
fn unparsed_stream_sends_what_it_generates() {
    let mut run = generation(9, true, false, false, &[]);
    let mut entries = Vec::new();
    let mut sent = String::new();
    for text in ["one ", "two ", "three"] {
        match run.take_piece(piece(text)) {
            PieceAction::Send(StreamChoice::Message(text)) => sent.push_str(&text),
            _ => panic!("expected a message"),
        }
        assert!(run.take_decode(1, Ok(()), &mut entries).is_ok());
    }
    assert_eq!(run.text(), sent);
}

#[test]
fn parsed_stream_sends_the_events_of_its_deltas() {
    let mut run = generation(9, true, false, true, &[]);
    assert!(matches!(run.take_piece(piece("abc")), PieceAction::Feed(text) if text == "abc"));
    let deltas = vec![r#"{"content": "a"}"#.to_string(), r#"{"content": "b"}"#.to_string()];
    assert_eq!(texts(&run.take_deltas("abc".to_string(), Some(&deltas))), vec!["a", "b"]);
    assert_eq!(texts(&run.take_deltas("abc".to_string(), None)), vec!["abc"]);
    let call = vec![r#"{"tool_calls": [{"function": {"name": "f", "arguments": "{"}}]}"#.to_string()];
    assert_eq!(run.close_parser(Some(&call)).len(), 2);
    assert!(run.close_parser(None).is_empty());
    assert!(run.close_needs_template());
    let message = r#"{"tool_calls": [{"function": {"name": "f", "arguments": "{\"a\": 1}"}}]}"#;
    assert_eq!(texts(&run.close(Some(message))), vec![r#"f({"a":1})"#]);
    assert!(!run.close_needs_template());
    assert!(run.close(None).is_empty());
}

#[test]
fn structured_stream_sends_one_message() {
    let mut run = generation(9, true, true, true, &[]);
    assert!(matches!(run.take_piece(piece("```json\n{\"a\": 1}\n```")), PieceAction::Decode));
    assert!(run.close_parser(Some(&vec![r#"{"content": "x"}"#.to_string()])).is_empty());
    assert_eq!(texts(&run.close(None)), vec!["{\"a\": 1}"]);
    let result = run.into_result(None, 1, 0);
    assert_eq!(result.text, "{\"a\": 1}");
    assert!(matches!(&result.choice[0], AssistantContent::Text(text) if text == "{\"a\": 1}"));
    let mut plain = generation(9, true, true, false, &[]);
    plain.take_piece(piece("no object"));
    assert!(plain.close(None).is_empty());
    let result = plain.into_result(None, 1, 0);
    assert_eq!(result.text, "no object");
    assert!(matches!(&result.choice[0], AssistantContent::Text(text) if text == "no object"));
    let mut whole = generation(9, false, true, false, &[]);
    whole.take_piece(piece("x{}"));
    let result = whole.into_result(None, 1, 0);
    assert_eq!(result.text, "x{}");
    assert!(matches!(&result.choice[0], AssistantContent::Text(text) if text == "{}"));
}

#[test]
fn silent_generation_is_parsed_as_a_whole() {
    let mut run = generation(9, false, false, false, &[]);
    run.take_piece(piece("<tool_call><function=f></tool_call>"));
    assert!(run.close(None).is_empty());
    assert!(run.result_needs_template());
    let result = run.into_result(None, 1, 0);
    assert!(matches!(&result.choice[0], AssistantContent::ToolCall(call) if call.name == "f"));
    let mut schema = generation(9, false, true, false, &[]);
    schema.take_piece(piece("{}"));
    assert!(!schema.result_needs_template());
}

#[test]
fn decode_failures_are_reported_and_change_nothing() {
    let mut run = generation(9, false, false, false, &[]);
    run.take_piece(piece("a"));
    let mut entries = Vec::new();
    assert_eq!(
        run.take_decode(1, Err(DecodeFailure::Add("full".to_string())), &mut entries),
        Err("Batch add failed: full".to_string())
    );
    assert_eq!(
        run.take_decode(1, Err(DecodeFailure::Decode("oom".to_string())), &mut entries),
        Err("Decode failed: oom".to_string())
    );
    assert!(entries.is_empty());
    assert_eq!(run.batch_entry(1).position, 10);
}

#[test]
fn parser_is_wanted_by_streams_without_a_schema() {
    assert!(wants_parser(true, false));
    assert!(!wants_parser(true, true));
    assert!(!wants_parser(false, false));
}

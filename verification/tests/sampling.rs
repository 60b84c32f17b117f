use rig_llama_cpp::sampling::{
    build_preserved_token_set, get_additional_stops, plan_grammar, regex_escape, sampler_chain,
    token_piece_or_empty, GrammarPlan, GrammarTrigger, GrammarTriggerType, SamplerStep,
    TemplateInfo, TokenToStringError,
};

#[test]
fn token_piece_or_empty_passes_ok_through() {
    let result = token_piece_or_empty(Ok("hello".to_string()));
    assert_eq!(result.as_deref(), Ok("hello"));
}

#[test]
fn token_piece_or_empty_swallows_unknown_token_type() {
    let result = token_piece_or_empty(Err(TokenToStringError::UnknownTokenType));
    assert_eq!(result.as_deref(), Ok(""));
}

#[test]
fn token_piece_or_empty_propagates_real_errors() {
    let result = token_piece_or_empty(Err(TokenToStringError::InsufficientBufferSpace(-32)));
    let err = result.expect_err("expected error to propagate");
    assert!(err.starts_with("Token to piece failed:"), "got: {err}");
}

#[test]
fn token_errors_are_spelled_out() {
    let error = |error: TokenToStringError| match token_piece_or_empty(Err(error)) {
        Ok(_) => panic!("expected an error"),
        Err(text) => text,
    };
    assert_eq!(
        error(TokenToStringError::InsufficientBufferSpace(-32)),
        "Token to piece failed: Insufficient Buffer Space -32"
    );
    assert_eq!(
        error(TokenToStringError::FromUtf8Error("at 1".to_string())),
        "Token to piece failed: FromUtf8Error at 1"
    );
    assert_eq!(error(TokenToStringError::Other("why".to_string())), "Token to piece failed: why");
    assert_eq!(TokenToStringError::UnknownTokenType.message(), "Unknown Token Type");
}

#[test]
fn metacharacters_are_escaped() {
    assert_eq!(regex_escape(r"a.b"), r"a\.b");
    assert_eq!(regex_escape(r"\.^$*+?()[]{}|"), r"\\\.\^\$\*\+\?\(\)\[\]\{\}\|");
    assert_eq!(regex_escape(""), "");
}

#[test]
fn plain_text_is_not_escaped() {
    assert_eq!(regex_escape("<tool_call> é-_/"), "<tool_call> é-_/");
}

#[test]
fn escaping_is_undone_by_dropping_backslashes() {
    let text = r"C:\dir (x) [1]";
    let mut plain = String::new();
    let pattern = regex_escape(text);
    let mut chars = pattern.chars();
    while let Some(c) = chars.next() {
        plain.push(if c == '\\' { chars.next().unwrap() } else { c });
    }
    assert_eq!(plain, text);
}

fn trigger(trigger_type: GrammarTriggerType, value: &str, token: Option<i32>) -> GrammarTrigger {
    GrammarTrigger { trigger_type, value: value.to_string(), token }
}

fn template(lazy: bool, triggers: Vec<GrammarTrigger>) -> TemplateInfo {
    TemplateInfo {
        grammar: Some("root ::= x".to_string()),
        grammar_lazy: lazy,
        grammar_triggers: triggers,
        additional_stops: vec!["</s>".to_string(), "END".to_string()],
    }
}

#[test]
fn lazy_grammar_collects_patterns_and_tokens() {
    let info = template(
        true,
        vec![
            trigger(GrammarTriggerType::Word, "a.b", None),
            trigger(GrammarTriggerType::Token, "t", Some(7)),
            trigger(GrammarTriggerType::Pattern, "p+", Some(8)),
            trigger(GrammarTriggerType::PatternFull, "q", None),
            trigger(GrammarTriggerType::Token, "u", None),
        ],
    );
    match plan_grammar(Some(&info)) {
        GrammarPlan::Lazy { grammar, patterns, tokens } => {
            assert_eq!(grammar, "root ::= x");
            assert_eq!(patterns, vec![r"a\.b", "p+", "^q$"]);
            assert_eq!(tokens, vec![7]);
        }
        _ => panic!("expected a lazy grammar"),
    }
}

#[test]
fn full_patterns_are_anchored_once() {
    let anchored = |pattern: &str| {
        let info = template(true, vec![trigger(GrammarTriggerType::PatternFull, pattern, None)]);
        match plan_grammar(Some(&info)) {
            GrammarPlan::Lazy { patterns, .. } => patterns[0].clone(),
            _ => panic!("expected a lazy grammar"),
        }
    };
    assert_eq!(anchored(""), "^$");
    assert_eq!(anchored("^"), "^$");
    assert_eq!(anchored("$"), "^$");
    assert_eq!(anchored("^a$"), "^a$");
    assert_eq!(anchored("a"), "^a$");
}

#[test]
fn grammar_without_triggers_is_eager() {
    let eager = |info: &TemplateInfo| {
        matches!(plan_grammar(Some(info)), GrammarPlan::Eager(grammar) if grammar == "root ::= x")
    };
    assert!(eager(&template(true, Vec::new())));
    assert!(eager(&template(true, vec![trigger(GrammarTriggerType::Token, "t", None)])));
    assert!(eager(&template(false, vec![trigger(GrammarTriggerType::Word, "w", None)])));
    let mut info = template(true, Vec::new());
    info.grammar = None;
    assert!(matches!(plan_grammar(Some(&info)), GrammarPlan::Free));
    assert!(matches!(plan_grammar(None), GrammarPlan::Free));
}

#[test]
fn grammar_comes_first_in_the_chain() {
    let chain = sampler_chain(true, 40);
    assert_eq!(chain.len(), 7);
    assert!(chain[0] == SamplerStep::Grammar);
    assert!(chain[1] == SamplerStep::TopK(40));
    assert!(chain[6] == SamplerStep::Distribution { seed: 42 });
    let free = sampler_chain(false, 1);
    assert_eq!(free.len(), 6);
    assert!(free[0] == SamplerStep::TopK(1));
    assert!(free[1] == SamplerStep::TopP { min_keep: 1 });
    assert!(free[2] == SamplerStep::MinP { min_keep: 1 });
    assert!(free[3] == SamplerStep::Temperature);
    assert!(free[4] == SamplerStep::Penalties { last_n: -1 });
}

#[test]
fn single_tokens_are_preserved() {
    let tokens = build_preserved_token_set(&vec![Some(vec![5]), None, Some(vec![6, 7]), Some(vec![]), Some(vec![5])]);
    assert_eq!(tokens.len(), 1);
    assert!(tokens.contains(&5));
}

#[test]
fn stops_come_from_the_template() {
    assert_eq!(get_additional_stops(Some(&template(false, Vec::new()))), vec!["</s>", "END"]);
    assert!(get_additional_stops(None).is_empty());
}

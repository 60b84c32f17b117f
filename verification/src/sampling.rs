//! Sampling: what the chat template asks of the sampler.
use crate::text::{
    chars_of, lemma_views_push, result_view, signed_decimal, signed_decimal_text,
    views,
};
use std::collections::HashSet;
use vstd::prelude::*;
use vstd::std_specs::hash::*;
use vstd::string::*;

verus! {

/// Why a token has no text.
pub enum TokenToStringError {
    /// The token has no printable representation.
    UnknownTokenType,
    /// The buffer was too small; the number is what llama.cpp returned.
    InsufficientBufferSpace(i32),
    /// The bytes of the token are not valid UTF-8; the text says where.
    FromUtf8Error(String),
    /// Any other reason, in words.
    Other(String),
}

/// What an error says.
pub open spec fn token_error_text(error: TokenToStringError) -> Seq<char> {
    match error {
        TokenToStringError::UnknownTokenType => "Unknown Token Type"@,
        TokenToStringError::InsufficientBufferSpace(size) => "Insufficient Buffer Space "@
            + signed_decimal(size as int),
        TokenToStringError::FromUtf8Error(text) => "FromUtf8Error "@ + text@,
        TokenToStringError::Other(text) => text@,
    }
}

impl TokenToStringError {
    /// Says what the error is.
    pub fn message(&self) -> (text: String)
        ensures
            text@ == token_error_text(*self),
    {
        match self {
            TokenToStringError::UnknownTokenType => "Unknown Token Type".to_owned(),
            TokenToStringError::InsufficientBufferSpace(size) => {
                let mut text = "Insufficient Buffer Space ".to_owned();
                text.append(signed_decimal_text(*size).as_str());
                text
            },
            TokenToStringError::FromUtf8Error(reason) => {
                let mut text = "FromUtf8Error ".to_owned();
                text.append(reason.as_str());
                text
            },
            TokenToStringError::Other(text) => text.clone(),
        }
    }
}

/// The piece of text that a token adds: a token without a printable
/// representation adds nothing, and every other error is one.
pub open spec fn token_piece(result: Result<String, TokenToStringError>) -> Result<
    Seq<char>,
    Seq<char>,
> {
    match result {
        Ok(piece) => Ok(piece@),
        Err(TokenToStringError::UnknownTokenType) => Ok(Seq::empty()),
        Err(other) => Err("Token to piece failed: "@ + token_error_text(other)),
    }
}

/// Computes [`token_piece`].
pub fn token_piece_or_empty(result: Result<String, TokenToStringError>) -> (piece: Result<
    String,
    String,
>)
    ensures
        result_view(piece) == token_piece(result),
{
    match result {
        Ok(piece) => Ok(piece),
        Err(TokenToStringError::UnknownTokenType) => Ok(String::new()),
        Err(other) => {
            let mut text = "Token to piece failed: ".to_owned();
            text.append(other.message().as_str());
            Err(text)
        },
    }
}

/// Whether `c` has a meaning of its own in a regular expression.
pub open spec fn metacharacter(c: char) -> bool {
    ||| c == '\\'
    ||| c == '.'
    ||| c == '^'
    ||| c == '$'
    ||| c == '*'
    ||| c == '+'
    ||| c == '?'
    ||| c == '('
    ||| c == ')'
    ||| c == '['
    ||| c == ']'
    ||| c == '{'
    ||| c == '}'
    ||| c == '|'
}

/// `c` as it is written in a regular expression that matches it.
pub open spec fn escaped_char(c: char) -> Seq<char> {
    if metacharacter(c) {
        seq!['\\', c]
    } else {
        seq![c]
    }
}

/// `s` with a backslash before every metacharacter.
pub open spec fn escaped(s: Seq<char>) -> Seq<char>
    decreases s.len(),
{
    if s.len() == 0 {
        Seq::empty()
    } else {
        escaped(s.drop_last()) + escaped_char(s.last())
    }
}

/// `s` without the backslashes that escape the character after them.
pub open spec fn unescaped(s: Seq<char>) -> Seq<char>
    decreases s.len(),
{
    if s.len() == 0 {
        Seq::empty()
    } else if s[0] == '\\' && s.len() > 1 {
        seq![s[1]] + unescaped(s.skip(2))
    } else {
        seq![s[0]] + unescaped(s.skip(1))
    }
}

/// An escaped character is read back, and what follows it is read on its own.
proof fn lemma_unescaped_char(c: char, rest: Seq<char>)
    ensures
        unescaped(escaped_char(c) + rest) == seq![c] + unescaped(rest),
{
    let s = escaped_char(c) + rest;
    if metacharacter(c) {
        assert(s[0] == '\\' && s[1] == c);
        assert(s.skip(2) =~= rest);
    } else {
        assert(s[0] == c);
        assert(s.skip(1) =~= rest);
    }
}

/// What precedes an escaped text is escaped on its own.
proof fn lemma_escaped_first(s: Seq<char>)
    requires
        s.len() > 0,
    ensures
        escaped(s) == escaped_char(s[0]) + escaped(s.skip(1)),
    decreases s.len(),
{
    if s.len() == 1 {
        reveal_with_fuel(escaped, 2);
        assert(s.skip(1) =~= Seq::empty());
        assert(escaped(s) =~= escaped_char(s[0]));
        assert(escaped_char(s[0]) + Seq::<char>::empty() =~= escaped_char(s[0]));
    } else {
        lemma_escaped_first(s.drop_last());
        assert(s.drop_last().skip(1) =~= s.skip(1).drop_last());
        assert(escaped(s) =~= escaped_char(s[0]) + (escaped(s.skip(1).drop_last()) + escaped_char(
            s.last(),
        )));
    }
}

/// Escaping loses nothing: dropping the escapes gives the text back.
pub proof fn law_escaping_is_undone(s: Seq<char>)
    ensures
        unescaped(escaped(s)) == s,
    decreases s.len(),
{
    if s.len() > 0 {
        lemma_escaped_first(s);
        law_escaping_is_undone(s.skip(1));
        lemma_unescaped_char(s[0], escaped(s.skip(1)));
        assert(seq![s[0]] + s.skip(1) =~= s);
    }
}

/// A text without metacharacters stays as it is.
pub proof fn law_plain_text_is_not_escaped(s: Seq<char>)
    requires
        forall|i: int| 0 <= i < s.len() ==> !metacharacter(#[trigger] s[i]),
    ensures
        escaped(s) == s,
    decreases s.len(),
{
    if s.len() > 0 {
        let before = s.drop_last();
        assert forall|i: int| 0 <= i < before.len() implies !metacharacter(#[trigger] before[i]) by {
            assert(before[i] == s[i]);
        }
        law_plain_text_is_not_escaped(before);
        assert(!metacharacter(s[s.len() - 1]));
        assert(before + seq![s.last()] =~= s);
    }
}

/// Decides [`metacharacter`].
fn is_metacharacter(c: char) -> (meta: bool)
    ensures
        meta == metacharacter(c),
{
    c == '\\' || c == '.' || c == '^' || c == '$' || c == '*' || c == '+' || c == '?' || c == '('
        || c == ')' || c == '[' || c == ']' || c == '{' || c == '}' || c == '|'
}

/// Escapes the metacharacters of `text`.
pub fn regex_escape(text: &str) -> (pattern: String)
    ensures
        pattern@ == escaped(text@),
{
    let chars = chars_of(text);
    let mut pattern = String::new();
    let mut i: usize = 0;
    assert(pattern@ =~= Seq::empty());
    while i < chars.len()
        invariant
            i <= chars@.len(),
            chars@ == text@,
            pattern@ == escaped(text@.take(i as int)),
        decreases chars@.len() - i,
    {
        let ghost before = pattern@;
        assert(text@.take(i + 1).drop_last() =~= text@.take(i as int));
        if is_metacharacter(chars[i]) {
            pattern.push('\\');
        }
        pattern.push(chars[i]);
        assert(pattern@ =~= before + escaped_char(text@[i as int]));
        i = i + 1;
    }
    assert(text@.take(i as int) =~= text@);
    pattern
}

/// How a lazy grammar is triggered.
#[derive(Clone, Copy, PartialEq, Eq, Structural)]
pub enum GrammarTriggerType {
    /// By a token.
    Token,
    /// By a word, taken literally.
    Word,
    /// By a regular expression.
    Pattern,
    /// By a regular expression that has to match the whole output.
    PatternFull,
}

/// A trigger of a lazy grammar.
pub struct GrammarTrigger {
    /// How it is triggered.
    pub trigger_type: GrammarTriggerType,
    /// The word or pattern.
    pub value: String,
    /// The token, where it is a token that triggers.
    pub token: Option<i32>,
}

/// The view of a [`GrammarTrigger`].
pub struct GrammarTriggerView {
    pub trigger_type: GrammarTriggerType,
    pub value: Seq<char>,
    pub token: Option<i32>,
}

impl View for GrammarTrigger {
    type V = GrammarTriggerView;

    open spec fn view(&self) -> GrammarTriggerView {
        GrammarTriggerView {
            trigger_type: self.trigger_type,
            value: self.value@,
            token: self.token,
        }
    }
}

/// `pattern` between the anchors `^` and `$`, of which it may hold either already.
pub open spec fn anchored(pattern: Seq<char>) -> Seq<char> {
    let from_start = if pattern.len() > 0 && pattern[0] == '^' {
        pattern
    } else {
        seq!['^'] + pattern
    };
    if from_start.last() == '$' {
        from_start
    } else {
        from_start.push('$')
    }
}

/// An anchored pattern starts and ends with its anchors, which a second
/// anchoring leaves alone.
pub proof fn law_anchored_patterns_have_anchors(pattern: Seq<char>)
    ensures
        anchored(pattern).len() > 0,
        anchored(pattern)[0] == '^',
        anchored(pattern).last() == '$',
        anchored(anchored(pattern)) == anchored(pattern),
{
}

/// Computes [`anchored`].
fn anchor(pattern: &str) -> (full: String)
    ensures
        full@ == anchored(pattern@),
{
    let chars = chars_of(pattern);
    let mut full = String::new();
    let mut last: char = '^';
    if chars.len() == 0 || chars[0] != '^' {
        full.push('^');
    }
    full.append(pattern);
    if chars.len() > 0 {
        last = chars[chars.len() - 1];
    }
    let ghost from_start = full@;
    assert(pattern@.len() > 0 && pattern@[0] == '^' ==> from_start =~= pattern@);
    assert(!(pattern@.len() > 0 && pattern@[0] == '^') ==> from_start =~= seq!['^'] + pattern@);
    assert(from_start.last() == last);
    if last != '$' {
        full.push('$');
    }
    full
}

/// The patterns among the triggers, in order.
pub open spec fn trigger_patterns(triggers: Seq<GrammarTriggerView>) -> Seq<Seq<char>>
    decreases triggers.len(),
{
    if triggers.len() == 0 {
        Seq::empty()
    } else {
        let before = trigger_patterns(triggers.drop_last());
        let trigger = triggers.last();
        match trigger.trigger_type {
            GrammarTriggerType::Token => before,
            GrammarTriggerType::Word => before.push(escaped(trigger.value)),
            GrammarTriggerType::Pattern => before.push(trigger.value),
            GrammarTriggerType::PatternFull => before.push(anchored(trigger.value)),
        }
    }
}

/// The tokens among the triggers, in order.
pub open spec fn trigger_tokens(triggers: Seq<GrammarTriggerView>) -> Seq<i32>
    decreases triggers.len(),
{
    if triggers.len() == 0 {
        Seq::empty()
    } else {
        let before = trigger_tokens(triggers.drop_last());
        match (triggers.last().trigger_type, triggers.last().token) {
            (GrammarTriggerType::Token, Some(token)) => before.push(token),
            _ => before,
        }
    }
}

/// How the output is constrained.
pub enum GrammarPlan {
    /// Not at all.
    Free,
    /// By a grammar, from the start.
    Eager(String),
    /// By a grammar, once a pattern or a token triggers it.
    Lazy { grammar: String, patterns: Vec<String>, tokens: Vec<i32> },
}

/// The view of a [`GrammarPlan`].
pub enum GrammarPlanView {
    Free,
    Eager(Seq<char>),
    Lazy { grammar: Seq<char>, patterns: Seq<Seq<char>>, tokens: Seq<i32> },
}

impl View for GrammarPlan {
    type V = GrammarPlanView;

    open spec fn view(&self) -> GrammarPlanView {
        match self {
            GrammarPlan::Free => GrammarPlanView::Free,
            GrammarPlan::Eager(grammar) => GrammarPlanView::Eager(grammar@),
            GrammarPlan::Lazy { grammar, patterns, tokens } => GrammarPlanView::Lazy {
                grammar: grammar@,
                patterns: views(patterns@),
                tokens: tokens@,
            },
        }
    }
}

/// What the logic reads of an applied chat template.
pub struct TemplateInfo {
    /// The grammar of the output, where there is one.
    pub grammar: Option<String>,
    /// Whether the grammar waits for a trigger.
    pub grammar_lazy: bool,
    /// The triggers of a lazy grammar.
    pub grammar_triggers: Vec<GrammarTrigger>,
    /// Texts that end the output.
    pub additional_stops: Vec<String>,
}

/// How the template constrains the output. A lazy grammar that nothing would
/// trigger applies from the start.
pub open spec fn grammar_plan(template: Option<TemplateInfo>) -> GrammarPlanView {
    match template {
        Some(template) => match template.grammar {
            Some(grammar) => {
                let patterns = trigger_patterns(views(template.grammar_triggers@));
                let tokens = trigger_tokens(views(template.grammar_triggers@));
                if template.grammar_lazy && (patterns.len() > 0 || tokens.len() > 0) {
                    GrammarPlanView::Lazy { grammar: grammar@, patterns, tokens }
                } else {
                    GrammarPlanView::Eager(grammar@)
                }
            },
            None => GrammarPlanView::Free,
        },
        None => GrammarPlanView::Free,
    }
}

/// Computes [`grammar_plan`].
pub fn plan_grammar(template: Option<&TemplateInfo>) -> (plan: GrammarPlan)
    ensures
        plan@ == grammar_plan(
            match template {
                Some(template) => Some(*template),
                None => None,
            },
        ),
{
    let template = match template {
        Some(template) => template,
        None => {
            return GrammarPlan::Free;
        },
    };
    let grammar = match &template.grammar {
        Some(grammar) => grammar.clone(),
        None => {
            return GrammarPlan::Free;
        },
    };
    if !template.grammar_lazy {
        return GrammarPlan::Eager(grammar);
    }
    let triggers = &template.grammar_triggers;
    let ghost all = views(triggers@);
    let mut patterns: Vec<String> = Vec::new();
    let mut tokens: Vec<i32> = Vec::new();
    assert(views(patterns@) =~= Seq::empty());
    let mut i: usize = 0;
    while i < triggers.len()
        invariant
            i <= triggers@.len(),
            all == views(triggers@),
            views(patterns@) == trigger_patterns(all.take(i as int)),
            tokens@ == trigger_tokens(all.take(i as int)),
        decreases triggers@.len() - i,
    {
        broadcast use lemma_views_push;

        assert(all.take(i + 1).drop_last() =~= all.take(i as int));
        assert(all.take(i + 1).last() == triggers@[i as int]@);
        let trigger = &triggers[i];
        match trigger.trigger_type {
            GrammarTriggerType::Token => {
                if let Some(token) = trigger.token {
                    tokens.push(token);
                }
            },
            GrammarTriggerType::Word => {
                patterns.push(regex_escape(trigger.value.as_str()));
            },
            GrammarTriggerType::Pattern => {
                patterns.push(trigger.value.clone());
            },
            GrammarTriggerType::PatternFull => {
                patterns.push(anchor(trigger.value.as_str()));
            },
        }
        i = i + 1;
    }
    assert(all.take(i as int) =~= all);
    assert(views(patterns@).len() == patterns@.len());
    if patterns.len() == 0 && tokens.len() == 0 {
        GrammarPlan::Eager(grammar)
    } else {
        GrammarPlan::Lazy { grammar, patterns, tokens }
    }
}

/// One sampler of a chain, with what is fixed of it.
#[derive(Clone, Copy, PartialEq, Eq, Structural)]
pub enum SamplerStep {
    /// The grammar of the output.
    Grammar,
    /// The most likely tokens.
    TopK(i32),
    /// The nucleus of the distribution.
    TopP { min_keep: usize },
    /// Tokens above a share of the most likely one.
    MinP { min_keep: usize },
    /// The temperature.
    Temperature,
    /// Penalties on tokens that occurred.
    Penalties { last_n: i32 },
    /// The draw from what is left.
    Distribution { seed: u32 },
}

/// The samplers in the order in which they apply. A grammar comes first, so
/// that the others rank only what it leaves.
pub open spec fn sampler_steps(has_grammar: bool, top_k: i32) -> Seq<SamplerStep> {
    let base = seq![
        SamplerStep::TopK(top_k),
        SamplerStep::TopP { min_keep: 1 },
        SamplerStep::MinP { min_keep: 1 },
        SamplerStep::Temperature,
        SamplerStep::Penalties { last_n: -1i32 },
        SamplerStep::Distribution { seed: 42 },
    ];
    if has_grammar {
        seq![SamplerStep::Grammar] + base
    } else {
        base
    }
}

/// Lists [`sampler_steps`].
pub fn sampler_chain(has_grammar: bool, top_k: i32) -> (steps: Vec<SamplerStep>)
    ensures
        steps@ == sampler_steps(has_grammar, top_k),
{
    let mut steps: Vec<SamplerStep> = Vec::new();
    if has_grammar {
        steps.push(SamplerStep::Grammar);
    }
    steps.push(SamplerStep::TopK(top_k));
    steps.push(SamplerStep::TopP { min_keep: 1 });
    steps.push(SamplerStep::MinP { min_keep: 1 });
    steps.push(SamplerStep::Temperature);
    steps.push(SamplerStep::Penalties { last_n: -1 });
    steps.push(SamplerStep::Distribution { seed: 42 });
    assert(steps@ =~= sampler_steps(has_grammar, top_k));
    steps
}

/// The tokens that are shown although they are special: of the texts that the
/// template preserves, given by their tokens (nothing where they have none),
/// those that are one token.
pub open spec fn preserved_tokens(tokenizations: Seq<Option<Vec<i32>>>) -> Set<i32> {
    Set::new(
        |token: i32|
            exists|i: int|
                0 <= i < tokenizations.len() && option_tokens(#[trigger] tokenizations[i]) == Some(
                    seq![token],
                ),
    )
}

/// The tokens of a text, where it has any.
pub open spec fn option_tokens(tokens: Option<Vec<i32>>) -> Option<Seq<i32>> {
    match tokens {
        Some(tokens) => Some(tokens@),
        None => None,
    }
}

/// Collects [`preserved_tokens`].
pub fn build_preserved_token_set(tokenizations: &Vec<Option<Vec<i32>>>) -> (tokens: HashSet<i32>)
    ensures
        tokens@ == preserved_tokens(tokenizations@),
{
    broadcast use group_hash_axioms;

    let mut tokens: HashSet<i32> = HashSet::new();
    let mut i: usize = 0;
    assert(tokens@ =~= preserved_tokens(tokenizations@.take(0)));
    while i < tokenizations.len()
        invariant
            i <= tokenizations@.len(),
            tokens@ == preserved_tokens(tokenizations@.take(i as int)),
        decreases tokenizations@.len() - i,
    {
        broadcast use group_hash_axioms;

        let ghost before = tokenizations@.take(i as int);
        let ghost after = tokenizations@.take(i + 1);
        let ghost old_tokens = tokens@;
        if let Some(ids) = &tokenizations[i] {
            if ids.len() == 1 {
                assert(ids@ =~= seq![ids@[0]]);
                tokens.insert(ids[0]);
            }
        }
        assert forall|token: i32| #[trigger]
            tokens@.contains(token) == preserved_tokens(after).contains(token) by {
            if old_tokens.contains(token) {
                let k = choose|k: int|
                    0 <= k < before.len() && option_tokens(#[trigger] before[k]) == Some(
                        seq![token],
                    );
                assert(option_tokens(after[k]) == Some(seq![token]));
            }
            if preserved_tokens(after).contains(token) {
                let k = choose|k: int|
                    0 <= k < after.len() && option_tokens(#[trigger] after[k]) == Some(seq![token]);
                if k < i {
                    assert(option_tokens(before[k]) == Some(seq![token]));
                } else {
                    assert(after[i as int]->0@[0] == token);
                }
            }
            if tokens@.contains(token) && !old_tokens.contains(token) {
                assert(option_tokens(after[i as int]) == Some(seq![token]));
            }
        }
        assert(tokens@ =~= preserved_tokens(after));
        i = i + 1;
    }
    assert(tokenizations@.take(i as int) =~= tokenizations@);
    tokens
}

/// The stop texts that the template adds.
pub open spec fn stop_texts(template: Option<TemplateInfo>) -> Seq<Seq<char>> {
    match template {
        Some(template) => views(template.additional_stops@),
        None => Seq::empty(),
    }
}

/// Copies [`stop_texts`].
pub fn get_additional_stops(template: Option<&TemplateInfo>) -> (stops: Vec<String>)
    ensures
        views(stops@) == stop_texts(
            match template {
                Some(template) => Some(*template),
                None => None,
            },
        ),
{
    let mut stops: Vec<String> = Vec::new();
    assert(views(stops@) =~= Seq::empty());
    if let Some(template) = template {
        let ghost all = views(template.additional_stops@);
        assert(all.take(0) =~= Seq::empty());
        let mut i: usize = 0;
        while i < template.additional_stops.len()
            invariant
                i <= template.additional_stops@.len(),
                all == views(template.additional_stops@),
                views(stops@) == all.take(i as int),
            decreases template.additional_stops@.len() - i,
        {
            broadcast use lemma_views_push;

            stops.push(template.additional_stops[i].clone());
            assert(all.take(i + 1) =~= all.take(i as int).push(all[i as int]));
            i = i + 1;
        }
        assert(all.take(i as int) =~= all);
    }
    stops
}

/// Two texts, one after the other, are escaped one after the other; a
/// metacharacter gets a backslash in front of it, any other character stays.
pub proof fn law_escaping_goes_character_by_character(
    left: Seq<char>,
    right: Seq<char>,
    c: char,
)
    ensures
        escaped(left + right) == escaped(left) + escaped(right),
        "\\.^$*+?()[]{}|"@.contains(c) ==> escaped(seq![c]) == seq!['\\', c],
        !"\\.^$*+?()[]{}|"@.contains(c) ==> escaped(seq![c]) == seq![c],
    decreases right.len(),
{
    law_metacharacters_are_listed(c);
    assert(Seq::<char>::empty() + escaped_char(c) =~= escaped_char(c));
    reveal_with_fuel(escaped, 2);
    assert(seq![c].drop_last() =~= Seq::empty());
    if right.len() == 0 {
        assert(left + right =~= left);
        assert(escaped(left) + escaped(right) =~= escaped(left));
    } else {
        assert((left + right).drop_last() =~= left + right.drop_last());
        law_escaping_goes_character_by_character(left, right.drop_last(), c);
        assert(escaped(left + right) =~= escaped(left) + escaped(right));
    }
}

/// The metacharacters are these.
pub proof fn law_metacharacters_are_listed(c: char)
    ensures
        metacharacter(c) <==> "\\.^$*+?()[]{}|"@.contains(c),
{
    reveal_strlit("\\.^$*+?()[]{}|");
    let listed = "\\.^$*+?()[]{}|"@;
    assert(listed.len() == 14);
    assert(listed[0] == '\\' && listed[1] == '.' && listed[2] == '^' && listed[3] == '$'
        && listed[4] == '*' && listed[5] == '+' && listed[6] == '?' && listed[7] == '('
        && listed[8] == ')' && listed[9] == '[' && listed[10] == ']' && listed[11] == '{'
        && listed[12] == '}' && listed[13] == '|');
    if listed.contains(c) {
        let i = choose|i: int| 0 <= i < listed.len() && listed[i] == c;
        assert(0 <= i < 14);
    }
}

/// A pattern is put between one `^` and one `$`, whichever of them it holds
/// already, and nothing else of it changes.
pub proof fn law_anchors_are_added_once(core: Seq<char>)
    requires
        core.len() > 0 ==> core[0] != '^' && core.last() != '$',
    ensures
        anchored(core) == seq!['^'] + core + seq!['$'],
        anchored(seq!['^'] + core) == seq!['^'] + core + seq!['$'],
        anchored(core + seq!['$']) == seq!['^'] + core + seq!['$'],
        anchored(seq!['^'] + core + seq!['$']) == seq!['^'] + core + seq!['$'],
{
    let full = seq!['^'] + core + seq!['$'];
    let closed = core + seq!['$'];
    assert((seq!['^'] + core).push('$') =~= full);
    assert(seq!['^'] + closed =~= full);
    assert(full.last() == '$' && full[0] == '^' && closed.last() == '$');
    if core.len() > 0 {
        assert((seq!['^'] + core).last() == core.last());
        assert(closed[0] == core[0]);
        assert((seq!['^'] + core)[0] == '^');
    } else {
        assert(seq!['^'] + core =~= seq!['^']);
        assert(closed =~= seq!['$']);
    }
}

/// The patterns of two lists of triggers, one after the other, are those of the
/// first and then those of the second. A word is escaped, a pattern stays, a full
/// pattern gets its anchors, and a token gives none.
pub proof fn law_every_pattern_triggers(
    left: Seq<GrammarTriggerView>,
    right: Seq<GrammarTriggerView>,
    trigger: GrammarTriggerView,
)
    ensures
        trigger_patterns(left + right) == trigger_patterns(left) + trigger_patterns(right),
        trigger.trigger_type is Word ==> trigger_patterns(seq![trigger]) == seq![
            escaped(trigger.value),
        ],
        trigger.trigger_type is Pattern ==> trigger_patterns(seq![trigger]) == seq![trigger.value],
        trigger.trigger_type is PatternFull ==> trigger_patterns(seq![trigger]) == seq![
            anchored(trigger.value),
        ],
        trigger.trigger_type is Token ==> trigger_patterns(seq![trigger]) == Seq::<Seq<char>>::empty(),
    decreases right.len(),
{
    reveal_with_fuel(trigger_patterns, 2);
    assert(seq![trigger].drop_last() =~= Seq::empty());
    if right.len() == 0 {
        assert(left + right =~= left);
        assert(trigger_patterns(left) + trigger_patterns(right) =~= trigger_patterns(left));
    } else {
        assert((left + right).drop_last() =~= left + right.drop_last());
        law_every_pattern_triggers(left, right.drop_last(), trigger);
        assert(trigger_patterns(left + right) =~= trigger_patterns(left) + trigger_patterns(right));
    }
}

/// The tokens of two lists of triggers, one after the other, are those of the
/// first and then those of the second; only triggers of that kind give one.
pub proof fn law_every_token_triggers(
    left: Seq<GrammarTriggerView>,
    right: Seq<GrammarTriggerView>,
    trigger: GrammarTriggerView,
)
    ensures
        trigger_tokens(left + right) == trigger_tokens(left) + trigger_tokens(right),
        trigger.trigger_type is Token && trigger.token is Some ==> trigger_tokens(seq![trigger]) == seq![
            trigger.token->0,
        ],
        !(trigger.trigger_type is Token) || trigger.token is None ==> trigger_tokens(seq![trigger])
            == Seq::<i32>::empty(),
    decreases right.len(),
{
    reveal_with_fuel(trigger_tokens, 2);
    assert(seq![trigger].drop_last() =~= Seq::empty());
    if right.len() == 0 {
        assert(left + right =~= left);
        assert(trigger_tokens(left) + trigger_tokens(right) =~= trigger_tokens(left));
    } else {
        assert((left + right).drop_last() =~= left + right.drop_last());
        law_every_token_triggers(left, right.drop_last(), trigger);
        assert(trigger_tokens(left + right) =~= trigger_tokens(left) + trigger_tokens(right));
    }
}

/// Only a template with a grammar constrains the output, by just that grammar:
/// from the start, unless it is lazy and something triggers it, and then it
/// waits for all of the triggers.
pub proof fn law_grammars_wait_for_their_triggers(template: TemplateInfo)
    ensures
        grammar_plan(None) is Free,
        template.grammar is None ==> grammar_plan(Some(template)) is Free,
        template.grammar matches Some(grammar) ==> {
            let patterns = trigger_patterns(views(template.grammar_triggers@));
            let tokens = trigger_tokens(views(template.grammar_triggers@));
            &&& !template.grammar_lazy ==> grammar_plan(Some(template)) == GrammarPlanView::Eager(
                grammar@,
            )
            &&& patterns.len() == 0 && tokens.len() == 0 ==> grammar_plan(Some(template))
                == GrammarPlanView::Eager(grammar@)
            &&& template.grammar_lazy && (patterns.len() > 0 || tokens.len() > 0) ==> grammar_plan(
                Some(template),
            ) == (GrammarPlanView::Lazy { grammar: grammar@, patterns, tokens })
        },
{
}

/// With a grammar the same samplers apply in the same order behind it as
/// without one; the first of them keeps as many tokens as was asked for, and
/// the last draws.
pub proof fn law_a_grammar_comes_first(top_k: i32)
    ensures
        sampler_steps(true, top_k).len() == 7,
        sampler_steps(true, top_k)[0] is Grammar,
        sampler_steps(true, top_k).drop_first() == sampler_steps(false, top_k),
        sampler_steps(false, top_k).len() == 6,
        sampler_steps(false, top_k)[0] == SamplerStep::TopK(top_k),
        sampler_steps(false, top_k)[1] == (SamplerStep::TopP { min_keep: 1 }),
        sampler_steps(false, top_k)[2] == (SamplerStep::MinP { min_keep: 1 }),
        sampler_steps(false, top_k)[3] is Temperature,
        sampler_steps(false, top_k)[4] == (SamplerStep::Penalties { last_n: -1i32 }),
        sampler_steps(false, top_k)[5] == (SamplerStep::Distribution { seed: 42 }),
{
    assert(sampler_steps(true, top_k).drop_first() =~= sampler_steps(false, top_k));
}

/// The tokens that two lists of texts preserve are those of either; one text
/// preserves its token where it is one, and nothing where it is none or more.
pub proof fn law_single_tokens_are_preserved(
    left: Seq<Option<Vec<i32>>>,
    right: Seq<Option<Vec<i32>>>,
    tokens: Option<Vec<i32>>,
)
    ensures
        preserved_tokens(left + right) == preserved_tokens(left).union(preserved_tokens(right)),
        tokens is None || tokens->0@.len() != 1 ==> preserved_tokens(seq![tokens]) == Set::<
            i32,
        >::empty(),
        tokens is Some && tokens->0@.len() == 1 ==> preserved_tokens(seq![tokens]) == set![
            tokens->0@[0],
        ],
{
    assert forall|token: i32| preserved_tokens(left + right).contains(token) == (preserved_tokens(
        left,
    ).contains(token) || preserved_tokens(right).contains(token)) by {
        let both = left + right;
        if preserved_tokens(both).contains(token) {
            let i = choose|i: int|
                0 <= i < both.len() && option_tokens(#[trigger] both[i]) == Some(seq![token]);
            if i < left.len() {
                assert(option_tokens(left[i]) == Some(seq![token]));
            } else {
                assert(option_tokens(right[i - left.len()]) == Some(seq![token]));
            }
        }
        if preserved_tokens(left).contains(token) {
            let i = choose|i: int|
                0 <= i < left.len() && option_tokens(#[trigger] left[i]) == Some(seq![token]);
            assert(option_tokens(both[i]) == Some(seq![token]));
        }
        if preserved_tokens(right).contains(token) {
            let i = choose|i: int|
                0 <= i < right.len() && option_tokens(#[trigger] right[i]) == Some(seq![token]);
            assert(both[i + left.len()] == right[i]);
            assert(option_tokens(both[i + left.len()]) == Some(seq![token]));
        }
    }
    assert(preserved_tokens(left + right) =~= preserved_tokens(left).union(
        preserved_tokens(right),
    ));
    let one = seq![tokens];
    if tokens is Some && tokens->0@.len() == 1 {
        assert(tokens->0@ =~= seq![tokens->0@[0]]);
        assert(option_tokens(one[0]) == Some(seq![tokens->0@[0]]));
        assert forall|token: i32| preserved_tokens(one).contains(token) implies token
            == tokens->0@[0] by {
            assert(seq![token][0] == token);
        }
        assert(preserved_tokens(one) =~= set![tokens->0@[0]]);
    } else {
        assert forall|token: i32| !preserved_tokens(one).contains(token) by {
            assert(seq![token].len() == 1);
        }
        assert(preserved_tokens(one) =~= Set::empty());
    }
}

/// The stop texts are all those of the template, in order.
pub proof fn law_every_stop_text_is_kept(template: TemplateInfo)
    ensures
        stop_texts(None).len() == 0,
        stop_texts(Some(template)).len() == template.additional_stops@.len(),
        forall|k: int|
            0 <= k < template.additional_stops@.len() ==> #[trigger] stop_texts(Some(template))[k]
                == template.additional_stops@[k]@,
{
}

/// A token that has a text adds just that; one without a printable form adds
/// nothing, and any other failure is reported with what it says.
pub proof fn law_only_unprintable_tokens_add_nothing(
    piece: String,
    text: String,
    size: i32,
)
    ensures
        token_piece(Ok(piece)) == Ok::<Seq<char>, Seq<char>>(piece@),
        token_piece(Err(TokenToStringError::UnknownTokenType)) == Ok::<Seq<char>, Seq<char>>(
            Seq::empty(),
        ),
        token_piece(Err(TokenToStringError::InsufficientBufferSpace(size))) == Err::<
            Seq<char>,
            Seq<char>,
        >("Token to piece failed: "@ + ("Insufficient Buffer Space "@ + signed_decimal(size as int))),
        token_piece(Err(TokenToStringError::FromUtf8Error(text))) == Err::<Seq<char>, Seq<char>>(
            "Token to piece failed: "@ + ("FromUtf8Error "@ + text@),
        ),
        token_piece(Err(TokenToStringError::Other(text))) == Err::<Seq<char>, Seq<char>>(
            "Token to piece failed: "@ + text@,
        ),
{
}

/// What a trigger or a plan shows is what it holds.
pub proof fn law_plans_show_what_they_hold(trigger: GrammarTrigger, plan: GrammarPlan)
    ensures
        trigger@.trigger_type == trigger.trigger_type,
        trigger@.value == trigger.value@,
        trigger@.token == trigger.token,
        plan is Free ==> plan@ is Free,
        plan matches GrammarPlan::Eager(grammar) ==> plan@ == GrammarPlanView::Eager(grammar@),
        plan matches GrammarPlan::Lazy { grammar, patterns, tokens } ==> plan@ == (
        GrammarPlanView::Lazy { grammar: grammar@, patterns: views(patterns@), tokens: tokens@ }),
{
}

}

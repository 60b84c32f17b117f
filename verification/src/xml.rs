//! Tool calls that a model writes as XML.
use crate::json::{Json, JsonView};
use crate::text::{
    chars_of, find, find_from, law_split_pieces_join_to_the_text, lemma_find_from, occurs_at,
    option_view, option_views, slice_of, split, split_from, trim, trim_end, trim_start, trimmed,
    views, white_space,
};
use vstd::prelude::*;
use vstd::string::*;

verus! {

/// What stands in front of the first occurrence of `mark`; all of `s` where it does not occur.
pub open spec fn up_to(s: Seq<char>, mark: Seq<char>) -> Seq<char> {
    match find_from(s, 0, mark) {
        Some(i) => s.take(i),
        None => s,
    }
}

/// The blocks of `s` that follow a `<tool_call>` tag, each up to its `</tool_call>`.
pub open spec fn xml_blocks(s: Seq<char>) -> Seq<Seq<char>> {
    split_from(s, 0, "<tool_call>"@).skip(1).map_values(
        |piece: Seq<char>| up_to(piece, "</tool_call>"@),
    )
}

/// The parameters of a block from position `from` on, added to `members`:
/// each `<parameter=KEY>VALUE</parameter>`, key and value trimmed, up to the
/// first one that is not complete.
pub open spec fn xml_parameters(
    block: Seq<char>,
    from: int,
    members: Map<Seq<char>, JsonView>,
) -> Map<Seq<char>, JsonView>
    decreases block.len() + 1 - from,
{
    match find_from(block, from, "<parameter="@) {
        Some(tag) => {
            let key = tag + "<parameter="@.len();
            match find_from(block, key, ">"@) {
                Some(key_end) => {
                    match find_from(block, key_end + 1, "</parameter>"@) {
                        Some(end) if from <= end <= block.len() - "</parameter>"@.len()
                            && "</parameter>"@.len() > 0 => xml_parameters(
                            block,
                            end + "</parameter>"@.len(),
                            members.insert(
                                trim(block.subrange(key, key_end)),
                                JsonView::Str(trim(block.subrange(key_end + 1, end))),
                            ),
                        ),
                        _ => members,
                    }
                },
                None => members,
            }
        },
        None => members,
    }
}

/// The call that a block describes: the trimmed name of its `<function=NAME>`
/// tag, and its parameters.
pub open spec fn xml_call(block: Seq<char>) -> Option<(Seq<char>, JsonView)> {
    match find_from(block, 0, "<function="@) {
        Some(tag) => {
            let name = tag + "<function="@.len();
            match find_from(block, name, ">"@) {
                Some(end) => Some(
                    (
                        trim(block.subrange(name, end)),
                        JsonView::Object(xml_parameters(block, 0, Map::empty())),
                    ),
                ),
                None => None,
            }
        },
        None => None,
    }
}

/// The calls of the blocks, in order, without those whose name is empty;
/// nothing where a block names no function.
pub open spec fn xml_calls(blocks: Seq<Seq<char>>) -> Option<Seq<(Seq<char>, JsonView)>>
    decreases blocks.len(),
{
    if blocks.len() == 0 {
        Some(Seq::empty())
    } else {
        match (xml_calls(blocks.drop_last()), xml_call(blocks.last())) {
            (Some(calls), Some(call)) => Some(
                if call.0.len() == 0 {
                    calls
                } else {
                    calls.push(call)
                },
            ),
            _ => None,
        }
    }
}

/// The tool calls that `s` writes as XML, where there is at least one and
/// every block names a function.
pub open spec fn xml_tool_calls(s: Seq<char>) -> Option<Seq<(Seq<char>, JsonView)>> {
    match xml_calls(xml_blocks(s)) {
        Some(calls) if calls.len() > 0 => Some(calls),
        _ => None,
    }
}

/// Computes [`xml_parameters`] over a whole block.
fn parse_xml_parameters(block: &Vec<char>) -> (arguments: Json)
    ensures
        arguments@ == JsonView::Object(xml_parameters(block@, 0, Map::empty())),
{
    let open = chars_of("<parameter=");
    let bracket = chars_of(">");
    let close = chars_of("</parameter>");
    proof {
        reveal_strlit("<parameter=");
        reveal_strlit(">");
        reveal_strlit("</parameter>");
    }
    let mut arguments = Json::empty_object();
    let mut from: usize = 0;
    loop
        invariant
            open@ == "<parameter="@,
            bracket@ == ">"@,
            close@ == "</parameter>"@,
            bracket@.len() == 1,
            close@.len() == 12,
            from <= block.len(),
            arguments is Object,
            JsonView::Object(xml_parameters(block@, 0, Map::empty())) == JsonView::Object(
                xml_parameters(block@, from as int, arguments@->Object_0),
            ),
        decreases block@.len() - from,
    {
        let tag: usize = match find(block, from, &open) {
            Some(tag) => tag,
            None => {
                return arguments;
            },
        };
        let key: usize = tag + open.len();
        let key_end: usize = match find(block, key, &bracket) {
            Some(key_end) => key_end,
            None => {
                return arguments;
            },
        };
        let end: usize = match find(block, key_end + 1, &close) {
            Some(end) => end,
            None => {
                return arguments;
            },
        };
        let name = trimmed(block, key, key_end);
        let value = trimmed(block, key_end + 1, end);
        arguments = arguments.with(name.as_str(), Json::Str(value));
        from = end + close.len();
    }
}

/// Computes [`xml_call`].
fn parse_xml_call(block: &Vec<char>) -> (call: Option<(String, Json)>)
    ensures
        option_view(call) == xml_call(block@),
{
    let open = chars_of("<function=");
    let bracket = chars_of(">");
    let tag: usize = match find(block, 0, &open) {
        Some(tag) => tag,
        None => {
            return None;
        },
    };
    let name: usize = tag + open.len();
    let end: usize = match find(block, name, &bracket) {
        Some(end) => end,
        None => {
            return None;
        },
    };
    Some((trimmed(block, name, end), parse_xml_parameters(block)))
}

/// Reads the tool calls that some models write as XML.
///
/// ```text
/// <tool_call>
/// <function=write_file>
/// <parameter=path>
/// output.txt
/// </parameter>
/// </function>
/// </tool_call>
/// ```
pub fn parse_xml_tool_calls(output: &str) -> (calls: Option<Vec<(String, Json)>>)
    ensures
        option_views(calls) == xml_tool_calls(output@),
{
    broadcast use crate::text::lemma_views_push;

    let chars = chars_of(output);
    let open = chars_of("<tool_call>");
    let close = chars_of("</tool_call>");
    proof {
        reveal_strlit("<tool_call>");
    }
    let pieces = split(&chars, &open);
    let ghost blocks = xml_blocks(output@);
    let mut calls: Vec<(String, Json)> = Vec::new();
    let mut i: usize = 1;
    assert(blocks.take(0) =~= Seq::empty());
    assert(views(calls@) =~= Seq::empty());
    while i < pieces.len()
        invariant
            1 <= i <= pieces@.len(),
            close@ == "</tool_call>"@,
            blocks == xml_blocks(output@),
            views(pieces@) == split_from(output@, 0, "<tool_call>"@),
            blocks.len() == pieces@.len() - 1,
            xml_calls(blocks.take(i - 1)) == Some(views(calls@)),
        decreases pieces@.len() - i,
    {
        broadcast use crate::text::lemma_views_push;

        let piece = &pieces[i];
        let end: usize = match find(piece, 0, &close) {
            Some(end) => end,
            None => piece.len(),
        };
        let block = slice_of(piece, 0, end);
        proof {
            assert(block@ =~= up_to(piece@, "</tool_call>"@));
            assert(views(pieces@)[i as int] == piece@);
            assert(blocks[i - 1] == block@);
            assert(blocks.take(i as int).drop_last() =~= blocks.take(i - 1));
        }
        match parse_xml_call(&block) {
            Some(call) => {
                if !call.0.as_str().is_empty() {
                    calls.push(call);
                }
            },
            None => {
                proof {
                    lemma_xml_calls_none(blocks, i as int);
                }
                return None;
            },
        }
        i = i + 1;
    }
    assert(blocks.take(i - 1) =~= blocks);
    if calls.is_empty() {
        None
    } else {
        Some(calls)
    }
}

/// Where a prefix of the blocks gives nothing, neither do all of them.
proof fn lemma_xml_calls_none(blocks: Seq<Seq<char>>, n: int)
    requires
        0 <= n <= blocks.len(),
        xml_calls(blocks.take(n)) is None,
    ensures
        xml_calls(blocks) is None,
    decreases blocks.len(),
{
    if n == blocks.len() {
        assert(blocks.take(n) =~= blocks);
    } else {
        assert(blocks.drop_last().take(n) =~= blocks.take(n));
        lemma_xml_calls_none(blocks.drop_last(), n);
    }
}

/// Whether `pattern` stands nowhere in `s`.
pub open spec fn free_of(s: Seq<char>, pattern: Seq<char>) -> bool {
    forall|i: int| !occurs_at(s, i, pattern)
}

/// A call as it is written: its name, and its parameters in order.
pub struct WrittenCall {
    /// The name of the tool.
    pub name: Seq<char>,
    /// The names and values of the parameters.
    pub parameters: Seq<(Seq<char>, Seq<char>)>,
}

/// What follows the name of a written call: every parameter on lines of its
/// own, and the end of the function.
pub open spec fn parameters_text(parameters: Seq<(Seq<char>, Seq<char>)>) -> Seq<char>
    decreases parameters.len(),
{
    if parameters.len() == 0 {
        "\n</function>\n"@
    } else {
        parameter_text(parameters[0].0, parameters[0].1) + parameters_text(parameters.drop_first())
    }
}

/// A written parameter.
pub open spec fn parameter_text(key: Seq<char>, value: Seq<char>) -> Seq<char> {
    "\n<parameter="@ + key + ">\n"@ + value + "\n</parameter>"@
}

/// The block of a written call: what stands between its `<tool_call>` tags.
pub open spec fn block_text(call: WrittenCall) -> Seq<char> {
    "\n<function="@ + call.name + ">"@ + parameters_text(call.parameters)
}

/// A written list of calls.
pub open spec fn calls_text(calls: Seq<WrittenCall>) -> Seq<char>
    decreases calls.len(),
{
    if calls.len() == 0 {
        Seq::empty()
    } else {
        "<tool_call>"@ + block_text(calls[0]) + "</tool_call>\n"@ + calls_text(calls.drop_first())
    }
}

/// The arguments that a list of parameters gives, added to `members`: of two
/// with the same name the later counts.
pub open spec fn with_parameters(
    members: Map<Seq<char>, JsonView>,
    parameters: Seq<(Seq<char>, Seq<char>)>,
) -> Map<Seq<char>, JsonView>
    decreases parameters.len(),
{
    if parameters.len() == 0 {
        members
    } else {
        with_parameters(
            members.insert(parameters[0].0, JsonView::Str(parameters[0].1)),
            parameters.drop_first(),
        )
    }
}

/// What a written call is read as.
pub open spec fn read_call(call: WrittenCall) -> (Seq<char>, JsonView) {
    (call.name, JsonView::Object(with_parameters(Map::empty(), call.parameters)))
}

/// Whether a parameter survives being written: its name does not close its
/// tag, its value does not close the parameter, and neither has white space
/// around it.
pub open spec fn writable_parameter(key: Seq<char>, value: Seq<char>) -> bool {
    &&& trim(key) == key
    &&& !key.contains('>')
    &&& trim(value) == value
    &&& free_of(value, "</parameter>"@)
}

/// Whether a call survives being written: it has a name that neither closes
/// its tag nor starts a parameter and has no white space around it, its
/// parameters survive, and nothing in it starts or ends a call.
pub open spec fn writable(call: WrittenCall) -> bool {
    &&& call.name.len() > 0
    &&& trim(call.name) == call.name
    &&& !call.name.contains('>')
    &&& free_of(call.name, "<parameter="@)
    &&& forall|i: int|
        0 <= i < call.parameters.len() ==> writable_parameter(
            (#[trigger] call.parameters[i]).0,
            call.parameters[i].1,
        )
    &&& free_of(block_text(call), "<tool_call>"@)
    &&& free_of(block_text(call), "</tool_call>"@)
}

/// A search stops at an occurrence that none precedes.
proof fn lemma_find_first(s: Seq<char>, from: int, at: int, pattern: Seq<char>)
    requires
        0 <= from <= at,
        occurs_at(s, at, pattern),
        forall|j: int| from <= j < at ==> !occurs_at(s, j, pattern),
    ensures
        find_from(s, from, pattern) == Some(at),
{
    lemma_find_from(s, from, pattern);
}

/// An occurrence of a pattern holds the characters of the pattern.
proof fn lemma_occurrence(s: Seq<char>, i: int, pattern: Seq<char>)
    requires
        occurs_at(s, i, pattern),
    ensures
        forall|k: int| 0 <= k < pattern.len() ==> s[i + k] == #[trigger] pattern[k],
{
    assert forall|k: int| 0 <= k < pattern.len() implies s[i + k] == #[trigger] pattern[k] by {
        assert(s.subrange(i, i + pattern.len())[k] == pattern[k]);
    }
}

/// A pattern that stands within a part of a text stands in that part.
proof fn lemma_occurs_within(
    left: Seq<char>,
    part: Seq<char>,
    right: Seq<char>,
    i: int,
    pattern: Seq<char>,
)
    requires
        occurs_at(left + part + right, i, pattern),
        left.len() <= i,
        i + pattern.len() <= left.len() + part.len(),
    ensures
        occurs_at(part, i - left.len(), pattern),
{
    let s = left + part + right;
    assert(part.subrange(i - left.len(), i - left.len() + pattern.len()) =~= s.subrange(
        i,
        i + pattern.len(),
    ));
}

/// A pattern stands where it was put.
proof fn lemma_occurs_between(left: Seq<char>, pattern: Seq<char>, right: Seq<char>)
    ensures
        occurs_at(left + pattern + right, left.len() as int, pattern),
{
    let s = left + pattern + right;
    assert(s.subrange(left.len() as int, (left.len() + pattern.len()) as int) =~= pattern);
}

/// White space around a text that has none is trimmed off.
proof fn lemma_trim_lines(value: Seq<char>)
    requires
        trim(value) == value,
    ensures
        trim(seq!['\n'] + value + seq!['\n']) == value,
{
    let s = seq!['\n'] + value + seq!['\n'];
    let tail = value + seq!['\n'];
    assert(s.drop_first() =~= tail);
    assert(trim_start(s) == trim_start(tail));
    lemma_trim_shortens(value);
    if value.len() == 0 {
        assert(tail =~= seq!['\n']);
        assert(tail.drop_first() =~= Seq::empty());
        reveal_with_fuel(trim_start, 2);
        assert(trim_start(tail) == Seq::<char>::empty());
    } else {
        assert(tail[0] == value[0]);
        assert(trim_start(tail) == tail);
        assert(tail.drop_last() =~= value);
        assert(trim_end(tail) == trim_end(value));
    }
}

/// A text that trimming keeps neither starts nor ends with white space.
proof fn lemma_trim_shortens(s: Seq<char>)
    ensures
        trim_start(s).len() <= s.len(),
        trim_end(s).len() <= s.len(),
        trim(s) == s && s.len() > 0 ==> !white_space(s[0]) && !white_space(s.last()) && trim_end(s)
            == s,
    decreases s.len(),
{
    lemma_trim_start_shortens(s);
    lemma_trim_end_shortens(s);
    lemma_trim_end_shortens(trim_start(s));
    if s.len() > 0 && white_space(s[0]) {
        lemma_trim_start_shortens(s.drop_first());
    }
    if s.len() > 0 && !white_space(s[0]) && white_space(s.last()) {
        lemma_trim_end_shortens(s.drop_last());
    }
}

/// Trimming the start of a text does not lengthen it.
proof fn lemma_trim_start_shortens(s: Seq<char>)
    ensures
        trim_start(s).len() <= s.len(),
    decreases s.len(),
{
    if s.len() > 0 && white_space(s[0]) {
        lemma_trim_start_shortens(s.drop_first());
    }
}

/// Trimming the end of a text does not lengthen it.
proof fn lemma_trim_end_shortens(s: Seq<char>)
    ensures
        trim_end(s).len() <= s.len(),
    decreases s.len(),
{
    if s.len() > 0 && white_space(s.last()) {
        lemma_trim_end_shortens(s.drop_last());
    }
}

/// A mark at the start of a line is found from the end of the line before on.
proof fn lemma_find_on_next_line(before: Seq<char>, mark: Seq<char>, rest: Seq<char>)
    requires
        mark.len() > 0,
        mark[0] != '\n',
    ensures
        find_from(before + seq!['\n'] + mark + rest, before.len() as int, mark) == Some(
            (before.len() + 1) as int,
        ),
{
    let s = before + seq!['\n'] + mark + rest;
    lemma_occurs_between(before + seq!['\n'], mark, rest);
    assert(!occurs_at(s, before.len() as int, mark)) by {
        if occurs_at(s, before.len() as int, mark) {
            lemma_occurrence(s, before.len() as int, mark);
            assert(s[before.len() as int] == mark[0]);
        }
    }
    lemma_find_first(s, before.len() as int, (before.len() + 1) as int, mark);
}

/// A bracket is found behind a text that has none.
proof fn lemma_find_bracket(before: Seq<char>, text: Seq<char>, rest: Seq<char>)
    requires
        !text.contains('>'),
    ensures
        find_from(before + text + ">"@ + rest, before.len() as int, ">"@) == Some(
            (before.len() + text.len()) as int,
        ),
{
    reveal_strlit(">");
    let s = before + text + ">"@ + rest;
    let at = (before.len() + text.len()) as int;
    lemma_occurs_between(before + text, ">"@, rest);
    assert forall|j: int| before.len() <= j < at implies !occurs_at(s, j, ">"@) by {
        if occurs_at(s, j, ">"@) {
            lemma_occurrence(s, j, ">"@);
            assert(s[j] == ">"@[0]);
            assert(s[j] == text[j - before.len()]);
            assert(text.contains('>'));
        }
    }
    lemma_find_first(s, before.len() as int, at, ">"@);
}

/// A mark is found behind lines that do not hold it.
proof fn lemma_find_behind_lines(
    before: Seq<char>,
    lines: Seq<char>,
    mark: Seq<char>,
    rest: Seq<char>,
)
    requires
        mark.len() > 0,
        !mark.contains('\n'),
        free_of(lines, mark),
        lines.len() > 0,
        lines.last() == '\n',
    ensures
        find_from(before + lines + mark + rest, before.len() as int, mark) == Some(
            (before.len() + lines.len()) as int,
        ),
{
    let s = before + lines + mark + rest;
    let at = (before.len() + lines.len()) as int;
    lemma_occurs_between(before + lines, mark, rest);
    assert forall|j: int| before.len() <= j < at implies !occurs_at(s, j, mark) by {
        lemma_no_occurrence_in_lines(before, lines, mark + rest, j, mark);
        assert(s =~= before + lines + (mark + rest));
    }
    lemma_find_first(s, before.len() as int, at, mark);
}

/// A mark does not start within lines that do not hold it, as it does not run
/// over the end of a line.
proof fn lemma_no_occurrence_in_lines(
    before: Seq<char>,
    lines: Seq<char>,
    rest: Seq<char>,
    j: int,
    mark: Seq<char>,
)
    requires
        mark.len() > 0,
        !mark.contains('\n'),
        free_of(lines, mark),
        lines.len() > 0,
        lines.last() == '\n',
        before.len() <= j < before.len() + lines.len(),
    ensures
        !occurs_at(before + lines + rest, j, mark),
{
    let s = before + lines + rest;
    let line = before.len() + lines.len() - 1;
    if occurs_at(s, j, mark) {
        lemma_occurrence(s, j, mark);
        assert(s[line] == '\n');
        if j + mark.len() > line {
            let k = line - j;
            assert(s[j + k] == mark[k]);
            assert(mark.contains(mark[k]));
        }
        lemma_occurs_within(before, lines, rest, j, mark);
    }
}

/// Lines around a text hold a mark only where the text does.
proof fn lemma_lines_free(value: Seq<char>, mark: Seq<char>)
    requires
        mark.len() > 0,
        !mark.contains('\n'),
        free_of(value, mark),
    ensures
        free_of(seq!['\n'] + value + seq!['\n'], mark),
{
    let lines = seq!['\n'] + value + seq!['\n'];
    assert forall|j: int| !occurs_at(lines, j, mark) by {
        if occurs_at(lines, j, mark) {
            lemma_occurrence(lines, j, mark);
            assert(lines[j] == mark[0]);
            assert(mark.contains(mark[0]));
            if j + mark.len() > value.len() + 1 {
                let k = value.len() + 1 - j;
                assert(lines[j + k] == mark[k]);
                assert(mark.contains(mark[k]));
            }
            lemma_occurs_within(seq!['\n'], value, seq!['\n'], j, mark);
        }
    }
}

/// The marks that enclose a parameter are on one line.
proof fn lemma_parameter_marks()
    ensures
        "<parameter="@.len() == 11,
        "<parameter="@[0] == '<',
        "<parameter="@[1] == 'p',
        "</parameter>"@.len() == 12,
        !"</parameter>"@.contains('\n'),
        !"<parameter="@.contains('\n'),
        !"<parameter="@.contains('>'),
        ">"@ == seq!['>'],
{
    reveal_strlit("<parameter=");
    reveal_strlit("</parameter>");
    reveal_strlit(">");
    assert(">"@ =~= seq!['>']);
}

/// A written parameter is read back, and the search goes on behind it.
proof fn lemma_parameter_read_back(
    before: Seq<char>,
    key: Seq<char>,
    value: Seq<char>,
    tail: Seq<char>,
    members: Map<Seq<char>, JsonView>,
)
    requires
        writable_parameter(key, value),
    ensures
        xml_parameters(
            before + parameter_text(key, value) + tail,
            before.len() as int,
            members,
        ) == xml_parameters(
            before + parameter_text(key, value) + tail,
            (before + parameter_text(key, value)).len() as int,
            members.insert(key, JsonView::Str(value)),
        ),
{
    lemma_parameter_marks();
    reveal_strlit("<parameter=");
    reveal_strlit("</parameter>");
    reveal_strlit("\n<parameter=");
    reveal_strlit(">\n");
    reveal_strlit("\n</parameter>");
    let open = "<parameter="@;
    let close = "</parameter>"@;
    let s = before + parameter_text(key, value) + tail;
    let lines = seq!['\n'] + value + seq!['\n'];
    let opened = before + seq!['\n'] + open;
    let named = opened + key + ">"@;
    assert("\n<parameter="@ =~= seq!['\n'] + open);
    assert("\n</parameter>"@ =~= seq!['\n'] + close);
    assert(">\n"@ =~= seq!['>', '\n']);
    assert(s =~= opened + (key + ">"@ + lines + close + tail));
    assert(s =~= before + seq!['\n'] + open + (key + ">"@ + lines + close + tail));
    assert(s =~= opened + key + ">"@ + (lines + close + tail));
    assert(s =~= named + lines + close + tail);
    lemma_find_on_next_line(before, open, key + ">"@ + lines + close + tail);
    lemma_find_bracket(opened, key, lines + close + tail);
    lemma_lines_free(value, close);
    lemma_find_behind_lines(named, lines, close, tail);
    assert(s.subrange(opened.len() as int, (opened.len() + key.len()) as int) =~= key);
    assert(s.subrange(named.len() as int, (named.len() + lines.len()) as int) =~= lines);
    lemma_trim_lines(value);
    assert(before + parameter_text(key, value) =~= named + lines + close);
}

/// Written parameters are read back, from the end of what precedes them on.
proof fn lemma_parameters_read_back(
    before: Seq<char>,
    parameters: Seq<(Seq<char>, Seq<char>)>,
    members: Map<Seq<char>, JsonView>,
)
    requires
        forall|i: int|
            0 <= i < parameters.len() ==> writable_parameter(
                (#[trigger] parameters[i]).0,
                parameters[i].1,
            ),
    ensures
        xml_parameters(before + parameters_text(parameters), before.len() as int, members)
            == with_parameters(members, parameters),
    decreases parameters.len(),
{
    let s = before + parameters_text(parameters);
    let from = before.len() as int;
    if parameters.len() == 0 {
        lemma_parameter_marks();
        reveal_strlit("\n</function>\n");
        let open = "<parameter="@;
        let end = "\n</function>\n"@;
        assert forall|j: int| from <= j implies !occurs_at(s, j, open) by {
            if occurs_at(s, j, open) {
                lemma_occurrence(s, j, open);
                assert(s[j] == open[0]);
                assert(s[j + 1] == open[1]);
                assert(s[j] == end[j - from]);
                assert(s[j + 1] == end[j + 1 - from]);
            }
        }
        lemma_find_from(s, from, open);
    } else {
        let key = parameters[0].0;
        let value = parameters[0].1;
        let rest = parameters.drop_first();
        let read = before + parameter_text(key, value);
        assert(writable_parameter(parameters[0].0, parameters[0].1));
        assert forall|i: int| 0 <= i < rest.len() implies writable_parameter(
            (#[trigger] rest[i]).0,
            rest[i].1,
        ) by {
            assert(rest[i] == parameters[i + 1]);
        }
        assert(s =~= read + parameters_text(rest));
        lemma_parameter_read_back(before, key, value, parameters_text(rest), members);
        lemma_parameters_read_back(read, rest, members.insert(key, JsonView::Str(value)));
    }
}

/// A search for parameters starts at the first of them.
proof fn lemma_parameters_start(
    s: Seq<char>,
    from: int,
    start: int,
    members: Map<Seq<char>, JsonView>,
)
    requires
        0 <= from <= start <= s.len(),
        forall|j: int| from <= j < start ==> !occurs_at(s, j, "<parameter="@),
    ensures
        xml_parameters(s, from, members) == xml_parameters(s, start, members),
{
    let open = "<parameter="@;
    reveal_strlit("<parameter=");
    lemma_find_from(s, from, open);
    lemma_find_from(s, start, open);
    if let Some(at) = find_from(s, from, open) {
        assert(start <= at);
        lemma_find_first(s, start, at, open);
        let key = at + open.len();
        lemma_find_from(s, key, ">"@);
        if let Some(key_end) = find_from(s, key, ">"@) {
            lemma_find_from(s, key_end + 1, "</parameter>"@);
        }
    } else {
        if let Some(at) = find_from(s, start, open) {
            assert(occurs_at(s, at, open));
        }
    }
}

/// No parameter starts before the parameters of a written call.
proof fn lemma_no_parameter_in_head(call: WrittenCall, j: int)
    requires
        writable(call),
        0 <= j < ("\n<function="@ + call.name + ">"@).len(),
    ensures
        !occurs_at(block_text(call), j, "<parameter="@),
{
    lemma_parameter_marks();
    reveal_strlit("\n<function=");
    let mark = "<parameter="@;
    let s = block_text(call);
    let left = "\n<function="@;
    let right = ">"@ + parameters_text(call.parameters);
    assert(s =~= left + call.name + right);
    if occurs_at(s, j, mark) {
        let name_end = left.len() + call.name.len();
        lemma_occurrence(s, j, mark);
        assert(s[j] == mark[0]);
        assert(s[j + 1] == mark[1]);
        if j < left.len() {
            assert(s[j] == left[j]);
            assert(j == 1);
            assert(s[2] == left[2]);
        }
        assert(s[name_end as int] == '>');
        if j + mark.len() > name_end {
            let k = name_end - j;
            assert(s[j + k] == mark[k]);
            assert(mark.contains(mark[k]));
        }
        lemma_occurs_within(left, call.name, right, j, mark);
    }
}

/// A written call is read back from its block.
pub proof fn law_a_written_call_is_read_back(call: WrittenCall)
    requires
        writable(call),
    ensures
        xml_call(block_text(call)) == Some(read_call(call)),
{
    lemma_parameter_marks();
    reveal_strlit("<function=");
    reveal_strlit("\n<function=");
    let open = "<function="@;
    let none = Seq::<char>::empty();
    let s = block_text(call);
    let body = parameters_text(call.parameters);
    let opened = none + seq!['\n'] + open;
    let head = "\n<function="@ + call.name + ">"@;
    assert("\n<function="@ =~= opened);
    assert(s =~= none + seq!['\n'] + open + (call.name + ">"@ + body));
    assert(s =~= opened + call.name + ">"@ + body);
    lemma_find_on_next_line(none, open, call.name + ">"@ + body);
    lemma_find_bracket(opened, call.name, body);
    assert(s.subrange(opened.len() as int, (opened.len() + call.name.len()) as int) =~= call.name);
    assert(s =~= head + body);
    assert forall|j: int| 0 <= j < head.len() implies !occurs_at(s, j, "<parameter="@) by {
        lemma_no_parameter_in_head(call, j);
    }
    lemma_parameters_start(s, 0, head.len() as int, Map::empty());
    lemma_parameters_read_back(head, call.parameters, Map::empty());
}

/// No call starts within the block of a call and what ends it.
proof fn lemma_no_call_in_piece(before: Seq<char>, call: WrittenCall, rest: Seq<char>, j: int)
    requires
        writable(call),
        before.len() <= j < before.len() + (block_text(call) + "</tool_call>\n"@).len(),
    ensures
        !occurs_at(before + (block_text(call) + "</tool_call>\n"@) + rest, j, "<tool_call>"@),
{
    let open = "<tool_call>"@;
    let close = "</tool_call>\n"@;
    reveal_strlit("<tool_call>");
    reveal_strlit("</tool_call>\n");
    let block = block_text(call);
    let s = before + (block + close) + rest;
    let start = before.len() + block.len();
    lemma_block_ends_line(call);
    if j < start {
        assert(s =~= before + block + (close + rest));
        lemma_no_occurrence_in_lines(before, block, close + rest, j, open);
    } else if occurs_at(s, j, open) {
        lemma_occurrence(s, j, open);
        assert(s[j] == open[0]);
        assert(s[j + 1] == open[1]);
        assert(s[j] == close[j - start]);
        if j + 1 - start < close.len() {
            assert(s[j + 1] == close[j + 1 - start]);
        }
    }
}

/// A written list is cut at the start of each call, from the position `from`
/// on: what comes first is `before`, and then come the blocks, each with what ends it.
proof fn lemma_calls_split(s: Seq<char>, before: Seq<char>, calls: Seq<WrittenCall>, from: int)
    requires
        0 <= from <= s.len(),
        s.skip(from) == before + calls_text(calls),
        forall|i: int| 0 <= i < calls.len() ==> writable(#[trigger] calls[i]),
        forall|j: int| from <= j < from + before.len() ==> !occurs_at(s, j, "<tool_call>"@),
    ensures
        split_from(s, from, "<tool_call>"@) == seq![before] + calls.map_values(
            |call: WrittenCall| block_text(call) + "</tool_call>\n"@,
        ),
    decreases calls.len(),
{
    let open = "<tool_call>"@;
    let close = "</tool_call>\n"@;
    reveal_strlit("<tool_call>");
    lemma_find_from(s, from, open);
    if calls.len() == 0 {
        assert(before + calls_text(calls) =~= before);
        assert(s.len() == from + before.len());
        assert forall|j: int| from <= j implies !occurs_at(s, j, open) by {}
        assert(s.subrange(from, s.len() as int) =~= s.skip(from));
    } else {
        let block = block_text(calls[0]);
        let rest = calls.drop_first();
        let after = block + close;
        let next = from + before.len() + open.len();
        let lead = s.take(from) + before;
        assert(before + calls_text(calls) =~= before + open + (after + calls_text(rest)));
        assert(s =~= s.take(from) + s.skip(from));
        assert(s =~= lead + open + (after + calls_text(rest)));
        lemma_occurs_between(lead, open, after + calls_text(rest));
        lemma_find_first(s, from, lead.len() as int, open);
        assert(s.subrange(from, lead.len() as int) =~= before);
        assert(s.skip(next) =~= after + calls_text(rest));
        assert forall|i: int| 0 <= i < rest.len() implies writable(#[trigger] rest[i]) by {
            assert(rest[i] == calls[i + 1]);
        }
        assert forall|j: int| next <= j < next + after.len() implies !occurs_at(s, j, open) by {
            assert(writable(calls[0]));
            assert(s =~= (lead + open) + after + calls_text(rest));
            lemma_no_call_in_piece(lead + open, calls[0], calls_text(rest), j);
        }
        lemma_calls_split(s, after, rest, next);
        assert(seq![before] + (seq![after] + rest.map_values(
            |call: WrittenCall| block_text(call) + close,
        )) =~= seq![before] + calls.map_values(|call: WrittenCall| block_text(call) + close));
    }
}

/// A block ends with a line.
proof fn lemma_block_ends_line(call: WrittenCall)
    ensures
        block_text(call).len() > 0,
        block_text(call).last() == '\n',
{
    lemma_parameters_end_line(call.parameters);
}

/// Written parameters end with a line.
proof fn lemma_parameters_end_line(parameters: Seq<(Seq<char>, Seq<char>)>)
    ensures
        parameters_text(parameters).len() > 0,
        parameters_text(parameters).last() == '\n',
    decreases parameters.len(),
{
    if parameters.len() == 0 {
        reveal_strlit("\n</function>\n");
    } else {
        lemma_parameters_end_line(parameters.drop_first());
    }
}

/// Blocks that each give a named call give those calls.
proof fn lemma_xml_calls_some(blocks: Seq<Seq<char>>, calls: Seq<(Seq<char>, JsonView)>)
    requires
        blocks.len() == calls.len(),
        forall|i: int|
            0 <= i < blocks.len() ==> xml_call(#[trigger] blocks[i]) == Some(calls[i])
                && calls[i].0.len() > 0,
    ensures
        xml_calls(blocks) == Some(calls),
    decreases blocks.len(),
{
    if blocks.len() == 0 {
        assert(calls =~= Seq::empty());
    } else {
        let before = blocks.drop_last();
        assert forall|i: int| 0 <= i < before.len() implies xml_call(#[trigger] before[i]) == Some(
            calls.drop_last()[i],
        ) && calls.drop_last()[i].0.len() > 0 by {
            assert(before[i] == blocks[i]);
        }
        lemma_xml_calls_some(before, calls.drop_last());
        assert(xml_call(blocks[blocks.len() - 1]) == Some(calls[calls.len() - 1]));
        assert(calls.drop_last().push(calls.last()) =~= calls);
    }
}

/// Calls that are written one after the other, after any text without such a
/// call, are read back, in order.
pub proof fn law_written_calls_are_read_back(before: Seq<char>, calls: Seq<WrittenCall>)
    requires
        calls.len() > 0,
        forall|i: int| 0 <= i < calls.len() ==> writable(#[trigger] calls[i]),
        forall|j: int|
            0 <= j < before.len() ==> !occurs_at(before + calls_text(calls), j, "<tool_call>"@),
    ensures
        xml_tool_calls(before + calls_text(calls)) == Some(
            calls.map_values(|call: WrittenCall| read_call(call)),
        ),
{
    let s = before + calls_text(calls);
    let pieces = split_from(s, 0, "<tool_call>"@);
    let blocks = xml_blocks(s);
    let read = calls.map_values(|call: WrittenCall| read_call(call));
    assert(s.skip(0) =~= s);
    lemma_calls_split(s, before, calls, 0);
    assert forall|i: int| 0 <= i < blocks.len() implies xml_call(#[trigger] blocks[i]) == Some(
        read[i],
    ) && read[i].0.len() > 0 by {
        let call = calls[i];
        assert(writable(call));
        assert(pieces.skip(1)[i] == pieces[i + 1]);
        lemma_up_to_close(call);
        assert(blocks[i] == block_text(call));
        law_a_written_call_is_read_back(call);
    }
    lemma_xml_calls_some(blocks, read);
}

/// The block of a written call ends where its closing tag starts.
proof fn lemma_up_to_close(call: WrittenCall)
    requires
        writable(call),
    ensures
        up_to(block_text(call) + "</tool_call>\n"@, "</tool_call>"@) == block_text(call),
{
    let close = "</tool_call>"@;
    let block = block_text(call);
    reveal_strlit("</tool_call>");
    reveal_strlit("</tool_call>\n");
    let s = block + "</tool_call>\n"@;
    assert(s =~= block + close + seq!['\n']);
    lemma_occurs_between(block, close, seq!['\n']);
    lemma_block_ends_line(call);
    assert forall|j: int| 0 <= j < block.len() implies !occurs_at(s, j, close) by {
        if occurs_at(s, j, close) {
            lemma_occurrence(s, j, close);
            let line = block.len() - 1;
            assert(s[line] == '\n');
            if j + close.len() > line {
                let k = line - j;
                assert(s[j + k] == close[k]);
                assert(close[k] != '\n');
            }
            let left = Seq::<char>::empty();
            let right = close + seq!['\n'];
            assert(s =~= left + block + right);
            lemma_occurs_within(left, block, right, j, close);
        }
    }
    lemma_find_first(s, 0, block.len() as int, close);
    assert(s.take(block.len() as int) =~= block);
}

/// The calls of two lists of blocks, one after the other, are those of the first
/// and then those of the second, and nothing where a block of either names no
/// function. One block gives its call, unless the name is empty.
pub proof fn law_every_block_gives_its_call(
    left: Seq<Seq<char>>,
    right: Seq<Seq<char>>,
    block: Seq<char>,
)
    ensures
        xml_calls(left + right) == match (xml_calls(left), xml_calls(right)) {
            (Some(first), Some(second)) => Some(first + second),
            _ => None,
        },
        xml_call(block) is None ==> xml_calls(seq![block]) is None,
        xml_call(block) matches Some(call) ==> xml_calls(seq![block]) == Some(
            if call.0 == Seq::<char>::empty() {
                Seq::empty()
            } else {
                seq![call]
            },
        ),
    decreases right.len(),
{
    reveal_with_fuel(xml_calls, 2);
    assert(seq![block].drop_last() =~= Seq::empty());
    if xml_call(block) is Some && (xml_call(block)->0).0.len() == 0 {
        assert((xml_call(block)->0).0 =~= Seq::empty());
    }
    if right.len() == 0 {
        assert(left + right =~= left);
        if xml_calls(left) is Some {
            assert(xml_calls(left)->0 + Seq::<(Seq<char>, JsonView)>::empty()
                =~= xml_calls(left)->0);
        }
    } else {
        assert((left + right).drop_last() =~= left + right.drop_last());
        law_every_block_gives_its_call(left, right.drop_last(), block);
        if xml_calls(left + right) is Some {
            assert(xml_calls(left + right)->0 =~= xml_calls(left)->0 + xml_calls(right)->0);
        }
    }
}

/// What comes up to a mark is the text in front of its first occurrence, and
/// the whole text where there is none.
pub proof fn law_text_ends_at_the_first_mark(s: Seq<char>, mark: Seq<char>)
    ensures
        free_of(s, mark) ==> up_to(s, mark) == s,
        !free_of(s, mark) ==> {
            &&& occurs_at(s, up_to(s, mark).len() as int, mark)
            &&& up_to(s, mark) == s.take(up_to(s, mark).len() as int)
            &&& forall|j: int| 0 <= j < up_to(s, mark).len() ==> !occurs_at(s, j, mark)
        },
{
    lemma_find_from(s, 0, mark);
    if !free_of(s, mark) {
        let i = choose|i: int| occurs_at(s, i, mark);
        assert(0 <= i);
        assert(find_from(s, 0, mark) is Some);
    }
}

/// Every piece behind a `<tool_call>` tag is a block, up to its `</tool_call>`
/// tag; an output without such a tag has no calls, and neither has one whose
/// blocks give none.
pub proof fn law_every_tag_starts_a_block(s: Seq<char>)
    ensures
        ({
            let pieces = split_from(s, 0, "<tool_call>"@);
            &&& xml_blocks(s).len() == pieces.len() - 1
            &&& forall|k: int|
                0 <= k < xml_blocks(s).len() ==> #[trigger] xml_blocks(s)[k] == up_to(
                    pieces[k + 1],
                    "</tool_call>"@,
                )
        }),
        free_of(s, "<tool_call>"@) ==> xml_tool_calls(s) is None,
        xml_tool_calls(s) matches Some(calls) ==> calls.len() > 0 && xml_calls(xml_blocks(s))
            == Some(calls),
        xml_tool_calls(s) is None ==> xml_calls(xml_blocks(s)) is None || xml_calls(xml_blocks(s))
            == Some(Seq::<(Seq<char>, JsonView)>::empty()),
{
    reveal_strlit("<tool_call>");
    law_split_pieces_join_to_the_text(s, "<tool_call>"@);
    lemma_find_from(s, 0, "<tool_call>"@);
    if free_of(s, "<tool_call>"@) {
        assert(split_from(s, 0, "<tool_call>"@).len() == 1);
        assert(xml_blocks(s) =~= Seq::empty());
    }
    if xml_calls(xml_blocks(s)) is Some && xml_calls(xml_blocks(s))->0.len() == 0 {
        assert(xml_calls(xml_blocks(s))->0 =~= Seq::empty());
    }
}

/// The name of a call is what stands in its first `<function=` tag, without the
/// white space around it; its arguments are an object of its parameters. A
/// block without such a tag, or whose tag is not closed, is no call.
pub proof fn law_a_call_is_named_by_its_tag(before: Seq<char>, name: Seq<char>, rest: Seq<char>)
    requires
        !name.contains('>'),
        forall|j: int|
            0 <= j < before.len() ==> !occurs_at(
                before + "<function="@ + name + ">"@ + rest,
                j,
                "<function="@,
            ),
    ensures
        ({
            let block = before + "<function="@ + name + ">"@ + rest;
            xml_call(block) == Some(
                (trim(name), JsonView::Object(xml_parameters(block, 0, Map::empty()))),
            )
        }),
        free_of(rest, "<function="@) ==> xml_call(rest) is None,
{
    let tag = "<function="@;
    let block = before + tag + name + ">"@ + rest;
    assert(block =~= before + tag + (name + ">"@ + rest));
    lemma_occurs_between(before, tag, name + ">"@ + rest);
    lemma_find_first(block, 0, before.len() as int, tag);
    lemma_find_bracket(before + tag, name, rest);
    let start = (before.len() + tag.len()) as int;
    assert(block.subrange(start, start + name.len()) =~= name);
    lemma_find_from(rest, 0, tag);
}

/// A parameter is read with its name and its value, both without the white
/// space around them, and the search goes on right behind it.
pub proof fn law_a_parameter_is_read(
    before: Seq<char>,
    key: Seq<char>,
    value: Seq<char>,
    rest: Seq<char>,
    members: Map<Seq<char>, JsonView>,
)
    requires
        !key.contains('>'),
        ({
            let block = before + "<parameter="@ + key + ">"@ + value + "</parameter>"@ + rest;
            let start = before.len() + "<parameter="@.len() + key.len() + 1;
            forall|j: int|
                start <= j < start + value.len() ==> !occurs_at(block, j, "</parameter>"@)
        }),
    ensures
        ({
            let block = before + "<parameter="@ + key + ">"@ + value + "</parameter>"@ + rest;
            let end = before + "<parameter="@ + key + ">"@ + value + "</parameter>"@;
            xml_parameters(block, before.len() as int, members) == xml_parameters(
                block,
                end.len() as int,
                members.insert(trim(key), JsonView::Str(trim(value))),
            )
        }),
{
    lemma_parameter_marks();
    let tag = "<parameter="@;
    let close = "</parameter>"@;
    let block = before + tag + key + ">"@ + value + close + rest;
    assert(block =~= before + tag + (key + ">"@ + value + close + rest));
    lemma_occurs_between(before, tag, key + ">"@ + value + close + rest);
    lemma_find_first(block, before.len() as int, before.len() as int, tag);
    assert(block =~= before + tag + key + ">"@ + (value + close + rest));
    lemma_find_bracket(before + tag, key, value + close + rest);
    let head = before + tag + key + ">"@ + value;
    assert(block =~= head + close + rest);
    lemma_occurs_between(head, close, rest);
    let start = (before.len() + tag.len() + key.len() + 1) as int;
    lemma_find_first(block, start, head.len() as int, close);
    let key_start = (before.len() + tag.len()) as int;
    assert(block.subrange(key_start, key_start + key.len()) =~= key);
    assert(block.subrange(start, start + value.len()) =~= value);
}

/// Where no parameter is complete, none is read.
pub proof fn law_an_unfinished_parameter_is_dropped(
    block: Seq<char>,
    from: int,
    members: Map<Seq<char>, JsonView>,
)
    requires
        0 <= from,
        forall|j: int| from <= j ==> !occurs_at(block, j, "</parameter>"@),
    ensures
        xml_parameters(block, from, members) == members,
{
    lemma_find_from(block, from, "<parameter="@);
    if let Some(tag) = find_from(block, from, "<parameter="@) {
        let key = (tag + "<parameter="@.len()) as int;
        lemma_find_from(block, key, ">"@);
        if let Some(key_end) = find_from(block, key, ">"@) {
            lemma_find_from(block, key_end + 1, "</parameter>"@);
        }
    }
}

}

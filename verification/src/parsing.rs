//! Reading the text that a model generates.
use crate::json::{parse_json, parsed_json, Json, JsonView};
use crate::message::{AssistantContent, AssistantContentView, ToolCall, ToolCallView};
use crate::text::{
    chars_of, decimal, decimal_text, join, join_texts, option_view, option_views, result_view,
    result_views, substring, trim, trim_text, views,
};
use crate::xml::{parse_xml_tool_calls, xml_tool_calls};
use vstd::prelude::*;
use vstd::string::*;

verus! {

/// Where a scan over JSON text stands: how many braces are open, whether it
/// is inside a string, and whether the character before was a backslash that
/// escapes the next one.
pub struct ScanState {
    pub depth: int,
    pub in_string: bool,
    pub escaped: bool,
}

/// The scan after one more character.
pub open spec fn scan_char(state: ScanState, c: char) -> ScanState {
    if state.in_string {
        if state.escaped {
            ScanState { escaped: false, ..state }
        } else if c == '\\' {
            ScanState { escaped: true, ..state }
        } else if c == '"' {
            ScanState { in_string: false, ..state }
        } else {
            state
        }
    } else if c == '"' {
        ScanState { in_string: true, ..state }
    } else if c == '{' {
        ScanState { depth: state.depth + 1, ..state }
    } else if c == '}' {
        ScanState { depth: state.depth - 1, ..state }
    } else {
        state
    }
}

/// The scan over all of `s`, from outside any object.
pub open spec fn scan(s: Seq<char>) -> ScanState
    decreases s.len(),
{
    if s.len() == 0 {
        ScanState { depth: 0, in_string: false, escaped: false }
    } else {
        scan_char(scan(s.drop_last()), s.last())
    }
}

/// Whether `s` is one object: it opens with a brace, and its last character is
/// the first one that closes as many braces as were opened.
pub open spec fn balanced_object(s: Seq<char>) -> bool {
    &&& s.len() > 0
    &&& s[0] == '{'
    &&& closed(s)
    &&& forall|n: int| 0 < n < s.len() ==> !closed(#[trigger] s.take(n))
}

/// Whether the scan over `s` ends right behind a brace that closes the last open one.
pub open spec fn closed(s: Seq<char>) -> bool {
    &&& s.len() > 0
    &&& s.last() == '}'
    &&& !scan(s.drop_last()).in_string
    &&& scan(s).depth == 0
}

/// Whether `object` is the first balanced object of `s`, in the sense that it
/// starts at the first opening brace.
pub open spec fn first_object(s: Seq<char>, object: Seq<char>) -> bool {
    exists|start: int| #[trigger] object_at(s, start, object)
}

/// Whether `start` is the first opening brace of `s`, and `object` the
/// balanced object that starts there.
pub open spec fn object_at(s: Seq<char>, start: int, object: Seq<char>) -> bool {
    &&& 0 <= start <= s.len() - object.len()
    &&& forall|i: int| 0 <= i < start ==> s[i] != '{'
    &&& s.subrange(start, start + object.len()) == object
    &&& balanced_object(object)
}

/// The first balanced object of `s`, where there is one.
pub open spec fn structured_json(s: Seq<char>) -> Option<Seq<char>> {
    if exists|object: Seq<char>| first_object(s, object) {
        Some(choose|object: Seq<char>| first_object(s, object))
    } else {
        None
    }
}

/// A text has at most one first balanced object.
pub proof fn lemma_first_object_unique(s: Seq<char>, object: Seq<char>)
    requires
        first_object(s, object),
    ensures
        structured_json(s) == Some(object),
{
    let other = structured_json(s)->0;
    let start = choose|start: int| #[trigger] object_at(s, start, object);
    let at = choose|at: int| #[trigger] object_at(s, at, other);
    assert(s.subrange(start, start + object.len())[0] == s[start]);
    assert(s.subrange(at, at + other.len())[0] == s[at]);
    assert(start == at);
    if object.len() < other.len() {
        assert(other.take(object.len() as int) =~= object);
    } else if other.len() < object.len() {
        assert(object.take(other.len() as int) =~= other);
    }
    assert(object =~= other);
}

/// Text without an opening brace in front of the object is dropped.
pub proof fn law_leading_text_is_dropped(lead: Seq<char>, s: Seq<char>)
    requires
        !lead.contains('{'),
    ensures
        structured_json(lead + s) == structured_json(s),
{
    let n = lead.len() as int;
    assert forall|object: Seq<char>| first_object(lead + s, object) implies first_object(s, object) by {
        let start = choose|start: int| #[trigger] object_at(lead + s, start, object);
        assert((lead + s).subrange(start, start + object.len())[0] == (lead + s)[start]);
        if start < n {
            assert(lead.contains(lead[start]));
        }
        assert(s.subrange(start - n, start - n + object.len()) =~= object);
        assert forall|i: int| 0 <= i < start - n implies s[i] != '{' by {
            assert((lead + s)[i + n] == s[i]);
        }
        assert(object_at(s, start - n, object));
    }
    assert forall|object: Seq<char>| first_object(s, object) implies first_object(lead + s, object) by {
        let start = choose|start: int| #[trigger] object_at(s, start, object);
        assert((lead + s).subrange(start + n, start + n + object.len()) =~= object);
        assert forall|i: int| 0 <= i < start + n implies (lead + s)[i] != '{' by {
            if i < n {
                assert(lead.contains(lead[i]));
            }
        }
        assert(object_at(lead + s, start + n, object));
    }
    if exists|object: Seq<char>| first_object(s, object) {
        let object = choose|object: Seq<char>| first_object(s, object);
        lemma_first_object_unique(s, object);
        lemma_first_object_unique(lead + s, object);
    } else if exists|object: Seq<char>| first_object(lead + s, object) {
        let object = choose|object: Seq<char>| first_object(lead + s, object);
        assert(first_object(s, object));
    }
}

/// Text behind the object is dropped.
pub proof fn law_trailing_text_is_dropped(s: Seq<char>, trail: Seq<char>)
    requires
        structured_json(s) is Some,
    ensures
        structured_json(s + trail) == structured_json(s),
{
    let object = structured_json(s)->0;
    let start = choose|start: int| #[trigger] object_at(s, start, object);
    assert((s + trail).subrange(start, start + object.len()) =~= object);
    assert(object_at(s + trail, start, object));
    lemma_first_object_unique(s + trail, object);
}

/// What was extracted is its own extraction.
pub proof fn law_extraction_is_idempotent(s: Seq<char>)
    requires
        structured_json(s) is Some,
    ensures
        structured_json(structured_json(s)->0) == structured_json(s),
{
    let object = structured_json(s)->0;
    let start = choose|start: int| #[trigger] object_at(s, start, object);
    assert(object.subrange(0, object.len() as int) =~= object);
    assert(object_at(object, 0, object));
    lemma_first_object_unique(object, object);
}

/// A piece of JSON text as it is written down.
pub enum Piece {
    /// What stands outside of strings and opens or closes no object: numbers and
    /// words, punctuation, brackets and white space.
    Plain(Seq<char>),
    /// A string: its characters, each with whether a backslash stands before it.
    Quoted(Seq<(bool, char)>),
    /// An object: what stands between its braces.
    Braced(Seq<Piece>),
}

/// The characters of a string, those that are escaped with their backslash.
pub open spec fn string_text(chars: Seq<(bool, char)>) -> Seq<char>
    decreases chars.len(),
{
    if chars.len() == 0 {
        Seq::empty()
    } else {
        string_text(chars.drop_last()) + if chars.last().0 {
            seq!['\\', chars.last().1]
        } else {
            seq![chars.last().1]
        }
    }
}

/// The text of a piece.
pub open spec fn piece_text(piece: Piece) -> Seq<char>
    decreases piece,
{
    match piece {
        Piece::Plain(text) => text,
        Piece::Quoted(chars) => seq!['"'] + string_text(chars) + seq!['"'],
        Piece::Braced(pieces) => seq!['{'] + pieces_text(pieces) + seq!['}'],
    }
}

/// The texts of pieces, one after the other.
pub open spec fn pieces_text(pieces: Seq<Piece>) -> Seq<char>
    decreases pieces,
{
    if pieces.len() == 0 {
        Seq::empty()
    } else {
        pieces_text(pieces.drop_last()) + piece_text(pieces.last())
    }
}

/// Whether nothing in `text` opens a string or an object or closes one.
pub open spec fn bare(text: Seq<char>) -> bool {
    forall|i: int|
        0 <= i < text.len() ==> #[trigger] text[i] != '"' && text[i] != '{' && text[i] != '}'
}

/// Whether every quote and every backslash of a string is escaped.
pub open spec fn all_escaped(chars: Seq<(bool, char)>) -> bool {
    forall|i: int|
        0 <= i < chars.len() ==> (#[trigger] chars[i]).0 || (chars[i].1 != '"' && chars[i].1
            != '\\')
}

/// Whether a piece is what it says: nothing outside of strings opens a string
/// or an object or closes one, and within a string every quote and every
/// backslash is escaped.
pub open spec fn proper(piece: Piece) -> bool
    decreases piece,
{
    match piece {
        Piece::Plain(text) => bare(text),
        Piece::Quoted(chars) => all_escaped(chars),
        Piece::Braced(pieces) => all_proper(pieces),
    }
}

/// Whether all pieces are what they say.
pub open spec fn all_proper(pieces: Seq<Piece>) -> bool
    decreases pieces,
{
    pieces.len() == 0 || (all_proper(pieces.drop_last()) && proper(pieces.last()))
}

/// The scan over `s` from `state` on.
spec fn scan_from(state: ScanState, s: Seq<char>) -> ScanState
    decreases s.len(),
{
    if s.len() == 0 {
        state
    } else {
        scan_char(scan_from(state, s.drop_last()), s.last())
    }
}

/// A scan over two texts goes on with the second where the first ends.
proof fn lemma_scan_from_add(state: ScanState, left: Seq<char>, right: Seq<char>)
    ensures
        scan_from(state, left + right) == scan_from(scan_from(state, left), right),
    decreases right.len(),
{
    if right.len() == 0 {
        assert(left + right =~= left);
    } else {
        assert((left + right).drop_last() =~= left + right.drop_last());
        lemma_scan_from_add(state, left, right.drop_last());
    }
}

/// A scan starts outside of any object.
proof fn lemma_scan_is_from_start(s: Seq<char>)
    ensures
        scan(s) == scan_from(ScanState { depth: 0, in_string: false, escaped: false }, s),
    decreases s.len(),
{
    if s.len() > 0 {
        lemma_scan_is_from_start(s.drop_last());
    }
}

/// Within a string the scan stays within it, at the same depth.
proof fn lemma_scan_string(state: ScanState, chars: Seq<(bool, char)>)
    requires
        state.in_string,
        !state.escaped,
        all_escaped(chars),
    ensures
        scan_from(state, string_text(chars)) == state,
        forall|n: int|
            0 <= n <= string_text(chars).len() ==> (#[trigger] scan_from(
                state,
                string_text(chars).take(n),
            )).depth == state.depth,
    decreases chars.len(),
{
    let text = string_text(chars);
    if chars.len() == 0 {
        assert(text.take(0) =~= text);
    } else {
        let before = chars.drop_last();
        let lead = string_text(before);
        assert(chars[chars.len() - 1] == chars.last());
        lemma_scan_string(state, before);
        let c = chars.last().1;
        let tail = if chars.last().0 {
            seq!['\\', c]
        } else {
            seq![c]
        };
        reveal_with_fuel(scan_from, 3);
        lemma_scan_from_add(state, lead, tail);
        assert(seq!['\\', c].drop_last() =~= seq!['\\']);
        assert(seq!['\\'].drop_last() =~= Seq::empty());
        assert(seq![c].drop_last() =~= Seq::empty());
        assert forall|n: int| 0 <= n <= text.len() implies (#[trigger] scan_from(
            state,
            text.take(n),
        )).depth == state.depth by {
            if n <= lead.len() {
                assert(text.take(n) =~= lead.take(n));
            } else {
                assert(text.take(n) =~= lead + tail.take(n - lead.len()));
                lemma_scan_from_add(state, lead, tail.take(n - lead.len()));
                assert(tail.take(1) =~= seq![tail[0]]);
                assert(tail.take(tail.len() as int) =~= tail);
                assert(seq![tail[0]].drop_last() =~= Seq::empty());
            }
        }
    }
}

/// Outside of strings, text without quotes and braces leaves the scan where it is.
proof fn lemma_scan_plain(state: ScanState, text: Seq<char>)
    requires
        !state.in_string,
        !state.escaped,
        bare(text),
    ensures
        scan_from(state, text) == state,
    decreases text.len(),
{
    if text.len() > 0 {
        assert(text[text.len() - 1] == text.last());
        lemma_scan_plain(state, text.drop_last());
    }
}

/// A whole piece leaves the scan where it is, and on the way it gets no less deep.
proof fn lemma_scan_piece(state: ScanState, piece: Piece)
    requires
        !state.in_string,
        !state.escaped,
        proper(piece),
    ensures
        scan_from(state, piece_text(piece)) == state,
        forall|n: int|
            0 <= n <= piece_text(piece).len() ==> (#[trigger] scan_from(
                state,
                piece_text(piece).take(n),
            )).depth >= state.depth,
        piece is Braced ==> forall|n: int|
            0 < n < piece_text(piece).len() ==> (#[trigger] scan_from(
                state,
                piece_text(piece).take(n),
            )).depth > state.depth,
    decreases piece,
{
    let text = piece_text(piece);
    reveal_with_fuel(scan_from, 2);
    match piece {
        Piece::Plain(plain) => {
            lemma_scan_plain(state, plain);
            assert forall|n: int| 0 <= n <= text.len() implies (#[trigger] scan_from(
                state,
                text.take(n),
            )).depth >= state.depth by {
                lemma_scan_plain(state, plain.take(n));
            }
        },
        Piece::Quoted(chars) => {
            let inside = ScanState { in_string: true, ..state };
            let open = seq!['"'];
            let body = string_text(chars);
            assert(open.drop_last() =~= Seq::empty());
            assert(scan_from(state, open) == inside);
            lemma_scan_string(inside, chars);
            lemma_scan_from_add(state, open, body);
            lemma_scan_from_add(state, open + body, open);
            assert forall|n: int| 0 <= n <= text.len() implies (#[trigger] scan_from(
                state,
                text.take(n),
            )).depth >= state.depth by {
                if n == 0 {
                    assert(text.take(n) =~= Seq::empty());
                } else if n <= 1 + body.len() {
                    assert(text.take(n) =~= open + body.take(n - 1));
                    lemma_scan_from_add(state, open, body.take(n - 1));
                } else {
                    assert(text.take(n) =~= text);
                }
            }
        },
        Piece::Braced(pieces) => {
            let inside = ScanState { depth: state.depth + 1, ..state };
            let open = seq!['{'];
            let close = seq!['}'];
            let body = pieces_text(pieces);
            assert(open.drop_last() =~= Seq::empty());
            assert(close.drop_last() =~= Seq::empty());
            assert(scan_from(state, open) == inside);
            lemma_scan_pieces(inside, pieces);
            lemma_scan_from_add(state, open, body);
            lemma_scan_from_add(state, open + body, close);
            assert forall|n: int| 0 < n < text.len() implies (#[trigger] scan_from(
                state,
                text.take(n),
            )).depth > state.depth by {
                assert(text.take(n) =~= open + body.take(n - 1));
                lemma_scan_from_add(state, open, body.take(n - 1));
            }
            assert forall|n: int| 0 <= n <= text.len() implies (#[trigger] scan_from(
                state,
                text.take(n),
            )).depth >= state.depth by {
                if n == 0 {
                    assert(text.take(n) =~= Seq::empty());
                } else if n == text.len() {
                    assert(text.take(n) =~= text);
                }
            }
        },
    }
}

/// Pieces one after the other leave the scan where it is, and on the way it
/// gets no less deep.
proof fn lemma_scan_pieces(state: ScanState, pieces: Seq<Piece>)
    requires
        !state.in_string,
        !state.escaped,
        all_proper(pieces),
    ensures
        scan_from(state, pieces_text(pieces)) == state,
        forall|n: int|
            0 <= n <= pieces_text(pieces).len() ==> (#[trigger] scan_from(
                state,
                pieces_text(pieces).take(n),
            )).depth >= state.depth,
    decreases pieces,
{
    let text = pieces_text(pieces);
    if pieces.len() == 0 {
        assert(text.take(0) =~= text);
    } else {
        let lead = pieces_text(pieces.drop_last());
        let tail = piece_text(pieces.last());
        lemma_scan_pieces(state, pieces.drop_last());
        lemma_scan_piece(state, pieces.last());
        lemma_scan_from_add(state, lead, tail);
        assert forall|n: int| 0 <= n <= text.len() implies (#[trigger] scan_from(
            state,
            text.take(n),
        )).depth >= state.depth by {
            if n <= lead.len() {
                assert(text.take(n) =~= lead.take(n));
            } else {
                assert(text.take(n) =~= lead + tail.take(n - lead.len()));
                lemma_scan_from_add(state, lead, tail.take(n - lead.len()));
            }
        }
    }
}

/// A written object is balanced.
proof fn lemma_written_object_is_balanced(pieces: Seq<Piece>)
    requires
        all_proper(pieces),
    ensures
        balanced_object(piece_text(Piece::Braced(pieces))),
{
    let start = ScanState { depth: 0, in_string: false, escaped: false };
    let piece = Piece::Braced(pieces);
    let text = piece_text(piece);
    assert(proper(piece));
    lemma_scan_piece(start, piece);
    lemma_scan_is_from_start(text);
    let before = text.drop_last();
    lemma_scan_is_from_start(before);
    let inside = ScanState { depth: 1, ..start };
    let open = seq!['{'];
    reveal_with_fuel(scan_from, 2);
    assert(open.drop_last() =~= Seq::empty());
    assert(before =~= open + pieces_text(pieces));
    lemma_scan_from_add(start, open, pieces_text(pieces));
    lemma_scan_pieces(inside, pieces);
    assert forall|n: int| 0 < n < text.len() implies !closed(#[trigger] text.take(n)) by {
        lemma_scan_is_from_start(text.take(n));
        assert(scan_from(start, text.take(n)).depth > 0);
    }
}

/// An object, however it is written, is extracted whole and alone: whatever
/// its strings hold, braces, apostrophes and escaped quotes among it, however
/// deep it is nested, whatever without a brace stands in front of it, and
/// whatever stands behind it.
pub proof fn law_a_written_object_is_extracted(
    lead: Seq<char>,
    pieces: Seq<Piece>,
    trail: Seq<char>,
)
    requires
        !lead.contains('{'),
        all_proper(pieces),
    ensures
        structured_json(lead + piece_text(Piece::Braced(pieces)) + trail) == Some(
            piece_text(Piece::Braced(pieces)),
        ),
{
    let text = piece_text(Piece::Braced(pieces));
    lemma_written_object_is_balanced(pieces);
    assert(text.subrange(0, text.len() as int) =~= text);
    assert(object_at(text, 0, text));
    lemma_first_object_unique(text, text);
    law_leading_text_is_dropped(lead, text);
    law_trailing_text_is_dropped(lead + text, trail);
}

/// An object that is cut off before its closing brace is not extracted.
pub proof fn law_a_cut_object_is_not_extracted(lead: Seq<char>, pieces: Seq<Piece>, n: int)
    requires
        !lead.contains('{'),
        all_proper(pieces),
        0 <= n < piece_text(Piece::Braced(pieces)).len(),
    ensures
        structured_json(lead + piece_text(Piece::Braced(pieces)).take(n)) is None,
{
    let text = piece_text(Piece::Braced(pieces));
    let cut = text.take(n);
    lemma_written_object_is_balanced(pieces);
    law_leading_text_is_dropped(lead, cut);
    if structured_json(cut) is Some {
        let object = structured_json(cut)->0;
        let at = choose|at: int| #[trigger] object_at(cut, at, object);
        assert(cut.subrange(at, at + object.len())[0] == cut[at]);
        if at > 0 {
            assert(cut[0] == '{');
        }
        assert(object =~= text.take(object.len() as int));
        assert(closed(text.take(object.len() as int)));
    }
}

/// Where no brace opens an object, none is extracted, and what is extracted is
/// part of the text.
pub proof fn law_extracted_objects_are_parts_of_the_text(s: Seq<char>)
    ensures
        !s.contains('{') ==> structured_json(s) is None,
        structured_json(s) matches Some(object) ==> {
            &&& object.len() >= 2
            &&& object[0] == '{'
            &&& object.last() == '}'
            &&& exists|start: int|
                0 <= start <= s.len() - object.len() && s.subrange(start, start + object.len())
                    == object && #[trigger] s.take(start).contains('{') == false
        },
{
    if structured_json(s) is Some {
        let object = structured_json(s)->0;
        let start = choose|start: int| #[trigger] object_at(s, start, object);
        assert(s.subrange(start, start + object.len())[0] == s[start]);
        assert(s.contains('{'));
        assert(!s.take(start).contains('{')) by {
            if s.take(start).contains('{') {
                let i = choose|i: int| 0 <= i < start && s.take(start)[i] == '{';
                assert(s[i] == '{');
            }
        }
        assert(object[0] != object.last());
    }
}

/// Extracts the JSON object from output that may wrap it in Markdown fences,
/// role tokens or prose.
///
/// The object starts at the first `{` and ends at the `}` that matches it;
/// braces inside JSON strings do not count.
pub fn extract_structured_json(raw_text: &str) -> (json: Option<String>)
    ensures
        option_view(json) == structured_json(raw_text@),
        json is Some ==> first_object(raw_text@, json->0@),
{
    let chars = chars_of(raw_text);
    let mut start: usize = 0;
    while start < chars.len() && chars[start] != '{'
        invariant
            start <= chars@.len(),
            forall|i: int| 0 <= i < start ==> chars@[i] != '{',
        decreases chars@.len() - start,
    {
        start = start + 1;
    }
    let mut depth: usize = 0;
    let mut in_string: bool = false;
    let mut escaped: bool = false;
    let mut i: usize = start;
    let ghost tail = chars@.skip(start as int);
    assert(tail.take(0) =~= Seq::<char>::empty());
    while i < chars.len()
        invariant
            start <= i <= chars.len(),
            chars@ == raw_text@,
            tail == chars@.skip(start as int),
            forall|j: int| 0 <= j < start ==> chars@[j] != '{',
            start < chars@.len() ==> chars@[start as int] == '{',
            scan(tail.take(i - start)) == (ScanState { depth: depth as int, in_string, escaped }),
            depth <= i - start,
            i > start ==> depth > 0,
            i == start ==> !in_string,
            forall|n: int| 0 < n <= i - start ==> !closed(#[trigger] tail.take(n)),
        decreases chars@.len() - i,
    {
        let c: char = chars[i];
        let ghost seen = tail.take(i - start);
        let ghost next = tail.take(i - start + 1);
        assert(next.drop_last() =~= seen);
        assert(next.last() == c);
        if in_string {
            if escaped {
                escaped = false;
            } else if c == '\\' {
                escaped = true;
            } else if c == '"' {
                in_string = false;
            }
        } else if c == '"' {
            in_string = true;
        } else if c == '{' {
            depth = depth + 1;
        } else if c == '}' {
            depth = depth - 1;
            if depth == 0 {
                let object = substring(&chars, start, i + 1);
                proof {
                    assert(object@ =~= next);
                    assert forall|n: int| 0 < n < next.len() implies !closed(
                        #[trigger] next.take(n),
                    ) by {
                        assert(next.take(n) =~= tail.take(n));
                    }
                    assert(object_at(raw_text@, start as int, object@));
                    lemma_first_object_unique(raw_text@, object@);
                }
                return Some(object);
            }
        }
        i = i + 1;
    }
    proof {
        assert forall|object: Seq<char>| !first_object(raw_text@, object) by {
            if first_object(raw_text@, object) {
                let at = choose|at: int| #[trigger] object_at(raw_text@, at, object);
                assert(raw_text@[at] == object[0]) by {
                    assert(raw_text@.subrange(at, at + object.len())[0] == raw_text@[at]);
                }
                assert(at == start);
                assert(object =~= tail.take(object.len() as int));
            }
        }
    }
    None
}

/// The text of a message part: its `text`, or else its `refusal`.
pub open spec fn part_text(part: JsonView) -> Option<Seq<char>> {
    match part.get_str("text"@) {
        Some(text) => Some(text),
        None => part.get_str("refusal"@),
    }
}

/// The texts of those parts that have one, in order.
pub open spec fn part_texts(parts: Seq<JsonView>) -> Seq<Seq<char>>
    decreases parts.len(),
{
    if parts.len() == 0 {
        Seq::empty()
    } else {
        match part_text(parts.last()) {
            Some(text) => part_texts(parts.drop_last()).push(text),
            None => part_texts(parts.drop_last()),
        }
    }
}

/// The text of a message's `content`: a string itself, or the texts of an
/// array of parts, one to a line.
pub open spec fn text_content(content: Option<JsonView>) -> Option<Seq<char>> {
    match content {
        Some(JsonView::Str(text)) => Some(text),
        Some(JsonView::Array(parts)) => Some(join(part_texts(parts), "\n"@)),
        _ => None,
    }
}

/// Computes [`text_content`].
pub fn extract_text_content(content: Option<&Json>) -> (text: Option<String>)
    ensures
        option_view(text) == text_content(option_view(content)),
{
    let content = match content {
        Some(content) => content,
        None => {
            return None;
        },
    };
    if let Some(text) = content.as_str() {
        return Some(text.clone());
    }
    let parts = match content.as_array() {
        Some(parts) => parts,
        None => {
            return None;
        },
    };
    let mut texts: Vec<String> = Vec::new();
    let mut i: usize = 0;
    assert(views(texts@) =~= Seq::empty());
    while i < parts.len()
        invariant
            i <= parts@.len(),
            views(texts@) == part_texts(views(parts@).take(i as int)),
        decreases parts@.len() - i,
    {
        broadcast use crate::text::lemma_views_push;

        assert(views(parts@).take(i + 1).drop_last() =~= views(parts@).take(i as int));
        match parts[i].get_str("text") {
            Some(text) => {
                texts.push(text.clone());
            },
            None => match parts[i].get_str("refusal") {
                Some(text) => {
                    texts.push(text.clone());
                },
                None => {},
            },
        }
        i = i + 1;
    }
    assert(views(parts@).take(i as int) =~= views(parts@));
    Some(join_texts(&texts, "\n"))
}

/// What was read from a text; the text itself where it could not be read.
pub open spec fn value_or_text(parsed: Result<JsonView, Seq<char>>, text: Seq<char>) -> JsonView {
    match parsed {
        Ok(value) => value,
        Err(_) => JsonView::Str(text),
    }
}

/// Computes [`value_or_text`].
pub fn take_value_or_text(parsed: Result<Json, String>, text: &str) -> (value: Json)
    ensures
        value@ == value_or_text(result_view(parsed), text@),
{
    match parsed {
        Ok(value) => value,
        Err(_) => Json::Str(text.to_owned()),
    }
}

/// The arguments of a call as a message holds them: JSON text is read, text
/// that is no JSON stays a string, and no arguments are `null`.
pub open spec fn decoded_arguments(arguments: Option<JsonView>) -> JsonView {
    match arguments {
        Some(JsonView::Str(text)) => value_or_text(parsed_json(text), text),
        Some(other) => other,
        None => JsonView::Null,
    }
}

/// Computes [`decoded_arguments`].
pub fn decode_arguments(arguments: Option<&Json>) -> (value: Json)
    ensures
        value@ == decoded_arguments(option_view(arguments)),
{
    match arguments {
        Some(arguments) => match arguments.as_str() {
            Some(text) => take_value_or_text(parse_json(text.as_str()), text.as_str()),
            None => arguments.clone(),
        },
        None => Json::Null,
    }
}

/// The tool call that a message's `tool_calls` entry describes.
pub open spec fn tool_call_of(value: JsonView) -> Result<ToolCallView, Seq<char>> {
    match value.get_str("id"@) {
        None => Err("Tool call is missing id"@),
        Some(id) => match value.get_object("function"@) {
            None => Err("Tool call is missing function"@),
            Some(function) => match function.get_str("name"@) {
                None => Err("Tool call function is missing name"@),
                Some(name) => Ok(
                    ToolCallView {
                        id,
                        name,
                        arguments: decoded_arguments(function.get("arguments"@)),
                    },
                ),
            },
        },
    }
}

/// Computes [`tool_call_of`].
pub fn parse_tool_call(value: &Json) -> (call: Result<ToolCall, String>)
    ensures
        result_view(call) == tool_call_of(value@),
{
    let id = match value.get_str("id") {
        Some(id) => id.clone(),
        None => {
            return Err("Tool call is missing id".to_owned());
        },
    };
    let function = match value.get_object("function") {
        Some(function) => function,
        None => {
            return Err("Tool call is missing function".to_owned());
        },
    };
    let name = match function.get_str("name") {
        Some(name) => name.clone(),
        None => {
            return Err("Tool call function is missing name".to_owned());
        },
    };
    Ok(ToolCall { id, name, arguments: decode_arguments(function.get("arguments")) })
}

/// The reasoning part of a message, where it has reasoning that is not blank.
pub open spec fn reasoning_part(message: JsonView) -> Seq<AssistantContentView> {
    match message.get_str("reasoning_content"@) {
        Some(reasoning) if trim(reasoning).len() > 0 => seq![
            AssistantContentView::Reasoning(trim(reasoning)),
        ],
        _ => Seq::empty(),
    }
}

/// The text part of a message, where it has text.
pub open spec fn text_part(message: JsonView) -> Seq<AssistantContentView> {
    match text_content(message.get("content"@)) {
        Some(text) if text.len() > 0 => seq![AssistantContentView::Text(text)],
        _ => Seq::empty(),
    }
}

/// The tool-call parts of a message, up to the first call that cannot be read.
pub open spec fn call_parts(calls: Seq<JsonView>) -> Result<Seq<AssistantContentView>, Seq<char>>
    decreases calls.len(),
{
    if calls.len() == 0 {
        Ok(Seq::empty())
    } else {
        match call_parts(calls.drop_last()) {
            Err(error) => Err(error),
            Ok(parts) => match tool_call_of(calls.last()) {
                Err(error) => Err(error),
                Ok(call) => Ok(parts.push(AssistantContentView::ToolCall(call))),
            },
        }
    }
}

/// The parts of a message in the OpenAI layout: its reasoning, its text and
/// its tool calls; `raw_text` where it has none of them.
pub open spec fn message_parts(message: JsonView, raw_text: Seq<char>) -> Result<
    Seq<AssistantContentView>,
    Seq<char>,
> {
    let lead = reasoning_part(message) + text_part(message);
    let calls = match message.get_array("tool_calls"@) {
        Some(calls) => call_parts(calls),
        None => Ok(Seq::empty()),
    };
    match calls {
        Err(error) => Err(error),
        Ok(calls) => Ok(
            if lead.len() + calls.len() == 0 {
                seq![AssistantContentView::Text(raw_text)]
            } else {
                lead + calls
            },
        ),
    }
}

/// What a message in the OpenAI layout says, given what was read from its JSON text.
pub open spec fn message_content(
    parsed: Result<JsonView, Seq<char>>,
    raw_text: Seq<char>,
) -> Result<Seq<AssistantContentView>, Seq<char>> {
    match parsed {
        Err(error) => Err("Parsed response JSON deserialization failed: "@ + error),
        Ok(message) => if message is Object {
            message_parts(message, raw_text)
        } else {
            Err("Parsed response is not a JSON object"@)
        },
    }
}

/// What the JSON text of a message in the OpenAI layout says.
pub open spec fn oaicompat_message(text: Seq<char>, raw_text: Seq<char>) -> Result<
    Seq<AssistantContentView>,
    Seq<char>,
> {
    message_content(parsed_json(text), raw_text)
}

/// Where a prefix of the calls cannot be read, neither can all of them, with the same error.
proof fn lemma_call_parts_err(calls: Seq<JsonView>, n: int)
    requires
        0 <= n <= calls.len(),
        call_parts(calls.take(n)) is Err,
    ensures
        call_parts(calls) == call_parts(calls.take(n)),
    decreases calls.len(),
{
    if n == calls.len() {
        assert(calls.take(n) =~= calls);
    } else {
        assert(calls.drop_last().take(n) =~= calls.take(n));
        lemma_call_parts_err(calls.drop_last(), n);
    }
}

/// Calls that can all be read give a part each, in order; else the first that
/// cannot be read decides the error.
proof fn lemma_call_parts_each(calls: Seq<JsonView>)
    ensures
        (forall|k: int| 0 <= k < calls.len() ==> tool_call_of(#[trigger] calls[k]) is Ok)
            ==> call_parts(calls) is Ok && call_parts(calls)->Ok_0.len() == calls.len() && forall|
            k: int,
        |
            0 <= k < calls.len() ==> #[trigger] call_parts(calls)->Ok_0[k]
                == AssistantContentView::ToolCall(tool_call_of(calls[k])->Ok_0),
        forall|k: int|
            0 <= k < calls.len() && tool_call_of(#[trigger] calls[k]) is Err && (forall|j: int|
                0 <= j < k ==> tool_call_of(#[trigger] calls[j]) is Ok) ==> call_parts(calls)
                == Err::<Seq<AssistantContentView>, Seq<char>>(tool_call_of(calls[k])->Err_0),
    decreases calls.len(),
{
    if calls.len() > 0 {
        let before = calls.drop_last();
        lemma_call_parts_each(before);
        assert(forall|k: int| 0 <= k < before.len() ==> before[k] == #[trigger] calls[k]);
        assert(calls[calls.len() - 1] == calls.last());
    }
}

/// Every entry of a message's `tool_calls` becomes a tool call of its own, in
/// the order of the list and behind the message's reasoning and its text; the
/// raw text stands in only for a message that has none of them.
pub proof fn law_every_listed_call_is_kept(
    message: JsonView,
    calls: Seq<JsonView>,
    raw_text: Seq<char>,
)
    requires
        message.get_array("tool_calls"@) == Some(calls),
        forall|k: int| 0 <= k < calls.len() ==> tool_call_of(#[trigger] calls[k]) is Ok,
    ensures
        message_parts(message, raw_text) matches Ok(parts) && {
            let reasoned = message.get_str("reasoning_content"@) matches Some(r) && trim(r).len()
                > 0;
            let said = text_content(message.get("content"@)) matches Some(t) && t.len() > 0;
            let lead = (if reasoned {
                1int
            } else {
                0
            }) + (if said {
                1int
            } else {
                0
            });
            &&& lead + calls.len() > 0 ==> parts.len() == lead + calls.len()
            &&& lead + calls.len() == 0 ==> parts == seq![AssistantContentView::Text(raw_text)]
            &&& forall|k: int|
                0 <= k < calls.len() ==> #[trigger] parts[lead + k]
                    == AssistantContentView::ToolCall(tool_call_of(calls[k])->Ok_0)
            &&& reasoned ==> parts[0] == AssistantContentView::Reasoning(
                trim(message.get_str("reasoning_content"@)->0),
            )
            &&& said ==> parts[lead - 1] == AssistantContentView::Text(
                text_content(message.get("content"@))->0,
            )
        },
{
    lemma_call_parts_each(calls);
    let lead = reasoning_part(message) + text_part(message);
    let parts = message_parts(message, raw_text)->Ok_0;
    if lead.len() + calls.len() > 0 {
        assert(parts == lead + call_parts(calls)->Ok_0);
        assert forall|k: int| 0 <= k < calls.len() implies #[trigger] parts[lead.len() + k]
            == AssistantContentView::ToolCall(tool_call_of(calls[k])->Ok_0) by {
            assert(parts[lead.len() + k] == call_parts(calls)->Ok_0[k]);
        }
    }
}

/// A message without a list of calls has its reasoning and its text as its
/// parts; the raw text stands in where it has neither.
pub proof fn law_messages_without_calls(message: JsonView, raw_text: Seq<char>)
    requires
        message.get_array("tool_calls"@) is None,
    ensures
        message_parts(message, raw_text) matches Ok(parts) && {
            let reasoned = message.get_str("reasoning_content"@) matches Some(r) && trim(r).len()
                > 0;
            let said = text_content(message.get("content"@)) matches Some(t) && t.len() > 0;
            &&& !reasoned && !said ==> parts == seq![AssistantContentView::Text(raw_text)]
            &&& reasoned ==> parts[0] == AssistantContentView::Reasoning(
                trim(message.get_str("reasoning_content"@)->0),
            )
            &&& said ==> parts.last() == AssistantContentView::Text(
                text_content(message.get("content"@))->0,
            )
            &&& parts.len() == if reasoned && said {
                2nat
            } else {
                1
            }
        },
{
}

/// The first entry of `tool_calls` that cannot be read decides the error.
pub proof fn law_the_first_unreadable_call_is_reported(
    message: JsonView,
    calls: Seq<JsonView>,
    k: int,
    raw_text: Seq<char>,
)
    requires
        message.get_array("tool_calls"@) == Some(calls),
        0 <= k < calls.len(),
        tool_call_of(calls[k]) is Err,
        forall|j: int| 0 <= j < k ==> tool_call_of(#[trigger] calls[j]) is Ok,
    ensures
        message_parts(message, raw_text) == Err::<Seq<AssistantContentView>, Seq<char>>(
            tool_call_of(calls[k])->Err_0,
        ),
{
    lemma_call_parts_each(calls);
}

/// A listed call is read from an object that holds an `id` and a `function`
/// with a `name`: both are taken over, arguments that are JSON text are read,
/// arguments that are other text stay that text, and others are taken over.
/// Each of the three that is missing has an error of its own.
pub proof fn law_listed_calls_are_read_by_key(
    entry: Map<Seq<char>, JsonView>,
    function: Map<Seq<char>, JsonView>,
    id: Seq<char>,
    name: Seq<char>,
)
    requires
        entry.contains_key("id"@) && entry["id"@] == JsonView::Str(id),
        entry.contains_key("function"@) && entry["function"@] == JsonView::Object(function),
        function.contains_key("name"@) && function["name"@] == JsonView::Str(name),
    ensures
        tool_call_of(JsonView::Object(entry)) matches Ok(call) && {
            &&& call.id == id
            &&& call.name == name
            &&& !function.contains_key("arguments"@) ==> call.arguments == JsonView::Null
            &&& function.contains_key("arguments"@) ==> match function["arguments"@] {
                JsonView::Str(text) => match parsed_json(text) {
                    Ok(value) => call.arguments == value,
                    Err(_) => call.arguments == JsonView::Str(text),
                },
                other => call.arguments == other,
            }
        },
{
}

/// What a listed call lacks is named by its error.
pub proof fn law_unreadable_calls_say_what_is_missing(value: JsonView)
    ensures
        tool_call_of(value) is Ok <==> (value.get("id"@) matches Some(JsonView::Str(_))
            && value.get("function"@) matches Some(JsonView::Object(function))
            && JsonView::Object(function).get("name"@) matches Some(JsonView::Str(_))),
        !(value.get("id"@) matches Some(JsonView::Str(_))) ==> tool_call_of(value) == Err::<
            ToolCallView,
            Seq<char>,
        >("Tool call is missing id"@),
        value.get("id"@) matches Some(JsonView::Str(_)) && !(value.get("function"@) matches Some(
            JsonView::Object(_),
        )) ==> tool_call_of(value) == Err::<ToolCallView, Seq<char>>(
            "Tool call is missing function"@,
        ),
        value.get("id"@) matches Some(JsonView::Str(_)) && value.get("function"@) matches Some(
            JsonView::Object(function),
        ) && !(JsonView::Object(function).get("name"@) matches Some(JsonView::Str(_)))
            ==> tool_call_of(value) == Err::<ToolCallView, Seq<char>>(
            "Tool call function is missing name"@,
        ),
{
}

/// The texts of two lists of parts, one after the other, are those of the first
/// and then those of the second; one part gives its `text`, or else its `refusal`.
pub proof fn law_the_text_of_parts_is_kept(left: Seq<JsonView>, right: Seq<JsonView>, part: JsonView)
    ensures
        part_texts(left + right) == part_texts(left) + part_texts(right),
        part.get_str("text"@) matches Some(text) ==> part_texts(seq![part]) == seq![text],
        part.get_str("text"@) is None ==> (part.get_str("refusal"@) matches Some(text) ==> part_texts(
            seq![part],
        ) == seq![text]),
        part.get_str("text"@) is None && part.get_str("refusal"@) is None ==> part_texts(seq![part])
            == Seq::<Seq<char>>::empty(),
        text_content(Some(JsonView::Array(left))) == Some(join(part_texts(left), "\n"@)),
    decreases right.len(),
{
    reveal_with_fuel(part_texts, 2);
    assert(seq![part].drop_last() =~= Seq::empty());
    if right.len() == 0 {
        assert(left + right =~= left);
    } else {
        assert((left + right).drop_last() =~= left + right.drop_last());
        law_the_text_of_parts_is_kept(left, right.drop_last(), part);
    }
}

/// Content that is a text is just that text, unchanged; content that is neither
/// a text nor a list of parts, or is missing, has none.
pub proof fn law_text_content_is_unchanged(content: JsonView, text: Seq<char>)
    ensures
        text_content(Some(JsonView::Str(text))) == Some(text),
        text_content(None) is None,
        !(content is Str) && !(content is Array) ==> text_content(Some(content)) is None,
        text_content(Some(JsonView::Array(Seq::empty()))) == Some(Seq::<char>::empty()),
{
}

/// A message whose JSON text cannot be read, or is no object, is refused with
/// an error that says so; an object is read for its parts.
pub proof fn law_messages_are_objects(
    parsed: Result<JsonView, Seq<char>>,
    text: Seq<char>,
    raw_text: Seq<char>,
)
    ensures
        parsed == parsed_json(text) ==> oaicompat_message(text, raw_text) == message_content(
            parsed,
            raw_text,
        ),
        parsed matches Err(error) ==> message_content(parsed, raw_text) == Err::<
            Seq<AssistantContentView>,
            Seq<char>,
        >("Parsed response JSON deserialization failed: "@ + error),
        parsed matches Ok(JsonView::Object(members)) ==> message_content(parsed, raw_text)
            == message_parts(JsonView::Object(members), raw_text),
        parsed is Ok && !(parsed->Ok_0 is Object) ==> message_content(parsed, raw_text) == Err::<
            Seq<AssistantContentView>,
            Seq<char>,
        >("Parsed response is not a JSON object"@),
{
}

/// Computes [`message_parts`].
pub fn parse_message_parts(message: &Json, raw_text: &str) -> (content: Result<
    Vec<AssistantContent>,
    String,
>)
    ensures
        result_views(content) == message_parts(message@, raw_text@),
{
    broadcast use crate::text::lemma_views_push;

    let mut content: Vec<AssistantContent> = Vec::new();
    if let Some(reasoning) = message.get_str("reasoning_content") {
        let reasoning = trim_text(reasoning.as_str());
        if !reasoning.as_str().is_empty() {
            content.push(AssistantContent::Reasoning(reasoning));
        }
    }
    assert(views(content@) =~= reasoning_part(message@));
    if let Some(text) = extract_text_content(message.get("content")) {
        if !text.as_str().is_empty() {
            content.push(AssistantContent::Text(text));
        }
    }
    let ghost lead = reasoning_part(message@) + text_part(message@);
    assert(views(content@) =~= lead);
    if let Some(calls) = message.get_array("tool_calls") {
        let mut i: usize = 0;
        assert(views(content@) =~= lead + Seq::<AssistantContentView>::empty());
        while i < calls.len()
            invariant
                i <= calls@.len(),
                message@.get_array("tool_calls"@) == Some(views(calls@)),
                lead == reasoning_part(message@) + text_part(message@),
                call_parts(views(calls@).take(i as int)) is Ok,
                views(content@) == lead + call_parts(views(calls@).take(i as int))->Ok_0,
            decreases calls@.len() - i,
        {
            broadcast use crate::text::lemma_views_push;

            let ghost before = call_parts(views(calls@).take(i as int))->Ok_0;
            assert(views(calls@).take(i + 1).drop_last() =~= views(calls@).take(i as int));
            match parse_tool_call(&calls[i]) {
                Ok(call) => {
                    content.push(AssistantContent::ToolCall(call));
                    assert((lead + before).push(AssistantContentView::ToolCall(call@)) =~= lead
                        + before.push(AssistantContentView::ToolCall(call@)));
                },
                Err(error) => {
                    proof {
                        lemma_call_parts_err(views(calls@), i + 1);
                    }
                    return Err(error);
                },
            }
            i = i + 1;
        }
        assert(views(calls@).take(i as int) =~= views(calls@));
    }
    if content.is_empty() {
        content.push(AssistantContent::Text(raw_text.to_owned()));
        assert(views(content@) =~= seq![AssistantContentView::Text(raw_text@)]);
    }
    Ok(content)
}

/// Reads a message in the OpenAI layout, given what was read from its JSON text.
pub fn read_message(parsed: Result<Json, String>, raw_text: &str) -> (content: Result<
    Vec<AssistantContent>,
    String,
>)
    ensures
        result_views(content) == message_content(result_view(parsed), raw_text@),
{
    match parsed {
        Err(error) => {
            let mut message = "Parsed response JSON deserialization failed: ".to_owned();
            message.append(error.as_str());
            Err(message)
        },
        Ok(message) => if message.is_object() {
            parse_message_parts(&message, raw_text)
        } else {
            Err("Parsed response is not a JSON object".to_owned())
        },
    }
}

/// Reads a message in the OpenAI layout from its JSON text.
pub fn parse_oaicompat_message(text: &str, raw_text: &str) -> (content: Result<
    Vec<AssistantContent>,
    String,
>)
    ensures
        result_views(content) == oaicompat_message(text@, raw_text@),
{
    read_message(parse_json(text), raw_text)
}

/// The content parts for calls read from XML: the call at place `i` is
/// identified as `xml-tool-call-i`.
pub open spec fn xml_call_parts(calls: Seq<(Seq<char>, JsonView)>) -> Seq<AssistantContentView> {
    Seq::new(
        calls.len(),
        |i: int|
            AssistantContentView::ToolCall(
                ToolCallView {
                    id: "xml-tool-call-"@ + decimal(i as nat),
                    name: calls[i].0,
                    arguments: calls[i].1,
                },
            ),
    )
}

/// What the output `raw_text` says. With a schema its JSON object counts, where
/// it holds one; else `message`, what the chat template's parser made of it,
/// where it made something; else its XML tool calls, where it has any; else
/// the text itself.
pub open spec fn completion_content(
    raw_text: Seq<char>,
    message: Option<Seq<AssistantContentView>>,
    has_json_schema: bool,
) -> Seq<AssistantContentView> {
    if !template_decides(raw_text, has_json_schema) {
        seq![AssistantContentView::Text(structured_json(raw_text)->0)]
    } else if message is Some {
        message->0
    } else {
        match xml_tool_calls(raw_text) {
            Some(calls) => xml_call_parts(calls),
            None => seq![AssistantContentView::Text(raw_text)],
        }
    }
}

/// What the message says that the chat template's parser made of an output,
/// where there is one and it can be read.
pub open spec fn template_message(oaicompat: Option<Seq<char>>, raw_text: Seq<char>) -> Option<
    Seq<AssistantContentView>,
> {
    if oaicompat is Some && oaicompat_message(oaicompat->0, raw_text) is Ok {
        Some(oaicompat_message(oaicompat->0, raw_text)->Ok_0)
    } else {
        None
    }
}

/// What the output `raw_text` says, where `oaicompat` is the JSON text of the
/// message that the chat template's parser made of it.
pub open spec fn completion_output(
    raw_text: Seq<char>,
    oaicompat: Option<Seq<char>>,
    has_json_schema: bool,
) -> Seq<AssistantContentView> {
    completion_content(raw_text, template_message(oaicompat, raw_text), has_json_schema)
}

/// Whether the chat template's parser has a say in what `raw_text` means: not
/// where a schema was set and the text holds a JSON object.
pub open spec fn template_decides(raw_text: Seq<char>, has_json_schema: bool) -> bool {
    !(has_json_schema && structured_json(raw_text) is Some)
}

/// With a schema, an output that holds a JSON object says just that object,
/// whatever the chat template's parser made of it.
pub proof fn law_structured_output_is_its_object(raw_text: Seq<char>, oaicompat: Option<Seq<char>>)
    requires
        structured_json(raw_text) is Some,
    ensures
        completion_output(raw_text, oaicompat, true) == seq![
            AssistantContentView::Text(structured_json(raw_text)->0),
        ],
{
}

/// Unless a schema was set and the output holds an object, a message that was
/// made of the output and can be read is what it says; else its XML calls are,
/// each under its name and with its arguments, numbered from zero; and an output
/// without any is its own text.
pub proof fn law_unstructured_output_is_read_in_order(
    raw_text: Seq<char>,
    oaicompat: Option<Seq<char>>,
    has_json_schema: bool,
)
    requires
        !has_json_schema || structured_json(raw_text) is None,
    ensures
        ({
            let parts = completion_output(raw_text, oaicompat, has_json_schema);
            let readable = oaicompat is Some && oaicompat_message(oaicompat->0, raw_text) is Ok;
            &&& readable ==> parts == oaicompat_message(oaicompat->0, raw_text)->Ok_0
            &&& !readable && xml_tool_calls(raw_text) is None ==> parts == seq![
                AssistantContentView::Text(raw_text),
            ]
            &&& !readable ==> (xml_tool_calls(raw_text) matches Some(calls) ==> {
                &&& parts.len() == calls.len()
                &&& forall|k: int|
                    0 <= k < calls.len() ==> #[trigger] parts[k] == AssistantContentView::ToolCall(
                        ToolCallView {
                            id: "xml-tool-call-"@ + decimal(k as nat),
                            name: calls[k].0,
                            arguments: calls[k].1,
                        },
                    )
            })
        }),
{
}

/// Whatever a message says counts for an output, unless a schema was set and the
/// output holds an object; only then the chat template's parser is not asked.
pub proof fn law_the_template_decides_without_an_object(
    raw_text: Seq<char>,
    message: Seq<AssistantContentView>,
)
    ensures
        template_decides(raw_text, false),
        template_decides(raw_text, true) <==> structured_json(raw_text) is None,
        completion_content(raw_text, Some(message), false) == message,
        structured_json(raw_text) is None ==> completion_content(raw_text, Some(message), true)
            == message,
        structured_json(raw_text) matches Some(object) ==> completion_content(
            raw_text,
            Some(message),
            true,
        ) == seq![AssistantContentView::Text(object)] && completion_content(raw_text, None, true)
            == seq![AssistantContentView::Text(object)],
{
}

/// Decides [`template_decides`].
pub fn needs_template_parse(raw_text: &str, has_json_schema: bool) -> (needed: bool)
    ensures
        needed == template_decides(raw_text@, has_json_schema),
{
    !(has_json_schema && extract_structured_json(raw_text).is_some())
}

/// Reads a finished completion from the JSON text of the message that the chat
/// template's parser made of it, where there is one.
pub fn parse_completion_output(
    raw_text: &str,
    oaicompat: Option<&str>,
    has_json_schema: bool,
) -> (content: Vec<AssistantContent>)
    ensures
        views(content@) == completion_output(raw_text@, option_view(oaicompat), has_json_schema),
        content@.len() > 0,
{
    let message = match oaicompat {
        Some(text) if needs_template_parse(raw_text, has_json_schema) => match parse_oaicompat_message(
            text,
            raw_text,
        ) {
            Ok(message) => {
                proof {
                    lemma_message_parts_nonempty(parsed_json(text@)->Ok_0, raw_text@);
                    assert(views(message@).len() == message@.len());
                }
                Some(message)
            },
            Err(_) => None,
        },
        _ => None,
    };
    read_completion(raw_text, message, has_json_schema)
}

/// Reads a finished completion, given what the chat template's parser made of it.
pub fn read_completion(
    raw_text: &str,
    message: Option<Vec<AssistantContent>>,
    has_json_schema: bool,
) -> (content: Vec<AssistantContent>)
    ensures
        views(content@) == completion_content(raw_text@, option_views(message), has_json_schema),
        (message is Some ==> message->0@.len() > 0) ==> content@.len() > 0,
{
    broadcast use crate::text::lemma_views_push;

    let mut content: Vec<AssistantContent> = Vec::new();
    if has_json_schema {
        if let Some(json) = extract_structured_json(raw_text) {
            content.push(AssistantContent::Text(json));
            assert(views(content@) =~= seq![AssistantContentView::Text(json@)]);
            return content;
        }
    }
    if let Some(message) = message {
        return message;
    }
    if let Some(calls) = parse_xml_tool_calls(raw_text) {
        let ghost parts = xml_call_parts(views(calls@));
        assert(calls@.len() == calls.len());
        let mut place: u64 = 0;
        for call in it: calls
            invariant
                it.seq() == calls@,
                place == it.index(),
                calls@.len() <= u64::MAX,
                parts == xml_call_parts(views(calls@)),
                views(content@) == parts.take(it.index()),
        {
            broadcast use crate::text::lemma_views_push;

            let mut id = "xml-tool-call-".to_owned();
            id.append(decimal_text(place).as_str());
            content.push(AssistantContent::ToolCall(ToolCall { id, name: call.0, arguments: call.1 }));
            assert(views(calls@)[it.index()] == calls@[it.index()]@);
            assert(parts.take(it.index() + 1) =~= parts.take(it.index()).push(parts[it.index()]));
            place = place + 1;
        }
        assert(parts.take(parts.len() as int) =~= parts);
        assert(content@.len() == views(content@).len());
        return content;
    }
    content.push(AssistantContent::Text(raw_text.to_owned()));
    assert(views(content@) =~= seq![AssistantContentView::Text(raw_text@)]);
    content
}

/// A message has at least one part.
proof fn lemma_message_parts_nonempty(message: JsonView, raw_text: Seq<char>)
    ensures
        message_parts(message, raw_text) is Ok ==> message_parts(message, raw_text)->Ok_0.len() > 0,
{
}

/// Whether the arguments are complete: an object, a string that holds the JSON
/// text of one, or none at all.
pub open spec fn complete_arguments(arguments: JsonView) -> bool {
    match arguments {
        JsonView::Object(_) => true,
        JsonView::Str(text) => reads_as_object(parsed_json(text)),
        JsonView::Null => true,
        _ => false,
    }
}

/// Whether an object was read from a text.
pub open spec fn reads_as_object(parsed: Result<JsonView, Seq<char>>) -> bool {
    parsed is Ok && parsed->Ok_0 is Object
}

/// Decides [`reads_as_object`].
pub fn is_object(parsed: &Result<Json, String>) -> (object: bool)
    ensures
        object == reads_as_object(result_view(*parsed)),
{
    match parsed {
        Ok(value) => value.is_object(),
        Err(_) => false,
    }
}

/// Decides [`complete_arguments`].
pub fn is_valid_json_args(arguments: &Json) -> (valid: bool)
    ensures
        valid == complete_arguments(arguments@),
{
    match arguments {
        Json::Object(_) => true,
        Json::Str(text) => is_object(&parse_json(text.as_str())),
        Json::Null => true,
        _ => false,
    }
}

/// The names and arguments of the calls that have a `function`; nothing where
/// such a call has no name.
pub open spec fn named_calls(calls: Seq<JsonView>) -> Option<Seq<(Seq<char>, JsonView)>>
    decreases calls.len(),
{
    if calls.len() == 0 {
        Some(Seq::empty())
    } else {
        match (named_calls(calls.drop_last()), calls.last().get_object("function"@)) {
            (Some(named), Some(function)) => match function.get_str("name"@) {
                Some(name) => Some(
                    named.push((name, decoded_arguments(function.get("arguments"@)))),
                ),
                None => None,
            },
            (Some(named), None) => Some(named),
            (None, _) => None,
        }
    }
}

/// Where a prefix of the calls gives nothing, neither do all of them.
proof fn lemma_named_calls_none(calls: Seq<JsonView>, n: int)
    requires
        0 <= n <= calls.len(),
        named_calls(calls.take(n)) is None,
    ensures
        named_calls(calls) is None,
    decreases calls.len(),
{
    if n == calls.len() {
        assert(calls.take(n) =~= calls);
    } else {
        assert(calls.drop_last().take(n) =~= calls.take(n));
        lemma_named_calls_none(calls.drop_last(), n);
    }
}

/// The calls of two lists, one after the other, are those of the first and then
/// those of the second, and a nameless call in either leaves nothing. One call
/// gives its function's name with its arguments; one without a function is skipped.
pub proof fn law_named_calls_keep_their_order(
    left: Seq<JsonView>,
    right: Seq<JsonView>,
    call: JsonView,
)
    ensures
        named_calls(left + right) == match (named_calls(left), named_calls(right)) {
            (Some(first), Some(second)) => Some(first + second),
            _ => None,
        },
        !(call.get("function"@) matches Some(JsonView::Object(_))) ==> named_calls(seq![call])
            == Some(Seq::<(Seq<char>, JsonView)>::empty()),
        call.get("function"@) matches Some(JsonView::Object(function)) ==> match JsonView::Object(
            function,
        ).get("name"@) {
            Some(JsonView::Str(name)) => named_calls(seq![call]) == Some(
                seq![(name, decoded_arguments(JsonView::Object(function).get("arguments"@)))],
            ),
            _ => named_calls(seq![call]) is None,
        },
    decreases right.len(),
{
    reveal_with_fuel(named_calls, 2);
    assert(seq![call].drop_last() =~= Seq::empty());
    if right.len() == 0 {
        assert(left + right =~= left);
        if named_calls(left) is Some {
            assert(named_calls(left)->0 + Seq::<(Seq<char>, JsonView)>::empty()
                =~= named_calls(left)->0);
        }
    } else {
        assert((left + right).drop_last() =~= left + right.drop_last());
        law_named_calls_keep_their_order(left, right.drop_last(), call);
        if named_calls(left + right) is Some {
            assert(named_calls(left + right)->0 =~= named_calls(left)->0 + named_calls(right)->0);
        }
    }
}

/// The calls that a message lists by name count for its output; its XML calls
/// count where the message lists none.
pub proof fn law_listed_calls_come_before_xml(output: Seq<char>, oaicompat: Option<Seq<char>>)
    ensures
        oaicompat is None || parsed_json(oaicompat->0) is Err ==> reparsed_calls(output, oaicompat)
            == xml_tool_calls(output),
        oaicompat is Some && parsed_json(oaicompat->0) is Ok ==> match parsed_json(
            oaicompat->0,
        )->Ok_0.get("tool_calls"@) {
            Some(JsonView::Array(calls)) => if named_calls(calls) == Some(
                Seq::<(Seq<char>, JsonView)>::empty(),
            ) {
                reparsed_calls(output, oaicompat) == xml_tool_calls(output)
            } else {
                reparsed_calls(output, oaicompat) == named_calls(calls)
            },
            _ => reparsed_calls(output, oaicompat) == xml_tool_calls(output),
        },
{
    if oaicompat is Some && parsed_json(oaicompat->0) is Ok {
        if let Some(JsonView::Array(calls)) = parsed_json(oaicompat->0)->Ok_0.get("tool_calls"@) {
            if named_calls(calls) is Some && named_calls(calls)->0.len() == 0 {
                assert(named_calls(calls)->0 =~= Seq::empty());
            }
        }
    }
}

/// Arguments are complete exactly where they are an object, absent, or text
/// that reads as an object.
pub proof fn law_complete_arguments_are_objects(arguments: JsonView)
    ensures
        arguments is Object || arguments is Null ==> complete_arguments(arguments),
        arguments matches JsonView::Str(text) ==> complete_arguments(arguments) == (parsed_json(
            text,
        ) matches Ok(JsonView::Object(_))),
        arguments is Bool || arguments is Array ==> !complete_arguments(arguments),
        complete_arguments(arguments) ==> arguments is Object || arguments is Null
            || arguments is Str,
{
}

/// Computes [`named_calls`].
fn collect_named_calls(calls: &Vec<Json>) -> (named: Option<Vec<(String, Json)>>)
    ensures
        option_views(named) == named_calls(views(calls@)),
{
    let mut named: Vec<(String, Json)> = Vec::new();
    let mut i: usize = 0;
    assert(views(named@) =~= Seq::empty());
    while i < calls.len()
        invariant
            i <= calls@.len(),
            named_calls(views(calls@).take(i as int)) == Some(views(named@)),
        decreases calls@.len() - i,
    {
        broadcast use crate::text::lemma_views_push;

        assert(views(calls@).take(i + 1).drop_last() =~= views(calls@).take(i as int));
        if let Some(function) = calls[i].get_object("function") {
            match function.get_str("name") {
                Some(name) => {
                    named.push((name.clone(), decode_arguments(function.get("arguments"))));
                },
                None => {
                    proof {
                        lemma_named_calls_none(views(calls@), i + 1);
                    }
                    return None;
                },
            }
        }
        i = i + 1;
    }
    assert(views(calls@).take(i as int) =~= views(calls@));
    Some(named)
}

/// The calls that the finished output holds: those of `message`, what the chat
/// template's parser made of it, where it has a list of calls that is not
/// empty, and else those written as XML. A nameless call in that list leaves nothing.
pub open spec fn calls_of_output(output: Seq<char>, message: Option<JsonView>) -> Option<
    Seq<(Seq<char>, JsonView)>,
> {
    match listed_calls(message) {
        Some(calls) => match named_calls(calls) {
            None => None,
            Some(named) => if named.len() > 0 {
                Some(named)
            } else {
                xml_tool_calls(output)
            },
        },
        None => xml_tool_calls(output),
    }
}

/// The list of calls of a message in the OpenAI layout.
pub open spec fn listed_calls(message: Option<JsonView>) -> Option<Seq<JsonView>> {
    match message {
        Some(message) => message.get_array("tool_calls"@),
        None => None,
    }
}

/// What was read from a JSON text, where there is one and it can be read.
pub open spec fn read_json(text: Option<Seq<char>>) -> Option<JsonView> {
    match text {
        Some(text) => match parsed_json(text) {
            Ok(value) => Some(value),
            Err(_) => None,
        },
        None => None,
    }
}

/// The calls that the finished output holds, where `oaicompat` is the JSON text
/// of the message that the chat template's parser made of it.
pub open spec fn reparsed_calls(output: Seq<char>, oaicompat: Option<Seq<char>>) -> Option<
    Seq<(Seq<char>, JsonView)>,
> {
    calls_of_output(output, read_json(oaicompat))
}

/// Reads the tool calls from the finished output, given what the chat
/// template's parser made of it.
pub fn read_calls_from_output(output: &str, message: Option<&Json>) -> (calls: Option<
    Vec<(String, Json)>,
>)
    ensures
        option_views(calls) == calls_of_output(output@, option_view(message)),
{
    if let Some(message) = message {
        if let Some(calls) = message.get_array("tool_calls") {
            match collect_named_calls(calls) {
                None => {
                    return None;
                },
                Some(named) => {
                    assert(views(named@).len() == named@.len());
                    if !named.is_empty() {
                        return Some(named);
                    }
                },
            }
        }
    }
    parse_xml_tool_calls(output)
}

/// Reads the tool calls from the finished output and the JSON text of the
/// message that the chat template's parser made of it, where there is one.
pub fn reparse_tool_calls_from_output(output: &str, oaicompat: Option<&str>) -> (calls: Option<
    Vec<(String, Json)>,
>)
    ensures
        option_views(calls) == reparsed_calls(output@, option_view(oaicompat)),
{
    let message = match oaicompat {
        Some(text) => match parse_json(text) {
            Ok(message) => Some(message),
            Err(_) => None,
        },
        None => None,
    };
    read_calls_from_output(output, message.as_ref())
}

}

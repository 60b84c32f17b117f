//! Text as sequences of characters.
//!
//! Every string of the crate is specified by its view, a `Seq<char>`. This
//! module holds the few operations on such sequences that the rest of the
//! crate is specified with (trimming, searching, splitting, joining, decimal
//! numbers), each beside the executable function that computes it.
use vstd::prelude::*;
use vstd::string::*;
use vstd::utf8::*;

verus! {

/// `String::push` appends one character to the end of the string.
pub assume_specification[ String::push ](text: &mut String, c: char)
    ensures
        final(text)@ == old(text)@.push(c),
;

/// The views of the elements of a sequence, in order.
pub open spec fn views<T: View>(items: Seq<T>) -> Seq<T::V> {
    Seq::new(items.len(), |i: int| items[i]@)
}

/// Appending an element appends its view.
pub broadcast proof fn lemma_views_push<T: View>(items: Seq<T>, item: T)
    ensures
        #[trigger] views(items.push(item)) == views(items).push(item@),
{
    assert(views(items.push(item)) =~= views(items).push(item@));
}

/// The views of a concatenation are the concatenated views.
pub proof fn lemma_views_add<T: View>(left: Seq<T>, right: Seq<T>)
    ensures
        views(left + right) == views(left) + views(right),
{
    assert(views(left + right) =~= views(left) + views(right));
}

/// The view of what an option holds.
pub open spec fn option_view<T: View>(option: Option<T>) -> Option<T::V> {
    match option {
        Some(value) => Some(value@),
        None => None,
    }
}

/// The view of what a result holds.
pub open spec fn result_view<T: View, E: View>(result: Result<T, E>) -> Result<T::V, E::V> {
    match result {
        Ok(value) => Ok(value@),
        Err(error) => Err(error@),
    }
}

/// The views of the elements that an option holds.
pub open spec fn option_views<T: View>(option: Option<Vec<T>>) -> Option<Seq<T::V>> {
    match option {
        Some(items) => Some(views(items@)),
        None => None,
    }
}

/// The views of the elements that a result holds.
pub open spec fn result_views<T: View, E: View>(result: Result<Vec<T>, E>) -> Result<
    Seq<T::V>,
    E::V,
> {
    match result {
        Ok(items) => Ok(views(items@)),
        Err(error) => Err(error@),
    }
}

/// The characters of `text`, in order.
pub fn chars_of(text: &str) -> (chars: Vec<char>)
    ensures
        chars@ == text@,
{
    let mut chars: Vec<char> = Vec::new();
    for c in it: text.chars()
        invariant
            it.seq() == text@,
            chars@ == it.seq().take(it.index()),
    {
        chars.push(c);
        assert(it.seq().take(it.index() + 1) =~= it.seq().take(it.index()).push(c));
    }
    assert(text@.take(text@.len() as int) =~= text@);
    chars
}

/// The string whose characters are `chars[from..to]`.
pub fn substring(chars: &Vec<char>, from: usize, to: usize) -> (text: String)
    requires
        from <= to <= chars@.len(),
    ensures
        text@ == chars@.subrange(from as int, to as int),
{
    let mut text = String::new();
    let mut i: usize = from;
    while i < to
        invariant
            from <= i <= to <= chars@.len(),
            text@ == chars@.subrange(from as int, i as int),
        decreases to - i,
    {
        text.push(chars[i]);
        assert(chars@.subrange(from as int, i + 1) =~= chars@.subrange(from as int, i as int).push(
            chars@[i as int],
        ));
        i = i + 1;
    }
    text
}

/// Whether two strings hold the same characters.
pub fn same_text(left: &str, right: &str) -> (same: bool)
    ensures
        same == (left@ == right@),
{
    let a = left.as_bytes();
    let b = right.as_bytes();
    proof {
        encode_utf8_decode_utf8(left@);
        encode_utf8_decode_utf8(right@);
    }
    if a.len() != b.len() {
        return false;
    }
    let mut i: usize = 0;
    while i < a.len()
        invariant
            i <= a@.len() == b@.len(),
            a@.take(i as int) == b@.take(i as int),
            a@ == left.spec_bytes(),
            b@ == right.spec_bytes(),
        decreases a@.len() - i,
    {
        if a[i] != b[i] {
            return false;
        }
        assert(a@.take(i + 1) =~= a@.take(i as int).push(a@[i as int]));
        assert(b@.take(i + 1) =~= b@.take(i as int).push(b@[i as int]));
        i = i + 1;
    }
    assert(a@.take(i as int) =~= a@);
    assert(b@.take(i as int) =~= b@);
    true
}

/// Whether `c` has the Unicode property `White_Space`.
pub open spec fn white_space(c: char) -> bool {
    ||| '\u{9}' <= c <= '\u{d}'
    ||| c == ' '
    ||| c == '\u{85}'
    ||| c == '\u{a0}'
    ||| c == '\u{1680}'
    ||| '\u{2000}' <= c <= '\u{200a}'
    ||| c == '\u{2028}'
    ||| c == '\u{2029}'
    ||| c == '\u{202f}'
    ||| c == '\u{205f}'
    ||| c == '\u{3000}'
}

/// Decides [`white_space`].
pub fn is_white_space(c: char) -> (white: bool)
    ensures
        white == white_space(c),
{
    ('\u{9}' <= c && c <= '\u{d}') || c == ' ' || c == '\u{85}' || c == '\u{a0}' || c == '\u{1680}'
        || ('\u{2000}' <= c && c <= '\u{200a}') || c == '\u{2028}' || c == '\u{2029}' || c
        == '\u{202f}' || c == '\u{205f}' || c == '\u{3000}'
}

/// `s` without its leading white space.
pub open spec fn trim_start(s: Seq<char>) -> Seq<char>
    decreases s.len(),
{
    if s.len() > 0 && white_space(s[0]) {
        trim_start(s.drop_first())
    } else {
        s
    }
}

/// `s` without its trailing white space.
pub open spec fn trim_end(s: Seq<char>) -> Seq<char>
    decreases s.len(),
{
    if s.len() > 0 && white_space(s.last()) {
        trim_end(s.drop_last())
    } else {
        s
    }
}

/// `s` without its leading and trailing white space.
pub open spec fn trim(s: Seq<char>) -> Seq<char> {
    trim_end(trim_start(s))
}

/// The first position from `from` on, below `to`, that holds no white space;
/// `to` where every position does.
pub fn skip_white_space(chars: &Vec<char>, from: usize, to: usize) -> (start: usize)
    requires
        from <= to <= chars@.len(),
    ensures
        from <= start <= to,
        chars@.subrange(start as int, to as int) == trim_start(
            chars@.subrange(from as int, to as int),
        ),
{
    let mut start: usize = from;
    while start < to && is_white_space(chars[start])
        invariant
            from <= start <= to <= chars@.len(),
            trim_start(chars@.subrange(start as int, to as int)) == trim_start(
                chars@.subrange(from as int, to as int),
            ),
        decreases to - start,
    {
        assert(chars@.subrange(start as int, to as int).drop_first() =~= chars@.subrange(
            start + 1,
            to as int,
        ));
        start = start + 1;
    }
    start
}

/// The end of `chars[from..to]` once its trailing white space is dropped.
pub fn drop_white_space(chars: &Vec<char>, from: usize, to: usize) -> (end: usize)
    requires
        from <= to <= chars@.len(),
    ensures
        from <= end <= to,
        chars@.subrange(from as int, end as int) == trim_end(
            chars@.subrange(from as int, to as int),
        ),
{
    let mut end: usize = to;
    while end > from && is_white_space(chars[end - 1])
        invariant
            from <= end <= to <= chars@.len(),
            trim_end(chars@.subrange(from as int, end as int)) == trim_end(
                chars@.subrange(from as int, to as int),
            ),
        decreases end - from,
    {
        assert(chars@.subrange(from as int, end as int).drop_last() =~= chars@.subrange(
            from as int,
            end - 1,
        ));
        end = end - 1;
    }
    end
}

/// `chars[from..to]` as a string, trimmed.
pub fn trimmed(chars: &Vec<char>, from: usize, to: usize) -> (text: String)
    requires
        from <= to <= chars@.len(),
    ensures
        text@ == trim(chars@.subrange(from as int, to as int)),
{
    let start: usize = skip_white_space(chars, from, to);
    let end: usize = drop_white_space(chars, start, to);
    substring(chars, start, end)
}

/// `text` without its leading and trailing white space.
pub fn trim_text(text: &str) -> (trimmed_text: String)
    ensures
        trimmed_text@ == trim(text@),
{
    let chars = chars_of(text);
    assert(chars@.subrange(0, chars@.len() as int) =~= chars@);
    trimmed(&chars, 0, chars.len())
}

/// Whether `pattern` stands in `s` at position `i`.
pub open spec fn occurs_at(s: Seq<char>, i: int, pattern: Seq<char>) -> bool {
    &&& 0 <= i <= s.len() - pattern.len()
    &&& s.subrange(i, i + pattern.len()) == pattern
}

/// The first position from `from` on at which `pattern` stands in `s`.
pub open spec fn find_from(s: Seq<char>, from: int, pattern: Seq<char>) -> Option<int>
    decreases s.len() + 1 - from,
{
    if from < 0 || from + pattern.len() > s.len() {
        None
    } else if occurs_at(s, from, pattern) {
        Some(from)
    } else {
        find_from(s, from + 1, pattern)
    }
}

/// [`find_from`] finds the least occurrence, and finds one wherever there is one.
pub proof fn lemma_find_from(s: Seq<char>, from: int, pattern: Seq<char>)
    requires
        0 <= from,
    ensures
        match find_from(s, from, pattern) {
            Some(i) => from <= i && occurs_at(s, i, pattern) && forall|j: int|
                from <= j < i ==> !occurs_at(s, j, pattern),
            None => forall|j: int| from <= j ==> !occurs_at(s, j, pattern),
        },
    decreases s.len() + 1 - from,
{
    if from + pattern.len() > s.len() {
    } else if occurs_at(s, from, pattern) {
    } else {
        lemma_find_from(s, from + 1, pattern);
    }
}

/// Decides [`occurs_at`].
pub fn matches_at(chars: &Vec<char>, i: usize, pattern: &Vec<char>) -> (found: bool)
    requires
        i <= chars@.len(),
    ensures
        found == occurs_at(chars@, i as int, pattern@),
{
    if pattern.len() > chars.len() - i {
        return false;
    }
    let mut j: usize = 0;
    while j < pattern.len()
        invariant
            j <= pattern.len(),
            i + pattern.len() <= chars.len(),
            forall|k: int| 0 <= k < j ==> chars@[i + k] == pattern@[k],
        decreases pattern@.len() - j,
    {
        if chars[i + j] != pattern[j] {
            assert(chars@.subrange(i as int, i + pattern@.len())[j as int] != pattern@[j as int]);
            return false;
        }
        j = j + 1;
    }
    assert(chars@.subrange(i as int, i + pattern@.len()) =~= pattern@);
    true
}

/// Finds the first occurrence of `pattern` from `from` on.
pub fn find(chars: &Vec<char>, from: usize, pattern: &Vec<char>) -> (found: Option<usize>)
    requires
        from <= chars@.len(),
    ensures
        match found {
            Some(i) => find_from(chars@, from as int, pattern@) == Some(i as int) && from <= i <= i
                + pattern.len() <= chars.len(),
            None => find_from(chars@, from as int, pattern@) is None,
        },
{
    let mut i: usize = from;
    while i <= chars.len() && pattern.len() <= chars.len() - i
        invariant
            from <= i <= chars@.len() + 1,
            find_from(chars@, i as int, pattern@) == find_from(chars@, from as int, pattern@),
        decreases chars@.len() + 1 - i,
    {
        if matches_at(chars, i, pattern) {
            return Some(i);
        }
        if i == chars.len() {
            assert(find_from(chars@, i + 1, pattern@) is None);
            return None;
        }
        i = i + 1;
    }
    None
}

/// The pieces of `s` from `from` on, cut at every occurrence of `pattern`.
pub open spec fn split_from(s: Seq<char>, from: int, pattern: Seq<char>) -> Seq<Seq<char>>
    decreases s.len() + 1 - from,
{
    match find_from(s, from, pattern) {
        Some(i) if pattern.len() > 0 && from <= i <= s.len() - pattern.len() => seq![s.subrange(from, i)] + split_from(
            s,
            i + pattern.len(),
            pattern,
        ),
        _ => seq![s.subrange(from, s.len() as int)],
    }
}

/// Cuts `chars` at every occurrence of `pattern`.
pub fn split(chars: &Vec<char>, pattern: &Vec<char>) -> (pieces: Vec<Vec<char>>)
    requires
        pattern@.len() > 0,
    ensures
        views(pieces@) == split_from(chars@, 0, pattern@),
        pieces@.len() > 0,
{
    let mut pieces: Vec<Vec<char>> = Vec::new();
    let mut from: usize = 0;
    loop
        invariant_except_break
            pattern@.len() > 0,
            from <= chars.len(),
            split_from(chars@, 0, pattern@) == views(pieces@) + split_from(
                chars@,
                from as int,
                pattern@,
            ),
        ensures
            views(pieces@) == split_from(chars@, 0, pattern@),
            pieces@.len() > 0,
        decreases chars@.len() - from,
    {
        broadcast use lemma_views_push;

        let ghost before = views(pieces@);
        match find(chars, from, pattern) {
            Some(i) => {
                let piece = slice_of(chars, from, i);
                pieces.push(piece);
                assert(split_from(chars@, from as int, pattern@) == seq![
                    chars@.subrange(from as int, i as int),
                ] + split_from(chars@, i + pattern@.len(), pattern@));
                assert(before + (seq![piece@] + split_from(chars@, i + pattern@.len(), pattern@))
                    =~= before.push(piece@) + split_from(chars@, i + pattern@.len(), pattern@));
                from = i + pattern.len();
            },
            None => {
                let piece = slice_of(chars, from, chars.len());
                pieces.push(piece);
                assert(before + seq![piece@] =~= before.push(piece@));
                break;
            },
        }
    }
    pieces
}

/// A copy of `chars[from..to]`.
pub fn slice_of(chars: &Vec<char>, from: usize, to: usize) -> (slice: Vec<char>)
    requires
        from <= to <= chars@.len(),
    ensures
        slice@ == chars@.subrange(from as int, to as int),
{
    let mut slice: Vec<char> = Vec::new();
    let mut i: usize = from;
    while i < to
        invariant
            from <= i <= to <= chars@.len(),
            slice@ == chars@.subrange(from as int, i as int),
        decreases to - i,
    {
        slice.push(chars[i]);
        assert(chars@.subrange(from as int, i + 1) =~= chars@.subrange(from as int, i as int).push(
            chars@[i as int],
        ));
        i = i + 1;
    }
    slice
}

/// `parts` put one after the other with `separator` between neighbours.
pub open spec fn join(parts: Seq<Seq<char>>, separator: Seq<char>) -> Seq<char>
    decreases parts.len(),
{
    if parts.len() == 0 {
        Seq::empty()
    } else if parts.len() == 1 {
        parts[0]
    } else {
        join(parts.drop_last(), separator) + separator + parts.last()
    }
}

/// Joins `parts` with `separator`.
pub fn join_texts(parts: &Vec<String>, separator: &str) -> (text: String)
    ensures
        text@ == join(views(parts@), separator@),
{
    let mut text = String::new();
    let mut i: usize = 0;
    while i < parts.len()
        invariant
            i <= parts@.len(),
            text@ == join(views(parts@).take(i as int), separator@),
        decreases parts@.len() - i,
    {
        let ghost next = views(parts@).take(i + 1);
        assert(next.drop_last() =~= views(parts@).take(i as int));
        if i > 0 {
            text.append(separator);
        }
        text.append(parts[i].as_str());
        assert(text@ =~= join(next, separator@));
        i = i + 1;
    }
    assert(views(parts@).take(i as int) =~= views(parts@));
    text
}

/// The character of a decimal digit.
pub open spec fn digit(d: nat) -> char {
    (48 + d) as char
}

/// `n` in decimal notation.
pub open spec fn decimal(n: nat) -> Seq<char>
    decreases n,
{
    if n < 10 {
        seq![digit(n)]
    } else {
        decimal(n / 10).push(digit(n % 10))
    }
}

/// Writes `n` in decimal notation.
pub fn decimal_text(n: u64) -> (text: String)
    ensures
        text@ == decimal(n as nat),
    decreases n,
{
    let mut text = if n < 10 {
        String::new()
    } else {
        decimal_text(n / 10)
    };
    let last: u8 = (n % 10) as u8;
    text.push((48 + last) as char);
    assert(n < 10 ==> text@ =~= seq![digit(n as nat)]);
    text
}

/// `n` in decimal notation, with a sign where it is negative.
pub open spec fn signed_decimal(n: int) -> Seq<char> {
    if n < 0 {
        "-"@ + decimal((-n) as nat)
    } else {
        decimal(n as nat)
    }
}

/// Writes `n` in decimal notation, with a sign where it is negative.
pub fn signed_decimal_text(n: i32) -> (text: String)
    ensures
        text@ == signed_decimal(n as int),
{
    let wide: i64 = n as i64;
    if wide < 0 {
        let mut text = "-".to_owned();
        text.append(decimal_text((-wide) as u64).as_str());
        text
    } else {
        decimal_text(wide as u64)
    }
}

/// Whether `s` ends with `suffix`.
pub open spec fn ends_with(s: Seq<char>, suffix: Seq<char>) -> bool {
    suffix.len() <= s.len() && s.skip(s.len() - suffix.len()) == suffix
}

/// The ASCII lower case of `c`.
pub open spec fn ascii_lower(c: char) -> char {
    if 'A' <= c <= 'Z' {
        (c as u32 + 32) as char
    } else {
        c
    }
}

/// Computes [`ascii_lower`].
pub fn to_ascii_lower(c: char) -> (lower: char)
    ensures
        lower == ascii_lower(c),
{
    if 'A' <= c && c <= 'Z' {
        ((c as u8) + 32) as char
    } else {
        c
    }
}

/// `s` with its ASCII letters in lower case.
pub open spec fn lower(s: Seq<char>) -> Seq<char> {
    s.map_values(|c: char| ascii_lower(c))
}

/// `text` with every ASCII letter in lower case.
pub fn lower_text(text: &str) -> (lower_case: String)
    ensures
        lower_case@ == lower(text@),
{
    let chars = chars_of(text);
    let mut lower_case = String::new();
    let mut i: usize = 0;
    while i < chars.len()
        invariant
            i <= chars@.len(),
            chars@ == text@,
            lower_case@ == lower(text@.take(i as int)),
        decreases chars@.len() - i,
    {
        lower_case.push(to_ascii_lower(chars[i]));
        assert(lower_case@ =~= lower(text@.take(i + 1)));
        i = i + 1;
    }
    assert(text@.take(i as int) =~= text@);
    lower_case
}

/// The characters with the Unicode property `White_Space` are these.
pub proof fn law_white_space_is_listed(c: char)
    ensures
        white_space(c) <==> seq![
            0x9u32,
            0xa,
            0xb,
            0xc,
            0xd,
            0x20,
            0x85,
            0xa0,
            0x1680,
            0x2000,
            0x2001,
            0x2002,
            0x2003,
            0x2004,
            0x2005,
            0x2006,
            0x2007,
            0x2008,
            0x2009,
            0x200a,
            0x2028,
            0x2029,
            0x202f,
            0x205f,
            0x3000,
        ].contains(c as u32),
{
    let codes = seq![
        0x9u32,
        0xa,
        0xb,
        0xc,
        0xd,
        0x20,
        0x85,
        0xa0,
        0x1680,
        0x2000,
        0x2001,
        0x2002,
        0x2003,
        0x2004,
        0x2005,
        0x2006,
        0x2007,
        0x2008,
        0x2009,
        0x200a,
        0x2028,
        0x2029,
        0x202f,
        0x205f,
        0x3000,
    ];
    assert(codes[0] == 0x9 && codes[1] == 0xa && codes[2] == 0xb && codes[3] == 0xc && codes[4]
        == 0xd && codes[5] == 0x20 && codes[6] == 0x85 && codes[7] == 0xa0 && codes[8] == 0x1680
        && codes[9] == 0x2000 && codes[10] == 0x2001 && codes[11] == 0x2002 && codes[12] == 0x2003
        && codes[13] == 0x2004 && codes[14] == 0x2005 && codes[15] == 0x2006 && codes[16] == 0x2007
        && codes[17] == 0x2008 && codes[18] == 0x2009 && codes[19] == 0x200a && codes[20] == 0x2028
        && codes[21] == 0x2029 && codes[22] == 0x202f && codes[23] == 0x205f && codes[24] == 0x3000
        && codes.len() == 25);
    if codes.contains(c as u32) {
        let i = choose|i: int| 0 <= i < codes.len() && codes[i] == c as u32;
        assert(0 <= i < 25);
    }
}

/// Whether every character of `s` is white space.
pub open spec fn all_white(s: Seq<char>) -> bool {
    forall|i: int| 0 <= i < s.len() ==> white_space(#[trigger] s[i])
}

/// Trimming takes away the white space at both ends, and nothing else.
pub proof fn law_trimming_keeps_what_is_between(
    lead: Seq<char>,
    core: Seq<char>,
    trail: Seq<char>,
)
    requires
        all_white(lead),
        all_white(trail),
        core.len() > 0 ==> !white_space(core[0]) && !white_space(core.last()),
    ensures
        trim(lead + core + trail) == core,
        core.len() > 0 ==> trim_start(lead + core + trail) == core + trail,
        trim_end(core + trail) == core,
{
    lemma_trim_end(core, trail);
    if core.len() > 0 {
        assert(lead + core + trail =~= lead + (core + trail));
        assert((core + trail)[0] == core[0]);
        lemma_trim_start(lead, core + trail);
    } else {
        let white = lead + core + trail;
        assert(all_white(white)) by {
            assert forall|i: int| 0 <= i < white.len() implies white_space(#[trigger] white[i]) by {
                if i < lead.len() {
                    assert(white[i] == lead[i]);
                } else {
                    assert(white[i] == trail[i - lead.len()]);
                }
            }
        }
        assert(white + Seq::<char>::empty() =~= white);
        lemma_trim_start(white, Seq::empty());
        assert(core =~= Seq::empty());
    }
}

/// Leading white space goes, and nothing behind it.
proof fn lemma_trim_start(lead: Seq<char>, rest: Seq<char>)
    requires
        all_white(lead),
        rest.len() > 0 ==> !white_space(rest[0]),
    ensures
        trim_start(lead + rest) == rest,
    decreases lead.len(),
{
    if lead.len() == 0 {
        assert(lead + rest =~= rest);
    } else {
        assert((lead + rest)[0] == lead[0]);
        assert((lead + rest).drop_first() =~= lead.drop_first() + rest);
        assert(forall|i: int| 0 <= i < lead.len() - 1 ==> lead.drop_first()[i] == #[trigger] lead[i
            + 1]);
        lemma_trim_start(lead.drop_first(), rest);
    }
}

/// Trailing white space goes, and nothing in front of it.
proof fn lemma_trim_end(rest: Seq<char>, trail: Seq<char>)
    requires
        all_white(trail),
        rest.len() > 0 ==> !white_space(rest.last()),
    ensures
        trim_end(rest + trail) == rest,
    decreases trail.len(),
{
    if trail.len() == 0 {
        assert(rest + trail =~= rest);
    } else {
        assert((rest + trail).last() == trail[trail.len() - 1]);
        assert((rest + trail).drop_last() =~= rest + trail.drop_last());
        lemma_trim_end(rest, trail.drop_last());
    }
}

/// A pattern stands in a text exactly where the text is what is in front of the
/// pattern, the pattern, and what is behind it.
pub proof fn law_occurrences_divide_the_text(
    lead: Seq<char>,
    pattern: Seq<char>,
    trail: Seq<char>,
    s: Seq<char>,
    i: int,
)
    ensures
        occurs_at(lead + pattern + trail, lead.len() as int, pattern),
        occurs_at(s, i, pattern) ==> s == s.take(i) + pattern + s.skip(i + pattern.len()),
{
    let whole = lead + pattern + trail;
    assert(whole.subrange(lead.len() as int, (lead.len() + pattern.len()) as int) =~= pattern);
    if occurs_at(s, i, pattern) {
        assert(s.subrange(i, i + pattern.len()) + s.skip(i + pattern.len()) =~= s.skip(i));
        assert(s =~= s.take(i) + pattern + s.skip(i + pattern.len()));
    }
}

/// Joined texts: none give the empty text, one gives itself, and two lists of
/// texts give the join of the first, the separator, and the join of the second.
pub proof fn law_joins_put_separators_between(
    left: Seq<Seq<char>>,
    right: Seq<Seq<char>>,
    part: Seq<char>,
    separator: Seq<char>,
)
    ensures
        join(Seq::empty(), separator) == Seq::<char>::empty(),
        join(seq![part], separator) == part,
        left.len() > 0 && right.len() > 0 ==> join(left + right, separator) == join(left, separator)
            + separator + join(right, separator),
    decreases right.len(),
{
    if left.len() > 0 && right.len() > 0 {
        assert((left + right).drop_last() =~= left + right.drop_last());
        assert((left + right).last() == right.last());
        if right.len() == 1 {
            assert(left + right.drop_last() =~= left);
            assert(right[0] == right.last());
        } else {
            law_joins_put_separators_between(left, right.drop_last(), part, separator);
            assert(join(left + right, separator) =~= join(left, separator) + separator + join(
                right,
                separator,
            ));
        }
    }
}

/// The pieces of a text that is cut at a pattern give the text when they are
/// joined with the pattern, and the pattern stands in none of them.
pub proof fn law_split_pieces_join_to_the_text(s: Seq<char>, pattern: Seq<char>)
    requires
        pattern.len() > 0,
    ensures
        join(split_from(s, 0, pattern), pattern) == s,
        split_from(s, 0, pattern).len() > 0,
        forall|k: int, j: int|
            0 <= k < split_from(s, 0, pattern).len() ==> !(#[trigger] occurs_at(
                split_from(s, 0, pattern)[k],
                j,
                pattern,
            )),
{
    lemma_split_from(s, 0, pattern);
    assert(s.skip(0) =~= s);
}

/// The pieces of a text from `from` on.
proof fn lemma_split_from(s: Seq<char>, from: int, pattern: Seq<char>)
    requires
        pattern.len() > 0,
        0 <= from <= s.len(),
    ensures
        join(split_from(s, from, pattern), pattern) == s.skip(from),
        split_from(s, from, pattern).len() > 0,
        forall|k: int, j: int|
            0 <= k < split_from(s, from, pattern).len() ==> !(#[trigger] occurs_at(
                split_from(s, from, pattern)[k],
                j,
                pattern,
            )),
    decreases s.len() - from,
{
    lemma_find_from(s, from, pattern);
    let pieces = split_from(s, from, pattern);
    match find_from(s, from, pattern) {
        Some(i) => {
            let first = s.subrange(from, i);
            let rest = split_from(s, i + pattern.len(), pattern);
            lemma_split_from(s, i + pattern.len(), pattern);
            law_joins_put_separators_between(seq![first], rest, first, pattern);
            law_occurrences_divide_the_text(first, pattern, first, s, i);
            assert(first + pattern + s.skip(i + pattern.len()) =~= s.skip(from)) by {
                assert(s.subrange(i, i + pattern.len()) == pattern);
                assert forall|n: int| 0 <= n < s.len() - from implies s.skip(from)[n] == (first
                    + pattern + s.skip(i + pattern.len()))[n] by {
                    if i - from <= n < i - from + pattern.len() {
                        assert(pattern[n - (i - from)] == s.subrange(i, i + pattern.len())[n - (i
                            - from)]);
                    }
                }
            }
            assert forall|k: int, j: int| 0 <= k < pieces.len() implies !(#[trigger] occurs_at(
                pieces[k],
                j,
                pattern,
            )) by {
                if k == 0 {
                    if occurs_at(first, j, pattern) {
                        assert(s.subrange(from + j, from + j + pattern.len())
                            =~= first.subrange(j, j + pattern.len()));
                        assert(occurs_at(s, from + j, pattern));
                    }
                } else {
                    assert(pieces[k] == rest[k - 1]);
                }
            }
        },
        None => {
            let first = s.subrange(from, s.len() as int);
            assert(first =~= s.skip(from));
            assert forall|k: int, j: int| 0 <= k < pieces.len() implies !(#[trigger] occurs_at(
                pieces[k],
                j,
                pattern,
            )) by {
                if occurs_at(first, j, pattern) {
                    assert(s.subrange(from + j, from + j + pattern.len()) =~= first.subrange(
                        j,
                        j + pattern.len(),
                    ));
                    assert(occurs_at(s, from + j, pattern));
                }
            }
        },
    }
}

/// The number that digits stand for.
pub open spec fn number_of(digits: Seq<char>) -> int
    decreases digits.len(),
{
    if digits.len() == 0 {
        0
    } else {
        10 * number_of(digits.drop_last()) + (digits.last() as int - '0' as int)
    }
}

/// A number in decimal notation is digits that stand for it, without a leading
/// zero but for zero itself; a negative one has a sign in front.
pub proof fn law_decimals_stand_for_the_number(n: nat)
    ensures
        number_of(decimal(n)) == n,
        decimal(n).len() > 0,
        forall|i: int| 0 <= i < decimal(n).len() ==> '0' <= #[trigger] decimal(n)[i] <= '9',
        n > 0 ==> decimal(n)[0] != '0',
        signed_decimal(n as int) == decimal(n),
        n > 0 ==> signed_decimal(-(n as int)) == seq!['-'] + decimal(n),
    decreases n,
{
    reveal_strlit("-");
    assert("-"@ =~= seq!['-']);
    reveal_with_fuel(number_of, 2);
    if n < 10 {
        assert(decimal(n).drop_last() =~= Seq::empty());
    } else {
        law_decimals_stand_for_the_number(n / 10);
        assert(decimal(n).drop_last() =~= decimal(n / 10));
        assert(decimal(n)[0] == decimal(n / 10)[0]);
        assert forall|i: int| 0 <= i < decimal(n).len() implies '0' <= #[trigger] decimal(n)[i]
            <= '9' by {
            if i < decimal(n / 10).len() {
                assert(decimal(n)[i] == decimal(n / 10)[i]);
            }
        }
    }
}

/// A text ends with exactly those texts that something can be put in front of
/// to give it.
pub proof fn law_suffixes_complete_the_text(lead: Seq<char>, suffix: Seq<char>, s: Seq<char>)
    ensures
        ends_with(lead + suffix, suffix),
        ends_with(s, suffix) ==> s.len() >= suffix.len() && s == s.take(s.len() - suffix.len())
            + suffix,
{
    assert((lead + suffix).skip(lead.len() as int) =~= suffix);
    if ends_with(s, suffix) {
        assert(s =~= s.take(s.len() - suffix.len()) + s.skip(s.len() - suffix.len()));
    }
}

/// Lower case changes the letters from `A` to `Z`, each into the small letter
/// with its place in the alphabet, and no other character.
pub proof fn law_lower_case_changes_capitals_only(s: Seq<char>, i: int)
    requires
        0 <= i < s.len(),
    ensures
        lower(s).len() == s.len(),
        'A' <= s[i] <= 'Z' ==> lower(s)[i] as int - 'a' as int == s[i] as int - 'A' as int,
        !('A' <= s[i] <= 'Z') ==> lower(s)[i] == s[i],
{
}

/// The views of a list are those of its elements, one for one; the view of an
/// option or a result is that of what it holds, under the same variant.
pub proof fn law_views_go_element_by_element<T: View, E: View>(
    items: Seq<T>,
    option: Option<T>,
    result: Result<T, E>,
    list: Option<Vec<T>>,
    outcome: Result<Vec<T>, E>,
)
    ensures
        views(items).len() == items.len(),
        forall|i: int| 0 <= i < items.len() ==> #[trigger] views(items)[i] == items[i]@,
        option matches Some(value) ==> option_view(option) == Some(value@),
        option is None ==> option_view(option) is None,
        result matches Ok(value) ==> result_view(result) == Ok::<T::V, E::V>(value@),
        result matches Err(error) ==> result_view(result) == Err::<T::V, E::V>(error@),
        list matches Some(held) ==> option_views(list) == Some(views(held@)),
        list is None ==> option_views(list) is None,
        outcome matches Ok(held) ==> result_views(outcome) == Ok::<Seq<T::V>, E::V>(views(held@)),
        outcome matches Err(error) ==> result_views(outcome) == Err::<Seq<T::V>, E::V>(error@),
{
}

}

//! The mathematical description of the scanner.
//!
//! Everything here is ghost: recursive functions over the buffer's
//! character sequence that say, for every cursor position, what the next
//! pull of the lexer produces and where the cursor lands afterwards.  The
//! executable scanner in [`crate::lex`] is proved against [`lex_step`].

use vstd::prelude::*;
use crate::lex::TokenKind;

verus! {

// ---------------------------------------------------------------------------
// Character classes
// ---------------------------------------------------------------------------

/// The Unicode `White_Space` property for code points outside ASCII; what
/// `char::is_whitespace` answers there.  Left without a definition: the
/// full table is Unicode's, not this crate's.
pub uninterp spec fn unicode_space(c: char) -> bool;

/// Whitespace as the scanner skips it: the Unicode `White_Space` property.
/// Its ASCII members are exactly the six listed characters.
pub open spec fn is_space(c: char) -> bool {
    if (c as u32) < 0x80 {
        c == ' ' || c == '\t' || c == '\n' || c == '\r' || c == '\u{b}' || c == '\u{c}'
    } else {
        unicode_space(c)
    }
}

/// An ASCII decimal digit.
pub open spec fn is_digit(c: char) -> bool {
    ('0' as u32) <= (c as u32) && (c as u32) <= ('9' as u32)
}

/// A character that may begin an identifier: an ASCII letter or `_`.
pub open spec fn is_ident_start(c: char) -> bool {
    (('a' as u32) <= (c as u32) && (c as u32) <= ('z' as u32))
    || (('A' as u32) <= (c as u32) && (c as u32) <= ('Z' as u32))
    || c == '_'
}

/// A character that may continue an identifier.
pub open spec fn is_ident_cont(c: char) -> bool {
    is_ident_start(c) || is_digit(c)
}

/// A character of the maximal run first grabbed for a number literal:
/// a digit or a dot.
pub open spec fn is_number_cont(c: char) -> bool {
    is_digit(c) || c == '.'
}

// ---------------------------------------------------------------------------
// Scanning primitives
// ---------------------------------------------------------------------------

/// The first index at or after `from` holding `c`, or the buffer's length
/// when no later position does.
pub open spec fn find_char(s: Seq<char>, from: int, c: char) -> int
    decreases s.len() - from when 0 <= from <= s.len()
{
    if from >= s.len() {
        s.len() as int
    } else if s[from] == c {
        from
    } else {
        find_char(s, from + 1, c)
    }
}

pub proof fn lemma_find_char(s: Seq<char>, from: int, c: char)
    requires
        0 <= from <= s.len(),
    ensures
        from <= find_char(s, from, c) <= s.len(),
        find_char(s, from, c) < s.len() ==> s[find_char(s, from, c)] == c,
        forall|i: int| from <= i < find_char(s, from, c) ==> s[i] != c,
    decreases s.len() - from,
{
    if from < s.len() && s[from] != c {
        lemma_find_char(s, from + 1, c);
    }
}

/// `find_char` lands exactly where a scan shows `c` first appears.
pub proof fn lemma_find_char_is(s: Seq<char>, from: int, c: char, k: int)
    requires
        0 <= from <= k <= s.len(),
        forall|i: int| from <= i < k ==> s[i] != c,
        k < s.len() ==> s[k] == c,
    ensures
        find_char(s, from, c) == k,
    decreases s.len() - from,
{
    if from < s.len() && s[from] != c {
        lemma_find_char_is(s, from + 1, c, k);
    }
}

/// The end of the run of whitespace beginning at `from`.
pub open spec fn space_end(s: Seq<char>, from: int) -> int
    decreases s.len() - from when 0 <= from <= s.len()
{
    if from < s.len() && is_space(s[from]) {
        space_end(s, from + 1)
    } else {
        from
    }
}

pub proof fn lemma_space_end(s: Seq<char>, from: int)
    requires
        0 <= from <= s.len(),
    ensures
        from <= space_end(s, from) <= s.len(),
        space_end(s, from) < s.len() ==> !is_space(s[space_end(s, from)]),
        forall|i: int| from <= i < space_end(s, from) ==> is_space(s[i]),
    decreases s.len() - from,
{
    if from < s.len() && is_space(s[from]) {
        lemma_space_end(s, from + 1);
    }
}

/// `space_end` lands exactly where a scan shows the whitespace run ends.
pub proof fn lemma_space_end_is(s: Seq<char>, from: int, k: int)
    requires
        0 <= from <= k <= s.len(),
        forall|i: int| from <= i < k ==> is_space(s[i]),
        k < s.len() ==> !is_space(s[k]),
    ensures
        space_end(s, from) == k,
    decreases s.len() - from,
{
    if from < s.len() && is_space(s[from]) {
        lemma_space_end_is(s, from + 1, k);
    }
}

/// The end of the run of identifier characters beginning at `from`.
pub open spec fn ident_end(s: Seq<char>, from: int) -> int
    decreases s.len() - from when 0 <= from <= s.len()
{
    if from < s.len() && is_ident_cont(s[from]) {
        ident_end(s, from + 1)
    } else {
        from
    }
}

pub proof fn lemma_ident_end(s: Seq<char>, from: int)
    requires
        0 <= from <= s.len(),
    ensures
        from <= ident_end(s, from) <= s.len(),
        ident_end(s, from) < s.len() ==> !is_ident_cont(s[ident_end(s, from)]),
        forall|i: int| from <= i < ident_end(s, from) ==> is_ident_cont(s[i]),
    decreases s.len() - from,
{
    if from < s.len() && is_ident_cont(s[from]) {
        lemma_ident_end(s, from + 1);
    }
}

/// `ident_end` lands exactly where a scan shows the identifier run ends.
pub proof fn lemma_ident_end_is(s: Seq<char>, from: int, k: int)
    requires
        0 <= from <= k <= s.len(),
        forall|i: int| from <= i < k ==> is_ident_cont(s[i]),
        k < s.len() ==> !is_ident_cont(s[k]),
    ensures
        ident_end(s, from) == k,
    decreases s.len() - from,
{
    if from < s.len() && is_ident_cont(s[from]) {
        lemma_ident_end_is(s, from + 1, k);
    }
}

/// The end of the maximal run of digits and dots beginning at `from`.
pub open spec fn number_end(s: Seq<char>, from: int) -> int
    decreases s.len() - from when 0 <= from <= s.len()
{
    if from < s.len() && is_number_cont(s[from]) {
        number_end(s, from + 1)
    } else {
        from
    }
}

pub proof fn lemma_number_end(s: Seq<char>, from: int)
    requires
        0 <= from <= s.len(),
    ensures
        from <= number_end(s, from) <= s.len(),
        number_end(s, from) < s.len() ==> !is_number_cont(s[number_end(s, from)]),
        forall|i: int| from <= i < number_end(s, from) ==> is_number_cont(s[i]),
    decreases s.len() - from,
{
    if from < s.len() && is_number_cont(s[from]) {
        lemma_number_end(s, from + 1);
    }
}

/// `number_end` lands exactly where a scan shows the digit/dot run ends.
pub proof fn lemma_number_end_is(s: Seq<char>, from: int, k: int)
    requires
        0 <= from <= k <= s.len(),
        forall|i: int| from <= i < k ==> is_number_cont(s[i]),
        k < s.len() ==> !is_number_cont(s[k]),
    ensures
        number_end(s, from) == k,
    decreases s.len() - from,
{
    if from < s.len() && is_number_cont(s[from]) {
        lemma_number_end_is(s, from + 1, k);
    }
}

// ---------------------------------------------------------------------------
// Token text shapes
// ---------------------------------------------------------------------------

/// The keyword kind a lexeme of identifier shape maps to, or `Ident` when
/// it matches no reserved word.
pub open spec fn keyword_kind(t: Seq<char>) -> TokenKind {
    if t == "and"@ { TokenKind::And }
    else if t == "class"@ { TokenKind::Class }
    else if t == "else"@ { TokenKind::Else }
    else if t == "false"@ { TokenKind::False }
    else if t == "for"@ { TokenKind::For }
    else if t == "fun"@ { TokenKind::Fun }
    else if t == "if"@ { TokenKind::If }
    else if t == "nil"@ { TokenKind::Nil }
    else if t == "or"@ { TokenKind::Or }
    else if t == "print"@ { TokenKind::Print }
    else if t == "return"@ { TokenKind::Return }
    else if t == "super"@ { TokenKind::Super }
    else if t == "this"@ { TokenKind::This }
    else if t == "true"@ { TokenKind::True }
    else if t == "var"@ { TokenKind::Var }
    else if t == "while"@ { TokenKind::While }
    else { TokenKind::Ident }
}

/// A number lexeme certain to denote a value: nonempty, digits and dots
/// only, opening with a digit, and holding no second dot.
pub open spec fn valid_number(t: Seq<char>) -> bool {
    &&& t.len() > 0
    &&& is_digit(t[0])
    &&& forall|i: int| 0 <= i < t.len() ==> is_number_cont(#[trigger] t[i])
    &&& forall|i: int, j: int| 0 <= i < j < t.len() && t[i] == '.' ==> t[j] != '.'
}

/// Where the number token beginning at `pos` ends: take the maximal run
/// of digits and dots, then cut it back so that at most one dot stays —
/// at a second dot the token stops there, and a bare trailing dot is
/// handed back to the stream.
pub open spec fn number_token_end(s: Seq<char>, pos: int) -> int {
    let e = number_end(s, pos);
    let d1 = find_char(s, pos, '.');
    if d1 < e {
        let d2 = find_char(s, d1 + 1, '.');
        if d2 < e {
            d2
        } else if d1 == e - 1 {
            d1
        } else {
            e
        }
    } else {
        e
    }
}

// ---------------------------------------------------------------------------
// One pull of the scanner
// ---------------------------------------------------------------------------

/// What one pull of the scanner produces, as positions into the buffer.
///
/// A `Tok` spans `[start, end)` and leaves the cursor at `next`; the two
/// differ only for a one-character comparison operator, whose trailing
/// whitespace is dropped.  `ErrChar` covers the one offending character;
/// `ErrString` runs from the opening quote to the end of the buffer and
/// leaves the cursor there; `ErrNumber` covers the rejected literal.
pub enum Step {
    End,
    Tok { kind: TokenKind, start: int, end: int, next: int },
    ErrChar { at: int },
    ErrString { start: int },
    ErrNumber { start: int, end: int },
}

/// Where the cursor stands after a step taken at a buffer of length `len`.
pub open spec fn step_next(st: Step, len: int) -> int {
    match st {
        Step::End => len,
        Step::Tok { kind, start, end, next } => next,
        Step::ErrChar { at } => at + 1,
        Step::ErrString { start } => len,
        Step::ErrNumber { start, end } => end,
    }
}

/// The two-character kind fused from a comparison operator and `=`.
pub open spec fn two_char_kind(c: char) -> TokenKind {
    if c == '<' { TokenKind::LessEqual }
    else if c == '>' { TokenKind::GreaterEqual }
    else if c == '!' { TokenKind::BangEqual }
    else { TokenKind::EqualEqual }
}

/// The kind of a comparison operator standing alone.
pub open spec fn one_char_kind(c: char) -> TokenKind {
    if c == '<' { TokenKind::Less }
    else if c == '>' { TokenKind::Greater }
    else if c == '!' { TokenKind::Bang }
    else { TokenKind::Equal }
}

/// Classification of the token or error beginning at `pos`, which holds
/// neither whitespace nor a comment opening.
///
/// A comparison operator fuses with a later `=` even across intervening
/// whitespace, which then sits inside the token's span; this mirrors how
/// the operator lookahead trims the remaining input before testing for
/// `=`, so `! =` lexes as one `BangEqual`.
pub open spec fn classify(s: Seq<char>, pos: int) -> Step {
    let c = s[pos];
    if c == '(' { Step::Tok { kind: TokenKind::LeftParen, start: pos, end: pos + 1, next: pos + 1 } }
    else if c == ')' { Step::Tok { kind: TokenKind::RightParen, start: pos, end: pos + 1, next: pos + 1 } }
    else if c == '{' { Step::Tok { kind: TokenKind::LeftBrace, start: pos, end: pos + 1, next: pos + 1 } }
    else if c == '}' { Step::Tok { kind: TokenKind::RightBrace, start: pos, end: pos + 1, next: pos + 1 } }
    else if c == ',' { Step::Tok { kind: TokenKind::Comma, start: pos, end: pos + 1, next: pos + 1 } }
    else if c == '.' { Step::Tok { kind: TokenKind::Dot, start: pos, end: pos + 1, next: pos + 1 } }
    else if c == '-' { Step::Tok { kind: TokenKind::Minus, start: pos, end: pos + 1, next: pos + 1 } }
    else if c == '+' { Step::Tok { kind: TokenKind::Plus, start: pos, end: pos + 1, next: pos + 1 } }
    else if c == ';' { Step::Tok { kind: TokenKind::Semicolon, start: pos, end: pos + 1, next: pos + 1 } }
    else if c == '*' { Step::Tok { kind: TokenKind::Star, start: pos, end: pos + 1, next: pos + 1 } }
    else if c == '/' { Step::Tok { kind: TokenKind::Slash, start: pos, end: pos + 1, next: pos + 1 } }
    else if c == '<' || c == '>' || c == '!' || c == '=' {
        let j = space_end(s, pos + 1);
        if j < s.len() && s[j] == '=' {
            Step::Tok { kind: two_char_kind(c), start: pos, end: j + 1, next: j + 1 }
        } else {
            Step::Tok { kind: one_char_kind(c), start: pos, end: pos + 1, next: j }
        }
    }
    else if c == '"' {
        let q = find_char(s, pos + 1, '"');
        if q < s.len() {
            Step::Tok { kind: TokenKind::String, start: pos, end: q + 1, next: q + 1 }
        } else {
            Step::ErrString { start: pos }
        }
    }
    else if is_digit(c) {
        let e = number_token_end(s, pos);
        if valid_number(s.subrange(pos, e)) {
            Step::Tok { kind: TokenKind::Number, start: pos, end: e, next: e }
        } else {
            Step::ErrNumber { start: pos, end: e }
        }
    }
    else if is_ident_start(c) {
        let e = ident_end(s, pos);
        Step::Tok { kind: keyword_kind(s.subrange(pos, e)), start: pos, end: e, next: e }
    }
    else { Step::ErrChar { at: pos } }
}

/// Whether a `//` comment opens at `pos`.
pub open spec fn comment_at(s: Seq<char>, pos: int) -> bool {
    s[pos] == '/' && pos + 1 < s.len() && s[pos + 1] == '/'
}

/// One pull of the scanner from cursor `pos`: skip whitespace a character
/// at a time and line comments up to (and excluding) their newline, then
/// classify what begins at the first significant character — or report
/// the end of the stream when nothing significant is left.
pub open spec fn lex_step(s: Seq<char>, pos: int) -> Step
    decreases s.len() - pos when 0 <= pos <= s.len() via lex_step_decreases
{
    if pos >= s.len() {
        Step::End
    } else if is_space(s[pos]) {
        lex_step(s, pos + 1)
    } else if comment_at(s, pos) {
        lex_step(s, find_char(s, pos + 1, '\n'))
    } else {
        classify(s, pos)
    }
}

#[via_fn]
proof fn lex_step_decreases(s: Seq<char>, pos: int) {
    if 0 <= pos < s.len() && !is_space(s[pos]) && comment_at(s, pos) {
        lemma_find_char(s, pos + 1, '\n');
    }
}

/// Where skipping stops: the first position from `pos` that lies in
/// neither whitespace nor a line comment.
pub open spec fn skip_target(s: Seq<char>, pos: int) -> int
    decreases s.len() - pos when 0 <= pos <= s.len() via skip_target_decreases
{
    if pos >= s.len() {
        s.len() as int
    } else if is_space(s[pos]) {
        skip_target(s, pos + 1)
    } else if comment_at(s, pos) {
        skip_target(s, find_char(s, pos + 1, '\n'))
    } else {
        pos
    }
}

#[via_fn]
proof fn skip_target_decreases(s: Seq<char>, pos: int) {
    if 0 <= pos < s.len() && !is_space(s[pos]) && comment_at(s, pos) {
        lemma_find_char(s, pos + 1, '\n');
    }
}

/// A pull classifies exactly at the position where skipping stops.
pub proof fn lemma_step_at_skip(s: Seq<char>, pos: int)
    requires
        0 <= pos <= s.len(),
    ensures
        pos <= skip_target(s, pos) <= s.len(),
        lex_step(s, pos) == lex_step(s, skip_target(s, pos)),
        skip_target(s, pos) == s.len() ==> lex_step(s, pos) == Step::End,
        skip_target(s, pos) < s.len() ==> lex_step(s, pos) == classify(s, skip_target(s, pos))
            && !is_space(s[skip_target(s, pos)]) && !comment_at(s, skip_target(s, pos)),
    decreases s.len() - pos,
{
    if pos < s.len() {
        if is_space(s[pos]) {
            lemma_step_at_skip(s, pos + 1);
        } else if comment_at(s, pos) {
            lemma_find_char(s, pos + 1, '\n');
            lemma_step_at_skip(s, find_char(s, pos + 1, '\n'));
        }
    }
}

// ---------------------------------------------------------------------------
// Coverage of the buffer
// ---------------------------------------------------------------------------

/// The number token opening at a digit covers at least that digit and
/// never exceeds the digit/dot run.
pub proof fn lemma_number_bounds(s: Seq<char>, pos: int)
    requires
        0 <= pos < s.len(),
        is_digit(s[pos]),
    ensures
        pos < number_token_end(s, pos) <= number_end(s, pos) <= s.len(),
{
    lemma_number_end(s, pos);
    lemma_number_end(s, pos + 1);
    assert(number_end(s, pos) == number_end(s, pos + 1));
    lemma_find_char(s, pos, '.');
    let e = number_end(s, pos);
    let d1 = find_char(s, pos, '.');
    if d1 < e {
        lemma_find_char(s, d1 + 1, '.');
    }
}

/// What one pull consumes: the whole region from the old cursor to the
/// new one.  The gap skipped ahead of the item is exactly where
/// whitespace and comments end; a token's span lies inside the region,
/// and whatever the region holds beyond the span — only a lone
/// comparison operator leaves anything there — is whitespace.
pub proof fn lemma_step_bounds(s: Seq<char>, pos: int)
    requires
        0 <= pos <= s.len(),
    ensures
        match lex_step(s, pos) {
            Step::End => skip_target(s, pos) == s.len(),
            Step::Tok { kind, start, end, next } => {
                &&& start == skip_target(s, pos)
                &&& pos <= start < end <= next <= s.len()
                &&& forall|i: int| end <= i < next ==> is_space(s[i])
            },
            Step::ErrChar { at } => at == skip_target(s, pos) && pos <= at < s.len(),
            Step::ErrString { start } => start == skip_target(s, pos) && pos <= start < s.len(),
            Step::ErrNumber { start, end } => start == skip_target(s, pos) && pos <= start < end
                <= s.len(),
        },
{
    lemma_step_at_skip(s, pos);
    let p = skip_target(s, pos);
    if p < s.len() {
        let c = s[p];
        if c == '<' || c == '>' || c == '!' || c == '=' {
            lemma_space_end(s, p + 1);
        }
        if c == '"' {
            lemma_find_char(s, p + 1, '"');
        }
        if is_digit(c) {
            lemma_number_bounds(s, p);
        }
        if is_ident_start(c) {
            lemma_ident_end(s, p);
            lemma_ident_end(s, p + 1);
            assert(ident_end(s, p) == ident_end(s, p + 1));
        }
    }
}

/// The cursor after one pull taken at `pos`.
pub open spec fn cursor_after(s: Seq<char>, pos: int) -> int {
    step_next(lex_step(s, pos), s.len() as int)
}

/// Every pull but the last advances the cursor, and never past the end.
pub proof fn lemma_cursor_advances(s: Seq<char>, pos: int)
    requires
        0 <= pos <= s.len(),
        !(lex_step(s, pos) is End),
    ensures
        pos < cursor_after(s, pos) <= s.len(),
{
    lemma_step_bounds(s, pos);
}

/// Every item of a full scan from `pos`, in the order produced.
pub open spec fn lex_trace(s: Seq<char>, pos: int) -> Seq<Step>
    decreases s.len() - pos when 0 <= pos <= s.len() via lex_trace_decreases
{
    let st = lex_step(s, pos);
    if st is End {
        Seq::<Step>::empty()
    } else {
        seq![st] + lex_trace(s, cursor_after(s, pos))
    }
}

#[via_fn]
proof fn lex_trace_decreases(s: Seq<char>, pos: int) {
    if 0 <= pos <= s.len() && !(lex_step(s, pos) is End) {
        lemma_cursor_advances(s, pos);
    }
}

/// The cursor after `i` pulls from `pos`.
pub open spec fn cursor_iter(s: Seq<char>, pos: int, i: int) -> int
    decreases i when i >= 0
{
    if i <= 0 {
        pos
    } else {
        cursor_after(s, cursor_iter(s, pos, i - 1))
    }
}

proof fn lemma_cursor_iter_shift(s: Seq<char>, pos: int, i: int)
    requires
        i >= 1,
    ensures
        cursor_iter(s, pos, i) == cursor_iter(s, cursor_after(s, pos), i - 1),
    decreases i,
{
    let ca = cursor_after(s, pos);
    if i == 1 {
        assert(cursor_iter(s, pos, 1) == cursor_after(s, cursor_iter(s, pos, 0)));
        assert(cursor_iter(s, ca, 0) == ca);
    } else {
        lemma_cursor_iter_shift(s, pos, i - 1);
        assert(cursor_iter(s, pos, i) == cursor_after(s, cursor_iter(s, pos, i - 1)));
        assert(cursor_iter(s, ca, i - 1) == cursor_after(s, cursor_iter(s, ca, i - 2)));
    }
}

/// Coverage of a full scan: item `i` of the trace is the pull taken at
/// the cursor the first `i` pulls leave behind, and the regions the
/// pulls consume — `[cursor_iter(i), cursor_iter(i + 1))` — are adjacent
/// by construction, begin at `pos`, and once the trace is exhausted the
/// cursor's remaining suffix is nothing but whitespace and comments.
/// Together with `lemma_step_bounds` at each of those cursors, the spans
/// of the produced items and the skipped whitespace/comment gaps
/// reconstruct the buffer exactly.
pub proof fn lemma_lex_partition(s: Seq<char>, pos: int, i: int)
    requires
        0 <= pos <= s.len(),
        0 <= i <= lex_trace(s, pos).len(),
    ensures
        pos <= cursor_iter(s, pos, i) <= s.len(),
        i < lex_trace(s, pos).len() ==> lex_trace(s, pos)[i] == lex_step(
            s,
            cursor_iter(s, pos, i),
        ) && cursor_iter(s, pos, i + 1) == step_next(lex_trace(s, pos)[i], s.len() as int)
            && !(lex_trace(s, pos)[i] is End),
        i == lex_trace(s, pos).len() ==> lex_step(s, cursor_iter(s, pos, i)) is End,
    decreases i,
{
    let tr = lex_trace(s, pos);
    if tr.len() == 0 {
        assert(cursor_iter(s, pos, 0) == pos);
    } else {
        lemma_cursor_advances(s, pos);
        let ca = cursor_after(s, pos);
        if i == 0 {
            assert(cursor_iter(s, pos, 1) == cursor_after(s, cursor_iter(s, pos, 0)));
        } else {
            lemma_lex_partition(s, ca, i - 1);
            lemma_cursor_iter_shift(s, pos, i);
            if i < tr.len() {
                lemma_cursor_iter_shift(s, pos, i + 1);
            }
        }
    }
}

/// The cursor never moves backwards over a scan.
pub proof fn lemma_cursor_iter_mono(s: Seq<char>, pos: int, i: int, j: int)
    requires
        0 <= pos <= s.len(),
        0 <= i <= j <= lex_trace(s, pos).len(),
    ensures
        cursor_iter(s, pos, i) <= cursor_iter(s, pos, j),
    decreases j - i,
{
    if i < j {
        lemma_lex_partition(s, pos, i);
        lemma_cursor_advances(s, cursor_iter(s, pos, i));
        lemma_cursor_iter_mono(s, pos, i + 1, j);
    }
}

/// Tokens come out of a scan in strictly increasing, non-overlapping
/// span order: an earlier token's span ends before a later one's begins.
pub proof fn lemma_spans_ordered(
    s: Seq<char>,
    pos: int,
    i: int,
    j: int,
    ki: TokenKind,
    si: int,
    ei: int,
    ni: int,
    kj: TokenKind,
    sj: int,
    ej: int,
    nj: int,
)
    requires
        0 <= pos <= s.len(),
        0 <= i < j < lex_trace(s, pos).len(),
        lex_trace(s, pos)[i] == (Step::Tok { kind: ki, start: si, end: ei, next: ni }),
        lex_trace(s, pos)[j] == (Step::Tok { kind: kj, start: sj, end: ej, next: nj }),
    ensures
        si < ei <= sj < ej,
{
    lemma_lex_partition(s, pos, i);
    lemma_lex_partition(s, pos, j);
    lemma_step_bounds(s, cursor_iter(s, pos, i));
    lemma_step_bounds(s, cursor_iter(s, pos, j));
    lemma_cursor_iter_mono(s, pos, i + 1, j);
}

/// Determinism: a scan is a function of the buffer alone — equal buffers
/// scanned from equal cursors carry equal traces.
pub proof fn lemma_lex_deterministic(s1: Seq<char>, s2: Seq<char>, pos: int)
    requires
        s1 == s2,
    ensures
        lex_trace(s1, pos) == lex_trace(s2, pos),
{
}

// ---------------------------------------------------------------------------
// Re-scanning a token's own text
// ---------------------------------------------------------------------------

/// Idempotence of token texts: scanning a produced token's own text in
/// isolation yields one token of the same kind, spanning all of it.  The
/// one exception is a number cut short at a doubled dot, whose text ends
/// with that dot — `1..2` opens with a number read from `1.`, and `1.`
/// scanned alone hands the trailing dot back to the stream.
pub proof fn lemma_relex_token(
    s: Seq<char>,
    pos: int,
    kind: TokenKind,
    start: int,
    end: int,
    next: int,
)
    requires
        0 <= pos <= s.len(),
        lex_step(s, pos) == (Step::Tok { kind, start, end, next }),
        !(kind == TokenKind::Number && s[end - 1] == '.'),
    ensures
        lex_step(s.subrange(start, end), 0) == (Step::Tok {
            kind,
            start: 0,
            end: end - start,
            next: end - start,
        }),
{
    lemma_step_at_skip(s, pos);
    lemma_step_bounds(s, pos);
    let p = skip_target(s, pos);
    let t = s.subrange(start, end);
    let m = t.len() as int;
    assert(forall|i: int| 0 <= i < m ==> t[i] == s[start + i]);
    let c = s[p];
    if c == '(' || c == ')' || c == '{' || c == '}' || c == ',' || c == '.' || c == '-' || c == '+'
        || c == ';' || c == '*' || c == '/' {
        assert(m == 1);
        assert(lex_step(t, 0) == classify(t, 0));
    } else if c == '<' || c == '>' || c == '!' || c == '=' {
        let j = space_end(s, p + 1);
        lemma_space_end(s, p + 1);
        if j < s.len() && s[j] == '=' {
            assert(end == j + 1);
            assert(lex_step(t, 0) == classify(t, 0));
            lemma_space_end_is(t, 1, j - p);
        } else {
            assert(m == 1);
            assert(lex_step(t, 0) == classify(t, 0));
            assert(space_end(t, 1) == 1);
        }
    } else if c == '"' {
        let q = find_char(s, p + 1, '"');
        lemma_find_char(s, p + 1, '"');
        assert(q < s.len());
        assert(end == q + 1);
        assert(lex_step(t, 0) == classify(t, 0));
        lemma_find_char_is(t, 1, '"', q - p);
    } else if is_digit(c) {
        lemma_number_bounds(s, p);
        lemma_cut_number_valid(s, p);
        assert(end == number_token_end(s, p));
        assert(valid_number(t));
        assert(lex_step(t, 0) == classify(t, 0));
        lemma_number_end_is(t, 0, m);
        lemma_find_char(t, 0, '.');
        let dd = find_char(t, 0, '.');
        if dd < m {
            assert(t[dd] == '.');
            assert(forall|j: int| dd < j < m ==> t[j] != '.');
            lemma_find_char_is(t, dd + 1, '.', m);
            assert(t[m - 1] != '.');
            assert(dd != m - 1);
        }
        assert(number_token_end(t, 0) == m);
        assert(t.subrange(0, m) =~= t);
    } else if is_ident_start(c) {
        lemma_ident_end(s, p);
        assert(end == ident_end(s, p));
        assert(lex_step(t, 0) == classify(t, 0));
        lemma_ident_end_is(t, 0, m);
        assert(t.subrange(0, m) =~= t);
    } else {
        assert(false);
    }
}

// ---------------------------------------------------------------------------
// The number guard never fires
// ---------------------------------------------------------------------------

/// The literal cut by `number_token_end` from a run opening with a digit
/// is always a well-shaped number lexeme.
pub proof fn lemma_cut_number_valid(s: Seq<char>, pos: int)
    requires
        0 <= pos < s.len(),
        is_digit(s[pos]),
    ensures
        valid_number(s.subrange(pos, number_token_end(s, pos))),
{
    lemma_number_bounds(s, pos);
    lemma_number_end(s, pos);
    lemma_find_char(s, pos, '.');
    let e = number_end(s, pos);
    let d1 = find_char(s, pos, '.');
    let k = number_token_end(s, pos);
    let t = s.subrange(pos, k);
    assert(forall|i: int| 0 <= i < t.len() ==> t[i] == s[pos + i]);
    if d1 < e {
        lemma_find_char(s, d1 + 1, '.');
        assert forall|i: int, j: int| 0 <= i < j < t.len() && t[i] == '.' implies t[j] != '.' by {
            assert(s[pos + i] == '.');
            assert(pos + i == d1);
        }
    }
}

/// The guard over a cut number literal never fires: a pull never
/// produces `ErrNumber`, whatever the buffer holds.
pub proof fn lemma_number_guard_unreachable(s: Seq<char>, pos: int)
    requires
        0 <= pos <= s.len(),
    ensures
        !(lex_step(s, pos) is ErrNumber),
{
    lemma_step_at_skip(s, pos);
    let p = skip_target(s, pos);
    if p < s.len() && is_digit(s[p]) {
        lemma_cut_number_valid(s, p);
    }
}

// ---------------------------------------------------------------------------
// Line numbers
// ---------------------------------------------------------------------------

/// How many newline characters stand before position `k`.
pub open spec fn newlines_before(s: Seq<char>, k: int) -> int
    decreases k when 0 <= k <= s.len()
{
    if k <= 0 {
        0
    } else {
        newlines_before(s, k - 1) + if s[k - 1] == '\n' { 1int } else { 0int }
    }
}

/// The 1-based line number of position `off`.
pub open spec fn line_of(s: Seq<char>, off: int) -> int {
    1 + newlines_before(s, off)
}

// ---------------------------------------------------------------------------
// Quote trimming
// ---------------------------------------------------------------------------

/// The end of the run of `"` characters beginning at `from`.
pub open spec fn quote_run_end(s: Seq<char>, from: int) -> int
    decreases s.len() - from when 0 <= from <= s.len()
{
    if from < s.len() && s[from] == '"' {
        quote_run_end(s, from + 1)
    } else {
        from
    }
}

pub proof fn lemma_quote_run_end(s: Seq<char>, from: int)
    requires
        0 <= from <= s.len(),
    ensures
        from <= quote_run_end(s, from) <= s.len(),
        quote_run_end(s, from) < s.len() ==> s[quote_run_end(s, from)] != '"',
        forall|i: int| from <= i < quote_run_end(s, from) ==> s[i] == '"',
    decreases s.len() - from,
{
    if from < s.len() && s[from] == '"' {
        lemma_quote_run_end(s, from + 1);
    }
}

/// The start of the run of `"` characters ending just before `upto`.
pub open spec fn quote_trim_back(s: Seq<char>, upto: int) -> int
    decreases upto when 0 <= upto <= s.len()
{
    if upto > 0 && s[upto - 1] == '"' {
        quote_trim_back(s, upto - 1)
    } else {
        upto
    }
}

pub proof fn lemma_quote_trim_back(s: Seq<char>, upto: int)
    requires
        0 <= upto <= s.len(),
    ensures
        0 <= quote_trim_back(s, upto) <= upto,
        quote_trim_back(s, upto) > 0 ==> s[quote_trim_back(s, upto) - 1] != '"',
        forall|i: int| quote_trim_back(s, upto) <= i < upto ==> s[i] == '"',
    decreases upto,
{
    if upto > 0 && s[upto - 1] == '"' {
        lemma_quote_trim_back(s, upto - 1);
    }
}

/// A lexeme with every leading and trailing `"` removed — empty when it
/// holds nothing else.
pub open spec fn strip_quotes(s: Seq<char>) -> Seq<char> {
    let a = quote_run_end(s, 0);
    if a == s.len() {
        Seq::<char>::empty()
    } else {
        s.subrange(a, quote_trim_back(s, s.len() as int))
    }
}

} // verus!

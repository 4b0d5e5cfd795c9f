//! The scanner: a single pass over a source buffer that appends tokens to
//! an ordered output sequence and reports lexical mistakes through the
//! error handler without ever aborting.
//!
//! The executable scanner is specified against a mathematical model: for a
//! buffer `buf`, [`spec_scan`] gives the exact token sequence a scan
//! produces and [`spec_scan_errors`] the exact diagnostics it emits.  Both
//! walk the buffer by repeatedly taking one scanning step: [`step_end`]
//! says where the step after position `pos` stops, [`step_tokens`] which
//! token (if any) it emits, and [`step_errors`] which diagnostic (if any)
//! it reports.

use vstd::prelude::*;

use crate::interpreter::{diagnostic_views, ErrorHandler, SpecDiagnostic};
use crate::token::{lossy_of, render_bytes, SpecToken, Token, TokenType};

verus! {

// ---------------------------------------------------------------------
// Character classes
// ---------------------------------------------------------------------

/// An ASCII decimal digit.
pub open spec fn is_digit(c: u8) -> bool {
    48 <= c && c <= 57
}

/// An ASCII alphabetic byte.  Identifiers start with one of these;
/// underscore is not accepted.
pub open spec fn is_alpha(c: u8) -> bool {
    (97 <= c && c <= 122) || (65 <= c && c <= 90)
}

/// An ASCII alphanumeric byte: what an identifier may continue with.
pub open spec fn is_alnum(c: u8) -> bool {
    is_digit(c) || is_alpha(c)
}

// ---------------------------------------------------------------------
// Line counting
// ---------------------------------------------------------------------

/// How many newline bytes a byte sequence holds.
pub open spec fn count_newlines(s: Seq<u8>) -> int
    decreases s.len(),
{
    if s.len() == 0 {
        0
    } else {
        count_newlines(s.drop_last()) + if s.last() == 10 {
            1int
        } else {
            0int
        }
    }
}

/// The 1-based line number in force once `pos` bytes of `buf` have been
/// consumed: one more than the newlines consumed so far.
pub open spec fn line_at(buf: Seq<u8>, pos: int) -> int {
    1 + count_newlines(buf.take(pos))
}

pub proof fn lemma_count_newlines_bound(s: Seq<u8>)
    ensures
        0 <= count_newlines(s) <= s.len(),
    decreases s.len(),
{
    if s.len() > 0 {
        lemma_count_newlines_bound(s.drop_last());
    }
}

/// Consuming one byte raises the line count exactly when it is a newline.
pub proof fn lemma_line_at_step(buf: Seq<u8>, pos: int)
    requires
        0 <= pos < buf.len(),
    ensures
        line_at(buf, pos + 1) == line_at(buf, pos) + if buf[pos] == 10 {
            1int
        } else {
            0int
        },
{
    assert(buf.take(pos + 1).drop_last() =~= buf.take(pos));
    assert(buf.take(pos + 1).last() == buf[pos]);
}

pub proof fn lemma_line_at_bounds(buf: Seq<u8>, pos: int)
    requires
        0 <= pos <= buf.len(),
    ensures
        1 <= line_at(buf, pos) <= 1 + pos,
{
    lemma_count_newlines_bound(buf.take(pos));
}

// ---------------------------------------------------------------------
// Maximal-munch helpers: where a run that starts at `i` stops
// ---------------------------------------------------------------------

/// The first position at or after `i` that does not hold a digit.
pub open spec fn digits_end(buf: Seq<u8>, i: int) -> int
    decreases buf.len() - i,
{
    if i < 0 || i >= buf.len() {
        buf.len() as int
    } else if !is_digit(buf[i]) {
        i
    } else {
        digits_end(buf, i + 1)
    }
}

/// The first position at or after `i` that does not hold an alphanumeric
/// byte.
pub open spec fn alnum_end(buf: Seq<u8>, i: int) -> int
    decreases buf.len() - i,
{
    if i < 0 || i >= buf.len() {
        buf.len() as int
    } else if !is_alnum(buf[i]) {
        i
    } else {
        alnum_end(buf, i + 1)
    }
}

/// The first position at or after `i` that holds a newline (where a line
/// comment stops, leaving the newline unconsumed), or the buffer length.
pub open spec fn line_comment_end(buf: Seq<u8>, i: int) -> int
    decreases buf.len() - i,
{
    if i < 0 || i >= buf.len() {
        buf.len() as int
    } else if buf[i] == 10 {
        i
    } else {
        line_comment_end(buf, i + 1)
    }
}

/// The first position at or after `i` that holds a double quote (the
/// closing quote of a string literal), or the buffer length.
pub open spec fn string_body_end(buf: Seq<u8>, i: int) -> int
    decreases buf.len() - i,
{
    if i < 0 || i >= buf.len() {
        buf.len() as int
    } else if buf[i] == 34 {
        i
    } else {
        string_body_end(buf, i + 1)
    }
}

/// The position just past the first `*/` at or after `i`, or the buffer
/// length when the comment is left open (which reports no error).
pub open spec fn block_comment_end(buf: Seq<u8>, i: int) -> int
    decreases buf.len() - i,
{
    if i < 0 || i >= buf.len() {
        buf.len() as int
    } else if buf[i] == 42 && i + 1 < buf.len() && buf[i + 1] == 47 {
        i + 2
    } else {
        block_comment_end(buf, i + 1)
    }
}

pub proof fn lemma_digits_end_bounds(buf: Seq<u8>, i: int)
    requires
        0 <= i <= buf.len(),
    ensures
        i <= digits_end(buf, i) <= buf.len(),
    decreases buf.len() - i,
{
    if i < buf.len() && is_digit(buf[i]) {
        lemma_digits_end_bounds(buf, i + 1);
    }
}

pub proof fn lemma_alnum_end_bounds(buf: Seq<u8>, i: int)
    requires
        0 <= i <= buf.len(),
    ensures
        i <= alnum_end(buf, i) <= buf.len(),
    decreases buf.len() - i,
{
    if i < buf.len() && is_alnum(buf[i]) {
        lemma_alnum_end_bounds(buf, i + 1);
    }
}

pub proof fn lemma_line_comment_end_bounds(buf: Seq<u8>, i: int)
    requires
        0 <= i <= buf.len(),
    ensures
        i <= line_comment_end(buf, i) <= buf.len(),
    decreases buf.len() - i,
{
    if i < buf.len() && buf[i] != 10 {
        lemma_line_comment_end_bounds(buf, i + 1);
    }
}

pub proof fn lemma_string_body_end_bounds(buf: Seq<u8>, i: int)
    requires
        0 <= i <= buf.len(),
    ensures
        i <= string_body_end(buf, i) <= buf.len(),
    decreases buf.len() - i,
{
    if i < buf.len() && buf[i] != 34 {
        lemma_string_body_end_bounds(buf, i + 1);
    }
}

pub proof fn lemma_block_comment_end_bounds(buf: Seq<u8>, i: int)
    requires
        0 <= i <= buf.len(),
    ensures
        i <= block_comment_end(buf, i) <= buf.len(),
    decreases buf.len() - i,
{
    if i < buf.len() && !(buf[i] == 42 && i + 1 < buf.len() && buf[i + 1] == 47) {
        lemma_block_comment_end_bounds(buf, i + 1);
    }
}

// ---------------------------------------------------------------------
// Classification
// ---------------------------------------------------------------------

/// The kinds emitted for a single byte with no lookahead.
pub open spec fn single_kind(c: u8) -> Option<TokenType> {
    if c == 40 {
        Some(TokenType::LeftParen)
    } else if c == 41 {
        Some(TokenType::RightParen)
    } else if c == 91 {
        Some(TokenType::LeftSq)
    } else if c == 93 {
        Some(TokenType::RightSq)
    } else if c == 123 {
        Some(TokenType::LeftCurly)
    } else if c == 125 {
        Some(TokenType::RightCurly)
    } else if c == 44 {
        Some(TokenType::Comma)
    } else if c == 46 {
        Some(TokenType::Dot)
    } else if c == 45 {
        Some(TokenType::Minus)
    } else if c == 43 {
        Some(TokenType::Plus)
    } else if c == 59 {
        Some(TokenType::Semicolon)
    } else if c == 42 {
        Some(TokenType::Star)
    } else if c == 94 {
        Some(TokenType::Caret)
    } else {
        None
    }
}

/// The kinds for the bytes that may pair with a following `=`: the kind
/// alone and the kind with the suffix.
pub open spec fn pair_kinds(c: u8) -> Option<(TokenType, TokenType)> {
    if c == 33 {
        Some((TokenType::Ex, TokenType::ExEq))
    } else if c == 61 {
        Some((TokenType::Eq, TokenType::EqEq))
    } else if c == 60 {
        Some((TokenType::Ls, TokenType::LsEq))
    } else if c == 62 {
        Some((TokenType::Gr, TokenType::GrEq))
    } else {
        None
    }
}

/// The reserved-word table: exact, case-sensitive lookup from an
/// identifier's bytes to its keyword kind.
pub open spec fn keyword_of(text: Seq<u8>) -> Option<TokenType> {
    if text == seq![97u8, 110u8, 100u8] {
        Some(TokenType::And)
    } else if text == seq![115u8, 116u8, 114u8, 117u8, 99u8, 116u8] {
        Some(TokenType::Struct)
    } else if text == seq![100u8, 105u8, 109u8, 101u8, 110u8, 115u8, 105u8, 111u8, 110u8] {
        Some(TokenType::Dimension)
    } else if text == seq![117u8, 110u8, 105u8, 116u8] {
        Some(TokenType::Unit)
    } else if text == seq![102u8, 111u8, 114u8] {
        Some(TokenType::For)
    } else if text == seq![105u8, 102u8] {
        Some(TokenType::If)
    } else if text == seq![111u8, 114u8] {
        Some(TokenType::Or)
    } else if text == seq![119u8, 104u8, 105u8, 108u8, 101u8] {
        Some(TokenType::While)
    } else if text == seq![112u8, 114u8, 105u8, 110u8, 116u8] {
        Some(TokenType::Print)
    } else if text == seq![114u8, 101u8, 116u8, 117u8, 114u8, 110u8] {
        Some(TokenType::Return)
    } else if text == seq![115u8, 101u8, 108u8, 102u8] {
        Some(TokenType::Slf)
    } else if text == seq![116u8, 114u8, 117u8, 101u8] {
        Some(TokenType::True)
    } else if text == seq![102u8, 97u8, 108u8, 115u8, 101u8] {
        Some(TokenType::False)
    } else {
        None
    }
}

// ---------------------------------------------------------------------
// One scanning step
// ---------------------------------------------------------------------

/// Where the number that starts at `pos` stops: a maximal digit run, then
/// one dot only if a digit follows it immediately, then a further run.
pub open spec fn num_end(buf: Seq<u8>, pos: int) -> int {
    let d = digits_end(buf, pos + 1);
    if d < buf.len() && buf[d] == 46 && d + 1 < buf.len() && is_digit(buf[d + 1]) {
        digits_end(buf, d + 1)
    } else {
        d
    }
}

/// Where the scanning step that consumes `buf[pos]` stops.
pub open spec fn step_end(buf: Seq<u8>, pos: int) -> int {
    let c = buf[pos];
    if single_kind(c).is_some() {
        pos + 1
    } else if pair_kinds(c).is_some() {
        if pos + 1 < buf.len() && buf[pos + 1] == 61 {
            pos + 2
        } else {
            pos + 1
        }
    } else if c == 47 {
        if pos + 1 < buf.len() && buf[pos + 1] == 47 {
            line_comment_end(buf, pos + 2)
        } else if pos + 1 < buf.len() && buf[pos + 1] == 42 {
            block_comment_end(buf, pos + 2)
        } else {
            pos + 1
        }
    } else if c == 34 {
        let q = string_body_end(buf, pos + 1);
        if q < buf.len() {
            q + 1
        } else {
            buf.len() as int
        }
    } else if is_digit(c) {
        num_end(buf, pos)
    } else if is_alpha(c) {
        alnum_end(buf, pos + 1)
    } else {
        pos + 1
    }
}

/// The token whose lexeme is `buf[start..end]`, emitted once `end` bytes
/// are consumed.
pub open spec fn spec_token_at(
    buf: Seq<u8>,
    kind: TokenType,
    literal: Option<Seq<u8>>,
    start: int,
    end: int,
) -> SpecToken {
    SpecToken {
        t_type: kind,
        lexeme: buf.subrange(start, end),
        literal,
        line: line_at(buf, end),
        start,
        end,
    }
}

/// The tokens (none or one) emitted by the scanning step at `pos`.
pub open spec fn step_tokens(buf: Seq<u8>, pos: int) -> Seq<SpecToken> {
    let c = buf[pos];
    let e = step_end(buf, pos);
    if single_kind(c).is_some() {
        seq![spec_token_at(buf, single_kind(c).unwrap(), None, pos, e)]
    } else if pair_kinds(c).is_some() {
        let kinds = pair_kinds(c).unwrap();
        let k = if e == pos + 2 {
            kinds.1
        } else {
            kinds.0
        };
        seq![spec_token_at(buf, k, None, pos, e)]
    } else if c == 47 {
        if pos + 1 < buf.len() && (buf[pos + 1] == 47 || buf[pos + 1] == 42) {
            Seq::empty()
        } else {
            seq![spec_token_at(buf, TokenType::Slash, None, pos, e)]
        }
    } else if c == 34 {
        let q = string_body_end(buf, pos + 1);
        if q < buf.len() {
            seq![spec_token_at(buf, TokenType::Str, Some(buf.subrange(pos + 1, q)), pos, e)]
        } else {
            Seq::empty()
        }
    } else if is_digit(c) {
        seq![spec_token_at(buf, TokenType::Num, Some(buf.subrange(pos, e)), pos, e)]
    } else if is_alpha(c) {
        let text = buf.subrange(pos, e);
        match keyword_of(text) {
            Some(k) => seq![spec_token_at(buf, k, None, pos, e)],
            None => seq![spec_token_at(buf, TokenType::Id, Some(text), pos, e)],
        }
    } else {
        Seq::empty()
    }
}

/// The message reported for a byte no scanning rule matches.
pub open spec fn unexpected_char_message(c: u8) -> Seq<char> {
    "Unexpected character: "@ + lossy_of(seq![c])
}

/// The diagnostics (none or one) reported by the scanning step at `pos`.
pub open spec fn step_errors(buf: Seq<u8>, pos: int) -> Seq<SpecDiagnostic> {
    let c = buf[pos];
    if single_kind(c).is_some() || pair_kinds(c).is_some() || c == 47 {
        Seq::empty()
    } else if c == 34 {
        if string_body_end(buf, pos + 1) < buf.len() {
            Seq::empty()
        } else {
            seq![
                SpecDiagnostic {
                    line: line_at(buf, buf.len() as int),
                    message: "Unterminated string"@,
                },
            ]
        }
    } else if is_digit(c) || is_alpha(c) || c == 10 || c == 32 {
        Seq::empty()
    } else {
        seq![SpecDiagnostic { line: line_at(buf, pos + 1), message: unexpected_char_message(c) }]
    }
}

/// Every scanning step consumes at least one byte and never runs past the
/// end of the buffer.
pub proof fn lemma_step_end_bounds(buf: Seq<u8>, pos: int)
    requires
        0 <= pos < buf.len(),
    ensures
        pos < step_end(buf, pos) <= buf.len(),
{
    let c = buf[pos];
    if single_kind(c).is_some() || pair_kinds(c).is_some() {
    } else if c == 47 {
        if pos + 1 < buf.len() && buf[pos + 1] == 47 {
            lemma_line_comment_end_bounds(buf, pos + 2);
        } else if pos + 1 < buf.len() && buf[pos + 1] == 42 {
            lemma_block_comment_end_bounds(buf, pos + 2);
        }
    } else if c == 34 {
        lemma_string_body_end_bounds(buf, pos + 1);
    } else if is_digit(c) {
        lemma_digits_end_bounds(buf, pos + 1);
        let d = digits_end(buf, pos + 1);
        if d < buf.len() && buf[d] == 46 && d + 1 < buf.len() && is_digit(buf[d + 1]) {
            lemma_digits_end_bounds(buf, d + 1);
        }
    } else if is_alpha(c) {
        lemma_alnum_end_bounds(buf, pos + 1);
    }
}

// ---------------------------------------------------------------------
// The whole scan
// ---------------------------------------------------------------------

/// The tokens emitted by scanning `buf` from position `pos` to the end,
/// without the synthetic end-of-input token.
pub open spec fn scan_from(buf: Seq<u8>, pos: int) -> Seq<SpecToken>
    decreases buf.len() - pos,
    when 0 <= pos
    via scan_from_decreases
{
    if pos >= buf.len() {
        Seq::empty()
    } else {
        step_tokens(buf, pos) + scan_from(buf, step_end(buf, pos))
    }
}

#[via_fn]
proof fn scan_from_decreases(buf: Seq<u8>, pos: int) {
    if 0 <= pos && pos < buf.len() {
        lemma_step_end_bounds(buf, pos);
    }
}

/// The diagnostics reported by scanning `buf` from position `pos`.
pub open spec fn errors_from(buf: Seq<u8>, pos: int) -> Seq<SpecDiagnostic>
    decreases buf.len() - pos,
    when 0 <= pos
    via errors_from_decreases
{
    if pos >= buf.len() {
        Seq::empty()
    } else {
        step_errors(buf, pos) + errors_from(buf, step_end(buf, pos))
    }
}

#[via_fn]
proof fn errors_from_decreases(buf: Seq<u8>, pos: int) {
    if 0 <= pos && pos < buf.len() {
        lemma_step_end_bounds(buf, pos);
    }
}

/// The synthetic end-of-input token: empty lexeme, both offsets at the
/// buffer length, the final line count.
pub open spec fn eof_token(buf: Seq<u8>) -> SpecToken {
    SpecToken {
        t_type: TokenType::Eof,
        lexeme: Seq::empty(),
        literal: None,
        line: line_at(buf, buf.len() as int),
        start: buf.len() as int,
        end: buf.len() as int,
    }
}

/// The exact token sequence scanning `buf` produces: the emitted tokens
/// in source order, terminated by exactly one end-of-input token.
pub open spec fn spec_scan(buf: Seq<u8>) -> Seq<SpecToken> {
    scan_from(buf, 0).push(eof_token(buf))
}

/// The exact diagnostics scanning `buf` emits, in emission order.
pub open spec fn spec_scan_errors(buf: Seq<u8>) -> Seq<SpecDiagnostic> {
    errors_from(buf, 0)
}

/// The views of a sequence of tokens.
pub open spec fn token_views(s: Seq<Token>) -> Seq<SpecToken> {
    s.map_values(|t: Token| t@)
}

// ---------------------------------------------------------------------
// Laws of the scan
// ---------------------------------------------------------------------

/// The token one step emits (if any) spans exactly `[pos, step_end)`.
proof fn lemma_step_token_shape(buf: Seq<u8>, pos: int)
    requires
        0 <= pos < buf.len(),
    ensures
        step_tokens(buf, pos).len() <= 1,
        forall|j: int|
            #![trigger step_tokens(buf, pos)[j]]
            0 <= j < step_tokens(buf, pos).len() ==> {
                let t = step_tokens(buf, pos)[j];
                &&& t.start == pos
                &&& t.end == step_end(buf, pos)
                &&& t.lexeme == buf.subrange(pos, step_end(buf, pos))
                &&& t.line == line_at(buf, step_end(buf, pos))
            },
{
}

#[verifier::rlimit(40)]
proof fn lemma_scan_from_wf(buf: Seq<u8>, pos: int)
    requires
        0 <= pos <= buf.len(),
    ensures
        forall|i: int|
            #![trigger scan_from(buf, pos)[i]]
            0 <= i < scan_from(buf, pos).len() ==> {
                let t = scan_from(buf, pos)[i];
                &&& pos <= t.start < t.end <= buf.len()
                &&& t.lexeme == buf.subrange(t.start, t.end)
                &&& t.line == line_at(buf, t.end)
                &&& (i + 1 < scan_from(buf, pos).len() ==> t.end <= scan_from(buf, pos)[i
                    + 1].start)
            },
    decreases buf.len() - pos,
{
    if pos < buf.len() {
        lemma_step_end_bounds(buf, pos);
        let e = step_end(buf, pos);
        lemma_scan_from_wf(buf, e);
        lemma_step_token_shape(buf, pos);
    }
}

/// Law: every non-end-of-input token's lexeme is exactly the buffer slice
/// `buf[start..end]` with `start < end`, the token sequence ends in the
/// end-of-input token, and consecutive tokens have non-decreasing starts.
pub proof fn lemma_token_slices(buf: Seq<u8>)
    ensures
        spec_scan(buf).len() >= 1,
        spec_scan(buf).last() == eof_token(buf),
        forall|i: int|
            #![trigger spec_scan(buf)[i]]
            0 <= i < spec_scan(buf).len() - 1 ==> {
                let t = spec_scan(buf)[i];
                &&& 0 <= t.start < t.end <= buf.len()
                &&& t.lexeme == buf.subrange(t.start, t.end)
            },
        forall|i: int|
            #![trigger spec_scan(buf)[i]]
            0 <= i < spec_scan(buf).len() - 1 ==> spec_scan(buf)[i].start <= spec_scan(buf)[i
                + 1].start,
{
    lemma_scan_from_wf(buf, 0);
}

/// Law: a token emitted once `end` bytes are consumed reports the line
/// `k + 1`, where `k` is the number of newline bytes among those consumed.
pub proof fn lemma_token_lines(buf: Seq<u8>)
    ensures
        forall|i: int|
            #![trigger spec_scan(buf)[i]]
            0 <= i < spec_scan(buf).len() ==> spec_scan(buf)[i].line == 1 + count_newlines(
                buf.take(spec_scan(buf)[i].end),
            ),
{
    lemma_scan_from_wf(buf, 0);
}

/// Law, one token at a time: the token at index `i` of a scan slices the
/// buffer exactly (`lexeme == buf[start..end]`, `start < end <= len`) and
/// starts no later than its successor.
pub proof fn lemma_token_slice_at(buf: Seq<u8>, i: int)
    requires
        0 <= i < spec_scan(buf).len() - 1,
    ensures
        0 <= spec_scan(buf)[i].start < spec_scan(buf)[i].end <= buf.len(),
        spec_scan(buf)[i].lexeme == buf.subrange(spec_scan(buf)[i].start, spec_scan(buf)[i].end),
        spec_scan(buf)[i].start <= spec_scan(buf)[i + 1].start,
{
    lemma_token_slices(buf);
}

/// Law, one token at a time: the token at index `i` of a scan reports the
/// line `k + 1`, where `k` counts the newlines among the bytes consumed
/// when it was emitted.
pub proof fn lemma_token_line_at(buf: Seq<u8>, i: int)
    requires
        0 <= i < spec_scan(buf).len(),
    ensures
        spec_scan(buf)[i].line == 1 + count_newlines(buf.take(spec_scan(buf)[i].end)),
{
    lemma_token_lines(buf);
}

/// One step of whitespace or comment: a space, a newline, or either kind
/// of comment opener.
pub open spec fn is_trivia_step(buf: Seq<u8>, pos: int) -> bool {
    let c = buf[pos];
    ||| c == 32
    ||| c == 10
    ||| (c == 47 && pos + 1 < buf.len() && (buf[pos + 1] == 47 || buf[pos + 1] == 42))
}

/// The input from `pos` on consists solely of whitespace and comments.
pub open spec fn trivia_only(buf: Seq<u8>, pos: int) -> bool
    decreases buf.len() - pos,
    when 0 <= pos
    via trivia_only_decreases
{
    pos >= buf.len() || (is_trivia_step(buf, pos) && trivia_only(buf, step_end(buf, pos)))
}

#[via_fn]
proof fn trivia_only_decreases(buf: Seq<u8>, pos: int) {
    if 0 <= pos && pos < buf.len() {
        lemma_step_end_bounds(buf, pos);
    }
}

proof fn lemma_trivia_scan_from(buf: Seq<u8>, pos: int)
    requires
        0 <= pos <= buf.len(),
        trivia_only(buf, pos),
    ensures
        scan_from(buf, pos) == Seq::<SpecToken>::empty(),
        errors_from(buf, pos) == Seq::<SpecDiagnostic>::empty(),
    decreases buf.len() - pos,
{
    if pos < buf.len() {
        lemma_step_end_bounds(buf, pos);
        lemma_trivia_scan_from(buf, step_end(buf, pos));
        assert(step_tokens(buf, pos) =~= Seq::<SpecToken>::empty());
        assert(step_errors(buf, pos) =~= Seq::<SpecDiagnostic>::empty());
        assert(scan_from(buf, pos) =~= Seq::<SpecToken>::empty());
        assert(errors_from(buf, pos) =~= Seq::<SpecDiagnostic>::empty());
    }
}

/// Law: an input consisting solely of whitespace and comments scans to
/// exactly one token, the end-of-input token, and reports no error.
pub proof fn lemma_trivia_scans_to_eof(buf: Seq<u8>)
    requires
        trivia_only(buf, 0),
    ensures
        spec_scan(buf).len() == 1,
        spec_scan(buf)[0] == eof_token(buf),
        spec_scan_errors(buf).len() == 0,
{
    lemma_trivia_scan_from(buf, 0);
}

/// Law: scanning is a pure function of the buffer contents.  Any two scans
/// of the same buffer — in particular a re-scan after the error handler
/// was reset — produce the same token sequence and the same error-flag
/// outcome, since `Lexer::scan_tokens` pins both to `spec_scan` and
/// `spec_scan_errors` of the buffer alone.
pub proof fn lemma_rescan_identical(
    buf: Seq<u8>,
    tokens1: Seq<SpecToken>,
    tokens2: Seq<SpecToken>,
    flag1: bool,
    flag2: bool,
)
    requires
        tokens1 == spec_scan(buf),
        tokens2 == spec_scan(buf),
        flag1 == (spec_scan_errors(buf).len() > 0),
        flag2 == (spec_scan_errors(buf).len() > 0),
    ensures
        tokens1 == tokens2,
        flag1 == flag2,
{
}

// ---------------------------------------------------------------------
// The executable scanner
// ---------------------------------------------------------------------

/// Copy of the bytes `v[i..j]`.
fn copy_range(v: &Vec<u8>, i: usize, j: usize) -> (r: Vec<u8>)
    requires
        i <= j <= v@.len(),
    ensures
        r@ == v@.subrange(i as int, j as int),
{
    let mut r: Vec<u8> = Vec::new();
    let mut k: usize = i;
    while k < j
        invariant
            i <= k <= j <= v@.len(),
            r@ == v@.subrange(i as int, k as int),
        decreases j - k,
    {
        r.push(v[k]);
        k = k + 1;
        proof {
            assert(v@.subrange(i as int, k as int) =~= v@.subrange(i as int, k as int - 1).push(
                v@[k as int - 1],
            ));
        }
    }
    r
}

/// Exact, case-sensitive lookup of an identifier's bytes in the reserved
/// keyword table.
pub fn keyword_kind(text: &Vec<u8>) -> (r: Option<TokenType>)
    ensures
        r == keyword_of(text@),
{
    let n = text.len();
    if n == 3 && text[0] == 97 && text[1] == 110 && text[2] == 100 {
        proof {
            assert(text@ =~= seq![97u8, 110u8, 100u8]);
        }
        Some(TokenType::And)
    } else if n == 6 && text[0] == 115 && text[1] == 116 && text[2] == 114 && text[3] == 117
        && text[4] == 99 && text[5] == 116 {
        proof {
            assert(text@ =~= seq![115u8, 116u8, 114u8, 117u8, 99u8, 116u8]);
        }
        Some(TokenType::Struct)
    } else if n == 9 && text[0] == 100 && text[1] == 105 && text[2] == 109 && text[3] == 101
        && text[4] == 110 && text[5] == 115 && text[6] == 105 && text[7] == 111 && text[8]
        == 110 {
        proof {
            assert(text@ =~= seq![100u8, 105u8, 109u8, 101u8, 110u8, 115u8, 105u8, 111u8, 110u8]);
        }
        Some(TokenType::Dimension)
    } else if n == 4 && text[0] == 117 && text[1] == 110 && text[2] == 105 && text[3] == 116 {
        proof {
            assert(text@ =~= seq![117u8, 110u8, 105u8, 116u8]);
        }
        Some(TokenType::Unit)
    } else if n == 3 && text[0] == 102 && text[1] == 111 && text[2] == 114 {
        proof {
            assert(text@ =~= seq![102u8, 111u8, 114u8]);
        }
        Some(TokenType::For)
    } else if n == 2 && text[0] == 105 && text[1] == 102 {
        proof {
            assert(text@ =~= seq![105u8, 102u8]);
        }
        Some(TokenType::If)
    } else if n == 2 && text[0] == 111 && text[1] == 114 {
        proof {
            assert(text@ =~= seq![111u8, 114u8]);
        }
        Some(TokenType::Or)
    } else if n == 5 && text[0] == 119 && text[1] == 104 && text[2] == 105 && text[3] == 108
        && text[4] == 101 {
        proof {
            assert(text@ =~= seq![119u8, 104u8, 105u8, 108u8, 101u8]);
        }
        Some(TokenType::While)
    } else if n == 5 && text[0] == 112 && text[1] == 114 && text[2] == 105 && text[3] == 110
        && text[4] == 116 {
        proof {
            assert(text@ =~= seq![112u8, 114u8, 105u8, 110u8, 116u8]);
        }
        Some(TokenType::Print)
    } else if n == 6 && text[0] == 114 && text[1] == 101 && text[2] == 116 && text[3] == 117
        && text[4] == 114 && text[5] == 110 {
        proof {
            assert(text@ =~= seq![114u8, 101u8, 116u8, 117u8, 114u8, 110u8]);
        }
        Some(TokenType::Return)
    } else if n == 4 && text[0] == 115 && text[1] == 101 && text[2] == 108 && text[3] == 102 {
        proof {
            assert(text@ =~= seq![115u8, 101u8, 108u8, 102u8]);
        }
        Some(TokenType::Slf)
    } else if n == 4 && text[0] == 116 && text[1] == 114 && text[2] == 117 && text[3] == 101 {
        proof {
            assert(text@ =~= seq![116u8, 114u8, 117u8, 101u8]);
        }
        Some(TokenType::True)
    } else if n == 5 && text[0] == 102 && text[1] == 97 && text[2] == 108 && text[3] == 115
        && text[4] == 101 {
        proof {
            assert(text@ =~= seq![102u8, 97u8, 108u8, 115u8, 101u8]);
        }
        Some(TokenType::False)
    } else {
        proof {
            assert(keyword_of(text@) is None) by {
                if text@ == seq![97u8, 110u8, 100u8] {
                    assert(text@[0] == 97 && text@[1] == 110 && text@[2] == 100);
                }
                if text@ == seq![115u8, 116u8, 114u8, 117u8, 99u8, 116u8] {
                    assert(text@[0] == 115);
                }
                if text@ == seq![
                    100u8,
                    105u8,
                    109u8,
                    101u8,
                    110u8,
                    115u8,
                    105u8,
                    111u8,
                    110u8,
                ] {
                    assert(text@[0] == 100);
                }
                if text@ == seq![117u8, 110u8, 105u8, 116u8] {
                    assert(text@[0] == 117);
                }
                if text@ == seq![102u8, 111u8, 114u8] {
                    assert(text@[0] == 102);
                }
                if text@ == seq![105u8, 102u8] {
                    assert(text@[0] == 105);
                }
                if text@ == seq![111u8, 114u8] {
                    assert(text@[0] == 111);
                }
                if text@ == seq![119u8, 104u8, 105u8, 108u8, 101u8] {
                    assert(text@[0] == 119);
                }
                if text@ == seq![112u8, 114u8, 105u8, 110u8, 116u8] {
                    assert(text@[0] == 112);
                }
                if text@ == seq![114u8, 101u8, 116u8, 117u8, 114u8, 110u8] {
                    assert(text@[0] == 114);
                }
                if text@ == seq![115u8, 101u8, 108u8, 102u8] {
                    assert(text@[0] == 115);
                }
                if text@ == seq![116u8, 114u8, 117u8, 101u8] {
                    assert(text@[0] == 116);
                }
                if text@ == seq![102u8, 97u8, 108u8, 115u8, 101u8] {
                    assert(text@[0] == 102);
                }
            }
        }
        None
    }
}

/// Runtime counterpart of [`single_kind`].
fn single_kind_exec(c: u8) -> (r: Option<TokenType>)
    ensures
        r == single_kind(c),
{
    if c == 40 {
        Some(TokenType::LeftParen)
    } else if c == 41 {
        Some(TokenType::RightParen)
    } else if c == 91 {
        Some(TokenType::LeftSq)
    } else if c == 93 {
        Some(TokenType::RightSq)
    } else if c == 123 {
        Some(TokenType::LeftCurly)
    } else if c == 125 {
        Some(TokenType::RightCurly)
    } else if c == 44 {
        Some(TokenType::Comma)
    } else if c == 46 {
        Some(TokenType::Dot)
    } else if c == 45 {
        Some(TokenType::Minus)
    } else if c == 43 {
        Some(TokenType::Plus)
    } else if c == 59 {
        Some(TokenType::Semicolon)
    } else if c == 42 {
        Some(TokenType::Star)
    } else if c == 94 {
        Some(TokenType::Caret)
    } else {
        None
    }
}

/// Runtime counterpart of [`pair_kinds`].
fn pair_kinds_exec(c: u8) -> (r: Option<(TokenType, TokenType)>)
    ensures
        r == pair_kinds(c),
{
    if c == 33 {
        Some((TokenType::Ex, TokenType::ExEq))
    } else if c == 61 {
        Some((TokenType::Eq, TokenType::EqEq))
    } else if c == 60 {
        Some((TokenType::Ls, TokenType::LsEq))
    } else if c == 62 {
        Some((TokenType::Gr, TokenType::GrEq))
    } else {
        None
    }
}

/// The scanner: a read cursor over the source buffer, the offset where the
/// current token began, the current 1-based line, and the tokens emitted
/// so far.
pub struct Lexer {
    pub src: Vec<u8>,
    pub tokens: Vec<Token>,
    pub pos: usize,
    pub start: usize,
    pub line: usize,
}

impl Lexer {
    /// The cursor is inside the buffer and the line counter agrees with
    /// the newlines consumed so far.
    pub open spec fn wf(&self) -> bool {
        &&& self.src@.len() < usize::MAX
        &&& self.pos <= self.src@.len()
        &&& self.line == line_at(self.src@, self.pos as int)
    }

    /// A fresh scanner over `src`: cursor at the first byte, line 1, no
    /// tokens emitted yet.
    pub fn new(src: Vec<u8>) -> (r: Lexer)
        requires
            src@.len() < usize::MAX,
        ensures
            r.wf(),
            r.src@ == src@,
            r.tokens@ == Seq::<Token>::empty(),
            r.pos == 0,
            r.line == 1,
            r.start == 0,
    {
        let lexer = Lexer { src, tokens: Vec::new(), pos: 0, start: 0, line: 1 };
        proof {
            assert(lexer.src@.take(0) =~= Seq::<u8>::empty());
        }
        lexer
    }

    /// Consume one byte, if one remains.  Line bookkeeping is the
    /// caller's: the cursor alone moves.
    fn advance(&mut self) -> (r: Option<u8>)
        requires
            old(self).src@.len() < usize::MAX,
            old(self).pos <= old(self).src@.len(),
        ensures
            final(self).src == old(self).src,
            final(self).tokens == old(self).tokens,
            final(self).start == old(self).start,
            final(self).line == old(self).line,
            match r {
                Some(c) => old(self).pos < old(self).src@.len() && c == old(self).src@[old(
                    self,
                ).pos as int] && final(self).pos == old(self).pos + 1,
                None => old(self).pos == old(self).src@.len() && final(self).pos == old(self).pos,
            },
    {
        if self.pos < self.src.len() {
            let c = self.src[self.pos];
            self.pos = self.pos + 1;
            Some(c)
        } else {
            None
        }
    }

    /// One byte of lookahead: consume the next byte only if it equals
    /// `expected` (which is never a newline).
    fn peek_match(&mut self, expected: u8) -> (r: bool)
        requires
            old(self).wf(),
            expected != 10,
        ensures
            final(self).src == old(self).src,
            final(self).tokens == old(self).tokens,
            final(self).start == old(self).start,
            final(self).line == old(self).line,
            final(self).wf(),
            r == (old(self).pos < old(self).src@.len() && old(self).src@[old(self).pos as int]
                == expected),
            final(self).pos == if r {
                old(self).pos + 1
            } else {
                old(self).pos as int
            },
    {
        if self.pos < self.src.len() && self.src[self.pos] == expected {
            proof {
                lemma_line_at_step(self.src@, self.pos as int);
            }
            self.pos = self.pos + 1;
            true
        } else {
            false
        }
    }

    /// Emit one token: its lexeme is the source slice from the current
    /// token start through `cur` inclusive.
    fn add_token(&mut self, t_type: TokenType, literal: Option<Vec<u8>>, cur: usize)
        requires
            old(self).src@.len() < usize::MAX,
            old(self).start <= cur < old(self).src@.len(),
        ensures
            final(self).src == old(self).src,
            final(self).pos == old(self).pos,
            final(self).start == old(self).start,
            final(self).line == old(self).line,
            token_views(final(self).tokens@) == token_views(old(self).tokens@).push(
                SpecToken {
                    t_type,
                    lexeme: old(self).src@.subrange(old(self).start as int, cur + 1),
                    literal: match literal {
                        Some(v) => Some(v@),
                        None => None,
                    },
                    line: old(self).line as int,
                    start: old(self).start as int,
                    end: cur + 1,
                },
            ),
    {
        let text = copy_range(&self.src, self.start, cur + 1);
        let tok = Token::new(t_type, text, literal, self.line, self.start, cur + 1);
        self.tokens.push(tok);
        proof {
            assert(token_views(self.tokens@) =~= token_views(old(self).tokens@).push(
                self.tokens@.last()@,
            ));
        }
    }

    /// Scan the rest of a string literal.  The opening quote stands at
    /// `start` and has just been consumed.  An unterminated string reports
    /// an error and emits no token.
    fn string(&mut self, error_handler: &mut ErrorHandler)
        requires
            old(self).wf(),
            old(self).start + 1 == old(self).pos,
            old(self).pos <= old(self).src@.len(),
            old(self).src@[old(self).start as int] == 34,
        ensures
            final(self).src == old(self).src,
            final(self).start == old(self).start,
            final(self).wf(),
            final(self).pos == step_end(old(self).src@, old(self).start as int),
            token_views(final(self).tokens@) == token_views(old(self).tokens@) + step_tokens(
                old(self).src@,
                old(self).start as int,
            ),
            diagnostic_views(final(error_handler).diagnostics@) == diagnostic_views(
                old(error_handler).diagnostics@,
            ) + step_errors(old(self).src@, old(self).start as int),
            final(error_handler).error == (old(error_handler).error || step_errors(
                old(self).src@,
                old(self).start as int,
            ).len() > 0),
    {
        let ghost buf = self.src@;
        let ghost p = self.start as int;
        let ghost toks0 = token_views(self.tokens@);
        let ghost diags0 = diagnostic_views(error_handler.diagnostics@);
        loop
            invariant
                self.wf(),
                self.src == old(self).src,
                self.src@ == buf,
                self.start == old(self).start,
                self.tokens == old(self).tokens,
                *error_handler == *old(error_handler),
                0 <= p,
                p == old(self).start as int,
                buf[p] == 34,
                toks0 == token_views(old(self).tokens@),
                diags0 == diagnostic_views(old(error_handler).diagnostics@),
                p + 1 <= self.pos <= buf.len(),
                string_body_end(buf, p + 1) == string_body_end(buf, self.pos as int),
            ensures
                self.wf(),
                self.src == old(self).src,
                self.src@ == buf,
                self.start == old(self).start,
                self.tokens == old(self).tokens,
                *error_handler == *old(error_handler),
                p + 1 <= self.pos < buf.len(),
                self.src@[self.pos as int] == 34,
                string_body_end(buf, p + 1) == self.pos as int,
            decreases buf.len() - self.pos,
        {
            if self.pos >= self.src.len() {
                error_handler.error(self.line, "Unterminated string");
                proof {
                    assert(string_body_end(buf, self.pos as int) == buf.len());
                    assert(string_body_end(buf, p + 1) == buf.len());
                    assert(buf[p] == 34);
                    assert(single_kind(buf[p]) is None);
                    assert(pair_kinds(buf[p]) is None);
                    assert(step_end(buf, p) == buf.len() as int);
                    assert(step_tokens(buf, p) =~= Seq::<SpecToken>::empty());
                    assert(token_views(self.tokens@) =~= toks0 + step_tokens(buf, p));
                    assert(step_errors(buf, p) =~= seq![
                        SpecDiagnostic {
                            line: line_at(buf, buf.len() as int),
                            message: "Unterminated string"@,
                        },
                    ]);
                    assert(diagnostic_views(error_handler.diagnostics@) =~= diags0 + step_errors(
                        buf,
                        p,
                    ));
                }
                return ;
            }
            let c = self.src[self.pos];
            if c == 34 {
                break ;
            }
            proof {
                lemma_line_at_step(buf, self.pos as int);
                lemma_line_at_bounds(buf, self.pos as int);
            }
            if c == 10 {
                self.line = self.line + 1;
            }
            self.pos = self.pos + 1;
        }
        let cur = self.pos;
        proof {
            lemma_line_at_step(buf, cur as int);
        }
        self.pos = self.pos + 1;
        let interior = copy_range(&self.src, self.start + 1, cur);
        self.add_token(TokenType::Str, Some(interior), cur);
        proof {
            assert(step_end(buf, p) == cur + 1);
            assert(step_tokens(buf, p) =~= seq![
                spec_token_at(buf, TokenType::Str, Some(buf.subrange(p + 1, cur as int)), p, cur + 1),
            ]);
            assert(token_views(self.tokens@) =~= toks0 + step_tokens(buf, p));
            assert(step_errors(buf, p) =~= Seq::<SpecDiagnostic>::empty());
            assert(diagnostic_views(error_handler.diagnostics@) =~= diags0 + step_errors(buf, p));
        }
    }

    /// Scan the rest of a number literal: a maximal digit run, then one
    /// dot only if a digit follows it immediately, then a further run.
    fn number(&mut self, cur_first: usize)
        requires
            old(self).wf(),
            old(self).start == cur_first,
            old(self).start + 1 == old(self).pos,
            old(self).pos <= old(self).src@.len(),
            is_digit(old(self).src@[old(self).start as int]),
        ensures
            final(self).src == old(self).src,
            final(self).start == old(self).start,
            final(self).wf(),
            final(self).pos == step_end(old(self).src@, old(self).start as int),
            token_views(final(self).tokens@) == token_views(old(self).tokens@) + step_tokens(
                old(self).src@,
                old(self).start as int,
            ),
    {
        let ghost buf = self.src@;
        let ghost p = self.start as int;
        let ghost toks0 = token_views(self.tokens@);
        let mut cur = cur_first;
        while self.pos < self.src.len() && 48 <= self.src[self.pos] && self.src[self.pos] <= 57
            invariant
                self.wf(),
                self.src == old(self).src,
                self.src@ == buf,
                self.start == old(self).start,
                self.tokens == old(self).tokens,
                cur + 1 == self.pos,
                p + 1 <= self.pos <= buf.len(),
                digits_end(buf, p + 1) == digits_end(buf, self.pos as int),
            decreases buf.len() - self.pos,
        {
            proof {
                lemma_line_at_step(buf, self.pos as int);
            }
            self.pos = self.pos + 1;
            cur = cur + 1;
        }
        proof {
            assert(digits_end(buf, p + 1) == self.pos as int);
        }
        let ghost d = digits_end(buf, p + 1);
        if self.pos < self.src.len() && self.src[self.pos] == 46 && self.pos + 1 < self.src.len()
            && 48 <= self.src[self.pos + 1] && self.src[self.pos + 1] <= 57 {
            proof {
                lemma_line_at_step(buf, self.pos as int);
            }
            self.pos = self.pos + 1;
            cur = cur + 1;
            while self.pos < self.src.len() && 48 <= self.src[self.pos] && self.src[self.pos] <= 57
                invariant
                    self.wf(),
                    self.src == old(self).src,
                    self.src@ == buf,
                    self.start == old(self).start,
                    self.tokens == old(self).tokens,
                    cur + 1 == self.pos,
                    d + 1 <= self.pos <= buf.len(),
                    digits_end(buf, d + 1) == digits_end(buf, self.pos as int),
                decreases buf.len() - self.pos,
            {
                proof {
                    lemma_line_at_step(buf, self.pos as int);
                }
                self.pos = self.pos + 1;
                cur = cur + 1;
            }
            proof {
                assert(digits_end(buf, d + 1) == self.pos as int);
            }
        }
        proof {
            assert(self.pos as int == num_end(buf, p));
            assert(self.pos as int == step_end(buf, p));
        }
        let literal = copy_range(&self.src, self.start, cur + 1);
        self.add_token(TokenType::Num, Some(literal), cur);
        proof {
            assert(step_tokens(buf, p) =~= seq![
                spec_token_at(
                    buf,
                    TokenType::Num,
                    Some(buf.subrange(p, num_end(buf, p))),
                    p,
                    num_end(buf, p),
                ),
            ]);
            assert(token_views(self.tokens@) =~= toks0 + step_tokens(buf, p));
        }
    }

    /// Scan the rest of an identifier: a maximal alphanumeric run, then
    /// one keyword-table lookup of the matched text.
    fn identifier(&mut self, cur_first: usize)
        requires
            old(self).wf(),
            old(self).start == cur_first,
            old(self).start + 1 == old(self).pos,
            old(self).pos <= old(self).src@.len(),
            is_alpha(old(self).src@[old(self).start as int]),
        ensures
            final(self).src == old(self).src,
            final(self).start == old(self).start,
            final(self).wf(),
            final(self).pos == step_end(old(self).src@, old(self).start as int),
            token_views(final(self).tokens@) == token_views(old(self).tokens@) + step_tokens(
                old(self).src@,
                old(self).start as int,
            ),
    {
        let ghost buf = self.src@;
        let ghost p = self.start as int;
        let ghost toks0 = token_views(self.tokens@);
        let mut cur = cur_first;
        while self.pos < self.src.len() && ((48 <= self.src[self.pos] && self.src[self.pos] <= 57)
            || (97 <= self.src[self.pos] && self.src[self.pos] <= 122) || (65 <= self.src[self.pos]
            && self.src[self.pos] <= 90))
            invariant
                self.wf(),
                self.src == old(self).src,
                self.src@ == buf,
                self.start == old(self).start,
                self.tokens == old(self).tokens,
                cur + 1 == self.pos,
                p + 1 <= self.pos <= buf.len(),
                alnum_end(buf, p + 1) == alnum_end(buf, self.pos as int),
            decreases buf.len() - self.pos,
        {
            proof {
                lemma_line_at_step(buf, self.pos as int);
            }
            self.pos = self.pos + 1;
            cur = cur + 1;
        }
        proof {
            assert(alnum_end(buf, p + 1) == self.pos as int);
            assert(self.pos as int == step_end(buf, p));
        }
        let text = copy_range(&self.src, self.start, cur + 1);
        let looked_up = keyword_kind(&text);
        match looked_up {
            Some(k) => self.add_token(k, None, cur),
            None => self.add_token(TokenType::Id, Some(text), cur),
        }
        proof {
            let e = step_end(buf, p);
            let spec_text = buf.subrange(p, e);
            match keyword_of(spec_text) {
                Some(k) => {
                    assert(step_tokens(buf, p) =~= seq![spec_token_at(buf, k, None, p, e)]);
                },
                None => {
                    assert(step_tokens(buf, p) =~= seq![
                        spec_token_at(buf, TokenType::Id, Some(spec_text), p, e),
                    ]);
                },
            }
            assert(token_views(self.tokens@) =~= toks0 + step_tokens(buf, p));
        }
    }

    /// Consume one scanning step: classify the byte under the cursor, emit
    /// its token or diagnostic if it has one, and leave the cursor at the
    /// step's end.  Returns whether a byte remained to consume.
    fn scan_token(&mut self, error_handler: &mut ErrorHandler) -> (more: bool)
        requires
            old(self).wf(),
        ensures
            final(self).wf(),
            final(self).src == old(self).src,
            more == (old(self).pos < old(self).src@.len()),
            !more ==> *final(self) == *old(self) && *final(error_handler) == *old(error_handler),
            more ==> final(self).pos == step_end(old(self).src@, old(self).pos as int),
            more ==> token_views(final(self).tokens@) == token_views(old(self).tokens@)
                + step_tokens(old(self).src@, old(self).pos as int),
            more ==> diagnostic_views(final(error_handler).diagnostics@) == diagnostic_views(
                old(error_handler).diagnostics@,
            ) + step_errors(old(self).src@, old(self).pos as int),
            more ==> final(error_handler).error == (old(error_handler).error || step_errors(
                old(self).src@,
                old(self).pos as int,
            ).len() > 0),
    {
        let ghost buf = self.src@;
        let ghost p = self.pos as int;
        let ghost toks0 = token_views(self.tokens@);
        let ghost diags0 = diagnostic_views(error_handler.diagnostics@);
        let cur = self.pos;
        let consumed = self.advance();
        let c: u8;
        match consumed {
            Some(b) => {
                c = b;
            },
            None => {
                return false;
            },
        }
        self.start = cur;
        proof {
            lemma_line_at_step(buf, p);
            lemma_line_at_bounds(buf, p);
        }
        let single = single_kind_exec(c);
        match single {
            Some(k) => {
                self.add_token(k, None, cur);
                proof {
                    assert(step_tokens(buf, p) =~= seq![spec_token_at(buf, k, None, p, p + 1)]);
                    assert(token_views(self.tokens@) =~= toks0 + step_tokens(buf, p));
                    assert(diagnostic_views(error_handler.diagnostics@) =~= diags0 + step_errors(
                        buf,
                        p,
                    ));
                }
            },
            None => {
                let pair = pair_kinds_exec(c);
                match pair {
                    Some(kinds) => {
                        let matched = self.peek_match(61);
                        let kind = if matched {
                            kinds.1
                        } else {
                            kinds.0
                        };
                        let end_cur = if matched {
                            cur + 1
                        } else {
                            cur
                        };
                        self.add_token(kind, None, end_cur);
                        proof {
                            assert(step_tokens(buf, p) =~= seq![
                                spec_token_at(buf, kind, None, p, step_end(buf, p)),
                            ]);
                            assert(token_views(self.tokens@) =~= toks0 + step_tokens(buf, p));
                            assert(diagnostic_views(error_handler.diagnostics@) =~= diags0
                                + step_errors(buf, p));
                        }
                    },
                    None => {
                        if c == 47 {
                            self.slash(error_handler, cur);
                            proof {
                                assert(diagnostic_views(error_handler.diagnostics@) =~= diags0
                                    + step_errors(buf, p));
                            }
                        } else if c == 10 {
                            self.line = self.line + 1;
                            proof {
                                assert(step_tokens(buf, p) =~= Seq::<SpecToken>::empty());
                                assert(token_views(self.tokens@) =~= toks0 + step_tokens(buf, p));
                                assert(diagnostic_views(error_handler.diagnostics@) =~= diags0
                                    + step_errors(buf, p));
                            }
                        } else if c == 32 {
                            proof {
                                assert(step_tokens(buf, p) =~= Seq::<SpecToken>::empty());
                                assert(token_views(self.tokens@) =~= toks0 + step_tokens(buf, p));
                                assert(diagnostic_views(error_handler.diagnostics@) =~= diags0
                                    + step_errors(buf, p));
                            }
                        } else if c == 34 {
                            self.string(error_handler);
                        } else if 48 <= c && c <= 57 {
                            self.number(cur);
                            proof {
                                assert(diagnostic_views(error_handler.diagnostics@) =~= diags0
                                    + step_errors(buf, p));
                            }
                        } else if (97 <= c && c <= 122) || (65 <= c && c <= 90) {
                            self.identifier(cur);
                            proof {
                                assert(diagnostic_views(error_handler.diagnostics@) =~= diags0
                                    + step_errors(buf, p));
                            }
                        } else {
                            let mut bytes: Vec<u8> = Vec::new();
                            bytes.push(c);
                            let rendered = render_bytes(&bytes);
                            let mut msg = String::from_str("Unexpected character: ");
                            msg.append(rendered.as_str());
                            error_handler.error(self.line, msg.as_str());
                            proof {
                                assert(bytes@ =~= seq![c]);
                                assert(msg@ == "Unexpected character: "@ + lossy_of(seq![c]));
                                assert(step_errors(buf, p) =~= seq![
                                    SpecDiagnostic {
                                        line: line_at(buf, p + 1),
                                        message: unexpected_char_message(c),
                                    },
                                ]);
                                assert(diagnostic_views(error_handler.diagnostics@) =~= diags0
                                    + step_errors(buf, p));
                                assert(step_tokens(buf, p) =~= Seq::<SpecToken>::empty());
                                assert(token_views(self.tokens@) =~= toks0 + step_tokens(buf, p));
                            }
                        }
                    },
                }
            },
        }
        true
    }

    /// Scan what follows a consumed `/`: a line comment through the byte
    /// before the next newline, a block comment through the first `*/`
    /// (silently through the end of input when it is left open), or a
    /// slash token.
    fn slash(&mut self, error_handler: &mut ErrorHandler, cur: usize)
        requires
            old(self).wf(),
            old(self).start == cur,
            old(self).start + 1 == old(self).pos,
            old(self).pos <= old(self).src@.len(),
            old(self).src@[old(self).start as int] == 47,
        ensures
            final(self).src == old(self).src,
            final(self).wf(),
            *final(error_handler) == *old(error_handler),
            final(self).pos == step_end(old(self).src@, old(self).start as int),
            token_views(final(self).tokens@) == token_views(old(self).tokens@) + step_tokens(
                old(self).src@,
                old(self).start as int,
            ),
    {
        let ghost buf = self.src@;
        let ghost p = self.start as int;
        let ghost toks0 = token_views(self.tokens@);
        let slc = self.peek_match(47);
        if slc {
            while self.pos < self.src.len() && self.src[self.pos] != 10
                invariant
                    self.wf(),
                    self.src == old(self).src,
                    self.src@ == buf,
                    self.tokens == old(self).tokens,
                    p + 2 <= self.pos <= buf.len(),
                    line_comment_end(buf, p + 2) == line_comment_end(buf, self.pos as int),
                decreases buf.len() - self.pos,
            {
                proof {
                    lemma_line_at_step(buf, self.pos as int);
                }
                self.pos = self.pos + 1;
            }
            proof {
                assert(line_comment_end(buf, p + 2) == self.pos as int);
                assert(step_end(buf, p) == self.pos as int);
                assert(step_tokens(buf, p) =~= Seq::<SpecToken>::empty());
                assert(token_views(self.tokens@) =~= toks0 + step_tokens(buf, p));
            }
        } else {
            let mlc = self.peek_match(42);
            if mlc {
                loop
                    invariant_except_break
                        block_comment_end(buf, p + 2) == block_comment_end(buf, self.pos as int),
                    invariant
                        self.wf(),
                        self.src == old(self).src,
                        self.src@ == buf,
                        self.tokens == old(self).tokens,
                        p + 2 <= self.pos <= buf.len(),
                    ensures
                        self.wf(),
                        self.src == old(self).src,
                        self.src@ == buf,
                        self.tokens == old(self).tokens,
                        p + 2 <= self.pos <= buf.len(),
                        self.pos as int == block_comment_end(buf, p + 2),
                    decreases buf.len() - self.pos,
                {
                    if self.pos >= self.src.len() {
                        proof {
                            assert(block_comment_end(buf, self.pos as int) == buf.len());
                        }
                        break ;
                    }
                    let ch = self.src[self.pos];
                    if ch == 42 && self.pos + 1 < self.src.len() {
                        if self.src[self.pos + 1] == 47 {
                            proof {
                                lemma_line_at_step(buf, self.pos as int);
                                lemma_line_at_step(buf, self.pos as int + 1);
                                assert(block_comment_end(buf, self.pos as int) == self.pos + 2);
                            }
                            self.pos = self.pos + 2;
                            break ;
                        }
                    }
                    proof {
                        lemma_line_at_step(buf, self.pos as int);
                        lemma_line_at_bounds(buf, self.pos as int);
                    }
                    if ch == 10 {
                        self.line = self.line + 1;
                    }
                    self.pos = self.pos + 1;
                }
                proof {
                    assert(step_end(buf, p) == self.pos as int);
                    assert(step_tokens(buf, p) =~= Seq::<SpecToken>::empty());
                    assert(token_views(self.tokens@) =~= toks0 + step_tokens(buf, p));
                }
            } else {
                self.add_token(TokenType::Slash, None, cur);
                proof {
                    assert(step_end(buf, p) == p + 1);
                    assert(step_tokens(buf, p) =~= seq![
                        spec_token_at(buf, TokenType::Slash, None, p, p + 1),
                    ]);
                    assert(token_views(self.tokens@) =~= toks0 + step_tokens(buf, p));
                }
            }
        }
    }

    /// Walk the whole buffer once, appending every emitted token and then
    /// exactly one end-of-input token, and reporting every lexical error
    /// through the handler.  The tokens appended and the diagnostics
    /// emitted are exactly those of the specification-level scan from the
    /// cursor's position; the handler's flag is raised if and only if that
    /// scan reports at least one error.
    pub fn scan_tokens(&mut self, error_handler: &mut ErrorHandler)
        requires
            old(self).wf(),
        ensures
            final(self).wf(),
            final(self).src == old(self).src,
            final(self).pos == old(self).src@.len(),
            token_views(final(self).tokens@) == token_views(old(self).tokens@) + scan_from(
                old(self).src@,
                old(self).pos as int,
            ).push(eof_token(old(self).src@)),
            diagnostic_views(final(error_handler).diagnostics@) == diagnostic_views(
                old(error_handler).diagnostics@,
            ) + errors_from(old(self).src@, old(self).pos as int),
            final(error_handler).error == (old(error_handler).error || errors_from(
                old(self).src@,
                old(self).pos as int,
            ).len() > 0),
    {
        let ghost buf = self.src@;
        let ghost p0 = self.pos as int;
        let ghost toks0 = token_views(self.tokens@);
        let ghost diags0 = diagnostic_views(error_handler.diagnostics@);
        let ghost err0 = error_handler.error;
        loop
            invariant
                self.wf(),
                self.src == old(self).src,
                self.src@ == buf,
                0 <= p0 <= buf.len(),
                self.pos <= buf.len(),
                toks0 == token_views(old(self).tokens@),
                diags0 == diagnostic_views(old(error_handler).diagnostics@),
                err0 == old(error_handler).error,
                token_views(self.tokens@) + scan_from(buf, self.pos as int) == toks0 + scan_from(
                    buf,
                    p0,
                ),
                diagnostic_views(error_handler.diagnostics@) + errors_from(buf, self.pos as int)
                    == diags0 + errors_from(buf, p0),
                diagnostic_views(error_handler.diagnostics@).len() >= diags0.len(),
                error_handler.error == (err0 || diagnostic_views(
                    error_handler.diagnostics@,
                ).len() > diags0.len()),
            ensures
                self.wf(),
                self.src == old(self).src,
                self.src@ == buf,
                self.pos == buf.len(),
                token_views(self.tokens@) == toks0 + scan_from(buf, p0),
                diagnostic_views(error_handler.diagnostics@) == diags0 + errors_from(buf, p0),
                error_handler.error == (err0 || errors_from(buf, p0).len() > 0),
            decreases buf.len() - self.pos,
        {
            let ghost pos_before = self.pos as int;
            let more = self.scan_token(error_handler);
            if !more {
                proof {
                    assert(scan_from(buf, self.pos as int) =~= Seq::<SpecToken>::empty());
                    assert(errors_from(buf, self.pos as int) =~= Seq::<SpecDiagnostic>::empty());
                    assert(token_views(self.tokens@) =~= token_views(self.tokens@) + Seq::<
                        SpecToken,
                    >::empty());
                    assert(diagnostic_views(error_handler.diagnostics@) =~= diagnostic_views(
                        error_handler.diagnostics@,
                    ) + Seq::<SpecDiagnostic>::empty());
                    assert(errors_from(buf, p0).len() == diagnostic_views(
                        error_handler.diagnostics@,
                    ).len() - diags0.len());
                }
                break ;
            }
            proof {
                lemma_step_end_bounds(buf, pos_before);
                assert(scan_from(buf, pos_before) == step_tokens(buf, pos_before) + scan_from(
                    buf,
                    self.pos as int,
                ));
                assert(errors_from(buf, pos_before) == step_errors(buf, pos_before) + errors_from(
                    buf,
                    self.pos as int,
                ));
                assert(token_views(self.tokens@) + scan_from(buf, self.pos as int) =~= toks0
                    + scan_from(buf, p0));
                assert(diagnostic_views(error_handler.diagnostics@) + errors_from(
                    buf,
                    self.pos as int,
                ) =~= diags0 + errors_from(buf, p0));
            }
        }
        let n = self.src.len();
        let empty_lexeme: Vec<u8> = Vec::new();
        let eof = Token::new(TokenType::Eof, empty_lexeme, None, self.line, n, n);
        self.tokens.push(eof);
        proof {
            assert(self.tokens@.last()@ == eof_token(buf));
            assert(token_views(self.tokens@) =~= (toks0 + scan_from(buf, p0)).push(
                eof_token(buf),
            ));
            assert(token_views(self.tokens@) =~= toks0 + scan_from(buf, p0).push(eof_token(buf)));
        }
    }
}

} // verus!

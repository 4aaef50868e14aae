//! The tokenization rules, stated over the source characters.
//!
//! `spec_step` says what the lexer does at one character position: skip it
//! (whitespace, a comment), emit one token, or fail with a message. `spec_lex_from`
//! runs the steps to the end of the text. Positions are character indices; a
//! token's span is the byte range between two of them.
use crate::ast::{IntLiteralBase, IntLiteralSuffix};
use crate::lexer::{spec_escape, spec_keyword, Token, TokenKind};
use crate::source::{spec_byte_len, FileId, Span};
use crate::lexer::spec_digits_value;
use vstd::prelude::*;

verus! {

/// What a token holds, as the rules give it: a kind without text, a word (a
/// keyword or an identifier), or the bytes of a string literal.
pub enum SpecTok {
    Plain(TokenKind),
    Word(Seq<char>),
    Str(Seq<u8>),
}

/// One step of the lexer at a character position.
pub enum LexStep {
    /// Nothing is emitted; lexing goes on at the given position.
    Skip(int),
    /// A token is emitted spanning the positions `[start, end)`; lexing goes on at `next`.
    Emit { tok: SpecTok, start: int, end: int, next: int },
    /// Lexing fails with the message; the error spans from the step's position to `end`.
    Fail { message: Seq<char>, end: int },
}

/// The byte offset of character position `p`.
pub open spec fn spec_offset(chars: Seq<char>, p: int) -> nat {
    spec_byte_len(chars.take(p))
}

/// The span between two character positions.
pub open spec fn spec_span(chars: Seq<char>, file_id: FileId, start: int, end: int) -> Span {
    Span { file_id, start: spec_offset(chars, start) as usize, end: spec_offset(chars, end) as usize }
}

/// Position `k` holds the character `c`.
pub open spec fn spec_at(chars: Seq<char>, k: int, c: char) -> bool {
    0 <= k < chars.len() && chars[k] == c
}

/// A token kind agrees with what the rules say the token holds.
pub open spec fn spec_denotes(k: TokenKind, t: SpecTok) -> bool {
    match t {
        SpecTok::Plain(p) => k == p,
        SpecTok::Word(text) => match spec_keyword(text) {
            Some(kw) => k == kw,
            None => k matches TokenKind::Ident(name) && name@ == text,
        },
        SpecTok::Str(bytes) => k matches TokenKind::StringLiteral(v) && v@ == bytes,
    }
}

/// A letter, a digit or an underscore.
pub open spec fn spec_is_word_char(c: char) -> bool {
    ('a' <= c <= 'z') || ('A' <= c <= 'Z') || ('0' <= c <= '9') || c == '_'
}

/// A decimal digit.
pub open spec fn spec_is_dec_digit(c: char) -> bool {
    '0' <= c <= '9'
}

/// A hexadecimal digit.
pub open spec fn spec_is_hex_digit(c: char) -> bool {
    ('0' <= c <= '9') || ('a' <= c <= 'f') || ('A' <= c <= 'F')
}

/// The end of the run of word characters that starts at `k`.
pub open spec fn spec_word_end(chars: Seq<char>, k: int) -> int
    decreases chars.len() - k,
{
    if 0 <= k < chars.len() && spec_is_word_char(chars[k]) {
        spec_word_end(chars, k + 1)
    } else {
        k
    }
}

/// The end of the run of decimal digits that starts at `k`.
pub open spec fn spec_dec_end(chars: Seq<char>, k: int) -> int
    decreases chars.len() - k,
{
    if 0 <= k < chars.len() && spec_is_dec_digit(chars[k]) {
        spec_dec_end(chars, k + 1)
    } else {
        k
    }
}

/// The end of the run of hexadecimal digits that starts at `k`.
pub open spec fn spec_hex_end(chars: Seq<char>, k: int) -> int
    decreases chars.len() - k,
{
    if 0 <= k < chars.len() && spec_is_hex_digit(chars[k]) {
        spec_hex_end(chars, k + 1)
    } else {
        k
    }
}

/// Where a line comment whose text starts at `k` ends: just after the newline, or at the end.
pub open spec fn spec_line_end(chars: Seq<char>, k: int) -> int
    decreases chars.len() - k,
{
    if k < 0 || k >= chars.len() {
        k
    } else if chars[k] == '\n' {
        k + 1
    } else {
        spec_line_end(chars, k + 1)
    }
}

/// Where a block comment whose text starts at `k` ends: just after the first `*/`,
/// or `None` when the text ends first.
pub open spec fn spec_block_end(chars: Seq<char>, k: int) -> Option<int>
    decreases chars.len() - k,
{
    if k < 0 || k >= chars.len() {
        None
    } else if chars[k] == '*' && spec_at(chars, k + 1, '/') {
        Some(k + 2)
    } else {
        spec_block_end(chars, k + 1)
    }
}

/// The first position at or after `k` holding a quote, or the end.
pub open spec fn spec_quote_end(chars: Seq<char>, k: int) -> int
    decreases chars.len() - k,
{
    if k < 0 || k >= chars.len() || chars[k] == '\'' {
        k
    } else {
        spec_quote_end(chars, k + 1)
    }
}

/// A one-character token.
pub open spec fn spec_single(kind: TokenKind, p: int) -> LexStep {
    LexStep::Emit { tok: SpecTok::Plain(kind), start: p, end: p + 1, next: p + 1 }
}

/// An operator of one character, or of two when the second one follows.
pub open spec fn spec_one_or_two(chars: Seq<char>, p: int, single: TokenKind, second: char, double: TokenKind) -> LexStep {
    if spec_at(chars, p + 1, second) {
        LexStep::Emit { tok: SpecTok::Plain(double), start: p, end: p + 2, next: p + 2 }
    } else {
        spec_single(single, p)
    }
}

/// An operator of one character, or of two when one of two second characters
/// follows (the first of them tried first).
pub open spec fn spec_one_or_two_of_two(
    chars: Seq<char>,
    p: int,
    single: TokenKind,
    second1: char,
    double1: TokenKind,
    second2: char,
    double2: TokenKind,
) -> LexStep {
    if spec_at(chars, p + 1, second1) {
        LexStep::Emit { tok: SpecTok::Plain(double1), start: p, end: p + 2, next: p + 2 }
    } else if spec_at(chars, p + 1, second2) {
        LexStep::Emit { tok: SpecTok::Plain(double2), start: p, end: p + 2, next: p + 2 }
    } else {
        spec_single(single, p)
    }
}

/// `<`, `<=`, `<<`, `<<=` (or the same with `>`): the span covers the first character only.
pub open spec fn spec_shift_or_compare(
    chars: Seq<char>,
    p: int,
    ch: char,
    single: TokenKind,
    equal: TokenKind,
    shift: TokenKind,
    shift_equal: TokenKind,
) -> LexStep {
    if spec_at(chars, p + 1, '=') {
        LexStep::Emit { tok: SpecTok::Plain(equal), start: p, end: p + 1, next: p + 2 }
    } else if spec_at(chars, p + 1, ch) {
        if spec_at(chars, p + 2, '=') {
            LexStep::Emit { tok: SpecTok::Plain(shift_equal), start: p, end: p + 1, next: p + 3 }
        } else {
            LexStep::Emit { tok: SpecTok::Plain(shift), start: p, end: p + 1, next: p + 2 }
        }
    } else {
        spec_single(single, p)
    }
}

/// The integer suffix written by the two flags.
pub open spec fn spec_suffix(unsigned: bool, long: bool) -> IntLiteralSuffix {
    if !unsigned && !long {
        IntLiteralSuffix::Unsuffixed
    } else if unsigned && !long {
        IntLiteralSuffix::Unsigned
    } else if !unsigned && long {
        IntLiteralSuffix::Long
    } else {
        IntLiteralSuffix::UnsignedLong
    }
}

/// Reads integer suffix letters from `k`: the flags seen and where the suffix
/// ends, or the message and end of a repeated letter.
pub open spec fn spec_suffix_scan(chars: Seq<char>, k: int, unsigned: bool, long: bool) -> Result<(bool, bool, int), (Seq<char>, int)>
    decreases chars.len() - k,
{
    if 0 <= k < chars.len() && (chars[k] == 'u' || chars[k] == 'U') {
        if unsigned {
            Err(("duplicate 'U' integer suffix"@, k + 1))
        } else {
            spec_suffix_scan(chars, k + 1, true, long)
        }
    } else if 0 <= k < chars.len() && (chars[k] == 'l' || chars[k] == 'L') {
        if long {
            Err(("'long long' integer suffix is not supported"@, k + 1))
        } else {
            spec_suffix_scan(chars, k + 1, unsigned, true)
        }
    } else {
        Ok((unsigned, long, k))
    }
}

/// An integer literal from `p` whose digits have been read up to `k`.
pub open spec fn spec_int_finish(chars: Seq<char>, p: int, digits: Seq<char>, radix: u32, base: IntLiteralBase, k: int) -> LexStep {
    match spec_suffix_scan(chars, k, false, false) {
        Err((message, end)) => LexStep::Fail { message, end },
        Ok((unsigned, long, q)) => {
            let v = spec_digits_value(digits, radix);
            if v > u64::MAX {
                LexStep::Fail { message: "integer literal out of range: "@ + digits, end: q }
            } else {
                LexStep::Emit {
                    tok: SpecTok::Plain(TokenKind::IntLiteral { value: v as u64, suffix: spec_suffix(unsigned, long), base }),
                    start: p,
                    end: q,
                    next: q,
                }
            }
        },
    }
}

/// An integer literal at `p`, which holds a decimal digit.
pub open spec fn spec_int_step(chars: Seq<char>, p: int) -> LexStep {
    if chars[p] == '0' && (spec_at(chars, p + 1, 'x') || spec_at(chars, p + 1, 'X')) {
        let q = spec_hex_end(chars, p + 2);
        if q == p + 2 {
            LexStep::Fail { message: "expected hex digit after '0"@.push(chars[p + 1]) + "'"@, end: p + 2 }
        } else {
            spec_int_finish(chars, p, chars.subrange(p + 2, q), 16, IntLiteralBase::Hex, q)
        }
    } else {
        let q = spec_dec_end(chars, p + 1);
        spec_int_finish(chars, p, chars.subrange(p, q), 10, IntLiteralBase::Decimal, q)
    }
}

/// The message for an unknown escape letter.
pub open spec fn spec_unknown_escape(c: char) -> Seq<char> {
    "unknown escape sequence '\\"@.push(c) + "'"@
}

/// A character literal whose value has been read, at the position `k` of its closing quote.
pub open spec fn spec_char_close(chars: Seq<char>, p: int, value: i32, k: int) -> LexStep {
    if k >= chars.len() {
        LexStep::Fail { message: "unterminated character constant"@, end: k }
    } else if chars[k] != '\'' {
        let j = spec_quote_end(chars, k);
        LexStep::Fail {
            message: "multi-character constants are not supported"@,
            end: if j < chars.len() { j + 1 } else { j },
        }
    } else {
        LexStep::Emit { tok: SpecTok::Plain(TokenKind::CharLiteral(value)), start: p, end: k + 1, next: k + 1 }
    }
}

/// A character literal at `p`, which holds a quote.
pub open spec fn spec_char_step(chars: Seq<char>, p: int) -> LexStep {
    let k = p + 1;
    if k >= chars.len() {
        LexStep::Fail { message: "unterminated character constant"@, end: k }
    } else if chars[k] == '\'' {
        LexStep::Fail { message: "empty character constant"@, end: k + 1 }
    } else if chars[k] == '\\' {
        if k + 1 >= chars.len() {
            LexStep::Fail { message: "unterminated character constant"@, end: k + 1 }
        } else {
            match spec_escape(chars[k + 1]) {
                Some(v) => spec_char_close(chars, p, v as i32, k + 2),
                None => LexStep::Fail { message: spec_unknown_escape(chars[k + 1]), end: k + 2 },
            }
        }
    } else {
        spec_char_close(chars, p, (chars[k] as u32) as i32, k + 1)
    }
}

/// The rest of a string literal that starts at `p`, read from `k` with the bytes `acc` so far.
pub open spec fn spec_string_scan(chars: Seq<char>, p: int, k: int, acc: Seq<u8>) -> LexStep
    decreases chars.len() - k,
{
    if k < 0 || k >= chars.len() {
        LexStep::Fail { message: "unterminated string literal"@, end: k }
    } else if chars[k] == '"' {
        LexStep::Emit { tok: SpecTok::Str(acc), start: p, end: k + 1, next: k + 1 }
    } else if chars[k] == '\\' {
        if k + 1 >= chars.len() {
            LexStep::Fail { message: "unterminated string literal"@, end: k + 1 }
        } else {
            match spec_escape(chars[k + 1]) {
                Some(b) => spec_string_scan(chars, p, k + 2, acc.push(b)),
                None => LexStep::Fail { message: spec_unknown_escape(chars[k + 1]), end: k + 2 },
            }
        }
    } else if chars[k] == '\n' {
        LexStep::Fail { message: "unterminated string literal"@, end: k }
    } else if (chars[k] as u32) >= 128 {
        LexStep::Fail { message: "non-ASCII string literals are not supported"@, end: k + 1 }
    } else {
        spec_string_scan(chars, p, k + 1, acc.push((chars[k] as u32) as u8))
    }
}

/// What the lexer does at position `p` (with `0 <= p < chars.len()`).
pub open spec fn spec_step(chars: Seq<char>, p: int) -> LexStep {
    let c = chars[p];
    if c == ' ' || c == '\r' || c == '\t' {
        LexStep::Skip(p + 1)
    } else if c == ',' {
        spec_single(TokenKind::Comma, p)
    } else if c == '(' {
        spec_single(TokenKind::LParen, p)
    } else if c == ')' {
        spec_single(TokenKind::RParen, p)
    } else if c == '{' {
        spec_single(TokenKind::LBrace, p)
    } else if c == '}' {
        spec_single(TokenKind::RBrace, p)
    } else if c == '[' {
        spec_single(TokenKind::LBracket, p)
    } else if c == ']' {
        spec_single(TokenKind::RBracket, p)
    } else if c == ';' {
        spec_single(TokenKind::Semicolon, p)
    } else if '0' <= c <= '9' {
        spec_int_step(chars, p)
    } else if ('a' <= c <= 'z') || ('A' <= c <= 'Z') || c == '_' {
        let q = spec_word_end(chars, p + 1);
        LexStep::Emit { tok: SpecTok::Word(chars.subrange(p, q)), start: p, end: q, next: q }
    } else if c == '\'' {
        spec_char_step(chars, p)
    } else if c == '+' {
        spec_one_or_two_of_two(chars, p, TokenKind::Plus, '=', TokenKind::PlusEqual, '+', TokenKind::PlusPlus)
    } else if c == '-' && spec_at(chars, p + 1, '>') {
        LexStep::Emit { tok: SpecTok::Plain(TokenKind::Arrow), start: p + 1, end: p + 2, next: p + 2 }
    } else if c == '-' {
        spec_one_or_two_of_two(chars, p, TokenKind::Minus, '=', TokenKind::MinusEqual, '-', TokenKind::MinusMinus)
    } else if c == '*' {
        spec_one_or_two(chars, p, TokenKind::Star, '=', TokenKind::StarEqual)
    } else if c == '/' {
        if spec_at(chars, p + 1, '/') {
            LexStep::Skip(spec_line_end(chars, p + 2))
        } else if spec_at(chars, p + 1, '*') {
            match spec_block_end(chars, p + 2) {
                Some(q) => LexStep::Skip(q),
                None => LexStep::Fail { message: "unterminated block comment"@, end: chars.len() as int },
            }
        } else {
            spec_one_or_two(chars, p, TokenKind::Slash, '=', TokenKind::SlashEqual)
        }
    } else if c == '%' {
        spec_one_or_two(chars, p, TokenKind::Percent, '=', TokenKind::PercentEqual)
    } else if c == '=' {
        spec_one_or_two(chars, p, TokenKind::Equal, '=', TokenKind::EqualEqual)
    } else if c == '!' {
        spec_one_or_two(chars, p, TokenKind::Bang, '=', TokenKind::BangEqual)
    } else if c == '<' {
        spec_shift_or_compare(chars, p, '<', TokenKind::Less, TokenKind::LessEqual, TokenKind::LessLess, TokenKind::LessLessEqual)
    } else if c == '>' {
        spec_shift_or_compare(
            chars, p, '>', TokenKind::Greater, TokenKind::GreaterEqual, TokenKind::GreaterGreater, TokenKind::GreaterGreaterEqual,
        )
    } else if c == '~' {
        spec_single(TokenKind::Tilde, p)
    } else if c == '&' {
        spec_one_or_two_of_two(chars, p, TokenKind::Ampersand, '=', TokenKind::AmpersandEqual, '&', TokenKind::AmpersandAmpersand)
    } else if c == '^' {
        spec_one_or_two(chars, p, TokenKind::Caret, '=', TokenKind::CaretEqual)
    } else if c == '|' {
        spec_one_or_two_of_two(chars, p, TokenKind::Pipe, '=', TokenKind::PipeEqual, '|', TokenKind::PipePipe)
    } else if c == '#' {
        spec_single(TokenKind::Hash, p)
    } else if c == '\n' {
        spec_single(TokenKind::Newline, p)
    } else if c == '"' {
        spec_string_scan(chars, p, p + 1, seq![])
    } else if c == '.' {
        spec_single(TokenKind::Dot, p)
    } else {
        LexStep::Fail { message: "unexpected character '"@.push(c) + "'"@, end: p + 1 }
    }
}

/// Where lexing goes on after a step (for a failure, where it stopped).
pub open spec fn spec_step_next(s: LexStep) -> int {
    match s {
        LexStep::Skip(q) => q,
        LexStep::Emit { next, .. } => next,
        LexStep::Fail { end, .. } => end,
    }
}

/// Runs the steps from `p` to the end of the text, after the tokens `acc`:
/// the tokens with their position ranges, or the first failure's message and range.
pub open spec fn spec_lex_from(chars: Seq<char>, p: int, acc: Seq<(SpecTok, int, int)>) -> Result<
    Seq<(SpecTok, int, int)>,
    (Seq<char>, int, int),
>
    decreases chars.len() - p,
{
    if p < 0 || p >= chars.len() {
        Ok(acc)
    } else {
        match spec_step(chars, p) {
            LexStep::Skip(q) => if p < q <= chars.len() {
                spec_lex_from(chars, q, acc)
            } else {
                Ok(acc)
            },
            LexStep::Emit { tok, start, end, next } => if p < next <= chars.len() {
                spec_lex_from(chars, next, acc.push((tok, start, end)))
            } else {
                Ok(acc)
            },
            LexStep::Fail { message, end } => Err((message, p, end)),
        }
    }
}

/// The tokens agree one by one with the rules' tokens and their ranges.
pub open spec fn spec_tokens_match(tokens: Seq<Token>, ts: Seq<(SpecTok, int, int)>, chars: Seq<char>, file_id: FileId) -> bool {
    &&& tokens.len() == ts.len()
    &&& forall|i: int| 0 <= i < ts.len() ==> {
        &&& spec_denotes((#[trigger] tokens[i]).kind, ts[i].0)
        &&& tokens[i].span == spec_span(chars, file_id, ts[i].1, ts[i].2)
    }
}


/// The character a C escape sequence `\c` stands for.
pub open spec fn c_escaped_char(c: char) -> Option<char> {
    if c == 'n' {
        Some('\n')
    } else if c == 't' {
        Some('\t')
    } else if c == 'r' {
        Some('\r')
    } else if c == '0' {
        Some('\0')
    } else if c == '\'' {
        Some('\'')
    } else if c == '"' {
        Some('"')
    } else if c == '\\' {
        Some('\\')
    } else {
        None
    }
}

/// A character that stands for itself inside a string literal.
pub open spec fn c_plain_string_char(c: char) -> bool {
    c != '"' && c != '\\' && c != '\n' && (c as u32) < 128
}

/// Law: inside a string literal an escape sequence contributes the byte of the
/// character it stands for (`\n` the newline byte 10, `\t` 9, `\r` 13, `\0`
/// 0, `\'` 39, `\"` 34, `\\` 92), and the literal goes on after it.
pub proof fn law_string_escape_byte(chars: Seq<char>, p: int, k: int, acc: Seq<u8>)
    requires
        0 <= k,
        k + 1 < chars.len(),
        chars[k] == '\\',
        c_escaped_char(chars[k + 1]) is Some,
    ensures
        spec_string_scan(chars, p, k, acc) == spec_string_scan(
            chars,
            p,
            k + 2,
            acc.push((c_escaped_char(chars[k + 1]).unwrap() as u32) as u8),
        ),
{
}

/// Law: a string literal whose characters from `k` up to its closing quote at
/// `e` all stand for themselves gives, after the bytes `acc` read before `k`,
/// the ASCII code of each of those characters, in order, and ends after the quote.
pub proof fn law_plain_string_bytes(chars: Seq<char>, p: int, k: int, e: int, acc: Seq<u8>)
    requires
        0 <= k <= e < chars.len(),
        chars[e] == '"',
        forall|j: int| k <= j < e ==> c_plain_string_char(#[trigger] chars[j]),
    ensures
        spec_string_scan(chars, p, k, acc) == (LexStep::Emit {
            tok: SpecTok::Str(acc + Seq::new((e - k) as nat, |i: int| (chars[k + i] as u32) as u8)),
            start: p,
            end: e + 1,
            next: e + 1,
        }),
    decreases e - k,
{
    if k == e {
        assert(acc + Seq::new(0nat, |i: int| (chars[k + i] as u32) as u8) =~= acc);
    } else {
        assert(c_plain_string_char(chars[k]));
        law_plain_string_bytes(chars, p, k + 1, e, acc.push((chars[k] as u32) as u8));
        assert(acc.push((chars[k] as u32) as u8) + Seq::new((e - (k + 1)) as nat, |i: int| (chars[k + 1 + i] as u32) as u8)
            =~= acc + Seq::new((e - k) as nat, |i: int| (chars[k + i] as u32) as u8));
    }
}

/// Law: a character constant `'\c'` of an escape sequence has the code of the
/// character the escape stands for as its value.
pub proof fn law_char_escape_value(chars: Seq<char>, p: int)
    requires
        0 <= p,
        p + 3 < chars.len(),
        chars[p] == '\'',
        chars[p + 1] == '\\',
        c_escaped_char(chars[p + 2]) is Some,
        chars[p + 3] == '\'',
    ensures
        spec_char_step(chars, p) == (LexStep::Emit {
            tok: SpecTok::Plain(TokenKind::CharLiteral((c_escaped_char(chars[p + 2]).unwrap() as u32) as i32)),
            start: p,
            end: p + 4,
            next: p + 4,
        }),
{
}

} // verus!

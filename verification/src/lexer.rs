use crate::ast::{IntLiteralBase, IntLiteralSuffix};
use crate::source::{spec_byte_len, spec_utf8_len, utf8_len, lemma_byte_len_prefix_mono, chars_of, FileId, Span};
use crate::text::{push_char, push_str, push_u64, push_i64, spec_decimal, spec_signed_decimal, string_from_chars};
use crate::lex_rules::{
    LexStep, SpecTok, spec_at, spec_denotes, spec_span, spec_single, spec_one_or_two, spec_one_or_two_of_two,
    spec_shift_or_compare, spec_word_end, spec_dec_end, spec_hex_end, spec_line_end, spec_block_end, spec_quote_end,
    spec_suffix_scan, spec_suffix, spec_int_step, spec_int_finish, spec_char_step, spec_char_close, spec_unknown_escape,
    spec_string_scan, spec_step, spec_step_next, spec_lex_from, spec_tokens_match, spec_is_word_char, spec_is_dec_digit,
    spec_is_hex_digit,
};
use vstd::prelude::*;

verus! {

#[derive(Debug, Clone, PartialEq, Eq)]
pub enum TokenKind {
    KwInt,
    KwChar,
    KwUnsigned,
    KwSigned,
    KwLong,
    KwConst,
    KwReturn,
    KwIf,
    KwElse,
    KwWhile,
    KwBreak,
    KwContinue,
    KwFor,
    KwDo,
    KwTypedef,
    KwSizeof,
    KwVoid,
    KwStatic,
    KwExtern,
    KwStruct,
    Ident(String),
    IntLiteral { value: u64, suffix: IntLiteralSuffix, base: IntLiteralBase },
    CharLiteral(i32),
    StringLiteral(Vec<u8>),
    LParen,
    RParen,
    LBrace,
    RBrace,
    LBracket,
    RBracket,
    Semicolon,
    Plus,
    PlusEqual,
    PlusPlus,
    Minus,
    MinusEqual,
    MinusMinus,
    Star,
    StarEqual,
    Slash,
    SlashEqual,
    Percent,
    PercentEqual,
    Equal,
    EqualEqual,
    BangEqual,
    Less,
    LessEqual,
    LessLess,
    LessLessEqual,
    Greater,
    GreaterEqual,
    GreaterGreater,
    GreaterGreaterEqual,
    Bang,
    Tilde,
    Ampersand,
    AmpersandEqual,
    AmpersandAmpersand,
    Caret,
    CaretEqual,
    Pipe,
    PipeEqual,
    PipePipe,
    Comma,
    Eof,
    Hash,
    Newline,
    Dot,
    Arrow,
}

/// A number that tells the variants of [`TokenKind`] apart.
pub open spec fn spec_kind_tag(k: TokenKind) -> nat {
    match k {
        TokenKind::KwInt => 0,
        TokenKind::KwChar => 1,
        TokenKind::KwUnsigned => 2,
        TokenKind::KwSigned => 3,
        TokenKind::KwLong => 4,
        TokenKind::KwConst => 5,
        TokenKind::KwReturn => 6,
        TokenKind::KwIf => 7,
        TokenKind::KwElse => 8,
        TokenKind::KwWhile => 9,
        TokenKind::KwBreak => 10,
        TokenKind::KwContinue => 11,
        TokenKind::KwFor => 12,
        TokenKind::KwDo => 13,
        TokenKind::KwTypedef => 14,
        TokenKind::KwSizeof => 15,
        TokenKind::KwVoid => 16,
        TokenKind::KwStatic => 17,
        TokenKind::KwExtern => 18,
        TokenKind::KwStruct => 19,
        TokenKind::Ident(_) => 20,
        TokenKind::IntLiteral { .. } => 21,
        TokenKind::CharLiteral(_) => 22,
        TokenKind::StringLiteral(_) => 23,
        TokenKind::LParen => 24,
        TokenKind::RParen => 25,
        TokenKind::LBrace => 26,
        TokenKind::RBrace => 27,
        TokenKind::LBracket => 28,
        TokenKind::RBracket => 29,
        TokenKind::Semicolon => 30,
        TokenKind::Plus => 31,
        TokenKind::PlusEqual => 32,
        TokenKind::PlusPlus => 33,
        TokenKind::Minus => 34,
        TokenKind::MinusEqual => 35,
        TokenKind::MinusMinus => 36,
        TokenKind::Star => 37,
        TokenKind::StarEqual => 38,
        TokenKind::Slash => 39,
        TokenKind::SlashEqual => 40,
        TokenKind::Percent => 41,
        TokenKind::PercentEqual => 42,
        TokenKind::Equal => 43,
        TokenKind::EqualEqual => 44,
        TokenKind::BangEqual => 45,
        TokenKind::Less => 46,
        TokenKind::LessEqual => 47,
        TokenKind::LessLess => 48,
        TokenKind::LessLessEqual => 49,
        TokenKind::Greater => 50,
        TokenKind::GreaterEqual => 51,
        TokenKind::GreaterGreater => 52,
        TokenKind::GreaterGreaterEqual => 53,
        TokenKind::Bang => 54,
        TokenKind::Tilde => 55,
        TokenKind::Ampersand => 56,
        TokenKind::AmpersandEqual => 57,
        TokenKind::AmpersandAmpersand => 58,
        TokenKind::Caret => 59,
        TokenKind::CaretEqual => 60,
        TokenKind::Pipe => 61,
        TokenKind::PipeEqual => 62,
        TokenKind::PipePipe => 63,
        TokenKind::Comma => 64,
        TokenKind::Eof => 65,
        TokenKind::Hash => 66,
        TokenKind::Newline => 67,
        TokenKind::Dot => 68,
        TokenKind::Arrow => 69,
    }
}

/// The variant number of a token kind.
pub fn kind_tag(k: &TokenKind) -> (t: u8)
    ensures
        t == spec_kind_tag(*k),
{
    match k {
        TokenKind::KwInt => 0,
        TokenKind::KwChar => 1,
        TokenKind::KwUnsigned => 2,
        TokenKind::KwSigned => 3,
        TokenKind::KwLong => 4,
        TokenKind::KwConst => 5,
        TokenKind::KwReturn => 6,
        TokenKind::KwIf => 7,
        TokenKind::KwElse => 8,
        TokenKind::KwWhile => 9,
        TokenKind::KwBreak => 10,
        TokenKind::KwContinue => 11,
        TokenKind::KwFor => 12,
        TokenKind::KwDo => 13,
        TokenKind::KwTypedef => 14,
        TokenKind::KwSizeof => 15,
        TokenKind::KwVoid => 16,
        TokenKind::KwStatic => 17,
        TokenKind::KwExtern => 18,
        TokenKind::KwStruct => 19,
        TokenKind::Ident(_) => 20,
        TokenKind::IntLiteral { .. } => 21,
        TokenKind::CharLiteral(_) => 22,
        TokenKind::StringLiteral(_) => 23,
        TokenKind::LParen => 24,
        TokenKind::RParen => 25,
        TokenKind::LBrace => 26,
        TokenKind::RBrace => 27,
        TokenKind::LBracket => 28,
        TokenKind::RBracket => 29,
        TokenKind::Semicolon => 30,
        TokenKind::Plus => 31,
        TokenKind::PlusEqual => 32,
        TokenKind::PlusPlus => 33,
        TokenKind::Minus => 34,
        TokenKind::MinusEqual => 35,
        TokenKind::MinusMinus => 36,
        TokenKind::Star => 37,
        TokenKind::StarEqual => 38,
        TokenKind::Slash => 39,
        TokenKind::SlashEqual => 40,
        TokenKind::Percent => 41,
        TokenKind::PercentEqual => 42,
        TokenKind::Equal => 43,
        TokenKind::EqualEqual => 44,
        TokenKind::BangEqual => 45,
        TokenKind::Less => 46,
        TokenKind::LessEqual => 47,
        TokenKind::LessLess => 48,
        TokenKind::LessLessEqual => 49,
        TokenKind::Greater => 50,
        TokenKind::GreaterEqual => 51,
        TokenKind::GreaterGreater => 52,
        TokenKind::GreaterGreaterEqual => 53,
        TokenKind::Bang => 54,
        TokenKind::Tilde => 55,
        TokenKind::Ampersand => 56,
        TokenKind::AmpersandEqual => 57,
        TokenKind::AmpersandAmpersand => 58,
        TokenKind::Caret => 59,
        TokenKind::CaretEqual => 60,
        TokenKind::Pipe => 61,
        TokenKind::PipeEqual => 62,
        TokenKind::PipePipe => 63,
        TokenKind::Comma => 64,
        TokenKind::Eof => 65,
        TokenKind::Hash => 66,
        TokenKind::Newline => 67,
        TokenKind::Dot => 68,
        TokenKind::Arrow => 69,
    }
}

/// The suffix word of an integer literal in the `Debug` spelling.
pub open spec fn spec_suffix_debug(x: IntLiteralSuffix) -> Seq<char> {
    match x {
        IntLiteralSuffix::Unsuffixed => "None"@,
        IntLiteralSuffix::Unsigned => "Unsigned"@,
        IntLiteralSuffix::Long => "Long"@,
        IntLiteralSuffix::UnsignedLong => "UnsignedLong"@,
    }
}

/// The base word of an integer literal in the `Debug` spelling.
pub open spec fn spec_base_debug(b: IntLiteralBase) -> Seq<char> {
    match b {
        IntLiteralBase::Decimal => "Decimal"@,
        IntLiteralBase::Hex => "Hex"@,
    }
}

/// Bytes written in decimal, separated by `, `.
pub open spec fn spec_bytes_debug(bytes: Seq<u8>) -> Seq<char>
    decreases bytes.len(),
{
    if bytes.len() == 0 {
        Seq::empty()
    } else if bytes.len() == 1 {
        spec_decimal(bytes[0] as nat)
    } else {
        spec_bytes_debug(bytes.drop_last()) + ", "@ + spec_decimal(bytes.last() as nat)
    }
}

/// The `Debug` spelling of a token kind.
pub open spec fn spec_kind_debug(k: TokenKind) -> Seq<char> {
    match k {
        TokenKind::KwInt => "KwInt"@,
        TokenKind::KwChar => "KwChar"@,
        TokenKind::KwUnsigned => "KwUnsigned"@,
        TokenKind::KwSigned => "KwSigned"@,
        TokenKind::KwLong => "KwLong"@,
        TokenKind::KwConst => "KwConst"@,
        TokenKind::KwReturn => "KwReturn"@,
        TokenKind::KwIf => "KwIf"@,
        TokenKind::KwElse => "KwElse"@,
        TokenKind::KwWhile => "KwWhile"@,
        TokenKind::KwBreak => "KwBreak"@,
        TokenKind::KwContinue => "KwContinue"@,
        TokenKind::KwFor => "KwFor"@,
        TokenKind::KwDo => "KwDo"@,
        TokenKind::KwTypedef => "KwTypedef"@,
        TokenKind::KwSizeof => "KwSizeof"@,
        TokenKind::KwVoid => "KwVoid"@,
        TokenKind::KwStatic => "KwStatic"@,
        TokenKind::KwExtern => "KwExtern"@,
        TokenKind::KwStruct => "KwStruct"@,
        TokenKind::LParen => "LParen"@,
        TokenKind::RParen => "RParen"@,
        TokenKind::LBrace => "LBrace"@,
        TokenKind::RBrace => "RBrace"@,
        TokenKind::LBracket => "LBracket"@,
        TokenKind::RBracket => "RBracket"@,
        TokenKind::Semicolon => "Semicolon"@,
        TokenKind::Plus => "Plus"@,
        TokenKind::PlusEqual => "PlusEqual"@,
        TokenKind::PlusPlus => "PlusPlus"@,
        TokenKind::Minus => "Minus"@,
        TokenKind::MinusEqual => "MinusEqual"@,
        TokenKind::MinusMinus => "MinusMinus"@,
        TokenKind::Star => "Star"@,
        TokenKind::StarEqual => "StarEqual"@,
        TokenKind::Slash => "Slash"@,
        TokenKind::SlashEqual => "SlashEqual"@,
        TokenKind::Percent => "Percent"@,
        TokenKind::PercentEqual => "PercentEqual"@,
        TokenKind::Equal => "Equal"@,
        TokenKind::EqualEqual => "EqualEqual"@,
        TokenKind::BangEqual => "BangEqual"@,
        TokenKind::Less => "Less"@,
        TokenKind::LessEqual => "LessEqual"@,
        TokenKind::LessLess => "LessLess"@,
        TokenKind::LessLessEqual => "LessLessEqual"@,
        TokenKind::Greater => "Greater"@,
        TokenKind::GreaterEqual => "GreaterEqual"@,
        TokenKind::GreaterGreater => "GreaterGreater"@,
        TokenKind::GreaterGreaterEqual => "GreaterGreaterEqual"@,
        TokenKind::Bang => "Bang"@,
        TokenKind::Tilde => "Tilde"@,
        TokenKind::Ampersand => "Ampersand"@,
        TokenKind::AmpersandEqual => "AmpersandEqual"@,
        TokenKind::AmpersandAmpersand => "AmpersandAmpersand"@,
        TokenKind::Caret => "Caret"@,
        TokenKind::CaretEqual => "CaretEqual"@,
        TokenKind::Pipe => "Pipe"@,
        TokenKind::PipeEqual => "PipeEqual"@,
        TokenKind::PipePipe => "PipePipe"@,
        TokenKind::Comma => "Comma"@,
        TokenKind::Eof => "Eof"@,
        TokenKind::Hash => "Hash"@,
        TokenKind::Newline => "Newline"@,
        TokenKind::Dot => "Dot"@,
        TokenKind::Arrow => "Arrow"@,
        TokenKind::Ident(name) => "Ident(\""@ + name@ + "\")"@,
        TokenKind::IntLiteral { value, suffix, base } => "IntLiteral { value: "@ + spec_decimal(value as nat) + ", suffix: "@
            + spec_suffix_debug(suffix) + ", base: "@ + spec_base_debug(base) + " }"@,
        TokenKind::CharLiteral(v) => "CharLiteral("@ + spec_signed_decimal(v as int) + ")"@,
        TokenKind::StringLiteral(bytes) => "StringLiteral(["@ + spec_bytes_debug(bytes@) + "])"@,
    }
}

/// Kinds that agree have the same `Debug` spelling.
pub proof fn lemma_kind_debug_eq(a: TokenKind, b: TokenKind)
    requires
        spec_kind_eq(a, b),
    ensures
        spec_kind_debug(a) == spec_kind_debug(b),
{
}

/// Appends the `Debug` spelling of a token kind.
pub fn push_kind_debug(s: &mut String, k: &TokenKind)
    ensures
        final(s)@ == old(s)@ + spec_kind_debug(*k),
{
    match k {
        TokenKind::KwInt => push_str(s, "KwInt"),
        TokenKind::KwChar => push_str(s, "KwChar"),
        TokenKind::KwUnsigned => push_str(s, "KwUnsigned"),
        TokenKind::KwSigned => push_str(s, "KwSigned"),
        TokenKind::KwLong => push_str(s, "KwLong"),
        TokenKind::KwConst => push_str(s, "KwConst"),
        TokenKind::KwReturn => push_str(s, "KwReturn"),
        TokenKind::KwIf => push_str(s, "KwIf"),
        TokenKind::KwElse => push_str(s, "KwElse"),
        TokenKind::KwWhile => push_str(s, "KwWhile"),
        TokenKind::KwBreak => push_str(s, "KwBreak"),
        TokenKind::KwContinue => push_str(s, "KwContinue"),
        TokenKind::KwFor => push_str(s, "KwFor"),
        TokenKind::KwDo => push_str(s, "KwDo"),
        TokenKind::KwTypedef => push_str(s, "KwTypedef"),
        TokenKind::KwSizeof => push_str(s, "KwSizeof"),
        TokenKind::KwVoid => push_str(s, "KwVoid"),
        TokenKind::KwStatic => push_str(s, "KwStatic"),
        TokenKind::KwExtern => push_str(s, "KwExtern"),
        TokenKind::KwStruct => push_str(s, "KwStruct"),
        TokenKind::Ident(name) => {
            push_str(s, "Ident(\"");
            push_str(s, name.as_str());
            push_str(s, "\")");
            proof {
                assert(s@ =~= old(s)@ + spec_kind_debug(*k));
            }
        },
        TokenKind::IntLiteral { value, suffix, base } => {
            push_str(s, "IntLiteral { value: ");
            push_u64(s, *value);
            push_str(s, ", suffix: ");
            push_str(s, match suffix {
                IntLiteralSuffix::Unsuffixed => "None",
                IntLiteralSuffix::Unsigned => "Unsigned",
                IntLiteralSuffix::Long => "Long",
                IntLiteralSuffix::UnsignedLong => "UnsignedLong",
            });
            push_str(s, ", base: ");
            push_str(s, match base {
                IntLiteralBase::Decimal => "Decimal",
                IntLiteralBase::Hex => "Hex",
            });
            push_str(s, " }");
            proof {
                assert(s@ =~= old(s)@ + spec_kind_debug(*k));
            }
        },
        TokenKind::CharLiteral(v) => {
            push_str(s, "CharLiteral(");
            push_i64(s, *v as i64);
            push_str(s, ")");
            proof {
                assert(s@ =~= old(s)@ + spec_kind_debug(*k));
            }
        },
        TokenKind::StringLiteral(bytes) => {
            push_str(s, "StringLiteral([");
            let ghost s0 = s@;
            let mut i: usize = 0;
            while i < bytes.len()
                invariant
                    i <= bytes@.len(),
                    s@ == s0 + spec_bytes_debug(bytes@.take(i as int)),
                decreases bytes.len() - i,
            {
                proof {
                    assert(bytes@.take(i + 1).drop_last() =~= bytes@.take(i as int));
                    if i == 0 {
                        assert(bytes@.take(0) =~= Seq::<u8>::empty());
                    }
                }
                if i > 0 {
                    push_str(s, ", ");
                }
                push_u64(s, bytes[i] as u64);
                i = i + 1;
                proof {
                    assert(s@ =~= s0 + spec_bytes_debug(bytes@.take(i as int)));
                }
            }
            proof {
                assert(bytes@.take(i as int) =~= bytes@);
            }
            push_str(s, "])");
            proof {
                assert(s@ =~= old(s)@ + spec_kind_debug(*k));
            }
        },
        TokenKind::LParen => push_str(s, "LParen"),
        TokenKind::RParen => push_str(s, "RParen"),
        TokenKind::LBrace => push_str(s, "LBrace"),
        TokenKind::RBrace => push_str(s, "RBrace"),
        TokenKind::LBracket => push_str(s, "LBracket"),
        TokenKind::RBracket => push_str(s, "RBracket"),
        TokenKind::Semicolon => push_str(s, "Semicolon"),
        TokenKind::Plus => push_str(s, "Plus"),
        TokenKind::PlusEqual => push_str(s, "PlusEqual"),
        TokenKind::PlusPlus => push_str(s, "PlusPlus"),
        TokenKind::Minus => push_str(s, "Minus"),
        TokenKind::MinusEqual => push_str(s, "MinusEqual"),
        TokenKind::MinusMinus => push_str(s, "MinusMinus"),
        TokenKind::Star => push_str(s, "Star"),
        TokenKind::StarEqual => push_str(s, "StarEqual"),
        TokenKind::Slash => push_str(s, "Slash"),
        TokenKind::SlashEqual => push_str(s, "SlashEqual"),
        TokenKind::Percent => push_str(s, "Percent"),
        TokenKind::PercentEqual => push_str(s, "PercentEqual"),
        TokenKind::Equal => push_str(s, "Equal"),
        TokenKind::EqualEqual => push_str(s, "EqualEqual"),
        TokenKind::BangEqual => push_str(s, "BangEqual"),
        TokenKind::Less => push_str(s, "Less"),
        TokenKind::LessEqual => push_str(s, "LessEqual"),
        TokenKind::LessLess => push_str(s, "LessLess"),
        TokenKind::LessLessEqual => push_str(s, "LessLessEqual"),
        TokenKind::Greater => push_str(s, "Greater"),
        TokenKind::GreaterEqual => push_str(s, "GreaterEqual"),
        TokenKind::GreaterGreater => push_str(s, "GreaterGreater"),
        TokenKind::GreaterGreaterEqual => push_str(s, "GreaterGreaterEqual"),
        TokenKind::Bang => push_str(s, "Bang"),
        TokenKind::Tilde => push_str(s, "Tilde"),
        TokenKind::Ampersand => push_str(s, "Ampersand"),
        TokenKind::AmpersandEqual => push_str(s, "AmpersandEqual"),
        TokenKind::AmpersandAmpersand => push_str(s, "AmpersandAmpersand"),
        TokenKind::Caret => push_str(s, "Caret"),
        TokenKind::CaretEqual => push_str(s, "CaretEqual"),
        TokenKind::Pipe => push_str(s, "Pipe"),
        TokenKind::PipeEqual => push_str(s, "PipeEqual"),
        TokenKind::PipePipe => push_str(s, "PipePipe"),
        TokenKind::Comma => push_str(s, "Comma"),
        TokenKind::Eof => push_str(s, "Eof"),
        TokenKind::Hash => push_str(s, "Hash"),
        TokenKind::Newline => push_str(s, "Newline"),
        TokenKind::Dot => push_str(s, "Dot"),
        TokenKind::Arrow => push_str(s, "Arrow"),
    }
}
/// A copy of a kind that carries no payload.
fn copy_unit_kind(k: &TokenKind) -> (r: TokenKind)
    requires
        !spec_kind_has_payload(*k),
    ensures
        r == *k,
{
    match k {
        TokenKind::KwInt => TokenKind::KwInt,
        TokenKind::KwChar => TokenKind::KwChar,
        TokenKind::KwUnsigned => TokenKind::KwUnsigned,
        TokenKind::KwSigned => TokenKind::KwSigned,
        TokenKind::KwLong => TokenKind::KwLong,
        TokenKind::KwConst => TokenKind::KwConst,
        TokenKind::KwReturn => TokenKind::KwReturn,
        TokenKind::KwIf => TokenKind::KwIf,
        TokenKind::KwElse => TokenKind::KwElse,
        TokenKind::KwWhile => TokenKind::KwWhile,
        TokenKind::KwBreak => TokenKind::KwBreak,
        TokenKind::KwContinue => TokenKind::KwContinue,
        TokenKind::KwFor => TokenKind::KwFor,
        TokenKind::KwDo => TokenKind::KwDo,
        TokenKind::KwTypedef => TokenKind::KwTypedef,
        TokenKind::KwSizeof => TokenKind::KwSizeof,
        TokenKind::KwVoid => TokenKind::KwVoid,
        TokenKind::KwStatic => TokenKind::KwStatic,
        TokenKind::KwExtern => TokenKind::KwExtern,
        TokenKind::KwStruct => TokenKind::KwStruct,
        TokenKind::LParen => TokenKind::LParen,
        TokenKind::RParen => TokenKind::RParen,
        TokenKind::LBrace => TokenKind::LBrace,
        TokenKind::RBrace => TokenKind::RBrace,
        TokenKind::LBracket => TokenKind::LBracket,
        TokenKind::RBracket => TokenKind::RBracket,
        TokenKind::Semicolon => TokenKind::Semicolon,
        TokenKind::Plus => TokenKind::Plus,
        TokenKind::PlusEqual => TokenKind::PlusEqual,
        TokenKind::PlusPlus => TokenKind::PlusPlus,
        TokenKind::Minus => TokenKind::Minus,
        TokenKind::MinusEqual => TokenKind::MinusEqual,
        TokenKind::MinusMinus => TokenKind::MinusMinus,
        TokenKind::Star => TokenKind::Star,
        TokenKind::StarEqual => TokenKind::StarEqual,
        TokenKind::Slash => TokenKind::Slash,
        TokenKind::SlashEqual => TokenKind::SlashEqual,
        TokenKind::Percent => TokenKind::Percent,
        TokenKind::PercentEqual => TokenKind::PercentEqual,
        TokenKind::Equal => TokenKind::Equal,
        TokenKind::EqualEqual => TokenKind::EqualEqual,
        TokenKind::BangEqual => TokenKind::BangEqual,
        TokenKind::Less => TokenKind::Less,
        TokenKind::LessEqual => TokenKind::LessEqual,
        TokenKind::LessLess => TokenKind::LessLess,
        TokenKind::LessLessEqual => TokenKind::LessLessEqual,
        TokenKind::Greater => TokenKind::Greater,
        TokenKind::GreaterEqual => TokenKind::GreaterEqual,
        TokenKind::GreaterGreater => TokenKind::GreaterGreater,
        TokenKind::GreaterGreaterEqual => TokenKind::GreaterGreaterEqual,
        TokenKind::Bang => TokenKind::Bang,
        TokenKind::Tilde => TokenKind::Tilde,
        TokenKind::Ampersand => TokenKind::Ampersand,
        TokenKind::AmpersandEqual => TokenKind::AmpersandEqual,
        TokenKind::AmpersandAmpersand => TokenKind::AmpersandAmpersand,
        TokenKind::Caret => TokenKind::Caret,
        TokenKind::CaretEqual => TokenKind::CaretEqual,
        TokenKind::Pipe => TokenKind::Pipe,
        TokenKind::PipeEqual => TokenKind::PipeEqual,
        TokenKind::PipePipe => TokenKind::PipePipe,
        TokenKind::Comma => TokenKind::Comma,
        TokenKind::Eof => TokenKind::Eof,
        TokenKind::Hash => TokenKind::Hash,
        TokenKind::Newline => TokenKind::Newline,
        TokenKind::Dot => TokenKind::Dot,
        TokenKind::Arrow => TokenKind::Arrow,
        _ => TokenKind::Eof,
    }
}
/// Equality of token kinds, comparing names and byte strings by their contents.
pub open spec fn spec_kind_eq(a: TokenKind, b: TokenKind) -> bool {
    match (a, b) {
        (TokenKind::Ident(x), TokenKind::Ident(y)) => x@ == y@,
        (TokenKind::StringLiteral(x), TokenKind::StringLiteral(y)) => x@ == y@,
        _ => a == b,
    }
}

/// Kinds that carry a payload.
pub open spec fn spec_kind_has_payload(k: TokenKind) -> bool {
    20 <= spec_kind_tag(k) <= 23
}

fn bytes_eq(a: &Vec<u8>, b: &Vec<u8>) -> (r: bool)
    ensures
        r == (a@ == b@),
{
    if a.len() != b.len() {
        return false;
    }
    let mut i: usize = 0;
    while i < a.len()
        invariant
            a@.len() == b@.len(),
            i <= a@.len(),
            forall|k: int| 0 <= k < i ==> a@[k] == b@[k],
        decreases a.len() - i,
    {
        if a[i] != b[i] {
            return false;
        }
        i = i + 1;
    }
    proof {
        assert(a@ =~= b@);
    }
    true
}

/// Whether two token kinds are equal.
pub fn kind_eq(a: &TokenKind, b: &TokenKind) -> (r: bool)
    ensures
        r == spec_kind_eq(*a, *b),
{
    match (a, b) {
        (TokenKind::Ident(x), TokenKind::Ident(y)) => *x == *y,
        (TokenKind::StringLiteral(x), TokenKind::StringLiteral(y)) => bytes_eq(x, y),
        (
            TokenKind::IntLiteral { value: v1, suffix: s1, base: b1 },
            TokenKind::IntLiteral { value: v2, suffix: s2, base: b2 },
        ) => *v1 == *v2 && *s1 == *s2 && *b1 == *b2,
        (TokenKind::CharLiteral(x), TokenKind::CharLiteral(y)) => *x == *y,
        _ => {
            let ta = kind_tag(a);
            let tb = kind_tag(b);
            ta == tb && !(20 <= ta && ta <= 23)
        },
    }
}

/// A copy of a token kind.
pub fn clone_kind(k: &TokenKind) -> (r: TokenKind)
    ensures
        spec_kind_eq(r, *k),
{
    match k {
        TokenKind::Ident(name) => TokenKind::Ident(name.clone()),
        TokenKind::StringLiteral(bytes) => TokenKind::StringLiteral(bytes.clone()),
        TokenKind::IntLiteral { value, suffix, base } => TokenKind::IntLiteral {
            value: *value,
            suffix: *suffix,
            base: *base,
        },
        TokenKind::CharLiteral(v) => TokenKind::CharLiteral(*v),
        _ => {
            proof {
                assert(!spec_kind_has_payload(*k));
            }
            copy_unit_kind(k)
        },
    }
}
#[derive(Debug, Clone, PartialEq, Eq)]
pub struct Token {
    pub kind: TokenKind,
    pub span: Span,
}

/// A copy of a token.
pub fn clone_token(t: &Token) -> (r: Token)
    ensures
        spec_kind_eq(r.kind, t.kind),
        r.span == t.span,
{
    Token { kind: clone_kind(&t.kind), span: t.span }
}

#[derive(Debug, Clone, PartialEq, Eq)]
pub struct LexError {
    pub message: String,
    pub span: Span,
}

/// The keywords, by spelling.
pub open spec fn spec_keyword(s: Seq<char>) -> Option<TokenKind> {
    if s == seq!['i', 'n', 't'] { Some(TokenKind::KwInt) }
    else if s == seq!['c', 'h', 'a', 'r'] { Some(TokenKind::KwChar) }
    else if s == seq!['u', 'n', 's', 'i', 'g', 'n', 'e', 'd'] { Some(TokenKind::KwUnsigned) }
    else if s == seq!['s', 'i', 'g', 'n', 'e', 'd'] { Some(TokenKind::KwSigned) }
    else if s == seq!['l', 'o', 'n', 'g'] { Some(TokenKind::KwLong) }
    else if s == seq!['c', 'o', 'n', 's', 't'] { Some(TokenKind::KwConst) }
    else if s == seq!['r', 'e', 't', 'u', 'r', 'n'] { Some(TokenKind::KwReturn) }
    else if s == seq!['i', 'f'] { Some(TokenKind::KwIf) }
    else if s == seq!['e', 'l', 's', 'e'] { Some(TokenKind::KwElse) }
    else if s == seq!['w', 'h', 'i', 'l', 'e'] { Some(TokenKind::KwWhile) }
    else if s == seq!['b', 'r', 'e', 'a', 'k'] { Some(TokenKind::KwBreak) }
    else if s == seq!['c', 'o', 'n', 't', 'i', 'n', 'u', 'e'] { Some(TokenKind::KwContinue) }
    else if s == seq!['f', 'o', 'r'] { Some(TokenKind::KwFor) }
    else if s == seq!['d', 'o'] { Some(TokenKind::KwDo) }
    else if s == seq!['t', 'y', 'p', 'e', 'd', 'e', 'f'] { Some(TokenKind::KwTypedef) }
    else if s == seq!['s', 'i', 'z', 'e', 'o', 'f'] { Some(TokenKind::KwSizeof) }
    else if s == seq!['v', 'o', 'i', 'd'] { Some(TokenKind::KwVoid) }
    else if s == seq!['s', 't', 'a', 't', 'i', 'c'] { Some(TokenKind::KwStatic) }
    else if s == seq!['e', 'x', 't', 'e', 'r', 'n'] { Some(TokenKind::KwExtern) }
    else if s == seq!['s', 't', 'r', 'u', 'c', 't'] { Some(TokenKind::KwStruct) }
    else { None }
}

fn eq_chars(a: &Vec<char>, b: &[char]) -> (r: bool)
    ensures
        r == (a@ == b@),
{
    if a.len() != b.len() {
        return false;
    }
    let mut i: usize = 0;
    while i < a.len()
        invariant
            a@.len() == b@.len(),
            i <= a@.len(),
            forall|k: int| 0 <= k < i ==> a@[k] == b@[k],
        decreases a.len() - i,
    {
        if a[i] != b[i] {
            return false;
        }
        i = i + 1;
    }
    proof {
        assert(a@ =~= b@);
    }
    true
}

/// The keyword spelled by `text`, if any.
pub fn keyword_kind(text: &Vec<char>) -> (k: Option<TokenKind>)
    ensures
        k == spec_keyword(text@),
{
    if eq_chars(text, &['i', 'n', 't']) { proof { assert(text@ =~= seq!['i', 'n', 't']); } Some(TokenKind::KwInt) }
    else if eq_chars(text, &['c', 'h', 'a', 'r']) { proof { assert(text@ =~= seq!['c', 'h', 'a', 'r']); } Some(TokenKind::KwChar) }
    else if eq_chars(text, &['u', 'n', 's', 'i', 'g', 'n', 'e', 'd']) { proof { assert(text@ =~= seq!['u', 'n', 's', 'i', 'g', 'n', 'e', 'd']); } Some(TokenKind::KwUnsigned) }
    else if eq_chars(text, &['s', 'i', 'g', 'n', 'e', 'd']) { proof { assert(text@ =~= seq!['s', 'i', 'g', 'n', 'e', 'd']); } Some(TokenKind::KwSigned) }
    else if eq_chars(text, &['l', 'o', 'n', 'g']) { proof { assert(text@ =~= seq!['l', 'o', 'n', 'g']); } Some(TokenKind::KwLong) }
    else if eq_chars(text, &['c', 'o', 'n', 's', 't']) { proof { assert(text@ =~= seq!['c', 'o', 'n', 's', 't']); } Some(TokenKind::KwConst) }
    else if eq_chars(text, &['r', 'e', 't', 'u', 'r', 'n']) { proof { assert(text@ =~= seq!['r', 'e', 't', 'u', 'r', 'n']); } Some(TokenKind::KwReturn) }
    else if eq_chars(text, &['i', 'f']) { proof { assert(text@ =~= seq!['i', 'f']); } Some(TokenKind::KwIf) }
    else if eq_chars(text, &['e', 'l', 's', 'e']) { proof { assert(text@ =~= seq!['e', 'l', 's', 'e']); } Some(TokenKind::KwElse) }
    else if eq_chars(text, &['w', 'h', 'i', 'l', 'e']) { proof { assert(text@ =~= seq!['w', 'h', 'i', 'l', 'e']); } Some(TokenKind::KwWhile) }
    else if eq_chars(text, &['b', 'r', 'e', 'a', 'k']) { proof { assert(text@ =~= seq!['b', 'r', 'e', 'a', 'k']); } Some(TokenKind::KwBreak) }
    else if eq_chars(text, &['c', 'o', 'n', 't', 'i', 'n', 'u', 'e']) { proof { assert(text@ =~= seq!['c', 'o', 'n', 't', 'i', 'n', 'u', 'e']); } Some(TokenKind::KwContinue) }
    else if eq_chars(text, &['f', 'o', 'r']) { proof { assert(text@ =~= seq!['f', 'o', 'r']); } Some(TokenKind::KwFor) }
    else if eq_chars(text, &['d', 'o']) { proof { assert(text@ =~= seq!['d', 'o']); } Some(TokenKind::KwDo) }
    else if eq_chars(text, &['t', 'y', 'p', 'e', 'd', 'e', 'f']) { proof { assert(text@ =~= seq!['t', 'y', 'p', 'e', 'd', 'e', 'f']); } Some(TokenKind::KwTypedef) }
    else if eq_chars(text, &['s', 'i', 'z', 'e', 'o', 'f']) { proof { assert(text@ =~= seq!['s', 'i', 'z', 'e', 'o', 'f']); } Some(TokenKind::KwSizeof) }
    else if eq_chars(text, &['v', 'o', 'i', 'd']) { proof { assert(text@ =~= seq!['v', 'o', 'i', 'd']); } Some(TokenKind::KwVoid) }
    else if eq_chars(text, &['s', 't', 'a', 't', 'i', 'c']) { proof { assert(text@ =~= seq!['s', 't', 'a', 't', 'i', 'c']); } Some(TokenKind::KwStatic) }
    else if eq_chars(text, &['e', 'x', 't', 'e', 'r', 'n']) { proof { assert(text@ =~= seq!['e', 'x', 't', 'e', 'r', 'n']); } Some(TokenKind::KwExtern) }
    else if eq_chars(text, &['s', 't', 'r', 'u', 'c', 't']) { proof { assert(text@ =~= seq!['s', 't', 'r', 'u', 'c', 't']); } Some(TokenKind::KwStruct) }
    else { None }
}

/// The value of a digit character in the given radix, if it is one.
pub open spec fn spec_digit_value(c: char, radix: u32) -> Option<u64> {
    if '0' <= c <= '9' && (c as u32) - ('0' as u32) < radix {
        Some(((c as u32) - ('0' as u32)) as u64)
    } else if radix == 16 && 'a' <= c <= 'f' {
        Some(((c as u32) - ('a' as u32) + 10) as u64)
    } else if radix == 16 && 'A' <= c <= 'F' {
        Some(((c as u32) - ('A' as u32) + 10) as u64)
    } else {
        None
    }
}

/// The number written by a sequence of digits in the given radix (most significant first).
pub open spec fn spec_digits_value(s: Seq<char>, radix: u32) -> int
    decreases s.len(),
{
    if s.len() == 0 {
        0
    } else {
        spec_digits_value(s.drop_last(), radix) * radix + spec_digit_value(s.last(), radix).unwrap()
    }
}

/// All characters are digits in the radix.
pub open spec fn spec_all_digits(s: Seq<char>, radix: u32) -> bool {
    forall|i: int| 0 <= i < s.len() ==> #[trigger] spec_digit_value(s[i], radix) is Some
}

fn digit_value(c: char, radix: u32) -> (v: Option<u64>)
    requires
        radix == 10 || radix == 16,
    ensures
        v == spec_digit_value(c, radix),
{
    if '0' <= c && c <= '9' && (c as u32) - ('0' as u32) < radix {
        Some(((c as u32) - ('0' as u32)) as u64)
    } else if radix == 16 && 'a' <= c && c <= 'f' {
        Some(((c as u32) - ('a' as u32) + 10) as u64)
    } else if radix == 16 && 'A' <= c && c <= 'F' {
        Some(((c as u32) - ('A' as u32) + 10) as u64)
    } else {
        None
    }
}

proof fn lemma_digits_value_nonneg(s: Seq<char>, radix: u32)
    requires
        spec_all_digits(s, radix),
        radix > 0,
    ensures
        spec_digits_value(s, radix) >= 0,
    decreases s.len(),
{
    if s.len() > 0 {
        assert(spec_all_digits(s.drop_last(), radix));
        lemma_digits_value_nonneg(s.drop_last(), radix);
        assert(spec_digit_value(s[s.len() - 1], radix) is Some);
        let v = spec_digits_value(s.drop_last(), radix);
        assert(v * radix >= 0) by (nonlinear_arith)
            requires
                v >= 0,
        ;
    }
}

proof fn lemma_digits_value_grows(s: Seq<char>, radix: u32)
    requires
        spec_all_digits(s, radix),
        s.len() > 0,
        radix > 0,
    ensures
        spec_digits_value(s, radix) >= spec_digits_value(s.drop_last(), radix),
{
    assert(spec_all_digits(s.drop_last(), radix));
    lemma_digits_value_nonneg(s.drop_last(), radix);
    assert(spec_digit_value(s[s.len() - 1], radix) is Some);
    let v = spec_digits_value(s.drop_last(), radix);
    assert(v * radix >= v) by (nonlinear_arith)
        requires
            v >= 0,
            radix > 0,
    ;
}

/// `u64::from_str_radix` on a digit string: the number written, when it fits in 64 bits.
fn parse_digits(text: &Vec<char>, radix: u32) -> (v: Option<u64>)
    requires
        radix == 10 || radix == 16,
        spec_all_digits(text@, radix),
    ensures
        match v {
            Some(n) => n == spec_digits_value(text@, radix),
            None => spec_digits_value(text@, radix) > u64::MAX,
        },
{
    let mut value: u64 = 0;
    let mut i: usize = 0;
    while i < text.len()
        invariant
            radix == 10 || radix == 16,
            spec_all_digits(text@, radix),
            i <= text@.len(),
            value == spec_digits_value(text@.take(i as int), radix),
        decreases text.len() - i,
    {
        let d = match digit_value(text[i], radix) {
            Some(d) => d,
            None => 0,
        };
        proof {
            assert(spec_digit_value(text@[i as int], radix) is Some);
            assert(text@.take(i + 1).drop_last() =~= text@.take(i as int));
            assert(text@.take(i + 1).last() == text@[i as int]);
        }
        let m = value.checked_mul(radix as u64);
        match m {
            None => {
                proof {
                    lemma_prefix_value_bound(text@, radix, i as int + 1);
                }
                return None;
            },
            Some(m) => match m.checked_add(d) {
                None => {
                    proof {
                        lemma_prefix_value_bound(text@, radix, i as int + 1);
                    }
                    return None;
                },
                Some(n) => {
                    value = n;
                },
            },
        }
        i = i + 1;
    }
    proof {
        assert(text@.take(i as int) =~= text@);
    }
    Some(value)
}

proof fn lemma_prefix_value_bound(s: Seq<char>, radix: u32, k: int)
    requires
        spec_all_digits(s, radix),
        0 <= k <= s.len(),
        radix > 0,
    ensures
        spec_digits_value(s.take(k), radix) <= spec_digits_value(s, radix),
    decreases s.len() - k,
{
    if k < s.len() {
        lemma_prefix_value_bound(s, radix, k + 1);
        let t = s.take(k + 1);
        assert(spec_all_digits(t, radix));
        lemma_digits_value_grows(t, radix);
        assert(t.drop_last() =~= s.take(k));
    } else {
        assert(s.take(k) =~= s);
    }
}

/// The lexer state: the source characters, the position in them, the byte
/// offset of that position, and the tokens produced so far.
struct Lexer {
    chars: Vec<char>,
    pos: usize,
    offset: usize,
    tokens: Vec<Token>,
    file_id: FileId,
}

/// Token spans lie in the given file, within `[0, limit]`, in order, and no token is the end marker.
#[verifier::opaque]
pub open spec fn spans_in_order(tokens: Seq<Token>, file_id: FileId, limit: usize) -> bool {
    &&& forall|i: int| 0 <= i < tokens.len() ==> {
        &&& (#[trigger] tokens[i]).span.file_id == file_id
        &&& tokens[i].span.start <= tokens[i].span.end <= limit
        &&& !(tokens[i].kind is Eof)
    }
    &&& forall|i: int| 0 < i < tokens.len() ==> tokens[i - 1].span.end <= (#[trigger] tokens[i]).span.start
}

proof fn lemma_spans_push(tokens: Seq<Token>, t: Token, file_id: FileId, limit: usize)
    requires
        spans_in_order(tokens, file_id, limit),
        !(t.kind is Eof),
        t.span.file_id == file_id,
        t.span.start <= t.span.end <= limit,
        tokens.len() > 0 ==> tokens.last().span.end <= t.span.start,
    ensures
        spans_in_order(tokens.push(t), file_id, limit),
{
    reveal(spans_in_order);
    assert forall|i: int| 0 < i < tokens.push(t).len() implies tokens.push(t)[i - 1].span.end
        <= (#[trigger] tokens.push(t)[i]).span.start by {
        if i < tokens.len() {
            assert(tokens.push(t)[i] == tokens[i]);
            assert(tokens.push(t)[i - 1] == tokens[i - 1]);
        }
    }
}

proof fn lemma_spans_widen(tokens: Seq<Token>, file_id: FileId, limit: usize, limit2: usize)
    requires
        spans_in_order(tokens, file_id, limit),
        limit <= limit2,
    ensures
        spans_in_order(tokens, file_id, limit2),
        tokens.len() > 0 ==> tokens.last().span.end <= limit,
{
    reveal(spans_in_order);
    if tokens.len() > 0 {
        assert(tokens[tokens.len() - 1] == tokens.last());
    }
}

impl Lexer {
    spec fn inv(&self) -> bool {
        &&& self.pos <= self.chars@.len()
        &&& spec_byte_len(self.chars@) < usize::MAX
        &&& self.offset == spec_byte_len(self.chars@.take(self.pos as int))
        &&& spans_in_order(self.tokens@, self.file_id, self.offset)
        &&& self.tokens@.len() > 0 ==> self.tokens@.last().span.end <= self.offset
    }

    /// The source is unchanged, the position moved forward, and the tokens only grew.
    spec fn moved_on(&self, old: &Lexer) -> bool {
        &&& self.chars@ == old.chars@
        &&& self.file_id == old.file_id
        &&& self.pos >= old.pos
        &&& self.offset >= old.offset
    }

    /// The state after the step `s` taken from `old`, when it does not fail.
    spec fn follows(&self, old: &Lexer, s: LexStep) -> bool {
        match s {
            LexStep::Skip(q) => self.pos == q && self.tokens@ == old.tokens@,
            LexStep::Emit { tok, start, end, next } => {
                &&& self.pos == next
                &&& self.tokens@.len() == old.tokens@.len() + 1
                &&& self.tokens@.drop_last() == old.tokens@
                &&& spec_denotes(self.tokens@.last().kind, tok)
                &&& self.tokens@.last().span == spec_span(self.chars@, self.file_id, start, end)
            },
            LexStep::Fail { .. } => false,
        }
    }

    /// `r` is the token or the error that the step `s` taken from `old` gives,
    /// and the lexer stands where the step ends.
    spec fn gives(&self, old: &Lexer, r: Result<Token, LexError>, s: LexStep) -> bool {
        &&& self.pos == spec_step_next(s)
        &&& match s {
            LexStep::Emit { tok, start, end, .. } => r matches Ok(t) && spec_denotes(t.kind, tok)
                && t.span == spec_span(self.chars@, self.file_id, start, end),
            LexStep::Fail { message, end } => r matches Err(e) && e.message@ == message
                && e.span == spec_span(self.chars@, self.file_id, old.pos as int, end),
            LexStep::Skip(_) => false,
        }
    }

    fn peek(&self) -> (c: Option<char>)
        ensures
            self.pos < self.chars@.len() ==> c == Some(self.chars@[self.pos as int]),
            self.pos >= self.chars@.len() ==> c is None,
    {
        if self.pos < self.chars.len() {
            Some(self.chars[self.pos])
        } else {
            None
        }
    }

    fn peek_second(&self) -> (c: Option<char>)
        ensures
            self.pos + 1 < self.chars@.len() ==> c == Some(self.chars@[self.pos + 1]),
            self.pos + 1 >= self.chars@.len() ==> c is None,
    {
        if self.pos < self.chars.len() && self.chars.len() - self.pos > 1 {
            Some(self.chars[self.pos + 1])
        } else {
            None
        }
    }

    fn eof(&self) -> (b: bool)
        ensures
            b == (self.pos >= self.chars@.len()),
    {
        self.pos >= self.chars.len()
    }

    fn advance(&mut self) -> (c: Option<char>)
        requires
            old(self).inv(),
        ensures
            final(self).inv(),
            final(self).moved_on(old(self)),
            final(self).tokens@ == old(self).tokens@,
            final(self).offset >= old(self).offset,
            old(self).pos < old(self).chars@.len() ==> {
                &&& c == Some(old(self).chars@[old(self).pos as int])
                &&& final(self).pos == old(self).pos + 1
                &&& final(self).offset > old(self).offset
            },
            old(self).pos >= old(self).chars@.len() ==> c is None && final(self).pos == old(self).pos,
    {
        if self.pos < self.chars.len() {
            let ch = self.chars[self.pos];
            proof {
                assert(self.chars@.take(self.pos + 1).drop_last() =~= self.chars@.take(self.pos as int));
                lemma_byte_len_prefix_mono(self.chars@, self.pos + 1, self.chars@.len() as int);
                assert(self.chars@.take(self.chars@.len() as int) =~= self.chars@);
            }
            self.offset = self.offset + utf8_len(ch);
            self.pos = self.pos + 1;
            proof {
                lemma_spans_widen(self.tokens@, self.file_id, old(self).offset, self.offset);
            }
            Some(ch)
        } else {
            None
        }
    }

    fn consume_if(&mut self, expected: char) -> (b: bool)
        requires
            old(self).inv(),
        ensures
            final(self).inv(),
            final(self).moved_on(old(self)),
            final(self).tokens@ == old(self).tokens@,
            b == spec_at(old(self).chars@, old(self).pos as int, expected),
            b ==> final(self).pos == old(self).pos + 1,
            final(self).offset >= old(self).offset,
            !b ==> final(self).pos == old(self).pos && final(self).offset == old(self).offset,
    {
        if self.peek() == Some(expected) {
            self.advance();
            return true;
        }
        false
    }

    fn span(&self, start: usize, end: usize) -> (s: Span)
        ensures
            s == (Span { file_id: self.file_id, start, end }),
    {
        Span::new(self.file_id, start, end)
    }

    fn push(&mut self, kind: TokenKind, span: Span)
        requires
            old(self).inv(),
            !(kind is Eof),
            span.file_id == old(self).file_id,
            span.start <= span.end <= old(self).offset,
            old(self).tokens@.len() > 0 ==> old(self).tokens@.last().span.end <= span.start,
        ensures
            final(self).inv(),
            final(self).moved_on(old(self)),
            final(self).pos == old(self).pos,
            final(self).offset == old(self).offset,
            final(self).tokens@ == old(self).tokens@.push(Token { kind, span }),
    {
        proof {
            lemma_spans_push(self.tokens@, Token { kind, span }, self.file_id, self.offset);
        }
        self.tokens.push(Token { kind, span });
    }

    fn error(&self, start: usize, message: String) -> (e: LexError)
        ensures
            e.span == (Span { file_id: self.file_id, start, end: self.offset }),
            e.message@ == message@,
    {
        LexError { message, span: self.span(start, self.offset) }
    }

    fn last_end(&self) -> (e: usize)
        requires
            self.inv(),
        ensures
            self.tokens@.len() > 0 ==> e == self.tokens@.last().span.end,
            self.tokens@.len() == 0 ==> e == 0,
            e <= self.offset,
    {
        proof {
            lemma_spans_widen(self.tokens@, self.file_id, self.offset, self.offset);
        }
        if self.tokens.len() > 0 {
            self.tokens[self.tokens.len() - 1].span.end
        } else {
            0
        }
    }

    /// Consumes one character and pushes a token spanning it.
    fn advance_and_push(&mut self, kind: TokenKind)
        requires
            old(self).inv(),
            old(self).pos < old(self).chars@.len(),
            !(kind is Eof),
        ensures
            final(self).inv(),
            final(self).moved_on(old(self)),
            final(self).pos == old(self).pos + 1,
            final(self).follows(old(self), spec_single(kind, old(self).pos as int)),
    {
        let start = self.offset;
        self.advance();
        let end = self.offset;
        let sp = self.span(start, end);
        self.push(kind, sp);
        proof {
            assert(self.tokens@.drop_last() =~= old(self).tokens@);
        }
    }

    /// Consumes one operator character, then one of the alternative second
    /// characters if it follows, and pushes the matching kind.
    fn lex_one_or_two(&mut self, single: TokenKind, second: char, double: TokenKind)
        requires
            old(self).inv(),
            old(self).pos < old(self).chars@.len(),
            !(single is Eof),
            !(double is Eof),
        ensures
            final(self).inv(),
            final(self).moved_on(old(self)),
            final(self).pos > old(self).pos,
            final(self).follows(old(self), spec_one_or_two(old(self).chars@, old(self).pos as int, single, second, double)),
    {
        let start = self.offset;
        self.advance();
        if self.consume_if(second) {
            let end = self.offset;
            let sp = self.span(start, end);
            self.push(double, sp);
            proof {
                assert(self.tokens@.drop_last() =~= old(self).tokens@);
            }
            return;
        }
        let end = self.offset;
        let sp = self.span(start, end);
        self.push(single, sp);
        proof {
            assert(self.tokens@.drop_last() =~= old(self).tokens@);
        }
    }

    /// As [`Lexer::lex_one_or_two`], with two alternative second characters tried in order.
    fn lex_one_or_two_of_two(
        &mut self,
        single: TokenKind,
        second1: char,
        double1: TokenKind,
        second2: char,
        double2: TokenKind,
    )
        requires
            old(self).inv(),
            old(self).pos < old(self).chars@.len(),
            !(single is Eof),
            !(double1 is Eof),
            !(double2 is Eof),
        ensures
            final(self).inv(),
            final(self).moved_on(old(self)),
            final(self).pos > old(self).pos,
            final(self).follows(
                old(self),
                spec_one_or_two_of_two(old(self).chars@, old(self).pos as int, single, second1, double1, second2, double2),
            ),
    {
        let start = self.offset;
        self.advance();
        if self.consume_if(second1) {
            let end = self.offset;
            let sp = self.span(start, end);
            self.push(double1, sp);
            proof {
                assert(self.tokens@.drop_last() =~= old(self).tokens@);
            }
            return;
        }
        if self.consume_if(second2) {
            let end = self.offset;
            let sp = self.span(start, end);
            self.push(double2, sp);
            proof {
                assert(self.tokens@.drop_last() =~= old(self).tokens@);
            }
            return;
        }
        let end = self.offset;
        let sp = self.span(start, end);
        self.push(single, sp);
        proof {
            assert(self.tokens@.drop_last() =~= old(self).tokens@);
        }
    }

    /// `<`, `<=`, `<<`, `<<=` (or the same with `>`). The span of each covers
    /// only the first character.
    fn lex_shift_or_compare(
        &mut self,
        ch: char,
        single: TokenKind,
        equal: TokenKind,
        shift: TokenKind,
        shift_equal: TokenKind,
    )
        requires
            old(self).inv(),
            old(self).pos < old(self).chars@.len(),
            !(single is Eof),
            !(equal is Eof),
            !(shift is Eof),
            !(shift_equal is Eof),
        ensures
            final(self).inv(),
            final(self).moved_on(old(self)),
            final(self).pos > old(self).pos,
            final(self).follows(
                old(self),
                spec_shift_or_compare(old(self).chars@, old(self).pos as int, ch, single, equal, shift, shift_equal),
            ),
    {
        let start = self.offset;
        self.advance();
        let end = self.offset;
        if self.consume_if('=') {
            let sp = self.span(start, end);
            self.push(equal, sp);
        } else if self.consume_if(ch) {
            if self.consume_if('=') {
                let sp = self.span(start, end);
                self.push(shift_equal, sp);
            } else {
                let sp = self.span(start, end);
                self.push(shift, sp);
            }
        } else {
            let sp = self.span(start, end);
            self.push(single, sp);
        }
        proof {
            assert(self.tokens@.drop_last() =~= old(self).tokens@);
        }
    }

    fn skip_line_comment(&mut self)
        requires
            old(self).inv(),
        ensures
            final(self).inv(),
            final(self).moved_on(old(self)),
            final(self).tokens@ == old(self).tokens@,
            final(self).pos == spec_line_end(old(self).chars@, old(self).pos as int),
    {
        loop
            invariant_except_break
                spec_line_end(self.chars@, self.pos as int) == spec_line_end(old(self).chars@, old(self).pos as int),
            invariant
                self.inv(),
                self.moved_on(old(self)),
                self.tokens@ == old(self).tokens@,
            ensures
                self.inv(),
                self.moved_on(old(self)),
                self.tokens@ == old(self).tokens@,
                self.pos == spec_line_end(old(self).chars@, old(self).pos as int),
            decreases self.chars@.len() - self.pos,
        {
            let ghost k = self.pos as int;
            match self.advance() {
                Some(c) => {
                    if c == '\n' {
                        break;
                    }
                },
                None => {
                    break;
                },
            }
        }
    }

    fn skip_block_comment(&mut self, start: usize) -> (r: Result<(), LexError>)
        requires
            old(self).inv(),
            start <= old(self).offset,
        ensures
            final(self).inv(),
            final(self).moved_on(old(self)),
            final(self).tokens@ == old(self).tokens@,
            r matches Err(e) ==> e.span.file_id == old(self).file_id && e.span.start == start
                && e.span.end == final(self).offset,
            match spec_block_end(old(self).chars@, old(self).pos as int) {
                Some(q) => r is Ok && final(self).pos == q,
                None => r matches Err(e) && final(self).pos == final(self).chars@.len()
                    && e.message@ == "unterminated block comment"@,
            },
    {
        loop
            invariant
                self.inv(),
                self.moved_on(old(self)),
                self.tokens@ == old(self).tokens@,
                start <= self.offset,
                spec_block_end(self.chars@, self.pos as int) == spec_block_end(old(self).chars@, old(self).pos as int),
            ensures
                self.inv(),
                self.moved_on(old(self)),
                self.tokens@ == old(self).tokens@,
                start <= self.offset,
                self.pos == self.chars@.len(),
                spec_block_end(old(self).chars@, old(self).pos as int) is None,
            decreases self.chars@.len() - self.pos,
        {
            let ghost k = self.pos as int;
            match self.advance() {
                Some(c) => {
                    if c == '*' && self.consume_if('/') {
                        return Ok(());
                    }
                },
                None => {
                    break;
                },
            }
        }
        Err(self.error(start, String::from_str("unterminated block comment")))
    }

    fn lex_word(&mut self) -> (t: Token)
        requires
            old(self).inv(),
            old(self).pos < old(self).chars@.len(),
        ensures
            final(self).inv(),
            final(self).moved_on(old(self)),
            final(self).tokens@ == old(self).tokens@,
            final(self).pos > old(self).pos,
            t.span == (Span { file_id: old(self).file_id, start: old(self).offset, end: final(self).offset }),
            !(t.kind is Eof),
            ({
                let text = old(self).chars@.subrange(old(self).pos as int, final(self).pos as int);
                match spec_keyword(text) {
                    Some(k) => t.kind == k,
                    None => (t.kind matches TokenKind::Ident(name) && name@ == text),
                }
            }),
            final(self).pos == spec_word_end(old(self).chars@, old(self).pos + 1),
    {
        let start = self.offset;
        let start_pos = self.pos;
        let mut text: Vec<char> = Vec::new();
        let first = self.advance();
        match first {
            Some(c) => text.push(c),
            None => {},
        }
        proof {
            assert(text@ =~= self.chars@.subrange(start_pos as int, self.pos as int));
        }
        loop
            invariant
                self.inv(),
                self.moved_on(old(self)),
                self.tokens@ == old(self).tokens@,
                self.pos > start_pos,
                start_pos == old(self).pos,
                text@ == self.chars@.subrange(start_pos as int, self.pos as int),
                spec_word_end(self.chars@, self.pos as int) == spec_word_end(old(self).chars@, old(self).pos + 1),
            ensures
                self.inv(),
                self.moved_on(old(self)),
                self.tokens@ == old(self).tokens@,
                self.pos > start_pos,
                text@ == self.chars@.subrange(start_pos as int, self.pos as int),
                self.pos == spec_word_end(old(self).chars@, old(self).pos + 1),
            decreases self.chars@.len() - self.pos,
        {
            match self.peek() {
                Some(c) => {
                    if ('a' <= c && c <= 'z') || ('A' <= c && c <= 'Z') || ('0' <= c && c <= '9') || c == '_' {
                        self.advance();
                        text.push(c);
                        proof {
                            assert(text@ =~= self.chars@.subrange(start_pos as int, self.pos as int));
                        }
                    } else {
                        break;
                    }
                },
                None => {
                    break;
                },
            }
        }
        let end = self.offset;
        let kind = match keyword_kind(&text) {
            Some(k) => k,
            None => TokenKind::Ident(string_from_chars(&text)),
        };
        Token { kind, span: self.span(start, end) }
    }

    fn lex_int_literal(&mut self) -> (r: Result<Token, LexError>)
        requires
            old(self).inv(),
            old(self).pos < old(self).chars@.len(),
            '0' <= old(self).chars@[old(self).pos as int] <= '9',
        ensures
            final(self).inv(),
            final(self).moved_on(old(self)),
            final(self).tokens@ == old(self).tokens@,
            final(self).pos > old(self).pos,
            r matches Ok(t) ==> t.span == (Span { file_id: old(self).file_id, start: old(self).offset, end: final(self).offset })
                && t.kind is IntLiteral,
            r matches Err(e) ==> e.span == (Span { file_id: old(self).file_id, start: old(self).offset, end: final(self).offset }),
            final(self).gives(old(self), r, spec_int_step(old(self).chars@, old(self).pos as int)),
    {
        let start = self.offset;
        let ghost p = self.pos as int;
        let mut text: Vec<char> = Vec::new();
        let mut unsigned = false;
        let mut long = false;
        let radix: u32;
        let base = if self.peek() == Some('0') && (self.peek_second() == Some('x') || self.peek_second() == Some('X')) {
            self.advance();
            let hex_x = match self.advance() {
                Some(c) => c,
                None => 'x',
            };
            radix = 16;
            proof {
                assert(text@ =~= self.chars@.subrange(p + 2, self.pos as int));
            }
            loop
                invariant
                    self.inv(),
                    self.moved_on(old(self)),
                    self.tokens@ == old(self).tokens@,
                    self.pos >= p + 2,
                    p == old(self).pos,
                    start == old(self).offset,
                    spec_all_digits(text@, 16),
                    text@ == self.chars@.subrange(p + 2, self.pos as int),
                    spec_hex_end(self.chars@, self.pos as int) == spec_hex_end(self.chars@, p + 2),
                ensures
                    self.inv(),
                    self.moved_on(old(self)),
                    self.tokens@ == old(self).tokens@,
                    self.pos >= p + 2,
                    start == old(self).offset,
                    spec_all_digits(text@, 16),
                    text@ == self.chars@.subrange(p + 2, self.pos as int),
                    self.pos == spec_hex_end(self.chars@, p + 2),
                decreases self.chars@.len() - self.pos,
            {
                match self.peek() {
                    Some(c) => {
                        if ('0' <= c && c <= '9') || ('a' <= c && c <= 'f') || ('A' <= c && c <= 'F') {
                            self.advance();
                            text.push(c);
                            proof {
                                assert(text@ =~= self.chars@.subrange(p + 2, self.pos as int));
                            }
                        } else {
                            break;
                        }
                    },
                    None => {
                        break;
                    },
                }
            }
            if text.len() == 0 {
                let mut msg = String::from_str("expected hex digit after '0");
                push_char(&mut msg, hex_x);
                push_str(&mut msg, "'");
                return Err(self.error(start, msg));
            }
            proof {
                assert(spec_int_step(self.chars@, p) == spec_int_finish(
                    self.chars@, p, text@, 16, IntLiteralBase::Hex, self.pos as int));
            }
            IntLiteralBase::Hex
        } else {
            radix = 10;
            match self.advance() {
                Some(c) => text.push(c),
                None => {},
            }
            proof {
                assert(text@ =~= self.chars@.subrange(p, self.pos as int));
            }
            loop
                invariant
                    self.inv(),
                    self.moved_on(old(self)),
                    self.tokens@ == old(self).tokens@,
                    self.pos > old(self).pos,
                    p == old(self).pos,
                    start == old(self).offset,
                    spec_all_digits(text@, 10),
                    text@ == self.chars@.subrange(p, self.pos as int),
                    spec_dec_end(self.chars@, self.pos as int) == spec_dec_end(self.chars@, p + 1),
                ensures
                    self.inv(),
                    self.moved_on(old(self)),
                    self.tokens@ == old(self).tokens@,
                    self.pos > old(self).pos,
                    start == old(self).offset,
                    spec_all_digits(text@, 10),
                    text@ == self.chars@.subrange(p, self.pos as int),
                    self.pos == spec_dec_end(self.chars@, p + 1),
                decreases self.chars@.len() - self.pos,
            {
                match self.peek() {
                    Some(c) => {
                        if '0' <= c && c <= '9' {
                            self.advance();
                            text.push(c);
                            proof {
                                assert(text@ =~= self.chars@.subrange(p, self.pos as int));
                            }
                        } else {
                            break;
                        }
                    },
                    None => {
                        break;
                    },
                }
            }
            proof {
                assert(spec_int_step(self.chars@, p) == spec_int_finish(
                    self.chars@, p, text@, 10, IntLiteralBase::Decimal, self.pos as int));
            }
            IntLiteralBase::Decimal
        };
        let ghost after = self.pos as int;
        assert(spec_int_step(self.chars@, p) == spec_int_finish(self.chars@, p, text@, radix, base, after));
        loop
            invariant
                self.inv(),
                self.moved_on(old(self)),
                self.tokens@ == old(self).tokens@,
                self.pos > old(self).pos,
                self.pos >= after,
                start == old(self).offset,
                p == old(self).pos,
                old(self).inv(),
                spec_int_step(self.chars@, p) == spec_int_finish(self.chars@, p, text@, radix, base, after),
                spec_suffix_scan(self.chars@, self.pos as int, unsigned, long) == spec_suffix_scan(self.chars@, after, false, false),
            ensures
                self.inv(),
                self.moved_on(old(self)),
                self.tokens@ == old(self).tokens@,
                self.pos > old(self).pos,
                start == old(self).offset,
                spec_suffix_scan(self.chars@, after, false, false) == Ok::<(bool, bool, int), (Seq<char>, int)>((unsigned, long, self.pos as int)),
            decreases self.chars@.len() - self.pos,
        {
            let ghost k = self.pos as int;
            match self.peek() {
                Some(c) => {
                    if c == 'u' || c == 'U' {
                        self.advance();
                        if unsigned {
                            return Err(self.error(start, String::from_str("duplicate 'U' integer suffix")));
                        }
                        unsigned = true;
                    } else if c == 'l' || c == 'L' {
                        self.advance();
                        if long {
                            return Err(self.error(start, String::from_str("'long long' integer suffix is not supported")));
                        }
                        long = true;
                    } else {
                        break;
                    }
                },
                None => {
                    break;
                },
            }
        }
        let value = match parse_digits(&text, radix) {
            Some(v) => v,
            None => {
                let mut msg = String::from_str("integer literal out of range: ");
                let t = string_from_chars(&text);
                push_str(&mut msg, t.as_str());
                return Err(self.error(start, msg));
            },
        };
        let suffix = if !unsigned && !long {
            IntLiteralSuffix::Unsuffixed
        } else if unsigned && !long {
            IntLiteralSuffix::Unsigned
        } else if !unsigned && long {
            IntLiteralSuffix::Long
        } else {
            IntLiteralSuffix::UnsignedLong
        };
        Ok(Token { kind: TokenKind::IntLiteral { value, suffix, base }, span: self.span(start, self.offset) })
    }

    /// The character an escape letter stands for, if it is a known escape.
    fn escape_value(c: char) -> (v: Option<u8>)
        ensures
            v == spec_escape(c),
    {
        if c == 'n' { Some(10) }
        else if c == 't' { Some(9) }
        else if c == 'r' { Some(13) }
        else if c == '0' { Some(0) }
        else if c == '\'' { Some(39) }
        else if c == '"' { Some(34) }
        else if c == '\\' { Some(92) }
        else { None }
    }

    fn unknown_escape_error(&self, start: usize, c: char) -> (e: LexError)
        ensures
            e.span == (Span { file_id: self.file_id, start, end: self.offset }),
            e.message@ == spec_unknown_escape(c),
    {
        let mut msg = String::from_str("unknown escape sequence '\\");
        push_char(&mut msg, c);
        push_str(&mut msg, "'");
        self.error(start, msg)
    }

    fn lex_char_literal(&mut self) -> (r: Result<Token, LexError>)
        requires
            old(self).inv(),
            old(self).pos < old(self).chars@.len(),
        ensures
            final(self).inv(),
            final(self).moved_on(old(self)),
            final(self).tokens@ == old(self).tokens@,
            final(self).pos > old(self).pos,
            r matches Ok(t) ==> t.span == (Span { file_id: old(self).file_id, start: old(self).offset, end: final(self).offset })
                && t.kind is CharLiteral,
            r matches Err(e) ==> e.span == (Span { file_id: old(self).file_id, start: old(self).offset, end: final(self).offset }),
            final(self).gives(old(self), r, spec_char_step(old(self).chars@, old(self).pos as int)),
    {
        let start = self.offset;
        let ghost p = self.pos as int;
        self.advance();
        if self.eof() {
            return Err(self.error(start, String::from_str("unterminated character constant")));
        }
        if self.peek() == Some('\'') {
            self.advance();
            return Err(self.error(start, String::from_str("empty character constant")));
        }
        let value: i32 = if self.peek() == Some('\\') {
            self.advance();
            let escaped = match self.peek() {
                Some(c) => c,
                None => {
                    return Err(self.error(start, String::from_str("unterminated character constant")));
                },
            };
            match Self::escape_value(escaped) {
                Some(v) => {
                    self.advance();
                    v as i32
                },
                None => {
                    self.advance();
                    return Err(self.unknown_escape_error(start, escaped));
                },
            }
        } else {
            let ch = match self.peek() {
                Some(c) => c,
                None => {
                    return Err(self.error(start, String::from_str("unterminated character constant")));
                },
            };
            self.advance();
            (ch as u32) as i32
        };
        let ghost k = self.pos as int;
        assert(spec_char_step(self.chars@, p) == spec_char_close(self.chars@, p, value, k));
        if self.eof() {
            return Err(self.error(start, String::from_str("unterminated character constant")));
        }
        if self.peek() != Some('\'') {
            loop
                invariant
                    self.inv(),
                    self.moved_on(old(self)),
                    self.tokens@ == old(self).tokens@,
                    self.pos > old(self).pos,
                    start == old(self).offset,
                    self.pos >= k,
                    spec_quote_end(self.chars@, self.pos as int) == spec_quote_end(self.chars@, k),
                ensures
                    self.inv(),
                    self.moved_on(old(self)),
                    self.tokens@ == old(self).tokens@,
                    self.pos > old(self).pos,
                    start == old(self).offset,
                    self.pos == spec_quote_end(self.chars@, k),
                    self.pos < self.chars@.len() ==> self.chars@[self.pos as int] == '\'',
                decreases self.chars@.len() - self.pos,
            {
                if self.eof() || self.peek() == Some('\'') {
                    break;
                }
                self.advance();
            }
            if self.peek() == Some('\'') {
                self.advance();
            }
            return Err(self.error(start, String::from_str("multi-character constants are not supported")));
        }
        self.advance();
        Ok(Token { kind: TokenKind::CharLiteral(value), span: self.span(start, self.offset) })
    }

    fn lex_string_literal(&mut self) -> (r: Result<Token, LexError>)
        requires
            old(self).inv(),
            old(self).pos < old(self).chars@.len(),
        ensures
            final(self).inv(),
            final(self).moved_on(old(self)),
            final(self).tokens@ == old(self).tokens@,
            final(self).pos > old(self).pos,
            r matches Ok(t) ==> t.span == (Span { file_id: old(self).file_id, start: old(self).offset, end: final(self).offset })
                && t.kind is StringLiteral,
            r matches Err(e) ==> e.span == (Span { file_id: old(self).file_id, start: old(self).offset, end: final(self).offset }),
            final(self).gives(old(self), r, spec_string_scan(old(self).chars@, old(self).pos as int, old(self).pos + 1, seq![])),
    {
        let start = self.offset;
        let ghost p = self.pos as int;
        self.advance();
        let mut bytes: Vec<u8> = Vec::new();
        loop
            invariant_except_break
                spec_string_scan(self.chars@, p, self.pos as int, bytes@) == spec_string_scan(self.chars@, p, p + 1, seq![]),
            invariant
                self.inv(),
                old(self).inv(),
                self.moved_on(old(self)),
                self.tokens@ == old(self).tokens@,
                self.pos > old(self).pos,
                start == old(self).offset,
                p == old(self).pos,
            ensures
                self.inv(),
                self.moved_on(old(self)),
                self.tokens@ == old(self).tokens@,
                self.pos > old(self).pos,
                start == old(self).offset,
                spec_string_scan(self.chars@, p, p + 1, seq![])
                    == (LexStep::Emit { tok: SpecTok::Str(bytes@), start: p, end: self.pos as int, next: self.pos as int }),
            decreases self.chars@.len() - self.pos,
        {
            let ghost k = self.pos as int;
            match self.peek() {
                Some(c) => {
                    if c == '"' {
                        self.advance();
                        break;
                    } else if c == '\\' {
                        self.advance();
                        let escaped = match self.peek() {
                            Some(e) => e,
                            None => {
                                return Err(self.error(start, String::from_str("unterminated string literal")));
                            },
                        };
                        match Self::escape_value(escaped) {
                            Some(b) => {
                                self.advance();
                                bytes.push(b);
                            },
                            None => {
                                self.advance();
                                return Err(self.unknown_escape_error(start, escaped));
                            },
                        }
                    } else if c == '\n' {
                        return Err(self.error(start, String::from_str("unterminated string literal")));
                    } else {
                        self.advance();
                        if (c as u32) >= 128 {
                            return Err(self.error(start, String::from_str("non-ASCII string literals are not supported")));
                        }
                        bytes.push((c as u32) as u8);
                    }
                },
                None => {
                    return Err(self.error(start, String::from_str("unterminated string literal")));
                },
            }
        }
        Ok(Token { kind: TokenKind::StringLiteral(bytes), span: self.span(start, self.offset) })
    }

    fn push_token(&mut self, token: Token)
        requires
            old(self).inv(),
            !(token.kind is Eof),
            token.span.file_id == old(self).file_id,
            token.span.start <= token.span.end <= old(self).offset,
            old(self).tokens@.len() > 0 ==> old(self).tokens@.last().span.end <= token.span.start,
        ensures
            final(self).inv(),
            final(self).moved_on(old(self)),
            final(self).pos == old(self).pos,
            final(self).tokens@ == old(self).tokens@.push(token),
    {
        self.push(token.kind, token.span);
    }

    /// Lexes the next token, skips whitespace or a comment, or fails.
    #[verifier::rlimit(60)]
    fn lex_one(&mut self) -> (r: Result<(), LexError>)
        requires
            old(self).inv(),
            old(self).pos < old(self).chars@.len(),
        ensures
            final(self).inv(),
            final(self).moved_on(old(self)),
            r is Ok ==> final(self).pos > old(self).pos,
            r matches Err(e) ==> e.span.file_id == old(self).file_id && e.span.start <= e.span.end
                <= spec_byte_len(old(self).chars@),
            (r is Ok) == !(spec_step(old(self).chars@, old(self).pos as int) is Fail),
            r is Ok ==> final(self).follows(old(self), spec_step(old(self).chars@, old(self).pos as int)),
            r matches Err(e) ==> (spec_step(old(self).chars@, old(self).pos as int) matches LexStep::Fail { message, end }
                && e.message@ == message && e.span == spec_span(old(self).chars@, old(self).file_id, old(self).pos as int, end)),
    {
        let ch = self.chars[self.pos];
        if ch == ' ' || ch == '\r' || ch == '\t' {
            self.advance();
        } else if ch == ',' {
            self.advance_and_push(TokenKind::Comma);
        } else if ch == '(' {
            self.advance_and_push(TokenKind::LParen);
        } else if ch == ')' {
            self.advance_and_push(TokenKind::RParen);
        } else if ch == '{' {
            self.advance_and_push(TokenKind::LBrace);
        } else if ch == '}' {
            self.advance_and_push(TokenKind::RBrace);
        } else if ch == '[' {
            self.advance_and_push(TokenKind::LBracket);
        } else if ch == ']' {
            self.advance_and_push(TokenKind::RBracket);
        } else if ch == ';' {
            self.advance_and_push(TokenKind::Semicolon);
        } else if '0' <= ch && ch <= '9' {
            let token = self.lex_int_literal();
            match token {
                Ok(t) => {
                    self.push_token(t);
                    proof {
                        assert(self.tokens@.drop_last() =~= old(self).tokens@);
                    }
                },
                Err(e) => {
                    proof { lemma_offset_bound(&*self); }
                    return Err(e);
                },
            }
        } else if ('a' <= ch && ch <= 'z') || ('A' <= ch && ch <= 'Z') || ch == '_' {
            let token = self.lex_word();
            self.push_token(token);
            proof {
                assert(self.tokens@.drop_last() =~= old(self).tokens@);
            }
        } else if ch == '\'' {
            let token = self.lex_char_literal();
            match token {
                Ok(t) => {
                    self.push_token(t);
                    proof {
                        assert(self.tokens@.drop_last() =~= old(self).tokens@);
                    }
                },
                Err(e) => {
                    proof { lemma_offset_bound(&*self); }
                    return Err(e);
                },
            }
        } else if ch == '+' {
            self.lex_one_or_two_of_two(TokenKind::Plus, '=', TokenKind::PlusEqual, '+', TokenKind::PlusPlus);
        } else if ch == '-' && self.peek_second() == Some('>') {
            self.advance();
            self.advance_and_push(TokenKind::Arrow);
        } else if ch == '-' {
            self.lex_one_or_two_of_two(TokenKind::Minus, '=', TokenKind::MinusEqual, '-', TokenKind::MinusMinus);
        } else if ch == '*' {
            self.lex_one_or_two(TokenKind::Star, '=', TokenKind::StarEqual);
        } else if ch == '/' {
            let start = self.offset;
            self.advance();
            if self.consume_if('/') {
                self.skip_line_comment();
            } else if self.consume_if('*') {
                match self.skip_block_comment(start) {
                    Ok(()) => {},
                    Err(e) => {
                        proof { lemma_offset_bound(&*self); }
                        return Err(e);
                    },
                }
            } else if self.consume_if('=') {
                let end = self.offset;
                let sp = self.span(start, end);
                self.push(TokenKind::SlashEqual, sp);
                proof {
                    assert(self.tokens@.drop_last() =~= old(self).tokens@);
                }
            } else {
                let end = self.offset;
                let sp = self.span(start, end);
                self.push(TokenKind::Slash, sp);
                proof {
                    assert(self.tokens@.drop_last() =~= old(self).tokens@);
                }
            }
        } else if ch == '%' {
            self.lex_one_or_two(TokenKind::Percent, '=', TokenKind::PercentEqual);
        } else if ch == '=' {
            self.lex_one_or_two(TokenKind::Equal, '=', TokenKind::EqualEqual);
        } else if ch == '!' {
            self.lex_one_or_two(TokenKind::Bang, '=', TokenKind::BangEqual);
        } else if ch == '<' {
            self.lex_shift_or_compare('<', TokenKind::Less, TokenKind::LessEqual, TokenKind::LessLess, TokenKind::LessLessEqual);
        } else if ch == '>' {
            self.lex_shift_or_compare('>', TokenKind::Greater, TokenKind::GreaterEqual, TokenKind::GreaterGreater, TokenKind::GreaterGreaterEqual);
        } else if ch == '~' {
            self.advance_and_push(TokenKind::Tilde);
        } else if ch == '&' {
            self.lex_one_or_two_of_two(TokenKind::Ampersand, '=', TokenKind::AmpersandEqual, '&', TokenKind::AmpersandAmpersand);
        } else if ch == '^' {
            self.lex_one_or_two(TokenKind::Caret, '=', TokenKind::CaretEqual);
        } else if ch == '|' {
            self.lex_one_or_two_of_two(TokenKind::Pipe, '=', TokenKind::PipeEqual, '|', TokenKind::PipePipe);
        } else if ch == '#' {
            self.advance_and_push(TokenKind::Hash);
        } else if ch == '\n' {
            self.advance_and_push(TokenKind::Newline);
        } else if ch == '"' {
            let token = self.lex_string_literal();
            match token {
                Ok(t) => {
                    self.push_token(t);
                    proof {
                        assert(self.tokens@.drop_last() =~= old(self).tokens@);
                    }
                },
                Err(e) => {
                    proof { lemma_offset_bound(&*self); }
                    return Err(e);
                },
            }
        } else if ch == '.' {
            self.advance_and_push(TokenKind::Dot);
        } else {
            let e = self.unexpected_character();
            proof { lemma_offset_bound(&*self); }
            return Err(e);
        }
        Ok(())
    }

    fn unexpected_character(&mut self) -> (e: LexError)
        requires
            old(self).inv(),
            old(self).pos < old(self).chars@.len(),
        ensures
            final(self).inv(),
            final(self).moved_on(old(self)),
            e.span == (Span { file_id: old(self).file_id, start: old(self).offset, end: final(self).offset }),
            final(self).pos == old(self).pos + 1,
            e.message@ == "unexpected character '"@.push(old(self).chars@[old(self).pos as int]) + "'"@,
    {
        let start = self.offset;
        let ch = match self.advance() {
            Some(c) => c,
            None => ' ',
        };
        let mut msg = String::from_str("unexpected character '");
        push_char(&mut msg, ch);
        push_str(&mut msg, "'");
        self.error(start, msg)
    }
}

/// The byte an escape letter stands for in character and string literals.
pub open spec fn spec_escape(c: char) -> Option<u8> {
    if c == 'n' { Some(10u8) }
    else if c == 't' { Some(9u8) }
    else if c == 'r' { Some(13u8) }
    else if c == '0' { Some(0u8) }
    else if c == '\'' { Some(39u8) }
    else if c == '"' { Some(34u8) }
    else if c == '\\' { Some(92u8) }
    else { None }
}

/// A token stream as the lexer produces it: spans in the given file, in order,
/// within the source, and one end marker, last, spanning the empty range at the end.
pub open spec fn well_formed_tokens(tokens: Seq<Token>, file_id: FileId, len: usize) -> bool {
    &&& tokens.len() > 0
    &&& spans_in_order(tokens.drop_last(), file_id, len)
    &&& tokens.last().kind == TokenKind::Eof
    &&& tokens.last().span == (Span { file_id, start: len, end: len })
}

/// Lexes C source text into tokens.
///
/// The tokens, and the error if there is one, are those that the rules of
/// `spec_lex_from` give for the source. On success the tokens lie in order in
/// `[0, n]`, where `n` is the byte length of the source, and end with one `Eof`
/// token spanning `(n, n)`. A lexing error points into the source too.
pub fn lex(source: &str, file_id: FileId) -> (r: Result<Vec<Token>, LexError>)
    requires
        spec_byte_len(source@) < usize::MAX,
    ensures
        r matches Ok(tokens) ==> well_formed_tokens(tokens@, file_id, spec_byte_len(source@) as usize),
        r matches Err(e) ==> e.span.file_id == file_id && e.span.start <= e.span.end <= spec_byte_len(source@),
        match spec_lex_from(source@, 0, seq![]) {
            Ok(ts) => r matches Ok(tokens) && spec_tokens_match(tokens@.drop_last(), ts, source@, file_id),
            Err((message, start, end)) => r matches Err(e) && e.message@ == message
                && e.span == spec_span(source@, file_id, start, end),
        },
{
    let chars = chars_of(source);
    let mut lx = Lexer { chars, pos: 0, offset: 0, tokens: Vec::new(), file_id };
    let ghost mut acc: Seq<(SpecTok, int, int)> = seq![];
    proof {
        reveal(spans_in_order);
        assert(lx.chars@.take(0) =~= Seq::<char>::empty());
    }
    while lx.pos < lx.chars.len()
        invariant
            lx.inv(),
            lx.file_id == file_id,
            lx.chars@ == source@,
            spec_lex_from(source@, 0, seq![]) == spec_lex_from(source@, lx.pos as int, acc),
            spec_tokens_match(lx.tokens@, acc, source@, file_id),
        decreases lx.chars@.len() - lx.pos,
    {
        let ghost before = lx;
        match lx.lex_one() {
            Ok(()) => {
                proof {
                    match spec_step(source@, before.pos as int) {
                        LexStep::Emit { tok, start, end, next } => {
                            let acc2 = acc.push((tok, start, end));
                            assert forall|i: int| 0 <= i < acc2.len() implies {
                                &&& spec_denotes((#[trigger] lx.tokens@[i]).kind, acc2[i].0)
                                &&& lx.tokens@[i].span == spec_span(source@, file_id, acc2[i].1, acc2[i].2)
                            } by {
                                if i < acc.len() {
                                    assert(lx.tokens@[i] == lx.tokens@.drop_last()[i]);
                                    assert(before.tokens@[i] == lx.tokens@[i]);
                                } else {
                                    assert(lx.tokens@[i] == lx.tokens@.last());
                                }
                            }
                            acc = acc2;
                        },
                        _ => {},
                    }
                }
            },
            Err(e) => {
                return Err(e);
            },
        }
    }
    proof {
        lemma_offset_bound(&lx);
        assert(lx.chars@.take(lx.pos as int) =~= lx.chars@);
        lemma_spans_widen(lx.tokens@, file_id, lx.offset, lx.offset);
    }
    let end = lx.offset;
    let sp = lx.span(end, end);
    let ghost before = lx.tokens@;
    lx.tokens.push(Token { kind: TokenKind::Eof, span: sp });
    proof {
        assert(lx.tokens@.drop_last() =~= before);
    }
    Ok(lx.tokens)
}

proof fn lemma_offset_bound(lx: &Lexer)
    requires
        lx.inv(),
    ensures
        lx.offset <= spec_byte_len(lx.chars@),
{
    lemma_byte_len_prefix_mono(lx.chars@, lx.pos as int, lx.chars@.len() as int);
    assert(lx.chars@.take(lx.chars@.len() as int) =~= lx.chars@);
}


} // verus!

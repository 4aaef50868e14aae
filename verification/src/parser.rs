use crate::ast::{
    clone_type, spec_is_integer, ty, TypeModel, BinaryOp, Expr, ExternalDecl, FunctionDecl, FunctionDef, GlobalDecl,
    Initializer, IntLiteralBase, IntLiteralSuffix, LocalDecl, Param, ParamDecl, Program, Statement, Type,
    Typedef, UnaryOp,
};
use crate::lexer::{clone_token, kind_eq, lemma_kind_debug_eq, push_kind_debug, spec_kind_debug, spec_kind_eq, Token, TokenKind};
use crate::grammar::{
    spec_is_type_decl, spec_kind_at, spec_type_name_range, spec_parses_expr, spec_parses_assignment,
    spec_parses_binary, spec_parses_chain, spec_parses_operand, spec_parses_unary, spec_parses_postfix,
    spec_parses_postfix_chain, spec_parses_primary, spec_parses_args, spec_args_upto, lemma_args_join,
    spec_pos, spec_parses_for_init, spec_parses_stmt, spec_parses_stmts, lemma_stmts_snoc,
    spec_star_end, spec_pointer_to, spec_parses_declarator, spec_parses_direct, spec_parses_direct_chain,
    spec_parses_params, spec_parses_raw_param, spec_params_upto, lemma_params_join, spec_parses_init_list,
    spec_parses_initializer, spec_init_upto, lemma_init_join, spec_parses_local, spec_parses_locals,
    spec_parses_decl_stmt, spec_parses_head,
};
use crate::source::Span;
use crate::text::{push_str, push_u64};
use vstd::prelude::*;

verus! {

#[derive(Debug, Clone, PartialEq, Eq)]
pub struct ParseError {
    pub message: String,
    pub span: Span,
}

/// The declaration specifiers before a declarator list.
struct DeclSpec {
    is_typedef: bool,
    type_specifiers: Vec<TypeSpecifier>,
}

enum TypeSpecifier {
    Char,
    Int,
    Signed,
    Unsigned,
    Long,
    TypedefName { name: String, span: Span },
}

/// How often each type word occurs in a declaration specifier.
#[derive(Clone, Copy)]
pub struct TypeSpec {
    pub unsigned: bool,
    pub signed: bool,
    pub int_count: usize,
    pub char_count: usize,
    pub long_count: usize,
}

struct InitDeclarator {
    declarator: Declarator,
    initializer: Option<Initializer>,
}

struct Declaration {
    spec: DeclSpec,
    spec_span: Span,
    declarators: Vec<InitDeclarator>,
}

/// The shape of a declarator: a name under pointer, array and function constructors.
pub enum Declarator {
    Name { name: String, name_span: Span },
    Pointer(Box<Declarator>),
    Array { inner: Box<Declarator>, len: usize },
    Function { inner: Box<Declarator>, params: Vec<RawParam> },
}

pub struct RawParam {
    pub ty: Type,
    pub ty_span: Span,
    pub name: Option<String>,
    pub name_span: Option<Span>,
}

/// A declarator with its type resolved: an object or a function.
pub enum LoweredDeclarator {
    Object { ty: Type, name: String, name_span: Span },
    Function { return_type: Type, name: String, name_span: Span, params: Vec<RawParam> },
}

/// The name a declarator declares.
pub open spec fn spec_declarator_name(d: Declarator) -> Seq<char>
    decreases d,
{
    match d {
        Declarator::Name { name, .. } => name@,
        Declarator::Pointer(inner) => spec_declarator_name(*inner),
        Declarator::Array { inner, .. } => spec_declarator_name(*inner),
        Declarator::Function { inner, .. } => spec_declarator_name(*inner),
    }
}

/// The type named by a combination of builtin type words.
pub open spec fn spec_lower_type_spec(s: TypeSpec) -> Option<Type> {
    if !s.unsigned && s.int_count == 1 && s.char_count == 0 && s.long_count == 0 {
        Some(Type::Int)
    } else if !s.unsigned && s.signed && s.int_count == 0 && s.char_count == 0 && s.long_count == 0 {
        Some(Type::Int)
    } else if s.unsigned && !s.signed && s.int_count <= 1 && s.char_count == 0 && s.long_count == 0 {
        Some(Type::UnsignedInt)
    } else if !s.unsigned && !s.signed && s.int_count == 0 && s.char_count == 1 && s.long_count == 0 {
        Some(Type::Char)
    } else if s.unsigned && !s.signed && s.int_count == 0 && s.char_count == 1 && s.long_count == 0 {
        Some(Type::UnsignedChar)
    } else if !s.unsigned && s.signed && s.int_count == 0 && s.char_count == 1 && s.long_count == 0 {
        Some(Type::SignedChar)
    } else if !s.unsigned && s.int_count <= 1 && s.char_count == 0 && s.long_count == 1 {
        Some(Type::Long)
    } else if s.unsigned && !s.signed && s.int_count <= 1 && s.char_count == 0 && s.long_count == 1 {
        Some(Type::UnsignedLong)
    } else {
        None
    }
}

/// The type named by a combination of builtin type words, or an error at `span`.
pub fn lower_type_spec(s: TypeSpec, span: Span) -> (r: Result<Type, ParseError>)
    ensures
        r matches Ok(t) ==> spec_lower_type_spec(s) == Some(t),
        r is Err ==> spec_lower_type_spec(s) is None,
        r matches Err(e) ==> e.message@ == "unsupported or invalid type specifier combination"@ && e.span == span,
{
    if !s.unsigned && s.int_count == 1 && s.char_count == 0 && s.long_count == 0 {
        Ok(Type::Int)
    } else if !s.unsigned && s.signed && s.int_count == 0 && s.char_count == 0 && s.long_count == 0 {
        Ok(Type::Int)
    } else if s.unsigned && !s.signed && s.int_count <= 1 && s.char_count == 0 && s.long_count == 0 {
        Ok(Type::UnsignedInt)
    } else if !s.unsigned && !s.signed && s.int_count == 0 && s.char_count == 1 && s.long_count == 0 {
        Ok(Type::Char)
    } else if s.unsigned && !s.signed && s.int_count == 0 && s.char_count == 1 && s.long_count == 0 {
        Ok(Type::UnsignedChar)
    } else if !s.unsigned && s.signed && s.int_count == 0 && s.char_count == 1 && s.long_count == 0 {
        Ok(Type::SignedChar)
    } else if !s.unsigned && s.int_count <= 1 && s.char_count == 0 && s.long_count == 1 {
        Ok(Type::Long)
    } else if s.unsigned && !s.signed && s.int_count <= 1 && s.char_count == 0 && s.long_count == 1 {
        Ok(Type::UnsignedLong)
    } else {
        Err(ParseError {
            message: String::from_str("unsupported or invalid type specifier combination"),
            span,
        })
    }
}

/// The binary operator a token stands for at a precedence level, from 1
/// (multiplicative, binding tightest) to 10 (logical or).
pub open spec fn spec_binary_op(level: u8, k: TokenKind) -> Option<BinaryOp> {
    if level == 1 {
        match k {
            TokenKind::Star => Some(BinaryOp::Multiply),
            TokenKind::Slash => Some(BinaryOp::Divide),
            TokenKind::Percent => Some(BinaryOp::Remainder),
            _ => None,
        }
    } else if level == 2 {
        match k {
            TokenKind::Plus => Some(BinaryOp::Add),
            TokenKind::Minus => Some(BinaryOp::Subtract),
            _ => None,
        }
    } else if level == 3 {
        match k {
            TokenKind::LessLess => Some(BinaryOp::ShiftLeft),
            TokenKind::GreaterGreater => Some(BinaryOp::ShiftRight),
            _ => None,
        }
    } else if level == 4 {
        match k {
            TokenKind::Less => Some(BinaryOp::Less),
            TokenKind::LessEqual => Some(BinaryOp::LessEqual),
            TokenKind::Greater => Some(BinaryOp::Greater),
            TokenKind::GreaterEqual => Some(BinaryOp::GreaterEqual),
            _ => None,
        }
    } else if level == 5 {
        match k {
            TokenKind::EqualEqual => Some(BinaryOp::Equal),
            TokenKind::BangEqual => Some(BinaryOp::NotEqual),
            _ => None,
        }
    } else if level == 6 {
        match k {
            TokenKind::Ampersand => Some(BinaryOp::BitAnd),
            _ => None,
        }
    } else if level == 7 {
        match k {
            TokenKind::Caret => Some(BinaryOp::BitXor),
            _ => None,
        }
    } else if level == 8 {
        match k {
            TokenKind::Pipe => Some(BinaryOp::BitOr),
            _ => None,
        }
    } else if level == 9 {
        match k {
            TokenKind::AmpersandAmpersand => Some(BinaryOp::LogicalAnd),
            _ => None,
        }
    } else if level == 10 {
        match k {
            TokenKind::PipePipe => Some(BinaryOp::LogicalOr),
            _ => None,
        }
    } else {
        None
    }
}

pub fn binary_op(level: u8, k: &TokenKind) -> (r: Option<BinaryOp>)
    ensures
        r == spec_binary_op(level, *k),
{
    if level == 1 {
        match k {
            TokenKind::Star => Some(BinaryOp::Multiply),
            TokenKind::Slash => Some(BinaryOp::Divide),
            TokenKind::Percent => Some(BinaryOp::Remainder),
            _ => None,
        }
    } else if level == 2 {
        match k {
            TokenKind::Plus => Some(BinaryOp::Add),
            TokenKind::Minus => Some(BinaryOp::Subtract),
            _ => None,
        }
    } else if level == 3 {
        match k {
            TokenKind::LessLess => Some(BinaryOp::ShiftLeft),
            TokenKind::GreaterGreater => Some(BinaryOp::ShiftRight),
            _ => None,
        }
    } else if level == 4 {
        match k {
            TokenKind::Less => Some(BinaryOp::Less),
            TokenKind::LessEqual => Some(BinaryOp::LessEqual),
            TokenKind::Greater => Some(BinaryOp::Greater),
            TokenKind::GreaterEqual => Some(BinaryOp::GreaterEqual),
            _ => None,
        }
    } else if level == 5 {
        match k {
            TokenKind::EqualEqual => Some(BinaryOp::Equal),
            TokenKind::BangEqual => Some(BinaryOp::NotEqual),
            _ => None,
        }
    } else if level == 6 {
        match k {
            TokenKind::Ampersand => Some(BinaryOp::BitAnd),
            _ => None,
        }
    } else if level == 7 {
        match k {
            TokenKind::Caret => Some(BinaryOp::BitXor),
            _ => None,
        }
    } else if level == 8 {
        match k {
            TokenKind::Pipe => Some(BinaryOp::BitOr),
            _ => None,
        }
    } else if level == 9 {
        match k {
            TokenKind::AmpersandAmpersand => Some(BinaryOp::LogicalAnd),
            _ => None,
        }
    } else if level == 10 {
        match k {
            TokenKind::PipePipe => Some(BinaryOp::LogicalOr),
            _ => None,
        }
    } else {
        None
    }
}

/// The assignment operator a token stands for: `=` is `Some(None)`, a compound
/// assignment `Some(Some(op))`.
pub open spec fn spec_assignment_op(k: TokenKind) -> Option<Option<BinaryOp>> {
    match k {
        TokenKind::Equal => Some(None),
        TokenKind::PlusEqual => Some(Some(BinaryOp::Add)),
        TokenKind::MinusEqual => Some(Some(BinaryOp::Subtract)),
        TokenKind::StarEqual => Some(Some(BinaryOp::Multiply)),
        TokenKind::SlashEqual => Some(Some(BinaryOp::Divide)),
        TokenKind::PercentEqual => Some(Some(BinaryOp::Remainder)),
        TokenKind::AmpersandEqual => Some(Some(BinaryOp::BitAnd)),
        TokenKind::CaretEqual => Some(Some(BinaryOp::BitXor)),
        TokenKind::PipeEqual => Some(Some(BinaryOp::BitOr)),
        TokenKind::LessLessEqual => Some(Some(BinaryOp::ShiftLeft)),
        TokenKind::GreaterGreaterEqual => Some(Some(BinaryOp::ShiftRight)),
        _ => None,
    }
}

pub fn assignment_op(k: &TokenKind) -> (r: Option<Option<BinaryOp>>)
    ensures
        r == spec_assignment_op(*k),
{
    match k {
        TokenKind::Equal => Some(None),
        TokenKind::PlusEqual => Some(Some(BinaryOp::Add)),
        TokenKind::MinusEqual => Some(Some(BinaryOp::Subtract)),
        TokenKind::StarEqual => Some(Some(BinaryOp::Multiply)),
        TokenKind::SlashEqual => Some(Some(BinaryOp::Divide)),
        TokenKind::PercentEqual => Some(Some(BinaryOp::Remainder)),
        TokenKind::AmpersandEqual => Some(Some(BinaryOp::BitAnd)),
        TokenKind::CaretEqual => Some(Some(BinaryOp::BitXor)),
        TokenKind::PipeEqual => Some(Some(BinaryOp::BitOr)),
        TokenKind::LessLessEqual => Some(Some(BinaryOp::ShiftLeft)),
        TokenKind::GreaterGreaterEqual => Some(Some(BinaryOp::ShiftRight)),
        _ => None,
    }
}

/// The unary operator a token stands for.
pub open spec fn spec_unary_op(k: TokenKind) -> Option<UnaryOp> {
    match k {
        TokenKind::Minus => Some(UnaryOp::Negate),
        TokenKind::Bang => Some(UnaryOp::LogicalNot),
        TokenKind::Tilde => Some(UnaryOp::BitwiseNot),
        TokenKind::Star => Some(UnaryOp::Dereference),
        TokenKind::Ampersand => Some(UnaryOp::AddressOf),
        _ => None,
    }
}

pub fn unary_op(k: &TokenKind) -> (r: Option<UnaryOp>)
    ensures
        r == spec_unary_op(*k),
{
    match k {
        TokenKind::Minus => Some(UnaryOp::Negate),
        TokenKind::Bang => Some(UnaryOp::LogicalNot),
        TokenKind::Tilde => Some(UnaryOp::BitwiseNot),
        TokenKind::Star => Some(UnaryOp::Dereference),
        TokenKind::Ampersand => Some(UnaryOp::AddressOf),
        _ => None,
    }
}

/// Tokens that can start an expression statement.
pub open spec fn spec_is_expr_start(k: TokenKind) -> bool {
    match k {
        TokenKind::Ident(_) | TokenKind::IntLiteral { .. } | TokenKind::CharLiteral(_) | TokenKind::LParen
        | TokenKind::Minus | TokenKind::Bang | TokenKind::Tilde | TokenKind::PlusPlus | TokenKind::MinusMinus
        | TokenKind::Star => true,
        _ => false,
    }
}

pub fn is_expr_start(k: &TokenKind) -> (b: bool)
    ensures
        b == spec_is_expr_start(*k),
{
    match k {
        TokenKind::Ident(_) | TokenKind::IntLiteral { .. } | TokenKind::CharLiteral(_) | TokenKind::LParen
        | TokenKind::Minus | TokenKind::Bang | TokenKind::Tilde | TokenKind::PlusPlus | TokenKind::MinusMinus
        | TokenKind::Star => true,
        _ => false,
    }
}

/// Token streams the parser accepts: an end marker last, and no negative character constant.
pub open spec fn parseable_tokens(tokens: Seq<Token>) -> bool {
    &&& tokens.len() > 0
    &&& tokens.last().kind is Eof
    &&& forall|i: int| 0 <= i < tokens.len() ==> ((#[trigger] tokens[i]).kind matches TokenKind::CharLiteral(v) ==> v >= 0)
}

/// Whether a token stream meets [`parseable_tokens`].
pub fn check_parseable(tokens: &Vec<Token>) -> (b: bool)
    ensures
        b == parseable_tokens(tokens@),
{
    if tokens.len() == 0 {
        return false;
    }
    if !matches!(tokens[tokens.len() - 1].kind, TokenKind::Eof) {
        return false;
    }
    let mut i: usize = 0;
    while i < tokens.len()
        invariant
            i <= tokens@.len(),
            forall|k: int| 0 <= k < i ==> ((#[trigger] tokens@[k]).kind matches TokenKind::CharLiteral(v) ==> v >= 0),
        decreases tokens.len() - i,
    {
        match &tokens[i].kind {
            TokenKind::CharLiteral(v) => {
                if *v < 0 {
                    return false;
                }
            },
            _ => {},
        }
        i = i + 1;
    }
    true
}

/// A copy of a parameter list.
fn clone_raw_params(params: &Vec<RawParam>) -> (r: Vec<RawParam>)
    ensures
        r@.len() == params@.len(),
        forall|i: int| 0 <= i < params@.len() ==> spec_same_raw_param(#[trigger] r@[i], params@[i]),
{
    let mut out: Vec<RawParam> = Vec::new();
    let mut i: usize = 0;
    while i < params.len()
        invariant
            i <= params@.len(),
            out@.len() == i,
            forall|k: int| 0 <= k < i ==> spec_same_raw_param(#[trigger] out@[k], params@[k]),
        decreases params.len() - i,
    {
        let p = &params[i];
        let name = match &p.name {
            Some(n) => Some(n.clone()),
            None => None,
        };
        out.push(RawParam { ty: clone_type(&p.ty), ty_span: p.ty_span, name, name_span: p.name_span });
        i = i + 1;
    }
    out
}

/// Two parameters are the same: the same type (as a model), spans and name.
pub open spec fn spec_same_raw_param(a: RawParam, b: RawParam) -> bool {
    &&& ty(a.ty) == ty(b.ty)
    &&& a.ty_span == b.ty_span
    &&& a.name == b.name
    &&& a.name_span == b.name_span
}

/// What a declarator declares on a base type: an object of a type, a function
/// returning a type, or nothing valid (an array or a function of functions).
pub enum LoweredModel {
    Object(TypeModel),
    Function(TypeModel),
    Invalid,
}

/// The declarator applied to the base type, from the outside in: a pointer
/// declarator makes the base a pointer, an array or function suffix wraps the
/// type of what it is attached to.
pub open spec fn spec_lower(base: TypeModel, d: Declarator) -> LoweredModel
    decreases d,
{
    match d {
        Declarator::Name { .. } => LoweredModel::Object(base),
        Declarator::Pointer(inner) => spec_lower(TypeModel::Pointer(Box::new(base)), *inner),
        Declarator::Array { inner, len } => match spec_lower(base, *inner) {
            LoweredModel::Object(t) => LoweredModel::Object(TypeModel::Array { element: Box::new(t), len }),
            _ => LoweredModel::Invalid,
        },
        Declarator::Function { inner, .. } => match spec_lower(base, *inner) {
            LoweredModel::Object(t) => LoweredModel::Function(t),
            _ => LoweredModel::Invalid,
        },
    }
}

/// The span of the name a declarator declares.
pub open spec fn spec_declarator_name_span(d: Declarator) -> Span
    decreases d,
{
    match d {
        Declarator::Name { name_span, .. } => name_span,
        Declarator::Pointer(inner) => spec_declarator_name_span(*inner),
        Declarator::Array { inner, .. } => spec_declarator_name_span(*inner),
        Declarator::Function { inner, .. } => spec_declarator_name_span(*inner),
    }
}

/// The parameters of the outermost function suffix of a declarator, past its pointers and arrays.
pub open spec fn spec_declarator_params(d: Declarator) -> Seq<RawParam>
    decreases d,
{
    match d {
        Declarator::Name { .. } => Seq::empty(),
        Declarator::Pointer(inner) => spec_declarator_params(*inner),
        Declarator::Array { inner, .. } => spec_declarator_params(*inner),
        Declarator::Function { params, .. } => params@,
    }
}

/// Resolves a declarator against the type of its declaration specifiers.
pub fn lower_declarator(base_type: &Type, declarator: &Declarator) -> (r: Result<LoweredDeclarator, ParseError>)
    ensures
        r matches Ok(LoweredDeclarator::Object { name, .. }) ==> name@ == spec_declarator_name(*declarator),
        r matches Ok(LoweredDeclarator::Function { name, .. }) ==> name@ == spec_declarator_name(*declarator),
        match spec_lower(ty(*base_type), *declarator) {
            LoweredModel::Object(t) => r matches Ok(LoweredDeclarator::Object { ty: lt, name_span, .. }) && ty(lt) == t
                && name_span == spec_declarator_name_span(*declarator),
            LoweredModel::Function(t) => r matches Ok(LoweredDeclarator::Function { return_type, name_span, params, .. })
                && ty(return_type) == t && name_span == spec_declarator_name_span(*declarator)
                && params@.len() == spec_declarator_params(*declarator).len()
                && forall|i: int| 0 <= i < params@.len() ==> spec_same_raw_param(#[trigger] params@[i], spec_declarator_params(*declarator)[i]),
            LoweredModel::Invalid => r is Err,
        },
    decreases declarator,
{
    match declarator {
        Declarator::Name { name, name_span } => Ok(
            LoweredDeclarator::Object { ty: clone_type(base_type), name: name.clone(), name_span: *name_span },
        ),
        Declarator::Pointer(inner) => {
            let pointer = Type::Pointer(Box::new(clone_type(base_type)));
            lower_declarator(&pointer, inner)
        },
        Declarator::Array { inner, len } => {
            match lower_declarator(base_type, inner)? {
                LoweredDeclarator::Object { ty, name, name_span } => Ok(
                    LoweredDeclarator::Object { ty: Type::Array { element: Box::new(ty), len: *len }, name, name_span },
                ),
                LoweredDeclarator::Function { name_span, .. } => Err(ParseError {
                    message: String::from_str("function returning array is unsupported"),
                    span: name_span,
                }),
            }
        },
        Declarator::Function { inner, params } => {
            match lower_declarator(base_type, inner)? {
                LoweredDeclarator::Object { ty, name, name_span } => Ok(
                    LoweredDeclarator::Function { return_type: ty, name, name_span, params: clone_raw_params(params) },
                ),
                LoweredDeclarator::Function { name_span, .. } => Err(ParseError {
                    message: String::from_str("function returning function is unsupported"),
                    span: name_span,
                }),
            }
        },
    }
}

fn raw_param_to_decl(raw: RawParam) -> (p: ParamDecl)
    ensures
        p.name == raw.name,
        p.name_span == raw.name_span,
        p.ty == raw.ty,
{
    ParamDecl { ty: raw.ty, name: raw.name, name_span: raw.name_span }
}

/// A definition's parameter: one without a name is an error at its type.
fn raw_param_to_def(raw: RawParam) -> (r: Result<Param, ParseError>)
    ensures
        raw.name is None ==> r is Err,
        r matches Ok(p) ==> raw.name == Some(p.name) && p.ty == raw.ty,
        r matches Err(e) ==> e.span == raw.ty_span,
{
    match raw.name {
        None => Err(ParseError {
            message: String::from_str("expected parameter name in function definition"),
            span: raw.ty_span,
        }),
        Some(name) => {
            let name_span = match raw.name_span {
                Some(s) => s,
                None => raw.ty_span,
            };
            Ok(Param { ty: raw.ty, name, name_span })
        },
    }
}

/// Whether `name` is a typedef name in scope.
pub open spec fn spec_is_typedef_name(typedefs: Seq<(String, Type)>, name: Seq<char>) -> bool {
    exists|i: int| 0 <= i < typedefs.len() && typedefs[i].0@ == name
}

/// The tokens of a declaration specifier: `typedef`, `const`, the type words
/// and typedef names.
pub open spec fn spec_is_spec_word(k: TokenKind, typedefs: Seq<(String, Type)>) -> bool {
    match k {
        TokenKind::KwTypedef | TokenKind::KwConst | TokenKind::KwUnsigned | TokenKind::KwSigned | TokenKind::KwInt
        | TokenKind::KwChar | TokenKind::KwLong => true,
        TokenKind::Ident(name) => spec_is_typedef_name(typedefs, name@),
        _ => false,
    }
}

/// Tokens that close an expression: `;`, `)`, `,`, `]` and `}`.
pub open spec fn spec_is_stop(k: TokenKind) -> bool {
    k is Semicolon || k is RParen || k is Comma || k is RBracket || k is RBrace
}

/// An integer literal at `p`, followed by a token that closes an expression.
pub open spec fn spec_literal_then_stop(ts: Seq<Token>, p: int) -> bool {
    &&& 0 <= p && p + 1 < ts.len()
    &&& ts[p].kind is IntLiteral
    &&& spec_is_stop(ts[p + 1].kind)
}

/// Where a statement of a plain form that starts at `p` ends: `;`, `break;`,
/// `continue;`, a literal followed by `;`, `return` of a literal, `while`,
/// `if` (with no `else`) and `for (;;)` with a literal condition and a plain
/// body, `do` with a plain body, and a block of plain statements.
pub open spec fn spec_plain_stmt_end(ts: Seq<Token>, p: int) -> Option<int>
    decreases ts.len() - p, 0nat,
{
    if !(0 <= p && p + 1 < ts.len()) {
        None
    } else {
        match ts[p].kind {
            TokenKind::Semicolon => Some(p + 1),
            TokenKind::KwBreak | TokenKind::KwContinue => if ts[p + 1].kind is Semicolon { Some(p + 2) } else { None },
            TokenKind::IntLiteral { .. } => if ts[p + 1].kind is Semicolon { Some(p + 2) } else { None },
            TokenKind::KwReturn => if spec_literal_then_stop(ts, p + 1) && ts[p + 2].kind is Semicolon { Some(p + 3) } else { None },
            TokenKind::KwWhile => if p + 4 < ts.len() && ts[p + 1].kind is LParen && spec_literal_then_stop(ts, p + 2)
                && ts[p + 3].kind is RParen {
                spec_plain_stmt_end(ts, p + 4)
            } else {
                None
            },
            TokenKind::KwIf => if p + 4 < ts.len() && ts[p + 1].kind is LParen && spec_literal_then_stop(ts, p + 2)
                && ts[p + 3].kind is RParen {
                match spec_plain_stmt_end(ts, p + 4) {
                    Some(q) => if 0 <= q < ts.len() && !(ts[q].kind is KwElse) { Some(q) } else { None },
                    None => None,
                }
            } else {
                None
            },
            TokenKind::KwFor => if p + 5 < ts.len() && ts[p + 1].kind is LParen && ts[p + 2].kind is Semicolon
                && ts[p + 3].kind is Semicolon && ts[p + 4].kind is RParen {
                spec_plain_stmt_end(ts, p + 5)
            } else {
                None
            },
            TokenKind::KwDo => match spec_plain_stmt_end(ts, p + 1) {
                Some(q) => if 0 <= q && q + 5 < ts.len() && ts[q].kind is KwWhile && ts[q + 1].kind is LParen
                    && spec_literal_then_stop(ts, q + 2) && ts[q + 3].kind is RParen && ts[q + 4].kind is Semicolon {
                    Some(q + 5)
                } else {
                    None
                },
                None => None,
            },
            TokenKind::LBrace => spec_plain_block_end(ts, p + 1),
            _ => None,
        }
    }
}

/// Where plain statements from `p` up to and including a closing `}` end.
pub open spec fn spec_plain_block_end(ts: Seq<Token>, p: int) -> Option<int>
    decreases ts.len() - p, 1nat,
{
    if !(0 <= p < ts.len()) {
        None
    } else if ts[p].kind is RBrace {
        Some(p + 1)
    } else {
        match spec_plain_stmt_end(ts, p) {
            Some(q) => if p < q <= ts.len() { spec_plain_block_end(ts, q) } else { None },
            None => None,
        }
    }
}

/// `int name;` at `p`, where `name` is not a typedef name.
pub open spec fn spec_plain_int_decl_at(ts: Seq<Token>, tds: Seq<(String, Type)>, p: int) -> bool {
    &&& 0 <= p && p + 2 < ts.len()
    &&& ts[p].kind is KwInt
    &&& ts[p + 1].kind matches TokenKind::Ident(n) && !spec_is_typedef_name(tds, n@)
    &&& ts[p + 2].kind is Semicolon
}

/// A name followed by `()` and then `{` at `p`: the head of a function
/// definition without parameters.
pub open spec fn spec_empty_params_head(ts: Seq<Token>, p: int) -> bool {
    &&& 0 <= p && p + 3 < ts.len()
    &&& ts[p].kind is Ident
    &&& ts[p + 1].kind is LParen
    &&& ts[p + 2].kind is RParen
    &&& ts[p + 3].kind is LBrace
}

/// A function declarator with no parameters around a bare name.
pub open spec fn spec_empty_params_fn(d: Declarator) -> bool {
    d matches Declarator::Function { inner, params } && *inner is Name && params@.len() == 0
}

/// `int name() { ... }` at `p`, with a body of plain statements, where `name`
/// is not a typedef name: where the definition ends.
pub open spec fn spec_plain_function_end(ts: Seq<Token>, tds: Seq<(String, Type)>, p: int) -> Option<int> {
    if 0 <= p && ts[p].kind is KwInt && spec_empty_params_head(ts, p + 1) && (ts[p + 1].kind matches TokenKind::Ident(n)
        && !spec_is_typedef_name(tds, n@)) {
        spec_plain_block_end(ts, p + 5)
    } else {
        None
    }
}

/// From `p` on, declarations `int name;` and definitions `int name() { ... }`
/// with bodies of plain statements, and then the end marker.
pub open spec fn spec_plain_globals(ts: Seq<Token>, p: int) -> bool
    decreases ts.len() - p,
{
    if !(0 <= p < ts.len()) {
        false
    } else if ts[p].kind is Eof {
        true
    } else if spec_plain_int_decl_at(ts, Seq::empty(), p) {
        spec_plain_globals(ts, p + 3)
    } else {
        match spec_plain_function_end(ts, Seq::empty(), p) {
            Some(q) => if p < q <= ts.len() { spec_plain_globals(ts, q) } else { false },
            None => false,
        }
    }
}

/// The end of the run of declaration-specifier tokens that starts at `p`.
pub open spec fn spec_spec_words_end(ts: Seq<Token>, typedefs: Seq<(String, Type)>, p: int) -> int
    decreases ts.len() - p,
{
    if 0 <= p < ts.len() && spec_is_spec_word(ts[p].kind, typedefs) {
        spec_spec_words_end(ts, typedefs, p + 1)
    } else {
        p
    }
}

/// The declaration-specifier tokens that name a type: all but `typedef` and `const`.
pub open spec fn spec_is_type_word(k: TokenKind, typedefs: Seq<(String, Type)>) -> bool {
    spec_is_spec_word(k, typedefs) && !(k is KwTypedef) && !(k is KwConst)
}

/// The type words among `ts`, in order.
pub open spec fn spec_type_words(ts: Seq<Token>, typedefs: Seq<(String, Type)>) -> Seq<Token>
    decreases ts.len(),
{
    if ts.len() == 0 {
        Seq::empty()
    } else if spec_is_type_word(ts.last().kind, typedefs) {
        spec_type_words(ts.drop_last(), typedefs).push(ts.last())
    } else {
        spec_type_words(ts.drop_last(), typedefs)
    }
}

proof fn lemma_type_words_push(ts: Seq<Token>, t: Token, typedefs: Seq<(String, Type)>)
    ensures
        spec_type_words(ts.push(t), typedefs) == if spec_is_type_word(t.kind, typedefs) {
            spec_type_words(ts, typedefs).push(t)
        } else {
            spec_type_words(ts, typedefs)
        },
{
    assert(ts.push(t).drop_last() =~= ts);
}

/// How many of the specifiers satisfy `pick`.
pub open spec fn spec_count_specifiers(ss: Seq<TypeSpecifier>, pick: spec_fn(TypeSpecifier) -> bool) -> nat
    decreases ss.len(),
{
    if ss.len() == 0 {
        0
    } else {
        spec_count_specifiers(ss.drop_last(), pick) + if pick(ss.last()) { 1nat } else { 0nat }
    }
}

/// The builtin type words of a list of specifiers, counted.
pub open spec fn spec_type_spec_of(ss: Seq<TypeSpecifier>) -> TypeSpec {
    TypeSpec {
        unsigned: spec_count_specifiers(ss, |s: TypeSpecifier| s is Unsigned) > 0,
        signed: spec_count_specifiers(ss, |s: TypeSpecifier| s is Signed) > 0,
        int_count: spec_count_specifiers(ss, |s: TypeSpecifier| s is Int) as usize,
        char_count: spec_count_specifiers(ss, |s: TypeSpecifier| s is Char) as usize,
        long_count: spec_count_specifiers(ss, |s: TypeSpecifier| s is Long) as usize,
    }
}

proof fn lemma_count_specifiers_push(ss: Seq<TypeSpecifier>, s: TypeSpecifier, pick: spec_fn(TypeSpecifier) -> bool)
    ensures
        spec_count_specifiers(ss.push(s), pick) == spec_count_specifiers(ss, pick) + if pick(s) { 1nat } else { 0nat },
        spec_count_specifiers(ss, pick) <= ss.len(),
    decreases ss.len(),
{
    assert(ss.push(s).drop_last() =~= ss);
    if ss.len() > 0 {
        lemma_count_specifiers_push(ss.drop_last(), ss.last(), pick);
        assert(ss.drop_last().push(ss.last()) =~= ss);
    }
}

/// How many of the tokens have a kind that satisfies `pick`.
pub open spec fn spec_count_kinds(words: Seq<Token>, pick: spec_fn(TokenKind) -> bool) -> nat
    decreases words.len(),
{
    if words.len() == 0 {
        0
    } else {
        spec_count_kinds(words.drop_last(), pick) + if pick(words.last().kind) { 1nat } else { 0nat }
    }
}

/// The builtin type words among declaration-specifier words, counted.
pub open spec fn spec_words_type_spec(words: Seq<Token>) -> TypeSpec {
    TypeSpec {
        unsigned: spec_count_kinds(words, |k: TokenKind| k is KwUnsigned) > 0,
        signed: spec_count_kinds(words, |k: TokenKind| k is KwSigned) > 0,
        int_count: spec_count_kinds(words, |k: TokenKind| k is KwInt) as usize,
        char_count: spec_count_kinds(words, |k: TokenKind| k is KwChar) as usize,
        long_count: spec_count_kinds(words, |k: TokenKind| k is KwLong) as usize,
    }
}

/// A type that the type words of a declaration specifier name: with builtin
/// words only, the type their combination spells; with a typedef name among
/// them, the type of a typedef of that name.
pub open spec fn spec_words_name(words: Seq<Token>, tds: Seq<(String, Type)>, t: TypeModel) -> bool {
    if forall|i: int| 0 <= i < words.len() ==> !((#[trigger] words[i]).kind is Ident) {
        spec_lower_type_spec(spec_words_type_spec(words)) matches Some(b) && ty(b) == t
    } else {
        exists|i: int, k: int|
            0 <= i < words.len() && 0 <= k < tds.len() && ((#[trigger] words[i]).kind matches TokenKind::Ident(n)
                && (#[trigger] tds[k]).0@ == n@ && ty(tds[k].1) == t)
    }
}

proof fn lemma_counts_agree(
    ss: Seq<TypeSpecifier>,
    words: Seq<Token>,
    ps: spec_fn(TypeSpecifier) -> bool,
    pk: spec_fn(TokenKind) -> bool,
)
    requires
        ss.len() == words.len(),
        forall|i: int| 0 <= i < ss.len() ==> ps(#[trigger] ss[i]) == pk(words[i].kind),
    ensures
        spec_count_specifiers(ss, ps) == spec_count_kinds(words, pk),
    decreases ss.len(),
{
    if ss.len() > 0 {
        assert(ps(ss[ss.len() - 1]) == pk(words[words.len() - 1].kind));
        assert forall|i: int| 0 <= i < ss.drop_last().len() implies ps(#[trigger] ss.drop_last()[i]) == pk(
            words.drop_last()[i].kind,
        ) by {
            assert(ps(ss[i]) == pk(words[i].kind));
        }
        lemma_counts_agree(ss.drop_last(), words.drop_last(), ps, pk);
    }
}

/// Specifiers read from words count the words' builtin types.
proof fn lemma_type_spec_of_words(ss: Seq<TypeSpecifier>, words: Seq<Token>)
    requires
        ss.len() == words.len(),
        forall|i: int| 0 <= i < ss.len() ==> specifier_of(#[trigger] ss[i], words[i]),
    ensures
        spec_type_spec_of(ss) == spec_words_type_spec(words),
{
    assert forall|i: int| 0 <= i < ss.len() implies ((|s: TypeSpecifier| s is Unsigned)(#[trigger] ss[i]) == (|k: TokenKind| k is KwUnsigned)(words[i].kind))
        && ((|s: TypeSpecifier| s is Signed)(ss[i]) == (|k: TokenKind| k is KwSigned)(words[i].kind))
        && ((|s: TypeSpecifier| s is Int)(ss[i]) == (|k: TokenKind| k is KwInt)(words[i].kind))
        && ((|s: TypeSpecifier| s is Char)(ss[i]) == (|k: TokenKind| k is KwChar)(words[i].kind))
        && ((|s: TypeSpecifier| s is Long)(ss[i]) == (|k: TokenKind| k is KwLong)(words[i].kind)) by {
        assert(specifier_of(ss[i], words[i]));
    }
    lemma_counts_agree(ss, words, |s: TypeSpecifier| s is Unsigned, |k: TokenKind| k is KwUnsigned);
    lemma_counts_agree(ss, words, |s: TypeSpecifier| s is Signed, |k: TokenKind| k is KwSigned);
    lemma_counts_agree(ss, words, |s: TypeSpecifier| s is Int, |k: TokenKind| k is KwInt);
    lemma_counts_agree(ss, words, |s: TypeSpecifier| s is Char, |k: TokenKind| k is KwChar);
    lemma_counts_agree(ss, words, |s: TypeSpecifier| s is Long, |k: TokenKind| k is KwLong);
}

/// The type that lowering a declaration specifier gives is one its words name.
proof fn lemma_lowered_words_name(ss: Seq<TypeSpecifier>, words: Seq<Token>, tds: Seq<(String, Type)>, b: Type)
    requires
        ss.len() == words.len(),
        forall|i: int| 0 <= i < ss.len() ==> specifier_of(#[trigger] ss[i], words[i]),
        (forall|i: int| 0 <= i < ss.len() ==> !(#[trigger] ss[i] is TypedefName)) ==> spec_lower_type_spec(
            spec_type_spec_of(ss),
        ) == Some(b),
        (exists|i: int| 0 <= i < ss.len() && #[trigger] ss[i] is TypedefName) ==> exists|j: int, k: int|
            0 <= j < ss.len() && 0 <= k < tds.len() && (#[trigger] ss[j] matches TypeSpecifier::TypedefName { name, .. }
                && #[trigger] tds[k].0@ == name@ && ty(b) == ty(tds[k].1)),
    ensures
        spec_words_name(words, tds, ty(b)),
{
    if forall|i: int| 0 <= i < ss.len() ==> !(#[trigger] ss[i] is TypedefName) {
        assert forall|i: int| 0 <= i < words.len() implies !((#[trigger] words[i]).kind is Ident) by {
            assert(specifier_of(ss[i], words[i]));
            assert(!(ss[i] is TypedefName));
        }
        lemma_type_spec_of_words(ss, words);
    } else {
        let i0 = choose|i: int| 0 <= i < ss.len() && #[trigger] ss[i] is TypedefName;
        assert(specifier_of(ss[i0], words[i0]));
        let (j, k) = choose|j: int, k: int|
            0 <= j < ss.len() && 0 <= k < tds.len() && (#[trigger] ss[j] matches TypeSpecifier::TypedefName { name, .. }
                && #[trigger] tds[k].0@ == name@ && ty(b) == ty(tds[k].1));
        assert(specifier_of(ss[j], words[j]));
        assert(words[j].kind is Ident);
        assert(tds[k] == tds[k]);
    }
}

/// Each specifier records the type word at its place.
spec fn spec_specifiers_of(ss: Seq<TypeSpecifier>, words: Seq<Token>) -> bool {
    &&& ss.len() == words.len()
    &&& forall|i: int| 0 <= i < ss.len() ==> specifier_of(#[trigger] ss[i], words[i])
}

/// The word `int`, followed by a token that is not a declaration specifier,
/// is a run of specifier words of its own, with `int` its one type word.
proof fn lemma_int_head(ts: Seq<Token>, tds: Seq<(String, Type)>, p: int)
    requires
        0 <= p && p + 1 < ts.len(),
        ts[p].kind is KwInt,
        !spec_is_spec_word(ts[p + 1].kind, tds),
    ensures
        spec_spec_words_end(ts, tds, p) == p + 1,
        spec_type_words(ts.subrange(p, p + 1), tds) == seq![ts[p]],
{
    assert(spec_spec_words_end(ts, tds, p + 1) == p + 1);
    let w = ts.subrange(p, p + 1);
    assert(w.drop_last() =~= Seq::<Token>::empty());
    assert(w.last() == ts[p]);
    assert(spec_type_words(w.drop_last(), tds) =~= Seq::<Token>::empty());
    assert(spec_type_words(w, tds) =~= seq![ts[p]]);
}

/// Of `typedef int`, only `int` is a type word.
proof fn lemma_typedef_int_words(ts: Seq<Token>, tds: Seq<(String, Type)>, p: int)
    requires
        0 <= p && p + 2 < ts.len(),
        ts[p].kind is KwTypedef,
        ts[p + 1].kind is KwInt,
    ensures
        spec_type_words(ts.subrange(p, p + 2), tds) == seq![ts[p + 1]],
{
    let w = ts.subrange(p, p + 2);
    assert(w.drop_last() =~= ts.subrange(p, p + 1));
    assert(w.last() == ts[p + 1]);
    let w1 = ts.subrange(p, p + 1);
    assert(w1.drop_last() =~= Seq::<Token>::empty());
    assert(w1.last() == ts[p]);
    assert(spec_type_words(w1.drop_last(), tds) =~= Seq::<Token>::empty());
    assert(spec_type_words(w1, tds) =~= Seq::<Token>::empty());
    assert(spec_type_words(w, tds) =~= seq![ts[p + 1]]);
}

/// A lone `int` specifier names `int`.
proof fn lemma_int_specifiers(ss: Seq<TypeSpecifier>)
    requires
        ss.len() == 1,
        ss[0] is Int,
    ensures
        spec_lower_type_spec(spec_type_spec_of(ss)) == Some(Type::Int),
        forall|i: int| 0 <= i < ss.len() ==> !(#[trigger] ss[i] is TypedefName),
{
    assert(ss.drop_last() =~= Seq::<TypeSpecifier>::empty());
    assert(ss.last() == ss[0]);
    assert(Seq::<TypeSpecifier>::empty().push(ss[0]) =~= ss);
    lemma_count_specifiers_push(Seq::<TypeSpecifier>::empty(), ss[0], |s: TypeSpecifier| s is Unsigned);
    lemma_count_specifiers_push(Seq::<TypeSpecifier>::empty(), ss[0], |s: TypeSpecifier| s is Signed);
    lemma_count_specifiers_push(Seq::<TypeSpecifier>::empty(), ss[0], |s: TypeSpecifier| s is Int);
    lemma_count_specifiers_push(Seq::<TypeSpecifier>::empty(), ss[0], |s: TypeSpecifier| s is Char);
    lemma_count_specifiers_push(Seq::<TypeSpecifier>::empty(), ss[0], |s: TypeSpecifier| s is Long);
    assert(spec_count_specifiers(ss, |s: TypeSpecifier| s is Unsigned) == 0);
    assert(spec_count_specifiers(ss, |s: TypeSpecifier| s is Signed) == 0);
    assert(spec_count_specifiers(ss, |s: TypeSpecifier| s is Int) == 1);
    assert(spec_count_specifiers(ss, |s: TypeSpecifier| s is Char) == 0);
    assert(spec_count_specifiers(ss, |s: TypeSpecifier| s is Long) == 0);
}

/// A type specifier records the type word it was read from.
spec fn specifier_of(s: TypeSpecifier, t: Token) -> bool {
    match s {
        TypeSpecifier::Char => t.kind is KwChar,
        TypeSpecifier::Int => t.kind is KwInt,
        TypeSpecifier::Signed => t.kind is KwSigned,
        TypeSpecifier::Unsigned => t.kind is KwUnsigned,
        TypeSpecifier::Long => t.kind is KwLong,
        TypeSpecifier::TypedefName { name, span } => t.kind matches TokenKind::Ident(n) && n@ == name@ && span == t.span,
    }
}

/// An init-declarator from `i` up to `j`: a declarator, then `=` and an initializer if there is one.
spec fn spec_parses_init_declarator(ts: Seq<Token>, tds: Seq<(String, Type)>, i: int, d: InitDeclarator, j: int) -> bool {
    exists|k: int|
        #![trigger spec_pos(ts, k)]
        spec_pos(ts, k) && spec_parses_declarator(ts, tds, i, d.declarator, k) && match d.initializer {
            Some(init) => ts[k].kind is Equal && spec_parses_initializer(ts, tds, k + 1, init, j),
            None => !(ts[k].kind is Equal) && j == k,
        }
}

/// Init-declarators separated by commas from `i` up to `j`.
spec fn spec_parses_init_declarators(ts: Seq<Token>, tds: Seq<(String, Type)>, i: int, ds: Seq<InitDeclarator>, j: int) -> bool
    decreases ds.len(),
{
    if ds.len() == 0 {
        false
    } else if ds.len() == 1 {
        spec_parses_init_declarator(ts, tds, i, ds[0], j)
    } else {
        exists|k: int|
            #![trigger spec_pos(ts, k)]
            spec_pos(ts, k) && spec_parses_init_declarator(ts, tds, i, ds[0], k) && ts[k].kind is Comma
                && spec_parses_init_declarators(ts, tds, k + 1, ds.drop_first(), j)
    }
}

proof fn lemma_init_declarators_snoc(
    ts: Seq<Token>,
    tds: Seq<(String, Type)>,
    i: int,
    ds: Seq<InitDeclarator>,
    k: int,
    d: InitDeclarator,
    m: int,
)
    requires
        spec_parses_init_declarators(ts, tds, i, ds, k),
        spec_pos(ts, k),
        ts[k].kind is Comma,
        spec_parses_init_declarator(ts, tds, k + 1, d, m),
    ensures
        spec_parses_init_declarators(ts, tds, i, ds.push(d), m),
    decreases ds.len(),
{
    if ds.len() == 1 {
        let two = ds.push(d);
        assert(two[0] == ds[0]);
        assert(two.drop_first() =~= seq![d]);
        assert(spec_parses_init_declarators(ts, tds, k + 1, two.drop_first(), m));
    } else {
        let k1 = choose|k1: int|
            #![trigger spec_pos(ts, k1)]
            spec_pos(ts, k1) && spec_parses_init_declarator(ts, tds, i, ds[0], k1) && ts[k1].kind is Comma
                && spec_parses_init_declarators(ts, tds, k1 + 1, ds.drop_first(), k);
        lemma_init_declarators_snoc(ts, tds, k1 + 1, ds.drop_first(), k, d, m);
        assert(ds.push(d).drop_first() =~= ds.drop_first().push(d));
        assert(ds.push(d)[0] == ds[0]);
    }
}

/// A local made from an init-declarator on a base type: the declarator's name
/// and span, the type it gives the base, and the initializer.
spec fn spec_local_of(d: InitDeclarator, l: LocalDecl, base: TypeModel) -> bool {
    &&& l.name@ == spec_declarator_name(d.declarator)
    &&& l.name_span == spec_declarator_name_span(d.declarator)
    &&& spec_lower(base, d.declarator) == LoweredModel::Object(ty(l.ty))
    &&& l.init == d.initializer
}

proof fn lemma_locals_of(
    ts: Seq<Token>,
    tds: Seq<(String, Type)>,
    i: int,
    ds: Seq<InitDeclarator>,
    ls: Seq<LocalDecl>,
    j: int,
    base: TypeModel,
)
    requires
        spec_parses_init_declarators(ts, tds, i, ds, j),
        ls.len() == ds.len(),
        forall|n: int| 0 <= n < ds.len() ==> spec_local_of(#[trigger] ds[n], ls[n], base),
    ensures
        spec_parses_locals(ts, tds, i, ls, j, base),
    decreases ds.len(),
{
    assert(spec_local_of(ds[0], ls[0], base));
    if ds.len() == 1 {
        let k = choose|k: int|
            #![trigger spec_pos(ts, k)]
            spec_pos(ts, k) && spec_parses_declarator(ts, tds, i, ds[0].declarator, k) && match ds[0].initializer {
                Some(init) => ts[k].kind is Equal && spec_parses_initializer(ts, tds, k + 1, init, j),
                None => !(ts[k].kind is Equal) && j == k,
            };
        assert(spec_declarator_name(ds[0].declarator) == spec_declarator_name(ds[0].declarator));
        assert(spec_parses_local(ts, tds, i, ls[0], j, base));
    } else {
        let k1 = choose|k1: int|
            #![trigger spec_pos(ts, k1)]
            spec_pos(ts, k1) && spec_parses_init_declarator(ts, tds, i, ds[0], k1) && ts[k1].kind is Comma
                && spec_parses_init_declarators(ts, tds, k1 + 1, ds.drop_first(), j);
        let k = choose|k: int|
            #![trigger spec_pos(ts, k)]
            spec_pos(ts, k) && spec_parses_declarator(ts, tds, i, ds[0].declarator, k) && match ds[0].initializer {
                Some(init) => ts[k].kind is Equal && spec_parses_initializer(ts, tds, k + 1, init, k1),
                None => !(ts[k].kind is Equal) && k1 == k,
            };
        assert(spec_declarator_name(ds[0].declarator) == spec_declarator_name(ds[0].declarator));
        assert(spec_parses_local(ts, tds, i, ls[0], k1, base));
        assert forall|n: int| 0 <= n < ds.drop_first().len() implies spec_local_of(#[trigger] ds.drop_first()[n], ls.drop_first()[n], base) by {
            assert(spec_local_of(ds[n + 1], ls[n + 1], base));
        }
        lemma_locals_of(ts, tds, k1 + 1, ds.drop_first(), ls.drop_first(), j, base);
    }
}

/// A `typedef` word among the tokens from `i` up to `k`.
pub open spec fn spec_has_typedef_word(ts: Seq<Token>, i: int, k: int) -> bool {
    exists|x: int| i <= x < k && (#[trigger] ts[x]).kind is KwTypedef
}

/// Declarators without initializers, separated by commas, from `i` up to `j`.
pub open spec fn spec_parses_plain_declarators(ts: Seq<Token>, tds: Seq<(String, Type)>, i: int, ds: Seq<Declarator>, j: int) -> bool
    decreases ds.len(),
{
    if ds.len() == 0 {
        false
    } else if ds.len() == 1 {
        spec_pos(ts, j) && spec_parses_declarator(ts, tds, i, ds[0], j) && !(ts[j].kind is Equal)
    } else {
        exists|k: int|
            #![trigger spec_pos(ts, k)]
            spec_pos(ts, k) && spec_parses_declarator(ts, tds, i, ds[0], k) && ts[k].kind is Comma
                && spec_parses_plain_declarators(ts, tds, k + 1, ds.drop_first(), j)
    }
}

/// The declarators of init-declarators.
spec fn spec_declarators_of(ds: Seq<InitDeclarator>) -> Seq<Declarator> {
    ds.map_values(|d: InitDeclarator| d.declarator)
}

proof fn lemma_plain_declarators(ts: Seq<Token>, tds: Seq<(String, Type)>, i: int, ds: Seq<InitDeclarator>, j: int)
    requires
        spec_parses_init_declarators(ts, tds, i, ds, j),
        forall|m: int| 0 <= m < ds.len() ==> (#[trigger] ds[m]).initializer is None,
    ensures
        spec_parses_plain_declarators(ts, tds, i, spec_declarators_of(ds), j),
    decreases ds.len(),
{
    let pd = spec_declarators_of(ds);
    assert(ds[0].initializer is None);
    if ds.len() == 1 {
        assert(pd[0] == ds[0].declarator);
    } else {
        let k1 = choose|k1: int|
            #![trigger spec_pos(ts, k1)]
            spec_pos(ts, k1) && spec_parses_init_declarator(ts, tds, i, ds[0], k1) && ts[k1].kind is Comma
                && spec_parses_init_declarators(ts, tds, k1 + 1, ds.drop_first(), j);
        assert forall|m: int| 0 <= m < ds.drop_first().len() implies (#[trigger] ds.drop_first()[m]).initializer is None by {
            assert(ds[m + 1].initializer is None);
        }
        lemma_plain_declarators(ts, tds, k1 + 1, ds.drop_first(), j);
        assert(spec_declarators_of(ds.drop_first()) =~= pd.drop_first());
        assert(pd[0] == ds[0].declarator);
        assert(spec_pos(ts, k1));
    }
}

/// A typedef made from a declarator on a base type: the declarator's name and
/// span, and the type it gives the base.
spec fn spec_typedef_of(d: Declarator, t: Typedef, base: TypeModel) -> bool {
    &&& t.name@ == spec_declarator_name(d)
    &&& t.name_span == spec_declarator_name_span(d)
    &&& spec_lower(base, d) == LoweredModel::Object(ty(t.ty))
}

/// The typedef names in scope after a typedef declaration: those before, then
/// each new typedef's name and type in order, none of them a name already in scope.
pub open spec fn spec_typedefs_added(before: Seq<(String, Type)>, v: Seq<Typedef>, after: Seq<(String, Type)>) -> bool {
    &&& after.len() == before.len() + v.len()
    &&& forall|n: int| 0 <= n < before.len() ==> #[trigger] after[n] == before[n]
    &&& forall|m: int| 0 <= m < v.len() ==> (#[trigger] v[m]).name@ == after[before.len() + m].0@ && ty(after[before.len() + m].1) == ty(v[m].ty)
    &&& forall|m: int| 0 <= m < v.len() ==> !spec_is_typedef_name(after.take(before.len() + m), (#[trigger] v[m]).name@)
}

/// What an external declaration from `i` up to `j` says of the tokens: a
/// function definition or declaration, or a global, has a head of
/// declaration-specifier words and a declarator that gives it its name, name
/// span, type and parameters; then a body between braces that ends the range,
/// a `;`, or an optional `=` and initializer and a `;`. A typedef has a head of
/// such words with `typedef` among them, then declarators without initializers,
/// one of which gives it its name, span and type, then a `;`.
pub open spec fn spec_external_decl(ts: Seq<Token>, tds: Seq<(String, Type)>, i: int, j: int, d: ExternalDecl) -> bool {
    match d {
        ExternalDecl::FunctionDef(f) => {
            exists|a: int, dc: Declarator|
                #![trigger spec_pos(ts, a), spec_declarator_name(dc)]
                spec_pos(ts, a) && ts[a].kind is LBrace && spec_parses_head(ts, tds, i, a, dc, LoweredModel::Function(ty(f.return_type)))
                    && a + 1 < j <= ts.len() && ts[j - 1].kind is RBrace && spec_parses_stmts(ts, tds, a + 1, f.body@, j - 1)
                    && f.name@ == spec_declarator_name(dc) && f.name_span == spec_declarator_name_span(dc)
                    && f.params@.len() == spec_declarator_params(dc).len() && forall|n: int| 0 <= n < f.params@.len() ==> (
                spec_declarator_params(dc)[n].name == Some((#[trigger] f.params@[n]).name) && ty(f.params@[n].ty) == ty(
                    spec_declarator_params(dc)[n].ty,
                ))
        },
        ExternalDecl::FunctionDecl(fd) => exists|a: int, dc: Declarator|
            #![trigger spec_pos(ts, a), spec_declarator_name(dc)]
            spec_pos(ts, a) && ts[a].kind is Semicolon && j == a + 1 && spec_parses_head(ts, tds, i, a, dc, LoweredModel::Function(ty(fd.return_type)))
                && fd.name@ == spec_declarator_name(dc) && fd.name_span == spec_declarator_name_span(dc)
                && fd.params@.len() == spec_declarator_params(dc).len() && forall|n: int| 0 <= n < fd.params@.len() ==> (
            (#[trigger] fd.params@[n]).name == spec_declarator_params(dc)[n].name && ty(fd.params@[n].ty) == ty(
                spec_declarator_params(dc)[n].ty,
            )),
        ExternalDecl::Global(g) => exists|a: int, dc: Declarator|
            #![trigger spec_pos(ts, a), spec_declarator_name(dc)]
            spec_pos(ts, a) && spec_parses_head(ts, tds, i, a, dc, LoweredModel::Object(ty(g.ty))) && g.name@ == spec_declarator_name(dc)
                && g.name_span == spec_declarator_name_span(dc) && match g.init {
                None => ts[a].kind is Semicolon && j == a + 1,
                Some(init) => ts[a].kind is Equal && 0 < j && ts[j - 1].kind is Semicolon && spec_parses_initializer(ts, tds, a + 1, init, j - 1),
            },
        ExternalDecl::Typedef(t) => exists|k: int, base: TypeModel, ds: Seq<Declarator>, m: int|
            #![trigger spec_pos(ts, k), spec_lower(base, ds[m])]
            spec_pos(ts, k) && spec_type_name_range(ts, tds, i, k) && spec_has_typedef_word(ts, i, k)
                && spec_words_name(spec_type_words(ts.subrange(i, k), tds), tds, base) && k < j - 1 && j <= ts.len()
                && ts[j - 1].kind is Semicolon && spec_parses_plain_declarators(ts, tds, k, ds, j - 1) && 0 <= m < ds.len()
                && t.name@ == spec_declarator_name(ds[m]) && t.name_span == spec_declarator_name_span(ds[m]) && spec_lower(
                base,
                ds[m],
            ) == LoweredModel::Object(ty(t.ty)),
    }
}

/// One external declaration from `i` up to `j`, with the typedef names `tds` in
/// scope before it and `after` after it: a function or a global, which leaves
/// the scope as it was, or a typedef declaration, which gives one or more
/// typedefs and adds their names.
pub open spec fn spec_decl_chunk(
    ts: Seq<Token>,
    tds: Seq<(String, Type)>,
    i: int,
    ds: Seq<ExternalDecl>,
    j: int,
    after: Seq<(String, Type)>,
) -> bool {
    &&& ds.len() >= 1
    &&& i < j
    &&& forall|m: int| 0 <= m < ds.len() ==> spec_external_decl(ts, tds, i, j, #[trigger] ds[m])
    &&& if ds[0] is Typedef {
        &&& forall|m: int| 0 <= m < ds.len() ==> (#[trigger] ds[m]) is Typedef
        &&& spec_typedefs_added(tds, ds.map_values(|d: ExternalDecl| d->Typedef_0), after)
    } else {
        ds.len() == 1 && after == tds
    }
}

/// The declarations `ds` read in order from `i` up to `j`, one external
/// declaration after another, with the typedef names `tds` in scope at the start
/// and `after` at the end.
pub open spec fn spec_decls_between(
    ts: Seq<Token>,
    tds: Seq<(String, Type)>,
    i: int,
    ds: Seq<ExternalDecl>,
    j: int,
    after: Seq<(String, Type)>,
) -> bool
    decreases ds.len(),
{
    if ds.len() == 0 {
        i == j && after == tds
    } else {
        exists|n: int, k: int, mid: Seq<(String, Type)>|
            #![trigger spec_decl_chunk(ts, tds, i, ds.take(n), k, mid)]
            1 <= n <= ds.len() && spec_decl_chunk(ts, tds, i, ds.take(n), k, mid) && spec_decls_between(
                ts,
                mid,
                k,
                ds.skip(n),
                j,
                after,
            )
    }
}

proof fn lemma_decls_snoc(
    ts: Seq<Token>,
    tds: Seq<(String, Type)>,
    i: int,
    ds: Seq<ExternalDecl>,
    j: int,
    mid: Seq<(String, Type)>,
    new: Seq<ExternalDecl>,
    k: int,
    after: Seq<(String, Type)>,
)
    requires
        spec_decls_between(ts, tds, i, ds, j, mid),
        spec_decl_chunk(ts, mid, j, new, k, after),
    ensures
        spec_decls_between(ts, tds, i, ds + new, k, after),
    decreases ds.len(),
{
    let all = ds + new;
    if ds.len() == 0 {
        assert(all =~= new);
        assert(all.take(new.len() as int) =~= new);
        assert(all.skip(new.len() as int) =~= Seq::<ExternalDecl>::empty());
        assert(spec_decls_between(ts, after, k, all.skip(new.len() as int), k, after));
        assert(spec_decl_chunk(ts, tds, i, all.take(new.len() as int), k, after));
    } else {
        let (n, k1, mid1) = choose|n: int, k1: int, mid1: Seq<(String, Type)>|
            #![trigger spec_decl_chunk(ts, tds, i, ds.take(n), k1, mid1)]
            1 <= n <= ds.len() && spec_decl_chunk(ts, tds, i, ds.take(n), k1, mid1) && spec_decls_between(
                ts,
                mid1,
                k1,
                ds.skip(n),
                j,
                mid,
            );
        lemma_decls_snoc(ts, mid1, k1, ds.skip(n), j, mid, new, k, after);
        assert(ds.skip(n) + new =~= all.skip(n));
        assert(ds.take(n) =~= all.take(n));
    }
}

/// A program read from a token stream: its declarations, read in order from
/// the start of the stream, one external declaration after another, with the
/// typedef names of each typedef declaration in scope after it, end at an end
/// marker, whose span is the program's end span.
pub open spec fn spec_parsed(tokens: Seq<Token>, p: Program) -> bool {
    exists|e: int, tds: Seq<(String, Type)>|
        #![trigger spec_decls_between(tokens, Seq::empty(), 0, p.declarations@, e, tds)]
        0 <= e < tokens.len() && tokens[e].kind is Eof && tokens[e].span == p.eof_span && spec_decls_between(
            tokens,
            Seq::empty(),
            0,
            p.declarations@,
            e,
            tds,
        )
}

struct Parser {
    tokens: Vec<Token>,
    pos: usize,
    typedefs: Vec<(String, Type)>,
}

impl Parser {
    spec fn inv(&self) -> bool {
        &&& self.pos < self.tokens@.len()
        &&& parseable_tokens(self.tokens@)
    }

    /// The token stream is unchanged and the position has not moved back.
    spec fn moved_on(&self, old: &Parser) -> bool {
        &&& self.tokens@ == old.tokens@
        &&& self.pos >= old.pos
    }

    spec fn remaining(&self) -> nat {
        (self.tokens@.len() - self.pos) as nat
    }

    fn peek(&self) -> (t: &Token)
        requires
            self.inv(),
        ensures
            *t == self.tokens@[self.pos as int],
    {
        &self.tokens[self.pos]
    }

    fn peek_nth(&self, n: usize) -> (t: &Token)
        requires
            self.inv(),
        ensures
            t.kind == spec_kind_at(self.tokens@, self.pos + n),
    {
        if n < self.tokens.len() - self.pos {
            &self.tokens[self.pos + n]
        } else {
            &self.tokens[self.tokens.len() - 1]
        }
    }

    fn peek_is(&self, kind: &TokenKind) -> (b: bool)
        requires
            self.inv(),
        ensures
            b == spec_kind_eq(self.tokens@[self.pos as int].kind, *kind),
    {
        kind_eq(&self.tokens[self.pos].kind, kind)
    }

    /// Consumes the current token; the end marker stays current once reached.
    fn advance(&mut self) -> (t: Token)
        requires
            old(self).inv(),
        ensures
            final(self).inv(),
            final(self).moved_on(old(self)),
            final(self).typedefs == old(self).typedefs,
            spec_kind_eq(t.kind, old(self).tokens@[old(self).pos as int].kind),
            t.span == old(self).tokens@[old(self).pos as int].span,
            !(old(self).tokens@[old(self).pos as int].kind is Eof) ==> final(self).pos == old(self).pos + 1,
    {
        let token = clone_token(&self.tokens[self.pos]);
        if self.tokens.len() - self.pos > 1 {
            self.pos = self.pos + 1;
        }
        token
    }

    fn expect(&mut self, expected: &TokenKind) -> (r: Result<Token, ParseError>)
        requires
            old(self).inv(),
        ensures
            final(self).inv(),
            final(self).moved_on(old(self)),
            final(self).typedefs == old(self).typedefs,
            r is Ok <==> spec_kind_eq(old(self).tokens@[old(self).pos as int].kind, *expected),
            !(old(self).tokens@[old(self).pos as int].kind is Eof) ==> final(self).pos == old(self).pos + 1,
            r matches Ok(t) ==> t.span == old(self).tokens@[old(self).pos as int].span,
    {
        let token = self.advance();
        if kind_eq(&token.kind, expected) {
            Ok(token)
        } else {
            let mut msg = String::from_str("expected ");
            push_kind_debug(&mut msg, expected);
            push_str(&mut msg, ", found ");
            push_kind_debug(&mut msg, &token.kind);
            Err(ParseError { message: msg, span: token.span })
        }
    }

    fn expect_ident(&mut self) -> (r: Result<(String, Span), ParseError>)
        requires
            old(self).inv(),
        ensures
            final(self).inv(),
            final(self).moved_on(old(self)),
            final(self).typedefs == old(self).typedefs,
            r is Ok ==> final(self).pos == old(self).pos + 1,
            r matches Ok((name, _)) ==> old(self).tokens@[old(self).pos as int].kind matches TokenKind::Ident(n) && n@ == name@,
            r matches Ok((_, span)) ==> span == old(self).tokens@[old(self).pos as int].span,
            r is Ok <==> old(self).tokens@[old(self).pos as int].kind is Ident,
            r matches Err(e) ==> e.span == old(self).tokens@[old(self).pos as int].span && e.message@
                == "expected identifier token, got '"@ + spec_kind_debug(old(self).tokens@[old(self).pos as int].kind) + "'"@,
    {
        let ghost k0 = self.tokens@[self.pos as int].kind;
        let token = self.advance();
        match token.kind {
            TokenKind::Ident(name) => Ok((name, token.span)),
            kind => {
                let mut msg = String::from_str("expected identifier token, got '");
                push_kind_debug(&mut msg, &kind);
                push_str(&mut msg, "'");
                proof {
                    lemma_kind_debug_eq(kind, k0);
                }
                Err(ParseError { message: msg, span: token.span })
            },
        }
    }

    fn expect_int_literal(&mut self) -> (r: Result<(u64, Span), ParseError>)
        requires
            old(self).inv(),
        ensures
            final(self).inv(),
            final(self).moved_on(old(self)),
            final(self).typedefs == old(self).typedefs,
            r is Ok ==> final(self).pos == old(self).pos + 1,
            r matches Ok((v, span)) ==> span == old(self).tokens@[old(self).pos as int].span
                && (old(self).tokens@[old(self).pos as int].kind matches TokenKind::IntLiteral { value, .. } && value == v),
            r is Ok <==> old(self).tokens@[old(self).pos as int].kind is IntLiteral,
            r matches Err(e) ==> e.span == old(self).tokens@[old(self).pos as int].span && e.message@
                == "expected integer literal token, got '"@ + spec_kind_debug(old(self).tokens@[old(self).pos as int].kind) + "'"@,
    {
        let ghost k0 = self.tokens@[self.pos as int].kind;
        let token = self.advance();
        match token.kind {
            TokenKind::IntLiteral { value, .. } => Ok((value, token.span)),
            kind => {
                let mut msg = String::from_str("expected integer literal token, got '");
                push_kind_debug(&mut msg, &kind);
                push_str(&mut msg, "'");
                proof {
                    lemma_kind_debug_eq(kind, k0);
                }
                Err(ParseError { message: msg, span: token.span })
            },
        }
    }

    fn typedef_index(&self, name: &String) -> (r: Option<usize>)
        ensures
            r matches Some(i) ==> i < self.typedefs@.len() && self.typedefs@[i as int].0@ == name@,
            r is None ==> forall|i: int| 0 <= i < self.typedefs@.len() ==> self.typedefs@[i].0@ != name@,
    {
        let mut i: usize = 0;
        while i < self.typedefs.len()
            invariant
                i <= self.typedefs@.len(),
                forall|k: int| 0 <= k < i ==> self.typedefs@[k].0@ != name@,
            decreases self.typedefs.len() - i,
        {
            if self.typedefs[i].0 == *name {
                return Some(i);
            }
            i = i + 1;
        }
        None
    }

    fn is_typedef_name(&self, name: &String) -> (b: bool)
        ensures
            b == spec_is_typedef_name(self.typedefs@, name@),
    {
        self.typedef_index(name).is_some()
    }

    /// Tokens that start a declaration: type words, `const`, and typedef names.
    fn is_type_decl(&self, kind: &TokenKind) -> (b: bool)
        ensures
            b == spec_is_type_decl(self.typedefs@, *kind),
    {
        match kind {
            TokenKind::KwInt | TokenKind::KwChar | TokenKind::KwUnsigned | TokenKind::KwLong | TokenKind::KwSigned
            | TokenKind::KwConst => true,
            TokenKind::Ident(name) => self.is_typedef_name(name),
            _ => false,
        }
    }

    /// Reads declaration-specifier tokens while they last; at least one must name a type.
    fn parse_decl_spec(&mut self) -> (r: Result<(DeclSpec, Span), ParseError>)
        requires
            old(self).inv(),
        ensures
            final(self).inv(),
            final(self).moved_on(old(self)),
            final(self).typedefs == old(self).typedefs,
            r is Ok ==> final(self).pos > old(self).pos,
            forall|k: int| old(self).pos <= k < final(self).pos ==> spec_is_spec_word(
                #[trigger] old(self).tokens@[k].kind,
                old(self).typedefs@,
            ),
            r is Ok ==> !spec_is_spec_word(old(self).tokens@[final(self).pos as int].kind, old(self).typedefs@),
            final(self).pos == spec_spec_words_end(old(self).tokens@, old(self).typedefs@, old(self).pos as int),
            r is Ok <==> spec_type_words(
                old(self).tokens@.subrange(old(self).pos as int, final(self).pos as int),
                old(self).typedefs@,
            ).len() > 0,
            r matches Ok((spec, span)) ==> {
                let words = spec_type_words(
                    old(self).tokens@.subrange(old(self).pos as int, final(self).pos as int),
                    old(self).typedefs@,
                );
                &&& span == old(self).tokens@[old(self).pos as int].span
                &&& spec.type_specifiers@.len() == words.len()
                &&& forall|i: int| 0 <= i < words.len() ==> specifier_of(#[trigger] spec.type_specifiers@[i], words[i])
                &&& spec.is_typedef <==> exists|k: int| old(self).pos <= k < final(self).pos && (#[trigger] old(self).tokens@[k]).kind is KwTypedef
            },
    {
        let start = self.peek().span;
        let ghost p0 = self.pos as int;
        let ghost tds = self.typedefs@;
        let mut spec = DeclSpec { is_typedef: false, type_specifiers: Vec::new() };
        let mut saw_any = false;
        let mut saw_type = false;
        proof {
            assert(self.tokens@.subrange(p0, p0) =~= Seq::<Token>::empty());
        }
        loop
            invariant
                self.inv(),
                self.moved_on(old(self)),
                self.typedefs == old(self).typedefs,
                p0 == old(self).pos,
                tds == self.typedefs@,
                start == old(self).tokens@[p0].span,
                saw_any <==> self.pos > p0,
                forall|k: int| p0 <= k < self.pos ==> spec_is_spec_word(#[trigger] self.tokens@[k].kind, tds),
                spec_spec_words_end(self.tokens@, tds, self.pos as int) == spec_spec_words_end(self.tokens@, tds, p0),
                saw_type <==> spec_type_words(self.tokens@.subrange(p0, self.pos as int), tds).len() > 0,
                spec.type_specifiers@.len() == spec_type_words(self.tokens@.subrange(p0, self.pos as int), tds).len(),
                forall|i: int| 0 <= i < spec.type_specifiers@.len() ==> specifier_of(
                    #[trigger] spec.type_specifiers@[i],
                    spec_type_words(self.tokens@.subrange(p0, self.pos as int), tds)[i],
                ),
                spec.is_typedef <==> exists|k: int| p0 <= k < self.pos && (#[trigger] self.tokens@[k]).kind is KwTypedef,
            ensures
                self.inv(),
                self.moved_on(old(self)),
                self.typedefs == old(self).typedefs,
                saw_any <==> self.pos > p0,
                forall|k: int| p0 <= k < self.pos ==> spec_is_spec_word(#[trigger] self.tokens@[k].kind, tds),
                !spec_is_spec_word(self.tokens@[self.pos as int].kind, tds),
                saw_type <==> spec_type_words(self.tokens@.subrange(p0, self.pos as int), tds).len() > 0,
                spec.type_specifiers@.len() == spec_type_words(self.tokens@.subrange(p0, self.pos as int), tds).len(),
                forall|i: int| 0 <= i < spec.type_specifiers@.len() ==> specifier_of(
                    #[trigger] spec.type_specifiers@[i],
                    spec_type_words(self.tokens@.subrange(p0, self.pos as int), tds)[i],
                ),
                spec.is_typedef <==> exists|k: int| p0 <= k < self.pos && (#[trigger] self.tokens@[k]).kind is KwTypedef,
            decreases self.tokens@.len() - self.pos,
        {
            let ghost pos = self.pos as int;
            let ghost before = spec.type_specifiers@;
            let ghost cur = self.tokens@[pos];
            let kind_is_eof = matches!(self.tokens[self.pos].kind, TokenKind::Eof);
            if kind_is_eof {
                break;
            }
            proof {
                assert(self.tokens@.subrange(p0, pos + 1) =~= self.tokens@.subrange(p0, pos).push(cur));
                lemma_type_words_push(self.tokens@.subrange(p0, pos), cur, tds);
            }
            match &self.tokens[self.pos].kind {
                TokenKind::KwTypedef => {
                    self.advance();
                    spec.is_typedef = true;
                    saw_any = true;
                },
                TokenKind::KwConst => {
                    self.advance();
                    saw_any = true;
                },
                TokenKind::KwUnsigned => {
                    self.advance();
                    spec.type_specifiers.push(TypeSpecifier::Unsigned);
                    saw_any = true;
                    saw_type = true;
                },
                TokenKind::KwSigned => {
                    self.advance();
                    spec.type_specifiers.push(TypeSpecifier::Signed);
                    saw_any = true;
                    saw_type = true;
                },
                TokenKind::KwInt => {
                    self.advance();
                    spec.type_specifiers.push(TypeSpecifier::Int);
                    saw_any = true;
                    saw_type = true;
                },
                TokenKind::KwChar => {
                    self.advance();
                    spec.type_specifiers.push(TypeSpecifier::Char);
                    saw_any = true;
                    saw_type = true;
                },
                TokenKind::KwLong => {
                    self.advance();
                    spec.type_specifiers.push(TypeSpecifier::Long);
                    saw_any = true;
                    saw_type = true;
                },
                TokenKind::Ident(name) => {
                    if self.is_typedef_name(name) {
                        let name = name.clone();
                        let span = self.advance().span;
                        spec.type_specifiers.push(TypeSpecifier::TypedefName { name, span });
                        saw_any = true;
                        saw_type = true;
                    } else {
                        break;
                    }
                },
                _ => {
                    break;
                },
            }
            proof {
                assert(self.pos == pos + 1);
                assert forall|i: int| 0 <= i < spec.type_specifiers@.len() implies specifier_of(
                    #[trigger] spec.type_specifiers@[i],
                    spec_type_words(self.tokens@.subrange(p0, self.pos as int), tds)[i],
                ) by {
                    if i < before.len() {
                        assert(spec.type_specifiers@[i] == before[i]);
                    }
                }
                if cur.kind is KwTypedef {
                    assert(self.tokens@[pos].kind is KwTypedef);
                }
            }
        }
        if !saw_any || !saw_type {
            let token = self.peek();
            let mut msg = String::from_str("expected declaration specifier, found ");
            push_kind_debug(&mut msg, &token.kind);
            return Err(ParseError { message: msg, span: token.span });
        }
        Ok((spec, start))
    }

    /// The type a declaration specifier names: a typedef name alone, or a
    /// valid combination of builtin type words.
    fn lower_decl_spec(&self, spec: &DeclSpec, span: Span) -> (r: Result<Type, ParseError>)
        ensures
            (forall|i: int| 0 <= i < spec.type_specifiers@.len() ==> !(#[trigger] spec.type_specifiers@[i] is TypedefName))
                ==> (r matches Ok(t) ==> spec_lower_type_spec(spec_type_spec_of(spec.type_specifiers@)) == Some(t)),
            (forall|i: int| 0 <= i < spec.type_specifiers@.len() ==> !(#[trigger] spec.type_specifiers@[i] is TypedefName))
                ==> (r is Err ==> spec_lower_type_spec(spec_type_spec_of(spec.type_specifiers@)) is None),
            r is Ok && (exists|i: int| 0 <= i < spec.type_specifiers@.len() && #[trigger] spec.type_specifiers@[i] is TypedefName)
                ==> {
                &&& spec_type_spec_of(spec.type_specifiers@) == (TypeSpec {
                    unsigned: false,
                    signed: false,
                    int_count: 0,
                    char_count: 0,
                    long_count: 0,
                })
                &&& forall|j: int, l: int| 0 <= j < l < spec.type_specifiers@.len() ==> !(spec.type_specifiers@[j] is TypedefName
                    && spec.type_specifiers@[l] is TypedefName)
                &&& exists|j: int, k: int| 0 <= j < spec.type_specifiers@.len() && 0 <= k < self.typedefs@.len() && (
                #[trigger] spec.type_specifiers@[j] matches TypeSpecifier::TypedefName { name, .. } && #[trigger] self.typedefs@[k].0@
                    == name@ && ty(r->Ok_0) == ty(self.typedefs@[k].1))
            },
    {
        let mut typedef_name: Option<(usize, Span)> = None;
        let mut type_spec = TypeSpec { unsigned: false, signed: false, int_count: 0, char_count: 0, long_count: 0 };
        let ghost ss = spec.type_specifiers@;
        let mut i: usize = 0;
        proof {
            assert(ss.take(0) =~= Seq::<TypeSpecifier>::empty());
        }
        while i < spec.type_specifiers.len()
            invariant
                ss == spec.type_specifiers@,
                i <= ss.len(),
                typedef_name matches Some((k, _)) ==> k < self.typedefs@.len(),
                type_spec == spec_type_spec_of(ss.take(i as int)),
                typedef_name is None <==> (forall|j: int| 0 <= j < i ==> !(#[trigger] ss[j] is TypedefName)),
                typedef_name matches Some((k, _)) ==> exists|j: int| 0 <= j < i && (#[trigger] ss[j] matches TypeSpecifier::TypedefName { name, .. }
                    && self.typedefs@[k as int].0@ == name@),
                typedef_name matches Some((k, _)) ==> forall|j: int, l: int| 0 <= j < l < i ==> !(ss[j] is TypedefName && ss[l] is TypedefName),
            decreases spec.type_specifiers.len() - i,
        {
            proof {
                assert(ss.take(i as int + 1) =~= ss.take(i as int).push(ss[i as int]));
                lemma_count_specifiers_push(ss.take(i as int), ss[i as int], |s: TypeSpecifier| s is Unsigned);
                lemma_count_specifiers_push(ss.take(i as int), ss[i as int], |s: TypeSpecifier| s is Signed);
                lemma_count_specifiers_push(ss.take(i as int), ss[i as int], |s: TypeSpecifier| s is Int);
                lemma_count_specifiers_push(ss.take(i as int), ss[i as int], |s: TypeSpecifier| s is Char);
                lemma_count_specifiers_push(ss.take(i as int), ss[i as int], |s: TypeSpecifier| s is Long);
            }
            match &spec.type_specifiers[i] {
                TypeSpecifier::TypedefName { name, span } => {
                    if typedef_name.is_some() {
                        return Err(ParseError {
                            message: String::from_str("multiple typedef names in declaration specifier"),
                            span: *span,
                        });
                    }
                    match self.typedef_index(name) {
                        Some(k) => {
                            typedef_name = Some((k, *span));
                        },
                        None => {
                            let mut msg = String::from_str("unknown typedef name '");
                            push_str(&mut msg, name.as_str());
                            push_str(&mut msg, "'");
                            return Err(ParseError { message: msg, span: *span });
                        },
                    }
                },
                TypeSpecifier::Unsigned => type_spec.unsigned = true,
                TypeSpecifier::Signed => type_spec.signed = true,
                TypeSpecifier::Int => {
                    if type_spec.int_count < usize::MAX {
                        type_spec.int_count = type_spec.int_count + 1;
                    }
                },
                TypeSpecifier::Char => {
                    if type_spec.char_count < usize::MAX {
                        type_spec.char_count = type_spec.char_count + 1;
                    }
                },
                TypeSpecifier::Long => {
                    if type_spec.long_count < usize::MAX {
                        type_spec.long_count = type_spec.long_count + 1;
                    }
                },
            }
            i = i + 1;
        }
        proof {
            assert(ss.take(i as int) =~= ss);
        }
        let saw_builtin = type_spec.unsigned || type_spec.signed || type_spec.int_count > 0 || type_spec.char_count > 0
            || type_spec.long_count > 0;
        match typedef_name {
            Some((k, name_span)) => {
                if saw_builtin {
                    return Err(ParseError {
                        message: String::from_str("cannot combine typedef name with other type specifiers"),
                        span: name_span,
                    });
                }
                Ok(clone_type(&self.typedefs[k].1))
            },
            None => lower_type_spec(type_spec, span),
        }
    }

    fn parse_type(&mut self) -> (r: Result<Type, ParseError>)
        requires
            old(self).inv(),
        ensures
            final(self).inv(),
            final(self).moved_on(old(self)),
            final(self).typedefs == old(self).typedefs,
            r is Ok ==> final(self).pos > old(self).pos,
            r is Ok ==> spec_type_name_range(old(self).tokens@, old(self).typedefs@, old(self).pos as int, final(self).pos as int),
            r matches Ok(t) ==> spec_words_name(
                spec_type_words(old(self).tokens@.subrange(old(self).pos as int, final(self).pos as int), old(self).typedefs@),
                old(self).typedefs@,
                ty(t),
            ),
            old(self).tokens@[old(self).pos as int].kind is KwInt && old(self).pos + 1 < old(self).tokens@.len() && !spec_is_spec_word(
                old(self).tokens@[old(self).pos + 1].kind,
                old(self).typedefs@,
            ) ==> r is Ok && final(self).pos == old(self).pos + 1,
    {
        let ghost ts = self.tokens@;
        let ghost tds = self.typedefs@;
        let ghost i = self.pos as int;
        proof {
            if ts[i].kind is KwInt && i + 1 < ts.len() && !spec_is_spec_word(ts[i + 1].kind, tds) {
                lemma_int_head(ts, tds, i);
            }
        }
        let (spec, span) = self.parse_decl_spec()?;
        let ghost k = self.pos as int;
        proof {
            if ts[i].kind is KwInt && i + 1 < ts.len() && !spec_is_spec_word(ts[i + 1].kind, tds) {
                assert(specifier_of(spec.type_specifiers@[0], ts[i]));
                lemma_int_specifiers(spec.type_specifiers@);
            }
        }
        let t = self.lower_decl_spec(&spec, span)?;
        proof {
            lemma_lowered_words_name(spec.type_specifiers@, spec_type_words(ts.subrange(i, k), tds), tds, t);
        }
        Ok(t)
    }

    fn parse_abstract_pointer_type(&mut self, base: &Type) -> (t: Type)
        requires
            old(self).inv(),
        ensures
            final(self).inv(),
            final(self).moved_on(old(self)),
            final(self).typedefs == old(self).typedefs,
            final(self).pos == spec_star_end(old(self).tokens@, old(self).pos as int),
            ty(t) == spec_pointer_to(ty(*base), (final(self).pos - old(self).pos) as nat),
    {
        let mut t = clone_type(base);
        loop
            invariant
                self.inv(),
                self.moved_on(old(self)),
                self.typedefs == old(self).typedefs,
                spec_star_end(self.tokens@, self.pos as int) == spec_star_end(old(self).tokens@, old(self).pos as int),
                ty(t) == spec_pointer_to(ty(*base), (self.pos - old(self).pos) as nat),
            ensures
                self.inv(),
                self.moved_on(old(self)),
                self.typedefs == old(self).typedefs,
                self.pos == spec_star_end(old(self).tokens@, old(self).pos as int),
                ty(t) == spec_pointer_to(ty(*base), (self.pos - old(self).pos) as nat),
            decreases self.tokens@.len() - self.pos,
        {
            if !matches!(self.tokens[self.pos].kind, TokenKind::Star) {
                break;
            }
            self.advance();
            t = Type::Pointer(Box::new(t));
        }
        t
    }

    /// One parameter of a parameter list: a type, optionally followed by
    /// stars and a name, or by a full declarator.
    fn parse_raw_param(&mut self) -> (r: Result<RawParam, ParseError>)
        requires
            old(self).inv(),
        ensures
            final(self).inv(),
            final(self).moved_on(old(self)),
            final(self).typedefs == old(self).typedefs,
            r is Ok ==> final(self).pos > old(self).pos,
            r matches Ok(p) ==> spec_parses_raw_param(old(self).tokens@, old(self).typedefs@, old(self).pos as int, p, final(self).pos as int),
            old(self).tokens@[old(self).pos as int].kind is KwInt && old(self).pos + 1 < old(self).tokens@.len() && (
            old(self).tokens@[old(self).pos + 1].kind is Comma || old(self).tokens@[old(self).pos + 1].kind is RParen) ==> r is Ok
                && final(self).pos == old(self).pos + 1,
        decreases old(self).remaining(), 1nat,
    {
        let ghost ts = self.tokens@;
        let ghost tds = self.typedefs@;
        let ghost i = self.pos as int;
        let ghost plain = ts[i].kind is KwInt && i + 1 < ts.len() && (ts[i + 1].kind is Comma || ts[i + 1].kind is RParen);
        proof {
            if plain {
                lemma_int_head(ts, tds, i);
            }
        }
        let (spec, ty_span) = self.parse_decl_spec()?;
        let ghost k = self.pos as int;
        proof {
            if plain {
                assert(specifier_of(spec.type_specifiers@[0], ts[i]));
                lemma_int_specifiers(spec.type_specifiers@);
            }
        }
        let ty = self.lower_decl_spec(&spec, ty_span)?;
        proof {
            assert(spec_pos(ts, k));
            assert(spec_type_name_range(ts, tds, i, k));
            lemma_lowered_words_name(spec.type_specifiers@, spec_type_words(ts.subrange(i, k), tds), tds, ty);
        }
        if matches!(self.tokens[self.pos].kind, TokenKind::Comma | TokenKind::RParen) {
            Ok(RawParam { ty, ty_span, name: None, name_span: None })
        } else if matches!(self.tokens[self.pos].kind, TokenKind::Star) {
            let ty = self.parse_abstract_pointer_type(&ty);
            match &self.tokens[self.pos].kind {
                TokenKind::Comma | TokenKind::RParen => Ok(RawParam { ty, ty_span, name: None, name_span: None }),
                TokenKind::Ident(_) => {
                    let (name, name_span) = self.expect_ident()?;
                    Ok(RawParam { ty, ty_span, name: Some(name), name_span: Some(name_span) })
                },
                _ => {
                    let token = self.peek();
                    let mut msg = String::from_str("expected pointer type, got unexpected token '");
                    push_kind_debug(&mut msg, &token.kind);
                    push_str(&mut msg, "'");
                    Err(ParseError { message: msg, span: token.span })
                },
            }
        } else {
            let declarator = self.parse_declarator()?;
            match lower_declarator(&ty, &declarator)? {
                LoweredDeclarator::Object { ty, name, name_span } => {
                    let p = RawParam { ty, ty_span, name: Some(name), name_span: Some(name_span) };
                    proof {
                        assert(spec_declarator_name(declarator) == spec_declarator_name(declarator));
                    }
                    Ok(p)
                },
                LoweredDeclarator::Function { name_span, .. } => Err(ParseError {
                    message: String::from_str("function parameter declarators are not supported"),
                    span: name_span,
                }),
            }
        }
    }

    fn trailing_comma_error(&self) -> (e: ParseError)
        requires
            self.inv(),
        ensures
            e.span == self.tokens@[self.pos as int].span,
    {
        ParseError { message: String::from_str("trailing comma"), span: self.peek().span }
    }

    fn parse_declarator(&mut self) -> (r: Result<Declarator, ParseError>)
        requires
            old(self).inv(),
        ensures
            final(self).inv(),
            final(self).moved_on(old(self)),
            final(self).typedefs == old(self).typedefs,
            r is Ok ==> final(self).pos > old(self).pos,
            r matches Ok(d) ==> spec_parses_declarator(old(self).tokens@, old(self).typedefs@, old(self).pos as int, d, final(self).pos as int),
            old(self).tokens@[old(self).pos as int].kind is Ident && old(self).pos + 1 < old(self).tokens@.len() && spec_is_stop(
                old(self).tokens@[old(self).pos + 1].kind,
            ) ==> (r matches Ok(Declarator::Name { name, .. }) && old(self).tokens@[old(self).pos as int].kind matches TokenKind::Ident(n)
                && name@ == n@ && final(self).pos == old(self).pos + 1),
            spec_empty_params_head(old(self).tokens@, old(self).pos as int) ==> (r matches Ok(d) && spec_empty_params_fn(d)
                && final(self).pos == old(self).pos + 3),
        decreases old(self).remaining(), 3nat,
    {
        if matches!(self.tokens[self.pos].kind, TokenKind::Star) {
            self.advance();
            let inner = self.parse_declarator()?;
            return Ok(Declarator::Pointer(Box::new(inner)));
        }
        self.parse_direct_declarator()
    }

    fn parse_direct_declarator(&mut self) -> (r: Result<Declarator, ParseError>)
        requires
            old(self).inv(),
        ensures
            final(self).inv(),
            final(self).moved_on(old(self)),
            final(self).typedefs == old(self).typedefs,
            r is Ok ==> final(self).pos > old(self).pos,
            r matches Ok(d) ==> spec_parses_direct(old(self).tokens@, old(self).typedefs@, old(self).pos as int, d, final(self).pos as int),
            old(self).tokens@[old(self).pos as int].kind is Ident && old(self).pos + 1 < old(self).tokens@.len() && spec_is_stop(
                old(self).tokens@[old(self).pos + 1].kind,
            ) ==> (r matches Ok(Declarator::Name { name, .. }) && old(self).tokens@[old(self).pos as int].kind matches TokenKind::Ident(n)
                && name@ == n@ && final(self).pos == old(self).pos + 1),
            spec_empty_params_head(old(self).tokens@, old(self).pos as int) ==> (r matches Ok(d) && spec_empty_params_fn(d)
                && final(self).pos == old(self).pos + 3),
        decreases old(self).remaining(), 2nat,
    {
        let ghost ts = self.tokens@;
        let ghost tds = self.typedefs@;
        let ghost i = self.pos as int;
        let ghost fshape = spec_empty_params_head(ts, i);
        let (name, name_span) = self.expect_ident()?;
        let mut declarator = Declarator::Name { name, name_span };
        loop
            invariant
                self.inv(),
                self.moved_on(old(self)),
                self.typedefs == old(self).typedefs,
                self.pos > old(self).pos,
                ts == self.tokens@,
                tds == self.typedefs@,
                i == old(self).pos,
                spec_parses_direct_chain(ts, tds, i, declarator, self.pos as int),
                ts[i].kind is Ident && i + 1 < ts.len() && spec_is_stop(ts[i + 1].kind) ==> self.pos == i + 1,
                fshape == spec_empty_params_head(ts, i),
                fshape ==> (self.pos == i + 1 && declarator is Name) || (self.pos == i + 3 && spec_empty_params_fn(declarator)),
            ensures
                self.inv(),
                self.moved_on(old(self)),
                self.typedefs == old(self).typedefs,
                self.pos > old(self).pos,
                spec_parses_direct_chain(ts, tds, i, declarator, self.pos as int),
                ts[i].kind is Ident && i + 1 < ts.len() && spec_is_stop(ts[i + 1].kind) ==> self.pos == i + 1,
                fshape ==> self.pos == i + 3 && spec_empty_params_fn(declarator),
                !(ts[self.pos as int].kind is LBracket || ts[self.pos as int].kind is LParen),
            decreases self.tokens@.len() - self.pos,
        {
            let ghost k = self.pos as int;
            if matches!(self.tokens[self.pos].kind, TokenKind::LBracket) {
                self.advance();
                let (len, len_span) = self.expect_int_literal()?;
                if len < 1 {
                    let mut msg = String::from_str("array size must be greater than 0, got '");
                    push_u64(&mut msg, len);
                    push_str(&mut msg, "'");
                    return Err(ParseError { message: msg, span: len_span });
                }
                self.expect(&TokenKind::RBracket)?;
                if len > usize::MAX as u64 {
                    return Err(ParseError { message: String::from_str("array size too large"), span: len_span });
                }
                declarator = Declarator::Array { inner: Box::new(declarator), len: len as usize };
            } else if matches!(self.tokens[self.pos].kind, TokenKind::LParen) {
                let ghost iter_start = self.pos;
                self.advance();
                let mut params: Vec<RawParam> = Vec::new();
                loop
                    invariant
                        self.inv(),
                        self.moved_on(old(self)),
                        self.typedefs == old(self).typedefs,
                        self.pos > old(self).pos,
                        self.pos > iter_start,
                        iter_start == k,
                        ts == self.tokens@,
                        tds == self.typedefs@,
                        spec_params_upto(ts, tds, k + 1, params@, self.pos as int),
                        !(ts[i].kind is Ident && i + 1 < ts.len() && spec_is_stop(ts[i + 1].kind)),
                        i == old(self).pos,
                        fshape == spec_empty_params_head(ts, i),
                        fshape ==> self.pos == i + 2 && params@.len() == 0 && k == i + 1 && declarator is Name,
                    ensures
                        self.inv(),
                        self.moved_on(old(self)),
                        self.typedefs == old(self).typedefs,
                        self.pos > iter_start,
                        spec_params_upto(ts, tds, k + 1, params@, self.pos as int),
                        ts[self.pos as int].kind is RParen,
                        fshape ==> self.pos == i + 2 && params@.len() == 0 && k == i + 1 && declarator is Name,
                    decreases self.tokens@.len() - self.pos,
                {
                    if matches!(self.tokens[self.pos].kind, TokenKind::RParen) {
                        break;
                    }
                    let ghost a = self.pos as int;
                    let p = self.parse_raw_param()?;
                    let ghost m = self.pos as int;
                    let ghost before = params@;
                    params.push(p);
                    if matches!(self.tokens[self.pos].kind, TokenKind::Comma) {
                        self.advance();
                        if matches!(self.tokens[self.pos].kind, TokenKind::RParen) {
                            return Err(self.trailing_comma_error());
                        }
                    }
                    proof {
                        assert(params@.drop_last() =~= before);
                        assert(spec_parses_raw_param(ts, tds, a, params@.last(), m));
                    }
                }
                let ghost q = self.pos as int;
                proof {
                    lemma_params_join(ts, tds, k + 1, params@, q, seq![], q);
                    assert(params@ + seq![] =~= params@);
                }
                self.expect(&TokenKind::RParen)?;
                declarator = Declarator::Function { inner: Box::new(declarator), params };
                proof {
                    assert(spec_pos(ts, k));
                }
            } else {
                break;
            }
        }
        Ok(declarator)
    }

    fn parse_initializer(&mut self) -> (r: Result<Initializer, ParseError>)
        requires
            old(self).inv(),
        ensures
            final(self).inv(),
            final(self).moved_on(old(self)),
            final(self).typedefs == old(self).typedefs,
            r is Ok ==> final(self).pos > old(self).pos,
            r matches Ok(init) ==> spec_parses_initializer(old(self).tokens@, old(self).typedefs@, old(self).pos as int, init, final(self).pos as int),
            spec_literal_then_stop(old(self).tokens@, old(self).pos as int) ==> r is Ok && final(self).pos == old(self).pos + 1,
    {
        let ghost ts = self.tokens@;
        let ghost tds = self.typedefs@;
        let ghost i = self.pos as int;
        if matches!(self.tokens[self.pos].kind, TokenKind::LBrace) {
            self.advance();
            let mut elements: Vec<Expr> = Vec::new();
            loop
                invariant
                    self.inv(),
                    self.moved_on(old(self)),
                    self.typedefs == old(self).typedefs,
                    self.pos > old(self).pos,
                    ts == self.tokens@,
                    tds == self.typedefs@,
                    i == old(self).pos,
                    spec_init_upto(ts, tds, i + 1, elements@, self.pos as int),
                    ts[i].kind is LBrace,
                ensures
                    self.inv(),
                    self.moved_on(old(self)),
                    self.typedefs == old(self).typedefs,
                    self.pos > old(self).pos,
                    spec_init_upto(ts, tds, i + 1, elements@, self.pos as int),
                    ts[self.pos as int].kind is RBrace,
                decreases self.tokens@.len() - self.pos,
            {
                if matches!(self.tokens[self.pos].kind, TokenKind::RBrace) {
                    break;
                }
                let ghost k = self.pos as int;
                let e = self.parse_expr()?;
                let ghost m = self.pos as int;
                let ghost before = elements@;
                elements.push(e);
                if matches!(self.tokens[self.pos].kind, TokenKind::Comma) {
                    self.advance();
                }
                proof {
                    assert(elements@.drop_last() =~= before);
                    assert(spec_parses_expr(ts, tds, k, elements@.last(), m));
                }
            }
            let ghost q = self.pos as int;
            proof {
                lemma_init_join(ts, tds, i + 1, elements@, q, seq![], q);
                assert(elements@ + seq![] =~= elements@);
            }
            self.expect(&TokenKind::RBrace)?;
            Ok(Initializer::List(elements))
        } else {
            let expr = self.parse_expr()?;
            Ok(Initializer::Expr(expr))
        }
    }

    fn parse_init_declarator(&mut self) -> (r: Result<InitDeclarator, ParseError>)
        requires
            old(self).inv(),
        ensures
            final(self).inv(),
            final(self).moved_on(old(self)),
            final(self).typedefs == old(self).typedefs,
            r is Ok ==> final(self).pos > old(self).pos,
            r matches Ok(d) ==> spec_parses_init_declarator(old(self).tokens@, old(self).typedefs@, old(self).pos as int, d, final(self).pos as int),
            old(self).tokens@[old(self).pos as int].kind is Ident && old(self).pos + 1 < old(self).tokens@.len() && (
            old(self).tokens@[old(self).pos + 1].kind is Semicolon || old(self).tokens@[old(self).pos + 1].kind is Comma) ==> (r matches Ok(
                d,
            ) && d.declarator matches Declarator::Name { name, .. } && old(self).tokens@[old(self).pos as int].kind matches TokenKind::Ident(n)
                && name@ == n@ && d.initializer is None && final(self).pos == old(self).pos + 1),
    {
        let ghost ts = self.tokens@;
        let declarator = self.parse_declarator()?;
        let ghost k = self.pos as int;
        let initializer = if matches!(self.tokens[self.pos].kind, TokenKind::Equal) {
            self.advance();
            Some(self.parse_initializer()?)
        } else {
            None
        };
        proof {
            assert(spec_pos(ts, k));
        }
        Ok(InitDeclarator { declarator, initializer })
    }

    fn parse_declaration(&mut self) -> (r: Result<Declaration, ParseError>)
        requires
            old(self).inv(),
        ensures
            final(self).inv(),
            final(self).moved_on(old(self)),
            final(self).typedefs == old(self).typedefs,
            r is Ok ==> final(self).pos > old(self).pos,
            r is Ok ==> old(self).tokens@[final(self).pos - 1].kind is Semicolon,
            r matches Ok(decl) ==> exists|k: int|
                #![trigger spec_pos(old(self).tokens@, k)]
                spec_pos(old(self).tokens@, k) && spec_type_name_range(old(self).tokens@, old(self).typedefs@, old(self).pos as int, k)
                    && k < final(self).pos - 1 && decl.spec_span == old(self).tokens@[old(self).pos as int].span
                    && spec_parses_init_declarators(old(self).tokens@, old(self).typedefs@, k, decl.declarators@, final(self).pos - 1)
                    && spec_specifiers_of(decl.spec.type_specifiers@, spec_type_words(old(self).tokens@.subrange(old(self).pos as int, k), old(self).typedefs@))
                    && (decl.spec.is_typedef <==> spec_has_typedef_word(old(self).tokens@, old(self).pos as int, k)),
            spec_plain_int_decl_at(old(self).tokens@, old(self).typedefs@, old(self).pos as int) ==> (r matches Ok(decl)
                && final(self).pos == old(self).pos + 3 && decl.declarators@.len() == 1 && decl.declarators@[0].declarator is Name
                && decl.declarators@[0].initializer is None),
            old(self).tokens@[old(self).pos as int].kind is KwTypedef && spec_plain_int_decl_at(
                old(self).tokens@,
                old(self).typedefs@,
                old(self).pos + 1,
            ) ==> (r matches Ok(decl) && final(self).pos == old(self).pos + 4 && decl.declarators@.len() == 1
                && decl.declarators@[0].initializer is None && (decl.declarators@[0].declarator matches Declarator::Name { name, .. }
                && (old(self).tokens@[old(self).pos + 2].kind matches TokenKind::Ident(n) && name@ == n@))),
    {
        let ghost ts = self.tokens@;
        let ghost tds = self.typedefs@;
        let ghost i = self.pos as int;
        let ghost plain = spec_plain_int_decl_at(ts, tds, i);
        let ghost tplain = ts[i].kind is KwTypedef && spec_plain_int_decl_at(ts, tds, i + 1);
        proof {
            if plain {
                lemma_int_head(ts, tds, i);
            }
            if tplain {
                lemma_int_head(ts, tds, i + 1);
            }
        }
        let (spec, spec_span) = self.parse_decl_spec()?;
        let ghost k0 = self.pos as int;
        proof {
            assert(spec_specifiers_of(spec.type_specifiers@, spec_type_words(ts.subrange(i, k0), tds)));
            assert(spec.is_typedef <==> spec_has_typedef_word(ts, i, k0));
        }
        let mut declarators: Vec<InitDeclarator> = Vec::new();
        let first = self.parse_init_declarator()?;
        declarators.push(first);
        proof {
            assert(declarators@[0] == first);
            assert(spec_parses_init_declarators(ts, tds, k0, declarators@, self.pos as int));
        }
        loop
            invariant
                self.inv(),
                self.moved_on(old(self)),
                self.typedefs == old(self).typedefs,
                self.pos > old(self).pos,
                ts == self.tokens@,
                tds == self.typedefs@,
                k0 < self.pos,
                spec_parses_init_declarators(ts, tds, k0, declarators@, self.pos as int),
                plain ==> self.pos == i + 2 && declarators@.len() == 1 && declarators@[0].declarator is Name
                    && declarators@[0].initializer is None,
                tplain ==> self.pos == i + 3 && declarators@.len() == 1 && declarators@[0].initializer is None && (
                declarators@[0].declarator matches Declarator::Name { name, .. } && (ts[i + 2].kind matches TokenKind::Ident(n)
                    && name@ == n@)),
                tplain == (ts[i].kind is KwTypedef && spec_plain_int_decl_at(ts, tds, i + 1)),
                plain == spec_plain_int_decl_at(ts, tds, i),
                i == old(self).pos,
            decreases self.tokens@.len() - self.pos,
        {
            if !matches!(self.tokens[self.pos].kind, TokenKind::Comma) {
                break;
            }
            let ghost k = self.pos as int;
            let ghost before = declarators@;
            self.advance();
            let d = self.parse_init_declarator()?;
            declarators.push(d);
            proof {
                assert(spec_pos(ts, k));
                lemma_init_declarators_snoc(ts, tds, k0, before, k, d, self.pos as int);
            }
        }
        proof {
            assert(spec_pos(ts, k0));
            assert(spec_type_name_range(ts, tds, i, k0));
        }
        let ghost m = self.pos as int;
        self.expect(&TokenKind::Semicolon)?;
        proof {
            assert(old(self).tokens@[m].kind is Semicolon);
        }
        Ok(Declaration { spec, spec_span, declarators })
    }

    fn parse_typedefs(&mut self) -> (r: Result<Vec<Typedef>, ParseError>)
        requires
            old(self).inv(),
        ensures
            final(self).inv(),
            final(self).moved_on(old(self)),
            r is Ok ==> final(self).pos > old(self).pos,
            r matches Ok(v) ==> forall|m: int| 0 <= m < v@.len() ==> spec_external_decl(
                old(self).tokens@,
                old(self).typedefs@,
                old(self).pos as int,
                final(self).pos as int,
                ExternalDecl::Typedef(#[trigger] v@[m]),
            ),
            r matches Ok(v) ==> spec_typedefs_added(old(self).typedefs@, v@, final(self).typedefs@) && v@.len() >= 1,
            old(self).tokens@[old(self).pos as int].kind is KwTypedef && spec_plain_int_decl_at(
                old(self).tokens@,
                old(self).typedefs@,
                old(self).pos + 1,
            ) ==> r is Ok && final(self).pos == old(self).pos + 4,
    {
        let ghost ts = self.tokens@;
        let ghost tds0 = self.typedefs@;
        let ghost i0 = self.pos as int;
        let declaration = self.parse_declaration()?;
        let ghost j = self.pos as int;
        let ghost orig = declaration.declarators@;
        let ghost k0 = choose|k: int|
            #![trigger spec_pos(ts, k)]
            spec_pos(ts, k) && spec_type_name_range(ts, tds0, i0, k) && k < self.pos - 1 && declaration.spec_span
                == ts[i0].span && spec_parses_init_declarators(ts, tds0, k, orig, self.pos - 1)
                && spec_specifiers_of(declaration.spec.type_specifiers@, spec_type_words(ts.subrange(i0, k), tds0))
                && (declaration.spec.is_typedef <==> spec_has_typedef_word(ts, i0, k));
        let ghost tplain = ts[i0].kind is KwTypedef && spec_plain_int_decl_at(ts, tds0, i0 + 1);
        proof {
            if tplain {
                lemma_int_head(ts, tds0, i0 + 1);
                if k0 != i0 + 2 {
                    if k0 == i0 + 1 {
                        assert(spec_is_spec_word(ts[i0 + 1].kind, tds0));
                    } else {
                        assert(spec_is_spec_word(ts[i0 + 2].kind, tds0));
                    }
                }
                assert(spec_has_typedef_word(ts, i0, k0)) by {
                    assert(ts[i0].kind is KwTypedef);
                }
                lemma_typedef_int_words(ts, tds0, i0);
                assert(specifier_of(declaration.spec.type_specifiers@[0], ts[i0 + 1]));
                lemma_int_specifiers(declaration.spec.type_specifiers@);
            }
        }
        if !declaration.spec.is_typedef {
            return Err(ParseError { message: String::from_str("expected typedef declaration"), span: declaration.spec_span });
        }
        let base_ty = self.lower_decl_spec(&declaration.spec, declaration.spec_span)?;
        proof {
            lemma_lowered_words_name(declaration.spec.type_specifiers@, spec_type_words(ts.subrange(i0, k0), tds0), tds0, base_ty);
        }
        let mut typedefs: Vec<Typedef> = Vec::new();
        let mut i: usize = 0;
        while i < declaration.declarators.len()
            invariant
                self.inv(),
                self.moved_on(old(self)),
                self.pos > old(self).pos,
                self.pos == j,
                ts == old(self).tokens@,
                tds0 == old(self).typedefs@,
                orig == declaration.declarators@,
                i <= orig.len(),
                typedefs@.len() == i,
                spec_typedefs_added(tds0, typedefs@, self.typedefs@),
                forall|m: int| 0 <= m < i ==> (#[trigger] orig[m]).initializer is None,
                tplain ==> orig.len() == 1 && orig[0].initializer is None && (orig[0].declarator matches Declarator::Name { name, .. } && (
                ts[i0 + 2].kind matches TokenKind::Ident(n) && name@ == n@)),
                tplain ==> self.typedefs@ == tds0 || i > 0,
                tplain ==> (ts[i0 + 2].kind matches TokenKind::Ident(n) && !spec_is_typedef_name(tds0, n@)),
                tplain == (ts[i0].kind is KwTypedef && spec_plain_int_decl_at(ts, tds0, i0 + 1)),
                i0 == old(self).pos,
                tplain ==> j == i0 + 4,
                forall|m: int| 0 <= m < i ==> spec_typedef_of(orig[m].declarator, #[trigger] typedefs@[m], ty(base_ty)),
            decreases declaration.declarators.len() - i,
        {
            let init_declarator = &declaration.declarators[i];
            proof {
                if tplain {
                    assert(i == 0);
                    assert(*init_declarator == orig[0]);
                }
            }
            if init_declarator.initializer.is_some() {
                return Err(ParseError {
                    message: String::from_str("typedef declarator cannot have an initializer"),
                    span: declaration.spec_span,
                });
            }
            match lower_declarator(&base_ty, &init_declarator.declarator)? {
                LoweredDeclarator::Object { ty, name, name_span } => {
                    if self.is_typedef_name(&name) {
                        let mut msg = String::from_str("duplicate typedef with name '");
                        push_str(&mut msg, name.as_str());
                        push_str(&mut msg, "'");
                        return Err(ParseError { message: msg, span: name_span });
                    }
                    let ghost before = self.typedefs@;
                    let ghost before_v = typedefs@;
                    self.typedefs.push((name.clone(), clone_type(&ty)));
                    typedefs.push(Typedef { name, name_span, ty });
                    proof {
                        assert(typedefs@[i as int] == Typedef { name, name_span, ty });
                        assert(spec_typedef_of(orig[i as int].declarator, typedefs@[i as int], crate::ast::ty(base_ty)));
                        assert(typedefs@.drop_last() =~= before_v);
                        assert(self.typedefs@.drop_last() =~= before);
                        let after = self.typedefs@;
                        let n0 = tds0.len();
                        assert(after.take(n0 + i) =~= before);
                        assert forall|n: int| 0 <= n < n0 implies #[trigger] after[n] == tds0[n] by {
                            assert(before[n] == tds0[n]);
                        }
                        assert forall|m: int| 0 <= m < typedefs@.len() implies (#[trigger] typedefs@[m]).name@ == after[n0 + m].0@
                            && crate::ast::ty(after[n0 + m].1) == crate::ast::ty(typedefs@[m].ty) by {
                            if m < i {
                                assert(typedefs@[m] == before_v[m]);
                                assert(after[n0 + m] == before[n0 + m]);
                            }
                        }
                        assert forall|m: int| 0 <= m < typedefs@.len() implies !spec_is_typedef_name(
                            after.take(n0 + m),
                            (#[trigger] typedefs@[m]).name@,
                        ) by {
                            if m < i {
                                assert(typedefs@[m] == before_v[m]);
                                assert(after.take(n0 + m) =~= before.take(n0 + m));
                            }
                        }
                        assert forall|m: int| 0 <= m < i + 1 implies spec_typedef_of(
                            orig[m].declarator,
                            #[trigger] typedefs@[m],
                            crate::ast::ty(base_ty),
                        ) by {
                            if m < i {
                                assert(typedefs@[m] == before_v[m]);
                            }
                        }
                    }
                },
                LoweredDeclarator::Function { name_span, .. } => {
                    return Err(ParseError {
                        message: String::from_str("function typedefs are not supported"),
                        span: name_span,
                    });
                },
            }
            i = i + 1;
        }
        proof {
            lemma_plain_declarators(ts, tds0, k0, orig, j - 1);
            let pd = spec_declarators_of(orig);
            assert forall|m: int| 0 <= m < typedefs@.len() implies spec_external_decl(
                ts,
                tds0,
                i0,
                j,
                ExternalDecl::Typedef(#[trigger] typedefs@[m]),
            ) by {
                assert(spec_typedef_of(orig[m].declarator, typedefs@[m], ty(base_ty)));
                assert(pd[m] == orig[m].declarator);
                assert(spec_pos(ts, k0));
                assert(spec_lower(ty(base_ty), pd[m]) == LoweredModel::Object(ty(typedefs@[m].ty)));
            }
            assert(orig.len() >= 1);
        }
        Ok(typedefs)
    }

    // Expressions

    fn parse_expr(&mut self) -> (r: Result<Expr, ParseError>)
        requires
            old(self).inv(),
        ensures
            final(self).inv(),
            final(self).moved_on(old(self)),
            final(self).typedefs == old(self).typedefs,
            r is Ok ==> final(self).pos > old(self).pos,
            r matches Ok(e) ==> spec_parses_expr(old(self).tokens@, old(self).typedefs@, old(self).pos as int, e, final(self).pos as int),
            spec_literal_then_stop(old(self).tokens@, old(self).pos as int) ==> r is Ok && final(self).pos == old(self).pos + 1,
            spec_is_stop(old(self).tokens@[old(self).pos as int].kind) ==> (r matches Err(e) && e.span == old(self).tokens@[
                old(self).pos as int
            ].span && e.message@ == "expected expression, found "@ + spec_kind_debug(old(self).tokens@[old(self).pos as int].kind)),
        decreases old(self).remaining(), 15nat,
    {
        self.parse_assignment()
    }

    fn parse_assignment(&mut self) -> (r: Result<Expr, ParseError>)
        requires
            old(self).inv(),
        ensures
            final(self).inv(),
            final(self).moved_on(old(self)),
            final(self).typedefs == old(self).typedefs,
            r is Ok ==> final(self).pos > old(self).pos,
            r matches Ok(e) ==> spec_parses_assignment(old(self).tokens@, old(self).typedefs@, old(self).pos as int, e, final(self).pos as int),
            spec_literal_then_stop(old(self).tokens@, old(self).pos as int) ==> r is Ok && final(self).pos == old(self).pos + 1,
            spec_is_stop(old(self).tokens@[old(self).pos as int].kind) ==> (r matches Err(e) && e.span == old(self).tokens@[
                old(self).pos as int
            ].span && e.message@ == "expected expression, found "@ + spec_kind_debug(old(self).tokens@[old(self).pos as int].kind)),
        decreases old(self).remaining(), 14nat,
    {
        let ghost ts = self.tokens@;
        let ghost tds = self.typedefs@;
        let ghost i = self.pos as int;
        let left = self.parse_binary(10)?;
        let ghost k = self.pos as int;
        match assignment_op(&self.tokens[self.pos].kind) {
            Some(compound_op) => {
                let op_span = self.advance().span;
                let value = self.parse_assignment()?;
                match compound_op {
                    Some(op) => {
                        let e = Expr::CompoundAssign { target: Box::new(left), op, op_span, value: Box::new(value) };
                        proof {
                            assert(ts[k].span == op_span);
                        }
                        Ok(e)
                    },
                    None => {
                        let e = Expr::Assign { target: Box::new(left), op_span, value: Box::new(value) };
                        proof {
                            assert(ts[k].span == op_span);
                        }
                        Ok(e)
                    },
                }
            },
            None => Ok(left),
        }
    }

    /// A left-associative chain of operands joined by the operators of one
    /// precedence level (1 binds tightest, 10 is logical or).
    fn parse_binary(&mut self, level: u8) -> (r: Result<Expr, ParseError>)
        requires
            old(self).inv(),
            1 <= level <= 10,
        ensures
            final(self).inv(),
            final(self).moved_on(old(self)),
            final(self).typedefs == old(self).typedefs,
            r is Ok ==> final(self).pos > old(self).pos,
            r matches Ok(e) ==> spec_parses_binary(old(self).tokens@, old(self).typedefs@, level as int, old(self).pos as int, e, final(self).pos as int),
            spec_literal_then_stop(old(self).tokens@, old(self).pos as int) ==> r is Ok && final(self).pos == old(self).pos + 1,
            spec_is_stop(old(self).tokens@[old(self).pos as int].kind) ==> (r matches Err(e) && e.span == old(self).tokens@[
                old(self).pos as int
            ].span && e.message@ == "expected expression, found "@ + spec_kind_debug(old(self).tokens@[old(self).pos as int].kind)),
        decreases old(self).remaining(), level as nat + 3,
    {
        let ghost ts = self.tokens@;
        let ghost tds = self.typedefs@;
        let ghost i = self.pos as int;
        let mut left = if level == 1 {
            self.parse_unary()?
        } else {
            self.parse_binary(level - 1)?
        };
        proof {
            assert(spec_parses_operand(ts, tds, level as int, i, left, self.pos as int));
        }
        loop
            invariant
                self.inv(),
                self.moved_on(old(self)),
                self.typedefs == old(self).typedefs,
                self.pos > old(self).pos,
                1 <= level <= 10,
                ts == self.tokens@,
                tds == self.typedefs@,
                i == old(self).pos,
                spec_parses_chain(ts, tds, level as int, i, left, self.pos as int),
                spec_literal_then_stop(ts, i) ==> self.pos == i + 1,
                !spec_is_stop(ts[i].kind),
            ensures
                self.inv(),
                self.moved_on(old(self)),
                self.typedefs == old(self).typedefs,
                self.pos > old(self).pos,
                spec_parses_chain(ts, tds, level as int, i, left, self.pos as int),
                spec_literal_then_stop(ts, i) ==> self.pos == i + 1,
                spec_binary_op(level, ts[self.pos as int].kind) is None,
            decreases self.tokens@.len() - self.pos,
        {
            let ghost k = self.pos as int;
            let op = match binary_op(level, &self.tokens[self.pos].kind) {
                Some(op) => op,
                None => {
                    break;
                },
            };
            let op_span = self.advance().span;
            let right = if level == 1 {
                self.parse_unary()?
            } else {
                self.parse_binary(level - 1)?
            };
            let ghost old_left = left;
            left = Expr::Binary { op, op_span, left: Box::new(left), right: Box::new(right) };
            proof {
                assert(ts[k].span == op_span);
                assert(spec_parses_operand(ts, tds, level as int, k + 1, right, self.pos as int));
            }
        }
        Ok(left)
    }

    fn parse_unary(&mut self) -> (r: Result<Expr, ParseError>)
        requires
            old(self).inv(),
        ensures
            final(self).inv(),
            final(self).moved_on(old(self)),
            final(self).typedefs == old(self).typedefs,
            r is Ok ==> final(self).pos > old(self).pos,
            r matches Ok(e) ==> spec_parses_unary(old(self).tokens@, old(self).typedefs@, old(self).pos as int, e, final(self).pos as int),
            spec_literal_then_stop(old(self).tokens@, old(self).pos as int) ==> r is Ok && final(self).pos == old(self).pos + 1,
            spec_is_stop(old(self).tokens@[old(self).pos as int].kind) ==> (r matches Err(e) && e.span == old(self).tokens@[
                old(self).pos as int
            ].span && e.message@ == "expected expression, found "@ + spec_kind_debug(old(self).tokens@[old(self).pos as int].kind)),
        decreases old(self).remaining(), 3nat,
    {
        let ghost ts = self.tokens@;
        let ghost tds = self.typedefs@;
        let ghost i = self.pos as int;
        if matches!(self.tokens[self.pos].kind, TokenKind::LParen) {
            let next_is_type = {
                let next = self.peek_nth(1);
                self.is_type_decl(&next.kind)
            };
            if next_is_type {
                let span = self.advance().span;
                let t = self.parse_type()?;
                let ghost k = self.pos as int;
                self.expect(&TokenKind::RParen)?;
                let expr = self.parse_unary()?;
                let e = Expr::Cast { ty: t, expr: Box::new(expr), span };
                proof {
                    assert(ts[k].kind is RParen);
                }
                return Ok(e);
            }
        }
        if matches!(self.tokens[self.pos].kind, TokenKind::PlusPlus) {
            let op_span = self.advance().span;
            let expr = self.parse_unary()?;
            return Ok(Expr::PrefixInc { expr: Box::new(expr), op_span });
        }
        if matches!(self.tokens[self.pos].kind, TokenKind::MinusMinus) {
            let op_span = self.advance().span;
            let expr = self.parse_unary()?;
            return Ok(Expr::PrefixDec { expr: Box::new(expr), op_span });
        }
        match unary_op(&self.tokens[self.pos].kind) {
            Some(op) => {
                let op_span = self.advance().span;
                let right = self.parse_unary()?;
                Ok(Expr::Unary { op, op_span, expr: Box::new(right) })
            },
            None => self.parse_postfix(),
        }
    }

    fn parse_postfix(&mut self) -> (r: Result<Expr, ParseError>)
        requires
            old(self).inv(),
        ensures
            final(self).inv(),
            final(self).moved_on(old(self)),
            final(self).typedefs == old(self).typedefs,
            r is Ok ==> final(self).pos > old(self).pos,
            r matches Ok(e) ==> spec_parses_postfix(old(self).tokens@, old(self).typedefs@, old(self).pos as int, e, final(self).pos as int),
            spec_literal_then_stop(old(self).tokens@, old(self).pos as int) ==> r is Ok && final(self).pos == old(self).pos + 1,
            spec_is_stop(old(self).tokens@[old(self).pos as int].kind) ==> (r matches Err(e) && e.span == old(self).tokens@[
                old(self).pos as int
            ].span && e.message@ == "expected expression, found "@ + spec_kind_debug(old(self).tokens@[old(self).pos as int].kind)),
        decreases old(self).remaining(), 2nat,
    {
        let ghost ts = self.tokens@;
        let ghost tds = self.typedefs@;
        let ghost i = self.pos as int;
        let mut expr = self.parse_primary()?;
        loop
            invariant
                self.inv(),
                self.moved_on(old(self)),
                self.typedefs == old(self).typedefs,
                self.pos > old(self).pos,
                ts == self.tokens@,
                tds == self.typedefs@,
                i == old(self).pos,
                spec_parses_postfix_chain(ts, tds, i, expr, self.pos as int),
                spec_literal_then_stop(ts, i) ==> self.pos == i + 1,
                !spec_is_stop(ts[i].kind),
            ensures
                self.inv(),
                self.moved_on(old(self)),
                self.typedefs == old(self).typedefs,
                self.pos > old(self).pos,
                spec_parses_postfix_chain(ts, tds, i, expr, self.pos as int),
                spec_literal_then_stop(ts, i) ==> self.pos == i + 1,
                !(ts[self.pos as int].kind is LBracket || ts[self.pos as int].kind is PlusPlus || ts[self.pos as int].kind is MinusMinus),
            decreases self.tokens@.len() - self.pos,
        {
            let ghost k = self.pos as int;
            if matches!(self.tokens[self.pos].kind, TokenKind::LBracket) {
                let span = self.advance().span;
                let index = self.parse_expr()?;
                let ghost m = self.pos as int;
                self.expect(&TokenKind::RBracket)?;
                let ghost old_expr = expr;
                expr = Expr::Index { base: Box::new(expr), index: Box::new(index), span };
                proof {
                    assert(ts[k].span == span);
                    assert(ts[m].kind is RBracket);
                }
            } else if matches!(self.tokens[self.pos].kind, TokenKind::PlusPlus) {
                let op_span = self.advance().span;
                expr = Expr::PostfixInc { expr: Box::new(expr), op_span };
            } else if matches!(self.tokens[self.pos].kind, TokenKind::MinusMinus) {
                let op_span = self.advance().span;
                expr = Expr::PostfixDec { expr: Box::new(expr), op_span };
            } else {
                break;
            }
        }
        Ok(expr)
    }

    fn parse_primary(&mut self) -> (r: Result<Expr, ParseError>)
        requires
            old(self).inv(),
        ensures
            final(self).inv(),
            final(self).moved_on(old(self)),
            final(self).typedefs == old(self).typedefs,
            r is Ok ==> final(self).pos > old(self).pos,
            r matches Ok(e) ==> spec_parses_primary(old(self).tokens@, old(self).typedefs@, old(self).pos as int, e, final(self).pos as int),
            old(self).tokens@[old(self).pos as int].kind is IntLiteral ==> r is Ok && final(self).pos == old(self).pos + 1,
            old(self).tokens@[old(self).pos as int].kind is CharLiteral ==> r is Ok && final(self).pos == old(self).pos + 1,
            spec_is_stop(old(self).tokens@[old(self).pos as int].kind) ==> (r matches Err(e) && e.span == old(self).tokens@[
                old(self).pos as int
            ].span && e.message@ == "expected expression, found "@ + spec_kind_debug(old(self).tokens@[old(self).pos as int].kind)),
        decreases old(self).remaining(), 1nat,
    {
        let ghost start = self.pos;
        let ghost ts = self.tokens@;
        let ghost tds = self.typedefs@;
        let ghost i = self.pos as int;
        let token = self.advance();
        match token.kind {
            TokenKind::IntLiteral { value, suffix, base } => Ok(Expr::IntLiteral { value, suffix, base, span: token.span }),
            TokenKind::CharLiteral(value) => {
                proof {
                    assert(self.tokens@[start as int].kind matches TokenKind::CharLiteral(v) ==> v >= 0);
                }
                Ok(Expr::IntLiteral {
                    value: value as u64,
                    suffix: IntLiteralSuffix::Unsuffixed,
                    base: IntLiteralBase::Decimal,
                    span: token.span,
                })
            },
            TokenKind::Ident(name) => {
                if matches!(self.tokens[self.pos].kind, TokenKind::LParen) {
                    self.advance();
                    let mut args: Vec<Expr> = Vec::new();
                    loop
                        invariant
                            self.inv(),
                            self.moved_on(old(self)),
                            self.typedefs == old(self).typedefs,
                            self.pos >= start + 2,
                            start == old(self).pos,
                            ts == self.tokens@,
                            tds == self.typedefs@,
                            i == start,
                            ts[i].kind is Ident,
                            spec_args_upto(ts, tds, i + 2, args@, self.pos as int),
                        ensures
                            self.inv(),
                            self.moved_on(old(self)),
                            self.typedefs == old(self).typedefs,
                            self.pos >= start + 2,
                            spec_args_upto(ts, tds, i + 2, args@, self.pos as int),
                            ts[self.pos as int].kind is RParen,
                        decreases self.tokens@.len() - self.pos,
                    {
                        if matches!(self.tokens[self.pos].kind, TokenKind::RParen) {
                            break;
                        }
                        let ghost k = self.pos as int;
                        let arg = self.parse_expr()?;
                        let ghost m = self.pos as int;
                        let ghost before = args@;
                        args.push(arg);
                        if matches!(self.tokens[self.pos].kind, TokenKind::Comma) {
                            self.advance();
                            if matches!(self.tokens[self.pos].kind, TokenKind::RParen) {
                                return Err(self.trailing_comma_error());
                            }
                        }
                        proof {
                            assert(args@.drop_last() =~= before);
                            assert(spec_parses_expr(ts, tds, k, args@.last(), m));
                        }
                    }
                    let ghost p = self.pos as int;
                    proof {
                        lemma_args_join(ts, tds, i + 2, args@, p, seq![], p);
                        assert(args@ + seq![] =~= args@);
                    }
                    self.expect(&TokenKind::RParen)?;
                    Ok(Expr::Call {
                        callee: Box::new(Expr::Variable { name, span: token.span }),
                        args,
                        span: token.span,
                    })
                } else {
                    Ok(Expr::Variable { name, span: token.span })
                }
            },
            TokenKind::LParen => {
                let expr = self.parse_expr()?;
                let ghost m = self.pos as int;
                self.expect(&TokenKind::RParen)?;
                proof {
                    assert(ts[m].kind is RParen);
                }
                Ok(expr)
            },
            found => {
                let mut msg = String::from_str("expected expression, found ");
                push_kind_debug(&mut msg, &found);
                proof {
                    lemma_kind_debug_eq(found, ts[i].kind);
                }
                Err(ParseError { message: msg, span: token.span })
            },
        }
    }

    // Statements

    fn parse_decl_statement(&mut self) -> (r: Result<Statement, ParseError>)
        requires
            old(self).inv(),
        ensures
            final(self).inv(),
            final(self).moved_on(old(self)),
            final(self).typedefs == old(self).typedefs,
            r is Ok ==> final(self).pos > old(self).pos,
            r matches Ok(s) ==> s is Decl && old(self).tokens@[final(self).pos - 1].kind is Semicolon,
            r matches Ok(s) ==> spec_parses_decl_stmt(old(self).tokens@, old(self).typedefs@, old(self).pos as int, s, final(self).pos as int),
            spec_plain_int_decl_at(old(self).tokens@, old(self).typedefs@, old(self).pos as int) ==> r is Ok && final(self).pos
                == old(self).pos + 3,
    {
        let ghost ts = self.tokens@;
        let ghost tds = self.typedefs@;
        let ghost i0 = self.pos as int;
        let declaration = self.parse_declaration()?;
        let ghost orig = declaration.declarators@;
        let ghost j = self.pos as int;
        let ghost k0 = choose|k: int|
            #![trigger spec_pos(ts, k)]
            spec_pos(ts, k) && spec_type_name_range(ts, tds, i0, k) && k < self.pos - 1 && declaration.spec_span
                == ts[i0].span && spec_parses_init_declarators(ts, tds, k, orig, self.pos - 1)
                && spec_specifiers_of(declaration.spec.type_specifiers@, spec_type_words(ts.subrange(i0, k), tds));
        let ghost plain = spec_plain_int_decl_at(ts, tds, i0);
        proof {
            if plain {
                lemma_int_head(ts, tds, i0);
                if k0 != i0 + 1 {
                    assert(spec_is_spec_word(ts[i0 + 1].kind, tds));
                }
                assert(!(ts[i0].kind is KwTypedef));
                assert(!spec_has_typedef_word(ts, i0, k0));
                assert(specifier_of(declaration.spec.type_specifiers@[0], ts[i0]));
                lemma_int_specifiers(declaration.spec.type_specifiers@);
            }
        }
        if declaration.spec.is_typedef {
            return Err(ParseError {
                message: String::from_str("storage class is not supported in local declarations"),
                span: declaration.spec_span,
            });
        }
        let base_ty = self.lower_decl_spec(&declaration.spec, declaration.spec_span)?;
        proof {
            lemma_lowered_words_name(declaration.spec.type_specifiers@, spec_type_words(ts.subrange(i0, k0), tds), tds, base_ty);
        }
        let mut declarators: Vec<LocalDecl> = Vec::new();
        let mut decls = declaration.declarators;
        let mut i: usize = 0;
        let n = decls.len();
        while i < n
            invariant
                self.inv(),
                self.moved_on(old(self)),
                self.typedefs == old(self).typedefs,
                self.pos > old(self).pos,
                old(self).tokens@[self.pos - 1].kind is Semicolon,
                n == decls@.len() + i,
                n == orig.len(),
                self.pos == j,
                decls@ == orig.skip(i as int),
                declarators@.len() == i,
                forall|m: int| 0 <= m < i ==> spec_local_of(#[trigger] orig[m], declarators@[m], ty(base_ty)),
                plain ==> orig.len() == 1 && orig[0].declarator is Name,
                plain == spec_plain_int_decl_at(old(self).tokens@, old(self).typedefs@, old(self).pos as int),
                old(self).pos + 3 == self.pos || !plain,
            decreases n - i,
        {
            let init_declarator = decls.remove(0);
            proof {
                assert(init_declarator == orig[i as int]);
                assert(decls@ =~= orig.skip(i + 1));
            }
            let ghost d_i = init_declarator;
            match lower_declarator(&base_ty, &init_declarator.declarator)? {
                LoweredDeclarator::Object { ty, name, name_span } => {
                    declarators.push(LocalDecl { ty, name, name_span, init: init_declarator.initializer });
                    proof {
                        assert(spec_local_of(d_i, declarators@[i as int], crate::ast::ty(base_ty)));
                    }
                },
                LoweredDeclarator::Function { name_span, .. } => {
                    return Err(ParseError {
                        message: String::from_str("function declarations are not supported inside blocks"),
                        span: name_span,
                    });
                },
            }
            i = i + 1;
        }
        proof {
            lemma_locals_of(ts, tds, k0, orig, declarators@, j - 1, ty(base_ty));
            assert(spec_parses_locals(ts, tds, k0, declarators@, j - 1, ty(base_ty)));
            assert(spec_pos(ts, k0));
            assert(spec_type_name_range(ts, tds, i0, k0));
            assert(k0 < j - 1);
            assert(ts[j - 1].kind is Semicolon);
        }
        let s = Statement::Decl(declarators);
        proof {
            assert(s matches Statement::Decl(ls) && ls@ == declarators@);
        }
        Ok(s)
    }

    fn parse_expr_statement(&mut self) -> (r: Result<Statement, ParseError>)
        requires
            old(self).inv(),
        ensures
            final(self).inv(),
            final(self).moved_on(old(self)),
            final(self).typedefs == old(self).typedefs,
            r is Ok ==> final(self).pos > old(self).pos,
            r matches Ok(s) ==> s matches Statement::ExprStatement(e) && old(self).pos + 1 < final(self).pos
                && old(self).tokens@[final(self).pos - 1].kind is Semicolon && spec_parses_expr(
                old(self).tokens@,
                old(self).typedefs@,
                old(self).pos as int,
                e,
                final(self).pos - 1,
            ),
            spec_literal_then_stop(old(self).tokens@, old(self).pos as int) && old(self).tokens@[old(self).pos + 1].kind is Semicolon
                ==> r is Ok && final(self).pos == old(self).pos + 2,
    {
        let expr = self.parse_expr()?;
        let ghost m = self.pos as int;
        self.expect(&TokenKind::Semicolon)?;
        proof {
            assert(old(self).tokens@[m].kind is Semicolon);
        }
        Ok(Statement::ExprStatement(expr))
    }

    fn unexpected_keyword(&self) -> (e: ParseError)
        requires
            self.inv(),
        ensures
            e.span == self.tokens@[self.pos as int].span,
            e.message@ == "got unexpected keyword "@ + spec_kind_debug(self.tokens@[self.pos as int].kind),
    {
        let token = self.peek();
        let mut msg = String::from_str("got unexpected keyword ");
        push_kind_debug(&mut msg, &token.kind);
        ParseError { message: msg, span: token.span }
    }

    /// Statements up to a closing brace, and the brace.
    fn parse_through_rbrace(&mut self, body: &mut Vec<Statement>) -> (r: Result<(), ParseError>)
        requires
            old(self).inv(),
            old(body)@.len() == 0,
        ensures
            final(self).inv(),
            final(self).moved_on(old(self)),
            final(self).typedefs == old(self).typedefs,
            r is Ok ==> final(self).pos > old(self).pos,
            r is Ok ==> old(self).tokens@[final(self).pos - 1].kind is RBrace && spec_parses_stmts(
                old(self).tokens@,
                old(self).typedefs@,
                old(self).pos as int,
                final(body)@,
                final(self).pos - 1,
            ),
            spec_plain_block_end(old(self).tokens@, old(self).pos as int) matches Some(q) ==> r is Ok && final(self).pos == q,
        decreases old(self).remaining(), 2nat,
    {
        let ghost ts = self.tokens@;
        let ghost tds = self.typedefs@;
        let ghost i = self.pos as int;
        loop
            invariant
                self.inv(),
                self.moved_on(old(self)),
                self.typedefs == old(self).typedefs,
                ts == self.tokens@,
                tds == self.typedefs@,
                i == old(self).pos,
                spec_parses_stmts(ts, tds, i, body@, self.pos as int),
                spec_plain_block_end(ts, i) is Some ==> spec_plain_block_end(ts, self.pos as int) == spec_plain_block_end(ts, i),
            ensures
                self.inv(),
                self.moved_on(old(self)),
                self.typedefs == old(self).typedefs,
                spec_parses_stmts(ts, tds, i, body@, self.pos as int),
                ts[self.pos as int].kind is RBrace,
                spec_plain_block_end(ts, i) is Some ==> spec_plain_block_end(ts, self.pos as int) == spec_plain_block_end(ts, i),
            decreases self.tokens@.len() - self.pos,
        {
            if matches!(self.tokens[self.pos].kind, TokenKind::RBrace) {
                break;
            }
            let ghost k = self.pos as int;
            let ghost before = body@;
            let s = self.parse_statement()?;
            body.push(s);
            proof {
                lemma_stmts_snoc(ts, tds, i, before, k, s, self.pos as int);
            }
        }
        let ghost m = self.pos as int;
        self.expect(&TokenKind::RBrace)?;
        Ok(())
    }

    fn parse_if_statement(&mut self) -> (r: Result<Statement, ParseError>)
        requires
            old(self).inv(),
        ensures
            final(self).inv(),
            final(self).moved_on(old(self)),
            final(self).typedefs == old(self).typedefs,
            r is Ok ==> final(self).pos > old(self).pos,
            r matches Ok(s) ==> spec_parses_stmt(old(self).tokens@, old(self).typedefs@, old(self).pos as int, s, final(self).pos as int),
            old(self).tokens@[old(self).pos as int].kind is KwIf ==> (spec_plain_stmt_end(old(self).tokens@, old(self).pos as int) matches Some(q)
                ==> r is Ok && final(self).pos == q),
        decreases old(self).remaining(), 0nat,
    {
        let ghost ts = self.tokens@;
        let ghost i = self.pos as int;
        self.expect(&TokenKind::KwIf)?;
        self.expect(&TokenKind::LParen)?;
        let cond = self.parse_expr()?;
        let ghost k = self.pos as int;
        self.expect(&TokenKind::RParen)?;
        let then_statement = self.parse_statement()?;
        let ghost m = self.pos as int;
        let else_statement = if matches!(self.tokens[self.pos].kind, TokenKind::KwElse) {
            self.advance();
            Some(Box::new(self.parse_statement()?))
        } else {
            None
        };
        let s = Statement::If { cond, then_branch: Box::new(then_statement), else_branch: else_statement };
        proof {
            assert(spec_pos(ts, k) && spec_pos(ts, m));
        }
        Ok(s)
    }

    fn parse_while_statement(&mut self) -> (r: Result<Statement, ParseError>)
        requires
            old(self).inv(),
        ensures
            final(self).inv(),
            final(self).moved_on(old(self)),
            final(self).typedefs == old(self).typedefs,
            r is Ok ==> final(self).pos > old(self).pos,
            r matches Ok(s) ==> spec_parses_stmt(old(self).tokens@, old(self).typedefs@, old(self).pos as int, s, final(self).pos as int),
            old(self).tokens@[old(self).pos as int].kind is KwWhile ==> (spec_plain_stmt_end(old(self).tokens@, old(self).pos as int) matches Some(q)
                ==> r is Ok && final(self).pos == q),
        decreases old(self).remaining(), 0nat,
    {
        let ghost ts = self.tokens@;
        self.expect(&TokenKind::KwWhile)?;
        self.expect(&TokenKind::LParen)?;
        let cond = self.parse_expr()?;
        let ghost k = self.pos as int;
        self.expect(&TokenKind::RParen)?;
        let body = self.parse_statement()?;
        let s = Statement::While { cond, body: Box::new(body) };
        proof {
            assert(spec_pos(ts, k));
        }
        Ok(s)
    }

    fn parse_do_while_statement(&mut self) -> (r: Result<Statement, ParseError>)
        requires
            old(self).inv(),
        ensures
            final(self).inv(),
            final(self).moved_on(old(self)),
            final(self).typedefs == old(self).typedefs,
            r is Ok ==> final(self).pos > old(self).pos,
            r matches Ok(s) ==> spec_parses_stmt(old(self).tokens@, old(self).typedefs@, old(self).pos as int, s, final(self).pos as int),
            old(self).tokens@[old(self).pos as int].kind is KwDo ==> (spec_plain_stmt_end(old(self).tokens@, old(self).pos as int) matches Some(q)
                ==> r is Ok && final(self).pos == q),
        decreases old(self).remaining(), 0nat,
    {
        let ghost ts = self.tokens@;
        self.expect(&TokenKind::KwDo)?;
        let body = self.parse_statement()?;
        let ghost k = self.pos as int;
        self.expect(&TokenKind::KwWhile)?;
        self.expect(&TokenKind::LParen)?;
        let cond = self.parse_expr()?;
        let ghost m = self.pos as int;
        self.expect(&TokenKind::RParen)?;
        self.expect(&TokenKind::Semicolon)?;
        let s = Statement::DoWhile { body: Box::new(body), cond };
        proof {
            assert(spec_pos(ts, k));
            assert(ts[m].kind is RParen);
        }
        Ok(s)
    }

    fn parse_for_statement_init(&mut self) -> (r: Result<Statement, ParseError>)
        requires
            old(self).inv(),
        ensures
            final(self).inv(),
            final(self).moved_on(old(self)),
            final(self).typedefs == old(self).typedefs,
            r is Ok ==> final(self).pos > old(self).pos,
            r matches Ok(s) ==> spec_parses_for_init(old(self).tokens@, old(self).typedefs@, old(self).pos as int, s, final(self).pos as int),
            old(self).tokens@[old(self).pos as int].kind is Semicolon ==> (r matches Ok(Statement::Empty) && final(self).pos == old(self).pos + 1),
            spec_literal_then_stop(old(self).tokens@, old(self).pos as int) && old(self).tokens@[old(self).pos + 1].kind is Semicolon
                ==> r is Ok && final(self).pos == old(self).pos + 2,
    {
        let is_decl = {
            let k = &self.tokens[self.pos].kind;
            self.is_type_decl(k)
        };
        if is_decl {
            self.parse_decl_statement()
        } else if matches!(self.tokens[self.pos].kind, TokenKind::Semicolon) {
            self.advance();
            Ok(Statement::Empty)
        } else if is_expr_start(&self.tokens[self.pos].kind) {
            self.parse_expr_statement()
        } else {
            Err(self.unexpected_keyword())
        }
    }

    fn parse_for_statement(&mut self) -> (r: Result<Statement, ParseError>)
        requires
            old(self).inv(),
        ensures
            final(self).inv(),
            final(self).moved_on(old(self)),
            final(self).typedefs == old(self).typedefs,
            r is Ok ==> final(self).pos > old(self).pos,
            r matches Ok(s) ==> spec_parses_stmt(old(self).tokens@, old(self).typedefs@, old(self).pos as int, s, final(self).pos as int),
            old(self).tokens@[old(self).pos as int].kind is KwFor ==> (spec_plain_stmt_end(old(self).tokens@, old(self).pos as int) matches Some(q)
                ==> r is Ok && final(self).pos == q),
        decreases old(self).remaining(), 0nat,
    {
        let ghost ts = self.tokens@;
        let ghost i = self.pos as int;
        self.expect(&TokenKind::KwFor)?;
        self.expect(&TokenKind::LParen)?;
        let mut init: Option<Box<Statement>> = None;
        let mut cond: Option<Expr> = None;
        let mut post: Option<Expr> = None;
        if matches!(self.tokens[self.pos].kind, TokenKind::Semicolon) {
            self.advance();
        } else {
            init = Some(Box::new(self.parse_for_statement_init()?));
        }
        let ghost q = self.pos as int;
        if !matches!(self.tokens[self.pos].kind, TokenKind::Semicolon) {
            cond = Some(self.parse_expr()?);
        }
        let ghost r = self.pos as int;
        self.expect(&TokenKind::Semicolon)?;
        if !matches!(self.tokens[self.pos].kind, TokenKind::RParen) {
            post = Some(self.parse_expr()?);
        }
        let ghost t = self.pos as int;
        self.expect(&TokenKind::RParen)?;
        let body = self.parse_statement()?;
        let s = Statement::For { init, cond, post, body: Box::new(body) };
        proof {
            assert(spec_pos(ts, q) && spec_pos(ts, r) && spec_pos(ts, t));
        }
        Ok(s)
    }

    fn parse_statement(&mut self) -> (r: Result<Statement, ParseError>)
        requires
            old(self).inv(),
        ensures
            final(self).inv(),
            final(self).moved_on(old(self)),
            final(self).typedefs == old(self).typedefs,
            r is Ok ==> final(self).pos > old(self).pos,
            r matches Ok(s) ==> spec_parses_stmt(old(self).tokens@, old(self).typedefs@, old(self).pos as int, s, final(self).pos as int),
            spec_plain_stmt_end(old(self).tokens@, old(self).pos as int) matches Some(q) ==> r is Ok && final(self).pos == q,
            old(self).tokens@[old(self).pos as int].kind is KwReturn && spec_is_stop(old(self).tokens@[old(self).pos + 1].kind)
                ==> (r matches Err(e) && e.span == old(self).tokens@[old(self).pos + 1].span && e.message@
                == "expected expression, found "@ + spec_kind_debug(old(self).tokens@[old(self).pos + 1].kind)),
        decreases old(self).remaining(), 1nat,
    {
        let ghost ts = self.tokens@;
        let ghost i = self.pos as int;
        match &self.tokens[self.pos].kind {
            TokenKind::KwReturn => {
                self.advance();
                let expr = self.parse_expr()?;
                let ghost m = self.pos as int;
                self.expect(&TokenKind::Semicolon)?;
                proof {
                    assert(ts[m].kind is Semicolon);
                }
                Ok(Statement::Return(expr))
            },
            TokenKind::KwIf => self.parse_if_statement(),
            TokenKind::KwWhile => self.parse_while_statement(),
            TokenKind::KwDo => self.parse_do_while_statement(),
            TokenKind::KwBreak => {
                let token = self.advance();
                self.expect(&TokenKind::Semicolon)?;
                Ok(Statement::Break { span: token.span })
            },
            TokenKind::KwContinue => {
                let token = self.advance();
                self.expect(&TokenKind::Semicolon)?;
                Ok(Statement::Continue { span: token.span })
            },
            TokenKind::KwFor => self.parse_for_statement(),
            TokenKind::LBrace => {
                self.advance();
                let mut body: Vec<Statement> = Vec::new();
                self.parse_through_rbrace(&mut body)?;
                Ok(Statement::Block(body))
            },
            TokenKind::Semicolon => {
                self.advance();
                Ok(Statement::Empty)
            },
            kind => {
                if self.is_type_decl(kind) {
                    self.parse_decl_statement()
                } else if is_expr_start(kind) {
                    self.parse_expr_statement()
                } else {
                    Err(self.unexpected_keyword())
                }
            },
        }
    }

    // Top level

    fn parse_external_decl(&mut self) -> (r: Result<Vec<ExternalDecl>, ParseError>)
        requires
            old(self).inv(),
        ensures
            final(self).inv(),
            final(self).moved_on(old(self)),
            r is Ok ==> final(self).pos > old(self).pos,
            r matches Ok(ds) ==> forall|d: int| 0 <= d < ds@.len() ==> spec_external_decl(
                old(self).tokens@,
                old(self).typedefs@,
                old(self).pos as int,
                final(self).pos as int,
                #[trigger] ds@[d],
            ),
            r matches Ok(ds) ==> spec_decl_chunk(
                old(self).tokens@,
                old(self).typedefs@,
                old(self).pos as int,
                ds@,
                final(self).pos as int,
                final(self).typedefs@,
            ),
            spec_plain_int_decl_at(old(self).tokens@, old(self).typedefs@, old(self).pos as int) ==> r is Ok && final(self).pos
                == old(self).pos + 3 && final(self).typedefs == old(self).typedefs,
            old(self).tokens@[old(self).pos as int].kind is KwTypedef && spec_plain_int_decl_at(
                old(self).tokens@,
                old(self).typedefs@,
                old(self).pos + 1,
            ) ==> r is Ok && final(self).pos == old(self).pos + 4,
            spec_plain_function_end(old(self).tokens@, old(self).typedefs@, old(self).pos as int) matches Some(q) ==> r is Ok
                && final(self).pos == q && final(self).typedefs == old(self).typedefs,
    {
        let ghost toks = self.tokens@;
        let ghost tds = self.typedefs@;
        let ghost i0 = self.pos as int;
        let ghost pf = spec_plain_function_end(toks, tds, i0);
        if matches!(self.tokens[self.pos].kind, TokenKind::KwTypedef) {
            let typedefs = self.parse_typedefs()?;
            let ghost orig = typedefs@;
            let mut out: Vec<ExternalDecl> = Vec::new();
            let mut ts = typedefs;
            let n = ts.len();
            let mut i: usize = 0;
            while i < n
                invariant
                    n == orig.len(),
                    n == ts@.len() + i,
                    ts@ == orig.skip(i as int),
                    out@.len() == i,
                    forall|d: int| 0 <= d < i ==> #[trigger] out@[d] == ExternalDecl::Typedef(orig[d]),
                decreases n - i,
            {
                let t = ts.remove(0);
                proof {
                    assert(t == orig[i as int]);
                    assert(ts@ =~= orig.skip(i + 1));
                }
                out.push(ExternalDecl::Typedef(t));
                i = i + 1;
            }
            proof {
                assert forall|d: int| 0 <= d < out@.len() implies spec_external_decl(
                    toks,
                    tds,
                    i0,
                    self.pos as int,
                    #[trigger] out@[d],
                ) by {
                    assert(out@[d] == ExternalDecl::Typedef(orig[d]));
                }
                assert(out@.map_values(|d: ExternalDecl| d->Typedef_0) =~= orig);
                assert(out@[0] == ExternalDecl::Typedef(orig[0]));
            }
            return Ok(out);
        }
        let ghost plain = spec_plain_int_decl_at(toks, tds, i0);
        let ghost head = plain || pf is Some;
        proof {
            if head {
                lemma_int_head(toks, tds, i0);
            }
        }
        let (spec, spec_span) = self.parse_decl_spec()?;
        let ghost k0 = self.pos as int;
        proof {
            if head {
                assert(specifier_of(spec.type_specifiers@[0], toks[i0]));
                lemma_int_specifiers(spec.type_specifiers@);
            }
        }
        let base_ty = self.lower_decl_spec(&spec, spec_span)?;
        proof {
            lemma_lowered_words_name(spec.type_specifiers@, spec_type_words(toks.subrange(i0, k0), tds), tds, base_ty);
        }
        proof {
            if pf is Some {
                assert(k0 == i0 + 1);
                assert(spec_empty_params_head(toks, k0));
            }
        }
        let declarator = self.parse_declarator()?;
        let ghost a = self.pos as int;
        proof {
            if pf is Some {
                assert(spec_empty_params_fn(declarator));
                assert(spec_declarator_params(declarator).len() == 0);
                assert(spec_lower(ty(base_ty), *declarator->Function_inner) == LoweredModel::Object(ty(base_ty)));
                assert(spec_lower(ty(base_ty), declarator) is Function);
                assert(a == i0 + 4);
            }
        }
        let lowered = lower_declarator(&base_ty, &declarator)?;
        proof {
            assert(spec_pos(toks, k0));
            assert(spec_type_name_range(toks, tds, i0, k0));
            assert(spec_pos(toks, a));
            assert(spec_declarator_name(declarator) == spec_declarator_name(declarator));
        }
        let mut out: Vec<ExternalDecl> = Vec::new();
        match lowered {
            LoweredDeclarator::Function { return_type, name, name_span, params } => {
                let ghost orig = params@;
                proof {
                    assert(spec_parses_head(toks, tds, i0, a, declarator, LoweredModel::Function(ty(return_type))));
                }
                if matches!(self.tokens[self.pos].kind, TokenKind::Semicolon) {
                    self.advance();
                    let mut decl_params: Vec<ParamDecl> = Vec::new();
                    let mut ps = params;
                    let n = ps.len();
                    let mut i: usize = 0;
                    while i < n
                        invariant
                            n == ps@.len() + i,
                            n == orig.len(),
                            ps@ == orig.skip(i as int),
                            decl_params@.len() == i,
                            forall|m: int| 0 <= m < i ==> (#[trigger] decl_params@[m]).name == orig[m].name
                                && decl_params@[m].ty == orig[m].ty,
                        decreases n - i,
                    {
                        let raw = ps.remove(0);
                        proof {
                            assert(raw == orig[i as int]);
                            assert(ps@ =~= orig.skip(i + 1));
                        }
                        decl_params.push(raw_param_to_decl(raw));
                        i = i + 1;
                    }
                    let fd = FunctionDecl { return_type, name, name_span, params: decl_params };
                    proof {
                        assert forall|m: int| 0 <= m < fd.params@.len() implies ((#[trigger] fd.params@[m]).name
                            == spec_declarator_params(declarator)[m].name && ty(fd.params@[m].ty) == ty(
                            spec_declarator_params(declarator)[m].ty,
                        )) by {
                            assert(spec_same_raw_param(orig[m], spec_declarator_params(declarator)[m]));
                        }
                        assert(spec_external_decl(toks, tds, i0, self.pos as int, ExternalDecl::FunctionDecl(fd)));
                    }
                    out.push(ExternalDecl::FunctionDecl(fd));
                    proof {
                        assert(out@[0] == ExternalDecl::FunctionDecl(fd));
                    }
                    Ok(out)
                } else if matches!(self.tokens[self.pos].kind, TokenKind::LBrace) {
                    self.advance();
                    let mut body: Vec<Statement> = Vec::new();
                    self.parse_through_rbrace(&mut body)?;
                    let ghost after_body = self.pos;
                    let ghost typedefs_after = self.typedefs;
                    let ghost b = self.pos - 1;
                    proof {
                        assert(spec_pos(old(self).tokens@, a) && spec_pos(old(self).tokens@, b));
                    }
                    let mut def_params: Vec<Param> = Vec::new();
                    let mut ps = params;
                    let n = ps.len();
                    let mut i: usize = 0;
                    while i < n
                        invariant
                            self.inv(),
                            self.moved_on(old(self)),
                            self.pos > old(self).pos,
                            n == ps@.len() + i,
                            n == orig.len(),
                            ps@ == orig.skip(i as int),
                            def_params@.len() == i,
                            forall|m: int| 0 <= m < i ==> orig[m].name == Some((#[trigger] def_params@[m]).name)
                                && def_params@[m].ty == orig[m].ty,
                            !plain,
                            !(toks[i0].kind is KwTypedef),
                            plain == spec_plain_int_decl_at(old(self).tokens@, old(self).typedefs@, old(self).pos as int),
                            self.pos == after_body,
                            self.typedefs == typedefs_after,
                            pf matches Some(q) ==> n == 0 && after_body == q && typedefs_after == old(self).typedefs,
                            tds == old(self).typedefs@,
                            pf == spec_plain_function_end(toks, tds, i0),
                            toks == old(self).tokens@,
                            i0 == old(self).pos,
                        decreases n - i,
                    {
                        let raw = ps.remove(0);
                        proof {
                            assert(raw == orig[i as int]);
                            assert(ps@ =~= orig.skip(i + 1));
                        }
                        def_params.push(raw_param_to_def(raw)?);
                        i = i + 1;
                    }
                    let f = FunctionDef { return_type, name, name_span, params: def_params, body };
                    proof {
                        assert forall|m: int| 0 <= m < f.params@.len() implies (spec_declarator_params(declarator)[m].name
                            == Some((#[trigger] f.params@[m]).name) && ty(f.params@[m].ty) == ty(
                            spec_declarator_params(declarator)[m].ty,
                        )) by {
                            assert(spec_same_raw_param(orig[m], spec_declarator_params(declarator)[m]));
                        }
                        assert(spec_external_decl(toks, tds, i0, self.pos as int, ExternalDecl::FunctionDef(f)));
                    }
                    out.push(ExternalDecl::FunctionDef(f));
                    proof {
                        assert(out@[0] == ExternalDecl::FunctionDef(f));
                    }
                    Ok(out)
                } else {
                    let token = self.peek();
                    let mut msg = String::from_str("expected ';' or '{' after function declarator, got '");
                    push_kind_debug(&mut msg, &token.kind);
                    push_str(&mut msg, "'");
                    Err(ParseError { message: msg, span: token.span })
                }
            },
            LoweredDeclarator::Object { ty, name, name_span } => {
                proof {
                    assert(spec_parses_head(toks, tds, i0, a, declarator, LoweredModel::Object(crate::ast::ty(ty))));
                }
                if matches!(self.tokens[self.pos].kind, TokenKind::Semicolon) {
                    self.advance();
                    let g = GlobalDecl { ty, name, name_span, init: None };
                    proof {
                        assert(spec_external_decl(toks, tds, i0, self.pos as int, ExternalDecl::Global(g)));
                    }
                    out.push(ExternalDecl::Global(g));
                    proof {
                        assert(out@[0] == ExternalDecl::Global(g));
                    }
                    Ok(out)
                } else if matches!(self.tokens[self.pos].kind, TokenKind::Equal) {
                    self.advance();
                    let init = self.parse_initializer()?;
                    let ghost m = self.pos as int;
                    self.expect(&TokenKind::Semicolon)?;
                    let g = GlobalDecl { ty, name, name_span, init: Some(init) };
                    proof {
                        assert(toks[m].kind is Semicolon);
                        assert(spec_external_decl(toks, tds, i0, self.pos as int, ExternalDecl::Global(g)));
                    }
                    out.push(ExternalDecl::Global(g));
                    proof {
                        assert(out@[0] == ExternalDecl::Global(g));
                    }
                    Ok(out)
                } else {
                    let token = self.peek();
                    let mut msg = String::from_str("unexpected token in object declaration, '");
                    push_kind_debug(&mut msg, &token.kind);
                    push_str(&mut msg, "'");
                    Err(ParseError { message: msg, span: token.span })
                }
            },
        }
    }

    fn parse_program(&mut self) -> (r: Result<Program, ParseError>)
        requires
            old(self).inv(),
            old(self).pos == 0,
            old(self).typedefs@.len() == 0,
        ensures
            r matches Ok(p) ==> spec_parsed(old(self).tokens@, p),
            spec_plain_globals(old(self).tokens@, 0) ==> r is Ok,
    {
        let ghost ts = self.tokens@;
        let ghost tds0 = self.typedefs@;
        let ghost p0 = self.pos as int;
        let mut declarations: Vec<ExternalDecl> = Vec::new();
        proof {
            assert(spec_decls_between(ts, tds0, p0, declarations@, p0, tds0));
        }
        loop
            invariant
                self.inv(),
                self.moved_on(old(self)),
                ts == old(self).tokens@,
                tds0 == old(self).typedefs@,
                p0 == old(self).pos,
                spec_decls_between(ts, tds0, p0, declarations@, self.pos as int, self.typedefs@),
                spec_plain_globals(ts, 0) ==> spec_plain_globals(ts, self.pos as int) && self.typedefs@ =~= Seq::<(String, Type)>::empty(),
            ensures
                self.inv(),
                self.moved_on(old(self)),
                spec_decls_between(ts, tds0, p0, declarations@, self.pos as int, self.typedefs@),
                ts[self.pos as int].kind is Eof,
            decreases self.tokens@.len() - self.pos,
        {
            if matches!(self.tokens[self.pos].kind, TokenKind::Eof) {
                break;
            }
            let ghost tds = self.typedefs@;
            let ghost a = self.pos as int;
            let mut decls = self.parse_external_decl()?;
            let ghost before = declarations@;
            let ghost added = decls@;
            declarations.append(&mut decls);
            proof {
                lemma_decls_snoc(ts, tds0, p0, before, a, tds, added, self.pos as int, self.typedefs@);
                assert(declarations@ =~= before + added);
            }
        }
        let ghost e = self.pos;
        let ghost tds_end = self.typedefs@;
        let eof = self.expect(&TokenKind::Eof)?;
        let program = Program { declarations, eof_span: eof.span };
        proof {
            assert(ts[e as int].span == eof.span);
            assert(tds0 =~= Seq::<(String, Type)>::empty());
            assert(spec_decls_between(ts, Seq::empty(), 0, program.declarations@, e as int, tds_end));
        }
        Ok(program)
    }
}

/// Parses a token stream into a program (see [`spec_parsed`]).
pub fn parse(tokens: Vec<Token>) -> (r: Result<Program, ParseError>)
    requires
        parseable_tokens(tokens@),
    ensures
        r matches Ok(p) ==> spec_parsed(tokens@, p),
        spec_plain_globals(tokens@, 0) ==> r is Ok,
{
    let mut parser = Parser { tokens, pos: 0, typedefs: Vec::new() };
    parser.parse_program()
}


/// The binary operator a token spells in C.
pub open spec fn c_binary_operator(k: TokenKind) -> Option<BinaryOp> {
    match k {
        TokenKind::Star => Some(BinaryOp::Multiply),
        TokenKind::Slash => Some(BinaryOp::Divide),
        TokenKind::Percent => Some(BinaryOp::Remainder),
        TokenKind::Plus => Some(BinaryOp::Add),
        TokenKind::Minus => Some(BinaryOp::Subtract),
        TokenKind::LessLess => Some(BinaryOp::ShiftLeft),
        TokenKind::GreaterGreater => Some(BinaryOp::ShiftRight),
        TokenKind::Less => Some(BinaryOp::Less),
        TokenKind::LessEqual => Some(BinaryOp::LessEqual),
        TokenKind::Greater => Some(BinaryOp::Greater),
        TokenKind::GreaterEqual => Some(BinaryOp::GreaterEqual),
        TokenKind::EqualEqual => Some(BinaryOp::Equal),
        TokenKind::BangEqual => Some(BinaryOp::NotEqual),
        TokenKind::Ampersand => Some(BinaryOp::BitAnd),
        TokenKind::Caret => Some(BinaryOp::BitXor),
        TokenKind::Pipe => Some(BinaryOp::BitOr),
        TokenKind::AmpersandAmpersand => Some(BinaryOp::LogicalAnd),
        TokenKind::PipePipe => Some(BinaryOp::LogicalOr),
        _ => None,
    }
}

/// The C precedence group of a binary operator, numbered from the tightest
/// binding: multiplicative, additive, shift, relational, equality, `&`, `^`,
/// `|`, `&&`, `||`.
pub open spec fn c_precedence(op: BinaryOp) -> int {
    match op {
        BinaryOp::Multiply | BinaryOp::Divide | BinaryOp::Remainder => 1,
        BinaryOp::Add | BinaryOp::Subtract => 2,
        BinaryOp::ShiftLeft | BinaryOp::ShiftRight => 3,
        BinaryOp::Less | BinaryOp::LessEqual | BinaryOp::Greater | BinaryOp::GreaterEqual => 4,
        BinaryOp::Equal | BinaryOp::NotEqual => 5,
        BinaryOp::BitAnd => 6,
        BinaryOp::BitXor => 7,
        BinaryOp::BitOr => 8,
        BinaryOp::LogicalAnd => 9,
        BinaryOp::LogicalOr => 10,
    }
}

/// Law: the parser reads a token as a binary operator exactly at the level of
/// C's precedence group of the operator it spells, so an operator of a
/// tighter group always ends up deeper in the tree than one of a looser
/// group: `&` binds tighter than `^`, which binds tighter than `|`.
pub proof fn law_binary_operator_precedence(level: u8, k: TokenKind)
    ensures
        spec_binary_op(level, k) == match c_binary_operator(k) {
            Some(op) => if c_precedence(op) == level as int { Some(op) } else { None },
            None => None,
        },
        spec_binary_op(6, TokenKind::Ampersand) == Some(BinaryOp::BitAnd),
        spec_binary_op(7, TokenKind::Caret) == Some(BinaryOp::BitXor),
        spec_binary_op(8, TokenKind::Pipe) == Some(BinaryOp::BitOr),
        c_precedence(BinaryOp::BitAnd) < c_precedence(BinaryOp::BitXor) < c_precedence(BinaryOp::BitOr) < c_precedence(
            BinaryOp::LogicalAnd,
        ) < c_precedence(BinaryOp::LogicalOr),
{
}


/// The operator token a compound assignment token is made of: `+=` of `+`, and so on.
pub open spec fn c_compound_base(k: TokenKind) -> Option<TokenKind> {
    match k {
        TokenKind::PlusEqual => Some(TokenKind::Plus),
        TokenKind::MinusEqual => Some(TokenKind::Minus),
        TokenKind::StarEqual => Some(TokenKind::Star),
        TokenKind::SlashEqual => Some(TokenKind::Slash),
        TokenKind::PercentEqual => Some(TokenKind::Percent),
        TokenKind::AmpersandEqual => Some(TokenKind::Ampersand),
        TokenKind::CaretEqual => Some(TokenKind::Caret),
        TokenKind::PipeEqual => Some(TokenKind::Pipe),
        TokenKind::LessLessEqual => Some(TokenKind::LessLess),
        TokenKind::GreaterGreaterEqual => Some(TokenKind::GreaterGreater),
        _ => None,
    }
}

/// Law: a compound assignment `x op= y` applies the binary operator that `op`
/// spells on its own, and `=` is the plain assignment.
pub proof fn law_compound_assignment_operator(k: TokenKind)
    ensures
        spec_assignment_op(k) == match c_compound_base(k) {
            Some(b) => match c_binary_operator(b) {
                Some(op) => Some(Some(op)),
                None => None,
            },
            None => if k is Equal { Some(None) } else { None },
        },
{
}

} // verus!

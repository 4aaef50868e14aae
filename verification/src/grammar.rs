//! The expression grammar, as relations over token positions.
//!
//! `spec_parses_expr(ts, tds, i, e, j)` says that the tokens `ts[i..j]` read as
//! the expression `e`, with the typedef names `tds` in scope, and that the
//! parser stops at `j`: each relation follows the parser's own choices (which
//! rule a token selects, that operators of one level group to the left, that a
//! loop of postfix operators or of binary operators ends where no further one
//! follows).
use crate::ast::{ty, Expr, Initializer, IntLiteralBase, IntLiteralSuffix, LocalDecl, Statement, Type, TypeModel};
use crate::lexer::{Token, TokenKind};
use crate::parser::{
    spec_declarator_name, spec_declarator_name_span, spec_lower, Declarator, LoweredModel, RawParam, spec_assignment_op, spec_binary_op, spec_is_expr_start, spec_is_spec_word, spec_is_typedef_name, spec_type_words, spec_words_name,
    spec_unary_op,
};
use vstd::prelude::*;

verus! {

/// A token that starts a declaration: a type word, `const`, or a typedef name.
pub open spec fn spec_is_type_decl(tds: Seq<(String, Type)>, k: TokenKind) -> bool {
    match k {
        TokenKind::KwInt | TokenKind::KwChar | TokenKind::KwUnsigned | TokenKind::KwLong | TokenKind::KwSigned
        | TokenKind::KwConst => true,
        TokenKind::Ident(name) => spec_is_typedef_name(tds, name@),
        _ => false,
    }
}

/// The kind of the token at `p`, or of the last token when `p` is past the end.
pub open spec fn spec_kind_at(ts: Seq<Token>, p: int) -> TokenKind {
    if 0 <= p < ts.len() {
        ts[p].kind
    } else {
        ts.last().kind
    }
}

/// The tokens `[i, j)` are the declaration-specifier words of a type name, and
/// at least one of them names a type.
pub open spec fn spec_type_name_range(ts: Seq<Token>, tds: Seq<(String, Type)>, i: int, j: int) -> bool {
    &&& 0 <= i < j < ts.len()
    &&& forall|k: int| i <= k < j ==> spec_is_spec_word(#[trigger] ts[k].kind, tds)
    &&& !spec_is_spec_word(ts[j].kind, tds)
    &&& spec_type_words(ts.subrange(i, j), tds).len() > 0
}

/// An expression: an assignment expression.
pub open spec fn spec_parses_expr(ts: Seq<Token>, tds: Seq<(String, Type)>, i: int, e: Expr, j: int) -> bool
    decreases j - i, 15nat, 0nat,
{
    spec_parses_assignment(ts, tds, i, e, j)
}

/// An assignment: a logical-or expression, or one followed by an assignment
/// operator and, to the right, another assignment.
pub open spec fn spec_parses_assignment(ts: Seq<Token>, tds: Seq<(String, Type)>, i: int, e: Expr, j: int) -> bool
    decreases j - i, 14nat, 0nat,
{
    if !(0 <= i < j < ts.len()) {
        false
    } else {
        ||| spec_parses_binary(ts, tds, 10, i, e, j) && spec_assignment_op(ts[j].kind) is None
        ||| exists|k: int|
            #![trigger ts[k]]
            i < k < j - 1 && match e {
                Expr::Assign { target, op_span, value } => {
                    &&& spec_assignment_op(ts[k].kind) == Some(None::<crate::ast::BinaryOp>)
                    &&& op_span == ts[k].span
                    &&& spec_parses_binary(ts, tds, 10, i, *target, k)
                    &&& spec_parses_assignment(ts, tds, k + 1, *value, j)
                },
                Expr::CompoundAssign { target, op, op_span, value } => {
                    &&& spec_assignment_op(ts[k].kind) == Some(Some(op))
                    &&& op_span == ts[k].span
                    &&& spec_parses_binary(ts, tds, 10, i, *target, k)
                    &&& spec_parses_assignment(ts, tds, k + 1, *value, j)
                },
                _ => false,
            }
    }
}

/// The operators of one precedence level (1 binds tightest, 10 is `||`),
/// grouped to the left, with no further operator of the level at `j`.
pub open spec fn spec_parses_binary(ts: Seq<Token>, tds: Seq<(String, Type)>, level: int, i: int, e: Expr, j: int) -> bool
    decreases j - i, level + 3, 1nat,
{
    &&& 1 <= level <= 10
    &&& 0 <= j < ts.len()
    &&& spec_binary_op(level as u8, ts[j].kind) is None
    &&& spec_parses_chain(ts, tds, level, i, e, j)
}

/// An operand of the level, or a shorter chain, an operator of the level and an operand.
pub open spec fn spec_parses_chain(ts: Seq<Token>, tds: Seq<(String, Type)>, level: int, i: int, e: Expr, j: int) -> bool
    decreases j - i, level + 3, 0nat,
{
    if !(1 <= level <= 10 && 0 <= i < j < ts.len()) {
        false
    } else {
        ||| spec_parses_operand(ts, tds, level, i, e, j)
        ||| exists|k: int|
            #![trigger ts[k]]
            i < k < j - 1 && match e {
                Expr::Binary { op, op_span, left, right } => {
                    &&& spec_binary_op(level as u8, ts[k].kind) == Some(op)
                    &&& op_span == ts[k].span
                    &&& spec_parses_chain(ts, tds, level, i, *left, k)
                    &&& spec_parses_operand(ts, tds, level, k + 1, *right, j)
                },
                _ => false,
            }
    }
}

/// An operand of a level: a unary expression at level 1, else an expression of the level below.
pub open spec fn spec_parses_operand(ts: Seq<Token>, tds: Seq<(String, Type)>, level: int, i: int, e: Expr, j: int) -> bool
    decreases j - i, level + 2, 2nat,
{
    if level == 1 {
        spec_parses_unary(ts, tds, i, e, j)
    } else if 2 <= level <= 10 {
        spec_parses_binary(ts, tds, level - 1, i, e, j)
    } else {
        false
    }
}

/// A unary expression: a cast (to the type its words name) when `(` is followed by a type word, a prefix
/// `++`/`--` or unary operator applied to a unary expression, else a postfix expression.
pub open spec fn spec_parses_unary(ts: Seq<Token>, tds: Seq<(String, Type)>, i: int, e: Expr, j: int) -> bool
    decreases j - i, 3nat, 1nat,
{
    if !(0 <= i < j < ts.len()) {
        false
    } else if ts[i].kind is LParen && spec_is_type_decl(tds, spec_kind_at(ts, i + 1)) {
        match e {
            Expr::Cast { ty: target, expr, span } => span == ts[i].span && exists|k: int|
            #![trigger ts[k]]
                i + 1 < k < j - 1 && ts[k].kind is RParen && spec_type_name_range(ts, tds, i + 1, k)
                    && spec_words_name(spec_type_words(ts.subrange(i + 1, k), tds), tds, ty(target)) && spec_parses_unary(
                    ts,
                    tds,
                    k + 1,
                    *expr,
                    j,
                ),
            _ => false,
        }
    } else if ts[i].kind is PlusPlus {
        match e {
            Expr::PrefixInc { expr, op_span } => op_span == ts[i].span && spec_parses_unary(ts, tds, i + 1, *expr, j),
            _ => false,
        }
    } else if ts[i].kind is MinusMinus {
        match e {
            Expr::PrefixDec { expr, op_span } => op_span == ts[i].span && spec_parses_unary(ts, tds, i + 1, *expr, j),
            _ => false,
        }
    } else {
        match spec_unary_op(ts[i].kind) {
            Some(op) => match e {
                Expr::Unary { op: o, op_span, expr } => o == op && op_span == ts[i].span && spec_parses_unary(
                    ts,
                    tds,
                    i + 1,
                    *expr,
                    j,
                ),
                _ => false,
            },
            None => spec_parses_postfix(ts, tds, i, e, j),
        }
    }
}

/// A postfix expression with no further `[`, `++` or `--` at `j`.
pub open spec fn spec_parses_postfix(ts: Seq<Token>, tds: Seq<(String, Type)>, i: int, e: Expr, j: int) -> bool
    decreases j - i, 2nat, 1nat,
{
    &&& 0 <= j < ts.len()
    &&& !(ts[j].kind is LBracket || ts[j].kind is PlusPlus || ts[j].kind is MinusMinus)
    &&& spec_parses_postfix_chain(ts, tds, i, e, j)
}

/// A primary expression followed by indexing and postfix `++`/`--`.
pub open spec fn spec_parses_postfix_chain(ts: Seq<Token>, tds: Seq<(String, Type)>, i: int, e: Expr, j: int) -> bool
    decreases j - i, 2nat, 0nat,
{
    if !(0 <= i < j < ts.len()) {
        false
    } else {
        ||| spec_parses_primary(ts, tds, i, e, j)
        ||| match e {
            Expr::Index { base, index, span } => exists|k: int|
            #![trigger ts[k]]
                i < k < j - 2 && ts[k].kind is LBracket && span == ts[k].span && ts[j - 1].kind is RBracket
                    && spec_parses_postfix_chain(ts, tds, i, *base, k) && spec_parses_expr(ts, tds, k + 1, *index, j - 1),
            Expr::PostfixInc { expr, op_span } => i < j - 1 && ts[j - 1].kind is PlusPlus && op_span == ts[j - 1].span
                && spec_parses_postfix_chain(ts, tds, i, *expr, j - 1),
            Expr::PostfixDec { expr, op_span } => i < j - 1 && ts[j - 1].kind is MinusMinus && op_span == ts[j - 1].span
                && spec_parses_postfix_chain(ts, tds, i, *expr, j - 1),
            _ => false,
        }
    }
}

/// A literal, a variable, a call of a named function, or an expression in parentheses.
pub open spec fn spec_parses_primary(ts: Seq<Token>, tds: Seq<(String, Type)>, i: int, e: Expr, j: int) -> bool
    decreases j - i, 1nat, 0nat,
{
    if !(0 <= i < j < ts.len()) {
        false
    } else {
        match ts[i].kind {
            TokenKind::IntLiteral { value, suffix, base } => j == i + 1 && e == (Expr::IntLiteral {
                value,
                suffix,
                base,
                span: ts[i].span,
            }),
            TokenKind::CharLiteral(v) => j == i + 1 && e == (Expr::IntLiteral {
                value: v as u64,
                suffix: IntLiteralSuffix::Unsuffixed,
                base: IntLiteralBase::Decimal,
                span: ts[i].span,
            }),
            TokenKind::Ident(name) => if spec_kind_at(ts, i + 1) is LParen {
                match e {
                    Expr::Call { callee, args, span } => {
                        &&& span == ts[i].span
                        &&& *callee matches Expr::Variable { name: n, span: s } && n@ == name@ && s == ts[i].span
                        &&& i + 2 < j
                        &&& ts[j - 1].kind is RParen
                        &&& spec_parses_args(ts, tds, i + 2, args@, j - 1)
                    },
                    _ => false,
                }
            } else {
                j == i + 1 && (e matches Expr::Variable { name: n, span } && n@ == name@ && span == ts[i].span)
            },
            TokenKind::LParen => i + 1 < j - 1 && ts[j - 1].kind is RParen && spec_parses_expr(ts, tds, i + 1, e, j - 1),
            _ => false,
        }
    }
}

/// Call arguments from `i` up to the `)` at `j`: expressions, each but the
/// last optionally followed by a comma, and no comma just before the `)`.
pub open spec fn spec_parses_args(ts: Seq<Token>, tds: Seq<(String, Type)>, i: int, args: Seq<Expr>, j: int) -> bool
    decreases j - i, 20nat, 0nat,
{
    if !(0 <= i <= j < ts.len()) {
        false
    } else if args.len() == 0 {
        i == j && ts[j].kind is RParen
    } else {
        exists|k: int|
            #![trigger spec_after_arg(ts, k, j)]
            i < k <= j && spec_parses_expr(ts, tds, i, args[0], k) && spec_after_arg(ts, k, j) && spec_parses_args(
                ts,
                tds,
                spec_next_arg(ts, k),
                args.drop_first(),
                j,
            )
    }
}

/// After an argument that ends at `m`: a comma, if there is one, is not the last thing before `)`
/// at or before `j`.
pub open spec fn spec_after_arg(ts: Seq<Token>, m: int, j: int) -> bool {
    ts[m].kind is Comma ==> m < j && !(spec_kind_at(ts, m + 1) is RParen)
}

/// Where the next argument starts after one that ends at `m`: past a comma, if there is one.
pub open spec fn spec_next_arg(ts: Seq<Token>, m: int) -> int {
    if ts[m].kind is Comma {
        m + 1
    } else {
        m
    }
}

/// The arguments `args` have been read from `i`, and the parser stands at `p`:
/// at the start of the next argument or of the closing `)`.
pub open spec fn spec_args_upto(ts: Seq<Token>, tds: Seq<(String, Type)>, i: int, args: Seq<Expr>, p: int) -> bool
    decreases args.len(),
{
    if args.len() == 0 {
        p == i
    } else {
        exists|k: int, m: int|
            #![trigger spec_parses_expr(ts, tds, k, args.last(), m)]
            k < m && spec_args_upto(ts, tds, i, args.drop_last(), k) && spec_parses_expr(ts, tds, k, args.last(), m)
                && spec_after_arg(ts, m, p) && p == spec_next_arg(ts, m)
    }
}

/// One argument from `k` to `m`, then the rest up to the `)`.
proof fn lemma_args_cons(ts: Seq<Token>, tds: Seq<(String, Type)>, k: int, m: int, a: Expr, rest: Seq<Expr>, j: int)
    requires
        0 <= k < m,
        spec_parses_expr(ts, tds, k, a, m),
        spec_after_arg(ts, m, j),
        spec_parses_args(ts, tds, spec_next_arg(ts, m), rest, j),
    ensures
        spec_parses_args(ts, tds, k, seq![a] + rest, j),
{
    let r2 = seq![a] + rest;
    assert(r2[0] == a);
    assert(r2.drop_first() =~= rest);
    assert(spec_after_arg(ts, m, j));
}

/// Reading arguments never moves back.
proof fn lemma_args_upto_start(ts: Seq<Token>, tds: Seq<(String, Type)>, i: int, args: Seq<Expr>, p: int)
    requires
        spec_args_upto(ts, tds, i, args, p),
    ensures
        i <= p,
    decreases args.len(),
{
    if args.len() > 0 {
        assert(exists|k: int, m: int|
            #![trigger spec_parses_expr(ts, tds, k, args.last(), m)]
            k < m && spec_args_upto(ts, tds, i, args.drop_last(), k) && spec_parses_expr(ts, tds, k, args.last(), m)
                && spec_after_arg(ts, m, p) && p == spec_next_arg(ts, m));
        let (k, m) = choose|k: int, m: int|
            #![trigger spec_parses_expr(ts, tds, k, args.last(), m)]
            k < m && spec_args_upto(ts, tds, i, args.drop_last(), k) && spec_parses_expr(ts, tds, k, args.last(), m)
                && spec_after_arg(ts, m, p) && p == spec_next_arg(ts, m);
        lemma_args_upto_start(ts, tds, i, args.drop_last(), k);
    }
}

/// Arguments read up to `p`, then the rest up to the `)`, are all the arguments.
pub proof fn lemma_args_join(
    ts: Seq<Token>,
    tds: Seq<(String, Type)>,
    i: int,
    args: Seq<Expr>,
    p: int,
    rest: Seq<Expr>,
    j: int,
)
    requires
        spec_args_upto(ts, tds, i, args, p),
        spec_parses_args(ts, tds, p, rest, j),
        0 <= i,
    ensures
        spec_parses_args(ts, tds, i, args + rest, j),
    decreases args.len(),
{
    if args.len() == 0 {
        assert(args + rest =~= rest);
    } else {
        let (k, m) = choose|k: int, m: int|
            #![trigger spec_parses_expr(ts, tds, k, args.last(), m)]
            k < m && spec_args_upto(ts, tds, i, args.drop_last(), k) && spec_parses_expr(ts, tds, k, args.last(), m)
                && spec_after_arg(ts, m, p) && p == spec_next_arg(ts, m);
        lemma_args_upto_start(ts, tds, i, args.drop_last(), k);
        assert(spec_after_arg(ts, m, j));
        lemma_args_cons(ts, tds, k, m, args.last(), rest, j);
        lemma_args_join(ts, tds, i, args.drop_last(), k, seq![args.last()] + rest, j);
        assert(args.drop_last() + (seq![args.last()] + rest) =~= args + rest);
    }
}

/// A local declaration statement from `i` up to `j`: declaration-specifier
/// words, then its locals, then `;`. Every local's type is its declarator
/// applied to the type the words name.
pub open spec fn spec_parses_decl_stmt(ts: Seq<Token>, tds: Seq<(String, Type)>, i: int, s: Statement, j: int) -> bool {
    match s {
        Statement::Decl(ls) => exists|k: int, base: TypeModel|
            #![trigger spec_pos(ts, k), spec_parses_locals(ts, tds, k, ls@, j - 1, base)]
            spec_pos(ts, k) && spec_type_name_range(ts, tds, i, k) && k < j - 1 && ts[j - 1].kind is Semicolon
                && spec_words_name(spec_type_words(ts.subrange(i, k), tds), tds, base)
                && spec_parses_locals(ts, tds, k, ls@, j - 1, base),
        _ => false,
    }
}

/// `k` is a position of the token stream.
pub open spec fn spec_pos(ts: Seq<Token>, k: int) -> bool {
    0 <= k < ts.len()
}

/// The first clause of a `for` loop, from `p` up to and including its `;`: a
/// declaration, an empty clause, or an expression statement.
pub open spec fn spec_parses_for_init(ts: Seq<Token>, tds: Seq<(String, Type)>, p: int, s: Statement, q: int) -> bool {
    if !(0 <= p < q < ts.len()) {
        false
    } else if spec_is_type_decl(tds, ts[p].kind) {
        spec_parses_decl_stmt(ts, tds, p, s, q)
    } else if ts[p].kind is Semicolon {
        s is Empty && q == p + 1
    } else if spec_is_expr_start(ts[p].kind) {
        match s {
            Statement::ExprStatement(e) => p + 1 < q && ts[q - 1].kind is Semicolon && spec_parses_expr(ts, tds, p, e, q - 1),
            _ => false,
        }
    } else {
        false
    }
}

/// A statement from `i` up to `j`, chosen by its first token: `return`, `if`,
/// `while`, `do`, `break`, `continue`, `for`, a block, an empty statement, a
/// declaration (when the token starts one), or an expression statement.
pub open spec fn spec_parses_stmt(ts: Seq<Token>, tds: Seq<(String, Type)>, i: int, s: Statement, j: int) -> bool
    decreases j - i, 0nat,
{
    if !(0 <= i < j < ts.len()) {
        false
    } else {
        match ts[i].kind {
            TokenKind::KwReturn => match s {
                Statement::Return(e) => i + 2 < j && ts[j - 1].kind is Semicolon && spec_parses_expr(ts, tds, i + 1, e, j - 1),
                _ => false,
            },
            TokenKind::KwIf => match s {
                Statement::If { cond, then_branch, else_branch } => exists|k: int, m: int|
                    #![trigger spec_pos(ts, k), spec_pos(ts, m)]
                    spec_pos(ts, k) && spec_pos(ts, m) && i + 2 < k && k + 1 < m && m <= j && ts[i + 1].kind is LParen
                        && spec_parses_expr(ts, tds, i + 2, cond, k) && ts[k].kind is RParen && spec_parses_stmt(
                        ts,
                        tds,
                        k + 1,
                        *then_branch,
                        m,
                    ) && match else_branch {
                        Some(b) => m + 1 < j && ts[m].kind is KwElse && spec_parses_stmt(ts, tds, m + 1, *b, j),
                        None => m == j && !(ts[m].kind is KwElse),
                    },
                _ => false,
            },
            TokenKind::KwWhile => match s {
                Statement::While { cond, body } => exists|k: int|
                    #![trigger spec_pos(ts, k)]
                    spec_pos(ts, k) && i + 2 < k && k + 1 < j && ts[i + 1].kind is LParen && spec_parses_expr(
                        ts,
                        tds,
                        i + 2,
                        cond,
                        k,
                    ) && ts[k].kind is RParen && spec_parses_stmt(ts, tds, k + 1, *body, j),
                _ => false,
            },
            TokenKind::KwDo => match s {
                Statement::DoWhile { body, cond } => exists|k: int|
                    #![trigger spec_pos(ts, k)]
                    spec_pos(ts, k) && i + 1 < k && k + 2 < j - 2 && spec_parses_stmt(ts, tds, i + 1, *body, k)
                        && ts[k].kind is KwWhile && ts[k + 1].kind is LParen && spec_parses_expr(ts, tds, k + 2, cond, j - 2)
                        && ts[j - 2].kind is RParen && ts[j - 1].kind is Semicolon,
                _ => false,
            },
            TokenKind::KwBreak => s == (Statement::Break { span: ts[i].span }) && j == i + 2 && ts[i + 1].kind is Semicolon,
            TokenKind::KwContinue => s == (Statement::Continue { span: ts[i].span }) && j == i + 2
                && ts[i + 1].kind is Semicolon,
            TokenKind::KwFor => match s {
                Statement::For { init, cond, post, body } => exists|q: int, r: int, t: int|
                    #![trigger spec_pos(ts, q), spec_pos(ts, r), spec_pos(ts, t)]
                    spec_pos(ts, q) && spec_pos(ts, r) && spec_pos(ts, t) && i + 2 < q <= r && r < t && t + 1 < j
                        && ts[i + 1].kind is LParen && (if ts[i + 2].kind is Semicolon {
                        init is None && q == i + 3
                    } else {
                        init matches Some(x) && spec_parses_for_init(ts, tds, i + 2, *x, q)
                    }) && (if ts[q].kind is Semicolon {
                        cond is None && r == q
                    } else {
                        cond matches Some(c) && spec_parses_expr(ts, tds, q, c, r)
                    }) && ts[r].kind is Semicolon && (if ts[r + 1].kind is RParen {
                        post is None && t == r + 1
                    } else {
                        post matches Some(x) && spec_parses_expr(ts, tds, r + 1, x, t)
                    }) && ts[t].kind is RParen && spec_parses_stmt(ts, tds, t + 1, *body, j),
                _ => false,
            },
            TokenKind::LBrace => match s {
                Statement::Block(body) => i + 1 < j && ts[j - 1].kind is RBrace && spec_parses_stmts(ts, tds, i + 1, body@, j - 1),
                _ => false,
            },
            TokenKind::Semicolon => s is Empty && j == i + 1,
            k => if spec_is_type_decl(tds, k) {
                spec_parses_decl_stmt(ts, tds, i, s, j)
            } else if spec_is_expr_start(k) {
                match s {
                    Statement::ExprStatement(e) => i + 1 < j && ts[j - 1].kind is Semicolon && spec_parses_expr(ts, tds, i, e, j - 1),
                    _ => false,
                }
            } else {
                false
            },
        }
    }
}

/// Statements one after another from `i` up to `j`.
pub open spec fn spec_parses_stmts(ts: Seq<Token>, tds: Seq<(String, Type)>, i: int, ss: Seq<Statement>, j: int) -> bool
    decreases j - i, 1nat,
{
    if !(0 <= i <= j < ts.len()) {
        false
    } else if ss.len() == 0 {
        i == j
    } else {
        exists|k: int|
            #![trigger spec_pos(ts, k)]
            spec_pos(ts, k) && i < k <= j && spec_parses_stmt(ts, tds, i, ss[0], k) && spec_parses_stmts(
                ts,
                tds,
                k,
                ss.drop_first(),
                j,
            )
    }
}

/// Statements up to `k`, then one more up to `m`.
pub proof fn lemma_stmts_snoc(
    ts: Seq<Token>,
    tds: Seq<(String, Type)>,
    i: int,
    ss: Seq<Statement>,
    k: int,
    s: Statement,
    m: int,
)
    requires
        spec_parses_stmts(ts, tds, i, ss, k),
        spec_parses_stmt(ts, tds, k, s, m),
    ensures
        spec_parses_stmts(ts, tds, i, ss.push(s), m),
    decreases ss.len(),
{
    if ss.len() == 0 {
        assert(ss.push(s)[0] == s);
        assert(ss.push(s).drop_first() =~= Seq::<Statement>::empty());
        assert(spec_parses_stmts(ts, tds, m, ss.push(s).drop_first(), m));
        assert(spec_pos(ts, m));
    } else {
        let k1 = choose|k1: int|
            #![trigger spec_pos(ts, k1)]
            spec_pos(ts, k1) && i < k1 <= k && spec_parses_stmt(ts, tds, i, ss[0], k1) && spec_parses_stmts(
                ts,
                tds,
                k1,
                ss.drop_first(),
                k,
            );
        lemma_stmts_snoc(ts, tds, k1, ss.drop_first(), k, s, m);
        assert(ss.push(s).drop_first() =~= ss.drop_first().push(s));
        assert(ss.push(s)[0] == ss[0]);
        assert(spec_pos(ts, k1));
    }
}

/// The end of the run of `*` tokens that starts at `k`.
pub open spec fn spec_star_end(ts: Seq<Token>, k: int) -> int
    decreases ts.len() - k,
{
    if 0 <= k < ts.len() && ts[k].kind is Star {
        spec_star_end(ts, k + 1)
    } else {
        k
    }
}

/// A declarator: `*` and a declarator, or a direct declarator.
pub open spec fn spec_parses_declarator(ts: Seq<Token>, tds: Seq<(String, Type)>, i: int, d: Declarator, j: int) -> bool
    decreases j - i, 3nat, 0nat,
{
    if !(0 <= i < j < ts.len()) {
        false
    } else if ts[i].kind is Star {
        match d {
            Declarator::Pointer(inner) => spec_parses_declarator(ts, tds, i + 1, *inner, j),
            _ => false,
        }
    } else {
        spec_parses_direct(ts, tds, i, d, j)
    }
}

/// A direct declarator with no further `[` or `(` at `j`.
pub open spec fn spec_parses_direct(ts: Seq<Token>, tds: Seq<(String, Type)>, i: int, d: Declarator, j: int) -> bool
    decreases j - i, 2nat, 1nat,
{
    &&& 0 <= j < ts.len()
    &&& !(ts[j].kind is LBracket || ts[j].kind is LParen)
    &&& spec_parses_direct_chain(ts, tds, i, d, j)
}

/// A name followed by array suffixes `[n]` (n at least 1) and parameter lists.
pub open spec fn spec_parses_direct_chain(ts: Seq<Token>, tds: Seq<(String, Type)>, i: int, d: Declarator, j: int) -> bool
    decreases j - i, 2nat, 0nat,
{
    if !(0 <= i < j < ts.len()) {
        false
    } else {
        match d {
            Declarator::Name { name, name_span } => j == i + 1 && name_span == ts[i].span && (ts[i].kind matches TokenKind::Ident(
                n,
            ) && n@ == name@),
            Declarator::Array { inner, len } => {
                &&& i + 3 < j
                &&& ts[j - 3].kind is LBracket
                &&& ts[j - 1].kind is RBracket
                &&& ts[j - 2].kind matches TokenKind::IntLiteral { value, .. } && value >= 1 && value == len
                &&& spec_parses_direct_chain(ts, tds, i, *inner, j - 3)
            },
            Declarator::Function { inner, params } => exists|k: int|
                #![trigger spec_pos(ts, k)]
                spec_pos(ts, k) && i < k && k + 1 < j && ts[k].kind is LParen && ts[j - 1].kind is RParen
                    && spec_parses_direct_chain(ts, tds, i, *inner, k) && spec_parses_params(ts, tds, k + 1, params@, j - 1),
            Declarator::Pointer(_) => false,
        }
    }
}

/// Parameters from `i` up to the `)` at `j`, separated as call arguments are.
pub open spec fn spec_parses_params(ts: Seq<Token>, tds: Seq<(String, Type)>, i: int, ps: Seq<RawParam>, j: int) -> bool
    decreases j - i, 20nat, 0nat,
{
    if !(0 <= i <= j < ts.len()) {
        false
    } else if ps.len() == 0 {
        i == j && ts[j].kind is RParen
    } else {
        exists|k: int|
            #![trigger spec_after_arg(ts, k, j)]
            i < k <= j && spec_parses_raw_param(ts, tds, i, ps[0], k) && spec_after_arg(ts, k, j) && spec_parses_params(
                ts,
                tds,
                spec_next_arg(ts, k),
                ps.drop_first(),
                j,
            )
    }
}

/// `base` under `n` pointers.
pub open spec fn spec_pointer_to(base: TypeModel, n: nat) -> TypeModel
    decreases n,
{
    if n == 0 {
        base
    } else {
        TypeModel::Pointer(Box::new(spec_pointer_to(base, (n - 1) as nat)))
    }
}

/// One parameter: its declaration-specifier words, which name a base type,
/// then nothing (the parameter has the base type), a run of `*` optionally
/// followed by a name (a pointer per `*` to the base), or a declarator naming
/// it (the type the declarator gives the base).
pub open spec fn spec_parses_raw_param(ts: Seq<Token>, tds: Seq<(String, Type)>, i: int, p: RawParam, j: int) -> bool
    decreases j - i, 5nat, 0nat,
{
    exists|k: int, base: TypeModel|
        #![trigger spec_pos(ts, k), spec_words_name(spec_type_words(ts.subrange(i, k), tds), tds, base)]
        spec_pos(ts, k) && spec_type_name_range(ts, tds, i, k) && spec_words_name(spec_type_words(ts.subrange(i, k), tds), tds, base)
            && p.ty_span == ts[i].span && k <= j && if ts[k].kind is Comma || ts[k].kind is RParen {
            p.name is None && p.name_span is None && j == k && ty(p.ty) == base
        } else if ts[k].kind is Star {
            let m = spec_star_end(ts, k);
            ty(p.ty) == spec_pointer_to(base, (m - k) as nat) && if ts[m].kind is Comma || ts[m].kind is RParen {
                p.name is None && p.name_span is None && j == m
            } else {
                j == m + 1 && p.name_span == Some(ts[m].span) && (ts[m].kind matches TokenKind::Ident(n) && p.name matches Some(
                    s,
                ) && s@ == n@)
            }
        } else {
            exists|d: Declarator|
                #![trigger spec_declarator_name(d)]
                k < j && spec_parses_declarator(ts, tds, k, d, j) && (p.name matches Some(s) && s@ == spec_declarator_name(d))
                    && p.name_span == Some(spec_declarator_name_span(d)) && spec_lower(base, d) == LoweredModel::Object(ty(p.ty))
        }
}

/// The elements of an initializer list from `i` up to the `}` at `j`: expressions,
/// each optionally followed by a comma.
pub open spec fn spec_parses_init_list(ts: Seq<Token>, tds: Seq<(String, Type)>, i: int, es: Seq<Expr>, j: int) -> bool
    decreases j - i,
{
    if !(0 <= i <= j < ts.len()) {
        false
    } else if es.len() == 0 {
        i == j && ts[j].kind is RBrace
    } else {
        exists|k: int|
            #![trigger spec_next_arg(ts, k)]
            i < k <= j && spec_parses_expr(ts, tds, i, es[0], k) && spec_next_arg(ts, k) <= j && spec_parses_init_list(
                ts,
                tds,
                spec_next_arg(ts, k),
                es.drop_first(),
                j,
            )
    }
}

/// An initializer: a braced list, or an expression.
pub open spec fn spec_parses_initializer(ts: Seq<Token>, tds: Seq<(String, Type)>, i: int, init: Initializer, j: int) -> bool {
    if !(0 <= i < j < ts.len()) {
        false
    } else if ts[i].kind is LBrace {
        match init {
            Initializer::List(es) => i + 1 < j && ts[j - 1].kind is RBrace && spec_parses_init_list(ts, tds, i + 1, es@, j - 1),
            _ => false,
        }
    } else {
        match init {
            Initializer::Expr(e) => spec_parses_expr(ts, tds, i, e, j),
            _ => false,
        }
    }
}

/// The parameters `ps` have been read from `i`, and the parser stands at `p`.
pub open spec fn spec_params_upto(ts: Seq<Token>, tds: Seq<(String, Type)>, i: int, ps: Seq<RawParam>, p: int) -> bool
    decreases ps.len(),
{
    if ps.len() == 0 {
        p == i
    } else {
        exists|k: int, m: int|
            #![trigger spec_parses_raw_param(ts, tds, k, ps.last(), m)]
            k < m && spec_params_upto(ts, tds, i, ps.drop_last(), k) && spec_parses_raw_param(ts, tds, k, ps.last(), m)
                && spec_after_arg(ts, m, p) && p == spec_next_arg(ts, m)
    }
}

proof fn lemma_params_upto_start(ts: Seq<Token>, tds: Seq<(String, Type)>, i: int, ps: Seq<RawParam>, p: int)
    requires
        spec_params_upto(ts, tds, i, ps, p),
    ensures
        i <= p,
    decreases ps.len(),
{
    if ps.len() > 0 {
        let (k, m) = choose|k: int, m: int|
            #![trigger spec_parses_raw_param(ts, tds, k, ps.last(), m)]
            k < m && spec_params_upto(ts, tds, i, ps.drop_last(), k) && spec_parses_raw_param(ts, tds, k, ps.last(), m)
                && spec_after_arg(ts, m, p) && p == spec_next_arg(ts, m);
        lemma_params_upto_start(ts, tds, i, ps.drop_last(), k);
    }
}

proof fn lemma_params_cons(ts: Seq<Token>, tds: Seq<(String, Type)>, k: int, m: int, a: RawParam, rest: Seq<RawParam>, j: int)
    requires
        0 <= k < m,
        spec_parses_raw_param(ts, tds, k, a, m),
        spec_after_arg(ts, m, j),
        spec_parses_params(ts, tds, spec_next_arg(ts, m), rest, j),
    ensures
        spec_parses_params(ts, tds, k, seq![a] + rest, j),
{
    let r2 = seq![a] + rest;
    assert(r2[0] == a);
    assert(r2.drop_first() =~= rest);
    assert(spec_after_arg(ts, m, j));
}

/// Parameters read up to `p`, then the rest up to the `)`, are all the parameters.
pub proof fn lemma_params_join(
    ts: Seq<Token>,
    tds: Seq<(String, Type)>,
    i: int,
    ps: Seq<RawParam>,
    p: int,
    rest: Seq<RawParam>,
    j: int,
)
    requires
        spec_params_upto(ts, tds, i, ps, p),
        spec_parses_params(ts, tds, p, rest, j),
        0 <= i,
    ensures
        spec_parses_params(ts, tds, i, ps + rest, j),
    decreases ps.len(),
{
    if ps.len() == 0 {
        assert(ps + rest =~= rest);
    } else {
        let (k, m) = choose|k: int, m: int|
            #![trigger spec_parses_raw_param(ts, tds, k, ps.last(), m)]
            k < m && spec_params_upto(ts, tds, i, ps.drop_last(), k) && spec_parses_raw_param(ts, tds, k, ps.last(), m)
                && spec_after_arg(ts, m, p) && p == spec_next_arg(ts, m);
        lemma_params_upto_start(ts, tds, i, ps.drop_last(), k);
        assert(spec_after_arg(ts, m, j));
        lemma_params_cons(ts, tds, k, m, ps.last(), rest, j);
        lemma_params_join(ts, tds, i, ps.drop_last(), k, seq![ps.last()] + rest, j);
        assert(ps.drop_last() + (seq![ps.last()] + rest) =~= ps + rest);
    }
}

/// The list elements `es` have been read from `i`, and the parser stands at `p`.
pub open spec fn spec_init_upto(ts: Seq<Token>, tds: Seq<(String, Type)>, i: int, es: Seq<Expr>, p: int) -> bool
    decreases es.len(),
{
    if es.len() == 0 {
        p == i
    } else {
        exists|k: int, m: int|
            #![trigger spec_parses_expr(ts, tds, k, es.last(), m)]
            k < m && spec_init_upto(ts, tds, i, es.drop_last(), k) && spec_parses_expr(ts, tds, k, es.last(), m) && p
                == spec_next_arg(ts, m)
    }
}

proof fn lemma_init_upto_start(ts: Seq<Token>, tds: Seq<(String, Type)>, i: int, es: Seq<Expr>, p: int)
    requires
        spec_init_upto(ts, tds, i, es, p),
    ensures
        i <= p,
    decreases es.len(),
{
    if es.len() > 0 {
        let (k, m) = choose|k: int, m: int|
            #![trigger spec_parses_expr(ts, tds, k, es.last(), m)]
            k < m && spec_init_upto(ts, tds, i, es.drop_last(), k) && spec_parses_expr(ts, tds, k, es.last(), m) && p
                == spec_next_arg(ts, m);
        lemma_init_upto_start(ts, tds, i, es.drop_last(), k);
    }
}

/// List elements read up to `p`, then the rest up to the `}`, are all the elements.
pub proof fn lemma_init_join(
    ts: Seq<Token>,
    tds: Seq<(String, Type)>,
    i: int,
    es: Seq<Expr>,
    p: int,
    rest: Seq<Expr>,
    j: int,
)
    requires
        spec_init_upto(ts, tds, i, es, p),
        spec_parses_init_list(ts, tds, p, rest, j),
        0 <= i,
    ensures
        spec_parses_init_list(ts, tds, i, es + rest, j),
    decreases es.len(),
{
    if es.len() == 0 {
        assert(es + rest =~= rest);
    } else {
        let (k, m) = choose|k: int, m: int|
            #![trigger spec_parses_expr(ts, tds, k, es.last(), m)]
            k < m && spec_init_upto(ts, tds, i, es.drop_last(), k) && spec_parses_expr(ts, tds, k, es.last(), m) && p
                == spec_next_arg(ts, m);
        lemma_init_upto_start(ts, tds, i, es.drop_last(), k);
        let r2 = seq![es.last()] + rest;
        assert(r2[0] == es.last());
        assert(r2.drop_first() =~= rest);
        assert(spec_parses_init_list(ts, tds, k, r2, j));
        lemma_init_join(ts, tds, i, es.drop_last(), k, r2, j);
        assert(es.drop_last() + r2 =~= es + rest);
    }
}

/// One local of a declaration from `i` up to `j`: a declarator, then `=` and an
/// initializer if the local has one. The local takes the declarator's name and
/// its span, and the type the declarator gives `base`.
pub open spec fn spec_parses_local(ts: Seq<Token>, tds: Seq<(String, Type)>, i: int, l: LocalDecl, j: int, base: TypeModel) -> bool {
    exists|k: int, d: Declarator|
        #![trigger spec_pos(ts, k), spec_declarator_name(d)]
        spec_pos(ts, k) && spec_parses_declarator(ts, tds, i, d, k) && l.name@ == spec_declarator_name(d) && l.name_span
            == spec_declarator_name_span(d) && spec_lower(base, d) == LoweredModel::Object(ty(l.ty)) && match l.init {
            Some(init) => ts[k].kind is Equal && spec_parses_initializer(ts, tds, k + 1, init, j),
            None => !(ts[k].kind is Equal) && j == k,
        }
}

/// The locals of a declaration, separated by commas, from `i` up to `j`.
pub open spec fn spec_parses_locals(ts: Seq<Token>, tds: Seq<(String, Type)>, i: int, ls: Seq<LocalDecl>, j: int, base: TypeModel) -> bool
    decreases ls.len(),
{
    if ls.len() == 0 {
        false
    } else if ls.len() == 1 {
        spec_parses_local(ts, tds, i, ls[0], j, base)
    } else {
        exists|k: int|
            #![trigger spec_pos(ts, k)]
            spec_pos(ts, k) && spec_parses_local(ts, tds, i, ls[0], k, base) && ts[k].kind is Comma && spec_parses_locals(
                ts,
                tds,
                k + 1,
                ls.drop_first(),
                j,
                base,
            )
    }
}

/// The head of an external declaration from `i` up to `k`: declaration-specifier
/// words, then the declarator `d`, which gives `lowered` when applied to the
/// type the words name.
pub open spec fn spec_parses_head(ts: Seq<Token>, tds: Seq<(String, Type)>, i: int, k: int, d: Declarator, lowered: LoweredModel) -> bool {
    exists|k0: int, base: TypeModel|
        #![trigger spec_pos(ts, k0), spec_lower(base, d)]
        spec_pos(ts, k0) && spec_type_name_range(ts, tds, i, k0) && spec_words_name(spec_type_words(ts.subrange(i, k0), tds), tds, base)
            && spec_parses_declarator(ts, tds, k0, d, k) && spec_lower(base, d) == lowered
}

} // verus!

use crate::ast::{
    c_integer_rank, c_is_unsigned, spec_is_scalar, clone_type, spec_is_assignable_from, spec_is_integer, spec_promoted, spec_size, spec_size_fits,
    spec_is_sized, spec_usual_arithmetic_type, ty, tys, type_eq, BinaryOp, Expr, ExternalDecl, FunctionDef,
    FunctionType, Initializer, IntLiteralBase, IntLiteralSuffix, LocalDecl, Param, Program, Statement, Type,
    TypeModel, UnaryOp,
};
use crate::source::Span;
use crate::text::{push_str, push_u64, spec_decimal};
use crate::typed_ast::{
    spec_is_null_pointer_constant, LocalId, ObjectId, TypedExpr, TypedExprKind, TypedExternalDecl, TypedFunction,
    TypedInitializer, TypedLocalDecl, TypedParam, TypedProgram, TypedStatement,
};
use vstd::prelude::*;

verus! {

#[derive(Debug, Clone, PartialEq, Eq)]
pub struct SemanticError {
    pub message: String,
    pub span: Span,
}

/// What a call needs to know of a function: its return type, name and parameters.
pub struct FunctionInfo {
    return_type: Type,
    name: String,
    params: Vec<Param>,
}

/// The operand type and result type of a binary operation, as models.
pub struct BinaryTypes {
    pub operand: TypeModel,
    pub result: TypeModel,
}

/// The comparison and logical operators, whose result is `int`.
pub open spec fn spec_is_int_result_op(op: BinaryOp) -> bool {
    op == BinaryOp::Equal || op == BinaryOp::NotEqual || op == BinaryOp::Less || op == BinaryOp::LessEqual
        || op == BinaryOp::Greater || op == BinaryOp::GreaterEqual || op == BinaryOp::LogicalAnd
        || op == BinaryOp::LogicalOr
}

/// The typing rule of binary operators: pointer plus or minus integer, integer
/// plus pointer, equality of pointers to the same type, and integer operations
/// after the usual arithmetic conversions (shifts take the promoted left type).
pub open spec fn spec_binary_types(op: BinaryOp, l: Type, r: Type) -> Option<BinaryTypes> {
    if l is Pointer && spec_is_integer(r) {
        if op == BinaryOp::Add || op == BinaryOp::Subtract {
            Some(BinaryTypes { operand: ty(l), result: ty(l) })
        } else {
            None
        }
    } else if r is Pointer && spec_is_integer(l) {
        if op == BinaryOp::Add {
            Some(BinaryTypes { operand: ty(r), result: ty(r) })
        } else {
            None
        }
    } else if l is Pointer && r is Pointer {
        if ty(l) == ty(r) && (op == BinaryOp::Equal || op == BinaryOp::NotEqual) {
            Some(BinaryTypes { operand: ty(l), result: TypeModel::Int })
        } else {
            None
        }
    } else if !spec_is_integer(l) || !spec_is_integer(r) {
        None
    } else if op == BinaryOp::ShiftLeft || op == BinaryOp::ShiftRight {
        Some(BinaryTypes { operand: ty(spec_promoted(l).unwrap()), result: ty(spec_promoted(l).unwrap()) })
    } else if spec_is_int_result_op(op) {
        Some(BinaryTypes { operand: ty(spec_usual_arithmetic_type(l, r)), result: TypeModel::Int })
    } else {
        Some(BinaryTypes { operand: ty(spec_usual_arithmetic_type(l, r)), result: ty(spec_usual_arithmetic_type(l, r)) })
    }
}

/// `value` may be assigned to an object of type `target`: compatible types,
/// or a null pointer constant assigned to a pointer.
pub open spec fn spec_assignable_expr(target: Type, value: TypedExpr) -> bool {
    spec_is_assignable_from(target, value.ty) || (target is Pointer && spec_is_null_pointer_constant(value))
}

/// A typed expression follows the typing rules at every node.
pub open spec fn wt(e: TypedExpr) -> bool
    decreases e,
{
    match e.kind {
        TypedExprKind::IntLiteral { .. } => spec_is_integer(e.ty),
        TypedExprKind::Variable { .. } => true,
        TypedExprKind::Binary { op, operand_ty, left, right, .. } => {
            &&& wt(*left)
            &&& wt(*right)
            &&& (match spec_binary_types(op, left.ty, right.ty) {
                Some(bt) => bt.operand == ty(operand_ty) && bt.result == ty(e.ty),
                None => false,
            } || ((op == BinaryOp::Equal || op == BinaryOp::NotEqual) && e.ty == Type::Int && operand_ty is Pointer
                && ((ty(operand_ty) == ty(left.ty) && spec_is_null_pointer_constant(*right)) || (ty(operand_ty)
                == ty(right.ty) && spec_is_null_pointer_constant(*left)))))
        },
        TypedExprKind::Unary { op, expr, .. } => {
            &&& wt(*expr)
            &&& match op {
                UnaryOp::LogicalNot => e.ty == Type::Int,
                UnaryOp::Negate | UnaryOp::BitwiseNot => spec_is_integer(expr.ty) && spec_promoted(expr.ty)
                    == Some(e.ty),
                UnaryOp::Dereference => expr.ty matches Type::Pointer(inner) && ty(*inner) == ty(e.ty),
                UnaryOp::AddressOf => ty(e.ty) == TypeModel::Pointer(Box::new(ty(expr.ty))),
            }
        },
        TypedExprKind::Call { callee, args, .. } => {
            &&& wt(*callee)
            &&& callee.kind is FunctionDesignator
            &&& wt_all(args@)
            &&& callee.ty matches Type::Function(f) && ty(*f.return_type) == ty(e.ty) && f.params@.len() == args@.len()
        },
        TypedExprKind::Assign { target, value, .. } => {
            &&& wt(*target)
            &&& wt(*value)
            &&& ty(e.ty) == ty(target.ty)
            &&& spec_assignable_expr(target.ty, *value)
        },
        TypedExprKind::CompoundAssign { target, op, operand_ty, value, .. } => {
            &&& wt(*target)
            &&& wt(*value)
            &&& ty(e.ty) == ty(target.ty)
            &&& match spec_binary_types(op, target.ty, value.ty) {
                Some(bt) => bt.operand == ty(operand_ty),
                None => false,
            }
        },
        TypedExprKind::PrefixInc { expr, .. } | TypedExprKind::PrefixDec { expr, .. }
        | TypedExprKind::PostfixInc { expr, .. } | TypedExprKind::PostfixDec { expr, .. } => {
            &&& wt(*expr)
            &&& ty(e.ty) == ty(expr.ty)
            &&& (spec_is_integer(expr.ty) || expr.ty is Pointer)
        },
        TypedExprKind::Index { base, index, .. } => {
            &&& wt(*base)
            &&& wt(*index)
            &&& spec_is_integer(index.ty)
            &&& match base.ty {
                Type::Array { element, .. } => ty(*element) == ty(e.ty),
                Type::Pointer(element) => ty(*element) == ty(e.ty),
                _ => false,
            }
        },
        TypedExprKind::Cast { target_ty, expr, .. } => {
            &&& wt(*expr)
            &&& spec_is_integer(expr.ty)
            &&& spec_is_integer(target_ty)
            &&& ty(target_ty) == ty(e.ty)
        },
        TypedExprKind::FunctionDesignator { .. } => e.ty is Function,
        TypedExprKind::FunctionToPointer { expr, .. } => wt(*expr),
        TypedExprKind::ArrayToPointer { expr, .. } => wt(*expr),
        TypedExprKind::LvalueToRvalue { expr, .. } => wt(*expr),
    }
}

/// Every expression of a sequence is well typed.
pub open spec fn wt_all(es: Seq<TypedExpr>) -> bool
    decreases es,
{
    if es.len() == 0 {
        true
    } else {
        proof {
            assert(decreases_to!(es => es[es.len() - 1]));
            assert(decreases_to!(es => es.drop_last()));
        }
        wt_all(es.drop_last()) && wt(es[es.len() - 1])
    }
}

pub proof fn lemma_wt_all_push(es: Seq<TypedExpr>, e: TypedExpr)
    requires
        wt_all(es),
        wt(e),
    ensures
        wt_all(es.push(e)),
{
    assert(es.push(e).drop_last() =~= es);
}

pub proof fn lemma_wt_all_index(es: Seq<TypedExpr>, i: int)
    requires
        wt_all(es),
        0 <= i < es.len(),
    ensures
        wt(es[i]),
    decreases es.len(),
{
    if i < es.len() - 1 {
        lemma_wt_all_index(es.drop_last(), i);
    }
}

/// A checked expression keeps the form of the source expression: node for node
/// the same operators, literal values, names and spans; a literal gets the type
/// its suffix, base and value give; a call's callee becomes the designator of
/// the function it names; a cast keeps its target type.
pub open spec fn spec_same_form(e: Expr, te: TypedExpr) -> bool
    decreases e,
{
    match e {
        Expr::IntLiteral { value, suffix, base, span } => te.kind == (TypedExprKind::IntLiteral { value, span })
            && spec_literal_type(value, suffix, base) == Some(te.ty),
        Expr::Variable { name, span } => te.kind matches TypedExprKind::Variable { name: n, span: s, .. } && n@ == name@
            && s == span,
        Expr::Binary { op, op_span, left, right } => te.kind matches TypedExprKind::Binary {
            op: o,
            op_span: os,
            left: l,
            right: r,
            ..
        } && o == op && os == op_span && spec_same_form(*left, *l) && spec_same_form(*right, *r),
        Expr::Unary { op, op_span, expr } => te.kind matches TypedExprKind::Unary { op: o, op_span: os, expr: x } && o
            == op && os == op_span && spec_same_form(*expr, *x),
        Expr::Call { callee, args, .. } => match (*callee, te.kind) {
            (Expr::Variable { name, span: cs }, TypedExprKind::Call { callee: c, args: a, span: s }) => {
                &&& s == cs
                &&& spec_same_forms(args@, a@)
                &&& c.kind matches TypedExprKind::FunctionDesignator { name: n, name_span: ns } && n@ == name@ && ns == cs
            },
            _ => false,
        },
        Expr::Assign { target, op_span, value } => te.kind matches TypedExprKind::Assign { target: t, op_span: os, value: v }
            && os == op_span && spec_same_form(*target, *t) && spec_same_form(*value, *v),
        Expr::CompoundAssign { target, op, op_span, value } => te.kind matches TypedExprKind::CompoundAssign {
            target: t,
            op: o,
            op_span: os,
            value: v,
            ..
        } && o == op && os == op_span && spec_same_form(*target, *t) && spec_same_form(*value, *v),
        Expr::PrefixInc { expr, op_span } => te.kind matches TypedExprKind::PrefixInc { expr: x, op_span: os } && os
            == op_span && spec_same_form(*expr, *x),
        Expr::PrefixDec { expr, op_span } => te.kind matches TypedExprKind::PrefixDec { expr: x, op_span: os } && os
            == op_span && spec_same_form(*expr, *x),
        Expr::PostfixInc { expr, op_span } => te.kind matches TypedExprKind::PostfixInc { expr: x, op_span: os } && os
            == op_span && spec_same_form(*expr, *x),
        Expr::PostfixDec { expr, op_span } => te.kind matches TypedExprKind::PostfixDec { expr: x, op_span: os } && os
            == op_span && spec_same_form(*expr, *x),
        Expr::Index { base, index, span } => te.kind matches TypedExprKind::Index { base: b, index: i, span: s } && s
            == span && spec_same_form(*base, *b) && spec_same_form(*index, *i),
        Expr::Cast { ty: t, expr, span } => te.kind matches TypedExprKind::Cast { target_ty, expr: x, span: s } && ty(
            target_ty,
        ) == ty(t) && s == span && spec_same_form(*expr, *x),
        Expr::SizeOfType { .. } => false,
        Expr::SizeOfExpr { .. } => false,
        Expr::StringLiteral { .. } => false,
    }
}

/// Two sequences of expressions correspond one by one in form.
pub open spec fn spec_same_forms(es: Seq<Expr>, tes: Seq<TypedExpr>) -> bool
    decreases es,
{
    if es.len() == 0 {
        tes.len() == 0
    } else {
        proof {
            assert(decreases_to!(es => es[es.len() - 1]));
            assert(decreases_to!(es => es.drop_last()));
        }
        tes.len() == es.len() && spec_same_forms(es.drop_last(), tes.drop_last()) && spec_same_form(
            es[es.len() - 1],
            tes[tes.len() - 1],
        )
    }
}

pub proof fn lemma_same_forms_push(es: Seq<Expr>, tes: Seq<TypedExpr>, e: Expr, te: TypedExpr)
    requires
        spec_same_forms(es, tes),
        spec_same_form(e, te),
    ensures
        spec_same_forms(es.push(e), tes.push(te)),
{
    assert(es.push(e).drop_last() =~= es);
    assert(tes.push(te).drop_last() =~= tes);
}

/// A checked initializer keeps the form of the source one.
pub open spec fn spec_same_init(i: Initializer, ti: TypedInitializer) -> bool {
    match i {
        Initializer::Expr(e) => ti matches TypedInitializer::Expr(te) && spec_same_form(e, te),
        Initializer::List(es) => ti matches TypedInitializer::List(tes) && spec_same_forms(es@, tes@),
    }
}

/// A checked local declaration keeps the name, span, type and initializer of the source one.
pub open spec fn spec_same_decl(d: LocalDecl, td: TypedLocalDecl) -> bool {
    &&& td.name@ == d.name@
    &&& td.name_span == d.name_span
    &&& ty(td.ty) == ty(d.ty)
    &&& match d.init {
        Some(i) => td.init matches Some(ti) && spec_same_init(i, ti),
        None => td.init is None,
    }
}

/// A checked statement keeps the form of the source statement, node for node.
pub open spec fn spec_same_stmt(s: Statement, ts: TypedStatement) -> bool
    decreases s,
{
    match s {
        Statement::Decl(ds) => ts matches TypedStatement::Decl(tds) && tds@.len() == ds@.len() && forall|k: int|
            0 <= k < ds@.len() ==> spec_same_decl(#[trigger] ds@[k], tds@[k]),
        Statement::Return(e) => ts matches TypedStatement::Return(te) && spec_same_form(e, te),
        Statement::Block(body) => ts matches TypedStatement::Block(tb) && spec_same_stmts(body@, tb@),
        Statement::If { cond, then_branch, else_branch } => match ts {
            TypedStatement::If { cond: c, then_branch: t, else_branch: e } => {
                &&& spec_same_form(cond, c)
                &&& spec_same_stmt(*then_branch, *t)
                &&& match else_branch {
                    Some(x) => e matches Some(y) && spec_same_stmt(*x, *y),
                    None => e is None,
                }
            },
            _ => false,
        },
        Statement::While { cond, body } => ts matches TypedStatement::While { cond: c, body: b } && spec_same_form(cond, c)
            && spec_same_stmt(*body, *b),
        Statement::DoWhile { body, cond } => ts matches TypedStatement::DoWhile { body: b, cond: c } && spec_same_form(
            cond,
            c,
        ) && spec_same_stmt(*body, *b),
        Statement::ExprStatement(e) => ts matches TypedStatement::ExprStatement(te) && spec_same_form(e, te),
        Statement::Empty => ts is Empty,
        Statement::Break { span } => ts == (TypedStatement::Break { span }),
        Statement::Continue { span } => ts == (TypedStatement::Continue { span }),
        Statement::For { init, cond, post, body } => match ts {
            TypedStatement::For { init: i, cond: c, post: p, body: b } => {
                &&& match init {
                    Some(x) => i matches Some(y) && spec_same_stmt(*x, *y),
                    None => i is None,
                }
                &&& match cond {
                    Some(x) => c matches Some(y) && spec_same_form(x, y),
                    None => c is None,
                }
                &&& match post {
                    Some(x) => p matches Some(y) && spec_same_form(x, y),
                    None => p is None,
                }
                &&& spec_same_stmt(*body, *b)
            },
            _ => false,
        },
    }
}

/// Two sequences of statements correspond one by one in form.
pub open spec fn spec_same_stmts(ss: Seq<Statement>, tss: Seq<TypedStatement>) -> bool
    decreases ss,
{
    if ss.len() == 0 {
        tss.len() == 0
    } else {
        proof {
            assert(decreases_to!(ss => ss[ss.len() - 1]));
            assert(decreases_to!(ss => ss.drop_last()));
        }
        tss.len() == ss.len() && spec_same_stmts(ss.drop_last(), tss.drop_last()) && spec_same_stmt(
            ss[ss.len() - 1],
            tss[tss.len() - 1],
        )
    }
}

pub proof fn lemma_same_stmts_push(ss: Seq<Statement>, tss: Seq<TypedStatement>, s: Statement, ts: TypedStatement)
    requires
        spec_same_stmts(ss, tss),
        spec_same_stmt(s, ts),
    ensures
        spec_same_stmts(ss.push(s), tss.push(ts)),
{
    assert(ss.push(s).drop_last() =~= ss);
    assert(tss.push(ts).drop_last() =~= tss);
}

/// The C spelling of a type: `int`, `unsigned long`, `char *`, `int[3]`,
/// `int(int, char)`; a pointer to a pointer adds a bare `*`.
pub open spec fn spec_type_name(t: Type) -> Seq<char>
    decreases t,
{
    match t {
        Type::Int => "int"@,
        Type::UnsignedInt => "unsigned int"@,
        Type::Char => "char"@,
        Type::SignedChar => "signed char"@,
        Type::UnsignedChar => "unsigned char"@,
        Type::Long => "long"@,
        Type::UnsignedLong => "unsigned long"@,
        Type::Pointer(inner) => if *inner is Pointer {
            spec_type_name(*inner) + "*"@
        } else {
            spec_type_name(*inner) + " *"@
        },
        Type::Array { element, len } => spec_type_name(*element) + "["@ + spec_decimal(len as nat) + "]"@,
        Type::Function(f) => {
            proof {
                assert(decreases_to!(t => f.params@));
            }
            spec_type_name(*f.return_type) + "("@ + spec_type_names(f.params@) + ")"@
        },
    }
}

/// The C spellings of a list of types, separated by `", "`.
pub open spec fn spec_type_names(ts: Seq<Type>) -> Seq<char>
    decreases ts,
{
    if ts.len() == 0 {
        Seq::empty()
    } else {
        proof {
            assert(decreases_to!(ts => ts[ts.len() - 1]));
            assert(decreases_to!(ts => ts.drop_last()));
        }
        if ts.len() == 1 {
            spec_type_name(ts[0])
        } else {
            spec_type_names(ts.drop_last()) + ", "@ + spec_type_name(ts[ts.len() - 1])
        }
    }
}

/// Appends the C spelling of a type.
pub fn push_type_name(s: &mut String, t: &Type)
    ensures
        final(s)@ == old(s)@ + spec_type_name(*t),
    decreases t, 2nat,
{
    match t {
        Type::Int => push_str(s, "int"),
        Type::UnsignedInt => push_str(s, "unsigned int"),
        Type::Char => push_str(s, "char"),
        Type::SignedChar => push_str(s, "signed char"),
        Type::UnsignedChar => push_str(s, "unsigned char"),
        Type::Long => push_str(s, "long"),
        Type::UnsignedLong => push_str(s, "unsigned long"),
        Type::Pointer(inner) => {
            push_type_name(s, inner);
            match **inner {
                Type::Pointer(_) => push_str(s, "*"),
                _ => push_str(s, " *"),
            }
        },
        Type::Array { element, len } => {
            push_type_name(s, element);
            push_str(s, "[");
            push_u64(s, *len as u64);
            push_str(s, "]");
        },
        Type::Function(f) => {
            push_type_name(s, &f.return_type);
            push_str(s, "(");
            proof {
                assert(decreases_to!(*t => f.params@));
            }
            push_type_names(s, &f.params);
            push_str(s, ")");
        },
    }
    proof {
        assert(final(s)@ =~= old(s)@ + spec_type_name(*t));
    }
}

/// Appends the C spellings of a list of types, separated by `", "`.
pub fn push_type_names(s: &mut String, ts: &Vec<Type>)
    ensures
        final(s)@ == old(s)@ + spec_type_names(ts@),
    decreases ts@, 1nat,
{
    let mut i: usize = 0;
    proof {
        assert(ts@.take(0) =~= Seq::<Type>::empty());
        assert(s@ =~= old(s)@ + spec_type_names(ts@.take(0)));
    }
    while i < ts.len()
        invariant
            i <= ts@.len(),
            s@ == old(s)@ + spec_type_names(ts@.take(i as int)),
        decreases ts.len() - i,
    {
        proof {
            assert(ts@.take(i as int + 1).drop_last() =~= ts@.take(i as int));
            assert(ts@.take(i as int + 1)[i as int] == ts@[i as int]);
            assert(decreases_to!(ts@ => ts@[i as int]));
        }
        if i > 0 {
            push_str(s, ", ");
        }
        push_type_name(s, &ts[i]);
        proof {
            if i == 0 {
                assert(ts@.take(1)[0] == ts@[0]);
            }
            assert(s@ =~= old(s)@ + spec_type_names(ts@.take(i as int + 1)));
        }
        i = i + 1;
    }
    proof {
        assert(ts@.take(i as int) =~= ts@);
    }
}

/// The C spelling of a binary operator.
pub open spec fn spec_binary_op_name(op: BinaryOp) -> Seq<char> {
    match op {
        BinaryOp::Add => "+"@,
        BinaryOp::Subtract => "-"@,
        BinaryOp::Multiply => "*"@,
        BinaryOp::Divide => "/"@,
        BinaryOp::Remainder => "%"@,
        BinaryOp::Equal => "=="@,
        BinaryOp::NotEqual => "!="@,
        BinaryOp::Less => "<"@,
        BinaryOp::LessEqual => "<="@,
        BinaryOp::Greater => ">"@,
        BinaryOp::GreaterEqual => ">="@,
        BinaryOp::BitAnd => "&"@,
        BinaryOp::BitXor => "^"@,
        BinaryOp::BitOr => "|"@,
        BinaryOp::ShiftLeft => "<<"@,
        BinaryOp::ShiftRight => ">>"@,
        BinaryOp::LogicalAnd => "&&"@,
        BinaryOp::LogicalOr => "||"@,
    }
}

/// The C spelling of a binary operator.
pub fn binary_op_name(op: BinaryOp) -> (s: &'static str)
    ensures
        s@ == spec_binary_op_name(op),
{
    match op {
        BinaryOp::Add => "+",
        BinaryOp::Subtract => "-",
        BinaryOp::Multiply => "*",
        BinaryOp::Divide => "/",
        BinaryOp::Remainder => "%",
        BinaryOp::Equal => "==",
        BinaryOp::NotEqual => "!=",
        BinaryOp::Less => "<",
        BinaryOp::LessEqual => "<=",
        BinaryOp::Greater => ">",
        BinaryOp::GreaterEqual => ">=",
        BinaryOp::BitAnd => "&",
        BinaryOp::BitXor => "^",
        BinaryOp::BitOr => "|",
        BinaryOp::ShiftLeft => "<<",
        BinaryOp::ShiftRight => ">>",
        BinaryOp::LogicalAnd => "&&",
        BinaryOp::LogicalOr => "||",
    }
}

/// The C spelling of a unary operator.
pub open spec fn spec_unary_op_name(op: UnaryOp) -> Seq<char> {
    match op {
        UnaryOp::Negate => "-"@,
        UnaryOp::LogicalNot => "!"@,
        UnaryOp::BitwiseNot => "~"@,
        UnaryOp::Dereference => "*"@,
        UnaryOp::AddressOf => "&"@,
    }
}

/// The C spelling of a unary operator.
pub fn unary_op_name(op: UnaryOp) -> (s: &'static str)
    ensures
        s@ == spec_unary_op_name(op),
{
    match op {
        UnaryOp::Negate => "-",
        UnaryOp::LogicalNot => "!",
        UnaryOp::BitwiseNot => "~",
        UnaryOp::Dereference => "*",
        UnaryOp::AddressOf => "&",
    }
}

fn error_with(prefix: &str, name: &str, suffix: &str, span: Span) -> (e: SemanticError)
    ensures
        e.span == span,
        e.message@ == prefix@ + name@ + suffix@,
{
    let mut msg = String::from_str(prefix);
    push_str(&mut msg, name);
    push_str(&mut msg, suffix);
    SemanticError { message: msg, span }
}

/// The message for operands that no binary typing rule accepts.
pub open spec fn spec_invalid_operands_message(op: BinaryOp, left: Type, right: Type) -> Seq<char> {
    "invalid operands to binary operator '"@ + spec_binary_op_name(op) + "'\nleft operand has type '"@
        + spec_type_name(left) + "'\nright operand has type '"@ + spec_type_name(right) + "'"@
}

/// The message for an operator that pointer arithmetic does not allow.
pub open spec fn spec_cannot_perform_message(op: BinaryOp, left: Type, right: Type) -> Seq<char> {
    "cannot perform binary operation '"@ + spec_binary_op_name(op) + "' on types '"@ + spec_type_name(left)
        + "' and '"@ + spec_type_name(right) + "'"@
}

fn invalid_operands_error(op: BinaryOp, left: &Type, right: &Type, span: Span) -> (e: SemanticError)
    ensures
        e.span == span,
        e.message@ == spec_invalid_operands_message(op, *left, *right),
{
    let mut msg = String::from_str("invalid operands to binary operator '");
    push_str(&mut msg, binary_op_name(op));
    push_str(&mut msg, "'\nleft operand has type '");
    push_type_name(&mut msg, left);
    push_str(&mut msg, "'\nright operand has type '");
    push_type_name(&mut msg, right);
    push_str(&mut msg, "'");
    proof {
        assert(msg@ =~= spec_invalid_operands_message(op, *left, *right));
    }
    SemanticError { message: msg, span }
}

fn cannot_perform_error(op: BinaryOp, left: &Type, right: &Type, span: Span) -> (e: SemanticError)
    ensures
        e.span == span,
        e.message@ == spec_cannot_perform_message(op, *left, *right),
{
    let mut msg = String::from_str("cannot perform binary operation '");
    push_str(&mut msg, binary_op_name(op));
    push_str(&mut msg, "' on types '");
    push_type_name(&mut msg, left);
    push_str(&mut msg, "' and '");
    push_type_name(&mut msg, right);
    push_str(&mut msg, "'");
    proof {
        assert(msg@ =~= spec_cannot_perform_message(op, *left, *right));
    }
    SemanticError { message: msg, span }
}

/// Applies the binary typing rule: the operand type and the result type, or an error at the operator.
pub fn check_binary_op_types(op: BinaryOp, op_span: Span, left: &Type, right: &Type) -> (r: Result<
    (Type, Type),
    SemanticError,
>)
    ensures
        r matches Ok((operand, result)) ==> spec_binary_types(op, *left, *right) == Some(
            BinaryTypes { operand: ty(operand), result: ty(result) },
        ),
        r is Err ==> spec_binary_types(op, *left, *right) is None,
        r matches Err(e) ==> e.span == op_span,
        r matches Err(e) ==> e.message@ == if (*left is Pointer && spec_is_integer(*right)) || (*right is Pointer
            && spec_is_integer(*left)) {
            spec_cannot_perform_message(op, *left, *right)
        } else {
            spec_invalid_operands_message(op, *left, *right)
        },
{
    match left {
        Type::Pointer(_) => {
            if right.is_integer() {
                if op == BinaryOp::Add || op == BinaryOp::Subtract {
                    return Ok((clone_type(left), clone_type(left)));
                }
                return Err(cannot_perform_error(op, left, right, op_span));
            }
        },
        _ => {},
    }
    match right {
        Type::Pointer(_) => {
            if left.is_integer() {
                if op == BinaryOp::Add {
                    return Ok((clone_type(right), clone_type(right)));
                }
                return Err(cannot_perform_error(op, left, right, op_span));
            }
        },
        _ => {},
    }
    if left.is_pointer() && right.is_pointer() {
        if type_eq(left, right) && (op == BinaryOp::Equal || op == BinaryOp::NotEqual) {
            return Ok((clone_type(left), Type::Int));
        }
        return Err(invalid_operands_error(op, left, right, op_span));
    }
    if !left.is_integer() || !right.is_integer() {
        return Err(invalid_operands_error(op, left, right, op_span));
    }
    if op == BinaryOp::ShiftLeft || op == BinaryOp::ShiftRight {
        let p = match left.promoted() {
            Some(p) => p,
            None => Type::Int,
        };
        let q = clone_type(&p);
        return Ok((p, q));
    }
    let usual = Type::usual_arithmetic_type(left, right);
    let is_int_result = op == BinaryOp::Equal || op == BinaryOp::NotEqual || op == BinaryOp::Less || op
        == BinaryOp::LessEqual || op == BinaryOp::Greater || op == BinaryOp::GreaterEqual || op
        == BinaryOp::LogicalAnd || op == BinaryOp::LogicalOr;
    if is_int_result {
        Ok((usual, Type::Int))
    } else {
        let u2 = clone_type(&usual);
        Ok((usual, u2))
    }
}

/// Whether `value` may be assigned to an object of type `target`.
pub fn is_assignable_expr(target: &Type, value: &TypedExpr) -> (b: bool)
    ensures
        b == spec_assignable_expr(*target, *value),
{
    target.is_assignable_from(&value.ty) || (target.is_pointer() && value.is_null_pointer_constant())
}

#[derive(Debug)]
struct LocalSymbol {
    id: LocalId,
    ty: Type,
}

fn clone_symbol(s: &LocalSymbol) -> (r: LocalSymbol)
    ensures
        r.id == s.id,
        ty(r.ty) == ty(s.ty),
{
    LocalSymbol { id: s.id, ty: clone_type(&s.ty) }
}

/// The latest symbol named `name` in one scope.
spec fn spec_scope_lookup(scope: Seq<(String, LocalSymbol)>, name: Seq<char>) -> Option<LocalSymbol>
    decreases scope.len(),
{
    if scope.len() == 0 {
        None
    } else if scope.last().0@ == name {
        Some(scope.last().1)
    } else {
        spec_scope_lookup(scope.drop_last(), name)
    }
}

/// Innermost-first lookup of a name in a stack of scopes.
spec fn spec_lookup(scopes: Seq<Vec<(String, LocalSymbol)>>, name: Seq<char>) -> Option<LocalSymbol>
    decreases scopes.len(),
{
    if scopes.len() == 0 {
        None
    } else {
        match spec_scope_lookup(scopes.last()@, name) {
            Some(sym) => Some(sym),
            None => spec_lookup(scopes.drop_last(), name),
        }
    }
}

/// Every variable of a checked expression is the local that its name finds in
/// the scopes, with that local's type (for an array read as a value, a pointer
/// to its element).
spec fn spec_bound(scopes: Seq<Vec<(String, LocalSymbol)>>, te: TypedExpr) -> bool
    decreases te,
{
    match te.kind {
        TypedExprKind::Variable { id, name, .. } => match spec_lookup(scopes, name@) {
            Some(sym) => id == ObjectId::Local(sym.id) && (ty(te.ty) == ty(sym.ty) || (sym.ty matches Type::Array {
                element,
                ..
            } && ty(te.ty) == TypeModel::Pointer(Box::new(ty(*element))))),
            None => false,
        },
        TypedExprKind::IntLiteral { .. } => true,
        TypedExprKind::FunctionDesignator { .. } => true,
        TypedExprKind::Binary { left, right, .. } => spec_bound(scopes, *left) && spec_bound(scopes, *right),
        TypedExprKind::Assign { target, value, .. } => spec_bound(scopes, *target) && spec_bound(scopes, *value),
        TypedExprKind::CompoundAssign { target, value, .. } => spec_bound(scopes, *target) && spec_bound(scopes, *value),
        TypedExprKind::Index { base, index, .. } => spec_bound(scopes, *base) && spec_bound(scopes, *index),
        TypedExprKind::Unary { expr, .. } => spec_bound(scopes, *expr),
        TypedExprKind::PrefixInc { expr, .. } => spec_bound(scopes, *expr),
        TypedExprKind::PrefixDec { expr, .. } => spec_bound(scopes, *expr),
        TypedExprKind::PostfixInc { expr, .. } => spec_bound(scopes, *expr),
        TypedExprKind::PostfixDec { expr, .. } => spec_bound(scopes, *expr),
        TypedExprKind::Cast { expr, .. } => spec_bound(scopes, *expr),
        TypedExprKind::FunctionToPointer { expr, .. } => spec_bound(scopes, *expr),
        TypedExprKind::ArrayToPointer { expr, .. } => spec_bound(scopes, *expr),
        TypedExprKind::LvalueToRvalue { expr, .. } => spec_bound(scopes, *expr),
        TypedExprKind::Call { callee, args, .. } => spec_bound(scopes, *callee) && spec_bound_all(scopes, args@),
    }
}

proof fn lemma_bound_all_push(scopes: Seq<Vec<(String, LocalSymbol)>>, tes: Seq<TypedExpr>, te: TypedExpr)
    requires
        spec_bound_all(scopes, tes),
        spec_bound(scopes, te),
    ensures
        spec_bound_all(scopes, tes.push(te)),
{
    assert(tes.push(te).drop_last() =~= tes);
}

/// Every expression of a sequence is bound in the scopes.
spec fn spec_bound_all(scopes: Seq<Vec<(String, LocalSymbol)>>, tes: Seq<TypedExpr>) -> bool
    decreases tes,
{
    if tes.len() == 0 {
        true
    } else {
        proof {
            assert(decreases_to!(tes => tes[tes.len() - 1]));
            assert(decreases_to!(tes => tes.drop_last()));
        }
        spec_bound_all(scopes, tes.drop_last()) && spec_bound(scopes, tes[tes.len() - 1])
    }
}

struct Checker {
    scopes: Vec<Vec<(String, LocalSymbol)>>,
    functions: Vec<FunctionInfo>,
    loop_depth: usize,
    current_function_return_type: Option<Type>,
    next_local_id: usize,
}

impl Checker {
    spec fn inv(&self) -> bool {
        self.scopes@.len() > 0
    }

    /// The names of the innermost scope, in declaration order.
    spec fn innermost_names(&self) -> Seq<Seq<char>> {
        self.scopes@.last()@.map_values(|e: (String, LocalSymbol)| e.0@)
    }

    fn new() -> (c: Self)
        ensures
            c.inv(),
            c.loop_depth == 0,
            c.functions@.len() == 0,
            c.current_function_return_type is None,
    {
        let mut scopes: Vec<Vec<(String, LocalSymbol)>> = Vec::new();
        scopes.push(Vec::new());
        Checker { scopes, functions: Vec::new(), loop_depth: 0, current_function_return_type: None, next_local_id: 0 }
    }

    fn new_local_id(&mut self) -> (id: LocalId)
        ensures
            id.0 == old(self).next_local_id,
            final(self).scopes == old(self).scopes,
            final(self).functions == old(self).functions,
            final(self).loop_depth == old(self).loop_depth,
            final(self).current_function_return_type == old(self).current_function_return_type,
    {
        let id = LocalId(self.next_local_id);
        if self.next_local_id < usize::MAX {
            self.next_local_id = self.next_local_id + 1;
        }
        id
    }

    fn enter_scope(&mut self)
        ensures
            final(self).scopes@.len() == old(self).scopes@.len() + 1,
            final(self).scopes@.drop_last() == old(self).scopes@,
            final(self).scopes@.last()@.len() == 0,
            final(self).functions == old(self).functions,
            final(self).loop_depth == old(self).loop_depth,
            final(self).current_function_return_type == old(self).current_function_return_type,
    {
        self.scopes.push(Vec::new());
        proof {
            assert(self.scopes@.drop_last() =~= old(self).scopes@);
        }
    }

    fn exit_scope(&mut self)
        requires
            old(self).scopes@.len() > 1,
        ensures
            final(self).scopes@ == old(self).scopes@.drop_last(),
            final(self).functions == old(self).functions,
            final(self).loop_depth == old(self).loop_depth,
            final(self).current_function_return_type == old(self).current_function_return_type,
    {
        self.scopes.pop();
    }

    /// Declares a local in the innermost scope; a name already declared there is an error.
    fn declare_local(&mut self, t: &Type, name: &String, span: Span) -> (r: Result<LocalSymbol, SemanticError>)
        requires
            old(self).inv(),
        ensures
            final(self).inv(),
            final(self).scopes@.len() == old(self).scopes@.len(),
            final(self).scopes@.drop_last() == old(self).scopes@.drop_last(),
            final(self).functions == old(self).functions,
            final(self).loop_depth == old(self).loop_depth,
            final(self).current_function_return_type == old(self).current_function_return_type,
            r is Err <==> old(self).innermost_names().contains(name@),
            r matches Err(e) ==> e.span == span && e.message@ == "duplicate local variable '"@ + name@ + "'"@,
            r matches Ok(sym) ==> ty(sym.ty) == ty(*t) && final(self).innermost_names() == old(self).innermost_names().push(name@),
    {
        let last = self.scopes.len() - 1;
        let mut i: usize = 0;
        while i < self.scopes[last].len()
            invariant
                last == self.scopes@.len() - 1,
                self == old(self),
                i <= self.scopes@[last as int]@.len(),
                forall|k: int| 0 <= k < i ==> self.scopes@[last as int]@[k].0@ != name@,
            decreases self.scopes@[last as int]@.len() - i,
        {
            if self.scopes[last][i].0 == *name {
                proof {
                    assert(self.innermost_names()[i as int] == name@);
                }
                return Err(error_with("duplicate local variable '", name.as_str(), "'", span));
            }
            i = i + 1;
        }
        proof {
            assert forall|k: int| 0 <= k < self.innermost_names().len() implies self.innermost_names()[k] != name@ by {
                assert(self.innermost_names()[k] == self.scopes@[last as int]@[k].0@);
            }
        }
        let id = self.new_local_id();
        let symbol = LocalSymbol { id, ty: clone_type(t) };
        let copy = clone_symbol(&symbol);
        let mut scope = self.scopes.pop().unwrap();
        scope.push((name.clone(), copy));
        self.scopes.push(scope);
        proof {
            assert(self.innermost_names() =~= old(self).innermost_names().push(name@));
            assert(self.scopes@.drop_last() =~= old(self).scopes@.drop_last());
        }
        Ok(symbol)
    }

    /// The innermost local named `name`.
    fn resolve_local(&self, name: &String, span: Span) -> (r: Result<LocalSymbol, SemanticError>)
        ensures
            r matches Err(e) ==> e.span == span,
            match spec_lookup(self.scopes@, name@) {
                Some(sym) => r matches Ok(found) && found.id == sym.id && ty(found.ty) == ty(sym.ty),
                None => r is Err,
            },
    {
        let mut s: usize = self.scopes.len();
        proof {
            assert(self.scopes@.take(s as int) =~= self.scopes@);
        }
        while s > 0
            invariant
                s <= self.scopes@.len(),
                spec_lookup(self.scopes@.take(s as int), name@) == spec_lookup(self.scopes@, name@),
            decreases s,
        {
            let scope = &self.scopes[s - 1];
            let ghost top = self.scopes@.take(s as int);
            proof {
                assert(top.last() == *scope);
                assert(top.drop_last() =~= self.scopes@.take(s - 1));
                assert(scope@.take(scope@.len() as int) =~= scope@);
            }
            let mut i: usize = scope.len();
            while i > 0
                invariant
                    i <= scope@.len(),
                    spec_scope_lookup(scope@.take(i as int), name@) == spec_scope_lookup(scope@, name@),
                    0 < s <= self.scopes@.len(),
                    spec_lookup(self.scopes@.take(s as int), name@) == spec_lookup(self.scopes@, name@),
                    self.scopes@.take(s as int).last() == *scope,
                    self.scopes@.take(s as int).drop_last() == self.scopes@.take(s - 1),
                decreases i,
            {
                proof {
                    assert(scope@.take(i as int).last() == scope@[i - 1]);
                    assert(scope@.take(i as int).drop_last() =~= scope@.take(i - 1));
                }
                if scope[i - 1].0 == *name {
                    return Ok(clone_symbol(&scope[i - 1].1));
                }
                i = i - 1;
            }
            proof {
                assert(scope@.take(0) =~= Seq::<(String, LocalSymbol)>::empty());
            }
            s = s - 1;
        }
        proof {
            assert(self.scopes@.take(0) =~= Seq::<Vec<(String, LocalSymbol)>>::empty());
        }
        Err(error_with("undeclared local variable '", name.as_str(), "'", span))
    }

    fn find_function(&self, name: &String) -> (r: Option<usize>)
        ensures
            r matches Some(i) ==> i < self.functions@.len() && self.functions@[i as int].name@ == name@,
            r is None ==> forall|i: int| 0 <= i < self.functions@.len() ==> self.functions@[i].name@ != name@,
    {
        let mut i: usize = 0;
        while i < self.functions.len()
            invariant
                i <= self.functions@.len(),
                forall|k: int| 0 <= k < i ==> self.functions@[k].name@ != name@,
            decreases self.functions.len() - i,
        {
            if self.functions[i].name == *name {
                return Some(i);
            }
            i = i + 1;
        }
        None
    }

    /// Records a function definition; a name defined twice, or more than eight parameters, is an error.
    fn declare_function(&mut self, function: &FunctionDef) -> (r: Result<(), SemanticError>)
        ensures
            r is Ok ==> final(self).functions@.len() == old(self).functions@.len() + 1
                && final(self).functions@.last().name@ == function.name@,
            r is Ok <==> (forall|i: int| 0 <= i < old(self).functions@.len() ==> old(self).functions@[i].name@
                != function.name@) && function.params@.len() <= 8,
            r is Err ==> final(self).functions@ == old(self).functions@,
            r is Ok ==> final(self).functions@.drop_last() == old(self).functions@,
            r is Ok ==> final(self).functions@.last().params@.len() == function.params@.len(),
            final(self).scopes == old(self).scopes,
            final(self).loop_depth == old(self).loop_depth,
            final(self).current_function_return_type == old(self).current_function_return_type,
            (exists|i: int| 0 <= i < old(self).functions@.len() && old(self).functions@[i].name@ == function.name@) ==> (r matches Err(
                e,
            ) && e.span == function.name_span && e.message@ == "duplicate function definition '"@ + function.name@ + "'"@),
            (forall|i: int| 0 <= i < old(self).functions@.len() ==> old(self).functions@[i].name@ != function.name@)
                && function.params@.len() > 8 ==> (r matches Err(e) && e.span == function.name_span && e.message@
                == "too many parameters in function "@ + function.name@ + ", got "@ + spec_decimal(function.params@.len())
                + ", max 8"@),
    {
        if self.find_function(&function.name).is_some() {
            return Err(error_with("duplicate function definition '", function.name.as_str(), "'", function.name_span));
        }
        if function.params.len() > 8 {
            let mut msg = String::from_str("too many parameters in function ");
            push_str(&mut msg, function.name.as_str());
            push_str(&mut msg, ", got ");
            push_u64(&mut msg, function.params.len() as u64);
            push_str(&mut msg, ", max 8");
            proof {
                assert(msg@ =~= "too many parameters in function "@ + function.name@ + ", got "@ + spec_decimal(
                    function.params@.len(),
                ) + ", max 8"@);
            }
            return Err(SemanticError { message: msg, span: function.name_span });
        }
        let mut params: Vec<Param> = Vec::new();
        let mut i: usize = 0;
        while i < function.params.len()
            invariant
                params@.len() == i,
                i <= function.params@.len(),
            decreases function.params.len() - i,
        {
            let p = &function.params[i];
            params.push(Param { ty: clone_type(&p.ty), name: p.name.clone(), name_span: p.name_span });
            i = i + 1;
        }
        self.functions.push(
            FunctionInfo { return_type: clone_type(&function.return_type), name: function.name.clone(), params },
        );
        proof {
            assert(self.functions@.drop_last() =~= old(self).functions@);
        }
        Ok(())
    }

    /// The function type of a declared function.
    fn function_type(&self, index: usize) -> (t: Type)
        requires
            index < self.functions@.len(),
        ensures
            t matches Type::Function(f) && ty(*f.return_type) == ty(self.functions@[index as int].return_type)
                && f.params@.len() == self.functions@[index as int].params@.len(),
    {
        let info = &self.functions[index];
        let mut params: Vec<Type> = Vec::new();
        let mut i: usize = 0;
        while i < info.params.len()
            invariant
                params@.len() == i,
                i <= info.params@.len(),
            decreases info.params.len() - i,
        {
            params.push(clone_type(&info.params[i].ty));
            i = i + 1;
        }
        Type::Function(Box::new(FunctionType { return_type: Box::new(clone_type(&info.return_type)), params }))
    }

    fn check_lvalue(&self, expr: &Expr, op_span: Span) -> (r: Result<TypedExpr, SemanticError>)
        ensures
            r matches Ok(te) ==> spec_bound(self.scopes@, te),
            r matches Ok(te) ==> wt(te) && spec_same_form(*expr, te),
            *expr matches Expr::Variable { name, .. } ==> (r is Ok <==> (spec_lookup(self.scopes@, name@) matches Some(sym)
                && !(sym.ty is Array))),
            !(*expr is Variable || *expr is Index || *expr matches Expr::Unary { op: UnaryOp::Dereference, .. }) ==> (r matches Err(e)
                && e.span == op_span && e.message@ == "cannot assign to non-lvalue expression"@),
        decreases expr, 2nat,
    {
        match expr {
            Expr::Variable { name, span } => {
                let symbol = self.resolve_local(name, *span)?;
                if matches!(symbol.ty, Type::Array { .. }) {
                    return Err(SemanticError { message: String::from_str("cannot assign to array expression"), span: *span });
                }
                Ok(TypedExpr {
                    kind: TypedExprKind::Variable { id: ObjectId::Local(symbol.id), name: name.clone(), span: *span },
                    ty: symbol.ty,
                })
            },
            Expr::Unary { op: UnaryOp::Dereference, op_span, expr } => {
                let typed_ptr = self.check_expr(expr)?;
                let inner = match &typed_ptr.ty {
                    Type::Pointer(inner) => clone_type(inner),
                    other => {
                        let mut msg = String::from_str("cannot dereference non-pointer type '");
                        push_type_name(&mut msg, other);
                        push_str(&mut msg, "'");
                        return Err(SemanticError { message: msg, span: *op_span });
                    },
                };
                Ok(TypedExpr {
                    kind: TypedExprKind::Unary { op: UnaryOp::Dereference, op_span: *op_span, expr: Box::new(typed_ptr) },
                    ty: inner,
                })
            },
            Expr::Index { .. } => self.check_index_expr(expr),
            _ => Err(SemanticError { message: String::from_str("cannot assign to non-lvalue expression"), span: op_span }),
        }
    }

    fn check_inc_dec(&self, expr: &Expr, op_span: Span, kind: u8) -> (r: Result<TypedExpr, SemanticError>)
        ensures
            r matches Ok(te) ==> spec_bound(self.scopes@, te),
            r matches Ok(te) ==> wt(te),
            r matches Ok(te) ==> match te.kind {
                TypedExprKind::PrefixInc { expr: x, op_span: os } => kind == 0 && os == op_span && spec_same_form(*expr, *x),
                TypedExprKind::PrefixDec { expr: x, op_span: os } => kind == 1 && os == op_span && spec_same_form(*expr, *x),
                TypedExprKind::PostfixInc { expr: x, op_span: os } => kind == 2 && os == op_span && spec_same_form(*expr, *x),
                TypedExprKind::PostfixDec { expr: x, op_span: os } => kind > 2 && os == op_span && spec_same_form(*expr, *x),
                _ => false,
            },
            *expr matches Expr::Variable { name, .. } ==> (r is Ok <==> (spec_lookup(self.scopes@, name@) matches Some(sym)
                && (spec_is_integer(sym.ty) || sym.ty is Pointer))),
        decreases expr, 4nat,
    {
        let typed_lvalue = self.check_lvalue(expr, op_span)?;
        if !(typed_lvalue.ty.is_integer() || typed_lvalue.ty.is_pointer()) {
            let mut msg = String::from_str("cannot increment or decrement value of type '");
            push_type_name(&mut msg, &typed_lvalue.ty);
            push_str(&mut msg, "'");
            return Err(SemanticError { message: msg, span: op_span });
        }
        let t = clone_type(&typed_lvalue.ty);
        let b = Box::new(typed_lvalue);
        let k = if kind == 0 {
            TypedExprKind::PrefixInc { expr: b, op_span }
        } else if kind == 1 {
            TypedExprKind::PrefixDec { expr: b, op_span }
        } else if kind == 2 {
            TypedExprKind::PostfixInc { expr: b, op_span }
        } else {
            TypedExprKind::PostfixDec { expr: b, op_span }
        };
        Ok(TypedExpr { kind: k, ty: t })
    }

    fn check_unary_expr(&self, op: UnaryOp, op_span: Span, expr: &Expr) -> (r: Result<TypedExpr, SemanticError>)
        ensures
            r matches Ok(te) ==> spec_bound(self.scopes@, te),
            r matches Ok(te) ==> wt(te),
            r matches Ok(te) ==> te.kind matches TypedExprKind::Unary { op: o, op_span: os, expr: x } && o == op && os
                == op_span && spec_same_form(*expr, *x),
            op == UnaryOp::AddressOf ==> (*expr matches Expr::Variable { name, .. } ==> (r is Ok <==> spec_lookup(self.scopes@, name@) is Some)),
            op != UnaryOp::AddressOf ==> (*expr matches Expr::IntLiteral { value, suffix, base, .. } ==> (r is Ok <==> (
                spec_literal_type(value, suffix, base) is Some && op != UnaryOp::Dereference))),
        decreases expr, 11nat,
    {
        if op == UnaryOp::AddressOf {
            let target = self.check_addressable(expr, op_span)?;
            let t = Type::Pointer(Box::new(clone_type(&target.ty)));
            return Ok(TypedExpr { kind: TypedExprKind::Unary { op, op_span, expr: Box::new(target) }, ty: t });
        }
        let typed_expr = self.check_expr(expr)?;
        let t = match op {
            UnaryOp::LogicalNot => Type::Int,
            UnaryOp::BitwiseNot | UnaryOp::Negate => {
                if !typed_expr.ty.is_integer() {
                    let mut msg = String::from_str("cannot perform unary operation '");
                    push_str(&mut msg, unary_op_name(op));
                    push_str(&mut msg, "' on non-integer type '");
                    push_type_name(&mut msg, &typed_expr.ty);
                    push_str(&mut msg, "'");
                    return Err(SemanticError { message: msg, span: op_span });
                }
                match typed_expr.ty.promoted() {
                    Some(p) => p,
                    None => Type::Int,
                }
            },
            _ => match &typed_expr.ty {
                Type::Pointer(inner) => clone_type(inner),
                other => {
                    let mut msg = String::from_str("cannot dereference non-pointer type '");
                    push_type_name(&mut msg, other);
                    push_str(&mut msg, "'");
                    return Err(SemanticError { message: msg, span: op_span });
                },
            },
        };
        Ok(TypedExpr { kind: TypedExprKind::Unary { op, op_span, expr: Box::new(typed_expr) }, ty: t })
    }

    /// The operand of `&`: a variable of any object type, or an lvalue.
    fn check_addressable(&self, expr: &Expr, op_span: Span) -> (r: Result<TypedExpr, SemanticError>)
        ensures
            r matches Ok(te) ==> spec_bound(self.scopes@, te),
            r matches Ok(te) ==> wt(te) && spec_same_form(*expr, te),
            *expr matches Expr::Variable { name, .. } ==> (r is Ok <==> spec_lookup(self.scopes@, name@) is Some),
            !(*expr is Variable || *expr is Index || *expr matches Expr::Unary { op: UnaryOp::Dereference, .. }) ==> (r matches Err(e)
                && e.span == op_span && e.message@ == "cannot assign to non-lvalue expression"@),
        decreases expr, 3nat,
    {
        match expr {
            Expr::Variable { name, span } => {
                let symbol = self.resolve_local(name, *span)?;
                Ok(TypedExpr {
                    kind: TypedExprKind::Variable { id: ObjectId::Local(symbol.id), name: name.clone(), span: *span },
                    ty: symbol.ty,
                })
            },
            _ => self.check_lvalue(expr, op_span),
        }
    }

    fn check_call_expr(&self, callee: &Expr, args: &Vec<Expr>, call_span: Span) -> (r: Result<TypedExpr, SemanticError>)
        ensures
            r matches Ok(te) ==> spec_bound(self.scopes@, te),
            r matches Ok(te) ==> wt(te),
            r matches Ok(te) ==> match (*callee, te.kind) {
                (Expr::Variable { name, span: cs }, TypedExprKind::Call { callee: c, args: a, span: s }) => {
                    &&& s == cs
                    &&& spec_same_forms(args@, a@)
                    &&& c.kind matches TypedExprKind::FunctionDesignator { name: n, name_span: ns } && n@ == name@ && ns
                        == cs
                },
                _ => false,
            },
            !(*callee is Variable) ==> (r matches Err(e) && e.span == call_span && e.message@ == "called object is not a function"@),
            *callee matches Expr::Variable { name, .. } ==> (args@.len() == 0 && (exists|i: int| 0 <= i < self.functions@.len()
                && #[trigger] self.functions@[i].name@ == name@) && (forall|i: int| 0 <= i < self.functions@.len()
                && #[trigger] self.functions@[i].name@ == name@ ==> self.functions@[i].params@.len() == 0) ==> r is Ok),
        decreases args, 0nat,
    {
        let (name, name_span) = match callee {
            Expr::Variable { name, span } => (name, *span),
            _ => {
                return Err(SemanticError {
                    message: String::from_str("called object is not a function"),
                    span: call_span,
                });
            },
        };
        let index = match self.find_function(name) {
            Some(i) => i,
            None => {
                return match self.resolve_local(name, name_span) {
                    Ok(symbol) => {
                        let mut msg = String::from_str("type '");
                        push_type_name(&mut msg, &symbol.ty);
                        push_str(&mut msg, "' is not callable");
                        Err(SemanticError { message: msg, span: name_span })
                    },
                    Err(_) => Err(error_with("undeclared function '", name.as_str(), "'", name_span)),
                };
            },
        };
        if args.len() > 8 {
            let mut msg = String::from_str("too many arguments in call to function '");
            push_str(&mut msg, name.as_str());
            push_str(&mut msg, "', got ");
            push_u64(&mut msg, args.len() as u64);
            push_str(&mut msg, ", max 8");
            return Err(SemanticError { message: msg, span: name_span });
        }
        let info = &self.functions[index];
        if info.params.len() != args.len() {
            let mut msg = String::from_str("call to function '");
            push_str(&mut msg, info.name.as_str());
            push_str(&mut msg, "' has ");
            push_u64(&mut msg, args.len() as u64);
            push_str(&mut msg, " arguments, declaration has ");
            push_u64(&mut msg, info.params.len() as u64);
            return Err(SemanticError { message: msg, span: name_span });
        }
        let mut typed_args: Vec<TypedExpr> = Vec::new();
        let mut i: usize = 0;
        while i < args.len()
            invariant
                i <= args@.len(),
                typed_args@.len() == i,
                wt_all(typed_args@),
                spec_bound_all(self.scopes@, typed_args@),
                spec_same_forms(args@.take(i as int), typed_args@),
                index < self.functions@.len(),
                *callee is Variable,
                self.functions@[index as int].params@.len() == args@.len(),
            decreases args.len() - i,
        {
            proof {
                assert(decreases_to!(args => args@));
                assert(decreases_to!(args@ => args@[i as int]));
            }
            let te = self.check_expr(&args[i])?;
            proof {
                lemma_wt_all_push(typed_args@, te);
                lemma_bound_all_push(self.scopes@, typed_args@, te);
                lemma_same_forms_push(args@.take(i as int), typed_args@, args@[i as int], te);
                assert(args@.take(i as int).push(args@[i as int]) =~= args@.take(i + 1));
            }
            typed_args.push(te);
            i = i + 1;
        }
        proof {
            assert(args@.take(i as int) =~= args@);
        }
        let mut k: usize = 0;
        while k < typed_args.len()
            invariant
                index < self.functions@.len(),
                *callee is Variable,
                self.functions@[index as int].params@.len() == typed_args@.len(),
                wt_all(typed_args@),
                spec_bound_all(self.scopes@, typed_args@),
                spec_same_forms(args@, typed_args@),
            decreases typed_args.len() - k,
        {
            let param_ty = &self.functions[index].params[k].ty;
            if !is_assignable_expr(param_ty, &typed_args[k]) {
                let mut msg = String::from_str("cannot pass value of type '");
                push_type_name(&mut msg, &typed_args[k].ty);
                push_str(&mut msg, "' to parameter of type '");
                push_type_name(&mut msg, param_ty);
                push_str(&mut msg, "'");
                return Err(SemanticError { message: msg, span: typed_args[k].diagnostic_span() });
            }
            k = k + 1;
        }
        let fty = self.function_type(index);
        let ret = clone_type(&self.functions[index].return_type);
        let designator = TypedExpr {
            kind: TypedExprKind::FunctionDesignator { name: name.clone(), name_span },
            ty: fty,
        };
        proof {
            assert(wt(designator));
            assert(spec_bound(self.scopes@, designator));
        }
        Ok(TypedExpr {
            kind: TypedExprKind::Call { callee: Box::new(designator), args: typed_args, span: name_span },
            ty: ret,
        })
    }

    /// Indexing: an integer index into an array or a pointer; the element type results.
    fn check_index_expr(&self, expr: &Expr) -> (r: Result<TypedExpr, SemanticError>)
        requires
            expr is Index,
        ensures
            r matches Ok(te) ==> spec_bound(self.scopes@, te),
            r matches Ok(te) ==> wt(te) && spec_same_form(*expr, te),
            *expr matches Expr::Index { base, index, .. } ==> (*base matches Expr::Variable { name, .. } ==> (*index matches Expr::IntLiteral {
                value,
                suffix,
                base: b,
                ..
            } ==> (r is Ok <==> (spec_lookup(self.scopes@, name@) matches Some(sym) && (sym.ty is Array || sym.ty is Pointer)
                && spec_literal_type(value, suffix, b) is Some)))),
        decreases expr, 1nat,
    {
        let (base, index, span) = match expr {
            Expr::Index { base, index, span } => (base, index, *span),
            _ => {
                return Err(SemanticError { message: String::from_str("expected an index expression"), span: expr.diagnostic_span() });
            },
        };
        let typed_base = self.check_expr(base)?;
        let typed_index = self.check_expr(index)?;
        if !typed_index.ty.is_integer() {
            let mut msg = String::from_str("array index must be integer type, found '");
            push_type_name(&mut msg, &typed_index.ty);
            push_str(&mut msg, "'");
            return Err(SemanticError { message: msg, span });
        }
        let element_ty = match &typed_base.ty {
            Type::Array { element, .. } => clone_type(element),
            Type::Pointer(element) => clone_type(element),
            other => {
                let mut msg = String::from_str("cannot index expression of type '");
                push_type_name(&mut msg, other);
                push_str(&mut msg, "'");
                return Err(SemanticError { message: msg, span });
            },
        };
        Ok(TypedExpr {
            kind: TypedExprKind::Index { base: Box::new(typed_base), index: Box::new(typed_index), span },
            ty: element_ty,
        })
    }

    fn check_cast_expr(&self, target: &Type, expr: &Expr, span: Span) -> (r: Result<TypedExpr, SemanticError>)
        ensures
            r matches Ok(te) ==> spec_bound(self.scopes@, te),
            r matches Ok(te) ==> wt(te),
            r matches Ok(te) ==> te.kind matches TypedExprKind::Cast { target_ty, expr: x, span: s } && ty(target_ty)
                == ty(*target) && s == span && spec_same_form(*expr, *x),
            *expr matches Expr::IntLiteral { value, suffix, base, .. } ==> (r is Ok <==> (spec_literal_type(value, suffix, base) is Some
                && spec_is_integer(*target))),
        decreases expr, 11nat,
    {
        let typed_expr = self.check_expr(expr)?;
        if !target.is_integer() || !typed_expr.ty.is_integer() {
            let mut msg = String::from_str("cannot cast type '");
            push_type_name(&mut msg, &typed_expr.ty);
            push_str(&mut msg, "' to '");
            push_type_name(&mut msg, target);
            push_str(&mut msg, "'");
            return Err(SemanticError { message: msg, span });
        }
        Ok(TypedExpr {
            ty: clone_type(target),
            kind: TypedExprKind::Cast { target_ty: clone_type(target), expr: Box::new(typed_expr), span },
        })
    }

    /// The type of an integer literal from its suffix, base and value.
    fn check_int_literal(value: u64, suffix: IntLiteralSuffix, base: IntLiteralBase, span: Span) -> (r: Result<
        TypedExpr,
        SemanticError,
    >)
        ensures
            r matches Ok(te) ==> wt(te) && te.kind == (TypedExprKind::IntLiteral { value, span }),
            r is Ok <==> spec_literal_type(value, suffix, base) is Some,
            r matches Ok(te) ==> Some(te.ty) == spec_literal_type(value, suffix, base),
            r matches Err(e) ==> e.span == span && e.message@ == spec_literal_too_large_message(
                value,
                spec_literal_limit_name(suffix),
            ),
    {
        let max_int: u64 = 0x7fff_ffff;
        let max_uint: u64 = 0xffff_ffff;
        let t = match suffix {
            IntLiteralSuffix::Unsuffixed => match base {
                IntLiteralBase::Decimal => if value <= max_int {
                    Type::Int
                } else {
                    return Err(literal_too_large(value, "int", span));
                },
                IntLiteralBase::Hex => if value <= max_int {
                    Type::Int
                } else if value <= max_uint {
                    Type::UnsignedInt
                } else {
                    return Err(literal_too_large(value, "int", span));
                },
            },
            IntLiteralSuffix::Unsigned => if value <= max_uint {
                Type::UnsignedInt
            } else {
                return Err(literal_too_large(value, "unsigned int", span));
            },
            IntLiteralSuffix::Long => if value <= max_int {
                Type::Long
            } else {
                return Err(literal_too_large(value, "long", span));
            },
            IntLiteralSuffix::UnsignedLong => if value <= max_uint {
                Type::UnsignedLong
            } else {
                return Err(literal_too_large(value, "unsigned long", span));
            },
        };
        Ok(TypedExpr { kind: TypedExprKind::IntLiteral { value, span }, ty: t })
    }

    fn check_expr(&self, expr: &Expr) -> (r: Result<TypedExpr, SemanticError>)
        ensures
            r matches Ok(te) ==> spec_bound(self.scopes@, te),
            r matches Ok(te) ==> wt(te) && spec_same_form(*expr, te),
            *expr matches Expr::IntLiteral { value, suffix, base, .. } ==> (r is Ok <==> spec_literal_type(value, suffix, base) is Some),
            *expr matches Expr::IntLiteral { value, suffix, base, span } ==> match r {
                Ok(te) => Some(te.ty) == spec_literal_type(value, suffix, base) && te.kind == (TypedExprKind::IntLiteral { value, span }),
                Err(e) => e.span == span && e.message@ == spec_literal_too_large_message(value, spec_literal_limit_name(suffix)),
            },
            *expr matches Expr::Variable { name, .. } ==> (r is Ok <==> spec_lookup(self.scopes@, name@) is Some),
            *expr matches Expr::Variable { name, .. } ==> (r matches Ok(te) ==> (spec_lookup(self.scopes@, name@) matches Some(sym)
                && (sym.ty is Array ==> te.ty is Pointer) && (!(sym.ty is Array) ==> ty(te.ty) == ty(sym.ty)))),
            *expr matches Expr::Binary { op, left, right, .. } ==> (*left matches Expr::IntLiteral { value: lv, suffix: ls, base: lb, .. }
                ==> (*right matches Expr::IntLiteral { value: rv, suffix: rs, base: rb, .. } ==> (r is Ok <==> (spec_literal_type(lv, ls, lb)
                matches Some(lt) && spec_literal_type(rv, rs, rb) matches Some(rt) && spec_binary_types(op, lt, rt) is Some)))),
            *expr matches Expr::Unary { op, expr: x, .. } ==> (op == UnaryOp::AddressOf ==> (*x matches Expr::Variable { name, .. } ==> (r is Ok
                <==> spec_lookup(self.scopes@, name@) is Some))),
            *expr matches Expr::Unary { op, expr: x, .. } ==> (op != UnaryOp::AddressOf ==> (*x matches Expr::IntLiteral { value, suffix, base, .. }
                ==> (r is Ok <==> (spec_literal_type(value, suffix, base) is Some && op != UnaryOp::Dereference)))),
            *expr matches Expr::Cast { ty: target, expr: x, .. } ==> (*x matches Expr::IntLiteral { value, suffix, base, .. } ==> (r is Ok
                <==> (spec_literal_type(value, suffix, base) is Some && spec_is_integer(target)))),
            *expr matches Expr::Index { base, index, .. } ==> (*base matches Expr::Variable { name, .. } ==> (*index matches Expr::IntLiteral {
                value,
                suffix,
                base: b,
                ..
            } ==> (r is Ok <==> (spec_lookup(self.scopes@, name@) matches Some(sym) && (sym.ty is Array || sym.ty is Pointer)
                && spec_literal_type(value, suffix, b) is Some)))),
            *expr matches Expr::Call { callee, span, .. } ==> (!(*callee is Variable) ==> (r matches Err(e) && e.span == span
                && e.message@ == "called object is not a function"@)),
            *expr matches Expr::Call { callee, args, .. } ==> (*callee matches Expr::Variable { name, .. } ==> (args@.len() == 0 && (exists|
                i: int,
            | 0 <= i < self.functions@.len() && #[trigger] self.functions@[i].name@ == name@) && (forall|i: int|
                0 <= i < self.functions@.len() && #[trigger] self.functions@[i].name@ == name@ ==> self.functions@[i].params@.len() == 0)
                ==> r is Ok)),
            *expr matches Expr::PrefixInc { expr: x, .. } ==> (*x matches Expr::Variable { name, .. } ==> (r is Ok <==> (spec_lookup(
                self.scopes@,
                name@,
            ) matches Some(sym) && (spec_is_integer(sym.ty) || sym.ty is Pointer)))),
            *expr matches Expr::PrefixDec { expr: x, .. } ==> (*x matches Expr::Variable { name, .. } ==> (r is Ok <==> (spec_lookup(
                self.scopes@,
                name@,
            ) matches Some(sym) && (spec_is_integer(sym.ty) || sym.ty is Pointer)))),
            *expr matches Expr::PostfixInc { expr: x, .. } ==> (*x matches Expr::Variable { name, .. } ==> (r is Ok <==> (spec_lookup(
                self.scopes@,
                name@,
            ) matches Some(sym) && (spec_is_integer(sym.ty) || sym.ty is Pointer)))),
            *expr matches Expr::PostfixDec { expr: x, .. } ==> (*x matches Expr::Variable { name, .. } ==> (r is Ok <==> (spec_lookup(
                self.scopes@,
                name@,
            ) matches Some(sym) && (spec_is_integer(sym.ty) || sym.ty is Pointer)))),
            *expr matches Expr::Assign { target, value, .. } ==> (*target matches Expr::Variable { name, .. } ==> (spec_typed_literal(*value)
                && (spec_lookup(self.scopes@, name@) matches Some(sym) && spec_is_integer(sym.ty)) ==> r is Ok)),
            *expr matches Expr::SizeOfType { span, .. } ==> (r matches Err(e) && e.span == span && e.message@ == "sizeof is not supported"@),
            *expr matches Expr::SizeOfExpr { span, .. } ==> (r matches Err(e) && e.span == span && e.message@ == "sizeof is not supported"@),
            *expr matches Expr::StringLiteral { span, .. } ==> (r matches Err(e) && e.span == span && e.message@
                == "string literals are not supported"@),
        decreases expr, 10nat,
    {
        match expr {
            Expr::IntLiteral { value, suffix, base, span } => Self::check_int_literal(*value, *suffix, *base, *span),
            Expr::Variable { name, span } => {
                let symbol = self.resolve_local(name, *span)?;
                let t = match &symbol.ty {
                    Type::Array { element, .. } => Type::Pointer(Box::new(clone_type(element))),
                    _ => symbol.ty,
                };
                Ok(TypedExpr {
                    kind: TypedExprKind::Variable { id: ObjectId::Local(symbol.id), name: name.clone(), span: *span },
                    ty: t,
                })
            },
            Expr::Unary { op, op_span, expr } => self.check_unary_expr(*op, *op_span, expr),
            Expr::Binary { .. } => self.check_binary_expr(expr),
            Expr::Call { callee, args, span } => self.check_call_expr(callee, args, *span),
            Expr::Assign { target, op_span, value } => {
                let typed_target = self.check_lvalue(target, *op_span)?;
                let typed_value = self.check_expr(value)?;
                if !is_assignable_expr(&typed_target.ty, &typed_value) {
                    let mut msg = String::from_str("cannot assign value of type '");
                    push_type_name(&mut msg, &typed_value.ty);
                    push_str(&mut msg, "' to variable of type '");
                    push_type_name(&mut msg, &typed_target.ty);
                    push_str(&mut msg, "'");
                    return Err(SemanticError { message: msg, span: *op_span });
                }
                let t = clone_type(&typed_target.ty);
                Ok(TypedExpr {
                    kind: TypedExprKind::Assign { target: Box::new(typed_target), op_span: *op_span, value: Box::new(typed_value) },
                    ty: t,
                })
            },
            Expr::CompoundAssign { target, op, op_span, value } => {
                let typed_target = self.check_lvalue(target, *op_span)?;
                let typed_value = self.check_expr(value)?;
                let (operand_ty, result_ty) = check_binary_op_types(*op, *op_span, &typed_target.ty, &typed_value.ty)?;
                if !typed_target.ty.is_assignable_from(&result_ty) {
                    let mut msg = String::from_str("cannot assign value of type '");
                    push_type_name(&mut msg, &result_ty);
                    push_str(&mut msg, "' to variable of type '");
                    push_type_name(&mut msg, &typed_target.ty);
                    push_str(&mut msg, "'");
                    return Err(SemanticError { message: msg, span: *op_span });
                }
                let t = clone_type(&typed_target.ty);
                Ok(TypedExpr {
                    kind: TypedExprKind::CompoundAssign {
                        target: Box::new(typed_target),
                        op: *op,
                        op_span: *op_span,
                        operand_ty,
                        value: Box::new(typed_value),
                    },
                    ty: t,
                })
            },
            Expr::PrefixInc { expr, op_span } => self.check_inc_dec(expr, *op_span, 0),
            Expr::PrefixDec { expr, op_span } => self.check_inc_dec(expr, *op_span, 1),
            Expr::PostfixInc { expr, op_span } => self.check_inc_dec(expr, *op_span, 2),
            Expr::PostfixDec { expr, op_span } => self.check_inc_dec(expr, *op_span, 3),
            Expr::Index { .. } => self.check_index_expr(expr),
            Expr::Cast { ty: target, expr, span } => self.check_cast_expr(target, expr, *span),
            Expr::SizeOfType { span, .. } => Err(SemanticError {
                message: String::from_str("sizeof is not supported"),
                span: *span,
            }),
            Expr::SizeOfExpr { span, .. } => Err(SemanticError {
                message: String::from_str("sizeof is not supported"),
                span: *span,
            }),
            Expr::StringLiteral { span, .. } => Err(SemanticError {
                message: String::from_str("string literals are not supported"),
                span: *span,
            }),
        }
    }

    /// A binary expression: both operands, then the typing rule of the operator.
    fn check_binary_expr(&self, expr: &Expr) -> (r: Result<TypedExpr, SemanticError>)
        requires
            expr is Binary,
        ensures
            r matches Ok(te) ==> spec_bound(self.scopes@, te),
            r matches Ok(te) ==> wt(te) && spec_same_form(*expr, te),
            *expr matches Expr::Binary { op, left, right, .. } ==> (*left matches Expr::IntLiteral { value: lv, suffix: ls, base: lb, .. }
                ==> (*right matches Expr::IntLiteral { value: rv, suffix: rs, base: rb, .. } ==> (r is Ok <==> (spec_literal_type(lv, ls, lb)
                matches Some(lt) && spec_literal_type(rv, rs, rb) matches Some(rt) && spec_binary_types(op, lt, rt) is Some)))),
        decreases expr, 5nat,
    {
        let (op, op_span, left, right) = match expr {
            Expr::Binary { op, op_span, left, right } => (*op, *op_span, left, right),
            _ => {
                return Err(SemanticError { message: String::from_str("expected a binary expression"), span: expr.diagnostic_span() });
            },
        };
        let typed_left = self.check_expr(left)?;
        let typed_right = self.check_expr(right)?;
        if (op == BinaryOp::Equal || op == BinaryOp::NotEqual) && ((typed_left.ty.is_pointer()
            && typed_right.is_null_pointer_constant()) || (typed_right.ty.is_pointer()
            && typed_left.is_null_pointer_constant())) {
            let operand_ty = if typed_left.ty.is_pointer() {
                clone_type(&typed_left.ty)
            } else {
                clone_type(&typed_right.ty)
            };
            proof {
                if typed_left.ty is Pointer {
                    if !spec_is_null_pointer_constant(typed_right) {
                        assert(spec_is_null_pointer_constant(typed_left));
                        assert(!spec_is_integer(typed_left.ty));
                    }
                }
            }
            return Ok(TypedExpr {
                kind: TypedExprKind::Binary {
                    op,
                    op_span,
                    operand_ty,
                    left: Box::new(typed_left),
                    right: Box::new(typed_right),
                },
                ty: Type::Int,
            });
        }
        let (operand_ty, result_ty) = check_binary_op_types(op, op_span, &typed_left.ty, &typed_right.ty)?;
        Ok(TypedExpr {
            kind: TypedExprKind::Binary { op, op_span, operand_ty, left: Box::new(typed_left), right: Box::new(typed_right) },
            ty: result_ty,
        })
    }

}

/// The type of an integer literal: `int` for decimal values up to 2^31 - 1;
/// unsuffixed hex values up to 2^32 - 1 become `unsigned int`; `U`, `L` and
/// `UL` suffixes give `unsigned int`, `long` and `unsigned long` in their ranges.
pub open spec fn spec_literal_type(value: u64, suffix: IntLiteralSuffix, base: IntLiteralBase) -> Option<Type> {
    match suffix {
        IntLiteralSuffix::Unsuffixed => if value <= 0x7fff_ffff {
            Some(Type::Int)
        } else if base == IntLiteralBase::Hex && value <= 0xffff_ffff {
            Some(Type::UnsignedInt)
        } else {
            None
        },
        IntLiteralSuffix::Unsigned => if value <= 0xffff_ffff { Some(Type::UnsignedInt) } else { None },
        IntLiteralSuffix::Long => if value <= 0x7fff_ffff { Some(Type::Long) } else { None },
        IntLiteralSuffix::UnsignedLong => if value <= 0xffff_ffff { Some(Type::UnsignedLong) } else { None },
    }
}

/// The type named in the error for a literal too large for its suffix.
pub open spec fn spec_literal_limit_name(suffix: IntLiteralSuffix) -> Seq<char> {
    match suffix {
        IntLiteralSuffix::Unsuffixed => "int"@,
        IntLiteralSuffix::Unsigned => "unsigned int"@,
        IntLiteralSuffix::Long => "long"@,
        IntLiteralSuffix::UnsignedLong => "unsigned long"@,
    }
}

/// The message for an array initializer list longer than the array.
pub open spec fn spec_list_too_long_message(len: nat, count: nat) -> Seq<char> {
    "array initializer list must have <= '"@ + spec_decimal(len) + "' elements, has '"@ + spec_decimal(count) + "' elements"@
}

/// An integer literal whose value fits a type its suffix and base allow.
pub open spec fn spec_typed_literal(e: Expr) -> bool {
    e matches Expr::IntLiteral { value, suffix, base, .. } && spec_literal_type(value, suffix, base) is Some
}

/// The message for an integer literal too large for its type.
pub open spec fn spec_literal_too_large_message(value: u64, kind_name: Seq<char>) -> Seq<char> {
    "integer literal '"@ + spec_decimal(value as nat) + "' is too large for type '"@ + kind_name + "'"@
}

fn literal_too_large(value: u64, kind_name: &str, span: Span) -> (e: SemanticError)
    ensures
        e.span == span,
        e.message@ == spec_literal_too_large_message(value, kind_name@),
{
    let mut msg = String::from_str("integer literal '");
    push_u64(&mut msg, value);
    push_str(&mut msg, "' is too large for type '");
    push_str(&mut msg, kind_name);
    push_str(&mut msg, "'");
    proof {
        assert(msg@ =~= spec_literal_too_large_message(value, kind_name@));
    }
    SemanticError { message: msg, span }
}


/// A checked initializer fits the declared type: a scalar takes one assignable
/// expression; an array takes a list of at most its length of assignable elements.
pub open spec fn init_ok(t: Type, init: TypedInitializer) -> bool {
    match init {
        TypedInitializer::Expr(e) => spec_is_scalar(t) && wt(e) && spec_assignable_expr(t, e),
        TypedInitializer::List(es) => match t {
            Type::Array { element, len } => {
                &&& es@.len() <= len
                &&& wt_all(es@)
                &&& forall|k: int| 0 <= k < es@.len() ==> spec_assignable_expr(*element, #[trigger] es@[k])
            },
            _ => false,
        },
    }
}

/// A checked local declaration: its initializer, if any, fits its type.
pub open spec fn decl_ok(d: TypedLocalDecl) -> bool {
    match d.init {
        Some(init) => init_ok(d.ty, init),
        None => true,
    }
}

/// A checked statement: every expression is well typed, every returned value
/// is assignable to the return type `ret`, every initializer fits, and `break`
/// and `continue` stand only inside a loop (`in_loop` says whether the
/// statement itself does).
pub open spec fn wt_stmt(s: TypedStatement, in_loop: bool, ret: Type) -> bool
    decreases s,
{
    match s {
        TypedStatement::Decl(ds) => forall|k: int| 0 <= k < ds@.len() ==> decl_ok(#[trigger] ds@[k]),
        TypedStatement::Return(e) => wt(e) && spec_assignable_expr(ret, e),
        TypedStatement::Block(body) => wt_stmts(body@, in_loop, ret),
        TypedStatement::If { cond, then_branch, else_branch } => {
            &&& wt(cond)
            &&& wt_stmt(*then_branch, in_loop, ret)
            &&& match else_branch {
                Some(e) => wt_stmt(*e, in_loop, ret),
                None => true,
            }
        },
        TypedStatement::While { cond, body } => wt(cond) && wt_stmt(*body, true, ret),
        TypedStatement::DoWhile { body, cond } => wt(cond) && wt_stmt(*body, true, ret),
        TypedStatement::ExprStatement(e) => wt(e),
        TypedStatement::Empty => true,
        TypedStatement::Break { .. } => in_loop,
        TypedStatement::Continue { .. } => in_loop,
        TypedStatement::For { init, cond, post, body } => {
            &&& match init {
                Some(i) => wt_stmt(*i, true, ret),
                None => true,
            }
            &&& match cond {
                Some(c) => wt(c),
                None => true,
            }
            &&& match post {
                Some(p) => wt(p),
                None => true,
            }
            &&& wt_stmt(*body, true, ret)
        },
    }
}

/// A statement that names nothing and that every check accepts: an empty
/// statement, `break` or `continue` inside a loop, a block of such statements,
/// or a `while` or `do`-`while` loop whose condition is an integer literal of a
/// valid type and whose body is such a statement.
pub open spec fn spec_plain_stmt(s: Statement, in_loop: bool) -> bool
    decreases s,
{
    match s {
        Statement::Empty => true,
        Statement::Return(e) => spec_typed_literal(e),
        Statement::ExprStatement(e) => spec_typed_literal(e),
        Statement::If { cond, then_branch, else_branch } => spec_typed_literal(cond) && spec_plain_stmt(*then_branch, in_loop)
            && match else_branch {
            Some(e) => spec_plain_stmt(*e, in_loop),
            None => true,
        },
        Statement::Break { .. } | Statement::Continue { .. } => in_loop,
        Statement::Block(body) => {
            proof {
                assert(decreases_to!(body => body@));
            }
            spec_plain_stmts(body@, in_loop)
        },
        Statement::While { cond, body } | Statement::DoWhile { body, cond } => (cond matches Expr::IntLiteral {
            value,
            suffix,
            base,
            ..
        } && spec_literal_type(value, suffix, base) is Some) && spec_plain_stmt(*body, true),
        _ => false,
    }
}

/// Every statement of a sequence is plain (see [`spec_plain_stmt`]).
pub open spec fn spec_plain_stmts(ss: Seq<Statement>, in_loop: bool) -> bool
    decreases ss,
{
    if ss.len() == 0 {
        true
    } else {
        proof {
            assert(decreases_to!(ss => ss[ss.len() - 1]));
            assert(decreases_to!(ss => ss.drop_last()));
        }
        spec_plain_stmts(ss.drop_last(), in_loop) && spec_plain_stmt(ss[ss.len() - 1], in_loop)
    }
}

proof fn lemma_plain_stmts_index(ss: Seq<Statement>, in_loop: bool, i: int)
    requires
        spec_plain_stmts(ss, in_loop),
        0 <= i < ss.len(),
    ensures
        spec_plain_stmt(ss[i], in_loop),
    decreases ss.len(),
{
    if i < ss.len() - 1 {
        lemma_plain_stmts_index(ss.drop_last(), in_loop, i);
    }
}

/// Every statement of a sequence is checked.
pub open spec fn wt_stmts(ss: Seq<TypedStatement>, in_loop: bool, ret: Type) -> bool
    decreases ss,
{
    if ss.len() == 0 {
        true
    } else {
        proof {
            assert(decreases_to!(ss => ss[ss.len() - 1]));
            assert(decreases_to!(ss => ss.drop_last()));
        }
        wt_stmts(ss.drop_last(), in_loop, ret) && wt_stmt(ss[ss.len() - 1], in_loop, ret)
    }
}

pub proof fn lemma_wt_stmts_push(ss: Seq<TypedStatement>, s: TypedStatement, in_loop: bool, ret: Type)
    requires
        wt_stmts(ss, in_loop, ret),
        wt_stmt(s, in_loop, ret),
    ensures
        wt_stmts(ss.push(s), in_loop, ret),
{
    assert(ss.push(s).drop_last() =~= ss);
}

/// The function definitions among the external declarations, in order.
pub open spec fn spec_function_defs(ds: Seq<ExternalDecl>) -> Seq<FunctionDef>
    decreases ds.len(),
{
    if ds.len() == 0 {
        Seq::empty()
    } else {
        let prev = spec_function_defs(ds.drop_last());
        match ds.last() {
            ExternalDecl::FunctionDef(f) => prev.push(f),
            _ => prev,
        }
    }
}

/// Function definitions can all be declared: no name is defined twice and no
/// function has more than eight parameters.
pub open spec fn spec_defs_declarable(fs: Seq<FunctionDef>) -> bool {
    &&& forall|i: int, j: int| 0 <= i < j < fs.len() ==> fs[i].name@ != fs[j].name@
    &&& forall|i: int| 0 <= i < fs.len() ==> (#[trigger] fs[i]).params@.len() <= 8
}

/// Definition `j` is the first that cannot be declared: its name repeats an
/// earlier one, or it has more than eight parameters.
pub open spec fn spec_first_undeclarable(fs: Seq<FunctionDef>, j: int) -> bool {
    &&& 0 <= j < fs.len()
    &&& spec_defs_declarable(fs.take(j))
    &&& ((exists|a: int| 0 <= a < j && fs[a].name@ == fs[j].name@) || fs[j].params@.len() > 8)
}

/// The error message for definition `j` when it cannot be declared.
pub open spec fn spec_declare_message(fs: Seq<FunctionDef>, j: int) -> Seq<char> {
    if exists|a: int| 0 <= a < j && fs[a].name@ == fs[j].name@ {
        "duplicate function definition '"@ + fs[j].name@ + "'"@
    } else {
        "too many parameters in function "@ + fs[j].name@ + ", got "@ + spec_decimal(fs[j].params@.len()) + ", max 8"@
    }
}

/// Some definition is named `main`.
pub open spec fn spec_has_main(fs: Seq<FunctionDef>) -> bool {
    exists|i: int| 0 <= i < fs.len() && (#[trigger] fs[i]).name@ == "main"@
}

/// A checked function keeps the name, span, return type, parameters and body of its definition.
pub open spec fn spec_same_function(f: FunctionDef, tf: TypedFunction) -> bool {
    &&& tf.name@ == f.name@
    &&& tf.name_span == f.name_span
    &&& ty(tf.return_type) == ty(f.return_type)
    &&& tf.params@.len() == f.params@.len()
    &&& forall|k: int| 0 <= k < f.params@.len() ==> {
        &&& (#[trigger] tf.params@[k]).name@ == f.params@[k].name@
        &&& tf.params@[k].name_span == f.params@[k].name_span
        &&& ty(tf.params@[k].ty) == ty(f.params@[k].ty)
    }
    &&& spec_same_stmts(f.body@, tf.body@)
}

/// A checked function: its body is checked outside any loop against its return type.
pub open spec fn function_ok(tf: TypedFunction) -> bool {
    wt_stmts(tf.body@, false, tf.return_type)
}

impl Checker {
    /// Checks an initializer against the declared type of its object.
    fn check_initializer(&self, target_ty: &Type, name_span: Span, initializer: &Initializer) -> (r: Result<
        TypedInitializer,
        SemanticError,
    >)
        ensures
            r matches Ok(ti) ==> init_ok(*target_ty, ti) && spec_same_init(*initializer, ti),
            *initializer is List && !(*target_ty is Array) ==> (r matches Err(e) && e.span == name_span),
            *initializer is Expr && (*target_ty is Array || *target_ty is Function) ==> (r matches Err(e) && e.span == name_span),
            *initializer matches Initializer::Expr(Expr::IntLiteral { value, suffix, base, .. }) ==> (spec_is_integer(*target_ty)
                ==> (r is Ok <==> spec_literal_type(value, suffix, base) is Some)),
            *initializer matches Initializer::List(values) ==> (*target_ty matches Type::Array { len, .. } ==> (values@.len() > len
                ==> (r matches Err(e) && e.span == name_span && e.message@ == spec_list_too_long_message(len as nat, values@.len())))),
            *initializer matches Initializer::List(values) ==> (*target_ty matches Type::Array { element, len } ==> (values@.len() <= len
                && spec_is_integer(*element) && (forall|k: int| 0 <= k < values@.len() ==> spec_typed_literal(#[trigger] values@[k]))
                ==> (r matches Ok(TypedInitializer::List(tvs)) && tvs@.len() == values@.len()))),
            *initializer matches Initializer::List(values) ==> (*target_ty matches Type::Array { element, .. } ==> (values@.len() == 0
                ==> r is Ok)),
    {
        match initializer {
            Initializer::List(values) => {
                match target_ty {
                    Type::Array { element, len } => {
                        if values.len() > *len {
                            let mut msg = String::from_str("array initializer list must have <= '");
                            push_u64(&mut msg, *len as u64);
                            push_str(&mut msg, "' elements, has '");
                            push_u64(&mut msg, values.len() as u64);
                            push_str(&mut msg, "' elements");
                            proof {
                                assert(msg@ =~= spec_list_too_long_message(*len as nat, values@.len()));
                            }
                            return Err(SemanticError { message: msg, span: name_span });
                        }
                        let ghost all_literals = spec_is_integer(**element) && (forall|k: int| 0 <= k < values@.len() ==> spec_typed_literal(#[trigger] values@[k]));
                        let mut typed_values: Vec<TypedExpr> = Vec::new();
                        let mut i: usize = 0;
                        while i < values.len()
                            invariant
                                *initializer matches Initializer::List(vs) && vs@ == values@,
                                *target_ty == (Type::Array { element: *element, len: *len }),
                                values@.len() <= *len,
                                i <= values@.len(),
                                typed_values@.len() == i,
                                wt_all(typed_values@),
                                spec_same_forms(values@.take(i as int), typed_values@),
                                forall|k: int| 0 <= k < i ==> spec_assignable_expr(**element, #[trigger] typed_values@[k]),
                                all_literals == (spec_is_integer(**element) && (forall|k: int| 0 <= k < values@.len() ==> spec_typed_literal(#[trigger] values@[k]))),
                            decreases values.len() - i,
                        {
                            proof {
                                if all_literals {
                                    assert(spec_typed_literal(values@[i as int]));
                                }
                            }
                            let typed_value = self.check_expr(&values[i])?;
                            if !is_assignable_expr(element, &typed_value) {
                                let mut msg = String::from_str("cannot assign value of type '");
                                push_type_name(&mut msg, &typed_value.ty);
                                push_str(&mut msg, "' to array of type '");
                                push_type_name(&mut msg, element);
                                push_str(&mut msg, "'");
                                return Err(SemanticError { message: msg, span: typed_value.diagnostic_span() });
                            }
                            proof {
                                lemma_wt_all_push(typed_values@, typed_value);
                                lemma_same_forms_push(values@.take(i as int), typed_values@, values@[i as int], typed_value);
                                assert(values@.take(i as int).push(values@[i as int]) =~= values@.take(i + 1));
                            }
                            typed_values.push(typed_value);
                            i = i + 1;
                        }
                        proof {
                            assert(values@.take(i as int) =~= values@);
                        }
                        Ok(TypedInitializer::List(typed_values))
                    },
                    _ => {
                        let mut msg = String::from_str("cannot initialize scalar type '");
                        push_type_name(&mut msg, target_ty);
                        push_str(&mut msg, "' with list");
                        Err(SemanticError { message: msg, span: name_span })
                    },
                }
            },
            Initializer::Expr(init_expr) => {
                match target_ty {
                    Type::Array { .. } => Err(SemanticError {
                        message: String::from_str("array must be initialized with list"),
                        span: name_span,
                    }),
                    Type::Function(_) => {
                        let mut msg = String::from_str("cannot initialize function type '");
                        push_type_name(&mut msg, target_ty);
                        push_str(&mut msg, "'");
                        Err(SemanticError { message: msg, span: name_span })
                    },
                    _ => {
                        let typed_init = self.check_expr(init_expr)?;
                        if !is_assignable_expr(target_ty, &typed_init) {
                            let mut msg = String::from_str("cannot assign value of type '");
                            push_type_name(&mut msg, &typed_init.ty);
                            push_str(&mut msg, "' to variable of type '");
                            push_type_name(&mut msg, target_ty);
                            push_str(&mut msg, "'");
                            return Err(SemanticError { message: msg, span: typed_init.diagnostic_span() });
                        }
                        Ok(TypedInitializer::Expr(typed_init))
                    },
                }
            },
        }
    }
}

impl Checker {
    spec fn frame(&self, old: &Self) -> bool {
        &&& self.inv()
        &&& self.scopes@.len() == old.scopes@.len()
        &&& self.scopes@.drop_last() == old.scopes@.drop_last()
        &&& self.functions == old.functions
        &&& self.loop_depth == old.loop_depth
        &&& self.current_function_return_type == old.current_function_return_type
    }

    /// Checks a statement inside the current function.
    fn check_statement(&mut self, statement: &Statement) -> (r: Result<TypedStatement, SemanticError>)
        requires
            old(self).inv(),
            old(self).current_function_return_type is Some,
        ensures
            final(self).frame(&*old(self)),
            r matches Ok(ts) ==> wt_stmt(
                ts,
                old(self).loop_depth > 0,
                old(self).current_function_return_type.unwrap(),
            ),
            r matches Ok(ts) ==> spec_same_stmt(*statement, ts),
            spec_plain_stmt(*statement, old(self).loop_depth > 0) && spec_is_integer(old(self).current_function_return_type.unwrap()) ==> r is Ok,
            *statement matches Statement::Break { span } ==> if old(self).loop_depth > 0 {
                r == Ok::<TypedStatement, SemanticError>(TypedStatement::Break { span })
            } else {
                r matches Err(e) && e.message@ == "cannot use 'break' outside of a loop"@ && e.span == span
            },
            *statement matches Statement::Continue { span } ==> if old(self).loop_depth > 0 {
                r == Ok::<TypedStatement, SemanticError>(TypedStatement::Continue { span })
            } else {
                r matches Err(e) && e.message@ == "cannot use 'continue' outside of a loop"@ && e.span == span
            },
            (*statement is Block || *statement is For) ==> final(self).scopes@ == old(self).scopes@,
        decreases statement, 1nat,
    {
        match statement {
            Statement::Return(expr) => {
                let typed_expr = self.check_expr(expr)?;
                let return_type = match &self.current_function_return_type {
                    Some(t) => t,
                    None => {
                        return Err(SemanticError {
                            message: String::from_str("return statement outside a function"),
                            span: expr.diagnostic_span(),
                        });
                    },
                };
                if !is_assignable_expr(return_type, &typed_expr) {
                    let mut msg = String::from_str("cannot return value of type '");
                    push_type_name(&mut msg, &typed_expr.ty);
                    push_str(&mut msg, "' from function returning '");
                    push_type_name(&mut msg, return_type);
                    push_str(&mut msg, "'");
                    return Err(SemanticError { message: msg, span: expr.diagnostic_span() });
                }
                Ok(TypedStatement::Return(typed_expr))
            },
            Statement::Decl(declarations) => {
                let mut typed_declarations: Vec<TypedLocalDecl> = Vec::new();
                let mut i: usize = 0;
                while i < declarations.len()
                    invariant
                        self.frame(&*old(self)),
                        *statement is Decl,
                        i <= declarations@.len(),
                        typed_declarations@.len() == i,
                        forall|k: int| 0 <= k < typed_declarations@.len() ==> decl_ok(#[trigger] typed_declarations@[k]),
                        forall|k: int| 0 <= k < i ==> spec_same_decl(#[trigger] declarations@[k], typed_declarations@[k]),
                    decreases declarations.len() - i,
                {
                    let declaration = &declarations[i];
                    if matches!(declaration.ty, Type::Function(_)) {
                        let mut msg = String::from_str("'");
                        push_type_name(&mut msg, &declaration.ty);
                        push_str(&mut msg, "' type is not an object type");
                        return Err(SemanticError { message: msg, span: declaration.name_span });
                    }
                    let symbol = self.declare_local(&declaration.ty, &declaration.name, declaration.name_span)?;
                    let typed_init = match &declaration.init {
                        Some(initializer) => Some(
                            self.check_initializer(&symbol.ty, declaration.name_span, initializer)?,
                        ),
                        None => None,
                    };
                    let d = TypedLocalDecl {
                        id: symbol.id,
                        ty: symbol.ty,
                        name: declaration.name.clone(),
                        name_span: declaration.name_span,
                        init: typed_init,
                    };
                    typed_declarations.push(d);
                    i = i + 1;
                }
                Ok(TypedStatement::Decl(typed_declarations))
            },
            Statement::Block(body) => {
                proof {
                    assert(decreases_to!(statement => body));
                }
                self.check_block(body)
            },
            Statement::If { cond, then_branch, else_branch } => {
                let typed_cond = self.check_expr(cond)?;
                let typed_then = self.check_statement(then_branch)?;
                let typed_else = match else_branch {
                    Some(else_statement) => Some(Box::new(self.check_statement(else_statement)?)),
                    None => None,
                };
                Ok(TypedStatement::If { cond: typed_cond, then_branch: Box::new(typed_then), else_branch: typed_else })
            },
            Statement::While { cond, body } => {
                let saved = self.loop_depth;
                self.loop_depth = self.loop_depth.saturating_add(1);
                let res = self.check_while_parts(cond, body);
                self.loop_depth = saved;
                match res {
                    Ok((typed_cond, typed_body)) => Ok(
                        TypedStatement::While { cond: typed_cond, body: Box::new(typed_body) },
                    ),
                    Err(e) => Err(e),
                }
            },
            Statement::DoWhile { body, cond } => {
                let saved = self.loop_depth;
                self.loop_depth = self.loop_depth.saturating_add(1);
                let res = self.check_while_parts(cond, body);
                self.loop_depth = saved;
                match res {
                    Ok((typed_cond, typed_body)) => Ok(
                        TypedStatement::DoWhile { body: Box::new(typed_body), cond: typed_cond },
                    ),
                    Err(e) => Err(e),
                }
            },
            Statement::For { .. } => {
                let saved = self.loop_depth;
                self.loop_depth = self.loop_depth.saturating_add(1);
                self.enter_scope();
                let res = self.check_for_parts(statement);
                self.exit_scope();
                self.loop_depth = saved;
                proof {
                    assert(self.scopes@ =~= old(self).scopes@);
                }
                res
            },
            Statement::Empty => Ok(TypedStatement::Empty),
            Statement::ExprStatement(expr) => {
                let typed_expr = self.check_expr(expr)?;
                Ok(TypedStatement::ExprStatement(typed_expr))
            },
            Statement::Break { span } => {
                if self.loop_depth == 0 {
                    return Err(SemanticError {
                        message: String::from_str("cannot use 'break' outside of a loop"),
                        span: *span,
                    });
                }
                Ok(TypedStatement::Break { span: *span })
            },
            Statement::Continue { span } => {
                if self.loop_depth == 0 {
                    return Err(SemanticError {
                        message: String::from_str("cannot use 'continue' outside of a loop"),
                        span: *span,
                    });
                }
                Ok(TypedStatement::Continue { span: *span })
            },
        }
    }

    /// The condition and body of a `while` or `do`-`while` loop, checked inside the loop.
    fn check_while_parts(&mut self, cond: &Expr, body: &Statement) -> (r: Result<
        (TypedExpr, TypedStatement),
        SemanticError,
    >)
        requires
            old(self).inv(),
            old(self).current_function_return_type is Some,
            old(self).loop_depth > 0,
        ensures
            final(self).frame(&*old(self)),
            r matches Ok((c, b)) ==> wt(c) && wt_stmt(b, true, old(self).current_function_return_type.unwrap()),
            r matches Ok((c, b)) ==> spec_same_form(*cond, c) && spec_same_stmt(*body, b),
            (*cond matches Expr::IntLiteral { value, suffix, base, .. } && spec_literal_type(value, suffix, base) is Some)
                && spec_plain_stmt(*body, true) && spec_is_integer(old(self).current_function_return_type.unwrap()) ==> r is Ok,
        decreases body, 2nat,
    {
        let typed_cond = self.check_expr(cond)?;
        let typed_body = self.check_statement(body)?;
        Ok((typed_cond, typed_body))
    }

    /// The parts of a `for` loop, checked inside the loop and its own scope.
    fn check_for_parts(&mut self, statement: &Statement) -> (r: Result<TypedStatement, SemanticError>)
        requires
            old(self).inv(),
            old(self).current_function_return_type is Some,
            old(self).loop_depth > 0,
            statement is For,
        ensures
            final(self).frame(&*old(self)),
            r matches Ok(ts) ==> ts is For && wt_stmt(ts, false, old(self).current_function_return_type.unwrap()),
            r matches Ok(ts) ==> spec_same_stmt(*statement, ts),
            *statement matches Statement::For { init, cond, post, body } ==> (init is None && cond is None && post is None
                && spec_plain_stmt(*body, true) && spec_is_integer(old(self).current_function_return_type.unwrap()) ==> r is Ok),
        decreases statement, 0nat,
    {
        let (init, cond, post, body) = match statement {
            Statement::For { init, cond, post, body } => (init, cond, post, body),
            _ => {
                return Err(SemanticError {
                    message: String::from_str("expected a for statement"),
                    span: Span { file_id: crate::source::dummy_file_id(), start: 0, end: 0 },
                });
            },
        };
        let typed_init = match init {
            Some(init_statement) => Some(Box::new(self.check_statement(init_statement)?)),
            None => None,
        };
        let typed_cond = match cond {
            Some(cond_expr) => Some(self.check_expr(cond_expr)?),
            None => None,
        };
        let typed_post = match post {
            Some(post_expr) => Some(self.check_expr(post_expr)?),
            None => None,
        };
        let typed_body = self.check_statement(body)?;
        Ok(TypedStatement::For { init: typed_init, cond: typed_cond, post: typed_post, body: Box::new(typed_body) })
    }

    /// A block: its statements in a scope of their own.
    fn check_block(&mut self, body: &Vec<Statement>) -> (r: Result<TypedStatement, SemanticError>)
        requires
            old(self).inv(),
            old(self).current_function_return_type is Some,
        ensures
            final(self).frame(&*old(self)),
            r matches Ok(ts) ==> wt_stmt(ts, old(self).loop_depth > 0, old(self).current_function_return_type.unwrap()),
            r matches Ok(ts) ==> ts matches TypedStatement::Block(tb) && spec_same_stmts(body@, tb@),
            spec_plain_stmts(body@, old(self).loop_depth > 0) && spec_is_integer(old(self).current_function_return_type.unwrap()) ==> r is Ok,
            final(self).scopes@ == old(self).scopes@,
        decreases body, 2nat,
    {
        self.enter_scope();
        let res = self.check_statements(body);
        self.exit_scope();
        proof {
            assert(self.scopes@ =~= old(self).scopes@);
        }
        match res {
            Ok(typed_body) => Ok(TypedStatement::Block(typed_body)),
            Err(e) => Err(e),
        }
    }

    /// Checks statements in order, in the current scope.
    fn check_statements(&mut self, body: &Vec<Statement>) -> (r: Result<Vec<TypedStatement>, SemanticError>)
        requires
            old(self).inv(),
            old(self).current_function_return_type is Some,
        ensures
            final(self).frame(&*old(self)),
            r matches Ok(ts) ==> ts@.len() == body@.len() && wt_stmts(
                ts@,
                old(self).loop_depth > 0,
                old(self).current_function_return_type.unwrap(),
            ),
            r matches Ok(ts) ==> spec_same_stmts(body@, ts@),
            spec_plain_stmts(body@, old(self).loop_depth > 0) && spec_is_integer(old(self).current_function_return_type.unwrap()) ==> r is Ok,
        decreases body, 1nat,
    {
        let mut typed_body: Vec<TypedStatement> = Vec::new();
        let mut i: usize = 0;
        while i < body.len()
            invariant
                self.frame(&*old(self)),
                old(self).current_function_return_type is Some,
                i <= body@.len(),
                typed_body@.len() == i,
                wt_stmts(typed_body@, old(self).loop_depth > 0, old(self).current_function_return_type.unwrap()),
                spec_same_stmts(body@.take(i as int), typed_body@),
            decreases body.len() - i,
        {
            proof {
                if spec_plain_stmts(body@, old(self).loop_depth > 0) {
                    lemma_plain_stmts_index(body@, old(self).loop_depth > 0, i as int);
                }
            }
            proof {
                assert(decreases_to!(body => body@));
                assert(decreases_to!(body@ => body@[i as int]));
            }
            let ts = self.check_statement(&body[i])?;
            proof {
                lemma_wt_stmts_push(
                    typed_body@,
                    ts,
                    old(self).loop_depth > 0,
                    old(self).current_function_return_type.unwrap(),
                );
                lemma_same_stmts_push(body@.take(i as int), typed_body@, body@[i as int], ts);
                assert(body@.take(i as int).push(body@[i as int]) =~= body@.take(i + 1));
            }
            typed_body.push(ts);
            i = i + 1;
        }
        proof {
            assert(body@.take(i as int) =~= body@);
        }
        Ok(typed_body)
    }
}

impl Checker {
    /// Checks a function definition: its parameters and body in a scope of their own.
    fn check_function(&mut self, function: &FunctionDef) -> (r: Result<TypedFunction, SemanticError>)
        requires
            old(self).inv(),
            old(self).loop_depth == 0,
        ensures
            final(self).frame(&*old(self)),
            r matches Ok(tf) ==> function_ok(tf) && spec_same_function(*function, tf),
            spec_names_distinct(function.params@, function.params@.len() as int) && spec_plain_stmts(function.body@, false)
                && spec_is_integer(function.return_type) ==> r is Ok,
            forall|j: int| #[trigger] spec_first_duplicate(function.params@, j) ==> (r matches Err(e) && e.span
                == function.params@[j].name_span && e.message@ == "duplicate local variable '"@ + function.params@[j].name@ + "'"@),
    {
        self.enter_scope();
        let old_return_type = self.current_function_return_type.take();
        self.current_function_return_type = Some(clone_type(&function.return_type));
        proof {
            let rt = self.current_function_return_type.unwrap();
            assert(ty(rt) == ty(function.return_type));
            if spec_is_integer(function.return_type) {
                assert(spec_is_integer(rt));
            }
        }
        let res = self.check_function_parts(function);
        let used = self.current_function_return_type.take();
        self.current_function_return_type = old_return_type;
        self.exit_scope();
        match res {
            Ok((params, body)) => {
                let return_type = match used {
                    Some(t) => t,
                    None => clone_type(&function.return_type),
                };
                Ok(TypedFunction {
                    return_type,
                    name: function.name.clone(),
                    name_span: function.name_span,
                    params,
                    body,
                })
            },
            Err(e) => Err(e),
        }
    }

    /// Declares the parameters of a function, then checks its body.
    fn check_function_parts(&mut self, function: &FunctionDef) -> (r: Result<
        (Vec<TypedParam>, Vec<TypedStatement>),
        SemanticError,
    >)
        requires
            old(self).inv(),
            old(self).loop_depth == 0,
            old(self).current_function_return_type is Some,
            old(self).innermost_names().len() == 0,
        ensures
            final(self).frame(&*old(self)),
            forall|j: int| #[trigger] spec_first_duplicate(function.params@, j) ==> (r matches Err(e) && e.span
                == function.params@[j].name_span && e.message@ == "duplicate local variable '"@ + function.params@[j].name@ + "'"@),
            r matches Ok((ps, body)) ==> ps@.len() == function.params@.len() && wt_stmts(
                body@,
                false,
                old(self).current_function_return_type.unwrap(),
            ),
            r matches Ok((ps, body)) ==> spec_same_stmts(function.body@, body@) && forall|k: int|
                0 <= k < function.params@.len() ==> {
                    &&& (#[trigger] ps@[k]).name@ == function.params@[k].name@
                    &&& ps@[k].name_span == function.params@[k].name_span
                    &&& ty(ps@[k].ty) == ty(function.params@[k].ty)
                },
            spec_names_distinct(function.params@, function.params@.len() as int) && spec_plain_stmts(function.body@, false)
                && spec_is_integer(old(self).current_function_return_type.unwrap()) ==> r is Ok,
    {
        let mut typed_params: Vec<TypedParam> = Vec::new();
        let mut i: usize = 0;
        while i < function.params.len()
            invariant
                self.frame(&*old(self)),
                i <= function.params@.len(),
                typed_params@.len() == i,
                forall|k: int| 0 <= k < i ==> {
                    &&& (#[trigger] typed_params@[k]).name@ == function.params@[k].name@
                    &&& typed_params@[k].name_span == function.params@[k].name_span
                    &&& ty(typed_params@[k].ty) == ty(function.params@[k].ty)
                },
                self.innermost_names() == function.params@.take(i as int).map_values(|p: Param| p.name@),
                spec_names_distinct(function.params@, i as int),
            decreases function.params.len() - i,
        {
            let param = &function.params[i];
            let ghost names = self.innermost_names();
            let res = self.declare_local(&param.ty, &param.name, param.name_span);
            let symbol = match res {
                Ok(sym) => sym,
                Err(e) => {
                    proof {
                        let a = choose|a: int| 0 <= a < names.len() && names[a] == param.name@;
                        assert(function.params@.take(i as int)[a] == function.params@[a]);
                        assert(spec_first_duplicate(function.params@, i as int));
                        assert forall|j: int| #[trigger] spec_first_duplicate(function.params@, j) implies j == i by {
                            if j < i {
                                let b = choose|b: int| 0 <= b < j && function.params@[b].name@ == function.params@[j].name@;
                                assert(function.params@[b].name@ != function.params@[j].name@);
                            } else if j > i {
                                assert(function.params@[a].name@ != function.params@[i as int].name@);
                            }
                        }
                    }
                    return Err(e);
                },
            };
            proof {
                assert(!names.contains(param.name@));
                assert forall|a: int, b: int| 0 <= a < b < i + 1 implies function.params@[a].name@ != function.params@[b].name@ by {
                    if b == i {
                        assert(names[a] == function.params@.take(i as int)[a].name@);
                    }
                }
                assert(function.params@.take(i + 1).map_values(|p: Param| p.name@) =~= names.push(param.name@));
            }
            typed_params.push(TypedParam { id: symbol.id, ty: symbol.ty, name: param.name.clone(), name_span: param.name_span });
            i = i + 1;
        }
        let body = self.check_statements(&function.body)?;
        Ok((typed_params, body))
    }
}

pub proof fn lemma_function_defs_prefix(ds: Seq<ExternalDecl>, j: int)
    requires
        0 <= j <= ds.len(),
    ensures
        spec_function_defs(ds.take(j)).len() <= spec_function_defs(ds).len(),
        spec_function_defs(ds.take(j)) == spec_function_defs(ds).take(spec_function_defs(ds.take(j)).len() as int),
    decreases ds.len(),
{
    if j == ds.len() {
        assert(ds.take(j) =~= ds);
        assert(spec_function_defs(ds).take(spec_function_defs(ds).len() as int) =~= spec_function_defs(ds));
    } else {
        assert(ds.take(j) =~= ds.drop_last().take(j));
        lemma_function_defs_prefix(ds.drop_last(), j);
        let a = spec_function_defs(ds.take(j));
        let p = spec_function_defs(ds.drop_last());
        assert(p.take(a.len() as int) == a);
        match ds.last() {
            ExternalDecl::FunctionDef(f) => {
                assert(p.push(f).take(a.len() as int) =~= p.take(a.len() as int));
            },
            _ => {},
        }
    }
}

proof fn lemma_function_defs_step(ds: Seq<ExternalDecl>, i: int)
    requires
        0 <= i < ds.len(),
    ensures
        spec_function_defs(ds.take(i + 1)) == match ds[i] {
            ExternalDecl::FunctionDef(f) => spec_function_defs(ds.take(i)).push(f),
            _ => spec_function_defs(ds.take(i)),
        },
{
    assert(ds.take(i + 1).drop_last() =~= ds.take(i));
    assert(ds.take(i + 1).last() == ds[i]);
}

/// The names of the first `j` parameters are distinct.
pub open spec fn spec_names_distinct(ps: Seq<Param>, j: int) -> bool {
    forall|a: int, b: int| 0 <= a < b < j ==> ps[a].name@ != ps[b].name@
}

/// Parameter `j` is the first to repeat the name of an earlier parameter.
pub open spec fn spec_first_duplicate(ps: Seq<Param>, j: int) -> bool {
    &&& 0 <= j < ps.len()
    &&& spec_names_distinct(ps, j)
    &&& exists|a: int| 0 <= a < j && ps[a].name@ == ps[j].name@
}

/// Every function definition among the declarations has parameters of distinct
/// names, an integer return type and a body of plain statements.
pub open spec fn spec_plain_functions(ds: Seq<ExternalDecl>) -> bool {
    forall|k: int| 0 <= k < ds.len() ==> (#[trigger] ds[k] matches ExternalDecl::FunctionDef(f) ==> spec_names_distinct(
        f.params@,
        f.params@.len() as int,
    )
        && spec_plain_stmts(f.body@, false) && spec_is_integer(f.return_type))
}

/// A checked program: its declarations are checked functions, one of them named `main`.
pub open spec fn checked_program(tp: TypedProgram) -> bool {
    &&& forall|k: int| 0 <= k < tp.declarations@.len() ==> (#[trigger] tp.declarations@[k] matches TypedExternalDecl::Function(tf)
        && function_ok(tf))
    &&& exists|k: int| 0 <= k < tp.declarations@.len() && (#[trigger] tp.declarations@[k] matches TypedExternalDecl::Function(tf)
        && tf.name@ == "main"@)
}

/// A typed program checked from a program: it is a checked program, its end
/// span is the program's, its function definitions can be declared and one is
/// `main`, and it holds one checked function per definition, in order, each
/// keeping the form of its definition.
pub open spec fn spec_checked(program: Program, tp: TypedProgram) -> bool {
    let defs = spec_function_defs(program.declarations@);
    &&& checked_program(tp)
    &&& tp.eof_span == program.eof_span
    &&& spec_defs_declarable(defs)
    &&& spec_has_main(defs)
    &&& tp.declarations@.len() == defs.len()
    &&& forall|k: int| 0 <= k < defs.len() ==> (#[trigger] tp.declarations@[k] matches TypedExternalDecl::Function(tf)
        && (function_ok(tf) && spec_same_function(defs[k], tf)))
}

/// Checks a program and gives it types: every function definition is declared
/// first (names distinct, at most eight parameters each), a `main` must be among
/// them, then each definition is checked in order.
pub fn check(program: &Program) -> (r: Result<TypedProgram, SemanticError>)
    ensures
        r matches Ok(tp) ==> spec_checked(*program, tp),
        !spec_defs_declarable(spec_function_defs(program.declarations@)) ==> r is Err,
        spec_defs_declarable(spec_function_defs(program.declarations@)) && !spec_has_main(
            spec_function_defs(program.declarations@),
        ) ==> (r matches Err(e) && e.message@ == "no 'main' function found"@ && e.span == program.eof_span),
        spec_defs_declarable(spec_function_defs(program.declarations@)) && spec_has_main(spec_function_defs(program.declarations@))
            && spec_plain_functions(program.declarations@) ==> r is Ok,
        forall|j: int| #[trigger] spec_first_undeclarable(spec_function_defs(program.declarations@), j) ==> (r matches Err(e)
            && e.span == spec_function_defs(program.declarations@)[j].name_span && e.message@ == spec_declare_message(
            spec_function_defs(program.declarations@),
            j,
        )),
{
    let ghost ds = program.declarations@;
    let mut checker = Checker::new();
    let mut i: usize = 0;
    while i < program.declarations.len()
        invariant
            ds == program.declarations@,
            i <= ds.len(),
            checker.inv(),
            checker.loop_depth == 0,
            checker.current_function_return_type is None,
            checker.functions@.len() == spec_function_defs(ds.take(i as int)).len(),
            forall|k: int| 0 <= k < checker.functions@.len() ==> (#[trigger] checker.functions@[k]).name@
                == spec_function_defs(ds.take(i as int))[k].name@,
            spec_defs_declarable(spec_function_defs(ds.take(i as int))),
        decreases ds.len() - i,
    {
        proof {
            lemma_function_defs_step(ds, i as int);
        }
        match &program.declarations[i] {
            ExternalDecl::FunctionDef(function) => {
                let ghost before = checker.functions@;
                let res = checker.declare_function(function);
                match res {
                    Ok(()) => {},
                    Err(e) => {
                        proof {
                            let d = spec_function_defs(ds.take(i as int + 1));
                            lemma_function_defs_prefix(ds, i as int + 1);
                            let full = spec_function_defs(ds);
                            assert(ds[i as int] == ExternalDecl::FunctionDef(*function));
                            assert(d == spec_function_defs(ds.take(i as int)).push(*function));
                            assert(d[d.len() - 1] == *function);
                            assert(d == full.take(d.len() as int));
                            assert(full.take(d.len() as int)[d.len() - 1] == full[d.len() - 1]);
                            if function.params@.len() > 8 {
                                assert(full[d.len() - 1] == *function);
                            } else {
                                let w = choose|w: int| 0 <= w < before.len() && before[w].name@ == function.name@;
                                assert(full.take(d.len() as int)[w] == full[w]);
                                assert(d[w] == full[w]);
                                assert(full[w].name@ == full[d.len() - 1].name@);
                            }
                            let m = d.len() - 1;
                            let prev = spec_function_defs(ds.take(i as int));
                            assert(prev == d.take(m));
                            assert(full.take(m) =~= prev);
                            assert((exists|a: int| 0 <= a < m && full[a].name@ == full[m].name@) <==> (exists|a: int|
                                0 <= a < before.len() && before[a].name@ == function.name@)) by {
                                if exists|a: int| 0 <= a < m && full[a].name@ == full[m].name@ {
                                    let a = choose|a: int| 0 <= a < m && full[a].name@ == full[m].name@;
                                    assert(prev[a] == full[a]);
                                    assert(before[a].name@ == prev[a].name@);
                                }
                                if exists|a: int| 0 <= a < before.len() && before[a].name@ == function.name@ {
                                    let a = choose|a: int| 0 <= a < before.len() && before[a].name@ == function.name@;
                                    assert(prev[a] == full[a]);
                                }
                            }
                            assert forall|j: int| #[trigger] spec_first_undeclarable(full, j) implies j == m by {
                                if j < m {
                                    assert(full.take(m)[j] == full[j]);
                                    if exists|a: int| 0 <= a < j && full[a].name@ == full[j].name@ {
                                        let a = choose|a: int| 0 <= a < j && full[a].name@ == full[j].name@;
                                        assert(full.take(m)[a] == full[a]);
                                    }
                                } else if j > m {
                                    assert(full.take(j)[m] == full[m]);
                                    if exists|a: int| 0 <= a < m && full[a].name@ == full[m].name@ {
                                        let a = choose|a: int| 0 <= a < m && full[a].name@ == full[m].name@;
                                        assert(full.take(j)[a] == full[a]);
                                    }
                                }
                            }
                        }
                        return Err(e);
                    },
                }
                proof {
                    let d = spec_function_defs(ds.take(i as int + 1));
                    assert forall|a: int, b: int| 0 <= a < b < d.len() implies d[a].name@ != d[b].name@ by {
                        if b == d.len() - 1 {
                            assert(before[a].name@ == d[a].name@);
                        }
                    }
                    assert forall|k: int| 0 <= k < checker.functions@.len() implies (#[trigger] checker.functions@[k]).name@
                        == d[k].name@ by {
                        if k < before.len() {
                            assert(checker.functions@[k] == before[k]);
                        }
                    }
                }
            },
            _ => {},
        }
        i = i + 1;
    }
    proof {
        assert(ds.take(ds.len() as int) =~= ds);
    }
    let main_name = String::from_str("main");
    proof {
        reveal_strlit("main");
    }
    if checker.find_function(&main_name).is_none() {
        proof {
            let defs = spec_function_defs(ds);
            if spec_has_main(defs) {
                let w = choose|w: int| 0 <= w < defs.len() && (#[trigger] defs[w]).name@ == "main"@;
                assert(checker.functions@[w].name@ == defs[w].name@);
            }
        }
        return Err(SemanticError { message: String::from_str("no 'main' function found"), span: program.eof_span });
    }
    proof {
        let defs = spec_function_defs(ds);
        let w = choose|w: int| 0 <= w < checker.functions@.len() && checker.functions@[w].name@ == main_name@;
        assert(defs[w].name@ == "main"@);
        assert(spec_has_main(defs));
    }
    let mut declarations: Vec<TypedExternalDecl> = Vec::new();
    let mut i: usize = 0;
    while i < program.declarations.len()
        invariant
            ds == program.declarations@,
            i <= ds.len(),
            checker.inv(),
            checker.loop_depth == 0,
            spec_has_main(spec_function_defs(ds)),
            spec_defs_declarable(spec_function_defs(ds)),
            declarations@.len() == spec_function_defs(ds.take(i as int)).len(),
            forall|k: int| 0 <= k < declarations@.len() ==> (#[trigger] declarations@[k] matches TypedExternalDecl::Function(tf)
                && function_ok(tf) && spec_same_function(spec_function_defs(ds.take(i as int))[k], tf)),
        decreases ds.len() - i,
    {
        proof {
            lemma_function_defs_step(ds, i as int);
        }
        match &program.declarations[i] {
            ExternalDecl::FunctionDef(function) => {
                proof {
                    assert(ds[i as int] == ExternalDecl::FunctionDef(*function));
                }
                let tf = checker.check_function(function)?;
                declarations.push(TypedExternalDecl::Function(tf));
            },
            _ => {},
        }
        i = i + 1;
    }
    proof {
        assert(ds.take(i as int) =~= ds);
        let defs = spec_function_defs(ds);
        let w = choose|w: int| 0 <= w < defs.len() && (#[trigger] defs[w]).name@ == "main"@;
        assert(declarations@[w] matches TypedExternalDecl::Function(tf) && tf.name@ == "main"@);
    }
    Ok(TypedProgram { declarations, eof_span: program.eof_span })
}


/// Law (typing of integer binary operators): two integer operands always
/// combine. A comparison, an equality or a logical operator computes on the
/// usual arithmetic type of the operands and gives an `int`; a shift takes the
/// promoted type of its left operand, whatever the right one; every other
/// operator computes on and gives the usual arithmetic type.
pub proof fn law_integer_binary_types(op: BinaryOp, l: Type, r: Type)
    requires
        spec_is_integer(l),
        spec_is_integer(r),
    ensures
        spec_binary_types(op, l, r) matches Some(bt) && ({
            let usual = ty(spec_usual_arithmetic_type(l, r));
            let left = ty(spec_promoted(l).unwrap());
            if op == BinaryOp::ShiftLeft || op == BinaryOp::ShiftRight {
                bt.operand == left && bt.result == left
            } else if op == BinaryOp::Less || op == BinaryOp::LessEqual || op == BinaryOp::Greater || op
                == BinaryOp::GreaterEqual || op == BinaryOp::Equal || op == BinaryOp::NotEqual || op
                == BinaryOp::LogicalAnd || op == BinaryOp::LogicalOr {
                bt.operand == usual && bt.result == TypeModel::Int
            } else {
                bt.operand == usual && bt.result == usual
            }
        }),
{
}

/// The largest value of an integer type of 32 bits.
pub open spec fn c_type_max(t: Type) -> int {
    if t is Int || t is Long {
        0x7fff_ffff
    } else {
        0xffff_ffff
    }
}

/// Law (types of integer constants): the type given to a literal can hold its
/// value; a `U` suffix gives an unsigned type and an `L` suffix a `long` type;
/// an unsuffixed literal whose value fits `int` is an `int`, and an
/// unsuffixed hexadecimal one that does not is an `unsigned int` when it fits
/// that. A literal is refused only when no type its suffix allows can hold it.
pub proof fn law_literal_type(value: u64, suffix: IntLiteralSuffix, base: IntLiteralBase)
    ensures
        spec_literal_type(value, suffix, base) matches Some(t) ==> value <= c_type_max(t) && spec_is_integer(t) && (
        (suffix is Unsigned || suffix is UnsignedLong) ==> c_is_unsigned(t)) && (suffix is Long ==> !c_is_unsigned(t)) && (
        suffix is Unsuffixed && c_is_unsigned(t) ==> base is Hex && value > 0x7fff_ffff) && ((suffix is Long
            || suffix is UnsignedLong) <==> c_integer_rank(t) == 4),
        suffix is Unsuffixed && value <= 0x7fff_ffff ==> spec_literal_type(value, suffix, base) == Some(Type::Int),
        suffix is Unsuffixed && base is Hex && 0x7fff_ffff < value <= 0xffff_ffff ==> spec_literal_type(value, suffix, base)
            == Some(Type::UnsignedInt),
        spec_literal_type(value, suffix, base) is None ==> value > 0x7fff_ffff && (suffix is Unsigned || suffix is UnsignedLong
            || (suffix is Unsuffixed && base is Hex) ==> value > 0xffff_ffff),
{
}

} // verus!

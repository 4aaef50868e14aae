use crate::ast::{spec_is_integer, BinaryOp, Type, UnaryOp};
use crate::source::Span;
use vstd::prelude::*;
use vstd::wrapping::u64_specs;

verus! {

/// A checked program: its external declarations in order, and the span of its end.
#[derive(Debug, PartialEq, Eq)]
pub struct TypedProgram {
    pub declarations: Vec<TypedExternalDecl>,
    pub eof_span: Span,
}

#[derive(Debug, PartialEq, Eq)]
pub enum TypedExternalDecl {
    Function(TypedFunction),
    Typedef,
    Global(TypedGlobalDecl),
}

#[derive(Debug, PartialEq, Eq)]
pub struct TypedFunction {
    pub return_type: Type,
    pub name: String,
    pub name_span: Span,
    pub params: Vec<TypedParam>,
    pub body: Vec<TypedStatement>,
}

#[derive(Debug, PartialEq, Eq)]
pub struct TypedGlobalDecl {
    pub id: GlobalId,
    pub ty: Type,
    pub name: String,
    pub name_span: Span,
    pub init: Option<TypedInitializer>,
}

#[derive(Debug, Clone, PartialEq, Eq)]
pub struct TypedParam {
    pub id: LocalId,
    pub ty: Type,
    pub name: String,
    pub name_span: Span,
}

#[derive(Debug, PartialEq, Eq)]
pub struct TypedLocalDecl {
    pub id: LocalId,
    pub ty: Type,
    pub name: String,
    pub name_span: Span,
    pub init: Option<TypedInitializer>,
}

#[allow(inconsistent_fields)]
#[derive(Debug, PartialEq, Eq)]
pub enum TypedStatement {
    Decl(Vec<TypedLocalDecl>),
    Return(TypedExpr),
    Block(Vec<TypedStatement>),
    If { cond: TypedExpr, then_branch: Box<TypedStatement>, else_branch: Option<Box<TypedStatement>> },
    While { cond: TypedExpr, body: Box<TypedStatement> },
    DoWhile { body: Box<TypedStatement>, cond: TypedExpr },
    ExprStatement(TypedExpr),
    Empty,
    Break { span: Span },
    Continue { span: Span },
    For {
        init: Option<Box<TypedStatement>>,
        cond: Option<TypedExpr>,
        post: Option<TypedExpr>,
        body: Box<TypedStatement>,
    },
}

#[derive(Debug, PartialEq, Eq)]
pub enum TypedInitializer {
    Expr(TypedExpr),
    List(Vec<TypedExpr>),
}

/// An expression together with its type.
#[derive(Debug, PartialEq, Eq)]
pub struct TypedExpr {
    pub kind: TypedExprKind,
    pub ty: Type,
}

#[allow(inconsistent_fields)]
#[derive(Debug, PartialEq, Eq)]
pub enum TypedExprKind {
    IntLiteral { value: u64, span: Span },
    Variable { id: ObjectId, name: String, span: Span },
    Binary { op: BinaryOp, op_span: Span, operand_ty: Type, left: Box<TypedExpr>, right: Box<TypedExpr> },
    Unary { op: UnaryOp, op_span: Span, expr: Box<TypedExpr> },
    Call { callee: Box<TypedExpr>, args: Vec<TypedExpr>, span: Span },
    Assign { target: Box<TypedExpr>, op_span: Span, value: Box<TypedExpr> },
    CompoundAssign {
        target: Box<TypedExpr>,
        op: BinaryOp,
        op_span: Span,
        operand_ty: Type,
        value: Box<TypedExpr>,
    },
    PrefixInc { expr: Box<TypedExpr>, op_span: Span },
    PrefixDec { expr: Box<TypedExpr>, op_span: Span },
    PostfixInc { expr: Box<TypedExpr>, op_span: Span },
    PostfixDec { expr: Box<TypedExpr>, op_span: Span },
    Index { base: Box<TypedExpr>, index: Box<TypedExpr>, span: Span },
    Cast { target_ty: Type, expr: Box<TypedExpr>, span: Span },
    FunctionDesignator { name: String, name_span: Span },
    FunctionToPointer { expr: Box<TypedExpr>, span: Span },
    ArrayToPointer { expr: Box<TypedExpr>, span: Span },
    LvalueToRvalue { expr: Box<TypedExpr>, span: Span },
}

#[derive(Debug, Clone, Copy, PartialEq, Eq, Hash, Structural)]
pub struct LocalId(pub usize);

#[derive(Debug, Clone, Copy, PartialEq, Eq, Hash, Structural)]
pub struct GlobalId(pub usize);

#[derive(Debug, Clone, Copy, PartialEq, Eq, Hash, Structural)]
pub enum ObjectId {
    Local(LocalId),
    Global(GlobalId),
}

/// The span at which diagnostics about a typed expression point.
pub open spec fn spec_typed_diagnostic_span(e: TypedExpr) -> Span {
    match e.kind {
        TypedExprKind::IntLiteral { span, .. } => span,
        TypedExprKind::Variable { span, .. } => span,
        TypedExprKind::Index { span, .. } => span,
        TypedExprKind::Cast { span, .. } => span,
        TypedExprKind::Call { span, .. } => span,
        TypedExprKind::FunctionToPointer { span, .. } => span,
        TypedExprKind::ArrayToPointer { span, .. } => span,
        TypedExprKind::LvalueToRvalue { span, .. } => span,
        TypedExprKind::Unary { op_span, .. } => op_span,
        TypedExprKind::Binary { op_span, .. } => op_span,
        TypedExprKind::Assign { op_span, .. } => op_span,
        TypedExprKind::CompoundAssign { op_span, .. } => op_span,
        TypedExprKind::PrefixInc { op_span, .. } => op_span,
        TypedExprKind::PrefixDec { op_span, .. } => op_span,
        TypedExprKind::PostfixInc { op_span, .. } => op_span,
        TypedExprKind::PostfixDec { op_span, .. } => op_span,
        TypedExprKind::FunctionDesignator { name_span, .. } => name_span,
    }
}

/// One step of integer constant folding on 64-bit unsigned values, with the
/// wrapping semantics of the target-independent evaluator.
pub open spec fn spec_fold_binary(op: BinaryOp, l: u64, r: u64) -> Option<u64> {
    match op {
        BinaryOp::Add => Some(u64_specs::wrapping_add(l, r)),
        BinaryOp::Subtract => Some(u64_specs::wrapping_sub(l, r)),
        BinaryOp::Multiply => Some(u64_specs::wrapping_mul(l, r)),
        BinaryOp::Divide => if r != 0 { Some(l / r) } else { None },
        BinaryOp::Remainder => if r != 0 { Some(l % r) } else { None },
        BinaryOp::BitAnd => Some(l & r),
        BinaryOp::BitOr => Some(l | r),
        BinaryOp::BitXor => Some(l ^ r),
        BinaryOp::Equal => Some(if l == r { 1 } else { 0 }),
        BinaryOp::NotEqual => Some(if l != r { 1 } else { 0 }),
        BinaryOp::Greater => Some(if l > r { 1 } else { 0 }),
        BinaryOp::GreaterEqual => Some(if l >= r { 1 } else { 0 }),
        BinaryOp::Less => Some(if l < r { 1 } else { 0 }),
        BinaryOp::LessEqual => Some(if l <= r { 1 } else { 0 }),
        BinaryOp::LogicalAnd => Some(if l != 0 && r != 0 { 1 } else { 0 }),
        BinaryOp::LogicalOr => Some(if l != 0 || r != 0 { 1 } else { 0 }),
        BinaryOp::ShiftLeft => if r < 32 { Some(l << r) } else { None },
        BinaryOp::ShiftRight => if r < 32 { Some(l >> r) } else { None },
    }
}

/// The value of an integer constant expression: integer literals combined by
/// binary operators; `None` for anything else or an undefined operation.
pub open spec fn spec_eval_const(e: TypedExpr) -> Option<u64>
    decreases e,
{
    match e.kind {
        TypedExprKind::IntLiteral { value, .. } => Some(value),
        TypedExprKind::Binary { op, left, right, .. } => {
            match (spec_eval_const(*left), spec_eval_const(*right)) {
                (Some(l), Some(r)) => spec_fold_binary(op, l, r),
                _ => None,
            }
        },
        _ => None,
    }
}

/// An integer-typed constant expression whose value is 0.
pub open spec fn spec_is_null_pointer_constant(e: TypedExpr) -> bool {
    spec_is_integer(e.ty) && spec_eval_const(e) == Some(0u64)
}

pub fn fold_binary(op: BinaryOp, l: u64, r: u64) -> (v: Option<u64>)
    ensures
        v == spec_fold_binary(op, l, r),
{
    match op {
        BinaryOp::Add => Some(l.wrapping_add(r)),
        BinaryOp::Subtract => Some(l.wrapping_sub(r)),
        BinaryOp::Multiply => Some(l.wrapping_mul(r)),
        BinaryOp::Divide => if r != 0 { Some(l / r) } else { None },
        BinaryOp::Remainder => if r != 0 { Some(l % r) } else { None },
        BinaryOp::BitAnd => Some(l & r),
        BinaryOp::BitOr => Some(l | r),
        BinaryOp::BitXor => Some(l ^ r),
        BinaryOp::Equal => Some(if l == r { 1 } else { 0 }),
        BinaryOp::NotEqual => Some(if l != r { 1 } else { 0 }),
        BinaryOp::Greater => Some(if l > r { 1 } else { 0 }),
        BinaryOp::GreaterEqual => Some(if l >= r { 1 } else { 0 }),
        BinaryOp::Less => Some(if l < r { 1 } else { 0 }),
        BinaryOp::LessEqual => Some(if l <= r { 1 } else { 0 }),
        BinaryOp::LogicalAnd => Some(if l != 0 && r != 0 { 1 } else { 0 }),
        BinaryOp::LogicalOr => Some(if l != 0 || r != 0 { 1 } else { 0 }),
        BinaryOp::ShiftLeft => if r < 32 { Some(l << r) } else { None },
        BinaryOp::ShiftRight => if r < 32 { Some(l >> r) } else { None },
    }
}

impl TypedExpr {
    pub fn diagnostic_span(&self) -> (s: Span)
        ensures
            s == spec_typed_diagnostic_span(*self),
    {
        match &self.kind {
            TypedExprKind::IntLiteral { span, .. } => *span,
            TypedExprKind::Variable { span, .. } => *span,
            TypedExprKind::Index { span, .. } => *span,
            TypedExprKind::Cast { span, .. } => *span,
            TypedExprKind::Call { span, .. } => *span,
            TypedExprKind::FunctionToPointer { span, .. } => *span,
            TypedExprKind::ArrayToPointer { span, .. } => *span,
            TypedExprKind::LvalueToRvalue { span, .. } => *span,
            TypedExprKind::Unary { op_span, .. } => *op_span,
            TypedExprKind::Binary { op_span, .. } => *op_span,
            TypedExprKind::Assign { op_span, .. } => *op_span,
            TypedExprKind::CompoundAssign { op_span, .. } => *op_span,
            TypedExprKind::PrefixInc { op_span, .. } => *op_span,
            TypedExprKind::PrefixDec { op_span, .. } => *op_span,
            TypedExprKind::PostfixInc { op_span, .. } => *op_span,
            TypedExprKind::PostfixDec { op_span, .. } => *op_span,
            TypedExprKind::FunctionDesignator { name_span, .. } => *name_span,
        }
    }

    /// An integer expression that folds to the constant 0.
    pub fn is_null_pointer_constant(&self) -> (b: bool)
        ensures
            b == spec_is_null_pointer_constant(*self),
    {
        self.ty.is_integer() && match self.eval_int_constant_expr() {
            Some(v) => v == 0,
            None => false,
        }
    }

    /// Folds an integer constant expression made of literals and binary operators.
    pub fn eval_int_constant_expr(&self) -> (v: Option<u64>)
        ensures
            v == spec_eval_const(*self),
        decreases self,
    {
        match &self.kind {
            TypedExprKind::IntLiteral { value, .. } => Some(*value),
            TypedExprKind::Binary { op, left, right, .. } => {
                match left.eval_int_constant_expr() {
                    Some(l) => match right.eval_int_constant_expr() {
                        Some(r) => fold_binary(*op, l, r),
                        None => None,
                    },
                    None => None,
                }
            },
            _ => None,
        }
    }
}

} // verus!

use crate::source::Span;
use vstd::prelude::*;

verus! {

/// A translation unit: its external declarations in order, and the span of its end.
#[derive(Debug, PartialEq, Eq)]
pub struct Program {
    pub declarations: Vec<ExternalDecl>,
    pub eof_span: Span,
}

#[derive(Debug, PartialEq, Eq)]
pub enum ExternalDecl {
    FunctionDecl(FunctionDecl),
    FunctionDef(FunctionDef),
    Typedef(Typedef),
    Global(GlobalDecl),
}

#[derive(Debug, Clone, PartialEq, Eq)]
pub struct Typedef {
    pub name: String,
    pub name_span: Span,
    pub ty: Type,
}

#[derive(Debug, PartialEq, Eq)]
pub struct FunctionType {
    pub return_type: Box<Type>,
    pub params: Vec<Type>,
}

#[derive(Debug, PartialEq, Eq)]
pub struct FunctionDef {
    pub return_type: Type,
    pub name: String,
    pub name_span: Span,
    pub params: Vec<Param>,
    pub body: Vec<Statement>,
}

#[derive(Debug, Clone, PartialEq, Eq)]
pub struct FunctionDecl {
    pub return_type: Type,
    pub name: String,
    pub name_span: Span,
    pub params: Vec<ParamDecl>,
}

#[derive(Debug, PartialEq, Eq)]
pub struct GlobalDecl {
    pub ty: Type,
    pub name: String,
    pub name_span: Span,
    pub init: Option<Initializer>,
}

#[derive(Debug, Clone, PartialEq, Eq)]
pub struct ParamDecl {
    pub ty: Type,
    pub name: Option<String>,
    pub name_span: Option<Span>,
}

#[derive(Debug, Clone, PartialEq, Eq)]
pub struct Param {
    pub ty: Type,
    pub name: String,
    pub name_span: Span,
}

#[derive(Debug, PartialEq, Eq)]
pub struct LocalDecl {
    pub ty: Type,
    pub name: String,
    pub name_span: Span,
    pub init: Option<Initializer>,
}

#[allow(inconsistent_fields)]
#[derive(Debug, PartialEq, Eq)]
pub enum Statement {
    Decl(Vec<LocalDecl>),
    Return(Expr),
    Block(Vec<Statement>),
    If { cond: Expr, then_branch: Box<Statement>, else_branch: Option<Box<Statement>> },
    While { cond: Expr, body: Box<Statement> },
    DoWhile { body: Box<Statement>, cond: Expr },
    ExprStatement(Expr),
    Empty,
    Break { span: Span },
    Continue { span: Span },
    For {
        init: Option<Box<Statement>>,
        cond: Option<Expr>,
        post: Option<Expr>,
        body: Box<Statement>,
    },
}

#[derive(Debug, PartialEq, Eq)]
pub enum Initializer {
    Expr(Expr),
    List(Vec<Expr>),
}

#[allow(inconsistent_fields)]
#[derive(Debug, PartialEq, Eq)]
pub enum Expr {
    IntLiteral { value: u64, suffix: IntLiteralSuffix, base: IntLiteralBase, span: Span },
    Variable { name: String, span: Span },
    Binary { op: BinaryOp, op_span: Span, left: Box<Expr>, right: Box<Expr> },
    Unary { op: UnaryOp, op_span: Span, expr: Box<Expr> },
    Call { callee: Box<Expr>, args: Vec<Expr>, span: Span },
    Assign { target: Box<Expr>, op_span: Span, value: Box<Expr> },
    CompoundAssign { target: Box<Expr>, op: BinaryOp, op_span: Span, value: Box<Expr> },
    PrefixInc { expr: Box<Expr>, op_span: Span },
    PrefixDec { expr: Box<Expr>, op_span: Span },
    PostfixInc { expr: Box<Expr>, op_span: Span },
    PostfixDec { expr: Box<Expr>, op_span: Span },
    Index { base: Box<Expr>, index: Box<Expr>, span: Span },
    Cast { ty: Type, expr: Box<Expr>, span: Span },
    SizeOfType { ty: Type, span: Span },
    SizeOfExpr { expr: Box<Expr>, span: Span },
    StringLiteral { bytes: Vec<u8>, span: Span },
}

/// The span at which diagnostics about an expression point: the operator for
/// operator expressions, the expression's own span otherwise.
pub open spec fn spec_expr_diagnostic_span(e: Expr) -> Span {
    match e {
        Expr::IntLiteral { span, .. } => span,
        Expr::Variable { span, .. } => span,
        Expr::Index { span, .. } => span,
        Expr::Cast { span, .. } => span,
        Expr::Call { span, .. } => span,
        Expr::SizeOfType { span, .. } => span,
        Expr::SizeOfExpr { span, .. } => span,
        Expr::StringLiteral { span, .. } => span,
        Expr::Unary { op_span, .. } => op_span,
        Expr::Binary { op_span, .. } => op_span,
        Expr::Assign { op_span, .. } => op_span,
        Expr::CompoundAssign { op_span, .. } => op_span,
        Expr::PrefixInc { op_span, .. } => op_span,
        Expr::PrefixDec { op_span, .. } => op_span,
        Expr::PostfixInc { op_span, .. } => op_span,
        Expr::PostfixDec { op_span, .. } => op_span,
    }
}

impl Expr {
    pub fn diagnostic_span(&self) -> (s: Span)
        ensures
            s == spec_expr_diagnostic_span(*self),
    {
        match self {
            Expr::IntLiteral { span, .. } => *span,
            Expr::Variable { span, .. } => *span,
            Expr::Index { span, .. } => *span,
            Expr::Cast { span, .. } => *span,
            Expr::Call { span, .. } => *span,
            Expr::SizeOfType { span, .. } => *span,
            Expr::SizeOfExpr { span, .. } => *span,
            Expr::StringLiteral { span, .. } => *span,
            Expr::Unary { op_span, .. } => *op_span,
            Expr::Binary { op_span, .. } => *op_span,
            Expr::Assign { op_span, .. } => *op_span,
            Expr::CompoundAssign { op_span, .. } => *op_span,
            Expr::PrefixInc { op_span, .. } => *op_span,
            Expr::PrefixDec { op_span, .. } => *op_span,
            Expr::PostfixInc { op_span, .. } => *op_span,
            Expr::PostfixDec { op_span, .. } => *op_span,
        }
    }
}

#[derive(Debug, Clone, Copy, PartialEq, Eq, Structural)]
pub enum BinaryOp {
    Add,
    Subtract,
    Multiply,
    Divide,
    Remainder,
    Equal,
    NotEqual,
    Less,
    LessEqual,
    Greater,
    GreaterEqual,
    BitAnd,
    BitXor,
    BitOr,
    ShiftLeft,
    ShiftRight,
    LogicalAnd,
    LogicalOr,
}

#[derive(Debug, Clone, Copy, PartialEq, Eq, Structural)]
pub enum UnaryOp {
    Negate,
    LogicalNot,
    BitwiseNot,
    Dereference,
    AddressOf,
}

#[derive(Debug, Clone, Copy, PartialEq, Eq, Structural)]
pub enum IntLiteralSuffix {
    Unsuffixed,
    Unsigned,
    Long,
    UnsignedLong,
}

#[derive(Debug, Clone, Copy, PartialEq, Eq, Structural)]
pub enum IntLiteralBase {
    Decimal,
    Hex,
}

impl IntLiteralBase {
    pub open spec fn spec_radix(self) -> u32 {
        match self {
            IntLiteralBase::Decimal => 10,
            IntLiteralBase::Hex => 16,
        }
    }

    pub fn radix(&self) -> (r: u32)
        ensures
            r == self.spec_radix(),
    {
        match self {
            IntLiteralBase::Decimal => 10,
            IntLiteralBase::Hex => 16,
        }
    }
}

#[derive(Debug, PartialEq, Eq)]
pub enum Type {
    Int,
    UnsignedInt,
    Char,
    SignedChar,
    UnsignedChar,
    Long,
    UnsignedLong,
    Pointer(Box<Type>),
    Array { element: Box<Type>, len: usize },
    Function(Box<FunctionType>),
}

/// The mathematical model of a type: the same tree, with sequences in place of vectors.
pub enum TypeModel {
    Int,
    UnsignedInt,
    Char,
    SignedChar,
    UnsignedChar,
    Long,
    UnsignedLong,
    Pointer(Box<TypeModel>),
    Array { element: Box<TypeModel>, len: usize },
    Function { return_type: Box<TypeModel>, params: Seq<TypeModel> },
}

/// The model of a type.
pub open spec fn ty(t: Type) -> TypeModel
    decreases t,
{
    match t {
        Type::Int => TypeModel::Int,
        Type::UnsignedInt => TypeModel::UnsignedInt,
        Type::Char => TypeModel::Char,
        Type::SignedChar => TypeModel::SignedChar,
        Type::UnsignedChar => TypeModel::UnsignedChar,
        Type::Long => TypeModel::Long,
        Type::UnsignedLong => TypeModel::UnsignedLong,
        Type::Pointer(inner) => TypeModel::Pointer(Box::new(ty(*inner))),
        Type::Array { element, len } => TypeModel::Array { element: Box::new(ty(*element)), len },
        Type::Function(f) => {
            proof {
                assert(decreases_to!(f.params => f.params@));
            }
            TypeModel::Function { return_type: Box::new(ty(*f.return_type)), params: tys(f.params@) }
        },
    }
}

/// The models of a sequence of types.
pub open spec fn tys(s: Seq<Type>) -> Seq<TypeModel>
    decreases s,
{
    if s.len() == 0 {
        Seq::empty()
    } else {
        proof {
            assert(decreases_to!(s => s[s.len() - 1]));
            assert(decreases_to!(s => s.drop_last()));
        }
        tys(s.drop_last()).push(ty(s[s.len() - 1]))
    }
}

pub proof fn lemma_tys_len_index(s: Seq<Type>)
    ensures
        tys(s).len() == s.len(),
        forall|i: int| 0 <= i < s.len() ==> #[trigger] tys(s)[i] == ty(s[i]),
    decreases s.len(),
{
    if s.len() > 0 {
        lemma_tys_len_index(s.drop_last());
    }
}

/// A copy of a type.
pub fn clone_type(t: &Type) -> (r: Type)
    ensures
        ty(r) == ty(*t),
    decreases t,
{
    match t {
        Type::Int => Type::Int,
        Type::UnsignedInt => Type::UnsignedInt,
        Type::Char => Type::Char,
        Type::SignedChar => Type::SignedChar,
        Type::UnsignedChar => Type::UnsignedChar,
        Type::Long => Type::Long,
        Type::UnsignedLong => Type::UnsignedLong,
        Type::Pointer(inner) => Type::Pointer(Box::new(clone_type(inner))),
        Type::Array { element, len } => Type::Array { element: Box::new(clone_type(element)), len: *len },
        Type::Function(f) => Type::Function(Box::new(clone_function_type(f))),
    }
}

/// A copy of a function type.
pub fn clone_function_type(f: &FunctionType) -> (r: FunctionType)
    ensures
        ty(*r.return_type) == ty(*f.return_type),
        tys(r.params@) == tys(f.params@),
    decreases f,
{
    let return_type = clone_type(&f.return_type);
    proof {
        assert(decreases_to!(f.params => f.params@));
    }
    let params = clone_types(&f.params);
    FunctionType { return_type: Box::new(return_type), params }
}

/// A copy of a list of types.
pub fn clone_types(ts: &Vec<Type>) -> (r: Vec<Type>)
    ensures
        tys(r@) == tys(ts@),
    decreases ts@,
{
    let mut out: Vec<Type> = Vec::new();
    let mut i: usize = 0;
    while i < ts.len()
        invariant
            i <= ts.len(),
            tys(out@) == tys(ts@.take(i as int)),
            out@.len() == i,
        decreases ts.len() - i,
    {
        proof {
            assert(decreases_to!(ts@ => ts@[i as int]));
        }
        let c = clone_type(&ts[i]);
        let ghost old_out = out@;
        out.push(c);
        i = i + 1;
        proof {
            assert(out@.drop_last() =~= old_out);
            assert(ts@.take(i as int).drop_last() =~= ts@.take(i - 1));
        }
    }
    proof {
        assert(ts@.take(i as int) =~= ts@);
    }
    out
}

impl Clone for Type {
    fn clone(&self) -> (r: Self)
        ensures
            ty(r) == ty(*self),
    {
        clone_type(self)
    }
}

impl Clone for FunctionType {
    fn clone(&self) -> (r: Self)
        ensures
            ty(*r.return_type) == ty(*self.return_type),
            tys(r.params@) == tys(self.params@),
    {
        clone_function_type(self)
    }
}

/// The integer types.
pub open spec fn spec_is_integer(t: Type) -> bool {
    match t {
        Type::Int | Type::Char | Type::UnsignedChar | Type::SignedChar | Type::UnsignedInt
        | Type::Long | Type::UnsignedLong => true,
        _ => false,
    }
}

/// A scalar type: an integer or a pointer, held in one register.
pub open spec fn spec_is_scalar(t: Type) -> bool {
    spec_is_integer(t) || t is Pointer
}

/// Types that have a size: every type without a function type at its top or
/// as an array element (function types may still stand behind pointers).
pub open spec fn spec_is_sized(t: Type) -> bool
    decreases t,
{
    match t {
        Type::Function(_) => false,
        Type::Array { element, .. } => spec_is_sized(*element),
        _ => true,
    }
}

/// The size of values of type `t` in bytes on RV32.
pub open spec fn spec_size(t: Type) -> nat
    decreases t,
{
    match t {
        Type::Char | Type::SignedChar | Type::UnsignedChar => 1,
        Type::Int | Type::UnsignedInt | Type::Pointer(_) | Type::Long | Type::UnsignedLong => 4,
        Type::Array { element, len } => spec_size(*element) * (len as nat),
        Type::Function(_) => 0,
    }
}

/// The size of `t` and of every element type inside it fits in a `usize`.
pub open spec fn spec_size_fits(t: Type) -> bool
    decreases t,
{
    &&& spec_size(t) <= usize::MAX
    &&& match t {
        Type::Array { element, .. } => spec_size_fits(*element),
        _ => true,
    }
}

/// The alignment of objects of type `t` in bytes.
pub open spec fn spec_align(t: Type) -> nat
    decreases t,
{
    match t {
        Type::Array { element, .. } => spec_align(*element),
        _ => spec_size(t),
    }
}

/// The type after integer promotion, for integer types.
pub open spec fn spec_promoted(t: Type) -> Option<Type> {
    match t {
        Type::Char | Type::UnsignedChar | Type::SignedChar | Type::Int => Some(Type::Int),
        Type::UnsignedInt => Some(Type::UnsignedInt),
        Type::Long => Some(Type::Long),
        Type::UnsignedLong => Some(Type::UnsignedLong),
        _ => None,
    }
}

/// The common type of the usual arithmetic conversions on two promoted integer types.
pub open spec fn spec_usual_arithmetic_type(left: Type, right: Type) -> Type {
    let l = spec_promoted(left).unwrap();
    let r = spec_promoted(right).unwrap();
    if l == Type::UnsignedLong || r == Type::UnsignedLong || ((l == Type::Long || r == Type::Long)
        && (l == Type::UnsignedInt || r == Type::UnsignedInt)) {
        Type::UnsignedLong
    } else if l == Type::Long || r == Type::Long {
        Type::Long
    } else if l == Type::UnsignedInt || r == Type::UnsignedInt {
        Type::UnsignedInt
    } else {
        Type::Int
    }
}

/// Assignment compatibility: the same type, or two integer types.
pub open spec fn spec_is_assignable_from(target: Type, value: Type) -> bool {
    ty(target) == ty(value) || (spec_is_integer(target) && spec_is_integer(value))
}

/// Structural equality of two types.
pub fn type_eq(a: &Type, b: &Type) -> (r: bool)
    ensures
        r == (ty(*a) == ty(*b)),
    decreases a,
{
    match (a, b) {
        (Type::Int, Type::Int) => true,
        (Type::UnsignedInt, Type::UnsignedInt) => true,
        (Type::Char, Type::Char) => true,
        (Type::SignedChar, Type::SignedChar) => true,
        (Type::UnsignedChar, Type::UnsignedChar) => true,
        (Type::Long, Type::Long) => true,
        (Type::UnsignedLong, Type::UnsignedLong) => true,
        (Type::Pointer(x), Type::Pointer(y)) => type_eq(x, y),
        (Type::Array { element: x, len: n }, Type::Array { element: y, len: m }) => {
            *n == *m && type_eq(x, y)
        },
        (Type::Function(f), Type::Function(g)) => {
            if !type_eq(&f.return_type, &g.return_type) {
                return false;
            }
            proof {
                assert(decreases_to!(f.params => f.params@));
            }
            types_eq(&f.params, &g.params)
        },
        _ => false,
    }
}

/// Element-wise structural equality of two lists of types.
pub fn types_eq(a: &Vec<Type>, b: &Vec<Type>) -> (r: bool)
    ensures
        r == (tys(a@) == tys(b@)),
    decreases a@,
{
    proof {
        lemma_tys_len_index(a@);
        lemma_tys_len_index(b@);
    }
    if a.len() != b.len() {
        return false;
    }
    let mut i: usize = 0;
    while i < a.len()
        invariant
            a@.len() == b@.len(),
            i <= a@.len(),
            tys(a@).len() == a@.len(),
            tys(b@).len() == b@.len(),
            forall|k: int| 0 <= k < a@.len() ==> #[trigger] tys(a@)[k] == ty(a@[k]),
            forall|k: int| 0 <= k < b@.len() ==> #[trigger] tys(b@)[k] == ty(b@[k]),
            forall|k: int| 0 <= k < i ==> tys(a@)[k] == tys(b@)[k],
        decreases a.len() - i,
    {
        proof {
            assert(decreases_to!(a@ => a@[i as int]));
        }
        if !type_eq(&a[i], &b[i]) {
            proof {
                assert(tys(a@)[i as int] != tys(b@)[i as int]);
            }
            return false;
        }
        i = i + 1;
    }
    proof {
        assert(tys(a@) =~= tys(b@));
    }
    true
}

impl Type {
    pub fn is_integer(&self) -> (r: bool)
        ensures
            r == spec_is_integer(*self),
    {
        match self {
            Type::Int | Type::Char | Type::UnsignedChar | Type::SignedChar | Type::UnsignedInt
            | Type::Long | Type::UnsignedLong => true,
            _ => false,
        }
    }

    pub fn is_pointer(&self) -> (r: bool)
        ensures
            r == (*self is Pointer),
    {
        match self {
            Type::Pointer(_) => true,
            _ => false,
        }
    }

    /// The size of values of this type in bytes. Function types have none.
    pub fn size(&self) -> (n: usize)
        requires
            spec_is_sized(*self),
            spec_size_fits(*self),
        ensures
            n == spec_size(*self),
        decreases self,
    {
        match self {
            Type::Char | Type::SignedChar | Type::UnsignedChar => 1,
            Type::Int | Type::UnsignedInt | Type::Pointer(_) | Type::Long | Type::UnsignedLong => 4,
            Type::Array { element, len } => {
                let e = element.size();
                proof {
                    assert(spec_size(*self) == e * *len);
                }
                e * *len
            },
            Type::Function(_) => 0,
        }
    }

    /// The alignment of objects of this type in bytes. Function types have none.
    pub fn align(&self) -> (n: usize)
        requires
            spec_is_sized(*self),
            spec_size_fits(*self),
        ensures
            n == spec_align(*self),
        decreases self,
    {
        match self {
            Type::Array { element, .. } => element.align(),
            _ => self.size(),
        }
    }

    pub fn is_assignable_from(&self, value: &Type) -> (r: bool)
        ensures
            r == spec_is_assignable_from(*self, *value),
    {
        type_eq(self, value) || (self.is_integer() && value.is_integer())
    }

    pub fn promoted(&self) -> (r: Option<Type>)
        ensures
            r == spec_promoted(*self),
    {
        match self {
            Type::Char | Type::UnsignedChar | Type::SignedChar | Type::Int => Some(Type::Int),
            Type::UnsignedInt => Some(Type::UnsignedInt),
            Type::Long => Some(Type::Long),
            Type::UnsignedLong => Some(Type::UnsignedLong),
            _ => None,
        }
    }

    /// The common type after integer promotions and the usual arithmetic conversions.
    pub fn usual_arithmetic_type(left: &Type, right: &Type) -> (t: Type)
        requires
            spec_is_integer(*left),
            spec_is_integer(*right),
        ensures
            t == spec_usual_arithmetic_type(*left, *right),
    {
        let l = match left.promoted() {
            Some(t) => t,
            None => Type::Int,
        };
        let r = match right.promoted() {
            Some(t) => t,
            None => Type::Int,
        };
        let l_ulong = matches!(l, Type::UnsignedLong);
        let r_ulong = matches!(r, Type::UnsignedLong);
        let l_long = matches!(l, Type::Long);
        let r_long = matches!(r, Type::Long);
        let l_uint = matches!(l, Type::UnsignedInt);
        let r_uint = matches!(r, Type::UnsignedInt);
        if l_ulong || r_ulong || ((l_long || r_long) && (l_uint || r_uint)) {
            Type::UnsignedLong
        } else if l_long || r_long {
            Type::Long
        } else if l_uint || r_uint {
            Type::UnsignedInt
        } else {
            Type::Int
        }
    }
}


/// The C integer conversion rank of an integer type: the character types,
/// then `int`, then `long`.
pub open spec fn c_integer_rank(t: Type) -> int {
    match t {
        Type::Char | Type::UnsignedChar | Type::SignedChar => 1,
        Type::Int | Type::UnsignedInt => 3,
        Type::Long | Type::UnsignedLong => 4,
        _ => 0,
    }
}

/// The unsigned integer types.
pub open spec fn c_is_unsigned(t: Type) -> bool {
    t is UnsignedChar || t is UnsignedInt || t is UnsignedLong
}

/// Law (integer promotions): a type of rank below `int` is promoted to `int`,
/// whose 32 bits hold all its values; `int`, `long` and their unsigned forms
/// stay as they are.
pub proof fn law_integer_promotion(t: Type)
    requires
        spec_is_integer(t),
    ensures
        spec_promoted(t) matches Some(p) && (c_integer_rank(t) < 3 ==> p == Type::Int) && (c_integer_rank(t) >= 3 ==> p == t),
{
}

/// Law (usual arithmetic conversions, with 32-bit `int` and `long`): the
/// common type of two integer operands has the greater rank of their promoted
/// types, and is unsigned exactly when one of them is unsigned, since neither
/// `int` nor `long` holds every `unsigned int` value. So `int` with `unsigned
/// int` gives `unsigned int`, and `long` with `unsigned int` gives `unsigned long`.
pub proof fn law_usual_arithmetic_conversions(left: Type, right: Type)
    requires
        spec_is_integer(left),
        spec_is_integer(right),
    ensures
        ({
            let l = spec_promoted(left).unwrap();
            let r = spec_promoted(right).unwrap();
            let t = spec_usual_arithmetic_type(left, right);
            &&& spec_is_integer(t)
            &&& c_integer_rank(t) == if c_integer_rank(l) >= c_integer_rank(r) { c_integer_rank(l) } else { c_integer_rank(r) }
            &&& c_integer_rank(t) >= 3
            &&& (c_is_unsigned(t) <==> c_is_unsigned(l) || c_is_unsigned(r))
        }),
{
}

} // verus!

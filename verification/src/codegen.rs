//! RV32 assembly generation from a checked program.
use crate::ast::{spec_align, spec_is_integer, spec_is_scalar, spec_is_sized, spec_size, spec_size_fits, BinaryOp, Type, UnaryOp};
use crate::text::{push_i64, push_str, push_u64, spec_decimal, spec_signed_decimal};
use crate::typed_ast::{
    LocalId, ObjectId, TypedExpr, TypedExprKind, TypedExternalDecl, TypedFunction, TypedInitializer,
    TypedLocalDecl, TypedParam, TypedProgram, TypedStatement,
};
use vstd::arithmetic::power2::pow2;
use vstd::prelude::*;

verus! {

#[derive(Debug, Clone, Copy, PartialEq, Eq, Structural)]
pub enum CodegenTarget {
    Rv32,
}

/// An instruction line: four spaces of indentation, the text, a newline.
pub open spec fn ln(s: Seq<char>) -> Seq<char> {
    "    "@ + s + "\n"@
}

/// A label definition line.
pub open spec fn label_line(l: Seq<char>) -> Seq<char> {
    l + ":\n"@
}

/// `value` rounded up to a multiple of `align`.
pub open spec fn align_to(value: int, align: int) -> int {
    (value + align - 1) / align * align
}

/// The largest number of bytes of locals a frame may hold.
pub open spec fn layout_limit() -> int {
    0x7fff_ffe0
}

/// The locals of a declaration statement, in order.
pub open spec fn decl_slots(ds: Seq<TypedLocalDecl>) -> Seq<(LocalId, Type)> {
    Seq::new(ds.len(), |k: int| (ds[k].id, ds[k].ty))
}

/// The locals declared in a statement and the statements inside it, in order.
pub open spec fn stmt_slots(s: TypedStatement) -> Seq<(LocalId, Type)>
    decreases s,
{
    match s {
        TypedStatement::Decl(ds) => decl_slots(ds@),
        TypedStatement::Block(body) => stmts_slots(body@),
        TypedStatement::If { then_branch, else_branch, .. } => stmt_slots(*then_branch) + (match else_branch {
            Some(e) => stmt_slots(*e),
            None => Seq::empty(),
        }),
        TypedStatement::While { body, .. } => stmt_slots(*body),
        TypedStatement::DoWhile { body, .. } => stmt_slots(*body),
        TypedStatement::For { init, body, .. } => (match init {
            Some(i) => stmt_slots(*i),
            None => Seq::empty(),
        }) + stmt_slots(*body),
        _ => Seq::empty(),
    }
}

/// The locals declared in a sequence of statements, in order.
pub open spec fn stmts_slots(ss: Seq<TypedStatement>) -> Seq<(LocalId, Type)>
    decreases ss,
{
    if ss.len() == 0 {
        Seq::empty()
    } else {
        proof {
            assert(decreases_to!(ss => ss[ss.len() - 1]));
            assert(decreases_to!(ss => ss.drop_last()));
        }
        stmts_slots(ss.drop_last()) + stmt_slots(ss[ss.len() - 1])
    }
}

/// The parameters of a function as locals.
pub open spec fn param_slots(ps: Seq<TypedParam>) -> Seq<(LocalId, Type)> {
    Seq::new(ps.len(), |k: int| (ps[k].id, ps[k].ty))
}

/// Every local of a function in frame order: parameters first, then declarations.
pub open spec fn function_slots(f: TypedFunction) -> Seq<(LocalId, Type)> {
    param_slots(f.params@) + stmts_slots(f.body@)
}

/// The bytes used after laying out `ts` from `start`: each object is aligned, then its size added.
pub open spec fn fold_bytes(start: int, ts: Seq<(LocalId, Type)>) -> int
    decreases ts.len(),
{
    if ts.len() == 0 {
        start
    } else {
        align_to(fold_bytes(start, ts.drop_last()), spec_align(ts.last().1) as int) + spec_size(ts.last().1)
    }
}

/// Every object has a size, and laying them out from `start` stays within `layout_limit()`.
pub open spec fn layout_fits(start: int, ts: Seq<(LocalId, Type)>) -> bool
    decreases ts.len(),
{
    if ts.len() == 0 {
        0 <= start <= layout_limit()
    } else {
        &&& layout_fits(start, ts.drop_last())
        &&& spec_is_sized(ts.last().1)
        &&& spec_size_fits(ts.last().1)
        &&& fold_bytes(start, ts.drop_last()) + spec_align(ts.last().1) + spec_size(ts.last().1) <= layout_limit()
    }
}

/// The frame model of laid-out objects: each local with its offset from the
/// frame pointer, below the two saved registers, and its type.
pub open spec fn frame_model(start: int, ts: Seq<(LocalId, Type)>) -> Seq<(LocalId, int, Type)>
    decreases ts.len(),
{
    if ts.len() == 0 {
        Seq::empty()
    } else {
        frame_model(start, ts.drop_last()).push((ts.last().0, -8 - fold_bytes(start, ts), ts.last().1))
    }
}

/// The frame of a function: its locals laid out from zero.
pub open spec fn spec_frame(f: TypedFunction) -> Seq<(LocalId, int, Type)> {
    frame_model(0, function_slots(f))
}

/// The frame size of a function: its locals and the two saved registers, rounded up to 16.
pub open spec fn spec_frame_size(f: TypedFunction) -> int {
    (fold_bytes(0, function_slots(f)) + 8 + 15) / 16 * 16
}

/// The slot of a local: the last one recorded under its id.
pub open spec fn lookup(fr: Seq<(LocalId, int, Type)>, id: LocalId) -> Option<(int, Type)>
    decreases fr.len(),
{
    if fr.len() == 0 {
        None
    } else if fr.last().0 == id {
        Some((fr.last().1, fr.last().2))
    } else {
        lookup(fr.drop_last(), id)
    }
}

pub proof fn lemma_align_to(v: int, a: int)
    requires
        v >= 0,
        a >= 1,
    ensures
        v <= align_to(v, a) < v + a,
        align_to(v, a) % a == 0,
{
    assert((v + a - 1) / a * a <= v + a - 1) by (nonlinear_arith)
        requires
            v >= 0,
            a >= 1,
    ;
    assert((v + a - 1) / a * a > v - 1) by (nonlinear_arith)
        requires
            v >= 0,
            a >= 1,
    ;
    assert(((v + a - 1) / a * a) % a == 0) by (nonlinear_arith)
        requires
            a >= 1,
    ;
}

pub proof fn lemma_align_positive(t: Type)
    requires
        spec_is_sized(t),
    ensures
        spec_align(t) >= 1,
    decreases t,
{
    match t {
        Type::Array { element, .. } => lemma_align_positive(*element),
        _ => {},
    }
}

pub proof fn lemma_fold_bytes_fits(start: int, ts: Seq<(LocalId, Type)>)
    requires
        layout_fits(start, ts),
    ensures
        start <= fold_bytes(start, ts) <= layout_limit(),
        0 <= start,
    decreases ts.len(),
{
    if ts.len() > 0 {
        lemma_fold_bytes_fits(start, ts.drop_last());
        lemma_align_positive(ts.last().1);
        lemma_align_to(fold_bytes(start, ts.drop_last()), spec_align(ts.last().1) as int);
    }
}

/// A frame slot of a local: its offset from the frame pointer, size and alignment, and its type.
#[derive(Clone, Copy)]
pub struct FrameSlot<'a> {
    pub offset: i32,
    pub size: i32,
    pub align: i32,
    pub ty: &'a Type,
}

/// The stack frame of a function: its size and the slots of its locals.
pub struct FrameLayout<'a> {
    pub size: i32,
    pub locals: Vec<(LocalId, FrameSlot<'a>)>,
}

/// The frame model of recorded slots.
pub open spec fn frame_view(locals: Seq<(LocalId, FrameSlot)>) -> Seq<(LocalId, int, Type)> {
    Seq::new(locals.len(), |k: int| (locals[k].0, locals[k].1.offset as int, *locals[k].1.ty))
}

impl<'a> FrameLayout<'a> {
    /// The frame of a function: parameters, then every declared local, each
    /// aligned and placed below the previous one; the size holds them and the
    /// saved `ra` and `s0`, rounded up to 16 bytes.
    pub fn for_function(function: &'a TypedFunction) -> (r: FrameLayout<'a>)
        requires
            layout_fits(0, function_slots(*function)),
        ensures
            frame_view(r.locals@) == spec_frame(*function),
            r.size == spec_frame_size(*function),
    {
        let mut layout = FrameLayout { size: 0, locals: Vec::new() };
        let mut local_bytes: i32 = 0;
        let ghost ps = param_slots(function.params@);
        let ghost all = function_slots(*function);
        proof {
            lemma_fits_split(0, ps, stmts_slots(function.body@));
            assert(all == ps + stmts_slots(function.body@));
        }
        let mut i: usize = 0;
        while i < function.params.len()
            invariant
                i <= function.params@.len(),
                ps == param_slots(function.params@),
                layout_fits(0, ps),
                local_bytes == fold_bytes(0, ps.take(i as int)),
                frame_view(layout.locals@) == frame_model(0, ps.take(i as int)),
            decreases function.params.len() - i,
        {
            let param = &function.params[i];
            proof {
                assert(ps.take(i as int + 1).drop_last() =~= ps.take(i as int));
                assert(ps.take(i as int + 1).last() == (param.id, param.ty));
                lemma_fits_prefix(0, ps, i as int + 1);
                lemma_fits_prefix(0, ps, i as int);
                lemma_fold_bytes_fits(0, ps.take(i as int));
            }
            layout.add_slot(param.id, &param.ty, &mut local_bytes);
            i = i + 1;
        }
        proof {
            assert(ps.take(i as int) =~= ps);
        }
        layout.add_statement_slots(&function.body, &mut local_bytes);
        proof {
            lemma_fold_concat(0, ps, stmts_slots(function.body@));
            lemma_frame_model_concat(0, ps, stmts_slots(function.body@));
            lemma_fold_bytes_fits(0, all);
        }
        let raw_size = local_bytes + 8;
        layout.size = (raw_size + 15) / 16 * 16;
        layout
    }

    /// Records a local of type `t` after `local_bytes` bytes of earlier locals.
    fn add_slot(&mut self, id: LocalId, t: &'a Type, local_bytes: &mut i32)
        requires
            spec_is_sized(*t),
            spec_size_fits(*t),
            0 <= *old(local_bytes),
            *old(local_bytes) + spec_align(*t) + spec_size(*t) <= layout_limit(),
        ensures
            *final(local_bytes) == align_to(*old(local_bytes) as int, spec_align(*t) as int) + spec_size(*t),
            frame_view(final(self).locals@) == frame_view(old(self).locals@).push(
                (id, -8 - *final(local_bytes), *t),
            ),
            final(self).size == old(self).size,
    {
        let size = t.size();
        let align = t.align();
        proof {
            lemma_align_positive(*t);
            lemma_align_to(*local_bytes as int, align as int);
        }
        let slot_size = size as i32;
        let slot_align = align as i32;
        *local_bytes = Self::align_to(*local_bytes, slot_align);
        *local_bytes = *local_bytes + slot_size;
        let offset = -8 - *local_bytes;
        let ghost before = self.locals@;
        self.locals.push((id, FrameSlot { offset, size: slot_size, align: slot_align, ty: t }));
        proof {
            assert(frame_view(self.locals@) =~= frame_view(before).push((id, -8 - *local_bytes, *t)));
        }
    }

    /// `value` rounded up to a multiple of `align`.
    fn align_to(value: i32, align: i32) -> (r: i32)
        requires
            value >= 0,
            align >= 1,
            value + align - 1 <= i32::MAX,
        ensures
            r == align_to(value as int, align as int),
    {
        proof {
            lemma_align_to(value as int, align as int);
        }
        (value + (align - 1)) / align * align
    }

    fn add_statement_slots(&mut self, statements: &'a Vec<TypedStatement>, local_bytes: &mut i32)
        requires
            layout_fits(*old(local_bytes) as int, stmts_slots(statements@)),
        ensures
            *final(local_bytes) == fold_bytes(*old(local_bytes) as int, stmts_slots(statements@)),
            frame_view(final(self).locals@) == frame_view(old(self).locals@) + frame_model(
                *old(local_bytes) as int,
                stmts_slots(statements@),
            ),
            final(self).size == old(self).size,
        decreases statements@, 0nat,
    {
        let ghost start = *local_bytes as int;
        let ghost base = frame_view(self.locals@);
        proof {
            lemma_fold_bytes_fits(start, stmts_slots(statements@));
            assert(statements@.take(0) =~= Seq::<TypedStatement>::empty());
            assert(frame_view(self.locals@) =~= base + frame_model(start, stmts_slots(statements@.take(0))));
        }
        let mut i: usize = 0;
        while i < statements.len()
            invariant
                i <= statements@.len(),
                layout_fits(start, stmts_slots(statements@)),
                layout_fits(start, stmts_slots(statements@.take(i as int))),
                *local_bytes == fold_bytes(start, stmts_slots(statements@.take(i as int))),
                frame_view(self.locals@) == base + frame_model(start, stmts_slots(statements@.take(i as int))),
                self.size == old(self).size,
            decreases statements.len() - i,
        {
            let ghost pre = stmts_slots(statements@.take(i as int));
            let ghost s = statements@[i as int];
            proof {
                assert(statements@.take(i as int + 1).drop_last() =~= statements@.take(i as int));
                assert(stmts_slots(statements@.take(i as int + 1)) == pre + stmt_slots(s));
                lemma_stmts_slots_prefix(statements@, i as int + 1);
                lemma_fits_prefix_seq(start, stmts_slots(statements@.take(i as int + 1)), stmts_slots(statements@));
                lemma_fits_split(start, pre, stmt_slots(s));
                assert(decreases_to!(statements@ => statements@[i as int]));
            }
            self.add_statement_slot(&statements[i], local_bytes);
            proof {
                lemma_fold_concat(start, pre, stmt_slots(s));
                lemma_frame_model_concat(start, pre, stmt_slots(s));
                assert(frame_view(self.locals@) =~= base + frame_model(start, pre + stmt_slots(s)));
            }
            i = i + 1;
        }
        proof {
            assert(statements@.take(i as int) =~= statements@);
        }
    }

    fn add_statement_slot(&mut self, statement: &'a TypedStatement, local_bytes: &mut i32)
        requires
            layout_fits(*old(local_bytes) as int, stmt_slots(*statement)),
        ensures
            *final(local_bytes) == fold_bytes(*old(local_bytes) as int, stmt_slots(*statement)),
            frame_view(final(self).locals@) == frame_view(old(self).locals@) + frame_model(
                *old(local_bytes) as int,
                stmt_slots(*statement),
            ),
            final(self).size == old(self).size,
        decreases statement, 1nat,
    {
        let ghost start = *local_bytes as int;
        let ghost base = frame_view(self.locals@);
        match statement {
            TypedStatement::Decl(ds) => {
                let ghost all = decl_slots(ds@);
                let mut i: usize = 0;
                while i < ds.len()
                    invariant
                        i <= ds@.len(),
                        all == decl_slots(ds@),
                        layout_fits(start, all),
                        *local_bytes == fold_bytes(start, all.take(i as int)),
                        frame_view(self.locals@) == base + frame_model(start, all.take(i as int)),
                        self.size == old(self).size,
                    decreases ds.len() - i,
                {
                    let d = &ds[i];
                    proof {
                        assert(all.take(i as int + 1).drop_last() =~= all.take(i as int));
                        assert(all.take(i as int + 1).last() == (d.id, d.ty));
                        lemma_fits_prefix(start, all, i as int + 1);
                        lemma_fits_prefix(start, all, i as int);
                        lemma_fold_bytes_fits(start, all.take(i as int));
                    }
                    self.add_slot(d.id, &d.ty, local_bytes);
                    proof {
                        assert(frame_view(self.locals@) =~= base + frame_model(start, all.take(i as int + 1)));
                    }
                    i = i + 1;
                }
                proof {
                    assert(all.take(i as int) =~= all);
                }
            },
            TypedStatement::Block(body) => {
                proof {
                    assert(decreases_to!(statement => body));
                }
                self.add_statement_slots(body, local_bytes);
            },
            TypedStatement::If { then_branch, else_branch, .. } => {
                let ghost a = stmt_slots(**then_branch);
                let ghost b = match else_branch {
                    Some(e) => stmt_slots(**e),
                    None => Seq::empty(),
                };
                proof {
                    lemma_fits_split(start, a, b);
                }
                self.add_statement_slot(then_branch, local_bytes);
                match else_branch {
                    Some(e) => {
                        self.add_statement_slot(e, local_bytes);
                    },
                    None => {},
                }
                proof {
                    lemma_fold_concat(start, a, b);
                    lemma_frame_model_concat(start, a, b);
                    if else_branch is None {
                        assert(a + b =~= a);
                        assert(frame_model(fold_bytes(start, a), b) =~= Seq::<(LocalId, int, Type)>::empty());
                    }
                    assert(frame_view(self.locals@) =~= base + frame_model(start, a + b));
                }
            },
            TypedStatement::While { body, .. } => self.add_statement_slot(body, local_bytes),
            TypedStatement::DoWhile { body, .. } => self.add_statement_slot(body, local_bytes),
            TypedStatement::For { init, body, .. } => {
                let ghost a = match init {
                    Some(i) => stmt_slots(**i),
                    None => Seq::empty(),
                };
                let ghost b = stmt_slots(**body);
                proof {
                    lemma_fits_split(start, a, b);
                }
                match init {
                    Some(init) => {
                        self.add_statement_slot(init, local_bytes);
                    },
                    None => {},
                }
                self.add_statement_slot(body, local_bytes);
                proof {
                    lemma_fold_concat(start, a, b);
                    lemma_frame_model_concat(start, a, b);
                    if init is None {
                        assert(a + b =~= b);
                    }
                    assert(frame_view(self.locals@) =~= base + frame_model(start, a + b));
                }
            },
            _ => {
                proof {
                    assert(frame_view(self.locals@) =~= base + frame_model(start, stmt_slots(*statement)));
                }
            },
        }
    }
}

pub proof fn lemma_fold_concat(start: int, a: Seq<(LocalId, Type)>, b: Seq<(LocalId, Type)>)
    ensures
        fold_bytes(start, a + b) == fold_bytes(fold_bytes(start, a), b),
    decreases b.len(),
{
    if b.len() == 0 {
        assert(a + b =~= a);
    } else {
        assert((a + b).drop_last() =~= a + b.drop_last());
        lemma_fold_concat(start, a, b.drop_last());
    }
}

pub proof fn lemma_frame_model_concat(start: int, a: Seq<(LocalId, Type)>, b: Seq<(LocalId, Type)>)
    ensures
        frame_model(start, a + b) == frame_model(start, a) + frame_model(fold_bytes(start, a), b),
    decreases b.len(),
{
    if b.len() == 0 {
        assert(a + b =~= a);
        assert(frame_model(start, a) + frame_model(fold_bytes(start, a), b) =~= frame_model(start, a));
    } else {
        assert((a + b).drop_last() =~= a + b.drop_last());
        lemma_frame_model_concat(start, a, b.drop_last());
        lemma_fold_concat(start, a, b);
        assert(frame_model(start, a + b) =~= frame_model(start, a) + frame_model(fold_bytes(start, a), b));
    }
}

pub proof fn lemma_fits_split(start: int, a: Seq<(LocalId, Type)>, b: Seq<(LocalId, Type)>)
    ensures
        layout_fits(start, a + b) <==> (layout_fits(start, a) && layout_fits(fold_bytes(start, a), b)),
    decreases b.len(),
{
    if b.len() == 0 {
        assert(a + b =~= a);
        if layout_fits(start, a) {
            lemma_fold_bytes_fits(start, a);
        }
    } else {
        assert((a + b).drop_last() =~= a + b.drop_last());
        lemma_fits_split(start, a, b.drop_last());
        lemma_fold_concat(start, a, b.drop_last());
        if layout_fits(start, a) {
            lemma_fold_bytes_fits(start, a);
        }
    }
}

pub proof fn lemma_fits_prefix(start: int, ts: Seq<(LocalId, Type)>, n: int)
    requires
        layout_fits(start, ts),
        0 <= n <= ts.len(),
    ensures
        layout_fits(start, ts.take(n)),
{
    assert(ts =~= ts.take(n) + ts.skip(n));
    lemma_fits_split(start, ts.take(n), ts.skip(n));
}

pub proof fn lemma_fits_prefix_seq(start: int, a: Seq<(LocalId, Type)>, b: Seq<(LocalId, Type)>)
    requires
        layout_fits(start, b),
        a.len() <= b.len(),
        a == b.take(a.len() as int),
    ensures
        layout_fits(start, a),
{
    lemma_fits_prefix(start, b, a.len() as int);
}

pub proof fn lemma_stmts_slots_prefix(ss: Seq<TypedStatement>, n: int)
    requires
        0 <= n <= ss.len(),
    ensures
        stmts_slots(ss.take(n)).len() <= stmts_slots(ss).len(),
        stmts_slots(ss.take(n)) == stmts_slots(ss).take(stmts_slots(ss.take(n)).len() as int),
    decreases ss.len(),
{
    if n == ss.len() {
        assert(ss.take(n) =~= ss);
        assert(stmts_slots(ss).take(stmts_slots(ss).len() as int) =~= stmts_slots(ss));
    } else {
        assert(ss.take(n) =~= ss.drop_last().take(n));
        lemma_stmts_slots_prefix(ss.drop_last(), n);
        let a = stmts_slots(ss.take(n));
        let p = stmts_slots(ss.drop_last());
        assert((p + stmt_slots(ss.last())).take(a.len() as int) =~= p.take(a.len() as int));
    }
}

/// A label: a prefix, an underscore and the counter in decimal.
pub open spec fn label(prefix: Seq<char>, c: usize) -> Seq<char> {
    prefix + "_"@ + spec_decimal(c as nat)
}

/// The label counter after one label is taken (it stays at its maximum).
pub open spec fn next(c: usize) -> usize {
    if c < usize::MAX {
        (c + 1) as usize
    } else {
        c
    }
}

pub open spec fn push_a0_asm() -> Seq<char> {
    ln("addi sp, sp, -4"@) + ln("sw a0, 0(sp)"@)
}

pub open spec fn pop_a0_asm() -> Seq<char> {
    ln("lw a0, 0(sp)"@) + ln("addi sp, sp, 4"@)
}

pub open spec fn pop_t0_asm() -> Seq<char> {
    ln("lw t0, 0(sp)"@) + ln("addi sp, sp, 4"@)
}

/// Multiplying register `reg` by `scale`: nothing for 1, a shift for 2, 4 and 8,
/// a multiplication through `t1` otherwise.
pub open spec fn scale_asm(scale: int, reg: Seq<char>) -> Seq<char> {
    if scale == 1 {
        Seq::empty()
    } else if scale == 2 {
        ln("slli "@ + reg + ", "@ + reg + ", 1"@)
    } else if scale == 4 {
        ln("slli "@ + reg + ", "@ + reg + ", 2"@)
    } else if scale == 8 {
        ln("slli "@ + reg + ", "@ + reg + ", 3"@)
    } else {
        ln("li t1, "@ + spec_signed_decimal(scale)) + ln("mul "@ + reg + ", "@ + reg + ", t1"@)
    }
}

/// One-byte scalar types.
pub open spec fn is_byte(t: Type) -> bool {
    t is Char || t is UnsignedChar || t is SignedChar
}

/// Signed integer types (for division, remainder, comparison and right shift).
pub open spec fn is_signed(t: Type) -> bool {
    t is Int || t is Char || t is Long || t is SignedChar
}

/// Truncation of `a0` to the width of `t`.
pub open spec fn narrow_asm(t: Type) -> Seq<char> {
    if is_byte(t) {
        ln("andi a0, a0, 255"@)
    } else {
        Seq::empty()
    }
}

/// Storing `a0` as a `t` at `offset` from register `base`.
pub open spec fn store_asm(t: Type, base: Seq<char>, offset: int) -> Seq<char> {
    if is_byte(t) {
        narrow_asm(t) + ln("sb a0, "@ + spec_signed_decimal(offset) + "("@ + base + ")"@)
    } else {
        ln("sw a0, "@ + spec_signed_decimal(offset) + "("@ + base + ")"@)
    }
}

/// Loading a `t` from the address in `a0` into `a0`.
pub open spec fn load_asm(t: Type) -> Seq<char> {
    if t is Char || t is UnsignedChar {
        ln("lbu a0, 0(a0)"@)
    } else if t is SignedChar {
        ln("lb a0, 0(a0)"@)
    } else {
        ln("lw a0, 0(a0)"@)
    }
}

/// A binary operation on `t0` (left) and `a0` (right) of operand type `t`, into `a0`.
pub open spec fn binop_asm(op: BinaryOp, t: Type) -> Seq<char> {
    match op {
        BinaryOp::Add => ln("add a0, t0, a0"@),
        BinaryOp::Subtract => ln("sub a0, t0, a0"@),
        BinaryOp::Multiply => ln("mul a0, t0, a0"@),
        BinaryOp::Divide => if is_signed(t) { ln("div a0, t0, a0"@) } else { ln("divu a0, t0, a0"@) },
        BinaryOp::Remainder => if is_signed(t) { ln("rem a0, t0, a0"@) } else { ln("remu a0, t0, a0"@) },
        BinaryOp::Equal => ln("xor a0, t0, a0"@) + ln("seqz a0, a0"@),
        BinaryOp::NotEqual => ln("xor a0, t0, a0"@) + ln("snez a0, a0"@),
        BinaryOp::Less => if is_signed(t) { ln("slt a0, t0, a0"@) } else { ln("sltu a0, t0, a0"@) },
        BinaryOp::LessEqual => if is_signed(t) {
            ln("slt a0, a0, t0"@) + ln("xori a0, a0, 1"@)
        } else {
            ln("sltu a0, a0, t0"@) + ln("xori a0, a0, 1"@)
        },
        BinaryOp::Greater => if is_signed(t) { ln("slt a0, a0, t0"@) } else { ln("sltu a0, a0, t0"@) },
        BinaryOp::GreaterEqual => if is_signed(t) {
            ln("slt a0, t0, a0"@) + ln("xori a0, a0, 1"@)
        } else {
            ln("sltu a0, t0, a0"@) + ln("xori a0, a0, 1"@)
        },
        BinaryOp::BitAnd => ln("and a0, a0, t0"@),
        BinaryOp::BitXor => ln("xor a0, a0, t0"@),
        BinaryOp::BitOr => ln("or a0, a0, t0"@),
        BinaryOp::ShiftLeft => ln("sll a0, t0, a0"@),
        BinaryOp::ShiftRight => if is_signed(t) { ln("sra a0, t0, a0"@) } else { ln("srl a0, t0, a0"@) },
        _ => Seq::empty(),
    }
}

/// Pointer plus or minus an integer: the integer operand scaled by the pointee size.
pub open spec fn ptr_binop_asm(op: BinaryOp, scale: int, left: Type, right: Type) -> Seq<char> {
    if op == BinaryOp::Add && left is Pointer && spec_is_integer(right) {
        scale_asm(scale, "a0"@) + ln("add a0, t0, a0"@)
    } else if op == BinaryOp::Add && spec_is_integer(left) && right is Pointer {
        scale_asm(scale, "t0"@) + ln("add a0, t0, a0"@)
    } else {
        scale_asm(scale, "a0"@) + ln("sub a0, t0, a0"@)
    }
}

/// An addition or subtraction whose operand type is a pointer.
pub open spec fn is_ptr_arith(op: BinaryOp, operand_ty: Type) -> bool {
    operand_ty is Pointer && (op == BinaryOp::Add || op == BinaryOp::Subtract)
}

/// The pointee size of a pointer type.
pub open spec fn pointee_size(t: Type) -> int {
    match t {
        Type::Pointer(p) => spec_size(*p) as int,
        _ => 1,
    }
}

/// The operation after both operands are evaluated: pointer arithmetic or a plain binary operation.
pub open spec fn arith_asm(op: BinaryOp, operand_ty: Type, left: Type, right: Type) -> Seq<char> {
    if is_ptr_arith(op, operand_ty) {
        ptr_binop_asm(op, pointee_size(operand_ty), left, right)
    } else {
        binop_asm(op, operand_ty)
    }
}

/// Popping `n` pushed arguments into `a(n-1)` down to `a0`.
pub open spec fn pops_asm(n: nat) -> Seq<char>
    decreases n,
{
    if n == 0 {
        Seq::empty()
    } else {
        ln("lw a"@ + spec_decimal((n - 1) as nat) + ", 0(sp)"@) + ln("addi sp, sp, 4"@) + pops_asm((n - 1) as nat)
    }
}

/// The name of a called function.
pub open spec fn callee_name(callee: TypedExpr) -> Seq<char> {
    match callee.kind {
        TypedExprKind::FunctionDesignator { name, .. } => name@,
        _ => Seq::empty(),
    }
}

/// The offset of a local in the frame.
pub open spec fn local_offset(fr: Seq<(LocalId, int, Type)>, id: ObjectId) -> int {
    match id {
        ObjectId::Local(l) => match lookup(fr, l) {
            Some((offset, _)) => offset,
            None => 0,
        },
        _ => 0,
    }
}

/// Whether a local's slot holds an array.
pub open spec fn is_array_local(fr: Seq<(LocalId, int, Type)>, id: ObjectId) -> bool {
    match id {
        ObjectId::Local(l) => match lookup(fr, l) {
            Some((_, t)) => t is Array,
            None => false,
        },
        _ => false,
    }
}

/// The increment of `++` or `--` by `delta` on a value of type `t`.
pub open spec fn step_amount(delta: int, t: Type) -> int {
    match t {
        Type::Pointer(p) => delta * spec_size(*p),
        _ => delta,
    }
}

/// The code that computes the value of `e` into `a0`, with the label counter after it.
pub open spec fn expr_asm(e: TypedExpr, fr: Seq<(LocalId, int, Type)>, c: usize) -> (Seq<char>, usize)
    decreases e, 1nat,
{
    match e.kind {
        TypedExprKind::IntLiteral { value, .. } => (ln("li a0, "@ + spec_decimal(value as nat)), c),
        TypedExprKind::Binary { op, operand_ty, left, right, .. } => {
            if op == BinaryOp::LogicalAnd || op == BinaryOp::LogicalOr {
                let and = op == BinaryOp::LogicalAnd;
                let short = if and { label("logical_and_false"@, c) } else { label("logical_or_true"@, c) };
                let end = if and { label("logical_and_end"@, next(c)) } else { label("logical_or_end"@, next(c)) };
                let l = expr_asm(*left, fr, next(next(c)));
                let r = expr_asm(*right, fr, l.1);
                (l.0 + ln((if and { "beqz a0, "@ } else { "bnez a0, "@ }) + short) + r.0 + ln("snez a0, a0"@) + ln(
                    "j "@ + end,
                ) + label_line(short) + ln(if and { "li a0, 0"@ } else { "li a0, 1"@ }) + label_line(end), r.1)
            } else {
                let l = expr_asm(*left, fr, c);
                let r = expr_asm(*right, fr, l.1);
                (l.0 + push_a0_asm() + r.0 + pop_t0_asm() + arith_asm(op, operand_ty, left.ty, right.ty), r.1)
            }
        },
        TypedExprKind::Variable { id, .. } => {
            let a = addr_asm(e, fr, c);
            (a.0 + if is_array_local(fr, id) { Seq::empty() } else { load_asm(e.ty) }, a.1)
        },
        TypedExprKind::Unary { op, expr, .. } => {
            if op == UnaryOp::AddressOf {
                addr_asm(*expr, fr, c)
            } else {
                let x = expr_asm(*expr, fr, c);
                (x.0 + match op {
                    UnaryOp::Negate => ln("neg a0, a0"@),
                    UnaryOp::LogicalNot => ln("seqz a0, a0"@),
                    UnaryOp::BitwiseNot => ln("not a0, a0"@),
                    _ => load_asm(e.ty),
                }, x.1)
            }
        },
        TypedExprKind::Call { callee, args, .. } => {
            proof {
                assert(decreases_to!(e => args@));
            }
            let a = args_asm(args@, fr, c);
            (a.0 + pops_asm(args@.len()) + ln("call "@ + callee_name(*callee)), a.1)
        },
        TypedExprKind::Assign { target, value, .. } => {
            let a = addr_asm(*target, fr, c);
            let v = expr_asm(*value, fr, a.1);
            (a.0 + push_a0_asm() + v.0 + pop_t0_asm() + store_asm(target.ty, "t0"@, 0), v.1)
        },
        TypedExprKind::CompoundAssign { target, op, operand_ty, value, .. } => {
            let a = addr_asm(*target, fr, c);
            let v = expr_asm(*value, fr, a.1);
            (a.0 + push_a0_asm() + load_asm(target.ty) + push_a0_asm() + v.0 + pop_t0_asm() + arith_asm(
                op,
                operand_ty,
                target.ty,
                value.ty,
            ) + pop_t0_asm() + store_asm(target.ty, "t0"@, 0), v.1)
        },
        TypedExprKind::PrefixInc { expr, .. } => inc_dec_asm(*expr, fr, c, 1, false),
        TypedExprKind::PrefixDec { expr, .. } => inc_dec_asm(*expr, fr, c, -1, false),
        TypedExprKind::PostfixInc { expr, .. } => inc_dec_asm(*expr, fr, c, 1, true),
        TypedExprKind::PostfixDec { expr, .. } => inc_dec_asm(*expr, fr, c, -1, true),
        TypedExprKind::Index { .. } => {
            let a = addr_asm(e, fr, c);
            (a.0 + load_asm(e.ty), a.1)
        },
        TypedExprKind::Cast { target_ty, expr, .. } => {
            let x = expr_asm(*expr, fr, c);
            (x.0 + narrow_asm(target_ty), x.1)
        },
        _ => (Seq::empty(), c),
    }
}

/// Increment or decrement of the object `x` by `delta`; the postfix forms keep the old value.
pub open spec fn inc_dec_asm(x: TypedExpr, fr: Seq<(LocalId, int, Type)>, c: usize, delta: int, postfix: bool) -> (
    Seq<char>,
    usize,
)
    decreases x, 2nat,
{
    let a = addr_asm(x, fr, c);
    (a.0 + ln("mv t0, a0"@) + load_asm(x.ty) + (if postfix { push_a0_asm() } else { Seq::empty() }) + ln(
        "addi a0, a0, "@ + spec_signed_decimal(step_amount(delta, x.ty)),
    ) + store_asm(x.ty, "t0"@, 0) + (if postfix { pop_a0_asm() } else { Seq::empty() }), a.1)
}

/// Each argument evaluated and pushed, in order.
pub open spec fn args_asm(args: Seq<TypedExpr>, fr: Seq<(LocalId, int, Type)>, c: usize) -> (Seq<char>, usize)
    decreases args, 0nat,
{
    if args.len() == 0 {
        (Seq::empty(), c)
    } else {
        proof {
            assert(decreases_to!(args => args[args.len() - 1]));
            assert(decreases_to!(args => args.drop_last()));
        }
        let p = args_asm(args.drop_last(), fr, c);
        let x = expr_asm(args[args.len() - 1], fr, p.1);
        (p.0 + x.0 + push_a0_asm(), x.1)
    }
}

/// The code that computes the address of the object `e` into `a0`.
pub open spec fn addr_asm(e: TypedExpr, fr: Seq<(LocalId, int, Type)>, c: usize) -> (Seq<char>, usize)
    decreases e, 0nat,
{
    match e.kind {
        TypedExprKind::Variable { id, .. } => (ln("addi a0, s0, "@ + spec_signed_decimal(local_offset(fr, id))), c),
        TypedExprKind::Unary { op, expr, .. } => if op == UnaryOp::Dereference {
            expr_asm(*expr, fr, c)
        } else {
            (Seq::empty(), c)
        },
        TypedExprKind::Index { base, index, .. } => {
            let b = if base.ty is Array { addr_asm(*base, fr, c) } else { expr_asm(*base, fr, c) };
            let i = expr_asm(*index, fr, b.1);
            let elem_size = match base.ty {
                Type::Array { element, .. } => spec_size(*element) as int,
                Type::Pointer(element) => spec_size(*element) as int,
                _ => 1,
            };
            (b.0 + push_a0_asm() + i.0 + scale_asm(elem_size, "a0"@) + pop_t0_asm() + ln("add a0, t0, a0"@), i.1)
        },
        _ => (Seq::empty(), c),
    }
}

/// An element type that can be indexed: sized, with its size within `i32`.
pub open spec fn elem_ok(t: Type) -> bool {
    spec_is_sized(t) && spec_size_fits(t) && spec_size(t) <= i32::MAX
}

/// Pointer arithmetic that the generator handles: pointer plus integer,
/// integer plus pointer, pointer minus integer, with an indexable pointee.
pub open spec fn ptr_arith_ok(op: BinaryOp, operand_ty: Type, left: Type, right: Type) -> bool {
    &&& operand_ty matches Type::Pointer(p) && elem_ok(*p)
    &&& ((op == BinaryOp::Add && left is Pointer && spec_is_integer(right)) || (op == BinaryOp::Add
        && spec_is_integer(left) && right is Pointer) || (op == BinaryOp::Subtract && left is Pointer
        && spec_is_integer(right)))
}

/// A plain binary operation that the generator handles: division, remainder,
/// ordering and right shift need an integer operand type.
pub open spec fn binop_ok(op: BinaryOp, t: Type) -> bool {
    &&& op != BinaryOp::LogicalAnd && op != BinaryOp::LogicalOr
    &&& (op == BinaryOp::Divide || op == BinaryOp::Remainder || op == BinaryOp::Less || op == BinaryOp::LessEqual
        || op == BinaryOp::Greater || op == BinaryOp::GreaterEqual || op == BinaryOp::ShiftRight)
        ==> spec_is_integer(t)
}

/// The arithmetic after both operands is handled.
pub open spec fn arith_ok(op: BinaryOp, operand_ty: Type, left: Type, right: Type) -> bool {
    if is_ptr_arith(op, operand_ty) {
        ptr_arith_ok(op, operand_ty, left, right)
    } else {
        binop_ok(op, operand_ty)
    }
}

/// The generator can compute the value of `e`: every local it names has a
/// slot, every value it loads or stores is a scalar, every operation is one
/// the generator handles.
pub open spec fn gen_expr_ok(e: TypedExpr, fr: Seq<(LocalId, int, Type)>) -> bool
    decreases e, 1nat,
{
    match e.kind {
        TypedExprKind::IntLiteral { .. } => true,
        TypedExprKind::Binary { op, operand_ty, left, right, .. } => {
            &&& gen_expr_ok(*left, fr)
            &&& gen_expr_ok(*right, fr)
            &&& (op == BinaryOp::LogicalAnd || op == BinaryOp::LogicalOr || arith_ok(op, operand_ty, left.ty, right.ty))
        },
        TypedExprKind::Variable { id, .. } => gen_addr_ok(e, fr) && (is_array_local(fr, id) || spec_is_scalar(e.ty)),
        TypedExprKind::Unary { op, expr, .. } => match op {
            UnaryOp::AddressOf => gen_addr_ok(*expr, fr),
            UnaryOp::Dereference => gen_expr_ok(*expr, fr) && spec_is_scalar(e.ty),
            _ => gen_expr_ok(*expr, fr),
        },
        TypedExprKind::Call { callee, args, .. } => {
            proof {
                assert(decreases_to!(e => args@));
            }
            callee.kind is FunctionDesignator && gen_args_ok(args@, fr)
        },
        TypedExprKind::Assign { target, value, .. } => {
            gen_addr_ok(*target, fr) && gen_expr_ok(*value, fr) && spec_is_scalar(target.ty)
        },
        TypedExprKind::CompoundAssign { target, op, operand_ty, value, .. } => {
            &&& gen_addr_ok(*target, fr)
            &&& gen_expr_ok(*value, fr)
            &&& spec_is_scalar(target.ty)
            &&& op != BinaryOp::LogicalAnd && op != BinaryOp::LogicalOr
            &&& arith_ok(op, operand_ty, target.ty, value.ty)
        },
        TypedExprKind::PrefixInc { expr, .. } => gen_step_ok(*expr, fr),
        TypedExprKind::PrefixDec { expr, .. } => gen_step_ok(*expr, fr),
        TypedExprKind::PostfixInc { expr, .. } => gen_step_ok(*expr, fr),
        TypedExprKind::PostfixDec { expr, .. } => gen_step_ok(*expr, fr),
        TypedExprKind::Index { .. } => gen_addr_ok(e, fr) && spec_is_scalar(e.ty),
        TypedExprKind::Cast { target_ty, expr, .. } => gen_expr_ok(*expr, fr) && spec_is_scalar(target_ty),
        _ => false,
    }
}

/// `++` and `--` apply to a scalar object; on a pointer, the pointee size fits `i32`.
pub open spec fn gen_step_ok(x: TypedExpr, fr: Seq<(LocalId, int, Type)>) -> bool
    decreases x, 2nat,
{
    &&& gen_addr_ok(x, fr)
    &&& spec_is_scalar(x.ty)
    &&& (x.ty matches Type::Pointer(p) ==> elem_ok(*p))
}

/// Every argument can be computed.
pub open spec fn gen_args_ok(args: Seq<TypedExpr>, fr: Seq<(LocalId, int, Type)>) -> bool
    decreases args, 0nat,
{
    if args.len() == 0 {
        true
    } else {
        proof {
            assert(decreases_to!(args => args[args.len() - 1]));
            assert(decreases_to!(args => args.drop_last()));
        }
        gen_args_ok(args.drop_last(), fr) && gen_expr_ok(args[args.len() - 1], fr)
    }
}

/// The generator can compute the address of `e`: a local with a slot, a
/// dereference, or an index into an array object or through a pointer.
pub open spec fn gen_addr_ok(e: TypedExpr, fr: Seq<(LocalId, int, Type)>) -> bool
    decreases e, 0nat,
{
    match e.kind {
        TypedExprKind::Variable { id, .. } => id matches ObjectId::Local(l) && lookup(fr, l) is Some,
        TypedExprKind::Unary { op, expr, .. } => op == UnaryOp::Dereference && gen_expr_ok(*expr, fr),
        TypedExprKind::Index { base, index, .. } => {
            &&& gen_expr_ok(*index, fr)
            &&& match base.ty {
                Type::Array { element, .. } => gen_addr_ok(*base, fr) && elem_ok(*element),
                Type::Pointer(element) => gen_expr_ok(*base, fr) && elem_ok(*element),
                _ => false,
            }
        },
        _ => false,
    }
}

pub proof fn lemma_gen_args_index(args: Seq<TypedExpr>, fr: Seq<(LocalId, int, Type)>, k: int)
    requires
        gen_args_ok(args, fr),
        0 <= k < args.len(),
    ensures
        gen_expr_ok(args[k], fr),
    decreases args.len(),
{
    if k < args.len() - 1 {
        lemma_gen_args_index(args.drop_last(), fr, k);
    }
}

/// The labels that `continue` and `break` jump to inside a loop.
pub struct LoopLabels {
    pub continue_label: String,
    pub break_label: String,
}

/// The state of the generator: the text so far, the frame of the current
/// function, the label counter, the return label and type of the current
/// function, and the labels of the enclosing loops.
pub struct Codegen<'a> {
    out: String,
    frame: FrameLayout<'a>,
    label_counter: usize,
    return_label: String,
    loop_stack: Vec<LoopLabels>,
    current_function_return_type: Option<&'a Type>,
    target: CodegenTarget,
}

fn is_signed_type(t: &Type) -> (b: bool)
    ensures
        b == is_signed(*t),
{
    match t {
        Type::Int | Type::Char | Type::Long | Type::SignedChar => true,
        _ => false,
    }
}

impl<'a> Codegen<'a> {
    spec fn fr(&self) -> Seq<(LocalId, int, Type)> {
        frame_view(self.frame.locals@)
    }

    /// Everything but the text and the label counter is as in `old`.
    spec fn same_ctx(&self, old: &Self) -> bool {
        &&& self.frame == old.frame
        &&& self.return_label == old.return_label
        &&& self.loop_stack@ == old.loop_stack@
        &&& self.current_function_return_type == old.current_function_return_type
        &&& self.target == old.target
    }

    fn emit_line(&mut self, text: &str)
        ensures
            final(self).out@ == old(self).out@ + ln(text@),
            final(self).same_ctx(&*old(self)),
            final(self).label_counter == old(self).label_counter,
    {
        push_str(&mut self.out, "    ");
        push_str(&mut self.out, text);
        push_str(&mut self.out, "\n");
        proof {
            assert(self.out@ =~= old(self).out@ + ln(text@));
        }
    }

    fn emit_line2(&mut self, a: &str, b: &str)
        ensures
            final(self).out@ == old(self).out@ + ln(a@ + b@),
            final(self).same_ctx(&*old(self)),
            final(self).label_counter == old(self).label_counter,
    {
        push_str(&mut self.out, "    ");
        push_str(&mut self.out, a);
        push_str(&mut self.out, b);
        push_str(&mut self.out, "\n");
        proof {
            assert(self.out@ =~= old(self).out@ + ln(a@ + b@));
        }
    }

    fn emit_line_num(&mut self, a: &str, n: i64)
        ensures
            final(self).out@ == old(self).out@ + ln(a@ + spec_signed_decimal(n as int)),
            final(self).same_ctx(&*old(self)),
            final(self).label_counter == old(self).label_counter,
    {
        push_str(&mut self.out, "    ");
        push_str(&mut self.out, a);
        push_i64(&mut self.out, n);
        push_str(&mut self.out, "\n");
        proof {
            assert(self.out@ =~= old(self).out@ + ln(a@ + spec_signed_decimal(n as int)));
        }
    }

    fn emit_line_num3(&mut self, a: &str, n: i64, b: &str)
        ensures
            final(self).out@ == old(self).out@ + ln(a@ + spec_signed_decimal(n as int) + b@),
            final(self).same_ctx(&*old(self)),
            final(self).label_counter == old(self).label_counter,
    {
        push_str(&mut self.out, "    ");
        push_str(&mut self.out, a);
        push_i64(&mut self.out, n);
        push_str(&mut self.out, b);
        push_str(&mut self.out, "\n");
        proof {
            assert(self.out@ =~= old(self).out@ + ln(a@ + spec_signed_decimal(n as int) + b@));
        }
    }

    fn emit_line_unum3(&mut self, a: &str, n: u64, b: &str)
        ensures
            final(self).out@ == old(self).out@ + ln(a@ + spec_decimal(n as nat) + b@),
            final(self).same_ctx(&*old(self)),
            final(self).label_counter == old(self).label_counter,
    {
        push_str(&mut self.out, "    ");
        push_str(&mut self.out, a);
        push_u64(&mut self.out, n);
        push_str(&mut self.out, b);
        push_str(&mut self.out, "\n");
        proof {
            assert(self.out@ =~= old(self).out@ + ln(a@ + spec_decimal(n as nat) + b@));
        }
    }

    fn emit_line_unum(&mut self, a: &str, n: u64)
        ensures
            final(self).out@ == old(self).out@ + ln(a@ + spec_decimal(n as nat)),
            final(self).same_ctx(&*old(self)),
            final(self).label_counter == old(self).label_counter,
    {
        push_str(&mut self.out, "    ");
        push_str(&mut self.out, a);
        push_u64(&mut self.out, n);
        push_str(&mut self.out, "\n");
        proof {
            assert(self.out@ =~= old(self).out@ + ln(a@ + spec_decimal(n as nat)));
        }
    }

    fn emit_label(&mut self, l: &str)
        ensures
            final(self).out@ == old(self).out@ + label_line(l@),
            final(self).same_ctx(&*old(self)),
            final(self).label_counter == old(self).label_counter,
    {
        push_str(&mut self.out, l);
        push_str(&mut self.out, ":\n");
    }

    /// A fresh label: the prefix, an underscore and the counter.
    fn new_label(&mut self, prefix: &str) -> (l: String)
        ensures
            l@ == label(prefix@, old(self).label_counter),
            final(self).label_counter == next(old(self).label_counter),
            final(self).out == old(self).out,
            final(self).same_ctx(&*old(self)),
    {
        let mut l = String::from_str(prefix);
        push_str(&mut l, "_");
        push_u64(&mut l, self.label_counter as u64);
        if self.label_counter < usize::MAX {
            self.label_counter = self.label_counter + 1;
        }
        l
    }

    fn push_a0(&mut self)
        ensures
            final(self).out@ == old(self).out@ + push_a0_asm(),
            final(self).same_ctx(&*old(self)),
            final(self).label_counter == old(self).label_counter,
    {
        self.emit_line("addi sp, sp, -4");
        self.emit_line("sw a0, 0(sp)");
        proof {
            assert(self.out@ =~= old(self).out@ + push_a0_asm());
        }
    }

    fn pop_a0(&mut self)
        ensures
            final(self).out@ == old(self).out@ + pop_a0_asm(),
            final(self).same_ctx(&*old(self)),
            final(self).label_counter == old(self).label_counter,
    {
        self.emit_line("lw a0, 0(sp)");
        self.emit_line("addi sp, sp, 4");
        proof {
            assert(self.out@ =~= old(self).out@ + pop_a0_asm());
        }
    }

    fn pop_t0(&mut self)
        ensures
            final(self).out@ == old(self).out@ + pop_t0_asm(),
            final(self).same_ctx(&*old(self)),
            final(self).label_counter == old(self).label_counter,
    {
        self.emit_line("lw t0, 0(sp)");
        self.emit_line("addi sp, sp, 4");
        proof {
            assert(self.out@ =~= old(self).out@ + pop_t0_asm());
        }
    }

    fn emit_slli(&mut self, reg: &str, amount: &str)
        ensures
            final(self).out@ == old(self).out@ + ln("slli "@ + reg@ + ", "@ + reg@ + amount@),
            final(self).same_ctx(&*old(self)),
            final(self).label_counter == old(self).label_counter,
    {
        push_str(&mut self.out, "    ");
        push_str(&mut self.out, "slli ");
        push_str(&mut self.out, reg);
        push_str(&mut self.out, ", ");
        push_str(&mut self.out, reg);
        push_str(&mut self.out, amount);
        push_str(&mut self.out, "\n");
        proof {
            assert(self.out@ =~= old(self).out@ + ln("slli "@ + reg@ + ", "@ + reg@ + amount@));
        }
    }

    /// Multiplies register `reg` by `scale`.
    fn scale_reg(&mut self, scale: i32, reg: &str)
        ensures
            final(self).out@ == old(self).out@ + scale_asm(scale as int, reg@),
            final(self).same_ctx(&*old(self)),
            final(self).label_counter == old(self).label_counter,
    {
        if scale == 1 {
            proof {
                assert(self.out@ =~= old(self).out@ + scale_asm(scale as int, reg@));
            }
        } else if scale == 2 {
            self.emit_slli(reg, ", 1");
            proof {
                assert(self.out@ =~= old(self).out@ + scale_asm(scale as int, reg@));
            }
        } else if scale == 4 {
            self.emit_slli(reg, ", 2");
            proof {
                assert(self.out@ =~= old(self).out@ + scale_asm(scale as int, reg@));
            }
        } else if scale == 8 {
            self.emit_slli(reg, ", 3");
            proof {
                assert(self.out@ =~= old(self).out@ + scale_asm(scale as int, reg@));
            }
        } else {
            self.emit_line_num("li t1, ", scale as i64);
            push_str(&mut self.out, "    ");
            push_str(&mut self.out, "mul ");
            push_str(&mut self.out, reg);
            push_str(&mut self.out, ", ");
            push_str(&mut self.out, reg);
            push_str(&mut self.out, ", t1");
            push_str(&mut self.out, "\n");
            proof {
                assert(self.out@ =~= old(self).out@ + scale_asm(scale as int, reg@));
            }
        }
    }

    /// Truncates `a0` to the width of `t`.
    fn emit_narrow_to_type(&mut self, t: &Type)
        ensures
            final(self).out@ == old(self).out@ + narrow_asm(*t),
            final(self).same_ctx(&*old(self)),
            final(self).label_counter == old(self).label_counter,
    {
        match t {
            Type::Char | Type::UnsignedChar | Type::SignedChar => {
                self.emit_line("andi a0, a0, 255");
            },
            _ => {
                proof {
                    assert(self.out@ =~= old(self).out@ + narrow_asm(*t));
                }
            },
        }
    }

    /// Stores `a0` as a `t` at `offset` from register `base`.
    fn emit_store_to_base_offset(&mut self, t: &Type, base: &str, offset: i32)
        ensures
            final(self).out@ == old(self).out@ + store_asm(*t, base@, offset as int),
            final(self).same_ctx(&*old(self)),
            final(self).label_counter == old(self).label_counter,
    {
        let byte = match t {
            Type::Char | Type::UnsignedChar | Type::SignedChar => true,
            _ => false,
        };
        if byte {
            self.emit_narrow_to_type(t);
            self.emit_mem("sb a0, ", offset as i64, base);
        } else {
            self.emit_mem("sw a0, ", offset as i64, base);
        }
        proof {
            assert(self.out@ =~= old(self).out@ + store_asm(*t, base@, offset as int));
        }
    }

    /// A memory access line: `op`, the offset, and the base register in parentheses.
    fn emit_mem(&mut self, op: &str, offset: i64, base: &str)
        ensures
            final(self).out@ == old(self).out@ + ln(op@ + spec_signed_decimal(offset as int) + "("@ + base@ + ")"@),
            final(self).same_ctx(&*old(self)),
            final(self).label_counter == old(self).label_counter,
    {
        push_str(&mut self.out, "    ");
        push_str(&mut self.out, op);
        push_i64(&mut self.out, offset);
        push_str(&mut self.out, "(");
        push_str(&mut self.out, base);
        push_str(&mut self.out, ")");
        push_str(&mut self.out, "\n");
        proof {
            assert(self.out@ =~= old(self).out@ + ln(op@ + spec_signed_decimal(offset as int) + "("@ + base@ + ")"@));
        }
    }
}

impl<'a> Codegen<'a> {
    /// Loads a `t` from the address in `a0`.
    fn emit_load_from_addr(&mut self, t: &Type)
        ensures
            final(self).out@ == old(self).out@ + load_asm(*t),
            final(self).same_ctx(&*old(self)),
            final(self).label_counter == old(self).label_counter,
    {
        match t {
            Type::Char | Type::UnsignedChar => self.emit_line("lbu a0, 0(a0)"),
            Type::SignedChar => self.emit_line("lb a0, 0(a0)"),
            _ => self.emit_line("lw a0, 0(a0)"),
        }
    }

    /// A binary operation of operand type `t` on `t0` and `a0`.
    fn emit_binary_op(&mut self, op: BinaryOp, t: &Type)
        ensures
            final(self).out@ == old(self).out@ + binop_asm(op, *t),
            final(self).same_ctx(&*old(self)),
            final(self).label_counter == old(self).label_counter,
    {
        let signed = is_signed_type(t);
        match op {
            BinaryOp::Add => self.emit_line("add a0, t0, a0"),
            BinaryOp::Subtract => self.emit_line("sub a0, t0, a0"),
            BinaryOp::Multiply => self.emit_line("mul a0, t0, a0"),
            BinaryOp::Divide => if signed {
                self.emit_line("div a0, t0, a0")
            } else {
                self.emit_line("divu a0, t0, a0")
            },
            BinaryOp::Remainder => if signed {
                self.emit_line("rem a0, t0, a0")
            } else {
                self.emit_line("remu a0, t0, a0")
            },
            BinaryOp::Equal => {
                self.emit_line("xor a0, t0, a0");
                self.emit_line("seqz a0, a0");
            },
            BinaryOp::NotEqual => {
                self.emit_line("xor a0, t0, a0");
                self.emit_line("snez a0, a0");
            },
            BinaryOp::Less => if signed {
                self.emit_line("slt a0, t0, a0")
            } else {
                self.emit_line("sltu a0, t0, a0")
            },
            BinaryOp::LessEqual => {
                if signed {
                    self.emit_line("slt a0, a0, t0");
                } else {
                    self.emit_line("sltu a0, a0, t0");
                }
                self.emit_line("xori a0, a0, 1");
            },
            BinaryOp::Greater => if signed {
                self.emit_line("slt a0, a0, t0")
            } else {
                self.emit_line("sltu a0, a0, t0")
            },
            BinaryOp::GreaterEqual => {
                if signed {
                    self.emit_line("slt a0, t0, a0");
                } else {
                    self.emit_line("sltu a0, t0, a0");
                }
                self.emit_line("xori a0, a0, 1");
            },
            BinaryOp::BitAnd => self.emit_line("and a0, a0, t0"),
            BinaryOp::BitXor => self.emit_line("xor a0, a0, t0"),
            BinaryOp::BitOr => self.emit_line("or a0, a0, t0"),
            BinaryOp::ShiftLeft => self.emit_line("sll a0, t0, a0"),
            BinaryOp::ShiftRight => if signed {
                self.emit_line("sra a0, t0, a0")
            } else {
                self.emit_line("srl a0, t0, a0")
            },
            _ => {},
        }
        proof {
            assert(self.out@ =~= old(self).out@ + binop_asm(op, *t));
        }
    }

    /// Pointer arithmetic: the integer operand scaled by the pointee size.
    fn emit_pointer_binary_op(&mut self, op: BinaryOp, pointee: &Type, left: &Type, right: &Type)
        requires
            elem_ok(*pointee),
        ensures
            final(self).out@ == old(self).out@ + ptr_binop_asm(op, spec_size(*pointee) as int, *left, *right),
            final(self).same_ctx(&*old(self)),
            final(self).label_counter == old(self).label_counter,
    {
        let scale = pointee.size() as i32;
        if op == BinaryOp::Add && left.is_pointer() && right.is_integer() {
            self.scale_reg(scale, "a0");
            self.emit_line("add a0, t0, a0");
        } else if op == BinaryOp::Add && left.is_integer() && right.is_pointer() {
            self.scale_reg(scale, "t0");
            self.emit_line("add a0, t0, a0");
        } else {
            self.scale_reg(scale, "a0");
            self.emit_line("sub a0, t0, a0");
        }
        proof {
            assert(self.out@ =~= old(self).out@ + ptr_binop_asm(op, spec_size(*pointee) as int, *left, *right));
        }
    }

    /// The operation after both operands: pointer arithmetic or a plain binary operation.
    fn emit_arith(&mut self, op: BinaryOp, operand_ty: &Type, left: &Type, right: &Type)
        requires
            arith_ok(op, *operand_ty, *left, *right),
        ensures
            final(self).out@ == old(self).out@ + arith_asm(op, *operand_ty, *left, *right),
            final(self).same_ctx(&*old(self)),
            final(self).label_counter == old(self).label_counter,
    {
        match operand_ty {
            Type::Pointer(pointee) => {
                if op == BinaryOp::Add || op == BinaryOp::Subtract {
                    self.emit_pointer_binary_op(op, pointee, left, right);
                    return;
                }
            },
            _ => {},
        }
        self.emit_binary_op(op, operand_ty);
    }

    /// The slot of a local: the last one recorded under its id.
    fn resolve_local(&self, id: LocalId) -> (r: Option<FrameSlot<'a>>)
        ensures
            r matches Some(slot) ==> lookup(self.fr(), id) == Some((slot.offset as int, *slot.ty)),
            r is None ==> lookup(self.fr(), id) is None,
    {
        let ghost fr = self.fr();
        let mut i: usize = self.frame.locals.len();
        proof {
            assert(fr.take(i as int) =~= fr);
        }
        while i > 0
            invariant
                i <= self.frame.locals@.len(),
                fr == self.fr(),
                lookup(fr, id) == lookup(fr.take(i as int), id),
            decreases i,
        {
            proof {
                assert(fr.take(i as int).drop_last() =~= fr.take(i - 1));
            }
            if self.frame.locals[i - 1].0 == id {
                return Some(self.frame.locals[i - 1].1);
            }
            i = i - 1;
        }
        None
    }
}

impl<'a> Codegen<'a> {
    /// Computes the value of `e` into `a0`.
    fn emit_expr(&mut self, e: &TypedExpr)
        requires
            gen_expr_ok(*e, old(self).fr()),
        ensures
            final(self).out@ == old(self).out@ + expr_asm(*e, old(self).fr(), old(self).label_counter).0,
            final(self).label_counter == expr_asm(*e, old(self).fr(), old(self).label_counter).1,
            final(self).same_ctx(&*old(self)),
        decreases e, 3nat,
    {
        let ghost fr = self.fr();
        let ghost c = self.label_counter;
        match &e.kind {
            TypedExprKind::IntLiteral { value, .. } => {
                self.emit_line_unum("li a0, ", *value);
            },
            TypedExprKind::Binary { .. } => self.emit_binary_expr(e),
            TypedExprKind::Variable { id, .. } => {
                self.emit_addr(e);
                let is_array = match id {
                    ObjectId::Local(l) => match self.resolve_local(*l) {
                        Some(slot) => match slot.ty {
                            Type::Array { .. } => true,
                            _ => false,
                        },
                        None => false,
                    },
                    _ => false,
                };
                if !is_array {
                    self.emit_load_from_addr(&e.ty);
                }
            },
            TypedExprKind::Unary { op, expr: operand, .. } => {
                if *op == UnaryOp::AddressOf {
                    self.emit_addr(operand);
                } else {
                    self.emit_expr(operand);
                    match op {
                        UnaryOp::Negate => self.emit_line("neg a0, a0"),
                        UnaryOp::LogicalNot => self.emit_line("seqz a0, a0"),
                        UnaryOp::BitwiseNot => self.emit_line("not a0, a0"),
                        _ => self.emit_load_from_addr(&e.ty),
                    }
                }
            },
            TypedExprKind::Call { .. } => self.emit_call(e),
            TypedExprKind::Assign { .. } => self.emit_assign(e),
            TypedExprKind::CompoundAssign { .. } => self.emit_compound_assign(e),
            TypedExprKind::PrefixInc { expr: x, .. } => self.emit_inc_dec(x, 1, false),
            TypedExprKind::PrefixDec { expr: x, .. } => self.emit_inc_dec(x, -1, false),
            TypedExprKind::PostfixInc { expr: x, .. } => self.emit_inc_dec(x, 1, true),
            TypedExprKind::PostfixDec { expr: x, .. } => self.emit_inc_dec(x, -1, true),
            TypedExprKind::Index { .. } => {
                self.emit_addr(e);
                self.emit_load_from_addr(&e.ty);
            },
            TypedExprKind::Cast { target_ty, expr: x, .. } => {
                self.emit_expr(x);
                self.emit_narrow_to_type(target_ty);
            },
            _ => {},
        }
        proof {
            assert(self.out@ =~= old(self).out@ + expr_asm(*e, fr, c).0);
        }
    }

    /// A binary expression: short-circuit logic, or both operands then the operation.
    fn emit_binary_expr(&mut self, e: &TypedExpr)
        requires
            e.kind is Binary,
            gen_expr_ok(*e, old(self).fr()),
        ensures
            final(self).out@ == old(self).out@ + expr_asm(*e, old(self).fr(), old(self).label_counter).0,
            final(self).label_counter == expr_asm(*e, old(self).fr(), old(self).label_counter).1,
            final(self).same_ctx(&*old(self)),
        decreases e, 2nat,
    {
        let ghost fr = self.fr();
        let ghost c = self.label_counter;
        match &e.kind {
            TypedExprKind::Binary { op, operand_ty, left, right, .. } => {
                if *op == BinaryOp::LogicalAnd || *op == BinaryOp::LogicalOr {
                    let and = *op == BinaryOp::LogicalAnd;
                    let short = if and {
                        self.new_label("logical_and_false")
                    } else {
                        self.new_label("logical_or_true")
                    };
                    let end = if and {
                        self.new_label("logical_and_end")
                    } else {
                        self.new_label("logical_or_end")
                    };
                    self.emit_expr(left);
                    if and {
                        self.emit_line2("beqz a0, ", short.as_str());
                    } else {
                        self.emit_line2("bnez a0, ", short.as_str());
                    }
                    self.emit_expr(right);
                    self.emit_line("snez a0, a0");
                    self.emit_line2("j ", end.as_str());
                    self.emit_label(short.as_str());
                    if and {
                        self.emit_line("li a0, 0");
                    } else {
                        self.emit_line("li a0, 1");
                    }
                    self.emit_label(end.as_str());
                } else {
                    self.emit_expr(left);
                    self.push_a0();
                    self.emit_expr(right);
                    self.pop_t0();
                    self.emit_arith(*op, operand_ty, &left.ty, &right.ty);
                }
            },
            _ => {},
        }
        proof {
            assert(self.out@ =~= old(self).out@ + expr_asm(*e, fr, c).0);
        }
    }

    /// A call: arguments pushed in order, popped into `a0`..`a7`, then `call`.
    fn emit_call(&mut self, e: &TypedExpr)
        requires
            e.kind is Call,
            gen_expr_ok(*e, old(self).fr()),
        ensures
            final(self).out@ == old(self).out@ + expr_asm(*e, old(self).fr(), old(self).label_counter).0,
            final(self).label_counter == expr_asm(*e, old(self).fr(), old(self).label_counter).1,
            final(self).same_ctx(&*old(self)),
        decreases e, 2nat,
    {
        let ghost fr = self.fr();
        let ghost c = self.label_counter;
        match &e.kind {
            TypedExprKind::Call { callee, args, .. } => {
                proof {
                    assert(decreases_to!(*e => args@));
                }
                self.emit_args(args);
                let n = args.len();
                let ghost target = self.out@ + pops_asm(n as nat);
                let mut k: usize = n;
                while k > 0
                    invariant
                        k <= n,
                        self.out@ + pops_asm(k as nat) == target,
                        self.same_ctx(&*old(self)),
                        self.label_counter == args_asm(args@, fr, c).1,
                    decreases k,
                {
                    let ghost before = self.out@;
                    self.emit_line_unum3("lw a", (k - 1) as u64, ", 0(sp)");
                    self.emit_line("addi sp, sp, 4");
                    proof {
                        assert(self.out@ + pops_asm((k - 1) as nat) =~= before + pops_asm(k as nat));
                    }
                    k = k - 1;
                }
                match &callee.kind {
                    TypedExprKind::FunctionDesignator { name, .. } => self.emit_line2("call ", name.as_str()),
                    _ => {},
                }
            },
            _ => {},
        }
        proof {
            assert(self.out@ =~= old(self).out@ + expr_asm(*e, fr, c).0);
        }
    }

    /// An assignment: the target address, the value, then the store.
    fn emit_assign(&mut self, e: &TypedExpr)
        requires
            e.kind is Assign,
            gen_expr_ok(*e, old(self).fr()),
        ensures
            final(self).out@ == old(self).out@ + expr_asm(*e, old(self).fr(), old(self).label_counter).0,
            final(self).label_counter == expr_asm(*e, old(self).fr(), old(self).label_counter).1,
            final(self).same_ctx(&*old(self)),
        decreases e, 2nat,
    {
        let ghost fr = self.fr();
        let ghost c = self.label_counter;
        match &e.kind {
            TypedExprKind::Assign { target, value, .. } => {
                self.emit_addr(target);
                self.push_a0();
                self.emit_expr(value);
                self.pop_t0();
                self.emit_store_to_base_offset(&target.ty, "t0", 0);
            },
            _ => {},
        }
        proof {
            assert(self.out@ =~= old(self).out@ + expr_asm(*e, fr, c).0);
        }
    }

    /// A compound assignment: the target address and old value, the operand, the operation, the store.
    #[verifier::rlimit(40)]
    fn emit_compound_assign(&mut self, e: &TypedExpr)
        requires
            e.kind is CompoundAssign,
            gen_expr_ok(*e, old(self).fr()),
        ensures
            final(self).out@ == old(self).out@ + expr_asm(*e, old(self).fr(), old(self).label_counter).0,
            final(self).label_counter == expr_asm(*e, old(self).fr(), old(self).label_counter).1,
            final(self).same_ctx(&*old(self)),
        decreases e, 2nat,
    {
        let ghost fr = self.fr();
        let ghost c = self.label_counter;
        match &e.kind {
            TypedExprKind::CompoundAssign { target, op, operand_ty, value, .. } => {
                self.emit_addr(target);
                self.push_a0();
                self.emit_load_from_addr(&target.ty);
                self.push_a0();
                self.emit_expr(value);
                self.pop_t0();
                self.emit_arith(*op, operand_ty, &target.ty, &value.ty);
                self.pop_t0();
                self.emit_store_to_base_offset(&target.ty, "t0", 0);
            },
            _ => {},
        }
        proof {
            assert(self.out@ =~= old(self).out@ + expr_asm(*e, fr, c).0);
        }
    }

    /// Evaluates and pushes each argument in order.
    fn emit_args(&mut self, args: &Vec<TypedExpr>)
        requires
            gen_args_ok(args@, old(self).fr()),
        ensures
            final(self).out@ == old(self).out@ + args_asm(args@, old(self).fr(), old(self).label_counter).0,
            final(self).label_counter == args_asm(args@, old(self).fr(), old(self).label_counter).1,
            final(self).same_ctx(&*old(self)),
        decreases args@, 0nat,
    {
        let ghost fr = self.fr();
        let ghost c = self.label_counter;
        let mut i: usize = 0;
        proof {
            assert(args@.take(0) =~= Seq::<TypedExpr>::empty());
            assert(self.out@ =~= old(self).out@ + args_asm(args@.take(0), fr, c).0);
        }
        while i < args.len()
            invariant
                i <= args@.len(),
                fr == self.fr(),
                gen_args_ok(args@, fr),
                self.same_ctx(&*old(self)),
                self.out@ == old(self).out@ + args_asm(args@.take(i as int), fr, c).0,
                self.label_counter == args_asm(args@.take(i as int), fr, c).1,
            decreases args.len() - i,
        {
            proof {
                assert(args@.take(i as int + 1).drop_last() =~= args@.take(i as int));
                assert(args@.take(i as int + 1)[i as int] == args@[i as int]);
                lemma_gen_args_index(args@, fr, i as int);
                assert(decreases_to!(args@ => args@[i as int]));
            }
            self.emit_expr(&args[i]);
            self.push_a0();
            proof {
                assert(self.out@ =~= old(self).out@ + args_asm(args@.take(i as int + 1), fr, c).0);
            }
            i = i + 1;
        }
        proof {
            assert(args@.take(i as int) =~= args@);
        }
    }

    /// `++` or `--` by `delta` on the object `x`; the postfix forms leave the old value in `a0`.
    #[verifier::rlimit(60)]
    fn emit_inc_dec(&mut self, x: &TypedExpr, delta: i32, postfix: bool)
        requires
            gen_step_ok(*x, old(self).fr()),
            delta == 1 || delta == -1,
        ensures
            final(self).out@ == old(self).out@ + inc_dec_asm(*x, old(self).fr(), old(self).label_counter, delta as int, postfix).0,
            final(self).label_counter == inc_dec_asm(*x, old(self).fr(), old(self).label_counter, delta as int, postfix).1,
            final(self).same_ctx(&*old(self)),
        decreases x, 2nat,
    {
        let ghost fr = self.fr();
        let ghost c = self.label_counter;
        self.emit_addr(x);
        self.emit_line("mv t0, a0");
        self.emit_load_from_addr(&x.ty);
        if postfix {
            self.push_a0();
        }
        let mut accumulator: i32 = delta;
        match &x.ty {
            Type::Pointer(inner) => {
                let size = inner.size() as i32;
                accumulator = delta * size;
            },
            _ => {},
        }
        self.emit_line_num("addi a0, a0, ", accumulator as i64);
        self.emit_store_to_base_offset(&x.ty, "t0", 0);
        if postfix {
            self.pop_a0();
        }
        proof {
            assert(self.out@ =~= old(self).out@ + inc_dec_asm(*x, fr, c, delta as int, postfix).0);
        }
    }

    /// Computes the address of the object `e` into `a0`.
    fn emit_addr(&mut self, e: &TypedExpr)
        requires
            gen_addr_ok(*e, old(self).fr()),
        ensures
            final(self).out@ == old(self).out@ + addr_asm(*e, old(self).fr(), old(self).label_counter).0,
            final(self).label_counter == addr_asm(*e, old(self).fr(), old(self).label_counter).1,
            final(self).same_ctx(&*old(self)),
        decreases e, 0nat,
    {
        let ghost fr = self.fr();
        let ghost c = self.label_counter;
        match &e.kind {
            TypedExprKind::Variable { id, .. } => {
                match id {
                    ObjectId::Local(l) => match self.resolve_local(*l) {
                        Some(slot) => self.emit_line_num("addi a0, s0, ", slot.offset as i64),
                        None => {},
                    },
                    _ => {},
                }
            },
            TypedExprKind::Unary { expr: operand, .. } => {
                self.emit_expr(operand);
            },
            TypedExprKind::Index { base, index, .. } => {
                let elem_size: i32 = match &base.ty {
                    Type::Array { element, .. } => {
                        self.emit_addr(base);
                        element.size() as i32
                    },
                    Type::Pointer(element) => {
                        self.emit_expr(base);
                        element.size() as i32
                    },
                    _ => 1,
                };
                self.push_a0();
                self.emit_expr(index);
                self.scale_reg(elem_size, "a0");
                self.pop_t0();
                self.emit_line("add a0, t0, a0");
            },
            _ => {},
        }
        proof {
            assert(self.out@ =~= old(self).out@ + addr_asm(*e, fr, c).0);
        }
    }
}

/// The jump targets of the enclosing loops, innermost last: (continue, break).
pub open spec fn loops_view(ls: Seq<LoopLabels>) -> Seq<(Seq<char>, Seq<char>)> {
    Seq::new(ls.len(), |k: int| (ls[k].continue_label@, ls[k].break_label@))
}

/// The values of an array initializer list, each stored at its element's offset.
pub open spec fn list_values_asm(vs: Seq<TypedExpr>, fr: Seq<(LocalId, int, Type)>, c: usize, elem: Type, offset: int) -> (
    Seq<char>,
    usize,
)
    decreases vs.len(),
{
    if vs.len() == 0 {
        (Seq::empty(), c)
    } else {
        let p = list_values_asm(vs.drop_last(), fr, c, elem, offset);
        let x = expr_asm(vs.last(), fr, p.1);
        (p.0 + x.0 + store_asm(elem, "s0"@, offset + (vs.len() - 1) * spec_size(elem)), x.1)
    }
}

/// Zeros stored in the elements `from` up to `to` of an array at `offset`.
pub open spec fn zero_fill_asm(from: nat, to: nat, elem: Type, offset: int) -> Seq<char>
    decreases to - from,
{
    if from >= to {
        Seq::empty()
    } else {
        ln("li a0, 0"@) + store_asm(elem, "s0"@, offset + from * spec_size(elem)) + zero_fill_asm(
            (from + 1) as nat,
            to,
            elem,
            offset,
        )
    }
}

/// The initialization of one declared local, if it has an initializer.
pub open spec fn decl_asm(d: TypedLocalDecl, fr: Seq<(LocalId, int, Type)>, c: usize) -> (Seq<char>, usize) {
    match d.init {
        Some(TypedInitializer::Expr(e)) => {
            let x = expr_asm(e, fr, c);
            let slot = lookup(fr, d.id).unwrap();
            (x.0 + store_asm(slot.1, "s0"@, slot.0), x.1)
        },
        Some(TypedInitializer::List(vs)) => {
            let slot = lookup(fr, d.id).unwrap();
            match slot.1 {
                Type::Array { element, len } => {
                    let v = list_values_asm(vs@, fr, c, *element, slot.0);
                    (v.0 + zero_fill_asm(vs@.len(), len as nat, *element, slot.0), v.1)
                },
                _ => (Seq::empty(), c),
            }
        },
        None => (Seq::empty(), c),
    }
}

/// The initializations of declared locals, in order.
pub open spec fn decls_asm(ds: Seq<TypedLocalDecl>, fr: Seq<(LocalId, int, Type)>, c: usize) -> (Seq<char>, usize)
    decreases ds.len(),
{
    if ds.len() == 0 {
        (Seq::empty(), c)
    } else {
        let p = decls_asm(ds.drop_last(), fr, c);
        let d = decl_asm(ds.last(), fr, p.1);
        (p.0 + d.0, d.1)
    }
}

/// The code of a statement, given the frame, the label counter, the
/// enclosing loops' labels, the return type and the return label.
pub open spec fn stmt_asm(
    s: TypedStatement,
    fr: Seq<(LocalId, int, Type)>,
    c: usize,
    loops: Seq<(Seq<char>, Seq<char>)>,
    ret: Type,
    rl: Seq<char>,
) -> (Seq<char>, usize)
    decreases s, 1nat,
{
    match s {
        TypedStatement::Return(e) => {
            let x = expr_asm(e, fr, c);
            (x.0 + narrow_asm(ret) + ln("j "@ + rl), x.1)
        },
        TypedStatement::Decl(ds) => decls_asm(ds@, fr, c),
        TypedStatement::Block(body) => {
            proof {
                assert(decreases_to!(s => body@));
            }
            stmts_asm(body@, fr, c, loops, ret, rl)
        },
        TypedStatement::If { cond, then_branch, else_branch } => {
            let x = expr_asm(cond, fr, c);
            let end = label("if_end"@, x.1);
            match else_branch {
                Some(e) => {
                    let else_label = label("if_else"@, next(x.1));
                    let t = stmt_asm(*then_branch, fr, next(next(x.1)), loops, ret, rl);
                    let el = stmt_asm(*e, fr, t.1, loops, ret, rl);
                    (x.0 + ln("beqz a0, "@ + else_label) + t.0 + ln("j "@ + end) + label_line(else_label) + el.0
                        + label_line(end), el.1)
                },
                None => {
                    let t = stmt_asm(*then_branch, fr, next(x.1), loops, ret, rl);
                    (x.0 + ln("beqz a0, "@ + end) + t.0 + label_line(end), t.1)
                },
            }
        },
        TypedStatement::While { cond, body } => {
            let start = label("while_start"@, c);
            let end = label("while_end"@, next(c));
            let x = expr_asm(cond, fr, next(next(c)));
            let b = stmt_asm(*body, fr, x.1, loops.push((start, end)), ret, rl);
            (label_line(start) + x.0 + ln("beqz a0, "@ + end) + b.0 + ln("j "@ + start) + label_line(end), b.1)
        },
        TypedStatement::DoWhile { body, cond } => {
            let start = label("do_while_start"@, c);
            let cont = label("do_while_continue"@, next(c));
            let end = label("do_while_end"@, next(next(c)));
            let b = stmt_asm(*body, fr, next(next(next(c))), loops.push((cont, end)), ret, rl);
            let x = expr_asm(cond, fr, b.1);
            (label_line(start) + b.0 + label_line(cont) + x.0 + ln("bnez a0, "@ + start) + label_line(end), x.1)
        },
        TypedStatement::For { init, cond, post, body } => {
            let start = label("for_start"@, c);
            let cont = label("for_continue"@, next(c));
            let brk = label("for_break"@, next(next(c)));
            let inner = loops.push((cont, brk));
            let i = match init {
                Some(i) => stmt_asm(*i, fr, next(next(next(c))), inner, ret, rl),
                None => (Seq::<char>::empty(), next(next(next(c)))),
            };
            let cd = match cond {
                Some(e) => {
                    let x = expr_asm(e, fr, i.1);
                    (x.0 + ln("beqz a0, "@ + brk), x.1)
                },
                None => (Seq::<char>::empty(), i.1),
            };
            let b = stmt_asm(*body, fr, cd.1, inner, ret, rl);
            let p = match post {
                Some(e) => expr_asm(e, fr, b.1),
                None => (Seq::<char>::empty(), b.1),
            };
            (i.0 + label_line(start) + cd.0 + b.0 + label_line(cont) + p.0 + ln("j "@ + start) + label_line(brk), p.1)
        },
        TypedStatement::Empty => (Seq::empty(), c),
        TypedStatement::ExprStatement(e) => expr_asm(e, fr, c),
        TypedStatement::Break { .. } => if loops.len() > 0 {
            (ln("j "@ + loops.last().1), c)
        } else {
            (Seq::empty(), c)
        },
        TypedStatement::Continue { .. } => if loops.len() > 0 {
            (ln("j "@ + loops.last().0), c)
        } else {
            (Seq::empty(), c)
        },
    }
}

/// The code of statements in order.
pub open spec fn stmts_asm(
    ss: Seq<TypedStatement>,
    fr: Seq<(LocalId, int, Type)>,
    c: usize,
    loops: Seq<(Seq<char>, Seq<char>)>,
    ret: Type,
    rl: Seq<char>,
) -> (Seq<char>, usize)
    decreases ss, 0nat,
{
    if ss.len() == 0 {
        (Seq::empty(), c)
    } else {
        proof {
            assert(decreases_to!(ss => ss[ss.len() - 1]));
            assert(decreases_to!(ss => ss.drop_last()));
        }
        let p = stmts_asm(ss.drop_last(), fr, c, loops, ret, rl);
        let x = stmt_asm(ss[ss.len() - 1], fr, p.1, loops, ret, rl);
        (p.0 + x.0, x.1)
    }
}

/// A local's initialization can be generated: its slot exists; a scalar
/// takes one value; an array takes at most its length of values, its
/// elements fit `i32` offsets from a slot at or below the frame pointer.
pub open spec fn gen_decl_ok(d: TypedLocalDecl, fr: Seq<(LocalId, int, Type)>) -> bool {
    match d.init {
        None => true,
        Some(TypedInitializer::Expr(e)) => {
            &&& gen_expr_ok(e, fr)
            &&& lookup(fr, d.id) matches Some((_, t)) && spec_is_scalar(t)
        },
        Some(TypedInitializer::List(vs)) => {
            &&& lookup(fr, d.id) matches Some((offset, t)) && (t matches Type::Array { element, len } && {
                &&& elem_ok(*element)
                &&& spec_is_scalar(*element)
                &&& vs@.len() <= len
                &&& len * spec_size(*element) <= i32::MAX
                &&& i32::MIN <= offset <= 0
            })
            &&& forall|k: int| 0 <= k < vs@.len() ==> gen_expr_ok(#[trigger] vs@[k], fr)
        },
    }
}

/// The generator can produce a statement: every expression and
/// initialization in it can be generated, and a returned value is a scalar.
pub open spec fn gen_stmt_ok(s: TypedStatement, fr: Seq<(LocalId, int, Type)>, ret: Type) -> bool
    decreases s, 1nat,
{
    match s {
        TypedStatement::Return(e) => gen_expr_ok(e, fr) && spec_is_scalar(ret),
        TypedStatement::Decl(ds) => forall|k: int| 0 <= k < ds@.len() ==> gen_decl_ok(#[trigger] ds@[k], fr),
        TypedStatement::Block(body) => {
            proof {
                assert(decreases_to!(s => body@));
            }
            gen_stmts_ok(body@, fr, ret)
        },
        TypedStatement::If { cond, then_branch, else_branch } => {
            &&& gen_expr_ok(cond, fr)
            &&& gen_stmt_ok(*then_branch, fr, ret)
            &&& match else_branch {
                Some(e) => gen_stmt_ok(*e, fr, ret),
                None => true,
            }
        },
        TypedStatement::While { cond, body } => gen_expr_ok(cond, fr) && gen_stmt_ok(*body, fr, ret),
        TypedStatement::DoWhile { body, cond } => gen_expr_ok(cond, fr) && gen_stmt_ok(*body, fr, ret),
        TypedStatement::For { init, cond, post, body } => {
            &&& match init {
                Some(i) => gen_stmt_ok(*i, fr, ret),
                None => true,
            }
            &&& match cond {
                Some(e) => gen_expr_ok(e, fr),
                None => true,
            }
            &&& match post {
                Some(e) => gen_expr_ok(e, fr),
                None => true,
            }
            &&& gen_stmt_ok(*body, fr, ret)
        },
        TypedStatement::ExprStatement(e) => gen_expr_ok(e, fr),
        _ => true,
    }
}

/// Every statement of a sequence can be generated.
pub open spec fn gen_stmts_ok(ss: Seq<TypedStatement>, fr: Seq<(LocalId, int, Type)>, ret: Type) -> bool
    decreases ss, 0nat,
{
    if ss.len() == 0 {
        true
    } else {
        proof {
            assert(decreases_to!(ss => ss[ss.len() - 1]));
            assert(decreases_to!(ss => ss.drop_last()));
        }
        gen_stmts_ok(ss.drop_last(), fr, ret) && gen_stmt_ok(ss[ss.len() - 1], fr, ret)
    }
}

pub proof fn lemma_gen_stmts_index(ss: Seq<TypedStatement>, fr: Seq<(LocalId, int, Type)>, ret: Type, k: int)
    requires
        gen_stmts_ok(ss, fr, ret),
        0 <= k < ss.len(),
    ensures
        gen_stmt_ok(ss[k], fr, ret),
    decreases ss.len(),
{
    if k < ss.len() - 1 {
        lemma_gen_stmts_index(ss.drop_last(), fr, ret, k);
    }
}

impl<'a> Codegen<'a> {
    spec fn loops(&self) -> Seq<(Seq<char>, Seq<char>)> {
        loops_view(self.loop_stack@)
    }

    spec fn ret(&self) -> Type {
        *self.current_function_return_type.unwrap()
    }

    /// Jumps to the return label of the current function.
    fn emit_jump_to_return(&mut self)
        ensures
            final(self).out@ == old(self).out@ + ln("j "@ + old(self).return_label@),
            final(self).same_ctx(&*old(self)),
            final(self).label_counter == old(self).label_counter,
    {
        push_str(&mut self.out, "    ");
        push_str(&mut self.out, "j ");
        push_str(&mut self.out, self.return_label.as_str());
        push_str(&mut self.out, "\n");
        proof {
            assert(self.out@ =~= old(self).out@ + ln("j "@ + old(self).return_label@));
        }
    }

    /// Jumps to the break (`to_break`) or continue label of the innermost loop, if any.
    fn emit_loop_jump(&mut self, to_break: bool)
        ensures
            final(self).out@ == old(self).out@ + if old(self).loops().len() > 0 {
                ln("j "@ + if to_break { old(self).loops().last().1 } else { old(self).loops().last().0 })
            } else {
                Seq::empty()
            },
            final(self).same_ctx(&*old(self)),
            final(self).label_counter == old(self).label_counter,
    {
        let n = self.loop_stack.len();
        if n > 0 {
            push_str(&mut self.out, "    ");
            push_str(&mut self.out, "j ");
            if to_break {
                push_str(&mut self.out, self.loop_stack[n - 1].break_label.as_str());
            } else {
                push_str(&mut self.out, self.loop_stack[n - 1].continue_label.as_str());
            }
            push_str(&mut self.out, "\n");
        }
        proof {
            assert(self.out@ =~= old(self).out@ + if old(self).loops().len() > 0 {
                ln("j "@ + if to_break { old(self).loops().last().1 } else { old(self).loops().last().0 })
            } else {
                Seq::empty()
            });
        }
    }

    fn push_loop_labels(&mut self, continue_label: &String, break_label: &String)
        ensures
            final(self).loops() == old(self).loops().push((continue_label@, break_label@)),
            final(self).out == old(self).out,
            final(self).label_counter == old(self).label_counter,
            final(self).frame == old(self).frame,
            final(self).return_label == old(self).return_label,
            final(self).current_function_return_type == old(self).current_function_return_type,
            final(self).target == old(self).target,
            final(self).loop_stack@.drop_last() == old(self).loop_stack@,
    {
        self.loop_stack.push(LoopLabels { continue_label: continue_label.clone(), break_label: break_label.clone() });
        proof {
            assert(self.loops() =~= old(self).loops().push((continue_label@, break_label@)));
            assert(self.loop_stack@.drop_last() =~= old(self).loop_stack@);
        }
    }

    fn pop_loop_labels(&mut self)
        requires
            old(self).loop_stack@.len() > 0,
        ensures
            final(self).loop_stack@ == old(self).loop_stack@.drop_last(),
            final(self).out == old(self).out,
            final(self).label_counter == old(self).label_counter,
            final(self).frame == old(self).frame,
            final(self).return_label == old(self).return_label,
            final(self).current_function_return_type == old(self).current_function_return_type,
            final(self).target == old(self).target,
    {
        self.loop_stack.pop();
    }

    /// Emits a statement of the current function.
    fn emit_statement(&mut self, s: &TypedStatement)
        requires
            old(self).current_function_return_type is Some,
            gen_stmt_ok(*s, old(self).fr(), old(self).ret()),
        ensures
            final(self).out@ == old(self).out@ + stmt_asm(
                *s,
                old(self).fr(),
                old(self).label_counter,
                old(self).loops(),
                old(self).ret(),
                old(self).return_label@,
            ).0,
            final(self).label_counter == stmt_asm(
                *s,
                old(self).fr(),
                old(self).label_counter,
                old(self).loops(),
                old(self).ret(),
                old(self).return_label@,
            ).1,
            final(self).same_ctx(&*old(self)),
        decreases s, 3nat,
    {
        let ghost fr = self.fr();
        let ghost c = self.label_counter;
        match s {
            TypedStatement::Return(e) => {
                self.emit_expr(e);
                match self.current_function_return_type {
                    Some(t) => self.emit_narrow_to_type(t),
                    None => {},
                }
                self.emit_jump_to_return();
            },
            TypedStatement::Decl(ds) => self.emit_decls(ds),
            TypedStatement::Block(body) => {
                proof {
                    assert(decreases_to!(*s => body@));
                }
                self.emit_statements(body);
            },
            TypedStatement::If { .. } => self.emit_if(s),
            TypedStatement::While { .. } => self.emit_while(s),
            TypedStatement::DoWhile { .. } => self.emit_do_while(s),
            TypedStatement::For { .. } => self.emit_for(s),
            TypedStatement::Empty => {},
            TypedStatement::ExprStatement(e) => self.emit_expr(e),
            TypedStatement::Break { .. } => self.emit_loop_jump(true),
            TypedStatement::Continue { .. } => self.emit_loop_jump(false),
        }
        proof {
            assert(self.out@ =~= old(self).out@ + stmt_asm(*s, fr, c, old(self).loops(), old(self).ret(), old(self).return_label@).0);
        }
    }

    /// Emits statements in order.
    fn emit_statements(&mut self, body: &Vec<TypedStatement>)
        requires
            old(self).current_function_return_type is Some,
            gen_stmts_ok(body@, old(self).fr(), old(self).ret()),
        ensures
            final(self).out@ == old(self).out@ + stmts_asm(
                body@,
                old(self).fr(),
                old(self).label_counter,
                old(self).loops(),
                old(self).ret(),
                old(self).return_label@,
            ).0,
            final(self).label_counter == stmts_asm(
                body@,
                old(self).fr(),
                old(self).label_counter,
                old(self).loops(),
                old(self).ret(),
                old(self).return_label@,
            ).1,
            final(self).same_ctx(&*old(self)),
        decreases body@, 0nat,
    {
        let ghost fr = self.fr();
        let ghost c = self.label_counter;
        let ghost loops = self.loops();
        let ghost ret = self.ret();
        let ghost rl = self.return_label@;
        let mut i: usize = 0;
        proof {
            assert(body@.take(0) =~= Seq::<TypedStatement>::empty());
            assert(self.out@ =~= old(self).out@ + stmts_asm(body@.take(0), fr, c, loops, ret, rl).0);
        }
        while i < body.len()
            invariant
                i <= body@.len(),
                fr == self.fr(),
                loops == self.loops(),
                ret == self.ret(),
                rl == self.return_label@,
                self.current_function_return_type is Some,
                gen_stmts_ok(body@, fr, ret),
                self.same_ctx(&*old(self)),
                self.out@ == old(self).out@ + stmts_asm(body@.take(i as int), fr, c, loops, ret, rl).0,
                self.label_counter == stmts_asm(body@.take(i as int), fr, c, loops, ret, rl).1,
            decreases body.len() - i,
        {
            proof {
                assert(body@.take(i as int + 1).drop_last() =~= body@.take(i as int));
                assert(body@.take(i as int + 1)[i as int] == body@[i as int]);
                lemma_gen_stmts_index(body@, fr, ret, i as int);
                assert(decreases_to!(body@ => body@[i as int]));
            }
            self.emit_statement(&body[i]);
            proof {
                assert(self.out@ =~= old(self).out@ + stmts_asm(body@.take(i as int + 1), fr, c, loops, ret, rl).0);
            }
            i = i + 1;
        }
        proof {
            assert(body@.take(i as int) =~= body@);
        }
    }
}

proof fn lemma_mul_le(i: int, len: int, size: int)
    requires
        0 <= i <= len,
        0 <= size,
    ensures
        i * size <= len * size,
{
    assert(i * size <= len * size) by (nonlinear_arith)
        requires
            0 <= i <= len,
            0 <= size,
    ;
}

impl<'a> Codegen<'a> {
    /// The values of an array initializer stored element by element, then zeros up to the array length.
    fn emit_list_init(&mut self, values: &Vec<TypedExpr>, element: &Type, len: usize, offset: i32)
        requires
            elem_ok(*element),
            values@.len() <= len,
            len * spec_size(*element) <= i32::MAX,
            i32::MIN <= offset <= 0,
            forall|k: int| 0 <= k < values@.len() ==> gen_expr_ok(#[trigger] values@[k], old(self).fr()),
        ensures
            final(self).out@ == old(self).out@ + list_values_asm(values@, old(self).fr(), old(self).label_counter, *element, offset as int).0
                + zero_fill_asm(values@.len(), len as nat, *element, offset as int),
            final(self).label_counter == list_values_asm(values@, old(self).fr(), old(self).label_counter, *element, offset as int).1,
            final(self).same_ctx(&*old(self)),
    {
        let ghost fr = self.fr();
        let ghost c = self.label_counter;
        let esize = element.size();
        let mut i: usize = 0;
        proof {
            assert(values@.take(0) =~= Seq::<TypedExpr>::empty());
            assert(self.out@ =~= old(self).out@ + list_values_asm(values@.take(0), fr, c, *element, offset as int).0);
        }
        while i < values.len()
            invariant
                i <= values@.len(),
                values@.len() <= len,
                esize == spec_size(*element),
                len * spec_size(*element) <= i32::MAX,
                i32::MIN <= offset <= 0,
                fr == self.fr(),
                forall|k: int| 0 <= k < values@.len() ==> gen_expr_ok(#[trigger] values@[k], fr),
                self.same_ctx(&*old(self)),
                self.out@ == old(self).out@ + list_values_asm(values@.take(i as int), fr, c, *element, offset as int).0,
                self.label_counter == list_values_asm(values@.take(i as int), fr, c, *element, offset as int).1,
            decreases values.len() - i,
        {
            proof {
                assert(values@.take(i as int + 1).drop_last() =~= values@.take(i as int));
                assert(values@.take(i as int + 1).last() == values@[i as int]);
                lemma_mul_le(i as int, len as int, esize as int);
            }
            self.emit_expr(&values[i]);
            let at = offset + (i * esize) as i32;
            self.emit_store_to_base_offset(element, "s0", at);
            proof {
                assert(self.out@ =~= old(self).out@ + list_values_asm(values@.take(i as int + 1), fr, c, *element, offset as int).0);
            }
            i = i + 1;
        }
        proof {
            assert(values@.take(i as int) =~= values@);
        }
        let ghost mid = self.out@;
        let ghost target = mid + zero_fill_asm(values@.len(), len as nat, *element, offset as int);
        let mut k: usize = values.len();
        while k < len
            invariant
                values@.len() <= k <= len,
                esize == spec_size(*element),
                len * spec_size(*element) <= i32::MAX,
                i32::MIN <= offset <= 0,
                self.same_ctx(&*old(self)),
                self.label_counter == list_values_asm(values@, fr, c, *element, offset as int).1,
                self.out@ + zero_fill_asm(k as nat, len as nat, *element, offset as int) == target,
            decreases len - k,
        {
            let ghost before = self.out@;
            proof {
                lemma_mul_le(k as int, len as int, esize as int);
            }
            self.emit_line("li a0, 0");
            let at = offset + (k * esize) as i32;
            self.emit_store_to_base_offset(element, "s0", at);
            proof {
                assert(self.out@ + zero_fill_asm((k + 1) as nat, len as nat, *element, offset as int) =~= before
                    + zero_fill_asm(k as nat, len as nat, *element, offset as int));
            }
            k = k + 1;
        }
    }

    /// The initialization of one declared local.
    fn emit_decl(&mut self, d: &TypedLocalDecl)
        requires
            gen_decl_ok(*d, old(self).fr()),
        ensures
            final(self).out@ == old(self).out@ + decl_asm(*d, old(self).fr(), old(self).label_counter).0,
            final(self).label_counter == decl_asm(*d, old(self).fr(), old(self).label_counter).1,
            final(self).same_ctx(&*old(self)),
    {
        let ghost fr = self.fr();
        let ghost c = self.label_counter;
        match &d.init {
            Some(TypedInitializer::Expr(e)) => {
                self.emit_expr(e);
                match self.resolve_local(d.id) {
                    Some(slot) => self.emit_store_to_base_offset(slot.ty, "s0", slot.offset),
                    None => {},
                }
            },
            Some(TypedInitializer::List(values)) => {
                match self.resolve_local(d.id) {
                    Some(slot) => match slot.ty {
                        Type::Array { element, len } => {
                            self.emit_list_init(values, element, *len, slot.offset);
                        },
                        _ => {},
                    },
                    None => {},
                }
            },
            None => {},
        }
        proof {
            assert(self.out@ =~= old(self).out@ + decl_asm(*d, fr, c).0);
        }
    }

    /// The initializations of a declaration statement, in order.
    fn emit_decls(&mut self, ds: &Vec<TypedLocalDecl>)
        requires
            forall|k: int| 0 <= k < ds@.len() ==> gen_decl_ok(#[trigger] ds@[k], old(self).fr()),
        ensures
            final(self).out@ == old(self).out@ + decls_asm(ds@, old(self).fr(), old(self).label_counter).0,
            final(self).label_counter == decls_asm(ds@, old(self).fr(), old(self).label_counter).1,
            final(self).same_ctx(&*old(self)),
    {
        let ghost fr = self.fr();
        let ghost c = self.label_counter;
        let mut i: usize = 0;
        proof {
            assert(ds@.take(0) =~= Seq::<TypedLocalDecl>::empty());
            assert(self.out@ =~= old(self).out@ + decls_asm(ds@.take(0), fr, c).0);
        }
        while i < ds.len()
            invariant
                i <= ds@.len(),
                fr == self.fr(),
                forall|k: int| 0 <= k < ds@.len() ==> gen_decl_ok(#[trigger] ds@[k], fr),
                self.same_ctx(&*old(self)),
                self.out@ == old(self).out@ + decls_asm(ds@.take(i as int), fr, c).0,
                self.label_counter == decls_asm(ds@.take(i as int), fr, c).1,
            decreases ds.len() - i,
        {
            proof {
                assert(ds@.take(i as int + 1).drop_last() =~= ds@.take(i as int));
                assert(ds@.take(i as int + 1).last() == ds@[i as int]);
            }
            self.emit_decl(&ds[i]);
            proof {
                assert(self.out@ =~= old(self).out@ + decls_asm(ds@.take(i as int + 1), fr, c).0);
            }
            i = i + 1;
        }
        proof {
            assert(ds@.take(i as int) =~= ds@);
        }
    }

    /// An `if` statement: the condition, a branch over the then part, the optional else part.
    fn emit_if(&mut self, s: &TypedStatement)
        requires
            s is If,
            old(self).current_function_return_type is Some,
            gen_stmt_ok(*s, old(self).fr(), old(self).ret()),
        ensures
            final(self).out@ == old(self).out@ + stmt_asm(*s, old(self).fr(), old(self).label_counter, old(self).loops(), old(self).ret(), old(self).return_label@).0,
            final(self).label_counter == stmt_asm(*s, old(self).fr(), old(self).label_counter, old(self).loops(), old(self).ret(), old(self).return_label@).1,
            final(self).same_ctx(&*old(self)),
        decreases s, 2nat,
    {
        let ghost fr = self.fr();
        let ghost c = self.label_counter;
        match s {
            TypedStatement::If { cond, then_branch, else_branch } => {
                self.emit_expr(cond);
                let end_label = self.new_label("if_end");
                match else_branch {
                    Some(else_statement) => {
                        let else_label = self.new_label("if_else");
                        self.emit_line2("beqz a0, ", else_label.as_str());
                        self.emit_statement(then_branch);
                        self.emit_line2("j ", end_label.as_str());
                        self.emit_label(else_label.as_str());
                        self.emit_statement(else_statement);
                    },
                    None => {
                        self.emit_line2("beqz a0, ", end_label.as_str());
                        self.emit_statement(then_branch);
                    },
                }
                self.emit_label(end_label.as_str());
            },
            _ => {},
        }
        proof {
            assert(self.out@ =~= old(self).out@ + stmt_asm(*s, fr, c, old(self).loops(), old(self).ret(), old(self).return_label@).0);
        }
    }

    /// A `while` loop: the condition at the start label, the body, a jump back.
    fn emit_while(&mut self, s: &TypedStatement)
        requires
            s is While,
            old(self).current_function_return_type is Some,
            gen_stmt_ok(*s, old(self).fr(), old(self).ret()),
        ensures
            final(self).out@ == old(self).out@ + stmt_asm(*s, old(self).fr(), old(self).label_counter, old(self).loops(), old(self).ret(), old(self).return_label@).0,
            final(self).label_counter == stmt_asm(*s, old(self).fr(), old(self).label_counter, old(self).loops(), old(self).ret(), old(self).return_label@).1,
            final(self).same_ctx(&*old(self)),
        decreases s, 2nat,
    {
        let ghost fr = self.fr();
        let ghost c = self.label_counter;
        match s {
            TypedStatement::While { cond, body } => {
                let start_label = self.new_label("while_start");
                let end_label = self.new_label("while_end");
                self.push_loop_labels(&start_label, &end_label);
                self.emit_label(start_label.as_str());
                self.emit_expr(cond);
                self.emit_line2("beqz a0, ", end_label.as_str());
                self.emit_statement(body);
                self.emit_line2("j ", start_label.as_str());
                self.emit_label(end_label.as_str());
                self.pop_loop_labels();
            },
            _ => {},
        }
        proof {
            assert(self.out@ =~= old(self).out@ + stmt_asm(*s, fr, c, old(self).loops(), old(self).ret(), old(self).return_label@).0);
        }
    }

    /// A `do`-`while` loop: the body, the condition at the continue label, a jump back while true.
    fn emit_do_while(&mut self, s: &TypedStatement)
        requires
            s is DoWhile,
            old(self).current_function_return_type is Some,
            gen_stmt_ok(*s, old(self).fr(), old(self).ret()),
        ensures
            final(self).out@ == old(self).out@ + stmt_asm(*s, old(self).fr(), old(self).label_counter, old(self).loops(), old(self).ret(), old(self).return_label@).0,
            final(self).label_counter == stmt_asm(*s, old(self).fr(), old(self).label_counter, old(self).loops(), old(self).ret(), old(self).return_label@).1,
            final(self).same_ctx(&*old(self)),
        decreases s, 2nat,
    {
        let ghost fr = self.fr();
        let ghost c = self.label_counter;
        match s {
            TypedStatement::DoWhile { body, cond } => {
                let start_label = self.new_label("do_while_start");
                let continue_label = self.new_label("do_while_continue");
                let end_label = self.new_label("do_while_end");
                self.push_loop_labels(&continue_label, &end_label);
                self.emit_label(start_label.as_str());
                self.emit_statement(body);
                self.emit_label(continue_label.as_str());
                self.emit_expr(cond);
                self.emit_line2("bnez a0, ", start_label.as_str());
                self.emit_label(end_label.as_str());
                self.pop_loop_labels();
            },
            _ => {},
        }
        proof {
            assert(self.out@ =~= old(self).out@ + stmt_asm(*s, fr, c, old(self).loops(), old(self).ret(), old(self).return_label@).0);
        }
    }

    /// A `for` loop: the init, the condition at the start label, the body, the post expression at the continue label.
    #[verifier::rlimit(80)]
    fn emit_for(&mut self, s: &TypedStatement)
        requires
            s is For,
            old(self).current_function_return_type is Some,
            gen_stmt_ok(*s, old(self).fr(), old(self).ret()),
        ensures
            final(self).out@ == old(self).out@ + stmt_asm(*s, old(self).fr(), old(self).label_counter, old(self).loops(), old(self).ret(), old(self).return_label@).0,
            final(self).label_counter == stmt_asm(*s, old(self).fr(), old(self).label_counter, old(self).loops(), old(self).ret(), old(self).return_label@).1,
            final(self).same_ctx(&*old(self)),
        decreases s, 2nat,
    {
        let ghost fr = self.fr();
        let ghost c = self.label_counter;
        match s {
            TypedStatement::For { init, cond, post, body } => {
                let start_label = self.new_label("for_start");
                let continue_label = self.new_label("for_continue");
                let break_label = self.new_label("for_break");
                self.push_loop_labels(&continue_label, &break_label);
                match init {
                    Some(init_statement) => self.emit_statement(init_statement),
                    None => {},
                }
                self.emit_label(start_label.as_str());
                match cond {
                    Some(cond_expr) => {
                        self.emit_expr(cond_expr);
                        self.emit_line2("beqz a0, ", break_label.as_str());
                    },
                    None => {},
                }
                self.emit_statement(body);
                self.emit_label(continue_label.as_str());
                match post {
                    Some(post_expr) => self.emit_expr(post_expr),
                    None => {},
                }
                self.emit_line2("j ", start_label.as_str());
                self.emit_label(break_label.as_str());
                self.pop_loop_labels();
            },
            _ => {},
        }
        proof {
            assert(self.out@ =~= old(self).out@ + stmt_asm(*s, fr, c, old(self).loops(), old(self).ret(), old(self).return_label@).0);
        }
    }
}

/// Saving parameter register `a{reg}` into its slot at `offset`, truncated for byte types.
pub open spec fn store_param_asm(reg: nat, offset: int, t: Type) -> Seq<char> {
    if is_byte(t) {
        ln("andi a"@ + spec_decimal(reg) + ", a"@ + spec_decimal(reg) + ", 255"@) + ln(
            "sb a"@ + spec_decimal(reg) + ", "@ + spec_signed_decimal(offset) + "(s0)"@,
        )
    } else {
        ln("sw a"@ + spec_decimal(reg) + ", "@ + spec_signed_decimal(offset) + "(s0)"@)
    }
}

/// Saving every parameter register into its slot, in order.
pub open spec fn params_asm(ps: Seq<TypedParam>, fr: Seq<(LocalId, int, Type)>) -> Seq<char>
    decreases ps.len(),
{
    if ps.len() == 0 {
        Seq::empty()
    } else {
        let slot = lookup(fr, ps.last().id).unwrap();
        params_asm(ps.drop_last(), fr) + store_param_asm((ps.len() - 1) as nat, slot.0, slot.1)
    }
}

/// The entry of a function: its global label, the frame allocated, `ra` and `s0` saved, `s0` set.
pub open spec fn prologue_asm(name: Seq<char>, size: int) -> Seq<char> {
    ".globl "@ + name + "\n"@ + label_line(name) + ln("addi sp, sp, -"@ + spec_signed_decimal(size)) + ln(
        "sw ra, "@ + spec_signed_decimal(size - 4) + "("@ + "sp"@ + ")"@,
    ) + ln("sw s0, "@ + spec_signed_decimal(size - 8) + "("@ + "sp"@ + ")"@) + ln("addi s0, sp, "@ + spec_signed_decimal(size))
}

/// The exit of a function: its return label, `ra` and `s0` restored, the frame freed, `ret`.
pub open spec fn epilogue_asm(name: Seq<char>, size: int) -> Seq<char> {
    label_line(name + "_end"@) + ln("lw ra, "@ + spec_signed_decimal(size - 4) + "("@ + "sp"@ + ")"@) + ln(
        "lw s0, "@ + spec_signed_decimal(size - 8) + "("@ + "sp"@ + ")"@,
    ) + ln("addi sp, sp, "@ + spec_signed_decimal(size)) + ln("ret"@)
}

/// The code of a function: prologue, parameters saved, body, epilogue.
pub open spec fn function_asm(f: TypedFunction, c: usize) -> (Seq<char>, usize) {
    let fr = spec_frame(f);
    let size = spec_frame_size(f);
    let b = stmts_asm(f.body@, fr, c, Seq::empty(), f.return_type, f.name@ + "_end"@);
    (prologue_asm(f.name@, size) + params_asm(f.params@, fr) + b.0 + epilogue_asm(f.name@, size), b.1)
}

/// The code of a program: its functions in order, with one label counter throughout.
pub open spec fn program_asm(ds: Seq<TypedExternalDecl>, c: usize) -> (Seq<char>, usize)
    decreases ds.len(),
{
    if ds.len() == 0 {
        (Seq::empty(), c)
    } else {
        let p = program_asm(ds.drop_last(), c);
        match ds.last() {
            TypedExternalDecl::Function(f) => {
                let x = function_asm(f, p.1);
                (p.0 + x.0, x.1)
            },
            _ => p,
        }
    }
}

/// A function can be generated: its frame fits, each parameter has a scalar
/// slot, and its body can be generated against its return type.
pub open spec fn gen_function_ok(f: TypedFunction) -> bool {
    &&& layout_fits(0, function_slots(f))
    &&& forall|k: int| 0 <= k < f.params@.len() ==> (lookup(spec_frame(f), (#[trigger] f.params@[k]).id) matches Some((_, t))
        && spec_is_scalar(t))
    &&& gen_stmts_ok(f.body@, spec_frame(f), f.return_type)
}

/// Every function of a program can be generated.
pub open spec fn gen_program_ok(p: TypedProgram) -> bool {
    forall|k: int| 0 <= k < p.declarations@.len() ==> (#[trigger] p.declarations@[k] matches TypedExternalDecl::Function(f)
        ==> gen_function_ok(f))
}

impl<'a> Codegen<'a> {
    fn new(target: CodegenTarget) -> (g: Codegen<'a>)
        ensures
            g.out@ == Seq::<char>::empty(),
            g.label_counter == 0,
            g.loop_stack@.len() == 0,
    {
        Codegen {
            out: String::new(),
            frame: FrameLayout { size: 0, locals: Vec::new() },
            label_counter: 0,
            return_label: String::new(),
            loop_stack: Vec::new(),
            current_function_return_type: None,
            target,
        }
    }

    /// Saves parameter register `a{reg}` into `slot`.
    fn emit_store_param(&mut self, reg: usize, slot: FrameSlot<'a>)
        ensures
            final(self).out@ == old(self).out@ + store_param_asm(reg as nat, slot.offset as int, *slot.ty),
            final(self).same_ctx(&*old(self)),
            final(self).label_counter == old(self).label_counter,
    {
        match slot.ty {
            Type::Char | Type::UnsignedChar | Type::SignedChar => {
                push_str(&mut self.out, "    ");
                push_str(&mut self.out, "andi a");
                push_u64(&mut self.out, reg as u64);
                push_str(&mut self.out, ", a");
                push_u64(&mut self.out, reg as u64);
                push_str(&mut self.out, ", 255");
                push_str(&mut self.out, "\n");
                push_str(&mut self.out, "    ");
                push_str(&mut self.out, "sb a");
            },
            _ => {
                push_str(&mut self.out, "    ");
                push_str(&mut self.out, "sw a");
            },
        }
        push_u64(&mut self.out, reg as u64);
        push_str(&mut self.out, ", ");
        push_i64(&mut self.out, slot.offset as i64);
        push_str(&mut self.out, "(s0)");
        push_str(&mut self.out, "\n");
        proof {
            assert(self.out@ =~= old(self).out@ + store_param_asm(reg as nat, slot.offset as int, *slot.ty));
        }
    }

    fn emit_prologue(&mut self, name: &str)
        requires
            16 <= old(self).frame.size,
        ensures
            final(self).out@ == old(self).out@ + prologue_asm(name@, old(self).frame.size as int),
            final(self).same_ctx(&*old(self)),
            final(self).label_counter == old(self).label_counter,
    {
        let frame_size = self.frame.size;
        push_str(&mut self.out, ".globl ");
        push_str(&mut self.out, name);
        push_str(&mut self.out, "\n");
        self.emit_label(name);
        self.emit_line_num("addi sp, sp, -", frame_size as i64);
        self.emit_mem("sw ra, ", (frame_size - 4) as i64, "sp");
        self.emit_mem("sw s0, ", (frame_size - 8) as i64, "sp");
        self.emit_line_num("addi s0, sp, ", frame_size as i64);
        proof {
            assert(self.out@ =~= old(self).out@ + prologue_asm(name@, frame_size as int));
        }
    }

    fn emit_epilogue(&mut self, name: &str)
        requires
            16 <= old(self).frame.size,
        ensures
            final(self).out@ == old(self).out@ + epilogue_asm(name@, old(self).frame.size as int),
            final(self).same_ctx(&*old(self)),
            final(self).label_counter == old(self).label_counter,
    {
        let frame_size = self.frame.size;
        push_str(&mut self.out, name);
        push_str(&mut self.out, "_end");
        push_str(&mut self.out, ":\n");
        self.emit_mem("lw ra, ", (frame_size - 4) as i64, "sp");
        self.emit_mem("lw s0, ", (frame_size - 8) as i64, "sp");
        self.emit_line_num("addi sp, sp, ", frame_size as i64);
        self.emit_line("ret");
        proof {
            assert(self.out@ =~= old(self).out@ + epilogue_asm(name@, frame_size as int));
        }
    }

    /// Emits a function: prologue, parameters saved to their slots, body, epilogue.
    fn emit_function(&mut self, function: &'a TypedFunction)
        requires
            gen_function_ok(*function),
            old(self).loop_stack@.len() == 0,
        ensures
            final(self).out@ == old(self).out@ + function_asm(*function, old(self).label_counter).0,
            final(self).label_counter == function_asm(*function, old(self).label_counter).1,
            final(self).loop_stack@.len() == 0,
    {
        let ghost c = self.label_counter;
        self.frame = FrameLayout::for_function(function);
        proof {
            lemma_fold_bytes_fits(0, function_slots(*function));
            assert(16 <= self.frame.size);
        }
        let mut return_label = function.name.clone();
        push_str(&mut return_label, "_end");
        self.return_label = return_label;
        self.emit_prologue(function.name.as_str());
        let ghost fr = self.fr();
        let ghost o = self.out@;
        let mut i: usize = 0;
        proof {
            assert(function.params@.take(0) =~= Seq::<TypedParam>::empty());
            assert(self.out@ =~= o + params_asm(function.params@.take(0), fr));
        }
        while i < function.params.len()
            invariant
                i <= function.params@.len(),
                fr == self.fr(),
                fr == spec_frame(*function),
                gen_function_ok(*function),
                self.frame.size == spec_frame_size(*function),
                16 <= self.frame.size,
                self.return_label@ == function.name@ + "_end"@,
                self.label_counter == c,
                self.loop_stack@.len() == 0,
                self.out@ == o + params_asm(function.params@.take(i as int), fr),
            decreases function.params.len() - i,
        {
            let param = &function.params[i];
            proof {
                assert(function.params@.take(i as int + 1).drop_last() =~= function.params@.take(i as int));
                assert(function.params@.take(i as int + 1).last() == function.params@[i as int]);
            }
            match self.resolve_local(param.id) {
                Some(slot) => self.emit_store_param(i, slot),
                None => {},
            }
            proof {
                assert(self.out@ =~= o + params_asm(function.params@.take(i as int + 1), fr));
            }
            i = i + 1;
        }
        proof {
            assert(function.params@.take(i as int) =~= function.params@);
        }
        self.current_function_return_type = Some(&function.return_type);
        proof {
            assert(self.loops() =~= Seq::<(Seq<char>, Seq<char>)>::empty());
        }
        self.emit_statements(&function.body);
        self.current_function_return_type = None;
        self.emit_epilogue(function.name.as_str());
        proof {
            assert(self.out@ =~= old(self).out@ + function_asm(*function, c).0);
        }
    }
}

/// Generates RV32 assembly for a program: each function in order, with labels
/// numbered by one counter across the program.
pub fn generate(program: &TypedProgram, target: CodegenTarget) -> (assembly: String)
    requires
        gen_program_ok(*program),
    ensures
        assembly@ == program_asm(program.declarations@, 0).0,
{
    let mut codegen = Codegen::new(target);
    let ghost ds = program.declarations@;
    let mut i: usize = 0;
    proof {
        assert(ds.take(0) =~= Seq::<TypedExternalDecl>::empty());
    }
    while i < program.declarations.len()
        invariant
            i <= ds.len(),
            ds == program.declarations@,
            gen_program_ok(*program),
            codegen.loop_stack@.len() == 0,
            codegen.out@ == program_asm(ds.take(i as int), 0).0,
            codegen.label_counter == program_asm(ds.take(i as int), 0).1,
        decreases ds.len() - i,
    {
        proof {
            assert(ds.take(i as int + 1).drop_last() =~= ds.take(i as int));
            assert(ds.take(i as int + 1).last() == ds[i as int]);
        }
        match &program.declarations[i] {
            TypedExternalDecl::Function(function) => {
                proof {
                    assert(ds[i as int] matches TypedExternalDecl::Function(f) ==> gen_function_ok(f));
                }
                codegen.emit_function(function);
            },
            _ => {},
        }
        proof {
            assert(codegen.out@ =~= program_asm(ds.take(i as int + 1), 0).0);
        }
        i = i + 1;
    }
    proof {
        assert(ds.take(i as int) =~= ds);
    }
    codegen.out
}

/// The size of a type, if it has one and every size inside it fits a `usize`.
pub fn checked_size(t: &Type) -> (r: Option<usize>)
    ensures
        r matches Some(n) ==> spec_is_sized(*t) && spec_size_fits(*t) && n == spec_size(*t),
        r is None ==> !(spec_is_sized(*t) && spec_size_fits(*t)),
    decreases t,
{
    match t {
        Type::Char | Type::SignedChar | Type::UnsignedChar => Some(1),
        Type::Int | Type::UnsignedInt | Type::Pointer(_) | Type::Long | Type::UnsignedLong => Some(4),
        Type::Array { element, len } => match checked_size(element) {
            Some(e) => e.checked_mul(*len),
            None => None,
        },
        Type::Function(_) => None,
    }
}

/// Whether `t` can be indexed: sized, with its size within `i32`.
fn check_elem(t: &Type) -> (b: bool)
    ensures
        b == elem_ok(*t),
{
    match checked_size(t) {
        Some(n) => n <= 0x7fff_ffff,
        None => false,
    }
}

fn check_scalar(t: &Type) -> (b: bool)
    ensures
        b == spec_is_scalar(*t),
{
    t.is_integer() || t.is_pointer()
}

fn check_arith(op: BinaryOp, operand_ty: &Type, left: &Type, right: &Type) -> (b: bool)
    ensures
        b == arith_ok(op, *operand_ty, *left, *right),
{
    match operand_ty {
        Type::Pointer(p) => {
            if op == BinaryOp::Add || op == BinaryOp::Subtract {
                return check_elem(p) && ((op == BinaryOp::Add && left.is_pointer() && right.is_integer()) || (op
                    == BinaryOp::Add && left.is_integer() && right.is_pointer()) || (op == BinaryOp::Subtract
                    && left.is_pointer() && right.is_integer()));
            }
        },
        _ => {},
    }
    let needs_integer = op == BinaryOp::Divide || op == BinaryOp::Remainder || op == BinaryOp::Less || op
        == BinaryOp::LessEqual || op == BinaryOp::Greater || op == BinaryOp::GreaterEqual || op
        == BinaryOp::ShiftRight;
    op != BinaryOp::LogicalAnd && op != BinaryOp::LogicalOr && (!needs_integer || operand_ty.is_integer())
}

/// Lays one object of type `t` out after `bytes` bytes, if it fits.
fn fits_slot(bytes: u64, t: &Type) -> (r: Option<u64>)
    requires
        bytes <= layout_limit(),
    ensures
        r is Some <==> (spec_is_sized(*t) && spec_size_fits(*t) && bytes + spec_align(*t) + spec_size(*t)
            <= layout_limit()),
        r matches Some(b) ==> b == align_to(bytes as int, spec_align(*t) as int) + spec_size(*t),
{
    match checked_size(t) {
        Some(size) => {
            let align = t.align();
            proof {
                lemma_align_positive(*t);
            }
            if size as u64 > 0x7fff_ffe0 || align as u64 > 0x7fff_ffe0 || bytes + align as u64 + size as u64
                > 0x7fff_ffe0 {
                return None;
            }
            proof {
                lemma_align_to(bytes as int, align as int);
            }
            let aligned = (bytes + (align as u64 - 1)) / align as u64 * align as u64;
            Some(aligned + size as u64)
        },
        None => None,
    }
}

proof fn lemma_fits_one(start: int, a: Seq<(LocalId, Type)>, id: LocalId, t: Type)
    ensures
        layout_fits(start, a.push((id, t))) <==> (layout_fits(start, a) && spec_is_sized(t) && spec_size_fits(t)
            && fold_bytes(start, a) + spec_align(t) + spec_size(t) <= layout_limit()),
        fold_bytes(start, a.push((id, t))) == align_to(fold_bytes(start, a), spec_align(t) as int) + spec_size(t),
{
    assert(a.push((id, t)).drop_last() =~= a);
}

/// Lays out the locals declared in a statement after `bytes` bytes, if they fit.
fn fits_statement(s: &TypedStatement, bytes: u64) -> (r: Option<u64>)
    requires
        bytes <= layout_limit(),
    ensures
        r is Some <==> layout_fits(bytes as int, stmt_slots(*s)),
        r matches Some(b) ==> b == fold_bytes(bytes as int, stmt_slots(*s)),
    decreases s, 1nat,
{
    match s {
        TypedStatement::Decl(ds) => {
            let ghost all = decl_slots(ds@);
            let mut b = bytes;
            let mut i: usize = 0;
            while i < ds.len()
                invariant
                    i <= ds@.len(),
                    all == decl_slots(ds@),
                    stmt_slots(*s) == all,
                    bytes <= layout_limit(),
                    layout_fits(bytes as int, all.take(i as int)),
                    b == fold_bytes(bytes as int, all.take(i as int)),
                decreases ds.len() - i,
            {
                proof {
                    assert(all.take(i as int + 1) =~= all.take(i as int).push((ds@[i as int].id, ds@[i as int].ty)));
                    lemma_fits_one(bytes as int, all.take(i as int), ds@[i as int].id, ds@[i as int].ty);
                    lemma_fold_bytes_fits(bytes as int, all.take(i as int));
                }
                match fits_slot(b, &ds[i].ty) {
                    Some(n) => {
                        b = n;
                    },
                    None => {
                        proof {
                            if layout_fits(bytes as int, all) {
                                lemma_fits_prefix(bytes as int, all, i as int + 1);
                                assert(layout_fits(bytes as int, all.take(i as int).push((ds@[i as int].id, ds@[i as int].ty))));
                                assert(false);
                            }
                            assert(!layout_fits(bytes as int, stmt_slots(*s)));
                        }
                        return None;
                    },
                }
                i = i + 1;
            }
            proof {
                assert(all.take(i as int) =~= all);
            }
            Some(b)
        },
        TypedStatement::Block(body) => {
            proof {
                assert(decreases_to!(*s => body@));
            }
            fits_statements(body, bytes)
        },
        TypedStatement::If { then_branch, else_branch, .. } => {
            let ghost a = stmt_slots(**then_branch);
            let ghost e = match else_branch {
                Some(e) => stmt_slots(**e),
                None => Seq::empty(),
            };
            proof {
                lemma_fits_split(bytes as int, a, e);
            }
            let b = match fits_statement(then_branch, bytes) {
                Some(b) => b,
                None => {
                    return None;
                },
            };
            proof {
                lemma_fold_bytes_fits(bytes as int, a);
                lemma_fold_concat(bytes as int, a, e);
            }
            match else_branch {
                Some(else_statement) => fits_statement(else_statement, b),
                None => {
                    proof {
                        assert(a + e =~= a);
                    }
                    Some(b)
                },
            }
        },
        TypedStatement::While { body, .. } => fits_statement(body, bytes),
        TypedStatement::DoWhile { body, .. } => fits_statement(body, bytes),
        TypedStatement::For { init, body, .. } => {
            let ghost a = match init {
                Some(i) => stmt_slots(**i),
                None => Seq::empty(),
            };
            let ghost e = stmt_slots(**body);
            proof {
                lemma_fits_split(bytes as int, a, e);
            }
            let b = match init {
                Some(init_statement) => match fits_statement(init_statement, bytes) {
                    Some(b) => b,
                    None => {
                        return None;
                    },
                },
                None => bytes,
            };
            proof {
                if init is None {
                    assert(a + e =~= e);
                }
                lemma_fold_bytes_fits(bytes as int, a);
                lemma_fold_concat(bytes as int, a, e);
            }
            fits_statement(body, b)
        },
        _ => Some(bytes),
    }
}

/// Lays out the locals declared in statements after `bytes` bytes, if they fit.
fn fits_statements(ss: &Vec<TypedStatement>, bytes: u64) -> (r: Option<u64>)
    requires
        bytes <= layout_limit(),
    ensures
        r is Some <==> layout_fits(bytes as int, stmts_slots(ss@)),
        r matches Some(b) ==> b == fold_bytes(bytes as int, stmts_slots(ss@)),
    decreases ss@, 0nat,
{
    let mut b = bytes;
    let mut i: usize = 0;
    proof {
        assert(ss@.take(0) =~= Seq::<TypedStatement>::empty());
    }
    while i < ss.len()
        invariant
            i <= ss@.len(),
            bytes <= layout_limit(),
            layout_fits(bytes as int, stmts_slots(ss@.take(i as int))),
            b == fold_bytes(bytes as int, stmts_slots(ss@.take(i as int))),
        decreases ss.len() - i,
    {
        let ghost pre = stmts_slots(ss@.take(i as int));
        proof {
            assert(ss@.take(i as int + 1).drop_last() =~= ss@.take(i as int));
            assert(stmts_slots(ss@.take(i as int + 1)) == pre + stmt_slots(ss@[i as int]));
            lemma_fits_split(bytes as int, pre, stmt_slots(ss@[i as int]));
            lemma_fold_concat(bytes as int, pre, stmt_slots(ss@[i as int]));
            lemma_fold_bytes_fits(bytes as int, pre);
            assert(decreases_to!(ss@ => ss@[i as int]));
        }
        match fits_statement(&ss[i], b) {
            Some(n) => {
                b = n;
            },
            None => {
                proof {
                    if layout_fits(bytes as int, stmts_slots(ss@)) {
                        lemma_stmts_slots_prefix(ss@, i as int + 1);
                        lemma_fits_prefix_seq(bytes as int, stmts_slots(ss@.take(i as int + 1)), stmts_slots(ss@));
                    }
                }
                return None;
            },
        }
        i = i + 1;
    }
    proof {
        assert(ss@.take(i as int) =~= ss@);
    }
    Some(b)
}

/// Whether the locals of a function fit a frame.
pub fn fits_function(f: &TypedFunction) -> (b: bool)
    ensures
        b == layout_fits(0, function_slots(*f)),
{
    let ghost ps = param_slots(f.params@);
    let mut bytes: u64 = 0;
    let mut i: usize = 0;
    proof {
        assert(ps.take(0) =~= Seq::<(LocalId, Type)>::empty());
        lemma_fits_split(0, ps, stmts_slots(f.body@));
    }
    while i < f.params.len()
        invariant
            i <= f.params@.len(),
            ps == param_slots(f.params@),
            layout_fits(0, ps.take(i as int)),
            bytes == fold_bytes(0, ps.take(i as int)),
            layout_fits(0, function_slots(*f)) <==> (layout_fits(0, ps) && layout_fits(fold_bytes(0, ps), stmts_slots(f.body@))),
        decreases f.params.len() - i,
    {
        proof {
            assert(ps.take(i as int + 1) =~= ps.take(i as int).push((f.params@[i as int].id, f.params@[i as int].ty)));
            lemma_fits_one(0, ps.take(i as int), f.params@[i as int].id, f.params@[i as int].ty);
            lemma_fold_bytes_fits(0, ps.take(i as int));
        }
        match fits_slot(bytes, &f.params[i].ty) {
            Some(n) => {
                bytes = n;
            },
            None => {
                proof {
                    if layout_fits(0, ps) {
                        lemma_fits_prefix(0, ps, i as int + 1);
                    }
                }
                return false;
            },
        }
        i = i + 1;
    }
    proof {
        assert(ps.take(i as int) =~= ps);
        lemma_fold_bytes_fits(0, ps);
    }
    fits_statements(&f.body, bytes).is_some()
}

impl<'a> FrameLayout<'a> {
    /// The slot of a local: the last one recorded under its id.
    fn find(&self, id: LocalId) -> (r: Option<FrameSlot<'a>>)
        ensures
            r matches Some(slot) ==> lookup(frame_view(self.locals@), id) == Some((slot.offset as int, *slot.ty)),
            r is None ==> lookup(frame_view(self.locals@), id) is None,
    {
        let ghost fr = frame_view(self.locals@);
        let mut i: usize = self.locals.len();
        proof {
            assert(fr.take(i as int) =~= fr);
        }
        while i > 0
            invariant
                i <= self.locals@.len(),
                fr == frame_view(self.locals@),
                lookup(fr, id) == lookup(fr.take(i as int), id),
            decreases i,
        {
            proof {
                assert(fr.take(i as int).drop_last() =~= fr.take(i - 1));
            }
            if self.locals[i - 1].0 == id {
                return Some(self.locals[i - 1].1);
            }
            i = i - 1;
        }
        None
    }

    fn local_is_array(&self, id: ObjectId) -> (b: bool)
        ensures
            b == is_array_local(frame_view(self.locals@), id),
    {
        match id {
            ObjectId::Local(l) => match self.find(l) {
                Some(slot) => match slot.ty {
                    Type::Array { .. } => true,
                    _ => false,
                },
                None => false,
            },
            _ => false,
        }
    }

    /// Whether the value of `e` can be generated in this frame.
    pub fn expr_ok(&self, e: &TypedExpr) -> (b: bool)
        ensures
            b == gen_expr_ok(*e, frame_view(self.locals@)),
        decreases e, 1nat,
    {
        match &e.kind {
            TypedExprKind::IntLiteral { .. } => true,
            TypedExprKind::Binary { op, operand_ty, left, right, .. } => {
                self.expr_ok(left) && self.expr_ok(right) && (*op == BinaryOp::LogicalAnd || *op == BinaryOp::LogicalOr
                    || check_arith(*op, operand_ty, &left.ty, &right.ty))
            },
            TypedExprKind::Variable { id, .. } => self.addr_ok(e) && (self.local_is_array(*id) || check_scalar(&e.ty)),
            TypedExprKind::Unary { op, expr, .. } => match op {
                UnaryOp::AddressOf => self.addr_ok(expr),
                UnaryOp::Dereference => self.expr_ok(expr) && check_scalar(&e.ty),
                _ => self.expr_ok(expr),
            },
            TypedExprKind::Call { callee, args, .. } => {
                proof {
                    assert(decreases_to!(*e => args@));
                }
                let designated = match &callee.kind {
                    TypedExprKind::FunctionDesignator { .. } => true,
                    _ => false,
                };
                designated && self.args_ok(args)
            },
            TypedExprKind::Assign { target, value, .. } => {
                self.addr_ok(target) && self.expr_ok(value) && check_scalar(&target.ty)
            },
            TypedExprKind::CompoundAssign { target, op, operand_ty, value, .. } => {
                self.addr_ok(target) && self.expr_ok(value) && check_scalar(&target.ty) && *op != BinaryOp::LogicalAnd
                    && *op != BinaryOp::LogicalOr && check_arith(*op, operand_ty, &target.ty, &value.ty)
            },
            TypedExprKind::PrefixInc { expr, .. } => self.step_ok(expr),
            TypedExprKind::PrefixDec { expr, .. } => self.step_ok(expr),
            TypedExprKind::PostfixInc { expr, .. } => self.step_ok(expr),
            TypedExprKind::PostfixDec { expr, .. } => self.step_ok(expr),
            TypedExprKind::Index { .. } => self.addr_ok(e) && check_scalar(&e.ty),
            TypedExprKind::Cast { target_ty, expr, .. } => self.expr_ok(expr) && check_scalar(target_ty),
            _ => false,
        }
    }

    fn step_ok(&self, x: &TypedExpr) -> (b: bool)
        ensures
            b == gen_step_ok(*x, frame_view(self.locals@)),
        decreases x, 2nat,
    {
        self.addr_ok(x) && check_scalar(&x.ty) && match &x.ty {
            Type::Pointer(p) => check_elem(p),
            _ => true,
        }
    }

    fn args_ok(&self, args: &Vec<TypedExpr>) -> (b: bool)
        ensures
            b == gen_args_ok(args@, frame_view(self.locals@)),
        decreases args@, 0nat,
    {
        let ghost fr = frame_view(self.locals@);
        let mut i: usize = 0;
        proof {
            assert(args@.take(0) =~= Seq::<TypedExpr>::empty());
        }
        while i < args.len()
            invariant
                i <= args@.len(),
                fr == frame_view(self.locals@),
                gen_args_ok(args@.take(i as int), fr),
            decreases args.len() - i,
        {
            proof {
                assert(args@.take(i as int + 1).drop_last() =~= args@.take(i as int));
                assert(args@.take(i as int + 1)[i as int] == args@[i as int]);
                assert(decreases_to!(args@ => args@[i as int]));
            }
            if !self.expr_ok(&args[i]) {
                proof {
                    if gen_args_ok(args@, fr) {
                        lemma_gen_args_index(args@, fr, i as int);
                    }
                }
                return false;
            }
            i = i + 1;
        }
        proof {
            assert(args@.take(i as int) =~= args@);
        }
        true
    }

    /// Whether the address of `e` can be generated in this frame.
    pub fn addr_ok(&self, e: &TypedExpr) -> (b: bool)
        ensures
            b == gen_addr_ok(*e, frame_view(self.locals@)),
        decreases e, 0nat,
    {
        match &e.kind {
            TypedExprKind::Variable { id, .. } => match id {
                ObjectId::Local(l) => self.find(*l).is_some(),
                _ => false,
            },
            TypedExprKind::Unary { op, expr, .. } => *op == UnaryOp::Dereference && self.expr_ok(expr),
            TypedExprKind::Index { base, index, .. } => {
                self.expr_ok(index) && match &base.ty {
                    Type::Array { element, .. } => self.addr_ok(base) && check_elem(element),
                    Type::Pointer(element) => self.expr_ok(base) && check_elem(element),
                    _ => false,
                }
            },
            _ => false,
        }
    }

    fn decl_ok(&self, d: &TypedLocalDecl) -> (b: bool)
        ensures
            b == gen_decl_ok(*d, frame_view(self.locals@)),
    {
        let ghost fr = frame_view(self.locals@);
        match &d.init {
            None => true,
            Some(TypedInitializer::Expr(e)) => self.expr_ok(e) && match self.find(d.id) {
                Some(slot) => check_scalar(slot.ty),
                None => false,
            },
            Some(TypedInitializer::List(vs)) => {
                let shape = match self.find(d.id) {
                    Some(slot) => match slot.ty {
                        Type::Array { element, len } => {
                            match checked_size(element) {
                                Some(n) => n <= 0x7fff_ffff && check_scalar(element) && vs.len() <= *len && match len.checked_mul(n) {
                                    Some(total) => total <= 0x7fff_ffff,
                                    None => false,
                                } && slot.offset <= 0,
                                None => false,
                            }
                        },
                        _ => false,
                    },
                    None => false,
                };
                if !shape {
                    return false;
                }
                let mut i: usize = 0;
                while i < vs.len()
                    invariant
                        i <= vs@.len(),
                        d.init == Some(TypedInitializer::List(*vs)),
                        fr == frame_view(self.locals@),
                        forall|k: int| 0 <= k < i ==> gen_expr_ok(#[trigger] vs@[k], fr),
                    decreases vs.len() - i,
                {
                    if !self.expr_ok(&vs[i]) {
                        proof {
                            assert(!gen_expr_ok(vs@[i as int], fr));
                        }
                        return false;
                    }
                    i = i + 1;
                }
                true
            },
        }
    }

    fn decls_ok(&self, ds: &Vec<TypedLocalDecl>) -> (b: bool)
        ensures
            b == forall|k: int| 0 <= k < ds@.len() ==> gen_decl_ok(#[trigger] ds@[k], frame_view(self.locals@)),
    {
        let ghost fr = frame_view(self.locals@);
        let mut i: usize = 0;
        while i < ds.len()
            invariant
                i <= ds@.len(),
                fr == frame_view(self.locals@),
                forall|k: int| 0 <= k < i ==> gen_decl_ok(#[trigger] ds@[k], fr),
            decreases ds.len() - i,
        {
            if !self.decl_ok(&ds[i]) {
                return false;
            }
            i = i + 1;
        }
        true
    }

    /// Whether a statement can be generated in this frame against return type `ret`.
    pub fn stmt_ok(&self, s: &TypedStatement, ret: &Type) -> (b: bool)
        ensures
            b == gen_stmt_ok(*s, frame_view(self.locals@), *ret),
        decreases s, 1nat,
    {
        let ghost fr = frame_view(self.locals@);
        match s {
            TypedStatement::Return(e) => self.expr_ok(e) && check_scalar(ret),
            TypedStatement::Decl(ds) => self.decls_ok(ds),
            TypedStatement::Block(body) => {
                proof {
                    assert(decreases_to!(*s => body@));
                }
                self.stmts_ok(body, ret)
            },
            TypedStatement::If { cond, then_branch, else_branch } => {
                self.expr_ok(cond) && self.stmt_ok(then_branch, ret) && match else_branch {
                    Some(e) => self.stmt_ok(e, ret),
                    None => true,
                }
            },
            TypedStatement::While { cond, body } => self.expr_ok(cond) && self.stmt_ok(body, ret),
            TypedStatement::DoWhile { body, cond } => self.expr_ok(cond) && self.stmt_ok(body, ret),
            TypedStatement::For { init, cond, post, body } => {
                (match init {
                    Some(i) => self.stmt_ok(i, ret),
                    None => true,
                }) && (match cond {
                    Some(e) => self.expr_ok(e),
                    None => true,
                }) && (match post {
                    Some(e) => self.expr_ok(e),
                    None => true,
                }) && self.stmt_ok(body, ret)
            },
            TypedStatement::ExprStatement(e) => self.expr_ok(e),
            _ => true,
        }
    }

    /// Whether statements can be generated in this frame against return type `ret`.
    pub fn stmts_ok(&self, ss: &Vec<TypedStatement>, ret: &Type) -> (b: bool)
        ensures
            b == gen_stmts_ok(ss@, frame_view(self.locals@), *ret),
        decreases ss@, 0nat,
    {
        let ghost fr = frame_view(self.locals@);
        let mut i: usize = 0;
        proof {
            assert(ss@.take(0) =~= Seq::<TypedStatement>::empty());
        }
        while i < ss.len()
            invariant
                i <= ss@.len(),
                fr == frame_view(self.locals@),
                gen_stmts_ok(ss@.take(i as int), fr, *ret),
            decreases ss.len() - i,
        {
            proof {
                assert(ss@.take(i as int + 1).drop_last() =~= ss@.take(i as int));
                assert(ss@.take(i as int + 1)[i as int] == ss@[i as int]);
                assert(decreases_to!(ss@ => ss@[i as int]));
            }
            if !self.stmt_ok(&ss[i], ret) {
                proof {
                    if gen_stmts_ok(ss@, fr, *ret) {
                        lemma_gen_stmts_index(ss@, fr, *ret, i as int);
                    }
                }
                return false;
            }
            i = i + 1;
        }
        proof {
            assert(ss@.take(i as int) =~= ss@);
        }
        true
    }
}

/// Whether a function can be generated: its frame fits, its parameters have
/// scalar slots and its body can be generated.
pub fn can_generate_function(f: &TypedFunction) -> (b: bool)
    ensures
        b == gen_function_ok(*f),
{
    if !fits_function(f) {
        return false;
    }
    let frame = FrameLayout::for_function(f);
    let mut i: usize = 0;
    while i < f.params.len()
        invariant
            i <= f.params@.len(),
            frame_view(frame.locals@) == spec_frame(*f),
            forall|k: int| 0 <= k < i ==> (lookup(spec_frame(*f), (#[trigger] f.params@[k]).id) matches Some((_, t))
                && spec_is_scalar(t)),
        decreases f.params.len() - i,
    {
        let ok = match frame.find(f.params[i].id) {
            Some(slot) => check_scalar(slot.ty),
            None => false,
        };
        if !ok {
            return false;
        }
        i = i + 1;
    }
    frame.stmts_ok(&f.body, &f.return_type)
}

/// Whether a program can be generated: every function of it can.
pub fn can_generate(program: &TypedProgram) -> (b: bool)
    ensures
        b == gen_program_ok(*program),
{
    let mut i: usize = 0;
    while i < program.declarations.len()
        invariant
            i <= program.declarations@.len(),
            forall|k: int| 0 <= k < i ==> (#[trigger] program.declarations@[k] matches TypedExternalDecl::Function(f)
                ==> gen_function_ok(f)),
        decreases program.declarations.len() - i,
    {
        match &program.declarations[i] {
            TypedExternalDecl::Function(f) => {
                if !can_generate_function(f) {
                    return false;
                }
            },
            _ => {},
        }
        i = i + 1;
    }
    true
}

proof fn lemma_frame_model_index(start: int, ts: Seq<(LocalId, Type)>, k: int)
    requires
        0 <= k < ts.len(),
    ensures
        frame_model(start, ts).len() == ts.len(),
        frame_model(start, ts)[k] == (ts[k].0, -8 - fold_bytes(start, ts.take(k + 1)), ts[k].1),
    decreases ts.len(),
{
    lemma_frame_model_len(start, ts.drop_last());
    if k < ts.len() - 1 {
        lemma_frame_model_index(start, ts.drop_last(), k);
        assert(ts.drop_last().take(k + 1) =~= ts.take(k + 1));
    } else {
        assert(ts.take(k + 1) =~= ts);
    }
}

proof fn lemma_frame_model_len(start: int, ts: Seq<(LocalId, Type)>)
    ensures
        frame_model(start, ts).len() == ts.len(),
    decreases ts.len(),
{
    if ts.len() > 0 {
        lemma_frame_model_len(start, ts.drop_last());
    }
}

proof fn lemma_fold_step(start: int, ts: Seq<(LocalId, Type)>, k: int)
    requires
        layout_fits(start, ts),
        0 <= k < ts.len(),
    ensures
        fold_bytes(start, ts.take(k)) + spec_size(ts[k].1) <= fold_bytes(start, ts.take(k + 1)) - (align_to(
            fold_bytes(start, ts.take(k)),
            spec_align(ts[k].1) as int,
        ) - fold_bytes(start, ts.take(k))),
        align_to(fold_bytes(start, ts.take(k)), spec_align(ts[k].1) as int) >= fold_bytes(start, ts.take(k)),
        fold_bytes(start, ts.take(k + 1)) == align_to(fold_bytes(start, ts.take(k)), spec_align(ts[k].1) as int)
            + spec_size(ts[k].1),
{
    assert(ts.take(k + 1).drop_last() =~= ts.take(k));
    lemma_fits_prefix(start, ts, k + 1);
    lemma_fits_prefix(start, ts, k);
    lemma_fold_bytes_fits(start, ts.take(k));
    lemma_align_positive(ts[k].1);
    lemma_align_to(fold_bytes(start, ts.take(k)), spec_align(ts[k].1) as int);
}

proof fn lemma_fold_prefix_mono(start: int, ts: Seq<(LocalId, Type)>, i: int, j: int)
    requires
        layout_fits(start, ts),
        0 <= i <= j <= ts.len(),
    ensures
        fold_bytes(start, ts.take(i)) <= fold_bytes(start, ts.take(j)),
    decreases j - i,
{
    if i < j {
        lemma_fold_prefix_mono(start, ts, i, j - 1);
        lemma_fold_step(start, ts, j - 1);
    }
}

/// The slots of a function's frame never overlap: a later local lies wholly
/// below an earlier one.
pub proof fn lemma_frame_slots_disjoint(f: TypedFunction, k: int, j: int)
    requires
        layout_fits(0, function_slots(f)),
        0 <= k < j < function_slots(f).len(),
    ensures
        spec_frame(f)[j].1 + spec_size(spec_frame(f)[j].2) <= spec_frame(f)[k].1,
{
    let ts = function_slots(f);
    lemma_frame_model_index(0, ts, k);
    lemma_frame_model_index(0, ts, j);
    lemma_fold_step(0, ts, j);
    lemma_fold_prefix_mono(0, ts, k + 1, j);
}

/// Every slot of a function's frame lies inside the frame: at or above the
/// frame's lowest byte, and below the saved return address and frame pointer.
pub proof fn lemma_frame_slot_bounds(f: TypedFunction, k: int)
    requires
        layout_fits(0, function_slots(f)),
        0 <= k < function_slots(f).len(),
    ensures
        -spec_frame_size(f) <= spec_frame(f)[k].1,
        spec_frame(f)[k].1 + spec_size(spec_frame(f)[k].2) <= -8,
        spec_frame_size(f) % 16 == 0,
{
    let ts = function_slots(f);
    lemma_frame_model_index(0, ts, k);
    lemma_fold_step(0, ts, k);
    lemma_fits_prefix(0, ts, k);
    lemma_fold_bytes_fits(0, ts.take(k));
    lemma_fold_prefix_mono(0, ts, k + 1, ts.len() as int);
    assert(ts.take(ts.len() as int) =~= ts);
    lemma_fold_bytes_fits(0, ts);
    let total = fold_bytes(0, ts);
    assert((total + 8 + 15) / 16 * 16 >= total + 8) by (nonlinear_arith)
        requires
            total >= 0,
    ;
    assert(((total + 8 + 15) / 16 * 16) % 16 == 0) by (nonlinear_arith)
        requires
            total >= 0,
    ;
}


/// The unsigned integer types.
pub open spec fn c_unsigned(t: Type) -> bool {
    t is UnsignedInt || t is UnsignedLong || t is UnsignedChar
}

/// The signed integer types whose right shift sign-fills.
pub open spec fn c_signed(t: Type) -> bool {
    t is Int || t is Long || t is SignedChar || t is Char
}

/// What an RV32 right-shift instruction line leaves in the destination for
/// the register value `x` shifted by `s`: `srl` moves zeros in from the left,
/// `sra` copies of the sign bit. Other text computes nothing here.
pub open spec fn rv_shift_right(instr: Seq<char>, x: u32, s: u32) -> Option<u32> {
    if instr == ln("srl a0, t0, a0"@) {
        Some(x >> s)
    } else if instr == ln("sra a0, t0, a0"@) {
        Some(((x as i32) >> s) as u32)
    } else {
        None
    }
}

/// What an RV32 byte-load instruction line leaves in the destination for the
/// byte `b` in memory: `lbu` the byte, `lb` the byte sign-extended.
pub open spec fn rv_load_byte(instr: Seq<char>, b: u8) -> Option<int> {
    if instr == ln("lbu a0, 0(a0)"@) {
        Some(b as int)
    } else if instr == ln("lb a0, 0(a0)"@) {
        Some(if b < 128 { b as int } else { b as int - 256 })
    } else {
        None
    }
}

/// Law: `>>` on an operand of unsigned type is C's division by a power of
/// two: the code for it leaves `x / 2^s` for every register value `x` and
/// shift amount `s` below 32. On a signed operand the sign-filling shift is used.
pub proof fn law_shift_right_on_operand_type(t: Type, x: u32, s: u32)
    requires
        s < 32,
    ensures
        c_unsigned(t) ==> rv_shift_right(binop_asm(BinaryOp::ShiftRight, t), x, s) == Some((x as nat / pow2(s as nat)) as u32),
        c_signed(t) ==> binop_asm(BinaryOp::ShiftRight, t) == ln("sra a0, t0, a0"@),
{
    vstd::bits::lemma_u32_shr_is_div(x, s);
}

/// Law: loading a byte-sized object gives its C value: for `signed char` the
/// value in `[-128, 127]` that the stored byte encodes in two's complement,
/// for `unsigned char` and plain `char` the byte itself, in `[0, 255]`.
pub proof fn law_load_byte_value(t: Type, b: u8)
    ensures
        t is SignedChar ==> (rv_load_byte(load_asm(t), b) matches Some(v) && -128 <= v <= 127 && (v - b) % 256 == 0),
        (t is UnsignedChar || t is Char) ==> rv_load_byte(load_asm(t), b) == Some(b as int),
{
    reveal_strlit("lbu a0, 0(a0)");
    reveal_strlit("lb a0, 0(a0)");
    if t is SignedChar {
        assert(ln("lb a0, 0(a0)"@).len() != ln("lbu a0, 0(a0)"@).len());
    }
}


/// The value of a register holding `x` read as an operand of type `t`: the
/// unsigned types read the 32 bits as they are, the others in two's complement.
pub open spec fn c_register_value(t: Type, x: u32) -> int {
    if c_unsigned(t) {
        x as int
    } else {
        (x as i32) as int
    }
}

/// Division rounding toward zero, as C and RV32 divide.
pub open spec fn div_toward_zero(a: int, b: int) -> int {
    if (a >= 0) == (b > 0) || a % b == 0 {
        a / b
    } else {
        a / b + 1
    }
}

/// What an RV32 set-less-than instruction line leaves in the destination for
/// the register values `t0` and `a0`: 1 when its first source is below its
/// second, compared as unsigned numbers by `sltu` and as signed ones by `slt`.
pub open spec fn rv_set_less(instr: Seq<char>, t0: u32, a0: u32) -> Option<int> {
    if instr == ln("sltu a0, t0, a0"@) {
        Some(if t0 < a0 { 1int } else { 0int })
    } else if instr == ln("slt a0, t0, a0"@) {
        Some(if (t0 as i32) < (a0 as i32) { 1int } else { 0int })
    } else if instr == ln("sltu a0, a0, t0"@) {
        Some(if a0 < t0 { 1int } else { 0int })
    } else if instr == ln("slt a0, a0, t0"@) {
        Some(if (a0 as i32) < (t0 as i32) { 1int } else { 0int })
    } else {
        None
    }
}

/// What an RV32 division or remainder instruction line leaves in the
/// destination for `t0` divided by a nonzero `a0`: `divu`/`remu` on the
/// unsigned numbers, `div`/`rem` on the signed ones, rounding toward zero.
pub open spec fn rv_divide(instr: Seq<char>, t0: u32, a0: u32) -> Option<int> {
    if instr == ln("divu a0, t0, a0"@) {
        Some(t0 as int / a0 as int)
    } else if instr == ln("remu a0, t0, a0"@) {
        Some(t0 as int % a0 as int)
    } else if instr == ln("div a0, t0, a0"@) {
        Some(div_toward_zero((t0 as i32) as int, (a0 as i32) as int))
    } else if instr == ln("rem a0, t0, a0"@) {
        Some((t0 as i32) as int - (a0 as i32) as int * div_toward_zero((t0 as i32) as int, (a0 as i32) as int))
    } else {
        None
    }
}

/// The C value of `x < y` on register values of operand type `t`.
pub open spec fn c_less(t: Type, x: u32, y: u32) -> int {
    if c_register_value(t, x) < c_register_value(t, y) {
        1
    } else {
        0
    }
}

proof fn lemma_slt_lines_distinct()
    ensures
        ln("slt a0, t0, a0"@) != ln("sltu a0, t0, a0"@),
        ln("sltu a0, a0, t0"@) != ln("sltu a0, t0, a0"@),
        ln("sltu a0, a0, t0"@) != ln("slt a0, t0, a0"@),
        ln("slt a0, a0, t0"@) != ln("sltu a0, t0, a0"@),
        ln("slt a0, a0, t0"@) != ln("slt a0, t0, a0"@),
        ln("slt a0, a0, t0"@) != ln("sltu a0, a0, t0"@),
        ln("div a0, t0, a0"@) != ln("divu a0, t0, a0"@),
        ln("div a0, t0, a0"@) != ln("remu a0, t0, a0"@),
        ln("rem a0, t0, a0"@) != ln("divu a0, t0, a0"@),
        ln("rem a0, t0, a0"@) != ln("remu a0, t0, a0"@),
        ln("rem a0, t0, a0"@) != ln("div a0, t0, a0"@),
        ln("remu a0, t0, a0"@) != ln("divu a0, t0, a0"@),
{
    reveal_strlit("slt a0, t0, a0");
    reveal_strlit("sltu a0, t0, a0");
    reveal_strlit("sltu a0, a0, t0");
    reveal_strlit("slt a0, a0, t0");
    reveal_strlit("div a0, t0, a0");
    reveal_strlit("divu a0, t0, a0");
    reveal_strlit("rem a0, t0, a0");
    reveal_strlit("remu a0, t0, a0");
    reveal_strlit("    ");
    reveal_strlit("\n");
    assert(ln("slt a0, t0, a0"@).len() != ln("sltu a0, t0, a0"@).len());
    assert(ln("slt a0, a0, t0"@).len() != ln("sltu a0, t0, a0"@).len());
    assert(ln("sltu a0, a0, t0"@).len() != ln("slt a0, t0, a0"@).len());
    assert(ln("slt a0, a0, t0"@).len() != ln("sltu a0, a0, t0"@).len());
    assert(ln("div a0, t0, a0"@).len() != ln("divu a0, t0, a0"@).len());
    assert(ln("div a0, t0, a0"@).len() != ln("remu a0, t0, a0"@).len());
    assert(ln("rem a0, t0, a0"@).len() != ln("divu a0, t0, a0"@).len());
    assert(ln("rem a0, t0, a0"@).len() != ln("remu a0, t0, a0"@).len());
    assert(ln("sltu a0, a0, t0"@)[13] != ln("sltu a0, t0, a0"@)[13]);
    assert(ln("slt a0, a0, t0"@)[12] != ln("slt a0, t0, a0"@)[12]);
    assert(ln("rem a0, t0, a0"@)[4] != ln("div a0, t0, a0"@)[4]);
    assert(ln("remu a0, t0, a0"@)[4] != ln("divu a0, t0, a0"@)[4]);
}

/// Law: the comparisons compare the operands' values in their operand type:
/// as unsigned numbers for an unsigned type, as signed ones otherwise. `<` and
/// `>` leave 1 or 0; `<=` and `>=` set the opposite strict comparison and then
/// flip it.
pub proof fn law_comparison_on_operand_type(t: Type, x: u32, y: u32)
    requires
        c_unsigned(t) || c_signed(t),
    ensures
        rv_set_less(binop_asm(BinaryOp::Less, t), x, y) == Some(c_less(t, x, y)),
        rv_set_less(binop_asm(BinaryOp::Greater, t), x, y) == Some(c_less(t, y, x)),
        exists|first: Seq<char>| binop_asm(BinaryOp::LessEqual, t) == first + ln("xori a0, a0, 1"@)
            && #[trigger] rv_set_less(first, x, y) == Some(c_less(t, y, x)),
        exists|first: Seq<char>| binop_asm(BinaryOp::GreaterEqual, t) == first + ln("xori a0, a0, 1"@)
            && #[trigger] rv_set_less(first, x, y) == Some(c_less(t, x, y)),
{
    lemma_slt_lines_distinct();
    if c_unsigned(t) {
        assert(rv_set_less(ln("sltu a0, a0, t0"@), x, y) == Some(c_less(t, y, x)));
        assert(rv_set_less(ln("sltu a0, t0, a0"@), x, y) == Some(c_less(t, x, y)));
    } else {
        assert(rv_set_less(ln("slt a0, a0, t0"@), x, y) == Some(c_less(t, y, x)));
        assert(rv_set_less(ln("slt a0, t0, a0"@), x, y) == Some(c_less(t, x, y)));
    }
}

/// Law: `/` and `%` divide the operands' values in their operand type: as
/// unsigned numbers for an unsigned type, as signed ones rounding toward zero
/// otherwise, with the remainder taking what the quotient leaves.
pub proof fn law_division_on_operand_type(t: Type, x: u32, y: u32)
    requires
        c_unsigned(t) || c_signed(t),
        y != 0,
    ensures
        rv_divide(binop_asm(BinaryOp::Divide, t), x, y) == Some(div_toward_zero(c_register_value(t, x), c_register_value(t, y))),
        rv_divide(binop_asm(BinaryOp::Remainder, t), x, y) == Some(c_register_value(t, x) - c_register_value(t, y) * div_toward_zero(
            c_register_value(t, x),
            c_register_value(t, y),
        )),
{
    lemma_slt_lines_distinct();
    if c_unsigned(t) {
        assert(div_toward_zero(x as int, y as int) == x as int / y as int);
        assert(x as int - y as int * (x as int / y as int) == x as int % y as int) by (nonlinear_arith)
            requires
                y as int > 0,
        ;
    }
}


/// The 32-bit register value of an integer: its residue modulo `2^32`.
pub open spec fn wrap32(v: int) -> u32 {
    (v % 0x1_0000_0000) as u32
}

/// What an RV32 register-register instruction line of the arithmetic and
/// bitwise group leaves in the destination for the register values `t0` and
/// `a0`; the arithmetic ones wrap modulo `2^32`.
pub open spec fn rv_alu(instr: Seq<char>, t0: u32, a0: u32) -> Option<u32> {
    if instr == ln("add a0, t0, a0"@) {
        Some(wrap32(t0 + a0))
    } else if instr == ln("sub a0, t0, a0"@) {
        Some(wrap32(t0 - a0))
    } else if instr == ln("mul a0, t0, a0"@) {
        Some(wrap32(t0 * a0))
    } else if instr == ln("and a0, a0, t0"@) {
        Some(a0 & t0)
    } else if instr == ln("xor a0, a0, t0"@) {
        Some(a0 ^ t0)
    } else if instr == ln("or a0, a0, t0"@) {
        Some(a0 | t0)
    } else if instr == ln("xor a0, t0, a0"@) {
        Some(t0 ^ a0)
    } else {
        None
    }
}

/// What an RV32 zero-test line leaves in `a0` for the value `v` in `a0`:
/// `seqz` 1 when it is zero, `snez` 1 when it is not.
pub open spec fn rv_test_zero(instr: Seq<char>, v: u32) -> Option<int> {
    if instr == ln("seqz a0, a0"@) {
        Some(if v == 0 { 1int } else { 0int })
    } else if instr == ln("snez a0, a0"@) {
        Some(if v != 0 { 1int } else { 0int })
    } else {
        None
    }
}

proof fn lemma_alu_lines_distinct()
    ensures
        ln("sub a0, t0, a0"@) != ln("add a0, t0, a0"@),
        ln("mul a0, t0, a0"@) != ln("add a0, t0, a0"@),
        ln("mul a0, t0, a0"@) != ln("sub a0, t0, a0"@),
        ln("and a0, a0, t0"@) != ln("add a0, t0, a0"@),
        ln("and a0, a0, t0"@) != ln("sub a0, t0, a0"@),
        ln("and a0, a0, t0"@) != ln("mul a0, t0, a0"@),
        ln("xor a0, a0, t0"@) != ln("add a0, t0, a0"@),
        ln("xor a0, a0, t0"@) != ln("sub a0, t0, a0"@),
        ln("xor a0, a0, t0"@) != ln("mul a0, t0, a0"@),
        ln("xor a0, a0, t0"@) != ln("and a0, a0, t0"@),
        ln("or a0, a0, t0"@) != ln("add a0, t0, a0"@),
        ln("or a0, a0, t0"@) != ln("sub a0, t0, a0"@),
        ln("or a0, a0, t0"@) != ln("mul a0, t0, a0"@),
        ln("or a0, a0, t0"@) != ln("and a0, a0, t0"@),
        ln("or a0, a0, t0"@) != ln("xor a0, a0, t0"@),
        ln("xor a0, t0, a0"@) != ln("add a0, t0, a0"@),
        ln("xor a0, t0, a0"@) != ln("sub a0, t0, a0"@),
        ln("xor a0, t0, a0"@) != ln("mul a0, t0, a0"@),
        ln("xor a0, t0, a0"@) != ln("and a0, a0, t0"@),
        ln("xor a0, t0, a0"@) != ln("xor a0, a0, t0"@),
        ln("xor a0, t0, a0"@) != ln("or a0, a0, t0"@),
        ln("snez a0, a0"@) != ln("seqz a0, a0"@),
{
    reveal_strlit("add a0, t0, a0");
    reveal_strlit("sub a0, t0, a0");
    reveal_strlit("mul a0, t0, a0");
    reveal_strlit("and a0, a0, t0");
    reveal_strlit("xor a0, a0, t0");
    reveal_strlit("or a0, a0, t0");
    reveal_strlit("xor a0, t0, a0");
    reveal_strlit("seqz a0, a0");
    reveal_strlit("snez a0, a0");
    reveal_strlit("    ");
    assert(ln("sub a0, t0, a0"@)[4] != ln("add a0, t0, a0"@)[4]);
    assert(ln("mul a0, t0, a0"@)[4] != ln("add a0, t0, a0"@)[4]);
    assert(ln("mul a0, t0, a0"@)[4] != ln("sub a0, t0, a0"@)[4]);
    assert(ln("and a0, a0, t0"@)[5] != ln("add a0, t0, a0"@)[5]);
    assert(ln("and a0, a0, t0"@)[4] != ln("sub a0, t0, a0"@)[4]);
    assert(ln("and a0, a0, t0"@)[4] != ln("mul a0, t0, a0"@)[4]);
    assert(ln("xor a0, a0, t0"@)[4] != ln("add a0, t0, a0"@)[4]);
    assert(ln("xor a0, a0, t0"@)[4] != ln("sub a0, t0, a0"@)[4]);
    assert(ln("xor a0, a0, t0"@)[4] != ln("mul a0, t0, a0"@)[4]);
    assert(ln("xor a0, a0, t0"@)[4] != ln("and a0, a0, t0"@)[4]);
    assert(ln("or a0, a0, t0"@).len() != ln("add a0, t0, a0"@).len());
    assert(ln("or a0, a0, t0"@).len() != ln("sub a0, t0, a0"@).len());
    assert(ln("or a0, a0, t0"@).len() != ln("mul a0, t0, a0"@).len());
    assert(ln("or a0, a0, t0"@).len() != ln("and a0, a0, t0"@).len());
    assert(ln("or a0, a0, t0"@).len() != ln("xor a0, a0, t0"@).len());
    assert(ln("xor a0, t0, a0"@)[4] != ln("add a0, t0, a0"@)[4]);
    assert(ln("xor a0, t0, a0"@)[4] != ln("sub a0, t0, a0"@)[4]);
    assert(ln("xor a0, t0, a0"@)[4] != ln("mul a0, t0, a0"@)[4]);
    assert(ln("xor a0, t0, a0"@)[4] != ln("and a0, a0, t0"@)[4]);
    assert(ln("xor a0, t0, a0"@)[12] != ln("xor a0, a0, t0"@)[12]);
    assert(ln("xor a0, t0, a0"@).len() != ln("or a0, a0, t0"@).len());
    assert(ln("snez a0, a0"@)[5] != ln("seqz a0, a0"@)[5]);
}

/// Law: `+`, `-` and `*` on integer operands leave the C result modulo
/// `2^32`, and `&`, `^`, `|` combine the operands bit by bit, whatever the
/// operand type.
pub proof fn law_arithmetic_and_bitwise(t: Type, x: u32, y: u32)
    ensures
        rv_alu(binop_asm(BinaryOp::Add, t), x, y) == Some(wrap32(x + y)),
        rv_alu(binop_asm(BinaryOp::Subtract, t), x, y) == Some(wrap32(x - y)),
        rv_alu(binop_asm(BinaryOp::Multiply, t), x, y) == Some(wrap32(x * y)),
        rv_alu(binop_asm(BinaryOp::BitAnd, t), x, y) == Some(x & y),
        rv_alu(binop_asm(BinaryOp::BitXor, t), x, y) == Some(x ^ y),
        rv_alu(binop_asm(BinaryOp::BitOr, t), x, y) == Some(x | y),
{
    lemma_alu_lines_distinct();
    assert((y & x) == (x & y) && (y ^ x) == (x ^ y) && (y | x) == (x | y)) by (bit_vector);
}

/// Law: `==` and `!=` leave 1 or 0 according to whether the two register
/// values are equal: their exclusive or is tested against zero.
pub proof fn law_equality(t: Type, x: u32, y: u32)
    ensures
        exists|first: Seq<char>, second: Seq<char>| binop_asm(BinaryOp::Equal, t) == first + second
            && rv_alu(first, x, y) is Some && #[trigger] rv_test_zero(second, rv_alu(first, x, y).unwrap()) == Some(
            if x == y { 1int } else { 0int },
        ),
        exists|first: Seq<char>, second: Seq<char>| binop_asm(BinaryOp::NotEqual, t) == first + second
            && rv_alu(first, x, y) is Some && #[trigger] rv_test_zero(second, rv_alu(first, x, y).unwrap()) == Some(
            if x != y { 1int } else { 0int },
        ),
{
    lemma_alu_lines_distinct();
    assert((x ^ y) == 0 <==> x == y) by (bit_vector);
    let first = ln("xor a0, t0, a0"@);
    assert(rv_alu(first, x, y) == Some(x ^ y));
    assert(binop_asm(BinaryOp::Equal, t) == first + ln("seqz a0, a0"@));
    assert(rv_test_zero(ln("seqz a0, a0"@), rv_alu(first, x, y).unwrap()) == Some(if x == y { 1int } else { 0int }));
    assert(binop_asm(BinaryOp::NotEqual, t) == first + ln("snez a0, a0"@));
    assert(rv_test_zero(ln("snez a0, a0"@), rv_alu(first, x, y).unwrap()) == Some(if x != y { 1int } else { 0int }));
}


/// Law: stores and loads move as many bytes as the object has: a one-byte
/// object is stored with `sb` after its value is cut to its low byte, and a
/// four-byte scalar is stored with `sw` and loaded with `lw`.
pub proof fn law_access_width(t: Type, base: Seq<char>, offset: int)
    requires
        spec_is_scalar(t),
    ensures
        spec_size(t) == 1 ==> store_asm(t, base, offset) == ln("andi a0, a0, 255"@) + ln(
            "sb a0, "@ + spec_signed_decimal(offset) + "("@ + base + ")"@,
        ),
        spec_size(t) == 4 ==> store_asm(t, base, offset) == ln("sw a0, "@ + spec_signed_decimal(offset) + "("@ + base + ")"@),
        spec_size(t) == 4 ==> load_asm(t) == ln("lw a0, 0(a0)"@),
{
}


/// What an RV32 one-register instruction line leaves in `a0` for the value
/// `v` in `a0`: `neg` its negation modulo `2^32`, `seqz` 1 when it is zero,
/// `not` its bitwise complement.
pub open spec fn rv_unary(instr: Seq<char>, v: u32) -> Option<u32> {
    if instr == ln("neg a0, a0"@) {
        Some(wrap32(-(v as int)))
    } else if instr == ln("seqz a0, a0"@) {
        Some(if v == 0 { 1u32 } else { 0u32 })
    } else if instr == ln("not a0, a0"@) {
        Some(!v)
    } else {
        None
    }
}

/// The C value of a unary arithmetic or logical operator on a register value.
pub open spec fn c_unary_value(op: UnaryOp, v: u32) -> u32 {
    match op {
        UnaryOp::Negate => wrap32(0 - v),
        UnaryOp::LogicalNot => if v == 0 { 1u32 } else { 0u32 },
        _ => (0xffff_ffff - v) as u32,
    }
}

/// Law: `-`, `!` and `~` evaluate their operand and then apply one line that
/// computes C's result on it: the negation modulo `2^32`, 1 exactly for a
/// zero operand, and the complement of every bit.
pub proof fn law_unary_operators(e: TypedExpr, fr: Seq<(LocalId, int, Type)>, c: usize, v: u32)
    requires
        e.kind matches TypedExprKind::Unary { op, .. } && (op == UnaryOp::Negate || op == UnaryOp::LogicalNot || op
            == UnaryOp::BitwiseNot),
    ensures
        e.kind matches TypedExprKind::Unary { op, expr, .. } && exists|line: Seq<char>|
            expr_asm(e, fr, c).0 == expr_asm(*expr, fr, c).0 + line && #[trigger] rv_unary(line, v) == Some(
            c_unary_value(op, v),
        ),
{
    reveal_strlit("neg a0, a0");
    reveal_strlit("seqz a0, a0");
    reveal_strlit("not a0, a0");
    reveal_strlit("    ");
    assert(ln("seqz a0, a0"@)[4] != ln("neg a0, a0"@)[4]);
    assert(ln("not a0, a0"@)[5] != ln("neg a0, a0"@)[5]);
    assert(ln("not a0, a0"@).len() != ln("seqz a0, a0"@).len());
    assert(!v == (0xffff_ffff - v) as u32) by (bit_vector);
    if let TypedExprKind::Unary { op, expr, .. } = e.kind {
        let line = match op {
            UnaryOp::Negate => ln("neg a0, a0"@),
            UnaryOp::LogicalNot => ln("seqz a0, a0"@),
            _ => ln("not a0, a0"@),
        };
        assert(expr_asm(e, fr, c).0 == expr_asm(*expr, fr, c).0 + line);
        assert(rv_unary(line, v) == Some(c_unary_value(op, v)));
    }
}

} // verus!

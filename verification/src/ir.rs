//! The intermediate representation that the front end lowers programs to.
//!
//! A [`Context`] owns everything: values, instructions, basic blocks,
//! functions and global slots. Each is named by a handle, which is the place
//! of the item in the context. Items are only ever added, so a handle stays
//! good for as long as the context lives.

use crate::arith::{bit, fits_int, trunc_div, trunc_rem, wrap32};
use vstd::prelude::*;

verus! {

/// A handle to a value of the program.
#[derive(Debug, Clone, Copy, PartialEq, Eq, Structural)]
pub struct Value(pub usize);

/// A handle to an instruction.
#[derive(Debug, Clone, Copy, PartialEq, Eq, Structural)]
pub struct Inst(pub usize);

/// A handle to a basic block.
#[derive(Debug, Clone, Copy, PartialEq, Eq, Structural)]
pub struct Block(pub usize);

/// A handle to a function.
#[derive(Debug, Clone, Copy, PartialEq, Eq, Structural)]
pub struct Func(pub usize);

/// A handle to a global slot.
#[derive(Debug, Clone, Copy, PartialEq, Eq, Structural)]
pub struct Global(pub usize);

/// The type of a value.
#[derive(Debug, Clone, Copy, PartialEq, Eq, Structural)]
pub enum Ty {
    /// No value.
    Void,
    /// One bit: a truth value.
    I1,
    /// A 32-bit integer.
    I32,
    /// The address of a slot.
    Ptr,
}

/// What is known of the machine that the program is compiled for.
#[derive(Debug, Clone, Copy, PartialEq, Eq, Structural)]
pub struct TargetInfo {
    /// The width of an address, in bits.
    pub ptr_size: u32,
}

/// A constant.
#[derive(Debug, Clone, Copy, PartialEq, Eq, Structural)]
pub enum ConstantValue {
    I1(bool),
    I32(i32),
    /// A value of the given type that was never set.
    Undef(Ty),
}

/// The condition of an integer comparison. The orderings are signed.
#[derive(Debug, Clone, Copy, PartialEq, Eq, Structural)]
pub enum IntCmpCond {
    Eq,
    Ne,
    Slt,
    Sle,
    Sgt,
    Sge,
}

/// A binary operation on integers.
#[derive(Debug, Clone, Copy, PartialEq, Eq, Structural)]
pub enum IntBinaryOp {
    Add,
    Sub,
    Mul,
    /// Signed division.
    SDiv,
    /// Signed remainder.
    SRem,
    And,
    Or,
    /// Comparison: gives one bit.
    ICmp { cond: IntCmpCond },
}

/// Where a value comes from.
#[derive(Debug, Clone, Copy, PartialEq, Eq, Structural)]
pub enum ValueKind {
    /// A constant.
    Constant(ConstantValue),
    /// The parameter of the given function at the given place, as it comes
    /// in.
    Param(Func, usize),
    /// The result of an instruction.
    InstResult(Inst),
    /// The address of a global slot.
    GlobalRef(Global),
}

/// A value: its type and where it comes from.
#[derive(Debug, Clone, Copy, PartialEq, Eq, Structural)]
pub struct ValueData {
    pub ty: Ty,
    pub kind: ValueKind,
}

/// What an instruction does.
#[derive(Debug, Clone, Copy, PartialEq, Eq, Structural)]
pub enum InstKind {
    /// Reserves a stack slot for a value of type `ty`; gives its address.
    Alloca { ty: Ty },
    /// Reads a value of type `ty` from the slot at `ptr`.
    Load { ptr: Value, ty: Ty },
    /// Writes `val` to the slot at `ptr`.
    Store { val: Value, ptr: Value },
    /// A binary operation on integers.
    IBinary { op: IntBinaryOp, lhs: Value, rhs: Value },
    /// Widens one bit to a 32-bit integer: `1` for true, `0` for false.
    ZExt { val: Value },
    /// Goes to `target`.
    Br { target: Block },
    /// Goes to `then_target` where `cond` is true, else to `else_target`.
    CondBr { cond: Value, then_target: Block, else_target: Block },
    /// Leaves the function, with `value` as its result.
    Ret { value: Option<Value> },
}

/// An instruction: what it does, its result, and the block that holds it.
#[derive(Debug, Clone, Copy, PartialEq, Eq, Structural)]
pub struct InstData {
    pub kind: InstKind,
    pub result: Option<Value>,
    pub parent: Option<Block>,
}

/// What a basic block holds: its instructions in order, and the function
/// that it belongs to.
pub struct BlockView {
    pub insts: Seq<Inst>,
    pub parent: Option<Func>,
}

/// What a function holds: its name, its return type, its parameters as they
/// come in, and its blocks in order, the entry block first.
pub struct FuncView {
    pub name: Seq<char>,
    pub ret_ty: Ty,
    pub params: Seq<Value>,
    pub blocks: Seq<Block>,
}

/// What a global slot holds: its name and the constant that it starts with.
pub struct GlobalView {
    pub name: Seq<char>,
    pub init: ConstantValue,
}

/// What a [`Context`] holds.
pub struct ContextView {
    pub values: Seq<ValueData>,
    pub insts: Seq<InstData>,
    pub blocks: Seq<BlockView>,
    pub funcs: Seq<FuncView>,
    pub globals: Seq<GlobalView>,
    pub target: TargetInfo,
}

/// The blocks that functions hold stay closed in a context that keeps the
/// blocks.
pub proof fn lemma_closed_but_kept(before: ContextView, after: ContextView, open: Option<Block>)
    requires
        before.wf(),
        before.closed_but(open),
        before.blocks_kept(after),
    ensures
        after.closed_but(open),
{
    reveal(ContextView::closed_but);
    assert forall|b: int|
        0 <= b < after.blocks.len() && after.blocks[b].parent is Some && open != Some(
            Block(b as usize),
        ) implies #[trigger] after.closed(Block(b as usize)) by {
        assert(after.blocks[b] == before.blocks[b]);
        assert(before.closed(Block(b as usize)));
        lemma_closed_kept(before, after, Block(b as usize));
    }
}

/// The blocks that functions hold stay closed when an instruction is put
/// at the end of the one that is open; and that one is closed too where the
/// instruction ends a block.
pub proof fn lemma_closed_but_push_back(ctx: ContextView, block: Block, inst: Inst)
    requires
        ctx.wf(),
        ctx.open_block(block),
        ctx.detached_inst(inst),
        ctx.closed_but(Some(block)),
    ensures
        ctx.push_back(block, inst).closed_but(Some(block)),
        ctx.insts[inst.0 as int].kind.is_terminator() ==> ctx.push_back(block, inst).closed_but(
            None,
        ),
{
    reveal(ContextView::closed_but);
    let after = ctx.push_back(block, inst);
    assert forall|b: int|
        0 <= b < after.blocks.len() && after.blocks[b].parent is Some && Some(block) != Some(
            Block(b as usize),
        ) implies #[trigger] after.closed(Block(b as usize)) by {
        assert(ctx.closed(Block(b as usize)));
        lemma_closed_push_back(ctx, block, inst, Block(b as usize));
    }
    if ctx.insts[inst.0 as int].kind.is_terminator() {
        lemma_closed_push_back(ctx, block, inst, block);
        assert forall|b: int|
            0 <= b < after.blocks.len() && after.blocks[b].parent is Some implies #[trigger] after.closed(
            Block(b as usize),
        ) by {
            if b != block.0 {
                assert(after.closed(Block(b as usize)));
            }
        }
    }
}

/// The blocks that functions hold stay closed when an instruction that does
/// not end a block is put at the front of a block.
pub proof fn lemma_closed_but_push_front(
    ctx: ContextView,
    block: Block,
    inst: Inst,
    open: Option<Block>,
)
    requires
        ctx.wf(),
        ctx.has_block(block),
        ctx.detached_inst(inst),
        !ctx.insts[inst.0 as int].kind.is_terminator(),
        ctx.closed_but(open),
    ensures
        ctx.push_front(block, inst).closed_but(open),
{
    reveal(ContextView::closed_but);
    let after = ctx.push_front(block, inst);
    assert forall|b: int|
        0 <= b < after.blocks.len() && after.blocks[b].parent is Some && open != Some(
            Block(b as usize),
        ) implies #[trigger] after.closed(Block(b as usize)) by {
        assert(ctx.closed(Block(b as usize)));
        lemma_closed_push_front(ctx, block, inst, Block(b as usize));
    }
}

/// When every block that a function holds is closed and a function gets one
/// more block, every block that a function holds but that one is closed.
pub proof fn lemma_closed_but_append(ctx: ContextView, func: Func, block: Block)
    requires
        ctx.wf(),
        ctx.has_func(func),
        ctx.detached_block(block),
        ctx.closed_but(None),
    ensures
        ctx.append_block(func, block).closed_but(Some(block)),
{
    reveal(ContextView::closed_but);
    reveal(ContextView::sound);
    let after = ctx.append_block(func, block);
    assert forall|b: int|
        0 <= b < after.blocks.len() && after.blocks[b].parent is Some && Some(block) != Some(
            Block(b as usize),
        ) implies #[trigger] after.closed(Block(b as usize)) by {
        assert(ctx.closed(Block(b as usize)));
        assert(after.blocks[b].insts == ctx.blocks[b].insts);
    }
}

/// Where every block that a function holds but one is closed, and that one
/// is closed too or no function holds it, every block that a function holds
/// is closed.
pub proof fn lemma_closed_but_none(ctx: ContextView, block: Block)
    requires
        ctx.sized(),
        ctx.closed_but(Some(block)),
        ctx.closed(block) || !ctx.attached_block(block),
    ensures
        ctx.closed_but(None),
{
    reveal(ContextView::closed_but);
    assert forall|b: int| 0 <= b < ctx.blocks.len() && ctx.blocks[b].parent is Some implies #[trigger] ctx.closed(
        Block(b as usize),
    ) by {
        if b != block.0 {
            assert(ctx.closed(Block(b as usize)));
        }
    }
}

/// Putting an instruction at the end of a block closes the block where the
/// instruction ends a block, and leaves every other block as it was.
pub proof fn lemma_closed_push_back(ctx: ContextView, block: Block, inst: Inst, other: Block)
    requires
        ctx.wf(),
        ctx.open_block(block),
        ctx.detached_inst(inst),
        ctx.has_block(other),
    ensures
        ctx.push_back(block, inst).closed(block) == ctx.insts[inst.0 as int].kind.is_terminator(),
        other != block ==> ctx.push_back(block, inst).closed(other) == ctx.closed(other),
{
    reveal(ContextView::sound);
    let after = ctx.push_back(block, inst);
    assert(after.blocks[block.0 as int].insts.last() == inst);
    if other != block {
        assert(ctx.block_ok(other.0 as int));
        let held = ctx.blocks[other.0 as int].insts;
        if held.len() > 0 {
            assert(ctx.has_inst(held[held.len() - 1]));
        }
    }
}

/// Putting an instruction that does not end a block at the front of a block
/// leaves every block closed or not as it was.
pub proof fn lemma_closed_push_front(ctx: ContextView, block: Block, inst: Inst, other: Block)
    requires
        ctx.wf(),
        ctx.has_block(block),
        ctx.detached_inst(inst),
        !ctx.insts[inst.0 as int].kind.is_terminator(),
        ctx.has_block(other),
    ensures
        ctx.push_front(block, inst).closed(other) == ctx.closed(other),
{
    reveal(ContextView::sound);
    let after = ctx.push_front(block, inst);
    assert(ctx.block_ok(other.0 as int));
    let held = ctx.blocks[other.0 as int].insts;
    if held.len() > 0 {
        assert(ctx.has_inst(held[held.len() - 1]));
        if other == block {
            assert(after.blocks[other.0 as int].insts.last() == held[held.len() - 1]);
        }
    }
}

impl ConstantValue {
    /// The type of the constant.
    pub open spec fn ty_of(self) -> Ty {
        match self {
            ConstantValue::I1(_) => Ty::I1,
            ConstantValue::I32(_) => Ty::I32,
            ConstantValue::Undef(ty) => ty,
        }
    }

    /// The constant one bit `value`.
    pub fn i1(value: bool) -> (r: ConstantValue)
        ensures
            r == ConstantValue::I1(value),
    {
        ConstantValue::I1(value)
    }

    /// The constant integer `value`.
    pub fn i32(value: i32) -> (r: ConstantValue)
        ensures
            r == ConstantValue::I32(value),
    {
        ConstantValue::I32(value)
    }

    /// The undefined value of type `ty`.
    pub fn undef(ty: Ty) -> (r: ConstantValue)
        ensures
            r == ConstantValue::Undef(ty),
    {
        ConstantValue::Undef(ty)
    }

    /// The type of the constant.
    pub fn ty(&self) -> (r: Ty)
        ensures
            r == self.ty_of(),
    {
        match self {
            ConstantValue::I1(_) => Ty::I1,
            ConstantValue::I32(_) => Ty::I32,
            ConstantValue::Undef(ty) => *ty,
        }
    }
}

impl Ty {
    /// The type of no value.
    pub fn void() -> (r: Ty)
        ensures
            r == Ty::Void,
    {
        Ty::Void
    }

    /// The type of one bit.
    pub fn i1() -> (r: Ty)
        ensures
            r == Ty::I1,
    {
        Ty::I1
    }

    /// The type of a 32-bit integer.
    pub fn i32() -> (r: Ty)
        ensures
            r == Ty::I32,
    {
        Ty::I32
    }

    /// The type of an address.
    pub fn ptr() -> (r: Ty)
        ensures
            r == Ty::Ptr,
    {
        Ty::Ptr
    }

    /// The number of bits of a value of this type, an address having
    /// `ptr_size` bits.
    pub open spec fn bits(self, ptr_size: u32) -> u32 {
        match self {
            Ty::Void => 0,
            Ty::I1 => 1,
            Ty::I32 => 32,
            Ty::Ptr => ptr_size,
        }
    }

    /// The number of bits of a value of this type on the machine that `ctx`
    /// is compiled for.
    pub fn bitwidth(&self, ctx: &Context) -> (r: u32)
        ensures
            r == self.bits(ctx@.target.ptr_size),
    {
        match self {
            Ty::Void => 0,
            Ty::I1 => 1,
            Ty::I32 => 32,
            Ty::Ptr => ctx.target.ptr_size,
        }
    }
}

impl InstKind {
    /// Whether the instruction ends a block.
    pub open spec fn is_terminator(self) -> bool {
        self is Br || self is CondBr || self is Ret
    }

    /// Whether the instruction ends a block.
    pub fn terminates(&self) -> (r: bool)
        ensures
            r == self.is_terminator(),
    {
        match self {
            InstKind::Br { .. } => true,
            InstKind::CondBr { .. } => true,
            InstKind::Ret { .. } => true,
            _ => false,
        }
    }
}

impl ContextView {
    /// The context that holds nothing.
    pub open spec fn empty() -> ContextView {
        ContextView {
            values: Seq::empty(),
            insts: Seq::empty(),
            blocks: Seq::empty(),
            funcs: Seq::empty(),
            globals: Seq::empty(),
            target: TargetInfo { ptr_size: 0 },
        }
    }

    pub open spec fn has_value(self, v: Value) -> bool {
        v.0 < self.values.len()
    }

    pub open spec fn has_inst(self, i: Inst) -> bool {
        i.0 < self.insts.len()
    }

    pub open spec fn has_block(self, b: Block) -> bool {
        b.0 < self.blocks.len()
    }

    pub open spec fn has_func(self, f: Func) -> bool {
        f.0 < self.funcs.len()
    }

    pub open spec fn has_global(self, g: Global) -> bool {
        g.0 < self.globals.len()
    }

    /// The handle that the next value gets.
    pub open spec fn next_value(self) -> Value {
        Value(self.values.len() as usize)
    }

    /// The handle that the next instruction gets.
    pub open spec fn next_inst(self) -> Inst {
        Inst(self.insts.len() as usize)
    }

    /// The handle that the next block gets.
    pub open spec fn next_block(self) -> Block {
        Block(self.blocks.len() as usize)
    }

    /// The handle that the next function gets.
    pub open spec fn next_func(self) -> Func {
        Func(self.funcs.len() as usize)
    }

    /// The handle that the next global slot gets.
    pub open spec fn next_global(self) -> Global {
        Global(self.globals.len() as usize)
    }

    /// The type of the value `v`; `Void` where there is no such value.
    pub open spec fn type_of(self, v: Value) -> Ty {
        if self.has_value(v) {
            self.values[v.0 as int].ty
        } else {
            Ty::Void
        }
    }

    /// Whether `v` is a parameter of a function as it comes in.
    pub open spec fn is_param(self, v: Value) -> bool {
        self.has_value(v) && self.values[v.0 as int].kind is Param
    }

    /// The type of the result of an instruction; `None` where it has no
    /// result. An arithmetic operation has the type of its left operand, a
    /// comparison gives one bit.
    pub open spec fn result_ty(self, kind: InstKind) -> Option<Ty> {
        match kind {
            InstKind::Alloca { .. } => Some(Ty::Ptr),
            InstKind::Load { ty, .. } => Some(ty),
            InstKind::Store { .. } => None,
            InstKind::IBinary { op, lhs, .. } => match op {
                IntBinaryOp::ICmp { .. } => Some(Ty::I1),
                _ => Some(self.type_of(lhs)),
            },
            InstKind::ZExt { .. } => Some(Ty::I32),
            InstKind::Br { .. } => None,
            InstKind::CondBr { .. } => None,
            InstKind::Ret { .. } => None,
        }
    }

    /// The context with one more value.
    pub open spec fn add_value(self, data: ValueData) -> ContextView {
        ContextView { values: self.values.push(data), ..self }
    }

    /// The context with one more instruction, which no block holds yet, and
    /// with the value that is its result, where it has one.
    pub open spec fn add_inst(self, kind: InstKind) -> ContextView {
        match self.result_ty(kind) {
            Some(ty) => ContextView {
                values: self.values.push(
                    ValueData { ty, kind: ValueKind::InstResult(self.next_inst()) },
                ),
                insts: self.insts.push(
                    InstData { kind, result: Some(self.next_value()), parent: None },
                ),
                ..self
            },
            None => ContextView {
                insts: self.insts.push(InstData { kind, result: None, parent: None }),
                ..self
            },
        }
    }

    /// The result of the instruction that `add_inst` adds.
    pub open spec fn next_result(self, kind: InstKind) -> Option<Value> {
        match self.result_ty(kind) {
            Some(_) => Some(self.next_value()),
            None => None,
        }
    }

    /// The context with one more block, empty, which no function holds yet.
    pub open spec fn add_block(self) -> ContextView {
        ContextView {
            blocks: self.blocks.push(BlockView { insts: Seq::empty(), parent: None }),
            ..self
        }
    }

    /// The context with one more function, without parameters and blocks.
    pub open spec fn add_func(self, name: Seq<char>, ret_ty: Ty) -> ContextView {
        ContextView {
            funcs: self.funcs.push(
                FuncView { name, ret_ty, params: Seq::empty(), blocks: Seq::empty() },
            ),
            ..self
        }
    }

    /// The context with one more global slot.
    pub open spec fn add_global(self, name: Seq<char>, init: ConstantValue) -> ContextView {
        ContextView { globals: self.globals.push(GlobalView { name, init }), ..self }
    }

    /// The context with one more parameter of type `ty` at the end of the
    /// parameters of `func`.
    pub open spec fn add_param(self, func: Func, ty: Ty) -> ContextView {
        let f = self.funcs[func.0 as int];
        ContextView {
            values: self.values.push(
                ValueData { ty, kind: ValueKind::Param(func, f.params.len() as usize) },
            ),
            funcs: self.funcs.update(
                func.0 as int,
                FuncView { params: f.params.push(self.next_value()), ..f },
            ),
            ..self
        }
    }

    /// The context with `inst` at the end of `block`.
    pub open spec fn push_back(self, block: Block, inst: Inst) -> ContextView {
        let b = self.blocks[block.0 as int];
        ContextView {
            insts: self.insts.update(
                inst.0 as int,
                InstData { parent: Some(block), ..self.insts[inst.0 as int] },
            ),
            blocks: self.blocks.update(block.0 as int, BlockView { insts: b.insts.push(inst), ..b }),
            ..self
        }
    }

    /// The context with `inst` at the front of `block`.
    pub open spec fn push_front(self, block: Block, inst: Inst) -> ContextView {
        let b = self.blocks[block.0 as int];
        ContextView {
            insts: self.insts.update(
                inst.0 as int,
                InstData { parent: Some(block), ..self.insts[inst.0 as int] },
            ),
            blocks: self.blocks.update(
                block.0 as int,
                BlockView { insts: b.insts.insert(0, inst), ..b },
            ),
            ..self
        }
    }

    /// The context with `block` at the end of the blocks of `func`.
    pub open spec fn append_block(self, func: Func, block: Block) -> ContextView {
        let f = self.funcs[func.0 as int];
        ContextView {
            blocks: self.blocks.update(
                block.0 as int,
                BlockView { parent: Some(func), ..self.blocks[block.0 as int] },
            ),
            funcs: self.funcs.update(func.0 as int, FuncView { blocks: f.blocks.push(block), ..f }),
            ..self
        }
    }

    /// Whether `block` is closed: its last instruction ends it.
    pub open spec fn closed(self, block: Block) -> bool {
        let insts = self.blocks[block.0 as int].insts;
        &&& self.has_block(block)
        &&& insts.len() > 0
        &&& self.has_inst(insts.last())
        &&& self.insts[insts.last().0 as int].kind.is_terminator()
    }

    /// Whether the operands of an instruction are values and blocks of this
    /// context.
    pub open spec fn operands_ok(self, kind: InstKind) -> bool {
        match kind {
            InstKind::Alloca { .. } => true,
            InstKind::Load { ptr, .. } => self.has_value(ptr),
            InstKind::Store { val, ptr } => self.has_value(val) && self.has_value(ptr),
            InstKind::IBinary { lhs, rhs, .. } => self.has_value(lhs) && self.has_value(rhs),
            InstKind::ZExt { val } => self.has_value(val),
            InstKind::Br { target } => self.has_block(target),
            InstKind::CondBr { cond, then_target, else_target } => self.has_value(cond)
                && self.has_block(then_target) && self.has_block(else_target),
            InstKind::Ret { value } => match value {
                Some(v) => self.has_value(v),
                None => true,
            },
        }
    }

    /// Whether where a value comes from exists in this context.
    pub open spec fn origin_ok(self, kind: ValueKind) -> bool {
        match kind {
            ValueKind::Constant(_) => true,
            ValueKind::Param(func, _) => self.has_func(func),
            ValueKind::InstResult(inst) => self.has_inst(inst),
            ValueKind::GlobalRef(global) => self.has_global(global),
        }
    }

    /// Whether the instruction at place `i` is sound: its operands exist, its
    /// result is a value that names it as its origin, and the block that it
    /// names as its parent exists.
    pub open spec fn inst_ok(self, i: int) -> bool {
        let data = self.insts[i];
        &&& self.operands_ok(data.kind)
        &&& data.result matches Some(v) ==> self.has_value(v) && self.values[v.0 as int].kind
            == ValueKind::InstResult(Inst(i as usize))
        &&& data.parent matches Some(b) ==> self.has_block(b)
    }

    /// Whether the block at place `b` is sound: it holds instructions of this
    /// context, each of which names the block as its parent; only its last
    /// instruction may end it; and the function that it names as its parent
    /// exists.
    pub open spec fn block_ok(self, b: int) -> bool {
        let data = self.blocks[b];
        &&& forall|k: int|
            0 <= k < data.insts.len() ==> {
                &&& self.has_inst(#[trigger] data.insts[k])
                &&& self.insts[data.insts[k].0 as int].parent == Some(Block(b as usize))
                &&& self.insts[data.insts[k].0 as int].kind.is_terminator() ==> k == data.insts.len()
                    - 1
            }
        &&& data.parent matches Some(f) ==> self.has_func(f)
    }

    /// Whether the function at place `f` is sound: it holds blocks and
    /// parameters of this context, and each of the blocks names the function
    /// as its parent.
    pub open spec fn func_ok(self, f: int) -> bool {
        let data = self.funcs[f];
        &&& forall|k: int|
            0 <= k < data.blocks.len() ==> {
                &&& self.has_block(#[trigger] data.blocks[k])
                &&& self.blocks[data.blocks[k].0 as int].parent == Some(Func(f as usize))
            }
        &&& forall|k: int| 0 <= k < data.params.len() ==> self.has_value(#[trigger] data.params[k])
    }

    /// Whether the numbers of items fit the handles.
    pub open spec fn sized(self) -> bool {
        &&& self.values.len() <= usize::MAX
        &&& self.insts.len() <= usize::MAX
        &&& self.blocks.len() <= usize::MAX
        &&& self.funcs.len() <= usize::MAX
        &&& self.globals.len() <= usize::MAX
    }

    /// Whether every handle that the context holds names an item of the
    /// context, every instruction of a block and every block of a function
    /// names its holder as its parent, and no instruction follows one that
    /// ends its block.
    #[verifier::opaque]
    pub open spec fn sound(self) -> bool {
        &&& forall|v: int| 0 <= v < self.values.len() ==> self.origin_ok((#[trigger] self.values[v]).kind)
        &&& forall|i: int| 0 <= i < self.insts.len() ==> #[trigger] self.inst_ok(i)
        &&& forall|b: int| 0 <= b < self.blocks.len() ==> #[trigger] self.block_ok(b)
        &&& forall|f: int| 0 <= f < self.funcs.len() ==> #[trigger] self.func_ok(f)
    }

    /// Whether the context is well formed: the numbers of its items fit the
    /// handles, and it is sound.
    pub open spec fn wf(self) -> bool {
        self.sized() && self.sound()
    }

    /// Whether `inst` is an instruction that no block holds yet.
    pub open spec fn detached_inst(self, inst: Inst) -> bool {
        self.has_inst(inst) && self.insts[inst.0 as int].parent is None
    }

    /// Whether `block` is a block that no function holds yet.
    pub open spec fn detached_block(self, block: Block) -> bool {
        self.has_block(block) && self.blocks[block.0 as int].parent is None
    }

    /// Whether an instruction may be put at the end of `block`: the block
    /// exists and is not closed.
    pub open spec fn open_block(self, block: Block) -> bool {
        self.has_block(block) && !self.closed(block)
    }

    /// Whether `block` is a block that a function holds.
    pub open spec fn attached_block(self, block: Block) -> bool {
        self.has_block(block) && self.blocks[block.0 as int].parent is Some
    }

    /// Whether `block` is an empty block that no function holds yet.
    pub open spec fn pending_block(self, block: Block) -> bool {
        self.detached_block(block) && self.blocks[block.0 as int].insts.len() == 0
    }

    /// Whether `func` is a function with an entry block.
    pub open spec fn entered_func(self, func: Func) -> bool {
        self.has_func(func) && self.funcs[func.0 as int].blocks.len() > 0
    }

    /// Whether `after` holds everything that this context holds: the values
    /// as they are; the instructions doing what they did; the blocks that no
    /// function holds as they are, but for
    /// `entered` where there is one; the other blocks in the functions that
    /// hold them; and the functions with the entry blocks that they have.
    pub open spec fn grown_apart(self, after: ContextView, entered: Option<Block>) -> bool {
        &&& self.values.len() <= after.values.len()
        &&& self.insts.len() <= after.insts.len()
        &&& self.blocks.len() <= after.blocks.len()
        &&& self.funcs.len() <= after.funcs.len()
        &&& self.globals.len() <= after.globals.len()
        &&& self.target == after.target
        &&& forall|v: int| 0 <= v < self.values.len() ==> #[trigger] after.values[v] == self.values[v]
        &&& forall|i: int|
            0 <= i < self.insts.len() ==> (#[trigger] after.insts[i]).kind == self.insts[i].kind
        &&& forall|b: int|
            0 <= b < self.blocks.len() && self.blocks[b].parent is None && entered != Some(
                Block(b as usize),
            ) ==> #[trigger] after.blocks[b] == self.blocks[b]
        &&& forall|b: int|
            0 <= b < self.blocks.len() && self.blocks[b].parent is Some ==> (
            #[trigger] after.blocks[b]).parent == self.blocks[b].parent
        &&& forall|f: int|
            0 <= f < self.funcs.len() ==> {
                &&& self.funcs[f].blocks.len() <= (#[trigger] after.funcs[f]).blocks.len()
                &&& self.funcs[f].blocks.len() > 0 ==> after.funcs[f].blocks[0]
                    == self.funcs[f].blocks[0]
            }
    }

    /// Whether `after` holds everything that this context holds, unchanged
    /// where it is a value or a block that no function holds.
    #[verifier::opaque]
    pub open spec fn grown(self, after: ContextView) -> bool {
        self.grown_apart(after, None)
    }

    /// Whether every block that a function holds is closed, but for the
    /// block `open` where there is one.
    #[verifier::opaque]
    pub open spec fn closed_but(self, open: Option<Block>) -> bool {
        forall|b: int|
            0 <= b < self.blocks.len() && self.blocks[b].parent is Some && open != Some(
                Block(b as usize),
            ) ==> #[trigger] self.closed(Block(b as usize))
    }

    /// Whether `after` holds the blocks of this context as they are, and
    /// its instructions doing what they did; and whatever other blocks it
    /// has, no function holds.
    pub open spec fn blocks_kept(self, after: ContextView) -> bool {
        &&& self.blocks.len() <= after.blocks.len()
        &&& self.insts.len() <= after.insts.len()
        &&& forall|b: int| 0 <= b < self.blocks.len() ==> #[trigger] after.blocks[b] == self.blocks[b]
        &&& forall|b: int|
            self.blocks.len() <= b < after.blocks.len() ==> (#[trigger] after.blocks[b]).parent is None
        &&& forall|i: int|
            0 <= i < self.insts.len() ==> (#[trigger] after.insts[i]).kind == self.insts[i].kind
    }

    /// As `grown`, but for the block `entered`, which a function may hold in
    /// `after`.
    #[verifier::opaque]
    pub open spec fn grown_but(self, after: ContextView, entered: Block) -> bool {
        self.grown_apart(after, Some(entered))
    }
}

impl IntCmpCond {
    /// Whether the comparison holds of the integers `a` and `b`.
    pub open spec fn holds(self, a: int, b: int) -> bool {
        match self {
            IntCmpCond::Eq => a == b,
            IntCmpCond::Ne => a != b,
            IntCmpCond::Slt => a < b,
            IntCmpCond::Sle => a <= b,
            IntCmpCond::Sgt => a > b,
            IntCmpCond::Sge => a >= b,
        }
    }
}

/// The result of a binary operation on operands of type `ty` that are the
/// integers `a` and `b`, a bit being `1` or `0`; nothing where the machine
/// defines none. Arithmetic is on 32-bit integers and wraps; `and` and `or`
/// are taken on bits only.
pub open spec fn eval_ibinary(op: IntBinaryOp, ty: Ty, a: int, b: int) -> Option<int> {
    match op {
        IntBinaryOp::ICmp { cond } => Some(bit(cond.holds(a, b))),
        IntBinaryOp::Add => if ty == Ty::I32 {
            Some(wrap32(a + b))
        } else {
            None
        },
        IntBinaryOp::Sub => if ty == Ty::I32 {
            Some(wrap32(a - b))
        } else {
            None
        },
        IntBinaryOp::Mul => if ty == Ty::I32 {
            Some(wrap32(a * b))
        } else {
            None
        },
        IntBinaryOp::SDiv => if ty == Ty::I32 && b != 0 && fits_int(trunc_div(a, b)) {
            Some(trunc_div(a, b))
        } else {
            None
        },
        IntBinaryOp::SRem => if ty == Ty::I32 && b != 0 && fits_int(trunc_div(a, b)) {
            Some(trunc_rem(a, b))
        } else {
            None
        },
        IntBinaryOp::And => if ty == Ty::I1 {
            Some(bit(a != 0 && b != 0))
        } else {
            None
        },
        IntBinaryOp::Or => if ty == Ty::I1 {
            Some(bit(a != 0 || b != 0))
        } else {
            None
        },
    }
}

impl ContextView {
    /// The integer that the value `v` is whenever the program runs, where
    /// it is computed from constants alone; a bit is `1` or `0`. A value that
    /// is read from a slot, comes in as a parameter, is an address or is
    /// undefined is no such integer.
    pub open spec fn denotes(self, v: Value) -> Option<int>
        decreases v.0,
    {
        if !self.has_value(v) {
            None
        } else {
            match self.values[v.0 as int].kind {
                ValueKind::Constant(ConstantValue::I1(b)) => Some(bit(b)),
                ValueKind::Constant(ConstantValue::I32(i)) => Some(i as int),
                ValueKind::InstResult(inst) => if !self.has_inst(inst) {
                    None
                } else {
                    match self.insts[inst.0 as int].kind {
                        InstKind::IBinary { op, lhs, rhs } => if lhs.0 < v.0 && rhs.0 < v.0 {
                            match (self.denotes(lhs), self.denotes(rhs)) {
                                (Some(a), Some(b)) => eval_ibinary(op, self.type_of(lhs), a, b),
                                _ => None,
                            }
                        } else {
                            None
                        },
                        InstKind::ZExt { val } => if val.0 < v.0 {
                            self.denotes(val)
                        } else {
                            None
                        },
                        _ => None,
                    }
                },
                _ => None,
            }
        }
    }
}

/// A value of a context is, in a context grown from it, the integer that it
/// was.
pub proof fn lemma_grown_keeps_denotes(a: ContextView, b: ContextView, v: Value)
    requires
        a.wf(),
        a.grown(b),
        a.has_value(v),
    ensures
        b.denotes(v) == a.denotes(v),
    decreases v.0,
{
    reveal(ContextView::grown);
    reveal(ContextView::sound);
    assert(b.values[v.0 as int] == a.values[v.0 as int]);
    assert(a.origin_ok(a.values[v.0 as int].kind));
    match a.values[v.0 as int].kind {
        ValueKind::InstResult(inst) => {
            assert(b.insts[inst.0 as int].kind == a.insts[inst.0 as int].kind);
            match a.insts[inst.0 as int].kind {
                InstKind::IBinary { op, lhs, rhs } => {
                    if lhs.0 < v.0 && rhs.0 < v.0 {
                        lemma_grown_keeps_denotes(a, b, lhs);
                        lemma_grown_keeps_denotes(a, b, rhs);
                        assert(b.values[lhs.0 as int] == a.values[lhs.0 as int]);
                    }
                },
                InstKind::ZExt { val } => {
                    if val.0 < v.0 {
                        lemma_grown_keeps_denotes(a, b, val);
                    }
                },
                _ => {},
            }
        },
        _ => {},
    }
}

/// A context has grown from itself.
pub proof fn lemma_grown_same(ctx: ContextView)
    ensures
        ctx.grown(ctx),
{
    reveal(ContextView::grown);
}

/// A context that has grown twice has grown.
pub proof fn lemma_grown_twice(a: ContextView, b: ContextView, c: ContextView)
    requires
        a.grown(b),
        b.grown(c),
    ensures
        a.grown(c),
{
    reveal(ContextView::grown);
    assert forall|v: int| 0 <= v < a.values.len() implies #[trigger] c.values[v] == a.values[v] by {
        assert(b.values[v] == a.values[v]);
    }
    assert forall|i: int| 0 <= i < a.insts.len() implies (#[trigger] c.insts[i]).kind
        == a.insts[i].kind by {
        assert(b.insts[i].kind == a.insts[i].kind);
    }
    assert forall|k: int| 0 <= k < a.blocks.len() && a.blocks[k].parent is None implies #[trigger] c.blocks[k]
        == a.blocks[k] by {
        assert(b.blocks[k] == a.blocks[k]);
    }
    assert forall|k: int| 0 <= k < a.blocks.len() && a.blocks[k].parent is Some implies (
    #[trigger] c.blocks[k]).parent == a.blocks[k].parent by {
        assert(b.blocks[k].parent == a.blocks[k].parent);
    }
    assert forall|f: int| 0 <= f < a.funcs.len() implies {
        &&& a.funcs[f].blocks.len() <= (#[trigger] c.funcs[f]).blocks.len()
        &&& a.funcs[f].blocks.len() > 0 ==> c.funcs[f].blocks[0] == a.funcs[f].blocks[0]
    } by {
        assert(a.funcs[f].blocks.len() <= b.funcs[f].blocks.len());
    }
}

/// A context that has grown, and then grown but for a block that was added
/// meanwhile, has grown.
pub proof fn lemma_grown_entered(a: ContextView, b: ContextView, c: ContextView, entered: Block)
    requires
        a.grown(b),
        b.grown_but(c, entered),
        entered.0 >= a.blocks.len(),
    ensures
        a.grown(c),
{
    reveal(ContextView::grown);
    reveal(ContextView::grown_but);
    assert forall|v: int| 0 <= v < a.values.len() implies #[trigger] c.values[v] == a.values[v] by {
        assert(b.values[v] == a.values[v]);
    }
    assert forall|i: int| 0 <= i < a.insts.len() implies (#[trigger] c.insts[i]).kind
        == a.insts[i].kind by {
        assert(b.insts[i].kind == a.insts[i].kind);
    }
    assert forall|k: int| 0 <= k < a.blocks.len() && a.blocks[k].parent is None implies #[trigger] c.blocks[k]
        == a.blocks[k] by {
        assert(b.blocks[k] == a.blocks[k]);
    }
    assert forall|k: int| 0 <= k < a.blocks.len() && a.blocks[k].parent is Some implies (
    #[trigger] c.blocks[k]).parent == a.blocks[k].parent by {
        assert(b.blocks[k].parent == a.blocks[k].parent);
    }
    assert forall|f: int| 0 <= f < a.funcs.len() implies {
        &&& a.funcs[f].blocks.len() <= (#[trigger] c.funcs[f]).blocks.len()
        &&& a.funcs[f].blocks.len() > 0 ==> c.funcs[f].blocks[0] == a.funcs[f].blocks[0]
    } by {
        assert(a.funcs[f].blocks.len() <= b.funcs[f].blocks.len());
    }
}

/// What exists in a context exists in a context grown from it; a value
/// keeps its type and its origin.
pub proof fn lemma_grown_keeps_value(a: ContextView, b: ContextView, v: Value)
    requires
        a.grown(b),
        a.has_value(v),
    ensures
        b.has_value(v),
        b.values[v.0 as int] == a.values[v.0 as int],
        b.type_of(v) == a.type_of(v),
        b.is_param(v) == a.is_param(v),
{
    reveal(ContextView::grown);
}

/// A block of a context exists in a context grown from it: held by a
/// function where it was, and empty and held by none where it was.
pub proof fn lemma_grown_keeps_block(a: ContextView, b: ContextView, block: Block)
    requires
        a.grown(b),
        a.has_block(block),
    ensures
        b.has_block(block),
        a.attached_block(block) ==> b.attached_block(block),
        a.detached_block(block) ==> b.detached_block(block),
        a.pending_block(block) ==> b.pending_block(block),
{
    reveal(ContextView::grown);
    assert(b.blocks[block.0 as int].parent is Some || b.blocks[block.0 as int]
        == a.blocks[block.0 as int]);
}

/// As `lemma_grown_keeps_block`, for a block other than the one entered.
pub proof fn lemma_grown_but_keeps_block(
    a: ContextView,
    b: ContextView,
    entered: Block,
    block: Block,
)
    requires
        a.grown_but(b, entered),
        a.has_block(block),
        block != entered,
    ensures
        b.has_block(block),
        a.attached_block(block) ==> b.attached_block(block),
        a.detached_block(block) ==> b.detached_block(block),
        a.pending_block(block) ==> b.pending_block(block),
{
    reveal(ContextView::grown_but);
    assert(b.blocks[block.0 as int].parent is Some || b.blocks[block.0 as int]
        == a.blocks[block.0 as int]);
}

/// A function or a global slot of a context exists in a context grown from
/// it, the function with the entry block that it had.
pub proof fn lemma_grown_keeps_func(a: ContextView, b: ContextView, func: Func, global: Global)
    requires
        a.grown(b),
    ensures
        a.has_func(func) ==> b.has_func(func),
        a.entered_func(func) ==> b.entered_func(func) && b.funcs[func.0 as int].blocks[0]
            == a.funcs[func.0 as int].blocks[0],
        a.has_global(global) ==> b.has_global(global),
        a.values.len() <= b.values.len(),
        a.blocks.len() <= b.blocks.len(),
        a.globals.len() <= b.globals.len(),
{
    reveal(ContextView::grown);
    if a.has_func(func) {
        assert(a.funcs[func.0 as int].blocks.len() <= b.funcs[func.0 as int].blocks.len());
    }
}

/// As `lemma_grown_keeps_func` and `lemma_grown_keeps_value`, where a block
/// was entered.
pub proof fn lemma_grown_but_keeps(
    a: ContextView,
    b: ContextView,
    entered: Block,
    func: Func,
    global: Global,
    v: Value,
)
    requires
        a.grown_but(b, entered),
    ensures
        a.has_func(func) ==> b.has_func(func),
        a.entered_func(func) ==> b.entered_func(func) && b.funcs[func.0 as int].blocks[0]
            == a.funcs[func.0 as int].blocks[0],
        a.has_global(global) ==> b.has_global(global),
        a.has_value(v) ==> b.has_value(v) && b.values[v.0 as int] == a.values[v.0 as int],
        a.values.len() <= b.values.len(),
        a.blocks.len() <= b.blocks.len(),
        a.globals.len() <= b.globals.len(),
{
    reveal(ContextView::grown_but);
    if a.has_func(func) {
        assert(a.funcs[func.0 as int].blocks.len() <= b.funcs[func.0 as int].blocks.len());
    }
}

/// Whether a block is closed is the same in a context and in `after`, which
/// holds the same instructions in the block and has not changed those.
pub proof fn lemma_closed_kept(before: ContextView, after: ContextView, block: Block)
    requires
        before.wf(),
        before.has_block(block),
        after.has_block(block),
        after.blocks[block.0 as int].insts == before.blocks[block.0 as int].insts,
        before.insts.len() <= after.insts.len(),
        forall|i: int|
            0 <= i < before.insts.len() ==> (#[trigger] after.insts[i]).kind == before.insts[i].kind,
    ensures
        after.closed(block) == before.closed(block),
{
    reveal(ContextView::sound);
    assert(before.block_ok(block.0 as int));
    let held = before.blocks[block.0 as int].insts;
    if held.len() > 0 {
        assert(before.has_inst(held[held.len() - 1]));
    }
}

/// A basic block as the context stores it.
#[derive(Debug)]
struct BlockData {
    insts: Vec<Inst>,
    parent: Option<Func>,
}

/// A function as the context stores it.
#[derive(Debug)]
struct FuncData {
    name: String,
    ret_ty: Ty,
    params: Vec<Value>,
    blocks: Vec<Block>,
}

/// A global slot as the context stores it.
#[derive(Debug)]
struct GlobalData {
    name: String,
    init: ConstantValue,
}

/// The container of a program in the intermediate representation.
#[derive(Debug)]
pub struct Context {
    values: Vec<ValueData>,
    insts: Vec<InstData>,
    blocks: Vec<BlockData>,
    funcs: Vec<FuncData>,
    globals: Vec<GlobalData>,
    target: TargetInfo,
}

impl BlockData {
    spec fn view(&self) -> BlockView {
        BlockView { insts: self.insts@, parent: self.parent }
    }
}

impl FuncData {
    spec fn view(&self) -> FuncView {
        FuncView {
            name: self.name@,
            ret_ty: self.ret_ty,
            params: self.params@,
            blocks: self.blocks@,
        }
    }
}

impl GlobalData {
    spec fn view(&self) -> GlobalView {
        GlobalView { name: self.name@, init: self.init }
    }
}

impl Context {
    /// What the context holds.
    pub closed spec fn view(&self) -> ContextView {
        ContextView {
            values: self.values@,
            insts: self.insts@,
            blocks: Seq::new(self.blocks@.len(), |i: int| self.blocks@[i]@),
            funcs: Seq::new(self.funcs@.len(), |i: int| self.funcs@[i]@),
            globals: Seq::new(self.globals@.len(), |i: int| self.globals@[i]@),
            target: self.target,
        }
    }

    /// The numbers of items of a context fit the handles.
    proof fn lemma_sizes(&self)
        ensures
            self@.values.len() <= usize::MAX,
            self@.insts.len() <= usize::MAX,
            self@.blocks.len() <= usize::MAX,
            self@.funcs.len() <= usize::MAX,
            self@.globals.len() <= usize::MAX,
    {
        assert(self.values@.len() == self.values.len());
        assert(self.insts@.len() == self.insts.len());
        assert(self.blocks@.len() == self.blocks.len());
        assert(self.funcs@.len() == self.funcs.len());
        assert(self.globals@.len() == self.globals.len());
    }

    /// The context that holds nothing.
    pub fn new() -> (r: Context)
        ensures
            r@ == ContextView::empty(),
            r@.wf(),
            r@.closed_but(None),
    {
        let r = Context {
            values: Vec::new(),
            insts: Vec::new(),
            blocks: Vec::new(),
            funcs: Vec::new(),
            globals: Vec::new(),
            target: TargetInfo { ptr_size: 0 },
        };
        assert(r@.blocks =~= Seq::empty());
        assert(r@.funcs =~= Seq::empty());
        assert(r@.globals =~= Seq::empty());
        proof {
            reveal(ContextView::sound);
            reveal(ContextView::closed_but);
        }
        r
    }

    /// Sets what is known of the machine that the program is compiled for.
    pub fn set_target_info(&mut self, target: TargetInfo)
        ensures
            final(self)@ == (ContextView { target, ..old(self)@ }),
    {
        self.target = target;
    }

    /// What is known of the machine that the program is compiled for.
    pub fn target_info(&self) -> (r: TargetInfo)
        ensures
            r == self@.target,
    {
        self.target
    }

    /// The number of values.
    pub fn value_count(&self) -> (r: usize)
        ensures
            r == self@.values.len(),
    {
        self.values.len()
    }

    /// The number of instructions.
    pub fn inst_count(&self) -> (r: usize)
        ensures
            r == self@.insts.len(),
    {
        self.insts.len()
    }

    /// The number of blocks.
    pub fn block_count(&self) -> (r: usize)
        ensures
            r == self@.blocks.len(),
    {
        self.blocks.len()
    }

    /// The number of functions. The functions have the handles from `0` up
    /// to this number, in the order in which they were made.
    pub fn func_count(&self) -> (r: usize)
        ensures
            r == self@.funcs.len(),
    {
        self.funcs.len()
    }

    /// The number of global slots. The slots have the handles from `0` up to
    /// this number, in the order in which they were made.
    pub fn global_count(&self) -> (r: usize)
        ensures
            r == self@.globals.len(),
    {
        self.globals.len()
    }

    /// Adds a value.
    fn add_value(&mut self, data: ValueData) -> (r: Value)
        requires
            old(self)@.wf(),
            old(self)@.origin_ok(data.kind),
        ensures
            final(self)@ == old(self)@.add_value(data),
            r == old(self)@.next_value(),
            final(self)@.wf(),
            old(self)@.grown(final(self)@),
    {
        let r = Value(self.values.len());
        self.values.push(data);
        proof {
            reveal(ContextView::sound);
            reveal(ContextView::grown);
            reveal(ContextView::grown_but);
            let before = old(self)@;
            let after = self@;
            assert(after.blocks =~= before.blocks);
            assert(after.funcs =~= before.funcs);
            assert(after.globals =~= before.globals);
            assert forall|i: int| 0 <= i < after.insts.len() implies #[trigger] after.inst_ok(i) by {
                assert(before.inst_ok(i));
            }
            assert forall|b: int| 0 <= b < after.blocks.len() implies #[trigger] after.block_ok(
                b,
            ) by {
                assert(before.block_ok(b));
            }
            assert forall|f: int| 0 <= f < after.funcs.len() implies #[trigger] after.func_ok(f) by {
                assert(before.func_ok(f));
            }
            self.lemma_sizes();
        }
        r
    }

    /// Adds an instruction, which no block holds yet.
    fn add_inst(&mut self, kind: InstKind) -> (r: Inst)
        requires
            old(self)@.wf(),
            old(self)@.operands_ok(kind),
        ensures
            final(self)@ == old(self)@.add_inst(kind),
            r == old(self)@.next_inst(),
            final(self)@.wf(),
            old(self)@.grown(final(self)@),
    {
        let r = Inst(self.insts.len());
        let result_ty = match kind {
            InstKind::Alloca { .. } => Some(Ty::Ptr),
            InstKind::Load { ty, .. } => Some(ty),
            InstKind::Store { .. } => None,
            InstKind::IBinary { op, lhs, .. } => match op {
                IntBinaryOp::ICmp { .. } => Some(Ty::I1),
                _ => Some(self.values[lhs.0].ty),
            },
            InstKind::ZExt { .. } => Some(Ty::I32),
            InstKind::Br { .. } => None,
            InstKind::CondBr { .. } => None,
            InstKind::Ret { .. } => None,
        };
        let result = match result_ty {
            Some(ty) => {
                let v = Value(self.values.len());
                self.values.push(ValueData { ty, kind: ValueKind::InstResult(r) });
                Some(v)
            },
            None => None,
        };
        self.insts.push(InstData { kind, result, parent: None });
        proof {
            reveal(ContextView::sound);
            reveal(ContextView::grown);
            reveal(ContextView::grown_but);
            let before = old(self)@;
            let after = self@;
            assert(after.blocks =~= before.blocks);
            assert(after.funcs =~= before.funcs);
            assert(after.globals =~= before.globals);
            assert forall|i: int| 0 <= i < after.insts.len() implies #[trigger] after.inst_ok(i) by {
                if i < before.insts.len() {
                    assert(before.inst_ok(i));
                }
            }
            assert forall|b: int| 0 <= b < after.blocks.len() implies #[trigger] after.block_ok(
                b,
            ) by {
                assert(before.block_ok(b));
            }
            assert forall|f: int| 0 <= f < after.funcs.len() implies #[trigger] after.func_ok(f) by {
                assert(before.func_ok(f));
            }
            self.lemma_sizes();
        }
        r
    }

    /// Adds a block, which no function holds yet.
    fn add_block(&mut self) -> (r: Block)
        requires
            old(self)@.wf(),
        ensures
            final(self)@ == old(self)@.add_block(),
            r == old(self)@.next_block(),
            final(self)@.wf(),
            old(self)@.grown(final(self)@),
    {
        let r = Block(self.blocks.len());
        self.blocks.push(BlockData { insts: Vec::new(), parent: None });
        proof {
            reveal(ContextView::sound);
            reveal(ContextView::grown);
            reveal(ContextView::grown_but);
            let before = old(self)@;
            let after = self@;
            assert(after.blocks =~= before.blocks.push(
                BlockView { insts: Seq::empty(), parent: None },
            ));
            assert(after.funcs =~= before.funcs);
            assert(after.globals =~= before.globals);
            assert forall|i: int| 0 <= i < after.insts.len() implies #[trigger] after.inst_ok(i) by {
                assert(before.inst_ok(i));
            }
            assert forall|b: int| 0 <= b < after.blocks.len() implies #[trigger] after.block_ok(
                b,
            ) by {
                if b < before.blocks.len() {
                    assert(before.block_ok(b));
                }
            }
            assert forall|f: int| 0 <= f < after.funcs.len() implies #[trigger] after.func_ok(f) by {
                assert(before.func_ok(f));
            }
            self.lemma_sizes();
        }
        r
    }

    /// Adds a function, without parameters and blocks.
    fn add_func(&mut self, name: String, ret_ty: Ty) -> (r: Func)
        requires
            old(self)@.wf(),
        ensures
            final(self)@ == old(self)@.add_func(name@, ret_ty),
            r == old(self)@.next_func(),
            final(self)@.wf(),
            old(self)@.grown(final(self)@),
    {
        let r = Func(self.funcs.len());
        self.funcs.push(FuncData { name, ret_ty, params: Vec::new(), blocks: Vec::new() });
        proof {
            reveal(ContextView::sound);
            reveal(ContextView::grown);
            reveal(ContextView::grown_but);
            let before = old(self)@;
            let after = self@;
            assert(after.blocks =~= before.blocks);
            assert(after.funcs =~= before.funcs.push(
                FuncView { name: name@, ret_ty, params: Seq::empty(), blocks: Seq::empty() },
            ));
            assert(after.globals =~= before.globals);
            assert forall|v: int| 0 <= v < after.values.len() implies after.origin_ok(
                (#[trigger] after.values[v]).kind,
            ) by {
                assert(before.origin_ok(before.values[v].kind));
            }
            assert forall|i: int| 0 <= i < after.insts.len() implies #[trigger] after.inst_ok(i) by {
                assert(before.inst_ok(i));
            }
            assert forall|b: int| 0 <= b < after.blocks.len() implies #[trigger] after.block_ok(
                b,
            ) by {
                assert(before.block_ok(b));
            }
            assert forall|f: int| 0 <= f < after.funcs.len() implies #[trigger] after.func_ok(f) by {
                if f < before.funcs.len() {
                    assert(before.func_ok(f));
                }
            }
            self.lemma_sizes();
        }
        r
    }

    /// Adds a global slot.
    fn add_global(&mut self, name: String, init: ConstantValue) -> (r: Global)
        requires
            old(self)@.wf(),
        ensures
            final(self)@ == old(self)@.add_global(name@, init),
            r == old(self)@.next_global(),
            final(self)@.wf(),
            old(self)@.grown(final(self)@),
    {
        let r = Global(self.globals.len());
        self.globals.push(GlobalData { name, init });
        proof {
            reveal(ContextView::sound);
            reveal(ContextView::grown);
            reveal(ContextView::grown_but);
            let before = old(self)@;
            let after = self@;
            assert(after.blocks =~= before.blocks);
            assert(after.funcs =~= before.funcs);
            assert(after.globals =~= before.globals.push(GlobalView { name: name@, init }));
            assert forall|v: int| 0 <= v < after.values.len() implies after.origin_ok(
                (#[trigger] after.values[v]).kind,
            ) by {
                assert(before.origin_ok(before.values[v].kind));
            }
            assert forall|i: int| 0 <= i < after.insts.len() implies #[trigger] after.inst_ok(i) by {
                assert(before.inst_ok(i));
            }
            assert forall|b: int| 0 <= b < after.blocks.len() implies #[trigger] after.block_ok(
                b,
            ) by {
                assert(before.block_ok(b));
            }
            assert forall|f: int| 0 <= f < after.funcs.len() implies #[trigger] after.func_ok(f) by {
                assert(before.func_ok(f));
            }
            self.lemma_sizes();
        }
        r
    }

    /// Adds a parameter of type `ty` at the end of the parameters of `func`.
    fn add_param(&mut self, func: Func, ty: Ty) -> (r: Value)
        requires
            old(self)@.wf(),
            old(self)@.has_func(func),
        ensures
            final(self)@ == old(self)@.add_param(func, ty),
            r == old(self)@.next_value(),
            final(self)@.wf(),
            old(self)@.grown(final(self)@),
    {
        let r = Value(self.values.len());
        let index = self.funcs[func.0].params.len();
        self.values.push(ValueData { ty, kind: ValueKind::Param(func, index) });
        self.funcs[func.0].params.push(r);
        proof {
            reveal(ContextView::sound);
            reveal(ContextView::grown);
            reveal(ContextView::grown_but);
            let before = old(self)@;
            let after = self@;
            assert(after.blocks =~= before.blocks);
            assert(after.funcs =~= before.add_param(func, ty).funcs);
            assert(after.globals =~= before.globals);
            assert forall|v: int| 0 <= v < after.values.len() implies after.origin_ok(
                (#[trigger] after.values[v]).kind,
            ) by {
                if v < before.values.len() {
                    assert(before.origin_ok(before.values[v].kind));
                }
            }
            assert forall|i: int| 0 <= i < after.insts.len() implies #[trigger] after.inst_ok(i) by {
                assert(before.inst_ok(i));
            }
            assert forall|b: int| 0 <= b < after.blocks.len() implies #[trigger] after.block_ok(
                b,
            ) by {
                assert(before.block_ok(b));
            }
            assert forall|f: int| 0 <= f < after.funcs.len() implies #[trigger] after.func_ok(f) by {
                assert(before.func_ok(f));
            }
            self.lemma_sizes();
        }
        r
    }

    /// Puts `inst` at the end of `block`.
    fn push_back(&mut self, block: Block, inst: Inst)
        requires
            old(self)@.wf(),
            old(self)@.open_block(block),
            old(self)@.detached_inst(inst),
        ensures
            final(self)@ == old(self)@.push_back(block, inst),
            final(self)@.wf(),
            old(self)@.attached_block(block) ==> old(self)@.grown(final(self)@),
    {
        let data = self.insts[inst.0];
        self.insts.set(inst.0, InstData { kind: data.kind, result: data.result, parent: Some(block) });
        self.blocks[block.0].insts.push(inst);
        proof {
            reveal(ContextView::sound);
            reveal(ContextView::grown);
            reveal(ContextView::grown_but);
            let before = old(self)@;
            let after = self@;
            assert(after.blocks =~= before.push_back(block, inst).blocks);
            assert(after.funcs =~= before.funcs);
            assert(after.globals =~= before.globals);
            assert(before.block_ok(block.0 as int));
            assert forall|i: int| 0 <= i < after.insts.len() implies #[trigger] after.inst_ok(i) by {
                assert(before.inst_ok(i));
            }
            assert forall|b: int| 0 <= b < after.blocks.len() implies #[trigger] after.block_ok(
                b,
            ) by {
                assert(before.block_ok(b));
                let held = after.blocks[b].insts;
                assert forall|k: int| 0 <= k < held.len() implies {
                    &&& after.has_inst(#[trigger] held[k])
                    &&& after.insts[held[k].0 as int].parent == Some(Block(b as usize))
                    &&& after.insts[held[k].0 as int].kind.is_terminator() ==> k == held.len() - 1
                } by {
                    if b == block.0 && k == held.len() - 1 {
                    } else {
                        assert(held[k] == before.blocks[b].insts[k]);
                        assert(before.has_inst(before.blocks[b].insts[k]));
                    }
                }
            }
            assert forall|f: int| 0 <= f < after.funcs.len() implies #[trigger] after.func_ok(f) by {
                assert(before.func_ok(f));
            }
            self.lemma_sizes();
        }
    }

    /// Puts `inst`, which does not end a block, at the front of `block`.
    fn push_front(&mut self, block: Block, inst: Inst)
        requires
            old(self)@.wf(),
            old(self)@.has_block(block),
            old(self)@.detached_inst(inst),
            !old(self)@.insts[inst.0 as int].kind.is_terminator(),
        ensures
            final(self)@ == old(self)@.push_front(block, inst),
            final(self)@.wf(),
            old(self)@.attached_block(block) ==> old(self)@.grown(final(self)@),
    {
        let data = self.insts[inst.0];
        self.insts.set(inst.0, InstData { kind: data.kind, result: data.result, parent: Some(block) });
        self.blocks[block.0].insts.insert(0, inst);
        proof {
            reveal(ContextView::sound);
            reveal(ContextView::grown);
            reveal(ContextView::grown_but);
            let before = old(self)@;
            let after = self@;
            assert(after.blocks =~= before.push_front(block, inst).blocks);
            assert(after.funcs =~= before.funcs);
            assert(after.globals =~= before.globals);
            assert forall|i: int| 0 <= i < after.insts.len() implies #[trigger] after.inst_ok(i) by {
                assert(before.inst_ok(i));
            }
            assert forall|b: int| 0 <= b < after.blocks.len() implies #[trigger] after.block_ok(
                b,
            ) by {
                assert(before.block_ok(b));
                let held = after.blocks[b].insts;
                assert forall|k: int| 0 <= k < held.len() implies {
                    &&& after.has_inst(#[trigger] held[k])
                    &&& after.insts[held[k].0 as int].parent == Some(Block(b as usize))
                    &&& after.insts[held[k].0 as int].kind.is_terminator() ==> k == held.len() - 1
                } by {
                    if b == block.0 {
                        if k > 0 {
                            assert(held[k] == before.blocks[b].insts[k - 1]);
                            assert(before.has_inst(before.blocks[b].insts[k - 1]));
                        }
                    } else {
                        assert(held[k] == before.blocks[b].insts[k]);
                        assert(before.has_inst(before.blocks[b].insts[k]));
                    }
                }
            }
            assert forall|f: int| 0 <= f < after.funcs.len() implies #[trigger] after.func_ok(f) by {
                assert(before.func_ok(f));
            }
            self.lemma_sizes();
        }
    }

    /// Puts `block` at the end of the blocks of `func`.
    fn append_block(&mut self, func: Func, block: Block)
        requires
            old(self)@.wf(),
            old(self)@.has_func(func),
            old(self)@.detached_block(block),
        ensures
            final(self)@ == old(self)@.append_block(func, block),
            final(self)@.wf(),
            old(self)@.grown_but(final(self)@, block),
    {
        self.blocks[block.0].parent = Some(func);
        self.funcs[func.0].blocks.push(block);
        proof {
            reveal(ContextView::sound);
            reveal(ContextView::grown);
            reveal(ContextView::grown_but);
            let before = old(self)@;
            let after = self@;
            assert(after.blocks =~= before.append_block(func, block).blocks);
            assert(after.funcs =~= before.append_block(func, block).funcs);
            assert(after.globals =~= before.globals);
            assert forall|i: int| 0 <= i < after.insts.len() implies #[trigger] after.inst_ok(i) by {
                assert(before.inst_ok(i));
            }
            assert forall|b: int| 0 <= b < after.blocks.len() implies #[trigger] after.block_ok(
                b,
            ) by {
                assert(before.block_ok(b));
            }
            assert forall|f: int| 0 <= f < after.funcs.len() implies #[trigger] after.func_ok(f) by {
                assert(before.func_ok(f));
                let held = after.funcs[f].blocks;
                assert forall|k: int| 0 <= k < held.len() implies {
                    &&& after.has_block(#[trigger] held[k])
                    &&& after.blocks[held[k].0 as int].parent == Some(Func(f as usize))
                } by {
                    if f == func.0 && k == held.len() - 1 {
                    } else {
                        assert(held[k] == before.funcs[f].blocks[k]);
                        assert(before.has_block(before.funcs[f].blocks[k]));
                    }
                }
            }
            self.lemma_sizes();
        }
    }
}

impl Value {
    /// A new constant.
    pub fn constant(ctx: &mut Context, value: ConstantValue) -> (r: Value)
        requires
            old(ctx)@.wf(),
        ensures
            final(ctx)@ == old(ctx)@.add_value(
                ValueData { ty: value.ty_of(), kind: ValueKind::Constant(value) },
            ),
            r == old(ctx)@.next_value(),
            final(ctx)@.wf(),
            old(ctx)@.grown(final(ctx)@),
    {
        ctx.add_value(ValueData { ty: value.ty(), kind: ValueKind::Constant(value) })
    }

    /// A new constant bit.
    pub fn i1(ctx: &mut Context, value: bool) -> (r: Value)
        requires
            old(ctx)@.wf(),
        ensures
            final(ctx)@ == old(ctx)@.add_value(
                ValueData { ty: Ty::I1, kind: ValueKind::Constant(ConstantValue::I1(value)) },
            ),
            r == old(ctx)@.next_value(),
            final(ctx)@.wf(),
            old(ctx)@.grown(final(ctx)@),
    {
        Value::constant(ctx, ConstantValue::I1(value))
    }

    /// A new constant integer.
    pub fn i32(ctx: &mut Context, value: i32) -> (r: Value)
        requires
            old(ctx)@.wf(),
        ensures
            final(ctx)@ == old(ctx)@.add_value(
                ValueData { ty: Ty::I32, kind: ValueKind::Constant(ConstantValue::I32(value)) },
            ),
            r == old(ctx)@.next_value(),
            final(ctx)@.wf(),
            old(ctx)@.grown(final(ctx)@),
    {
        Value::constant(ctx, ConstantValue::I32(value))
    }

    /// A new undefined value of type `ty`.
    pub fn undef(ctx: &mut Context, ty: Ty) -> (r: Value)
        requires
            old(ctx)@.wf(),
        ensures
            final(ctx)@ == old(ctx)@.add_value(
                ValueData { ty, kind: ValueKind::Constant(ConstantValue::Undef(ty)) },
            ),
            r == old(ctx)@.next_value(),
            final(ctx)@.wf(),
            old(ctx)@.grown(final(ctx)@),
    {
        Value::constant(ctx, ConstantValue::Undef(ty))
    }

    /// A new value that is the address of the global slot `global`.
    pub fn global_ref(ctx: &mut Context, global: Global) -> (r: Value)
        requires
            old(ctx)@.wf(),
            old(ctx)@.has_global(global),
        ensures
            final(ctx)@ == old(ctx)@.add_value(
                ValueData { ty: Ty::Ptr, kind: ValueKind::GlobalRef(global) },
            ),
            r == old(ctx)@.next_value(),
            final(ctx)@.wf(),
            old(ctx)@.grown(final(ctx)@),
    {
        ctx.add_value(ValueData { ty: Ty::Ptr, kind: ValueKind::GlobalRef(global) })
    }

    /// The type of the value.
    pub fn ty(self, ctx: &Context) -> (r: Ty)
        requires
            ctx@.has_value(self),
        ensures
            r == ctx@.type_of(self),
    {
        ctx.values[self.0].ty
    }

    /// Where the value comes from.
    pub fn kind(self, ctx: &Context) -> (r: ValueKind)
        requires
            ctx@.has_value(self),
        ensures
            r == ctx@.values[self.0 as int].kind,
    {
        ctx.values[self.0].kind
    }

    /// Whether the value is a parameter of a function as it comes in, and
    /// not a value that the program computes.
    pub fn is_param(self, ctx: &Context) -> (r: bool)
        requires
            ctx@.has_value(self),
        ensures
            r == ctx@.is_param(self),
    {
        match ctx.values[self.0].kind {
            ValueKind::Param(_, _) => true,
            _ => false,
        }
    }
}

impl Inst {
    /// A new instruction, which no block holds yet.
    pub fn new(ctx: &mut Context, kind: InstKind) -> (r: Inst)
        requires
            old(ctx)@.wf(),
            old(ctx)@.operands_ok(kind),
        ensures
            final(ctx)@ == old(ctx)@.add_inst(kind),
            r == old(ctx)@.next_inst(),
            final(ctx)@.wf(),
            old(ctx)@.grown(final(ctx)@),
    {
        ctx.add_inst(kind)
    }

    /// A new instruction that reserves a stack slot for a value of type
    /// `ty`.
    pub fn alloca(ctx: &mut Context, ty: Ty) -> (r: Inst)
        requires
            old(ctx)@.wf(),
        ensures
            final(ctx)@ == old(ctx)@.add_inst(InstKind::Alloca { ty }),
            r == old(ctx)@.next_inst(),
            final(ctx)@.wf(),
            old(ctx)@.grown(final(ctx)@),
    {
        ctx.add_inst(InstKind::Alloca { ty })
    }

    /// A new instruction that reads a value of type `ty` from the slot at
    /// `ptr`.
    pub fn load(ctx: &mut Context, ptr: Value, ty: Ty) -> (r: Inst)
        requires
            old(ctx)@.wf(),
            old(ctx)@.has_value(ptr),
        ensures
            final(ctx)@ == old(ctx)@.add_inst(InstKind::Load { ptr, ty }),
            r == old(ctx)@.next_inst(),
            final(ctx)@.wf(),
            old(ctx)@.grown(final(ctx)@),
    {
        ctx.add_inst(InstKind::Load { ptr, ty })
    }

    /// A new instruction that writes `val` to the slot at `ptr`.
    pub fn store(ctx: &mut Context, val: Value, ptr: Value) -> (r: Inst)
        requires
            old(ctx)@.wf(),
            old(ctx)@.has_value(val),
            old(ctx)@.has_value(ptr),
        ensures
            final(ctx)@ == old(ctx)@.add_inst(InstKind::Store { val, ptr }),
            r == old(ctx)@.next_inst(),
            final(ctx)@.wf(),
            old(ctx)@.grown(final(ctx)@),
    {
        ctx.add_inst(InstKind::Store { val, ptr })
    }

    /// A new binary operation on integers.
    pub fn ibinary(ctx: &mut Context, op: IntBinaryOp, lhs: Value, rhs: Value) -> (r: Inst)
        requires
            old(ctx)@.wf(),
            old(ctx)@.has_value(lhs),
            old(ctx)@.has_value(rhs),
        ensures
            final(ctx)@ == old(ctx)@.add_inst(InstKind::IBinary { op, lhs, rhs }),
            r == old(ctx)@.next_inst(),
            final(ctx)@.wf(),
            old(ctx)@.grown(final(ctx)@),
    {
        ctx.add_inst(InstKind::IBinary { op, lhs, rhs })
    }

    /// A new instruction that widens the bit `val` to an integer.
    pub fn zext(ctx: &mut Context, val: Value) -> (r: Inst)
        requires
            old(ctx)@.wf(),
            old(ctx)@.has_value(val),
        ensures
            final(ctx)@ == old(ctx)@.add_inst(InstKind::ZExt { val }),
            r == old(ctx)@.next_inst(),
            final(ctx)@.wf(),
            old(ctx)@.grown(final(ctx)@),
    {
        ctx.add_inst(InstKind::ZExt { val })
    }

    /// A new instruction that goes to `target`.
    pub fn br(ctx: &mut Context, target: Block) -> (r: Inst)
        requires
            old(ctx)@.wf(),
            old(ctx)@.has_block(target),
        ensures
            final(ctx)@ == old(ctx)@.add_inst(InstKind::Br { target }),
            r == old(ctx)@.next_inst(),
            final(ctx)@.wf(),
            old(ctx)@.grown(final(ctx)@),
    {
        ctx.add_inst(InstKind::Br { target })
    }

    /// A new instruction that goes to `then_target` where `cond` is true,
    /// else to `else_target`.
    pub fn cond_br(ctx: &mut Context, cond: Value, then_target: Block, else_target: Block) -> (r:
        Inst)
        requires
            old(ctx)@.wf(),
            old(ctx)@.has_value(cond),
            old(ctx)@.has_block(then_target),
            old(ctx)@.has_block(else_target),
        ensures
            final(ctx)@ == old(ctx)@.add_inst(InstKind::CondBr { cond, then_target, else_target }),
            r == old(ctx)@.next_inst(),
            final(ctx)@.wf(),
            old(ctx)@.grown(final(ctx)@),
    {
        ctx.add_inst(InstKind::CondBr { cond, then_target, else_target })
    }

    /// A new instruction that leaves the function, with `value` as its
    /// result.
    pub fn ret(ctx: &mut Context, value: Option<Value>) -> (r: Inst)
        requires
            old(ctx)@.wf(),
            value matches Some(v) ==> old(ctx)@.has_value(v),
        ensures
            final(ctx)@ == old(ctx)@.add_inst(InstKind::Ret { value }),
            r == old(ctx)@.next_inst(),
            final(ctx)@.wf(),
            old(ctx)@.grown(final(ctx)@),
    {
        ctx.add_inst(InstKind::Ret { value })
    }

    /// The value that is the result of the instruction, where it has one.
    pub fn result(self, ctx: &Context) -> (r: Option<Value>)
        requires
            ctx@.has_inst(self),
        ensures
            r == ctx@.insts[self.0 as int].result,
    {
        ctx.insts[self.0].result
    }

    /// What the instruction does.
    pub fn kind(self, ctx: &Context) -> (r: InstKind)
        requires
            ctx@.has_inst(self),
        ensures
            r == ctx@.insts[self.0 as int].kind,
    {
        ctx.insts[self.0].kind
    }

    /// The block that holds the instruction, if any.
    pub fn parent(self, ctx: &Context) -> (r: Option<Block>)
        requires
            ctx@.has_inst(self),
        ensures
            r == ctx@.insts[self.0 as int].parent,
    {
        ctx.insts[self.0].parent
    }
}

impl Block {
    /// A new, empty block, which no function holds yet.
    pub fn new(ctx: &mut Context) -> (r: Block)
        requires
            old(ctx)@.wf(),
        ensures
            final(ctx)@ == old(ctx)@.add_block(),
            r == old(ctx)@.next_block(),
            final(ctx)@.wf(),
            old(ctx)@.grown(final(ctx)@),
    {
        ctx.add_block()
    }

    /// Puts `inst` at the end of the block. The block is not closed, and no
    /// block holds the instruction yet.
    pub fn push_back(self, ctx: &mut Context, inst: Inst)
        requires
            old(ctx)@.wf(),
            old(ctx)@.open_block(self),
            old(ctx)@.detached_inst(inst),
        ensures
            final(ctx)@ == old(ctx)@.push_back(self, inst),
            final(ctx)@.wf(),
            old(ctx)@.attached_block(self) ==> old(ctx)@.grown(final(ctx)@),
    {
        ctx.push_back(self, inst)
    }

    /// Puts `inst` at the front of the block. No block holds the instruction
    /// yet, and it is not one that ends a block.
    pub fn push_front(self, ctx: &mut Context, inst: Inst)
        requires
            old(ctx)@.wf(),
            old(ctx)@.has_block(self),
            old(ctx)@.detached_inst(inst),
            !old(ctx)@.insts[inst.0 as int].kind.is_terminator(),
        ensures
            final(ctx)@ == old(ctx)@.push_front(self, inst),
            final(ctx)@.wf(),
            old(ctx)@.attached_block(self) ==> old(ctx)@.grown(final(ctx)@),
    {
        ctx.push_front(self, inst)
    }

    /// The instructions of the block, in order.
    pub fn insts(self, ctx: &Context) -> (r: Vec<Inst>)
        requires
            ctx@.has_block(self),
        ensures
            r@ == ctx@.blocks[self.0 as int].insts,
    {
        ctx.blocks[self.0].insts.clone()
    }

    /// The function that holds the block, if any.
    pub fn parent(self, ctx: &Context) -> (r: Option<Func>)
        requires
            ctx@.has_block(self),
        ensures
            r == ctx@.blocks[self.0 as int].parent,
    {
        ctx.blocks[self.0].parent
    }

    /// Whether the block is closed: its last instruction ends it.
    pub fn is_closed(self, ctx: &Context) -> (r: bool)
        requires
            ctx@.wf(),
            ctx@.has_block(self),
        ensures
            r == ctx@.closed(self),
    {
        let held = &ctx.blocks[self.0].insts;
        if held.len() == 0 {
            false
        } else {
            let last = held[held.len() - 1];
            proof {
                reveal(ContextView::sound);
                assert(ctx@.block_ok(self.0 as int));
                assert(ctx@.has_inst(ctx@.blocks[self.0 as int].insts[held.len() - 1]));
            }
            ctx.insts[last.0].kind.terminates()
        }
    }
}

impl Func {
    /// A new function named `name` that returns a value of type `ret_ty`,
    /// without parameters and blocks.
    pub fn new(ctx: &mut Context, name: String, ret_ty: Ty) -> (r: Func)
        requires
            old(ctx)@.wf(),
        ensures
            final(ctx)@ == old(ctx)@.add_func(name@, ret_ty),
            r == old(ctx)@.next_func(),
            final(ctx)@.wf(),
            old(ctx)@.grown(final(ctx)@),
    {
        ctx.add_func(name, ret_ty)
    }

    /// Adds a parameter of type `ty` at the end of the parameters; gives the
    /// value that is the parameter as it comes in.
    pub fn add_param(self, ctx: &mut Context, ty: Ty) -> (r: Value)
        requires
            old(ctx)@.wf(),
            old(ctx)@.has_func(self),
        ensures
            final(ctx)@ == old(ctx)@.add_param(self, ty),
            r == old(ctx)@.next_value(),
            final(ctx)@.wf(),
            old(ctx)@.grown(final(ctx)@),
    {
        ctx.add_param(self, ty)
    }

    /// Puts `block` at the end of the blocks of the function. No function
    /// holds the block yet.
    pub fn push_back(self, ctx: &mut Context, block: Block)
        requires
            old(ctx)@.wf(),
            old(ctx)@.has_func(self),
            old(ctx)@.detached_block(block),
        ensures
            final(ctx)@ == old(ctx)@.append_block(self, block),
            final(ctx)@.wf(),
            old(ctx)@.grown_but(final(ctx)@, block),
    {
        ctx.append_block(self, block)
    }

    /// The entry block of the function: the first of its blocks.
    pub fn head(self, ctx: &Context) -> (r: Option<Block>)
        requires
            ctx@.has_func(self),
        ensures
            r == if ctx@.funcs[self.0 as int].blocks.len() > 0 {
                Some(ctx@.funcs[self.0 as int].blocks[0])
            } else {
                None
            },
    {
        let held = &ctx.funcs[self.0].blocks;
        if held.len() > 0 {
            Some(held[0])
        } else {
            None
        }
    }

    /// The name of the function.
    pub fn name(self, ctx: &Context) -> (r: String)
        requires
            ctx@.has_func(self),
        ensures
            r@ == ctx@.funcs[self.0 as int].name,
    {
        ctx.funcs[self.0].name.clone()
    }

    /// The type of the value that the function returns.
    pub fn ret_ty(self, ctx: &Context) -> (r: Ty)
        requires
            ctx@.has_func(self),
        ensures
            r == ctx@.funcs[self.0 as int].ret_ty,
    {
        ctx.funcs[self.0].ret_ty
    }

    /// The parameters of the function as they come in, in order.
    pub fn params(self, ctx: &Context) -> (r: Vec<Value>)
        requires
            ctx@.has_func(self),
        ensures
            r@ == ctx@.funcs[self.0 as int].params,
    {
        ctx.funcs[self.0].params.clone()
    }

    /// The blocks of the function, in order.
    pub fn blocks(self, ctx: &Context) -> (r: Vec<Block>)
        requires
            ctx@.has_func(self),
        ensures
            r@ == ctx@.funcs[self.0 as int].blocks,
    {
        ctx.funcs[self.0].blocks.clone()
    }
}

impl Global {
    /// A new global slot named `name` that starts with `init`.
    pub fn new(ctx: &mut Context, name: String, init: ConstantValue) -> (r: Global)
        requires
            old(ctx)@.wf(),
        ensures
            final(ctx)@ == old(ctx)@.add_global(name@, init),
            r == old(ctx)@.next_global(),
            final(ctx)@.wf(),
            old(ctx)@.grown(final(ctx)@),
    {
        ctx.add_global(name, init)
    }

    /// The name of the slot.
    pub fn name(self, ctx: &Context) -> (r: String)
        requires
            ctx@.has_global(self),
        ensures
            r@ == ctx@.globals[self.0 as int].name,
    {
        ctx.globals[self.0].name.clone()
    }

    /// The constant that the slot starts with.
    pub fn init(self, ctx: &Context) -> (r: ConstantValue)
        requires
            ctx@.has_global(self),
        ensures
            r == ctx@.globals[self.0 as int].init,
    {
        ctx.globals[self.0].init
    }

    /// The type of the value that the slot holds.
    pub fn ty(self, ctx: &Context) -> (r: Ty)
        requires
            ctx@.has_global(self),
        ensures
            r == ctx@.globals[self.0 as int].init.ty_of(),
    {
        ctx.globals[self.0].init.ty()
    }
}

impl Default for Context {
    fn default() -> (r: Self)
        ensures
            r@ == ContextView::empty(),
            r@.wf(),
    {
        Context::new()
    }
}

} // verus!

//! The states of the lowering: what holds of them, and how one follows
//! another.

use super::{IrGenContextView, IrGenResult};
use crate::frontend::agree::value_of;
use crate::frontend::analyze::same_outside;
use crate::frontend::error::SemanticError;
use crate::frontend::lower::{Done, Lowered};
use crate::frontend::symtable::{lookup_in, SymbolEntryView, SymbolTableView};
use crate::ir::{
    lemma_grown_but_keeps, lemma_grown_but_keeps_block, lemma_grown_entered,
    lemma_grown_keeps_block, lemma_grown_keeps_denotes, lemma_grown_keeps_func,
    lemma_grown_keeps_value, lemma_grown_twice, Block, ConstantValue, ContextView, Func, Global,
    InstKind, Ty, Value, ValueData, ValueKind,
};
use vstd::prelude::*;

verus! {

/// Whether what a name is bound to exists in `ctx`.
pub open spec fn binding_ok(ctx: ContextView, binding: Option<IrGenResult>) -> bool {
    match binding {
        Some(IrGenResult::Global(g)) => ctx.has_global(g),
        Some(IrGenResult::Value(v)) => ctx.has_value(v),
        None => true,
    }
}

/// Whether what the names of `scopes` are bound to exists in `ctx`.
#[verifier::opaque]
pub open spec fn bindings_ok(scopes: Seq<Map<Seq<char>, SymbolEntryView>>, ctx: ContextView) -> bool {
    forall|i: int, name: Seq<char>|
        0 <= i < scopes.len() && #[trigger] scopes[i].contains_key(name) ==> binding_ok(
            ctx,
            scopes[i][name].ir_value,
        )
}

/// Whether the blocks of `blocks` exist in `ctx`.
#[verifier::opaque]
pub open spec fn blocks_ok(blocks: Seq<Block>, ctx: ContextView) -> bool {
    forall|i: int| 0 <= i < blocks.len() ==> ctx.has_block(#[trigger] blocks[i])
}

/// What a name resolves to is bound to something that exists.
pub proof fn lemma_lookup_bound(
    scopes: Seq<Map<Seq<char>, SymbolEntryView>>,
    name: Seq<char>,
    ctx: ContextView,
)
    requires
        bindings_ok(scopes, ctx),
    ensures
        lookup_in(scopes, name) matches Some(entry) ==> binding_ok(ctx, entry.ir_value),
    decreases scopes.len(),
{
    reveal(bindings_ok);
    if scopes.len() > 0 {
        if scopes.last().contains_key(name) {
        } else {
            let rest = scopes.drop_last();
            assert forall|i: int, n: Seq<char>|
                0 <= i < rest.len() && #[trigger] rest[i].contains_key(n) implies binding_ok(
                ctx,
                rest[i][n].ir_value,
            ) by {
                assert(scopes[i].contains_key(n));
            }
            lemma_lookup_bound(rest, name, ctx);
        }
    }
}

/// Bindings and blocks that exist still exist once the context has grown.
pub proof fn lemma_handles_grown(
    scopes: Seq<Map<Seq<char>, SymbolEntryView>>,
    blocks: Seq<Block>,
    before: ContextView,
    after: ContextView,
)
    requires
        before.values.len() <= after.values.len(),
        before.globals.len() <= after.globals.len(),
        before.blocks.len() <= after.blocks.len(),
    ensures
        bindings_ok(scopes, before) ==> bindings_ok(scopes, after),
        blocks_ok(blocks, before) ==> blocks_ok(blocks, after),
{
    reveal(bindings_ok);
    reveal(blocks_ok);
    if bindings_ok(scopes, before) {
        assert forall|i: int, name: Seq<char>|
            0 <= i < scopes.len() && #[trigger] scopes[i].contains_key(name) implies binding_ok(
            after,
            scopes[i][name].ir_value,
        ) by {
            assert(binding_ok(before, scopes[i][name].ir_value));
        }
    }
}

/// The bindings exist when a scope is entered or left, and when a name is
/// bound to something that exists.
pub proof fn lemma_bindings_scoped(
    table: SymbolTableView,
    ctx: ContextView,
    name: Seq<char>,
    entry: SymbolEntryView,
    upper: nat,
)
    requires
        bindings_ok(table.scopes, ctx),
    ensures
        bindings_ok(table.enter().scopes, ctx),
        bindings_ok(table.leave().scopes, ctx),
        binding_ok(ctx, entry.ir_value) && upper < table.depth() ==> bindings_ok(
            table.insert_upper(name, entry, upper).scopes,
            ctx,
        ),
{
    reveal(bindings_ok);
    let before = table.scopes;
    let entered = table.enter().scopes;
    assert forall|i: int, n: Seq<char>|
        0 <= i < entered.len() && #[trigger] entered[i].contains_key(n) implies binding_ok(
        ctx,
        entered[i][n].ir_value,
    ) by {
        if i < before.len() {
            assert(before[i].contains_key(n));
        }
    }
    let left = table.leave().scopes;
    assert forall|i: int, n: Seq<char>|
        0 <= i < left.len() && #[trigger] left[i].contains_key(n) implies binding_ok(
        ctx,
        left[i][n].ir_value,
    ) by {
        assert(before[i].contains_key(n));
    }
    if binding_ok(ctx, entry.ir_value) && upper < table.depth() {
        let bound = table.insert_upper(name, entry, upper).scopes;
        assert forall|i: int, n: Seq<char>|
            0 <= i < bound.len() && #[trigger] bound[i].contains_key(n) implies binding_ok(
            ctx,
            bound[i][n].ir_value,
        ) by {
            if i == before.len() - 1 - upper && n == name {
            } else {
                assert(before[i].contains_key(n));
            }
        }
    }
}

/// The blocks of a list that has lost or got a block that exists exist.
pub proof fn lemma_blocks_listed(blocks: Seq<Block>, ctx: ContextView, block: Block)
    requires
        blocks_ok(blocks, ctx),
    ensures
        blocks.len() > 0 ==> ctx.has_block(blocks.last()) && blocks_ok(blocks.drop_last(), ctx),
        ctx.has_block(block) ==> blocks_ok(blocks.push(block), ctx),
        blocks_ok(Seq::<Block>::empty(), ctx),
{
    reveal(blocks_ok);
    if blocks.len() > 0 {
        assert(ctx.has_block(blocks[blocks.len() - 1]));
        assert forall|i: int| 0 <= i < blocks.drop_last().len() implies ctx.has_block(
            #[trigger] blocks.drop_last()[i],
        ) by {
            assert(ctx.has_block(blocks[i]));
        }
    }
    if ctx.has_block(block) {
        assert forall|i: int| 0 <= i < blocks.push(block).len() implies ctx.has_block(
            #[trigger] blocks.push(block)[i],
        ) by {
            if i < blocks.len() {
                assert(ctx.has_block(blocks[i]));
            }
        }
    }
}

impl IrGenContextView {
    /// The block that instructions are put into.
    pub open spec fn block(self) -> Block {
        self.curr_block.unwrap()
    }

    /// The function being lowered.
    pub open spec fn func(self) -> Func {
        self.curr_func.unwrap()
    }

    /// The entry block of the function being lowered.
    pub open spec fn entry_block(self) -> Block {
        self.ctx.funcs[self.func().0 as int].blocks[0]
    }

    /// Whether the state is sound: the program lowered so far is well
    /// formed, every block of it that a function holds is closed, but for
    /// the current block, and every handle that the state holds names an
    /// item of it.
    pub open spec fn wf(self) -> bool {
        &&& self.ctx.wf()
        &&& self.ctx.closed_but(self.curr_block)
        &&& bindings_ok(self.symtable.scopes, self.ctx)
        &&& self.curr_func matches Some(f) ==> self.ctx.has_func(f)
        &&& self.curr_block matches Some(b) ==> self.ctx.has_block(b)
        &&& self.curr_ret_block matches Some(b) ==> self.ctx.has_block(b)
        &&& self.curr_ret_slot matches Some(v) ==> self.ctx.has_value(v)
        &&& blocks_ok(self.loop_entry_stack, self.ctx)
        &&& blocks_ok(self.loop_exit_stack, self.ctx)
    }

    /// Whether the state is that of the lowering of a function body: there
    /// is a function being lowered, which has an entry block; there is a
    /// current block, which a function holds; the block to leave the
    /// function through, if any, is empty and no function holds it yet; and
    /// a scope is open.
    pub open spec fn in_function(self) -> bool {
        &&& self.wf()
        &&& self.curr_func is Some
        &&& self.curr_block is Some
        &&& self.ctx.attached_block(self.block())
        &&& self.curr_ret_block matches Some(b) ==> self.ctx.pending_block(b)
        &&& self.ctx.entered_func(self.func())
        &&& self.symtable.depth() > 0
    }

    /// Whether the current block is closed.
    pub open spec fn closed_now(self) -> bool {
        self.ctx.closed(self.block())
    }

    /// Whether an instruction can be put into the current block: the state
    /// is that of a function body, and the current block is not closed.
    pub open spec fn ready(self) -> bool {
        self.in_function() && !self.closed_now()
    }

    /// Whether `block` is an empty block that no function holds yet, and not
    /// the block that the function is left through.
    pub open spec fn pending(self, block: Block) -> bool {
        self.ctx.pending_block(block) && self.curr_ret_block != Some(block)
    }

    /// The state with a new instruction at the end of the current block.
    pub open spec fn emit(self, kind: InstKind) -> IrGenContextView {
        IrGenContextView {
            ctx: self.ctx.add_inst(kind).push_back(self.block(), self.ctx.next_inst()),
            ..self
        }
    }

    /// The state with a new instruction at the front of the entry block of
    /// the function being lowered.
    pub open spec fn emit_front(self, kind: InstKind) -> IrGenContextView {
        IrGenContextView {
            ctx: self.ctx.add_inst(kind).push_front(self.entry_block(), self.ctx.next_inst()),
            ..self
        }
    }

    /// The state with a new constant.
    pub open spec fn constant(self, value: ConstantValue) -> IrGenContextView {
        IrGenContextView {
            ctx: self.ctx.add_value(
                ValueData { ty: value.ty_of(), kind: ValueKind::Constant(value) },
            ),
            ..self
        }
    }

    /// The state with a new value that is the address of `global`.
    pub open spec fn global_ref(self, global: Global) -> IrGenContextView {
        IrGenContextView {
            ctx: self.ctx.add_value(ValueData { ty: Ty::Ptr, kind: ValueKind::GlobalRef(global) }),
            ..self
        }
    }

    /// The state with a new block, which no function holds yet.
    pub open spec fn new_block(self) -> IrGenContextView {
        IrGenContextView { ctx: self.ctx.add_block(), ..self }
    }

    /// The state with `block` as the last block of the function being
    /// lowered, and as the current block.
    pub open spec fn enter_block(self, block: Block) -> IrGenContextView {
        IrGenContextView {
            ctx: self.ctx.append_block(self.func(), block),
            curr_block: Some(block),
            ..self
        }
    }

    /// The state with the current block closed: where it is not closed yet,
    /// it ends by going to `target`.
    pub open spec fn close_with(self, target: Block) -> IrGenContextView {
        if self.closed_now() {
            self
        } else {
            self.emit(InstKind::Br { target })
        }
    }

    /// The first of the blocks that are made next.
    pub open spec fn first_block(self) -> Block {
        self.ctx.next_block()
    }

    /// The second of the blocks that are made next.
    pub open spec fn second_block(self) -> Block {
        self.new_block().ctx.next_block()
    }

    /// The third of the blocks that are made next.
    pub open spec fn third_block(self) -> Block {
        self.new_block().new_block().ctx.next_block()
    }

    /// The state with two new blocks, the current block ended by going to
    /// the first where `c` is true and to the second where not, and the
    /// first as the current block.
    pub open spec fn fork(self, c: Value) -> IrGenContextView {
        self.new_block().new_block().emit(
            InstKind::CondBr {
                cond: c,
                then_target: self.first_block(),
                else_target: self.second_block(),
            },
        ).enter_block(self.first_block())
    }

    /// As `fork`, with a third new block.
    pub open spec fn fork_else(self, c: Value) -> IrGenContextView {
        self.new_block().new_block().new_block().emit(
            InstKind::CondBr {
                cond: c,
                then_target: self.first_block(),
                else_target: self.second_block(),
            },
        ).enter_block(self.first_block())
    }

    /// The state with three new blocks, the current block ended by going to
    /// the first, and the first as the current block.
    pub open spec fn loop_head(self) -> IrGenContextView {
        self.new_block().new_block().new_block().emit(
            InstKind::Br { target: self.first_block() },
        ).enter_block(self.first_block())
    }

    /// The state with the current block closed by going to `target`, where
    /// it is not closed yet, and `next` as the current block.
    pub open spec fn join(self, target: Block, next: Block) -> IrGenContextView {
        self.close_with(target).enter_block(next)
    }

    /// The state inside one more loop, in which `continue` goes to `entry`
    /// and `break` to `exit`.
    pub open spec fn push_loop(self, entry: Block, exit: Block) -> IrGenContextView {
        IrGenContextView {
            loop_entry_stack: self.loop_entry_stack.push(entry),
            loop_exit_stack: self.loop_exit_stack.push(exit),
            ..self
        }
    }

    /// The state outside the innermost loop.
    pub open spec fn pop_loop(self) -> IrGenContextView {
        IrGenContextView {
            loop_entry_stack: self.loop_entry_stack.drop_last(),
            loop_exit_stack: self.loop_exit_stack.drop_last(),
            ..self
        }
    }

    /// The state with another symbol table.
    pub open spec fn with_symtable(self, symtable: SymbolTableView) -> IrGenContextView {
        IrGenContextView { symtable, ..self }
    }

    /// The state with another program.
    pub open spec fn with_ctx(self, ctx: ContextView) -> IrGenContextView {
        IrGenContextView { ctx, ..self }
    }
}

/// Whether `after` can follow `before` in the lowering of a function body:
/// the program has grown, and the function being lowered, the block and the
/// slot that it is left through and the loops around are the same.
pub open spec fn advanced(before: IrGenContextView, after: IrGenContextView) -> bool {
    &&& before.ctx.grown(after.ctx)
    &&& after.curr_func == before.curr_func
    &&& after.curr_func_name == before.curr_func_name
    &&& after.curr_ret_block == before.curr_ret_block
    &&& after.curr_ret_slot == before.curr_ret_slot
    &&& after.loop_entry_stack == before.loop_entry_stack
    &&& after.loop_exit_stack == before.loop_exit_stack
}

/// As `advanced`, but for the block `block`, which a function may hold now.
pub open spec fn advanced_but(before: IrGenContextView, after: IrGenContextView, block: Block) -> bool {
    &&& before.ctx.grown_but(after.ctx, block)
    &&& after.curr_func == before.curr_func
    &&& after.curr_func_name == before.curr_func_name
    &&& after.curr_ret_block == before.curr_ret_block
    &&& after.curr_ret_slot == before.curr_ret_slot
    &&& after.loop_entry_stack == before.loop_entry_stack
    &&& after.loop_exit_stack == before.loop_exit_stack
}

/// Advancing twice is advancing.
pub proof fn lemma_advanced_twice(a: IrGenContextView, b: IrGenContextView, c: IrGenContextView)
    requires
        advanced(a, b),
        advanced(b, c),
    ensures
        advanced(a, c),
{
    lemma_grown_twice(a.ctx, b.ctx, c.ctx);
}

/// A state that has advanced, and then advanced but for a block that was
/// added meanwhile, has advanced.
pub proof fn lemma_advanced_entered(
    a: IrGenContextView,
    b: IrGenContextView,
    c: IrGenContextView,
    block: Block,
)
    requires
        advanced(a, b),
        advanced_but(b, c, block),
        block.0 >= a.ctx.blocks.len(),
    ensures
        advanced(a, c),
{
    lemma_grown_entered(a.ctx, b.ctx, c.ctx, block);
}

/// A state stays that of the lowering of a function body when the program
/// grows and nothing else changes.
pub proof fn lemma_in_function_kept(before: IrGenContextView, ctx: ContextView)
    requires
        before.in_function(),
        before.ctx.grown(ctx),
        ctx.wf(),
        ctx.closed_but(before.curr_block),
    ensures
        before.with_ctx(ctx).in_function(),
        advanced(before, before.with_ctx(ctx)),
{
    let f = before.func();
    let g = Global(0);
    lemma_grown_keeps_func(before.ctx, ctx, f, g);
    lemma_grown_keeps_block(before.ctx, ctx, before.block());
    if before.curr_ret_block is Some {
        lemma_grown_keeps_block(before.ctx, ctx, before.curr_ret_block.unwrap());
    }
    if before.curr_ret_slot is Some {
        lemma_grown_keeps_value(before.ctx, ctx, before.curr_ret_slot.unwrap());
    }
    lemma_handles_grown(before.symtable.scopes, before.loop_entry_stack, before.ctx, ctx);
    lemma_handles_grown(before.symtable.scopes, before.loop_exit_stack, before.ctx, ctx);
}

/// A pending block stays pending, and a value stays a value, when the state
/// advances.
pub proof fn lemma_advanced_keeps(
    before: IrGenContextView,
    after: IrGenContextView,
    block: Block,
    v: Value,
)
    requires
        advanced(before, after),
    ensures
        before.pending(block) ==> after.pending(block),
        before.ctx.has_block(block) ==> after.ctx.has_block(block),
        before.ctx.has_value(v) ==> after.ctx.has_value(v) && after.ctx.type_of(v)
            == before.ctx.type_of(v),
        before.ctx.blocks.len() <= after.ctx.blocks.len(),
{
    if before.ctx.has_block(block) {
        lemma_grown_keeps_block(before.ctx, after.ctx, block);
    }
    if before.ctx.has_value(v) {
        lemma_grown_keeps_value(before.ctx, after.ctx, v);
    }
    lemma_grown_keeps_func(before.ctx, after.ctx, Func(0), Global(0));
}

/// A value stays the value of the source language that it is when the state
/// advances.
pub proof fn lemma_value_kept(before: IrGenContextView, after: IrGenContextView, v: Value)
    requires
        before.ctx.wf(),
        advanced(before, after),
        before.ctx.has_value(v),
    ensures
        after.ctx.has_value(v),
        after.ctx.type_of(v) == before.ctx.type_of(v),
        after.ctx.denotes(v) == before.ctx.denotes(v),
        value_of(after.ctx, v) == value_of(before.ctx, v),
{
    lemma_grown_keeps_value(before.ctx, after.ctx, v);
    lemma_grown_keeps_denotes(before.ctx, after.ctx, v);
}

/// A pending block other than the one entered stays pending when a block is
/// entered.
pub proof fn lemma_entered_keeps(
    before: IrGenContextView,
    after: IrGenContextView,
    entered: Block,
    block: Block,
)
    requires
        advanced_but(before, after, entered),
        block != entered,
    ensures
        before.pending(block) ==> after.pending(block),
        before.ctx.has_block(block) ==> after.ctx.has_block(block),
        before.ctx.blocks.len() <= after.ctx.blocks.len(),
{
    if before.ctx.has_block(block) {
        lemma_grown_but_keeps_block(before.ctx, after.ctx, entered, block);
    }
    lemma_grown_but_keeps(before.ctx, after.ctx, entered, Func(0), Global(0), Value(0));
}

/// Once the scope of a function is left, the table differs from the one
/// before the function in its innermost scope at most, where the name of
/// the function is bound.
pub proof fn lemma_function_scope(
    before: SymbolTableView,
    name: Seq<char>,
    entry: SymbolEntryView,
    inside: SymbolTableView,
)
    requires
        before.depth() > 0,
        same_outside(before.enter().insert_upper(name, entry, 1), inside),
    ensures
        inside.leave().depth() > 0,
        same_outside(before, inside.leave()),
{
    let begun = before.enter().insert_upper(name, entry, 1);
    assert(begun.scopes.drop_last() =~= before.insert(name, entry).scopes);
    assert(inside.leave().scopes =~= begun.scopes.drop_last());
    assert(inside.leave().scopes.drop_last() =~= before.scopes.drop_last());
}

/// Whether the values of `values` exist in `ctx`.
#[verifier::opaque]
pub open spec fn values_ok(values: Seq<Value>, ctx: ContextView) -> bool {
    forall|i: int| 0 <= i < values.len() ==> ctx.has_value(#[trigger] values[i])
}

/// The values of a list that has got a value that exists exist; and values
/// that exist still exist once the context has grown.
pub proof fn lemma_values_listed(
    values: Seq<Value>,
    before: ContextView,
    after: ContextView,
    v: Value,
    i: int,
)
    requires
        values_ok(values, before),
        before.values.len() <= after.values.len(),
    ensures
        values_ok(values, after),
        after.has_value(v) ==> values_ok(values.push(v), after),
        0 <= i < values.len() ==> before.has_value(values[i]),
        values_ok(Seq::<Value>::empty(), after),
{
    reveal(values_ok);
    assert forall|k: int| 0 <= k < values.len() implies after.has_value(#[trigger] values[k]) by {
        assert(before.has_value(values[k]));
    }
    if after.has_value(v) {
        assert forall|k: int| 0 <= k < values.push(v).len() implies after.has_value(
            #[trigger] values.push(v)[k],
        ) by {
            if k < values.len() {
                assert(before.has_value(values[k]));
            }
        }
    }
}

impl IrGenContextView {
    /// Whether the state is that between the items of a program: the state
    /// is sound, a scope is open, and no function is being lowered.
    pub open spec fn at_top(self) -> bool {
        &&& self.wf()
        &&& self.symtable.depth() > 0
        &&& self.curr_func is None
        &&& self.curr_func_name is None
        &&& self.curr_block is None
        &&& self.curr_ret_block is None
        &&& self.curr_ret_slot is None
    }
}

/// Whether `r` is the outcome `outcome` of the lowering of an item at the
/// top level, with `after` as the state after it; and if so, whether that
/// state is one between the items of a program, of which only the innermost
/// scope may have changed.
pub open spec fn top_step(
    before: IrGenContextView,
    outcome: Done,
    after: IrGenContextView,
    r: Result<(), SemanticError>,
) -> bool {
    match r {
        Ok(()) => {
            &&& outcome == Ok::<IrGenContextView, SemanticError>(after)
            &&& after.at_top()
            &&& same_outside(before.symtable, after.symtable)
            &&& after.loop_entry_stack == before.loop_entry_stack
            &&& after.loop_exit_stack == before.loop_exit_stack
        },
        Err(e) => outcome == Err::<IrGenContextView, SemanticError>(e) && after.wf(),
    }
}

/// A state stays sound when the program grows and nothing else changes.
pub proof fn lemma_wf_kept(before: IrGenContextView, ctx: ContextView)
    requires
        before.wf(),
        before.ctx.grown(ctx),
        ctx.wf(),
        ctx.closed_but(before.curr_block),
    ensures
        before.with_ctx(ctx).wf(),
{
    lemma_grown_keeps_func(
        before.ctx,
        ctx,
        match before.curr_func {
            Some(f) => f,
            None => Func(0),
        },
        Global(0),
    );
    if before.curr_block is Some {
        lemma_grown_keeps_block(before.ctx, ctx, before.curr_block.unwrap());
    }
    if before.curr_ret_block is Some {
        lemma_grown_keeps_block(before.ctx, ctx, before.curr_ret_block.unwrap());
    }
    if before.curr_ret_slot is Some {
        lemma_grown_keeps_value(before.ctx, ctx, before.curr_ret_slot.unwrap());
    }
    lemma_handles_grown(before.symtable.scopes, before.loop_entry_stack, before.ctx, ctx);
    lemma_handles_grown(before.symtable.scopes, before.loop_exit_stack, before.ctx, ctx);
}

/// One more step of a lowering that has advanced from `origin`: the state
/// has advanced from `origin`, and the pending blocks and the values are
/// kept.
pub proof fn lemma_step(
    origin: IrGenContextView,
    before: IrGenContextView,
    after: IrGenContextView,
    first: Block,
    second: Block,
    v: Value,
)
    requires
        advanced(origin, before),
        advanced(before, after),
    ensures
        advanced(origin, after),
        before.pending(first) ==> after.pending(first),
        before.pending(second) ==> after.pending(second),
        before.ctx.has_block(first) ==> after.ctx.has_block(first),
        before.ctx.has_block(second) ==> after.ctx.has_block(second),
        before.ctx.has_value(v) ==> after.ctx.has_value(v) && after.ctx.type_of(v)
            == before.ctx.type_of(v),
        before.ctx.blocks.len() <= after.ctx.blocks.len(),
{
    lemma_advanced_twice(origin, before, after);
    lemma_advanced_keeps(before, after, first, v);
    lemma_advanced_keeps(before, after, second, v);
}

/// One more step, which enters the block `entered`, of a lowering that has
/// advanced from `origin`, where the block did not exist yet.
pub proof fn lemma_step_entered(
    origin: IrGenContextView,
    before: IrGenContextView,
    after: IrGenContextView,
    entered: Block,
    first: Block,
    second: Block,
)
    requires
        advanced(origin, before),
        advanced_but(before, after, entered),
        entered.0 >= origin.ctx.blocks.len(),
    ensures
        advanced(origin, after),
        first != entered && before.pending(first) ==> after.pending(first),
        second != entered && before.pending(second) ==> after.pending(second),
        before.ctx.has_block(first) ==> after.ctx.has_block(first),
        before.ctx.has_block(second) ==> after.ctx.has_block(second),
        before.ctx.blocks.len() <= after.ctx.blocks.len(),
{
    lemma_advanced_entered(origin, before, after, entered);
    lemma_grown_but_keeps(before.ctx, after.ctx, entered, Func(0), Global(0), Value(0));
    if first != entered {
        lemma_entered_keeps(before, after, entered, first);
    }
    if second != entered {
        lemma_entered_keeps(before, after, entered, second);
    }
}

/// A context that has grown, and then grown but for a block, has grown but
/// for that block.
pub proof fn lemma_grown_but_after(a: ContextView, b: ContextView, c: ContextView, entered: Block)
    requires
        a.grown(b),
        b.grown_but(c, entered),
    ensures
        a.grown_but(c, entered),
{
    reveal(ContextView::grown);
    reveal(ContextView::grown_but);
    assert forall|v: int| 0 <= v < a.values.len() implies #[trigger] c.values[v] == a.values[v] by {
        assert(b.values[v] == a.values[v]);
    }
    assert forall|k: int|
        0 <= k < a.blocks.len() && a.blocks[k].parent is None && Some(entered) != Some(
            Block(k as usize),
        ) implies #[trigger] c.blocks[k] == a.blocks[k] by {
        assert(b.blocks[k] == a.blocks[k]);
    }
    assert forall|k: int| 0 <= k < a.blocks.len() && a.blocks[k].parent is Some implies (
    #[trigger] c.blocks[k]).parent == a.blocks[k].parent by {
        assert(b.blocks[k].parent == a.blocks[k].parent);
    }
    assert forall|f: int| 0 <= f < a.funcs.len() implies {
        &&& a.funcs[f].blocks.len() <= (#[trigger] c.funcs[f]).blocks.len()
        &&& a.funcs[f].blocks.len() > 0 ==> c.funcs[f].blocks[0] == a.funcs[f].blocks[0]
    } by {
        assert(a.funcs[f].blocks.len() <= b.funcs[f].blocks.len());
    }
}

/// The entry block of a function of a well-formed context is a block that a
/// function holds.
pub proof fn lemma_entry_attached(ctx: ContextView, func: Func)
    requires
        ctx.wf(),
        ctx.entered_func(func),
    ensures
        ctx.attached_block(ctx.funcs[func.0 as int].blocks[0]),
{
    reveal(ContextView::sound);
    assert(ctx.func_ok(func.0 as int));
    assert(ctx.has_block(ctx.funcs[func.0 as int].blocks[0]));
}

/// Whether `r` is the outcome `outcome` of the lowering of a statement, with
/// `after` as the state after it; and if so, whether the state has advanced
/// to one of the lowering of the same function body, with the same names in
/// scope. After a failure the state is sound, and no more is known of it.
pub open spec fn stmt_step(
    before: IrGenContextView,
    outcome: Done,
    after: IrGenContextView,
    r: Result<(), SemanticError>,
) -> bool {
    match r {
        Ok(()) => {
            &&& outcome == Ok::<IrGenContextView, SemanticError>(after)
            &&& advanced(before, after)
            &&& after.in_function()
            &&& after.symtable == before.symtable
        },
        Err(e) => outcome == Err::<IrGenContextView, SemanticError>(e) && after.wf(),
    }
}

/// Whether `r` is the outcome `outcome` of the lowering of declarations and
/// statements in one scope, with `after` as the state after it; and if so,
/// whether the state has advanced to one of the lowering of the same
/// function body, of which only the innermost scope may have changed.
pub open spec fn scope_step(
    before: IrGenContextView,
    outcome: Done,
    after: IrGenContextView,
    r: Result<(), SemanticError>,
) -> bool {
    match r {
        Ok(()) => {
            &&& outcome == Ok::<IrGenContextView, SemanticError>(after)
            &&& advanced(before, after)
            &&& after.in_function()
            &&& same_outside(before.symtable, after.symtable)
        },
        Err(e) => outcome == Err::<IrGenContextView, SemanticError>(e) && after.wf(),
    }
}

/// Whether `after` follows `before` by a step that puts instructions into
/// the current block only, none of which closes it: the state has advanced,
/// the current block and the names in scope are the same, and another
/// instruction can be put into the block.
pub open spec fn stepped(before: IrGenContextView, after: IrGenContextView) -> bool {
    &&& advanced(before, after)
    &&& after.curr_block == before.curr_block
    &&& after.symtable == before.symtable
    &&& after.ready()
}

/// Stepping twice is stepping.
pub proof fn lemma_stepped_twice(a: IrGenContextView, b: IrGenContextView, c: IrGenContextView)
    requires
        stepped(a, b),
        stepped(b, c),
    ensures
        stepped(a, c),
{
    lemma_advanced_twice(a, b, c);
}

/// Whether `r` is the outcome `outcome` of a step that gives a value, with
/// `after` as the state after it; and if so, whether the step has put
/// instructions into the current block only and its value exists.
pub open spec fn value_step(
    before: IrGenContextView,
    outcome: Lowered,
    after: IrGenContextView,
    r: Result<Value, SemanticError>,
) -> bool {
    match r {
        Ok(v) => {
            &&& outcome == Ok::<(IrGenContextView, Value), SemanticError>((after, v))
            &&& stepped(before, after)
            &&& after.ctx.has_value(v)
        },
        Err(e) => outcome == Err::<(IrGenContextView, Value), SemanticError>(e) && after.wf(),
    }
}

} // verus!

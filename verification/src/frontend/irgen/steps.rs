//! The steps that the lowering is made of: each makes one thing, and keeps
//! the state sound.

use super::state::{
    advanced, advanced_but, binding_ok, lemma_bindings_scoped, lemma_blocks_listed,
    lemma_entry_attached, lemma_handles_grown, lemma_in_function_kept, lemma_value_kept, stepped,
};
use super::IrGenContext;
use crate::frontend::agree::{constant_value, value_of};
use crate::frontend::analyze::same_outside;
use crate::frontend::symtable::SymbolEntry;
use crate::ir::{
    eval_ibinary, lemma_closed_but_append, lemma_closed_but_kept, lemma_closed_but_none,
    lemma_closed_but_push_back, lemma_closed_but_push_front, lemma_closed_kept,
    lemma_closed_push_back, lemma_closed_push_front, lemma_grown_but_keeps,
    lemma_grown_but_keeps_block, lemma_grown_keeps_block, lemma_grown_same, lemma_grown_twice,
    Block, ConstantValue, Global, Inst, InstKind, Ty, Value,
};
use vstd::prelude::*;

verus! {

impl IrGenContext {
    /// Puts a new instruction at the end of the current block; gives its
    /// result, where it has one.
    pub fn emit(&mut self, kind: InstKind) -> (r: Option<Value>)
        requires
            old(self)@.ready(),
            old(self)@.ctx.operands_ok(kind),
        ensures
            final(self)@ == old(self)@.emit(kind),
            r == old(self)@.ctx.next_result(kind),
            r matches Some(v) ==> final(self)@.ctx.has_value(v) && final(self)@.ctx.type_of(v) == old(
                self,
            )@.ctx.result_ty(kind).unwrap(),
            r matches Some(v) ==> !final(self)@.ctx.is_param(v),
            final(self)@.in_function(),
            final(self)@.closed_now() == kind.is_terminator(),
            advanced(old(self)@, final(self)@),
            final(self)@.curr_block == old(self)@.curr_block,
            final(self)@.symtable == old(self)@.symtable,
    {
        let block = self.curr_block.unwrap();
        let inst = Inst::new(&mut self.ctx, kind);
        let ghost mid = self.ctx@;
        proof {
            lemma_closed_kept(old(self)@.ctx, mid, block);
            lemma_closed_but_kept(old(self)@.ctx, mid, Some(block));
            lemma_grown_keeps_block(old(self)@.ctx, mid, block);
        }
        block.push_back(&mut self.ctx, inst);
        proof {
            lemma_closed_push_back(mid, block, inst, block);
            lemma_closed_but_push_back(mid, block, inst);
            lemma_grown_twice(old(self)@.ctx, mid, self.ctx@);
            lemma_in_function_kept(old(self)@, self.ctx@);
        }
        inst.result(&self.ctx)
    }

    /// Makes a new constant.
    pub fn constant(&mut self, value: ConstantValue) -> (r: Value)
        requires
            old(self)@.ready(),
        ensures
            final(self)@ == old(self)@.constant(value),
            r == old(self)@.ctx.next_value(),
            final(self)@.ctx.has_value(r),
            final(self)@.ctx.type_of(r) == value.ty_of(),
            stepped(old(self)@, final(self)@),
            value.ty_of() == Ty::I1 || value.ty_of() == Ty::I32 ==> value_of(final(self)@.ctx, r)
                == constant_value(value),
    {
        let r = Value::constant(&mut self.ctx, value);
        proof {
            lemma_closed_kept(old(self)@.ctx, self.ctx@, old(self)@.block());
            lemma_closed_but_kept(old(self)@.ctx, self.ctx@, old(self)@.curr_block);
            lemma_in_function_kept(old(self)@, self.ctx@);
        }
        r
    }

    /// Makes a new value that is the address of `global`.
    pub fn global_ref(&mut self, global: Global) -> (r: Value)
        requires
            old(self)@.ready(),
            old(self)@.ctx.has_global(global),
        ensures
            final(self)@ == old(self)@.global_ref(global),
            r == old(self)@.ctx.next_value(),
            final(self)@.ctx.has_value(r),
            final(self)@.ctx.type_of(r) == Ty::Ptr,
            !final(self)@.ctx.is_param(r),
            stepped(old(self)@, final(self)@),
    {
        let r = Value::global_ref(&mut self.ctx, global);
        proof {
            lemma_closed_kept(old(self)@.ctx, self.ctx@, old(self)@.block());
            lemma_closed_but_kept(old(self)@.ctx, self.ctx@, old(self)@.curr_block);
            lemma_in_function_kept(old(self)@, self.ctx@);
        }
        r
    }

    /// Puts a new instruction that does not close a block at the end of the
    /// current block; gives its result.
    pub(crate) fn compute(&mut self, kind: InstKind) -> (r: Value)
        requires
            old(self)@.ready(),
            old(self)@.ctx.operands_ok(kind),
            old(self)@.ctx.result_ty(kind) is Some,
            !kind.is_terminator(),
        ensures
            final(self)@ == old(self)@.emit(kind),
            r == old(self)@.ctx.next_value(),
            final(self)@.ctx.has_value(r),
            final(self)@.ctx.type_of(r) == old(self)@.ctx.result_ty(kind).unwrap(),
            !final(self)@.ctx.is_param(r),
            stepped(old(self)@, final(self)@),
            kind matches InstKind::IBinary { op, lhs, rhs } ==> final(self)@.ctx.denotes(r) == (match (
                old(self)@.ctx.denotes(lhs),
                old(self)@.ctx.denotes(rhs),
            ) {
                (Some(a), Some(b)) => eval_ibinary(op, old(self)@.ctx.type_of(lhs), a, b),
                _ => None,
            }),
            kind matches InstKind::ZExt { val } ==> final(self)@.ctx.denotes(r) == old(
                self,
            )@.ctx.denotes(val),
    {
        let r = match self.emit(kind) {
            Some(v) => v,
            None => vstd::pervasive::unreached(),
        };
        proof {
            match kind {
                InstKind::IBinary { op, lhs, rhs } => {
                    lemma_value_kept(old(self)@, self@, lhs);
                    lemma_value_kept(old(self)@, self@, rhs);
                },
                InstKind::ZExt { val } => {
                    lemma_value_kept(old(self)@, self@, val);
                },
                _ => {},
            }
        }
        r
    }

    /// Makes a new block, which no function holds yet.
    pub fn new_block(&mut self) -> (r: Block)
        requires
            old(self)@.in_function(),
        ensures
            final(self)@ == old(self)@.new_block(),
            r == old(self)@.ctx.next_block(),
            final(self)@.pending(r),
            final(self)@.in_function(),
            final(self)@.closed_now() == old(self)@.closed_now(),
            advanced(old(self)@, final(self)@),
            final(self)@.curr_block == old(self)@.curr_block,
            final(self)@.symtable == old(self)@.symtable,
    {
        let r = Block::new(&mut self.ctx);
        proof {
            lemma_closed_kept(old(self)@.ctx, self.ctx@, old(self)@.block());
            lemma_closed_but_kept(old(self)@.ctx, self.ctx@, old(self)@.curr_block);
            lemma_in_function_kept(old(self)@, self.ctx@);
        }
        r
    }

    /// Makes `block`, which is empty and which no function holds yet, the
    /// last block of the function being lowered, and the current block,
    /// once the block that was current is closed.
    pub fn enter_block(&mut self, block: Block)
        requires
            old(self)@.in_function(),
            old(self)@.closed_now(),
            old(self)@.pending(block),
        ensures
            final(self)@ == old(self)@.enter_block(block),
            final(self)@.ready(),
            advanced_but(old(self)@, final(self)@, block),
            final(self)@.symtable == old(self)@.symtable,
    {
        let func = self.curr_func.unwrap();
        proof {
            lemma_closed_but_none(self@.ctx, self@.block());
            lemma_closed_but_append(self@.ctx, func, block);
        }
        func.push_back(&mut self.ctx, block);
        self.curr_block = Some(block);
        proof {
            let before = old(self)@;
            let after = self.ctx@;
            lemma_grown_but_keeps(
                before.ctx,
                after,
                block,
                func,
                Global(0),
                match before.curr_ret_slot {
                    Some(v) => v,
                    None => Value(0),
                },
            );
            if before.curr_ret_block is Some {
                lemma_grown_but_keeps_block(
                    before.ctx,
                    after,
                    block,
                    before.curr_ret_block.unwrap(),
                );
            }
            lemma_handles_grown(before.symtable.scopes, before.loop_entry_stack, before.ctx, after);
            lemma_handles_grown(before.symtable.scopes, before.loop_exit_stack, before.ctx, after);
        }
    }

    /// Closes the current block, where it is not closed yet, by going to
    /// `target`.
    pub fn close_with(&mut self, target: Block)
        requires
            old(self)@.in_function(),
            old(self)@.ctx.has_block(target),
        ensures
            final(self)@ == old(self)@.close_with(target),
            final(self)@.in_function(),
            final(self)@.closed_now(),
            advanced(old(self)@, final(self)@),
            final(self)@.curr_block == old(self)@.curr_block,
            final(self)@.symtable == old(self)@.symtable,
    {
        let block = self.curr_block.unwrap();
        if !block.is_closed(&self.ctx) {
            self.emit(InstKind::Br { target });
        } else {
            proof {
                lemma_grown_same(self@.ctx);
            }
        }
    }

    /// Puts a new instruction that reserves a slot for a value of type `ty`
    /// at the front of the entry block of the function being lowered; gives
    /// the address of the slot.
    pub fn alloca(&mut self, ty: Ty) -> (r: Value)
        requires
            old(self)@.in_function(),
        ensures
            final(self)@ == old(self)@.emit_front(InstKind::Alloca { ty }),
            r == old(self)@.ctx.next_value(),
            final(self)@.ctx.has_value(r),
            !final(self)@.ctx.is_param(r),
            final(self)@.in_function(),
            final(self)@.closed_now() == old(self)@.closed_now(),
            advanced(old(self)@, final(self)@),
            final(self)@.curr_block == old(self)@.curr_block,
            final(self)@.symtable == old(self)@.symtable,
    {
        let func = self.curr_func.unwrap();
        let entry = func.head(&self.ctx).unwrap();
        proof {
            lemma_entry_attached(self@.ctx, func);
        }
        let inst = Inst::alloca(&mut self.ctx, ty);
        let ghost mid = self.ctx@;
        proof {
            lemma_grown_keeps_block(old(self)@.ctx, mid, entry);
            lemma_grown_keeps_block(old(self)@.ctx, mid, old(self)@.block());
            lemma_closed_kept(old(self)@.ctx, mid, old(self)@.block());
            lemma_closed_but_kept(old(self)@.ctx, mid, old(self)@.curr_block);
        }
        entry.push_front(&mut self.ctx, inst);
        proof {
            lemma_closed_push_front(mid, entry, inst, old(self)@.block());
            lemma_closed_but_push_front(mid, entry, inst, old(self)@.curr_block);
            lemma_grown_twice(old(self)@.ctx, mid, self.ctx@);
            lemma_in_function_kept(old(self)@, self.ctx@);
        }
        match inst.result(&self.ctx) {
            Some(v) => v,
            None => vstd::pervasive::unreached(),
        }
    }

    /// Binds `name` to `entry` in the innermost scope.
    pub(crate) fn bind(&mut self, name: &str, entry: SymbolEntry)
        requires
            old(self)@.wf(),
            old(self)@.symtable.depth() > 0,
            binding_ok(old(self)@.ctx, entry@.ir_value),
        ensures
            final(self)@ == old(self)@.with_symtable(old(self)@.symtable.insert(name@, entry@)),
            final(self)@.wf(),
            same_outside(old(self)@.symtable, final(self)@.symtable),
            old(self)@.in_function() ==> final(self)@.in_function(),
    {
        proof {
            lemma_bindings_scoped(self@.symtable, self@.ctx, name@, entry@, 0);
        }
        self.symtable.insert(name, entry);
        assert(self@.symtable.scopes.drop_last() =~= old(self)@.symtable.scopes.drop_last());
    }

    /// Enters a new, empty scope.
    pub(crate) fn enter_scope(&mut self)
        requires
            old(self)@.wf(),
        ensures
            final(self)@ == old(self)@.with_symtable(old(self)@.symtable.enter()),
            final(self)@.wf(),
    {
        proof {
            lemma_bindings_scoped(self@.symtable, self@.ctx, Seq::empty(), arbitrary(), 0);
        }
        self.symtable.enter_scope();
    }

    /// Leaves the innermost scope.
    pub(crate) fn leave_scope(&mut self)
        requires
            old(self)@.wf(),
        ensures
            final(self)@ == old(self)@.with_symtable(old(self)@.symtable.leave()),
            final(self)@.wf(),
    {
        proof {
            lemma_bindings_scoped(self@.symtable, self@.ctx, Seq::empty(), arbitrary(), 0);
        }
        self.symtable.leave_scope();
    }

    /// Enters one more loop, in which `continue` goes to `entry` and `break`
    /// to `exit`.
    pub(crate) fn push_loop(&mut self, entry: Block, exit: Block)
        requires
            old(self)@.ready(),
            old(self)@.ctx.has_block(entry),
            old(self)@.ctx.has_block(exit),
        ensures
            final(self)@ == old(self)@.push_loop(entry, exit),
            final(self)@.ready(),
    {
        proof {
            lemma_blocks_listed(self@.loop_entry_stack, self@.ctx, entry);
            lemma_blocks_listed(self@.loop_exit_stack, self@.ctx, exit);
        }
        self.loop_entry_stack.push(entry);
        self.loop_exit_stack.push(exit);
    }

    /// Leaves the innermost loop.
    pub(crate) fn pop_loop(&mut self)
        requires
            old(self)@.in_function(),
            old(self)@.loop_entry_stack.len() > 0,
            old(self)@.loop_exit_stack.len() > 0,
        ensures
            final(self)@ == old(self)@.pop_loop(),
            final(self)@.in_function(),
            final(self)@.closed_now() == old(self)@.closed_now(),
    {
        proof {
            lemma_blocks_listed(self@.loop_entry_stack, self@.ctx, Block(0));
            lemma_blocks_listed(self@.loop_exit_stack, self@.ctx, Block(0));
        }
        self.loop_entry_stack.pop();
        self.loop_exit_stack.pop();
    }
}

} // verus!

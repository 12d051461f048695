//! The lowering of statements, blocks and local declarations.

use super::state::{
    advanced, advanced_but, lemma_advanced_entered, lemma_advanced_keeps, lemma_advanced_twice,
    lemma_blocks_listed, lemma_entered_keeps, lemma_grown_but_after, lemma_lookup_bound,
    lemma_step, lemma_step_entered, lemma_stepped_twice, scope_step, stmt_step, value_step,
};
use super::{IrGenContext, IrGenContextView, IrGenResult};
use crate::frontend::analyze::same_outside;
use crate::frontend::ast::{
    block_item_views, const_def_views, expr_option_view, var_def_views, BlockItem, BlockItemView,
    ComptimeVal, ConstDef, Decl, Expr, Stmt, StmtView, VarDef,
};
use crate::frontend::error::SemanticError;
use crate::frontend::lower::{
    lemma_lower_items_failed, lemma_lower_local_consts_failed, lemma_lower_local_vars_failed,
    lower_assign, lower_block, lower_cond, lower_items, lower_jump, lower_local_const,
    lower_local_consts, lower_local_decl, lower_local_def, lower_local_var, lower_local_vars,
    lower_return, lower_stmt,
};
use crate::frontend::symtable::{comptime_option_view, SymbolEntry};
use crate::ir::{lemma_grown_same, lemma_grown_twice, Block, InstKind, Value};
use vstd::prelude::*;

verus! {

impl IrGenContext {
    /// Lowers the condition `cond` into the current block; gives its truth.
    pub(crate) fn gen_cond(&mut self, cond: &Expr) -> (r: Result<Value, SemanticError>)
        requires
            old(self)@.ready(),
        ensures
            value_step(old(self)@, lower_cond(old(self)@, cond@), final(self)@, r),
    {
        let v = match self.gen_local_expr(cond) {
            Ok(v) => v,
            Err(e) => { return Err(e); },
        };
        let ghost s1 = self@;
        let r = self.truth(v);
        proof {
            if r is Ok {
                lemma_stepped_twice(old(self)@, s1, self@);
            }
        }
        r
    }

    /// Lowers the assignment of `expr` to the variable `name`.
    #[verifier::rlimit(40)]
    pub(crate) fn gen_assign(&mut self, name: &str, expr: &Expr) -> (r: Result<(), SemanticError>)
        requires
            old(self)@.ready(),
        ensures
            stmt_step(old(self)@, lower_assign(old(self)@, name@, expr@), final(self)@, r),
            r is Ok ==> final(self)@.ready() && final(self)@.curr_block == old(self)@.curr_block,
    {
        proof {
            lemma_lookup_bound(self@.symtable.scopes, name@, self@.ctx);
        }
        let binding = match self.symtable.lookup(name) {
            None => { return Err(SemanticError::UnresolvedIdentifier); },
            Some(entry) => match entry.ir_value {
                None => { return Err(SemanticError::InvalidOperation); },
                Some(binding) => binding,
            },
        };
        let slot = self.gen_slot(binding);
        let ghost s1 = self@;
        let val = match self.gen_local_expr(expr) {
            Ok(v) => v,
            Err(e) => { return Err(e); },
        };
        let ghost s2 = self@;
        proof {
            lemma_advanced_keeps(s1, s2, Block(0), slot);
        }
        self.emit(InstKind::Store { val, ptr: slot });
        proof {
            lemma_stepped_twice(old(self)@, s1, s2);
            lemma_advanced_twice(old(self)@, s2, self@);
        }
        Ok(())
    }

    /// Lowers a return of the value of `expr`, if any.
    #[verifier::rlimit(40)]
    pub(crate) fn gen_return(&mut self, expr: &Option<Expr>) -> (r: Result<(), SemanticError>)
        requires
            old(self)@.ready(),
        ensures
            stmt_step(
                old(self)@,
                lower_return(old(self)@, expr_option_view(*expr)),
                final(self)@,
                r,
            ),
    {
        match expr {
            None => {
                proof {
                    lemma_grown_same(self@.ctx);
                }
            },
            Some(expr) => {
                let val = match self.gen_local_expr(expr) {
                    Ok(v) => v,
                    Err(e) => { return Err(e); },
                };
                let slot = match self.curr_ret_slot {
                    Some(slot) => slot,
                    None => { return Err(SemanticError::InvalidOperation); },
                };
                let ghost s1 = self@;
                self.emit(InstKind::Store { val, ptr: slot });
                proof {
                    lemma_advanced_twice(old(self)@, s1, self@);
                }
            },
        }
        let ghost s2 = self@;
        let target = match self.curr_ret_block {
            Some(target) => target,
            None => { return Err(SemanticError::InvalidOperation); },
        };
        self.emit(InstKind::Br { target });
        proof {
            lemma_advanced_twice(old(self)@, s2, self@);
        }
        Ok(())
    }

    /// Lowers a jump out of the innermost loop where `exits` holds, and to
    /// its head where not.
    pub(crate) fn gen_jump(&mut self, exits: bool) -> (r: Result<(), SemanticError>)
        requires
            old(self)@.ready(),
        ensures
            stmt_step(
                old(self)@,
                lower_jump(
                    old(self)@,
                    if exits {
                        old(self)@.loop_exit_stack
                    } else {
                        old(self)@.loop_entry_stack
                    },
                ),
                final(self)@,
                r,
            ),
    {
        let targets = if exits {
            &self.loop_exit_stack
        } else {
            &self.loop_entry_stack
        };
        if targets.len() == 0 {
            return Err(SemanticError::InvalidOperation);
        }
        let target = targets[targets.len() - 1];
        proof {
            lemma_blocks_listed(targets@, self@.ctx, Block(0));
        }
        self.emit(InstKind::Br { target });
        Ok(())
    }

    /// Ends the current block by going to a new block where `c` is true and
    /// to another new block where not, and enters the first of the two;
    /// gives the two blocks.
    #[verifier::rlimit(40)]
    pub(crate) fn gen_fork(&mut self, c: Value) -> (r: (Block, Block))
        requires
            old(self)@.ready(),
            old(self)@.ctx.has_value(c),
        ensures
            r.0 == old(self)@.first_block(),
            r.1 == old(self)@.second_block(),
            final(self)@ == old(self)@.fork(c),
            final(self)@.ready(),
            advanced(old(self)@, final(self)@),
            final(self)@.symtable == old(self)@.symtable,
            final(self)@.pending(r.1),
            r.1.0 >= old(self)@.ctx.blocks.len(),
    {
        let ghost s0 = self@;
        proof {
            lemma_grown_same(s0.ctx);
        }
        let first = self.new_block();
        let ghost s1 = self@;
        proof {
            lemma_step(s0, s0, s1, first, first, c);
        }
        let second = self.new_block();
        let ghost s2 = self@;
        proof {
            lemma_step(s0, s1, s2, first, first, c);
        }
        self.emit(InstKind::CondBr { cond: c, then_target: first, else_target: second });
        let ghost s3 = self@;
        proof {
            lemma_step(s0, s2, s3, first, second, c);
        }
        self.enter_block(first);
        proof {
            lemma_step_entered(s0, s3, self@, first, second, second);
        }
        (first, second)
    }

    /// Ends the current block, where it is not closed yet, by going to
    /// `target`, and enters `next`.
    #[verifier::rlimit(40)]
    pub(crate) fn gen_join(&mut self, target: Block, next: Block, Ghost(kept): Ghost<Block>)
        requires
            old(self)@.in_function(),
            old(self)@.ctx.has_block(target),
            old(self)@.pending(next),
            old(self)@.pending(kept),
        ensures
            final(self)@ == old(self)@.join(target, next),
            final(self)@.ready(),
            advanced_but(old(self)@, final(self)@, next),
            final(self)@.symtable == old(self)@.symtable,
            kept != next ==> final(self)@.pending(kept),
            final(self)@.ctx.has_block(target),
    {
        let ghost s0 = self@;
        proof {
            lemma_grown_same(s0.ctx);
        }
        self.close_with(target);
        let ghost s1 = self@;
        proof {
            lemma_step(s0, s0, s1, next, kept, Value(0));
            lemma_advanced_keeps(s0, s1, target, Value(0));
        }
        self.enter_block(next);
        proof {
            if target != next {
                lemma_entered_keeps(s1, self@, next, target);
            }
            if kept != next {
                lemma_entered_keeps(s1, self@, next, kept);
            }
            lemma_grown_but_after(s0.ctx, s1.ctx, self@.ctx, next);
        }
    }

    /// Lowers the statement `body`, which is a branch of an `if`; then ends
    /// the current block, where it is not closed yet, by going to `target`,
    /// and enters `next`. Gives the state between the two.
    #[verifier::rlimit(40)]
    pub(crate) fn gen_branch(
        &mut self,
        body: &Stmt,
        target: Block,
        next: Block,
        Ghost(kept): Ghost<Block>,
    ) -> (r: Result<Ghost<IrGenContextView>, SemanticError>)
        requires
            old(self)@.ready(),
            old(self)@.ctx.has_block(target),
            old(self)@.pending(next),
            old(self)@.pending(kept),
        ensures
            match r {
                Ok(mid) => {
                    &&& lower_stmt(old(self)@, body@) == Ok::<IrGenContextView, SemanticError>(mid@)
                    &&& final(self)@ == mid@.join(target, next)
                    &&& final(self)@.ready()
                    &&& advanced_but(old(self)@, final(self)@, next)
                    &&& final(self)@.symtable == old(self)@.symtable
                    &&& kept != next ==> final(self)@.pending(kept)
                    &&& final(self)@.ctx.has_block(target)
                },
                Err(e) => lower_stmt(old(self)@, body@) == Err::<IrGenContextView, SemanticError>(
                    e,
                ) && final(self)@.wf(),
            },
        decreases body, 2nat,
    {
        let ghost s0 = self@;
        match self.gen_stmt(body) {
            Ok(()) => {},
            Err(e) => { return Err(e); },
        }
        let ghost s1 = self@;
        proof {
            lemma_advanced_keeps(s0, s1, target, Value(0));
            lemma_advanced_keeps(s0, s1, next, Value(0));
            lemma_advanced_keeps(s0, s1, kept, Value(0));
        }
        self.gen_join(target, next, Ghost(kept));
        proof {
            lemma_grown_but_after(s0.ctx, s1.ctx, self@.ctx, next);
        }
        Ok(Ghost(s1))
    }

    /// Lowers an `if` statement without `else`.
    #[verifier::rlimit(40)]
    pub(crate) fn gen_if(&mut self, stmt: &Stmt) -> (r: Result<(), SemanticError>)
        requires
            old(self)@.ready(),
            stmt matches Stmt::If(_, _, None),
        ensures
            stmt_step(old(self)@, lower_stmt(old(self)@, stmt@), final(self)@, r),
        decreases stmt, 0nat,
    {
        let (cond, then_stmt) = match stmt {
            Stmt::If(cond, then_stmt, _) => (cond, then_stmt),
            _ => vstd::pervasive::unreached(),
        };
        let ghost s0 = self@;
        let c = match self.gen_cond(cond) {
            Ok(c) => c,
            Err(e) => { return Err(e); },
        };
        let ghost s1 = self@;
        let (then_block, merge_block) = self.gen_fork(c);
        let ghost s2 = self@;
        proof {
            lemma_advanced_keeps(s0, s1, merge_block, c);
            lemma_advanced_twice(s0, s1, s2);
        }
        match self.gen_branch(then_stmt, merge_block, merge_block, Ghost(merge_block)) {
            Ok(_) => {},
            Err(e) => { return Err(e); },
        }
        proof {
            lemma_advanced_entered(s0, s2, self@, merge_block);
        }
        Ok(())
    }

    /// Lowers an `if` statement with `else`.
    #[verifier::rlimit(40)]
    pub(crate) fn gen_if_else(&mut self, stmt: &Stmt) -> (r: Result<(), SemanticError>)
        requires
            old(self)@.ready(),
            stmt matches Stmt::If(_, _, Some(_)),
        ensures
            stmt_step(old(self)@, lower_stmt(old(self)@, stmt@), final(self)@, r),
        decreases stmt, 0nat,
    {
        let (cond, then_stmt, else_stmt) = match stmt {
            Stmt::If(cond, then_stmt, Some(else_stmt)) => (cond, then_stmt, else_stmt),
            _ => vstd::pervasive::unreached(),
        };
        let ghost s0 = self@;
        assert(stmt@ == StmtView::If(
            cond@,
            Box::new(then_stmt@),
            Some(Box::new(else_stmt@)),
        ));
        assert(decreases_to!(stmt => then_stmt));
        assert(decreases_to!(stmt => else_stmt));
        let c = match self.gen_cond(cond) {
            Ok(c) => c,
            Err(e) => { return Err(e); },
        };
        let ghost s1 = self@;
        let (then_block, else_block, merge_block) = self.gen_fork_else(c);
        let ghost s2 = self@;
        proof {
            lemma_advanced_keeps(s0, s1, merge_block, c);
            lemma_advanced_twice(s0, s1, s2);
        }
        match self.gen_branch(then_stmt, merge_block, else_block, Ghost(merge_block)) {
            Ok(_) => {},
            Err(e) => { return Err(e); },
        }
        let ghost s3 = self@;
        proof {
            lemma_advanced_entered(s0, s2, s3, else_block);
        }
        match self.gen_branch(else_stmt, merge_block, merge_block, Ghost(merge_block)) {
            Ok(_) => {},
            Err(e) => { return Err(e); },
        }
        proof {
            lemma_advanced_entered(s0, s3, self@, merge_block);
        }
        Ok(())
    }

    /// Ends the current block by going to a new block where `c` is true and
    /// to another new block where not, makes a third block to go on in
    /// behind the two, and enters the first; gives the three blocks.
    #[verifier::rlimit(40)]
    pub(crate) fn gen_fork_else(&mut self, c: Value) -> (r: (Block, Block, Block))
        requires
            old(self)@.ready(),
            old(self)@.ctx.has_value(c),
        ensures
            r.0 == old(self)@.first_block(),
            r.1 == old(self)@.second_block(),
            r.2 == old(self)@.third_block(),
            final(self)@ == old(self)@.fork_else(c),
            final(self)@.ready(),
            advanced(old(self)@, final(self)@),
            final(self)@.symtable == old(self)@.symtable,
            final(self)@.pending(r.1),
            final(self)@.pending(r.2),
            r.1 != r.2,
            r.1.0 >= old(self)@.ctx.blocks.len(),
            r.2.0 >= old(self)@.ctx.blocks.len(),
    {
        let ghost s0 = self@;
        proof {
            lemma_grown_same(s0.ctx);
        }
        let first = self.new_block();
        let ghost s1 = self@;
        proof {
            lemma_step(s0, s0, s1, first, first, c);
        }
        let second = self.new_block();
        let ghost s2 = self@;
        proof {
            lemma_step(s0, s1, s2, first, first, c);
        }
        let third = self.new_block();
        let ghost s3 = self@;
        proof {
            lemma_step(s0, s2, s3, first, second, c);
        }
        self.emit(InstKind::CondBr { cond: c, then_target: first, else_target: second });
        let ghost s4 = self@;
        proof {
            lemma_step(s0, s3, s4, first, second, c);
            lemma_step(s0, s3, s4, third, third, c);
        }
        self.enter_block(first);
        proof {
            lemma_step_entered(s0, s4, self@, first, second, third);
        }
        (first, second, third)
    }

    /// Makes the three blocks of a loop, ends the current block by going to
    /// the first of them, and enters that one.
    #[verifier::rlimit(40)]
    pub(crate) fn gen_loop_head(&mut self) -> (r: (Block, Block, Block))
        requires
            old(self)@.ready(),
        ensures
            r.0 == old(self)@.first_block(),
            r.1 == old(self)@.second_block(),
            r.2 == old(self)@.third_block(),
            final(self)@ == old(self)@.loop_head(),
            final(self)@.ready(),
            advanced(old(self)@, final(self)@),
            final(self)@.symtable == old(self)@.symtable,
            final(self)@.pending(r.1),
            final(self)@.pending(r.2),
            final(self)@.ctx.has_block(r.0),
            r.1 != r.2,
            r.1.0 >= old(self)@.ctx.blocks.len(),
            r.2.0 >= old(self)@.ctx.blocks.len(),
    {
        let ghost s0 = self@;
        proof {
            lemma_grown_same(s0.ctx);
        }
        let cond_block = self.new_block();
        let ghost s1 = self@;
        let body_block = self.new_block();
        let ghost s2 = self@;
        proof {
            lemma_step(s0, s1, s2, cond_block, cond_block, Value(0));
        }
        let exit_block = self.new_block();
        let ghost s3 = self@;
        proof {
            lemma_step(s0, s2, s3, cond_block, body_block, Value(0));
        }
        self.emit(InstKind::Br { target: cond_block });
        let ghost s4 = self@;
        proof {
            lemma_step(s0, s3, s4, cond_block, body_block, Value(0));
            lemma_step(s0, s3, s4, exit_block, exit_block, Value(0));
        }
        self.enter_block(cond_block);
        proof {
            lemma_step_entered(s0, s4, self@, cond_block, body_block, exit_block);
        }
        (cond_block, body_block, exit_block)
    }

    /// Lowers a `while` statement.
    #[verifier::rlimit(40)]
    pub(crate) fn gen_while(&mut self, stmt: &Stmt) -> (r: Result<(), SemanticError>)
        requires
            old(self)@.ready(),
            stmt is While,
        ensures
            stmt_step(old(self)@, lower_stmt(old(self)@, stmt@), final(self)@, r),
        decreases stmt, 0nat,
    {
        let (cond, body) = match stmt {
            Stmt::While(cond, body) => (cond, body),
            _ => vstd::pervasive::unreached(),
        };
        let ghost s0 = self@;
        let (cond_block, body_block, exit_block) = self.gen_loop_head();
        let ghost s1 = self@;
        let c = match self.gen_cond(cond) {
            Ok(c) => c,
            Err(e) => { return Err(e); },
        };
        let ghost s2 = self@;
        proof {
            lemma_step(s0, s1, s2, body_block, exit_block, c);
            lemma_step(s0, s1, s2, cond_block, cond_block, c);
        }
        self.emit(InstKind::CondBr { cond: c, then_target: body_block, else_target: exit_block });
        let ghost s3 = self@;
        proof {
            lemma_step(s0, s2, s3, body_block, exit_block, c);
            lemma_step(s0, s2, s3, cond_block, cond_block, c);
        }
        self.enter_block(body_block);
        let ghost s4 = self@;
        proof {
            lemma_step_entered(s0, s3, s4, body_block, exit_block, cond_block);
        }
        self.push_loop(cond_block, exit_block);
        let ghost s5 = self@;
        match self.gen_stmt(body) {
            Ok(()) => {},
            Err(e) => { return Err(e); },
        }
        let ghost s6 = self@;
        proof {
            lemma_advanced_keeps(s5, s6, exit_block, c);
            lemma_advanced_keeps(s5, s6, cond_block, c);
        }
        self.close_with(cond_block);
        let ghost s7 = self@;
        proof {
            lemma_advanced_keeps(s6, s7, exit_block, c);
        }
        self.pop_loop();
        let ghost s8 = self@;
        proof {
            assert(s8.loop_entry_stack =~= s0.loop_entry_stack);
            assert(s8.loop_exit_stack =~= s0.loop_exit_stack);
            lemma_grown_twice(s0.ctx, s4.ctx, s6.ctx);
            lemma_grown_twice(s0.ctx, s6.ctx, s7.ctx);
        }
        self.enter_block(exit_block);
        proof {
            lemma_step_entered(s0, s8, self@, exit_block, exit_block, exit_block);
        }
        Ok(())
    }

    /// Lowers the statement `stmt`.
    pub fn gen_stmt(&mut self, stmt: &Stmt) -> (r: Result<(), SemanticError>)
        requires
            old(self)@.ready(),
        ensures
            stmt_step(old(self)@, lower_stmt(old(self)@, stmt@), final(self)@, r),
        decreases stmt, 1nat,
    {
        match stmt {
            Stmt::Assign(lval, expr) => self.gen_assign(lval.ident.as_str(), expr),
            Stmt::Expr(stmt) => match &stmt.expr {
                None => {
                    proof {
                        lemma_grown_same(self@.ctx);
                    }
                    Ok(())
                },
                Some(expr) => match self.gen_local_expr(expr) {
                    Ok(_) => Ok(()),
                    Err(e) => Err(e),
                },
            },
            Stmt::Block(block) => self.gen_block(block),
            Stmt::If(_, _, None) => self.gen_if(stmt),
            Stmt::If(_, _, Some(_)) => self.gen_if_else(stmt),
            Stmt::While(_, _) => self.gen_while(stmt),
            Stmt::Break => self.gen_jump(true),
            Stmt::Continue => self.gen_jump(false),
            Stmt::Return(stmt) => self.gen_return(&stmt.expr),
        }
    }

    /// Lowers the block `block`: its items, in a scope of their own.
    pub fn gen_block(&mut self, block: &crate::frontend::ast::Block) -> (r: Result<(), SemanticError>)
        requires
            old(self)@.ready(),
        ensures
            stmt_step(old(self)@, lower_block(old(self)@, block@), final(self)@, r),
        decreases block, 1nat,
    {
        proof {
            block.lemma_view();
        }
        self.enter_scope();
        let ghost s1 = self@;
        match self.gen_items(&block.items) {
            Ok(()) => {},
            Err(e) => { return Err(e); },
        }
        let ghost s2 = self@;
        self.leave_scope();
        proof {
            assert(s1.symtable.scopes.drop_last() =~= old(self)@.symtable.scopes);
            assert(self@.symtable.scopes =~= old(self)@.symtable.scopes);
        }
        Ok(())
    }

    /// Lowers the item `item` of a block into the innermost scope.
    pub(crate) fn gen_item(&mut self, item: &BlockItem) -> (r: Result<(), SemanticError>)
        requires
            old(self)@.ready(),
        ensures
            scope_step(
                old(self)@,
                match item@ {
                    BlockItemView::Decl(decl) => lower_local_decl(old(self)@, decl),
                    BlockItemView::Stmt(stmt) => lower_stmt(old(self)@, stmt),
                },
                final(self)@,
                r,
            ),
        decreases item, 2nat,
    {
        match item {
            BlockItem::Decl(decl) => self.gen_local_decl(decl),
            BlockItem::Stmt(stmt) => {
                let r = self.gen_stmt(stmt);
                proof {
                    if r is Ok {
                        assert(self@.symtable.scopes.drop_last()
                            =~= old(self)@.symtable.scopes.drop_last());
                    }
                }
                r
            },
        }
    }

    /// Lowers the items of a block, in order, into the innermost scope.
    #[verifier::rlimit(40)]
    pub(crate) fn gen_items(&mut self, items: &Vec<BlockItem>) -> (r: Result<(), SemanticError>)
        requires
            old(self)@.in_function(),
        ensures
            scope_step(
                old(self)@,
                lower_items(old(self)@, block_item_views(items@), items@.len()),
                final(self)@,
                r,
            ),
        decreases items, 0nat,
    {
        let ghost s0 = self@;
        let ghost all = block_item_views(items@);
        let mut i: usize = 0;
        proof {
            lemma_grown_same(s0.ctx);
            assert(s0.symtable.scopes.drop_last() =~= s0.symtable.scopes.drop_last());
        }
        while i < items.len()
            invariant
                i <= items.len(),
                s0 == old(self)@,
                all == block_item_views(items@),
                advanced(s0, self@),
                self@.in_function(),
                same_outside(s0.symtable, self@.symtable),
                lower_items(s0, all, i as nat) == Ok::<IrGenContextView, SemanticError>(self@),
            decreases items.len() - i,
        {
            let ghost s1 = self@;
            assert(all[i as int] == items@[i as int]@);
            let closed = self.curr_block.unwrap().is_closed(&self.ctx);
            if !closed {
                match self.gen_item(&items[i]) {
                    Ok(()) => {},
                    Err(e) => {
                        proof {
                            lemma_lower_items_failed(
                                s0,
                                all,
                                (i + 1) as nat,
                                all.len(),
                            );
                        }
                        return Err(e);
                    },
                }
                proof {
                    lemma_advanced_twice(s0, s1, self@);
                }
            }
            i += 1;
        }
        Ok(())
    }

    /// Lowers the definition of a local name `ident` with the initializer
    /// `init`.
    #[verifier::rlimit(40)]
    pub(crate) fn gen_local_def(&mut self, ident: &str, init: &Expr, comptime: Option<ComptimeVal>) -> (r:
        Result<(), SemanticError>)
        requires
            old(self)@.ready(),
        ensures
            scope_step(
                old(self)@,
                lower_local_def(
                    old(self)@,
                    ident@,
                    init@,
                    comptime_option_view(comptime),
                ),
                final(self)@,
                r,
            ),
            r is Ok ==> final(self)@.ready(),
    {
        let ty = match &init.ty {
            Some(ty) => ty,
            None => { return Err(SemanticError::InvalidOperation); },
        };
        let ir_ty = match self.gen_type(ty) {
            Ok(t) => t,
            Err(e) => { return Err(e); },
        };
        let slot = self.alloca(ir_ty);
        let ghost s1 = self@;
        self.bind(
            ident,
            SymbolEntry { ty: ty.clone(), comptime, ir_value: Some(IrGenResult::Value(slot)) },
        );
        let ghost s2 = self@;
        let val = match self.gen_local_expr(init) {
            Ok(v) => v,
            Err(e) => { return Err(e); },
        };
        let ghost s3 = self@;
        proof {
            lemma_grown_same(s1.ctx);
            lemma_advanced_keeps(s2, s3, Block(0), slot);
        }
        self.emit(InstKind::Store { val, ptr: slot });
        proof {
            lemma_advanced_twice(old(self)@, s2, s3);
            lemma_advanced_twice(old(self)@, s3, self@);
        }
        Ok(())
    }

    /// Lowers the definition of a local constant.
    pub(crate) fn gen_local_const(&mut self, def: &ConstDef) -> (r: Result<(), SemanticError>)
        requires
            old(self)@.ready(),
        ensures
            scope_step(old(self)@, lower_local_const(old(self)@, def@), final(self)@, r),
            r is Ok ==> final(self)@.ready(),
    {
        match def.init.try_fold(&self.symtable) {
            Err(e) => Err(e),
            Ok(None) => Err(SemanticError::NonConstantInitializer),
            Ok(Some(value)) => self.gen_local_def(def.ident.as_str(), &def.init, Some(value)),
        }
    }

    /// Lowers the definition of a local variable.
    pub(crate) fn gen_local_var(&mut self, def: &VarDef) -> (r: Result<(), SemanticError>)
        requires
            old(self)@.ready(),
        ensures
            scope_step(old(self)@, lower_local_var(old(self)@, def@), final(self)@, r),
            r is Ok ==> final(self)@.ready(),
    {
        match &def.init {
            None => Err(SemanticError::InvalidOperation),
            Some(init) => self.gen_local_def(def.ident.as_str(), init, None),
        }
    }

    /// Lowers the definitions of a local declaration of constants.
    pub(crate) fn gen_local_consts(&mut self, defs: &Vec<ConstDef>) -> (r: Result<(), SemanticError>)
        requires
            old(self)@.ready(),
        ensures
            scope_step(
                old(self)@,
                lower_local_consts(old(self)@, const_def_views(defs@), defs@.len()),
                final(self)@,
                r,
            ),
    {
        let ghost s0 = self@;
        let ghost all = const_def_views(defs@);
        let mut i: usize = 0;
        proof {
            lemma_grown_same(s0.ctx);
            assert(s0.symtable.scopes.drop_last() =~= s0.symtable.scopes.drop_last());
        }
        while i < defs.len()
            invariant
                i <= defs.len(),
                s0 == old(self)@,
                all == const_def_views(defs@),
                advanced(s0, self@),
                self@.ready(),
                same_outside(s0.symtable, self@.symtable),
                lower_local_consts(s0, all, i as nat) == Ok::<IrGenContextView, SemanticError>(
                    self@,
                ),
            decreases defs.len() - i,
        {
            let ghost s1 = self@;
            assert(all[i as int] == defs@[i as int]@);
            match self.gen_local_const(&defs[i]) {
                Ok(()) => {},
                Err(e) => {
                    proof {
                        lemma_lower_local_consts_failed(
                            s0,
                            all,
                            (i + 1) as nat,
                            all.len(),
                        );
                    }
                    return Err(e);
                },
            }
            proof {
                lemma_advanced_twice(s0, s1, self@);
            }
            i += 1;
        }
        Ok(())
    }

    /// Lowers the definitions of a local declaration of variables.
    pub(crate) fn gen_local_vars(&mut self, defs: &Vec<VarDef>) -> (r: Result<(), SemanticError>)
        requires
            old(self)@.ready(),
        ensures
            scope_step(
                old(self)@,
                lower_local_vars(old(self)@, var_def_views(defs@), defs@.len()),
                final(self)@,
                r,
            ),
    {
        let ghost s0 = self@;
        let ghost all = var_def_views(defs@);
        let mut i: usize = 0;
        proof {
            lemma_grown_same(s0.ctx);
            assert(s0.symtable.scopes.drop_last() =~= s0.symtable.scopes.drop_last());
        }
        while i < defs.len()
            invariant
                i <= defs.len(),
                s0 == old(self)@,
                all == var_def_views(defs@),
                advanced(s0, self@),
                self@.ready(),
                same_outside(s0.symtable, self@.symtable),
                lower_local_vars(s0, all, i as nat) == Ok::<IrGenContextView, SemanticError>(self@),
            decreases defs.len() - i,
        {
            let ghost s1 = self@;
            assert(all[i as int] == defs@[i as int]@);
            match self.gen_local_var(&defs[i]) {
                Ok(()) => {},
                Err(e) => {
                    proof {
                        lemma_lower_local_vars_failed(
                            s0,
                            all,
                            (i + 1) as nat,
                            all.len(),
                        );
                    }
                    return Err(e);
                },
            }
            proof {
                lemma_advanced_twice(s0, s1, self@);
            }
            i += 1;
        }
        Ok(())
    }

    /// Lowers a declaration inside a function.
    pub fn gen_local_decl(&mut self, decl: &Decl) -> (r: Result<(), SemanticError>)
        requires
            old(self)@.ready(),
        ensures
            scope_step(old(self)@, lower_local_decl(old(self)@, decl@), final(self)@, r),
    {
        match decl {
            Decl::ConstDecl(decl) => self.gen_local_consts(&decl.defs),
            Decl::VarDecl(decl) => self.gen_local_vars(&decl.defs),
        }
    }
}

} // verus!

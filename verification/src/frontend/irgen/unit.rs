//! The lowering of functions, global declarations and whole programs.

use super::state::{
    advanced, lemma_advanced_keeps, lemma_advanced_twice, lemma_bindings_scoped,
    lemma_function_scope, lemma_handles_grown, lemma_in_function_kept, lemma_values_listed,
    lemma_wf_kept, top_step, values_ok,
};
use super::{IrGenContext, IrGenContextView, IrGenResult};
use crate::frontend::analyze::{func_type, same_outside};
use crate::frontend::ast::{
    const_def_views, item_views, param_views, var_def_views, CompUnit, ConstDef, Decl, Expr,
    FuncDef, FuncFParam, Item, VarDef,
};
use crate::frontend::error::SemanticError;
use crate::frontend::lower::{
    begin_func, begin_ret, const_prefix, declare_param, declare_params, end_func,
    lemma_declare_params_failed, lemma_lower_global_consts_failed,
    lemma_lower_global_vars_failed, lemma_lower_top_failed, lower_func, lower_func_body,
    lower_global_consts, lower_global_decl, lower_global_def, lower_global_vars, lower_item,
    lower_top, lower_unit, slot_param, slot_params, var_prefix,
};
use crate::frontend::symtable::{SymbolEntry, SymbolEntryView};
use crate::frontend::types::Type;
use crate::ir::{
    lemma_closed_but_append, lemma_closed_but_kept, lemma_closed_but_none, lemma_closed_kept,
    lemma_grown_but_keeps, lemma_grown_keeps_func, lemma_grown_same, lemma_grown_twice, Block,
    Func, Global, InstKind, Ty, Value,
};
use vstd::prelude::*;
use vstd::string::StringExecFns;

verus! {

impl IrGenContext {
    /// Lowers the definition of a global name `ident` with the initializer
    /// `init`, a constant where `is_const` holds and a variable where not.
    #[verifier::rlimit(40)]
    pub(crate) fn gen_global_def(&mut self, is_const: bool, ident: &str, init: &Expr) -> (r: Result<
        (),
        SemanticError,
    >)
        requires
            old(self)@.at_top(),
        ensures
            top_step(
                old(self)@,
                lower_global_def(
                    old(self)@,
                    if is_const {
                        const_prefix()
                    } else {
                        var_prefix()
                    },
                    ident@,
                    init@,
                ),
                final(self)@,
                r,
            ),
    {
        let value = match init.try_fold(&self.symtable) {
            Err(e) => { return Err(e); },
            Ok(None) => { return Err(SemanticError::NonConstantInitializer); },
            Ok(Some(value)) => value,
        };
        let constant = match self.gen_global_comptime(&value) {
            Ok(c) => c,
            Err(e) => { return Err(e); },
        };
        let ty = match &init.ty {
            Some(ty) => ty.clone(),
            None => { return Err(SemanticError::InvalidOperation); },
        };
        let mut name = if is_const {
            String::from_str("__GLOBAL_CONST_")
        } else {
            String::from_str("__GLOBAL_VAR_")
        };
        name.append(ident);
        let slot = Global::new(&mut self.ctx, name, constant);
        proof {
            lemma_closed_but_kept(old(self)@.ctx, self.ctx@, None);
            lemma_wf_kept(old(self)@, self.ctx@);
        }
        self.bind(
            ident,
            SymbolEntry { ty, comptime: Some(value), ir_value: Some(IrGenResult::Global(slot)) },
        );
        Ok(())
    }

    /// Lowers the definitions of a global declaration of constants.
    pub(crate) fn gen_global_consts(&mut self, defs: &Vec<ConstDef>) -> (r: Result<(), SemanticError>)
        requires
            old(self)@.at_top(),
        ensures
            top_step(
                old(self)@,
                lower_global_consts(old(self)@, const_def_views(defs@), defs@.len()),
                final(self)@,
                r,
            ),
    {
        let ghost s0 = self@;
        let ghost all = const_def_views(defs@);
        let mut i: usize = 0;
        proof {
            assert(s0.symtable.scopes.drop_last() =~= s0.symtable.scopes.drop_last());
        }
        while i < defs.len()
            invariant
                i <= defs.len(),
                s0 == old(self)@,
                all == const_def_views(defs@),
                top_step(s0, lower_global_consts(s0, all, i as nat), self@, Ok(())),
            decreases defs.len() - i,
        {
            assert(all[i as int] == defs@[i as int]@);
            let def = &defs[i];
            match self.gen_global_def(true, def.ident.as_str(), &def.init) {
                Ok(()) => {},
                Err(e) => {
                    proof {
                        lemma_lower_global_consts_failed(
                            s0,
                            all,
                            (i + 1) as nat,
                            all.len(),
                        );
                    }
                    return Err(e);
                },
            }
            i += 1;
        }
        Ok(())
    }

    /// Lowers the definitions of a global declaration of variables.
    pub(crate) fn gen_global_vars(&mut self, defs: &Vec<VarDef>) -> (r: Result<(), SemanticError>)
        requires
            old(self)@.at_top(),
        ensures
            top_step(
                old(self)@,
                lower_global_vars(old(self)@, var_def_views(defs@), defs@.len()),
                final(self)@,
                r,
            ),
    {
        let ghost s0 = self@;
        let ghost all = var_def_views(defs@);
        let mut i: usize = 0;
        proof {
            assert(s0.symtable.scopes.drop_last() =~= s0.symtable.scopes.drop_last());
        }
        while i < defs.len()
            invariant
                i <= defs.len(),
                s0 == old(self)@,
                all == var_def_views(defs@),
                top_step(s0, lower_global_vars(s0, all, i as nat), self@, Ok(())),
            decreases defs.len() - i,
        {
            assert(all[i as int] == defs@[i as int]@);
            let def = &defs[i];
            let outcome = match &def.init {
                None => Err(SemanticError::InvalidOperation),
                Some(init) => self.gen_global_def(false, def.ident.as_str(), init),
            };
            match outcome {
                Ok(()) => {},
                Err(e) => {
                    proof {
                        lemma_lower_global_vars_failed(
                            s0,
                            all,
                            (i + 1) as nat,
                            all.len(),
                        );
                    }
                    return Err(e);
                },
            }
            i += 1;
        }
        Ok(())
    }

    /// Lowers a declaration at the top level.
    pub fn gen_global_decl(&mut self, decl: &Decl) -> (r: Result<(), SemanticError>)
        requires
            old(self)@.at_top(),
        ensures
            top_step(old(self)@, lower_global_decl(old(self)@, decl@), final(self)@, r),
    {
        match decl {
            Decl::ConstDecl(decl) => self.gen_global_consts(&decl.defs),
            Decl::VarDecl(decl) => self.gen_global_vars(&decl.defs),
        }
    }

    /// Starts the lowering of a function named `name` that returns a value
    /// of type `ret_ty` and has the type `func_ty` in the source language.
    #[verifier::rlimit(40)]
    pub(crate) fn begin_func(&mut self, name: &str, ret_ty: Ty, func_ty: Type)
        requires
            old(self)@.at_top(),
        ensures
            final(self)@ == begin_func(
                old(self)@,
                name@,
                ret_ty,
                SymbolEntryView::from_ty(func_ty@),
            ),
            final(self)@.ready(),
            final(self)@.curr_ret_block is None,
            final(self)@.curr_ret_slot is None,
            final(self)@.loop_entry_stack == old(self)@.loop_entry_stack,
            final(self)@.loop_exit_stack == old(self)@.loop_exit_stack,
    {
        proof {
            lemma_bindings_scoped(self@.symtable, self@.ctx, Seq::empty(), arbitrary(), 0);
            lemma_bindings_scoped(
                self@.symtable.enter(),
                self@.ctx,
                name@,
                SymbolEntryView::from_ty(func_ty@),
                1,
            );
        }
        self.symtable.enter_scope();
        self.symtable.insert_upper(name, SymbolEntry::from_ty(func_ty), 1);
        let ghost s1 = self@;
        let func = Func::new(&mut self.ctx, String::from_str(name), ret_ty);
        let ghost c1 = self.ctx@;
        let block = Block::new(&mut self.ctx);
        let ghost c2 = self.ctx@;
        proof {
            lemma_closed_but_kept(s1.ctx, c1, None);
            lemma_closed_but_kept(c1, c2, None);
            lemma_closed_but_append(c2, func, block);
        }
        func.push_back(&mut self.ctx, block);
        self.curr_func = Some(func);
        self.curr_func_name = Some(String::from_str(name));
        self.curr_block = Some(block);
        proof {
            lemma_grown_twice(s1.ctx, c1, c2);
            lemma_wf_kept(s1, c2);
            lemma_grown_but_keeps(c2, self.ctx@, block, func, Global(0), Value(0));
            lemma_handles_grown(s1.symtable.scopes, s1.loop_entry_stack, c2, self.ctx@);
            lemma_handles_grown(s1.symtable.scopes, s1.loop_exit_stack, c2, self.ctx@);
        }
    }

    /// Declares the parameter `param` of the function being lowered; gives
    /// the value that comes in.
    #[verifier::rlimit(40)]
    pub(crate) fn declare_param(&mut self, param: &FuncFParam) -> (r: Result<Value, SemanticError>)
        requires
            old(self)@.ready(),
        ensures
            match r {
                Ok(v) => {
                    &&& declare_param(old(self)@, param@) == Ok::<
                        (IrGenContextView, Value),
                        SemanticError,
                    >((final(self)@, v))
                    &&& final(self)@.ready()
                    &&& advanced(old(self)@, final(self)@)
                    &&& same_outside(old(self)@.symtable, final(self)@.symtable)
                    &&& final(self)@.curr_block == old(self)@.curr_block
                    &&& final(self)@.ctx.has_value(v)
                },
                Err(e) => declare_param(old(self)@, param@) == Err::<
                    (IrGenContextView, Value),
                    SemanticError,
                >(e) && final(self)@.wf(),
            },
    {
        let ir_ty = match self.gen_type(&param.ty) {
            Ok(t) => t,
            Err(e) => { return Err(e); },
        };
        let func = self.curr_func.unwrap();
        let v = func.add_param(&mut self.ctx, ir_ty);
        proof {
            lemma_closed_kept(old(self)@.ctx, self.ctx@, old(self)@.block());
            lemma_closed_but_kept(old(self)@.ctx, self.ctx@, old(self)@.curr_block);
            lemma_in_function_kept(old(self)@, self.ctx@);
        }
        self.bind(
            param.ident.as_str(),
            SymbolEntry {
                ty: param.ty.clone(),
                comptime: None,
                ir_value: Some(IrGenResult::Value(v)),
            },
        );
        Ok(v)
    }

    /// Declares the parameters `params` of the function being lowered, in
    /// order; gives the values that come in.
    #[verifier::rlimit(40)]
    pub(crate) fn declare_params(&mut self, params: &Vec<FuncFParam>) -> (r: Result<Vec<Value>, SemanticError>)
        requires
            old(self)@.ready(),
        ensures
            match r {
                Ok(values) => {
                    &&& declare_params(
                        old(self)@,
                        param_views(params@),
                        params@.len(),
                    ) == Ok::<(IrGenContextView, Seq<Value>), SemanticError>(
                        (final(self)@, values@),
                    )
                    &&& final(self)@.ready()
                    &&& advanced(old(self)@, final(self)@)
                    &&& same_outside(old(self)@.symtable, final(self)@.symtable)
                    &&& final(self)@.curr_block == old(self)@.curr_block
                    &&& values_ok(values@, final(self)@.ctx)
                    &&& values@.len() == params@.len()
                },
                Err(e) => declare_params(
                    old(self)@,
                    param_views(params@),
                    params@.len(),
                ) == Err::<(IrGenContextView, Seq<Value>), SemanticError>(e) && final(self)@.wf(),
            },
    {
        let ghost s0 = self@;
        let ghost all = param_views(params@);
        let mut values: Vec<Value> = Vec::new();
        let mut i: usize = 0;
        proof {
            lemma_grown_same(s0.ctx);
            assert(s0.symtable.scopes.drop_last() =~= s0.symtable.scopes.drop_last());
            reveal(values_ok);
        }
        while i < params.len()
            invariant
                i <= params.len(),
                s0 == old(self)@,
                all == param_views(params@),
                declare_params(s0, all, i as nat) == Ok::<
                    (IrGenContextView, Seq<Value>),
                    SemanticError,
                >((self@, values@)),
                self@.ready(),
                advanced(s0, self@),
                same_outside(s0.symtable, self@.symtable),
                self@.curr_block == s0.curr_block,
                values_ok(values@, self@.ctx),
                values@.len() == i,
            decreases params.len() - i,
        {
            let ghost s1 = self@;
            assert(all[i as int] == params@[i as int]@);
            let v = match self.declare_param(&params[i]) {
                Ok(v) => v,
                Err(e) => {
                    proof {
                        lemma_declare_params_failed(
                            s0,
                            all,
                            (i + 1) as nat,
                            all.len(),
                        );
                    }
                    return Err(e);
                },
            };
            proof {
                lemma_advanced_twice(s0, s1, self@);
                lemma_advanced_keeps(s1, self@, Block(0), Value(0));
                lemma_grown_keeps_func(s1.ctx, self@.ctx, Func(0), Global(0));
                lemma_values_listed(values@, s1.ctx, self@.ctx, v, 0);
            }
            values.push(v);
            i += 1;
        }
        Ok(values)
    }

    /// Gives the parameter `param`, whose value comes in as `value`, a slot
    /// where it is an integer or a boolean.
    #[verifier::rlimit(40)]
    pub(crate) fn slot_param(&mut self, param: &FuncFParam, value: Value)
        requires
            old(self)@.ready(),
            old(self)@.ctx.has_value(value),
        ensures
            final(self)@ == slot_param(old(self)@, param@, value),
            final(self)@.ready(),
            advanced(old(self)@, final(self)@),
            same_outside(old(self)@.symtable, final(self)@.symtable),
            final(self)@.curr_block == old(self)@.curr_block,
    {
        proof {
            lemma_grown_same(self@.ctx);
            assert(self@.symtable.scopes.drop_last() =~= self@.symtable.scopes.drop_last());
        }
        match self.gen_type(&param.ty) {
            Ok(ir_ty) => {
                if param.ty.is_int() || param.ty.is_bool() {
                    let slot = self.alloca(ir_ty);
                    let ghost s1 = self@;
                    proof {
                        lemma_advanced_keeps(old(self)@, s1, Block(0), value);
                    }
                    self.emit(InstKind::Store { val: value, ptr: slot });
                    let ghost s2 = self@;
                    proof {
                        lemma_advanced_twice(old(self)@, s1, s2);
                        lemma_advanced_keeps(s1, s2, Block(0), slot);
                    }
                    self.bind(
                        param.ident.as_str(),
                        SymbolEntry {
                            ty: param.ty.clone(),
                            comptime: None,
                            ir_value: Some(IrGenResult::Value(slot)),
                        },
                    );
                }
            },
            Err(_) => {},
        }
    }

    /// Gives the parameters `params`, whose values come in as `values`,
    /// their slots, in order.
    #[verifier::rlimit(40)]
    pub(crate) fn slot_params(&mut self, params: &Vec<FuncFParam>, values: &Vec<Value>)
        requires
            old(self)@.ready(),
            values_ok(values@, old(self)@.ctx),
            values@.len() == params@.len(),
        ensures
            final(self)@ == slot_params(
                old(self)@,
                param_views(params@),
                values@,
                params@.len(),
            ),
            final(self)@.ready(),
            advanced(old(self)@, final(self)@),
            same_outside(old(self)@.symtable, final(self)@.symtable),
            final(self)@.curr_block == old(self)@.curr_block,
    {
        let ghost s0 = self@;
        let ghost all = param_views(params@);
        let mut i: usize = 0;
        proof {
            lemma_grown_same(s0.ctx);
            assert(s0.symtable.scopes.drop_last() =~= s0.symtable.scopes.drop_last());
        }
        while i < params.len()
            invariant
                i <= params.len(),
                s0 == old(self)@,
                all == param_views(params@),
                values@.len() == params@.len(),
                self@ == slot_params(s0, all, values@, i as nat),
                self@.ready(),
                advanced(s0, self@),
                same_outside(s0.symtable, self@.symtable),
                self@.curr_block == s0.curr_block,
                values_ok(values@, self@.ctx),
            decreases params.len() - i,
        {
            let ghost s1 = self@;
            assert(all[i as int] == params@[i as int]@);
            proof {
                lemma_values_listed(values@, s1.ctx, s1.ctx, Value(0), i as int);
            }
            self.slot_param(&params[i], values[i]);
            proof {
                lemma_advanced_twice(s0, s1, self@);
                lemma_grown_keeps_func(s1.ctx, self@.ctx, Func(0), Global(0));
                lemma_values_listed(values@, s1.ctx, self@.ctx, Value(0), 0);
            }
            i += 1;
        }
    }

    /// Makes what the function being lowered is left through: a block, and
    /// a slot for the value that it returns, unless it returns nothing.
    pub(crate) fn begin_ret(&mut self, ret_ty: Ty)
        requires
            old(self)@.ready(),
            old(self)@.curr_ret_block is None,
            old(self)@.curr_ret_slot is None,
        ensures
            final(self)@ == begin_ret(old(self)@, ret_ty),
            final(self)@.ready(),
            final(self)@.curr_ret_block is Some,
            final(self)@.symtable == old(self)@.symtable,
            final(self)@.loop_entry_stack == old(self)@.loop_entry_stack,
            final(self)@.loop_exit_stack == old(self)@.loop_exit_stack,
    {
        let ret_block = self.new_block();
        self.curr_ret_block = Some(ret_block);
        match ret_ty {
            Ty::Void => {},
            _ => {
                let ghost s1 = self@;
                let slot = self.alloca(ret_ty);
                self.curr_ret_slot = Some(slot);
            },
        }
    }

    /// Ends the lowering of a function that returns a value of type
    /// `ret_ty`.
    #[verifier::rlimit(40)]
    pub(crate) fn end_func(&mut self, ret_ty: Ty)
        requires
            old(self)@.in_function(),
            old(self)@.curr_ret_block is Some,
        ensures
            final(self)@ == end_func(old(self)@, ret_ty),
            final(self)@.wf(),
            final(self)@.curr_func is None,
            final(self)@.curr_func_name is None,
            final(self)@.curr_block is None,
            final(self)@.curr_ret_block is None,
            final(self)@.curr_ret_slot is None,
            final(self)@.symtable == old(self)@.symtable.leave(),
            final(self)@.loop_entry_stack == old(self)@.loop_entry_stack,
            final(self)@.loop_exit_stack == old(self)@.loop_exit_stack,
    {
        let ret_block = self.curr_ret_block.unwrap();
        self.close_with(ret_block);
        let ghost s1 = self@;
        proof {
            lemma_advanced_keeps(old(self)@, s1, ret_block, Value(0));
        }
        self.curr_ret_block = None;
        self.enter_block(ret_block);
        let ghost s2 = self@;
        match self.curr_ret_slot {
            Some(slot) => {
                let value = self.compute(InstKind::Load { ptr: slot, ty: ret_ty });
                self.emit(InstKind::Ret { value: Some(value) });
            },
            None => {
                self.emit(InstKind::Ret { value: None });
            },
        }
        proof {
            lemma_closed_but_none(self@.ctx, ret_block);
        }
        self.curr_func = None;
        self.curr_func_name = None;
        self.curr_block = None;
        self.curr_ret_slot = None;
        self.leave_scope();
    }

    /// Lowers what lies between the start and the end of a function that
    /// returns a value of type `ret_ty`.
    #[verifier::rlimit(40)]
    pub(crate) fn gen_func_body(&mut self, def: &FuncDef, ret_ty: Ty) -> (r: Result<(), SemanticError>)
        requires
            old(self)@.ready(),
            old(self)@.curr_ret_block is None,
            old(self)@.curr_ret_slot is None,
        ensures
            match r {
                Ok(()) => {
                    &&& lower_func_body(old(self)@, def@, ret_ty) == Ok::<
                        IrGenContextView,
                        SemanticError,
                    >(final(self)@)
                    &&& final(self)@.in_function()
                    &&& final(self)@.curr_ret_block is Some
                    &&& same_outside(old(self)@.symtable, final(self)@.symtable)
                    &&& final(self)@.loop_entry_stack == old(self)@.loop_entry_stack
                    &&& final(self)@.loop_exit_stack == old(self)@.loop_exit_stack
                },
                Err(e) => lower_func_body(old(self)@, def@, ret_ty) == Err::<
                    IrGenContextView,
                    SemanticError,
                >(e) && final(self)@.wf(),
            },
    {
        let values = match self.declare_params(&def.params) {
            Ok(values) => values,
            Err(e) => { return Err(e); },
        };
        let ghost s1 = self@;
        self.slot_params(&def.params, &values);
        let ghost s2 = self@;
        self.begin_ret(ret_ty);
        let ghost s3 = self@;
        match self.gen_block(&def.body) {
            Ok(()) => {},
            Err(e) => { return Err(e); },
        }
        proof {
            assert(s3.loop_entry_stack == old(self)@.loop_entry_stack);
        }
        Ok(())
    }

    /// Lowers the definition of a function.
    #[verifier::rlimit(40)]
    pub fn gen_func(&mut self, def: &FuncDef) -> (r: Result<(), SemanticError>)
        requires
            old(self)@.at_top(),
        ensures
            top_step(old(self)@, lower_func(old(self)@, def@), final(self)@, r),
    {
        let ghost s0 = self@;
        let ret_ty = match self.gen_type(&def.ret_ty) {
            Ok(t) => t,
            Err(e) => { return Err(e); },
        };
        let func_ty = def.func_type();
        self.begin_func(def.ident.as_str(), ret_ty, func_ty);
        let ghost s1 = self@;
        match self.gen_func_body(def, ret_ty) {
            Ok(()) => {},
            Err(e) => { return Err(e); },
        }
        let ghost s2 = self@;
        self.end_func(ret_ty);
        proof {
            lemma_function_scope(
                s0.symtable,
                def@.ident,
                SymbolEntryView::from_ty(func_type(def@.params, def@.ret_ty)),
                s2.symtable,
            );
        }
        Ok(())
    }

    /// Lowers an item at the top level.
    pub fn gen_item_top(&mut self, item: &Item) -> (r: Result<(), SemanticError>)
        requires
            old(self)@.at_top(),
        ensures
            top_step(old(self)@, lower_item(old(self)@, item@), final(self)@, r),
    {
        match item {
            Item::Decl(decl) => self.gen_global_decl(decl),
            Item::FuncDef(def) => self.gen_func(def),
        }
    }

    /// Lowers a whole program: its items, in order, in one global scope.
    #[verifier::rlimit(40)]
    pub fn gen_unit(&mut self, unit: &CompUnit) -> (r: Result<(), SemanticError>)
        requires
            old(self)@.wf(),
            old(self)@.curr_func is None,
            old(self)@.curr_func_name is None,
            old(self)@.curr_block is None,
            old(self)@.curr_ret_block is None,
            old(self)@.curr_ret_slot is None,
        ensures
            match r {
                Ok(()) => {
                    &&& lower_unit(old(self)@, unit@) == Ok::<IrGenContextView, SemanticError>(
                        final(self)@,
                    )
                    &&& final(self)@.wf()
                    &&& final(self)@.curr_block is None
                    &&& final(self)@.symtable == old(self)@.symtable
                },
                Err(e) => lower_unit(old(self)@, unit@) == Err::<IrGenContextView, SemanticError>(
                    e,
                ) && final(self)@.wf(),
            },
    {
        self.enter_scope();
        self.gen_sysylib();
        let ghost s0 = self@;
        let ghost all = item_views(unit.items@);
        let mut i: usize = 0;
        proof {
            assert(s0.symtable.scopes.drop_last() =~= old(self)@.symtable.scopes);
        }
        while i < unit.items.len()
            invariant
                i <= unit.items.len(),
                s0 == old(self)@.with_symtable(old(self)@.symtable.enter()),
                all == item_views(unit.items@),
                top_step(s0, lower_top(s0, all, i as nat), self@, Ok(())),
            decreases unit.items.len() - i,
        {
            assert(all[i as int] == unit.items@[i as int]@);
            match self.gen_item_top(&unit.items[i]) {
                Ok(()) => {},
                Err(e) => {
                    proof {
                        lemma_lower_top_failed(s0, all, (i + 1) as nat, all.len());
                    }
                    return Err(e);
                },
            }
            i += 1;
        }
        self.leave_scope();
        proof {
            assert(self@.symtable.scopes =~= old(self)@.symtable.scopes);
        }
        Ok(())
    }
}

} // verus!

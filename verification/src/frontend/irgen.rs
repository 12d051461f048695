//! Lowering of an analyzed program to the intermediate representation.
//!
//! The state of the lowering is an [`IrGenContext`]. What each step of the
//! lowering does is stated over the view of that state, an
//! [`IrGenContextView`], by the functions of the module `lower`.

pub mod expr;
pub mod state;
pub mod steps;
pub mod stmt;
pub mod unit;

use super::ast::{CompUnit, Decl, FuncDef, Item, Stmt};
use super::error::SemanticError;
use super::lower::{
    initial_state, lower_block, lower_func, lower_item, lower_local_decl, lower_program,
    lower_stmt, lower_unit, Done,
};
use super::symtable::{SymbolTable, SymbolTableView};
use crate::ir::{Block, Context, ContextView, Func, Global, TargetInfo, Value};
use state::{bindings_ok, blocks_ok};
use vstd::prelude::*;

verus! {

/// What a name of the program is bound to in the intermediate
/// representation: a global slot, or a value local to a function.
#[derive(Debug, Clone, Copy, PartialEq, Eq, Structural)]
pub enum IrGenResult {
    Global(Global),
    Value(Value),
}

impl IrGenResult {
    /// The local value that a name is bound to.
    pub fn unwrap_value(self) -> (r: Value)
        requires
            self is Value,
        ensures
            self == IrGenResult::Value(r),
    {
        match self {
            IrGenResult::Value(val) => val,
            IrGenResult::Global(_) => vstd::pervasive::unreached(),
        }
    }
}

/// The state of the lowering.
#[derive(Debug)]
pub struct IrGenContext {
    /// The program lowered so far.
    pub ctx: Context,
    /// The names that are in scope, with what they are bound to.
    pub symtable: SymbolTable,
    /// The function being lowered.
    pub curr_func: Option<Func>,
    /// The name of the function being lowered.
    pub curr_func_name: Option<String>,
    /// The block that instructions are put into.
    pub curr_block: Option<Block>,
    /// For each loop around the place being lowered, the block that
    /// `continue` goes to, the innermost loop last.
    pub loop_entry_stack: Vec<Block>,
    /// For each loop around the place being lowered, the block that `break`
    /// goes to, the innermost loop last.
    pub loop_exit_stack: Vec<Block>,
    /// The slot that holds the value that the function being lowered
    /// returns.
    pub curr_ret_slot: Option<Value>,
    /// The block through which the function being lowered is left.
    pub curr_ret_block: Option<Block>,
}

/// What an [`IrGenContext`] holds.
pub struct IrGenContextView {
    pub ctx: ContextView,
    pub symtable: SymbolTableView,
    pub curr_func: Option<Func>,
    pub curr_func_name: Option<Seq<char>>,
    pub curr_block: Option<Block>,
    pub loop_entry_stack: Seq<Block>,
    pub loop_exit_stack: Seq<Block>,
    pub curr_ret_slot: Option<Value>,
    pub curr_ret_block: Option<Block>,
}

/// The view of an optional name.
pub open spec fn name_option_view(name: Option<String>) -> Option<Seq<char>> {
    match name {
        Some(n) => Some(n@),
        None => None,
    }
}

impl IrGenContext {
    pub open spec fn view(&self) -> IrGenContextView {
        IrGenContextView {
            ctx: self.ctx@,
            symtable: self.symtable@,
            curr_func: self.curr_func,
            curr_func_name: name_option_view(self.curr_func_name),
            curr_block: self.curr_block,
            loop_entry_stack: self.loop_entry_stack@,
            loop_exit_stack: self.loop_exit_stack@,
            curr_ret_slot: self.curr_ret_slot,
            curr_ret_block: self.curr_ret_block,
        }
    }

    /// The state before anything is lowered.
    pub fn new() -> (r: IrGenContext)
        ensures
            r@.ctx == ContextView::empty(),
            r@.symtable == SymbolTableView::empty(),
            r@.curr_func is None,
            r@.curr_func_name is None,
            r@.curr_block is None,
            r@.loop_entry_stack == Seq::<Block>::empty(),
            r@.loop_exit_stack == Seq::<Block>::empty(),
            r@.curr_ret_slot is None,
            r@.curr_ret_block is None,
            r@.wf(),
    {
        let r = IrGenContext {
            ctx: Context::new(),
            symtable: SymbolTable::default(),
            curr_func: None,
            curr_func_name: None,
            curr_block: None,
            loop_entry_stack: Vec::new(),
            loop_exit_stack: Vec::new(),
            curr_ret_slot: None,
            curr_ret_block: None,
        };
        proof {
            reveal(bindings_ok);
            reveal(blocks_ok);
        }
        r
    }

    /// The state before anything is lowered, for a machine whose addresses
    /// have `ptr_size` bits.
    pub fn for_target(ptr_size: u32) -> (r: IrGenContext)
        ensures
            r@ == initial_state(ptr_size),
            r@.wf(),
    {
        let mut r = IrGenContext::new();
        r.ctx.set_target_info(TargetInfo { ptr_size });
        proof {
            reveal(ContextView::sound);
            reveal(ContextView::closed_but);
            reveal(bindings_ok);
            reveal(blocks_ok);
        }
        r
    }

    /// Ends the lowering: the program that was lowered.
    pub fn finish(self) -> (r: Context)
        ensures
            r@ == self@.ctx,
    {
        self.ctx
    }

    /// Declares the functions of the run-time library. The library has no
    /// functions yet, so the state stays as it is.
    pub fn gen_sysylib(&mut self)
        ensures
            final(self)@ == old(self)@,
    {
    }
}

impl Default for IrGenContext {
    fn default() -> (r: Self)
        ensures
            r@.wf(),
            r@.ctx == ContextView::empty(),
            r@.symtable == SymbolTableView::empty(),
    {
        IrGenContext::new()
    }
}

/// What can be lowered to the intermediate representation.
pub trait IrGen {
    /// Whether the lowering can start in the state `state`.
    spec fn lowerable(&self, state: IrGenContextView) -> bool;

    /// The outcome of the lowering from the state `state`: the state after
    /// it, or why it failed.
    spec fn lowering(&self, state: IrGenContextView) -> Done;

    /// Lowers this node. After a failure the state is sound, but holds
    /// what was lowered until the failure: it is of no use any more.
    fn irgen(&self, irgen: &mut IrGenContext) -> (r: Result<(), SemanticError>)
        requires
            self.lowerable(old(irgen)@),
        ensures
            final(irgen)@.wf(),
            match r {
                Ok(()) => self.lowering(old(irgen)@) == Ok::<IrGenContextView, SemanticError>(
                    final(irgen)@,
                ),
                Err(e) => self.lowering(old(irgen)@) == Err::<IrGenContextView, SemanticError>(e),
            },
    ;
}

impl IrGen for CompUnit {
    /// No function is being lowered.
    open spec fn lowerable(&self, state: IrGenContextView) -> bool {
        &&& state.wf()
        &&& state.curr_func is None
        &&& state.curr_func_name is None
        &&& state.curr_block is None
        &&& state.curr_ret_block is None
        &&& state.curr_ret_slot is None
    }

    open spec fn lowering(&self, state: IrGenContextView) -> Done {
        lower_unit(state, self@)
    }

    fn irgen(&self, irgen: &mut IrGenContext) -> (r: Result<(), SemanticError>) {
        irgen.gen_unit(self)
    }
}

impl IrGen for Item {
    /// The state is one between the items of a program.
    open spec fn lowerable(&self, state: IrGenContextView) -> bool {
        state.at_top()
    }

    open spec fn lowering(&self, state: IrGenContextView) -> Done {
        lower_item(state, self@)
    }

    fn irgen(&self, irgen: &mut IrGenContext) -> (r: Result<(), SemanticError>) {
        irgen.gen_item_top(self)
    }
}

impl IrGen for FuncDef {
    /// The state is one between the items of a program.
    open spec fn lowerable(&self, state: IrGenContextView) -> bool {
        state.at_top()
    }

    open spec fn lowering(&self, state: IrGenContextView) -> Done {
        lower_func(state, self@)
    }

    fn irgen(&self, irgen: &mut IrGenContext) -> (r: Result<(), SemanticError>) {
        irgen.gen_func(self)
    }
}

impl IrGen for Decl {
    /// The state is one of a function body, and the current block is not
    /// closed.
    open spec fn lowerable(&self, state: IrGenContextView) -> bool {
        state.ready()
    }

    open spec fn lowering(&self, state: IrGenContextView) -> Done {
        lower_local_decl(state, self@)
    }

    fn irgen(&self, irgen: &mut IrGenContext) -> (r: Result<(), SemanticError>) {
        irgen.gen_local_decl(self)
    }
}

impl IrGen for Stmt {
    /// The state is one of a function body, and the current block is not
    /// closed.
    open spec fn lowerable(&self, state: IrGenContextView) -> bool {
        state.ready()
    }

    open spec fn lowering(&self, state: IrGenContextView) -> Done {
        lower_stmt(state, self@)
    }

    fn irgen(&self, irgen: &mut IrGenContext) -> (r: Result<(), SemanticError>) {
        irgen.gen_stmt(self)
    }
}

impl IrGen for super::ast::Block {
    /// The state is one of a function body, and the current block is not
    /// closed.
    open spec fn lowerable(&self, state: IrGenContextView) -> bool {
        state.ready()
    }

    open spec fn lowering(&self, state: IrGenContextView) -> Done {
        lower_block(state, self@)
    }

    fn irgen(&self, irgen: &mut IrGenContext) -> (r: Result<(), SemanticError>) {
        irgen.gen_block(self)
    }
}

/// Lowers the analyzed program `ast` to the intermediate representation,
/// for a machine whose addresses have `pointer_width` bits. The program that
/// comes out is well formed, and every block of its functions is closed.
#[verifier::rlimit(40)]
pub fn irgen(ast: &CompUnit, pointer_width: u8) -> (r: Result<Context, SemanticError>)
    ensures
        match r {
            Ok(ctx) => {
                &&& lower_program(ast@, pointer_width as u32) == Ok::<ContextView, SemanticError>(
                    ctx@,
                )
                &&& ctx@.wf()
                &&& ctx@.closed_but(None)
            },
            Err(e) => lower_program(ast@, pointer_width as u32) == Err::<
                ContextView,
                SemanticError,
            >(e),
        },
{
    let mut irgen = IrGenContext::for_target(pointer_width as u32);
    match irgen.gen_unit(ast) {
        Ok(()) => Ok(irgen.finish()),
        Err(e) => Err(e),
    }
}

} // verus!

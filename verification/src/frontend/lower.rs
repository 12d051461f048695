//! What lowering does, stated over the views of the syntax tree and of the
//! state of the lowering.
//!
//! A value of the source language is an `i1` where it is a boolean and an
//! `i32` where it is an integer. Operators compute as constant folding does:
//! arithmetic and comparisons on integers, a bit being widened first, and
//! `&&` and `||` on the truth of their operands. The result is then brought
//! to the type that the analysis gave the expression.

use super::analyze::func_type;
use super::ast::{
    BlockItemView, CompUnitView, ConstDefView, DeclView, ExprKindView, ExprView, FuncDefView,
    FuncFParamView, ItemView, StmtView, VarDefView,
};
use super::error::SemanticError;
use super::fold::fold;
use super::irgen::{IrGenContextView, IrGenResult};
use super::symtable::{SymbolEntryView, SymbolTableView};
use super::types::TypeView;
use super::value::{BinaryOp, ComptimeValView, UnaryOp};
use crate::ir::{
    Block, ConstantValue, ContextView, InstKind, IntBinaryOp, IntCmpCond, TargetInfo, Ty, Value,
};
use vstd::prelude::*;

verus! {

/// The outcome of a step of lowering that gives a value: the state after the
/// step and the value.
pub type Lowered = Result<(IrGenContextView, Value), SemanticError>;

/// The type of the intermediate representation that holds the values of a
/// type of the source language. A function type has none.
pub open spec fn ir_type(ty: TypeView) -> Result<Ty, SemanticError> {
    match ty {
        TypeView::Void => Ok(Ty::Void),
        TypeView::Bool => Ok(Ty::I1),
        TypeView::Int => Ok(Ty::I32),
        TypeView::Func(_, _) => Err(SemanticError::InvalidOperation),
    }
}

/// The constant of the intermediate representation that stands for a value
/// known at compile time.
pub open spec fn ir_constant(value: ComptimeValView) -> Result<ConstantValue, SemanticError> {
    match value {
        ComptimeValView::Bool(b) => Ok(ConstantValue::I1(b)),
        ComptimeValView::Int(i) => Ok(ConstantValue::I32(i)),
        ComptimeValView::Undef(ty) => match ir_type(ty) {
            Ok(ty) => Ok(ConstantValue::Undef(ty)),
            Err(e) => Err(e),
        },
    }
}

/// The operation of the intermediate representation that a binary operator
/// of the source language is computed with.
pub open spec fn ir_binary_op(op: BinaryOp) -> IntBinaryOp {
    match op {
        BinaryOp::Add => IntBinaryOp::Add,
        BinaryOp::Sub => IntBinaryOp::Sub,
        BinaryOp::Mul => IntBinaryOp::Mul,
        BinaryOp::Div => IntBinaryOp::SDiv,
        BinaryOp::Mod => IntBinaryOp::SRem,
        BinaryOp::Lt => IntBinaryOp::ICmp { cond: IntCmpCond::Slt },
        BinaryOp::Gt => IntBinaryOp::ICmp { cond: IntCmpCond::Sgt },
        BinaryOp::Le => IntBinaryOp::ICmp { cond: IntCmpCond::Sle },
        BinaryOp::Ge => IntBinaryOp::ICmp { cond: IntCmpCond::Sge },
        BinaryOp::Eq => IntBinaryOp::ICmp { cond: IntCmpCond::Eq },
        BinaryOp::Ne => IntBinaryOp::ICmp { cond: IntCmpCond::Ne },
        BinaryOp::And => IntBinaryOp::And,
        BinaryOp::Or => IntBinaryOp::Or,
    }
}

/// A new constant.
pub open spec fn lower_const(state: IrGenContextView, value: ComptimeValView) -> Lowered {
    match ir_constant(value) {
        Err(e) => Err(e),
        Ok(c) => Ok((state.constant(c), state.ctx.next_value())),
    }
}

/// The value `v` as an integer: itself where it is one, widened where it is
/// a bit. No other value is an integer.
pub open spec fn widen(state: IrGenContextView, v: Value) -> Lowered {
    match state.ctx.type_of(v) {
        Ty::I32 => Ok((state, v)),
        Ty::I1 => Ok((state.emit(InstKind::ZExt { val: v }), state.ctx.next_value())),
        _ => Err(SemanticError::InvalidOperation),
    }
}

/// The truth of the value `v`: itself where it is a bit, and whether it is
/// other than zero where it is an integer. No other value has a truth.
pub open spec fn truth(state: IrGenContextView, v: Value) -> Lowered {
    match state.ctx.type_of(v) {
        Ty::I1 => Ok((state, v)),
        Ty::I32 => {
            let zero = state.ctx.next_value();
            let with_zero = state.constant(ConstantValue::I32(0));
            Ok(
                (
                    with_zero.emit(
                        InstKind::IBinary {
                            op: IntBinaryOp::ICmp { cond: IntCmpCond::Ne },
                            lhs: v,
                            rhs: zero,
                        },
                    ),
                    with_zero.ctx.next_value(),
                ),
            )
        },
        _ => Err(SemanticError::InvalidOperation),
    }
}

/// The value `v` brought to the type `ty` that the analysis gave an
/// expression: an integer or a boolean.
pub open spec fn bring(state: IrGenContextView, v: Value, ty: Option<TypeView>) -> Lowered {
    match ty {
        Some(TypeView::Int) => widen(state, v),
        Some(TypeView::Bool) => truth(state, v),
        _ => Err(SemanticError::InvalidOperation),
    }
}

/// The value `v` converted to the type `ty` of a coercion.
pub open spec fn convert(state: IrGenContextView, v: Value, ty: Option<TypeView>) -> Lowered {
    match ty {
        Some(TypeView::Int) => widen(state, v),
        Some(TypeView::Bool) => truth(state, v),
        _ => Err(SemanticError::MalformedCoercion),
    }
}

/// Whether the operator works on the truth of its operands.
pub open spec fn is_logical(op: BinaryOp) -> bool {
    op == BinaryOp::And || op == BinaryOp::Or
}

/// A binary operation on the values `lhs` and `rhs`, for an expression of
/// type `ty`: the operands as integers, or as truths for `&&` and `||`; one
/// instruction that computes; the result brought to `ty`.
pub open spec fn lower_binary(
    state: IrGenContextView,
    op: BinaryOp,
    lhs: Value,
    rhs: Value,
    ty: Option<TypeView>,
) -> Lowered {
    let prepared = if is_logical(op) {
        truth(state, lhs)
    } else {
        widen(state, lhs)
    };
    match prepared {
        Err(e) => Err(e),
        Ok((state, a)) => {
            let prepared = if is_logical(op) {
                truth(state, rhs)
            } else {
                widen(state, rhs)
            };
            match prepared {
                Err(e) => Err(e),
                Ok((state, b)) => bring(
                    state.emit(InstKind::IBinary { op: ir_binary_op(op), lhs: a, rhs: b }),
                    state.ctx.next_value(),
                    ty,
                ),
            }
        },
    }
}

/// Whether the value `v` is zero, or false: a comparison of the value with
/// the zero of its type, for equality. Only a bit and an integer have a
/// zero.
pub open spec fn is_zero(state: IrGenContextView, v: Value) -> Lowered {
    let zero = match state.ctx.type_of(v) {
        Ty::I1 => Ok(ConstantValue::I1(false)),
        Ty::I32 => Ok(ConstantValue::I32(0)),
        _ => Err(SemanticError::InvalidOperation),
    };
    match zero {
        Err(e) => Err(e),
        Ok(zero) => {
            let with_zero = state.constant(zero);
            Ok(
                (
                    with_zero.emit(
                        InstKind::IBinary {
                            op: IntBinaryOp::ICmp { cond: IntCmpCond::Eq },
                            lhs: v,
                            rhs: state.ctx.next_value(),
                        },
                    ),
                    with_zero.ctx.next_value(),
                ),
            )
        },
    }
}

/// A unary operation on the value `operand`, for an expression of type
/// `ty`. Negation subtracts the operand, as an integer, from zero. Logical
/// not tells whether the operand is zero, or false.
pub open spec fn lower_unary(
    state: IrGenContextView,
    op: UnaryOp,
    operand: Value,
    ty: Option<TypeView>,
) -> Lowered {
    match op {
        UnaryOp::Neg => match widen(state, operand) {
            Err(e) => Err(e),
            Ok((state, a)) => {
                let zero = state.ctx.next_value();
                let with_zero = state.constant(ConstantValue::I32(0));
                bring(
                    with_zero.emit(InstKind::IBinary { op: IntBinaryOp::Sub, lhs: zero, rhs: a }),
                    with_zero.ctx.next_value(),
                    ty,
                )
            },
        },
        UnaryOp::Not => match is_zero(state, operand) {
            Err(e) => Err(e),
            Ok((state, z)) => bring(state, z, ty),
        },
    }
}

/// The address that a name is bound to: a new value for a global slot, the
/// value itself for a local one.
pub open spec fn slot_of(state: IrGenContextView, binding: IrGenResult) -> (IrGenContextView, Value) {
    match binding {
        IrGenResult::Global(g) => (state.global_ref(g), state.ctx.next_value()),
        IrGenResult::Value(v) => (state, v),
    }
}

/// The value of the variable `name`: what the name is bound to where that is
/// a parameter as it comes in, else what is read from the slot that the name
/// is bound to.
pub open spec fn lower_var(state: IrGenContextView, name: Seq<char>) -> Lowered {
    match state.symtable.lookup(name) {
        None => Err(SemanticError::UnresolvedIdentifier),
        Some(entry) => match entry.ir_value {
            None => Err(SemanticError::InvalidOperation),
            Some(binding) => match ir_type(entry.ty) {
                Err(e) => Err(e),
                Ok(ty) => {
                    let (state, slot) = slot_of(state, binding);
                    if state.ctx.is_param(slot) {
                        Ok((state, slot))
                    } else {
                        Ok((state.emit(InstKind::Load { ptr: slot, ty }), state.ctx.next_value()))
                    }
                },
            },
        },
    }
}

/// The lowering of an expression into the current block: the state after
/// it, and the value of the expression.
///
/// - A constant becomes a constant.
/// - The operands of an operation are lowered from left to right, then the
///   operation.
/// - A variable is read.
/// - A coercion converts the value of the inner expression to its type.
/// - A call cannot be lowered: the intermediate representation has no
///   instruction for it.
pub open spec fn lower_expr(state: IrGenContextView, expr: ExprView) -> Lowered
    decreases expr,
{
    match expr.kind {
        ExprKindView::Const(v) => lower_const(state, v),
        ExprKindView::Binary(op, lhs, rhs) => match lower_expr(state, *lhs) {
            Err(e) => Err(e),
            Ok((state, a)) => match lower_expr(state, *rhs) {
                Err(e) => Err(e),
                Ok((state, b)) => lower_binary(state, op, a, b, expr.ty),
            },
        },
        ExprKindView::Unary(op, operand) => match lower_expr(state, *operand) {
            Err(e) => Err(e),
            Ok((state, a)) => lower_unary(state, op, a, expr.ty),
        },
        ExprKindView::Call(_, _) => Err(SemanticError::InvalidOperation),
        ExprKindView::Var(name) => lower_var(state, name),
        ExprKindView::Coercion(inner) => match lower_expr(state, *inner) {
            Err(e) => Err(e),
            Ok((state, v)) => convert(state, v, expr.ty),
        },
    }
}

/// The outcome of a step of lowering that gives no value: the state after
/// the step.
pub type Done = Result<IrGenContextView, SemanticError>;

/// The lowering of a condition: that of the expression, and the truth of its
/// value.
pub open spec fn lower_cond(state: IrGenContextView, cond: ExprView) -> Lowered {
    match lower_expr(state, cond) {
        Err(e) => Err(e),
        Ok((state, v)) => truth(state, v),
    }
}

/// The lowering of an assignment: the address of the target, then the value,
/// then a store of the value to the address.
pub open spec fn lower_assign(state: IrGenContextView, name: Seq<char>, expr: ExprView) -> Done {
    match state.symtable.lookup(name) {
        None => Err(SemanticError::UnresolvedIdentifier),
        Some(entry) => match entry.ir_value {
            None => Err(SemanticError::InvalidOperation),
            Some(binding) => {
                let (state, slot) = slot_of(state, binding);
                match lower_expr(state, expr) {
                    Err(e) => Err(e),
                    Ok((state, val)) => Ok(state.emit(InstKind::Store { val, ptr: slot })),
                }
            },
        },
    }
}

/// The lowering of a return: the value, if any, is stored to the slot that
/// the function returns from; then the block ends by going to the block
/// through which the function is left.
pub open spec fn lower_return(state: IrGenContextView, expr: Option<ExprView>) -> Done {
    let stored = match expr {
        None => Ok(state),
        Some(expr) => match lower_expr(state, expr) {
            Err(e) => Err(e),
            Ok((state, val)) => match state.curr_ret_slot {
                None => Err(SemanticError::InvalidOperation),
                Some(slot) => Ok(state.emit(InstKind::Store { val, ptr: slot })),
            },
        },
    };
    match stored {
        Err(e) => Err(e),
        Ok(state) => match state.curr_ret_block {
            None => Err(SemanticError::InvalidOperation),
            Some(target) => Ok(state.emit(InstKind::Br { target })),
        },
    }
}

/// The lowering of a jump out of, or to the head of, the innermost loop:
/// the block ends by going to the last of `targets`. Outside a loop there is
/// no such jump.
pub open spec fn lower_jump(state: IrGenContextView, targets: Seq<Block>) -> Done {
    if targets.len() == 0 {
        Err(SemanticError::InvalidOperation)
    } else {
        Ok(state.emit(InstKind::Br { target: targets.last() }))
    }
}

/// The lowering of a statement.
///
/// - `if`: the condition is lowered into the current block, which ends by
///   going to the block of the branch to take. Each branch is lowered into a
///   block of its own, which ends by going on to a common block, where
///   lowering continues. Without an `else`, the common block is where a
///   false condition goes.
/// - `while`: the current block ends by going to a block of its own for the
///   condition, which ends by going to the block of the body or to the block
///   behind the loop. The body ends by going back to the condition. Inside
///   the body `continue` goes to the condition and `break` behind the loop,
///   where lowering continues.
/// - A block that a branch or a body has closed itself, by `return`,
///   `break` or `continue`, is left as closed.
pub open spec fn lower_stmt(state: IrGenContextView, stmt: StmtView) -> Done
    decreases stmt, 0nat,
{
    match stmt {
        StmtView::Assign(name, expr) => lower_assign(state, name, expr),
        StmtView::Expr(None) => Ok(state),
        StmtView::Expr(Some(expr)) => match lower_expr(state, expr) {
            Err(e) => Err(e),
            Ok((state, _)) => Ok(state),
        },
        StmtView::Block(items) => lower_block(state, items),
        StmtView::If(cond, then_stmt, None) => match lower_cond(state, cond) {
            Err(e) => Err(e),
            Ok((state, c)) => {
                let merge_block = state.second_block();
                match lower_stmt(state.fork(c), *then_stmt) {
                    Err(e) => Err(e),
                    Ok(state) => Ok(state.join(merge_block, merge_block)),
                }
            },
        },
        StmtView::If(cond, then_stmt, Some(else_stmt)) => match lower_cond(state, cond) {
            Err(e) => Err(e),
            Ok((state, c)) => {
                let else_block = state.second_block();
                let merge_block = state.third_block();
                match lower_stmt(state.fork_else(c), *then_stmt) {
                    Err(e) => Err(e),
                    Ok(state) => match lower_stmt(state.join(merge_block, else_block), *else_stmt) {
                        Err(e) => Err(e),
                        Ok(state) => Ok(state.join(merge_block, merge_block)),
                    },
                }
            },
        },
        StmtView::While(cond, body) => {
            let cond_block = state.first_block();
            let body_block = state.second_block();
            let exit_block = state.third_block();
            match lower_cond(state.loop_head(), cond) {
                Err(e) => Err(e),
                Ok((state, c)) => {
                    let state = state.emit(
                        InstKind::CondBr { cond: c, then_target: body_block, else_target: exit_block },
                    ).enter_block(body_block).push_loop(cond_block, exit_block);
                    match lower_stmt(state, *body) {
                        Err(e) => Err(e),
                        Ok(state) => Ok(
                            state.close_with(cond_block).pop_loop().enter_block(exit_block),
                        ),
                    }
                },
            }
        },
        StmtView::Break => lower_jump(state, state.loop_exit_stack),
        StmtView::Continue => lower_jump(state, state.loop_entry_stack),
        StmtView::Return(expr) => lower_return(state, expr),
    }
}

/// The lowering of a block: that of its items, in a scope of their own.
pub open spec fn lower_block(state: IrGenContextView, items: Seq<BlockItemView>) -> Done
    decreases items, items.len() + 1,
{
    match lower_items(state.with_symtable(state.symtable.enter()), items, items.len()) {
        Err(e) => Err(e),
        Ok(state) => Ok(state.with_symtable(state.symtable.leave())),
    }
}

/// The lowering of the first `n` items of a block, in order. Once the
/// current block is closed, what follows cannot be reached and is left out.
pub open spec fn lower_items(state: IrGenContextView, items: Seq<BlockItemView>, n: nat) -> Done
    decreases items, n,
{
    if n == 0 || n > items.len() {
        Ok(state)
    } else {
        match lower_items(state, items, (n - 1) as nat) {
            Err(e) => Err(e),
            Ok(state) => if state.closed_now() {
                Ok(state)
            } else {
                match items[n - 1] {
                    BlockItemView::Decl(decl) => lower_local_decl(state, decl),
                    BlockItemView::Stmt(stmt) => lower_stmt(state, stmt),
                }
            },
        }
    }
}

/// The lowering of the definition of a local name with the initializer
/// `init`, whose value at compile time is `comptime` where it is known: a
/// slot is reserved at the front of the entry block of the function, the
/// name is bound to the slot, and the value of the initializer is stored to
/// it in the current block.
pub open spec fn lower_local_def(
    state: IrGenContextView,
    ident: Seq<char>,
    init: ExprView,
    comptime: Option<ComptimeValView>,
) -> Done {
    match init.ty {
        None => Err(SemanticError::InvalidOperation),
        Some(ty) => match ir_type(ty) {
            Err(e) => Err(e),
            Ok(ir_ty) => {
                let slot = state.ctx.next_value();
                let state = state.emit_front(InstKind::Alloca { ty: ir_ty });
                let state = state.with_symtable(
                    state.symtable.insert(
                        ident,
                        SymbolEntryView {
                            ty,
                            comptime,
                            ir_value: Some(IrGenResult::Value(slot)),
                        },
                    ),
                );
                match lower_expr(state, init) {
                    Err(e) => Err(e),
                    Ok((state, val)) => Ok(state.emit(InstKind::Store { val, ptr: slot })),
                }
            },
        },
    }
}

/// The lowering of the definition of a local constant: its initializer has
/// a value at compile time, which the name carries.
pub open spec fn lower_local_const(state: IrGenContextView, def: ConstDefView) -> Done {
    match fold(def.init, state.symtable.scopes) {
        Err(e) => Err(e),
        Ok(None) => Err(SemanticError::NonConstantInitializer),
        Ok(Some(value)) => lower_local_def(state, def.ident, def.init, Some(value)),
    }
}

/// The lowering of the definition of a local variable. The analysis has
/// given every variable an initializer.
pub open spec fn lower_local_var(state: IrGenContextView, def: VarDefView) -> Done {
    match def.init {
        None => Err(SemanticError::InvalidOperation),
        Some(init) => lower_local_def(state, def.ident, init, None),
    }
}

/// The lowering of the first `n` definitions of a local declaration of
/// constants.
pub open spec fn lower_local_consts(state: IrGenContextView, defs: Seq<ConstDefView>, n: nat) -> Done
    decreases n,
{
    if n == 0 || n > defs.len() {
        Ok(state)
    } else {
        match lower_local_consts(state, defs, (n - 1) as nat) {
            Err(e) => Err(e),
            Ok(state) => lower_local_const(state, defs[n - 1]),
        }
    }
}

/// The lowering of the first `n` definitions of a local declaration of
/// variables.
pub open spec fn lower_local_vars(state: IrGenContextView, defs: Seq<VarDefView>, n: nat) -> Done
    decreases n,
{
    if n == 0 || n > defs.len() {
        Ok(state)
    } else {
        match lower_local_vars(state, defs, (n - 1) as nat) {
            Err(e) => Err(e),
            Ok(state) => lower_local_var(state, defs[n - 1]),
        }
    }
}

/// The lowering of a declaration inside a function.
pub open spec fn lower_local_decl(state: IrGenContextView, decl: DeclView) -> Done {
    match decl {
        DeclView::Const(_, defs) => lower_local_consts(state, defs, defs.len()),
        DeclView::Var(_, defs) => lower_local_vars(state, defs, defs.len()),
    }
}

/// The lowering of the definition of a global name with the initializer
/// `init`: the initializer has a value at compile time; a global slot, named
/// by `prefix` and the name, starts with that value; and the name is bound
/// to the slot and carries the value.
pub open spec fn lower_global_def(
    state: IrGenContextView,
    prefix: Seq<char>,
    ident: Seq<char>,
    init: ExprView,
) -> Done {
    match fold(init, state.symtable.scopes) {
        Err(e) => Err(e),
        Ok(None) => Err(SemanticError::NonConstantInitializer),
        Ok(Some(value)) => match ir_constant(value) {
            Err(e) => Err(e),
            Ok(constant) => match init.ty {
                None => Err(SemanticError::InvalidOperation),
                Some(ty) => Ok(
                    state.with_ctx(state.ctx.add_global(prefix + ident, constant)).with_symtable(
                        state.symtable.insert(
                            ident,
                            SymbolEntryView {
                                ty,
                                comptime: Some(value),
                                ir_value: Some(IrGenResult::Global(state.ctx.next_global())),
                            },
                        ),
                    ),
                ),
            },
        },
    }
}

/// What the name of the slot of a global constant begins with.
pub open spec fn const_prefix() -> Seq<char> {
    "__GLOBAL_CONST_"@
}

/// What the name of the slot of a global variable begins with.
pub open spec fn var_prefix() -> Seq<char> {
    "__GLOBAL_VAR_"@
}

/// The lowering of the definition of a global variable. The analysis has
/// given every variable an initializer.
pub open spec fn lower_global_var(state: IrGenContextView, def: VarDefView) -> Done {
    match def.init {
        None => Err(SemanticError::InvalidOperation),
        Some(init) => lower_global_def(state, var_prefix(), def.ident, init),
    }
}

/// The lowering of the first `n` definitions of a global declaration of
/// constants.
pub open spec fn lower_global_consts(state: IrGenContextView, defs: Seq<ConstDefView>, n: nat) -> Done
    decreases n,
{
    if n == 0 || n > defs.len() {
        Ok(state)
    } else {
        match lower_global_consts(state, defs, (n - 1) as nat) {
            Err(e) => Err(e),
            Ok(state) => lower_global_def(state, const_prefix(), defs[n - 1].ident, defs[n - 1].init),
        }
    }
}

/// The lowering of the first `n` definitions of a global declaration of
/// variables.
pub open spec fn lower_global_vars(state: IrGenContextView, defs: Seq<VarDefView>, n: nat) -> Done
    decreases n,
{
    if n == 0 || n > defs.len() {
        Ok(state)
    } else {
        match lower_global_vars(state, defs, (n - 1) as nat) {
            Err(e) => Err(e),
            Ok(state) => lower_global_var(state, defs[n - 1]),
        }
    }
}

/// The lowering of a declaration at the top level.
pub open spec fn lower_global_decl(state: IrGenContextView, decl: DeclView) -> Done {
    match decl {
        DeclView::Const(_, defs) => lower_global_consts(state, defs, defs.len()),
        DeclView::Var(_, defs) => lower_global_vars(state, defs, defs.len()),
    }
}

/// The state at the start of the lowering of a function named `name` that
/// returns a value of type `ret_ty`: in a new scope, with the function's own
/// name bound to `entry` in the scope around it; the function is new, and a
/// new block is its entry block and the current block.
pub open spec fn begin_func(
    state: IrGenContextView,
    name: Seq<char>,
    ret_ty: Ty,
    entry: SymbolEntryView,
) -> IrGenContextView {
    let func = state.ctx.next_func();
    let block = state.ctx.next_block();
    IrGenContextView {
        ctx: state.ctx.add_func(name, ret_ty).add_block().append_block(func, block),
        symtable: state.symtable.enter().insert_upper(name, entry, 1),
        curr_func: Some(func),
        curr_func_name: Some(name),
        curr_block: Some(block),
        ..state
    }
}

/// The declaring of a parameter: the function being lowered gets one more
/// parameter, and the name is bound to the value that comes in.
pub open spec fn declare_param(state: IrGenContextView, param: FuncFParamView) -> Lowered {
    match ir_type(param.ty) {
        Err(e) => Err(e),
        Ok(ty) => Ok(
            (
                state.with_ctx(state.ctx.add_param(state.func(), ty)).with_symtable(
                    state.symtable.insert(
                        param.ident,
                        SymbolEntryView {
                            ty: param.ty,
                            comptime: None,
                            ir_value: Some(IrGenResult::Value(state.ctx.next_value())),
                        },
                    ),
                ),
                state.ctx.next_value(),
            ),
        ),
    }
}

/// The declaring of the first `n` parameters, in order: the state, and the
/// values that come in.
pub open spec fn declare_params(state: IrGenContextView, params: Seq<FuncFParamView>, n: nat) -> Result<
    (IrGenContextView, Seq<Value>),
    SemanticError,
>
    decreases n,
{
    if n == 0 || n > params.len() {
        Ok((state, Seq::empty()))
    } else {
        match declare_params(state, params, (n - 1) as nat) {
            Err(e) => Err(e),
            Ok((state, values)) => match declare_param(state, params[n - 1]) {
                Err(e) => Err(e),
                Ok((state, value)) => Ok((state, values.push(value))),
            },
        }
    }
}

/// The giving of a slot to a parameter that is an integer or a boolean: a
/// slot is reserved at the front of the entry block, the value `value` that
/// comes in is stored to it, and the name is bound to the slot. Any other
/// parameter stays bound to the value that comes in.
pub open spec fn slot_param(state: IrGenContextView, param: FuncFParamView, value: Value) -> IrGenContextView {
    match ir_type(param.ty) {
        Ok(ty) => if param.ty.is_scalar() {
            let slot = state.ctx.next_value();
            let state = state.emit_front(InstKind::Alloca { ty }).emit(
                InstKind::Store { val: value, ptr: slot },
            );
            state.with_symtable(
                state.symtable.insert(
                    param.ident,
                    SymbolEntryView {
                        ty: param.ty,
                        comptime: None,
                        ir_value: Some(IrGenResult::Value(slot)),
                    },
                ),
            )
        } else {
            state
        },
        Err(_) => state,
    }
}

/// The giving of slots to the first `n` parameters, in order.
pub open spec fn slot_params(
    state: IrGenContextView,
    params: Seq<FuncFParamView>,
    values: Seq<Value>,
    n: nat,
) -> IrGenContextView
    decreases n,
{
    if n == 0 || n > params.len() {
        state
    } else {
        slot_param(slot_params(state, params, values, (n - 1) as nat), params[n - 1], values[n - 1])
    }
}

/// The state with what a function is left through: a new block, which no
/// function holds yet, and, unless the function returns nothing, a slot for
/// the value that it returns, reserved at the front of the entry block.
pub open spec fn begin_ret(state: IrGenContextView, ret_ty: Ty) -> IrGenContextView {
    let state = IrGenContextView {
        curr_ret_block: Some(state.ctx.next_block()),
        ..state.new_block()
    };
    if ret_ty == Ty::Void {
        state
    } else {
        IrGenContextView {
            curr_ret_slot: Some(state.ctx.next_value()),
            ..state.emit_front(InstKind::Alloca { ty: ret_ty })
        }
    }
}

/// The state at the end of the lowering of a function: the current block,
/// where it is not closed yet, goes to the block that the function is left
/// through, which becomes the last block of the function; there the value
/// that the function returns is read from its slot, and the function is
/// left. Then no function is being lowered any more, and the scope of the
/// function is left.
pub open spec fn end_func(state: IrGenContextView, ret_ty: Ty) -> IrGenContextView {
    let ret_block = state.curr_ret_block.unwrap();
    let state = IrGenContextView { curr_ret_block: None, ..state.close_with(ret_block) }.enter_block(
        ret_block,
    );
    let state = match state.curr_ret_slot {
        Some(slot) => {
            let value = state.ctx.next_value();
            state.emit(InstKind::Load { ptr: slot, ty: ret_ty }).emit(
                InstKind::Ret { value: Some(value) },
            )
        },
        None => state.emit(InstKind::Ret { value: None }),
    };
    IrGenContextView {
        symtable: state.symtable.leave(),
        curr_func: None,
        curr_func_name: None,
        curr_block: None,
        curr_ret_slot: None,
        curr_ret_block: None,
        ..state
    }
}

/// The lowering of what lies between the start and the end of a function:
/// the parameters are declared and given their slots, what the function is
/// left through is made, and the body is lowered.
pub open spec fn lower_func_body(state: IrGenContextView, def: FuncDefView, ret_ty: Ty) -> Done {
    match declare_params(state, def.params, def.params.len()) {
        Err(e) => Err(e),
        Ok((state, values)) => lower_block(
            begin_ret(slot_params(state, def.params, values, def.params.len()), ret_ty),
            def.body,
        ),
    }
}

/// The lowering of the definition of a function.
///
/// The function gets an entry block. Every parameter is declared, and every
/// parameter that is an integer or a boolean gets a slot, to which the value
/// that comes in is stored, so that it is read and written as a local
/// variable is. The body is lowered; every `return` of it, and its end, goes
/// to one block, which is the last of the function and the only one that
/// leaves it.
pub open spec fn lower_func(state: IrGenContextView, def: FuncDefView) -> Done {
    match ir_type(def.ret_ty) {
        Err(e) => Err(e),
        Ok(ret_ty) => match lower_func_body(
            begin_func(
                state,
                def.ident,
                ret_ty,
                SymbolEntryView::from_ty(func_type(def.params, def.ret_ty)),
            ),
            def,
            ret_ty,
        ) {
            Err(e) => Err(e),
            Ok(state) => Ok(end_func(state, ret_ty)),
        },
    }
}

/// The lowering of an item at the top level.
pub open spec fn lower_item(state: IrGenContextView, item: ItemView) -> Done {
    match item {
        ItemView::Decl(decl) => lower_global_decl(state, decl),
        ItemView::FuncDef(def) => lower_func(state, def),
    }
}

/// The lowering of the first `n` items of a program, in order.
pub open spec fn lower_top(state: IrGenContextView, items: Seq<ItemView>, n: nat) -> Done
    decreases n,
{
    if n == 0 || n > items.len() {
        Ok(state)
    } else {
        match lower_top(state, items, (n - 1) as nat) {
            Err(e) => Err(e),
            Ok(state) => lower_item(state, items[n - 1]),
        }
    }
}

/// The lowering of a whole program: that of its items, in order, in one
/// global scope.
pub open spec fn lower_unit(state: IrGenContextView, unit: CompUnitView) -> Done {
    match lower_top(state.with_symtable(state.symtable.enter()), unit.items, unit.items.len()) {
        Err(e) => Err(e),
        Ok(state) => Ok(state.with_symtable(state.symtable.leave())),
    }
}

/// The state before anything is lowered, for a machine whose addresses have
/// `ptr_size` bits.
pub open spec fn initial_state(ptr_size: u32) -> IrGenContextView {
    IrGenContextView {
        ctx: ContextView { target: TargetInfo { ptr_size }, ..ContextView::empty() },
        symtable: SymbolTableView::empty(),
        curr_func: None,
        curr_func_name: None,
        curr_block: None,
        loop_entry_stack: Seq::empty(),
        loop_exit_stack: Seq::empty(),
        curr_ret_slot: None,
        curr_ret_block: None,
    }
}

/// The program that a whole program is lowered to, for a machine whose
/// addresses have `ptr_size` bits.
pub open spec fn lower_program(unit: CompUnitView, ptr_size: u32) -> Result<
    ContextView,
    SemanticError,
> {
    match lower_unit(initial_state(ptr_size), unit) {
        Err(e) => Err(e),
        Ok(state) => Ok(state.ctx),
    }
}

/// Folding and lowering agree. An expression as the parser makes it, with
/// no type yet unless it is a constant with its type, is a constant after
/// the analysis
/// wherever it has a value at compile time; and the lowering of it is that
/// constant and nothing else: no instruction is made, and the value that
/// the lowering gives is the constant that stands for the folded value.
pub proof fn lemma_folded_is_lowered_as_constant(
    state: IrGenContextView,
    expr: ExprView,
    expect: Option<TypeView>,
    analyzed: ExprView,
    value: ComptimeValView,
)
    requires
        expr.ty is None || (expr.kind matches ExprKindView::Const(v) && expr == ExprView::constant(v)),
        super::typeck::check_expr(expr, expect, state.symtable.scopes) == Ok::<
            ExprView,
            SemanticError,
        >(analyzed),
        fold(analyzed, state.symtable.scopes) == Ok::<Option<ComptimeValView>, SemanticError>(
            Some(value),
        ),
    ensures
        analyzed == ExprView::constant(value),
        lower_expr(state, analyzed) == lower_const(state, value),
        ir_constant(value) matches Ok(constant) ==> {
            &&& lower_expr(state, analyzed) == Ok::<(IrGenContextView, Value), SemanticError>(
                (state.constant(constant), state.ctx.next_value()),
            )
            &&& state.constant(constant).ctx.insts == state.ctx.insts
            &&& state.constant(constant).ctx.values.last() == (crate::ir::ValueData {
                ty: constant.ty_of(),
                kind: crate::ir::ValueKind::Constant(constant),
            })
        },
{
    let scopes = state.symtable.scopes;
    if expr.ty is Some && expect is None {
        assert(analyzed == expr);
    } else {
        let typed = super::typeck::natural(expr, scopes)->Ok_0;
        let coerced = super::typeck::expected(typed, expect)->Ok_0;
        assert(analyzed == super::typeck::folded_expr(coerced, scopes)->Ok_0);
    }
}

/// Once the lowering of the items of a block has failed, it stays failed
/// however many more items are looked at.
pub proof fn lemma_lower_items_failed(
    state: IrGenContextView,
    items: Seq<BlockItemView>,
    n: nat,
    m: nat,
)
    requires
        1 <= n <= m <= items.len(),
        lower_items(state, items, n) is Err,
    ensures
        lower_items(state, items, m) == lower_items(state, items, n),
    decreases m,
{
    if n < m {
        lemma_lower_items_failed(state, items, n, (m - 1) as nat);
    }
}

/// Once the lowering of local constants has failed, it stays failed.
pub proof fn lemma_lower_local_consts_failed(
    state: IrGenContextView,
    defs: Seq<ConstDefView>,
    n: nat,
    m: nat,
)
    requires
        1 <= n <= m <= defs.len(),
        lower_local_consts(state, defs, n) is Err,
    ensures
        lower_local_consts(state, defs, m) == lower_local_consts(state, defs, n),
    decreases m,
{
    if n < m {
        lemma_lower_local_consts_failed(state, defs, n, (m - 1) as nat);
    }
}

/// Once the lowering of local variables has failed, it stays failed.
pub proof fn lemma_lower_local_vars_failed(
    state: IrGenContextView,
    defs: Seq<VarDefView>,
    n: nat,
    m: nat,
)
    requires
        1 <= n <= m <= defs.len(),
        lower_local_vars(state, defs, n) is Err,
    ensures
        lower_local_vars(state, defs, m) == lower_local_vars(state, defs, n),
    decreases m,
{
    if n < m {
        lemma_lower_local_vars_failed(state, defs, n, (m - 1) as nat);
    }
}

/// Once the lowering of global constants has failed, it stays failed.
pub proof fn lemma_lower_global_consts_failed(
    state: IrGenContextView,
    defs: Seq<ConstDefView>,
    n: nat,
    m: nat,
)
    requires
        1 <= n <= m <= defs.len(),
        lower_global_consts(state, defs, n) is Err,
    ensures
        lower_global_consts(state, defs, m) == lower_global_consts(state, defs, n),
    decreases m,
{
    if n < m {
        lemma_lower_global_consts_failed(state, defs, n, (m - 1) as nat);
    }
}

/// Once the lowering of global variables has failed, it stays failed.
pub proof fn lemma_lower_global_vars_failed(
    state: IrGenContextView,
    defs: Seq<VarDefView>,
    n: nat,
    m: nat,
)
    requires
        1 <= n <= m <= defs.len(),
        lower_global_vars(state, defs, n) is Err,
    ensures
        lower_global_vars(state, defs, m) == lower_global_vars(state, defs, n),
    decreases m,
{
    if n < m {
        lemma_lower_global_vars_failed(state, defs, n, (m - 1) as nat);
    }
}

/// Once the declaring of parameters has failed, it stays failed.
pub proof fn lemma_declare_params_failed(
    state: IrGenContextView,
    params: Seq<FuncFParamView>,
    n: nat,
    m: nat,
)
    requires
        1 <= n <= m <= params.len(),
        declare_params(state, params, n) is Err,
    ensures
        declare_params(state, params, m) == declare_params(state, params, n),
    decreases m,
{
    if n < m {
        lemma_declare_params_failed(state, params, n, (m - 1) as nat);
    }
}

/// Once the lowering of the items of a program has failed, it stays failed.
pub proof fn lemma_lower_top_failed(state: IrGenContextView, items: Seq<ItemView>, n: nat, m: nat)
    requires
        1 <= n <= m <= items.len(),
        lower_top(state, items, n) is Err,
    ensures
        lower_top(state, items, m) == lower_top(state, items, n),
    decreases m,
{
    if n < m {
        lemma_lower_top_failed(state, items, n, (m - 1) as nat);
    }
}

} // verus!

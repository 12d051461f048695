//! Folding and lowering agree.
//!
//! A constant expression is one made of constants, operators and coercions.
//! Lowering computes it with instructions, and brings the result of every
//! operation to the type that the operation has. The value that comes out,
//! whenever the program runs, is the value that folding gives, as long as no
//! operation that was typed as a boolean has a value other than true, false,
//! `1` and `0`.
//!
//! This is stated in two parts. The lowering of an expression promises that
//! the value it gives is [`computed`] of the expression, where that is
//! defined; and [`lemma_computed_is_folded`] shows that `computed` is what
//! the expression folds to.

use super::ast::{ExprKindView, ExprView};
use super::error::SemanticError;
use super::fold::{coerce_value, fold};
use super::symtable::SymbolEntryView;
use super::types::TypeView;
use super::lower::{ir_binary_op, is_logical};
use super::value::{apply_binary, apply_unary, BinaryOp, ComptimeValView, UnaryOp};
use crate::arith::{bit, fits_int, lemma_wrap32_fits};
use crate::ir::{eval_ibinary, ConstantValue, ContextView, IntBinaryOp, Ty, Value};
use vstd::prelude::*;

verus! {

/// The value of the source language that the integer `x` is as a value of
/// type `ty` of the program: a boolean for a bit and an integer for a 32-bit
/// integer.
pub open spec fn typed_value(ty: Ty, x: int) -> Option<ComptimeValView> {
    match ty {
        Ty::I1 => if x == 0 || x == 1 {
            Some(ComptimeValView::Bool(x == 1))
        } else {
            None
        },
        Ty::I32 => if fits_int(x) {
            Some(ComptimeValView::Int(x as i32))
        } else {
            None
        },
        _ => None,
    }
}

/// The value of the source language that the value `v` is whenever the
/// program runs, where it is computed from constants alone.
pub open spec fn value_of(ctx: ContextView, v: Value) -> Option<ComptimeValView> {
    match ctx.denotes(v) {
        None => None,
        Some(x) => typed_value(ctx.type_of(v), x),
    }
}

/// The constant of the source language that a constant of the program is.
pub open spec fn constant_value(constant: ConstantValue) -> Option<ComptimeValView> {
    match constant {
        ConstantValue::I1(b) => Some(ComptimeValView::Bool(b)),
        ConstantValue::I32(i) => Some(ComptimeValView::Int(i)),
        ConstantValue::Undef(_) => None,
    }
}

/// The machine computes what the operators of the language say. Where a
/// binary operator has a result on two values, the operation that it is
/// lowered to has that result on the operands as lowering prepares them: as
/// integers, or as truths for `&&` and `||`.
pub proof fn lemma_machine_binary(op: BinaryOp, a: ComptimeValView, b: ComptimeValView)
    requires
        !(a is Undef),
        !(b is Undef),
        apply_binary(op, a, b) is Ok,
    ensures
        !is_logical(op) ==> {
            let result = eval_ibinary(ir_binary_op(op), Ty::I32, a.as_int(), b.as_int());
            &&& result is Some
            &&& typed_value(
                if ir_binary_op(op) is ICmp {
                    Ty::I1
                } else {
                    Ty::I32
                },
                result->Some_0,
            ) == Some(apply_binary(op, a, b)->Ok_0)
        },
        is_logical(op) ==> {
            let result = eval_ibinary(ir_binary_op(op), Ty::I1, bit(a.truthy()), bit(b.truthy()));
            &&& result is Some
            &&& typed_value(Ty::I1, result->Some_0) == Some(apply_binary(op, a, b)->Ok_0)
        },
{
    let x = a.as_int();
    let y = b.as_int();
    match op {
        BinaryOp::Add => {
            lemma_wrap32_fits(x + y);
        },
        BinaryOp::Sub => {
            lemma_wrap32_fits(x - y);
        },
        BinaryOp::Mul => {
            lemma_wrap32_fits(x * y);
        },
        BinaryOp::Mod => {
            super::value::lemma_trunc_rem_fits(x, y);
        },
        _ => {},
    }
}

/// Where negation has a result on a value, subtracting the value from zero
/// on the machine has that result.
pub proof fn lemma_machine_negation(a: ComptimeValView)
    requires
        !(a is Undef),
        apply_unary(UnaryOp::Neg, a) is Ok,
    ensures
        eval_ibinary(IntBinaryOp::Sub, Ty::I32, 0, a.as_int()) matches Some(x) && typed_value(
            Ty::I32,
            x,
        ) == Some(apply_unary(UnaryOp::Neg, a)->Ok_0),
{
    lemma_wrap32_fits(0 - a.as_int());
}

/// The outcome of an operator brought to the type `ty`, where there is one.
pub open spec fn brought(
    outcome: Result<ComptimeValView, SemanticError>,
    ty: Option<TypeView>,
) -> Option<ComptimeValView> {
    match outcome {
        Err(_) => None,
        Ok(c) => match coerce_value(c, ty) {
            Ok(b) => Some(b),
            Err(_) => None,
        },
    }
}

/// The value that the lowering of a constant expression computes: that of
/// folding, with the result of every operation brought to the type of the
/// operation. Nothing for an expression that is not constant, or that has a
/// part without a value.
pub open spec fn computed(expr: ExprView) -> Option<ComptimeValView>
    decreases expr,
{
    match expr.kind {
        ExprKindView::Const(v) => if v is Undef {
            None
        } else {
            Some(v)
        },
        ExprKindView::Binary(op, lhs, rhs) => match (computed(*lhs), computed(*rhs)) {
            (Some(a), Some(b)) => brought(apply_binary(op, a, b), expr.ty),
            _ => None,
        },
        ExprKindView::Unary(op, operand) => match computed(*operand) {
            Some(a) => brought(apply_unary(op, a), expr.ty),
            None => None,
        },
        ExprKindView::Coercion(inner) => match computed(*inner) {
            Some(a) => brought(Ok(a), expr.ty),
            None => None,
        },
        _ => None,
    }
}

/// Whether an expression is made of defined constants, operators and
/// coercions alone.
pub open spec fn constant_expr(expr: ExprView) -> bool
    decreases expr,
{
    match expr.kind {
        ExprKindView::Const(v) => !(v is Undef),
        ExprKindView::Binary(_, lhs, rhs) => constant_expr(*lhs) && constant_expr(*rhs),
        ExprKindView::Unary(_, operand) => constant_expr(*operand),
        ExprKindView::Coercion(inner) => constant_expr(*inner),
        _ => false,
    }
}

/// Whether bringing the folded value of any operation of a constant
/// expression to the type of the operation leaves it the value that it is:
/// every operation is typed as an integer or as a boolean, and one typed as
/// a boolean has a truth value.
pub open spec fn values_keep(expr: ExprView) -> bool
    decreases expr,
{
    let kept = match fold(expr, Seq::empty()) {
        Ok(Some(c)) => brought(Ok(c), expr.ty) matches Some(b) && b.same_value(c),
        _ => true,
    };
    match expr.kind {
        ExprKindView::Const(_) => true,
        ExprKindView::Binary(_, lhs, rhs) => values_keep(*lhs) && values_keep(*rhs) && kept,
        ExprKindView::Unary(_, operand) => values_keep(*operand) && kept,
        ExprKindView::Coercion(inner) => values_keep(*inner) && kept,
        _ => true,
    }
}

/// What a constant expression folds to does not depend on the names in
/// scope.
pub proof fn lemma_constant_fold(expr: ExprView, scopes: Seq<Map<Seq<char>, SymbolEntryView>>)
    requires
        constant_expr(expr),
    ensures
        fold(expr, scopes) == fold(expr, Seq::empty()),
        !(fold(expr, scopes) matches Ok(None)),
        !(fold(expr, scopes) matches Ok(Some(ComptimeValView::Undef(_)))),
    decreases expr,
{
    match expr.kind {
        ExprKindView::Binary(_, lhs, rhs) => {
            lemma_constant_fold(*lhs, scopes);
            lemma_constant_fold(*rhs, scopes);
        },
        ExprKindView::Unary(_, operand) => {
            lemma_constant_fold(*operand, scopes);
        },
        ExprKindView::Coercion(inner) => {
            lemma_constant_fold(*inner, scopes);
        },
        _ => {},
    }
}

/// An operator does not tell an operand from another that is the same
/// value.
pub proof fn lemma_same_operands(
    binary: super::value::BinaryOp,
    unary: super::value::UnaryOp,
    a: ComptimeValView,
    same_a: ComptimeValView,
    b: ComptimeValView,
    same_b: ComptimeValView,
    ty: Option<TypeView>,
)
    requires
        a.same_value(same_a),
        b.same_value(same_b),
    ensures
        apply_binary(binary, a, b) == apply_binary(binary, same_a, same_b),
        apply_unary(unary, a) == apply_unary(unary, same_a),
        coerce_value(a, ty) == coerce_value(same_a, ty),
{
}

/// Folding and lowering agree: what the lowering of a constant expression
/// computes is the value that the expression folds to, as long as bringing
/// the value of every operation to the type of the operation leaves it the
/// value that it is.
pub proof fn lemma_computed_is_folded(
    expr: ExprView,
    scopes: Seq<Map<Seq<char>, SymbolEntryView>>,
    folded: ComptimeValView,
)
    requires
        constant_expr(expr),
        values_keep(expr),
        fold(expr, scopes) == Ok::<Option<ComptimeValView>, SemanticError>(Some(folded)),
    ensures
        computed(expr) matches Some(c) && c.same_value(folded),
    decreases expr,
{
    lemma_constant_fold(expr, scopes);
    match expr.kind {
        ExprKindView::Binary(op, lhs, rhs) => {
            lemma_constant_fold(*lhs, scopes);
            lemma_constant_fold(*rhs, scopes);
            let a = fold(*lhs, scopes)->Ok_0->Some_0;
            let b = fold(*rhs, scopes)->Ok_0->Some_0;
            lemma_computed_is_folded(*lhs, scopes, a);
            lemma_computed_is_folded(*rhs, scopes, b);
            lemma_same_operands(
                op,
                super::value::UnaryOp::Neg,
                computed(*lhs)->Some_0,
                a,
                computed(*rhs)->Some_0,
                b,
                expr.ty,
            );
        },
        ExprKindView::Unary(op, operand) => {
            lemma_constant_fold(*operand, scopes);
            let a = fold(*operand, scopes)->Ok_0->Some_0;
            lemma_computed_is_folded(*operand, scopes, a);
            lemma_same_operands(
                super::value::BinaryOp::Add,
                op,
                computed(*operand)->Some_0,
                a,
                a,
                a,
                expr.ty,
            );
        },
        ExprKindView::Coercion(inner) => {
            lemma_constant_fold(*inner, scopes);
            let a = fold(*inner, scopes)->Ok_0->Some_0;
            lemma_computed_is_folded(*inner, scopes, a);
            lemma_same_operands(
                super::value::BinaryOp::Add,
                super::value::UnaryOp::Neg,
                computed(*inner)->Some_0,
                a,
                a,
                a,
                expr.ty,
            );
        },
        _ => {},
    }
}

} // verus!

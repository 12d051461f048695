//! Constant folding: the value of an expression, where it is known at
//! compile time.

use super::ast::{Expr, ExprKind, ExprKindView, ExprView};
use super::error::SemanticError;
use super::symtable::{lookup_in, SymbolEntryView, SymbolTable};
use super::types::{TypeKind, TypeView};
use super::value::{apply_binary, apply_unary, ComptimeVal, ComptimeValView};
use vstd::prelude::*;

verus! {

/// The value `value` converted to the type `to`: to a boolean that tells
/// whether the value counts as true, or to an integer. An undefined value
/// cannot be converted, and no other type has values to convert to.
pub open spec fn coerce_value(value: ComptimeValView, to: Option<TypeView>) -> Result<
    ComptimeValView,
    SemanticError,
> {
    match to {
        Some(TypeView::Bool) => if value is Undef {
            Err(SemanticError::InvalidOperation)
        } else {
            Ok(ComptimeValView::Bool(value.truthy()))
        },
        Some(TypeView::Int) => if value is Undef {
            Err(SemanticError::InvalidOperation)
        } else {
            Ok(ComptimeValView::Int(value.as_int() as i32))
        },
        _ => Err(SemanticError::MalformedCoercion),
    }
}

/// The outcome of an operator as the outcome of folding.
pub open spec fn folded(outcome: Result<ComptimeValView, SemanticError>) -> Result<
    Option<ComptimeValView>,
    SemanticError,
> {
    match outcome {
        Ok(v) => Ok(Some(v)),
        Err(e) => Err(e),
    }
}

/// The value of `expr` at compile time, with the names resolved in `scopes`.
///
/// `Ok(Some(v))`: the expression is constant and has the value `v`.
/// `Ok(None)`: the expression is not constant. `Err(e)`: the expression is
/// defective.
///
/// - A constant folds to itself.
/// - An operation folds where its operands fold, from left to right, to the
///   result of the operator on their values.
/// - A call never folds.
/// - A variable folds to the value that its entry carries, if any.
/// - A coercion folds where the inner expression folds, to the value
///   converted to the type of the coercion.
pub open spec fn fold(expr: ExprView, scopes: Seq<Map<Seq<char>, SymbolEntryView>>) -> Result<
    Option<ComptimeValView>,
    SemanticError,
>
    decreases expr,
{
    match expr.kind {
        ExprKindView::Const(v) => Ok(Some(v)),
        ExprKindView::Binary(op, lhs, rhs) => match fold(*lhs, scopes) {
            Ok(Some(a)) => match fold(*rhs, scopes) {
                Ok(Some(b)) => folded(apply_binary(op, a, b)),
                other => other,
            },
            other => other,
        },
        ExprKindView::Unary(op, operand) => match fold(*operand, scopes) {
            Ok(Some(a)) => folded(apply_unary(op, a)),
            other => other,
        },
        ExprKindView::Call(_, _) => Ok(None),
        ExprKindView::Var(name) => match lookup_in(scopes, name) {
            Some(entry) => Ok(entry.comptime),
            None => Err(SemanticError::UnresolvedIdentifier),
        },
        ExprKindView::Coercion(inner) => match fold(*inner, scopes) {
            Ok(Some(v)) => folded(coerce_value(v, expr.ty)),
            other => other,
        },
    }
}

/// What an outcome of folding holds.
pub open spec fn fold_view(outcome: Result<Option<ComptimeVal>, SemanticError>) -> Result<
    Option<ComptimeValView>,
    SemanticError,
> {
    match outcome {
        Ok(Some(v)) => Ok(Some(v@)),
        Ok(None) => Ok(None),
        Err(e) => Err(e),
    }
}

/// The outcome of an operator as the outcome of folding.
fn fold_of(outcome: Result<ComptimeVal, SemanticError>) -> (r: Result<
    Option<ComptimeVal>,
    SemanticError,
>)
    ensures
        fold_view(r) == folded(super::value::view_result(outcome)),
{
    match outcome {
        Ok(v) => Ok(Some(v)),
        Err(e) => Err(e),
    }
}

impl ComptimeVal {
    /// The value converted to the type `to`.
    pub fn coerce(&self, to: Option<&super::types::Type>) -> (r: Result<ComptimeVal, SemanticError>)
        ensures
            super::value::view_result(r) == coerce_value(
                self@,
                match to {
                    Some(t) => Some(t@),
                    None => None,
                },
            ),
    {
        let kind = match to {
            Some(t) => t.kind(),
            None => { return Err(SemanticError::MalformedCoercion); },
        };
        match kind {
            TypeKind::Bool => match self {
                ComptimeVal::Bool(b) => Ok(ComptimeVal::Bool(*b)),
                ComptimeVal::Int(i) => Ok(ComptimeVal::Bool(*i != 0)),
                ComptimeVal::Undef(_) => Err(SemanticError::InvalidOperation),
            },
            TypeKind::Int => match self {
                ComptimeVal::Bool(b) => Ok(ComptimeVal::Int(if *b { 1 } else { 0 })),
                ComptimeVal::Int(i) => Ok(ComptimeVal::Int(*i)),
                ComptimeVal::Undef(_) => Err(SemanticError::InvalidOperation),
            },
            TypeKind::Void => Err(SemanticError::MalformedCoercion),
            TypeKind::Func(_, _) => Err(SemanticError::MalformedCoercion),
        }
    }
}

impl Expr {
    /// The value of the expression at compile time, with the names resolved
    /// in `symtable`: `Ok(None)` where the expression is not constant.
    pub fn try_fold(&self, symtable: &SymbolTable) -> (r: Result<Option<ComptimeVal>, SemanticError>)
        ensures
            fold_view(r) == fold(self@, symtable@.scopes),
        decreases self,
    {
        match &self.kind {
            ExprKind::Const(val) => Ok(Some(val.clone())),
            ExprKind::Binary(op, lhs, rhs) => {
                let a = match lhs.try_fold(symtable) {
                    Ok(Some(a)) => a,
                    Ok(None) => { return Ok(None); },
                    Err(e) => { return Err(e); },
                };
                let b = match rhs.try_fold(symtable) {
                    Ok(Some(b)) => b,
                    Ok(None) => { return Ok(None); },
                    Err(e) => { return Err(e); },
                };
                fold_of(ComptimeVal::binary(*op, &a, &b))
            },
            ExprKind::Unary(op, operand) => {
                let a = match operand.try_fold(symtable) {
                    Ok(Some(a)) => a,
                    Ok(None) => { return Ok(None); },
                    Err(e) => { return Err(e); },
                };
                fold_of(ComptimeVal::unary(*op, &a))
            },
            ExprKind::FuncCall(call) => {
                proof {
                    call.lemma_view();
                }
                Ok(None)
            },
            ExprKind::LVal(lval) => match symtable.lookup(lval.ident.as_str()) {
                Some(entry) => match &entry.comptime {
                    Some(v) => Ok(Some(v.clone())),
                    None => Ok(None),
                },
                None => Err(SemanticError::UnresolvedIdentifier),
            },
            ExprKind::Coercion(inner) => {
                let v = match inner.try_fold(symtable) {
                    Ok(Some(v)) => v,
                    Ok(None) => { return Ok(None); },
                    Err(e) => { return Err(e); },
                };
                fold_of(v.coerce(self.ty.as_ref()))
            },
        }
    }
}

} // verus!

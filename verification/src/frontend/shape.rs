//! Equality of expressions: two expressions are equal when they have the
//! same shape. The types that the analysis has found are no part of it, and
//! constants are compared as values are, a boolean being equal to the
//! integer that it widens to.

use super::ast::{Expr, ExprKind, ExprKindView, ExprView, FuncCall, LVal};
use vstd::prelude::*;
use vstd::std_specs::cmp::PartialEqSpecImpl;

verus! {

/// Whether two shapes of expressions are the same.
pub open spec fn same_kind(a: ExprKindView, b: ExprKindView) -> bool
    decreases a,
{
    match (a, b) {
        (ExprKindView::Const(x), ExprKindView::Const(y)) => x.same_value(y),
        (ExprKindView::Binary(op1, lhs1, rhs1), ExprKindView::Binary(op2, lhs2, rhs2)) => {
            &&& op1 == op2
            &&& same_shape(*lhs1, *lhs2)
            &&& same_shape(*rhs1, *rhs2)
        },
        (ExprKindView::Unary(op1, operand1), ExprKindView::Unary(op2, operand2)) => {
            &&& op1 == op2
            &&& same_shape(*operand1, *operand2)
        },
        (ExprKindView::Call(name1, args1), ExprKindView::Call(name2, args2)) => {
            &&& name1 == name2
            &&& args1.len() == args2.len()
            &&& forall|i: int| 0 <= i < args1.len() ==> same_shape(#[trigger] args1[i], args2[i])
        },
        (ExprKindView::Var(name1), ExprKindView::Var(name2)) => name1 == name2,
        (ExprKindView::Coercion(inner1), ExprKindView::Coercion(inner2)) => same_shape(
            *inner1,
            *inner2,
        ),
        _ => false,
    }
}

/// Whether two expressions have the same shape.
pub open spec fn same_shape(a: ExprView, b: ExprView) -> bool
    decreases a,
{
    same_kind(a.kind, b.kind)
}

impl FuncCall {
    /// Whether two calls have the same shape.
    #[verifier::loop_isolation(false)]
    fn same(&self, other: &FuncCall) -> (r: bool)
        ensures
            r == same_kind(self@, other@),
        decreases self,
    {
        proof {
            self.lemma_view();
            other.lemma_view();
        }
        if self.ident != other.ident {
            return false;
        }
        if self.args.len() != other.args.len() {
            return false;
        }
        let mut i: usize = 0;
        while i < self.args.len()
            invariant
                i <= self.args.len(),
                self.args.len() == other.args.len(),
                forall|j: int| 0 <= j < i ==> same_shape(self.args@[j]@, other.args@[j]@),
            decreases self.args.len() - i,
        {
            if !self.args[i].same(&other.args[i]) {
                assert(!same_shape(
                    super::ast::expr_views(self.args@)[i as int],
                    super::ast::expr_views(other.args@)[i as int],
                ));
                return false;
            }
            i += 1;
        }
        true
    }
}

impl ExprKind {
    /// Whether two shapes of expressions are the same.
    fn same(&self, other: &ExprKind) -> (r: bool)
        ensures
            r == same_kind(self@, other@),
        decreases self,
    {
        match (self, other) {
            (ExprKind::Const(x), ExprKind::Const(y)) => *x == *y,
            (ExprKind::Binary(op1, lhs1, rhs1), ExprKind::Binary(op2, lhs2, rhs2)) => {
                *op1 == *op2 && lhs1.same(lhs2) && rhs1.same(rhs2)
            },
            (ExprKind::Unary(op1, operand1), ExprKind::Unary(op2, operand2)) => {
                *op1 == *op2 && operand1.same(operand2)
            },
            (ExprKind::FuncCall(call1), ExprKind::FuncCall(call2)) => call1.same(call2),
            (ExprKind::LVal(lval1), ExprKind::LVal(lval2)) => lval1.ident == lval2.ident,
            (ExprKind::Coercion(inner1), ExprKind::Coercion(inner2)) => inner1.same(inner2),
            (ExprKind::FuncCall(call), _) => {
                proof {
                    call.lemma_view();
                }
                false
            },
            (_, ExprKind::FuncCall(call)) => {
                proof {
                    call.lemma_view();
                }
                false
            },
            _ => false,
        }
    }
}

impl Expr {
    /// Whether two expressions have the same shape.
    fn same(&self, other: &Expr) -> (r: bool)
        ensures
            r == same_shape(self@, other@),
        decreases self,
    {
        self.kind.same(&other.kind)
    }
}

impl PartialEq for LVal {
    fn eq(&self, other: &Self) -> (r: bool) {
        self.ident == other.ident
    }
}

impl PartialEqSpecImpl for LVal {
    open spec fn obeys_eq_spec() -> bool {
        true
    }

    open spec fn eq_spec(&self, other: &Self) -> bool {
        self@ == other@
    }
}

impl Eq for LVal {}

impl PartialEq for FuncCall {
    fn eq(&self, other: &Self) -> (r: bool) {
        self.same(other)
    }
}

impl PartialEqSpecImpl for FuncCall {
    open spec fn obeys_eq_spec() -> bool {
        true
    }

    open spec fn eq_spec(&self, other: &Self) -> bool {
        same_kind(self@, other@)
    }
}

impl Eq for FuncCall {}

impl PartialEq for ExprKind {
    fn eq(&self, other: &Self) -> (r: bool) {
        self.same(other)
    }
}

impl PartialEqSpecImpl for ExprKind {
    open spec fn obeys_eq_spec() -> bool {
        true
    }

    open spec fn eq_spec(&self, other: &Self) -> bool {
        same_kind(self@, other@)
    }
}

impl Eq for ExprKind {}

impl PartialEq for Expr {
    fn eq(&self, other: &Self) -> (r: bool) {
        self.same(other)
    }
}

impl PartialEqSpecImpl for Expr {
    open spec fn obeys_eq_spec() -> bool {
        true
    }

    open spec fn eq_spec(&self, other: &Self) -> bool {
        same_shape(self@, other@)
    }
}

impl Eq for Expr {}

} // verus!

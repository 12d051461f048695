//! The lowering of expressions.

use super::state::{
    binding_ok, lemma_advanced_keeps, lemma_lookup_bound, lemma_stepped_twice, lemma_value_kept,
    stepped, value_step,
};
use super::{IrGenContext, IrGenResult};
use crate::frontend::agree::{
    brought, computed, lemma_machine_binary, lemma_machine_negation, value_of,
};
use crate::frontend::ast::{type_option_view, BinaryOp, ComptimeVal, Expr, ExprKind, UnaryOp};
use crate::frontend::error::SemanticError;
use crate::frontend::lower::{
    bring, convert, ir_binary_op, ir_constant, ir_type, is_zero, lower_binary, lower_const,
    lower_expr, lower_unary, lower_var, slot_of, truth, widen,
};
use crate::frontend::types::{Type, TypeKind};
use crate::frontend::value::{apply_binary, apply_unary, ComptimeValView};
use crate::ir::{
    lemma_grown_same, Block, ConstantValue, InstKind, IntBinaryOp, IntCmpCond, Ty, Value,
};
use vstd::prelude::*;

verus! {

impl IrGenContext {
    /// The type of the intermediate representation that holds the values of
    /// the type `ty` of the source language.
    pub fn gen_type(&self, ty: &Type) -> (r: Result<Ty, SemanticError>)
        ensures
            r == ir_type(ty@),
    {
        match ty.kind() {
            TypeKind::Void => Ok(Ty::void()),
            TypeKind::Bool => Ok(Ty::i1()),
            TypeKind::Int => Ok(Ty::i32()),
            TypeKind::Func(params, ret) => {
                proof {
                    TypeKind::lemma_view_func(*params, *ret);
                }
                Err(SemanticError::InvalidOperation)
            },
        }
    }

    /// The constant that stands for the value `val` known at compile time,
    /// as a global slot starts with it.
    pub fn gen_global_comptime(&self, val: &ComptimeVal) -> (r: Result<
        ConstantValue,
        SemanticError,
    >)
        ensures
            r == ir_constant(val@),
    {
        match val {
            ComptimeVal::Bool(a) => Ok(ConstantValue::i1(*a)),
            ComptimeVal::Int(a) => Ok(ConstantValue::i32(*a)),
            ComptimeVal::Undef(ty) => match self.gen_type(ty) {
                Ok(ir_ty) => Ok(ConstantValue::undef(ir_ty)),
                Err(e) => Err(e),
            },
        }
    }

    /// Makes the constant that stands for the value `val` known at compile
    /// time, for use in the function being lowered.
    pub fn gen_local_comptime(&mut self, val: &ComptimeVal) -> (r: Result<Value, SemanticError>)
        requires
            old(self)@.ready(),
        ensures
            value_step(old(self)@, lower_const(old(self)@, val@), final(self)@, r),
            r matches Ok(v) ==> (!(val@ is Undef) ==> value_of(final(self)@.ctx, v) == Some(val@)),
    {
        match self.gen_global_comptime(val) {
            Ok(c) => Ok(self.constant(c)),
            Err(e) => Err(e),
        }
    }

    /// The operation of the intermediate representation that the binary
    /// operator `op` is computed with.
    pub fn map_int_binary_op(&self, op: &BinaryOp) -> (r: IntBinaryOp)
        ensures
            r == ir_binary_op(*op),
    {
        match op {
            BinaryOp::Add => IntBinaryOp::Add,
            BinaryOp::Sub => IntBinaryOp::Sub,
            BinaryOp::Mul => IntBinaryOp::Mul,
            BinaryOp::Div => IntBinaryOp::SDiv,
            BinaryOp::Mod => IntBinaryOp::SRem,
            BinaryOp::Lt => IntBinaryOp::ICmp { cond: IntCmpCond::Slt },
            BinaryOp::Gt => IntBinaryOp::ICmp { cond: IntCmpCond::Sgt },
            BinaryOp::Le => IntBinaryOp::ICmp { cond: IntCmpCond::Sle },
            BinaryOp::Ge => IntBinaryOp::ICmp { cond: IntCmpCond::Sge },
            BinaryOp::Eq => IntBinaryOp::ICmp { cond: IntCmpCond::Eq },
            BinaryOp::Ne => IntBinaryOp::ICmp { cond: IntCmpCond::Ne },
            BinaryOp::And => IntBinaryOp::And,
            BinaryOp::Or => IntBinaryOp::Or,
        }
    }

    /// The value `v` as an integer.
    pub(crate) fn widen(&mut self, v: Value) -> (r: Result<Value, SemanticError>)
        requires
            old(self)@.ready(),
            old(self)@.ctx.has_value(v),
        ensures
            value_step(old(self)@, widen(old(self)@, v), final(self)@, r),
            r matches Ok(w) ==> final(self)@.ctx.type_of(w) == Ty::I32,
            r matches Ok(w) ==> (value_of(old(self)@.ctx, v) matches Some(c) ==> value_of(
                final(self)@.ctx,
                w,
            ) == Some(c.widened())),
    {
        proof {
            lemma_grown_same(self@.ctx);
        }
        match v.ty(&self.ctx) {
            Ty::I32 => Ok(v),
            Ty::I1 => Ok(self.compute(InstKind::ZExt { val: v })),
            _ => Err(SemanticError::InvalidOperation),
        }
    }

    /// The truth of the value `v`.
    pub(crate) fn truth(&mut self, v: Value) -> (r: Result<Value, SemanticError>)
        requires
            old(self)@.ready(),
            old(self)@.ctx.has_value(v),
        ensures
            value_step(old(self)@, truth(old(self)@, v), final(self)@, r),
            r matches Ok(t) ==> final(self)@.ctx.type_of(t) == Ty::I1,
            r matches Ok(t) ==> (value_of(old(self)@.ctx, v) matches Some(c) ==> value_of(
                final(self)@.ctx,
                t,
            ) == Some(ComptimeValView::Bool(c.truthy()))),
    {
        proof {
            lemma_grown_same(self@.ctx);
        }
        match v.ty(&self.ctx) {
            Ty::I1 => Ok(v),
            Ty::I32 => {
                let zero = self.constant(ConstantValue::I32(0));
                let ghost mid = self@;
                proof {
                    lemma_advanced_keeps(old(self)@, mid, Block(0), v);
                    lemma_value_kept(old(self)@, mid, v);
                }
                let t = self.compute(
                    InstKind::IBinary {
                        op: IntBinaryOp::ICmp { cond: IntCmpCond::Ne },
                        lhs: v,
                        rhs: zero,
                    },
                );
                proof {
                    lemma_stepped_twice(old(self)@, mid, self@);
                }
                Ok(t)
            },
            _ => Err(SemanticError::InvalidOperation),
        }
    }

    /// Whether the value `v` is zero, or false.
    pub(crate) fn is_zero(&mut self, v: Value) -> (r: Result<Value, SemanticError>)
        requires
            old(self)@.ready(),
            old(self)@.ctx.has_value(v),
        ensures
            value_step(old(self)@, is_zero(old(self)@, v), final(self)@, r),
            r matches Ok(z) ==> final(self)@.ctx.type_of(z) == Ty::I1,
            r matches Ok(z) ==> (value_of(old(self)@.ctx, v) matches Some(c) ==> value_of(
                final(self)@.ctx,
                z,
            ) == Some(ComptimeValView::Bool(!c.truthy()))),
    {
        let zero = match v.ty(&self.ctx) {
            Ty::I1 => ConstantValue::I1(false),
            Ty::I32 => ConstantValue::I32(0),
            _ => { return Err(SemanticError::InvalidOperation); },
        };
        let zero = self.constant(zero);
        let ghost mid = self@;
        proof {
            lemma_advanced_keeps(old(self)@, mid, Block(0), v);
            lemma_value_kept(old(self)@, mid, v);
        }
        let z = self.compute(
            InstKind::IBinary { op: IntBinaryOp::ICmp { cond: IntCmpCond::Eq }, lhs: v, rhs: zero },
        );
        proof {
            lemma_stepped_twice(old(self)@, mid, self@);
        }
        Ok(z)
    }

    /// The value `v` brought to the type `ty` that the analysis gave an
    /// expression.
    pub(crate) fn bring(&mut self, v: Value, ty: &Option<Type>) -> (r: Result<Value, SemanticError>)
        requires
            old(self)@.ready(),
            old(self)@.ctx.has_value(v),
        ensures
            value_step(
                old(self)@,
                bring(old(self)@, v, type_option_view(*ty)),
                final(self)@,
                r,
            ),
            r matches Ok(w) ==> (value_of(old(self)@.ctx, v) matches Some(c) ==> value_of(
                final(self)@.ctx,
                w,
            ) == brought(Ok(c), type_option_view(*ty))),
    {
        match ty {
            Some(t) => {
                if t.is_int() {
                    self.widen(v)
                } else if t.is_bool() {
                    self.truth(v)
                } else {
                    Err(SemanticError::InvalidOperation)
                }
            },
            None => Err(SemanticError::InvalidOperation),
        }
    }

    /// The value `v` converted to the type `ty` of a coercion.
    pub(crate) fn convert(&mut self, v: Value, ty: &Option<Type>) -> (r: Result<Value, SemanticError>)
        requires
            old(self)@.ready(),
            old(self)@.ctx.has_value(v),
        ensures
            value_step(
                old(self)@,
                convert(old(self)@, v, type_option_view(*ty)),
                final(self)@,
                r,
            ),
            r matches Ok(w) ==> (value_of(old(self)@.ctx, v) matches Some(c) ==> value_of(
                final(self)@.ctx,
                w,
            ) == brought(Ok(c), type_option_view(*ty))),
    {
        match ty {
            Some(t) => {
                if t.is_int() {
                    self.widen(v)
                } else if t.is_bool() {
                    self.truth(v)
                } else {
                    Err(SemanticError::MalformedCoercion)
                }
            },
            None => Err(SemanticError::MalformedCoercion),
        }
    }

    /// A binary operation on the values `lhs` and `rhs`, for an expression
    /// of type `ty`.
    #[verifier::rlimit(40)]
    pub(crate) fn gen_binary(&mut self, op: BinaryOp, lhs: Value, rhs: Value, ty: &Option<Type>) -> (r: Result<
        Value,
        SemanticError,
    >)
        requires
            old(self)@.ready(),
            old(self)@.ctx.has_value(lhs),
            old(self)@.ctx.has_value(rhs),
        ensures
            value_step(
                old(self)@,
                lower_binary(old(self)@, op, lhs, rhs, type_option_view(*ty)),
                final(self)@,
                r,
            ),
            r matches Ok(w) ==> (value_of(old(self)@.ctx, lhs) matches Some(a) ==> (value_of(
                old(self)@.ctx,
                rhs,
            ) matches Some(b) ==> (brought(
                apply_binary(op, a, b),
                type_option_view(*ty),
            ) matches Some(c) ==> value_of(final(self)@.ctx, w) == Some(c)))),
    {
        let logical = match op {
            BinaryOp::And => true,
            BinaryOp::Or => true,
            _ => false,
        };
        let prepared = if logical {
            self.truth(lhs)
        } else {
            self.widen(lhs)
        };
        let a = match prepared {
            Ok(a) => a,
            Err(e) => { return Err(e); },
        };
        let ghost s1 = self@;
        proof {
            lemma_advanced_keeps(old(self)@, s1, Block(0), rhs);
            lemma_value_kept(old(self)@, s1, rhs);
        }
        let prepared = if logical {
            self.truth(rhs)
        } else {
            self.widen(rhs)
        };
        let b = match prepared {
            Ok(b) => b,
            Err(e) => { return Err(e); },
        };
        let ghost s2 = self@;
        proof {
            lemma_advanced_keeps(s1, s2, Block(0), a);
            lemma_value_kept(s1, s2, a);
        }
        let ir_op = self.map_int_binary_op(&op);
        let computed = self.compute(InstKind::IBinary { op: ir_op, lhs: a, rhs: b });
        let ghost s3 = self@;
        proof {
            let left = value_of(old(self)@.ctx, lhs);
            let right = value_of(old(self)@.ctx, rhs);
            if left is Some && right is Some && apply_binary(op, left->Some_0, right->Some_0) is Ok {
                lemma_machine_binary(op, left->Some_0, right->Some_0);
            }
        }
        let r = self.bring(computed, ty);
        proof {
            lemma_stepped_twice(old(self)@, s1, s2);
            lemma_stepped_twice(old(self)@, s2, s3);
            if r is Ok {
                lemma_stepped_twice(old(self)@, s3, self@);
            }
        }
        r
    }

    /// A unary operation on the value `operand`, for an expression of type
    /// `ty`.
    #[verifier::rlimit(40)]
    pub(crate) fn gen_unary(&mut self, op: UnaryOp, operand: Value, ty: &Option<Type>) -> (r: Result<
        Value,
        SemanticError,
    >)
        requires
            old(self)@.ready(),
            old(self)@.ctx.has_value(operand),
        ensures
            value_step(
                old(self)@,
                lower_unary(old(self)@, op, operand, type_option_view(*ty)),
                final(self)@,
                r,
            ),
            r matches Ok(w) ==> (value_of(old(self)@.ctx, operand) matches Some(a) ==> (brought(
                apply_unary(op, a),
                type_option_view(*ty),
            ) matches Some(c) ==> value_of(final(self)@.ctx, w) == Some(c))),
    {
        match op {
            UnaryOp::Neg => {
                let a = match self.widen(operand) {
                    Ok(a) => a,
                    Err(e) => { return Err(e); },
                };
                let ghost s1 = self@;
                let zero = self.constant(ConstantValue::I32(0));
                let ghost s2 = self@;
                proof {
                    lemma_advanced_keeps(s1, s2, Block(0), a);
                    lemma_value_kept(s1, s2, a);
                }
                let computed = self.compute(
                    InstKind::IBinary { op: IntBinaryOp::Sub, lhs: zero, rhs: a },
                );
                let ghost s3 = self@;
                proof {
                    let value = value_of(old(self)@.ctx, operand);
                    if value is Some && apply_unary(op, value->Some_0) is Ok {
                        lemma_machine_negation(value->Some_0);
                    }
                }
                let r = self.bring(computed, ty);
                proof {
                    lemma_stepped_twice(old(self)@, s1, s2);
                    lemma_stepped_twice(old(self)@, s2, s3);
                    if r is Ok {
                        lemma_stepped_twice(old(self)@, s3, self@);
                    }
                }
                r
            },
            UnaryOp::Not => {
                let z = match self.is_zero(operand) {
                    Ok(z) => z,
                    Err(e) => { return Err(e); },
                };
                let ghost s1 = self@;
                let r = self.bring(z, ty);
                proof {
                    if r is Ok {
                        lemma_stepped_twice(old(self)@, s1, self@);
                    }
                }
                r
            },
        }
    }

    /// The address that a name is bound to.
    pub(crate) fn gen_slot(&mut self, binding: IrGenResult) -> (r: Value)
        requires
            old(self)@.ready(),
            binding_ok(old(self)@.ctx, Some(binding)),
        ensures
            (final(self)@, r) == slot_of(old(self)@, binding),
            final(self)@.ctx.has_value(r),
            stepped(old(self)@, final(self)@),
    {
        match binding {
            IrGenResult::Global(g) => self.global_ref(g),
            IrGenResult::Value(v) => {
                proof {
                    lemma_grown_same(self@.ctx);
                }
                v
            },
        }
    }

    /// The value of the variable `name`.
    #[verifier::rlimit(40)]
    pub(crate) fn gen_var(&mut self, name: &str) -> (r: Result<Value, SemanticError>)
        requires
            old(self)@.ready(),
        ensures
            value_step(old(self)@, lower_var(old(self)@, name@), final(self)@, r),
    {
        proof {
            lemma_lookup_bound(self@.symtable.scopes, name@, self@.ctx);
        }
        let (binding, ty) = match self.symtable.lookup(name) {
            None => { return Err(SemanticError::UnresolvedIdentifier); },
            Some(entry) => match entry.ir_value {
                None => { return Err(SemanticError::InvalidOperation); },
                Some(binding) => match self.gen_type(&entry.ty) {
                    Err(e) => { return Err(e); },
                    Ok(ty) => (binding, ty),
                },
            },
        };
        let slot = self.gen_slot(binding);
        if slot.is_param(&self.ctx) {
            Ok(slot)
        } else {
            let ghost s1 = self@;
            let v = self.compute(InstKind::Load { ptr: slot, ty });
            proof {
                lemma_stepped_twice(old(self)@, s1, self@);
            }
            Ok(v)
        }
    }

    /// Lowers the expression `expr` into the current block; gives its value.
    pub fn gen_local_expr(&mut self, expr: &Expr) -> (r: Result<Value, SemanticError>)
        requires
            old(self)@.ready(),
        ensures
            value_step(old(self)@, lower_expr(old(self)@, expr@), final(self)@, r),
            r matches Ok(v) ==> (computed(expr@) matches Some(c) ==> value_of(final(self)@.ctx, v)
                == Some(c)),
        decreases expr,
    {
        match &expr.kind {
            ExprKind::Const(v) => self.gen_local_comptime(v),
            ExprKind::Binary(op, lhs, rhs) => {
                let a = match self.gen_local_expr(lhs) {
                    Ok(a) => a,
                    Err(e) => { return Err(e); },
                };
                let ghost s1 = self@;
                let b = match self.gen_local_expr(rhs) {
                    Ok(b) => b,
                    Err(e) => { return Err(e); },
                };
                let ghost s2 = self@;
                proof {
                    lemma_advanced_keeps(s1, s2, Block(0), a);
                    lemma_value_kept(s1, s2, a);
                }
                let r = self.gen_binary(*op, a, b, &expr.ty);
                proof {
                    lemma_stepped_twice(old(self)@, s1, s2);
                    if r is Ok {
                        lemma_stepped_twice(old(self)@, s2, self@);
                    }
                }
                r
            },
            ExprKind::Unary(op, operand) => {
                let a = match self.gen_local_expr(operand) {
                    Ok(a) => a,
                    Err(e) => { return Err(e); },
                };
                let ghost s1 = self@;
                let r = self.gen_unary(*op, a, &expr.ty);
                proof {
                    if r is Ok {
                        lemma_stepped_twice(old(self)@, s1, self@);
                    }
                }
                r
            },
            ExprKind::LVal(lval) => self.gen_var(lval.ident.as_str()),
            ExprKind::Coercion(inner) => {
                let v = match self.gen_local_expr(inner) {
                    Ok(v) => v,
                    Err(e) => { return Err(e); },
                };
                let ghost s1 = self@;
                let r = self.convert(v, &expr.ty);
                proof {
                    if r is Ok {
                        lemma_stepped_twice(old(self)@, s1, self@);
                    }
                }
                r
            },
            ExprKind::FuncCall(call) => {
                proof {
                    call.lemma_view();
                }
                Err(SemanticError::InvalidOperation)
            },
        }
    }
}

} // verus!

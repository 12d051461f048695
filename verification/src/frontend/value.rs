//! Values known at compile time, and the operators of the language on them.
//!
//! Operators work on integers: a boolean operand counts as `1` when true and
//! as `0` when false. An operator on an undefined value is always a failure.

use super::error::SemanticError;
use super::types::{Type, TypeView};
use crate::arith::{fits_int, trunc_div, trunc_rem};
use core::cmp::Ordering;
use vstd::prelude::*;
use vstd::std_specs::cmp::{PartialEqSpecImpl, PartialOrdSpecImpl};
use vstd::std_specs::ops::{
    AddSpecImpl, DivSpecImpl, MulSpecImpl, NegSpecImpl, NotSpecImpl, RemSpecImpl, SubSpecImpl,
};

verus! {

/// Binary operators.
#[derive(Debug, Clone, Copy, PartialEq, Eq, Structural)]
pub enum BinaryOp {
    Add,
    Sub,
    Mul,
    Div,
    Mod,
    Lt,
    Gt,
    Le,
    Ge,
    Eq,
    Ne,
    And,
    Or,
}

/// Unary operators.
#[derive(Debug, Clone, Copy, PartialEq, Eq, Structural)]
pub enum UnaryOp {
    /// Arithmetic negation.
    Neg,
    /// Logical not.
    Not,
}

/// A value known at compile time.
#[derive(Debug)]
pub enum ComptimeVal {
    Bool(bool),
    Int(i32),
    /// A value of the given type that was never set.
    Undef(Type),
}

/// What a [`ComptimeVal`] holds.
pub enum ComptimeValView {
    Bool(bool),
    Int(i32),
    Undef(TypeView),
}

/// The integer `x` as the result of an operator: a failure when it does not
/// fit the language's integer type.
pub open spec fn int_result(x: int) -> Result<ComptimeValView, SemanticError> {
    if fits_int(x) {
        Ok(ComptimeValView::Int(x as i32))
    } else {
        Err(SemanticError::InvalidOperation)
    }
}

impl ComptimeValView {
    /// The value as an integer: a boolean widens to `1` or `0`. An undefined
    /// value has no integer; `0` stands in its place.
    pub open spec fn as_int(self) -> int {
        match self {
            ComptimeValView::Bool(b) => if b { 1 } else { 0 },
            ComptimeValView::Int(i) => i as int,
            ComptimeValView::Undef(_) => 0,
        }
    }

    /// Whether the value counts as true: a true boolean, or an integer other
    /// than zero.
    pub open spec fn truthy(self) -> bool {
        match self {
            ComptimeValView::Bool(b) => b,
            ComptimeValView::Int(i) => i != 0,
            ComptimeValView::Undef(_) => false,
        }
    }

    /// The type of the value.
    pub open spec fn type_of(self) -> TypeView {
        match self {
            ComptimeValView::Bool(_) => TypeView::Bool,
            ComptimeValView::Int(_) => TypeView::Int,
            ComptimeValView::Undef(ty) => ty,
        }
    }

    /// Whether the value is `false` or the integer zero.
    pub open spec fn is_zero(self) -> bool {
        match self {
            ComptimeValView::Bool(b) => !b,
            ComptimeValView::Int(i) => i == 0,
            ComptimeValView::Undef(_) => false,
        }
    }

    /// Equality of two values as integers. An undefined value equals nothing.
    pub open spec fn same_value(self, other: ComptimeValView) -> bool {
        !(self is Undef) && !(other is Undef) && self.as_int() == other.as_int()
    }
}

/// The result of a binary operator on two values.
///
/// - An undefined operand is a failure.
/// - `+ - * / %` compute on integers. The result is a failure when it does not
///   fit the integer type, and for `/` and `%` also when the divisor is zero
///   or the quotient does not fit.
/// - Comparisons compare the operands as integers and give a boolean.
/// - `&&` and `||` combine the truth of the operands and give a boolean.
pub open spec fn apply_binary(op: BinaryOp, lhs: ComptimeValView, rhs: ComptimeValView) -> Result<
    ComptimeValView,
    SemanticError,
> {
    if lhs is Undef || rhs is Undef {
        Err(SemanticError::InvalidOperation)
    } else {
        let a = lhs.as_int();
        let b = rhs.as_int();
        match op {
            BinaryOp::Add => int_result(a + b),
            BinaryOp::Sub => int_result(a - b),
            BinaryOp::Mul => int_result(a * b),
            BinaryOp::Div => if b == 0 {
                Err(SemanticError::InvalidOperation)
            } else {
                int_result(trunc_div(a, b))
            },
            BinaryOp::Mod => if b == 0 || !fits_int(trunc_div(a, b)) {
                Err(SemanticError::InvalidOperation)
            } else {
                int_result(trunc_rem(a, b))
            },
            BinaryOp::Lt => Ok(ComptimeValView::Bool(a < b)),
            BinaryOp::Gt => Ok(ComptimeValView::Bool(a > b)),
            BinaryOp::Le => Ok(ComptimeValView::Bool(a <= b)),
            BinaryOp::Ge => Ok(ComptimeValView::Bool(a >= b)),
            BinaryOp::Eq => Ok(ComptimeValView::Bool(a == b)),
            BinaryOp::Ne => Ok(ComptimeValView::Bool(a != b)),
            BinaryOp::And => Ok(ComptimeValView::Bool(lhs.truthy() && rhs.truthy())),
            BinaryOp::Or => Ok(ComptimeValView::Bool(lhs.truthy() || rhs.truthy())),
        }
    }
}

/// The result of a unary operator on a value.
///
/// - An undefined operand is a failure.
/// - Negation computes on integers, and fails when the result does not fit.
/// - Logical not gives a boolean: whether the operand does not count as
///   true. So the logical not of an integer is true for zero and false for
///   every other integer.
pub open spec fn apply_unary(op: UnaryOp, operand: ComptimeValView) -> Result<
    ComptimeValView,
    SemanticError,
> {
    if operand is Undef {
        Err(SemanticError::InvalidOperation)
    } else {
        match op {
            UnaryOp::Neg => int_result(-operand.as_int()),
            UnaryOp::Not => Ok(ComptimeValView::Bool(!operand.truthy())),
        }
    }
}

impl ComptimeVal {
    /// What this value holds.
    pub open spec fn view(&self) -> ComptimeValView {
        match self {
            ComptimeVal::Bool(b) => ComptimeValView::Bool(*b),
            ComptimeVal::Int(i) => ComptimeValView::Int(*i),
            ComptimeVal::Undef(ty) => ComptimeValView::Undef(ty@),
        }
    }

    /// The value as an integer, a boolean widened.
    pub fn unwrap_int(&self) -> (r: i32)
        requires
            !(self@ is Undef),
        ensures
            r == self@.as_int(),
    {
        match self {
            ComptimeVal::Bool(b) => if *b {
                1
            } else {
                0
            },
            ComptimeVal::Int(i) => *i,
            ComptimeVal::Undef(_) => vstd::pervasive::unreached(),
        }
    }

    /// The boolean `b`.
    pub fn bool(b: bool) -> (r: Self)
        ensures
            r@ == ComptimeValView::Bool(b),
    {
        ComptimeVal::Bool(b)
    }

    /// The integer `i`.
    pub fn int_(i: i32) -> (r: Self)
        ensures
            r@ == ComptimeValView::Int(i),
    {
        ComptimeVal::Int(i)
    }

    /// The undefined value of type `ty`.
    pub fn undef(ty: Type) -> (r: Self)
        ensures
            r@ == ComptimeValView::Undef(ty@),
    {
        ComptimeVal::Undef(ty)
    }

    /// The type of the value.
    pub fn get_type(&self) -> (r: Type)
        ensures
            r@ == self@.type_of(),
    {
        match self {
            ComptimeVal::Bool(_) => Type::bool(),
            ComptimeVal::Int(_) => Type::int_(),
            ComptimeVal::Undef(ty) => ty.clone(),
        }
    }

    /// Whether the value is `false` or the integer zero.
    pub fn is_zero(&self) -> (r: bool)
        ensures
            r == self@.is_zero(),
    {
        match self {
            ComptimeVal::Bool(b) => !*b,
            ComptimeVal::Int(i) => *i == 0,
            ComptimeVal::Undef(_) => false,
        }
    }

    /// The truth of the value, where it is defined.
    fn truth(&self) -> (r: Option<bool>)
        ensures
            self@ is Undef <==> r is None,
            r matches Some(b) ==> b == self@.truthy(),
    {
        match self {
            ComptimeVal::Bool(b) => Some(*b),
            ComptimeVal::Int(i) => Some(*i != 0),
            ComptimeVal::Undef(_) => None,
        }
    }

    /// The value as an integer, where it is defined.
    fn widened(&self) -> (r: Option<i32>)
        ensures
            self@ is Undef <==> r is None,
            r matches Some(i) ==> i == self@.as_int(),
    {
        match self {
            ComptimeVal::Bool(b) => Some(if *b {
                1
            } else {
                0
            }),
            ComptimeVal::Int(i) => Some(*i),
            ComptimeVal::Undef(_) => None,
        }
    }

    /// The logical or of two values.
    pub fn logical_or(&self, other: &Self) -> (r: Result<ComptimeVal, SemanticError>)
        ensures
            view_result(r) == apply_binary(BinaryOp::Or, self@, other@),
    {
        match (self.truth(), other.truth()) {
            (Some(a), Some(b)) => Ok(ComptimeVal::Bool(a || b)),
            _ => Err(SemanticError::InvalidOperation),
        }
    }

    /// The logical and of two values.
    pub fn logical_and(&self, other: &Self) -> (r: Result<ComptimeVal, SemanticError>)
        ensures
            view_result(r) == apply_binary(BinaryOp::And, self@, other@),
    {
        match (self.truth(), other.truth()) {
            (Some(a), Some(b)) => Ok(ComptimeVal::Bool(a && b)),
            _ => Err(SemanticError::InvalidOperation),
        }
    }

    /// The result of a binary operator on two values.
    pub fn binary(op: BinaryOp, lhs: &ComptimeVal, rhs: &ComptimeVal) -> (r: Result<
        ComptimeVal,
        SemanticError,
    >)
        ensures
            view_result(r) == apply_binary(op, lhs@, rhs@),
    {
        let (a, b) = match (lhs.widened(), rhs.widened()) {
            (Some(a), Some(b)) => (a, b),
            _ => { return Err(SemanticError::InvalidOperation); },
        };
        match op {
            BinaryOp::Add => checked(a.checked_add(b)),
            BinaryOp::Sub => checked(a.checked_sub(b)),
            BinaryOp::Mul => checked(a.checked_mul(b)),
            BinaryOp::Div => {
                proof {
                    if b != 0 {
                        lemma_trunc_div_fits(a as int, b as int);
                    }
                }
                checked(a.checked_div(b))
            },
            BinaryOp::Mod => {
                proof {
                    if b != 0 {
                        lemma_trunc_div_fits(a as int, b as int);
                        lemma_trunc_rem_fits(a as int, b as int);
                    }
                }
                checked(a.checked_rem(b))
            },
            BinaryOp::Lt => Ok(ComptimeVal::Bool(a < b)),
            BinaryOp::Gt => Ok(ComptimeVal::Bool(a > b)),
            BinaryOp::Le => Ok(ComptimeVal::Bool(a <= b)),
            BinaryOp::Ge => Ok(ComptimeVal::Bool(a >= b)),
            BinaryOp::Eq => Ok(ComptimeVal::Bool(a == b)),
            BinaryOp::Ne => Ok(ComptimeVal::Bool(a != b)),
            BinaryOp::And => lhs.logical_and(rhs),
            BinaryOp::Or => lhs.logical_or(rhs),
        }
    }

    /// The result of a unary operator on a value.
    pub fn unary(op: UnaryOp, operand: &ComptimeVal) -> (r: Result<ComptimeVal, SemanticError>)
        ensures
            view_result(r) == apply_unary(op, operand@),
    {
        match op {
            UnaryOp::Neg => match operand.widened() {
                Some(a) => checked(0i32.checked_sub(a)),
                None => Err(SemanticError::InvalidOperation),
            },
            UnaryOp::Not => match operand.truth() {
                Some(t) => Ok(ComptimeVal::Bool(!t)),
                None => Err(SemanticError::InvalidOperation),
            },
        }
    }
}

/// What a result of an operator holds.
pub open spec fn view_result(r: Result<ComptimeVal, SemanticError>) -> Result<
    ComptimeValView,
    SemanticError,
> {
    match r {
        Ok(v) => Ok(v@),
        Err(e) => Err(e),
    }
}

/// An integer result where the machine operation gave one, a failure where it
/// gave none.
fn checked(outcome: Option<i32>) -> (r: Result<ComptimeVal, SemanticError>)
    ensures
        view_result(r) == match outcome {
            Some(i) => Ok::<ComptimeValView, SemanticError>(ComptimeValView::Int(i)),
            None => Err(SemanticError::InvalidOperation),
        },
{
    match outcome {
        Some(i) => Ok(ComptimeVal::Int(i)),
        None => Err(SemanticError::InvalidOperation),
    }
}

/// The quotient of two integers of the language fits unless it is that of
/// the least integer by `-1`.
pub proof fn lemma_trunc_div_fits(x: int, d: int)
    requires
        fits_int(x),
        fits_int(d),
        d != 0,
    ensures
        fits_int(trunc_div(x, d)) <==> !(x == i32::MIN && d == -1),
        x == 0 ==> trunc_div(x, d) == 0,
        x < 0 && d < 0 ==> trunc_div(x, d) == (x * -1) / (d * -1),
        x < 0 && d > 0 ==> trunc_div(x, d) == ((x * -1) / d) * -1,
        x > 0 && d < 0 ==> trunc_div(x, d) == (x / (d * -1)) * -1,
        x > 0 && d > 0 ==> trunc_div(x, d) == x / d,
{
    reveal(trunc_div);
    let ax = if x < 0 { -x } else { x };
    let ad = if d < 0 { -d } else { d };
    assert(0 <= ax / ad <= ax) by {
        vstd::arithmetic::div_mod::lemma_div_pos_is_pos(ax, ad);
        vstd::arithmetic::div_mod::lemma_div_is_ordered_by_denominator(ax, 1, ad);
        vstd::arithmetic::div_mod::lemma_div_basics(ax);
    }
    if x == i32::MIN && d == -1 {
        vstd::arithmetic::div_mod::lemma_div_basics(ax);
    }
    if x == i32::MIN && d != -1 && d < 0 {
        assert(ax / ad <= ax / 2) by {
            vstd::arithmetic::div_mod::lemma_div_is_ordered_by_denominator(ax, 2, ad);
        }
    }
}

/// The remainder of two integers of the language fits.
pub proof fn lemma_trunc_rem_fits(x: int, d: int)
    requires
        fits_int(x),
        fits_int(d),
        d != 0,
    ensures
        fits_int(trunc_rem(x, d)),
        x == 0 ==> trunc_rem(x, d) == 0,
        x < 0 && d < 0 ==> trunc_rem(x, d) == ((x * -1) % (d * -1)) * -1,
        x < 0 && d > 0 ==> trunc_rem(x, d) == ((x * -1) % d) * -1,
        x > 0 && d < 0 ==> trunc_rem(x, d) == x % (d * -1),
        x > 0 && d > 0 ==> trunc_rem(x, d) == x % d,
{
    reveal(trunc_rem);
    let ax = if x < 0 { -x } else { x };
    let ad = if d < 0 { -d } else { d };
    assert(0 <= ax % ad < ad) by {
        vstd::arithmetic::div_mod::lemma_mod_pos_bound(ax, ad);
    }
    if x == 0 {
        vstd::arithmetic::div_mod::lemma_small_mod(0nat, ad as nat);
    }
}

/// The value that an operator's result stands for. No operator gives an
/// undefined value.
pub open spec fn concrete(outcome: Result<ComptimeValView, SemanticError>) -> Result<
    ComptimeVal,
    SemanticError,
> {
    match outcome {
        Ok(ComptimeValView::Bool(b)) => Ok(ComptimeVal::Bool(b)),
        Ok(ComptimeValView::Int(i)) => Ok(ComptimeVal::Int(i)),
        Ok(ComptimeValView::Undef(_)) => Err(SemanticError::InvalidOperation),
        Err(e) => Err(e),
    }
}

/// How two values compare as integers; nothing where one is undefined.
pub open spec fn order_of(lhs: ComptimeValView, rhs: ComptimeValView) -> Option<Ordering> {
    if lhs is Undef || rhs is Undef {
        None
    } else if lhs.as_int() < rhs.as_int() {
        Some(Ordering::Less)
    } else if lhs.as_int() == rhs.as_int() {
        Some(Ordering::Equal)
    } else {
        Some(Ordering::Greater)
    }
}

impl PartialEq for ComptimeVal {
    fn eq(&self, other: &Self) -> (r: bool) {
        match (self.widened(), other.widened()) {
            (Some(a), Some(b)) => a == b,
            _ => false,
        }
    }
}

impl PartialEqSpecImpl for ComptimeVal {
    open spec fn obeys_eq_spec() -> bool {
        true
    }

    open spec fn eq_spec(&self, other: &Self) -> bool {
        self@.same_value(other@)
    }
}

impl Eq for ComptimeVal {}

impl PartialOrd for ComptimeVal {
    fn partial_cmp(&self, other: &Self) -> (r: Option<Ordering>) {
        match (self.widened(), other.widened()) {
            (Some(a), Some(b)) => Some(
                if a < b {
                    Ordering::Less
                } else if a == b {
                    Ordering::Equal
                } else {
                    Ordering::Greater
                },
            ),
            _ => None,
        }
    }
}

impl PartialOrdSpecImpl for ComptimeVal {
    open spec fn obeys_partial_cmp_spec() -> bool {
        true
    }

    open spec fn partial_cmp_spec(&self, other: &Self) -> Option<Ordering> {
        order_of(self@, other@)
    }
}

impl core::ops::Neg for ComptimeVal {
    type Output = Result<ComptimeVal, SemanticError>;

    fn neg(self) -> (r: Self::Output) {
        ComptimeVal::unary(UnaryOp::Neg, &self)
    }
}

impl NegSpecImpl for ComptimeVal {
    open spec fn obeys_neg_spec() -> bool {
        true
    }

    open spec fn neg_req(self) -> bool {
        true
    }

    open spec fn neg_spec(self) -> Self::Output {
        concrete(apply_unary(UnaryOp::Neg, self@))
    }
}

impl core::ops::Not for ComptimeVal {
    type Output = Result<ComptimeVal, SemanticError>;

    fn not(self) -> (r: Self::Output) {
        ComptimeVal::unary(UnaryOp::Not, &self)
    }
}

impl NotSpecImpl for ComptimeVal {
    open spec fn obeys_not_spec() -> bool {
        true
    }

    open spec fn not_req(self) -> bool {
        true
    }

    open spec fn not_spec(self) -> Self::Output {
        concrete(apply_unary(UnaryOp::Not, self@))
    }
}

impl core::ops::Add for ComptimeVal {
    type Output = Result<ComptimeVal, SemanticError>;

    fn add(self, other: Self) -> (r: Self::Output) {
        ComptimeVal::binary(BinaryOp::Add, &self, &other)
    }
}

impl AddSpecImpl for ComptimeVal {
    open spec fn obeys_add_spec() -> bool {
        true
    }

    open spec fn add_req(self, other: Self) -> bool {
        true
    }

    open spec fn add_spec(self, other: Self) -> Self::Output {
        concrete(apply_binary(BinaryOp::Add, self@, other@))
    }
}

impl core::ops::Sub for ComptimeVal {
    type Output = Result<ComptimeVal, SemanticError>;

    fn sub(self, other: Self) -> (r: Self::Output) {
        ComptimeVal::binary(BinaryOp::Sub, &self, &other)
    }
}

impl SubSpecImpl for ComptimeVal {
    open spec fn obeys_sub_spec() -> bool {
        true
    }

    open spec fn sub_req(self, other: Self) -> bool {
        true
    }

    open spec fn sub_spec(self, other: Self) -> Self::Output {
        concrete(apply_binary(BinaryOp::Sub, self@, other@))
    }
}

impl core::ops::Mul for ComptimeVal {
    type Output = Result<ComptimeVal, SemanticError>;

    fn mul(self, other: Self) -> (r: Self::Output) {
        ComptimeVal::binary(BinaryOp::Mul, &self, &other)
    }
}

impl MulSpecImpl for ComptimeVal {
    open spec fn obeys_mul_spec() -> bool {
        true
    }

    open spec fn mul_req(self, other: Self) -> bool {
        true
    }

    open spec fn mul_spec(self, other: Self) -> Self::Output {
        concrete(apply_binary(BinaryOp::Mul, self@, other@))
    }
}

impl core::ops::Div for ComptimeVal {
    type Output = Result<ComptimeVal, SemanticError>;

    fn div(self, other: Self) -> (r: Self::Output) {
        ComptimeVal::binary(BinaryOp::Div, &self, &other)
    }
}

impl DivSpecImpl for ComptimeVal {
    open spec fn obeys_div_spec() -> bool {
        true
    }

    open spec fn div_req(self, other: Self) -> bool {
        true
    }

    open spec fn div_spec(self, other: Self) -> Self::Output {
        concrete(apply_binary(BinaryOp::Div, self@, other@))
    }
}

impl core::ops::Rem for ComptimeVal {
    type Output = Result<ComptimeVal, SemanticError>;

    fn rem(self, other: Self) -> (r: Self::Output) {
        ComptimeVal::binary(BinaryOp::Mod, &self, &other)
    }
}

impl RemSpecImpl for ComptimeVal {
    open spec fn obeys_rem_spec() -> bool {
        true
    }

    open spec fn rem_req(self, other: Self) -> bool {
        true
    }

    open spec fn rem_spec(self, other: Self) -> Self::Output {
        concrete(apply_binary(BinaryOp::Mod, self@, other@))
    }
}

impl ComptimeValView {
    /// The value with a boolean widened to the integer that it counts as.
    pub open spec fn widened(self) -> ComptimeValView {
        match self {
            ComptimeValView::Bool(b) => ComptimeValView::Int(if b { 1i32 } else { 0i32 }),
            other => other,
        }
    }
}

/// Widening. A boolean operand counts as the integer `1` or `0`: no
/// operator, no test for equality and no comparison tells a boolean from
/// the integer that it widens to.
pub proof fn lemma_widening(
    op: BinaryOp,
    unary: UnaryOp,
    lhs: ComptimeValView,
    rhs: ComptimeValView,
)
    ensures
        apply_binary(op, lhs, rhs) == apply_binary(op, lhs.widened(), rhs.widened()),
        apply_unary(unary, lhs) == apply_unary(unary, lhs.widened()),
        lhs.same_value(rhs) == lhs.widened().same_value(rhs.widened()),
        order_of(lhs, rhs) == order_of(lhs.widened(), rhs.widened()),
        lhs.same_value(lhs.widened()) == !(lhs is Undef),
{
}

/// The guard on undefined values. Every operator fails on an undefined
/// operand, whatever the other operand is; an undefined value equals nothing
/// and compares with nothing.
pub proof fn lemma_undefined_guard(
    binary: BinaryOp,
    unary: UnaryOp,
    lhs: ComptimeValView,
    rhs: ComptimeValView,
)
    requires
        lhs is Undef || rhs is Undef,
    ensures
        apply_binary(binary, lhs, rhs) == Err::<ComptimeValView, SemanticError>(
            SemanticError::InvalidOperation,
        ),
        lhs is Undef ==> apply_unary(unary, lhs) == Err::<ComptimeValView, SemanticError>(
            SemanticError::InvalidOperation,
        ),
        !lhs.same_value(rhs),
        order_of(lhs, rhs) is None,
{
}

impl Clone for ComptimeVal {
    fn clone(&self) -> (r: Self)
        ensures
            r@ == self@,
    {
        match self {
            ComptimeVal::Bool(b) => ComptimeVal::Bool(*b),
            ComptimeVal::Int(i) => ComptimeVal::Int(*i),
            ComptimeVal::Undef(ty) => ComptimeVal::Undef(ty.clone()),
        }
    }
}

} // verus!

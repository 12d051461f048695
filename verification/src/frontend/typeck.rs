//! Semantic analysis: every expression gets its type, coercions become
//! explicit, and what is constant is folded, all in one pass over the tree.

use super::ast::{expr_views, Expr, ExprKind, ExprKindView, ExprView, FuncCall};
use super::error::SemanticError;
use super::fold::fold;
use super::symtable::{lookup_in, SymbolEntryView, SymbolTable};
use super::types::{type_views, Type, TypeKind, TypeView};
use super::value::{BinaryOp, UnaryOp};
use vstd::prelude::*;

verus! {

/// The scopes that names are resolved in.
pub type Scopes = Seq<Map<Seq<char>, SymbolEntryView>>;

/// A binary operation on two analyzed operands. Where one operand is a
/// boolean and the other an integer, the boolean is converted to an integer;
/// otherwise the operands must have one type. The operation has the type of
/// its operands, whatever the operator.
pub open spec fn binary_typed(op: BinaryOp, lhs: ExprView, rhs: ExprView) -> Result<
    ExprView,
    SemanticError,
> {
    let (lhs, rhs) = if lhs.ty == Some(TypeView::Bool) && rhs.ty == Some(TypeView::Int) {
        (lhs.coerce(TypeView::Int), rhs)
    } else if lhs.ty == Some(TypeView::Int) && rhs.ty == Some(TypeView::Bool) {
        (lhs, rhs.coerce(TypeView::Int))
    } else {
        (lhs, rhs)
    };
    if lhs.ty != rhs.ty {
        Err(SemanticError::TypeMismatch)
    } else {
        Ok(ExprView { kind: ExprKindView::Binary(op, Box::new(lhs), Box::new(rhs)), ty: lhs.ty })
    }
}

/// A unary operation on an analyzed operand. Negation takes an integer, a
/// boolean being converted first, and gives an integer. Logical not takes a
/// boolean or an integer and gives a boolean.
pub open spec fn unary_typed(op: UnaryOp, operand: ExprView) -> Result<ExprView, SemanticError> {
    match op {
        UnaryOp::Neg => {
            let operand = if operand.ty == Some(TypeView::Bool) {
                operand.coerce(TypeView::Int)
            } else {
                operand
            };
            if operand.ty == Some(TypeView::Int) {
                Ok(
                    ExprView {
                        kind: ExprKindView::Unary(op, Box::new(operand)),
                        ty: Some(TypeView::Int),
                    },
                )
            } else {
                Err(SemanticError::TypeMismatch)
            }
        },
        UnaryOp::Not => if operand.ty == Some(TypeView::Bool) || operand.ty == Some(TypeView::Int) {
            Ok(
                ExprView {
                    kind: ExprKindView::Unary(op, Box::new(operand)),
                    ty: Some(TypeView::Bool),
                },
            )
        } else {
            Err(SemanticError::TypeMismatch)
        },
    }
}

/// An analyzed expression brought to the type that its place expects: a
/// boolean or an integer is coerced to, any other type must be the type that
/// the expression has.
pub open spec fn expected(expr: ExprView, expect: Option<TypeView>) -> Result<
    ExprView,
    SemanticError,
> {
    match expect {
        None => Ok(expr),
        Some(ty) => if ty.is_scalar() {
            Ok(expr.coerce(ty))
        } else if Some(ty) != expr.ty {
            Err(SemanticError::TypeMismatch)
        } else {
            Ok(expr)
        },
    }
}

/// An expression replaced by its value, where it has one at compile time.
pub open spec fn folded_expr(expr: ExprView, scopes: Scopes) -> Result<ExprView, SemanticError> {
    match fold(expr, scopes) {
        Err(e) => Err(e),
        Ok(Some(v)) => Ok(ExprView::constant(v)),
        Ok(None) => Ok(expr),
    }
}

/// The analysis of an expression that stands where a value of type `expect`
/// is expected, or any value where `expect` is `None`.
///
/// An expression that has its type already, with nothing expected of it, is
/// left as it is. Otherwise the expression is typed by the rule of its shape,
/// brought to the expected type, and folded.
pub open spec fn check_expr(expr: ExprView, expect: Option<TypeView>, scopes: Scopes) -> Result<
    ExprView,
    SemanticError,
>
    decreases expr, 1nat,
{
    if expr.ty is Some && expect is None {
        Ok(expr)
    } else {
        match natural(expr, scopes) {
            Err(e) => Err(e),
            Ok(typed) => match expected(typed, expect) {
                Err(e) => Err(e),
                Ok(coerced) => folded_expr(coerced, scopes),
            },
        }
    }
}

/// An expression typed by the rule of its shape.
///
/// - A constant is left as it is.
/// - The operands of an operation are analyzed with nothing expected of
///   them, from left to right.
/// - A call names a function; it has as many arguments as the function has
///   parameters, each analyzed with the parameter's type expected, from left
///   to right; its type is the function's return type.
/// - A variable has the type that it was declared with.
/// - A coercion is never accepted: only the analysis makes them.
pub open spec fn natural(expr: ExprView, scopes: Scopes) -> Result<ExprView, SemanticError>
    decreases expr, 0nat,
{
    match expr.kind {
        ExprKindView::Const(_) => Ok(expr),
        ExprKindView::Binary(op, lhs, rhs) => match check_expr(*lhs, None, scopes) {
            Err(e) => Err(e),
            Ok(lhs) => match check_expr(*rhs, None, scopes) {
                Err(e) => Err(e),
                Ok(rhs) => binary_typed(op, lhs, rhs),
            },
        },
        ExprKindView::Unary(op, operand) => match check_expr(*operand, None, scopes) {
            Err(e) => Err(e),
            Ok(operand) => unary_typed(op, operand),
        },
        ExprKindView::Call(name, args) => match lookup_in(scopes, name) {
            None => Err(SemanticError::UnresolvedIdentifier),
            Some(entry) => match entry.ty {
                TypeView::Func(params, ret) => if args.len() != params.len() {
                    Err(SemanticError::ArityMismatch)
                } else {
                    match check_args(args, params, scopes, args.len()) {
                        Err(e) => Err(e),
                        Ok(args) => Ok(
                            ExprView { kind: ExprKindView::Call(name, args), ty: Some(*ret) },
                        ),
                    }
                },
                _ => Err(SemanticError::TypeMismatch),
            },
        },
        ExprKindView::Var(name) => match lookup_in(scopes, name) {
            None => Err(SemanticError::UnresolvedIdentifier),
            Some(entry) => Ok(ExprView { kind: ExprKindView::Var(name), ty: Some(entry.ty) }),
        },
        ExprKindView::Coercion(_) => Err(SemanticError::MalformedCoercion),
    }
}

/// The analysis of the first `n` arguments of a call, each with the type of
/// its parameter expected.
pub open spec fn check_args(args: Seq<ExprView>, params: Seq<TypeView>, scopes: Scopes, n: nat) -> Result<
    Seq<ExprView>,
    SemanticError,
>
    decreases args, n,
{
    if n == 0 || n > args.len() {
        Ok(Seq::empty())
    } else {
        match check_args(args, params, scopes, (n - 1) as nat) {
            Err(e) => Err(e),
            Ok(done) => match check_expr(args[n - 1], Some(params[n - 1]), scopes) {
                Err(e) => Err(e),
                Ok(arg) => Ok(done.push(arg)),
            },
        }
    }
}

/// What an outcome of the analysis of an expression holds.
pub open spec fn expr_result_view(outcome: Result<Expr, SemanticError>) -> Result<
    ExprView,
    SemanticError,
> {
    match outcome {
        Ok(e) => Ok(e@),
        Err(e) => Err(e),
    }
}

/// The view of an optional reference to a type.
pub open spec fn type_ref_view(ty: Option<&Type>) -> Option<TypeView> {
    match ty {
        Some(t) => Some(t@),
        None => None,
    }
}

/// Once the analysis of the arguments has failed, it stays failed however
/// many more arguments are looked at.
pub proof fn lemma_check_args_failed(
    args: Seq<ExprView>,
    params: Seq<TypeView>,
    scopes: Scopes,
    n: nat,
    m: nat,
)
    requires
        1 <= n <= m <= args.len(),
        check_args(args, params, scopes, n) is Err,
    ensures
        check_args(args, params, scopes, m) == check_args(args, params, scopes, n),
    decreases m,
{
    if n < m {
        lemma_check_args_failed(args, params, scopes, n, (m - 1) as nat);
    }
}

/// The type of an analyzed expression is known.
pub proof fn lemma_folded_typed(expr: ExprView, scopes: Scopes)
    requires
        expr.ty is Some || expr.kind is Const,
    ensures
        folded_expr(expr, scopes) matches Ok(e) ==> e.ty is Some,
{
}

impl Expr {
    /// The expression replaced by its value, where it has one at compile
    /// time.
    fn folded(self, symtable: &SymbolTable) -> (r: Result<Expr, SemanticError>)
        ensures
            expr_result_view(r) == folded_expr(self@, symtable@.scopes),
    {
        match self.try_fold(symtable) {
            Err(e) => Err(e),
            Ok(Some(v)) => Ok(Expr::const_(v)),
            Ok(None) => Ok(self),
        }
    }

    /// The expression brought to the type that its place expects.
    fn expected(self, expect: Option<&Type>) -> (r: Result<Expr, SemanticError>)
        ensures
            expr_result_view(r) == expected(self@, type_ref_view(expect)),
    {
        match expect {
            None => Ok(self),
            Some(ty) => {
                if ty.is_int() {
                    Ok(Expr::coercion(self, Type::int_()))
                } else if ty.is_bool() {
                    Ok(Expr::coercion(self, Type::bool()))
                } else {
                    let same = match &self.ty {
                        Some(have) => *have == *ty,
                        None => false,
                    };
                    if same {
                        Ok(self)
                    } else {
                        Err(SemanticError::TypeMismatch)
                    }
                }
            },
        }
    }

    /// A binary operation on two analyzed operands.
    fn binary_typed(op: BinaryOp, lhs: Expr, rhs: Expr) -> (r: Result<Expr, SemanticError>)
        requires
            lhs@.ty is Some,
            rhs@.ty is Some,
        ensures
            expr_result_view(r) == binary_typed(op, lhs@, rhs@),
            r matches Ok(e) ==> e@.ty is Some,
    {
        let mut lhs = lhs;
        let mut rhs = rhs;
        if lhs.ty().is_bool() && rhs.ty().is_int() {
            lhs = Expr::coercion(lhs, Type::int_());
        } else if lhs.ty().is_int() && rhs.ty().is_bool() {
            rhs = Expr::coercion(rhs, Type::int_());
        }
        if *lhs.ty() != *rhs.ty() {
            return Err(SemanticError::TypeMismatch);
        }
        let ty = lhs.ty().clone();
        Ok(Expr { kind: ExprKind::Binary(op, Box::new(lhs), Box::new(rhs)), ty: Some(ty) })
    }

    /// A unary operation on an analyzed operand.
    fn unary_typed(op: UnaryOp, operand: Expr) -> (r: Result<Expr, SemanticError>)
        requires
            operand@.ty is Some,
        ensures
            expr_result_view(r) == unary_typed(op, operand@),
            r matches Ok(e) ==> e@.ty is Some,
    {
        match op {
            UnaryOp::Neg => {
                let mut operand = operand;
                if operand.ty().is_bool() {
                    operand = Expr::coercion(operand, Type::int_());
                }
                if operand.ty().is_int() {
                    Ok(
                        Expr {
                            kind: ExprKind::Unary(op, Box::new(operand)),
                            ty: Some(Type::int_()),
                        },
                    )
                } else {
                    Err(SemanticError::TypeMismatch)
                }
            },
            UnaryOp::Not => {
                if operand.ty().is_bool() || operand.ty().is_int() {
                    Ok(
                        Expr {
                            kind: ExprKind::Unary(op, Box::new(operand)),
                            ty: Some(Type::bool()),
                        },
                    )
                } else {
                    Err(SemanticError::TypeMismatch)
                }
            },
        }
    }

    /// The expression typed by the rule of its shape.
    fn natural(self, symtable: &SymbolTable) -> (r: Result<Expr, SemanticError>)
        ensures
            expr_result_view(r) == natural(self@, symtable@.scopes),
            r matches Ok(e) ==> e@.ty is Some || e@.kind is Const,
        decreases self, 0nat,
    {
        match self.kind {
            ExprKind::Const(val) => Ok(Expr { kind: ExprKind::Const(val), ty: self.ty }),
            ExprKind::Binary(op, lhs, rhs) => {
                let lhs = match (*lhs).type_check(None, symtable) {
                    Ok(e) => e,
                    Err(e) => { return Err(e); },
                };
                let rhs = match (*rhs).type_check(None, symtable) {
                    Ok(e) => e,
                    Err(e) => { return Err(e); },
                };
                Expr::binary_typed(op, lhs, rhs)
            },
            ExprKind::Unary(op, operand) => {
                let operand = match (*operand).type_check(None, symtable) {
                    Ok(e) => e,
                    Err(e) => { return Err(e); },
                };
                Expr::unary_typed(op, operand)
            },
            ExprKind::FuncCall(call) => {
                proof {
                    call.lemma_view();
                }
                let FuncCall { ident, args } = call;
                let entry = match symtable.lookup(ident.as_str()) {
                    Some(entry) => entry,
                    None => { return Err(SemanticError::UnresolvedIdentifier); },
                };
                match entry.ty.kind() {
                    TypeKind::Func(param_tys, ret_ty) => {
                        proof {
                            TypeKind::lemma_view_func(*param_tys, *ret_ty);
                        }
                        if args.len() != param_tys.len() {
                            return Err(SemanticError::ArityMismatch);
                        }
                        let args = match Expr::check_args(args, param_tys, symtable) {
                            Ok(args) => args,
                            Err(e) => { return Err(e); },
                        };
                        let call = FuncCall { ident, args };
                        proof {
                            call.lemma_view();
                        }
                        Ok(Expr { kind: ExprKind::FuncCall(call), ty: Some(ret_ty.clone()) })
                    },
                    _ => Err(SemanticError::TypeMismatch),
                }
            },
            ExprKind::LVal(lval) => {
                let ty = match symtable.lookup(lval.ident.as_str()) {
                    Some(entry) => entry.ty.clone(),
                    None => { return Err(SemanticError::UnresolvedIdentifier); },
                };
                Ok(Expr { kind: ExprKind::LVal(lval), ty: Some(ty) })
            },
            ExprKind::Coercion(_) => Err(SemanticError::MalformedCoercion),
        }
    }

    /// The analysis of the arguments of a call, each with the type of its
    /// parameter expected.
    fn check_args(args: Vec<Expr>, params: &Vec<Type>, symtable: &SymbolTable) -> (r: Result<
        Vec<Expr>,
        SemanticError,
    >)
        requires
            args.len() == params.len(),
        ensures
            match r {
                Ok(done) => check_args(
                    expr_views(args@),
                    type_views(params@),
                    symtable@.scopes,
                    args@.len(),
                ) == Ok::<Seq<ExprView>, SemanticError>(expr_views(done@)),
                Err(e) => check_args(
                    expr_views(args@),
                    type_views(params@),
                    symtable@.scopes,
                    args@.len(),
                ) == Err::<Seq<ExprView>, SemanticError>(e),
            },
        decreases args, 0nat,
    {
        let ghost all = expr_views(args@);
        let ghost tys = type_views(params@);
        let ghost scopes = symtable@.scopes;
        let ghost items = args@;
        let mut done: Vec<Expr> = Vec::new();
        let mut i: usize = 0;
        let count = args.len();
        assert(expr_views(done@) =~= Seq::empty());
        for arg in it: args
            invariant
                i == it.index(),
                items.len() == count,
                it.seq() == items,
                items.len() == params@.len(),
                all == expr_views(items),
                tys == type_views(params@),
                scopes == symtable@.scopes,
                args@ == items,
                check_args(all, tys, scopes, i as nat) == Ok::<Seq<ExprView>, SemanticError>(
                    expr_views(done@),
                ),
        {
            assert(arg == items[i as int]);
            assert(i < items.len());
            let checked = match arg.type_check(Some(&params[i]), symtable) {
                Ok(e) => e,
                Err(e) => {
                    proof {
                        lemma_check_args_failed(all, tys, scopes, (i + 1) as nat, items.len());
                    }
                    return Err(e);
                },
            };
            let ghost before = expr_views(done@);
            let ghost checked_view = checked@;
            done.push(checked);
            i += 1;
            assert(expr_views(done@) =~= before.push(checked_view));
        }
        Ok(done)
    }

    /// The analysis of the expression, where a value of type `expect` is
    /// expected, or any value where `expect` is `None`: the expression with
    /// its type known, coercions made explicit, and folded where it is
    /// constant.
    pub fn type_check(self, expect: Option<&Type>, symtable: &SymbolTable) -> (r: Result<
        Expr,
        SemanticError,
    >)
        ensures
            expr_result_view(r) == check_expr(self@, type_ref_view(expect), symtable@.scopes),
            r matches Ok(e) ==> e@.ty is Some,
        decreases self, 1nat,
    {
        if self.ty.is_some() && expect.is_none() {
            return Ok(self);
        }
        let typed = match self.natural(symtable) {
            Ok(e) => e,
            Err(e) => { return Err(e); },
        };
        let coerced = match typed.expected(expect) {
            Ok(e) => e,
            Err(e) => { return Err(e); },
        };
        proof {
            lemma_folded_typed(coerced@, symtable@.scopes);
        }
        coerced.folded(symtable)
    }
}

} // verus!

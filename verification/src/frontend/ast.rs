//! The syntax tree of a program.
//!
//! Every node has a view that holds what the node holds, with sequences in
//! place of vectors and strings. The analysis is stated over these views.

pub use super::symtable::{SymbolEntry, SymbolTable};
use super::types::{Type, TypeView};
use super::value::ComptimeValView;
pub use super::value::{BinaryOp, ComptimeVal, UnaryOp};
use vstd::prelude::*;

verus! {

/// A call of a function.
#[derive(Debug)]
pub struct FuncCall {
    pub ident: String,
    pub args: Vec<Expr>,
}

/// A place that holds a value and can be assigned to.
#[derive(Debug)]
pub struct LVal {
    pub ident: String,
}

/// The shape of an expression.
#[derive(Debug)]
pub enum ExprKind {
    /// A constant.
    Const(ComptimeVal),
    /// A binary operation.
    Binary(BinaryOp, Box<Expr>, Box<Expr>),
    /// A unary operation.
    Unary(UnaryOp, Box<Expr>),
    /// A call of a function.
    FuncCall(FuncCall),
    /// The value of a variable.
    LVal(LVal),
    /// A conversion of the inner expression to the type of this node. Only
    /// the analysis makes such nodes.
    Coercion(Box<Expr>),
}

/// An expression.
#[derive(Debug)]
pub struct Expr {
    /// The shape of the expression.
    pub kind: ExprKind,
    /// The type of the expression, once the analysis has found it.
    pub ty: Option<Type>,
}

/// An expression statement; `expr` is absent in an empty statement.
#[derive(Debug)]
pub struct ExprStmt {
    pub expr: Option<Expr>,
}

/// A return statement.
#[derive(Debug)]
pub struct ReturnStmt {
    pub expr: Option<Expr>,
}

/// A statement.
#[derive(Debug)]
pub enum Stmt {
    /// `a = 1;`
    Assign(LVal, Expr),
    /// `1 + 2;`
    Expr(ExprStmt),
    /// `{ ... }`
    Block(Block),
    /// `if (a) { ... } else { ... }`
    If(Expr, Box<Stmt>, Option<Box<Stmt>>),
    /// `while (a) { ... }`
    While(Expr, Box<Stmt>),
    /// `break;`
    Break,
    /// `continue;`
    Continue,
    /// `return 1;`
    Return(ReturnStmt),
}

/// An item of a block.
#[derive(Debug)]
pub enum BlockItem {
    Decl(Decl),
    Stmt(Stmt),
}

/// A sequence of declarations and statements in braces.
#[derive(Debug)]
pub struct Block {
    pub items: Vec<BlockItem>,
}

/// A declaration: `const int a = 1, b = 2;` or `int a = 1, b;`.
#[derive(Debug)]
pub enum Decl {
    ConstDecl(ConstDecl),
    VarDecl(VarDecl),
}

/// The definition of one constant within a declaration.
#[derive(Debug)]
pub struct ConstDef {
    pub ident: String,
    pub init: Expr,
}

/// The definition of one variable within a declaration.
#[derive(Debug)]
pub struct VarDef {
    pub ident: String,
    pub init: Option<Expr>,
}

/// A declaration of constants.
#[derive(Debug)]
pub struct ConstDecl {
    pub ty: Type,
    pub defs: Vec<ConstDef>,
}

/// A declaration of variables.
#[derive(Debug)]
pub struct VarDecl {
    pub ty: Type,
    pub defs: Vec<VarDef>,
}

/// A parameter of a function definition.
#[derive(Debug)]
pub struct FuncFParam {
    pub ty: Type,
    pub ident: String,
}

/// The definition of a function.
#[derive(Debug)]
pub struct FuncDef {
    /// The type of the value that the function returns.
    pub ret_ty: Type,
    /// The name of the function.
    pub ident: String,
    /// The parameters of the function.
    pub params: Vec<FuncFParam>,
    /// The body of the function.
    pub body: Block,
}

/// An item at the top level of a program.
#[derive(Debug)]
pub enum Item {
    Decl(Decl),
    FuncDef(FuncDef),
}

/// A whole program: the root of the tree.
#[derive(Debug)]
pub struct CompUnit {
    pub items: Vec<Item>,
}

/// What an [`ExprKind`] holds.
pub enum ExprKindView {
    Const(ComptimeValView),
    Binary(BinaryOp, Box<ExprView>, Box<ExprView>),
    Unary(UnaryOp, Box<ExprView>),
    Call(Seq<char>, Seq<ExprView>),
    Var(Seq<char>),
    Coercion(Box<ExprView>),
}

/// What an [`Expr`] holds.
pub struct ExprView {
    pub kind: ExprKindView,
    pub ty: Option<TypeView>,
}

/// What a [`Stmt`] holds.
pub enum StmtView {
    Assign(Seq<char>, ExprView),
    Expr(Option<ExprView>),
    Block(Seq<BlockItemView>),
    If(ExprView, Box<StmtView>, Option<Box<StmtView>>),
    While(ExprView, Box<StmtView>),
    Break,
    Continue,
    Return(Option<ExprView>),
}

/// What a [`BlockItem`] holds.
pub enum BlockItemView {
    Decl(DeclView),
    Stmt(StmtView),
}

/// What a [`ConstDef`] holds.
pub struct ConstDefView {
    pub ident: Seq<char>,
    pub init: ExprView,
}

/// What a [`VarDef`] holds.
pub struct VarDefView {
    pub ident: Seq<char>,
    pub init: Option<ExprView>,
}

/// What a [`Decl`] holds.
pub enum DeclView {
    Const(TypeView, Seq<ConstDefView>),
    Var(TypeView, Seq<VarDefView>),
}

/// What a [`FuncFParam`] holds.
pub struct FuncFParamView {
    pub ty: TypeView,
    pub ident: Seq<char>,
}

/// What a [`FuncDef`] holds.
pub struct FuncDefView {
    pub ret_ty: TypeView,
    pub ident: Seq<char>,
    pub params: Seq<FuncFParamView>,
    pub body: Seq<BlockItemView>,
}

/// What an [`Item`] holds.
pub enum ItemView {
    Decl(DeclView),
    FuncDef(FuncDefView),
}

/// What a [`CompUnit`] holds.
pub struct CompUnitView {
    pub items: Seq<ItemView>,
}

impl ExprView {
    /// The expression that is the constant `value`, with the type of the
    /// value.
    pub open spec fn constant(value: ComptimeValView) -> ExprView {
        ExprView { kind: ExprKindView::Const(value), ty: Some(value.type_of()) }
    }

    /// This expression converted to the type `to`: the expression itself
    /// where it has that type already, else a coercion node around it.
    pub open spec fn coerce(self, to: TypeView) -> ExprView {
        if self.ty == Some(to) {
            self
        } else {
            ExprView { kind: ExprKindView::Coercion(Box::new(self)), ty: Some(to) }
        }
    }
}

/// Coercion is idempotent: an expression that has the type `to` is its own
/// coercion to `to`, so coercing twice is coercing once; and the coercion of
/// any expression has the type `to`.
pub proof fn lemma_coerce_idempotent(expr: ExprView, to: TypeView)
    ensures
        expr.ty == Some(to) ==> expr.coerce(to) == expr,
        expr.coerce(to).ty == Some(to),
        expr.coerce(to).coerce(to) == expr.coerce(to),
{
}

/// The view of an optional type.
pub open spec fn type_option_view(ty: Option<Type>) -> Option<TypeView> {
    match ty {
        Some(t) => Some(t@),
        None => None,
    }
}

/// The views of a list of expressions, in order.
pub open spec fn expr_views(exprs: Seq<Expr>) -> Seq<ExprView> {
    Seq::new(exprs.len(), |i: int| exprs[i]@)
}

/// The view of an optional expression.
pub open spec fn expr_option_view(expr: Option<Expr>) -> Option<ExprView> {
    match expr {
        Some(e) => Some(e@),
        None => None,
    }
}

impl FuncCall {
    pub open spec fn view(&self) -> ExprKindView
        decreases self,
    {
        ExprKindView::Call(
            self.ident@,
            Seq::new(
                self.args@.len(),
                |i: int|
                    if 0 <= i < self.args@.len() {
                        self.args@[i].view()
                    } else {
                        arbitrary()
                    },
            ),
        )
    }

    /// The view of a call is built from the views of its arguments.
    pub proof fn lemma_view(self)
        ensures
            self@ == ExprKindView::Call(self.ident@, expr_views(self.args@)),
    {
        assert(self@->Call_1 =~= expr_views(self.args@));
    }

    /// A deep copy of a call.
    #[verifier::loop_isolation(false)]
    fn duplicate(&self) -> (r: FuncCall)
        ensures
            r@ == self@,
        decreases self,
    {
        let mut args: Vec<Expr> = Vec::new();
        let mut i: usize = 0;
        while i < self.args.len()
            invariant
                i <= self.args.len(),
                args.len() == i,
                forall|j: int| 0 <= j < i ==> args@[j]@ == self.args@[j]@,
            decreases self.args.len() - i,
        {
            args.push(self.args[i].duplicate());
            i += 1;
        }
        let r = FuncCall { ident: self.ident.clone(), args };
        proof {
            r.lemma_view();
            self.lemma_view();
            assert(expr_views(r.args@) =~= expr_views(self.args@));
        }
        r
    }
}

impl Clone for FuncCall {
    fn clone(&self) -> (r: Self)
        ensures
            r@ == self@,
    {
        self.duplicate()
    }
}

impl Clone for LVal {
    fn clone(&self) -> (r: Self)
        ensures
            r@ == self@,
    {
        LVal { ident: self.ident.clone() }
    }
}

impl LVal {
    pub open spec fn view(&self) -> Seq<char> {
        self.ident@
    }
}

impl ExprKind {
    pub open spec fn view(&self) -> ExprKindView
        decreases self,
    {
        match self {
            ExprKind::Const(v) => ExprKindView::Const(v@),
            ExprKind::Binary(op, lhs, rhs) => ExprKindView::Binary(
                *op,
                Box::new(lhs.view()),
                Box::new(rhs.view()),
            ),
            ExprKind::Unary(op, operand) => ExprKindView::Unary(*op, Box::new(operand.view())),
            ExprKind::FuncCall(call) => call.view(),
            ExprKind::LVal(lval) => ExprKindView::Var(lval@),
            ExprKind::Coercion(inner) => ExprKindView::Coercion(Box::new(inner.view())),
        }
    }

    /// A deep copy of the shape of an expression.
    fn duplicate(&self) -> (r: ExprKind)
        ensures
            r@ == self@,
        decreases self,
    {
        match self {
            ExprKind::Const(v) => ExprKind::Const(v.clone()),
            ExprKind::Binary(op, lhs, rhs) => ExprKind::Binary(
                *op,
                Box::new(lhs.duplicate()),
                Box::new(rhs.duplicate()),
            ),
            ExprKind::Unary(op, operand) => ExprKind::Unary(*op, Box::new(operand.duplicate())),
            ExprKind::FuncCall(call) => ExprKind::FuncCall(call.duplicate()),
            ExprKind::LVal(lval) => ExprKind::LVal(lval.clone()),
            ExprKind::Coercion(inner) => ExprKind::Coercion(Box::new(inner.duplicate())),
        }
    }
}

impl Clone for ExprKind {
    fn clone(&self) -> (r: Self)
        ensures
            r@ == self@,
    {
        self.duplicate()
    }
}

impl Expr {
    pub open spec fn view(&self) -> ExprView
        decreases self,
    {
        ExprView { kind: self.kind.view(), ty: type_option_view(self.ty) }
    }

    /// The expression that is the constant `val`.
    pub fn const_(val: ComptimeVal) -> (r: Expr)
        ensures
            r@ == ExprView::constant(val@),
    {
        let ty = val.get_type();
        Expr { kind: ExprKind::Const(val), ty: Some(ty) }
    }

    /// A binary operation, not yet typed.
    pub fn binary(op: BinaryOp, lhs: Expr, rhs: Expr) -> (r: Expr)
        ensures
            r@ == (ExprView {
                kind: ExprKindView::Binary(op, Box::new(lhs@), Box::new(rhs@)),
                ty: None,
            }),
    {
        Expr { kind: ExprKind::Binary(op, Box::new(lhs), Box::new(rhs)), ty: None }
    }

    /// A unary operation, not yet typed.
    pub fn unary(op: UnaryOp, expr: Expr) -> (r: Expr)
        ensures
            r@ == (ExprView { kind: ExprKindView::Unary(op, Box::new(expr@)), ty: None }),
    {
        Expr { kind: ExprKind::Unary(op, Box::new(expr)), ty: None }
    }

    /// A call of the function `ident`, not yet typed.
    pub fn func_call(ident: String, args: Vec<Expr>) -> (r: Expr)
        ensures
            r@ == (ExprView { kind: ExprKindView::Call(ident@, expr_views(args@)), ty: None }),
    {
        let call = FuncCall { ident, args };
        proof {
            call.lemma_view();
        }
        Expr { kind: ExprKind::FuncCall(call), ty: None }
    }

    /// The value of a variable, not yet typed.
    pub fn lval(lval: LVal) -> (r: Expr)
        ensures
            r@ == (ExprView { kind: ExprKindView::Var(lval@), ty: None }),
    {
        Expr { kind: ExprKind::LVal(lval), ty: None }
    }

    /// `expr` converted to the type `to`. An expression that has this type
    /// already comes back unchanged.
    pub fn coercion(expr: Expr, to: Type) -> (r: Expr)
        ensures
            r@ == expr@.coerce(to@),
    {
        let same = match &expr.ty {
            Some(from) => *from == to,
            None => false,
        };
        if same {
            expr
        } else {
            Expr { kind: ExprKind::Coercion(Box::new(expr)), ty: Some(to) }
        }
    }

    /// The type of an analyzed expression.
    pub fn ty(&self) -> (r: &Type)
        requires
            self@.ty is Some,
        ensures
            Some(r@) == self@.ty,
    {
        match &self.ty {
            Some(ty) => ty,
            None => vstd::pervasive::unreached(),
        }
    }

    /// A deep copy of an expression.
    fn duplicate(&self) -> (r: Expr)
        ensures
            r@ == self@,
        decreases self,
    {
        let ty = match &self.ty {
            Some(t) => Some(t.clone()),
            None => None,
        };
        Expr { kind: self.kind.duplicate(), ty }
    }
}

impl Clone for Expr {
    fn clone(&self) -> (r: Self)
        ensures
            r@ == self@,
    {
        self.duplicate()
    }
}

/// The views of the items of a block, in order.
pub open spec fn block_item_views(items: Seq<BlockItem>) -> Seq<BlockItemView> {
    Seq::new(items.len(), |i: int| items[i]@)
}

impl Stmt {
    pub open spec fn view(&self) -> StmtView
        decreases self,
    {
        match self {
            Stmt::Assign(lval, expr) => StmtView::Assign(lval@, expr@),
            Stmt::Expr(stmt) => StmtView::Expr(expr_option_view(stmt.expr)),
            Stmt::Block(block) => StmtView::Block(block.view()),
            Stmt::If(cond, then_stmt, else_stmt) => StmtView::If(
                cond@,
                Box::new(then_stmt.view()),
                match else_stmt {
                    Some(stmt) => Some(Box::new(stmt.view())),
                    None => None,
                },
            ),
            Stmt::While(cond, body) => StmtView::While(cond@, Box::new(body.view())),
            Stmt::Break => StmtView::Break,
            Stmt::Continue => StmtView::Continue,
            Stmt::Return(stmt) => StmtView::Return(expr_option_view(stmt.expr)),
        }
    }
}

impl BlockItem {
    pub open spec fn view(&self) -> BlockItemView
        decreases self,
    {
        match self {
            BlockItem::Decl(decl) => BlockItemView::Decl(decl@),
            BlockItem::Stmt(stmt) => BlockItemView::Stmt(stmt.view()),
        }
    }
}

impl Block {
    pub open spec fn view(&self) -> Seq<BlockItemView>
        decreases self,
    {
        Seq::new(
            self.items@.len(),
            |i: int|
                if 0 <= i < self.items@.len() {
                    self.items@[i].view()
                } else {
                    arbitrary()
                },
        )
    }

    /// The view of a block is built from the views of its items.
    pub proof fn lemma_view(self)
        ensures
            self@ == block_item_views(self.items@),
    {
        assert(self@ =~= block_item_views(self.items@));
    }
}

impl ConstDef {
    pub open spec fn view(&self) -> ConstDefView {
        ConstDefView { ident: self.ident@, init: self.init@ }
    }
}

impl VarDef {
    pub open spec fn view(&self) -> VarDefView {
        VarDefView { ident: self.ident@, init: expr_option_view(self.init) }
    }
}

/// The views of the definitions of constants, in order.
pub open spec fn const_def_views(defs: Seq<ConstDef>) -> Seq<ConstDefView> {
    Seq::new(defs.len(), |i: int| defs[i]@)
}

/// The views of the definitions of variables, in order.
pub open spec fn var_def_views(defs: Seq<VarDef>) -> Seq<VarDefView> {
    Seq::new(defs.len(), |i: int| defs[i]@)
}

/// The views of the parameters of a function, in order.
pub open spec fn param_views(params: Seq<FuncFParam>) -> Seq<FuncFParamView> {
    Seq::new(params.len(), |i: int| params[i]@)
}

/// The views of the items of a program, in order.
pub open spec fn item_views(items: Seq<Item>) -> Seq<ItemView> {
    Seq::new(items.len(), |i: int| items[i]@)
}

impl ConstDecl {
    pub open spec fn view(&self) -> DeclView {
        DeclView::Const(self.ty@, const_def_views(self.defs@))
    }
}

impl VarDecl {
    pub open spec fn view(&self) -> DeclView {
        DeclView::Var(self.ty@, var_def_views(self.defs@))
    }
}

impl Decl {
    pub open spec fn view(&self) -> DeclView {
        match self {
            Decl::ConstDecl(decl) => decl@,
            Decl::VarDecl(decl) => decl@,
        }
    }
}

impl FuncFParam {
    pub open spec fn view(&self) -> FuncFParamView {
        FuncFParamView { ty: self.ty@, ident: self.ident@ }
    }
}

impl FuncDef {
    pub open spec fn view(&self) -> FuncDefView {
        FuncDefView {
            ret_ty: self.ret_ty@,
            ident: self.ident@,
            params: param_views(self.params@),
            body: self.body@,
        }
    }
}

impl Item {
    pub open spec fn view(&self) -> ItemView {
        match self {
            Item::Decl(decl) => ItemView::Decl(decl@),
            Item::FuncDef(def) => ItemView::FuncDef(def@),
        }
    }
}

impl CompUnit {
    pub open spec fn view(&self) -> CompUnitView {
        CompUnitView { items: item_views(self.items@) }
    }
}

} // verus!

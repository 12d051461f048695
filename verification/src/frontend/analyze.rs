//! Semantic analysis of statements, declarations, functions and whole
//! programs.
//!
//! The analysis of a statement leaves the symbol table as it found it. A
//! declaration binds its names in the innermost scope, and a function binds
//! its own name there.

use super::ast::{
    block_item_views, const_def_views, item_views, param_views, var_def_views, Block, BlockItem,
    BlockItemView, CompUnit, CompUnitView, ConstDecl, ConstDef, ConstDefView, Decl, DeclView,
    Expr, ExprStmt, ExprView, FuncDef, FuncDefView, FuncFParamView, Item, ItemView,
    ReturnStmt, Stmt, StmtView, VarDecl, VarDef, VarDefView,
};
use super::error::SemanticError;
use super::fold::fold;
use super::symtable::{SymbolEntry, SymbolEntryView, SymbolTable, SymbolTableView};
use super::typeck::{check_expr, folded_expr};
use super::types::{type_views, Type, TypeView};
use super::value::{ComptimeVal, ComptimeValView};
use vstd::prelude::*;

verus! {

/// The analysis of a statement.
///
/// - An assignment needs its target declared, and expects a value of the
///   target's type.
/// - An expression statement expects nothing of its expression.
/// - The condition of `if` and `while` is expected to be a boolean; the
///   condition is analyzed before the branches.
/// - A return with a value expects the return type of the function being
///   worked on, and that type must be the integer type.
pub open spec fn check_stmt(stmt: StmtView, table: SymbolTableView) -> Result<
    StmtView,
    SemanticError,
>
    decreases stmt, 0nat,
{
    match stmt {
        StmtView::Assign(name, expr) => match table.lookup(name) {
            None => Err(SemanticError::UnresolvedIdentifier),
            Some(entry) => match check_expr(expr, Some(entry.ty), table.scopes) {
                Err(e) => Err(e),
                Ok(expr) => Ok(StmtView::Assign(name, expr)),
            },
        },
        StmtView::Expr(None) => Ok(stmt),
        StmtView::Expr(Some(expr)) => match check_expr(expr, None, table.scopes) {
            Err(e) => Err(e),
            Ok(expr) => Ok(StmtView::Expr(Some(expr))),
        },
        StmtView::Block(items) => match check_block(items, table) {
            Err(e) => Err(e),
            Ok(items) => Ok(StmtView::Block(items)),
        },
        StmtView::If(cond, then_stmt, else_stmt) => match check_expr(
            cond,
            Some(TypeView::Bool),
            table.scopes,
        ) {
            Err(e) => Err(e),
            Ok(cond) => match check_stmt(*then_stmt, table) {
                Err(e) => Err(e),
                Ok(then_stmt) => match else_stmt {
                    None => Ok(StmtView::If(cond, Box::new(then_stmt), None)),
                    Some(else_stmt) => match check_stmt(*else_stmt, table) {
                        Err(e) => Err(e),
                        Ok(else_stmt) => Ok(
                            StmtView::If(cond, Box::new(then_stmt), Some(Box::new(else_stmt))),
                        ),
                    },
                },
            },
        },
        StmtView::While(cond, body) => match check_expr(cond, Some(TypeView::Bool), table.scopes) {
            Err(e) => Err(e),
            Ok(cond) => match check_stmt(*body, table) {
                Err(e) => Err(e),
                Ok(body) => Ok(StmtView::While(cond, Box::new(body))),
            },
        },
        StmtView::Break => Ok(stmt),
        StmtView::Continue => Ok(stmt),
        StmtView::Return(None) => Ok(stmt),
        StmtView::Return(Some(expr)) => match check_expr(expr, table.curr_ret_ty, table.scopes) {
            Err(e) => Err(e),
            Ok(expr) => if table.curr_ret_ty == Some(TypeView::Int) {
                Ok(StmtView::Return(Some(expr.coerce(TypeView::Int))))
            } else {
                Err(SemanticError::InvalidOperation)
            },
        },
    }
}

/// The analysis of a block: that of its items, in a scope of their own.
pub open spec fn check_block(items: Seq<BlockItemView>, table: SymbolTableView) -> Result<
    Seq<BlockItemView>,
    SemanticError,
>
    decreases items, items.len() + 1,
{
    match check_items(items, table.enter(), items.len()) {
        Err(e) => Err(e),
        Ok((items, _)) => Ok(items),
    }
}

/// The analysis of the first `n` items of a block, in order: the items
/// analyzed, and the table with the names that they declare.
pub open spec fn check_items(items: Seq<BlockItemView>, table: SymbolTableView, n: nat) -> Result<
    (Seq<BlockItemView>, SymbolTableView),
    SemanticError,
>
    decreases items, n,
{
    if n == 0 || n > items.len() {
        Ok((Seq::empty(), table))
    } else {
        match check_items(items, table, (n - 1) as nat) {
            Err(e) => Err(e),
            Ok((done, table)) => match items[n - 1] {
                BlockItemView::Decl(decl) => match check_decl(decl, table) {
                    Err(e) => Err(e),
                    Ok((decl, table)) => Ok((done.push(BlockItemView::Decl(decl)), table)),
                },
                BlockItemView::Stmt(stmt) => match check_stmt(stmt, table) {
                    Err(e) => Err(e),
                    Ok(stmt) => Ok((done.push(BlockItemView::Stmt(stmt)), table)),
                },
            },
        }
    }
}

/// The analysis of the definition of a constant of type `ty`: the
/// initializer is expected to have that type and must have a value at
/// compile time. It is replaced by that value, which the name is bound to.
pub open spec fn check_const_def(ty: TypeView, def: ConstDefView, table: SymbolTableView) -> Result<
    (ConstDefView, SymbolTableView),
    SemanticError,
> {
    match check_expr(def.init, Some(ty), table.scopes) {
        Err(e) => Err(e),
        Ok(init) => match fold(init, table.scopes) {
            Err(e) => Err(e),
            Ok(None) => Err(SemanticError::NonConstantInitializer),
            Ok(Some(value)) => Ok(
                (
                    ConstDefView { ident: def.ident, init: ExprView::constant(value) },
                    table.insert(
                        def.ident,
                        SymbolEntryView { ty, comptime: Some(value), ir_value: None },
                    ),
                ),
            ),
        },
    }
}

/// The analysis of the definition of a variable of type `ty`: the
/// initializer is expected to have that type, and is folded where it is
/// constant. A variable without initializer gets the undefined value of its
/// type as initializer.
pub open spec fn check_var_def(ty: TypeView, def: VarDefView, table: SymbolTableView) -> Result<
    (VarDefView, SymbolTableView),
    SemanticError,
> {
    let bound = table.insert(def.ident, SymbolEntryView::from_ty(ty));
    match def.init {
        None => Ok(
            (
                VarDefView {
                    ident: def.ident,
                    init: Some(ExprView::constant(ComptimeValView::Undef(ty))),
                },
                bound,
            ),
        ),
        Some(init) => match check_expr(init, Some(ty), table.scopes) {
            Err(e) => Err(e),
            Ok(init) => match folded_expr(init, table.scopes) {
                Err(e) => Err(e),
                Ok(init) => Ok((VarDefView { ident: def.ident, init: Some(init) }, bound)),
            },
        },
    }
}

/// The analysis of the first `n` definitions of a declaration of constants.
pub open spec fn check_const_defs(
    ty: TypeView,
    defs: Seq<ConstDefView>,
    table: SymbolTableView,
    n: nat,
) -> Result<(Seq<ConstDefView>, SymbolTableView), SemanticError>
    decreases n,
{
    if n == 0 || n > defs.len() {
        Ok((Seq::empty(), table))
    } else {
        match check_const_defs(ty, defs, table, (n - 1) as nat) {
            Err(e) => Err(e),
            Ok((done, table)) => match check_const_def(ty, defs[n - 1], table) {
                Err(e) => Err(e),
                Ok((def, table)) => Ok((done.push(def), table)),
            },
        }
    }
}

/// The analysis of the first `n` definitions of a declaration of variables.
pub open spec fn check_var_defs(
    ty: TypeView,
    defs: Seq<VarDefView>,
    table: SymbolTableView,
    n: nat,
) -> Result<(Seq<VarDefView>, SymbolTableView), SemanticError>
    decreases n,
{
    if n == 0 || n > defs.len() {
        Ok((Seq::empty(), table))
    } else {
        match check_var_defs(ty, defs, table, (n - 1) as nat) {
            Err(e) => Err(e),
            Ok((done, table)) => match check_var_def(ty, defs[n - 1], table) {
                Err(e) => Err(e),
                Ok((def, table)) => Ok((done.push(def), table)),
            },
        }
    }
}

/// The analysis of a declaration: that of its definitions, in order.
pub open spec fn check_decl(decl: DeclView, table: SymbolTableView) -> Result<
    (DeclView, SymbolTableView),
    SemanticError,
> {
    match decl {
        DeclView::Const(ty, defs) => match check_const_defs(ty, defs, table, defs.len()) {
            Err(e) => Err(e),
            Ok((defs, table)) => Ok((DeclView::Const(ty, defs), table)),
        },
        DeclView::Var(ty, defs) => match check_var_defs(ty, defs, table, defs.len()) {
            Err(e) => Err(e),
            Ok((defs, table)) => Ok((DeclView::Var(ty, defs), table)),
        },
    }
}

/// The table with the first `n` parameters bound in the innermost scope,
/// each to its type.
pub open spec fn bind_params(params: Seq<FuncFParamView>, table: SymbolTableView, n: nat) -> SymbolTableView
    decreases n,
{
    if n == 0 || n > params.len() {
        table
    } else {
        bind_params(params, table, (n - 1) as nat).insert(
            params[n - 1].ident,
            SymbolEntryView::from_ty(params[n - 1].ty),
        )
    }
}

/// The type of a function with the given parameters and return type.
pub open spec fn func_type(params: Seq<FuncFParamView>, ret_ty: TypeView) -> TypeView {
    TypeView::Func(Seq::new(params.len(), |i: int| params[i].ty), Box::new(ret_ty))
}

/// The table in which the body of a function is analyzed: in a new scope
/// that holds the parameters, with the function's own name bound in the
/// scope around it and the function's return type as the one being worked
/// on.
pub open spec fn body_table(def: FuncDefView, table: SymbolTableView) -> SymbolTableView {
    bind_params(def.params, table.enter(), def.params.len()).insert_upper(
        def.ident,
        SymbolEntryView::from_ty(func_type(def.params, def.ret_ty)),
        1,
    ).with_ret_ty(Some(def.ret_ty))
}

/// The analysis of the definition of a function: the body is analyzed in
/// its table. Afterwards the function's name stays bound in the table.
pub open spec fn check_func(def: FuncDefView, table: SymbolTableView) -> Result<
    (FuncDefView, SymbolTableView),
    SemanticError,
> {
    match check_block(def.body, body_table(def, table)) {
        Err(e) => Err(e),
        Ok(body) => Ok(
            (
                FuncDefView { body, ..def },
                table.insert(
                    def.ident,
                    SymbolEntryView::from_ty(func_type(def.params, def.ret_ty)),
                ),
            ),
        ),
    }
}

/// The analysis of an item at the top level.
pub open spec fn check_item(item: ItemView, table: SymbolTableView) -> Result<
    (ItemView, SymbolTableView),
    SemanticError,
> {
    match item {
        ItemView::Decl(decl) => match check_decl(decl, table) {
            Err(e) => Err(e),
            Ok((decl, table)) => Ok((ItemView::Decl(decl), table)),
        },
        ItemView::FuncDef(def) => match check_func(def, table) {
            Err(e) => Err(e),
            Ok((def, table)) => Ok((ItemView::FuncDef(def), table)),
        },
    }
}

/// The analysis of the first `n` items of a program, in order.
pub open spec fn check_top(items: Seq<ItemView>, table: SymbolTableView, n: nat) -> Result<
    (Seq<ItemView>, SymbolTableView),
    SemanticError,
>
    decreases n,
{
    if n == 0 || n > items.len() {
        Ok((Seq::empty(), table))
    } else {
        match check_top(items, table, (n - 1) as nat) {
            Err(e) => Err(e),
            Ok((done, table)) => match check_item(items[n - 1], table) {
                Err(e) => Err(e),
                Ok((item, table)) => Ok((done.push(item), table)),
            },
        }
    }
}

/// The analysis of a whole program: that of its items, in order, in one
/// global scope.
pub open spec fn check_unit(unit: CompUnitView) -> Result<CompUnitView, SemanticError> {
    match check_top(unit.items, SymbolTableView::empty().enter(), unit.items.len()) {
        Err(e) => Err(e),
        Ok((items, _)) => Ok(CompUnitView { items }),
    }
}

/// Two tables that differ in their innermost scope at most.
pub open spec fn same_outside(before: SymbolTableView, after: SymbolTableView) -> bool {
    &&& before.scopes.len() > 0
    &&& after.scopes.len() == before.scopes.len()
    &&& after.scopes.drop_last() == before.scopes.drop_last()
    &&& after.curr_ret_ty == before.curr_ret_ty
}

/// What an outcome of the analysis of a statement holds.
pub open spec fn stmt_result_view(outcome: Result<Stmt, SemanticError>) -> Result<
    StmtView,
    SemanticError,
> {
    match outcome {
        Ok(s) => Ok(s@),
        Err(e) => Err(e),
    }
}

/// What an outcome of the analysis of a block holds.
pub open spec fn block_result_view(outcome: Result<Block, SemanticError>) -> Result<
    Seq<BlockItemView>,
    SemanticError,
> {
    match outcome {
        Ok(b) => Ok(b@),
        Err(e) => Err(e),
    }
}

/// Once the analysis of the items of a block has failed, it stays failed
/// however many more items are looked at.
pub proof fn lemma_check_items_failed(
    items: Seq<BlockItemView>,
    table: SymbolTableView,
    n: nat,
    m: nat,
)
    requires
        1 <= n <= m <= items.len(),
        check_items(items, table, n) is Err,
    ensures
        check_items(items, table, m) == check_items(items, table, n),
    decreases m,
{
    if n < m {
        lemma_check_items_failed(items, table, n, (m - 1) as nat);
    }
}

/// Once the analysis of the definitions of constants has failed, it stays
/// failed.
pub proof fn lemma_check_const_defs_failed(
    ty: TypeView,
    defs: Seq<ConstDefView>,
    table: SymbolTableView,
    n: nat,
    m: nat,
)
    requires
        1 <= n <= m <= defs.len(),
        check_const_defs(ty, defs, table, n) is Err,
    ensures
        check_const_defs(ty, defs, table, m) == check_const_defs(ty, defs, table, n),
    decreases m,
{
    if n < m {
        lemma_check_const_defs_failed(ty, defs, table, n, (m - 1) as nat);
    }
}

/// Once the analysis of the definitions of variables has failed, it stays
/// failed.
pub proof fn lemma_check_var_defs_failed(
    ty: TypeView,
    defs: Seq<VarDefView>,
    table: SymbolTableView,
    n: nat,
    m: nat,
)
    requires
        1 <= n <= m <= defs.len(),
        check_var_defs(ty, defs, table, n) is Err,
    ensures
        check_var_defs(ty, defs, table, m) == check_var_defs(ty, defs, table, n),
    decreases m,
{
    if n < m {
        lemma_check_var_defs_failed(ty, defs, table, n, (m - 1) as nat);
    }
}

/// Once the analysis of the items of a program has failed, it stays failed.
pub proof fn lemma_check_top_failed(items: Seq<ItemView>, table: SymbolTableView, n: nat, m: nat)
    requires
        1 <= n <= m <= items.len(),
        check_top(items, table, n) is Err,
    ensures
        check_top(items, table, m) == check_top(items, table, n),
    decreases m,
{
    if n < m {
        lemma_check_top_failed(items, table, n, (m - 1) as nat);
    }
}

/// The analysis of the definition of a constant of type `ty`.
fn analyze_const_def(ty: &Type, def: ConstDef, symtable: &mut SymbolTable) -> (r: Result<
    ConstDef,
    SemanticError,
>)
    requires
        old(symtable)@.depth() > 0,
    ensures
        match r {
            Ok(done) => check_const_def(ty@, def@, old(symtable)@) == Ok::<
                (ConstDefView, SymbolTableView),
                SemanticError,
            >((done@, final(symtable)@)),
            Err(e) => check_const_def(ty@, def@, old(symtable)@) == Err::<
                (ConstDefView, SymbolTableView),
                SemanticError,
            >(e),
        },
        same_outside(old(symtable)@, final(symtable)@),
{
    let ConstDef { ident, init } = def;
    let init = match init.type_check(Some(ty), &*symtable) {
        Ok(e) => e,
        Err(e) => { return Err(e); },
    };
    let value = match init.try_fold(&*symtable) {
        Ok(Some(v)) => v,
        Ok(None) => { return Err(SemanticError::NonConstantInitializer); },
        Err(e) => { return Err(e); },
    };
    let entry = SymbolEntry { ty: ty.clone(), comptime: Some(value.clone()), ir_value: None };
    symtable.insert(ident.as_str(), entry);
    assert(symtable@.scopes.drop_last() =~= old(symtable)@.scopes.drop_last());
    Ok(ConstDef { ident, init: Expr::const_(value) })
}

/// The analysis of the definition of a variable of type `ty`.
fn analyze_var_def(ty: &Type, def: VarDef, symtable: &mut SymbolTable) -> (r: Result<
    VarDef,
    SemanticError,
>)
    requires
        old(symtable)@.depth() > 0,
    ensures
        match r {
            Ok(done) => check_var_def(ty@, def@, old(symtable)@) == Ok::<
                (VarDefView, SymbolTableView),
                SemanticError,
            >((done@, final(symtable)@)),
            Err(e) => check_var_def(ty@, def@, old(symtable)@) == Err::<
                (VarDefView, SymbolTableView),
                SemanticError,
            >(e),
        },
        same_outside(old(symtable)@, final(symtable)@),
{
    let VarDef { ident, init } = def;
    let init = match init {
        Some(init) => {
            let typed = match init.type_check(Some(ty), &*symtable) {
                Ok(e) => e,
                Err(e) => { return Err(e); },
            };
            match typed.try_fold(&*symtable) {
                Ok(Some(v)) => Expr::const_(v),
                Ok(None) => typed,
                Err(e) => { return Err(e); },
            }
        },
        None => Expr::const_(ComptimeVal::undef(ty.clone())),
    };
    symtable.insert(ident.as_str(), SymbolEntry::from_ty(ty.clone()));
    assert(symtable@.scopes.drop_last() =~= old(symtable)@.scopes.drop_last());
    Ok(VarDef { ident, init: Some(init) })
}

/// The analysis of the definitions of a declaration of constants.
fn analyze_const_defs(ty: &Type, defs: Vec<ConstDef>, symtable: &mut SymbolTable) -> (r: Result<
    Vec<ConstDef>,
    SemanticError,
>)
    requires
        old(symtable)@.depth() > 0,
    ensures
        match r {
            Ok(done) => check_const_defs(
                ty@,
                const_def_views(defs@),
                old(symtable)@,
                defs@.len(),
            ) == Ok::<(Seq<ConstDefView>, SymbolTableView), SemanticError>(
                (const_def_views(done@), final(symtable)@),
            ),
            Err(e) => check_const_defs(ty@, const_def_views(defs@), old(symtable)@, defs@.len())
                == Err::<(Seq<ConstDefView>, SymbolTableView), SemanticError>(e),
        },
        same_outside(old(symtable)@, final(symtable)@),
{
    let ghost all = const_def_views(defs@);
    let ghost items = defs@;
    let ghost start = symtable@;
    let count = defs.len();
    let mut done: Vec<ConstDef> = Vec::new();
    let mut i: usize = 0;
    assert(const_def_views(done@) =~= Seq::empty());
    assert(start.scopes.drop_last() =~= start.scopes.drop_last());
    for def in it: defs
        invariant
            i == it.index(),
            it.seq() == items,
            items.len() == count,
            all == const_def_views(items),
            start == old(symtable)@,
            same_outside(start, symtable@),
            check_const_defs(ty@, all, start, i as nat) == Ok::<
                (Seq<ConstDefView>, SymbolTableView),
                SemanticError,
            >((const_def_views(done@), symtable@)),
    {
        assert(def == items[i as int]);
        assert(i < items.len());
        let checked = match analyze_const_def(ty, def, symtable) {
            Ok(d) => d,
            Err(e) => {
                proof {
                    lemma_check_const_defs_failed(ty@, all, start, (i + 1) as nat, items.len());
                }
                return Err(e);
            },
        };
        let ghost before = const_def_views(done@);
        let ghost checked_view = checked@;
        done.push(checked);
        i += 1;
        assert(const_def_views(done@) =~= before.push(checked_view));
    }
    Ok(done)
}

/// The analysis of the definitions of a declaration of variables.
fn analyze_var_defs(ty: &Type, defs: Vec<VarDef>, symtable: &mut SymbolTable) -> (r: Result<
    Vec<VarDef>,
    SemanticError,
>)
    requires
        old(symtable)@.depth() > 0,
    ensures
        match r {
            Ok(done) => check_var_defs(ty@, var_def_views(defs@), old(symtable)@, defs@.len())
                == Ok::<(Seq<VarDefView>, SymbolTableView), SemanticError>(
                (var_def_views(done@), final(symtable)@),
            ),
            Err(e) => check_var_defs(ty@, var_def_views(defs@), old(symtable)@, defs@.len())
                == Err::<(Seq<VarDefView>, SymbolTableView), SemanticError>(e),
        },
        same_outside(old(symtable)@, final(symtable)@),
{
    let ghost all = var_def_views(defs@);
    let ghost items = defs@;
    let ghost start = symtable@;
    let count = defs.len();
    let mut done: Vec<VarDef> = Vec::new();
    let mut i: usize = 0;
    assert(var_def_views(done@) =~= Seq::empty());
    for def in it: defs
        invariant
            i == it.index(),
            it.seq() == items,
            items.len() == count,
            all == var_def_views(items),
            start == old(symtable)@,
            same_outside(start, symtable@),
            check_var_defs(ty@, all, start, i as nat) == Ok::<
                (Seq<VarDefView>, SymbolTableView),
                SemanticError,
            >((var_def_views(done@), symtable@)),
    {
        assert(def == items[i as int]);
        assert(i < items.len());
        let checked = match analyze_var_def(ty, def, symtable) {
            Ok(d) => d,
            Err(e) => {
                proof {
                    lemma_check_var_defs_failed(ty@, all, start, (i + 1) as nat, items.len());
                }
                return Err(e);
            },
        };
        let ghost before = var_def_views(done@);
        let ghost checked_view = checked@;
        done.push(checked);
        i += 1;
        assert(var_def_views(done@) =~= before.push(checked_view));
    }
    Ok(done)
}

/// The analysis of a declaration.
fn analyze_decl(decl: Decl, symtable: &mut SymbolTable) -> (r: Result<Decl, SemanticError>)
    requires
        old(symtable)@.depth() > 0,
    ensures
        match r {
            Ok(done) => check_decl(decl@, old(symtable)@) == Ok::<
                (DeclView, SymbolTableView),
                SemanticError,
            >((done@, final(symtable)@)),
            Err(e) => check_decl(decl@, old(symtable)@) == Err::<
                (DeclView, SymbolTableView),
                SemanticError,
            >(e),
        },
        same_outside(old(symtable)@, final(symtable)@),
{
    match decl {
        Decl::ConstDecl(ConstDecl { ty, defs }) => {
            match analyze_const_defs(&ty, defs, symtable) {
                Ok(defs) => Ok(Decl::ConstDecl(ConstDecl { ty, defs })),
                Err(e) => Err(e),
            }
        },
        Decl::VarDecl(VarDecl { ty, defs }) => {
            match analyze_var_defs(&ty, defs, symtable) {
                Ok(defs) => Ok(Decl::VarDecl(VarDecl { ty, defs })),
                Err(e) => Err(e),
            }
        },
    }
}

/// The analysis of the items of a block, in the innermost scope.
fn analyze_items(items: Vec<BlockItem>, symtable: &mut SymbolTable) -> (r: Result<
    Vec<BlockItem>,
    SemanticError,
>)
    requires
        old(symtable)@.depth() > 0,
    ensures
        match r {
            Ok(done) => check_items(block_item_views(items@), old(symtable)@, items@.len())
                == Ok::<(Seq<BlockItemView>, SymbolTableView), SemanticError>(
                (block_item_views(done@), final(symtable)@),
            ),
            Err(e) => check_items(block_item_views(items@), old(symtable)@, items@.len())
                == Err::<(Seq<BlockItemView>, SymbolTableView), SemanticError>(e),
        },
        same_outside(old(symtable)@, final(symtable)@),
    decreases items, 0nat,
{
    let ghost all = block_item_views(items@);
    let ghost elems = items@;
    let ghost start = symtable@;
    let count = items.len();
    let mut done: Vec<BlockItem> = Vec::new();
    let mut i: usize = 0;
    assert(block_item_views(done@) =~= Seq::empty());
    for item in it: items
        invariant
            i == it.index(),
            it.seq() == elems,
            elems == items@,
            elems.len() == count,
            all == block_item_views(elems),
            start == old(symtable)@,
            same_outside(start, symtable@),
            check_items(all, start, i as nat) == Ok::<
                (Seq<BlockItemView>, SymbolTableView),
                SemanticError,
            >((block_item_views(done@), symtable@)),
    {
        assert(item == elems[i as int]);
        assert(i < elems.len());
        let checked = match item {
            BlockItem::Decl(decl) => match analyze_decl(decl, symtable) {
                Ok(d) => BlockItem::Decl(d),
                Err(e) => {
                    proof {
                        lemma_check_items_failed(all, start, (i + 1) as nat, elems.len());
                    }
                    return Err(e);
                },
            },
            BlockItem::Stmt(stmt) => match stmt.type_check(symtable) {
                Ok(s) => BlockItem::Stmt(s),
                Err(e) => {
                    proof {
                        lemma_check_items_failed(all, start, (i + 1) as nat, elems.len());
                    }
                    return Err(e);
                },
            },
        };
        let ghost before = block_item_views(done@);
        let ghost checked_view = checked@;
        done.push(checked);
        i += 1;
        assert(block_item_views(done@) =~= before.push(checked_view));
    }
    Ok(done)
}

/// Binding the parameters changes the innermost scope only.
pub proof fn lemma_bind_params_inside(params: Seq<FuncFParamView>, table: SymbolTableView, n: nat)
    requires
        table.depth() > 0,
    ensures
        same_outside(table, bind_params(params, table, n)),
    decreases n,
{
    if n == 0 || n > params.len() {
    } else {
        lemma_bind_params_inside(params, table, (n - 1) as nat);
        let before = bind_params(params, table, (n - 1) as nat);
        assert(bind_params(params, table, n).scopes.drop_last() =~= before.scopes.drop_last());
    }
}

/// Self-visibility of a function. While the body is analyzed the function's
/// own name resolves, and to the function unless a parameter has that name.
/// Once the function has been analyzed the name resolves to the function in
/// the table around it.
pub proof fn lemma_function_visible(def: FuncDefView, table: SymbolTableView)
    requires
        table.depth() > 0,
    ensures
        body_table(def, table).lookup(def.ident) is Some,
        !bind_params(def.params, table.enter(), def.params.len()).scopes.last().contains_key(
            def.ident,
        ) ==> body_table(def, table).lookup(def.ident) == Some(
            SymbolEntryView::from_ty(func_type(def.params, def.ret_ty)),
        ),
        body_table(def, table).leave().with_ret_ty(table.curr_ret_ty) == table.insert(
            def.ident,
            SymbolEntryView::from_ty(func_type(def.params, def.ret_ty)),
        ),
        check_func(def, table) matches Ok((_, after)) ==> after.lookup(def.ident) == Some(
            SymbolEntryView::from_ty(func_type(def.params, def.ret_ty)),
        ),
{
    let entry = SymbolEntryView::from_ty(func_type(def.params, def.ret_ty));
    let bound = bind_params(def.params, table.enter(), def.params.len());
    lemma_bind_params_inside(def.params, table.enter(), def.params.len());
    assert(table.enter().scopes.drop_last() =~= table.scopes);
    super::symtable::lemma_outer_binding_survives(bound, def.ident, entry);
    assert(bound.insert_upper(def.ident, entry, 1).leave().scopes =~= table.insert(
        def.ident,
        entry,
    ).scopes);
    super::symtable::lemma_shadowing(table, def.ident, entry, def.ident, entry);
}

/// The type of each of the first `n` parameters, in order.
pub open spec fn param_types(params: Seq<FuncFParamView>, n: nat) -> Seq<TypeView> {
    Seq::new(n, |i: int| params[i].ty)
}

impl FuncDef {
    /// The type of the function.
    pub fn func_type(&self) -> (r: Type)
        ensures
            r@ == func_type(self@.params, self@.ret_ty),
    {
        let ghost params = self@.params;
        let mut param_tys: Vec<Type> = Vec::new();
        let mut i: usize = 0;
        assert(type_views(param_tys@) =~= param_types(params, 0));
        while i < self.params.len()
            invariant
                i <= self.params.len(),
                params == param_views(self.params@),
                param_tys.len() == i,
                type_views(param_tys@) == param_types(params, i as nat),
            decreases self.params.len() - i,
        {
            let ghost before = type_views(param_tys@);
            assert(params[i as int] == self.params@[i as int]@);
            param_tys.push(self.params[i].ty.clone());
            i += 1;
            assert forall|j: int| 0 <= j < i implies type_views(param_tys@)[j] == param_types(
                params,
                i as nat,
            )[j] by {
                if j < i - 1 {
                    assert(type_views(param_tys@)[j] == before[j]);
                }
            }
            assert(type_views(param_tys@) =~= param_types(params, i as nat));
        }
        proof {
            assert(param_types(params, params.len()) =~= func_type(params, self@.ret_ty)->Func_0);
        }
        Type::func(param_tys, self.ret_ty.clone())
    }
}

/// Analyzes the definition of a function in place. Afterwards, whether the
/// analysis failed or not, the function's name is bound in the innermost
/// scope of the table, which is otherwise as it was found. On failure the
/// body is left empty.
#[verifier::rlimit(40)]
fn analyze_func(def: &mut FuncDef, symtable: &mut SymbolTable) -> (r: Result<(), SemanticError>)
    requires
        old(symtable)@.depth() > 0,
    ensures
        match r {
            Ok(()) => check_func(old(def)@, old(symtable)@) == Ok::<
                (FuncDefView, SymbolTableView),
                SemanticError,
            >((final(def)@, final(symtable)@)),
            Err(e) => {
                &&& check_func(old(def)@, old(symtable)@) == Err::<
                    (FuncDefView, SymbolTableView),
                    SemanticError,
                >(e)
                &&& final(def)@ == (FuncDefView { body: Seq::empty(), ..old(def)@ })
            },
        },
        final(symtable)@ == old(symtable)@.insert(
            old(def)@.ident,
            SymbolEntryView::from_ty(func_type(old(def)@.params, old(def)@.ret_ty)),
        ),
        same_outside(old(symtable)@, final(symtable)@),
{
    let ghost start = symtable@;
    let ghost view = def@;
    let ghost params = def@.params;
    symtable.enter_scope();
    let mut param_tys: Vec<Type> = Vec::new();
    let mut i: usize = 0;
    assert(type_views(param_tys@) =~= param_types(params, 0));
    while i < def.params.len()
        invariant
            i <= def.params.len(),
            *def == *old(def),
            params == param_views(def.params@),
            start.depth() > 0,
            symtable@ == bind_params(params, start.enter(), i as nat),
            param_tys.len() == i,
            type_views(param_tys@) == param_types(params, i as nat),
        decreases def.params.len() - i,
    {
        proof {
            lemma_bind_params_inside(params, start.enter(), i as nat);
        }
        let ghost before = type_views(param_tys@);
        assert(params[i as int] == def.params@[i as int]@);
        let param = &def.params[i];
        param_tys.push(param.ty.clone());
        symtable.insert(param.ident.as_str(), SymbolEntry::from_ty(param.ty.clone()));
        i += 1;
        assert forall|j: int| 0 <= j < i implies type_views(param_tys@)[j] == param_types(
            params,
            i as nat,
        )[j] by {
            if j < i - 1 {
                assert(type_views(param_tys@)[j] == before[j]);
            }
        }
        assert(type_views(param_tys@) =~= param_types(params, i as nat));
    }
    proof {
        lemma_bind_params_inside(params, start.enter(), params.len());
        lemma_function_visible(view, start);
        assert(param_types(params, params.len()) =~= func_type(params, view.ret_ty)->Func_0);
    }
    let func_ty = Type::func(param_tys, def.ret_ty.clone());
    symtable.insert_upper(def.ident.as_str(), SymbolEntry::from_ty(func_ty), 1);
    let mut ambient = Some(def.ret_ty.clone());
    core::mem::swap(&mut symtable.curr_ret_ty, &mut ambient);
    assert(symtable@ == body_table(view, start));
    let outcome = def.body.type_check(symtable);
    core::mem::swap(&mut symtable.curr_ret_ty, &mut ambient);
    symtable.leave_scope();
    assert(symtable@ == body_table(view, start).leave().with_ret_ty(start.curr_ret_ty));
    proof {
        assert(start.insert(view.ident, SymbolEntryView::from_ty(func_type(params, view.ret_ty))).scopes.drop_last() =~= start.scopes.drop_last());
    }
    outcome
}


impl ConstDecl {
    /// Analyzes the declaration in place, and binds its names in the
    /// innermost scope. On failure the declaration is left without
    /// definitions.
    pub fn type_check(&mut self, symtable: &mut SymbolTable) -> (r: Result<(), SemanticError>)
        requires
            old(symtable)@.depth() > 0,
        ensures
            match r {
                Ok(()) => check_decl(old(self)@, old(symtable)@) == Ok::<
                    (DeclView, SymbolTableView),
                    SemanticError,
                >((final(self)@, final(symtable)@)),
                Err(e) => {
                    &&& check_decl(old(self)@, old(symtable)@) == Err::<
                        (DeclView, SymbolTableView),
                        SemanticError,
                    >(e)
                    &&& final(self)@ == DeclView::Const(old(self).ty@, Seq::empty())
                },
            },
            same_outside(old(symtable)@, final(symtable)@),
    {
        let mut defs: Vec<ConstDef> = Vec::new();
        core::mem::swap(&mut self.defs, &mut defs);
        assert(const_def_views(self.defs@) =~= Seq::empty());
        match analyze_const_defs(&self.ty, defs, symtable) {
            Ok(defs) => {
                self.defs = defs;
                Ok(())
            },
            Err(e) => Err(e),
        }
    }
}

impl VarDecl {
    /// Analyzes the declaration in place, and binds its names in the
    /// innermost scope. On failure the declaration is left without
    /// definitions.
    pub fn type_check(&mut self, symtable: &mut SymbolTable) -> (r: Result<(), SemanticError>)
        requires
            old(symtable)@.depth() > 0,
        ensures
            match r {
                Ok(()) => check_decl(old(self)@, old(symtable)@) == Ok::<
                    (DeclView, SymbolTableView),
                    SemanticError,
                >((final(self)@, final(symtable)@)),
                Err(e) => {
                    &&& check_decl(old(self)@, old(symtable)@) == Err::<
                        (DeclView, SymbolTableView),
                        SemanticError,
                    >(e)
                    &&& final(self)@ == DeclView::Var(old(self).ty@, Seq::empty())
                },
            },
            same_outside(old(symtable)@, final(symtable)@),
    {
        let mut defs: Vec<VarDef> = Vec::new();
        core::mem::swap(&mut self.defs, &mut defs);
        assert(var_def_views(self.defs@) =~= Seq::empty());
        match analyze_var_defs(&self.ty, defs, symtable) {
            Ok(defs) => {
                self.defs = defs;
                Ok(())
            },
            Err(e) => Err(e),
        }
    }
}

impl ItemView {
    /// The item without its definitions, where it is a declaration, and with
    /// an empty body, where it is a function.
    pub open spec fn emptied(self) -> ItemView {
        match self {
            ItemView::Decl(DeclView::Const(ty, _)) => ItemView::Decl(
                DeclView::Const(ty, Seq::empty()),
            ),
            ItemView::Decl(DeclView::Var(ty, _)) => ItemView::Decl(DeclView::Var(ty, Seq::empty())),
            ItemView::FuncDef(def) => ItemView::FuncDef(FuncDefView { body: Seq::empty(), ..def }),
        }
    }
}

impl Item {
    /// Analyzes the item in place. A declaration binds its names in the
    /// innermost scope of the table, a function its own name. On failure the
    /// item is left without its definitions, or with an empty body.
    pub fn type_check(&mut self, symtable: &mut SymbolTable) -> (r: Result<(), SemanticError>)
        requires
            old(symtable)@.depth() > 0,
        ensures
            match r {
                Ok(()) => check_item(old(self)@, old(symtable)@) == Ok::<
                    (ItemView, SymbolTableView),
                    SemanticError,
                >((final(self)@, final(symtable)@)),
                Err(e) => {
                    &&& check_item(old(self)@, old(symtable)@) == Err::<
                        (ItemView, SymbolTableView),
                        SemanticError,
                    >(e)
                    &&& final(self)@ == old(self)@.emptied()
                },
            },
            same_outside(old(symtable)@, final(symtable)@),
    {
        match self {
            Item::Decl(decl) => match decl {
                Decl::ConstDecl(decl) => decl.type_check(symtable),
                Decl::VarDecl(decl) => decl.type_check(symtable),
            },
            Item::FuncDef(def) => analyze_func(def, symtable),
        }
    }
}

/// Analyzes the item at place `at` of `items` in place.
fn analyze_item_at(items: &mut Vec<Item>, at: usize, symtable: &mut SymbolTable) -> (r: Result<
    (),
    SemanticError,
>)
    requires
        at < old(items)@.len(),
        old(symtable)@.depth() > 0,
    ensures
        final(items)@.len() == old(items)@.len(),
        forall|j: int|
            0 <= j < old(items)@.len() && j != at ==> final(items)@[j] == old(items)@[j],
        match r {
            Ok(()) => check_item(old(items)@[at as int]@, old(symtable)@) == Ok::<
                (ItemView, SymbolTableView),
                SemanticError,
            >((final(items)@[at as int]@, final(symtable)@)),
            Err(e) => {
                &&& check_item(old(items)@[at as int]@, old(symtable)@) == Err::<
                    (ItemView, SymbolTableView),
                    SemanticError,
                >(e)
                &&& final(items)@[at as int]@ == old(items)@[at as int]@.emptied()
            },
        },
        same_outside(old(symtable)@, final(symtable)@),
{
    items[at].type_check(symtable)
}

/// Whether `after` is what the analysis leaves of the program `before` when
/// it fails at the item at place `at`: the items before it are analyzed,
/// the item itself is left without its definitions or its body, and the
/// items behind it are as they were.
pub open spec fn failed_at(before: CompUnitView, after: CompUnitView, at: int) -> bool {
    &&& 0 <= at < before.items.len()
    &&& after.items.len() == before.items.len()
    &&& check_top(before.items, SymbolTableView::empty().enter(), at as nat) matches Ok(
        (done, table),
    ) && done == after.items.take(at) && check_item(before.items[at], table) is Err
    &&& after.items[at] == before.items[at].emptied()
    &&& forall|j: int| at < j < before.items.len() ==> after.items[j] == before.items[j]
}

impl CompUnit {
    /// Analyzes the whole program in place: every expression gets its type,
    /// coercions become explicit, and what is constant is folded. The
    /// analysis stops at the first item that fails.
    #[verifier::rlimit(40)]
    pub fn type_check(&mut self) -> (r: Result<(), SemanticError>)
        ensures
            match r {
                Ok(()) => check_unit(old(self)@) == Ok::<CompUnitView, SemanticError>(final(self)@),
                Err(e) => {
                    &&& check_unit(old(self)@) == Err::<CompUnitView, SemanticError>(e)
                    &&& exists|at: int| failed_at(old(self)@, final(self)@, at)
                },
            },
    {
        let mut symtable = SymbolTable::default();
        symtable.enter_scope();
        symtable.register_sysylib();
        let ghost start = symtable@;
        let ghost all = item_views(self.items@);
        let ghost mut done: Seq<ItemView> = Seq::empty();
        let mut i: usize = 0;
        while i < self.items.len()
            invariant
                i <= self.items.len(),
                self.items.len() == old(self).items.len(),
                all == item_views(old(self).items@),
                start == SymbolTableView::empty().enter(),
                same_outside(start, symtable@),
                forall|j: int| i <= j < self.items.len() ==> self.items@[j] == old(self).items@[j],
                done.len() == i,
                forall|j: int| 0 <= j < i ==> done[j] == self.items@[j]@,
                check_top(all, start, i as nat) == Ok::<
                    (Seq<ItemView>, SymbolTableView),
                    SemanticError,
                >((done, symtable@)),
            decreases self.items.len() - i,
        {
            assert(all[i as int] == self.items@[i as int]@);
            match analyze_item_at(&mut self.items, i, &mut symtable) {
                Ok(()) => {},
                Err(e) => {
                    proof {
                        lemma_check_top_failed(all, start, (i + 1) as nat, all.len());
                        assert(done =~= self@.items.take(i as int));
                        assert(failed_at(old(self)@, self@, i as int));
                    }
                    return Err(e);
                },
            }
            proof {
                done = done.push(self.items@[i as int]@);
            }
            i += 1;
        }
        symtable.leave_scope();
        assert(done =~= item_views(self.items@));
        Ok(())
    }
}

impl Block {
    /// The analysis of the block: that of its items, in a scope of their own.
    fn checked(self, symtable: &mut SymbolTable) -> (r: Result<Block, SemanticError>)
        ensures
            block_result_view(r) == check_block(self@, old(symtable)@),
            final(symtable)@ == old(symtable)@,
        decreases self, 1nat,
    {
        proof {
            self.lemma_view();
        }
        symtable.enter_scope();
        let ghost entered = symtable@;
        assert(entered.scopes.drop_last() =~= old(symtable)@.scopes);
        let outcome = analyze_items(self.items, symtable);
        symtable.leave_scope();
        assert(symtable@.scopes =~= old(symtable)@.scopes);
        match outcome {
            Ok(items) => {
                let block = Block { items };
                proof {
                    block.lemma_view();
                }
                Ok(block)
            },
            Err(e) => Err(e),
        }
    }

    /// Analyzes the block in place: its items, in a scope of their own. The
    /// symbol table is left as it was found. On failure the block is left
    /// empty.
    pub fn type_check(&mut self, symtable: &mut SymbolTable) -> (r: Result<(), SemanticError>)
        ensures
            match r {
                Ok(()) => check_block(old(self)@, old(symtable)@) == Ok::<
                    Seq<BlockItemView>,
                    SemanticError,
                >(final(self)@),
                Err(e) => check_block(old(self)@, old(symtable)@) == Err::<
                    Seq<BlockItemView>,
                    SemanticError,
                >(e) && final(self)@ == Seq::<BlockItemView>::empty(),
            },
            final(symtable)@ == old(symtable)@,
    {
        let mut items: Vec<BlockItem> = Vec::new();
        core::mem::swap(&mut self.items, &mut items);
        proof {
            self.lemma_view();
            old(self).lemma_view();
        }
        match (Block { items }).checked(symtable) {
            Ok(block) => {
                *self = block;
                Ok(())
            },
            Err(e) => Err(e),
        }
    }
}

impl Stmt {
    /// The analysis of the statement. The symbol table is left as it was
    /// found.
    pub fn type_check(self, symtable: &mut SymbolTable) -> (r: Result<Stmt, SemanticError>)
        ensures
            stmt_result_view(r) == check_stmt(self@, old(symtable)@),
            final(symtable)@ == old(symtable)@,
        decreases self, 0nat,
    {
        match self {
            Stmt::Assign(lval, expr) => {
                let expr = match symtable.lookup(lval.ident.as_str()) {
                    None => { return Err(SemanticError::UnresolvedIdentifier); },
                    Some(entry) => match expr.type_check(Some(&entry.ty), &*symtable) {
                        Ok(e) => e,
                        Err(e) => { return Err(e); },
                    },
                };
                Ok(Stmt::Assign(lval, expr))
            },
            Stmt::Expr(ExprStmt { expr }) => match expr {
                None => Ok(Stmt::Expr(ExprStmt { expr: None })),
                Some(expr) => match expr.type_check(None, &*symtable) {
                    Ok(e) => Ok(Stmt::Expr(ExprStmt { expr: Some(e) })),
                    Err(e) => Err(e),
                },
            },
            Stmt::Block(block) => match block.checked(symtable) {
                Ok(block) => Ok(Stmt::Block(block)),
                Err(e) => Err(e),
            },
            Stmt::Break => Ok(Stmt::Break),
            Stmt::Continue => Ok(Stmt::Continue),
            Stmt::Return(ReturnStmt { expr }) => match expr {
                None => Ok(Stmt::Return(ReturnStmt { expr: None })),
                Some(expr) => {
                    let expr = match expr.type_check(symtable.curr_ret_ty.as_ref(), &*symtable) {
                        Ok(e) => e,
                        Err(e) => { return Err(e); },
                    };
                    let returns_int = match &symtable.curr_ret_ty {
                        Some(ty) => ty.is_int(),
                        None => false,
                    };
                    if returns_int {
                        Ok(
                            Stmt::Return(
                                ReturnStmt { expr: Some(Expr::coercion(expr, Type::int_())) },
                            ),
                        )
                    } else {
                        Err(SemanticError::InvalidOperation)
                    }
                },
            },
            Stmt::If(cond, then_stmt, else_stmt) => {
                let cond = match cond.type_check(Some(&Type::bool()), &*symtable) {
                    Ok(e) => e,
                    Err(e) => { return Err(e); },
                };
                let then_stmt = match (*then_stmt).type_check(symtable) {
                    Ok(s) => s,
                    Err(e) => { return Err(e); },
                };
                let else_stmt = match else_stmt {
                    None => None,
                    Some(stmt) => match (*stmt).type_check(symtable) {
                        Ok(s) => Some(Box::new(s)),
                        Err(e) => { return Err(e); },
                    },
                };
                Ok(Stmt::If(cond, Box::new(then_stmt), else_stmt))
            },
            Stmt::While(cond, body) => {
                let cond = match cond.type_check(Some(&Type::bool()), &*symtable) {
                    Ok(e) => e,
                    Err(e) => { return Err(e); },
                };
                let body = match (*body).type_check(symtable) {
                    Ok(s) => s,
                    Err(e) => { return Err(e); },
                };
                Ok(Stmt::While(cond, Box::new(body)))
            },
        }
    }
}

} // verus!

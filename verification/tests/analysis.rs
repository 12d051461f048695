use sysy_frontend::frontend::ast::{
    BinaryOp, Block, BlockItem, CompUnit, ComptimeVal, ConstDecl, ConstDef, Decl, Expr, ExprKind,
    ExprStmt, FuncCall, FuncDef, FuncFParam, Item, LVal, ReturnStmt, Stmt, SymbolEntry,
    SymbolTable, UnaryOp, VarDecl, VarDef,
};
use sysy_frontend::frontend::error::SemanticError;
use sysy_frontend::frontend::types::Type;

fn var(name: &str) -> Expr {
    Expr::lval(LVal { ident: name.to_string() })
}

fn lit(value: i32) -> Expr {
    Expr::const_(ComptimeVal::int_(value))
}

fn flag(value: bool) -> Expr {
    Expr::const_(ComptimeVal::bool(value))
}

fn call(name: &str, args: Vec<Expr>) -> Expr {
    Expr::func_call(name.to_string(), args)
}

fn ret(expr: Expr) -> BlockItem {
    BlockItem::Stmt(Stmt::Return(ReturnStmt { expr: Some(expr) }))
}

fn func(ret_ty: Type, name: &str, params: Vec<&str>, items: Vec<BlockItem>) -> Item {
    Item::FuncDef(FuncDef {
        ret_ty,
        ident: name.to_string(),
        params: params
            .into_iter()
            .map(|p| FuncFParam { ty: Type::int_(), ident: p.to_string() })
            .collect(),
        body: Block { items },
    })
}

fn int_vars(defs: Vec<(&str, Option<Expr>)>) -> Decl {
    Decl::VarDecl(VarDecl {
        ty: Type::int_(),
        defs: defs
            .into_iter()
            .map(|(name, init)| VarDef { ident: name.to_string(), init })
            .collect(),
    })
}

fn int_consts(defs: Vec<(&str, Expr)>) -> Decl {
    Decl::ConstDecl(ConstDecl {
        ty: Type::int_(),
        defs: defs
            .into_iter()
            .map(|(name, init)| ConstDef { ident: name.to_string(), init })
            .collect(),
    })
}

/// A table with the variable `x`, the constant `k` = 4, the function
/// `f: int(int, bool)` and the function `p: void()`.
fn table() -> SymbolTable {
    let mut table = SymbolTable::default();
    table.enter_scope();
    table.insert("x", SymbolEntry::from_ty(Type::int_()));
    table.insert("t", SymbolEntry::from_ty(Type::bool()));
    table.insert(
        "k",
        SymbolEntry { ty: Type::int_(), comptime: Some(ComptimeVal::int_(4)), ir_value: None },
    );
    table.insert(
        "f",
        SymbolEntry::from_ty(Type::func(vec![Type::int_(), Type::bool()], Type::int_())),
    );
    table.insert("p", SymbolEntry::from_ty(Type::func(vec![], Type::void())));
    table
}

fn analyze(expr: Expr, expect: Option<&Type>) -> Result<Expr, SemanticError> {
    expr.type_check(expect, &table())
}

#[test]
fn test_folding_examples() {
    let empty = SymbolTable::default();
    let sum = Expr::binary(BinaryOp::Add, lit(8), lit(5));
    assert_eq!(sum.try_fold(&empty), Ok(Some(ComptimeVal::int_(13))));
    assert!(matches!(sum.try_fold(&empty), Ok(Some(ComptimeVal::Int(13)))));
    let less = Expr::binary(BinaryOp::Lt, lit(8), lit(5));
    assert!(matches!(less.try_fold(&empty), Ok(Some(ComptimeVal::Bool(false)))));
    let both = Expr::binary(BinaryOp::And, flag(true), flag(false));
    assert!(matches!(both.try_fold(&empty), Ok(Some(ComptimeVal::Bool(false)))));
    let nested = Expr::binary(
        BinaryOp::Mul,
        Expr::binary(BinaryOp::Sub, lit(2), lit(5)),
        Expr::unary(UnaryOp::Neg, lit(4)),
    );
    assert_eq!(nested.try_fold(&empty), Ok(Some(ComptimeVal::int_(12))));
    // !(1 < 2) is false, whether the comparison counts as a boolean or as 1
    let not_less = Expr::unary(UnaryOp::Not, Expr::binary(BinaryOp::Lt, lit(1), lit(2)));
    assert!(matches!(not_less.try_fold(&empty), Ok(Some(ComptimeVal::Bool(false)))));
    let not_one = Expr::unary(UnaryOp::Not, lit(1));
    assert!(matches!(not_one.try_fold(&empty), Ok(Some(ComptimeVal::Bool(false)))));
    let not_zero = Expr::unary(UnaryOp::Not, lit(0));
    assert!(matches!(not_zero.try_fold(&empty), Ok(Some(ComptimeVal::Bool(true)))));
}

#[test]
fn test_folding_variables_calls_and_coercions() {
    let table = table();
    // a variable folds where its entry carries a value
    assert_eq!(var("k").try_fold(&table), Ok(Some(ComptimeVal::int_(4))));
    assert_eq!(var("x").try_fold(&table), Ok(None));
    assert_eq!(var("nowhere").try_fold(&table), Err(SemanticError::UnresolvedIdentifier));
    // an operation folds where all its operands fold
    let sum = Expr::binary(BinaryOp::Add, var("k"), lit(1));
    assert_eq!(sum.try_fold(&table), Ok(Some(ComptimeVal::int_(5))));
    let sum = Expr::binary(BinaryOp::Add, var("x"), lit(1));
    assert_eq!(sum.try_fold(&table), Ok(None));
    // what does not fold on the left hides a defect on the right
    let hidden = Expr::binary(BinaryOp::Add, var("x"), var("nowhere"));
    assert_eq!(hidden.try_fold(&table), Ok(None));
    let found = Expr::binary(BinaryOp::Add, lit(1), var("nowhere"));
    assert_eq!(found.try_fold(&table), Err(SemanticError::UnresolvedIdentifier));
    // a call never folds
    assert_eq!(call("f", vec![lit(1), flag(true)]).try_fold(&table), Ok(None));
    // a coercion folds to the converted value
    let to_bool = Expr::coercion(lit(7), Type::bool());
    assert!(matches!(to_bool.try_fold(&table), Ok(Some(ComptimeVal::Bool(true)))));
    let to_int = Expr::coercion(flag(true), Type::int_());
    assert!(matches!(to_int.try_fold(&table), Ok(Some(ComptimeVal::Int(1)))));
    let of_variable = Expr::coercion(var("x"), Type::bool());
    assert_eq!(of_variable.try_fold(&table), Ok(None));
    let to_void = Expr::coercion(lit(7), Type::void());
    assert_eq!(to_void.try_fold(&table), Err(SemanticError::MalformedCoercion));
    let untyped = Expr { kind: ExprKind::Coercion(Box::new(lit(7))), ty: None };
    assert_eq!(untyped.try_fold(&table), Err(SemanticError::MalformedCoercion));
    let of_undefined = Expr::coercion(Expr::const_(ComptimeVal::undef(Type::int_())), Type::bool());
    assert_eq!(of_undefined.try_fold(&table), Err(SemanticError::InvalidOperation));
    // an undefined constant folds to itself, but no operator takes it
    let undefined = Expr::const_(ComptimeVal::undef(Type::int_()));
    assert!(matches!(undefined.try_fold(&table), Ok(Some(ComptimeVal::Undef(_)))));
    let sum = Expr::binary(BinaryOp::Add, undefined, lit(1));
    assert_eq!(sum.try_fold(&table), Err(SemanticError::InvalidOperation));
}

#[test]
fn test_expression_analysis_types_and_coercions() {
    // a variable has its declared type
    let typed = analyze(var("x"), None).unwrap();
    assert!(typed.ty().is_int());
    assert!(matches!(typed.kind, ExprKind::LVal(_)));
    // an expected boolean is coerced to
    let typed = analyze(var("x"), Some(&Type::bool())).unwrap();
    assert!(typed.ty().is_bool());
    match typed.kind {
        ExprKind::Coercion(inner) => {
            assert!(matches!(inner.kind, ExprKind::LVal(_)));
            assert!(inner.ty().is_int());
        }
        _ => panic!("a coercion was expected"),
    }
    // an expression of the expected type gets no coercion
    let typed = analyze(var("x"), Some(&Type::int_())).unwrap();
    assert!(matches!(typed.kind, ExprKind::LVal(_)));
    // bool op int: the boolean side is converted, never the integer side
    let typed = analyze(Expr::binary(BinaryOp::Add, var("t"), var("x")), None).unwrap();
    assert!(typed.ty().is_int());
    match typed.kind {
        ExprKind::Binary(BinaryOp::Add, lhs, rhs) => {
            assert!(matches!(lhs.kind, ExprKind::Coercion(_)));
            assert!(lhs.ty().is_int());
            assert!(matches!(rhs.kind, ExprKind::LVal(_)));
        }
        _ => panic!("an addition was expected"),
    }
    let typed = analyze(Expr::binary(BinaryOp::Lt, var("x"), var("t")), None).unwrap();
    match typed.kind {
        ExprKind::Binary(BinaryOp::Lt, lhs, rhs) => {
            assert!(matches!(lhs.kind, ExprKind::LVal(_)));
            assert!(matches!(rhs.kind, ExprKind::Coercion(_)));
        }
        _ => panic!("a comparison was expected"),
    }
    // a comparison has the type of its operands
    assert!(typed.ty.unwrap().is_int());
    let typed = analyze(Expr::binary(BinaryOp::And, var("t"), var("t")), None).unwrap();
    assert!(typed.ty().is_bool());
    // negation gives an integer, logical not a boolean
    let typed = analyze(Expr::unary(UnaryOp::Neg, var("t")), None).unwrap();
    assert!(typed.ty().is_int());
    match typed.kind {
        ExprKind::Unary(UnaryOp::Neg, operand) => {
            assert!(matches!(operand.kind, ExprKind::Coercion(_)))
        }
        _ => panic!("a negation was expected"),
    }
    let typed = analyze(Expr::unary(UnaryOp::Not, var("x")), None).unwrap();
    assert!(typed.ty().is_bool());
    match typed.kind {
        ExprKind::Unary(UnaryOp::Not, operand) => assert!(matches!(operand.kind, ExprKind::LVal(_))),
        _ => panic!("a logical not was expected"),
    }
}

#[test]
fn test_expression_analysis_folds() {
    let typed = analyze(Expr::binary(BinaryOp::Add, lit(8), lit(5)), None).unwrap();
    assert!(matches!(typed.kind, ExprKind::Const(ComptimeVal::Int(13))));
    assert!(typed.ty().is_int());
    // a constant of the table is folded in
    let typed = analyze(Expr::binary(BinaryOp::Mul, var("k"), lit(3)), None).unwrap();
    assert!(matches!(typed.kind, ExprKind::Const(ComptimeVal::Int(12))));
    // the expected type is converted to before folding
    let typed = analyze(lit(5), Some(&Type::bool())).unwrap();
    assert!(matches!(typed.kind, ExprKind::Const(ComptimeVal::Bool(true))));
    assert!(typed.ty().is_bool());
    let typed = analyze(flag(true), Some(&Type::int_())).unwrap();
    assert!(matches!(typed.kind, ExprKind::Const(ComptimeVal::Int(1))));
    // a comparison of constants folds to a boolean
    let typed = analyze(Expr::binary(BinaryOp::Lt, lit(8), lit(5)), None).unwrap();
    assert!(matches!(typed.kind, ExprKind::Const(ComptimeVal::Bool(false))));
    assert!(typed.ty().is_bool());
    // only the constant part of an expression folds
    let typed = analyze(
        Expr::binary(BinaryOp::Add, var("x"), Expr::binary(BinaryOp::Add, var("k"), lit(1))),
        None,
    )
    .unwrap();
    match typed.kind {
        ExprKind::Binary(BinaryOp::Add, lhs, rhs) => {
            assert!(matches!(lhs.kind, ExprKind::LVal(_)));
            assert!(matches!(rhs.kind, ExprKind::Const(ComptimeVal::Int(5))));
        }
        _ => panic!("an addition was expected"),
    }
    // a defect found while folding is a failure of the analysis
    let failed = analyze(Expr::binary(BinaryOp::Div, lit(1), lit(0)), None);
    assert_eq!(failed.err(), Some(SemanticError::InvalidOperation));
    let failed = analyze(
        Expr::binary(BinaryOp::Add, var("x"), Expr::binary(BinaryOp::Mod, lit(1), lit(0))),
        None,
    );
    assert_eq!(failed.err(), Some(SemanticError::InvalidOperation));
}

#[test]
fn test_analysis_of_analyzed_expression_changes_nothing() {
    let once = analyze(Expr::binary(BinaryOp::Add, var("t"), var("x")), None).unwrap();
    let twice = once.clone().type_check(None, &table()).unwrap();
    assert_eq!(once, twice);
    assert!(twice.ty().is_int());
    // nor does the type that it has, when it is expected
    let again = twice.clone().type_check(Some(&Type::int_()), &table()).unwrap();
    assert_eq!(again, twice);
    assert!(matches!(again.kind, ExprKind::Binary(BinaryOp::Add, _, _)));
    // a coercion itself is never accepted where a type is expected of it
    let coerced = analyze(var("x"), Some(&Type::bool())).unwrap();
    assert_eq!(coerced.clone().type_check(None, &table()), Ok(coerced.clone()));
    assert_eq!(
        coerced.type_check(Some(&Type::bool()), &table()).err(),
        Some(SemanticError::MalformedCoercion)
    );
}

#[test]
fn test_call_analysis() {
    let typed = analyze(call("f", vec![var("x"), var("x")]), None).unwrap();
    assert!(typed.ty().is_int());
    match typed.kind {
        ExprKind::FuncCall(FuncCall { ident, args }) => {
            assert_eq!(ident, "f");
            assert_eq!(args.len(), 2);
            assert!(matches!(args[0].kind, ExprKind::LVal(_)));
            // the second parameter is a boolean: the argument is coerced
            assert!(matches!(args[1].kind, ExprKind::Coercion(_)));
            assert!(args[1].ty().is_bool());
        }
        _ => panic!("a call was expected"),
    }
    // constant arguments are folded to the parameter's type
    let typed = analyze(call("f", vec![flag(true), lit(3)]), None).unwrap();
    match typed.kind {
        ExprKind::FuncCall(FuncCall { args, .. }) => {
            assert!(matches!(args[0].kind, ExprKind::Const(ComptimeVal::Int(1))));
            assert!(matches!(args[1].kind, ExprKind::Const(ComptimeVal::Bool(true))));
        }
        _ => panic!("a call was expected"),
    }
    let typed = analyze(call("p", vec![]), None).unwrap();
    assert!(typed.ty().is_void());
}

#[test]
fn test_error_unresolved_identifier() {
    let unresolved = Some(SemanticError::UnresolvedIdentifier);
    assert_eq!(analyze(var("y"), None).err(), unresolved);
    assert_eq!(analyze(call("g", vec![]), None).err(), unresolved);
    assert_eq!(
        analyze(Expr::binary(BinaryOp::Add, lit(1), var("y")), None).err(),
        unresolved
    );
    let stmt = Stmt::Assign(LVal { ident: "y".to_string() }, lit(1));
    assert_eq!(stmt.type_check(&mut table()).err(), unresolved);
    // the leftmost defect is the one reported
    let both = Expr::binary(BinaryOp::Add, var("y"), call("f", vec![]));
    assert_eq!(analyze(both, None).err(), unresolved);
}

#[test]
fn test_error_arity_mismatch() {
    let arity = Some(SemanticError::ArityMismatch);
    assert_eq!(analyze(call("f", vec![]), None).err(), arity);
    assert_eq!(analyze(call("f", vec![lit(1)]), None).err(), arity);
    assert_eq!(analyze(call("f", vec![lit(1), lit(2), lit(3)]), None).err(), arity);
    assert_eq!(analyze(call("p", vec![lit(1)]), None).err(), arity);
    // the number of arguments is looked at before the arguments are
    assert_eq!(analyze(call("f", vec![var("y")]), None).err(), arity);
}

#[test]
fn test_error_type_mismatch() {
    let mismatch = Some(SemanticError::TypeMismatch);
    // what is called is no function
    assert_eq!(analyze(call("x", vec![]), None).err(), mismatch);
    // operands of two types that no coercion brings together
    assert_eq!(
        analyze(Expr::binary(BinaryOp::Add, call("p", vec![]), lit(1)), None).err(),
        mismatch
    );
    assert_eq!(
        analyze(Expr::binary(BinaryOp::Eq, var("f"), var("p")), None).err(),
        mismatch
    );
    // an operand that is neither an integer nor a boolean
    assert_eq!(analyze(Expr::unary(UnaryOp::Neg, call("p", vec![])), None).err(), mismatch);
    assert_eq!(analyze(Expr::unary(UnaryOp::Not, var("f")), None).err(), mismatch);
    // an expected type that cannot be coerced to
    assert_eq!(analyze(var("x"), Some(&Type::void())).err(), mismatch);
    assert_eq!(
        analyze(call("p", vec![]), Some(&Type::func(vec![], Type::void()))).err(),
        mismatch
    );
    // but the type itself is accepted
    assert!(analyze(call("p", vec![]), Some(&Type::void())).is_ok());
    assert!(analyze(var("p"), Some(&Type::func(vec![], Type::void()))).is_ok());
}

#[test]
fn test_error_malformed_coercion() {
    let node = Expr { kind: ExprKind::Coercion(Box::new(var("x"))), ty: None };
    assert_eq!(analyze(node, None).err(), Some(SemanticError::MalformedCoercion));
    let node = Expr::coercion(var("x"), Type::bool());
    assert_eq!(
        analyze(node, Some(&Type::bool())).err(),
        Some(SemanticError::MalformedCoercion)
    );
}

#[test]
fn test_error_non_constant_initializer() {
    let mut table = table();
    let mut decl = ConstDecl {
        ty: Type::int_(),
        defs: vec![
            ConstDef { ident: "a".to_string(), init: lit(1) },
            ConstDef { ident: "b".to_string(), init: var("x") },
        ],
    };
    assert_eq!(decl.type_check(&mut table), Err(SemanticError::NonConstantInitializer));
    // the constant before the failure is declared, the failed one is not
    assert!(table.lookup("a").is_some());
    assert!(table.lookup("b").is_none());
    assert!(decl.defs.is_empty());

    let mut decl = ConstDecl {
        ty: Type::int_(),
        defs: vec![ConstDef { ident: "c".to_string(), init: call("f", vec![lit(1), lit(2)]) }],
    };
    assert_eq!(decl.type_check(&mut table), Err(SemanticError::NonConstantInitializer));
}

#[test]
fn test_constant_declaration() {
    let mut table = table();
    let mut decl = ConstDecl {
        ty: Type::int_(),
        defs: vec![
            ConstDef { ident: "a".to_string(), init: Expr::binary(BinaryOp::Add, var("k"), lit(1)) },
            ConstDef { ident: "b".to_string(), init: Expr::binary(BinaryOp::Mul, var("a"), var("a")) },
            ConstDef { ident: "c".to_string(), init: flag(true) },
        ],
    };
    assert_eq!(decl.type_check(&mut table), Ok(()));
    assert!(matches!(decl.defs[0].init.kind, ExprKind::Const(ComptimeVal::Int(5))));
    // a later constant sees the value of an earlier one
    assert!(matches!(decl.defs[1].init.kind, ExprKind::Const(ComptimeVal::Int(25))));
    // the initializer is converted to the declared type
    assert!(matches!(decl.defs[2].init.kind, ExprKind::Const(ComptimeVal::Int(1))));
    let entry = table.lookup("b").unwrap();
    assert!(entry.ty.is_int());
    assert_eq!(entry.comptime, Some(ComptimeVal::int_(25)));
    assert!(entry.ir_value.is_none());
    assert_eq!(decl.defs[0].ident, "a");
}

#[test]
fn test_variable_declaration() {
    let mut table = table();
    let mut decl = VarDecl {
        ty: Type::int_(),
        defs: vec![
            VarDef { ident: "u".to_string(), init: None },
            VarDef { ident: "v".to_string(), init: Some(Expr::binary(BinaryOp::Add, lit(1), lit(2))) },
            VarDef { ident: "w".to_string(), init: Some(Expr::binary(BinaryOp::Add, var("x"), var("t"))) },
        ],
    };
    assert_eq!(decl.type_check(&mut table), Ok(()));
    // no initializer: the undefined value of the declared type
    let init = decl.defs[0].init.as_ref().unwrap();
    assert!(matches!(&init.kind, ExprKind::Const(ComptimeVal::Undef(ty)) if ty.is_int()));
    assert!(init.ty().is_int());
    let init = decl.defs[1].init.as_ref().unwrap();
    assert!(matches!(init.kind, ExprKind::Const(ComptimeVal::Int(3))));
    let init = decl.defs[2].init.as_ref().unwrap();
    assert!(matches!(init.kind, ExprKind::Binary(BinaryOp::Add, _, _)));
    // a variable carries no value, whatever its initializer
    for name in ["u", "v", "w"] {
        let entry = table.lookup(name).unwrap();
        assert!(entry.ty.is_int());
        assert!(entry.comptime.is_none());
    }
    let mut failing = VarDecl {
        ty: Type::int_(),
        defs: vec![VarDef { ident: "z".to_string(), init: Some(var("nowhere")) }],
    };
    assert_eq!(failing.type_check(&mut table), Err(SemanticError::UnresolvedIdentifier));
    assert!(table.lookup("z").is_none());
    assert!(failing.defs.is_empty());
}

#[test]
fn test_statement_analysis() {
    let mut table = table();
    table.curr_ret_ty = Some(Type::int_());
    // the condition of `if` and `while` is a boolean
    let stmt = Stmt::If(var("x"), Box::new(Stmt::Break), Some(Box::new(Stmt::Continue)));
    match stmt.type_check(&mut table).unwrap() {
        Stmt::If(cond, then_stmt, else_stmt) => {
            assert!(cond.ty().is_bool());
            assert!(matches!(cond.kind, ExprKind::Coercion(_)));
            assert!(matches!(*then_stmt, Stmt::Break));
            assert!(matches!(else_stmt.as_deref(), Some(Stmt::Continue)));
        }
        _ => panic!("an if was expected"),
    }
    let stmt = Stmt::While(lit(1), Box::new(Stmt::Expr(ExprStmt { expr: None })));
    match stmt.type_check(&mut table).unwrap() {
        Stmt::While(cond, body) => {
            assert!(matches!(cond.kind, ExprKind::Const(ComptimeVal::Bool(true))));
            assert!(matches!(*body, Stmt::Expr(ExprStmt { expr: None })));
        }
        _ => panic!("a while was expected"),
    }
    // an assignment expects the type of its target
    let stmt = Stmt::Assign(LVal { ident: "x".to_string() }, var("t"));
    match stmt.type_check(&mut table).unwrap() {
        Stmt::Assign(lval, expr) => {
            assert_eq!(lval.ident, "x");
            assert!(expr.ty().is_int());
            assert!(matches!(expr.kind, ExprKind::Coercion(_)));
        }
        _ => panic!("an assignment was expected"),
    }
    let stmt = Stmt::Assign(LVal { ident: "t".to_string() }, lit(3));
    match stmt.type_check(&mut table).unwrap() {
        Stmt::Assign(_, expr) => {
            assert!(matches!(expr.kind, ExprKind::Const(ComptimeVal::Bool(true))))
        }
        _ => panic!("an assignment was expected"),
    }
    // an expression statement expects nothing
    let stmt = Stmt::Expr(ExprStmt { expr: Some(call("p", vec![])) });
    match stmt.type_check(&mut table).unwrap() {
        Stmt::Expr(ExprStmt { expr: Some(expr) }) => assert!(expr.ty().is_void()),
        _ => panic!("an expression statement was expected"),
    }
    // a return coerces to the integer that the function returns
    let stmt = Stmt::Return(ReturnStmt { expr: Some(var("t")) });
    match stmt.type_check(&mut table).unwrap() {
        Stmt::Return(ReturnStmt { expr: Some(expr) }) => {
            assert!(expr.ty().is_int());
            assert!(matches!(expr.kind, ExprKind::Coercion(_)));
        }
        _ => panic!("a return was expected"),
    }
    let stmt = Stmt::Return(ReturnStmt { expr: None });
    assert!(matches!(
        stmt.type_check(&mut table),
        Ok(Stmt::Return(ReturnStmt { expr: None }))
    ));
    // the table is as it was
    assert!(table.lookup("x").unwrap().ty.is_int());
    assert!(table.curr_ret_ty.as_ref().unwrap().is_int());
}

#[test]
fn test_error_invalid_operation_in_return() {
    let invalid = Some(SemanticError::InvalidOperation);
    let mut table = table();
    // no function is being analyzed
    let stmt = Stmt::Return(ReturnStmt { expr: Some(lit(1)) });
    assert_eq!(stmt.type_check(&mut table).err(), invalid);
    // the function returns a boolean, or nothing
    table.curr_ret_ty = Some(Type::bool());
    let stmt = Stmt::Return(ReturnStmt { expr: Some(lit(1)) });
    assert_eq!(stmt.type_check(&mut table).err(), invalid);
    table.curr_ret_ty = Some(Type::void());
    let stmt = Stmt::Return(ReturnStmt { expr: Some(call("p", vec![])) });
    assert_eq!(stmt.type_check(&mut table).err(), invalid);
    // a value of another type than nothing is a mismatch before that
    let stmt = Stmt::Return(ReturnStmt { expr: Some(lit(1)) });
    assert_eq!(stmt.type_check(&mut table).err(), Some(SemanticError::TypeMismatch));
}

#[test]
fn test_block_scopes() {
    let mut table = table();
    // { int a = 1; { int a = x; a; } a; k; }
    let inner = Block {
        items: vec![
            BlockItem::Decl(int_vars(vec![("a", Some(var("x")))])),
            BlockItem::Stmt(Stmt::Expr(ExprStmt { expr: Some(var("a")) })),
        ],
    };
    let mut block = Block {
        items: vec![
            BlockItem::Decl(int_consts(vec![("a", lit(1))])),
            BlockItem::Stmt(Stmt::Block(inner)),
            BlockItem::Stmt(Stmt::Expr(ExprStmt { expr: Some(var("a")) })),
            BlockItem::Stmt(Stmt::Expr(ExprStmt { expr: Some(var("k")) })),
        ],
    };
    assert_eq!(block.type_check(&mut table), Ok(()));
    assert_eq!(block.items.len(), 4);
    // inside, `a` is the inner variable; outside, the constant 1 again
    match &block.items[1] {
        BlockItem::Stmt(Stmt::Block(inner)) => match &inner.items[1] {
            BlockItem::Stmt(Stmt::Expr(ExprStmt { expr: Some(expr) })) => {
                assert!(matches!(expr.kind, ExprKind::LVal(_)))
            }
            _ => panic!("an expression statement was expected"),
        },
        _ => panic!("a block was expected"),
    }
    match &block.items[2] {
        BlockItem::Stmt(Stmt::Expr(ExprStmt { expr: Some(expr) })) => {
            assert!(matches!(expr.kind, ExprKind::Const(ComptimeVal::Int(1))))
        }
        _ => panic!("an expression statement was expected"),
    }
    match &block.items[3] {
        BlockItem::Stmt(Stmt::Expr(ExprStmt { expr: Some(expr) })) => {
            assert!(matches!(expr.kind, ExprKind::Const(ComptimeVal::Int(4))))
        }
        _ => panic!("an expression statement was expected"),
    }
    // what the block declared is gone
    assert!(table.lookup("a").is_none());
    assert!(table.lookup("x").is_some());

    // a failure leaves the table as it was, and the block empty
    let mut failing = Block {
        items: vec![
            BlockItem::Decl(int_vars(vec![("b", None)])),
            BlockItem::Stmt(Stmt::Expr(ExprStmt { expr: Some(var("nowhere")) })),
        ],
    };
    assert_eq!(failing.type_check(&mut table), Err(SemanticError::UnresolvedIdentifier));
    assert!(table.lookup("b").is_none());
    assert!(failing.items.is_empty());
}

#[test]
fn test_function_sees_itself_and_stays_visible() {
    // int f(int n) { return f(n); }  int g() { return f(1) + g(); }
    let f = func(Type::int_(), "f", vec!["n"], vec![ret(call("f", vec![var("n")]))]);
    let g = func(
        Type::int_(),
        "g",
        vec![],
        vec![ret(Expr::binary(BinaryOp::Add, call("f", vec![lit(1)]), call("g", vec![])))],
    );
    let mut unit = CompUnit { items: vec![f, g] };
    assert_eq!(unit.type_check(), Ok(()));
    match &unit.items[0] {
        Item::FuncDef(def) => match &def.body.items[0] {
            BlockItem::Stmt(Stmt::Return(ReturnStmt { expr: Some(expr) })) => {
                assert!(matches!(expr.kind, ExprKind::FuncCall(_)));
                assert!(expr.ty().is_int());
            }
            _ => panic!("a return was expected"),
        },
        _ => panic!("a function was expected"),
    }

    // item by item: the name stays in the table, the parameter does not
    let mut table = SymbolTable::default();
    table.enter_scope();
    let mut f = func(Type::int_(), "f", vec!["n"], vec![ret(call("f", vec![var("n")]))]);
    assert_eq!(f.type_check(&mut table), Ok(()));
    let entry = table.lookup("f").unwrap();
    assert_eq!(entry.ty, Type::func(vec![Type::int_()], Type::int_()));
    assert!(table.lookup("n").is_none());
    assert!(table.curr_ret_ty.is_none());

    // a function that is called before it is defined is not found
    let early = func(Type::int_(), "e", vec![], vec![ret(call("late", vec![]))]);
    let late = func(Type::int_(), "late", vec![], vec![ret(lit(0))]);
    let mut unit = CompUnit { items: vec![early, late] };
    assert_eq!(unit.type_check(), Err(SemanticError::UnresolvedIdentifier));
}

#[test]
fn test_parameter_hides_function_name() {
    // int f(int f) { return f; } is accepted; int f(int f) { return f(1); } is not
    let shadowed = func(Type::int_(), "f", vec!["f"], vec![ret(var("f"))]);
    let mut unit = CompUnit { items: vec![shadowed] };
    assert_eq!(unit.type_check(), Ok(()));
    let called = func(Type::int_(), "f", vec!["f"], vec![ret(call("f", vec![lit(1)]))]);
    let mut unit = CompUnit { items: vec![called] };
    assert_eq!(unit.type_check(), Err(SemanticError::TypeMismatch));
}

#[test]
fn test_program_analysis() {
    // const int a = 1, b = a + 1; int v = b * 2;
    // void p() { return; }  int main() { int r = v; if (r < b) r = a; return r; }
    let consts = Item::Decl(int_consts(vec![
        ("a", lit(1)),
        ("b", Expr::binary(BinaryOp::Add, var("a"), lit(1))),
    ]));
    let global = Item::Decl(int_vars(vec![("v", Some(Expr::binary(BinaryOp::Mul, var("b"), lit(2))))]));
    let p = func(
        Type::void(),
        "p",
        vec![],
        vec![BlockItem::Stmt(Stmt::Return(ReturnStmt { expr: None }))],
    );
    let main = func(
        Type::int_(),
        "main",
        vec![],
        vec![
            BlockItem::Decl(int_vars(vec![("r", Some(var("v")))])),
            BlockItem::Stmt(Stmt::If(
                Expr::binary(BinaryOp::Lt, var("r"), var("b")),
                Box::new(Stmt::Assign(LVal { ident: "r".to_string() }, var("a"))),
                None,
            )),
            ret(var("r")),
        ],
    );
    let mut unit = CompUnit { items: vec![consts, global, p, main] };
    assert_eq!(unit.type_check(), Ok(()));
    match &unit.items[1] {
        Item::Decl(Decl::VarDecl(decl)) => {
            let init = decl.defs[0].init.as_ref().unwrap();
            assert!(matches!(init.kind, ExprKind::Const(ComptimeVal::Int(4))));
        }
        _ => panic!("a declaration of variables was expected"),
    }
    match &unit.items[3] {
        Item::FuncDef(def) => {
            assert_eq!(def.ident, "main");
            match &def.body.items[1] {
                BlockItem::Stmt(Stmt::If(cond, then_stmt, None)) => {
                    // r < 2, an integer to the analysis, coerced to a boolean
                    assert!(cond.ty().is_bool());
                    match &cond.kind {
                        ExprKind::Coercion(inner) => match &inner.kind {
                            ExprKind::Binary(BinaryOp::Lt, lhs, rhs) => {
                                assert!(matches!(lhs.kind, ExprKind::LVal(_)));
                                assert!(matches!(rhs.kind, ExprKind::Const(ComptimeVal::Int(2))));
                                assert!(inner.ty().is_int());
                            }
                            _ => panic!("a comparison was expected"),
                        },
                        _ => panic!("a coercion was expected"),
                    }
                    match &**then_stmt {
                        Stmt::Assign(_, expr) => {
                            assert!(matches!(expr.kind, ExprKind::Const(ComptimeVal::Int(1))))
                        }
                        _ => panic!("an assignment was expected"),
                    }
                }
                _ => panic!("an if was expected"),
            }
        }
        _ => panic!("a function was expected"),
    }
    // a failure anywhere fails the program
    let bad = func(Type::int_(), "bad", vec![], vec![ret(var("nowhere"))]);
    let mut unit = CompUnit { items: vec![bad] };
    assert_eq!(unit.type_check(), Err(SemanticError::UnresolvedIdentifier));
    let mut unit = CompUnit { items: vec![] };
    assert_eq!(unit.type_check(), Ok(()));
}

#[test]
fn test_expression_equality_is_by_shape() {
    let typed = analyze(var("x"), None).unwrap();
    // the type is no part of the shape
    assert_eq!(typed, var("x"));
    assert_ne!(var("x"), var("t"));
    assert_eq!(lit(1), flag(true));
    assert_ne!(lit(2), flag(true));
    assert_eq!(
        Expr::binary(BinaryOp::Add, lit(1), var("x")),
        Expr::binary(BinaryOp::Add, flag(true), var("x"))
    );
    assert_ne!(
        Expr::binary(BinaryOp::Add, lit(1), var("x")),
        Expr::binary(BinaryOp::Sub, lit(1), var("x"))
    );
    assert_ne!(
        Expr::binary(BinaryOp::Add, lit(1), var("x")),
        Expr::binary(BinaryOp::Add, var("x"), lit(1))
    );
    assert_eq!(Expr::unary(UnaryOp::Neg, var("x")), Expr::unary(UnaryOp::Neg, var("x")));
    assert_ne!(Expr::unary(UnaryOp::Neg, var("x")), Expr::unary(UnaryOp::Not, var("x")));
    assert_eq!(call("f", vec![lit(1), var("x")]), call("f", vec![lit(1), var("x")]));
    assert_ne!(call("f", vec![lit(1), var("x")]), call("f", vec![lit(1)]));
    assert_ne!(call("f", vec![lit(1), var("x")]), call("f", vec![lit(1), var("t")]));
    assert_ne!(call("f", vec![]), call("g", vec![]));
    assert_ne!(call("f", vec![]), var("f"));
    assert_eq!(
        Expr::coercion(var("x"), Type::bool()),
        Expr::coercion(var("x"), Type::void())
    );
    assert_ne!(Expr::coercion(var("x"), Type::bool()), var("x"));
    // an undefined constant equals nothing, itself included
    let undefined = Expr::const_(ComptimeVal::undef(Type::int_()));
    assert_ne!(undefined.clone(), undefined);
    assert_eq!(LVal { ident: "a".to_string() }, LVal { ident: "a".to_string() });
    assert_eq!(var("x").kind, var("x").kind);
    assert_eq!(var("x").clone(), var("x"));
}

use sysy_frontend::frontend::ast::{
    BinaryOp, ComptimeVal, Expr, ExprKind, LVal, SymbolEntry, SymbolTable, UnaryOp,
};
use sysy_frontend::frontend::error::SemanticError;
use sysy_frontend::frontend::types::Type;

fn fold(expr: &Expr) -> ComptimeVal {
    expr.try_fold(&SymbolTable::default()).unwrap().unwrap()
}

#[test]
fn test_ast_comptime_val_operations() {
    let val_int = ComptimeVal::int_(10);
    let val_true = ComptimeVal::bool(true);
    let val_false = ComptimeVal::bool(false);
    let val_undef = ComptimeVal::undef(Type::int_());

    assert_eq!(val_int.unwrap_int(), 10);
    assert_eq!(val_true.unwrap_int(), 1);

    assert!(!val_int.is_zero());
    assert!(!val_true.is_zero());
    assert!(!val_undef.is_zero());

    let or_result = val_true.logical_or(&val_false);
    assert_eq!(or_result, Ok(ComptimeVal::bool(true)));

    let and_result = val_true.logical_and(&val_false);
    assert_eq!(and_result, Ok(ComptimeVal::bool(false)));

    let add_result = val_int + ComptimeVal::int_(5);
    assert_eq!(add_result, Ok(ComptimeVal::int_(15)));

    let failed_add = val_undef + ComptimeVal::int_(5);
    assert_eq!(failed_add, Err(SemanticError::InvalidOperation));
}

#[test]
fn test_ast_expr_operations() {
    let var1 = 8;
    let var2 = 5;
    let expr1 = Expr::const_(ComptimeVal::int_(var1));
    let expr2 = Expr::const_(ComptimeVal::int_(var2));

    let add_expr = Expr::binary(BinaryOp::Add, expr1.clone(), expr2.clone());
    let sub_expr = Expr::binary(BinaryOp::Sub, expr1.clone(), expr2.clone());

    let mul_expr = Expr::binary(BinaryOp::Mul, expr1.clone(), expr2.clone());
    let div_expr = Expr::binary(BinaryOp::Div, expr1.clone(), expr2.clone());

    let mod_expr = Expr::binary(BinaryOp::Mod, expr1.clone(), expr2.clone());

    let lt_expr = Expr::binary(BinaryOp::Lt, expr1.clone(), expr2.clone());
    let gt_expr = Expr::binary(BinaryOp::Gt, expr1.clone(), expr2.clone());
    let le_expr = Expr::binary(BinaryOp::Le, expr1.clone(), expr2.clone());
    let ge_expr = Expr::binary(BinaryOp::Ge, expr1.clone(), expr2.clone());

    let eq_expr = Expr::binary(BinaryOp::Eq, expr1.clone(), expr1.clone());
    let ne_expr = Expr::binary(BinaryOp::Ne, expr1.clone(), expr2.clone());

    let and_expr = Expr::binary(BinaryOp::And, expr1.clone(), expr2.clone());
    let or_expr = Expr::binary(BinaryOp::Or, expr1.clone(), expr2.clone());

    let add_result = fold(&add_expr);
    assert_eq!(add_result, ComptimeVal::int_(var1 + var2));

    let sub_result = fold(&sub_expr);
    assert_eq!(sub_result, ComptimeVal::int_(var1 - var2));

    let mul_result = fold(&mul_expr);
    assert_eq!(mul_result, ComptimeVal::int_(var1 * var2));

    let div_result = fold(&div_expr);
    assert_eq!(div_result, ComptimeVal::int_(var1 / var2));

    let mod_result = fold(&mod_expr);
    assert_eq!(mod_result, ComptimeVal::int_(var1 % var2));

    let lt_result = fold(&lt_expr);
    assert_eq!(lt_result, ComptimeVal::bool(var1 < var2));

    let gt_result = fold(&gt_expr);
    assert_eq!(gt_result, ComptimeVal::bool(var1 > var2));

    let le_result = fold(&le_expr);
    assert_eq!(le_result, ComptimeVal::bool(var1 <= var2));

    let ge_result = fold(&ge_expr);
    assert_eq!(ge_result, ComptimeVal::bool(var1 >= var2));

    let eq_result = fold(&eq_expr);
    assert_eq!(eq_result, ComptimeVal::bool(var1 == var1));

    let ne_result = fold(&ne_expr);
    assert_eq!(ne_result, ComptimeVal::bool(var1 != var2));

    let and_result = fold(&and_expr);
    assert_eq!(and_result, ComptimeVal::bool(var1 != 0 && var2 != 0));

    let or_result = fold(&or_expr);
    assert_eq!(or_result, ComptimeVal::bool(var1 != 0 || var2 != 0));

    let neg_expr = Expr::unary(UnaryOp::Neg, expr1);
    let neg_result = fold(&neg_expr);
    assert_eq!(neg_result, ComptimeVal::int_(-8));
}

#[test]
fn test_ast_type_checking() {
    let symtable = &mut SymbolTable::default();
    symtable.enter_scope();
    symtable.insert("x", SymbolEntry::from_ty(Type::int_()));

    let expr = Expr::lval(LVal {
        ident: "x".to_string(),
    });
    // expect: None
    let typed_expr = expr.clone().type_check(None, symtable).unwrap();
    assert!(typed_expr.ty().is_int());
    // expect: bool, int to bool
    let typed_expr = expr.clone().type_check(Some(&Type::bool()), symtable).unwrap();
    assert!(typed_expr.ty().is_bool());
    // expect: int, int to int
    let typed_expr = expr.clone().type_check(Some(&Type::int_()), symtable).unwrap();
    assert!(typed_expr.ty().is_int());

    // an undefined variable
    let expr_undefined = Expr::lval(LVal {
        ident: "y".to_string(),
    });
    let failed = expr_undefined.type_check(None, symtable);
    assert_eq!(failed.err(), Some(SemanticError::UnresolvedIdentifier));

    symtable.leave_scope();
}

#[test]
fn test_ast_symbol_table() {
    let mut symtable = SymbolTable::default();
    symtable.enter_scope();

    symtable.insert("a", SymbolEntry::from_ty(Type::int_()));
    assert!(symtable.lookup("a").is_some());

    assert!(symtable.lookup_mut("a").is_some());

    symtable.enter_scope();
    symtable.insert("b", SymbolEntry::from_ty(Type::bool()));
    symtable.insert_upper("c", SymbolEntry::from_ty(Type::int_()), 1);
    assert!(symtable.lookup("a").is_some());
    assert!(symtable.lookup("b").is_some());
    assert!(symtable.lookup("c").is_some());

    symtable.leave_scope();
    assert!(symtable.lookup("a").is_some());
    assert!(symtable.lookup("b").is_none());
    assert!(symtable.lookup("c").is_some());
}

#[test]
fn test_coercion_keeps_typed_expression() {
    let expr = Expr::const_(ComptimeVal::int_(3));
    let same = Expr::coercion(expr, Type::int_());
    assert!(matches!(same.kind, ExprKind::Const(ComptimeVal::Int(3))));
    assert!(same.ty().is_int());

    let wrapped = Expr::coercion(same, Type::bool());
    assert!(wrapped.ty().is_bool());
    match wrapped.kind {
        ExprKind::Coercion(inner) => {
            assert!(matches!(inner.kind, ExprKind::Const(ComptimeVal::Int(3))));
            assert!(inner.ty().is_int());
        }
        _ => panic!("a coercion was expected"),
    }
}

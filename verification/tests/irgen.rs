use sysy_frontend::frontend::ast::{
    BinaryOp, Block, BlockItem, CompUnit, ComptimeVal, ConstDecl, ConstDef, Decl, Expr, ExprKind,
    ExprStmt, FuncDef, FuncFParam, Item, LVal, ReturnStmt, Stmt, UnaryOp, VarDecl, VarDef,
};
use sysy_frontend::frontend::error::SemanticError;
use sysy_frontend::frontend::irgen::{irgen, IrGen, IrGenContext, IrGenResult};
use sysy_frontend::frontend::types::Type;
use sysy_frontend::ir::{
    ConstantValue, Context, Func, Global, Inst, InstKind, IntBinaryOp, IntCmpCond, Ty, Value,
    ValueKind,
};

fn var(name: &str) -> Expr {
    Expr::lval(LVal { ident: name.to_string() })
}

fn lit(value: i32) -> Expr {
    Expr::const_(ComptimeVal::int_(value))
}

fn ret(expr: Expr) -> BlockItem {
    BlockItem::Stmt(Stmt::Return(ReturnStmt { expr: Some(expr) }))
}

fn assign(name: &str, expr: Expr) -> BlockItem {
    BlockItem::Stmt(Stmt::Assign(LVal { ident: name.to_string() }, expr))
}

fn int_var(name: &str, init: Option<Expr>) -> BlockItem {
    BlockItem::Decl(Decl::VarDecl(VarDecl {
        ty: Type::int_(),
        defs: vec![VarDef { ident: name.to_string(), init }],
    }))
}

fn int_func(name: &str, params: Vec<&str>, items: Vec<BlockItem>) -> Item {
    Item::FuncDef(FuncDef {
        ret_ty: Type::int_(),
        ident: name.to_string(),
        params: params
            .into_iter()
            .map(|p| FuncFParam { ty: Type::int_(), ident: p.to_string() })
            .collect(),
        body: Block { items },
    })
}

fn compile(items: Vec<Item>) -> Result<Context, SemanticError> {
    let mut unit = CompUnit { items };
    unit.type_check()?;
    irgen(&unit, 64)
}

fn kinds(ctx: &Context, insts: &[Inst]) -> Vec<InstKind> {
    insts.iter().map(|i| i.kind(ctx)).collect()
}

fn result(ctx: &Context, inst: Inst) -> Value {
    inst.result(ctx).unwrap()
}

fn constant(ctx: &Context, value: Value) -> ConstantValue {
    match value.kind(ctx) {
        ValueKind::Constant(c) => c,
        other => panic!("a constant was expected, not {:?}", other),
    }
}

/// `const int a = 1, b = 2; int f(int x) { return x + (a + b); }`
#[test]
fn test_end_to_end_constants_and_parameter() {
    let consts = Item::Decl(Decl::ConstDecl(ConstDecl {
        ty: Type::int_(),
        defs: vec![
            ConstDef { ident: "a".to_string(), init: lit(1) },
            ConstDef { ident: "b".to_string(), init: lit(2) },
        ],
    }));
    let body = vec![ret(Expr::binary(
        BinaryOp::Add,
        var("x"),
        Expr::binary(BinaryOp::Add, var("a"), var("b")),
    ))];
    let mut unit = CompUnit { items: vec![consts, int_func("f", vec!["x"], body)] };
    unit.type_check().unwrap();

    // the constants are folded where they are declared
    match &unit.items[0] {
        Item::Decl(Decl::ConstDecl(decl)) => {
            assert!(matches!(decl.defs[0].init.kind, ExprKind::Const(ComptimeVal::Int(1))));
            assert!(matches!(decl.defs[1].init.kind, ExprKind::Const(ComptimeVal::Int(2))));
        }
        _ => panic!("a declaration of constants was expected"),
    }
    // and `a + b` is the constant 3 in the body
    match &unit.items[1] {
        Item::FuncDef(def) => match &def.body.items[0] {
            BlockItem::Stmt(Stmt::Return(ReturnStmt { expr: Some(expr) })) => match &expr.kind {
                ExprKind::Binary(BinaryOp::Add, lhs, rhs) => {
                    assert!(matches!(lhs.kind, ExprKind::LVal(_)));
                    assert!(matches!(rhs.kind, ExprKind::Const(ComptimeVal::Int(3))));
                    assert!(expr.ty().is_int());
                }
                _ => panic!("an addition was expected"),
            },
            _ => panic!("a return was expected"),
        },
        _ => panic!("a function was expected"),
    }

    let ctx = irgen(&unit, 64).unwrap();
    assert_eq!(ctx.target_info().ptr_size, 64);

    assert_eq!(ctx.global_count(), 2);
    assert_eq!(Global(0).name(&ctx), "__GLOBAL_CONST_a");
    assert_eq!(Global(0).init(&ctx), ConstantValue::I32(1));
    assert_eq!(Global(0).ty(&ctx), Ty::I32);
    assert_eq!(Global(1).name(&ctx), "__GLOBAL_CONST_b");
    assert_eq!(Global(1).init(&ctx), ConstantValue::I32(2));

    assert_eq!(ctx.func_count(), 1);
    let f = Func(0);
    assert_eq!(f.name(&ctx), "f");
    assert_eq!(f.ret_ty(&ctx), Ty::I32);
    let params = f.params(&ctx);
    assert_eq!(params.len(), 1);
    assert!(params[0].is_param(&ctx));
    assert_eq!(params[0].ty(&ctx), Ty::I32);
    assert_eq!(params[0].kind(&ctx), ValueKind::Param(f, 0));

    let blocks = f.blocks(&ctx);
    assert_eq!(blocks.len(), 2);
    assert_eq!(f.head(&ctx), Some(blocks[0]));
    let entry = blocks[0].insts(&ctx);
    let exit = blocks[1].insts(&ctx);
    assert_eq!(entry.len(), 7);

    // the slot of the returned value and the one slot of `x` come first
    assert_eq!(entry[0].kind(&ctx), InstKind::Alloca { ty: Ty::I32 });
    assert_eq!(entry[1].kind(&ctx), InstKind::Alloca { ty: Ty::I32 });
    let ret_slot = result(&ctx, entry[0]);
    let x_slot = result(&ctx, entry[1]);
    assert_eq!(ret_slot.ty(&ctx), Ty::Ptr);
    assert!(!x_slot.is_param(&ctx));
    // the parameter is stored to its slot
    assert_eq!(entry[2].kind(&ctx), InstKind::Store { val: params[0], ptr: x_slot });
    // the body loads `x`, adds 3, and stores the sum to be returned
    assert_eq!(entry[3].kind(&ctx), InstKind::Load { ptr: x_slot, ty: Ty::I32 });
    let x = result(&ctx, entry[3]);
    let (lhs, rhs) = match entry[4].kind(&ctx) {
        InstKind::IBinary { op: IntBinaryOp::Add, lhs, rhs } => (lhs, rhs),
        other => panic!("an addition was expected, not {:?}", other),
    };
    assert_eq!(lhs, x);
    assert_eq!(constant(&ctx, rhs), ConstantValue::I32(3));
    let sum = result(&ctx, entry[4]);
    assert_eq!(sum.ty(&ctx), Ty::I32);
    assert_eq!(sum.kind(&ctx), ValueKind::InstResult(entry[4]));
    assert_eq!(entry[5].kind(&ctx), InstKind::Store { val: sum, ptr: ret_slot });
    assert_eq!(entry[6].kind(&ctx), InstKind::Br { target: blocks[1] });
    assert!(blocks[0].is_closed(&ctx));

    // the function is left through the one block that returns
    assert_eq!(exit.len(), 2);
    assert_eq!(exit[0].kind(&ctx), InstKind::Load { ptr: ret_slot, ty: Ty::I32 });
    assert_eq!(exit[1].kind(&ctx), InstKind::Ret { value: Some(result(&ctx, exit[0])) });
    assert!(blocks[1].is_closed(&ctx));
    let returns = (0..ctx.inst_count())
        .filter(|i| matches!(Inst(*i).kind(&ctx), InstKind::Ret { .. }))
        .count();
    assert_eq!(returns, 1);
    for inst in entry.iter() {
        assert_eq!(inst.parent(&ctx), Some(blocks[0]));
    }
    assert_eq!(blocks[0].parent(&ctx), Some(f));
    assert_eq!(blocks[1].parent(&ctx), Some(f));
}

/// `int f(int x) { return x + a + b; }` as the source language reads it:
/// `(x + a) + b`, which has no constant part to fold but `a` and `b`.
#[test]
fn test_left_nested_sum_keeps_both_additions() {
    let consts = Item::Decl(Decl::ConstDecl(ConstDecl {
        ty: Type::int_(),
        defs: vec![
            ConstDef { ident: "a".to_string(), init: lit(1) },
            ConstDef { ident: "b".to_string(), init: lit(2) },
        ],
    }));
    let body = vec![ret(Expr::binary(
        BinaryOp::Add,
        Expr::binary(BinaryOp::Add, var("x"), var("a")),
        var("b"),
    ))];
    let ctx = compile(vec![consts, int_func("f", vec!["x"], body)]).unwrap();
    let entry = Func(0).head(&ctx).unwrap().insts(&ctx);
    let adds: Vec<InstKind> = kinds(&ctx, &entry)
        .into_iter()
        .filter(|k| matches!(k, InstKind::IBinary { .. }))
        .collect();
    assert_eq!(adds.len(), 2);
    match (adds[0], adds[1]) {
        (
            InstKind::IBinary { op: IntBinaryOp::Add, rhs: one, .. },
            InstKind::IBinary { op: IntBinaryOp::Add, rhs: two, .. },
        ) => {
            assert_eq!(constant(&ctx, one), ConstantValue::I32(1));
            assert_eq!(constant(&ctx, two), ConstantValue::I32(2));
        }
        _ => panic!("two additions were expected"),
    }
}

/// `int g() { int y; y = 5; return y; }`
#[test]
fn test_end_to_end_local_variable() {
    let body = vec![int_var("y", None), assign("y", lit(5)), ret(var("y"))];
    let ctx = compile(vec![int_func("g", vec![], body)]).unwrap();

    assert_eq!(ctx.func_count(), 1);
    let g = Func(0);
    assert_eq!(g.name(&ctx), "g");
    assert_eq!(g.params(&ctx).len(), 0);
    let blocks = g.blocks(&ctx);
    assert_eq!(blocks.len(), 2);
    let entry = blocks[0].insts(&ctx);
    let exit = blocks[1].insts(&ctx);

    // the slots are reserved in the entry block, before anything else
    assert_eq!(entry.len(), 7);
    assert_eq!(entry[0].kind(&ctx), InstKind::Alloca { ty: Ty::I32 });
    assert_eq!(entry[1].kind(&ctx), InstKind::Alloca { ty: Ty::I32 });
    let y_slot = result(&ctx, entry[0]);
    let ret_slot = result(&ctx, entry[1]);
    assert_eq!(entry[0].parent(&ctx), Some(blocks[0]));

    // `int y;` stores the undefined value, `y = 5;` stores 5
    match entry[2].kind(&ctx) {
        InstKind::Store { val, ptr } => {
            assert_eq!(ptr, y_slot);
            assert_eq!(constant(&ctx, val), ConstantValue::Undef(Ty::I32));
        }
        other => panic!("a store was expected, not {:?}", other),
    }
    match entry[3].kind(&ctx) {
        InstKind::Store { val, ptr } => {
            assert_eq!(ptr, y_slot);
            assert_eq!(constant(&ctx, val), ConstantValue::I32(5));
        }
        other => panic!("a store was expected, not {:?}", other),
    }
    // `return y;` loads `y` after the stores
    assert_eq!(entry[4].kind(&ctx), InstKind::Load { ptr: y_slot, ty: Ty::I32 });
    assert_eq!(
        entry[5].kind(&ctx),
        InstKind::Store { val: result(&ctx, entry[4]), ptr: ret_slot }
    );
    assert_eq!(entry[6].kind(&ctx), InstKind::Br { target: blocks[1] });
    let first_load = entry
        .iter()
        .position(|i| matches!(i.kind(&ctx), InstKind::Load { ptr, .. } if ptr == y_slot))
        .unwrap();
    let last_store = entry
        .iter()
        .rposition(|i| matches!(i.kind(&ctx), InstKind::Store { ptr, .. } if ptr == y_slot))
        .unwrap();
    assert!(last_store < first_load);

    assert_eq!(exit.len(), 2);
    assert_eq!(exit[0].kind(&ctx), InstKind::Load { ptr: ret_slot, ty: Ty::I32 });
    assert_eq!(exit[1].kind(&ctx), InstKind::Ret { value: Some(result(&ctx, exit[0])) });
}

#[test]
fn test_void_function_falls_through_to_return_block() {
    let f = Item::FuncDef(FuncDef {
        ret_ty: Type::void(),
        ident: "h".to_string(),
        params: vec![],
        body: Block { items: vec![BlockItem::Stmt(Stmt::Expr(ExprStmt { expr: None }))] },
    });
    let ctx = compile(vec![f]).unwrap();
    let blocks = Func(0).blocks(&ctx);
    assert_eq!(Func(0).ret_ty(&ctx), Ty::Void);
    assert_eq!(blocks.len(), 2);
    assert_eq!(
        kinds(&ctx, &blocks[0].insts(&ctx)),
        vec![InstKind::Br { target: blocks[1] }]
    );
    assert_eq!(kinds(&ctx, &blocks[1].insts(&ctx)), vec![InstKind::Ret { value: None }]);
}

#[test]
fn test_code_behind_return_is_left_out() {
    let body = vec![ret(lit(1)), assign("x", lit(2)), ret(lit(3))];
    let ctx = compile(vec![int_func("f", vec!["x"], body)]).unwrap();
    let entry = Func(0).head(&ctx).unwrap().insts(&ctx);
    // two slots, the store of the parameter, the store of 1, the branch
    assert_eq!(entry.len(), 5);
    match entry[3].kind(&ctx) {
        InstKind::Store { val, .. } => assert_eq!(constant(&ctx, val), ConstantValue::I32(1)),
        other => panic!("a store was expected, not {:?}", other),
    }
    assert!(matches!(entry[4].kind(&ctx), InstKind::Br { .. }));
}

#[test]
fn test_if_else_blocks() {
    // int f(int x) { if (x) { x = 1; } else { return 2; } return x; }
    let then_stmt = Stmt::Block(Block { items: vec![assign("x", lit(1))] });
    let else_stmt = Stmt::Block(Block { items: vec![ret(lit(2))] });
    let body = vec![
        BlockItem::Stmt(Stmt::If(var("x"), Box::new(then_stmt), Some(Box::new(else_stmt)))),
        ret(var("x")),
    ];
    let ctx = compile(vec![int_func("f", vec!["x"], body)]).unwrap();
    let blocks = Func(0).blocks(&ctx);
    // entry, then, else, merge, return
    assert_eq!(blocks.len(), 5);
    let entry = blocks[0].insts(&ctx);
    // the condition is the truth of `x`: whether it is other than zero
    let n = entry.len();
    let (cond, then_target, else_target) = match entry[n - 1].kind(&ctx) {
        InstKind::CondBr { cond, then_target, else_target } => (cond, then_target, else_target),
        other => panic!("a conditional branch was expected, not {:?}", other),
    };
    assert_eq!(then_target, blocks[1]);
    assert_eq!(else_target, blocks[2]);
    assert_eq!(cond.ty(&ctx), Ty::I1);
    match entry[n - 2].kind(&ctx) {
        InstKind::IBinary { op: IntBinaryOp::ICmp { cond: IntCmpCond::Ne }, rhs, .. } => {
            assert_eq!(constant(&ctx, rhs), ConstantValue::I32(0));
        }
        other => panic!("a comparison was expected, not {:?}", other),
    }
    assert_eq!(result(&ctx, entry[n - 2]), cond);
    // the then branch goes on to the merge block
    let then_insts = blocks[1].insts(&ctx);
    assert_eq!(
        then_insts.last().unwrap().kind(&ctx),
        InstKind::Br { target: blocks[3] }
    );
    // the else branch returns: it goes to the return block, once
    let else_insts = blocks[2].insts(&ctx);
    assert_eq!(
        else_insts.last().unwrap().kind(&ctx),
        InstKind::Br { target: blocks[4] }
    );
    assert_eq!(
        else_insts.iter().filter(|i| i.kind(&ctx).terminates()).count(),
        1
    );
    // every block of the function is closed by its last instruction only
    for block in blocks.iter() {
        let insts = block.insts(&ctx);
        assert!(block.is_closed(&ctx));
        for inst in &insts[..insts.len() - 1] {
            assert!(!inst.kind(&ctx).terminates());
        }
    }
}

#[test]
fn test_if_without_else_blocks() {
    // int f(int x) { if (x) x = 1; return x; }
    let body = vec![
        BlockItem::Stmt(Stmt::If(var("x"), Box::new(Stmt::Assign(LVal { ident: "x".to_string() }, lit(1))), None)),
        ret(var("x")),
    ];
    let ctx = compile(vec![int_func("f", vec!["x"], body)]).unwrap();
    let blocks = Func(0).blocks(&ctx);
    // entry, then, merge, return
    assert_eq!(blocks.len(), 4);
    let entry = blocks[0].insts(&ctx);
    match entry.last().unwrap().kind(&ctx) {
        InstKind::CondBr { then_target, else_target, .. } => {
            assert_eq!(then_target, blocks[1]);
            assert_eq!(else_target, blocks[2]);
        }
        other => panic!("a conditional branch was expected, not {:?}", other),
    }
    assert_eq!(
        blocks[1].insts(&ctx).last().unwrap().kind(&ctx),
        InstKind::Br { target: blocks[2] }
    );
    assert_eq!(
        blocks[2].insts(&ctx).last().unwrap().kind(&ctx),
        InstKind::Br { target: blocks[3] }
    );
}

#[test]
fn test_while_with_break_and_continue() {
    // int f(int x) { while (x) { if (x) break; else continue; } return x; }
    let inner = Stmt::If(var("x"), Box::new(Stmt::Break), Some(Box::new(Stmt::Continue)));
    let body = vec![
        BlockItem::Stmt(Stmt::While(
            var("x"),
            Box::new(Stmt::Block(Block { items: vec![BlockItem::Stmt(inner)] })),
        )),
        ret(var("x")),
    ];
    let ctx = compile(vec![int_func("f", vec!["x"], body)]).unwrap();
    let blocks = Func(0).blocks(&ctx);
    // entry, condition, body, then, else, merge, exit, return
    assert_eq!(blocks.len(), 8);
    let (cond_block, body_block, exit_block) = (blocks[1], blocks[2], blocks[6]);
    assert_eq!(
        blocks[0].insts(&ctx).last().unwrap().kind(&ctx),
        InstKind::Br { target: cond_block }
    );
    match cond_block.insts(&ctx).last().unwrap().kind(&ctx) {
        InstKind::CondBr { then_target, else_target, .. } => {
            assert_eq!(then_target, body_block);
            assert_eq!(else_target, exit_block);
        }
        other => panic!("a conditional branch was expected, not {:?}", other),
    }
    // `break` goes behind the loop, `continue` back to the condition
    assert_eq!(
        kinds(&ctx, &blocks[3].insts(&ctx)),
        vec![InstKind::Br { target: exit_block }]
    );
    assert_eq!(
        kinds(&ctx, &blocks[4].insts(&ctx)),
        vec![InstKind::Br { target: cond_block }]
    );
    // the end of the body goes back to the condition
    assert_eq!(
        kinds(&ctx, &blocks[5].insts(&ctx)),
        vec![InstKind::Br { target: cond_block }]
    );
    for block in blocks.iter() {
        assert!(block.is_closed(&ctx));
    }
}

#[test]
fn test_break_outside_loop_is_rejected() {
    let body = vec![BlockItem::Stmt(Stmt::Break)];
    assert_eq!(
        compile(vec![int_func("f", vec![], body)]).err(),
        Some(SemanticError::InvalidOperation)
    );
    let body = vec![BlockItem::Stmt(Stmt::Continue)];
    assert_eq!(
        compile(vec![int_func("f", vec![], body)]).err(),
        Some(SemanticError::InvalidOperation)
    );
}

#[test]
fn test_call_cannot_be_lowered() {
    // int f(int x) { return f(x); } is analyzed, but has no lowering
    let body = vec![ret(Expr::func_call("f".to_string(), vec![var("x")]))];
    let mut unit = CompUnit { items: vec![int_func("f", vec!["x"], body)] };
    assert_eq!(unit.type_check(), Ok(()));
    assert_eq!(irgen(&unit, 32).err(), Some(SemanticError::InvalidOperation));
}

#[test]
fn test_global_variable_is_read_and_written() {
    // int v = 4; int f() { v = v + 1; return v; }
    let global = Item::Decl(Decl::VarDecl(VarDecl {
        ty: Type::int_(),
        defs: vec![VarDef { ident: "v".to_string(), init: Some(lit(4)) }],
    }));
    let body = vec![
        assign("v", Expr::binary(BinaryOp::Add, var("v"), lit(1))),
        ret(var("v")),
    ];
    let ctx = compile(vec![global, int_func("f", vec![], body)]).unwrap();
    assert_eq!(ctx.global_count(), 1);
    assert_eq!(Global(0).name(&ctx), "__GLOBAL_VAR_v");
    assert_eq!(Global(0).init(&ctx), ConstantValue::I32(4));
    let entry = Func(0).head(&ctx).unwrap().insts(&ctx);
    // alloca, load v, add, store v, load v, store ret, br
    assert_eq!(entry.len(), 7);
    let loaded = match entry[1].kind(&ctx) {
        InstKind::Load { ptr, ty } => {
            assert_eq!(ty, Ty::I32);
            assert_eq!(ptr.kind(&ctx), ValueKind::GlobalRef(Global(0)));
            assert_eq!(ptr.ty(&ctx), Ty::Ptr);
            result(&ctx, entry[1])
        }
        other => panic!("a load was expected, not {:?}", other),
    };
    match entry[2].kind(&ctx) {
        InstKind::IBinary { op: IntBinaryOp::Add, lhs, rhs } => {
            assert_eq!(lhs, loaded);
            assert_eq!(constant(&ctx, rhs), ConstantValue::I32(1));
        }
        other => panic!("an addition was expected, not {:?}", other),
    }
    match entry[3].kind(&ctx) {
        InstKind::Store { val, ptr } => {
            assert_eq!(val, result(&ctx, entry[2]));
            assert_eq!(ptr.kind(&ctx), ValueKind::GlobalRef(Global(0)));
        }
        other => panic!("a store was expected, not {:?}", other),
    }
}

#[test]
fn test_global_needs_constant_initializer() {
    // int f() { return 0; } int v = f();
    let global = Item::Decl(Decl::VarDecl(VarDecl {
        ty: Type::int_(),
        defs: vec![VarDef {
            ident: "v".to_string(),
            init: Some(Expr::func_call("f".to_string(), vec![])),
        }],
    }));
    let mut unit = CompUnit { items: vec![int_func("f", vec![], vec![ret(lit(0))]), global] };
    assert_eq!(unit.type_check(), Ok(()));
    assert_eq!(irgen(&unit, 64).err(), Some(SemanticError::NonConstantInitializer));
}

#[test]
fn test_operators_compute_as_folding_does() {
    // int f(int x, int y) { return (x < y) + (x && y) + (-x) + (!x); }
    let less = Expr::binary(BinaryOp::Lt, var("x"), var("y"));
    let both = Expr::binary(BinaryOp::And, var("x"), var("y"));
    let neg = Expr::unary(UnaryOp::Neg, var("x"));
    let not = Expr::unary(UnaryOp::Not, var("x"));
    let sum = Expr::binary(
        BinaryOp::Add,
        Expr::binary(BinaryOp::Add, Expr::binary(BinaryOp::Add, less, both), neg),
        not,
    );
    let ctx = compile(vec![int_func("f", vec!["x", "y"], vec![ret(sum)])]).unwrap();
    let entry = Func(0).head(&ctx).unwrap().insts(&ctx);
    let body: Vec<InstKind> = kinds(&ctx, &entry)
        .into_iter()
        .filter(|k| matches!(k, InstKind::IBinary { .. } | InstKind::ZExt { .. }))
        .collect();
    let ops: Vec<Option<IntBinaryOp>> = body
        .iter()
        .map(|k| match k {
            InstKind::IBinary { op, .. } => Some(*op),
            _ => None,
        })
        .collect();
    let ne = Some(IntBinaryOp::ICmp { cond: IntCmpCond::Ne });
    assert_eq!(
        ops,
        vec![
            // x < y, an integer to the analysis: compared, then widened
            Some(IntBinaryOp::ICmp { cond: IntCmpCond::Slt }),
            None,
            // x && y: the truth of each, combined, then widened
            ne,
            ne,
            Some(IntBinaryOp::And),
            None,
            Some(IntBinaryOp::Add),
            // -x: 0 - x
            Some(IntBinaryOp::Sub),
            Some(IntBinaryOp::Add),
            // !x, a boolean: whether x is zero; widened for the sum
            Some(IntBinaryOp::ICmp { cond: IntCmpCond::Eq }),
            None,
            Some(IntBinaryOp::Add),
        ]
    );
    match body[7] {
        InstKind::IBinary { lhs, .. } => assert_eq!(constant(&ctx, lhs), ConstantValue::I32(0)),
        _ => panic!("a subtraction was expected"),
    }
    // every operand of an addition is an integer
    for kind in body.iter() {
        if let InstKind::IBinary { op: IntBinaryOp::Add, lhs, rhs } = kind {
            assert_eq!(lhs.ty(&ctx), Ty::I32);
            assert_eq!(rhs.ty(&ctx), Ty::I32);
        }
    }
}

#[test]
fn test_not_of_boolean_compares_with_false() {
    // int f(int x) { if (!(!x)) return 1; return 0; }
    let cond = Expr::unary(UnaryOp::Not, Expr::unary(UnaryOp::Not, var("x")));
    let body = vec![
        BlockItem::Stmt(Stmt::If(cond, Box::new(Stmt::Return(ReturnStmt { expr: Some(lit(1)) })), None)),
        ret(lit(0)),
    ];
    let ctx = compile(vec![int_func("f", vec!["x"], body)]).unwrap();
    let entry = Func(0).head(&ctx).unwrap().insts(&ctx);
    let compares: Vec<InstKind> = kinds(&ctx, &entry)
        .into_iter()
        .filter(|k| matches!(k, InstKind::IBinary { .. }))
        .collect();
    assert_eq!(compares.len(), 2);
    match compares[0] {
        InstKind::IBinary { op: IntBinaryOp::ICmp { cond: IntCmpCond::Eq }, lhs, rhs } => {
            assert_eq!(lhs.ty(&ctx), Ty::I32);
            assert_eq!(constant(&ctx, rhs), ConstantValue::I32(0));
        }
        other => panic!("a comparison with zero was expected, not {:?}", other),
    }
    match compares[1] {
        InstKind::IBinary { op: IntBinaryOp::ICmp { cond: IntCmpCond::Eq }, lhs, rhs } => {
            assert_eq!(lhs.ty(&ctx), Ty::I1);
            assert_eq!(constant(&ctx, rhs), ConstantValue::I1(false));
        }
        other => panic!("a comparison with false was expected, not {:?}", other),
    }
}

#[test]
fn test_lowering_state_and_trait() {
    let mut state = IrGenContext::default();
    let mut unit = CompUnit { items: vec![int_func("f", vec![], vec![ret(lit(7))])] };
    unit.type_check().unwrap();
    assert_eq!(unit.irgen(&mut state), Ok(()));
    assert!(state.curr_func.is_none());
    assert!(state.curr_block.is_none());
    assert!(state.symtable.lookup("f").is_none());
    let ctx = state.finish();
    assert_eq!(ctx.func_count(), 1);
    assert_eq!(ctx.block_count(), 2);
    assert!(ctx.value_count() >= 3);

    let fresh = IrGenContext::for_target(16);
    assert_eq!(fresh.ctx.target_info().ptr_size, 16);
    assert_eq!(fresh.ctx.value_count(), 0);
    assert!(fresh.curr_ret_block.is_none() && fresh.curr_ret_slot.is_none());
    assert!(fresh.loop_entry_stack.is_empty() && fresh.loop_exit_stack.is_empty());
    assert!(fresh.curr_func_name.is_none());

    assert_eq!(IrGenResult::Value(Value(3)).unwrap_value(), Value(3));
    assert_eq!(Ty::I32.bitwidth(&ctx), 32);
    assert_eq!(Ty::I1.bitwidth(&ctx), 1);
    assert_eq!(Ty::Void.bitwidth(&ctx), 0);
    assert_eq!(Ty::Ptr.bitwidth(&ctx), 0);
}

#[test]
fn test_lowering_helpers() {
    let state = IrGenContext::new();
    assert_eq!(state.gen_type(&Type::int_()), Ok(Ty::I32));
    assert_eq!(state.gen_type(&Type::bool()), Ok(Ty::I1));
    assert_eq!(state.gen_type(&Type::void()), Ok(Ty::Void));
    assert_eq!(
        state.gen_type(&Type::func(vec![], Type::int_())),
        Err(SemanticError::InvalidOperation)
    );
    assert_eq!(
        state.gen_global_comptime(&ComptimeVal::bool(true)),
        Ok(ConstantValue::I1(true))
    );
    assert_eq!(
        state.gen_global_comptime(&ComptimeVal::int_(-4)),
        Ok(ConstantValue::I32(-4))
    );
    assert_eq!(
        state.gen_global_comptime(&ComptimeVal::undef(Type::bool())),
        Ok(ConstantValue::Undef(Ty::I1))
    );
    let pairs = [
        (BinaryOp::Add, IntBinaryOp::Add),
        (BinaryOp::Sub, IntBinaryOp::Sub),
        (BinaryOp::Mul, IntBinaryOp::Mul),
        (BinaryOp::Div, IntBinaryOp::SDiv),
        (BinaryOp::Mod, IntBinaryOp::SRem),
        (BinaryOp::Lt, IntBinaryOp::ICmp { cond: IntCmpCond::Slt }),
        (BinaryOp::Gt, IntBinaryOp::ICmp { cond: IntCmpCond::Sgt }),
        (BinaryOp::Le, IntBinaryOp::ICmp { cond: IntCmpCond::Sle }),
        (BinaryOp::Ge, IntBinaryOp::ICmp { cond: IntCmpCond::Sge }),
        (BinaryOp::Eq, IntBinaryOp::ICmp { cond: IntCmpCond::Eq }),
        (BinaryOp::Ne, IntBinaryOp::ICmp { cond: IntCmpCond::Ne }),
        (BinaryOp::And, IntBinaryOp::And),
        (BinaryOp::Or, IntBinaryOp::Or),
    ];
    for (op, expected) in pairs {
        assert_eq!(state.map_int_binary_op(&op), expected);
    }
}

/// What the value is when the program runs, for values computed from
/// constants alone.
fn run(ctx: &Context, value: Value) -> i32 {
    match value.kind(ctx) {
        ValueKind::Constant(ConstantValue::I1(b)) => b as i32,
        ValueKind::Constant(ConstantValue::I32(i)) => i,
        ValueKind::InstResult(inst) => match inst.kind(ctx) {
            InstKind::ZExt { val } => run(ctx, val),
            InstKind::IBinary { op, lhs, rhs } => {
                let (a, b) = (run(ctx, lhs), run(ctx, rhs));
                match op {
                    IntBinaryOp::Add => a.wrapping_add(b),
                    IntBinaryOp::Sub => a.wrapping_sub(b),
                    IntBinaryOp::Mul => a.wrapping_mul(b),
                    IntBinaryOp::SDiv => a / b,
                    IntBinaryOp::SRem => a % b,
                    IntBinaryOp::And => a & b,
                    IntBinaryOp::Or => a | b,
                    IntBinaryOp::ICmp { cond } => match cond {
                        IntCmpCond::Eq => (a == b) as i32,
                        IntCmpCond::Ne => (a != b) as i32,
                        IntCmpCond::Slt => (a < b) as i32,
                        IntCmpCond::Sle => (a <= b) as i32,
                        IntCmpCond::Sgt => (a > b) as i32,
                        IntCmpCond::Sge => (a >= b) as i32,
                    },
                }
            }
            other => panic!("no constant computation: {:?}", other),
        },
        other => panic!("no constant computation: {:?}", other),
    }
}

fn typed(kind: ExprKind, ty: Type) -> Expr {
    Expr { kind, ty: Some(ty) }
}

fn binary(op: BinaryOp, lhs: Expr, rhs: Expr, ty: Type) -> Expr {
    typed(ExprKind::Binary(op, Box::new(lhs), Box::new(rhs)), ty)
}

fn unary(op: UnaryOp, operand: Expr, ty: Type) -> Expr {
    typed(ExprKind::Unary(op, Box::new(operand)), ty)
}

fn yes(value: bool) -> Expr {
    Expr::const_(ComptimeVal::bool(value))
}

/// Lowers `return expr;` as it stands, without analysis, and runs what is
/// returned.
fn lower_and_run(expr: &Expr) -> (i32, Ty) {
    let unit = CompUnit { items: vec![int_func("f", vec![], vec![ret(expr.clone())])] };
    let ctx = irgen(&unit, 64).unwrap();
    let entry = Func(0).head(&ctx).unwrap().insts(&ctx);
    let stored = entry
        .iter()
        .rev()
        .find_map(|i| match i.kind(&ctx) {
            InstKind::Store { val, .. } => Some(val),
            _ => None,
        })
        .unwrap();
    (run(&ctx, stored), stored.ty(&ctx))
}

#[test]
fn test_lowered_constant_expression_computes_folded_value() {
    let int = Type::int_;
    let boolean = Type::bool;
    let cases = vec![
        binary(BinaryOp::Add, lit(8), lit(5), int()),
        binary(BinaryOp::Lt, lit(8), lit(5), boolean()),
        binary(BinaryOp::Lt, lit(5), lit(8), int()),
        binary(BinaryOp::And, yes(true), yes(false), boolean()),
        binary(BinaryOp::And, lit(2), lit(4), boolean()),
        binary(BinaryOp::Or, lit(0), lit(4), int()),
        binary(BinaryOp::Sub, yes(true), lit(4), int()),
        binary(BinaryOp::Mul, lit(-6), lit(7), int()),
        binary(BinaryOp::Div, lit(-7), lit(2), int()),
        binary(BinaryOp::Mod, lit(-7), lit(2), int()),
        binary(BinaryOp::Div, lit(7), lit(-2), int()),
        binary(BinaryOp::Mod, lit(7), lit(-2), int()),
        binary(BinaryOp::Ge, yes(true), lit(1), boolean()),
        binary(BinaryOp::Ne, yes(false), lit(0), boolean()),
        unary(UnaryOp::Neg, lit(3), int()),
        unary(UnaryOp::Neg, yes(true), int()),
        unary(UnaryOp::Not, lit(0), boolean()),
        unary(UnaryOp::Not, lit(-1), boolean()),
        unary(UnaryOp::Not, yes(true), boolean()),
        unary(UnaryOp::Not, binary(BinaryOp::Lt, lit(1), lit(2), int()), boolean()),
        unary(UnaryOp::Not, binary(BinaryOp::Lt, lit(1), lit(2), boolean()), int()),
        Expr::coercion(lit(5), boolean()),
        Expr::coercion(yes(true), int()),
        Expr::coercion(binary(BinaryOp::Add, lit(1), lit(1), int()), boolean()),
        binary(
            BinaryOp::Add,
            binary(BinaryOp::Mul, lit(3), lit(4), int()),
            unary(UnaryOp::Neg, binary(BinaryOp::Le, lit(1), lit(1), int()), int()),
            int(),
        ),
    ];
    let empty = sysy_frontend::frontend::ast::SymbolTable::default();
    for expr in cases.iter() {
        let folded = expr.try_fold(&empty).unwrap().unwrap();
        let (ran, ty) = lower_and_run(expr);
        assert_eq!(ComptimeVal::int_(ran), folded, "for {:?}", expr);
        // the value has the type that the expression has
        let expected = if expr.ty().is_int() { Ty::I32 } else { Ty::I1 };
        assert_eq!(ty, expected, "for {:?}", expr);
    }
    assert_eq!(lower_and_run(&cases[0]), (13, Ty::I32));
    assert_eq!(lower_and_run(&cases[1]), (0, Ty::I1));
    assert_eq!(lower_and_run(&cases[3]), (0, Ty::I1));
    assert_eq!(lower_and_run(&cases[4]), (1, Ty::I1));
    assert_eq!(lower_and_run(&cases[8]), (-3, Ty::I32));
    assert_eq!(lower_and_run(&cases[9]), (-1, Ty::I32));
    assert_eq!(lower_and_run(&cases[19]), (0, Ty::I1));
    assert_eq!(lower_and_run(&cases[24]), (11, Ty::I32));
    // a constant is lowered as itself
    assert_eq!(lower_and_run(&lit(-9)), (-9, Ty::I32));
    assert_eq!(lower_and_run(&yes(true)), (1, Ty::I1));
}

#[test]
fn test_boolean_typed_sum_is_brought_to_a_truth() {
    // true + true has the value 2; typed as a boolean it is lowered to 1
    let sum = binary(BinaryOp::Add, yes(true), yes(true), Type::bool());
    let empty = sysy_frontend::frontend::ast::SymbolTable::default();
    assert_eq!(sum.try_fold(&empty), Ok(Some(ComptimeVal::int_(2))));
    assert_eq!(lower_and_run(&sum), (1, Ty::I1));
}

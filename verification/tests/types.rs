use sysy_frontend::frontend::types::{Type, TypeKind};

#[test]
fn test_type_display() {
    assert_eq!(Type::void().to_string(), "void");
    assert_eq!(Type::bool().to_string(), "bool");
    assert_eq!(Type::int_().to_string(), "int");
}

#[test]
fn test_type_creation() {
    let void_type = Type::void();
    let bool_type = Type::bool();
    let int_type = Type::int_();

    assert!(void_type.is_void());
    assert!(bool_type.is_bool());
    assert!(int_type.is_int());
}

#[test]
fn test_function_type() {
    let return_type = Type::int_();
    let param_types = vec![Type::bool(), Type::int_()];
    let func_type = Type::func(param_types.clone(), return_type.clone());

    let (params, ret) = func_type.unwrap_func();
    assert_eq!(params.to_vec(), param_types);
    assert_eq!(*ret, return_type);
}

#[test]
fn test_bytewidth() {
    assert_eq!(Type::void().bytewidth(), 0);
    assert_eq!(Type::bool().bytewidth(), 1);
    assert_eq!(Type::int_().bytewidth(), 4);
}

#[test]
fn test_singleton_type_creation() {
    let int_type1 = Type::int_();
    let int_type2 = Type::int_();

    assert!(int_type1 == int_type2);
}

#[test]
fn test_function_type_is_canonical() {
    let first = Type::func(vec![Type::bool(), Type::int_()], Type::int_());
    let second = Type::func(vec![Type::bool(), Type::int_()], Type::int_());
    assert_eq!(first, second);
    assert_eq!(first, Type::make(TypeKind::Func(vec![Type::bool(), Type::int_()], Type::int_())));
    assert_ne!(first, Type::func(vec![Type::int_(), Type::bool()], Type::int_()));
    assert_ne!(first, Type::func(vec![Type::bool()], Type::int_()));
    assert_ne!(first, Type::func(vec![Type::bool(), Type::int_()], Type::void()));
    assert_ne!(Type::int_(), Type::bool());
}

#[test]
fn test_function_type_display() {
    let unary = Type::func(vec![Type::int_()], Type::void());
    assert_eq!(unary.to_string(), "void(int)");
    let binary = Type::func(vec![Type::bool(), Type::int_()], Type::int_());
    assert_eq!(binary.to_string(), "int(bool, int)");
    let nullary = Type::func(vec![], Type::int_());
    assert_eq!(nullary.to_string(), "int()");
    let higher = Type::func(vec![binary.clone(), Type::int_()], Type::bool());
    assert_eq!(higher.to_string(), "bool(int(bool, int), int)");
}

#[test]
fn test_type_kind_and_clone() {
    let ty = Type::func(vec![Type::int_()], Type::bool());
    assert!(matches!(ty.kind(), TypeKind::Func(_, _)));
    assert!(!ty.is_int() && !ty.is_bool() && !ty.is_void());
    assert_eq!(ty.clone(), ty);
    assert_eq!(ty.kind().clone(), *ty.kind());
    assert!(matches!(Type::int_().kind(), TypeKind::Int));
}

use sysy_frontend::frontend::ast::{BinaryOp, ComptimeVal, UnaryOp};
use sysy_frontend::frontend::error::SemanticError;
use sysy_frontend::frontend::types::Type;

fn num(value: i32) -> ComptimeVal {
    ComptimeVal::int_(value)
}

fn truth(value: bool) -> ComptimeVal {
    ComptimeVal::bool(value)
}

fn undef() -> ComptimeVal {
    ComptimeVal::undef(Type::int_())
}

const BINARY_OPS: [BinaryOp; 13] = [
    BinaryOp::Add,
    BinaryOp::Sub,
    BinaryOp::Mul,
    BinaryOp::Div,
    BinaryOp::Mod,
    BinaryOp::Lt,
    BinaryOp::Gt,
    BinaryOp::Le,
    BinaryOp::Ge,
    BinaryOp::Eq,
    BinaryOp::Ne,
    BinaryOp::And,
    BinaryOp::Or,
];

#[test]
fn test_bool_widens_to_int() {
    assert_eq!(truth(true), num(1));
    assert_eq!(num(1), truth(true));
    assert_eq!(truth(false), num(0));
    assert_ne!(truth(true), num(2));
    assert_ne!(truth(true), truth(false));
    assert_eq!(truth(false) + num(5), Ok(num(5)));
    assert_eq!(truth(true) + truth(true), Ok(num(2)));
    assert_eq!(num(5) - truth(true), Ok(num(4)));
    assert_eq!(truth(true) * num(7), Ok(num(7)));
    assert_eq!(num(7) / truth(true), Ok(num(7)));
    assert_eq!(num(7) % truth(true), Ok(num(0)));
    assert_eq!(-truth(true), Ok(num(-1)));
    // the result of arithmetic is an integer, not a boolean
    assert!(matches!(truth(true) + truth(false), Ok(ComptimeVal::Int(1))));
    assert!(matches!(truth(true) * truth(true), Ok(ComptimeVal::Int(1))));
}

#[test]
fn test_comparisons_between_bool_and_int_are_on_integers() {
    assert!(truth(true) < num(2));
    assert!(truth(false) < truth(true));
    assert!(num(0) < truth(true));
    assert!(num(-1) < truth(false));
    assert!(truth(true) <= num(1));
    assert!(truth(true) >= num(1));
    assert!(!(truth(true) > num(1)));
    assert!(num(2) > truth(true));
    assert_eq!(truth(true).partial_cmp(&num(1)), Some(std::cmp::Ordering::Equal));
    assert_eq!(truth(false).partial_cmp(&num(1)), Some(std::cmp::Ordering::Less));
    assert_eq!(num(3).partial_cmp(&truth(true)), Some(std::cmp::Ordering::Greater));
    for op in [BinaryOp::Lt, BinaryOp::Gt, BinaryOp::Le, BinaryOp::Ge, BinaryOp::Eq, BinaryOp::Ne] {
        for (b, i) in [(true, 0), (true, 1), (true, 2), (false, -1), (false, 0), (false, 1)] {
            let widened = if b { 1 } else { 0 };
            assert_eq!(
                ComptimeVal::binary(op, &truth(b), &num(i)),
                ComptimeVal::binary(op, &num(widened), &num(i))
            );
            assert_eq!(
                ComptimeVal::binary(op, &num(i), &truth(b)),
                ComptimeVal::binary(op, &num(i), &num(widened))
            );
        }
    }
    assert_eq!(ComptimeVal::binary(BinaryOp::Lt, &truth(true), &num(2)), Ok(truth(true)));
    assert_eq!(ComptimeVal::binary(BinaryOp::Eq, &truth(true), &num(1)), Ok(truth(true)));
    assert_eq!(ComptimeVal::binary(BinaryOp::Ne, &truth(false), &num(0)), Ok(truth(false)));
    // a comparison gives a boolean
    assert!(matches!(
        ComptimeVal::binary(BinaryOp::Lt, &num(8), &num(5)),
        Ok(ComptimeVal::Bool(false))
    ));
}

#[test]
fn test_undefined_operand_is_invalid_operation() {
    let invalid = Err(SemanticError::InvalidOperation);
    for op in BINARY_OPS {
        assert_eq!(ComptimeVal::binary(op, &undef(), &num(5)), invalid);
        assert_eq!(ComptimeVal::binary(op, &num(5), &undef()), invalid);
        assert_eq!(ComptimeVal::binary(op, &undef(), &truth(true)), invalid);
        assert_eq!(ComptimeVal::binary(op, &undef(), &undef()), invalid);
    }
    assert_eq!(ComptimeVal::unary(UnaryOp::Neg, &undef()), invalid);
    assert_eq!(ComptimeVal::unary(UnaryOp::Not, &undef()), invalid);
    assert_eq!(undef() + num(1), invalid);
    assert_eq!(num(1) - undef(), invalid);
    assert_eq!(undef() * num(0), invalid);
    assert_eq!(num(0) / undef(), invalid);
    assert_eq!(undef() % num(1), invalid);
    assert_eq!(-undef(), invalid);
    assert_eq!(!undef(), invalid);
    assert_eq!(undef().logical_and(&truth(false)), invalid);
    assert_eq!(truth(true).logical_or(&undef()), invalid);
    // an undefined value equals nothing and compares with nothing
    assert_ne!(undef(), undef());
    assert_ne!(undef(), num(0));
    assert_eq!(undef().partial_cmp(&num(0)), None);
    assert_eq!(num(0).partial_cmp(&undef()), None);
    // and cannot be converted
    assert_eq!(undef().coerce(Some(&Type::bool())), invalid);
    assert_eq!(undef().coerce(Some(&Type::int_())), invalid);
}

#[test]
fn test_division_rounds_toward_zero() {
    assert_eq!(num(7) / num(2), Ok(num(3)));
    assert_eq!(num(-7) / num(2), Ok(num(-3)));
    assert_eq!(num(7) / num(-2), Ok(num(-3)));
    assert_eq!(num(-7) / num(-2), Ok(num(3)));
    assert_eq!(num(0) / num(-2), Ok(num(0)));
    assert_eq!(num(7) % num(2), Ok(num(1)));
    assert_eq!(num(-7) % num(2), Ok(num(-1)));
    assert_eq!(num(7) % num(-2), Ok(num(1)));
    assert_eq!(num(-7) % num(-2), Ok(num(-1)));
    assert_eq!(num(6) % num(3), Ok(num(0)));
    assert_eq!(num(i32::MIN) / num(2), Ok(num(-1073741824)));
    assert_eq!(num(i32::MIN) % num(2), Ok(num(0)));
    assert_eq!(num(i32::MAX) / num(-1), Ok(num(-i32::MAX)));
}

#[test]
fn test_results_that_do_not_fit_are_invalid_operation() {
    let invalid = Err(SemanticError::InvalidOperation);
    assert_eq!(num(i32::MAX) + num(1), invalid);
    assert_eq!(num(i32::MIN) - num(1), invalid);
    assert_eq!(num(65536) * num(65536), invalid);
    assert_eq!(num(i32::MIN) / num(-1), invalid);
    assert_eq!(num(i32::MIN) % num(-1), invalid);
    assert_eq!(-num(i32::MIN), invalid);
    assert_eq!(num(1) / num(0), invalid);
    assert_eq!(num(1) % num(0), invalid);
    assert_eq!(num(1) / truth(false), invalid);
    assert_eq!(truth(true) % truth(false), invalid);
    // the edges fit
    assert_eq!(num(i32::MAX) + num(0), Ok(num(i32::MAX)));
    assert_eq!(num(i32::MAX - 1) + num(1), Ok(num(i32::MAX)));
    assert_eq!(num(i32::MIN + 1) - num(1), Ok(num(i32::MIN)));
    assert_eq!(num(-65536) * num(32768), Ok(num(i32::MIN)));
    assert_eq!(-num(i32::MAX), Ok(num(-i32::MAX)));
}

#[test]
fn test_logical_operators() {
    assert_eq!(truth(true).logical_and(&truth(true)), Ok(truth(true)));
    assert_eq!(truth(true).logical_and(&num(0)), Ok(truth(false)));
    assert_eq!(num(2).logical_and(&num(-3)), Ok(truth(true)));
    assert_eq!(num(0).logical_or(&truth(false)), Ok(truth(false)));
    assert_eq!(num(0).logical_or(&num(7)), Ok(truth(true)));
    assert_eq!(ComptimeVal::binary(BinaryOp::And, &num(1), &num(2)), Ok(truth(true)));
    assert_eq!(ComptimeVal::binary(BinaryOp::Or, &num(0), &num(0)), Ok(truth(false)));
    assert!(matches!(num(1).logical_and(&num(2)), Ok(ComptimeVal::Bool(true))));
}

#[test]
fn test_logical_not() {
    assert_eq!(!truth(true), Ok(truth(false)));
    assert_eq!(!truth(false), Ok(truth(true)));
    // the logical not of an integer is true for zero alone
    assert_eq!(!num(0), Ok(truth(true)));
    assert_eq!(!num(1), Ok(truth(false)));
    assert_eq!(!num(-1), Ok(truth(false)));
    assert_eq!(!num(2), Ok(truth(false)));
    assert_eq!(!num(i32::MIN), Ok(truth(false)));
    assert_eq!(!num(i32::MAX), Ok(truth(false)));
    assert!(matches!(!num(5), Ok(ComptimeVal::Bool(false))));
    assert!(matches!(!num(0), Ok(ComptimeVal::Bool(true))));
    // it does not tell a boolean from the integer that it widens to
    assert_eq!(!truth(true), !num(1));
    assert_eq!(!truth(false), !num(0));
    assert_eq!(ComptimeVal::unary(UnaryOp::Not, &num(0)), Ok(truth(true)));
    assert_eq!(ComptimeVal::unary(UnaryOp::Not, &num(7)), Ok(truth(false)));
    assert_eq!(ComptimeVal::unary(UnaryOp::Neg, &num(8)), Ok(num(-8)));
    assert_eq!(ComptimeVal::unary(UnaryOp::Neg, &truth(false)), Ok(num(0)));
}

#[test]
fn test_value_queries() {
    assert_eq!(num(-3).unwrap_int(), -3);
    assert_eq!(truth(false).unwrap_int(), 0);
    assert!(num(0).is_zero());
    assert!(truth(false).is_zero());
    assert!(!truth(true).is_zero());
    assert!(!undef().is_zero());
    assert!(num(1).get_type().is_int());
    assert!(truth(true).get_type().is_bool());
    assert!(ComptimeVal::undef(Type::void()).get_type().is_void());
    assert!(matches!(num(4).clone(), ComptimeVal::Int(4)));
    assert!(matches!(undef().clone(), ComptimeVal::Undef(ty) if ty.is_int()));
}

#[test]
fn test_value_conversion() {
    assert!(matches!(num(2).coerce(Some(&Type::bool())), Ok(ComptimeVal::Bool(true))));
    assert!(matches!(num(0).coerce(Some(&Type::bool())), Ok(ComptimeVal::Bool(false))));
    assert!(matches!(truth(true).coerce(Some(&Type::bool())), Ok(ComptimeVal::Bool(true))));
    assert!(matches!(truth(true).coerce(Some(&Type::int_())), Ok(ComptimeVal::Int(1))));
    assert!(matches!(truth(false).coerce(Some(&Type::int_())), Ok(ComptimeVal::Int(0))));
    assert!(matches!(num(-9).coerce(Some(&Type::int_())), Ok(ComptimeVal::Int(-9))));
    assert_eq!(num(1).coerce(Some(&Type::void())), Err(SemanticError::MalformedCoercion));
    assert_eq!(
        num(1).coerce(Some(&Type::func(vec![], Type::int_()))),
        Err(SemanticError::MalformedCoercion)
    );
    assert_eq!(num(1).coerce(None), Err(SemanticError::MalformedCoercion));
    // what cannot be converted to is found before what cannot be converted
    assert_eq!(undef().coerce(Some(&Type::void())), Err(SemanticError::MalformedCoercion));
}

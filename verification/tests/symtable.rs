use sysy_frontend::frontend::ast::{ComptimeVal, SymbolEntry, SymbolTable};
use sysy_frontend::frontend::irgen::IrGenResult;
use sysy_frontend::frontend::types::Type;
use sysy_frontend::ir::Value;

fn entry_of(value: i32) -> SymbolEntry {
    SymbolEntry { ty: Type::int_(), comptime: Some(ComptimeVal::int_(value)), ir_value: None }
}

fn value_of(table: &SymbolTable, name: &str) -> Option<i32> {
    table.lookup(name).map(|e| e.comptime.as_ref().unwrap().unwrap_int())
}

#[test]
fn test_scope_shadowing() {
    let mut table = SymbolTable::default();
    table.enter_scope();
    table.insert("a", entry_of(1));
    table.insert("b", entry_of(10));
    assert_eq!(value_of(&table, "a"), Some(1));

    table.enter_scope();
    // the outer binding shows through until the inner scope declares the name
    assert_eq!(value_of(&table, "a"), Some(1));
    table.insert("a", entry_of(2));
    assert_eq!(value_of(&table, "a"), Some(2));
    assert_eq!(value_of(&table, "b"), Some(10));

    table.enter_scope();
    table.insert("a", entry_of(3));
    assert_eq!(value_of(&table, "a"), Some(3));
    table.leave_scope();
    assert_eq!(value_of(&table, "a"), Some(2));

    table.leave_scope();
    assert_eq!(value_of(&table, "a"), Some(1));
    assert_eq!(value_of(&table, "b"), Some(10));

    table.leave_scope();
    assert_eq!(value_of(&table, "a"), None);
    // leaving where no scope is open changes nothing
    table.leave_scope();
    assert_eq!(value_of(&table, "a"), None);
}

#[test]
fn test_insert_overwrites_in_one_scope() {
    let mut table = SymbolTable::default();
    table.enter_scope();
    table.insert("a", entry_of(1));
    table.insert("b", entry_of(5));
    table.insert("a", entry_of(2));
    assert_eq!(value_of(&table, "a"), Some(2));
    assert_eq!(value_of(&table, "b"), Some(5));
    table.insert("a", entry_of(3));
    assert_eq!(value_of(&table, "a"), Some(3));
    assert_eq!(value_of(&table, "ab"), None);
    assert_eq!(value_of(&table, ""), None);
}

#[test]
fn test_insert_upper_survives_leaving_the_scope() {
    let mut table = SymbolTable::default();
    table.enter_scope();
    table.enter_scope();
    table.enter_scope();
    table.insert_upper("one", entry_of(1), 1);
    table.insert_upper("two", entry_of(2), 2);
    table.insert_upper("zero", entry_of(0), 0);
    assert_eq!(value_of(&table, "zero"), Some(0));
    assert_eq!(value_of(&table, "one"), Some(1));
    assert_eq!(value_of(&table, "two"), Some(2));
    table.leave_scope();
    assert_eq!(value_of(&table, "zero"), None);
    assert_eq!(value_of(&table, "one"), Some(1));
    assert_eq!(value_of(&table, "two"), Some(2));
    table.leave_scope();
    assert_eq!(value_of(&table, "one"), None);
    assert_eq!(value_of(&table, "two"), Some(2));
    table.leave_scope();
    assert_eq!(value_of(&table, "two"), None);
}

#[test]
fn test_inner_name_hides_name_inserted_above() {
    let mut table = SymbolTable::default();
    table.enter_scope();
    table.enter_scope();
    table.insert("f", entry_of(7));
    table.insert_upper("f", entry_of(8), 1);
    // inside, the inner name is found; outside, the one inserted above
    assert_eq!(value_of(&table, "f"), Some(7));
    table.leave_scope();
    assert_eq!(value_of(&table, "f"), Some(8));
}

#[test]
fn test_lookup_mut_changes_the_innermost_binding() {
    let mut table = SymbolTable::default();
    table.enter_scope();
    table.insert("a", entry_of(1));
    table.enter_scope();
    table.insert("a", entry_of(2));
    table.insert("c", entry_of(3));

    let entry = table.lookup_mut("a").unwrap();
    assert_eq!(entry.comptime, Some(ComptimeVal::int_(2)));
    entry.comptime = Some(ComptimeVal::int_(20));
    entry.ir_value = Some(IrGenResult::Value(Value(4)));
    assert_eq!(value_of(&table, "a"), Some(20));
    assert_eq!(table.lookup("a").unwrap().ir_value, Some(IrGenResult::Value(Value(4))));
    assert_eq!(value_of(&table, "c"), Some(3));
    assert!(table.lookup_mut("missing").is_none());

    table.leave_scope();
    assert_eq!(value_of(&table, "a"), Some(1));
    assert_eq!(table.lookup("a").unwrap().ir_value, None);
    table.lookup_mut("a").unwrap().ty = Type::bool();
    assert!(table.lookup("a").unwrap().ty.is_bool());
}

#[test]
fn test_entry_from_type_and_library() {
    let entry = SymbolEntry::from_ty(Type::func(vec![Type::int_()], Type::void()));
    assert!(entry.comptime.is_none());
    assert!(entry.ir_value.is_none());
    assert_eq!(entry.ty.to_string(), "void(int)");

    let mut table = SymbolTable::default();
    assert!(table.curr_ret_ty.is_none());
    table.enter_scope();
    table.insert("a", entry_of(1));
    table.register_sysylib();
    assert_eq!(value_of(&table, "a"), Some(1));
    assert!(table.lookup("getint").is_none());
}

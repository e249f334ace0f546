use matlang::memory::{ActivationRecord, Binding, CallStack, Native};
use matlang::symbol::{Symbol, SymbolTable};
use matlang::text::same_text;
use matlang::value::Value;

fn number(value: Option<&Value>) -> Option<i64> {
    match value {
        Some(Value::Number(n)) => Some(*n),
        _ => None,
    }
}

#[test]
fn a_fresh_record_binds_nothing() {
    let record = ActivationRecord::new();
    assert!(record.get(&"a".to_string()).is_none());
    assert!(record.lookup("a").is_none());
}

#[test]
fn insert_binds_and_the_last_write_wins() {
    let mut record = ActivationRecord::new();
    assert!(record.insert("a".to_string(), Value::Number(1)).is_none());
    assert!(record.insert("b".to_string(), Value::Number(2)).is_none());
    assert_eq!(number(record.get(&"a".to_string())), Some(1));
    assert_eq!(number(record.get(&"b".to_string())), Some(2));
    let previous = record.insert("a".to_string(), Value::Number(3));
    assert_eq!(number(previous.as_ref()), Some(1));
    assert_eq!(number(record.get(&"a".to_string())), Some(3));
    assert_eq!(number(record.get(&"b".to_string())), Some(2));
    assert!(record.get(&"c".to_string()).is_none());
    assert!(record.get(&"".to_string()).is_none());
}

#[test]
fn a_value_replaces_a_native_binding() {
    let mut record = ActivationRecord::new();
    assert!(record.bind("f".to_string(), Binding::Native(Native::Transpose)).is_none());
    assert!(matches!(record.lookup("f"), Some(Binding::Native(Native::Transpose))));
    assert!(record.get(&"f".to_string()).is_none());
    assert!(record.insert("f".to_string(), Value::Number(1)).is_none());
    assert_eq!(number(record.get(&"f".to_string())), Some(1));
    let previous = record.bind("f".to_string(), Binding::Native(Native::Transpose));
    assert!(matches!(previous, Some(Binding::Value(Value::Number(1)))));
}

#[test]
fn the_call_stack_is_a_stack() {
    let mut stack = CallStack::new();
    assert_eq!(stack.len(), 0);
    assert!(stack.peek().is_none());
    assert!(stack.peek_mut().is_none());
    assert!(stack.pop().is_none());
    let mut outer = ActivationRecord::new();
    outer.insert("x".to_string(), Value::Number(1));
    stack.push(outer);
    let mut inner = ActivationRecord::new();
    inner.insert("x".to_string(), Value::Number(2));
    stack.push(inner);
    assert_eq!(stack.len(), 2);
    assert_eq!(number(stack.peek().unwrap().get(&"x".to_string())), Some(2));
    stack.peek_mut().unwrap().insert("y".to_string(), Value::Number(3));
    assert_eq!(number(stack.peek().unwrap().get(&"y".to_string())), Some(3));
    let top = stack.pop().unwrap();
    assert_eq!(number(top.get(&"x".to_string())), Some(2));
    assert_eq!(stack.len(), 1);
    assert_eq!(number(stack.peek().unwrap().get(&"x".to_string())), Some(1));
    assert!(stack.peek().unwrap().get(&"y".to_string()).is_none());
}

#[test]
fn a_stack_from_a_record_has_one_scope() {
    let mut record = ActivationRecord::new();
    record.insert("k".to_string(), Value::Number(9));
    let stack = CallStack::from_record(record);
    assert_eq!(stack.len(), 1);
    assert_eq!(number(stack.peek().unwrap().get(&"k".to_string())), Some(9));
}

#[test]
fn a_fresh_symbol_table_knows_the_native_types() {
    let table = SymbolTable::new();
    assert_eq!(table.lookup("Number").map(|s| s.name()), Some("Number"));
    assert_eq!(table.lookup("Decimal").map(|s| s.name()), Some("Decimal"));
    assert_eq!(table.lookup("Array").map(|s| s.name()), Some("Array"));
    assert!(table.lookup("Matrix").is_none());
    assert!(table.lookup("number").is_none());
}

#[test]
fn define_adds_and_replaces_symbols() {
    let mut table = SymbolTable::new();
    table.define(Symbol::Native { name: "Matrix" });
    assert_eq!(table.lookup("Matrix").map(|s| s.name()), Some("Matrix"));
    table.define(Symbol::Native { name: "Number" });
    assert_eq!(table.lookup("Number").map(|s| s.name()), Some("Number"));
    assert_eq!(table.lookup("Array").map(|s| s.name()), Some("Array"));
    assert_eq!(Symbol::number().name(), "Number");
    assert_eq!(Symbol::decimal().name(), "Decimal");
    assert_eq!(Symbol::array().name(), "Array");
}

#[test]
fn same_text_compares_bytes() {
    assert!(same_text("", ""));
    assert!(same_text("abc", "abc"));
    assert!(!same_text("abc", "abd"));
    assert!(!same_text("abc", "ab"));
    assert!(!same_text("", "a"));
    assert!(same_text("é", "é"));
}

use silt_lua::error::SiltError;
use silt_lua::table::Table;
use silt_lua::userdata::MetaMethod;
use silt_lua::value::{value_eq, Value};

fn s(x: &str) -> Value {
    Value::String(x.to_string())
}

fn as_int(v: &Value) -> i64 {
    match v {
        Value::Integer(i) => *i,
        other => panic!("expected an integer, got {:?}", other),
    }
}

fn list(values: &[i64]) -> Table {
    let mut t = Table::new(1);
    for v in values {
        t.push(Value::Integer(*v));
    }
    t
}

fn contents(t: &Table) -> Vec<i64> {
    (1..=t.border()).map(|i| as_int(t.getn(i as usize).unwrap())).collect()
}

#[test]
fn set_then_get() {
    let mut t = Table::new(7);
    assert!(t.set(s("a"), Value::Integer(1)).is_none());
    assert_eq!(as_int(t.get(s("a")).unwrap()), 1);
    let old = t.set(s("a"), Value::Integer(2)).unwrap();
    assert_eq!(as_int(&old), 1);
    assert_eq!(as_int(t.getr(&s("a")).unwrap()), 2);
    assert!(t.get(s("b")).is_none());
    assert!(matches!(t.get_value(&s("b")), Value::Nil));
    assert_eq!(t.len(), 1);
    assert!(!t.is_empty());
}

#[test]
fn new_table_is_empty() {
    let t = Table::new(3);
    assert!(t.is_empty());
    assert_eq!(t.len(), 0);
    assert_eq!(t.border(), 0);
    assert!(matches!(t.get_metatable(), Value::Nil));
}

#[test]
fn border_of_a_sequence_is_its_length() {
    let t = list(&[10, 20, 30]);
    assert_eq!(t.border(), 3);
    assert_eq!(contents(&t), vec![10, 20, 30]);
}

#[test]
fn push_then_pop_restores_table() {
    let mut t = list(&[1, 2]);
    t.push(Value::Integer(3));
    assert_eq!(t.border(), 3);
    assert_eq!(as_int(&t.pop()), 3);
    assert_eq!(contents(&t), vec![1, 2]);
    assert_eq!(as_int(&t.pop()), 2);
    assert_eq!(as_int(&t.pop()), 1);
    assert!(matches!(t.pop(), Value::Nil));
}

#[test]
fn insert_shifts_up_and_remove_shifts_down() {
    let mut t = list(&[1, 2, 3]);
    let r = t.insert(Value::Integer(2), Value::Integer(9)).unwrap();
    assert!(matches!(r, Value::Nil));
    assert_eq!(contents(&t), vec![1, 9, 2, 3]);
    assert_eq!(as_int(&t.remove_at(2)), 9);
    assert_eq!(contents(&t), vec![1, 2, 3]);
    assert_eq!(as_int(&t.remove_at(3)), 3);
    assert_eq!(contents(&t), vec![1, 2]);
}

#[test]
fn insert_refuses_non_integer_keys() {
    let mut t = list(&[1]);
    assert!(matches!(t.insert(s("x"), Value::Integer(5)), Err(SiltError::CoerceInt)));
    assert_eq!(contents(&t), vec![1]);
}

#[test]
fn remove_past_the_end_gives_nil() {
    let mut t = list(&[4, 5]);
    assert!(matches!(t.remove_at(7), Value::Nil));
    assert_eq!(contents(&t), vec![4, 5]);
}

#[test]
fn next_entry_walks_in_insertion_order() {
    let mut t = Table::new(1);
    t.set(s("x"), Value::Integer(1));
    t.set(s("y"), Value::Integer(2));
    let (k1, v1) = t.next_entry(&Value::Nil).unwrap();
    assert!(value_eq(&k1, &s("x")));
    assert_eq!(as_int(&v1), 1);
    let (k2, v2) = t.next_entry(&k1).unwrap();
    assert!(value_eq(&k2, &s("y")));
    assert_eq!(as_int(&v2), 2);
    assert!(t.next_entry(&k2).is_none());
    assert!(t.next_entry(&s("missing")).is_none());
}

#[test]
fn concat_array_appends_after_counter() {
    let mut t = Table::new(1);
    t.concat_array(vec![Value::Integer(7), Value::Integer(8)]);
    assert_eq!(contents(&t), vec![7, 8]);
}

#[test]
fn to_array_reads_positions_in_order() {
    let t = list(&[3, 4]);
    let a = t.to_array(3);
    assert_eq!(a.len(), 3);
    assert_eq!(as_int(&a[0]), 3);
    assert_eq!(as_int(&a[1]), 4);
    assert!(matches!(a[2], Value::Nil));
}

#[test]
fn detached_copy_keeps_entries() {
    let mut t = list(&[1, 2]);
    t.set(s("name"), s("box"));
    let mut ex = t.to_exval();
    assert_eq!(ex.len(), 3);
    assert!(!ex.is_empty());
    assert_eq!(as_int(ex.getn(2).unwrap()), 2);
    assert!(matches!(ex.get("name"), Some(Value::String(n)) if n == "box"));
    assert_eq!(as_int(&ex.pop_value(1)), 1);
    assert!(ex.getn(1).is_none());
}

#[test]
fn metamethods_come_from_the_metatable() {
    let mut meta = Table::new(0);
    meta.set(s("__add"), Value::Closure(42));
    meta.set(s("__sub"), Value::Integer(1));
    meta.set(s("__index"), Value::Table(5));
    let mut t = Table::new(1);
    t.set_metatable(Value::Table(0));
    let tables = vec![meta];
    assert!(matches!(t.by_meta_method(&tables, MetaMethod::Add), Ok(Value::Closure(42))));
    assert!(matches!(
        t.by_meta_method(&tables, MetaMethod::Sub),
        Err(SiltError::MetaMethodNotCallable(MetaMethod::Sub))
    ));
    assert!(matches!(
        t.by_meta_method(&tables, MetaMethod::Mul),
        Err(SiltError::MetaMethodMissing(MetaMethod::Mul))
    ));
    assert!(matches!(t.meta_index(&tables), Some(Value::Table(5))));
    let plain = Table::new(2);
    assert!(plain.meta_index(&tables).is_none());
}

#[test]
fn pop_without_first_key_gives_nil_and_keeps_table() {
    let mut t = Table::new(2);
    t.set(Value::Integer(2), Value::Integer(20));
    t.set(s("k"), Value::Integer(1));
    assert_eq!(t.border(), 0);
    assert!(matches!(t.pop(), Value::Nil));
    assert_eq!(t.len(), 2);
    assert_eq!(as_int(t.getn(2).unwrap()), 20);
}

#[test]
fn raw_push_writes_after_the_border() {
    let mut t = list(&[5, 6]);
    t.set(Value::Integer(4), Value::Integer(40));
    // the probe of 1, 2, 4, 8 finds 4 present and 8 absent: the border is 4
    let b = t.border();
    assert_eq!(b, 4);
    assert!(t.raw_push(Value::Integer(7)).is_none());
    assert_eq!(as_int(t.getn(5).unwrap()), 7);
    assert!(t.getn(3).is_none());
    assert_eq!(t.border(), 5);
}

#[test]
fn walk_visits_each_entry_once() {
    let mut t = list(&[1, 2, 3]);
    t.set(s("a"), Value::Integer(9));
    let mut seen = 0;
    let mut k = Value::Nil;
    while let Some((nk, _)) = t.next_entry(&k) {
        seen += 1;
        k = nk;
    }
    assert_eq!(seen, t.len());
}

use silt_lua::code::OpCode;
use silt_lua::error::{SiltError, ValueTypes};
use silt_lua::lua::{binary_op, parse_i64, ArithStep, FloatArg, find_changed_lines, hotswap_plan, lua_shl, lua_shr, to_op_string, FunctionSpan, HotswapResult};
use silt_lua::snippet::{collect_global_names, SnippetConst, SnippetError, SnippetProto};
use silt_lua::standard::{
    next_rand, pad_number, pad_str, random_between, seed_state, string_byte, string_char, string_len,
    string_lower, string_rep, string_reverse, string_sub, string_upper, truthy, DEFAULT_SEED,
};
use silt_lua::standard::{getmetatable, lua_next, setmetatable, table_insert, table_remove};
use silt_lua::table::Table;
use silt_lua::userdata::MetaMethod;
use silt_lua::value::Value;

#[test]
fn truthiness() {
    assert!(!truthy(&Value::Nil));
    assert!(!truthy(&Value::Bool(false)));
    assert!(truthy(&Value::Bool(true)));
    assert!(truthy(&Value::Integer(0)));
    assert!(truthy(&Value::String(String::new())));
}

#[test]
fn sub_follows_lua_indexing() {
    assert_eq!(string_sub("hello", 2, Some(4)), "ell");
    assert_eq!(string_sub("hello", -3, None), "llo");
    assert_eq!(string_sub("hello", 0, None), "hello");
    assert_eq!(string_sub("hello", 4, Some(2)), "");
    assert_eq!(string_sub("hello", 2, Some(100)), "ello");
    assert_eq!(string_sub("hello", -100, Some(2)), "he");
    assert_eq!(string_sub("hello", 6, None), "");
    assert_eq!(string_sub("héllo", 2, Some(2)), "é");
}

#[test]
fn bytes_lengths_and_chars() {
    assert_eq!(string_len("héllo"), 6);
    assert_eq!(string_byte("A", None), Some(65));
    assert_eq!(string_byte("abc", Some(-1)), Some(99));
    assert_eq!(string_byte("abc", Some(4)), None);
    assert_eq!(string_byte("abc", Some(0)), None);
    assert_eq!(string_byte("é", Some(1)), Some(0xC3));
    assert_eq!(string_char(&vec![72, 105]).unwrap(), "Hi");
    assert_eq!(string_char(&vec![233]).unwrap(), "é");
    match string_char(&vec![65, 256]) {
        Err(SiltError::Custom(m)) => assert_eq!(m, "bad argument to 'char' (value out of range)"),
        other => panic!("expected an error, got {:?}", other),
    }
}

#[test]
fn rep_and_reverse() {
    assert_eq!(string_rep("ab", 3), "ababab");
    assert_eq!(string_rep("x", 0), "");
    assert_eq!(string_rep("x", -2), "");
    assert_eq!(string_reverse("abc"), "cba");
    assert_eq!(string_reverse(""), "");
}

#[test]
fn padding() {
    assert_eq!(pad_str("ab", 5, false), "   ab");
    assert_eq!(pad_str("ab", 5, true), "ab   ");
    assert_eq!(pad_str("abcdef", 3, false), "abcdef");
    assert_eq!(pad_str("é", 3, false), " é");
    assert_eq!(pad_number("-", "42", 6, false, true), "-00042");
    assert_eq!(pad_number("-", "42", 6, false, false), "   -42");
    assert_eq!(pad_number("-", "42", 6, true, true), "-42   ");
    assert_eq!(pad_number("0x", "ff", 3, false, true), "0xff");
}

#[test]
fn random_numbers() {
    let mut state = 1u64;
    assert_eq!(next_rand(&mut state), 1082269761);
    assert_eq!(state, 1082269761);
    let mut state = DEFAULT_SEED;
    assert_eq!(next_rand(&mut state), 9181757771948286951);
    assert_eq!(seed_state(0), DEFAULT_SEED);
    assert_eq!(seed_state(5), 5);
    assert_eq!(seed_state(-1), u64::MAX);
    assert_eq!(random_between(7, 3, None).unwrap(), 2);
    assert_eq!(random_between(5, 1, None).unwrap(), 1);
    assert_eq!(random_between(10, 5, Some(7)).unwrap(), 6);
    assert_eq!(random_between(10, -2, Some(-2)).unwrap(), -2);
    match random_between(3, 0, None) {
        Err(SiltError::Custom(m)) => assert_eq!(m, "bad argument #1 to 'random' (interval is empty)"),
        other => panic!("expected an error, got {:?}", other),
    }
    match random_between(3, 3, Some(2)) {
        Err(SiltError::Custom(m)) => assert_eq!(m, "bad argument #2 to 'random' (interval is empty)"),
        other => panic!("expected an error, got {:?}", other),
    }
}

#[test]
fn shifts() {
    assert_eq!(lua_shl(1, 4), 16);
    assert_eq!(lua_shl(1, 64), 0);
    assert_eq!(lua_shl(1, -64), 0);
    assert_eq!(lua_shl(16, -2), 4);
    assert_eq!(lua_shr(-1, 60), 15);
    assert_eq!(lua_shr(1, -3), 8);
    assert_eq!(lua_shl(1, 63), i64::MIN);
    assert_eq!(lua_shr(5, 0), 5);
}

#[test]
fn changed_lines() {
    assert_eq!(find_changed_lines("a\nb\nc", "a\nx\nc\nd"), vec![2, 3, 4]);
    assert_eq!(find_changed_lines("a\nb\nc\n", "a\nx\nc\nd"), vec![2, 4]);
    assert_eq!(find_changed_lines("same\ntext", "same\ntext"), Vec::<usize>::new());
    assert_eq!(find_changed_lines("a\r\nb", "a\nb"), vec![1]);
    assert_eq!(find_changed_lines("a", "a\n"), vec![1]);
    assert_eq!(find_changed_lines("", "x"), vec![1]);
}

fn span(start: usize, end: usize, name: Option<&str>) -> FunctionSpan {
    FunctionSpan { start_line: start, end_line: end, name: name.map(|n| n.to_string()) }
}

#[test]
fn hotswap_decisions() {
    let fs = vec![span(1, 3, Some("f")), span(5, 7, None)];
    assert_eq!(hotswap_plan(&vec![], &fs, &vec![]), HotswapResult::NoChange);
    assert_eq!(
        hotswap_plan(&vec![2], &fs, &vec![]),
        HotswapResult::FunctionChanged(vec!["f".to_string()])
    );
    assert_eq!(
        hotswap_plan(&vec![2, 6], &fs, &vec![9]),
        HotswapResult::FunctionChanged(vec!["f".to_string(), "anonymous".to_string()])
    );
    assert_eq!(hotswap_plan(&vec![4], &fs, &vec![]), HotswapResult::RootChanged);
    assert_eq!(hotswap_plan(&vec![2], &fs, &vec![2]), HotswapResult::RootChanged);
    assert_eq!(hotswap_plan(&vec![2], &vec![], &vec![]), HotswapResult::RootChanged);
}

#[test]
fn op_strings() {
    assert_eq!(to_op_string(Some("add")), Some("add".to_string()));
    assert_eq!(to_op_string(None), None);
}

fn name(s: &str) -> SnippetConst {
    SnippetConst::Value(Value::String(s.to_string()))
}

fn proto(code: Vec<OpCode>, constants: Vec<SnippetConst>) -> SnippetProto {
    SnippetProto {
        code,
        constants,
        arity: 0,
        upvalue_count: 0,
        is_variadic: false,
        varidic_index: 0,
        name: None,
    }
}

#[test]
fn global_names_of_a_prototype_tree() {
    let inner = proto(vec![OpCode::DEFINE_GLOBAL { constant: 0 }, OpCode::GET_GLOBAL { constant: 1 }], vec![
        name("y"),
        name("print"),
    ]);
    let outer = proto(
        vec![
            OpCode::GET_GLOBAL { constant: 0 },
            OpCode::SET_GLOBAL { constant: 1 },
            OpCode::GET_GLOBAL { constant: 0 },
            OpCode::CLOSURE { constant: 2 },
            OpCode::GET_GLOBAL { constant: 3 },
            OpCode::GET_GLOBAL { constant: 9 },
        ],
        vec![name("print"), name("x"), SnippetConst::Proto(inner), SnippetConst::Value(Value::Integer(1))],
    );
    let mut out = Vec::new();
    collect_global_names(&outer, &mut out);
    assert_eq!(out, vec!["print".to_string(), "x".to_string(), "y".to_string()]);
    let mut seeded = vec!["x".to_string()];
    collect_global_names(&outer, &mut seeded);
    assert_eq!(seeded, vec!["x".to_string(), "print".to_string(), "y".to_string()]);
}

#[test]
fn snippet_error_messages() {
    assert_eq!(SnippetError::NotAFunction.to_string(), "value is not a function");
    assert_eq!(
        SnippetError::EscapingReference(2).to_string(),
        "captured upvalue #2 is a reference and cannot be cloned into a snippet"
    );
    assert_eq!(
        SnippetError::UpvaluesNotYetSupported.to_string(),
        "snippet captures upvalues (not supported yet)"
    );
}

#[test]
fn sub_pieces_join_back() {
    let s = "lua!";
    for k in 0..=4i64 {
        let left = string_sub(s, 1, Some(k));
        let right = string_sub(s, k + 1, None);
        assert_eq!(format!("{}{}", left, right), s);
    }
}

#[test]
fn rep_length_and_double_reverse() {
    assert_eq!(string_rep("abc", 4).chars().count(), 12);
    assert_eq!(string_reverse(&string_reverse("héllo")), "héllo");
}

#[test]
fn generator_never_reaches_zero() {
    let mut state = seed_state(1);
    for _ in 0..1000 {
        assert_ne!(next_rand(&mut state), 0);
    }
    assert_ne!(seed_state(0), 0);
}

#[test]
fn random_draws_stay_in_their_interval() {
    let mut state = DEFAULT_SEED;
    for _ in 0..200 {
        let r = next_rand(&mut state);
        let a = random_between(r, 6, None).unwrap();
        assert!((1..=6).contains(&a));
        let b = random_between(r, -3, Some(3)).unwrap();
        assert!((-3..=3).contains(&b));
    }
}

#[test]
fn shifting_by_a_negative_count_mirrors() {
    for b in [-70i64, -63, -5, -1, 0, 1, 5, 63, 70] {
        assert_eq!(lua_shl(0x1234_5678, b), lua_shr(0x1234_5678, -b));
        assert_eq!(lua_shr(-77, b), lua_shl(-77, -b));
    }
}

#[test]
fn unchanged_source_needs_no_swap() {
    let src = "function f()\n  return 1\nend";
    let changed = find_changed_lines(src, src);
    assert!(changed.is_empty());
    assert_eq!(hotswap_plan(&changed, &vec![span(1, 3, Some("f"))], &vec![]), HotswapResult::NoChange);
}

fn int_of(v: &Value) -> i64 {
    match v {
        Value::Integer(i) => *i,
        other => panic!("expected an integer, got {:?}", other),
    }
}

fn heap() -> Vec<Table> {
    let mut t = Table::new(0);
    t.push(Value::Integer(10));
    t.push(Value::Integer(20));
    vec![t, Table::new(1)]
}

#[test]
fn table_insert_native() {
    let mut tables = heap();
    let t = Value::Table(0);
    assert!(matches!(table_insert(&mut tables, &t, Value::Integer(30), None), Ok(Value::Nil)));
    assert_eq!(tables[0].border(), 3);
    assert_eq!(int_of(tables[0].getn(3).unwrap()), 30);
    assert!(matches!(table_insert(&mut tables, &t, Value::Integer(1), Some(Value::Integer(5))), Ok(Value::Nil)));
    assert_eq!(int_of(tables[0].getn(1).unwrap()), 5);
    assert_eq!(int_of(tables[0].getn(2).unwrap()), 10);
    assert_eq!(tables[0].border(), 4);
    assert!(matches!(
        table_insert(&mut tables, &Value::Integer(3), Value::Nil, None),
        Err(SiltError::VmNonTableOperations(silt_lua::error::ValueTypes::Integer))
    ));
    assert!(tables[1].is_empty());
}

#[test]
fn table_remove_native_inserts_the_table_itself() {
    let mut tables = heap();
    let t = Value::Table(0);
    assert!(matches!(table_remove(&mut tables, &t, None), Ok(Value::Nil)));
    assert!(matches!(tables[0].getn(3), Some(Value::Table(0))));
    assert!(matches!(table_remove(&mut tables, &t, Some(Value::String("k".to_string()))), Err(SiltError::CoerceInt)));
}

#[test]
fn metatable_natives() {
    let mut tables = heap();
    let r = setmetatable(&mut tables, &vec![Value::Table(0), Value::Table(1)]);
    assert!(matches!(r, Value::Table(0)));
    assert!(matches!(getmetatable(&tables, &vec![Value::Table(0)]), Value::Table(1)));
    assert!(matches!(getmetatable(&tables, &vec![Value::Table(1)]), Value::Nil));
    assert!(matches!(getmetatable(&tables, &vec![Value::Integer(1)]), Value::Nil));
    let r = setmetatable(&mut tables, &vec![Value::Integer(4), Value::Table(1)]);
    assert!(matches!(r, Value::Integer(4)));
}

#[test]
fn next_native_walks_the_entries() {
    let tables = heap();
    let first = lua_next(&tables, &vec![Value::Table(0)]).unwrap();
    assert_eq!(first.len(), 2);
    assert_eq!((int_of(&first[0]), int_of(&first[1])), (1, 10));
    let second = lua_next(&tables, &vec![Value::Table(0), Value::Integer(1)]).unwrap();
    assert_eq!((int_of(&second[0]), int_of(&second[1])), (2, 20));
    let end = lua_next(&tables, &vec![Value::Table(0), Value::Integer(2)]).unwrap();
    assert_eq!(end.len(), 1);
    assert!(matches!(end[0], Value::Nil));
    let empty = lua_next(&tables, &vec![Value::Table(1)]).unwrap();
    assert!(matches!(empty[..], [Value::Nil]));
    match lua_next(&tables, &vec![Value::Nil]) {
        Err(SiltError::Custom(m)) => assert_eq!(m, "bad argument #1 to 'next' (table expected)"),
        other => panic!("expected an error, got {:?}", other),
    }
}

#[test]
fn case_mapping() {
    assert_eq!(string_upper("abc Déjà"), "ABC DÉJÀ");
    assert_eq!(string_lower("ABC Déjà"), "abc déjà");
    assert_eq!(string_upper(""), "");
}

#[test]
fn integers_parse_like_std() {
    assert_eq!(parse_i64("42"), Some(42));
    assert_eq!(parse_i64("-7"), Some(-7));
    assert_eq!(parse_i64("+3"), Some(3));
    assert_eq!(parse_i64("007"), Some(7));
    assert_eq!(parse_i64(""), None);
    assert_eq!(parse_i64("-"), None);
    assert_eq!(parse_i64("1a"), None);
    assert_eq!(parse_i64(" 1"), None);
    assert_eq!(parse_i64("9223372036854775807"), Some(i64::MAX));
    assert_eq!(parse_i64("9223372036854775808"), None);
    assert_eq!(parse_i64("-9223372036854775808"), Some(i64::MIN));
    for s in ["0", "12", "-12", "+0", "x", "1.5", "99999999999999999999"] {
        assert_eq!(parse_i64(s), s.parse::<i64>().ok());
    }
}

#[test]
fn arithmetic_on_values() {
    assert!(matches!(binary_op(MetaMethod::Add, Value::Integer(2), Value::Integer(3)), ArithStep::Done(Value::Integer(5))));
    assert!(matches!(
        binary_op(MetaMethod::Sub, Value::String("10".to_string()), Value::Integer(4)),
        ArithStep::Done(Value::Integer(6))
    ));
    assert!(matches!(
        binary_op(MetaMethod::Mul, Value::String("3".to_string()), Value::String("-2".to_string())),
        ArithStep::Done(Value::Integer(-6))
    ));
    match binary_op(MetaMethod::Mul, Value::String("2".to_string()), Value::String("x".to_string())) {
        ArithStep::Float(FloatArg::Int(2), FloatArg::Text(t), e) => {
            assert_eq!(t, "x");
            assert_eq!(e, SiltError::ExpOpValueWithValue(ValueTypes::String, MetaMethod::Mul, ValueTypes::String));
        }
        other => panic!("unexpected {:?}", other),
    }
    assert!(matches!(
        binary_op(MetaMethod::Add, Value::Number(0), Value::Integer(1)),
        ArithStep::Float(FloatArg::Float(0), FloatArg::Int(1), _)
    ));
    match binary_op(MetaMethod::Add, Value::Nil, Value::Integer(1)) {
        ArithStep::Failed(e) => {
            assert_eq!(e, SiltError::ExpOpValueWithValue(ValueTypes::Nil, MetaMethod::Add, ValueTypes::Integer))
        }
        other => panic!("unexpected {:?}", other),
    }
    assert!(matches!(binary_op(MetaMethod::Add, Value::Table(3), Value::Integer(1)), ArithStep::TableMeta(3, Value::Integer(1))));
}

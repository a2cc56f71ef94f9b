use silt_lua::chunk::Chunk;
use silt_lua::code::OpCode;
use silt_lua::environment::{Environment, NATIVE_CLOCK, NATIVE_PRINT};
use silt_lua::error::{SiltError, ValueTypes};
use silt_lua::function::{UpLocation, UpValue};
use silt_lua::lua::{ArithStep, FloatArg, Machine, RunEnd, StepOutcome, Vm};
use silt_lua::types::{assignable, Type};
use silt_lua::userdata::{MetaMethod, UserData, UserDataWrapper, WeakWrapper};
use silt_lua::value::Value;

fn as_int(v: &Value) -> i64 {
    match v {
        Value::Integer(i) => *i,
        other => panic!("expected an integer, got {:?}", other),
    }
}

#[test]
fn chunk_records_code_locations_and_constants() {
    let mut c = Chunk::new();
    assert!(c.is_valid());
    c.write_value(Value::Integer(12), (1, 1));
    c.write_value(Value::Integer(34), (1, 2));
    let at = c.write_code(OpCode::ADD, (1, 3));
    assert_eq!(at, 2);
    assert_eq!(c.code, vec![OpCode::CONSTANT { constant: 0 }, OpCode::CONSTANT { constant: 1 }, OpCode::ADD]);
    assert_eq!(*c.read_last_code(), OpCode::ADD);
    assert_eq!(as_int(c.get_constant(1)), 34);
    assert_eq!(as_int(&c.copy_constant(0)), 12);
    c.invalidate();
    assert!(!c.is_valid());
    c.free();
    assert!(c.code.is_empty());
    assert!(!Chunk::default().is_valid());
}

#[test]
fn identifiers_are_written_once() {
    let mut c = Chunk::new();
    c.write_constant(Value::Integer(1));
    let a = c.write_identifier("x".to_string());
    let b = c.write_identifier("y".to_string());
    let again = c.write_identifier("x".to_string());
    assert_eq!((a, b, again), (1, 2, 1));
    assert!(matches!(c.get_constant(2), Value::String(s) if s == "y"));
}

#[test]
fn environment_registers_names_in_order() {
    let mut env = Environment::new();
    assert_eq!(env.to_register("a"), 0);
    assert_eq!(env.to_register("b"), 1);
    assert_eq!(env.to_register("a"), 0);
    assert_eq!(env.from_register(1), "b");
    assert_eq!(env.from_register(7), "unknown");
    assert!(!env.is_strict());
}

#[test]
fn environment_with_std_has_natives() {
    let env = Environment::new_with_std();
    assert_eq!(env.from_register(0), "clock");
    assert_eq!(env.from_register(1), "print");
    assert!(matches!(env.get(&(0, 0)), Value::NativeFunction(n) if n == NATIVE_CLOCK));
    assert!(matches!(env.get(&(1, 0)), Value::NativeFunction(n) if n == NATIVE_PRINT));
    assert!(matches!(env.get(&(2, 0)), Value::Nil));
}

#[test]
fn scopes_nest_and_are_shared() {
    let mut env = Environment::new();
    env.declare_global((0, 0), Value::Integer(1));
    env.declare_local((1, 0), Value::Integer(8));
    assert_eq!(as_int(&env.get(&(1, 0))), 8);
    env.new_scope();
    env.set_in_scope(0, Value::Integer(2));
    assert_eq!(as_int(&env.get(&(0, 1))), 2);
    assert_eq!(as_int(&env.get(&(0, 0))), 1);
    let captured = env.get_current_scope();
    assert_eq!(captured.len(), 2);
    env.pop_scope();
    assert_eq!(as_int(&env.get(&(0, 0))), 1);
    let saved = env.swap_scope(&captured);
    assert_eq!(saved.len(), 1);
    env.assign_local((0, 1), Value::Integer(3));
    env.replace_scope(saved);
    // the captured inner scope kept the write
    let back = env.swap_scope(&captured);
    assert_eq!(as_int(&env.get(&(0, 1))), 3);
    env.replace_scope(back);
    env.resolve_local(0, 0);
    assert_eq!(as_int(&env.get(&(0, 0))), 1);
}

#[test]
fn upvalue_reads_and_writes_its_slot_until_closed() {
    let mut stack = vec![Value::Nil, Value::Integer(5)];
    let mut up = UpValue::new(0, 1);
    assert_eq!(up.get_location(), UpLocation::Stack(1));
    assert_eq!(as_int(&up.copy_value(&stack)), 5);
    up.set_value(&mut stack, Value::Integer(9));
    assert_eq!(as_int(&stack[1]), 9);
    up.close(&mut stack);
    assert_eq!(up.get_location(), UpLocation::Closed);
    assert!(matches!(stack[1], Value::Nil));
    assert_eq!(as_int(&up.copy_value(&stack)), 9);
    up.set_value(&mut stack, Value::Integer(11));
    assert!(matches!(stack[1], Value::Nil));
    assert_eq!(as_int(&up.copy_value(&stack)), 11);
    let mut other = UpValue::new(2, 0);
    other.close_around(Value::Bool(true));
    assert!(matches!(other.copy_value(&stack), Value::Bool(true)));
    assert_eq!(other.index, 2);
}

struct Ent;

impl UserData for Ent {
    fn type_label() -> &'static str {
        "ent"
    }

    fn get_id(&self) -> usize {
        7
    }
}

#[test]
fn userdata_handles() {
    let mut w = UserDataWrapper::new(Ent);
    assert_eq!(w.id(), 7);
    assert_eq!(w.type_label(), "ent");
    assert_eq!(w.stack_index(), None);
    w.set_stack_index(3);
    assert_eq!(w.stack_index(), Some(3));
    assert_eq!(w.to_string(), "ent userdata (id: 7)");
    let weak = WeakWrapper::from_wrapper(&w);
    assert_eq!(weak.id(), 7);
    assert_eq!(weak.type_label(), "ent");
    assert_eq!(weak.to_string(), "ent weak userdata (id: 7)");
    assert!(!weak.is_dropped());
    let strong = weak.upgrade().unwrap();
    assert_eq!(strong.stack_index(), Some(3));
    let copy = w.clone();
    drop(strong);
    drop(w);
    assert!(!weak.is_dropped());
    drop(copy);
    assert!(weak.is_dropped());
    assert!(weak.upgrade().is_none());
}

#[test]
fn type_names_and_assignability() {
    assert!(matches!(Type::from_name("bool"), Type::Boolean));
    assert!(matches!(Type::from_name("number"), Type::Number));
    assert!(matches!(Type::from_name("Point"), Type::Named(n) if n == "Point"));
    assert!(assignable(&Type::Number, &Type::Number));
    assert!(!assignable(&Type::Number, &Type::String));
    assert!(assignable(&Type::Any, &Type::String));
    assert!(assignable(&Type::Named("T".to_string()), &Type::Nil));
    assert!(assignable(&Type::Optional(Box::new(Type::Number)), &Type::Nil));
    assert!(assignable(&Type::Optional(Box::new(Type::Number)), &Type::Number));
    assert!(!assignable(&Type::Optional(Box::new(Type::Number)), &Type::Table));
    assert!(assignable(&Type::String, &Type::Optional(Box::new(Type::String))));
    assert!(matches!(Type::default(), Type::Any));
}

#[test]
fn error_value_type_tags() {
    assert_eq!(Value::Closure(1).to_error(), silt_lua::error::ValueTypes::Closure);
    assert_eq!(Value::Nil.to_error(), silt_lua::error::ValueTypes::Nil);
    assert!(matches!(SiltError::CoerceInt, SiltError::CoerceInt));
}

#[test]
fn identifier_token_name() {
    let t = silt_lua::token::Token::Identifier("name".to_string());
    assert_eq!(t.unwrap_identifier(), "name");
}

fn run_to_end(vm: &mut Vm, c: &Chunk) -> StepOutcome {
    loop {
        match vm.step(c) {
            StepOutcome::Next => {}
            other => return other,
        }
    }
}

#[test]
fn machine_adds_and_stores_a_global() {
    let mut c = Chunk::new();
    let a = c.write_constant(Value::Integer(2)) as u8;
    let b = c.write_constant(Value::Integer(3)) as u8;
    let x = c.write_constant(Value::String("x".to_string())) as u8;
    for op in [
        OpCode::CONSTANT { constant: a },
        OpCode::CONSTANT { constant: b },
        OpCode::ADD,
        OpCode::DEFINE_GLOBAL { constant: x },
        OpCode::GET_GLOBAL { constant: x },
        OpCode::NEGATE,
        OpCode::RETURN,
    ] {
        c.write_code(op, (1, 1));
    }
    let mut vm = Vm::new(Value::Nil);
    match run_to_end(&mut vm, &c) {
        StepOutcome::Return(v) => assert_eq!(as_int(&v), -5),
        other => panic!("unexpected {:?}", other),
    }
    assert_eq!(as_int(&vm.global("x")), 5);
    assert!(matches!(vm.step(&c), StepOutcome::End));
}

#[test]
fn machine_jumps_and_hands_floats_to_the_host() {
    let mut c = Chunk::new();
    let one = c.write_constant(Value::Integer(1)) as u8;
    let f = c.write_constant(Value::Number(0)) as u8;
    for op in [
        OpCode::FALSE,
        OpCode::POP_AND_GOTO_IF_FALSE(1),
        OpCode::NIL,
        OpCode::CONSTANT { constant: f },
        OpCode::CONSTANT { constant: one },
        OpCode::ADD,
    ] {
        c.write_code(op, (1, 1));
    }
    let mut vm = Vm::new(Value::Nil);
    match run_to_end(&mut vm, &c) {
        StepOutcome::Arith(_, ArithStep::Float(_, _, _)) => {}
        other => panic!("unexpected {:?}", other),
    }
    assert!(matches!(vm.step(&c), StepOutcome::End));
    // a call is left to the host
    let mut d = Chunk::new();
    d.write_code(OpCode::CALL(0), (1, 1));
    let mut vm2 = Vm::new(Value::Nil);
    assert!(matches!(vm2.step(&d), StepOutcome::Host(OpCode::CALL(0))));
}

fn chunk_of(consts: Vec<Value>, ops: Vec<OpCode>) -> Chunk {
    let mut c = Chunk::new();
    for v in consts {
        c.write_constant(v);
    }
    for op in ops {
        c.write_code(op, (1, 1));
    }
    c
}

fn run_chunk(c: &Chunk) -> (Vm, StepOutcome) {
    let mut vm = Vm::new(Value::Nil);
    let out = run_to_end(&mut vm, c);
    (vm, out)
}

fn returned(c: &Chunk) -> Value {
    match run_chunk(c).1 {
        StepOutcome::Return(v) => v,
        other => panic!("unexpected {:?}", other),
    }
}

#[test]
fn machine_compares_integers_and_texts() {
    let k = |op: OpCode, a: Value, b: Value| {
        returned(&chunk_of(vec![a, b], vec![
            OpCode::CONSTANT { constant: 0 },
            OpCode::CONSTANT { constant: 1 },
            op,
            OpCode::RETURN,
        ]))
    };
    let s = |t: &str| Value::String(t.to_string());
    assert!(matches!(k(OpCode::LESS, Value::Integer(2), Value::Integer(3)), Value::Bool(true)));
    assert!(matches!(k(OpCode::GREATER, Value::Integer(2), Value::Integer(3)), Value::Bool(false)));
    assert!(matches!(k(OpCode::LESS_EQUAL, Value::Integer(3), Value::Integer(3)), Value::Bool(true)));
    assert!(matches!(k(OpCode::GREATER_EQUAL, Value::Integer(-1), Value::Integer(3)), Value::Bool(false)));
    assert!(matches!(k(OpCode::EQUAL, s("abc"), s("abc")), Value::Bool(true)));
    assert!(matches!(k(OpCode::NOT_EQUAL, s("abc"), s("abd")), Value::Bool(true)));
    assert!(matches!(k(OpCode::LESS, s("abc"), s("abd")), Value::Bool(true)));
    assert!(matches!(k(OpCode::LESS, s("ab"), s("abc")), Value::Bool(true)));
    assert!(matches!(k(OpCode::GREATER, s("b"), s("abc")), Value::Bool(true)));
    assert!(matches!(k(OpCode::EQUAL, Value::Integer(1), s("1")), Value::Bool(false)));
    assert!(matches!(k(OpCode::EQUAL, Value::Nil, Value::Nil), Value::Bool(true)));
}

#[test]
fn machine_refuses_to_order_mixed_values() {
    let c = chunk_of(vec![Value::Integer(1), Value::String("1".to_string())], vec![
        OpCode::CONSTANT { constant: 0 },
        OpCode::CONSTANT { constant: 1 },
        OpCode::LESS,
    ]);
    match run_chunk(&c).1 {
        StepOutcome::Failed(e) => assert_eq!(
            e,
            SiltError::ExpOpValueWithValue(ValueTypes::Integer, MetaMethod::Lt, ValueTypes::String)
        ),
        other => panic!("unexpected {:?}", other),
    }
}

#[test]
fn machine_hands_float_comparisons_to_the_host() {
    let c = chunk_of(vec![Value::Number(0), Value::Integer(4)], vec![
        OpCode::CONSTANT { constant: 0 },
        OpCode::CONSTANT { constant: 1 },
        OpCode::LESS,
    ]);
    match run_chunk(&c).1 {
        StepOutcome::Compare(OpCode::LESS, FloatArg::Float(0), FloatArg::Int(4)) => {}
        other => panic!("unexpected {:?}", other),
    }
}

#[test]
fn machine_concatenates_texts_and_measures_length() {
    let c = chunk_of(vec![Value::String("ab".to_string()), Value::String("cé".to_string())], vec![
        OpCode::CONSTANT { constant: 0 },
        OpCode::CONSTANT { constant: 1 },
        OpCode::CONCAT,
        OpCode::RETURN,
    ]);
    assert!(matches!(returned(&c), Value::String(t) if t == "abcé"));
    let d = chunk_of(vec![Value::String("ab".to_string()), Value::String("cé".to_string())], vec![
        OpCode::CONSTANT { constant: 0 },
        OpCode::CONSTANT { constant: 1 },
        OpCode::CONCAT,
        OpCode::LENGTH,
        OpCode::RETURN,
    ]);
    assert_eq!(as_int(&returned(&d)), 5);
    let e = chunk_of(vec![Value::Integer(1), Value::String("x".to_string())], vec![
        OpCode::CONSTANT { constant: 0 },
        OpCode::CONSTANT { constant: 1 },
        OpCode::CONCAT,
    ]);
    match run_chunk(&e).1 {
        StepOutcome::Concat(Value::Integer(1), Value::String(t)) => assert_eq!(t, "x"),
        other => panic!("unexpected {:?}", other),
    }
    let f = chunk_of(vec![], vec![OpCode::TRUE, OpCode::LENGTH]);
    match run_chunk(&f).1 {
        StepOutcome::Failed(e) => assert_eq!(e, SiltError::ExpInvalidLength(ValueTypes::Bool)),
        other => panic!("unexpected {:?}", other),
    }
}

#[test]
fn machine_builds_reads_and_writes_tables() {
    // t = {10, 20}; t.x = 7; return t[2] + #t; then read t.x, which leaves t below it
    let c = chunk_of(
        vec![Value::Integer(10), Value::Integer(20), Value::Integer(2), Value::String("x".to_string()), Value::Integer(7)],
        vec![
            OpCode::NEW_TABLE,
            OpCode::CONSTANT { constant: 0 },
            OpCode::CONSTANT { constant: 1 },
            OpCode::TABLE_BUILD(2),
            OpCode::GET_LOCAL { index: 1 },
            OpCode::CONSTANT { constant: 3 },
            OpCode::CONSTANT { constant: 4 },
            OpCode::TABLE_SET { depth: 1 },
            OpCode::GET_LOCAL { index: 1 },
            OpCode::CONSTANT { constant: 2 },
            OpCode::TABLE_GET { depth: 1 },
            OpCode::GET_LOCAL { index: 1 },
            OpCode::LENGTH,
            OpCode::ADD,
            OpCode::RETURN,
            OpCode::GET_LOCAL { index: 1 },
            OpCode::TABLE_GET_BY_CONSTANT { constant: 3 },
            OpCode::RETURN,
        ],
    );
    let mut vm = Vm::new(Value::Nil);
    match run_to_end(&mut vm, &c) {
        StepOutcome::Return(v) => assert_eq!(as_int(&v), 20 + 3),
        other => panic!("unexpected {:?}", other),
    }
    match run_to_end(&mut vm, &c) {
        StepOutcome::Return(v) => assert_eq!(as_int(&v), 7),
        other => panic!("unexpected {:?}", other),
    }
    let t = vm.table(0).unwrap();
    assert_eq!(t.len(), 3);
    assert_eq!(as_int(&t.get_value(&Value::Integer(1))), 10);
    assert!(vm.table(1).is_none());
}

#[test]
fn machine_follows_nested_table_keys() {
    // t = {}; t.inner = {}; t.inner.v = 5; return t.inner.v
    let inner = Value::String("inner".to_string());
    let v = Value::String("v".to_string());
    let c = chunk_of(vec![inner, v, Value::Integer(5)], vec![
        OpCode::NEW_TABLE,
        OpCode::CONSTANT { constant: 0 },
        OpCode::NEW_TABLE,
        OpCode::TABLE_INSERT { offset: 0 },
        OpCode::GET_LOCAL { index: 1 },
        OpCode::CONSTANT { constant: 0 },
        OpCode::CONSTANT { constant: 1 },
        OpCode::CONSTANT { constant: 2 },
        OpCode::TABLE_SET { depth: 2 },
        OpCode::GET_LOCAL { index: 1 },
        OpCode::CONSTANT { constant: 0 },
        OpCode::CONSTANT { constant: 1 },
        OpCode::TABLE_GET { depth: 2 },
        OpCode::RETURN,
    ]);
    let (vm, out) = run_chunk(&c);
    match out {
        StepOutcome::Return(x) => assert_eq!(as_int(&x), 5),
        other => panic!("unexpected {:?}", other),
    }
    assert_eq!(vm.table(1).unwrap().len(), 1);
}

#[test]
fn machine_table_errors() {
    let c = chunk_of(vec![Value::Integer(3)], vec![
        OpCode::CONSTANT { constant: 0 },
        OpCode::CONSTANT { constant: 0 },
        OpCode::TABLE_GET { depth: 1 },
    ]);
    match run_chunk(&c).1 {
        StepOutcome::Failed(e) => assert_eq!(e, SiltError::VmNonTableOperations(ValueTypes::Integer)),
        other => panic!("unexpected {:?}", other),
    }
    let d = chunk_of(vec![Value::Integer(3)], vec![
        OpCode::NEW_TABLE,
        OpCode::CONSTANT { constant: 0 },
        OpCode::CONSTANT { constant: 0 },
        OpCode::TABLE_GET { depth: 2 },
    ]);
    match run_chunk(&d).1 {
        StepOutcome::Failed(e) => assert_eq!(e, SiltError::VmNonTableOperations(ValueTypes::Nil)),
        other => panic!("unexpected {:?}", other),
    }
    let z = chunk_of(vec![], vec![OpCode::NEW_TABLE, OpCode::TABLE_GET { depth: 0 }]);
    match run_chunk(&z).1 {
        StepOutcome::Failed(e) => assert_eq!(e, SiltError::VmRuntimeError),
        other => panic!("unexpected {:?}", other),
    }
}

#[test]
fn machine_counts_a_numeric_loop() {
    // for i = 1, 3 do sum = sum + i end, with the loop written out by hand:
    // slot 1 sum, slots 2..4 iterator, limit, step
    let c = chunk_of(vec![Value::Integer(0), Value::Integer(1), Value::Integer(3)], vec![
        OpCode::CONSTANT { constant: 0 },
        OpCode::CONSTANT { constant: 1 },
        OpCode::CONSTANT { constant: 2 },
        OpCode::CONSTANT { constant: 1 },
        OpCode::FOR_NUMERIC(8),
        OpCode::GET_LOCAL { index: 1 },
        OpCode::GET_LOCAL { index: 5 },
        OpCode::ADD,
        OpCode::SET_LOCAL { index: 1 },
        OpCode::POP,
        OpCode::POP,
        OpCode::INCREMENT { index: 2 },
        OpCode::REWIND(9),
        OpCode::GET_LOCAL { index: 1 },
        OpCode::RETURN,
    ]);
    assert_eq!(as_int(&returned(&c)), 6);
    let down = chunk_of(vec![Value::Integer(3), Value::Integer(1), Value::Integer(-1)], vec![
        OpCode::CONSTANT { constant: 0 },
        OpCode::CONSTANT { constant: 1 },
        OpCode::CONSTANT { constant: 2 },
        OpCode::FOR_NUMERIC(1),
        OpCode::RETURN,
    ]);
    assert_eq!(as_int(&returned(&down)), 3);
    let float_step = chunk_of(vec![Value::Integer(3), Value::Integer(1), Value::Number(0)], vec![
        OpCode::CONSTANT { constant: 0 },
        OpCode::CONSTANT { constant: 1 },
        OpCode::CONSTANT { constant: 2 },
        OpCode::FOR_NUMERIC(1),
    ]);
    assert!(matches!(run_chunk(&float_step).1, StepOutcome::Host(OpCode::FOR_NUMERIC(1))));
    let float_count = chunk_of(vec![Value::Number(0), Value::Integer(1)], vec![
        OpCode::CONSTANT { constant: 0 },
        OpCode::CONSTANT { constant: 1 },
        OpCode::INCREMENT { index: 1 },
    ]);
    assert!(matches!(run_chunk(&float_count).1, StepOutcome::Host(OpCode::INCREMENT { index: 1 })));
}

#[test]
fn machine_hands_division_to_the_host() {
    let c = chunk_of(vec![Value::Integer(7), Value::Integer(2)], vec![
        OpCode::CONSTANT { constant: 0 },
        OpCode::LITERAL { dest: 0, literal: 0 },
        OpCode::CONSTANT { constant: 1 },
        OpCode::DIVIDE,
    ]);
    match run_chunk(&c).1 {
        StepOutcome::Arith(MetaMethod::Div, ArithStep::Float(FloatArg::Int(7), FloatArg::Int(2), _)) => {}
        other => panic!("unexpected {:?}", other),
    }
    let d = chunk_of(vec![Value::Integer(2)], vec![
        OpCode::TRUE,
        OpCode::CONSTANT { constant: 0 },
        OpCode::DIVIDE,
    ]);
    match run_chunk(&d).1 {
        StepOutcome::Failed(e) => assert_eq!(
            e,
            SiltError::ExpOpValueWithValue(ValueTypes::Bool, MetaMethod::Div, ValueTypes::Integer)
        ),
        other => panic!("unexpected {:?}", other),
    }
    let t = chunk_of(vec![Value::Integer(2)], vec![
        OpCode::NEW_TABLE,
        OpCode::CONSTANT { constant: 0 },
        OpCode::DIVIDE,
    ]);
    match run_chunk(&t).1 {
        StepOutcome::Arith(MetaMethod::Div, ArithStep::TableMeta(0, Value::Integer(2))) => {}
        other => panic!("unexpected {:?}", other),
    }
}

fn run_machine(m: &mut Machine) -> StepOutcome {
    loop {
        match m.step() {
            StepOutcome::Next => {}
            other => return other,
        }
    }
}

#[test]
fn machine_calls_a_closure_and_resumes_the_caller() {
    // local function add(a, b) return a + b end; return add(2, 3)
    let add = chunk_of(vec![], vec![
        OpCode::GET_LOCAL { index: 1 },
        OpCode::GET_LOCAL { index: 2 },
        OpCode::ADD,
        OpCode::RETURN,
    ]);
    let main = chunk_of(vec![Value::Function(1), Value::Integer(2), Value::Integer(3)], vec![
        OpCode::CLOSURE { constant: 0 },
        OpCode::CONSTANT { constant: 1 },
        OpCode::CONSTANT { constant: 2 },
        OpCode::CALL(2),
        OpCode::RETURN,
    ]);
    let mut m = Machine::new(main);
    assert_eq!(m.add_function(add), 1);
    match run_machine(&mut m) {
        StepOutcome::Return(v) => assert_eq!(as_int(&v), 5),
        other => panic!("unexpected {:?}", other),
    }
}

#[test]
fn machine_nests_calls_through_a_global() {
    // add = function(a, b) return a + b end
    // local function twice(x) return add(x, x) end; return twice(4) * 10
    let add = chunk_of(vec![], vec![
        OpCode::GET_LOCAL { index: 1 },
        OpCode::GET_LOCAL { index: 2 },
        OpCode::ADD,
        OpCode::RETURN,
    ]);
    let twice = chunk_of(vec![Value::String("add".to_string())], vec![
        OpCode::GET_GLOBAL { constant: 0 },
        OpCode::GET_LOCAL { index: 1 },
        OpCode::GET_LOCAL { index: 1 },
        OpCode::CALL(2),
        OpCode::RETURN,
    ]);
    let main = chunk_of(
        vec![Value::Function(1), Value::String("add".to_string()), Value::Function(2), Value::Integer(4), Value::Integer(10)],
        vec![
            OpCode::CLOSURE { constant: 0 },
            OpCode::DEFINE_GLOBAL { constant: 1 },
            OpCode::CLOSURE { constant: 2 },
            OpCode::CONSTANT { constant: 3 },
            OpCode::CALL(1),
            OpCode::CONSTANT { constant: 4 },
            OpCode::MULTIPLY,
            OpCode::RETURN,
        ],
    );
    let mut m = Machine::new(main);
    assert_eq!(m.add_function(add), 1);
    assert_eq!(m.add_function(twice), 2);
    match run_machine(&mut m) {
        StepOutcome::Return(v) => assert_eq!(as_int(&v), 80),
        other => panic!("unexpected {:?}", other),
    }
    assert!(matches!(m.vm().global("add"), Value::Closure(0)));
}

#[test]
fn machine_leaves_native_calls_to_the_host() {
    let native = chunk_of(vec![], vec![OpCode::NIL, OpCode::CALL(0)]);
    let mut n = Machine::new(native);
    assert!(matches!(run_machine(&mut n), StepOutcome::Host(OpCode::CALL(0))));
}

#[test]
fn machine_counter_keeps_its_captured_local() {
    // local function make() local n = 0; return function() n = n + 1; return n end end
    // local c = make(); c(); return c()
    let inner = chunk_of(vec![Value::Integer(1)], vec![
        OpCode::GET_UPVALUE { index: 0 },
        OpCode::CONSTANT { constant: 0 },
        OpCode::ADD,
        OpCode::SET_UPVALUE { index: 0 },
        OpCode::POP,
        OpCode::GET_UPVALUE { index: 0 },
        OpCode::RETURN,
    ]);
    let make = chunk_of(vec![Value::Integer(0), Value::Function(2)], vec![
        OpCode::CONSTANT { constant: 0 },
        OpCode::CLOSURE { constant: 1 },
        OpCode::REGISTER_UPVALUE { index: 1, neighboring: true },
        OpCode::RETURN,
    ]);
    let main = chunk_of(vec![Value::Function(1)], vec![
        OpCode::CLOSURE { constant: 0 },
        OpCode::CALL(0),
        OpCode::GET_LOCAL { index: 1 },
        OpCode::CALL(0),
        OpCode::POP,
        OpCode::GET_LOCAL { index: 1 },
        OpCode::CALL(0),
        OpCode::RETURN,
    ]);
    let mut m = Machine::new(main);
    assert_eq!(m.add_function(make), 1);
    assert_eq!(m.add_function(inner), 2);
    match run_machine(&mut m) {
        StepOutcome::Return(v) => assert_eq!(as_int(&v), 2),
        other => panic!("unexpected {:?}", other),
    }
}

#[test]
fn machine_closures_share_an_open_local() {
    // local n = 10
    // local set = function(x) n = x end; local get = function() return n end
    // set(5); return get() + n
    let setter = chunk_of(vec![], vec![
        OpCode::GET_LOCAL { index: 1 },
        OpCode::SET_UPVALUE { index: 0 },
        OpCode::POP,
        OpCode::NIL,
        OpCode::RETURN,
    ]);
    let getter = chunk_of(vec![], vec![OpCode::GET_UPVALUE { index: 0 }, OpCode::RETURN]);
    let main = chunk_of(vec![Value::Integer(10), Value::Function(1), Value::Function(2), Value::Integer(5)], vec![
        OpCode::CONSTANT { constant: 0 },
        OpCode::CLOSURE { constant: 1 },
        OpCode::REGISTER_UPVALUE { index: 1, neighboring: true },
        OpCode::CLOSURE { constant: 2 },
        OpCode::REGISTER_UPVALUE { index: 1, neighboring: true },
        OpCode::GET_LOCAL { index: 2 },
        OpCode::CONSTANT { constant: 3 },
        OpCode::CALL(1),
        OpCode::POP,
        OpCode::GET_LOCAL { index: 3 },
        OpCode::CALL(0),
        OpCode::GET_LOCAL { index: 1 },
        OpCode::ADD,
        OpCode::RETURN,
    ]);
    let mut m = Machine::new(main);
    assert_eq!(m.add_function(setter), 1);
    assert_eq!(m.add_function(getter), 2);
    match run_machine(&mut m) {
        StepOutcome::Return(v) => assert_eq!(as_int(&v), 10),
        other => panic!("unexpected {:?}", other),
    }
}

#[test]
fn machine_closes_captures_leaving_a_scope() {
    // local get; do local x = 7; get = function() return x end end; return get()
    let getter = chunk_of(vec![], vec![OpCode::GET_UPVALUE { index: 0 }, OpCode::RETURN]);
    let main = chunk_of(vec![Value::Integer(7), Value::Function(1)], vec![
        OpCode::NIL,
        OpCode::CONSTANT { constant: 0 },
        OpCode::CLOSURE { constant: 1 },
        OpCode::REGISTER_UPVALUE { index: 2, neighboring: true },
        OpCode::SET_LOCAL { index: 1 },
        OpCode::POP,
        OpCode::CLOSE_UPVALUES(1),
        OpCode::GET_LOCAL { index: 1 },
        OpCode::CALL(0),
        OpCode::RETURN,
    ]);
    let mut m = Machine::new(main);
    m.add_function(getter);
    match run_machine(&mut m) {
        StepOutcome::Return(v) => assert_eq!(as_int(&v), 7),
        other => panic!("unexpected {:?}", other),
    }
}

#[test]
fn machine_table_read_gives_back_the_write() {
    let c = chunk_of(vec![Value::String("k".to_string()), Value::Integer(41)], vec![
        OpCode::NEW_TABLE,
        OpCode::GET_LOCAL { index: 1 },
        OpCode::CONSTANT { constant: 0 },
        OpCode::CONSTANT { constant: 1 },
        OpCode::TABLE_SET { depth: 1 },
        OpCode::GET_LOCAL { index: 1 },
        OpCode::CONSTANT { constant: 0 },
        OpCode::TABLE_GET { depth: 1 },
        OpCode::RETURN,
    ]);
    assert_eq!(as_int(&returned(&c)), 41);
}

#[test]
fn machine_runs_a_chunk_to_its_value() {
    let add = chunk_of(vec![], vec![
        OpCode::GET_LOCAL { index: 1 },
        OpCode::GET_LOCAL { index: 2 },
        OpCode::ADD,
        OpCode::RETURN,
    ]);
    let main = chunk_of(vec![Value::Function(1), Value::Integer(9), Value::Integer(10)], vec![
        OpCode::CLOSURE { constant: 0 },
        OpCode::CONSTANT { constant: 1 },
        OpCode::CONSTANT { constant: 2 },
        OpCode::CALL(2),
        OpCode::RETURN,
    ]);
    let mut m = Machine::new(main);
    m.add_function(add);
    match m.run(1000) {
        RunEnd::Halted(StepOutcome::Return(v)) => assert_eq!(as_int(&v), 19),
        other => panic!("unexpected {:?}", other),
    }
}

#[test]
fn machine_run_stops_for_the_host_and_resumes() {
    // print(1); return 2.5 * 2 (the float product is the host's), then return it
    let main = chunk_of(vec![Value::Integer(1), Value::Number(0x4004000000000000), Value::Integer(2)], vec![
        OpCode::CONSTANT { constant: 0 },
        OpCode::PRINT,
        OpCode::CONSTANT { constant: 1 },
        OpCode::CONSTANT { constant: 2 },
        OpCode::MULTIPLY,
        OpCode::RETURN,
    ]);
    let mut m = Machine::new(main);
    match m.run(100) {
        RunEnd::Halted(StepOutcome::Print(v)) => assert_eq!(as_int(&v), 1),
        other => panic!("unexpected {:?}", other),
    }
    match m.run(100) {
        RunEnd::Halted(StepOutcome::Arith(MetaMethod::Mul, ArithStep::Float(FloatArg::Float(a), FloatArg::Int(2), _))) => {
            let product = f64::from_bits(a) * 2.0;
            m.push(Value::Number(product.to_bits()));
        },
        other => panic!("unexpected {:?}", other),
    }
    match m.run(100) {
        RunEnd::Halted(StepOutcome::Return(Value::Number(bits))) => assert_eq!(f64::from_bits(bits), 5.0),
        other => panic!("unexpected {:?}", other),
    }
}

#[test]
fn machine_run_stops_where_it_cannot_go_on() {
    let bad = chunk_of(vec![], vec![OpCode::GET_LOCAL { index: 7 }]);
    let mut m = Machine::new(bad);
    assert!(!m.can_step());
    assert!(matches!(m.run(10), RunEnd::Stuck));
    let spin = chunk_of(vec![], vec![OpCode::NIL, OpCode::POP, OpCode::REWIND(3)]);
    let mut n = Machine::new(spin);
    assert!(matches!(n.run(30), RunEnd::OutOfFuel));
    assert!(n.can_step());
}

use silt_lua::chunk::Chunk;
use silt_lua::code::OpCode;
use silt_lua::error::SiltError;
use silt_lua::lua::{Machine, RunEnd, StepOutcome};
use silt_lua::parser::{compile, run_source, Stop};
use silt_lua::value::Value;

fn compiled(src: &str) -> Chunk {
    match compile(src) {
        Ok(c) => c,
        Err(e) => panic!("{:?} did not compile: {:?}", src, e),
    }
}

fn value_of(src: &str) -> Value {
    let mut m = Machine::new(compiled(src));
    match m.run(10_000) {
        RunEnd::Halted(StepOutcome::Return(v)) => v,
        other => panic!("{:?} ran to {:?}", src, other),
    }
}

#[test]
fn expression_code_follows_precedence() {
    let c = compiled("1 + 2 * 3");
    assert_eq!(c.code, vec![
        OpCode::CONSTANT { constant: 0 },
        OpCode::CONSTANT { constant: 1 },
        OpCode::CONSTANT { constant: 2 },
        OpCode::MULTIPLY,
        OpCode::ADD,
        OpCode::RETURN,
    ]);
    assert!(matches!(value_of("1 + 2 * 3"), Value::Integer(7)));
    assert!(matches!(value_of("(1 + 2) * 3"), Value::Integer(9)));
    assert!(matches!(value_of("10 - 4 - 3"), Value::Integer(3)));
    assert!(matches!(value_of("-(4 - 10)"), Value::Integer(6)));
}

#[test]
fn expression_texts_comparisons_and_logic() {
    assert!(matches!(value_of("'ab' .. 'cd' == 'abcd'"), Value::Bool(true)));
    assert!(matches!(value_of("#'hello'"), Value::Integer(5)));
    assert!(matches!(value_of("3 < 2"), Value::Bool(false)));
    assert!(matches!(value_of("not nil and 2 or 3"), Value::Integer(2)));
    assert!(matches!(value_of("false or 4"), Value::Integer(4)));
    assert!(matches!(value_of("nil and 1"), Value::Nil));
}

#[test]
fn expression_reads_globals_by_name() {
    let c = compiled("x .. x");
    assert_eq!(c.code, vec![
        OpCode::GET_GLOBAL { constant: 0 },
        OpCode::GET_GLOBAL { constant: 0 },
        OpCode::CONCAT,
        OpCode::RETURN,
    ]);
    assert!(matches!(value_of("y"), Value::Nil));
}

#[test]
fn expression_commas_and_comments() {
    let c = compiled("1, 2 -- two values");
    assert_eq!(c.code, vec![
        OpCode::CONSTANT { constant: 0 },
        OpCode::CONSTANT { constant: 1 },
        OpCode::RETURN,
    ]);
}

#[test]
fn expression_errors() {
    match compile("(1 + 2") {
        Err(Stop::Error(e)) => assert_eq!(e.code, SiltError::UnterminatedParenthesis(1, 1)),
        other => panic!("unexpected {:?}", other),
    }
    match compile("1 = 2") {
        Err(Stop::Error(e)) => assert!(matches!(e.code, SiltError::InvalidAssignment(_))),
        other => panic!("unexpected {:?}", other),
    }
}

#[test]
fn expression_leaves_out_what_it_does_not_compile() {
    for src in ["local y = 2", "f(1)", "1.5", "t.k", "{}", "5 % 2", "for i = 1, 2 do end", "a, b = 1, 2", "(x = 1)", "return 1, 2"] {
        assert!(matches!(compile(src), Err(Stop::Unsupported(_))), "{}", src);
    }
}

#[test]
fn expression_lexer_errors_stop_it() {
    assert!(matches!(compile("2 ^ 3"), Err(Stop::Error(_))));
}

#[test]
fn program_assigns_globals_and_returns() {
    let c = compiled("x = 1 + 2 return x");
    assert_eq!(c.code, vec![
        OpCode::CONSTANT { constant: 1 },
        OpCode::CONSTANT { constant: 2 },
        OpCode::ADD,
        OpCode::SET_GLOBAL { constant: 0 },
        OpCode::POP,
        OpCode::GET_GLOBAL { constant: 0 },
        OpCode::RETURN,
        OpCode::RETURN,
    ]);
    assert!(matches!(value_of("x = 1 + 2 return x"), Value::Integer(3)));
    assert!(matches!(value_of("x = 5; x * 2"), Value::Integer(10)));
    assert!(matches!(value_of("x = 1"), Value::Integer(1)));
    assert!(matches!(value_of("1 2"), Value::Integer(2)));
    assert!(matches!(value_of("return"), Value::Nil));
}

#[test]
fn program_prints_then_returns() {
    let mut m = Machine::new(compiled("sprint 'hi' .. '!' return 2"));
    match m.run(100) {
        RunEnd::Halted(StepOutcome::Print(Value::String(t))) => assert_eq!(t, "hi!"),
        other => panic!("unexpected {:?}", other),
    }
    match m.run(100) {
        RunEnd::Halted(StepOutcome::Return(v)) => assert!(matches!(v, Value::Integer(2))),
        other => panic!("unexpected {:?}", other),
    }
}

#[test]
fn program_branches_with_if() {
    let c = compiled("if x then y = 1 end return y");
    assert_eq!(c.code, vec![
        OpCode::GET_GLOBAL { constant: 0 },
        OpCode::POP_AND_GOTO_IF_FALSE(3),
        OpCode::CONSTANT { constant: 2 },
        OpCode::SET_GLOBAL { constant: 1 },
        OpCode::POP,
        OpCode::GET_GLOBAL { constant: 1 },
        OpCode::RETURN,
        OpCode::RETURN,
    ]);
    assert!(matches!(value_of("x = 3 if x > 2 then return 1 end return 2"), Value::Integer(1)));
    assert!(matches!(value_of("x = 1 if x > 2 then return 1 end return 2"), Value::Integer(2)));
    assert!(matches!(value_of("if false then return 1 else return 2 end"), Value::Integer(2)));
    assert!(matches!(value_of("if true then return 1 else return 2 end"), Value::Integer(1)));
    let chain = "x = 2 if x == 1 then y = 'one' elseif x == 2 then y = 'two' else y = 'many' end return y";
    match value_of(chain) {
        Value::String(t) => assert_eq!(t, "two"),
        other => panic!("unexpected {:?}", other),
    }
    let other = "x = 7 if x == 1 then y = 'one' elseif x == 2 then y = 'two' else y = 'many' end return y";
    match value_of(other) {
        Value::String(t) => assert_eq!(t, "many"),
        v => panic!("unexpected {:?}", v),
    }
}

#[test]
fn program_loops_with_while() {
    let c = compiled("while x do x = false end");
    assert_eq!(c.code, vec![
        OpCode::GET_GLOBAL { constant: 0 },
        OpCode::POP_AND_GOTO_IF_FALSE(4),
        OpCode::FALSE,
        OpCode::SET_GLOBAL { constant: 0 },
        OpCode::POP,
        OpCode::REWIND(6),
        OpCode::RETURN,
    ]);
    let sum = "i = 0 s = 0 while i < 10 do i = i + 1 s = s + i end return s";
    assert!(matches!(value_of(sum), Value::Integer(55)));
    let nested = "i = 0 n = 0 while i < 3 do i = i + 1 j = 0 while j < i do j = j + 1 n = n + 1 end end return n";
    assert!(matches!(value_of(nested), Value::Integer(6)));
}

#[test]
fn program_do_blocks_run_in_place() {
    assert!(matches!(value_of("do x = 4 end return x * 2"), Value::Integer(8)));
    assert!(matches!(value_of("do do return 3 end end"), Value::Integer(3)));
}

#[test]
fn program_block_errors() {
    match compile("if x then y = 1") {
        Err(Stop::Error(e)) => assert_eq!(e.code, SiltError::UnterminatedBlock),
        other => panic!("unexpected {:?}", other),
    }
    match compile("while x y = 1 end") {
        Err(Stop::Error(e)) => assert!(matches!(e.code, SiltError::ExpectedToken(_))),
        other => panic!("unexpected {:?}", other),
    }
    match compile("if x y = 1 end") {
        Err(Stop::Error(e)) => assert!(matches!(e.code, SiltError::ExpectedToken(_))),
        other => panic!("unexpected {:?}", other),
    }
    assert!(matches!(compile("do a := 1 end"), Err(Stop::Unsupported(_))));
    assert!(matches!(compile("do local a = 1 end"), Err(Stop::Unsupported(_))));
}

#[test]
fn compliance1() {
    assert!(matches!(value_of("return 1+2"), Value::Integer(3)));
}

#[test]
fn compliance2() {
    match value_of("return '1'..'2'") {
        Value::String(t) => assert_eq!(t, "12"),
        other => panic!("unexpected {:?}", other),
    }
}

#[test]
fn run_source_compiles_and_runs() {
    let src = "n = 5 f = 1 while n > 1 do f = f * n n = n - 1 end return f";
    match run_source(src, 10_000) {
        Ok((RunEnd::Halted(StepOutcome::Return(v)), _)) => assert!(matches!(v, Value::Integer(120))),
        other => panic!("unexpected {:?}", other.map(|(e, _)| e)),
    }
    match run_source("while true do end", 50) {
        Ok((RunEnd::OutOfFuel, _)) => {},
        other => panic!("unexpected {:?}", other.map(|(e, _)| e)),
    }
    match run_source("if x then", 50) {
        Err(Stop::Error(e)) => assert_eq!(e.code, SiltError::UnterminatedBlock),
        other => panic!("unexpected {:?}", other.map(|(e, _)| e)),
    }
    match run_source("sprint 1 + 1 return 0", 50) {
        Ok((RunEnd::Halted(StepOutcome::Print(v)), mut m)) => {
            assert!(matches!(v, Value::Integer(2)));
            match m.run(50) {
                RunEnd::Halted(StepOutcome::Return(r)) => assert!(matches!(r, Value::Integer(0))),
                other => panic!("unexpected {:?}", other),
            }
        },
        other => panic!("unexpected {:?}", other.map(|(e, _)| e)),
    }
}

#[test]
fn program_loops_with_repeat() {
    let c = compiled("repeat x = 1 until x return x");
    assert_eq!(c.code, vec![
        OpCode::CONSTANT { constant: 1 },
        OpCode::SET_GLOBAL { constant: 0 },
        OpCode::POP,
        OpCode::GET_GLOBAL { constant: 0 },
        OpCode::GOTO_IF_TRUE(2),
        OpCode::POP,
        OpCode::REWIND(7),
        OpCode::POP,
        OpCode::GET_GLOBAL { constant: 0 },
        OpCode::RETURN,
        OpCode::RETURN,
    ]);
    assert!(matches!(value_of("repeat x = 1 until x return x"), Value::Integer(1)));
    assert!(matches!(value_of("i = 0 repeat i = i + 1 until i >= 4 return i"), Value::Integer(4)));
    match compile("repeat x = 1") {
        Err(Stop::Error(e)) => assert_eq!(e.code, SiltError::UnterminatedBlock),
        other => panic!("unexpected {:?}", other),
    }
}

#[test]
fn program_breaks_out_of_loops() {
    let c = compiled("while true do break end return 1");
    assert_eq!(c.code, vec![
        OpCode::TRUE,
        OpCode::POP_AND_GOTO_IF_FALSE(2),
        OpCode::FORWARD(1),
        OpCode::REWIND(4),
        OpCode::CONSTANT { constant: 0 },
        OpCode::RETURN,
        OpCode::RETURN,
    ]);
    assert!(matches!(value_of("while true do break end return 1"), Value::Integer(1)));
    let first = "i = 0 while true do i = i + 1 if i == 5 then break end end return i";
    assert!(matches!(value_of(first), Value::Integer(5)));
    let inner = "n = 0 i = 0 while i < 3 do i = i + 1 while true do n = n + 1 break end end return n";
    assert!(matches!(value_of(inner), Value::Integer(3)));
    let rep = "i = 0 repeat i = i + 1 if i == 2 then break end until false return i";
    assert!(matches!(value_of(rep), Value::Integer(2)));
    match compile("break") {
        Err(Stop::Error(e)) => assert!(matches!(e.code, SiltError::InvalidTokenPlacement(_))),
        other => panic!("unexpected {:?}", other),
    }
}

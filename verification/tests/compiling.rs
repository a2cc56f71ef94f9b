use silt_lua::chunk::Chunk;
use silt_lua::code::OpCode;
use silt_lua::compiler::{
    _add_local, add_local, add_local_placeholder, begin_functional_scope, begin_loop, begin_scope,
    break_statement, end_functional_scope, end_loop, end_scope, final_resolve_goto,
    goto_scope_skip, resolve_etters, resolve_goto, resolve_local, Compiler, FunctionalState,
    LanguageFlags, ParseFn, ParseRule, Precedence, UpLocal,
};
use silt_lua::error::{ErrorTuple, SiltError};
use silt_lua::token::{Operator, Token};

fn failure<T: std::fmt::Debug>(r: Result<T, ErrorTuple>) -> (SiltError, (usize, usize)) {
    match r {
        Err(e) => (e.code, e.location),
        Ok(v) => panic!("expected an error, got {:?}", v),
    }
}

#[test]
fn precedence_climbs_one_level_at_a_time() {
    assert_eq!(Precedence::Lowest.next(), Precedence::Assignment);
    assert_eq!(Precedence::Term.next(), Precedence::Factor);
    assert_eq!(Precedence::Call.next(), Precedence::Primary);
    assert_eq!(Precedence::Primary.next(), Precedence::Primary);
    assert_eq!(Precedence::Term.rank() + 1, Precedence::Term.next().rank());
    assert!(Precedence::Assignment.rank() < Precedence::Or.rank());
    assert_eq!(Precedence::Lowest.to_string(), "None");
    assert_eq!(Precedence::BitXor.to_string(), "BitXor");
}

#[test]
fn grammar_rules_by_token() {
    assert_eq!(
        Compiler::get_rule(&Token::OpenParen),
        ParseRule { prefix: ParseFn::Grouping, infix: ParseFn::Call, precedence: Precedence::Call }
    );
    assert_eq!(
        Compiler::get_rule(&Token::Op(Operator::Sub)),
        ParseRule { prefix: ParseFn::Unary, infix: ParseFn::Binary, precedence: Precedence::Term }
    );
    assert_eq!(
        Compiler::get_rule(&Token::Op(Operator::Exponent)),
        ParseRule { prefix: ParseFn::Void, infix: ParseFn::Exponent, precedence: Precedence::Exponent }
    );
    assert_eq!(
        Compiler::get_rule(&Token::Op(Operator::Tilde)),
        ParseRule { prefix: ParseFn::Unary, infix: ParseFn::Binary, precedence: Precedence::BitXor }
    );
    assert_eq!(
        Compiler::get_rule(&Token::Identifier("x".to_string())),
        ParseRule { prefix: ParseFn::Variable, infix: ParseFn::Void, precedence: Precedence::Lowest }
    );
    assert_eq!(Compiler::get_rule(&Token::Nil).prefix, ParseFn::Literal);
    assert_eq!(Compiler::get_rule(&Token::Integer(3)).prefix, ParseFn::Integer);
    assert_eq!(
        Compiler::get_rule(&Token::Comma),
        ParseRule { prefix: ParseFn::Void, infix: ParseFn::Void, precedence: Precedence::Lowest }
    );
}

#[test]
fn default_flags() {
    let f = LanguageFlags::default();
    assert!(!f.implicit_returns);
    assert!(f.arrow_functions);
    assert!(!f.bang_operator);
    assert!(f.compound_assignment);
}

#[test]
fn fresh_compiler_has_no_errors() {
    let c = Compiler::new();
    assert!(c.valid);
    assert_eq!(c.current_index, 0);
    assert!(c.get_errors().is_empty());
    assert_eq!(c.error_string(), "");
    let c2 = Compiler::new_with_flags(true, false, true);
    assert!(c2.valid);
    assert!(!c2.is_arg_mode());
    assert_eq!(c2.get_expression_count(), 0);
    let s = FunctionalState::new();
    assert!(s.up_values.is_empty());
    assert_eq!(s.vararg, 0);
}

#[test]
fn errors_are_listed_and_handed_out() {
    let mut c = Compiler::new();
    let e = c.error_at(SiltError::TooManyLocals);
    assert!(!c.valid);
    assert_eq!(e.location, (0, 0));
    c.push_error(e);
    c.push_error(ErrorTuple { code: SiltError::ChunkCorrupt, location: (3, 7) });
    assert_eq!(
        c.error_string(),
        "!!Too many local variables, limited to 255 at 0:0!!Invalid chunk due compilation corruption at 3:7"
    );
    let out = c.pop_errors();
    assert_eq!(out.len(), 2);
    assert!(c.get_errors().is_empty());
}

#[test]
fn declared_local_resolves_to_its_slot() {
    let mut c = Compiler::new();
    begin_scope(&mut c);
    assert_eq!(add_local(&mut c, "x".to_string()).unwrap(), 1);
    assert_eq!(add_local(&mut c, "y".to_string()).unwrap(), 2);
    assert_eq!(resolve_local(&mut c, &"x".to_string()), Some((1, false)));
    assert_eq!(resolve_local(&mut c, &"y".to_string()), Some((2, false)));
    assert_eq!(resolve_local(&mut c, &"z".to_string()), None);
    // a placeholder takes a slot but no name resolves to it
    assert_eq!(add_local_placeholder(&mut c).unwrap(), 3);
    // the innermost of two locals of one name wins
    assert_eq!(add_local(&mut c, "x".to_string()).unwrap(), 4);
    assert_eq!(resolve_local(&mut c, &"x".to_string()), Some((4, false)));
}

#[test]
fn closing_a_block_pops_its_locals() {
    let mut c = Compiler::new();
    let mut f = Chunk::new();
    begin_scope(&mut c);
    add_local(&mut c, "a".to_string()).unwrap();
    begin_scope(&mut c);
    add_local(&mut c, "b".to_string()).unwrap();
    add_local(&mut c, "c".to_string()).unwrap();
    end_scope(&mut c, &mut f, false);
    assert_eq!(f.code, vec![OpCode::POPS(2)]);
    assert_eq!(resolve_local(&mut c, &"b".to_string()), None);
    assert_eq!(resolve_local(&mut c, &"a".to_string()), Some((1, false)));
    // the next local reuses the freed slot
    assert_eq!(add_local(&mut c, "d".to_string()).unwrap(), 2);
    end_scope(&mut c, &mut f, false);
    assert_eq!(f.code, vec![OpCode::POPS(2), OpCode::POPS(2)]);
    // an empty block pops nothing
    begin_scope(&mut c);
    end_scope(&mut c, &mut f, false);
    assert_eq!(f.code.len(), 2);
}

#[test]
fn captured_local_is_closed_not_popped() {
    let mut c = Compiler::new();
    let mut f = Chunk::new();
    begin_scope(&mut c);
    assert_eq!(add_local(&mut c, "a".to_string()).unwrap(), 1);
    // a function body
    begin_scope(&mut c);
    begin_functional_scope(&mut c);
    assert_eq!(resolve_local(&mut c, &"a".to_string()), Some((0, true)));
    // capturing it again registers nothing new
    assert_eq!(resolve_local(&mut c, &"a".to_string()), Some((0, true)));
    assert_eq!(add_local(&mut c, "b".to_string()).unwrap(), 1);
    assert_eq!(resolve_local(&mut c, &"b".to_string()), Some((1, false)));
    assert!(c.is_vararg_function() == false);
    end_scope(&mut c, &mut f, true);
    assert!(f.code.is_empty());
    let st = end_functional_scope(&mut c);
    assert_eq!(st.up_values, vec![UpLocal { ident: 1, neighboring: true, universal_ident: 1 }]);
    end_scope(&mut c, &mut f, false);
    assert_eq!(f.code, vec![OpCode::POPS(0), OpCode::CLOSE_UPVALUES(1)]);
}

#[test]
fn capture_through_two_functions() {
    let mut c = Compiler::new();
    begin_scope(&mut c);
    add_local(&mut c, "a".to_string()).unwrap();
    begin_scope(&mut c);
    begin_functional_scope(&mut c);
    add_local(&mut c, "m".to_string()).unwrap();
    begin_scope(&mut c);
    begin_functional_scope(&mut c);
    // the inner function reaches `a` through a capture of the middle one
    assert_eq!(resolve_local(&mut c, &"a".to_string()), Some((0, true)));
    let inner = end_functional_scope(&mut c);
    assert_eq!(inner.up_values, vec![UpLocal { ident: 0, neighboring: false, universal_ident: 1 }]);
    let middle = end_functional_scope(&mut c);
    assert_eq!(middle.up_values, vec![UpLocal { ident: 1, neighboring: true, universal_ident: 1 }]);
}

#[test]
fn getters_and_setters_of_a_name() {
    let mut c = Compiler::new();
    let mut f = Chunk::new();
    assert_eq!(
        resolve_etters(&mut c, &mut f, "g".to_string()),
        (OpCode::SET_GLOBAL { constant: 0 }, OpCode::GET_GLOBAL { constant: 0 })
    );
    // the same global name reuses its constant
    assert_eq!(
        resolve_etters(&mut c, &mut f, "g".to_string()),
        (OpCode::SET_GLOBAL { constant: 0 }, OpCode::GET_GLOBAL { constant: 0 })
    );
    begin_scope(&mut c);
    add_local(&mut c, "l".to_string()).unwrap();
    assert_eq!(
        resolve_etters(&mut c, &mut f, "l".to_string()),
        (OpCode::SET_LOCAL { index: 1 }, OpCode::GET_LOCAL { index: 1 })
    );
    begin_scope(&mut c);
    begin_functional_scope(&mut c);
    assert_eq!(
        resolve_etters(&mut c, &mut f, "l".to_string()),
        (OpCode::SET_UPVALUE { index: 0 }, OpCode::GET_UPVALUE { index: 0 })
    );
}

#[test]
fn too_many_locals() {
    let mut c = Compiler::new();
    begin_scope(&mut c);
    for i in 1..255u32 {
        assert_eq!(_add_local(&mut c, Some(format!("v{}", i))).unwrap(), i as u8);
    }
    assert_eq!(failure(add_local(&mut c, "over".to_string())), (SiltError::TooManyLocals, (0, 0)));
    assert!(!c.valid);
}

#[test]
fn patch_aims_a_jump_at_the_end() {
    let mut c = Compiler::new();
    let mut f = Chunk::new();
    let at = c.emit_index(&mut f, OpCode::FORWARD(0));
    assert_eq!(at, 0);
    c.emit_at(&mut f, OpCode::POP);
    c.emit_at(&mut f, OpCode::POP);
    c.emit_at(&mut f, OpCode::NIL);
    assert!(c.patch(&mut f, at).is_ok());
    assert_eq!(f.code[0], OpCode::FORWARD(3));
    let g = c.emit_index(&mut f, OpCode::POP_AND_GOTO_IF_FALSE(0));
    c.emit_at(&mut f, OpCode::TRUE);
    assert!(c.patch(&mut f, g).is_ok());
    assert_eq!(f.code[4], OpCode::POP_AND_GOTO_IF_FALSE(1));
    // a jump patched right away has distance 0
    let h = c.emit_index(&mut f, OpCode::GOTO_IF_TRUE(9));
    assert!(c.patch(&mut f, h).is_ok());
    assert_eq!(f.code[6], OpCode::GOTO_IF_TRUE(0));
    assert!(c.valid);
}

#[test]
fn patch_refuses_an_instruction_that_does_not_jump() {
    let mut c = Compiler::new();
    let mut f = Chunk::new();
    c.emit_at(&mut f, OpCode::POP);
    c.emit_at(&mut f, OpCode::POP);
    assert_eq!(failure(c.patch(&mut f, 0)), (SiltError::ChunkCorrupt, (0, 0)));
    assert_eq!(f.code, vec![OpCode::POP, OpCode::POP]);
    assert!(!c.valid);
}

#[test]
fn patch_refuses_a_jump_too_far() {
    let mut c = Compiler::new();
    let mut f = Chunk::new();
    c.emit_at(&mut f, OpCode::FORWARD(0));
    for _ in 0..65536 {
        c.emit_at(&mut f, OpCode::POP);
    }
    assert_eq!(failure(c.patch(&mut f, 0)), (SiltError::TooManyOperations, (0, 0)));
    assert_eq!(f.code[0], OpCode::FORWARD(0));
}

#[test]
fn rewind_counts_back_to_the_start() {
    let mut c = Compiler::new();
    let mut f = Chunk::new();
    c.emit_at(&mut f, OpCode::NIL);
    c.emit_at(&mut f, OpCode::POP);
    c.emit_rewind(&mut f, 0);
    assert_eq!(f.code[2], OpCode::REWIND(3));
    assert!(c.valid);
}

#[test]
fn force_stack_pop_writes_the_count() {
    let mut c = Compiler::new();
    let mut f = Chunk::new();
    begin_scope(&mut c);
    add_local(&mut c, "a".to_string()).unwrap();
    add_local(&mut c, "b".to_string()).unwrap();
    c.force_stack_pop(&mut f, 2);
    assert_eq!(f.code, vec![OpCode::POPS(2)]);
    assert_eq!(resolve_local(&mut c, &"a".to_string()), None);
}

#[test]
fn goto_jumps_to_labels() {
    let mut c = Compiler::new();
    let mut f = Chunk::new();
    c.set_label(&f, "top".to_string());
    c.emit_at(&mut f, OpCode::NIL);
    c.emit_at(&mut f, OpCode::POP);
    assert!(resolve_goto(&mut c, &mut f, "top", 2, None).is_ok());
    assert_eq!(f.code[2], OpCode::REWIND(2));
    // a label not set yet gets a placeholder jump
    assert!(resolve_goto(&mut c, &mut f, "later", 3, None).is_ok());
    assert_eq!(f.code[3], OpCode::FORWARD(0));
    c.emit_at(&mut f, OpCode::NIL);
    c.set_label(&f, "later".to_string());
    assert!(resolve_goto(&mut c, &mut f, "later", 3, Some((3, (1, 1)))).is_ok());
    assert_eq!(f.code[3], OpCode::FORWARD(2));
    // setting a label again moves it
    c.set_label(&f, "top".to_string());
    assert!(resolve_goto(&mut c, &mut f, "top", 1, Some((1, (1, 1)))).is_ok());
    assert_eq!(f.code[1], OpCode::FORWARD(4));
    final_resolve_goto(&mut c);
    assert!(c.valid);
}

#[test]
fn goto_to_a_missing_label() {
    let mut c = Compiler::new();
    let mut f = Chunk::new();
    assert_eq!(failure(resolve_goto(&mut c, &mut f, "nowhere", 0, Some((0, (3, 4))))), (SiltError::UndefinedLabel("nowhere".to_string()), (3, 4)));
    assert!(f.code.is_empty());
    assert!(!c.valid);
}

#[test]
fn goto_skips_the_deeper_blocks_locals() {
    let mut c = Compiler::new();
    let mut f = Chunk::new();
    begin_scope(&mut c);
    add_local(&mut c, "a".to_string()).unwrap();
    begin_scope(&mut c);
    add_local(&mut c, "b".to_string()).unwrap();
    add_local(&mut c, "c".to_string()).unwrap();
    goto_scope_skip(&mut c, &mut f);
    // no local lies deeper than the block being compiled
    assert_eq!(f.code, vec![OpCode::POPS(0)]);
}

#[test]
fn break_jumps_to_the_loop_end() {
    let mut c = Compiler::new();
    let mut f = Chunk::new();
    begin_scope(&mut c);
    begin_loop(&mut c);
    add_local_placeholder(&mut c).unwrap();
    assert!(break_statement(&mut c, &mut f).is_ok());
    assert_eq!(f.code, vec![OpCode::POPS(1), OpCode::FORWARD(0)]);
    c.emit_at(&mut f, OpCode::POP);
    assert!(end_loop(&mut c, &mut f).is_ok());
    assert_eq!(f.code[1], OpCode::FORWARD(1));
    // no loop left: a break is misplaced
    assert_eq!(failure(break_statement(&mut c, &mut f)), (SiltError::InvalidTokenPlacement(Token::Break), (0, 0)));
    assert!(end_loop(&mut c, &mut f).is_ok());
}

#[test]
fn function_state_switches() {
    let mut c = Compiler::new();
    c.set_arg_mode(true);
    assert!(c.is_arg_mode());
    c.set_trailing_vararg(true);
    assert!(c.is_trailing_vararg());
    c.increment_expression_count();
    c.increment_expression_count();
    assert_eq!(c.get_expression_count(), 2);
    c.pre_statement();
    assert_eq!(c.get_expression_count(), 1);
    c.override_pop();
    assert!(c.flip_override_pop());
    assert!(!c.flip_override_pop());
    begin_scope(&mut c);
    add_local(&mut c, "p".to_string()).unwrap();
    begin_functional_scope(&mut c);
    // the function's own state starts fresh
    assert!(!c.is_arg_mode());
    assert_eq!(c.get_vararg(), 0);
    add_local(&mut c, "q".to_string()).unwrap();
    c.set_vararg();
    assert_eq!(c.get_vararg(), 2);
    assert!(c.is_vararg_function());
    let st = end_functional_scope(&mut c);
    assert_eq!(st.vararg, 2);
    assert!(c.is_arg_mode());
}

#[test]
fn constants_are_written_and_loaded() {
    let mut c = Compiler::new();
    let mut f = Chunk::new();
    c.constant_at(&mut f, silt_lua::value::Value::Integer(5));
    c.emit_identifer_constant_at(&mut f, "name".to_string());
    c.emit_identifer_constant_at(&mut f, "name".to_string());
    assert_eq!(
        f.code,
        vec![
            OpCode::CONSTANT { constant: 0 },
            OpCode::CONSTANT { constant: 1 },
            OpCode::CONSTANT { constant: 1 },
        ]
    );
    assert_eq!(c.identifer_constant(&mut f, "other".to_string()), 2);
    assert_eq!(c.write_constant(&mut f, silt_lua::value::Value::Nil), 3);
    let mut g = Chunk::new();
    c.drain_getters(&mut g);
    c.drain_setters(&mut g);
    assert!(g.code.is_empty());
}

#[test]
fn fourth_level_function_offsets_drift() {
    // function a(x) function b() function c() function d() local z ...
    let mut c = Compiler::new();
    begin_scope(&mut c);
    begin_functional_scope(&mut c);
    assert_eq!(add_local(&mut c, "x".to_string()).unwrap(), 1);
    for _ in 0..3 {
        begin_scope(&mut c);
        begin_functional_scope(&mut c);
    }
    assert_eq!(add_local(&mut c, "z".to_string()).unwrap(), 1);
    // the frame offset of the fourth function sums every enclosing offset,
    // so `z` is looked up one slot low
    assert_eq!(resolve_local(&mut c, &"z".to_string()), Some((0, false)));
}

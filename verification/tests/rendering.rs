use silt_lua::code::OpCode;
use silt_lua::error::{error_snippet, first_error, ErrorOut, ErrorTuple, SiltError, ValueTypes};
use silt_lua::lsp::{diagnostics, format_with, severity_code, Position, Range, Severity};
use silt_lua::token::{Flag, Operator, Token};
use silt_lua::userdata::MetaMethod;

fn err(code: SiltError, line: usize, col: usize) -> ErrorTuple {
    ErrorTuple { code, location: (line, col) }
}

#[test]
fn snippet_points_at_the_column() {
    let src = "local a = 1\nlocal c = )";
    assert_eq!(error_snippet(src, (2, 11)), "2 | local c = )\n  |           ^");
}

#[test]
fn snippet_keeps_tabs_in_the_caret_indent() {
    assert_eq!(error_snippet("\tx = )", (1, 6)), "1 | \tx = )\n  | \t    ^");
}

#[test]
fn snippet_outside_the_source() {
    assert_eq!(error_snippet("one line", (5, 1)), "  (line 5 not in source)");
    assert_eq!(error_snippet("one line", (0, 1)), "  (line 0 not in source)");
}

#[test]
fn snippet_of_a_long_line_number() {
    let mut src = String::new();
    for _ in 0..11 {
        src.push_str("x\n");
    }
    src.push_str("bad");
    assert_eq!(error_snippet(&src, (12, 1)), "12 | bad\n   | ^");
}

#[test]
fn error_messages() {
    assert_eq!(SiltError::UnterminatedString.to_string(), "Unterminated string");
    assert_eq!(
        SiltError::ExpOpValueWithValue(ValueTypes::Integer, MetaMethod::Add, ValueTypes::String).to_string(),
        "Cannot + 'integer' and 'string'"
    );
    assert_eq!(
        SiltError::UnterminatedParenthesis(3, 7).to_string(),
        "Expected closing paren due to open paren '(' here 3:7"
    );
    assert_eq!(SiltError::UnexpectedCharacter('@').to_string(), "Unexpected character: @");
    assert_eq!(
        SiltError::ExpectedToken(Token::Identifier("x".to_string())).to_string(),
        "Expected token: ident(x)"
    );
    assert_eq!(SiltError::Custom("boom".to_string()).to_string(), "boom");
    assert_eq!(SiltError::IO("disk".to_string()).to_string(), "Input Output Error; disk");
    assert_eq!(
        SiltError::EvalNoInteger(ValueTypes::Closure).to_string(),
        "(function) has no direct integer conversion for operation"
    );
    assert_eq!(
        SiltError::TableExpectedCommaOrCloseBrace.to_string(),
        "Table expected a comma or termination by closing brace '}'"
    );
}

#[test]
fn token_texts() {
    assert_eq!(Token::Identifier("x".to_string()).to_string(), "ident(x)");
    assert_eq!(Token::Integer(-5).to_string(), "-5i");
    assert_eq!(Token::Number("2.5".to_string()).to_string(), "2.5f");
    assert_eq!(Token::StringLiteral("s".to_string()).to_string(), "string(s)");
    assert_eq!(Token::ColonIdentifier("m".to_string()).to_string(), ":m");
    assert_eq!(Token::Op(Operator::Concat).to_string(), "..");
    assert_eq!(Token::Flag(Flag::Strict).to_string(), "flag(strict)");
    assert_eq!(Token::Assign.to_string(), "::=");
    assert_eq!(Token::OpenBrace.to_string(), "{");
    assert_eq!(Token::Dot.to_string(), "call");
    assert_eq!(Operator::NotEqual.to_string(), "~=");
    assert_eq!(Flag::Local.to_string(), "local");
    assert_eq!(MetaMethod::IDiv.to_string(), "//");
    assert_eq!(ValueTypes::NativeFunction.to_string(), "native_function");
}

#[test]
fn opcode_texts() {
    assert_eq!(OpCode::CONSTANT { constant: 3 }.to_string(), "OP_CONSTANT 3");
    assert_eq!(OpCode::TABLE_GET { depth: 2 }.to_string(), "OP_TABLE_GET 2[]");
    assert_eq!(OpCode::CALL(1).to_string(), "OP_CALL(1)");
    assert_eq!(OpCode::REGISTER_UPVALUE { index: 4, neighboring: true }.to_string(), "OP_REG_UPVALUE 4");
    assert_eq!(OpCode::META(9).to_string(), "META");
    assert_eq!(OpCode::LITERAL { dest: 1, literal: 2 }.to_string(), "OP_LITERAL 1 2");
    assert_eq!(OpCode::TABLE_BUILD(5).to_string(), "OP_TABLE_BUILD [;5]");
    assert_eq!(OpCode::GOTO_IF_FALSE(300).to_string(), "OP_GOTO_IF_FALSE 300");
    assert_eq!(OpCode::POPS(2).to_string(), "OP_POPx2");
    assert_eq!(OpCode::SUB.to_string(), "OP_SUBTRACT");
}

#[test]
fn error_tuple_and_report() {
    let e = err(SiltError::UnterminatedString, 3, 4);
    assert_eq!(e.to_string(), "Unterminated string@3:4");
    let one = ErrorOut { errors: vec![e.clone()], source: Some("main".to_string()) };
    assert_eq!(one.to_string(), "source [main] failed with: Unterminated string@3:4");
    let two = ErrorOut {
        errors: vec![e.clone(), err(SiltError::ExpectedThen, 5, 1)],
        source: Some("main".to_string()),
    };
    assert_eq!(
        two.to_string(),
        "source [main] failed with:\n1. Unterminated string@3:4\n2. Expected 'then' after if condition@5:1"
    );
    let none = ErrorOut { errors: vec![], source: None };
    assert_eq!(none.to_string(), "source [unknown] failed with: Unknown error@0:0");
    assert_eq!(none.get_first(), SiltError::Unknown);
    assert_eq!(two.get_first(), SiltError::UnterminatedString);
    assert_eq!(first_error(vec![err(SiltError::ExpInvalid, 1, 1)]), SiltError::ExpInvalid);
}

#[test]
fn error_report_with_snippets() {
    let src = "x = 1\ny = )";
    let e = err(SiltError::ExpInvalid, 2, 5);
    assert_eq!(e.snippet(src), "error: Invalid expression (line 2, col 5)\n2 | y = )\n  |     ^");
    let out = ErrorOut { errors: vec![e.clone(), err(SiltError::ExpectedDo, 1, 1)], source: None };
    assert_eq!(
        out.snippet(src),
        "error: Invalid expression (line 2, col 5)\n2 | y = )\n  |     ^\n\n\
         error: Expected 'do' after while condition (line 1, col 1)\n1 | x = 1\n  | ^"
    );
    let empty = ErrorOut { errors: vec![], source: None };
    assert_eq!(empty.snippet(src), "");
}

#[test]
fn diagnostics_are_zero_based_and_one_wide() {
    let ds = diagnostics(&vec![err(SiltError::ExpectedThen, 3, 5), err(SiltError::Unknown, 0, 0)]);
    assert_eq!(ds.len(), 2);
    assert_eq!(
        ds[0].range,
        Range { start: Position { line: 2, character: 4 }, end: Position { line: 2, character: 5 } }
    );
    assert_eq!(ds[0].severity, Severity::Error);
    assert_eq!(ds[0].message, "Expected 'then' after if condition");
    assert_eq!(
        ds[1].range,
        Range { start: Position { line: 0, character: 0 }, end: Position { line: 0, character: 1 } }
    );
    assert!(diagnostics(&vec![]).is_empty());
}

#[test]
fn severity_codes() {
    assert_eq!(severity_code(Severity::Error), 1);
    assert_eq!(severity_code(Severity::Warning), 2);
    assert_eq!(severity_code(Severity::Information), 3);
    assert_eq!(severity_code(Severity::Hint), 4);
}

#[test]
fn format_indents_blocks() {
    assert_eq!(silt_lua::lsp::format("function f()\nreturn 1\nend"), "function f()\n\treturn 1\nend");
    assert_eq!(
        silt_lua::lsp::format("if a then\nb()\nelseif c then\nd()\nelse\ne()\nend"),
        "if a then\n\tb()\nelseif c then\n\td()\nelse\n\te()\nend"
    );
    assert_eq!(silt_lua::lsp::format("while x do\nif y then\nz()\nend\nend"), "while x do\n\tif y then\n\t\tz()\n\tend\nend");
}

#[test]
fn format_with_a_custom_unit() {
    assert_eq!(format_with("t = {\n1,\n}", "  "), "t = {\n  1,\n}");
    assert_eq!(format_with("repeat\nx()\nuntil done", "    "), "repeat\n    x()\nuntil done");
}

#[test]
fn format_strips_blank_line_indentation_and_carriage_returns() {
    assert_eq!(silt_lua::lsp::format("do\n   \nx()\nend"), "do\n\n\tx()\nend");
    assert_eq!(silt_lua::lsp::format("do\r\n  x()\r\nend"), "do\n\tx()\nend");
}

#[test]
fn format_keeps_multi_line_strings() {
    let src = "s = [[a\n   b]]\ny()";
    assert_eq!(silt_lua::lsp::format(src), src);
}

#[test]
fn format_leaves_broken_source_alone() {
    let src = "x = 'abc\n  y = 1";
    assert_eq!(silt_lua::lsp::format(src), src);
}

#[test]
fn formatting_keeps_the_number_of_lines() {
    for src in ["a\nb\nc", "if x then\n\n  y()\nend\n", "s = [[1\n2]]\nt = {\n}\n", "x = 'broken\n"] {
        let out = format_with(src, "  ");
        assert_eq!(out.matches('\n').count(), src.matches('\n').count());
    }
}

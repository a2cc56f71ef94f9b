use silt_lua::error::{SiltError, TokenTriple};
use silt_lua::lexer::Lexer;
use silt_lua::token::{Operator, Token};

fn lex(src: &str) -> Vec<Result<(Token, (usize, usize, usize, usize)), (SiltError, (usize, usize))>> {
    let mut lx = Lexer::new(src);
    let mut out = Vec::new();
    while let Some(r) = lx.next() {
        out.push(match r {
            Ok((t, TokenTriple { line, col, index, length })) => Ok((t, (line, col, index, length))),
            Err(e) => Err((e.code, e.location)),
        });
    }
    out
}

fn tokens(src: &str) -> Vec<Token> {
    lex(src).into_iter().map(|r| r.expect("lexes cleanly").0).collect()
}

fn ident(s: &str) -> Token {
    Token::Identifier(s.to_string())
}

#[test]
fn declaration_tokens_and_positions() {
    let got = lex("local x = 10");
    let want = vec![
        Ok((Token::Local, (1, 1, 0, 5))),
        Ok((ident("x"), (1, 7, 6, 1))),
        Ok((Token::Assign, (1, 9, 8, 1))),
        Ok((Token::Integer(10), (1, 11, 10, 2))),
    ];
    assert_eq!(got, want);
}

#[test]
fn lines_are_counted() {
    let got = lex("a\n  b");
    assert_eq!(got, vec![Ok((ident("a"), (1, 1, 0, 1))), Ok((ident("b"), (2, 3, 4, 1)))]);
    // the first character of a line is at column 1
    let got = lex("x\ny");
    assert_eq!(got, vec![Ok((ident("x"), (1, 1, 0, 1))), Ok((ident("y"), (2, 1, 2, 1)))]);
}

#[test]
fn keywords_and_operators() {
    assert_eq!(
        tokens("if a ~= b then return a .. b end"),
        vec![
            Token::If,
            ident("a"),
            Token::Op(Operator::NotEqual),
            ident("b"),
            Token::Then,
            Token::Return,
            ident("a"),
            Token::Op(Operator::Concat),
            ident("b"),
            Token::End,
        ]
    );
    assert_eq!(
        tokens("x += 1 y -= 2 z == w <= v >= u # t"),
        vec![
            ident("x"),
            Token::AddAssign,
            Token::Integer(1),
            ident("y"),
            Token::SubAssign,
            Token::Integer(2),
            ident("z"),
            Token::Op(Operator::Equal),
            ident("w"),
            Token::Op(Operator::LessEqual),
            ident("v"),
            Token::Op(Operator::GreaterEqual),
            ident("u"),
            Token::Op(Operator::Length),
            ident("t"),
        ]
    );
    assert_eq!(
        tokens("f -> not a and b or c :: d : e"),
        vec![
            ident("f"),
            Token::ArrowFunction,
            Token::Op(Operator::Not),
            ident("a"),
            Token::Op(Operator::And),
            ident("b"),
            Token::Op(Operator::Or),
            ident("c"),
            Token::ColonColon,
            ident("d"),
            Token::Colon,
            ident("e"),
        ]
    );
}

#[test]
fn strings_and_their_positions() {
    let got = lex("s = 'hi'");
    assert_eq!(got[2], Ok((Token::StringLiteral("hi".to_string()), (1, 5, 5, 3))));
    assert_eq!(tokens("\"a'b\""), vec![Token::StringLiteral("a'b".to_string())]);
    assert_eq!(tokens("[[one\ntwo]]"), vec![Token::StringLiteral("one\ntwo".to_string())]);
}

#[test]
fn numbers() {
    assert_eq!(tokens("42"), vec![Token::Integer(42)]);
    assert_eq!(tokens("3.25"), vec![Token::Number("3.25".to_string())]);
    assert_eq!(tokens(".5"), vec![Token::Number(".5".to_string())]);
}

#[test]
fn malformed_numbers_are_errors() {
    let got = lex("1.2.3");
    assert_eq!(got[0], Err((SiltError::InvalidNumber("1.2".to_string()), (1, 0))));
    let got = lex("12abc");
    assert_eq!(got[0], Err((SiltError::InvalidNumber("12".to_string()), (1, 0))));
}

#[test]
fn comments_are_skipped() {
    let got = lex("x -- note\ny");
    assert_eq!(got, vec![Ok((ident("x"), (1, 1, 0, 1))), Ok((ident("y"), (2, 1, 10, 1)))]);
}

#[test]
fn flag_comment_is_consumed() {
    let got = lex("--!strict\nx");
    assert_eq!(got, vec![Ok((ident("x"), (2, 1, 10, 1)))]);
}

#[test]
fn unexpected_character_is_reported_and_skipped() {
    let got = lex("@ a");
    assert_eq!(got[0], Err((SiltError::UnexpectedCharacter('@'), (1, 0))));
    assert_eq!(got[1], Ok((ident("a"), (1, 3, 2, 1))));
}

#[test]
fn string_broken_by_newline_is_unterminated() {
    let got = lex("'ab\nc'");
    assert!(matches!(got[0], Err((SiltError::UnterminatedString, _))));
}

#[test]
fn string_cut_by_end_of_source_loses_its_last_character() {
    assert_eq!(lex("'abc"), vec![Ok((Token::StringLiteral("ab".to_string()), (1, 1, 1, 3)))]);
    assert_eq!(tokens("[[ab]"), vec![Token::StringLiteral("a".to_string())]);
}

#[test]
fn bare_quote_at_end_of_source_is_unterminated() {
    assert_eq!(lex("'"), vec![Err((SiltError::UnterminatedString, (1, 1)))]);
    assert!(matches!(lex("[[")[0], Err((SiltError::UnterminatedString, _))));
}

#[test]
fn empty_source_has_no_tokens() {
    assert!(lex("").is_empty());
    assert!(lex("   \n\t ").is_empty());
}

#[test]
fn lexical_errors_in_order() {
    let errs = silt_lua::lsp::lexical_errors("a @ b\n@");
    assert_eq!(errs.len(), 2);
    assert_eq!(errs[0].code, SiltError::UnexpectedCharacter('@'));
    assert_eq!(errs[0].location.0, 1);
    assert_eq!(errs[1].code, SiltError::UnexpectedCharacter('@'));
    assert_eq!(errs[1].location.0, 2);
    assert!(silt_lua::lsp::lexical_errors("local x = 1").is_empty());
}

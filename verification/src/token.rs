//! Lexical tokens produced by the lexer.

use vstd::prelude::*;
use vstd::string::*;
use crate::text::{i64_to_decimal, signed_decimal};

verus! {

/// A token of silt's Lua dialect.
///
/// A float literal is carried as the decimal text that the lexer accepted for it
/// (`Number`); turning that text into a machine float is left to the runtime that
/// evaluates it.
#[derive(Debug, PartialEq)]
pub enum Token {
    Print,
    Identifier(String),
    Break,
    Do,
    If,
    Else,
    ElseIf,
    End,
    For,
    While,
    Function,
    ArrowFunction,
    In,
    Local,
    Goto,
    Repeat,
    Until,
    Return,
    Then,
    Dot,
    Assign,
    Op(Operator),
    AddAssign,
    SubAssign,
    MultiplyAssign,
    DivideAssign,
    ModulusAssign,
    Colon,
    ColonColon,
    ColonIdentifier(String),
    OpenParen,
    CloseParen,
    OpenBracket,
    CloseBracket,
    OpenBrace,
    CloseBrace,
    SemiColon,
    Comma,
    Nil,
    Number(String),
    Integer(i64),
    StringLiteral(String),
    True,
    False,
    Comment,
    EOF,
    Class,
    Global,
    Flag(Flag),
    Type,
}

/// Operators of the language.
#[derive(Debug, Clone, Copy, PartialEq, Eq, Structural)]
pub enum Operator {
    Not,
    Tilde,
    And,
    Or,
    Add,
    Sub,
    Multiply,
    Divide,
    FloorDivide,
    Modulus,
    Exponent,
    Concat,
    Equal,
    NotEqual,
    Less,
    LessEqual,
    Greater,
    GreaterEqual,
    Length,
    ColonEquals,
}

/// Flags that a `--!` comment can set.
#[derive(Debug, Clone, Copy, PartialEq, Eq, Structural)]
pub enum Flag {
    Strict,
    Local,
}

impl Token {
    /// The name held by an identifier token.
    pub fn unwrap_identifier(&self) -> (name: &String)
        requires
            self is Identifier,
        ensures
            *name == self->Identifier_0,
    {
        match self {
            Token::Identifier(s) => s,
            _ => vstd::pervasive::unreached(),
        }
    }
}

/// The mathematical view of a [`Token`]: strings are seen as their characters.
pub enum TokenView {
    Print,
    Identifier(Seq<char>),
    Break,
    Do,
    If,
    Else,
    ElseIf,
    End,
    For,
    While,
    Function,
    ArrowFunction,
    In,
    Local,
    Goto,
    Repeat,
    Until,
    Return,
    Then,
    Dot,
    Assign,
    Op(Operator),
    AddAssign,
    SubAssign,
    MultiplyAssign,
    DivideAssign,
    ModulusAssign,
    Colon,
    ColonColon,
    ColonIdentifier(Seq<char>),
    OpenParen,
    CloseParen,
    OpenBracket,
    CloseBracket,
    OpenBrace,
    CloseBrace,
    SemiColon,
    Comma,
    Nil,
    Number(Seq<char>),
    Integer(i64),
    StringLiteral(Seq<char>),
    True,
    False,
    Comment,
    EOF,
    Class,
    Global,
    Flag(Flag),
    Type,
}

impl View for Token {
    type V = TokenView;

    open spec fn view(&self) -> TokenView {
        match self {
            Token::Print => TokenView::Print,
            Token::Identifier(a0) => TokenView::Identifier(a0@),
            Token::Break => TokenView::Break,
            Token::Do => TokenView::Do,
            Token::If => TokenView::If,
            Token::Else => TokenView::Else,
            Token::ElseIf => TokenView::ElseIf,
            Token::End => TokenView::End,
            Token::For => TokenView::For,
            Token::While => TokenView::While,
            Token::Function => TokenView::Function,
            Token::ArrowFunction => TokenView::ArrowFunction,
            Token::In => TokenView::In,
            Token::Local => TokenView::Local,
            Token::Goto => TokenView::Goto,
            Token::Repeat => TokenView::Repeat,
            Token::Until => TokenView::Until,
            Token::Return => TokenView::Return,
            Token::Then => TokenView::Then,
            Token::Dot => TokenView::Dot,
            Token::Assign => TokenView::Assign,
            Token::Op(a0) => TokenView::Op(*a0),
            Token::AddAssign => TokenView::AddAssign,
            Token::SubAssign => TokenView::SubAssign,
            Token::MultiplyAssign => TokenView::MultiplyAssign,
            Token::DivideAssign => TokenView::DivideAssign,
            Token::ModulusAssign => TokenView::ModulusAssign,
            Token::Colon => TokenView::Colon,
            Token::ColonColon => TokenView::ColonColon,
            Token::ColonIdentifier(a0) => TokenView::ColonIdentifier(a0@),
            Token::OpenParen => TokenView::OpenParen,
            Token::CloseParen => TokenView::CloseParen,
            Token::OpenBracket => TokenView::OpenBracket,
            Token::CloseBracket => TokenView::CloseBracket,
            Token::OpenBrace => TokenView::OpenBrace,
            Token::CloseBrace => TokenView::CloseBrace,
            Token::SemiColon => TokenView::SemiColon,
            Token::Comma => TokenView::Comma,
            Token::Nil => TokenView::Nil,
            Token::Number(a0) => TokenView::Number(a0@),
            Token::Integer(a0) => TokenView::Integer(*a0),
            Token::StringLiteral(a0) => TokenView::StringLiteral(a0@),
            Token::True => TokenView::True,
            Token::False => TokenView::False,
            Token::Comment => TokenView::Comment,
            Token::EOF => TokenView::EOF,
            Token::Class => TokenView::Class,
            Token::Global => TokenView::Global,
            Token::Flag(a0) => TokenView::Flag(*a0),
            Token::Type => TokenView::Type,
        }
    }
}

impl Clone for Token {
    fn clone(&self) -> (r: Self)
        ensures
            r == *self,
    {
        match self {
            Token::Print => Token::Print,
            Token::Identifier(a0) => Token::Identifier(a0.clone()),
            Token::Break => Token::Break,
            Token::Do => Token::Do,
            Token::If => Token::If,
            Token::Else => Token::Else,
            Token::ElseIf => Token::ElseIf,
            Token::End => Token::End,
            Token::For => Token::For,
            Token::While => Token::While,
            Token::Function => Token::Function,
            Token::ArrowFunction => Token::ArrowFunction,
            Token::In => Token::In,
            Token::Local => Token::Local,
            Token::Goto => Token::Goto,
            Token::Repeat => Token::Repeat,
            Token::Until => Token::Until,
            Token::Return => Token::Return,
            Token::Then => Token::Then,
            Token::Dot => Token::Dot,
            Token::Assign => Token::Assign,
            Token::Op(a0) => Token::Op(*a0),
            Token::AddAssign => Token::AddAssign,
            Token::SubAssign => Token::SubAssign,
            Token::MultiplyAssign => Token::MultiplyAssign,
            Token::DivideAssign => Token::DivideAssign,
            Token::ModulusAssign => Token::ModulusAssign,
            Token::Colon => Token::Colon,
            Token::ColonColon => Token::ColonColon,
            Token::ColonIdentifier(a0) => Token::ColonIdentifier(a0.clone()),
            Token::OpenParen => Token::OpenParen,
            Token::CloseParen => Token::CloseParen,
            Token::OpenBracket => Token::OpenBracket,
            Token::CloseBracket => Token::CloseBracket,
            Token::OpenBrace => Token::OpenBrace,
            Token::CloseBrace => Token::CloseBrace,
            Token::SemiColon => Token::SemiColon,
            Token::Comma => Token::Comma,
            Token::Nil => Token::Nil,
            Token::Number(a0) => Token::Number(a0.clone()),
            Token::Integer(a0) => Token::Integer(*a0),
            Token::StringLiteral(a0) => Token::StringLiteral(a0.clone()),
            Token::True => Token::True,
            Token::False => Token::False,
            Token::Comment => Token::Comment,
            Token::EOF => Token::EOF,
            Token::Class => Token::Class,
            Token::Global => Token::Global,
            Token::Flag(a0) => Token::Flag(*a0),
            Token::Type => Token::Type,
        }
    }
}


/// How an operator is written in messages.
pub open spec fn operator_text(o: Operator) -> Seq<char> {
    match o {
        Operator::Not => "not"@,
        Operator::Tilde => "~"@,
        Operator::And => "and"@,
        Operator::Or => "or"@,
        Operator::Add => "+"@,
        Operator::Sub => "-"@,
        Operator::Multiply => "*"@,
        Operator::Divide => "/"@,
        Operator::FloorDivide => "//"@,
        Operator::Modulus => "%"@,
        Operator::Exponent => "^"@,
        Operator::Concat => ".."@,
        Operator::Equal => "=="@,
        Operator::NotEqual => "~="@,
        Operator::Less => "<"@,
        Operator::LessEqual => "<="@,
        Operator::Greater => ">"@,
        Operator::GreaterEqual => ">="@,
        Operator::Length => "#"@,
        Operator::ColonEquals => ":="@,
    }
}

/// How a flag is written in messages.
pub open spec fn flag_text(f: Flag) -> Seq<char> {
    match f {
        Flag::Strict => "strict"@,
        Flag::Local => "local"@,
    }
}

/// How a token is written in messages. A float literal is shown as its source
/// text followed by `f`.
pub open spec fn token_text(t: TokenView) -> Seq<char> {
    match t {
        TokenView::Op(o) => operator_text(o),
        TokenView::Identifier(s) => "ident("@ + s + ")"@,
        TokenView::StringLiteral(s) => "string("@ + s + ")"@,
        TokenView::ColonIdentifier(s) => ":"@ + s,
        TokenView::Number(s) => s + "f"@,
        TokenView::Integer(i) => signed_decimal(i as int) + "i"@,
        TokenView::Flag(f) => "flag("@ + flag_text(f) + ")"@,
        TokenView::Print => "print"@,
        TokenView::Break => "break"@,
        TokenView::Do => "do"@,
        TokenView::If => "if"@,
        TokenView::Else => "else"@,
        TokenView::ElseIf => "elseif"@,
        TokenView::End => "end"@,
        TokenView::For => "for"@,
        TokenView::While => "while"@,
        TokenView::Function => "function"@,
        TokenView::ArrowFunction => "arrow function"@,
        TokenView::In => "in"@,
        TokenView::Local => "local"@,
        TokenView::Nil => "nil"@,
        TokenView::Repeat => "repeat"@,
        TokenView::Until => "until"@,
        TokenView::Return => "return"@,
        TokenView::Then => "then"@,
        TokenView::True => "true"@,
        TokenView::False => "false"@,
        TokenView::Goto => "goto"@,
        TokenView::Assign => "::="@,
        TokenView::AddAssign => "+="@,
        TokenView::SubAssign => "-="@,
        TokenView::MultiplyAssign => "*="@,
        TokenView::DivideAssign => "/="@,
        TokenView::ModulusAssign => "%="@,
        TokenView::Colon => ":"@,
        TokenView::ColonColon => "::"@,
        TokenView::Class => "class"@,
        TokenView::OpenParen => "("@,
        TokenView::CloseParen => ")"@,
        TokenView::OpenBrace => "{"@,
        TokenView::CloseBrace => "}"@,
        TokenView::SemiColon => ";"@,
        TokenView::Comma => ","@,
        TokenView::OpenBracket => "["@,
        TokenView::CloseBracket => "]"@,
        TokenView::Dot => "call"@,
        TokenView::Type => "type"@,
        TokenView::Global => "global"@,
        TokenView::Comment => "--"@,
        TokenView::EOF => "EOF"@,
    }
}

impl Operator {
    /// The operator as written in messages.
    pub fn to_string(&self) -> (r: String)
        ensures
            r@ == operator_text(*self),
    {
        let s: &str = match self {
            Operator::Not => "not",
            Operator::Tilde => "~",
            Operator::And => "and",
            Operator::Or => "or",
            Operator::Add => "+",
            Operator::Sub => "-",
            Operator::Multiply => "*",
            Operator::Divide => "/",
            Operator::FloorDivide => "//",
            Operator::Modulus => "%",
            Operator::Exponent => "^",
            Operator::Concat => "..",
            Operator::Equal => "==",
            Operator::NotEqual => "~=",
            Operator::Less => "<",
            Operator::LessEqual => "<=",
            Operator::Greater => ">",
            Operator::GreaterEqual => ">=",
            Operator::Length => "#",
            Operator::ColonEquals => ":=",
        };
        String::from_str(s)
    }
}

impl Flag {
    /// The flag as written in messages.
    pub fn to_string(&self) -> (r: String)
        ensures
            r@ == flag_text(*self),
    {
        match self {
            Flag::Strict => String::from_str("strict"),
            Flag::Local => String::from_str("local"),
        }
    }
}

impl Token {
    /// The token as written in messages.
    pub fn to_string(&self) -> (r: String)
        ensures
            r@ == token_text(self@),
    {
        match self {
            Token::Op(o) => o.to_string(),
            Token::Identifier(s) => {
                let mut r = String::from_str("ident(");
                r.append(s.as_str());
                r.append(")");
                r
            },
            Token::StringLiteral(s) => {
                let mut r = String::from_str("string(");
                r.append(s.as_str());
                r.append(")");
                r
            },
            Token::ColonIdentifier(s) => {
                let mut r = String::from_str(":");
                r.append(s.as_str());
                r
            },
            Token::Number(s) => {
                let mut r = s.clone();
                r.append("f");
                r
            },
            Token::Integer(i) => {
                let mut r = i64_to_decimal(*i);
                r.append("i");
                r
            },
            Token::Flag(f) => {
                let mut r = String::from_str("flag(");
                let t = f.to_string();
                r.append(t.as_str());
                r.append(")");
                r
            },
            Token::Print => String::from_str("print"),
            Token::Break => String::from_str("break"),
            Token::Do => String::from_str("do"),
            Token::If => String::from_str("if"),
            Token::Else => String::from_str("else"),
            Token::ElseIf => String::from_str("elseif"),
            Token::End => String::from_str("end"),
            Token::For => String::from_str("for"),
            Token::While => String::from_str("while"),
            Token::Function => String::from_str("function"),
            Token::ArrowFunction => String::from_str("arrow function"),
            Token::In => String::from_str("in"),
            Token::Local => String::from_str("local"),
            Token::Nil => String::from_str("nil"),
            Token::Repeat => String::from_str("repeat"),
            Token::Until => String::from_str("until"),
            Token::Return => String::from_str("return"),
            Token::Then => String::from_str("then"),
            Token::True => String::from_str("true"),
            Token::False => String::from_str("false"),
            Token::Goto => String::from_str("goto"),
            Token::Assign => String::from_str("::="),
            Token::AddAssign => String::from_str("+="),
            Token::SubAssign => String::from_str("-="),
            Token::MultiplyAssign => String::from_str("*="),
            Token::DivideAssign => String::from_str("/="),
            Token::ModulusAssign => String::from_str("%="),
            Token::Colon => String::from_str(":"),
            Token::ColonColon => String::from_str("::"),
            Token::Class => String::from_str("class"),
            Token::OpenParen => String::from_str("("),
            Token::CloseParen => String::from_str(")"),
            Token::OpenBrace => String::from_str("{"),
            Token::CloseBrace => String::from_str("}"),
            Token::SemiColon => String::from_str(";"),
            Token::Comma => String::from_str(","),
            Token::OpenBracket => String::from_str("["),
            Token::CloseBracket => String::from_str("]"),
            Token::Dot => String::from_str("call"),
            Token::Type => String::from_str("type"),
            Token::Global => String::from_str("global"),
            Token::Comment => String::from_str("--"),
            Token::EOF => String::from_str("EOF"),
        }
    }
}

} // verus!

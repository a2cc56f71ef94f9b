//! The lexer: turns source text into tokens with their locations.

use vstd::prelude::*;
use vstd::string::*;
use crate::error::{ErrorTuple, SiltError, SiltErrorView, TokenTriple};
use crate::text::{chars_of, string_from_range};
use crate::token::{Flag, Operator, Token, TokenView};

verus! {

/// What the lexer is in the middle of.
#[derive(Debug, Clone, Copy, PartialEq, Eq, Structural)]
pub enum Mode {
    Normal,
    /// Reading the words of a `--!` flag comment.
    Flag,
}

/// A lexer over the characters of a source text. `current` is the next character
/// to read; a token spans `start..current`; lines and columns are counted as the
/// characters are consumed.
pub struct Lexer {
    pub source: Vec<char>,
    pub start: usize,
    pub end: usize,
    pub current: usize,
    pub line: usize,
    pub column: usize,
    pub column_start: usize,
    pub mode: Mode,
}

/// The state of a [`Lexer`], with the source seen as its characters.
pub struct LexState {
    pub source: Seq<char>,
    pub start: usize,
    pub end: usize,
    pub current: usize,
    pub line: usize,
    pub column: usize,
    pub column_start: usize,
    pub mode: Mode,
}

impl View for Lexer {
    type V = LexState;

    open spec fn view(&self) -> LexState {
        LexState {
            source: self.source@,
            start: self.start,
            end: self.end,
            current: self.current,
            line: self.line,
            column: self.column,
            column_start: self.column_start,
            mode: self.mode,
        }
    }
}

/// A token with its location, or an error with its location.
pub type TokenResult = Result<(Token, TokenTriple), ErrorTuple>;

/// The view of a [`TokenResult`].
pub type LexOut = Result<(TokenView, TokenTriple), (SiltErrorView, (usize, usize))>;

/// The view of one lexing result.
pub open spec fn view_out(r: TokenResult) -> LexOut {
    match r {
        Ok((t, tri)) => Ok((t@, tri)),
        Err(e) => Err((e.code@, e.location)),
    }
}

/// The view of an optional lexing result.
pub open spec fn view_opt(r: Option<TokenResult>) -> Option<LexOut> {
    match r {
        Some(x) => Some(view_out(x)),
        None => None,
    }
}

// ---------------------------------------------------------------------------
// Character classes
// ---------------------------------------------------------------------------

/// An ASCII letter.
pub open spec fn is_letter(c: char) -> bool {
    ('a' <= c && c <= 'z') || ('A' <= c && c <= 'Z')
}

/// An ASCII digit.
pub open spec fn is_digit_char(c: char) -> bool {
    '0' <= c && c <= '9'
}

/// A character that can start an identifier.
pub open spec fn is_ident_start(c: char) -> bool {
    c == '_' || is_letter(c)
}

/// A character that can continue an identifier.
pub open spec fn is_ident_char(c: char) -> bool {
    is_ident_start(c) || is_digit_char(c)
}

fn letter(c: char) -> (r: bool)
    ensures
        r == is_letter(c),
{
    ('a' <= c && c <= 'z') || ('A' <= c && c <= 'Z')
}

fn digit(c: char) -> (r: bool)
    ensures
        r == is_digit_char(c),
{
    '0' <= c && c <= '9'
}

fn ident_char(c: char) -> (r: bool)
    ensures
        r == is_ident_char(c),
{
    c == '_' || letter(c) || digit(c)
}

/// The token a word stands for: a keyword, else an identifier.
pub open spec fn keyword(w: Seq<char>) -> TokenView {
    if w == "if"@ { TokenView::If }
    else if w == "else"@ { TokenView::Else }
    else if w == "elseif"@ { TokenView::ElseIf }
    else if w == "end"@ { TokenView::End }
    else if w == "for"@ { TokenView::For }
    else if w == "while"@ { TokenView::While }
    else if w == "function"@ { TokenView::Function }
    else if w == "in"@ { TokenView::In }
    else if w == "local"@ { TokenView::Local }
    else if w == "nil"@ { TokenView::Nil }
    else if w == "not"@ { TokenView::Op(Operator::Not) }
    else if w == "or"@ { TokenView::Op(Operator::Or) }
    else if w == "repeat"@ { TokenView::Repeat }
    else if w == "until"@ { TokenView::Until }
    else if w == "return"@ { TokenView::Return }
    else if w == "then"@ { TokenView::Then }
    else if w == "true"@ { TokenView::True }
    else if w == "false"@ { TokenView::False }
    else if w == "and"@ { TokenView::Op(Operator::And) }
    else if w == "break"@ { TokenView::Break }
    else if w == "do"@ { TokenView::Do }
    else if w == "goto"@ { TokenView::Goto }
    else if w == "class"@ { TokenView::Class }
    else if w == "sprint"@ { TokenView::Print }
    else { TokenView::Identifier(w) }
}

/// Equality of a character sequence with a literal.
fn chars_eq(cs: &Vec<char>, from: usize, to: usize, lit: &str) -> (r: bool)
    requires
        from <= to <= cs@.len(),
    ensures
        r == (cs@.subrange(from as int, to as int) == lit@),
{
    let n = lit.unicode_len();
    if to - from != n {
        proof {
            assert(cs@.subrange(from as int, to as int).len() != lit@.len());
        }
        return false;
    }
    let mut i: usize = 0;
    while i < n
        invariant
            from <= to <= cs@.len(),
            to - from == n,
            n == lit@.len(),
            i <= n,
            forall|j: int| 0 <= j < i ==> cs@[from + j] == lit@[j],
        decreases n - i,
    {
        if cs[from + i] != lit.get_char(i) {
            proof {
                assert(cs@.subrange(from as int, to as int)[i as int] != lit@[i as int]);
            }
            return false;
        }
        i += 1;
    }
    proof {
        assert(cs@.subrange(from as int, to as int) =~= lit@);
    }
    true
}

/// The token for the word `cs[from..to]`.
fn keyword_token(cs: &Vec<char>, from: usize, to: usize) -> (t: Token)
    requires
        from <= to <= cs@.len(),
    ensures
        t@ == keyword(cs@.subrange(from as int, to as int)),
{
    if chars_eq(cs, from, to, "if") { Token::If }
    else if chars_eq(cs, from, to, "else") { Token::Else }
    else if chars_eq(cs, from, to, "elseif") { Token::ElseIf }
    else if chars_eq(cs, from, to, "end") { Token::End }
    else if chars_eq(cs, from, to, "for") { Token::For }
    else if chars_eq(cs, from, to, "while") { Token::While }
    else if chars_eq(cs, from, to, "function") { Token::Function }
    else if chars_eq(cs, from, to, "in") { Token::In }
    else if chars_eq(cs, from, to, "local") { Token::Local }
    else if chars_eq(cs, from, to, "nil") { Token::Nil }
    else if chars_eq(cs, from, to, "not") { Token::Op(Operator::Not) }
    else if chars_eq(cs, from, to, "or") { Token::Op(Operator::Or) }
    else if chars_eq(cs, from, to, "repeat") { Token::Repeat }
    else if chars_eq(cs, from, to, "until") { Token::Until }
    else if chars_eq(cs, from, to, "return") { Token::Return }
    else if chars_eq(cs, from, to, "then") { Token::Then }
    else if chars_eq(cs, from, to, "true") { Token::True }
    else if chars_eq(cs, from, to, "false") { Token::False }
    else if chars_eq(cs, from, to, "and") { Token::Op(Operator::And) }
    else if chars_eq(cs, from, to, "break") { Token::Break }
    else if chars_eq(cs, from, to, "do") { Token::Do }
    else if chars_eq(cs, from, to, "goto") { Token::Goto }
    else if chars_eq(cs, from, to, "class") { Token::Class }
    else if chars_eq(cs, from, to, "sprint") { Token::Print }
    else { Token::Identifier(string_from_range(cs, from, to)) }
}

/// The decimal value of a string of digits.
pub open spec fn digits_value(s: Seq<char>) -> int
    decreases s.len(),
{
    if s.len() == 0 {
        0
    } else {
        digits_value(s.drop_last()) * 10 + (s.last() as int - '0' as int)
    }
}

proof fn lemma_digits_value_nonneg(s: Seq<char>)
    requires
        forall|i: int| 0 <= i < s.len() ==> is_digit_char(#[trigger] s[i]),
    ensures
        digits_value(s) >= 0,
    decreases s.len(),
{
    if s.len() > 0 {
        lemma_digits_value_nonneg(s.drop_last());
    }
}

proof fn lemma_digits_prefix(s: Seq<char>, k: int)
    requires
        0 <= k <= s.len(),
        forall|i: int| 0 <= i < s.len() ==> is_digit_char(#[trigger] s[i]),
    ensures
        digits_value(s.take(k)) <= digits_value(s),
    decreases s.len(),
{
    if k < s.len() {
        assert(s.drop_last().take(k) =~= s.take(k));
        lemma_digits_prefix(s.drop_last(), k);
        lemma_digits_value_nonneg(s.drop_last());
    } else {
        assert(s.take(k) =~= s);
    }
}

/// The value of the digits `cs[from..to]` when it fits an `i64`.
fn parse_digits(cs: &Vec<char>, from: usize, to: usize) -> (r: Option<i64>)
    requires
        from <= to <= cs@.len(),
        forall|i: int| from <= i < to ==> is_digit_char(#[trigger] cs@[i]),
    ensures
        match r {
            Some(n) => n as int == digits_value(cs@.subrange(from as int, to as int)),
            None => digits_value(cs@.subrange(from as int, to as int)) > i64::MAX,
        },
{
    let mut acc: i64 = 0;
    let mut i = from;
    while i < to
        invariant
            from <= i <= to <= cs@.len(),
            forall|k: int| from <= k < to ==> is_digit_char(#[trigger] cs@[k]),
            acc as int == digits_value(cs@.subrange(from as int, i as int)),
            acc >= 0,
        decreases to - i,
    {
        let d = (cs[i] as u32 - '0' as u32) as i64;
        proof {
            assert(cs@.subrange(from as int, i + 1).drop_last() =~= cs@.subrange(from as int, i as int));
        }
        if acc > (i64::MAX - d) / 10 {
            proof {
                let whole = cs@.subrange(from as int, to as int);
                assert(cs@.subrange(from as int, i + 1) =~= whole.take(i + 1 - from));
                lemma_digits_prefix(whole, i + 1 - from);
            }
            return None;
        }
        acc = acc * 10 + d;
        i += 1;
    }
    Some(acc)
}

// ---------------------------------------------------------------------------
// The lexer's steps, as state transitions
// ---------------------------------------------------------------------------

/// Lexer states that the lexer keeps: the end is the source length, positions stay
/// within it (reading may step one past it), and lines and columns stay below the
/// number of characters read so far plus one.
pub open spec fn lexer_wf(lx: LexState) -> bool {
    &&& lx.end == lx.source.len()
    &&& lx.source.len() + 4 < usize::MAX
    &&& lx.current <= lx.end + 1
    &&& lx.start <= lx.current
    &&& lx.line <= lx.current + 1
    &&& lx.column <= lx.current + 1
    &&& lx.column_start <= lx.end + 2
}

/// [`lexer_wf`], where a line was just counted and its newline not read yet.
pub open spec fn lexer_pre(lx: LexState) -> bool {
    &&& lx.end == lx.source.len()
    &&& lx.source.len() + 4 < usize::MAX
    &&& lx.current <= lx.end + 1
    &&& lx.start <= lx.current
    &&& lx.line <= lx.current + 2
    &&& lx.column <= lx.current + 1
    &&& lx.column_start <= lx.end + 2
}

/// The character at the lexer's position, if any.
pub open spec fn sp_peek(lx: LexState) -> Option<char> {
    if lx.current < lx.source.len() { Some(lx.source[lx.current as int]) } else { None }
}

/// A token starts at the lexer's position.
pub open spec fn sp_set_start(lx: LexState) -> LexState {
    LexState { start: lx.current, column_start: lx.column, ..lx }
}

/// One character is read.
pub open spec fn sp_eat(lx: LexState) -> LexState {
    LexState { current: (lx.current + 1) as usize, column: (lx.column + 1) as usize, ..lx }
}

/// A line is counted; the column starts over, so that the first character of
/// the next line is at column 1.
pub open spec fn sp_new_line(lx: LexState) -> LexState {
    LexState { line: (lx.line + 1) as usize, column: 0, ..lx }
}

/// The characters of the current token.
pub open spec fn sp_sofar(lx: LexState) -> Seq<char> {
    lx.source.subrange(lx.start as int, lx.current as int)
}

/// The current token, located at the lexer's position.
pub open spec fn sp_send(lx: LexState, t: TokenView) -> LexOut {
    Ok((t, TokenTriple {
        line: lx.line,
        col: (lx.column_start + 1) as usize,
        index: lx.start,
        length: (lx.current - lx.start) as usize,
    }))
}

/// An error, located at the start of the current token.
pub open spec fn sp_error(lx: LexState, e: SiltErrorView) -> LexOut {
    Err((e, (lx.line, lx.start)))
}

/// Consume identifier characters.
pub open spec fn sp_word_eater(lx: LexState) -> LexState
    decreases lx.source.len() - lx.current,
{
    if lx.current < lx.end && lx.current < lx.source.len() && is_ident_char(lx.source[lx.current as int]) {
        sp_word_eater(sp_eat(lx))
    } else {
        lx
    }
}

/// The rest of a number literal; `is_float` once a `.` was read.
pub open spec fn sp_number_rest(lx: LexState, is_float: bool) -> (Option<LexOut>, LexState)
    decreases lx.source.len() - lx.current,
{
    if lx.current < lx.end && lx.current < lx.source.len() {
        let c = lx.source[lx.current as int];
        if is_digit_char(c) {
            sp_number_rest(sp_eat(lx), is_float)
        } else if c == '.' {
            if is_float {
                (Some(sp_error(lx, SiltErrorView::InvalidNumber(sp_sofar(lx)))), lx)
            } else {
                sp_number_rest(sp_eat(lx), true)
            }
        } else if is_letter(c) || c == '_' {
            (Some(sp_error(lx, SiltErrorView::InvalidNumber(sp_sofar(lx)))), lx)
        } else {
            sp_number_end(lx, is_float)
        }
    } else {
        sp_number_end(lx, is_float)
    }
}

/// A complete number literal: a float keeps its text, an integer must fit `i64`.
pub open spec fn sp_number_end(lx: LexState, is_float: bool) -> (Option<LexOut>, LexState) {
    let cc = sp_sofar(lx);
    if is_float {
        (Some(sp_send(lx, TokenView::Number(cc))), lx)
    } else if digits_value(cc) <= i64::MAX {
        (Some(sp_send(lx, TokenView::Integer(digits_value(cc) as i64))), lx)
    } else {
        (Some(sp_error(lx, SiltErrorView::NotANumber(cc))), lx)
    }
}

/// A number literal; with `prefix_dot` its `.` was already read.
pub open spec fn sp_number(lx: LexState, prefix_dot: bool) -> (Option<LexOut>, LexState) {
    let l1 = if prefix_dot {
        LexState { start: (lx.current - 1) as usize, column_start: (lx.column - 1) as usize, ..lx }
    } else {
        sp_set_start(lx)
    };
    sp_number_rest(sp_eat(l1), prefix_dot)
}

/// The body of a quoted string; `apos` for `'...'`. A line break inside is an
/// error. At the end of the source the string ends with its last character
/// dropped, as if that were the closing quote; with nothing after the quote it
/// is unterminated.
pub open spec fn sp_string_rest(lx: LexState, apos: bool) -> (Option<LexOut>, LexState)
    decreases lx.source.len() - lx.current,
{
    if lx.current < lx.end && lx.current < lx.source.len() {
        let c = lx.source[lx.current as int];
        if c == '\n' {
            (Some(sp_error(lx, SiltErrorView::UnterminatedString)), lx)
        } else if c == '\'' && apos {
            sp_string_end(sp_eat(lx))
        } else if c == '"' && !apos {
            sp_string_end(sp_eat(lx))
        } else {
            sp_string_rest(sp_eat(lx), apos)
        }
    } else if lx.current >= lx.start + 1 {
        sp_string_end(lx)
    } else {
        (Some(sp_error(lx, SiltErrorView::UnterminatedString)), lx)
    }
}

/// A closed string: its text lies between the quotes.
pub open spec fn sp_string_end(lx: LexState) -> (Option<LexOut>, LexState) {
    (Some(sp_send(lx, TokenView::StringLiteral(lx.source.subrange(lx.start as int, lx.current - 1)))), lx)
}

/// A quoted string; the token's column is that of the opening quote.
pub open spec fn sp_string(lx: LexState, apos: bool) -> (Option<LexOut>, LexState) {
    let l1 = sp_eat(LexState { column_start: lx.column, ..lx });
    sp_string_rest(LexState { start: l1.current, ..l1 }, apos)
}

/// The body of a `[[...]]` string. At the end of the source the string ends
/// with its last two characters dropped, as if they were the closing `]]`; with
/// fewer than two after the opening it is unterminated.
pub open spec fn sp_long_rest(lx: LexState) -> (Option<LexOut>, LexState)
    decreases lx.source.len() - lx.current,
{
    if lx.current < lx.end && lx.current < lx.source.len() {
        let c = lx.source[lx.current as int];
        if c == '\n' {
            sp_long_rest(sp_new_line(sp_eat(lx)))
        } else if c == ']' {
            let l2 = sp_eat(lx);
            if sp_peek(l2) == Some(']') {
                let l3 = sp_eat(l2);
                (Some(sp_send(l3, TokenView::StringLiteral(l3.source.subrange(l3.start as int, l3.current - 2)))), l3)
            } else {
                sp_long_rest(l2)
            }
        } else {
            sp_long_rest(sp_eat(lx))
        }
    } else if lx.current >= lx.start + 2 {
        (Some(sp_send(lx, TokenView::StringLiteral(lx.source.subrange(lx.start as int, lx.current - 2)))), lx)
    } else {
        (Some(sp_error(lx, SiltErrorView::UnterminatedString)), lx)
    }
}

/// A `[[...]]` string, once the first `[` is read.
pub open spec fn sp_long_string(lx: LexState) -> (Option<LexOut>, LexState) {
    let l1 = sp_eat(LexState { column_start: lx.column, ..lx });
    sp_long_rest(LexState { start: l1.current, ..l1 })
}

/// ASCII lower case of a character.
pub open spec fn ascii_lower(c: char) -> char {
    if 'A' <= c && c <= 'Z' { ((c as u32) + 32) as char } else { c }
}

/// Do `w` and `lit` agree ignoring ASCII case?
pub open spec fn eq_ignore_case(w: Seq<char>, lit: Seq<char>) -> bool {
    w.len() == lit.len() && forall|i: int| 0 <= i < w.len() ==> ascii_lower(#[trigger] w[i]) == lit[i]
}

/// Reading the words of a `--!` flag comment. An identifier character is read
/// together with the character after it; any other character ends a word, and a
/// word that reads `strict` or `local` (ignoring case, the ending character
/// included) is a flag. A newline ends the flag comment.
pub open spec fn sp_flag_rest(lx: LexState) -> (Option<LexOut>, LexState)
    decreases lx.source.len() + 2 - lx.current,
{
    if lx.current < lx.end && lx.current < lx.source.len() && lx.source.len() + 4 < usize::MAX {
        let c = lx.source[lx.current as int];
        let l2 = sp_eat(lx);
        if is_ident_char(c) {
            sp_flag_rest(sp_eat(l2))
        } else if c == '\n' {
            (None, LexState { mode: Mode::Normal, ..sp_new_line(l2) })
        } else {
            let cc = sp_sofar(l2);
            if eq_ignore_case(cc, "strict"@) {
                (Some(sp_send(l2, TokenView::Flag(Flag::Strict))), l2)
            } else if eq_ignore_case(cc, "local"@) {
                (Some(sp_send(l2, TokenView::Flag(Flag::Local))), l2)
            } else {
                sp_flag_rest(sp_set_start(l2))
            }
        }
    } else {
        (None, lx)
    }
}

/// A `--!` flag comment, in flag mode.
pub open spec fn sp_get_flag(lx: LexState) -> (Option<LexOut>, LexState) {
    sp_flag_rest(LexState { mode: Mode::Flag, ..sp_set_start(lx) })
}

/// Skip the rest of a `--` comment line.
pub open spec fn sp_comment(lx: LexState) -> LexState
    decreases lx.source.len() - lx.current,
{
    if lx.current < lx.end && lx.current < lx.source.len() {
        let c = lx.source[lx.current as int];
        let l2 = sp_eat(lx);
        if c == '\n' { sp_new_line(l2) } else { sp_comment(l2) }
    } else {
        lx
    }
}

/// A one- or two-character operator: after `first`, a following `second` makes
/// it `two`, otherwise it is `one`.
pub open spec fn sp_pair(lx: LexState, second: char, two: TokenView, one: TokenView) -> (Option<LexOut>, LexState) {
    let l1 = sp_eat(lx);
    if sp_peek(l1) == Some(second) {
        let l2 = sp_eat(l1);
        (Some(sp_send(l2, two)), l2)
    } else {
        (Some(sp_send(l1, one)), l1)
    }
}

/// A one-character token.
pub open spec fn sp_single(lx: LexState, t: TokenView) -> (Option<LexOut>, LexState) {
    let l1 = sp_eat(lx);
    (Some(sp_send(l1, t)), l1)
}

/// What the character `c` at the token start leads to: a token or an error, or
/// `None` after skipped text (blanks, newlines, comments, flag comments without
/// a flag).
pub open spec fn sp_dispatch(lx: LexState, c: char) -> (Option<LexOut>, LexState) {
    if is_ident_start(c) {
        let l = sp_word_eater(sp_eat(lx));
        (Some(sp_send(l, keyword(sp_sofar(l)))), l)
    } else if is_digit_char(c) {
        sp_number(lx, false)
    } else if c == '.' {
        let l = sp_eat(lx);
        match sp_peek(l) {
            Some(d) => if is_digit_char(d) {
                sp_number(l, true)
            } else if d == '.' {
                let l2 = sp_eat(l);
                (Some(sp_send(l2, TokenView::Op(Operator::Concat))), l2)
            } else {
                (Some(sp_send(l, TokenView::Dot)), l)
            },
            None => (Some(sp_send(l, TokenView::Dot)), l),
        }
    } else if c == '=' {
        sp_pair(lx, '=', TokenView::Op(Operator::Equal), TokenView::Assign)
    } else if c == '+' {
        sp_pair(lx, '=', TokenView::AddAssign, TokenView::Op(Operator::Add))
    } else if c == '-' {
        let l = sp_eat(lx);
        if sp_peek(l) == Some('-') {
            let l2 = sp_eat(l);
            if sp_peek(l2) == Some('!') {
                sp_get_flag(sp_eat(l2))
            } else {
                (None, sp_comment(l2))
            }
        } else if sp_peek(l) == Some('=') {
            let l2 = sp_eat(l);
            (Some(sp_send(l2, TokenView::SubAssign)), l2)
        } else if sp_peek(l) == Some('>') {
            let l2 = sp_eat(l);
            (Some(sp_send(l2, TokenView::ArrowFunction)), l2)
        } else {
            (Some(sp_send(l, TokenView::Op(Operator::Sub))), l)
        }
    } else if c == '/' {
        sp_pair(lx, '=', TokenView::DivideAssign, TokenView::Op(Operator::Divide))
    } else if c == '*' {
        sp_pair(lx, '=', TokenView::MultiplyAssign, TokenView::Op(Operator::Multiply))
    } else if c == '%' {
        sp_pair(lx, '=', TokenView::ModulusAssign, TokenView::Op(Operator::Modulus))
    } else if c == '(' {
        sp_single(lx, TokenView::OpenParen)
    } else if c == ')' {
        sp_single(lx, TokenView::CloseParen)
    } else if c == ';' {
        sp_single(lx, TokenView::SemiColon)
    } else if c == ',' {
        sp_single(lx, TokenView::Comma)
    } else if c == '"' {
        sp_string(lx, false)
    } else if c == '\'' {
        sp_string(lx, true)
    } else if c == '<' {
        sp_pair(lx, '=', TokenView::Op(Operator::LessEqual), TokenView::Op(Operator::Less))
    } else if c == '>' {
        sp_pair(lx, '=', TokenView::Op(Operator::GreaterEqual), TokenView::Op(Operator::Greater))
    } else if c == '[' {
        let l = sp_eat(lx);
        if sp_peek(l) == Some('[') {
            sp_long_string(l)
        } else {
            (Some(sp_send(l, TokenView::OpenBracket)), l)
        }
    } else if c == ']' {
        sp_single(lx, TokenView::CloseBracket)
    } else if c == '{' {
        sp_single(lx, TokenView::OpenBrace)
    } else if c == '}' {
        sp_single(lx, TokenView::CloseBrace)
    } else if c == ' ' || c == '\r' || c == '\t' {
        (None, sp_eat(lx))
    } else if c == '\n' {
        (None, sp_new_line(sp_eat(lx)))
    } else if c == '#' {
        sp_single(lx, TokenView::Op(Operator::Length))
    } else if c == ':' {
        sp_pair(lx, ':', TokenView::ColonColon, TokenView::Colon)
    } else if c == '~' {
        sp_pair(lx, '=', TokenView::Op(Operator::NotEqual), TokenView::Op(Operator::Tilde))
    } else {
        (Some(sp_error(lx, SiltErrorView::UnexpectedCharacter(c))), sp_eat(lx))
    }
}

/// The next token from the lexer's position in normal mode, skipping blanks and
/// comments; `None` at the end of the source.
pub open spec fn sp_step(lx: LexState) -> (Option<LexOut>, LexState)
    decreases lx.source.len() + 2 - lx.current,
{
    if lx.current < lx.end && lx.current < lx.source.len() {
        let l1 = sp_set_start(lx);
        let (r, l2) = sp_dispatch(l1, lx.source[lx.current as int]);
        match r {
            Some(x) => (Some(x), l2),
            None => if lx.current < l2.current <= lx.source.len() + 1 && l2.source.len() == lx.source.len() {
                sp_step(l2)
            } else {
                (None, l2)
            },
        }
    } else {
        (None, lx)
    }
}

/// The next token from the lexer, in whichever mode it is.
pub open spec fn sp_next(lx: LexState) -> (Option<LexOut>, LexState) {
    if lx.current >= lx.end {
        (None, lx)
    } else {
        match lx.mode {
            Mode::Normal => sp_step(lx),
            Mode::Flag => {
                let (r, l) = sp_get_flag(lx);
                match r {
                    Some(x) => (Some(x), l),
                    None => sp_step(LexState { mode: Mode::Normal, ..l }),
                }
            },
        }
    }
}

// ---------------------------------------------------------------------------
// The executable lexer
// ---------------------------------------------------------------------------

impl Lexer {
    /// A lexer at the start of `source`.
    pub fn new(source: &str) -> (lx: Self)
        requires
            source@.len() + 4 < usize::MAX,
        ensures
            lexer_wf(lx@),
            lx.source@ == source@,
            lx.start == 0,
            lx.current == 0,
            lx.line == 1,
            lx.column == 0,
            lx.column_start == 0,
            lx.mode == Mode::Normal,
    {
        let chars = chars_of(source);
        let len = chars.len();
        Lexer { source: chars, start: 0, column: 0, column_start: 0, current: 0, end: len, line: 1, mode: Mode::Normal }
    }

    fn set_start(&mut self)
        ensures
            final(self)@ == sp_set_start(old(self)@),
    {
        self.start = self.current;
        self.column_start = self.column;
    }

    fn eat(&mut self)
        requires
            lexer_pre(old(self)@),
            old(self).current <= old(self).end,
        ensures
            final(self)@ == sp_eat(old(self)@),
            lexer_wf(final(self)@),
    {
        self.current += 1;
        self.column += 1;
    }

    /// Consume a character and return it.
    fn eat_out(&mut self) -> (c: Option<char>)
        requires
            lexer_wf(old(self)@),
            old(self).current <= old(self).end,
        ensures
            c == sp_peek(old(self)@),
            final(self)@ == sp_eat(old(self)@),
            lexer_wf(final(self)@),
    {
        let c = self.peek();
        self.eat();
        c
    }

    fn peek(&self) -> (c: Option<char>)
        ensures
            c == sp_peek(self@),
    {
        if self.current < self.source.len() { Some(self.source[self.current]) } else { None }
    }

    fn new_line(&mut self)
        requires
            old(self).line + 1 < usize::MAX,
        ensures
            final(self)@ == sp_new_line(old(self)@),
    {
        self.line += 1;
        self.column = 0;
    }

    /// The characters of the current token.
    fn get_sofar(&self) -> (s: String)
        requires
            lexer_wf(self@),
            self.current <= self.end,
        ensures
            s@ == sp_sofar(self@),
    {
        string_from_range(&self.source, self.start, self.current)
    }

    fn send(&self, t: Token) -> (r: TokenResult)
        requires
            lexer_wf(self@),
        ensures
            view_out(r) == sp_send(self@, t@),
    {
        Ok((t, TokenTriple {
            line: self.line,
            col: self.column_start + 1,
            index: self.start,
            length: self.current - self.start,
        }))
    }

    fn error(&self, code: SiltError) -> (r: TokenResult)
        ensures
            view_out(r) == sp_error(self@, code@),
    {
        Err(ErrorTuple { code, location: (self.line, self.start) })
    }

    fn word_eater(&mut self)
        requires
            lexer_wf(old(self)@),
        ensures
            lexer_wf(final(self)@),
            final(self)@ == sp_word_eater(old(self)@),
            final(self).source@ == old(self).source@,
            final(self).start == old(self).start,
            old(self).current <= final(self).current,
            old(self).current <= old(self).end ==> final(self).current <= final(self).end,
    {
        while self.current < self.end && ident_char(self.source[self.current])
            invariant
                lexer_wf(self@),
                sp_word_eater(old(self)@) == sp_word_eater(self@),
                self.source@ == old(self).source@,
                self.start == old(self).start,
                old(self).current <= self.current,
                old(self).current <= old(self).end ==> self.current <= self.end,
            decreases self.source@.len() - self.current,
        {
            self.eat();
        }
    }

    fn number_end(&self, is_float: bool) -> (r: TokenResult)
        requires
            lexer_wf(self@),
            self.current <= self.end,
            forall|i: int| self.start <= i < self.current ==> is_digit_char(#[trigger] self.source@[i]) || (is_float && self.source@[i] == '.'),
        ensures
            Some(view_out(r)) == sp_number_end(self@, is_float).0,
    {
        if is_float {
            return self.send(Token::Number(self.get_sofar()));
        }
        match parse_digits(&self.source, self.start, self.current) {
            Some(n) => self.send(Token::Integer(n)),
            None => self.error(SiltError::NotANumber(self.get_sofar())),
        }
    }

    fn number(&mut self, prefix_dot: bool) -> (r: Option<TokenResult>)
        requires
            lexer_wf(old(self)@),
            old(self).current < old(self).end,
            is_digit_char(old(self).source@[old(self).current as int]),
            prefix_dot ==> old(self).current >= 1 && old(self).column >= 1 && old(self).source@[old(self).current - 1] == '.',
        ensures
            lexer_wf(final(self)@),
            (view_opt(r), final(self)@) == sp_number(old(self)@, prefix_dot),
            old(self).current < final(self).current,
            final(self).source@ == old(self).source@,
    {
        if prefix_dot {
            self.start = self.current - 1;
            self.column_start = self.column - 1;
        } else {
            self.set_start();
        }
        self.eat();
        let mut is_float = prefix_dot;
        loop
            invariant
                lexer_wf(self@),
                self.current <= self.end,
                self.start < self.current,
                old(self).current < self.current,
                self.source@ == old(self).source@,
                forall|i: int| self.start <= i < self.current ==> is_digit_char(#[trigger] self.source@[i]) || (is_float && self.source@[i] == '.'),
                sp_number(old(self)@, prefix_dot) == sp_number_rest(self@, is_float),
            decreases self.source@.len() - self.current,
        {
            if self.current >= self.end {
                return Some(self.number_end(is_float));
            }
            let c = self.source[self.current];
            if digit(c) {
                self.eat();
            } else if c == '.' {
                if is_float {
                    return Some(self.error(SiltError::InvalidNumber(self.get_sofar())));
                }
                is_float = true;
                self.eat();
            } else if letter(c) || c == '_' {
                return Some(self.error(SiltError::InvalidNumber(self.get_sofar())));
            } else {
                return Some(self.number_end(is_float));
            }
        }
    }

    fn string(&mut self, apos: bool) -> (r: Option<TokenResult>)
        requires
            lexer_wf(old(self)@),
            old(self).current < old(self).end,
        ensures
            lexer_wf(final(self)@),
            (view_opt(r), final(self)@) == sp_string(old(self)@, apos),
            old(self).current < final(self).current,
            final(self).source@ == old(self).source@,
    {
        self.column_start = self.column;
        self.eat();
        self.start = self.current;
        loop
            invariant
                lexer_wf(self@),
                self.current <= self.end,
                self.start >= 1,
                old(self).current < self.current,
                self.source@ == old(self).source@,
                sp_string(old(self)@, apos) == sp_string_rest(self@, apos),
            decreases self.source@.len() - self.current,
        {
            if self.current >= self.end {
                if self.current >= self.start + 1 {
                    let cc = string_from_range(&self.source, self.start, self.current - 1);
                    return Some(self.send(Token::StringLiteral(cc)));
                }
                return Some(self.error(SiltError::UnterminatedString));
            }
            let c = self.source[self.current];
            if c == '\n' {
                return Some(self.error(SiltError::UnterminatedString));
            } else if (c == '\'' && apos) || (c == '"' && !apos) {
                self.eat();
                let cc = string_from_range(&self.source, self.start, self.current - 1);
                return Some(self.send(Token::StringLiteral(cc)));
            } else {
                self.eat();
            }
        }
    }

    fn multi_line_string(&mut self) -> (r: Option<TokenResult>)
        requires
            lexer_wf(old(self)@),
            old(self).current < old(self).end,
        ensures
            lexer_wf(final(self)@),
            (view_opt(r), final(self)@) == sp_long_string(old(self)@),
            old(self).current < final(self).current,
            final(self).source@ == old(self).source@,
    {
        self.column_start = self.column;
        self.eat();
        self.start = self.current;
        loop
            invariant
                lexer_wf(self@),
                self.current <= self.end,
                old(self).current < self.current,
                self.source@ == old(self).source@,
                sp_long_string(old(self)@) == sp_long_rest(self@),
            decreases self.source@.len() - self.current,
        {
            if self.current >= self.end {
                if self.current >= self.start + 2 {
                    let cc = string_from_range(&self.source, self.start, self.current - 2);
                    return Some(self.send(Token::StringLiteral(cc)));
                }
                return Some(self.error(SiltError::UnterminatedString));
            }
            let c = self.source[self.current];
            if c == '\n' {
                self.eat();
                self.new_line();
            } else if c == ']' {
                self.eat();
                if self.peek() == Some(']') {
                    self.eat();
                    let cc = string_from_range(&self.source, self.start, self.current - 2);
                    return Some(self.send(Token::StringLiteral(cc)));
                }
            } else {
                self.eat();
            }
        }
    }

    /// Does the current token read `lit`, ignoring ASCII case?
    fn sofar_is(&self, lit: &str) -> (r: bool)
        requires
            lexer_wf(self@),
            self.current <= self.end,
        ensures
            r == eq_ignore_case(sp_sofar(self@), lit@),
    {
        let n = lit.unicode_len();
        if self.current - self.start != n {
            return false;
        }
        let mut i: usize = 0;
        while i < n
            invariant
                lexer_wf(self@),
                self.current <= self.end,
                self.current - self.start == n,
                n == lit@.len(),
                i <= n,
                forall|j: int| 0 <= j < i ==> ascii_lower(#[trigger] sp_sofar(self@)[j]) == lit@[j],
            decreases n - i,
        {
            let c = self.source[self.start + i];
            let lc = if 'A' <= c && c <= 'Z' { ((c as u32) + 32) as u8 as char } else { c };
            proof {
                assert(sp_sofar(self@)[i as int] == c);
                if 'A' <= c && c <= 'Z' {
                    assert(((c as u32) + 32) as u8 as char == ((c as u32) + 32) as char);
                }
            }
            if lc != lit.get_char(i) {
                return false;
            }
            i += 1;
        }
        true
    }

    fn get_flag(&mut self) -> (r: Option<TokenResult>)
        requires
            lexer_wf(old(self)@),
        ensures
            lexer_wf(final(self)@),
            (view_opt(r), final(self)@) == sp_get_flag(old(self)@),
            old(self).current <= final(self).current,
            r is Some ==> old(self).current < final(self).current,
            final(self).source@ == old(self).source@,
    {
        self.mode = Mode::Flag;
        self.set_start();
        while self.current < self.end
            invariant
                lexer_wf(self@),
                old(self).current <= self.current,
                self.source@ == old(self).source@,
                sp_get_flag(old(self)@) == sp_flag_rest(self@),
            decreases self.source@.len() + 2 - self.current,
        {
            let c = self.source[self.current];
            self.eat();
            if ident_char(c) {
                self.eat();
            } else if c == '\n' {
                self.new_line();
                self.mode = Mode::Normal;
                return None;
            } else {
                if self.sofar_is("strict") {
                    proof {
                        reveal_strlit("strict");
                    }
                    return Some(self.send(Token::Flag(Flag::Strict)));
                }
                if self.sofar_is("local") {
                    proof {
                        reveal_strlit("local");
                    }
                    return Some(self.send(Token::Flag(Flag::Local)));
                }
                self.set_start();
            }
        }
        None
    }

    fn comment(&mut self)
        requires
            lexer_wf(old(self)@),
        ensures
            lexer_wf(final(self)@),
            final(self)@ == sp_comment(old(self)@),
            old(self).current <= final(self).current,
            final(self).source@ == old(self).source@,
    {
        while self.current < self.end
            invariant
                lexer_wf(self@),
                old(self).current <= self.current,
                self.source@ == old(self).source@,
                sp_comment(old(self)@) == sp_comment(self@),
            decreases self.source@.len() - self.current,
        {
            if self.eat_out() == Some('\n') {
                self.new_line();
                return;
            }
        }
    }

    fn pair(&mut self, second: char, two: Token, one: Token) -> (r: Option<TokenResult>)
        requires
            lexer_wf(old(self)@),
            old(self).current < old(self).end,
        ensures
            lexer_wf(final(self)@),
            (view_opt(r), final(self)@) == sp_pair(old(self)@, second, two@, one@),
            old(self).current < final(self).current,
            final(self).source@ == old(self).source@,
    {
        self.eat();
        if self.peek() == Some(second) {
            self.eat();
            Some(self.send(two))
        } else {
            Some(self.send(one))
        }
    }

    fn single(&mut self, t: Token) -> (r: Option<TokenResult>)
        requires
            lexer_wf(old(self)@),
            old(self).current < old(self).end,
        ensures
            lexer_wf(final(self)@),
            (view_opt(r), final(self)@) == sp_single(old(self)@, t@),
            old(self).current < final(self).current,
            final(self).source@ == old(self).source@,
    {
        self.eat();
        Some(self.send(t))
    }

    #[verifier::rlimit(60)]
    fn dispatch(&mut self, c: char) -> (r: Option<TokenResult>)
        requires
            lexer_wf(old(self)@),
            old(self).current < old(self).end,
            old(self).start == old(self).current,
            c == old(self).source@[old(self).current as int],
        ensures
            lexer_wf(final(self)@),
            (view_opt(r), final(self)@) == sp_dispatch(old(self)@, c),
            old(self).current < final(self).current,
            final(self).source@ == old(self).source@,
    {
        if c == '_' || letter(c) {
            self.eat();
            self.word_eater();
            let t = keyword_token(&self.source, self.start, self.current);
            return Some(self.send(t));
        }
        if digit(c) {
            return self.number(false);
        }
        if c == '.' {
            self.eat();
            return match self.peek() {
                Some(d) => if digit(d) {
                    self.number(true)
                } else if d == '.' {
                    self.eat();
                    Some(self.send(Token::Op(Operator::Concat)))
                } else {
                    Some(self.send(Token::Dot))
                },
                None => Some(self.send(Token::Dot)),
            };
        }
        if c == '=' {
            return self.pair('=', Token::Op(Operator::Equal), Token::Assign);
        }
        if c == '+' {
            return self.pair('=', Token::AddAssign, Token::Op(Operator::Add));
        }
        if c == '-' {
            self.eat();
            let n = self.peek();
            if n == Some('-') {
                self.eat();
                if self.peek() == Some('!') {
                    self.eat();
                    return self.get_flag();
                }
                self.comment();
                return None;
            } else if n == Some('=') {
                self.eat();
                return Some(self.send(Token::SubAssign));
            } else if n == Some('>') {
                self.eat();
                return Some(self.send(Token::ArrowFunction));
            }
            return Some(self.send(Token::Op(Operator::Sub)));
        }
        if c == '/' {
            return self.pair('=', Token::DivideAssign, Token::Op(Operator::Divide));
        }
        if c == '*' {
            return self.pair('=', Token::MultiplyAssign, Token::Op(Operator::Multiply));
        }
        if c == '%' {
            return self.pair('=', Token::ModulusAssign, Token::Op(Operator::Modulus));
        }
        if c == '(' {
            return self.single(Token::OpenParen);
        }
        if c == ')' {
            return self.single(Token::CloseParen);
        }
        if c == ';' {
            return self.single(Token::SemiColon);
        }
        if c == ',' {
            return self.single(Token::Comma);
        }
        if c == '"' {
            return self.string(false);
        }
        if c == '\'' {
            return self.string(true);
        }
        if c == '<' {
            return self.pair('=', Token::Op(Operator::LessEqual), Token::Op(Operator::Less));
        }
        if c == '>' {
            return self.pair('=', Token::Op(Operator::GreaterEqual), Token::Op(Operator::Greater));
        }
        if c == '[' {
            self.eat();
            if self.peek() == Some('[') {
                return self.multi_line_string();
            }
            return Some(self.send(Token::OpenBracket));
        }
        if c == ']' {
            return self.single(Token::CloseBracket);
        }
        if c == '{' {
            return self.single(Token::OpenBrace);
        }
        if c == '}' {
            return self.single(Token::CloseBrace);
        }
        if c == ' ' || c == '\r' || c == '\t' {
            self.eat();
            return None;
        }
        if c == '\n' {
            self.eat();
            self.new_line();
            return None;
        }
        if c == '#' {
            return self.single(Token::Op(Operator::Length));
        }
        if c == ':' {
            return self.pair(':', Token::ColonColon, Token::Colon);
        }
        if c == '~' {
            return self.pair('=', Token::Op(Operator::NotEqual), Token::Op(Operator::Tilde));
        }
        let re = self.error(SiltError::UnexpectedCharacter(c));
        self.eat();
        Some(re)
    }

    /// The next token in normal mode, skipping blanks and comments; `None` at the
    /// end of the source.
    pub fn step(&mut self) -> (r: Option<TokenResult>)
        requires
            lexer_wf(old(self)@),
        ensures
            lexer_wf(final(self)@),
            (view_opt(r), final(self)@) == sp_step(old(self)@),
            final(self).source@ == old(self).source@,
            old(self).current <= final(self).current,
            r is Some ==> old(self).current < final(self).current,
    {
        while self.current < self.end
            invariant
                lexer_wf(self@),
                sp_step(old(self)@) == sp_step(self@),
                self.source@ == old(self).source@,
                old(self).current <= self.current,
            decreases self.source@.len() + 2 - self.current,
        {
            let c = self.source[self.current];
            self.set_start();
            let r = self.dispatch(c);
            if r.is_some() {
                return r;
            }
        }
        None
    }

    /// The next token, in whichever mode the lexer is; `None` at the end.
    pub fn next(&mut self) -> (r: Option<TokenResult>)
        requires
            lexer_wf(old(self)@),
        ensures
            lexer_wf(final(self)@),
            (view_opt(r), final(self)@) == sp_next(old(self)@),
            final(self).source@ == old(self).source@,
            old(self).current <= final(self).current,
            r is Some ==> old(self).current < final(self).current,
    {
        if self.current >= self.end {
            return None;
        }
        match self.mode {
            Mode::Normal => self.step(),
            Mode::Flag => match self.get_flag() {
                Some(r) => Some(r),
                None => {
                    self.mode = Mode::Normal;
                    self.step()
                },
            },
        }
    }
}

/// Whether `w` is one of the words the language reserves.
pub open spec fn reserved_word(w: Seq<char>) -> bool {
    w == "and"@ || w == "break"@ || w == "do"@ || w == "else"@ || w == "elseif"@ || w == "end"@
        || w == "false"@ || w == "for"@ || w == "function"@ || w == "goto"@ || w == "if"@ || w == "in"@
        || w == "local"@ || w == "nil"@ || w == "not"@ || w == "or"@ || w == "repeat"@ || w == "return"@
        || w == "then"@ || w == "true"@ || w == "until"@ || w == "while"@ || w == "class"@ || w == "sprint"@
}

/// Every reserved word is read as its own keyword token, never as a name;
/// every other word is a name.
pub proof fn law_reserved_words(w: Seq<char>)
    ensures
        keyword("and"@) == TokenView::Op(Operator::And),
        keyword("break"@) == TokenView::Break,
        keyword("do"@) == TokenView::Do,
        keyword("else"@) == TokenView::Else,
        keyword("elseif"@) == TokenView::ElseIf,
        keyword("end"@) == TokenView::End,
        keyword("false"@) == TokenView::False,
        keyword("for"@) == TokenView::For,
        keyword("function"@) == TokenView::Function,
        keyword("goto"@) == TokenView::Goto,
        keyword("if"@) == TokenView::If,
        keyword("in"@) == TokenView::In,
        keyword("local"@) == TokenView::Local,
        keyword("nil"@) == TokenView::Nil,
        keyword("not"@) == TokenView::Op(Operator::Not),
        keyword("or"@) == TokenView::Op(Operator::Or),
        keyword("repeat"@) == TokenView::Repeat,
        keyword("return"@) == TokenView::Return,
        keyword("then"@) == TokenView::Then,
        keyword("true"@) == TokenView::True,
        keyword("until"@) == TokenView::Until,
        keyword("while"@) == TokenView::While,
        keyword("class"@) == TokenView::Class,
        keyword("sprint"@) == TokenView::Print,
        reserved_word(w) <==> !(keyword(w) is Identifier),
        !reserved_word(w) ==> keyword(w) == TokenView::Identifier(w),
{
    reveal_strlit("and");
    reveal_strlit("break");
    reveal_strlit("do");
    reveal_strlit("else");
    reveal_strlit("elseif");
    reveal_strlit("end");
    reveal_strlit("false");
    reveal_strlit("for");
    reveal_strlit("function");
    reveal_strlit("goto");
    reveal_strlit("if");
    reveal_strlit("in");
    reveal_strlit("local");
    reveal_strlit("nil");
    reveal_strlit("not");
    reveal_strlit("or");
    reveal_strlit("repeat");
    reveal_strlit("return");
    reveal_strlit("then");
    reveal_strlit("true");
    reveal_strlit("until");
    reveal_strlit("while");
    reveal_strlit("class");
    reveal_strlit("sprint");
    assert("and"@ =~= seq!['a', 'n', 'd']);
    assert("break"@ =~= seq!['b', 'r', 'e', 'a', 'k']);
    assert("do"@ =~= seq!['d', 'o']);
    assert("else"@ =~= seq!['e', 'l', 's', 'e']);
    assert("elseif"@ =~= seq!['e', 'l', 's', 'e', 'i', 'f']);
    assert("end"@ =~= seq!['e', 'n', 'd']);
    assert("false"@ =~= seq!['f', 'a', 'l', 's', 'e']);
    assert("for"@ =~= seq!['f', 'o', 'r']);
    assert("function"@ =~= seq!['f', 'u', 'n', 'c', 't', 'i', 'o', 'n']);
    assert("goto"@ =~= seq!['g', 'o', 't', 'o']);
    assert("if"@ =~= seq!['i', 'f']);
    assert("in"@ =~= seq!['i', 'n']);
    assert("local"@ =~= seq!['l', 'o', 'c', 'a', 'l']);
    assert("nil"@ =~= seq!['n', 'i', 'l']);
    assert("not"@ =~= seq!['n', 'o', 't']);
    assert("or"@ =~= seq!['o', 'r']);
    assert("repeat"@ =~= seq!['r', 'e', 'p', 'e', 'a', 't']);
    assert("return"@ =~= seq!['r', 'e', 't', 'u', 'r', 'n']);
    assert("then"@ =~= seq!['t', 'h', 'e', 'n']);
    assert("true"@ =~= seq!['t', 'r', 'u', 'e']);
    assert("until"@ =~= seq!['u', 'n', 't', 'i', 'l']);
    assert("while"@ =~= seq!['w', 'h', 'i', 'l', 'e']);
    assert("class"@ =~= seq!['c', 'l', 'a', 's', 's']);
    assert("sprint"@ =~= seq!['s', 'p', 'r', 'i', 'n', 't']);
}

} // verus!

//! Errors raised while lexing, compiling and running, with their source locations.

use vstd::prelude::*;
use vstd::string::*;
use crate::text::{chars_of, decimal, push_char, push_repeated, repeat_char, usize_to_decimal};
use crate::token::{token_text, Token, TokenView};
use crate::userdata::{meta_text, MetaMethod};

verus! {

/// Every error the language can raise.
#[derive(PartialEq, Debug)]
pub enum SiltError {
    InvalidNumber(String),
    NotANumber(String),
    UnexpectedCharacter(char),
    UnterminatedString,
    UnterminatedParenthesis(usize, usize),
    UnterminatedBracket(usize, usize),
    InvalidTokenPlacement(Token),
    InvalidColonPlacement,
    ExpectedLocalIdentifier,
    ExpectedLabelIdentifier,
    ExpectedGotoIdentifier,
    ExpectedFieldIdentifier,
    TableExpectedCommaOrCloseBrace,
    UndefinedLabel(String),
    InvalidAssignment(Token),
    UnterminatedBlock,
    ExpectedThen,
    ExpectedDo,
    ExpectedToken(Token),
    TooManyLocals,
    TooManyOperations,
    TooManyParameters,
    InvalidVarArgParam,
    InvalidVarArgUsage,
    InvalidVarArgAssignment,
    ChunkCorrupt,
    ExpInvalidOperator(MetaMethod),
    ExpInvalidBitwise(ValueTypes),
    ExpInvalidLength(ValueTypes),
    ExpOpValueWithValue(ValueTypes, MetaMethod, ValueTypes),
    ExpInvalidNegation(ValueTypes),
    EarlyEndOfFile,
    ExpInvalid,
    ExpectedAssign,
    EvalNoInteger(ValueTypes),
    NotCallable(String),
    MetaMethodMissing(MetaMethod),
    MetaMethodNotCallable(MetaMethod),
    CoerceInt,
    UDNoInitField,
    UDNoInitMethod,
    UDBadCall,
    UDBadCast,
    UDNoMap,
    UDNoFieldGet,
    UDNoFieldSet,
    UDNoMethodRef,
    UDTypeMismatch,
    UDRefDropped,
    VmCompileError,
    VmRuntimeError,
    VmCorruptConstant,
    VmUpvalueResolveError,
    VmNonTableOperations(ValueTypes),
    VmValBadConvert(ValueTypes),
    VmNativeParameterMismatch,
    Unknown,
    Custom(String),
    Network(String),
    IO(String),
}

/// The type of a value, as named in error messages.
#[derive(Debug, Clone, Copy, PartialEq, Eq, Structural)]
pub enum ValueTypes {
    String,
    Number,
    Operator,
    Integer,
    Bool,
    Nil,
    Infinity,
    NativeFunction,
    Function,
    Closure,
    Table,
    UserData,
}

/// Where a token sits in the source: 1-based line and column, plus the character
/// offset of its first character and its length in characters.
#[derive(Clone, Copy, Debug, PartialEq, Eq, Structural)]
pub struct TokenTriple {
    pub line: usize,
    pub col: usize,
    pub index: usize,
    pub length: usize,
}

impl TokenTriple {
    /// A location from its four parts.
    pub fn new(line: usize, col: usize, index: usize, length: usize) -> (t: Self)
        ensures
            t == (TokenTriple { line, col, index, length }),
    {
        TokenTriple { line, col, index, length }
    }
}

impl Default for TokenTriple {
    fn default() -> (t: Self)
        ensures
            t == (TokenTriple { line: 0, col: 0, index: 0, length: 0 }),
    {
        TokenTriple { line: 0, col: 0, index: 0, length: 0 }
    }
}

/// A 1-based (line, column) location.
pub type TokenCell = (usize, usize);

/// An error together with where it happened.
#[derive(Debug)]
pub struct ErrorTuple {
    pub code: SiltError,
    pub location: TokenCell,
}

impl Clone for ErrorTuple {
    fn clone(&self) -> (r: Self)
        ensures
            r == *self,
    {
        ErrorTuple { code: self.code.clone(), location: (self.location.0, self.location.1) }
    }
}

/// All the errors of a failed run, and the name of the source that failed.
#[derive(Debug)]
pub struct ErrorOut {
    pub errors: Vec<ErrorTuple>,
    pub source: Option<String>,
}

impl ErrorOut {
    /// The code of the first error, `Unknown` when there is none.
    pub fn get_first(&self) -> (e: SiltError)
        ensures
            self.errors@.len() == 0 ==> e == SiltError::Unknown,
            self.errors@.len() > 0 ==> e == self.errors@[0].code,
    {
        if self.errors.len() == 0 {
            SiltError::Unknown
        } else {
            self.errors[0].code.clone()
        }
    }
}

// ---------------------------------------------------------------------------
// Lines of a source text, as `str::lines` splits them.
// ---------------------------------------------------------------------------

/// Index of the first `'\n'` in `s`, or `s.len()` when there is none.
pub open spec fn first_newline(s: Seq<char>) -> int
    decreases s.len(),
{
    if s.len() == 0 {
        0
    } else if s[0] == '\n' {
        0
    } else {
        1 + first_newline(s.drop_first())
    }
}

/// `t` without one trailing carriage return.
pub open spec fn strip_cr(t: Seq<char>) -> Seq<char> {
    if t.len() > 0 && t.last() == '\r' {
        t.drop_last()
    } else {
        t
    }
}

/// The lines of `s`: split at `\n` (a `\r` just before it is dropped), with no
/// empty last line after a final line ending.
pub open spec fn str_lines(s: Seq<char>) -> Seq<Seq<char>>
    decreases s.len(),
{
    if s.len() == 0 {
        Seq::empty()
    } else {
        let k = first_newline(s);
        if 0 <= k < s.len() {
            seq![strip_cr(s.take(k))] + str_lines(s.skip(k + 1))
        } else {
            seq![s]
        }
    }
}

/// [`first_newline`] is a position in `s` holding `'\n'` (or the end), with no
/// `'\n'` before it.
pub proof fn lemma_first_newline_bounds(s: Seq<char>)
    ensures
        0 <= first_newline(s) <= s.len(),
        first_newline(s) < s.len() ==> s[first_newline(s)] == '\n',
        forall|j: int| 0 <= j < first_newline(s) ==> s[j] != '\n',
    decreases s.len(),
{
    if s.len() > 0 && s[0] != '\n' {
        lemma_first_newline_bounds(s.drop_first());
        assert forall|j: int| 0 <= j < first_newline(s) implies s[j] != '\n' by {
            if j > 0 {
                assert(s[j] == s.drop_first()[j - 1]);
            }
        }
    }
}

/// A position holding `'\n'` (or the end) with no `'\n'` before it is
/// [`first_newline`].
pub proof fn lemma_first_newline_at(s: Seq<char>, k: int)
    requires
        0 <= k <= s.len(),
        k < s.len() ==> s[k] == '\n',
        forall|j: int| 0 <= j < k ==> s[j] != '\n',
    ensures
        first_newline(s) == k,
    decreases s.len(),
{
    if s.len() > 0 && k > 0 {
        let t = s.drop_first();
        assert forall|j: int| 0 <= j < k - 1 implies t[j] != '\n' by {
            assert(t[j] == s[j + 1]);
        }
        lemma_first_newline_at(t, k - 1);
    }
}

/// Index of the first `'\n'` at or after `from`, or `cs.len()`.
pub fn scan_newline(cs: &Vec<char>, from: usize) -> (k: usize)
    requires
        from <= cs@.len(),
    ensures
        from <= k <= cs@.len(),
        k < cs@.len() ==> cs@[k as int] == '\n',
        forall|j: int| from <= j < k ==> cs@[j] != '\n',
{
    let mut k = from;
    while k < cs.len() && cs[k] != '\n'
        invariant
            from <= k <= cs@.len(),
            forall|j: int| from <= j < k ==> cs@[j] != '\n',
        decreases cs@.len() - k,
    {
        k += 1;
    }
    k
}

/// The `n`-th line (0-based) of `cs` as character bounds `(start, end)`, as
/// `str::lines` yields it, or `None` when there are not that many lines.
pub fn nth_line(cs: &Vec<char>, n: usize) -> (r: Option<(usize, usize)>)
    ensures
        match r {
            Some((a, b)) => n < str_lines(cs@).len() && a <= b <= cs@.len()
                && cs@.subrange(a as int, b as int) == str_lines(cs@)[n as int],
            None => n >= str_lines(cs@).len(),
        },
{
    let mut pos: usize = 0;
    let mut j: usize = 0;
    assert(cs@.skip(0) =~= cs@);
    while pos < cs.len()
        invariant
            pos <= cs@.len(),
            j <= n,
            str_lines(cs@).len() == j + str_lines(cs@.skip(pos as int)).len(),
            forall|i: int| 0 <= i < str_lines(cs@.skip(pos as int)).len()
                ==> str_lines(cs@)[j + i] == #[trigger] str_lines(cs@.skip(pos as int))[i],
        decreases cs@.len() - pos,
    {
        let ghost rest = cs@.skip(pos as int);
        let k = scan_newline(cs, pos);
        proof {
            assert forall|jj: int| 0 <= jj < k - pos implies rest[jj] != '\n' by {
                assert(rest[jj] == cs@[pos + jj]);
            }
            if k < cs@.len() {
                assert(rest[k - pos] == cs@[k as int]);
            }
            lemma_first_newline_at(rest, k - pos);
        }
        if k < cs.len() {
            let ghost line = strip_cr(rest.take(k - pos));
            proof {
                assert(rest.skip(k - pos + 1) =~= cs@.skip(k + 1));
                assert(str_lines(rest) == seq![line] + str_lines(cs@.skip(k + 1)));
            }
            if j == n {
                let end = if k > pos && cs[k - 1] == '\r' { k - 1 } else { k };
                proof {
                    assert(str_lines(rest)[0] == line);
                    assert(cs@.subrange(pos as int, end as int) =~= line);
                }
                return Some((pos, end));
            }
            pos = k + 1;
            j += 1;
            proof {
                assert forall|i: int| 0 <= i < str_lines(cs@.skip(pos as int)).len()
                    implies str_lines(cs@)[j + i] == #[trigger] str_lines(cs@.skip(pos as int))[i] by {
                    assert(str_lines(rest)[i + 1] == str_lines(cs@.skip(pos as int))[i]);
                }
            }
        } else {
            proof {
                assert(str_lines(rest) == seq![rest]);
            }
            if j == n {
                proof {
                    assert(str_lines(rest)[0] == rest);
                    assert(cs@.subrange(pos as int, cs@.len() as int) =~= rest);
                }
                return Some((pos, cs.len()));
            }
            proof {
                assert(cs@.skip(cs@.len() as int) =~= Seq::<char>::empty());
            }
            pos = cs.len();
            j += 1;
        }
    }
    proof {
        assert(cs@.skip(pos as int) =~= Seq::<char>::empty());
    }
    None
}

/// The bounds `(start, end)` of every line of `cs`, as `str::lines` yields them.
pub fn line_bounds(cs: &Vec<char>) -> (r: Vec<(usize, usize)>)
    ensures
        r@.len() == str_lines(cs@).len(),
        forall|i: int| 0 <= i < r@.len() ==> {
            &&& (#[trigger] r@[i]).0 <= r@[i].1 <= cs@.len()
            &&& cs@.subrange(r@[i].0 as int, r@[i].1 as int) == str_lines(cs@)[i]
        },
{
    let mut r: Vec<(usize, usize)> = Vec::new();
    let mut pos: usize = 0;
    assert(cs@.skip(0) =~= cs@);
    while pos < cs.len()
        invariant
            pos <= cs@.len(),
            str_lines(cs@).len() == r@.len() + str_lines(cs@.skip(pos as int)).len(),
            forall|i: int| 0 <= i < str_lines(cs@.skip(pos as int)).len()
                ==> str_lines(cs@)[r@.len() + i] == #[trigger] str_lines(cs@.skip(pos as int))[i],
            forall|i: int| 0 <= i < r@.len() ==> {
                &&& (#[trigger] r@[i]).0 <= r@[i].1 <= cs@.len()
                &&& cs@.subrange(r@[i].0 as int, r@[i].1 as int) == str_lines(cs@)[i]
            },
        decreases cs@.len() - pos,
    {
        let ghost rest = cs@.skip(pos as int);
        let ghost done = r@.len();
        let k = scan_newline(cs, pos);
        proof {
            assert forall|jj: int| 0 <= jj < k - pos implies rest[jj] != '\n' by {
                assert(rest[jj] == cs@[pos + jj]);
            }
            if k < cs@.len() {
                assert(rest[k - pos] == cs@[k as int]);
            }
            lemma_first_newline_at(rest, k - pos);
        }
        if k < cs.len() {
            let ghost line = strip_cr(rest.take(k - pos));
            proof {
                assert(rest.skip(k - pos + 1) =~= cs@.skip(k + 1));
                assert(str_lines(rest) == seq![line] + str_lines(cs@.skip(k + 1)));
            }
            let end = if k > pos && cs[k - 1] == '\r' { k - 1 } else { k };
            proof {
                assert(str_lines(rest)[0] == line);
                assert(cs@.subrange(pos as int, end as int) =~= line);
            }
            r.push((pos, end));
            pos = k + 1;
            proof {
                assert forall|i: int| 0 <= i < str_lines(cs@.skip(pos as int)).len()
                    implies str_lines(cs@)[r@.len() + i] == #[trigger] str_lines(cs@.skip(pos as int))[i] by {
                    assert(str_lines(rest)[i + 1] == str_lines(cs@.skip(pos as int))[i]);
                }
            }
        } else {
            proof {
                assert(str_lines(rest) == seq![rest]);
                assert(str_lines(rest)[0] == rest);
                assert(cs@.subrange(pos as int, cs@.len() as int) =~= rest);
            }
            r.push((pos, cs.len()));
            proof {
                assert(cs@.skip(cs@.len() as int) =~= Seq::<char>::empty());
            }
            pos = cs.len();
        }
    }
    proof {
        assert(cs@.skip(pos as int) =~= Seq::<char>::empty());
    }
    r
}

/// The caret indent for column `col`: the first `col - 1` characters of the line,
/// tabs kept and every other character turned into a space.
pub open spec fn caret_indent(text: Seq<char>, col: int) -> Seq<char> {
    let n = if col - 1 < 0 { 0 } else if col - 1 > text.len() { text.len() as int } else { col - 1 };
    Seq::new(n as nat, |i: int| if text[i] == '\t' { '\t' } else { ' ' })
}

/// The snippet that [`error_snippet`] renders.
pub open spec fn spec_error_snippet(source: Seq<char>, line: nat, col: nat) -> Seq<char> {
    let lines = str_lines(source);
    if line == 0 || line > lines.len() {
        "  (line "@ + decimal(line) + " not in source)"@
    } else {
        let text = lines[line - 1];
        let gutter = decimal(line);
        gutter + " | "@ + text + "\n"@ + repeat_char(' ', gutter.len()) + " | "@
            + caret_indent(text, col as int) + "^"@
    }
}

/// Render the line at `location` (1-based line and column) with a caret under the
/// column:
///
/// ```text
///  3 | local c = )
///    |           ^
/// ```
///
/// A location outside the source gives `  (line N not in source)`.
pub fn error_snippet(source: &str, location: TokenCell) -> (r: String)
    ensures
        r@ == spec_error_snippet(source@, location.0 as nat, location.1 as nat),
{
    let (line, col) = location;
    let cs = chars_of(source);
    let found = if line == 0 { None } else { nth_line(&cs, line - 1) };
    match found {
        None => {
            let mut r = String::from_str("  (line ");
            let g = usize_to_decimal(line);
            r.append(g.as_str());
            r.append(" not in source)");
            proof {
                reveal_strlit("  (line ");
                reveal_strlit(" not in source)");
            }
            r
        }
        Some((a, b)) => {
            let ghost text = cs@.subrange(a as int, b as int);
            let gutter = usize_to_decimal(line);
            let mut r = String::new();
            r.append(gutter.as_str());
            r.append(" | ");
            let mut i = a;
            while i < b
                invariant
                    a <= i <= b <= cs@.len(),
                    r@ == gutter@ + " | "@ + cs@.subrange(a as int, i as int),
                decreases b - i,
            {
                push_char(&mut r, cs[i]);
                i += 1;
                assert(r@ =~= gutter@ + " | "@ + cs@.subrange(a as int, i as int));
            }
            r.append("\n");
            let glen = gutter.unicode_len();
            push_repeated(&mut r, ' ', glen);
            r.append(" | ");
            let width = b - a;
            let take = if col == 0 { 0 } else if col - 1 > width { width } else { col - 1 };
            let ghost before = r@;
            let mut k: usize = 0;
            while k < take
                invariant
                    take <= width == b - a,
                    a + width <= cs@.len(),
                    k <= take,
                    r@ == before + caret_indent(text, col as int).take(k as int),
                    text == cs@.subrange(a as int, b as int),
                    caret_indent(text, col as int).len() == take,
                decreases take - k,
            {
                let c = cs[a + k];
                if c == '\t' {
                    push_char(&mut r, '\t');
                } else {
                    push_char(&mut r, ' ');
                }
                k += 1;
                assert(r@ =~= before + caret_indent(text, col as int).take(k as int));
            }
            r.append("^");
            proof {
                assert(caret_indent(text, col as int).take(take as int) =~= caret_indent(text, col as int));
            }
            r
        }
    }
}

/// The mathematical view of a [`SiltError`]: strings are seen as their characters.
pub enum SiltErrorView {
    InvalidNumber(Seq<char>),
    NotANumber(Seq<char>),
    UnexpectedCharacter(char),
    UnterminatedString,
    UnterminatedParenthesis(usize, usize),
    UnterminatedBracket(usize, usize),
    InvalidTokenPlacement(TokenView),
    InvalidColonPlacement,
    ExpectedLocalIdentifier,
    ExpectedLabelIdentifier,
    ExpectedGotoIdentifier,
    ExpectedFieldIdentifier,
    TableExpectedCommaOrCloseBrace,
    UndefinedLabel(Seq<char>),
    InvalidAssignment(TokenView),
    UnterminatedBlock,
    ExpectedThen,
    ExpectedDo,
    ExpectedToken(TokenView),
    TooManyLocals,
    TooManyOperations,
    TooManyParameters,
    InvalidVarArgParam,
    InvalidVarArgUsage,
    InvalidVarArgAssignment,
    ChunkCorrupt,
    ExpInvalidOperator(MetaMethod),
    ExpInvalidBitwise(ValueTypes),
    ExpInvalidLength(ValueTypes),
    ExpOpValueWithValue(ValueTypes, MetaMethod, ValueTypes),
    ExpInvalidNegation(ValueTypes),
    EarlyEndOfFile,
    ExpInvalid,
    ExpectedAssign,
    EvalNoInteger(ValueTypes),
    NotCallable(Seq<char>),
    MetaMethodMissing(MetaMethod),
    MetaMethodNotCallable(MetaMethod),
    CoerceInt,
    UDNoInitField,
    UDNoInitMethod,
    UDBadCall,
    UDBadCast,
    UDNoMap,
    UDNoFieldGet,
    UDNoFieldSet,
    UDNoMethodRef,
    UDTypeMismatch,
    UDRefDropped,
    VmCompileError,
    VmRuntimeError,
    VmCorruptConstant,
    VmUpvalueResolveError,
    VmNonTableOperations(ValueTypes),
    VmValBadConvert(ValueTypes),
    VmNativeParameterMismatch,
    Unknown,
    Custom(Seq<char>),
    Network(Seq<char>),
    IO(Seq<char>),
}

impl View for SiltError {
    type V = SiltErrorView;

    open spec fn view(&self) -> SiltErrorView {
        match self {
            SiltError::InvalidNumber(a0) => SiltErrorView::InvalidNumber(a0@),
            SiltError::NotANumber(a0) => SiltErrorView::NotANumber(a0@),
            SiltError::UnexpectedCharacter(a0) => SiltErrorView::UnexpectedCharacter(*a0),
            SiltError::UnterminatedString => SiltErrorView::UnterminatedString,
            SiltError::UnterminatedParenthesis(a0, a1) => SiltErrorView::UnterminatedParenthesis(*a0, *a1),
            SiltError::UnterminatedBracket(a0, a1) => SiltErrorView::UnterminatedBracket(*a0, *a1),
            SiltError::InvalidTokenPlacement(a0) => SiltErrorView::InvalidTokenPlacement(a0@),
            SiltError::InvalidColonPlacement => SiltErrorView::InvalidColonPlacement,
            SiltError::ExpectedLocalIdentifier => SiltErrorView::ExpectedLocalIdentifier,
            SiltError::ExpectedLabelIdentifier => SiltErrorView::ExpectedLabelIdentifier,
            SiltError::ExpectedGotoIdentifier => SiltErrorView::ExpectedGotoIdentifier,
            SiltError::ExpectedFieldIdentifier => SiltErrorView::ExpectedFieldIdentifier,
            SiltError::TableExpectedCommaOrCloseBrace => SiltErrorView::TableExpectedCommaOrCloseBrace,
            SiltError::UndefinedLabel(a0) => SiltErrorView::UndefinedLabel(a0@),
            SiltError::InvalidAssignment(a0) => SiltErrorView::InvalidAssignment(a0@),
            SiltError::UnterminatedBlock => SiltErrorView::UnterminatedBlock,
            SiltError::ExpectedThen => SiltErrorView::ExpectedThen,
            SiltError::ExpectedDo => SiltErrorView::ExpectedDo,
            SiltError::ExpectedToken(a0) => SiltErrorView::ExpectedToken(a0@),
            SiltError::TooManyLocals => SiltErrorView::TooManyLocals,
            SiltError::TooManyOperations => SiltErrorView::TooManyOperations,
            SiltError::TooManyParameters => SiltErrorView::TooManyParameters,
            SiltError::InvalidVarArgParam => SiltErrorView::InvalidVarArgParam,
            SiltError::InvalidVarArgUsage => SiltErrorView::InvalidVarArgUsage,
            SiltError::InvalidVarArgAssignment => SiltErrorView::InvalidVarArgAssignment,
            SiltError::ChunkCorrupt => SiltErrorView::ChunkCorrupt,
            SiltError::ExpInvalidOperator(a0) => SiltErrorView::ExpInvalidOperator(*a0),
            SiltError::ExpInvalidBitwise(a0) => SiltErrorView::ExpInvalidBitwise(*a0),
            SiltError::ExpInvalidLength(a0) => SiltErrorView::ExpInvalidLength(*a0),
            SiltError::ExpOpValueWithValue(a0, a1, a2) => SiltErrorView::ExpOpValueWithValue(*a0, *a1, *a2),
            SiltError::ExpInvalidNegation(a0) => SiltErrorView::ExpInvalidNegation(*a0),
            SiltError::EarlyEndOfFile => SiltErrorView::EarlyEndOfFile,
            SiltError::ExpInvalid => SiltErrorView::ExpInvalid,
            SiltError::ExpectedAssign => SiltErrorView::ExpectedAssign,
            SiltError::EvalNoInteger(a0) => SiltErrorView::EvalNoInteger(*a0),
            SiltError::NotCallable(a0) => SiltErrorView::NotCallable(a0@),
            SiltError::MetaMethodMissing(a0) => SiltErrorView::MetaMethodMissing(*a0),
            SiltError::MetaMethodNotCallable(a0) => SiltErrorView::MetaMethodNotCallable(*a0),
            SiltError::CoerceInt => SiltErrorView::CoerceInt,
            SiltError::UDNoInitField => SiltErrorView::UDNoInitField,
            SiltError::UDNoInitMethod => SiltErrorView::UDNoInitMethod,
            SiltError::UDBadCall => SiltErrorView::UDBadCall,
            SiltError::UDBadCast => SiltErrorView::UDBadCast,
            SiltError::UDNoMap => SiltErrorView::UDNoMap,
            SiltError::UDNoFieldGet => SiltErrorView::UDNoFieldGet,
            SiltError::UDNoFieldSet => SiltErrorView::UDNoFieldSet,
            SiltError::UDNoMethodRef => SiltErrorView::UDNoMethodRef,
            SiltError::UDTypeMismatch => SiltErrorView::UDTypeMismatch,
            SiltError::UDRefDropped => SiltErrorView::UDRefDropped,
            SiltError::VmCompileError => SiltErrorView::VmCompileError,
            SiltError::VmRuntimeError => SiltErrorView::VmRuntimeError,
            SiltError::VmCorruptConstant => SiltErrorView::VmCorruptConstant,
            SiltError::VmUpvalueResolveError => SiltErrorView::VmUpvalueResolveError,
            SiltError::VmNonTableOperations(a0) => SiltErrorView::VmNonTableOperations(*a0),
            SiltError::VmValBadConvert(a0) => SiltErrorView::VmValBadConvert(*a0),
            SiltError::VmNativeParameterMismatch => SiltErrorView::VmNativeParameterMismatch,
            SiltError::Unknown => SiltErrorView::Unknown,
            SiltError::Custom(a0) => SiltErrorView::Custom(a0@),
            SiltError::Network(a0) => SiltErrorView::Network(a0@),
            SiltError::IO(a0) => SiltErrorView::IO(a0@),
        }
    }
}

impl Clone for SiltError {
    fn clone(&self) -> (r: Self)
        ensures
            r == *self,
    {
        match self {
            SiltError::InvalidNumber(a0) => SiltError::InvalidNumber(a0.clone()),
            SiltError::NotANumber(a0) => SiltError::NotANumber(a0.clone()),
            SiltError::UnexpectedCharacter(a0) => SiltError::UnexpectedCharacter(*a0),
            SiltError::UnterminatedString => SiltError::UnterminatedString,
            SiltError::UnterminatedParenthesis(a0, a1) => SiltError::UnterminatedParenthesis(*a0, *a1),
            SiltError::UnterminatedBracket(a0, a1) => SiltError::UnterminatedBracket(*a0, *a1),
            SiltError::InvalidTokenPlacement(a0) => SiltError::InvalidTokenPlacement(a0.clone()),
            SiltError::InvalidColonPlacement => SiltError::InvalidColonPlacement,
            SiltError::ExpectedLocalIdentifier => SiltError::ExpectedLocalIdentifier,
            SiltError::ExpectedLabelIdentifier => SiltError::ExpectedLabelIdentifier,
            SiltError::ExpectedGotoIdentifier => SiltError::ExpectedGotoIdentifier,
            SiltError::ExpectedFieldIdentifier => SiltError::ExpectedFieldIdentifier,
            SiltError::TableExpectedCommaOrCloseBrace => SiltError::TableExpectedCommaOrCloseBrace,
            SiltError::UndefinedLabel(a0) => SiltError::UndefinedLabel(a0.clone()),
            SiltError::InvalidAssignment(a0) => SiltError::InvalidAssignment(a0.clone()),
            SiltError::UnterminatedBlock => SiltError::UnterminatedBlock,
            SiltError::ExpectedThen => SiltError::ExpectedThen,
            SiltError::ExpectedDo => SiltError::ExpectedDo,
            SiltError::ExpectedToken(a0) => SiltError::ExpectedToken(a0.clone()),
            SiltError::TooManyLocals => SiltError::TooManyLocals,
            SiltError::TooManyOperations => SiltError::TooManyOperations,
            SiltError::TooManyParameters => SiltError::TooManyParameters,
            SiltError::InvalidVarArgParam => SiltError::InvalidVarArgParam,
            SiltError::InvalidVarArgUsage => SiltError::InvalidVarArgUsage,
            SiltError::InvalidVarArgAssignment => SiltError::InvalidVarArgAssignment,
            SiltError::ChunkCorrupt => SiltError::ChunkCorrupt,
            SiltError::ExpInvalidOperator(a0) => SiltError::ExpInvalidOperator(*a0),
            SiltError::ExpInvalidBitwise(a0) => SiltError::ExpInvalidBitwise(*a0),
            SiltError::ExpInvalidLength(a0) => SiltError::ExpInvalidLength(*a0),
            SiltError::ExpOpValueWithValue(a0, a1, a2) => SiltError::ExpOpValueWithValue(*a0, *a1, *a2),
            SiltError::ExpInvalidNegation(a0) => SiltError::ExpInvalidNegation(*a0),
            SiltError::EarlyEndOfFile => SiltError::EarlyEndOfFile,
            SiltError::ExpInvalid => SiltError::ExpInvalid,
            SiltError::ExpectedAssign => SiltError::ExpectedAssign,
            SiltError::EvalNoInteger(a0) => SiltError::EvalNoInteger(*a0),
            SiltError::NotCallable(a0) => SiltError::NotCallable(a0.clone()),
            SiltError::MetaMethodMissing(a0) => SiltError::MetaMethodMissing(*a0),
            SiltError::MetaMethodNotCallable(a0) => SiltError::MetaMethodNotCallable(*a0),
            SiltError::CoerceInt => SiltError::CoerceInt,
            SiltError::UDNoInitField => SiltError::UDNoInitField,
            SiltError::UDNoInitMethod => SiltError::UDNoInitMethod,
            SiltError::UDBadCall => SiltError::UDBadCall,
            SiltError::UDBadCast => SiltError::UDBadCast,
            SiltError::UDNoMap => SiltError::UDNoMap,
            SiltError::UDNoFieldGet => SiltError::UDNoFieldGet,
            SiltError::UDNoFieldSet => SiltError::UDNoFieldSet,
            SiltError::UDNoMethodRef => SiltError::UDNoMethodRef,
            SiltError::UDTypeMismatch => SiltError::UDTypeMismatch,
            SiltError::UDRefDropped => SiltError::UDRefDropped,
            SiltError::VmCompileError => SiltError::VmCompileError,
            SiltError::VmRuntimeError => SiltError::VmRuntimeError,
            SiltError::VmCorruptConstant => SiltError::VmCorruptConstant,
            SiltError::VmUpvalueResolveError => SiltError::VmUpvalueResolveError,
            SiltError::VmNonTableOperations(a0) => SiltError::VmNonTableOperations(*a0),
            SiltError::VmValBadConvert(a0) => SiltError::VmValBadConvert(*a0),
            SiltError::VmNativeParameterMismatch => SiltError::VmNativeParameterMismatch,
            SiltError::Unknown => SiltError::Unknown,
            SiltError::Custom(a0) => SiltError::Custom(a0.clone()),
            SiltError::Network(a0) => SiltError::Network(a0.clone()),
            SiltError::IO(a0) => SiltError::IO(a0.clone()),
        }
    }
}



/// How a value type is written in messages.
pub open spec fn value_type_text(v: ValueTypes) -> Seq<char> {
    match v {
        ValueTypes::String => "string"@,
        ValueTypes::Number => "number"@,
        ValueTypes::Operator => "operator"@,
        ValueTypes::Integer => "integer"@,
        ValueTypes::Bool => "bool"@,
        ValueTypes::Nil => "nil"@,
        ValueTypes::Infinity => "infinity"@,
        ValueTypes::NativeFunction => "native_function"@,
        ValueTypes::Function => "function"@,
        ValueTypes::Closure => "(function)"@,
        ValueTypes::Table => "table"@,
        ValueTypes::UserData => "userdata"@,
    }
}

impl ValueTypes {
    /// The type as written in messages.
    pub fn to_string(&self) -> (r: String)
        ensures
            r@ == value_type_text(*self),
    {
        let s: &str = match self {
            ValueTypes::String => "string",
            ValueTypes::Number => "number",
            ValueTypes::Operator => "operator",
            ValueTypes::Integer => "integer",
            ValueTypes::Bool => "bool",
            ValueTypes::Nil => "nil",
            ValueTypes::Infinity => "infinity",
            ValueTypes::NativeFunction => "native_function",
            ValueTypes::Function => "function",
            ValueTypes::Closure => "(function)",
            ValueTypes::Table => "table",
            ValueTypes::UserData => "userdata",
        };
        String::from_str(s)
    }
}

/// The message of an error.
pub open spec fn error_text(e: SiltErrorView) -> Seq<char> {
    match e {
        SiltErrorView::VmUpvalueResolveError => "Unexpected issue resolving upvalue for closure"@,
        SiltErrorView::ExpectedAssign => "Expected assignment operator '='"@,
        SiltErrorView::TableExpectedCommaOrCloseBrace => "Table expected a comma or termination by closing brace '}'"@,
        SiltErrorView::UndefinedLabel(a0) => "No matching goto label for '"@ + a0 + "'"@,
        SiltErrorView::ExpectedGotoIdentifier => "Expected identifier following goto keyword"@,
        SiltErrorView::ExpectedFieldIdentifier => "Expected identifier following field accessor '.'"@,
        SiltErrorView::ChunkCorrupt => "Invalid chunk due compilation corruption"@,
        SiltErrorView::TooManyOperations => "Too many operations within this condition, limited to 65535"@,
        SiltErrorView::TooManyLocals => "Too many local variables, limited to 255"@,
        SiltErrorView::TooManyParameters => "Too many parameters, limited to 255"@,
        SiltErrorView::InvalidVarArgParam => "vararg is not last param in function"@,
        SiltErrorView::InvalidVarArgUsage => "vararg used outside of vararg function"@,
        SiltErrorView::InvalidVarArgAssignment => "cannot assign to a vararg"@,
        SiltErrorView::InvalidNumber(a0) => "Invalid number: "@ + a0,
        SiltErrorView::NotANumber(a0) => "Not a number: "@ + a0,
        SiltErrorView::UnexpectedCharacter(a0) => "Unexpected character: "@ + seq![a0],
        SiltErrorView::UnterminatedString => "Unterminated string"@,
        SiltErrorView::UnterminatedParenthesis(a0, a1) => "Expected closing paren due to open paren '(' here "@ + decimal(a0 as nat) + ":"@ + decimal(a1 as nat),
        SiltErrorView::UnterminatedBracket(a0, a1) => "Expected closing bracket due to open bracket '[' here "@ + decimal(a0 as nat) + ":"@ + decimal(a1 as nat),
        SiltErrorView::ExpInvalidOperator(a0) => "Invalid expression token: "@ + meta_text(a0),
        SiltErrorView::EarlyEndOfFile => "File ended early"@,
        SiltErrorView::ExpOpValueWithValue(a0, a1, a2) => "Cannot "@ + meta_text(a1) + " '"@ + value_type_text(a0) + "' and '"@ + value_type_text(a2) + "'"@,
        SiltErrorView::VmNonTableOperations(a0) => "Cannot perform table operations on a non-table value ("@ + value_type_text(a0) + ")"@,
        SiltErrorView::ExpInvalidNegation(a0) => "Cannot negate '"@ + value_type_text(a0) + "'"@,
        SiltErrorView::InvalidTokenPlacement(a0) => "Invalid token placement: "@ + token_text(a0),
        SiltErrorView::InvalidColonPlacement => "Colon must be followed by type and assigned or a call"@,
        SiltErrorView::ExpInvalidBitwise(a0) => "Cannot bitwise on '"@ + value_type_text(a0) + "'"@,
        SiltErrorView::ExpInvalidLength(a0) => "Cannot get length of '"@ + value_type_text(a0) + "'"@,
        SiltErrorView::EvalNoInteger(a0) => value_type_text(a0) + " has no direct integer conversion for operation"@,
        SiltErrorView::ExpectedLocalIdentifier => "Expected identifier following local keyword"@,
        SiltErrorView::ExpectedLabelIdentifier => "Expected identifier only inbetween label tokens `::`"@,
        SiltErrorView::InvalidAssignment(a0) => "Cannot use assignment operator '"@ + token_text(a0) + "' on declaration"@,
        SiltErrorView::UnterminatedBlock => "Unterminated block"@,
        SiltErrorView::ExpectedThen => "Expected 'then' after if condition"@,
        SiltErrorView::ExpectedDo => "Expected 'do' after while condition"@,
        SiltErrorView::ExpectedToken(a0) => "Expected token: "@ + token_text(a0),
        SiltErrorView::NotCallable(a0) => "Value '"@ + a0 + "' is not callable"@,
        SiltErrorView::ExpInvalid => "Invalid expression"@,
        SiltErrorView::VmCompileError => "Error compiling chunk"@,
        SiltErrorView::VmRuntimeError => "Runtime error for chunk"@,
        SiltErrorView::VmCorruptConstant => "Constant store corrupted"@,
        SiltErrorView::VmValBadConvert(a0) => "Impossible to convert from \""@ + value_type_text(a0) + "\""@,
        SiltErrorView::VmNativeParameterMismatch => "Cannot call native function with available parameters"@,
        SiltErrorView::Unknown => "Unknown error"@,
        SiltErrorView::MetaMethodMissing(a0) => "Meta method missing for '"@ + meta_text(a0) + "'"@,
        SiltErrorView::MetaMethodNotCallable(a0) => "Value for meta method '"@ + meta_text(a0) + "' is not callable"@,
        SiltErrorView::CoerceInt => "Value can't be strictly coerced to an integer"@,
        SiltErrorView::UDNoInitField => "UserData field not setup"@,
        SiltErrorView::UDNoInitMethod => "UserData method not setup"@,
        SiltErrorView::UDNoMap => "UserData map not setup"@,
        SiltErrorView::UDNoFieldGet => "UserData field getter does not exist"@,
        SiltErrorView::UDNoFieldSet => "UserData field setter does not exist"@,
        SiltErrorView::UDNoMethodRef => "UserData method does not exist"@,
        SiltErrorView::UDTypeMismatch => "UserData type mismatch during method or field access"@,
        SiltErrorView::UDRefDropped => "UserData weak reference dropped"@,
        SiltErrorView::UDBadCall => "UserData method called with non-userdata self, try :"@,
        SiltErrorView::UDBadCast => "UserData bad downcast"@,
        SiltErrorView::Custom(a0) => a0,
        SiltErrorView::Network(a0) => "Network Error; "@ + a0,
        SiltErrorView::IO(a0) => "Input Output Error; "@ + a0,
    }
}

impl SiltError {
    /// The error's message.
    #[verifier::rlimit(40)]
    pub fn to_string(&self) -> (r: String)
        ensures
            r@ == error_text(self@),
    {
        match self {
            SiltError::VmUpvalueResolveError => {
                let mut r = String::from_str("Unexpected issue resolving upvalue for closure");
                r
            },
            SiltError::ExpectedAssign => {
                let mut r = String::from_str("Expected assignment operator '='");
                r
            },
            SiltError::TableExpectedCommaOrCloseBrace => {
                let mut r = String::from_str("Table expected a comma or termination by closing brace '}'");
                r
            },
            SiltError::UndefinedLabel(a0) => {
                let mut r = String::from_str("No matching goto label for '");
                r.append(a0.as_str());
                r.append("'");
                proof { assert(r@ =~= error_text(self@)); }
                r
            },
            SiltError::ExpectedGotoIdentifier => {
                let mut r = String::from_str("Expected identifier following goto keyword");
                r
            },
            SiltError::ExpectedFieldIdentifier => {
                let mut r = String::from_str("Expected identifier following field accessor '.'");
                r
            },
            SiltError::ChunkCorrupt => {
                let mut r = String::from_str("Invalid chunk due compilation corruption");
                r
            },
            SiltError::TooManyOperations => {
                let mut r = String::from_str("Too many operations within this condition, limited to 65535");
                r
            },
            SiltError::TooManyLocals => {
                let mut r = String::from_str("Too many local variables, limited to 255");
                r
            },
            SiltError::TooManyParameters => {
                let mut r = String::from_str("Too many parameters, limited to 255");
                r
            },
            SiltError::InvalidVarArgParam => {
                let mut r = String::from_str("vararg is not last param in function");
                r
            },
            SiltError::InvalidVarArgUsage => {
                let mut r = String::from_str("vararg used outside of vararg function");
                r
            },
            SiltError::InvalidVarArgAssignment => {
                let mut r = String::from_str("cannot assign to a vararg");
                r
            },
            SiltError::InvalidNumber(a0) => {
                let mut r = String::from_str("Invalid number: ");
                r.append(a0.as_str());
                proof { assert(r@ =~= error_text(self@)); }
                r
            },
            SiltError::NotANumber(a0) => {
                let mut r = String::from_str("Not a number: ");
                r.append(a0.as_str());
                proof { assert(r@ =~= error_text(self@)); }
                r
            },
            SiltError::UnexpectedCharacter(a0) => {
                let mut r = String::from_str("Unexpected character: ");
                push_char(&mut r, *a0);
                proof { assert(r@ =~= error_text(self@)); }
                r
            },
            SiltError::UnterminatedString => {
                let mut r = String::from_str("Unterminated string");
                r
            },
            SiltError::UnterminatedParenthesis(a0, a1) => {
                let mut r = String::from_str("Expected closing paren due to open paren '(' here ");
                let d_a0 = usize_to_decimal(*a0);
                r.append(d_a0.as_str());
                r.append(":");
                let d_a1 = usize_to_decimal(*a1);
                r.append(d_a1.as_str());
                proof { assert(r@ =~= error_text(self@)); }
                r
            },
            SiltError::UnterminatedBracket(a0, a1) => {
                let mut r = String::from_str("Expected closing bracket due to open bracket '[' here ");
                let d_a0 = usize_to_decimal(*a0);
                r.append(d_a0.as_str());
                r.append(":");
                let d_a1 = usize_to_decimal(*a1);
                r.append(d_a1.as_str());
                proof { assert(r@ =~= error_text(self@)); }
                r
            },
            SiltError::ExpInvalidOperator(a0) => {
                let mut r = String::from_str("Invalid expression token: ");
                let t_a0 = a0.to_string();
                r.append(t_a0.as_str());
                proof { assert(r@ =~= error_text(self@)); }
                r
            },
            SiltError::EarlyEndOfFile => {
                let mut r = String::from_str("File ended early");
                r
            },
            SiltError::ExpOpValueWithValue(a0, a1, a2) => {
                let mut r = String::from_str("Cannot ");
                let t_a1 = a1.to_string();
                r.append(t_a1.as_str());
                r.append(" '");
                let t_a0 = a0.to_string();
                r.append(t_a0.as_str());
                r.append("' and '");
                let t_a2 = a2.to_string();
                r.append(t_a2.as_str());
                r.append("'");
                proof { assert(r@ =~= error_text(self@)); }
                r
            },
            SiltError::VmNonTableOperations(a0) => {
                let mut r = String::from_str("Cannot perform table operations on a non-table value (");
                let t_a0 = a0.to_string();
                r.append(t_a0.as_str());
                r.append(")");
                proof { assert(r@ =~= error_text(self@)); }
                r
            },
            SiltError::ExpInvalidNegation(a0) => {
                let mut r = String::from_str("Cannot negate '");
                let t_a0 = a0.to_string();
                r.append(t_a0.as_str());
                r.append("'");
                proof { assert(r@ =~= error_text(self@)); }
                r
            },
            SiltError::InvalidTokenPlacement(a0) => {
                let mut r = String::from_str("Invalid token placement: ");
                let t_a0 = a0.to_string();
                r.append(t_a0.as_str());
                proof { assert(r@ =~= error_text(self@)); }
                r
            },
            SiltError::InvalidColonPlacement => {
                let mut r = String::from_str("Colon must be followed by type and assigned or a call");
                r
            },
            SiltError::ExpInvalidBitwise(a0) => {
                let mut r = String::from_str("Cannot bitwise on '");
                let t_a0 = a0.to_string();
                r.append(t_a0.as_str());
                r.append("'");
                proof { assert(r@ =~= error_text(self@)); }
                r
            },
            SiltError::ExpInvalidLength(a0) => {
                let mut r = String::from_str("Cannot get length of '");
                let t_a0 = a0.to_string();
                r.append(t_a0.as_str());
                r.append("'");
                proof { assert(r@ =~= error_text(self@)); }
                r
            },
            SiltError::EvalNoInteger(a0) => {
                let mut r = a0.to_string();
                r.append(" has no direct integer conversion for operation");
                proof { assert(r@ =~= error_text(self@)); }
                r
            },
            SiltError::ExpectedLocalIdentifier => {
                let mut r = String::from_str("Expected identifier following local keyword");
                r
            },
            SiltError::ExpectedLabelIdentifier => {
                let mut r = String::from_str("Expected identifier only inbetween label tokens `::`");
                r
            },
            SiltError::InvalidAssignment(a0) => {
                let mut r = String::from_str("Cannot use assignment operator '");
                let t_a0 = a0.to_string();
                r.append(t_a0.as_str());
                r.append("' on declaration");
                proof { assert(r@ =~= error_text(self@)); }
                r
            },
            SiltError::UnterminatedBlock => {
                let mut r = String::from_str("Unterminated block");
                r
            },
            SiltError::ExpectedThen => {
                let mut r = String::from_str("Expected 'then' after if condition");
                r
            },
            SiltError::ExpectedDo => {
                let mut r = String::from_str("Expected 'do' after while condition");
                r
            },
            SiltError::ExpectedToken(a0) => {
                let mut r = String::from_str("Expected token: ");
                let t_a0 = a0.to_string();
                r.append(t_a0.as_str());
                proof { assert(r@ =~= error_text(self@)); }
                r
            },
            SiltError::NotCallable(a0) => {
                let mut r = String::from_str("Value '");
                r.append(a0.as_str());
                r.append("' is not callable");
                proof { assert(r@ =~= error_text(self@)); }
                r
            },
            SiltError::ExpInvalid => {
                let mut r = String::from_str("Invalid expression");
                r
            },
            SiltError::VmCompileError => {
                let mut r = String::from_str("Error compiling chunk");
                r
            },
            SiltError::VmRuntimeError => {
                let mut r = String::from_str("Runtime error for chunk");
                r
            },
            SiltError::VmCorruptConstant => {
                let mut r = String::from_str("Constant store corrupted");
                r
            },
            SiltError::VmValBadConvert(a0) => {
                let mut r = String::from_str("Impossible to convert from \"");
                let t_a0 = a0.to_string();
                r.append(t_a0.as_str());
                r.append("\"");
                proof { assert(r@ =~= error_text(self@)); }
                r
            },
            SiltError::VmNativeParameterMismatch => {
                let mut r = String::from_str("Cannot call native function with available parameters");
                r
            },
            SiltError::Unknown => {
                let mut r = String::from_str("Unknown error");
                r
            },
            SiltError::MetaMethodMissing(a0) => {
                let mut r = String::from_str("Meta method missing for '");
                let t_a0 = a0.to_string();
                r.append(t_a0.as_str());
                r.append("'");
                proof { assert(r@ =~= error_text(self@)); }
                r
            },
            SiltError::MetaMethodNotCallable(a0) => {
                let mut r = String::from_str("Value for meta method '");
                let t_a0 = a0.to_string();
                r.append(t_a0.as_str());
                r.append("' is not callable");
                proof { assert(r@ =~= error_text(self@)); }
                r
            },
            SiltError::CoerceInt => {
                let mut r = String::from_str("Value can't be strictly coerced to an integer");
                r
            },
            SiltError::UDNoInitField => {
                let mut r = String::from_str("UserData field not setup");
                r
            },
            SiltError::UDNoInitMethod => {
                let mut r = String::from_str("UserData method not setup");
                r
            },
            SiltError::UDNoMap => {
                let mut r = String::from_str("UserData map not setup");
                r
            },
            SiltError::UDNoFieldGet => {
                let mut r = String::from_str("UserData field getter does not exist");
                r
            },
            SiltError::UDNoFieldSet => {
                let mut r = String::from_str("UserData field setter does not exist");
                r
            },
            SiltError::UDNoMethodRef => {
                let mut r = String::from_str("UserData method does not exist");
                r
            },
            SiltError::UDTypeMismatch => {
                let mut r = String::from_str("UserData type mismatch during method or field access");
                r
            },
            SiltError::UDRefDropped => {
                let mut r = String::from_str("UserData weak reference dropped");
                r
            },
            SiltError::UDBadCall => {
                let mut r = String::from_str("UserData method called with non-userdata self, try :");
                r
            },
            SiltError::UDBadCast => {
                let mut r = String::from_str("UserData bad downcast");
                r
            },
            SiltError::Custom(a0) => {
                let mut r = a0.clone();
                r
            },
            SiltError::Network(a0) => {
                let mut r = String::from_str("Network Error; ");
                r.append(a0.as_str());
                proof { assert(r@ =~= error_text(self@)); }
                r
            },
            SiltError::IO(a0) => {
                let mut r = String::from_str("Input Output Error; ");
                r.append(a0.as_str());
                proof { assert(r@ =~= error_text(self@)); }
                r
            },
        }
    }
}


/// How an error with its location is written: `message@line:col`.
pub open spec fn tuple_text(t: ErrorTuple) -> Seq<char> {
    error_text(t.code@) + "@"@ + decimal(t.location.0 as nat) + ":"@ + decimal(t.location.1 as nat)
}

/// The message of an error followed by the snippet of its source line.
pub open spec fn tuple_snippet(t: ErrorTuple, source: Seq<char>) -> Seq<char> {
    "error: "@ + error_text(t.code@) + " (line "@ + decimal(t.location.0 as nat) + ", col "@
        + decimal(t.location.1 as nat) + ")\n"@
        + spec_error_snippet(source, t.location.0 as nat, t.location.1 as nat)
}

/// The errors numbered from 1, one per line: `1. e1`, `2. e2`, ...
pub open spec fn numbered_listing(es: Seq<ErrorTuple>) -> Seq<char>
    decreases es.len(),
{
    if es.len() == 0 {
        Seq::empty()
    } else {
        let item = decimal(es.len()) + ". "@ + tuple_text(es.last());
        if es.len() == 1 {
            item
        } else {
            numbered_listing(es.drop_last()) + "\n"@ + item
        }
    }
}

/// The snippets of all errors, separated by blank lines.
pub open spec fn snippet_listing(es: Seq<ErrorTuple>, source: Seq<char>) -> Seq<char>
    decreases es.len(),
{
    if es.len() == 0 {
        Seq::empty()
    } else if es.len() == 1 {
        tuple_snippet(es[0], source)
    } else {
        snippet_listing(es.drop_last(), source) + "\n\n"@ + tuple_snippet(es.last(), source)
    }
}

/// The report of a failed run, as [`ErrorOut::to_string`] renders it.
pub open spec fn report_text(errors: Seq<ErrorTuple>, source: Option<Seq<char>>) -> Seq<char> {
    let name = match source {
        Some(s) => s,
        None => "unknown"@,
    };
    if errors.len() > 1 {
        "source ["@ + name + "] failed with:\n"@ + numbered_listing(errors)
    } else {
        let first = if errors.len() == 1 {
            errors[0]
        } else {
            ErrorTuple { code: SiltError::Unknown, location: (0, 0) }
        };
        "source ["@ + name + "] failed with: "@ + tuple_text(first)
    }
}

impl Default for ErrorTuple {
    fn default() -> (t: Self)
        ensures
            t == (ErrorTuple { code: SiltError::Unknown, location: (0, 0) }),
    {
        ErrorTuple { code: SiltError::Unknown, location: (0, 0) }
    }
}

impl ErrorTuple {
    /// The error with its location: `message@line:col`.
    pub fn to_string(&self) -> (r: String)
        ensures
            r@ == tuple_text(*self),
    {
        let mut r = self.code.to_string();
        r.append("@");
        let l = usize_to_decimal(self.location.0);
        r.append(l.as_str());
        r.append(":");
        let c = usize_to_decimal(self.location.1);
        r.append(c.as_str());
        r
    }

    /// This error's message plus a snippet with a caret under its location.
    pub fn snippet(&self, source: &str) -> (r: String)
        ensures
            r@ == tuple_snippet(*self, source@),
    {
        let mut r = String::from_str("error: ");
        let m = self.code.to_string();
        r.append(m.as_str());
        r.append(" (line ");
        let l = usize_to_decimal(self.location.0);
        r.append(l.as_str());
        r.append(", col ");
        let c = usize_to_decimal(self.location.1);
        r.append(c.as_str());
        r.append(")\n");
        let s = error_snippet(source, self.location);
        r.append(s.as_str());
        r
    }
}

/// The first error of a non-empty list.
pub fn first_error(value: Vec<ErrorTuple>) -> (e: SiltError)
    requires
        value@.len() > 0,
    ensures
        e == value@[0].code,
{
    value[0].code.clone()
}

impl ErrorOut {
    /// The report of the failure: the source name and every error, numbered
    /// when there are several.
    pub fn to_string(&self) -> (r: String)
        ensures
            r@ == report_text(self.errors@, match self.source {
                Some(s) => Some(s@),
                None => None,
            }),
    {
        let mut r = String::from_str("source [");
        match &self.source {
            Some(s) => r.append(s.as_str()),
            None => r.append("unknown"),
        }
        let n = self.errors.len();
        if n > 1 {
            r.append("] failed with:\n");
            let ghost head = r@;
            let mut i: usize = 0;
            while i < n
                invariant
                    n == self.errors@.len(),
                    i <= n,
                    r@ == head + numbered_listing(self.errors@.take(i as int)),
                decreases n - i,
            {
                if i > 0 {
                    r.append("\n");
                }
                let num = usize_to_decimal(i + 1);
                r.append(num.as_str());
                r.append(". ");
                let t = self.errors[i].to_string();
                r.append(t.as_str());
                proof {
                    let es = self.errors@.take(i + 1);
                    assert(es.drop_last() =~= self.errors@.take(i as int));
                    assert(es.last() == self.errors@[i as int]);
                    if i == 0 {
                        assert(numbered_listing(self.errors@.take(0)) =~= Seq::<char>::empty());
                    }
                }
                i += 1;
            }
            assert(self.errors@.take(n as int) =~= self.errors@);
        } else {
            r.append("] failed with: ");
            let t = if n == 1 { self.errors[0].to_string() } else { ErrorTuple::default().to_string() };
            r.append(t.as_str());
        }
        r
    }

    /// Every error rendered as message and source snippet, separated by blank
    /// lines. The caller supplies the source text, which the report does not keep.
    pub fn snippet(&self, source: &str) -> (r: String)
        ensures
            r@ == snippet_listing(self.errors@, source@),
    {
        let n = self.errors.len();
        let mut r = String::new();
        let mut i: usize = 0;
        while i < n
            invariant
                n == self.errors@.len(),
                i <= n,
                r@ == snippet_listing(self.errors@.take(i as int), source@),
            decreases n - i,
        {
            let ghost before = r@;
            if i > 0 {
                r.append("\n\n");
            }
            let s = self.errors[i].snippet(source);
            r.append(s.as_str());
            proof {
                let es = self.errors@.take(i + 1);
                assert(es.drop_last() =~= self.errors@.take(i as int));
                assert(es.last() == self.errors@[i as int]);
                if i == 0 {
                    assert(before =~= Seq::<char>::empty());
                    assert(r@ =~= tuple_snippet(es[0], source@));
                }
            }
            i += 1;
        }
        assert(self.errors@.take(n as int) =~= self.errors@);
        r
    }
}

} // verus!

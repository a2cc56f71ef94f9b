//! The compiler's bookkeeping and the editor support it offers.
//!
//! The bookkeeping: the grammar's precedence table, errors, the block and
//! function nesting, the compile-time stack of locals and the captures of
//! enclosing functions' locals, jumps and their patching, labels, `goto`s and
//! loops. The editor support: a map of the source's tokens by kind (for
//! highlighting) and a quick tab re-indentation.

use vstd::prelude::*;
use vstd::string::*;
use crate::chunk::{identifier_written, Chunk};
use crate::code::OpCode;
use crate::error::{error_text, ErrorTuple, SiltError, SiltErrorView, TokenCell, TokenTriple};
use crate::lexer::{lexer_wf, sp_next, LexState, Lexer};
use crate::lsp::{count_nl, is_white, start_lexer};
use crate::text::{chars_of, decimal, push_char, push_repeated, repeat_char, u64_to_decimal, usize_to_decimal};
use crate::token::{Operator, Token, TokenView};
use crate::value::Value;

verus! {

/// The names of the token kinds of the map, kind `k` at position `k - 1`.
pub open spec fn word_map() -> Seq<Seq<char>> {
    seq!["keyword"@, "op"@, "number"@, "bool"@, "nil"@, "string"@, "comment"@]
}

/// A token mark: its start, its length and its kind (0 for none of the kinds).
pub type LSPFormatMark = (usize, usize, u8);

/// What the editor gets: the names of the token kinds, the token marks, and the
/// re-indented source (the source as it was when not formatting).
pub struct LanguageServerOutput {
    pub legend: Vec<&'static str>,
    pub map: Vec<LSPFormatMark>,
    pub indented: String,
}

/// The kind a token is highlighted as: 1 keyword, 2 operator, 3 number,
/// 4 boolean, 5 nil, 6 string, 7 comment, 0 anything else.
pub open spec fn token_kind(t: TokenView) -> u8 {
    match t {
        TokenView::Local | TokenView::Global | TokenView::Function | TokenView::If | TokenView::Then
        | TokenView::Else | TokenView::ElseIf | TokenView::End | TokenView::While | TokenView::Do
        | TokenView::For | TokenView::Return | TokenView::Print | TokenView::Goto => 1,
        TokenView::Op(_) | TokenView::Assign => 2,
        TokenView::Integer(_) | TokenView::Number(_) => 3,
        TokenView::True | TokenView::False => 4,
        TokenView::Nil => 5,
        TokenView::StringLiteral(_) => 6,
        TokenView::Comment => 7,
        _ => 0,
    }
}

fn token_kind_exec(t: &Token) -> (k: u8)
    ensures
        k == token_kind(t@),
{
    match t {
        Token::Local | Token::Global | Token::Function | Token::If | Token::Then | Token::Else
        | Token::ElseIf | Token::End | Token::While | Token::Do | Token::For | Token::Return
        | Token::Print | Token::Goto => 1,
        Token::Op(_) | Token::Assign => 2,
        Token::Integer(_) | Token::Number(_) => 3,
        Token::True | Token::False => 4,
        Token::Nil => 5,
        Token::StringLiteral(_) => 6,
        Token::Comment => 7,
        _ => 0,
    }
}

/// `s` without its white space other than line breaks.
pub open spec fn squash(s: Seq<char>) -> Seq<char>
    decreases s.len(),
{
    if s.len() == 0 {
        Seq::empty()
    } else {
        let c = s.last();
        if !is_white(c) || c == '\n' { squash(s.drop_last()).push(c) } else { squash(s.drop_last()) }
    }
}

/// Whether every character of `s` is white space.
pub open spec fn all_white(s: Seq<char>) -> bool {
    forall|i: int| 0 <= i < s.len() ==> is_white(#[trigger] s[i])
}

/// The characters of `src` from `a` to `b`, both cut to the source's end.
pub open spec fn piece(src: Seq<char>, a: int, b: int) -> Seq<char> {
    let n = src.len() as int;
    let a1 = if a < n { a } else { n };
    let b1 = if b < n { b } else { n };
    if 0 <= a1 <= b1 { src.subrange(a1, b1) } else { Seq::empty() }
}

/// Where a token's mark starts once `offset` characters of squashed white space
/// are taken into account; 0 when that leaves the range of positions.
pub open spec fn mark_pos(start: int, offset: int) -> int {
    if offset < 0 {
        if start >= -offset { start + offset } else { 0 }
    } else {
        if start + offset <= usize::MAX { start + offset } else { 0 }
    }
}

/// The state of the token walk.
pub struct LspState {
    pub map: Seq<LSPFormatMark>,
    pub indented: Seq<char>,
    pub level: int,
    pub at_line_start: bool,
    pub last_pos: int,
    pub offset: int,
}

/// The walk before the first token.
pub open spec fn lsp_start() -> LspState {
    LspState { map: Seq::empty(), indented: Seq::empty(), level: 0, at_line_start: true, last_pos: 0, offset: 0 }
}

/// The text between the previous token and one starting at `start` is copied
/// (when formatting); if it breaks the line, its white space other than line
/// breaks is dropped, the drop is remembered as a negative offset, and the next
/// token starts a line.
pub open spec fn lsp_between(src: Seq<char>, fmt: bool, st: LspState, start: int) -> LspState {
    if start > st.last_pos && fmt {
        let between = piece(src, st.last_pos, start);
        if count_nl(between) > 0 {
            let sq = squash(between);
            LspState {
                offset: st.offset - (between.len() - sq.len()),
                indented: st.indented + sq,
                at_line_start: true,
                ..st
            }
        } else {
            LspState { indented: st.indented + between, ..st }
        }
    } else {
        st
    }
}

/// A token starting a line is indented by a tab per open block (`end`, `else`
/// and `elseif` closing one first).
pub open spec fn lsp_indent(fmt: bool, st: LspState, t: TokenView) -> LspState {
    if fmt && st.at_line_start && !(t is EOF) {
        let lvl = if (t is End || t is Else || t is ElseIf) && st.level > 0 { st.level - 1 } else { st.level };
        LspState { level: lvl, indented: st.indented + repeat_char('\t', lvl as nat), at_line_start: false, ..st }
    } else {
        st
    }
}

/// A token that is not blank gets a mark at its position less the offset, and
/// its text is copied (when formatting).
pub open spec fn lsp_mark(src: Seq<char>, fmt: bool, st: LspState, t: TokenView, tri: TokenTriple) -> LspState {
    let start = tri.index as int;
    if !(t is EOF) {
        let text = piece(src, start, start + tri.length);
        if !all_white(text) {
            let i = mark_pos(start, st.offset);
            LspState {
                map: st.map.push((i as usize, tri.length, token_kind(t))),
                indented: if fmt { st.indented + text } else { st.indented },
                ..st
            }
        } else {
            st
        }
    } else {
        st
    }
}

/// `then`, `do` and `function` open a block (when formatting).
pub open spec fn lsp_open(fmt: bool, st: LspState, t: TokenView) -> LspState {
    if fmt && (t is Then || t is Do || t is Function) {
        LspState { level: st.level + 1, ..st }
    } else {
        st
    }
}

/// The walk after one more token `t` at `tri`: the steps above in turn, then
/// the token's end (cut to the source's end) is where the next gap starts.
pub open spec fn lsp_token(src: Seq<char>, fmt: bool, st: LspState, t: TokenView, tri: TokenTriple) -> LspState {
    let st1 = lsp_between(src, fmt, st, tri.index as int);
    let st2 = lsp_indent(fmt, st1, t);
    let st3 = lsp_mark(src, fmt, st2, t, tri);
    let st4 = lsp_open(fmt, st3, t);
    let end = tri.index + tri.length;
    LspState { last_pos: if end < src.len() { end } else { src.len() as int }, ..st4 }
}

/// The walk over the rest of the tokens; tokens the lexer rejects are skipped.
pub open spec fn lsp_scan(lx: LexState, src: Seq<char>, fmt: bool, st: LspState) -> LspState
    decreases src.len() + 2 - lx.current,
{
    let (r, l2) = sp_next(lx);
    match r {
        None => st,
        Some(res) => {
            if lx.current < l2.current <= src.len() + 2 {
                match res {
                    Err(_) => lsp_scan(l2, src, fmt, st),
                    Ok((t, tri)) => lsp_scan(l2, src, fmt, lsp_token(src, fmt, st, t, tri)),
                }
            } else {
                st
            }
        },
    }
}

/// The marks and text [`lsp`] gives for `src`.
pub open spec fn spec_lsp(src: Seq<char>, fmt: bool) -> (Seq<LSPFormatMark>, Seq<char>) {
    let st = lsp_scan(start_lexer(src), src, fmt, lsp_start());
    let text = if fmt {
        if st.last_pos < src.len() { st.indented + src.subrange(st.last_pos, src.len() as int) } else { st.indented }
    } else {
        src
    };
    (st.map, text)
}

/// The exec state of the token walk.
struct LspWork {
    map: Vec<LSPFormatMark>,
    indented: String,
    level: usize,
    at_line_start: bool,
    last_pos: usize,
    offset: i128,
}

impl LspWork {
    spec fn state(&self) -> LspState {
        LspState {
            map: self.map@,
            indented: self.indented@,
            level: self.level as int,
            at_line_start: self.at_line_start,
            last_pos: self.last_pos as int,
            offset: self.offset as int,
        }
    }

    spec fn bounded(&self, n: int, current: int) -> bool {
        &&& self.last_pos <= n
        &&& 0 <= -self.offset <= current * n
        &&& self.level <= current
    }
}

/// Appends `squash(cs[a..b])`; returns how many characters it dropped.
fn push_squashed(out: &mut String, cs: &Vec<char>, a: usize, b: usize) -> (dropped: usize)
    requires
        a <= b <= cs@.len(),
    ensures
        final(out)@ == old(out)@ + squash(cs@.subrange(a as int, b as int)),
        dropped == (b - a) - squash(cs@.subrange(a as int, b as int)).len(),
        dropped <= b - a,
{
    let ghost start = out@;
    let mut i = a;
    let mut kept: usize = 0;
    while i < b
        invariant
            a <= i <= b <= cs@.len(),
            out@ == start + squash(cs@.subrange(a as int, i as int)),
            kept == squash(cs@.subrange(a as int, i as int)).len(),
            kept <= i - a,
        decreases b - i,
    {
        let c = cs[i];
        proof {
            assert(cs@.subrange(a as int, i + 1).drop_last() =~= cs@.subrange(a as int, i as int));
            assert(cs@.subrange(a as int, i + 1).last() == c);
        }
        if !crate::lsp::white(c) || c == '\n' {
            push_char(out, c);
            kept += 1;
        }
        i += 1;
    }
    (b - a) - kept
}

/// Whether every character of `cs[a..b]` is white space.
fn blank(cs: &Vec<char>, a: usize, b: usize) -> (r: bool)
    requires
        a <= b <= cs@.len(),
    ensures
        r == all_white(cs@.subrange(a as int, b as int)),
{
    let mut i = a;
    while i < b
        invariant
            a <= i <= b <= cs@.len(),
            forall|j: int| a <= j < i ==> is_white(cs@[j]),
        decreases b - i,
    {
        if !crate::lsp::white(cs[i]) {
            assert(!is_white(cs@.subrange(a as int, b as int)[i - a]));
            return false;
        }
        i += 1;
    }
    assert forall|j: int| 0 <= j < b - a implies is_white(#[trigger] cs@.subrange(a as int, b as int)[j]) by {
        assert(cs@.subrange(a as int, b as int)[j] == cs@[a + j]);
    }
    true
}

/// Clamps a position to `n`.
fn clamp(x: usize, n: usize) -> (r: usize)
    ensures
        r == (if x < n { x } else { n }),
{
    if x < n { x } else { n }
}

fn step_between(w: &mut LspWork, cs: &Vec<char>, fmt: bool, start: usize)
    requires
        old(w).last_pos <= cs@.len(),
        0 <= -old(w).offset,
        -old(w).offset + cs@.len() < i128::MAX,
    ensures
        final(w).state() == lsp_between(cs@, fmt, old(w).state(), start as int),
        final(w).last_pos == old(w).last_pos,
        final(w).level == old(w).level,
        -old(w).offset <= -final(w).offset <= -old(w).offset + cs@.len(),
{
    let n = cs.len();
    if start > w.last_pos && fmt {
        let a = w.last_pos;
        let b = clamp(start, n);
        let nl = crate::lsp::count_newlines(cs, a, b);
        proof {
            assert(cs@.subrange(a as int, b as int) == piece(cs@, a as int, start as int));
        }
        if nl > 0 {
            let dropped = push_squashed(&mut w.indented, cs, a, b);
            w.offset = w.offset - dropped as i128;
            w.at_line_start = true;
        } else {
            crate::lsp::push_range(&mut w.indented, cs, a, b);
        }
    }
}

fn step_indent(w: &mut LspWork, fmt: bool, tok: &Token)
    ensures
        final(w).state() == lsp_indent(fmt, old(w).state(), tok@),
        final(w).last_pos == old(w).last_pos,
        final(w).offset == old(w).offset,
        final(w).level <= old(w).level,
{
    let is_eof = match tok { Token::EOF => true, _ => false };
    if fmt && w.at_line_start && !is_eof {
        let closes = match tok { Token::End | Token::Else | Token::ElseIf => true, _ => false };
        if closes && w.level > 0 {
            w.level = w.level - 1;
        }
        push_repeated(&mut w.indented, '\t', w.level);
        w.at_line_start = false;
    }
}

fn step_mark(w: &mut LspWork, cs: &Vec<char>, fmt: bool, tok: &Token, tri: TokenTriple)
    requires
        old(w).offset <= 0,
    ensures
        final(w).state() == lsp_mark(cs@, fmt, old(w).state(), tok@, tri),
        final(w).last_pos == old(w).last_pos,
        final(w).offset == old(w).offset,
        final(w).level == old(w).level,
{
    let n = cs.len();
    let start = tri.index;
    let is_eof = match tok { Token::EOF => true, _ => false };
    if !is_eof {
        let a = clamp(start, n);
        let b = if tri.length <= n - a { a + tri.length } else { n };
        proof {
            assert(cs@.subrange(a as int, b as int) == piece(cs@, start as int, start + tri.length));
        }
        if !blank(cs, a, b) {
            let i: usize = if w.offset < 0 {
                if (start as i128) + w.offset >= 0 { ((start as i128) + w.offset) as usize } else { 0 }
            } else {
                start
            };
            w.map.push((i, tri.length, token_kind_exec(tok)));
            if fmt {
                crate::lsp::push_range(&mut w.indented, cs, a, b);
            }
        }
    }
}

fn step_open(w: &mut LspWork, fmt: bool, tok: &Token)
    requires
        old(w).level < usize::MAX,
    ensures
        final(w).state() == lsp_open(fmt, old(w).state(), tok@),
        final(w).last_pos == old(w).last_pos,
        final(w).offset == old(w).offset,
        final(w).level <= old(w).level + 1,
{
    if fmt {
        let opens = match tok { Token::Then | Token::Do | Token::Function => true, _ => false };
        if opens {
            w.level = w.level + 1;
        }
    }
}

proof fn lemma_offset_room(current: int, n: int, back: int)
    requires
        0 <= current <= n + 2,
        0 <= n,
        n + 8 < i64::MAX,
        0 <= back <= current * n,
    ensures
        back + n < i128::MAX,
        (current + 1) * n + n < i128::MAX,
{
    assert(current * n <= (n + 2) * n) by (nonlinear_arith)
        requires
            0 <= current <= n + 2,
            0 <= n;
    assert((current + 1) * n <= (n + 3) * n) by (nonlinear_arith)
        requires
            0 <= current <= n + 2,
            0 <= n;
    assert((n + 2) * n <= (n + 3) * n) by (nonlinear_arith)
        requires
            0 <= n;
    assert((n + 3) * n + n < i128::MAX) by (nonlinear_arith)
        requires
            0 <= n,
            n + 8 < i64::MAX;
}

/// One step of the token walk, on the exec state.
#[verifier::rlimit(40)]
fn lsp_step(w: &mut LspWork, cs: &Vec<char>, fmt: bool, tok: Token, tri: TokenTriple, current: usize)
    requires
        old(w).bounded(cs@.len() as int, current as int),
        cs@.len() + 8 < i64::MAX,
        cs@.len() + 8 < usize::MAX,
        current <= cs@.len() + 2,
    ensures
        final(w).state() == lsp_token(cs@, fmt, old(w).state(), tok@, tri),
        final(w).bounded(cs@.len() as int, current + 1),
{
    let n = cs.len();
    let start = tri.index;
    proof {
        lemma_offset_room(current as int, n as int, -w.offset);
    }
    step_between(w, cs, fmt, start);
    proof {
        assert(current * n + n == (current + 1) * n) by (nonlinear_arith);
    }
    step_indent(w, fmt, &tok);
    step_mark(w, cs, fmt, &tok, tri);
    step_open(w, fmt, &tok);
    w.last_pos = if tri.length <= n && start < n - tri.length { start + tri.length } else { n };
}

/// The token marks of `source` and, when `format` is set, its re-indented text
/// (else the source unchanged), with the names of the token kinds.
///
/// Tokens the lexer rejects are skipped. Positions and lengths count
/// characters.
pub fn lsp(source: &str, format: bool) -> (r: LanguageServerOutput)
    requires
        source@.len() + 8 < usize::MAX,
        source@.len() + 8 < i64::MAX,
    ensures
        r.legend@.len() == 7,
        forall|k: int| 0 <= k < 7 ==> (#[trigger] r.legend@[k])@ == word_map()[k],
        (r.map@, r.indented@) == spec_lsp(source@, format),
{
    let cs = chars_of(source);
    let mut lx = Lexer::new(source);
    let mut w = LspWork {
        map: Vec::new(),
        indented: String::new(),
        level: 0,
        at_line_start: true,
        last_pos: 0,
        offset: 0,
    };
    proof {
        assert(w.state() == lsp_start());
    }
    loop
        invariant_except_break
            lsp_scan(start_lexer(cs@), cs@, format, lsp_start()) == lsp_scan(lx@, cs@, format, w.state()),
        invariant
            lexer_wf(lx@),
            lx@.source == cs@,
            cs@ == source@,
            cs@.len() + 8 < usize::MAX,
            cs@.len() + 8 < i64::MAX,
            w.bounded(cs@.len() as int, lx@.current as int),
        ensures
            lsp_scan(start_lexer(cs@), cs@, format, lsp_start()) == w.state(),
        decreases cs@.len() + 2 - lx@.current,
    {
        let ghost before = lx@;
        let current = lx.current;
        let item = lx.next();
        match item {
            None => {
                proof {
                    assert(w.bounded(cs@.len() as int, lx@.current as int)) by {
                        assert(current * cs@.len() <= lx@.current * cs@.len()) by (nonlinear_arith)
                            requires
                                current <= lx@.current;
                    }
                }
                break;
            },
            Some(Err(_)) => {
                proof {
                    assert(w.bounded(cs@.len() as int, lx@.current as int)) by {
                        assert(current * cs@.len() <= lx@.current * cs@.len()) by (nonlinear_arith)
                            requires
                                current <= lx@.current;
                    }
                }
            },
            Some(Ok((tok, tri))) => {
                lsp_step(&mut w, &cs, format, tok, tri, current);
                proof {
                    assert(w.bounded(cs@.len() as int, lx@.current as int)) by {
                        assert((current + 1) * cs@.len() <= lx@.current * cs@.len()) by (nonlinear_arith)
                            requires
                                current + 1 <= lx@.current;
                    }
                }
            },
        }
    }
    let indented = if format {
        let mut text = w.indented;
        let n = cs.len();
        if w.last_pos < n {
            crate::lsp::push_range(&mut text, &cs, w.last_pos, n);
        }
        text
    } else {
        String::from_str(source)
    };
    let mut legend: Vec<&'static str> = Vec::new();
    legend.push("keyword");
    legend.push("op");
    legend.push("number");
    legend.push("bool");
    legend.push("nil");
    legend.push("string");
    legend.push("comment");
    LanguageServerOutput { legend, map: w.map, indented }
}

/// The words joined with commas.
pub open spec fn comma_joined(ws: Seq<Seq<char>>) -> Seq<char>
    decreases ws.len(),
{
    if ws.len() == 0 {
        Seq::empty()
    } else if ws.len() == 1 {
        ws[0]
    } else {
        comma_joined(ws.drop_last()) + ","@ + ws.last()
    }
}

/// The marks written out, each as `(start length kind),`.
pub open spec fn marks_text(map: Seq<LSPFormatMark>) -> Seq<char>
    decreases map.len(),
{
    if map.len() == 0 {
        Seq::empty()
    } else {
        let m = map.last();
        marks_text(map.drop_last()) + "("@ + decimal(m.0 as nat) + " "@ + decimal(m.1 as nat) + " "@
            + decimal(m.2 as nat) + "),"@
    }
}

/// How the output is written out: the legend, the marks, then the text.
pub open spec fn output_text(legend: Seq<Seq<char>>, map: Seq<LSPFormatMark>, indented: Seq<char>) -> Seq<char> {
    "legend ["@ + comma_joined(legend) + "],\n map \n"@ + marks_text(map) + indented + "\n"@
}

impl LanguageServerOutput {
    /// The legend, the marks and the text, written out.
    pub fn to_string(&self) -> (r: String)
        ensures
            r@ == output_text(self.legend@.map_values(|w: &'static str| w@), self.map@, self.indented@),
    {
        let ghost words = self.legend@.map_values(|w: &'static str| w@);
        let mut r = String::from_str("legend [");
        let ghost head = r@;
        let mut k: usize = 0;
        while k < self.legend.len()
            invariant
                k <= self.legend@.len(),
                words == self.legend@.map_values(|w: &'static str| w@),
                r@ == head + comma_joined(words.take(k as int)),
            decreases self.legend@.len() - k,
        {
            let ghost before = r@;
            if k > 0 {
                r.append(",");
            }
            r.append(self.legend[k]);
            proof {
                let ws = words.take(k + 1);
                assert(ws.drop_last() =~= words.take(k as int));
                assert(ws.last() == self.legend@[k as int]@);
                if k == 0 {
                    assert(words.take(0) =~= Seq::<Seq<char>>::empty());
                    assert(r@ =~= head + comma_joined(ws));
                } else {
                    assert(r@ =~= head + comma_joined(ws));
                }
            }
            k += 1;
        }
        assert(words.take(self.legend@.len() as int) =~= words);
        r.append("],\n map \n");
        let ghost mid = r@;
        let mut j: usize = 0;
        while j < self.map.len()
            invariant
                j <= self.map@.len(),
                r@ == mid + marks_text(self.map@.take(j as int)),
            decreases self.map@.len() - j,
        {
            let (a, b, c) = self.map[j];
            r.append("(");
            let da = usize_to_decimal(a);
            r.append(da.as_str());
            r.append(" ");
            let db = usize_to_decimal(b);
            r.append(db.as_str());
            r.append(" ");
            let dc = u64_to_decimal(c as u64);
            r.append(dc.as_str());
            r.append("),");
            proof {
                let ms = self.map@.take(j + 1);
                assert(ms.drop_last() =~= self.map@.take(j as int));
                assert(ms.last() == self.map@[j as int]);
                assert(r@ =~= mid + marks_text(ms));
            }
            j += 1;
        }
        assert(self.map@.take(self.map@.len() as int) =~= self.map@);
        r.append(self.indented.as_str());
        r.append("\n");
        r
    }
}



/// How tightly an operator binds, loosest first.
#[derive(Debug, Clone, Copy, PartialEq, Eq, Structural)]
pub enum Precedence {
    Lowest,
    Assignment,
    Or,
    And,
    Equality,
    Comparison,
    BitOr,
    BitXor,
    BitAnd,
    Shift,
    Concat,
    Term,
    Factor,
    Unary,
    Exponent,
    Call,
    Primary,
}

/// The place of a precedence level, from `None` (0) to `Primary` (16).
pub open spec fn precedence_rank(p: Precedence) -> nat {
    match p {
        Precedence::Lowest => 0,
        Precedence::Assignment => 1,
        Precedence::Or => 2,
        Precedence::And => 3,
        Precedence::Equality => 4,
        Precedence::Comparison => 5,
        Precedence::BitOr => 6,
        Precedence::BitXor => 7,
        Precedence::BitAnd => 8,
        Precedence::Shift => 9,
        Precedence::Concat => 10,
        Precedence::Term => 11,
        Precedence::Factor => 12,
        Precedence::Unary => 13,
        Precedence::Exponent => 14,
        Precedence::Call => 15,
        Precedence::Primary => 16,
    }
}

/// The name a precedence level is shown by.
pub open spec fn precedence_name(p: Precedence) -> Seq<char> {
    match p {
        Precedence::Lowest => "None"@,
        Precedence::Assignment => "Assignment"@,
        Precedence::Or => "Or"@,
        Precedence::And => "And"@,
        Precedence::Equality => "Equality"@,
        Precedence::Comparison => "Comparison"@,
        Precedence::BitOr => "BitOr"@,
        Precedence::BitXor => "BitXor"@,
        Precedence::BitAnd => "BitAnd"@,
        Precedence::Shift => "Shift"@,
        Precedence::Concat => "Concat"@,
        Precedence::Term => "Term"@,
        Precedence::Factor => "Factor"@,
        Precedence::Unary => "Unary"@,
        Precedence::Exponent => "Exponent"@,
        Precedence::Call => "Call"@,
        Precedence::Primary => "Primary"@,
    }
}

impl Precedence {
    /// The next tighter level; `Primary` is the tightest and stays.
    pub fn next(self) -> (r: Precedence)
        ensures
            precedence_rank(self) < 16 ==> precedence_rank(r) == precedence_rank(self) + 1,
            precedence_rank(self) == 16 ==> r == Precedence::Primary,
    {
        match self {
            Precedence::Lowest => Precedence::Assignment,
            Precedence::Assignment => Precedence::Or,
            Precedence::Or => Precedence::And,
            Precedence::And => Precedence::Equality,
            Precedence::Equality => Precedence::Comparison,
            Precedence::Comparison => Precedence::BitOr,
            Precedence::BitOr => Precedence::BitXor,
            Precedence::BitXor => Precedence::BitAnd,
            Precedence::BitAnd => Precedence::Shift,
            Precedence::Shift => Precedence::Concat,
            Precedence::Concat => Precedence::Term,
            Precedence::Term => Precedence::Factor,
            Precedence::Factor => Precedence::Unary,
            Precedence::Unary => Precedence::Exponent,
            Precedence::Exponent => Precedence::Call,
            Precedence::Call => Precedence::Primary,
            Precedence::Primary => Precedence::Primary,
        }
    }

    /// The place of this level, by which levels compare.
    pub fn rank(&self) -> (r: u8)
        ensures
            r == precedence_rank(*self),
    {
        match self {
            Precedence::Lowest => 0,
            Precedence::Assignment => 1,
            Precedence::Or => 2,
            Precedence::And => 3,
            Precedence::Equality => 4,
            Precedence::Comparison => 5,
            Precedence::BitOr => 6,
            Precedence::BitXor => 7,
            Precedence::BitAnd => 8,
            Precedence::Shift => 9,
            Precedence::Concat => 10,
            Precedence::Term => 11,
            Precedence::Factor => 12,
            Precedence::Unary => 13,
            Precedence::Exponent => 14,
            Precedence::Call => 15,
            Precedence::Primary => 16,
        }
    }

    /// The name of this level.
    pub fn to_string(&self) -> (r: String)
        ensures
            r@ == precedence_name(*self),
    {
        let s = match self {
            Precedence::Lowest => "None",
            Precedence::Assignment => "Assignment",
            Precedence::Or => "Or",
            Precedence::And => "And",
            Precedence::Equality => "Equality",
            Precedence::Comparison => "Comparison",
            Precedence::BitOr => "BitOr",
            Precedence::BitXor => "BitXor",
            Precedence::BitAnd => "BitAnd",
            Precedence::Shift => "Shift",
            Precedence::Concat => "Concat",
            Precedence::Term => "Term",
            Precedence::Factor => "Factor",
            Precedence::Unary => "Unary",
            Precedence::Exponent => "Exponent",
            Precedence::Call => "Call",
            Precedence::Primary => "Primary",
        };
        proof {
            reveal_strlit("None");
            reveal_strlit("Assignment");
            reveal_strlit("Or");
            reveal_strlit("And");
            reveal_strlit("Equality");
            reveal_strlit("Comparison");
            reveal_strlit("BitOr");
            reveal_strlit("BitXor");
            reveal_strlit("BitAnd");
            reveal_strlit("Shift");
            reveal_strlit("Concat");
            reveal_strlit("Term");
            reveal_strlit("Factor");
            reveal_strlit("Unary");
            reveal_strlit("Exponent");
            reveal_strlit("Call");
            reveal_strlit("Primary");
        }
        String::from_str(s)
    }
}

/// The parse step a grammar rule hands a token to.
#[derive(Debug, Clone, Copy, PartialEq, Eq, Structural)]
pub enum ParseFn {
    Void,
    Grouping,
    Call,
    Tabulate,
    MethodInfix,
    Unary,
    Binary,
    Exponent,
    Concat,
    And,
    Or,
    Variable,
    FunctionExpression,
    Integer,
    Number,
    StringConstant,
    Literal,
}

/// What a token does in an expression: the step when it starts one, the step
/// when it follows one, and how tightly it binds there.
#[derive(Debug, Clone, Copy, PartialEq, Eq, Structural)]
pub struct ParseRule {
    pub prefix: ParseFn,
    pub infix: ParseFn,
    pub precedence: Precedence,
}

/// The grammar's rule for an operator.
pub open spec fn operator_rule(op: Operator) -> ParseRule {
    match op {
        Operator::Sub => ParseRule { prefix: ParseFn::Unary, infix: ParseFn::Binary, precedence: Precedence::Term },
        Operator::Add => ParseRule { prefix: ParseFn::Void, infix: ParseFn::Binary, precedence: Precedence::Term },
        Operator::Multiply => ParseRule { prefix: ParseFn::Void, infix: ParseFn::Binary, precedence: Precedence::Factor },
        Operator::Divide => ParseRule { prefix: ParseFn::Void, infix: ParseFn::Binary, precedence: Precedence::Factor },
        Operator::Modulus => ParseRule { prefix: ParseFn::Void, infix: ParseFn::Binary, precedence: Precedence::Factor },
        Operator::FloorDivide => ParseRule { prefix: ParseFn::Void, infix: ParseFn::Binary, precedence: Precedence::Factor },
        Operator::Exponent => ParseRule { prefix: ParseFn::Void, infix: ParseFn::Exponent, precedence: Precedence::Exponent },
        Operator::Not => ParseRule { prefix: ParseFn::Unary, infix: ParseFn::Void, precedence: Precedence::Lowest },
        Operator::NotEqual => ParseRule { prefix: ParseFn::Void, infix: ParseFn::Binary, precedence: Precedence::Equality },
        Operator::Equal => ParseRule { prefix: ParseFn::Void, infix: ParseFn::Binary, precedence: Precedence::Equality },
        Operator::Less => ParseRule { prefix: ParseFn::Void, infix: ParseFn::Binary, precedence: Precedence::Comparison },
        Operator::LessEqual => ParseRule { prefix: ParseFn::Void, infix: ParseFn::Binary, precedence: Precedence::Comparison },
        Operator::Greater => ParseRule { prefix: ParseFn::Void, infix: ParseFn::Binary, precedence: Precedence::Comparison },
        Operator::GreaterEqual => ParseRule { prefix: ParseFn::Void, infix: ParseFn::Binary, precedence: Precedence::Comparison },
        Operator::Concat => ParseRule { prefix: ParseFn::Void, infix: ParseFn::Concat, precedence: Precedence::Concat },
        Operator::And => ParseRule { prefix: ParseFn::Void, infix: ParseFn::And, precedence: Precedence::And },
        Operator::Or => ParseRule { prefix: ParseFn::Void, infix: ParseFn::Or, precedence: Precedence::Or },
        Operator::Tilde => ParseRule { prefix: ParseFn::Unary, infix: ParseFn::Binary, precedence: Precedence::BitXor },
        Operator::Length => ParseRule { prefix: ParseFn::Unary, infix: ParseFn::Void, precedence: Precedence::Lowest },
        Operator::ColonEquals => ParseRule { prefix: ParseFn::Void, infix: ParseFn::Void, precedence: Precedence::Lowest },
    }
}

/// The grammar's rule for a token.
pub open spec fn token_rule(t: TokenView) -> ParseRule {
    match t {
        TokenView::OpenParen => ParseRule { prefix: ParseFn::Grouping, infix: ParseFn::Call, precedence: Precedence::Call },
        TokenView::OpenBrace => ParseRule { prefix: ParseFn::Tabulate, infix: ParseFn::Void, precedence: Precedence::Lowest },
        TokenView::Colon => ParseRule { prefix: ParseFn::Void, infix: ParseFn::MethodInfix, precedence: Precedence::Call },
        TokenView::Op(op) => operator_rule(op),
        TokenView::Identifier(_) => ParseRule { prefix: ParseFn::Variable, infix: ParseFn::Void, precedence: Precedence::Lowest },
        TokenView::Function => ParseRule { prefix: ParseFn::FunctionExpression, infix: ParseFn::Void, precedence: Precedence::Lowest },
        TokenView::Integer(_) => ParseRule { prefix: ParseFn::Integer, infix: ParseFn::Void, precedence: Precedence::Lowest },
        TokenView::Number(_) => ParseRule { prefix: ParseFn::Number, infix: ParseFn::Void, precedence: Precedence::Lowest },
        TokenView::StringLiteral(_) => ParseRule { prefix: ParseFn::StringConstant, infix: ParseFn::Void, precedence: Precedence::Lowest },
        TokenView::Nil => ParseRule { prefix: ParseFn::Literal, infix: ParseFn::Void, precedence: Precedence::Lowest },
        TokenView::True => ParseRule { prefix: ParseFn::Literal, infix: ParseFn::Void, precedence: Precedence::Lowest },
        TokenView::False => ParseRule { prefix: ParseFn::Literal, infix: ParseFn::Void, precedence: Precedence::Lowest },
        _ => ParseRule { prefix: ParseFn::Void, infix: ParseFn::Void, precedence: Precedence::Lowest },
    }
}

/// A rule that names one prefix step, one infix step and a level.
fn rule(prefix: ParseFn, infix: ParseFn, precedence: Precedence) -> (r: ParseRule)
    ensures
        r == (ParseRule { prefix, infix, precedence }),
{
    ParseRule { prefix, infix, precedence }
}

impl Compiler {
    /// The grammar's rule for `token`.
    pub fn get_rule(token: &Token) -> (r: ParseRule)
        ensures
            r == token_rule(token@),
    {
        match token {
            Token::OpenParen => rule(ParseFn::Grouping, ParseFn::Call, Precedence::Call),
            Token::OpenBrace => rule(ParseFn::Tabulate, ParseFn::Void, Precedence::Lowest),
            Token::Assign => rule(ParseFn::Void, ParseFn::Void, Precedence::Lowest),
            Token::Colon => rule(ParseFn::Void, ParseFn::MethodInfix, Precedence::Call),
            Token::Op(op) => match op {
                Operator::Sub => rule(ParseFn::Unary, ParseFn::Binary, Precedence::Term),
                Operator::Add => rule(ParseFn::Void, ParseFn::Binary, Precedence::Term),
                Operator::Multiply => rule(ParseFn::Void, ParseFn::Binary, Precedence::Factor),
                Operator::Divide => rule(ParseFn::Void, ParseFn::Binary, Precedence::Factor),
                Operator::Modulus => rule(ParseFn::Void, ParseFn::Binary, Precedence::Factor),
                Operator::FloorDivide => rule(ParseFn::Void, ParseFn::Binary, Precedence::Factor),
                Operator::Exponent => rule(ParseFn::Void, ParseFn::Exponent, Precedence::Exponent),
                Operator::Not => rule(ParseFn::Unary, ParseFn::Void, Precedence::Lowest),
                Operator::NotEqual => rule(ParseFn::Void, ParseFn::Binary, Precedence::Equality),
                Operator::Equal => rule(ParseFn::Void, ParseFn::Binary, Precedence::Equality),
                Operator::Less => rule(ParseFn::Void, ParseFn::Binary, Precedence::Comparison),
                Operator::LessEqual => rule(ParseFn::Void, ParseFn::Binary, Precedence::Comparison),
                Operator::Greater => rule(ParseFn::Void, ParseFn::Binary, Precedence::Comparison),
                Operator::GreaterEqual => rule(ParseFn::Void, ParseFn::Binary, Precedence::Comparison),
                Operator::Concat => rule(ParseFn::Void, ParseFn::Concat, Precedence::Concat),
                Operator::And => rule(ParseFn::Void, ParseFn::And, Precedence::And),
                Operator::Or => rule(ParseFn::Void, ParseFn::Or, Precedence::Or),
                Operator::Tilde => rule(ParseFn::Unary, ParseFn::Binary, Precedence::BitXor),
                Operator::Length => rule(ParseFn::Unary, ParseFn::Void, Precedence::Lowest),
                _ => rule(ParseFn::Void, ParseFn::Void, Precedence::Lowest),
            },
            Token::Identifier(_) => rule(ParseFn::Variable, ParseFn::Void, Precedence::Lowest),
            Token::Function => rule(ParseFn::FunctionExpression, ParseFn::Void, Precedence::Lowest),
            Token::Integer(_) => rule(ParseFn::Integer, ParseFn::Void, Precedence::Lowest),
            Token::Number(_) => rule(ParseFn::Number, ParseFn::Void, Precedence::Lowest),
            Token::StringLiteral(_) => rule(ParseFn::StringConstant, ParseFn::Void, Precedence::Lowest),
            Token::Nil => rule(ParseFn::Literal, ParseFn::Void, Precedence::Lowest),
            Token::True => rule(ParseFn::Literal, ParseFn::Void, Precedence::Lowest),
            Token::False => rule(ParseFn::Literal, ParseFn::Void, Precedence::Lowest),
            _ => rule(ParseFn::Void, ParseFn::Void, Precedence::Lowest),
        }
    }
}


/// Switches for the language's opt-in extensions.
#[derive(Debug, Clone, Copy, PartialEq, Eq, Structural)]
pub struct LanguageFlags {
    pub implicit_returns: bool,
    pub arrow_functions: bool,
    pub bang_operator: bool,
    pub compound_assignment: bool,
}

impl Default for LanguageFlags {
    /// No implicit returns, no bang operator; arrow functions and compound
    /// assignment on.
    fn default() -> (r: Self)
        ensures
            r == (LanguageFlags {
                implicit_returns: false,
                arrow_functions: true,
                bang_operator: false,
                compound_assignment: true,
            }),
    {
        LanguageFlags {
            implicit_returns: false,
            arrow_functions: true,
            bang_operator: false,
            compound_assignment: true,
        }
    }
}

/// A value a function captures: where to find it one function up (`ident`,
/// a local slot there when `neighboring`, else an upvalue there), and the
/// capture's position among all locals (`universal_ident`), by which a second
/// capture of the same local is recognised.
#[derive(Debug, Clone, Copy, PartialEq, Eq, Structural)]
pub struct UpLocal {
    pub ident: u8,
    pub neighboring: bool,
    pub universal_ident: u8,
}

/// The compile-time state of one function being compiled.
#[derive(Debug)]
pub struct FunctionalState {
    pub up_values: Vec<UpLocal>,
    pub vararg: u8,
    pub trailing_vararg: bool,
    pub argument_mode: bool,
    pub expression_count: u8,
    pub should_override_pop: bool,
}

/// A [`FunctionalState`] as a value.
pub struct StateView {
    pub up_values: Seq<UpLocal>,
    pub vararg: u8,
    pub trailing_vararg: bool,
    pub argument_mode: bool,
    pub expression_count: u8,
    pub should_override_pop: bool,
}

impl View for FunctionalState {
    type V = StateView;

    open spec fn view(&self) -> StateView {
        StateView {
            up_values: self.up_values@,
            vararg: self.vararg,
            trailing_vararg: self.trailing_vararg,
            argument_mode: self.argument_mode,
            expression_count: self.expression_count,
            should_override_pop: self.should_override_pop,
        }
    }
}

/// The state of a function whose compilation just began.
pub open spec fn fresh_state() -> StateView {
    StateView {
        up_values: Seq::empty(),
        vararg: 0,
        trailing_vararg: false,
        argument_mode: false,
        expression_count: 0,
        should_override_pop: false,
    }
}

impl FunctionalState {
    /// No captures, no varargs, nothing counted.
    pub fn new() -> (s: Self)
        ensures
            s@ == fresh_state(),
    {
        FunctionalState {
            up_values: Vec::new(),
            vararg: 0,
            trailing_vararg: false,
            argument_mode: false,
            expression_count: 0,
            should_override_pop: false,
        }
    }
}

/// A local variable's slot on the compile-time stack: its name (none for a
/// slot reserved by a statement), the block depth and the function depth it
/// was declared at, and whether a nested function captured it.
#[derive(Debug)]
pub struct Local {
    pub ident: Option<String>,
    pub depth: usize,
    pub functional_depth: usize,
    pub is_captured: bool,
}

/// A [`Local`] as a value.
pub struct LocalView {
    pub ident: Option<Seq<char>>,
    pub depth: usize,
    pub functional_depth: usize,
    pub is_captured: bool,
}

impl View for Local {
    type V = LocalView;

    open spec fn view(&self) -> LocalView {
        LocalView {
            ident: match self.ident {
                Some(s) => Some(s@),
                None => None,
            },
            depth: self.depth,
            functional_depth: self.functional_depth,
            is_captured: self.is_captured,
        }
    }
}

/// An enclosing loop: the local count when it began, and the jumps of its
/// `break`s, which go to its end.
#[derive(Debug)]
pub struct LoopCtx {
    pub base_local_count: usize,
    pub break_jumps: Vec<usize>,
}

/// The compiler's bookkeeping: errors, block and function nesting, the
/// compile-time stack of locals, labels and loops.
pub struct Compiler {
    pub current_index: usize,
    pub errors: Vec<ErrorTuple>,
    pub valid: bool,
    current_location: TokenCell,
    scope_depth: usize,
    functional_depth: usize,
    functional_states: Vec<FunctionalState>,
    root_state: FunctionalState,
    local_offset: Vec<usize>,
    local_functional_offset: Vec<usize>,
    locals: Vec<Local>,
    local_count: usize,
    local_declare_mode: bool,
    labels: Vec<(String, usize)>,
    pending_gotos: Vec<(String, usize, TokenCell)>,
    loops: Vec<LoopCtx>,
    self_arg: bool,
    language_flags: LanguageFlags,
    last_was_expression: bool,
    var_stack: Vec<Option<(OpCode, OpCode)>>,
    var_set_stack: Vec<Option<(OpCode, OpCode)>>,
    expected_multi: u8,
    can_multivar_set: bool,
    last_end_line: usize,
}

/// A [`Compiler`] as a value.
pub struct CompilerView {
    pub current_index: usize,
    pub errors: Seq<ErrorTuple>,
    pub valid: bool,
    pub current_location: TokenCell,
    pub scope_depth: usize,
    pub functional_depth: usize,
    pub states: Seq<StateView>,
    pub root_state: StateView,
    pub local_offset: Seq<usize>,
    pub offsets: Seq<usize>,
    pub locals: Seq<LocalView>,
    pub local_count: usize,
    pub local_declare_mode: bool,
    pub labels: Seq<(Seq<char>, usize)>,
    pub pending_gotos: Seq<(Seq<char>, usize, TokenCell)>,
    pub loops: Seq<(usize, Seq<usize>)>,
    pub self_arg: bool,
    pub flags: LanguageFlags,
    pub last_was_expression: bool,
    pub var_stack: Seq<Option<(OpCode, OpCode)>>,
    pub var_set_stack: Seq<Option<(OpCode, OpCode)>>,
    pub expected_multi: u8,
    pub can_multivar_set: bool,
    pub last_end_line: usize,
}

impl View for Compiler {
    type V = CompilerView;

    closed spec fn view(&self) -> CompilerView {
        CompilerView {
            current_index: self.current_index,
            errors: self.errors@,
            valid: self.valid,
            current_location: self.current_location,
            scope_depth: self.scope_depth,
            functional_depth: self.functional_depth,
            states: self.functional_states@.map_values(|s: FunctionalState| s@),
            root_state: self.root_state@,
            local_offset: self.local_offset@,
            offsets: self.local_functional_offset@,
            locals: self.locals@.map_values(|l: Local| l@),
            local_count: self.local_count,
            local_declare_mode: self.local_declare_mode,
            labels: self.labels@.map_values(|p: (String, usize)| (p.0@, p.1)),
            pending_gotos: self.pending_gotos@.map_values(|p: (String, usize, TokenCell)| (p.0@, p.1, p.2)),
            loops: self.loops@.map_values(|l: LoopCtx| (l.base_local_count, l.break_jumps@)),
            self_arg: self.self_arg,
            flags: self.language_flags,
            last_was_expression: self.last_was_expression,
            var_stack: self.var_stack@,
            var_set_stack: self.var_set_stack@,
            expected_multi: self.expected_multi,
            can_multivar_set: self.can_multivar_set,
            last_end_line: self.last_end_line,
        }
    }
}

/// The slot reserved at the bottom of the stack for the script itself.
pub open spec fn root_local() -> LocalView {
    LocalView { ident: None, depth: 0, functional_depth: 0, is_captured: false }
}

/// A compiler that has compiled nothing yet, with the given extensions.
pub open spec fn fresh_compiler(flags: LanguageFlags) -> CompilerView {
    CompilerView {
        current_index: 0,
        errors: Seq::empty(),
        valid: true,
        current_location: (0, 0),
        scope_depth: 0,
        functional_depth: 0,
        states: Seq::empty(),
        root_state: fresh_state(),
        local_offset: Seq::empty(),
        offsets: Seq::empty(),
        locals: seq![root_local()],
        local_count: 1,
        local_declare_mode: false,
        labels: Seq::empty(),
        pending_gotos: Seq::empty(),
        loops: Seq::empty(),
        self_arg: false,
        flags,
        last_was_expression: false,
        var_stack: Seq::empty(),
        var_set_stack: Seq::empty(),
        expected_multi: 0,
        can_multivar_set: true,
        last_end_line: 0,
    }
}

/// The shape every compiler state keeps: one function state, one saved local
/// count and one frame offset per enclosing function, and at most 255 slots
/// counted in any function.
pub open spec fn compiler_wf(v: CompilerView) -> bool {
    &&& v.states.len() == v.functional_depth
    &&& v.local_offset.len() == v.functional_depth
    &&& v.offsets.len() == v.functional_depth
    &&& v.local_count <= 255
    &&& forall|i: int| 0 <= i < v.local_offset.len() ==> v.local_offset[i] <= 255
}

impl Compiler {
    /// Whether this compiler's state has the shape [`compiler_wf`] describes.
    pub open spec fn wf(&self) -> bool {
        compiler_wf(self@)
    }

    /// A compiler with the default extensions.
    pub fn new() -> (c: Compiler)
        ensures
            c.wf(),
            c@ == fresh_compiler(LanguageFlags {
                implicit_returns: false,
                arrow_functions: true,
                bang_operator: false,
                compound_assignment: true,
            }),
    {
        let mut locals: Vec<Local> = Vec::new();
        locals.push(Local { ident: None, depth: 0, functional_depth: 0, is_captured: false });
        let c = Compiler {
            current_index: 0,
            errors: Vec::new(),
            valid: true,
            current_location: (0, 0),
            scope_depth: 0,
            functional_depth: 0,
            functional_states: Vec::new(),
            root_state: FunctionalState::new(),
            local_offset: Vec::new(),
            local_functional_offset: Vec::new(),
            locals,
            local_count: 1,
            local_declare_mode: false,
            labels: Vec::new(),
            pending_gotos: Vec::new(),
            loops: Vec::new(),
            self_arg: false,
            language_flags: LanguageFlags::default(),
            last_was_expression: false,
            var_stack: Vec::new(),
            var_set_stack: Vec::new(),
            expected_multi: 0,
            can_multivar_set: true,
            last_end_line: 0,
        };
        proof {
            assert(c@.states =~= Seq::<StateView>::empty());
            assert(c@.locals =~= seq![root_local()]);
            assert(c@.labels =~= Seq::<(Seq<char>, usize)>::empty());
            assert(c@.pending_gotos =~= Seq::<(Seq<char>, usize, TokenCell)>::empty());
            assert(c@.loops =~= Seq::<(usize, Seq<usize>)>::empty());
        }
        c
    }

    /// A compiler with implicit returns, arrow functions and the bang operator
    /// as given; compound assignment stays on.
    pub fn new_with_flags(implicit_returns: bool, arrow_functions: bool, bang_operator: bool) -> (c: Compiler)
        ensures
            c.wf(),
            c@ == fresh_compiler(LanguageFlags {
                implicit_returns,
                arrow_functions,
                bang_operator,
                compound_assignment: true,
            }),
    {
        let mut compiler = Self::new();
        compiler.language_flags = LanguageFlags {
            implicit_returns,
            arrow_functions,
            bang_operator,
            compound_assignment: true,
        };
        compiler
    }
}


/// How the compiler lists its errors: `!!message at line:col` for each, run
/// together.
pub open spec fn compile_error_lines(errors: Seq<ErrorTuple>) -> Seq<char>
    decreases errors.len(),
{
    if errors.len() == 0 {
        Seq::empty()
    } else {
        let e = errors.last();
        compile_error_lines(errors.drop_last()) + "!!"@ + error_text(e.code@) + " at "@
            + decimal(e.location.0 as nat) + ":"@ + decimal(e.location.1 as nat)
    }
}

/// The state of the function being compiled: the innermost function's, or the
/// script's at the top level.
pub open spec fn current_state(v: CompilerView) -> StateView {
    if v.functional_depth > 0 {
        v.states[v.functional_depth - 1]
    } else {
        v.root_state
    }
}

/// `v` with the state of the function being compiled replaced by `s`.
pub open spec fn with_current_state(v: CompilerView, s: StateView) -> CompilerView {
    if v.functional_depth > 0 {
        CompilerView { states: v.states.update(v.functional_depth - 1, s), ..v }
    } else {
        CompilerView { root_state: s, ..v }
    }
}

impl Compiler {
    /// Records that compilation failed and builds the error `code` at `location`.
    fn error_syntax(&mut self, code: SiltError, location: TokenCell) -> (e: ErrorTuple)
        ensures
            e == (ErrorTuple { code, location }),
            final(self)@ == (CompilerView { valid: false, ..old(self)@ }),
    {
        self.valid = false;
        ErrorTuple { code, location }
    }

    /// Records that compilation failed and builds the error `code` at the
    /// location of the current token.
    pub fn error_at(&mut self, code: SiltError) -> (e: ErrorTuple)
        ensures
            e == (ErrorTuple { code, location: old(self)@.current_location }),
            final(self)@ == (CompilerView { valid: false, ..old(self)@ }),
    {
        let loc = self.current_location;
        self.error_syntax(code, loc)
    }

    /// Every error recorded so far, each as `!!message at line:col`.
    pub fn error_string(&self) -> (r: String)
        ensures
            r@ == compile_error_lines(self@.errors),
    {
        let mut s = String::new();
        let mut i: usize = 0;
        while i < self.errors.len()
            invariant
                i <= self.errors@.len(),
                s@ == compile_error_lines(self@.errors.subrange(0, i as int)),
            decreases self.errors@.len() - i,
        {
            let e = &self.errors[i];
            proof {
                reveal_strlit("!!");
                reveal_strlit(" at ");
                reveal_strlit(":");
                let pre = self@.errors.subrange(0, i as int + 1);
                assert(pre.drop_last() =~= self@.errors.subrange(0, i as int));
                assert(pre.last() == *e);
            }
            s.append("!!");
            let m = e.code.to_string();
            s.append(m.as_str());
            s.append(" at ");
            let l = usize_to_decimal(e.location.0);
            s.append(l.as_str());
            s.append(":");
            let c = usize_to_decimal(e.location.1);
            s.append(c.as_str());
            i = i + 1;
        }
        proof {
            assert(self@.errors.subrange(0, i as int) =~= self@.errors);
        }
        s
    }

    /// Adds an error to the list.
    pub fn push_error(&mut self, code: ErrorTuple)
        ensures
            final(self)@ == (CompilerView { errors: old(self)@.errors.push(code), ..old(self)@ }),
    {
        self.errors.push(code);
    }

    /// The errors recorded so far.
    pub fn get_errors(&self) -> (r: &Vec<ErrorTuple>)
        ensures
            r@ == self@.errors,
    {
        &self.errors
    }

    /// Hands out the errors recorded so far and forgets them.
    pub fn pop_errors(&mut self) -> (r: Vec<ErrorTuple>)
        ensures
            r@ == old(self)@.errors,
            final(self)@ == (CompilerView { errors: Seq::empty(), ..old(self)@ }),
    {
        let mut out: Vec<ErrorTuple> = Vec::new();
        std::mem::swap(&mut out, &mut self.errors);
        out
    }

    /// Allows or forbids gathering several assignment targets.
    fn set_can_multivar_set(&mut self, value: bool)
        ensures
            final(self)@ == (CompilerView { can_multivar_set: value, ..old(self)@ }),
    {
        self.can_multivar_set = value;
    }

    /// Whether the function being compiled takes a variable argument list.
    pub fn is_vararg_function(&self) -> (b: bool)
        requires
            self.wf(),
        ensures
            b == (self@.functional_depth > 0 && current_state(self@).vararg > 0),
    {
        self.functional_depth > 0 && self.functional_states[self.functional_depth - 1].vararg > 0
    }

    /// Whether arguments of a call or entries of a table are being compiled.
    pub fn is_arg_mode(&self) -> (b: bool)
        requires
            self.wf(),
        ensures
            b == current_state(self@).argument_mode,
    {
        if self.functional_depth > 0 {
            self.functional_states[self.functional_depth - 1].argument_mode
        } else {
            self.root_state.argument_mode
        }
    }

    /// Whether a variable argument list ends the values being compiled.
    pub fn is_trailing_vararg(&self) -> (b: bool)
        requires
            self.wf(),
        ensures
            b == current_state(self@).trailing_vararg,
    {
        if self.functional_depth > 0 {
            self.functional_states[self.functional_depth - 1].trailing_vararg
        } else {
            self.root_state.trailing_vararg
        }
    }

    /// Sets whether a variable argument list ends the values being compiled.
    pub fn set_trailing_vararg(&mut self, value: bool)
        requires
            old(self).wf(),
        ensures
            final(self).wf(),
            final(self)@ == with_current_state(old(self)@, StateView { trailing_vararg: value, ..current_state(old(self)@) }),
    {
        if self.functional_depth > 0 {
            let k = self.functional_depth - 1;
            self.functional_states[k].trailing_vararg = value;
            proof {
                assert(self@.states =~= old(self)@.states.update(k as int, StateView { trailing_vararg: value, ..current_state(old(self)@) }));
            }
        } else {
            self.root_state.trailing_vararg = value;
        }
    }
}

impl Compiler {
    /// Sets whether arguments of a call or entries of a table are being compiled.
    pub fn set_arg_mode(&mut self, value: bool)
        requires
            old(self).wf(),
        ensures
            final(self).wf(),
            final(self)@ == with_current_state(old(self)@, StateView { argument_mode: value, ..current_state(old(self)@) }),
    {
        if self.functional_depth > 0 {
            let k = self.functional_depth - 1;
            self.functional_states[k].argument_mode = value;
            proof {
                assert(self@.states =~= old(self)@.states.update(k as int, StateView { argument_mode: value, ..current_state(old(self)@) }));
            }
        } else {
            self.root_state.argument_mode = value;
        }
    }

    /// Sets the number of values the expressions being compiled leave.
    pub fn set_expression_count(&mut self, val: u8)
        requires
            old(self).wf(),
        ensures
            final(self).wf(),
            final(self)@ == with_current_state(old(self)@, StateView { expression_count: val, ..current_state(old(self)@) }),
    {
        if self.functional_depth > 0 {
            let k = self.functional_depth - 1;
            self.functional_states[k].expression_count = val;
            proof {
                assert(self@.states =~= old(self)@.states.update(k as int, StateView { expression_count: val, ..current_state(old(self)@) }));
            }
        } else {
            self.root_state.expression_count = val;
        }
    }

    /// Counts one more value left by the expressions being compiled.
    pub fn increment_expression_count(&mut self)
        requires
            old(self).wf(),
            current_state(old(self)@).expression_count < 255,
        ensures
            final(self).wf(),
            final(self)@ == with_current_state(old(self)@, StateView { expression_count: (current_state(old(self)@).expression_count + 1) as u8, ..current_state(old(self)@) }),
    {
        if self.functional_depth > 0 {
            let k = self.functional_depth - 1;
            self.functional_states[k].expression_count = self.functional_states[k].expression_count + 1;
            proof {
                assert(self@.states =~= old(self)@.states.update(k as int, StateView { expression_count: (current_state(old(self)@).expression_count + 1) as u8, ..current_state(old(self)@) }));
            }
        } else {
            self.root_state.expression_count = self.root_state.expression_count + 1;
        }
    }

    /// Marks that the statement being compiled must not pop its value.
    pub fn override_pop(&mut self)
        requires
            old(self).wf(),
        ensures
            final(self).wf(),
            final(self)@ == with_current_state(old(self)@, StateView { should_override_pop: true, ..current_state(old(self)@) }),
    {
        if self.functional_depth > 0 {
            let k = self.functional_depth - 1;
            self.functional_states[k].should_override_pop = true;
            proof {
                assert(self@.states =~= old(self)@.states.update(k as int, StateView { should_override_pop: true, ..current_state(old(self)@) }));
            }
        } else {
            self.root_state.should_override_pop = true;
        }
    }

    /// Inside a function, records the number of slots counted so far as where
    /// its variable arguments start; at the top level, does nothing.
    pub fn set_vararg(&mut self)
        requires
            old(self).wf(),
        ensures
            final(self).wf(),
            old(self)@.functional_depth > 0 ==> final(self)@ == with_current_state(old(self)@,
                StateView { vararg: old(self)@.local_count as u8, ..current_state(old(self)@) }),
            old(self)@.functional_depth == 0 ==> final(self)@ == old(self)@,
    {
        if self.functional_depth > 0 {
            let k = self.functional_depth - 1;
            let n = self.local_count as u8;
            self.functional_states[k].vararg = n;
            proof {
                assert(self@.states =~= old(self)@.states.update(k as int,
                    StateView { vararg: old(self)@.local_count as u8, ..current_state(old(self)@) }));
            }
        }
    }

    /// Where the variable arguments of the function being compiled start (0
    /// at the top level or when it takes none).
    pub fn get_vararg(&self) -> (r: u8)
        requires
            self.wf(),
        ensures
            r == (if self@.functional_depth > 0 { current_state(self@).vararg } else { 0 }),
    {
        if self.functional_depth > 0 {
            return self.functional_states[self.functional_depth - 1].vararg;
        }
        0
    }

    /// The number of values the expressions being compiled leave.
    pub fn get_expression_count(&self) -> (r: u8)
        requires
            self.wf(),
        ensures
            r == current_state(self@).expression_count,
    {
        if self.functional_depth > 0 {
            self.functional_states[self.functional_depth - 1].expression_count
        } else {
            self.root_state.expression_count
        }
    }

    /// Whether the statement being compiled was marked not to pop its value;
    /// clears the mark.
    pub fn flip_override_pop(&mut self) -> (b: bool)
        requires
            old(self).wf(),
        ensures
            final(self).wf(),
            b == current_state(old(self)@).should_override_pop,
            final(self)@ == with_current_state(old(self)@, StateView { should_override_pop: false, ..current_state(old(self)@) }),
    {
        if self.functional_depth > 0 {
            let k = self.functional_depth - 1;
            let res = self.functional_states[k].should_override_pop;
            self.functional_states[k].should_override_pop = false;
            proof {
                assert(self@.states =~= old(self)@.states.update(k as int,
                    StateView { should_override_pop: false, ..current_state(old(self)@) }));
            }
            res
        } else {
            let res = self.root_state.should_override_pop;
            self.root_state.should_override_pop = false;
            res
        }
    }
}

/// The name a local slot carries, as a value.
pub open spec fn name_view(o: Option<String>) -> Option<Seq<char>> {
    match o {
        Some(s) => Some(s@),
        None => None,
    }
}

/// The index of the last of the first `n` locals named `name`, if there is one.
pub open spec fn last_named(locals: Seq<LocalView>, name: Seq<char>, n: int) -> Option<int>
    decreases n,
{
    if n <= 0 {
        None
    } else if locals[n - 1].ident == Some(name) {
        Some(n - 1)
    } else {
        last_named(locals, name, n - 1)
    }
}

/// The position, from `k` on, of the first capture of the local at `id`.
pub open spec fn first_capture(ups: Seq<UpLocal>, id: u8, k: int) -> Option<int>
    decreases ups.len() - k,
{
    if k < 0 || k >= ups.len() {
        None
    } else if ups[k].universal_ident == id {
        Some(k)
    } else {
        first_capture(ups, id, k + 1)
    }
}

/// `states` with the capture `u` appended to the function at index `lvl`.
pub open spec fn with_capture(states: Seq<StateView>, lvl: int, u: UpLocal) -> Seq<StateView> {
    states.update(lvl, StateView { up_values: states[lvl].up_values.push(u), ..states[lvl] })
}

/// Registers the local at `ident` (slot `scoped` in its own function, at depth
/// `target`) as captured by the function at depth `level` and by every function
/// between: each level that has not captured it yet gets a capture, pointing at
/// the slot itself from the function right inside `target`, else at the capture
/// one level up. Gives the functions' states after, and the capture's position
/// at `level`.
pub open spec fn capture_chain(states: Seq<StateView>, ident: u8, scoped: u8, level: int, target: int) -> (Seq<StateView>, u8)
    decreases level,
{
    if level < 1 {
        (states, 0u8)
    } else {
        let ups = states[level - 1].up_values;
        match first_capture(ups, ident, 0) {
            Some(k) => (states, k as u8),
            None => if level <= target + 1 {
                (with_capture(states, level - 1, UpLocal { ident: scoped, neighboring: true, universal_ident: ident }), ups.len() as u8)
            } else {
                let (s2, higher) = capture_chain(states, ident, scoped, level - 1, target);
                (with_capture(s2, level - 1, UpLocal { ident: higher, neighboring: false, universal_ident: ident }), ups.len() as u8)
            },
        }
    }
}

/// Registering captures up to depth `level` touches no function deeper than it.
pub proof fn lemma_chain_frame(states: Seq<StateView>, ident: u8, scoped: u8, level: int, target: int)
    requires
        level <= states.len(),
    ensures
        capture_chain(states, ident, scoped, level, target).0.len() == states.len(),
        forall|j: int| level <= j < states.len() ==> #[trigger] capture_chain(states, ident, scoped, level, target).0[j] == states[j],
    decreases level,
{
    if level >= 1 {
        let ups = states[level - 1].up_values;
        if first_capture(ups, ident, 0).is_none() && level > target + 1 {
            lemma_chain_frame(states, ident, scoped, level - 1, target);
        }
    }
}

/// The slot the local at index `i` has in the function at depth `fd`: its
/// index less the frame offset of that function.
pub open spec fn frame_slot(v: CompilerView, i: int, fd: int) -> int {
    if fd > 0 {
        i - v.offsets[fd - 1]
    } else {
        i
    }
}

/// Resolving `name` does not run below a frame's start.
pub open spec fn local_resolvable(v: CompilerView, name: Seq<char>) -> bool {
    match last_named(v.locals, name, v.locals.len() as int) {
        None => true,
        Some(i) => {
            let l = v.locals[i];
            if l.functional_depth < v.functional_depth {
                frame_slot(v, i, l.functional_depth as int) >= 0
            } else {
                frame_slot(v, i, v.functional_depth as int) >= 0
            }
        },
    }
}

/// What resolving `name` in `v` gives and leaves: nothing when no local has
/// the name; the slot of the last local of that name when it belongs to the
/// function being compiled (or an outer block of it); otherwise that local is
/// marked captured, captures are registered down to the current function, and
/// the capture's position is given.
pub open spec fn resolved(v: CompilerView, name: Seq<char>, r: Option<(u8, bool)>, w: CompilerView) -> bool {
    match last_named(v.locals, name, v.locals.len() as int) {
        None => r == None::<(u8, bool)> && w == v,
        Some(i) => {
            let l = v.locals[i];
            if l.functional_depth < v.functional_depth {
                let chain = capture_chain(v.states, i as u8, frame_slot(v, i, l.functional_depth as int) as u8,
                    v.functional_depth as int, l.functional_depth as int);
                &&& r == Some((chain.1, true))
                &&& w == CompilerView { locals: v.locals.update(i, LocalView { is_captured: true, ..l }), states: chain.0, ..v }
            } else {
                &&& r == Some((frame_slot(v, i, v.functional_depth as int) as u8, false))
                &&& w == v
            }
        },
    }
}

/// Registers the local at `ident` as captured from depth `level` down to just
/// inside depth `target` (see [`capture_chain`]); gives the capture's position
/// at `level`.
pub fn resolve_upvalue(functional_states: &mut Vec<FunctionalState>, ident: u8, scoped_ident: u8, level: usize, target: usize) -> (r: u8)
    requires
        1 <= level <= old(functional_states)@.len(),
        target < level,
    ensures
        final(functional_states)@.map_values(|s: FunctionalState| s@)
            == capture_chain(old(functional_states)@.map_values(|s: FunctionalState| s@), ident, scoped_ident, level as int, target as int).0,
        r == capture_chain(old(functional_states)@.map_values(|s: FunctionalState| s@), ident, scoped_ident, level as int, target as int).1,
    decreases level,
{
    let ghost sv = old(functional_states)@.map_values(|s: FunctionalState| s@);
    let idx = level - 1;
    let n = functional_states[idx].up_values.len();
    let mut u: usize = 0;
    while u < n
        invariant
            u <= n,
            n == functional_states@[idx as int].up_values@.len(),
            functional_states@ == old(functional_states)@,
            sv == old(functional_states)@.map_values(|s: FunctionalState| s@),
            idx == level - 1,
            1 <= level <= functional_states@.len(),
            first_capture(sv[idx as int].up_values, ident, 0) == first_capture(sv[idx as int].up_values, ident, u as int),
        decreases n - u,
    {
        if functional_states[idx].up_values[u].universal_ident == ident {
            return u as u8;
        }
        u = u + 1;
    }
    let ghost ups = sv[idx as int].up_values;
    assert(first_capture(ups, ident, 0).is_none());
    if level <= target + 1 {
        functional_states[idx].up_values.push(UpLocal { ident: scoped_ident, neighboring: true, universal_ident: ident });
        proof {
            assert(functional_states@.map_values(|s: FunctionalState| s@) =~= with_capture(sv, idx as int,
                UpLocal { ident: scoped_ident, neighboring: true, universal_ident: ident }));
        }
        (functional_states[idx].up_values.len() - 1) as u8
    } else {
        let higher = resolve_upvalue(functional_states, ident, scoped_ident, level - 1, target);
        proof {
            lemma_chain_frame(sv, ident, scoped_ident, (level - 1) as int, target as int);
        }
        let ghost mid = functional_states@.map_values(|s: FunctionalState| s@);
        assert(mid[idx as int] == sv[idx as int]);
        functional_states[idx].up_values.push(UpLocal { ident: higher, neighboring: false, universal_ident: ident });
        proof {
            assert(functional_states@.map_values(|s: FunctionalState| s@) =~= with_capture(mid, idx as int,
                UpLocal { ident: higher, neighboring: false, universal_ident: ident }));
        }
        (functional_states[idx].up_values.len() - 1) as u8
    }
}

/// Reserves the next slot of the function being compiled for a local named
/// `ident` (or for a statement's own use when `None`) at the current block
/// depth; gives the slot. A function has at most 254 slots of its own: past
/// that, `TooManyLocals`.
pub fn _add_local(this: &mut Compiler, ident: Option<String>) -> (r: Result<u8, ErrorTuple>)
    requires
        old(this).wf(),
    ensures
        final(this).wf(),
        old(this)@.local_count == 255 ==> r == Err::<u8, ErrorTuple>(ErrorTuple { code: SiltError::TooManyLocals, location: old(this)@.current_location })
            && final(this)@ == (CompilerView { valid: false, ..old(this)@ }),
        old(this)@.local_count != 255 ==> r == Ok::<u8, ErrorTuple>(old(this)@.local_count as u8)
            && final(this)@ == (CompilerView {
                locals: old(this)@.locals.push(LocalView {
                    ident: name_view(ident),
                    depth: old(this)@.scope_depth,
                    functional_depth: old(this)@.functional_depth,
                    is_captured: false,
                }),
                local_count: (old(this)@.local_count + 1) as usize,
                ..old(this)@
            }),
{
    let i = this.local_count;
    if i == 255 {
        return Err(this.error_at(SiltError::TooManyLocals));
    }
    let ghost nv = name_view(ident);
    let l = Local { ident, depth: this.scope_depth, functional_depth: this.functional_depth, is_captured: false };
    assert(l@ == LocalView { ident: nv, depth: this.scope_depth, functional_depth: this.functional_depth, is_captured: false });
    this.locals.push(l);
    this.local_count += 1;
    proof {
        assert(this@.locals =~= old(this)@.locals.push(l@));
    }
    Ok(i as u8)
}

/// Reserves the next slot for a local named `ident`.
pub fn add_local(this: &mut Compiler, ident: String) -> (r: Result<u8, ErrorTuple>)
    requires
        old(this).wf(),
    ensures
        final(this).wf(),
        old(this)@.local_count == 255 ==> r == Err::<u8, ErrorTuple>(ErrorTuple { code: SiltError::TooManyLocals, location: old(this)@.current_location })
            && final(this)@ == (CompilerView { valid: false, ..old(this)@ }),
        old(this)@.local_count != 255 ==> r == Ok::<u8, ErrorTuple>(old(this)@.local_count as u8)
            && final(this)@ == (CompilerView {
                locals: old(this)@.locals.push(LocalView {
                    ident: Some(ident@),
                    depth: old(this)@.scope_depth,
                    functional_depth: old(this)@.functional_depth,
                    is_captured: false,
                }),
                local_count: (old(this)@.local_count + 1) as usize,
                ..old(this)@
            }),
{
    _add_local(this, Some(ident))
}

/// Reserves the next slot for a statement's own use; no name resolves to it.
pub fn add_local_placeholder(this: &mut Compiler) -> (r: Result<u8, ErrorTuple>)
    requires
        old(this).wf(),
    ensures
        final(this).wf(),
        old(this)@.local_count == 255 ==> r == Err::<u8, ErrorTuple>(ErrorTuple { code: SiltError::TooManyLocals, location: old(this)@.current_location })
            && final(this)@ == (CompilerView { valid: false, ..old(this)@ }),
        old(this)@.local_count != 255 ==> r == Ok::<u8, ErrorTuple>(old(this)@.local_count as u8)
            && final(this)@ == (CompilerView {
                locals: old(this)@.locals.push(LocalView {
                    ident: None,
                    depth: old(this)@.scope_depth,
                    functional_depth: old(this)@.functional_depth,
                    is_captured: false,
                }),
                local_count: (old(this)@.local_count + 1) as usize,
                ..old(this)@
            }),
{
    _add_local(this, None)
}

/// Looks `ident` up among the locals, innermost first (see [`resolved`]):
/// `Some((slot, false))` for a local of the function being compiled,
/// `Some((capture, true))` for one of an enclosing function, `None` for a
/// global.
pub fn resolve_local(this: &mut Compiler, ident: &String) -> (r: Option<(u8, bool)>)
    requires
        old(this).wf(),
        local_resolvable(old(this)@, ident@),
    ensures
        final(this).wf(),
        resolved(old(this)@, ident@, r, final(this)@),
{
    let ghost v = this@;
    let n = this.locals.len();
    let mut k = n;
    while k > 0
        invariant
            k <= n,
            n == this.locals@.len(),
            this@ == v,
            old(this)@ == v,
            compiler_wf(v),
            local_resolvable(v, ident@),
            v.locals.len() == n,
            last_named(v.locals, ident@, n as int) == last_named(v.locals, ident@, k as int),
        decreases k,
    {
        let i = k - 1;
        let matched = match &this.locals[i].ident {
            Some(s) => s.eq(ident),
            None => false,
        };
        assert(v.locals[i as int] == this.locals@[i as int]@);
        if matched {
            assert(last_named(v.locals, ident@, k as int) == Some(i as int));
            let l_fd = this.locals[i].functional_depth;
            let ident_byte = #[verifier::truncate] (i as u8);
            if l_fd < this.functional_depth {
                this.locals[i].is_captured = true;
                let slot = if l_fd > 0 {
                    i - this.local_functional_offset[l_fd - 1]
                } else {
                    i
                };
                let offset_ident = #[verifier::truncate] (slot as u8);
                let fd = this.functional_depth;
                let u = resolve_upvalue(&mut this.functional_states, ident_byte, offset_ident, fd, l_fd);
                proof {
                    let l = v.locals[i as int];
                    assert(this@.locals =~= v.locals.update(i as int, LocalView { is_captured: true, ..l }));
                    lemma_chain_frame(v.states, ident_byte, offset_ident, fd as int, l_fd as int);
                }
                return Some((u, true));
            } else {
                let slot = if this.functional_depth > 0 {
                    i - this.local_functional_offset[this.functional_depth - 1]
                } else {
                    i
                };
                let offset_ident = #[verifier::truncate] (slot as u8);
                return Some((offset_ident, false));
            }
        }
        k = i;
    }
    None
}

/// Opens a block.
pub fn begin_scope(this: &mut Compiler)
    requires
        old(this)@.scope_depth < usize::MAX,
    ensures
        final(this)@ == (CompilerView { scope_depth: (old(this)@.scope_depth + 1) as usize, ..old(this)@ }),
{
    this.scope_depth += 1;
}

/// `b` is `a` with `ops` written after its instructions, all at `loc`.
pub open spec fn appended(a: Chunk, b: Chunk, ops: Seq<OpCode>, loc: TokenCell) -> bool {
    &&& b.spec_code() == a.spec_code() + ops
    &&& b.spec_locations() == a.spec_locations() + Seq::new(ops.len(), |k: int| loc)
    &&& b.spec_constants() == a.spec_constants()
    &&& b.spec_valid() == a.spec_valid()
}

/// `b` is `a` with its instructions replaced by `code`.
pub open spec fn rewritten(a: Chunk, b: Chunk, code: Seq<OpCode>) -> bool {
    &&& b.spec_code() == code
    &&& b.spec_locations() == a.spec_locations()
    &&& b.spec_constants() == a.spec_constants()
    &&& b.spec_valid() == a.spec_valid()
}

/// The jump instruction `op` aimed `jump` instructions on (or back), when `op`
/// is a jump.
pub open spec fn with_jump(op: OpCode, jump: u16) -> Option<OpCode> {
    match op {
        OpCode::GOTO_IF_FALSE(_) => Some(OpCode::GOTO_IF_FALSE(jump)),
        OpCode::GOTO_IF_TRUE(_) => Some(OpCode::GOTO_IF_TRUE(jump)),
        OpCode::POP_AND_GOTO_IF_FALSE(_) => Some(OpCode::POP_AND_GOTO_IF_FALSE(jump)),
        OpCode::FORWARD(_) => Some(OpCode::FORWARD(jump)),
        OpCode::REWIND(_) => Some(OpCode::REWIND(jump)),
        OpCode::FOR_NUMERIC(_) => Some(OpCode::FOR_NUMERIC(jump)),
        _ => None,
    }
}

impl Compiler {
    /// The number of instructions written into `f` so far.
    pub fn get_chunk_size(&self, f: &Chunk) -> (n: usize)
        ensures
            n == f.spec_code().len(),
    {
        proof {
            Chunk::lemma_code_view(f);
        }
        f.code.len()
    }

    /// Writes `byte` into `f` at `location`; gives its index.
    pub fn write_code(&self, f: &mut Chunk, byte: OpCode, location: TokenCell) -> (i: usize)
        requires
            old(f).spec_code().len() < usize::MAX,
        ensures
            appended(*old(f), *final(f), seq![byte], location),
            i == old(f).spec_code().len(),
    {
        let i = f.write_code(byte, location);
        assert(f.spec_locations() =~= old(f).spec_locations() + Seq::new(1, |k: int| location));
        assert(f.spec_code() =~= old(f).spec_code() + seq![byte]);
        i
    }

    /// Replaces the instruction at `offset`.
    pub fn change_code(&mut self, f: &mut Chunk, offset: usize, byte: OpCode)
        requires
            offset < old(f).spec_code().len(),
        ensures
            rewritten(*old(f), *final(f), old(f).spec_code().update(offset as int, byte)),
            final(self)@ == old(self)@,
    {
        proof {
            Chunk::lemma_code_view(&*f);
        }
        f.code.set(offset, byte);
        proof {
            Chunk::lemma_rest_kept(&*old(f), &*f);
        }
    }

    /// The instruction at `offset`.
    pub fn get_code<'a>(&self, f: &'a Chunk, offset: usize) -> (op: &'a OpCode)
        requires
            offset < f.spec_code().len(),
        ensures
            *op == f.spec_code()[offset as int],
    {
        proof {
            Chunk::lemma_code_view(f);
        }
        &f.code[offset]
    }

    /// Writes `op` into `f` at `location`.
    pub fn emit(&mut self, f: &mut Chunk, op: OpCode, location: TokenCell)
        requires
            old(f).spec_code().len() < usize::MAX,
        ensures
            appended(*old(f), *final(f), seq![op], location),
            final(self)@ == old(self)@,
    {
        self.write_code(f, op, location);
    }

    /// Writes `op` into `f` at the current token's location.
    pub fn emit_at(&self, f: &mut Chunk, op: OpCode)
        requires
            old(f).spec_code().len() < usize::MAX,
        ensures
            appended(*old(f), *final(f), seq![op], self@.current_location),
    {
        self.write_code(f, op, self.current_location);
    }

    /// Writes `op` into `f` at the current token's location; gives its index.
    pub fn emit_index(&mut self, f: &mut Chunk, op: OpCode) -> (i: usize)
        requires
            old(f).spec_code().len() < usize::MAX,
        ensures
            appended(*old(f), *final(f), seq![op], old(self)@.current_location),
            i == old(f).spec_code().len(),
            final(self)@ == old(self)@,
    {
        self.write_code(f, op, self.current_location)
    }

    /// Aims the jump at `offset` at the end of `f`: its distance becomes the
    /// number of instructions after it. Past `u16::MAX` instructions,
    /// `TooManyOperations`; at an instruction that does not jump, `ChunkCorrupt`.
    pub fn patch(&mut self, f: &mut Chunk, offset: usize) -> (r: Result<(), ErrorTuple>)
        requires
            offset < old(f).spec_code().len(),
        ensures
            ({
                let jump = old(f).spec_code().len() - offset - 1;
                let op = old(f).spec_code()[offset as int];
                if jump > u16::MAX {
                    &&& r == Err::<(), ErrorTuple>(ErrorTuple { code: SiltError::TooManyOperations, location: old(self)@.current_location })
                    &&& *final(f) == *old(f)
                    &&& final(self)@ == (CompilerView { valid: false, ..old(self)@ })
                } else {
                    match with_jump(op, jump as u16) {
                        Some(j) => {
                            &&& r == Ok::<(), ErrorTuple>(())
                            &&& rewritten(*old(f), *final(f), old(f).spec_code().update(offset as int, j))
                            &&& final(self)@ == old(self)@
                        },
                        None => {
                            &&& r == Err::<(), ErrorTuple>(ErrorTuple { code: SiltError::ChunkCorrupt, location: old(self)@.current_location })
                            &&& *final(f) == *old(f)
                            &&& final(self)@ == (CompilerView { valid: false, ..old(self)@ })
                        },
                    }
                }
            }),
    {
        let jump = self.get_chunk_size(f) - offset - 1;
        if jump > 65535 {
            return Err(self.error_at(SiltError::TooManyOperations));
        }
        let j = jump as u16;
        let c = *self.get_code(f, offset);
        match c {
            OpCode::GOTO_IF_FALSE(_) => {
                self.change_code(f, offset, OpCode::GOTO_IF_FALSE(j));
            },
            OpCode::GOTO_IF_TRUE(_) => {
                self.change_code(f, offset, OpCode::GOTO_IF_TRUE(j));
            },
            OpCode::POP_AND_GOTO_IF_FALSE(_) => {
                self.change_code(f, offset, OpCode::POP_AND_GOTO_IF_FALSE(j));
            },
            OpCode::FORWARD(_) => self.change_code(f, offset, OpCode::FORWARD(j)),
            OpCode::REWIND(_) => self.change_code(f, offset, OpCode::REWIND(j)),
            OpCode::FOR_NUMERIC(_) => self.change_code(f, offset, OpCode::FOR_NUMERIC(j)),
            _ => {
                return Err(self.error_at(SiltError::ChunkCorrupt));
            },
        }
        Ok(())
    }

    /// Writes a jump back to the instruction at `start`, counted from just after
    /// the jump. A distance past `u16::MAX` marks compilation failed (no error
    /// is recorded) and is written cut to 16 bits.
    pub fn emit_rewind(&mut self, f: &mut Chunk, start: usize)
        requires
            start <= old(f).spec_code().len() + 1,
            old(f).spec_code().len() + 1 < usize::MAX,
        ensures
            ({
                let jump = old(f).spec_code().len() + 1 - start;
                &&& appended(*old(f), *final(f), seq![OpCode::REWIND(jump as u16)], old(self)@.current_location)
                &&& final(self)@ == (if jump > u16::MAX { CompilerView { valid: false, ..old(self)@ } } else { old(self)@ })
            }),
    {
        let jump = (self.get_chunk_size(f) + 1) - start;
        if jump > 65535 {
            self.error_at(SiltError::TooManyOperations);
        }
        let j = #[verifier::truncate] (jump as u16);
        let loc = self.current_location;
        self.write_code(f, OpCode::REWIND(j), loc);
    }
}

/// The sum of a sequence of counts.
pub open spec fn seq_sum(s: Seq<usize>) -> int
    decreases s.len(),
{
    if s.len() == 0 {
        0
    } else {
        seq_sum(s.drop_last()) + s.last()
    }
}

/// A prefix sums to no more than the whole.
pub proof fn lemma_sum_prefix(s: Seq<usize>, i: int)
    requires
        0 <= i <= s.len(),
    ensures
        seq_sum(s.take(i)) <= seq_sum(s),
        seq_sum(s.take(i)) >= 0,
    decreases s.len(),
{
    if i == s.len() {
        assert(s.take(i) =~= s);
        if s.len() > 0 {
            lemma_sum_prefix(s.drop_last(), i - 1);
            assert(s.drop_last().take(i - 1) =~= s.drop_last());
        }
    } else {
        lemma_sum_prefix(s.drop_last(), i);
        assert(s.drop_last().take(i) =~= s.take(i));
    }
}

impl Compiler {
    /// Adds `ident` to the constants of `f` once (see
    /// [`Chunk::write_identifier`]); gives its index cut to 8 bits.
    pub fn identifer_constant(&mut self, f: &mut Chunk, ident: String) -> (c: u8)
        requires
            old(f).spec_constants().len() < usize::MAX,
        ensures
            exists|i: usize| identifier_written(old(f).spec_constants(), ident@, i, final(f).spec_constants()) && c == i as u8,
            final(f).spec_code() == old(f).spec_code(),
            final(f).spec_locations() == old(f).spec_locations(),
            final(f).spec_valid() == old(f).spec_valid(),
            final(self)@ == old(self)@,
    {
        let i = f.write_identifier(ident);
        #[verifier::truncate] (i as u8)
    }

    /// Adds `value` to the constants of `f`; gives its index cut to 8 bits.
    pub fn write_constant(&mut self, f: &mut Chunk, value: Value) -> (c: u8)
        requires
            old(f).spec_constants().len() < usize::MAX,
        ensures
            final(f).spec_constants() == old(f).spec_constants().push(value@),
            c == old(f).spec_constants().len() as u8,
            final(f).spec_code() == old(f).spec_code(),
            final(f).spec_locations() == old(f).spec_locations(),
            final(f).spec_valid() == old(f).spec_valid(),
            final(self)@ == old(self)@,
    {
        let i = f.write_constant(value);
        #[verifier::truncate] (i as u8)
    }

    /// Adds `value` to the constants of `f` and writes the instruction that
    /// loads it, at `location`.
    pub fn constant(&mut self, f: &mut Chunk, value: Value, location: TokenCell)
        requires
            old(f).spec_constants().len() < usize::MAX,
            old(f).spec_code().len() < usize::MAX,
        ensures
            final(f).spec_constants() == old(f).spec_constants().push(value@),
            final(f).spec_code() == old(f).spec_code().push(OpCode::CONSTANT { constant: old(f).spec_constants().len() as u8 }),
            final(f).spec_locations() == old(f).spec_locations().push(location),
            final(f).spec_valid() == old(f).spec_valid(),
            final(self)@ == old(self)@,
    {
        let constant = self.write_constant(f, value);
        self.emit(f, OpCode::CONSTANT { constant }, location);
        assert(f.spec_code() =~= old(f).spec_code().push(OpCode::CONSTANT { constant }));
        assert(f.spec_locations() =~= old(f).spec_locations().push(location));
    }

    /// [`Compiler::constant`] at the current token's location.
    pub fn constant_at(&mut self, f: &mut Chunk, value: Value)
        requires
            old(f).spec_constants().len() < usize::MAX,
            old(f).spec_code().len() < usize::MAX,
        ensures
            final(f).spec_constants() == old(f).spec_constants().push(value@),
            final(f).spec_code() == old(f).spec_code().push(OpCode::CONSTANT { constant: old(f).spec_constants().len() as u8 }),
            final(f).spec_locations() == old(f).spec_locations().push(old(self)@.current_location),
            final(f).spec_valid() == old(f).spec_valid(),
            final(self)@ == old(self)@,
    {
        let loc = self.current_location;
        self.constant(f, value, loc);
    }

    /// Adds `ident` to the constants of `f` once and writes the instruction
    /// that loads it, at the current token's location.
    pub fn emit_identifer_constant_at(&mut self, f: &mut Chunk, ident: String)
        requires
            old(f).spec_constants().len() < usize::MAX,
            old(f).spec_code().len() < usize::MAX,
        ensures
            exists|i: usize| identifier_written(old(f).spec_constants(), ident@, i, final(f).spec_constants())
                && final(f).spec_code() == old(f).spec_code().push(OpCode::CONSTANT { constant: i as u8 }),
            final(f).spec_locations() == old(f).spec_locations().push(old(self)@.current_location),
            final(f).spec_valid() == old(f).spec_valid(),
            final(self)@ == old(self)@,
    {
        let i = f.write_identifier(ident);
        let constant = #[verifier::truncate] (i as u8);
        let loc = self.current_location;
        self.emit(f, OpCode::CONSTANT { constant }, loc);
        assert(f.spec_code() =~= old(f).spec_code().push(OpCode::CONSTANT { constant: i as u8 }));
        assert(f.spec_locations() =~= old(f).spec_locations().push(loc));
    }

    /// Drops the last `n` locals from the compile-time stack and writes the
    /// instruction that pops `n` values (the count cut to 8 bits). The slot
    /// count is left as it was.
    pub fn force_stack_pop(&mut self, f: &mut Chunk, n: usize)
        requires
            n <= old(self)@.locals.len(),
            old(f).spec_code().len() < usize::MAX,
        ensures
            final(self)@ == (CompilerView { locals: old(self)@.locals.take(old(self)@.locals.len() - n), ..old(self)@ }),
            appended(*old(f), *final(f), seq![OpCode::POPS(n as u8)], old(self)@.current_location),
    {
        let len = self.locals.len();
        self.locals.truncate(len - n);
        proof {
            assert(self@.locals =~= old(self)@.locals.take(old(self)@.locals.len() - n));
        }
        let c = #[verifier::truncate] (n as u8);
        self.emit_at(f, OpCode::POPS(c));
    }
}

/// The instructions that set and get a variable named `ident`: its local slot,
/// its capture, or (for a global) its name's constant in `f`.
pub fn resolve_etters(this: &mut Compiler, f: &mut Chunk, ident: String) -> (r: (OpCode, OpCode))
    requires
        old(this).wf(),
        local_resolvable(old(this)@, ident@),
        old(f).spec_constants().len() < usize::MAX,
    ensures
        final(this).wf(),
        ({
            let found = last_named(old(this)@.locals, ident@, old(this)@.locals.len() as int);
            if found.is_some() {
                &&& *final(f) == *old(f)
                &&& exists|slot: u8, up: bool| #![trigger resolved(old(this)@, ident@, Some((slot, up)), final(this)@)]
                    resolved(old(this)@, ident@, Some((slot, up)), final(this)@)
                    && r == (if up {
                        (OpCode::SET_UPVALUE { index: slot }, OpCode::GET_UPVALUE { index: slot })
                    } else {
                        (OpCode::SET_LOCAL { index: slot }, OpCode::GET_LOCAL { index: slot })
                    })
            } else {
                &&& final(this)@ == old(this)@
                &&& exists|i: usize| identifier_written(old(f).spec_constants(), ident@, i, final(f).spec_constants())
                    && r == (OpCode::SET_GLOBAL { constant: i as u8 }, OpCode::GET_GLOBAL { constant: i as u8 })
                &&& final(f).spec_code() == old(f).spec_code()
                &&& final(f).spec_locations() == old(f).spec_locations()
                &&& final(f).spec_valid() == old(f).spec_valid()
            }
        }),
{
    match resolve_local(this, &ident) {
        Some((i, is_up)) => {
            if is_up {
                (OpCode::SET_UPVALUE { index: i }, OpCode::GET_UPVALUE { index: i })
            } else {
                (OpCode::SET_LOCAL { index: i }, OpCode::GET_LOCAL { index: i })
            }
        },
        None => {
            let c = this.identifer_constant(f, ident);
            (OpCode::SET_GLOBAL { constant: c }, OpCode::GET_GLOBAL { constant: c })
        },
    }
}

/// Enters a function: a fresh function state, the slot count saved and reset
/// to the function's own slot, and its frame offset: the current slot count
/// plus the sum of every enclosing frame offset, less one.
pub fn begin_functional_scope(this: &mut Compiler)
    requires
        old(this).wf(),
        old(this)@.functional_depth < usize::MAX,
        old(this)@.local_count + seq_sum(old(this)@.offsets) >= 1,
        old(this)@.local_count + seq_sum(old(this)@.offsets) <= usize::MAX,
    ensures
        final(this).wf(),
        final(this)@ == (CompilerView {
            functional_depth: (old(this)@.functional_depth + 1) as usize,
            states: old(this)@.states.push(fresh_state()),
            offsets: old(this)@.offsets.push((old(this)@.local_count + seq_sum(old(this)@.offsets) - 1) as usize),
            local_offset: old(this)@.local_offset.push(old(this)@.local_count),
            local_count: 1,
            ..old(this)@
        }),
{
    this.functional_depth += 1;
    this.functional_states.push(FunctionalState::new());
    let n = this.local_functional_offset.len();
    let mut cumulative: usize = 0;
    let mut k: usize = 0;
    while k < n
        invariant
            k <= n,
            n == this.local_functional_offset@.len(),
            this.local_functional_offset@ == old(this)@.offsets,
            cumulative == seq_sum(old(this)@.offsets.take(k as int)),
            seq_sum(old(this)@.offsets) <= usize::MAX,
        decreases n - k,
    {
        proof {
            lemma_sum_prefix(old(this)@.offsets, k as int + 1);
            assert(old(this)@.offsets.take(k as int + 1).drop_last() =~= old(this)@.offsets.take(k as int));
        }
        cumulative = cumulative + this.local_functional_offset[k];
        k = k + 1;
    }
    proof {
        assert(old(this)@.offsets.take(n as int) =~= old(this)@.offsets);
    }
    let off = this.local_count + cumulative - 1;
    this.local_functional_offset.push(off);
    let lc = this.local_count;
    this.local_offset.push(lc);
    this.local_count = 1;
    proof {
        assert(this@.states =~= old(this)@.states.push(fresh_state()));
    }
}

/// Leaves a function: its state is handed back, its frame offset dropped and
/// the slot count saved on entry restored.
pub fn end_functional_scope(this: &mut Compiler) -> (st: FunctionalState)
    requires
        old(this).wf(),
        old(this)@.functional_depth > 0,
    ensures
        final(this).wf(),
        st@ == old(this)@.states.last(),
        final(this)@ == (CompilerView {
            functional_depth: (old(this)@.functional_depth - 1) as usize,
            states: old(this)@.states.drop_last(),
            offsets: old(this)@.offsets.drop_last(),
            local_offset: old(this)@.local_offset.drop_last(),
            local_count: old(this)@.local_offset.last(),
            ..old(this)@
        }),
{
    this.functional_depth -= 1;
    this.local_functional_offset.pop();
    this.local_count = match this.local_offset.pop() {
        Some(v) => v,
        None => 1,
    };
    let st = this.functional_states.pop().unwrap();
    proof {
        assert(this@.states =~= old(this)@.states.drop_last());
        assert(this@.offsets =~= old(this)@.offsets.drop_last());
        assert(this@.local_offset =~= old(this)@.local_offset.drop_last());
    }
    st
}

/// The trailing locals declared deeper than block depth `d`, the last one first:
/// the locals closing a block drops, in the order it drops them.
pub open spec fn dropped(locals: Seq<LocalView>, d: usize) -> Seq<LocalView>
    decreases locals.len(),
{
    if locals.len() == 0 || locals.last().depth <= d {
        Seq::empty()
    } else {
        seq![locals.last()] + dropped(locals.drop_last(), d)
    }
}

/// Dropping `k` of those locals leaves the rest of them to drop.
pub proof fn lemma_dropped_skip(locals: Seq<LocalView>, d: usize, k: int)
    requires
        0 <= k <= dropped(locals, d).len(),
    ensures
        dropped(locals, d).len() <= locals.len(),
        dropped(locals.take(locals.len() - k), d) == dropped(locals, d).skip(k),
    decreases locals.len(),
{
    if locals.len() == 0 || locals.last().depth <= d {
        assert(locals.take(locals.len() - k) =~= locals);
        assert(dropped(locals, d).skip(k) =~= Seq::<LocalView>::empty());
    } else {
        let rest = locals.drop_last();
        if k == 0 {
            lemma_dropped_skip(rest, d, 0);
            assert(locals.take(locals.len() - k) =~= locals);
            assert(dropped(locals, d).skip(k) =~= dropped(locals, d));
        } else {
            lemma_dropped_skip(rest, d, k - 1);
            assert(rest.take(rest.len() - (k - 1)) =~= locals.take(locals.len() - k));
            assert(dropped(locals, d).skip(k) =~= dropped(rest, d).skip(k - 1));
        }
    }
}

/// The bookkeeping of closing a block after seeing the capture flags `caps` of
/// the dropped locals in order: the run lengths closed so far, whether the run
/// being counted is of plain (uncaptured) locals, and its length so far.
pub open spec fn run_state(caps: Seq<bool>) -> (Seq<nat>, bool, nat)
    decreases caps.len(),
{
    if caps.len() == 0 {
        (Seq::empty(), true, 0)
    } else {
        let prev = run_state(caps.drop_last());
        if caps.last() {
            if prev.1 {
                (prev.0.push(prev.2), false, 1)
            } else {
                (prev.0, false, prev.2 + 1)
            }
        } else {
            if !prev.1 {
                (prev.0.push(prev.2), true, 1)
            } else {
                (prev.0, true, prev.2 + 1)
            }
        }
    }
}

/// No more runs are closed than flags are seen.
pub proof fn lemma_run_count(caps: Seq<bool>)
    ensures
        run_state(caps).0.len() <= caps.len(),
        scope_runs(caps).len() <= caps.len() + 1,
    decreases caps.len(),
{
    if caps.len() > 0 {
        lemma_run_count(caps.drop_last());
    }
}

/// The lengths of the runs of plain and of captured locals among the dropped
/// ones, alternating and starting with plain (a first run of 0 when the first
/// dropped local is captured).
pub open spec fn scope_runs(caps: Seq<bool>) -> Seq<nat> {
    let st = run_state(caps);
    if st.2 > 0 {
        st.0.push(st.2)
    } else {
        st.0
    }
}

/// The instructions that close a block: each run of plain locals is popped,
/// each run of captured ones is closed.
pub open spec fn scope_ops(runs: Seq<nat>) -> Seq<OpCode> {
    Seq::new(runs.len(), |i: int| if i % 2 == 0 { OpCode::POPS(runs[i] as u8) } else { OpCode::CLOSE_UPVALUES(runs[i] as u8) })
}

/// No run grows past what an 8-bit count holds.
pub open spec fn runs_fit(caps: Seq<bool>) -> bool {
    forall|k: int| 0 <= k <= caps.len() ==> #[trigger] run_state(caps.take(k)).2 <= 255
}

/// The capture flags of the locals closing a block at depth `d + 1` drops.
pub open spec fn dropped_caps(locals: Seq<LocalView>, d: usize) -> Seq<bool> {
    dropped(locals, d).map_values(|l: LocalView| l.is_captured)
}

/// Closes the innermost block: its locals leave the compile-time stack and the
/// slot count, and unless `skip_code` (a function body, whose frame goes
/// away whole), the instructions of [`scope_ops`] pop or close them.
pub fn end_scope(this: &mut Compiler, f: &mut Chunk, skip_code: bool)
    requires
        old(this).wf(),
        old(this)@.scope_depth > 0,
        old(this)@.local_count >= dropped(old(this)@.locals, (old(this)@.scope_depth - 1) as usize).len(),
        runs_fit(dropped_caps(old(this)@.locals, (old(this)@.scope_depth - 1) as usize)),
        old(f).spec_code().len() + old(this)@.locals.len() + 1 < usize::MAX,
    ensures
        final(this).wf(),
        ({
            let d = (old(this)@.scope_depth - 1) as usize;
            let t = dropped(old(this)@.locals, d).len();
            &&& final(this)@ == (CompilerView {
                scope_depth: d,
                locals: old(this)@.locals.take(old(this)@.locals.len() - t),
                local_count: (old(this)@.local_count - t) as usize,
                ..old(this)@
            })
            &&& skip_code ==> *final(f) == *old(f)
            &&& !skip_code ==> appended(*old(f), *final(f), scope_ops(scope_runs(dropped_caps(old(this)@.locals, d))), old(this)@.current_location)
        }),
{
    this.scope_depth -= 1;
    let ghost d = this.scope_depth;
    let ghost locs = old(this)@.locals;
    let ghost len = locs.len();
    let ghost caps = dropped_caps(locs, d);
    let ghost t = dropped(locs, d).len();
    proof {
        lemma_dropped_skip(locs, d, 0);
        assert(locs.take(len as int) =~= locs);
        assert(caps.take(0) =~= Seq::<bool>::empty());
        assert(this@ == (CompilerView { scope_depth: d, locals: locs.take(len - 0), local_count: (old(this)@.local_count - 0) as usize, ..old(this)@ }));
    }
    let mut last_was_pop = true;
    let mut count: u8 = 0;
    let mut v: Vec<u8> = Vec::new();
    let ghost mut k: int = 0;
    while !this.locals.is_empty() && this.locals.last().unwrap().depth > this.scope_depth
        invariant
            0 <= k <= t,
            t <= len,
            len == locs.len(),
            locs == old(this)@.locals,
            caps == dropped_caps(locs, d),
            t == dropped(locs, d).len(),
            d == this.scope_depth,
            runs_fit(caps),
            old(this)@.local_count >= t,
            this@ == (CompilerView {
                scope_depth: d,
                locals: locs.take(len - k),
                local_count: (old(this)@.local_count - k) as usize,
                ..old(this)@
            }),
            dropped(locs.take(len - k), d) == dropped(locs, d).skip(k),
            v@.map_values(|x: u8| x as nat) == run_state(caps.take(k)).0,
            last_was_pop == run_state(caps.take(k)).1,
            count as nat == run_state(caps.take(k)).2,
        decreases len - k,
    {
        proof {
            assert(this.locals@.len() == len - k);
            let now = locs.take(len - k);
            assert(this@.locals == now);
            assert(now.last() == this.locals@.last()@);
            assert(dropped(now, d).len() > 0);
            assert(k < t);
            assert(dropped(locs, d)[k] == dropped(now, d)[0]);
        }
        let l = this.locals.pop().unwrap();
        this.local_count -= 1;
        proof {
            assert(l@ == dropped(locs, d)[k]);
            assert(caps[k] == l.is_captured);
            assert(caps.take(k + 1).drop_last() =~= caps.take(k));
            assert(caps.take(k + 1).last() == caps[k]);
            assert(run_state(caps.take(k + 1)).2 <= 255);
        }
        if l.is_captured {
            if last_was_pop {
                v.push(count);
                count = 0;
            }
            last_was_pop = false;
            count += 1;
        } else {
            if !last_was_pop {
                v.push(count);
                count = 0;
            }
            last_was_pop = true;
            count += 1;
        }
        proof {
            assert(v@.map_values(|x: u8| x as nat) =~= run_state(caps.take(k + 1)).0);
            lemma_dropped_skip(locs, d, k + 1);
            assert(this@.locals =~= locs.take(len - (k + 1)));
            k = k + 1;
        }
    }
    proof {
        let now = locs.take(len - k);
        assert(this@.locals == now);
        if k < t {
            assert(dropped(now, d).len() > 0);
        }
        assert(k == t);
        assert(caps.take(k) =~= caps);
    }
    if count > 0 {
        v.push(count);
    }
    let ghost runs = scope_runs(caps);
    assert(v@.map_values(|x: u8| x as nat) =~= runs);
    proof {
        lemma_run_count(caps);
        assert(caps.len() == t);
    }
    if skip_code {
        return;
    }
    let ghost f0 = *f;
    let loc = this.current_location;
    let n = v.len();
    let mut i: usize = 0;
    while i < n
        invariant
            i <= n,
            n == v@.len(),
            runs == v@.map_values(|x: u8| x as nat),
            n <= t + 1,
            t <= len,
            f0 == *old(f),
            loc == old(this)@.current_location,
            f0.spec_code().len() + len + 1 < usize::MAX,
            appended(f0, *f, scope_ops(runs).take(i as int), loc),
        decreases n - i,
    {
        let c = v[i];
        let op = if i % 2 == 0 {
            OpCode::POPS(c)
        } else {
            OpCode::CLOSE_UPVALUES(c)
        };
        proof {
            assert(scope_ops(runs).take(i as int).len() == i);
            assert(f.spec_code().len() == f0.spec_code().len() + i);
        }
        this.write_code(f, op, loc);
        proof {
            assert(runs[i as int] == c as nat);
            assert(scope_ops(runs)[i as int] == op);
            assert(scope_ops(runs).take(i as int + 1) =~= scope_ops(runs).take(i as int).push(op));
            assert(f.spec_code() =~= f0.spec_code() + scope_ops(runs).take(i as int + 1));
            assert(f.spec_locations() =~= f0.spec_locations() + Seq::new((i + 1) as nat, |k: int| loc));
        }
        i = i + 1;
    }
    proof {
        assert(scope_ops(runs).take(n as int) =~= scope_ops(runs));
    }
}

/// The index of the first label named `name` from `k` on.
pub open spec fn label_index(labels: Seq<(Seq<char>, usize)>, name: Seq<char>, k: int) -> Option<int>
    decreases labels.len() - k,
{
    if k < 0 || k >= labels.len() {
        None
    } else if labels[k].0 == name {
        Some(k)
    } else {
        label_index(labels, name, k + 1)
    }
}

/// Where the label `name` stands in the chunk, if it was set.
pub open spec fn label_lookup(labels: Seq<(Seq<char>, usize)>, name: Seq<char>) -> Option<usize> {
    match label_index(labels, name, 0) {
        Some(k) => Some(labels[k].1),
        None => None,
    }
}

/// The labels after setting `name` at `at`: its entry replaced, or a new one.
pub open spec fn labels_set(labels: Seq<(Seq<char>, usize)>, name: Seq<char>, at: usize) -> Seq<(Seq<char>, usize)> {
    match label_index(labels, name, 0) {
        Some(k) => labels.update(k, (name, at)),
        None => labels.push((name, at)),
    }
}

/// The jump a `goto` from instruction count `from` to a label at `to` is:
/// back by the difference, or forward by it; `None` past 16 bits.
pub open spec fn goto_jump(from: usize, to: usize) -> Option<OpCode> {
    if from > to {
        if from - to > u16::MAX { None } else { Some(OpCode::REWIND((from - to) as u16)) }
    } else {
        if to - from > u16::MAX { None } else { Some(OpCode::FORWARD((to - from) as u16)) }
    }
}

/// The instructions after aiming each jump in `jumps` at the end of a chunk of
/// `code`, one after another, with the error that stopped it, if one did.
pub open spec fn patch_run(code: Seq<OpCode>, jumps: Seq<usize>) -> (Seq<OpCode>, Option<SiltError>)
    decreases jumps.len(),
{
    if jumps.len() == 0 {
        (code, None)
    } else {
        let prev = patch_run(code, jumps.drop_last());
        if prev.1.is_some() {
            prev
        } else {
            let idx = jumps.last();
            let jump = code.len() - idx - 1;
            if jump > u16::MAX {
                (prev.0, Some(SiltError::TooManyOperations))
            } else {
                match with_jump(prev.0[idx as int], jump as u16) {
                    Some(j) => (prev.0.update(idx as int, j), None),
                    None => (prev.0, Some(SiltError::ChunkCorrupt)),
                }
            }
        }
    }
}

/// Patching keeps the number of instructions.
pub proof fn lemma_patch_run_len(code: Seq<OpCode>, jumps: Seq<usize>)
    requires
        forall|j: int| 0 <= j < jumps.len() ==> jumps[j] < code.len(),
    ensures
        patch_run(code, jumps).0.len() == code.len(),
    decreases jumps.len(),
{
    if jumps.len() > 0 {
        lemma_patch_run_len(code, jumps.drop_last());
    }
}

/// Once a jump cannot be aimed, the rest are left as they are.
pub proof fn lemma_patch_run_stops(code: Seq<OpCode>, jumps: Seq<usize>, m: int)
    requires
        0 <= m <= jumps.len(),
        patch_run(code, jumps.take(m)).1.is_some(),
    ensures
        patch_run(code, jumps) == patch_run(code, jumps.take(m)),
    decreases jumps.len(),
{
    if m == jumps.len() {
        assert(jumps.take(m) =~= jumps);
    } else {
        assert(jumps.drop_last().take(m) =~= jumps.take(m));
        lemma_patch_run_stops(code, jumps.drop_last(), m);
    }
}

/// The instructions that store the gathered assignment targets, the last
/// target first: each target's setter and a pop.
pub open spec fn setter_ops(s: Seq<Option<(OpCode, OpCode)>>) -> Seq<OpCode>
    decreases s.len(),
{
    if s.len() == 0 {
        Seq::empty()
    } else {
        setter_ops(s.subrange(1, s.len() as int)) + match s[0] {
            Some(p) => seq![p.0, OpCode::POP],
            None => Seq::empty(),
        }
    }
}

/// The instructions that load the gathered variables, in order: each one's
/// getter.
pub open spec fn getter_ops(s: Seq<Option<(OpCode, OpCode)>>) -> Seq<OpCode>
    decreases s.len(),
{
    if s.len() == 0 {
        Seq::empty()
    } else {
        getter_ops(s.drop_last()) + match s.last() {
            Some(p) => seq![p.1],
            None => Seq::empty(),
        }
    }
}

/// Each gathered target gives at most two instructions.
pub proof fn lemma_etter_ops_len(s: Seq<Option<(OpCode, OpCode)>>)
    ensures
        setter_ops(s).len() <= 2 * s.len(),
        getter_ops(s).len() <= s.len(),
    decreases s.len(),
{
    if s.len() > 0 {
        lemma_etter_ops_len(s.subrange(1, s.len() as int));
        lemma_etter_ops_len(s.drop_last());
    }
}

impl Compiler {
    /// Sets the label `label` at the current end of `f`.
    pub fn set_label(&mut self, f: &Chunk, label: String)
        ensures
            final(self)@ == (CompilerView { labels: labels_set(old(self)@.labels, label@, f.spec_code().len() as usize), ..old(self)@ }),
    {
        let at = self.get_chunk_size(f);
        let n = self.labels.len();
        let mut k: usize = 0;
        while k < n
            invariant
                k <= n,
                n == self.labels@.len(),
                self@ == old(self)@,
                at == f.spec_code().len(),
                label_index(self@.labels, label@, 0) == label_index(self@.labels, label@, k as int),
            decreases n - k,
        {
            assert(self@.labels[k as int] == (self.labels@[k as int].0@, self.labels@[k as int].1));
            if self.labels[k].0.eq(&label) {
                let ghost name = label@;
                assert(label_index(old(self)@.labels, name, k as int) == Some(k as int));
                self.labels.set(k, (label, at));
                proof {
                    assert(self@.labels =~= old(self)@.labels.update(k as int, (name, at)));
                }
                return;
            }
            k = k + 1;
        }
        let ghost name = label@;
        self.labels.push((label, at));
        proof {
            assert(self@.labels =~= old(self)@.labels.push((name, at)));
        }
    }

    /// Marks the start of a statement: not an expression yet, one value
    /// expected, several assignment targets allowed again.
    pub fn pre_statement(&mut self)
        requires
            old(self).wf(),
        ensures
            final(self).wf(),
            final(self)@ == with_current_state(
                CompilerView { last_was_expression: false, can_multivar_set: true, ..old(self)@ },
                StateView { expression_count: 1, ..current_state(old(self)@) }),
    {
        self.last_was_expression = false;
        self.set_expression_count(1);
        self.set_can_multivar_set(true);
    }

    /// Writes the gathered assignment targets' stores into `f`, the last
    /// target first, and forgets them.
    pub fn drain_setters(&mut self, f: &mut Chunk)
        requires
            old(f).spec_code().len() + 2 * old(self)@.var_set_stack.len() < usize::MAX,
        ensures
            final(self)@ == (CompilerView { var_set_stack: Seq::empty(), ..old(self)@ }),
            appended(*old(f), *final(f), setter_ops(old(self)@.var_set_stack), old(self)@.current_location),
    {
        let ghost s = old(self)@.var_set_stack;
        let ghost f0 = *f;
        let loc = self.current_location;
        let n = self.var_set_stack.len();
        let mut i: usize = n;
        proof {
            assert(s.subrange(n as int, n as int) =~= Seq::<Option<(OpCode, OpCode)>>::empty());
            assert(f.spec_code() =~= f0.spec_code() + Seq::<OpCode>::empty());
            assert(f.spec_locations() =~= f0.spec_locations() + Seq::new(0, |k: int| loc));
        }
        while i > 0
            invariant
                i <= n,
                n == s.len(),
                self@ == old(self)@,
                s == self@.var_set_stack,
                loc == self@.current_location,
                f0 == *old(f),
                f0.spec_code().len() + 2 * n < usize::MAX,
                appended(f0, *f, setter_ops(s.subrange(i as int, n as int)), loc),
            decreases i,
        {
            let j = i - 1;
            proof {
                let sub = s.subrange(j as int, n as int);
                assert(sub.subrange(1, sub.len() as int) =~= s.subrange(i as int, n as int));
                assert(sub[0] == s[j as int]);
                lemma_etter_ops_len(s.subrange(i as int, n as int));
            }
            match self.var_set_stack[j] {
                Some(p) => {
                    self.write_code(f, p.0, loc);
                    self.write_code(f, OpCode::POP, loc);
                    proof {
                        let prev = setter_ops(s.subrange(i as int, n as int));
                        assert(f.spec_code() =~= f0.spec_code() + (prev + seq![p.0, OpCode::POP]));
                        assert(f.spec_locations() =~= f0.spec_locations() + Seq::new((prev.len() + 2) as nat, |k: int| loc));
                    }
                },
                None => {
                    proof {
                        let prev = setter_ops(s.subrange(i as int, n as int));
                        assert(prev + Seq::<OpCode>::empty() =~= prev);
                    }
                },
            }
            i = j;
        }
        proof {
            assert(s.subrange(0, n as int) =~= s);
        }
        self.var_set_stack = Vec::new();
    }

    /// Writes the gathered variables' loads into `f`, in order, and forgets
    /// them.
    pub fn drain_getters(&mut self, f: &mut Chunk)
        requires
            old(f).spec_code().len() + old(self)@.var_stack.len() < usize::MAX,
        ensures
            final(self)@ == (CompilerView { var_stack: Seq::empty(), ..old(self)@ }),
            appended(*old(f), *final(f), getter_ops(old(self)@.var_stack), old(self)@.current_location),
    {
        let ghost s = old(self)@.var_stack;
        let ghost f0 = *f;
        let loc = self.current_location;
        let n = self.var_stack.len();
        let mut i: usize = 0;
        proof {
            assert(s.take(0) =~= Seq::<Option<(OpCode, OpCode)>>::empty());
            assert(f.spec_code() =~= f0.spec_code() + Seq::<OpCode>::empty());
            assert(f.spec_locations() =~= f0.spec_locations() + Seq::new(0, |k: int| loc));
        }
        while i < n
            invariant
                i <= n,
                n == s.len(),
                self@ == old(self)@,
                s == self@.var_stack,
                loc == self@.current_location,
                f0 == *old(f),
                f0.spec_code().len() + n < usize::MAX,
                appended(f0, *f, getter_ops(s.take(i as int)), loc),
            decreases n - i,
        {
            proof {
                let sub = s.take(i as int + 1);
                assert(sub.drop_last() =~= s.take(i as int));
                assert(sub.last() == s[i as int]);
                lemma_etter_ops_len(s.take(i as int));
            }
            match self.var_stack[i] {
                Some(p) => {
                    self.write_code(f, p.1, loc);
                    proof {
                        let prev = getter_ops(s.take(i as int));
                        assert(f.spec_code() =~= f0.spec_code() + (prev + seq![p.1]));
                        assert(f.spec_locations() =~= f0.spec_locations() + Seq::new((prev.len() + 1) as nat, |k: int| loc));
                    }
                },
                None => {
                    proof {
                        let prev = getter_ops(s.take(i as int));
                        assert(prev + Seq::<OpCode>::empty() =~= prev);
                    }
                },
            }
            i = i + 1;
        }
        proof {
            assert(s.take(n as int) =~= s);
        }
        self.var_stack = Vec::new();
    }
}

/// Jumps from instruction count `op_count` to the label `ident`: when the
/// label is set, with the jump of [`goto_jump`] (written at `replace`'s index
/// when given, else appended); when it is not, a `goto` found later fails with
/// `UndefinedLabel` at `replace`'s location, and one written now gets a
/// placeholder jump recorded to be resolved later.
pub fn resolve_goto(this: &mut Compiler, f: &mut Chunk, ident: &str, op_count: usize, replace: Option<(usize, TokenCell)>) -> (r: Result<(), ErrorTuple>)
    requires
        old(f).spec_code().len() < usize::MAX,
        match replace {
            Some(p) => label_lookup(old(this)@.labels, ident@).is_some() ==> p.0 < old(f).spec_code().len(),
            None => true,
        },
    ensures
        match label_lookup(old(this)@.labels, ident@) {
            Some(to) => match goto_jump(op_count, to) {
                Some(op) => {
                    &&& r == Ok::<(), ErrorTuple>(())
                    &&& final(this)@ == old(this)@
                    &&& match replace {
                        Some(p) => rewritten(*old(f), *final(f), old(f).spec_code().update(p.0 as int, op)),
                        None => appended(*old(f), *final(f), seq![op], old(this)@.current_location),
                    }
                },
                None => {
                    &&& r == Err::<(), ErrorTuple>(ErrorTuple { code: SiltError::TooManyOperations, location: old(this)@.current_location })
                    &&& final(this)@ == (CompilerView { valid: false, ..old(this)@ })
                    &&& *final(f) == *old(f)
                },
            },
            None => match replace {
                Some(p) => {
                    &&& r is Err
                    &&& r->Err_0.code@ == SiltErrorView::UndefinedLabel(ident@)
                    &&& r->Err_0.location == p.1
                    &&& final(this)@ == (CompilerView { valid: false, ..old(this)@ })
                    &&& *final(f) == *old(f)
                },
                None => {
                    &&& r == Ok::<(), ErrorTuple>(())
                    &&& appended(*old(f), *final(f), seq![OpCode::FORWARD(0)], old(this)@.current_location)
                    &&& final(this)@ == (CompilerView {
                        pending_gotos: old(this)@.pending_gotos.push((ident@, old(f).spec_code().len() as usize, old(this)@.current_location)),
                        ..old(this)@
                    })
                },
            },
        },
{
    let name = String::from_str(ident);
    let n = this.labels.len();
    let mut k: usize = 0;
    let mut found: Option<usize> = None;
    while k < n && found.is_none()
        invariant
            k <= n,
            n == this.labels@.len(),
            this@ == old(this)@,
            name@ == ident@,
            found.is_none() ==> label_index(this@.labels, ident@, 0) == label_index(this@.labels, ident@, k as int),
            found.is_some() ==> found == label_lookup(this@.labels, ident@),
        decreases n - k + (if found.is_none() { 1int } else { 0int }),
    {
        assert(this@.labels[k as int] == (this.labels@[k as int].0@, this.labels@[k as int].1));
        if this.labels[k].0.eq(&name) {
            found = Some(this.labels[k].1);
        } else {
            k = k + 1;
        }
    }
    assert(found == label_lookup(old(this)@.labels, ident@));
    match found {
        Some(o) => {
            let c = op_count;
            let code = if c > o {
                let offset = c - o;
                if offset > 65535 {
                    return Err(this.error_at(SiltError::TooManyOperations));
                }
                OpCode::REWIND(offset as u16)
            } else {
                let offset = o - c;
                if offset > 65535 {
                    return Err(this.error_at(SiltError::TooManyOperations));
                }
                OpCode::FORWARD(offset as u16)
            };
            match replace {
                Some((i, _)) => {
                    this.change_code(f, i, code);
                },
                None => {
                    this.emit_at(f, code);
                },
            }
        },
        None => match replace {
            Some((_i, location)) => {
                let code = SiltError::UndefinedLabel(name);
                return Err(this.error_syntax(code, location));
            },
            None => {
                let index = this.emit_index(f, OpCode::FORWARD(0));
                let loc = this.current_location;
                let ghost before = this@;
                this.pending_gotos.push((name, index, loc));
                proof {
                    assert(this@.pending_gotos =~= before.pending_gotos.push((ident@, index, loc)));
                }
            },
        },
    }
    Ok(())
}

/// Resolves the `goto`s still waiting for their labels; nothing is done with
/// them yet.
pub fn final_resolve_goto(this: &mut Compiler)
    ensures
        final(this)@ == old(this)@,
{
    let n = this.pending_gotos.len();
    let mut k: usize = 0;
    while k < n
        invariant
            k <= n,
            this@ == old(this)@,
        decreases n - k,
    {
        k = k + 1;
    }
}

/// Writes a pop of the locals of blocks deeper than the current one.
pub fn goto_scope_skip(this: &mut Compiler, f: &mut Chunk)
    requires
        dropped(old(this)@.locals, old(this)@.scope_depth).len() <= 255,
        old(f).spec_code().len() < usize::MAX,
    ensures
        final(this)@ == old(this)@,
        old(this)@.locals.len() == 0 ==> *final(f) == *old(f),
        old(this)@.locals.len() > 0 ==> appended(*old(f), *final(f),
            seq![OpCode::POPS(dropped(old(this)@.locals, old(this)@.scope_depth).len() as u8)], old(this)@.current_location),
{
    if this.locals.len() == 0 {
        return;
    }
    let ghost locs = this@.locals;
    let ghost d = this.scope_depth;
    let n = this.locals.len();
    let mut i: u8 = 0;
    let mut k: usize = n;
    proof {
        lemma_dropped_skip(locs, d, 0);
        assert(locs.take(n as int) =~= locs);
    }
    while k > 0 && this.locals[k - 1].depth > this.scope_depth
        invariant
            k <= n,
            n == locs.len(),
            this@ == old(this)@,
            locs == this@.locals,
            d == this.scope_depth,
            dropped(locs, d).len() <= 255,
            i as int == n - k,
            n - k <= dropped(locs, d).len(),
            dropped(locs.take(k as int), d) == dropped(locs, d).skip(n - k),
        decreases k,
    {
        proof {
            assert(this.locals@[k - 1]@ == locs[k - 1]);
            let now = locs.take(k as int);
            assert(now.last() == locs[k - 1]);
            assert(dropped(now, d).len() > 0);
            lemma_dropped_skip(locs, d, n - k + 1);
            assert(locs.take(n - (n - k + 1)) =~= locs.take(k - 1));
        }
        i = i + 1;
        k = k - 1;
    }
    proof {
        let now = locs.take(k as int);
        if k > 0 {
            assert(this.locals@[k - 1]@ == locs[k - 1]);
            assert(now.last() == locs[k - 1]);
        }
        assert(dropped(now, d).len() == 0);
        assert(i == dropped(locs, d).len());
    }
    this.emit_at(f, OpCode::POPS(i));
}

/// Enters a loop: its `break`s will unwind to the current slot count.
pub fn begin_loop(this: &mut Compiler)
    ensures
        final(this)@ == (CompilerView { loops: old(this)@.loops.push((old(this)@.local_count, Seq::empty())), ..old(this)@ }),
{
    let lc = this.local_count;
    this.loops.push(LoopCtx { base_local_count: lc, break_jumps: Vec::new() });
    proof {
        assert(this@.loops =~= old(this)@.loops.push((old(this)@.local_count, Seq::empty())));
    }
}

/// Leaves the innermost loop, aiming each of its `break` jumps at the end of
/// `f` (see [`patch_run`]); stops at the first jump that cannot be aimed.
pub fn end_loop(this: &mut Compiler, f: &mut Chunk) -> (r: Result<(), ErrorTuple>)
    requires
        old(this)@.loops.len() > 0 ==> forall|j: int| 0 <= j < old(this)@.loops.last().1.len()
            ==> #[trigger] old(this)@.loops.last().1[j] < old(f).spec_code().len(),
    ensures
        old(this)@.loops.len() == 0 ==> r == Ok::<(), ErrorTuple>(()) && final(this)@ == old(this)@ && *final(f) == *old(f),
        old(this)@.loops.len() > 0 ==> ({
            let run = patch_run(old(f).spec_code(), old(this)@.loops.last().1);
            &&& rewritten(*old(f), *final(f), run.0)
            &&& match run.1 {
                None => {
                    &&& r == Ok::<(), ErrorTuple>(())
                    &&& final(this)@ == (CompilerView { loops: old(this)@.loops.drop_last(), ..old(this)@ })
                },
                Some(e) => {
                    &&& r == Err::<(), ErrorTuple>(ErrorTuple { code: e, location: old(this)@.current_location })
                    &&& final(this)@ == (CompilerView { loops: old(this)@.loops.drop_last(), valid: false, ..old(this)@ })
                },
            }
        }),
{
    if let Some(ctx) = this.loops.pop() {
        let ghost mid = this@;
        proof {
            assert(mid.loops =~= old(this)@.loops.drop_last());
            assert(mid == (CompilerView { loops: old(this)@.loops.drop_last(), ..old(this)@ }));
        }
        let ghost jumps = ctx.break_jumps@;
        assert(jumps == old(this)@.loops.last().1);
        let ghost code0 = old(f).spec_code();
        let n = ctx.break_jumps.len();
        let mut k: usize = 0;
        proof {
            assert(jumps.take(0) =~= Seq::<usize>::empty());
            Chunk::lemma_rest_kept(&*f, &*f);
        }
        while k < n
            invariant
                k <= n,
                n == jumps.len(),
                jumps == ctx.break_jumps@,
                this@ == mid,
                mid == (CompilerView { loops: old(this)@.loops.drop_last(), ..old(this)@ }),
                old(this)@.loops.len() > 0,
                jumps == old(this)@.loops.last().1,
                code0 == old(f).spec_code(),
                forall|j: int| 0 <= j < jumps.len() ==> #[trigger] jumps[j] < code0.len(),
                patch_run(code0, jumps.take(k as int)).1.is_none(),
                rewritten(*old(f), *f, patch_run(code0, jumps.take(k as int)).0),
            decreases n - k,
        {
            let idx = ctx.break_jumps[k];
            proof {
                assert(jumps.take(k as int + 1).drop_last() =~= jumps.take(k as int));
                assert(jumps.take(k as int + 1).last() == idx);
                lemma_patch_run_len(code0, jumps.take(k as int));
            }
            match this.patch(f, idx) {
                Ok(()) => {},
                Err(e) => {
                    proof {
                        lemma_patch_run_stops(code0, jumps, k as int + 1);
                    }
                    return Err(e);
                },
            }
            k = k + 1;
        }
        proof {
            assert(jumps.take(n as int) =~= jumps);
        }
    }
    Ok(())
}

/// A `break`: pops the slots the innermost loop's body added and jumps to the
/// loop's end (recorded for [`end_loop`]); outside a loop, `InvalidTokenPlacement`.
/// The `break` keyword itself is consumed by the caller.
pub fn break_statement(this: &mut Compiler, f: &mut Chunk) -> (r: Result<(), ErrorTuple>)
    requires
        old(f).spec_code().len() + 1 < usize::MAX,
    ensures
        old(this)@.loops.len() == 0 ==> r == Err::<(), ErrorTuple>(ErrorTuple {
            code: SiltError::InvalidTokenPlacement(crate::token::Token::Break),
            location: old(this)@.current_location,
        }) && final(this)@ == (CompilerView { valid: false, ..old(this)@ }) && *final(f) == *old(f),
        old(this)@.loops.len() > 0 ==> ({
            let base = old(this)@.loops.last().0;
            let unwind = if old(this)@.local_count > base { old(this)@.local_count - base } else { 0 };
            let ops = if unwind > 0 { seq![OpCode::POPS(unwind as u8), OpCode::FORWARD(0)] } else { seq![OpCode::FORWARD(0)] };
            &&& r == Ok::<(), ErrorTuple>(())
            &&& appended(*old(f), *final(f), ops, old(this)@.current_location)
            &&& final(this)@ == (CompilerView {
                loops: old(this)@.loops.update(old(this)@.loops.len() - 1,
                    (base, old(this)@.loops.last().1.push((old(f).spec_code().len() + ops.len() - 1) as usize))),
                ..old(this)@
            })
        }),
{
    let n = this.loops.len();
    if n == 0 {
        return Err(this.error_at(SiltError::InvalidTokenPlacement(crate::token::Token::Break)));
    }
    let base = this.loops[n - 1].base_local_count;
    let unwind = this.local_count.saturating_sub(base);
    let ghost f0 = *f;
    if unwind > 0 {
        let c = #[verifier::truncate] (unwind as u8);
        this.emit_at(f, OpCode::POPS(c));
    }
    let idx = this.emit_index(f, OpCode::FORWARD(0));
    let ghost before = this@;
    this.loops[n - 1].break_jumps.push(idx);
    proof {
        let ops = if unwind > 0 { seq![OpCode::POPS(unwind as u8), OpCode::FORWARD(0)] } else { seq![OpCode::FORWARD(0)] };
        assert(f.spec_code() =~= f0.spec_code() + ops);
        assert(f.spec_locations() =~= f0.spec_locations() + Seq::new(ops.len(), |k: int| old(this)@.current_location));
        assert(this@.loops =~= old(this)@.loops.update(n - 1, (base, old(this)@.loops.last().1.push(idx))));
    }
    Ok(())
}

/// The slot count of the function being compiled agrees with the locals held
/// for it: the frame offset plus the count is the number of locals.
pub open spec fn frame_aligned(v: CompilerView) -> bool {
    if v.functional_depth > 0 {
        v.offsets[v.functional_depth - 1] + v.local_count == v.locals.len()
    } else {
        v.local_count == v.locals.len()
    }
}

/// A local just declared in the function being compiled resolves by its name
/// to the slot its declaration gave, as a local of that function, and leaves
/// the frame aligned.
pub proof fn law_declared_local_resolves(v: CompilerView, name: Seq<char>, w: CompilerView)
    requires
        compiler_wf(v),
        frame_aligned(v),
        v.local_count != 255,
        w == (CompilerView {
            locals: v.locals.push(LocalView {
                ident: Some(name),
                depth: v.scope_depth,
                functional_depth: v.functional_depth,
                is_captured: false,
            }),
            local_count: (v.local_count + 1) as usize,
            ..v
        }),
    ensures
        local_resolvable(w, name),
        resolved(w, name, Some((v.local_count as u8, false)), w),
        frame_aligned(w),
{
    let n = w.locals.len() as int;
    assert(w.locals[n - 1].ident == Some(name));
    assert(last_named(w.locals, name, n) == Some(n - 1));
}

/// Entering a function keeps the frame aligned when the offsets of the
/// enclosing frames other than the innermost add up to 0, as they do when
/// entering the first or the second level of functions.
pub proof fn law_function_frame_aligned(v: CompilerView, w: CompilerView)
    requires
        compiler_wf(v),
        frame_aligned(v),
        v.functional_depth < usize::MAX,
        v.functional_depth == 0 || seq_sum(v.offsets) == v.offsets.last(),
        v.local_count + seq_sum(v.offsets) >= 1,
        v.local_count + seq_sum(v.offsets) <= usize::MAX,
        w == (CompilerView {
            functional_depth: (v.functional_depth + 1) as usize,
            states: v.states.push(fresh_state()),
            offsets: v.offsets.push((v.local_count + seq_sum(v.offsets) - 1) as usize),
            local_offset: v.local_offset.push(v.local_count),
            local_count: 1,
            ..v
        }),
    ensures
        frame_aligned(w),
{
    if v.functional_depth == 0 {
        assert(v.offsets.len() == 0);
        assert(seq_sum(v.offsets) == 0);
    }
}

/// The sum of a sequence of run lengths.
pub open spec fn nat_sum(s: Seq<nat>) -> nat
    decreases s.len(),
{
    if s.len() == 0 {
        0
    } else {
        nat_sum(s.drop_last()) + s.last()
    }
}

/// Counting runs while closing a block loses no local: the closed runs and
/// the open one add up to the locals seen.
pub proof fn lemma_run_state_sum(caps: Seq<bool>)
    ensures
        nat_sum(run_state(caps).0) + run_state(caps).2 == caps.len(),
    decreases caps.len(),
{
    if caps.len() > 0 {
        lemma_run_state_sum(caps.drop_last());
        let prev = run_state(caps.drop_last());
        assert(prev.0.push(prev.2).drop_last() =~= prev.0);
    }
}

/// The instructions closing a block pop or close exactly as many values as
/// the block drops locals.
pub proof fn law_scope_runs_cover(caps: Seq<bool>)
    ensures
        nat_sum(scope_runs(caps)) == caps.len(),
{
    lemma_run_state_sum(caps);
    let st = run_state(caps);
    if st.2 > 0 {
        assert(st.0.push(st.2).drop_last() =~= st.0);
    }
}

/// Closing a block drops exactly the locals declared in it since it opened,
/// and leaves those declared before.
pub proof fn law_block_locals_dropped(before: Seq<LocalView>, added: Seq<LocalView>, d: usize)
    requires
        forall|i: int| 0 <= i < before.len() ==> #[trigger] before[i].depth <= d,
        forall|i: int| 0 <= i < added.len() ==> #[trigger] added[i].depth > d,
    ensures
        dropped(before + added, d).len() == added.len(),
        (before + added).take((before + added).len() - added.len()) == before,
    decreases added.len(),
{
    let all = before + added;
    if added.len() == 0 {
        assert(all =~= before);
        assert(all.take(all.len() as int) =~= before);
        if before.len() > 0 {
            assert(before.last().depth <= d);
        }
    } else {
        let rest = added.drop_last();
        law_block_locals_dropped(before, rest, d);
        assert(all.drop_last() =~= before + rest);
        assert(all.last() == added.last());
        assert(all.take(all.len() - added.len()) =~= before);
    }
}

/// Where a name is found from `k` on: the first index there holding it.
pub proof fn lemma_label_index_first(labels: Seq<(Seq<char>, usize)>, name: Seq<char>, k: int)
    requires
        0 <= k,
    ensures
        match label_index(labels, name, k) {
            Some(j) => k <= j < labels.len() && labels[j].0 == name
                && forall|i: int| k <= i < j ==> #[trigger] labels[i].0 != name,
            None => forall|i: int| k <= i < labels.len() ==> #[trigger] labels[i].0 != name,
        },
    decreases labels.len() - k,
{
    if k < labels.len() && labels[k].0 != name {
        lemma_label_index_first(labels, name, k + 1);
    }
}

/// Two label lists that hold `name` at the same places from `k` on find it
/// at the same place.
pub proof fn lemma_label_index_same(a: Seq<(Seq<char>, usize)>, b: Seq<(Seq<char>, usize)>, name: Seq<char>, k: int)
    requires
        0 <= k,
        a.len() <= b.len(),
        forall|i: int| k <= i < a.len() ==> (#[trigger] a[i].0 == name) == (b[i].0 == name),
        forall|i: int| a.len() <= i < b.len() && k <= i ==> #[trigger] b[i].0 != name,
    ensures
        label_index(a, name, k) == label_index(b, name, k),
    decreases b.len() - k,
{
    if k < b.len() {
        if k < a.len() && a[k].0 == name {
        } else {
            lemma_label_index_same(a, b, name, k + 1);
        }
    }
}

/// A label set at `at` is found at `at`; the other labels stay where they were.
pub proof fn law_label_read_back(labels: Seq<(Seq<char>, usize)>, name: Seq<char>, at: usize, other: Seq<char>)
    requires
        other != name,
    ensures
        label_lookup(labels_set(labels, name, at), name) == Some(at),
        label_lookup(labels_set(labels, name, at), other) == label_lookup(labels, other),
{
    let after = labels_set(labels, name, at);
    lemma_label_index_first(labels, name, 0);
    match label_index(labels, name, 0) {
        Some(j) => {
            assert(after == labels.update(j, (name, at)));
            assert forall|i: int| 0 <= i < j implies #[trigger] after[i].0 != name by {
                assert(after[i] == labels[i]);
            }
            lemma_label_index_first(after, name, 0);
            match label_index(after, name, 0) {
                Some(j2) => {
                    if j2 < j {
                        assert(after[j2].0 != name);
                    }
                    if j2 > j {
                        assert(after[j].0 == name);
                    }
                },
                None => {
                    assert(after[j].0 == name);
                },
            }
            assert(label_index(after, name, 0) == Some(j));
            assert forall|i: int| 0 <= i < labels.len() implies (#[trigger] labels[i].0 == other) == (after[i].0 == other) by {
                if i == j {
                    assert(labels[j].0 == name);
                }
            }
            lemma_label_index_same(labels, after, other, 0);
            lemma_label_index_first(labels, other, 0);
        },
        None => {
            assert(after == labels.push((name, at)));
            let n = labels.len() as int;
            lemma_label_index_first(after, name, 0);
            match label_index(after, name, 0) {
                Some(j2) => {
                    if j2 < n {
                        assert(after[j2] == labels[j2]);
                    }
                },
                None => {
                    assert(after[n].0 == name);
                },
            }
            assert(label_index(after, name, 0) == Some(n));
            assert forall|i: int| 0 <= i < labels.len() implies (#[trigger] labels[i].0 == other) == (after[i].0 == other) by {
                assert(after[i] == labels[i]);
            }
            assert forall|i: int| labels.len() <= i < after.len() && 0 <= i implies #[trigger] after[i].0 != other by {
                assert(i == n);
            }
            lemma_label_index_same(labels, after, other, 0);
            lemma_label_index_first(labels, other, 0);
        },
    }
}

/// A capture already registered is found again, at its first place.
pub proof fn lemma_first_capture_push(ups: Seq<UpLocal>, u: UpLocal, id: u8, k: int)
    requires
        0 <= k <= ups.len(),
        first_capture(ups, id, k).is_none(),
        u.universal_ident == id,
    ensures
        first_capture(ups.push(u), id, k) == Some(ups.len() as int),
    decreases ups.len() - k,
{
    if k < ups.len() {
        lemma_first_capture_push(ups, u, id, k + 1);
    }
}

/// A capture found from `k` on is still found there after more are appended.
pub proof fn lemma_first_capture_keep(ups: Seq<UpLocal>, u: UpLocal, id: u8, k: int)
    requires
        0 <= k,
        first_capture(ups, id, k).is_some(),
    ensures
        first_capture(ups.push(u), id, k) == first_capture(ups, id, k),
    decreases ups.len() - k,
{
    if k < ups.len() && ups[k].universal_ident != id {
        lemma_first_capture_keep(ups, u, id, k + 1);
    }
}

/// Capturing a local a second time registers nothing and gives the position
/// the first capture gave.
pub proof fn law_capture_idempotent(states: Seq<StateView>, ident: u8, scoped: u8, level: int, target: int)
    requires
        1 <= level <= states.len(),
        0 <= target < level,
    ensures
        ({
            let first = capture_chain(states, ident, scoped, level, target);
            capture_chain(first.0, ident, scoped, level, target) == first
        }),
{
    let first = capture_chain(states, ident, scoped, level, target);
    let ups = states[level - 1].up_values;
    match first_capture(ups, ident, 0) {
        Some(k) => {},
        None => {
            if level <= target + 1 {
                let u = UpLocal { ident: scoped, neighboring: true, universal_ident: ident };
                lemma_first_capture_push(ups, u, ident, 0);
                assert(first.0[level - 1].up_values == ups.push(u));
            } else {
                let mid = capture_chain(states, ident, scoped, level - 1, target);
                lemma_chain_frame(states, ident, scoped, level - 1, target);
                let u = UpLocal { ident: mid.1, neighboring: false, universal_ident: ident };
                assert(mid.0[level - 1] == states[level - 1]);
                lemma_first_capture_push(ups, u, ident, 0);
                assert(first.0[level - 1].up_values == ups.push(u));
            }
        },
    }
}

/// How tightly the infix operator token `t` binds.
pub open spec fn binding(t: TokenView) -> nat {
    precedence_rank(token_rule(t).precedence)
}

/// The binary operators bind from loosest to tightest: `or`; `and`; `==` and
/// `~=`; `<`, `<=`, `>` and `>=`; `..`; `+` and `-`; `*`, `/`, `//` and `%`;
/// then the operand of a unary operator; then `^`. All bind more tightly than
/// assignment, so `a or b and c` groups as `a or (b and c)` and `1 + 2 * 3`
/// as `1 + (2 * 3)`. `and` and `or` compile to their jumping forms.
pub proof fn law_operator_precedence()
    ensures
        1 < binding(TokenView::Op(Operator::Or)),
        binding(TokenView::Op(Operator::Or)) < binding(TokenView::Op(Operator::And)),
        binding(TokenView::Op(Operator::And)) < binding(TokenView::Op(Operator::Equal)),
        binding(TokenView::Op(Operator::Equal)) == binding(TokenView::Op(Operator::NotEqual)),
        binding(TokenView::Op(Operator::Equal)) < binding(TokenView::Op(Operator::Less)),
        binding(TokenView::Op(Operator::Less)) == binding(TokenView::Op(Operator::LessEqual)),
        binding(TokenView::Op(Operator::Less)) == binding(TokenView::Op(Operator::Greater)),
        binding(TokenView::Op(Operator::Less)) == binding(TokenView::Op(Operator::GreaterEqual)),
        binding(TokenView::Op(Operator::Less)) < binding(TokenView::Op(Operator::Concat)),
        binding(TokenView::Op(Operator::Concat)) < binding(TokenView::Op(Operator::Add)),
        binding(TokenView::Op(Operator::Add)) == binding(TokenView::Op(Operator::Sub)),
        binding(TokenView::Op(Operator::Add)) < binding(TokenView::Op(Operator::Multiply)),
        binding(TokenView::Op(Operator::Multiply)) == binding(TokenView::Op(Operator::Divide)),
        binding(TokenView::Op(Operator::Multiply)) == binding(TokenView::Op(Operator::FloorDivide)),
        binding(TokenView::Op(Operator::Multiply)) == binding(TokenView::Op(Operator::Modulus)),
        binding(TokenView::Op(Operator::Multiply)) < 13,
        13 < binding(TokenView::Op(Operator::Exponent)),
        token_rule(TokenView::Op(Operator::Or)).infix == ParseFn::Or,
        token_rule(TokenView::Op(Operator::And)).infix == ParseFn::And,
{
}

/// What each token starts or continues in an expression: `-`, `not` and `#`
/// start a unary operation; the arithmetic and comparison operators continue
/// one as binary operators, `..` as concatenation; integer and text literals
/// load a constant, `nil`, `true` and `false` a literal, a name a variable, and
/// `(` starts a group; tokens that end an expression (`then`, `do`, `end`, `,`)
/// neither start nor continue one and bind no tighter than assignment.
pub proof fn law_token_roles(i: i64, x: Seq<char>)
    ensures
        token_rule(TokenView::Op(Operator::Sub)).prefix == ParseFn::Unary,
        token_rule(TokenView::Op(Operator::Not)).prefix == ParseFn::Unary,
        token_rule(TokenView::Op(Operator::Length)).prefix == ParseFn::Unary,
        token_rule(TokenView::Op(Operator::Sub)).infix == ParseFn::Binary,
        token_rule(TokenView::Op(Operator::Add)).infix == ParseFn::Binary,
        token_rule(TokenView::Op(Operator::Multiply)).infix == ParseFn::Binary,
        token_rule(TokenView::Op(Operator::Divide)).infix == ParseFn::Binary,
        token_rule(TokenView::Op(Operator::Equal)).infix == ParseFn::Binary,
        token_rule(TokenView::Op(Operator::NotEqual)).infix == ParseFn::Binary,
        token_rule(TokenView::Op(Operator::Less)).infix == ParseFn::Binary,
        token_rule(TokenView::Op(Operator::LessEqual)).infix == ParseFn::Binary,
        token_rule(TokenView::Op(Operator::Greater)).infix == ParseFn::Binary,
        token_rule(TokenView::Op(Operator::GreaterEqual)).infix == ParseFn::Binary,
        token_rule(TokenView::Op(Operator::Concat)).infix == ParseFn::Concat,
        token_rule(TokenView::Integer(i)).prefix == ParseFn::Integer,
        token_rule(TokenView::StringLiteral(x)).prefix == ParseFn::StringConstant,
        token_rule(TokenView::Nil).prefix == ParseFn::Literal,
        token_rule(TokenView::True).prefix == ParseFn::Literal,
        token_rule(TokenView::False).prefix == ParseFn::Literal,
        token_rule(TokenView::Identifier(x)).prefix == ParseFn::Variable,
        token_rule(TokenView::OpenParen).prefix == ParseFn::Grouping,
        token_rule(TokenView::Then).prefix == ParseFn::Void && token_rule(TokenView::Then).infix == ParseFn::Void && binding(TokenView::Then) <= 1,
        token_rule(TokenView::Do).prefix == ParseFn::Void && token_rule(TokenView::Do).infix == ParseFn::Void && binding(TokenView::Do) <= 1,
        token_rule(TokenView::End).prefix == ParseFn::Void && token_rule(TokenView::End).infix == ParseFn::Void && binding(TokenView::End) <= 1,
        token_rule(TokenView::Comma).infix == ParseFn::Void && binding(TokenView::Comma) <= 1,
{
}

} // verus!

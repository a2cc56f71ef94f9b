//! Language-server support: compile errors as diagnostics, and the Lua-style
//! re-indenter behind document formatting.
//!
//! Positions are LSP-style: 0-based line and character. silt reports 1-based
//! line and column, so one is subtracted.

use vstd::prelude::*;
use vstd::string::*;
use crate::error::{error_text, SiltErrorView, first_newline, lemma_first_newline_at, lemma_first_newline_bounds, scan_newline, ErrorTuple, SiltError};
use crate::lexer::{lexer_wf, sp_next, LexState, Lexer, LexOut, Mode};
use crate::text::{chars_of, push_char};
use crate::token::{Token, TokenView};
use crate::error::TokenTriple;

verus! {

/// 0-based line and character.
#[derive(Debug, Clone, Copy, PartialEq, Eq, Structural)]
pub struct Position {
    pub line: u32,
    pub character: u32,
}

/// A half-open span between two positions.
#[derive(Debug, Clone, Copy, PartialEq, Eq, Structural)]
pub struct Range {
    pub start: Position,
    pub end: Position,
}

/// Diagnostic severity, as LSP ranks it.
#[derive(Debug, Clone, Copy, PartialEq, Eq, Structural)]
pub enum Severity {
    Error,
    Warning,
    Information,
    Hint,
}

/// The LSP code of a severity.
pub fn severity_code(s: Severity) -> (c: i64)
    ensures
        c == match s {
            Severity::Error => 1i64,
            Severity::Warning => 2i64,
            Severity::Information => 3i64,
            Severity::Hint => 4i64,
        },
{
    match s {
        Severity::Error => 1,
        Severity::Warning => 2,
        Severity::Information => 3,
        Severity::Hint => 4,
    }
}

/// A compile error as an editor shows it: where, how severe, and what.
#[derive(Debug)]
pub struct Diagnostic {
    pub range: Range,
    pub severity: Severity,
    pub message: String,
}

/// A 1-based line or column as a 0-based LSP coordinate.
pub open spec fn lsp_coord(n: usize) -> u32 {
    (if n == 0 { 0 } else { n - 1 }) as u32
}

/// The diagnostic an error location gives: one character wide, at the error.
pub open spec fn diagnostic_range(location: (usize, usize)) -> Range {
    let l = lsp_coord(location.0);
    let c = lsp_coord(location.1);
    Range {
        start: Position { line: l, character: c },
        end: Position { line: l, character: (c + 1) as u32 },
    }
}

/// `d` is the diagnostic of error `e`: an error-severity span at its location,
/// carrying its message.
pub open spec fn diagnostic_of(d: Diagnostic, e: ErrorTuple) -> bool {
    &&& d.range == diagnostic_range(e.location)
    &&& d.severity == Severity::Error
    &&& d.message@ == error_text(e.code@)
}

fn lsp_coord_exec(n: usize) -> (r: u32)
    ensures
        r == lsp_coord(n),
{
    let m = if n == 0 { 0 } else { n - 1 };
    m as u32
}

/// The errors a run of the lexer over `src` reports from the state `lx` on, in
/// order (with their codes and locations as values).
pub open spec fn lex_errors(lx: LexState, src: Seq<char>) -> Seq<(SiltErrorView, (usize, usize))>
    decreases src.len() + 2 - lx.current,
{
    let (r, l2) = sp_next(lx);
    match r {
        None => Seq::empty(),
        Some(res) => {
            if lx.current < l2.current <= src.len() + 2 {
                match res {
                    Err(e) => seq![e] + lex_errors(l2, src),
                    Ok(_) => lex_errors(l2, src),
                }
            } else {
                Seq::empty()
            }
        },
    }
}

/// Every error the lexer reports for `source`, in order: what the language
/// server shows when the source is not compiled.
pub fn lexical_errors(source: &str) -> (r: Vec<ErrorTuple>)
    requires
        source@.len() + 4 < usize::MAX,
    ensures
        r@.map_values(|e: ErrorTuple| (e.code@, e.location)) == lex_errors(start_lexer(source@), source@),
{
    let mut lx = Lexer::new(source);
    let mut errors: Vec<ErrorTuple> = Vec::new();
    let ghost s0 = lx@;
    assert(s0 == start_lexer(source@));
    loop
        invariant_except_break
            lex_errors(s0, source@) == errors@.map_values(|e: ErrorTuple| (e.code@, e.location)) + lex_errors(lx@, source@),
        invariant
            lexer_wf(lx@),
            lx@.source == source@,
            lx@.current <= source@.len() + 2,
        ensures
            lex_errors(s0, source@) == errors@.map_values(|e: ErrorTuple| (e.code@, e.location)),
        decreases source@.len() + 2 - lx@.current,
    {
        let ghost before = lx@;
        let ghost pre = errors@.map_values(|e: ErrorTuple| (e.code@, e.location));
        let item = lx.next();
        match item {
            None => {
                assert(lex_errors(before, source@) =~= Seq::<(SiltErrorView, (usize, usize))>::empty());
                assert(pre + Seq::<(SiltErrorView, (usize, usize))>::empty() =~= pre);
                break;
            },
            Some(Err(e)) => {
                let ghost ev = (e.code@, e.location);
                errors.push(e);
                assert(errors@.map_values(|e: ErrorTuple| (e.code@, e.location)) =~= pre.push(ev));
                assert(pre + (seq![ev] + lex_errors(lx@, source@)) =~= pre.push(ev) + lex_errors(lx@, source@));
            },
            Some(Ok(_)) => {},
        }
    }
    errors
}

/// Every compile error as a diagnostic, in order. The errors are those a
/// compilation of the document reported; none gives an empty list, which clears
/// an editor's stale diagnostics.
pub fn diagnostics(errors: &Vec<ErrorTuple>) -> (r: Vec<Diagnostic>)
    requires
        forall|i: int| 0 <= i < errors@.len() ==> lsp_coord(#[trigger] errors@[i].location.1) < u32::MAX,
    ensures
        r@.len() == errors@.len(),
        forall|i: int| 0 <= i < r@.len() ==> diagnostic_of(#[trigger] r@[i], errors@[i]),
{
    let mut r: Vec<Diagnostic> = Vec::new();
    let mut i: usize = 0;
    while i < errors.len()
        invariant
            i <= errors@.len(),
            r@.len() == i,
            forall|k: int| 0 <= k < errors@.len() ==> lsp_coord(#[trigger] errors@[k].location.1) < u32::MAX,
            forall|k: int| 0 <= k < i ==> diagnostic_of(#[trigger] r@[k], errors@[k]),
        decreases errors@.len() - i,
    {
        let ghost old_r = r@;
        let e = &errors[i];
        let l = lsp_coord_exec(e.location.0);
        let c = lsp_coord_exec(e.location.1);
        assert(lsp_coord(errors@[i as int].location.1) < u32::MAX);
        let d = Diagnostic {
            range: Range {
                start: Position { line: l, character: c },
                end: Position { line: l, character: c + 1 },
            },
            severity: Severity::Error,
            message: e.code.to_string(),
        };
        r.push(d);
        assert(diagnostic_of(r@[i as int], errors@[i as int]));
        assert forall|k: int| 0 <= k < i implies r@[k] == old_r[k] by {}
        i += 1;
    }
    r
}

// ---------------------------------------------------------------------------
// Re-indenting
// ---------------------------------------------------------------------------

/// What the tokens of one source line say about block structure.
#[derive(Debug, Clone, Copy, PartialEq, Eq, Structural)]
pub struct LineInfo {
    pub has_token: bool,
    /// The line's first token closes a block (the line itself is dedented).
    pub first_is_closer: bool,
    /// Block openers on the line (`then`, `do`, `function`, `repeat`, `{`).
    pub opens: i64,
    /// Block closers on the line (`end`, `until`, `}`).
    pub closes: i64,
    /// The line holds `elseif`, whose `then` opens no new level.
    pub has_elseif: bool,
}

/// The info of a line without tokens.
pub open spec fn empty_info() -> LineInfo {
    LineInfo { has_token: false, first_is_closer: false, opens: 0, closes: 0, has_elseif: false }
}

/// The pieces of `s` between `'\n'`s (`str::split('\n')`).
pub open spec fn split_nl(s: Seq<char>) -> Seq<Seq<char>>
    decreases s.len(),
{
    let k = first_newline(s);
    if 0 <= k < s.len() {
        seq![s.take(k)] + split_nl(s.skip(k + 1))
    } else {
        seq![s]
    }
}

/// Number of `'\n'`s in `s`.
pub open spec fn count_nl(s: Seq<char>) -> int
    decreases s.len(),
{
    if s.len() == 0 { 0 } else { count_nl(s.drop_last()) + if s.last() == '\n' { 1int } else { 0int } }
}

/// A token that dedents the line it starts.
pub open spec fn is_closer(t: TokenView) -> bool {
    t is End || t is Until || t is Else || t is ElseIf || t is CloseBrace
}

/// A token that opens a block.
pub open spec fn is_opener(t: TokenView) -> bool {
    t is Then || t is Do || t is Function || t is Repeat || t is OpenBrace
}

/// A line's info after one more of its tokens.
pub open spec fn add_token(li: LineInfo, t: TokenView) -> LineInfo {
    let li1 = if !li.has_token {
        LineInfo { has_token: true, first_is_closer: is_closer(t), ..li }
    } else {
        li
    };
    if is_opener(t) {
        LineInfo { opens: (li1.opens + 1) as i64, ..li1 }
    } else if t is End || t is Until || t is CloseBrace {
        LineInfo { closes: (li1.closes + 1) as i64, ..li1 }
    } else if t is ElseIf {
        LineInfo { has_elseif: true, ..li1 }
    } else {
        li1
    }
}

/// The line info and verbatim marks after one more token. A token whose text
/// spans newlines (a long string) makes the lines it continues onto verbatim;
/// the lexer reports such a token on its last line, so its first line is that
/// line less the newlines it holds.
pub open spec fn apply_token(
    src: Seq<char>,
    info: Seq<LineInfo>,
    verb: Seq<bool>,
    t: TokenView,
    tri: TokenTriple,
) -> (Seq<LineInfo>, Seq<bool>) {
    if t is EOF {
        (info, verb)
    } else {
        let end = tri.index + tri.length;
        let in_range = end <= src.len();
        let nl = if in_range { count_nl(src.subrange(tri.index as int, end)) } else { 0 };
        let last = if tri.line >= 1 { tri.line - 1 } else { 0 };
        let idx = if last >= nl { last - nl } else { 0 };
        if idx >= info.len() {
            (info, verb)
        } else {
            let verb2 = if in_range {
                Seq::new(verb.len(), |j: int| verb[j] || (idx < j && j <= idx + nl))
            } else {
                verb
            };
            (info.update(idx, add_token(info[idx], t)), verb2)
        }
    }
}

/// Lex the rest of the source, folding each token into the line info and marks;
/// `None` when the lexer reports an error.
pub open spec fn sp_scan(lx: LexState, info: Seq<LineInfo>, verb: Seq<bool>) -> Option<(Seq<LineInfo>, Seq<bool>)>
    decreases lx.source.len() + 2 - lx.current,
{
    let (r, l2) = sp_next(lx);
    match r {
        None => Some((info, verb)),
        Some(Err(_)) => None,
        Some(Ok((t, tri))) => {
            if lx.current < l2.current <= lx.source.len() + 2 && l2.source.len() == lx.source.len() {
                let (i2, v2) = apply_token(lx.source, info, verb, t, tri);
                sp_scan(l2, i2, v2)
            } else {
                None
            }
        },
    }
}

/// Is `c` white space (`char::is_whitespace`, the Unicode `White_Space` set)?
pub open spec fn is_white(c: char) -> bool {
    ('\t' <= c && c <= '\r') || c == ' ' || c == '\u{85}' || c == '\u{a0}' || c == '\u{1680}'
        || ('\u{2000}' <= c && c <= '\u{200a}') || c == '\u{2028}' || c == '\u{2029}'
        || c == '\u{202f}' || c == '\u{205f}' || c == '\u{3000}'
}

pub(crate) fn white(c: char) -> (r: bool)
    ensures
        r == is_white(c),
{
    ('\t' <= c && c <= '\r') || c == ' ' || c == '\u{85}' || c == '\u{a0}' || c == '\u{1680}'
        || ('\u{2000}' <= c && c <= '\u{200a}') || c == '\u{2028}' || c == '\u{2029}'
        || c == '\u{202f}' || c == '\u{205f}' || c == '\u{3000}'
}

/// Number of trailing `'\r'`s of `s`.
pub open spec fn trailing_cr(s: Seq<char>) -> int
    decreases s.len(),
{
    if s.len() > 0 && s.last() == '\r' { 1 + trailing_cr(s.drop_last()) } else { 0 }
}

/// Number of leading white-space characters of `s`.
pub open spec fn leading_white(s: Seq<char>) -> int
    decreases s.len(),
{
    if s.len() > 0 && is_white(s[0]) { 1 + leading_white(s.drop_first()) } else { 0 }
}

/// A line without trailing `'\r'`s and without leading white space.
pub open spec fn trimmed(s: Seq<char>) -> Seq<char> {
    let t = s.take(s.len() - trailing_cr(s));
    t.skip(leading_white(t))
}

/// `n` copies of `unit`.
pub open spec fn repeat_seq(unit: Seq<char>, n: int) -> Seq<char>
    decreases n,
{
    if n <= 0 { Seq::empty() } else { repeat_seq(unit, n - 1) + unit }
}

/// The re-indented text of lines `i..` at nesting `depth`.
pub open spec fn render(
    lines: Seq<Seq<char>>,
    info: Seq<LineInfo>,
    verb: Seq<bool>,
    unit: Seq<char>,
    i: int,
    depth: int,
) -> Seq<char>
    decreases lines.len() - i,
{
    if i >= lines.len() || i < 0 {
        Seq::empty()
    } else {
        let sep = if i > 0 { seq!['\n'] } else { Seq::empty() };
        if verb[i] {
            sep + lines[i] + render(lines, info, verb, unit, i + 1, depth)
        } else {
            let t = trimmed(lines[i]);
            if t.len() == 0 {
                sep + render(lines, info, verb, unit, i + 1, depth)
            } else {
                let li = info[i];
                let dedent = if li.first_is_closer { 1int } else { 0int };
                let this_indent = if depth - dedent > 0 { depth - dedent } else { 0 };
                let net = li.opens - li.closes - if li.has_elseif { 1int } else { 0int };
                let next = if depth + net > 0 { depth + net } else { 0 };
                sep + repeat_seq(unit, this_indent) + t + render(lines, info, verb, unit, i + 1, next)
            }
        }
    }
}

/// The lexer at the start of `src`.
pub open spec fn start_lexer(src: Seq<char>) -> LexState {
    LexState {
        source: src,
        start: 0,
        end: src.len() as usize,
        current: 0,
        line: 1,
        column: 0,
        column_start: 0,
        mode: Mode::Normal,
    }
}

/// The re-indented source: unchanged when it does not lex cleanly.
pub open spec fn spec_format(src: Seq<char>, unit: Seq<char>) -> Seq<char> {
    let lines = split_nl(src);
    match sp_scan(start_lexer(src), Seq::new(lines.len(), |i: int| empty_info()), Seq::new(lines.len(), |i: int| false)) {
        None => src,
        Some((info, verb)) => render(lines, info, verb, unit, 0, 0),
    }
}

/// Sum of the block openers and closers of all lines.
pub open spec fn counts_total(info: Seq<LineInfo>) -> int
    decreases info.len(),
{
    if info.len() == 0 { 0 } else { counts_total(info.drop_last()) + info.last().opens + info.last().closes }
}

/// Sum of the block openers of lines `0..k`.
pub open spec fn opens_sum(info: Seq<LineInfo>, k: int) -> int
    decreases k,
{
    if k <= 0 { 0 } else { opens_sum(info, k - 1) + info[k - 1].opens }
}

/// No line has negative block counts.
pub open spec fn counts_nonneg(info: Seq<LineInfo>) -> bool {
    forall|i: int| 0 <= i < info.len() ==> (#[trigger] info[i]).opens >= 0 && info[i].closes >= 0
}

proof fn lemma_counts_update(info: Seq<LineInfo>, idx: int, li: LineInfo)
    requires
        0 <= idx < info.len(),
    ensures
        counts_total(info.update(idx, li)) == counts_total(info) - info[idx].opens - info[idx].closes + li.opens + li.closes,
    decreases info.len(),
{
    if idx < info.len() - 1 {
        assert(info.update(idx, li).drop_last() =~= info.drop_last().update(idx, li));
        lemma_counts_update(info.drop_last(), idx, li);
    } else {
        assert(info.update(idx, li).drop_last() =~= info.drop_last());
    }
}

proof fn lemma_opens_le_total(info: Seq<LineInfo>, k: int)
    requires
        0 <= k <= info.len(),
        counts_nonneg(info),
    ensures
        0 <= opens_sum(info, k) <= counts_total(info),
    decreases info.len(),
{
    if info.len() > 0 {
        lemma_counts_drop_last_nonneg(info);
        if k == info.len() {
            lemma_opens_le_total(info.drop_last(), k - 1);
            lemma_opens_prefix(info, info.drop_last(), k - 1);
        } else {
            lemma_opens_le_total(info.drop_last(), k);
            lemma_opens_prefix(info, info.drop_last(), k);
        }
    }
}

proof fn lemma_opens_prefix(a: Seq<LineInfo>, b: Seq<LineInfo>, k: int)
    requires
        0 <= k <= b.len(),
        b.len() <= a.len(),
        forall|i: int| 0 <= i < b.len() ==> a[i] == b[i],
    ensures
        opens_sum(a, k) == opens_sum(b, k),
    decreases k,
{
    if k > 0 {
        lemma_opens_prefix(a, b, k - 1);
    }
}

proof fn lemma_counts_drop_last_nonneg(info: Seq<LineInfo>)
    requires
        counts_nonneg(info),
        info.len() > 0,
    ensures
        counts_nonneg(info.drop_last()),
{
    assert forall|i: int| 0 <= i < info.drop_last().len() implies (#[trigger] info.drop_last()[i]).opens >= 0 && info.drop_last()[i].closes >= 0 by {
        assert(info.drop_last()[i] == info[i]);
    }
}

/// A line's info after one more of its tokens.
fn add_token_exec(li: LineInfo, t: &Token) -> (r: LineInfo)
    requires
        li.opens < i64::MAX,
        li.closes < i64::MAX,
    ensures
        r == add_token(li, t@),
{
    let closer = match t {
        Token::End | Token::Until | Token::Else | Token::ElseIf | Token::CloseBrace => true,
        _ => false,
    };
    let li1 = if !li.has_token { LineInfo { has_token: true, first_is_closer: closer, ..li } } else { li };
    match t {
        Token::Then | Token::Do | Token::Function | Token::Repeat | Token::OpenBrace => {
            LineInfo { opens: li1.opens + 1, ..li1 }
        },
        Token::End | Token::Until | Token::CloseBrace => LineInfo { closes: li1.closes + 1, ..li1 },
        Token::ElseIf => LineInfo { has_elseif: true, ..li1 },
        _ => li1,
    }
}

/// Character bounds of the pieces of `cs` between `'\n'`s.
fn split_bounds(cs: &Vec<char>) -> (r: Vec<(usize, usize)>)
    ensures
        r@.len() == split_nl(cs@).len(),
        forall|i: int| 0 <= i < r@.len() ==> {
            &&& (#[trigger] r@[i]).0 <= r@[i].1 <= cs@.len()
            &&& cs@.subrange(r@[i].0 as int, r@[i].1 as int) == split_nl(cs@)[i]
        },
{
    let mut out: Vec<(usize, usize)> = Vec::new();
    let mut pos: usize = 0;
    assert(cs@.skip(0) =~= cs@);
    loop
        invariant
            pos <= cs@.len(),
            split_nl(cs@).len() == out@.len() + split_nl(cs@.skip(pos as int)).len(),
            forall|i: int| 0 <= i < out@.len() ==> {
                &&& (#[trigger] out@[i]).0 <= out@[i].1 <= cs@.len()
                &&& cs@.subrange(out@[i].0 as int, out@[i].1 as int) == split_nl(cs@)[i]
            },
            forall|i: int| 0 <= i < split_nl(cs@.skip(pos as int)).len()
                ==> split_nl(cs@)[out@.len() + i] == #[trigger] split_nl(cs@.skip(pos as int))[i],
        decreases cs@.len() - pos,
    {
        let ghost rest = cs@.skip(pos as int);
        let k = scan_newline(cs, pos);
        proof {
            assert forall|jj: int| 0 <= jj < k - pos implies rest[jj] != '\n' by {
                assert(rest[jj] == cs@[pos + jj]);
            }
            if k < cs@.len() {
                assert(rest[k - pos] == cs@[k as int]);
            }
            lemma_first_newline_at(rest, k - pos);
            assert(rest.take(k - pos) =~= cs@.subrange(pos as int, k as int));
        }
        if k < cs.len() {
            proof {
                assert(rest.skip(k - pos + 1) =~= cs@.skip(k + 1));
                assert(split_nl(rest) == seq![rest.take(k - pos)] + split_nl(cs@.skip(k + 1)));
                assert(split_nl(rest)[0] == rest.take(k - pos));
            }
            let ghost old_pos = pos;
            out.push((pos, k));
            pos = k + 1;
            proof {
                assert forall|i: int| 0 <= i < split_nl(cs@.skip(pos as int)).len()
                    implies split_nl(cs@)[out@.len() + i] == #[trigger] split_nl(cs@.skip(pos as int))[i] by {
                    assert(split_nl(rest)[i + 1] == split_nl(cs@.skip(pos as int))[i]);
                }
                assert(cs@.subrange(old_pos as int, k as int) == split_nl(cs@)[out@.len() - 1]);
            }
        } else {
            proof {
                assert(split_nl(rest) == seq![rest]);
                assert(rest =~= cs@.subrange(pos as int, cs@.len() as int));
            }
            let ghost old_pos = pos;
            out.push((pos, cs.len()));
            proof {
                assert(split_nl(rest)[0] == rest);
                assert(cs@.subrange(old_pos as int, cs@.len() as int) == split_nl(cs@)[out@.len() - 1]);
            }
            return out;
        }
    }
}

/// Number of `'\n'`s in `cs[from..to]`.
pub(crate) fn count_newlines(cs: &Vec<char>, from: usize, to: usize) -> (n: usize)
    requires
        from <= to <= cs@.len(),
    ensures
        n == count_nl(cs@.subrange(from as int, to as int)),
        n <= to - from,
{
    let mut n: usize = 0;
    let mut i = from;
    while i < to
        invariant
            from <= i <= to <= cs@.len(),
            n == count_nl(cs@.subrange(from as int, i as int)),
            n <= i - from,
        decreases to - i,
    {
        proof {
            assert(cs@.subrange(from as int, i + 1).drop_last() =~= cs@.subrange(from as int, i as int));
        }
        if cs[i] == '\n' {
            n += 1;
        }
        i += 1;
    }
    n
}

/// Append the characters `cs[from..to]`.
pub(crate) fn push_range(out: &mut String, cs: &Vec<char>, from: usize, to: usize)
    requires
        from <= to <= cs@.len(),
    ensures
        final(out)@ == old(out)@ + cs@.subrange(from as int, to as int),
{
    let ghost start = out@;
    let mut i = from;
    while i < to
        invariant
            from <= i <= to <= cs@.len(),
            out@ == start + cs@.subrange(from as int, i as int),
        decreases to - i,
    {
        push_char(out, cs[i]);
        i += 1;
        assert(out@ =~= start + cs@.subrange(from as int, i as int));
    }
}

/// Bounds of [`trimmed`] within `cs[a..b]`.
fn trim_bounds(cs: &Vec<char>, a: usize, b: usize) -> (r: (usize, usize))
    requires
        a <= b <= cs@.len(),
    ensures
        a <= r.0 <= r.1 <= b,
        cs@.subrange(r.0 as int, r.1 as int) == trimmed(cs@.subrange(a as int, b as int)),
{
    let ghost line = cs@.subrange(a as int, b as int);
    let mut e = b;
    while e > a && cs[e - 1] == '\r'
        invariant
            a <= e <= b <= cs@.len(),
            line == cs@.subrange(a as int, b as int),
            trailing_cr(line) == (b - e) + trailing_cr(cs@.subrange(a as int, e as int)),
        decreases e,
    {
        proof {
            assert(cs@.subrange(a as int, e as int).drop_last() =~= cs@.subrange(a as int, e - 1));
        }
        e -= 1;
    }
    proof {
        assert(line.take(line.len() - trailing_cr(line)) =~= cs@.subrange(a as int, e as int));
    }
    let ghost t = cs@.subrange(a as int, e as int);
    let mut f = a;
    while f < e && white(cs[f])
        invariant
            a <= f <= e <= b <= cs@.len(),
            t == cs@.subrange(a as int, e as int),
            leading_white(t) == (f - a) + leading_white(cs@.subrange(f as int, e as int)),
        decreases e - f,
    {
        proof {
            assert(cs@.subrange(f as int, e as int).drop_first() =~= cs@.subrange(f + 1, e as int));
        }
        f += 1;
    }
    proof {
        assert(t.skip(leading_white(t)) =~= cs@.subrange(f as int, e as int));
    }
    (f, e)
}

/// Folds one token into the line info and verbatim marks ([`apply_token`]).
fn apply_token_exec(info: &mut Vec<LineInfo>, verbatim: &mut Vec<bool>, cs: &Vec<char>, tok: &Token, tri: TokenTriple)
    requires
        old(info)@.len() == old(verbatim)@.len(),
        cs@.len() + 8 < usize::MAX,
        cs@.len() + 8 < i64::MAX,
        counts_nonneg(old(info)@),
        counts_total(old(info)@) <= cs@.len() + 2,
    ensures
        (final(info)@, final(verbatim)@) == apply_token(cs@, old(info)@, old(verbatim)@, tok@, tri),
        final(info)@.len() == old(info)@.len(),
        final(verbatim)@.len() == old(verbatim)@.len(),
        counts_nonneg(final(info)@),
        counts_total(final(info)@) <= counts_total(old(info)@) + 1,
{
    let n = info.len();
    let is_eof = match tok { Token::EOF => true, _ => false };
    let len = cs.len();
    let in_range = tri.index <= len && tri.length <= len - tri.index;
    let nl = if in_range { count_newlines(cs, tri.index, tri.index + tri.length) } else { 0 };
    let last: usize = if tri.line >= 1 { tri.line - 1 } else { 0 };
    let idx: usize = if last >= nl { last - nl } else { 0 };
    if !is_eof && idx < n {
        if in_range {
            let ghost vb = verbatim@;
            let mut k: usize = 1;
            while k <= nl
                invariant
                    1 <= k <= nl + 1,
                    nl <= len,
                    len == cs@.len(),
                    cs@.len() + 8 < usize::MAX,
                    idx < n,
                    verbatim@.len() == n,
                    forall|jj: int| 0 <= jj < n ==> #[trigger] verbatim@[jj] == (vb[jj] || (idx < jj && jj < idx + k)),
                decreases nl + 1 - k,
            {
                if k < n - idx {
                    verbatim.set(idx + k, true);
                }
                k += 1;
            }
            proof {
                assert(verbatim@ =~= Seq::new(vb.len(), |jj: int| vb[jj] || (idx < jj && jj <= idx + nl)));
            }
        }
        let old_li = info[idx];
        proof {
            lemma_opens_le_total(info@, n as int);
            assert(counts_total(info@) >= old_li.opens + old_li.closes) by {
                lemma_single_le_total(info@, idx as int);
            }
        }
        let li = add_token_exec(old_li, tok);
        proof {
            lemma_counts_update(info@, idx as int, li);
        }
        info.set(idx, li);
    }
}

/// Re-indent `source` Lua-style with a tab per nesting level (see [`format_with`]).
pub fn format(source: &str) -> (r: String)
    requires
        source@.len() + 8 < usize::MAX,
        source@.len() + 8 < i64::MAX,
    ensures
        r@ == spec_format(source@, "\t"@),
{
    format_with(source, "\t")
}

/// Re-indent `source` with `indent_unit` per nesting level.
///
/// A token-driven re-indenter, not a pretty-printer: it sets the leading
/// indentation of block constructs (functions, `if`/`elseif`/`else`/`end`,
/// `for`/`while`/`do`, `repeat`/`until`, `{ }`) and keeps each line's own
/// content. Lines inside a multi-line token stay as they are, blank lines lose
/// their indentation, and a source that does not lex cleanly comes back unchanged.
pub fn format_with(source: &str, indent_unit: &str) -> (r: String)
    requires
        source@.len() + 8 < usize::MAX,
        source@.len() + 8 < i64::MAX,
    ensures
        r@ == spec_format(source@, indent_unit@),
{
    let cs = chars_of(source);
    let bounds = split_bounds(&cs);
    let n = bounds.len();
    let ghost lines = split_nl(cs@);
    let mut info: Vec<LineInfo> = Vec::new();
    let mut verbatim: Vec<bool> = Vec::new();
    let mut j: usize = 0;
    while j < n
        invariant
            j <= n,
            info@ == Seq::new(j as nat, |i: int| empty_info()),
            verbatim@ == Seq::new(j as nat, |i: int| false),
        decreases n - j,
    {
        info.push(LineInfo { has_token: false, first_is_closer: false, opens: 0, closes: 0, has_elseif: false });
        verbatim.push(false);
        j += 1;
        proof {
            assert(info@ =~= Seq::new(j as nat, |i: int| empty_info()));
            assert(verbatim@ =~= Seq::new(j as nat, |i: int| false));
        }
    }
    let mut lx = Lexer::new(source);
    let ghost info0 = info@;
    let ghost verb0 = verbatim@;
    proof {
        lemma_counts_empty(n as int);
        assert(info0 =~= Seq::new(lines.len(), |i: int| empty_info()));
        assert(verb0 =~= Seq::new(lines.len(), |i: int| false));
    }
    loop
        invariant_except_break
            sp_scan(start_lexer(cs@), info0, verb0) == sp_scan(lx@, info@, verbatim@),
        invariant
            info0 == Seq::new(lines.len(), |i: int| empty_info()),
            verb0 == Seq::new(lines.len(), |i: int| false),
            lexer_wf(lx@),
            lx@.source == cs@,
            cs@ == source@,
            cs@.len() + 8 < usize::MAX,
            n == lines.len(),
            lines == split_nl(cs@),
            info@.len() == n,
            verbatim@.len() == n,
            cs@.len() + 8 < i64::MAX,
            counts_nonneg(info@),
            counts_total(info@) <= lx@.current,
        ensures
            sp_scan(start_lexer(cs@), info0, verb0) == Some((info@, verbatim@)),
        decreases cs@.len() + 2 - lx@.current,
    {
        let ghost before = lx@;
        let item = lx.next();
        match item {
            None => {
                break;
            },
            Some(Err(_)) => {
                return String::from_str(source);
            },
            Some(Ok((tok, tri))) => {
                apply_token_exec(&mut info, &mut verbatim, &cs, &tok, tri);
            },
        }
    }
    let mut out = String::new();
    let mut depth: i64 = 0;
    let mut i: usize = 0;
    let ghost unit = indent_unit@;
    proof {
        lemma_opens_le_total(info@, 0);
    }
    while i < n
        invariant
            i <= n,
            n == lines.len(),
            lines == split_nl(cs@),
            bounds@.len() == n,
            forall|q: int| 0 <= q < n ==> {
                &&& (#[trigger] bounds@[q]).0 <= bounds@[q].1 <= cs@.len()
                &&& cs@.subrange(bounds@[q].0 as int, bounds@[q].1 as int) == lines[q]
            },
            info@.len() == n,
            verbatim@.len() == n,
            counts_nonneg(info@),
            counts_total(info@) <= cs@.len() + 2,
            cs@.len() + 8 < i64::MAX,
            0 <= depth <= opens_sum(info@, i as int),
            unit == indent_unit@,
            out@ + render(lines, info@, verbatim@, unit, i as int, depth as int)
                == render(lines, info@, verbatim@, unit, 0, 0),
        decreases n - i,
    {
        let ghost before = out@;
        let ghost rest = render(lines, info@, verbatim@, unit, i as int, depth as int);
        if i > 0 {
            push_char(&mut out, '\n');
        }
        let ghost sep: Seq<char> = if i > 0 { seq!['\n'] } else { Seq::empty() };
        proof {
            assert(out@ == before + sep);
        }
        let (a, b) = bounds[i];
        proof {
            lemma_opens_le_total(info@, i as int + 1);
        }
        if verbatim[i] {
            push_range(&mut out, &cs, a, b);
            proof {
                assert(rest == sep + lines[i as int] + render(lines, info@, verbatim@, unit, i + 1, depth as int));
                assert(out@ + render(lines, info@, verbatim@, unit, i + 1, depth as int) =~= before + rest);
            }
        } else {
            let (f, e) = trim_bounds(&cs, a, b);
            if f == e {
                proof {
                    assert(out@ + render(lines, info@, verbatim@, unit, i + 1, depth as int) =~= before + rest);
                }
            } else {
                let li = info[i];
                let dedent: i64 = if li.first_is_closer { 1 } else { 0 };
                let this_indent: i64 = if depth - dedent > 0 { depth - dedent } else { 0 };
                let ghost mid = out@;
                let mut c: i64 = 0;
                while c < this_indent
                    invariant
                        0 <= c <= this_indent,
                        out@ == mid + repeat_seq(unit, c as int),
                        unit == indent_unit@,
                    decreases this_indent - c,
                {
                    out.append(indent_unit);
                    c += 1;
                }
                push_range(&mut out, &cs, f, e);
                let net: i64 = li.opens - li.closes - if li.has_elseif { 1 } else { 0 };
                let next: i64 = if depth + net > 0 { depth + net } else { 0 };
                proof {
                    assert(out@ + render(lines, info@, verbatim@, unit, i + 1, next as int) =~= before + rest);
                }
                depth = next;
            }
        }
        i += 1;
    }
    out
}

proof fn lemma_counts_empty(n: int)
    requires
        n >= 0,
    ensures
        counts_total(Seq::new(n as nat, |i: int| empty_info())) == 0,
        counts_nonneg(Seq::new(n as nat, |i: int| empty_info())),
    decreases n,
{
    if n > 0 {
        assert(Seq::new(n as nat, |i: int| empty_info()).drop_last() =~= Seq::new((n - 1) as nat, |i: int| empty_info()));
        lemma_counts_empty(n - 1);
    }
}

proof fn lemma_single_le_total(info: Seq<LineInfo>, idx: int)
    requires
        0 <= idx < info.len(),
        counts_nonneg(info),
    ensures
        info[idx].opens + info[idx].closes <= counts_total(info),
        counts_total(info) >= 0,
    decreases info.len(),
{
    lemma_counts_drop_last_nonneg(info);
    lemma_total_nonneg(info.drop_last());
    assert(info[info.len() - 1].opens >= 0 && info[info.len() - 1].closes >= 0);
    if idx < info.len() - 1 {
        assert(info.drop_last()[idx] == info[idx]);
        lemma_single_le_total(info.drop_last(), idx);
    }
}

proof fn lemma_total_nonneg(info: Seq<LineInfo>)
    requires
        counts_nonneg(info),
    ensures
        counts_total(info) >= 0,
    decreases info.len(),
{
    if info.len() > 0 {
        lemma_counts_drop_last_nonneg(info);
        lemma_total_nonneg(info.drop_last());
    }
}

/// `s` holds no `'\n'`.
pub open spec fn no_newline(s: Seq<char>) -> bool {
    forall|i: int| 0 <= i < s.len() ==> s[i] != '\n'
}

proof fn lemma_count_nl_zero(s: Seq<char>)
    ensures
        no_newline(s) <==> count_nl(s) == 0,
        count_nl(s) >= 0,
    decreases s.len(),
{
    if s.len() > 0 {
        lemma_count_nl_zero(s.drop_last());
        if no_newline(s) {
            assert forall|i: int| 0 <= i < s.drop_last().len() implies s.drop_last()[i] != '\n' by {
                assert(s.drop_last()[i] == s[i]);
            }
        }
        if count_nl(s) == 0 {
            assert forall|i: int| 0 <= i < s.len() implies s[i] != '\n' by {
                if i < s.len() - 1 {
                    assert(s[i] == s.drop_last()[i]);
                }
            }
        }
    }
}

proof fn lemma_count_nl_newline()
    ensures
        count_nl(seq!['\n']) == 1,
{
    let one = seq!['\n'];
    assert(one.drop_last() =~= Seq::<char>::empty());
    assert(count_nl(Seq::<char>::empty()) == 0);
    assert(one.last() == '\n');
}

proof fn lemma_count_nl_add(a: Seq<char>, b: Seq<char>)
    ensures
        count_nl(a + b) == count_nl(a) + count_nl(b),
    decreases b.len(),
{
    if b.len() > 0 {
        lemma_count_nl_add(a, b.drop_last());
        assert((a + b).drop_last() =~= a + b.drop_last());
        assert((a + b).last() == b.last());
    } else {
        assert(a + b =~= a);
    }
}

proof fn lemma_split_nl_count(s: Seq<char>)
    ensures
        split_nl(s).len() == count_nl(s) + 1,
        forall|i: int| 0 <= i < split_nl(s).len() ==> no_newline(#[trigger] split_nl(s)[i]),
    decreases s.len(),
{
    let k = first_newline(s);
    lemma_first_newline_bounds(s);
    if 0 <= k < s.len() {
        let rest = s.skip(k + 1);
        lemma_split_nl_count(rest);
        assert(s =~= s.take(k) + seq!['\n'] + rest);
        lemma_count_nl_add(s.take(k) + seq!['\n'], rest);
        lemma_count_nl_add(s.take(k), seq!['\n']);
        assert(no_newline(s.take(k)));
        lemma_count_nl_zero(s.take(k));
        lemma_count_nl_newline();
        assert forall|i: int| 0 <= i < split_nl(s).len() implies no_newline(#[trigger] split_nl(s)[i]) by {
            if i > 0 {
                assert(split_nl(s)[i] == split_nl(rest)[i - 1]);
            }
        }
    } else {
        assert(no_newline(s));
        lemma_count_nl_zero(s);
    }
}

proof fn lemma_repeat_no_newline(unit: Seq<char>, n: int)
    requires
        no_newline(unit),
    ensures
        no_newline(repeat_seq(unit, n)),
    decreases n,
{
    if n > 0 {
        lemma_repeat_no_newline(unit, n - 1);
        let r = repeat_seq(unit, n);
        assert forall|i: int| 0 <= i < r.len() implies r[i] != '\n' by {
            let p = repeat_seq(unit, n - 1);
            if i < p.len() {
                assert(r[i] == p[i]);
            } else {
                assert(r[i] == unit[i - p.len()]);
            }
        }
    }
}

proof fn lemma_render_count(
    lines: Seq<Seq<char>>,
    info: Seq<LineInfo>,
    verb: Seq<bool>,
    unit: Seq<char>,
    i: int,
    depth: int,
)
    requires
        0 <= i <= lines.len(),
        no_newline(unit),
        forall|j: int| 0 <= j < lines.len() ==> no_newline(#[trigger] lines[j]),
    ensures
        count_nl(render(lines, info, verb, unit, i, depth)) == if i == lines.len() {
            0
        } else {
            lines.len() - i - 1 + if i > 0 { 1int } else { 0int }
        },
    decreases lines.len() - i,
{
    if i < lines.len() {
        let sep: Seq<char> = if i > 0 { seq!['\n'] } else { Seq::empty() };
        assert(count_nl(sep) == if i > 0 { 1int } else { 0int }) by {
            lemma_count_nl_newline();
            assert(count_nl(Seq::<char>::empty()) == 0);
        }
        let li = info[i];
        let dedent = if li.first_is_closer { 1int } else { 0int };
        let this_indent = if depth - dedent > 0 { depth - dedent } else { 0 };
        let net = li.opens - li.closes - if li.has_elseif { 1int } else { 0int };
        let next = if depth + net > 0 { depth + net } else { 0 };
        let nd = if verb[i] || trimmed(lines[i]).len() == 0 { depth } else { next };
        lemma_render_count(lines, info, verb, unit, i + 1, nd);
        let tail = render(lines, info, verb, unit, i + 1, nd);
        let line = lines[i];
        assert(no_newline(line));
        let content: Seq<char> = if verb[i] {
            line
        } else if trimmed(line).len() == 0 {
            Seq::empty()
        } else {
            repeat_seq(unit, this_indent) + trimmed(line)
        };
        assert(no_newline(content)) by {
            if !verb[i] && trimmed(line).len() != 0 {
                lemma_repeat_no_newline(unit, this_indent);
                let t = line.take(line.len() - trailing_cr(line));
                assert forall|q: int| 0 <= q < trimmed(line).len() implies trimmed(line)[q] != '\n' by {
                    lemma_trim_index(line, q);
                }
                let a = repeat_seq(unit, this_indent);
                assert forall|q: int| 0 <= q < content.len() implies content[q] != '\n' by {
                    if q < a.len() {
                        assert(content[q] == a[q]);
                    } else {
                        assert(content[q] == trimmed(line)[q - a.len()]);
                    }
                }
            }
        }
        lemma_count_nl_zero(content);
        assert(render(lines, info, verb, unit, i, depth) == sep + content + tail);
        lemma_count_nl_add(sep + content, tail);
        lemma_count_nl_add(sep, content);
    }
}

proof fn lemma_trim_index(line: Seq<char>, q: int)
    requires
        0 <= q < trimmed(line).len(),
    ensures
        exists|p: int| 0 <= p < line.len() && trimmed(line)[q] == line[p],
{
    lemma_trailing_cr_bounds(line);
    let t = line.take(line.len() - trailing_cr(line));
    lemma_leading_white_bounds(t);
    let p = leading_white(t) + q;
    assert(trimmed(line)[q] == t[p]);
    assert(t[p] == line[p]);
}

proof fn lemma_trailing_cr_bounds(s: Seq<char>)
    ensures
        0 <= trailing_cr(s) <= s.len(),
    decreases s.len(),
{
    if s.len() > 0 && s.last() == '\r' {
        lemma_trailing_cr_bounds(s.drop_last());
    }
}

proof fn lemma_leading_white_bounds(s: Seq<char>)
    ensures
        0 <= leading_white(s) <= s.len(),
    decreases s.len(),
{
    if s.len() > 0 && is_white(s[0]) {
        lemma_leading_white_bounds(s.drop_first());
    }
}

/// Formatting keeps the line structure: when the indent unit holds no line
/// break, the formatted text has as many lines as the source.
pub proof fn law_format_keeps_line_count(src: Seq<char>, unit: Seq<char>)
    requires
        no_newline(unit),
    ensures
        count_nl(spec_format(src, unit)) == count_nl(src),
{
    let lines = split_nl(src);
    lemma_split_nl_count(src);
    match sp_scan(start_lexer(src), Seq::new(lines.len(), |i: int| empty_info()), Seq::new(lines.len(), |i: int| false)) {
        None => {},
        Some((info, verb)) => {
            lemma_render_count(lines, info, verb, unit, 0, 0);
        },
    }
}

/// Whether the lexer reads all of `src` without an error.
pub open spec fn lexes_cleanly(src: Seq<char>) -> bool {
    let lines = split_nl(src);
    sp_scan(start_lexer(src), Seq::new(lines.len(), |i: int| empty_info()), Seq::new(lines.len(), |i: int| false)) is Some
}

/// Formatting a source that does not lex cleanly leaves it exactly as it was.
pub proof fn law_broken_source_unchanged(src: Seq<char>, unit: Seq<char>)
    requires
        !lexes_cleanly(src),
    ensures
        spec_format(src, unit) == src,
{
}

/// Every `end`, `until` and `}` of a line counts as a closer and every `then`,
/// `do`, `function`, `repeat` and `{` as an opener, wherever it stands on the
/// line; only the line's first token decides whether the line is dedented.
pub proof fn law_line_counts(li: LineInfo, t: TokenView)
    requires
        0 <= li.opens < i64::MAX,
        0 <= li.closes < i64::MAX,
    ensures
        (t is End || t is Until || t is CloseBrace) ==> add_token(li, t).closes == li.closes + 1 && add_token(li, t).opens == li.opens,
        (t is Then || t is Do || t is Function || t is Repeat || t is OpenBrace) ==> add_token(li, t).opens == li.opens + 1 && add_token(li, t).closes == li.closes,
        li.has_token ==> add_token(li, t).first_is_closer == li.first_is_closer,
        !li.has_token ==> add_token(li, t).first_is_closer == (t is End || t is Until || t is Else || t is ElseIf || t is CloseBrace),
{
}

/// A line with as many openers as closers and no `elseif` leaves the nesting
/// of the lines after it unchanged; one with `n` more openers than closers
/// nests them `n` deeper; one with `n` more closers takes them `n` out (not
/// below the left margin). The line itself is indented at its depth, one
/// less when its first token closes a block.
/// An `elseif` line (`elseif c then`, one opener and no closer) continues its
/// chain at the same nesting.
pub proof fn law_line_depth(
    lines: Seq<Seq<char>>,
    info: Seq<LineInfo>,
    verb: Seq<bool>,
    unit: Seq<char>,
    i: int,
    depth: int,
)
    requires
        0 <= i < lines.len(),
        !verb[i],
        trimmed(lines[i]).len() > 0,
        depth >= 0,
    ensures
        info[i].has_elseif && info[i].opens == info[i].closes + 1 ==> render(lines, info, verb, unit, i, depth)
            == (if i > 0 { seq!['\n'] } else { Seq::<char>::empty() })
                + repeat_seq(unit, if info[i].first_is_closer && depth > 0 { depth - 1 } else if info[i].first_is_closer { 0 } else { depth })
                + trimmed(lines[i]) + render(lines, info, verb, unit, i + 1, depth),
        !info[i].has_elseif ==> ({
            let sep = if i > 0 { seq!['\n'] } else { Seq::<char>::empty() };
            let own = if info[i].first_is_closer && depth > 0 { depth - 1 } else if info[i].first_is_closer { 0 } else { depth };
            let head = sep + repeat_seq(unit, own) + trimmed(lines[i]);
            &&& info[i].opens == info[i].closes ==> render(lines, info, verb, unit, i, depth) == head + render(lines, info, verb, unit, i + 1, depth)
            &&& info[i].opens > info[i].closes ==> render(lines, info, verb, unit, i, depth)
                == head + render(lines, info, verb, unit, i + 1, depth + (info[i].opens - info[i].closes))
            &&& info[i].opens < info[i].closes && info[i].closes - info[i].opens <= depth ==> render(lines, info, verb, unit, i, depth)
                == head + render(lines, info, verb, unit, i + 1, depth - (info[i].closes - info[i].opens))
            &&& info[i].closes - info[i].opens > depth ==> render(lines, info, verb, unit, i, depth)
                == head + render(lines, info, verb, unit, i + 1, 0)
        }),
{
}

/// A line inside a multi-line token comes out as it was, and a blank line
/// comes out empty; neither changes the nesting of the lines after it.
pub proof fn law_kept_and_blank_lines(
    lines: Seq<Seq<char>>,
    info: Seq<LineInfo>,
    verb: Seq<bool>,
    unit: Seq<char>,
    i: int,
    depth: int,
)
    requires
        0 <= i < lines.len(),
    ensures
        verb[i] ==> render(lines, info, verb, unit, i, depth)
            == (if i > 0 { seq!['\n'] } else { Seq::<char>::empty() }) + lines[i] + render(lines, info, verb, unit, i + 1, depth),
        !verb[i] && trimmed(lines[i]).len() == 0 ==> render(lines, info, verb, unit, i, depth)
            == (if i > 0 { seq!['\n'] } else { Seq::<char>::empty() }) + render(lines, info, verb, unit, i + 1, depth),
{
}

} // verus!

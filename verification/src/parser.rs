//! The compiler for statements and expressions: a precedence-climbing parser,
//! driven by the grammar's rule table ([`token_rule`]), and the statements
//! around it (assignment of globals, `sprint`, `return`, `if`, `while`,
//! `repeat`, `break` and `do` blocks), turning a token stream into a chunk.

use vstd::prelude::*;
use crate::chunk::Chunk;
use crate::code::OpCode;
use crate::compiler::{precedence_rank, token_rule, with_jump, ParseFn};
use crate::error::{ErrorTuple, SiltError, SiltErrorView, TokenCell};
use crate::lexer::{lexer_wf, sp_next, Lexer, LexState, TokenResult};
use crate::lsp::start_lexer;
use crate::lua::{machine_bounded, machine_defined, machine_stepped, next_steps, Machine, MachineView, RunEnd, VmView};
use crate::token::{Operator, Token, TokenView};
use crate::value::{Value, ValueView};

verus! {

/// One item of the token stream: a token with the place it starts, or the
/// error the lexer gave there.
pub type Item = Result<(Token, TokenCell), ErrorTuple>;

/// The view of an [`Item`].
pub type ItemView = Result<(TokenView, TokenCell), (SiltErrorView, TokenCell)>;

/// The view of one item.
pub open spec fn item_view(x: Item) -> ItemView {
    match x {
        Ok((t, c)) => Ok((t@, c)),
        Err(e) => Err((e.code@, e.location)),
    }
}

/// Where compiling stopped.
#[derive(Debug)]
pub enum Stop {
    /// The source is wrong here.
    Error(ErrorTuple),
    /// The construct starting here is one this compiler leaves out.
    Unsupported(TokenCell),
}

/// The view of a [`Stop`].
pub enum StopView {
    Error(SiltErrorView, TokenCell),
    Unsupported(TokenCell),
}

impl View for Stop {
    type V = StopView;

    open spec fn view(&self) -> StopView {
        match self {
            Stop::Error(e) => StopView::Error(e.code@, e.location),
            Stop::Unsupported(c) => StopView::Unsupported(*c),
        }
    }
}

/// The items the lexer gives for the rest of the source, in order.
pub open spec fn sp_items(lx: LexState, src: Seq<char>) -> Seq<ItemView>
    decreases src.len() + 2 - lx.current,
{
    let (r, l2) = sp_next(lx);
    match r {
        None => Seq::empty(),
        Some(res) => {
            if lx.current < l2.current <= src.len() + 2 {
                let x: ItemView = match res {
                    Ok((t, tri)) => Ok((t, (tri.line, tri.col))),
                    Err(e) => Err(e),
                };
                seq![x] + sp_items(l2, src)
            } else {
                Seq::empty()
            }
        },
    }
}

/// A parse in progress: the index of the next item, the item read last and
/// where it starts, the statement's expression count, whether a name
/// followed by a comma starts a multiple assignment, whether the statement's
/// closing pop is already done, where the statement starts, and the chunk
/// written so far.
pub struct PState {
    pub pos: int,
    pub cur: ItemView,
    pub loc: TokenCell,
    pub count: int,
    pub multi: bool,
    pub over: bool,
    pub start: int,
    pub depth: int,
    pub loops: Seq<Seq<usize>>,
    pub code: Seq<OpCode>,
    pub consts: Seq<ValueView>,
    pub locs: Seq<TokenCell>,
}

/// The item at `i`; past the end, the end of input at (0, 0).
pub open spec fn item_at(ts: Seq<ItemView>, i: int) -> ItemView {
    if 0 <= i < ts.len() { ts[i] } else { Ok((TokenView::EOF, (0usize, 0usize))) }
}

/// Reads the next item: it becomes the current one, its place the current
/// place.
pub open spec fn sp_store(ts: Seq<ItemView>, s: PState) -> PState {
    let it = item_at(ts, s.pos);
    PState {
        pos: s.pos + 1,
        cur: it,
        loc: match it {
            Ok((_, c)) => c,
            Err((_, c)) => c,
        },
        ..s
    }
}

/// Writes `op` at place `l`.
pub open spec fn sp_emit(s: PState, op: OpCode, l: TokenCell) -> PState {
    PState { code: s.code.push(op), locs: s.locs.push(l), ..s }
}

/// Adds `v` to the pool and writes the instruction loading it at the current
/// place; the instruction holds the pool index cut to a byte.
pub open spec fn sp_constant(s: PState, v: ValueView) -> PState {
    PState {
        consts: s.consts.push(v),
        code: s.code.push(OpCode::CONSTANT { constant: s.consts.len() as u8 }),
        locs: s.locs.push(s.loc),
        ..s
    }
}

/// The first index from `k` on of the string constant `id`, or the pool's
/// length.
pub open spec fn ident_from(c: Seq<ValueView>, id: Seq<char>, k: int) -> int
    decreases c.len() - k,
{
    if k < 0 || k >= c.len() {
        c.len() as int
    } else if c[k] == ValueView::String(id) {
        k
    } else {
        ident_from(c, id, k + 1)
    }
}

/// Reads the global `id`: its name's constant (the first equal one, else a
/// new one), then `GET_GLOBAL` at the current place.
pub open spec fn sp_global(s: PState, id: Seq<char>) -> PState {
    let i = ident_from(s.consts, id, 0);
    let consts = if i < s.consts.len() { s.consts } else { s.consts.push(ValueView::String(id)) };
    sp_emit(PState { consts, ..s }, OpCode::GET_GLOBAL { constant: i as u8 }, s.loc)
}

/// The instruction of a prefix operator.
pub open spec fn unary_code(t: TokenView) -> Option<OpCode> {
    match t {
        TokenView::Op(Operator::Sub) => Some(OpCode::NEGATE),
        TokenView::Op(Operator::Not) => Some(OpCode::NOT),
        TokenView::Op(Operator::Length) => Some(OpCode::LENGTH),
        _ => None,
    }
}

/// The instruction of an infix operator, where the instruction set has one.
pub open spec fn binary_code(t: TokenView) -> Option<OpCode> {
    match t {
        TokenView::Op(Operator::Add) => Some(OpCode::ADD),
        TokenView::Op(Operator::Sub) => Some(OpCode::SUB),
        TokenView::Op(Operator::Multiply) => Some(OpCode::MULTIPLY),
        TokenView::Op(Operator::Divide) => Some(OpCode::DIVIDE),
        TokenView::Op(Operator::Concat) => Some(OpCode::CONCAT),
        TokenView::Op(Operator::Equal) => Some(OpCode::EQUAL),
        TokenView::Op(Operator::NotEqual) => Some(OpCode::NOT_EQUAL),
        TokenView::Op(Operator::Less) => Some(OpCode::LESS),
        TokenView::Op(Operator::LessEqual) => Some(OpCode::LESS_EQUAL),
        TokenView::Op(Operator::Greater) => Some(OpCode::GREATER),
        TokenView::Op(Operator::GreaterEqual) => Some(OpCode::GREATER_EQUAL),
        _ => None,
    }
}

/// The next tighter precedence, by rank.
pub open spec fn next_rank(r: int) -> int {
    if r < 16 { r + 1 } else { 16 }
}

/// Aims the jump at `idx` at the end of the code: past `u16::MAX`
/// instructions `TooManyOperations`, at an instruction that does not jump
/// `ChunkCorrupt`, both at the current place.
pub open spec fn sp_patch(s: PState, idx: int) -> Result<PState, StopView> {
    let jump = s.code.len() - idx - 1;
    if jump > u16::MAX {
        Err(StopView::Error(SiltErrorView::TooManyOperations, s.loc))
    } else {
        match with_jump(s.code[idx], jump as u16) {
            Some(op) => Ok(PState { code: s.code.update(idx, op), ..s }),
            None => Err(StopView::Error(SiltErrorView::ChunkCorrupt, s.loc)),
        }
    }
}

/// `parse_precedence`: reads a token, runs its prefix rule, then the infix
/// rules of the tokens that bind at least as tightly as `rank`; an `=` left
/// over where assignment was allowed is `InvalidAssignment`.
pub open spec fn sp_pp(ts: Seq<ItemView>, s: PState, rank: int) -> Result<PState, StopView>
    decreases ts.len() + 2 - s.pos, 0int,
{
    if s.pos < 0 || s.pos > ts.len() + 1 {
        Err(StopView::Unsupported(s.loc))
    } else {
        let s1 = sp_store(ts, s);
        match s1.cur {
            Err((e, c)) => Err(StopView::Error(e, c)),
            Ok((t, _)) => {
                let can_assign = rank <= 1;
                match sp_prefix(ts, s1, token_rule(t).prefix, can_assign) {
                    Err(x) => Err(x),
                    Ok(s2) => if s.pos < s2.pos <= ts.len() + 2 {
                        sp_loop(ts, s2, rank, can_assign)
                    } else {
                        Err(StopView::Unsupported(s2.loc))
                    },
                }
            },
        }
    }
}

/// The infix loop of [`sp_pp`].
pub open spec fn sp_loop(ts: Seq<ItemView>, s: PState, rank: int, can_assign: bool) -> Result<PState, StopView>
    decreases ts.len() + 2 - s.pos, 0int,
{
    if s.pos < 0 || s.pos > ts.len() + 1 {
        Err(StopView::Unsupported(s.loc))
    } else {
        match item_at(ts, s.pos) {
            Err((e, c)) => Err(StopView::Error(e, c)),
            Ok((t, _)) => {
                if t is EOF || rank > precedence_rank(token_rule(t).precedence) {
                    if can_assign && t is Assign {
                        Err(StopView::Error(SiltErrorView::InvalidAssignment(t), s.loc))
                    } else {
                        Ok(s)
                    }
                } else {
                    let s1 = sp_store(ts, s);
                    match sp_infix(ts, s1, t, token_rule(t).infix) {
                        Err(x) => Err(x),
                        Ok(s2) => if s.pos < s2.pos <= ts.len() + 2 {
                            sp_loop(ts, s2, rank, can_assign)
                        } else {
                            Err(StopView::Unsupported(s2.loc))
                        },
                    }
                }
            },
        }
    }
}

/// `expression`: an expression, then more after each comma.
pub open spec fn sp_expression(ts: Seq<ItemView>, s: PState) -> Result<PState, StopView>
    decreases ts.len() + 2 - s.pos, 1int,
{
    match sp_pp(ts, s, 1) {
        Err(x) => Err(x),
        Ok(s2) => if s.pos < s2.pos <= ts.len() + 2 { sp_more(ts, s2) } else { Err(StopView::Unsupported(s2.loc)) },
    }
}

/// The comma loop of [`sp_expression`].
pub open spec fn sp_more(ts: Seq<ItemView>, s: PState) -> Result<PState, StopView>
    decreases ts.len() + 2 - s.pos, 0int,
{
    if s.pos < 0 || s.pos > ts.len() + 1 {
        Err(StopView::Unsupported(s.loc))
    } else {
        match item_at(ts, s.pos) {
            Err((e, c)) => Err(StopView::Error(e, c)),
            Ok((TokenView::Comma, _)) => {
                let s1 = PState { pos: s.pos + 1, count: s.count + 1, ..s };
                match sp_pp(ts, s1, 1) {
                    Err(x) => Err(x),
                    Ok(s2) => if s.pos < s2.pos <= ts.len() + 2 { sp_more(ts, s2) } else { Err(StopView::Unsupported(s2.loc)) },
                }
            },
            Ok(_) => Ok(s),
        }
    }
}

/// The prefix rule `pf` of the current token.
pub open spec fn sp_prefix(ts: Seq<ItemView>, s: PState, pf: ParseFn, can_assign: bool) -> Result<PState, StopView>
    decreases ts.len() + 2 - s.pos, 2int,
{
    match s.cur {
        Err((e, c)) => Err(StopView::Error(e, c)),
        Ok((t, _)) => match pf {
            ParseFn::Void => Ok(s),
            ParseFn::Integer => match t {
                TokenView::Integer(i) => Ok(sp_constant(s, ValueView::Integer(i))),
                _ => Err(StopView::Unsupported(s.loc)),
            },
            ParseFn::StringConstant => match t {
                TokenView::StringLiteral(x) => Ok(sp_constant(s, ValueView::String(x))),
                _ => Err(StopView::Unsupported(s.loc)),
            },
            ParseFn::Literal => match t {
                TokenView::Nil => Ok(sp_emit(s, OpCode::NIL, s.loc)),
                TokenView::True => Ok(sp_emit(s, OpCode::TRUE, s.loc)),
                TokenView::False => Ok(sp_emit(s, OpCode::FALSE, s.loc)),
                _ => Err(StopView::Unsupported(s.loc)),
            },
            ParseFn::Unary => if t == TokenView::Op(Operator::Tilde) {
                Err(StopView::Unsupported(s.loc))
            } else {
                match sp_pp(ts, s, 13) {
                    Err(x) => Err(x),
                    Ok(s2) => match unary_code(t) {
                        Some(op) => Ok(sp_emit(s2, op, s2.loc)),
                        None => Ok(s2),
                    },
                }
            },
            ParseFn::Grouping => {
                let start = s.loc;
                match sp_expression(ts, s) {
                    Err(x) => Err(x),
                    Ok(s2) => match item_at(ts, s2.pos) {
                        Err((e, c)) => Err(StopView::Error(e, c)),
                        Ok((TokenView::CloseParen, _)) => Ok(PState { pos: s2.pos + 1, ..s2 }),
                        Ok(_) => Err(StopView::Error(SiltErrorView::UnterminatedParenthesis(start.0, start.1), s2.loc)),
                    },
                }
            },
            ParseFn::Variable => match t {
                TokenView::Identifier(id) => match item_at(ts, s.pos) {
                    Err((e, c)) => Err(StopView::Error(e, c)),
                    Ok((n, _)) => if (s.depth > 0 && n == TokenView::Op(Operator::ColonEquals))
                        || (s.multi && n is Comma) || n is OpenBracket || n is Dot || n is Colon {
                        Err(StopView::Unsupported(s.loc))
                    } else if can_assign && n is Assign {
                        if s.pos - 1 == s.start { sp_assign(ts, s, id) } else { Err(StopView::Unsupported(s.loc)) }
                    } else {
                        Ok(sp_global(s, id))
                    },
                },
                _ => Err(StopView::Unsupported(s.loc)),
            },
            _ => Err(StopView::Unsupported(s.loc)),
        },
    }
}

/// `name = expression` for the global `name` that starts the statement: its
/// name's constant, the value, `POPS` of the values past the first, then
/// `SET_GLOBAL` and `POP`; the statement's own pop is then left out.
pub open spec fn sp_assign(ts: Seq<ItemView>, s: PState, id: Seq<char>) -> Result<PState, StopView>
    decreases ts.len() + 2 - s.pos, 1int,
{
    let i = ident_from(s.consts, id, 0);
    let consts = if i < s.consts.len() { s.consts } else { s.consts.push(ValueView::String(id)) };
    let s1 = PState { pos: s.pos + 1, consts, count: 1, over: true, multi: false, ..s };
    if s.pos < 0 || s.pos > ts.len() + 1 {
        Err(StopView::Unsupported(s.loc))
    } else {
        match sp_expression(ts, s1) {
            Err(x) => Err(x),
            Ok(s2) => {
                let s3 = PState { multi: true, ..s2 };
                let s4 = if s3.count > 1 { sp_emit(s3, OpCode::POPS((s3.count - 1) as u8), s3.loc) } else { s3 };
                Ok(sp_emit(sp_emit(s4, OpCode::SET_GLOBAL { constant: i as u8 }, s4.loc), OpCode::POP, s4.loc))
            },
        }
    }
}

/// The infix rule `inf` of the operator `t` just read.
pub open spec fn sp_infix(ts: Seq<ItemView>, s: PState, t: TokenView, inf: ParseFn) -> Result<PState, StopView>
    decreases ts.len() + 2 - s.pos, 2int,
{
    match inf {
        ParseFn::Void => Ok(s),
        ParseFn::Binary | ParseFn::Concat => match binary_code(t) {
            None => Err(StopView::Unsupported(s.loc)),
            Some(op) => match sp_pp(ts, s, next_rank(precedence_rank(token_rule(t).precedence) as int)) {
                Err(x) => Err(x),
                Ok(s2) => Ok(sp_emit(s2, op, s.loc)),
            },
        },
        ParseFn::And | ParseFn::Or => {
            let jump = if inf is And { OpCode::GOTO_IF_FALSE(0) } else { OpCode::GOTO_IF_TRUE(0) };
            let idx = s.code.len() as int;
            let s1 = sp_emit(sp_emit(s, jump, s.loc), OpCode::POP, s.loc);
            match sp_pp(ts, s1, if inf is And { 3int } else { 2int }) {
                Err(x) => Err(x),
                Ok(s2) => sp_patch(s2, idx),
            }
        },
        _ => Err(StopView::Unsupported(s.loc)),
    }
}

/// Tokens that start a statement this compiler leaves out.
pub open spec fn left_out_statement(t: TokenView) -> bool {
    t is Local || t is Global || t is Function
        || t is For || t is ColonColon || t is Goto
}

/// Reads `tok` if it is next (`expect_token`); else the error `e` at the
/// current place.
pub open spec fn sp_expect(ts: Seq<ItemView>, s: PState, tok: TokenView, e: SiltErrorView) -> Result<PState, StopView> {
    match item_at(ts, s.pos) {
        Err((er, c)) => Err(StopView::Error(er, c)),
        Ok((t, _)) => if t == tok { Ok(PState { pos: s.pos + 1, ..s }) } else { Err(StopView::Error(e, s.loc)) },
    }
}

/// A declaration inside a block: a comment is skipped; `local`, `global`
/// and `function` are left out; anything else is a statement.
pub open spec fn sp_declaration(ts: Seq<ItemView>, s: PState) -> Result<PState, StopView>
    decreases ts.len() + 2 - s.pos, 3int,
{
    match item_at(ts, s.pos) {
        Err((e, c)) => Err(StopView::Error(e, c)),
        Ok((TokenView::Comment, _)) => Ok(PState { pos: s.pos + 1, ..s }),
        Ok(_) => sp_statement(ts, s),
    }
}

/// Declarations up to `end` (or, when `branches`, up to `else` or `elseif`
/// too; or, when `until`, up to `until` alone), which is read when `eat`;
/// the end of input first is `UnterminatedBlock`.
pub open spec fn sp_block(ts: Seq<ItemView>, s: PState, branches: bool, eat: bool, until: bool) -> Result<PState, StopView>
    decreases ts.len() + 2 - s.pos, 4int,
{
    if s.pos < 0 || s.pos > ts.len() + 1 {
        Err(StopView::Unsupported(s.loc))
    } else {
        match item_at(ts, s.pos) {
            Err((e, c)) => Err(StopView::Error(e, c)),
            Ok((t, _)) => if (until && t is Until) || (!until && (t is End || (branches && (t is Else || t is ElseIf)))) {
                if eat { Ok(PState { pos: s.pos + 1, ..s }) } else { Ok(s) }
            } else if t is EOF {
                Err(StopView::Error(SiltErrorView::UnterminatedBlock, s.loc))
            } else {
                match sp_declaration(ts, s) {
                    Err(x) => Err(x),
                    Ok(s2) => if s.pos < s2.pos <= ts.len() + 2 { sp_block(ts, s2, branches, eat, until) } else { Err(StopView::Unsupported(s2.loc)) },
                }
            },
        }
    }
}

/// A block in a scope of its own: the depth is one more inside.
pub open spec fn sp_scoped(ts: Seq<ItemView>, s: PState, branches: bool, eat: bool) -> Result<PState, StopView>
    decreases ts.len() + 2 - s.pos, 5int,
{
    match sp_block(ts, PState { depth: s.depth + 1, ..s }, branches, eat, false) {
        Err(x) => Err(x),
        Ok(s2) => Ok(PState { depth: s.depth, ..s2 }),
    }
}

/// `if cond then block {elseif cond then block} [else block] end`: the
/// condition, `POP_AND_GOTO_IF_FALSE` past the block, the block, and for each
/// further branch a `FORWARD` past the rest of the chain.
pub open spec fn sp_if(ts: Seq<ItemView>, s: PState) -> Result<PState, StopView>
    decreases ts.len() + 2 - s.pos, 1int,
{
    if s.pos < 0 || s.pos > ts.len() + 1 {
        Err(StopView::Unsupported(s.loc))
    } else {
        match sp_expression(ts, PState { pos: s.pos + 1, ..s }) {
            Err(x) => Err(x),
            Ok(s1) => match sp_expect(ts, s1, TokenView::Then, SiltErrorView::ExpectedToken(TokenView::Then)) {
                Err(x) => Err(x),
                Ok(s2) => {
                    let skip_if = s2.code.len() as int;
                    let s3 = sp_emit(s2, OpCode::POP_AND_GOTO_IF_FALSE(0), s2.loc);
                    if !(s.pos < s3.pos <= ts.len() + 2) {
                        Err(StopView::Unsupported(s3.loc))
                    } else {
                        match sp_scoped(ts, s3, true, false) {
                            Err(x) => Err(x),
                            Ok(s4) => if !(s.pos < s4.pos <= ts.len() + 2) {
                                Err(StopView::Unsupported(s4.loc))
                            } else {
                                sp_if_rest(ts, s4, skip_if)
                            },
                        }
                    }
                },
            },
        }
    }
}

/// What follows an `if` branch's block at `s.pos`, where `skip_if` is the
/// branch's jump: `else` and its block, `elseif` and the rest of the chain,
/// or `end`.
pub open spec fn sp_if_rest(ts: Seq<ItemView>, s: PState, skip_if: int) -> Result<PState, StopView>
    decreases ts.len() + 2 - s.pos, 2int,
{
    match item_at(ts, s.pos) {
        Err((e, c)) => Err(StopView::Error(e, c)),
        Ok((TokenView::Else, _)) => {
            let s5 = PState { pos: s.pos + 1, ..s };
            let skip_else = s5.code.len() as int;
            let s6 = sp_emit(s5, OpCode::FORWARD(0), s5.loc);
            match sp_patch(s6, skip_if) {
                Err(x) => Err(x),
                Ok(s7) => match sp_scoped(ts, s7, false, false) {
                    Err(x) => Err(x),
                    Ok(s8) => match sp_patch(s8, skip_else) {
                        Err(x) => Err(x),
                        Ok(s9) => sp_expect(ts, s9, TokenView::End, SiltErrorView::ExpectedToken(TokenView::End)),
                    },
                },
            }
        },
        Ok((TokenView::ElseIf, _)) => {
            let skip_chain = s.code.len() as int;
            let s6 = sp_emit(s, OpCode::FORWARD(0), s.loc);
            match sp_patch(s6, skip_if) {
                Err(x) => Err(x),
                Ok(s7) => match sp_if(ts, s7) {
                    Err(x) => Err(x),
                    Ok(s8) => sp_patch(s8, skip_chain),
                },
            }
        },
        Ok(_) => match sp_patch(s, skip_if) {
            Err(x) => Err(x),
            Ok(s7) => sp_expect(ts, s7, TokenView::End, SiltErrorView::ExpectedToken(TokenView::End)),
        },
    }
}

/// Aims the jumps at `idxs[k..]` at the end of the code, in turn.
pub open spec fn sp_patch_all(s: PState, idxs: Seq<usize>, k: int) -> Result<PState, StopView>
    decreases idxs.len() - k,
{
    if k < 0 || k >= idxs.len() {
        Ok(s)
    } else {
        match sp_patch(s, idxs[k] as int) {
            Err(x) => Err(x),
            Ok(s2) => sp_patch_all(s2, idxs, k + 1),
        }
    }
}

/// Closes the innermost loop: its `break` jumps land at the end of the code.
pub open spec fn sp_end_loop(s: PState) -> Result<PState, StopView> {
    if s.loops.len() == 0 {
        Err(StopView::Unsupported(s.loc))
    } else {
        sp_patch_all(PState { loops: s.loops.drop_last(), ..s }, s.loops.last(), 0)
    }
}

/// `break`: a `FORWARD` whose target the innermost loop sets when it closes;
/// outside a loop, `InvalidTokenPlacement`.
pub open spec fn sp_break(s: PState) -> Result<PState, StopView> {
    if s.loops.len() == 0 {
        Err(StopView::Error(SiltErrorView::InvalidTokenPlacement(TokenView::Break), s.loc))
    } else {
        let idx = s.code.len() as usize;
        let s1 = sp_emit(PState { pos: s.pos + 1, ..s }, OpCode::FORWARD(0), s.loc);
        Ok(PState { loops: s1.loops.update(s1.loops.len() - 1, s1.loops.last().push(idx)), ..s1 })
    }
}

/// `while cond do block end`: the condition, `POP_AND_GOTO_IF_FALSE` past the
/// loop, the block, then `REWIND` to the condition, and the loop's `break`s
/// aimed past it; a loop too long to rewind over is left out.
pub open spec fn sp_while(ts: Seq<ItemView>, s: PState) -> Result<PState, StopView>
    decreases ts.len() + 2 - s.pos, 1int,
{
    if s.pos < 0 || s.pos > ts.len() + 1 {
        Err(StopView::Unsupported(s.loc))
    } else {
        let loop_start = s.code.len() as int;
        match sp_expression(ts, PState { pos: s.pos + 1, ..s }) {
            Err(x) => Err(x),
            Ok(s1) => match sp_expect(ts, s1, TokenView::Do, SiltErrorView::ExpectedToken(TokenView::Do)) {
                Err(x) => Err(x),
                Ok(s2) => {
                    let exit = s2.code.len() as int;
                    let s3 = sp_emit(s2, OpCode::POP_AND_GOTO_IF_FALSE(0), s2.loc);
                    if !(s.pos < s3.pos <= ts.len() + 2) {
                        Err(StopView::Unsupported(s3.loc))
                    } else {
                        match sp_scoped(ts, PState { loops: s3.loops.push(Seq::empty()), ..s3 }, false, true) {
                            Err(x) => Err(x),
                            Ok(s4) => {
                                let jump = s4.code.len() + 1 - loop_start;
                                if jump > u16::MAX {
                                    Err(StopView::Unsupported(s4.loc))
                                } else {
                                    match sp_patch(sp_emit(s4, OpCode::REWIND(jump as u16), s4.loc), exit) {
                                        Err(x) => Err(x),
                                        Ok(s5) => sp_end_loop(s5),
                                    }
                                }
                            },
                        }
                    }
                },
            },
        }
    }
}

/// `repeat block until cond`: the block and the condition in a scope of
/// their own, `GOTO_IF_TRUE` to the exit, `POP` of the condition and
/// `REWIND` to the block, then at the exit `POP` of the condition, and the
/// loop's `break`s aimed past it; a loop too long to rewind over is left out.
pub open spec fn sp_repeat(ts: Seq<ItemView>, s: PState) -> Result<PState, StopView>
    decreases ts.len() + 2 - s.pos, 1int,
{
    if s.pos < 0 || s.pos > ts.len() + 1 {
        Err(StopView::Unsupported(s.loc))
    } else {
        let loop_start = s.code.len() as int;
        match sp_block(ts, PState { pos: s.pos + 1, depth: s.depth + 1, loops: s.loops.push(Seq::empty()), ..s }, false, true, true) {
            Err(x) => Err(x),
            Ok(s2) => if !(s.pos < s2.pos <= ts.len() + 2) {
                Err(StopView::Unsupported(s2.loc))
            } else {
                match sp_expression(ts, s2) {
                    Err(x) => Err(x),
                    Ok(s3) => {
                        let exit = s3.code.len() as int;
                        let s4 = sp_emit(sp_emit(s3, OpCode::GOTO_IF_TRUE(0), s3.loc), OpCode::POP, s3.loc);
                        let jump = s4.code.len() + 1 - loop_start;
                        if jump > u16::MAX {
                            Err(StopView::Unsupported(s4.loc))
                        } else {
                            match sp_patch(sp_emit(s4, OpCode::REWIND(jump as u16), s4.loc), exit) {
                                Err(x) => Err(x),
                                Ok(s5) => match sp_end_loop(sp_emit(s5, OpCode::POP, s5.loc)) {
                                    Err(x) => Err(x),
                                    Ok(s6) => Ok(PState { depth: s.depth, ..s6 }),
                                },
                            }
                        }
                    },
                }
            },
        }
    }
}

/// One statement starting at `s.pos`: `sprint`, `return`, `if`, `while`,
/// `repeat`, `break`, a `do` block, `;`, or an expression statement (whose value is popped,
/// unless an assignment already did).
pub open spec fn sp_statement(ts: Seq<ItemView>, s: PState) -> Result<PState, StopView>
    decreases ts.len() + 2 - s.pos, 2int,
{
    let s0 = PState { count: 1, multi: true, start: s.pos, ..s };
    if s.pos < 0 || s.pos > ts.len() {
        Err(StopView::Unsupported(s.loc))
    } else {
        match item_at(ts, s.pos) {
            Err((e, c)) => Err(StopView::Error(e, c)),
            Ok((t, c)) => {
                if t is Print {
                    match sp_expression(ts, PState { pos: s0.pos + 1, ..s0 }) {
                        Err(x) => Err(x),
                        Ok(s2) => Ok(sp_emit(s2, OpCode::PRINT, s2.loc)),
                    }
                } else if t is Return {
                    let s1 = PState { pos: s0.pos + 1, multi: false, ..s0 };
                    let r = match item_at(ts, s1.pos) {
                        Err((e, c2)) => Err(StopView::Error(e, c2)),
                        Ok((n, _)) => if n is End || n is Else || n is ElseIf || n is SemiColon || n is EOF {
                            Ok(sp_emit(s1, OpCode::NIL, s1.loc))
                        } else {
                            sp_expression(ts, s1)
                        },
                    };
                    match r {
                        Err(x) => Err(x),
                        Ok(s2) => if s2.count > 1 {
                            Err(StopView::Unsupported(c))
                        } else {
                            Ok(sp_emit(PState { multi: true, ..s2 }, OpCode::RETURN, s2.loc))
                        },
                    }
                } else if t is If {
                    sp_if(ts, s0)
                } else if t is While {
                    sp_while(ts, s0)
                } else if t is Repeat {
                    sp_repeat(ts, s0)
                } else if t is Break {
                    sp_break(s0)
                } else if t is Do {
                    sp_scoped(ts, PState { pos: s0.pos + 1, ..s0 }, false, true)
                } else if t is SemiColon {
                    Ok(PState { pos: s0.pos + 1, ..s0 })
                } else if left_out_statement(t) {
                    Err(StopView::Unsupported(c))
                } else {
                    match sp_expression(ts, s0) {
                        Err(x) => Err(x),
                        Ok(s2) => if s2.over {
                            Ok(PState { over: false, ..s2 })
                        } else {
                            Ok(sp_emit(s2, OpCode::POP, s2.loc))
                        },
                    }
                }
            },
        }
    }
}

/// The statements from `s.pos` to the end of the stream; comments are
/// skipped.
pub open spec fn sp_statements(ts: Seq<ItemView>, s: PState) -> Result<PState, StopView>
    decreases ts.len() - s.pos,
{
    if s.pos < 0 || s.pos >= ts.len() {
        Ok(s)
    } else {
        match ts[s.pos] {
            Err((e, c)) => Err(StopView::Error(e, c)),
            Ok((TokenView::Comment, _)) => sp_statements(ts, PState { pos: s.pos + 1, ..s }),
            Ok(_) => match sp_statement(ts, s) {
                Err(x) => Err(x),
                Ok(s2) => if s2.pos >= ts.len() {
                    Ok(s2)
                } else if s.pos < s2.pos {
                    sp_statements(ts, s2)
                } else {
                    Err(StopView::Unsupported(s2.loc))
                },
            },
        }
    }
}

/// What compiling `src` gives: its statements, the last instruction dropped
/// when it is a `POP` (so the last value stays on the stack), then `RETURN`
/// at (0, 0); or where compiling stopped: the first error, or the first
/// construct this compiler leaves out.
pub open spec fn sp_compile(src: Seq<char>) -> Result<(Seq<OpCode>, Seq<ValueView>, Seq<TokenCell>), StopView> {
    let ts = sp_items(start_lexer(src), src);
    let s0 = PState {
        pos: 0, cur: Ok((TokenView::EOF, (0usize, 0usize))), loc: (0usize, 0usize), count: 1, multi: true, over: false, start: 0, depth: 0, loops: Seq::empty(),
        code: Seq::empty(), consts: Seq::empty(), locs: Seq::empty(),
    };
    match sp_statements(ts, s0) {
        Err(x) => Err(x),
        Ok(s) => {
            let dropped = s.code.len() > 0 && s.code.last() == OpCode::POP;
            let code = if dropped { s.code.drop_last() } else { s.code };
            let locs = if dropped { s.locs.drop_last() } else { s.locs };
            Ok((code.push(OpCode::RETURN), s.consts, locs.push((0usize, 0usize))))
        },
    }
}

/// The views of a stream of items.
pub open spec fn view_items(v: Seq<Item>) -> Seq<ItemView> {
    v.map_values(|x: Item| item_view(x))
}

/// The parser's place in the stream: the index of the next item, the item
/// read last, and where it starts.
pub struct Cursor {
    pub pos: usize,
    pub cur: Item,
    pub loc: TokenCell,
    pub count: usize,
    pub multi: bool,
    pub over: bool,
    pub start: usize,
    pub depth: usize,
    pub loops: Vec<Vec<usize>>,
}

/// The views of the loops' `break` jump lists.
pub open spec fn loops_view(l: Seq<Vec<usize>>) -> Seq<Seq<usize>> {
    l.map_values(|v: Vec<usize>| v@)
}

/// Every recorded `break` jump is an instruction of `f`.
pub open spec fn loops_ok(c: Cursor, f: Chunk) -> bool {
    forall|i: int, j: int| 0 <= i < c.loops@.len() && 0 <= j < c.loops@[i]@.len() ==> #[trigger] c.loops@[i]@[j] < f.spec_code().len()
}

/// A parse in progress, from the cursor and the chunk.
pub open spec fn pstate(c: Cursor, f: Chunk) -> PState {
    PState {
        pos: c.pos as int,
        cur: item_view(c.cur),
        loc: c.loc,
        count: c.count as int,
        multi: c.multi,
        over: c.over,
        start: c.start as int,
        depth: c.depth as int,
        loops: loops_view(c.loops@),
        code: f.spec_code(),
        consts: f.spec_constants(),
        locs: f.spec_locations(),
    }
}

/// Room in the chunk for what the rest of a stream of `len` items can
/// write, with `extra` more.
pub open spec fn room(len: int, c: Cursor, f: Chunk, extra: int) -> bool {
    &&& len + 4 < usize::MAX
    &&& c.pos <= len + 2
    &&& c.count <= c.pos + 1
    &&& f.spec_locations().len() == f.spec_code().len()
    &&& f.spec_code().len() + 3 * (len + 2 - c.pos) + 3 + 3 * extra < usize::MAX
    &&& f.spec_constants().len() + (len + 2 - c.pos) + 1 + extra < usize::MAX
}

/// From `(c0, f0)` to `(c1, f1)` the cursor moved forward, staying within
/// the stream, and the chunk grew by at most three instructions and one
/// constant per item read, with `extra` of each more.
pub open spec fn grew(len: int, c0: Cursor, f0: Chunk, c1: Cursor, f1: Chunk, extra: int) -> bool {
    &&& c0.pos <= c1.pos <= len + 2
    &&& c1.count <= c1.pos + 1
    &&& f1.spec_locations().len() == f1.spec_code().len()
    &&& f0.spec_code().len() <= f1.spec_code().len()
    &&& f1.spec_code().len() <= f0.spec_code().len() + 3 * (c1.pos - c0.pos) + 3 * extra
    &&& f1.spec_constants().len() <= f0.spec_constants().len() + (c1.pos - c0.pos) + extra
}

/// `r` is what `spec` says: the state reached, or the stop.
pub open spec fn answers(spec: Result<PState, StopView>, r: Result<(), Stop>, c: Cursor, f: Chunk) -> bool {
    match spec {
        Ok(s) => r is Ok && pstate(c, f) == s,
        Err(x) => r matches Err(e) && e@ == x,
    }
}

/// A writing of identifier `id` is its first index or a new one.
proof fn lemma_ident_from(before: Seq<ValueView>, id: Seq<char>, i: usize, after: Seq<ValueView>, k: int)
    requires
        crate::chunk::identifier_written(before, id, i, after),
        0 <= k <= i,
    ensures
        ident_from(before, id, k) == i,
    decreases i - k,
{
    if k < i {
        assert(before[k] != ValueView::String(id));
        lemma_ident_from(before, id, i, after, k + 1);
    }
}

/// A copy of the item at `i`; past the end, the end of input at (0, 0).
fn item(toks: &Vec<Item>, i: usize) -> (r: Item)
    ensures
        item_view(r) == item_at(view_items(toks@), i as int),
{
    if i < toks.len() {
        match &toks[i] {
            Ok((t, c)) => Ok((t.clone(), (c.0, c.1))),
            Err(e) => Err(e.clone()),
        }
    } else {
        Ok((Token::EOF, (0, 0)))
    }
}

/// Reads the next item (see [`sp_store`]).
fn store(toks: &Vec<Item>, cur: &mut Cursor)
    requires
        old(cur).pos + 1 < usize::MAX,
    ensures
        final(cur).loops@ == old(cur).loops@,
        final(cur).depth == old(cur).depth,
        forall|f: Chunk| #[trigger] pstate(*final(cur), f) == sp_store(view_items(toks@), pstate(*old(cur), f)),
        final(cur).pos == old(cur).pos + 1,
        final(cur).count == old(cur).count,
{
    let it = item(toks, cur.pos);
    let l = match &it {
        Ok((_, c)) => (c.0, c.1),
        Err(e) => (e.location.0, e.location.1),
    };
    cur.pos = cur.pos + 1;
    cur.cur = it;
    cur.loc = l;
}

/// The jump instruction `op` aimed `jump` ahead (see [`with_jump`]).
fn jump_op(op: OpCode, jump: u16) -> (r: Option<OpCode>)
    ensures
        r == with_jump(op, jump),
{
    match op {
        OpCode::GOTO_IF_FALSE(_) => Some(OpCode::GOTO_IF_FALSE(jump)),
        OpCode::GOTO_IF_TRUE(_) => Some(OpCode::GOTO_IF_TRUE(jump)),
        OpCode::POP_AND_GOTO_IF_FALSE(_) => Some(OpCode::POP_AND_GOTO_IF_FALSE(jump)),
        OpCode::FORWARD(_) => Some(OpCode::FORWARD(jump)),
        OpCode::REWIND(_) => Some(OpCode::REWIND(jump)),
        OpCode::FOR_NUMERIC(_) => Some(OpCode::FOR_NUMERIC(jump)),
        _ => None,
    }
}

/// Aims the jump at `idx` at the end of the code (see [`sp_patch`]).
fn patch(cur: &Cursor, f: &mut Chunk, idx: usize) -> (r: Result<(), Stop>)
    requires
        idx < old(f).spec_code().len(),
    ensures
        answers(sp_patch(pstate(*cur, *old(f)), idx as int), r, *cur, *final(f)),
        final(f).spec_code().len() == old(f).spec_code().len(),
        final(f).spec_constants() == old(f).spec_constants(),
{
    proof {
        Chunk::lemma_code_view(f);
    }
    let jump = f.code.len() - idx - 1;
    if jump > 65535 {
        return Err(Stop::Error(ErrorTuple { code: SiltError::TooManyOperations, location: (cur.loc.0, cur.loc.1) }));
    }
    match jump_op(f.code[idx], jump as u16) {
        Some(op) => {
            f.set_code(idx, op);
            Ok(())
        },
        None => Err(Stop::Error(ErrorTuple { code: SiltError::ChunkCorrupt, location: (cur.loc.0, cur.loc.1) })),
    }
}

/// `parse_precedence` (see [`sp_pp`]).
fn pp(toks: &Vec<Item>, cur: &mut Cursor, f: &mut Chunk, rank: u8) -> (r: Result<(), Stop>)
    requires
        room(toks@.len() as int, *old(cur), *old(f), 0),
        rank <= 16,
    ensures
        final(cur).loops@ == old(cur).loops@,
        final(cur).depth == old(cur).depth,
        answers(sp_pp(view_items(toks@), pstate(*old(cur), *old(f)), rank as int), r, *final(cur), *final(f)),
        r is Ok ==> grew(toks@.len() as int, *old(cur), *old(f), *final(cur), *final(f), 0),
    decreases toks@.len() + 2 - old(cur).pos, 0int,
{
    if cur.pos > toks.len() + 1 {
        return Err(Stop::Unsupported((cur.loc.0, cur.loc.1)));
    }
    let p0 = cur.pos;
    store(toks, cur);
    let t = match &cur.cur {
        Ok((t, _)) => t.clone(),
        Err(e) => {
            return Err(Stop::Error(e.clone()));
        },
    };
    let can_assign = rank <= 1;
    let rule = crate::compiler::Compiler::get_rule(&t);
    match prefix(toks, cur, f, rule.prefix, can_assign) {
        Err(x) => {
            return Err(x);
        },
        Ok(()) => {},
    }
    if !(p0 < cur.pos && cur.pos <= toks.len() + 2) {
        return Err(Stop::Unsupported((cur.loc.0, cur.loc.1)));
    }
    lp(toks, cur, f, rank, can_assign)
}

/// The infix loop of `parse_precedence` (see [`sp_loop`]).
fn lp(toks: &Vec<Item>, cur: &mut Cursor, f: &mut Chunk, rank: u8, can_assign: bool) -> (r: Result<(), Stop>)
    requires
        room(toks@.len() as int, *old(cur), *old(f), 0),
        rank <= 16,
    ensures
        final(cur).loops@ == old(cur).loops@,
        final(cur).depth == old(cur).depth,
        answers(sp_loop(view_items(toks@), pstate(*old(cur), *old(f)), rank as int, can_assign), r, *final(cur), *final(f)),
        r is Ok ==> grew(toks@.len() as int, *old(cur), *old(f), *final(cur), *final(f), 0),
    decreases toks@.len() + 2 - old(cur).pos, 0int,
{
    if cur.pos > toks.len() + 1 {
        return Err(Stop::Unsupported((cur.loc.0, cur.loc.1)));
    }
    let p0 = cur.pos;
    let t = match item(toks, cur.pos) {
        Ok((t, _)) => t,
        Err(e) => {
            return Err(Stop::Error(e));
        },
    };
    let rule = crate::compiler::Compiler::get_rule(&t);
    let is_eof = match t {
        Token::EOF => true,
        _ => false,
    };
    if is_eof || rank > rule.precedence.rank() {
        let is_assign = match t {
            Token::Assign => true,
            _ => false,
        };
        if can_assign && is_assign {
            return Err(Stop::Error(ErrorTuple { code: SiltError::InvalidAssignment(Token::Assign), location: (cur.loc.0, cur.loc.1) }));
        }
        return Ok(());
    }
    store(toks, cur);
    match infix(toks, cur, f, t, rule.infix) {
        Err(x) => {
            return Err(x);
        },
        Ok(()) => {},
    }
    if !(p0 < cur.pos && cur.pos <= toks.len() + 2) {
        return Err(Stop::Unsupported((cur.loc.0, cur.loc.1)));
    }
    lp(toks, cur, f, rank, can_assign)
}

/// `expression`: an expression, then more after each comma (see
/// [`sp_expression`]).
fn expression(toks: &Vec<Item>, cur: &mut Cursor, f: &mut Chunk) -> (r: Result<(), Stop>)
    requires
        room(toks@.len() as int, *old(cur), *old(f), 0),
    ensures
        final(cur).loops@ == old(cur).loops@,
        final(cur).depth == old(cur).depth,
        answers(sp_expression(view_items(toks@), pstate(*old(cur), *old(f))), r, *final(cur), *final(f)),
        r is Ok ==> grew(toks@.len() as int, *old(cur), *old(f), *final(cur), *final(f), 0),
        r is Ok ==> old(cur).pos < final(cur).pos,
    decreases toks@.len() + 2 - old(cur).pos, 1int,
{
    let p0 = cur.pos;
    match pp(toks, cur, f, 1) {
        Err(x) => {
            return Err(x);
        },
        Ok(()) => {},
    }
    if !(p0 < cur.pos && cur.pos <= toks.len() + 2) {
        return Err(Stop::Unsupported((cur.loc.0, cur.loc.1)));
    }
    more(toks, cur, f)
}

/// The comma loop of `expression` (see [`sp_more`]).
fn more(toks: &Vec<Item>, cur: &mut Cursor, f: &mut Chunk) -> (r: Result<(), Stop>)
    requires
        room(toks@.len() as int, *old(cur), *old(f), 0),
    ensures
        final(cur).loops@ == old(cur).loops@,
        final(cur).depth == old(cur).depth,
        answers(sp_more(view_items(toks@), pstate(*old(cur), *old(f))), r, *final(cur), *final(f)),
        r is Ok ==> grew(toks@.len() as int, *old(cur), *old(f), *final(cur), *final(f), 0),
    decreases toks@.len() + 2 - old(cur).pos, 0int,
{
    if cur.pos > toks.len() + 1 {
        return Err(Stop::Unsupported((cur.loc.0, cur.loc.1)));
    }
    let p0 = cur.pos;
    let comma = match item(toks, cur.pos) {
        Ok((Token::Comma, _)) => true,
        Ok(_) => false,
        Err(e) => {
            return Err(Stop::Error(e));
        },
    };
    if !comma {
        return Ok(());
    }
    cur.pos = cur.pos + 1;
    cur.count = cur.count + 1;
    match pp(toks, cur, f, 1) {
        Err(x) => {
            return Err(x);
        },
        Ok(()) => {},
    }
    if !(p0 < cur.pos && cur.pos <= toks.len() + 2) {
        return Err(Stop::Unsupported((cur.loc.0, cur.loc.1)));
    }
    more(toks, cur, f)
}

/// The prefix rule `pf` of the current token (see [`sp_prefix`]).
fn prefix(toks: &Vec<Item>, cur: &mut Cursor, f: &mut Chunk, pf: ParseFn, can_assign: bool) -> (r: Result<(), Stop>)
    requires
        room(toks@.len() as int, *old(cur), *old(f), 1),
    ensures
        final(cur).loops@ == old(cur).loops@,
        final(cur).depth == old(cur).depth,
        answers(sp_prefix(view_items(toks@), pstate(*old(cur), *old(f)), pf, can_assign), r, *final(cur), *final(f)),
        r is Ok ==> grew(toks@.len() as int, *old(cur), *old(f), *final(cur), *final(f), 1),
    decreases toks@.len() + 2 - old(cur).pos, 2int,
{
    let t = match &cur.cur {
        Ok((t, _)) => t.clone(),
        Err(e) => {
            return Err(Stop::Error(e.clone()));
        },
    };
    let loc = (cur.loc.0, cur.loc.1);
    match pf {
        ParseFn::Void => Ok(()),
        ParseFn::Integer => match t {
            Token::Integer(i) => {
                f.write_value(Value::Integer(i), loc);
                Ok(())
            },
            _ => Err(Stop::Unsupported(loc)),
        },
        ParseFn::StringConstant => match t {
            Token::StringLiteral(x) => {
                f.write_value(Value::String(x), loc);
                Ok(())
            },
            _ => Err(Stop::Unsupported(loc)),
        },
        ParseFn::Literal => match t {
            Token::Nil => {
                f.write_code(OpCode::NIL, loc);
                Ok(())
            },
            Token::True => {
                f.write_code(OpCode::TRUE, loc);
                Ok(())
            },
            Token::False => {
                f.write_code(OpCode::FALSE, loc);
                Ok(())
            },
            _ => Err(Stop::Unsupported(loc)),
        },
        ParseFn::Unary => {
            let code = match t {
                Token::Op(Operator::Tilde) => {
                    return Err(Stop::Unsupported(loc));
                },
                Token::Op(Operator::Sub) => Some(OpCode::NEGATE),
                Token::Op(Operator::Not) => Some(OpCode::NOT),
                Token::Op(Operator::Length) => Some(OpCode::LENGTH),
                _ => None,
            };
            match pp(toks, cur, f, 13) {
                Err(x) => {
                    return Err(x);
                },
                Ok(()) => {},
            }
            match code {
                Some(op) => {
                    let l2 = (cur.loc.0, cur.loc.1);
                    f.write_code(op, l2);
                },
                None => {},
            }
            Ok(())
        },
        ParseFn::Grouping => {
            match expression(toks, cur, f) {
                Err(x) => {
                    return Err(x);
                },
                Ok(()) => {},
            }
            match item(toks, cur.pos) {
                Err(e) => Err(Stop::Error(e)),
                Ok((Token::CloseParen, _)) => {
                    cur.pos = cur.pos + 1;
                    Ok(())
                },
                Ok(_) => Err(Stop::Error(ErrorTuple {
                    code: SiltError::UnterminatedParenthesis(loc.0, loc.1),
                    location: (cur.loc.0, cur.loc.1),
                })),
            }
        },
        ParseFn::Variable => match t {
            Token::Identifier(name) => {
                let (left_out, assign) = match item(toks, cur.pos) {
                    Err(e) => {
                        return Err(Stop::Error(e));
                    },
                    Ok((Token::Comma, _)) => (cur.multi, false),
                    Ok((Token::OpenBracket, _)) | Ok((Token::Dot, _)) | Ok((Token::Colon, _)) => (true, false),
                    Ok((Token::Assign, _)) => (false, can_assign),
                    Ok((Token::Op(Operator::ColonEquals), _)) => (cur.depth > 0, false),
                    Ok(_) => (false, false),
                };
                if left_out {
                    return Err(Stop::Unsupported(loc));
                }
                if assign {
                    if cur.pos >= 1 && cur.pos - 1 == cur.start {
                        return assign_global(toks, cur, f, name);
                    }
                    return Err(Stop::Unsupported(loc));
                }
                let ghost before = f.spec_constants();
                let ghost id = name@;
                let i = f.write_identifier(name);
                proof {
                    lemma_ident_from(before, id, i, f.spec_constants(), 0);
                }
                f.write_code(OpCode::GET_GLOBAL { constant: i as u8 }, loc);
                Ok(())
            },
            _ => Err(Stop::Unsupported(loc)),
        },
        _ => Err(Stop::Unsupported(loc)),
    }
}

/// `name = expression` for the global that starts the statement (see
/// [`sp_assign`]).
fn assign_global(toks: &Vec<Item>, cur: &mut Cursor, f: &mut Chunk, name: String) -> (r: Result<(), Stop>)
    requires
        room(toks@.len() as int, *old(cur), *old(f), 1),
    ensures
        final(cur).loops@ == old(cur).loops@,
        final(cur).depth == old(cur).depth,
        answers(sp_assign(view_items(toks@), pstate(*old(cur), *old(f)), name@), r, *final(cur), *final(f)),
        r is Ok ==> grew(toks@.len() as int, *old(cur), *old(f), *final(cur), *final(f), 1),
    decreases toks@.len() + 2 - old(cur).pos, 1int,
{
    let ghost before = f.spec_constants();
    let ghost id = name@;
    let i = f.write_identifier(name);
    proof {
        lemma_ident_from(before, id, i, f.spec_constants(), 0);
    }
    if cur.pos > toks.len() + 1 {
        return Err(Stop::Unsupported((cur.loc.0, cur.loc.1)));
    }
    cur.pos = cur.pos + 1;
    cur.count = 1;
    cur.over = true;
    cur.multi = false;
    match expression(toks, cur, f) {
        Err(x) => {
            return Err(x);
        },
        Ok(()) => {},
    }
    cur.multi = true;
    let l = (cur.loc.0, cur.loc.1);
    if cur.count > 1 {
        f.write_code(OpCode::POPS((cur.count - 1) as u8), l);
    }
    f.write_code(OpCode::SET_GLOBAL { constant: i as u8 }, l);
    f.write_code(OpCode::POP, l);
    Ok(())
}

/// The infix rule `inf` of the operator `t` just read (see [`sp_infix`]).
fn infix(toks: &Vec<Item>, cur: &mut Cursor, f: &mut Chunk, t: Token, inf: ParseFn) -> (r: Result<(), Stop>)
    requires
        room(toks@.len() as int, *old(cur), *old(f), 1),
    ensures
        final(cur).loops@ == old(cur).loops@,
        final(cur).depth == old(cur).depth,
        answers(sp_infix(view_items(toks@), pstate(*old(cur), *old(f)), t@, inf), r, *final(cur), *final(f)),
        r is Ok ==> grew(toks@.len() as int, *old(cur), *old(f), *final(cur), *final(f), 1),
    decreases toks@.len() + 2 - old(cur).pos, 2int,
{
    let loc = (cur.loc.0, cur.loc.1);
    match inf {
        ParseFn::Void => Ok(()),
        ParseFn::Binary | ParseFn::Concat => {
            let code = match t {
                Token::Op(Operator::Add) => OpCode::ADD,
                Token::Op(Operator::Sub) => OpCode::SUB,
                Token::Op(Operator::Multiply) => OpCode::MULTIPLY,
                Token::Op(Operator::Divide) => OpCode::DIVIDE,
                Token::Op(Operator::Concat) => OpCode::CONCAT,
                Token::Op(Operator::Equal) => OpCode::EQUAL,
                Token::Op(Operator::NotEqual) => OpCode::NOT_EQUAL,
                Token::Op(Operator::Less) => OpCode::LESS,
                Token::Op(Operator::LessEqual) => OpCode::LESS_EQUAL,
                Token::Op(Operator::Greater) => OpCode::GREATER,
                Token::Op(Operator::GreaterEqual) => OpCode::GREATER_EQUAL,
                _ => {
                    return Err(Stop::Unsupported(loc));
                },
            };
            let rule = crate::compiler::Compiler::get_rule(&t);
            let rk = rule.precedence.rank();
            let next = if rk < 16 { rk + 1 } else { 16 };
            match pp(toks, cur, f, next) {
                Err(x) => {
                    return Err(x);
                },
                Ok(()) => {},
            }
            f.write_code(code, loc);
            Ok(())
        },
        ParseFn::And | ParseFn::Or => {
            let is_and = match inf {
                ParseFn::And => true,
                _ => false,
            };
            let jump = if is_and { OpCode::GOTO_IF_FALSE(0) } else { OpCode::GOTO_IF_TRUE(0) };
            let idx = f.write_code(jump, loc);
            f.write_code(OpCode::POP, loc);
            match pp(toks, cur, f, if is_and { 3 } else { 2 }) {
                Err(x) => {
                    return Err(x);
                },
                Ok(()) => {},
            }
            patch(cur, f, idx)
        },
        _ => Err(Stop::Unsupported(loc)),
    }
}

/// Lexes all of `source` into items.
fn lex_items(source: &str) -> (r: Vec<Item>)
    requires
        source@.len() + 4 < usize::MAX,
    ensures
        view_items(r@) == sp_items(start_lexer(source@), source@),
        r@.len() <= source@.len() + 2,
{
    let mut lx = Lexer::new(source);
    let mut items: Vec<Item> = Vec::new();
    let ghost s0 = lx@;
    assert(s0 == start_lexer(source@));
    loop
        invariant_except_break
            sp_items(s0, source@) == view_items(items@) + sp_items(lx@, source@),
        invariant
            lexer_wf(lx@),
            lx@.source == source@,
            lx@.current <= source@.len() + 2,
            items@.len() <= lx@.current,
        ensures
            sp_items(s0, source@) == view_items(items@),
            items@.len() <= source@.len() + 2,
        decreases source@.len() + 2 - lx@.current,
    {
        let ghost before = lx@;
        let ghost pre = view_items(items@);
        let next = lx.next();
        match next {
            None => {
                assert(sp_items(before, source@) =~= Seq::<ItemView>::empty());
                assert(pre + Seq::<ItemView>::empty() =~= pre);
                break;
            },
            Some(res) => {
                let x: Item = match res {
                    Ok((t, tri)) => Ok((t, (tri.line, tri.col))),
                    Err(e) => Err(e),
                };
                let ghost xv = item_view(x);
                items.push(x);
                assert(view_items(items@) =~= pre.push(xv));
                assert(pre + (seq![xv] + sp_items(lx@, source@)) =~= pre.push(xv) + sp_items(lx@, source@));
            },
        }
    }
    items
}

/// Whether `x` is a comment token.
fn is_comment(x: &Item) -> (b: bool)
    ensures
        b == (item_view(*x) matches Ok((TokenView::Comment, _))),
{
    match x {
        Ok((Token::Comment, _)) => true,
        _ => false,
    }
}

/// Room for what the rest of a stream of `len` items can write, counted
/// per statement.
pub open spec fn room_s(len: int, c: Cursor, f: Chunk) -> bool {
    &&& len + 4 < usize::MAX
    &&& c.pos <= len + 2
    &&& c.count <= c.pos + 1
    &&& c.depth <= c.pos
    &&& loops_ok(c, f)
    &&& f.spec_locations().len() == f.spec_code().len()
    &&& f.spec_code().len() + 4 * (len + 2 - c.pos) + 8 < usize::MAX
    &&& f.spec_constants().len() + (len + 2 - c.pos) + 2 < usize::MAX
}

/// From `(c0, f0)` to `(c1, f1)` statements were read: the cursor moved,
/// and the chunk grew by at most four instructions and one constant per item.
pub open spec fn grew_s(len: int, c0: Cursor, f0: Chunk, c1: Cursor, f1: Chunk) -> bool {
    &&& c0.pos <= c1.pos <= len + 2
    &&& c1.count <= c1.pos + 1
    &&& f1.spec_locations().len() == f1.spec_code().len()
    &&& f0.spec_code().len() <= f1.spec_code().len()
    &&& f1.spec_code().len() <= f0.spec_code().len() + 4 * (c1.pos - c0.pos)
    &&& c1.loops@.len() == c0.loops@.len()
    &&& loops_ok(c1, f1)
    &&& f1.spec_constants().len() <= f0.spec_constants().len() + (c1.pos - c0.pos)
}

/// `return` with no value or one value (see [`sp_statement`]); `c` is the
/// keyword's place.
fn return_statement(toks: &Vec<Item>, cur: &mut Cursor, f: &mut Chunk, c: TokenCell) -> (r: Result<(), Stop>)
    requires
        room_s(toks@.len() as int, *old(cur), *old(f)),
        old(cur).pos < toks@.len(),
        old(cur).count == 1,
        old(cur).multi,
        old(cur).start == old(cur).pos,
        view_items(toks@)[old(cur).pos as int] matches Ok((TokenView::Return, c2)) && c2 == c,
    ensures
        final(cur).depth == old(cur).depth,
        answers(sp_statement(view_items(toks@), pstate(*old(cur), *old(f))), r, *final(cur), *final(f)),
        r is Ok ==> grew_s(toks@.len() as int, *old(cur), *old(f), *final(cur), *final(f)),
        r is Ok ==> old(cur).pos < final(cur).pos,
{
    cur.pos = cur.pos + 1;
    cur.multi = false;
    let nil = match item(toks, cur.pos) {
        Err(e) => {
            return Err(Stop::Error(e));
        },
        Ok((Token::End, _)) | Ok((Token::Else, _)) | Ok((Token::ElseIf, _)) | Ok((Token::SemiColon, _))
            | Ok((Token::EOF, _)) => true,
        Ok(_) => false,
    };
    if nil {
        let l = (cur.loc.0, cur.loc.1);
        f.write_code(OpCode::NIL, l);
    } else {
        match expression(toks, cur, f) {
            Err(x) => {
                return Err(x);
            },
            Ok(()) => {},
        }
    }
    if cur.count > 1 {
        return Err(Stop::Unsupported(c));
    }
    cur.multi = true;
    let l = (cur.loc.0, cur.loc.1);
    f.write_code(OpCode::RETURN, l);
    Ok(())
}

/// From `(c0, f0)` to `(c1, f1)` a compound statement was read: as for
/// [`grew_s`], with its first item writing nothing.
pub open spec fn grew_c(len: int, c0: Cursor, f0: Chunk, c1: Cursor, f1: Chunk) -> bool {
    &&& grew_s(len, c0, f0, c1, f1)
    &&& f1.spec_code().len() + 4 <= f0.spec_code().len() + 4 * (c1.pos - c0.pos)
    &&& f1.spec_constants().len() + 1 <= f0.spec_constants().len() + (c1.pos - c0.pos)
}

/// Whether `t` is the keyword `k`, one of `then`, `do` and `end`.
fn is_keyword(t: &Token, k: &Token) -> (b: bool)
    requires
        k@ is Then || k@ is Do || k@ is End,
    ensures
        b == (t@ == k@),
{
    match (t, k) {
        (Token::Then, Token::Then) => true,
        (Token::Do, Token::Do) => true,
        (Token::End, Token::End) => true,
        _ => false,
    }
}

/// Reads the keyword `k` if it is next, else the error that it was expected
/// (see [`sp_expect`]).
fn expect(toks: &Vec<Item>, cur: &mut Cursor, f: &Chunk, k: Token) -> (r: Result<(), Stop>)
    requires
        old(cur).pos + 1 < usize::MAX,
        k@ is Then || k@ is Do || k@ is End,
    ensures
        answers(sp_expect(view_items(toks@), pstate(*old(cur), *f), k@, SiltErrorView::ExpectedToken(k@)), r, *final(cur), *f),
        final(cur).depth == old(cur).depth,
        final(cur).loops@ == old(cur).loops@,
        r is Ok ==> final(cur).pos == old(cur).pos + 1,
{
    match item(toks, cur.pos) {
        Err(e) => Err(Stop::Error(e)),
        Ok((t, _)) => if is_keyword(&t, &k) {
            cur.pos = cur.pos + 1;
            Ok(())
        } else {
            Err(Stop::Error(ErrorTuple { code: SiltError::ExpectedToken(k), location: (cur.loc.0, cur.loc.1) }))
        },
    }
}

/// A declaration inside a block (see [`sp_declaration`]).
fn declaration(toks: &Vec<Item>, cur: &mut Cursor, f: &mut Chunk) -> (r: Result<(), Stop>)
    requires
        room_s(toks@.len() as int, *old(cur), *old(f)),
    ensures
        final(cur).depth == old(cur).depth,
        answers(sp_declaration(view_items(toks@), pstate(*old(cur), *old(f))), r, *final(cur), *final(f)),
        r is Ok ==> grew_s(toks@.len() as int, *old(cur), *old(f), *final(cur), *final(f)),
        r is Ok ==> old(cur).pos < final(cur).pos,
    decreases toks@.len() + 2 - old(cur).pos, 3int,
{
    match item(toks, cur.pos) {
        Err(e) => Err(Stop::Error(e)),
        Ok((Token::Comment, _)) => {
            cur.pos = cur.pos + 1;
            Ok(())
        },
        Ok(_) => statement(toks, cur, f),
    }
}

/// Declarations up to the end of a block (see [`sp_block`]).
fn block(toks: &Vec<Item>, cur: &mut Cursor, f: &mut Chunk, branches: bool, eat: bool, until: bool) -> (r: Result<(), Stop>)
    requires
        room_s(toks@.len() as int, *old(cur), *old(f)),
    ensures
        final(cur).depth == old(cur).depth,
        answers(sp_block(view_items(toks@), pstate(*old(cur), *old(f)), branches, eat, until), r, *final(cur), *final(f)),
        r is Ok ==> grew_s(toks@.len() as int, *old(cur), *old(f), *final(cur), *final(f)),
        r is Ok && eat ==> grew_c(toks@.len() as int, *old(cur), *old(f), *final(cur), *final(f)),
    decreases toks@.len() + 2 - old(cur).pos, 4int,
{
    if cur.pos > toks.len() + 1 {
        return Err(Stop::Unsupported((cur.loc.0, cur.loc.1)));
    }
    let t = match item(toks, cur.pos) {
        Err(e) => {
            return Err(Stop::Error(e));
        },
        Ok((t, _)) => t,
    };
    let (stop, eof) = match t {
        Token::Until => (until, false),
        Token::End => (!until, false),
        Token::Else | Token::ElseIf => (!until && branches, false),
        Token::EOF => (false, true),
        _ => (false, false),
    };
    if stop {
        if eat {
            cur.pos = cur.pos + 1;
        }
        return Ok(());
    }
    if eof {
        return Err(Stop::Error(ErrorTuple { code: SiltError::UnterminatedBlock, location: (cur.loc.0, cur.loc.1) }));
    }
    let p0 = cur.pos;
    match declaration(toks, cur, f) {
        Err(x) => {
            return Err(x);
        },
        Ok(()) => {},
    }
    if !(p0 < cur.pos && cur.pos <= toks.len() + 2) {
        return Err(Stop::Unsupported((cur.loc.0, cur.loc.1)));
    }
    block(toks, cur, f, branches, eat, until)
}

/// A block in a scope of its own (see [`sp_scoped`]).
fn scoped(toks: &Vec<Item>, cur: &mut Cursor, f: &mut Chunk, branches: bool, eat: bool) -> (r: Result<(), Stop>)
    requires
        room_s(toks@.len() as int, *old(cur), *old(f)),
        old(cur).depth < old(cur).pos,
    ensures
        final(cur).depth == old(cur).depth,
        answers(sp_scoped(view_items(toks@), pstate(*old(cur), *old(f)), branches, eat), r, *final(cur), *final(f)),
        r is Ok ==> grew_s(toks@.len() as int, *old(cur), *old(f), *final(cur), *final(f)),
    decreases toks@.len() + 2 - old(cur).pos, 5int,
{
    let d = cur.depth;
    cur.depth = d + 1;
    let r = block(toks, cur, f, branches, eat, false);
    cur.depth = d;
    r
}

/// `if` with its `elseif` and `else` branches (see [`sp_if`]).
#[verifier::rlimit(40)]
fn if_statement(toks: &Vec<Item>, cur: &mut Cursor, f: &mut Chunk) -> (r: Result<(), Stop>)
    requires
        room_s(toks@.len() as int, *old(cur), *old(f)),
    ensures
        final(cur).depth == old(cur).depth,
        answers(sp_if(view_items(toks@), pstate(*old(cur), *old(f))), r, *final(cur), *final(f)),
        r is Ok ==> grew_c(toks@.len() as int, *old(cur), *old(f), *final(cur), *final(f)),
        r is Ok ==> old(cur).pos < final(cur).pos,
    decreases toks@.len() + 2 - old(cur).pos, 1int,
{
    if cur.pos > toks.len() + 1 {
        return Err(Stop::Unsupported((cur.loc.0, cur.loc.1)));
    }
    let ghost len = toks@.len() as int;
    let ghost c0 = *cur;
    let ghost f0 = *f;
    let p0 = cur.pos;
    cur.pos = cur.pos + 1;
    match expression(toks, cur, f) {
        Err(x) => {
            return Err(x);
        },
        Ok(()) => {},
    }
    let ghost f1 = *f;
    let ghost c1 = *cur;
    assert(f1.spec_code().len() <= f0.spec_code().len() + 3 * (c1.pos - c0.pos - 1));
    match expect(toks, cur, f, Token::Then) {
        Err(x) => {
            return Err(x);
        },
        Ok(()) => {},
    }
    let l = (cur.loc.0, cur.loc.1);
    let skip_if = f.write_code(OpCode::POP_AND_GOTO_IF_FALSE(0), l);
    if !(p0 < cur.pos && cur.pos <= toks.len() + 2) {
        return Err(Stop::Unsupported((cur.loc.0, cur.loc.1)));
    }
    let ghost f3 = *f;
    let ghost c3 = *cur;
    proof {
        lemma_loops_kept(c0, f0, c3, f3);
    }
    assert(room_s(len, c3, f3));
    match scoped(toks, cur, f, true, false) {
        Err(x) => {
            return Err(x);
        },
        Ok(()) => {},
    }
    if !(p0 < cur.pos && cur.pos <= toks.len() + 2) {
        return Err(Stop::Unsupported((cur.loc.0, cur.loc.1)));
    }
    let ghost f4 = *f;
    let ghost c4 = *cur;
    assert(f4.spec_code().len() + 5 <= f0.spec_code().len() + 4 * (c4.pos - c0.pos));
    assert(room_s(len, c4, f4));
    if_rest(toks, cur, f, skip_if)
}

/// What follows an `if` branch's block (see [`sp_if_rest`]).
#[verifier::rlimit(40)]
fn if_rest(toks: &Vec<Item>, cur: &mut Cursor, f: &mut Chunk, skip_if: usize) -> (r: Result<(), Stop>)
    requires
        room_s(toks@.len() as int, *old(cur), *old(f)),
        old(f).spec_code().len() + 4 * (toks@.len() + 2 - old(cur).pos) + 13 < usize::MAX,
        skip_if < old(f).spec_code().len(),
    ensures
        final(cur).depth == old(cur).depth,
        answers(sp_if_rest(view_items(toks@), pstate(*old(cur), *old(f)), skip_if as int), r, *final(cur), *final(f)),
        r is Ok ==> grew_s(toks@.len() as int, *old(cur), *old(f), *final(cur), *final(f)),
        r is Ok ==> final(f).spec_code().len() + 3 <= old(f).spec_code().len() + 4 * (final(cur).pos - old(cur).pos),
        r is Ok ==> old(cur).pos < final(cur).pos,
    decreases toks@.len() + 2 - old(cur).pos, 2int,
{
    let ghost c0 = *cur;
    let ghost f0 = *f;
    let t = match item(toks, cur.pos) {
        Err(e) => {
            return Err(Stop::Error(e));
        },
        Ok((t, _)) => t,
    };
    match t {
        Token::Else => {
            cur.pos = cur.pos + 1;
            let l2 = (cur.loc.0, cur.loc.1);
            let skip_else = f.write_code(OpCode::FORWARD(0), l2);
            match patch(cur, f, skip_if) {
                Err(x) => {
                    return Err(x);
                },
                Ok(()) => {},
            }
            proof {
                lemma_loops_kept(c0, f0, *cur, *f);
            }
            match scoped(toks, cur, f, false, false) {
                Err(x) => {
                    return Err(x);
                },
                Ok(()) => {},
            }
            let ghost c5 = *cur;
            let ghost f5 = *f;
            match patch(cur, f, skip_else) {
                Err(x) => {
                    return Err(x);
                },
                Ok(()) => {},
            }
            let r = expect(toks, cur, f, Token::End);
            proof {
                lemma_loops_kept(c5, f5, *cur, *f);
            }
            r
        },
        Token::ElseIf => {
            let l2 = (cur.loc.0, cur.loc.1);
            let skip_chain = f.write_code(OpCode::FORWARD(0), l2);
            match patch(cur, f, skip_if) {
                Err(x) => {
                    return Err(x);
                },
                Ok(()) => {},
            }
            proof {
                lemma_loops_kept(c0, f0, *cur, *f);
            }
            match if_statement(toks, cur, f) {
                Err(x) => {
                    return Err(x);
                },
                Ok(()) => {},
            }
            let ghost c5 = *cur;
            let ghost f5 = *f;
            let r = patch(cur, f, skip_chain);
            proof {
                lemma_loops_kept(c5, f5, *cur, *f);
            }
            r
        },
        _ => {
            match patch(cur, f, skip_if) {
                Err(x) => {
                    return Err(x);
                },
                Ok(()) => {},
            }
            let r = expect(toks, cur, f, Token::End);
            proof {
                lemma_loops_kept(c0, f0, *cur, *f);
            }
            r
        },
    }
}

/// Records `idx` as a `break` of the innermost loop.
fn add_break(loops: &mut Vec<Vec<usize>>, idx: usize)
    requires
        old(loops)@.len() > 0,
    ensures
        loops_view(final(loops)@) == loops_view(old(loops)@).update(old(loops)@.len() - 1, old(loops)@.last()@.push(idx)),
        final(loops)@.len() == old(loops)@.len(),
        forall|i: int| 0 <= i < old(loops)@.len() - 1 ==> final(loops)@[i] == old(loops)@[i],
        final(loops)@.last()@ == old(loops)@.last()@.push(idx),
{
    let ghost before = loops@;
    let mut last = loops.pop().unwrap();
    last.push(idx);
    loops.push(last);
    assert(loops_view(loops@) =~= loops_view(before).update(before.len() - 1, before.last()@.push(idx)));
}

/// Opens a loop with no `break` yet.
fn begin_loop(loops: &mut Vec<Vec<usize>>)
    ensures
        loops_view(final(loops)@) == loops_view(old(loops)@).push(Seq::empty()),
        final(loops)@ == old(loops)@.push(final(loops)@.last()),
        final(loops)@.last()@.len() == 0,
{
    let ghost before = loops@;
    loops.push(Vec::new());
    assert(loops_view(loops@) =~= loops_view(before).push(Seq::empty()));
}

/// Closes the innermost loop (see [`sp_end_loop`]).
fn end_loop(cur: &mut Cursor, f: &mut Chunk) -> (r: Result<(), Stop>)
    requires
        loops_ok(*old(cur), *old(f)),
    ensures
        answers(sp_end_loop(pstate(*old(cur), *old(f))), r, *final(cur), *final(f)),
        final(cur).depth == old(cur).depth,
        final(cur).pos == old(cur).pos,
        final(cur).count == old(cur).count,
        r is Ok ==> final(cur).loops@ == old(cur).loops@.drop_last(),
        r is Ok ==> loops_ok(*final(cur), *final(f)),
        final(f).spec_code().len() == old(f).spec_code().len(),
        final(f).spec_constants() == old(f).spec_constants(),
        r is Ok ==> final(f).spec_locations() == old(f).spec_locations(),
{
    let ghost c0 = *cur;
    let ghost s0 = pstate(*cur, *f);
    let list = match cur.loops.pop() {
        None => {
            return Err(Stop::Unsupported((cur.loc.0, cur.loc.1)));
        },
        Some(l) => l,
    };
    assert(loops_view(cur.loops@) =~= loops_view(c0.loops@).drop_last());
    let ghost p0 = pstate(*cur, *f);
    assert(p0 == PState { loops: s0.loops.drop_last(), ..s0 });
    assert(list@ == s0.loops.last());
    assert(s0.loops.len() > 0);
    assert forall|j: int| 0 <= j < list@.len() implies list@[j] < f.spec_code().len() by {
        assert(c0.loops@[c0.loops@.len() - 1]@[j] < f.spec_code().len());
    }
    let mut k: usize = 0;
    while k < list.len()
        invariant
            0 <= k <= list@.len(),
            c0 == *old(cur),
            s0 == pstate(*old(cur), *old(f)),
            s0.loops.len() > 0,
            list@ == s0.loops.last(),
            p0 == (PState { loops: s0.loops.drop_last(), ..s0 }),
            cur.loops@ == c0.loops@.drop_last(),
            cur.depth == c0.depth,
            cur.pos == c0.pos,
            cur.count == c0.count,
            sp_patch_all(p0, list@, 0) == sp_patch_all(pstate(*cur, *f), list@, k as int),
            forall|j: int| 0 <= j < list@.len() ==> list@[j] < f.spec_code().len(),
            f.spec_code().len() == old(f).spec_code().len(),
            f.spec_constants() == old(f).spec_constants(),
            f.spec_locations() == old(f).spec_locations(),
            forall|i: int, j: int| 0 <= i < cur.loops@.len() && 0 <= j < cur.loops@[i]@.len() ==> #[trigger] cur.loops@[i]@[j] < f.spec_code().len(),
        decreases list@.len() - k,
    {
        let idx = list[k];
        match patch(cur, f, idx) {
            Err(x) => {
                return Err(x);
            },
            Ok(()) => {},
        }
        k = k + 1;
    }
    Ok(())
}

/// `while` (see [`sp_while`]).
#[verifier::rlimit(40)]
fn while_statement(toks: &Vec<Item>, cur: &mut Cursor, f: &mut Chunk) -> (r: Result<(), Stop>)
    requires
        room_s(toks@.len() as int, *old(cur), *old(f)),
    ensures
        final(cur).depth == old(cur).depth,
        answers(sp_while(view_items(toks@), pstate(*old(cur), *old(f))), r, *final(cur), *final(f)),
        r is Ok ==> grew_c(toks@.len() as int, *old(cur), *old(f), *final(cur), *final(f)),
        r is Ok ==> old(cur).pos < final(cur).pos,
    decreases toks@.len() + 2 - old(cur).pos, 1int,
{
    if cur.pos > toks.len() + 1 {
        return Err(Stop::Unsupported((cur.loc.0, cur.loc.1)));
    }
    proof {
        Chunk::lemma_code_view(f);
    }
    let loop_start = f.code.len();
    let ghost len = toks@.len() as int;
    let ghost c0 = *cur;
    let ghost f0 = *f;
    let p0 = cur.pos;
    cur.pos = cur.pos + 1;
    match expression(toks, cur, f) {
        Err(x) => {
            return Err(x);
        },
        Ok(()) => {},
    }
    match expect(toks, cur, f, Token::Do) {
        Err(x) => {
            return Err(x);
        },
        Ok(()) => {},
    }
    let l = (cur.loc.0, cur.loc.1);
    let exit = f.write_code(OpCode::POP_AND_GOTO_IF_FALSE(0), l);
    if !(p0 < cur.pos && cur.pos <= toks.len() + 2) {
        return Err(Stop::Unsupported((cur.loc.0, cur.loc.1)));
    }
    let ghost f3 = *f;
    let ghost c3 = *cur;
    assert(f3.spec_code().len() <= f0.spec_code().len() + 3 * (c3.pos - c0.pos - 2) + 1);
    proof {
        lemma_loops_kept(c0, f0, c3, f3);
    }
    assert(room_s(len, c3, f3));
    begin_loop(&mut cur.loops);
    match scoped(toks, cur, f, false, true) {
        Err(x) => {
            return Err(x);
        },
        Ok(()) => {},
    }
    let ghost f4 = *f;
    let ghost c4 = *cur;
    assert(exit < f4.spec_code().len());
    assert(f4.spec_code().len() + 6 <= f0.spec_code().len() + 4 * (c4.pos - c0.pos));
    proof {
        Chunk::lemma_code_view(f);
    }
    let jump = f.code.len() + 1 - loop_start;
    if jump > 65535 {
        return Err(Stop::Unsupported((cur.loc.0, cur.loc.1)));
    }
    let l2 = (cur.loc.0, cur.loc.1);
    f.write_code(OpCode::REWIND(jump as u16), l2);
    match patch(cur, f, exit) {
        Err(x) => {
            return Err(x);
        },
        Ok(()) => {},
    }
    end_loop(cur, f)
}

/// `repeat` (see [`sp_repeat`]).
#[verifier::rlimit(40)]
fn repeat_statement(toks: &Vec<Item>, cur: &mut Cursor, f: &mut Chunk) -> (r: Result<(), Stop>)
    requires
        room_s(toks@.len() as int, *old(cur), *old(f)),
    ensures
        final(cur).depth == old(cur).depth,
        answers(sp_repeat(view_items(toks@), pstate(*old(cur), *old(f))), r, *final(cur), *final(f)),
        r is Ok ==> grew_c(toks@.len() as int, *old(cur), *old(f), *final(cur), *final(f)),
        r is Ok ==> old(cur).pos < final(cur).pos,
    decreases toks@.len() + 2 - old(cur).pos, 1int,
{
    if cur.pos > toks.len() + 1 {
        return Err(Stop::Unsupported((cur.loc.0, cur.loc.1)));
    }
    proof {
        Chunk::lemma_code_view(f);
    }
    let loop_start = f.code.len();
    let ghost c0 = *cur;
    let ghost f0 = *f;
    let d = cur.depth;
    let p0 = cur.pos;
    cur.pos = cur.pos + 1;
    cur.depth = d + 1;
    begin_loop(&mut cur.loops);
    match block(toks, cur, f, false, true, true) {
        Err(x) => {
            cur.depth = d;
            return Err(x);
        },
        Ok(()) => {},
    }
    if !(p0 < cur.pos && cur.pos <= toks.len() + 2) {
        cur.depth = d;
        return Err(Stop::Unsupported((cur.loc.0, cur.loc.1)));
    }
    let ghost c2 = *cur;
    let ghost f2 = *f;
    assert(f2.spec_code().len() + 4 <= f0.spec_code().len() + 4 * (c2.pos - c0.pos - 1));
    match expression(toks, cur, f) {
        Err(x) => {
            cur.depth = d;
            return Err(x);
        },
        Ok(()) => {},
    }
    let ghost f3 = *f;
    let ghost c3 = *cur;
    assert(f3.spec_code().len() + 4 <= f0.spec_code().len() + 4 * (c3.pos - c0.pos - 1));
    let l = (cur.loc.0, cur.loc.1);
    let exit = f.write_code(OpCode::GOTO_IF_TRUE(0), l);
    f.write_code(OpCode::POP, l);
    proof {
        Chunk::lemma_code_view(f);
    }
    let jump = f.code.len() + 1 - loop_start;
    if jump > 65535 {
        cur.depth = d;
        return Err(Stop::Unsupported((cur.loc.0, cur.loc.1)));
    }
    f.write_code(OpCode::REWIND(jump as u16), l);
    match patch(cur, f, exit) {
        Err(x) => {
            cur.depth = d;
            return Err(x);
        },
        Ok(()) => {},
    }
    let l2 = (cur.loc.0, cur.loc.1);
    f.write_code(OpCode::POP, l2);
    match end_loop(cur, f) {
        Err(x) => {
            cur.depth = d;
            return Err(x);
        },
        Ok(()) => {},
    }
    cur.depth = d;
    Ok(())
}

/// Recorded jumps stay instructions of a chunk that grew.
proof fn lemma_loops_kept(c0: Cursor, f0: Chunk, c1: Cursor, f1: Chunk)
    requires
        loops_ok(c0, f0),
        c1.loops@ == c0.loops@,
        f0.spec_code().len() <= f1.spec_code().len(),
    ensures
        loops_ok(c1, f1),
{
    assert forall|i: int, j: int| 0 <= i < c1.loops@.len() && 0 <= j < c1.loops@[i]@.len() implies #[trigger] c1.loops@[i]@[j] < f1.spec_code().len() by {
        assert(c0.loops@[i]@[j] < f0.spec_code().len());
    }
}

/// `break` (see [`sp_break`]).
fn break_statement(cur: &mut Cursor, f: &mut Chunk) -> (r: Result<(), Stop>)
    requires
        loops_ok(*old(cur), *old(f)),
        old(cur).pos + 1 < usize::MAX,
        old(f).spec_code().len() + 1 < usize::MAX,
        old(f).spec_locations().len() == old(f).spec_code().len(),
    ensures
        answers(sp_break(pstate(*old(cur), *old(f))), r, *final(cur), *final(f)),
        final(cur).depth == old(cur).depth,
        r is Ok ==> final(cur).pos == old(cur).pos + 1,
        r is Ok ==> final(cur).count == old(cur).count,
        r is Ok ==> final(cur).loops@.len() == old(cur).loops@.len(),
        r is Ok ==> loops_ok(*final(cur), *final(f)),
        r is Ok ==> final(f).spec_code().len() == old(f).spec_code().len() + 1,
        r is Ok ==> final(f).spec_locations().len() == final(f).spec_code().len(),
        r is Ok ==> final(f).spec_constants() == old(f).spec_constants(),
{
    if cur.loops.len() == 0 {
        return Err(Stop::Error(ErrorTuple {
            code: SiltError::InvalidTokenPlacement(Token::Break),
            location: (cur.loc.0, cur.loc.1),
        }));
    }
    let ghost c0 = *cur;
    let ghost f0 = *f;
    cur.pos = cur.pos + 1;
    let l = (cur.loc.0, cur.loc.1);
    let idx = f.write_code(OpCode::FORWARD(0), l);
    add_break(&mut cur.loops, idx);
    assert forall|i: int, j: int| 0 <= i < cur.loops@.len() && 0 <= j < cur.loops@[i]@.len() implies #[trigger] cur.loops@[i]@[j] < f.spec_code().len() by {
        if i < cur.loops@.len() - 1 {
            assert(c0.loops@[i]@[j] < f0.spec_code().len());
        } else if j < c0.loops@.last()@.len() {
            assert(c0.loops@[i]@[j] < f0.spec_code().len());
        }
    }
    Ok(())
}

/// One statement (see [`sp_statement`]).
fn statement(toks: &Vec<Item>, cur: &mut Cursor, f: &mut Chunk) -> (r: Result<(), Stop>)
    requires
        room_s(toks@.len() as int, *old(cur), *old(f)),
    ensures
        final(cur).depth == old(cur).depth,
        answers(sp_statement(view_items(toks@), pstate(*old(cur), *old(f))), r, *final(cur), *final(f)),
        r is Ok ==> grew_s(toks@.len() as int, *old(cur), *old(f), *final(cur), *final(f)),
        r is Ok ==> old(cur).pos < final(cur).pos,
    decreases toks@.len() + 2 - old(cur).pos, 2int,
{
    if cur.pos > toks.len() {
        return Err(Stop::Unsupported((cur.loc.0, cur.loc.1)));
    }
    cur.count = 1;
    cur.multi = true;
    cur.start = cur.pos;
    let (t, c) = match item(toks, cur.pos) {
        Err(e) => {
            return Err(Stop::Error(e));
        },
        Ok(x) => x,
    };
    match t {
        Token::Print => {
            cur.pos = cur.pos + 1;
            match expression(toks, cur, f) {
                Err(x) => {
                    return Err(x);
                },
                Ok(()) => {},
            }
            let l = (cur.loc.0, cur.loc.1);
            f.write_code(OpCode::PRINT, l);
            Ok(())
        },
        Token::Return => return_statement(toks, cur, f, c),
        Token::SemiColon => {
            cur.pos = cur.pos + 1;
            Ok(())
        },
        Token::If => if_statement(toks, cur, f),
        Token::While => while_statement(toks, cur, f),
        Token::Repeat => repeat_statement(toks, cur, f),
        Token::Break => break_statement(cur, f),
        Token::Do => {
            cur.pos = cur.pos + 1;
            scoped(toks, cur, f, false, true)
        },
        Token::Local | Token::Global | Token::Function
            | Token::For | Token::ColonColon | Token::Goto => Err(Stop::Unsupported(c)),
        _ => {
            match expression(toks, cur, f) {
                Err(x) => {
                    return Err(x);
                },
                Ok(()) => {},
            }
            if cur.over {
                cur.over = false;
            } else {
                let l = (cur.loc.0, cur.loc.1);
                f.write_code(OpCode::POP, l);
            }
            Ok(())
        },
    }
}

/// The statements to the end of the stream (see [`sp_statements`]).
fn statements(toks: &Vec<Item>, cur: &mut Cursor, f: &mut Chunk) -> (r: Result<(), Stop>)
    requires
        room_s(toks@.len() as int, *old(cur), *old(f)),
    ensures
        answers(sp_statements(view_items(toks@), pstate(*old(cur), *old(f))), r, *final(cur), *final(f)),
        r is Ok ==> grew_s(toks@.len() as int, *old(cur), *old(f), *final(cur), *final(f)),
    decreases toks@.len() + 2 - old(cur).pos,
{
    if cur.pos >= toks.len() {
        return Ok(());
    }
    let comment = match &toks[cur.pos] {
        Err(e) => {
            return Err(Stop::Error(e.clone()));
        },
        Ok((Token::Comment, _)) => true,
        Ok(_) => false,
    };
    if comment {
        cur.pos = cur.pos + 1;
        return statements(toks, cur, f);
    }
    match statement(toks, cur, f) {
        Err(x) => {
            return Err(x);
        },
        Ok(()) => {},
    }
    if cur.pos >= toks.len() {
        return Ok(());
    }
    statements(toks, cur, f)
}

/// Compiles `source` (see [`sp_compile`]): on success the chunk; else the
/// first error, or the place of the first construct this compiler leaves
/// out.
#[verifier::rlimit(60)]
pub fn compile(source: &str) -> (r: Result<Chunk, Stop>)
    requires
        source@.len() < 0x1000_0000,
    ensures
        match sp_compile(source@) {
            Ok((code, consts, locs)) => r matches Ok(c)
                && c.spec_code() == code && c.spec_constants() == consts && c.spec_locations() == locs,
            Err(x) => r matches Err(e) && e@ == x,
        },
{
    let toks = lex_items(source);
    let mut f = Chunk::new();
    let mut cur = Cursor { pos: 0, cur: Ok((Token::EOF, (0, 0))), loc: (0, 0), count: 1, multi: true, over: false, start: 0, depth: 0, loops: Vec::new() };
    assert(loops_ok(cur, f));
    assert(loops_view(cur.loops@) =~= Seq::<Seq<usize>>::empty());
    match statements(&toks, &mut cur, &mut f) {
        Err(x) => {
            return Err(x);
        },
        Ok(()) => {},
    }
    proof {
        Chunk::lemma_code_view(&f);
    }
    let n = f.code.len();
    let last_pop = n > 0 && match f.code[n - 1] {
        OpCode::POP => true,
        _ => false,
    };
    if last_pop {
        f.drop_last();
    }
    f.write_code(OpCode::RETURN, (0, 0));
    Ok(f)
}

/// The machine at the start of a script with instructions `code` and pool
/// `consts`: the script is function 0, in slot 0 of the stack, and nothing
/// else is held.
pub open spec fn script_start(code: Seq<OpCode>, consts: Seq<ValueView>) -> MachineView {
    MachineView {
        vm: VmView { stack: seq![ValueView::Function(0)], ip: 0, base: 0, globals: Map::empty(), tables: Seq::empty() },
        code: seq![code],
        consts: seq![consts],
        closures: Seq::empty(),
        captures: Seq::empty(),
        frames: Seq::empty(),
        function: 0,
        closure: None,
    }
}

/// Compiles `source` and runs it on a new machine for at most `fuel`
/// instructions (see [`compile`] and [`Machine::run`]): the first stop of
/// the compiler, or how the run ended and the machine, which the host can
/// go on with.
pub fn run_source(source: &str, fuel: u64) -> (r: Result<(RunEnd, Machine), Stop>)
    requires
        source@.len() < 0x1000_0000,
    ensures
        match sp_compile(source@) {
            Err(x) => r matches Err(e) && e@ == x,
            Ok((code, consts, _)) => r matches Ok((end, m)) && m.wf()
                && exists|t: Seq<MachineView>| #![trigger next_steps(t)]
                    t.len() >= 1 && t[0] == script_start(code, consts) && next_steps(t) && t.len() - 1 <= fuel
                    && match end {
                        RunEnd::Halted(o) => !(o is Next) && machine_defined(t.last()) && machine_bounded(t.last())
                            && machine_stepped(t.last(), m@, o),
                        RunEnd::Stuck => t.last() == m@ && !(machine_defined(m@) && machine_bounded(m@)),
                        RunEnd::OutOfFuel => t.last() == m@ && t.len() - 1 == fuel,
                    },
        },
{
    let chunk = match compile(source) {
        Err(x) => {
            return Err(x);
        },
        Ok(c) => c,
    };
    let mut m = Machine::new(chunk);
    assert(m@ == script_start(chunk.spec_code(), chunk.spec_constants()));
    let end = m.run(fuel);
    Ok((end, m))
}

} // verus!

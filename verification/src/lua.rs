//! The virtual machine's decisions: Lua's bit shifts, the arithmetic of
//! `+ - *` on two values, one instruction step of a frame (values, globals,
//! jumps, integer and text operations, numeric loops and tables), a machine
//! with call frames that runs calls of closures, returns, and the variables
//! closures capture, and what a hot swap of the source has to redo. What the
//! host finishes itself, such as float arithmetic and native calls, comes
//! back to it as an outcome.

use vstd::prelude::*;
use vstd::string::*;
use crate::error::{first_newline, lemma_first_newline_at, lemma_first_newline_bounds, scan_newline};
use crate::error::{SiltError, SiltErrorView, ValueTypes};
use crate::lexer::{digits_value, is_digit_char};
use crate::text::chars_of;
use crate::userdata::{MetaMethod, WeakWrapper};
use crate::value::{spec_type_of, Value, ValueView};
use crate::chunk::Chunk;
use crate::code::OpCode;
use crate::standard::truthy;
use crate::table::Table;

verus! {

/// Lua's logical left shift on 64 bits: counts of 64 or more give 0, negative
/// counts shift right.
pub open spec fn spec_shl(a: i64, b: i64) -> i64 {
    if b <= -64 || b >= 64 {
        0
    } else if b >= 0 {
        ((a as u64) << (b as u64)) as i64
    } else {
        ((a as u64) >> ((-b) as u64)) as i64
    }
}

/// Lua's logical right shift, the mirror of [`spec_shl`].
pub open spec fn spec_shr(a: i64, b: i64) -> i64 {
    if b <= -64 || b >= 64 {
        0
    } else if b >= 0 {
        ((a as u64) >> (b as u64)) as i64
    } else {
        ((a as u64) << ((-b) as u64)) as i64
    }
}

/// A left shift by a negative count is the right shift by its magnitude, and the
/// other way round.
pub proof fn law_shift_mirror(a: i64, b: i64)
    requires
        b > i64::MIN,
    ensures
        spec_shl(a, b) == spec_shr(a, (-b) as i64),
        spec_shr(a, b) == spec_shl(a, (-b) as i64),
{
    if b == 0 {
        let x = a as u64;
        assert(x << 0u64 == x >> 0u64) by (bit_vector);
    }
}

/// `a << b` as Lua computes it.
pub fn lua_shl(a: i64, b: i64) -> (r: i64)
    ensures
        r == spec_shl(a, b),
{
    if b <= -64 || b >= 64 {
        0
    } else if b >= 0 {
        ((a as u64) << (b as u64)) as i64
    } else {
        ((a as u64) >> ((-b) as u64)) as i64
    }
}

/// `a >> b` as Lua computes it.
pub fn lua_shr(a: i64, b: i64) -> (r: i64)
    ensures
        r == spec_shr(a, b),
{
    if b <= -64 || b >= 64 {
        0
    } else if b >= 0 {
        ((a as u64) >> (b as u64)) as i64
    } else {
        ((a as u64) << ((-b) as u64)) as i64
    }
}

/// An optional operator name as an owned string.
pub fn to_op_string(name: Option<&str>) -> (r: Option<String>)
    ensures
        match name {
            Some(n) => r matches Some(s) && s@ == n@,
            None => r is None,
        },
{
    match name {
        Some(o) => Some(String::from_str(o)),
        None => None,
    }
}

/// Every character of `s` is a decimal digit.
pub open spec fn all_digits(s: Seq<char>) -> bool {
    forall|i: int| 0 <= i < s.len() ==> is_digit_char(#[trigger] s[i])
}

/// What `str::parse::<i64>` gives for `s`: an optional `+` or `-` followed by
/// one or more decimal digits whose value fits in 64 bits; nothing else parses.
pub open spec fn spec_parse_i64(s: Seq<char>) -> Option<int> {
    let signed = s.len() > 0 && (s[0] == '-' || s[0] == '+');
    let ds = if signed { s.drop_first() } else { s };
    if ds.len() == 0 || !all_digits(ds) {
        None
    } else {
        let v = if s[0] == '-' { -digits_value(ds) } else { digits_value(ds) };
        if i64::MIN <= v <= i64::MAX { Some(v) } else { None }
    }
}

/// Parses `s` as a 64-bit integer the way `str::parse::<i64>` does.
pub fn parse_i64(s: &str) -> (r: Option<i64>)
    ensures
        match spec_parse_i64(s@) {
            Some(v) => r == Some(v as i64),
            None => r is None,
        },
{
    let cs = chars_of(s);
    let n = cs.len();
    if n == 0 {
        return None;
    }
    let neg = cs[0] == '-';
    let start: usize = if cs[0] == '-' || cs[0] == '+' { 1 } else { 0 };
    let ghost ds = if start == 1 { cs@.drop_first() } else { cs@ };
    if start == n {
        assert(ds.len() == 0);
        return None;
    }
    let mut acc: i128 = 0;
    let mut big = false;
    let mut i = start;
    while i < n
        invariant
            start <= i <= n,
            n == cs@.len(),
            cs@ == s@,
            start == 1 ==> ds == cs@.drop_first(),
            start == 0 ==> ds == cs@,
            start <= 1,
            n > 0,
            (start == 1) == (cs@[0] == '-' || cs@[0] == '+'),
            neg == (cs@[0] == '-'),
            forall|k: int| 0 <= k < i - start ==> is_digit_char(#[trigger] ds[k]),
            big ==> digits_value(ds.take(i - start)) > 0x8000_0000_0000_0000,
            !big ==> acc == digits_value(ds.take(i - start)) && 0 <= acc <= 0x8000_0000_0000_0000,
        decreases n - i,
    {
        let c = cs[i];
        assert(ds[i - start] == c);
        if !('0' <= c && c <= '9') {
            assert(!is_digit_char(ds[i - start]));
            assert(!all_digits(ds));
            assert(spec_parse_i64(s@) is None);
            return None;
        }
        let d = (c as u32 - '0' as u32) as i128;
        proof {
            let pre = ds.take(i - start);
            let nxt = ds.take(i - start + 1);
            assert(nxt.drop_last() =~= pre);
            assert(nxt.last() == c);
        }
        if !big {
            acc = acc * 10 + d;
            if acc > 0x8000_0000_0000_0000 {
                big = true;
            }
        }
        i = i + 1;
    }
    proof {
        assert(ds.take(n - start) =~= ds);
        assert(all_digits(ds));
    }
    if big {
        return None;
    }
    if neg {
        if acc > 0x8000_0000_0000_0000 {
            None
        } else {
            Some((-acc) as i64)
        }
    } else {
        if acc > 0x7fff_ffff_ffff_ffff {
            None
        } else {
            Some(acc as i64)
        }
    }
}

/// An operator of `+ - *`, by its metamethod.
pub open spec fn is_arith(op: MetaMethod) -> bool {
    op == MetaMethod::Add || op == MetaMethod::Sub || op == MetaMethod::Mul
}

/// The exact integer result of `a op b`.
pub open spec fn int_result(op: MetaMethod, a: int, b: int) -> int {
    if op == MetaMethod::Add { a + b } else if op == MetaMethod::Sub { a - b } else { a * b }
}

/// An operand the host computes with in floating point: a float by its bits, an
/// integer, or a text to read as a float.
#[derive(Debug)]
pub enum FloatArg {
    Float(u64),
    Int(i64),
    Text(String),
}

/// What `left op right` comes to, for `op` one of `+ - *`.
#[derive(Debug)]
pub enum ArithStep {
    /// The result, computed exactly.
    Done(Value),
    /// The host computes `left op right` in floating point and pushes the float;
    /// when a text operand does not read as a float, the operation fails with the
    /// error given.
    Float(FloatArg, FloatArg, SiltError),
    /// The left operand is the table with this id: its metamethod decides.
    TableMeta(usize, Value),
    /// The left operand is the userdata with this id: its handler decides.
    UserData(usize, Value),
    /// The operands do not combine.
    Failed(SiltError),
}

/// The integers `left op right` combines exactly, when it does: two integers, or
/// integers read from texts.
pub open spec fn arith_ints(l: ValueView, r: ValueView) -> Option<(int, int)> {
    match (l, r) {
        (ValueView::Integer(a), ValueView::Integer(b)) => Some((a as int, b as int)),
        (ValueView::String(a), ValueView::String(b)) => match (spec_parse_i64(a), spec_parse_i64(b)) {
            (Some(x), Some(y)) => Some((x, y)),
            _ => None,
        },
        (ValueView::String(a), ValueView::Integer(b)) => match spec_parse_i64(a) {
            Some(x) => Some((x, b as int)),
            None => None,
        },
        (ValueView::Integer(a), ValueView::String(b)) => match spec_parse_i64(b) {
            Some(y) => Some((a as int, y)),
            None => None,
        },
        _ => None,
    }
}

/// The error of an operation on two values of these types.
pub open spec fn op_error(l: ValueTypes, op: MetaMethod, r: ValueTypes) -> SiltErrorView {
    SiltErrorView::ExpOpValueWithValue(l, op, r)
}

/// `x` is the float with bits `b`.
pub open spec fn is_float_arg(x: FloatArg, b: u64) -> bool {
    x matches FloatArg::Float(p) && p == b
}

/// `x` is the integer `i`.
pub open spec fn is_int_arg(x: FloatArg, i: int) -> bool {
    x matches FloatArg::Int(p) && p == i
}

/// `x` is the text `t`.
pub open spec fn is_text_arg(x: FloatArg, t: Seq<char>) -> bool {
    x matches FloatArg::Text(u) && u@ == t
}

/// `step` hands `x op y` to the host, failing with `e` when a text does not
/// read as a float.
pub open spec fn float_step(step: ArithStep, x: spec_fn(FloatArg) -> bool, y: spec_fn(FloatArg) -> bool, e: Option<SiltErrorView>) -> bool {
    step matches ArithStep::Float(p, q, err) && x(p) && y(q) && (e matches Some(ev) ==> err@ == ev)
}

/// Whether `step` is what `l op r` comes to: exact integers where both operands
/// are integers or texts that read as integers; a float step for floats and for
/// texts that do not read as integers; the table or userdata on the left decides
/// for itself; every other pair fails with the operand types.
pub open spec fn arith_step(op: MetaMethod, l: ValueView, r: ValueView, step: ArithStep) -> bool {
    match arith_ints(l, r) {
        Some((a, b)) => step matches ArithStep::Done(v) && v@ == ValueView::Integer(int_result(op, a, b) as i64),
        None => match (l, r) {
            (ValueView::Number(a), ValueView::Number(b)) =>
                float_step(step, |x: FloatArg| is_float_arg(x, a), |y: FloatArg| is_float_arg(y, b), None),
            (ValueView::Number(a), ValueView::Integer(b)) =>
                float_step(step, |x: FloatArg| is_float_arg(x, a), |y: FloatArg| is_int_arg(y, b as int), None),
            (ValueView::Integer(a), ValueView::Number(b)) =>
                float_step(step, |x: FloatArg| is_int_arg(x, a as int), |y: FloatArg| is_float_arg(y, b), None),
            (ValueView::String(a), ValueView::String(b)) =>
                float_step(step, |x: FloatArg| match spec_parse_i64(a) {
                    Some(n) => is_int_arg(x, n),
                    None => is_text_arg(x, a),
                }, |y: FloatArg| is_text_arg(y, b), Some(op_error(ValueTypes::String, op, ValueTypes::String))),
            (ValueView::String(a), ValueView::Integer(b)) =>
                float_step(step, |x: FloatArg| is_text_arg(x, a), |y: FloatArg| is_int_arg(y, b as int),
                    Some(op_error(ValueTypes::String, op, ValueTypes::Integer))),
            (ValueView::Integer(a), ValueView::String(b)) =>
                float_step(step, |x: FloatArg| is_int_arg(x, a as int), |y: FloatArg| is_text_arg(y, b),
                    Some(op_error(ValueTypes::Integer, op, ValueTypes::String))),
            (ValueView::String(a), ValueView::Number(b)) =>
                float_step(step, |x: FloatArg| is_text_arg(x, a), |y: FloatArg| is_float_arg(y, b),
                    Some(op_error(ValueTypes::String, op, ValueTypes::String))),
            (ValueView::Number(a), ValueView::String(b)) =>
                float_step(step, |x: FloatArg| is_float_arg(x, a), |y: FloatArg| is_text_arg(y, b),
                    Some(op_error(ValueTypes::Number, op, ValueTypes::String))),
            (ValueView::Table(id), _) => step matches ArithStep::TableMeta(i, v) && i == id && v@ == r,
            (ValueView::UserData(id), _) => step matches ArithStep::UserData(i, v) && i == id && v@ == r,
            _ => step matches ArithStep::Failed(e) && e@ == op_error(spec_type_of(l), op, spec_type_of(r)),
        },
    }
}

/// `left op right` for `op` one of `+ - *` (see [`arith_step`]). An exact
/// integer result must fit in 64 bits.
pub fn binary_op(op: MetaMethod, left: Value, right: Value) -> (r: ArithStep)
    requires
        is_arith(op),
        arith_ints(left@, right@) matches Some((a, b)) ==> i64::MIN <= int_result(op, a, b) <= i64::MAX,
    ensures
        arith_step(op, left@, right@, r),
{
    match (left, right) {
        (Value::Number(a), Value::Number(b)) => ArithStep::Float(FloatArg::Float(a), FloatArg::Float(b),
            SiltError::ExpOpValueWithValue(ValueTypes::Number, op, ValueTypes::Number)),
        (Value::Integer(a), Value::Integer(b)) => ArithStep::Done(Value::Integer(int_op(op, a, b))),
        (Value::Number(a), Value::Integer(b)) => ArithStep::Float(FloatArg::Float(a), FloatArg::Int(b),
            SiltError::ExpOpValueWithValue(ValueTypes::Number, op, ValueTypes::Integer)),
        (Value::Integer(a), Value::Number(b)) => ArithStep::Float(FloatArg::Int(a), FloatArg::Float(b),
            SiltError::ExpOpValueWithValue(ValueTypes::Integer, op, ValueTypes::Number)),
        (Value::String(a), Value::String(b)) => {
            match parse_i64(a.as_str()) {
                Some(n1) => match parse_i64(b.as_str()) {
                    Some(n2) => ArithStep::Done(Value::Integer(int_op(op, n1, n2))),
                    None => ArithStep::Float(FloatArg::Int(n1), FloatArg::Text(b),
                        SiltError::ExpOpValueWithValue(ValueTypes::String, op, ValueTypes::String)),
                },
                None => ArithStep::Float(FloatArg::Text(a), FloatArg::Text(b),
                    SiltError::ExpOpValueWithValue(ValueTypes::String, op, ValueTypes::String)),
            }
        },
        (Value::String(a), Value::Integer(b)) => match parse_i64(a.as_str()) {
            Some(n1) => ArithStep::Done(Value::Integer(int_op(op, n1, b))),
            None => ArithStep::Float(FloatArg::Text(a), FloatArg::Int(b),
                SiltError::ExpOpValueWithValue(ValueTypes::String, op, ValueTypes::Integer)),
        },
        (Value::Integer(a), Value::String(b)) => match parse_i64(b.as_str()) {
            Some(n2) => ArithStep::Done(Value::Integer(int_op(op, a, n2))),
            None => ArithStep::Float(FloatArg::Int(a), FloatArg::Text(b),
                SiltError::ExpOpValueWithValue(ValueTypes::Integer, op, ValueTypes::String)),
        },
        (Value::String(a), Value::Number(b)) => ArithStep::Float(FloatArg::Text(a), FloatArg::Float(b),
            SiltError::ExpOpValueWithValue(ValueTypes::String, op, ValueTypes::String)),
        (Value::Number(a), Value::String(b)) => ArithStep::Float(FloatArg::Float(a), FloatArg::Text(b),
            SiltError::ExpOpValueWithValue(ValueTypes::Number, op, ValueTypes::String)),
        (Value::Table(id), rr) => ArithStep::TableMeta(id, rr),
        (Value::UserData(id), rr) => ArithStep::UserData(id, rr),
        (ll, rr) => {
            let lt = ll.to_error();
            let rt = rr.to_error();
            ArithStep::Failed(SiltError::ExpOpValueWithValue(lt, op, rt))
        },
    }
}

/// `a op b` on integers whose exact result fits.
fn int_op(op: MetaMethod, a: i64, b: i64) -> (r: i64)
    requires
        is_arith(op),
        i64::MIN <= int_result(op, a as int, b as int) <= i64::MAX,
    ensures
        r == int_result(op, a as int, b as int),
{
    match op {
        MetaMethod::Add => a + b,
        MetaMethod::Sub => a - b,
        _ => a * b,
    }
}

/// Whether a value counts as true: everything but `nil` and `false`.
pub open spec fn truthy_view(v: ValueView) -> bool {
    !(v is Nil) && v != ValueView::Bool(false)
}

/// The machine state one script frame runs in: its value stack (slot 0 holds
/// the script itself), the index of the next instruction, the globals, and the
/// tables the script made (`Value::Table(id)` is the table at index `id`).
pub struct Vm {
    stack: Vec<Value>,
    ip: usize,
    base: usize,
    globals: Table,
    tables: Vec<Table>,
}

/// A [`Vm`] as a value.
pub struct VmView {
    pub stack: Seq<ValueView>,
    pub ip: int,
    pub base: int,
    pub globals: Map<ValueView, ValueView>,
    pub tables: Seq<Map<ValueView, ValueView>>,
}

impl View for Vm {
    type V = VmView;

    closed spec fn view(&self) -> VmView {
        VmView {
            stack: self.stack@.map_values(|v: Value| v@),
            ip: self.ip as int,
            base: self.base as int,
            globals: self.globals@,
            tables: self.tables@.map_values(|t: Table| t@),
        }
    }
}

/// What one instruction step asks of the host.
#[derive(Debug)]
pub enum StepOutcome {
    /// The instruction is done; run the next.
    Next,
    /// No instruction is left.
    End,
    /// The script returned this value.
    Return(Value),
    /// Print this value, then run the next instruction.
    Print(Value),
    /// The operands of `+ - *` were taken off the stack; the host finishes the
    /// step (a float operation or a metamethod) and pushes its result.
    Arith(MetaMethod, ArithStep),
    /// The float with these bits was taken off the stack; the host pushes its
    /// negation.
    NegateFloat(u64),
    /// The operands of a comparison (`EQUAL`, `LESS`, ...) were taken off the
    /// stack and one of them is a float; the host compares them as floats and
    /// pushes the boolean the instruction asks for.
    Compare(OpCode, FloatArg, FloatArg),
    /// The operands of a concatenation were taken off the stack and one of them
    /// is not a string; the host pushes the two values' display forms joined.
    Concat(Value, Value),
    /// The step failed with this error.
    Failed(SiltError),
    /// This instruction was not taken and the machine is unchanged: the
    /// host runs it. A [`Machine`] hands back a call of anything but a
    /// closure (such as a native function), the test and counter step of a
    /// numeric loop on floats, and table instructions on userdata. A bare
    /// [`Vm`], which has no call frames, also hands back `CALL`, `CLOSURE`,
    /// `GET_UPVALUE`, `SET_UPVALUE` and `CLOSE_UPVALUES`.
    Host(OpCode),
}

/// `out` hands the host the rest of `l op r`, or the failure it comes to.
pub open spec fn arith_out(op: MetaMethod, l: ValueView, r: ValueView, out: StepOutcome) -> bool {
    match out {
        StepOutcome::Arith(o, step) => o == op && arith_step(op, l, r, step),
        StepOutcome::Failed(e) => arith_step(op, l, r, ArithStep::Failed(e)),
        _ => false,
    }
}

/// Text order: by code point, a proper prefix first (the order of the
/// texts' UTF-8 bytes).
pub open spec fn str_less(a: Seq<char>, b: Seq<char>) -> bool
    decreases a.len(),
{
    if a.len() == 0 {
        b.len() > 0
    } else if b.len() == 0 {
        false
    } else if a[0] != b[0] {
        (a[0] as u32) < (b[0] as u32)
    } else {
        str_less(a.drop_first(), b.drop_first())
    }
}

/// Whether the pair compares as floats (a float on either side, the other a
/// float or an integer).
pub open spec fn float_pair(l: ValueView, r: ValueView) -> bool {
    match (l, r) {
        (ValueView::Number(_), ValueView::Number(_)) => true,
        (ValueView::Number(_), ValueView::Integer(_)) => true,
        (ValueView::Integer(_), ValueView::Number(_)) => true,
        _ => false,
    }
}

/// `x` is the operand `v` of a float comparison.
pub open spec fn compare_arg(x: FloatArg, v: ValueView) -> bool {
    match v {
        ValueView::Number(b) => x matches FloatArg::Float(p) && p == b,
        ValueView::Integer(i) => x matches FloatArg::Int(p) && p == i,
        _ => false,
    }
}

/// Raw equality of two values that are not a float pair.
pub open spec fn eq_view(l: ValueView, r: ValueView) -> bool {
    match (l, r) {
        (ValueView::Integer(a), ValueView::Integer(b)) => a == b,
        (ValueView::String(a), ValueView::String(b)) => a == b,
        (ValueView::Bool(a), ValueView::Bool(b)) => a == b,
        (ValueView::Nil, ValueView::Nil) => true,
        (ValueView::Infinity(a), ValueView::Infinity(b)) => a == b,
        _ => false,
    }
}

/// `l < r` for a pair that is not a float pair; the error for values that do
/// not order.
pub open spec fn less_view(l: ValueView, r: ValueView) -> Result<bool, SiltErrorView> {
    match (l, r) {
        (ValueView::Integer(a), ValueView::Integer(b)) => Ok(a < b),
        (ValueView::String(a), ValueView::String(b)) => Ok(str_less(a, b)),
        (ValueView::Infinity(a), ValueView::Infinity(b)) => Ok(a != b && a),
        _ => Err(op_error(spec_type_of(l), MetaMethod::Lt, spec_type_of(r))),
    }
}

/// `l > r` for a pair that is not a float pair; the error for values that do
/// not order.
pub open spec fn greater_view(l: ValueView, r: ValueView) -> Result<bool, SiltErrorView> {
    match (l, r) {
        (ValueView::Integer(a), ValueView::Integer(b)) => Ok(a > b),
        (ValueView::String(a), ValueView::String(b)) => Ok(str_less(b, a)),
        (ValueView::Infinity(a), ValueView::Infinity(b)) => Ok(a != b && !a),
        _ => Err(op_error(spec_type_of(l), MetaMethod::Gt, spec_type_of(r))),
    }
}

/// What a comparison instruction pushes for a pair that is not a float pair.
pub open spec fn compare_view(op: OpCode, l: ValueView, r: ValueView) -> Result<bool, SiltErrorView> {
    match op {
        OpCode::EQUAL => Ok(eq_view(l, r)),
        OpCode::NOT_EQUAL => Ok(!eq_view(l, r)),
        OpCode::LESS => less_view(l, r),
        OpCode::GREATER => greater_view(l, r),
        OpCode::LESS_EQUAL => match greater_view(l, r) { Ok(b) => Ok(!b), Err(e) => Err(e) },
        _ => match less_view(l, r) { Ok(b) => Ok(!b), Err(e) => Err(e) },
    }
}

/// Whether `op` is one of the six comparisons.
pub open spec fn is_compare(op: OpCode) -> bool {
    op == OpCode::EQUAL || op == OpCode::NOT_EQUAL || op == OpCode::LESS || op == OpCode::LESS_EQUAL
        || op == OpCode::GREATER || op == OpCode::GREATER_EQUAL
}

/// The length `#v`: bytes of a text, entries of a table.
pub open spec fn length_view(v: ValueView, tables: Seq<Map<ValueView, ValueView>>) -> Result<int, SiltErrorView> {
    match v {
        ValueView::String(t) => Ok(crate::standard::byte_len(t)),
        ValueView::Table(id) => Ok(tables[id as int].dom().len() as int),
        _ => Err(SiltErrorView::ExpInvalidLength(spec_type_of(v))),
    }
}

/// The table reached from table `cur` by following `keys`, each key's value
/// being the next table; the error at the first value that is not a table.
pub open spec fn nav(tables: Seq<Map<ValueView, ValueView>>, cur: int, keys: Seq<ValueView>) -> Result<int, SiltErrorView>
    decreases keys.len(),
{
    if keys.len() == 0 {
        Ok(cur)
    } else if tables[cur].dom().contains(keys[0]) {
        match tables[cur][keys[0]] {
            ValueView::Table(t) => nav(tables, t as int, keys.drop_first()),
            other => Err(SiltErrorView::VmNonTableOperations(spec_type_of(other))),
        }
    } else {
        Err(SiltErrorView::VmNonTableOperations(ValueTypes::Nil))
    }
}

/// Every table that following `keys` from table `cur` meets exists.
pub open spec fn nav_ok(tables: Seq<Map<ValueView, ValueView>>, cur: int, keys: Seq<ValueView>) -> bool
    decreases keys.len(),
{
    0 <= cur < tables.len() && (keys.len() == 0 || (tables[cur].dom().contains(keys[0]) ==> match tables[cur][keys[0]] {
        ValueView::Table(t) => nav_ok(tables, t as int, keys.drop_first()),
        _ => true,
    }))
}

/// The table after pushing `vals` one after another at its border.
pub open spec fn push_all(m: Map<ValueView, ValueView>, vals: Seq<ValueView>) -> Map<ValueView, ValueView>
    decreases vals.len(),
{
    if vals.len() == 0 {
        m
    } else {
        let m1 = push_all(m, vals.drop_last());
        m1.insert(crate::table::ikey(crate::table::spec_border(m1) + 1), vals.last())
    }
}

/// No push of `vals` finds the border at `i64::MAX`.
pub open spec fn push_all_ok(m: Map<ValueView, ValueView>, vals: Seq<ValueView>) -> bool
    decreases vals.len(),
{
    vals.len() == 0 || (push_all_ok(m, vals.drop_last()) && crate::table::spec_border(push_all(m, vals.drop_last())) < i64::MAX)
}

/// A prefix of pushes that fit fits.
pub proof fn lemma_push_all_ok_prefix(m: Map<ValueView, ValueView>, vals: Seq<ValueView>, k: int)
    requires
        push_all_ok(m, vals),
        0 <= k <= vals.len(),
    ensures
        push_all_ok(m, vals.take(k)),
    decreases vals.len(),
{
    if k == vals.len() {
        assert(vals.take(k) =~= vals);
    } else {
        assert(vals.drop_last().take(k) =~= vals.take(k));
        lemma_push_all_ok_prefix(m, vals.drop_last(), k);
    }
}

/// `v` with the next instruction taken.
pub open spec fn advanced(v: VmView) -> VmView {
    VmView { ip: v.ip + 1, ..v }
}

/// Whether a numeric `for` loop is over: past the limit in the direction of
/// the step (a step below zero counts down).
pub open spec fn for_done(it: ValueView, lim: ValueView, step: ValueView) -> Result<bool, SiltErrorView> {
    if step matches ValueView::Integer(i) && i < 0 {
        less_view(it, lim)
    } else {
        greater_view(it, lim)
    }
}

/// Whether a value instruction (see [`value_stepped`]) can be run on `v`'s
/// stack without overflow.
pub open spec fn value_defined(v: VmView, op: OpCode) -> bool {
    match op {
        OpCode::EQUAL | OpCode::NOT_EQUAL | OpCode::LESS | OpCode::LESS_EQUAL
            | OpCode::GREATER | OpCode::GREATER_EQUAL | OpCode::CONCAT | OpCode::DIVIDE => v.stack.len() >= 2,
        OpCode::FOR_NUMERIC(_) => v.stack.len() >= 3,
        OpCode::INCREMENT { index } => v.base + index < v.stack.len() && match (v.stack[v.base + index], v.stack.last()) {
            (ValueView::Integer(i), ValueView::Integer(d)) => i64::MIN <= i + d <= i64::MAX,
            _ => true,
        },
        OpCode::LENGTH => v.stack.len() >= 1 && match v.stack.last() {
            ValueView::String(t) => crate::standard::byte_len(t) <= i64::MAX,
            ValueView::Table(id) => id < v.tables.len(),
            _ => true,
        },
        _ => false,
    }
}

/// Whether a table instruction can be run on `v`'s stack and tables.
pub open spec fn table_defined(v: VmView, op: OpCode, consts: Seq<ValueView>) -> bool {
    match op {
        OpCode::NEW_TABLE => v.tables.len() + 1 < usize::MAX,
        OpCode::TABLE_INSERT { offset } => v.stack.len() >= offset + 3
            && (v.stack[v.stack.len() - offset - 3] matches ValueView::Table(id) ==> id < v.tables.len()),
        OpCode::TABLE_BUILD(n) => v.stack.len() >= n + 1
            && (v.stack[v.stack.len() - n - 1] matches ValueView::Table(id) ==> id < v.tables.len()
                && push_all_ok(v.tables[id as int], v.stack.subrange(v.stack.len() - n, v.stack.len() as int))),
        OpCode::TABLE_GET { depth } => v.stack.len() >= depth + 1
            && (v.stack[v.stack.len() - depth - 1] matches ValueView::Table(id) ==> depth == 0 ||
                nav_ok(v.tables, id as int, v.stack.subrange(v.stack.len() - depth, v.stack.len() - 1))),
        OpCode::TABLE_SET { depth } => v.stack.len() >= depth + 2
            && (v.stack[v.stack.len() - depth - 2] matches ValueView::Table(id) ==> depth == 0 ||
                nav_ok(v.tables, id as int, v.stack.subrange(v.stack.len() - depth - 1, v.stack.len() - 2))),
        OpCode::TABLE_GET_BY_CONSTANT { constant } => constant < consts.len() && v.stack.len() >= 1
            && (v.stack.last() matches ValueView::Table(id) ==> id < v.tables.len()),
        _ => false,
    }
}

/// Whether the instruction at `v.ip` can be run here without reading past the
/// stack or the constants.
pub open spec fn step_defined(v: VmView, code: Seq<OpCode>, consts: Seq<ValueView>) -> bool {
    v.ip >= code.len() || match code[v.ip] {
        OpCode::CONSTANT { constant } => constant < consts.len(),
        OpCode::DEFINE_GLOBAL { constant } => constant < consts.len() && v.stack.len() >= 1,
        OpCode::SET_GLOBAL { constant } => constant < consts.len() && v.stack.len() >= 1,
        OpCode::GET_GLOBAL { constant } => constant < consts.len(),
        OpCode::GET_LOCAL { index } => v.base + index < v.stack.len(),
        OpCode::SET_LOCAL { index } => v.base + index < v.stack.len(),
        OpCode::POP | OpCode::NOT | OpCode::PRINT | OpCode::RETURN
            | OpCode::GOTO_IF_FALSE(_) | OpCode::GOTO_IF_TRUE(_) | OpCode::POP_AND_GOTO_IF_FALSE(_) => v.stack.len() >= 1,
        OpCode::NEGATE => v.stack.len() >= 1 && v.stack.last() != ValueView::Integer(i64::MIN),
        OpCode::POPS(n) => n <= v.stack.len(),
        OpCode::ADD | OpCode::SUB | OpCode::MULTIPLY => v.stack.len() >= 2 && ({
            let op = if code[v.ip] == OpCode::ADD { MetaMethod::Add } else if code[v.ip] == OpCode::SUB { MetaMethod::Sub } else { MetaMethod::Mul };
            arith_ints(v.stack[v.stack.len() - 2], v.stack.last()) matches Some((a, b)) ==> i64::MIN <= int_result(op, a, b) <= i64::MAX
        }),
        OpCode::REWIND(o) => o <= v.ip + 1,
        OpCode::EQUAL | OpCode::NOT_EQUAL | OpCode::LESS | OpCode::LESS_EQUAL
            | OpCode::GREATER | OpCode::GREATER_EQUAL | OpCode::CONCAT | OpCode::LENGTH
            | OpCode::FOR_NUMERIC(_) | OpCode::DIVIDE | OpCode::INCREMENT { .. } => value_defined(v, code[v.ip]),
        OpCode::DEFINE_LOCAL { .. } | OpCode::TABLE_GET_FROM { .. } | OpCode::META(_)
            | OpCode::REGISTER_UPVALUE { .. } => false,
        OpCode::NEW_TABLE | OpCode::TABLE_GET_BY_CONSTANT { .. } | OpCode::TABLE_INSERT { .. }
            | OpCode::TABLE_BUILD(_) | OpCode::TABLE_GET { .. } | OpCode::TABLE_SET { .. } => table_defined(v, code[v.ip], consts),
        _ => true,
    }
}

/// `w` and `out` are what a value instruction (a comparison, `CONCAT`,
/// `LENGTH`, `DIVIDE`, or a numeric loop's `FOR_NUMERIC` or `INCREMENT`) gives,
/// from the machine `a` that has already taken the instruction; one on floats
/// the host runs is handed back untaken.
pub open spec fn value_stepped(a: VmView, op: OpCode, w: VmView, out: StepOutcome) -> bool {
    let st = a.stack;
    match op {
        OpCode::EQUAL | OpCode::NOT_EQUAL | OpCode::LESS | OpCode::LESS_EQUAL
            | OpCode::GREATER | OpCode::GREATER_EQUAL => {
            let l = st[st.len() - 2];
            let r = st.last();
            let rest = st.drop_last().drop_last();
            if float_pair(l, r) {
                (out matches StepOutcome::Compare(o, x, y) && o == op && compare_arg(x, l) && compare_arg(y, r))
                    && w == VmView { stack: rest, ..a }
            } else {
                match compare_view(op, l, r) {
                    Ok(b) => out is Next && w == VmView { stack: rest.push(ValueView::Bool(b)), ..a },
                    Err(e) => (out matches StepOutcome::Failed(x) && x@ == e) && w == VmView { stack: rest, ..a },
                }
            }
        },
        OpCode::CONCAT => {
            let l = st[st.len() - 2];
            let r = st.last();
            let rest = st.drop_last().drop_last();
            match (l, r) {
                (ValueView::String(x), ValueView::String(y)) => out is Next && w == VmView { stack: rest.push(ValueView::String(x + y)), ..a },
                _ => (out matches StepOutcome::Concat(x, y) && x@ == l && y@ == r) && w == VmView { stack: rest, ..a },
            }
        },
        OpCode::LENGTH => match length_view(st.last(), a.tables) {
            Ok(n) => out is Next && w == VmView { stack: st.drop_last().push(ValueView::Integer(n as i64)), ..a },
            Err(e) => (out matches StepOutcome::Failed(x) && x@ == e) && w == VmView { stack: st.drop_last(), ..a },
        },
        OpCode::DIVIDE => {
            let l = st[st.len() - 2];
            let r = st.last();
            let rest = st.drop_last().drop_last();
            w == VmView { stack: rest, ..a } && if (l is Number || l is Integer) && (r is Number || r is Integer) {
                out matches StepOutcome::Arith(o, ArithStep::Float(x, y, _)) && o == MetaMethod::Div
                    && compare_arg(x, l) && compare_arg(y, r)
            } else {
                match l {
                    ValueView::Table(id) => out matches StepOutcome::Arith(o, ArithStep::TableMeta(t, y))
                        && o == MetaMethod::Div && t == id && y@ == r,
                    _ => out matches StepOutcome::Failed(x)
                        && x@ == SiltErrorView::ExpOpValueWithValue(spec_type_of(l), MetaMethod::Div, spec_type_of(r)),
                }
            }
        },
        OpCode::INCREMENT { index } => match (st[a.base + index], st.last()) {
            (ValueView::Integer(i), ValueView::Integer(d)) => out is Next
                && w == VmView { stack: st.update(a.base + index, ValueView::Integer((i + d) as i64)), ..a },
            _ => (out matches StepOutcome::Host(x) && x == op) && w == VmView { ip: a.ip - 1, ..a },
        },
        OpCode::FOR_NUMERIC(skip) => {
            let it = st[st.len() - 3];
            let lim = st[st.len() - 2];
            let step = st.last();
            if step is Number || float_pair(it, lim) {
                (out matches StepOutcome::Host(x) && x == op) && w == VmView { ip: a.ip - 1, ..a }
            } else {
                match for_done(it, lim, step) {
                    Ok(true) => out is Next && w == VmView { ip: a.ip + skip, ..a },
                    Ok(false) => out is Next && w == VmView { stack: st.push(it), ..a },
                    Err(e) => (out matches StepOutcome::Failed(x) && x@ == e) && w == a,
                }
            }
        },
        _ => false,
    }
}

/// `w` and `out` are what a table instruction gives, from the machine `a`
/// that has already taken the instruction; an instruction on userdata is
/// handed back untaken.
pub open spec fn table_stepped(a: VmView, op: OpCode, consts: Seq<ValueView>, w: VmView, out: StepOutcome) -> bool {
    let st = a.stack;
    match op {
        OpCode::NEW_TABLE => out is Next && w == VmView {
            stack: st.push(ValueView::Table(a.tables.len() as usize)),
            tables: a.tables.push(Map::empty()),
            ..a
        },
        OpCode::TABLE_GET_BY_CONSTANT { constant } => match st.last() {
            ValueView::Table(id) => out is Next && w == VmView {
                stack: st.push(if a.tables[id as int].dom().contains(consts[constant as int]) {
                    a.tables[id as int][consts[constant as int]]
                } else {
                    ValueView::Nil
                }),
                ..a
            },
            other => (out matches StepOutcome::Failed(x) && x@ == SiltErrorView::VmNonTableOperations(spec_type_of(other))) && w == a,
        },
        OpCode::TABLE_INSERT { offset } => match st[st.len() - offset - 3] {
            ValueView::Table(id) => out is Next && w == VmView {
                stack: st.drop_last().drop_last(),
                tables: a.tables.update(id as int, a.tables[id as int].insert(st[st.len() - 2], st.last())),
                ..a
            },
            _ => (out matches StepOutcome::Failed(x) && x@ == SiltErrorView::ChunkCorrupt) && w == a,
        },
        OpCode::TABLE_BUILD(n) => match st[st.len() - n - 1] {
            ValueView::Table(id) => out is Next && w == VmView {
                stack: st.take(st.len() - n),
                tables: a.tables.update(id as int, push_all(a.tables[id as int], st.subrange(st.len() - n, st.len() as int))),
                ..a
            },
            _ => (out matches StepOutcome::Failed(x) && x@ == SiltErrorView::ChunkCorrupt) && w == a,
        },
        OpCode::TABLE_GET { depth } => match st[st.len() - depth - 1] {
            ValueView::Table(id) => if depth == 0 {
                (out matches StepOutcome::Failed(x) && x@ == SiltErrorView::VmRuntimeError) && w == a
            } else {
                match nav(a.tables, id as int, st.subrange(st.len() - depth, st.len() - 1)) {
                    Ok(t) => out is Next && w == VmView {
                        stack: st.take(st.len() - depth - 1).push(
                            if a.tables[t].dom().contains(st.last()) { a.tables[t][st.last()] } else { ValueView::Nil }),
                        ..a
                    },
                    Err(e) => (out matches StepOutcome::Failed(x) && x@ == e) && w == a,
                }
            },
            ValueView::UserData(_) => (out matches StepOutcome::Host(x) && x == op) && w == VmView { ip: a.ip - 1, ..a },
            other => (out matches StepOutcome::Failed(x) && x@ == SiltErrorView::VmNonTableOperations(spec_type_of(other))) && w == a,
        },
        OpCode::TABLE_SET { depth } => {
            let val = st.last();
            let s1 = st.drop_last();
            match s1[s1.len() - depth - 1] {
                ValueView::Table(id) => if depth == 0 {
                    (out matches StepOutcome::Failed(x) && x@ == SiltErrorView::VmRuntimeError) && w == VmView { stack: s1, ..a }
                } else {
                    match nav(a.tables, id as int, s1.subrange(s1.len() - depth, s1.len() - 1)) {
                        Ok(t) => out is Next && w == VmView {
                            stack: s1.take(s1.len() - depth - 1),
                            tables: a.tables.update(t, a.tables[t].insert(s1.last(), val)),
                            ..a
                        },
                        Err(e) => (out matches StepOutcome::Failed(x) && x@ == e) && w == VmView { stack: s1, ..a },
                    }
                },
                ValueView::UserData(_) => (out matches StepOutcome::Host(x) && x == op) && w == VmView { ip: a.ip - 1, ..a },
                _ => (out matches StepOutcome::Failed(x) && x@ == SiltErrorView::MetaMethodMissing(MetaMethod::Index))
                    && w == VmView { stack: s1, ..a },
            }
        },
        _ => false,
    }
}

/// `w` and `out` are what running the instruction at `v.ip` gives.
pub open spec fn stepped(v: VmView, code: Seq<OpCode>, consts: Seq<ValueView>, w: VmView, out: StepOutcome) -> bool {
    if v.ip >= code.len() {
        out is End && w == v
    } else {
        let a = advanced(v);
        let st = v.stack;
        match code[v.ip] {
            OpCode::CONSTANT { constant } => out is Next && w == VmView { stack: st.push(consts[constant as int]), ..a },
            OpCode::NIL => out is Next && w == VmView { stack: st.push(ValueView::Nil), ..a },
            OpCode::TRUE => out is Next && w == VmView { stack: st.push(ValueView::Bool(true)), ..a },
            OpCode::FALSE => out is Next && w == VmView { stack: st.push(ValueView::Bool(false)), ..a },
            OpCode::POP => out is Next && w == VmView { stack: st.drop_last(), ..a },
            OpCode::POPS(n) => out is Next && w == VmView { stack: st.take(st.len() - n), ..a },
            OpCode::GET_LOCAL { index } => out is Next && w == VmView { stack: st.push(st[v.base + index]), ..a },
            OpCode::SET_LOCAL { index } => out is Next && w == VmView { stack: st.update(v.base + index, st.last()), ..a },
            OpCode::DEFINE_GLOBAL { constant } => match consts[constant as int] {
                ValueView::String(_) => out is Next
                    && w == VmView { stack: st.drop_last(), globals: v.globals.insert(consts[constant as int], st.last()), ..a },
                _ => (out matches StepOutcome::Failed(e) && e@ == SiltErrorView::VmCorruptConstant) && w == a,
            },
            OpCode::SET_GLOBAL { constant } => match consts[constant as int] {
                ValueView::String(_) => out is Next
                    && w == VmView { globals: v.globals.insert(consts[constant as int], st.last()), ..a },
                _ => (out matches StepOutcome::Failed(e) && e@ == SiltErrorView::VmCorruptConstant) && w == a,
            },
            OpCode::GET_GLOBAL { constant } => match consts[constant as int] {
                ValueView::String(_) => out is Next && w == VmView {
                    stack: st.push(if v.globals.dom().contains(consts[constant as int]) { v.globals[consts[constant as int]] } else { ValueView::Nil }),
                    ..a
                },
                _ => (out matches StepOutcome::Failed(e) && e@ == SiltErrorView::VmCorruptConstant) && w == a,
            },
            OpCode::NOT => out is Next && w == VmView { stack: st.drop_last().push(ValueView::Bool(!truthy_view(st.last()))), ..a },
            OpCode::NEGATE => match st.last() {
                ValueView::Integer(i) => out is Next && w == VmView { stack: st.drop_last().push(ValueView::Integer((-i) as i64)), ..a },
                ValueView::Number(b) => (out matches StepOutcome::NegateFloat(x) && x == b) && w == VmView { stack: st.drop_last(), ..a },
                other => (out matches StepOutcome::Failed(e) && e@ == SiltErrorView::ExpInvalidNegation(spec_type_of(other))) && w == a,
            },
            OpCode::ADD | OpCode::SUB | OpCode::MULTIPLY => {
                let op = if code[v.ip] == OpCode::ADD { MetaMethod::Add } else if code[v.ip] == OpCode::SUB { MetaMethod::Sub } else { MetaMethod::Mul };
                let l = st[st.len() - 2];
                let r = st.last();
                let rest = st.drop_last().drop_last();
                match arith_ints(l, r) {
                    Some((x, y)) => out is Next && w == VmView { stack: rest.push(ValueView::Integer(int_result(op, x, y) as i64)), ..a },
                    None => arith_out(op, l, r, out) && w == VmView { stack: rest, ..a },
                }
            },
            OpCode::GOTO_IF_FALSE(o) => out is Next && w == (if !truthy_view(st.last()) { VmView { ip: v.ip + 1 + o, ..v } } else { a }),
            OpCode::GOTO_IF_TRUE(o) => out is Next && w == (if truthy_view(st.last()) { VmView { ip: v.ip + 1 + o, ..v } } else { a }),
            OpCode::POP_AND_GOTO_IF_FALSE(o) => out is Next && w == (if !truthy_view(st.last()) {
                VmView { stack: st.drop_last(), ip: v.ip + 1 + o, ..v }
            } else {
                VmView { stack: st.drop_last(), ..a }
            }),
            OpCode::FORWARD(o) => out is Next && w == VmView { ip: v.ip + 1 + o, ..v },
            OpCode::REWIND(o) => out is Next && w == VmView { ip: v.ip + 1 - o, ..v },
            OpCode::PRINT => (out matches StepOutcome::Print(x) && x@ == st.last()) && w == VmView { stack: st.drop_last(), ..a },
            OpCode::RETURN => (out matches StepOutcome::Return(x) && x@ == st.last()) && w == VmView { stack: st.drop_last(), ..a },
            OpCode::EQUAL | OpCode::NOT_EQUAL | OpCode::LESS | OpCode::LESS_EQUAL
                | OpCode::GREATER | OpCode::GREATER_EQUAL | OpCode::CONCAT | OpCode::LENGTH
                | OpCode::FOR_NUMERIC(_) | OpCode::DIVIDE | OpCode::INCREMENT { .. } => value_stepped(a, code[v.ip], w, out),
            OpCode::LITERAL { .. } => out is Next && w == a,
            OpCode::NEW_TABLE | OpCode::TABLE_GET_BY_CONSTANT { .. } | OpCode::TABLE_INSERT { .. }
                | OpCode::TABLE_BUILD(_) | OpCode::TABLE_GET { .. } | OpCode::TABLE_SET { .. } => table_stepped(a, code[v.ip], consts, w, out),
            other => (out matches StepOutcome::Host(x) && x == other) && w == v,
        }
    }
}

/// Whether `a` comes before `b` in text order (see [`str_less`]).
fn text_less(a: &str, b: &str) -> (r: bool)
    ensures
        r == str_less(a@, b@),
{
    let x = chars_of(a);
    let y = chars_of(b);
    let mut i: usize = 0;
    assert(x@.skip(0) =~= x@ && y@.skip(0) =~= y@);
    while i < x.len() && i < y.len() && x[i] == y[i]
        invariant
            i <= x@.len(),
            i <= y@.len(),
            x@ == a@,
            y@ == b@,
            str_less(a@, b@) == str_less(x@.skip(i as int), y@.skip(i as int)),
        decreases x@.len() - i,
    {
        proof {
            let xs = x@.skip(i as int);
            let ys = y@.skip(i as int);
            assert(xs.drop_first() =~= x@.skip(i as int + 1));
            assert(ys.drop_first() =~= y@.skip(i as int + 1));
            assert(xs[0] == x@[i as int] && ys[0] == y@[i as int]);
        }
        i = i + 1;
    }
    proof {
        let xs = x@.skip(i as int);
        let ys = y@.skip(i as int);
        if i < x@.len() && i < y@.len() {
            assert(xs[0] == x@[i as int] && ys[0] == y@[i as int]);
        }
    }
    if i == x.len() {
        i < y.len()
    } else if i == y.len() {
        false
    } else {
        (x[i] as u32) < (y[i] as u32)
    }
}

/// What a comparison gives for a pair that is not a float pair.
fn compare_values(op: OpCode, l: &Value, r: &Value) -> (res: Result<bool, SiltError>)
    requires
        is_compare(op),
        !float_pair(l@, r@),
    ensures
        match compare_view(op, l@, r@) {
            Ok(b) => res == Ok::<bool, SiltError>(b),
            Err(e) => res matches Err(x) && x@ == e,
        },
{
    let eq = match (l, r) {
        (Value::Integer(a), Value::Integer(b)) => *a == *b,
        (Value::String(a), Value::String(b)) => a.eq(b),
        (Value::Bool(a), Value::Bool(b)) => *a == *b,
        (Value::Nil, Value::Nil) => true,
        (Value::Infinity(a), Value::Infinity(b)) => *a == *b,
        _ => false,
    };
    let less: Result<bool, SiltError> = match (l, r) {
        (Value::Integer(a), Value::Integer(b)) => Ok(*a < *b),
        (Value::String(a), Value::String(b)) => Ok(text_less(a.as_str(), b.as_str())),
        (Value::Infinity(a), Value::Infinity(b)) => Ok(*a != *b && *a),
        _ => Err(SiltError::ExpOpValueWithValue(l.to_error(), MetaMethod::Lt, r.to_error())),
    };
    let greater: Result<bool, SiltError> = match (l, r) {
        (Value::Integer(a), Value::Integer(b)) => Ok(*a > *b),
        (Value::String(a), Value::String(b)) => Ok(text_less(b.as_str(), a.as_str())),
        (Value::Infinity(a), Value::Infinity(b)) => Ok(*a != *b && !*a),
        _ => Err(SiltError::ExpOpValueWithValue(l.to_error(), MetaMethod::Gt, r.to_error())),
    };
    match op {
        OpCode::EQUAL => Ok(eq),
        OpCode::NOT_EQUAL => Ok(!eq),
        OpCode::LESS => less,
        OpCode::GREATER => greater,
        OpCode::LESS_EQUAL => match greater {
            Ok(b) => Ok(!b),
            Err(e) => Err(e),
        },
        _ => match less {
            Ok(b) => Ok(!b),
            Err(e) => Err(e),
        },
    }
}

/// A float-comparison operand.
fn compare_operand(v: Value) -> (x: FloatArg)
    requires
        v@ is Number || v@ is Integer,
    ensures
        compare_arg(x, v@),
{
    match v {
        Value::Number(b) => FloatArg::Float(b),
        Value::Integer(i) => FloatArg::Int(i),
        _ => FloatArg::Int(0),
    }
}

/// Whether `left op right` stays in 64 bits where both read as integers
/// (see [`arith_ints`]).
fn arith_fits(op: MetaMethod, left: &Value, right: &Value) -> (b: bool)
    ensures
        b == (arith_ints(left@, right@) matches Some((a, c)) ==> i64::MIN <= int_result(op, a, c) <= i64::MAX),
{
    let a: Option<i64> = match left {
        Value::Integer(i) => Some(*i),
        Value::String(t) => parse_i64(t.as_str()),
        _ => None,
    };
    let c: Option<i64> = match right {
        Value::Integer(i) => Some(*i),
        Value::String(t) => parse_i64(t.as_str()),
        _ => None,
    };
    match (a, c) {
        (Some(x), Some(y)) => {
            let x = x as i128;
            let y = y as i128;
            assert(-0x4000_0000_0000_0000_0000_0000_0000_0000 <= x * y <= 0x4000_0000_0000_0000_0000_0000_0000_0000) by (nonlinear_arith)
                requires
                    -0x8000_0000_0000_0000 <= x <= 0x7fff_ffff_ffff_ffff,
                    -0x8000_0000_0000_0000 <= y <= 0x7fff_ffff_ffff_ffff;
            let r = if op == MetaMethod::Add { x + y } else if op == MetaMethod::Sub { x - y } else { x * y };
            -9223372036854775808i128 <= r && r <= 9223372036854775807i128
        },
        _ => true,
    }
}

impl Vm {
    /// A machine at the first instruction, with `script` in slot 0 and no
    /// globals.
    pub fn new(script: Value) -> (vm: Self)
        ensures
            vm.wf(),
            vm@ == (VmView { stack: seq![script@], ip: 0, base: 0, globals: Map::empty(), tables: Seq::empty() }),
    {
        let mut stack: Vec<Value> = Vec::new();
        stack.push(script);
        let vm = Vm { stack, ip: 0, base: 0, globals: Table::new(0), tables: Vec::new() };
        assert(vm@.stack =~= seq![vm.stack@[0]@]);
        assert(vm@.tables =~= Seq::<Map<ValueView, ValueView>>::empty());
        vm
    }

    /// The invariant of the globals and of every table holds.
    pub closed spec fn wf(&self) -> bool {
        &&& self.globals.wf()
        &&& forall|i: int| 0 <= i < self.tables@.len() ==> #[trigger] self.tables@[i].wf()
    }

    /// The table with id `id`, if the script made one.
    pub fn table(&self, id: usize) -> (r: Option<&Table>)
        ensures
            r is Some <==> id < self@.tables.len(),
            r matches Some(t) ==> t@ == self@.tables[id as int],
    {
        if id < self.tables.len() {
            Some(&self.tables[id])
        } else {
            None
        }
    }

    /// Pushes a value the host computed.
    pub fn push(&mut self, v: Value)
        ensures
            final(self)@ == (VmView { stack: old(self)@.stack.push(v@), ..old(self)@ }),
            final(self).wf() == old(self).wf(),
    {
        proof {
            assert(self.tables@ == old(self).tables@);
        }
        self.stack.push(v);
        assert(self@.stack =~= old(self)@.stack.push(v@));
    }

    /// Follows the keys `stack[from..to]` from table `id` (see [`nav`]).
    fn navigate(&self, id: usize, from: usize, to: usize) -> (r: Result<usize, SiltError>)
        requires
            self.wf(),
            from <= to <= self@.stack.len(),
            nav_ok(self@.tables, id as int, self@.stack.subrange(from as int, to as int)),
        ensures
            r matches Ok(u) ==> nav(self@.tables, id as int, self@.stack.subrange(from as int, to as int))
                == Ok::<int, SiltErrorView>(u as int) && u < self@.tables.len(),
            r matches Err(x) ==> nav(self@.tables, id as int, self@.stack.subrange(from as int, to as int))
                == Err::<int, SiltErrorView>(x@),
    {
        let ghost keys = self@.stack.subrange(from as int, to as int);
        let mut cur = id;
        let mut i = from;
        proof {
            assert(keys.skip(0) =~= keys);
        }
        while i < to
            invariant
                from <= i <= to <= self@.stack.len(),
                self.wf(),
                keys == self@.stack.subrange(from as int, to as int),
                nav(self@.tables, id as int, keys) == nav(self@.tables, cur as int, keys.skip(i - from)),
                nav_ok(self@.tables, cur as int, keys.skip(i - from)),
            decreases to - i,
        {
            let ghost rest = keys.skip(i - from);
            assert(rest[0] == self@.stack[i as int]);
            assert(rest.drop_first() =~= keys.skip(i - from + 1));
            assert(self.tables@[cur as int].wf());
            match self.tables[cur].getr(&self.stack[i]) {
                Some(Value::Table(t)) => {
                    cur = *t;
                },
                Some(v) => {
                    let ty = v.to_error();
                    return Err(SiltError::VmNonTableOperations(ty));
                },
                None => {
                    return Err(SiltError::VmNonTableOperations(ValueTypes::Nil));
                },
            }
            i = i + 1;
        }
        proof {
            assert(keys.skip(to - from) =~= Seq::<ValueView>::empty());
        }
        Ok(cur)
    }

    /// Binds `key` to `val` in table `id`.
    fn set_in_table(&mut self, id: usize, key: Value, val: Value)
        requires
            old(self).wf(),
            id < old(self)@.tables.len(),
        ensures
            final(self).wf(),
            final(self)@ == (VmView {
                tables: old(self)@.tables.update(id as int, old(self)@.tables[id as int].insert(key@, val@)),
                ..old(self)@
            }),
    {
        assert(self.tables@[id as int].wf());
        self.tables[id].set(key, val);
        proof {
            assert(self@.tables =~= old(self)@.tables.update(id as int, old(self)@.tables[id as int].insert(key@, val@)));
            assert forall|i: int| 0 <= i < self.tables@.len() implies #[trigger] self.tables@[i].wf() by {
                if i != id {
                    assert(self.tables@[i] == old(self).tables@[i]);
                }
            }
        }
    }

    /// Pushes `stack[len - c..]` one after another at the border of table
    /// `id`, then drops them from the stack.
    fn push_values(&mut self, id: usize, c: usize)
        requires
            old(self).wf(),
            id < old(self)@.tables.len(),
            c <= old(self)@.stack.len(),
            push_all_ok(old(self)@.tables[id as int],
                old(self)@.stack.subrange(old(self)@.stack.len() - c, old(self)@.stack.len() as int)),
        ensures
            final(self).wf(),
            final(self)@ == (VmView {
                stack: old(self)@.stack.take(old(self)@.stack.len() - c),
                tables: old(self)@.tables.update(id as int, push_all(old(self)@.tables[id as int],
                    old(self)@.stack.subrange(old(self)@.stack.len() - c, old(self)@.stack.len() as int))),
                ..old(self)@
            }),
    {
        let ghost v = self@;
        let n = self.stack.len();
        let ghost vals = v.stack.subrange(n - c, n as int);
        let ghost m0 = v.tables[id as int];
        let mut k = n - c;
        proof {
            assert(vals.take(0) =~= Seq::<ValueView>::empty());
        }
        while k < n
            invariant
                c <= n,
                n - c <= k <= n,
                n == self.stack@.len(),
                n == v.stack.len(),
                self.wf(),
                id < v.tables.len(),
                self@.stack == v.stack,
                self@.ip == v.ip,
                self@.base == v.base,
                self@.globals == v.globals,
                self@.tables.len() == v.tables.len(),
                forall|j: int| 0 <= j < v.tables.len() && j != id ==> #[trigger] self@.tables[j] == v.tables[j],
                vals == v.stack.subrange(n - c, n as int),
                m0 == v.tables[id as int],
                push_all_ok(m0, vals),
                self@.tables[id as int] == push_all(m0, vals.take(k - (n - c))),
            decreases n - k,
        {
            let j = k - (n - c);
            proof {
                lemma_push_all_ok_prefix(m0, vals, j + 1);
                assert(vals.take(j + 1).drop_last() =~= vals.take(j as int));
                assert(vals.take(j + 1).last() == self@.stack[k as int]);
                assert(self.tables@[id as int].wf());
            }
            let x = self.stack[k].clone();
            let ghost tb = self.tables@;
            let ghost vb = self@;
            self.tables[id].raw_push(x);
            proof {
                assert forall|i: int| 0 <= i < self.tables@.len() && i != id implies #[trigger] self.tables@[i] == tb[i] by {}
                assert forall|i: int| 0 <= i < self.tables@.len() implies #[trigger] self.tables@[i].wf() by {
                    if i != id {
                        assert(self.tables@[i] == tb[i]);
                    }
                }
                assert forall|i: int| 0 <= i < v.tables.len() && i != id implies #[trigger] self@.tables[i] == v.tables[i] by {
                    assert(self.tables@[i] == tb[i]);
                    assert(vb.tables[i] == v.tables[i]);
                }
            }
            k = k + 1;
        }
        self.stack.truncate(n - c);
        proof {
            assert(vals.take(c as int) =~= vals);
            assert(self@.stack =~= v.stack.take(v.stack.len() - c));
            assert(self@.tables =~= v.tables.update(id as int, push_all(m0, vals)));
        }
    }

    /// `TABLE_SET { depth: d }` where the value below the keys is no userdata.
    fn table_set(&mut self, d: usize) -> (out: StepOutcome)
        requires
            old(self).wf(),
            old(self)@.stack.len() >= d + 2,
            !(old(self)@.stack[old(self)@.stack.len() - d - 2] is UserData),
            old(self)@.stack[old(self)@.stack.len() - d - 2] matches ValueView::Table(id) ==> d == 0 ||
                nav_ok(old(self)@.tables, id as int,
                    old(self)@.stack.subrange(old(self)@.stack.len() - d - 1, old(self)@.stack.len() - 2)),
        ensures
            final(self).wf(),
            ({
                let a = old(self)@;
                let st = a.stack;
                let val = st.last();
                let s1 = st.drop_last();
                match s1[s1.len() - d - 1] {
                    ValueView::Table(id) => if d == 0 {
                        (out matches StepOutcome::Failed(x) && x@ == SiltErrorView::VmRuntimeError) && final(self)@ == VmView { stack: s1, ..a }
                    } else {
                        match nav(a.tables, id as int, s1.subrange(s1.len() - d, s1.len() - 1)) {
                            Ok(t) => out is Next && final(self)@ == VmView {
                                stack: s1.take(s1.len() - d - 1),
                                tables: a.tables.update(t, a.tables[t].insert(s1.last(), val)),
                                ..a
                            },
                            Err(e) => (out matches StepOutcome::Failed(x) && x@ == e) && final(self)@ == VmView { stack: s1, ..a },
                        }
                    },
                    _ => (out matches StepOutcome::Failed(x) && x@ == SiltErrorView::MetaMethodMissing(MetaMethod::Index))
                        && final(self)@ == VmView { stack: s1, ..a },
                }
            }),
    {
        let ghost v = self@;
        let n = self.stack.len();
        let val = self.stack.pop().unwrap();
        let ghost s1 = v.stack.drop_last();
        assert(self@.stack =~= s1);
        let m = n - 1;
        match &self.stack[m - d - 1] {
            Value::Table(id) => {
                let id = *id;
                if d == 0 {
                    return StepOutcome::Failed(SiltError::VmRuntimeError);
                }
                let ghost keys = s1.subrange(s1.len() - d, s1.len() - 1);
                assert(keys =~= v.stack.subrange(n - d - 1, n - 2));
                assert(self@.stack.subrange((m - d) as int, (m - 1) as int) == keys);
                match self.navigate(id, m - d, m - 1) {
                    Ok(t) => {
                        let key = self.stack[m - 1].clone();
                        self.stack.truncate(m - d - 1);
                        self.set_in_table(t, key, val);
                        proof {
                            assert(self@.stack =~= s1.take(s1.len() - d - 1));
                        }
                        StepOutcome::Next
                    },
                    Err(e) => StepOutcome::Failed(e),
                }
            },
            _ => StepOutcome::Failed(SiltError::MetaMethodMissing(MetaMethod::Index)),
        }
    }

    /// Whether following the keys `stack[from..to]` from table `id` meets
    /// only tables that exist (see [`nav_ok`]).
    fn walk_ok(&self, id: usize, from: usize, to: usize) -> (b: bool)
        requires
            self.wf(),
            from <= to <= self@.stack.len(),
        ensures
            b == nav_ok(self@.tables, id as int, self@.stack.subrange(from as int, to as int)),
    {
        let ghost keys = self@.stack.subrange(from as int, to as int);
        let mut cur = id;
        let mut i = from;
        proof {
            assert(keys.skip(0) =~= keys);
        }
        while i < to
            invariant
                from <= i <= to <= self@.stack.len(),
                self.wf(),
                keys == self@.stack.subrange(from as int, to as int),
                nav_ok(self@.tables, id as int, keys) == nav_ok(self@.tables, cur as int, keys.skip(i - from)),
            decreases to - i,
        {
            if cur >= self.tables.len() {
                return false;
            }
            let ghost rest = keys.skip(i - from);
            assert(rest[0] == self@.stack[i as int]);
            assert(rest.drop_first() =~= keys.skip(i - from + 1));
            assert(self.tables@[cur as int].wf());
            match self.tables[cur].getr(&self.stack[i]) {
                Some(Value::Table(t)) => {
                    cur = *t;
                },
                _ => {
                    return true;
                },
            }
            i = i + 1;
        }
        proof {
            assert(keys.skip(to - from) =~= Seq::<ValueView>::empty());
        }
        cur < self.tables.len()
    }

    /// Whether pushing `stack[len - c..]` one after another on table `id`
    /// never finds the border at `i64::MAX` (see [`push_all_ok`]).
    fn build_ok(&self, id: usize, c: usize) -> (b: bool)
        requires
            self.wf(),
            id < self@.tables.len(),
            c <= self@.stack.len(),
        ensures
            b == push_all_ok(self@.tables[id as int], self@.stack.subrange(self@.stack.len() - c, self@.stack.len() as int)),
    {
        let n = self.stack.len();
        let ghost vals = self@.stack.subrange(n - c, n as int);
        let ghost m0 = self@.tables[id as int];
        assert(self.tables@[id as int].wf());
        let mut scratch = self.tables[id].copy_entries();
        let mut k = n - c;
        proof {
            assert(vals.take(0) =~= Seq::<ValueView>::empty());
        }
        while k < n
            invariant
                c <= n,
                n - c <= k <= n,
                n == self@.stack.len(),
                vals == self@.stack.subrange(n - c, n as int),
                m0 == self@.tables[id as int],
                scratch.wf(),
                scratch@ == push_all(m0, vals.take(k - (n - c))),
                push_all_ok(m0, vals.take(k - (n - c))),
            decreases n - k,
        {
            let j = k - (n - c);
            proof {
                assert(vals.take(j + 1).drop_last() =~= vals.take(j as int));
                assert(vals.take(j + 1).last() == self@.stack[k as int]);
            }
            if scratch.border() == i64::MAX {
                proof {
                    assert(!push_all_ok(m0, vals.take(j + 1)));
                    if push_all_ok(m0, vals) {
                        lemma_push_all_ok_prefix(m0, vals, j + 1);
                    }
                }
                return false;
            }
            let x = self.stack[k].clone();
            scratch.raw_push(x);
            k = k + 1;
        }
        proof {
            assert(vals.take(c as int) =~= vals);
        }
        true
    }

    /// Whether the value instruction `op` can be run (see [`value_defined`]).
    fn value_ok(&self, op: OpCode) -> (b: bool)
        requires
            self.wf(),
        ensures
            b == value_defined(self@, op),
    {
        let n = self.stack.len();
        match op {
            OpCode::EQUAL | OpCode::NOT_EQUAL | OpCode::LESS | OpCode::LESS_EQUAL
                | OpCode::GREATER | OpCode::GREATER_EQUAL | OpCode::CONCAT | OpCode::DIVIDE => n >= 2,
            OpCode::FOR_NUMERIC(_) => n >= 3,
            OpCode::INCREMENT { index } => {
                if self.base >= n || index as usize >= n - self.base {
                    return false;
                }
                match (&self.stack[self.base + index as usize], &self.stack[n - 1]) {
                    (Value::Integer(i), Value::Integer(d)) => {
                        let x = *i as i128 + *d as i128;
                        -9223372036854775808i128 <= x && x <= 9223372036854775807i128
                    },
                    _ => true,
                }
            },
            OpCode::LENGTH => {
                if n < 1 {
                    return false;
                }
                match &self.stack[n - 1] {
                    Value::String(t) => crate::standard::byte_count(t.as_str()) as u64 <= 9223372036854775807u64,
                    Value::Table(id) => *id < self.tables.len(),
                    _ => true,
                }
            },
            _ => false,
        }
    }

    /// Whether the table instruction `op` can be run (see [`table_defined`]).
    fn table_ok(&self, op: OpCode, chunk: &Chunk) -> (b: bool)
        requires
            self.wf(),
        ensures
            b == table_defined(self@, op, chunk.spec_constants()),
    {
        let n = self.stack.len();
        match op {
            OpCode::NEW_TABLE => self.tables.len() < usize::MAX - 1,
            OpCode::TABLE_INSERT { offset } => {
                if n < offset as usize + 3 {
                    return false;
                }
                match &self.stack[n - offset as usize - 3] {
                    Value::Table(id) => *id < self.tables.len(),
                    _ => true,
                }
            },
            OpCode::TABLE_BUILD(c) => {
                if n < c as usize + 1 {
                    return false;
                }
                match &self.stack[n - c as usize - 1] {
                    Value::Table(id) => *id < self.tables.len() && self.build_ok(*id, c as usize),
                    _ => true,
                }
            },
            OpCode::TABLE_GET { depth } => {
                if n < depth as usize + 1 {
                    return false;
                }
                match &self.stack[n - depth as usize - 1] {
                    Value::Table(id) => depth == 0 || self.walk_ok(*id, n - depth as usize, n - 1),
                    _ => true,
                }
            },
            OpCode::TABLE_SET { depth } => {
                if n < depth as usize + 2 {
                    return false;
                }
                match &self.stack[n - depth as usize - 2] {
                    Value::Table(id) => depth == 0 || self.walk_ok(*id, n - depth as usize - 1, n - 2),
                    _ => true,
                }
            },
            OpCode::TABLE_GET_BY_CONSTANT { constant } => {
                if (constant as usize) >= chunk.constant_count() || n < 1 {
                    return false;
                }
                match &self.stack[n - 1] {
                    Value::Table(id) => *id < self.tables.len(),
                    _ => true,
                }
            },
            _ => false,
        }
    }

    /// Whether the instruction at the machine's position in `chunk` can be
    /// run, and the machine is within the bounds `step` asks for (see
    /// [`step_defined`]).
    pub fn can_step(&self, chunk: &Chunk) -> (b: bool)
        requires
            self.wf(),
        ensures
            b == (step_defined(self@, chunk.spec_code(), chunk.spec_constants())
                && self@.ip + 1 + u16::MAX < usize::MAX && self@.stack.len() + 1 < usize::MAX),
    {
        proof {
            Chunk::lemma_code_view(chunk);
        }
        if self.ip >= usize::MAX - 65536 || self.stack.len() >= usize::MAX - 1 {
            return false;
        }
        if self.ip >= chunk.code.len() {
            return true;
        }
        let op = chunk.code[self.ip];
        let n = self.stack.len();
        let nc = chunk.constant_count();
        match op {
            OpCode::CONSTANT { constant } => (constant as usize) < nc,
            OpCode::DEFINE_GLOBAL { constant } => (constant as usize) < nc && n >= 1,
            OpCode::SET_GLOBAL { constant } => (constant as usize) < nc && n >= 1,
            OpCode::GET_GLOBAL { constant } => (constant as usize) < nc,
            OpCode::GET_LOCAL { index } => self.base < n && (index as usize) < n - self.base,
            OpCode::SET_LOCAL { index } => self.base < n && (index as usize) < n - self.base,
            OpCode::POP | OpCode::NOT | OpCode::PRINT | OpCode::RETURN
                | OpCode::GOTO_IF_FALSE(_) | OpCode::GOTO_IF_TRUE(_) | OpCode::POP_AND_GOTO_IF_FALSE(_) => n >= 1,
            OpCode::NEGATE => n >= 1 && match &self.stack[n - 1] {
                Value::Integer(i) => *i != -9223372036854775808i64,
                _ => true,
            },
            OpCode::POPS(k) => (k as usize) <= n,
            OpCode::ADD | OpCode::SUB | OpCode::MULTIPLY => {
                let mm = match op {
                    OpCode::ADD => MetaMethod::Add,
                    OpCode::SUB => MetaMethod::Sub,
                    _ => MetaMethod::Mul,
                };
                n >= 2 && arith_fits(mm, &self.stack[n - 2], &self.stack[n - 1])
            },
            OpCode::REWIND(o) => (o as usize) <= self.ip + 1,
            OpCode::EQUAL | OpCode::NOT_EQUAL | OpCode::LESS | OpCode::LESS_EQUAL
                | OpCode::GREATER | OpCode::GREATER_EQUAL | OpCode::CONCAT | OpCode::LENGTH
                | OpCode::FOR_NUMERIC(_) | OpCode::DIVIDE | OpCode::INCREMENT { .. } => self.value_ok(op),
            OpCode::DEFINE_LOCAL { .. } | OpCode::TABLE_GET_FROM { .. } | OpCode::META(_)
                | OpCode::REGISTER_UPVALUE { .. } => false,
            OpCode::NEW_TABLE | OpCode::TABLE_GET_BY_CONSTANT { .. } | OpCode::TABLE_INSERT { .. }
                | OpCode::TABLE_BUILD(_) | OpCode::TABLE_GET { .. } | OpCode::TABLE_SET { .. } => self.table_ok(op, chunk),
            _ => true,
        }
    }

    /// The value of the global `name`, `nil` when unset.
    pub fn global(&self, name: &str) -> (r: Value)
        requires
            self.wf(),
        ensures
            r@ == (if self@.globals.dom().contains(ValueView::String(name@)) { self@.globals[ValueView::String(name@)] } else { ValueView::Nil }),
    {
        self.globals.get_value(&Value::String(String::from_str(name)))
    }

    /// Runs a value instruction (see [`value_stepped`]).
    fn step_value(&mut self, op: OpCode) -> (out: StepOutcome)
        requires
            old(self).wf(),
            value_defined(old(self)@, op),
            old(self)@.stack.len() + 1 < usize::MAX,
            1 <= old(self)@.ip,
            old(self)@.ip + u16::MAX < usize::MAX,
        ensures
            final(self).wf(),
            value_stepped(old(self)@, op, final(self)@, out),
    {
        let ghost v = self@;
        match op {
        OpCode::EQUAL | OpCode::NOT_EQUAL | OpCode::LESS | OpCode::LESS_EQUAL
            | OpCode::GREATER | OpCode::GREATER_EQUAL => {
            let r = self.stack.pop().unwrap();
            let l = self.stack.pop().unwrap();
            proof {
                assert(l@ == v.stack[v.stack.len() - 2]);
                assert(self@.stack =~= v.stack.drop_last().drop_last());
            }
            let floats = match (&l, &r) {
                (Value::Number(_), Value::Number(_)) => true,
                (Value::Number(_), Value::Integer(_)) => true,
                (Value::Integer(_), Value::Number(_)) => true,
                _ => false,
            };
            if floats {
                let x = compare_operand(l);
                let y = compare_operand(r);
                StepOutcome::Compare(op, x, y)
            } else {
                match compare_values(op, &l, &r) {
                    Ok(b) => {
                        self.push(Value::Bool(b));
                        StepOutcome::Next
                    },
                    Err(e) => StepOutcome::Failed(e),
                }
            }
        },
        OpCode::CONCAT => {
            let r = self.stack.pop().unwrap();
            let l = self.stack.pop().unwrap();
            proof {
                assert(l@ == v.stack[v.stack.len() - 2]);
                assert(self@.stack =~= v.stack.drop_last().drop_last());
            }
            match (l, r) {
                (Value::String(x), Value::String(y)) => {
                    let mut t = x;
                    t.append(y.as_str());
                    self.push(Value::String(t));
                    StepOutcome::Next
                },
                (x, y) => StepOutcome::Concat(x, y),
            }
        },
        OpCode::LENGTH => {
            let x = self.stack.pop().unwrap();
            assert(self@.stack =~= v.stack.drop_last());
            match &x {
                Value::String(t) => {
                    let n = crate::standard::string_len(t.as_str());
                    self.push(Value::Integer(n));
                    StepOutcome::Next
                },
                Value::Table(id) => {
                    let n = self.tables[*id].len();
                    proof {
                        assert(self.tables@[*id as int].wf());
                    }
                    self.push(Value::Integer(n as i64));
                    StepOutcome::Next
                },
                other => {
                    let t = other.to_error();
                    StepOutcome::Failed(SiltError::ExpInvalidLength(t))
                },
            }
        },
            OpCode::DIVIDE => {
                let r = self.stack.pop().unwrap();
                let l = self.stack.pop().unwrap();
                proof {
                    assert(l@ == v.stack[v.stack.len() - 2]);
                    assert(self@.stack =~= v.stack.drop_last().drop_last());
                }
                let numeric = match (&l, &r) {
                    (Value::Number(_), Value::Number(_)) | (Value::Number(_), Value::Integer(_))
                        | (Value::Integer(_), Value::Number(_)) | (Value::Integer(_), Value::Integer(_)) => true,
                    _ => false,
                };
                let lt = l.to_error();
                let rt = r.to_error();
                if numeric {
                    let x = compare_operand(l);
                    let y = compare_operand(r);
                    StepOutcome::Arith(MetaMethod::Div, ArithStep::Float(x, y,
                        SiltError::ExpOpValueWithValue(lt, MetaMethod::Div, rt)))
                } else {
                    match l {
                        Value::Table(id) => StepOutcome::Arith(MetaMethod::Div, ArithStep::TableMeta(id, r)),
                        _ => StepOutcome::Failed(SiltError::ExpOpValueWithValue(lt, MetaMethod::Div, rt)),
                    }
                }
            },
            OpCode::INCREMENT { index } => {
                let n = self.stack.len();
                let k = self.base + index as usize;
                let sum = match (&self.stack[k], &self.stack[n - 1]) {
                    (Value::Integer(i), Value::Integer(d)) => Some(*i + *d),
                    _ => None,
                };
                match sum {
                    Some(x) => {
                        self.stack.set(k, Value::Integer(x));
                        assert(self@.stack =~= v.stack.update(v.base + index, ValueView::Integer(x)));
                        StepOutcome::Next
                    },
                    None => {
                        self.ip = self.ip - 1;
                        StepOutcome::Host(op)
                    },
                }
            },
            OpCode::FOR_NUMERIC(skip) => {
                let n = self.stack.len();
                let step_is_float = match &self.stack[n - 1] {
                    Value::Number(_) => true,
                    _ => false,
                };
                let floats = match (&self.stack[n - 3], &self.stack[n - 2]) {
                    (Value::Number(_), Value::Number(_)) => true,
                    (Value::Number(_), Value::Integer(_)) => true,
                    (Value::Integer(_), Value::Number(_)) => true,
                    _ => false,
                };
                if step_is_float || floats {
                    self.ip = self.ip - 1;
                    return StepOutcome::Host(op);
                }
                let descending = match &self.stack[n - 1] {
                    Value::Integer(i) => *i < 0,
                    _ => false,
                };
                let test_op = if descending { OpCode::LESS } else { OpCode::GREATER };
                match compare_values(test_op, &self.stack[n - 3], &self.stack[n - 2]) {
                    Ok(true) => {
                        self.ip = self.ip + skip as usize;
                        StepOutcome::Next
                    },
                    Ok(false) => {
                        let x = self.stack[n - 3].clone();
                        self.push(x);
                        StepOutcome::Next
                    },
                    Err(e) => StepOutcome::Failed(e),
                }
            },
            _ => StepOutcome::Host(op),
        }
    }

    /// Runs a table instruction (see [`table_stepped`]).
    fn step_table(&mut self, op: OpCode, chunk: &Chunk) -> (out: StepOutcome)
        requires
            old(self).wf(),
            table_defined(old(self)@, op, chunk.spec_constants()),
            old(self)@.stack.len() + 1 < usize::MAX,
            old(self)@.ip >= 1,
        ensures
            final(self).wf(),
            table_stepped(old(self)@, op, chunk.spec_constants(), final(self)@, out),
    {
        let ghost v = self@;
        match op {
        OpCode::NEW_TABLE => {
            let id = self.tables.len();
            let t = Table::new(id);
            self.tables.push(t);
            proof {
                assert(self@.tables =~= v.tables.push(Map::empty()));
            }
            self.push(Value::Table(id));
            StepOutcome::Next
        },
        OpCode::TABLE_GET_BY_CONSTANT { constant } => {
            let n = self.stack.len();
            match &self.stack[n - 1] {
                Value::Table(id) => {
                    let key = chunk.get_constant(constant);
                    let x = self.tables[*id].get_value(key);
                    self.push(x);
                    StepOutcome::Next
                },
                other => {
                    let t = other.to_error();
                    StepOutcome::Failed(SiltError::VmNonTableOperations(t))
                },
            }
        },
        OpCode::TABLE_INSERT { offset } => {
            let n = self.stack.len();
            let slot = n - offset as usize - 3;
            match &self.stack[slot] {
                Value::Table(id) => {
                    let id = *id;
                    let value = self.stack.pop().unwrap();
                    let key = self.stack.pop().unwrap();
                    proof {
                        assert(key@ == v.stack[v.stack.len() - 2]);
                        assert(self@.stack =~= v.stack.drop_last().drop_last());
                    }
                    self.set_in_table(id, key, value);
                    StepOutcome::Next
                },
                _ => StepOutcome::Failed(SiltError::ChunkCorrupt),
            }
        },
        OpCode::TABLE_BUILD(count) => {
            let n = self.stack.len();
            let c = count as usize;
            match &self.stack[n - c - 1] {
                Value::Table(id) => {
                    let id = *id;
                    self.push_values(id, c);
                    StepOutcome::Next
                },
                _ => StepOutcome::Failed(SiltError::ChunkCorrupt),
            }
        },
        OpCode::TABLE_GET { depth } => {
            let n = self.stack.len();
            let d = depth as usize;
            match &self.stack[n - d - 1] {
                Value::Table(id) => {
                    let id = *id;
                    if d == 0 {
                        return StepOutcome::Failed(SiltError::VmRuntimeError);
                    }
                    match self.navigate(id, n - d, n - 1) {
                        Ok(t) => {
                            assert(self.tables@[t as int].wf());
                            let x = self.tables[t].get_value(&self.stack[n - 1]);
                            self.stack.truncate(n - d - 1);
                            self.push(x);
                            proof {
                                assert(self@.stack =~= v.stack.take(v.stack.len() - d - 1).push(x@));
                            }
                            StepOutcome::Next
                        },
                        Err(e) => StepOutcome::Failed(e),
                    }
                },
                Value::UserData(_) => {
                    self.ip = self.ip - 1;
                    StepOutcome::Host(op)
                },
                other => {
                    let ty = other.to_error();
                    StepOutcome::Failed(SiltError::VmNonTableOperations(ty))
                },
            }
        },
        OpCode::TABLE_SET { depth } => {
            let n = self.stack.len();
            let d = depth as usize;
            if let Value::UserData(_) = &self.stack[n - d - 2] {
                self.ip = self.ip - 1;
                return StepOutcome::Host(op);
            }
            self.table_set(d)
        },
            _ => StepOutcome::Host(op),
        }
    }

    /// Runs the instruction at the machine's position in `chunk` (see
    /// [`stepped`]).
    pub fn step(&mut self, chunk: &Chunk) -> (out: StepOutcome)
        requires
            old(self).wf(),
            step_defined(old(self)@, chunk.spec_code(), chunk.spec_constants()),
            old(self)@.ip + 1 + u16::MAX < usize::MAX,
            old(self)@.stack.len() + 1 < usize::MAX,
        ensures
            final(self).wf(),
            stepped(old(self)@, chunk.spec_code(), chunk.spec_constants(), final(self)@, out),
    {
        proof {
            Chunk::lemma_code_view(chunk);
        }
        if self.ip >= chunk.code.len() {
            return StepOutcome::End;
        }
        let op = chunk.code[self.ip];
        let ghost v = self@;
        self.ip = self.ip + 1;
        let ghost a = self@;
        assert(a == advanced(v));
        match op {
            OpCode::CONSTANT { constant } => {
                let c = chunk.get_constant(constant).clone();
                self.push(c);
                StepOutcome::Next
            },
            OpCode::NIL => { self.push(Value::Nil); StepOutcome::Next },
            OpCode::TRUE => { self.push(Value::Bool(true)); StepOutcome::Next },
            OpCode::FALSE => { self.push(Value::Bool(false)); StepOutcome::Next },
            OpCode::POP => {
                self.stack.pop();
                assert(self@.stack =~= v.stack.drop_last());
                StepOutcome::Next
            },
            OpCode::POPS(n) => {
                let len = self.stack.len();
                self.stack.truncate(len - n as usize);
                assert(self@.stack =~= v.stack.take(v.stack.len() - n));
                StepOutcome::Next
            },
            OpCode::GET_LOCAL { index } => {
                let x = self.stack[self.base + index as usize].clone();
                self.push(x);
                StepOutcome::Next
            },
            OpCode::SET_LOCAL { index } => {
                let x = self.stack[self.stack.len() - 1].clone();
                self.stack.set(self.base + index as usize, x);
                assert(self@.stack =~= v.stack.update(v.base + index, v.stack.last()));
                StepOutcome::Next
            },
            OpCode::DEFINE_GLOBAL { constant } => {
                let c = chunk.get_constant(constant);
                match c {
                    Value::String(_) => {
                        let key = c.clone();
                        let x = self.stack.pop().unwrap();
                        self.globals.set(key, x);
                        assert(self@.stack =~= v.stack.drop_last());
                        StepOutcome::Next
                    },
                    _ => StepOutcome::Failed(SiltError::VmCorruptConstant),
                }
            },
            OpCode::SET_GLOBAL { constant } => {
                let c = chunk.get_constant(constant);
                match c {
                    Value::String(_) => {
                        let key = c.clone();
                        let x = self.stack[self.stack.len() - 1].clone();
                        self.globals.set(key, x);
                        StepOutcome::Next
                    },
                    _ => StepOutcome::Failed(SiltError::VmCorruptConstant),
                }
            },
            OpCode::GET_GLOBAL { constant } => {
                let c = chunk.get_constant(constant);
                match c {
                    Value::String(_) => {
                        let x = self.globals.get_value(c);
                        self.push(x);
                        StepOutcome::Next
                    },
                    _ => StepOutcome::Failed(SiltError::VmCorruptConstant),
                }
            },
            OpCode::NOT => {
                let x = self.stack.pop().unwrap();
                let b = !truthy(&x);
                self.push(Value::Bool(b));
                assert(self@.stack =~= v.stack.drop_last().push(ValueView::Bool(!truthy_view(v.stack.last()))));
                StepOutcome::Next
            },
            OpCode::NEGATE => {
                let n = self.stack.len();
                match &self.stack[n - 1] {
                    Value::Integer(i) => {
                        let y = -*i;
                        self.stack.set(n - 1, Value::Integer(y));
                        assert(self@.stack =~= v.stack.drop_last().push(ValueView::Integer(y)));
                        StepOutcome::Next
                    },
                    Value::Number(b) => {
                        let bits = *b;
                        self.stack.pop();
                        assert(self@.stack =~= v.stack.drop_last());
                        StepOutcome::NegateFloat(bits)
                    },
                    other => {
                        let t = other.to_error();
                        StepOutcome::Failed(SiltError::ExpInvalidNegation(t))
                    },
                }
            },
            OpCode::ADD | OpCode::SUB | OpCode::MULTIPLY => {
                let mm = match op {
                    OpCode::ADD => MetaMethod::Add,
                    OpCode::SUB => MetaMethod::Sub,
                    _ => MetaMethod::Mul,
                };
                let r = self.stack.pop().unwrap();
                let l = self.stack.pop().unwrap();
                proof {
                    assert(l@ == v.stack[v.stack.len() - 2]);
                    assert(self@.stack =~= v.stack.drop_last().drop_last());
                }
                match binary_op(mm, l, r) {
                    ArithStep::Done(x) => {
                        self.push(x);
                        StepOutcome::Next
                    },
                    ArithStep::Failed(e) => StepOutcome::Failed(e),
                    other => StepOutcome::Arith(mm, other),
                }
            },
            OpCode::GOTO_IF_FALSE(o) => {
                if !truthy(&self.stack[self.stack.len() - 1]) {
                    self.ip = self.ip + o as usize;
                }
                StepOutcome::Next
            },
            OpCode::GOTO_IF_TRUE(o) => {
                if truthy(&self.stack[self.stack.len() - 1]) {
                    self.ip = self.ip + o as usize;
                }
                StepOutcome::Next
            },
            OpCode::POP_AND_GOTO_IF_FALSE(o) => {
                let x = self.stack.pop().unwrap();
                assert(self@.stack =~= v.stack.drop_last());
                if !truthy(&x) {
                    self.ip = self.ip + o as usize;
                }
                StepOutcome::Next
            },
            OpCode::FORWARD(o) => {
                self.ip = self.ip + o as usize;
                StepOutcome::Next
            },
            OpCode::REWIND(o) => {
                self.ip = self.ip - o as usize;
                StepOutcome::Next
            },
            OpCode::PRINT => {
                let x = self.stack.pop().unwrap();
                assert(self@.stack =~= v.stack.drop_last());
                StepOutcome::Print(x)
            },
            OpCode::RETURN => {
                let x = self.stack.pop().unwrap();
                assert(self@.stack =~= v.stack.drop_last());
                StepOutcome::Return(x)
            },
            OpCode::EQUAL | OpCode::NOT_EQUAL | OpCode::LESS | OpCode::LESS_EQUAL
                | OpCode::GREATER | OpCode::GREATER_EQUAL | OpCode::CONCAT | OpCode::LENGTH
                | OpCode::FOR_NUMERIC(_) | OpCode::DIVIDE | OpCode::INCREMENT { .. } => self.step_value(op),
            OpCode::LITERAL { .. } => StepOutcome::Next,
            OpCode::NEW_TABLE | OpCode::TABLE_GET_BY_CONSTANT { .. } | OpCode::TABLE_INSERT { .. }
                | OpCode::TABLE_BUILD(_) | OpCode::TABLE_GET { .. } | OpCode::TABLE_SET { .. } => self.step_table(op, chunk),
            other => {
                self.ip = self.ip - 1;
                StepOutcome::Host(other)
            },
        }
    }
}



/// A caller's frame, saved while a call runs: its function and closure (the
/// script runs in no closure), the instruction to go on with, and the stack
/// slot its locals start at.
#[derive(Clone, Copy, Debug)]
pub struct Frame {
    pub function: usize,
    pub closure: Option<usize>,
    pub ip: usize,
    pub base: usize,
}

/// A captured variable: open while it lives in a stack slot, closed over its
/// value once that slot is dropped.
#[derive(Debug)]
pub enum Capture {
    Open(usize),
    Closed(Value),
}

/// A [`Capture`] as a value.
pub enum CaptureView {
    Open(usize),
    Closed(ValueView),
}

impl View for Capture {
    type V = CaptureView;

    open spec fn view(&self) -> CaptureView {
        match self {
            Capture::Open(s) => CaptureView::Open(*s),
            Capture::Closed(v) => CaptureView::Closed(v@),
        }
    }
}

/// A machine with call frames: the running frame's [`Vm`], the function
/// chunks (`Value::Function(id)` is the chunk at index `id`; the script is
/// function 0), the closures made so far (`Value::Closure(id)` runs the
/// function of `closures[id]` with its captures), the captured variables, the
/// callers' saved frames, and the running function and closure.
pub struct Machine {
    vm: Vm,
    functions: Vec<Chunk>,
    closures: Vec<(usize, Vec<usize>)>,
    captures: Vec<Capture>,
    frames: Vec<Frame>,
    function: usize,
    closure: Option<usize>,
}

/// A [`Machine`] as a value.
pub struct MachineView {
    pub vm: VmView,
    pub code: Seq<Seq<OpCode>>,
    pub consts: Seq<Seq<ValueView>>,
    pub closures: Seq<(usize, Seq<usize>)>,
    pub captures: Seq<CaptureView>,
    pub frames: Seq<Frame>,
    pub function: usize,
    pub closure: Option<usize>,
}

impl View for Machine {
    type V = MachineView;

    closed spec fn view(&self) -> MachineView {
        MachineView {
            vm: self.vm@,
            code: self.functions@.map_values(|c: Chunk| c.spec_code()),
            consts: self.functions@.map_values(|c: Chunk| c.spec_constants()),
            closures: self.closures@.map_values(|c: (usize, Vec<usize>)| (c.0, c.1@)),
            captures: self.captures@.map_values(|c: Capture| c@),
            frames: self.frames@,
            function: self.function,
            closure: self.closure,
        }
    }
}

/// The instruction the running frame is at, if any is left.
pub open spec fn current_op(m: MachineView) -> Option<OpCode> {
    if 0 <= m.vm.ip < m.code[m.function as int].len() { Some(m.code[m.function as int][m.vm.ip]) } else { None }
}

/// The closure a `CALL(n)` at the current instruction calls, with `n`.
pub open spec fn call_target(m: MachineView) -> Option<(int, int)> {
    let st = m.vm.stack;
    match current_op(m) {
        Some(OpCode::CALL(n)) => if n + 1 <= st.len() {
            match st[st.len() - n - 1] {
                ValueView::Closure(cid) => if cid < m.closures.len() { Some((n as int, cid as int)) } else { None },
                _ => None,
            }
        } else {
            None
        },
        _ => None,
    }
}

/// The function a `CLOSURE` at the current instruction closes over.
pub open spec fn closure_target(m: MachineView) -> Option<usize> {
    let consts = m.consts[m.function as int];
    match current_op(m) {
        Some(OpCode::CLOSURE { constant }) => if constant < consts.len() {
            match consts[constant as int] {
                ValueView::Function(fid) => if fid < m.code.len() { Some(fid) } else { None },
                _ => None,
            }
        } else {
            None
        },
        _ => None,
    }
}

/// How many `REGISTER_UPVALUE` instructions follow one another from `i`.
pub open spec fn reg_count(code: Seq<OpCode>, i: int) -> nat
    decreases code.len() - i,
{
    if 0 <= i < code.len() && code[i] is REGISTER_UPVALUE { 1 + reg_count(code, i + 1) } else { 0 }
}

/// The first capture from `i` on that is open on `slot`.
pub open spec fn find_open(cells: Seq<CaptureView>, slot: int, i: int) -> Option<usize>
    decreases cells.len() - i,
{
    if 0 <= i < cells.len() {
        if cells[i] matches CaptureView::Open(s) && s == slot { Some(i as usize) } else { find_open(cells, slot, i + 1) }
    } else {
        None
    }
}

/// A capture found from `i` on is at or after `i` and in range.
pub proof fn lemma_find_open_bound(cells: Seq<CaptureView>, slot: int, i: int)
    requires
        0 <= i,
        cells.len() <= usize::MAX,
    ensures
        find_open(cells, slot, i) matches Some(c) ==> i <= c < cells.len(),
    decreases cells.len() - i,
{
    if i < cells.len() {
        lemma_find_open_bound(cells, slot, i + 1);
    }
}

/// The run of registrations from `i` is made of `REGISTER_UPVALUE`s, within
/// the code.
pub proof fn lemma_reg_count(code: Seq<OpCode>, i: int, t: int)
    requires
        0 <= t < reg_count(code, i),
    ensures
        0 <= i + t < code.len(),
        code[i + t] is REGISTER_UPVALUE,
    decreases t,
{
    if t > 0 {
        lemma_reg_count(code, i + 1, t - 1);
    }
}

/// The captures of the running closure (none for the script).
pub open spec fn parent_ids(m: MachineView) -> Seq<usize> {
    match m.closure {
        Some(c) => m.closures[c as int].1,
        None => Seq::empty(),
    }
}

/// One `REGISTER_UPVALUE`: a local of the running frame is captured, sharing
/// the capture already open on its slot; otherwise a capture of the running
/// closure is passed on.
pub open spec fn capture_step(cs: (Seq<CaptureView>, Seq<usize>), base: int, parent: Seq<usize>, op: OpCode)
    -> (Seq<CaptureView>, Seq<usize>)
{
    let cells = cs.0;
    let ids = cs.1;
    match op {
        OpCode::REGISTER_UPVALUE { index, neighboring } => if neighboring {
            match find_open(cells, base + index, 0) {
                Some(c) => (cells, ids.push(c)),
                None => (cells.push(CaptureView::Open((base + index) as usize)), ids.push(cells.len() as usize)),
            }
        } else {
            (cells, ids.push(parent[index as int]))
        },
        _ => cs,
    }
}

/// The captures and the new closure's capture ids after the first `n`
/// registrations from `s`.
pub open spec fn captured(cells: Seq<CaptureView>, base: int, parent: Seq<usize>, code: Seq<OpCode>, s: int, n: nat)
    -> (Seq<CaptureView>, Seq<usize>)
    decreases n,
{
    if n == 0 {
        (cells, Seq::empty())
    } else {
        capture_step(captured(cells, base, parent, code, s, (n - 1) as nat), base, parent, code[s + n - 1])
    }
}

/// The captures after closing every one open on a slot at or above `bound`
/// over that slot's value.
pub open spec fn close_all(cells: Seq<CaptureView>, stack: Seq<ValueView>, bound: int) -> Seq<CaptureView> {
    Seq::new(cells.len(), |i: int| match cells[i] {
        CaptureView::Open(s) => if s >= bound { CaptureView::Closed(stack[s as int]) } else { cells[i] },
        CaptureView::Closed(v) => cells[i],
    })
}

/// Every capture open at or above `bound` is on a slot below `top`.
pub open spec fn open_below(cells: Seq<CaptureView>, bound: int, top: int) -> bool {
    forall|i: int| 0 <= i < cells.len() ==> match #[trigger] cells[i] {
        CaptureView::Open(s) => s >= bound ==> s < top,
        CaptureView::Closed(_) => true,
    }
}

/// The capture that `GET_UPVALUE`/`SET_UPVALUE { index }` reaches.
pub open spec fn up_target(m: MachineView, index: u8) -> Option<usize> {
    match m.closure {
        Some(c) => if c < m.closures.len() && index < m.closures[c as int].1.len()
            && m.closures[c as int].1[index as int] < m.captures.len() {
            Some(m.closures[c as int].1[index as int])
        } else {
            None
        },
        None => None,
    }
}

/// The value of capture `id`.
pub open spec fn capture_value(m: MachineView, id: usize) -> ValueView {
    match m.captures[id as int] {
        CaptureView::Open(s) => m.vm.stack[s as int],
        CaptureView::Closed(v) => v,
    }
}

/// Whether a return from a called frame is the current instruction.
pub open spec fn frame_return(m: MachineView) -> bool {
    current_op(m) == Some(OpCode::RETURN) && m.frames.len() > 0
}

/// Whether the registrations after a `CLOSURE` can be run: a captured local
/// is on the stack, a passed-on capture exists.
pub open spec fn registers_ok(m: MachineView) -> bool {
    let code = m.code[m.function as int];
    let n = reg_count(code, m.vm.ip + 1);
    forall|j: int| 0 <= j < n ==> match #[trigger] code[m.vm.ip + 1 + j] {
        OpCode::REGISTER_UPVALUE { index, neighboring } => if neighboring {
            m.vm.base + index < m.vm.stack.len()
        } else {
            index < parent_ids(m).len()
        },
        _ => true,
    }
}

/// Whether the current instruction can be run (see [`step_defined`]).
pub open spec fn machine_defined(m: MachineView) -> bool {
    let st = m.vm.stack;
    if frame_return(m) {
        st.len() >= 1 && m.vm.base < st.len() && open_below(m.captures, m.vm.base, st.len() - 1)
    } else if call_target(m) is Some {
        true
    } else if closure_target(m) is Some {
        registers_ok(m)
    } else {
        match current_op(m) {
            Some(OpCode::CLOSE_UPVALUES(n)) => n <= st.len() && open_below(m.captures, st.len() - n, st.len() as int),
            Some(OpCode::GET_UPVALUE { index }) => up_target(m, index) matches Some(id)
                && (m.captures[id as int] matches CaptureView::Open(s) ==> s < st.len()),
            Some(OpCode::SET_UPVALUE { index }) => st.len() >= 1 && (up_target(m, index) matches Some(id)
                && (m.captures[id as int] matches CaptureView::Open(s) ==> s < st.len())),
            Some(OpCode::REGISTER_UPVALUE { .. }) => false,
            _ => step_defined(m.vm, m.code[m.function as int], m.consts[m.function as int]),
        }
    }
}

/// `w` and `out` are what running the current instruction of `m` gives. A
/// call of a closure saves the caller's frame and starts the callee at its
/// first instruction, with its slot as the new frame's base. A closure
/// captures what the `REGISTER_UPVALUE` instructions after it name, which it
/// skips. A return from a called frame closes the captures on the frame's
/// slots, drops the slots, pushes the returned value and resumes the caller.
/// `CLOSE_UPVALUES(n)` closes the captures on the top `n` slots and drops
/// them; `GET_UPVALUE` and `SET_UPVALUE` read and write a capture of the
/// running closure. Anything else is one step of the running frame (see
/// [`stepped`]).
pub open spec fn machine_stepped(m: MachineView, w: MachineView, out: StepOutcome) -> bool {
    let v = m.vm;
    let st = v.stack;
    if frame_return(m) {
        let fr = m.frames.last();
        let st1 = st.drop_last();
        out is Next && w == MachineView {
            vm: VmView { stack: st1.take(v.base).push(st.last()), ip: fr.ip as int, base: fr.base as int, ..v },
            captures: close_all(m.captures, st1, v.base),
            frames: m.frames.drop_last(),
            function: fr.function,
            closure: fr.closure,
            ..m
        }
    } else if call_target(m) is Some {
        let (n, cid) = call_target(m)->Some_0;
        out is Next && w == MachineView {
            vm: VmView { ip: 0, base: st.len() - n - 1, ..v },
            frames: m.frames.push(Frame { function: m.function, closure: m.closure, ip: (v.ip + 1) as usize, base: v.base as usize }),
            function: m.closures[cid].0,
            closure: Some(cid as usize),
            ..m
        }
    } else if closure_target(m) is Some {
        let fid = closure_target(m)->Some_0;
        let code = m.code[m.function as int];
        let n = reg_count(code, v.ip + 1);
        let (cells, ids) = captured(m.captures, v.base, parent_ids(m), code, v.ip + 1, n);
        out is Next && w == MachineView {
            vm: VmView { stack: st.push(ValueView::Closure(m.closures.len() as usize)), ip: v.ip + 1 + n, ..v },
            closures: m.closures.push((fid, ids)),
            captures: cells,
            ..m
        }
    } else {
        match current_op(m) {
            Some(OpCode::CLOSE_UPVALUES(n)) => out is Next && w == MachineView {
                vm: VmView { stack: st.take(st.len() - n), ip: v.ip + 1, ..v },
                captures: close_all(m.captures, st, st.len() - n),
                ..m
            },
            Some(OpCode::GET_UPVALUE { index }) => {
                let id = up_target(m, index)->Some_0;
                out is Next && w == MachineView { vm: VmView { stack: st.push(capture_value(m, id)), ip: v.ip + 1, ..v }, ..m }
            },
            Some(OpCode::SET_UPVALUE { index }) => {
                let id = up_target(m, index)->Some_0;
                out is Next && match m.captures[id as int] {
                    CaptureView::Open(s) => w == MachineView { vm: VmView { stack: st.update(s as int, st.last()), ip: v.ip + 1, ..v }, ..m },
                    CaptureView::Closed(_) => w == MachineView {
                        vm: VmView { ip: v.ip + 1, ..v },
                        captures: m.captures.update(id as int, CaptureView::Closed(st.last())),
                        ..m
                    },
                }
            },
            _ => stepped(v, m.code[m.function as int], m.consts[m.function as int], w.vm, out) && w == MachineView { vm: w.vm, ..m },
        }
    }
}

/// A return from a called function resumes its caller: the caller's function,
/// closure and frame, the instruction right after the call, and the stack cut
/// at the slot the called closure stood in, with the returned value on top.
pub proof fn law_return_resumes_caller(
    m: MachineView,
    w: MachineView,
    u: MachineView,
    r: MachineView,
    o1: StepOutcome,
    o2: StepOutcome,
)
    requires
        0 <= m.vm.ip < usize::MAX,
        0 <= m.vm.base <= usize::MAX,
        call_target(m) is Some,
        machine_stepped(m, w, o1),
        u.frames == w.frames,
        u.vm.base == w.vm.base,
        frame_return(u),
        machine_stepped(u, r, o2),
    ensures
        o1 is Next,
        o2 is Next,
        r.function == m.function,
        r.closure == m.closure,
        r.vm.ip == m.vm.ip + 1,
        r.vm.base == m.vm.base,
        r.frames == m.frames,
        r.vm.stack == u.vm.stack.drop_last().take(m.vm.stack.len() - call_target(m)->Some_0.0 - 1).push(u.vm.stack.last()),
{
    assert(!frame_return(m));
    assert(w.frames.last() == Frame { function: m.function, closure: m.closure, ip: (m.vm.ip + 1) as usize, base: m.vm.base as usize });
    assert(w.frames.drop_last() =~= m.frames);
}

/// A captured variable written through one closure reads back the value
/// written, whether it is still open on its slot or closed.
pub proof fn law_capture_read_after_write(
    m: MachineView,
    w: MachineView,
    o1: StepOutcome,
    index: u8,
    id: usize,
)
    requires
        current_op(m) == Some(OpCode::SET_UPVALUE { index }),
        up_target(m, index) == Some(id),
        m.vm.stack.len() >= 1,
        m.captures[id as int] matches CaptureView::Open(s) ==> s < m.vm.stack.len(),
        machine_stepped(m, w, o1),
    ensures
        o1 is Next,
        capture_value(w, id) == m.vm.stack.last(),
{
}

/// Reading a global right after defining it gives the value defined.
pub proof fn law_global_read_after_define(
    v: VmView,
    code: Seq<OpCode>,
    consts: Seq<ValueView>,
    c: u8,
    w1: VmView,
    o1: StepOutcome,
    w2: VmView,
    o2: StepOutcome,
)
    requires
        0 <= v.ip,
        v.ip + 1 < code.len(),
        code[v.ip] == (OpCode::DEFINE_GLOBAL { constant: c }),
        code[v.ip + 1] == (OpCode::GET_GLOBAL { constant: c }),
        c < consts.len(),
        consts[c as int] is String,
        v.stack.len() >= 1,
        stepped(v, code, consts, w1, o1),
        stepped(w1, code, consts, w2, o2),
    ensures
        o1 is Next,
        o2 is Next,
        w2.stack == v.stack.drop_last().push(v.stack.last()),
        w2.globals[consts[c as int]] == v.stack.last(),
{
}

/// Reading a table key right after writing it gives the value written: after
/// `TABLE_SET { depth: 1 }` on `t`, `k`, `x`, a `TABLE_GET { depth: 1 }` on
/// `t`, `k` from any stack over the same tables pushes `x`.
pub proof fn law_table_read_after_write(
    v: VmView,
    code: Seq<OpCode>,
    consts: Seq<ValueView>,
    w: VmView,
    o1: StepOutcome,
    u: VmView,
    r: VmView,
    o2: StepOutcome,
    id: usize,
    k: ValueView,
    x: ValueView,
)
    requires
        0 <= v.ip < code.len(),
        code[v.ip] == (OpCode::TABLE_SET { depth: 1 }),
        v.stack.len() >= 3,
        v.stack[v.stack.len() - 3] == ValueView::Table(id),
        v.stack[v.stack.len() - 2] == k,
        v.stack.last() == x,
        id < v.tables.len(),
        stepped(v, code, consts, w, o1),
        0 <= u.ip < code.len(),
        code[u.ip] == (OpCode::TABLE_GET { depth: 1 }),
        u.tables == w.tables,
        u.stack.len() >= 2,
        u.stack[u.stack.len() - 2] == ValueView::Table(id),
        u.stack.last() == k,
        stepped(u, code, consts, r, o2),
    ensures
        o1 is Next,
        o2 is Next,
        r.stack == u.stack.take(u.stack.len() - 2).push(x),
{
    let s1 = v.stack.drop_last();
    assert(s1.subrange(s1.len() - 1, s1.len() - 1) =~= Seq::<ValueView>::empty());
    assert(u.stack.subrange(u.stack.len() - 1, u.stack.len() - 1) =~= Seq::<ValueView>::empty());
    assert(s1.last() == k);
}

/// How a run of the machine ended.
#[derive(Debug)]
pub enum RunEnd {
    /// A step gave this outcome, which is not `Next`.
    Halted(StepOutcome),
    /// The next instruction cannot be run (see [`machine_defined`]), or the
    /// machine is at the bounds `Machine::step` asks for.
    Stuck,
    /// The fuel ran out; every step gave `Next`.
    OutOfFuel,
}

/// `t` is a run of steps, each of a runnable instruction, that each gave
/// `Next`.
pub open spec fn next_steps(t: Seq<MachineView>) -> bool {
    forall|i: int| 0 <= i < t.len() - 1 ==> machine_defined(#[trigger] t[i]) && machine_stepped(t[i], t[i + 1], StepOutcome::Next)
}

/// Whether `m` is within the bounds `Machine::step` asks for.
pub open spec fn machine_bounded(m: MachineView) -> bool {
    m.vm.ip + 1 + u16::MAX < usize::MAX && m.vm.stack.len() + 1 < usize::MAX
}

/// Whether `op` registers a capture for the closure made just before.
fn is_register(op: OpCode) -> (b: bool)
    ensures
        b == op is REGISTER_UPVALUE,
{
    match op {
        OpCode::REGISTER_UPVALUE { .. } => true,
        _ => false,
    }
}

impl Machine {
    /// Every function, closure and capture id the machine holds names one.
    pub closed spec fn wf(&self) -> bool {
        &&& self.vm.wf()
        &&& self.function < self.functions@.len()
        &&& (self.closure matches Some(c) ==> c < self.closures@.len())
        &&& forall|i: int| 0 <= i < self.frames@.len() ==> #[trigger] self.frames@[i].function < self.functions@.len()
            && (self.frames@[i].closure matches Some(c) ==> c < self.closures@.len())
        &&& forall|i: int| 0 <= i < self.closures@.len() ==> #[trigger] self.closures@[i].0 < self.functions@.len()
            && (forall|j: int| 0 <= j < self.closures@[i].1@.len() ==> #[trigger] self.closures@[i].1@[j] < self.captures@.len())
    }

    /// A machine at the first instruction of `script`, with the script
    /// (function 0) in slot 0.
    pub fn new(script: Chunk) -> (m: Self)
        ensures
            m.wf(),
            m@.vm == (VmView { stack: seq![ValueView::Function(0)], ip: 0, base: 0, globals: Map::empty(), tables: Seq::empty() }),
            m@.code == seq![script.spec_code()],
            m@.consts == seq![script.spec_constants()],
            m@.closures == Seq::<(usize, Seq<usize>)>::empty(),
            m@.captures == Seq::<CaptureView>::empty(),
            m@.frames == Seq::<Frame>::empty(),
            m@.function == 0,
            m@.closure == None::<usize>,
    {
        let ghost c = script.spec_code();
        let ghost k = script.spec_constants();
        let mut functions: Vec<Chunk> = Vec::new();
        functions.push(script);
        let m = Machine {
            vm: Vm::new(Value::Function(0)),
            functions,
            closures: Vec::new(),
            captures: Vec::new(),
            frames: Vec::new(),
            function: 0,
            closure: None,
        };
        assert(m@.code =~= seq![c]);
        assert(m@.consts =~= seq![k]);
        assert(m@.closures =~= Seq::<(usize, Seq<usize>)>::empty());
        assert(m@.captures =~= Seq::<CaptureView>::empty());
        m
    }

    /// Adds a function chunk; its id is the number of chunks before it.
    pub fn add_function(&mut self, chunk: Chunk) -> (id: usize)
        requires
            old(self).wf(),
        ensures
            final(self).wf(),
            id == old(self)@.code.len(),
            final(self)@ == (MachineView {
                code: old(self)@.code.push(chunk.spec_code()),
                consts: old(self)@.consts.push(chunk.spec_constants()),
                ..old(self)@
            }),
    {
        let id = self.functions.len();
        let ghost c = chunk.spec_code();
        let ghost k = chunk.spec_constants();
        self.functions.push(chunk);
        assert(self@.code =~= old(self)@.code.push(c));
        assert(self@.consts =~= old(self)@.consts.push(k));
        id
    }

    /// The running frame's machine.
    pub fn vm(&self) -> (r: &Vm)
        ensures
            r@ == self@.vm,
    {
        &self.vm
    }

    /// Closes every capture open on a slot at or above `bound` (see
    /// [`close_all`]).
    fn close_captures(&mut self, bound: usize)
        requires
            old(self).wf(),
            open_below(old(self)@.captures, bound as int, old(self)@.vm.stack.len() as int),
        ensures
            final(self).wf(),
            final(self)@ == (MachineView {
                captures: close_all(old(self)@.captures, old(self)@.vm.stack, bound as int),
                ..old(self)@
            }),
            final(self).vm == old(self).vm,
            final(self).functions == old(self).functions,
            final(self).closures == old(self).closures,
            final(self).frames == old(self).frames,
    {
        let ghost c0 = self@.captures;
        let ghost st = self@.vm.stack;
        let mut i: usize = 0;
        while i < self.captures.len()
            invariant
                self.wf(),
                i <= self.captures@.len(),
                self.captures@.len() == c0.len(),
                open_below(c0, bound as int, st.len() as int),
                st == self@.vm.stack,
                self.vm == old(self).vm,
                self.functions == old(self).functions,
                self.closures == old(self).closures,
                self.frames == old(self).frames,
                self@.vm == old(self)@.vm,
                self@.code == old(self)@.code,
                self@.consts == old(self)@.consts,
                self@.closures == old(self)@.closures,
                self@.frames == old(self)@.frames,
                self@.function == old(self)@.function,
                self@.closure == old(self)@.closure,
                forall|j: int| 0 <= j < i ==> #[trigger] self@.captures[j] == close_all(c0, st, bound as int)[j],
                forall|j: int| i <= j < c0.len() ==> #[trigger] self@.captures[j] == c0[j],
            decreases self.captures@.len() - i,
        {
            let slot = match &self.captures[i] {
                Capture::Open(s) => if *s >= bound { Some(*s) } else { None },
                Capture::Closed(_) => None,
            };
            if let Some(s) = slot {
                assert(self@.captures[i as int] == c0[i as int]);
                assert(c0[i as int] == CaptureView::Open(s));
                let x = self.vm.stack[s].clone();
                let ghost before = self@.captures;
                self.captures.set(i, Capture::Closed(x));
                proof {
                    assert forall|j: int| 0 <= j < self.captures@.len() && j != i implies
                        #[trigger] self@.captures[j] == before[j] by {}
                }
            }
            i = i + 1;
        }
        assert(self@.captures =~= close_all(c0, st, bound as int));
    }

    /// The first capture open on `slot` (see [`find_open`]).
    fn open_capture(&self, slot: usize) -> (r: Option<usize>)
        ensures
            r == find_open(self@.captures, slot as int, 0),
            r matches Some(c) ==> c < self@.captures.len(),
    {
        let total = self.captures.len();
        proof {
            lemma_find_open_bound(self@.captures, slot as int, 0);
        }
        let mut i: usize = 0;
        while i < self.captures.len()
            invariant
                i <= self.captures@.len(),
                find_open(self@.captures, slot as int, 0) == find_open(self@.captures, slot as int, i as int),
            decreases self.captures@.len() - i,
        {
            let hit = match &self.captures[i] {
                Capture::Open(s) => *s == slot,
                Capture::Closed(_) => false,
            };
            if hit {
                return Some(i);
            }
            i = i + 1;
        }
        None
    }

    /// A return from a called frame (see [`machine_stepped`]).
    fn return_from_frame(&mut self) -> (out: StepOutcome)
        requires
            old(self).wf(),
            frame_return(old(self)@),
            machine_defined(old(self)@),
        ensures
            final(self).wf(),
            machine_stepped(old(self)@, final(self)@, out),
    {
        let ghost v = self@.vm;
        let b = self.vm.base;
        proof {
            assert(close_all(old(self)@.captures, v.stack, b as int) =~= close_all(old(self)@.captures, v.stack.drop_last(), b as int));
            assert forall|i: int| 0 <= i < old(self)@.captures.len() implies match #[trigger] old(self)@.captures[i] {
                CaptureView::Open(s) => s >= b ==> s < v.stack.len(),
                CaptureView::Closed(_) => true,
            } by {}
        }
        self.close_captures(b);
        let x = self.vm.stack.pop().unwrap();
        assert(self@.vm.stack =~= v.stack.drop_last());
        let fr = self.frames.pop().unwrap();
        self.vm.stack.truncate(b);
        self.vm.stack.push(x);
        self.vm.ip = fr.ip;
        self.vm.base = fr.base;
        self.function = fr.function;
        self.closure = fr.closure;
        proof {
            assert(self.vm@.stack =~= v.stack.drop_last().take(v.base).push(v.stack.last()));
            assert(self@.frames =~= old(self)@.frames.drop_last());
        }
        StepOutcome::Next
    }

    /// A `CLOSURE` over function `fid` with the captures its registrations
    /// name (see [`machine_stepped`]).
    fn make_closure(&mut self, fid: usize) -> (out: StepOutcome)
        requires
            old(self).wf(),
            !frame_return(old(self)@),
            call_target(old(self)@) is None,
            closure_target(old(self)@) == Some(fid),
            registers_ok(old(self)@),
            old(self)@.vm.stack.len() + 1 < usize::MAX,
        ensures
            final(self).wf(),
            machine_stepped(old(self)@, final(self)@, out),
    {
        let ghost m0 = self@;
        let f = self.function;
        let ip = self.vm.ip;
        let base = self.vm.base;
        let ghost code = m0.code[f as int];
        let ghost parent = parent_ids(m0);
        proof {
            Chunk::lemma_code_view(&self.functions@[f as int]);
            assert(code == self.functions@[f as int].code@);
        }
        let len = self.functions[f].code.len();
        let mut k: usize = 0;
        while ip + 1 + k < len && is_register(self.functions[f].code[ip + 1 + k])
            invariant
                self@ == m0,
                f < self.functions@.len(),
                0 <= ip < len,
                ip + 1 + k <= len,
                len == code.len(),
                code == self.functions@[f as int].code@,
                f == m0.function,
                ip == m0.vm.ip,
                reg_count(code, ip + 1) == k + reg_count(code, ip + 1 + k),
            decreases len - ip - k,
        {
            k = k + 1;
        }
        assert(reg_count(code, ip + 1 + k) == 0);
        let mut ids: Vec<usize> = Vec::new();
        let mut j: usize = 0;
        proof {
            assert(captured(m0.captures, base as int, parent, code, ip + 1, 0) == (m0.captures, Seq::<usize>::empty()));
        }
        while j < k
            invariant
                self.wf(),
                j <= k,
                k == reg_count(code, ip + 1),
                ip + 1 + k <= len,
                len == code.len(),
                code == self.functions@[f as int].code@,
                code == m0.code[m0.function as int],
                f == m0.function,
                f == self.function,
                ip == self.vm.ip,
                base == self.vm.base,
                self@.vm == m0.vm,
                self@.code == m0.code,
                self@.consts == m0.consts,
                self@.closures == m0.closures,
                self@.frames == m0.frames,
                self@.closure == m0.closure,
                parent == parent_ids(m0),
                registers_ok(m0),
                (self@.captures, ids@) == captured(m0.captures, base as int, parent, code, ip + 1, j as nat),
                forall|t: int| 0 <= t < ids@.len() ==> #[trigger] ids@[t] < self@.captures.len(),
                forall|i: int| 0 <= i < parent.len() ==> #[trigger] parent[i] < self@.captures.len(),
            decreases k - j,
        {
            proof {
                lemma_reg_count(code, ip + 1, j as int);
            }
            let r = self.functions[f].code[ip + 1 + j];
            let ghost cells0 = self@.captures;
            let ghost ids0 = ids@;
            assert(code[m0.vm.ip + 1 + j] == r);
            proof {
                let jj = j as int;
                assert(m0.code[m0.function as int] == code);
                assert(m0.vm.ip + 1 + jj == ip + 1 + j);
                let op_j = m0.code[m0.function as int][m0.vm.ip + 1 + jj];
                assert(op_j == r);
                assert(match op_j {
                    OpCode::REGISTER_UPVALUE { index, neighboring } => if neighboring {
                        m0.vm.base + index < m0.vm.stack.len()
                    } else {
                        index < parent_ids(m0).len()
                    },
                    _ => true,
                });
            }
            match r {
                OpCode::REGISTER_UPVALUE { index, neighboring } => {
                    if neighboring {
                        assert(code[ip + 1 + j] == r);
                        let sl = self.vm.stack.len();
                        assert(sl == m0.vm.stack.len());
                        let slot = base + index as usize;
                        match self.open_capture(slot) {
                            Some(c) => {
                                ids.push(c);
                            },
                            None => {
                                let c = self.captures.len();
                                proof {
                                    assert forall|i: int, t: int| 0 <= i < self.closures@.len() && 0 <= t < self.closures@[i].1@.len()
                                        implies #[trigger] self.closures@[i].1@[t] < cells0.len() by {
                                        assert(self.closures@[i].0 < self.functions@.len());
                                    }
                                }
                                self.captures.push(Capture::Open(slot));
                                ids.push(c);
                                proof {
                                    assert(self@.captures =~= cells0.push(CaptureView::Open(slot)));
                                    assert forall|i: int| 0 <= i < self.closures@.len() implies
                                        #[trigger] self.closures@[i].0 < self.functions@.len()
                                        && (forall|t: int| 0 <= t < self.closures@[i].1@.len() ==> #[trigger] self.closures@[i].1@[t] < self.captures@.len()) by {
                                        assert forall|t: int| 0 <= t < self.closures@[i].1@.len() implies #[trigger] self.closures@[i].1@[t] < self.captures@.len() by {
                                            assert(self.closures@[i].1@[t] < cells0.len());
                                        }
                                    }
                                }
                            },
                        }
                    } else {
                        assert(code[ip + 1 + j] == r);
                        let pid = match self.closure {
                            Some(c) => {
                                assert(self@.closures[c as int] == (self.closures@[c as int].0, self.closures@[c as int].1@));
                                self.closures[c].1[index as usize]
                            },
                            None => {
                                proof {
                                    assert(parent.len() == 0);
                                }
                                0
                            },
                        };
                        ids.push(pid);
                    }
                },
                _ => {},
            }
            j = j + 1;
        }
        let cid = self.closures.len();
        let ghost ids_v = ids@;
        let ghost before = self.closures@;
        proof {
            assert(fid < self.functions@.len());
            assert forall|t: int| 0 <= t < ids_v.len() implies #[trigger] ids_v[t] < self.captures@.len() by {}
        }
        self.closures.push((fid, ids));
        proof {
            assert forall|i: int| 0 <= i < self.closures@.len() implies
                #[trigger] self.closures@[i].0 < self.functions@.len()
                && (forall|t: int| 0 <= t < self.closures@[i].1@.len() ==> #[trigger] self.closures@[i].1@[t] < self.captures@.len()) by {
                if i < before.len() {
                    assert(self.closures@[i] == before[i]);
                } else {
                    assert(self.closures@[i].1@ == ids_v);
                }
            }
        }
        self.vm.push(Value::Closure(cid));
        self.vm.ip = ip + 1 + k;
        proof {
            assert(self@.closures =~= m0.closures.push((fid, ids_v)));
        }
        StepOutcome::Next
    }

    /// Whether every capture open at or above `bound` is on a slot below
    /// `top` (see [`open_below`]).
    fn open_below_ok(&self, bound: usize, top: usize) -> (b: bool)
        ensures
            b == open_below(self@.captures, bound as int, top as int),
    {
        let mut i: usize = 0;
        while i < self.captures.len()
            invariant
                i <= self@.captures.len(),
                forall|j: int| 0 <= j < i ==> match #[trigger] self@.captures[j] {
                    CaptureView::Open(s) => s >= bound ==> s < top,
                    CaptureView::Closed(_) => true,
                },
            decreases self@.captures.len() - i,
        {
            let bad = match &self.captures[i] {
                Capture::Open(s) => *s >= bound && *s >= top,
                Capture::Closed(_) => false,
            };
            if bad {
                assert(!(match self@.captures[i as int] {
                    CaptureView::Open(s) => s >= bound ==> s < top,
                    CaptureView::Closed(_) => true,
                }));
                return false;
            }
            i = i + 1;
        }
        true
    }

    /// The capture `GET_UPVALUE`/`SET_UPVALUE { index }` reaches (see
    /// [`up_target`]).
    fn up_id(&self, index: u8) -> (r: Option<usize>)
        requires
            self.wf(),
        ensures
            r == up_target(self@, index),
    {
        match self.closure {
            Some(c) => {
                if c < self.closures.len() {
                    assert(self@.closures[c as int] == (self.closures@[c as int].0, self.closures@[c as int].1@));
                    if (index as usize) < self.closures[c].1.len() && self.closures[c].1[index as usize] < self.captures.len() {
                        return Some(self.closures[c].1[index as usize]);
                    }
                }
                None
            },
            None => None,
        }
    }

    /// The closure a `CALL` at the current instruction calls, with its
    /// argument count (see [`call_target`]).
    fn call_closure(&self) -> (r: Option<(usize, usize)>)
        requires
            self.wf(),
        ensures
            match call_target(self@) {
                Some((n, c)) => r == Some((n as usize, c as usize)),
                None => r is None,
            },
    {
        let f = self.function;
        let ip = self.vm.ip;
        proof {
            Chunk::lemma_code_view(&self.functions@[f as int]);
            assert(self@.code[f as int] == self.functions@[f as int].code@);
        }
        if ip >= self.functions[f].code.len() {
            return None;
        }
        match self.functions[f].code[ip] {
            OpCode::CALL(n) => {
                let len = self.vm.stack.len();
                if (n as usize) < len {
                    match &self.vm.stack[len - n as usize - 1] {
                        Value::Closure(cid) => if *cid < self.closures.len() { Some((n as usize, *cid)) } else { None },
                        _ => None,
                    }
                } else {
                    None
                }
            },
            _ => None,
        }
    }

    /// The function a `CLOSURE` at the current instruction closes over (see
    /// [`closure_target`]).
    fn closure_fn(&self) -> (r: Option<usize>)
        requires
            self.wf(),
        ensures
            r == closure_target(self@),
    {
        let f = self.function;
        let ip = self.vm.ip;
        proof {
            Chunk::lemma_code_view(&self.functions@[f as int]);
            assert(self@.code[f as int] == self.functions@[f as int].code@);
            assert(self@.consts[f as int] == self.functions@[f as int].spec_constants());
        }
        if ip >= self.functions[f].code.len() {
            return None;
        }
        match self.functions[f].code[ip] {
            OpCode::CLOSURE { constant } => {
                let chunk = &self.functions[f];
                if (constant as usize) < chunk.constant_count() {
                    match chunk.get_constant(constant) {
                        Value::Function(fid) => if *fid < self.functions.len() { Some(*fid) } else { None },
                        _ => None,
                    }
                } else {
                    None
                }
            },
            _ => None,
        }
    }

    /// Whether the registrations after the current instruction can be run
    /// (see [`registers_ok`]).
    fn registers_fit(&self) -> (b: bool)
        requires
            self.wf(),
        ensures
            b == registers_ok(self@),
    {
        let ghost m = self@;
        let f = self.function;
        let ip = self.vm.ip;
        let ghost code = m.code[f as int];
        proof {
            Chunk::lemma_code_view(&self.functions@[f as int]);
            assert(code == self.functions@[f as int].code@);
        }
        let len = self.functions[f].code.len();
        if ip >= len {
            assert(reg_count(code, ip + 1) == 0);
            return true;
        }
        let mut k: usize = 0;
        while ip + 1 + k < len && is_register(self.functions[f].code[ip + 1 + k])
            invariant
                self@ == m,
                f < self.functions@.len(),
                0 <= ip < len,
                ip + 1 + k <= len,
                len == code.len(),
                code == self.functions@[f as int].code@,
                reg_count(code, ip + 1) == k + reg_count(code, ip + 1 + k),
            decreases len - ip - k,
        {
            k = k + 1;
        }
        assert(reg_count(code, ip + 1 + k) == 0);
        let n = self.vm.stack.len();
        let base = self.vm.base;
        let parent_len = match self.closure {
            Some(c) => self.closures[c].1.len(),
            None => 0,
        };
        proof {
            if let Some(c) = m.closure {
                assert(m.closures[c as int] == (self.closures@[c as int].0, self.closures@[c as int].1@));
            }
            assert(parent_len == parent_ids(m).len());
        }
        let mut j: usize = 0;
        while j < k
            invariant
                self@ == m,
                f < self.functions@.len(),
                f == m.function,
                ip == m.vm.ip,
                base == m.vm.base,
                n == m.vm.stack.len(),
                code == m.code[m.function as int],
                code == self.functions@[f as int].code@,
                k == reg_count(code, ip + 1),
                ip + 1 + k <= len,
                len == code.len(),
                parent_len == parent_ids(m).len(),
                j <= k,
                forall|t: int| 0 <= t < j ==> match #[trigger] code[m.vm.ip + 1 + t] {
                    OpCode::REGISTER_UPVALUE { index, neighboring } => if neighboring {
                        m.vm.base + index < m.vm.stack.len()
                    } else {
                        index < parent_ids(m).len()
                    },
                    _ => true,
                },
            decreases k - j,
        {
            let r = self.functions[f].code[ip + 1 + j];
            assert(code[m.vm.ip + 1 + j] == r);
            match r {
                OpCode::REGISTER_UPVALUE { index, neighboring } => {
                    let fits = if neighboring {
                        base < n && (index as usize) < n - base
                    } else {
                        (index as usize) < parent_len
                    };
                    if !fits {
                        return false;
                    }
                },
                _ => {},
            }
            j = j + 1;
        }
        true
    }

    /// Whether the current instruction can be run and the machine is within
    /// the bounds `step` asks for.
    pub fn can_step(&self) -> (b: bool)
        requires
            self.wf(),
        ensures
            b == (machine_defined(self@) && machine_bounded(self@)),
    {
        let f = self.function;
        let ip = self.vm.ip;
        let n = self.vm.stack.len();
        if ip >= usize::MAX - 65536 || n >= usize::MAX - 1 {
            return false;
        }
        proof {
            Chunk::lemma_code_view(&self.functions@[f as int]);
            assert(self@.code[f as int] == self.functions@[f as int].code@);
            assert(self@.consts[f as int] == self.functions@[f as int].spec_constants());
        }
        let op: Option<OpCode> = if ip < self.functions[f].code.len() { Some(self.functions[f].code[ip]) } else { None };
        assert(op == current_op(self@));
        let is_return = match op {
            Some(OpCode::RETURN) => true,
            _ => false,
        };
        if is_return && self.frames.len() > 0 {
            let base = self.vm.base;
            return n >= 1 && base < n && self.open_below_ok(base, n - 1);
        }
        if self.call_closure().is_some() {
            return true;
        }
        if self.closure_fn().is_some() {
            return self.registers_fit();
        }
        match op {
            Some(OpCode::CLOSE_UPVALUES(k)) => (k as usize) <= n && self.open_below_ok(n - k as usize, n),
            Some(OpCode::GET_UPVALUE { index }) => match self.up_id(index) {
                Some(id) => match &self.captures[id] {
                    Capture::Open(s) => *s < n,
                    Capture::Closed(_) => true,
                },
                None => false,
            },
            Some(OpCode::SET_UPVALUE { index }) => n >= 1 && match self.up_id(index) {
                Some(id) => match &self.captures[id] {
                    Capture::Open(s) => *s < n,
                    Capture::Closed(_) => true,
                },
                None => false,
            },
            Some(OpCode::REGISTER_UPVALUE { .. }) => false,
            _ => self.vm.can_step(&self.functions[f]),
        }
    }

    /// Pushes a value the host computed (the result of a float operation, a
    /// metamethod or a native call).
    pub fn push(&mut self, v: Value)
        requires
            old(self).wf(),
        ensures
            final(self).wf(),
            final(self)@ == (MachineView { vm: VmView { stack: old(self)@.vm.stack.push(v@), ..old(self)@.vm }, ..old(self)@ }),
    {
        self.vm.push(v);
    }

    /// Runs at most `fuel` instructions: until one gives an outcome other
    /// than `Next`, or the next cannot be run. Each step is
    /// [`machine_stepped`].
    pub fn run(&mut self, fuel: u64) -> (r: RunEnd)
        requires
            old(self).wf(),
        ensures
            final(self).wf(),
            exists|t: Seq<MachineView>| #![trigger next_steps(t)]
                t.len() >= 1 && t[0] == old(self)@ && next_steps(t) && t.len() - 1 <= fuel
                && match r {
                    RunEnd::Halted(o) => !(o is Next) && machine_defined(t.last()) && machine_bounded(t.last())
                        && machine_stepped(t.last(), final(self)@, o),
                    RunEnd::Stuck => t.last() == final(self)@ && !(machine_defined(final(self)@) && machine_bounded(final(self)@)),
                    RunEnd::OutOfFuel => t.last() == final(self)@ && t.len() - 1 == fuel,
                },
    {
        let ghost mut t: Seq<MachineView> = seq![self@];
        let mut used: u64 = 0;
        while used < fuel
            invariant
                self.wf(),
                t.len() >= 1,
                t[0] == old(self)@,
                t.last() == self@,
                next_steps(t),
                t.len() - 1 == used,
                used <= fuel,
            decreases fuel - used,
        {
            if !self.can_step() {
                assert(next_steps(t));
                return RunEnd::Stuck;
            }
            let ghost before = self@;
            let out = self.step();
            match out {
                StepOutcome::Next => {
                    proof {
                        let t2 = t.push(self@);
                        assert forall|i: int| 0 <= i < t2.len() - 1 implies machine_defined(#[trigger] t2[i])
                            && machine_stepped(t2[i], t2[i + 1], StepOutcome::Next) by {
                            if i < t.len() - 1 {
                                assert(t2[i] == t[i] && t2[i + 1] == t[i + 1]);
                            } else {
                                assert(t2[i] == before && t2[i + 1] == self@);
                            }
                        }
                        t = t2;
                    }
                    used = used + 1;
                },
                other => {
                    assert(next_steps(t));
                    return RunEnd::Halted(other);
                },
            }
        }
        assert(next_steps(t));
        RunEnd::OutOfFuel
    }

    /// Runs the current instruction (see [`machine_stepped`]).
    pub fn step(&mut self) -> (out: StepOutcome)
        requires
            old(self).wf(),
            machine_defined(old(self)@),
            old(self)@.vm.ip + 1 + u16::MAX < usize::MAX,
            old(self)@.vm.stack.len() + 1 < usize::MAX,
        ensures
            final(self).wf(),
            machine_stepped(old(self)@, final(self)@, out),
    {
        let f = self.function;
        let ip = self.vm.ip;
        proof {
            Chunk::lemma_code_view(&self.functions@[f as int]);
            assert(old(self)@.code[f as int] == self.functions@[f as int].spec_code());
            assert(old(self)@.consts[f as int] == self.functions@[f as int].spec_constants());
        }
        if ip < self.functions[f].code.len() {
            let op = self.functions[f].code[ip];
            match op {
                OpCode::RETURN => {
                    if self.frames.len() > 0 {
                        return self.return_from_frame();
                    }
                },
                OpCode::CALL(n) => {
                    let len = self.vm.stack.len();
                    if (n as usize) < len {
                        let k = len - n as usize - 1;
                        if let Value::Closure(cid) = &self.vm.stack[k] {
                            let cid = *cid;
                            if cid < self.closures.len() {
                                let callee = self.closures[cid].0;
                                self.frames.push(Frame { function: f, closure: self.closure, ip: ip + 1, base: self.vm.base });
                                self.vm.ip = 0;
                                self.vm.base = k;
                                self.function = callee;
                                self.closure = Some(cid);
                                proof {
                                    assert(self.vm.tables@ == old(self).vm.tables@);
                                }
                                return StepOutcome::Next;
                            }
                        }
                    }
                },
                OpCode::CLOSURE { constant } => {
                    let chunk = &self.functions[f];
                    if (constant as usize) < chunk.constant_count() {
                        if let Value::Function(fid) = chunk.get_constant(constant) {
                            let fid = *fid;
                            if fid < self.functions.len() {
                                return self.make_closure(fid);
                            }
                        }
                    }
                },
                OpCode::CLOSE_UPVALUES(n) => {
                    let len = self.vm.stack.len();
                    let ghost st = self@.vm.stack;
                    self.close_captures(len - n as usize);
                    self.vm.stack.truncate(len - n as usize);
                    self.vm.ip = ip + 1;
                    proof {
                        assert(self@.vm.stack =~= st.take(st.len() - n));
                        assert(self.vm.tables@ == old(self).vm.tables@);
                    }
                    return StepOutcome::Next;
                },
                OpCode::GET_UPVALUE { index } => {
                    let c = self.closure.unwrap();
                    let id = self.closures[c].1[index as usize];
                    let x = match &self.captures[id] {
                        Capture::Open(s) => self.vm.stack[*s].clone(),
                        Capture::Closed(v) => v.clone(),
                    };
                    self.vm.push(x);
                    self.vm.ip = ip + 1;
                    return StepOutcome::Next;
                },
                OpCode::SET_UPVALUE { index } => {
                    let c = self.closure.unwrap();
                    let id = self.closures[c].1[index as usize];
                    let len = self.vm.stack.len();
                    let x = self.vm.stack[len - 1].clone();
                    let ghost st = self@.vm.stack;
                    let slot = match &self.captures[id] {
                        Capture::Open(s) => Some(*s),
                        Capture::Closed(_) => None,
                    };
                    match slot {
                        Some(s) => {
                            self.vm.stack.set(s, x);
                            assert(self@.vm.stack =~= st.update(s as int, st.last()));
                        },
                        None => {
                            self.captures.set(id, Capture::Closed(x));
                            assert(self@.captures =~= old(self)@.captures.update(id as int, CaptureView::Closed(st.last())));
                        },
                    }
                    self.vm.ip = ip + 1;
                    proof {
                        assert(self.vm.tables@ == old(self).vm.tables@);
                    }
                    return StepOutcome::Next;
                },
                _ => {},
            }
        }
        proof {
            assert(!frame_return(old(self)@));
            assert(call_target(old(self)@) is None);
            assert(closure_target(old(self)@) is None);
        }
        let out = self.vm.step(&self.functions[f]);
        proof {
            assert(self@.code == old(self)@.code);
            assert(self@.consts == old(self)@.consts);
        }
        out
    }
}


/// What a hot swap of the source did.
#[derive(Debug, PartialEq)]
pub enum HotswapResult {
    /// Old and new source are the same; nothing was done.
    NoChange,
    /// Code outside function bodies changed: the whole source is recompiled and
    /// run again from a fresh state.
    RootChanged,
    /// Only function bodies changed; the names of the changed functions
    /// (`anonymous` for unnamed ones).
    FunctionChanged(Vec<String>),
}

/// Handles on the userdata a VM has handed out.
pub struct UDVec(pub Vec<WeakWrapper>);

/// The lines of `s` as written: split after each `'\n'`, each line keeping its
/// own line ending (`"\r\n"` or `"\n"`); the last line has none when the text
/// does not end with one. An empty text has no lines.
pub open spec fn raw_lines(s: Seq<char>) -> Seq<Seq<char>>
    decreases s.len(),
{
    if s.len() == 0 {
        Seq::empty()
    } else {
        let k = first_newline(s);
        if 0 <= k < s.len() {
            seq![s.take(k + 1)] + raw_lines(s.skip(k + 1))
        } else {
            seq![s]
        }
    }
}

/// The lines joined back together.
pub open spec fn join_lines(ls: Seq<Seq<char>>) -> Seq<char>
    decreases ls.len(),
{
    if ls.len() == 0 {
        Seq::empty()
    } else {
        ls[0] + join_lines(ls.drop_first())
    }
}

/// Joining the lines of a text gives the text back, and no line is empty.
pub proof fn lemma_raw_lines_join(s: Seq<char>)
    ensures
        join_lines(raw_lines(s)) == s,
        forall|i: int| 0 <= i < raw_lines(s).len() ==> #[trigger] raw_lines(s)[i].len() > 0,
    decreases s.len(),
{
    if s.len() > 0 {
        lemma_first_newline_bounds(s);
        let k = first_newline(s);
        if k < s.len() {
            let rest = s.skip(k + 1);
            lemma_raw_lines_join(rest);
            let ls = raw_lines(s);
            assert(ls.drop_first() =~= raw_lines(rest));
            assert(ls[0] == s.take(k + 1));
            assert(join_lines(ls) == ls[0] + join_lines(ls.drop_first()));
            assert(s.take(k + 1) + rest =~= s);
            assert forall|i: int| 0 <= i < ls.len() implies #[trigger] ls[i].len() > 0 by {
                if i > 0 {
                    assert(ls[i] == raw_lines(rest)[i - 1]);
                }
            }
        } else {
            let ls = raw_lines(s);
            assert(ls.drop_first() =~= Seq::<Seq<char>>::empty());
            assert(join_lines(ls) == ls[0] + join_lines(ls.drop_first()));
            assert(s + Seq::<char>::empty() =~= s);
        }
    } else {
        assert(s =~= Seq::<char>::empty());
    }
}

/// Line `i` (0-based) of `ls`, empty past the end.
pub open spec fn line_or_empty(ls: Seq<Seq<char>>, i: int) -> Seq<char> {
    if 0 <= i < ls.len() { ls[i] } else { Seq::empty() }
}

/// Whether line `i` (0-based) differs between two texts, line endings included.
pub open spec fn line_differs(old: Seq<char>, new: Seq<char>, i: int) -> bool {
    line_or_empty(raw_lines(old), i) != line_or_empty(raw_lines(new), i)
}

/// The number of lines of the longer of two texts.
pub open spec fn max_lines(old: Seq<char>, new: Seq<char>) -> int {
    let a = raw_lines(old).len() as int;
    let b = raw_lines(new).len() as int;
    if a >= b { a } else { b }
}

/// Two texts with no differing line are the same text.
pub proof fn lemma_no_differing_line(old: Seq<char>, new: Seq<char>)
    requires
        forall|i: int| 0 <= i < max_lines(old, new) ==> !line_differs(old, new, i),
    ensures
        old == new,
{
    lemma_raw_lines_join(old);
    lemma_raw_lines_join(new);
    let a = raw_lines(old);
    let b = raw_lines(new);
    if a.len() > b.len() {
        assert(!line_differs(old, new, b.len() as int));
        assert(a[b.len() as int].len() > 0);
    }
    if b.len() > a.len() {
        assert(!line_differs(old, new, a.len() as int));
        assert(b[a.len() as int].len() > 0);
    }
    assert forall|i: int| 0 <= i < a.len() implies a[i] == b[i] by {
        assert(!line_differs(old, new, i));
    }
    assert(a =~= b);
}

/// The bounds `(start, end)` of every line of `cs` as [`raw_lines`] gives them.
fn raw_line_bounds(cs: &Vec<char>) -> (r: Vec<(usize, usize)>)
    ensures
        r@.len() == raw_lines(cs@).len(),
        forall|i: int| 0 <= i < r@.len() ==> {
            &&& (#[trigger] r@[i]).0 <= r@[i].1 <= cs@.len()
            &&& cs@.subrange(r@[i].0 as int, r@[i].1 as int) == raw_lines(cs@)[i]
        },
{
    let mut r: Vec<(usize, usize)> = Vec::new();
    let mut pos: usize = 0;
    assert(cs@.skip(0) =~= cs@);
    while pos < cs.len()
        invariant
            pos <= cs@.len(),
            raw_lines(cs@).len() == r@.len() + raw_lines(cs@.skip(pos as int)).len(),
            forall|i: int| 0 <= i < raw_lines(cs@.skip(pos as int)).len()
                ==> raw_lines(cs@)[r@.len() + i] == #[trigger] raw_lines(cs@.skip(pos as int))[i],
            forall|i: int| 0 <= i < r@.len() ==> {
                &&& (#[trigger] r@[i]).0 <= r@[i].1 <= cs@.len()
                &&& cs@.subrange(r@[i].0 as int, r@[i].1 as int) == raw_lines(cs@)[i]
            },
        decreases cs@.len() - pos,
    {
        let ghost rest = cs@.skip(pos as int);
        let k = scan_newline(cs, pos);
        proof {
            assert forall|jj: int| 0 <= jj < k - pos implies rest[jj] != '\n' by {
                assert(rest[jj] == cs@[pos + jj]);
            }
            if k < cs@.len() {
                assert(rest[k - pos] == cs@[k as int]);
            }
            lemma_first_newline_at(rest, k - pos);
        }
        if k < cs.len() {
            let ghost line = rest.take(k - pos + 1);
            proof {
                assert(rest.skip(k - pos + 1) =~= cs@.skip(k + 1));
                assert(raw_lines(rest) == seq![line] + raw_lines(cs@.skip(k + 1)));
                assert(raw_lines(rest)[0] == line);
                assert(cs@.subrange(pos as int, k + 1) =~= line);
            }
            r.push((pos, k + 1));
            pos = k + 1;
            proof {
                assert forall|i: int| 0 <= i < raw_lines(cs@.skip(pos as int)).len()
                    implies raw_lines(cs@)[r@.len() + i] == #[trigger] raw_lines(cs@.skip(pos as int))[i] by {
                    assert(raw_lines(rest)[i + 1] == raw_lines(cs@.skip(pos as int))[i]);
                }
            }
        } else {
            proof {
                assert(raw_lines(rest) == seq![rest]);
                assert(raw_lines(rest)[0] == rest);
                assert(cs@.subrange(pos as int, cs@.len() as int) =~= rest);
            }
            r.push((pos, cs.len()));
            proof {
                assert(cs@.skip(cs@.len() as int) =~= Seq::<char>::empty());
            }
            pos = cs.len();
        }
    }
    proof {
        assert(cs@.skip(pos as int) =~= Seq::<char>::empty());
    }
    r
}

/// Whether characters `a[af..at]` and `b[bf..bt]` are the same text.
fn same_range(a: &Vec<char>, af: usize, at: usize, b: &Vec<char>, bf: usize, bt: usize) -> (r: bool)
    requires
        af <= at <= a@.len(),
        bf <= bt <= b@.len(),
    ensures
        r == (a@.subrange(af as int, at as int) == b@.subrange(bf as int, bt as int)),
{
    if at - af != bt - bf {
        assert(a@.subrange(af as int, at as int).len() != b@.subrange(bf as int, bt as int).len());
        return false;
    }
    let n = at - af;
    let mut k: usize = 0;
    while k < n
        invariant
            n == at - af == bt - bf,
            af <= at <= a@.len(),
            bf <= bt <= b@.len(),
            k <= n,
            forall|j: int| 0 <= j < k ==> a@.subrange(af as int, at as int)[j] == #[trigger] b@.subrange(bf as int, bt as int)[j],
        decreases n - k,
    {
        if a[af + k] != b[bf + k] {
            assert(a@.subrange(af as int, at as int)[k as int] != b@.subrange(bf as int, bt as int)[k as int]);
            return false;
        }
        k += 1;
    }
    assert(a@.subrange(af as int, at as int) =~= b@.subrange(bf as int, bt as int));
    true
}

/// The 1-based numbers of the lines that differ between `old` and `new`, line
/// endings included, in increasing order; a line missing from one text counts as
/// empty. No lines means the two sources are identical.
pub fn find_changed_lines(old: &str, new: &str) -> (r: Vec<usize>)
    ensures
        r@.len() == 0 <==> old@ == new@,
        forall|k: int| 0 <= k < r@.len() ==> 1 <= #[trigger] r@[k] <= max_lines(old@, new@)
            && line_differs(old@, new@, r@[k] - 1),
        forall|k: int, l: int| 0 <= k < l < r@.len() ==> r@[k] < r@[l],
        forall|i: int| 0 <= i < max_lines(old@, new@) && line_differs(old@, new@, i)
            ==> r@.contains((i + 1) as usize),
{
    let a = chars_of(old);
    let b = chars_of(new);
    let la = raw_line_bounds(&a);
    let lb = raw_line_bounds(&b);
    let max_len = if la.len() >= lb.len() { la.len() } else { lb.len() };
    let mut r: Vec<usize> = Vec::new();
    let mut i: usize = 0;
    while i < max_len
        invariant
            a@ == old@,
            b@ == new@,
            la@.len() == raw_lines(a@).len(),
            lb@.len() == raw_lines(b@).len(),
            forall|m: int| 0 <= m < la@.len() ==> {
                &&& (#[trigger] la@[m]).0 <= la@[m].1 <= a@.len()
                &&& a@.subrange(la@[m].0 as int, la@[m].1 as int) == raw_lines(a@)[m]
            },
            forall|m: int| 0 <= m < lb@.len() ==> {
                &&& (#[trigger] lb@[m]).0 <= lb@[m].1 <= b@.len()
                &&& b@.subrange(lb@[m].0 as int, lb@[m].1 as int) == raw_lines(b@)[m]
            },
            max_len == max_lines(old@, new@),
            i <= max_len,
            forall|k: int| 0 <= k < r@.len() ==> 1 <= #[trigger] r@[k] <= i
                && line_differs(old@, new@, r@[k] - 1),
            forall|k: int, l: int| 0 <= k < l < r@.len() ==> r@[k] < r@[l],
            forall|m: int| 0 <= m < i && line_differs(old@, new@, m) ==> r@.contains((m + 1) as usize),
        decreases max_len - i,
    {
        let (af, at) = if i < la.len() { la[i] } else { (0, 0) };
        let (bf, bt) = if i < lb.len() { lb[i] } else { (0, 0) };
        let same = same_range(&a, af, at, &b, bf, bt);
        proof {
            assert(a@.subrange(af as int, at as int) == line_or_empty(raw_lines(a@), i as int)) by {
                if !(i < la@.len()) {
                    assert(a@.subrange(0, 0) =~= Seq::<char>::empty());
                }
            }
            assert(b@.subrange(bf as int, bt as int) == line_or_empty(raw_lines(b@), i as int)) by {
                if !(i < lb@.len()) {
                    assert(b@.subrange(0, 0) =~= Seq::<char>::empty());
                }
            }
        }
        if !same {
            let ghost before = r@;
            r.push(i + 1);
            proof {
                assert(r@[r@.len() - 1] == i + 1);
                assert forall|m: int| 0 <= m < i + 1 && line_differs(old@, new@, m)
                    implies r@.contains((m + 1) as usize) by {
                    if m < i {
                        let w = choose|w: int| 0 <= w < before.len() && before[w] == (m + 1) as usize;
                        assert(r@[w] == (m + 1) as usize);
                    } else {
                        assert(r@[r@.len() - 1] == (m + 1) as usize);
                    }
                }
            }
        } else {
            proof {
                assert forall|m: int| 0 <= m < i + 1 && line_differs(old@, new@, m)
                    implies r@.contains((m + 1) as usize) by {
                    assert(m < i);
                }
            }
        }
        i += 1;
    }
    proof {
        if r@.len() == 0 {
            assert forall|m: int| 0 <= m < max_lines(old@, new@) implies !line_differs(old@, new@, m) by {
                if line_differs(old@, new@, m) {
                    assert(r@.contains((m + 1) as usize));
                }
            }
            lemma_no_differing_line(old@, new@);
        }
        if old@ == new@ && r@.len() > 0 {
            assert(line_differs(old@, new@, r@[0] - 1));
        }
    }
    r
}

/// A compiled function as a hot swap sees it: the source lines it spans
/// (first and last, 1-based) and its name, if it has one.
pub struct FunctionSpan {
    pub start_line: usize,
    pub end_line: usize,
    pub name: Option<String>,
}

/// Whether the span holds `line`.
pub open spec fn span_holds(f: FunctionSpan, line: usize) -> bool {
    f.start_line <= line <= f.end_line
}

/// Whether a changed line falls inside the span.
pub open spec fn span_overlaps(f: FunctionSpan, changed: Seq<usize>) -> bool {
    exists|k: int| 0 <= k < changed.len() && f.start_line <= #[trigger] changed[k] <= f.end_line
}

/// The name a changed function is reported under.
pub open spec fn span_name(f: FunctionSpan) -> Seq<char> {
    match f.name {
        Some(n) => n@,
        None => "anonymous"@,
    }
}

/// The names of the functions, among the first `n`, whose span holds a changed
/// line, in order.
pub open spec fn changed_names(fs: Seq<FunctionSpan>, changed: Seq<usize>, n: int) -> Seq<Seq<char>>
    decreases n,
{
    if n <= 0 {
        Seq::empty()
    } else if span_overlaps(fs[n - 1], changed) {
        changed_names(fs, changed, n - 1).push(span_name(fs[n - 1]))
    } else {
        changed_names(fs, changed, n - 1)
    }
}

/// Whether the changed line forces a full reload: root code sits on it, or no
/// function's span holds it.
pub open spec fn line_forces_reload(line: usize, fs: Seq<FunctionSpan>, root_lines: Seq<usize>) -> bool {
    root_lines.contains(line)
        || !(exists|f: int| 0 <= f < fs.len() && span_holds(#[trigger] fs[f], line))
}

/// What a hot swap has to do, given the changed lines, the spans of the
/// functions compiled from the new source, and the lines that carry root-level
/// code (other than function definitions).
pub open spec fn spec_hotswap_plan(changed: Seq<usize>, fs: Seq<FunctionSpan>, root_lines: Seq<usize>) -> (bool, bool, Seq<Seq<char>>) {
    let names = changed_names(fs, changed, fs.len() as int);
    let root = exists|k: int| 0 <= k < changed.len() && line_forces_reload(#[trigger] changed[k], fs, root_lines);
    if changed.len() == 0 {
        (false, false, Seq::empty())
    } else if root || names.len() == 0 {
        (true, false, Seq::empty())
    } else {
        (false, true, names)
    }
}

/// A source compared with itself has no changed line, and a hot swap with no
/// changed line does nothing.
pub proof fn law_unchanged_source(src: Seq<char>, fs: Seq<FunctionSpan>, root_lines: Seq<usize>)
    ensures
        forall|i: int| !line_differs(src, src, i),
        spec_hotswap_plan(Seq::empty(), fs, root_lines) == (false, false, Seq::<Seq<char>>::empty()),
{
}

/// Whether `x` is among `v`.
fn holds(v: &Vec<usize>, x: usize) -> (b: bool)
    ensures
        b == v@.contains(x),
{
    let mut k: usize = 0;
    while k < v.len()
        invariant
            k <= v@.len(),
            forall|j: int| 0 <= j < k ==> v@[j] != x,
        decreases v@.len() - k,
    {
        if v[k] == x {
            return true;
        }
        k += 1;
    }
    false
}

/// Decides what a hot swap does: nothing when no line changed; a full reload
/// when a changed line holds root-level code or lies outside every function,
/// or when no function changed; else a swap of the changed functions, named in
/// order.
pub fn hotswap_plan(changed: &Vec<usize>, functions: &Vec<FunctionSpan>, root_code_lines: &Vec<usize>) -> (r: HotswapResult)
    ensures
        ({
            let (root, swap, names) = spec_hotswap_plan(changed@, functions@, root_code_lines@);
            &&& (!root && !swap) <==> r is NoChange
            &&& root <==> r is RootChanged
            &&& swap ==> (r matches HotswapResult::FunctionChanged(v)
                && v@.len() == names.len()
                && forall|k: int| 0 <= k < names.len() ==> (#[trigger] v@[k])@ == names[k])
        }),
{
    if changed.len() == 0 {
        return HotswapResult::NoChange;
    }
    let mut names: Vec<String> = Vec::new();
    let mut f: usize = 0;
    while f < functions.len()
        invariant
            f <= functions@.len(),
            names@.len() == changed_names(functions@, changed@, f as int).len(),
            forall|k: int| 0 <= k < names@.len()
                ==> (#[trigger] names@[k])@ == changed_names(functions@, changed@, f as int)[k],
        decreases functions@.len() - f,
    {
        let span = &functions[f];
        let mut overlaps = false;
        let mut k: usize = 0;
        while k < changed.len()
            invariant
                k <= changed@.len(),
                span == &functions@[f as int],
                overlaps == (exists|j: int| 0 <= j < k && span.start_line <= #[trigger] changed@[j] <= span.end_line),
            decreases changed@.len() - k,
        {
            let line = changed[k];
            if span.start_line <= line && line <= span.end_line {
                overlaps = true;
            }
            k += 1;
        }
        if overlaps {
            let name = match &span.name {
                Some(n) => n.clone(),
                None => String::from_str("anonymous"),
            };
            names.push(name);
        }
        f += 1;
    }
    let mut root = false;
    let mut k: usize = 0;
    while k < changed.len()
        invariant
            k <= changed@.len(),
            root == (exists|j: int| 0 <= j < k && line_forces_reload(#[trigger] changed@[j], functions@, root_code_lines@)),
        decreases changed@.len() - k,
    {
        let line = changed[k];
        let on_root = holds(root_code_lines, line);
        let mut covered = false;
        let mut g: usize = 0;
        while g < functions.len()
            invariant
                g <= functions@.len(),
                covered == (exists|h: int| 0 <= h < g && span_holds(#[trigger] functions@[h], line)),
            decreases functions@.len() - g,
        {
            if functions[g].start_line <= line && line <= functions[g].end_line {
                covered = true;
            }
            g += 1;
        }
        if on_root || !covered {
            root = true;
        }
        k += 1;
    }
    if root || names.len() == 0 {
        HotswapResult::RootChanged
    } else {
        HotswapResult::FunctionChanged(names)
    }
}

} // verus!

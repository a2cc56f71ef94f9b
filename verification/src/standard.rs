//! The computing core of the standard library's natives: the VM coerces the
//! arguments, these functions decide the result.

use vstd::prelude::*;
use vstd::string::*;
use vstd::utf8::encode_utf8;
use crate::error::SiltError;
use crate::lsp::repeat_seq;
use crate::text::{push_char, push_repeated, repeat_char};
use crate::table::{ikey, inserted, lemma_border_below_top, pushed, Table};
use crate::value::{spec_type_of, Value, ValueView};

verus! {

/// The state `math.random` starts from, and that a zero seed is replaced by.
pub const DEFAULT_SEED: u64 = 0x2545_F491_4F6C_DD1D;

/// In Lua only `false` and `nil` are false.
pub open spec fn spec_truthy(v: Value) -> bool {
    !(v matches Value::Nil) && !(v matches Value::Bool(false))
}

/// Whether a value counts as true.
pub fn truthy(v: &Value) -> (b: bool)
    ensures
        b == spec_truthy(*v),
{
    match v {
        Value::Nil => false,
        Value::Bool(b) => *b,
        _ => true,
    }
}

/// The length in bytes of a string's UTF-8 encoding.
pub open spec fn byte_len(s: Seq<char>) -> int {
    encode_utf8(s).len() as int
}

/// The length of `s` in bytes.
pub(crate) fn byte_count(s: &str) -> (n: usize)
    ensures
        n == byte_len(s@),
{
    s.as_bytes().len()
}

/// `string.len`: the length of `s` in bytes.
pub fn string_len(s: &str) -> (n: i64)
    requires
        byte_len(s@) <= i64::MAX,
    ensures
        n == byte_len(s@),
{
    let n = s.as_bytes().len();
    n as i64
}

/// `string.reverse`: the characters of `s` in reverse order.
pub fn string_reverse(s: &str) -> (r: String)
    ensures
        r@ == s@.reverse(),
{
    let n = s.unicode_len();
    let mut r = String::new();
    let mut k: usize = 0;
    while k < n
        invariant
            n == s@.len(),
            k <= n,
            r@ == s@.reverse().take(k as int),
        decreases n - k,
    {
        let c = s.get_char(n - 1 - k);
        push_char(&mut r, c);
        k += 1;
        assert(r@ =~= s@.reverse().take(k as int));
    }
    assert(s@.reverse().take(n as int) =~= s@.reverse());
    r
}

/// `string.rep`: `n` copies of `s`, nothing when `n` is not positive.
pub fn string_rep(s: &str, n: i64) -> (r: String)
    requires
        n <= 0 || byte_len(s@) * n <= usize::MAX,
    ensures
        r@ == repeat_seq(s@, n as int),
{
    let mut r = String::new();
    let mut k: i64 = 0;
    while k < n
        invariant
            0 <= k,
            n <= 0 ==> k == 0,
            n > 0 ==> k <= n,
            r@ == repeat_seq(s@, k as int),
        decreases n - k,
    {
        r.append(s);
        k += 1;
    }
    r
}

/// The Unicode upper case of a text, as `str::to_uppercase` computes it.
pub uninterp spec fn upper_case(s: Seq<char>) -> Seq<char>;

/// The Unicode lower case of a text, as `str::to_lowercase` computes it.
pub uninterp spec fn lower_case(s: Seq<char>) -> Seq<char>;

/// `str::to_uppercase`: its result is named [`upper_case`] of the argument's
/// characters; the Unicode case mapping itself is not stated.
#[verifier::external_body]
fn to_upper(s: &str) -> (r: String)
    ensures
        r@ == upper_case(s@),
{
    s.to_uppercase()
}

/// `str::to_lowercase`: its result is named [`lower_case`] of the argument's
/// characters; the Unicode case mapping itself is not stated.
#[verifier::external_body]
fn to_lower(s: &str) -> (r: String)
    ensures
        r@ == lower_case(s@),
{
    s.to_lowercase()
}

/// `string.upper`: `s` in upper case.
pub fn string_upper(s: &str) -> (r: String)
    ensures
        r@ == upper_case(s@),
{
    to_upper(s)
}

/// `string.lower`: `s` in lower case.
pub fn string_lower(s: &str) -> (r: String)
    ensures
        r@ == lower_case(s@),
{
    to_lower(s)
}

/// The characters `string.sub(s, i, j)` keeps of a string of `len` characters:
/// the 1-based, inclusive, possibly negative bounds made into a half-open range
/// of 0-based positions, empty when they cross.
pub open spec fn sub_bounds(len: int, i: int, j: int) -> (int, int) {
    let a = if i < 0 { if len + i + 1 > 1 { len + i + 1 } else { 1 } } else if i == 0 { 1 } else { i };
    let b = if j < 0 { len + j + 1 } else if j > len { len } else { j };
    if a > b { (0, 0) } else { (a - 1, b) }
}

/// `string.sub(s, i [, j])`: the characters from position `i` through `j`
/// (1-based, inclusive; negative positions count from the end; `j` defaults to
/// -1).
pub fn string_sub(s: &str, i: i64, j: Option<i64>) -> (r: String)
    requires
        s@.len() <= i64::MAX,
    ensures
        ({
            let jj = match j { Some(v) => v as int, None => -1 };
            let (a, b) = sub_bounds(s@.len() as int, i as int, jj);
            r@ == s@.subrange(a, b)
        }),
{
    let len = s.unicode_len() as i64;
    let mut a = i;
    let mut b = match j {
        Some(v) => v,
        None => -1,
    };
    if a < 0 {
        a = if len + a + 1 > 1 { len + a + 1 } else { 1 };
    } else if a == 0 {
        a = 1;
    }
    if b < 0 {
        b = len + b + 1;
    } else if b > len {
        b = len;
    }
    if a > b {
        return String::new();
    }
    let from = (a - 1) as usize;
    let to = b as usize;
    let mut r = String::new();
    let mut k = from;
    while k < to
        invariant
            from <= k <= to <= s@.len(),
            r@ == s@.subrange(from as int, k as int),
        decreases to - k,
    {
        push_char(&mut r, s.get_char(k));
        k += 1;
        assert(r@ =~= s@.subrange(from as int, k as int));
    }
    r
}

/// `string.byte(s [, i])`: the byte at 1-based position `i` (default 1;
/// negative counts from the end) of `s`'s UTF-8 encoding, `None` outside it.
pub fn string_byte(s: &str, i: Option<i64>) -> (r: Option<i64>)
    requires
        byte_len(s@) <= i64::MAX,
    ensures
        ({
            let len = byte_len(s@);
            let ii = match i { Some(v) => v as int, None => 1 };
            let idx = if ii < 0 { len + ii + 1 } else { ii };
            if idx < 1 || idx > len {
                r == None::<i64>
            } else {
                r == Some(encode_utf8(s@)[idx - 1] as i64)
            }
        }),
{
    let bytes = s.as_bytes();
    let len = bytes.len() as i64;
    let ii = match i {
        Some(v) => v,
        None => 1,
    };
    let idx = if ii < 0 { len + ii + 1 } else { ii };
    if idx < 1 || idx > len {
        return None;
    }
    Some(bytes[(idx - 1) as usize] as i64)
}

/// The character of byte value `b` (Latin-1).
fn byte_char(b: u8) -> (c: char)
    ensures
        c as int == b as int,
{
    b as char
}

/// The message `string.char` fails with on a code outside a byte.
pub open spec fn char_range_message() -> Seq<char> {
    "bad argument to 'char' (value out of range)"@
}

/// `string.char(...)`: the string of the given byte values, each read as the
/// character with that code; fails on the first code outside `0..=255`.
pub fn string_char(codes: &Vec<i64>) -> (r: Result<String, SiltError>)
    ensures
        match r {
            Ok(s) => {
                &&& forall|k: int| 0 <= k < codes@.len() ==> 0 <= #[trigger] codes@[k] <= 255
                &&& s@.len() == codes@.len()
                &&& forall|k: int| 0 <= k < codes@.len() ==> s@[k] as int == #[trigger] codes@[k]
            },
            Err(e) => {
                &&& exists|k: int| 0 <= k < codes@.len() && !(0 <= #[trigger] codes@[k] <= 255)
                &&& e == SiltError::Custom(e->Custom_0)
                &&& e->Custom_0@ == char_range_message()
            },
        },
{
    let mut s = String::new();
    let mut k: usize = 0;
    while k < codes.len()
        invariant
            k <= codes@.len(),
            s@.len() == k,
            forall|m: int| 0 <= m < k ==> 0 <= #[trigger] codes@[m] <= 255,
            forall|m: int| 0 <= m < k ==> s@[m] as int == #[trigger] codes@[m],
        decreases codes@.len() - k,
    {
        let c = codes[k];
        if c < 0 || c > 255 {
            assert(!(0 <= codes@[k as int] <= 255));
            return Err(SiltError::Custom(String::from_str("bad argument to 'char' (value out of range)")));
        }
        push_char(&mut s, byte_char(c as u8));
        k += 1;
    }
    Ok(s)
}

/// `s` padded with spaces to `width` bytes, on the right when `left`, else on
/// the left; unchanged when already that wide.
pub open spec fn spec_pad_str(s: Seq<char>, width: int, left: bool) -> Seq<char> {
    if byte_len(s) >= width {
        s
    } else {
        let fill = repeat_char(' ', (width - byte_len(s)) as nat);
        if left { s + fill } else { fill + s }
    }
}

/// Pads a formatted field to `width` bytes with spaces.
pub fn pad_str(s: &str, width: usize, left: bool) -> (r: String)
    ensures
        r@ == spec_pad_str(s@, width as int, left),
{
    let n = s.as_bytes().len();
    if n >= width {
        return String::from_str(s);
    }
    let mut r = String::new();
    if left {
        r.append(s);
        push_repeated(&mut r, ' ', width - n);
    } else {
        push_repeated(&mut r, ' ', width - n);
        r.append(s);
    }
    r
}

/// A numeric field: sign or prefix, then magnitude, padded to `width` bytes.
/// Left-aligned fields are padded with trailing spaces; right-aligned ones with
/// zeros between sign and digits when `zero`, else with leading spaces.
pub open spec fn spec_pad_number(sign: Seq<char>, mag: Seq<char>, width: int, left: bool, zero: bool) -> Seq<char> {
    let total = byte_len(sign) + byte_len(mag);
    if total >= width {
        sign + mag
    } else {
        let pad = (width - total) as nat;
        if left {
            sign + mag + repeat_char(' ', pad)
        } else if zero {
            sign + repeat_char('0', pad) + mag
        } else {
            repeat_char(' ', pad) + sign + mag
        }
    }
}

/// Pads a numeric field to `width` bytes.
pub fn pad_number(sign: &str, mag: &str, width: usize, left: bool, zero: bool) -> (r: String)
    requires
        byte_len(sign@) + byte_len(mag@) <= usize::MAX,
    ensures
        r@ == spec_pad_number(sign@, mag@, width as int, left, zero),
{
    let total = sign.as_bytes().len() + mag.as_bytes().len();
    let mut r = String::from_str(sign);
    if total >= width {
        r.append(mag);
        return r;
    }
    let pad = width - total;
    if left {
        r.append(mag);
        push_repeated(&mut r, ' ', pad);
        r
    } else if zero {
        push_repeated(&mut r, '0', pad);
        r.append(mag);
        r
    } else {
        let mut f = String::new();
        push_repeated(&mut f, ' ', pad);
        f.append(sign);
        f.append(mag);
        f
    }
}

/// One step of the xorshift generator behind `math.random`.
pub open spec fn spec_xorshift(x: u64) -> u64 {
    let a = x ^ (x << 13u64);
    let b = a ^ (a >> 7u64);
    b ^ (b << 17u64)
}

/// Advances the generator state and returns the new state, which is also the
/// random draw.
pub fn next_rand(state: &mut u64) -> (r: u64)
    ensures
        r == spec_xorshift(*old(state)),
        *final(state) == r,
{
    let mut x = *state;
    x = x ^ (x << 13u64);
    x = x ^ (x >> 7u64);
    x = x ^ (x << 17u64);
    *state = x;
    x
}

/// The generator state `math.randomseed(seed)` sets: the seed's bits, with zero
/// (where xorshift would stay) replaced by the default state.
pub fn seed_state(seed: i64) -> (s: u64)
    ensures
        s == (if seed == 0 { DEFAULT_SEED } else { seed as u64 }),
{
    if seed == 0 { DEFAULT_SEED } else { seed as u64 }
}

/// The message `math.random` fails with on an empty interval; `which` names the
/// offending argument.
pub open spec fn empty_interval_message(second: bool) -> Seq<char> {
    if second {
        "bad argument #2 to 'random' (interval is empty)"@
    } else {
        "bad argument #1 to 'random' (interval is empty)"@
    }
}

/// The integer `math.random(m [, n])` draws from `r`: in `1..=m`, or in
/// `m..=n` when `n` is given; an empty interval is an error.
pub fn random_between(r: u64, m: i64, n: Option<i64>) -> (v: Result<i64, SiltError>)
    requires
        n matches Some(nn) ==> (m > nn || nn - m + 1 <= i64::MAX),
    ensures
        match n {
            None => if m < 1 {
                v matches Err(SiltError::Custom(msg)) && msg@ == empty_interval_message(false)
            } else {
                v == Ok::<i64, SiltError>((1 + r % (m as u64)) as i64)
            },
            Some(nn) => if m > nn {
                v matches Err(SiltError::Custom(msg)) && msg@ == empty_interval_message(true)
            } else {
                v == Ok::<i64, SiltError>((m + r % ((nn - m + 1) as u64)) as i64)
            },
        },
{
    match n {
        None => {
            if m < 1 {
                return Err(SiltError::Custom(String::from_str("bad argument #1 to 'random' (interval is empty)")));
            }
            let k = r % (m as u64);
            Ok(1 + k as i64)
        },
        Some(nn) => {
            if m > nn {
                return Err(SiltError::Custom(String::from_str("bad argument #2 to 'random' (interval is empty)")));
            }
            let span = (nn - m + 1) as u64;
            let k = r % span;
            Ok(m + k as i64)
        },
    }
}

/// Cutting a string at any position `k` and taking `string.sub(s, 1, k)` and
/// `string.sub(s, k + 1)` gives back the whole string in two pieces.
pub proof fn law_sub_split(s: Seq<char>, k: int)
    requires
        0 <= k <= s.len(),
    ensures
        ({
            let (a1, b1) = sub_bounds(s.len() as int, 1, k);
            let (a2, b2) = sub_bounds(s.len() as int, k + 1, -1);
            s.subrange(a1, b1) + s.subrange(a2, b2) == s
        }),
{
    let (a2, b2) = sub_bounds(s.len() as int, k + 1, -1);
    if k < s.len() {
        assert(s.subrange(0, k) + s.subrange(k, s.len() as int) =~= s);
    } else {
        assert(s.subrange(0, k) + s.subrange(a2, b2) =~= s);
    }
}

/// `string.sub(s, 1, -1)` and `string.sub(s, 0)` are the whole string.
pub proof fn law_sub_whole(s: Seq<char>)
    ensures
        sub_bounds(s.len() as int, 1, -1) == (0int, s.len() as int),
        sub_bounds(s.len() as int, 0, -1) == (0int, s.len() as int),
        s.subrange(0, s.len() as int) == s,
{
    assert(s.subrange(0, s.len() as int) =~= s);
}

/// `string.rep(s, n)` is `n` times as long as `s`.
pub proof fn law_rep_length(s: Seq<char>, n: int)
    requires
        n >= 0,
    ensures
        repeat_seq(s, n).len() == n * s.len(),
    decreases n,
{
    if n > 0 {
        law_rep_length(s, n - 1);
        assert(n * s.len() == (n - 1) * s.len() + s.len()) by (nonlinear_arith);
    }
}

/// Reversing twice gives the string back.
pub proof fn law_reverse_twice(s: Seq<char>)
    ensures
        s.reverse().reverse() == s,
{
    assert(s.reverse().reverse() =~= s);
}

/// The generator never reaches the zero state from another one, where it
/// would stay forever; a seeded state is never zero.
pub proof fn law_xorshift_nonzero(x: u64, seed: i64)
    ensures
        x != 0 ==> spec_xorshift(x) != 0,
        (if seed == 0 { DEFAULT_SEED } else { seed as u64 }) != 0,
{
    assert(x != 0 ==> x ^ (x << 13u64) != 0) by (bit_vector);
    let a = x ^ (x << 13u64);
    assert(a != 0 ==> a ^ (a >> 7u64) != 0) by (bit_vector);
    let b = a ^ (a >> 7u64);
    assert(b != 0 ==> b ^ (b << 17u64) != 0) by (bit_vector);
    assert(seed != 0 ==> seed as u64 != 0) by (bit_vector);
}

/// `math.random(m)` lies in `1..=m` and `math.random(m, n)` in `m..=n`.
pub proof fn law_random_in_interval(r: u64, m: i64, n: i64)
    ensures
        m >= 1 ==> 1 <= 1 + r % (m as u64) <= m,
        m <= n && n - m + 1 <= i64::MAX ==> m <= m + r % ((n - m + 1) as u64) <= n,
{
}

/// Every table of the heap is well formed.
pub open spec fn heap_wf(tables: Seq<Table>) -> bool {
    forall|i: int| 0 <= i < tables.len() ==> (#[trigger] tables[i]).wf()
}

/// `after` is the heap `before` with only table `id` changed, and that one's
/// metatable, counter and id kept.
pub open spec fn only_changed(before: Seq<Table>, after: Seq<Table>, id: int) -> bool {
    &&& after.len() == before.len()
    &&& forall|j: int| 0 <= j < before.len() && j != id ==> after[j] == before[j]
    &&& after[id].spec_meta() == before[id].spec_meta()
    &&& after[id].spec_counter() == before[id].spec_counter()
    &&& after[id].spec_id() == before[id].spec_id()
}

/// Whether `v` refers to a table of the heap that still has room at the end of
/// the integer keys.
pub open spec fn table_with_room(tables: Seq<Table>, v: Value) -> bool {
    v matches Value::Table(id) ==> id < tables.len() && !tables[id as int]@.dom().contains(ikey(i64::MAX as int))
}

/// `table.insert(t, v)` appends `v`; `table.insert(t, pos, v)` inserts `v` at
/// `pos`, moving the later elements up. `t` refers to a table of `tables`.
pub fn table_insert(tables: &mut Vec<Table>, target: &Value, key: Value, value: Option<Value>) -> (r: Result<Value, SiltError>)
    requires
        heap_wf(old(tables)@),
        table_with_room(old(tables)@, *target),
    ensures
        heap_wf(final(tables)@),
        match *target {
            Value::Table(id) => {
                &&& only_changed(old(tables)@, final(tables)@, id as int)
                &&& match value {
                    Some(v) => inserted(old(tables)@[id as int]@, key@, v@, final(tables)@[id as int]@, r),
                    None => pushed(old(tables)@[id as int]@, key@, final(tables)@[id as int]@)
                        && r matches Ok(Value::Nil),
                }
            },
            _ => final(tables)@ == old(tables)@
                && (r matches Err(SiltError::VmNonTableOperations(t)) && t == spec_type_of(target@)),
        },
{
    match target {
        Value::Table(id) => {
            let id = *id;
            let ghost before = tables@;
            let r = match value {
                Some(v) => tables[id].insert(key, v),
                None => {
                    proof {
                        lemma_border_below_top(tables@[id as int]@);
                    }
                    tables[id].push(key);
                    Ok(Value::Nil)
                },
            };
            proof {
                assert forall|i: int| 0 <= i < tables@.len() implies (#[trigger] tables@[i]).wf() by {
                    if i != id {
                        assert(tables@[i] == before[i]);
                    }
                }
            }
            r
        },
        _ => Err(SiltError::VmNonTableOperations(target.to_error())),
    }
}

/// `table.remove(t [, key])` as this runtime has it: with a key, `t` itself is
/// inserted at that position; without, `t` is appended to itself.
pub fn table_remove(tables: &mut Vec<Table>, target: &Value, key: Option<Value>) -> (r: Result<Value, SiltError>)
    requires
        heap_wf(old(tables)@),
        table_with_room(old(tables)@, *target),
    ensures
        heap_wf(final(tables)@),
        match *target {
            Value::Table(id) => {
                &&& only_changed(old(tables)@, final(tables)@, id as int)
                &&& match key {
                    Some(k) => inserted(old(tables)@[id as int]@, k@, target@, final(tables)@[id as int]@, r),
                    None => pushed(old(tables)@[id as int]@, target@, final(tables)@[id as int]@)
                        && r matches Ok(Value::Nil),
                }
            },
            _ => final(tables)@ == old(tables)@
                && (r matches Err(SiltError::VmNonTableOperations(t)) && t == spec_type_of(target@)),
        },
{
    match key {
        Some(k) => table_insert(tables, target, k, Some(target.clone())),
        None => table_insert(tables, target, target.clone(), None),
    }
}

/// `setmetatable(t, mt)`: sets the metatable of table `t` (other values are
/// left alone) and returns `t`.
pub fn setmetatable(tables: &mut Vec<Table>, args: &Vec<Value>) -> (r: Value)
    requires
        args@.len() >= 2,
        args@[0] matches Value::Table(id) ==> id < old(tables)@.len(),
    ensures
        r == args@[0],
        match args@[0] {
            Value::Table(id) => {
                &&& final(tables)@.len() == old(tables)@.len()
                &&& forall|j: int| 0 <= j < old(tables)@.len() && j != id ==> final(tables)@[j] == old(tables)@[j]
                &&& final(tables)@[id as int]@ == old(tables)@[id as int]@
                &&& final(tables)@[id as int].wf() == old(tables)@[id as int].wf()
                &&& final(tables)@[id as int].spec_meta() == Some(args@[1]@)
            },
            _ => final(tables)@ == old(tables)@,
        },
{
    match &args[0] {
        Value::Table(id) => {
            let m = args[1].clone();
            tables[*id].set_metatable(m);
        },
        _ => {},
    }
    args[0].clone()
}

/// `getmetatable(t)`: the metatable of table `t`, `nil` for other values or
/// without one.
pub fn getmetatable(tables: &Vec<Table>, args: &Vec<Value>) -> (r: Value)
    requires
        args@.len() >= 1,
        args@[0] matches Value::Table(id) ==> id < tables@.len(),
    ensures
        r@ == match args@[0] {
            Value::Table(id) => match tables@[id as int].spec_meta() {
                Some(v) => v,
                None => ValueView::Nil,
            },
            _ => ValueView::Nil,
        },
{
    match &args[0] {
        Value::Table(id) => tables[*id].get_metatable(),
        _ => Value::Nil,
    }
}

/// The message `next` fails with on a first argument that is not a table.
pub open spec fn next_needs_table() -> Seq<char> {
    "bad argument #1 to 'next' (table expected)"@
}

/// `next(t [, k])`: the entry after key `k` (the first for `nil` or no key) as
/// `[key, value]`, or `[nil]` past the last entry or for a key not in `t`.
pub fn lua_next(tables: &Vec<Table>, args: &Vec<Value>) -> (r: Result<Vec<Value>, SiltError>)
    requires
        heap_wf(tables@),
        args@.len() >= 1 ==> (args@[0] matches Value::Table(id) ==> id < tables@.len()),
    ensures
        match r {
            Err(e) => !(args@.len() >= 1 && args@[0] is Table) && (e matches SiltError::Custom(m)
                && m@ == next_needs_table()),
            Ok(out) => args@.len() >= 1 && args@[0] is Table && ({
                let id = args@[0]->Table_0;
                let es = tables@[id as int].entries();
                let k = if args@.len() >= 2 { args@[1]@ } else { ValueView::Nil };
                if out@.len() == 1 {
                    &&& out@[0]@ == ValueView::Nil
                    &&& if k is Nil {
                        es.len() == 0
                    } else {
                        forall|i: int| 0 <= i && i + 1 < es.len() ==> #[trigger] es[i].0 != k
                    }
                } else {
                    &&& out@.len() == 2
                    &&& if k is Nil {
                        es.len() > 0 && (out@[0]@, out@[1]@) == es[0]
                    } else {
                        exists|i: int| 0 <= i && i + 1 < es.len() && #[trigger] es[i].0 == k
                            && (out@[0]@, out@[1]@) == es[i + 1]
                    }
                }
            }),
        },
{
    if args.len() == 0 {
        return Err(SiltError::Custom(String::from_str("bad argument #1 to 'next' (table expected)")));
    }
    let id = match &args[0] {
        Value::Table(id) => *id,
        _ => {
            return Err(SiltError::Custom(String::from_str("bad argument #1 to 'next' (table expected)")));
        },
    };
    let key = if args.len() >= 2 { args[1].clone() } else { Value::Nil };
    match tables[id].next_entry(&key) {
        Some((k, v)) => {
            let mut out: Vec<Value> = Vec::new();
            out.push(k);
            out.push(v);
            Ok(out)
        },
        None => {
            let mut out: Vec<Value> = Vec::new();
            out.push(Value::Nil);
            Ok(out)
        },
    }
}

/// In `string.sub`, a negative position `-k` (for `1 <= k <= len`) names the
/// same character as the position `len - k + 1`, as a start and as an end: so
/// `string.sub(s, 1, -k)` is the first `len - k + 1` characters; positions
/// inside the string take the characters from `i` through `j`; an end past
/// the string is its last character, a start of 0 or before the string is its
/// first, and an end before the start gives nothing.
pub proof fn law_sub_positions(len: int, i: int, j: int, k: int)
    requires
        len >= 0,
    ensures
        1 <= k <= len ==> sub_bounds(len, i, -k) == sub_bounds(len, i, len - k + 1),
        1 <= k <= len ==> sub_bounds(len, -k, j) == sub_bounds(len, len - k + 1, j),
        1 <= k <= len ==> sub_bounds(len, 1, -k) == (0int, len - k + 1),
        1 <= i <= j <= len ==> sub_bounds(len, i, j) == (i - 1, j),
        j > len ==> sub_bounds(len, i, j) == sub_bounds(len, i, len),
        (i == 0 || i < -len) ==> sub_bounds(len, i, j) == sub_bounds(len, 1, j),
        (1 <= j < i || j < -len || j == 0 || i > len) ==> sub_bounds(len, i, j).0 == sub_bounds(len, i, j).1,
{
}

} // verus!

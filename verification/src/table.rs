//! Lua tables: a map from values to values, with an optional metatable.
//!
//! Entries are kept in insertion order; `next` walks them in that order.

use vstd::prelude::*;
use vstd::string::*;
use crate::error::SiltError;
use crate::userdata::{spec_table_key, MetaMethod};
use crate::value::{value_eq, Value, ValueView};

verus! {

/// The key-value pairs of a table, in storage order.
pub type Entries = Seq<(Value, Value)>;

/// The map that a list of entries stands for (later entries win).
pub open spec fn entries_map(s: Entries) -> Map<ValueView, ValueView>
    decreases s.len(),
{
    if s.len() == 0 {
        Map::empty()
    } else {
        entries_map(s.drop_last()).insert(s.last().0@, s.last().1@)
    }
}

/// No key occurs twice.
pub open spec fn keys_unique(s: Entries) -> bool {
    forall|i: int, j: int| 0 <= i < j < s.len() ==> (#[trigger] s[i]).0@ != (#[trigger] s[j]).0@
}

/// The entries, seen as pairs of value views.
pub open spec fn entry_views(s: Entries) -> Seq<(ValueView, ValueView)> {
    s.map_values(|e: (Value, Value)| (e.0@, e.1@))
}

proof fn lemma_entries_dom(s: Entries, k: ValueView)
    ensures
        entries_map(s).dom().contains(k) <==> exists|i: int| 0 <= i < s.len() && (#[trigger] s[i]).0@ == k,
    decreases s.len(),
{
    if s.len() > 0 {
        lemma_entries_dom(s.drop_last(), k);
        if entries_map(s.drop_last()).dom().contains(k) {
            let i = choose|i: int| 0 <= i < s.drop_last().len() && (#[trigger] s.drop_last()[i]).0@ == k;
            assert(s[i] == s.drop_last()[i]);
        }
        if exists|i: int| 0 <= i < s.len() && (#[trigger] s[i]).0@ == k {
            let i = choose|i: int| 0 <= i < s.len() && (#[trigger] s[i]).0@ == k;
            if i < s.len() - 1 {
                assert(s.drop_last()[i] == s[i]);
            }
        }
    }
}

proof fn lemma_entries_finite(s: Entries)
    ensures
        entries_map(s).dom().finite(),
        keys_unique(s) ==> entries_map(s).dom().len() == s.len(),
    decreases s.len(),
{
    if s.len() > 0 {
        lemma_entries_finite(s.drop_last());
        if keys_unique(s) {
            assert(keys_unique(s.drop_last())) by {
                assert forall|i: int, j: int| 0 <= i < j < s.drop_last().len() implies
                    (#[trigger] s.drop_last()[i]).0@ != (#[trigger] s.drop_last()[j]).0@ by {
                    assert(s.drop_last()[i] == s[i] && s.drop_last()[j] == s[j]);
                }
            }
            lemma_entries_dom(s.drop_last(), s.last().0@);
            if entries_map(s.drop_last()).dom().contains(s.last().0@) {
                let i = choose|i: int| 0 <= i < s.drop_last().len() && (#[trigger] s.drop_last()[i]).0@ == s.last().0@;
                assert(s[i] == s.drop_last()[i]);
                assert(s[i].0@ != s[s.len() - 1].0@);
            }
        }
    }
}

proof fn lemma_unique_drop_last(s: Entries)
    requires
        keys_unique(s),
        s.len() > 0,
    ensures
        keys_unique(s.drop_last()),
{
    assert forall|i: int, j: int| 0 <= i < j < s.drop_last().len() implies
        (#[trigger] s.drop_last()[i]).0@ != (#[trigger] s.drop_last()[j]).0@ by {
        assert(s.drop_last()[i] == s[i] && s.drop_last()[j] == s[j]);
    }
}

proof fn lemma_entries_value(s: Entries, i: int)
    requires
        keys_unique(s),
        0 <= i < s.len(),
    ensures
        entries_map(s).dom().contains(s[i].0@),
        entries_map(s)[s[i].0@] == s[i].1@,
    decreases s.len(),
{
    if i < s.len() - 1 {
        lemma_unique_drop_last(s);
        assert(s.drop_last()[i] == s[i]);
        lemma_entries_value(s.drop_last(), i);
        assert(s[i].0@ != s[s.len() - 1].0@);
    }
}

proof fn lemma_entries_update(s: Entries, i: int, e: (Value, Value))
    requires
        keys_unique(s),
        0 <= i < s.len(),
        e.0@ == s[i].0@,
    ensures
        keys_unique(s.update(i, e)),
        entries_map(s.update(i, e)) == entries_map(s).insert(e.0@, e.1@),
    decreases s.len(),
{
    let t = s.update(i, e);
    assert forall|a: int, b: int| 0 <= a < b < t.len() implies (#[trigger] t[a]).0@ != (#[trigger] t[b]).0@ by {
        assert(t[a].0@ == s[a].0@ && t[b].0@ == s[b].0@);
    }
    if i == s.len() - 1 {
        assert(t.drop_last() =~= s.drop_last());
        assert(entries_map(t) =~= entries_map(s).insert(e.0@, e.1@));
    } else {
        lemma_unique_drop_last(s);
        assert(t.drop_last() =~= s.drop_last().update(i, e));
        assert(s.drop_last()[i] == s[i]);
        lemma_entries_update(s.drop_last(), i, e);
        assert(s[i].0@ != s[s.len() - 1].0@);
        assert(entries_map(t) =~= entries_map(s).insert(e.0@, e.1@));
    }
}

proof fn lemma_entries_remove(s: Entries, i: int)
    requires
        keys_unique(s),
        0 <= i < s.len(),
    ensures
        keys_unique(s.remove(i)),
        entries_map(s.remove(i)) == entries_map(s).remove(s[i].0@),
    decreases s.len(),
{
    let t = s.remove(i);
    assert forall|a: int, b: int| 0 <= a < b < t.len() implies (#[trigger] t[a]).0@ != (#[trigger] t[b]).0@ by {
        let a2 = if a < i { a } else { a + 1 };
        let b2 = if b < i { b } else { b + 1 };
        assert(t[a] == s[a2] && t[b] == s[b2]);
    }
    lemma_unique_drop_last(s);
    if i == s.len() - 1 {
        assert(t =~= s.drop_last());
        lemma_entries_dom(s.drop_last(), s[i].0@);
        if entries_map(s.drop_last()).dom().contains(s[i].0@) {
            let j = choose|j: int| 0 <= j < s.drop_last().len() && (#[trigger] s.drop_last()[j]).0@ == s[i].0@;
            assert(s.drop_last()[j] == s[j]);
        }
        assert(entries_map(t) =~= entries_map(s).remove(s[i].0@));
    } else {
        assert(t.drop_last() =~= s.drop_last().remove(i));
        assert(t.last() == s.last());
        assert(s.drop_last()[i] == s[i]);
        lemma_entries_remove(s.drop_last(), i);
        assert(s[i].0@ != s[s.len() - 1].0@);
        assert(entries_map(t) =~= entries_map(s).remove(s[i].0@));
    }
}

/// Index of the entry with key `key`.
fn find_index(data: &Vec<(Value, Value)>, key: &Value) -> (r: Option<usize>)
    ensures
        r matches Some(i) ==> i < data@.len() && data@[i as int].0@ == key@,
        r is None ==> forall|i: int| 0 <= i < data@.len() ==> (#[trigger] data@[i]).0@ != key@,
{
    let mut i: usize = 0;
    while i < data.len()
        invariant
            i <= data@.len(),
            forall|j: int| 0 <= j < i ==> (#[trigger] data@[j]).0@ != key@,
        decreases data@.len() - i,
    {
        if value_eq(&data[i].0, key) {
            return Some(i);
        }
        i += 1;
    }
    None
}

/// Is `key` bound in the map of `data`?
fn contains_key(data: &Vec<(Value, Value)>, key: &Value) -> (r: bool)
    ensures
        r == entries_map(data@).dom().contains(key@),
{
    proof {
        lemma_entries_dom(data@, key@);
    }
    match find_index(data, key) {
        Some(_) => true,
        None => false,
    }
}

/// The value bound to `key`, `Nil` when there is none.
fn lookup(data: &Vec<(Value, Value)>, key: &Value) -> (r: Value)
    requires
        keys_unique(data@),
    ensures
        r@ == (if entries_map(data@).dom().contains(key@) { entries_map(data@)[key@] } else { ValueView::Nil }),
{
    proof {
        lemma_entries_dom(data@, key@);
    }
    match find_index(data, key) {
        Some(i) => {
            proof {
                lemma_entries_value(data@, i as int);
            }
            data[i].1.clone()
        },
        None => Value::Nil,
    }
}

/// A reference to the value bound to `key`.
fn lookup_ref<'a>(data: &'a Vec<(Value, Value)>, key: &Value) -> (r: Option<&'a Value>)
    requires
        keys_unique(data@),
    ensures
        r is Some <==> entries_map(data@).dom().contains(key@),
        r matches Some(v) ==> v@ == entries_map(data@)[key@],
{
    proof {
        lemma_entries_dom(data@, key@);
    }
    match find_index(data, key) {
        Some(i) => {
            proof {
                lemma_entries_value(data@, i as int);
            }
            Some(&data[i].1)
        },
        None => None,
    }
}

/// Bind `key` to `val`; the value it had before, if any.
fn store(data: &mut Vec<(Value, Value)>, key: Value, val: Value) -> (r: Option<Value>)
    requires
        keys_unique(old(data)@),
    ensures
        keys_unique(final(data)@),
        entries_map(final(data)@) == entries_map(old(data)@).insert(key@, val@),
        r is Some <==> entries_map(old(data)@).dom().contains(key@),
        r matches Some(v) ==> v@ == entries_map(old(data)@)[key@],
{
    proof {
        lemma_entries_dom(data@, key@);
    }
    match find_index(data, &key) {
        Some(i) => {
            proof {
                lemma_entries_value(data@, i as int);
                lemma_entries_update(data@, i as int, (key, val));
            }
            let old_val = data[i].1.clone();
            data.set(i, (key, val));
            Some(old_val)
        },
        None => {
            let ghost before = data@;
            data.push((key, val));
            proof {
                assert(data@.drop_last() =~= before);
                assert forall|a: int, b: int| 0 <= a < b < data@.len() implies
                    (#[trigger] data@[a]).0@ != (#[trigger] data@[b]).0@ by {
                    if b == data@.len() - 1 {
                        assert(data@[a] == before[a]);
                    } else {
                        assert(data@[a] == before[a] && data@[b] == before[b]);
                    }
                }
            }
            None
        },
    }
}

/// Unbind `key`; the value it had, if any.
fn unbind(data: &mut Vec<(Value, Value)>, key: &Value) -> (r: Option<Value>)
    requires
        keys_unique(old(data)@),
    ensures
        keys_unique(final(data)@),
        entries_map(final(data)@) == entries_map(old(data)@).remove(key@),
        r is Some <==> entries_map(old(data)@).dom().contains(key@),
        r matches Some(v) ==> v@ == entries_map(old(data)@)[key@],
{
    proof {
        lemma_entries_dom(data@, key@);
    }
    match find_index(data, key) {
        Some(i) => {
            proof {
                lemma_entries_value(data@, i as int);
                lemma_entries_remove(data@, i as int);
            }
            let (_, v) = data.remove(i);
            Some(v)
        },
        None => {
            proof {
                assert(entries_map(data@).remove(key@) =~= entries_map(data@));
            }
            None
        },
    }
}

// ---------------------------------------------------------------------------
// The array part: borders and shifts
// ---------------------------------------------------------------------------

/// The integer key `k`.
pub open spec fn ikey(k: int) -> ValueView {
    ValueView::Integer(k as i64)
}

/// Is `key` an integer in `[a, b]`?
pub open spec fn in_range(key: ValueView, a: int, b: int) -> bool {
    key is Integer && a <= key->Integer_0 <= b
}

/// `n` is a border of `m`: `m[n]` is present and `m[n + 1]` is not (`0` when
/// `m[1]` is absent). This is what `#t` may answer.
pub open spec fn is_border(m: Map<ValueView, ValueView>, n: int) -> bool {
    &&& 0 <= n <= i64::MAX
    &&& n == 0 ==> !m.dom().contains(ikey(1))
    &&& n > 0 ==> m.dom().contains(ikey(n)) && (n == i64::MAX || !m.dom().contains(ikey(n + 1)))
}

/// What one step of a walk over the entries `es` answers for `key`: the first
/// entry for `nil`; for a key, the entry after one holding it; `None` past the
/// last entry or for a key not held.
pub open spec fn next_result(es: Seq<(ValueView, ValueView)>, key: ValueView, r: Option<(ValueView, ValueView)>) -> bool {
    if key is Nil {
        if es.len() == 0 { r is None } else { r == Some(es[0]) }
    } else {
        match r {
            Some(e) => exists|i: int| 0 <= i && i + 1 < es.len() && #[trigger] es[i].0 == key && e == es[i + 1],
            None => forall|i: int| 0 <= i && i + 1 < es.len() ==> #[trigger] es[i].0 != key,
        }
    }
}

/// Whether `m` holds the integer key `k`.
pub open spec fn has_ikey(m: Map<ValueView, ValueView>, k: int) -> bool {
    m.dom().contains(ikey(k))
}

/// The last step of the border search once `2^62 < n`: walk up one key at a time.
pub open spec fn probe_linear(m: Map<ValueView, ValueView>, n: int) -> int
    decreases i64::MAX - n,
{
    if n < i64::MAX && has_ikey(m, n + 1) { probe_linear(m, n + 1) } else { n }
}

/// Binary search between a present key `i` and an absent key `j`.
pub open spec fn probe_bin(m: Map<ValueView, ValueView>, i: int, j: int) -> int
    decreases j - i,
{
    if j - i > 1 {
        let mid = i + (j - i) / 2;
        if has_ikey(m, mid) { probe_bin(m, mid, j) } else { probe_bin(m, i, mid) }
    } else {
        i
    }
}

/// Exponential probe: `i` is present, `j == 2 * i` is tried next.
pub open spec fn probe_exp(m: Map<ValueView, ValueView>, i: int, j: int) -> int
    decreases i64::MAX - j,
{
    if j <= 0 || j > i64::MAX {
        i
    } else if has_ikey(m, j) {
        if j > i64::MAX / 2 { probe_linear(m, j) } else { probe_exp(m, j, 2 * j) }
    } else {
        probe_bin(m, i, j)
    }
}

/// The border [`Table::border`] finds: `0` when `t[1]` is absent, else the end
/// of an exponential probe of `1, 2, 4, ...` followed by a binary search.
pub open spec fn spec_border(m: Map<ValueView, ValueView>) -> int {
    if !has_ikey(m, 1) { 0 } else { probe_exp(m, 1, 2) }
}

/// The walk ends at a border.
pub proof fn lemma_probe_linear(m: Map<ValueView, ValueView>, n: int)
    requires
        1 <= n <= i64::MAX,
        has_ikey(m, n),
    ensures
        is_border(m, probe_linear(m, n)),
    decreases i64::MAX - n,
{
    if n < i64::MAX && has_ikey(m, n + 1) {
        lemma_probe_linear(m, n + 1);
    }
}

/// The binary search ends at a border.
pub proof fn lemma_probe_bin(m: Map<ValueView, ValueView>, i: int, j: int)
    requires
        1 <= i < j <= i64::MAX,
        has_ikey(m, i),
        !has_ikey(m, j),
    ensures
        is_border(m, probe_bin(m, i, j)),
    decreases j - i,
{
    if j - i > 1 {
        let mid = i + (j - i) / 2;
        if has_ikey(m, mid) { lemma_probe_bin(m, mid, j); } else { lemma_probe_bin(m, i, mid); }
    }
}

/// The exponential probe ends at a border.
pub proof fn lemma_probe_exp(m: Map<ValueView, ValueView>, i: int, j: int)
    requires
        1 <= i,
        j == 2 * i,
        j <= i64::MAX,
        has_ikey(m, i),
    ensures
        is_border(m, probe_exp(m, i, j)),
    decreases i64::MAX - j,
{
    if has_ikey(m, j) {
        if j > i64::MAX / 2 { lemma_probe_linear(m, j); } else { lemma_probe_exp(m, j, 2 * j); }
    } else {
        lemma_probe_bin(m, i, j);
    }
}

/// Without the key `i64::MAX` the border lies below it.
pub proof fn lemma_border_below_top(m: Map<ValueView, ValueView>)
    requires
        !has_ikey(m, i64::MAX as int),
    ensures
        spec_border(m) < i64::MAX,
{
    lemma_spec_border(m);
}

/// [`spec_border`] is a border.
pub proof fn lemma_spec_border(m: Map<ValueView, ValueView>)
    ensures
        is_border(m, spec_border(m)),
{
    if has_ikey(m, 1) {
        lemma_probe_exp(m, 1, 2);
    }
}

/// `m` holds exactly the positive integer keys `1..=n` (other keys are free).
pub open spec fn is_sequence(m: Map<ValueView, ValueView>, n: int) -> bool {
    &&& 0 <= n < i64::MAX
    &&& forall|k: int| 1 <= k <= i64::MAX ==> (#[trigger] m.dom().contains(ikey(k)) <==> k <= n)
}

/// `m` after the entries at `lo..=hi` moved up by one index (position `lo` left
/// empty).
pub open spec fn shifted_up(m: Map<ValueView, ValueView>, lo: int, hi: int) -> Map<ValueView, ValueView> {
    Map::new(
        |key: ValueView|
            if lo <= hi && in_range(key, lo, hi + 1) {
                key->Integer_0 - 1 >= lo && m.dom().contains(ikey(key->Integer_0 - 1))
            } else {
                m.dom().contains(key)
            },
        |key: ValueView|
            if lo <= hi && in_range(key, lo + 1, hi + 1) {
                m[ikey(key->Integer_0 - 1)]
            } else {
                m[key]
            },
    )
}

/// `m` after the entries at `pos + 1..=n` moved down by one index onto `pos`
/// (position `max(pos, n)` left empty).
pub open spec fn shifted_down(m: Map<ValueView, ValueView>, pos: int, n: int) -> Map<ValueView, ValueView> {
    Map::new(
        |key: ValueView|
            if in_range(key, pos, if pos < n { n } else { pos }) {
                key->Integer_0 + 1 <= n && m.dom().contains(ikey(key->Integer_0 + 1))
            } else {
                m.dom().contains(key)
            },
        |key: ValueView|
            if in_range(key, pos, n - 1) {
                m[ikey(key->Integer_0 + 1)]
            } else {
                m[key]
            },
    )
}

/// The state of an upward shift of `lo..=hi` once `cur + 1..=hi` have moved.
spec fn up_partial(m: Map<ValueView, ValueView>, cur: int, hi: int) -> Map<ValueView, ValueView> {
    Map::new(
        |key: ValueView|
            if in_range(key, cur + 2, hi + 1) {
                m.dom().contains(ikey(key->Integer_0 - 1))
            } else if cur < hi && key == ikey(cur + 1) {
                false
            } else {
                m.dom().contains(key)
            },
        |key: ValueView|
            if in_range(key, cur + 2, hi + 1) {
                m[ikey(key->Integer_0 - 1)]
            } else {
                m[key]
            },
    )
}

/// The state of a downward shift onto `pos` once `pos + 1..cur` have moved.
spec fn down_partial(m: Map<ValueView, ValueView>, pos: int, cur: int) -> Map<ValueView, ValueView> {
    Map::new(
        |key: ValueView|
            if in_range(key, pos, cur - 2) {
                m.dom().contains(ikey(key->Integer_0 + 1))
            } else if key == ikey(cur - 1) {
                false
            } else {
                m.dom().contains(key)
            },
        |key: ValueView|
            if in_range(key, pos, cur - 2) {
                m[ikey(key->Integer_0 + 1)]
            } else {
                m[key]
            },
    )
}

/// `m` with `vals[j]` stored at key `start + j`.
pub open spec fn filled(m: Map<ValueView, ValueView>, start: int, vals: Seq<ValueView>) -> Map<ValueView, ValueView>
    decreases vals.len(),
{
    if vals.len() == 0 {
        m
    } else {
        filled(m, start, vals.drop_last()).insert(ikey(start + vals.len() - 1), vals.last())
    }
}

/// Whether `key` names an integer, and which.
pub open spec fn strict_int(key: ValueView) -> Option<i64> {
    match key {
        ValueView::Integer(i) => Some(i),
        _ => None,
    }
}

/// The counter after `set_and_check` stores integer key `i` into `m`: it advances by
/// one when every key from the counter up to `i - 1` is present.
pub open spec fn advanced_counter(m: Map<ValueView, ValueView>, c: int, i: int) -> int {
    if c < i && (forall|k: int| c <= k < i ==> #[trigger] m.dom().contains(ikey(k))) { c + 1 } else { c }
}

proof fn lemma_up_step(m: Map<ValueView, ValueView>, k: int, n: int)
    requires
        is_border(m, n),
        n < i64::MAX,
        1 <= k <= n,
    ensures
        up_partial(m, k - 1, n) == (if m.dom().contains(ikey(k)) {
            up_partial(m, k, n).remove(ikey(k)).insert(ikey(k + 1), m[ikey(k)])
        } else {
            up_partial(m, k, n).remove(ikey(k))
        }),
{
    let a = up_partial(m, k - 1, n);
    let b = if m.dom().contains(ikey(k)) {
        up_partial(m, k, n).remove(ikey(k)).insert(ikey(k + 1), m[ikey(k)])
    } else {
        up_partial(m, k, n).remove(ikey(k))
    };
    assert forall|key: ValueView| a.dom().contains(key) == b.dom().contains(key) by {
        if key is Integer {
            let x = key->Integer_0 as int;
            assert(key == ikey(x));
        }
    }
    assert(a.dom() =~= b.dom());
    assert forall|key: ValueView| a.dom().contains(key) implies a[key] == b[key] by {
        if key is Integer {
            let x = key->Integer_0 as int;
            assert(key == ikey(x));
        }
    }
    assert(a =~= b);
}

proof fn lemma_up_end(m: Map<ValueView, ValueView>, lo: int, n: int)
    requires
        is_border(m, n),
        n < i64::MAX,
        1 <= lo <= n,
    ensures
        up_partial(m, lo - 1, n) == shifted_up(m, lo, n),
{
    let a = up_partial(m, lo - 1, n);
    let b = shifted_up(m, lo, n);
    assert forall|key: ValueView| a.dom().contains(key) == b.dom().contains(key) by {
        if key is Integer {
            let x = key->Integer_0 as int;
            assert(key == ikey(x));
        }
    }
    assert(a.dom() =~= b.dom());
    assert(a =~= b);
}

proof fn lemma_up_start(m: Map<ValueView, ValueView>, n: int)
    ensures
        up_partial(m, n, n) == m,
{
    assert(up_partial(m, n, n) =~= m);
}

proof fn lemma_shift_up_empty(m: Map<ValueView, ValueView>, lo: int, n: int)
    requires
        lo > n,
    ensures
        shifted_up(m, lo, n) == m,
{
    assert(shifted_up(m, lo, n) =~= m);
}

proof fn lemma_down_start(m: Map<ValueView, ValueView>, pos: int)
    requires
        i64::MIN <= pos < i64::MAX,
    ensures
        down_partial(m, pos, pos + 1) == m.remove(ikey(pos)),
{
    let a = down_partial(m, pos, pos + 1);
    let b = m.remove(ikey(pos));
    assert forall|key: ValueView| a.dom().contains(key) == b.dom().contains(key) by {
        if key is Integer {
            let x = key->Integer_0 as int;
            assert(key == ikey(x));
        }
    }
    assert(a.dom() =~= b.dom());
    assert(a =~= b);
}

proof fn lemma_down_step(m: Map<ValueView, ValueView>, pos: int, k: int, n: int)
    requires
        i64::MIN <= pos,
        pos + 1 <= k <= n,
        n < i64::MAX,
    ensures
        down_partial(m, pos, k + 1) == (if m.dom().contains(ikey(k)) {
            down_partial(m, pos, k).remove(ikey(k)).insert(ikey(k - 1), m[ikey(k)])
        } else {
            down_partial(m, pos, k).remove(ikey(k))
        }),
{
    let a = down_partial(m, pos, k + 1);
    let b = if m.dom().contains(ikey(k)) {
        down_partial(m, pos, k).remove(ikey(k)).insert(ikey(k - 1), m[ikey(k)])
    } else {
        down_partial(m, pos, k).remove(ikey(k))
    };
    assert forall|key: ValueView| a.dom().contains(key) == b.dom().contains(key) by {
        if key is Integer {
            let x = key->Integer_0 as int;
            assert(key == ikey(x));
        }
    }
    assert(a.dom() =~= b.dom());
    assert forall|key: ValueView| a.dom().contains(key) implies a[key] == b[key] by {
        if key is Integer {
            let x = key->Integer_0 as int;
            assert(key == ikey(x));
        }
    }
    assert(a =~= b);
}

proof fn lemma_down_end(m: Map<ValueView, ValueView>, pos: int, n: int)
    requires
        i64::MIN <= pos < i64::MAX,
        0 <= n < i64::MAX,
    ensures
        down_partial(m, pos, if pos + 1 <= n { n + 1 } else { pos + 1 }) == shifted_down(m, pos, n),
{
    let k = if pos + 1 <= n { n + 1 } else { pos + 1 };
    let a = down_partial(m, pos, k);
    let b = shifted_down(m, pos, n);
    assert forall|key: ValueView| a.dom().contains(key) == b.dom().contains(key) by {
        if key is Integer {
            let x = key->Integer_0 as int;
            assert(key == ikey(x));
        }
    }
    assert(a.dom() =~= b.dom());
    assert(a =~= b);
}

/// `after` is `before` once `value` was appended after a border of it.
pub open spec fn pushed(before: Map<ValueView, ValueView>, value: ValueView, after: Map<ValueView, ValueView>) -> bool {
    exists|n: int| #[trigger] is_border(before, n) && after == before.insert(ikey(n + 1), value)
}

/// `after` is `before` once the positional insert of `value` at `key` ran and
/// answered `r`: a key that is not an integer is refused with `CoerceInt`;
/// otherwise the elements from the position (at least 1) to a border move up one
/// index and `value` lands at the key.
pub open spec fn inserted(
    before: Map<ValueView, ValueView>,
    key: ValueView,
    value: ValueView,
    after: Map<ValueView, ValueView>,
    r: Result<Value, SiltError>,
) -> bool {
    match strict_int(key) {
        None => r matches Err(SiltError::CoerceInt) && after == before,
        Some(i) => r matches Ok(v) && v@ == ValueView::Nil && exists|n: int| #[trigger] is_border(before, n)
            && after == shifted_up(before, if i < 1 { 1 } else { i as int }, n).insert(ikey(i as int), value),
    }
}

// ---------------------------------------------------------------------------
// Laws of the array part
// ---------------------------------------------------------------------------

/// A table holding exactly `1..=n` as positive integer keys has `n` as its only
/// border, so `#t == n`.
pub proof fn law_sequence_border(m: Map<ValueView, ValueView>, n: int)
    requires
        is_sequence(m, n),
    ensures
        forall|b: int| #[trigger] is_border(m, b) <==> b == n,
{
    assert forall|b: int| #[trigger] is_border(m, b) <==> b == n by {
        if b == n {
            if n > 0 {
                assert(m.dom().contains(ikey(n)));
                assert(!m.dom().contains(ikey(n + 1)));
            } else {
                assert(!m.dom().contains(ikey(1)));
            }
        }
        if is_border(m, b) && b != n {
            if b == 0 {
                assert(m.dom().contains(ikey(1)) <==> 1 <= n);
            } else if b < n {
                assert(m.dom().contains(ikey(b + 1)) <==> b + 1 <= n);
            } else {
                assert(m.dom().contains(ikey(b)) <==> b <= n);
            }
        }
    }
}

/// Reading a key right after storing it gives the stored value; other keys keep
/// theirs.
pub proof fn law_get_after_set(m: Map<ValueView, ValueView>, k: ValueView, v: ValueView, other: ValueView)
    requires
        other != k,
    ensures
        m.insert(k, v).dom().contains(k),
        m.insert(k, v)[k] == v,
        m.insert(k, v).dom().contains(other) == m.dom().contains(other),
        m.dom().contains(other) ==> m.insert(k, v)[other] == m[other],
{
}

/// On a table whose array part is `1..=n`, `push(v)` followed by `pop()` returns
/// `v` and leaves the table as it was: the push lands at `n + 1`, which is then the
/// only border.
pub proof fn law_push_then_pop(m: Map<ValueView, ValueView>, n: int, v: ValueView)
    requires
        is_sequence(m, n),
        n + 1 < i64::MAX,
    ensures
        forall|b: int| #[trigger] is_border(m, b) <==> b == n,
        is_sequence(m.insert(ikey(n + 1), v), n + 1),
        forall|b: int| #[trigger] is_border(m.insert(ikey(n + 1), v), b) ==> b == n + 1
            && m.insert(ikey(n + 1), v)[ikey(b)] == v
            && m.insert(ikey(n + 1), v).remove(ikey(b)) == m,
{
    law_sequence_border(m, n);
    let m1 = m.insert(ikey(n + 1), v);
    assert forall|k: int| 1 <= k <= i64::MAX implies (#[trigger] m1.dom().contains(ikey(k)) <==> k <= n + 1) by {
        assert(m.dom().contains(ikey(k)) <==> k <= n);
        if k != n + 1 {
            assert(ikey(k) != ikey(n + 1));
        }
    }
    law_sequence_border(m1, n + 1);
    assert(!m.dom().contains(ikey(n + 1)));
    assert(m1.remove(ikey(n + 1)) =~= m);
}

/// On a table whose array part is `1..=n`, `insert(pos, v)` with `1 <= pos <= n + 1`
/// followed by `remove_at(pos)` returns `v` and leaves the table as it was.
pub proof fn law_insert_then_remove(m: Map<ValueView, ValueView>, n: int, pos: int, v: ValueView)
    requires
        is_sequence(m, n),
        1 <= pos <= n + 1,
        n + 1 < i64::MAX,
    ensures
        forall|b: int| #[trigger] is_border(m, b) <==> b == n,
        is_sequence(shifted_up(m, pos, n).insert(ikey(pos), v), n + 1),
        forall|b: int| #[trigger] is_border(shifted_up(m, pos, n).insert(ikey(pos), v), b) ==> b == n + 1
            && shifted_up(m, pos, n).insert(ikey(pos), v)[ikey(pos)] == v
            && shifted_down(shifted_up(m, pos, n).insert(ikey(pos), v), pos, b) == m,
{
    law_sequence_border(m, n);
    let m1 = shifted_up(m, pos, n).insert(ikey(pos), v);
    assert forall|k: int| 1 <= k <= i64::MAX implies (#[trigger] m1.dom().contains(ikey(k)) <==> k <= n + 1) by {
        assert(m.dom().contains(ikey(k)) <==> k <= n);
        if 2 <= k {
            assert(m.dom().contains(ikey(k - 1)) <==> k - 1 <= n);
        }
        assert(in_range(ikey(k), pos, n + 1) <==> pos <= k <= n + 1);
    }
    law_sequence_border(m1, n + 1);
    let m2 = shifted_down(m1, pos, n + 1);
    assert forall|key: ValueView| #[trigger] m2.dom().contains(key) == m.dom().contains(key) by {
        if key is Integer {
            let x = key->Integer_0 as int;
            assert(key == ikey(x));
            if 1 <= x < i64::MAX {
                assert(m.dom().contains(ikey(x)) <==> x <= n);
                assert(m1.dom().contains(ikey(x + 1)) <==> x + 1 <= n + 1);
            } else if x == i64::MAX {
                assert(m.dom().contains(ikey(x)) <==> x <= n);
                assert(m1.dom().contains(ikey(x)) <==> x <= n + 1);
            }
        }
    }
    assert(m2.dom() =~= m.dom());
    assert forall|key: ValueView| m2.dom().contains(key) implies m2[key] == m[key] by {
        if key is Integer {
            let x = key->Integer_0 as int;
            assert(key == ikey(x));
            if pos <= x <= n {
                assert(ikey(x + 1) != ikey(pos));
                assert(in_range(ikey(x + 1), pos + 1, n + 1));
                assert(m1[ikey(x + 1)] == m[ikey(x)]);
            }
        }
    }
    assert(m2 =~= m);
}

/// A Lua table.
pub struct Table {
    data: Vec<(Value, Value)>,
    meta: Option<Value>,
    counter: i64,
    id: usize,
}

impl View for Table {
    type V = Map<ValueView, ValueView>;

    closed spec fn view(&self) -> Map<ValueView, ValueView> {
        entries_map(self.data@)
    }
}

impl Table {
    /// The table's invariant: no key is stored twice.
    pub closed spec fn wf(&self) -> bool {
        keys_unique(self.data@)
    }

    /// The entries in the order that `next` walks them.
    pub closed spec fn entries(&self) -> Seq<(ValueView, ValueView)> {
        entry_views(self.data@)
    }

    /// A table with the same entries and id, and no metatable.
    pub(crate) fn copy_entries(&self) -> (t: Table)
        requires
            self.wf(),
        ensures
            t.wf(),
            t@ == self@,
    {
        let mut data: Vec<(Value, Value)> = Vec::new();
        let mut i: usize = 0;
        while i < self.data.len()
            invariant
                i <= self.data@.len(),
                data@ == self.data@.take(i as int),
            decreases self.data@.len() - i,
        {
            let k = self.data[i].0.clone();
            let v = self.data[i].1.clone();
            data.push((k, v));
            assert(data@ =~= self.data@.take(i + 1));
            i = i + 1;
        }
        assert(data@ =~= self.data@);
        Table { data, meta: None, counter: 0, id: self.id }
    }

    /// The metatable, if one is set.
    pub closed spec fn spec_meta(&self) -> Option<ValueView> {
        match self.meta {
            Some(v) => Some(v@),
            None => None,
        }
    }

    /// The counter that `concat_array` appends from.
    pub closed spec fn spec_counter(&self) -> int {
        self.counter as int
    }

    /// The table's id.
    /// The id of the table the copy was made from.
    pub closed spec fn spec_id(&self) -> usize {
        self.id
    }

    /// The entries describe the map, and each key once.
    /// A walk with `next_entry` from `nil` visits every entry once, in the
    /// order of [`Table::entries`]: there are as many entries as keys, no key is
    /// held twice, the step from `nil` gives the first entry, the step from the
    /// key of entry `i` gives entry `i + 1` (none after the last), and a step
    /// from a key the table does not hold gives none.
    pub proof fn law_walk(&self, key: ValueView, r: Option<(ValueView, ValueView)>)
        requires
            self.wf(),
            next_result(self.entries(), key, r),
        ensures
            self.entries().len() == self@.dom().len(),
            forall|i: int, j: int| 0 <= i < j < self.entries().len() ==> #[trigger] self.entries()[i].0 != #[trigger] self.entries()[j].0,
            key is Nil ==> r == (if self.entries().len() == 0 { None } else { Some(self.entries()[0]) }),
            forall|i: int| 0 <= i < self.entries().len() && key == #[trigger] self.entries()[i].0 && !(key is Nil) ==>
                r == (if i + 1 < self.entries().len() { Some(self.entries()[i + 1]) } else { None }),
            !(key is Nil) && !self@.dom().contains(key) ==> r is None,
    {
        self.lemma_entries();
        let es = self.entries();
        assert forall|i: int, j: int| 0 <= i < j < es.len() implies #[trigger] es[i].0 != #[trigger] es[j].0 by {
            assert(es[i].0 == self.data@[i].0@ && es[j].0 == self.data@[j].0@);
        }
        if !(key is Nil) {
            match r {
                Some(e) => {
                    let w = choose|w: int| 0 <= w && w + 1 < es.len() && #[trigger] es[w].0 == key && e == es[w + 1];
                    assert(self@.dom().contains(es[w].0));
                    assert forall|i: int| 0 <= i < es.len() && key == #[trigger] es[i].0 implies
                        r == (if i + 1 < es.len() { Some(es[i + 1]) } else { None }) by {
                        if i != w {
                            if i < w { assert(es[i].0 != es[w].0); } else { assert(es[w].0 != es[i].0); }
                        }
                    }
                },
                None => {
                    assert forall|i: int| 0 <= i < es.len() && key == #[trigger] es[i].0 implies
                        r == (if i + 1 < es.len() { Some(es[i + 1]) } else { None }) by {
                        if i + 1 < es.len() {
                            assert(es[i].0 != key);
                        }
                    }
                },
            }
            if !self@.dom().contains(key) {
                if r is Some {
                    let e = r->0;
                    let w = choose|w: int| 0 <= w && w + 1 < es.len() && #[trigger] es[w].0 == key && e == es[w + 1];
                    assert(self@.dom().contains(es[w].0));
                }
            }
        }
    }

    pub proof fn lemma_entries(&self)
        requires
            self.wf(),
        ensures
            self@.dom().finite(),
            self@.dom().len() == self.entries().len(),
            forall|i: int| 0 <= i < self.entries().len() ==>
                self@.dom().contains(#[trigger] self.entries()[i].0) && self@[self.entries()[i].0] == self.entries()[i].1,
            forall|k: ValueView| #[trigger] self@.dom().contains(k) ==>
                exists|i: int| 0 <= i < self.entries().len() && self.entries()[i].0 == k,
    {
        lemma_entries_finite(self.data@);
        assert forall|i: int| 0 <= i < self.entries().len() implies
            self@.dom().contains(#[trigger] self.entries()[i].0) && self@[self.entries()[i].0] == self.entries()[i].1 by {
            lemma_entries_value(self.data@, i);
        }
        assert forall|k: ValueView| #[trigger] self@.dom().contains(k) implies
            exists|i: int| 0 <= i < self.entries().len() && self.entries()[i].0 == k by {
            lemma_entries_dom(self.data@, k);
            let i = choose|i: int| 0 <= i < self.data@.len() && (#[trigger] self.data@[i]).0@ == k;
            assert(self.entries()[i].0 == k);
        }
    }

    /// An empty table with the given id, no metatable and counter 0.
    pub fn new(id: usize) -> (t: Self)
        ensures
            t.wf(),
            t@ == Map::<ValueView, ValueView>::empty(),
            t.entries().len() == 0,
            t.spec_meta() is None,
            t.spec_counter() == 0,
            t.spec_id() == id,
    {
        Table { data: Vec::new(), meta: None, counter: 0, id }
    }

    /// The value bound to `key`, if any.
    pub fn getr(&self, key: &Value) -> (r: Option<&Value>)
        requires
            self.wf(),
        ensures
            r is Some <==> self@.dom().contains(key@),
            r matches Some(v) ==> v@ == self@[key@],
    {
        lookup_ref(&self.data, key)
    }

    /// The value bound to `key`, if any.
    pub fn get(&self, key: Value) -> (r: Option<&Value>)
        requires
            self.wf(),
        ensures
            r is Some <==> self@.dom().contains(key@),
            r matches Some(v) ==> v@ == self@[key@],
    {
        lookup_ref(&self.data, &key)
    }

    /// The value bound to the integer key `i`, if any.
    pub fn getn(&self, i: usize) -> (r: Option<&Value>)
        requires
            self.wf(),
        ensures
            r is Some <==> self@.dom().contains(ValueView::Integer(i as i64)),
            r matches Some(v) ==> v@ == self@[ValueView::Integer(i as i64)],
    {
        lookup_ref(&self.data, &Value::Integer(i as i64))
    }

    /// The value bound to `key`, `nil` when there is none.
    pub fn get_value(&self, key: &Value) -> (r: Value)
        requires
            self.wf(),
        ensures
            r@ == (if self@.dom().contains(key@) { self@[key@] } else { ValueView::Nil }),
    {
        lookup(&self.data, key)
    }

    /// One step of `next`/`pairs`: the entry after `key` (the first one for `nil`),
    /// `None` past the last entry or when `key` is not in the table.
    pub fn next_entry(&self, key: &Value) -> (r: Option<(Value, Value)>)
        requires
            self.wf(),
        ensures
            next_result(self.entries(), key@, match r {
                Some(e) => Some((e.0@, e.1@)),
                None => None,
            }),
    {
        if let Value::Nil = key {
            if self.data.len() == 0 {
                return None;
            }
            return Some((self.data[0].0.clone(), self.data[0].1.clone()));
        }
        match find_index(&self.data, key) {
            Some(i) => {
                if i < self.data.len() - 1 {
                    proof {
                        assert(self.entries()[i as int].0 == key@);
                    }
                    Some((self.data[i + 1].0.clone(), self.data[i + 1].1.clone()))
                } else {
                    proof {
                        assert forall|j: int| 0 <= j && j + 1 < self.entries().len() implies
                            #[trigger] self.entries()[j].0 != key@ by {
                            assert(self.entries()[j].0 == self.data@[j].0@);
                            assert(self.data@[j].0@ != self.data@[i as int].0@);
                        }
                    }
                    None
                }
            },
            None => {
                proof {
                    assert forall|j: int| 0 <= j && j + 1 < self.entries().len() implies
                        #[trigger] self.entries()[j].0 != key@ by {
                        assert(self.entries()[j].0 == self.data@[j].0@);
                    }
                }
                None
            },
        }
    }

    /// Bind `key` to `val` (no array bookkeeping); the previous value, if any.
    pub fn set(&mut self, key: Value, val: Value) -> (r: Option<Value>)
        requires
            old(self).wf(),
        ensures
            final(self).wf(),
            final(self)@ == old(self)@.insert(key@, val@),
            r is Some <==> old(self)@.dom().contains(key@),
            r matches Some(v) ==> v@ == old(self)@[key@],
            final(self).spec_meta() == old(self).spec_meta(),
            final(self).spec_counter() == old(self).spec_counter(),
            final(self).spec_id() == old(self).spec_id(),
    {
        store(&mut self.data, key, val)
    }

    fn has_int(&self, k: i64) -> (r: bool)
        ensures
            r == self@.dom().contains(ikey(k as int)),
    {
        contains_key(&self.data, &Value::Integer(k))
    }

    fn unbind_int(&mut self, k: i64) -> (r: Option<Value>)
        requires
            old(self).wf(),
        ensures
            final(self).wf(),
            final(self)@ == old(self)@.remove(ikey(k as int)),
            r is Some <==> old(self)@.dom().contains(ikey(k as int)),
            r matches Some(v) ==> v@ == old(self)@[ikey(k as int)],
            final(self).spec_meta() == old(self).spec_meta(),
            final(self).spec_counter() == old(self).spec_counter(),
            final(self).spec_id() == old(self).spec_id(),
    {
        unbind(&mut self.data, &Value::Integer(k))
    }

    /// The array border: an `n` with `t[n]` present and `t[n + 1]` absent, or `0`
    /// when `t[1]` is absent (Lua's `#t`). Found by an exponential probe followed by a
    /// binary search.
    pub fn border(&self) -> (n: i64)
        ensures
            is_border(self@, n as int),
            !self@.dom().contains(ikey(1)) ==> n == 0,
            n == spec_border(self@),
    {
        proof {
            lemma_spec_border(self@);
        }
        if !self.has_int(1) {
            return 0;
        }
        let mut i: i64 = 1;
        let mut j: i64 = 2;
        while self.has_int(j)
            invariant
                1 <= i,
                j == 2 * i,
                j <= i64::MAX,
                self@.dom().contains(ikey(i as int)),
                spec_border(self@) == probe_exp(self@, i as int, j as int),
            decreases i64::MAX - j,
        {
            i = j;
            if j > i64::MAX / 2 {
                let mut n = i;
                while n < i64::MAX && self.has_int(n + 1)
                    invariant
                        1 <= n <= i64::MAX,
                        self@.dom().contains(ikey(n as int)),
                        spec_border(self@) == probe_linear(self@, n as int),
                    decreases i64::MAX - n,
                {
                    n += 1;
                }
                return n;
            }
            j = j * 2;
        }
        while j - i > 1
            invariant
                1 <= i < j,
                self@.dom().contains(ikey(i as int)),
                !self@.dom().contains(ikey(j as int)),
                spec_border(self@) == probe_bin(self@, i as int, j as int),
            decreases j - i,
        {
            let m = i + (j - i) / 2;
            if self.has_int(m) {
                i = m;
            } else {
                j = m;
            }
        }
        i
    }

    /// Bind the next array slot (`border + 1`) to `val`; the previous value there,
    /// which is always `None`.
    pub fn raw_push(&mut self, val: Value) -> (r: Option<Value>)
        requires
            old(self).wf(),
            spec_border(old(self)@) < i64::MAX,
        ensures
            final(self).wf(),
            r is None,
            final(self)@ == old(self)@.insert(ikey(spec_border(old(self)@) + 1), val@),
            exists|n: int| #[trigger] is_border(old(self)@, n) && final(self)@ == old(self)@.insert(ikey(n + 1), val@),
            final(self).spec_meta() == old(self).spec_meta(),
            final(self).spec_counter() == old(self).spec_counter(),
            final(self).spec_id() == old(self).spec_id(),
    {
        let n = self.border();
        let r = self.set(Value::Integer(n + 1), val);
        proof {
            assert(is_border(old(self)@, n as int));
        }
        r
    }

    /// Append `value` at the array border (`t[#t + 1] = value`).
    /// Append `value` after the border (`table.insert(t, v)`).
    pub fn push(&mut self, value: Value)
        requires
            old(self).wf(),
            spec_border(old(self)@) < i64::MAX,
        ensures
            final(self).wf(),
            final(self)@ == old(self)@.insert(ikey(spec_border(old(self)@) + 1), value@),
            pushed(old(self)@, value@, final(self)@),
            final(self).spec_meta() == old(self).spec_meta(),
            final(self).spec_counter() == old(self).spec_counter(),
            final(self).spec_id() == old(self).spec_id(),
    {
        self.raw_push(value);
    }

    /// Remove the last element of the array part (`table.remove(t)`); `nil` when the
    /// array part is empty.
    pub fn pop(&mut self) -> (r: Value)
        requires
            old(self).wf(),
        ensures
            final(self).wf(),
            if spec_border(old(self)@) == 0 {
                r@ == ValueView::Nil && final(self)@ == old(self)@
            } else {
                r@ == old(self)@[ikey(spec_border(old(self)@))] && final(self)@ == old(self)@.remove(ikey(spec_border(old(self)@)))
            },
            !old(self)@.dom().contains(ikey(1)) ==> r@ == ValueView::Nil && final(self)@ == old(self)@,
            exists|n: int| #[trigger] is_border(old(self)@, n) && if n == 0 {
                r@ == ValueView::Nil && final(self)@ == old(self)@
            } else {
                r@ == old(self)@[ikey(n)] && final(self)@ == old(self)@.remove(ikey(n))
            },
            final(self).spec_meta() == old(self).spec_meta(),
            final(self).spec_counter() == old(self).spec_counter(),
            final(self).spec_id() == old(self).spec_id(),
    {
        let n = self.border();
        if n == 0 {
            proof {
                assert(is_border(old(self)@, n as int));
            }
            return Value::Nil;
        }
        let r = self.unbind_int(n);
        proof {
            assert(is_border(old(self)@, n as int));
        }
        match r {
            Some(v) => v,
            None => Value::Nil,
        }
    }

    /// Positional insert (`table.insert(t, pos, v)`): the elements at
    /// `pos..=#t` move up one index and `value` is stored at `pos`. A key that is not
    /// an integer is refused with `CoerceInt`.
    pub fn insert(&mut self, key: Value, value: Value) -> (r: Result<Value, SiltError>)
        requires
            old(self).wf(),
            !old(self)@.dom().contains(ikey(i64::MAX as int)),
        ensures
            final(self).wf(),
            final(self).spec_meta() == old(self).spec_meta(),
            final(self).spec_counter() == old(self).spec_counter(),
            final(self).spec_id() == old(self).spec_id(),
            inserted(old(self)@, key@, value@, final(self)@, r),
    {
        let i = match key {
            Value::Integer(i) => i,
            _ => return Err(SiltError::CoerceInt),
        };
        let ghost m = self@;
        let ghost lo: int = if i < 1 { 1 } else { i as int };
        let n = self.border();
        proof {
            lemma_up_start(m, n as int);
        }
        let mut k = n;
        while k >= i && k >= 1
            invariant
                self.wf(),
                is_border(m, n as int),
                n < i64::MAX,
                !m.dom().contains(ikey(i64::MAX as int)),
                lo == (if i < 1 { 1 } else { i as int }),
                lo <= n ==> lo - 1 <= k <= n,
                lo > n ==> k == n,
                self@ == up_partial(m, k as int, n as int),
                self.spec_meta() == old(self).spec_meta(),
                self.spec_counter() == old(self).spec_counter(),
                self.spec_id() == old(self).spec_id(),
            decreases k,
        {
            proof {
                lemma_up_step(m, k as int, n as int);
            }
            let moved = self.unbind_int(k);
            match moved {
                Some(v) => {
                    self.set(Value::Integer(k + 1), v);
                },
                None => {},
            }
            k -= 1;
        }
        proof {
            if lo <= n {
                lemma_up_end(m, lo, n as int);
            } else {
                lemma_shift_up_empty(m, lo, n as int);
            }
            assert(is_border(m, n as int));
        }
        self.set(Value::Integer(i), value);
        Ok(Value::Nil)
    }

    /// Remove the element at `pos` (`table.remove(t, pos)`) and return it (`nil` when
    /// absent); the elements at `pos + 1..=#t` move down one index.
    pub fn remove_at(&mut self, pos: i64) -> (r: Value)
        requires
            old(self).wf(),
            !old(self)@.dom().contains(ikey(i64::MAX as int)),
            pos < i64::MAX,
        ensures
            final(self).wf(),
            final(self).spec_meta() == old(self).spec_meta(),
            final(self).spec_counter() == old(self).spec_counter(),
            final(self).spec_id() == old(self).spec_id(),
            r@ == (if old(self)@.dom().contains(ikey(pos as int)) { old(self)@[ikey(pos as int)] } else { ValueView::Nil }),
            exists|n: int| #[trigger] is_border(old(self)@, n) && final(self)@ == shifted_down(old(self)@, pos as int, n),
    {
        let ghost m = self@;
        let n = self.border();
        let removed = match self.unbind_int(pos) {
            Some(v) => v,
            None => Value::Nil,
        };
        proof {
            lemma_down_start(m, pos as int);
        }
        let mut k = pos + 1;
        while k <= n
            invariant
                self.wf(),
                is_border(m, n as int),
                n < i64::MAX,
                pos + 1 <= k,
                pos + 1 <= n ==> k <= n + 1,
                pos + 1 > n ==> k == pos + 1,
                self@ == down_partial(m, pos as int, k as int),
                self.spec_meta() == old(self).spec_meta(),
                self.spec_counter() == old(self).spec_counter(),
                self.spec_id() == old(self).spec_id(),
            decreases n + 1 - k,
        {
            proof {
                lemma_down_step(m, pos as int, k as int, n as int);
            }
            let moved = self.unbind_int(k);
            match moved {
                Some(v) => {
                    self.set(Value::Integer(k - 1), v);
                },
                None => {},
            }
            k += 1;
        }
        proof {
            lemma_down_end(m, pos as int, n as int);
            assert(is_border(m, n as int));
        }
        removed
    }

    /// The number of entries (keys bound, whatever their value).
    pub fn len(&self) -> (n: usize)
        requires
            self.wf(),
        ensures
            n == self@.dom().len(),
    {
        proof {
            lemma_entries_finite(self.data@);
        }
        self.data.len()
    }

    /// Has the table no entry?
    pub fn is_empty(&self) -> (b: bool)
        requires
            self.wf(),
        ensures
            b == (self@.dom().len() == 0),
    {
        proof {
            lemma_entries_finite(self.data@);
        }
        self.data.len() == 0
    }

    /// Bind `key` to `val`; when `key` is an integer at or past the counter, the
    /// counter first advances over a run of present keys (see [`advanced_counter`]).
    pub fn set_and_check(&mut self, key: Value, val: Value) -> (r: Option<Value>)
        requires
            old(self).wf(),
        ensures
            final(self).wf(),
            final(self)@ == old(self)@.insert(key@, val@),
            r is Some <==> old(self)@.dom().contains(key@),
            r matches Some(v) ==> v@ == old(self)@[key@],
            final(self).spec_meta() == old(self).spec_meta(),
            final(self).spec_id() == old(self).spec_id(),
            final(self).spec_counter() == match strict_int(key@) {
                Some(i) => if i >= old(self).spec_counter() {
                    advanced_counter(old(self)@, old(self).spec_counter(), i as int)
                } else {
                    old(self).spec_counter()
                },
                None => old(self).spec_counter(),
            },
    {
        if let Value::Integer(i) = key {
            if i > self.counter {
                let c = self.counter;
                let mut k = i - 1;
                while k > c && self.has_int(k)
                    invariant
                        c < i,
                        c <= k < i,
                        forall|kk: int| k < kk < i ==> #[trigger] self@.dom().contains(ikey(kk)),
                    decreases k - c,
                {
                    k -= 1;
                }
                if k == c && self.has_int(c) {
                    self.counter = c + 1;
                } else {
                    proof {
                        assert(!self@.dom().contains(ikey(k as int)));
                    }
                }
            }
        }
        store(&mut self.data, key, val)
    }

    /// Store `array`'s values at the counter's next indices, one after the other;
    /// the counter ends one past the last of them.
    pub fn concat_array(&mut self, array: Vec<Value>)
        requires
            old(self).wf(),
            old(self).spec_counter() + array@.len() + 1 <= i64::MAX,
        ensures
            final(self).wf(),
            final(self)@ == filled(old(self)@, old(self).spec_counter() + 1, array@.map_values(|v: Value| v@)),
            final(self).spec_counter() == old(self).spec_counter() + array@.len() + 1,
            final(self).spec_meta() == old(self).spec_meta(),
            final(self).spec_id() == old(self).spec_id(),
    {
        let ghost vals = array@.map_values(|v: Value| v@);
        let ghost start = self.counter + 1;
        self.counter += 1;
        let mut j: usize = 0;
        while j < array.len()
            invariant
                self.wf(),
                j <= array@.len(),
                start == old(self).spec_counter() + 1,
                self.counter == start + j,
                start + array@.len() <= i64::MAX,
                vals == array@.map_values(|v: Value| v@),
                self@ == filled(old(self)@, start, vals.take(j as int)),
                self.spec_meta() == old(self).spec_meta(),
                self.spec_id() == old(self).spec_id(),
            decreases array@.len() - j,
        {
            let v = array[j].clone();
            store(&mut self.data, Value::Integer(self.counter), v);
            self.counter += 1;
            j += 1;
            proof {
                assert(vals.take(j as int).drop_last() =~= vals.take(j - 1));
            }
        }
        proof {
            assert(vals.take(array@.len() as int) =~= vals);
        }
    }

    /// Set the metatable.
    pub fn set_metatable(&mut self, metatable: Value)
        ensures
            final(self)@ == old(self)@,
            final(self).entries() == old(self).entries(),
            final(self).wf() == old(self).wf(),
            final(self).spec_meta() == Some(metatable@),
            final(self).spec_counter() == old(self).spec_counter(),
            final(self).spec_id() == old(self).spec_id(),
    {
        self.meta = Some(metatable);
    }

    /// The metatable, `nil` when none is set.
    pub fn get_metatable(&self) -> (r: Value)
        ensures
            r@ == match self.spec_meta() {
                Some(v) => v,
                None => ValueView::Nil,
            },
    {
        match &self.meta {
            Some(v) => v.clone(),
            None => Value::Nil,
        }
    }

    /// The entries, in the order `next` walks them.
    pub fn iter(&self) -> (r: &[(Value, Value)])
        ensures
            entry_views(r@) == self.entries(),
    {
        self.data.as_slice()
    }

    /// The values at keys `1..=n`, `nil` where a key is absent.
    pub fn to_array(&self, n: usize) -> (r: Vec<Value>)
        requires
            self.wf(),
            n < i64::MAX,
        ensures
            r@.len() == n,
            forall|i: int| 0 <= i < n ==> (#[trigger] r@[i])@ == (if self@.dom().contains(ikey(i + 1)) {
                self@[ikey(i + 1)]
            } else {
                ValueView::Nil
            }),
    {
        let mut out: Vec<Value> = Vec::new();
        let mut i: usize = 0;
        while i < n
            invariant
                self.wf(),
                i <= n,
                n < i64::MAX,
                out@.len() == i,
                forall|j: int| 0 <= j < i ==> (#[trigger] out@[j])@ == (if self@.dom().contains(ikey(j + 1)) {
                    self@[ikey(j + 1)]
                } else {
                    ValueView::Nil
                }),
            decreases n - i,
        {
            let v = lookup(&self.data, &Value::Integer((i + 1) as i64));
            out.push(v);
            i += 1;
        }
        out
    }

    /// A detached copy of the table's id and entries.
    pub fn to_exval(&self) -> (r: ExTable)
        requires
            self.wf(),
        ensures
            r.wf(),
            r@ == self@,
            r.spec_id() == self.spec_id(),
    {
        let mut data: Vec<(Value, Value)> = Vec::new();
        let mut i: usize = 0;
        while i < self.data.len()
            invariant
                i <= self.data@.len(),
                keys_unique(self.data@),
                data@.len() == i,
                forall|j: int| 0 <= j < i ==> #[trigger] data@[j] == self.data@[j],
            decreases self.data@.len() - i,
        {
            let k = self.data[i].0.clone();
            let v = self.data[i].1.clone();
            data.push((k, v));
            i += 1;
        }
        proof {
            assert(data@ =~= self.data@);
        }
        ExTable { id: self.id, data }
    }

    /// The `__index` metafield of the metatable (looked up in `tables`, indexed by
    /// table id): a table or function, `None` without a metatable or without one.
    pub fn meta_index(&self, tables: &Vec<Table>) -> (r: Option<Value>)
        requires
            forall|i: int| 0 <= i < tables@.len() ==> (#[trigger] tables@[i]).wf(),
        ensures
            ({
                let key = ValueView::String("__index"@);
                match self.spec_meta() {
                    Some(ValueView::Table(id)) if id < tables@.len()
                        && tables@[id as int]@.dom().contains(key)
                        && !(tables@[id as int]@[key] is Nil) => r matches Some(v) && v@ == tables@[id as int]@[key],
                    _ => r is None,
                }
            }),
    {
        if let Some(Value::Table(id)) = &self.meta {
            if *id < tables.len() {
                let key = Value::String(String::from_str("__index"));
                proof {
                    reveal_strlit("__index");
                }
                let v = tables[*id].get_value(&key);
                if let Value::Nil = v {
                    return None;
                }
                return Some(v);
            }
        }
        None
    }

    /// The metamethod `method` from the metatable (looked up in `tables`, indexed by
    /// table id): it must be a closure.
    pub fn by_meta_method(&self, tables: &Vec<Table>, method: MetaMethod) -> (r: Result<Value, SiltError>)
        requires
            forall|i: int| 0 <= i < tables@.len() ==> (#[trigger] tables@[i]).wf(),
        ensures
            ({
                let key = ValueView::String(spec_table_key(method));
                match self.spec_meta() {
                    Some(ValueView::Table(id)) if id < tables@.len() && tables@[id as int]@.dom().contains(key) =>
                        if tables@[id as int]@[key] is Closure {
                            r matches Ok(v) && v@ == tables@[id as int]@[key]
                        } else {
                            r matches Err(SiltError::MetaMethodNotCallable(mm)) && mm == method
                        },
                    _ => r matches Err(SiltError::MetaMethodMissing(mm)) && mm == method,
                }
            }),
    {
        if let Some(Value::Table(id)) = &self.meta {
            if *id < tables.len() {
                let key = Value::String(String::from_str(method.as_table_key()));
                match tables[*id].getr(&key) {
                    Some(f) => {
                        return if let Value::Closure(_) = f {
                            Ok(f.clone())
                        } else {
                            Err(SiltError::MetaMethodNotCallable(method))
                        };
                    },
                    None => {},
                }
            }
        }
        Err(SiltError::MetaMethodMissing(method))
    }
}

/// A detached copy of a table: its id and entries.
#[derive(Debug)]
pub struct ExTable {
    id: usize,
    data: Vec<(Value, Value)>,
}

impl View for ExTable {
    type V = Map<ValueView, ValueView>;

    closed spec fn view(&self) -> Map<ValueView, ValueView> {
        entries_map(self.data@)
    }
}

impl ExTable {
    /// No key is stored twice.
    pub closed spec fn wf(&self) -> bool {
        keys_unique(self.data@)
    }

    pub closed spec fn spec_id(&self) -> usize {
        self.id
    }

    /// The value at the integer key `i`, if any.
    pub fn getn(&self, i: usize) -> (r: Option<&Value>)
        requires
            self.wf(),
        ensures
            r is Some <==> self@.dom().contains(ValueView::Integer(i as i64)),
            r matches Some(v) ==> v@ == self@[ValueView::Integer(i as i64)],
    {
        lookup_ref(&self.data, &Value::Integer(i as i64))
    }

    /// Take the value at the integer key `i` out, `nil` when there is none.
    pub fn pop_value(&mut self, i: usize) -> (r: Value)
        requires
            old(self).wf(),
        ensures
            final(self).wf(),
            final(self)@ == old(self)@.remove(ValueView::Integer(i as i64)),
            r@ == (if old(self)@.dom().contains(ValueView::Integer(i as i64)) {
                old(self)@[ValueView::Integer(i as i64)]
            } else {
                ValueView::Nil
            }),
            final(self).spec_id() == old(self).spec_id(),
    {
        match unbind(&mut self.data, &Value::Integer(i as i64)) {
            Some(v) => v,
            None => Value::Nil,
        }
    }

    /// The value at the string key `field`, if any.
    pub fn get(&self, field: &str) -> (r: Option<&Value>)
        requires
            self.wf(),
        ensures
            r is Some <==> self@.dom().contains(ValueView::String(field@)),
            r matches Some(v) ==> v@ == self@[ValueView::String(field@)],
    {
        lookup_ref(&self.data, &Value::String(String::from_str(field)))
    }

    /// Has the copy no entry?
    pub fn is_empty(&self) -> (b: bool)
        requires
            self.wf(),
        ensures
            b == (self@.dom().len() == 0),
    {
        proof {
            lemma_entries_finite(self.data@);
        }
        self.data.len() == 0
    }

    /// The number of entries.
    pub fn len(&self) -> (n: usize)
        requires
            self.wf(),
        ensures
            n == self@.dom().len(),
    {
        proof {
            lemma_entries_finite(self.data@);
        }
        self.data.len()
    }
}

} // verus!

//! A chunk of bytecode: instructions, their source locations and the constant pool.

use vstd::prelude::*;
use crate::code::OpCode;
use crate::error::TokenCell;
use crate::value::{Value, ValueView};

verus! {

/// `after` is the pool `before` once identifier `id` was written and given
/// index `i`: the first string constant `id` already there, or a new one at the
/// end.
pub open spec fn identifier_written(before: Seq<ValueView>, id: Seq<char>, i: usize, after: Seq<ValueView>) -> bool {
    &&& i <= before.len()
    &&& i < after.len()
    &&& after[i as int] == ValueView::String(id)
    &&& forall|j: int| 0 <= j < i ==> before[j] != ValueView::String(id)
    &&& i < before.len() ==> after == before
    &&& i == before.len() ==> after == before.push(ValueView::String(id))
}

/// Writing the same identifier twice gives the same index, and the second
/// write leaves the pool as the first left it.
pub proof fn law_identifier_idempotent(
    c0: Seq<ValueView>,
    id: Seq<char>,
    i1: usize,
    c1: Seq<ValueView>,
    i2: usize,
    c2: Seq<ValueView>,
)
    requires
        identifier_written(c0, id, i1, c1),
        identifier_written(c1, id, i2, c2),
    ensures
        i2 == i1,
        c2 == c1,
{
    if i2 < i1 {
        assert(c1[i2 as int] == c0[i2 as int]);
        assert(c0[i2 as int] != ValueView::String(id));
    }
    if i1 < i2 {
        assert(c1[i1 as int] == ValueView::String(id));
    }
}

/// What was written last is read back: the last instruction after writing an
/// instruction, and the constant at the index a constant was written to.
pub proof fn law_read_back(code: Seq<OpCode>, op: OpCode, pool: Seq<ValueView>, v: ValueView)
    ensures
        code.push(op).last() == op,
        pool.push(v)[pool.len() as int] == v,
        code.push(op).len() == code.len() + 1,
{
}

/// Compiled bytecode of one function body.
///
/// `code[i]` was written from source location `locations[i]`; constants are
/// referred to by their index in the pool.
#[derive(Debug)]
pub struct Chunk {
    pub code: Vec<OpCode>,
    pub(crate) constants: Vec<Value>,
    pub(crate) locations: Vec<(usize, usize)>,
    pub(crate) valid: bool,
}

impl Chunk {
    /// The instructions written so far.
    pub closed spec fn spec_code(&self) -> Seq<OpCode> {
        self.code@
    }

    /// The instructions are the `code` field.
    pub(crate) proof fn lemma_code_view(a: &Chunk)
        ensures
            a.spec_code() == a.code@,
    {
    }

    /// Rewriting instructions in place leaves the pool, the locations and the
    /// validity as they were.
    pub(crate) proof fn lemma_rest_kept(a: &Chunk, b: &Chunk)
        requires
            a.constants@ == b.constants@,
            a.locations@ == b.locations@,
            a.valid == b.valid,
        ensures
            a.spec_code() == a.code@,
            b.spec_code() == b.code@,
            a.spec_constants() == b.spec_constants(),
            a.spec_locations() == b.spec_locations(),
            a.spec_valid() == b.spec_valid(),
    {
    }

    /// The constant pool, each constant by its view.
    pub closed spec fn spec_constants(&self) -> Seq<ValueView> {
        self.constants@.map_values(|v: Value| v@)
    }

    /// The source location of each instruction written so far.
    pub closed spec fn spec_locations(&self) -> Seq<(usize, usize)> {
        self.locations@
    }

    /// Whether the chunk is still usable (compilation did not fail into it).
    pub closed spec fn spec_valid(&self) -> bool {
        self.valid
    }

    /// An empty, valid chunk.
    pub fn new() -> (c: Self)
        ensures
            c.spec_code() == Seq::<OpCode>::empty(),
            c.spec_constants() == Seq::<ValueView>::empty(),
            c.spec_locations() == Seq::<(usize, usize)>::empty(),
            c.spec_valid(),
    {
        let c = Chunk { code: Vec::new(), constants: Vec::new(), locations: Vec::new(), valid: true };
        assert(c.spec_constants() =~= Seq::<ValueView>::empty());
        c
    }

    /// Appends an instruction written at `location`; returns its index.
    pub fn write_code(&mut self, byte: OpCode, location: TokenCell) -> (i: usize)
        requires
            old(self).spec_code().len() < usize::MAX,
        ensures
            final(self).spec_code() == old(self).spec_code().push(byte),
            final(self).spec_locations() == old(self).spec_locations().push(location),
            final(self).spec_constants() == old(self).spec_constants(),
            final(self).spec_valid() == old(self).spec_valid(),
            i == old(self).spec_code().len(),
    {
        self.code.push(byte);
        self.locations.push(location);
        self.code.len() - 1
    }

    /// The last instruction written.
    pub fn read_last_code(&self) -> (op: &OpCode)
        requires
            self.spec_code().len() > 0,
        ensures
            *op == self.spec_code().last(),
    {
        &self.code[self.code.len() - 1]
    }

    /// Appends a constant to the pool; returns its index.
    pub fn write_constant(&mut self, value: Value) -> (i: usize)
        requires
            old(self).spec_constants().len() < usize::MAX,
        ensures
            final(self).spec_constants() == old(self).spec_constants().push(value@),
            final(self).spec_code() == old(self).spec_code(),
            final(self).spec_locations() == old(self).spec_locations(),
            final(self).spec_valid() == old(self).spec_valid(),
            i == old(self).spec_constants().len(),
    {
        let ghost before = self.constants@;
        self.constants.push(value);
        assert(self.constants@.map_values(|v: Value| v@) =~= before.map_values(|v: Value| v@).push(value@));
        self.constants.len() - 1
    }

    /// The pool index of the string constant `identifier`: the first one already
    /// in the pool, or a new one appended at the end.
    pub fn write_identifier(&mut self, identifier: String) -> (i: usize)
        requires
            old(self).spec_constants().len() < usize::MAX,
        ensures
            identifier_written(old(self).spec_constants(), identifier@, i, final(self).spec_constants()),
            final(self).spec_code() == old(self).spec_code(),
            final(self).spec_locations() == old(self).spec_locations(),
            final(self).spec_valid() == old(self).spec_valid(),
    {
        let n = self.constants.len();
        let mut k: usize = 0;
        while k < n
            invariant
                n == self.constants@.len(),
                k <= n,
                forall|j: int| 0 <= j < k ==> self.spec_constants()[j] != ValueView::String(identifier@),
            decreases n - k,
        {
            let found = match &self.constants[k] {
                Value::String(s) => s.eq(&identifier),
                _ => false,
            };
            if found {
                return k;
            }
            k += 1;
        }
        self.write_constant(Value::String(identifier))
    }

    /// Appends `value` to the pool and an instruction loading it, written at
    /// `location`. The instruction holds the pool index truncated to a byte.
    pub fn write_value(&mut self, value: Value, location: TokenCell)
        requires
            old(self).spec_constants().len() < usize::MAX,
            old(self).spec_code().len() < usize::MAX,
        ensures
            final(self).spec_constants() == old(self).spec_constants().push(value@),
            final(self).spec_code() == old(self).spec_code().push(
                OpCode::CONSTANT { constant: old(self).spec_constants().len() as u8 },
            ),
            final(self).spec_locations() == old(self).spec_locations().push(location),
            final(self).spec_valid() == old(self).spec_valid(),
    {
        let u = self.write_constant(value);
        self.write_code(OpCode::CONSTANT { constant: u as u8 }, location);
    }

    /// The constant at `index`.
    pub fn get_constant(&self, index: u8) -> (v: &Value)
        requires
            (index as int) < self.spec_constants().len(),
        ensures
            v@ == self.spec_constants()[index as int],
    {
        &self.constants[index as usize]
    }

    /// Drops the last instruction and its location.
    pub(crate) fn drop_last(&mut self)
        requires
            old(self).spec_code().len() > 0,
            old(self).spec_locations().len() == old(self).spec_code().len(),
        ensures
            final(self).spec_code() == old(self).spec_code().drop_last(),
            final(self).spec_locations() == old(self).spec_locations().drop_last(),
            final(self).spec_constants() == old(self).spec_constants(),
            final(self).spec_valid() == old(self).spec_valid(),
    {
        self.code.pop();
        self.locations.pop();
        assert(self.code@ =~= old(self).code@.drop_last());
        assert(self.locations@ =~= old(self).locations@.drop_last());
    }

    /// Rewrites the instruction at `i`.
    pub(crate) fn set_code(&mut self, i: usize, op: OpCode)
        requires
            i < old(self).spec_code().len(),
        ensures
            final(self).spec_code() == old(self).spec_code().update(i as int, op),
            final(self).spec_constants() == old(self).spec_constants(),
            final(self).spec_locations() == old(self).spec_locations(),
            final(self).spec_valid() == old(self).spec_valid(),
    {
        self.code.set(i, op);
    }

    /// The number of constants in the pool.
    pub(crate) fn constant_count(&self) -> (n: usize)
        ensures
            n == self.spec_constants().len(),
    {
        self.constants.len()
    }

    /// A copy of the constant at `index`.
    pub fn copy_constant(&self, index: u8) -> (v: Value)
        requires
            (index as int) < self.spec_constants().len(),
        ensures
            v@ == self.spec_constants()[index as int],
    {
        self.constants[index as usize].clone()
    }

    /// Marks the chunk unusable.
    pub fn invalidate(&mut self)
        ensures
            !final(self).spec_valid(),
            final(self).spec_code() == old(self).spec_code(),
            final(self).spec_constants() == old(self).spec_constants(),
            final(self).spec_locations() == old(self).spec_locations(),
    {
        self.valid = false;
    }

    /// Whether the chunk is still usable.
    pub fn is_valid(&self) -> (b: bool)
        ensures
            b == self.spec_valid(),
    {
        self.valid
    }

    /// Drops all instructions, locations and constants.
    pub fn free(&mut self)
        ensures
            final(self).spec_code() == Seq::<OpCode>::empty(),
            final(self).spec_constants() == Seq::<ValueView>::empty(),
            final(self).spec_locations() == Seq::<(usize, usize)>::empty(),
            final(self).spec_valid() == old(self).spec_valid(),
    {
        self.code.clear();
        self.constants.clear();
        self.locations.clear();
        assert(self.spec_constants() =~= Seq::<ValueView>::empty());
    }
}

impl Default for Chunk {
    /// An empty chunk that is not marked valid.
    fn default() -> (c: Self)
        ensures
            c.spec_code() == Seq::<OpCode>::empty(),
            c.spec_constants() == Seq::<ValueView>::empty(),
            c.spec_locations() == Seq::<(usize, usize)>::empty(),
            !c.spec_valid(),
    {
        let c = Chunk { code: Vec::new(), constants: Vec::new(), locations: Vec::new(), valid: false };
        assert(c.spec_constants() =~= Seq::<ValueView>::empty());
        c
    }
}

} // verus!

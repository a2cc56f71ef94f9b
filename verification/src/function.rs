//! Upvalues of closures and the results of native functions.

use vstd::prelude::*;
use crate::value::Value;

verus! {

/// What a native function hands back: one value, or several that the call
/// spreads onto the stack.
#[derive(Debug)]
pub enum NativeReturn {
    Single(Value),
    Multi(Vec<Value>),
}

/// Where an upvalue's variable lives: still in a slot of the VM's value stack
/// (open), or inside the upvalue itself (closed).
#[derive(Debug, Clone, Copy, PartialEq, Eq, Structural)]
pub enum UpLocation {
    Stack(usize),
    Closed,
}

/// `u1` and `s1` are upvalue `u0` and stack `s0` after the variable was set to
/// `v`: its stack slot while open, the upvalue's own value once closed.
pub open spec fn value_written(u0: UpValue, s0: Seq<Value>, v: Value, u1: UpValue, s1: Seq<Value>) -> bool {
    &&& u1.spec_index() == u0.spec_index()
    &&& u1.spec_location() == u0.spec_location()
    &&& match u0.spec_location() {
        UpLocation::Stack(slot) => s1 == s0.update(slot as int, v) && u1.spec_closed() == u0.spec_closed(),
        UpLocation::Closed => s1 == s0 && u1.spec_closed() == v,
    }
}

/// `u1` and `s1` are upvalue `u0` and stack `s0` after closing: the value moved
/// out of the stack slot, which is left `Nil`, into the upvalue.
pub open spec fn closed_over(u0: UpValue, s0: Seq<Value>, u1: UpValue, s1: Seq<Value>) -> bool {
    &&& u1.spec_index() == u0.spec_index()
    &&& u1.spec_location() == UpLocation::Closed
    &&& u1.spec_closed() == u0.current(s0)
    &&& match u0.spec_location() {
        UpLocation::Stack(slot) => s1 == s0.update(slot as int, Value::Nil),
        UpLocation::Closed => s1 == s0,
    }
}

/// Reading a captured variable right after writing it gives the value written.
pub proof fn law_read_after_write(u0: UpValue, s0: Seq<Value>, v: Value, u1: UpValue, s1: Seq<Value>)
    requires
        u0.fits(s0),
        value_written(u0, s0, v, u1, s1),
    ensures
        u1.current(s1) == v,
        u1.fits(s1),
{
}

/// Closing an upvalue keeps the variable's value: a read after closing gives
/// what a read before gave, and later writes no longer touch the stack.
pub proof fn law_close_keeps_value(u0: UpValue, s0: Seq<Value>, u1: UpValue, s1: Seq<Value>, v: Value, u2: UpValue, s2: Seq<Value>)
    requires
        u0.fits(s0),
        closed_over(u0, s0, u1, s1),
        value_written(u1, s1, v, u2, s2),
    ensures
        u1.current(s1) == u0.current(s0),
        s2 == s1,
        u2.current(s2) == v,
{
}

/// A variable captured by a closure.
///
/// While the variable's frame is live the upvalue is open and reads and writes
/// go to its stack slot; when the frame ends the upvalue is closed and keeps the
/// value itself.
#[derive(Debug)]
pub struct UpValue {
    pub index: u8,
    closed: Value,
    pub location: UpLocation,
}

impl UpValue {
    /// The value an upvalue holds once closed (`Nil` while open and never closed).
    pub closed spec fn spec_closed(&self) -> Value {
        self.closed
    }

    /// Where the variable lives.
    pub closed spec fn spec_location(&self) -> UpLocation {
        self.location
    }

    /// The local slot the upvalue was captured for.
    pub closed spec fn spec_index(&self) -> u8 {
        self.index
    }

    /// The variable's current value, given the VM's value stack.
    pub open spec fn current(&self, stack: Seq<Value>) -> Value {
        match self.spec_location() {
            UpLocation::Stack(slot) => stack[slot as int],
            UpLocation::Closed => self.spec_closed(),
        }
    }

    /// Whether the upvalue can be read or written against `stack`.
    pub open spec fn fits(&self, stack: Seq<Value>) -> bool {
        match self.spec_location() {
            UpLocation::Stack(slot) => slot < stack.len(),
            UpLocation::Closed => true,
        }
    }

    /// An open upvalue for local `index`, living in stack slot `location`.
    pub fn new(index: u8, location: usize) -> (u: Self)
        ensures
            u.spec_index() == index,
            u.spec_location() == UpLocation::Stack(location),
            u.spec_closed() == Value::Nil,
    {
        UpValue { index, closed: Value::Nil, location: UpLocation::Stack(location) }
    }

    /// Writes the variable: its stack slot while open, the upvalue once closed.
    pub fn set_value(&mut self, stack: &mut Vec<Value>, value: Value)
        requires
            old(self).fits(old(stack)@),
        ensures
            value_written(*old(self), old(stack)@, value, *final(self), final(stack)@),
    {
        match self.location {
            UpLocation::Stack(slot) => {
                stack.set(slot, value);
            },
            UpLocation::Closed => {
                self.closed = value;
            },
        }
    }

    /// Closes the upvalue over `value`, which it keeps from now on.
    pub fn close_around(&mut self, value: Value)
        ensures
            final(self).spec_index() == old(self).spec_index(),
            final(self).spec_location() == UpLocation::Closed,
            final(self).spec_closed() == value,
    {
        self.closed = value;
        self.location = UpLocation::Closed;
    }

    /// Closes the upvalue: the value moves out of its stack slot, which is left
    /// `Nil`, into the upvalue.
    pub fn close(&mut self, stack: &mut Vec<Value>)
        requires
            old(self).fits(old(stack)@),
        ensures
            closed_over(*old(self), old(stack)@, *final(self), final(stack)@),
    {
        match self.location {
            UpLocation::Stack(slot) => {
                let v = stack[slot].clone();
                stack.set(slot, Value::Nil);
                self.closed = v;
            },
            UpLocation::Closed => {},
        }
        self.location = UpLocation::Closed;
    }

    /// A copy of the variable's current value.
    pub fn copy_value(&self, stack: &Vec<Value>) -> (v: Value)
        requires
            self.fits(stack@),
        ensures
            v == self.current(stack@),
    {
        match self.location {
            UpLocation::Stack(slot) => stack[slot].clone(),
            UpLocation::Closed => self.closed.clone(),
        }
    }

    /// Where the variable lives.
    pub fn get_location(&self) -> (l: UpLocation)
        ensures
            l == self.spec_location(),
    {
        self.location
    }
}

} // verus!

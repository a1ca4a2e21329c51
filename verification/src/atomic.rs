//! The 64-bit numeric cells that back every metric accumulator.
//!
//! In this verified core a cell is owned: mutation goes through `&mut self`,
//! so each update is specified exactly against the value before the call.
//! Addition wraps, as the machine's fetch-and-add does.
use vstd::prelude::*;

verus! {

/// The integer sum `a + b` reduced into the unsigned 64-bit range.
pub open spec fn wrap_add_u64(a: u64, b: u64) -> int {
    (a + b) % 0x1_0000_0000_0000_0000
}

/// The integer `x` reduced into the signed 64-bit range, for `x` within one
/// wrap of it.
pub open spec fn wrap_i64(x: int) -> int {
    if x > i64::MAX {
        x - 0x1_0000_0000_0000_0000
    } else if x < i64::MIN {
        x + 0x1_0000_0000_0000_0000
    } else {
        x
    }
}

/// An unsigned 64-bit counter cell.
#[derive(Debug, Clone, Copy)]
pub struct AtomicU64 {
    /// The held value.
    pub value: u64,
}

impl AtomicU64 {
    /// Makes a cell holding `v`.
    pub fn new(v: u64) -> (r: Self)
        ensures
            r.value == v,
    {
        AtomicU64 { value: v }
    }

    /// Returns the held value.
    pub fn get(&self) -> (r: u64)
        ensures
            r == self.value,
    {
        self.value
    }

    /// Adds one, wrapping around at the top of the range.
    pub fn inc(&mut self)
        ensures
            final(self).value == wrap_add_u64(old(self).value, 1),
    {
        self.add(1);
    }

    /// Adds `v`, wrapping around at the top of the range.
    pub fn add(&mut self, v: u64)
        ensures
            final(self).value == wrap_add_u64(old(self).value, v),
    {
        self.value = self.value.wrapping_add(v);
    }

    /// Replaces the held value with `f` of it.
    pub fn update<F: Fn(u64) -> u64>(&mut self, f: F)
        requires
            forall|x: u64| #[trigger] f.requires((x,)),
        ensures
            f.ensures((old(self).value,), final(self).value),
    {
        let next = f(self.value);
        self.value = next;
    }

    /// Replaces the held value with `v`.
    pub fn set(&mut self, v: u64)
        ensures
            final(self).value == v,
    {
        self.value = v;
    }
}

/// A signed 64-bit cell.
#[derive(Debug, Clone, Copy)]
pub struct AtomicI64 {
    /// The held value.
    pub value: i64,
}

impl AtomicI64 {
    /// Makes a cell holding `v`.
    pub fn new(v: i64) -> (r: Self)
        ensures
            r.value == v,
    {
        AtomicI64 { value: v }
    }

    /// Returns the held value.
    pub fn get(&self) -> (r: i64)
        ensures
            r == self.value,
    {
        self.value
    }

    /// Adds one, wrapping around at the edge of the range.
    pub fn inc(&mut self)
        ensures
            final(self).value == wrap_i64(old(self).value + 1),
    {
        self.add(1);
    }

    /// Adds `v`, wrapping around at the edge of the range.
    pub fn add(&mut self, v: i64)
        ensures
            final(self).value == wrap_i64(old(self).value + v),
    {
        self.value = self.value.wrapping_add(v);
    }

    /// Replaces the held value with `f` of it.
    pub fn update<F: Fn(i64) -> i64>(&mut self, f: F)
        requires
            forall|x: i64| #[trigger] f.requires((x,)),
        ensures
            f.ensures((old(self).value,), final(self).value),
    {
        let next = f(self.value);
        self.value = next;
    }

    /// Replaces the held value with `v`.
    pub fn set(&mut self, v: i64)
        ensures
            final(self).value == v,
    {
        self.value = v;
    }
}

} // verus!

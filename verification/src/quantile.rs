//! Summary quantile.
use vstd::prelude::*;

use crate::error::{Error, ErrorKind};
use crate::float_bits::{check_quantile, valid_quantile};

verus! {

/// A requested summary quantile: a number from 0 to 1, held as an IEEE-754
/// bit pattern.
#[derive(Debug, Clone, Copy, PartialEq, Eq, Structural)]
pub struct Quantile {
    /// The quantile, as an IEEE-754 bit pattern.
    pub bits: u64,
}

impl Quantile {
    /// Makes a quantile, rejecting anything outside the closed interval from
    /// 0 to 1.
    pub fn new(bits: u64) -> (r: Result<Self, Error>)
        ensures
            match r {
                Result::Ok(q) => valid_quantile(bits) && q.bits == bits,
                Result::Err(e) => !valid_quantile(bits) && e.kind == ErrorKind::InvalidInput,
            },
    {
        if check_quantile(bits) {
            Ok(Quantile { bits })
        } else {
            Err(Error::invalid_input())
        }
    }

    /// Returns the quantile's bit pattern.
    pub fn as_bits(&self) -> (r: u64)
        ensures
            r == self.bits,
    {
        self.bits
    }
}

} // verus!

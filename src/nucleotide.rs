//! The four bases as bytes.
use vstd::prelude::*;

verus! {

pub const BASE_A: u8 = 65;

pub const BASE_C: u8 = 67;

pub const BASE_G: u8 = 71;

pub const BASE_T: u8 = 84;

} // verus!

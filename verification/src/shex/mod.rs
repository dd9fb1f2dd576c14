//! SM4/SM5 shader bytecode.
use vstd::prelude::*;

pub mod canonical;
pub mod decode;
pub mod encode;
pub mod fmt;
pub mod format;
pub mod ir;
pub mod listing;
pub mod numbers;
pub mod opcodes;
pub mod opkinds;
pub mod opnumbers;
pub mod roundtrip;
pub mod spelling;
pub mod wording;

verus! {
}

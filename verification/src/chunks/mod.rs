//! The chunks of a shader container.
use vstd::prelude::*;

pub mod columns;
pub mod dxil;
pub mod format;
pub mod ildb;
pub mod ildn;
pub mod lfs0;
pub mod libf;
pub mod libh;
pub mod priv_;
pub mod psv0;
pub mod rdat;
pub mod rdef;
pub mod rts0;
pub mod sfi0;
pub mod signature;
pub mod stat;

verus! {

/// A chunk that is ready to be written: its tag and its payload.
#[derive(Debug, Clone)]
pub struct WritableChunk {
    pub fourcc: [u8; 4],
    pub data: Vec<u8>,
}

} // verus!

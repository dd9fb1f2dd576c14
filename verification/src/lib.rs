//! Direct3D shader bytecode: the containers it comes in, the chunks they hold, the instructions of a program, and the
//! source text that a program reads back as.
//!
//! [`container`] finds containers in a file and [`shader`] gives typed access to their chunks, which [`chunks`] parses
//! and writes. [`shex`] decodes, encodes and lists the instructions. [`hlsl`] reads a program back as HLSL. [`report`]
//! lists a whole file, and [`trial`] tries the codec on one.
pub mod bytes;
pub mod chunks;
pub mod container;
pub mod float;
pub mod hlsl;
pub mod magnitudes;
pub mod natural;
pub mod numerals;
pub mod report;
pub mod searches;
pub mod shader;
pub mod shex;
pub mod text;
pub mod trial;
pub mod util;

pub use shader::{parse, Shader};

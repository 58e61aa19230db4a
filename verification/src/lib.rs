//! Verified core of the Senbei static restorer.

pub mod bytes;
pub mod digest;
pub mod elf;
pub mod engine;
pub mod fold;
pub mod job;
pub mod metadata;
pub mod text;
pub mod text_laws;

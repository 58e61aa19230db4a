//! Restoring a protected library: the first extraction stage, the module index and the
//! reconstruction of the ELF image.

pub mod artifact;
pub mod artifact_laws;
pub mod auxiliary;
pub mod choice_laws;
pub mod container;
pub mod container_laws;
pub mod decode;
pub mod dynamic;
pub mod error;
pub mod file_laws;
pub mod finalize;
pub mod finalize_laws;
pub mod link_laws;
pub mod mapping_laws;
pub mod materialize;
pub mod materialize_laws;
pub mod merge;
pub mod placement;
pub mod rebuild_laws;
pub mod refusal_laws;
pub mod relocation;
pub mod restore;
pub mod section_laws;
pub mod sections;
pub mod stage1;
pub mod stage1_laws;
pub mod symbol_laws;
pub mod symbols;
pub mod tag_laws;
pub mod tags;
pub mod writer;

pub use error::{Error, Fault, Result};

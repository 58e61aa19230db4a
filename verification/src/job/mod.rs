//! What a run does with the files it finds: names of outputs, the handling of packages, and the
//! account of what happened.

pub mod account_laws;
pub mod driver;
pub mod driver_laws;
pub mod metadata;
pub mod metadata_laws;
pub mod naming;
pub mod naming_laws;
pub mod outcome;
pub mod package;
pub mod package_laws;
pub mod package_run;
pub mod package_run_laws;
pub mod path;
pub mod path_laws;
pub mod run;
pub mod summary;
pub mod ui;

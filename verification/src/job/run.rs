//! How a run is carried out: what is shown, how a single file is routed, and how a run starts.

use super::package;
use super::package::{is_app_package, is_elf64_aarch64};
use super::path::{PartModel, TreePath};
use super::summary::Summary;
use crate::elf::image;
use crate::metadata::structural;
use crate::metadata::structural::is_metadata;
use vstd::prelude::*;

verus! {

/// What a run shows.
#[derive(Debug, Clone, Copy, PartialEq, Eq, Structural)]
pub struct Display {
    /// No line is shown for a file.
    pub suppress_file_lines: bool,
    /// The steps of each file are shown.
    pub verbose_steps: bool,
    /// No progress bar is shown. Steps go to the console line by line and would clobber it.
    pub hide_bar: bool,
    /// A warning about files that the scan could not read is shown.
    pub scan_warning: bool,
}

/// What a run shows at a level of quietness. Quiet wins over verbose.
pub fn display(quiet: u8, verbose: bool) -> (result: Display)
    ensures
        result.suppress_file_lines == (quiet >= 1),
        result.verbose_steps == (verbose && quiet == 0),
        result.hide_bar == (quiet >= 1 || verbose),
        result.scan_warning == (quiet == 0),
{
    Display {
        suppress_file_lines: quiet >= 1,
        verbose_steps: verbose && quiet == 0,
        hide_bar: quiet >= 1 || verbose,
        scan_warning: quiet == 0,
    }
}

/// The level of quietness that a switch stands for.
pub fn quiet_level(quiet: bool) -> (level: u8)
    ensures
        level == if quiet {
            1u8
        } else {
            0
        },
{
    if quiet {
        1
    } else {
        0
    }
}

/// Whether contents have to be told apart: only where the same one can come from two sources.
pub fn needs_dedup(libraries: usize, packages: usize) -> (result: bool)
    ensures
        result == (libraries > 1 || packages > 0),
{
    libraries > 1 || packages > 0
}

/// The account with which a run over a folder starts. Files that the scan could not read are
/// errors: they may be targets that were missed.
pub fn start_folder(skipped: usize, walk_errors: usize, probe_errors: usize) -> (summary: Summary)
    requires
        walk_errors + probe_errors <= usize::MAX,
    ensures
        summary == (Summary {
            unpacked: 0,
            skipped,
            errors: (walk_errors + probe_errors) as usize,
            suspect: 0,
            metadata: 0,
            packages: 0,
            duration_ms: 0,
        }),
{
    Summary {
        unpacked: 0,
        skipped,
        errors: walk_errors + probe_errors,
        suspect: 0,
        metadata: 0,
        packages: 0,
        duration_ms: 0,
    }
}

/// What a single file is handled as.
#[derive(Debug, Clone, Copy, PartialEq, Eq, Structural)]
pub enum FileRoute {
    Metadata,
    Library,
    Package,
    Executable,
}

/// What a single file is handled as. `protected` tells whether its content is that of a protected
/// library.
pub open spec fn spec_route_file(
    path: Seq<PartModel>,
    prefix: Seq<u8>,
    protected: bool,
) -> FileRoute {
    if structural::spec_is_metadata(prefix) {
        FileRoute::Metadata
    } else if image::spec_is_aarch64_prefix(prefix) && protected {
        FileRoute::Library
    } else if package::spec_is_package_name(path) && package::spec_is_zip_prefix(prefix) {
        FileRoute::Package
    } else {
        FileRoute::Executable
    }
}

/// Routes a single file by its name, its first bytes, and whether it is a protected library.
pub fn route_file(path: &TreePath, prefix: &[u8], protected: bool) -> (route: FileRoute)
    ensures
        route == spec_route_file(path@, prefix@, protected),
{
    if is_metadata(prefix) {
        FileRoute::Metadata
    } else if is_elf64_aarch64(prefix) && protected {
        FileRoute::Library
    } else if is_app_package(path, prefix) {
        FileRoute::Package
    } else {
        FileRoute::Executable
    }
}

} // verus!

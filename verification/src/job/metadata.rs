//! Restoring a metadata file: which way is tried, and what comes of it.

use crate::bytes;
use crate::metadata::method_indices;
use crate::metadata::method_indices::{restore_method_indices_v24_1, MethodIndexError};
use crate::metadata::structural;
use crate::metadata::structural::{deobfuscate, Error as StructuralError, Report};
use vstd::prelude::*;
use vstd::string::*;

verus! {

/// Why metadata was not restored.
#[derive(Debug, Clone, Copy, PartialEq, Eq)]
pub enum MetadataError {
    /// The method indices could not be restored.
    Indices(MethodIndexError),
    /// The method tokens could not be restored.
    Tokens(StructuralError),
}

impl MetadataError {
    /// The message of the error.
    pub open spec fn text(self) -> Seq<char> {
        match self {
            MetadataError::Indices(error) => error.text(),
            MetadataError::Tokens(error) => error.text(),
        }
    }

    /// Renders the message.
    #[allow(clippy::inherent_to_string)]
    pub fn to_string(&self) -> (message: String)
        ensures
            message@ == self.text(),
    {
        match self {
            MetadataError::Indices(error) => error.to_string(),
            MetadataError::Tokens(error) => error.to_string(),
        }
    }
}

/// The version that an error says is not supported. Files of such a version are left as they are.
pub open spec fn spec_unsupported_version(error: MetadataError) -> Option<u32> {
    match error {
        MetadataError::Tokens(StructuralError::UnsupportedVersion(version)) => Some(version),
        _ => None,
    }
}

/// The version that an error says is not supported.
pub fn unsupported_version(error: &MetadataError) -> (result: Option<u32>)
    ensures
        result == spec_unsupported_version(*error),
{
    match error {
        MetadataError::Tokens(StructuralError::UnsupportedVersion(version)) => Some(*version),
        _ => None,
    }
}

/// Restored metadata.
#[derive(Debug)]
pub struct Restored {
    pub data: Vec<u8>,
    pub report: Report,
}

/// The mathematical content of [`Restored`].
pub struct RestoredModel {
    pub data: Seq<u8>,
    pub report: Report,
}

impl View for Restored {
    type V = RestoredModel;

    open spec fn view(&self) -> RestoredModel {
        RestoredModel { data: self.data@, report: self.report }
    }
}

/// What a search for the seeds of the token permutation found.
#[derive(Debug, PartialEq, Eq)]
pub struct SeedDiscovery {
    pub version: u32,
    pub seed_candidates: Vec<u32>,
}

/// Versions whose tokens are permuted with a seed.
pub open spec fn spec_seeded_version(version: u32) -> bool {
    version == 29 || version == 31 || version == 39
}

/// The seeds that are tried, in order: those that were found, or the default one. Metadata of
/// other versions, or without a method table that can be searched, is not tried.
pub open spec fn spec_seed_plan(discovery: Option<SeedDiscovery>, default_seed: u32) -> Seq<u32> {
    match discovery {
        None => Seq::empty(),
        Some(found) => if !spec_seeded_version(found.version) {
            Seq::empty()
        } else if found.seed_candidates@.len() == 0 {
            seq![default_seed]
        } else {
            found.seed_candidates@
        },
    }
}

/// Plans which seeds are tried.
pub fn seed_plan(discovery: Option<SeedDiscovery>, default_seed: u32) -> (seeds: Vec<u32>)
    ensures
        seeds@ == spec_seed_plan(discovery, default_seed),
{
    match discovery {
        None => Vec::new(),
        Some(found) => if !(found.version == 29 || found.version == 31 || found.version == 39) {
            Vec::new()
        } else if found.seed_candidates.len() == 0 {
            let mut seeds: Vec<u32> = Vec::new();
            seeds.push(default_seed);
            assert(seeds@ =~= seq![default_seed]);
            seeds
        } else {
            found.seed_candidates
        },
    }
}

/// What restoring the tokens with a seed reports.
#[derive(Debug, Clone, Copy, PartialEq, Eq, Structural)]
pub struct TokenReport {
    pub version: u32,
    pub methods: usize,
    pub changed_tokens: usize,
    pub images_with_methods: usize,
}

/// The report on tokens that were restored with a seed.
pub fn token_report(tokens: &TokenReport) -> (report: Report)
    ensures
        report == (Report {
            version: tokens.version,
            methods: tokens.methods,
            remapped: tokens.changed_tokens,
            modules: tokens.images_with_methods,
        }),
{
    Report {
        version: tokens.version,
        methods: tokens.methods,
        remapped: tokens.changed_tokens,
        modules: tokens.images_with_methods,
    }
}

/// The identifier of the module with which method indices are restored.
pub const METHOD_INDEX_MODULE: u32 = 0x0c;

/// Finds the module with which method indices are restored: the first one of its identifier.
pub fn method_index_module(command_ids: &[u32]) -> (position: Option<usize>)
    ensures
        match position {
            Some(at) => at < command_ids@.len() && command_ids@[at as int] == METHOD_INDEX_MODULE
                && forall|k: int|
                0 <= k < at ==> #[trigger] command_ids@[k] != METHOD_INDEX_MODULE,
            None => forall|k: int|
                0 <= k < command_ids@.len() ==> #[trigger] command_ids@[k] != METHOD_INDEX_MODULE,
        },
        position is Some <==> command_ids@.contains(12),
{
    let mut i: usize = 0;
    while i < command_ids.len()
        invariant
            i <= command_ids@.len(),
            forall|k: int| 0 <= k < i ==> #[trigger] command_ids@[k] != METHOD_INDEX_MODULE,
        decreases command_ids@.len() - i,
    {
        if command_ids[i] == METHOD_INDEX_MODULE {
            return Some(i);
        }
        i += 1;
    }
    None
}

/// The version that a file gives.
pub open spec fn version_of(data: Seq<u8>) -> Option<u32> {
    if data.len() < 8 {
        None
    } else {
        Some(bytes::u32_at(data, 4))
    }
}

/// Metadata of this version has its method indices restored, where the module is at hand.
pub open spec fn uses_module(data: Seq<u8>, module: Option<Seq<u8>>) -> bool {
    version_of(data) == Some(24u32) && module is Some
}

/// The first attempt that succeeded.
pub open spec fn first_success(attempts: Seq<Option<Restored>>) -> Option<RestoredModel>
    decreases attempts.len(),
{
    if attempts.len() == 0 {
        None
    } else {
        match attempts[0] {
            Some(restored) => Some(restored@),
            None => first_success(attempts.skip(1)),
        }
    }
}

/// The metadata that restoring gives, or why it fails.
pub open spec fn spec_restore_metadata(
    data: Seq<u8>,
    module: Option<Seq<u8>>,
    attempts: Seq<Option<Restored>>,
) -> Result<RestoredModel, MetadataError> {
    if uses_module(data, module) {
        match method_indices::spec_restore(data, module->0) {
            Ok((restored, report)) => Ok(
                RestoredModel {
                    data: restored,
                    report: Report {
                        version: report.version,
                        methods: report.methods,
                        remapped: report.changed_indices,
                        modules: 0,
                    },
                },
            ),
            Err(error) => Err(MetadataError::Indices(error)),
        }
    } else {
        match first_success(attempts) {
            Some(restored) => Ok(restored),
            None => match structural::spec_deobfuscate(data) {
                Ok((restored, report)) => Ok(RestoredModel { data: restored, report }),
                Err(error) => Err(MetadataError::Tokens(error)),
            },
        }
    }
}

/// A result agrees with its mathematical counterpart.
pub open spec fn restored_agrees(
    result: Result<Restored, MetadataError>,
    expected: Result<RestoredModel, MetadataError>,
) -> bool {
    match (result, expected) {
        (Ok(found), Ok(wanted)) => found@ == wanted,
        (Err(found), Err(wanted)) => found == wanted,
        _ => false,
    }
}

/// Whether metadata has its method indices restored with a module, so that no seed is tried.
pub fn restores_with_module(data: &[u8], module: Option<&[u8]>) -> (result: bool)
    ensures
        result == uses_module(
            data@,
            match module {
                Some(bytes) => Some(bytes@),
                None => None,
            },
        ),
{
    module.is_some() && data.len() >= 8 && bytes::load_u32(data, 4) == 24
}

/// Restores metadata. With the module that came with a protected library, metadata of version 24
/// has its method indices restored. Otherwise the first of the `attempts` with a seed that
/// succeeded counts; attempts are given in the order of the plan. Where none did, the structure of
/// the metadata tells its tokens.
pub fn restore_metadata_bytes_with_module(
    data: &[u8],
    module: Option<&[u8]>,
    attempts: Vec<Option<Restored>>,
) -> (result: Result<Restored, MetadataError>)
    ensures
        restored_agrees(
            result,
            spec_restore_metadata(
                data@,
                match module {
                    Some(bytes) => Some(bytes@),
                    None => None,
                },
                attempts@,
            ),
        ),
{
    if restores_with_module(data, module) {
        if let Some(module) = module {
            return match restore_method_indices_v24_1(data, module) {
                Ok((restored, report)) => Ok(
                    Restored {
                        data: restored,
                        report: Report {
                            version: report.version,
                            methods: report.methods,
                            remapped: report.changed_indices,
                            modules: 0,
                        },
                    },
                ),
                Err(error) => Err(MetadataError::Indices(error)),
            };
        }
    }
    match take_first(attempts) {
        Some(restored) => Ok(restored),
        None => match deobfuscate(data) {
            Ok((restored, report)) => Ok(Restored { data: restored, report }),
            Err(error) => Err(MetadataError::Tokens(error)),
        },
    }
}

/// Takes the first attempt that succeeded.
fn take_first(attempts: Vec<Option<Restored>>) -> (result: Option<Restored>)
    ensures
        match (result, first_success(attempts@)) {
            (Some(found), Some(wanted)) => found@ == wanted,
            (None, None) => true,
            _ => false,
        },
{
    let ghost all = attempts@;
    let mut rest = attempts;
    while rest.len() > 0
        invariant
            first_success(rest@) == first_success(all),
            all == attempts@,
        decreases rest@.len(),
    {
        let ghost before = rest@;
        let first = rest.remove(0);
        assert(before.remove(0) =~= before.skip(1));
        if let Some(restored) = first {
            return Some(restored);
        }
    }
    None
}

/// Restores metadata of which no module is at hand.
pub fn restore_metadata_bytes(data: &[u8], attempts: Vec<Option<Restored>>) -> (result: Result<
    Restored,
    MetadataError,
>)
    ensures
        restored_agrees(result, spec_restore_metadata(data@, None, attempts@)),
{
    restore_metadata_bytes_with_module(data, None, attempts)
}

} // verus!

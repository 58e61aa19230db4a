//! What files are handled as, and what is counted of them.

use super::driver;
use super::driver::{ResultModel, RunModel, Step, Targets};
use super::driver_laws;
use super::metadata;
use super::metadata::{MetadataError, Restored, RestoredModel, SeedDiscovery};
use super::naming;
use super::outcome;
use super::outcome::{
    Embedded, EntryClass, EntryKind, OutcomeModel, StatusModel,
};
use super::package;
use super::path::PartModel;
use super::run;
use super::run::FileRoute;
use super::summary;
use super::summary::{FileEvent, MetadataResult, Summary};
use crate::bytes;
use crate::elf::image;
use crate::metadata::method_indices;
use crate::metadata::structural;
use crate::text;
use vstd::prelude::*;

verus! {

/// The bytes start as metadata does: with 0xaf, 0x1b, 0xb1 and 0xfa.
pub open spec fn starts_as_metadata(data: Seq<u8>) -> bool {
    data.len() >= 4 && data[0] == 0xaf && data[1] == 0x1b && data[2] == 0xb1 && data[3] == 0xfa
}

/// An entry is a library exactly when it is a protected AArch64 image, else metadata exactly when it
/// starts so. A single file is metadata first, then a library, then a package of that name and
/// magic, and else an executable.
pub proof fn law_classes(path: Seq<PartModel>, data: Seq<u8>, protected: bool)
    ensures
        structural::spec_is_metadata(data) <==> starts_as_metadata(data),
        ({
            let class = outcome::spec_classify(data, protected);
            let is_library = image::spec_is_aarch64_prefix(data) && protected;
            &&& class == EntryClass::Library <==> is_library
            &&& class == EntryClass::Metadata <==> !is_library && starts_as_metadata(data)
        }),
        ({
            let route = run::spec_route_file(path, data, protected);
            let is_library = image::spec_is_aarch64_prefix(data) && protected;
            let is_package = package::spec_is_package_name(path) && package::spec_is_zip_prefix(
                data,
            );
            &&& route == FileRoute::Metadata <==> starts_as_metadata(data)
            &&& route == FileRoute::Library <==> !starts_as_metadata(data) && is_library
            &&& route == FileRoute::Package <==> !starts_as_metadata(data) && !is_library
                && is_package
        }),
{
}

/// An entry is left to be restored exactly when it is a target whose content is new. Any other has
/// its own label and place, and is no target or a duplicate.
pub proof fn law_settled_entries(
    label: Seq<char>,
    dest: Seq<PartModel>,
    class: EntryClass,
    is_new: bool,
)
    ensures
        ({
            let settled = outcome::spec_settle(label, dest, class, is_new);
            &&& settled is None <==> class != EntryClass::Other && is_new
            &&& settled is Some ==> {
                &&& settled->0.label == label
                &&& settled->0.dest == dest
                &&& settled->0.status == if class == EntryClass::Other {
                    StatusModel::NotTarget
                } else {
                    StatusModel::Duplicate
                }
                &&& settled->0.kind == if class == EntryClass::Metadata {
                    EntryKind::Metadata { remapped: 0 }
                } else {
                    EntryKind::So
                }
            }
        }),
{
}

/// A library that could not be restored has one failed outcome. One that was has a restored one and,
/// where metadata was found within it, one for that, with its own label and place.
pub proof fn law_outcomes_of_libraries(
    label: Seq<char>,
    dest: Seq<PartModel>,
    restored: Result<Embedded, String>,
)
    ensures
        ({
            let outcomes = outcome::spec_library_outcomes(label, dest, restored);
            let found = restored is Ok && restored->Ok_0 !is Absent;
            &&& outcomes.len() == if found {
                2int
            } else {
                1
            }
            &&& outcomes[0].label == label
            &&& outcomes[0].dest == dest
            &&& outcomes[0].kind == EntryKind::So
            &&& restored is Ok ==> outcomes[0].status == StatusModel::Restored
            &&& restored is Err ==> outcomes[0].status == StatusModel::Failed(restored->Err_0@)
            &&& found ==> {
                &&& outcomes[1].label == label + " (embedded metadata)"@
                &&& outcomes[1].dest == naming::spec_embedded_metadata_dest(dest)
                &&& outcomes[1].kind == EntryKind::EmbeddedMetadata
                &&& restored->Ok_0 is Written ==> outcomes[1].status == StatusModel::Restored
                &&& restored->Ok_0 is Failed ==> outcomes[1].status == StatusModel::Failed(
                    restored->Ok_0->Failed_0@,
                )
            }
        }),
{
}

/// Metadata is restored where a field changed and writing went well, unchanged where none did, and
/// failed otherwise, with the message of what failed.
pub proof fn law_outcomes_of_metadata(
    restored: Result<Restored, MetadataError>,
    written: Result<(), String>,
)
    ensures
        ({
            let (kind, status) = outcome::spec_metadata_status(restored, written);
            let changed = restored is Ok && restored->Ok_0.report.remapped != 0;
            &&& kind == EntryKind::Metadata {
                remapped: if changed {
                    restored->Ok_0.report.remapped
                } else {
                    0
                },
            }
            &&& status is Restored <==> changed && written is Ok
            &&& status is Unchanged <==> restored is Ok && !changed
            &&& status is Failed <==> restored is Err || changed && written is Err
            &&& restored is Err ==> status == StatusModel::Failed(restored->Err_0.text())
            &&& changed && written is Err ==> status == StatusModel::Failed(written->Err_0@)
        }),
{
}

/// One more, if so.
pub open spec fn one_if(so: bool) -> int {
    if so {
        1
    } else {
        0
    }
}

/// Each count grows by one with the events that it counts, and with no other.
pub proof fn law_counts_of_events(summary: Summary, event: FileEvent)
    requires
        summary.has_room(1),
    ensures
        ({
            let after = summary.after(event);
            &&& after.unpacked == summary.unpacked + one_if(event is Unpacked)
            &&& after.suspect == summary.suspect + one_if(
                event is Unpacked && event->Unpacked_suspect,
            )
            &&& after.skipped == summary.skipped + one_if(event is Skipped)
            &&& after.errors == summary.errors + one_if(event is Failed)
            &&& after.metadata == summary.metadata + one_if(event is MetadataRestored)
            &&& after.packages == summary.packages + one_if(event is PackageOpened)
            &&& after.duration_ms == summary.duration_ms
        }),
{
}

/// A restored library counts as unpacked, restored metadata as metadata, a failure as an error, and
/// everything else as skipped.
pub proof fn law_counts_of_outcomes(summary: Summary, outcomes: Seq<OutcomeModel>, last: OutcomeModel)
    requires
        summary.after_outcomes(outcomes).has_room(1),
    ensures
        ({
            let before = summary.after_outcomes(outcomes);
            let after = summary.after_outcomes(outcomes.push(last));
            let restored = last.status is Restored;
            let failed = last.status is Failed;
            &&& summary.after_outcomes(Seq::empty()) == summary
            &&& after.unpacked == before.unpacked + one_if(restored && last.kind is So)
            &&& after.metadata == before.metadata + one_if(restored && last.kind !is So)
            &&& after.errors == before.errors + one_if(failed)
            &&& after.skipped == before.skipped + one_if(!restored && !failed)
            &&& after.suspect == before.suspect
            &&& after.packages == before.packages
        }),
{
    assert(outcomes.push(last).drop_last() =~= outcomes);
}

/// A metadata file counts as restored where a field changed, is left uncounted where none did, is
/// skipped where a folder has a version that is not known, and counts as an error otherwise.
pub proof fn law_counts_of_metadata(result: MetadataResult, in_folder: bool)
    ensures
        ({
            let event = summary::spec_metadata_event(result, in_folder);
            let unknown = result is Refused && result->Refused_0 is Tokens
                && result->Refused_0->Tokens_0 is UnsupportedVersion;
            &&& event is MetadataRestored <==> result is Done && result->Done_remapped != 0
            &&& event is MetadataClean <==> result is Done && result->Done_remapped == 0
            &&& event is Skipped <==> unknown && in_folder
            &&& event is Failed <==> result is Unavailable || result is Refused && !(unknown
                && in_folder)
        }),
{
}

/// The line of an account names each count, and packages only where there are some.
pub proof fn law_line_of_an_account(summary: Summary)
    ensures
        ({
            let counts = text::decimal(summary.unpacked as nat) + " unpacked · "@ + text::decimal(
                summary.skipped as nat,
            ) + " skipped · "@ + text::decimal(summary.errors as nat) + " errors · "@
                + text::decimal(summary.suspect as nat) + " suspect · "@ + text::decimal(
                summary.metadata as nat,
            ) + " metadata"@;
            &&& counts.is_prefix_of(summary.text())
            &&& summary.packages == 0 ==> summary.text() == counts
            &&& summary.packages != 0 ==> summary.text() == counts + " · "@ + text::decimal(
                summary.packages as nat,
            ) + " packages"@
        }),
{
    let counts = text::decimal(summary.unpacked as nat) + " unpacked · "@ + text::decimal(
        summary.skipped as nat,
    ) + " skipped · "@ + text::decimal(summary.errors as nat) + " errors · "@ + text::decimal(
        summary.suspect as nat,
    ) + " suspect · "@ + text::decimal(summary.metadata as nat) + " metadata"@;
    assert(summary.text().subrange(0, counts.len() as int) =~= counts);
}

/// Seeds are tried for versions 29, 31 and 39 alone: those that were found, in order, or the default
/// one where none was.
pub proof fn law_seeds_to_try(found: SeedDiscovery, default_seed: u32)
    ensures
        ({
            let plan = metadata::spec_seed_plan(Some(found), default_seed);
            let known = found.version == 29 || found.version == 31 || found.version == 39;
            &&& metadata::spec_seed_plan(None, default_seed).len() == 0
            &&& plan.len() > 0 <==> known
            &&& known && found.seed_candidates@.len() > 0 ==> plan == found.seed_candidates@
            &&& known && found.seed_candidates@.len() == 0 ==> plan.len() == 1 && plan[0]
                == default_seed
        }),
{
}

/// The first of several attempts that succeeded counts, and none does only where none succeeded.
pub proof fn law_first_attempt_counts(attempts: Seq<Option<Restored>>, i: int)
    requires
        0 <= i < attempts.len(),
        attempts[i] is Some,
        forall|k: int| 0 <= k < i ==> #[trigger] attempts[k] is None,
    ensures
        metadata::first_success(attempts) == Some(attempts[i]->0@),
    decreases i,
{
    if i > 0 {
        let rest = attempts.skip(1);
        assert(attempts[0] is None);
        assert(rest[i - 1] == attempts[i]);
        assert forall|k: int| 0 <= k < i - 1 implies #[trigger] rest[k] is None by {
            assert(rest[k] == attempts[k + 1]);
        }
        law_first_attempt_counts(rest, i - 1);
    }
}

/// Where no attempt succeeded, there is none that counts.
pub proof fn law_no_attempt_counts(attempts: Seq<Option<Restored>>)
    requires
        forall|k: int| 0 <= k < attempts.len() ==> #[trigger] attempts[k] is None,
    ensures
        metadata::first_success(attempts) is None,
    decreases attempts.len(),
{
    if attempts.len() > 0 {
        let rest = attempts.skip(1);
        assert(attempts[0] is None);
        assert forall|k: int| 0 <= k < rest.len() implies #[trigger] rest[k] is None by {
            assert(rest[k] == attempts[k + 1]);
        }
        law_no_attempt_counts(rest);
    }
}

/// Metadata of version 24 has its method indices restored where the module is at hand. Any other is
/// what the first attempt with a seed gives, or else what its structure tells.
pub proof fn law_ways_to_restore(
    data: Seq<u8>,
    module: Option<Seq<u8>>,
    attempts: Seq<Option<Restored>>,
)
    ensures
        ({
            let result = metadata::spec_restore_metadata(data, module, attempts);
            let with_module = module is Some && data.len() >= 8 && bytes::u32_at(data, 4) == 24;
            let indices = method_indices::spec_restore(data, module->0);
            let tokens = structural::spec_deobfuscate(data);
            let first = metadata::first_success(attempts);
            &&& with_module ==> {
                &&& result is Ok <==> indices is Ok
                &&& result is Ok ==> result->Ok_0.data == indices->Ok_0.0
                &&& result is Ok ==> result->Ok_0.report.remapped == indices->Ok_0.1.changed_indices
                &&& result is Ok ==> result->Ok_0.report.methods == indices->Ok_0.1.methods
                &&& result is Ok ==> result->Ok_0.report.version == indices->Ok_0.1.version
                &&& result is Ok ==> result->Ok_0.report.modules == 0
                &&& result is Err ==> result->Err_0 == MetadataError::Indices(indices->Err_0)
            }
            &&& !with_module && first is Some ==> result == Ok::<RestoredModel, MetadataError>(
                first->0,
            )
            &&& !with_module && first is None ==> {
                &&& result is Ok <==> tokens is Ok
                &&& result is Ok ==> result->Ok_0.data == tokens->Ok_0.0
                &&& result is Ok ==> result->Ok_0.report == tokens->Ok_0.1
                &&& result is Err ==> result->Err_0 == MetadataError::Tokens(tokens->Err_0)
            }
        }),
{
}

/// A run starts with its first file, and a library is identified first exactly where the run has
/// another library or a package. A run over one file has that file.
pub proof fn law_first_steps(targets: Targets, route: FileRoute, i: int)
    ensures
        ({
            let first = targets.from_executable(0);
            let single = driver::spec_single_target(route);
            &&& driver_laws::number(targets, first) == 0
            &&& targets.has(first)
            &&& 0 <= i < targets.libraries ==> {
                let step = targets.from_library(i);
                &&& step is Identify <==> targets.libraries + targets.packages >= 2
                &&& step is RestoreLibrary <==> targets.libraries + targets.packages < 2
            }
            &&& driver_laws::file_count(single) == 1
            &&& single.from_executable(0) == match route {
                FileRoute::Executable => Step::Unpack(0),
                FileRoute::Library => Step::RestoreLibrary(0),
                FileRoute::Package => Step::RestorePackage(0),
                FileRoute::Metadata => Step::RestoreMetadata(0),
            }
        }),
{
}

/// A step takes its own kind of result alone: each file can fail but for one that is identified and
/// for metadata, whose own results tell that.
pub proof fn law_expected_results(run: RunModel, result: ResultModel)
    ensures
        run.expects(result) <==> match result {
            ResultModel::Failed => run.step is Unpack || run.step is RestoreLibrary
                || run.step is RestorePackage,
            ResultModel::Unpacked { .. } => run.step is Unpack,
            ResultModel::Identified(_) => run.step is Identify,
            ResultModel::Library { .. } => run.step is RestoreLibrary,
            ResultModel::Package { .. } => run.step is RestorePackage,
            ResultModel::PackageFailed { .. } => run.step is RestorePackage,
            ResultModel::Metadata(_) => run.step is RestoreMetadata,
        },
{
}

/// Contents that were lent to a package that failed are lost, and no other failure loses any.
pub proof fn law_lost_contents(run: RunModel, content: Seq<char>)
    requires
        run.expects(ResultModel::Failed),
    ensures
        run.after(ResultModel::Failed).seen.contains(content) <==> run.seen.contains(content)
            && !(run.step is RestorePackage),
{
}

/// Each result counts what it says: an executable as unpacked and perhaps suspect, a library as
/// unpacked and its metadata as restored or failed, a package as opened with what became of its
/// entries, and a package that failed as opened and failed.
pub proof fn law_results_are_counted(run: RunModel, result: ResultModel)
    requires
        run.is_valid(),
        run.expects(result),
        run.summary.has_room(2),
    ensures
        ({
            let before = run.summary;
            let after = run.after(result).summary;
            &&& run.step is Unpack && result is Unpacked ==> after == before.after(
                FileEvent::Unpacked { suspect: result->Unpacked_suspect },
            )
            &&& run.step is RestoreLibrary && result is Library ==> {
                let found = result->Library_embedded;
                &&& after.unpacked == before.unpacked + 1
                &&& after.suspect == before.suspect
                &&& after.metadata == before.metadata + one_if(found is Some && found->0)
                &&& after.errors == before.errors + one_if(found is Some && !found->0)
                &&& after.skipped == before.skipped
                &&& after.packages == before.packages
            }
            &&& run.step is RestorePackage ==> {
                let opened = before.after(FileEvent::PackageOpened);
                &&& result is Package ==> after == opened.after_outcomes(result->Package_outcomes)
                &&& result is Package ==> run.after(result).seen == result->Package_seen
                &&& result is PackageFailed ==> after == opened.after(FileEvent::Failed)
                &&& result is PackageFailed ==> run.after(result).seen == result->PackageFailed_seen
            }
            &&& run.step is RestoreMetadata ==> after == before.after(
                summary::spec_metadata_event(result->Metadata_0, run.in_folder),
            )
            &&& result == ResultModel::Identified(None) ==> {
                &&& run.after(result).step == Step::RestoreLibrary(run.step->Identify_0)
                &&& after == before
                &&& run.after(result).seen == run.seen
            }
            &&& result is Unpacked || result is Library || result is Metadata ==> run.after(
                result,
            ).seen == run.seen
        }),
{
}

} // verus!

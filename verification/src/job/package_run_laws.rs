//! What holds of the handling of every package's entries.

use super::metadata::{MetadataError, Restored};
use super::naming;
use super::outcome;
use super::outcome::{Embedded, EntryClass, StatusModel};
use super::package_run;
use super::package_run::PackageRunModel;
use super::path;
use vstd::prelude::*;

verus! {

/// Looking at an entry either begins it and changes nothing else, or settles it with one outcome
/// of its own and goes on to the next entry.
pub proof fn law_each_entry_is_begun_or_settled(
    run: PackageRunModel,
    data: Seq<u8>,
    protected: bool,
    seen: Set<Seq<char>>,
)
    requires
        run.is_valid(),
        run.position < run.targets.len(),
    ensures
        ({
            let after = run.begun(data, protected, seen);
            &&& after.is_valid()
            &&& after.module == run.module
            &&& after.work != EntryClass::Other ==> after == PackageRunModel {
                work: after.work,
                ..run
            }
            &&& after.work == EntryClass::Other ==> {
                &&& after.position == run.position + 1
                &&& after.outcomes.len() == run.outcomes.len() + 1
                &&& after.outcomes.drop_last() == run.outcomes
                &&& after.outcomes.last().label == run.entry_label()
                &&& after.outcomes.last().dest == run.entry_dest()
            }
        }),
{
    let after = run.begun(data, protected, seen);
    if after.work == EntryClass::Other {
        assert(after.outcomes.drop_last() =~= run.outcomes);
    }
}

/// An entry is begun exactly if it is a target whose content was not restored before; a target
/// whose content was is settled as a duplicate.
pub proof fn law_contents_are_restored_once(
    run: PackageRunModel,
    data: Seq<u8>,
    protected: bool,
    seen: Set<Seq<char>>,
)
    requires
        run.is_valid(),
        run.position < run.targets.len(),
    ensures
        ({
            let class = outcome::spec_classify(data, protected);
            let known = seen.contains(package_run::identity(data));
            let after = run.begun(data, protected, seen);
            &&& after.work == if known {
                EntryClass::Other
            } else {
                class
            }
            &&& class != EntryClass::Other && known ==> after.outcomes.last().status
                == StatusModel::Duplicate
            &&& class == EntryClass::Other ==> after.outcomes.last().status
                == StatusModel::NotTarget
        }),
{
}

/// A library adds its own outcome, and one more where metadata was found within it.
pub proof fn law_libraries_add_their_outcomes(
    run: PackageRunModel,
    restored: Result<Embedded, String>,
    module: Option<Seq<u8>>,
)
    requires
        run.is_valid(),
        run.work == EntryClass::Library,
    ensures
        ({
            let after = run.after_library(restored, module);
            let own = after.outcomes[run.outcomes.len() as int];
            &&& after.is_valid()
            &&& after.work == EntryClass::Other
            &&& after.position == run.position + 1
            &&& after.outcomes.len() == run.outcomes.len() + if restored is Ok
                && restored->Ok_0 !is Absent {
                2int
            } else {
                1
            }
            &&& after.outcomes.take(run.outcomes.len() as int) == run.outcomes
            &&& own.label == run.entry_label()
            &&& own.dest == run.entry_dest()
            &&& own.status is Restored <==> restored is Ok
        }),
{
    let after = run.after_library(restored, module);
    assert(after.outcomes.take(run.outcomes.len() as int) =~= run.outcomes);
}

/// The module that a library brought is at hand for the metadata that comes behind it: it is kept
/// until another library brings one.
pub proof fn law_modules_reach_metadata(
    run: PackageRunModel,
    library: Result<Embedded, String>,
    module: Option<Seq<u8>>,
    metadata: Result<Restored, MetadataError>,
    written: Result<(), String>,
)
    requires
        run.is_valid(),
    ensures
        library is Ok && module is Some ==> run.after_library(library, module).module == module,
        library is Err || module is None ==> run.after_library(library, module).module
            == run.module,
        run.after_metadata(metadata, written).module == run.module,
{
}

/// Metadata adds one outcome, which names the entry and tells what became of it, and the run goes on
/// to the next entry.
pub proof fn law_metadata_adds_its_outcome(
    run: PackageRunModel,
    restored: Result<Restored, MetadataError>,
    written: Result<(), String>,
)
    requires
        run.is_valid(),
        run.work == EntryClass::Metadata,
    ensures
        ({
            let after = run.after_metadata(restored, written);
            let own = after.outcomes.last();
            &&& after.is_valid()
            &&& after.work == EntryClass::Other
            &&& after.position == run.position + 1
            &&& after.targets == run.targets
            &&& after.outcomes.len() == run.outcomes.len() + 1
            &&& after.outcomes.drop_last() == run.outcomes
            &&& own.label == run.entry_label()
            &&& own.dest == run.entry_dest()
            &&& (own.kind, own.status) == outcome::spec_metadata_status(restored, written)
        }),
{
    let after = run.after_metadata(restored, written);
    assert(after.outcomes.drop_last() =~= run.outcomes);
}

/// An entry is shown under its package and its own name, with two colons between them, and its
/// output goes below the root and the package's own place, under the name of an output.
pub proof fn law_places_of_entries(run: PackageRunModel)
    ensures
        ({
            let target = run.targets[run.position];
            let (label, name) = (run.label, target.name.text);
            &&& run.entry_label().len() == label.len() + 2 + name.len()
            &&& run.entry_label() == label + seq![':', ':'] + name
            &&& run.entry_dest() == path::spec_join(
                path::spec_join(run.out_root, run.base),
                naming::spec_out_name(target.name.path),
            )
        }),
{
    reveal_strlit("::");
    assert("::"@ =~= seq![':', ':']);
}

} // verus!

//! What happened to the entries of a package.

use super::metadata::{MetadataError, Restored};
use super::naming;
use super::naming::embedded_metadata_dest;
use super::package::is_elf64_aarch64;
use super::path::{PartModel, TreePath};
use crate::elf::image;
use crate::metadata::structural;
use crate::metadata::structural::is_metadata;
use vstd::prelude::*;
use vstd::string::*;

verus! {

/// What an entry is.
#[derive(Debug, Clone, Copy, PartialEq, Eq, Structural)]
pub enum EntryKind {
    /// A protected shared library.
    So,
    /// Metadata of which so many method fields changed.
    Metadata { remapped: usize },
    /// Metadata from within a restored library.
    EmbeddedMetadata,
}

/// What became of an entry.
#[derive(Debug, PartialEq, Eq)]
pub enum EntryStatus {
    Restored,
    /// The same content was already restored from a source that comes first; nothing was written.
    Duplicate,
    /// Neither a protected library nor metadata.
    NotTarget,
    /// Metadata that needed no change; nothing was written.
    Unchanged,
    /// The entry was to be restored, and that failed with this message.
    Failed(String),
}

/// The mathematical content of an [`EntryStatus`].
pub enum StatusModel {
    Restored,
    Duplicate,
    NotTarget,
    Unchanged,
    Failed(Seq<char>),
}

impl View for EntryStatus {
    type V = StatusModel;

    open spec fn view(&self) -> StatusModel {
        match self {
            EntryStatus::Restored => StatusModel::Restored,
            EntryStatus::Duplicate => StatusModel::Duplicate,
            EntryStatus::NotTarget => StatusModel::NotTarget,
            EntryStatus::Unchanged => StatusModel::Unchanged,
            EntryStatus::Failed(message) => StatusModel::Failed(message@),
        }
    }
}

/// What happened to one entry.
#[derive(Debug, PartialEq, Eq)]
pub struct EntryOutcome {
    /// The source, such as `base.apk::lib/arm64-v8a/libil2cpp.so`.
    pub label: String,
    /// Where the restored bytes were written, if they were.
    pub dest: TreePath,
    pub kind: EntryKind,
    pub status: EntryStatus,
}

/// The mathematical content of an [`EntryOutcome`].
pub struct OutcomeModel {
    pub label: Seq<char>,
    pub dest: Seq<PartModel>,
    pub kind: EntryKind,
    pub status: StatusModel,
}

impl View for EntryOutcome {
    type V = OutcomeModel;

    open spec fn view(&self) -> OutcomeModel {
        OutcomeModel {
            label: self.label@,
            dest: self.dest@,
            kind: self.kind,
            status: self.status@,
        }
    }
}

/// The contents of a list of outcomes.
pub open spec fn outcome_models(outcomes: Seq<EntryOutcome>) -> Seq<OutcomeModel> {
    Seq::new(outcomes.len(), |i: int| outcomes[i]@)
}

/// The contents that were already restored in a run.
pub struct SeenContents {
    identities: Vec<String>,
}

impl View for SeenContents {
    type V = Set<Seq<char>>;

    closed spec fn view(&self) -> Set<Seq<char>> {
        Set::new(
            |identity: Seq<char>|
                exists|i: int|
                    0 <= i < self.identities@.len() && #[trigger] self.identities@[i]@ == identity,
        )
    }
}

impl SeenContents {
    /// Nothing was restored yet.
    pub fn new() -> (seen: SeenContents)
        ensures
            seen@ == Set::<Seq<char>>::empty(),
    {
        let seen = SeenContents { identities: Vec::new() };
        assert(seen@ =~= Set::<Seq<char>>::empty());
        seen
    }

    /// Takes note of a content. Returns whether it is new.
    pub fn insert(&mut self, identity: String) -> (is_new: bool)
        ensures
            is_new == !old(self)@.contains(identity@),
            final(self)@ == old(self)@.insert(identity@),
    {
        let ghost before = self.identities@;
        let mut i: usize = 0;
        while i < self.identities.len()
            invariant
                i <= self.identities@.len(),
                self.identities@ == before,
                *self == *old(self),
                forall|k: int| 0 <= k < i ==> (#[trigger] before[k])@ != identity@,
            decreases self.identities@.len() - i,
        {
            if self.identities[i] == identity {
                assert(before[i as int]@ == identity@);
                assert(self@.contains(identity@));
                assert(self@.insert(identity@) =~= self@);
                return false;
            }
            i += 1;
        }
        assert(!old(self)@.contains(identity@));
        let ghost text = identity@;
        self.identities.push(identity);
        proof {
            let after = self.identities@;
            assert(after[before.len() as int]@ == text);
            assert forall|other: Seq<char>|
                self@.contains(other) <==> old(self)@.insert(text).contains(other) by {
                if old(self)@.contains(other) {
                    let k = choose|k: int|
                        0 <= k < before.len() && #[trigger] before[k]@ == other;
                    assert(after[k]@ == other);
                }
                if self@.contains(other) {
                    let k = choose|k: int| 0 <= k < after.len() && #[trigger] after[k]@ == other;
                    if k < before.len() {
                        assert(before[k]@ == other);
                    }
                }
            }
            assert(self@ =~= old(self)@.insert(text));
        }
        true
    }
}

/// What an entry turns out to be.
#[derive(Debug, Clone, Copy, PartialEq, Eq, Structural)]
pub enum EntryClass {
    Library,
    Metadata,
    Other,
}

/// What an entry turns out to be. `protected` tells whether its content is that of a protected
/// library.
pub open spec fn spec_classify(data: Seq<u8>, protected: bool) -> EntryClass {
    if image::spec_is_aarch64_prefix(data) && protected {
        EntryClass::Library
    } else if structural::spec_is_metadata(data) {
        EntryClass::Metadata
    } else {
        EntryClass::Other
    }
}

/// Tells what an entry is.
pub fn classify(data: &[u8], protected: bool) -> (class: EntryClass)
    ensures
        class == spec_classify(data@, protected),
{
    if is_elf64_aarch64(data) && protected {
        EntryClass::Library
    } else if is_metadata(data) {
        EntryClass::Metadata
    } else {
        EntryClass::Other
    }
}

/// The outcome of an entry that is not restored: it is no target, or its content was seen before.
pub open spec fn spec_settle(
    label: Seq<char>,
    dest: Seq<PartModel>,
    class: EntryClass,
    is_new: bool,
) -> Option<OutcomeModel> {
    match class {
        EntryClass::Other => Some(
            OutcomeModel { label, dest, kind: EntryKind::So, status: StatusModel::NotTarget },
        ),
        EntryClass::Library => if is_new {
            None
        } else {
            Some(OutcomeModel { label, dest, kind: EntryKind::So, status: StatusModel::Duplicate })
        },
        EntryClass::Metadata => if is_new {
            None
        } else {
            Some(
                OutcomeModel {
                    label,
                    dest,
                    kind: EntryKind::Metadata { remapped: 0 },
                    status: StatusModel::Duplicate,
                },
            )
        },
    }
}

/// Settles an entry that is not restored, and takes note of the content of one that is.
pub fn settle_entry(
    label: &str,
    dest: &TreePath,
    class: EntryClass,
    identity: String,
    seen: &mut SeenContents,
) -> (outcome: Option<EntryOutcome>)
    ensures
        match (
            outcome,
            spec_settle(label@, dest@, class, !old(seen)@.contains(identity@)),
        ) {
            (Some(found), Some(wanted)) => found@ == wanted,
            (None, None) => true,
            _ => false,
        },
        final(seen)@ == if class == EntryClass::Other {
            old(seen)@
        } else {
            old(seen)@.insert(identity@)
        },
{
    let kind = match class {
        EntryClass::Other => {
            return Some(
                EntryOutcome {
                    label: String::from_str(label),
                    dest: dest.copied(),
                    kind: EntryKind::So,
                    status: EntryStatus::NotTarget,
                },
            );
        },
        EntryClass::Library => EntryKind::So,
        EntryClass::Metadata => EntryKind::Metadata { remapped: 0 },
    };
    if seen.insert(identity) {
        None
    } else {
        Some(
            EntryOutcome {
                label: String::from_str(label),
                dest: dest.copied(),
                kind,
                status: EntryStatus::Duplicate,
            },
        )
    }
}

/// What restoring a library brought: whether metadata was found within it, and what became of
/// writing that.
#[derive(Debug, PartialEq, Eq)]
pub enum Embedded {
    Absent,
    Written,
    Failed(String),
}

/// The outcome of metadata from within a library.
pub open spec fn spec_embedded_outcome(
    label: Seq<char>,
    dest: Seq<PartModel>,
    status: StatusModel,
) -> OutcomeModel {
    OutcomeModel {
        label: label + " (embedded metadata)"@,
        dest: naming::spec_embedded_metadata_dest(dest),
        kind: EntryKind::EmbeddedMetadata,
        status,
    }
}

/// The outcomes of an entry that is a library: that of the library, and that of metadata within
/// it.
pub open spec fn spec_library_outcomes(
    label: Seq<char>,
    dest: Seq<PartModel>,
    restored: Result<Embedded, String>,
) -> Seq<OutcomeModel> {
    let own = OutcomeModel { label, dest, kind: EntryKind::So, status: StatusModel::Restored };
    match restored {
        Err(message) => seq![OutcomeModel { status: StatusModel::Failed(message@), ..own }],
        Ok(Embedded::Absent) => seq![own],
        Ok(Embedded::Written) => seq![
            own,
            spec_embedded_outcome(label, dest, StatusModel::Restored),
        ],
        Ok(Embedded::Failed(message)) => seq![
            own,
            spec_embedded_outcome(label, dest, StatusModel::Failed(message@)),
        ],
    }
}

/// The outcomes of an entry that is a library.
pub fn library_outcomes(label: &str, dest: &TreePath, restored: Result<Embedded, String>) -> (outcomes:
    Vec<EntryOutcome>)
    ensures
        outcome_models(outcomes@) == spec_library_outcomes(label@, dest@, restored),
{
    let ghost wanted = spec_library_outcomes(label@, dest@, restored);
    let mut outcomes: Vec<EntryOutcome> = Vec::new();
    let (status, embedded) = match restored {
        Err(message) => (EntryStatus::Failed(message), None),
        Ok(Embedded::Absent) => (EntryStatus::Restored, None),
        Ok(Embedded::Written) => (EntryStatus::Restored, Some(EntryStatus::Restored)),
        Ok(Embedded::Failed(message)) => (
            EntryStatus::Restored,
            Some(EntryStatus::Failed(message)),
        ),
    };
    outcomes.push(
        EntryOutcome {
            label: String::from_str(label),
            dest: dest.copied(),
            kind: EntryKind::So,
            status,
        },
    );
    if let Some(status) = embedded {
        let mut embedded_label = String::from_str(label);
        embedded_label.append(" (embedded metadata)");
        outcomes.push(
            EntryOutcome {
                label: embedded_label,
                dest: embedded_metadata_dest(dest),
                kind: EntryKind::EmbeddedMetadata,
                status,
            },
        );
    }
    assert(outcome_models(outcomes@) =~= wanted);
    outcomes
}

/// Restored metadata is written: some method field changed.
pub fn needs_write(restored: &Result<Restored, MetadataError>) -> (result: bool)
    ensures
        result == (restored matches Ok(found) && found.report.remapped > 0),
{
    match restored {
        Ok(found) => found.report.remapped > 0,
        Err(_) => false,
    }
}

/// The kind and status of an entry that is metadata. `written` tells how writing went, where it
/// was due.
pub open spec fn spec_metadata_status(
    restored: Result<Restored, MetadataError>,
    written: Result<(), String>,
) -> (EntryKind, StatusModel) {
    match restored {
        Ok(found) => if found.report.remapped > 0 {
            (
                EntryKind::Metadata { remapped: found.report.remapped },
                match written {
                    Ok(()) => StatusModel::Restored,
                    Err(message) => StatusModel::Failed(message@),
                },
            )
        } else {
            (EntryKind::Metadata { remapped: 0 }, StatusModel::Unchanged)
        },
        Err(error) => (EntryKind::Metadata { remapped: 0 }, StatusModel::Failed(error.text())),
    }
}

/// The outcome of an entry that is metadata.
pub fn metadata_outcome(
    label: &str,
    dest: &TreePath,
    restored: &Result<Restored, MetadataError>,
    written: Result<(), String>,
) -> (outcome: EntryOutcome)
    ensures
        ({
            let (kind, status) = spec_metadata_status(*restored, written);
            outcome@ == OutcomeModel { label: label@, dest: dest@, kind, status }
        }),
{
    let (kind, status) = match restored {
        Ok(found) => if found.report.remapped > 0 {
            (
                EntryKind::Metadata { remapped: found.report.remapped },
                match written {
                    Ok(()) => EntryStatus::Restored,
                    Err(message) => EntryStatus::Failed(message),
                },
            )
        } else {
            (EntryKind::Metadata { remapped: 0 }, EntryStatus::Unchanged)
        },
        Err(error) => (EntryKind::Metadata { remapped: 0 }, EntryStatus::Failed(error.to_string())),
    };
    EntryOutcome { label: String::from_str(label), dest: dest.copied(), kind, status }
}

/// What the entries of one package share: the module that a restored library brought, with which
/// metadata can be restored.
#[derive(Debug)]
pub struct PackageRestoreContext {
    pub method_index_module: Option<Vec<u8>>,
    pub verbose: bool,
}

impl PackageRestoreContext {
    /// No library was restored yet.
    pub fn new(verbose: bool) -> (context: PackageRestoreContext)
        ensures
            context.method_index_module is None,
            context.verbose == verbose,
    {
        PackageRestoreContext { method_index_module: None, verbose }
    }

    /// Takes note of what a restored library brought. A library without the module leaves what
    /// another one brought.
    pub fn remember(&mut self, module: Option<Vec<u8>>)
        ensures
            final(self).verbose == old(self).verbose,
            final(self).method_index_module == if module is Some {
                module
            } else {
                old(self).method_index_module
            },
    {
        if module.is_some() {
            self.method_index_module = module;
        }
    }
}

} // verus!

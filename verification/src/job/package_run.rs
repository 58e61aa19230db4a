//! The course of one package: which entry comes next, and what its result changes.

use super::metadata::{MetadataError, Restored};
use super::outcome;
use super::outcome::{
    classify, library_outcomes, metadata_outcome, settle_entry, Embedded, EntryClass, EntryOutcome,
    OutcomeModel, PackageRestoreContext, SeenContents,
};
use super::package;
use super::package::{content_identity, entry_dest, entry_label, PackageTarget, TargetModel};
use super::path::{PartModel, TreePath};
use crate::digest;
use crate::text;
use vstd::prelude::*;
use vstd::string::*;

verus! {

/// The entry that comes next: its place in the archive, its label, and where its output goes.
#[derive(Debug, PartialEq, Eq)]
pub struct EntryPlace {
    pub index: usize,
    pub label: String,
    pub dest: TreePath,
}

/// A package whose entries are handled one after the other.
pub struct PackageRun {
    out_root: TreePath,
    label: String,
    base: TreePath,
    targets: Vec<PackageTarget>,
    position: usize,
    work: EntryClass,
    context: PackageRestoreContext,
    outcomes: Vec<EntryOutcome>,
}

/// The mathematical content of a [`PackageRun`].
#[verifier::ext_equal]
pub struct PackageRunModel {
    pub out_root: Seq<PartModel>,
    pub label: Seq<char>,
    pub base: Seq<PartModel>,
    pub targets: Seq<TargetModel>,
    pub position: int,
    /// What the entry that was begun is restored as. No entry was begun where it is neither.
    pub work: EntryClass,
    /// The module that a restored library of this package brought.
    pub module: Option<Seq<u8>>,
    pub verbose: bool,
    pub outcomes: Seq<OutcomeModel>,
}

/// The bytes of a module, if there is one.
pub open spec fn module_bytes(module: Option<Vec<u8>>) -> Option<Seq<u8>> {
    match module {
        Some(bytes) => Some(bytes@),
        None => None,
    }
}

impl View for PackageRun {
    type V = PackageRunModel;

    closed spec fn view(&self) -> PackageRunModel {
        PackageRunModel {
            out_root: self.out_root@,
            label: self.label@,
            base: self.base@,
            targets: package::targets(self.targets@),
            position: self.position as int,
            work: self.work,
            module: module_bytes(self.context.method_index_module),
            verbose: self.context.verbose,
            outcomes: outcome::outcome_models(self.outcomes@),
        }
    }
}

impl PackageRunModel {
    /// The run has not left its entries, and has begun one only where there is one.
    pub open spec fn is_valid(self) -> bool {
        &&& 0 <= self.position <= self.targets.len()
        &&& self.work != EntryClass::Other ==> self.position < self.targets.len()
    }

    /// The label of the entry that comes next.
    pub open spec fn entry_label(self) -> Seq<char> {
        package::spec_entry_label(self.label, self.targets[self.position].name.text)
    }

    /// Where the output of the entry that comes next goes.
    pub open spec fn entry_dest(self) -> Seq<PartModel> {
        package::spec_entry_dest(self.out_root, self.base, self.targets[self.position].name.path)
    }

    /// The run after an entry with these outcomes.
    pub open spec fn settled(self, outcomes: Seq<OutcomeModel>) -> PackageRunModel {
        PackageRunModel {
            position: self.position + 1,
            work: EntryClass::Other,
            outcomes: self.outcomes + outcomes,
            ..self
        }
    }

    /// The run after the content of the next entry was looked at. An entry that is no target, or
    /// whose content was restored before, is settled; any other is begun.
    pub open spec fn begun(self, data: Seq<u8>, protected: bool, seen: Set<Seq<char>>) -> Self {
        let class = outcome::spec_classify(data, protected);
        match outcome::spec_settle(
            self.entry_label(),
            self.entry_dest(),
            class,
            !seen.contains(identity(data)),
        ) {
            Some(outcome) => self.settled(seq![outcome]),
            None => PackageRunModel { work: class, ..self },
        }
    }

    /// The run after a library was restored, or could not be.
    pub open spec fn after_library(
        self,
        restored: Result<Embedded, String>,
        module: Option<Seq<u8>>,
    ) -> PackageRunModel {
        PackageRunModel {
            module: if restored is Ok && module is Some {
                module
            } else {
                self.module
            },
            ..self.settled(
                outcome::spec_library_outcomes(self.entry_label(), self.entry_dest(), restored),
            )
        }
    }

    /// The run after metadata was restored, or could not be.
    pub open spec fn after_metadata(
        self,
        restored: Result<Restored, MetadataError>,
        written: Result<(), String>,
    ) -> PackageRunModel {
        let (kind, status) = outcome::spec_metadata_status(restored, written);
        self.settled(
            seq![
                OutcomeModel { label: self.entry_label(), dest: self.entry_dest(), kind, status },
            ],
        )
    }
}

/// What tells a content apart.
pub open spec fn identity(data: Seq<u8>) -> Seq<char> {
    text::hex_digest_text(digest::sha256_of(data))
}

impl PackageRun {
    /// Starts with the entries of a package. The outputs go below `base`.
    pub fn new(
        out_root: TreePath,
        label: &str,
        base: TreePath,
        targets: Vec<PackageTarget>,
        verbose: bool,
    ) -> (run: PackageRun)
        ensures
            run@.is_valid(),
            run@ == (PackageRunModel {
                out_root: out_root@,
                label: label@,
                base: base@,
                targets: package::targets(targets@),
                position: 0,
                work: EntryClass::Other,
                module: None,
                verbose,
                outcomes: Seq::empty(),
            }),
    {
        let run = PackageRun {
            out_root,
            label: String::from_str(label),
            base,
            targets,
            position: 0,
            work: EntryClass::Other,
            context: PackageRestoreContext::new(verbose),
            outcomes: Vec::new(),
        };
        assert(run@.outcomes =~= Seq::empty());
        run
    }

    /// The entry that comes next, if there is one.
    pub fn current(&self) -> (place: Option<EntryPlace>)
        requires
            self@.is_valid(),
        ensures
            match place {
                Some(found) => {
                    &&& self@.position < self@.targets.len()
                    &&& found.index == self@.targets[self@.position].index
                    &&& found.label@ == self@.entry_label()
                    &&& found.dest@ == self@.entry_dest()
                },
                None => self@.position == self@.targets.len(),
            },
    {
        if self.position >= self.targets.len() {
            return None;
        }
        let target = &self.targets[self.position];
        assert(self@.targets[self@.position] == target@);
        Some(
            EntryPlace {
                index: target.index,
                label: entry_label(self.label.as_str(), target.name.text.as_str()),
                dest: entry_dest(&self.out_root, &self.base, &target.name.path),
            },
        )
    }

    /// What the entry that was begun is restored as.
    pub fn work(&self) -> (work: EntryClass)
        ensures
            work == self@.work,
    {
        self.work
    }

    /// Whether the steps of each entry are shown.
    pub fn verbose(&self) -> (verbose: bool)
        ensures
            verbose == self@.verbose,
    {
        self.context.verbose
    }

    /// The module with which metadata of this package can be restored.
    pub fn module(&self) -> (module: Option<&[u8]>)
        ensures
            match module {
                Some(bytes) => self@.module == Some(bytes@),
                None => self@.module is None,
            },
    {
        match &self.context.method_index_module {
            Some(bytes) => Some(bytes.as_slice()),
            None => None,
        }
    }

    /// Looks at the content of the next entry. `protected` tells whether it is that of a protected
    /// library.
    pub fn begin(&mut self, data: &[u8], protected: bool, seen: &mut SeenContents)
        requires
            old(self)@.is_valid(),
            old(self)@.position < old(self)@.targets.len(),
        ensures
            final(self)@.is_valid(),
            final(self)@ == old(self)@.begun(data@, protected, old(seen)@),
            final(seen)@ == if outcome::spec_classify(data@, protected) == EntryClass::Other {
                old(seen)@
            } else {
                old(seen)@.insert(identity(data@))
            },
    {
        let ghost before = self@;
        let class = classify(data, protected);
        let target = &self.targets[self.position];
        assert(before.targets[before.position] == target@);
        let label = entry_label(self.label.as_str(), target.name.text.as_str());
        let dest = entry_dest(&self.out_root, &self.base, &target.name.path);
        match settle_entry(label.as_str(), &dest, class, content_identity(data), seen) {
            Some(outcome) => {
                self.settle(outcome);
            },
            None => {
                self.work = class;
            },
        }
    }

    /// Adds an outcome and goes on to the next entry.
    fn settle(&mut self, outcome: EntryOutcome)
        requires
            old(self)@.is_valid(),
            old(self)@.position < old(self)@.targets.len(),
        ensures
            final(self)@.is_valid(),
            final(self)@ == old(self)@.settled(seq![outcome@]),
    {
        let ghost before = self.outcomes@;
        self.outcomes.push(outcome);
        assert(outcome::outcome_models(self.outcomes@) =~= outcome::outcome_models(before)
            + seq![outcome@]);
        assert(self.position < self.targets.len());
        self.position += 1;
        self.work = EntryClass::Other;
    }

    /// Takes note of what came of a library: what it was restored to, and the module that it
    /// brought.
    pub fn library_done(&mut self, restored: Result<Embedded, String>, module: Option<Vec<u8>>)
        requires
            old(self)@.is_valid(),
            old(self)@.work == EntryClass::Library,
        ensures
            final(self)@.is_valid(),
            final(self)@ == old(self)@.after_library(restored, module_bytes(module)),
    {
        let target = &self.targets[self.position];
        assert(self@.targets[self@.position] == target@);
        let label = entry_label(self.label.as_str(), target.name.text.as_str());
        let dest = entry_dest(&self.out_root, &self.base, &target.name.path);
        if restored.is_ok() {
            self.context.remember(module);
        }
        let ghost before = self.outcomes@;
        let mut own = library_outcomes(label.as_str(), &dest, restored);
        let ghost added = own@;
        self.outcomes.append(&mut own);
        assert(outcome::outcome_models(self.outcomes@) =~= outcome::outcome_models(before)
            + outcome::outcome_models(added));
        assert(self.position < self.targets.len());
        self.position += 1;
        self.work = EntryClass::Other;
    }

    /// Takes note of what came of metadata, and of writing it where that was due.
    pub fn metadata_done(
        &mut self,
        restored: &Result<Restored, MetadataError>,
        written: Result<(), String>,
    )
        requires
            old(self)@.is_valid(),
            old(self)@.work == EntryClass::Metadata,
        ensures
            final(self)@.is_valid(),
            final(self)@ == old(self)@.after_metadata(*restored, written),
    {
        let target = &self.targets[self.position];
        assert(self@.targets[self@.position] == target@);
        let label = entry_label(self.label.as_str(), target.name.text.as_str());
        let dest = entry_dest(&self.out_root, &self.base, &target.name.path);
        let outcome = metadata_outcome(label.as_str(), &dest, restored, written);
        self.settle(outcome);
    }

    /// The outcomes of the entries that were handled.
    pub fn finish(self) -> (outcomes: Vec<EntryOutcome>)
        ensures
            outcome::outcome_models(outcomes@) == self@.outcomes,
    {
        self.outcomes
    }
}

} // verus!

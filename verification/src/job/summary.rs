//! The account of a run.

use super::metadata;
use super::metadata::{unsupported_version, MetadataError};
use super::outcome;
use super::outcome::{EntryKind, EntryOutcome, EntryStatus, OutcomeModel, StatusModel};
use crate::text;
use crate::text::decimal_of;
use vstd::prelude::*;
use vstd::string::*;

verus! {

/// Summary of a run.
#[derive(Debug, Clone, Copy, PartialEq, Eq, Structural)]
pub struct Summary {
    pub unpacked: usize,
    pub skipped: usize,
    pub errors: usize,
    /// Files that were unpacked but failed the integrity check. They count as unpacked too.
    pub suspect: usize,
    /// Metadata files that were restored, those from within libraries included.
    pub metadata: usize,
    /// App packages that were opened and searched.
    pub packages: usize,
    /// Duration of the run in milliseconds.
    pub duration_ms: u128,
}

impl Default for Summary {
    fn default() -> (summary: Summary)
        ensures
            summary == spec_empty(),
    {
        Summary {
            unpacked: 0,
            skipped: 0,
            errors: 0,
            suspect: 0,
            metadata: 0,
            packages: 0,
            duration_ms: 0,
        }
    }
}

/// The account of a run in which nothing happened.
pub open spec fn spec_empty() -> Summary {
    Summary {
        unpacked: 0,
        skipped: 0,
        errors: 0,
        suspect: 0,
        metadata: 0,
        packages: 0,
        duration_ms: 0,
    }
}

/// What can happen to a file of a run.
#[derive(Debug, Clone, Copy, PartialEq, Eq, Structural)]
pub enum FileEvent {
    /// An executable or a library was written. A suspect one failed the integrity check.
    Unpacked { suspect: bool },
    /// A file was left out: its content was restored before, or its version is not known.
    Skipped,
    /// A file could not be handled.
    Failed,
    /// Metadata was written.
    MetadataRestored,
    /// Metadata needed no change.
    MetadataClean,
    /// A package was opened.
    PackageOpened,
}

impl Summary {
    /// The counts are at most so many.
    pub open spec fn at_most(self, limit: int) -> bool {
        &&& self.unpacked <= limit
        &&& self.skipped <= limit
        &&& self.errors <= limit
        &&& self.suspect <= limit
        &&& self.metadata <= limit
        &&& self.packages <= limit
    }

    /// So many more files can be counted.
    pub open spec fn has_room(self, files: int) -> bool {
        self.at_most(usize::MAX - files)
    }

    /// The account after an event.
    pub open spec fn after(self, event: FileEvent) -> Summary {
        match event {
            FileEvent::Unpacked { suspect } => Summary {
                unpacked: (self.unpacked + 1) as usize,
                suspect: (self.suspect + if suspect {
                    1int
                } else {
                    0
                }) as usize,
                ..self
            },
            FileEvent::Skipped => Summary { skipped: (self.skipped + 1) as usize, ..self },
            FileEvent::Failed => Summary { errors: (self.errors + 1) as usize, ..self },
            FileEvent::MetadataRestored => Summary {
                metadata: (self.metadata + 1) as usize,
                ..self
            },
            FileEvent::MetadataClean => self,
            FileEvent::PackageOpened => Summary { packages: (self.packages + 1) as usize, ..self },
        }
    }

    /// The account after the outcomes of a package's entries.
    pub open spec fn after_outcomes(self, outcomes: Seq<OutcomeModel>) -> Summary
        decreases outcomes.len(),
    {
        if outcomes.len() == 0 {
            self
        } else {
            self.after_outcomes(outcomes.drop_last()).after(outcome_event(outcomes.last()))
        }
    }

    /// The summary line.
    pub open spec fn text(self) -> Seq<char> {
        let counts = text::decimal(self.unpacked as nat) + " unpacked · "@ + text::decimal(
            self.skipped as nat,
        ) + " skipped · "@ + text::decimal(self.errors as nat) + " errors · "@ + text::decimal(
            self.suspect as nat,
        ) + " suspect · "@ + text::decimal(self.metadata as nat) + " metadata"@;
        if self.packages > 0 {
            counts + " · "@ + text::decimal(self.packages as nat) + " packages"@
        } else {
            counts
        }
    }

    /// Whether so many more files can be counted.
    pub fn can_count(&self, files: usize) -> (result: bool)
        ensures
            result == self.has_room(files as int),
    {
        let limit: usize = usize::MAX - files;
        self.unpacked <= limit && self.skipped <= limit && self.errors <= limit && self.suspect
            <= limit && self.metadata <= limit && self.packages <= limit
    }

    /// Counts an event.
    pub fn record(&mut self, event: FileEvent)
        requires
            old(self).has_room(1),
        ensures
            *final(self) == old(self).after(event),
    {
        match event {
            FileEvent::Unpacked { suspect } => {
                self.unpacked += 1;
                if suspect {
                    self.suspect += 1;
                }
            },
            FileEvent::Skipped => {
                self.skipped += 1;
            },
            FileEvent::Failed => {
                self.errors += 1;
            },
            FileEvent::MetadataRestored => {
                self.metadata += 1;
            },
            FileEvent::MetadataClean => {},
            FileEvent::PackageOpened => {
                self.packages += 1;
            },
        }
    }

    /// The summary line shared by the console and the log file.
    pub fn line(&self) -> (line: String)
        ensures
            line@ == self.text(),
    {
        let mut line = decimal_of(self.unpacked as u128);
        line.append(" unpacked · ");
        line.append(decimal_of(self.skipped as u128).as_str());
        line.append(" skipped · ");
        line.append(decimal_of(self.errors as u128).as_str());
        line.append(" errors · ");
        line.append(decimal_of(self.suspect as u128).as_str());
        line.append(" suspect · ");
        line.append(decimal_of(self.metadata as u128).as_str());
        line.append(" metadata");
        if self.packages > 0 {
            line.append(" · ");
            line.append(decimal_of(self.packages as u128).as_str());
            line.append(" packages");
        }
        line
    }

    /// Counts the outcomes of a package's entries.
    pub fn apply_package_outcomes(&mut self, outcomes: &[EntryOutcome])
        requires
            old(self).has_room(outcomes@.len() as int),
        ensures
            *final(self) == old(self).after_outcomes(outcome::outcome_models(outcomes@)),
    {
        let ghost start = *self;
        let ghost models = outcome::outcome_models(outcomes@);
        let mut i: usize = 0;
        assert(models.take(0) =~= Seq::empty());
        while i < outcomes.len()
            invariant
                i <= outcomes@.len(),
                models == outcome::outcome_models(outcomes@),
                *self == start.after_outcomes(models.take(i as int)),
                start.has_room(outcomes@.len() as int),
                self.has_room(outcomes@.len() - i),
            decreases outcomes@.len() - i,
        {
            proof {
                assert(models.take(i + 1).drop_last() =~= models.take(i as int));
                assert(models.take(i + 1).last() == outcomes@[i as int]@);
            }
            self.record(event_of(&outcomes[i]));
            i += 1;
        }
        assert(models.take(i as int) =~= models);
    }
}

/// What the outcome of an entry counts as.
pub open spec fn outcome_event(outcome: OutcomeModel) -> FileEvent {
    match outcome.status {
        StatusModel::Restored => match outcome.kind {
            EntryKind::So => FileEvent::Unpacked { suspect: false },
            EntryKind::Metadata { remapped } => FileEvent::MetadataRestored,
            EntryKind::EmbeddedMetadata => FileEvent::MetadataRestored,
        },
        StatusModel::Duplicate => FileEvent::Skipped,
        StatusModel::NotTarget => FileEvent::Skipped,
        StatusModel::Unchanged => FileEvent::Skipped,
        StatusModel::Failed(message) => FileEvent::Failed,
    }
}

/// What the outcome of an entry counts as.
pub fn event_of(outcome: &EntryOutcome) -> (event: FileEvent)
    ensures
        event == outcome_event(outcome@),
{
    match &outcome.status {
        EntryStatus::Restored => match outcome.kind {
            EntryKind::So => FileEvent::Unpacked { suspect: false },
            EntryKind::Metadata { .. } => FileEvent::MetadataRestored,
            EntryKind::EmbeddedMetadata => FileEvent::MetadataRestored,
        },
        EntryStatus::Duplicate => FileEvent::Skipped,
        EntryStatus::NotTarget => FileEvent::Skipped,
        EntryStatus::Unchanged => FileEvent::Skipped,
        EntryStatus::Failed(_) => FileEvent::Failed,
    }
}

/// What came of restoring a metadata file, as far as it counts.
#[derive(Debug, Clone, Copy, PartialEq, Eq)]
pub enum MetadataResult {
    /// So many method fields changed, and the output was written where there were any.
    Done { remapped: usize },
    /// The metadata could not be restored.
    Refused(MetadataError),
    /// The file could not be read or written.
    Unavailable,
}

/// What a metadata file counts as. In a folder, a version that is not known is no failure: the
/// file is left untouched.
pub open spec fn spec_metadata_event(result: MetadataResult, in_folder: bool) -> FileEvent {
    match result {
        MetadataResult::Done { remapped } => if remapped > 0 {
            FileEvent::MetadataRestored
        } else {
            FileEvent::MetadataClean
        },
        MetadataResult::Refused(error) => if in_folder && metadata::spec_unsupported_version(
            error,
        ) is Some {
            FileEvent::Skipped
        } else {
            FileEvent::Failed
        },
        MetadataResult::Unavailable => FileEvent::Failed,
    }
}

/// What a metadata file counts as.
pub fn metadata_event(result: &MetadataResult, in_folder: bool) -> (event: FileEvent)
    ensures
        event == spec_metadata_event(*result, in_folder),
{
    match result {
        MetadataResult::Done { remapped } => if *remapped > 0 {
            FileEvent::MetadataRestored
        } else {
            FileEvent::MetadataClean
        },
        MetadataResult::Refused(error) => if in_folder && unsupported_version(error).is_some() {
            FileEvent::Skipped
        } else {
            FileEvent::Failed
        },
        MetadataResult::Unavailable => FileEvent::Failed,
    }
}

/// The number of things that an account counts: each file that was not left alone counts once.
pub open spec fn handled(summary: Summary) -> int {
    summary.unpacked + summary.skipped + summary.errors + summary.metadata
}

/// Every outcome of a package's entries counts exactly once, and none as a package or as suspect.
pub proof fn law_every_outcome_counts_once(summary: Summary, outcomes: Seq<OutcomeModel>)
    requires
        summary.has_room(outcomes.len() as int),
    ensures
        ({
            let after = summary.after_outcomes(outcomes);
            &&& handled(after) == handled(summary) + outcomes.len()
            &&& after.packages == summary.packages
            &&& after.suspect == summary.suspect
            &&& after.at_most(usize::MAX as int)
            &&& after.unpacked <= summary.unpacked + outcomes.len()
            &&& after.skipped <= summary.skipped + outcomes.len()
            &&& after.errors <= summary.errors + outcomes.len()
            &&& after.metadata <= summary.metadata + outcomes.len()
        }),
    decreases outcomes.len(),
{
    if outcomes.len() > 0 {
        law_every_outcome_counts_once(summary, outcomes.drop_last());
    }
}

} // verus!

//! The course of a run: which file comes next, and what its result changes.

use super::outcome;
use super::outcome::{EntryOutcome, OutcomeModel, SeenContents};
use super::run::{needs_dedup, start_folder, FileRoute};
use super::summary;
use super::summary::{metadata_event, FileEvent, MetadataResult, Summary};
use vstd::prelude::*;

verus! {

/// How many files of each kind a run has to handle.
#[derive(Debug, Clone, Copy, PartialEq, Eq, Structural)]
pub struct Targets {
    pub executables: usize,
    pub libraries: usize,
    pub packages: usize,
    pub metadata: usize,
}

/// What a run does next. The number tells which file of its kind is meant.
#[derive(Debug, Clone, Copy, PartialEq, Eq, Structural)]
pub enum Step {
    /// An executable is unpacked.
    Unpack(usize),
    /// The content of a library is identified.
    Identify(usize),
    /// A library is restored.
    RestoreLibrary(usize),
    /// The entries of a package are restored.
    RestorePackage(usize),
    /// A metadata file is restored.
    RestoreMetadata(usize),
    /// Every file was handled.
    Finish,
}

/// What came of a step.
pub enum StepResult {
    /// The file could not be handled. The contents that were lent out to a package are lost.
    Failed,
    /// An executable was unpacked. A suspect one failed the integrity check.
    Unpacked { suspect: bool },
    /// The identity of a library's content, unless it could not be read.
    Identified(Option<String>),
    /// A library was restored. Tells whether metadata from within it was written, if there was
    /// any.
    Library { embedded: Option<bool> },
    /// The entries of a package were handled. `seen` holds the contents that are known after that.
    Package { outcomes: Vec<EntryOutcome>, seen: SeenContents },
    /// A package could not be read to its end.
    PackageFailed { seen: SeenContents },
    /// What came of a metadata file.
    Metadata(MetadataResult),
}

/// The mathematical content of a [`StepResult`].
pub enum ResultModel {
    Failed,
    Unpacked { suspect: bool },
    Identified(Option<Seq<char>>),
    Library { embedded: Option<bool> },
    Package { outcomes: Seq<OutcomeModel>, seen: Set<Seq<char>> },
    PackageFailed { seen: Set<Seq<char>> },
    Metadata(MetadataResult),
}

impl View for StepResult {
    type V = ResultModel;

    open spec fn view(&self) -> ResultModel {
        match self {
            StepResult::Failed => ResultModel::Failed,
            StepResult::Unpacked { suspect } => ResultModel::Unpacked { suspect: *suspect },
            StepResult::Identified(Some(identity)) => ResultModel::Identified(Some(identity@)),
            StepResult::Identified(None) => ResultModel::Identified(None),
            StepResult::Library { embedded } => ResultModel::Library { embedded: *embedded },
            StepResult::Package { outcomes, seen } => ResultModel::Package {
                outcomes: outcome::outcome_models(outcomes@),
                seen: seen@,
            },
            StepResult::PackageFailed { seen } => ResultModel::PackageFailed { seen: seen@ },
            StepResult::Metadata(result) => ResultModel::Metadata(*result),
        }
    }
}

impl ResultModel {
    /// How many counts the result adds to at most.
    pub open spec fn counts(self) -> nat {
        match self {
            ResultModel::Package { outcomes, .. } => outcomes.len() + 1,
            _ => 2,
        }
    }
}

impl Targets {
    /// The step for metadata file `i` if there is one.
    pub open spec fn from_metadata(self, i: int) -> Step {
        if i < self.metadata {
            Step::RestoreMetadata(i as usize)
        } else {
            Step::Finish
        }
    }

    /// The step for package `i`, or for what comes behind the packages.
    pub open spec fn from_package(self, i: int) -> Step {
        if i < self.packages {
            Step::RestorePackage(i as usize)
        } else {
            self.from_metadata(0)
        }
    }

    /// The step for library `i`, or for what comes behind the libraries. A library is identified
    /// first where its content can come from two sources.
    pub open spec fn from_library(self, i: int) -> Step {
        if i < self.libraries {
            if self.libraries > 1 || self.packages > 0 {
                Step::Identify(i as usize)
            } else {
                Step::RestoreLibrary(i as usize)
            }
        } else {
            self.from_package(0)
        }
    }

    /// The step for executable `i`, or for what comes behind the executables.
    pub open spec fn from_executable(self, i: int) -> Step {
        if i < self.executables {
            Step::Unpack(i as usize)
        } else {
            self.from_library(0)
        }
    }

    /// Whether a step is about one of the files.
    pub open spec fn has(self, step: Step) -> bool {
        match step {
            Step::Unpack(i) => i < self.executables,
            Step::Identify(i) => i < self.libraries,
            Step::RestoreLibrary(i) => i < self.libraries,
            Step::RestorePackage(i) => i < self.packages,
            Step::RestoreMetadata(i) => i < self.metadata,
            Step::Finish => true,
        }
    }

    fn metadata_step(&self, i: usize) -> (step: Step)
        ensures
            step == self.from_metadata(i as int),
    {
        if i < self.metadata {
            Step::RestoreMetadata(i)
        } else {
            Step::Finish
        }
    }

    fn package_step(&self, i: usize) -> (step: Step)
        ensures
            step == self.from_package(i as int),
    {
        if i < self.packages {
            Step::RestorePackage(i)
        } else {
            self.metadata_step(0)
        }
    }

    fn library_step(&self, i: usize) -> (step: Step)
        ensures
            step == self.from_library(i as int),
    {
        if i < self.libraries {
            if needs_dedup(self.libraries, self.packages) {
                Step::Identify(i)
            } else {
                Step::RestoreLibrary(i)
            }
        } else {
            self.package_step(0)
        }
    }

    fn executable_step(&self, i: usize) -> (step: Step)
        ensures
            step == self.from_executable(i as int),
    {
        if i < self.executables {
            Step::Unpack(i)
        } else {
            self.library_step(0)
        }
    }
}

/// A run: what is left to do, the contents that were restored, and the account.
pub struct Run {
    targets: Targets,
    in_folder: bool,
    step: Step,
    seen: SeenContents,
    summary: Summary,
}

/// The mathematical content of a [`Run`].
#[verifier::ext_equal]
pub struct RunModel {
    pub targets: Targets,
    /// Whether the run is over a folder, and not over a single file.
    pub in_folder: bool,
    pub step: Step,
    pub seen: Set<Seq<char>>,
    pub summary: Summary,
}

impl View for Run {
    type V = RunModel;

    closed spec fn view(&self) -> RunModel {
        RunModel {
            targets: self.targets,
            in_folder: self.in_folder,
            step: self.step,
            seen: self.seen@,
            summary: self.summary,
        }
    }
}

impl RunModel {
    /// The step is about one of the files of the run.
    pub open spec fn is_valid(self) -> bool {
        self.targets.has(self.step)
    }

    /// Whether a result is one of the step that is due.
    pub open spec fn expects(self, result: ResultModel) -> bool {
        match (self.step, result) {
            (Step::Unpack(_), ResultModel::Unpacked { .. }) => true,
            (Step::Unpack(_), ResultModel::Failed) => true,
            (Step::Identify(_), ResultModel::Identified(_)) => true,
            (Step::RestoreLibrary(_), ResultModel::Library { .. }) => true,
            (Step::RestoreLibrary(_), ResultModel::Failed) => true,
            (Step::RestorePackage(_), ResultModel::Package { .. }) => true,
            (Step::RestorePackage(_), ResultModel::PackageFailed { .. }) => true,
            (Step::RestorePackage(_), ResultModel::Failed) => true,
            (Step::RestoreMetadata(_), ResultModel::Metadata(_)) => true,
            _ => false,
        }
    }

    /// The run after an executable.
    pub open spec fn after_executable(self, i: int, event: FileEvent) -> RunModel {
        RunModel {
            step: self.targets.from_executable(i + 1),
            summary: self.summary.after(event),
            ..self
        }
    }

    /// The run after library `i` was identified. A content that was restored before is left out.
    pub open spec fn after_identity(self, i: int, identity: Option<Seq<char>>) -> RunModel {
        match identity {
            None => RunModel { step: Step::RestoreLibrary(i as usize), ..self },
            Some(content) => if self.seen.contains(content) {
                RunModel {
                    step: self.targets.from_library(i + 1),
                    summary: self.summary.after(FileEvent::Skipped),
                    ..self
                }
            } else {
                RunModel {
                    step: Step::RestoreLibrary(i as usize),
                    seen: self.seen.insert(content),
                    ..self
                }
            },
        }
    }

    /// The run after library `i` was restored.
    pub open spec fn after_library(self, i: int, embedded: Option<bool>) -> RunModel {
        let own = self.summary.after(FileEvent::Unpacked { suspect: false });
        RunModel {
            step: self.targets.from_library(i + 1),
            summary: match embedded {
                None => own,
                Some(written) => if written {
                    own.after(FileEvent::MetadataRestored)
                } else {
                    own.after(FileEvent::Failed)
                },
            },
            ..self
        }
    }

    /// The run after library `i` could not be restored.
    pub open spec fn after_failed_library(self, i: int) -> RunModel {
        RunModel {
            step: self.targets.from_library(i + 1),
            summary: self.summary.after(FileEvent::Failed),
            ..self
        }
    }

    /// The run after the entries of package `i` were handled.
    pub open spec fn after_package(
        self,
        i: int,
        outcomes: Seq<OutcomeModel>,
        seen: Set<Seq<char>>,
    ) -> RunModel {
        RunModel {
            step: self.targets.from_package(i + 1),
            seen,
            summary: self.summary.after(FileEvent::PackageOpened).after_outcomes(outcomes),
            ..self
        }
    }

    /// The run after package `i` could not be handled.
    pub open spec fn after_failed_package(self, i: int, seen: Set<Seq<char>>) -> RunModel {
        RunModel {
            step: self.targets.from_package(i + 1),
            seen,
            summary: self.summary.after(FileEvent::PackageOpened).after(FileEvent::Failed),
            ..self
        }
    }

    /// The run after metadata file `i`.
    pub open spec fn after_metadata(self, i: int, result: MetadataResult) -> RunModel {
        RunModel {
            step: self.targets.from_metadata(i + 1),
            summary: self.summary.after(summary::spec_metadata_event(result, self.in_folder)),
            ..self
        }
    }

    /// The run after the step that is due.
    pub open spec fn after(self, result: ResultModel) -> RunModel {
        match (self.step, result) {
            (Step::Unpack(i), ResultModel::Unpacked { suspect }) => self.after_executable(
                i as int,
                FileEvent::Unpacked { suspect },
            ),
            (Step::Unpack(i), ResultModel::Failed) => self.after_executable(
                i as int,
                FileEvent::Failed,
            ),
            (Step::Identify(i), ResultModel::Identified(identity)) => self.after_identity(
                i as int,
                identity,
            ),
            (Step::RestoreLibrary(i), ResultModel::Library { embedded }) => self.after_library(
                i as int,
                embedded,
            ),
            (Step::RestoreLibrary(i), ResultModel::Failed) => self.after_failed_library(i as int),
            (Step::RestorePackage(i), ResultModel::Package { outcomes, seen }) =>
                self.after_package(i as int, outcomes, seen),
            (Step::RestorePackage(i), ResultModel::PackageFailed { seen }) =>
                self.after_failed_package(i as int, seen),
            (Step::RestorePackage(i), ResultModel::Failed) => self.after_failed_package(
                i as int,
                Set::empty(),
            ),
            (Step::RestoreMetadata(i), ResultModel::Metadata(result)) => self.after_metadata(
                i as int,
                result,
            ),
            _ => self,
        }
    }
}

/// The files of a run over a single file.
pub open spec fn spec_single_target(route: FileRoute) -> Targets {
    let none = Targets { executables: 0, libraries: 0, packages: 0, metadata: 0 };
    match route {
        FileRoute::Metadata => Targets { metadata: 1, ..none },
        FileRoute::Library => Targets { libraries: 1, ..none },
        FileRoute::Package => Targets { packages: 1, ..none },
        FileRoute::Executable => Targets { executables: 1, ..none },
    }
}

/// The files of a run over a single file.
fn single_target(route: FileRoute) -> (targets: Targets)
    ensures
        targets == spec_single_target(route),
{
    match route {
        FileRoute::Metadata => Targets { executables: 0, libraries: 0, packages: 0, metadata: 1 },
        FileRoute::Library => Targets { executables: 0, libraries: 1, packages: 0, metadata: 0 },
        FileRoute::Package => Targets { executables: 0, libraries: 0, packages: 1, metadata: 0 },
        FileRoute::Executable => Targets {
            executables: 1,
            libraries: 0,
            packages: 0,
            metadata: 0,
        },
    }
}

impl Run {
    /// Starts a run over the files that were found in a folder. Files that the scan could not read
    /// count as errors.
    pub fn over_folder(
        targets: Targets,
        skipped: usize,
        walk_errors: usize,
        probe_errors: usize,
    ) -> (run: Run)
        requires
            walk_errors + probe_errors <= usize::MAX,
        ensures
            run@.is_valid(),
            run@ == (RunModel {
                targets,
                in_folder: true,
                step: targets.from_executable(0),
                seen: Set::empty(),
                summary: (Summary {
                    skipped,
                    errors: (walk_errors + probe_errors) as usize,
                    ..summary::spec_empty()
                }),
            }),
    {
        Run {
            targets,
            in_folder: true,
            step: targets.executable_step(0),
            seen: SeenContents::new(),
            summary: start_folder(skipped, walk_errors, probe_errors),
        }
    }

    /// Starts a run over a single file.
    pub fn over_file(route: FileRoute) -> (run: Run)
        ensures
            run@.is_valid(),
            run@ == (RunModel {
                targets: spec_single_target(route),
                in_folder: false,
                step: spec_single_target(route).from_executable(0),
                seen: Set::empty(),
                summary: summary::spec_empty(),
            }),
    {
        let targets = single_target(route);
        Run {
            targets,
            in_folder: false,
            step: targets.executable_step(0),
            seen: SeenContents::new(),
            summary: Summary::default(),
        }
    }

    /// The step that is due.
    pub fn step(&self) -> (step: Step)
        ensures
            step == self@.step,
    {
        self.step
    }

    /// The account so far.
    pub fn summary(&self) -> (summary: Summary)
        ensures
            summary == self@.summary,
    {
        self.summary
    }

    /// Lends out the contents that were restored, for a package to be checked against them.
    pub fn lend_seen(&mut self) -> (seen: SeenContents)
        ensures
            seen@ == old(self)@.seen,
            final(self)@ == (RunModel { seen: Set::empty(), ..old(self)@ }),
    {
        let mut seen = SeenContents::new();
        std::mem::swap(&mut seen, &mut self.seen);
        seen
    }

    /// Whether a result is one of the step that is due, and can be counted.
    pub fn can_take(&self, result: &StepResult) -> (taken: bool)
        ensures
            taken == (self@.expects(result@) && self@.summary.has_room(result@.counts() as int)),
    {
        let expected = match (&self.step, result) {
            (Step::Unpack(_), StepResult::Unpacked { .. }) => true,
            (Step::Unpack(_), StepResult::Failed) => true,
            (Step::Identify(_), StepResult::Identified(_)) => true,
            (Step::RestoreLibrary(_), StepResult::Library { .. }) => true,
            (Step::RestoreLibrary(_), StepResult::Failed) => true,
            (Step::RestorePackage(_), StepResult::Package { .. }) => true,
            (Step::RestorePackage(_), StepResult::PackageFailed { .. }) => true,
            (Step::RestorePackage(_), StepResult::Failed) => true,
            (Step::RestoreMetadata(_), StepResult::Metadata(_)) => true,
            _ => false,
        };
        let room = match result {
            StepResult::Package { outcomes, .. } => outcomes.len() < usize::MAX
                && self.summary.can_count(outcomes.len() + 1),
            _ => self.summary.can_count(2),
        };
        expected && room
    }

    /// Counts the result of the step that is due and goes on to the next step. A file that could
    /// not be handled does not end the run.
    pub fn advance(&mut self, result: StepResult)
        requires
            old(self)@.is_valid(),
            old(self)@.expects(result@),
            old(self)@.summary.has_room(result@.counts() as int),
        ensures
            final(self)@.is_valid(),
            final(self)@ == old(self)@.after(result@),
    {
        match self.step {
            Step::Unpack(i) => {
                match result {
                    StepResult::Unpacked { suspect } => {
                        self.summary.record(FileEvent::Unpacked { suspect });
                    },
                    _ => {
                        self.summary.record(FileEvent::Failed);
                    },
                }
                self.step = self.targets.executable_step(i + 1);
            },
            Step::Identify(i) => {
                if let StepResult::Identified(Some(identity)) = result {
                    if !self.seen.insert(identity) {
                        self.summary.record(FileEvent::Skipped);
                        self.step = self.targets.library_step(i + 1);
                        return ;
                    }
                }
                self.step = Step::RestoreLibrary(i);
            },
            Step::RestoreLibrary(i) => {
                match result {
                    StepResult::Library { embedded } => {
                        self.summary.record(FileEvent::Unpacked { suspect: false });
                        match embedded {
                            Some(true) => {
                                self.summary.record(FileEvent::MetadataRestored);
                            },
                            Some(false) => {
                                self.summary.record(FileEvent::Failed);
                            },
                            None => {},
                        }
                    },
                    _ => {
                        self.summary.record(FileEvent::Failed);
                    },
                }
                self.step = self.targets.library_step(i + 1);
            },
            Step::RestorePackage(i) => {
                self.summary.record(FileEvent::PackageOpened);
                match result {
                    StepResult::Package { outcomes, seen } => {
                        self.seen = seen;
                        self.summary.apply_package_outcomes(&outcomes);
                    },
                    StepResult::PackageFailed { seen } => {
                        self.seen = seen;
                        self.summary.record(FileEvent::Failed);
                    },
                    _ => {
                        self.seen = SeenContents::new();
                        self.summary.record(FileEvent::Failed);
                    },
                }
                self.step = self.targets.package_step(i + 1);
            },
            Step::RestoreMetadata(i) => {
                if let StepResult::Metadata(result) = result {
                    let event = metadata_event(&result, self.in_folder);
                    self.summary.record(event);
                }
                self.step = self.targets.metadata_step(i + 1);
            },
            Step::Finish => {},
        }
    }

    /// The account of a run that took so many milliseconds.
    pub fn finish(self, duration_ms: u128) -> (summary: Summary)
        ensures
            summary == (Summary { duration_ms, ..self@.summary }),
    {
        Summary { duration_ms, ..self.summary }
    }
}

} // verus!

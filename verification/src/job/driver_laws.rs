//! What holds of every run.

use super::driver::{ResultModel, RunModel, Step, Targets};
use super::summary::Summary;
use vstd::prelude::*;

verus! {

/// The number of files that come in front of the one that a step is about.
pub open spec fn number(targets: Targets, step: Step) -> int {
    match step {
        Step::Unpack(i) => i as int,
        Step::Identify(i) => targets.executables + i,
        Step::RestoreLibrary(i) => targets.executables + i,
        Step::RestorePackage(i) => targets.executables + targets.libraries + i,
        Step::RestoreMetadata(i) => targets.executables + targets.libraries + targets.packages + i,
        Step::Finish => file_count(targets),
    }
}

/// The number of files of a run.
pub open spec fn file_count(targets: Targets) -> int {
    targets.executables + targets.libraries + targets.packages + targets.metadata
}

/// How many steps are left at most.
pub open spec fn steps_left(run: RunModel) -> int {
    let files = file_count(run.targets) - number(run.targets, run.step);
    match run.step {
        Step::RestoreLibrary(_) => 2 * files - 1,
        _ => 2 * files,
    }
}

/// Every file comes once, and in order: a step is followed by one about the next file, unless it
/// identified a library that is restored next.
pub proof fn law_every_file_comes_once(run: RunModel, result: ResultModel)
    requires
        run.is_valid(),
        run.expects(result),
    ensures
        run.after(result).is_valid(),
        run.after(result).targets == run.targets,
        run.after(result).in_folder == run.in_folder,
        run.step is Identify && run.after(result).step == Step::RestoreLibrary(
            run.step->Identify_0,
        ) || number(run.targets, run.after(result).step) == number(run.targets, run.step) + 1,
{
}

/// Loose libraries come in front of packages, so that a copy in a package is the one that is left
/// out; metadata comes last.
pub proof fn law_loose_files_come_first(targets: Targets, a: Step, b: Step)
    requires
        targets.has(a),
        targets.has(b),
        match (a, b) {
            (Step::Unpack(_), Step::RestoreLibrary(_)) => true,
            (Step::RestoreLibrary(_), Step::RestorePackage(_)) => true,
            (Step::RestorePackage(_), Step::RestoreMetadata(_)) => true,
            _ => false,
        },
    ensures
        number(targets, a) < number(targets, b),
{
}

/// Every run ends: each step leaves fewer steps to do, and none are left exactly when every file
/// was handled.
pub proof fn law_every_run_ends(run: RunModel, result: ResultModel)
    requires
        run.is_valid(),
        run.expects(result),
    ensures
        0 <= steps_left(run.after(result)) < steps_left(run),
        steps_left(run.after(result)) == 0 <==> run.after(result).step == Step::Finish,
{
}

/// A file that cannot be handled counts as one error, changes no other count but that of packages,
/// and does not keep the run from the next file.
pub proof fn law_failures_are_isolated(run: RunModel)
    requires
        run.is_valid(),
        run.expects(ResultModel::Failed),
        run.summary.has_room(1),
    ensures
        ({
            let after = run.after(ResultModel::Failed);
            &&& number(run.targets, after.step) == number(run.targets, run.step) + 1
            &&& after.summary == (Summary {
                errors: (run.summary.errors + 1) as usize,
                packages: after.summary.packages,
                ..run.summary
            })
            &&& after.summary.errors == run.summary.errors + 1
            &&& after.summary.packages == run.summary.packages + if run.step is RestorePackage {
                1int
            } else {
                0
            }
        }),
{
}

/// A library whose content is known is left out and counts as skipped; any other is restored next,
/// and its content is known from there on.
pub proof fn law_known_contents_are_left_out(run: RunModel, i: usize, content: Seq<char>)
    requires
        run.is_valid(),
        run.step == Step::Identify(i),
        run.summary.has_room(1),
    ensures
        ({
            let after = run.after(ResultModel::Identified(Some(content)));
            &&& after.step == Step::RestoreLibrary(i) <==> !run.seen.contains(content)
            &&& after.seen == run.seen.insert(content)
            &&& after.summary.skipped == run.summary.skipped + if run.seen.contains(content) {
                1int
            } else {
                0
            }
            &&& after.summary.unpacked == run.summary.unpacked
            &&& after.summary.errors == run.summary.errors
        }),
{
    if run.seen.contains(content) {
        assert(run.seen.insert(content) =~= run.seen);
    }
}

} // verus!

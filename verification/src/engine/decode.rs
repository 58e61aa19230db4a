//! Decoding a container, one segment and one writer at a time.
//!
//! Decryption and decompression happen outside. A run says which of them it needs next, takes the
//! bytes that came of it, and puts them where they belong. A step consumes the run, so nothing can
//! follow a step that failed.

use super::container::{encoded_segment, write_auxiliary};
use super::container::{DecodeStatistics, SegmentCursor, WriterStep};
use super::error::{Error, Result};
use super::writer::{lemma_write_size, write_decoded};
use crate::elf::layout::LayoutModel;
use crate::elf::ElfLayout;
use crate::engine::container;
use crate::engine::writer;
use crate::fold;
use crate::fold::lemma_failure_stays;
use vstd::prelude::*;

verus! {

/// Where decoded bytes go.
pub enum Sink<'a> {
    /// Into the file behind the segments of an image.
    Image { layout: &'a ElfLayout, load_end: u64 },
    /// Into the auxiliary image.
    Auxiliary,
}

/// The mathematical content of a [`Sink`].
pub enum SinkModel {
    Image { layout: LayoutModel, load_end: u64 },
    Auxiliary,
}

impl SinkModel {
    /// The output after `data` was written at `target`, and the number of bytes written.
    pub open spec fn written(self, output: Seq<u8>, target: u64, data: Seq<u8>) -> (
        Seq<u8>,
        Result<usize>,
    ) {
        match self {
            SinkModel::Image { layout, load_end } => writer::spec_write(
                output,
                layout,
                load_end,
                target,
                data,
            ),
            SinkModel::Auxiliary => container::spec_write_auxiliary(output, target, data),
        }
    }
}

impl<'a> View for Sink<'a> {
    type V = SinkModel;

    open spec fn view(&self) -> SinkModel {
        match self {
            Sink::Image { layout, load_end } => SinkModel::Image {
                layout: layout@,
                load_end: *load_end,
            },
            Sink::Auxiliary => SinkModel::Auxiliary,
        }
    }
}

impl<'a> Sink<'a> {
    /// Writes `data` into `output` at `target`.
    fn write(&self, output: &mut Vec<u8>, target: u64, data: &[u8]) -> (result: Result<usize>)
        ensures
            (final(output)@, result) == self@.written(old(output)@, target, data@),
            result matches Ok(written) ==> written <= data@.len(),
    {
        match self {
            Sink::Image { layout, load_end } => write_decoded(
                output.as_mut_slice(),
                layout,
                *load_end,
                target,
                data,
            ),
            Sink::Auxiliary => write_auxiliary(output, target, data),
        }
    }
}

/// What a run needs, or has to tell, before its next step.
#[derive(Debug, Clone, Copy, PartialEq, Eq, Structural)]
pub enum Request {
    /// The payload bytes from `start` to `end`, transformed into a segment.
    Transform { start: usize, end: usize, decrypt: bool },
    /// The bytes of the segment from `source_start` to `source_end`, decompressed.
    Decode { source_start: usize, source_end: usize, output_size: usize },
    /// Nothing: the next writer's bytes are at hand.
    Write,
    /// Nothing: all writers of the segment are done.
    Close { segment: usize, writers: usize, encoded: u32 },
    /// Nothing: all segments are done.
    Finish,
}

/// A container that is being decoded.
pub struct ContainerRun<'a> {
    pub sink: Sink<'a>,
    /// The bytes that the writers write into.
    pub output: Vec<u8>,
    /// Where the container starts in the payload.
    pub start: usize,
    /// Offset and size of each encoded segment.
    pub segments: Vec<(u32, u32)>,
    /// Whether the segments are encrypted.
    pub decrypt: bool,
    /// Number of segments that are done.
    pub done: usize,
    /// The segment whose writers are at work.
    pub segment: Vec<u8>,
    /// How far those writers have come; nothing between two segments.
    pub cursor: Option<SegmentCursor>,
    pub statistics: DecodeStatistics,
}

/// The mathematical content of a [`ContainerRun`].
#[verifier::ext_equal]
pub struct RunModel {
    pub sink: SinkModel,
    pub output: Seq<u8>,
    pub start: usize,
    pub segments: Seq<(u32, u32)>,
    pub decrypt: bool,
    pub done: usize,
    pub segment: Seq<u8>,
    pub cursor: Option<SegmentCursor>,
    pub statistics: DecodeStatistics,
}

impl<'a> View for ContainerRun<'a> {
    type V = RunModel;

    open spec fn view(&self) -> RunModel {
        RunModel {
            sink: self.sink@,
            output: self.output@,
            start: self.start,
            segments: self.segments@,
            decrypt: self.decrypt,
            done: self.done,
            segment: self.segment@,
            cursor: self.cursor,
            statistics: self.statistics,
        }
    }
}

/// The bytes that were handed to a run.
pub open spec fn bytes_of(delivered: Option<Vec<u8>>) -> Option<Seq<u8>> {
    match delivered {
        Some(bytes) => Some(bytes@),
        None => None,
    }
}

impl RunModel {
    /// A run before its first segment.
    pub open spec fn fresh(
        sink: SinkModel,
        output: Seq<u8>,
        start: usize,
        segments: Seq<(u32, u32)>,
        decrypt: bool,
    ) -> RunModel {
        RunModel {
            sink,
            output,
            start,
            segments,
            decrypt,
            done: 0,
            segment: Seq::empty(),
            cursor: None,
            statistics: DecodeStatistics {
                segments: segments.len() as usize,
                writers: 0,
                compressed_writers: 0,
                encoded_bytes: 0,
                decoded_bytes: 0,
                file_bytes_written: 0,
            },
        }
    }

    /// The segment that is at work is one of the container's, and its writers lie within it.
    pub open spec fn well_formed(self) -> bool {
        &&& self.done <= self.segments.len() <= usize::MAX
        &&& self.cursor matches Some(cursor) ==> {
            &&& self.done < self.segments.len()
            &&& cursor.within(self.segment)
        }
    }

    /// All segments are done.
    pub open spec fn finished(self) -> bool {
        self.cursor is None && self.done == self.segments.len()
    }

    /// What is needed before the next step, or why there is no next step.
    pub open spec fn spec_request(self, payload: Seq<u8>) -> Result<Request> {
        match self.cursor {
            None => if self.finished() {
                Ok(Request::Finish)
            } else {
                let (offset, size) = self.segments[self.done as int];
                match container::spec_encoded_segment(payload, self.start, offset, size) {
                    Err(e) => Err(e),
                    Ok(encoded) => Ok(
                        Request::Transform {
                            start: (self.start + offset) as usize,
                            end: (self.start + offset + size) as usize,
                            decrypt: self.decrypt,
                        },
                    ),
                }
            },
            Some(cursor) => match cursor.spec_next(self.segment) {
                Err(e) => Err(e),
                Ok(None) => Ok(
                    Request::Close {
                        segment: self.done,
                        writers: cursor.writer_count,
                        encoded: self.segments[self.done as int].1,
                    },
                ),
                Ok(Some(step)) => if step.compressed {
                    Ok(
                        Request::Decode {
                            source_start: step.source_start,
                            source_end: step.source_end,
                            output_size: step.output_size,
                        },
                    )
                } else {
                    Ok(Request::Write)
                },
            },
        }
    }

    /// The writer that comes next.
    pub open spec fn pending(self) -> Option<WriterStep> {
        match self.cursor {
            None => None,
            Some(cursor) => match cursor.spec_next(self.segment) {
                Ok(step) => step,
                Err(_) => None,
            },
        }
    }

    /// The next step takes bytes from outside.
    pub open spec fn awaits(self) -> bool {
        match self.cursor {
            None => true,
            Some(_) => self.pending() matches Some(step) && step.compressed,
        }
    }

    /// The bytes that `step` writes.
    pub open spec fn data(self, step: WriterStep, delivered: Option<Seq<u8>>) -> Seq<u8> {
        if step.compressed {
            delivered->0
        } else {
            self.segment.subrange(step.source_start as int, step.source_end as int)
        }
    }

    /// The run is not over, is handed bytes exactly where it needs them, and has room in its
    /// counters.
    pub open spec fn ready(self, delivered: Option<Seq<u8>>) -> bool {
        &&& !self.finished()
        &&& self.awaits() == (delivered is Some)
        &&& self.pending() matches Some(step) ==> {
            &&& self.data(step, delivered).len() <= usize::MAX
            &&& self.statistics.has_room(step, self.data(step, delivered).len() as usize)
        }
    }

    /// The run after its next step, or the error with which it ends.
    pub open spec fn spec_step(self, delivered: Option<Seq<u8>>) -> Result<RunModel> {
        match self.cursor {
            None => match SegmentCursor::spec_open(delivered->0, self.done) {
                Err(e) => Err(e),
                Ok(cursor) => Ok(
                    RunModel { segment: delivered->0, cursor: Some(cursor), ..self },
                ),
            },
            Some(cursor) => match cursor.spec_next(self.segment) {
                Err(e) => Err(e),
                Ok(None) => Ok(
                    RunModel {
                        done: (self.done + 1) as usize,
                        segment: Seq::empty(),
                        cursor: None,
                        ..self
                    },
                ),
                Ok(Some(step)) => match self.sink.written(
                    self.output,
                    step.target,
                    self.data(step, delivered),
                ) {
                    (_, Err(e)) => Err(e),
                    (output, Ok(written)) => Ok(
                        RunModel {
                            output,
                            cursor: Some(cursor.advanced(step)),
                            statistics: self.statistics.counted(step, written),
                            ..self
                        },
                    ),
                },
            },
        }
    }
}

/// A step of a run agrees with its mathematical counterpart.
pub open spec fn run_agrees(result: Result<ContainerRun>, expected: Result<RunModel>) -> bool {
    match (result, expected) {
        (Ok(found), Ok(wanted)) => found@ == wanted && found@.well_formed(),
        (Err(found), Err(wanted)) => found == wanted,
        _ => false,
    }
}

impl<'a> ContainerRun<'a> {
    /// Starts to decode a container. Its segments are encrypted unless the module or the
    /// container's own header says that they are not.
    pub fn new(
        sink: Sink<'a>,
        output: Vec<u8>,
        start: usize,
        segments: Vec<(u32, u32)>,
        module_skips: bool,
        container_skips: bool,
    ) -> (run: ContainerRun<'a>)
        ensures
            run@ == RunModel::fresh(
                sink@,
                output@,
                start,
                segments@,
                !module_skips && !container_skips,
            ),
            run@.well_formed(),
    {
        let count: usize = segments.len();
        ContainerRun {
            sink,
            output,
            start,
            segments,
            decrypt: !(module_skips || container_skips),
            done: 0,
            segment: Vec::new(),
            cursor: None,
            statistics: DecodeStatistics::new(count),
        }
    }

    /// What the run needs before its next step.
    pub fn request(&self, payload: &[u8]) -> (result: Result<Request>)
        requires
            self@.well_formed(),
        ensures
            result == self@.spec_request(payload@),
            match result {
                Ok(Request::Transform { start, end, .. }) => start <= end <= payload@.len(),
                Ok(Request::Decode { source_start, source_end, .. }) => source_start <= source_end
                    <= self@.segment.len(),
                _ => true,
            },
    {
        match &self.cursor {
            None => {
                if self.done == self.segments.len() {
                    return Ok(Request::Finish);
                }
                let (offset, size) = self.segments[self.done];
                match encoded_segment(payload, self.start, offset, size) {
                    Err(e) => Err(e),
                    Ok(_) => {
                        let start: usize = self.start + offset as usize;
                        Ok(
                            Request::Transform {
                                start,
                                end: start + size as usize,
                                decrypt: self.decrypt,
                            },
                        )
                    },
                }
            },
            Some(cursor) => match cursor.next(&self.segment) {
                Err(e) => Err(e),
                Ok(None) => {
                    let (_, encoded) = self.segments[self.done];
                    Ok(
                        Request::Close {
                            segment: self.done,
                            writers: cursor.writer_count,
                            encoded,
                        },
                    )
                },
                Ok(Some(step)) => {
                    if step.compressed {
                        Ok(
                            Request::Decode {
                                source_start: step.source_start,
                                source_end: step.source_end,
                                output_size: step.output_size,
                            },
                        )
                    } else {
                        Ok(Request::Write)
                    }
                },
            },
        }
    }

    /// Whether the run can take its next step with what it is handed.
    pub fn is_ready(&self, delivered: &Option<Vec<u8>>) -> (result: bool)
        requires
            self@.well_formed(),
        ensures
            result == self@.ready(bytes_of(*delivered)),
    {
        match &self.cursor {
            None => self.done < self.segments.len() && delivered.is_some(),
            Some(cursor) => match cursor.next(&self.segment) {
                Ok(Some(step)) => match delivered {
                    Some(bytes) => step.compressed && self.statistics.can_count(
                        &step,
                        bytes.len(),
                    ),
                    None => !step.compressed && self.statistics.can_count(
                        &step,
                        step.source_end - step.source_start,
                    ),
                },
                _ => delivered.is_none(),
            },
        }
    }

    /// Takes the next step, with the bytes that were asked for where there are any.
    pub fn step(self, delivered: Option<Vec<u8>>) -> (result: Result<ContainerRun<'a>>)
        requires
            self@.well_formed(),
            self@.ready(bytes_of(delivered)),
        ensures
            run_agrees(result, self@.spec_step(bytes_of(delivered))),
    {
        let mut run = self;
        match run.cursor {
            None => {
                let segment = match delivered {
                    Some(segment) => segment,
                    None => Vec::new(),
                };
                let cursor = SegmentCursor::open(&segment, run.done)?;
                run.segment = segment;
                run.cursor = Some(cursor);
            },
            Some(mut cursor) => match cursor.next(&run.segment)? {
                None => {
                    run.done = run.done + 1;
                    run.segment = Vec::new();
                    run.cursor = None;
                },
                Some(step) => {
                    let written = match &delivered {
                        Some(bytes) => run.sink.write(&mut run.output, step.target, bytes)?,
                        None => run.sink.write(
                            &mut run.output,
                            step.target,
                            &run.segment[step.source_start..step.source_end],
                        )?,
                    };
                    run.statistics.count(&step, written);
                    cursor.advance(&step);
                    run.cursor = Some(cursor);
                },
            },
        }
        Ok(run)
    }
}

/// A run after `n` steps, with what each of them was handed, or the error with which it ended.
pub open spec fn after_steps(run: RunModel, delivered: Seq<Option<Seq<u8>>>, n: nat) -> Result<
    RunModel,
> {
    fold::try_fold(n, run, |state: RunModel, i: int| state.spec_step(delivered[i]))
}

/// A step that fails ends the run: whatever would have followed, the error stands.
pub proof fn law_failed_step_ends_run(
    run: RunModel,
    delivered: Seq<Option<Seq<u8>>>,
    i: nat,
    n: nat,
)
    requires
        i <= n,
        after_steps(run, delivered, i) is Err,
    ensures
        after_steps(run, delivered, n) == after_steps(run, delivered, i),
{
    lemma_failure_stays(i, n, run, |state: RunModel, k: int| state.spec_step(delivered[k]));
}

/// The first writer that fails ends the run with its error: no later writer comes to its turn.
pub proof fn law_failing_writer_ends_run(
    run: RunModel,
    delivered: Seq<Option<Seq<u8>>>,
    i: nat,
    n: nat,
)
    requires
        i < n,
        after_steps(run, delivered, i) is Ok,
        ({
            let state = after_steps(run, delivered, i)->Ok_0;
            &&& state.pending() is Some
            &&& state.sink.written(
                state.output,
                state.pending()->0.target,
                state.data(state.pending()->0, delivered[i as int]),
            ).1 is Err
        }),
    ensures
        ({
            let state = after_steps(run, delivered, i)->Ok_0;
            after_steps(run, delivered, n) == Err::<RunModel, _>(
                state.sink.written(
                    state.output,
                    state.pending()->0.target,
                    state.data(state.pending()->0, delivered[i as int]),
                ).1->Err_0,
            )
        }),
{
    law_failed_step_ends_run(run, delivered, i + 1, n);
}

/// A write into a sink keeps the size of the output.
proof fn lemma_sink_keeps_size(sink: SinkModel, output: Seq<u8>, target: u64, data: Seq<u8>)
    ensures
        sink.written(output, target, data).0.len() == output.len(),
{
    if let SinkModel::Image { layout, load_end } = sink {
        lemma_write_size(output, layout, load_end, target, data);
    }
}

/// A step keeps what the run decodes and how much room it decodes into, and leaves it sound.
pub proof fn law_step_keeps_container(run: RunModel, delivered: Option<Seq<u8>>)
    requires
        run.well_formed(),
        !run.finished(),
        run.awaits() ==> delivered is Some && delivered->0.len() <= usize::MAX,
        run.spec_step(delivered) is Ok,
    ensures
        ({
            let next = run.spec_step(delivered)->Ok_0;
            &&& next.well_formed()
            &&& next.sink == run.sink
            &&& next.start == run.start
            &&& next.segments == run.segments
            &&& next.decrypt == run.decrypt
            &&& next.output.len() == run.output.len()
        }),
{
    if let Some(step) = run.pending() {
        lemma_sink_keeps_size(run.sink, run.output, step.target, run.data(step, delivered));
    }
}

/// Every step moves the run on: it opens the next segment, does the next writer of the open one, or
/// leaves it behind when its writers are done. So a run comes to an end.
pub proof fn law_step_moves_on(run: RunModel, delivered: Option<Seq<u8>>)
    requires
        run.well_formed(),
        !run.finished(),
        run.spec_step(delivered) is Ok,
    ensures
        ({
            let next = run.spec_step(delivered)->Ok_0;
            match (run.cursor, next.cursor) {
                (None, Some(cursor)) => next.done == run.done && cursor.writer == 0,
                (Some(before), Some(cursor)) => {
                    &&& next.done == run.done
                    &&& cursor.writer == before.writer + 1
                    &&& cursor.writer <= cursor.writer_count == before.writer_count
                },
                (Some(before), None) => {
                    &&& next.done == run.done + 1
                    &&& before.writer == before.writer_count
                },
                (None, None) => false,
            }
        }),
{
}

/// A run that took `n + 1` steps took its last one where the first `n` had left it.
proof fn lemma_last_step(run: RunModel, delivered: Seq<Option<Seq<u8>>>, n: nat)
    requires
        after_steps(run, delivered, n + 1) is Ok,
    ensures
        after_steps(run, delivered, n) is Ok,
        after_steps(run, delivered, n + 1) == after_steps(run, delivered, n)->Ok_0.spec_step(
            delivered[n as int],
        ),
{
}

/// While writers are left, a step does the next one.
proof fn lemma_writer_step(run: RunModel, delivered: Option<Seq<u8>>)
    requires
        run.cursor is Some,
        run.cursor->0.writer < run.cursor->0.writer_count <= usize::MAX,
        run.spec_step(delivered) is Ok,
    ensures
        run.pending() is Some,
        run.cursor->0.spec_next(run.segment) == Ok::<_, Error>(run.pending()),
        ({
            let next = run.spec_step(delivered)->Ok_0;
            let step = run.pending()->0;
            &&& next.done == run.done
            &&& next.segment == run.segment
            &&& next.cursor == Some(run.cursor->0.advanced(step))
            &&& next.output == run.sink.written(
                run.output,
                step.target,
                run.data(step, delivered),
            ).0
        }),
{
}

/// The cursor after one more writer.
proof fn lemma_one_more_writer(segment: Seq<u8>, start: SegmentCursor, n: nat)
    requires
        n > 0,
        container::after_writers(segment, start, (n - 1) as nat) matches Some(cursor)
            && cursor.spec_next(segment) matches Ok(Some(_)),
    ensures
        ({
            let cursor = container::after_writers(segment, start, (n - 1) as nat)->0;
            container::after_writers(segment, start, n) == Some(
                cursor.advanced(cursor.spec_next(segment)->Ok_0->0),
            )
        }),
{
}

/// The writers of a segment do their work in the order of their records, each once, and each on
/// the output that the ones before it have left.
pub proof fn law_writers_run_in_order(run: RunModel, delivered: Seq<Option<Seq<u8>>>, n: nat)
    requires
        run.well_formed(),
        run.cursor is None,
        run.spec_step(delivered[0]) is Ok,
        after_steps(run, delivered, n + 1) is Ok,
        n <= run.spec_step(delivered[0])->Ok_0.cursor->0.writer_count,
    ensures
        ({
            let opened = SegmentCursor::spec_open(delivered[0]->0, run.done)->Ok_0;
            let state = after_steps(run, delivered, n + 1)->Ok_0;
            &&& state.done == run.done
            &&& state.segment == delivered[0]->0
            &&& state.cursor == container::after_writers(state.segment, opened, n)
            &&& state.cursor is Some
            &&& state.cursor->0.writer == n
            &&& state.cursor->0.writer_count == opened.writer_count
            &&& n == 0 ==> state.output == run.output
            &&& n > 0 ==> {
                let before = after_steps(run, delivered, n)->Ok_0;
                let step = before.pending()->0;
                state.output == before.sink.written(
                    before.output,
                    step.target,
                    before.data(step, delivered[n as int]),
                ).0
            }
        }),
    decreases n,
{
    let opened = SegmentCursor::spec_open(delivered[0]->0, run.done)->Ok_0;
    if n == 0 {
        lemma_last_step(run, delivered, 0);
    } else {
        lemma_last_step(run, delivered, n);
        law_writers_run_in_order(run, delivered, (n - 1) as nat);
        let before = after_steps(run, delivered, n)->Ok_0;
        lemma_writer_step(before, delivered[n as int]);
        lemma_one_more_writer(before.segment, opened, n);
    }
}

} // verus!

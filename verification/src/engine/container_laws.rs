//! What the records of a decoded segment mean, byte by byte.

use super::container;
use super::container::{SegmentCursor, WriterStep};
use super::decode::{Request, RunModel, SinkModel};
use super::error::Error;
use super::writer;
use crate::bytes;
use crate::elf::layout::LayoutModel;
use vstd::prelude::*;

verus! {

/// Where the record of writer `n` starts in a segment: the table's place is the third word, and a
/// record takes sixteen bytes.
pub open spec fn record_place(segment: Seq<u8>, n: int) -> int {
    bytes::u32_at(segment, 8) + n * 16
}

/// Where the data of writer `n` starts: the fourth word of the segment says where the first
/// writer's data is, and the third word of each record how many bytes a writer has.
pub open spec fn data_place(segment: Seq<u8>, n: nat) -> int
    decreases n,
{
    if n == 0 {
        bytes::u32_at(segment, 12) as int
    } else {
        data_place(segment, (n - 1) as nat) + bytes::u32_at(
            segment,
            record_place(segment, n - 1) + 8,
        )
    }
}

/// The record of writer `n` ends in a zero word, and the writer's data lies in the segment.
pub open spec fn is_sound_writer(segment: Seq<u8>, n: int) -> bool {
    bytes::u32_at(segment, record_place(segment, n) + 12) == 0 && data_place(segment, (n + 1) as nat)
        <= segment.len()
}

/// A segment can be walked through exactly when it has room for its header of four words, for as
/// many records of sixteen bytes as the second word says at the place in the third, and when the
/// place in the fourth lies in it.
pub proof fn law_segment_header(segment: Seq<u8>, number: usize)
    requires
        segment.len() <= usize::MAX,
    ensures
        SegmentCursor::spec_open(segment, number) is Ok <==> {
            &&& segment.len() >= 16
            &&& bytes::u32_at(segment, 8) + bytes::u32_at(segment, 4) * 16 <= segment.len()
            &&& bytes::u32_at(segment, 12) <= segment.len()
        },
        SegmentCursor::spec_open(segment, number) matches Ok(cursor) ==> {
            &&& cursor.segment == number
            &&& cursor.base_offset == bytes::u32_at(segment, 0)
            &&& cursor.writer_count == bytes::u32_at(segment, 4)
            &&& cursor.table_offset == bytes::u32_at(segment, 8)
            &&& cursor.writer == 0
            &&& cursor.data == bytes::u32_at(segment, 12)
        },
{
}

/// The cursor after `n` sound writers stands at writer `n` and its data.
pub proof fn lemma_cursor(segment: Seq<u8>, number: usize, n: nat)
    requires
        segment.len() <= usize::MAX,
        SegmentCursor::spec_open(segment, number) is Ok,
        n <= bytes::u32_at(segment, 4),
        forall|k: int| 0 <= k < n ==> #[trigger] is_sound_writer(segment, k),
    ensures
        0 <= data_place(segment, n) <= segment.len(),
        container::after_writers(
            segment,
            SegmentCursor::spec_open(segment, number)->Ok_0,
            n,
        ) == Some(
            SegmentCursor {
                segment: number,
                base_offset: bytes::u32_at(segment, 0),
                writer_count: bytes::u32_at(segment, 4) as usize,
                table_offset: bytes::u32_at(segment, 8) as usize,
                writer: n as usize,
                data: data_place(segment, n) as usize,
            },
        ),
    decreases n,
{
    law_segment_header(segment, number);
    if n > 0 {
        lemma_cursor(segment, number, (n - 1) as nat);
        assert(is_sound_writer(segment, n - 1));
        assert((n - 1 + 1) as nat == n);
    }
}

/// What a writer does stands in its record: its first word says how far behind the segment's base
/// address the data goes, its second word how much data that is, and its third word how many bytes
/// it is made from, which are compressed when there are fewer or more of them. The bytes of the
/// writers follow each other. A writer that is not sound is refused, and behind the last writer
/// there is none.
pub proof fn law_writer_record(segment: Seq<u8>, number: usize, n: nat)
    requires
        segment.len() <= usize::MAX,
        SegmentCursor::spec_open(segment, number) is Ok,
        n <= bytes::u32_at(segment, 4),
        forall|k: int| 0 <= k < n ==> #[trigger] is_sound_writer(segment, k),
    ensures
        ({
            let start = SegmentCursor::spec_open(segment, number)->Ok_0;
            let next = container::after_writers(segment, start, n)->0.spec_next(segment);
            let record = record_place(segment, n as int);
            let (output_size, encoded_size) = (
                bytes::u32_at(segment, record + 4),
                bytes::u32_at(segment, record + 8),
            );
            &&& container::after_writers(segment, start, n) is Some
            &&& n == bytes::u32_at(segment, 4) ==> next == Ok::<Option<WriterStep>, Error>(None)
            &&& n < bytes::u32_at(segment, 4) ==> {
                &&& next is Ok <==> is_sound_writer(segment, n as int)
                &&& next matches Ok(found) ==> found is Some && {
                    let step = found->0;
                    &&& step.target == bytes::u32_at(segment, 0) + bytes::u32_at(segment, record)
                    &&& step.source_start == data_place(segment, n)
                    &&& step.source_end == data_place(segment, n) + encoded_size
                    &&& step.output_size == output_size
                    &&& step.compressed <==> output_size != encoded_size
                }
            }
        }),
{
    lemma_cursor(segment, number, n);
    assert(data_place(segment, n + 1) == data_place(segment, n) + bytes::u32_at(
        segment,
        record_place(segment, n as int) + 8,
    ));
}

/// Two writers of one segment write as far apart as their records say, and one whose record says
/// zero writes at the segment's base address.
pub proof fn law_targets_keep_their_distance(segment: Seq<u8>, number: usize, a: nat, b: nat)
    requires
        segment.len() <= usize::MAX,
        SegmentCursor::spec_open(segment, number) is Ok,
        a < bytes::u32_at(segment, 4),
        b < bytes::u32_at(segment, 4),
        forall|k: int|
            0 <= k < bytes::u32_at(segment, 4) ==> #[trigger] is_sound_writer(segment, k),
    ensures
        ({
            let start = SegmentCursor::spec_open(segment, number)->Ok_0;
            let first = container::after_writers(segment, start, a)->0.spec_next(segment)->Ok_0->0;
            let second = container::after_writers(segment, start, b)->0.spec_next(segment)->Ok_0->0;
            let (x, y) = (
                bytes::u32_at(segment, record_place(segment, a as int)),
                bytes::u32_at(segment, record_place(segment, b as int)),
            );
            &&& first.target - second.target == x - y
            &&& x == 0 ==> first.target == bytes::u32_at(segment, 0)
        }),
{
    law_writer_record(segment, number, a);
    law_writer_record(segment, number, b);
    assert(is_sound_writer(segment, a as int));
    assert(is_sound_writer(segment, b as int));
}

/// A write into the auxiliary image puts the bytes at their offset and keeps all others; it is
/// refused exactly when they do not fit.
pub proof fn law_auxiliary_write(image: Seq<u8>, offset: u64, data: Seq<u8>, i: int)
    requires
        image.len() <= usize::MAX,
    ensures
        ({
            let (after, result) = container::spec_write_auxiliary(image, offset, data);
            &&& after.len() == image.len()
            &&& result is Ok <==> offset + data.len() <= image.len()
            &&& result matches Ok(written) ==> written == data.len()
            &&& result is Err ==> after == image
            &&& result is Ok && 0 <= i < image.len() ==> after[i] == if offset <= i < offset
                + data.len() {
                data[i - offset]
            } else {
                image[i]
            }
        }),
{
}

/// The encoded bytes of a segment are those of its size from its offset behind the start of the
/// container on, and there are none exactly when the payload ends before.
pub proof fn law_encoded_segment(payload: Seq<u8>, start: usize, offset: u32, size: u32)
    requires
        payload.len() <= usize::MAX,
    ensures
        container::spec_encoded_segment(payload, start, offset, size) is Ok <==> start + offset
            + size <= payload.len(),
        container::spec_encoded_segment(payload, start, offset, size) matches Ok(encoded)
            ==> encoded == payload.subrange(start + offset, start + offset + size),
{
}

/// Between two segments a run asks for the bytes of the next one, as the container's header lists
/// them, and for their decryption unless that is off; behind the last segment it is done.
pub proof fn law_run_asks_for_the_next_segment(run: RunModel, payload: Seq<u8>)
    requires
        payload.len() <= usize::MAX,
        run.well_formed(),
        run.cursor is None,
    ensures
        run.done == run.segments.len() ==> run.spec_request(payload) == Ok::<Request, Error>(
            Request::Finish,
        ),
        run.done < run.segments.len() ==> {
            let (offset, size) = run.segments[run.done as int];
            &&& run.spec_request(payload) is Ok <==> run.start + offset + size <= payload.len()
            &&& run.spec_request(payload) matches Ok(request) ==> request == (Request::Transform {
                start: (run.start + offset) as usize,
                end: (run.start + offset + size) as usize,
                decrypt: run.decrypt,
            })
        },
{
}

/// While a segment is open, a run asks to decompress a writer's bytes exactly when their number is
/// not that of the data, and says that a segment is done when its writers are.
pub proof fn law_run_asks_for_the_next_writer(
    run: RunModel,
    payload: Seq<u8>,
    number: usize,
    n: nat,
)
    requires
        run.segment.len() <= usize::MAX,
        SegmentCursor::spec_open(run.segment, number) is Ok,
        n <= bytes::u32_at(run.segment, 4),
        forall|k: int| 0 <= k < n ==> #[trigger] is_sound_writer(run.segment, k),
        run.cursor == container::after_writers(
            run.segment,
            SegmentCursor::spec_open(run.segment, number)->Ok_0,
            n,
        ),
    ensures
        ({
            let record = record_place(run.segment, n as int);
            let (output_size, encoded_size) = (
                bytes::u32_at(run.segment, record + 4),
                bytes::u32_at(run.segment, record + 8),
            );
            let start = data_place(run.segment, n);
            &&& n == bytes::u32_at(run.segment, 4) ==> run.spec_request(payload) == Ok::<
                Request,
                Error,
            >(
                Request::Close {
                    segment: run.done,
                    writers: n as usize,
                    encoded: run.segments[run.done as int].1,
                },
            )
            &&& n < bytes::u32_at(run.segment, 4) && is_sound_writer(run.segment, n as int)
                ==> run.spec_request(payload) == Ok::<Request, Error>(
                if output_size == encoded_size {
                    Request::Write
                } else {
                    Request::Decode {
                        source_start: start as usize,
                        source_end: (start + encoded_size) as usize,
                        output_size: output_size as usize,
                    }
                },
            )
            &&& n < bytes::u32_at(run.segment, 4) && !is_sound_writer(run.segment, n as int)
                ==> run.spec_request(payload) is Err
        }),
{
    law_writer_record(run.segment, number, n);
    lemma_cursor(run.segment, number, n);
}

/// The step that does writer `n` hands its data to the sink at the writer's address: bytes of the
/// segment where they are not compressed, else the bytes that were delivered. The counters grow by
/// one writer, by the sizes in its record, and by what went into the file.
pub proof fn law_step_does_the_writer(
    run: RunModel,
    delivered: Option<Seq<u8>>,
    number: usize,
    n: nat,
)
    requires
        run.segment.len() <= usize::MAX,
        SegmentCursor::spec_open(run.segment, number) is Ok,
        n < bytes::u32_at(run.segment, 4),
        forall|k: int| 0 <= k <= n ==> #[trigger] is_sound_writer(run.segment, k),
        run.cursor == container::after_writers(
            run.segment,
            SegmentCursor::spec_open(run.segment, number)->Ok_0,
            n,
        ),
        run.ready(delivered),
    ensures
        ({
            let record = record_place(run.segment, n as int);
            let target = (bytes::u32_at(run.segment, 0) + bytes::u32_at(
                run.segment,
                record,
            )) as u64;
            let (output_size, encoded_size) = (
                bytes::u32_at(run.segment, record + 4),
                bytes::u32_at(run.segment, record + 8),
            );
            let start = data_place(run.segment, n);
            let data = if output_size == encoded_size {
                run.segment.subrange(start, start + encoded_size)
            } else {
                delivered->0
            };
            let (output, written) = run.sink.written(run.output, target, data);
            let (before, counted) = (
                run.statistics,
                run.spec_step(delivered)->Ok_0.statistics,
            );
            &&& run.spec_step(delivered) is Ok <==> written is Ok
            &&& run.spec_step(delivered) is Ok && written->Ok_0 <= data.len() ==> {
                &&& run.spec_step(delivered)->Ok_0.output == output
                &&& counted.segments == before.segments
                &&& counted.writers == before.writers + 1
                &&& counted.compressed_writers - before.compressed_writers == if output_size
                    == encoded_size {
                    0int
                } else {
                    1int
                }
                &&& counted.encoded_bytes == before.encoded_bytes + encoded_size
                &&& counted.decoded_bytes == before.decoded_bytes + output_size
                &&& counted.file_bytes_written == before.file_bytes_written + written->Ok_0
            }
        }),
{
    assert(is_sound_writer(run.segment, n as int));
    law_writer_record(run.segment, number, n);
    lemma_cursor(run.segment, number, n);
}

/// A run starts with nothing done and nothing counted but the number of its segments.
pub proof fn law_run_starts_fresh(
    sink: SinkModel,
    output: Seq<u8>,
    start: usize,
    segments: Seq<(u32, u32)>,
    decrypt: bool,
)
    requires
        segments.len() <= usize::MAX,
    ensures
        ({
            let run = RunModel::fresh(sink, output, start, segments, decrypt);
            &&& run.sink == sink && run.output == output && run.start == start
            &&& run.segments == segments && run.decrypt == decrypt
            &&& run.done == 0 && run.cursor is None
            &&& run.statistics.segments == segments.len()
            &&& run.statistics.writers == 0 && run.statistics.compressed_writers == 0
            &&& run.statistics.encoded_bytes == 0 && run.statistics.decoded_bytes == 0
            &&& run.statistics.file_bytes_written == 0
        }),
{
}

/// What goes into an image is written where its memory lies in the file, and what goes into the
/// auxiliary image at its own offset.
pub proof fn law_sinks(
    layout: LayoutModel,
    load_end: u64,
    output: Seq<u8>,
    target: u64,
    data: Seq<u8>,
)
    ensures
        (SinkModel::Image { layout, load_end }).written(output, target, data) == writer::spec_write(
            output,
            layout,
            load_end,
            target,
            data,
        ),
        SinkModel::Auxiliary.written(output, target, data) == container::spec_write_auxiliary(
            output,
            target,
            data,
        ),
{
}

/// A segment is opened with the bytes that were delivered for it, exactly when its header can be
/// used, and it is left behind with what its writers wrote.
pub proof fn law_segments_are_opened_and_left(run: RunModel, delivered: Option<Seq<u8>>)
    requires
        run.well_formed(),
        !run.finished(),
    ensures
        ({
            let next = run.spec_step(delivered);
            let opened = SegmentCursor::spec_open(delivered->0, run.done);
            &&& run.cursor is None ==> (next is Ok <==> opened is Ok)
            &&& run.cursor is None && next is Ok ==> {
                &&& next->Ok_0.segment == delivered->0
                &&& next->Ok_0.cursor == Some(opened->Ok_0)
                &&& next->Ok_0.output == run.output
                &&& next->Ok_0.statistics == run.statistics
            }
            &&& run.cursor is Some && next is Ok && next->Ok_0.cursor is None ==> {
                &&& next->Ok_0.output == run.output
                &&& next->Ok_0.statistics == run.statistics
            }
            &&& run.cursor is Some && next is Ok && next->Ok_0.cursor is Some ==> next->Ok_0.segment
                == run.segment
        }),
{
}

} // verus!

//! Walking through the decoded segments of a container.
//!
//! The segments themselves are decrypted and their data decompressed outside; the functions here
//! say which bytes go into those steps and where their results belong.

use super::error::{invalid, Error, Fault, Result};
use crate::bytes;
use crate::bytes::{load_u32, store};
use crate::elf::read;
use crate::elf::{slice, usize_from_u64};
use crate::engine::error;
use vstd::prelude::*;

verus! {

/// Container decoding counters.
#[derive(Debug, Clone, Copy, PartialEq, Eq, Structural)]
pub struct DecodeStatistics {
    pub segments: usize,
    pub writers: usize,
    pub compressed_writers: usize,
    pub encoded_bytes: u64,
    pub decoded_bytes: u64,
    pub file_bytes_written: u64,
}

/// How far the writers of a decoded segment have come.
#[derive(Debug, Clone, Copy, PartialEq, Eq, Structural)]
pub struct SegmentCursor {
    /// Number of the segment, for messages.
    pub segment: usize,
    /// Address that all writers of the segment start from.
    pub base_offset: u32,
    pub writer_count: usize,
    pub table_offset: usize,
    /// The next writer.
    pub writer: usize,
    /// Where the next writer's data starts.
    pub data: usize,
}

/// What one writer does.
#[derive(Debug, Clone, Copy, PartialEq, Eq, Structural)]
pub struct WriterStep {
    /// Address that the data goes to.
    pub target: u64,
    /// Start of the writer's bytes in the segment.
    pub source_start: usize,
    /// End of the writer's bytes in the segment.
    pub source_end: usize,
    /// Size of the data that goes to the target.
    pub output_size: usize,
    /// Whether the bytes have to be decompressed first.
    pub compressed: bool,
}

impl DecodeStatistics {
    /// The counters of a container with `segments` segments before its first writer.
    pub fn new(segments: usize) -> (statistics: DecodeStatistics)
        ensures
            statistics == (DecodeStatistics {
                segments,
                writers: 0,
                compressed_writers: 0,
                encoded_bytes: 0,
                decoded_bytes: 0,
                file_bytes_written: 0,
            }),
    {
        DecodeStatistics {
            segments,
            writers: 0,
            compressed_writers: 0,
            encoded_bytes: 0,
            decoded_bytes: 0,
            file_bytes_written: 0,
        }
    }

    /// There is room to count a writer that put `file_bytes` bytes into the file.
    pub open spec fn has_room(self, step: WriterStep, file_bytes: usize) -> bool {
        &&& self.writers < usize::MAX
        &&& self.compressed_writers < usize::MAX
        &&& step.source_start <= step.source_end
        &&& self.encoded_bytes + (step.source_end - step.source_start) <= u64::MAX
        &&& self.decoded_bytes + step.output_size <= u64::MAX
        &&& self.file_bytes_written + file_bytes <= u64::MAX
    }

    /// The counters after a writer that put `file_bytes` bytes into the file.
    pub open spec fn counted(self, step: WriterStep, file_bytes: usize) -> DecodeStatistics {
        DecodeStatistics {
            segments: self.segments,
            writers: (self.writers + 1) as usize,
            compressed_writers: if step.compressed {
                (self.compressed_writers + 1) as usize
            } else {
                self.compressed_writers
            },
            encoded_bytes: (self.encoded_bytes + (step.source_end - step.source_start)) as u64,
            decoded_bytes: (self.decoded_bytes + step.output_size) as u64,
            file_bytes_written: (self.file_bytes_written + file_bytes) as u64,
        }
    }

    /// Whether there is room to count a writer that put `file_bytes` bytes into the file.
    pub fn can_count(&self, step: &WriterStep, file_bytes: usize) -> (result: bool)
        ensures
            result == self.has_room(*step, file_bytes),
    {
        self.writers < usize::MAX && self.compressed_writers < usize::MAX && step.source_start
            <= step.source_end && self.encoded_bytes.checked_add(
            (step.source_end - step.source_start) as u64,
        ).is_some() && self.decoded_bytes.checked_add(step.output_size as u64).is_some()
            && self.file_bytes_written.checked_add(file_bytes as u64).is_some()
    }

    /// Counts a writer that put `file_bytes` bytes into the file.
    pub fn count(&mut self, step: &WriterStep, file_bytes: usize)
        requires
            old(self).has_room(*step, file_bytes),
        ensures
            *final(self) == old(self).counted(*step, file_bytes),
    {
        self.writers = self.writers + 1;
        if step.compressed {
            self.compressed_writers = self.compressed_writers + 1;
        }
        self.encoded_bytes = self.encoded_bytes + (step.source_end - step.source_start) as u64;
        self.decoded_bytes = self.decoded_bytes + step.output_size as u64;
        self.file_bytes_written = self.file_bytes_written + file_bytes as u64;
    }
}

/// The encoded bytes of a segment `offset` bytes into a container, or why they cannot be had.
pub open spec fn spec_encoded_segment(
    payload: Seq<u8>,
    container: usize,
    offset: u32,
    size: u32,
) -> Result<Seq<u8>> {
    if container + offset > usize::MAX {
        Err(Error::Invalid(Fault::Overflow { field: "encoded segment start" }))
    } else {
        error::lifted(read::spec_slice(payload, container + offset, size as int))
    }
}

/// The encoded bytes of a segment `offset` bytes into a container that starts at `container`.
pub fn encoded_segment(payload: &[u8], container: usize, offset: u32, size: u32) -> (result: Result<
    &[u8],
>)
    ensures
        match (result, spec_encoded_segment(payload@, container, offset, size)) {
            (Ok(found), Ok(wanted)) => found@ == wanted,
            (Err(found), Err(wanted)) => found == wanted,
            _ => false,
        },
{
    let start = match container.checked_add(offset as usize) {
        Some(start) => start,
        None => return invalid(Fault::Overflow { field: "encoded segment start" }),
    };
    match slice(payload, start, size as usize) {
        Ok(encoded) => Ok(encoded),
        Err(e) => Err(Error::Elf(e)),
    }
}

impl SegmentCursor {
    /// The writers' table lies in the segment, and so does the next writer's data.
    pub open spec fn within(self, segment: Seq<u8>) -> bool {
        &&& self.table_offset + self.writer_count * 16 <= segment.len() <= usize::MAX
        &&& self.writer <= self.writer_count
        &&& self.data <= segment.len()
    }

    /// The start of a decoded segment, or why it cannot be walked through.
    pub open spec fn spec_open(segment: Seq<u8>, number: usize) -> Result<SegmentCursor> {
        if segment.len() < 16 {
            Err(Error::Invalid(Fault::SegmentShort { segment: number }))
        } else {
            let count = bytes::u32_at(segment, 4);
            let table = bytes::u32_at(segment, 8);
            let data = bytes::u32_at(segment, 12);
            if count * 16 > usize::MAX {
                Err(error::fault("writer table size overflow"))
            } else if table + count * 16 > usize::MAX {
                Err(error::fault("writer table end overflow"))
            } else if table + count * 16 > segment.len() || data > segment.len() {
                Err(Error::Invalid(Fault::SegmentOffsets { segment: number }))
            } else {
                Ok(
                    SegmentCursor {
                        segment: number,
                        base_offset: bytes::u32_at(segment, 0),
                        writer_count: count as usize,
                        table_offset: table as usize,
                        writer: 0,
                        data: data as usize,
                    },
                )
            }
        }
    }

    /// Reads the header of decoded segment `number`.
    pub fn open(segment: &[u8], number: usize) -> (result: Result<SegmentCursor>)
        ensures
            result == Self::spec_open(segment@, number),
            result matches Ok(cursor) ==> cursor.within(segment@),
    {
        let length: usize = segment.len();
        if length < 16 {
            return invalid(Fault::SegmentShort { segment: number });
        }
        let writer_count = load_u32(segment, 4) as usize;
        let table_offset = load_u32(segment, 8) as usize;
        let data = load_u32(segment, 12) as usize;
        let table_size = match writer_count.checked_mul(16) {
            Some(table_size) => table_size,
            None => return invalid(Fault::Text("writer table size overflow")),
        };
        let table_end = match table_offset.checked_add(table_size) {
            Some(table_end) => table_end,
            None => return invalid(Fault::Text("writer table end overflow")),
        };
        if table_end > length || data > length {
            return invalid(Fault::SegmentOffsets { segment: number });
        }
        Ok(
            SegmentCursor {
                segment: number,
                base_offset: load_u32(segment, 0),
                writer_count,
                table_offset,
                writer: 0,
                data,
            },
        )
    }

    /// What the next writer does; nothing when all writers are done.
    pub open spec fn spec_next(self, segment: Seq<u8>) -> Result<Option<WriterStep>> {
        if self.writer >= self.writer_count {
            Ok(None)
        } else {
            let record = self.table_offset + self.writer * 16;
            let output_offset = bytes::u32_at(segment, record);
            let output_size = bytes::u32_at(segment, record + 4);
            let encoded_size = bytes::u32_at(segment, record + 8);
            let reserved = bytes::u32_at(segment, record + 12);
            if self.data + encoded_size > usize::MAX {
                Err(error::fault("writer data end overflow"))
            } else if reserved != 0 || self.data + encoded_size > segment.len() {
                Err(
                    Error::Invalid(
                        Fault::WriterBounds { segment: self.segment, writer: self.writer },
                    ),
                )
            } else {
                Ok(
                    Some(
                        WriterStep {
                            target: (self.base_offset + output_offset) as u64,
                            source_start: self.data,
                            source_end: (self.data + encoded_size) as usize,
                            output_size: output_size as usize,
                            compressed: encoded_size != output_size,
                        },
                    ),
                )
            }
        }
    }

    /// Reads the record of the next writer.
    pub fn next(&self, segment: &[u8]) -> (result: Result<Option<WriterStep>>)
        requires
            self.within(segment@),
        ensures
            result == self.spec_next(segment@),
            result matches Ok(Some(step)) ==> step.source_start <= step.source_end
                <= segment@.len(),
    {
        if self.writer >= self.writer_count {
            return Ok(None);
        }
        let record: usize = self.table_offset + self.writer * 16;
        let output_offset = load_u32(segment, record);
        let output_size = load_u32(segment, record + 4) as usize;
        let encoded_size = load_u32(segment, record + 8) as usize;
        let reserved = load_u32(segment, record + 12);
        let source_end = match self.data.checked_add(encoded_size) {
            Some(source_end) => source_end,
            None => return invalid(Fault::Text("writer data end overflow")),
        };
        if reserved != 0 || source_end > segment.len() {
            return invalid(Fault::WriterBounds { segment: self.segment, writer: self.writer });
        }
        Ok(
            Some(
                WriterStep {
                    target: self.base_offset as u64 + output_offset as u64,
                    source_start: self.data,
                    source_end,
                    output_size,
                    compressed: encoded_size != output_size,
                },
            ),
        )
    }

    /// The cursor after the next writer is done.
    pub open spec fn advanced(self, step: WriterStep) -> SegmentCursor {
        SegmentCursor { writer: (self.writer + 1) as usize, data: step.source_end, ..self }
    }

    /// Moves past the next writer.
    pub fn advance(&mut self, step: &WriterStep)
        requires
            old(self).writer < old(self).writer_count,
        ensures
            *final(self) == old(self).advanced(*step),
    {
        self.writer = self.writer + 1;
        self.data = step.source_end;
    }
}

/// The cursor of `segment` after `n` writers; none when one of them is refused.
pub open spec fn after_writers(segment: Seq<u8>, start: SegmentCursor, n: nat) -> Option<
    SegmentCursor,
>
    decreases n,
{
    if n == 0 {
        Some(start)
    } else {
        match after_writers(segment, start, (n - 1) as nat) {
            None => None,
            Some(cursor) => match cursor.spec_next(segment) {
                Ok(Some(step)) => Some(cursor.advanced(step)),
                _ => None,
            },
        }
    }
}

/// Walking through a segment never leaves it, and each writer's data starts where the data of the
/// one before ends.
pub proof fn law_writers_stay_within(segment: Seq<u8>, number: usize, n: nat)
    requires
        segment.len() <= usize::MAX,
        SegmentCursor::spec_open(segment, number) is Ok,
        after_writers(segment, SegmentCursor::spec_open(segment, number)->Ok_0, n) is Some,
    ensures
        ({
            let start = SegmentCursor::spec_open(segment, number)->Ok_0;
            let cursor = after_writers(segment, start, n)->0;
            &&& cursor.within(segment)
            &&& cursor.writer == n
            &&& start.data <= cursor.data
            &&& n > 0 ==> {
                let before = after_writers(segment, start, (n - 1) as nat)->0;
                &&& before.spec_next(segment)->Ok_0->0.source_start == before.data
                &&& before.spec_next(segment)->Ok_0->0.source_end == cursor.data
            }
        }),
    decreases n,
{
    if n > 0 {
        law_writers_stay_within(segment, number, (n - 1) as nat);
    }
}

/// The auxiliary image after a write at `offset`, and the number of bytes written.
pub open spec fn spec_write_auxiliary(image: Seq<u8>, offset: u64, data: Seq<u8>) -> (
    Seq<u8>,
    Result<usize>,
) {
    if offset > usize::MAX {
        (
            image,
            Err(
                Error::Elf(
                    read::spec_usize_from_u64(offset, "auxiliary write offset")->Err_0,
                ),
            ),
        )
    } else if offset + data.len() > usize::MAX {
        (image, Err(error::fault("auxiliary decoded write overflow")))
    } else if offset + data.len() > image.len() {
        (image, Err(error::fault("auxiliary decoded write is out of range")))
    } else {
        (bytes::overwrite(image, offset as int, data), Ok(data.len() as usize))
    }
}

/// Writes decoded bytes into the auxiliary image.
pub fn write_auxiliary(image: &mut Vec<u8>, offset: u64, data: &[u8]) -> (result: Result<usize>)
    ensures
        (final(image)@, result) == spec_write_auxiliary(old(image)@, offset, data@),
        result matches Ok(written) ==> written <= data@.len(),
{
    let start = match usize_from_u64(offset, "auxiliary write offset") {
        Ok(start) => start,
        Err(e) => return Err(Error::Elf(e)),
    };
    let end = match start.checked_add(data.len()) {
        Some(end) => end,
        None => return invalid(Fault::Text("auxiliary decoded write overflow")),
    };
    if end > image.len() {
        return invalid(Fault::Text("auxiliary decoded write is out of range"));
    }
    store(image, start, data);
    Ok(data.len())
}

} // verus!

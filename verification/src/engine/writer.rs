//! Writing decoded memory into the file behind an image's segments.

use super::error::{invalid, Error, Fault, Result};
use crate::bytes;
use crate::bytes::store;
use crate::elf::append_laws;
use crate::elf::layout::LayoutModel;
use crate::elf::read;
use crate::elf::{usize_from_u64, ElfLayout, LoadSegment};
use crate::engine::error;
use vstd::prelude::*;

verus! {

/// What has come of a write so far.
#[verifier::ext_equal]
pub struct WriteState {
    /// The file.
    pub image: Seq<u8>,
    /// Bytes that went into the file.
    pub written: int,
    /// Bytes that fell into the memory of a segment.
    pub covered: int,
    /// Why the write stopped.
    pub failure: Option<Error>,
}

impl WriteState {
    /// The write stops with an error.
    pub open spec fn failed(self, failure: Error) -> WriteState {
        WriteState { failure: Some(failure), ..self }
    }
}

/// The larger of two numbers.
pub open spec fn larger(a: int, b: int) -> int {
    if a >= b {
        a
    } else {
        b
    }
}

/// The smaller of two numbers.
pub open spec fn smaller(a: int, b: int) -> int {
    if a <= b {
        a
    } else {
        b
    }
}

/// Where a write from `address` on meets the memory of `segment`.
pub open spec fn meeting_start(segment: LoadSegment, address: int) -> int {
    larger(address, segment.virtual_address as int)
}

/// Where a write up to `end` leaves the memory of `segment`.
pub open spec fn meeting_end(segment: LoadSegment, end: int) -> int {
    smaller(end, segment.virtual_address + segment.memory_size)
}

/// Where a write up to `end` leaves the part of `segment` that the file backs.
pub open spec fn backed_end(segment: LoadSegment, end: int) -> int {
    smaller(meeting_end(segment, end), segment.virtual_address + segment.file_size)
}

/// Writes the part of `data` that falls into `segment`.
pub open spec fn write_segment(
    state: WriteState,
    segment: LoadSegment,
    address: int,
    data: Seq<u8>,
) -> WriteState {
    let end = address + data.len();
    let start = meeting_start(segment, address);
    let stop = meeting_end(segment, end);
    let file_stop = backed_end(segment, end);
    let place = segment.offset + (start - segment.virtual_address);
    if state.failure is Some {
        state
    } else if segment.virtual_address + segment.memory_size > u64::MAX {
        state.failed(error::fault("PT_LOAD memory end overflow"))
    } else if start >= stop {
        state
    } else if state.covered + (stop - start) > u64::MAX {
        state.failed(error::fault("covered memory count overflow"))
    } else if segment.virtual_address + segment.file_size > u64::MAX {
        state.failed(error::fault("PT_LOAD file VA end overflow"))
    } else {
        let covering = WriteState { covered: state.covered + (stop - start), ..state };
        if start >= file_stop {
            covering
        } else if place > u64::MAX {
            covering.failed(error::fault("write file offset overflow"))
        } else if place > usize::MAX {
            covering.failed(
                Error::Elf(read::spec_usize_from_u64(place as u64, "write file offset")->Err_0),
            )
        } else if place + (file_stop - start) > state.image.len() {
            covering.failed(error::fault("decoded write exceeds temporary output"))
        } else {
            WriteState {
                image: bytes::overwrite(
                    state.image,
                    place,
                    data.subrange(start - address, file_stop - address),
                ),
                written: state.written + (file_stop - start),
                ..covering
            }
        }
    }
}

/// Writes the parts of `data` that fall into the first `count` segments.
pub open spec fn write_segments(
    image: Seq<u8>,
    segments: Seq<LoadSegment>,
    count: nat,
    address: int,
    data: Seq<u8>,
) -> WriteState
    decreases count,
{
    if count == 0 {
        WriteState { image, written: 0, covered: 0, failure: None }
    } else {
        write_segment(
            write_segments(image, segments, (count - 1) as nat, address, data),
            segments[count - 1],
            address,
            data,
        )
    }
}

/// The file after a write at memory address `address`, and the number of bytes that went into it.
pub open spec fn spec_write(
    image: Seq<u8>,
    layout: LayoutModel,
    load_end: u64,
    address: u64,
    data: Seq<u8>,
) -> (Seq<u8>, Result<usize>) {
    let end = address + data.len();
    if end > u64::MAX {
        (image, Err(error::fault("decoded write range overflow")))
    } else if end > load_end {
        (image, Err(Error::Invalid(Fault::WriteBeyond { start: address, stop: end as u64 })))
    } else {
        let state = write_segments(
            image,
            layout.program_headers,
            layout.program_headers.len(),
            address as int,
            data,
        );
        match state.failure {
            Some(e) => (state.image, Err(e)),
            None => if state.covered != data.len() {
                (
                    state.image,
                    Err(Error::Invalid(Fault::WriteUncovered { start: address, stop: end as u64 })),
                )
            } else {
                (state.image, Ok(state.written as usize))
            },
        }
    }
}

/// A write that has failed stays failed.
proof fn lemma_write_stays_failed(
    image: Seq<u8>,
    segments: Seq<LoadSegment>,
    i: nat,
    n: nat,
    address: int,
    data: Seq<u8>,
)
    requires
        i <= n,
        write_segments(image, segments, i, address, data).failure is Some,
    ensures
        write_segments(image, segments, n, address, data) == write_segments(
            image,
            segments,
            i,
            address,
            data,
        ),
    decreases n,
{
    if i < n {
        lemma_write_stays_failed(image, segments, i, (n - 1) as nat, address, data);
    }
}

/// Writes decoded memory at `virtual_address` into the file behind the segments of `layout`.
/// Hands back how many bytes went into the file; the rest of `data` lies in memory that the file
/// does not back.
pub fn write_decoded(
    output: &mut [u8],
    layout: &ElfLayout,
    load_end: u64,
    virtual_address: u64,
    data: &[u8],
) -> (result: Result<usize>)
    ensures
        (final(output)@, result) == spec_write(
            old(output)@,
            layout@,
            load_end,
            virtual_address,
            data@,
        ),
        result matches Ok(written) ==> written <= data@.len(),
{
    let length: usize = output.len();
    let size: usize = data.len();
    let data_len: u64 = size as u64;
    let end = match virtual_address.checked_add(data_len) {
        Some(end) => end,
        None => return invalid(Fault::Text("decoded write range overflow")),
    };
    if end > load_end {
        return invalid(Fault::WriteBeyond { start: virtual_address, stop: end });
    }
    let ghost before = output@;
    let ghost segments = layout@.program_headers;
    let count: usize = layout.program_headers.len();
    let mut written: u64 = 0;
    let mut covered: u64 = 0;
    let mut index: usize = 0;
    while index < count
        invariant
            index <= count,
            count == layout.program_headers@.len(),
            segments == layout@.program_headers,
            size == data@.len(),
            data_len == size,
            end == virtual_address + data_len,
            end <= load_end,
            output@.len() == length,
            before == old(output)@,
            written <= covered,
            write_segments(before, segments, index as nat, virtual_address as int, data@) == (
            WriteState {
                image: output@,
                written: written as int,
                covered: covered as int,
                failure: None,
            }),
        decreases count - index,
    {
        let segment = layout.program_headers[index];
        proof {
            let next = write_segments(
                before,
                segments,
                (index + 1) as nat,
                virtual_address as int,
                data@,
            );
            if next.failure is Some {
                lemma_write_stays_failed(
                    before,
                    segments,
                    (index + 1) as nat,
                    count as nat,
                    virtual_address as int,
                    data@,
                );
            }
        }
        let memory_end = match segment.virtual_address.checked_add(segment.memory_size) {
            Some(memory_end) => memory_end,
            None => return invalid(Fault::Text("PT_LOAD memory end overflow")),
        };
        let start = if virtual_address >= segment.virtual_address {
            virtual_address
        } else {
            segment.virtual_address
        };
        let stop = if end <= memory_end {
            end
        } else {
            memory_end
        };
        if start < stop {
            covered = match covered.checked_add(stop - start) {
                Some(covered) => covered,
                None => return invalid(Fault::Text("covered memory count overflow")),
            };
            let file_end = match segment.virtual_address.checked_add(segment.file_size) {
                Some(file_end) => file_end,
                None => return invalid(Fault::Text("PT_LOAD file VA end overflow")),
            };
            let file_stop = if stop <= file_end {
                stop
            } else {
                file_end
            };
            if start < file_stop {
                let place = match segment.offset.checked_add(start - segment.virtual_address) {
                    Some(place) => place,
                    None => return invalid(Fault::Text("write file offset overflow")),
                };
                let file_offset = match usize_from_u64(place, "write file offset") {
                    Ok(file_offset) => file_offset,
                    Err(e) => return Err(Error::Elf(e)),
                };
                let source: usize = (start - virtual_address) as usize;
                let amount: usize = (file_stop - start) as usize;
                if file_offset > length || amount > length - file_offset {
                    return invalid(Fault::Text("decoded write exceeds temporary output"));
                }
                store(output, file_offset, &data[source..source + amount]);
                written = written + amount as u64;
            }
        }
        index += 1;
    }
    if covered != data_len {
        return invalid(Fault::WriteUncovered { start: virtual_address, stop: end });
    }
    Ok(written as usize)
}

/// A write never changes the size of the file.
proof fn lemma_write_keeps_size(
    image: Seq<u8>,
    segments: Seq<LoadSegment>,
    n: nat,
    address: int,
    data: Seq<u8>,
)
    ensures
        write_segments(image, segments, n, address, data).image.len() == image.len(),
    decreases n,
{
    if n > 0 {
        lemma_write_keeps_size(image, segments, (n - 1) as nat, address, data);
    }
}

/// File byte `i` backs memory of `segment` that a write to `address..end` reaches.
pub open spec fn is_target(segment: LoadSegment, address: int, end: int, i: int) -> bool {
    let memory = segment.virtual_address + (i - segment.offset);
    segment.offset <= i && meeting_start(segment, address) <= memory < backed_end(segment, end)
}

/// Bytes that back no written memory keep their value through the first `n` segments.
proof fn lemma_write_frame(
    image: Seq<u8>,
    segments: Seq<LoadSegment>,
    n: nat,
    address: int,
    data: Seq<u8>,
    i: int,
)
    requires
        n <= segments.len(),
        0 <= i < image.len(),
        forall|k: int|
            0 <= k < n ==> !is_target(#[trigger] segments[k], address, address + data.len(), i),
    ensures
        write_segments(image, segments, n, address, data).image[i] == image[i],
    decreases n,
{
    lemma_write_keeps_size(image, segments, n, address, data);
    if n > 0 {
        lemma_write_keeps_size(image, segments, (n - 1) as nat, address, data);
        lemma_write_frame(image, segments, (n - 1) as nat, address, data, i);
        assert(!is_target(segments[n - 1], address, address + data.len(), i));
    }
}

/// A write, whatever comes of it, keeps the size of the file.
pub(crate) proof fn lemma_write_size(
    image: Seq<u8>,
    layout: LayoutModel,
    load_end: u64,
    address: u64,
    data: Seq<u8>,
)
    ensures
        spec_write(image, layout, load_end, address, data).0.len() == image.len(),
{
    lemma_write_keeps_size(
        image,
        layout.program_headers,
        layout.program_headers.len(),
        address as int,
        data,
    );
}

/// A write, whatever comes of it, changes no file byte that backs none of the written memory.
pub proof fn law_write_touches_only_its_target(
    image: Seq<u8>,
    layout: LayoutModel,
    load_end: u64,
    address: u64,
    data: Seq<u8>,
    i: int,
)
    requires
        0 <= i < image.len(),
        forall|k: int|
            0 <= k < layout.program_headers.len() ==> !is_target(
                #[trigger] layout.program_headers[k],
                address as int,
                address + data.len(),
                i,
            ),
    ensures
        spec_write(image, layout, load_end, address, data).0.len() == image.len(),
        spec_write(image, layout, load_end, address, data).0[i] == image[i],
{
    let segments = layout.program_headers;
    lemma_write_keeps_size(image, segments, segments.len(), address as int, data);
    lemma_write_frame(image, segments, segments.len(), address as int, data, i);
}

/// A write that has not failed after `n` segments had not failed before.
proof fn lemma_write_unfailed(
    image: Seq<u8>,
    segments: Seq<LoadSegment>,
    i: nat,
    n: nat,
    address: int,
    data: Seq<u8>,
)
    requires
        i <= n,
        write_segments(image, segments, n, address, data).failure is None,
    ensures
        write_segments(image, segments, i, address, data).failure is None,
{
    if write_segments(image, segments, i, address, data).failure is Some {
        lemma_write_stays_failed(image, segments, i, n, address, data);
    }
}

/// Memory that a successful write reached stands in the file.
proof fn lemma_write_places(
    image: Seq<u8>,
    segments: Seq<LoadSegment>,
    n: nat,
    address: int,
    data: Seq<u8>,
    k: int,
    i: int,
)
    requires
        n <= segments.len(),
        0 <= k < n,
        append_laws::all_apart(segments),
        write_segments(image, segments, n, address, data).failure is None,
        0 <= address,
        is_target(segments[k], address, address + data.len(), i),
    ensures
        0 <= i < image.len(),
        write_segments(image, segments, n, address, data).image[i] == data[segments[k].virtual_address
            + (i - segments[k].offset) - address],
    decreases n,
{
    let before = (n - 1) as nat;
    lemma_write_unfailed(image, segments, before, n, address, data);
    lemma_write_keeps_size(image, segments, before, address, data);
    lemma_write_keeps_size(image, segments, n, address, data);
    if k < n - 1 {
        lemma_write_places(image, segments, before, address, data, k, i);
        assert(append_laws::apart(segments[k], segments[n - 1]));
        assert(!is_target(segments[n - 1], address, address + data.len(), i));
    }
}

/// After a successful write into segments that do not overlap, every byte of written memory that
/// the file backs stands in the file.
pub proof fn law_write_reads_back(
    image: Seq<u8>,
    layout: LayoutModel,
    load_end: u64,
    address: u64,
    data: Seq<u8>,
    k: int,
    i: int,
)
    requires
        append_laws::all_apart(layout.program_headers),
        spec_write(image, layout, load_end, address, data).1 is Ok,
        0 <= k < layout.program_headers.len(),
        is_target(layout.program_headers[k], address as int, address + data.len(), i),
    ensures
        ({
            let segment = layout.program_headers[k];
            &&& 0 <= i < image.len()
            &&& spec_write(image, layout, load_end, address, data).0[i]
                == data[segment.virtual_address + (i - segment.offset) - address]
        }),
{
    let segments = layout.program_headers;
    lemma_write_places(image, segments, segments.len(), address as int, data, k, i);
}

} // verus!

//! Adding a loadable segment to an image.

use super::error::{invalid, Error, Fault, Result};
use super::layout;
use super::layout::{
    ElfLayout, LayoutModel, LoadSegment, PROGRAM_HEADER_SIZE, PT_LOAD, PT_NOTE, PT_PHDR, SHT_NOBITS,
};
use super::read;
use super::read::{checked_index, field_u64, power_of_two, read_u32, slice};
use crate::bytes;
use crate::bytes::{bytes_of_u16, bytes_of_u32, bytes_of_u64, copy_of, extend, load_u32, store};
use crate::elf::error;
use crate::fold;
use vstd::prelude::*;

verus! {

/// What the notes among the program headers amount to.
#[derive(Clone, Copy)]
pub struct NoteScan {
    /// How many notes there are.
    pub notes: usize,
    /// File offset and index of the best note whose contents a segment covers.
    pub best: Option<(u64, usize)>,
}

/// The bytes of an image after an attempt to add a segment, and the outcome of the attempt.
#[verifier::ext_equal]
pub struct Appended {
    pub image: Seq<u8>,
    pub layout: Result<LayoutModel>,
}

/// The program header of a loadable segment.
pub open spec fn program_header_bytes(segment: LoadSegment) -> Seq<u8> {
    bytes::u32_bytes(PT_LOAD) + bytes::u32_bytes(segment.flags) + bytes::u64_bytes(segment.offset)
        + bytes::u64_bytes(segment.virtual_address) + bytes::u64_bytes(segment.virtual_address)
        + bytes::u64_bytes(segment.file_size) + bytes::u64_bytes(segment.memory_size)
        + bytes::u64_bytes(segment.alignment)
}

/// The fields of a table's own program header, from its size on or, when the table has moved to
/// a file offset and address, from its place on.
pub open spec fn table_fields(relocated: Option<(u64, u64)>, size: u64) -> Seq<u8> {
    match relocated {
        Some((offset, address)) => bytes::u64_bytes(offset) + bytes::u64_bytes(address)
            + bytes::u64_bytes(address) + bytes::u64_bytes(size) + bytes::u64_bytes(size),
        None => bytes::u64_bytes(size) + bytes::u64_bytes(size),
    }
}

/// Where the fields of [`table_fields`] start inside a program header.
pub open spec fn table_fields_at(relocated: Option<(u64, u64)>) -> int {
    if relocated is Some {
        8
    } else {
        0x20
    }
}

/// `data` with each of the first `count` program headers at `table` that describes the table
/// itself brought up to date.
pub open spec fn table_described(
    data: Seq<u8>,
    table: int,
    count: nat,
    relocated: Option<(u64, u64)>,
    size: u64,
) -> Seq<u8>
    decreases count,
{
    if count == 0 {
        data
    } else {
        let before = table_described(data, table, (count - 1) as nat, relocated, size);
        let at = table + (count - 1) * 0x38;
        if bytes::u32_at(before, at) == PT_PHDR {
            bytes::overwrite(before, at + table_fields_at(relocated), table_fields(relocated, size))
        } else {
            before
        }
    }
}

/// One step of the search for a program header of type `kind`.
pub open spec fn kind_step(data: Seq<u8>, table: int, kind: u32) -> spec_fn(bool, int) -> Result<
    bool,
> {
    |found: bool, index: int|
        if found {
            Ok(true)
        } else {
            match read::spec_checked_index(table, index, 0x38) {
                Err(e) => Err(e),
                Ok(at) => match read::spec_read_u32(data, at as int) {
                    Err(e) => Err(e),
                    Ok(found_kind) => Ok(found_kind == kind),
                },
            }
        }
}

/// The file range of a loadable segment covers `start..end`.
pub open spec fn covers(segment: LoadSegment, start: int, end: int) -> bool {
    segment.offset + segment.file_size <= u64::MAX && segment.offset <= start && end
        <= segment.offset + segment.file_size
}

/// One of the segments covers `start..end`.
pub open spec fn covered(segments: Seq<LoadSegment>, start: int, end: int) -> bool {
    exists|k: int| 0 <= k < segments.len() && covers(#[trigger] segments[k], start, end)
}

/// A note at `start` is at least as far into the file as the best one so far.
pub open spec fn not_before(start: u64, best: Option<(u64, usize)>) -> bool {
    match best {
        None => true,
        Some((offset, _)) => start >= offset,
    }
}

/// One step of the scan for a note that can give up its program header.
pub open spec fn note_step(data: Seq<u8>, table: int, segments: Seq<LoadSegment>) -> spec_fn(
    NoteScan,
    int,
) -> Result<NoteScan> {
    |scan: NoteScan, index: int|
        match read::spec_checked_index(table, index, 0x38) {
            Err(e) => Err(e),
            Ok(at) => match read::spec_read_u32(data, at as int) {
                Err(e) => Err(e),
                Ok(kind) => if kind != PT_NOTE {
                    Ok(scan)
                } else {
                    match layout::first_unreadable(
                        data,
                        at as int,
                        seq![(8int, 8int), (0x20int, 8int)],
                    ) {
                        Some(e) => Err(e),
                        None => {
                            let start = bytes::u64_at(data, at + 8);
                            let end = start + bytes::u64_at(data, at + 0x20);
                            if end > u64::MAX {
                                Err(error::fault("PT_NOTE file range overflow"))
                            } else {
                                Ok(
                                    NoteScan {
                                        notes: (scan.notes + 1) as usize,
                                        best: if covered(segments, start as int, end)
                                            && not_before(start, scan.best) {
                                            Some((start, index as usize))
                                        } else {
                                            scan.best
                                        },
                                    },
                                )
                            }
                        },
                    }
                },
            },
        }
}

/// Refuses a new segment that runs into existing segment `index`.
pub open spec fn overlap_step(segments: Seq<LoadSegment>, new: LoadSegment) -> spec_fn(
    (),
    int,
) -> Result<()> {
    |state: (), index: int|
        {
            let existing = segments[index];
            let file_end = existing.offset + existing.file_size;
            let memory_end = existing.virtual_address + existing.memory_size;
            if file_end > u64::MAX {
                Err(error::fault("PT_LOAD file range overflow"))
            } else if new.offset < file_end && existing.offset < new.offset + new.file_size {
                Err(error::fault("new PT_LOAD overlaps an existing file range"))
            } else if memory_end > u64::MAX {
                Err(error::fault("PT_LOAD memory range overflow"))
            } else if new.virtual_address < memory_end && existing.virtual_address
                < new.virtual_address + new.memory_size {
                Err(error::fault("new PT_LOAD overlaps an existing memory range"))
            } else {
                Ok(())
            }
        }
}

impl LayoutModel {
    /// Section `index` keeps the file bytes from its offset on.
    pub open spec fn occupies_file(self, index: int) -> bool {
        self.section_headers[index].section_type != SHT_NOBITS && self.section_headers[index].size
            != 0
    }

    /// No section keeps file bytes below `end`.
    pub open spec fn sections_start_after(self, end: int) -> bool {
        forall|index: int|
            0 <= index < self.section_headers.len() && #[trigger] self.occupies_file(index) ==> end
                <= self.section_headers[index].offset
    }

    /// How many bytes a moved program header table needs; zero when one more program header fits
    /// behind the table where it is.
    pub open spec fn spec_additional_program_header_reservation(self) -> Result<usize> {
        if self.program_header_size != 0x38 {
            Err(error::fault("unexpected ELF program header size"))
        } else if self.program_header_count == usize::MAX {
            Err(error::fault("program header count overflow"))
        } else {
            match read::spec_checked_index(
                self.program_header_offset as int,
                self.program_header_count as int,
                0x38,
            ) {
                Err(e) => Err(e),
                Ok(at) => if at + 0x38 > usize::MAX {
                    Err(error::fault("new program header range overflow"))
                } else if self.sections_start_after(at + 0x38) {
                    Ok(0)
                } else if (self.program_header_count + 1) * 0x38 > usize::MAX {
                    Err(error::fault("relocated program header size overflow"))
                } else {
                    Ok(((self.program_header_count + 1) * 0x38) as usize)
                },
            }
        }
    }

    /// Whether a program header of type `kind` is in the table.
    pub open spec fn spec_has_program_header_type(self, data: Seq<u8>, kind: u32) -> Result<bool> {
        fold::try_fold(
            self.program_header_count as nat,
            false,
            kind_step(data, self.program_header_offset as int, kind),
        )
    }

    /// The program header of a note that a segment covers, when there is more than one note: the
    /// one furthest into the file.
    pub open spec fn spec_reusable_note_program_header(self, data: Seq<u8>) -> Result<
        Option<usize>,
    > {
        match fold::try_fold(
            self.program_header_count as nat,
            NoteScan { notes: 0, best: None },
            note_step(data, self.program_header_offset as int, self.program_headers),
        ) {
            Err(e) => Err(e),
            Ok(scan) => if scan.notes < 2 {
                Ok(None)
            } else {
                match scan.best {
                    None => Ok(None),
                    Some((_, index)) => Ok(Some(index)),
                }
            },
        }
    }

    /// Whether `segment` can join the segments of an image of `size` bytes.
    pub open spec fn spec_check_new_segment(self, segment: LoadSegment, size: nat) -> Result<()> {
        if self.program_header_size != 0x38 {
            Err(error::fault("unexpected ELF program header size"))
        } else if segment.file_size == 0 {
            Err(error::fault("new PT_LOAD has no file contents"))
        } else if segment.memory_size < segment.file_size {
            Err(error::fault("new PT_LOAD memory size is smaller than file size"))
        } else if !read::is_power_of_two(segment.alignment as nat) {
            Err(Error::Invalid(Fault::NewLoadAlignment { alignment: segment.alignment }))
        } else if segment.offset % segment.alignment != segment.virtual_address
            % segment.alignment {
            Err(error::fault("new PT_LOAD offset and address are misaligned"))
        } else if segment.offset + segment.file_size > u64::MAX {
            Err(error::fault("new PT_LOAD file range overflow"))
        } else if segment.virtual_address + segment.memory_size > u64::MAX {
            Err(error::fault("new PT_LOAD memory range overflow"))
        } else if segment.offset + segment.file_size > size {
            Err(error::fault("new PT_LOAD exceeds output mapping"))
        } else {
            fold::try_fold(
                self.program_headers.len(),
                (),
                overlap_step(self.program_headers, segment),
            )
        }
    }

    /// The layout with one more segment and a table of `count` entries at `offset`.
    pub open spec fn with_segment(self, segment: LoadSegment, offset: usize, count: usize) -> Self {
        LayoutModel {
            program_header_offset: offset,
            program_header_count: count,
            program_headers: self.program_headers.push(segment),
            ..self
        }
    }

    /// Adding a segment whose program header fits behind the table.
    pub open spec fn appended_in_place(self, image: Seq<u8>, segment: LoadSegment) -> Appended {
        let at = self.program_header_offset + self.program_header_count * 0x38;
        let count = self.program_header_count + 1;
        if at + 0x38 > image.len() {
            Appended { image, layout: Err(error::fault("new program header exceeds output")) }
        } else {
            let with_header = bytes::overwrite(image, at, program_header_bytes(segment));
            let described = table_described(
                with_header,
                self.program_header_offset as int,
                self.program_header_count as nat,
                None,
                (count * 0x38) as u64,
            );
            if image.len() < 0x3a {
                Appended {
                    image: described,
                    layout: Err(error::fault("ELF header is truncated")),
                }
            } else {
                Appended {
                    image: bytes::overwrite(described, 0x38, bytes::u16_bytes(count as u16)),
                    layout: Ok(
                        self.with_segment(segment, self.program_header_offset, count as usize),
                    ),
                }
            }
        }
    }

    /// Adding a segment by giving it the program header of note `index`.
    pub open spec fn appended_over_note(
        self,
        image: Seq<u8>,
        segment: LoadSegment,
        index: usize,
    ) -> Appended {
        let at = self.program_header_offset + index * 0x38;
        if at + 0x38 > image.len() {
            Appended { image, layout: Err(error::fault("reused program header exceeds output")) }
        } else {
            Appended {
                image: bytes::overwrite(image, at, program_header_bytes(segment)),
                layout: Ok(
                    self.with_segment(
                        segment,
                        self.program_header_offset,
                        self.program_header_count,
                    ),
                ),
            }
        }
    }

    /// Adding a segment that begins with the moved program header table.
    pub open spec fn appended_relocated(self, image: Seq<u8>, segment: LoadSegment) -> Appended {
        let old_size = self.program_header_count * 0x38;
        let new_size = (self.program_header_count + 1) * 0x38;
        match self.spec_has_program_header_type(image, PT_PHDR) {
            Err(e) => Appended { image, layout: Err(e) },
            Ok(false) => Appended {
                image,
                layout: Err(
                    error::fault(
                        "cannot safely relocate program headers without PT_PHDR or a redundant PT_NOTE",
                    ),
                ),
            },
            Ok(true) => if segment.file_size < new_size {
                Appended {
                    image,
                    layout: Err(
                        error::fault("new PT_LOAD is too small for relocated program headers"),
                    ),
                }
            } else {
                match read::spec_slice(image, self.program_header_offset as int, old_size) {
                    Err(e) => Appended { image, layout: Err(e) },
                    Ok(table) => {
                        let moved = bytes::overwrite(
                            image,
                            segment.offset as int,
                            table + program_header_bytes(segment),
                        );
                        let located = bytes::overwrite(
                            moved,
                            0x20,
                            bytes::u64_bytes(segment.offset),
                        );
                        let described = table_described(
                            located,
                            segment.offset as int,
                            self.program_header_count as nat,
                            Some((segment.offset, segment.virtual_address)),
                            new_size as u64,
                        );
                        Appended {
                            image: bytes::overwrite(
                                described,
                                0x38,
                                bytes::u16_bytes((self.program_header_count + 1) as u16),
                            ),
                            layout: Ok(
                                self.with_segment(
                                    segment,
                                    segment.offset as usize,
                                    (self.program_header_count + 1) as usize,
                                ),
                            ),
                        }
                    },
                }
            },
        }
    }

    /// Adding `segment` to `image`: the program header goes behind the table where there is room,
    /// else over a redundant note, else the table moves into the new segment.
    pub open spec fn spec_append_load_segment(
        self,
        image: Seq<u8>,
        segment: LoadSegment,
        reserved: usize,
    ) -> Appended {
        match self.spec_check_new_segment(segment, image.len()) {
            Err(e) => Appended { image, layout: Err(e) },
            Ok(_) => if self.program_header_count == usize::MAX {
                Appended { image, layout: Err(error::fault("program header count overflow")) }
            } else if self.program_header_count + 1 > u16::MAX {
                Appended { image, layout: Err(error::fault("program header count exceeds u16")) }
            } else {
                match self.spec_additional_program_header_reservation() {
                    Err(e) => Appended { image, layout: Err(e) },
                    Ok(reservation) => if reserved != reservation {
                        Appended {
                            image,
                            layout: Err(
                                Error::Invalid(
                                    Fault::Reservation { expected: reservation, got: reserved },
                                ),
                            ),
                        }
                    } else if reservation == 0 {
                        self.appended_in_place(image, segment)
                    } else {
                        match self.spec_reusable_note_program_header(image) {
                            Err(e) => Appended { image, layout: Err(e) },
                            Ok(Some(index)) => self.appended_over_note(image, segment, index),
                            Ok(None) => self.appended_relocated(image, segment),
                        }
                    },
                }
            },
        }
    }
}

/// Updating the table's own program headers keeps the image's size and touches only their fields.
pub proof fn lemma_table_described(
    data: Seq<u8>,
    table: int,
    count: nat,
    relocated: Option<(u64, u64)>,
    size: u64,
)
    requires
        0 <= table,
        table + count * 0x38 <= data.len(),
    ensures
        table_described(data, table, count, relocated, size).len() == data.len(),
        forall|i: int|
            0 <= i < data.len() && !(table <= i < table + count * 0x38)
                ==> #[trigger] table_described(data, table, count, relocated, size)[i] == data[i],
    decreases count,
{
    broadcast use bytes::group_bytes_len;

    if count > 0 {
        lemma_table_described(data, table, (count - 1) as nat, relocated, size);
    }
}

/// The program header of a loadable segment, as bytes.
fn encode_program_header(segment: LoadSegment) -> (header: Vec<u8>)
    ensures
        header@ == program_header_bytes(segment),
        header@.len() == 0x38,
{
    broadcast use bytes::group_bytes_len;

    let mut header: Vec<u8> = Vec::with_capacity(PROGRAM_HEADER_SIZE);
    extend(&mut header, &bytes_of_u32(PT_LOAD));
    extend(&mut header, &bytes_of_u32(segment.flags));
    extend(&mut header, &bytes_of_u64(segment.offset));
    extend(&mut header, &bytes_of_u64(segment.virtual_address));
    extend(&mut header, &bytes_of_u64(segment.virtual_address));
    extend(&mut header, &bytes_of_u64(segment.file_size));
    extend(&mut header, &bytes_of_u64(segment.memory_size));
    extend(&mut header, &bytes_of_u64(segment.alignment));
    assert(header@ =~= program_header_bytes(segment));
    header
}

/// Brings the program headers that describe the table itself up to date.
fn update_pt_phdr(
    output: &mut [u8],
    table: usize,
    count: usize,
    relocated: Option<(u64, u64)>,
    size: u64,
)
    requires
        table + count * 0x38 <= old(output)@.len(),
    ensures
        final(output)@ == table_described(
            old(output)@,
            table as int,
            count as nat,
            relocated,
            size,
        ),
        final(output)@.len() == old(output)@.len(),
{
    broadcast use bytes::group_bytes_len;

    let ghost before = output@;
    let length: usize = output.len();
    let mut fields: Vec<u8> = Vec::new();
    let mut fields_at: usize = 0x20;
    if let Some((offset, address)) = relocated {
        fields_at = 8;
        extend(&mut fields, &bytes_of_u64(offset));
        extend(&mut fields, &bytes_of_u64(address));
        extend(&mut fields, &bytes_of_u64(address));
    }
    extend(&mut fields, &bytes_of_u64(size));
    extend(&mut fields, &bytes_of_u64(size));
    assert(fields@ =~= table_fields(relocated, size));
    let mut index: usize = 0;
    let mut at: usize = table;
    while index < count
        invariant
            index <= count,
            at == table + index * 0x38,
            table + count * 0x38 <= length,
            output@.len() == length,
            output@ == table_described(before, table as int, index as nat, relocated, size),
            fields@ == table_fields(relocated, size),
            fields_at == table_fields_at(relocated),
            fields_at + fields@.len() == 0x30,
        decreases count - index,
    {
        if load_u32(output, at) == PT_PHDR {
            store(output, at + fields_at, &fields);
        }
        index += 1;
        at += PROGRAM_HEADER_SIZE;
    }
}

/// Whether one of the segments covers `start..end` of the file.
fn is_covered(segments: &[LoadSegment], start: u64, end: u64) -> (result: bool)
    ensures
        result == covered(segments@, start as int, end as int),
{
    let mut index: usize = 0;
    while index < segments.len()
        invariant
            index <= segments@.len(),
            forall|k: int|
                0 <= k < index ==> !covers(#[trigger] segments@[k], start as int, end as int),
        decreases segments@.len() - index,
    {
        let segment = segments[index];
        if let Some(segment_end) = segment.offset.checked_add(segment.file_size) {
            if segment.offset <= start && end <= segment_end {
                assert(covers(segments@[index as int], start as int, end as int));
                return true;
            }
        }
        index += 1;
    }
    false
}

impl ElfLayout {
    /// How many bytes of the next segment a moved program header table needs; zero when one more
    /// program header fits behind the table where it is.
    pub fn additional_program_header_reservation(&self) -> (result: Result<usize>)
        ensures
            result == self@.spec_additional_program_header_reservation(),
    {
        if self.program_header_size != PROGRAM_HEADER_SIZE {
            return invalid(Fault::Text("unexpected ELF program header size"));
        }
        let new_count = match self.program_header_count.checked_add(1) {
            Some(new_count) => new_count,
            None => return invalid(Fault::Text("program header count overflow")),
        };
        let header_offset = checked_index(
            self.program_header_offset,
            self.program_header_count,
            PROGRAM_HEADER_SIZE,
        )?;
        let header_end = match header_offset.checked_add(PROGRAM_HEADER_SIZE) {
            Some(header_end) => header_end,
            None => return invalid(Fault::Text("new program header range overflow")),
        };
        let mut room = true;
        let mut index: usize = 0;
        while index < self.section_headers.len()
            invariant
                index <= self.section_headers@.len(),
                room == (forall|k: int|
                    0 <= k < index && #[trigger] self@.occupies_file(k) ==> header_end
                        <= self.section_headers@[k].offset),
            decreases self.section_headers@.len() - index,
        {
            let section = self.section_headers[index];
            if section.section_type != SHT_NOBITS && section.size != 0 && (header_end as u64)
                > section.offset {
                assert(self@.occupies_file(index as int));
                room = false;
            }
            index += 1;
        }
        if room {
            return Ok(0);
        }
        match new_count.checked_mul(PROGRAM_HEADER_SIZE) {
            Some(reservation) => Ok(reservation),
            None => invalid(Fault::Text("relocated program header size overflow")),
        }
    }

    /// Whether a program header of type `kind` is in the table.
    fn has_program_header_type(&self, data: &[u8], kind: u32) -> (result: Result<bool>)
        requires
            self.program_header_size == 0x38,
        ensures
            result == self@.spec_has_program_header_type(data@, kind),
    {
        let ghost step = kind_step(data@, self.program_header_offset as int, kind);
        let mut index: usize = 0;
        while index < self.program_header_count
            invariant
                index <= self.program_header_count,
                step == kind_step(data@, self.program_header_offset as int, kind),
                fold::try_fold(index as nat, false, step) == Ok::<bool, Error>(false),
            decreases self.program_header_count - index,
        {
            proof {
                if fold::try_fold((index + 1) as nat, false, step) is Err {
                    fold::lemma_failure_stays(
                        (index + 1) as nat,
                        self.program_header_count as nat,
                        false,
                        step,
                    );
                }
            }
            let at = checked_index(self.program_header_offset, index, PROGRAM_HEADER_SIZE)?;
            if read_u32(data, at)? == kind {
                proof {
                    lemma_kind_found(
                        data@,
                        self.program_header_offset as int,
                        kind,
                        (index + 1) as nat,
                        self.program_header_count as nat,
                    );
                }
                return Ok(true);
            }
            index += 1;
        }
        Ok(false)
    }

    /// The program header of a note that can be given up.
    fn reusable_note_program_header(&self, data: &[u8]) -> (result: Result<Option<usize>>)
        requires
            self.program_header_size == 0x38,
        ensures
            result == self@.spec_reusable_note_program_header(data@),
    {
        let ghost step = note_step(data@, self.program_header_offset as int, self@.program_headers);
        let ghost start_scan = NoteScan { notes: 0, best: None };
        let mut scan = NoteScan { notes: 0, best: None };
        let mut index: usize = 0;
        while index < self.program_header_count
            invariant
                index <= self.program_header_count,
                scan.notes <= index,
                step == note_step(
                    data@,
                    self.program_header_offset as int,
                    self@.program_headers,
                ),
                start_scan == (NoteScan { notes: 0, best: None }),
                fold::try_fold(index as nat, start_scan, step) == Ok::<NoteScan, Error>(scan),
            decreases self.program_header_count - index,
        {
            proof {
                reveal_with_fuel(layout::first_unreadable, 3);
                if fold::try_fold((index + 1) as nat, start_scan, step) is Err {
                    fold::lemma_failure_stays(
                        (index + 1) as nat,
                        self.program_header_count as nat,
                        start_scan,
                        step,
                    );
                }
            }
            let at = checked_index(self.program_header_offset, index, PROGRAM_HEADER_SIZE)?;
            if read_u32(data, at)? == PT_NOTE {
                let file_offset = field_u64(data, at, 8)?;
                let file_size = field_u64(data, at, 0x20)?;
                let file_end = match file_offset.checked_add(file_size) {
                    Some(file_end) => file_end,
                    None => return invalid(Fault::Text("PT_NOTE file range overflow")),
                };
                let better = match scan.best {
                    Some((best_offset, _)) => file_offset >= best_offset,
                    None => true,
                };
                let best = if is_covered(&self.program_headers, file_offset, file_end) && better {
                    Some((file_offset, index))
                } else {
                    scan.best
                };
                scan = NoteScan { notes: scan.notes + 1, best };
            }
            index += 1;
        }
        if scan.notes < 2 {
            return Ok(None);
        }
        match scan.best {
            Some((_, best_index)) => Ok(Some(best_index)),
            None => Ok(None),
        }
    }

    /// Refuses a segment that cannot join the segments of an image of `size` bytes.
    fn check_new_segment(&self, segment: LoadSegment, size: usize) -> (result: Result<()>)
        ensures
            result == self@.spec_check_new_segment(segment, size as nat),
    {
        if self.program_header_size != PROGRAM_HEADER_SIZE {
            return invalid(Fault::Text("unexpected ELF program header size"));
        }
        if segment.file_size == 0 {
            return invalid(Fault::Text("new PT_LOAD has no file contents"));
        }
        if segment.memory_size < segment.file_size {
            return invalid(Fault::Text("new PT_LOAD memory size is smaller than file size"));
        }
        if !power_of_two(segment.alignment) {
            return invalid(Fault::NewLoadAlignment { alignment: segment.alignment });
        }
        if segment.offset % segment.alignment != segment.virtual_address % segment.alignment {
            return invalid(Fault::Text("new PT_LOAD offset and address are misaligned"));
        }
        let file_end = match segment.offset.checked_add(segment.file_size) {
            Some(file_end) => file_end,
            None => return invalid(Fault::Text("new PT_LOAD file range overflow")),
        };
        let memory_end = match segment.virtual_address.checked_add(segment.memory_size) {
            Some(memory_end) => memory_end,
            None => return invalid(Fault::Text("new PT_LOAD memory range overflow")),
        };
        if file_end > size as u64 {
            return invalid(Fault::Text("new PT_LOAD exceeds output mapping"));
        }
        let ghost step = overlap_step(self@.program_headers, segment);
        let count: usize = self.program_headers.len();
        let mut index: usize = 0;
        while index < count
            invariant
                index <= count,
                count == self.program_headers@.len(),
                file_end == segment.offset + segment.file_size,
                memory_end == segment.virtual_address + segment.memory_size,
                step == overlap_step(self@.program_headers, segment),
                self@.spec_check_new_segment(segment, size as nat) == fold::try_fold(
                    count as nat,
                    (),
                    step,
                ),
                fold::try_fold(index as nat, (), step) == Ok::<(), Error>(()),
            decreases count - index,
        {
            proof {
                if fold::try_fold((index + 1) as nat, (), step) is Err {
                    fold::lemma_failure_stays((index + 1) as nat, count as nat, (), step);
                }
            }
            let existing = self.program_headers[index];
            let existing_file_end = match existing.offset.checked_add(existing.file_size) {
                Some(existing_file_end) => existing_file_end,
                None => return invalid(Fault::Text("PT_LOAD file range overflow")),
            };
            if segment.offset < existing_file_end && existing.offset < file_end {
                return invalid(Fault::Text("new PT_LOAD overlaps an existing file range"));
            }
            let existing_memory_end = match existing.virtual_address.checked_add(
                existing.memory_size,
            ) {
                Some(existing_memory_end) => existing_memory_end,
                None => return invalid(Fault::Text("PT_LOAD memory range overflow")),
            };
            if segment.virtual_address < existing_memory_end && existing.virtual_address
                < memory_end {
                return invalid(Fault::Text("new PT_LOAD overlaps an existing memory range"));
            }
            index += 1;
        }
        Ok(())
    }

    /// The layout with one more segment and a table of `count` entries at `offset`.
    fn with_segment(&self, segment: LoadSegment, offset: usize, count: usize) -> (updated: Self)
        ensures
            updated@ == self@.with_segment(segment, offset, count),
    {
        let mut updated = self.clone();
        updated.program_header_offset = offset;
        updated.program_header_count = count;
        updated.program_headers.push(segment);
        updated
    }

    /// Moves the program header table to the start of a new segment.
    fn append_relocated(&self, output: &mut [u8], segment: LoadSegment) -> (result: Result<Self>)
        requires
            self.program_header_size == 0x38,
            self.program_header_count + 1 <= u16::MAX,
            segment.offset + segment.file_size <= old(output)@.len(),
        ensures
            ({
                let appended = self@.appended_relocated(old(output)@, segment);
                &&& final(output)@ == appended.image
                &&& layout::layout_agrees(result, appended.layout)
            }),
    {
        broadcast use bytes::group_bytes_len;

        let length: usize = output.len();
        let new_count: usize = self.program_header_count + 1;
        let old_size: usize = self.program_header_count * PROGRAM_HEADER_SIZE;
        let new_size: usize = new_count * PROGRAM_HEADER_SIZE;
        if !self.has_program_header_type(output, PT_PHDR)? {
            return invalid(
                Fault::Text(
                    "cannot safely relocate program headers without PT_PHDR or a redundant PT_NOTE",
                ),
            );
        }
        if segment.file_size < new_size as u64 {
            return invalid(Fault::Text("new PT_LOAD is too small for relocated program headers"));
        }
        let relocated: usize = segment.offset as usize;
        let mut table = copy_of(slice(output, self.program_header_offset, old_size)?);
        let header = encode_program_header(segment);
        extend(&mut table, &header);
        store(output, relocated, &table);
        store(output, 0x20, &bytes_of_u64(segment.offset));
        update_pt_phdr(
            output,
            relocated,
            self.program_header_count,
            Some((segment.offset, segment.virtual_address)),
            new_size as u64,
        );
        store(output, 0x38, &bytes_of_u16(new_count as u16));
        Ok(self.with_segment(segment, relocated, new_count))
    }

    /// Adds a loadable segment. `reserved_program_header_bytes` is what
    /// [`ElfLayout::additional_program_header_reservation`] asked for: the bytes at the start of
    /// the segment that are set aside for a moved program header table.
    pub fn append_load_segment(
        &self,
        output: &mut [u8],
        segment: LoadSegment,
        reserved_program_header_bytes: usize,
    ) -> (result: Result<Self>)
        ensures
            ({
                let appended = self@.spec_append_load_segment(
                    old(output)@,
                    segment,
                    reserved_program_header_bytes,
                );
                &&& final(output)@ == appended.image
                &&& layout::layout_agrees(result, appended.layout)
            }),
    {
        broadcast use bytes::group_bytes_len;

        let length: usize = output.len();
        self.check_new_segment(segment, length)?;
        let new_count = match self.program_header_count.checked_add(1) {
            Some(new_count) => new_count,
            None => return invalid(Fault::Text("program header count overflow")),
        };
        if new_count > u16::MAX as usize {
            return invalid(Fault::Text("program header count exceeds u16"));
        }
        let reservation = self.additional_program_header_reservation()?;
        if reserved_program_header_bytes != reservation {
            return invalid(
                Fault::Reservation { expected: reservation, got: reserved_program_header_bytes },
            );
        }
        if reservation == 0 {
            let at: usize = self.program_header_offset + self.program_header_count
                * PROGRAM_HEADER_SIZE;
            if at + PROGRAM_HEADER_SIZE > length {
                return invalid(Fault::Text("new program header exceeds output"));
            }
            let header = encode_program_header(segment);
            store(output, at, &header);
            update_pt_phdr(
                output,
                self.program_header_offset,
                self.program_header_count,
                None,
                (new_count * PROGRAM_HEADER_SIZE) as u64,
            );
            if length < 0x3a {
                return invalid(Fault::Text("ELF header is truncated"));
            }
            store(output, 0x38, &bytes_of_u16(new_count as u16));
            return Ok(self.with_segment(segment, self.program_header_offset, new_count));
        }
        match self.reusable_note_program_header(output)? {
            Some(index) => {
                proof {
                    lemma_note_index(self@, output@);
                }
                let at: usize = self.program_header_offset + index * PROGRAM_HEADER_SIZE;
                if at + PROGRAM_HEADER_SIZE > length {
                    return invalid(Fault::Text("reused program header exceeds output"));
                }
                let header = encode_program_header(segment);
                store(output, at, &header);
                Ok(self.with_segment(segment, self.program_header_offset, self.program_header_count))
            },
            None => self.append_relocated(output, segment),
        }
    }
}

/// Once a program header of the wanted type is found, the search stays successful.
proof fn lemma_kind_found(data: Seq<u8>, table: int, kind: u32, i: nat, n: nat)
    requires
        i <= n,
        fold::try_fold(i, false, kind_step(data, table, kind)) == Ok::<bool, Error>(true),
    ensures
        fold::try_fold(n, false, kind_step(data, table, kind)) == Ok::<bool, Error>(true),
    decreases n,
{
    if i < n {
        lemma_kind_found(data, table, kind, i, (n - 1) as nat);
    }
}

/// A note that can be given up is one of the table's entries.
proof fn lemma_note_scan(data: Seq<u8>, table: int, segments: Seq<LoadSegment>, n: nat)
    requires
        0 <= table,
        n <= usize::MAX,
    ensures
        fold::try_fold(
            n,
            NoteScan { notes: 0, best: None },
            note_step(data, table, segments),
        ) matches Ok(scan) ==> match scan.best {
            Some((_, index)) => index < n && bytes::u32_at(data, table + index * 0x38) == PT_NOTE,
            None => true,
        },
    decreases n,
{
    if n > 0 {
        lemma_note_scan(data, table, segments, (n - 1) as nat);
    }
}

/// A note that can be given up is one of the table's entries.
pub proof fn lemma_note_index(layout: LayoutModel, data: Seq<u8>)
    ensures
        layout.spec_reusable_note_program_header(data) matches Ok(Some(index)) ==> index
            < layout.program_header_count && bytes::u32_at(
            data,
            layout.program_header_offset + index * 0x38,
        ) == PT_NOTE,
{
    lemma_note_scan(
        data,
        layout.program_header_offset as int,
        layout.program_headers,
        layout.program_header_count as nat,
    );
}

} // verus!

//! Where the parts of a restored file go, and which restored files are accepted.

use super::finalize;
use super::finalize::{ExpectedCounts, PlanModel, TailState};
use super::restore;
use super::section_laws;
use super::section_laws::up;
use super::sections;
use crate::bytes;
use crate::elf::layout;
use crate::elf::layout::LayoutModel;
use crate::elf::layout_laws;
use crate::elf::read;
use crate::elf::{SectionHeader, SHT_LOUSER};
use crate::fold;
use vstd::prelude::*;

verus! {

/// The section has bytes in the file that no segment holds: it is not of type 8, its second lowest
/// flag is not set, and it is not empty.
pub open spec fn moves(section: SectionHeader) -> bool {
    section.section_type != 8 && section.flags % 4 < 2 && section.size > 0
}

/// A section keeps its place exactly when it does not move.
pub proof fn law_sections_that_stay(section: SectionHeader)
    ensures
        finalize::stays(section) <==> !moves(section),
{
}

/// The alignment of a section; none means one.
pub open spec fn step_of(section: SectionHeader) -> int {
    if section.alignment > 0 {
        section.alignment as int
    } else {
        1
    }
}

/// Where the first `n` sections end when those that move are put behind `start`, each at the next
/// multiple of its alignment.
pub open spec fn end_of(sections: Seq<SectionHeader>, start: int, n: nat) -> int
    decreases n,
{
    if n == 0 {
        start
    } else {
        let before = end_of(sections, start, (n - 1) as nat);
        let section = sections[n - 1];
        if moves(section) {
            up(before, step_of(section)) + section.size
        } else {
            before
        }
    }
}

/// Rounding up, both ways.
proof fn lemma_up_is_aligned(value: int, alignment: int)
    requires
        0 <= value,
        0 < alignment,
    ensures
        read::aligned(value, alignment) == up(value, alignment),
        value <= up(value, alignment) < value + alignment,
        up(value, alignment) % alignment == 0,
{
    read::lemma_aligned(value, alignment);
    section_laws::lemma_up_is_least(value, alignment);
}

/// Each of the first `n` sections that moves lies within the source.
pub open spec fn lie_within(source: Seq<u8>, sections: Seq<SectionHeader>, n: nat) -> bool {
    forall|k: int|
        0 <= k < n && moves(#[trigger] sections[k]) ==> sections[k].offset + sections[k].size
            <= source.len()
}

/// What planning the first sections comes to.
proof fn lemma_planned(source: Seq<u8>, sections: Seq<SectionHeader>, start: u64, n: nat)
    requires
        n <= sections.len(),
        source.len() <= usize::MAX,
    ensures
        ({
            let run = fold::try_fold(
                n,
                finalize::tail_start(start),
                finalize::tail_step(source, sections),
            );
            &&& run is Ok <==> lie_within(source, sections, n) && end_of(
                sections,
                start as int,
                n,
            ) <= 18446744073709551615
            &&& end_of(sections, start as int, n) >= start
            &&& run matches Ok(state) ==> {
                &&& state.position == end_of(sections, start as int, n)
                &&& state.headers.len() == n
                &&& forall|k: int|
                    0 <= k < n ==> #[trigger] state.headers[k] == planned(
                        sections,
                        start as int,
                        k,
                    )
            }
        }),
    decreases n,
{
    if n > 0 {
        let m = (n - 1) as nat;
        lemma_planned(source, sections, start, m);
        let section = sections[m as int];
        let before = end_of(sections, start as int, m);
        lemma_up_is_aligned(before, step_of(section));
        law_sections_that_stay(section);
        let step = finalize::tail_step(source, sections);
        let run = fold::try_fold(n, finalize::tail_start(start), step);
        let earlier = fold::try_fold(m, finalize::tail_start(start), step);
        assert(lie_within(source, sections, n) ==> lie_within(source, sections, m));
        if earlier is Ok {
            assert(run == step(earlier->Ok_0, m as int));
            let slice = read::spec_slice_u64(source, section.offset, section.size);
            assert(slice is Ok <==> section.offset + section.size <= source.len());
            if run is Ok {
                assert forall|k: int| 0 <= k < n implies #[trigger] run->Ok_0.headers[k] == planned(
                    sections,
                    start as int,
                    k,
                ) by {
                    if k < m {
                        assert(run->Ok_0.headers[k] == earlier->Ok_0.headers[k]);
                    }
                }
            }
        }
    }
}

/// The header of section `k`, which names the next multiple of its alignment as its place if the
/// section moves.
pub open spec fn planned(sections: Seq<SectionHeader>, start: int, k: int) -> SectionHeader {
    let section = sections[k];
    if moves(section) {
        SectionHeader {
            offset: up(end_of(sections, start, k as nat), step_of(section)) as u64,
            ..section
        }
    } else {
        section
    }
}

/// The rest of a restored file is planned exactly when the private section is the last one and does
/// not start behind the data, sections have names, those in front that move lie within the source,
/// and they and the headers behind them stay below 64 bits and 65536 sections. Sections that move
/// follow the data one after the other, and the headers start at the next multiple of eight.
pub proof fn law_plans(
    source: Seq<u8>,
    layout: LayoutModel,
    data_start: u64,
    preserve_entrypoint: bool,
    k: int,
)
    requires
        source.len() <= usize::MAX,
        layout.section_headers.len() <= usize::MAX,
    ensures
        ({
            let plan = finalize::spec_plan(source, layout, data_start, preserve_entrypoint);
            let headers = layout.section_headers;
            let count = layout.private_section_index as int;
            let end = end_of(headers, data_start as int, count as nat);
            &&& plan is Ok <==> {
                &&& count + 1 == headers.len()
                &&& headers[count].offset <= data_start
                &&& layout.spec_section_names(source) is Ok
                &&& lie_within(source, headers, count as nat)
                &&& up(end, 8) <= 18446744073709551615
                &&& count <= 65535
            }
            &&& plan is Ok ==> {
                let report = plan->Ok_0.report;
                &&& plan->Ok_0.section_count == count
                &&& plan->Ok_0.headers.len() == count
                &&& 0 <= k < count ==> plan->Ok_0.headers[k] == planned(
                    headers,
                    data_start as int,
                    k,
                )
                &&& plan->Ok_0.header_padding == up(end, 8) - end
                &&& report.section_header_offset == up(end, 8)
                &&& report.private_section_index == count
                &&& report.private_offset == headers[count].offset
                &&& report.private_size == headers[count].size
                &&& report.input_entrypoint == layout.entrypoint
                &&& report.output_entrypoint == if preserve_entrypoint {
                    layout.entrypoint
                } else {
                    0
                }
                &&& report.output_section_count == count
                &&& report.retained_sections == layout.spec_section_names(source)->Ok_0.subrange(
                    0,
                    count,
                )
            }
        }),
{
    let headers = layout.section_headers;
    let count = layout.private_section_index as int;
    if count < headers.len() {
        let retained = headers.take(count);
        lemma_planned(source, retained, data_start, count as nat);
        lemma_same_ends(headers, retained, data_start as int, count as nat);
        lemma_up_is_aligned(end_of(headers, data_start as int, count as nat), 8);
        assert(lie_within(source, retained, count as nat) <==> lie_within(
            source,
            headers,
            count as nat,
        )) by {
            assert(forall|i: int| 0 <= i < count ==> headers[i] == #[trigger] retained[i]);
            assert(forall|i: int| 0 <= i < count ==> retained[i] == #[trigger] headers[i]);
        }
        if 0 <= k < count {
            lemma_same_ends(headers, retained, data_start as int, k as nat);
            assert(planned(headers, data_start as int, k) == planned(
                retained,
                data_start as int,
                k,
            ));
        }
        layout::lemma_one_name_each(layout, source);
    }
}

/// Where sections end depends on those sections alone.
proof fn lemma_same_ends(a: Seq<SectionHeader>, b: Seq<SectionHeader>, start: int, n: nat)
    requires
        n <= a.len(),
        n <= b.len(),
        forall|i: int| 0 <= i < n ==> a[i] == #[trigger] b[i],
    ensures
        end_of(a, start, n) == end_of(b, start, n),
    decreases n,
{
    if n > 0 {
        lemma_same_ends(a, b, start, (n - 1) as nat);
        assert(a[n - 1] == b[n - 1]);
    }
}

/// Updating a file header changes nothing but the place and the number of the section headers and,
/// unless it is kept, the entry point.
pub proof fn law_other_header_fields_stay(
    header: Seq<u8>,
    preserve_entrypoint: bool,
    section_header_offset: u64,
    section_count: u16,
    i: int,
)
    requires
        header.len() == 64,
        0 <= i < 64,
        preserve_entrypoint || !(24 <= i < 32),
        !(40 <= i < 48),
        !(60 <= i < 62),
    ensures
        finalize::patched_header(
            header,
            preserve_entrypoint,
            section_header_offset,
            section_count,
        )[i] == header[i],
{
    broadcast use bytes::group_bytes_len;

}

/// How many bytes the pieces of a plan have.
proof fn lemma_pieces_size(source: Seq<u8>, sections: Seq<SectionHeader>, start: u64, n: nat)
    requires
        n <= sections.len(),
        source.len() <= usize::MAX,
    ensures
        fold::try_fold(
            n,
            finalize::tail_start(start),
            finalize::tail_step(source, sections),
        ) matches Ok(state) ==> state.position == start + finalize::piece_bytes(
            source,
            state.pieces,
        ).len(),
    decreases n,
{
    if n > 0 {
        let m = (n - 1) as nat;
        lemma_pieces_size(source, sections, start, m);
        let step = finalize::tail_step(source, sections);
        let run = fold::try_fold(n, finalize::tail_start(start), step);
        let earlier = fold::try_fold(m, finalize::tail_start(start), step);
        if run is Ok {
            let (a, b): (TailState, TailState) = (earlier->Ok_0, run->Ok_0);
            if !finalize::stays(sections[m as int]) {
                assert(b.pieces.drop_last() =~= a.pieces);
                lemma_planned(source, sections, start, m);
                read::lemma_aligned(a.position, finalize::alignment_of(sections[m as int]));
            }
        }
    }
}

/// Encoded headers have 64 bytes each.
proof fn lemma_headers_size(headers: Seq<SectionHeader>)
    ensures
        finalize::encoded_headers(headers).len() == headers.len() * 64,
    decreases headers.len(),
{
    if headers.len() > 0 {
        lemma_headers_size(headers.drop_last());
        layout::law_section_header_round_trip(headers.last());
    }
}

/// A restored file is written exactly when its rest can be planned and it has room for a file
/// header. It ends with the section headers, and holds the image behind the file header.
pub proof fn law_restored_files(
    image: Seq<u8>,
    source: Seq<u8>,
    layout: LayoutModel,
    preserve_entrypoint: bool,
    i: int,
)
    requires
        source.len() <= usize::MAX,
        image.len() <= usize::MAX,
        layout.section_headers.len() <= usize::MAX,
    ensures
        ({
            let plan = finalize::spec_plan(
                source,
                layout,
                image.len() as u64,
                preserve_entrypoint,
            );
            let file = finalize::spec_finalize(image, source, layout, preserve_entrypoint);
            let size = plan->Ok_0.report.section_header_offset + layout.private_section_index * 64;
            &&& file is Ok <==> plan is Ok && size >= 64
            &&& file is Ok ==> {
                &&& file->Ok_0.report == plan->Ok_0.report
                &&& file->Ok_0.data.len() == size
                &&& 64 <= i < image.len() ==> file->Ok_0.data[i] == image[i]
                &&& image.len() >= 64 ==> file->Ok_0.data.subrange(0, 64)
                    == finalize::patched_header(
                    image.subrange(0, 64),
                    preserve_entrypoint,
                    plan->Ok_0.report.section_header_offset,
                    layout.private_section_index as u16,
                )
            }
        }),
{
    broadcast use bytes::group_bytes_len;

    let start = image.len() as u64;
    let plan = finalize::spec_plan(source, layout, start, preserve_entrypoint);
    law_plans(source, layout, start, preserve_entrypoint, 0);
    if plan is Ok {
        let made: PlanModel = plan->Ok_0;
        let count = layout.private_section_index as int;
        let retained = layout.section_headers.take(count);
        lemma_pieces_size(source, retained, start, count as nat);
        lemma_planned(source, retained, start, count as nat);
        lemma_same_ends(layout.section_headers, retained, start as int, count as nat);
        lemma_headers_size(made.headers);
        let whole = image + finalize::tail_bytes(source, made);
        if whole.len() >= 64 {
            let patched = finalize::patched_header(
                whole.take(64),
                preserve_entrypoint,
                made.report.section_header_offset,
                made.section_count,
            );
            assert(patched.len() == 64);
            if image.len() >= 64 {
                assert(whole.take(64) =~= image.subrange(0, 64));
                assert(bytes::overwrite(whole, 0, patched).subrange(0, 64) =~= patched);
            }
        }
    }
}

/// The table counts are those of the sections of that name, at 24 bytes an entry.
#[verifier::opaque]
pub open spec fn counts_are(
    headers: Seq<SectionHeader>,
    names: Seq<Seq<char>>,
    counts: ExpectedCounts,
) -> bool {
    &&& exists|i: int|
        section_laws::is_only(names, ".dynsym"@, i) && counts.symbols == headers[i].size / 24
    &&& exists|i: int|
        section_laws::is_only(names, ".rela.dyn"@, i) && counts.rela_dyn == headers[i].size / 24
    &&& exists|i: int|
        section_laws::is_only(names, ".rela.plt"@, i) && counts.rela_plt == headers[i].size / 24
}

/// A table is counted by the size of the only section of its name.
proof fn lemma_counted(headers: Seq<SectionHeader>, names: Seq<Seq<char>>, wanted: &'static str)
    requires
        names.len() <= usize::MAX,
        headers.len() == names.len(),
    ensures
        sections::spec_section_by_name(headers, names, wanted) matches Ok(found) ==> exists|i: int|
            #[trigger] section_laws::is_only(names, wanted@, i) && found == headers[i],
        sections::spec_section_by_name(headers, names, wanted) is Ok <==> section_laws::is_there(
            names,
            wanted@,
        ),
{
    section_laws::law_named_section(headers, names, wanted, 0);
    if section_laws::is_there(names, wanted@) {
        let i = choose|i: int| section_laws::is_only(names, wanted@, i);
        section_laws::law_named_section(headers, names, wanted, i);
    }
}

/// A restored file is accepted exactly when it can be read, none of its sections is private, its
/// entry point is zero unless it is kept, its sections have names, of which the three tables have
/// one each, and the tables have as many entries as expected. It is reported with those numbers.
/// This is stated for machines whose words have 64 bits, where every count fits.
pub proof fn law_restored_files_are_validated(
    data: Seq<u8>,
    preserve_entrypoint: bool,
    expected: Option<ExpectedCounts>,
)
    requires
        data.len() <= usize::MAX,
        usize::MAX == u64::MAX,
    ensures
        ({
            let checked = finalize::spec_validate_restored_binary(
                data,
                preserve_entrypoint,
                expected,
            );
            let parsed = LayoutModel::spec_parse(data, false);
            let headers = parsed->Ok_0.section_headers;
            let names = parsed->Ok_0.spec_section_names(data);
            &&& checked is Ok <==> {
                &&& parsed is Ok
                &&& forall|k: int|
                    0 <= k < headers.len() ==> (#[trigger] headers[k]).section_type != 0x80000000
                &&& preserve_entrypoint || parsed->Ok_0.entrypoint == 0
                &&& names is Ok
                &&& section_laws::is_there(names->Ok_0, ".dynsym"@)
                &&& section_laws::is_there(names->Ok_0, ".rela.dyn"@)
                &&& section_laws::is_there(names->Ok_0, ".rela.plt"@)
                &&& expected is Some ==> counts_are(headers, names->Ok_0, expected->0)
            }
            &&& checked is Ok ==> {
                let report = checked->Ok_0;
                &&& report.format@ == "ELF64"@
                &&& report.machine@ == "AARCH64"@
                &&& report.sections == headers.len()
                &&& report.segments == parsed->Ok_0.program_headers.len()
                &&& !report.has_louser
                &&& counts_are(
                    headers,
                    names->Ok_0,
                    ExpectedCounts {
                        symbols: report.dynamic_symbols,
                        rela_dyn: report.dynamic_relocations,
                        rela_plt: report.pltgot_relocations,
                    },
                )
            }
        }),
{
    lemma_validated(data, preserve_entrypoint, expected);
    lemma_few_sections(data);
    let parsed = LayoutModel::spec_parse(data, false);
    if parsed is Ok && parsed->Ok_0.spec_section_names(data) is Ok {
        lemma_table_counts(parsed->Ok_0, parsed->Ok_0.spec_section_names(data)->Ok_0);
    }
}

/// What accepting a restored file comes to.
proof fn lemma_validated(
    data: Seq<u8>,
    preserve_entrypoint: bool,
    expected: Option<ExpectedCounts>,
)
    ensures
        ({
            let checked = finalize::spec_validate_restored_binary(
                data,
                preserve_entrypoint,
                expected,
            );
            let parsed = LayoutModel::spec_parse(data, false);
            let headers = parsed->Ok_0.section_headers;
            let names = parsed->Ok_0.spec_section_names(data);
            let counted = finalize::spec_table_counts(parsed->Ok_0, names->Ok_0);
            &&& checked is Ok <==> {
                &&& parsed is Ok
                &&& forall|k: int|
                    0 <= k < headers.len() ==> (#[trigger] headers[k]).section_type != 0x80000000
                &&& preserve_entrypoint || parsed->Ok_0.entrypoint == 0
                &&& names is Ok
                &&& counted is Ok
                &&& expected is Some ==> expected->0 == counted->Ok_0
            }
            &&& checked is Ok ==> {
                let report = checked->Ok_0;
                &&& report.format@ == "ELF64"@
                &&& report.machine@ == "AARCH64"@
                &&& report.sections == headers.len() as usize
                &&& report.segments == parsed->Ok_0.program_headers.len() as usize
                &&& !report.has_louser
                &&& counted->Ok_0 == (ExpectedCounts {
                    symbols: report.dynamic_symbols,
                    rela_dyn: report.dynamic_relocations,
                    rela_plt: report.pltgot_relocations,
                })
            }
        }),
{
    let headers = LayoutModel::spec_parse(data, false)->Ok_0.section_headers;
    if finalize::has_private(headers) {
        let k = choose|k: int|
            0 <= k < headers.len() && (#[trigger] headers[k]).section_type == SHT_LOUSER;
        assert(headers[k].section_type == 0x80000000);
    }
}

/// At most as many program headers are loadable as there are.
proof fn lemma_few_loadable(data: Seq<u8>, k: int)
    ensures
        layout_laws::loadable_before(data, k) <= if k > 0 {
            k
        } else {
            0
        },
    decreases k,
{
    if k > 0 {
        lemma_few_loadable(data, k - 1);
    }
}

/// A file that can be read has at most 65535 sections and segments, and a name for each section.
proof fn lemma_few_sections(data: Seq<u8>)
    requires
        data.len() <= usize::MAX,
    ensures
        LayoutModel::spec_parse(data, false) matches Ok(parsed) ==> {
            &&& parsed.section_headers.len() <= 65535
            &&& parsed.program_headers.len() <= 65535
            &&& parsed.spec_section_names(data) matches Ok(names) ==> names.len()
                == parsed.section_headers.len()
        },
{
    if LayoutModel::spec_parse(data, false) is Ok {
        let parsed = LayoutModel::spec_parse(data, false)->Ok_0;
        layout::lemma_one_name_each(parsed, data);
        layout_laws::law_layout_is_what_the_file_says(data, false, 0);
        lemma_few_loadable(data, bytes::u16_at(data, 0x38) as int);
    }
}

/// The tables can be counted where each is there once.
proof fn lemma_table_counts(layout: LayoutModel, names: Seq<Seq<char>>)
    requires
        names.len() == layout.section_headers.len() <= usize::MAX,
        usize::MAX == u64::MAX,
    ensures
        ({
            let counted = finalize::spec_table_counts(layout, names);
            &&& counted is Ok <==> section_laws::is_there(names, ".dynsym"@)
                && section_laws::is_there(names, ".rela.dyn"@) && section_laws::is_there(
                names,
                ".rela.plt"@,
            )
            &&& counted is Ok ==> forall|other: ExpectedCounts|
                #[trigger] counts_are(layout.section_headers, names, other) <==> other
                    == counted->Ok_0
        }),
{
    reveal(counts_are);
    let headers = layout.section_headers;
    lemma_counted(headers, names, ".dynsym");
    lemma_counted(headers, names, ".rela.dyn");
    lemma_counted(headers, names, ".rela.plt");
    let counted = finalize::spec_table_counts(layout, names);
    if counted is Ok {
        let a = choose|i: int|
            #[trigger] section_laws::is_only(names, ".dynsym"@, i)
                && sections::spec_section_by_name(headers, names, ".dynsym")->Ok_0 == headers[i];
        let b = choose|i: int|
            #[trigger] section_laws::is_only(names, ".rela.dyn"@, i)
                && sections::spec_section_by_name(headers, names, ".rela.dyn")->Ok_0 == headers[i];
        let c = choose|i: int|
            #[trigger] section_laws::is_only(names, ".rela.plt"@, i)
                && sections::spec_section_by_name(headers, names, ".rela.plt")->Ok_0 == headers[i];
        assert forall|other: ExpectedCounts| #[trigger]
            counts_are(headers, names, other) <==> other == counted->Ok_0 by {
            if counts_are(headers, names, other) {
                let i = choose|i: int|
                    section_laws::is_only(names, ".dynsym"@, i) && other.symbols == headers[i].size
                        / 24;
                let j = choose|i: int|
                    section_laws::is_only(names, ".rela.dyn"@, i) && other.rela_dyn
                        == headers[i].size / 24;
                let k = choose|i: int|
                    section_laws::is_only(names, ".rela.plt"@, i) && other.rela_plt
                        == headers[i].size / 24;
                assert(i == a && j == b && k == c);
            }
        }
    }
}

/// The private section of a protected image is accepted exactly when it starts where the segments
/// end in the file, rounded up to 16 bytes, and all bytes in between are zero.
pub proof fn law_private_sections(source: Seq<u8>, layout: LayoutModel)
    requires
        source.len() <= usize::MAX,
    ensures
        ({
            let checked = restore::spec_check_private(source, layout);
            let index = layout.private_section_index as int;
            let private = layout.section_headers[index];
            let end = layout.spec_file_load_end();
            &&& checked is Ok <==> {
                &&& index < layout.section_headers.len()
                &&& end is Ok
                &&& end->Ok_0 + 15 <= 18446744073709551615
                &&& private.offset == up(end->Ok_0 as int, 16) <= source.len()
                &&& forall|i: int| end->Ok_0 <= i < private.offset ==> source[i] == 0
            }
            &&& checked is Ok ==> checked->Ok_0 == private
            &&& restore::spec_start_image(source, layout) is Ok <==> checked is Ok
            &&& checked is Ok ==> restore::spec_start_image(source, layout)->Ok_0
                == source.subrange(0, private.offset as int)
        }),
{
    reveal_with_fuel(read::is_power_of_two, 6);
    assert(read::is_power_of_two(16));
    let end = layout.spec_file_load_end();
    if end is Ok {
        let e = end->Ok_0 as int;
        lemma_up_is_aligned(e, 16);
        if layout.private_section_index < layout.section_headers.len() && e + 15
            <= 18446744073709551615 {
            let private = layout.section_headers[layout.private_section_index as int];
            if private.offset == up(e, 16) && private.offset <= source.len() {
                let padding = source.subrange(e, private.offset as int);
                assert(bytes::all_zero(padding) <==> forall|i: int|
                    e <= i < private.offset ==> source[i] == 0) by {
                    if bytes::all_zero(padding) {
                        assert forall|i: int| e <= i < private.offset implies source[i] == 0 by {
                            assert(padding[i - e] == 0);
                        }
                    }
                }
            }
        }
    }
}

/// An image is extended exactly when the mapping holds it, and then by zeros up to the mapping's
/// length.
pub proof fn law_extended_images(
    image: Seq<u8>,
    source: Seq<u8>,
    layout: LayoutModel,
    auxiliary_data: Seq<u8>,
    i: int,
)
    ensures
        ({
            let extended = restore::spec_extend_image(image, source, layout, auxiliary_data);
            let length = sections::spec_metadata_mapping_length(source, layout, auxiliary_data);
            &&& extended is Ok <==> length is Ok && image.len() <= length->Ok_0
            &&& extended is Ok ==> {
                &&& extended->Ok_0.len() == length->Ok_0
                &&& 0 <= i < image.len() ==> extended->Ok_0[i] == image[i]
                &&& image.len() <= i < length->Ok_0 ==> extended->Ok_0[i] == 0
            }
        }),
{
}

/// A resized image has the wanted size, keeps its bytes as far as there is room, and has zeros
/// behind them.
pub proof fn law_resized_images(image: Seq<u8>, size: int, i: int)
    requires
        0 <= i < size,
    ensures
        restore::resized(image, size).len() == size,
        restore::resized(image, size)[i] == if i < image.len() {
            image[i]
        } else {
            0
        },
{
}

/// The auxiliary container is accepted exactly when its size is the announced one and it starts
/// where the primary one ends.
pub proof fn law_auxiliary_containers(
    output_size: u32,
    announced: u32,
    primary_end: usize,
    auxiliary_offset: u32,
)
    ensures
        restore::spec_check_auxiliary(output_size, announced, primary_end, auxiliary_offset) is Ok
            <==> output_size - announced == 0 && primary_end - auxiliary_offset == 0,
{
}

} // verus!

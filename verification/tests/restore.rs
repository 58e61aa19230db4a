use senbei::elf::layout::PT_LOAD;
use senbei::elf::{ElfLayout, SectionHeader, SHF_ALLOC, SHT_LOUSER, SHT_STRTAB};
use senbei::engine::finalize::{
    finalize_clean_elf, patch_elf_header, plan_clean_elf, validate_restored_binary, ExpectedCounts,
};
use senbei::engine::materialize::{materialize_static_elf_tables, merge_relocations};
use senbei::engine::merge::merge_symbols;
use senbei::engine::placement::{PlacementReport, TableSlot};
use senbei::engine::restore::{
    check_auxiliary_container, check_mapping_length, check_primary_output, check_private_section,
    check_target_size, complete_restore, extend_image, overwrites_input, start_image,
    DescriptorFields, DescriptorReport, StaticConfigReport, TableInputs,
};
use senbei::engine::sections::{
    metadata_capacity_end, metadata_mapping_length, required_section_indices, section_by_name,
};

const DYNSYM: usize = 1;
const VERSYM: usize = 2;
const DYNSTR: usize = 6;
const RELA_DYN: usize = 7;
const RELA_PLT: usize = 8;
const DYNAMIC: usize = 10;
const SHSTRTAB: usize = 11;
const PRIVATE: usize = 12;

fn put(data: &mut [u8], at: usize, bytes: &[u8]) {
    data[at..at + bytes.len()].copy_from_slice(bytes);
}

fn put64(data: &mut [u8], at: usize, value: u64) {
    put(data, at, &value.to_le_bytes());
}

fn get64(data: &[u8], at: usize) -> u64 {
    let mut word = [0_u8; 8];
    word.copy_from_slice(&data[at..at + 8]);
    u64::from_le_bytes(word)
}

fn get32(data: &[u8], at: usize) -> u32 {
    let mut word = [0_u8; 4];
    word.copy_from_slice(&data[at..at + 4]);
    u32::from_le_bytes(word)
}

fn section(offset: u64, size: u64, entry_size: u64) -> SectionHeader {
    SectionHeader {
        name: 0,
        section_type: 1,
        flags: SHF_ALLOC,
        address: offset,
        offset,
        size,
        link: 0,
        info: 0,
        alignment: 8,
        entry_size,
    }
}

fn put_rela(data: &mut [u8], at: usize, offset: u64, symbol: u64, kind: u64, addend: i64) {
    put64(data, at, offset);
    put64(data, at + 8, symbol << 32 | kind);
    put(data, at + 0x10, &addend.to_le_bytes());
}

// A protected library: one segment of 0x2000 bytes whose dynamic tables lie from 0x200 on and may
// grow up to `text`, a private section behind the segment, and section headers at the end.
fn protected(text: u64) -> Vec<u8> {
    let mut data = vec![0_u8; 0x2600];
    put(&mut data, 0, b"\x7fELF\x02\x01\x01");
    put(&mut data, 0x10, &3_u16.to_le_bytes());
    put(&mut data, 0x12, &183_u16.to_le_bytes());
    put64(&mut data, 0x18, 0x1008);
    put64(&mut data, 0x20, 0x40);
    put64(&mut data, 0x28, 0x2200);
    put(&mut data, 0x34, &0x40_u16.to_le_bytes());
    put(&mut data, 0x36, &0x38_u16.to_le_bytes());
    put(&mut data, 0x38, &1_u16.to_le_bytes());
    put(&mut data, 0x3a, &0x40_u16.to_le_bytes());
    put(&mut data, 0x3c, &13_u16.to_le_bytes());
    put(&mut data, 0x3e, &11_u16.to_le_bytes());
    put(&mut data, 0x40, &PT_LOAD.to_le_bytes());
    put(&mut data, 0x44, &5_u32.to_le_bytes());
    put64(&mut data, 0x60, 0x2000);
    put64(&mut data, 0x68, 0x2000);
    put64(&mut data, 0x70, 0x1000);

    put(&mut data, 0x240, &[0, 0, 1, 0]);
    put(&mut data, 0x250, b"version-require!");
    put_rela(&mut data, 0x2b0, 0x1500, 0, 0x403, 0x77);
    put_rela(&mut data, 0x2c8, 0x1508, 1, 0x402, 0);
    let tags: [u64; 13] = [
        2,
        4,
        5,
        6,
        7,
        8,
        10,
        23,
        0x6fff_fef5,
        0x6fff_fff0,
        0x6fff_fff9,
        0x6fff_fffe,
        0,
    ];
    for (index, tag) in tags.into_iter().enumerate() {
        put64(&mut data, 0x1100 + index * 0x10, tag);
    }

    let names = b"\0.dynsym\0.gnu.version\0.gnu.version_r\0.gnu.hash\0.hash\0.dynstr\0.rela.dyn\0.rela.plt\0.text\0.dynamic\0.shstrtab\0.private\0";
    put(&mut data, 0x2100, names);
    let mut headers = vec![
        SectionHeader {
            name: 0,
            section_type: 0,
            flags: 0,
            address: 0,
            offset: 0,
            size: 0,
            link: 0,
            info: 0,
            alignment: 0,
            entry_size: 0,
        },
        section(0x200, 0x30, 0x18),
        section(0x240, 4, 2),
        section(0x250, 0x10, 0),
        section(0x260, 0x20, 0),
        section(0x280, 0x18, 4),
        section(0x2a0, 8, 0),
        section(0x2b0, 0x18, 0x18),
        section(0x2c8, 0x18, 0x18),
        section(text, 0x10, 0),
        section(0x1100, 0xd0, 0x10),
        SectionHeader {
            section_type: SHT_STRTAB,
            flags: 0,
            address: 0,
            alignment: 1,
            ..section(0x2100, names.len() as u64, 0)
        },
        SectionHeader {
            section_type: SHT_LOUSER,
            flags: 0,
            address: 0,
            alignment: 1,
            ..section(0x2000, 0x100, 0)
        },
    ];
    let mut at = 1_u32;
    for header in headers.iter_mut().skip(1) {
        header.name = at;
        let length = names[at as usize..].iter().position(|byte| *byte == 0);
        at += length.expect("terminated") as u32 + 1;
    }
    for (index, header) in headers.iter().enumerate() {
        put(&mut data, 0x2200 + index * 0x40, &header.encode());
    }
    data
}

// A patch that gives symbol 1 the name `foo`.
fn symbol_patch() -> Vec<u8> {
    let mut data = vec![0_u8; 0x38];
    put(&mut data, 0, &0x30_u32.to_le_bytes());
    put(&mut data, 4, &7_u32.to_le_bytes());
    put(&mut data, 8, &1_u32.to_le_bytes());
    put(&mut data, 12, &0x10_u32.to_le_bytes());
    put(&mut data, 16, &0x28_u32.to_le_bytes());
    put(&mut data, 20, &0x2c_u32.to_le_bytes());
    put(&mut data, 0x18, &1_u32.to_le_bytes());
    put(&mut data, 0x1c, &[0x12, 0, 0, 0]);
    put64(&mut data, 0x20, 0x1000);
    put(&mut data, 0x30, &1_u32.to_le_bytes());
    put(&mut data, 0x34, b"foo\0");
    data
}

// An auxiliary image with one symbol `bar`, one data relocation and one procedure relocation.
fn auxiliary() -> Vec<u8> {
    let mut data = vec![0_u8; 0xb5];
    let words = [
        0x40_u32, 0, 0x40, 0, 0xb0, 5, 0x80, 2, 0x40, 1, 0x60, 1, 0, 0, 0xb7, 0,
    ];
    for (index, word) in words.into_iter().enumerate() {
        put(&mut data, index * 4, &word.to_le_bytes());
    }
    put_rela(&mut data, 0x40, 0x1510, 1, 0x401, 0);
    put_rela(&mut data, 0x60, 0x1518, 1, 0x402, 0);
    put(&mut data, 0x98, &1_u32.to_le_bytes());
    put(&mut data, 0xb0, b"\0bar\0");
    data
}

fn inputs() -> TableInputs {
    TableInputs {
        symbol_patch_data: symbol_patch(),
        auxiliary_data: auxiliary(),
        gnu_hash: vec![0x5a; 0x10],
        sysv_hash: vec![0xa5; 8],
    }
}

fn layout_of(data: &[u8]) -> ElfLayout {
    ElfLayout::parse(data, true).expect("layout")
}

#[test]
fn an_image_starts_in_front_of_its_private_section() {
    let source = protected(0x1000);
    let layout = layout_of(&source);
    let private = check_private_section(&source, &layout).expect("private");
    assert_eq!(private.offset, 0x2000);
    let image = start_image(&source, &layout).expect("image");
    assert_eq!(image, source[..0x2000]);
}

#[test]
fn a_private_section_in_the_wrong_place_is_refused() {
    let mut source = protected(0x1000);
    put64(&mut source, 0x2200 + PRIVATE * 0x40 + 0x18, 0x2010);
    let error = start_image(&source, &layout_of(&source)).expect_err("place");
    assert_eq!(
        error.to_string(),
        "SHT_LOUSER offset 0x2010 != aligned file-backed PT_LOAD end 0x2000 (raw 0x2000)"
    );

    let mut source = protected(0x1000);
    put64(&mut source, 0x60, 0x1ff8);
    source[0x1ffc] = 1;
    let error = start_image(&source, &layout_of(&source)).expect_err("padding");
    assert_eq!(
        error.to_string(),
        "nonzero padding between PT_LOAD end 0x1ff8 and SHT_LOUSER 0x2000"
    );
}

#[test]
fn symbols_are_merged() {
    let source = protected(0x1000);
    let layout = layout_of(&source);
    let merged = merge_symbols(
        &source[..0x2000],
        &source,
        &layout,
        &symbol_patch(),
        &auxiliary(),
    )
    .expect("merged");
    assert_eq!(merged.names, [b"".to_vec(), b"foo".to_vec(), b"bar".to_vec()]);
    assert_eq!(merged.symbols.len(), 0x48);
    assert_eq!(merged.strings, b"\0foo\0\0\0\0\0bar\0");
    assert_eq!(merged.versions, [0, 0, 1, 0, 1, 0]);
    assert_eq!(merged.version_requirements, b"version-require!");
    assert_eq!(get32(&merged.symbols, 0x18), 1);
    assert_eq!(get32(&merged.symbols, 0x30), 9);
    assert_eq!(merged.hidden_symbols.patch_blob_size, 0x30);
    assert_eq!(merged.hidden_symbols.patched_symbols, 1);
    assert_eq!(merged.hidden_symbols.copied_strings, 1);
    assert_eq!(merged.hidden_symbols.secondary_record_count, 7);
    assert_eq!(merged.hidden_symbols.first_target_index, 1);
    assert_eq!(merged.hidden_symbols.last_target_index, 1);
    assert_eq!(merged.indices.gnu_hash, Some(4));
    assert_eq!(merged.indices.hash, Some(5));
}

#[test]
fn symbols_that_do_not_fit_are_not_merged() {
    let source = protected(0x1000);
    let layout = layout_of(&source);
    let merge = |patch: &[u8], auxiliary: &[u8]| {
        merge_symbols(&source[..0x2000], &source, &layout, patch, auxiliary)
            .expect_err("refused")
            .to_string()
    };
    let mut defined = auxiliary();
    defined[0x9e] = 1;
    assert_eq!(
        merge(&symbol_patch(), &defined),
        "auxiliary dynamic symbol is unexpectedly defined"
    );
    let mut target = symbol_patch();
    target[0x30] = 2;
    assert_eq!(
        merge(&target, &auxiliary()),
        "0x9E target symbol index 2 is invalid"
    );
    let mut name = symbol_patch();
    name[0x18] = 6;
    assert_eq!(
        merge(&name, &auxiliary()),
        "0x9E symbol 1 name exceeds .dynstr"
    );
    let mut versions = protected(0x1000);
    put64(&mut versions, 0x2200 + VERSYM * 0x40 + 0x20, 6);
    assert_eq!(
        merge_symbols(
            &versions[..0x2000],
            &versions,
            &layout_of(&versions),
            &symbol_patch(),
            &auxiliary()
        )
        .expect_err("versions")
        .to_string(),
        ".gnu.version count does not match .dynsym"
    );
    let mut unhashed = protected(0x1000);
    put(&mut unhashed, 0x2200 + 4 * 0x40, &[0; 4]);
    put(&mut unhashed, 0x2200 + 5 * 0x40, &[0; 4]);
    assert_eq!(
        merge_symbols(
            &unhashed[..0x2000],
            &unhashed,
            &layout_of(&unhashed),
            &symbol_patch(),
            &auxiliary()
        )
        .expect_err("no hash")
        .to_string(),
        "ELF lacks a .gnu.hash or .hash symbol-hash section"
    );
    assert_eq!(
        metadata_mapping_length(&unhashed, &layout_of(&unhashed), &auxiliary()).expect("length"),
        0x2110
    );
    let mut twice = protected(0x1000);
    let gnu_hash = get32(&twice, 0x2200 + 4 * 0x40).to_le_bytes();
    put(&mut twice, 0x2200 + 9 * 0x40, &gnu_hash);
    assert_eq!(
        metadata_mapping_length(&twice, &layout_of(&twice), &auxiliary()).expect("length"),
        0x2130
    );
}

#[test]
fn relocations_are_merged_with_relative_ones_first() {
    let source = protected(0x1000);
    let layout = layout_of(&source);
    let auxiliary_data = auxiliary();
    let parsed = senbei::engine::auxiliary::AuxiliaryElfImage::parse(&auxiliary_data)
        .expect("auxiliary image");
    let merged = merge_relocations(
        &source,
        layout.section_headers[RELA_DYN],
        layout.section_headers[RELA_PLT],
        &auxiliary_data,
        &parsed,
        2,
    )
    .expect("merged");
    assert_eq!(merged.relative_count, 1);
    assert_eq!(merged.rela_dyn.len(), 0x30);
    assert_eq!(get64(&merged.rela_dyn, 8), 0x403);
    assert_eq!(get64(&merged.rela_dyn, 0x10), 0x77);
    assert_eq!(get64(&merged.rela_dyn, 0x20), 2 << 32 | 0x401);
    assert_eq!(merged.rela_plt.len(), 0x30);
    assert_eq!(get64(&merged.rela_plt, 8), 1 << 32 | 0x402);
    assert_eq!(get64(&merged.rela_plt, 0x20), 2 << 32 | 0x402);

    let mut wrong = auxiliary_data.clone();
    put64(&mut wrong, 0x48, 1 << 32 | 0x402);
    let error = merge_relocations(
        &source,
        layout.section_headers[RELA_DYN],
        layout.section_headers[RELA_PLT],
        &wrong,
        &parsed,
        2,
    )
    .expect_err("type");
    assert_eq!(
        error.to_string(),
        "auxiliary relocation table 1 contains unsupported relocation type 0x402"
    );
}

#[test]
fn tables_are_rebuilt_in_place_where_there_is_room() {
    let source = protected(0x1000);
    let layout = layout_of(&source);
    let image = start_image(&source, &layout).expect("image");
    let mut image = extend_image(image, &source, &layout, &auxiliary()).expect("extended");
    assert_eq!(image.len(), 0x2130);
    let inputs = inputs();
    let materialized = materialize_static_elf_tables(
        &mut image,
        &source,
        &layout,
        &inputs.symbol_patch_data,
        &inputs.auxiliary_data,
        inputs.gnu_hash,
        inputs.sysv_hash,
    )
    .expect("rebuilt");
    let report = materialized.report;
    assert_eq!(report.old_symbol_count, 2);
    assert_eq!(report.auxiliary_symbol_count, 2);
    assert_eq!(report.appended_symbols, 1);
    assert_eq!(report.new_symbol_count, 3);
    assert_eq!(report.old_dynstr_size, 8);
    assert_eq!(report.auxiliary_dynstr_size, 5);
    assert_eq!(report.new_dynstr_size, 13);
    assert_eq!(report.rela_dyn_count, 2);
    assert_eq!(report.rela_plt_count, 2);
    assert_eq!(report.relative_prefix_count, 1);
    assert_eq!(report.metadata_start, 0x200);
    assert_eq!(report.metadata_end, 0x2e8);
    assert_eq!(report.metadata_capacity_end, 0x1000);
    assert_eq!(report.metadata_slack, 0xd18);
    let places: Vec<(&str, PlacementReport)> = report
        .placements
        .iter()
        .map(|placed| (placed.slot.name(), placed.place))
        .collect();
    let place = |offset: u64, size: usize| PlacementReport { offset, size };
    assert_eq!(
        places,
        vec![
            (".dynsym", place(0x200, 0x48)),
            (".gnu.version", place(0x248, 6)),
            (".gnu.version_r", place(0x250, 0x10)),
            (".gnu.hash", place(0x260, 0x10)),
            (".hash", place(0x270, 8)),
            (".dynstr", place(0x278, 13)),
            (".rela.dyn", place(0x288, 0x30)),
            (".rela.plt", place(0x2b8, 0x30)),
        ]
    );
    assert_eq!(materialized.data_end, 0x2000);
    assert_eq!(materialized.layout.section_headers[DYNSTR].offset, 0x278);
    assert_eq!(materialized.layout.section_headers[DYNSTR].address, 0x278);
    assert_eq!(materialized.layout.section_headers[DYNSTR].size, 13);
    assert_eq!(&image[0x260..0x270], &[0x5a; 0x10]);
    assert_eq!(&image[0x270..0x278], &[0xa5; 8]);
    let values: Vec<u64> = (0..13).map(|k| get64(&image, 0x1108 + k * 0x10)).collect();
    assert_eq!(
        values,
        [0x30, 0x270, 0x278, 0x200, 0x288, 0x30, 13, 0x2b8, 0x260, 0x248, 1, 0x250, 0]
    );
    // What lies outside the tables and the dynamic values stays as it was.
    assert_eq!(&image[..0x200], &source[..0x200]);
    assert_eq!(&image[0x1000..0x1100], &source[0x1000..0x1100]);
    assert_eq!(&image[0x11d0..0x2000], &source[0x11d0..0x2000]);
}

#[test]
fn tables_move_behind_the_image_where_there_is_no_room() {
    let source = protected(0x2e0);
    let layout = layout_of(&source);
    let image = start_image(&source, &layout).expect("image");
    let image = extend_image(image, &source, &layout, &auxiliary()).expect("extended");
    let restored =
        complete_restore(image, &source, &layout, Some(inputs()), false).expect("restored");
    let report = restored.materialization.expect("rebuilt");
    assert_eq!(report.metadata_start, 0x2000);
    assert_eq!(report.metadata_end, 0x20e8);
    assert_eq!(
        metadata_mapping_length(&source, &layout, &auxiliary()).expect("length"),
        0x2130
    );
    assert_eq!(report.metadata_slack, 0);
    let parsed = ElfLayout::parse(&restored.data, false).expect("parsed");
    assert_eq!(parsed.program_headers.len(), 2);
    assert_eq!(parsed.program_headers[1].offset, 0x2000);
    assert_eq!(parsed.program_headers[1].virtual_address, 0x2000);
    assert_eq!(parsed.program_headers[1].file_size, 0xe8);
    assert_eq!(parsed.section_headers[DYNSYM].offset, 0x2000);
    assert_eq!(restored.cleaning.section_header_offset % 8, 0);
    assert_eq!(restored.validation.segments, 2);
}

#[test]
fn a_library_is_restored() {
    let source = protected(0x1000);
    let layout = layout_of(&source);
    let image = start_image(&source, &layout).expect("image");
    let image = extend_image(image, &source, &layout, &auxiliary()).expect("extended");
    let restored =
        complete_restore(image, &source, &layout, Some(inputs()), false).expect("restored");
    let names_size = layout.section_headers[SHSTRTAB].size as usize;
    let file = &restored.data;
    assert_eq!(&file[0x2000..0x2000 + names_size], &source[0x2100..0x2100 + names_size]);
    let parsed = ElfLayout::parse(file, false).expect("parsed");
    assert_eq!(parsed.entrypoint, 0);
    assert_eq!(parsed.section_headers.len(), 12);
    assert_eq!(parsed.section_headers[SHSTRTAB].offset, 0x2000);
    assert_eq!(
        parsed.section_headers[DYNAMIC],
        layout.section_headers[DYNAMIC]
    );
    let cleaning = &restored.cleaning;
    assert_eq!(cleaning.private_section_index, 12);
    assert_eq!(cleaning.private_offset, 0x2000);
    assert_eq!(cleaning.private_size, 0x100);
    assert_eq!(cleaning.input_entrypoint, 0x1008);
    assert_eq!(cleaning.output_entrypoint, 0);
    assert_eq!(cleaning.output_section_count, 12);
    assert_eq!(cleaning.retained_sections[DYNSYM], ".dynsym");
    assert_eq!(cleaning.retained_sections.len(), 12);
    assert_eq!(get64(file, 0x28), cleaning.section_header_offset);
    let validation = restored.validation;
    assert_eq!(validation.format, "ELF64");
    assert_eq!(validation.machine, "AARCH64");
    assert_eq!(validation.sections, 12);
    assert_eq!(validation.segments, 1);
    assert_eq!(validation.dynamic_symbols, 3);
    assert_eq!(validation.dynamic_relocations, 2);
    assert_eq!(validation.pltgot_relocations, 2);
    assert!(!validation.has_louser);
}

#[test]
fn a_library_is_restored_without_rebuilding_its_tables() {
    let source = protected(0x1000);
    let layout = layout_of(&source);
    let image = start_image(&source, &layout).expect("image");
    let restored = complete_restore(image, &source, &layout, None, true).expect("restored");
    assert!(restored.materialization.is_none());
    assert_eq!(restored.cleaning.output_entrypoint, 0x1008);
    let parsed = ElfLayout::parse(&restored.data, false).expect("parsed");
    assert_eq!(parsed.entrypoint, 0x1008);
    assert_eq!(restored.validation.dynamic_symbols, 2);
    assert_eq!(&restored.data[0x40..0x2000], &source[0x40..0x2000]);
}

#[test]
fn completion_needs_the_private_section_at_the_end() {
    let source = protected(0x1000);
    let mut layout = layout_of(&source);
    let error = finalize_clean_elf(source[..0x1000].to_vec(), &source, &layout, false)
        .expect_err("too short");
    assert_eq!(error.to_string(), "ELF data start precedes the private section");
    layout.section_headers.push(layout.section_headers[1]);
    let error = plan_clean_elf(&source, &layout, 0x2000, false).expect_err("not final");
    assert_eq!(error.to_string(), "SHT_LOUSER section is not the final section");
}

#[test]
fn file_headers_point_to_the_section_headers() {
    let mut header = vec![0xee_u8; 0x40];
    patch_elf_header(&mut header, false, 0x1234, 9);
    assert_eq!(get64(&header, 0x18), 0);
    assert_eq!(get64(&header, 0x28), 0x1234);
    assert_eq!(&header[0x3c..0x3e], &[9, 0]);
    assert_eq!(header[0x17], 0xee);
    assert_eq!(header[0x3f], 0xee);
    let mut kept = vec![0xee_u8; 0x40];
    patch_elf_header(&mut kept, true, 0x1234, 9);
    assert_eq!(get64(&kept, 0x18), 0xeeee_eeee_eeee_eeee);
}

#[test]
fn restored_files_are_checked() {
    let source = protected(0x1000);
    let error = validate_restored_binary(&source, false, None).expect_err("private");
    assert_eq!(error.to_string(), "restored output still contains SHT_LOUSER");
    let layout = layout_of(&source);
    let image = start_image(&source, &layout).expect("image");
    let clean = finalize_clean_elf(image, &source, &layout, true).expect("clean");
    let error = validate_restored_binary(&clean.data, false, None).expect_err("entry point");
    assert_eq!(
        error.to_string(),
        "restored output retains the protector entrypoint"
    );
    let wrong = ExpectedCounts {
        symbols: 3,
        rela_dyn: 1,
        rela_plt: 1,
    };
    let error = validate_restored_binary(&clean.data, true, Some(wrong)).expect_err("counts");
    assert_eq!(
        error.to_string(),
        "restored ELF table counts do not match materialization report"
    );
    let right = ExpectedCounts {
        symbols: 2,
        rela_dyn: 1,
        rela_plt: 1,
    };
    assert!(validate_restored_binary(&clean.data, true, Some(right)).is_ok());
}

#[test]
fn dynamic_sections_are_found_by_name() {
    let source = protected(0x1000);
    let layout = layout_of(&source);
    let names = layout.section_names(&source).expect("names");
    let indices = required_section_indices(&names).expect("indices");
    assert_eq!(indices.dynsym, DYNSYM);
    assert_eq!(indices.dynamic, DYNAMIC);
    assert_eq!(TableSlot::Dynstr.index(&indices), Some(DYNSTR));
    assert_eq!(
        section_by_name(&layout, &names, ".dynstr").expect("section"),
        layout.section_headers[DYNSTR]
    );
    assert_eq!(
        section_by_name(&layout, &names, ".bss").expect_err("absent").to_string(),
        "restored ELF lacks .bss"
    );

    let renamed = |from: &str, to: &str| -> Vec<String> {
        names
            .iter()
            .map(|name| if name == from { to.to_owned() } else { name.clone() })
            .collect()
    };
    let refused = |names: Vec<String>| {
        required_section_indices(&names)
            .expect_err("refused")
            .to_string()
    };
    assert_eq!(
        refused(renamed(".dynstr", ".other")),
        "ELF lacks required section .dynstr"
    );
    assert_eq!(
        refused(renamed(".text", ".dynstr")),
        "ELF contains duplicate section .dynstr"
    );
    assert_eq!(
        refused(renamed(".text", ".hash")),
        "ELF contains duplicate section .hash"
    );
    let only_gnu = required_section_indices(&renamed(".hash", ".other")).expect("one hash");
    assert_eq!(only_gnu.hash, None);
    let only_sysv = required_section_indices(&renamed(".gnu.hash", ".other")).expect("one hash");
    assert_eq!(only_sysv.gnu_hash, None);
    let none: Vec<String> = renamed(".hash", ".other")
        .into_iter()
        .map(|name| if name == ".gnu.hash" { ".more".to_owned() } else { name })
        .collect();
    let without = required_section_indices(&none).expect("no hash");
    assert_eq!((without.hash, without.gnu_hash), (None, None));
    let twice = required_section_indices(&renamed(".text", ".gnu.hash")).expect("two hashes");
    let first = names
        .iter()
        .position(|name| name == ".text" || name == ".gnu.hash");
    assert_eq!(twice.gnu_hash, first);
    assert_eq!(
        section_by_name(&layout, &renamed(".text", ".dynstr"), ".dynstr")
            .expect_err("twice")
            .to_string(),
        "restored ELF contains duplicate .dynstr"
    );
}

#[test]
fn room_for_tables_ends_at_the_next_section() {
    for (text, room) in [(0x1000_u64, 0x1000_u64), (0x2e0, 0x2e0), (0x100, 0x2000)] {
        let source = protected(text);
        let layout = layout_of(&source);
        let names = layout.section_names(&source).expect("names");
        let indices = required_section_indices(&names).expect("indices");
        assert_eq!(
            metadata_capacity_end(&layout, &indices, 0x200).expect("room"),
            room
        );
    }
    let source = protected(0x1000);
    let layout = layout_of(&source);
    assert_eq!(
        metadata_mapping_length(&source, &layout, &auxiliary()).expect("length"),
        0x2130
    );
    let mut wrong = protected(0x1000);
    put64(&mut wrong, 0x2200 + VERSYM * 0x40 + 0x38, 4);
    assert_eq!(
        metadata_mapping_length(&wrong, &layout_of(&wrong), &auxiliary())
            .expect_err("entries")
            .to_string(),
        "unexpected dynamic-table entry layout"
    );
}

#[test]
fn sizes_are_checked_against_each_other() {
    assert!(check_target_size(0x2000, 0x2000).is_ok());
    assert_eq!(
        check_target_size(0x2000, 0x3000).expect_err("size").to_string(),
        "0x9D target size 0x2000 != ELF load size 0x3000"
    );
    assert!(check_primary_output(0x2000, 0x2000).is_ok());
    assert_eq!(
        check_primary_output(0x2000, 0x3000).expect_err("size").to_string(),
        "primary container output 0x2000 != ELF load size 0x3000"
    );
    assert!(check_auxiliary_container(5, 5, 0x100, 0x100).is_ok());
    assert_eq!(
        check_auxiliary_container(5, 6, 0x100, 0x100)
            .expect_err("size")
            .to_string(),
        "auxiliary container output size does not match the 0x9D descriptor"
    );
    assert_eq!(
        check_auxiliary_container(5, 5, 0x100, 0x101)
            .expect_err("place")
            .to_string(),
        "primary and auxiliary 0x9D containers are not contiguous"
    );
    assert!(check_mapping_length(5, 5).is_ok());
    assert_eq!(
        check_mapping_length(4, 5).expect_err("short").to_string(),
        "dynamic-table mapping is shorter than the ELF image"
    );
}

#[test]
fn the_input_is_never_overwritten() {
    assert!(overwrites_input(true, false, false));
    assert!(overwrites_input(false, true, true));
    assert!(!overwrites_input(false, false, true));
    assert!(!overwrites_input(false, true, false));
}

#[test]
fn parameters_are_reported_in_hexadecimal() {
    let report = StaticConfigReport::new(0xbeef, 0x1234_5678, b"abc", 0x1f0);
    assert_eq!(report.header_seed, "0x0000BEEF");
    assert_eq!(report.container_seed, "0x12345678");
    assert_eq!(
        report.aes_key_sha256,
        "ba7816bf8f01cfea414140de5dae2223b00361a396177a9cb410ff61f20015ad"
    );
    assert_eq!(report.schedule_offset, "0x1F0");
    let report = DescriptorReport::new(&DescriptorFields {
        command_id: 0x9d,
        flags: 0,
        outer_offset: 0x40,
        outer_expected_size: 0xabc,
        auxiliary_offset: 0x1000,
        auxiliary_expected_size: 0xb5,
    });
    assert_eq!(report.command_id, "0x9D");
    assert_eq!(report.flags, "0x0");
    assert_eq!(report.outer_offset, "0x40");
    assert_eq!(report.outer_expected_size, "0xABC");
    assert_eq!(report.auxiliary_offset, "0x1000");
    assert_eq!(report.auxiliary_expected_size, "0xB5");
}

use senbei::elf::image::{accept, image_load_end, ElfImage};
use senbei::elf::layout::{PT_LOAD, PT_NOTE, PT_PHDR};
use senbei::elf::{
    align_up, checked_index, is_aarch64, is_aarch64_prefix, load_file_end, parse, read_i64,
    read_u16, read_u32, read_u64, slice, slice_u64, usize_from_u64, ElfLayout, Error, Fault,
    LoadSegment, SectionHeader, PF_R, SHF_ALLOC, SHT_LOUSER, SHT_STRTAB,
};


fn layout(name_index: u32) -> ElfLayout {
    ElfLayout {
        entrypoint: 0,
        program_header_offset: 0,
        program_header_size: 0x38,
        program_header_count: 0,
        program_headers: Vec::new(),
        section_headers: vec![
            SectionHeader {
                name: 0,
                section_type: 0,
                flags: 0,
                address: 0,
                offset: 0,
                size: 0,
                link: 0,
                info: 0,
                alignment: 0,
                entry_size: 0,
            },
            SectionHeader {
                name: name_index,
                section_type: 1,
                flags: 0,
                address: 0,
                offset: 0,
                size: 0,
                link: 0,
                info: 0,
                alignment: 0,
                entry_size: 0,
            },
            SectionHeader {
                name: 1,
                section_type: SHT_STRTAB,
                flags: 0,
                address: 0,
                offset: 0,
                size: 8,
                link: 0,
                info: 0,
                alignment: 1,
                entry_size: 0,
            },
        ],
        section_name_index: 2,
        private_section_index: usize::MAX,
    }
}

#[test]
fn section_names_resolve_from_elf_string_table() {
    let names = layout(1)
        .section_names(b"\0text\0\0\0")
        .expect("valid names");
    assert_eq!(names, ["", "text", "text"]);
}

#[test]
fn section_names_reject_out_of_range_name_offsets() {
    let error = layout(8)
        .section_names(b"\0text\0\0\0")
        .expect_err("invalid offset");
    assert!(error.to_string().contains("exceeds section-name table"));
}

#[test]
fn section_names_reject_invalid_utf8() {
    let mut elf_layout = layout(1);
    elf_layout.section_headers[1].name = 1;
    let error = elf_layout
        .section_names(b"\0\xff\0\0\0\0\0\0")
        .expect_err("invalid UTF-8");
    assert!(error.to_string().contains("is not UTF-8"));
}

#[test]
fn names_that_are_not_utf8_are_told_apart() {
    for name in [&b"\xff"[..], b"ab\xf0\x9f\x98", b"a\xe2\x28", b"\xed\xa0\x80", b"xy\xc3"] {
        let mut table = vec![0_u8];
        table.extend_from_slice(name);
        table.resize(8, 0);
        let mut elf_layout = layout(1);
        elf_layout.section_headers[1].name = 1;
        let error = elf_layout.section_names(&table).expect_err("not UTF-8");
        let detail = std::str::from_utf8(name).expect_err("not UTF-8");
        assert_eq!(
            error.to_string(),
            format!("invalid ELF layout: ELF section 1 name at 0x1 is not UTF-8: {detail}")
        );
    }
}

#[test]
fn section_names_reject_non_string_table() {
    let mut elf_layout = layout(1);
    elf_layout.section_headers[2].section_type = 1;
    let error = elf_layout
        .section_names(b"\0text\0\0\0")
        .expect_err("wrong section type");
    assert!(error.to_string().contains("unexpected type"));
}

#[test]
fn section_names_reject_unterminated_table() {
    let elf_layout = layout(1);
    let error = elf_layout
        .section_names(b"\0text\0\x01\x01")
        .expect_err("unterminated table");
    assert!(error.to_string().contains("not NUL terminated"));
}

#[test]
fn append_load_segment_updates_program_headers() {
    let elf_layout = ElfLayout {
        entrypoint: 0,
        program_header_offset: 0,
        program_header_size: 0x38,
        program_header_count: 0,
        program_headers: Vec::new(),
        section_headers: Vec::new(),
        section_name_index: 0,
        private_section_index: usize::MAX,
    };
    let mut output = vec![0_u8; 0x2000];
    let updated = elf_layout
        .append_load_segment(
            &mut output,
            LoadSegment {
                offset: 0x1000,
                virtual_address: 0x2000,
                file_size: 0x20,
                memory_size: 0x20,
                flags: PF_R,
                alignment: 0x1000,
            },
            0,
        )
        .expect("append segment");
    assert_eq!(updated.program_header_count, 1);
    assert_eq!(updated.program_headers[0].virtual_address, 0x2000);
    assert_eq!(&output[0..4], &PT_LOAD.to_le_bytes());
    assert_eq!(&output[0x38..0x3a], &1_u16.to_le_bytes());
}

#[test]
fn append_load_segment_fails_closed_when_no_safe_phdr_slot() {
    let mut elf_layout = ElfLayout {
        entrypoint: 0,
        program_header_offset: 0,
        program_header_size: 0x38,
        program_header_count: 0,
        program_headers: Vec::new(),
        section_headers: Vec::new(),
        section_name_index: 0,
        private_section_index: usize::MAX,
    };
    elf_layout.section_headers.push(SectionHeader {
        name: 0,
        section_type: 1,
        flags: 0,
        address: 0,
        offset: 0x20,
        size: 1,
        link: 0,
        info: 0,
        alignment: 1,
        entry_size: 0,
    });
    let reservation = elf_layout
        .additional_program_header_reservation()
        .expect("reservation");
    assert_eq!(reservation, 0x38);
    let mut output = vec![0_u8; 0x200];
    let error = elf_layout
        .append_load_segment(
            &mut output,
            LoadSegment {
                offset: 0x80,
                virtual_address: 0x1080,
                file_size: 0x80,
                memory_size: 0x80,
                flags: PF_R,
                alignment: 0x1000,
            },
            reservation,
        )
        .expect_err("unsafe relocation must fail");
    assert!(error.to_string().contains("cannot safely relocate"));
}

#[test]
fn append_load_segment_reuses_redundant_note_when_no_slack() {
    let mut elf_layout = ElfLayout {
        entrypoint: 0,
        program_header_offset: 0x40,
        program_header_size: 0x38,
        program_header_count: 3,
        program_headers: vec![LoadSegment {
            offset: 0,
            virtual_address: 0,
            file_size: 0x400,
            memory_size: 0x400,
            flags: PF_R,
            alignment: 0x1000,
        }],
        section_headers: Vec::new(),
        section_name_index: 0,
        private_section_index: usize::MAX,
    };
    elf_layout.section_headers.push(SectionHeader {
        name: 0,
        section_type: 1,
        flags: 0,
        address: 0,
        offset: 0xe8,
        size: 1,
        link: 0,
        info: 0,
        alignment: 1,
        entry_size: 0,
    });
    let mut output = vec![0_u8; 0x2000];
    output[0x38..0x3a].copy_from_slice(&3_u16.to_le_bytes());
    output[0x40..0x44].copy_from_slice(&PT_LOAD.to_le_bytes());
    output[0x78..0x7c].copy_from_slice(&PT_NOTE.to_le_bytes());
    output[0x80..0x88].copy_from_slice(&0x100_u64.to_le_bytes());
    output[0x98..0xa0].copy_from_slice(&0x20_u64.to_le_bytes());
    output[0xb0..0xb4].copy_from_slice(&PT_NOTE.to_le_bytes());
    output[0xb8..0xc0].copy_from_slice(&0x200_u64.to_le_bytes());
    output[0xd0..0xd8].copy_from_slice(&0x20_u64.to_le_bytes());

    let reservation = elf_layout
        .additional_program_header_reservation()
        .expect("reservation");
    assert_eq!(reservation, 0xe0);
    let updated = elf_layout
        .append_load_segment(
            &mut output,
            LoadSegment {
                offset: 0x1000,
                virtual_address: 0x2000,
                file_size: 0x100,
                memory_size: 0x100,
                flags: PF_R,
                alignment: 0x1000,
            },
            reservation,
        )
        .expect("reuse redundant PT_NOTE");

    assert_eq!(updated.program_header_offset, 0x40);
    assert_eq!(updated.program_header_count, 3);
    assert_eq!(updated.program_headers.len(), 2);
    assert_eq!(&output[0x38..0x3a], &3_u16.to_le_bytes());
    assert_eq!(&output[0x78..0x7c], &PT_NOTE.to_le_bytes());
    assert_eq!(&output[0xb0..0xb4], &PT_LOAD.to_le_bytes());
    assert_eq!(&output[0xb8..0xc0], &0x1000_u64.to_le_bytes());
    assert_eq!(&output[0xc0..0xc8], &0x2000_u64.to_le_bytes());
}

#[test]
fn relocated_program_headers_update_pt_phdr() {
    let mut elf_layout = ElfLayout {
        entrypoint: 0,
        program_header_offset: 0x40,
        program_header_size: 0x38,
        program_header_count: 1,
        program_headers: Vec::new(),
        section_headers: Vec::new(),
        section_name_index: 0,
        private_section_index: usize::MAX,
    };
    elf_layout.section_headers.push(SectionHeader {
        name: 0,
        section_type: 1,
        flags: 0,
        address: 0,
        offset: 0x78,
        size: 1,
        link: 0,
        info: 0,
        alignment: 1,
        entry_size: 0,
    });
    let mut output = vec![0_u8; 0x2000];
    output[0x20..0x28].copy_from_slice(&0x40_u64.to_le_bytes());
    output[0x40..0x44].copy_from_slice(&PT_PHDR.to_le_bytes());
    output[0x48..0x50].copy_from_slice(&0x40_u64.to_le_bytes());
    output[0x50..0x58].copy_from_slice(&0x40_u64.to_le_bytes());
    output[0x58..0x60].copy_from_slice(&0x40_u64.to_le_bytes());
    output[0x60..0x68].copy_from_slice(&0x38_u64.to_le_bytes());
    output[0x68..0x70].copy_from_slice(&0x38_u64.to_le_bytes());

    let reservation = elf_layout
        .additional_program_header_reservation()
        .expect("reservation");
    assert_eq!(reservation, 0x70);
    let updated = elf_layout
        .append_load_segment(
            &mut output,
            LoadSegment {
                offset: 0x1000,
                virtual_address: 0x2000,
                file_size: 0x100,
                memory_size: 0x100,
                flags: PF_R,
                alignment: 0x1000,
            },
            reservation,
        )
        .expect("relocate program headers");

    assert_eq!(updated.program_header_offset, 0x1000);
    assert_eq!(&output[0x20..0x28], &0x1000_u64.to_le_bytes());
    assert_eq!(&output[0x1000..0x1004], &PT_PHDR.to_le_bytes());
    assert_eq!(&output[0x1008..0x1010], &0x1000_u64.to_le_bytes());
    assert_eq!(&output[0x1010..0x1018], &0x2000_u64.to_le_bytes());
    assert_eq!(&output[0x1020..0x1028], &0x70_u64.to_le_bytes());
    assert_eq!(&output[0x1028..0x1030], &0x70_u64.to_le_bytes());
    assert_eq!(&output[0x1038..0x103c], &PT_LOAD.to_le_bytes());
}

#[test]
fn rejects_non_elf() {
    assert!(matches!(parse(b"not elf"), Err(Error::Parse(_))));
}

#[test]
fn a_parser_error_is_told_in_the_parsers_words() {
    for data in [&b"not elf"[..], &b"\x7fELF"[..], &[][..]] {
        let told = goblin::elf::Elf::parse(data).expect_err("no image").to_string();
        let error = parse(data).expect_err("no image");
        assert_eq!(error.to_string(), format!("ELF parse failed: {told}"));
        assert_eq!(
            load_file_end(data).expect_err("no image").to_string(),
            format!("ELF parse failed: {told}")
        );
    }
    let error = accept(Err("odd".to_owned())).expect_err("refused");
    assert_eq!(error.to_string(), "ELF parse failed: odd");
}

fn put(image: &mut [u8], at: usize, bytes: &[u8]) {
    image[at..at + bytes.len()].copy_from_slice(bytes);
}

fn null_section() -> SectionHeader {
    SectionHeader {
        name: 0,
        section_type: 0,
        flags: 0,
        address: 0,
        offset: 0,
        size: 0,
        link: 0,
        info: 0,
        alignment: 0,
        entry_size: 0,
    }
}

// A file with one loadable segment at 0x0..0x180, a string table at 0x100, a private section at
// 0x180, and section headers at 0x200.
fn image(machine: u16) -> Vec<u8> {
    let mut image = vec![0_u8; 0x300];
    put(&mut image, 0, b"\x7fELF\x02\x01\x01");
    put(&mut image, 0x10, &3_u16.to_le_bytes());
    put(&mut image, 0x12, &machine.to_le_bytes());
    put(&mut image, 0x14, &1_u32.to_le_bytes());
    put(&mut image, 0x18, &0x1234_u64.to_le_bytes());
    put(&mut image, 0x20, &0x40_u64.to_le_bytes());
    put(&mut image, 0x28, &0x200_u64.to_le_bytes());
    put(&mut image, 0x34, &0x40_u16.to_le_bytes());
    put(&mut image, 0x36, &0x38_u16.to_le_bytes());
    put(&mut image, 0x38, &1_u16.to_le_bytes());
    put(&mut image, 0x3a, &0x40_u16.to_le_bytes());
    put(&mut image, 0x3c, &3_u16.to_le_bytes());
    put(&mut image, 0x3e, &1_u16.to_le_bytes());
    put(&mut image, 0x40, &PT_LOAD.to_le_bytes());
    put(&mut image, 0x44, &5_u32.to_le_bytes());
    put(&mut image, 0x50, &0x1000_u64.to_le_bytes());
    put(&mut image, 0x60, &0x180_u64.to_le_bytes());
    put(&mut image, 0x68, &0x280_u64.to_le_bytes());
    put(&mut image, 0x70, &0x1000_u64.to_le_bytes());
    put(&mut image, 0x100, b"\0.shstrtab\0.private\0");
    let strings = SectionHeader {
        name: 1,
        section_type: SHT_STRTAB,
        offset: 0x100,
        size: 20,
        alignment: 1,
        ..null_section()
    };
    let private = SectionHeader {
        name: 11,
        section_type: SHT_LOUSER,
        offset: 0x180,
        size: 0x40,
        alignment: 1,
        ..null_section()
    };
    put(&mut image, 0x240, &strings.encode());
    put(&mut image, 0x280, &private.encode());
    image
}

#[test]
fn layout_reads_segments_and_sections() {
    let data = image(183);
    let layout = ElfLayout::parse(&data, true).expect("layout");
    assert_eq!(layout.entrypoint, 0x1234);
    assert_eq!(layout.program_header_offset, 0x40);
    assert_eq!(layout.program_header_size, 0x38);
    assert_eq!(layout.program_header_count, 1);
    assert_eq!(
        layout.program_headers,
        vec![LoadSegment {
            offset: 0,
            virtual_address: 0x1000,
            file_size: 0x180,
            memory_size: 0x280,
            flags: 5,
            alignment: 0x1000,
        }]
    );
    assert_eq!(layout.section_headers.len(), 3);
    assert_eq!(layout.private_section_index, 2);
    assert_eq!(layout.private_section().expect("private").offset, 0x180);
    assert_eq!(layout.load_end().expect("load end"), 0x1280);
    assert_eq!(layout.file_load_end().expect("file load end"), 0x180);
    assert_eq!(layout.load_alignment().expect("alignment"), 0x1000);
    assert_eq!(
        layout.section_names(&data).expect("names"),
        ["", ".shstrtab", ".private"]
    );
    assert_eq!(
        layout.file_offset_to_virtual_address(0x100, 0x20).expect("address"),
        0x1100
    );
    let error = layout
        .file_offset_to_virtual_address(0x170, 0x20)
        .expect_err("outside");
    assert_eq!(
        error.to_string(),
        "invalid ELF layout: file range 0x170..0x190 is not in PT_LOAD"
    );
}

#[test]
fn layout_copies_are_equal() {
    let layout = ElfLayout::parse(&image(183), true).expect("layout");
    assert_eq!(layout.clone(), layout);
}

#[test]
fn layout_refuses_other_files() {
    let refused = |data: &[u8], private: bool| {
        ElfLayout::parse(data, private)
            .expect_err("refused")
            .to_string()
    };
    assert_eq!(
        refused(b"\x7fELF", false),
        "invalid ELF layout: byte range 0x0..0x6 is out of bounds"
    );
    assert_eq!(
        refused(b"not an ELF file at all", false),
        "invalid ELF layout: input is not a little-endian ELF64 file"
    );
    assert_eq!(
        refused(&image(62), false),
        "invalid ELF layout: input is not an AArch64 ELF"
    );

    let mut beyond = image(183);
    put(&mut beyond, 0x60, &0x1000_u64.to_le_bytes());
    assert_eq!(
        refused(&beyond, false),
        "invalid ELF layout: PT_LOAD 0 exceeds input file"
    );
    let mut overflow = image(183);
    put(&mut overflow, 0x48, &u64::MAX.to_le_bytes());
    assert_eq!(
        refused(&overflow, false),
        "invalid ELF layout: PT_LOAD 0 file range overflow"
    );
}

#[test]
fn layout_counts_private_sections() {
    let mut none = image(183);
    put(&mut none, 0x284, &1_u32.to_le_bytes());
    let layout = ElfLayout::parse(&none, false).expect("none required");
    assert_eq!(layout.private_section_index, usize::MAX);
    assert!(layout.private_section().is_err());
    assert_eq!(
        ElfLayout::parse(&none, true).expect_err("required").to_string(),
        "invalid ELF layout: expected one SHT_LOUSER section, found 0"
    );
    let mut two = image(183);
    put(&mut two, 0x244, &SHT_LOUSER.to_le_bytes());
    assert_eq!(
        ElfLayout::parse(&two, true).expect_err("two").to_string(),
        "invalid ELF layout: expected one SHT_LOUSER section, found 2"
    );
    assert_eq!(
        ElfLayout::parse(&two, false).expect_err("two").to_string(),
        "invalid ELF layout: expected at most one SHT_LOUSER section, found 2"
    );
}

#[test]
fn section_headers_survive_encoding() {
    let header = SectionHeader {
        name: 1,
        section_type: SHT_STRTAB,
        flags: SHF_ALLOC,
        address: 0x2122_2324_2526_2728,
        offset: 0x100,
        size: 20,
        link: 5,
        info: 6,
        alignment: 0x10,
        entry_size: 0x18,
    };
    let encoded = header.encode();
    assert_eq!(&encoded[..8], &[1, 0, 0, 0, 3, 0, 0, 0]);
    assert_eq!(
        &encoded[0x10..0x18],
        &[0x28, 0x27, 0x26, 0x25, 0x24, 0x23, 0x22, 0x21]
    );
    let mut data = image(183);
    put(&mut data, 0x240, &encoded);
    let layout = ElfLayout::parse(&data, true).expect("layout");
    assert_eq!(layout.section_headers[1], header);
}

#[test]
fn section_headers_encode_to_the_bytes_they_were_read_from() {
    let mut data = image(183);
    for at in (0x248..0x258).chain(0x268..0x280) {
        data[at] = at as u8 | 1;
    }
    let layout = ElfLayout::parse(&data, true).expect("layout");
    for (index, header) in layout.section_headers.iter().enumerate() {
        let at = 0x200 + index * 0x40;
        assert_eq!(&header.encode()[..], &data[at..at + 0x40]);
    }
}

#[test]
fn segment_ends_and_alignments_are_checked() {
    let mut layout = ElfLayout::parse(&image(183), true).expect("layout");
    layout.program_headers[0].alignment = 0x30;
    assert_eq!(
        layout.load_alignment().expect_err("alignment").to_string(),
        "invalid ELF layout: invalid PT_LOAD alignment 0x30"
    );
    layout.program_headers[0].virtual_address = u64::MAX;
    assert!(layout.load_end().is_err());
    layout.program_headers[0].offset = u64::MAX;
    assert!(layout.file_load_end().is_err());
}

#[test]
fn a_segment_alignment_is_refused_when_it_is_no_power_of_two() {
    let layout = ElfLayout::parse(&image(183), true).expect("layout");
    let segment = LoadSegment {
        offset: 0x2000,
        virtual_address: 0x2000,
        file_size: 0x20,
        memory_size: 0x20,
        flags: PF_R,
        alignment: 0x30,
    };
    let reservation = layout
        .additional_program_header_reservation()
        .expect("reservation");
    let mut output = vec![0_u8; 0x3000];
    assert_eq!(
        layout
            .append_load_segment(&mut output, segment, reservation)
            .expect_err("alignment")
            .to_string(),
        "invalid ELF layout: invalid new PT_LOAD alignment 0x30"
    );
    let error = layout
        .append_load_segment(
            &mut output,
            LoadSegment {
                alignment: 0x1000,
                ..segment
            },
            reservation + 1,
        )
        .expect_err("reservation");
    assert!(error.to_string().contains("program-header reservation mismatch"));
}

// Appending a segment touches the program headers and the header count, and nothing else.
#[test]
fn appending_touches_only_the_table() {
    let layout = ElfLayout {
        entrypoint: 0,
        program_header_offset: 0x40,
        program_header_size: 0x38,
        program_header_count: 0,
        program_headers: Vec::new(),
        section_headers: Vec::new(),
        section_name_index: 0,
        private_section_index: usize::MAX,
    };
    let segment = LoadSegment {
        offset: 0x1000,
        virtual_address: 0x2000,
        file_size: 0x20,
        memory_size: 0x20,
        flags: PF_R,
        alignment: 0x1000,
    };
    let before = vec![0xaa_u8; 0x2000];
    let mut output = before.clone();
    let updated = layout
        .append_load_segment(&mut output, segment, 0)
        .expect("append");
    assert_eq!(output.len(), before.len());
    for at in 0..output.len() {
        if !(0x38..0x3a).contains(&at) && !(0x40..0x78).contains(&at) {
            assert_eq!(output[at], before[at], "byte {at:#x}");
        }
    }
    assert_eq!(updated.program_headers, vec![segment]);
    assert_eq!(read_u64(&output, 0x48).expect("offset"), 0x1000);
    assert_eq!(read_u64(&output, 0x70).expect("alignment"), 0x1000);
}

// The layout keeps telling what the table lists, also where a listed segment lies outside the file.
#[test]
fn appending_keeps_segments_outside_the_file() {
    let far = LoadSegment {
        offset: 0x9000,
        virtual_address: 0,
        file_size: 0x400,
        memory_size: 0x400,
        flags: PF_R,
        alignment: 0x1000,
    };
    let layout = ElfLayout {
        entrypoint: 0,
        program_header_offset: 0x40,
        program_header_size: 0x38,
        program_header_count: 1,
        program_headers: vec![far],
        section_headers: Vec::new(),
        section_name_index: 0,
        private_section_index: usize::MAX,
    };
    let mut output = vec![0_u8; 0x2000];
    put(&mut output, 0x20, &0x40_u64.to_le_bytes());
    put(&mut output, 0x38, &1_u16.to_le_bytes());
    put(&mut output, 0x40, &PT_LOAD.to_le_bytes());
    put(&mut output, 0x48, &0x9000_u64.to_le_bytes());
    let segment = LoadSegment {
        offset: 0x1000,
        virtual_address: 0x2000,
        ..far
    };
    let updated = layout
        .append_load_segment(&mut output, segment, 0)
        .expect("append");
    assert_eq!(updated.program_headers, vec![far, segment]);
    assert_eq!(read_u64(&output, 0x48).expect("first"), 0x9000);
    assert_eq!(read_u64(&output, 0x80).expect("second"), 0x1000);
    assert_eq!(output[0x38..0x3a], 2_u16.to_le_bytes());
}

#[test]
fn segments_are_added_one_after_the_other() {
    let segment = |offset: u64, virtual_address: u64, size: u64| LoadSegment {
        offset,
        virtual_address,
        file_size: size,
        memory_size: size,
        flags: PF_R,
        alignment: 0x1000,
    };
    let layout = ElfLayout {
        entrypoint: 0,
        program_header_offset: 0x40,
        program_header_size: 0x38,
        program_header_count: 4,
        program_headers: vec![segment(0, 0, 0x400)],
        section_headers: vec![SectionHeader {
            section_type: 1,
            offset: 0x120,
            size: 1,
            ..null_section()
        }],
        section_name_index: 0,
        private_section_index: usize::MAX,
    };
    let mut output = vec![0_u8; 0x3000];
    put(&mut output, 0x20, &0x40_u64.to_le_bytes());
    put(&mut output, 0x38, &4_u16.to_le_bytes());
    put(&mut output, 0x40, &PT_LOAD.to_le_bytes());
    put(&mut output, 0x60, &0x400_u64.to_le_bytes());
    for (at, start) in [(0x78, 0x100_u64), (0xb0, 0x200), (0xe8, 0x300)] {
        put(&mut output, at, &PT_NOTE.to_le_bytes());
        put(&mut output, at + 8, &start.to_le_bytes());
        put(&mut output, at + 0x20, &0x20_u64.to_le_bytes());
    }
    let first = segment(0x1000, 0x4000, 0x100);
    let second = segment(0x2000, 0x5000, 0x100);
    let reservation = layout
        .additional_program_header_reservation()
        .expect("reservation");
    let once = layout
        .append_load_segment(&mut output, first, reservation)
        .expect("first");
    let twice = once
        .append_load_segment(&mut output, second, reservation)
        .expect("second");
    assert_eq!(twice.program_headers, vec![segment(0, 0, 0x400), first, second]);
    assert_eq!(twice.program_header_count, 4);
    let offsets: Vec<u64> = (0..4)
        .map(|index| read_u64(&output, 0x48 + index * 0x38).expect("offset"))
        .collect();
    assert_eq!(offsets, vec![0, 0x100, 0x2000, 0x1000]);
    assert_eq!(read_u64(&output, 0x20).expect("table"), 0x40);
    assert_eq!(output[0x38..0x3a], 4_u16.to_le_bytes());
}

#[test]
fn images_are_parsed() {
    let data = image(183);
    let parsed = parse(&data).expect("image");
    assert_eq!(parsed.class, 2);
    assert_eq!(parsed.encoding, 1);
    assert_eq!(parsed.machine, 183);
    assert_eq!(parsed.sections.len(), 3);
    assert_eq!(parsed.sections[1].name, Some(".shstrtab".to_owned()));
    assert_eq!(parsed.sections[2].section_type, SHT_LOUSER);
    assert_eq!(parsed.segments.len(), 1);
    assert_eq!(image_load_end(&parsed), 0x180);
    assert_eq!(load_file_end(&data).expect("end"), 0x180);
    assert!(is_aarch64(&data));
    assert!(is_aarch64_prefix(&data[..20]));
    assert!(!is_aarch64_prefix(&data[..19]));
}

#[test]
fn images_of_other_machines_are_no_targets() {
    let other = image(62);
    assert_eq!(parse(&other).expect("image").machine, 62);
    assert!(!is_aarch64(&other));
    assert!(!is_aarch64_prefix(&other));
    let mut big_endian = image(183);
    big_endian[5] = 2;
    assert!(!is_aarch64(&big_endian));
    assert!(!is_aarch64_prefix(&big_endian));
    assert!(!is_aarch64(b"not elf"));
    let message = parse(b"not elf").expect_err("no ELF").to_string();
    assert!(message.starts_with("ELF parse failed: "));
    assert!(message.len() > "ELF parse failed: ".len());
}

#[test]
fn only_little_endian_64_bit_images_are_accepted() {
    let image = |class: u8, encoding: u8| ElfImage {
        class,
        encoding,
        machine: 183,
        sections: Vec::new(),
        segments: Vec::new(),
    };
    assert!(accept(Ok(image(2, 1))).is_ok());
    assert!(matches!(accept(Ok(image(1, 1))), Err(Error::NotElf64)));
    let error = accept(Ok(image(2, 2))).expect_err("byte order");
    assert_eq!(
        error.to_string(),
        "input is not an ELF64 little-endian image"
    );
}

#[test]
fn bytes_are_read_within_bounds() {
    let data = [1_u8, 2, 3, 4, 5, 6, 7, 0xff, 9];
    assert_eq!(read_u16(&data, 1).expect("u16"), 0x0302);
    assert_eq!(read_u32(&data, 1).expect("u32"), 0x0504_0302);
    assert_eq!(read_u64(&data, 0).expect("u64"), 0xff07_0605_0403_0201);
    assert_eq!(read_i64(&data, 0).expect("i64"), -0x00f8_f9fa_fbfc_fdff);
    assert_eq!(slice(&data, 2, 3).expect("slice"), &[3, 4, 5]);
    assert_eq!(slice_u64(&data, 8, 1).expect("slice"), &[9]);
    assert_eq!(
        slice(&data, 8, 2).expect_err("out").to_string(),
        "invalid ELF layout: byte range 0x8..0xa is out of bounds"
    );
    assert_eq!(
        slice(&data, usize::MAX, 2).expect_err("overflow").to_string(),
        "invalid ELF layout: byte range overflow"
    );
    assert!(matches!(
        read_u32(&data, 6),
        Err(Error::Invalid(Fault::ByteRange { offset: 6, end: 10 }))
    ));
    assert_eq!(usize_from_u64(7, "field").expect("fits"), 7);
}

#[test]
fn indices_and_alignments_are_computed() {
    assert_eq!(checked_index(0x40, 3, 0x38).expect("index"), 0xe8);
    assert!(checked_index(usize::MAX, 1, 1).is_err());
    assert!(checked_index(0, usize::MAX, 2).is_err());
    assert_eq!(align_up(0x1001, 0x1000).expect("aligned"), 0x2000);
    assert_eq!(align_up(0x1000, 0x1000).expect("aligned"), 0x1000);
    assert_eq!(
        align_up(5, 3).expect_err("alignment").to_string(),
        "invalid ELF layout: invalid alignment 3"
    );
    assert!(align_up(u64::MAX, 2).is_err());
}

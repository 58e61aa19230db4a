use senbei::elf::image::{ElfImage, ImageSection};
use senbei::elf::{ElfLayout, LoadSegment, SectionHeader, PF_R, SHT_LOUSER};
use senbei::engine::artifact::{
    is_intact, load_artifacts, select_artifacts, Artifact, IndexEntry,
};
use senbei::engine::auxiliary::{read_c_string, AuxiliaryElfImage};
use senbei::engine::container::{
    encoded_segment, write_auxiliary, DecodeStatistics, SegmentCursor, WriterStep,
};
use senbei::engine::decode::{ContainerRun, Request, Sink};
use senbei::engine::dynamic::{dynamic_contains_tag, patch_dynamic_tags};
use senbei::engine::placement::{table_placements, PlacementReport, TablePayload, TableSlot};
use senbei::engine::relocation::{KindFilter, KindRule, Rela, RelocationTable};
use senbei::engine::stage1::{
    decrypt_words, inspect, inspect_image, DEFAULT_CIPHER_CONSTANT, DEFAULT_OUTER_SIZE,
};
use senbei::engine::symbols::{dynamic_symbol_names, restore_hidden_symbols};
use senbei::engine::tags::{DynamicValues, TagSet};
use senbei::engine::writer::write_decoded;
use senbei::engine::{Error, Fault};

#[test]
fn stage1_word_transform_round_trips() {
    let key = 0x1234_5678;
    let constant = DEFAULT_CIPHER_CONSTANT;
    let plain = [0x1122_3344_u32, 0xaabb_ccdd, 0x0102_0304];
    let mut cipher = Vec::new();
    for (index, value) in plain.into_iter().enumerate() {
        let index = index as u32;
        let word = (value ^ constant.wrapping_mul(index + 1))
            .wrapping_sub((index + 3).wrapping_mul(key));
        cipher.extend_from_slice(&word.to_le_bytes());
    }
    let decoded = decrypt_words(&cipher, key, constant).unwrap();
    let expected = plain
        .into_iter()
        .flat_map(u32::to_le_bytes)
        .collect::<Vec<_>>();
    assert_eq!(decoded, expected);
}

fn auxiliary_image(symbol_count: u32) -> Vec<u8> {
    let mut data = vec![0_u8; 0x279];
    let words = [
        0x40_u32,
        0,
        0x40,
        0,
        0x278,
        1,
        0x260,
        symbol_count,
        0x40,
        3,
        0x90,
        19,
        0,
        0,
        0xb7,
        0,
    ];
    for (index, word) in words.into_iter().enumerate() {
        data[index * 4..index * 4 + 4].copy_from_slice(&word.to_le_bytes());
    }
    data
}

#[test]
fn auxiliary_accepts_null_only_dynamic_symbol_table() {
    let parsed = AuxiliaryElfImage::parse(&auxiliary_image(1)).expect("null-only dynsym");
    assert_eq!(parsed.dynsym_count, 1);
}

#[test]
fn auxiliary_rejects_missing_null_dynamic_symbol() {
    let error = AuxiliaryElfImage::parse(&auxiliary_image(0)).expect_err("missing null symbol");
    assert!(error.to_string().contains("no null entry"));
}

#[test]
fn words_that_are_not_whole_are_not_decrypted() {
    let error = decrypt_words(&[1, 2, 3], 1, 2).expect_err("length");
    assert_eq!(
        error.to_string(),
        "Stage 1 word cipher input is not 4-byte aligned"
    );
    assert_eq!(decrypt_words(&[], 1, 2).expect("empty"), Vec::<u8>::new());
}

fn encrypt(plain: &[u32], key: u32, constant: u32) -> Vec<u8> {
    let mut cipher = Vec::new();
    for (index, value) in plain.iter().enumerate() {
        let index = index as u32;
        let word = (value ^ constant.wrapping_mul(index + 1))
            .wrapping_sub((index + 3).wrapping_mul(key));
        cipher.extend_from_slice(&word.to_le_bytes());
    }
    cipher
}

fn image_section(name: &str, section_type: u32, offset: u64, size: u64) -> ImageSection {
    ImageSection {
        name: Some(name.to_owned()),
        section_type,
        offset,
        size,
    }
}

fn protected_image(size: u64) -> ElfImage {
    ElfImage {
        class: 2,
        encoding: 1,
        machine: 183,
        sections: vec![
            image_section(".dynsym", 11, 0, 0),
            image_section(".dynstr", 3, 0, 0),
            image_section(".gnu.version", 1, 0, 0),
            image_section(".gnu.version_r", 1, 0, 0),
            image_section(".hash", 5, 0, 0),
            image_section(".private", SHT_LOUSER, 0x10, size),
        ],
        segments: Vec::new(),
    }
}

// A private section at 0x10: 8 bytes of outer header, 32 bytes of loader header, and a payload of
// two words 0x20 bytes behind the outer header, with 0x1000 bytes after it.
fn stage1_file(header: [u32; 7]) -> Vec<u8> {
    let key = 0x0102_0304_u32;
    let constant = DEFAULT_CIPHER_CONSTANT;
    let mut data = vec![0_u8; 0x18];
    let mut words = vec![0_u32; 8];
    words[1..].copy_from_slice(&header);
    let mut raw = encrypt(&words, key, constant);
    raw[..4].copy_from_slice(&key.to_le_bytes());
    data.extend_from_slice(&raw);
    data.extend_from_slice(&encrypt(&[0x1111_1111, 0x2222_2222], header[3], constant));
    data.extend_from_slice(&[0xcc; 0x1000]);
    data
}

#[test]
fn the_first_stage_is_found_and_decrypted() {
    let data = stage1_file([0, 0x20, 8, 0x55, 4, 8, 8]);
    let image = protected_image(0x1030);
    let found = inspect_image(&image, &data, 8, DEFAULT_CIPHER_CONSTANT).expect("loader");
    assert_eq!(found.section_index, 5);
    assert_eq!(found.section_offset, 0x10);
    assert_eq!(found.section_size, 0x1030);
    assert_eq!(found.header_offset, 0x18);
    assert_eq!(found.payload_file_offset, 0x38);
    assert_eq!(found.remaining_file_offset, 0x40);
    assert_eq!(found.remaining_size, 0x1000);
    assert_eq!(found.header.key, 0x0102_0304);
    assert_eq!(found.header.payload_offset, 0x20);
    assert_eq!(found.header.payload_size, 8);
    assert_eq!(found.header.payload_key, 0x55);
    assert_eq!(
        found.plaintext,
        [0x11, 0x11, 0x11, 0x11, 0x22, 0x22, 0x22, 0x22]
    );
}

#[test]
fn first_stages_that_break_a_rule_are_refused() {
    let refused = |header: [u32; 7]| {
        inspect_image(
            &protected_image(0x1030),
            &stage1_file(header),
            8,
            DEFAULT_CIPHER_CONSTANT,
        )
        .expect_err("refused")
        .to_string()
    };
    assert_eq!(
        refused([1, 0x20, 8, 0x55, 4, 8, 8]),
        "Stage 1 header reserved word is nonzero: 0x1"
    );
    assert_eq!(
        refused([0, 0x20, 8, 0x55, 4, 8, 9]),
        "Stage 1 payload size copy 0x9 != size 0x8"
    );
    assert_eq!(
        refused([0, 0x20, 0x2000, 0x55, 4, 8, 0x2000]),
        "Stage 1 payload range 0x20..0x2020 exceeds private size 0x1028"
    );
    assert_eq!(
        refused([0, 0x20, 6, 0x55, 4, 4, 6]),
        "Stage 1 payload size must be nonzero and word aligned: 0x6"
    );
    assert_eq!(
        refused([0, 0x20, 8, 0x55, 8, 8, 8]),
        "Stage 1 entry offset is outside the payload"
    );
    assert_eq!(
        refused([0, 0x20, 8, 0x55, 4, 9, 8]),
        "Stage 1 mprotect length exceeds the payload"
    );
    let short = inspect_image(
        &protected_image(0x1007),
        &stage1_file([0, 0x20, 8, 0x55, 4, 8, 8]),
        8,
        DEFAULT_CIPHER_CONSTANT,
    )
    .expect_err("short");
    assert_eq!(
        short.to_string(),
        "Stage 1 outer header leaves no complete parameter area"
    );
}

#[test]
fn images_without_the_marks_of_protection_are_refused() {
    let data = stage1_file([0, 0x20, 8, 0x55, 4, 8, 8]);
    let refused = |image: &ElfImage| {
        inspect_image(image, &data, 8, DEFAULT_CIPHER_CONSTANT)
            .expect_err("refused")
            .to_string()
    };
    let mut image = protected_image(0x1030);
    image.machine = 62;
    assert_eq!(
        refused(&image),
        "expected AArch64 ELF (machine 0xB7), got 0x3E"
    );
    let mut image = protected_image(0x1030);
    image.sections[5].section_type = 1;
    assert_eq!(
        refused(&image),
        "expected exactly one SHT_LOUSER section, found 0"
    );
    let mut image = protected_image(0x1030);
    image.sections[2].name = None;
    assert_eq!(
        refused(&image),
        "protected ELF lacks required section .gnu.version"
    );
    let mut image = protected_image(0x1030);
    image.sections[4].name = None;
    assert_eq!(
        refused(&image),
        "protected ELF lacks a .gnu.hash or .hash symbol-hash section"
    );
    assert!(matches!(
        inspect(b"not elf", DEFAULT_OUTER_SIZE, DEFAULT_CIPHER_CONSTANT),
        Err(Error::Elf(_))
    ));
}

fn two_segments() -> ElfLayout {
    let segment = |offset: u64, virtual_address: u64, file_size: u64, memory_size: u64| LoadSegment {
        offset,
        virtual_address,
        file_size,
        memory_size,
        flags: PF_R,
        alignment: 0x1000,
    };
    ElfLayout {
        entrypoint: 0,
        program_header_offset: 0,
        program_header_size: 0x38,
        program_header_count: 2,
        program_headers: vec![
            segment(0, 0, 0x10, 0x10),
            segment(0x10, 0x100, 0x8, 0x20),
        ],
        section_headers: Vec::new(),
        section_name_index: 0,
        private_section_index: usize::MAX,
    }
}

#[test]
fn decoded_memory_goes_to_the_file_behind_it() {
    let layout = two_segments();
    let mut output = vec![0_u8; 0x18];
    let data: Vec<u8> = (1..=8).collect();
    assert_eq!(
        write_decoded(&mut output, &layout, 0x120, 0x104, &data).expect("written"),
        4
    );
    assert_eq!(&output[0x14..], &[1, 2, 3, 4]);
    assert!(output[..0x14].iter().all(|byte| *byte == 0));
    assert_eq!(
        write_decoded(&mut output, &layout, 0x120, 4, &data).expect("written"),
        8
    );
    assert_eq!(&output[4..12], &[1, 2, 3, 4, 5, 6, 7, 8]);
    assert_eq!(
        write_decoded(&mut output, &layout, 0x120, 0x11c, &data)
            .expect_err("beyond")
            .to_string(),
        "decoded write 0x11c..0x124 exceeds target load image"
    );
    assert_eq!(
        write_decoded(&mut output, &layout, 0x120, 0x20, &data)
            .expect_err("uncovered")
            .to_string(),
        "decoded write 0x20..0x28 is not covered by PT_LOAD memory"
    );
    assert_eq!(
        write_decoded(&mut output, &layout, 0x120, u64::MAX, &data)
            .expect_err("overflow")
            .to_string(),
        "decoded write range overflow"
    );
}

// A segment with two writers: four bytes as they are, and two that decode to eight.
fn segment() -> Vec<u8> {
    let mut data = Vec::new();
    for word in [0x1000_u32, 2, 16, 48, 0, 4, 4, 0, 8, 8, 2, 0] {
        data.extend_from_slice(&word.to_le_bytes());
    }
    data.extend_from_slice(b"abcdef");
    data
}

#[test]
fn writers_are_read_one_after_the_other() {
    let data = segment();
    let mut cursor = SegmentCursor::open(&data, 3).expect("segment");
    assert_eq!(cursor.base_offset, 0x1000);
    assert_eq!(cursor.writer_count, 2);
    let mut statistics = DecodeStatistics::new(1);
    let first = cursor.next(&data).expect("writer").expect("first");
    assert_eq!(
        first,
        WriterStep {
            target: 0x1000,
            source_start: 48,
            source_end: 52,
            output_size: 4,
            compressed: false,
        }
    );
    assert!(statistics.can_count(&first, 4));
    statistics.count(&first, 4);
    cursor.advance(&first);
    let second = cursor.next(&data).expect("writer").expect("second");
    assert_eq!(
        second,
        WriterStep {
            target: 0x1008,
            source_start: 52,
            source_end: 54,
            output_size: 8,
            compressed: true,
        }
    );
    statistics.count(&second, 5);
    cursor.advance(&second);
    assert_eq!(cursor.next(&data).expect("end"), None);
    assert_eq!(
        statistics,
        DecodeStatistics {
            segments: 1,
            writers: 2,
            compressed_writers: 1,
            encoded_bytes: 6,
            decoded_bytes: 12,
            file_bytes_written: 9,
        }
    );
    assert!(!statistics.can_count(&second, usize::MAX));
}

#[test]
fn segments_that_break_a_rule_are_refused() {
    assert_eq!(
        SegmentCursor::open(&[0; 15], 3).expect_err("short").to_string(),
        "decoded segment 3 is shorter than its header"
    );
    let mut data = segment();
    data[12] = 0xff;
    assert_eq!(
        SegmentCursor::open(&data, 3).expect_err("offsets").to_string(),
        "decoded segment 3 has invalid writer offsets"
    );
    let mut data = segment();
    data[28] = 1;
    let cursor = SegmentCursor::open(&data, 3).expect("segment");
    assert_eq!(
        cursor.next(&data).expect_err("reserved").to_string(),
        "segment 3 writer 0 has invalid bounds"
    );
}

#[test]
fn encoded_segments_lie_within_the_payload() {
    let payload = b"0123456789";
    assert_eq!(encoded_segment(payload, 2, 3, 4).expect("segment"), b"5678");
    assert!(encoded_segment(payload, 2, 3, 6).is_err());
    assert_eq!(
        encoded_segment(payload, usize::MAX, 1, 0)
            .expect_err("overflow")
            .to_string(),
        "encoded segment start overflow"
    );
}

// Steps through the container in `payload`: each segment is transformed into `segment`, and each
// compressed writer's data into eight bytes.
fn decode(
    sink: Sink<'_>,
    output: Vec<u8>,
    payload: &[u8],
    segments: Vec<(u32, u32)>,
    segment: &[u8],
) -> (Vec<Request>, Result<(Vec<u8>, DecodeStatistics), Error>) {
    let mut requests = Vec::new();
    let mut run = ContainerRun::new(sink, output, 1, segments, false, false);
    loop {
        let request = match run.request(payload) {
            Ok(request) => request,
            Err(error) => return (requests, Err(error)),
        };
        requests.push(request);
        let delivered = match request {
            Request::Transform { .. } => Some(segment.to_vec()),
            Request::Decode { .. } => Some(b"ABCDEFGH".to_vec()),
            Request::Write | Request::Close { .. } => None,
            Request::Finish => return (requests, Ok((run.output, run.statistics))),
        };
        assert!(run.is_ready(&delivered));
        run = match run.step(delivered) {
            Ok(run) => run,
            Err(error) => return (requests, Err(error)),
        };
    }
}

#[test]
fn a_container_is_decoded_step_by_step() {
    let (requests, result) = decode(
        Sink::Auxiliary,
        vec![0; 0x1010],
        b"0123456789",
        vec![(2, 3), (5, 4)],
        &segment(),
    );
    let writers = [
        Request::Write,
        Request::Decode {
            source_start: 52,
            source_end: 54,
            output_size: 8,
        },
    ];
    assert_eq!(
        requests,
        vec![
            Request::Transform {
                start: 3,
                end: 6,
                decrypt: true,
            },
            writers[0],
            writers[1],
            Request::Close {
                segment: 0,
                writers: 2,
                encoded: 3,
            },
            Request::Transform {
                start: 6,
                end: 10,
                decrypt: true,
            },
            writers[0],
            writers[1],
            Request::Close {
                segment: 1,
                writers: 2,
                encoded: 4,
            },
            Request::Finish,
        ]
    );
    let (output, statistics) = result.expect("decoded");
    assert_eq!(&output[0x1000..], b"abcd\0\0\0\0ABCDEFGH");
    assert_eq!(
        statistics,
        DecodeStatistics {
            segments: 2,
            writers: 4,
            compressed_writers: 2,
            encoded_bytes: 12,
            decoded_bytes: 24,
            file_bytes_written: 24,
        }
    );
}

#[test]
fn a_container_is_decoded_into_the_file_behind_an_image() {
    let layout = two_segments();
    let mut data = segment();
    data[..4].copy_from_slice(&0x100_u32.to_le_bytes());
    let (_, result) = decode(
        Sink::Image {
            layout: &layout,
            load_end: 0x120,
        },
        vec![0; 0x18],
        b"0123456789",
        vec![(0, 9)],
        &data,
    );
    let (output, statistics) = result.expect("decoded");
    assert_eq!(&output[0x10..], b"abcd\0\0\0\0");
    assert_eq!(statistics.decoded_bytes, 12);
    assert_eq!(statistics.file_bytes_written, 4);
}

#[test]
fn decoding_stops_at_the_first_failure() {
    let (requests, result) = decode(
        Sink::Auxiliary,
        vec![0; 0x1003],
        b"0123456789",
        vec![(0, 1)],
        &segment(),
    );
    assert_eq!(requests.len(), 2);
    assert_eq!(
        result.expect_err("first writer").to_string(),
        "auxiliary decoded write is out of range"
    );
    let (requests, result) = decode(
        Sink::Auxiliary,
        vec![0; 0x100f],
        b"0123456789",
        vec![(0, 1), (0, 1)],
        &segment(),
    );
    assert_eq!(requests.len(), 3);
    assert_eq!(
        result.expect_err("second writer").to_string(),
        "auxiliary decoded write is out of range"
    );
    let (requests, result) = decode(
        Sink::Auxiliary,
        vec![0; 0x1010],
        b"0123456789",
        vec![(0, 1), (0, 10)],
        &segment(),
    );
    assert_eq!(requests.len(), 4);
    assert!(matches!(result, Err(Error::Elf(_))));
    let (requests, result) = decode(
        Sink::Auxiliary,
        vec![0; 0x1010],
        b"0123456789",
        vec![(0, 1)],
        &[0; 15],
    );
    assert_eq!(requests.len(), 1);
    assert_eq!(
        result.expect_err("short").to_string(),
        "decoded segment 0 is shorter than its header"
    );
}

#[test]
fn segments_are_encrypted_unless_one_side_says_otherwise() {
    for (module, container, encrypted) in [
        (false, false, true),
        (true, false, false),
        (false, true, false),
        (true, true, false),
    ] {
        let run = ContainerRun::new(
            Sink::Auxiliary,
            Vec::new(),
            0,
            vec![(0, 1)],
            module,
            container,
        );
        assert_eq!(
            run.request(b"0").expect("request"),
            Request::Transform {
                start: 0,
                end: 1,
                decrypt: encrypted,
            }
        );
        assert!(!run.is_ready(&None));
        assert!(run.is_ready(&Some(Vec::new())));
    }
}

#[test]
fn auxiliary_writes_stay_within_the_image() {
    let mut image = vec![0_u8; 8];
    assert_eq!(write_auxiliary(&mut image, 2, b"abc").expect("written"), 3);
    assert_eq!(image, b"\0\0abc\0\0\0");
    assert_eq!(
        write_auxiliary(&mut image, 6, b"abc").expect_err("range").to_string(),
        "auxiliary decoded write is out of range"
    );
    assert_eq!(image, b"\0\0abc\0\0\0");
    assert_eq!(
        write_auxiliary(&mut image, u64::MAX, b"abc")
            .expect_err("overflow")
            .to_string(),
        "auxiliary decoded write overflow"
    );
}

#[test]
fn strings_end_at_a_zero_byte() {
    let data = b"ab\0cd";
    assert_eq!(read_c_string(data, 0, 5).expect("string"), b"ab");
    assert_eq!(read_c_string(data, 2, 5).expect("string"), b"");
    assert_eq!(
        read_c_string(data, 3, 5).expect_err("end").to_string(),
        "unterminated string at 0x3"
    );
    assert_eq!(
        read_c_string(data, 3, 6).expect_err("limit").to_string(),
        "invalid string offset 0x3/0x6"
    );
    assert_eq!(
        read_c_string(data, 5, 5).expect_err("offset").to_string(),
        "invalid string offset 0x5/0x5"
    );
}

#[test]
fn auxiliary_images_that_break_a_rule_are_refused() {
    let refused = |data: &[u8]| {
        AuxiliaryElfImage::parse(data)
            .expect_err("refused")
            .to_string()
    };
    assert_eq!(
        refused(&[0; 0x3f]),
        "decoded auxiliary ELF image is truncated"
    );
    let mut field = auxiliary_image(1);
    field[4] = 1;
    assert_eq!(
        refused(&field),
        "unexpected nonzero auxiliary ELF header field"
    );
    let mut machine = auxiliary_image(1);
    machine[0x38] = 0x3e;
    assert_eq!(refused(&machine), "unexpected auxiliary ELF machine 0x3e");
    let mut first = auxiliary_image(1);
    first[0x20] = 0x50;
    assert_eq!(
        refused(&first),
        "auxiliary relocation table does not follow its header"
    );
    assert_eq!(
        refused(&auxiliary_image(2)),
        "auxiliary ELF layout mismatch: rela1_end=0x88/rela2=0x90, rela2_end=0x258/dynsym=0x260, dynsym_end=0x290/dynstr=0x278, dynstr_end=0x279/size=0x279"
    );
    let mut padding = auxiliary_image(1);
    padding[0x88] = 1;
    assert_eq!(
        refused(&padding),
        "auxiliary ELF alignment padding 0x88..0x90 is nonzero"
    );
    let mut null = auxiliary_image(1);
    null[0x260] = 1;
    assert_eq!(
        refused(&null),
        "auxiliary dynamic symbol zero entry is not empty"
    );
}

fn table_section(offset: u64, size: u64, entry_size: u64) -> SectionHeader {
    SectionHeader {
        name: 0,
        section_type: 1,
        flags: 2,
        address: offset,
        offset,
        size,
        link: 0,
        info: 0,
        alignment: 8,
        entry_size,
    }
}

// An image with three symbols and 16 bytes of strings, and a patch for symbols 2 and 1.
fn hidden() -> (Vec<u8>, Vec<u8>) {
    let mut image = vec![0_u8; 0x60];
    image[0x50..0x54].copy_from_slice(b"\0two");
    let mut patch = Vec::new();
    for word in [0x50_u32, 9, 2, 0x10, 0x40, 0x48] {
        patch.extend_from_slice(&word.to_le_bytes());
    }
    let mut symbols = [0_u8; 0x30];
    symbols[0] = 1;
    symbols[5] = 0xaa;
    symbols[0x18] = 5;
    symbols[0x1d] = 0xbb;
    patch.extend_from_slice(&symbols);
    patch.extend_from_slice(&2_u32.to_le_bytes());
    patch.extend_from_slice(&1_u32.to_le_bytes());
    patch.extend_from_slice(b"two\0one\0");
    (image, patch)
}

#[test]
fn hidden_symbols_come_back_with_their_names() {
    let (image, patch) = hidden();
    let (symbols, strings, report) = restore_hidden_symbols(
        &image,
        table_section(0, 0x48, 0x18),
        table_section(0x50, 0x10, 0),
        &patch,
    )
    .expect("symbols");
    assert_eq!(symbols.len(), 0x48);
    assert_eq!(symbols[0x18], 5);
    assert_eq!(symbols[0x1d], 0xbb);
    assert_eq!(symbols[0x30], 1);
    assert_eq!(symbols[0x35], 0xaa);
    assert_eq!(strings, b"\0two\0one\0\0\0\0\0\0\0\0");
    assert_eq!(report.patch_blob_size, 0x50);
    assert_eq!(report.secondary_record_count, 9);
    assert_eq!(report.patched_symbols, 2);
    assert_eq!(report.copied_strings, 1);
    assert_eq!(report.first_target_index, 1);
    assert_eq!(report.last_target_index, 2);
}

#[test]
fn patches_that_break_a_rule_are_refused() {
    let (image, patch) = hidden();
    let refused = |image: &[u8], patch: &[u8], entry_size: u64| {
        restore_hidden_symbols(
            image,
            table_section(0, 0x48, entry_size),
            table_section(0x50, 0x10, 0),
            patch,
        )
        .expect_err("refused")
        .to_string()
    };
    assert_eq!(
        refused(&image, &patch, 0x10),
        "unexpected .dynsym entry layout"
    );
    assert_eq!(
        refused(&image, &patch[..0x17], 0x18),
        "0x9E symbol patch data is truncated"
    );
    assert_eq!(
        refused(&image, &patch[..0x50], 0x18),
        "0x9E primary symbol patch blob exceeds its artifact"
    );
    let changed = |at: usize, value: u8| {
        let mut patch = patch.clone();
        patch[at] = value;
        patch
    };
    assert_eq!(
        refused(&image, &changed(12, 0x40), 0x18),
        "0x9E symbol patch table has invalid offsets"
    );
    assert_eq!(
        refused(&image, &changed(0x48, 3), 0x18),
        "0x9E target symbol index 3 is invalid"
    );
    assert_eq!(
        refused(&image, &changed(0x4c, 2), 0x18),
        "0x9E patches symbol 2 more than once"
    );
    assert_eq!(
        refused(&image, &changed(0x30, 13), 0x18),
        "0x9E symbol 1 name exceeds .dynstr"
    );
    assert_eq!(
        refused(&image, &changed(0x50, b'x'), 0x18),
        "0x9E symbol 2 conflicts with existing .dynstr data"
    );
    let mut empty = patch.clone();
    empty[8] = 0;
    empty[20] = 0x4c;
    empty[0x54..0x58].copy_from_slice(&[0; 4]);
    assert_eq!(
        refused(&image, &empty, 0x18),
        "0x9E symbol strings have invalid padding at 0x54..0x58"
    );
    let mut none = patch.clone();
    none[8] = 0;
    none[20] = 0x4d;
    none[0x55..0x58].copy_from_slice(&[0; 3]);
    assert_eq!(refused(&image, &none, 0x18), "0x9E patch table is empty");
}

#[test]
fn symbol_names_are_looked_up() {
    let mut symbols = vec![0_u8; 0x30];
    symbols[0x18] = 3;
    assert_eq!(
        dynamic_symbol_names(&symbols, b"a\0\0bc\0").expect("names"),
        [b"a".to_vec(), b"bc".to_vec()]
    );
    assert_eq!(
        dynamic_symbol_names(&symbols[1..], b"\0").expect_err("size").to_string(),
        "dynamic symbol table is not entry-aligned"
    );
}

#[test]
fn relocations_survive_encoding() {
    let relocation = Rela {
        offset: 0x1122_3344_5566_7788,
        info: 7 << 32 | 0x402,
        addend: -5,
    };
    assert_eq!(relocation.kind(), 0x402);
    assert_eq!(relocation.symbol(), 7);
    let mut encoded = Vec::new();
    relocation.encode(&mut encoded);
    assert_eq!(encoded.len(), 0x18);
    assert_eq!(encoded[0], 0x88);
    assert_eq!(Rela::parse(&encoded, 0).expect("relocation"), relocation);
    assert!(Rela::parse(&encoded, 1).is_err());
}

#[test]
fn relocations_are_renumbered_and_filtered() {
    let mut data = Vec::new();
    for (symbol, kind) in [(0_u64, 0x403_u64), (1, 0x401), (2, 0x402)] {
        Rela {
            offset: 0x10,
            info: symbol << 32 | kind,
            addend: 0,
        }
        .encode(&mut data);
    }
    let table = RelocationTable {
        data: &data,
        offset: 0,
        count: 3,
        remap: Some((10, 3)),
    };
    assert_eq!(table.relocation(0).expect("relocation").symbol(), 0);
    assert_eq!(table.relocation(1).expect("relocation").symbol(), 10);
    assert_eq!(table.relocation(2).expect("relocation").symbol(), 11);
    assert_eq!(
        table.relocation(3).expect_err("index").to_string(),
        "relocation index is out of range"
    );
    assert_eq!(
        table.validate(KindRule::Data, "table").expect_err("type").to_string(),
        "table contains unsupported relocation type 0x402"
    );
    let two = RelocationTable { count: 2, ..table };
    assert!(two.validate(KindRule::Data, "table").is_ok());
    let mut output = Vec::new();
    let mut taken = |filter: KindFilter| two.append_where(&mut output, filter).expect("taken");
    assert_eq!(taken(KindFilter::Relative), 1);
    assert_eq!(taken(KindFilter::NotRelative), 1);
    assert_eq!(taken(KindFilter::JumpSlot), 0);
    assert_eq!(output.len(), 0x30);
    let few = RelocationTable {
        remap: Some((10, 2)),
        ..table
    };
    assert_eq!(
        few.relocation(2).expect_err("symbol").to_string(),
        "auxiliary relocation references an invalid symbol"
    );
    let mut output = Vec::new();
    assert_eq!(
        few.append_where(&mut output, KindFilter::Any)
            .expect_err("symbol")
            .to_string(),
        "auxiliary relocation references an invalid symbol"
    );
    let none = RelocationTable {
        remap: Some((0, 3)),
        ..table
    };
    assert_eq!(
        none.relocation(1).expect_err("no symbols").to_string(),
        "old dynamic symbol table is empty"
    );
}

fn no_values() -> DynamicValues {
    DynamicValues {
        pltrelsz: None,
        hash: None,
        strtab: None,
        symtab: None,
        rela: None,
        relasz: None,
        strsz: None,
        jmprel: None,
        gnu_hash: None,
        versym: None,
        relacount: None,
        verneed: None,
    }
}

fn dynamic_table(tags: &[u64]) -> Vec<u8> {
    let mut data = Vec::new();
    for tag in tags {
        data.extend_from_slice(&tag.to_le_bytes());
        data.extend_from_slice(&0x99_u64.to_le_bytes());
    }
    data
}

#[test]
fn dynamic_tags_are_set() {
    let mut data = dynamic_table(&[5, 6, 1, 0, 10]);
    let section = table_section(0, 0x50, 0x10);
    assert!(dynamic_contains_tag(&data, section, 6).expect("table"));
    assert!(!dynamic_contains_tag(&data, section, 10).expect("behind the end"));
    let values = DynamicValues {
        strtab: Some(0x1000),
        symtab: Some(0x2000),
        ..no_values()
    };
    patch_dynamic_tags(&mut data, section, &values).expect("set");
    let value = |data: &[u8], k: usize| data[k * 0x10 + 8..k * 0x10 + 16].to_vec();
    assert_eq!(value(&data, 0), 0x1000_u64.to_le_bytes());
    assert_eq!(value(&data, 1), 0x2000_u64.to_le_bytes());
    assert_eq!(value(&data, 2), 0x99_u64.to_le_bytes());
    assert_eq!(value(&data, 4), 0x99_u64.to_le_bytes());
    assert_eq!(values.get(6), Some(0x2000));
    assert_eq!(values.get(7), None);
}

#[test]
fn dynamic_tags_occur_exactly_once() {
    let values = DynamicValues {
        strtab: Some(1),
        strsz: Some(2),
        gnu_hash: Some(3),
        ..no_values()
    };
    let mut twice = dynamic_table(&[5, 5, 0]);
    assert_eq!(
        patch_dynamic_tags(&mut twice, table_section(0, 0x30, 0x10), &values)
            .expect_err("twice")
            .to_string(),
        "dynamic tag 0x5 occurs more than once"
    );
    let mut missing = dynamic_table(&[5, 0]);
    assert_eq!(
        patch_dynamic_tags(&mut missing, table_section(0, 0x20, 0x10), &values)
            .expect_err("missing")
            .to_string(),
        "missing dynamic tags: 0xa, 0x6ffffef5"
    );
    let mut odd = dynamic_table(&[5, 0]);
    assert_eq!(
        patch_dynamic_tags(&mut odd, table_section(0, 0x18, 0x10), &values)
            .expect_err("size")
            .to_string(),
        ".dynamic size is not entry-aligned"
    );
    let mut set = TagSet::none();
    assert!(set.is_empty());
    set.insert(5);
    assert!(set.has(5));
    assert!(!set.has(10));
    assert!(values.missing(&set).has(10));
    assert!(!values.missing(&set).has(5));
}

#[test]
fn tables_are_placed_one_after_the_other() {
    let table = |slot: TableSlot, size: usize| TablePayload {
        slot,
        data: vec![0; size],
    };
    let tables = [
        table(TableSlot::Dynsym, 0x18),
        table(TableSlot::Versym, 3),
        table(TableSlot::GnuHash, 5),
        table(TableSlot::Dynstr, 2),
        table(TableSlot::RelaDyn, 0),
    ];
    let (places, end) = table_placements(&tables, 0x101).expect("places");
    let place = |offset: u64, size: usize| PlacementReport { offset, size };
    assert_eq!(
        places,
        vec![
            place(0x108, 0x18),
            place(0x120, 3),
            place(0x128, 5),
            place(0x12d, 2),
            place(0x130, 0),
        ]
    );
    assert_eq!(end, 0x130);
    assert!(table_placements(&tables, u64::MAX - 2).is_err());
}

fn entry(command_id: u64, path: &str, size: u64) -> IndexEntry {
    IndexEntry {
        command_id: Some(command_id),
        path: Some(path.to_owned()),
        size: Some(size),
    }
}

#[test]
fn artifacts_are_selected_from_an_index() {
    let registry = [
        entry(0x9b, "b", 1),
        entry(0x9d, "d", 2),
        entry(0x9e, "e", 3),
        entry(7, "ignored", 4),
        IndexEntry {
            command_id: None,
            path: None,
            size: None,
        },
    ];
    let records = [entry(0x9d, "newer", 5), entry(0x96, "optional", 6)];
    let artifacts = select_artifacts(&registry, &records).expect("artifacts");
    let artifact = |path: &str, size: u64| {
        Some(Artifact {
            path: path.to_owned(),
            size,
        })
    };
    assert_eq!(artifacts.module_9b, artifact("b", 1));
    assert_eq!(artifacts.module_9d, artifact("newer", 5));
    assert_eq!(artifacts.module_9e, artifact("e", 3));
    assert_eq!(artifacts.module_96, artifact("optional", 6));
    assert_eq!(artifacts.module_98, None);
    let d = artifacts.module_9d.expect("artifact");
    assert!(is_intact(&d, true, 5));
    assert!(!is_intact(&d, true, 6));
    assert!(!is_intact(&d, false, 5));
}

#[test]
fn indexes_that_cannot_be_used_are_refused() {
    let refused = |registry: &[IndexEntry], records: &[IndexEntry]| {
        select_artifacts(registry, records)
            .expect_err("refused")
            .to_string()
    };
    assert_eq!(
        refused(&[entry(0x1_0000_0000, "x", 1)], &[]),
        "module command ID exceeds u32"
    );
    assert_eq!(
        refused(&[], &[entry(0x1_0000_0000, "x", 1)]),
        "record command ID exceeds u32"
    );
    let no_size = || IndexEntry {
        command_id: Some(0x9b),
        path: Some("x".to_owned()),
        size: None,
    };
    assert_eq!(refused(&[no_size()], &[]), "module 0x9B lacks size");
    assert_eq!(refused(&[], &[no_size()]), "record 0x9B lacks image size");
    assert_eq!(
        refused(&[entry(0x9d, "x", 1)], &[]),
        "module index lacks required IDs: 0x9B, 0x9E"
    );
}

#[test]
fn an_index_is_read_from_json() {
    let text = r#"{
        "module_registry": [
            {"command_id": 155, "image_path": "m/b.bin", "size": 10},
            {"command_id": 157, "image_path": "m/d.bin", "size": 11},
            {"command_id": 158.5, "image_path": "float", "size": 1},
            {"command_id": 158, "image_path": 3, "size": 1},
            {"command_id": "158", "image_path": "text", "size": 1}
        ],
        "streams": [
            {"records": [{"command_id": 158, "image": {"path": "r/e.bin", "size": 12}}]},
            {"records": "none"},
            {"records": [{"command_id": 152}, {"command_id": 150, "image": {"size": 1}}]}
        ]
    }"#;
    let artifacts = load_artifacts(text).expect("artifacts");
    assert_eq!(artifacts.module_9b.expect("9b").path, "m/b.bin");
    assert_eq!(artifacts.module_9d.expect("9d").size, 11);
    let e = artifacts.module_9e.expect("9e");
    assert_eq!(e.path, "r/e.bin");
    assert_eq!(e.size, 12);
    assert_eq!(artifacts.module_98, None);
    assert_eq!(artifacts.module_96, None);
    assert!(matches!(load_artifacts("{"), Err(Error::Json(_))));
    for text in ["{", "", "[1,]"] {
        let told = serde_json::from_str::<serde_json::Value>(text).expect_err("syntax");
        assert_eq!(
            load_artifacts(text).expect_err("syntax").to_string(),
            told.to_string()
        );
    }
    assert!(matches!(
        load_artifacts("[]"),
        Err(Error::Invalid(Fault::MissingIds {
            lacks_9b: true,
            lacks_9d: true,
            lacks_9e: true,
        }))
    ));
}

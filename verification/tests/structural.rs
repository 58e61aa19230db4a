use senbei::metadata::structural::{
    deobfuscate, is_metadata, Error, HDR_IMAGES, HDR_METHODS, HDR_TYPES, IMAGE_STRIDE,
    IMAGE_TYPE_COUNT_OFF, IMAGE_TYPE_START_OFF, SUPPORTED_VERSION, SUPPORTED_VERSION_V24, V24_HDR_IMAGES,
};
use senbei::metadata::MAGIC;

const METHOD_STRIDE: usize = 0x24;
const METHOD_TOKEN_OFF: usize = 0x18;
const TYPE_STRIDE: usize = 0x58;
const TYPE_METHOD_START_OFF: usize = 0x24;
const TYPE_METHOD_COUNT_OFF: usize = 0x40;
const V24_METHOD_STRIDE: usize = 0x34;
const V24_METHOD_TOKEN_OFF: usize = 0x28;
const V24_TYPE_STRIDE: usize = 0x64;
const V24_TYPE_METHOD_START_OFF: usize = 0x30;
const V24_TYPE_METHOD_COUNT_OFF: usize = 0x4C;

fn rd_u32(b: &[u8], at: usize) -> u32 {
    u32::from_le_bytes([b[at], b[at + 1], b[at + 2], b[at + 3]])
}

// Build a minimal but structurally valid v31 metadata with two modules:
//   image 0: 1 type, 2 methods (global 0,1)
//   image 1: 1 type, 3 methods (global 2,3,4)
// Method tokens are seeded with *obfuscated* (sparse) values; the correct
// de-obfuscated tokens are per-module 1-based: [1,2] and [1,2,3].
struct Built {
    bytes: Vec<u8>,
    m_off: usize,
}
fn build(method_tokens: &[u32]) -> Built {
    // Layout: [header 0x100][images][types][methods]
    let hdr = 0x100usize;
    let images = hdr;
    let i_count = 2;
    let i_size = i_count * IMAGE_STRIDE;
    let types = images + i_size;
    let t_count = 2;
    let t_size = t_count * TYPE_STRIDE;
    let methods = types + t_size;
    let m_count = method_tokens.len();
    let m_size = m_count * METHOD_STRIDE;
    let total = methods + m_size;
    let mut b = vec![0u8; total];

    let put32 = |b: &mut [u8], o: usize, v: u32| b[o..o + 4].copy_from_slice(&v.to_le_bytes());
    let put16 = |b: &mut [u8], o: usize, v: u16| b[o..o + 2].copy_from_slice(&v.to_le_bytes());

    put32(&mut b, 0, MAGIC);
    put32(&mut b, 4, SUPPORTED_VERSION);
    put32(&mut b, HDR_METHODS, methods as u32);
    put32(&mut b, HDR_METHODS + 4, m_size as u32);
    put32(&mut b, HDR_TYPES, types as u32);
    put32(&mut b, HDR_TYPES + 4, t_size as u32);
    put32(&mut b, HDR_IMAGES, images as u32);
    put32(&mut b, HDR_IMAGES + 4, i_size as u32);

    // image 0: typeStart=0 typeCount=1 ; image 1: typeStart=1 typeCount=1
    put32(&mut b, images + IMAGE_TYPE_START_OFF, 0);
    put32(&mut b, images + IMAGE_TYPE_COUNT_OFF, 1);
    put32(&mut b, images + IMAGE_STRIDE + IMAGE_TYPE_START_OFF, 1);
    put32(&mut b, images + IMAGE_STRIDE + IMAGE_TYPE_COUNT_OFF, 1);
    // type 0: methodStart=0 count=2 ; type 1: methodStart=2 count=3
    put32(&mut b, types + TYPE_METHOD_START_OFF, 0);
    put16(&mut b, types + TYPE_METHOD_COUNT_OFF, 2);
    put32(&mut b, types + TYPE_STRIDE + TYPE_METHOD_START_OFF, 2);
    put16(&mut b, types + TYPE_STRIDE + TYPE_METHOD_COUNT_OFF, 3);
    // method tokens
    for (i, &tok) in method_tokens.iter().enumerate() {
        put32(&mut b, methods + i * METHOD_STRIDE + METHOD_TOKEN_OFF, tok);
    }
    Built {
        bytes: b,
        m_off: methods,
    }
}
fn tok(b: &[u8], m_off: usize, i: usize) -> u32 {
    rd_u32(b, m_off + i * METHOD_STRIDE + METHOD_TOKEN_OFF)
}

#[test]
fn remaps_obfuscated_method_tokens_per_module() {
    // Sparse tokens (rows way past each module's method count).
    let built = build(&[
        0x0600_D49F,
        0x0600_FFFF,
        0x0600_1234,
        0x0600_ABCD,
        0x0600_5555,
    ]);
    let (out, r) = deobfuscate(&built.bytes).expect("ok");
    assert_eq!(r.version, 31);
    assert_eq!(r.methods, 5);
    assert_eq!(r.modules, 2);
    assert_eq!(r.remapped, 5);
    // module 0 (methods 0,1) -> rows 1,2 ; module 1 (methods 2,3,4) -> rows 1,2,3
    assert_eq!(tok(&out, built.m_off, 0), 0x0600_0001);
    assert_eq!(tok(&out, built.m_off, 1), 0x0600_0002);
    assert_eq!(tok(&out, built.m_off, 2), 0x0600_0001);
    assert_eq!(tok(&out, built.m_off, 3), 0x0600_0002);
    assert_eq!(tok(&out, built.m_off, 4), 0x0600_0003);
}

#[test]
fn idempotent_on_clean_metadata() {
    // Already de-obfuscated: per-module contiguous rows.
    let clean = [
        0x0600_0001,
        0x0600_0002,
        0x0600_0001,
        0x0600_0002,
        0x0600_0003,
    ];
    let built = build(&clean);
    let (out, r) = deobfuscate(&built.bytes).expect("ok");
    assert_eq!(r.remapped, 0, "no rewrites on already-clean metadata");
    assert_eq!(out, built.bytes, "byte-identical output");
}

#[test]
fn rejects_non_metadata() {
    assert_eq!(
        deobfuscate(b"not metadata at all....").unwrap_err(),
        Error::NotMetadata
    );
}

#[test]
fn rejects_unsupported_version() {
    let mut built = build(&[
        0x0600_0001,
        0x0600_0002,
        0x0600_0001,
        0x0600_0002,
        0x0600_0003,
    ]);
    built.bytes[4..8].copy_from_slice(&29u32.to_le_bytes());
    assert_eq!(
        deobfuscate(&built.bytes).unwrap_err(),
        Error::UnsupportedVersion(29)
    );
}

// Minimal structurally valid v24 metadata: v24's images table lives at
// header 0xB0 (not 0xA8) and its method/type strides differ from v31.
struct BuiltV24 {
    bytes: Vec<u8>,
    m_off: usize,
}
fn build_v24(method_tokens: &[u32]) -> BuiltV24 {
    let hdr = 0x100usize;
    let images = hdr;
    let i_count = 2;
    let i_size = i_count * IMAGE_STRIDE;
    let types = images + i_size;
    let t_count = 2;
    let t_size = t_count * V24_TYPE_STRIDE;
    let methods = types + t_size;
    let m_count = method_tokens.len();
    let m_size = m_count * V24_METHOD_STRIDE;
    let mut b = vec![0u8; methods + m_size];

    let put32 = |b: &mut [u8], o: usize, v: u32| b[o..o + 4].copy_from_slice(&v.to_le_bytes());
    let put16 = |b: &mut [u8], o: usize, v: u16| b[o..o + 2].copy_from_slice(&v.to_le_bytes());

    put32(&mut b, 0, MAGIC);
    put32(&mut b, 4, SUPPORTED_VERSION_V24);
    put32(&mut b, HDR_METHODS, methods as u32);
    put32(&mut b, HDR_METHODS + 4, m_size as u32);
    put32(&mut b, HDR_TYPES, types as u32);
    put32(&mut b, HDR_TYPES + 4, t_size as u32);
    put32(&mut b, V24_HDR_IMAGES, images as u32);
    put32(&mut b, V24_HDR_IMAGES + 4, i_size as u32);

    put32(&mut b, images + IMAGE_TYPE_START_OFF, 0);
    put32(&mut b, images + IMAGE_TYPE_COUNT_OFF, 1);
    put32(&mut b, images + IMAGE_STRIDE + IMAGE_TYPE_START_OFF, 1);
    put32(&mut b, images + IMAGE_STRIDE + IMAGE_TYPE_COUNT_OFF, 1);
    put32(&mut b, types + V24_TYPE_METHOD_START_OFF, 0);
    put16(&mut b, types + V24_TYPE_METHOD_COUNT_OFF, 2);
    put32(&mut b, types + V24_TYPE_STRIDE + V24_TYPE_METHOD_START_OFF, 2);
    put16(&mut b, types + V24_TYPE_STRIDE + V24_TYPE_METHOD_COUNT_OFF, 3);
    for (i, &tok) in method_tokens.iter().enumerate() {
        put32(&mut b, methods + i * V24_METHOD_STRIDE + V24_METHOD_TOKEN_OFF, tok);
    }
    BuiltV24 {
        bytes: b,
        m_off: methods,
    }
}

#[test]
fn remaps_obfuscated_v24_method_tokens_per_module() {
    let built = build_v24(&[
        0x0600_D49F,
        0x0600_FFFF,
        0x0600_1234,
        0x0600_ABCD,
        0x0600_5555,
    ]);
    let (out, r) = deobfuscate(&built.bytes).expect("ok");
    assert_eq!(r.version, 24);
    assert_eq!(r.methods, 5);
    assert_eq!(r.modules, 2);
    assert_eq!(r.remapped, 5);
    let tok24 = |b: &[u8], i: usize| {
        rd_u32(b, built.m_off + i * V24_METHOD_STRIDE + V24_METHOD_TOKEN_OFF)
    };
    assert_eq!(tok24(&out, 0), 0x0600_0001);
    assert_eq!(tok24(&out, 1), 0x0600_0002);
    assert_eq!(tok24(&out, 2), 0x0600_0001);
    assert_eq!(tok24(&out, 3), 0x0600_0002);
    assert_eq!(tok24(&out, 4), 0x0600_0003);
}

#[test]
fn v24_clean_metadata_is_byte_identical() {
    let clean = [
        0x0600_0001,
        0x0600_0002,
        0x0600_0001,
        0x0600_0002,
        0x0600_0003,
    ];
    let built = build_v24(&clean);
    let (out, r) = deobfuscate(&built.bytes).expect("ok");
    assert_eq!(r.remapped, 0);
    assert_eq!(out, built.bytes);
}

#[test]
fn tables_that_leave_the_file_are_malformed() {
    let built = build(&[0x0600_0001, 0x0600_0002, 0x0600_0001, 0x0600_0002, 0x0600_0003]);
    assert_eq!(
        deobfuscate(&built.bytes[..built.bytes.len() - 1]).unwrap_err(),
        Error::Malformed
    );
    assert_eq!(deobfuscate(&built.bytes[..6]).unwrap_err(), Error::Malformed);
    let mut stride = built.bytes.clone();
    stride[HDR_METHODS + 4] = 1;
    assert_eq!(deobfuscate(&stride).unwrap_err(), Error::Malformed);
    assert_eq!(
        Error::Malformed.to_string(),
        "malformed metadata for version 31"
    );
    assert_eq!(
        Error::NotMetadata.to_string(),
        "not an il2cpp global-metadata.dat"
    );
    assert_eq!(
        Error::UnsupportedVersion(29).to_string(),
        "unsupported metadata version 29"
    );
}

#[test]
fn metadata_is_recognised_by_its_first_word() {
    assert!(is_metadata(&MAGIC.to_le_bytes()));
    assert!(!is_metadata(&MAGIC.to_le_bytes()[..3]));
    assert!(!is_metadata(b"PK\x03\x04"));
}

// Only the token fields differ between a file and its restored copy.
#[test]
fn only_tokens_change() {
    let built = build(&[0x0600_D49F, 0x0600_FFFF, 0x0600_1234, 0x0600_ABCD, 0x0600_5555]);
    let (out, _) = deobfuscate(&built.bytes).expect("ok");
    assert_eq!(out.len(), built.bytes.len());
    for at in 0..out.len() {
        let is_token = at >= built.m_off
            && (METHOD_TOKEN_OFF..METHOD_TOKEN_OFF + 4)
                .contains(&((at - built.m_off) % METHOD_STRIDE));
        if !is_token {
            assert_eq!(out[at], built.bytes[at], "byte {at:#x}");
        }
    }
    let (again, report) = deobfuscate(&out).expect("ok");
    assert_eq!(again, out);
    assert_eq!(report.remapped, 0);
}

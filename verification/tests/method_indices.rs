use senbei::metadata::method_indices::{
    is_complete_permutation, method_indices, restore_method_indices_v24_1, transform_index,
    MethodIndexError, EXCEPTION_COUNT, HDR_METHODS, RAW_VERSION_24, V24_1_METHOD_INDEX_OFFSET,
    V24_1_METHOD_STRIDE, V24_1_SELECTOR,
};
use senbei::metadata::MAGIC;

fn inverse_map(count: u32, seed: u32) -> Vec<u32> {
    let mut inverse = vec![u32::MAX; count as usize];
    for value in 0..count {
        let transformed = transform_index(value, count, seed).unwrap();
        inverse[transformed as usize] = value;
    }
    assert!(inverse.iter().all(|value| *value != u32::MAX));
    inverse
}

fn fixture() -> (Vec<u8>, Vec<u8>) {
    let active_count = 512_u32;
    let seed = 0x7770_0dcc;
    let inverse = inverse_map(active_count, seed);
    let header_size = 0x100usize;
    let method_size = active_count as usize * V24_1_METHOD_STRIDE;
    let mut metadata = vec![0_u8; header_size + method_size];
    metadata[0..4].copy_from_slice(&MAGIC.to_le_bytes());
    metadata[4..8].copy_from_slice(&RAW_VERSION_24.to_le_bytes());
    metadata[HDR_METHODS..HDR_METHODS + 4].copy_from_slice(&(header_size as u32).to_le_bytes());
    metadata[HDR_METHODS + 4..HDR_METHODS + 8]
        .copy_from_slice(&(method_size as u32).to_le_bytes());

    // Before the exception patch the first half duplicates the second half,
    // leaving 0..255 missing. The module's 256-entry table fills exactly
    // those first active methods after the five-round transform.
    for method in 0..active_count as usize {
        let transformed = 256 + (method % 256) as u32;
        let protected = inverse[transformed as usize];
        let offset = header_size + method * V24_1_METHOD_STRIDE + V24_1_METHOD_INDEX_OFFSET;
        metadata[offset..offset + 4].copy_from_slice(&(protected as i32).to_le_bytes());
    }

    let mut module = vec![0_u8; 0x1000];
    module[0x100..0x104].copy_from_slice(&seed.to_le_bytes());
    module[0x104..0x108].copy_from_slice(&RAW_VERSION_24.to_le_bytes());
    module[0x3f8..0x3fc].copy_from_slice(&V24_1_SELECTOR.to_le_bytes());
    module[0x3fc..0x400].copy_from_slice(&(active_count - 1).to_le_bytes());
    for value in 0..EXCEPTION_COUNT as u32 {
        let offset = 0x400 + value as usize * 4;
        module[offset..offset + 4].copy_from_slice(&value.to_le_bytes());
    }
    (metadata, module)
}

#[test]
fn restores_v24_1_method_index_permutation() {
    let (metadata, module) = fixture();
    let (restored, report) = restore_method_indices_v24_1(&metadata, &module).unwrap();
    assert_eq!(report.active_methods, 512);
    assert_eq!(report.exception_count, 256);
    assert_eq!(report.seed, "0x77700DCC");
    let (offset, indices) = method_indices(&restored).unwrap();
    assert_eq!(offset, 0x100);
    assert!(is_complete_permutation(&indices));
    for (method, value) in indices.into_iter().enumerate() {
        assert_eq!(value, Some(method as u32));
    }
}

#[test]
fn clean_v24_1_metadata_is_idempotent() {
    let (metadata, module) = fixture();
    let (restored, _) = restore_method_indices_v24_1(&metadata, &module).unwrap();
    let (again, report) = restore_method_indices_v24_1(&restored, &module).unwrap();
    assert_eq!(again, restored);
    assert_eq!(report.changed_indices, 0);
    assert_eq!(report.seed, "clean");
}

#[test]
fn rejects_unrelated_module() {
    let (metadata, _) = fixture();
    let error = restore_method_indices_v24_1(&metadata, &[0_u8; 0x1000]).unwrap_err();
    assert_eq!(error, MethodIndexError::ProfileNotFound);
}

#[test]
fn method_tables_that_break_a_rule_are_refused() {
    let (metadata, module) = fixture();
    let refused = |data: &[u8]| {
        restore_method_indices_v24_1(data, &module)
            .expect_err("refused")
            .to_string()
    };
    assert_eq!(
        refused(b"not metadata at all"),
        "not an IL2CPP global-metadata.dat"
    );
    let mut version = metadata.clone();
    version[4] = 31;
    assert_eq!(refused(&version), "unsupported metadata version 31");
    let mut size = metadata.clone();
    size[HDR_METHODS + 4..HDR_METHODS + 6].copy_from_slice(&[0xff, 0x67]);
    assert_eq!(
        refused(&size),
        "malformed v24.1 metadata: method table size 0x67ff is not divisible by v24.1 stride 0x34"
    );
    let mut beyond = metadata.clone();
    beyond.truncate(0x200);
    assert_eq!(
        refused(&beyond),
        "malformed v24.1 metadata: byte range 0x100..0x6900 is out of bounds"
    );
}

#[test]
fn a_seed_that_stands_twice_counts_once() {
    let (metadata, mut module) = fixture();
    let seed = module[0x100..0x108].to_vec();
    module[0x200..0x208].copy_from_slice(&seed);
    let (restored, report) = restore_method_indices_v24_1(&metadata, &module).expect("same seed");
    assert_eq!(report.seed, "0x77700DCC");
    assert!(is_complete_permutation(&method_indices(&restored).expect("indices").1));
}

#[test]
fn two_seeds_that_fit_are_ambiguous() {
    let (metadata, mut module) = fixture();
    module[0x200..0x204].copy_from_slice(&0x7770_0ecc_u32.to_le_bytes());
    module[0x204..0x208].copy_from_slice(&RAW_VERSION_24.to_le_bytes());
    let error = restore_method_indices_v24_1(&metadata, &module).expect_err("ambiguous");
    assert_eq!(error, MethodIndexError::AmbiguousProfile);
    assert_eq!(
        error.to_string(),
        "multiple v24.1 method-index profiles matched module 0x0C"
    );
}

#[test]
fn few_methods_have_no_profile() {
    let (mut metadata, module) = fixture();
    let two = (2 * V24_1_METHOD_STRIDE) as u32;
    metadata[HDR_METHODS + 4..HDR_METHODS + 8].copy_from_slice(&two.to_le_bytes());
    for method in 0..2 {
        let at = 0x100 + method * V24_1_METHOD_STRIDE + V24_1_METHOD_INDEX_OFFSET;
        metadata[at..at + 4].copy_from_slice(&0_i32.to_le_bytes());
    }
    assert_eq!(
        restore_method_indices_v24_1(&metadata, &module)
            .expect_err("few")
            .to_string(),
        "v24.1 method-index restoration failed validation: active method count 2 is too small for the v24.1 exception table"
    );
}

#[test]
fn indices_are_permuted() {
    let mut seen = vec![false; 300];
    for value in 0..300 {
        let image = transform_index(value, 300, 0x1234_5678).expect("index") as usize;
        assert!(!seen[image]);
        seen[image] = true;
    }
    assert_eq!(
        transform_index(0, 1, 1).expect_err("one").to_string(),
        "v24.1 method-index restoration failed validation: method-index permutation requires at least two active methods"
    );
    assert!(transform_index(0, u32::MAX, 1).is_err());
}

#[test]
fn permutations_are_complete() {
    assert!(is_complete_permutation(&[Some(1), None, Some(0)]));
    assert!(!is_complete_permutation(&[Some(1), Some(1)]));
    assert!(!is_complete_permutation(&[Some(0), Some(2)]));
}

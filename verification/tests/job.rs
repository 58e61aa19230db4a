use std::path::{Component, Path};

use senbei::digest::sha256_hex;
use senbei::job::driver::{Run, Step, StepResult, Targets};
use senbei::job::metadata::{
    method_index_module, restore_metadata_bytes, restore_metadata_bytes_with_module,
    restores_with_module, seed_plan, token_report, unsupported_version, MetadataError, Restored,
    SeedDiscovery, TokenReport,
};
use senbei::job::naming::{
    default_out_root_for_file, default_out_root_for_folder, embedded_metadata_dest, out_name,
    rel_in_tree,
};
use senbei::job::outcome::{
    classify, library_outcomes, metadata_outcome, needs_write, settle_entry, Embedded, EntryClass,
    EntryKind, EntryOutcome, EntryStatus, PackageRestoreContext, SeenContents,
};
use senbei::job::package::{
    content_identity, direct_targets, entry_dest, entry_file_name, entry_label,
    is_android_entry_name, is_app_package, is_bundle_name, is_elf64_aarch64, is_package_name,
    is_so_name, nested_base, nested_packages, package_entry_priority, EntryName, PackageEntry, PackageTarget,
};
use senbei::job::package_run::{EntryPlace, PackageRun};
use senbei::job::path::{
    extension, file_name, join, parent, strip_prefix, Part, PrefixKind, TreePath,
};
use senbei::job::run::{
    display, needs_dedup, quiet_level, route_file, start_folder, Display, FileRoute,
};
use senbei::job::summary::{event_of, metadata_event, FileEvent, MetadataResult, Summary};
use senbei::job::ui::{err_line, metadata_line, ok_line, shows_progress, suspect_line};
use senbei::metadata::method_indices::MethodIndexError;
use senbei::metadata::structural::{Error as StructuralError, Report};
use senbei::metadata::MAGIC;

// The parts of a path with `/` between its names.
fn tree(text: &str) -> TreePath {
    let parts = Path::new(text)
        .components()
        .map(|component| match component {
            Component::Prefix(_) => panic!("no prefix"),
            Component::RootDir => Part::Root,
            Component::CurDir => Part::Current,
            Component::ParentDir => Part::Parent,
            Component::Normal(name) => Part::Name(name.to_str().expect("text").to_owned()),
        })
        .collect();
    TreePath { parts }
}

// The parts of a path with a drive or without one, and with `\` between its names.
fn drive_path(text: &str) -> TreePath {
    let mut parts = Vec::new();
    let mut rest = text;
    if let Some((drive, behind)) = text.split_once(r":\") {
        parts.push(Part::Prefix(PrefixKind::Drive, drive.to_owned()));
        parts.push(Part::Root);
        rest = behind;
    }
    parts.extend(rest.split('\\').map(|name| Part::Name(name.to_owned())));
    TreePath { parts }
}

// When a file is not under the root, its output takes the bare file name: joining an absolute path
// would replace the output root and write back over the source tree.
#[test]
fn rel_in_tree_falls_back_to_file_name_outside_root() {
    let root = drive_path(r"D:\out-of-tree-root");
    let abs = drive_path(r"C:\game\bin\app.exe");
    let rel = rel_in_tree(&root, &abs);
    assert_eq!(rel, drive_path("app.exe"));

    // And the normal case still preserves the tree structure.
    let under = drive_path(r"D:\out-of-tree-root\bin\app.exe");
    let rel = rel_in_tree(&root, &under);
    assert_eq!(rel, drive_path(r"bin\app.exe"));
}

#[test]
fn paths_follow_the_rules_of_the_platform() {
    let paths = [
        "", ".", "..", "/", "a", "/a", "./a", "a/b", "a//./b/", "a/b/.", "a/..", "../a.b", "/a/b/c.d",
        "c.tar.gz", ".hidden", "c.", "a.b/c", r"a\b.c", "/..", "./.", "a/b.c/",
    ];
    for text in paths {
        let path = Path::new(text);
        let name = path.file_name().map(|name| name.to_str().unwrap().to_owned());
        assert_eq!(file_name(&tree(text)), name, "{text}");
        let ending = path.extension().map(|ending| ending.to_str().unwrap().to_owned());
        assert_eq!(extension(&tree(text)), ending, "{text}");
        let above = path.parent().map(|parent| tree(parent.to_str().unwrap()));
        assert_eq!(parent(&tree(text)), above, "{text}");
        let stem = tree(path.with_extension("").to_str().unwrap());
        assert_eq!(nested_base(&TreePath::new(), &tree(text)), stem, "{text}");
        for other in paths {
            let joined = path.join(other);
            assert_eq!(
                join(&tree(text), &tree(other)),
                tree(joined.to_str().unwrap()),
                "{text} {other}"
            );
            let rest = path.strip_prefix(other).ok();
            assert_eq!(
                strip_prefix(&tree(text), &tree(other)),
                rest.map(|rest| tree(rest.to_str().unwrap())),
                "{text} {other}"
            );
        }
    }
}

#[test]
fn prefixes_are_kept_or_replaced() {
    let prefixed = |kind: PrefixKind, name: &str, rest: &str| {
        let mut parts = vec![Part::Prefix(kind, name.to_owned())];
        parts.extend(tree(rest).parts);
        TreePath { parts }
    };
    let drive = |rest: &str| prefixed(PrefixKind::Drive, "C", rest);
    let verbatim = |rest: &str| prefixed(PrefixKind::VerbatimDrive, "C", rest);
    let other = prefixed(PrefixKind::Drive, "D", "x");
    assert_eq!(join(&drive("/a"), &other), other);
    assert_eq!(join(&drive("/a"), &tree("/b")), drive("/b"));
    assert_eq!(join(&drive(""), &tree("b")), drive("b"));
    assert_eq!(join(&drive(""), &tree("./b")), drive("./b"));
    assert_eq!(join(&drive("/a"), &tree("./../b")), drive("/a/../b"));
    assert_eq!(join(&verbatim("/a"), &tree("./../b/c")), verbatim("/b/c"));
    assert_eq!(join(&verbatim("/"), &tree("../b")), verbatim("/b"));
    assert_eq!(join(&verbatim("/a"), &tree("/b")), verbatim("/b"));
    assert_eq!(parent(&drive("/a")), Some(drive("/")));
    assert_eq!(parent(&drive("")), None);
    assert_eq!(strip_prefix(&drive("/a/b"), &drive("/a")), Some(tree("b")));
    assert_eq!(strip_prefix(&drive("/a/b"), &verbatim("/a")), None);
}

#[test]
fn outputs_keep_their_directories() {
    let named = |input: &str| out_name(&tree(input));
    assert_eq!(named("game.exe"), tree("game.unpack.exe"));
    assert_eq!(named("v1.2/launcher"), tree("v1.2/launcher.unpack"));
    assert_eq!(named("a/b.tar.gz"), tree("a/b.tar.unpack.gz"));
    assert_eq!(named("/x.so"), tree("/x.unpack.so"));
    assert_eq!(named(".config"), tree(".unpack.config"));
    assert_eq!(named(""), tree(".unpack"));
    assert_eq!(named(r"v1\app.exe"), tree(r"v1\app.unpack.exe"));
    assert_eq!(parent(&named("v1.2/launcher")), parent(&tree("v1.2/launcher")));
}

#[test]
fn outputs_go_below_the_output_root() {
    assert_eq!(default_out_root_for_folder(&tree("game")), tree("game/unpack"));
    let beside = |input: &str| default_out_root_for_file(&tree(input));
    assert_eq!(beside("game/app.exe"), tree("game/unpack"));
    assert_eq!(beside("app.exe"), tree("./unpack"));
    assert_eq!(beside("/app.exe"), tree("/unpack"));
    let embedded = |library: &str| embedded_metadata_dest(&tree(library));
    assert_eq!(
        embedded("out/lib/libil2cpp.unpack.so"),
        tree("out/lib/global-metadata.unpack.dat")
    );
    assert_eq!(embedded("libil2cpp.unpack.so"), tree("global-metadata.unpack.dat"));
    let rel = rel_in_tree(&tree("/elsewhere"), &tree("/etc/passwd"));
    assert_eq!(join(&tree("out"), &out_name(&rel)), tree("out/passwd.unpack"));
    assert_eq!(
        rel_in_tree(&tree("/games"), &tree("/games/a/b.so")),
        tree("a/b.so")
    );
}

#[test]
fn names_tell_what_a_file_is() {
    assert!(is_package_name(&tree("x/base.APK")));
    assert!(is_package_name(&tree("base.apks")));
    assert!(is_package_name(&tree("base.xApk")));
    assert!(!is_package_name(&tree("base.zip")));
    assert!(!is_package_name(&tree("apk")));
    assert!(is_bundle_name(&tree("base.apks")));
    assert!(!is_bundle_name(&tree("base.apk")));
    assert!(is_so_name(&tree("lib/a.So")));
    assert!(!is_so_name(&tree("lib/a.so.1")));
    assert!(is_android_entry_name(&tree("assets/Global-Metadata.DAT")));
    assert!(is_android_entry_name(&tree("lib/x.so")));
    assert!(!is_android_entry_name(&tree("classes.dex")));
    assert!(!is_android_entry_name(&tree("global-metadata.dat.bak")));
    assert_eq!(package_entry_priority(&tree("lib/x.so")), 0);
    assert_eq!(package_entry_priority(&tree("global-metadata.dat")), 1);
    assert!(is_app_package(&tree("a.apk"), b"PK\x03\x04rest"));
    assert!(!is_app_package(&tree("a.apk"), b"PK\x03"));
    assert!(!is_app_package(&tree("a.apk"), b"PK\x05\x06rest"));
    assert!(!is_app_package(&tree("a.zip"), b"PK\x03\x04rest"));
}

#[test]
fn contents_have_an_identity() {
    let empty = "e3b0c44298fc1c149afbf4c8996fb92427ae41e4649b934ca495991b7852b855";
    assert_eq!(content_identity(b""), empty);
    assert_eq!(sha256_hex(b""), empty);
    assert_ne!(content_identity(b"a"), content_identity(b"b"));
}

fn entry_name(name: &str) -> EntryName {
    EntryName {
        path: tree(name),
        text: name.to_owned(),
    }
}

fn package_entry(name: &str) -> PackageEntry {
    PackageEntry {
        name: Some(entry_name(name)),
        is_dir: false,
    }
}

fn target(index: usize, name: &str) -> PackageTarget {
    PackageTarget {
        index,
        name: entry_name(name),
    }
}

#[test]
fn libraries_are_restored_before_metadata() {
    let entries = [
        package_entry("assets/global-metadata.dat"),
        package_entry("lib/b.so"),
        PackageEntry {
            name: Some(entry_name("lib/dir.so")),
            is_dir: true,
        },
        package_entry("classes.dex"),
        package_entry("lib/a.so"),
    ];
    assert_eq!(
        direct_targets(&entries),
        Some(vec![
            target(1, "lib/b.so"),
            target(4, "lib/a.so"),
            target(0, "assets/global-metadata.dat"),
        ])
    );
    let bundle = [
        package_entry("b.apk"),
        package_entry("lib/a.so"),
        package_entry("x/a.APK"),
    ];
    assert_eq!(
        nested_packages(&bundle),
        Some(vec![target(0, "b.apk"), target(2, "x/a.APK")])
    );
}

#[test]
fn packages_with_unsafe_entries_are_refused() {
    let nameless = |is_dir: bool| PackageEntry { name: None, is_dir };
    assert_eq!(direct_targets(&[package_entry("a.so"), nameless(false)]), None);
    assert_eq!(nested_packages(&[nameless(false)]), None);
    assert_eq!(direct_targets(&[nameless(true)]), Some(Vec::new()));
}

#[test]
fn entries_have_labels_and_places() {
    assert_eq!(entry_label("base.apk", "lib/a.so"), "base.apk::lib/a.so");
    let dest = |base: &TreePath| entry_dest(&tree("out"), base, &tree("lib/a.so"));
    assert_eq!(dest(&tree("base.apk")), tree("out/base.apk/lib/a.unpack.so"));
    let nested = |rel: &str, name: &str| nested_base(&tree(rel), &tree(name));
    assert_eq!(nested("game.apks", "split/base.apk"), tree("game.apks/split/base"));
    assert_eq!(nested("game.apks", "plain"), tree("game.apks/plain"));
    assert_ne!(
        dest(&nested("g.apks", "one.apk")),
        dest(&nested("g.apks", "two.apk"))
    );
    assert_eq!(
        entry_file_name(r"base.apk::lib\x/a.so", 0x2a),
        "base.apk__lib_x_a.so-0000002a"
    );
}

fn elf_prefix() -> Vec<u8> {
    let mut data = vec![0_u8; 20];
    data[..6].copy_from_slice(b"\x7fELF\x02\x01");
    data[18] = 183;
    data
}

#[test]
fn entries_are_classified_by_content() {
    assert!(is_elf64_aarch64(&elf_prefix()));
    assert_eq!(classify(&elf_prefix(), true), EntryClass::Library);
    assert_eq!(classify(&elf_prefix(), false), EntryClass::Other);
    assert_eq!(classify(&MAGIC.to_le_bytes(), false), EntryClass::Metadata);
    assert_eq!(classify(b"text", true), EntryClass::Other);
}

#[test]
fn the_same_content_is_restored_once() {
    let mut seen = SeenContents::new();
    let settle = |class: EntryClass, identity: &str, seen: &mut SeenContents| {
        settle_entry("label", &tree("dest"), class, identity.to_owned(), seen)
            .map(|outcome| (outcome.kind, outcome.status))
    };
    assert_eq!(
        settle(EntryClass::Other, "a", &mut seen),
        Some((EntryKind::So, EntryStatus::NotTarget))
    );
    assert_eq!(settle(EntryClass::Library, "a", &mut seen), None);
    assert_eq!(
        settle(EntryClass::Library, "a", &mut seen),
        Some((EntryKind::So, EntryStatus::Duplicate))
    );
    assert_eq!(
        settle(EntryClass::Metadata, "a", &mut seen),
        Some((EntryKind::Metadata { remapped: 0 }, EntryStatus::Duplicate))
    );
    assert_eq!(settle(EntryClass::Metadata, "b", &mut seen), None);
    assert!(!seen.insert("b".to_owned()));
    assert!(seen.insert("c".to_owned()));
}

#[test]
fn libraries_may_bring_metadata() {
    let outcome = |label: &str, dest: &str, kind: EntryKind, status: EntryStatus| EntryOutcome {
        label: label.to_owned(),
        dest: tree(dest),
        kind,
        status,
    };
    assert_eq!(
        library_outcomes("l", &tree("d/x.so"), Ok(Embedded::Absent)),
        vec![outcome("l", "d/x.so", EntryKind::So, EntryStatus::Restored)]
    );
    assert_eq!(
        library_outcomes("l", &tree("d/x.so"), Ok(Embedded::Written)),
        vec![
            outcome("l", "d/x.so", EntryKind::So, EntryStatus::Restored),
            outcome(
                "l (embedded metadata)",
                "d/global-metadata.unpack.dat",
                EntryKind::EmbeddedMetadata,
                EntryStatus::Restored
            ),
        ]
    );
    assert_eq!(
        library_outcomes("l", &tree("d/x.so"), Ok(Embedded::Failed("disk full".to_owned())))[1].status,
        EntryStatus::Failed("disk full".to_owned())
    );
    assert_eq!(
        library_outcomes("l", &tree("d/x.so"), Err("no index".to_owned())),
        vec![outcome(
            "l",
            "d/x.so",
            EntryKind::So,
            EntryStatus::Failed("no index".to_owned())
        )]
    );
}

fn restored(remapped: usize) -> Restored {
    Restored {
        data: vec![1, 2, 3],
        report: Report {
            version: 31,
            methods: 5,
            remapped,
            modules: 1,
        },
    }
}

#[test]
fn metadata_is_written_where_it_changed() {
    let changed = Ok(restored(4));
    assert!(needs_write(&changed));
    let outcome = metadata_outcome("l", &tree("d"), &changed, Ok(()));
    assert_eq!(outcome.kind, EntryKind::Metadata { remapped: 4 });
    assert_eq!(outcome.status, EntryStatus::Restored);
    let outcome = metadata_outcome("l", &tree("d"), &changed, Err("disk full".to_owned()));
    assert_eq!(outcome.status, EntryStatus::Failed("disk full".to_owned()));
    let clean = Ok(restored(0));
    assert!(!needs_write(&clean));
    assert_eq!(
        metadata_outcome("l", &tree("d"), &clean, Ok(())).status,
        EntryStatus::Unchanged
    );
    let failed = Err(MetadataError::Tokens(StructuralError::UnsupportedVersion(27)));
    assert!(!needs_write(&failed));
    assert_eq!(
        metadata_outcome("l", &tree("d"), &failed, Ok(())).status,
        EntryStatus::Failed("unsupported metadata version 27".to_owned())
    );
}

#[test]
fn packages_remember_the_module_of_their_library() {
    let mut context = PackageRestoreContext::new(true);
    assert!(context.verbose);
    assert_eq!(context.method_index_module, None);
    context.remember(Some(vec![1]));
    context.remember(None);
    assert_eq!(context.method_index_module, Some(vec![1]));
    context.remember(Some(vec![2]));
    assert_eq!(context.method_index_module, Some(vec![2]));
    assert_eq!(method_index_module(&[5, 0x0c, 0x0c]), Some(1));
    assert_eq!(method_index_module(&[5]), None);
}

#[test]
fn seeds_are_planned() {
    let discovery = |version: u32, seeds: &[u32]| {
        Some(SeedDiscovery {
            version,
            seed_candidates: seeds.to_vec(),
        })
    };
    assert_eq!(seed_plan(discovery(29, &[3, 4]), 9), [3, 4]);
    assert_eq!(seed_plan(discovery(31, &[]), 9), [9]);
    assert_eq!(seed_plan(discovery(39, &[]), 9), [9]);
    assert!(seed_plan(discovery(24, &[3]), 9).is_empty());
    assert!(seed_plan(None, 9).is_empty());
    let report = token_report(&TokenReport {
        version: 29,
        methods: 8,
        changed_tokens: 7,
        images_with_methods: 2,
    });
    assert_eq!(report.version, 29);
    assert_eq!(report.methods, 8);
    assert_eq!(report.remapped, 7);
    assert_eq!(report.modules, 2);
}

fn metadata_header(version: u32) -> Vec<u8> {
    let mut data = vec![0_u8; 0x100];
    data[..4].copy_from_slice(&MAGIC.to_le_bytes());
    data[4..8].copy_from_slice(&version.to_le_bytes());
    data
}

#[test]
fn the_first_seed_that_fits_counts() {
    let data = metadata_header(29);
    let result =
        restore_metadata_bytes(&data, vec![None, Some(restored(4)), Some(restored(9))])
            .expect("seed");
    assert_eq!(result.report.remapped, 4);
    assert_eq!(result.data, [1, 2, 3]);
    let error = restore_metadata_bytes(&data, vec![None]).expect_err("no seed");
    assert_eq!(unsupported_version(&error), Some(29));
    assert_eq!(error.to_string(), "unsupported metadata version 29");
}

#[test]
fn a_module_takes_the_place_of_seeds() {
    let data = metadata_header(24);
    assert!(restores_with_module(&data, Some(&[])));
    assert!(!restores_with_module(&data, None));
    assert!(!restores_with_module(&metadata_header(31), Some(&[])));
    let error = restore_metadata_bytes_with_module(&data, Some(&[]), vec![Some(restored(1))])
        .expect_err("no profile");
    assert!(matches!(error, MetadataError::Indices(_)));
    assert_eq!(unsupported_version(&error), None);
    let error = MetadataError::Indices(MethodIndexError::UnsupportedVersion(9));
    assert_eq!(unsupported_version(&error), None);
    assert_eq!(error.to_string(), "unsupported metadata version 9");
}

#[test]
fn summaries_have_a_line() {
    let mut summary = Summary::default();
    assert_eq!(
        summary.line(),
        "0 unpacked · 0 skipped · 0 errors · 0 suspect · 0 metadata"
    );
    summary.unpacked = 12;
    summary.skipped = 3;
    summary.errors = 1;
    summary.suspect = 2;
    summary.metadata = 40;
    summary.packages = 5;
    assert_eq!(
        summary.line(),
        "12 unpacked · 3 skipped · 1 errors · 2 suspect · 40 metadata · 5 packages"
    );
}

#[test]
fn events_are_counted() {
    let mut summary = start_folder(7, 1, 2);
    assert_eq!(summary.skipped, 7);
    assert_eq!(summary.errors, 3);
    for event in [
        FileEvent::Unpacked { suspect: false },
        FileEvent::Unpacked { suspect: true },
        FileEvent::Skipped,
        FileEvent::Failed,
        FileEvent::MetadataRestored,
        FileEvent::MetadataClean,
        FileEvent::PackageOpened,
    ] {
        assert!(summary.can_count(1));
        summary.record(event);
    }
    assert_eq!(
        summary,
        Summary {
            unpacked: 2,
            skipped: 8,
            errors: 4,
            suspect: 1,
            metadata: 1,
            packages: 1,
            duration_ms: 0,
        }
    );
    summary.errors = usize::MAX;
    assert!(!summary.can_count(1));
}

#[test]
fn every_outcome_of_a_package_counts_once() {
    let outcome = |kind: EntryKind, status: EntryStatus| EntryOutcome {
        label: "l".to_owned(),
        dest: tree("d"),
        kind,
        status,
    };
    let outcomes = [
        outcome(EntryKind::So, EntryStatus::Restored),
        outcome(EntryKind::Metadata { remapped: 3 }, EntryStatus::Restored),
        outcome(EntryKind::EmbeddedMetadata, EntryStatus::Restored),
        outcome(EntryKind::So, EntryStatus::Duplicate),
        outcome(EntryKind::So, EntryStatus::NotTarget),
        outcome(EntryKind::Metadata { remapped: 0 }, EntryStatus::Unchanged),
        outcome(EntryKind::So, EntryStatus::Failed("x".to_owned())),
    ];
    let mut summary = Summary::default();
    assert!(summary.can_count(outcomes.len()));
    summary.apply_package_outcomes(&outcomes);
    assert_eq!(summary.unpacked, 1);
    assert_eq!(summary.metadata, 2);
    assert_eq!(summary.skipped, 3);
    assert_eq!(summary.errors, 1);
    assert_eq!(
        summary.unpacked + summary.metadata + summary.skipped + summary.errors,
        outcomes.len()
    );
    assert_eq!(event_of(&outcomes[3]), FileEvent::Skipped);
}

#[test]
fn unknown_metadata_versions_fail_a_file_but_not_a_folder() {
    let unsupported =
        MetadataResult::Refused(MetadataError::Tokens(StructuralError::UnsupportedVersion(27)));
    assert_eq!(metadata_event(&unsupported, true), FileEvent::Skipped);
    assert_eq!(metadata_event(&unsupported, false), FileEvent::Failed);
    let malformed = MetadataResult::Refused(MetadataError::Tokens(StructuralError::Malformed));
    assert_eq!(metadata_event(&malformed, true), FileEvent::Failed);
    assert_eq!(
        metadata_event(&MetadataResult::Done { remapped: 2 }, true),
        FileEvent::MetadataRestored
    );
    assert_eq!(
        metadata_event(&MetadataResult::Done { remapped: 0 }, true),
        FileEvent::MetadataClean
    );
    assert_eq!(
        metadata_event(&MetadataResult::Unavailable, true),
        FileEvent::Failed
    );
}

#[test]
fn quiet_wins_over_verbose() {
    assert_eq!(
        display(0, true),
        Display {
            suppress_file_lines: false,
            verbose_steps: true,
            hide_bar: true,
            scan_warning: true,
        }
    );
    assert_eq!(
        display(2, true),
        Display {
            suppress_file_lines: true,
            verbose_steps: false,
            hide_bar: true,
            scan_warning: false,
        }
    );
    assert!(!display(0, false).hide_bar);
    assert_eq!(quiet_level(true), 1);
    assert_eq!(quiet_level(false), 0);
    assert!(needs_dedup(2, 0));
    assert!(needs_dedup(0, 1));
    assert!(!needs_dedup(1, 0));
}

#[test]
fn single_files_are_routed_by_content() {
    assert_eq!(
        route_file(&tree("x.bin"), &MAGIC.to_le_bytes(), false),
        FileRoute::Metadata
    );
    assert_eq!(route_file(&tree("x.so"), &elf_prefix(), true), FileRoute::Library);
    assert_eq!(
        route_file(&tree("x.so"), &elf_prefix(), false),
        FileRoute::Executable
    );
    assert_eq!(
        route_file(&tree("x.apk"), b"PK\x03\x04", false),
        FileRoute::Package
    );
    assert_eq!(route_file(&tree("x.exe"), b"MZ", false), FileRoute::Executable);
}

#[test]
fn lines_are_composed() {
    assert_eq!(ok_line("So", "a.so", "out/a.so"), "So  a.so  ->  out/a.so");
    assert_eq!(
        metadata_line("a", "b", 17),
        "metadata  a  ->  b  (17 method fields remapped)"
    );
    assert_eq!(err_line("a", "broken"), "a  broken");
    assert_eq!(
        suspect_line("a", &vec!["x".to_owned(), "y".to_owned()]),
        "a  integrity check failed: x; y"
    );
    assert!(shows_progress(3, false));
    assert!(!shows_progress(0, false));
    assert!(!shows_progress(3, true));
}

fn outcome(label: &str, kind: EntryKind, status: EntryStatus) -> EntryOutcome {
    EntryOutcome {
        label: label.to_owned(),
        dest: TreePath::new(),
        kind,
        status,
    }
}

fn take(run: &mut Run, result: StepResult) {
    assert!(run.can_take(&result));
    run.advance(result);
}

#[test]
fn a_folder_is_handled_file_by_file() {
    let targets = Targets {
        executables: 2,
        libraries: 2,
        packages: 1,
        metadata: 3,
    };
    let mut run = Run::over_folder(targets, 4, 1, 1);
    assert_eq!(run.step(), Step::Unpack(0));
    take(&mut run, StepResult::Unpacked { suspect: true });
    assert_eq!(run.step(), Step::Unpack(1));
    take(&mut run, StepResult::Failed);
    assert_eq!(run.step(), Step::Identify(0));
    take(&mut run, StepResult::Identified(Some("a".to_owned())));
    assert_eq!(run.step(), Step::RestoreLibrary(0));
    take(
        &mut run,
        StepResult::Library {
            embedded: Some(true),
        },
    );
    assert_eq!(run.step(), Step::Identify(1));
    take(&mut run, StepResult::Identified(Some("a".to_owned())));
    assert_eq!(run.step(), Step::RestorePackage(0));
    let mut seen = run.lend_seen();
    assert!(!seen.insert("a".to_owned()));
    assert!(seen.insert("b".to_owned()));
    let outcomes = vec![
        outcome("so", EntryKind::So, EntryStatus::Restored),
        outcome("copy", EntryKind::So, EntryStatus::Duplicate),
    ];
    take(&mut run, StepResult::Package { outcomes, seen });
    assert_eq!(run.step(), Step::RestoreMetadata(0));
    take(
        &mut run,
        StepResult::Metadata(MetadataResult::Done { remapped: 5 }),
    );
    take(
        &mut run,
        StepResult::Metadata(MetadataResult::Done { remapped: 0 }),
    );
    assert_eq!(run.step(), Step::RestoreMetadata(2));
    take(&mut run, StepResult::Metadata(MetadataResult::Unavailable));
    assert_eq!(run.step(), Step::Finish);
    assert_eq!(
        run.finish(9),
        Summary {
            unpacked: 3,
            skipped: 6,
            errors: 4,
            suspect: 1,
            metadata: 2,
            packages: 1,
            duration_ms: 9,
        }
    );
}

#[test]
fn a_failed_file_does_not_end_a_run() {
    let targets = Targets {
        executables: 0,
        libraries: 1,
        packages: 2,
        metadata: 0,
    };
    let mut run = Run::over_folder(targets, 0, 0, 0);
    take(&mut run, StepResult::Identified(None));
    assert_eq!(run.step(), Step::RestoreLibrary(0));
    take(&mut run, StepResult::Failed);
    assert_eq!(run.step(), Step::RestorePackage(0));
    let mut seen = run.lend_seen();
    assert!(seen.insert("a".to_owned()));
    take(&mut run, StepResult::PackageFailed { seen });
    assert_eq!(run.step(), Step::RestorePackage(1));
    let mut seen = run.lend_seen();
    assert!(!seen.insert("a".to_owned()));
    take(&mut run, StepResult::Failed);
    assert_eq!(run.step(), Step::Finish);
    assert!(run.lend_seen().insert("a".to_owned()));
    let summary = run.summary();
    assert_eq!(summary.errors, 3);
    assert_eq!(summary.packages, 2);
    assert_eq!(summary.unpacked, 0);
}

#[test]
fn a_single_file_is_one_step() {
    for (route, step) in [
        (FileRoute::Metadata, Step::RestoreMetadata(0)),
        (FileRoute::Library, Step::RestoreLibrary(0)),
        (FileRoute::Package, Step::RestorePackage(0)),
        (FileRoute::Executable, Step::Unpack(0)),
    ] {
        assert_eq!(Run::over_file(route).step(), step);
    }
    let mut run = Run::over_file(FileRoute::Library);
    assert!(!run.can_take(&StepResult::Unpacked { suspect: false }));
    take(
        &mut run,
        StepResult::Library {
            embedded: Some(false),
        },
    );
    assert_eq!(run.step(), Step::Finish);
    assert_eq!(run.summary().unpacked, 1);
    assert_eq!(run.summary().errors, 1);
    let mut run = Run::over_file(FileRoute::Metadata);
    let refused = MetadataError::Tokens(StructuralError::UnsupportedVersion(99));
    take(
        &mut run,
        StepResult::Metadata(MetadataResult::Refused(refused)),
    );
    assert_eq!(run.summary().errors, 1);
    assert_eq!(run.summary().skipped, 0);
}

#[test]
fn a_package_is_handled_entry_by_entry() {
    let targets = vec![
        target(4, "lib/a.so"),
        target(5, "lib/copy.so"),
        target(6, "lib/plain.so"),
        target(1, "assets/global-metadata.dat"),
        target(2, "other/global-metadata.dat"),
    ];
    let mut seen = SeenContents::new();
    let mut run = PackageRun::new(tree("out"), "base.apk", tree("base.apk"), targets, true);
    assert!(run.verbose());
    assert_eq!(
        run.current(),
        Some(EntryPlace {
            index: 4,
            label: "base.apk::lib/a.so".to_owned(),
            dest: tree("out/base.apk/lib/a.unpack.so"),
        })
    );
    let library = elf_prefix();
    run.begin(&library, true, &mut seen);
    assert_eq!(run.work(), EntryClass::Library);
    assert_eq!(run.module(), None);
    run.library_done(Ok(Embedded::Written), Some(vec![7, 8]));
    assert_eq!(run.work(), EntryClass::Other);
    assert_eq!(run.module(), Some(&[7_u8, 8][..]));

    run.begin(&library, true, &mut seen);
    run.begin(&library, false, &mut seen);
    assert_eq!(run.current().expect("metadata").index, 1);
    let mut metadata = MAGIC.to_le_bytes().to_vec();
    metadata.extend_from_slice(&27_u32.to_le_bytes());
    run.begin(&metadata, false, &mut seen);
    assert_eq!(run.work(), EntryClass::Metadata);
    assert_eq!(run.module(), Some(&[7_u8, 8][..]));
    let report = Report {
        version: 27,
        methods: 9,
        remapped: 3,
        modules: 1,
    };
    let restored = Ok(Restored {
        data: Vec::new(),
        report,
    });
    run.metadata_done(&restored, Err("disk full".to_owned()));
    run.begin(&metadata, false, &mut seen);
    assert_eq!(run.current(), None);

    let found: Vec<(String, EntryKind, EntryStatus)> = run
        .finish()
        .into_iter()
        .map(|outcome| (outcome.label, outcome.kind, outcome.status))
        .collect();
    let wanted = [
        ("base.apk::lib/a.so", EntryKind::So, EntryStatus::Restored),
        (
            "base.apk::lib/a.so (embedded metadata)",
            EntryKind::EmbeddedMetadata,
            EntryStatus::Restored,
        ),
        ("base.apk::lib/copy.so", EntryKind::So, EntryStatus::Duplicate),
        ("base.apk::lib/plain.so", EntryKind::So, EntryStatus::NotTarget),
        (
            "base.apk::assets/global-metadata.dat",
            EntryKind::Metadata { remapped: 3 },
            EntryStatus::Failed("disk full".to_owned()),
        ),
        (
            "base.apk::other/global-metadata.dat",
            EntryKind::Metadata { remapped: 0 },
            EntryStatus::Duplicate,
        ),
    ];
    assert_eq!(found.len(), wanted.len());
    for (found, wanted) in found.into_iter().zip(wanted) {
        assert_eq!(found.0, wanted.0);
        assert_eq!(found.1, wanted.1);
        assert_eq!(found.2, wanted.2);
    }
}

#[test]
fn a_failed_library_brings_no_module() {
    let mut seen = SeenContents::new();
    let targets = vec![target(0, "a.so")];
    let mut run = PackageRun::new(tree("out"), "p.apk", tree("p.apk"), targets, false);
    run.begin(&elf_prefix(), true, &mut seen);
    run.library_done(Err("broken".to_owned()), Some(vec![1]));
    assert_eq!(run.module(), None);
    let outcomes = run.finish();
    assert_eq!(outcomes.len(), 1);
    assert_eq!(outcomes[0].status, EntryStatus::Failed("broken".to_owned()));
}

//! What holds of the handling of packages.

use super::naming;
use super::naming_laws;
use super::package;
use super::package::{PackageEntry, Selection};
use super::path;
use super::path::PartModel;
use vstd::prelude::*;

verus! {

/// The selected entries are in order, and each is an entry that is selected.
proof fn lemma_selected(selection: Selection, entries: Seq<PackageEntry>, n: nat)
    requires
        n <= entries.len(),
    ensures
        ({
            let list = selection.select(entries, n);
            &&& forall|i: int|
                0 <= i < list.len() ==> {
                    let target = #[trigger] list[i];
                    &&& 0 <= target.index < n
                    &&& selection.takes_entry(entries[target.index]@)
                    &&& entries[target.index]@.name == Some(target.name)
                }
            &&& forall|i: int, j: int|
                0 <= i < j < list.len() ==> (#[trigger] list[i]).index < (#[trigger] list[j]).index
            &&& forall|k: int|
                0 <= k < n && selection.takes_entry(#[trigger] entries[k]@) ==> exists|i: int|
                    0 <= i < list.len() && (#[trigger] list[i]).index == k
        }),
    decreases n,
{
    if n > 0 {
        lemma_selected(selection, entries, (n - 1) as nat);
        let before = selection.select(entries, (n - 1) as nat);
        let list = selection.select(entries, n);
        if selection.takes_entry(entries[n - 1]@) {
            assert(list.last().index == n - 1);
            assert forall|k: int|
                0 <= k < n && selection.takes_entry(#[trigger] entries[k]@) implies exists|i: int|
                0 <= i < list.len() && (#[trigger] list[i]).index == k by {
                if k < n - 1 {
                    let i = choose|i: int| 0 <= i < before.len() && (#[trigger] before[i]).index == k;
                    assert(list[i].index == k);
                } else {
                    assert(list[list.len() - 1].index == k);
                }
            }
        }
    }
}

/// Exactly the libraries and the metadata of a package are restored.
pub proof fn law_every_target_is_restored(entries: Seq<PackageEntry>, k: int)
    requires
        !package::any_unsafe(entries),
        0 <= k < entries.len(),
    ensures
        ({
            let list = package::spec_direct_targets(entries)->0;
            let entry = entries[k]@;
            (exists|i: int| 0 <= i < list.len() && (#[trigger] list[i]).index == k) <==> (
            !entry.is_dir && entry.name is Some && package::spec_is_android_entry_name(
                entry.name->0.path,
            ))
        }),
{
    let libraries = Selection::Library.select(entries, entries.len());
    let metadata = Selection::Metadata.select(entries, entries.len());
    let list = package::spec_direct_targets(entries)->0;
    let entry = entries[k]@;
    lemma_selected(Selection::Library, entries, entries.len());
    lemma_selected(Selection::Metadata, entries, entries.len());
    if exists|i: int| 0 <= i < list.len() && (#[trigger] list[i]).index == k {
        let i = choose|i: int| 0 <= i < list.len() && (#[trigger] list[i]).index == k;
        if i < libraries.len() {
            assert(list[i] == libraries[i]);
        } else {
            assert(list[i] == metadata[i - libraries.len()]);
        }
    }
    if Selection::Library.takes_entry(entry) {
        let i = choose|i: int| 0 <= i < libraries.len() && (#[trigger] libraries[i]).index == k;
        assert(list[i] == libraries[i]);
    } else if Selection::Metadata.takes_entry(entry) {
        let i = choose|i: int| 0 <= i < metadata.len() && (#[trigger] metadata[i]).index == k;
        assert(list[libraries.len() + i] == metadata[i]);
    }
}

/// Libraries are restored before metadata, so that metadata can use what a library holds; apart
/// from that, entries keep the order of the archive.
pub proof fn law_libraries_come_first(entries: Seq<PackageEntry>, i: int, j: int)
    requires
        !package::any_unsafe(entries),
        0 <= i < j < (package::spec_direct_targets(entries)->0).len(),
    ensures
        ({
            let list = package::spec_direct_targets(entries)->0;
            let first = package::spec_package_entry_priority(list[i].name.path);
            let second = package::spec_package_entry_priority(list[j].name.path);
            first < second || (first == second && list[i].index < list[j].index)
        }),
{
    let libraries = Selection::Library.select(entries, entries.len());
    let metadata = Selection::Metadata.select(entries, entries.len());
    let list = package::spec_direct_targets(entries)->0;
    lemma_selected(Selection::Library, entries, entries.len());
    lemma_selected(Selection::Metadata, entries, entries.len());
    if i < libraries.len() {
        assert(list[i] == libraries[i]);
    } else {
        assert(list[i] == metadata[i - libraries.len()]);
    }
    if j < libraries.len() {
        assert(list[j] == libraries[j]);
    } else {
        assert(list[j] == metadata[j - libraries.len()]);
    }
}

/// What is handled of a package or a bundle has the name and the place of its entry.
pub proof fn law_targets_are_entries(entries: Seq<PackageEntry>, i: int)
    requires
        !package::any_unsafe(entries),
    ensures
        ({
            let list = package::spec_direct_targets(entries)->0;
            0 <= i < list.len() ==> 0 <= list[i].index < entries.len()
                && entries[list[i].index]@.name == Some(list[i].name)
        }),
        ({
            let list = package::spec_nested_packages(entries)->0;
            0 <= i < list.len() ==> 0 <= list[i].index < entries.len()
                && entries[list[i].index]@.name == Some(list[i].name)
        }),
{
    let libraries = Selection::Library.select(entries, entries.len());
    let metadata = Selection::Metadata.select(entries, entries.len());
    let list = package::spec_direct_targets(entries)->0;
    lemma_selected(Selection::Library, entries, entries.len());
    lemma_selected(Selection::Metadata, entries, entries.len());
    lemma_selected(Selection::Package, entries, entries.len());
    if 0 <= i < libraries.len() {
        assert(list[i] == libraries[i]);
    } else if 0 <= i < list.len() {
        assert(list[i] == metadata[i - libraries.len()]);
    }
}

/// Exactly the files of a bundle with the extension of a package are opened, in the order of the
/// archive.
pub proof fn law_every_package_is_opened(entries: Seq<PackageEntry>, k: int, i: int, j: int)
    requires
        !package::any_unsafe(entries),
        0 <= k < entries.len(),
    ensures
        ({
            let list = package::spec_nested_packages(entries)->0;
            let entry = entries[k]@;
            &&& (exists|i: int| 0 <= i < list.len() && (#[trigger] list[i]).index == k) <==> (
            !entry.is_dir && entry.name is Some && package::has_extension(
                entry.name->0.path,
                "apk"@,
            ))
            &&& 0 <= i < j < list.len() ==> list[i].index < list[j].index
        }),
{
    lemma_selected(Selection::Package, entries, entries.len());
    let list = package::spec_nested_packages(entries)->0;
    let entry = entries[k]@;
    if exists|i: int| 0 <= i < list.len() && (#[trigger] list[i]).index == k {
        let at = choose|i: int| 0 <= i < list.len() && (#[trigger] list[i]).index == k;
        assert(Selection::Package.takes_entry(entries[list[at].index]@));
    }
    if Selection::Package.takes_entry(entry) {
        assert(exists|i: int| 0 <= i < list.len() && (#[trigger] list[i]).index == k);
    }
}

/// The file name of an extracted entry holds neither separators nor colons.
pub proof fn law_entry_file_names_are_flat(label: Seq<char>, index: nat, i: int)
    requires
        0 <= i < package::spec_entry_file_name(label, index).len(),
    ensures
        ({
            let c = package::spec_entry_file_name(label, index)[i];
            c != '/' && c != '\\' && c != ':'
        }),
{
}

/// Two bases behind which the same path leads to the same place are the same.
proof fn lemma_join_tells_base(a: Seq<PartModel>, b: Seq<PartModel>, tail: Seq<PartModel>)
    requires
        naming_laws::is_relative(tail),
        a.len() > 0,
        b.len() > 0,
        a.last() is Name,
        b.last() is Name,
        path::spec_is_verbatim(a) == path::spec_is_verbatim(b),
        path::spec_is_verbatim(a) ==> naming_laws::is_plain(tail),
        path::spec_join(a, tail) == path::spec_join(b, tail),
    ensures
        a == b,
{
    let joined = path::spec_join(a, tail);
    if tail.len() > 0 {
        if path::spec_is_verbatim(a) {
            naming_laws::lemma_resolved_plain(a, tail, tail.len());
            naming_laws::lemma_resolved_plain(b, tail, tail.len());
            assert(joined == a + tail.take(tail.len() as int));
            assert(joined == b + tail.take(tail.len() as int));
        } else {
            assert(a[a.len() - 1] is Name && b[b.len() - 1] is Name);
            assert(!path::starts_afresh(a) && !path::starts_afresh(b));
            let rest = if tail[0] is Current {
                tail.skip(1)
            } else {
                tail
            };
            assert(joined == a + rest);
            assert(joined == b + rest);
        }
        assert(a.len() == b.len());
        assert(joined.take(a.len() as int) =~= a);
        assert(joined.take(b.len() as int) =~= b);
    }
}

/// A relative path that does not start with `.` is added to the base as it is.
proof fn lemma_join_adds(base: Seq<PartModel>, tail: Seq<PartModel>)
    requires
        naming_laws::is_relative(tail),
        tail.len() > 0 ==> !(tail[0] is Current),
        path::spec_is_verbatim(base) ==> naming_laws::is_plain(tail),
    ensures
        path::spec_join(base, tail) == base + tail,
{
    if tail.len() == 0 {
        assert(base + tail =~= base);
    } else if path::spec_is_verbatim(base) {
        naming_laws::lemma_resolved_plain(base, tail, tail.len());
        assert(tail.take(tail.len() as int) =~= tail);
    }
}

/// Entries of the same name in two packages of a bundle go to different places, as long as no
/// package's place in the bundle starts with `.` and, where the output root is verbatim, no name
/// leads upwards or stands still.
pub proof fn law_nested_outputs_do_not_collide(
    out_root: Seq<PartModel>,
    rel: Seq<PartModel>,
    first: Seq<PartModel>,
    second: Seq<PartModel>,
    entry: Seq<PartModel>,
)
    requires
        package::has_extension(first, "apk"@),
        package::has_extension(second, "apk"@),
        package::without_extension(first) != package::without_extension(second),
        naming_laws::is_relative(first),
        naming_laws::is_relative(second),
        naming_laws::is_relative(rel),
        naming_laws::is_relative(entry),
        !(first[0] is Current),
        !(second[0] is Current),
        path::spec_is_verbatim(out_root) ==> {
            &&& naming_laws::is_plain(rel)
            &&& naming_laws::is_plain(first)
            &&& naming_laws::is_plain(second)
            &&& naming_laws::is_plain(entry)
        },
    ensures
        package::spec_entry_dest(
            out_root,
            path::spec_join(rel, package::without_extension(first)),
            entry,
        ) != package::spec_entry_dest(
            out_root,
            path::spec_join(rel, package::without_extension(second)),
            entry,
        ),
{
    let a = package::without_extension(first);
    let b = package::without_extension(second);
    lemma_without_extension(first);
    lemma_without_extension(second);
    lemma_join_adds(rel, a);
    lemma_join_adds(rel, b);
    let rel_a = path::spec_join(rel, a);
    let rel_b = path::spec_join(rel, b);
    lemma_base(out_root, rel, a);
    lemma_base(out_root, rel, b);
    let base_a = path::spec_join(out_root, rel_a);
    let base_b = path::spec_join(out_root, rel_b);
    naming_laws::lemma_out_name(entry);
    let name = naming::spec_out_name(entry);
    if path::spec_is_verbatim(out_root) {
        assert forall|i: int| 0 <= i < name.len() implies #[trigger] naming_laws::is_plain_at(
            name,
            i,
        ) by {
            if i < name.len() - 1 {
                assert(naming_laws::is_plain_at(entry, i));
            }
        }
    }
    if path::spec_join(base_a, name) == path::spec_join(base_b, name) {
        lemma_join_tells_base(base_a, base_b, name);
        let start = base_a.len() - a.len();
        let other = base_b.len() - b.len();
        assert(base_a.skip(start) =~= a);
        assert(base_b.skip(other) =~= b);
        assert(start == other);
    }
}

/// The place of a package in a bundle lies behind the output root and the bundle's own place, and
/// ends in the package's place.
proof fn lemma_base(out_root: Seq<PartModel>, rel: Seq<PartModel>, place: Seq<PartModel>)
    requires
        naming_laws::is_relative(rel),
        naming_laws::is_relative(place),
        place.len() > 0,
        place.last() is Name,
        !(place[0] is Current),
        path::spec_is_verbatim(out_root) ==> naming_laws::is_plain(rel) && naming_laws::is_plain(
            place,
        ),
    ensures
        ({
            let base = path::spec_join(out_root, rel + place);
            let dropped = if rel.len() > 0 && rel[0] is Current && !path::starts_afresh(out_root) {
                1int
            } else {
                0
            };
            &&& base == out_root + rel.skip(dropped) + place
            &&& base.last() is Name
            &&& path::spec_is_verbatim(base) == path::spec_is_verbatim(out_root)
        }),
{
    let path = rel + place;
    let base = path::spec_join(out_root, path);
    if path::spec_is_verbatim(out_root) {
        assert forall|i: int| 0 <= i < path.len() implies #[trigger] naming_laws::is_plain_at(
            path,
            i,
        ) by {
            if i < rel.len() {
                assert(naming_laws::is_plain_at(rel, i));
            } else {
                assert(naming_laws::is_plain_at(place, i - rel.len()));
            }
        }
        naming_laws::lemma_resolved_plain(out_root, path, path.len());
        if rel.len() > 0 {
            assert(naming_laws::is_plain_at(rel, 0));
        }
        assert(rel.skip(0) =~= rel);
        assert(base =~= out_root + rel.skip(0) + place);
    } else if rel.len() > 0 && rel[0] is Current && !path::starts_afresh(out_root) {
        assert(base =~= out_root + rel.skip(1) + place);
    } else {
        assert(base =~= out_root + rel.skip(0) + place);
    }
}

/// A path without its extension has as many parts, and still ends in a name.
proof fn lemma_without_extension(path: Seq<PartModel>)
    requires
        path::spec_extension(path) is Some,
        naming_laws::is_relative(path),
        !(path[0] is Current),
    ensures
        ({
            let found = package::without_extension(path);
            &&& found.len() == path.len() > 0
            &&& naming_laws::is_relative(found)
            &&& !(found[0] is Current)
            &&& found.last() is Name
            &&& naming_laws::is_plain(path) ==> naming_laws::is_plain(found)
        }),
{
    let found = package::without_extension(path);
    if naming_laws::is_plain(path) {
        assert forall|i: int| 0 <= i < found.len() implies #[trigger] naming_laws::is_plain_at(
            found,
            i,
        ) by {
            if i < found.len() - 1 {
                assert(naming_laws::is_plain_at(path, i));
            }
        }
    }
}

} // verus!

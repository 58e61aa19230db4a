//! How names and paths are taken apart and put together, and what names tell of a file.

use super::naming;
use super::naming_laws;
use super::package;
use super::package::{PackageEntry, Selection};
use super::path;
use super::path::PartModel;
use crate::text;
use crate::text_laws;
use vstd::prelude::*;

verus! {

/// A text has no dot.
pub open spec fn has_no_dot(name: Seq<char>) -> bool {
    forall|i: int| 0 <= i < name.len() ==> #[trigger] name[i] != '.'
}

/// The last place of a character.
proof fn lemma_last(text: Seq<char>, c: char, n: nat)
    requires
        n <= text.len(),
    ensures
        match path::last_position(text, c, n) {
            Some(at) => {
                &&& 0 <= at < n
                &&& text[at] == c
                &&& forall|k: int| at < k < n ==> #[trigger] text[k] != c
            },
            None => forall|k: int| 0 <= k < n ==> #[trigger] text[k] != c,
        },
    decreases n,
{
    if n > 0 {
        lemma_last(text, c, (n - 1) as nat);
    }
}

/// The last dot of a name stands in front of what has no dot.
proof fn lemma_last_dot(front: Seq<char>, back: Seq<char>)
    requires
        has_no_dot(back),
    ensures
        ({
            let name = front + seq!['.'] + back;
            path::last_position(name, '.', name.len()) == Some(front.len() as int)
        }),
{
    let name = front + seq!['.'] + back;
    lemma_last(name, '.', name.len());
    assert(name[front.len() as int] == '.');
    assert forall|k: int| front.len() < k < name.len() implies #[trigger] name[k] != '.' by {
        assert(name[k] == back[k - front.len() - 1]);
    }
}

/// A name without a dot has no last dot.
proof fn lemma_no_dot(name: Seq<char>)
    requires
        has_no_dot(name),
    ensures
        path::last_position(name, '.', name.len()) is None,
{
    lemma_last(name, '.', name.len());
}

/// The extension of a name is what follows its last dot, and the stem is what comes in front of it.
/// A name that starts with its last dot, or that has none, has no extension and is its own stem.
pub proof fn law_extensions(front: Seq<char>, back: Seq<char>)
    requires
        has_no_dot(back),
    ensures
        ({
            let name = front + seq!['.'] + back;
            &&& front.len() > 0 ==> path::extension_of(name) == Some(back) && package::stem(name)
                == front
            &&& front.len() == 0 ==> path::extension_of(name) is None && package::stem(name) == name
            &&& path::extension_of(back) is None
            &&& package::stem(back) == back
        }),
{
    let name = front + seq!['.'] + back;
    lemma_last_dot(front, back);
    lemma_no_dot(back);
    assert(name.skip(front.len() as int + 1) =~= back);
    assert(name.take(front.len() as int) =~= front);
}

/// An output has `.unpack` in front of the last dot of its input's name, or at its end.
pub proof fn law_output_names(front: Seq<char>, back: Seq<char>)
    requires
        has_no_dot(back),
    ensures
        naming::renamed(front + seq!['.'] + back) == front + seq![
            '.',
            'u',
            'n',
            'p',
            'a',
            'c',
            'k',
            '.',
        ] + back,
        naming::renamed(back) == back + seq!['.', 'u', 'n', 'p', 'a', 'c', 'k'],
{
    let name = front + seq!['.'] + back;
    lemma_last_dot(front, back);
    lemma_no_dot(back);
    reveal_strlit(".unpack");
    assert(".unpack"@ =~= seq!['.', 'u', 'n', 'p', 'a', 'c', 'k']);
    assert(naming::renamed(name) =~= front + seq!['.', 'u', 'n', 'p', 'a', 'c', 'k', '.'] + back);
}

/// A path that ends in a name has it as its file name, and any other has none. The path above is
/// the path without its last part, unless that is a root or a prefix.
pub proof fn law_ends_of_paths(path: Seq<PartModel>, part: PartModel, name: Seq<char>)
    ensures
        path::spec_file_name(path.push(part)) == Some(name) <==> part == PartModel::Name(name),
        path::spec_file_name(Seq::empty()) is None,
        path::spec_parent(path.push(part)) is Some <==> !(part is Root) && !(part is Prefix),
        path::spec_parent(path.push(part)) is Some ==> path::spec_parent(path.push(part))->0 == path,
        path::spec_parent(Seq::empty()) is None,
{
    assert(path.push(part).drop_last() =~= path);
}

/// What comes after a base completes it, and only a path that starts with the base has it.
pub proof fn law_rest_of_paths(base: Seq<PartModel>, rest: Seq<PartModel>, other: Seq<PartModel>)
    ensures
        path::spec_strip_prefix(base + rest, base) == Some(rest),
        path::spec_strip_prefix(other, base) matches Some(found) ==> other == base + found,
{
    assert((base + rest).skip(base.len() as int) =~= rest);
    assert((base + rest).subrange(0, base.len() as int) =~= base);
    if base.is_prefix_of(other) {
        assert(other =~= base + other.skip(base.len() as int));
    }
}

/// Behind a base whose prefix is not verbatim, a path with a prefix stands for itself, one with a
/// root keeps the base's prefix, and any other is added, without a `.` at its start unless nothing
/// but a prefix comes in front of it.
pub proof fn law_joined_paths(base: Seq<PartModel>, path: Seq<PartModel>)
    requires
        path.len() > 0,
        base.len() > 0 ==> !(base[0] matches PartModel::Prefix(kind, _) && kind.spec_is_verbatim()),
    ensures
        ({
            let joined = path::spec_join(base, path);
            let bare = base.len() == 0 || base.len() == 1 && base[0] is Prefix;
            &&& path[0] is Prefix ==> joined == path
            &&& path[0] is Root && base.len() > 0 && base[0] is Prefix ==> joined == seq![base[0]]
                + path
            &&& path[0] is Root && (base.len() == 0 || !(base[0] is Prefix)) ==> joined == path
            &&& path[0] is Name || path[0] is Parent ==> joined == base + path
            &&& path[0] is Current && bare ==> joined == base + path
            &&& path[0] is Current && !bare ==> joined == base + path.subrange(1, path.len() as int)
            &&& path::spec_join(base, Seq::empty()) == base
        }),
{
    if path[0] is Root {
        if base.len() > 0 && base[0] is Prefix {
            assert(base.take(1) =~= seq![base[0]]);
        } else {
            assert(Seq::<PartModel>::empty() + path =~= path);
        }
    }
    assert(path.skip(1) =~= path.subrange(1, path.len() as int));
}

/// Adding parts one by one looks at those parts alone.
proof fn lemma_resolved_alike(
    base: Seq<PartModel>,
    a: Seq<PartModel>,
    b: Seq<PartModel>,
    n: nat,
)
    requires
        n <= a.len(),
        n <= b.len(),
        forall|i: int| 0 <= i < n ==> a[i] == #[trigger] b[i],
    ensures
        path::resolved(base, a, n) == path::resolved(base, b, n),
    decreases n,
{
    if n > 0 {
        lemma_resolved_alike(base, a, b, (n - 1) as nat);
        assert(a[n - 1] == b[n - 1]);
    }
}

/// Behind a verbatim prefix, a further name is added, a further `.` changes nothing, and a further
/// `..` takes the name away that was added last.
pub proof fn law_verbatim_paths(base: Seq<PartModel>, path: Seq<PartModel>, name: Seq<char>)
    requires
        base.len() > 0,
        base[0] matches PartModel::Prefix(kind, _) && kind.spec_is_verbatim(),
        path.len() > 0,
        !(path[0] is Prefix),
    ensures
        ({
            let joined = path::spec_join(base, path);
            let named = path.push(PartModel::Name(name));
            &&& path::spec_join(base, named) == joined.push(PartModel::Name(name))
            &&& path::spec_join(base, path.push(PartModel::Current)) == joined
            &&& path::spec_join(base, named.push(PartModel::Parent)) == joined
        }),
{
    let start = if path[0] is Root {
        path::prefix_of(base)
    } else {
        base
    };
    let named = path.push(PartModel::Name(name));
    let dotted = path.push(PartModel::Current);
    let back = named.push(PartModel::Parent);
    lemma_resolved_alike(start, named, path, path.len());
    lemma_resolved_alike(start, dotted, path, path.len());
    lemma_resolved_alike(start, back, named, named.len());
    let joined = path::resolved(start, path, path.len());
    assert(path::resolved(start, named, named.len()) == joined.push(PartModel::Name(name)));
    assert(joined.push(PartModel::Name(name)).drop_last() =~= joined);
    assert(path::resolved(start, back, back.len()) =~= joined);
}

/// Verbatim prefixes are those of the three verbatim kinds.
pub proof fn law_verbatim_kinds(kind: path::PrefixKind)
    ensures
        kind.spec_is_verbatim() <==> !(kind is Device) && !(kind is Share) && !(kind is Drive),
{
}

/// A file that does not lie below a root has its name alone as its place.
pub proof fn law_places_outside_the_root(root: Seq<PartModel>, path: Seq<PartModel>)
    requires
        !root.is_prefix_of(path),
    ensures
        path.len() > 0 && path.last() is Name ==> naming::spec_rel_in_tree(root, path) == seq![
            path.last(),
        ],
        path.len() == 0 || !(path.last() is Name) ==> naming::spec_rel_in_tree(root, path).len()
            == 0,
{
}

/// Outputs go to `unpack` within a folder, or beside a file: within the folder that the path names,
/// or the current one.
pub proof fn law_output_roots(folder: Seq<PartModel>, name: Seq<char>)
    ensures
        ({
            let unpack = PartModel::Name(seq!['u', 'n', 'p', 'a', 'c', 'k']);
            let file = folder.push(PartModel::Name(name));
            &&& naming::unpack_within(folder) == folder.push(unpack)
            &&& folder.len() > 0 ==> naming::directory_of(file) == folder
            &&& folder.len() == 0 ==> naming::directory_of(file) == seq![PartModel::Current]
        }),
{
    reveal_strlit("unpack");
    assert("unpack"@ =~= seq!['u', 'n', 'p', 'a', 'c', 'k']);
    naming_laws::lemma_join_name(folder, "unpack"@);
    assert(folder.push(PartModel::Name(name)).drop_last() =~= folder);
}

/// The name of metadata, and of its output.
pub open spec fn metadata_name(unpacked: bool) -> Seq<char> {
    seq!['g', 'l', 'o', 'b', 'a', 'l', '-', 'm', 'e', 't', 'a', 'd', 'a', 't', 'a'] + (if unpacked {
        seq!['.', 'u', 'n', 'p', 'a', 'c', 'k']
    } else {
        Seq::empty()
    }) + seq!['.', 'd', 'a', 't']
}

/// The usual name of metadata.
proof fn lemma_metadata_name()
    ensures
        naming::METADATA_FILE_NAME@ == metadata_name(false),
        naming::renamed(metadata_name(false)) == metadata_name(true),
{
    reveal_strlit("global-metadata.dat");
    let front = seq!['g', 'l', 'o', 'b', 'a', 'l', '-', 'm', 'e', 't', 'a', 'd', 'a', 't', 'a'];
    let back = seq!['d', 'a', 't'];
    assert(naming::METADATA_FILE_NAME@ =~= metadata_name(false));
    assert(metadata_name(false) =~= front + seq!['.'] + back);
    law_output_names(front, back);
    assert(metadata_name(true) =~= front + seq!['.', 'u', 'n', 'p', 'a', 'c', 'k', '.'] + back);
}

/// Metadata from within a library goes beside the library, under the name of restored metadata.
pub proof fn law_embedded_metadata_place(folder: Seq<PartModel>, name: Seq<char>)
    ensures
        naming::spec_embedded_metadata_dest(folder.push(PartModel::Name(name))) == folder.push(
            PartModel::Name(metadata_name(true)),
        ),
{
    lemma_metadata_name();
    let single = seq![PartModel::Name(metadata_name(false))];
    naming_laws::lemma_out_name(single);
    assert(single.drop_last() =~= Seq::empty());
    assert(naming::spec_out_name(single) =~= seq![PartModel::Name(metadata_name(true))]);
    naming_laws::lemma_join_name(folder, metadata_name(true));
    assert(folder.push(PartModel::Name(name)).drop_last() =~= folder);
}

/// The number of a character with capital letters made small.
pub open spec fn small(c: char) -> int {
    if 65 <= c as int <= 90 {
        c as int + 32
    } else {
        c as int
    }
}

/// Characters are the same but for their case exactly when they are once capitals are made small.
proof fn lemma_case(a: char, b: char)
    ensures
        package::same_letter(a, b) <==> small(a) == small(b),
{
    assert('A' as int == 65 && 'Z' as int == 90);
    assert(package::is_capital(a) <==> 65 <= a as int <= 90);
    assert(package::is_capital(b) <==> 65 <= b as int <= 90);
    assert(a as u32 as int == a as int);
    assert(b as u32 as int == b as int);
    assert(a as int == b as int ==> a == b);
}

/// Texts are the same but for the case of letters exactly when they are the same once all capital
/// letters are made small.
pub proof fn law_case_of_letters(a: Seq<char>, b: Seq<char>)
    ensures
        package::same_letters(a, b) <==> a.len() == b.len() && forall|i: int|
            0 <= i < a.len() ==> small(#[trigger] a[i]) == small(b[i]),
{
    assert forall|i: int| 0 <= i < a.len() && a.len() == b.len() implies (package::same_letter(
        #[trigger] a[i],
        b[i],
    ) <==> small(a[i]) == small(b[i])) by {
        lemma_case(a[i], b[i]);
    }
}

/// The file name has an extension that is the same as the wanted one but for the case of letters.
pub open spec fn ends_in(path: Seq<PartModel>, wanted: Seq<char>) -> bool {
    path::spec_extension(path) is Some && package::same_letters(path::spec_extension(path)->0, wanted)
}

/// Packages are called `.apk`, `.apks` or `.xapk`, bundles `.apks` or `.xapk`, libraries `.so`.
/// Entries that matter are libraries and metadata. An archive starts with 80, 75, 3 and 4.
pub proof fn law_names_tell_kinds(path: Seq<PartModel>, prefix: Seq<u8>)
    ensures
        package::spec_is_bundle_name(path) <==> ends_in(path, seq!['a', 'p', 'k', 's']) || ends_in(
            path,
            seq!['x', 'a', 'p', 'k'],
        ),
        package::spec_is_package_name(path) <==> package::spec_is_bundle_name(path) || ends_in(
            path,
            seq!['a', 'p', 'k'],
        ),
        package::spec_is_so_name(path) <==> ends_in(path, seq!['s', 'o']),
        package::spec_is_android_entry_name(path) <==> package::spec_is_so_name(path) || (
        path::spec_file_name(path) is Some && package::same_letters(
            path::spec_file_name(path)->0,
            metadata_name(false),
        )),
        package::spec_is_zip_prefix(prefix) <==> prefix.len() >= 4 && prefix[0] == 80 && prefix[1]
            == 75 && prefix[2] == 3 && prefix[3] == 4,
        package::spec_package_entry_priority(path) == if ends_in(path, seq!['s', 'o']) {
            0u8
        } else {
            1
        },
        Selection::Library.takes(path) <==> ends_in(path, seq!['s', 'o']),
        Selection::Metadata.takes(path) <==> package::spec_is_android_entry_name(path)
            && !package::spec_is_so_name(path),
        Selection::Package.takes(path) <==> ends_in(path, seq!['a', 'p', 'k']),
{
    reveal_strlit("apk");
    reveal_strlit("apks");
    reveal_strlit("xapk");
    reveal_strlit("so");
    lemma_metadata_name();
    assert("apk"@ =~= seq!['a', 'p', 'k']);
    assert("apks"@ =~= seq!['a', 'p', 'k', 's']);
    assert("xapk"@ =~= seq!['x', 'a', 'p', 'k']);
    assert("so"@ =~= seq!['s', 'o']);
    let magic = seq![0x50u8, 0x4b, 0x03, 0x04];
    if prefix.len() >= 4 {
        let start = prefix.subrange(0, 4);
        assert(start[0] == prefix[0] && start[1] == prefix[1] && start[2] == prefix[2] && start[3]
            == prefix[3]);
        if prefix[0] == 80 && prefix[1] == 75 && prefix[2] == 3 && prefix[3] == 4 {
            assert(start =~= magic);
        }
        if magic.is_prefix_of(prefix) {
            assert(start == magic);
        }
    }
}

/// Nothing of a package is selected exactly when some file's path would leave it.
pub proof fn law_unsafe_packages(entries: Seq<PackageEntry>)
    ensures
        ({
            let leaves = exists|k: int|
                0 <= k < entries.len() && !(#[trigger] entries[k])@.is_dir && entries[k]@.name is None;
            &&& package::spec_direct_targets(entries) is None <==> leaves
            &&& package::spec_nested_packages(entries) is None <==> leaves
        }),
{
    if package::any_unsafe(entries) {
        let k = choose|k: int|
            0 <= k < entries.len() && package::is_unsafe(#[trigger] entries[k]@);
        assert(!entries[k]@.is_dir && entries[k]@.name is None);
    } else {
        assert forall|k: int| 0 <= k < entries.len() implies !(!(#[trigger] entries[k])@.is_dir
            && entries[k]@.name is None) by {
            assert(!package::is_unsafe(entries[k]@));
        }
    }
}

/// The label of an entry has two colons between the package and the entry's name.
pub proof fn law_entry_labels(package: Seq<char>, name: Seq<char>)
    ensures
        package::spec_entry_label(package, name) == package + seq![':', ':'] + name,
{
    reveal_strlit("::");
    assert("::"@ =~= seq![':', ':']);
}

/// The file name of an extracted entry is its label with `_` for separators and colons, a dash, and
/// the entry's number in hexadecimal with at least eight digits.
pub proof fn law_extracted_names(label: Seq<char>, index: nat, i: int)
    requires
        0 <= i < label.len(),
    ensures
        ({
            let name = package::spec_entry_file_name(label, index);
            let size = label.len() as int;
            &&& name[i] == if label[i] == '/' || label[i] == '\\' || label[i] == ':' {
                '_'
            } else {
                label[i]
            }
            &&& name.subrange(size, name.len() as int) == seq!['-'] + text::zero_padded(
                text::lower_hex(index),
                8,
            )
        }),
{
    reveal_strlit("-");
    assert("-"@ =~= seq!['-']);
    let name = package::spec_entry_file_name(label, index);
    let digits = text::lower_hex(index);
    let shown = text::zero_padded(digits, 8);
    text_laws::law_lower_hex(index);
    let front = shown.len() - digits.len();
    assert forall|j: int| 0 <= j < shown.len() implies package::flat(#[trigger] shown[j])
        == shown[j] by {
        text_laws::law_padding(digits, 8, j);
        if j >= front {
            assert(shown[j] == digits[j - front]);
            assert(text_laws::is_lower_hex(digits[j - front]));
        }
    }
    let size = label.len() as int;
    assert(name.subrange(size, name.len() as int) =~= seq!['-'] + shown) by {
        let key = package::entry_key(label, index);
        assert(key[size] == '-');
        assert forall|j: int| 0 <= j < shown.len() implies name[size + 1 + j] == shown[j] by {
            assert(key[size + 1 + j] == shown[j]);
            assert(package::flat(shown[j]) == shown[j]);
        }
    }
}

} // verus!

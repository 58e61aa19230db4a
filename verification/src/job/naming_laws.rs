//! What holds of the places where outputs go.

use super::naming;
use super::path;
use super::path::PartModel;
use vstd::prelude::*;

verus! {

/// A prefix stands only at the start, and a root only there or behind a prefix.
pub open spec fn is_well_formed(path: Seq<PartModel>) -> bool {
    &&& forall|i: int| 0 < i < path.len() ==> !(#[trigger] path[i] is Prefix)
    &&& forall|i: int|
        0 < i < path.len() ==> !(#[trigger] path[i] is Root) || (i == 1 && path[0] is Prefix)
}

/// The path has neither a prefix nor a root.
pub open spec fn is_relative(path: Seq<PartModel>) -> bool {
    path.len() > 0 ==> !(path[0] is Prefix) && !(path[0] is Root)
}

/// Part `i` is neither `.` nor `..`.
pub open spec fn is_plain_at(path: Seq<PartModel>, i: int) -> bool {
    !(path[i] is Current) && !(path[i] is Parent)
}

/// No part is `.` or `..`.
pub open spec fn is_plain(path: Seq<PartModel>) -> bool {
    forall|i: int| 0 <= i < path.len() ==> #[trigger] is_plain_at(path, i)
}

/// Resolving parts of which none is `..` only adds to the path.
pub(crate) proof fn lemma_resolved_grows(base: Seq<PartModel>, path: Seq<PartModel>, n: nat)
    requires
        n <= path.len(),
        forall|i: int| 0 <= i < path.len() ==> !(#[trigger] path[i] is Parent),
    ensures
        base.is_prefix_of(path::resolved(base, path, n)),
    decreases n,
{
    if n == 0 {
        assert(base.is_prefix_of(base));
    } else {
        lemma_resolved_grows(base, path, (n - 1) as nat);
        let before = path::resolved(base, path, (n - 1) as nat);
        let after = path::resolved(base, path, n);
        assert(before.take(base.len() as int) =~= base);
        assert(after.take(base.len() as int) =~= base);
    }
}

/// Resolving plain parts adds all of them.
pub(crate) proof fn lemma_resolved_plain(base: Seq<PartModel>, path: Seq<PartModel>, n: nat)
    requires
        n <= path.len(),
        is_plain(path),
    ensures
        path::resolved(base, path, n) == base + path.take(n as int),
    decreases n,
{
    if n == 0 {
        assert(base + path.take(0) =~= base);
    } else {
        lemma_resolved_plain(base, path, (n - 1) as nat);
        assert(is_plain_at(path, n - 1));
        assert(base + path.take(n as int) =~= (base + path.take(n - 1)).push(path[n - 1]));
    }
}

/// Joining a single name adds it.
pub(crate) proof fn lemma_join_name(base: Seq<PartModel>, name: Seq<char>)
    ensures
        path::spec_join(base, seq![PartModel::Name(name)]) == base.push(PartModel::Name(name)),
{
    let part = seq![PartModel::Name(name)];
    reveal_with_fuel(path::resolved, 2);
    assert(base + part =~= base.push(PartModel::Name(name)));
}

/// The output has the parts of the input's directory and a name.
pub(crate) proof fn lemma_out_name(input: Seq<PartModel>)
    ensures
        naming::spec_out_name(input) == (match path::spec_parent(input) {
            Some(directory) => directory,
            None => Seq::empty(),
        }).push(PartModel::Name(naming::renamed(naming::name_or_empty(input)))),
{
    let name = naming::renamed(naming::name_or_empty(input));
    let single = seq![PartModel::Name(name)];
    assert(Seq::empty().push(PartModel::Name(name)) =~= single);
    if let Some(directory) = path::spec_parent(input) {
        lemma_join_name(directory, name);
        if directory.len() == 0 {
            assert(directory.push(PartModel::Name(name)) =~= single);
        }
    }
}

/// The output of a file keeps the file's directory, and its name is the file's name with `.unpack`
/// inserted: a dot in the name of a directory is no place for it.
pub proof fn law_out_name_keeps_directory(input: Seq<PartModel>)
    requires
        path::spec_file_name(input) is Some,
    ensures
        path::spec_parent(naming::spec_out_name(input)) == path::spec_parent(input),
        path::spec_file_name(naming::spec_out_name(input)) == Some(
            naming::renamed(path::spec_file_name(input)->0),
        ),
{
    lemma_out_name(input);
    let output = naming::spec_out_name(input);
    assert(output.drop_last() =~= input.drop_last());
}

/// Whatever file a run finds, its output lies below the output root: the root is never replaced by
/// the file's own place. The root of the search has to be more than a bare prefix, and the file's
/// place below it must not lead upwards where the output root is verbatim.
pub proof fn law_outputs_stay_below_the_root(
    out_root: Seq<PartModel>,
    root: Seq<PartModel>,
    file: Seq<PartModel>,
)
    requires
        is_well_formed(file),
        root.len() > 0,
        !(root.len() == 1 && root[0] is Prefix),
        path::spec_is_verbatim(out_root) ==> forall|i: int|
            root.len() <= i < file.len() ==> !(#[trigger] file[i] is Parent),
    ensures
        out_root.is_prefix_of(
            path::spec_join(out_root, naming::spec_out_name(naming::spec_rel_in_tree(root, file))),
        ),
{
    let rel = naming::spec_rel_in_tree(root, file);
    let output = naming::spec_out_name(rel);
    lemma_out_name(rel);
    assert forall|i: int| 0 <= i < rel.len() implies !(#[trigger] rel[i] is Prefix) && !(
    rel[i] is Root) by {
        if root.is_prefix_of(file) {
            assert(rel[i] == file[root.len() + i]);
            assert(root[0] == file.subrange(0, root.len() as int)[0]);
        }
    }
    let joined = path::spec_join(out_root, output);
    if path::spec_is_verbatim(out_root) {
        assert forall|i: int| 0 <= i < output.len() implies !(#[trigger] output[i] is Parent) by {
            if i < output.len() - 1 {
                assert(output[i] == rel[i]);
                if root.is_prefix_of(file) {
                    assert(rel[i] == file[root.len() + i]);
                }
            }
        }
        lemma_resolved_grows(out_root, output, output.len());
    } else {
        assert(joined.take(out_root.len() as int) =~= out_root);
    }
}

/// A file below a root has the root's parts and then those of its place relative to the root.
pub proof fn law_relative_place_completes_the_root(root: Seq<PartModel>, file: Seq<PartModel>)
    requires
        root.is_prefix_of(file),
    ensures
        file == root + naming::spec_rel_in_tree(root, file),
{
    assert(file =~= file.take(root.len() as int) + file.skip(root.len() as int));
}

} // verus!

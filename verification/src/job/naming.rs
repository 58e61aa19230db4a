//! Where outputs go.

use super::path;
use super::path::{
    characters, file_name, find_last, join, parent, strip_prefix, text_of, PartModel, TreePath,
};
use vstd::prelude::*;
use vstd::string::*;

verus! {

/// The file name of IL2CPP metadata.
pub const METADATA_FILE_NAME: &'static str = "global-metadata.dat";

/// The name of an output: `.unpack` goes before the last dot, or to the end.
pub open spec fn renamed(name: Seq<char>) -> Seq<char> {
    match path::last_position(name, '.', name.len()) {
        Some(dot) => name.take(dot) + ".unpack"@ + name.skip(dot),
        None => name + ".unpack"@,
    }
}

/// The file name of a path, or nothing.
pub open spec fn name_or_empty(path: Seq<PartModel>) -> Seq<char> {
    match path::spec_file_name(path) {
        Some(name) => name,
        None => Seq::empty(),
    }
}

/// The output that belongs to an input.
pub open spec fn spec_out_name(input: Seq<PartModel>) -> Seq<PartModel> {
    let name = seq![PartModel::Name(renamed(name_or_empty(input)))];
    match path::spec_parent(input) {
        Some(directory) => if directory.len() > 0 {
            path::spec_join(directory, name)
        } else {
            name
        },
        None => name,
    }
}

/// The path of a file name, or of nothing.
pub open spec fn name_alone(path: Seq<PartModel>) -> Seq<PartModel> {
    match path::spec_file_name(path) {
        Some(name) => seq![PartModel::Name(name)],
        None => Seq::empty(),
    }
}

/// Where a path lies below `root`, or its file name alone.
pub open spec fn spec_rel_in_tree(root: Seq<PartModel>, path: Seq<PartModel>) -> Seq<PartModel> {
    match path::spec_strip_prefix(path, root) {
        Some(rest) => rest,
        None => name_alone(path),
    }
}

/// The directory that holds a file; `.` where the path names none.
pub open spec fn directory_of(path: Seq<PartModel>) -> Seq<PartModel> {
    match path::spec_parent(path) {
        Some(directory) => if directory.len() > 0 {
            directory
        } else {
            seq![PartModel::Current]
        },
        None => seq![PartModel::Current],
    }
}

/// The directory `unpack` within a directory.
pub open spec fn unpack_within(directory: Seq<PartModel>) -> Seq<PartModel> {
    path::spec_join(directory, seq![PartModel::Name("unpack"@)])
}

/// Puts `.unpack` before the last dot of a file name, or at its end.
fn rename(name: &str) -> (result: String)
    ensures
        result@ == renamed(name@),
{
    let chars = characters(name);
    match find_last(&chars, '.') {
        Some(dot) => {
            assert(name@.subrange(0, dot as int) =~= name@.take(dot as int));
            assert(name@.subrange(dot as int, name@.len() as int) =~= name@.skip(dot as int));
            let mut result = text_of(name, 0, dot);
            result.append(".unpack");
            result.append(text_of(name, dot, chars.len()).as_str());
            result
        },
        None => {
            let mut result = String::from_str(name);
            result.append(".unpack");
            result
        },
    }
}

/// Inserts `.unpack` before the last dot in the file name and keeps the directories. If the file
/// name has no dot, `.unpack` goes to its end.
pub fn out_name(input: &TreePath) -> (result: TreePath)
    ensures
        result@ == spec_out_name(input@),
{
    let name = match file_name(input) {
        Some(name) => name,
        None => String::new(),
    };
    let result = TreePath::of_name(rename(name.as_str()).as_str());
    match parent(input) {
        Some(directory) => if !directory.is_empty() {
            join(&directory, &result)
        } else {
            result
        },
        None => result,
    }
}

/// The path of `path` relative to `root`, for mirroring into the output tree. Falls back to the
/// file name when `path` is not under `root`.
pub fn rel_in_tree(root: &TreePath, path: &TreePath) -> (result: TreePath)
    ensures
        result@ == spec_rel_in_tree(root@, path@),
{
    match strip_prefix(path, root) {
        Some(rest) => rest,
        None => match file_name(path) {
            Some(name) => TreePath::of_name(name.as_str()),
            None => TreePath::new(),
        },
    }
}

/// The default output root of a folder: `unpack` within it.
pub fn default_out_root_for_folder(root: &TreePath) -> (result: TreePath)
    ensures
        result@ == unpack_within(root@),
{
    join(root, &TreePath::of_name("unpack"))
}

/// The default output root of a single file: `unpack` beside it.
pub fn default_out_root_for_file(input: &TreePath) -> (result: TreePath)
    ensures
        result@ == unpack_within(directory_of(input@)),
{
    let directory = match parent(input) {
        Some(directory) => if !directory.is_empty() {
            directory
        } else {
            TreePath::current()
        },
        None => TreePath::current(),
    };
    join(&directory, &TreePath::of_name("unpack"))
}

/// Where metadata that was found within a restored library goes: beside the library, under the
/// usual name.
pub open spec fn spec_embedded_metadata_dest(restored_so: Seq<PartModel>) -> Seq<PartModel> {
    path::spec_join(
        match path::spec_parent(restored_so) {
            Some(directory) => directory,
            None => seq![PartModel::Current],
        },
        spec_out_name(seq![PartModel::Name(METADATA_FILE_NAME@)]),
    )
}

/// The output path of metadata that was found within a restored library.
pub fn embedded_metadata_dest(restored_so: &TreePath) -> (result: TreePath)
    ensures
        result@ == spec_embedded_metadata_dest(restored_so@),
{
    let name = out_name(&TreePath::of_name(METADATA_FILE_NAME));
    match parent(restored_so) {
        Some(directory) => join(&directory, &name),
        None => join(&TreePath::current(), &name),
    }
}

} // verus!

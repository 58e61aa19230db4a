//! App packages: which files are packages, which of their entries matter, and where the entries'
//! outputs go.

use super::naming;
use super::naming::{out_name, METADATA_FILE_NAME};
use super::path;
use super::path::{
    characters, extension, file_name, find_last, join, parent, text_of, Part, PartModel, TreePath,
};
use crate::digest;
use crate::digest::sha256_hex;
use crate::elf::image;
use crate::elf::is_aarch64_prefix;
use crate::text;
use crate::text::{lower_hex_of, zero_pad};
use vstd::prelude::*;
use vstd::string::*;

verus! {

/// A capital letter of ASCII.
pub open spec fn is_capital(c: char) -> bool {
    'A' <= c <= 'Z'
}

/// Two characters that are the same but for the case of an ASCII letter.
pub open spec fn same_letter(a: char, b: char) -> bool {
    a == b || (is_capital(a) && b as u32 == a as u32 + 32) || (is_capital(b) && a as u32 == b as u32
        + 32)
}

/// Two texts that are the same but for the case of ASCII letters.
pub open spec fn same_letters(a: Seq<char>, b: Seq<char>) -> bool {
    a.len() == b.len() && forall|i: int|
        0 <= i < a.len() ==> same_letter(#[trigger] a[i], b[i])
}

/// The path has this extension, whatever its case.
pub open spec fn has_extension(path: Seq<PartModel>, wanted: Seq<char>) -> bool {
    match path::spec_extension(path) {
        Some(found) => same_letters(found, wanted),
        None => false,
    }
}

/// The path names an app package.
pub open spec fn spec_is_package_name(path: Seq<PartModel>) -> bool {
    has_extension(path, "apk"@) || has_extension(path, "apks"@) || has_extension(path, "xapk"@)
}

/// The path names a bundle of packages.
pub open spec fn spec_is_bundle_name(path: Seq<PartModel>) -> bool {
    has_extension(path, "apks"@) || has_extension(path, "xapk"@)
}

/// The path names a shared library.
pub open spec fn spec_is_so_name(path: Seq<PartModel>) -> bool {
    has_extension(path, "so"@)
}

/// The path names an entry that a package is searched for.
pub open spec fn spec_is_android_entry_name(path: Seq<PartModel>) -> bool {
    (match path::spec_file_name(path) {
        Some(name) => same_letters(name, METADATA_FILE_NAME@),
        None => false,
    }) || spec_is_so_name(path)
}

/// The bytes start as a ZIP archive does.
pub open spec fn spec_is_zip_prefix(prefix: Seq<u8>) -> bool {
    seq![0x50u8, 0x4b, 0x03, 0x04].is_prefix_of(prefix)
}

/// Compares two texts without regard to the case of ASCII letters.
fn eq_ignore_ascii_case(a: &str, b: &str) -> (result: bool)
    ensures
        result == same_letters(a@, b@),
{
    let a_chars = characters(a);
    let b_chars = characters(b);
    if a_chars.len() != b_chars.len() {
        return false;
    }
    let mut i: usize = 0;
    while i < a_chars.len()
        invariant
            i <= a_chars@.len(),
            a_chars@ == a@,
            b_chars@ == b@,
            a@.len() == b@.len(),
            forall|k: int| 0 <= k < i ==> same_letter(#[trigger] a@[k], b@[k]),
        decreases a@.len() - i,
    {
        let (x, y) = (a_chars[i], b_chars[i]);
        let lowered = ('A' <= x && x <= 'Z' && y as u32 == x as u32 + 32) || ('A' <= y && y <= 'Z'
            && x as u32 == y as u32 + 32);
        if x != y && !lowered {
            assert(!same_letter(a@[i as int], b@[i as int]));
            return false;
        }
        i += 1;
    }
    true
}

/// Whether a path has an extension, whatever its case.
fn extension_is(path: &TreePath, wanted: &str) -> (result: bool)
    ensures
        result == has_extension(path@, wanted@),
{
    match extension(path) {
        Some(found) => eq_ignore_ascii_case(found.as_str(), wanted),
        None => false,
    }
}

/// Whether a path names an app package.
pub fn is_package_name(path: &TreePath) -> (result: bool)
    ensures
        result == spec_is_package_name(path@),
{
    extension_is(path, "apk") || extension_is(path, "apks") || extension_is(path, "xapk")
}

/// Whether a path names a bundle of packages.
pub fn is_bundle_name(path: &TreePath) -> (result: bool)
    ensures
        result == spec_is_bundle_name(path@),
{
    extension_is(path, "apks") || extension_is(path, "xapk")
}

/// Whether a path names a shared library.
pub fn is_so_name(path: &TreePath) -> (result: bool)
    ensures
        result == spec_is_so_name(path@),
{
    extension_is(path, "so")
}

/// Whether a path names an entry that a package is searched for: metadata or a shared library.
pub fn is_android_entry_name(path: &TreePath) -> (result: bool)
    ensures
        result == spec_is_android_entry_name(path@),
{
    let is_metadata = match file_name(path) {
        Some(name) => eq_ignore_ascii_case(name.as_str(), METADATA_FILE_NAME),
        None => false,
    };
    is_metadata || is_so_name(path)
}

/// Whether `prefix` (the first bytes of a file) is an ELF64/AArch64 image. Only those can be
/// protected Android libraries.
pub fn is_elf64_aarch64(prefix: &[u8]) -> (result: bool)
    ensures
        result == image::spec_is_aarch64_prefix(prefix@),
{
    is_aarch64_prefix(prefix)
}

/// Whether `path` is an Android app package: it has the name of a package, and `prefix` is that of
/// a ZIP archive.
pub fn is_app_package(path: &TreePath, prefix: &[u8]) -> (result: bool)
    ensures
        result == (spec_is_package_name(path@) && spec_is_zip_prefix(prefix@)),
{
    let is_zip = prefix.len() >= 4 && prefix[0] == 0x50 && prefix[1] == 0x4b && prefix[2] == 0x03
        && prefix[3] == 0x04;
    proof {
        let magic = seq![0x50u8, 0x4b, 0x03, 0x04];
        if is_zip {
            assert(prefix@.take(4) =~= magic);
        }
        if magic.is_prefix_of(prefix@) {
            assert(prefix@.take(4)[0] == magic[0]);
            assert(prefix@.take(4)[1] == magic[1]);
            assert(prefix@.take(4)[2] == magic[2]);
            assert(prefix@.take(4)[3] == magic[3]);
        }
    }
    is_package_name(path) && is_zip
}

/// What tells contents apart: the SHA-256 digest in hexadecimal. The same library may appear loose
/// in a tree, in its package, and again in a bundle.
pub fn content_identity(data: &[u8]) -> (result: String)
    ensures
        result@ == text::hex_digest_text(digest::sha256_of(data@)),
{
    sha256_hex(data)
}

/// The name of an entry: its path within the package, and the text that is shown for it.
#[derive(Debug, PartialEq, Eq)]
pub struct EntryName {
    pub path: TreePath,
    pub text: String,
}

/// The mathematical content of an [`EntryName`].
pub struct NameModel {
    pub path: Seq<PartModel>,
    pub text: Seq<char>,
}

impl View for EntryName {
    type V = NameModel;

    open spec fn view(&self) -> NameModel {
        NameModel { path: self.path@, text: self.text@ }
    }
}

impl EntryName {
    /// A copy of the name.
    fn copied(&self) -> (name: EntryName)
        ensures
            name@ == self@,
    {
        EntryName { path: self.path.copied(), text: String::from_str(self.text.as_str()) }
    }
}

/// An entry of a package, as the archive lists it. An entry whose path would leave the package has
/// no name.
#[derive(Debug, PartialEq, Eq)]
pub struct PackageEntry {
    pub name: Option<EntryName>,
    pub is_dir: bool,
}

/// The mathematical content of a [`PackageEntry`].
pub struct EntryModel {
    pub name: Option<NameModel>,
    pub is_dir: bool,
}

impl View for PackageEntry {
    type V = EntryModel;

    open spec fn view(&self) -> EntryModel {
        EntryModel {
            name: match self.name {
                Some(name) => Some(name@),
                None => None,
            },
            is_dir: self.is_dir,
        }
    }
}

/// An entry that is to be handled: its place in the archive and its name.
#[derive(Debug, PartialEq, Eq)]
pub struct PackageTarget {
    pub index: usize,
    pub name: EntryName,
}

/// The mathematical content of a [`PackageTarget`].
pub struct TargetModel {
    pub index: int,
    pub name: NameModel,
}

impl View for PackageTarget {
    type V = TargetModel;

    open spec fn view(&self) -> TargetModel {
        TargetModel { index: self.index as int, name: self.name@ }
    }
}

/// The contents of a list of targets.
pub open spec fn targets(list: Seq<PackageTarget>) -> Seq<TargetModel> {
    Seq::new(list.len(), |i: int| list[i]@)
}

/// The entry is a file whose path would leave the package.
pub open spec fn is_unsafe(entry: EntryModel) -> bool {
    !entry.is_dir && entry.name is None
}

/// Some entry is unsafe.
pub open spec fn any_unsafe(entries: Seq<PackageEntry>) -> bool {
    exists|i: int| 0 <= i < entries.len() && is_unsafe(#[trigger] entries[i]@)
}

/// What an entry is selected for.
#[derive(Debug, Clone, Copy, PartialEq, Eq, Structural)]
pub enum Selection {
    Library,
    Metadata,
    Package,
}

impl Selection {
    /// An entry of this path is selected.
    pub open spec fn takes(self, name: Seq<PartModel>) -> bool {
        match self {
            Selection::Library => spec_is_so_name(name),
            Selection::Metadata => spec_is_android_entry_name(name) && !spec_is_so_name(name),
            Selection::Package => has_extension(name, "apk"@),
        }
    }

    /// This entry is selected.
    pub open spec fn takes_entry(self, entry: EntryModel) -> bool {
        match entry.name {
            Some(name) => !entry.is_dir && self.takes(name.path),
            None => false,
        }
    }

    /// The selected ones of the first `n` entries, in order.
    pub open spec fn select(self, entries: Seq<PackageEntry>, n: nat) -> Seq<TargetModel>
        decreases n,
    {
        if n == 0 {
            Seq::empty()
        } else {
            let before = self.select(entries, (n - 1) as nat);
            let entry = entries[n - 1]@;
            if self.takes_entry(entry) {
                before.push(TargetModel { index: n - 1, name: entry.name->0 })
            } else {
                before
            }
        }
    }

    /// Whether an entry of this path is selected.
    fn matches(self, name: &TreePath) -> (result: bool)
        ensures
            result == self.takes(name@),
    {
        match self {
            Selection::Library => is_so_name(name),
            Selection::Metadata => is_android_entry_name(name) && !is_so_name(name),
            Selection::Package => extension_is(name, "apk"),
        }
    }

    /// Adds the selected entries to a list.
    fn collect(self, entries: &[PackageEntry], list: &mut Vec<PackageTarget>)
        ensures
            targets(final(list)@) == targets(old(list)@) + self.select(entries@, entries@.len()),
    {
        let ghost start = targets(list@);
        let mut i: usize = 0;
        assert(targets(list@) =~= start + self.select(entries@, 0));
        while i < entries.len()
            invariant
                i <= entries@.len(),
                targets(list@) == start + self.select(entries@, i as nat),
            decreases entries@.len() - i,
        {
            let entry = &entries[i];
            let ghost before = list@;
            let ghost selected = self.select(entries@, i as nat);
            if !entry.is_dir {
                if let Some(name) = &entry.name {
                    if self.matches(&name.path) {
                        list.push(PackageTarget { index: i, name: name.copied() });
                        proof {
                            let target = TargetModel { index: i as int, name: name@ };
                            assert(targets(list@) =~= targets(before).push(target));
                            assert(start + selected.push(target) =~= (start + selected).push(
                                target,
                            ));
                        }
                    }
                }
            }
            i += 1;
        }
    }
}

/// How early an entry is handled: libraries come before metadata, which may need what the library
/// holds.
pub open spec fn spec_package_entry_priority(path: Seq<PartModel>) -> u8 {
    if spec_is_so_name(path) {
        0
    } else {
        1
    }
}

/// How early an entry is handled.
pub fn package_entry_priority(path: &TreePath) -> (result: u8)
    ensures
        result == spec_package_entry_priority(path@),
{
    if is_so_name(path) {
        0
    } else {
        1
    }
}

/// Whether some entry is unsafe.
fn has_unsafe(entries: &[PackageEntry]) -> (result: bool)
    ensures
        result == any_unsafe(entries@),
{
    let mut i: usize = 0;
    while i < entries.len()
        invariant
            i <= entries@.len(),
            forall|k: int| 0 <= k < i ==> !is_unsafe(#[trigger] entries@[k]@),
        decreases entries@.len() - i,
    {
        if !entries[i].is_dir && entries[i].name.is_none() {
            assert(is_unsafe(entries@[i as int]@));
            return true;
        }
        i += 1;
    }
    false
}

/// The entries of a package that are restored, in the order in which that happens.
pub open spec fn spec_direct_targets(entries: Seq<PackageEntry>) -> Option<Seq<TargetModel>> {
    if any_unsafe(entries) {
        None
    } else {
        Some(
            Selection::Library.select(entries, entries.len()) + Selection::Metadata.select(
                entries,
                entries.len(),
            ),
        )
    }
}

/// The packages within a bundle, in order.
pub open spec fn spec_nested_packages(entries: Seq<PackageEntry>) -> Option<Seq<TargetModel>> {
    if any_unsafe(entries) {
        None
    } else {
        Some(Selection::Package.select(entries, entries.len()))
    }
}

/// A list of targets agrees with its mathematical counterpart.
pub open spec fn targets_agree(
    result: Option<Vec<PackageTarget>>,
    expected: Option<Seq<TargetModel>>,
) -> bool {
    match (result, expected) {
        (Some(found), Some(wanted)) => targets(found@) == wanted,
        (None, None) => true,
        _ => false,
    }
}

/// Selects the entries of a package that are restored: all libraries in order, and then all
/// metadata in order. Nothing is selected if the path of some file would leave the package.
pub fn direct_targets(entries: &[PackageEntry]) -> (result: Option<Vec<PackageTarget>>)
    ensures
        targets_agree(result, spec_direct_targets(entries@)),
{
    if has_unsafe(entries) {
        return None;
    }
    let mut list: Vec<PackageTarget> = Vec::new();
    assert(targets(list@) + Selection::Library.select(entries@, entries@.len())
        =~= Selection::Library.select(entries@, entries@.len()));
    Selection::Library.collect(entries, &mut list);
    Selection::Metadata.collect(entries, &mut list);
    Some(list)
}

/// Selects the packages within a bundle. Nothing is selected if the path of some file would leave
/// the bundle.
pub fn nested_packages(entries: &[PackageEntry]) -> (result: Option<Vec<PackageTarget>>)
    ensures
        targets_agree(result, spec_nested_packages(entries@)),
{
    if has_unsafe(entries) {
        return None;
    }
    let mut list: Vec<PackageTarget> = Vec::new();
    assert(targets(list@) + Selection::Package.select(entries@, entries@.len())
        =~= Selection::Package.select(entries@, entries@.len()));
    Selection::Package.collect(entries, &mut list);
    Some(list)
}

/// The label of an entry: the package and the entry's name.
pub open spec fn spec_entry_label(package: Seq<char>, name: Seq<char>) -> Seq<char> {
    package + "::"@ + name
}

/// The label of an entry: the package and the entry's name.
pub fn entry_label(package: &str, name: &str) -> (result: String)
    ensures
        result@ == spec_entry_label(package@, name@),
{
    let mut label = String::from_str(package);
    label.append("::");
    label.append(name);
    label
}

/// Where the output of an entry goes.
pub open spec fn spec_entry_dest(
    out_root: Seq<PartModel>,
    base: Seq<PartModel>,
    name: Seq<PartModel>,
) -> Seq<PartModel> {
    path::spec_join(path::spec_join(out_root, base), naming::spec_out_name(name))
}

/// Where the output of an entry goes: outputs mirror the package's own layout below `base`.
pub fn entry_dest(out_root: &TreePath, base: &TreePath, name: &TreePath) -> (result: TreePath)
    ensures
        result@ == spec_entry_dest(out_root@, base@, name@),
{
    join(&join(out_root, base), &out_name(name))
}

/// A name without its extension.
pub open spec fn stem(name: Seq<char>) -> Seq<char> {
    match path::extension_of(name) {
        Some(found) => name.take(name.len() - found.len() - 1),
        None => name,
    }
}

/// The path without the extension of its file name.
pub open spec fn without_extension(path: Seq<PartModel>) -> Seq<PartModel> {
    match path::spec_file_name(path) {
        Some(name) => path.drop_last().push(PartModel::Name(stem(name))),
        None => path,
    }
}

/// The directory below which the outputs of a nested package go: it keeps the nested package's
/// stem, so that entries of the same name in two packages do not collide.
pub fn nested_base(rel: &TreePath, name: &TreePath) -> (result: TreePath)
    ensures
        result@ == path::spec_join(rel@, without_extension(name@)),
{
    join(rel, &take_extension(name))
}

/// Takes the extension off a name.
fn stem_of(name: &str) -> (result: String)
    ensures
        result@ == stem(name@),
{
    let chars = characters(name);
    match find_last(&chars, '.') {
        Some(dot) => if dot == 0 {
            String::from_str(name)
        } else {
            assert(name@.subrange(0, dot as int) =~= name@.take(dot as int));
            text_of(name, 0, dot)
        },
        None => String::from_str(name),
    }
}

/// Takes the extension off a path.
fn take_extension(path: &TreePath) -> (result: TreePath)
    ensures
        result@ == without_extension(path@),
{
    let name = match file_name(path) {
        Some(name) => name,
        None => return path.copied(),
    };
    let mut result = match parent(path) {
        Some(directory) => directory,
        None => TreePath::new(),
    };
    result.push(Part::Name(stem_of(name.as_str())));
    result
}

/// What stands for a character in the name of an extracted file.
pub open spec fn flat(c: char) -> char {
    if c == '\\' || c == '/' || c == ':' {
        '_'
    } else {
        c
    }
}

/// The key of an extracted entry: its label and its place in the archive.
pub open spec fn entry_key(label: Seq<char>, index: nat) -> Seq<char> {
    label + "-"@ + text::zero_padded(text::lower_hex(index), 8)
}

/// The file name of an extracted entry.
pub open spec fn spec_entry_file_name(label: Seq<char>, index: nat) -> Seq<char> {
    let key = entry_key(label, index);
    Seq::new(key.len(), |i: int| flat(key[i]))
}

/// The file name under which an entry is extracted. It has no separator, and no character that a
/// file name cannot hold.
pub fn entry_file_name(label: &str, index: usize) -> (result: String)
    ensures
        result@ == spec_entry_file_name(label@, index as nat),
{
    let mut key = String::from_str(label);
    key.append("-");
    key.append(zero_pad(lower_hex_of(index as u64), 8).as_str());
    let chars = characters(key.as_str());
    let mut result = String::new();
    let ghost wanted = spec_entry_file_name(label@, index as nat);
    let mut i: usize = 0;
    while i < chars.len()
        invariant
            i <= chars@.len(),
            chars@ == key@,
            key@ == entry_key(label@, index as nat),
            wanted == spec_entry_file_name(label@, index as nat),
            result@ == wanted.take(i as int),
        decreases chars@.len() - i,
    {
        let c = chars[i];
        assert(wanted.take(i + 1) =~= wanted.take(i as int).push(flat(c)));
        if c == '\\' || c == '/' || c == ':' {
            result.append("_");
            proof {
                reveal_strlit("_");
                assert("_"@ =~= seq!['_']);
            }
        } else {
            result.append(key.as_str().substring_char(i, i + 1));
            assert(key@.subrange(i as int, i + 1) =~= seq![c]);
        }
        assert(result@ =~= wanted.take(i + 1));
        i += 1;
    }
    assert(wanted.take(i as int) =~= wanted);
    result
}

} // verus!

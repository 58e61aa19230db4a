//! The module index: which files hold the modules that a restoration needs.

use super::error::{invalid, Error, Fault, Result};
use crate::fold;
use serde_json::Value;
use vstd::prelude::*;
use vstd::string::*;

verus! {

/// Declares the JSON value type.
#[verifier::external_type_specification]
#[verifier::external_body]
pub struct ExJsonValue(Value);

/// What a JSON value holds. Of a number only its value as an unsigned 64-bit integer counts, if it
/// has one.
pub enum JsonModel {
    Null,
    Bool(bool),
    Number(Option<u64>),
    Text(Seq<char>),
    List(Seq<JsonModel>),
    Object(Map<Seq<char>, JsonModel>),
}

/// What `value` holds.
pub uninterp spec fn json_content(value: Value) -> JsonModel;

/// What `serde_json::from_str` makes of a text, or the message with which it fails.
pub uninterp spec fn json_document(text: Seq<char>) -> core::result::Result<JsonModel, Seq<char>>;

/// Parses a text with `serde_json::from_str`, and hands out the text that the error's `Display`
/// gives where that fails. The claim: the outcome and the message depend on the text alone.
#[verifier::external_body]
fn parse_json(text: &str) -> (result: core::result::Result<Value, String>)
    ensures
        match (result, json_document(text@)) {
            (Ok(value), Ok(content)) => json_content(value) == content,
            (Err(found), Err(expected)) => found@ == expected,
            _ => false,
        },
{
    serde_json::from_str(text).map_err(|error| format!("{error}"))
}

/// Looks up a member with `serde_json::Value::get`. The claim: an object yields its member of that
/// name, and any other value yields nothing.
#[verifier::external_body]
fn json_member<'a>(value: &'a Value, key: &str) -> (member: Option<&'a Value>)
    ensures
        match json_content(*value) {
            JsonModel::Object(members) => match member {
                Some(found) => members.dom().contains(key@) && json_content(*found)
                    == members[key@],
                None => !members.dom().contains(key@),
            },
            _ => member is None,
        },
{
    value.get(key)
}

/// Takes a list with `serde_json::Value::as_array`. The claim: a list yields its elements in order,
/// and any other value yields nothing.
#[verifier::external_body]
fn json_list(value: &Value) -> (list: Option<&Vec<Value>>)
    ensures
        match json_content(*value) {
            JsonModel::List(elements) => list matches Some(found) && found@.len() == elements.len()
                && forall|i: int|
                0 <= i < elements.len() ==> json_content(#[trigger] found@[i]) == elements[i],
            _ => list is None,
        },
{
    value.as_array()
}

/// Takes a number with `serde_json::Value::as_u64`. The claim: a number that is an unsigned 64-bit
/// integer yields it, and any other value yields nothing.
#[verifier::external_body]
fn json_u64(value: &Value) -> (number: Option<u64>)
    ensures
        match json_content(*value) {
            JsonModel::Number(found) => number == found,
            _ => number is None,
        },
{
    value.as_u64()
}

/// Takes a text with `serde_json::Value::as_str`. The claim: a text yields its characters, and any
/// other value yields nothing.
#[verifier::external_body]
fn json_text(value: &Value) -> (text: Option<&str>)
    ensures
        match json_content(*value) {
            JsonModel::Text(found) => text matches Some(chars) && chars@ == found,
            _ => text is None,
        },
{
    value.as_str()
}

/// One entry of a module index.
#[derive(Debug, PartialEq, Eq)]
pub struct IndexEntry {
    pub command_id: Option<u64>,
    pub path: Option<String>,
    pub size: Option<u64>,
}

/// The mathematical content of an [`IndexEntry`].
pub struct EntryModel {
    pub command_id: Option<u64>,
    pub path: Option<Seq<char>>,
    pub size: Option<u64>,
}

impl View for IndexEntry {
    type V = EntryModel;

    open spec fn view(&self) -> EntryModel {
        EntryModel {
            command_id: self.command_id,
            path: match self.path {
                Some(path) => Some(path@),
                None => None,
            },
            size: self.size,
        }
    }
}

/// The contents of a list of entries.
pub open spec fn entry_models(entries: Seq<IndexEntry>) -> Seq<EntryModel> {
    Seq::new(entries.len(), |i: int| entries[i]@)
}

/// A member of a JSON value.
pub open spec fn member(value: JsonModel, key: Seq<char>) -> Option<JsonModel> {
    match value {
        JsonModel::Object(members) => if members.dom().contains(key) {
            Some(members[key])
        } else {
            None
        },
        _ => None,
    }
}

/// A member that is an unsigned 64-bit integer.
pub open spec fn u64_member(value: JsonModel, key: Seq<char>) -> Option<u64> {
    match member(value, key) {
        Some(JsonModel::Number(number)) => number,
        _ => None,
    }
}

/// A member that is a text.
pub open spec fn text_member(value: JsonModel, key: Seq<char>) -> Option<Seq<char>> {
    match member(value, key) {
        Some(JsonModel::Text(text)) => Some(text),
        _ => None,
    }
}

/// The elements of a member that is a list; none for any other value.
pub open spec fn list_member(value: JsonModel, key: Seq<char>) -> Seq<JsonModel> {
    match member(value, key) {
        Some(JsonModel::List(elements)) => elements,
        _ => Seq::empty(),
    }
}

/// The entry that an item of the module registry gives.
pub open spec fn registry_entry(item: JsonModel) -> EntryModel {
    EntryModel {
        command_id: u64_member(item, "command_id"@),
        path: text_member(item, "image_path"@),
        size: u64_member(item, "size"@),
    }
}

/// The entry that a record of a stream gives.
pub open spec fn record_entry(record: JsonModel) -> EntryModel {
    EntryModel {
        command_id: u64_member(record, "command_id"@),
        path: match member(record, "image"@) {
            Some(image) => text_member(image, "path"@),
            None => None,
        },
        size: match member(record, "image"@) {
            Some(image) => u64_member(image, "size"@),
            None => None,
        },
    }
}

/// The entries of the module registry.
pub open spec fn registry_entries(document: JsonModel) -> Seq<EntryModel> {
    let items = list_member(document, "module_registry"@);
    Seq::new(items.len(), |i: int| registry_entry(items[i]))
}

/// The entries of the records of a stream.
pub open spec fn stream_entries(stream: JsonModel) -> Seq<EntryModel> {
    let records = list_member(stream, "records"@);
    Seq::new(records.len(), |i: int| record_entry(records[i]))
}

/// The entries of the records of the first `n` streams.
pub open spec fn record_entries(streams: Seq<JsonModel>, n: nat) -> Seq<EntryModel>
    decreases n,
{
    if n == 0 {
        Seq::empty()
    } else {
        record_entries(streams, (n - 1) as nat) + stream_entries(streams[n - 1])
    }
}

/// Reads a member that is an unsigned 64-bit integer.
fn read_u64_member(value: &Value, key: &str) -> (number: Option<u64>)
    ensures
        number == u64_member(json_content(*value), key@),
{
    match json_member(value, key) {
        Some(found) => json_u64(found),
        None => None,
    }
}

/// Reads a member that is a text.
fn read_text_member(value: &Value, key: &str) -> (text: Option<String>)
    ensures
        match (text, text_member(json_content(*value), key@)) {
            (Some(found), Some(wanted)) => found@ == wanted,
            (None, None) => true,
            _ => false,
        },
{
    match json_member(value, key) {
        Some(found) => match json_text(found) {
            Some(chars) => Some(String::from_str(chars)),
            None => None,
        },
        None => None,
    }
}

/// Reads an item of the module registry.
fn read_registry_entry(item: &Value) -> (entry: IndexEntry)
    ensures
        entry@ == registry_entry(json_content(*item)),
{
    IndexEntry {
        command_id: read_u64_member(item, "command_id"),
        path: read_text_member(item, "image_path"),
        size: read_u64_member(item, "size"),
    }
}

/// Reads a record of a stream.
fn read_record_entry(record: &Value) -> (entry: IndexEntry)
    ensures
        entry@ == record_entry(json_content(*record)),
{
    let command_id = read_u64_member(record, "command_id");
    match json_member(record, "image") {
        Some(image) => IndexEntry {
            command_id,
            path: read_text_member(image, "path"),
            size: read_u64_member(image, "size"),
        },
        None => IndexEntry { command_id, path: None, size: None },
    }
}

/// Reads the module registry.
fn read_registry(document: &Value) -> (entries: Vec<IndexEntry>)
    ensures
        entry_models(entries@) == registry_entries(json_content(*document)),
{
    let mut entries: Vec<IndexEntry> = Vec::new();
    let ghost wanted = registry_entries(json_content(*document));
    if let Some(registry) = json_member(document, "module_registry") {
        if let Some(items) = json_list(registry) {
            let mut i: usize = 0;
            while i < items.len()
                invariant
                    i <= items@.len(),
                    wanted == registry_entries(json_content(*document)),
                    items@.len() == wanted.len(),
                    forall|k: int|
                        0 <= k < items@.len() ==> registry_entry(
                            json_content(#[trigger] items@[k]),
                        ) == wanted[k],
                    entry_models(entries@) == wanted.take(i as int),
                decreases items@.len() - i,
            {
                let ghost before = entries@;
                let entry = read_registry_entry(&items[i]);
                assert(entry@ == wanted[i as int]);
                entries.push(entry);
                assert(entry_models(entries@) =~= entry_models(before).push(entry@));
                assert(wanted.take(i + 1) =~= wanted.take(i as int).push(wanted[i as int]));
                i += 1;
            }
            assert(wanted.take(i as int) =~= wanted);
            return entries;
        }
    }
    assert(entry_models(entries@) =~= wanted);
    entries
}

/// Reads the records of one stream.
fn read_stream(stream: &Value, entries: &mut Vec<IndexEntry>)
    ensures
        entry_models(final(entries)@) == entry_models(old(entries)@) + stream_entries(
            json_content(*stream),
        ),
{
    let ghost start = entry_models(entries@);
    let ghost wanted = stream_entries(json_content(*stream));
    if let Some(list) = json_member(stream, "records") {
        if let Some(records) = json_list(list) {
            assert(start + wanted.take(0) =~= start);
            let mut i: usize = 0;
            while i < records.len()
                invariant
                    i <= records@.len(),
                    records@.len() == wanted.len(),
                    forall|k: int|
                        0 <= k < records@.len() ==> record_entry(
                            json_content(#[trigger] records@[k]),
                        ) == wanted[k],
                    entry_models(entries@) == start + wanted.take(i as int),
                decreases records@.len() - i,
            {
                let ghost before = entries@;
                let entry = read_record_entry(&records[i]);
                assert(entry@ == wanted[i as int]);
                entries.push(entry);
                assert(entry_models(entries@) =~= entry_models(before).push(entry@));
                assert(start + wanted.take(i + 1) =~= (start + wanted.take(i as int)).push(
                    wanted[i as int],
                ));
                i += 1;
            }
            assert(wanted.take(i as int) =~= wanted);
            return;
        }
    }
    assert(start + wanted =~= start);
}

/// Reads the records of all streams.
fn read_records(document: &Value) -> (entries: Vec<IndexEntry>)
    ensures
        ({
            let streams = list_member(json_content(*document), "streams"@);
            entry_models(entries@) == record_entries(streams, streams.len())
        }),
{
    let mut entries: Vec<IndexEntry> = Vec::new();
    let ghost models = list_member(json_content(*document), "streams"@);
    assert(entry_models(entries@) =~= record_entries(models, 0));
    if let Some(list) = json_member(document, "streams") {
        if let Some(streams) = json_list(list) {
            let mut i: usize = 0;
            while i < streams.len()
                invariant
                    i <= streams@.len(),
                    streams@.len() == models.len(),
                    forall|k: int|
                        0 <= k < streams@.len() ==> json_content(#[trigger] streams@[k])
                            == models[k],
                    entry_models(entries@) == record_entries(models, i as nat),
                decreases streams@.len() - i,
            {
                read_stream(&streams[i], &mut entries);
                i += 1;
            }
        }
    }
    entries
}

/// A file that holds a module. The path is relative to the index.
#[derive(Debug, PartialEq, Eq)]
pub struct Artifact {
    pub path: String,
    pub size: u64,
}

/// The mathematical content of an [`Artifact`].
pub struct ArtifactModel {
    pub path: Seq<char>,
    pub size: u64,
}

impl View for Artifact {
    type V = ArtifactModel;

    open spec fn view(&self) -> ArtifactModel {
        ArtifactModel { path: self.path@, size: self.size }
    }
}

/// The artifacts that an index names, as far as they are wanted.
#[derive(Debug, PartialEq, Eq)]
pub struct Artifacts {
    pub module_9b: Option<Artifact>,
    pub module_9d: Option<Artifact>,
    pub module_9e: Option<Artifact>,
    pub module_96: Option<Artifact>,
    pub module_98: Option<Artifact>,
}

/// The mathematical content of [`Artifacts`].
pub struct ArtifactsModel {
    pub module_9b: Option<ArtifactModel>,
    pub module_9d: Option<ArtifactModel>,
    pub module_9e: Option<ArtifactModel>,
    pub module_96: Option<ArtifactModel>,
    pub module_98: Option<ArtifactModel>,
}

/// The content of an optional artifact.
pub open spec fn optional_artifact(artifact: Option<Artifact>) -> Option<ArtifactModel> {
    match artifact {
        Some(found) => Some(found@),
        None => None,
    }
}

impl View for Artifacts {
    type V = ArtifactsModel;

    open spec fn view(&self) -> ArtifactsModel {
        ArtifactsModel {
            module_9b: optional_artifact(self.module_9b),
            module_9d: optional_artifact(self.module_9d),
            module_9e: optional_artifact(self.module_9e),
            module_96: optional_artifact(self.module_96),
            module_98: optional_artifact(self.module_98),
        }
    }
}

/// Where an entry comes from.
#[derive(Debug, Clone, Copy, PartialEq, Eq, Structural)]
pub enum EntrySource {
    Registry,
    Record,
}

impl EntrySource {
    /// The fault for an identifier that is too large.
    pub open spec fn id_fault(self) -> Fault {
        match self {
            EntrySource::Registry => Fault::Text("module command ID exceeds u32"),
            EntrySource::Record => Fault::Text("record command ID exceeds u32"),
        }
    }

    /// The fault for an entry without a size.
    pub open spec fn size_fault(self, id: u32) -> Fault {
        match self {
            EntrySource::Registry => Fault::ModuleSize { id },
            EntrySource::Record => Fault::RecordSize { id },
        }
    }
}

/// Modules with this identifier are wanted.
pub open spec fn spec_wanted_id(id: u64) -> bool {
    id == 0x9b || id == 0x9d || id == 0x9e || id == 0x96 || id == 0x98
}

/// Whether modules with this identifier are wanted.
fn wanted_id(id: u32) -> (result: bool)
    ensures
        result == spec_wanted_id(id as u64),
{
    id == 0x9b || id == 0x9d || id == 0x9e || id == 0x96 || id == 0x98
}

impl ArtifactsModel {
    /// No artifacts.
    pub open spec fn none() -> ArtifactsModel {
        ArtifactsModel {
            module_9b: None,
            module_9d: None,
            module_9e: None,
            module_96: None,
            module_98: None,
        }
    }

    /// The artifacts with that of module `id` replaced.
    pub open spec fn with(self, id: u64, artifact: ArtifactModel) -> ArtifactsModel {
        if id == 0x9b {
            ArtifactsModel { module_9b: Some(artifact), ..self }
        } else if id == 0x9d {
            ArtifactsModel { module_9d: Some(artifact), ..self }
        } else if id == 0x9e {
            ArtifactsModel { module_9e: Some(artifact), ..self }
        } else if id == 0x96 {
            ArtifactsModel { module_96: Some(artifact), ..self }
        } else if id == 0x98 {
            ArtifactsModel { module_98: Some(artifact), ..self }
        } else {
            self
        }
    }

    /// The artifacts after `entry`: a later entry for a module replaces an earlier one.
    pub open spec fn after(self, entry: EntryModel, source: EntrySource) -> Result<ArtifactsModel> {
        match entry.command_id {
            None => Ok(self),
            Some(id) => if id > u32::MAX {
                Err(Error::Invalid(source.id_fault()))
            } else if !spec_wanted_id(id) {
                Ok(self)
            } else {
                match entry.path {
                    None => Ok(self),
                    Some(path) => match entry.size {
                        None => Err(Error::Invalid(source.size_fault(id as u32))),
                        Some(size) => Ok(self.with(id, ArtifactModel { path, size })),
                    },
                }
            },
        }
    }
}

/// Takes entry `index`.
pub open spec fn take_step(entries: Seq<EntryModel>, source: EntrySource) -> spec_fn(
    ArtifactsModel,
    int,
) -> Result<ArtifactsModel> {
    |artifacts: ArtifactsModel, index: int| artifacts.after(entries[index], source)
}

/// The artifacts that the entries of a registry and of records name, or why they cannot be used.
pub open spec fn spec_select(registry: Seq<EntryModel>, records: Seq<EntryModel>) -> Result<
    ArtifactsModel,
> {
    match fold::try_fold(
        registry.len(),
        ArtifactsModel::none(),
        take_step(registry, EntrySource::Registry),
    ) {
        Err(e) => Err(e),
        Ok(registered) => match fold::try_fold(
            records.len(),
            registered,
            take_step(records, EntrySource::Record),
        ) {
            Err(e) => Err(e),
            Ok(artifacts) => if artifacts.module_9b is None || artifacts.module_9d is None
                || artifacts.module_9e is None {
                Err(
                    Error::Invalid(
                        Fault::MissingIds {
                            lacks_9b: artifacts.module_9b is None,
                            lacks_9d: artifacts.module_9d is None,
                            lacks_9e: artifacts.module_9e is None,
                        },
                    ),
                )
            } else {
                Ok(artifacts)
            },
        },
    }
}

/// The artifacts that an index names, or why it cannot be used.
pub open spec fn spec_load(document: JsonModel) -> Result<ArtifactsModel> {
    let streams = list_member(document, "streams"@);
    spec_select(registry_entries(document), record_entries(streams, streams.len()))
}

/// A selection agrees with its mathematical counterpart.
pub open spec fn artifacts_agree(result: Result<Artifacts>, expected: Result<ArtifactsModel>) -> bool {
    match (result, expected) {
        (Ok(found), Ok(wanted)) => found@ == wanted,
        (Err(found), Err(wanted)) => found == wanted,
        _ => false,
    }
}

/// Takes one entry.
fn take_entry(artifacts: Artifacts, entry: &IndexEntry, source: EntrySource) -> (result: Result<
    Artifacts,
>)
    ensures
        artifacts_agree(result, artifacts@.after(entry@, source)),
{
    let id = match entry.command_id {
        Some(id) => id,
        None => return Ok(artifacts),
    };
    if id > u32::MAX as u64 {
        return match source {
            EntrySource::Registry => invalid(Fault::Text("module command ID exceeds u32")),
            EntrySource::Record => invalid(Fault::Text("record command ID exceeds u32")),
        };
    }
    let id = id as u32;
    if !wanted_id(id) {
        return Ok(artifacts);
    }
    let path = match &entry.path {
        Some(path) => path.clone(),
        None => return Ok(artifacts),
    };
    let size = match entry.size {
        Some(size) => size,
        None => return match source {
            EntrySource::Registry => invalid(Fault::ModuleSize { id }),
            EntrySource::Record => invalid(Fault::RecordSize { id }),
        },
    };
    let mut updated = artifacts;
    let artifact = Artifact { path, size };
    if id == 0x9b {
        updated.module_9b = Some(artifact);
    } else if id == 0x9d {
        updated.module_9d = Some(artifact);
    } else if id == 0x9e {
        updated.module_9e = Some(artifact);
    } else if id == 0x96 {
        updated.module_96 = Some(artifact);
    } else {
        updated.module_98 = Some(artifact);
    }
    Ok(updated)
}

/// Takes all entries of a list.
fn take_entries(artifacts: Artifacts, entries: &[IndexEntry], source: EntrySource) -> (result: Result<
    Artifacts,
>)
    ensures
        artifacts_agree(
            result,
            fold::try_fold(
                entries@.len(),
                artifacts@,
                take_step(entry_models(entries@), source),
            ),
        ),
{
    let ghost start = artifacts@;
    let ghost step = take_step(entry_models(entries@), source);
    let count: usize = entries.len();
    let mut current = artifacts;
    let mut i: usize = 0;
    while i < count
        invariant
            i <= count,
            count == entries@.len(),
            step == take_step(entry_models(entries@), source),
            fold::try_fold(i as nat, start, step) == Ok::<ArtifactsModel, Error>(current@),
            start == artifacts@,
        decreases count - i,
    {
        proof {
            if fold::try_fold((i + 1) as nat, start, step) is Err {
                fold::lemma_failure_stays((i + 1) as nat, count as nat, start, step);
            }
        }
        current = take_entry(current, &entries[i], source)?;
        i += 1;
    }
    Ok(current)
}

/// Selects the artifacts that a restoration needs from the entries of an index. Entries of records
/// come after those of the registry and replace them.
pub fn select_artifacts(registry: &[IndexEntry], records: &[IndexEntry]) -> (result: Result<
    Artifacts,
>)
    ensures
        artifacts_agree(result, spec_select(entry_models(registry@), entry_models(records@))),
{
    let none = Artifacts {
        module_9b: None,
        module_9d: None,
        module_9e: None,
        module_96: None,
        module_98: None,
    };
    let registered = take_entries(none, registry, EntrySource::Registry)?;
    let artifacts = take_entries(registered, records, EntrySource::Record)?;
    let lacks_9b = artifacts.module_9b.is_none();
    let lacks_9d = artifacts.module_9d.is_none();
    let lacks_9e = artifacts.module_9e.is_none();
    if lacks_9b || lacks_9d || lacks_9e {
        return invalid(Fault::MissingIds { lacks_9b, lacks_9d, lacks_9e });
    }
    Ok(artifacts)
}

/// Selects the artifacts that a restoration needs from the text of a module index.
pub fn load_artifacts(text: &str) -> (result: Result<Artifacts>)
    ensures
        match json_document(text@) {
            Err(message) => result matches Err(Error::Json(found)) && found@ == message,
            Ok(document) => artifacts_agree(result, spec_load(document)),
        },
{
    let document = match parse_json(text) {
        Ok(document) => document,
        Err(message) => return Err(Error::Json(message)),
    };
    let registry = read_registry(&document);
    let records = read_records(&document);
    select_artifacts(&registry, &records)
}

/// Whether what was found at an artifact's path is the artifact.
pub fn is_intact(artifact: &Artifact, is_file: bool, length: u64) -> (result: bool)
    ensures
        result == (is_file && length == artifact@.size),
{
    is_file && length == artifact.size
}

} // verus!

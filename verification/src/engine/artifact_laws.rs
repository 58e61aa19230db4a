//! Which files a module index selects.

use super::artifact;
use super::artifact::{ArtifactModel, ArtifactsModel, EntryModel, EntrySource, JsonModel};
use crate::fold;
use vstd::prelude::*;

verus! {

/// The artifact of module `id` among those selected.
pub open spec fn artifact_for(artifacts: ArtifactsModel, id: int) -> Option<ArtifactModel> {
    if id == 155 {
        artifacts.module_9b
    } else if id == 157 {
        artifacts.module_9d
    } else if id == 158 {
        artifacts.module_9e
    } else if id == 150 {
        artifacts.module_96
    } else if id == 152 {
        artifacts.module_98
    } else {
        None
    }
}

/// Module `id` is one of the five that count.
pub open spec fn counts(id: int) -> bool {
    id == 150 || id == 152 || id == 155 || id == 157 || id == 158
}

/// An entry names a file for module `id`.
pub open spec fn names_file(entry: EntryModel, id: int) -> bool {
    entry.command_id is Some && entry.command_id->0 == id && entry.path is Some
}

/// An entry can be used: its identifier has at most 32 bits, and a file for a module that counts
/// has a size.
pub open spec fn is_usable(entry: EntryModel) -> bool {
    entry.command_id is Some ==> {
        &&& entry.command_id->0 <= 4294967295
        &&& counts(entry.command_id->0 as int) && entry.path is Some ==> entry.size is Some
    }
}

/// Entry `j` is the last of the first `n` that names a file for module `id`.
pub open spec fn is_last(entries: Seq<EntryModel>, n: int, j: int, id: int) -> bool {
    &&& 0 <= j < n
    &&& names_file(entries[j], id)
    &&& forall|k: int| j < k < n ==> !names_file(#[trigger] entries[k], id)
}

/// None of the first `n` entries names a file for module `id`.
pub open spec fn no_file(entries: Seq<EntryModel>, n: int, id: int) -> bool {
    forall|k: int| 0 <= k < n ==> !names_file(#[trigger] entries[k], id)
}

/// An outcome holds the file that entry `j` names for module `id`.
pub open spec fn has_file_of(artifacts: ArtifactsModel, id: int, entry: EntryModel) -> bool {
    artifact_for(artifacts, id) == Some(ArtifactModel { path: entry.path->0, size: entry.size->0 })
}

/// What taking the first entries comes to for one module.
proof fn lemma_taken(
    entries: Seq<EntryModel>,
    source: EntrySource,
    init: ArtifactsModel,
    n: nat,
    id: int,
)
    requires
        n <= entries.len(),
        counts(id),
    ensures
        ({
            let run = fold::try_fold(n, init, artifact::take_step(entries, source));
            &&& run is Ok <==> forall|k: int| 0 <= k < n ==> is_usable(#[trigger] entries[k])
            &&& run matches Ok(after) ==> {
                &&& no_file(entries, n as int, id) ==> artifact_for(after, id) == artifact_for(
                    init,
                    id,
                )
                &&& forall|j: int| #[trigger]
                    is_last(entries, n as int, j, id) ==> has_file_of(after, id, entries[j])
            }
        }),
    decreases n,
{
    if n > 0 {
        let m = n - 1;
        lemma_taken(entries, source, init, m as nat, id);
        let step = artifact::take_step(entries, source);
        let before = fold::try_fold(m as nat, init, step);
        let run = fold::try_fold(n, init, step);
        if before is Ok {
            assert(run == before->Ok_0.after(entries[m], source));
            assert(run is Ok <==> is_usable(entries[m]));
            if run is Ok {
                if names_file(entries[m], id) {
                    assert(has_file_of(run->Ok_0, id, entries[m]));
                } else {
                    assert(artifact_for(run->Ok_0, id) == artifact_for(before->Ok_0, id));
                }
                assert forall|j: int| #[trigger] is_last(entries, n as int, j, id) implies has_file_of(
                    run->Ok_0,
                    id,
                    entries[j],
                ) by {
                    if j < m {
                        assert(!names_file(entries[m], id));
                        assert(is_last(entries, m, j, id));
                    }
                }
            }
        }
    }
}

/// Whether some entry names a file for module `id`.
proof fn lemma_last_exists(entries: Seq<EntryModel>, n: nat, id: int)
    requires
        n <= entries.len(),
    ensures
        no_file(entries, n as int, id) || exists|j: int| #[trigger]
            is_last(entries, n as int, j, id),
    decreases n,
{
    if n > 0 {
        lemma_last_exists(entries, (n - 1) as nat, id);
        if names_file(entries[n - 1], id) {
            assert(is_last(entries, n as int, n - 1, id));
        } else if !no_file(entries, n - 1, id) {
            let j = choose|j: int| #[trigger] is_last(entries, n - 1, j, id);
            assert(is_last(entries, n as int, j, id));
        }
    }
}

/// What is selected for one module: the file that the last entry names, those of records coming
/// after those of the registry.
proof fn lemma_selected(registry: Seq<EntryModel>, records: Seq<EntryModel>, id: int)
    requires
        counts(id),
    ensures
        ({
            let all = registry + records;
            let first = fold::try_fold(
                registry.len(),
                ArtifactsModel::none(),
                artifact::take_step(registry, EntrySource::Registry),
            );
            let second = fold::try_fold(
                records.len(),
                first->Ok_0,
                artifact::take_step(records, EntrySource::Record),
            );
            &&& first is Ok && second is Ok <==> forall|k: int|
                0 <= k < all.len() ==> is_usable(#[trigger] all[k])
            &&& first is Ok && second is Ok ==> {
                &&& no_file(all, all.len() as int, id) ==> artifact_for(second->Ok_0, id) is None
                &&& forall|j: int| #[trigger]
                    is_last(all, all.len() as int, j, id) ==> has_file_of(second->Ok_0, id, all[j])
            }
        }),
{
    let all = registry + records;
    let (r, n) = (registry.len() as int, all.len() as int);
    let first = fold::try_fold(
        registry.len(),
        ArtifactsModel::none(),
        artifact::take_step(registry, EntrySource::Registry),
    );
    lemma_taken(registry, EntrySource::Registry, ArtifactsModel::none(), registry.len(), id);
    lemma_taken(records, EntrySource::Record, first->Ok_0, records.len(), id);
    assert(forall|k: int| 0 <= k < r ==> all[k] == #[trigger] registry[k]);
    assert(forall|k: int| 0 <= k < records.len() ==> all[r + k] == #[trigger] records[k]);
    let second = fold::try_fold(
        records.len(),
        first->Ok_0,
        artifact::take_step(records, EntrySource::Record),
    );
    if forall|k: int| 0 <= k < n ==> is_usable(#[trigger] all[k]) {
        assert forall|k: int| 0 <= k < r implies is_usable(#[trigger] registry[k]) by {
            assert(is_usable(all[k]));
        }
        assert forall|k: int| 0 <= k < records.len() implies is_usable(#[trigger] records[k]) by {
            assert(is_usable(all[r + k]));
        }
    }
    if first is Ok && second is Ok {
        assert forall|k: int| 0 <= k < n implies is_usable(#[trigger] all[k]) by {
            if k < r {
                assert(is_usable(registry[k]));
            } else {
                assert(is_usable(records[k - r]));
            }
        }
        if no_file(all, n, id) {
            assert forall|k: int| 0 <= k < r implies !names_file(#[trigger] registry[k], id) by {
                assert(!names_file(all[k], id));
            }
            assert forall|k: int| 0 <= k < records.len() implies !names_file(
                #[trigger] records[k],
                id,
            ) by {
                assert(!names_file(all[r + k], id));
            }
        }
        assert forall|j: int| #[trigger] is_last(all, n, j, id) implies has_file_of(
            second->Ok_0,
            id,
            all[j],
        ) by {
            if j < r {
                assert forall|k: int| 0 <= k < records.len() implies !names_file(
                    #[trigger] records[k],
                    id,
                ) by {
                    assert(!names_file(all[r + k], id));
                }
                assert forall|k: int| j < k < r implies !names_file(#[trigger] registry[k], id) by {
                    assert(!names_file(all[k], id));
                }
                assert(is_last(registry, r, j, id));
            } else {
                assert forall|k: int| j - r < k < records.len() implies !names_file(
                    #[trigger] records[k],
                    id,
                ) by {
                    assert(!names_file(all[r + k], id));
                }
                assert(is_last(records, records.len() as int, j - r, id));
            }
        }
    }
}

/// Whether a module that counts has a file among the artifacts of usable entries.
pub proof fn lemma_files(registry: Seq<EntryModel>, records: Seq<EntryModel>, id: int)
    requires
        counts(id),
        ({
            let all = registry + records;
            forall|k: int| 0 <= k < all.len() ==> is_usable(#[trigger] all[k])
        }),
    ensures
        ({
            let all = registry + records;
            let first = fold::try_fold(
                registry.len(),
                ArtifactsModel::none(),
                artifact::take_step(registry, EntrySource::Registry),
            );
            let second = fold::try_fold(
                records.len(),
                first->Ok_0,
                artifact::take_step(records, EntrySource::Record),
            );
            &&& first is Ok
            &&& second is Ok
            &&& artifact_for(second->Ok_0, id) is None <==> no_file(all, all.len() as int, id)
        }),
{
    let all = registry + records;
    let n = all.len() as int;
    lemma_selected(registry, records, id);
    lemma_last_exists(all, all.len(), id);
    if !no_file(all, n, id) {
        let j = choose|j: int| #[trigger] is_last(all, n, j, id);
        assert(is_last(all, n, j, id));
    }
}

/// An index can be used exactly when each entry can be used and modules 0x9b, 0x9d and 0x9e have
/// files.
pub proof fn law_index_is_usable(registry: Seq<EntryModel>, records: Seq<EntryModel>)
    ensures
        ({
            let all = registry + records;
            let n = all.len() as int;
            artifact::spec_select(registry, records) is Ok <==> {
                &&& forall|k: int| 0 <= k < n ==> is_usable(#[trigger] all[k])
                &&& !no_file(all, n, 0x9b)
                &&& !no_file(all, n, 0x9d)
                &&& !no_file(all, n, 0x9e)
            }
        }),
{
    let all = registry + records;
    if forall|k: int| 0 <= k < all.len() ==> is_usable(#[trigger] all[k]) {
        lemma_files(registry, records, 0x9b);
        lemma_files(registry, records, 0x9d);
        lemma_files(registry, records, 0x9e);
    } else {
        lemma_selected(registry, records, 0x9b);
    }
}

/// Of several entries for a module the last one counts, and those of records come after those of
/// the registry. A module that no entry names a file for has none.
pub proof fn law_last_entry_counts(
    registry: Seq<EntryModel>,
    records: Seq<EntryModel>,
    id: int,
    j: int,
)
    requires
        counts(id),
        artifact::spec_select(registry, records) is Ok,
    ensures
        ({
            let all = registry + records;
            let selected = artifact::spec_select(registry, records)->Ok_0;
            &&& is_last(all, all.len() as int, j, id) ==> has_file_of(selected, id, all[j])
            &&& no_file(all, all.len() as int, id) ==> artifact_for(selected, id) is None
        }),
{
    lemma_selected(registry, records, id);
}

/// Member `key` of an object is an unsigned number.
pub open spec fn is_number(members: Map<Seq<char>, JsonModel>, key: Seq<char>, n: u64) -> bool {
    members.dom().contains(key) && members[key] == JsonModel::Number(Some(n))
}

/// Member `key` of an object is a text.
pub open spec fn is_text(
    members: Map<Seq<char>, JsonModel>,
    key: Seq<char>,
    text: Seq<char>,
) -> bool {
    members.dom().contains(key) && members[key] == JsonModel::Text(text)
}

/// An item of the registry gives its `command_id`, `image_path` and `size`; a record its
/// `command_id` and the `path` and `size` of its `image`.
pub proof fn law_fields_of_entries(
    members: Map<Seq<char>, JsonModel>,
    image: Map<Seq<char>, JsonModel>,
    n: u64,
    text: Seq<char>,
)
    ensures
        ({
            let item = artifact::registry_entry(JsonModel::Object(members));
            let record = artifact::record_entry(JsonModel::Object(members));
            let with_image = artifact::record_entry(
                JsonModel::Object(members.insert("image"@, JsonModel::Object(image))),
            );
            &&& item.command_id == Some(n) <==> is_number(members, "command_id"@, n)
            &&& item.path == Some(text) <==> is_text(members, "image_path"@, text)
            &&& item.size == Some(n) <==> is_number(members, "size"@, n)
            &&& record.command_id == Some(n) <==> is_number(members, "command_id"@, n)
            &&& !members.dom().contains("image"@) ==> record.path is None && record.size is None
            &&& with_image.path == Some(text) <==> is_text(image, "path"@, text)
            &&& with_image.size == Some(n) <==> is_number(image, "size"@, n)
        }),
{
}

/// Records of streams come one stream after the other.
pub proof fn law_records_of_streams(streams: Seq<JsonModel>, n: nat, i: int)
    requires
        n < streams.len(),
        streams[n as int] matches JsonModel::Object(members) && members.dom().contains("records"@)
            && members["records"@] is List,
    ensures
        ({
            let records = streams[n as int]->Object_0["records"@]->List_0;
            let before = artifact::record_entries(streams, n);
            let after = artifact::record_entries(streams, n + 1);
            &&& after.len() == before.len() + records.len()
            &&& 0 <= i < before.len() ==> after[i] == before[i]
            &&& 0 <= i < records.len() ==> after[before.len() + i] == artifact::record_entry(
                records[i],
            )
            &&& artifact::record_entries(streams, 0).len() == 0
        }),
{
}

/// An index gives the entries of its `module_registry` and then the records of its `streams`.
pub proof fn law_index_lists(
    members: Map<Seq<char>, JsonModel>,
    items: Seq<JsonModel>,
    streams: Seq<JsonModel>,
)
    requires
        members.dom().contains("module_registry"@),
        members["module_registry"@] == JsonModel::List(items),
        members.dom().contains("streams"@),
        members["streams"@] == JsonModel::List(streams),
    ensures
        artifact::spec_load(JsonModel::Object(members)) == artifact::spec_select(
            items.map_values(|item: JsonModel| artifact::registry_entry(item)),
            artifact::record_entries(streams, streams.len()),
        ),
{
    assert(artifact::registry_entries(JsonModel::Object(members)) =~= items.map_values(
        |item: JsonModel| artifact::registry_entry(item),
    ));
}

} // verus!

//! What holds of restored metadata.

use super::metadata;
use super::metadata::Restored;
use crate::metadata::method_indices_laws;
use crate::metadata::structural_laws;
use vstd::prelude::*;

verus! {

/// Where no method field was remapped, and no seed had to be tried, the restored metadata is the
/// input: no copy of it is needed.
pub proof fn law_nothing_remapped_is_unchanged(data: Seq<u8>, module: Option<Seq<u8>>)
    requires
        data.len() <= usize::MAX,
        metadata::spec_restore_metadata(data, module, Seq::<Option<Restored>>::empty()) is Ok,
        ({
            let none = Seq::<Option<Restored>>::empty();
            metadata::spec_restore_metadata(data, module, none)->Ok_0.report.remapped == 0
        }),
    ensures
        ({
            let none = Seq::<Option<Restored>>::empty();
            metadata::spec_restore_metadata(data, module, none)->Ok_0.data == data
        }),
{
    if metadata::uses_module(data, module) {
        method_indices_laws::law_clean_when_no_index_changed(data, module->0);
    } else {
        structural_laws::law_unchanged_when_clean(data);
    }
}

/// A version that is not supported is never reported for a version whose structure is known.
pub proof fn law_known_versions_are_not_unsupported(
    data: Seq<u8>,
    module: Option<Seq<u8>>,
    attempts: Seq<Option<Restored>>,
    version: u32,
)
    requires
        metadata::spec_restore_metadata(data, module, attempts) matches Err(error)
            && metadata::spec_unsupported_version(error) == Some(version),
    ensures
        version != 24,
        version != 31,
        metadata::version_of(data) == Some(version),
{
}

} // verus!

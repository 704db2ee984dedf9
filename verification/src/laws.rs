//! Laws of the rewrite pass, stated over the output characterization
//! that `rewrite_manifests` establishes: deletion vectors only ever
//! reference surviving data files, referenced paths stay unique,
//! additions supersede older records, and removed files vanish.

use vstd::prelude::*;

use crate::model::{path_in, BlobMetadata, ManifestList, OutputEntry};
use crate::records::{dv_ref_of, dv_ref_prop};
use crate::rewrite::{
    added_dv_exists, blob_at, data_out_entry, dv_out_entry, dv_out_ref, dv_ref_at, entry_at,
    entry_kind, is_dv_blob, kept_data_at, manifest_carried, rewrite_output_ok, surviving_dv_at,
    valid_blob, valid_pos, NewManifests,
};
use crate::model::EntryKind;

verus! {

/// Path `p` names a primary data file somewhere in the input list.
pub open spec fn data_path_present(list: ManifestList, p: Seq<char>) -> bool {
    exists|m: int, e: int|
        valid_pos(list, m, e) && #[trigger] entry_kind(list, m, e) == Some(EntryKind::PrimaryData)
            && entry_at(list, m, e).record.file_path@ == p
}

/// Path `p` names a primary data file of the input list that is not
/// being removed: a member of the surviving data-file set.
pub open spec fn surviving_data_path(list: ManifestList, removals: Seq<String>, p: Seq<char>) -> bool {
    data_path_present(list, p) && !path_in(removals, p)
}

/// Law: after a successful rewrite, every deletion-vector record's
/// referenced data file path is in the surviving data-file set — for
/// inputs whose existing deletion vectors reference data files of the
/// list, and whose added deletion-vector blobs reference data files
/// that are present and not being removed.
pub proof fn lemma_dv_references_survive(
    out: NewManifests,
    list: ManifestList,
    removals: Seq<String>,
    adds: Seq<(String, Vec<BlobMetadata>)>,
    blob_removals: Seq<String>,
)
    requires
        rewrite_output_ok(out, list, removals, adds, blob_removals),
        forall|m: int, e: int|
            #[trigger] surviving_dv_at(list, removals, m, e) ==> data_path_present(
                list,
                dv_ref_at(list, m, e),
            ),
        forall|a: int, b: int|
            valid_blob(adds, a, b) && is_dv_blob(#[trigger] blob_at(adds, a, b)) && dv_ref_prop(
                blob_at(adds, a, b),
            ) is Some ==> data_path_present(list, dv_ref_of(blob_at(adds, a, b))) && !path_in(
                removals,
                dv_ref_of(blob_at(adds, a, b)),
            ),
    ensures
        forall|k: int|
            #![trigger out.deletion_vectors@[k]]
            0 <= k < out.deletion_vectors@.len() ==> surviving_data_path(
                list,
                removals,
                dv_out_ref(out.deletion_vectors@[k], list),
            ),
{
    assert forall|k: int|
        #![trigger out.deletion_vectors@[k]]
        0 <= k < out.deletion_vectors@.len() implies surviving_data_path(
        list,
        removals,
        dv_out_ref(out.deletion_vectors@[k], list),
    ) by {
        let oe = out.deletion_vectors@[k];
        assert(dv_out_entry(oe, list, removals, adds));
        match oe {
            OutputEntry::Kept(m, e) => {
                assert(surviving_dv_at(list, removals, m as int, e as int));
            },
            OutputEntry::Added(a, b, rec, _) => {
                assert(is_dv_blob(blob_at(adds, a as int, b as int)));
                assert(dv_out_ref(oe, list) == dv_ref_of(blob_at(adds, a as int, b as int)));
            },
        }
    }
}

/// Law: no two deletion-vector records of a rewrite output share the
/// same referenced data file path.
pub proof fn lemma_dv_references_unique(
    out: NewManifests,
    list: ManifestList,
    removals: Seq<String>,
    adds: Seq<(String, Vec<BlobMetadata>)>,
    blob_removals: Seq<String>,
    k1: int,
    k2: int,
)
    requires
        rewrite_output_ok(out, list, removals, adds, blob_removals),
        0 <= k1 < k2 < out.deletion_vectors@.len(),
    ensures
        dv_out_ref(out.deletion_vectors@[k1], list) != dv_out_ref(out.deletion_vectors@[k2], list),
{
}

/// Law: when a deletion vector was added for data file `d`, the output
/// holds exactly one deletion-vector record referencing `d`, and it is
/// a newly added record — never the old one beside the new.
pub proof fn lemma_added_dv_supersedes(
    out: NewManifests,
    list: ManifestList,
    removals: Seq<String>,
    adds: Seq<(String, Vec<BlobMetadata>)>,
    blob_removals: Seq<String>,
    d: Seq<char>,
)
    requires
        rewrite_output_ok(out, list, removals, adds, blob_removals),
        added_dv_exists(adds, d),
    ensures
        exists|k: int|
            #![trigger out.deletion_vectors@[k]]
            0 <= k < out.deletion_vectors@.len() && out.deletion_vectors@[k] is Added && dv_out_ref(
                out.deletion_vectors@[k],
                list,
            ) == d,
        forall|k: int|
            #![trigger out.deletion_vectors@[k]]
            0 <= k < out.deletion_vectors@.len() && dv_out_ref(out.deletion_vectors@[k], list) == d
                ==> out.deletion_vectors@[k] is Added,
        forall|k1: int, k2: int|
            0 <= k1 < out.deletion_vectors@.len() && 0 <= k2 < out.deletion_vectors@.len()
                && dv_out_ref(out.deletion_vectors@[k1], list) == d && dv_out_ref(
                out.deletion_vectors@[k2],
                list,
            ) == d ==> k1 == k2,
{
    let (a, b) = choose|a: int, b: int| crate::rewrite::dv_references(adds, a, b, d);
    assert(valid_blob(adds, a, b) && is_dv_blob(blob_at(adds, a, b)));
    assert(dv_ref_prop(blob_at(adds, a, b)) is Some);
    assert(dv_ref_of(blob_at(adds, a, b)) == d);
    assert(exists|k: int|
        #![trigger out.deletion_vectors@[k]]
        0 <= k < out.deletion_vectors@.len() && out.deletion_vectors@[k] is Added && dv_out_ref(
            out.deletion_vectors@[k],
            list,
        ) == dv_ref_of(blob_at(adds, a, b)));
    assert forall|k: int|
        #![trigger out.deletion_vectors@[k]]
        0 <= k < out.deletion_vectors@.len() && dv_out_ref(out.deletion_vectors@[k], list) == d implies out.deletion_vectors@[k]
        is Added by {
        let oe = out.deletion_vectors@[k];
        assert(dv_out_entry(oe, list, removals, adds));
        if oe is Kept {
            assert(!added_dv_exists(adds, dv_ref_at(list, oe->Kept_0 as int, oe->Kept_1 as int)));
        }
    }
    assert forall|k1: int, k2: int|
        0 <= k1 < out.deletion_vectors@.len() && 0 <= k2 < out.deletion_vectors@.len()
            && dv_out_ref(out.deletion_vectors@[k1], list) == d && dv_out_ref(
            out.deletion_vectors@[k2],
            list,
        ) == d implies k1 == k2 by {
        if k1 < k2 {
            assert(dv_out_ref(out.deletion_vectors@[k1], list) != dv_out_ref(
                out.deletion_vectors@[k2],
                list,
            ));
        }
        if k2 < k1 {
            assert(dv_out_ref(out.deletion_vectors@[k2], list) != dv_out_ref(
                out.deletion_vectors@[k1],
                list,
            ));
        }
    }
}

/// Law: a data file in the removal set is referenced by nothing after
/// the rewrite: no manifest is carried over whole, no kept data entry
/// names it, and no deletion-vector record references it — for inputs
/// whose added deletion-vector blobs reference no removed file.
pub proof fn lemma_removed_files_unreferenced(
    out: NewManifests,
    list: ManifestList,
    removals: Seq<String>,
    adds: Seq<(String, Vec<BlobMetadata>)>,
    blob_removals: Seq<String>,
    p: Seq<char>,
)
    requires
        rewrite_output_ok(out, list, removals, adds, blob_removals),
        path_in(removals, p),
        forall|a: int, b: int|
            valid_blob(adds, a, b) && is_dv_blob(#[trigger] blob_at(adds, a, b)) && dv_ref_prop(
                blob_at(adds, a, b),
            ) is Some ==> !path_in(removals, dv_ref_of(blob_at(adds, a, b))),
    ensures
        out.carried@.len() == 0,
        forall|k: int|
            #![trigger out.data@[k]]
            0 <= k < out.data@.len() ==> entry_at(
                list,
                out.data@[k]->Kept_0 as int,
                out.data@[k]->Kept_1 as int,
            ).record.file_path@ != p,
        forall|k: int|
            #![trigger out.deletion_vectors@[k]]
            0 <= k < out.deletion_vectors@.len() ==> dv_out_ref(out.deletion_vectors@[k], list)
                != p,
{
    if out.carried@.len() > 0 {
        assert(!crate::rewrite::processed(list, removals, out.carried@[0] as int));
        assert(manifest_carried(list.manifests@[out.carried@[0] as int], removals));
        assert(false);
    }
    assert forall|k: int|
        #![trigger out.data@[k]]
        0 <= k < out.data@.len() implies entry_at(
        list,
        out.data@[k]->Kept_0 as int,
        out.data@[k]->Kept_1 as int,
    ).record.file_path@ != p by {
        assert(data_out_entry(out.data@[k], list, removals));
        assert(kept_data_at(list, removals, out.data@[k]->Kept_0 as int, out.data@[k]->Kept_1 as int));
    }
    assert forall|k: int|
        #![trigger out.deletion_vectors@[k]]
        0 <= k < out.deletion_vectors@.len() implies dv_out_ref(out.deletion_vectors@[k], list)
        != p by {
        let oe = out.deletion_vectors@[k];
        assert(dv_out_entry(oe, list, removals, adds));
        match oe {
            OutputEntry::Kept(m, e) => {
                assert(surviving_dv_at(list, removals, m as int, e as int));
            },
            OutputEntry::Added(a, b, rec, _) => {
                assert(is_dv_blob(blob_at(adds, a as int, b as int)));
                assert(dv_out_ref(oe, list) == dv_ref_of(blob_at(adds, a as int, b as int)));
            },
        }
    }
}

} // verus!

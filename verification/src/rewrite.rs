//! Manifest rewrite orchestrator: a single pass that classifies every
//! entry of the current manifest list, applies the caller's removal
//! sets, folds newly written archive blobs in through the record
//! builder and the deletion-vector reconciler, and emits the contents
//! of a replacement manifest list.

use vstd::prelude::*;

use crate::classify::{classify, classify_spec};
use crate::model::{
    contains_path, deletion_vector_blob_tag, index_blob_tag, path_in, BlobMetadata, ContentKind,
    EntryKind, FileFormat, Manifest, ManifestEntry, ManifestList, OutputEntry, RewriteError,
};
use crate::records::{
    dv_record_ok, dv_ref_of, dv_ref_prop, index_record_ok, is_dv_record, is_index_record,
    record_for_deletion_vector, record_for_index,
};
use crate::model::{has_index_tag, lemma_blob_tags_differ};
use crate::reconcile::{
    covers_additions, covers_observed, drained_from, drained_slot, has_ref, lemma_contains_push,
    slot_refs_distinct, DeletionVectorReconciler, DvSlot,
};

verus! {

// ---------------------------------------------------------------------
// Positions in the input manifest list and in the addition set
// ---------------------------------------------------------------------

/// Strict lexicographic order on (major, minor) positions.
pub open spec fn pos_lt(m1: int, e1: int, m2: int, e2: int) -> bool {
    m1 < m2 || (m1 == m2 && e1 < e2)
}

/// Entry position (m, e) exists in the list.
pub open spec fn valid_pos(list: ManifestList, m: int, e: int) -> bool {
    0 <= m < list.manifests@.len() && 0 <= e < list.manifests@[m].entries@.len()
}

/// The entry at position (m, e).
pub open spec fn entry_at(list: ManifestList, m: int, e: int) -> ManifestEntry {
    list.manifests@[m].entries@[e]
}

/// Semantic kind of the entry at (m, e), from the classification table.
pub open spec fn entry_kind(list: ManifestList, m: int, e: int) -> Option<EntryKind> {
    classify_spec(list.manifests@[m].content, entry_at(list, m, e).record.file_format)
}

/// A whole manifest is re-registered unchanged exactly when it is a
/// primary-data manifest (data content whose first entry is columnar)
/// and no data files are being removed.
pub open spec fn manifest_carried(m: Manifest, removals: Seq<String>) -> bool {
    &&& removals.len() == 0
    &&& m.content == ContentKind::Data
    &&& m.entries@.len() > 0
    &&& m.entries@[0].record.file_format == FileFormat::Columnar
}

/// Manifest `m` is processed entry by entry rather than carried.
pub open spec fn processed(list: ManifestList, removals: Seq<String>, m: int) -> bool {
    !manifest_carried(list.manifests@[m], removals)
}

/// Entry (m, e) is a primary data file that survives the removal set,
/// in a manifest that is being processed.
pub open spec fn kept_data_at(list: ManifestList, removals: Seq<String>, m: int, e: int) -> bool {
    &&& valid_pos(list, m, e)
    &&& processed(list, removals, m)
    &&& entry_kind(list, m, e) == Some(EntryKind::PrimaryData)
    &&& !path_in(removals, entry_at(list, m, e).record.file_path@)
}

/// Entry (m, e) is a secondary index that survives the blob removal
/// set, in a manifest that is being processed.
pub open spec fn kept_index_at(
    list: ManifestList,
    removals: Seq<String>,
    blob_removals: Seq<String>,
    m: int,
    e: int,
) -> bool {
    &&& valid_pos(list, m, e)
    &&& processed(list, removals, m)
    &&& entry_kind(list, m, e) == Some(EntryKind::SecondaryIndex)
    &&& !path_in(blob_removals, entry_at(list, m, e).record.file_path@)
}

/// The data file referenced by the deletion-vector entry at (m, e).
pub open spec fn dv_ref_at(list: ManifestList, m: int, e: int) -> Seq<char> {
    entry_at(list, m, e).record.referenced_data_file->Some_0@
}

/// Entry (m, e) is a deletion vector whose referenced data file
/// survives the removal set.
pub open spec fn surviving_dv_at(list: ManifestList, removals: Seq<String>, m: int, e: int) -> bool {
    &&& valid_pos(list, m, e)
    &&& entry_kind(list, m, e) == Some(EntryKind::DeletionVector)
    &&& entry_at(list, m, e).record.referenced_data_file is Some
    &&& !path_in(removals, dv_ref_at(list, m, e))
}

// ---------------------------------------------------------------------
// Error conditions
// ---------------------------------------------------------------------

/// Entry (m, e) of a processed manifest is corrupt: its (content kind,
/// file format) pair classifies as nothing, or it is a deletion vector
/// without a referenced data file.
pub open spec fn entry_inconsistent(list: ManifestList, removals: Seq<String>, m: int, e: int) -> bool {
    &&& valid_pos(list, m, e)
    &&& processed(list, removals, m)
    &&& (entry_kind(list, m, e) is None || (entry_kind(list, m, e) == Some(
        EntryKind::DeletionVector,
    ) && entry_at(list, m, e).record.referenced_data_file is None))
}

/// Some processed entry is corrupt.
pub open spec fn has_inconsistent_entry(list: ManifestList, removals: Seq<String>) -> bool {
    exists|m: int, e: int| entry_inconsistent(list, removals, m, e)
}

/// Two distinct surviving deletion-vector entries reference the same
/// data file.
pub open spec fn duplicate_dv_pair(
    list: ManifestList,
    removals: Seq<String>,
    m1: int,
    e1: int,
    m2: int,
    e2: int,
) -> bool {
    &&& surviving_dv_at(list, removals, m1, e1)
    &&& surviving_dv_at(list, removals, m2, e2)
    &&& !(m1 == m2 && e1 == e2)
    &&& dv_ref_at(list, m1, e1) == dv_ref_at(list, m2, e2)
}

/// Some two surviving deletion-vector entries collide.
pub open spec fn has_duplicate_dv(list: ManifestList, removals: Seq<String>) -> bool {
    exists|m1: int, e1: int, m2: int, e2: int| duplicate_dv_pair(list, removals, m1, e1, m2, e2)
}

// ---------------------------------------------------------------------
// The addition set
// ---------------------------------------------------------------------

/// Blob position (a, b) exists in the addition set.
pub open spec fn valid_blob(adds: Seq<(String, Vec<BlobMetadata>)>, a: int, b: int) -> bool {
    0 <= a < adds.len() && 0 <= b < adds[a].1@.len()
}

/// The blob at position (a, b).
pub open spec fn blob_at(adds: Seq<(String, Vec<BlobMetadata>)>, a: int, b: int) -> BlobMetadata {
    adds[a].1@[b]
}

/// The blob carries the secondary-index type tag.
pub open spec fn is_index_blob(blob: BlobMetadata) -> bool {
    blob.blob_type@ == index_blob_tag()
}

/// The blob carries the deletion-vector type tag.
pub open spec fn is_dv_blob(blob: BlobMetadata) -> bool {
    blob.blob_type@ == deletion_vector_blob_tag()
}

/// Every added blob carries one of the two known type tags.
pub open spec fn blobs_typed(adds: Seq<(String, Vec<BlobMetadata>)>) -> bool {
    forall|a: int, b: int|
        valid_blob(adds, a, b) ==> is_index_blob(#[trigger] blob_at(adds, a, b)) || is_dv_blob(
            blob_at(adds, a, b),
        )
}

/// The blob at (a, b) is a deletion-vector blob referencing path `p`.
pub open spec fn dv_references(adds: Seq<(String, Vec<BlobMetadata>)>, a: int, b: int, p: Seq<char>) -> bool {
    &&& valid_blob(adds, a, b)
    &&& is_dv_blob(blob_at(adds, a, b))
    &&& dv_ref_prop(blob_at(adds, a, b)) == Some(p)
}

/// Some added deletion-vector blob references path `p`.
pub open spec fn added_dv_exists(adds: Seq<(String, Vec<BlobMetadata>)>, p: Seq<char>) -> bool {
    exists|a: int, b: int| dv_references(adds, a, b, p)
}

/// The blob at (a, b) cannot be turned into a record of its kind.
pub open spec fn blob_malformed(adds: Seq<(String, Vec<BlobMetadata>)>, a: int, b: int) -> bool {
    &&& valid_blob(adds, a, b)
    &&& ((is_index_blob(blob_at(adds, a, b)) && !index_record_ok(blob_at(adds, a, b))) || (
    is_dv_blob(blob_at(adds, a, b)) && !dv_record_ok(blob_at(adds, a, b))))
}

/// Some added blob is malformed.
pub open spec fn has_malformed_blob(adds: Seq<(String, Vec<BlobMetadata>)>) -> bool {
    exists|a: int, b: int| blob_malformed(adds, a, b)
}

/// All three caller-supplied change sets are empty.
pub open spec fn inputs_empty(
    removals: Seq<String>,
    adds: Seq<(String, Vec<BlobMetadata>)>,
    blob_removals: Seq<String>,
) -> bool {
    removals.len() == 0 && adds.len() == 0 && blob_removals.len() == 0
}

// ---------------------------------------------------------------------
// Output characterization
// ---------------------------------------------------------------------

/// A data-manifest output entry: a kept primary data file.
pub open spec fn data_out_entry(oe: OutputEntry, list: ManifestList, removals: Seq<String>) -> bool {
    match oe {
        OutputEntry::Kept(m, e) => kept_data_at(list, removals, m as int, e as int),
        OutputEntry::Added(_, _, _, _) => false,
    }
}

/// An index-manifest output entry: a kept secondary index, or a record
/// built from an added index blob carrying that blob's sequence number.
pub open spec fn index_out_entry(
    oe: OutputEntry,
    list: ManifestList,
    removals: Seq<String>,
    blob_removals: Seq<String>,
    adds: Seq<(String, Vec<BlobMetadata>)>,
) -> bool {
    match oe {
        OutputEntry::Kept(m, e) => kept_index_at(list, removals, blob_removals, m as int, e as int),
        OutputEntry::Added(a, b, rec, s) => {
            &&& valid_blob(adds, a as int, b as int)
            &&& is_index_blob(blob_at(adds, a as int, b as int))
            &&& index_record_ok(blob_at(adds, a as int, b as int))
            &&& is_index_record(rec, adds[a as int].0@, blob_at(adds, a as int, b as int))
            &&& s == blob_at(adds, a as int, b as int).sequence_number
        },
    }
}

/// A deletion-vector output entry: a surviving existing entry that no
/// addition supersedes, or the record built from the last added
/// deletion-vector blob for its referenced path.
pub open spec fn dv_out_entry(
    oe: OutputEntry,
    list: ManifestList,
    removals: Seq<String>,
    adds: Seq<(String, Vec<BlobMetadata>)>,
) -> bool {
    match oe {
        OutputEntry::Kept(m, e) => {
            &&& surviving_dv_at(list, removals, m as int, e as int)
            &&& !added_dv_exists(adds, dv_ref_at(list, m as int, e as int))
        },
        OutputEntry::Added(a, b, rec, s) => {
            &&& dv_references(adds, a as int, b as int, dv_ref_of(blob_at(adds, a as int, b as int)))
            &&& dv_record_ok(blob_at(adds, a as int, b as int))
            &&& is_dv_record(rec, adds[a as int].0@, blob_at(adds, a as int, b as int))
            &&& s == blob_at(adds, a as int, b as int).sequence_number
            &&& forall|a2: int, b2: int|
                dv_references(adds, a2, b2, dv_ref_of(blob_at(adds, a as int, b as int))) ==> (a2
                    < a as int || (a2 == a as int && b2 <= b as int))
        },
    }
}

/// The referenced data file of a deletion-vector output entry.
pub open spec fn dv_out_ref(oe: OutputEntry, list: ManifestList) -> Seq<char> {
    match oe {
        OutputEntry::Kept(m, e) => dv_ref_at(list, m as int, e as int),
        OutputEntry::Added(_, _, rec, _) => rec.referenced_data_file->Some_0@,
    }
}

/// The carried list is exactly the carried manifests, in order.
pub open spec fn carried_ok(carried: Seq<usize>, list: ManifestList, removals: Seq<String>) -> bool {
    &&& forall|i: int|
        #![trigger carried[i]]
        0 <= i < carried.len() ==> (carried[i] as int) < list.manifests@.len() && !processed(
            list,
            removals,
            carried[i] as int,
        )
    &&& forall|i1: int, i2: int| 0 <= i1 < i2 < carried.len() ==> carried[i1] < carried[i2]
    &&& forall|m: int|
        0 <= m < list.manifests@.len() && !(#[trigger] processed(list, removals, m))
            ==> carried.contains(m as usize)
}

/// The data output is exactly the kept primary data files, in the
/// order they stand in the input list.
pub open spec fn data_out_ok(data: Seq<OutputEntry>, list: ManifestList, removals: Seq<String>) -> bool {
    &&& forall|k: int| #![trigger data[k]] 0 <= k < data.len() ==> data_out_entry(data[k], list, removals)
    &&& forall|m: int, e: int|
        #[trigger] kept_data_at(list, removals, m, e) ==> data.contains(
            OutputEntry::Kept(m as usize, e as usize),
        )
    &&& forall|k1: int, k2: int| 0 <= k1 < k2 < data.len() ==> kept_pos_lt(data[k1], data[k2])
}

/// The index output is exactly the kept secondary indexes and one
/// record per added index blob.
pub open spec fn index_out_ok(
    idx: Seq<OutputEntry>,
    list: ManifestList,
    removals: Seq<String>,
    blob_removals: Seq<String>,
    adds: Seq<(String, Vec<BlobMetadata>)>,
) -> bool {
    &&& forall|k: int|
        #![trigger idx[k]]
        0 <= k < idx.len() ==> index_out_entry(idx[k], list, removals, blob_removals, adds)
    &&& forall|m: int, e: int|
        #[trigger] kept_index_at(list, removals, blob_removals, m, e) ==> idx.contains(
            OutputEntry::Kept(m as usize, e as usize),
        )
    &&& forall|a: int, b: int|
        valid_blob(adds, a, b) && is_index_blob(#[trigger] blob_at(adds, a, b)) ==> exists|k: int|
            #![trigger idx[k]]
            0 <= k < idx.len() && idx[k] is Added && idx[k]->Added_0 == a && idx[k]->Added_1 == b
    &&& forall|k1: int, k2: int| 0 <= k1 < k2 < idx.len() ==> idx[k1] != idx[k2]
}

/// The deletion-vector output holds exactly one record per surviving
/// referenced data file: the freshest added record where one was
/// added, the existing entry otherwise.
pub open spec fn dv_out_ok(
    dv: Seq<OutputEntry>,
    list: ManifestList,
    removals: Seq<String>,
    adds: Seq<(String, Vec<BlobMetadata>)>,
) -> bool {
    &&& forall|k: int| #![trigger dv[k]] 0 <= k < dv.len() ==> dv_out_entry(dv[k], list, removals, adds)
    &&& forall|m: int, e: int|
        #[trigger] surviving_dv_at(list, removals, m, e) && !added_dv_exists(
            adds,
            dv_ref_at(list, m, e),
        ) ==> dv.contains(OutputEntry::Kept(m as usize, e as usize))
    &&& forall|a: int, b: int|
        valid_blob(adds, a, b) && is_dv_blob(#[trigger] blob_at(adds, a, b)) && dv_ref_prop(
            blob_at(adds, a, b),
        ) is Some ==> exists|k: int|
            #![trigger dv[k]]
            0 <= k < dv.len() && dv[k] is Added && dv_out_ref(dv[k], list) == dv_ref_of(
                blob_at(adds, a, b),
            )
    &&& forall|k1: int, k2: int|
        0 <= k1 < k2 < dv.len() ==> dv_out_ref(dv[k1], list) != dv_out_ref(dv[k2], list)
}

/// The whole rewritten output.
pub open spec fn rewrite_output_ok(
    out: NewManifests,
    list: ManifestList,
    removals: Seq<String>,
    adds: Seq<(String, Vec<BlobMetadata>)>,
    blob_removals: Seq<String>,
) -> bool {
    &&& carried_ok(out.carried@, list, removals)
    &&& data_out_ok(out.data@, list, removals)
    &&& index_out_ok(out.indexes@, list, removals, blob_removals, adds)
    &&& dv_out_ok(out.deletion_vectors@, list, removals, adds)
}

// ---------------------------------------------------------------------
// Scan phase helpers
// ---------------------------------------------------------------------

/// `x` is a kept entry at a position strictly before (bm, be).
pub open spec fn kept_before(x: OutputEntry, bm: int, be: int) -> bool {
    x is Kept && pos_lt(x->Kept_0 as int, x->Kept_1 as int, bm, be)
}

/// Kept entries in strictly increasing position order.
pub open spec fn kept_pos_lt(x: OutputEntry, y: OutputEntry) -> bool {
    &&& x is Kept
    &&& y is Kept
    &&& pos_lt(x->Kept_0 as int, x->Kept_1 as int, y->Kept_0 as int, y->Kept_1 as int)
}

/// One observed reconciler slot: a surviving deletion-vector entry at
/// the position its `Kept` entry names, keyed by its referenced path.
pub open spec fn obs_slot_ok(slot: DvSlot, list: ManifestList, removals: Seq<String>) -> bool {
    &&& slot.entry is Kept
    &&& surviving_dv_at(list, removals, slot.entry->Kept_0 as int, slot.entry->Kept_1 as int)
    &&& slot.referenced@ == dv_ref_at(list, slot.entry->Kept_0 as int, slot.entry->Kept_1 as int)
}

/// Some observed slot records position (m, e).
pub open spec fn obs_has_pos(obs: Seq<DvSlot>, m: int, e: int) -> bool {
    exists|j: int|
        #![trigger obs[j]]
        0 <= j < obs.len() && obs[j].entry == OutputEntry::Kept(m as usize, e as usize)
}

/// Pushing keeps every old member of a sequence, and adds the new one.
proof fn lemma_push_contains<T>(s: Seq<T>, x: T, y: T)
    requires
        s.contains(y) || y == x,
    ensures
        s.push(x).contains(y),
{
    if s.contains(y) {
        let k = choose|k: int| 0 <= k < s.len() && s[k] == y;
        assert(s.push(x)[k] == y);
    } else {
        assert(s.push(x)[s.len() as int] == y);
    }
}

/// Pushing a slot keeps every position already recorded, and records
/// the pushed slot's own position.
proof fn lemma_obs_has_pos_push(obs: Seq<DvSlot>, x: DvSlot, m: int, e: int)
    requires
        obs_has_pos(obs, m, e) || x.entry == OutputEntry::Kept(m as usize, e as usize),
    ensures
        obs_has_pos(obs.push(x), m, e),
{
    if obs_has_pos(obs, m, e) {
        let j = choose|j: int|
            #![trigger obs[j]]
            0 <= j < obs.len() && obs[j].entry == OutputEntry::Kept(m as usize, e as usize);
        assert(obs.push(x)[j] == obs[j]);
    } else {
        assert(obs.push(x)[obs.len() as int] == x);
    }
}

/// Contents of the replacement manifest list: the manifests carried
/// over unchanged, and the entries of the up-to-three new manifests.
/// An empty entry list means that manifest is not written at all.
#[derive(PartialEq, Debug)]
pub struct NewManifests {
    /// Indices of input manifests re-registered unchanged.
    pub carried: Vec<usize>,
    /// Entries of the new primary-data manifest.
    pub data: Vec<OutputEntry>,
    /// Entries of the new secondary-index manifest.
    pub indexes: Vec<OutputEntry>,
    /// Entries of the new deletion-vector manifest.
    pub deletion_vectors: Vec<OutputEntry>,
}

/// What a rewrite pass produced: nothing, because no change was
/// requested, or the contents of a replacement manifest list.
#[derive(PartialEq, Debug)]
pub enum RewriteOutcome {
    Unchanged,
    Rewritten(NewManifests),
}


// ---------------------------------------------------------------------
// Scan phase: classify every entry of the current manifest list
// ---------------------------------------------------------------------

/// Stream the existing manifests: carry untouched primary-data
/// manifests over whole, and classify every other entry, keeping
/// surviving data files and indexes and observing surviving deletion
/// vectors in the reconciler. Fails on the first corrupt entry or
/// duplicated deletion-vector reference.
fn scan_manifests(
    list: &ManifestList,
    removals: &Vec<String>,
    blob_removals: &Vec<String>,
    recon: &mut DeletionVectorReconciler,
) -> (r: Result<(Vec<usize>, Vec<OutputEntry>, Vec<OutputEntry>), RewriteError>)
    requires
        old(recon).wf(),
        old(recon).observed().len() == 0,
        old(recon).additions().len() == 0,
    ensures
        final(recon).wf(),
        final(recon).additions().len() == 0,
        r is Err ==> (r == Err::<(Vec<usize>, Vec<OutputEntry>, Vec<OutputEntry>), RewriteError>(
            RewriteError::InconsistentManifest,
        ) && has_inconsistent_entry(*list, removals@)) || (r == Err::<
            (Vec<usize>, Vec<OutputEntry>, Vec<OutputEntry>),
            RewriteError,
        >(RewriteError::DuplicateDeletionVector) && has_duplicate_dv(*list, removals@)),
        r is Ok ==> {
            let (carried, data, idx) = r->Ok_0;
            let bm = list.manifests@.len() as int;
            &&& carried_ok(carried@, *list, removals@)
            &&& data_out_ok(data@, *list, removals@)
            &&& forall|k: int|
                #![trigger idx@[k]]
                0 <= k < idx@.len() ==> index_out_entry(idx@[k], *list, removals@, blob_removals@, Seq::empty())
                    && idx@[k] is Kept
            &&& forall|m: int, e: int|
                #[trigger] kept_index_at(*list, removals@, blob_removals@, m, e) ==> idx@.contains(
                    OutputEntry::Kept(m as usize, e as usize),
                )
            &&& forall|k1: int, k2: int| 0 <= k1 < k2 < idx@.len() ==> kept_pos_lt(idx@[k1], idx@[k2])
            &&& forall|j: int|
                #![trigger final(recon).observed()[j]]
                0 <= j < final(recon).observed().len() ==> obs_slot_ok(
                    final(recon).observed()[j],
                    *list,
                    removals@,
                )
            &&& forall|m: int, e: int|
                #[trigger] surviving_dv_at(*list, removals@, m, e) ==> obs_has_pos(
                    final(recon).observed(),
                    m,
                    e,
                )
            &&& !has_inconsistent_entry(*list, removals@)
            &&& !has_duplicate_dv(*list, removals@)
        },
{
    let mut carried: Vec<usize> = Vec::new();
    let mut data: Vec<OutputEntry> = Vec::new();
    let mut idx: Vec<OutputEntry> = Vec::new();
    let n_manifests = list.manifests.len();
    let mut mi: usize = 0;
    while mi < n_manifests
        invariant
            old(recon).observed().len() == 0,
            old(recon).additions().len() == 0,
            n_manifests == list.manifests@.len(),
            0 <= mi <= n_manifests,
            recon.wf(),
            recon.additions().len() == 0,
            forall|i: int|
                #![trigger carried@[i]]
                0 <= i < carried@.len() ==> (carried@[i] as int) < mi as int && !processed(
                    *list,
                    removals@,
                    carried@[i] as int,
                ),
            forall|i1: int, i2: int|
                0 <= i1 < i2 < carried@.len() ==> carried@[i1] < carried@[i2],
            forall|m: int|
                0 <= m < mi as int && !(#[trigger] processed(*list, removals@, m))
                    ==> carried@.contains(m as usize),
            forall|k: int|
                #![trigger data@[k]]
                0 <= k < data@.len() ==> data_out_entry(data@[k], *list, removals@) && kept_before(
                    data@[k],
                    mi as int,
                    0,
                ),
            forall|k1: int, k2: int|
                0 <= k1 < k2 < data@.len() ==> kept_pos_lt(data@[k1], data@[k2]),
            forall|m: int, e: int|
                #[trigger] kept_data_at(*list, removals@, m, e) && pos_lt(m, e, mi as int, 0)
                    ==> data@.contains(OutputEntry::Kept(m as usize, e as usize)),
            forall|k: int|
                #![trigger idx@[k]]
                0 <= k < idx@.len() ==> kept_index_at(
                    *list,
                    removals@,
                    blob_removals@,
                    idx@[k]->Kept_0 as int,
                    idx@[k]->Kept_1 as int,
                ) && kept_before(idx@[k], mi as int, 0),
            forall|k1: int, k2: int|
                0 <= k1 < k2 < idx@.len() ==> kept_pos_lt(idx@[k1], idx@[k2]),
            forall|m: int, e: int|
                #[trigger] kept_index_at(*list, removals@, blob_removals@, m, e) && pos_lt(
                    m,
                    e,
                    mi as int,
                    0,
                ) ==> idx@.contains(OutputEntry::Kept(m as usize, e as usize)),
            forall|j: int|
                #![trigger recon.observed()[j]]
                0 <= j < recon.observed().len() ==> obs_slot_ok(
                    recon.observed()[j],
                    *list,
                    removals@,
                ) && kept_before(recon.observed()[j].entry, mi as int, 0),
            forall|m: int, e: int|
                #[trigger] surviving_dv_at(*list, removals@, m, e) && pos_lt(m, e, mi as int, 0)
                    ==> obs_has_pos(recon.observed(), m, e),
            forall|m: int, e: int|
                pos_lt(m, e, mi as int, 0) ==> !(#[trigger] entry_inconsistent(
                    *list,
                    removals@,
                    m,
                    e,
                )),
        decreases n_manifests - mi,
    {
        let manifest = &list.manifests[mi];
        let is_carried = removals.len() == 0 && manifest.content == ContentKind::Data
            && manifest.entries.len() > 0 && manifest.entries[0].record.file_format
            == FileFormat::Columnar;
        if is_carried {
            proof {
                assert(manifest_carried(list.manifests@[mi as int], removals@));
            }
            let ghost carried_pre = carried@;
            carried.push(mi);
            proof {
                assert forall|m: int|
                    0 <= m < mi as int + 1 && !(#[trigger] processed(*list, removals@, m)) implies carried@.contains(
                    m as usize,
                ) by {
                    if m < mi as int {
                        assert(carried_pre.contains(m as usize));
                        lemma_contains_push(carried_pre, mi, m as usize);
                    } else {
                        assert(carried@[carried@.len() - 1] == mi);
                        lemma_contains_push(carried_pre, mi, m as usize);
                    }
                }
                assert forall|m: int, e: int|
                    #[trigger] kept_data_at(*list, removals@, m, e) && pos_lt(m, e, mi as int + 1, 0) implies data@.contains(
                    OutputEntry::Kept(m as usize, e as usize),
                ) by {
                    assert(m != mi as int);
                }
                assert forall|m: int, e: int|
                    #[trigger] kept_index_at(*list, removals@, blob_removals@, m, e) && pos_lt(
                        m,
                        e,
                        mi as int + 1,
                        0,
                    ) implies idx@.contains(OutputEntry::Kept(m as usize, e as usize)) by {
                    assert(m != mi as int);
                }
                assert forall|m: int, e: int|
                    #[trigger] surviving_dv_at(*list, removals@, m, e) && pos_lt(
                        m,
                        e,
                        mi as int + 1,
                        0,
                    ) implies obs_has_pos(recon.observed(), m, e) by {
                    if m == mi as int {
                        assert(entry_kind(*list, m, e) != Some(EntryKind::DeletionVector));
                    }
                }
                assert forall|m: int, e: int|
                    pos_lt(m, e, mi as int + 1, 0) implies !(#[trigger] entry_inconsistent(
                    *list,
                    removals@,
                    m,
                    e,
                )) by {
                    if m == mi as int {
                        assert(!processed(*list, removals@, m));
                    }
                }
            }
        } else {
            proof {
                assert(processed(*list, removals@, mi as int));
            }
            let n_entries = manifest.entries.len();
            let mut ei: usize = 0;
            while ei < n_entries
                invariant
                    old(recon).observed().len() == 0,
                    old(recon).additions().len() == 0,
                    n_manifests == list.manifests@.len(),
                    0 <= mi < n_manifests,
                    *manifest == list.manifests@[mi as int],
                    n_entries == list.manifests@[mi as int].entries@.len(),
                    0 <= ei <= n_entries,
                    processed(*list, removals@, mi as int),
                    recon.wf(),
                    recon.additions().len() == 0,
                    forall|i: int|
                        #![trigger carried@[i]]
                        0 <= i < carried@.len() ==> (carried@[i] as int) < mi as int && !processed(
                            *list,
                            removals@,
                            carried@[i] as int,
                        ),
                    forall|i1: int, i2: int|
                        0 <= i1 < i2 < carried@.len() ==> carried@[i1] < carried@[i2],
                    forall|m: int|
                        0 <= m < mi as int && !(#[trigger] processed(*list, removals@, m))
                            ==> carried@.contains(m as usize),
                    forall|k: int|
                        #![trigger data@[k]]
                        0 <= k < data@.len() ==> data_out_entry(data@[k], *list, removals@)
                            && kept_before(data@[k], mi as int, ei as int),
                    forall|k1: int, k2: int|
                        0 <= k1 < k2 < data@.len() ==> kept_pos_lt(data@[k1], data@[k2]),
                    forall|m: int, e: int|
                        #[trigger] kept_data_at(*list, removals@, m, e) && pos_lt(
                            m,
                            e,
                            mi as int,
                            ei as int,
                        ) ==> data@.contains(OutputEntry::Kept(m as usize, e as usize)),
                    forall|k: int|
                        #![trigger idx@[k]]
                        0 <= k < idx@.len() ==> kept_index_at(
                            *list,
                            removals@,
                            blob_removals@,
                            idx@[k]->Kept_0 as int,
                            idx@[k]->Kept_1 as int,
                        ) && kept_before(idx@[k], mi as int, ei as int),
                    forall|k1: int, k2: int|
                        0 <= k1 < k2 < idx@.len() ==> kept_pos_lt(idx@[k1], idx@[k2]),
                    forall|m: int, e: int|
                        #[trigger] kept_index_at(*list, removals@, blob_removals@, m, e) && pos_lt(
                            m,
                            e,
                            mi as int,
                            ei as int,
                        ) ==> idx@.contains(OutputEntry::Kept(m as usize, e as usize)),
                    forall|j: int|
                        #![trigger recon.observed()[j]]
                        0 <= j < recon.observed().len() ==> obs_slot_ok(
                            recon.observed()[j],
                            *list,
                            removals@,
                        ) && kept_before(recon.observed()[j].entry, mi as int, ei as int),
                    forall|m: int, e: int|
                        #[trigger] surviving_dv_at(*list, removals@, m, e) && pos_lt(
                            m,
                            e,
                            mi as int,
                            ei as int,
                        ) ==> obs_has_pos(recon.observed(), m, e),
                    forall|m: int, e: int|
                        pos_lt(m, e, mi as int, ei as int) ==> !(#[trigger] entry_inconsistent(
                            *list,
                            removals@,
                            m,
                            e,
                        )),
                decreases n_entries - ei,
            {
                let entry = &manifest.entries[ei];
                let kind = match classify(manifest.content, entry.record.file_format) {
                    Ok(k) => k,
                    Err(_) => {
                        proof {
                            assert(entry_inconsistent(*list, removals@, mi as int, ei as int));
                        }
                        return Err(RewriteError::InconsistentManifest);
                    },
                };
                match kind {
                    EntryKind::PrimaryData => {
                        let ghost data_pre = data@;
                        if !contains_path(removals, &entry.record.file_path) {
                            data.push(OutputEntry::Kept(mi, ei));
                        }
                        proof {
                            assert forall|k: int|
                                #![trigger data@[k]]
                                0 <= k < data@.len() implies data_out_entry(
                                data@[k],
                                *list,
                                removals@,
                            ) && kept_before(data@[k], mi as int, ei as int + 1) by {
                                if k < data_pre.len() {
                                    assert(data@[k] == data_pre[k]);
                                } else {
                                    assert(data@[k] == OutputEntry::Kept(mi, ei));
                                    assert(kept_data_at(*list, removals@, mi as int, ei as int));
                                }
                            }
                            assert forall|k1: int, k2: int|
                                0 <= k1 < k2 < data@.len() implies kept_pos_lt(
                                data@[k1],
                                data@[k2],
                            ) by {
                                assert(data@[k1] == data_pre[k1]);
                                if k2 < data_pre.len() {
                                    assert(data@[k2] == data_pre[k2]);
                                } else {
                                    assert(data@[k2] == OutputEntry::Kept(mi, ei));
                                    assert(kept_before(data_pre[k1], mi as int, ei as int));
                                }
                            }
                            assert forall|m: int, e: int|
                                #[trigger] kept_data_at(*list, removals@, m, e) && pos_lt(
                                    m,
                                    e,
                                    mi as int,
                                    ei as int + 1,
                                ) implies data@.contains(OutputEntry::Kept(m as usize, e as usize)) by {
                                if pos_lt(m, e, mi as int, ei as int) {
                                    assert(data_pre.contains(
                                        OutputEntry::Kept(m as usize, e as usize),
                                    ));
                                    if data@ != data_pre {
                                        lemma_contains_push(
                                            data_pre,
                                            OutputEntry::Kept(mi, ei),
                                            OutputEntry::Kept(m as usize, e as usize),
                                        );
                                    }
                                } else {
                                    assert(m == mi as int && e == ei as int);
                                    assert(data@[data@.len() - 1] == OutputEntry::Kept(mi, ei));
                                }
                            }
                        }
                    },
                    EntryKind::SecondaryIndex => {
                        let ghost idx_pre = idx@;
                        if !contains_path(blob_removals, &entry.record.file_path) {
                            idx.push(OutputEntry::Kept(mi, ei));
                        }
                        proof {
                            assert forall|k: int|
                                #![trigger idx@[k]]
                                0 <= k < idx@.len() implies kept_index_at(
                                *list,
                                removals@,
                                blob_removals@,
                                idx@[k]->Kept_0 as int,
                                idx@[k]->Kept_1 as int,
                            ) && kept_before(idx@[k], mi as int, ei as int + 1) by {
                                if k < idx_pre.len() {
                                    assert(idx@[k] == idx_pre[k]);
                                } else {
                                    assert(idx@[k] == OutputEntry::Kept(mi, ei));
                                    assert(kept_index_at(
                                        *list,
                                        removals@,
                                        blob_removals@,
                                        mi as int,
                                        ei as int,
                                    ));
                                }
                            }
                            assert forall|k1: int, k2: int|
                                0 <= k1 < k2 < idx@.len() implies kept_pos_lt(
                                idx@[k1],
                                idx@[k2],
                            ) by {
                                assert(idx@[k1] == idx_pre[k1]);
                                if k2 < idx_pre.len() {
                                    assert(idx@[k2] == idx_pre[k2]);
                                } else {
                                    assert(idx@[k2] == OutputEntry::Kept(mi, ei));
                                    assert(kept_before(idx_pre[k1], mi as int, ei as int));
                                }
                            }
                            assert forall|m: int, e: int|
                                #[trigger] kept_index_at(*list, removals@, blob_removals@, m, e)
                                    && pos_lt(m, e, mi as int, ei as int + 1) implies idx@.contains(
                                OutputEntry::Kept(m as usize, e as usize),
                            ) by {
                                if pos_lt(m, e, mi as int, ei as int) {
                                    assert(idx_pre.contains(
                                        OutputEntry::Kept(m as usize, e as usize),
                                    ));
                                    if idx@ != idx_pre {
                                        lemma_contains_push(
                                            idx_pre,
                                            OutputEntry::Kept(mi, ei),
                                            OutputEntry::Kept(m as usize, e as usize),
                                        );
                                    }
                                } else {
                                    assert(m == mi as int && e == ei as int);
                                    assert(idx@[idx@.len() - 1] == OutputEntry::Kept(mi, ei));
                                }
                            }
                        }
                    },
                    EntryKind::DeletionVector => {
                        let referenced = match &entry.record.referenced_data_file {
                            Some(p) => p,
                            None => {
                                proof {
                                    assert(entry_inconsistent(
                                        *list,
                                        removals@,
                                        mi as int,
                                        ei as int,
                                    ));
                                }
                                return Err(RewriteError::InconsistentManifest);
                            },
                        };
                        let ghost obs_pre = recon.observed();
                        match recon.observe_existing(referenced, mi, ei, removals) {
                            Ok(_) => {
                                proof {
                                    if !path_in(removals@, referenced@) {
                                        assert(recon.observed() == obs_pre.push(
                                            (DvSlot {
                                                referenced: *referenced,
                                                entry: OutputEntry::Kept(mi, ei),
                                            }),
                                        ));
                                    }
                                    assert forall|j: int|
                                        #![trigger recon.observed()[j]]
                                        0 <= j < recon.observed().len() implies obs_slot_ok(
                                        recon.observed()[j],
                                        *list,
                                        removals@,
                                    ) && kept_before(
                                        recon.observed()[j].entry,
                                        mi as int,
                                        ei as int + 1,
                                    ) by {
                                        if j < obs_pre.len() {
                                            assert(recon.observed()[j] == obs_pre[j]);
                                        } else {
                                            assert(recon.observed()[j].entry == OutputEntry::Kept(
                                                mi,
                                                ei,
                                            ));
                                            assert(recon.observed()[j].referenced@ == referenced@);
                                            assert(surviving_dv_at(
                                                *list,
                                                removals@,
                                                mi as int,
                                                ei as int,
                                            ));
                                        }
                                    }
                                    assert forall|m: int, e: int|
                                        #[trigger] surviving_dv_at(*list, removals@, m, e)
                                            && pos_lt(m, e, mi as int, ei as int + 1) implies obs_has_pos(
                                        recon.observed(),
                                        m,
                                        e,
                                    ) by {
                                        if pos_lt(m, e, mi as int, ei as int) {
                                            assert(obs_has_pos(obs_pre, m, e));
                                            if recon.observed() != obs_pre {
                                                lemma_obs_has_pos_push(
                                                    obs_pre,
                                                    (DvSlot {
                                                        referenced: *referenced,
                                                        entry: OutputEntry::Kept(mi, ei),
                                                    }),
                                                    m,
                                                    e,
                                                );
                                            }
                                        } else {
                                            assert(m == mi as int && e == ei as int);
                                            assert(!path_in(removals@, referenced@));
                                            assert(recon.observed()[recon.observed().len() - 1].entry
                                                == OutputEntry::Kept(m as usize, e as usize));
                                        }
                                    }
                                }
                            },
                            Err(_) => {
                                proof {
                                    assert(!path_in(removals@, referenced@));
                                    assert(has_ref(obs_pre, referenced@));
                                    let j = choose|j: int|
                                        0 <= j < obs_pre.len() && obs_pre[j].referenced@
                                            == referenced@;
                                    let prior = obs_pre[j];
                                    assert(obs_slot_ok(prior, *list, removals@));
                                    assert(surviving_dv_at(*list, removals@, mi as int, ei as int));
                                    assert(duplicate_dv_pair(
                                        *list,
                                        removals@,
                                        prior.entry->Kept_0 as int,
                                        prior.entry->Kept_1 as int,
                                        mi as int,
                                        ei as int,
                                    ));
                                }
                                return Err(RewriteError::DuplicateDeletionVector);
                            },
                        }
                    },
                }
                ei = ei + 1;
            }
            proof {
                assert forall|m: int, e: int|
                    #[trigger] kept_data_at(*list, removals@, m, e) && pos_lt(m, e, mi as int + 1, 0) implies data@.contains(
                    OutputEntry::Kept(m as usize, e as usize),
                ) by {
                    assert(pos_lt(m, e, mi as int, n_entries as int));
                }
                assert forall|m: int, e: int|
                    #[trigger] kept_index_at(*list, removals@, blob_removals@, m, e) && pos_lt(
                        m,
                        e,
                        mi as int + 1,
                        0,
                    ) implies idx@.contains(OutputEntry::Kept(m as usize, e as usize)) by {
                    assert(pos_lt(m, e, mi as int, n_entries as int));
                }
                assert forall|m: int, e: int|
                    #[trigger] surviving_dv_at(*list, removals@, m, e) && pos_lt(
                        m,
                        e,
                        mi as int + 1,
                        0,
                    ) implies obs_has_pos(recon.observed(), m, e) by {
                    assert(pos_lt(m, e, mi as int, n_entries as int));
                }
                assert forall|m: int, e: int|
                    pos_lt(m, e, mi as int + 1, 0) implies !(#[trigger] entry_inconsistent(
                    *list,
                    removals@,
                    m,
                    e,
                )) by {
                    if entry_inconsistent(*list, removals@, m, e) {
                        assert(pos_lt(m, e, mi as int, n_entries as int));
                    }
                }
                assert forall|m: int|
                    0 <= m < mi as int + 1 && !(#[trigger] processed(*list, removals@, m)) implies carried@.contains(
                    m as usize,
                ) by {
                    assert(m != mi as int);
                }
            }
        }
        mi = mi + 1;
    }
    proof {
        if has_inconsistent_entry(*list, removals@) {
            let (m, e) = choose|m: int, e: int| entry_inconsistent(*list, removals@, m, e);
            assert(pos_lt(m, e, n_manifests as int, 0));
            assert(false);
        }
        if has_duplicate_dv(*list, removals@) {
            let (m1, e1, m2, e2) = choose|m1: int, e1: int, m2: int, e2: int|
                duplicate_dv_pair(*list, removals@, m1, e1, m2, e2);
            assert(surviving_dv_at(*list, removals@, m1, e1));
            assert(surviving_dv_at(*list, removals@, m2, e2));
            assert(pos_lt(m1, e1, n_manifests as int, 0));
            assert(pos_lt(m2, e2, n_manifests as int, 0));
            assert(list.manifests@[m1].entries.len() == list.manifests@[m1].entries@.len());
            assert(list.manifests@[m2].entries.len() == list.manifests@[m2].entries@.len());
            assert((m1 as usize) as int == m1 && (e1 as usize) as int == e1);
            assert((m2 as usize) as int == m2 && (e2 as usize) as int == e2);
            assert(obs_has_pos(recon.observed(), m1, e1));
            assert(obs_has_pos(recon.observed(), m2, e2));
            let j1 = choose|j: int|
                #![trigger recon.observed()[j]]
                0 <= j < recon.observed().len() && recon.observed()[j].entry == OutputEntry::Kept(
                    m1 as usize,
                    e1 as usize,
                );
            let j2 = choose|j: int|
                #![trigger recon.observed()[j]]
                0 <= j < recon.observed().len() && recon.observed()[j].entry == OutputEntry::Kept(
                    m2 as usize,
                    e2 as usize,
                );
            assert(obs_slot_ok(recon.observed()[j1], *list, removals@));
            assert(obs_slot_ok(recon.observed()[j2], *list, removals@));
            assert(recon.observed()[j1].referenced@ == dv_ref_at(*list, m1, e1));
            assert(recon.observed()[j2].referenced@ == dv_ref_at(*list, m2, e2));
            if j1 == j2 {
                assert(false);
            } else {
                assert(recon.observed()[j1].referenced@ != recon.observed()[j2].referenced@);
                assert(false);
            }
        }
        assert forall|k1: int, k2: int| 0 <= k1 < k2 < idx@.len() implies idx@[k1] != idx@[k2] by {
            assert(kept_pos_lt(idx@[k1], idx@[k2]));
        }
        assert forall|m: int, e: int| #[trigger] kept_data_at(*list, removals@, m, e) implies data@.contains(
            OutputEntry::Kept(m as usize, e as usize),
        ) by {
            assert(pos_lt(m, e, n_manifests as int, 0));
        }
        assert forall|m: int, e: int|
            #[trigger] kept_index_at(*list, removals@, blob_removals@, m, e) implies idx@.contains(
            OutputEntry::Kept(m as usize, e as usize),
        ) by {
            assert(pos_lt(m, e, n_manifests as int, 0));
        }
        assert forall|m: int, e: int| #[trigger] surviving_dv_at(*list, removals@, m, e) implies obs_has_pos(
            recon.observed(),
            m,
            e,
        ) by {
            assert(pos_lt(m, e, n_manifests as int, 0));
        }
        assert forall|k: int|
            #![trigger idx@[k]]
            0 <= k < idx@.len() implies index_out_entry(
            idx@[k],
            *list,
            removals@,
            blob_removals@,
            Seq::empty(),
        ) && idx@[k] is Kept by {
            assert(kept_index_at(
                *list,
                removals@,
                blob_removals@,
                idx@[k]->Kept_0 as int,
                idx@[k]->Kept_1 as int,
            ));
        }
        assert forall|k: int| #![trigger data@[k]] 0 <= k < data@.len() implies data_out_entry(
            data@[k],
            *list,
            removals@,
        ) by {}
    }
    Ok((carried, data, idx))
}


// ---------------------------------------------------------------------
// Addition phase: fold newly written blobs in
// ---------------------------------------------------------------------

/// `oe` is an added entry built from a blob at a position strictly
/// before (bm, be) in the addition set.
pub open spec fn added_before(oe: OutputEntry, bm: int, be: int) -> bool {
    oe is Added && pos_lt(oe->Added_0 as int, oe->Added_1 as int, bm, be)
}

/// Added entries in strictly increasing blob-position order.
pub open spec fn added_pos_lt(x: OutputEntry, y: OutputEntry) -> bool {
    &&& x is Added
    &&& y is Added
    &&& pos_lt(x->Added_0 as int, x->Added_1 as int, y->Added_0 as int, y->Added_1 as int)
}

/// `oe` is the record correctly built from the index blob its position
/// names.
pub open spec fn added_index_entry(oe: OutputEntry, adds: Seq<(String, Vec<BlobMetadata>)>) -> bool {
    &&& oe is Added
    &&& valid_blob(adds, oe->Added_0 as int, oe->Added_1 as int)
    &&& is_index_blob(blob_at(adds, oe->Added_0 as int, oe->Added_1 as int))
    &&& index_record_ok(blob_at(adds, oe->Added_0 as int, oe->Added_1 as int))
    &&& is_index_record(
        oe->Added_2,
        adds[oe->Added_0 as int].0@,
        blob_at(adds, oe->Added_0 as int, oe->Added_1 as int),
    )
    &&& oe->Added_3 == blob_at(adds, oe->Added_0 as int, oe->Added_1 as int).sequence_number
}

/// An addition slot of the reconciler: the record correctly built from
/// the deletion-vector blob its position names, keyed by that blob's
/// referenced path, and built from the last blob before (bm, be)
/// referencing that path.
pub open spec fn add_slot_ok(slot: DvSlot, adds: Seq<(String, Vec<BlobMetadata>)>, bm: int, be: int) -> bool {
    let a = slot.entry->Added_0 as int;
    let b = slot.entry->Added_1 as int;
    &&& slot.entry is Added
    &&& dv_references(adds, a, b, slot.referenced@)
    &&& dv_record_ok(blob_at(adds, a, b))
    &&& is_dv_record(slot.entry->Added_2, adds[a].0@, blob_at(adds, a, b))
    &&& slot.entry->Added_3 == blob_at(adds, a, b).sequence_number
    &&& pos_lt(a, b, bm, be)
    &&& forall|a2: int, b2: int|
        dv_references(adds, a2, b2, slot.referenced@) && pos_lt(a2, b2, bm, be) ==> (a2 < a || (a2
            == a && b2 <= b))
}

/// Some entry of `s` at position `lo` or later was added from blob
/// position (a, b).
pub open spec fn idx_has_added(s: Seq<OutputEntry>, lo: int, a: int, b: int) -> bool {
    exists|k: int|
        #![trigger s[k]]
        lo <= k < s.len() && s[k] is Added && s[k]->Added_0 as int == a && s[k]->Added_1 as int
            == b
}

/// Replacing one slot (keyed the same) and appending keeps every
/// referenced path reachable.
proof fn lemma_has_ref_after_replace(
    adds_pre: Seq<DvSlot>,
    adds_new: Seq<DvSlot>,
    j: int,
    x: DvSlot,
    p: Seq<char>,
)
    requires
        0 <= j < adds_pre.len(),
        adds_new == adds_pre.remove(j).push(x),
        has_ref(adds_pre, p),
        adds_pre[j].referenced@ == x.referenced@,
    ensures
        has_ref(adds_new, p),
{
    adds_pre.remove_ensures(j);
    let t = choose|t: int| 0 <= t < adds_pre.len() && adds_pre[t].referenced@ == p;
    if t == j {
        assert(adds_new[adds_new.len() - 1] == x);
    } else if t < j {
        assert(adds_pre.remove(j)[t] == adds_pre[t]);
        assert(adds_new[t] == adds_pre[t]);
    } else {
        assert(adds_pre.remove(j)[t - 1] == adds_pre[t]);
        assert(adds_new[t - 1] == adds_pre[t]);
    }
}

/// Merge newly written blobs: append one record per index blob to the
/// index output, and record one deletion-vector record per
/// deletion-vector blob in the reconciler, superseding earlier ones
/// for the same referenced path. Fails on the first malformed blob.
fn apply_blob_additions(
    blobs_to_add: &Vec<(String, Vec<BlobMetadata>)>,
    idx: &mut Vec<OutputEntry>,
    recon: &mut DeletionVectorReconciler,
) -> (r: Result<(), RewriteError>)
    requires
        blobs_typed(blobs_to_add@),
        old(recon).wf(),
        old(recon).additions().len() == 0,
    ensures
        final(recon).wf(),
        final(recon).observed() == old(recon).observed(),
        r is Err ==> r == Err::<(), RewriteError>(RewriteError::MalformedBlob)
            && has_malformed_blob(blobs_to_add@),
        r is Ok ==> {
            let adds = blobs_to_add@;
            let bm = adds.len() as int;
            &&& !has_malformed_blob(adds)
            &&& final(idx)@.len() >= old(idx)@.len()
            &&& (forall|k: int| 0 <= k < old(idx)@.len() ==> final(idx)@[k] == old(idx)@[k])
            &&& (forall|k: int|
                #![trigger final(idx)@[k]]
                old(idx)@.len() <= k < final(idx)@.len() ==> added_index_entry(
                    final(idx)@[k],
                    adds,
                ))
            &&& (forall|k1: int, k2: int|
                old(idx)@.len() <= k1 < k2 < final(idx)@.len() ==> added_pos_lt(
                    final(idx)@[k1],
                    final(idx)@[k2],
                ))
            &&& (forall|a: int, b: int|
                valid_blob(adds, a, b) && is_index_blob(#[trigger] blob_at(adds, a, b))
                    ==> idx_has_added(final(idx)@, old(idx)@.len() as int, a, b))
            &&& (forall|j: int|
                #![trigger final(recon).additions()[j]]
                0 <= j < final(recon).additions().len() ==> add_slot_ok(
                    final(recon).additions()[j],
                    adds,
                    bm,
                    0,
                ))
            &&& (forall|a: int, b: int|
                valid_blob(adds, a, b) && is_dv_blob(#[trigger] blob_at(adds, a, b)) ==> has_ref(
                    final(recon).additions(),
                    dv_ref_of(blob_at(adds, a, b)),
                ))
        },
{
    let ghost adds = blobs_to_add@;
    let ghost idx0 = idx@;
    let n_archives = blobs_to_add.len();
    let mut ai: usize = 0;
    while ai < n_archives
        invariant
            blobs_typed(adds),
            adds == blobs_to_add@,
            n_archives == adds.len(),
            0 <= ai <= n_archives,
            recon.wf(),
            recon.observed() == old(recon).observed(),
            idx@.len() >= idx0.len(),
            forall|k: int| 0 <= k < idx0.len() ==> idx@[k] == idx0[k],
            forall|k: int|
                #![trigger idx@[k]]
                idx0.len() <= k < idx@.len() ==> added_index_entry(idx@[k], adds) && added_before(
                    idx@[k],
                    ai as int,
                    0,
                ),
            forall|k1: int, k2: int|
                idx0.len() <= k1 < k2 < idx@.len() ==> added_pos_lt(idx@[k1], idx@[k2]),
            forall|a: int, b: int|
                valid_blob(adds, a, b) && is_index_blob(#[trigger] blob_at(adds, a, b)) && pos_lt(
                    a,
                    b,
                    ai as int,
                    0,
                ) ==> idx_has_added(idx@, idx0.len() as int, a, b),
            forall|j: int|
                #![trigger recon.additions()[j]]
                0 <= j < recon.additions().len() ==> add_slot_ok(
                    recon.additions()[j],
                    adds,
                    ai as int,
                    0,
                ),
            forall|a: int, b: int|
                valid_blob(adds, a, b) && is_dv_blob(#[trigger] blob_at(adds, a, b)) && pos_lt(
                    a,
                    b,
                    ai as int,
                    0,
                ) ==> has_ref(recon.additions(), dv_ref_of(blob_at(adds, a, b))),
            forall|a: int, b: int|
                pos_lt(a, b, ai as int, 0) ==> !(#[trigger] blob_malformed(adds, a, b)),
        decreases n_archives - ai,
    {
        let archive = &blobs_to_add[ai].0;
        let blob_list = &blobs_to_add[ai].1;
        let n_blobs = blob_list.len();
        let mut bi: usize = 0;
        while bi < n_blobs
            invariant
                blobs_typed(adds),
                adds == blobs_to_add@,
                n_archives == adds.len(),
                0 <= ai < n_archives,
                *archive == adds[ai as int].0,
                *blob_list == adds[ai as int].1,
                n_blobs == adds[ai as int].1@.len(),
                0 <= bi <= n_blobs,
                recon.wf(),
                recon.observed() == old(recon).observed(),
                idx@.len() >= idx0.len(),
                forall|k: int| 0 <= k < idx0.len() ==> idx@[k] == idx0[k],
                forall|k: int|
                    #![trigger idx@[k]]
                    idx0.len() <= k < idx@.len() ==> added_index_entry(idx@[k], adds)
                        && added_before(idx@[k], ai as int, bi as int),
                forall|k1: int, k2: int|
                    idx0.len() <= k1 < k2 < idx@.len() ==> added_pos_lt(idx@[k1], idx@[k2]),
                forall|a: int, b: int|
                    valid_blob(adds, a, b) && is_index_blob(#[trigger] blob_at(adds, a, b))
                        && pos_lt(a, b, ai as int, bi as int) ==> idx_has_added(
                        idx@,
                        idx0.len() as int,
                        a,
                        b,
                    ),
                forall|j: int|
                    #![trigger recon.additions()[j]]
                    0 <= j < recon.additions().len() ==> add_slot_ok(
                        recon.additions()[j],
                        adds,
                        ai as int,
                        bi as int,
                    ),
                forall|a: int, b: int|
                    valid_blob(adds, a, b) && is_dv_blob(#[trigger] blob_at(adds, a, b)) && pos_lt(
                        a,
                        b,
                        ai as int,
                        bi as int,
                    ) ==> has_ref(recon.additions(), dv_ref_of(blob_at(adds, a, b))),
                forall|a: int, b: int|
                    pos_lt(a, b, ai as int, bi as int) ==> !(#[trigger] blob_malformed(
                        adds,
                        a,
                        b,
                    )),
            decreases n_blobs - bi,
        {
            let blob = &blob_list[bi];
            proof {
                assert(*blob == blob_at(adds, ai as int, bi as int));
            }
            if has_index_tag(blob) {
                let rec = match record_for_index(archive.as_str(), blob) {
                    Ok(rec) => rec,
                    Err(_) => {
                        proof {
                            assert(blob_malformed(adds, ai as int, bi as int));
                        }
                        return Err(RewriteError::MalformedBlob);
                    },
                };
                let ghost idx_pre = idx@;
                idx.push(OutputEntry::Added(ai, bi, rec, blob.sequence_number));
                proof {
                    assert forall|k: int|
                        #![trigger idx@[k]]
                        idx0.len() <= k < idx@.len() implies added_index_entry(idx@[k], adds)
                        && added_before(idx@[k], ai as int, bi as int + 1) by {
                        if k < idx_pre.len() {
                            assert(idx@[k] == idx_pre[k]);
                        } else {
                            assert(idx@[k] == OutputEntry::Added(
                                ai,
                                bi,
                                rec,
                                blob.sequence_number,
                            ));
                        }
                    }
                    assert forall|k1: int, k2: int|
                        idx0.len() <= k1 < k2 < idx@.len() implies added_pos_lt(
                        idx@[k1],
                        idx@[k2],
                    ) by {
                        assert(idx@[k1] == idx_pre[k1]);
                        if k2 < idx_pre.len() {
                            assert(idx@[k2] == idx_pre[k2]);
                        } else {
                            assert(idx@[k2] == OutputEntry::Added(
                                ai,
                                bi,
                                rec,
                                blob.sequence_number,
                            ));
                            assert(added_before(idx_pre[k1], ai as int, bi as int));
                        }
                    }
                    assert forall|k: int| 0 <= k < idx0.len() implies idx@[k] == idx0[k] by {
                        assert(idx@[k] == idx_pre[k]);
                    }
                    assert forall|a: int, b: int|
                        valid_blob(adds, a, b) && is_index_blob(#[trigger] blob_at(adds, a, b))
                            && pos_lt(a, b, ai as int, bi as int + 1) implies idx_has_added(
                        idx@,
                        idx0.len() as int,
                        a,
                        b,
                    ) by {
                        if pos_lt(a, b, ai as int, bi as int) {
                            assert(idx_has_added(idx_pre, idx0.len() as int, a, b));
                            let k = choose|k: int|
                                #![trigger idx_pre[k]]
                                idx0.len() <= k < idx_pre.len() && idx_pre[k] is Added
                                    && idx_pre[k]->Added_0 as int == a && idx_pre[k]->Added_1 as int
                                    == b;
                            assert(idx@[k] == idx_pre[k]);
                        } else {
                            assert(idx@[idx@.len() - 1] == OutputEntry::Added(
                                ai,
                                bi,
                                rec,
                                blob.sequence_number,
                            ));
                        }
                    }
                    lemma_blob_tags_differ();
                    assert(!is_dv_blob(blob_at(adds, ai as int, bi as int)));
                    assert(!blob_malformed(adds, ai as int, bi as int));
                    assert forall|a: int, b: int|
                        pos_lt(a, b, ai as int, bi as int + 1) implies !(#[trigger] blob_malformed(
                        adds,
                        a,
                        b,
                    )) by {
                        if a == ai as int && b == bi as int {
                            assert(!blob_malformed(adds, a, b));
                        }
                    }
                    assert forall|j: int|
                        #![trigger recon.additions()[j]]
                        0 <= j < recon.additions().len() implies add_slot_ok(
                        recon.additions()[j],
                        adds,
                        ai as int,
                        bi as int + 1,
                    ) by {
                        let s = recon.additions()[j];
                        assert(add_slot_ok(s, adds, ai as int, bi as int));
                        assert forall|a2: int, b2: int|
                            dv_references(adds, a2, b2, s.referenced@) && pos_lt(
                                a2,
                                b2,
                                ai as int,
                                bi as int + 1,
                            ) implies (a2 < s.entry->Added_0 as int || (a2 == s.entry->Added_0 as int
                            && b2 <= s.entry->Added_1 as int)) by {
                            if a2 == ai as int && b2 == bi as int {
                                assert(false);
                            } else {
                                assert(pos_lt(a2, b2, ai as int, bi as int));
                            }
                        }
                    }
                    assert forall|a: int, b: int|
                        valid_blob(adds, a, b) && is_dv_blob(#[trigger] blob_at(adds, a, b))
                            && pos_lt(a, b, ai as int, bi as int + 1) implies has_ref(
                        recon.additions(),
                        dv_ref_of(blob_at(adds, a, b)),
                    ) by {
                        if a == ai as int && b == bi as int {
                            assert(false);
                        } else {
                            assert(pos_lt(a, b, ai as int, bi as int));
                        }
                    }
                }
            } else {
                proof {
                    assert(is_dv_blob(blob_at(adds, ai as int, bi as int)));
                }
                let (refp, rec) = match record_for_deletion_vector(archive.as_str(), blob) {
                    Ok(pair) => pair,
                    Err(_) => {
                        proof {
                            assert(blob_malformed(adds, ai as int, bi as int));
                        }
                        return Err(RewriteError::MalformedBlob);
                    },
                };
                let ghost a_pre = recon.additions();
                let entry = OutputEntry::Added(ai, bi, rec, blob.sequence_number);
                let ghost new_slot = DvSlot { referenced: refp, entry: entry };
                recon.apply_addition(&refp, entry);
                proof {
                    assert(recon.additions().last() == new_slot);
                    assert(dv_ref_prop(blob_at(adds, ai as int, bi as int)) == Some(refp@));
                    assert(add_slot_ok(new_slot, adds, ai as int, bi as int + 1));
                    assert forall|j: int|
                        #![trigger recon.additions()[j]]
                        0 <= j < recon.additions().len() implies add_slot_ok(
                        recon.additions()[j],
                        adds,
                        ai as int,
                        bi as int + 1,
                    ) by {
                        if j == recon.additions().len() - 1 {
                            assert(recon.additions()[j] == new_slot);
                        } else {
                            let pre_slot: DvSlot = if !has_ref(a_pre, refp@) {
                                assert(recon.additions().drop_last() == a_pre);
                                assert(recon.additions()[j] == a_pre[j]);
                                if a_pre[j].referenced@ == refp@ {
                                    assert(has_ref(a_pre, refp@));
                                }
                                a_pre[j]
                            } else {
                                let t = choose|t: int|
                                    0 <= t < a_pre.len() && a_pre[t].referenced@ == refp@
                                        && recon.additions().drop_last() == a_pre.remove(t);
                                a_pre.remove_ensures(t);
                                assert(recon.additions()[j] == a_pre.remove(t)[j]);
                                if j < t {
                                    assert(a_pre.remove(t)[j] == a_pre[j]);
                                    assert(a_pre[j].referenced@ != a_pre[t].referenced@);
                                    a_pre[j]
                                } else {
                                    assert(a_pre.remove(t)[j] == a_pre[j + 1]);
                                    assert(a_pre[j + 1].referenced@ != a_pre[t].referenced@);
                                    a_pre[j + 1]
                                }
                            };
                            assert(add_slot_ok(pre_slot, adds, ai as int, bi as int));
                            assert(recon.additions()[j] == pre_slot);
                            assert(pre_slot.referenced@ != refp@);
                            assert forall|a2: int, b2: int|
                                dv_references(adds, a2, b2, pre_slot.referenced@) && pos_lt(
                                    a2,
                                    b2,
                                    ai as int,
                                    bi as int + 1,
                                ) implies (a2 < pre_slot.entry->Added_0 as int || (a2
                                == pre_slot.entry->Added_0 as int && b2
                                <= pre_slot.entry->Added_1 as int)) by {
                                if a2 == ai as int && b2 == bi as int {
                                    assert(pre_slot.referenced@ == refp@);
                                    assert(false);
                                } else {
                                    assert(pos_lt(a2, b2, ai as int, bi as int));
                                }
                            }
                        }
                    }
                    assert forall|a: int, b: int|
                        valid_blob(adds, a, b) && is_dv_blob(#[trigger] blob_at(adds, a, b))
                            && pos_lt(a, b, ai as int, bi as int + 1) implies has_ref(
                        recon.additions(),
                        dv_ref_of(blob_at(adds, a, b)),
                    ) by {
                        if pos_lt(a, b, ai as int, bi as int) {
                            assert(has_ref(a_pre, dv_ref_of(blob_at(adds, a, b))));
                            if !has_ref(a_pre, refp@) {
                                let t = choose|t: int|
                                    0 <= t < a_pre.len() && a_pre[t].referenced@ == dv_ref_of(
                                        blob_at(adds, a, b),
                                    );
                                assert(recon.additions().drop_last() == a_pre);
                                assert(recon.additions()[t] == a_pre[t]);
                            } else {
                                let t = choose|t: int|
                                    0 <= t < a_pre.len() && a_pre[t].referenced@ == refp@
                                        && recon.additions().drop_last() == a_pre.remove(t);
                                a_pre.remove_ensures(t);
                                assert(recon.additions() =~= a_pre.remove(t).push(
                                    recon.additions().last(),
                                ));
                                lemma_has_ref_after_replace(
                                    a_pre,
                                    recon.additions(),
                                    t,
                                    recon.additions().last(),
                                    dv_ref_of(blob_at(adds, a, b)),
                                );
                            }
                        } else {
                            assert(recon.additions()[recon.additions().len() - 1].referenced@
                                == refp@);
                            assert(dv_ref_of(blob_at(adds, a, b)) == refp@);
                        }
                    }
                    assert(!is_index_blob(blob_at(adds, ai as int, bi as int)));
                    assert(!blob_malformed(adds, ai as int, bi as int));
                    assert forall|a: int, b: int|
                        pos_lt(a, b, ai as int, bi as int + 1) implies !(#[trigger] blob_malformed(
                        adds,
                        a,
                        b,
                    )) by {
                        if a == ai as int && b == bi as int {
                            assert(!blob_malformed(adds, a, b));
                        }
                    }
                    assert forall|a: int, b: int|
                        valid_blob(adds, a, b) && is_index_blob(#[trigger] blob_at(adds, a, b))
                            && pos_lt(a, b, ai as int, bi as int + 1) implies idx_has_added(
                        idx@,
                        idx0.len() as int,
                        a,
                        b,
                    ) by {
                        if a == ai as int && b == bi as int {
                            assert(false);
                        }
                    }
                }
            }
            bi = bi + 1;
        }
        proof {
            assert forall|k: int|
                #![trigger idx@[k]]
                idx0.len() <= k < idx@.len() implies added_index_entry(idx@[k], adds)
                && added_before(idx@[k], ai as int + 1, 0) by {}
            assert forall|a: int, b: int|
                valid_blob(adds, a, b) && is_index_blob(#[trigger] blob_at(adds, a, b)) && pos_lt(
                    a,
                    b,
                    ai as int + 1,
                    0,
                ) implies idx_has_added(idx@, idx0.len() as int, a, b) by {
                if a == ai as int {
                    assert(b < n_blobs as int);
                    assert(pos_lt(a, b, ai as int, n_blobs as int));
                }
            }
            assert forall|j: int|
                #![trigger recon.additions()[j]]
                0 <= j < recon.additions().len() implies add_slot_ok(
                recon.additions()[j],
                adds,
                ai as int + 1,
                0,
            ) by {
                let s = recon.additions()[j];
                assert(add_slot_ok(s, adds, ai as int, n_blobs as int));
                assert forall|a2: int, b2: int|
                    dv_references(adds, a2, b2, s.referenced@) && pos_lt(a2, b2, ai as int + 1, 0) implies (
                a2 < s.entry->Added_0 as int || (a2 == s.entry->Added_0 as int && b2
                    <= s.entry->Added_1 as int)) by {
                    assert(pos_lt(a2, b2, ai as int, n_blobs as int));
                }
            }
            assert forall|a: int, b: int|
                valid_blob(adds, a, b) && is_dv_blob(#[trigger] blob_at(adds, a, b)) && pos_lt(
                    a,
                    b,
                    ai as int + 1,
                    0,
                ) implies has_ref(recon.additions(), dv_ref_of(blob_at(adds, a, b))) by {
                if a == ai as int {
                    assert(pos_lt(a, b, ai as int, n_blobs as int));
                }
            }
            assert forall|a: int, b: int|
                pos_lt(a, b, ai as int + 1, 0) implies !(#[trigger] blob_malformed(adds, a, b)) by {
                if blob_malformed(adds, a, b) {
                    assert(pos_lt(a, b, ai as int, n_blobs as int));
                }
            }
        }
        ai = ai + 1;
    }
    proof {
        if has_malformed_blob(adds) {
            let (a, b) = choose|a: int, b: int| blob_malformed(adds, a, b);
            assert(pos_lt(a, b, n_archives as int, 0));
            assert(false);
        }
        assert forall|a: int, b: int|
            valid_blob(adds, a, b) && is_index_blob(#[trigger] blob_at(adds, a, b)) implies idx_has_added(
            idx@,
            idx0.len() as int,
            a,
            b,
        ) by {
            assert(pos_lt(a, b, n_archives as int, 0));
        }
        assert forall|a: int, b: int|
            valid_blob(adds, a, b) && is_dv_blob(#[trigger] blob_at(adds, a, b)) implies has_ref(
            recon.additions(),
            dv_ref_of(blob_at(adds, a, b)),
        ) by {
            assert(pos_lt(a, b, n_archives as int, 0));
        }
        assert forall|j: int|
            #![trigger recon.additions()[j]]
            0 <= j < recon.additions().len() implies add_slot_ok(
            recon.additions()[j],
            adds,
            n_archives as int,
            0,
        ) by {}
    }
    Ok(())
}


// ---------------------------------------------------------------------
// The orchestrator
// ---------------------------------------------------------------------

/// Rewrite the table's manifest metadata in one pass.
///
/// `current` is the current snapshot's manifest list, if the table has
/// one; the three sets are the caller-supplied data files to remove
/// (by path), new archive blobs to add (grouped by archive path), and
/// existing blob-backed entries to remove (by path). With all three
/// sets empty the pass does nothing and succeeds. Otherwise it fails
/// with `NoCurrentSnapshot` when there is no manifest list, and with
/// `InconsistentManifest`, `DuplicateDeletionVector` or `MalformedBlob`
/// exactly when the corresponding corruption is present; on success it
/// returns the contents of the replacement manifest list.
pub fn rewrite_manifests(
    current: Option<&ManifestList>,
    data_files_to_remove: &Vec<String>,
    blobs_to_add: &Vec<(String, Vec<BlobMetadata>)>,
    blob_files_to_remove: &Vec<String>,
) -> (r: Result<RewriteOutcome, RewriteError>)
    requires
        blobs_typed(blobs_to_add@),
    ensures
        inputs_empty(data_files_to_remove@, blobs_to_add@, blob_files_to_remove@) ==> r == Ok::<
            RewriteOutcome,
            RewriteError,
        >(RewriteOutcome::Unchanged),
        !inputs_empty(data_files_to_remove@, blobs_to_add@, blob_files_to_remove@) && current
            is None ==> r == Err::<RewriteOutcome, RewriteError>(RewriteError::NoCurrentSnapshot),
        !inputs_empty(data_files_to_remove@, blobs_to_add@, blob_files_to_remove@) && current
            is Some ==> {
            let list = *current->Some_0;
            &&& (r is Ok <==> !has_inconsistent_entry(list, data_files_to_remove@)
                && !has_duplicate_dv(list, data_files_to_remove@) && !has_malformed_blob(
                blobs_to_add@,
            ))
            &&& (r is Ok ==> r->Ok_0 is Rewritten && rewrite_output_ok(
                r->Ok_0->Rewritten_0,
                list,
                data_files_to_remove@,
                blobs_to_add@,
                blob_files_to_remove@,
            ))
            &&& (r == Err::<RewriteOutcome, RewriteError>(RewriteError::InconsistentManifest)
                ==> has_inconsistent_entry(list, data_files_to_remove@))
            &&& (r == Err::<RewriteOutcome, RewriteError>(RewriteError::DuplicateDeletionVector)
                ==> has_duplicate_dv(list, data_files_to_remove@))
            &&& (r == Err::<RewriteOutcome, RewriteError>(RewriteError::MalformedBlob)
                ==> has_malformed_blob(blobs_to_add@))
            &&& r != Err::<RewriteOutcome, RewriteError>(RewriteError::NoCurrentSnapshot)
        },
{
    if data_files_to_remove.len() == 0 && blobs_to_add.len() == 0 && blob_files_to_remove.len()
        == 0 {
        return Ok(RewriteOutcome::Unchanged);
    }
    let list = match current {
        Some(l) => l,
        None => {
            return Err(RewriteError::NoCurrentSnapshot);
        },
    };
    let ghost removals = data_files_to_remove@;
    let ghost adds = blobs_to_add@;
    let ghost blob_removals = blob_files_to_remove@;
    let mut recon = DeletionVectorReconciler::new();
    let (carried, data, mut indexes) = match scan_manifests(
        list,
        data_files_to_remove,
        blob_files_to_remove,
        &mut recon,
    ) {
        Ok(t) => t,
        Err(e) => {
            return Err(e);
        },
    };
    let ghost idx_kept_len = indexes@.len() as int;
    match apply_blob_additions(blobs_to_add, &mut indexes, &mut recon) {
        Ok(_) => {},
        Err(e) => {
            return Err(e);
        },
    }
    let ghost obs_slots = recon.observed();
    let ghost add_slots = recon.additions();
    let mut slots = recon.drain();
    let ghost slots0 = slots@;
    let ghost n_slots = slots0.len() as int;
    proof {
        // every drained slot is a valid deletion-vector output entry,
        // keyed by that entry's referenced path
        assert forall|k: int|
            0 <= k < n_slots implies dv_out_entry(slots0[k].entry, *list, removals, adds)
            && dv_out_ref(slots0[k].entry, *list) == slots0[k].referenced@ by {
            assert(drained_slot(slots0[k], obs_slots, add_slots, 0, 0));
            if exists|j: int|
                #![trigger obs_slots[j]]
                0 <= j < obs_slots.len() && slots0[k] == obs_slots[j] && !has_ref(
                    add_slots,
                    obs_slots[j].referenced@,
                ) {
                let j = choose|j: int|
                    #![trigger obs_slots[j]]
                    0 <= j < obs_slots.len() && slots0[k] == obs_slots[j] && !has_ref(
                        add_slots,
                        obs_slots[j].referenced@,
                    );
                assert(obs_slot_ok(obs_slots[j], *list, removals));
                if added_dv_exists(adds, obs_slots[j].referenced@) {
                    let (a, b) = choose|a: int, b: int|
                        dv_references(adds, a, b, obs_slots[j].referenced@);
                    assert(has_ref(add_slots, dv_ref_of(blob_at(adds, a, b))));
                    assert(false);
                }
            } else {
                let j = choose|j: int|
                    #![trigger add_slots[j]]
                    0 <= j < add_slots.len() && slots0[k] == add_slots[j];
                assert(add_slot_ok(add_slots[j], adds, adds.len() as int, 0));
                let slot = add_slots[j];
                let a = slot.entry->Added_0 as int;
                let b = slot.entry->Added_1 as int;
                assert forall|a2: int, b2: int|
                    dv_references(adds, a2, b2, dv_ref_of(blob_at(adds, a, b))) implies (a2 < a
                    || (a2 == a && b2 <= b)) by {
                    assert(dv_ref_of(blob_at(adds, a, b)) == slot.referenced@);
                    assert(pos_lt(a2, b2, adds.len() as int, 0));
                }
            }
        }
        assert(slot_refs_distinct(slots0));
    }
    let mut deletion_vectors: Vec<OutputEntry> = Vec::new();
    while slots.len() > 0
        invariant
            0 <= slots@.len() <= n_slots,
            n_slots == slots0.len(),
            slots@ =~= slots0.subrange(0, slots@.len() as int),
            deletion_vectors@.len() + slots@.len() == n_slots,
            forall|k: int|
                #![trigger deletion_vectors@[k]]
                0 <= k < deletion_vectors@.len() ==> deletion_vectors@[k] == slots0[n_slots - 1
                    - k].entry,
        decreases slots@.len(),
    {
        let slot = slots.pop().unwrap();
        let ghost dv_pre = deletion_vectors@;
        proof {
            assert(slot == slots0[slots@.len() as int]);
        }
        deletion_vectors.push(slot.entry);
        proof {
            assert forall|k: int|
                #![trigger deletion_vectors@[k]]
                0 <= k < deletion_vectors@.len() implies deletion_vectors@[k] == slots0[n_slots - 1
                - k].entry by {
                if k < dv_pre.len() {
                    assert(deletion_vectors@[k] == dv_pre[k]);
                } else {
                    assert(deletion_vectors@[k] == slot.entry);
                }
            }
        }
    }
    proof {
        assert(deletion_vectors@.len() == n_slots);
        // the deletion-vector output is exactly the drained slots
        assert forall|k: int|
            #![trigger deletion_vectors@[k]]
            0 <= k < deletion_vectors@.len() implies dv_out_entry(
            deletion_vectors@[k],
            *list,
            removals,
            adds,
        ) by {
            assert(deletion_vectors@[k] == slots0[n_slots - 1 - k].entry);
        }
        assert forall|m: int, e: int|
            #[trigger] surviving_dv_at(*list, removals, m, e) && !added_dv_exists(
                adds,
                dv_ref_at(*list, m, e),
            ) implies deletion_vectors@.contains(OutputEntry::Kept(m as usize, e as usize)) by {
            assert(obs_has_pos(obs_slots, m, e));
            let j = choose|j: int|
                #![trigger obs_slots[j]]
                0 <= j < obs_slots.len() && obs_slots[j].entry == OutputEntry::Kept(
                    m as usize,
                    e as usize,
                );
            assert(obs_slot_ok(obs_slots[j], *list, removals));
            assert(list.manifests.len() == list.manifests@.len());
            assert(list.manifests@[m].entries.len() == list.manifests@[m].entries@.len());
            assert((m as usize) as int == m && (e as usize) as int == e);
            assert(obs_slots[j].referenced@ == dv_ref_at(*list, m, e));
            if has_ref(add_slots, obs_slots[j].referenced@) {
                let t = choose|t: int|
                    0 <= t < add_slots.len() && add_slots[t].referenced@
                        == obs_slots[j].referenced@;
                assert(add_slot_ok(add_slots[t], adds, adds.len() as int, 0));
                assert(dv_references(
                    adds,
                    add_slots[t].entry->Added_0 as int,
                    add_slots[t].entry->Added_1 as int,
                    dv_ref_at(*list, m, e),
                ));
                assert(added_dv_exists(adds, dv_ref_at(*list, m, e)));
                assert(false);
            }
            assert(covers_observed(slots0, obs_slots, add_slots, 0));
            assert(slots0.contains(obs_slots[j]));
            let k = choose|k: int| 0 <= k < slots0.len() && slots0[k] == obs_slots[j];
            assert(deletion_vectors@[n_slots - 1 - k] == slots0[k].entry);
        }
        assert forall|a: int, b: int|
            valid_blob(adds, a, b) && is_dv_blob(#[trigger] blob_at(adds, a, b)) && dv_ref_prop(
                blob_at(adds, a, b),
            ) is Some implies exists|k: int|
            #![trigger deletion_vectors@[k]]
            0 <= k < deletion_vectors@.len() && deletion_vectors@[k] is Added && dv_out_ref(
                deletion_vectors@[k],
                *list,
            ) == dv_ref_of(blob_at(adds, a, b)) by {
            assert(has_ref(add_slots, dv_ref_of(blob_at(adds, a, b))));
            let t = choose|t: int|
                0 <= t < add_slots.len() && add_slots[t].referenced@ == dv_ref_of(
                    blob_at(adds, a, b),
                );
            assert(add_slot_ok(add_slots[t], adds, adds.len() as int, 0));
            assert(covers_additions(slots0, add_slots, 0));
            assert(slots0.contains(add_slots[t]));
            let k = choose|k: int| 0 <= k < slots0.len() && slots0[k] == add_slots[t];
            assert(deletion_vectors@[n_slots - 1 - k] == slots0[k].entry);
            assert(dv_out_ref(deletion_vectors@[n_slots - 1 - k], *list) == slots0[k].referenced@);
        }
        assert forall|k1: int, k2: int|
            0 <= k1 < k2 < deletion_vectors@.len() implies dv_out_ref(deletion_vectors@[k1], *list)
            != dv_out_ref(deletion_vectors@[k2], *list) by {
            assert(deletion_vectors@[k1] == slots0[n_slots - 1 - k1].entry);
            assert(deletion_vectors@[k2] == slots0[n_slots - 1 - k2].entry);
            assert(dv_out_ref(deletion_vectors@[k1], *list) == slots0[n_slots - 1
                - k1].referenced@);
            assert(dv_out_ref(deletion_vectors@[k2], *list) == slots0[n_slots - 1
                - k2].referenced@);
        }
        // the index output: kept entries first, then one per added blob
        assert forall|k: int|
            #![trigger indexes@[k]]
            0 <= k < indexes@.len() implies index_out_entry(
            indexes@[k],
            *list,
            removals,
            blob_removals,
            adds,
        ) by {
            if k < idx_kept_len {
                assert(kept_index_at(
                    *list,
                    removals,
                    blob_removals,
                    indexes@[k]->Kept_0 as int,
                    indexes@[k]->Kept_1 as int,
                ));
            } else {
                assert(added_index_entry(indexes@[k], adds));
            }
        }
        assert forall|m: int, e: int|
            #[trigger] kept_index_at(*list, removals, blob_removals, m, e) implies indexes@.contains(
            OutputEntry::Kept(m as usize, e as usize),
        ) by {
            let k = choose|k: int|
                0 <= k < idx_kept_len && indexes@[k] == OutputEntry::Kept(m as usize, e as usize);
        }
        assert forall|a: int, b: int|
            valid_blob(adds, a, b) && is_index_blob(#[trigger] blob_at(adds, a, b)) implies exists|k: int|
            #![trigger indexes@[k]]
            0 <= k < indexes@.len() && indexes@[k] is Added && indexes@[k]->Added_0 == a
                && indexes@[k]->Added_1 == b by {
            assert(idx_has_added(indexes@, idx_kept_len, a, b));
            let k = choose|k: int|
                #![trigger indexes@[k]]
                idx_kept_len <= k < indexes@.len() && indexes@[k] is Added
                    && indexes@[k]->Added_0 as int == a && indexes@[k]->Added_1 as int == b;
        }
        assert forall|k1: int, k2: int|
            0 <= k1 < k2 < indexes@.len() implies indexes@[k1] != indexes@[k2] by {
            if k2 < idx_kept_len {
                assert(kept_pos_lt(indexes@[k1], indexes@[k2]));
            } else if k1 >= idx_kept_len {
                assert(added_pos_lt(indexes@[k1], indexes@[k2]));
            } else {
                assert(indexes@[k1] is Kept && indexes@[k2] is Added);
            }
        }
    }
    let out = NewManifests { carried, data, indexes, deletion_vectors };
    Ok(RewriteOutcome::Rewritten(out))
}

} // verus!

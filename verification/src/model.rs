//! Plain data model of the manifest metadata that the rewrite engine
//! works on: content kinds, file formats, blob metadata, file records,
//! manifest entries and the error taxonomy.

use vstd::prelude::*;
use vstd::string::StringExecFns;

verus! {

/// Content kind of a whole manifest file: it either lists data files
/// (and secondary-index blobs) or deletion vectors.
#[derive(Clone, Copy, PartialEq, Eq, Structural, Debug)]
pub enum ContentKind {
    Data,
    Deletes,
}

/// Physical format of the file a manifest entry points at: a columnar
/// data file, or an archive-blob container holding indexes or deletion
/// vectors.
#[derive(Clone, Copy, PartialEq, Eq, Structural, Debug)]
pub enum FileFormat {
    Columnar,
    ArchiveBlob,
}

/// Semantic kind of one manifest entry, derived from the pair
/// (manifest content kind, entry file format).
#[derive(Clone, Copy, PartialEq, Eq, Structural, Debug)]
pub enum EntryKind {
    PrimaryData,
    SecondaryIndex,
    DeletionVector,
}

/// Content type written into a file record.
#[derive(Clone, Copy, PartialEq, Eq, Structural, Debug)]
pub enum ContentType {
    Data,
    EqualityDeletes,
    PositionDeletes,
}

/// Compression codec recorded for an archive blob.
#[derive(Clone, Copy, PartialEq, Eq, Structural, Debug)]
pub enum CompressionCodec {
    Uncompressed,
    Lz4,
    Zstd,
}

/// Why a rewrite pass aborted. Every error aborts the whole pass; no
/// partial manifest list is ever published.
#[derive(Clone, Copy, PartialEq, Eq, Structural, Debug)]
pub enum RewriteError {
    /// Rewrite attempted on a table with no committed snapshot.
    NoCurrentSnapshot,
    /// An entry's (content kind, file format) pair matches no known
    /// classification, or a deletion-vector entry carries no referenced
    /// data file: upstream manifest corruption.
    InconsistentManifest,
    /// Two existing deletion-vector entries reference the same data
    /// file: upstream corruption, never silently resolved.
    DuplicateDeletionVector,
    /// A blob's property map lacks a required key, or a property fails
    /// to parse as the expected numeric type.
    MalformedBlob,
}

/// One accumulated record from an archive-blob writer: everything the
/// writer's footer will say about one named, offset-addressed blob.
#[derive(Clone, PartialEq, Eq, Debug)]
pub struct BlobMetadata {
    /// Type tag distinguishing secondary-index blobs from
    /// deletion-vector blobs.
    pub blob_type: String,
    /// Field ids the blob refers to.
    pub referenced_fields: Vec<i32>,
    /// Snapshot the blob was written for.
    pub snapshot_id: i64,
    /// Sequence number the resulting manifest entry inherits.
    pub sequence_number: i64,
    /// Byte offset of the blob inside its archive file.
    pub offset: u64,
    /// Byte length of the blob inside its archive file.
    pub length: u64,
    /// Compression applied to the blob's bytes.
    pub compression_codec: CompressionCodec,
    /// Free-form properties; carries the cardinality and, for deletion
    /// vectors, the referenced data file path.
    pub properties: Vec<(String, String)>,
}

/// The structured description written into one manifest entry. Blob-backed
/// records (indexes and deletion vectors) carry no column statistics and an
/// empty partition tuple, so the per-column maps below are empty for them;
/// the storage adapter supplies the empty partition tuple when encoding.
#[derive(Clone, PartialEq, Eq, Debug)]
pub struct FileRecord {
    /// What the described file holds.
    pub content: ContentType,
    /// Full path of the described file.
    pub file_path: String,
    /// Physical format of the described file.
    pub file_format: FileFormat,
    /// Number of rows, or the cardinality of a deletion vector.
    pub record_count: u64,
    /// Total file size in bytes; zero is a documented placeholder for
    /// blob-backed entries.
    pub file_size_in_bytes: u64,
    /// Per-column on-disk sizes.
    pub column_sizes: Vec<(i32, u64)>,
    /// Per-column value counts.
    pub value_counts: Vec<(i32, u64)>,
    /// Per-column null counts.
    pub null_value_counts: Vec<(i32, u64)>,
    /// Per-column NaN counts.
    pub nan_value_counts: Vec<(i32, u64)>,
    /// Per-column lower bounds, serialized as binary.
    pub lower_bounds: Vec<(i32, Vec<u8>)>,
    /// Per-column upper bounds, serialized as binary.
    pub upper_bounds: Vec<(i32, Vec<u8>)>,
    /// Implementation-specific key metadata for encryption.
    pub key_metadata: Option<Vec<u8>>,
    /// Split offsets of the described file, sorted ascending.
    pub split_offsets: Vec<i64>,
    /// Field ids used for equality deletes.
    pub equality_ids: Vec<i32>,
    /// Sort order of the described file, if any.
    pub sort_order_id: Option<i32>,
    /// Row id of the first row, if assigned.
    pub first_row_id: Option<i64>,
    /// Partition spec the record was written under.
    pub partition_spec_id: i32,
    /// For deletion vectors only: the data file all deletes reference.
    pub referenced_data_file: Option<String>,
    /// For deletion vectors only: offset of the vector inside its
    /// archive; must bit-match the archive footer's own offset.
    pub content_offset: Option<i64>,
    /// For deletion vectors only: length of the vector inside its
    /// archive; must bit-match the archive footer's own length.
    pub content_size_in_bytes: Option<i64>,
}

/// One row of a manifest file: a file record plus the sequence number
/// it carries; its semantic kind also depends on the containing
/// manifest's content kind.
#[derive(Clone, PartialEq, Eq, Debug)]
pub struct ManifestEntry {
    pub record: FileRecord,
    pub sequence_number: i64,
}

/// One manifest file: a content kind and the entries listed in it.
#[derive(Clone, PartialEq, Eq, Debug)]
pub struct Manifest {
    pub content: ContentKind,
    pub entries: Vec<ManifestEntry>,
}

/// The manifest list of one snapshot: an ordered collection of
/// manifest files, replaced wholesale on rewrite.
#[derive(Clone, PartialEq, Eq, Debug)]
pub struct ManifestList {
    pub manifests: Vec<Manifest>,
}

/// One entry of a rewritten manifest.
///
/// `Kept(m, e)` names entry `e` of manifest `m` of the input manifest
/// list, carried over unchanged together with its sequence number.
/// `Added(a, b, record, sequence_number)` is an entry newly built from
/// blob `b` of archive `a` of the addition set: the record to write
/// and the sequence number it inherits from the blob.
#[derive(Clone, PartialEq, Debug)]
pub enum OutputEntry {
    Kept(usize, usize),
    Added(usize, usize, FileRecord, i64),
}

/// Membership of a path in a caller-supplied removal set.
pub open spec fn path_in(set: Seq<String>, p: Seq<char>) -> bool {
    exists|i: int| 0 <= i < set.len() && set[i]@ == p
}

/// Linear membership test against a removal set.
pub fn contains_path(set: &Vec<String>, p: &String) -> (r: bool)
    ensures
        r == path_in(set@, p@),
{
    let n = set.len();
    let mut i: usize = 0;
    while i < n
        invariant
            n == set@.len(),
            0 <= i <= n,
            forall|k: int| 0 <= k < i ==> set@[k]@ != p@,
        decreases n - i,
    {
        if set[i] == *p {
            return true;
        }
        i = i + 1;
    }
    false
}

/// Type tag of a secondary-index blob.
pub open spec fn index_blob_tag() -> Seq<char> {
    "hash-index-v1"@
}

/// Type tag of a deletion-vector blob.
pub open spec fn deletion_vector_blob_tag() -> Seq<char> {
    "deletion-vector-v1"@
}

/// Property key under which a blob's cardinality is stored.
pub open spec fn cardinality_key() -> Seq<char> {
    "cardinality"@
}

/// Property key under which a deletion-vector blob names the data file
/// its deletes refer to.
pub open spec fn referenced_data_file_key() -> Seq<char> {
    "referenced-data-file"@
}

/// The two blob type tags are distinct.
pub proof fn lemma_blob_tags_differ()
    ensures
        index_blob_tag() != deletion_vector_blob_tag(),
{
    reveal_strlit("hash-index-v1");
    reveal_strlit("deletion-vector-v1");
    assert(index_blob_tag().len() == 13);
    assert(deletion_vector_blob_tag().len() == 18);
}

/// The secondary-index type tag as a string.
pub fn index_blob_tag_str() -> (r: String)
    ensures
        r@ == index_blob_tag(),
{
    String::from_str("hash-index-v1")
}

/// The deletion-vector type tag as a string.
pub fn deletion_vector_blob_tag_str() -> (r: String)
    ensures
        r@ == deletion_vector_blob_tag(),
{
    String::from_str("deletion-vector-v1")
}

/// Does this blob carry the secondary-index type tag?
pub fn has_index_tag(blob: &BlobMetadata) -> (r: bool)
    ensures
        r == (blob.blob_type@ == index_blob_tag()),
{
    let tag = index_blob_tag_str();
    blob.blob_type == tag
}

/// Does this blob carry the deletion-vector type tag?
pub fn has_deletion_vector_tag(blob: &BlobMetadata) -> (r: bool)
    ensures
        r == (blob.blob_type@ == deletion_vector_blob_tag()),
{
    let tag = deletion_vector_blob_tag_str();
    blob.blob_type == tag
}

} // verus!


//! File record builder: turns one blob's metadata into the manifest
//! entry record of the matching kind (secondary index or deletion
//! vector), reading cardinality and referenced-path properties from
//! the blob's property map.

use vstd::prelude::*;
use vstd::string::StringExecFns;

use crate::model::{
    cardinality_key, deletion_vector_blob_tag, index_blob_tag, referenced_data_file_key,
    BlobMetadata, ContentType, FileFormat, FileRecord, RewriteError,
};
use crate::numeric::{parse_u64, parse_u64_spec};

verus! {

/// First value stored under `key` in a property list, if any.
pub open spec fn prop_lookup_from(props: Seq<(String, String)>, key: Seq<char>, i: int) -> Option<
    Seq<char>,
>
    decreases props.len() - i,
{
    if i < 0 || i >= props.len() {
        None
    } else if props[i].0@ == key {
        Some(props[i].1@)
    } else {
        prop_lookup_from(props, key, i + 1)
    }
}

/// Value stored under `key` in a property list, if any.
pub open spec fn prop_lookup(props: Seq<(String, String)>, key: Seq<char>) -> Option<Seq<char>> {
    prop_lookup_from(props, key, 0)
}

/// Look a property up by key.
pub fn lookup_property<'a>(props: &'a Vec<(String, String)>, key: &String) -> (r: Option<
    &'a String,
>)
    ensures
        match r {
            Some(v) => prop_lookup(props@, key@) == Some(v@),
            None => prop_lookup(props@, key@) is None,
        },
{
    let n = props.len();
    let mut i: usize = 0;
    while i < n
        invariant
            n == props@.len(),
            0 <= i <= n,
            prop_lookup(props@, key@) == prop_lookup_from(props@, key@, i as int),
        decreases n - i,
    {
        if props[i].0 == *key {
            return Some(&props[i].1);
        }
        i = i + 1;
    }
    None
}

/// Cardinality a blob advertises: its `cardinality` property parsed as
/// an unsigned 64-bit number.
pub open spec fn blob_cardinality(blob: BlobMetadata) -> Option<u64> {
    match prop_lookup(blob.properties@, cardinality_key()) {
        Some(v) => parse_u64_spec(v),
        None => None,
    }
}

/// Referenced data file path a deletion-vector blob advertises, if any.
pub open spec fn dv_ref_prop(blob: BlobMetadata) -> Option<Seq<char>> {
    prop_lookup(blob.properties@, referenced_data_file_key())
}

/// Can a secondary-index record be built from this blob?
pub open spec fn index_record_ok(blob: BlobMetadata) -> bool {
    blob_cardinality(blob) is Some
}

/// Can a deletion-vector record be built from this blob? Its offset
/// and length must also be representable in the signed record fields,
/// which must bit-match the archive footer.
pub open spec fn dv_record_ok(blob: BlobMetadata) -> bool {
    &&& dv_ref_prop(blob) is Some
    &&& blob_cardinality(blob) is Some
    &&& blob.offset <= i64::MAX
    &&& blob.length <= i64::MAX
}

/// The data file a deletion-vector blob references.
pub open spec fn dv_ref_of(blob: BlobMetadata) -> Seq<char> {
    dv_ref_prop(blob)->Some_0
}

/// Statistics fields a blob-backed record leaves empty.
pub open spec fn empty_stats(rec: FileRecord) -> bool {
    &&& rec.column_sizes@.len() == 0
    &&& rec.value_counts@.len() == 0
    &&& rec.null_value_counts@.len() == 0
    &&& rec.nan_value_counts@.len() == 0
    &&& rec.lower_bounds@.len() == 0
    &&& rec.upper_bounds@.len() == 0
    &&& rec.key_metadata is None
    &&& rec.split_offsets@.len() == 0
    &&& rec.equality_ids@.len() == 0
    &&& rec.sort_order_id is None
    &&& rec.first_row_id is None
    &&& rec.partition_spec_id == 0
}

/// Shape of the record built for a secondary-index blob stored in the
/// archive at `archive`: primary-data content, archive-blob format, the
/// blob's cardinality as record count, no statistics, no reference.
pub open spec fn is_index_record(rec: FileRecord, archive: Seq<char>, blob: BlobMetadata) -> bool {
    &&& rec.content == ContentType::Data
    &&& rec.file_path@ == archive
    &&& rec.file_format == FileFormat::ArchiveBlob
    &&& blob_cardinality(blob) == Some(rec.record_count)
    &&& rec.file_size_in_bytes == 0
    &&& empty_stats(rec)
    &&& rec.referenced_data_file is None
    &&& rec.content_offset is None
    &&& rec.content_size_in_bytes is None
}

/// Shape of the record built for a deletion-vector blob stored in the
/// archive at `archive`: position-deletes content, the blob's referenced
/// data file, and the blob's exact offset and length.
pub open spec fn is_dv_record(rec: FileRecord, archive: Seq<char>, blob: BlobMetadata) -> bool {
    &&& rec.content == ContentType::PositionDeletes
    &&& rec.file_path@ == archive
    &&& rec.file_format == FileFormat::ArchiveBlob
    &&& blob_cardinality(blob) == Some(rec.record_count)
    &&& rec.file_size_in_bytes == 0
    &&& empty_stats(rec)
    &&& rec.referenced_data_file is Some
    &&& rec.referenced_data_file->Some_0@ == dv_ref_of(blob)
    &&& rec.content_offset == Some(blob.offset as i64)
    &&& rec.content_size_in_bytes == Some(blob.length as i64)
}

/// An empty blob-backed record pointing at `archive`, before the
/// kind-specific fields are filled in.
fn blank_blob_record(archive_path: &str) -> (rec: FileRecord)
    ensures
        rec.content == ContentType::Data,
        rec.file_path@ == archive_path@,
        rec.file_format == FileFormat::ArchiveBlob,
        rec.record_count == 0,
        rec.file_size_in_bytes == 0,
        empty_stats(rec),
        rec.referenced_data_file is None,
        rec.content_offset is None,
        rec.content_size_in_bytes is None,
{
    FileRecord {
        content: ContentType::Data,
        file_path: String::from_str(archive_path),
        file_format: FileFormat::ArchiveBlob,
        record_count: 0,
        file_size_in_bytes: 0,
        column_sizes: Vec::new(),
        value_counts: Vec::new(),
        null_value_counts: Vec::new(),
        nan_value_counts: Vec::new(),
        lower_bounds: Vec::new(),
        upper_bounds: Vec::new(),
        key_metadata: None,
        split_offsets: Vec::new(),
        equality_ids: Vec::new(),
        sort_order_id: None,
        first_row_id: None,
        partition_spec_id: 0,
        referenced_data_file: None,
        content_offset: None,
        content_size_in_bytes: None,
    }
}

/// Read and parse the cardinality property of a blob.
fn read_cardinality(blob: &BlobMetadata) -> (r: Result<u64, RewriteError>)
    ensures
        r is Ok <==> blob_cardinality(*blob) is Some,
        r is Ok ==> blob_cardinality(*blob) == Some(r->Ok_0),
        r is Err ==> r == Err::<u64, RewriteError>(RewriteError::MalformedBlob),
{
    let key = String::from_str("cardinality");
    match lookup_property(&blob.properties, &key) {
        Some(v) => match parse_u64(v.as_str()) {
            Some(n) => Ok(n),
            None => Err(RewriteError::MalformedBlob),
        },
        None => Err(RewriteError::MalformedBlob),
    }
}

/// Build the manifest record for one secondary-index blob: fails with
/// `MalformedBlob` exactly when the cardinality property is absent or
/// does not parse.
pub fn record_for_index(archive_path: &str, blob: &BlobMetadata) -> (r: Result<
    FileRecord,
    RewriteError,
>)
    requires
        blob.blob_type@ == index_blob_tag(),
    ensures
        r is Ok <==> index_record_ok(*blob),
        r is Ok ==> is_index_record(r->Ok_0, archive_path@, *blob),
        r is Err ==> r == Err::<FileRecord, RewriteError>(RewriteError::MalformedBlob),
{
    let cardinality = read_cardinality(blob)?;
    let mut rec = blank_blob_record(archive_path);
    rec.record_count = cardinality;
    Ok(rec)
}

/// Build the manifest record for one deletion-vector blob, returning
/// the referenced data file path beside it. Fails with `MalformedBlob`
/// exactly when the referenced-data-file property is absent, the
/// cardinality is absent or does not parse, or the blob's offset or
/// length does not fit the signed record fields.
pub fn record_for_deletion_vector(archive_path: &str, blob: &BlobMetadata) -> (r: Result<
    (String, FileRecord),
    RewriteError,
>)
    requires
        blob.blob_type@ == deletion_vector_blob_tag(),
    ensures
        r is Ok <==> dv_record_ok(*blob),
        r is Ok ==> r->Ok_0.0@ == dv_ref_of(*blob),
        r is Ok ==> is_dv_record(r->Ok_0.1, archive_path@, *blob),
        r is Err ==> r == Err::<(String, FileRecord), RewriteError>(RewriteError::MalformedBlob),
{
    let key = String::from_str("referenced-data-file");
    let referenced: String = match lookup_property(&blob.properties, &key) {
        Some(v) => v.clone(),
        None => {
            return Err(RewriteError::MalformedBlob);
        },
    };
    let cardinality = read_cardinality(blob)?;
    if blob.offset > i64::MAX as u64 || blob.length > i64::MAX as u64 {
        return Err(RewriteError::MalformedBlob);
    }
    let mut rec = blank_blob_record(archive_path);
    rec.content = ContentType::PositionDeletes;
    rec.record_count = cardinality;
    rec.referenced_data_file = Some(referenced.clone());
    rec.content_offset = Some(blob.offset as i64);
    rec.content_size_in_bytes = Some(blob.length as i64);
    Ok((referenced, rec))
}

} // verus!

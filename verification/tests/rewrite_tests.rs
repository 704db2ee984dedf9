use manifest_rewrite::classify::classify;
use manifest_rewrite::model::{
    BlobMetadata, CompressionCodec, ContentKind, ContentType, EntryKind, FileFormat, FileRecord,
    Manifest, ManifestEntry, ManifestList, OutputEntry, RewriteError,
};
use manifest_rewrite::records::{record_for_deletion_vector, record_for_index};
use manifest_rewrite::rewrite::{rewrite_manifests, RewriteOutcome};

fn record(content: ContentType, path: &str, format: FileFormat, referenced: Option<&str>) -> FileRecord {
    FileRecord {
        content,
        file_path: path.to_string(),
        file_format: format,
        record_count: 0,
        file_size_in_bytes: 0,
        column_sizes: Vec::new(),
        value_counts: Vec::new(),
        null_value_counts: Vec::new(),
        nan_value_counts: Vec::new(),
        lower_bounds: Vec::new(),
        upper_bounds: Vec::new(),
        key_metadata: None,
        split_offsets: Vec::new(),
        equality_ids: Vec::new(),
        sort_order_id: None,
        first_row_id: None,
        partition_spec_id: 0,
        referenced_data_file: referenced.map(|s| s.to_string()),
        content_offset: None,
        content_size_in_bytes: None,
    }
}

fn data_entry(path: &str, seq: i64) -> ManifestEntry {
    ManifestEntry { record: record(ContentType::Data, path, FileFormat::Columnar, None), sequence_number: seq }
}

fn dv_entry(archive: &str, referenced: &str, seq: i64) -> ManifestEntry {
    ManifestEntry {
        record: record(ContentType::PositionDeletes, archive, FileFormat::ArchiveBlob, Some(referenced)),
        sequence_number: seq,
    }
}

fn props(pairs: &[(&str, &str)]) -> Vec<(String, String)> {
    pairs.iter().map(|(k, v)| (k.to_string(), v.to_string())).collect()
}

fn blob(tag: &str, properties: Vec<(String, String)>, offset: u64, length: u64, seq: i64) -> BlobMetadata {
    BlobMetadata {
        blob_type: tag.to_string(),
        referenced_fields: Vec::new(),
        snapshot_id: 1,
        sequence_number: seq,
        offset,
        length,
        compression_codec: CompressionCodec::Uncompressed,
        properties,
    }
}

fn dv_blob(referenced: &str, cardinality: &str, offset: u64, length: u64, seq: i64) -> BlobMetadata {
    blob(
        "deletion-vector-v1",
        props(&[("referenced-data-file", referenced), ("cardinality", cardinality)]),
        offset,
        length,
        seq,
    )
}

fn no_removals() -> Vec<String> {
    Vec::new()
}

fn paths(list: &[&str]) -> Vec<String> {
    list.iter().map(|s| s.to_string()).collect()
}

#[test]
fn test_rewrite_empty_inputs_is_unchanged() {
    let list = ManifestList { manifests: vec![Manifest { content: ContentKind::Data, entries: vec![data_entry("a.parquet", 3)] }] };
    let r = rewrite_manifests(Some(&list), &no_removals(), &Vec::new(), &no_removals());
    assert_eq!(r, Ok(RewriteOutcome::Unchanged));
    // the fast exit applies even before the snapshot is consulted
    let r2 = rewrite_manifests(None, &no_removals(), &Vec::new(), &no_removals());
    assert_eq!(r2, Ok(RewriteOutcome::Unchanged));
}

#[test]
fn test_rewrite_without_snapshot_fails() {
    let r = rewrite_manifests(None, &paths(&["a.parquet"]), &Vec::new(), &no_removals());
    assert_eq!(r, Err(RewriteError::NoCurrentSnapshot));
}

#[test]
fn test_classify_table() {
    assert_eq!(classify(ContentKind::Data, FileFormat::Columnar), Ok(EntryKind::PrimaryData));
    assert_eq!(classify(ContentKind::Data, FileFormat::ArchiveBlob), Ok(EntryKind::SecondaryIndex));
    assert_eq!(classify(ContentKind::Deletes, FileFormat::ArchiveBlob), Ok(EntryKind::DeletionVector));
    assert_eq!(classify(ContentKind::Deletes, FileFormat::Columnar), Err(RewriteError::InconsistentManifest));
}

#[test]
fn test_record_for_index() {
    let b = blob("hash-index-v1", props(&[("cardinality", "42")]), 10, 20, 7);
    let rec = record_for_index("idx1.blob", &b).unwrap();
    assert_eq!(rec.content, ContentType::Data);
    assert_eq!(rec.file_path, "idx1.blob".to_string());
    assert_eq!(rec.file_format, FileFormat::ArchiveBlob);
    assert_eq!(rec.record_count, 42);
    assert_eq!(rec.file_size_in_bytes, 0);
    assert_eq!(rec.referenced_data_file, None);
    assert_eq!(rec.content_offset, None);
    assert_eq!(rec.content_size_in_bytes, None);
}

#[test]
fn test_record_for_index_missing_cardinality() {
    let b = blob("hash-index-v1", props(&[]), 10, 20, 7);
    assert_eq!(record_for_index("idx1.blob", &b), Err(RewriteError::MalformedBlob));
    let b2 = blob("hash-index-v1", props(&[("cardinality", "x42")]), 10, 20, 7);
    assert_eq!(record_for_index("idx1.blob", &b2), Err(RewriteError::MalformedBlob));
}

#[test]
fn test_record_for_deletion_vector() {
    let b = dv_blob("b.parquet", "10", 128, 64, 9);
    let (referenced, rec) = record_for_deletion_vector("dv1.blob", &b).unwrap();
    assert_eq!(referenced, "b.parquet".to_string());
    assert_eq!(rec.content, ContentType::PositionDeletes);
    assert_eq!(rec.file_path, "dv1.blob".to_string());
    assert_eq!(rec.record_count, 10);
    assert_eq!(rec.referenced_data_file, Some("b.parquet".to_string()));
    assert_eq!(rec.content_offset, Some(128));
    assert_eq!(rec.content_size_in_bytes, Some(64));
}

#[test]
fn test_record_for_deletion_vector_missing_reference() {
    let b = blob("deletion-vector-v1", props(&[("cardinality", "10")]), 128, 64, 9);
    assert_eq!(record_for_deletion_vector("dv1.blob", &b), Err(RewriteError::MalformedBlob));
}

#[test]
fn test_rewrite_duplicate_deletion_vector_fails() {
    let list = ManifestList {
        manifests: vec![
            Manifest { content: ContentKind::Data, entries: vec![data_entry("a.parquet", 1)] },
            Manifest {
                content: ContentKind::Deletes,
                entries: vec![dv_entry("dv1.blob", "a.parquet", 2), dv_entry("dv2.blob", "a.parquet", 3)],
            },
        ],
    };
    let r = rewrite_manifests(Some(&list), &paths(&["other.parquet"]), &Vec::new(), &no_removals());
    assert_eq!(r, Err(RewriteError::DuplicateDeletionVector));
}

#[test]
fn test_rewrite_malformed_blob_fails() {
    let list = ManifestList { manifests: vec![Manifest { content: ContentKind::Data, entries: vec![data_entry("a.parquet", 1)] }] };
    let bad = blob("deletion-vector-v1", props(&[("cardinality", "10")]), 0, 1, 2);
    let adds = vec![("dv1.blob".to_string(), vec![bad])];
    let r = rewrite_manifests(Some(&list), &no_removals(), &adds, &no_removals());
    assert_eq!(r, Err(RewriteError::MalformedBlob));
}

#[test]
fn test_rewrite_inconsistent_manifest_fails() {
    let list = ManifestList {
        manifests: vec![Manifest { content: ContentKind::Deletes, entries: vec![data_entry("a.parquet", 1)] }],
    };
    let r = rewrite_manifests(Some(&list), &paths(&["a.parquet"]), &Vec::new(), &no_removals());
    assert_eq!(r, Err(RewriteError::InconsistentManifest));
}

#[test]
fn test_rewrite_deletion_vector_without_reference_fails() {
    let list = ManifestList {
        manifests: vec![Manifest {
            content: ContentKind::Deletes,
            entries: vec![ManifestEntry {
                record: record(ContentType::PositionDeletes, "dv1.blob", FileFormat::ArchiveBlob, None),
                sequence_number: 4,
            }],
        }],
    };
    let r = rewrite_manifests(Some(&list), &paths(&["x.parquet"]), &Vec::new(), &no_removals());
    assert_eq!(r, Err(RewriteError::InconsistentManifest));
}

#[test]
fn test_rewrite_end_to_end() {
    let list = ManifestList {
        manifests: vec![Manifest {
            content: ContentKind::Data,
            entries: vec![data_entry("a.parquet", 1), data_entry("b.parquet", 2)],
        }],
    };
    let adds = vec![("dv1.blob".to_string(), vec![dv_blob("b.parquet", "10", 128, 64, 5)])];
    let r = rewrite_manifests(Some(&list), &paths(&["a.parquet"]), &adds, &no_removals());
    let out = match r.unwrap() {
        RewriteOutcome::Rewritten(out) => out,
        RewriteOutcome::Unchanged => panic!("expected a rewritten manifest list"),
    };
    assert_eq!(out.carried, Vec::<usize>::new());
    assert_eq!(out.data, vec![OutputEntry::Kept(0, 1)]);
    assert_eq!(out.indexes, Vec::<OutputEntry>::new());
    assert_eq!(out.deletion_vectors.len(), 1);
    match &out.deletion_vectors[0] {
        OutputEntry::Added(archive, blob_idx, rec, seq) => {
            assert_eq!((*archive, *blob_idx, *seq), (0, 0, 5));
            assert_eq!(rec.referenced_data_file, Some("b.parquet".to_string()));
            assert_eq!(rec.content_offset, Some(128));
            assert_eq!(rec.content_size_in_bytes, Some(64));
            assert_eq!(rec.record_count, 10);
            assert_eq!(rec.file_path, "dv1.blob".to_string());
        },
        OutputEntry::Kept(_, _) => panic!("expected a newly added deletion vector"),
    }
}

#[test]
fn test_rewrite_supersedes_existing_deletion_vector() {
    let list = ManifestList {
        manifests: vec![
            Manifest { content: ContentKind::Data, entries: vec![data_entry("b.parquet", 1)] },
            Manifest { content: ContentKind::Deletes, entries: vec![dv_entry("old.blob", "b.parquet", 2)] },
        ],
    };
    let adds = vec![("new.blob".to_string(), vec![dv_blob("b.parquet", "3", 256, 32, 6)])];
    let r = rewrite_manifests(Some(&list), &no_removals(), &adds, &no_removals());
    let out = match r.unwrap() {
        RewriteOutcome::Rewritten(out) => out,
        RewriteOutcome::Unchanged => panic!("expected a rewritten manifest list"),
    };
    // exactly the new record for b.parquet, never both
    assert_eq!(out.deletion_vectors.len(), 1);
    match &out.deletion_vectors[0] {
        OutputEntry::Added(_, _, rec, _) => {
            assert_eq!(rec.file_path, "new.blob".to_string());
            assert_eq!(rec.referenced_data_file, Some("b.parquet".to_string()));
            assert_eq!(rec.content_offset, Some(256));
        },
        OutputEntry::Kept(_, _) => panic!("the superseded deletion vector must not survive"),
    }
    // the untouched data manifest is carried over whole
    assert_eq!(out.carried, vec![0]);
    assert_eq!(out.data, Vec::<OutputEntry>::new());
}

#[test]
fn test_rewrite_drops_deletion_vectors_of_removed_files() {
    let list = ManifestList {
        manifests: vec![
            Manifest { content: ContentKind::Data, entries: vec![data_entry("a.parquet", 1), data_entry("b.parquet", 2)] },
            Manifest { content: ContentKind::Deletes, entries: vec![dv_entry("dv1.blob", "a.parquet", 3)] },
        ],
    };
    let r = rewrite_manifests(Some(&list), &paths(&["a.parquet"]), &Vec::new(), &no_removals());
    let out = match r.unwrap() {
        RewriteOutcome::Rewritten(out) => out,
        RewriteOutcome::Unchanged => panic!("expected a rewritten manifest list"),
    };
    // a.parquet is gone as primary data and as a deletion-vector target
    assert_eq!(out.carried, Vec::<usize>::new());
    assert_eq!(out.data, vec![OutputEntry::Kept(0, 1)]);
    assert_eq!(out.deletion_vectors, Vec::<OutputEntry>::new());
}

#[test]
fn test_rewrite_removes_index_blobs() {
    let list = ManifestList {
        manifests: vec![Manifest {
            content: ContentKind::Data,
            entries: vec![
                ManifestEntry {
                    record: record(ContentType::Data, "idx1.blob", FileFormat::ArchiveBlob, None),
                    sequence_number: 4,
                },
                ManifestEntry {
                    record: record(ContentType::Data, "idx2.blob", FileFormat::ArchiveBlob, None),
                    sequence_number: 5,
                },
            ],
        }],
    };
    let r = rewrite_manifests(Some(&list), &no_removals(), &Vec::new(), &paths(&["idx1.blob"]));
    let out = match r.unwrap() {
        RewriteOutcome::Rewritten(out) => out,
        RewriteOutcome::Unchanged => panic!("expected a rewritten manifest list"),
    };
    // the index manifest's first entry is blob-backed, so it is processed,
    // and only the unremoved index survives
    assert_eq!(out.indexes, vec![OutputEntry::Kept(0, 1)]);
    assert_eq!(out.data, Vec::<OutputEntry>::new());
}

#[test]
fn test_rewrite_keeps_deletion_vector_references_unique_and_surviving() {
    let list = ManifestList {
        manifests: vec![
            Manifest {
                content: ContentKind::Data,
                entries: vec![data_entry("a.parquet", 1), data_entry("b.parquet", 2), data_entry("c.parquet", 3)],
            },
            Manifest {
                content: ContentKind::Deletes,
                entries: vec![dv_entry("dv1.blob", "b.parquet", 4), dv_entry("dv1.blob", "c.parquet", 4)],
            },
        ],
    };
    let adds = vec![("dv2.blob".to_string(), vec![dv_blob("b.parquet", "2", 16, 8, 7)])];
    let r = rewrite_manifests(Some(&list), &paths(&["a.parquet"]), &adds, &no_removals());
    let out = match r.unwrap() {
        RewriteOutcome::Rewritten(out) => out,
        RewriteOutcome::Unchanged => panic!("expected a rewritten manifest list"),
    };
    let surviving = ["b.parquet", "c.parquet"];
    let mut seen: Vec<String> = Vec::new();
    for oe in &out.deletion_vectors {
        let referenced = match oe {
            OutputEntry::Kept(m, e) => list.manifests[*m].entries[*e]
                .record
                .referenced_data_file
                .clone()
                .unwrap(),
            OutputEntry::Added(_, _, rec, _) => rec.referenced_data_file.clone().unwrap(),
        };
        assert!(surviving.contains(&referenced.as_str()));
        assert!(!seen.contains(&referenced));
        seen.push(referenced);
    }
    assert_eq!(out.deletion_vectors.len(), 2);
}

use manifest_rewrite::fault::FileSystemWrapperOption;
use manifest_rewrite::model::{
    deletion_vector_blob_tag_str, has_deletion_vector_tag, has_index_tag, index_blob_tag_str,
    BlobMetadata, CompressionCodec, OutputEntry, RewriteError,
};
use manifest_rewrite::numeric::parse_u64;
use manifest_rewrite::reconcile::DeletionVectorReconciler;

#[test]
fn test_blob_type_tags() {
    let mut blob = BlobMetadata {
        blob_type: index_blob_tag_str(),
        referenced_fields: Vec::new(),
        snapshot_id: 1,
        sequence_number: 2,
        offset: 0,
        length: 0,
        compression_codec: CompressionCodec::Uncompressed,
        properties: Vec::new(),
    };
    assert!(has_index_tag(&blob));
    assert!(!has_deletion_vector_tag(&blob));
    blob.blob_type = deletion_vector_blob_tag_str();
    assert!(has_deletion_vector_tag(&blob));
    assert!(!has_index_tag(&blob));
    assert_eq!(blob.blob_type, "deletion-vector-v1".to_string());
}

#[test]
fn test_parse_u64_valid() {
    assert_eq!(parse_u64("0"), Some(0));
    assert_eq!(parse_u64("10"), Some(10));
    assert_eq!(parse_u64("+7"), Some(7));
    assert_eq!(parse_u64("007"), Some(7));
    assert_eq!(parse_u64("18446744073709551615"), Some(u64::MAX));
}

#[test]
fn test_parse_u64_invalid() {
    assert_eq!(parse_u64(""), None);
    assert_eq!(parse_u64("+"), None);
    assert_eq!(parse_u64("-1"), None);
    assert_eq!(parse_u64("12a"), None);
    assert_eq!(parse_u64("1 2"), None);
    assert_eq!(parse_u64("18446744073709551616"), None);
}

#[test]
fn test_reconciler_duplicate_detection() {
    let mut recon = DeletionVectorReconciler::new();
    let removals: Vec<String> = Vec::new();
    let referenced = "a.parquet".to_string();
    assert!(recon.observe_existing(&referenced, 0, 0, &removals).is_ok());
    assert_eq!(
        recon.observe_existing(&referenced, 0, 1, &removals),
        Err(RewriteError::DuplicateDeletionVector)
    );
}

#[test]
fn test_reconciler_drops_removed_references() {
    let mut recon = DeletionVectorReconciler::new();
    let removals = vec!["a.parquet".to_string()];
    let referenced = "a.parquet".to_string();
    // observing twice stays fine: entries for removed files are dropped
    assert!(recon.observe_existing(&referenced, 0, 0, &removals).is_ok());
    assert!(recon.observe_existing(&referenced, 0, 1, &removals).is_ok());
    let drained = recon.drain();
    assert_eq!(drained.len(), 0);
}

#[test]
fn test_reconciler_supersede_and_drain() {
    let mut recon = DeletionVectorReconciler::new();
    let removals: Vec<String> = Vec::new();
    let kept = "kept.parquet".to_string();
    let superseded = "superseded.parquet".to_string();
    assert!(recon.observe_existing(&kept, 0, 0, &removals).is_ok());
    assert!(recon.observe_existing(&superseded, 0, 1, &removals).is_ok());
    recon.apply_addition(&superseded, OutputEntry::Kept(9, 9));
    let drained = recon.drain();
    assert_eq!(drained.len(), 2);
    let mut refs: Vec<String> = drained.iter().map(|s| s.referenced.clone()).collect();
    refs.sort();
    assert_eq!(refs, vec![kept.clone(), superseded.clone()]);
    for slot in &drained {
        if slot.referenced == superseded {
            assert_eq!(slot.entry, OutputEntry::Kept(9, 9));
        } else {
            assert_eq!(slot.entry, OutputEntry::Kept(0, 0));
        }
    }
}

#[test]
fn test_fault_option_validate() {
    let ok = FileSystemWrapperOption {
        min_latency_nanos: 10,
        max_latency_nanos: 100,
        injected_error: None,
        prob: 0,
    };
    assert!(ok.validate());
    let bad_latency = FileSystemWrapperOption {
        min_latency_nanos: 100,
        max_latency_nanos: 10,
        injected_error: None,
        prob: 0,
    };
    assert!(!bad_latency.validate());
    let bad_prob = FileSystemWrapperOption {
        min_latency_nanos: 0,
        max_latency_nanos: 0,
        injected_error: None,
        prob: 101,
    };
    assert!(!bad_prob.validate());
}

#[test]
fn test_fault_should_inject_error() {
    let opt = FileSystemWrapperOption {
        min_latency_nanos: 0,
        max_latency_nanos: 0,
        injected_error: Some("commit confliction".to_string()),
        prob: 50,
    };
    assert!(opt.should_inject_error(0));
    assert!(opt.should_inject_error(50));
    assert!(!opt.should_inject_error(51));
    let none = FileSystemWrapperOption { injected_error: None, ..opt };
    assert!(!none.should_inject_error(0));
}

#[test]
fn test_fault_latency_in_range() {
    let opt = FileSystemWrapperOption {
        min_latency_nanos: 10,
        max_latency_nanos: 13,
        injected_error: None,
        prob: 0,
    };
    assert_eq!(opt.latency_for(0), 10);
    assert_eq!(opt.latency_for(5), 11);
    assert_eq!(opt.latency_for(u64::MAX), 13);
    for sample in 0..20u64 {
        let latency = opt.latency_for(sample);
        assert!((10..=13).contains(&latency));
    }
}

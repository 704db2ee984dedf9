//! Manifest entry classifier: maps the pair (manifest content kind,
//! entry file format) to the entry's semantic kind. Exactly three
//! combinations are legal; anything else signals manifest corruption.

use vstd::prelude::*;

use crate::model::{ContentKind, EntryKind, FileFormat, RewriteError};

verus! {

/// The classification table. A deletion-vector manifest may only hold
/// archive blobs, so (Deletes, Columnar) classifies as nothing.
pub open spec fn classify_spec(kind: ContentKind, format: FileFormat) -> Option<EntryKind> {
    match (kind, format) {
        (ContentKind::Data, FileFormat::Columnar) => Some(EntryKind::PrimaryData),
        (ContentKind::Data, FileFormat::ArchiveBlob) => Some(EntryKind::SecondaryIndex),
        (ContentKind::Deletes, FileFormat::ArchiveBlob) => Some(EntryKind::DeletionVector),
        (ContentKind::Deletes, FileFormat::Columnar) => None,
    }
}

/// Classify one manifest entry. A combination outside the table is a
/// fatal `InconsistentManifest` error: the classifier never guesses.
pub fn classify(kind: ContentKind, format: FileFormat) -> (r: Result<EntryKind, RewriteError>)
    ensures
        r == (match classify_spec(kind, format) {
            Some(k) => Ok::<EntryKind, RewriteError>(k),
            None => Err::<EntryKind, RewriteError>(RewriteError::InconsistentManifest),
        }),
{
    match (kind, format) {
        (ContentKind::Data, FileFormat::Columnar) => Ok(EntryKind::PrimaryData),
        (ContentKind::Data, FileFormat::ArchiveBlob) => Ok(EntryKind::SecondaryIndex),
        (ContentKind::Deletes, FileFormat::ArchiveBlob) => Ok(EntryKind::DeletionVector),
        (ContentKind::Deletes, FileFormat::Columnar) => Err(RewriteError::InconsistentManifest),
    }
}

} // verus!

//! The records the engine works over: file paths, objects, and the transient
//! metadata extracted for one file path.

use vstd::prelude::*;

verus! {

/// Mathematical image of a [`FilePathRecord`].
pub ghost struct FilePathView {
    pub id: int,
    pub pub_id: int,
    pub location_id: int,
    pub materialized_path: Seq<char>,
    pub date_created: int,
    pub cas_id: Option<Seq<char>>,
    pub object_pub_id: Option<int>,
}

/// A filesystem entry discovered under a watched location.
///
/// Created by an external indexing process; this engine mutates it exactly
/// twice over its lifetime: once to set its content identity (`cas_id`) and
/// once to set its object reference.
pub struct FilePathRecord {
    /// Stable row identifier; the resumability cursor orders rows by it.
    pub id: i32,
    /// Globally unique identifier, stable across renames.
    pub pub_id: u128,
    /// The location the entry was discovered under.
    pub location_id: i32,
    /// Slash-rooted path relative to the location root. Carried for the
    /// caller's benefit; the engine never inspects it.
    pub materialized_path: String,
    /// Creation timestamp (seconds); copied onto the first object minted for
    /// this entry's content identity.
    pub date_created: i64,
    /// Content identity, `None` while the entry is an orphan. Once set it is
    /// never cleared or changed by this engine.
    pub cas_id: Option<String>,
    /// Reference to the canonical object for this entry's content.
    pub object_pub_id: Option<u128>,
}

impl View for FilePathRecord {
    type V = FilePathView;

    open spec fn view(&self) -> FilePathView {
        FilePathView {
            id: self.id as int,
            pub_id: self.pub_id as int,
            location_id: self.location_id as int,
            materialized_path: self.materialized_path@,
            date_created: self.date_created as int,
            cas_id: match self.cas_id {
                Some(s) => Some(s@),
                None => None,
            },
            object_pub_id: match self.object_pub_id {
                Some(o) => Some(o as int),
                None => None,
            },
        }
    }
}

impl FilePathRecord {
    /// A copy of the row carrying the same values, as a query result hands
    /// rows out.
    pub fn duplicate(&self) -> (r: FilePathRecord)
        ensures
            r@ == self@,
    {
        FilePathRecord {
            id: self.id,
            pub_id: self.pub_id,
            location_id: self.location_id,
            materialized_path: self.materialized_path.clone(),
            date_created: self.date_created,
            cas_id: match &self.cas_id {
                Some(s) => Some(s.clone()),
                None => None,
            },
            object_pub_id: self.object_pub_id,
        }
    }
}

/// Mathematical image of an [`ObjectRecord`].
pub ghost struct ObjectView {
    pub pub_id: int,
    pub date_created: int,
    pub kind: int,
}

/// The canonical record for one distinct content identity within a library.
///
/// Created once, the first time a previously unseen content identity is
/// encountered; never updated or deleted by this engine thereafter. An
/// object's identity association is carried by the file paths that reference
/// it, not by a field of its own.
pub struct ObjectRecord {
    /// Globally unique identifier, independent of any file path.
    pub pub_id: u128,
    /// Creation timestamp copied from the first file path observed with this
    /// object's content identity.
    pub date_created: i64,
    /// Coarse content-kind classification code.
    pub kind: i32,
}

impl View for ObjectRecord {
    type V = ObjectView;

    open spec fn view(&self) -> ObjectView {
        ObjectView {
            pub_id: self.pub_id as int,
            date_created: self.date_created as int,
            kind: self.kind as int,
        }
    }
}

/// Mathematical image of a [`FileMetadata`].
pub ghost struct FileMetadataView {
    pub cas_id: Seq<char>,
    pub kind: int,
    pub size_in_bytes: int,
}

/// Transient metadata extracted for one file path, valid only for the
/// duration of one chunk's processing.
///
/// The content identity and the kind classification are computed by external
/// collaborators (a deterministic hash of path and size, and an
/// extension-based classifier); the engine receives them as plain values.
pub struct FileMetadata {
    /// Deterministic content identity, the dedup key.
    pub cas_id: String,
    /// Coarse content-kind classification code.
    pub kind: i32,
    /// File size reported by the filesystem.
    pub size_in_bytes: u64,
}

impl View for FileMetadata {
    type V = FileMetadataView;

    open spec fn view(&self) -> FileMetadataView {
        FileMetadataView {
            cas_id: self.cas_id@,
            kind: self.kind as int,
            size_in_bytes: self.size_in_bytes as int,
        }
    }
}

impl FileMetadata {
    /// A copy of the metadata carrying the same values.
    pub fn duplicate(&self) -> (r: FileMetadata)
        ensures
            r@ == self@,
    {
        FileMetadata {
            cas_id: self.cas_id.clone(),
            kind: self.kind,
            size_in_bytes: self.size_in_bytes,
        }
    }

    /// Assembles the metadata record for one file path from the values the
    /// extraction collaborators produced.
    pub fn new(cas_id: String, kind: i32, size_in_bytes: u64) -> (r: FileMetadata)
        ensures
            r@ == (FileMetadataView { cas_id: cas_id@, kind: kind as int, size_in_bytes: size_in_bytes as int }),
    {
        FileMetadata { cas_id, kind, size_in_bytes }
    }
}

/// Mathematical image of an [`Extraction`].
pub ghost struct ExtractionView {
    pub fp_pub_id: int,
    pub meta: Option<FileMetadataView>,
}

/// The outcome of metadata extraction for one file path: either its metadata,
/// or `None` when extraction failed for that file alone (an unreadable file
/// is excluded from the chunk and retried on a future pass, never fatal to
/// the chunk).
pub struct Extraction {
    /// The file path the outcome belongs to.
    pub fp_pub_id: u128,
    /// The extracted metadata, or `None` on a per-file failure.
    pub meta: Option<FileMetadata>,
}

impl View for Extraction {
    type V = ExtractionView;

    open spec fn view(&self) -> ExtractionView {
        ExtractionView {
            fp_pub_id: self.fp_pub_id as int,
            meta: match self.meta {
                Some(m) => Some(m@),
                None => None,
            },
        }
    }
}

} // verus!

//! Dual-write pairing: every local mutation to a shared field travels with
//! the replicated operations that describe the same logical change, so that
//! other devices converge to the same state.
//!
//! A [`WriteEntry`] couples one local mutation with its replication
//! description; [`entry_paired`] says the description is exactly the
//! canonical one for that mutation, and the store refuses to commit anything
//! else.

use vstd::prelude::*;

verus! {

/// Which shared entity a replicated operation addresses.
#[derive(Clone, Copy, PartialEq, Eq, Structural, Debug)]
pub enum EntityKind {
    FilePath,
    Object,
}

/// The shared fields this engine ever writes.
#[derive(Clone, Copy, PartialEq, Eq, Structural, Debug)]
pub enum SharedField {
    CasId,
    ObjectRef,
    DateCreated,
    Kind,
}

/// Mathematical image of a [`FieldValue`].
pub ghost enum FieldValueView {
    Text(Seq<char>),
    Int(int),
    Id(int),
}

/// A value carried by a replicated field update.
pub enum FieldValue {
    Text(String),
    Int(i64),
    Id(u128),
}

impl View for FieldValue {
    type V = FieldValueView;

    open spec fn view(&self) -> FieldValueView {
        match self {
            FieldValue::Text(s) => FieldValueView::Text(s@),
            FieldValue::Int(n) => FieldValueView::Int(*n as int),
            FieldValue::Id(p) => FieldValueView::Id(*p as int),
        }
    }
}

/// Mathematical image of a [`CrdtOp`].
pub ghost enum CrdtOpView {
    SharedCreate { entity: EntityKind, pub_id: int },
    SharedUpdate { entity: EntityKind, pub_id: int, field: SharedField, value: FieldValueView },
}

/// A serializable description of one logical state change, destined for
/// propagation to other devices.
pub enum CrdtOp {
    /// "Create shared entity with this identifier."
    SharedCreate { entity: EntityKind, pub_id: u128 },
    /// "Set this field of this shared entity to this value."
    SharedUpdate { entity: EntityKind, pub_id: u128, field: SharedField, value: FieldValue },
}

impl View for CrdtOp {
    type V = CrdtOpView;

    open spec fn view(&self) -> CrdtOpView {
        match self {
            CrdtOp::SharedCreate { entity, pub_id } => CrdtOpView::SharedCreate {
                entity: *entity,
                pub_id: *pub_id as int,
            },
            CrdtOp::SharedUpdate { entity, pub_id, field, value } => CrdtOpView::SharedUpdate {
                entity: *entity,
                pub_id: *pub_id as int,
                field: *field,
                value: value@,
            },
        }
    }
}

/// Mathematical image of a [`LocalMutation`].
pub ghost enum LocalMutationView {
    SetCasId { fp_pub_id: int, cas_id: Seq<char> },
    ConnectObject { fp_pub_id: int, object_pub_id: int },
    CreateObject { pub_id: int, date_created: int, kind: int },
}

/// One mutation against the local store's shared schema.
pub enum LocalMutation {
    /// Set the content identity of a file path.
    SetCasId { fp_pub_id: u128, cas_id: String },
    /// Link a file path to its canonical object.
    ConnectObject { fp_pub_id: u128, object_pub_id: u128 },
    /// Create a new canonical object.
    CreateObject { pub_id: u128, date_created: i64, kind: i32 },
}

impl View for LocalMutation {
    type V = LocalMutationView;

    open spec fn view(&self) -> LocalMutationView {
        match self {
            LocalMutation::SetCasId { fp_pub_id, cas_id } => LocalMutationView::SetCasId {
                fp_pub_id: *fp_pub_id as int,
                cas_id: cas_id@,
            },
            LocalMutation::ConnectObject { fp_pub_id, object_pub_id } => LocalMutationView::ConnectObject {
                fp_pub_id: *fp_pub_id as int,
                object_pub_id: *object_pub_id as int,
            },
            LocalMutation::CreateObject { pub_id, date_created, kind } => LocalMutationView::CreateObject {
                pub_id: *pub_id as int,
                date_created: *date_created as int,
                kind: *kind as int,
            },
        }
    }
}

/// Mathematical image of a [`WriteEntry`].
pub ghost struct WriteEntryView {
    pub ops: Seq<CrdtOpView>,
    pub mutation: LocalMutationView,
}

/// One local mutation together with the replicated operations describing the
/// same logical change. The store only ever commits entries, never bare
/// mutations, which makes it structurally impossible to change shared state
/// without replicating the change.
pub struct WriteEntry {
    /// The replication description of the change.
    pub ops: Vec<CrdtOp>,
    /// The local change itself.
    pub mutation: LocalMutation,
}

impl View for WriteEntry {
    type V = WriteEntryView;

    open spec fn view(&self) -> WriteEntryView {
        WriteEntryView { ops: self.ops@.map_values(|op: CrdtOp| op@), mutation: self.mutation@ }
    }
}

/// The canonical replication description of one local mutation: a field
/// update is described by exactly one shared update; an object creation by a
/// shared create followed by one shared update per created field.
pub open spec fn ops_for(m: LocalMutationView) -> Seq<CrdtOpView> {
    match m {
        LocalMutationView::SetCasId { fp_pub_id, cas_id } => seq![
            CrdtOpView::SharedUpdate {
                entity: EntityKind::FilePath,
                pub_id: fp_pub_id,
                field: SharedField::CasId,
                value: FieldValueView::Text(cas_id),
            },
        ],
        LocalMutationView::ConnectObject { fp_pub_id, object_pub_id } => seq![
            CrdtOpView::SharedUpdate {
                entity: EntityKind::FilePath,
                pub_id: fp_pub_id,
                field: SharedField::ObjectRef,
                value: FieldValueView::Id(object_pub_id),
            },
        ],
        LocalMutationView::CreateObject { pub_id, date_created, kind } => seq![
            CrdtOpView::SharedCreate { entity: EntityKind::Object, pub_id: pub_id },
            CrdtOpView::SharedUpdate {
                entity: EntityKind::Object,
                pub_id: pub_id,
                field: SharedField::DateCreated,
                value: FieldValueView::Int(date_created),
            },
            CrdtOpView::SharedUpdate {
                entity: EntityKind::Object,
                pub_id: pub_id,
                field: SharedField::Kind,
                value: FieldValueView::Int(kind),
            },
        ],
    }
}

/// The pairing invariant for one entry: its replication description is
/// exactly the canonical description of its local mutation.
pub open spec fn entry_paired(e: WriteEntryView) -> bool {
    e.ops == ops_for(e.mutation)
}

/// The pairing invariant for a whole committed batch.
pub open spec fn batch_paired(b: Seq<WriteEntryView>) -> bool {
    forall|i: int| 0 <= i < b.len() ==> entry_paired(#[trigger] b[i])
}

/// Builds the paired entry that assigns a content identity to a file path.
pub fn file_path_cas_assign_ops(fp_pub_id: u128, cas_id: String) -> (r: WriteEntry)
    ensures
        r@.mutation == (LocalMutationView::SetCasId { fp_pub_id: fp_pub_id as int, cas_id: cas_id@ }),
        entry_paired(r@),
{
    let op_value = cas_id.clone();
    let r = WriteEntry {
        ops: vec![
            CrdtOp::SharedUpdate {
                entity: EntityKind::FilePath,
                pub_id: fp_pub_id,
                field: SharedField::CasId,
                value: FieldValue::Text(op_value),
            },
        ],
        mutation: LocalMutation::SetCasId { fp_pub_id, cas_id },
    };
    proof {
        assert(r@.ops =~= ops_for(r@.mutation));
    }
    r
}

/// Builds the paired entry that connects a file path to an object.
pub fn file_path_object_connect_ops(file_path_pub_id: u128, object_pub_id: u128) -> (r: WriteEntry)
    ensures
        r@.mutation == (LocalMutationView::ConnectObject {
            fp_pub_id: file_path_pub_id as int,
            object_pub_id: object_pub_id as int,
        }),
        entry_paired(r@),
{
    let r = WriteEntry {
        ops: vec![
            CrdtOp::SharedUpdate {
                entity: EntityKind::FilePath,
                pub_id: file_path_pub_id,
                field: SharedField::ObjectRef,
                value: FieldValue::Id(object_pub_id),
            },
        ],
        mutation: LocalMutation::ConnectObject { fp_pub_id: file_path_pub_id, object_pub_id },
    };
    proof {
        assert(r@.ops =~= ops_for(r@.mutation));
    }
    r
}

/// Builds the paired entry that creates a new canonical object.
pub fn object_create_ops(pub_id: u128, date_created: i64, kind: i32) -> (r: WriteEntry)
    ensures
        r@.mutation == (LocalMutationView::CreateObject {
            pub_id: pub_id as int,
            date_created: date_created as int,
            kind: kind as int,
        }),
        entry_paired(r@),
{
    let r = WriteEntry {
        ops: vec![
            CrdtOp::SharedCreate { entity: EntityKind::Object, pub_id },
            CrdtOp::SharedUpdate {
                entity: EntityKind::Object,
                pub_id,
                field: SharedField::DateCreated,
                value: FieldValue::Int(date_created),
            },
            CrdtOp::SharedUpdate {
                entity: EntityKind::Object,
                pub_id,
                field: SharedField::Kind,
                value: FieldValue::Int(kind as i64),
            },
        ],
        mutation: LocalMutation::CreateObject { pub_id, date_created, kind },
    };
    proof {
        assert(r@.ops =~= ops_for(r@.mutation));
    }
    r
}

} // verus!

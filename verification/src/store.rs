//! The local store: file path rows, object rows, and the log of committed
//! paired-write batches.
//!
//! The store only accepts whole batches of [`WriteEntry`] values whose
//! replication description is exactly the canonical one for their local
//! mutation, so a mutation can never be committed without its replicated
//! operation. Each committer gives the exact new store as a function of the
//! old one and the batch.

use vstd::prelude::*;

use crate::pairing::{batch_paired, entry_paired, LocalMutation, LocalMutationView, WriteEntry, WriteEntryView};
use crate::record::{FilePathRecord, FilePathView, ObjectRecord, ObjectView};

verus! {

/// Mathematical image of a [`WriteBatch`].
pub type WriteBatchView = Seq<WriteEntryView>;

/// One batched write: all the paired entries of one resolver step, applied
/// as a unit.
pub struct WriteBatch {
    /// The paired entries of this batch.
    pub entries: Vec<WriteEntry>,
}

impl View for WriteBatch {
    type V = WriteBatchView;

    open spec fn view(&self) -> WriteBatchView {
        self.entries@.map_values(|e: WriteEntry| e@)
    }
}

/// Mathematical image of a [`Store`].
pub ghost struct StoreView {
    pub file_paths: Seq<FilePathView>,
    pub objects: Seq<ObjectView>,
    pub history: Seq<WriteBatchView>,
}

/// The local store, modelled as plain rows plus the log of committed
/// batches. The caller that owns a real database mirrors every committed
/// batch onto it; the engine's reasoning happens here.
pub struct Store {
    /// File path rows, ordered by their stable row id.
    pub file_paths: Vec<FilePathRecord>,
    /// Object rows.
    pub objects: Vec<ObjectRecord>,
    /// Every batch committed against the shared schema, in commit order.
    pub history: Vec<WriteBatch>,
}

impl View for Store {
    type V = StoreView;

    open spec fn view(&self) -> StoreView {
        StoreView {
            file_paths: self.file_paths@.map_values(|fp: FilePathRecord| fp@),
            objects: self.objects@.map_values(|o: ObjectRecord| o@),
            history: self.history@.map_values(|b: WriteBatch| b@),
        }
    }
}

/// File path rows are ordered by strictly increasing row id (the cursor
/// key), which also makes row ids unique.
pub open spec fn rows_ordered(s: StoreView) -> bool {
    forall|i: int, j: int|
        0 <= i < j < s.file_paths.len() ==> (#[trigger] s.file_paths[i]).id < (#[trigger] s.file_paths[j]).id
}

/// File path identifiers are globally unique.
pub open spec fn fp_pub_ids_unique(s: StoreView) -> bool {
    forall|i: int, j: int|
        0 <= i < j < s.file_paths.len()
            ==> (#[trigger] s.file_paths[i]).pub_id != (#[trigger] s.file_paths[j]).pub_id
}

/// Object identifiers are globally unique.
pub open spec fn obj_pub_ids_unique(s: StoreView) -> bool {
    forall|i: int, j: int|
        0 <= i < j < s.objects.len() ==> (#[trigger] s.objects[i]).pub_id != (#[trigger] s.objects[j]).pub_id
}

/// Every object reference held by a file path resolves to an object row.
pub open spec fn links_resolve(s: StoreView) -> bool {
    forall|i: int|
        0 <= i < s.file_paths.len() && (#[trigger] s.file_paths[i]).object_pub_id is Some
            ==> exists|j: int|
                0 <= j < s.objects.len() && (#[trigger] s.objects[j]).pub_id
                    == s.file_paths[i].object_pub_id->0
}

/// A file path linked to an object has its content identity set: the link is
/// only ever written for an identified file.
pub open spec fn linked_has_cas(s: StoreView) -> bool {
    forall|i: int|
        0 <= i < s.file_paths.len() && (#[trigger] s.file_paths[i]).object_pub_id is Some
            ==> s.file_paths[i].cas_id is Some
}

/// The dedup invariant: at most one object per distinct content identity.
/// Two linked file paths that carry the same content identity reference the
/// same object.
pub open spec fn dedup_invariant(s: StoreView) -> bool {
    forall|i: int, j: int|
        0 <= i < s.file_paths.len() && 0 <= j < s.file_paths.len()
            && (#[trigger] s.file_paths[i]).cas_id is Some
            && (#[trigger] s.file_paths[j]).cas_id is Some
            && s.file_paths[i].cas_id == s.file_paths[j].cas_id
            && s.file_paths[i].object_pub_id is Some && s.file_paths[j].object_pub_id is Some
            ==> s.file_paths[i].object_pub_id == s.file_paths[j].object_pub_id
}

/// The pairing invariant over everything ever committed: each batch in the
/// log couples every local mutation with exactly its canonical replication
/// description.
pub open spec fn history_paired(s: StoreView) -> bool {
    forall|k: int| 0 <= k < s.history.len() ==> batch_paired(#[trigger] s.history[k])
}

/// Well-formedness of the store.
pub open spec fn store_wf(s: StoreView) -> bool {
    &&& rows_ordered(s)
    &&& fp_pub_ids_unique(s)
    &&& obj_pub_ids_unique(s)
    &&& links_resolve(s)
    &&& linked_has_cas(s)
    &&& dedup_invariant(s)
    &&& history_paired(s)
}

/// The dedup law: in a well-formed store, file paths carrying the same
/// content identity that are linked at all are linked to one and the same
/// object — at most one object per distinct content identity.
pub proof fn lemma_one_object_per_identity(s: StoreView, i: int, j: int)
    requires
        store_wf(s),
        0 <= i < s.file_paths.len(),
        0 <= j < s.file_paths.len(),
        s.file_paths[i].cas_id is Some,
        s.file_paths[i].cas_id == s.file_paths[j].cas_id,
        s.file_paths[i].object_pub_id is Some,
        s.file_paths[j].object_pub_id is Some,
    ensures
        s.file_paths[i].object_pub_id == s.file_paths[j].object_pub_id,
{
}

/// The pairing law: every batch the store has ever committed couples each of
/// its local mutations with exactly the canonical replicated description of
/// the same change — no mutation without its operation, no dangling
/// operation.
pub proof fn lemma_committed_writes_paired(s: StoreView, k: int, i: int)
    requires
        store_wf(s),
        0 <= k < s.history.len(),
        0 <= i < s.history[k].len(),
    ensures
        s.history[k][i].ops == crate::pairing::ops_for(s.history[k][i].mutation),
{
    assert(batch_paired(s.history[k]));
    assert(entry_paired(s.history[k][i]));
}

/// The content identity a batch assigns to the given file path, if any
/// (first matching entry).
pub open spec fn find_cas(entries: Seq<WriteEntryView>, pid: int) -> Option<Seq<char>>
    decreases entries.len(),
{
    if entries.len() == 0 {
        None
    } else {
        match entries[0].mutation {
            LocalMutationView::SetCasId { fp_pub_id, cas_id } => if fp_pub_id == pid {
                Some(cas_id)
            } else {
                find_cas(entries.skip(1), pid)
            },
            _ => find_cas(entries.skip(1), pid),
        }
    }
}

/// The object a batch connects the given file path to, if any (first
/// matching entry).
pub open spec fn find_connect(entries: Seq<WriteEntryView>, pid: int) -> Option<int>
    decreases entries.len(),
{
    if entries.len() == 0 {
        None
    } else {
        match entries[0].mutation {
            LocalMutationView::ConnectObject { fp_pub_id, object_pub_id } => if fp_pub_id == pid {
                Some(object_pub_id)
            } else {
                find_connect(entries.skip(1), pid)
            },
            _ => find_connect(entries.skip(1), pid),
        }
    }
}

/// One file path row after a content-identity batch: its identity is set if
/// the batch addresses it, otherwise the row is unchanged.
pub open spec fn apply_cas_entries(fp: FilePathView, entries: Seq<WriteEntryView>) -> FilePathView {
    match find_cas(entries, fp.pub_id) {
        Some(c) => FilePathView { cas_id: Some(c), ..fp },
        None => fp,
    }
}

/// One file path row after a connect batch: its object reference is set if
/// the batch addresses it, otherwise the row is unchanged.
pub open spec fn apply_connect_entries(fp: FilePathView, entries: Seq<WriteEntryView>) -> FilePathView {
    match find_connect(entries, fp.pub_id) {
        Some(o) => FilePathView { object_pub_id: Some(o), ..fp },
        None => fp,
    }
}

/// The object row described by a creation mutation.
pub open spec fn object_of_create(m: LocalMutationView) -> ObjectView {
    match m {
        LocalMutationView::CreateObject { pub_id, date_created, kind } => ObjectView {
            pub_id,
            date_created,
            kind,
        },
        _ => ObjectView { pub_id: 0, date_created: 0, kind: 0 },
    }
}

/// The object rows a creation batch appends, in batch order.
pub open spec fn created_objects(entries: Seq<WriteEntryView>) -> Seq<ObjectView> {
    entries.map_values(|e: WriteEntryView| object_of_create(e.mutation))
}

/// Whether a file path row is an orphan of the given location still beyond
/// the cursor: no content identity yet, row id strictly past the last
/// processed row.
pub open spec fn orphan_past_cursor(fp: FilePathView, location_id: int, cursor: int) -> bool {
    fp.location_id == location_id && fp.cas_id is None && fp.id > cursor
}

/// The rows the next chunk query returns: the first `limit` orphan rows of
/// the location, in row order, strictly past the cursor.
pub open spec fn orphan_chunk_spec(
    fps: Seq<FilePathView>,
    location_id: int,
    cursor: int,
    limit: nat,
) -> Seq<FilePathView>
    decreases fps.len(),
{
    if fps.len() == 0 || limit == 0 {
        Seq::empty()
    } else if orphan_past_cursor(fps[0], location_id, cursor) {
        seq![fps[0]] + orphan_chunk_spec(fps.skip(1), location_id, cursor, (limit - 1) as nat)
    } else {
        orphan_chunk_spec(fps.skip(1), location_id, cursor, limit)
    }
}

/// How many orphan rows (no content identity yet) the location holds.
pub open spec fn count_orphans_spec(fps: Seq<FilePathView>, location_id: int) -> int
    decreases fps.len(),
{
    if fps.len() == 0 {
        0
    } else {
        (if fps[0].location_id == location_id && fps[0].cas_id is None {
            1int
        } else {
            0int
        }) + count_orphans_spec(fps.skip(1), location_id)
    }
}

/// Looks a content-identity entry up in a batch.
fn find_cas_entry<'a>(batch: &'a WriteBatch, pid: u128) -> (r: Option<&'a String>)
    ensures
        match r {
            Some(c) => find_cas(batch@, pid as int) == Some(c@),
            None => find_cas(batch@, pid as int) is None,
        },
{
    let n = batch.entries.len();
    let mut i: usize = 0;
    proof {
        assert(batch@.skip(0) =~= batch@);
    }
    while i < n
        invariant
            n == batch.entries.len(),
            i <= n,
            find_cas(batch@.skip(i as int), pid as int) == find_cas(batch@, pid as int),
        decreases n - i,
    {
        proof {
            assert(batch@.skip(i as int)[0] == batch@[i as int]);
            assert(batch@.skip(i as int).skip(1) =~= batch@.skip(i as int + 1));
        }
        match &batch.entries[i].mutation {
            LocalMutation::SetCasId { fp_pub_id, cas_id } => {
                if *fp_pub_id == pid {
                    return Some(cas_id);
                }
            },
            _ => {},
        }
        i += 1;
    }
    proof {
        assert(batch@.skip(n as int) =~= Seq::<WriteEntryView>::empty());
    }
    None
}

/// Looks a connect entry up in a batch.
fn find_connect_entry(batch: &WriteBatch, pid: u128) -> (r: Option<u128>)
    ensures
        match r {
            Some(o) => find_connect(batch@, pid as int) == Some(o as int),
            None => find_connect(batch@, pid as int) is None,
        },
{
    let n = batch.entries.len();
    let mut i: usize = 0;
    proof {
        assert(batch@.skip(0) =~= batch@);
    }
    while i < n
        invariant
            n == batch.entries.len(),
            i <= n,
            find_connect(batch@.skip(i as int), pid as int) == find_connect(batch@, pid as int),
        decreases n - i,
    {
        proof {
            assert(batch@.skip(i as int)[0] == batch@[i as int]);
            assert(batch@.skip(i as int).skip(1) =~= batch@.skip(i as int + 1));
        }
        match &batch.entries[i].mutation {
            LocalMutation::ConnectObject { fp_pub_id, object_pub_id } => {
                if *fp_pub_id == pid {
                    return Some(*object_pub_id);
                }
            },
            _ => {},
        }
        i += 1;
    }
    proof {
        assert(batch@.skip(n as int) =~= Seq::<WriteEntryView>::empty());
    }
    None
}

impl Store {
    /// An empty store.
    pub fn new() -> (s: Store)
        ensures
            s@.file_paths =~= Seq::<FilePathView>::empty(),
            s@.objects =~= Seq::<ObjectView>::empty(),
            s@.history =~= Seq::<WriteBatchView>::empty(),
            store_wf(s@),
    {
        let s = Store { file_paths: Vec::new(), objects: Vec::new(), history: Vec::new() };
        proof {
            assert(s@.file_paths =~= Seq::<FilePathView>::empty());
            assert(s@.objects =~= Seq::<ObjectView>::empty());
            assert(s@.history =~= Seq::<WriteBatchView>::empty());
        }
        s
    }

    /// Commits one batch of paired content-identity assignments: every file
    /// path the batch addresses gets its content identity set; everything
    /// else is untouched; the batch is appended to the log.
    pub fn commit_cas_batch(&mut self, batch: WriteBatch)
        requires
            batch_paired(batch@),
            forall|i: int|
                0 <= i < batch@.len() ==> (#[trigger] batch@[i]).mutation is SetCasId,
        ensures
            final(self)@.file_paths == old(self)@.file_paths.map_values(
                |fp: FilePathView| apply_cas_entries(fp, batch@),
            ),
            final(self)@.objects == old(self)@.objects,
            final(self)@.history == old(self)@.history.push(batch@),
    {
        let n = self.file_paths.len();
        let mut i: usize = 0;
        while i < n
            invariant
                n == self.file_paths.len(),
                i <= n,
                self.objects == old(self).objects,
                self.history == old(self).history,
                forall|j: int| i <= j < n ==> self.file_paths@[j] == old(self).file_paths@[j],
                forall|j: int|
                    0 <= j < i ==> (#[trigger] self.file_paths@[j])@ == apply_cas_entries(
                        old(self).file_paths@[j]@,
                        batch@,
                    ),
            decreases n - i,
        {
            let pid = self.file_paths[i].pub_id;
            match find_cas_entry(&batch, pid) {
                Some(c) => {
                    let c2 = c.clone();
                    self.file_paths[i].cas_id = Some(c2);
                },
                None => {},
            }
            i += 1;
        }
        self.history.push(batch);
        proof {
            assert(self@.file_paths =~= old(self)@.file_paths.map_values(
                |fp: FilePathView| apply_cas_entries(fp, batch@),
            ));
            assert(self@.history =~= old(self)@.history.push(batch@));
            assert(self@.objects =~= old(self)@.objects);
        }
    }

    /// Commits one batch of paired object connections and reports how many
    /// file paths it addressed. Every file path the batch addresses gets its
    /// object reference set; everything else is untouched; the batch is
    /// appended to the log.
    pub fn commit_connect_batch(&mut self, batch: WriteBatch) -> (updated: usize)
        requires
            batch_paired(batch@),
            forall|i: int|
                0 <= i < batch@.len() ==> (#[trigger] batch@[i]).mutation is ConnectObject,
        ensures
            final(self)@.file_paths == old(self)@.file_paths.map_values(
                |fp: FilePathView| apply_connect_entries(fp, batch@),
            ),
            final(self)@.objects == old(self)@.objects,
            final(self)@.history == old(self)@.history.push(batch@),
            updated == batch@.len(),
    {
        let updated = batch.entries.len();
        let n = self.file_paths.len();
        let mut i: usize = 0;
        while i < n
            invariant
                n == self.file_paths.len(),
                i <= n,
                self.objects == old(self).objects,
                self.history == old(self).history,
                forall|j: int| i <= j < n ==> self.file_paths@[j] == old(self).file_paths@[j],
                forall|j: int|
                    0 <= j < i ==> (#[trigger] self.file_paths@[j])@ == apply_connect_entries(
                        old(self).file_paths@[j]@,
                        batch@,
                    ),
            decreases n - i,
        {
            let pid = self.file_paths[i].pub_id;
            match find_connect_entry(&batch, pid) {
                Some(o) => {
                    self.file_paths[i].object_pub_id = Some(o);
                },
                None => {},
            }
            i += 1;
        }
        self.history.push(batch);
        proof {
            assert(self@.file_paths =~= old(self)@.file_paths.map_values(
                |fp: FilePathView| apply_connect_entries(fp, batch@),
            ));
            assert(self@.history =~= old(self)@.history.push(batch@));
            assert(self@.objects =~= old(self)@.objects);
        }
        updated
    }

    /// Commits one batch of paired object creations and reports how many
    /// rows were created. The described objects are appended in batch order;
    /// file paths are untouched; the batch is appended to the log.
    pub fn commit_create_batch(&mut self, batch: WriteBatch) -> (created: usize)
        requires
            batch_paired(batch@),
            forall|i: int|
                0 <= i < batch@.len() ==> (#[trigger] batch@[i]).mutation is CreateObject,
        ensures
            final(self)@.file_paths == old(self)@.file_paths,
            final(self)@.objects == old(self)@.objects + created_objects(batch@),
            final(self)@.history == old(self)@.history.push(batch@),
            created == batch@.len(),
    {
        let created = batch.entries.len();
        let n = batch.entries.len();
        let mut i: usize = 0;
        while i < n
            invariant
                n == batch.entries.len(),
                i <= n,
                self.file_paths == old(self).file_paths,
                self.history == old(self).history,
                self@.objects =~= old(self)@.objects + created_objects(batch@.take(i as int)),
                forall|k: int|
                    0 <= k < batch@.len() ==> (#[trigger] batch@[k]).mutation is CreateObject,
            decreases n - i,
        {
            proof {
                assert(batch@.len() == batch.entries@.len());
                assert(batch@[i as int] == batch.entries@[i as int]@);
            }
            let ghost pre_objs = self@.objects;
            match &batch.entries[i].mutation {
                LocalMutation::CreateObject { pub_id, date_created, kind } => {
                    let o = ObjectRecord {
                        pub_id: *pub_id,
                        date_created: *date_created,
                        kind: *kind,
                    };
                    proof {
                        assert(o@ == object_of_create(batch@[i as int].mutation));
                    }
                    let ghost ov = o@;
                    self.objects.push(o);
                    proof {
                        assert(self@.objects =~= pre_objs.push(ov));
                    }
                },
                _ => {
                    proof {
                        assert(batch@[i as int].mutation is CreateObject);
                    }
                    assert(false);
                },
            }
            proof {
                assert(created_objects(batch@.take(i as int + 1)) =~= created_objects(
                    batch@.take(i as int),
                ).push(object_of_create(batch@[i as int].mutation)));
                assert((old(self)@.objects + created_objects(batch@.take(i as int))).push(
                    object_of_create(batch@[i as int].mutation),
                ) =~= old(self)@.objects + created_objects(batch@.take(i as int + 1)));
                assert(self@.objects =~= old(self)@.objects + created_objects(
                    batch@.take(i as int + 1),
                ));
            }
            i += 1;
        }
        self.history.push(batch);
        proof {
            assert(batch@.take(n as int) =~= batch@);
            assert(self@.objects =~= old(self)@.objects + created_objects(batch@));
            assert(self@.history =~= old(self)@.history.push(batch@));
            assert(self@.file_paths =~= old(self)@.file_paths);
        }
        created
    }

    /// Counts the orphan file paths of a location: rows whose content
    /// identity is still unknown.
    pub fn count_orphans(&self, location_id: i32) -> (n: usize)
        ensures
            n == count_orphans_spec(self@.file_paths, location_id as int),
    {
        let len = self.file_paths.len();
        let mut n: usize = 0;
        let mut i: usize = 0;
        proof {
            assert(self@.file_paths.skip(0) =~= self@.file_paths);
        }
        while i < len
            invariant
                len == self.file_paths.len(),
                i <= len,
                n <= i,
                n + count_orphans_spec(self@.file_paths.skip(i as int), location_id as int)
                    == count_orphans_spec(self@.file_paths, location_id as int),
            decreases len - i,
        {
            proof {
                assert(self@.file_paths.skip(i as int)[0] == self@.file_paths[i as int]);
                assert(self@.file_paths.skip(i as int).skip(1) =~= self@.file_paths.skip(
                    i as int + 1,
                ));
            }
            let fp = &self.file_paths[i];
            if fp.location_id == location_id && fp.cas_id.is_none() {
                n += 1;
            }
            i += 1;
        }
        proof {
            assert(self@.file_paths.skip(len as int) =~= Seq::<FilePathView>::empty());
        }
        n
    }

    /// The next chunk of orphan rows: up to `limit` rows of the location,
    /// with no content identity, row id strictly past the cursor, in row
    /// order. The returned copies carry the same values as the rows.
    pub fn orphan_chunk(&self, location_id: i32, cursor: i32, limit: usize) -> (r: Vec<
        FilePathRecord,
    >)
        ensures
            r@.map_values(|fp: FilePathRecord| fp@) == orphan_chunk_spec(
                self@.file_paths,
                location_id as int,
                cursor as int,
                limit as nat,
            ),
    {
        let len = self.file_paths.len();
        let mut out: Vec<FilePathRecord> = Vec::new();
        let mut i: usize = 0;
        proof {
            assert(self@.file_paths.skip(0) =~= self@.file_paths);
            assert(out@.map_values(|fp: FilePathRecord| fp@) =~= Seq::<FilePathView>::empty());
            assert(Seq::<FilePathView>::empty() + orphan_chunk_spec(
                self@.file_paths,
                location_id as int,
                cursor as int,
                limit as nat,
            ) =~= orphan_chunk_spec(
                self@.file_paths,
                location_id as int,
                cursor as int,
                limit as nat,
            ));
        }
        while i < len && out.len() < limit
            invariant
                len == self.file_paths.len(),
                i <= len,
                out.len() <= limit,
                out@.map_values(|fp: FilePathRecord| fp@) + orphan_chunk_spec(
                    self@.file_paths.skip(i as int),
                    location_id as int,
                    cursor as int,
                    (limit - out.len()) as nat,
                ) =~= orphan_chunk_spec(
                    self@.file_paths,
                    location_id as int,
                    cursor as int,
                    limit as nat,
                ),
            decreases len - i,
        {
            proof {
                assert(self@.file_paths.skip(i as int)[0] == self@.file_paths[i as int]);
                assert(self@.file_paths.skip(i as int).skip(1) =~= self@.file_paths.skip(
                    i as int + 1,
                ));
            }
            let ghost pre_out = out@.map_values(|fp: FilePathRecord| fp@);
            let fp = &self.file_paths[i];
            if fp.location_id == location_id && fp.cas_id.is_none() && fp.id > cursor {
                let copy = fp.duplicate();
                out.push(copy);
                proof {
                    assert(out@.map_values(|fp: FilePathRecord| fp@) =~= pre_out.push(
                        self@.file_paths[i as int],
                    ));
                    assert(pre_out.push(self@.file_paths[i as int]) =~= pre_out + seq![
                        self@.file_paths[i as int],
                    ]);
                    assert(pre_out + seq![self@.file_paths[i as int]] + orphan_chunk_spec(
                        self@.file_paths.skip(i as int + 1),
                        location_id as int,
                        cursor as int,
                        (limit - out.len()) as nat,
                    ) =~= pre_out + (seq![self@.file_paths[i as int]] + orphan_chunk_spec(
                        self@.file_paths.skip(i as int + 1),
                        location_id as int,
                        cursor as int,
                        (limit - out.len()) as nat,
                    )));
                }
            }
            i += 1;
        }
        proof {
            if i == len {
                assert(self@.file_paths.skip(len as int) =~= Seq::<FilePathView>::empty());
            }
            assert(out@.map_values(|fp: FilePathRecord| fp@) =~= orphan_chunk_spec(
                self@.file_paths,
                location_id as int,
                cursor as int,
                limit as nat,
            ));
        }
        out
    }
}

} // verus!

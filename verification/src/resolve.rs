//! The mathematical model of one resolver step: which chunk rows were
//! successfully extracted, which of them match an object the library already
//! knows, which distinct new identities need an object minted, and the exact
//! store that results.

use vstd::prelude::*;

use crate::pairing::{batch_paired, entry_paired, ops_for, LocalMutationView, WriteEntryView};
use crate::record::{ExtractionView, FileMetadataView, FilePathView, ObjectView};
use crate::store::{
    created_objects, find_cas, find_connect, fp_pub_ids_unique, object_of_create, rows_ordered,
    store_wf, StoreView,
};

verus! {

/// One successfully extracted chunk row: the orphan file path and the
/// metadata computed for it.
pub ghost struct OkRow {
    pub fp: FilePathView,
    pub meta: FileMetadataView,
}

/// One fully resolved chunk row: the object it will be linked to, and
/// whether that object already existed before the step.
pub ghost struct PlanRow {
    pub fp: FilePathView,
    pub meta: FileMetadataView,
    pub target: int,
    pub existing: bool,
}

/// The view of a list of candidate fresh identifiers.
pub open spec fn ids_view(v: Seq<u128>) -> Seq<int> {
    v.map_values(|x: u128| x as int)
}

/// The metadata the extraction table holds for a file path (first matching
/// entry), or `None` when extraction failed or never ran for it.
pub open spec fn meta_for(ext: Seq<ExtractionView>, pid: int) -> Option<FileMetadataView>
    decreases ext.len(),
{
    if ext.len() == 0 {
        None
    } else if ext[0].fp_pub_id == pid {
        ext[0].meta
    } else {
        meta_for(ext.skip(1), pid)
    }
}

/// The chunk rows whose extraction succeeded, in chunk order, each with its
/// metadata.
pub open spec fn ok_rows(chunk: Seq<FilePathView>, ext: Seq<ExtractionView>) -> Seq<OkRow>
    decreases chunk.len(),
{
    if chunk.len() == 0 {
        Seq::empty()
    } else {
        let rest = ok_rows(chunk.skip(1), ext);
        match meta_for(ext, chunk[0].pub_id) {
            Some(m) => seq![OkRow { fp: chunk[0], meta: m }] + rest,
            None => rest,
        }
    }
}

/// The first row of `rows` belonging to the given file path, if any.
pub open spec fn row_for(rows: Seq<OkRow>, pid: int) -> Option<OkRow>
    decreases rows.len(),
{
    if rows.len() == 0 {
        None
    } else if rows[0].fp.pub_id == pid {
        Some(rows[0])
    } else {
        row_for(rows.skip(1), pid)
    }
}

/// Whether some file path row links the given object and carries the given
/// content identity: the object is "already connected to" that identity.
pub open spec fn object_links_cas(fps: Seq<FilePathView>, obj_pid: int, cas: Seq<char>) -> bool {
    exists|i: int|
        0 <= i < fps.len() && (#[trigger] fps[i]).object_pub_id == Some(obj_pid) && fps[i].cas_id
            == Some(cas)
}

/// The first object already connected (through some linked file path) to the
/// given content identity — the dedup lookup against persisted state.
pub open spec fn linked_object(
    fps: Seq<FilePathView>,
    objs: Seq<ObjectView>,
    cas: Seq<char>,
) -> Option<int>
    decreases objs.len(),
{
    if objs.len() == 0 {
        None
    } else if object_links_cas(fps, objs[0].pub_id, cas) {
        Some(objs[0].pub_id)
    } else {
        linked_object(fps, objs.skip(1), cas)
    }
}

/// The extracted rows whose identity matches no existing object: each needs
/// a (possibly shared) new object.
pub open spec fn rows_needing_object(
    rows: Seq<OkRow>,
    fps: Seq<FilePathView>,
    objs: Seq<ObjectView>,
) -> Seq<OkRow>
    decreases rows.len(),
{
    if rows.len() == 0 {
        Seq::empty()
    } else {
        let rest = rows_needing_object(rows.skip(1), fps, objs);
        if linked_object(fps, objs, rows[0].meta.cas_id) is None {
            seq![rows[0]] + rest
        } else {
            rest
        }
    }
}

/// Whether a list of identities holds the given one.
pub open spec fn contains_cas(d: Seq<Seq<char>>, cas: Seq<char>) -> bool {
    exists|i: int| 0 <= i < d.len() && d[i] == cas
}

/// The position of an identity in a list of identities (first occurrence).
pub open spec fn cas_index(d: Seq<Seq<char>>, cas: Seq<char>) -> int
    decreases d.len(),
{
    if d.len() == 0 {
        0
    } else if d[0] == cas {
        0
    } else {
        1 + cas_index(d.skip(1), cas)
    }
}

/// The distinct content identities of the given rows, in order of first
/// appearance: two rows sharing an identity resolve to one entry, hence to
/// one new object.
pub open spec fn distinct_cas(rows: Seq<OkRow>) -> Seq<Seq<char>>
    decreases rows.len(),
{
    if rows.len() == 0 {
        Seq::empty()
    } else {
        let prefix = distinct_cas(rows.drop_last());
        if contains_cas(prefix, rows.last().meta.cas_id) {
            prefix
        } else {
            prefix.push(rows.last().meta.cas_id)
        }
    }
}

/// The first row carrying the given identity: the representative whose
/// creation timestamp and kind the new object copies.
pub open spec fn row_with_cas(rows: Seq<OkRow>, cas: Seq<char>) -> OkRow
    decreases rows.len(),
{
    if rows.len() == 0 {
        arbitrary()
    } else if rows[0].meta.cas_id == cas {
        rows[0]
    } else {
        row_with_cas(rows.skip(1), cas)
    }
}

/// The resolution of every extracted row: link target and whether the target
/// pre-existed. Rows matching no existing object share targets through
/// [`distinct_cas`] positions, so equal new identities get equal objects.
pub open spec fn plan_rows(
    rows: Seq<OkRow>,
    fps: Seq<FilePathView>,
    objs: Seq<ObjectView>,
    d: Seq<Seq<char>>,
    fresh: Seq<int>,
) -> Seq<PlanRow> {
    rows.map_values(
        |r: OkRow|
            match linked_object(fps, objs, r.meta.cas_id) {
                Some(o) => PlanRow { fp: r.fp, meta: r.meta, target: o, existing: true },
                None => PlanRow {
                    fp: r.fp,
                    meta: r.meta,
                    target: fresh[cas_index(d, r.meta.cas_id)],
                    existing: false,
                },
            },
    )
}

/// The first plan row belonging to the given file path, if any.
pub open spec fn plan_for(plan: Seq<PlanRow>, pid: int) -> Option<PlanRow>
    decreases plan.len(),
{
    if plan.len() == 0 {
        None
    } else if plan[0].fp.pub_id == pid {
        Some(plan[0])
    } else {
        plan_for(plan.skip(1), pid)
    }
}

/// The paired entry assigning one row its content identity.
pub open spec fn assign_entry(r: OkRow) -> WriteEntryView {
    let m = LocalMutationView::SetCasId { fp_pub_id: r.fp.pub_id, cas_id: r.meta.cas_id };
    WriteEntryView { ops: ops_for(m), mutation: m }
}

/// The identity-assignment batch: one paired entry per extracted row.
pub open spec fn assign_batch_spec(rows: Seq<OkRow>) -> Seq<WriteEntryView> {
    rows.map_values(|r: OkRow| assign_entry(r))
}

/// The paired entry connecting one file path to one object.
pub open spec fn connect_entry(pid: int, obj: int) -> WriteEntryView {
    let m = LocalMutationView::ConnectObject { fp_pub_id: pid, object_pub_id: obj };
    WriteEntryView { ops: ops_for(m), mutation: m }
}

/// The link batch for rows matching pre-existing objects, in row order.
pub open spec fn link_existing_entries(plan: Seq<PlanRow>) -> Seq<WriteEntryView>
    decreases plan.len(),
{
    if plan.len() == 0 {
        Seq::empty()
    } else {
        let rest = link_existing_entries(plan.skip(1));
        if plan[0].existing {
            seq![connect_entry(plan[0].fp.pub_id, plan[0].target)] + rest
        } else {
            rest
        }
    }
}

/// The link batch for rows resolved to newly minted objects, in row order.
pub open spec fn link_new_entries(plan: Seq<PlanRow>) -> Seq<WriteEntryView>
    decreases plan.len(),
{
    if plan.len() == 0 {
        Seq::empty()
    } else {
        let rest = link_new_entries(plan.skip(1));
        if !plan[0].existing {
            seq![connect_entry(plan[0].fp.pub_id, plan[0].target)] + rest
        } else {
            rest
        }
    }
}

/// The paired entry creating one new object.
pub open spec fn create_entry(pub_id: int, date_created: int, kind: int) -> WriteEntryView {
    let m = LocalMutationView::CreateObject { pub_id, date_created, kind };
    WriteEntryView { ops: ops_for(m), mutation: m }
}

/// The creation batch: one paired entry per distinct unmatched identity,
/// copying timestamp and kind from that identity's first row.
pub open spec fn create_batch_spec(
    d: Seq<Seq<char>>,
    news: Seq<OkRow>,
    fresh: Seq<int>,
) -> Seq<WriteEntryView> {
    Seq::new(
        d.len(),
        |k: int|
            create_entry(
                fresh[k],
                row_with_cas(news, d[k]).fp.date_created,
                row_with_cas(news, d[k]).meta.kind,
            ),
    )
}

/// One file path row after the step: rows the plan covers get their identity
/// and their object reference; every other row is untouched.
pub open spec fn apply_plan(fp: FilePathView, plan: Seq<PlanRow>) -> FilePathView {
    match plan_for(plan, fp.pub_id) {
        Some(p) => FilePathView {
            cas_id: Some(p.meta.cas_id),
            object_pub_id: Some(p.target),
            ..fp
        },
        None => fp,
    }
}

/// The candidate identifiers are pairwise distinct and collide with no
/// object the store already holds; at least `need` of them are available.
pub open spec fn fresh_ids_ok(s: StoreView, fresh: Seq<int>, need: int) -> bool {
    &&& fresh.len() >= need
    &&& forall|k: int, l: int| 0 <= k < l < fresh.len() ==> fresh[k] != fresh[l]
    &&& forall|k: int, j: int|
        0 <= k < fresh.len() && 0 <= j < s.objects.len() ==> #[trigger] fresh[k] != (
        #[trigger] s.objects[j]).pub_id
}

/// The chunk consists of orphan rows of the store — rows the store holds,
/// with no content identity and no object link yet — with pairwise distinct
/// identifiers.
pub open spec fn chunk_ok(s: StoreView, chunk: Seq<FilePathView>) -> bool {
    &&& forall|k: int|
        0 <= k < chunk.len() ==> exists|i: int|
            0 <= i < s.file_paths.len() && s.file_paths[i] == (#[trigger] chunk[k])
    &&& forall|k: int|
        0 <= k < chunk.len() ==> (#[trigger] chunk[k]).cas_id is None && chunk[k].object_pub_id
            is None
    &&& forall|k: int, l: int|
        0 <= k < l < chunk.len() ==> (#[trigger] chunk[k]).pub_id != (#[trigger] chunk[l]).pub_id
}

/// The exact store one resolver step leaves behind: identities assigned,
/// matching rows linked to their pre-existing objects, one new object per
/// distinct unmatched identity, the remaining rows linked to those, and the
/// committed batches appended to the log.
/// The whole plan of one step over a store.
pub open spec fn step_plan(
    s: StoreView,
    chunk: Seq<FilePathView>,
    ext: Seq<ExtractionView>,
    fresh: Seq<int>,
) -> Seq<PlanRow> {
    let rows = ok_rows(chunk, ext);
    let news = rows_needing_object(rows, s.file_paths, s.objects);
    plan_rows(rows, s.file_paths, s.objects, distinct_cas(news), fresh)
}

pub open spec fn step_store(
    s: StoreView,
    chunk: Seq<FilePathView>,
    ext: Seq<ExtractionView>,
    fresh: Seq<int>,
) -> StoreView {
    let rows = ok_rows(chunk, ext);
    let news = rows_needing_object(rows, s.file_paths, s.objects);
    let d = distinct_cas(news);
    let plan = step_plan(s, chunk, ext, fresh);
    let file_paths = s.file_paths.map_values(|fp: FilePathView| apply_plan(fp, plan));
    let b1 = assign_batch_spec(rows);
    let b2 = link_existing_entries(plan);
    if news.len() == 0 {
        StoreView { file_paths, objects: s.objects, history: s.history.push(b1).push(b2) }
    } else {
        let b3 = create_batch_spec(d, news, fresh);
        let b4 = link_new_entries(plan);
        StoreView {
            file_paths,
            objects: s.objects + created_objects(b3),
            history: s.history.push(b1).push(b2).push(b3).push(b4),
        }
    }
}

/// How many objects one step creates: one per distinct unmatched identity.
pub open spec fn objects_created_spec(
    s: StoreView,
    chunk: Seq<FilePathView>,
    ext: Seq<ExtractionView>,
) -> int {
    distinct_cas(
        rows_needing_object(ok_rows(chunk, ext), s.file_paths, s.objects),
    ).len() as int
}

/// How many file paths one step links (to pre-existing or new objects): all
/// successfully extracted rows.
pub open spec fn objects_linked_spec(
    s: StoreView,
    chunk: Seq<FilePathView>,
    ext: Seq<ExtractionView>,
) -> int {
    ok_rows(chunk, ext).len() as int
}

/// Pairwise-distinct file path identifiers over a plan.
pub open spec fn plan_pids_distinct(plan: Seq<PlanRow>) -> bool {
    forall|k: int, l: int|
        0 <= k < l < plan.len() ==> (#[trigger] plan[k]).fp.pub_id != (#[trigger] plan[l]).fp.pub_id
}

/// Pairwise-distinct file path identifiers over extracted rows.
pub open spec fn row_pids_distinct(rows: Seq<OkRow>) -> bool {
    forall|k: int, l: int|
        0 <= k < l < rows.len() ==> (#[trigger] rows[k]).fp.pub_id != (#[trigger] rows[l]).fp.pub_id
}

/// The identity-assignment batch addresses a file path exactly when one of
/// its rows belongs to it, and assigns that row's identity.
pub proof fn lemma_assign_batch_find(rows: Seq<OkRow>, pid: int)
    ensures
        find_cas(assign_batch_spec(rows), pid) == (match row_for(rows, pid) {
            Some(r) => Some(r.meta.cas_id),
            None => None::<Seq<char>>,
        }),
    decreases rows.len(),
{
    if rows.len() == 0 {
        assert(assign_batch_spec(rows) =~= Seq::<WriteEntryView>::empty());
    } else {
        lemma_assign_batch_find(rows.skip(1), pid);
        assert(assign_batch_spec(rows).skip(1) =~= assign_batch_spec(rows.skip(1)));
        assert(assign_batch_spec(rows)[0] == assign_entry(rows[0]));
    }
}

/// A plan that nowhere names a file path resolves it to nothing.
pub proof fn lemma_plan_for_absent(plan: Seq<PlanRow>, pid: int)
    requires
        forall|k: int| 0 <= k < plan.len() ==> (#[trigger] plan[k]).fp.pub_id != pid,
    ensures
        plan_for(plan, pid) is None,
    decreases plan.len(),
{
    if plan.len() != 0 {
        assert(forall|k: int|
            0 <= k < plan.skip(1).len() ==> (#[trigger] plan.skip(1)[k]).fp.pub_id != pid);
        lemma_plan_for_absent(plan.skip(1), pid);
    }
}

/// The existing-object link batch addresses a file path exactly when its
/// plan row targets a pre-existing object.
pub proof fn lemma_link_existing_find(plan: Seq<PlanRow>, pid: int)
    requires
        plan_pids_distinct(plan),
    ensures
        find_connect(link_existing_entries(plan), pid) == (match plan_for(plan, pid) {
            Some(p) => if p.existing {
                Some(p.target)
            } else {
                None::<int>
            },
            None => None::<int>,
        }),
    decreases plan.len(),
{
    if plan.len() != 0 {
        assert(forall|k: int, l: int|
            0 <= k < l < plan.skip(1).len() ==> (#[trigger] plan.skip(1)[k]).fp.pub_id != (
            #[trigger] plan.skip(1)[l]).fp.pub_id);
        lemma_link_existing_find(plan.skip(1), pid);
        if plan[0].fp.pub_id == pid {
            if plan[0].existing {
                assert(link_existing_entries(plan)[0] == connect_entry(
                    plan[0].fp.pub_id,
                    plan[0].target,
                ));
            } else {
                assert(forall|k: int|
                    0 <= k < plan.skip(1).len() ==> (#[trigger] plan.skip(1)[k]).fp.pub_id != pid);
                lemma_plan_for_absent(plan.skip(1), pid);
            }
        } else {
            if plan[0].existing {
                assert(link_existing_entries(plan)[0] == connect_entry(
                    plan[0].fp.pub_id,
                    plan[0].target,
                ));
                assert(link_existing_entries(plan).skip(1) =~= link_existing_entries(
                    plan.skip(1),
                ));
            }
        }
    }
}

/// The new-object link batch addresses a file path exactly when its plan row
/// targets a newly minted object.
pub proof fn lemma_link_new_find(plan: Seq<PlanRow>, pid: int)
    requires
        plan_pids_distinct(plan),
    ensures
        find_connect(link_new_entries(plan), pid) == (match plan_for(plan, pid) {
            Some(p) => if !p.existing {
                Some(p.target)
            } else {
                None::<int>
            },
            None => None::<int>,
        }),
    decreases plan.len(),
{
    if plan.len() != 0 {
        assert(forall|k: int, l: int|
            0 <= k < l < plan.skip(1).len() ==> (#[trigger] plan.skip(1)[k]).fp.pub_id != (
            #[trigger] plan.skip(1)[l]).fp.pub_id);
        lemma_link_new_find(plan.skip(1), pid);
        if plan[0].fp.pub_id == pid {
            if !plan[0].existing {
                assert(link_new_entries(plan)[0] == connect_entry(
                    plan[0].fp.pub_id,
                    plan[0].target,
                ));
            } else {
                assert(forall|k: int|
                    0 <= k < plan.skip(1).len() ==> (#[trigger] plan.skip(1)[k]).fp.pub_id != pid);
                lemma_plan_for_absent(plan.skip(1), pid);
            }
        } else {
            if !plan[0].existing {
                assert(link_new_entries(plan)[0] == connect_entry(
                    plan[0].fp.pub_id,
                    plan[0].target,
                ));
                assert(link_new_entries(plan).skip(1) =~= link_new_entries(plan.skip(1)));
            }
        }
    }
}

/// Resolving the plan built over rows is resolving the rows.
pub proof fn lemma_plan_for_row(
    rows: Seq<OkRow>,
    fps: Seq<FilePathView>,
    objs: Seq<ObjectView>,
    d: Seq<Seq<char>>,
    fresh: Seq<int>,
    pid: int,
)
    ensures
        plan_for(plan_rows(rows, fps, objs, d, fresh), pid) == (match row_for(rows, pid) {
            Some(r) => Some(
                match linked_object(fps, objs, r.meta.cas_id) {
                    Some(o) => PlanRow { fp: r.fp, meta: r.meta, target: o, existing: true },
                    None => PlanRow {
                        fp: r.fp,
                        meta: r.meta,
                        target: fresh[cas_index(d, r.meta.cas_id)],
                        existing: false,
                    },
                },
            ),
            None => None::<PlanRow>,
        }),
    decreases rows.len(),
{
    if rows.len() != 0 {
        lemma_plan_for_row(rows.skip(1), fps, objs, d, fresh, pid);
        assert(plan_rows(rows, fps, objs, d, fresh).skip(1) =~= plan_rows(
            rows.skip(1),
            fps,
            objs,
            d,
            fresh,
        ));
    }
}

/// A resolved row is one of the rows.
pub proof fn lemma_row_for_member(rows: Seq<OkRow>, pid: int)
    ensures
        match row_for(rows, pid) {
            Some(r) => r.fp.pub_id == pid && exists|j: int|
                0 <= j < rows.len() && rows[j] == r,
            None => forall|j: int| 0 <= j < rows.len() ==> (#[trigger] rows[j]).fp.pub_id != pid,
        },
    decreases rows.len(),
{
    if rows.len() != 0 {
        lemma_row_for_member(rows.skip(1), pid);
        if rows[0].fp.pub_id != pid {
            match row_for(rows.skip(1), pid) {
                Some(r) => {
                    let j = choose|j: int| 0 <= j < rows.skip(1).len() && rows.skip(1)[j] == r;
                    assert(rows[j + 1] == r);
                },
                None => {
                    assert forall|j: int|
                        0 <= j < rows.len() implies (#[trigger] rows[j]).fp.pub_id != pid by {
                        if j > 0 {
                            assert(rows.skip(1)[j - 1] == rows[j]);
                        }
                    }
                },
            }
        }
    }
}

/// No more extracted rows than chunk rows.
pub proof fn lemma_ok_rows_len(chunk: Seq<FilePathView>, ext: Seq<ExtractionView>)
    ensures
        ok_rows(chunk, ext).len() <= chunk.len(),
    decreases chunk.len(),
{
    if chunk.len() != 0 {
        lemma_ok_rows_len(chunk.skip(1), ext);
    }
}

/// Extracted rows come from chunk rows (keeping distinct identifiers), and
/// carry the metadata the table holds for them.
pub proof fn lemma_ok_rows_sub(chunk: Seq<FilePathView>, ext: Seq<ExtractionView>)
    requires
        forall|k: int, l: int|
            0 <= k < l < chunk.len() ==> (#[trigger] chunk[k]).pub_id != (
            #[trigger] chunk[l]).pub_id,
    ensures
        forall|j: int|
            0 <= j < ok_rows(chunk, ext).len() ==> exists|k: int|
                0 <= k < chunk.len() && chunk[k] == (#[trigger] ok_rows(chunk, ext)[j]).fp,
        row_pids_distinct(ok_rows(chunk, ext)),
    decreases chunk.len(),
{
    if chunk.len() != 0 {
        assert(forall|k: int, l: int|
            0 <= k < l < chunk.skip(1).len() ==> (#[trigger] chunk.skip(1)[k]).pub_id != (
            #[trigger] chunk.skip(1)[l]).pub_id);
        lemma_ok_rows_sub(chunk.skip(1), ext);
        let rows = ok_rows(chunk, ext);
        let rest = ok_rows(chunk.skip(1), ext);
        assert forall|j: int| 0 <= j < rows.len() implies exists|k: int|
            0 <= k < chunk.len() && chunk[k] == (#[trigger] rows[j]).fp by {
            match meta_for(ext, chunk[0].pub_id) {
                Some(m) => {
                    if j == 0 {
                        assert(chunk[0] == rows[0].fp);
                    } else {
                        assert(rows[j] == rest[j - 1]);
                        let k = choose|k: int|
                            0 <= k < chunk.skip(1).len() && chunk.skip(1)[k] == rest[j - 1].fp;
                        assert(chunk[k + 1] == rows[j].fp);
                    }
                },
                None => {
                    assert(rows[j] == rest[j]);
                    let k = choose|k: int|
                        0 <= k < chunk.skip(1).len() && chunk.skip(1)[k] == rest[j].fp;
                    assert(chunk[k + 1] == rows[j].fp);
                },
            }
        }
        assert forall|k: int, l: int| 0 <= k < l < rows.len() implies (
        #[trigger] rows[k]).fp.pub_id != (#[trigger] rows[l]).fp.pub_id by {
            match meta_for(ext, chunk[0].pub_id) {
                Some(m) => {
                    if k == 0 {
                        assert(rows[l] == rest[l - 1]);
                        let kk = choose|kk: int|
                            0 <= kk < chunk.skip(1).len() && chunk.skip(1)[kk] == rest[l - 1].fp;
                        assert(chunk[kk + 1] == rows[l].fp);
                        assert(chunk[0].pub_id != chunk[kk + 1].pub_id);
                    } else {
                        assert(rows[k] == rest[k - 1] && rows[l] == rest[l - 1]);
                    }
                },
                None => {
                    assert(rows[k] == rest[k] && rows[l] == rest[l]);
                },
            }
        }
    }
}

/// Rows needing an object are rows whose identity matches no existing
/// object, and there are no others.
pub proof fn lemma_news_sub(rows: Seq<OkRow>, fps: Seq<FilePathView>, objs: Seq<ObjectView>)
    ensures
        rows_needing_object(rows, fps, objs).len() <= rows.len(),
        forall|j: int|
            0 <= j < rows_needing_object(rows, fps, objs).len() ==> linked_object(
                fps,
                objs,
                (#[trigger] rows_needing_object(rows, fps, objs)[j]).meta.cas_id,
            ) is None && exists|k: int|
                0 <= k < rows.len() && rows[k] == rows_needing_object(rows, fps, objs)[j],
    decreases rows.len(),
{
    if rows.len() != 0 {
        lemma_news_sub(rows.skip(1), fps, objs);
        let news = rows_needing_object(rows, fps, objs);
        let rest = rows_needing_object(rows.skip(1), fps, objs);
        assert forall|j: int| 0 <= j < news.len() implies linked_object(
            fps,
            objs,
            (#[trigger] news[j]).meta.cas_id,
        ) is None && exists|k: int| 0 <= k < rows.len() && rows[k] == news[j] by {
            if linked_object(fps, objs, rows[0].meta.cas_id) is None {
                if j == 0 {
                    assert(rows[0] == news[0]);
                } else {
                    assert(news[j] == rest[j - 1]);
                    let k = choose|k: int|
                        0 <= k < rows.skip(1).len() && rows.skip(1)[k] == rest[j - 1];
                    assert(rows[k + 1] == news[j]);
                }
            } else {
                assert(news[j] == rest[j]);
                let k = choose|k: int| 0 <= k < rows.skip(1).len() && rows.skip(1)[k] == rest[j];
                assert(rows[k + 1] == news[j]);
            }
        }
    }
}

/// Every row whose identity matches no existing object appears among the
/// rows needing an object.
pub proof fn lemma_news_complete(
    rows: Seq<OkRow>,
    fps: Seq<FilePathView>,
    objs: Seq<ObjectView>,
    j: int,
)
    requires
        0 <= j < rows.len(),
        linked_object(fps, objs, rows[j].meta.cas_id) is None,
    ensures
        exists|k: int|
            0 <= k < rows_needing_object(rows, fps, objs).len() && rows_needing_object(
                rows,
                fps,
                objs,
            )[k] == rows[j],
    decreases rows.len(),
{
    let news = rows_needing_object(rows, fps, objs);
    let rest = rows_needing_object(rows.skip(1), fps, objs);
    if j == 0 {
        assert(news[0] == rows[0]);
    } else {
        assert(rows.skip(1)[j - 1] == rows[j]);
        lemma_news_complete(rows.skip(1), fps, objs, j - 1);
        let k = choose|k: int| 0 <= k < rest.len() && rest[k] == rows[j];
        if linked_object(fps, objs, rows[0].meta.cas_id) is None {
            assert(news[k + 1] == rows[j]);
        } else {
            assert(news[k] == rows[j]);
        }
    }
}

/// No more distinct identities than rows.
pub proof fn lemma_distinct_len(rows: Seq<OkRow>)
    ensures
        distinct_cas(rows).len() <= rows.len(),
    decreases rows.len(),
{
    if rows.len() != 0 {
        lemma_distinct_len(rows.drop_last());
    }
}

/// Every row's identity appears among the distinct identities.
pub proof fn lemma_distinct_complete(rows: Seq<OkRow>, j: int)
    requires
        0 <= j < rows.len(),
    ensures
        contains_cas(distinct_cas(rows), rows[j].meta.cas_id),
    decreases rows.len(),
{
    let d = distinct_cas(rows);
    let prefix = distinct_cas(rows.drop_last());
    if j == rows.len() - 1 {
        if contains_cas(prefix, rows.last().meta.cas_id) {
            let i = choose|i: int| 0 <= i < prefix.len() && prefix[i] == rows.last().meta.cas_id;
            assert(d[i] == rows[j].meta.cas_id);
        } else {
            assert(d.last() == rows[j].meta.cas_id);
        }
    } else {
        assert(rows.drop_last()[j] == rows[j]);
        lemma_distinct_complete(rows.drop_last(), j);
        let i = choose|i: int| 0 <= i < prefix.len() && prefix[i] == rows[j].meta.cas_id;
        assert(d[i] == rows[j].meta.cas_id);
    }
}

/// Every distinct identity is some row's identity.
pub proof fn lemma_distinct_has_row(rows: Seq<OkRow>, k: int)
    requires
        0 <= k < distinct_cas(rows).len(),
    ensures
        exists|j: int| 0 <= j < rows.len() && (#[trigger] rows[j]).meta.cas_id == distinct_cas(
            rows,
        )[k],
    decreases rows.len(),
{
    let d = distinct_cas(rows);
    let prefix = distinct_cas(rows.drop_last());
    if rows.len() != 0 {
        if k < prefix.len() {
            lemma_distinct_has_row(rows.drop_last(), k);
            let j = choose|j: int|
                0 <= j < rows.drop_last().len() && (#[trigger] rows.drop_last()[j]).meta.cas_id
                    == prefix[k];
            assert(rows[j].meta.cas_id == d[k]);
        } else {
            assert(rows[rows.len() - 1].meta.cas_id == d[k]);
        }
    }
}

/// The position of a held identity is in bounds and holds it.
pub proof fn lemma_cas_index_bounds(d: Seq<Seq<char>>, cas: Seq<char>)
    requires
        contains_cas(d, cas),
    ensures
        0 <= cas_index(d, cas) < d.len(),
        d[cas_index(d, cas)] == cas,
    decreases d.len(),
{
    if d.len() != 0 && d[0] != cas {
        let i = choose|i: int| 0 <= i < d.len() && d[i] == cas;
        assert(d.skip(1)[i - 1] == cas);
        lemma_cas_index_bounds(d.skip(1), cas);
    }
}

/// The representative row for a held identity exists among the rows and
/// carries that identity.
pub proof fn lemma_row_with_cas_found(rows: Seq<OkRow>, cas: Seq<char>)
    requires
        exists|j: int| 0 <= j < rows.len() && (#[trigger] rows[j]).meta.cas_id == cas,
    ensures
        row_with_cas(rows, cas).meta.cas_id == cas,
        exists|j: int| 0 <= j < rows.len() && rows[j] == row_with_cas(rows, cas),
    decreases rows.len(),
{
    if rows[0].meta.cas_id != cas {
        let j = choose|j: int| 0 <= j < rows.len() && (#[trigger] rows[j]).meta.cas_id == cas;
        assert(rows.skip(1)[j - 1].meta.cas_id == cas);
        lemma_row_with_cas_found(rows.skip(1), cas);
        let k = choose|k: int|
            0 <= k < rows.skip(1).len() && rows.skip(1)[k] == row_with_cas(rows.skip(1), cas);
        assert(rows[k + 1] == row_with_cas(rows, cas));
    }
}

/// A found existing object is an object row, reached through some linked
/// file path carrying the identity.
pub proof fn lemma_linked_object_some(fps: Seq<FilePathView>, objs: Seq<ObjectView>, cas: Seq<char>)
    ensures
        match linked_object(fps, objs, cas) {
            Some(o) => object_links_cas(fps, o, cas) && exists|j: int|
                0 <= j < objs.len() && (#[trigger] objs[j]).pub_id == o,
            None => true,
        },
    decreases objs.len(),
{
    if objs.len() != 0 {
        if object_links_cas(fps, objs[0].pub_id, cas) {
            assert(objs[0].pub_id == objs[0].pub_id);
        } else {
            lemma_linked_object_some(fps, objs.skip(1), cas);
            match linked_object(fps, objs.skip(1), cas) {
                Some(o) => {
                    let j = choose|j: int|
                        0 <= j < objs.skip(1).len() && (#[trigger] objs.skip(1)[j]).pub_id == o;
                    assert(objs[j + 1].pub_id == o);
                },
                None => {},
            }
        }
    }
}

/// If any object row is linked to the identity, the lookup finds one.
pub proof fn lemma_linked_object_complete(
    fps: Seq<FilePathView>,
    objs: Seq<ObjectView>,
    cas: Seq<char>,
    j: int,
)
    requires
        0 <= j < objs.len(),
        object_links_cas(fps, objs[j].pub_id, cas),
    ensures
        linked_object(fps, objs, cas) is Some,
    decreases objs.len(),
{
    if !object_links_cas(fps, objs[0].pub_id, cas) {
        assert(objs.skip(1)[j - 1] == objs[j]);
        lemma_linked_object_complete(fps, objs.skip(1), cas, j - 1);
    }
}

/// Every plan row lands in exactly one of the two link batches.
pub proof fn lemma_partition_len(plan: Seq<PlanRow>)
    ensures
        link_existing_entries(plan).len() + link_new_entries(plan).len() == plan.len(),
    decreases plan.len(),
{
    if plan.len() != 0 {
        lemma_partition_len(plan.skip(1));
    }
}

/// Both link batches hold only canonically paired connect entries.
pub proof fn lemma_link_batches_paired(plan: Seq<PlanRow>)
    ensures
        batch_paired(link_existing_entries(plan)),
        batch_paired(link_new_entries(plan)),
        forall|j: int|
            0 <= j < link_existing_entries(plan).len() ==> (#[trigger] link_existing_entries(
                plan,
            )[j]).mutation is ConnectObject,
        forall|j: int|
            0 <= j < link_new_entries(plan).len() ==> (#[trigger] link_new_entries(
                plan,
            )[j]).mutation is ConnectObject,
    decreases plan.len(),
{
    if plan.len() != 0 {
        lemma_link_batches_paired(plan.skip(1));
        let b = link_existing_entries(plan);
        let rest = link_existing_entries(plan.skip(1));
        assert forall|j: int| 0 <= j < b.len() implies entry_paired(#[trigger] b[j]) && b[j].mutation
            is ConnectObject by {
            if plan[0].existing {
                if j == 0 {
                    assert(b[0] == connect_entry(plan[0].fp.pub_id, plan[0].target));
                } else {
                    assert(b[j] == rest[j - 1]);
                }
            } else {
                assert(b[j] == rest[j]);
            }
        }
        let c = link_new_entries(plan);
        let crest = link_new_entries(plan.skip(1));
        assert forall|j: int| 0 <= j < c.len() implies entry_paired(#[trigger] c[j]) && c[j].mutation
            is ConnectObject by {
            if !plan[0].existing {
                if j == 0 {
                    assert(c[0] == connect_entry(plan[0].fp.pub_id, plan[0].target));
                } else {
                    assert(c[j] == crest[j - 1]);
                }
            } else {
                assert(c[j] == crest[j]);
            }
        }
    }
}

/// The step preserves the store's well-formedness — in particular the dedup
/// invariant, "at most one object per distinct content identity" — and every
/// successfully extracted row ends up identified and linked, while every
/// other row is untouched.
#[verifier::rlimit(60)]
pub proof fn lemma_step_wf(
    s: StoreView,
    chunk: Seq<FilePathView>,
    ext: Seq<ExtractionView>,
    fresh: Seq<int>,
)
    requires
        store_wf(s),
        chunk_ok(s, chunk),
        fresh_ids_ok(s, fresh, chunk.len() as int),
    ensures
        store_wf(step_store(s, chunk, ext, fresh)),
        step_store(s, chunk, ext, fresh).file_paths.len() == s.file_paths.len(),
        forall|i: int|
            0 <= i < s.file_paths.len() ==> match row_for(
                ok_rows(chunk, ext),
                (#[trigger] s.file_paths[i]).pub_id,
            ) {
                Some(r) => step_store(s, chunk, ext, fresh).file_paths[i].cas_id == Some(
                    r.meta.cas_id,
                ) && step_store(s, chunk, ext, fresh).file_paths[i].object_pub_id is Some,
                None => step_store(s, chunk, ext, fresh).file_paths[i] == s.file_paths[i],
            },
{
    let rows = ok_rows(chunk, ext);
    let news = rows_needing_object(rows, s.file_paths, s.objects);
    let d = distinct_cas(news);
    let plan = step_plan(s, chunk, ext, fresh);
    let s2 = step_store(s, chunk, ext, fresh);

    lemma_ok_rows_len(chunk, ext);
    lemma_ok_rows_sub(chunk, ext);
    lemma_news_sub(rows, s.file_paths, s.objects);
    lemma_distinct_len(news);

    assert(s2.file_paths.len() == s.file_paths.len());
    assert(forall|i: int|
        0 <= i < s.file_paths.len() ==> #[trigger] s2.file_paths[i] == apply_plan(
            s.file_paths[i],
            plan,
        ));

    // Each store row the chunk covers is one of the extracted rows' file
    // paths, and was an orphan; rows the chunk does not cover are untouched.
    assert forall|i: int| 0 <= i < s.file_paths.len() implies match row_for(
        rows,
        (#[trigger] s.file_paths[i]).pub_id,
    ) {
        Some(r) => s.file_paths[i] == r.fp && s.file_paths[i].cas_id is None
            && s.file_paths[i].object_pub_id is None,
        None => true,
    } by {
        let pid = s.file_paths[i].pub_id;
        lemma_row_for_member(rows, pid);
        match row_for(rows, pid) {
            Some(r) => {
                let j = choose|j: int| 0 <= j < rows.len() && rows[j] == r;
                let k = choose|k: int| 0 <= k < chunk.len() && chunk[k] == rows[j].fp;
                let i2 = choose|i2: int|
                    0 <= i2 < s.file_paths.len() && s.file_paths[i2] == chunk[k];
                if i2 != i {
                    assert(s.file_paths[i2].pub_id == pid);
                    assert(false);
                }
            },
            None => {},
        }
    }

    // Characterize every plan row, and derive the linkage facts.
    assert forall|i: int| 0 <= i < s.file_paths.len() implies match row_for(
        rows,
        (#[trigger] s.file_paths[i]).pub_id,
    ) {
        Some(r) => {
            &&& plan_for(plan, s.file_paths[i].pub_id) is Some
            &&& s2.file_paths[i].cas_id == Some(r.meta.cas_id)
            &&& s2.file_paths[i].object_pub_id is Some
            &&& (match linked_object(s.file_paths, s.objects, r.meta.cas_id) {
                Some(o) => s2.file_paths[i].object_pub_id == Some(o),
                None => {
                    &&& contains_cas(d, r.meta.cas_id)
                    &&& s2.file_paths[i].object_pub_id == Some(
                        fresh[cas_index(d, r.meta.cas_id)],
                    )
                    &&& news.len() > 0
                },
            })
        },
        None => s2.file_paths[i] == s.file_paths[i],
    } by {
        let pid = s.file_paths[i].pub_id;
        lemma_plan_for_row(rows, s.file_paths, s.objects, d, fresh, pid);
        lemma_row_for_member(rows, pid);
        match row_for(rows, pid) {
            Some(r) => {
                if linked_object(s.file_paths, s.objects, r.meta.cas_id) is None {
                    let j = choose|j: int| 0 <= j < rows.len() && rows[j] == r;
                    lemma_news_complete(rows, s.file_paths, s.objects, j);
                    let k = choose|k: int| 0 <= k < news.len() && news[k] == rows[j];
                    lemma_distinct_complete(news, k);
                    lemma_cas_index_bounds(d, r.meta.cas_id);
                }
            },
            None => {},
        }
    }

    // The appended object rows carry exactly the fresh identifiers.
    if news.len() > 0 {
        assert(s2.objects.len() == s.objects.len() + d.len());
        assert forall|k: int| 0 <= k < d.len() implies (#[trigger] s2.objects[s.objects.len() + k]).pub_id
            == fresh[k] by {
            assert(created_objects(create_batch_spec(d, news, fresh))[k] == object_of_create(
                create_entry(
                    fresh[k],
                    row_with_cas(news, d[k]).fp.date_created,
                    row_with_cas(news, d[k]).meta.kind,
                ).mutation,
            ));
        }
        assert(forall|j: int|
            0 <= j < s.objects.len() ==> #[trigger] s2.objects[j] == s.objects[j]);
    } else {
        assert(s2.objects == s.objects);
    }

    // rows_ordered, fp_pub_ids_unique: row ids and identifiers untouched.
    assert(forall|i: int|
        0 <= i < s.file_paths.len() ==> (#[trigger] s2.file_paths[i]).id == s.file_paths[i].id
            && s2.file_paths[i].pub_id == s.file_paths[i].pub_id);
    assert(rows_ordered(s2));
    assert(fp_pub_ids_unique(s2));

    // obj_pub_ids_unique.
    assert forall|i: int, j: int| 0 <= i < j < s2.objects.len() implies (
    #[trigger] s2.objects[i]).pub_id != (#[trigger] s2.objects[j]).pub_id by {
        if j >= s.objects.len() && i < s.objects.len() {
            assert(s2.objects[j].pub_id == fresh[j - s.objects.len()]);
        }
    }

    // links_resolve and linked_has_cas.
    assert forall|i: int|
        0 <= i < s2.file_paths.len() && (#[trigger] s2.file_paths[i]).object_pub_id
            is Some implies (exists|j: int|
        0 <= j < s2.objects.len() && (#[trigger] s2.objects[j]).pub_id
            == s2.file_paths[i].object_pub_id->0) && s2.file_paths[i].cas_id is Some by {
        let pid = s.file_paths[i].pub_id;
        match row_for(rows, pid) {
            Some(r) => {
                match linked_object(s.file_paths, s.objects, r.meta.cas_id) {
                    Some(o) => {
                        lemma_linked_object_some(s.file_paths, s.objects, r.meta.cas_id);
                        let j = choose|j: int|
                            0 <= j < s.objects.len() && (#[trigger] s.objects[j]).pub_id == o;
                        assert(s2.objects[j].pub_id == o);
                    },
                    None => {
                        lemma_row_for_member(rows, pid);
                        let j0 = choose|j0: int| 0 <= j0 < rows.len() && rows[j0] == r;
                        lemma_news_complete(rows, s.file_paths, s.objects, j0);
                        let k = choose|k: int| 0 <= k < news.len() && news[k] == rows[j0];
                        lemma_distinct_complete(news, k);
                        lemma_cas_index_bounds(d, r.meta.cas_id);
                        let ci = cas_index(d, r.meta.cas_id);
                        assert(news.len() > 0);
                        assert(s2.objects[s.objects.len() + ci].pub_id == fresh[ci]);
                    },
                }
            },
            None => {
                let j = choose|j: int|
                    0 <= j < s.objects.len() && (#[trigger] s.objects[j]).pub_id
                        == s.file_paths[i].object_pub_id->0;
                assert(s2.objects[j].pub_id == s2.file_paths[i].object_pub_id->0);
            },
        }
    }

    // The dedup invariant.
    assert forall|i1: int, i2: int|
        0 <= i1 < s2.file_paths.len() && 0 <= i2 < s2.file_paths.len()
            && (#[trigger] s2.file_paths[i1]).cas_id is Some
            && (#[trigger] s2.file_paths[i2]).cas_id is Some
            && s2.file_paths[i1].cas_id == s2.file_paths[i2].cas_id
            && s2.file_paths[i1].object_pub_id is Some
            && s2.file_paths[i2].object_pub_id is Some implies s2.file_paths[i1].object_pub_id
        == s2.file_paths[i2].object_pub_id by {
        let pid1 = s.file_paths[i1].pub_id;
        let pid2 = s.file_paths[i2].pub_id;
        let c = s2.file_paths[i1].cas_id->0;
        match row_for(rows, pid1) {
            Some(r1) => {
                match row_for(rows, pid2) {
                    Some(r2) => {
                        assert(r1.meta.cas_id == c && r2.meta.cas_id == c);
                    },
                    None => {
                        // An untouched linked row with identity c: the
                        // lookup finds exactly its object.
                        let o2 = s.file_paths[i2].object_pub_id->0;
                        let j = choose|j: int|
                            0 <= j < s.objects.len() && (#[trigger] s.objects[j]).pub_id == o2;
                        assert(object_links_cas(s.file_paths, s.objects[j].pub_id, c));
                        lemma_linked_object_complete(s.file_paths, s.objects, c, j);
                        lemma_linked_object_some(s.file_paths, s.objects, c);
                        let o = linked_object(s.file_paths, s.objects, c)->0;
                        let w = choose|w: int|
                            0 <= w < s.file_paths.len() && (#[trigger] s.file_paths[w]).object_pub_id
                                == Some(o) && s.file_paths[w].cas_id == Some(c);
                        assert(s.file_paths[w].object_pub_id == s.file_paths[i2].object_pub_id);
                        assert(r1.meta.cas_id == c);
                    },
                }
            },
            None => {
                match row_for(rows, pid2) {
                    Some(r2) => {
                        let o1 = s.file_paths[i1].object_pub_id->0;
                        let j = choose|j: int|
                            0 <= j < s.objects.len() && (#[trigger] s.objects[j]).pub_id == o1;
                        assert(object_links_cas(s.file_paths, s.objects[j].pub_id, c));
                        lemma_linked_object_complete(s.file_paths, s.objects, c, j);
                        lemma_linked_object_some(s.file_paths, s.objects, c);
                        let o = linked_object(s.file_paths, s.objects, c)->0;
                        let w = choose|w: int|
                            0 <= w < s.file_paths.len() && (#[trigger] s.file_paths[w]).object_pub_id
                                == Some(o) && s.file_paths[w].cas_id == Some(c);
                        assert(s.file_paths[w].object_pub_id == s.file_paths[i1].object_pub_id);
                        assert(r2.meta.cas_id == c);
                    },
                    None => {},
                }
            },
        }
    }

    // history_paired: the old log plus the step's batches.
    lemma_link_batches_paired(plan);
    assert forall|j: int| 0 <= j < assign_batch_spec(rows).len() implies entry_paired(
        #[trigger] assign_batch_spec(rows)[j],
    ) by {
        assert(assign_batch_spec(rows)[j] == assign_entry(rows[j]));
    }
    assert forall|j: int| 0 <= j < create_batch_spec(d, news, fresh).len() implies entry_paired(
        #[trigger] create_batch_spec(d, news, fresh)[j],
    ) by {
        assert(create_batch_spec(d, news, fresh)[j] == create_entry(
            fresh[j],
            row_with_cas(news, d[j]).fp.date_created,
            row_with_cas(news, d[j]).meta.kind,
        ));
    }
    assert forall|k: int| 0 <= k < s2.history.len() implies batch_paired(
        #[trigger] s2.history[k],
    ) by {
        if k < s.history.len() {
            assert(s2.history[k] == s.history[k]);
        }
    }
}

/// The position of the first occurrence is the occurrence found.
pub proof fn lemma_cas_index_at(d: Seq<Seq<char>>, cas: Seq<char>, i: int)
    requires
        0 <= i < d.len(),
        d[i] == cas,
        forall|j: int| 0 <= j < i ==> d[j] != cas,
    ensures
        cas_index(d, cas) == i,
    decreases d.len(),
{
    if d[0] != cas {
        assert(d.skip(1)[i - 1] == cas);
        assert(forall|j: int| 0 <= j < i - 1 ==> #[trigger] d.skip(1)[j] != cas);
        lemma_cas_index_at(d.skip(1), cas, i - 1);
    }
}

/// The first row found with an identity is the representative.
pub proof fn lemma_row_with_cas_at(rows: Seq<OkRow>, cas: Seq<char>, i: int)
    requires
        0 <= i < rows.len(),
        rows[i].meta.cas_id == cas,
        forall|j: int| 0 <= j < i ==> (#[trigger] rows[j]).meta.cas_id != cas,
    ensures
        row_with_cas(rows, cas) == rows[i],
    decreases rows.len(),
{
    if rows[0].meta.cas_id != cas {
        assert(rows.skip(1)[i - 1] == rows[i]);
        assert(forall|j: int| 0 <= j < i - 1 ==> (#[trigger] rows.skip(1)[j]).meta.cas_id != cas);
        lemma_row_with_cas_at(rows.skip(1), cas, i - 1);
    }
}

/// A plan whose rows all match existing objects links nothing new.
pub proof fn lemma_link_new_empty(plan: Seq<PlanRow>)
    requires
        forall|k: int| 0 <= k < plan.len() ==> (#[trigger] plan[k]).existing,
    ensures
        link_new_entries(plan).len() == 0,
    decreases plan.len(),
{
    if plan.len() != 0 {
        assert(forall|k: int|
            0 <= k < plan.skip(1).len() ==> (#[trigger] plan.skip(1)[k]).existing);
        lemma_link_new_empty(plan.skip(1));
    }
}

} // verus!

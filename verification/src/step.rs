//! One resolver step over a chunk of orphan file paths: assign content
//! identities, link rows whose identity the library already knows, mint one
//! object per distinct new identity, link the rest — every write committed
//! as a paired batch.

use vstd::prelude::*;

use crate::pairing::{
    batch_paired, entry_paired, file_path_cas_assign_ops, file_path_object_connect_ops,
    object_create_ops, WriteEntry, WriteEntryView,
};
use crate::record::{
    Extraction, ExtractionView, FileMetadata, FilePathRecord, FilePathView, ObjectRecord,
    ObjectView,
};
use crate::resolve::{
    apply_plan, assign_batch_spec, assign_entry, cas_index, chunk_ok, connect_entry, contains_cas,
    create_batch_spec, create_entry, distinct_cas, fresh_ids_ok, ids_view,
    lemma_assign_batch_find, lemma_cas_index_at, lemma_distinct_complete, lemma_distinct_has_row,
    lemma_distinct_len, lemma_link_batches_paired, lemma_link_existing_find, lemma_link_new_empty,
    lemma_link_new_find, lemma_news_complete, lemma_news_sub, lemma_ok_rows_len,
    lemma_ok_rows_sub, lemma_partition_len, lemma_plan_for_row, lemma_row_for_member,
    lemma_row_with_cas_at, lemma_step_wf, link_existing_entries, link_new_entries, linked_object,
    meta_for, object_links_cas, objects_created_spec, objects_linked_spec, ok_rows, plan_rows,
    row_with_cas, rows_needing_object, step_store, OkRow, PlanRow,
};
use crate::store::{store_wf, Store, WriteBatch};

verus! {

/// The view of a sequence of file path rows.
pub open spec fn records_view(v: Seq<FilePathRecord>) -> Seq<FilePathView> {
    v.map_values(|fp: FilePathRecord| fp@)
}

/// The view of an extraction table.
pub open spec fn extractions_view(v: Seq<Extraction>) -> Seq<ExtractionView> {
    v.map_values(|e: Extraction| e@)
}

/// One extracted row paired with its metadata, as the step carries it.
struct OkPair {
    fp: FilePathRecord,
    meta: FileMetadata,
}

impl View for OkPair {
    type V = OkRow;

    closed spec fn view(&self) -> OkRow {
        OkRow { fp: self.fp@, meta: self.meta@ }
    }
}

/// One resolved row: the object it will be linked to and whether that object
/// pre-existed.
struct PlanPair {
    fp: FilePathRecord,
    meta: FileMetadata,
    target: u128,
    existing: bool,
}

impl View for PlanPair {
    type V = PlanRow;

    closed spec fn view(&self) -> PlanRow {
        PlanRow {
            fp: self.fp@,
            meta: self.meta@,
            target: self.target as int,
            existing: self.existing,
        }
    }
}

/// The view of the collected extracted rows.
spec fn oks_view(v: Seq<OkPair>) -> Seq<OkRow> {
    v.map_values(|p: OkPair| p@)
}

/// The view of the plan rows.
spec fn plans_view(v: Seq<PlanPair>) -> Seq<PlanRow> {
    v.map_values(|p: PlanPair| p@)
}

/// The view of a batch under construction.
spec fn entries_view(v: Seq<WriteEntry>) -> Seq<WriteEntryView> {
    v.map_values(|e: WriteEntry| e@)
}

/// The view of the distinct-identity list.
spec fn strings_view(v: Seq<String>) -> Seq<Seq<char>> {
    v.map_values(|s: String| s@)
}

/// Looks the extraction outcome for one file path up in the table.
fn find_extraction<'a>(extractions: &'a Vec<Extraction>, pid: u128) -> (r: Option<&'a FileMetadata>)
    ensures
        match r {
            Some(m) => meta_for(extractions_view(extractions@), pid as int) == Some(m@),
            None => meta_for(extractions_view(extractions@), pid as int) is None,
        },
{
    let ghost extv = extractions_view(extractions@);
    let n = extractions.len();
    let mut i: usize = 0;
    proof {
        assert(extv.skip(0) =~= extv);
    }
    while i < n
        invariant
            n == extractions.len(),
            i <= n,
            extv == extractions_view(extractions@),
            meta_for(extv.skip(i as int), pid as int) == meta_for(extv, pid as int),
        decreases n - i,
    {
        proof {
            assert(extv.skip(i as int)[0] == extv[i as int]);
            assert(extv.skip(i as int).skip(1) =~= extv.skip(i as int + 1));
        }
        if extractions[i].fp_pub_id == pid {
            return match &extractions[i].meta {
                Some(m) => Some(m),
                None => None,
            };
        }
        i += 1;
    }
    proof {
        assert(extv.skip(n as int) =~= Seq::<ExtractionView>::empty());
    }
    None
}

/// Whether some row of the store links the given object and carries the
/// given identity.
fn any_fp_links(fps: &Vec<FilePathRecord>, obj_pid: u128, cas: &String) -> (r: bool)
    ensures
        r == object_links_cas(records_view(fps@), obj_pid as int, cas@),
{
    let n = fps.len();
    let mut i: usize = 0;
    while i < n
        invariant
            n == fps.len(),
            i <= n,
            forall|j: int|
                0 <= j < i ==> !((#[trigger] records_view(fps@)[j]).object_pub_id == Some(
                    obj_pid as int,
                ) && records_view(fps@)[j].cas_id == Some(cas@)),
        decreases n - i,
    {
        let fp = &fps[i];
        let linked = match &fp.object_pub_id {
            Some(o) => *o == obj_pid,
            None => false,
        };
        if linked {
            match &fp.cas_id {
                Some(c) => {
                    if c.eq(cas) {
                        proof {
                            assert(records_view(fps@)[i as int].object_pub_id == Some(
                                obj_pid as int,
                            ) && records_view(fps@)[i as int].cas_id == Some(cas@));
                        }
                        return true;
                    }
                },
                None => {},
            }
        }
        i += 1;
    }
    proof {
        if object_links_cas(records_view(fps@), obj_pid as int, cas@) {
            let j = choose|j: int|
                0 <= j < records_view(fps@).len() && (#[trigger] records_view(
                    fps@,
                )[j]).object_pub_id == Some(obj_pid as int) && records_view(fps@)[j].cas_id
                    == Some(cas@);
            assert(false);
        }
    }
    false
}

/// The dedup lookup: the first object already connected to the identity
/// through some linked file path.
fn find_linked_object(
    fps: &Vec<FilePathRecord>,
    objs: &Vec<ObjectRecord>,
    cas: &String,
) -> (r: Option<u128>)
    ensures
        match r {
            Some(o) => linked_object(records_view(fps@), objs@.map_values(|o: ObjectRecord| o@), cas@)
                == Some(o as int),
            None => linked_object(records_view(fps@), objs@.map_values(|o: ObjectRecord| o@), cas@)
                is None,
        },
{
    let ghost objv = objs@.map_values(|o: ObjectRecord| o@);
    let n = objs.len();
    let mut i: usize = 0;
    proof {
        assert(objv.skip(0) =~= objv);
    }
    while i < n
        invariant
            n == objs.len(),
            i <= n,
            objv == objs@.map_values(|o: ObjectRecord| o@),
            linked_object(records_view(fps@), objv.skip(i as int), cas@) == linked_object(
                records_view(fps@),
                objv,
                cas@,
            ),
        decreases n - i,
    {
        proof {
            assert(objv.skip(i as int)[0] == objv[i as int]);
            assert(objv.skip(i as int).skip(1) =~= objv.skip(i as int + 1));
        }
        if any_fp_links(fps, objs[i].pub_id, cas) {
            return Some(objs[i].pub_id);
        }
        i += 1;
    }
    proof {
        assert(objv.skip(n as int) =~= Seq::<ObjectView>::empty());
    }
    None
}

/// The position of an identity in the distinct list, if present.
fn find_cas_position(d: &Vec<String>, cas: &String) -> (r: Option<usize>)
    ensures
        match r {
            Some(i) => contains_cas(strings_view(d@), cas@) && i == cas_index(
                strings_view(d@),
                cas@,
            ) && i < d@.len(),
            None => !contains_cas(strings_view(d@), cas@),
        },
{
    let ghost dv = strings_view(d@);
    let n = d.len();
    let mut i: usize = 0;
    while i < n
        invariant
            n == d.len(),
            i <= n,
            dv == strings_view(d@),
            forall|j: int| 0 <= j < i ==> #[trigger] dv[j] != cas@,
        decreases n - i,
    {
        if d[i].eq(cas) {
            proof {
                lemma_cas_index_at(dv, cas@, i as int);
                assert(contains_cas(dv, cas@));
            }
            return Some(i);
        }
        i += 1;
    }
    proof {
        if contains_cas(dv, cas@) {
            let j = choose|j: int| 0 <= j < dv.len() && dv[j] == cas@;
            assert(false);
        }
    }
    None
}

/// The first extracted row carrying the given identity.
fn find_row_with_cas<'a>(rows: &'a Vec<OkPair>, cas: &String) -> (r: Option<&'a OkPair>)
    ensures
        match r {
            Some(p) => p@ == row_with_cas(oks_view(rows@), cas@) && exists|j: int|
                0 <= j < oks_view(rows@).len() && (#[trigger] oks_view(rows@)[j]).meta.cas_id
                    == cas@,
            None => forall|j: int|
                0 <= j < oks_view(rows@).len() ==> (#[trigger] oks_view(rows@)[j]).meta.cas_id
                    != cas@,
        },
{
    let ghost rv = oks_view(rows@);
    let n = rows.len();
    let mut i: usize = 0;
    while i < n
        invariant
            n == rows.len(),
            i <= n,
            rv == oks_view(rows@),
            forall|j: int| 0 <= j < i ==> (#[trigger] rv[j]).meta.cas_id != cas@,
        decreases n - i,
    {
        if rows[i].meta.cas_id.eq(cas) {
            proof {
                lemma_row_with_cas_at(rv, cas@, i as int);
            }
            return Some(&rows[i]);
        }
        i += 1;
    }
    None
}

/// The view of the object rows.
spec fn objects_view(v: Seq<ObjectRecord>) -> Seq<ObjectView> {
    v.map_values(|o: ObjectRecord| o@)
}

/// Collects the chunk rows whose extraction succeeded, in chunk order.
fn collect_oks(file_paths: &Vec<FilePathRecord>, extractions: &Vec<Extraction>) -> (r: Vec<OkPair>)
    ensures
        oks_view(r@) == ok_rows(records_view(file_paths@), extractions_view(extractions@)),
{
    let ghost chunkv = records_view(file_paths@);
    let ghost extv = extractions_view(extractions@);
    let ghost rowsv = ok_rows(chunkv, extv);
    let n = file_paths.len();
    let mut oks: Vec<OkPair> = Vec::new();
    let mut k: usize = 0;
    proof {
        assert(chunkv.skip(0) =~= chunkv);
        assert(oks_view(oks@) =~= Seq::<OkRow>::empty());
        assert(Seq::<OkRow>::empty() + ok_rows(chunkv, extv) =~= ok_rows(chunkv, extv));
    }
    while k < n
        invariant
            n == file_paths.len(),
            k <= n,
            chunkv == records_view(file_paths@),
            extv == extractions_view(extractions@),
            rowsv == ok_rows(chunkv, extv),
            oks_view(oks@) + ok_rows(chunkv.skip(k as int), extv) == rowsv,
        decreases n - k,
    {
        proof {
            assert(chunkv.skip(k as int)[0] == chunkv[k as int]);
            assert(chunkv.skip(k as int).skip(1) =~= chunkv.skip(k as int + 1));
        }
        let ghost pre = oks_view(oks@);
        let fp = &file_paths[k];
        match find_extraction(extractions, fp.pub_id) {
            Some(m) => {
                let ghost h = OkRow { fp: chunkv[k as int], meta: m@ };
                let pair = OkPair { fp: fp.duplicate(), meta: m.duplicate() };
                proof {
                    assert(pair@ == h);
                }
                oks.push(pair);
                proof {
                    assert(oks_view(oks@) =~= pre.push(h));
                    assert(pre.push(h) =~= pre + seq![h]);
                    assert(pre + seq![h] + ok_rows(chunkv.skip(k as int + 1), extv) =~= pre + (
                    seq![h] + ok_rows(chunkv.skip(k as int + 1), extv)));
                }
            },
            None => {},
        }
        k += 1;
    }
    proof {
        assert(chunkv.skip(n as int) =~= Seq::<FilePathView>::empty());
        assert(oks_view(oks@) + Seq::<OkRow>::empty() =~= oks_view(oks@));
    }
    oks
}

/// Keeps the extracted rows whose identity matches no existing object.
fn collect_news(
    fps: &Vec<FilePathRecord>,
    objs: &Vec<ObjectRecord>,
    oks: &Vec<OkPair>,
) -> (r: Vec<OkPair>)
    ensures
        oks_view(r@) == rows_needing_object(oks_view(oks@), records_view(fps@), objects_view(objs@)),
{
    let ghost rowsv = oks_view(oks@);
    let ghost fpsv = records_view(fps@);
    let ghost objsv = objects_view(objs@);
    let ghost newsv = rows_needing_object(rowsv, fpsv, objsv);
    let m = oks.len();
    let mut news: Vec<OkPair> = Vec::new();
    let mut k: usize = 0;
    proof {
        assert(rowsv.skip(0) =~= rowsv);
        assert(oks_view(news@) =~= Seq::<OkRow>::empty());
        assert(Seq::<OkRow>::empty() + newsv =~= newsv);
    }
    while k < m
        invariant
            m == oks.len(),
            k <= m,
            rowsv == oks_view(oks@),
            fpsv == records_view(fps@),
            objsv == objects_view(objs@),
            newsv == rows_needing_object(rowsv, fpsv, objsv),
            oks_view(news@) + rows_needing_object(rowsv.skip(k as int), fpsv, objsv) == newsv,
        decreases m - k,
    {
        proof {
            assert(rowsv.skip(k as int)[0] == rowsv[k as int]);
            assert(rowsv.skip(k as int).skip(1) =~= rowsv.skip(k as int + 1));
        }
        let ghost pre = oks_view(news@);
        let p = &oks[k];
        match find_linked_object(fps, objs, &p.meta.cas_id) {
            Some(_) => {},
            None => {
                let ghost h = rowsv[k as int];
                let pair = OkPair { fp: p.fp.duplicate(), meta: p.meta.duplicate() };
                proof {
                    assert(pair@ == h);
                }
                news.push(pair);
                proof {
                    assert(oks_view(news@) =~= pre.push(h));
                    assert(pre.push(h) =~= pre + seq![h]);
                    assert(pre + seq![h] + rows_needing_object(
                        rowsv.skip(k as int + 1),
                        fpsv,
                        objsv,
                    ) =~= pre + (seq![h] + rows_needing_object(
                        rowsv.skip(k as int + 1),
                        fpsv,
                        objsv,
                    )));
                }
            },
        }
        k += 1;
    }
    proof {
        assert(rowsv.skip(m as int) =~= Seq::<OkRow>::empty());
        assert(oks_view(news@) + Seq::<OkRow>::empty() =~= oks_view(news@));
    }
    news
}

/// The distinct new identities, in order of first appearance.
fn collect_distinct(news: &Vec<OkPair>) -> (r: Vec<String>)
    ensures
        strings_view(r@) == distinct_cas(oks_view(news@)),
{
    let ghost newsv = oks_view(news@);
    let mn = news.len();
    let mut d: Vec<String> = Vec::new();
    let mut k: usize = 0;
    proof {
        assert(newsv.take(0) =~= Seq::<OkRow>::empty());
        assert(strings_view(d@) =~= distinct_cas(newsv.take(0)));
    }
    while k < mn
        invariant
            mn == news.len(),
            k <= mn,
            newsv == oks_view(news@),
            strings_view(d@) == distinct_cas(newsv.take(k as int)),
        decreases mn - k,
    {
        proof {
            assert(newsv.take(k as int + 1).drop_last() =~= newsv.take(k as int));
            assert(newsv.take(k as int + 1).last() == newsv[k as int]);
        }
        let ghost pre = strings_view(d@);
        match find_cas_position(&d, &news[k].meta.cas_id) {
            Some(_) => {},
            None => {
                let c = news[k].meta.cas_id.clone();
                d.push(c);
                proof {
                    assert(strings_view(d@) =~= pre.push(newsv[k as int].meta.cas_id));
                }
            },
        }
        k += 1;
    }
    proof {
        assert(newsv.take(mn as int) =~= newsv);
    }
    d
}

/// Resolves every extracted row to its object: a pre-existing one where the
/// dedup lookup finds one, else the fresh identifier chosen for the row's
/// position in the distinct-identity list.
fn build_plan(
    fps: &Vec<FilePathRecord>,
    objs: &Vec<ObjectRecord>,
    oks: &Vec<OkPair>,
    d: &Vec<String>,
    fresh_ids: &Vec<u128>,
) -> (r: Vec<PlanPair>)
    requires
        strings_view(d@) == distinct_cas(
            rows_needing_object(oks_view(oks@), records_view(fps@), objects_view(objs@)),
        ),
        strings_view(d@).len() <= fresh_ids@.len(),
    ensures
        plans_view(r@) == plan_rows(
            oks_view(oks@),
            records_view(fps@),
            objects_view(objs@),
            strings_view(d@),
            ids_view(fresh_ids@),
        ),
{
    let ghost rowsv = oks_view(oks@);
    let ghost fpsv = records_view(fps@);
    let ghost objsv = objects_view(objs@);
    let ghost newsv = rows_needing_object(rowsv, fpsv, objsv);
    let ghost dv = strings_view(d@);
    let ghost freshv = ids_view(fresh_ids@);
    let ghost planv = plan_rows(rowsv, fpsv, objsv, dv, freshv);
    let m = oks.len();
    let mut plan: Vec<PlanPair> = Vec::new();
    let mut k: usize = 0;
    while k < m
        invariant
            m == oks.len(),
            k <= m,
            rowsv == oks_view(oks@),
            fpsv == records_view(fps@),
            objsv == objects_view(objs@),
            newsv == rows_needing_object(rowsv, fpsv, objsv),
            dv == strings_view(d@),
            dv == distinct_cas(newsv),
            freshv == ids_view(fresh_ids@),
            planv == plan_rows(rowsv, fpsv, objsv, dv, freshv),
            dv.len() <= fresh_ids@.len(),
            plan@.len() == k,
            forall|j: int| 0 <= j < k ==> #[trigger] plans_view(plan@)[j] == planv[j],
        decreases m - k,
    {
        let ghost pre = plans_view(plan@);
        let p = &oks[k];
        match find_linked_object(fps, objs, &p.meta.cas_id) {
            Some(o) => {
                let pair = PlanPair {
                    fp: p.fp.duplicate(),
                    meta: p.meta.duplicate(),
                    target: o,
                    existing: true,
                };
                proof {
                    assert(pair@ == planv[k as int]);
                }
                plan.push(pair);
                proof {
                    assert(plans_view(plan@) =~= pre.push(planv[k as int]));
                }
            },
            None => {
                let idx: usize = match find_cas_position(&d, &p.meta.cas_id) {
                    Some(i) => i,
                    None => {
                        proof {
                            lemma_news_complete(rowsv, fpsv, objsv, k as int);
                            let kk = choose|kk: int|
                                0 <= kk < newsv.len() && newsv[kk] == rowsv[k as int];
                            lemma_distinct_complete(newsv, kk);
                            assert(false);
                        }
                        0
                    },
                };
                let pair = PlanPair {
                    fp: p.fp.duplicate(),
                    meta: p.meta.duplicate(),
                    target: fresh_ids[idx],
                    existing: false,
                };
                proof {
                    assert(pair@ == planv[k as int]);
                }
                plan.push(pair);
                proof {
                    assert(plans_view(plan@) =~= pre.push(planv[k as int]));
                }
            },
        }
        k += 1;
    }
    proof {
        assert(plans_view(plan@) =~= planv);
    }
    plan
}

/// Builds the paired identity-assignment batch for the extracted rows.
fn build_assign_batch(oks: &Vec<OkPair>) -> (r: Vec<WriteEntry>)
    ensures
        entries_view(r@) == assign_batch_spec(oks_view(oks@)),
        batch_paired(entries_view(r@)),
        forall|j: int|
            0 <= j < entries_view(r@).len() ==> (#[trigger] entries_view(r@)[j]).mutation
                is SetCasId,
{
    let ghost rowsv = oks_view(oks@);
    let m = oks.len();
    let mut b1: Vec<WriteEntry> = Vec::new();
    let mut k: usize = 0;
    while k < m
        invariant
            m == oks.len(),
            k <= m,
            rowsv == oks_view(oks@),
            b1@.len() == k,
            forall|j: int|
                0 <= j < k ==> (#[trigger] entries_view(b1@)[j]) == assign_entry(rowsv[j]),
        decreases m - k,
    {
        let p = &oks[k];
        let e = file_path_cas_assign_ops(p.fp.pub_id, p.meta.cas_id.clone());
        proof {
            assert(e@ == assign_entry(rowsv[k as int]));
        }
        let ghost pre = entries_view(b1@);
        let ghost h = e@;
        b1.push(e);
        proof {
            assert(entries_view(b1@) =~= pre.push(h));
        }
        k += 1;
    }
    proof {
        assert(entries_view(b1@) =~= assign_batch_spec(rowsv));
        assert forall|j: int| 0 <= j < entries_view(b1@).len() implies entry_paired(
            #[trigger] entries_view(b1@)[j],
        ) && entries_view(b1@)[j].mutation is SetCasId by {
            assert(entries_view(b1@)[j] == assign_entry(rowsv[j]));
        }
    }
    b1
}

/// Builds the paired link batch for plan rows matching pre-existing objects.
fn build_link_existing(plan: &Vec<PlanPair>) -> (r: Vec<WriteEntry>)
    ensures
        entries_view(r@) == link_existing_entries(plans_view(plan@)),
{
    let ghost planv = plans_view(plan@);
    let mp = plan.len();
    let mut b2: Vec<WriteEntry> = Vec::new();
    let mut k: usize = 0;
    proof {
        assert(planv.skip(0) =~= planv);
        assert(entries_view(b2@) =~= Seq::<WriteEntryView>::empty());
        assert(Seq::<WriteEntryView>::empty() + link_existing_entries(planv)
            =~= link_existing_entries(planv));
    }
    while k < mp
        invariant
            mp == plan.len(),
            k <= mp,
            planv == plans_view(plan@),
            entries_view(b2@) + link_existing_entries(planv.skip(k as int))
                == link_existing_entries(planv),
        decreases mp - k,
    {
        proof {
            assert(planv.skip(k as int)[0] == planv[k as int]);
            assert(planv.skip(k as int).skip(1) =~= planv.skip(k as int + 1));
        }
        let ghost pre = entries_view(b2@);
        let p = &plan[k];
        if p.existing {
            let e = file_path_object_connect_ops(p.fp.pub_id, p.target);
            proof {
                assert(e@ == connect_entry(planv[k as int].fp.pub_id, planv[k as int].target));
            }
            let ghost h = e@;
            b2.push(e);
            proof {
                assert(entries_view(b2@) =~= pre.push(h));
                assert(pre.push(h) =~= pre + seq![h]);
                assert(pre + seq![h] + link_existing_entries(planv.skip(k as int + 1)) =~= pre + (
                seq![h] + link_existing_entries(planv.skip(k as int + 1))));
            }
        }
        k += 1;
    }
    proof {
        assert(planv.skip(mp as int) =~= Seq::<PlanRow>::empty());
        assert(entries_view(b2@) + Seq::<WriteEntryView>::empty() =~= entries_view(b2@));
    }
    b2
}

/// Builds the paired link batch for plan rows resolved to new objects.
fn build_link_new(plan: &Vec<PlanPair>) -> (r: Vec<WriteEntry>)
    ensures
        entries_view(r@) == link_new_entries(plans_view(plan@)),
{
    let ghost planv = plans_view(plan@);
    let mp = plan.len();
    let mut b4: Vec<WriteEntry> = Vec::new();
    let mut k: usize = 0;
    proof {
        assert(planv.skip(0) =~= planv);
        assert(entries_view(b4@) =~= Seq::<WriteEntryView>::empty());
        assert(Seq::<WriteEntryView>::empty() + link_new_entries(planv) =~= link_new_entries(
            planv,
        ));
    }
    while k < mp
        invariant
            mp == plan.len(),
            k <= mp,
            planv == plans_view(plan@),
            entries_view(b4@) + link_new_entries(planv.skip(k as int)) == link_new_entries(planv),
        decreases mp - k,
    {
        proof {
            assert(planv.skip(k as int)[0] == planv[k as int]);
            assert(planv.skip(k as int).skip(1) =~= planv.skip(k as int + 1));
        }
        let ghost pre = entries_view(b4@);
        let p = &plan[k];
        if !p.existing {
            let e = file_path_object_connect_ops(p.fp.pub_id, p.target);
            proof {
                assert(e@ == connect_entry(planv[k as int].fp.pub_id, planv[k as int].target));
            }
            let ghost h = e@;
            b4.push(e);
            proof {
                assert(entries_view(b4@) =~= pre.push(h));
                assert(pre.push(h) =~= pre + seq![h]);
                assert(pre + seq![h] + link_new_entries(planv.skip(k as int + 1)) =~= pre + (
                seq![h] + link_new_entries(planv.skip(k as int + 1))));
            }
        }
        k += 1;
    }
    proof {
        assert(planv.skip(mp as int) =~= Seq::<PlanRow>::empty());
        assert(entries_view(b4@) + Seq::<WriteEntryView>::empty() =~= entries_view(b4@));
    }
    b4
}

/// Builds the paired creation batch: one new object per distinct new
/// identity, copying timestamp and kind from that identity's first row.
fn build_create_batch(news: &Vec<OkPair>, d: &Vec<String>, fresh_ids: &Vec<u128>) -> (r: Vec<
    WriteEntry,
>)
    requires
        strings_view(d@) == distinct_cas(oks_view(news@)),
        strings_view(d@).len() <= fresh_ids@.len(),
    ensures
        entries_view(r@) == create_batch_spec(
            strings_view(d@),
            oks_view(news@),
            ids_view(fresh_ids@),
        ),
        batch_paired(entries_view(r@)),
        forall|j: int|
            0 <= j < entries_view(r@).len() ==> (#[trigger] entries_view(r@)[j]).mutation
                is CreateObject,
{
    let ghost newsv = oks_view(news@);
    let ghost dv = strings_view(d@);
    let ghost freshv = ids_view(fresh_ids@);
    let nd = d.len();
    let mut b3: Vec<WriteEntry> = Vec::new();
    let mut k: usize = 0;
    while k < nd
        invariant
            nd == d.len(),
            k <= nd,
            newsv == oks_view(news@),
            dv == strings_view(d@),
            dv == distinct_cas(newsv),
            dv.len() <= fresh_ids@.len(),
            freshv == ids_view(fresh_ids@),
            b3@.len() == k,
            forall|j: int|
                0 <= j < k ==> (#[trigger] entries_view(b3@)[j]) == create_entry(
                    freshv[j],
                    row_with_cas(newsv, dv[j]).fp.date_created,
                    row_with_cas(newsv, dv[j]).meta.kind,
                ),
        decreases nd - k,
    {
        proof {
            assert(dv.len() == d@.len());
        }
        let rep = match find_row_with_cas(&news, &d[k]) {
            Some(p) => p,
            None => {
                proof {
                    lemma_distinct_has_row(newsv, k as int);
                    assert(false);
                }
                &news[0]
            },
        };
        let e = object_create_ops(fresh_ids[k], rep.fp.date_created, rep.meta.kind);
        proof {
            assert(e@ == create_entry(
                freshv[k as int],
                row_with_cas(newsv, dv[k as int]).fp.date_created,
                row_with_cas(newsv, dv[k as int]).meta.kind,
            ));
        }
        let ghost pre = entries_view(b3@);
        let ghost h = e@;
        b3.push(e);
        proof {
            assert(entries_view(b3@) =~= pre.push(h));
        }
        k += 1;
    }
    proof {
        assert(entries_view(b3@) =~= create_batch_spec(dv, newsv, freshv));
        assert forall|j: int| 0 <= j < entries_view(b3@).len() implies entry_paired(
            #[trigger] entries_view(b3@)[j],
        ) && entries_view(b3@)[j].mutation is CreateObject by {
            assert(entries_view(b3@)[j] == create_entry(
                freshv[j],
                row_with_cas(newsv, dv[j]).fp.date_created,
                row_with_cas(newsv, dv[j]).meta.kind,
            ));
        }
    }
    b3
}

/// One resolver step — the algorithmic heart. For one chunk of orphan file
/// paths and the metadata extracted for them: assigns every extracted row
/// its content identity, links rows whose identity already has an object,
/// mints exactly one object per distinct previously-unseen identity (two
/// rows sharing a new identity share the object), links those rows, and
/// commits each phase as one paired batch. Returns how many objects were
/// created and how many file paths were linked (to pre-existing or new
/// objects).
#[verifier::rlimit(100)]
pub fn identifier_job_step(
    store: &mut Store,
    file_paths: &Vec<FilePathRecord>,
    extractions: &Vec<Extraction>,
    fresh_ids: &Vec<u128>,
) -> (r: (usize, usize))
    requires
        store_wf(old(store)@),
        chunk_ok(old(store)@, records_view(file_paths@)),
        fresh_ids_ok(old(store)@, ids_view(fresh_ids@), file_paths@.len() as int),
    ensures
        final(store)@ == step_store(
            old(store)@,
            records_view(file_paths@),
            extractions_view(extractions@),
            ids_view(fresh_ids@),
        ),
        store_wf(final(store)@),
        r.0 == objects_created_spec(
            old(store)@,
            records_view(file_paths@),
            extractions_view(extractions@),
        ),
        r.1 == objects_linked_spec(
            old(store)@,
            records_view(file_paths@),
            extractions_view(extractions@),
        ),
{
    let ghost s0 = old(store)@;
    let ghost chunkv = records_view(file_paths@);
    let ghost extv = extractions_view(extractions@);
    let ghost freshv = ids_view(fresh_ids@);
    let ghost rowsv = ok_rows(chunkv, extv);
    let ghost newsv = rows_needing_object(rowsv, s0.file_paths, s0.objects);
    let ghost dv = distinct_cas(newsv);
    let ghost planv = plan_rows(rowsv, s0.file_paths, s0.objects, dv, freshv);

    proof {
        lemma_ok_rows_len(chunkv, extv);
        lemma_ok_rows_sub(chunkv, extv);
        lemma_news_sub(rowsv, s0.file_paths, s0.objects);
        lemma_distinct_len(newsv);
        lemma_partition_len(planv);
        assert(s0.file_paths =~= records_view(old(store).file_paths@));
        assert(s0.objects =~= objects_view(old(store).objects@));
        assert(forall|j: int|
            0 <= j < planv.len() ==> (#[trigger] planv[j]).fp.pub_id == rowsv[j].fp.pub_id);
    }

    let oks = collect_oks(file_paths, extractions);
    let news = collect_news(&store.file_paths, &store.objects, &oks);
    let d = collect_distinct(&news);
    let plan = build_plan(&store.file_paths, &store.objects, &oks, &d, fresh_ids);
    let b1 = build_assign_batch(&oks);
    let b2 = build_link_existing(&plan);
    proof {
        assert(oks_view(oks@) == rowsv);
        assert(oks_view(news@) == newsv);
        assert(strings_view(d@) == dv);
        assert(plans_view(plan@) == planv);
        lemma_link_batches_paired(planv);
    }

    let made_new = news.len() > 0;

    let batch1 = WriteBatch { entries: b1 };
    proof {
        assert(batch1@ == assign_batch_spec(rowsv));
    }
    store.commit_cas_batch(batch1);
    let batch2 = WriteBatch { entries: b2 };
    proof {
        assert(batch2@ == link_existing_entries(planv));
    }
    let updated = store.commit_connect_batch(batch2);

    let created: usize;
    let linked_new: usize;
    if made_new {
        let b3 = build_create_batch(&news, &d, fresh_ids);
        let b4 = build_link_new(&plan);
        let batch3 = WriteBatch { entries: b3 };
        proof {
            assert(batch3@ == create_batch_spec(dv, newsv, freshv));
        }
        created = store.commit_create_batch(batch3);
        let batch4 = WriteBatch { entries: b4 };
        proof {
            assert(batch4@ == link_new_entries(planv));
        }
        linked_new = store.commit_connect_batch(batch4);
    } else {
        created = 0;
        linked_new = 0;
        proof {
            assert forall|j: int| 0 <= j < planv.len() implies (#[trigger] planv[j]).existing by {
                if !planv[j].existing {
                    lemma_news_complete(rowsv, s0.file_paths, s0.objects, j);
                    let kk = choose|kk: int| 0 <= kk < newsv.len() && newsv[kk] == rowsv[j];
                    assert(false);
                }
            }
            lemma_link_new_empty(planv);
        }
    }

    proof {
        let s2 = step_store(s0, chunkv, extv, freshv);
        assert forall|i: int| 0 <= i < s0.file_paths.len() implies store@.file_paths[i]
            == apply_plan(s0.file_paths[i], planv) by {
            let pid = s0.file_paths[i].pub_id;
            lemma_assign_batch_find(rowsv, pid);
            lemma_link_existing_find(planv, pid);
            lemma_link_new_find(planv, pid);
            lemma_plan_for_row(rowsv, s0.file_paths, s0.objects, dv, freshv, pid);
            lemma_row_for_member(rowsv, pid);
        }
        assert(store@.file_paths =~= s2.file_paths);
        assert(store@.objects =~= s2.objects);
        assert(store@.history =~= s2.history);
        assert(store@ == s2);
        lemma_step_wf(s0, chunkv, extv, freshv);
        assert(created == dv.len());
        assert(updated as int + linked_new as int == planv.len());
        assert(planv.len() == rowsv.len());
    }
    (created, updated + linked_new)
}

} // verus!

//! The chunk driver: one chunk of the identification pass — precondition
//! check, resolver step, report and cursor bookkeeping — and the
//! mathematical model of a whole pass, with its idempotence and resumability
//! laws.

use vstd::prelude::*;

use crate::record::{Extraction, ExtractionView, FilePathRecord, FilePathView};
use crate::report::{FileIdentifierReport, JobError};
use crate::resolve::{
    chunk_ok, fresh_ids_ok, ids_view, objects_created_spec, objects_linked_spec, step_store,
};
use crate::step::{extractions_view, identifier_job_step, records_view};
use crate::store::{count_orphans_spec, orphan_chunk_spec, store_wf, Store, StoreView};
use crate::CHUNK_SIZE;

verus! {

/// Processes one chunk of orphan file paths. An empty chunk where the
/// caller expected rows is a structural error — the orphan-count estimate
/// and the query disagree — and terminates the job rather than silently
/// under-reporting. On a non-empty chunk the resolver runs, the counters
/// accumulate, and the cursor advances to the last row of the chunk, so a
/// paused job resumes strictly after the last fully processed row.
pub fn process_identifier_file_paths(
    job_name: &str,
    store: &mut Store,
    file_paths: &Vec<FilePathRecord>,
    extractions: &Vec<Extraction>,
    fresh_ids: &Vec<u128>,
    cursor: &mut i32,
    report: &mut FileIdentifierReport,
) -> (r: Result<(), JobError>)
    requires
        store_wf(old(store)@),
        chunk_ok(old(store)@, records_view(file_paths@)),
        fresh_ids_ok(old(store)@, ids_view(fresh_ids@), file_paths@.len() as int),
        old(report).total_objects_created + objects_created_spec(
            old(store)@,
            records_view(file_paths@),
            extractions_view(extractions@),
        ) <= usize::MAX,
        old(report).total_objects_linked + objects_linked_spec(
            old(store)@,
            records_view(file_paths@),
            extractions_view(extractions@),
        ) <= usize::MAX,
    ensures
        match r {
            Ok(_) => {
                &&& file_paths@.len() > 0
                &&& final(store)@ == step_store(
                    old(store)@,
                    records_view(file_paths@),
                    extractions_view(extractions@),
                    ids_view(fresh_ids@),
                )
                &&& store_wf(final(store)@)
                &&& *final(cursor) == file_paths@.last().id
                &&& final(report).total_objects_created == old(report).total_objects_created
                    + objects_created_spec(
                    old(store)@,
                    records_view(file_paths@),
                    extractions_view(extractions@),
                )
                &&& final(report).total_objects_linked == old(report).total_objects_linked
                    + objects_linked_spec(
                    old(store)@,
                    records_view(file_paths@),
                    extractions_view(extractions@),
                )
                &&& final(report).total_orphan_paths == old(report).total_orphan_paths
                &&& final(report).total_objects_ignored == old(report).total_objects_ignored
                &&& final(report).location_path == old(report).location_path
            },
            Err(e) => {
                &&& file_paths@.len() == 0
                &&& *final(store) == *old(store)
                &&& *final(cursor) == *old(cursor)
                &&& *final(report) == *old(report)
                &&& (match e {
                    JobError::EarlyFinish { name, reason } => name@ == job_name@ && reason@
                        == "Expected orphan file paths not returned from the store query for this chunk"@,
                })
            },
        },
{
    if file_paths.is_empty() {
        return Err(
            JobError::EarlyFinish {
                name: job_name.to_owned(),
                reason: "Expected orphan file paths not returned from the store query for this chunk".to_owned(),
            },
        );
    }

    let (created, linked) = identifier_job_step(store, file_paths, extractions, fresh_ids);

    report.total_objects_created = report.total_objects_created + created;
    report.total_objects_linked = report.total_objects_linked + linked;

    let last = &file_paths[file_paths.len() - 1];
    *cursor = last.id;
    proof {
        assert(records_view(file_paths@).last() == file_paths@[file_paths@.len() - 1]@);
    }

    Ok(())
}

/// The state one identification pass threads from chunk to chunk.
pub ghost struct PassState {
    /// The store as committed so far.
    pub store: StoreView,
    /// The resumability cursor: the row id of the last fully processed row.
    pub cursor: int,
    /// How many candidate identifiers earlier chunks consumed.
    pub used: int,
}

/// One chunk of the pass over the model: query the next chunk of orphan
/// rows past the cursor, resolve it, advance the cursor to its last row,
/// and consume the identifiers the chunk minted.
pub open spec fn pass_chunk(
    st: PassState,
    location_id: int,
    ext: Seq<ExtractionView>,
    fresh: Seq<int>,
) -> PassState {
    let chunk = orphan_chunk_spec(
        st.store.file_paths,
        location_id,
        st.cursor,
        CHUNK_SIZE as nat,
    );
    PassState {
        store: step_store(st.store, chunk, ext, fresh.skip(st.used)),
        cursor: chunk.last().id,
        used: st.used + objects_created_spec(st.store, chunk, ext),
    }
}

/// Up to `steps` chunks of the pass: the pass stops as soon as the orphan
/// query past the cursor comes back empty.
pub open spec fn pass_spec(
    st: PassState,
    location_id: int,
    ext: Seq<ExtractionView>,
    fresh: Seq<int>,
    steps: nat,
) -> PassState
    decreases steps,
{
    if steps == 0 {
        st
    } else {
        let chunk = orphan_chunk_spec(
            st.store.file_paths,
            location_id,
            st.cursor,
            CHUNK_SIZE as nat,
        );
        if chunk.len() == 0 {
            st
        } else {
            pass_spec(pass_chunk(st, location_id, ext, fresh), location_id, ext, fresh, (steps
                - 1) as nat)
        }
    }
}

/// Resumability: interrupting the pass after `k` chunks and resuming for the
/// remaining `n` reaches exactly the state of the uninterrupted run — the
/// saved store and cursor are all the resumed run needs, and because every
/// later chunk is queried strictly past the saved cursor, no file path is
/// processed twice.
pub proof fn lemma_pass_resumable(
    st: PassState,
    location_id: int,
    ext: Seq<ExtractionView>,
    fresh: Seq<int>,
    k: nat,
    n: nat,
)
    ensures
        pass_spec(
            pass_spec(st, location_id, ext, fresh, k),
            location_id,
            ext,
            fresh,
            n,
        ) == pass_spec(st, location_id, ext, fresh, (k + n) as nat),
    decreases k,
{
    if k != 0 {
        let chunk = orphan_chunk_spec(
            st.store.file_paths,
            location_id,
            st.cursor,
            CHUNK_SIZE as nat,
        );
        if chunk.len() == 0 {
            if n != 0 {
                assert(pass_spec(st, location_id, ext, fresh, n) == st);
            }
        } else {
            lemma_pass_resumable(
                pass_chunk(st, location_id, ext, fresh),
                location_id,
                ext,
                fresh,
                (k - 1) as nat,
                n,
            );
        }
    }
}

/// No orphan rows means the orphan query returns nothing, whatever the
/// cursor and the limit.
pub proof fn lemma_no_orphans_empty_query(
    fps: Seq<FilePathView>,
    location_id: int,
    cursor: int,
    limit: nat,
)
    requires
        count_orphans_spec(fps, location_id) == 0,
    ensures
        orphan_chunk_spec(fps, location_id, cursor, limit) == Seq::<FilePathView>::empty(),
    decreases fps.len(),
{
    if fps.len() != 0 && limit != 0 {
        lemma_count_orphans_nonneg(fps.skip(1), location_id);
        lemma_no_orphans_empty_query(fps.skip(1), location_id, cursor, limit);
    }
}

/// The orphan count is never negative.
pub proof fn lemma_count_orphans_nonneg(fps: Seq<FilePathView>, location_id: int)
    ensures
        count_orphans_spec(fps, location_id) >= 0,
    decreases fps.len(),
{
    if fps.len() != 0 {
        lemma_count_orphans_nonneg(fps.skip(1), location_id);
    }
}

/// Idempotence: a pass over a store that holds no orphan file paths — in
/// particular, a store a successful pass already fully processed — performs
/// no writes at all: the store (its committed-batch log included), the
/// cursor and the identifier supply come out exactly as they went in.
pub proof fn lemma_pass_idempotent(
    st: PassState,
    location_id: int,
    ext: Seq<ExtractionView>,
    fresh: Seq<int>,
    steps: nat,
)
    requires
        count_orphans_spec(st.store.file_paths, location_id) == 0,
    ensures
        pass_spec(st, location_id, ext, fresh, steps) == st,
{
    if steps != 0 {
        lemma_no_orphans_empty_query(
            st.store.file_paths,
            location_id,
            st.cursor,
            CHUNK_SIZE as nat,
        );
    }
}

} // verus!

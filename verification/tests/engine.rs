use file_identifier::driver::process_identifier_file_paths;
use file_identifier::ids::mint_fresh_ids;
use file_identifier::pairing::{CrdtOp, EntityKind, FieldValue, LocalMutation, SharedField};
use file_identifier::record::{Extraction, FileMetadata, FilePathRecord};
use file_identifier::report::{finalize_file_identifier, FileIdentifierReport, JobError};
use file_identifier::step::identifier_job_step;
use file_identifier::store::Store;
use file_identifier::CHUNK_SIZE;

fn orphan(id: i32, pub_id: u128, path: &str) -> FilePathRecord {
    FilePathRecord {
        id,
        pub_id,
        location_id: 1,
        materialized_path: path.to_string(),
        date_created: 1_600_000_000 + id as i64,
        cas_id: None,
        object_pub_id: None,
    }
}

fn extraction(pub_id: u128, cas: &str, kind: i32) -> Extraction {
    Extraction {
        fp_pub_id: pub_id,
        meta: Some(FileMetadata::new(cas.to_string(), kind, 42)),
    }
}

fn empty_store() -> Store {
    Store { file_paths: Vec::new(), objects: Vec::new(), history: Vec::new() }
}

#[test]
fn chunk_of_three_two_identical_bytes() {
    // Two file paths with identical content, one unique, empty store:
    // two objects created, three paths linked, none to a pre-existing object.
    let mut store = empty_store();
    store.file_paths = vec![orphan(1, 11, "/a"), orphan(2, 12, "/b"), orphan(3, 13, "/c")];
    let chunk = store.orphan_chunk(1, 0, CHUNK_SIZE);
    assert_eq!(chunk.len(), 3);
    let extractions = vec![
        extraction(11, "cas-same", 5),
        extraction(12, "cas-same", 5),
        extraction(13, "cas-unique", 7),
    ];
    let fresh = vec![1000, 1001, 1002];
    let (created, linked) = identifier_job_step(&mut store, &chunk, &extractions, &fresh);
    assert_eq!(created, 2);
    assert_eq!(linked, 3);
    assert_eq!(store.objects.len(), 2);
    let o1 = store.file_paths[0].object_pub_id.unwrap();
    let o2 = store.file_paths[1].object_pub_id.unwrap();
    let o3 = store.file_paths[2].object_pub_id.unwrap();
    assert_eq!(o1, o2);
    assert_ne!(o1, o3);
    assert_eq!(store.file_paths[0].cas_id.as_deref(), Some("cas-same"));
    assert_eq!(store.file_paths[2].cas_id.as_deref(), Some("cas-unique"));
}

#[test]
fn chunk_matching_preexisting_object() {
    // Two file paths whose identity already matches an object: nothing
    // created, both linked to the existing object.
    let mut store = empty_store();
    store.file_paths = vec![FilePathRecord {
        id: 1,
        pub_id: 10,
        location_id: 1,
        materialized_path: "/old".to_string(),
        date_created: 1_500_000_000,
        cas_id: Some("cas-known".to_string()),
        object_pub_id: Some(777),
    }];
    store.objects = vec![file_identifier::record::ObjectRecord {
        pub_id: 777,
        date_created: 1_500_000_000,
        kind: 5,
    }];
    store.file_paths.push(orphan(2, 21, "/x"));
    store.file_paths.push(orphan(3, 22, "/y"));
    let chunk = store.orphan_chunk(1, 0, CHUNK_SIZE);
    assert_eq!(chunk.len(), 2);
    let extractions = vec![extraction(21, "cas-known", 5), extraction(22, "cas-known", 5)];
    let fresh = vec![2000, 2001];
    let (created, linked) = identifier_job_step(&mut store, &chunk, &extractions, &fresh);
    assert_eq!(created, 0);
    assert_eq!(linked, 2);
    assert_eq!(store.objects.len(), 1);
    assert_eq!(store.file_paths[1].object_pub_id, Some(777));
    assert_eq!(store.file_paths[2].object_pub_id, Some(777));
}

#[test]
fn empty_chunk_fails_job() {
    // An expected-non-empty chunk arriving empty terminates the job with an
    // explicit error and leaves cursor, report and store untouched.
    let mut store = empty_store();
    let chunk: Vec<FilePathRecord> = Vec::new();
    let extractions: Vec<Extraction> = Vec::new();
    let fresh: Vec<u128> = Vec::new();
    let mut cursor: i32 = 41;
    let mut report = FileIdentifierReport::default();
    report.total_orphan_paths = 9;
    let r = process_identifier_file_paths(
        "file_identifier",
        &mut store,
        &chunk,
        &extractions,
        &fresh,
        &mut cursor,
        &mut report,
    );
    match r {
        Err(JobError::EarlyFinish { name, reason }) => {
            assert_eq!(name, "file_identifier");
            assert!(reason.contains("not returned"));
        }
        Ok(_) => panic!("an empty chunk must fail the job"),
    }
    assert_eq!(cursor, 41);
    assert_eq!(report.total_objects_created, 0);
    assert_eq!(report.total_objects_linked, 0);
}

#[test]
fn one_of_five_fails_extraction() {
    // One unreadable file: the other four are processed normally, the failed
    // one keeps a null identity for a later pass, and the chunk succeeds.
    let mut store = empty_store();
    store.file_paths = vec![
        orphan(1, 11, "/a"),
        orphan(2, 12, "/b"),
        orphan(3, 13, "/c"),
        orphan(4, 14, "/d"),
        orphan(5, 15, "/e"),
    ];
    let chunk = store.orphan_chunk(1, 0, CHUNK_SIZE);
    let extractions = vec![
        extraction(11, "cas-a", 1),
        extraction(12, "cas-b", 1),
        Extraction { fp_pub_id: 13, meta: None },
        extraction(14, "cas-d", 1),
        extraction(15, "cas-e", 1),
    ];
    let fresh = vec![3000, 3001, 3002, 3003, 3004];
    let mut cursor: i32 = 0;
    let mut report = FileIdentifierReport::default();
    report.total_orphan_paths = 5;
    let r = process_identifier_file_paths(
        "file_identifier",
        &mut store,
        &chunk,
        &extractions,
        &fresh,
        &mut cursor,
        &mut report,
    );
    assert!(r.is_ok());
    assert_eq!(report.total_objects_created, 4);
    assert_eq!(report.total_objects_linked, 4);
    assert_eq!(cursor, 5);
    assert!(store.file_paths[2].cas_id.is_none());
    assert!(store.file_paths[2].object_pub_id.is_none());
    assert!(store.file_paths[0].object_pub_id.is_some());
    assert!(store.file_paths[4].object_pub_id.is_some());
}

#[test]
fn second_chunk_sees_first_chunks_objects() {
    // Dedup across chunks: a later chunk's identity that an earlier chunk
    // minted an object for links to that same object.
    let mut store = empty_store();
    store.file_paths = vec![orphan(1, 11, "/a"), orphan(2, 12, "/b")];
    let mut cursor: i32 = 0;
    let mut report = FileIdentifierReport::default();
    report.total_orphan_paths = 2;

    let chunk1 = store.orphan_chunk(1, cursor, 1);
    assert_eq!(chunk1.len(), 1);
    let extractions = vec![extraction(11, "cas-shared", 3), extraction(12, "cas-shared", 3)];
    let fresh1 = vec![4000];
    let r1 = process_identifier_file_paths(
        "file_identifier",
        &mut store,
        &chunk1,
        &extractions,
        &fresh1,
        &mut cursor,
        &mut report,
    );
    assert!(r1.is_ok());
    assert_eq!(cursor, 1);
    assert_eq!(store.objects.len(), 1);

    let chunk2 = store.orphan_chunk(1, cursor, 1);
    assert_eq!(chunk2.len(), 1);
    assert_eq!(chunk2[0].pub_id, 12);
    let fresh2 = vec![4001];
    let r2 = process_identifier_file_paths(
        "file_identifier",
        &mut store,
        &chunk2,
        &extractions,
        &fresh2,
        &mut cursor,
        &mut report,
    );
    assert!(r2.is_ok());
    assert_eq!(cursor, 2);
    assert_eq!(store.objects.len(), 1);
    assert_eq!(store.file_paths[0].object_pub_id, store.file_paths[1].object_pub_id);
    assert_eq!(report.total_objects_created, 1);
    assert_eq!(report.total_objects_linked, 2);

    // A fully processed store yields no further orphan chunk: a second pass
    // performs zero writes.
    assert_eq!(store.count_orphans(1), 0);
    let chunk3 = store.orphan_chunk(1, 0, CHUNK_SIZE);
    assert!(chunk3.is_empty());
}

#[test]
fn every_committed_mutation_is_paired() {
    // Every batch in the committed log couples each local mutation with its
    // canonical replication description.
    let mut store = empty_store();
    store.file_paths = vec![orphan(1, 11, "/a"), orphan(2, 12, "/b")];
    let chunk = store.orphan_chunk(1, 0, CHUNK_SIZE);
    let extractions = vec![extraction(11, "cas-a", 1), extraction(12, "cas-b", 2)];
    let fresh = vec![5000, 5001];
    identifier_job_step(&mut store, &chunk, &extractions, &fresh);
    assert_eq!(store.history.len(), 4);
    for batch in &store.history {
        for entry in &batch.entries {
            match &entry.mutation {
                LocalMutation::SetCasId { fp_pub_id, cas_id } => {
                    assert_eq!(entry.ops.len(), 1);
                    match &entry.ops[0] {
                        CrdtOp::SharedUpdate { entity, pub_id, field, value } => {
                            assert_eq!(*entity, EntityKind::FilePath);
                            assert_eq!(pub_id, fp_pub_id);
                            assert_eq!(*field, SharedField::CasId);
                            match value {
                                FieldValue::Text(s) => assert_eq!(s, cas_id),
                                _ => panic!("identity must replicate as text"),
                            }
                        }
                        _ => panic!("identity assignment must replicate as an update"),
                    }
                }
                LocalMutation::ConnectObject { fp_pub_id, object_pub_id } => {
                    assert_eq!(entry.ops.len(), 1);
                    match &entry.ops[0] {
                        CrdtOp::SharedUpdate { entity, pub_id, field, value } => {
                            assert_eq!(*entity, EntityKind::FilePath);
                            assert_eq!(pub_id, fp_pub_id);
                            assert_eq!(*field, SharedField::ObjectRef);
                            match value {
                                FieldValue::Id(o) => assert_eq!(o, object_pub_id),
                                _ => panic!("links must replicate as identifiers"),
                            }
                        }
                        _ => panic!("links must replicate as an update"),
                    }
                }
                LocalMutation::CreateObject { pub_id, date_created, kind } => {
                    assert_eq!(entry.ops.len(), 3);
                    match &entry.ops[0] {
                        CrdtOp::SharedCreate { entity, pub_id: p } => {
                            assert_eq!(*entity, EntityKind::Object);
                            assert_eq!(p, pub_id);
                        }
                        _ => panic!("creation must replicate a shared create first"),
                    }
                    match &entry.ops[1] {
                        CrdtOp::SharedUpdate { field, value, .. } => {
                            assert_eq!(*field, SharedField::DateCreated);
                            match value {
                                FieldValue::Int(v) => assert_eq!(*v, *date_created),
                                _ => panic!("timestamps must replicate as integers"),
                            }
                        }
                        _ => panic!("creation must replicate its timestamp"),
                    }
                    match &entry.ops[2] {
                        CrdtOp::SharedUpdate { field, value, .. } => {
                            assert_eq!(*field, SharedField::Kind);
                            match value {
                                FieldValue::Int(v) => assert_eq!(*v, *kind as i64),
                                _ => panic!("kinds must replicate as integers"),
                            }
                        }
                        _ => panic!("creation must replicate its kind"),
                    }
                }
            }
        }
    }
}

#[test]
fn orphan_query_filters_and_orders() {
    let mut store = empty_store();
    store.file_paths = vec![
        orphan(1, 11, "/a"),
        FilePathRecord {
            id: 2,
            pub_id: 12,
            location_id: 2, // other location
            materialized_path: "/other".to_string(),
            date_created: 0,
            cas_id: None,
            object_pub_id: None,
        },
        FilePathRecord {
            id: 3,
            pub_id: 13,
            location_id: 1,
            materialized_path: "/done".to_string(),
            date_created: 0,
            cas_id: Some("done".to_string()), // already identified
            object_pub_id: None,
        },
        orphan(4, 14, "/b"),
        orphan(5, 15, "/c"),
    ];
    assert_eq!(store.count_orphans(1), 3);
    let all = store.orphan_chunk(1, 0, CHUNK_SIZE);
    assert_eq!(all.len(), 3);
    assert_eq!(all[0].id, 1);
    assert_eq!(all[1].id, 4);
    assert_eq!(all[2].id, 5);
    // cursor excludes already processed rows
    let past = store.orphan_chunk(1, 1, CHUNK_SIZE);
    assert_eq!(past.len(), 2);
    assert_eq!(past[0].id, 4);
    // limit bounds the chunk
    let limited = store.orphan_chunk(1, 0, 2);
    assert_eq!(limited.len(), 2);
    assert_eq!(limited[1].id, 4);
}

#[test]
fn finalize_signals_cache_invalidation() {
    let mut report = FileIdentifierReport::default();
    report.location_path = "/library".to_string();
    report.total_orphan_paths = 3;
    let out = finalize_file_identifier(report);
    assert!(out.invalidate_explorer_cache);
    assert_eq!(out.report.total_orphan_paths, 3);
    assert_eq!(out.report.location_path, "/library");
}

#[test]
fn finalize_noop_run_skips_invalidation() {
    let report = FileIdentifierReport::default();
    let out = finalize_file_identifier(report);
    assert!(!out.invalidate_explorer_cache);
    assert_eq!(out.report.total_objects_created, 0);
}

#[test]
fn default_report_is_empty() {
    let report = FileIdentifierReport::default();
    assert_eq!(report.location_path, "");
    assert_eq!(report.total_orphan_paths, 0);
    assert_eq!(report.total_objects_created, 0);
    assert_eq!(report.total_objects_linked, 0);
    assert_eq!(report.total_objects_ignored, 0);
}

#[test]
fn minted_ids_are_fresh_and_distinct() {
    let mut store = empty_store();
    store.objects = vec![file_identifier::record::ObjectRecord {
        pub_id: 777,
        date_created: 0,
        kind: 0,
    }];
    let ids = mint_fresh_ids(&store, 64).expect("collisions are vanishingly rare");
    assert_eq!(ids.len(), 64);
    for (i, a) in ids.iter().enumerate() {
        assert_ne!(*a, 777);
        for b in &ids[i + 1..] {
            assert_ne!(*a, *b);
        }
    }
}

#[test]
fn object_copies_timestamp_and_kind_from_first_path() {
    let mut store = empty_store();
    store.file_paths = vec![orphan(7, 70, "/first"), orphan(9, 90, "/second")];
    let chunk = store.orphan_chunk(1, 0, CHUNK_SIZE);
    let extractions = vec![extraction(70, "cas-x", 12), extraction(90, "cas-x", 12)];
    let fresh = vec![6000, 6001];
    let (created, linked) = identifier_job_step(&mut store, &chunk, &extractions, &fresh);
    assert_eq!((created, linked), (1, 2));
    assert_eq!(store.objects.len(), 1);
    // the representative is the first path observed with that identity
    assert_eq!(store.objects[0].date_created, 1_600_000_000 + 7);
    assert_eq!(store.objects[0].kind, 12);
    assert_eq!(store.objects[0].pub_id, 6000);
}

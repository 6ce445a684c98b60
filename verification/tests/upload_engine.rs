//! End-to-end behaviour of the chunked-upload engine.

use skynas::engine::UploadEngine;
use skynas::events::WsEvent;
use skynas::models::{TaskStatus, UploadError};

fn engine() -> UploadEngine {
    UploadEngine::new("/data".to_string(), false, 100)
}

/// A full sequential upload reports complete on the final chunk and the
/// session stays complete afterwards.
#[test]
fn sequential_upload_completes() {
    let mut e = engine();
    let id = e.init("pic.jpg".to_string(), "album".to_string(), 12, 3, 1000);
    let st = e.submit_chunk(&id, 0, vec![1, 2, 3, 4], 1001).unwrap();
    assert_eq!(st.received_chunks, 1);
    assert!(!st.complete);
    let st = e.submit_chunk(&id, 1, vec![5, 6, 7, 8], 1002).unwrap();
    assert_eq!(st.received_chunks, 2);
    assert!(!st.complete);
    let st = e.submit_chunk(&id, 2, vec![9, 10, 11, 12], 1003).unwrap();
    assert_eq!(st.received_chunks, 3);
    assert_eq!(st.total_chunks, 3);
    assert!(st.complete);
    let snap = e.status(&id).unwrap();
    assert!(snap.complete);
    assert_eq!(snap.received_chunks, 3);
}

/// The exact scenario: init("a.jpg","trip",10,2), 5 bytes "AAAAA" at
/// index 0, 5 bytes "BBBBB" at index 1, then finalize: 10 bytes
/// "AAAAABBBBB" under trip/a.jpg with its SHA-256 hex digest.
#[test]
fn two_chunk_scenario() {
    let mut e = engine();
    let id = e.init("a.jpg".to_string(), "trip".to_string(), 10, 2, 0);
    let st = e.submit_chunk(&id, 0, b"AAAAA".to_vec(), 1).unwrap();
    assert_eq!(st.received_chunks, 1);
    assert_eq!(st.total_chunks, 2);
    assert!(!st.complete);
    let st = e.submit_chunk(&id, 1, b"BBBBB".to_vec(), 2).unwrap();
    assert_eq!(st.received_chunks, 2);
    assert_eq!(st.total_chunks, 2);
    assert!(st.complete);
    let receipt = e.finalize(&id, 3).unwrap();
    assert_eq!(receipt.filename, "a.jpg");
    assert_eq!(receipt.album, "trip");
    assert_eq!(receipt.size, 10);
    assert_eq!(e.artifact_count(), 1);
    let a = e.artifact_at(0);
    assert_eq!(a.bytes, b"AAAAABBBBB".to_vec());
    assert_eq!(a.size, 10);
    assert_eq!(a.storage_path, "/data/trip/a.jpg");
    assert_eq!(
        a.content_hash,
        "59158e9f11434e40f5af83230f07877ecf9acd90b9fbeb6002a5e836b6edecee"
    );
    assert!(!a.has_derivative);
    assert_eq!(e.task_status(&id), Some(TaskStatus::Completed));
    assert!(!e.session_exists(&id));
}

/// Re-submitting an index overwrites the earlier bytes: the finalized
/// artifact holds the last submission.
#[test]
fn resubmission_overwrites() {
    let mut e = engine();
    let id = e.init("r.bin".to_string(), "x".to_string(), 4, 2, 0);
    e.submit_chunk(&id, 0, b"ZZ".to_vec(), 1).unwrap();
    e.submit_chunk(&id, 1, b"CD".to_vec(), 2).unwrap();
    e.submit_chunk(&id, 0, b"AB".to_vec(), 3).unwrap();
    e.finalize(&id, 4).unwrap();
    assert_eq!(e.artifact_at(0).bytes, b"ABCD".to_vec());
}

/// Only chunk index order matters for the merge, not submission order.
#[test]
fn submission_order_is_irrelevant() {
    let mut e = engine();
    let id = e.init("o.bin".to_string(), "x".to_string(), 4, 2, 0);
    let st = e.submit_chunk(&id, 1, b"CD".to_vec(), 1).unwrap();
    assert_eq!(st.received_chunks, 2);
    assert!(st.complete);
    e.submit_chunk(&id, 0, b"AB".to_vec(), 2).unwrap();
    e.finalize(&id, 3).unwrap();
    assert_eq!(e.artifact_at(0).bytes, b"ABCD".to_vec());
}

/// The identifiers handed out are hyphenated UUIDs, 36 characters long.
#[test]
fn upload_ids_are_uuids() {
    let mut e = engine();
    let a = e.init("a".to_string(), "x".to_string(), 1, 1, 0);
    let b = e.init("b".to_string(), "x".to_string(), 1, 1, 0);
    assert_eq!(a.len(), 36);
    assert_eq!(b.len(), 36);
    assert_eq!(a.chars().filter(|c| *c == '-').count(), 4);
}

/// Unknown ids give NotFound from submit, status, finalize and cancel.
#[test]
fn unknown_id_is_not_found() {
    let mut e = engine();
    let ghost_id = "no-such-upload".to_string();
    assert!(matches!(
        e.submit_chunk(&ghost_id, 0, vec![1], 1),
        Err(UploadError::NotFound)
    ));
    assert!(e.status(&ghost_id).is_none());
    assert!(matches!(e.finalize(&ghost_id, 2), Err(UploadError::NotFound)));
    assert!(matches!(e.cancel(&ghost_id, 3), Err(UploadError::NotFound)));
}

/// A finalize that misses a chunk artifact fails with IOFailure and the
/// session survives for a fresh attempt.
#[test]
fn missing_chunk_fails_merge() {
    let mut e = engine();
    let id = e.init("m.bin".to_string(), "x".to_string(), 4, 2, 0);
    let st = e.submit_chunk(&id, 1, b"CD".to_vec(), 1).unwrap();
    assert!(st.complete);
    assert!(matches!(e.finalize(&id, 2), Err(UploadError::IOFailure)));
    assert_eq!(e.artifact_count(), 0);
    assert!(e.session_exists(&id));
}

/// After cancel, any later submit or finalize fails with Cancelled, the
/// session is gone (no chunk artifacts remain) and the task reports
/// Cancelled.
#[test]
fn cancel_is_lasting() {
    let mut e = engine();
    let id = e.init("c.jpg".to_string(), "x".to_string(), 8, 2, 0);
    e.submit_chunk(&id, 0, vec![1, 2, 3, 4], 1).unwrap();
    e.cancel(&id, 2).unwrap();
    assert!(!e.session_exists(&id));
    assert_eq!(e.task_status(&id), Some(TaskStatus::Cancelled));
    assert!(matches!(
        e.submit_chunk(&id, 1, vec![5, 6, 7, 8], 3),
        Err(UploadError::Cancelled)
    ));
    assert!(matches!(e.finalize(&id, 4), Err(UploadError::Cancelled)));
    assert!(e.status(&id).is_none());
}

/// Cancel-all cancels every active session: count three, each task
/// Cancelled, no session (and so no chunk artifact) left.
#[test]
fn cancel_all_cancels_three() {
    let mut e = engine();
    let a = e.init("a.jpg".to_string(), "x".to_string(), 4, 1, 0);
    let b = e.init("b.jpg".to_string(), "x".to_string(), 4, 1, 0);
    let c = e.init("c.jpg".to_string(), "x".to_string(), 4, 1, 0);
    e.submit_chunk(&a, 0, vec![1, 2, 3, 4], 1).unwrap();
    assert_eq!(e.cancel_all(2), 3);
    for id in [&a, &b, &c] {
        assert_eq!(e.task_status(id), Some(TaskStatus::Cancelled));
        assert!(!e.session_exists(id));
    }
    assert_eq!(e.active_uploads(), 0);
}

/// A zero-age sweep removes every non-terminal session and task; a huge
/// age removes none.
#[test]
fn sweep_stale_thresholds() {
    let mut e = engine();
    let pending = e.init("p.jpg".to_string(), "x".to_string(), 4, 1, 100);
    let done = e.init("d.jpg".to_string(), "x".to_string(), 2, 1, 100);
    e.submit_chunk(&done, 0, vec![7, 8], 101).unwrap();
    e.finalize(&done, 102).unwrap();
    assert_eq!(e.sweep_stale(u64::MAX / 3600, 200), 0);
    assert!(e.session_exists(&pending));
    assert_eq!(e.sweep_stale(0, 200), 1);
    assert!(!e.session_exists(&pending));
    assert!(e.task_status(&pending).is_none());
    assert_eq!(e.task_status(&done), Some(TaskStatus::Completed));
}

/// Cleanup removes the records of uploads that never finished and leaves
/// terminal ones.
#[test]
fn cleanup_incomplete_removes_running() {
    let mut e = engine();
    let p = e.init("p.jpg".to_string(), "x".to_string(), 4, 2, 0);
    e.submit_chunk(&p, 0, vec![1, 2], 1).unwrap();
    let d = e.init("d.jpg".to_string(), "x".to_string(), 2, 1, 0);
    e.submit_chunk(&d, 0, vec![3, 4], 1).unwrap();
    e.finalize(&d, 2).unwrap();
    assert_eq!(e.cleanup_incomplete(10), 1);
    assert!(e.task_status(&p).is_none());
    assert_eq!(e.task_status(&d), Some(TaskStatus::Completed));
}

/// Active listing shows pending and uploading tasks only, with their
/// progress.
#[test]
fn list_active_shows_running() {
    let mut e = engine();
    let p = e.init("p.jpg".to_string(), "x".to_string(), 4, 2, 0);
    let d = e.init("d.jpg".to_string(), "x".to_string(), 2, 1, 0);
    e.submit_chunk(&d, 0, vec![3, 4], 1).unwrap();
    e.finalize(&d, 2).unwrap();
    let active = e.list_active();
    assert_eq!(active.len(), 1);
    assert_eq!(active[0].id, p);
    assert!(matches!(active[0].status, TaskStatus::Pending));
}

/// The lifecycle events of a simple upload arrive in order.
#[test]
fn event_stream_order() {
    let mut e = engine();
    let sub = e.subscribe_events();
    let id = e.init("a.jpg".to_string(), "trip".to_string(), 2, 1, 0);
    e.submit_chunk(&id, 0, vec![1, 2], 1).unwrap();
    e.finalize(&id, 2).unwrap();
    let mut kinds = Vec::new();
    while let Some(ev) = e.next_event(sub) {
        kinds.push(match ev {
            WsEvent::UploadStarted { .. } => "started",
            WsEvent::ChunkReceived { .. } => "chunk",
            WsEvent::UploadProgress { .. } => "progress",
            WsEvent::ChunksMerging { .. } => "merging",
            WsEvent::FileSaved { .. } => "saved",
            WsEvent::HeicConverting { .. } => "converting",
            WsEvent::HeicConverted { .. } => "converted",
            WsEvent::DatabaseSaving { .. } => "db",
            WsEvent::UploadComplete { .. } => "complete",
            WsEvent::UploadError { .. } => "error",
            WsEvent::CloudSyncTriggered { .. } => "sync",
            WsEvent::CloudSyncStarted => "sync_started",
            WsEvent::CloudSyncComplete { .. } => "sync_complete",
        });
    }
    assert_eq!(
        kinds,
        vec![
            "started", "chunk", "progress", "merging", "saved", "converting", "converted", "db",
            "complete"
        ]
    );
}

/// A cancellation observed at the submit checkpoint publishes the error
/// event with stage "cancelled".
#[test]
fn cancelled_checkpoint_event() {
    let mut e = engine();
    let id = e.init("a.jpg".to_string(), "x".to_string(), 4, 2, 0);
    e.cancel(&id, 1).unwrap();
    let sub = e.subscribe_events();
    assert!(matches!(
        e.submit_chunk(&id, 0, vec![1], 2),
        Err(UploadError::Cancelled)
    ));
    match e.next_event(sub) {
        Some(WsEvent::UploadError { stage, error, .. }) => {
            assert_eq!(stage, "cancelled");
            assert_eq!(error, "Upload cancelled by user");
        }
        other => panic!("expected the cancelled error event, got {:?}", other),
    }
}

/// A finalize that was handed a derivative records and reports it.
#[test]
fn derivative_is_recorded() {
    let mut e = engine();
    let id = e.init("a.heic".to_string(), "x".to_string(), 2, 1, 0);
    e.submit_chunk(&id, 0, vec![1, 2], 1).unwrap();
    e.finalize_with_derivative(&id, Some("/data/x/a.jpg".to_string()), 2)
        .unwrap();
    assert!(e.artifact_at(0).has_derivative);
}

/// The received-bytes estimate is the stored-chunk count times this
/// chunk's size, capped at the total, and exact once complete.
#[test]
fn progress_estimate() {
    let mut e = engine();
    let id = e.init("a.bin".to_string(), "x".to_string(), 10, 3, 0);
    let snap = e.status(&id).unwrap();
    assert_eq!(snap.received_chunks, 0);
    e.submit_chunk(&id, 0, vec![0; 4], 1).unwrap();
    // one chunk stored, 4 bytes each: estimate 4 of 10
    let sub = e.subscribe_events();
    e.submit_chunk(&id, 1, vec![0; 4], 2).unwrap();
    // two chunks stored, 4 bytes each: estimate 8 of 10, 80 percent
    let _chunk = e.next_event(sub);
    match e.next_event(sub) {
        Some(WsEvent::UploadProgress { received_bytes, percent, .. }) => {
            assert_eq!(received_bytes, 8);
            assert_eq!(percent, 80);
        }
        other => panic!("expected a progress event, got {:?}", other),
    }
    // the last chunk completes the upload: exactly the total size
    let st = e.submit_chunk(&id, 2, vec![0; 2], 3).unwrap();
    assert!(st.complete);
    let _ = e.next_event(sub);
    match e.next_event(sub) {
        Some(WsEvent::UploadProgress { received_bytes, percent, .. }) => {
            assert_eq!(received_bytes, 10);
            assert_eq!(percent, 100);
        }
        other => panic!("expected a progress event, got {:?}", other),
    }
}

//! The chunked-upload engine: session bookkeeping, chunk ingestion,
//! cancellation, merge/finalize and lifecycle event broadcast.
//!
//! Every operation is specified as a function from the engine's
//! mathematical state ([`EngineV`]) to the next state, and the executable
//! methods are proved to follow those functions exactly.

use vstd::prelude::*;
use vstd::string::StringExecFns;
use crate::events::{BusV, EventBus, EventV, WsEvent, bus_publish};
use crate::models::{
    ArtifactV, ChunkPart, FinalizeReceipt, FinalizedArtifact, PartV, SessionMeta, SessionRec,
    SessionV, TaskStatus, TaskV, UploadChunk, UploadError, UploadStatus, UploadTask, is_terminal,
};
use crate::outside::fresh_upload_id;
use crate::registry::{CancellationRegistry, HandleV, handle_idx, has_handle, unique_handle_ids};
use crate::store::{
    UploadStore, has_part, has_session, has_task, part_bytes, part_idx, session_idx, task_idx,
    unique_part_indices, unique_session_ids, unique_task_ids, upsert_part,
};

verus! {

/// Mathematical state of the whole engine.
pub ghost struct EngineV {
    pub base_path: Seq<char>,
    pub auto_sync: bool,
    pub sessions: Seq<SessionV>,
    pub tasks: Seq<TaskV>,
    pub handles: Seq<HandleV>,
    pub catalog: Seq<ArtifactV>,
    pub bus: BusV,
}

/// Internal consistency of one session record.
pub open spec fn session_ok(v: SessionV) -> bool {
    &&& v.meta.total_size > 0
    &&& v.meta.total_chunks >= 1
    &&& v.meta.received_bytes <= v.meta.total_size
    &&& (v.meta.completed <==> v.meta.received_chunks >= v.meta.total_chunks)
    &&& unique_part_indices(v.parts)
}

/// Engine invariant: unique keys everywhere, well-formed sessions, and the
/// cross-table facts the lifecycle maintains — every session and every
/// cancellation handle belongs to a task, a task still running always has
/// its session, and a handle never outlives its task's terminal transition.
pub open spec fn inv(s: EngineV) -> bool {
    &&& unique_session_ids(s.sessions)
    &&& unique_task_ids(s.tasks)
    &&& unique_handle_ids(s.handles)
    &&& s.bus.capacity >= 1
    &&& forall|i: int| 0 <= i < s.bus.subs.len() ==> #[trigger] s.bus.subs[i].len()
        <= s.bus.capacity
    &&& forall|i: int| 0 <= i < s.sessions.len() ==> session_ok(#[trigger] s.sessions[i])
    &&& forall|i: int| 0 <= i < s.sessions.len() ==> has_task(
        s.tasks,
        (#[trigger] s.sessions[i]).meta.upload_id,
    )
    &&& forall|i: int| 0 <= i < s.handles.len() ==> has_task(
        s.tasks,
        (#[trigger] s.handles[i]).id,
    )
    &&& forall|i: int| 0 <= i < s.tasks.len() && !is_terminal((#[trigger] s.tasks[i]).status)
        ==> has_session(s.sessions, s.tasks[i].id)
}

/// The task after a cancellation: terminal `Cancelled`, flag set.
pub open spec fn cancel_task_v(t: TaskV, now: i64) -> TaskV {
    TaskV { status: TaskStatus::Cancelled, cancelled: true, updated_at: now, ..t }
}

/// Whether a checkpoint observes a cancellation of `id`: its live handle
/// was signalled, or its task already carries the cancellation.
pub open spec fn cancel_requested(s: EngineV, id: Seq<char>) -> bool {
    ||| (has_handle(s.handles, id) && s.handles[handle_idx(s.handles, id)].cancelled)
    ||| (has_task(s.tasks, id) && (s.tasks[task_idx(s.tasks, id)].cancelled || s.tasks[task_idx(
        s.tasks,
        id,
    )].status == TaskStatus::Cancelled))
}

/// Teardown of upload `id` without any event: the session record and its
/// chunk artifacts go, the task becomes `Cancelled`, the handle is
/// released.  This is what `cancel` does.
pub open spec fn core_teardown(s: EngineV, id: Seq<char>, now: i64) -> EngineV {
    EngineV {
        sessions: if has_session(s.sessions, id) {
            s.sessions.remove(session_idx(s.sessions, id))
        } else {
            s.sessions
        },
        tasks: if has_task(s.tasks, id) {
            s.tasks.update(task_idx(s.tasks, id), cancel_task_v(s.tasks[task_idx(s.tasks, id)], now))
        } else {
            s.tasks
        },
        handles: if has_handle(s.handles, id) {
            s.handles.remove(handle_idx(s.handles, id))
        } else {
            s.handles
        },
        ..s
    }
}

/// The event published when a checkpoint observes a cancellation.
pub open spec fn cancelled_event(id: Seq<char>) -> EventV {
    EventV::UploadError {
        upload_id: id,
        filename: "unknown"@,
        error: "Upload cancelled by user"@,
        stage: "cancelled"@,
    }
}

/// Teardown as performed at a checkpoint: [`core_teardown`] plus the
/// error event with stage `cancelled`.
pub open spec fn teardown(s: EngineV, id: Seq<char>, now: i64) -> EngineV {
    let t = core_teardown(s, id, now);
    EngineV { bus: bus_publish(t.bus, cancelled_event(id)), ..t }
}

/// Sessions after an upsert of `v` under its own id.
pub open spec fn upsert_session_v(ss: Seq<SessionV>, v: SessionV) -> Seq<SessionV> {
    if has_session(ss, v.meta.upload_id) {
        ss.update(session_idx(ss, v.meta.upload_id), v)
    } else {
        ss.push(v)
    }
}

/// Tasks after an upsert of `t` under its own id.
pub open spec fn upsert_task_v(ts: Seq<TaskV>, t: TaskV) -> Seq<TaskV> {
    if has_task(ts, t.id) {
        ts.update(task_idx(ts, t.id), t)
    } else {
        ts.push(t)
    }
}

/// Handles after (re-)registration of `id`: a fresh, unsignalled handle.
pub open spec fn upsert_handle_v(hs: Seq<HandleV>, id: Seq<char>) -> Seq<HandleV> {
    if has_handle(hs, id) {
        hs.update(handle_idx(hs, id), HandleV { id, cancelled: false })
    } else {
        hs.push(HandleV { id, cancelled: false })
    }
}

/// The temp-storage location of session `id`.
pub open spec fn temp_path_of(base: Seq<char>, id: Seq<char>) -> Seq<char> {
    base + "/.temp/"@ + id
}

/// The session record a fresh init writes.
pub open spec fn fresh_session(
    id: Seq<char>,
    filename: Seq<char>,
    album: Seq<char>,
    total_size: u64,
    total_chunks: u32,
    base: Seq<char>,
    now: i64,
) -> SessionV {
    SessionV {
        meta: SessionMeta {
            upload_id: id,
            filename,
            album,
            total_size,
            received_chunks: 0,
            total_chunks,
            received_bytes: 0,
            completed: false,
            created_at: now,
            temp_path: temp_path_of(base, id),
        },
        parts: Seq::empty(),
    }
}

/// The task record a fresh init writes.
pub open spec fn fresh_task(
    id: Seq<char>,
    filename: Seq<char>,
    album: Seq<char>,
    total_size: u64,
    now: i64,
) -> TaskV {
    TaskV {
        id,
        filename,
        album,
        total_bytes: total_size,
        received_bytes: 0,
        status: TaskStatus::Pending,
        created_at: now,
        updated_at: now,
        cancelled: false,
    }
}

/// The event published when a session is initialized.
pub open spec fn started_event(
    id: Seq<char>,
    filename: Seq<char>,
    album: Seq<char>,
    total_size: u64,
    total_chunks: u32,
) -> EventV {
    EventV::UploadStarted {
        upload_id: id,
        filename,
        album,
        total_bytes: total_size,
        total_chunks,
    }
}

/// The engine after `init`: fresh session, fresh pending task, fresh
/// handle — all under `id`, overwriting earlier records of the same id —
/// and a `UploadStarted` event published.
pub open spec fn init_m(
    s: EngineV,
    id: Seq<char>,
    filename: Seq<char>,
    album: Seq<char>,
    total_size: u64,
    total_chunks: u32,
    now: i64,
) -> EngineV {
    EngineV {
        sessions: upsert_session_v(
            s.sessions,
            fresh_session(id, filename, album, total_size, total_chunks, s.base_path, now),
        ),
        tasks: upsert_task_v(s.tasks, fresh_task(id, filename, album, total_size, now)),
        handles: upsert_handle_v(s.handles, id),
        bus: bus_publish(s.bus, started_event(id, filename, album, total_size, total_chunks)),
        ..s
    }
}

/// Outcome of a chunk submission, at the model level.
pub ghost enum SubmitR {
    Cancelled,
    NotFound,
    Accepted { received_chunks: u32, total_chunks: u32, complete: bool },
}

/// The received-bytes estimate: number of stored artifacts times this
/// chunk's size, capped at the total size.
pub open spec fn est_bytes(parts_count: int, chunk_len: int, total: u64) -> u64 {
    if parts_count * chunk_len <= total {
        (parts_count * chunk_len) as u64
    } else {
        total
    }
}

/// The session after chunk `idx` with `bytes` is accepted: the artifact
/// for `idx` is overwritten or added, the acknowledged-chunk count never
/// goes backwards, completion holds exactly when it reaches the total,
/// and received bytes are the capped estimate (the exact total once
/// complete).
pub open spec fn submit_update_session(v: SessionV, idx: u32, bytes: Seq<u8>) -> SessionV {
    let nr: u32 = if v.meta.received_chunks >= idx + 1 {
        v.meta.received_chunks
    } else {
        (idx + 1) as u32
    };
    let comp = nr >= v.meta.total_chunks;
    let parts1 = upsert_part(v.parts, idx, bytes);
    let rb: u64 = if comp {
        v.meta.total_size
    } else {
        est_bytes(parts1.len() as int, bytes.len() as int, v.meta.total_size)
    };
    SessionV {
        meta: SessionMeta { received_chunks: nr, received_bytes: rb, completed: comp, ..v.meta },
        parts: parts1,
    }
}

/// The task after a chunk is accepted: `Pending` becomes `Uploading` on
/// the first chunk, progress and timestamp are refreshed.
pub open spec fn uploading_task(t: TaskV, received_bytes: u64, now: i64) -> TaskV {
    TaskV {
        status: if t.status == TaskStatus::Pending {
            TaskStatus::Uploading
        } else {
            t.status
        },
        received_bytes,
        updated_at: now,
        ..t
    }
}

/// The `ChunkReceived` event of one accepted chunk.
pub open spec fn chunk_received_event(id: Seq<char>, idx: u32, total_chunks: u32) -> EventV {
    EventV::ChunkReceived { upload_id: id, chunk_index: idx, total_chunks }
}

/// The `UploadProgress` event after one accepted chunk.
pub open spec fn progress_event(
    id: Seq<char>,
    filename: Seq<char>,
    received_bytes: u64,
    total_size: u64,
    percent: u8,
) -> EventV {
    EventV::UploadProgress {
        upload_id: id,
        filename,
        received_bytes,
        total_bytes: total_size,
        percent,
    }
}

/// The engine after `submit_chunk`, with the outcome: a cancellation
/// observed at the checkpoint tears the upload down; an unknown session
/// changes nothing; otherwise the chunk is accepted as
/// [`submit_update_session`] says, the task moves along, and the
/// `ChunkReceived` and `UploadProgress` events go out in that order.
pub open spec fn submit_m(
    s: EngineV,
    id: Seq<char>,
    idx: u32,
    bytes: Seq<u8>,
    now: i64,
) -> (EngineV, SubmitR) {
    if cancel_requested(s, id) {
        (teardown(s, id, now), SubmitR::Cancelled)
    } else if !has_session(s.sessions, id) {
        (s, SubmitR::NotFound)
    } else {
        let si = session_idx(s.sessions, id);
        let v = s.sessions[si];
        let v1 = submit_update_session(v, idx, bytes);
        let tasks1 = if has_task(s.tasks, id) {
            s.tasks.update(
                task_idx(s.tasks, id),
                uploading_task(s.tasks[task_idx(s.tasks, id)], v1.meta.received_bytes, now),
            )
        } else {
            s.tasks
        };
        let pct: u8 = (v1.meta.received_bytes * 100 / (v.meta.total_size as int)) as u8;
        let bus1 = bus_publish(
            bus_publish(s.bus, chunk_received_event(id, idx, v.meta.total_chunks)),
            progress_event(id, v.meta.filename, v1.meta.received_bytes, v.meta.total_size, pct),
        );
        (
            EngineV { sessions: s.sessions.update(si, v1), tasks: tasks1, bus: bus1, ..s },
            SubmitR::Accepted {
                received_chunks: v1.meta.received_chunks,
                total_chunks: v.meta.total_chunks,
                complete: v1.meta.completed,
            },
        )
    }
}

/// Outcome of a finalize, at the model level.
pub ghost enum FinalizeR {
    Cancelled,
    NotFound,
    IOFailure { missing: u32 },
    Done { filename: Seq<char>, album: Seq<char>, size: u64 },
}

/// The smallest chunk index in `c..total` with no stored artifact, if any.
pub open spec fn first_missing(parts: Seq<PartV>, total: u32, c: int) -> Option<u32>
    decreases total - c,
{
    if c < 0 || c >= total {
        None
    } else if !has_part(parts, c as u32) {
        Some(c as u32)
    } else {
        first_missing(parts, total, c + 1)
    }
}

/// The concatenation of the artifacts for chunk indices `0..c`, in index
/// order — exactly the bytes the merge writes.
pub open spec fn merged_bytes(parts: Seq<PartV>, c: int) -> Seq<u8>
    decreases c,
{
    if c <= 0 {
        Seq::empty()
    } else {
        merged_bytes(parts, c - 1) + part_bytes(parts, (c - 1) as u32)
    }
}

/// The artifacts left after a merge failed at missing index `m`: the merge
/// consumed (and deleted) the artifacts below `m`, the rest stay.
pub open spec fn parts_from(parts: Seq<PartV>, m: u32) -> Seq<PartV>
    decreases parts.len(),
{
    if parts.len() == 0 {
        Seq::empty()
    } else if parts[0].index < m {
        parts_from(parts.drop_first(), m)
    } else {
        seq![parts[0]] + parts_from(parts.drop_first(), m)
    }
}

/// Destination path of a finalized artifact.
pub open spec fn storage_path_of(base: Seq<char>, album: Seq<char>, filename: Seq<char>) -> Seq<
    char,
> {
    base + "/"@ + album + "/"@ + filename
}

/// The catalog record of a successful merge of session `v`: the merged
/// bytes in index order, their length, and the hex digest of exactly
/// those bytes.
pub open spec fn artifact_of(v: SessionV, base: Seq<char>, derivative: Option<Seq<char>>) -> ArtifactV {
    let merged = merged_bytes(v.parts, v.meta.total_chunks as int);
    ArtifactV {
        filename: v.meta.filename,
        album: v.meta.album,
        content_hash: crate::hex::hex_of(crate::outside::sha256_of(merged)),
        size: merged.len() as u64,
        storage_path: storage_path_of(base, v.meta.album, v.meta.filename),
        has_derivative: derivative is Some,
        bytes: merged,
    }
}

/// The task after a successful finalize.
pub open spec fn complete_task(t: TaskV, now: i64) -> TaskV {
    TaskV { status: TaskStatus::Completed, updated_at: now, ..t }
}

/// The events of a successful finalize, in order, folded onto the bus.
pub open spec fn finalize_bus(
    b: BusV,
    id: Seq<char>,
    v: SessionMeta,
    base: Seq<char>,
    derivative: Option<Seq<char>>,
    auto_sync: bool,
) -> BusV {
    let b1 = bus_publish(b, EventV::ChunksMerging { upload_id: id, filename: v.filename });
    let b2 = bus_publish(
        b1,
        EventV::FileSaved {
            upload_id: id,
            filename: v.filename,
            path: storage_path_of(base, v.album, v.filename),
            size: v.total_size,
        },
    );
    let b3 = bus_publish(b2, EventV::HeicConverting { upload_id: id, filename: v.filename });
    let b4 = bus_publish(
        b3,
        EventV::HeicConverted {
            upload_id: id,
            original: v.filename,
            converted: match derivative {
                Some(d) => d,
                None => Seq::empty(),
            },
            success: derivative is Some,
        },
    );
    let b5 = bus_publish(b4, EventV::DatabaseSaving { upload_id: id, filename: v.filename });
    let b6 = if auto_sync {
        bus_publish(b5, EventV::CloudSyncTriggered { upload_id: id, filename: v.filename })
    } else {
        b5
    };
    bus_publish(
        b6,
        EventV::UploadComplete {
            upload_id: id,
            filename: v.filename,
            album: v.album,
            size: v.total_size,
        },
    )
}

/// The error event of a merge that found a chunk artifact missing.
pub open spec fn merge_error_event(id: Seq<char>, filename: Seq<char>) -> EventV {
    EventV::UploadError {
        upload_id: id,
        filename,
        error: "missing chunk artifact"@,
        stage: "merge"@,
    }
}

/// The engine after `finalize`, with the outcome.  A cancellation observed
/// at the start tears the upload down; an unknown session changes
/// nothing.  Otherwise the merge runs in strict index order: if some
/// artifact is missing it stops there — artifacts already consumed are
/// gone, the session stays for a fresh init, an error event goes out.  On
/// success the merged artifact is committed to the catalog, the task
/// completes, session and handle are released, and the lifecycle events
/// go out in order.
pub open spec fn finalize_m(
    s: EngineV,
    id: Seq<char>,
    derivative: Option<Seq<char>>,
    now: i64,
) -> (EngineV, FinalizeR) {
    if cancel_requested(s, id) {
        (teardown(s, id, now), FinalizeR::Cancelled)
    } else if !has_session(s.sessions, id) {
        (s, FinalizeR::NotFound)
    } else {
        let si = session_idx(s.sessions, id);
        let v = s.sessions[si];
        let b1 = bus_publish(
            s.bus,
            EventV::ChunksMerging { upload_id: id, filename: v.meta.filename },
        );
        match first_missing(v.parts, v.meta.total_chunks, 0) {
            Some(m) => (
                EngineV {
                    sessions: s.sessions.update(
                        si,
                        SessionV { meta: v.meta, parts: parts_from(v.parts, m) },
                    ),
                    bus: bus_publish(b1, merge_error_event(id, v.meta.filename)),
                    ..s
                },
                FinalizeR::IOFailure { missing: m },
            ),
            None => (
                EngineV {
                    sessions: s.sessions.remove(si),
                    tasks: if has_task(s.tasks, id) {
                        s.tasks.update(
                            task_idx(s.tasks, id),
                            complete_task(s.tasks[task_idx(s.tasks, id)], now),
                        )
                    } else {
                        s.tasks
                    },
                    handles: if has_handle(s.handles, id) {
                        s.handles.remove(handle_idx(s.handles, id))
                    } else {
                        s.handles
                    },
                    catalog: s.catalog.push(artifact_of(v, s.base_path, derivative)),
                    bus: finalize_bus(s.bus, id, v.meta, s.base_path, derivative, s.auto_sync),
                    ..s
                },
                FinalizeR::Done { filename: v.meta.filename, album: v.meta.album, size: v.meta.total_size },
            ),
        }
    }
}

/// View of an optional derivative path.
pub open spec fn opt_str_view(d: Option<String>) -> Option<Seq<char>> {
    match d {
        Some(s) => Some(s@),
        None => None,
    }
}

/// The engine after cancel-all: every active upload is torn down in
/// registry order, oldest handle first.
pub open spec fn cancel_all_m(s: EngineV, now: i64) -> EngineV
    decreases s.handles.len(),
    via cancel_all_m_dec
{
    if s.handles.len() == 0 {
        s
    } else {
        cancel_all_m(core_teardown(s, s.handles[0].id, now), now)
    }
}

#[via_fn]
proof fn cancel_all_m_dec(s: EngineV, now: i64) {
    if s.handles.len() != 0 {
        assert(has_handle(s.handles, s.handles[0].id));
    }
}

/// A session's age at `now`, clamped at zero.
pub open spec fn age_of(created: i64, now: i64) -> int {
    if now >= created {
        now - created
    } else {
        0
    }
}

/// Whether the sweep removes the session at position `i`: at least
/// `thresh` seconds old, and its task never reached a terminal status.
pub open spec fn stale_nonterminal(s: EngineV, i: int, thresh: int, now: i64) -> bool {
    let sess = s.sessions[i];
    &&& age_of(sess.meta.created_at, now) >= thresh
    &&& (!has_task(s.tasks, sess.meta.upload_id) || !is_terminal(
        s.tasks[task_idx(s.tasks, sess.meta.upload_id)].status,
    ))
}

/// One sweep removal: session `i` goes, with its task and its handle.
pub open spec fn sweep_remove(s: EngineV, i: int) -> EngineV {
    let id = s.sessions[i].meta.upload_id;
    EngineV {
        sessions: s.sessions.remove(i),
        tasks: if has_task(s.tasks, id) {
            s.tasks.remove(task_idx(s.tasks, id))
        } else {
            s.tasks
        },
        handles: if has_handle(s.handles, id) {
            s.handles.remove(handle_idx(s.handles, id))
        } else {
            s.handles
        },
        ..s
    }
}

/// The engine after the stale sweep has looked at sessions `i..`, with
/// the number it removed: each stale, non-terminal session is deleted
/// together with its task and handle; everything else stays.
pub open spec fn sweep_m(s: EngineV, thresh: int, now: i64, i: int) -> (EngineV, int)
    decreases s.sessions.len() + 1 - i,
{
    if i < 0 || i >= s.sessions.len() {
        (s, 0)
    } else if stale_nonterminal(s, i, thresh, now) {
        let r = sweep_m(sweep_remove(s, i), thresh, now, i);
        (r.0, r.1 + 1)
    } else {
        sweep_m(s, thresh, now, i + 1)
    }
}

/// The tasks whose status is `Pending` or `Uploading`, in store order.
pub open spec fn active_tasks(ts: Seq<TaskV>) -> Seq<TaskV>
    decreases ts.len(),
{
    if ts.len() == 0 {
        Seq::empty()
    } else {
        active_tasks(ts.drop_last()) + (if !is_terminal(ts.last().status) {
            seq![ts.last()]
        } else {
            Seq::empty()
        })
    }
}

/// The engine: upload store, cancellation registry, event bus, and the
/// catalog records committed by successful merges.
pub struct UploadEngine {
    pub base_path: String,
    pub auto_sync: bool,
    pub store: UploadStore,
    pub registry: CancellationRegistry,
    pub bus: EventBus,
    pub catalog: Vec<FinalizedArtifact>,
}

impl View for UploadEngine {
    type V = EngineV;

    open spec fn view(&self) -> EngineV {
        EngineV {
            base_path: self.base_path@,
            auto_sync: self.auto_sync,
            sessions: self.store.sessions_v(),
            tasks: self.store.tasks_v(),
            handles: self.registry@,
            catalog: self.catalog@.map_values(|a: FinalizedArtifact| a@),
            bus: self.bus@,
        }
    }
}

impl UploadEngine {
    /// A fresh engine over `base_path`, with an event bus whose
    /// subscribers buffer at most `event_capacity` undelivered events.
    pub fn new(base_path: String, auto_sync: bool, event_capacity: usize) -> (r: UploadEngine)
        requires
            event_capacity >= 1,
        ensures
            inv(r@),
            r@.base_path == base_path@,
            r@.auto_sync == auto_sync,
            r@.sessions == Seq::<SessionV>::empty(),
            r@.tasks == Seq::<TaskV>::empty(),
            r@.handles == Seq::<HandleV>::empty(),
            r@.catalog == Seq::<ArtifactV>::empty(),
            r@.bus.capacity == event_capacity,
            r@.bus.subs == Seq::<Seq<EventV>>::empty(),
    {
        let r = UploadEngine {
            base_path,
            auto_sync,
            store: UploadStore::new(),
            registry: CancellationRegistry::new(),
            bus: EventBus::new(event_capacity),
            catalog: Vec::new(),
        };
        proof {
            assert(r@.catalog =~= Seq::<ArtifactV>::empty());
        }
        r
    }

    /// Creates an upload session: a fresh session record, a fresh
    /// `Pending` task and a fresh cancellation handle, all under a newly
    /// drawn id (re-using an id would overwrite, never error), then
    /// publishes `UploadStarted`.  Returns the session id.
    pub fn init(
        &mut self,
        filename: String,
        album: String,
        total_size: u64,
        total_chunks: u32,
        now: i64,
    ) -> (r: String)
        requires
            inv(old(self)@),
            total_size > 0,
            total_chunks >= 1,
        ensures
            inv(final(self)@),
            r@.len() == 36,
            final(self)@ == init_m(old(self)@, r@, filename@, album@, total_size, total_chunks, now),
    {
        let ghost pre = self@;
        let id = fresh_upload_id();
        let temp_path = self.base_path.clone().concat("/.temp/").concat(id.as_str());
        let task = UploadTask {
            id: id.clone(),
            filename: filename.clone(),
            album: album.clone(),
            total_bytes: total_size,
            received_bytes: 0,
            status: TaskStatus::Pending,
            created_at: now,
            updated_at: now,
            cancelled: false,
        };
        let fname_ev = filename.clone();
        let album_ev = album.clone();
        let ghost fnv = filename@;
        let ghost alv = album@;
        let rec = SessionRec {
            meta: UploadChunk {
                upload_id: id.clone(),
                filename,
                album,
                total_size,
                received_chunks: 0,
                total_chunks,
                received_bytes: 0,
                completed: false,
                created_at: now,
                temp_path,
            },
            parts: Vec::new(),
        };
        proof {
            assert(rec@.parts =~= Seq::<PartV>::empty());
            assert(rec@ == fresh_session(id@, fnv, alv, total_size, total_chunks, pre.base_path, now));
            assert(task@ == fresh_task(id@, fnv, alv, total_size, now));
        }
        self.store.put_task(task);
        self.store.create(rec);
        self.registry.register(id.clone());
        self.bus.publish(
            WsEvent::UploadStarted {
                upload_id: id.clone(),
                filename: fname_ev,
                album: album_ev,
                total_bytes: total_size,
                total_chunks,
            },
        );
        proof {
            let post = init_m(pre, id@, fnv, alv, total_size, total_chunks, now);
            assert(self@.sessions == post.sessions);
            assert(self@.tasks == post.tasks);
            assert(self@.handles == post.handles);
            assert(self@.bus == post.bus);
            assert(self@ == post);
            lemma_init_inv(pre, id@, fnv, alv, total_size, total_chunks, now);
        }
        id
    }

    /// Accepts one chunk: checks the cancellation checkpoint, stores the
    /// chunk artifact (overwriting a re-sent index), moves progress
    /// forward, brings the task to `Uploading`, and publishes the
    /// `ChunkReceived` and `UploadProgress` events.  Fails with
    /// `Cancelled` (after teardown) when cancellation was observed, with
    /// `NotFound` when no session carries `id`.
    pub fn submit_chunk(
        &mut self,
        id: &String,
        chunk_index: u32,
        bytes: Vec<u8>,
        now: i64,
    ) -> (r: Result<UploadStatus, UploadError>)
        requires
            inv(old(self)@),
            chunk_index < u32::MAX,
        ensures
            inv(final(self)@),
            final(self)@ == submit_m(old(self)@, id@, chunk_index, bytes@, now).0,
            match r {
                Ok(st) => (submit_m(old(self)@, id@, chunk_index, bytes@, now).1 matches
                    SubmitR::Accepted { received_chunks, total_chunks, complete }
                    && st.upload_id@ == id@ && st.received_chunks == received_chunks
                    && st.total_chunks == total_chunks && st.complete == complete),
                Err(e) => (e == UploadError::Cancelled && submit_m(
                    old(self)@,
                    id@,
                    chunk_index,
                    bytes@,
                    now,
                ).1 is Cancelled) || (e == UploadError::NotFound && submit_m(
                    old(self)@,
                    id@,
                    chunk_index,
                    bytes@,
                    now,
                ).1 is NotFound),
            },
    {
        let ghost pre = self@;
        let ghost bv = bytes@;
        if self.cancel_requested_e(id) {
            self.teardown_e(id, now);
            return Err(UploadError::Cancelled);
        }
        let si = match self.store.find_session(id) {
            None => {
                return Err(UploadError::NotFound);
            },
            Some(si) => si,
        };
        proof {
            assert(has_session(pre.sessions, id@));
            let k = session_idx(pre.sessions, id@);
            assert(pre.sessions[si as int].meta.upload_id == id@ && pre.sessions[k].meta.upload_id
                == id@);
            assert(k == si as int);
            assert(session_ok(pre.sessions[si as int]));
        }
        let sess = self.store.session_at(si);
        let filename = sess.meta.filename.clone();
        let total_chunks = sess.meta.total_chunks;
        let total_size = sess.meta.total_size;
        let old_received = sess.meta.received_chunks;
        let chunk_len = bytes.len();
        let new_received: u32 = if old_received >= chunk_index + 1 {
            old_received
        } else {
            chunk_index + 1
        };
        let completed = new_received >= total_chunks;
        self.store.put_part(si, ChunkPart { index: chunk_index, bytes });
        let parts_count = self.store.session_at(si).parts.len();
        let received_bytes: u64 = if completed {
            total_size
        } else {
            proof {
                let a = parts_count as int;
                let b = chunk_len as int;
                assert(a * b < 0x100000000000000000000000000000000) by (nonlinear_arith)
                    requires
                        0 <= a < 0x10000000000000000,
                        0 <= b < 0x10000000000000000,
                ;
            }
            let est: u128 = (parts_count as u128) * (chunk_len as u128);
            if est >= total_size as u128 {
                total_size
            } else {
                est as u64
            }
        };
        let ghost v = pre.sessions[si as int];
        let ghost v1 = submit_update_session(v, chunk_index, bv);
        proof {
            assert(parts_count == v1.parts.len());
            assert(received_bytes == v1.meta.received_bytes);
            assert(new_received == v1.meta.received_chunks);
            assert(completed == v1.meta.completed);
        }
        self.store.record_chunk(si, new_received, received_bytes, completed);
        proof {
            assert(self@.sessions =~= pre.sessions.update(si as int, v1));
        }
        match self.store.find_task(id) {
            Some(ti) => {
                proof {
                    assert(has_task(pre.tasks, id@));
                    let k = task_idx(pre.tasks, id@);
                    assert(pre.tasks[ti as int].id == id@ && pre.tasks[k].id == id@);
                    assert(k == ti as int);
                }
                let t = self.store.task_at(ti);
                let newt = UploadTask {
                    id: t.id.clone(),
                    filename: t.filename.clone(),
                    album: t.album.clone(),
                    total_bytes: t.total_bytes,
                    received_bytes,
                    status: if matches!(t.status, TaskStatus::Pending) {
                        TaskStatus::Uploading
                    } else {
                        t.status
                    },
                    created_at: t.created_at,
                    updated_at: now,
                    cancelled: t.cancelled,
                };
                proof {
                    assert(newt@ == uploading_task(pre.tasks[ti as int], received_bytes, now));
                }
                self.store.set_task_at(ti, newt);
            },
            None => {
            },
        }
        let percent = crate::progress_percent(received_bytes, total_size);
        self.bus.publish(
            WsEvent::ChunkReceived { upload_id: id.clone(), chunk_index, total_chunks },
        );
        self.bus.publish(
            WsEvent::UploadProgress {
                upload_id: id.clone(),
                filename,
                received_bytes,
                total_bytes: total_size,
                percent,
            },
        );
        proof {
            let stepped = submit_m(pre, id@, chunk_index, bv, now);
            assert(percent as int == v1.meta.received_bytes * 100 / (v.meta.total_size as int));
            assert(self@.sessions == stepped.0.sessions);
            assert(self@.tasks == stepped.0.tasks);
            assert(self@.handles == stepped.0.handles);
            assert(self@.catalog == stepped.0.catalog);
            assert(self@.bus == stepped.0.bus);
            assert(self@ == stepped.0);
            lemma_submit_accept_inv(pre, id@, chunk_index, bv, now);
        }
        Ok(
            UploadStatus {
                upload_id: id.clone(),
                received_chunks: new_received,
                total_chunks,
                complete: completed,
            },
        )
    }

    /// Merges the chunks of session `id` in strict index order and commits
    /// the artifact, taking the derivative-conversion collaborator's
    /// result as an argument (`None` when no derivative was produced).
    /// Fails with `Cancelled` (after teardown) when cancellation was
    /// observed at the start, with `NotFound` for an unknown session, and
    /// with `IOFailure` when a chunk artifact is missing — in that case
    /// the artifacts already consumed are gone and the session stays; a
    /// fresh init is required.
    pub fn finalize_with_derivative(
        &mut self,
        id: &String,
        derivative: Option<String>,
        now: i64,
    ) -> (r: Result<FinalizeReceipt, UploadError>)
        requires
            inv(old(self)@),
        ensures
            inv(final(self)@),
            final(self)@ == finalize_m(old(self)@, id@, opt_str_view(derivative), now).0,
            match r {
                Ok(rc) => (finalize_m(old(self)@, id@, opt_str_view(derivative), now).1 matches
                    FinalizeR::Done { filename, album, size }
                    && rc.filename@ == filename && rc.album@ == album && rc.size == size),
                Err(e) => (e == UploadError::Cancelled && finalize_m(
                    old(self)@,
                    id@,
                    opt_str_view(derivative),
                    now,
                ).1 is Cancelled) || (e == UploadError::NotFound && finalize_m(
                    old(self)@,
                    id@,
                    opt_str_view(derivative),
                    now,
                ).1 is NotFound) || (e == UploadError::IOFailure && finalize_m(
                    old(self)@,
                    id@,
                    opt_str_view(derivative),
                    now,
                ).1 is IOFailure),
            },
    {
        let ghost pre = self@;
        let ghost dv = opt_str_view(derivative);
        if self.cancel_requested_e(id) {
            self.teardown_e(id, now);
            return Err(UploadError::Cancelled);
        }
        let si = match self.store.find_session(id) {
            None => {
                return Err(UploadError::NotFound);
            },
            Some(si) => si,
        };
        proof {
            assert(has_session(pre.sessions, id@));
            let k = session_idx(pre.sessions, id@);
            assert(pre.sessions[si as int].meta.upload_id == id@ && pre.sessions[k].meta.upload_id
                == id@);
            assert(k == si as int);
            assert(session_ok(pre.sessions[si as int]));
        }
        let ghost v = pre.sessions[si as int];
        let filename = self.store.session_at(si).meta.filename.clone();
        self.bus.publish(
            WsEvent::ChunksMerging { upload_id: id.clone(), filename: filename.clone() },
        );
        let mut rec = self.store.remove_session_at(si);
        proof {
            assert(rec@ == v);
            assert(!has_session(self@.sessions, id@)) by {
                assert forall|j: int| 0 <= j < self@.sessions.len() implies (
                #[trigger] self@.sessions[j]).meta.upload_id != id@ by {
                    if j < si as int {
                        assert(self@.sessions[j] == pre.sessions[j]);
                    } else {
                        assert(self@.sessions[j] == pre.sessions[j + 1]);
                    }
                }
            }
        }
        let ghost partsv = rec@.parts;
        let ghost mid0 = self@;
        let total = rec.meta.total_chunks;
        let mut merged: Vec<u8> = Vec::new();
        let mut c: u32 = 0;
        let mut missing: Option<u32> = None;
        while c < total && missing.is_none()
            invariant
                partsv == rec@.parts,
                total == rec@.meta.total_chunks,
                rec@ == v,
                self@ == mid0,
                unique_part_indices(partsv),
                c <= total,
                match missing {
                    None => first_missing(partsv, total, 0) == first_missing(
                        partsv,
                        total,
                        c as int,
                    ) && merged@ == merged_bytes(partsv, c as int),
                    Some(m) => first_missing(partsv, total, 0) == Some(m),
                },
            decreases total - c + (if missing is Some {
                0int
            } else {
                1int
            }),
        {
            match find_part_in(&rec.parts, c) {
                Some(j) => {
                    proof {
                        assert(partsv[j as int] == rec.parts@[j as int]@);
                        assert(has_part(partsv, c));
                        let k = part_idx(partsv, c);
                        assert(partsv[j as int].index == c && partsv[k].index == c);
                        assert(k == j as int);
                        assert(part_bytes(partsv, c) == partsv[j as int].bytes);
                    }
                    let pk: &ChunkPart = &rec.parts[j];
                    merged.extend_from_slice(pk.bytes.as_slice());
                    proof {
                        assert(pk@ == partsv[j as int]);
                        assert(merged@ =~= merged_bytes(partsv, c + 1));
                        assert(first_missing(partsv, total, c as int) == first_missing(
                            partsv,
                            total,
                            c + 1,
                        ));
                    }
                    c += 1;
                },
                None => {
                    proof {
                        assert forall|k: int| 0 <= k < partsv.len() implies (
                        #[trigger] partsv[k]).index != c by {
                            assert(partsv[k] == rec.parts@[k]@);
                        }
                        assert(!has_part(partsv, c));
                        assert(first_missing(partsv, total, c as int) == Some(c));
                    }
                    missing = Some(c);
                },
            }
        }
        match missing {
            Some(m) => {
                proof {
                    assert(first_missing(partsv, total, 0) == Some(m));
                }
                let ghost orig = rec@.parts;
                let mut k: usize = 0;
                proof {
                    assert(rec@.parts.skip(0) =~= rec@.parts);
                    assert(rec@.parts.take(0) =~= Seq::<PartV>::empty());
                    assert(Seq::<PartV>::empty() + parts_from(rec@.parts, m) =~= parts_from(
                        rec@.parts,
                        m,
                    ));
                }
                while k < rec.parts.len()
                    invariant
                        orig == partsv,
                        rec@.meta == v.meta,
                        self@ == mid0,
                        k <= rec.parts@.len(),
                        parts_from(orig, m) == rec@.parts.take(k as int) + parts_from(
                            rec@.parts.skip(k as int),
                            m,
                        ),
                    decreases rec.parts@.len() - k,
                {
                    let ghost cur = rec@.parts;
                    proof {
                        assert(rec@.parts[k as int] == rec.parts@[k as int]@);
                        assert(cur.skip(k as int).len() > 0);
                        assert(cur.skip(k as int)[0] == cur[k as int]);
                    }
                    let pk_index = rec.parts[k].index;
                    proof {
                        assert(pk_index == cur[k as int].index);
                    }
                    if pk_index < m {
                        rec.parts.remove(k);
                        proof {
                            assert(rec@.parts =~= cur.remove(k as int));
                            assert(rec@.parts.take(k as int) =~= cur.take(k as int));
                            assert(rec@.parts.skip(k as int) =~= cur.skip(k as int).drop_first());
                            assert(parts_from(cur.skip(k as int), m) == parts_from(
                                cur.skip(k as int).drop_first(),
                                m,
                            ));
                        }
                    } else {
                        proof {
                            assert(parts_from(cur.skip(k as int), m) =~= seq![cur[k as int]]
                                + parts_from(cur.skip(k as int).drop_first(), m));
                            assert(cur.skip(k as int).drop_first() =~= cur.skip(k + 1));
                            assert(cur.take(k + 1) =~= cur.take(k as int).push(cur[k as int]));
                            assert(cur.take(k as int) + parts_from(cur.skip(k as int), m) =~= cur.take(
                                k + 1,
                            ) + parts_from(cur.skip(k + 1), m));
                        }
                        k += 1;
                    }
                }
                proof {
                    assert(rec@.parts.skip(k as int) =~= Seq::<PartV>::empty());
                    assert(rec@.parts.take(k as int) =~= rec@.parts);
                    assert(rec@.parts == parts_from(partsv, m));
                    lemma_parts_from_props(partsv, m);
                }
                let ghost mid = self@;
                self.store.insert_session_at(si, rec);
                self.bus.publish(
                    WsEvent::UploadError {
                        upload_id: id.clone(),
                        filename,
                        error: "missing chunk artifact".to_owned(),
                        stage: "merge".to_owned(),
                    },
                );
                proof {
                    let stepped = finalize_m(pre, id@, dv, now);
                    assert(self@.sessions =~= stepped.0.sessions) by {
                        assert(self@.sessions == mid.sessions.insert(
                            si as int,
                            SessionV { meta: v.meta, parts: parts_from(v.parts, m) },
                        ));
                        assert(mid.sessions == pre.sessions.remove(si as int));
                        assert(pre.sessions.remove(si as int).insert(
                            si as int,
                            SessionV { meta: v.meta, parts: parts_from(v.parts, m) },
                        ) =~= pre.sessions.update(
                            si as int,
                            SessionV { meta: v.meta, parts: parts_from(v.parts, m) },
                        ));
                    }
                    assert(self@.tasks == stepped.0.tasks);
                    assert(self@.handles == stepped.0.handles);
                    assert(self@.catalog == stepped.0.catalog);
                    assert(self@.bus == stepped.0.bus);
                    assert(self@ == stepped.0);
                    lemma_finalize_fail_inv(pre, id@, dv, now);
                }
                Err(UploadError::IOFailure)
            },
            None => {
                proof {
                    assert(c == total);
                    assert(first_missing(partsv, total, 0) is None);
                    assert(merged@ == merged_bytes(v.parts, v.meta.total_chunks as int));
                }
                let hash_bytes = crate::outside::sha256_bytes(&merged);
                let content_hash = crate::hex::hex_string(&hash_bytes);
                let storage_path = self.base_path.clone().concat("/").concat(
                    rec.meta.album.as_str(),
                ).concat("/").concat(rec.meta.filename.as_str());
                let size = merged.len() as u64;
                let has_der = derivative.is_some();
                let converted = match derivative {
                    Some(d) => d,
                    None => String::new(),
                };
                let artifact = FinalizedArtifact {
                    filename: rec.meta.filename.clone(),
                    album: rec.meta.album.clone(),
                    content_hash,
                    size,
                    storage_path: storage_path.clone(),
                    has_derivative: has_der,
                    bytes: merged,
                };
                let ghost av = artifact@;
                let ghost cpre = self@.catalog;
                self.catalog.push(artifact);
                proof {
                    assert(av == artifact_of(v, pre.base_path, dv));
                    assert(self@.catalog =~= cpre.push(av));
                }
                match self.store.find_task(id) {
                    Some(ti) => {
                        proof {
                            assert(has_task(pre.tasks, id@));
                            let kt = task_idx(pre.tasks, id@);
                            assert(pre.tasks[ti as int].id == id@ && pre.tasks[kt].id == id@);
                            assert(kt == ti as int);
                        }
                        let t = self.store.task_at(ti);
                        let newt = UploadTask {
                            id: t.id.clone(),
                            filename: t.filename.clone(),
                            album: t.album.clone(),
                            total_bytes: t.total_bytes,
                            received_bytes: t.received_bytes,
                            status: TaskStatus::Completed,
                            created_at: t.created_at,
                            updated_at: now,
                            cancelled: t.cancelled,
                        };
                        proof {
                            assert(newt@ == complete_task(pre.tasks[ti as int], now));
                        }
                        self.store.set_task_at(ti, newt);
                    },
                    None => {
                    },
                }
                self.registry.clear(id);
                self.bus.publish(
                    WsEvent::FileSaved {
                        upload_id: id.clone(),
                        filename: filename.clone(),
                        path: storage_path,
                        size: rec.meta.total_size,
                    },
                );
                self.bus.publish(
                    WsEvent::HeicConverting { upload_id: id.clone(), filename: filename.clone() },
                );
                self.bus.publish(
                    WsEvent::HeicConverted {
                        upload_id: id.clone(),
                        original: filename.clone(),
                        converted,
                        success: has_der,
                    },
                );
                self.bus.publish(
                    WsEvent::DatabaseSaving { upload_id: id.clone(), filename: filename.clone() },
                );
                if self.auto_sync {
                    self.bus.publish(
                        WsEvent::CloudSyncTriggered {
                            upload_id: id.clone(),
                            filename: filename.clone(),
                        },
                    );
                }
                self.bus.publish(
                    WsEvent::UploadComplete {
                        upload_id: id.clone(),
                        filename: filename.clone(),
                        album: rec.meta.album.clone(),
                        size: rec.meta.total_size,
                    },
                );
                let receipt = FinalizeReceipt {
                    filename: rec.meta.filename.clone(),
                    album: rec.meta.album.clone(),
                    size: rec.meta.total_size,
                };
                proof {
                    let stepped = finalize_m(pre, id@, dv, now);
                    assert(self@.sessions == stepped.0.sessions);
                    assert(self@.tasks == stepped.0.tasks);
                    assert(self@.handles == stepped.0.handles);
                    assert(self@.catalog == stepped.0.catalog);
                    assert(self@.bus == stepped.0.bus) by {
                        assert(self@.bus == finalize_bus(
                            pre.bus,
                            id@,
                            v.meta,
                            pre.base_path,
                            dv,
                            pre.auto_sync,
                        ));
                    }
                    assert(self@ == stepped.0);
                    lemma_finalize_done_inv(pre, id@, dv, now);
                }
                Ok(receipt)
            },
        }
    }

    /// [`Self::finalize_with_derivative`] with no derivative produced —
    /// the common case, and the baseline converter's constant answer.
    pub fn finalize(&mut self, id: &String, now: i64) -> (r: Result<FinalizeReceipt, UploadError>)
        requires
            inv(old(self)@),
        ensures
            inv(final(self)@),
            final(self)@ == finalize_m(old(self)@, id@, None, now).0,
            match r {
                Ok(rc) => (finalize_m(old(self)@, id@, None, now).1 matches FinalizeR::Done {
                    filename,
                    album,
                    size,
                } && rc.filename@ == filename && rc.album@ == album && rc.size == size),
                Err(e) => (e == UploadError::Cancelled && finalize_m(
                    old(self)@,
                    id@,
                    None,
                    now,
                ).1 is Cancelled) || (e == UploadError::NotFound && finalize_m(
                    old(self)@,
                    id@,
                    None,
                    now,
                ).1 is NotFound) || (e == UploadError::IOFailure && finalize_m(
                    old(self)@,
                    id@,
                    None,
                    now,
                ).1 is IOFailure),
            },
    {
        self.finalize_with_derivative(id, None, now)
    }

    /// Exec mirror of [`cancel_requested`].
    fn cancel_requested_e(&self, id: &String) -> (r: bool)
        requires
            inv(self@),
        ensures
            r == cancel_requested(self@, id@),
    {
        if self.registry.is_cancelled(id) {
            return true;
        }
        match self.store.find_task(id) {
            Some(ti) => {
                proof {
                    assert(has_task(self@.tasks, id@));
                    let k = task_idx(self@.tasks, id@);
                    assert(self@.tasks[ti as int].id == id@ && self@.tasks[k].id == id@);
                    assert(k == ti as int);
                }
                let t = self.store.task_at(ti);
                t.cancelled || matches!(t.status, TaskStatus::Cancelled)
            },
            None => false,
        }
    }

    /// Exec mirror of [`core_teardown`].
    fn teardown_core_e(&mut self, id: &String, now: i64)
        requires
            inv(old(self)@),
        ensures
            inv(final(self)@),
            final(self)@ == core_teardown(old(self)@, id@, now),
    {
        let ghost pre = self@;
        match self.store.find_task(id) {
            Some(ti) => {
                proof {
                    assert(has_task(pre.tasks, id@));
                    let k = task_idx(pre.tasks, id@);
                    assert(pre.tasks[ti as int].id == id@ && pre.tasks[k].id == id@);
                    assert(k == ti as int);
                }
                let t = self.store.task_at(ti);
                let newt = UploadTask {
                    id: t.id.clone(),
                    filename: t.filename.clone(),
                    album: t.album.clone(),
                    total_bytes: t.total_bytes,
                    received_bytes: t.received_bytes,
                    status: TaskStatus::Cancelled,
                    created_at: t.created_at,
                    updated_at: now,
                    cancelled: true,
                };
                proof {
                    assert(newt@ == cancel_task_v(pre.tasks[ti as int], now));
                }
                self.store.set_task_at(ti, newt);
            },
            None => {
            },
        }
        match self.store.find_session(id) {
            Some(si) => {
                proof {
                    assert(has_session(pre.sessions, id@));
                    let k = session_idx(pre.sessions, id@);
                    assert(pre.sessions[si as int].meta.upload_id == id@
                        && pre.sessions[k].meta.upload_id == id@);
                    assert(k == si as int);
                }
                let _removed = self.store.remove_session_at(si);
            },
            None => {
            },
        }
        self.registry.clear(id);
        proof {
            let post = core_teardown(pre, id@, now);
            assert(self@.sessions == post.sessions);
            assert(self@.tasks == post.tasks);
            assert(self@.handles == post.handles);
            assert(self@ == post);
            lemma_core_teardown_inv(pre, id@, now);
        }
    }

    /// Exec mirror of [`teardown`] (checkpoint teardown with event).
    fn teardown_e(&mut self, id: &String, now: i64)
        requires
            inv(old(self)@),
        ensures
            inv(final(self)@),
            final(self)@ == teardown(old(self)@, id@, now),
    {
        self.teardown_core_e(id, now);
        self.bus.publish(
            WsEvent::UploadError {
                upload_id: id.clone(),
                filename: "unknown".to_owned(),
                error: "Upload cancelled by user".to_owned(),
                stage: "cancelled".to_owned(),
            },
        );
        proof {
            lemma_bus_publish_caps(
                core_teardown(old(self)@, id@, now).bus,
                cancelled_event(id@),
            );
        }
    }

    /// Cancels upload `id`: its handle is signalled and released, its task
    /// becomes `Cancelled`, its session and chunk artifacts are removed.
    /// Unknown ids (no active handle) give `NotFound`.
    pub fn cancel(&mut self, id: &String, now: i64) -> (r: Result<(), UploadError>)
        requires
            inv(old(self)@),
        ensures
            inv(final(self)@),
            match r {
                Ok(()) => has_handle(old(self)@.handles, id@) && final(self)@ == core_teardown(
                    old(self)@,
                    id@,
                    now,
                ),
                Err(e) => e == UploadError::NotFound && !has_handle(old(self)@.handles, id@)
                    && final(self)@ == old(self)@,
            },
    {
        if self.registry.is_registered(id) {
            self.teardown_core_e(id, now);
            Ok(())
        } else {
            Err(UploadError::NotFound)
        }
    }

    /// Cancels every active upload, oldest registration first, and
    /// returns how many were cancelled.  Ids with no active handle are
    /// silently skipped (they have nothing to cancel).
    pub fn cancel_all(&mut self, now: i64) -> (r: u64)
        requires
            inv(old(self)@),
        ensures
            inv(final(self)@),
            r == old(self)@.handles.len(),
            final(self)@ == cancel_all_m(old(self)@, now),
    {
        let ghost pre = self@;
        let mut count: u64 = 0;
        let h0 = self.registry.len();
        let mut remaining = h0;
        while remaining > 0
            invariant
                inv(self@),
                remaining == self@.handles.len(),
                cancel_all_m(pre, now) == cancel_all_m(self@, now),
                count + remaining == h0,
                h0 == pre.handles.len(),
            decreases remaining,
        {
            let ghost cur = self@;
            let id = match self.registry.first_id() {
                Some(id) => id,
                None => {
                    proof {
                        assert(false);
                    }
                    return count;
                },
            };
            proof {
                assert(id@ == cur.handles[0].id);
            }
            self.teardown_core_e(&id, now);
            proof {
                assert(self@ == core_teardown(cur, cur.handles[0].id, now));
                assert(cancel_all_m(cur, now) == cancel_all_m(self@, now));
                assert(has_handle(cur.handles, cur.handles[0].id));
                let k = handle_idx(cur.handles, cur.handles[0].id);
                assert(cur.handles[k].id == cur.handles[0].id && cur.handles[0].id
                    == cur.handles[0].id);
                assert(k == 0);
                assert(self@.handles.len() == cur.handles.len() - 1);
            }
            count = count + 1;
            remaining = self.registry.len();
        }
        proof {
            assert(self@.handles.len() == 0);
            assert(cancel_all_m(self@, now) == self@);
        }
        count
    }

    /// Deletes every session whose task never reached a terminal status
    /// and whose age at `now` is at least `max_age_hours` hours, together
    /// with its task, handle and chunk artifacts; returns how many were
    /// removed.  This is the only timeout mechanism: an abandoned upload
    /// is reclaimed here and nowhere else.
    pub fn sweep_stale(&mut self, max_age_hours: u64, now: i64) -> (r: u64)
        requires
            inv(old(self)@),
        ensures
            inv(final(self)@),
            final(self)@ == sweep_m(old(self)@, max_age_hours * 3600, now, 0).0,
            r == sweep_m(old(self)@, max_age_hours * 3600, now, 0).1,
    {
        let ghost pre = self@;
        let ghost thresh = (max_age_hours * 3600) as int;
        let mut count: u64 = 0;
        let mut i: usize = 0;
        let n0 = self.store.session_count();
        let mut n = n0;
        while i < n
            invariant
                inv(self@),
                thresh == (max_age_hours * 3600) as int,
                n == self@.sessions.len(),
                i <= n,
                count + n == n0,
                sweep_m(pre, thresh, now, 0).0 == sweep_m(self@, thresh, now, i as int).0,
                sweep_m(pre, thresh, now, 0).1 == count + sweep_m(self@, thresh, now, i as int).1,
            decreases n - i,
        {
            let ghost cur = self@;
            let sess = self.store.session_at(i);
            let sid = sess.meta.upload_id.clone();
            let created = sess.meta.created_at;
            let terminal = match self.store.find_task(&sid) {
                Some(ti) => {
                    proof {
                        assert(has_task(cur.tasks, sid@));
                        let k = task_idx(cur.tasks, sid@);
                        assert(cur.tasks[ti as int].id == sid@ && cur.tasks[k].id == sid@);
                        assert(k == ti as int);
                    }
                    matches!(
                        self.store.task_at(ti).status,
                        TaskStatus::Completed | TaskStatus::Cancelled | TaskStatus::Error
                    )
                },
                None => false,
            };
            let age: i128 = if now >= created {
                (now as i128) - (created as i128)
            } else {
                0
            };
            let thr: i128 = (max_age_hours as i128) * 3600;
            let stale = age >= thr;
            proof {
                assert(age == age_of(created, now));
                assert(thr == thresh);
                assert((stale && !terminal) == stale_nonterminal(cur, i as int, thresh, now));
            }
            if stale && !terminal {
                let _removed = self.store.remove_session_at(i);
                match self.store.find_task(&sid) {
                    Some(ti) => {
                        proof {
                            assert(has_task(cur.tasks, sid@));
                            let k = task_idx(cur.tasks, sid@);
                            assert(cur.tasks[ti as int].id == sid@ && cur.tasks[k].id == sid@);
                            assert(k == ti as int);
                        }
                        let _t = self.store.remove_task_at(ti);
                    },
                    None => {
                    },
                }
                self.registry.clear(&sid);
                proof {
                    assert(self@ == sweep_remove(cur, i as int));
                    lemma_sweep_remove_inv(cur, i as int);
                    assert(sweep_m(cur, thresh, now, i as int).0 == sweep_m(
                        self@,
                        thresh,
                        now,
                        i as int,
                    ).0);
                    assert(sweep_m(cur, thresh, now, i as int).1 == sweep_m(
                        self@,
                        thresh,
                        now,
                        i as int,
                    ).1 + 1);
                }
                count = count + 1;
                n = n - 1;
            } else {
                proof {
                    assert(sweep_m(cur, thresh, now, i as int) == sweep_m(
                        cur,
                        thresh,
                        now,
                        i as int + 1,
                    ));
                }
                i = i + 1;
            }
        }
        proof {
            assert(sweep_m(self@, thresh, now, i as int) == (self@, 0int));
        }
        count
    }

    /// Removes the task records (and live sessions, handles and chunk
    /// artifacts) of every upload that never reached a terminal status;
    /// returns how many were removed.  Terminal tasks are retained.
    pub fn cleanup_incomplete(&mut self, now: i64) -> (r: u64)
        requires
            inv(old(self)@),
        ensures
            inv(final(self)@),
            final(self)@ == sweep_m(old(self)@, 0, now, 0).0,
            r == sweep_m(old(self)@, 0, now, 0).1,
    {
        self.sweep_stale(0, now)
    }

    /// The tasks still pending or uploading, in store order.
    pub fn list_active(&self) -> (r: Vec<UploadTask>)
        requires
            inv(self@),
        ensures
            r@.len() == active_tasks(self@.tasks).len(),
            forall|j: int| 0 <= j < r@.len() ==> (#[trigger] r@[j])@ == active_tasks(
                self@.tasks,
            )[j],
    {
        let mut out: Vec<UploadTask> = Vec::new();
        let n = self.store.task_count();
        for i in 0..n
            invariant
                n == self@.tasks.len(),
                out@.len() == active_tasks(self@.tasks.take(i as int)).len(),
                forall|j: int| 0 <= j < out@.len() ==> (#[trigger] out@[j])@ == active_tasks(
                    self@.tasks.take(i as int),
                )[j],
        {
            let t = self.store.task_at(i);
            proof {
                assert(self@.tasks.take(i + 1).drop_last() =~= self@.tasks.take(i as int));
                assert(self@.tasks.take(i + 1).last() == self@.tasks[i as int]);
            }
            if matches!(t.status, TaskStatus::Pending | TaskStatus::Uploading) {
                let copy = duplicate_task(t);
                out.push(copy);
            }
        }
        proof {
            assert(self@.tasks.take(n as int) =~= self@.tasks);
        }
        out
    }

    /// Whether a session record for `id` exists.
    pub fn session_exists(&self, id: &String) -> (r: bool)
        ensures
            r == has_session(self@.sessions, id@),
    {
        match self.store.find_session(id) {
            Some(i) => {
                proof {
                    assert(has_session(self@.sessions, id@));
                }
                true
            },
            None => false,
        }
    }

    /// Number of uploads with a live cancellation handle.
    pub fn active_uploads(&self) -> (r: usize)
        ensures
            r == self@.handles.len(),
    {
        self.registry.len()
    }

    /// Number of artifacts committed to the catalog.
    pub fn artifact_count(&self) -> (r: usize)
        ensures
            r == self@.catalog.len(),
    {
        self.catalog.len()
    }

    /// Borrow of the catalog record at position `i`.
    pub fn artifact_at(&self, i: usize) -> (r: &FinalizedArtifact)
        requires
            i < self@.catalog.len(),
        ensures
            r@ == self@.catalog[i as int],
    {
        &self.catalog[i]
    }

    /// Progress snapshot of session `id`, if the session exists.
    pub fn status(&self, id: &String) -> (r: Option<UploadStatus>)
        requires
            inv(self@),
        ensures
            match r {
                Some(st) => has_session(self@.sessions, id@) && {
                    let sess = self@.sessions[session_idx(self@.sessions, id@)].meta;
                    &&& st.upload_id@ == id@
                    &&& st.received_chunks == sess.received_chunks
                    &&& st.total_chunks == sess.total_chunks
                    &&& st.complete == sess.completed
                },
                None => !has_session(self@.sessions, id@),
            },
    {
        match self.store.find_session(id) {
            Some(si) => {
                proof {
                    assert(has_session(self@.sessions, id@));
                    let k = session_idx(self@.sessions, id@);
                    assert(self@.sessions[si as int].meta.upload_id == id@
                        && self@.sessions[k].meta.upload_id == id@);
                    assert(k == si as int);
                }
                let sess = self.store.session_at(si);
                Some(
                    UploadStatus {
                        upload_id: id.clone(),
                        received_chunks: sess.meta.received_chunks,
                        total_chunks: sess.meta.total_chunks,
                        complete: sess.meta.completed,
                    },
                )
            },
            None => None,
        }
    }

    /// Status of the task for `id`, if the task exists.
    pub fn task_status(&self, id: &String) -> (r: Option<TaskStatus>)
        requires
            inv(self@),
        ensures
            match r {
                Some(st) => has_task(self@.tasks, id@) && st == self@.tasks[task_idx(
                    self@.tasks,
                    id@,
                )].status,
                None => !has_task(self@.tasks, id@),
            },
    {
        match self.store.find_task(id) {
            Some(ti) => {
                proof {
                    assert(has_task(self@.tasks, id@));
                    let k = task_idx(self@.tasks, id@);
                    assert(self@.tasks[ti as int].id == id@ && self@.tasks[k].id == id@);
                    assert(k == ti as int);
                }
                Some(self.store.task_at(ti).status)
            },
            None => None,
        }
    }

    /// Subscribes to lifecycle events; the key indexes [`Self::next_event`].
    pub fn subscribe_events(&mut self) -> (r: usize)
        requires
            inv(old(self)@),
        ensures
            inv(final(self)@),
            r == old(self)@.bus.subs.len(),
            final(self)@ == (EngineV {
                bus: BusV {
                    capacity: old(self)@.bus.capacity,
                    subs: old(self)@.bus.subs.push(Seq::<EventV>::empty()),
                },
                ..old(self)@
            }),
    {
        self.bus.subscribe()
    }

    /// Oldest undelivered event for subscriber `sub`, if any.
    pub fn next_event(&mut self, sub: usize) -> (r: Option<WsEvent>)
        requires
            inv(old(self)@),
        ensures
            inv(final(self)@),
            match r {
                None => final(self)@ == old(self)@ && (sub >= old(self)@.bus.subs.len() || old(
                    self,
                )@.bus.subs[sub as int].len() == 0),
                Some(ev) => sub < old(self)@.bus.subs.len() && old(self)@.bus.subs[sub as int].len()
                    > 0 && ev@ == old(self)@.bus.subs[sub as int][0] && final(self)@ == (EngineV {
                    bus: BusV {
                        capacity: old(self)@.bus.capacity,
                        subs: old(self)@.bus.subs.update(
                            sub as int,
                            old(self)@.bus.subs[sub as int].drop_first(),
                        ),
                    },
                    ..old(self)@
                }),
            },
    {
        self.bus.poll(sub)
    }
}

/// [`core_teardown`] preserves the engine invariant.
pub proof fn lemma_core_teardown_inv(s: EngineV, id: Seq<char>, now: i64)
    requires
        inv(s),
    ensures
        inv(core_teardown(s, id, now)),
{
    let post = core_teardown(s, id, now);
    assert forall|i: int| 0 <= i < post.sessions.len() implies session_ok(
        #[trigger] post.sessions[i],
    ) by {
        if has_session(s.sessions, id) {
            let k = session_idx(s.sessions, id);
            if i < k {
                assert(post.sessions[i] == s.sessions[i]);
            } else {
                assert(post.sessions[i] == s.sessions[i + 1]);
            }
        } else {
            assert(post.sessions[i] == s.sessions[i]);
        }
    }
    assert(unique_session_ids(post.sessions)) by {
        if has_session(s.sessions, id) {
            let k = session_idx(s.sessions, id);
            assert forall|i: int, j: int| 0 <= i < j < post.sessions.len() implies post.sessions[i].meta.upload_id
                != post.sessions[j].meta.upload_id by {
                let i0 = if i < k { i } else { i + 1 };
                let j0 = if j < k { j } else { j + 1 };
                assert(post.sessions[i] == s.sessions[i0]);
                assert(post.sessions[j] == s.sessions[j0]);
            }
        }
    }
    assert(unique_task_ids(post.tasks)) by {
        if has_task(s.tasks, id) {
            let k = task_idx(s.tasks, id);
            assert(post.tasks[k].id == s.tasks[k].id);
            assert(forall|i: int| 0 <= i < post.tasks.len() ==> (#[trigger] post.tasks[i]).id
                == s.tasks[i].id);
        }
    }
    assert(unique_handle_ids(post.handles)) by {
        if has_handle(s.handles, id) {
            let k = handle_idx(s.handles, id);
            assert forall|i: int, j: int| 0 <= i < j < post.handles.len() implies post.handles[i].id
                != post.handles[j].id by {
                let i0 = if i < k { i } else { i + 1 };
                let j0 = if j < k { j } else { j + 1 };
                assert(post.handles[i] == s.handles[i0]);
                assert(post.handles[j] == s.handles[j0]);
            }
        }
    }
    assert forall|i: int| 0 <= i < post.sessions.len() implies has_task(
        post.tasks,
        (#[trigger] post.sessions[i]).meta.upload_id,
    ) by {
        let sid = post.sessions[i].meta.upload_id;
        lemma_session_entry(s.sessions, id, i);
        assert(has_task(s.tasks, sid));
        lemma_task_survives(s.tasks, id, now, sid);
    }
    assert forall|i: int| 0 <= i < post.handles.len() implies has_task(
        post.tasks,
        (#[trigger] post.handles[i]).id,
    ) by {
        let hid = post.handles[i].id;
        lemma_handle_entry(s.handles, id, i);
        assert(has_task(s.tasks, hid));
        lemma_task_survives(s.tasks, id, now, hid);
    }
    assert forall|i: int| 0 <= i < post.tasks.len() && !is_terminal(
        (#[trigger] post.tasks[i]).status,
    ) implies has_session(post.sessions, post.tasks[i].id) by {
        if has_task(s.tasks, id) && i == task_idx(s.tasks, id) {
            assert(post.tasks[i].status == TaskStatus::Cancelled);
        } else {
            assert(post.tasks[i] == s.tasks[i]);
            let tid = post.tasks[i].id;
            assert(has_session(s.sessions, tid));
            if has_session(s.sessions, id) {
                let k = session_idx(s.sessions, id);
                if has_task(s.tasks, id) {
                    assert(s.tasks[task_idx(s.tasks, id)].id == id);
                    assert(tid != id);
                } else {
                    assert(has_task(s.tasks, s.sessions[k].meta.upload_id));
                    assert(tid != id);
                }
                let m = session_idx(s.sessions, tid);
                assert(s.sessions[m].meta.upload_id == tid);
                assert(m != k);
                let m2 = if m < k { m } else { m - 1 };
                assert(post.sessions[m2] == s.sessions[m]);
                assert(has_session(post.sessions, tid));
            }
        }
    }
}

/// Each entry of a sequence with one element removed comes from the
/// original sequence.
proof fn lemma_session_entry(ss: Seq<SessionV>, id: Seq<char>, i: int)
    requires
        0 <= i < (if has_session(ss, id) {
            ss.remove(session_idx(ss, id))
        } else {
            ss
        }).len(),
    ensures
        exists|i0: int| 0 <= i0 < ss.len() && ss[i0] == (if has_session(ss, id) {
            ss.remove(session_idx(ss, id))
        } else {
            ss
        })[i],
{
    let post = if has_session(ss, id) {
        ss.remove(session_idx(ss, id))
    } else {
        ss
    };
    if has_session(ss, id) {
        let k = session_idx(ss, id);
        if i < k {
            assert(post[i] == ss[i]);
        } else {
            assert(post[i] == ss[i + 1]);
        }
    } else {
        assert(post[i] == ss[i]);
    }
}

/// Same for handles.
proof fn lemma_handle_entry(hs: Seq<HandleV>, id: Seq<char>, i: int)
    requires
        0 <= i < (if has_handle(hs, id) {
            hs.remove(handle_idx(hs, id))
        } else {
            hs
        }).len(),
    ensures
        exists|i0: int| 0 <= i0 < hs.len() && hs[i0] == (if has_handle(hs, id) {
            hs.remove(handle_idx(hs, id))
        } else {
            hs
        })[i],
{
    let post = if has_handle(hs, id) {
        hs.remove(handle_idx(hs, id))
    } else {
        hs
    };
    if has_handle(hs, id) {
        let k = handle_idx(hs, id);
        if i < k {
            assert(post[i] == hs[i]);
        } else {
            assert(post[i] == hs[i + 1]);
        }
    } else {
        assert(post[i] == hs[i]);
    }
}

/// Updating the task for `id` to its cancelled form keeps every id that
/// had a task.
proof fn lemma_task_survives(ts: Seq<TaskV>, id: Seq<char>, now: i64, tid: Seq<char>)
    requires
        has_task(ts, tid),
    ensures
        has_task(
            if has_task(ts, id) {
                ts.update(task_idx(ts, id), cancel_task_v(ts[task_idx(ts, id)], now))
            } else {
                ts
            },
            tid,
        ),
{
    let post = if has_task(ts, id) {
        ts.update(task_idx(ts, id), cancel_task_v(ts[task_idx(ts, id)], now))
    } else {
        ts
    };
    let m = task_idx(ts, tid);
    assert(ts[m].id == tid);
    assert(post[m].id == tid);
    assert(0 <= m < post.len() && post[m].id == tid);
}

/// Upserting a session keeps ids unique, and afterwards an id has a
/// session exactly when it had one or is the upserted id.
proof fn lemma_upsert_session_props(ss: Seq<SessionV>, v: SessionV)
    requires
        unique_session_ids(ss),
    ensures
        unique_session_ids(upsert_session_v(ss, v)),
        forall|id2: Seq<char>| #[trigger] has_session(upsert_session_v(ss, v), id2) <==> (
        has_session(ss, id2) || id2 == v.meta.upload_id),
{
    let post = upsert_session_v(ss, v);
    if has_session(ss, v.meta.upload_id) {
        let k = session_idx(ss, v.meta.upload_id);
        assert(forall|j: int| 0 <= j < post.len() ==> (#[trigger] post[j]).meta.upload_id
            == ss[j].meta.upload_id);
        assert forall|id2: Seq<char>| #[trigger] has_session(post, id2) <==> (has_session(ss, id2)
            || id2 == v.meta.upload_id) by {
            if has_session(post, id2) {
                let i = choose|i: int| 0 <= i < post.len() && post[i].meta.upload_id == id2;
                assert(ss[i].meta.upload_id == id2);
            }
            if has_session(ss, id2) {
                let i = choose|i: int| 0 <= i < ss.len() && ss[i].meta.upload_id == id2;
                assert(post[i].meta.upload_id == id2);
            }
            if id2 == v.meta.upload_id {
                assert(post[k].meta.upload_id == id2);
            }
        }
    } else {
        assert forall|id2: Seq<char>| #[trigger] has_session(post, id2) <==> (has_session(ss, id2)
            || id2 == v.meta.upload_id) by {
            if has_session(post, id2) {
                let i = choose|i: int| 0 <= i < post.len() && post[i].meta.upload_id == id2;
                if i < ss.len() {
                    assert(ss[i].meta.upload_id == id2);
                } else {
                    assert(post[i] == v);
                }
            }
            if has_session(ss, id2) {
                let i = choose|i: int| 0 <= i < ss.len() && ss[i].meta.upload_id == id2;
                assert(post[i].meta.upload_id == id2);
            }
            if id2 == v.meta.upload_id {
                assert(post[ss.len() as int].meta.upload_id == id2);
            }
        }
        assert forall|i: int, j: int| 0 <= i < j < post.len() implies post[i].meta.upload_id
            != post[j].meta.upload_id by {
            if j < ss.len() {
            } else {
                assert(post[j] == v);
                assert(post[i].meta.upload_id == ss[i].meta.upload_id);
                assert(!has_session(ss, v.meta.upload_id));
            }
        }
    }
}

/// Same for tasks.
proof fn lemma_upsert_task_props(ts: Seq<TaskV>, t: TaskV)
    requires
        unique_task_ids(ts),
    ensures
        unique_task_ids(upsert_task_v(ts, t)),
        forall|id2: Seq<char>| #[trigger] has_task(upsert_task_v(ts, t), id2) <==> (has_task(
            ts,
            id2,
        ) || id2 == t.id),
{
    let post = upsert_task_v(ts, t);
    if has_task(ts, t.id) {
        let k = task_idx(ts, t.id);
        assert(forall|j: int| 0 <= j < post.len() ==> (#[trigger] post[j]).id == ts[j].id);
        assert forall|id2: Seq<char>| #[trigger] has_task(post, id2) <==> (has_task(ts, id2) || id2
            == t.id) by {
            if has_task(post, id2) {
                let i = choose|i: int| 0 <= i < post.len() && post[i].id == id2;
                assert(ts[i].id == id2);
            }
            if has_task(ts, id2) {
                let i = choose|i: int| 0 <= i < ts.len() && ts[i].id == id2;
                assert(post[i].id == id2);
            }
            if id2 == t.id {
                assert(post[k].id == id2);
            }
        }
    } else {
        assert forall|id2: Seq<char>| #[trigger] has_task(post, id2) <==> (has_task(ts, id2) || id2
            == t.id) by {
            if has_task(post, id2) {
                let i = choose|i: int| 0 <= i < post.len() && post[i].id == id2;
                if i < ts.len() {
                    assert(ts[i].id == id2);
                } else {
                    assert(post[i] == t);
                }
            }
            if has_task(ts, id2) {
                let i = choose|i: int| 0 <= i < ts.len() && ts[i].id == id2;
                assert(post[i].id == id2);
            }
            if id2 == t.id {
                assert(post[ts.len() as int].id == id2);
            }
        }
        assert forall|i: int, j: int| 0 <= i < j < post.len() implies post[i].id != post[j].id by {
            if j < ts.len() {
            } else {
                assert(post[j] == t);
                assert(post[i].id == ts[i].id);
                assert(!has_task(ts, t.id));
            }
        }
    }
}

/// Same for handles.
proof fn lemma_upsert_handle_props(hs: Seq<HandleV>, id: Seq<char>)
    requires
        unique_handle_ids(hs),
    ensures
        unique_handle_ids(upsert_handle_v(hs, id)),
        forall|id2: Seq<char>| #[trigger] has_handle(upsert_handle_v(hs, id), id2) <==> (
        has_handle(hs, id2) || id2 == id),
{
    let post = upsert_handle_v(hs, id);
    if has_handle(hs, id) {
        let k = handle_idx(hs, id);
        assert(forall|j: int| 0 <= j < post.len() ==> (#[trigger] post[j]).id == hs[j].id);
        assert forall|id2: Seq<char>| #[trigger] has_handle(post, id2) <==> (has_handle(hs, id2)
            || id2 == id) by {
            if has_handle(post, id2) {
                let i = choose|i: int| 0 <= i < post.len() && post[i].id == id2;
                assert(hs[i].id == id2);
            }
            if has_handle(hs, id2) {
                let i = choose|i: int| 0 <= i < hs.len() && hs[i].id == id2;
                assert(post[i].id == id2);
            }
            if id2 == id {
                assert(post[k].id == id2);
            }
        }
    } else {
        assert forall|id2: Seq<char>| #[trigger] has_handle(post, id2) <==> (has_handle(hs, id2)
            || id2 == id) by {
            if has_handle(post, id2) {
                let i = choose|i: int| 0 <= i < post.len() && post[i].id == id2;
                if i < hs.len() {
                    assert(hs[i].id == id2);
                } else {
                    assert(post[i].id == id);
                }
            }
            if has_handle(hs, id2) {
                let i = choose|i: int| 0 <= i < hs.len() && hs[i].id == id2;
                assert(post[i].id == id2);
            }
            if id2 == id {
                assert(post[hs.len() as int].id == id2);
            }
        }
        assert forall|i: int, j: int| 0 <= i < j < post.len() implies post[i].id != post[j].id by {
            if j < hs.len() {
            } else {
                assert(post[j].id == id);
                assert(post[i].id == hs[i].id);
                assert(!has_handle(hs, id));
            }
        }
    }
}

/// `init` preserves the engine invariant.
pub proof fn lemma_init_inv(
    s: EngineV,
    id: Seq<char>,
    filename: Seq<char>,
    album: Seq<char>,
    total_size: u64,
    total_chunks: u32,
    now: i64,
)
    requires
        inv(s),
        total_size > 0,
        total_chunks >= 1,
    ensures
        inv(init_m(s, id, filename, album, total_size, total_chunks, now)),
{
    let post = init_m(s, id, filename, album, total_size, total_chunks, now);
    let v = fresh_session(id, filename, album, total_size, total_chunks, s.base_path, now);
    let t = fresh_task(id, filename, album, total_size, now);
    lemma_upsert_session_props(s.sessions, v);
    lemma_upsert_task_props(s.tasks, t);
    lemma_upsert_handle_props(s.handles, id);
    lemma_bus_publish_caps(s.bus, started_event(id, filename, album, total_size, total_chunks));
    assert forall|i: int| 0 <= i < post.sessions.len() implies session_ok(
        #[trigger] post.sessions[i],
    ) by {
        if has_session(s.sessions, id) {
            let k = session_idx(s.sessions, id);
            if i == k {
                assert(post.sessions[i] == v);
            } else {
                assert(post.sessions[i] == s.sessions[i]);
            }
        } else {
            if i < s.sessions.len() {
                assert(post.sessions[i] == s.sessions[i]);
            } else {
                assert(post.sessions[i] == v);
            }
        }
    }
    assert forall|i: int| 0 <= i < post.sessions.len() implies has_task(
        post.tasks,
        (#[trigger] post.sessions[i]).meta.upload_id,
    ) by {
        let sid = post.sessions[i].meta.upload_id;
        if has_session(s.sessions, id) {
            let k = session_idx(s.sessions, id);
            if i == k {
                assert(sid == id);
            } else {
                assert(post.sessions[i] == s.sessions[i]);
                assert(has_task(s.tasks, sid));
            }
        } else {
            if i < s.sessions.len() {
                assert(post.sessions[i] == s.sessions[i]);
                assert(has_task(s.tasks, sid));
            } else {
                assert(sid == id);
            }
        }
    }
    assert forall|i: int| 0 <= i < post.handles.len() implies has_task(
        post.tasks,
        (#[trigger] post.handles[i]).id,
    ) by {
        let hid = post.handles[i].id;
        if has_handle(s.handles, id) {
            let k = handle_idx(s.handles, id);
            if i == k {
                assert(hid == id);
            } else {
                assert(post.handles[i] == s.handles[i]);
                assert(has_task(s.tasks, hid));
            }
        } else {
            if i < s.handles.len() {
                assert(post.handles[i] == s.handles[i]);
                assert(has_task(s.tasks, hid));
            } else {
                assert(hid == id);
            }
        }
    }
    assert forall|i: int| 0 <= i < post.tasks.len() && !is_terminal(
        (#[trigger] post.tasks[i]).status,
    ) implies has_session(post.sessions, post.tasks[i].id) by {
        let tid = post.tasks[i].id;
        if has_task(s.tasks, id) {
            let k = task_idx(s.tasks, id);
            if i == k {
                assert(tid == id);
            } else {
                assert(post.tasks[i] == s.tasks[i]);
                assert(has_session(s.sessions, tid));
            }
        } else {
            if i < s.tasks.len() {
                assert(post.tasks[i] == s.tasks[i]);
                assert(has_session(s.sessions, tid));
            } else {
                assert(tid == id);
            }
        }
    }
}

/// An accepted chunk preserves the engine invariant.
pub proof fn lemma_submit_accept_inv(s: EngineV, id: Seq<char>, idx: u32, bytes: Seq<u8>, now: i64)
    requires
        inv(s),
        !cancel_requested(s, id),
        has_session(s.sessions, id),
    ensures
        inv(submit_m(s, id, idx, bytes, now).0),
{
    let post = submit_m(s, id, idx, bytes, now).0;
    let si = session_idx(s.sessions, id);
    let v = s.sessions[si];
    let v1 = submit_update_session(v, idx, bytes);
    assert(session_ok(v));
    assert(session_ok(v1)) by {
        assert(unique_part_indices(v1.parts)) by {
            if has_part(v.parts, idx) {
                let k = part_idx(v.parts, idx);
                assert(forall|j: int| 0 <= j < v1.parts.len() ==> (#[trigger] v1.parts[j]).index
                    == v.parts[j].index);
            } else {
                assert(forall|j: int| 0 <= j < v.parts.len() ==> #[trigger] v1.parts[j]
                    == v.parts[j]);
                assert(v1.parts[v.parts.len() as int].index == idx);
            }
        }
    }
    assert(forall|j: int| 0 <= j < post.sessions.len() ==> (#[trigger] post.sessions[j]).meta.upload_id
        == s.sessions[j].meta.upload_id);
    assert forall|i: int| 0 <= i < post.sessions.len() implies session_ok(
        #[trigger] post.sessions[i],
    ) by {
        if i == si {
            assert(post.sessions[i] == v1);
        } else {
            assert(post.sessions[i] == s.sessions[i]);
        }
    }
    assert(unique_session_ids(post.sessions));
    assert forall|id2: Seq<char>| #[trigger] has_session(post.sessions, id2) <==> has_session(
        s.sessions,
        id2,
    ) by {
        if has_session(post.sessions, id2) {
            let i = choose|i: int|
                0 <= i < post.sessions.len() && post.sessions[i].meta.upload_id == id2;
            assert(s.sessions[i].meta.upload_id == id2);
        }
        if has_session(s.sessions, id2) {
            let i = choose|i: int| 0 <= i < s.sessions.len() && s.sessions[i].meta.upload_id == id2;
            assert(post.sessions[i].meta.upload_id == id2);
        }
    }
    if has_task(s.tasks, id) {
        let ti = task_idx(s.tasks, id);
        assert(forall|j: int| 0 <= j < post.tasks.len() ==> (#[trigger] post.tasks[j]).id
            == s.tasks[j].id);
        assert(unique_task_ids(post.tasks));
        assert forall|id2: Seq<char>| #[trigger] has_task(post.tasks, id2) <==> has_task(
            s.tasks,
            id2,
        ) by {
            if has_task(post.tasks, id2) {
                let i = choose|i: int| 0 <= i < post.tasks.len() && post.tasks[i].id == id2;
                assert(s.tasks[i].id == id2);
            }
            if has_task(s.tasks, id2) {
                let i = choose|i: int| 0 <= i < s.tasks.len() && s.tasks[i].id == id2;
                assert(post.tasks[i].id == id2);
            }
        }
        assert forall|i: int| 0 <= i < post.tasks.len() && !is_terminal(
            (#[trigger] post.tasks[i]).status,
        ) implies has_session(post.sessions, post.tasks[i].id) by {
            if i == ti {
                assert(post.tasks[i].id == id);
            } else {
                assert(post.tasks[i] == s.tasks[i]);
                assert(has_session(s.sessions, post.tasks[i].id));
            }
        }
    } else {
        assert forall|i: int| 0 <= i < post.tasks.len() && !is_terminal(
            (#[trigger] post.tasks[i]).status,
        ) implies has_session(post.sessions, post.tasks[i].id) by {
            assert(post.tasks[i] == s.tasks[i]);
            assert(has_session(s.sessions, post.tasks[i].id));
        }
    }
    let pct: u8 = (v1.meta.received_bytes * 100 / (v.meta.total_size as int)) as u8;
    lemma_bus_publish_caps(s.bus, chunk_received_event(id, idx, v.meta.total_chunks));
    lemma_bus_publish_caps(
        bus_publish(s.bus, chunk_received_event(id, idx, v.meta.total_chunks)),
        progress_event(id, v.meta.filename, v1.meta.received_bytes, v.meta.total_size, pct),
    );
}

/// A copy of `t` with the same mathematical value.
fn duplicate_task(t: &UploadTask) -> (r: UploadTask)
    ensures
        r@ == t@,
{
    UploadTask {
        id: t.id.clone(),
        filename: t.filename.clone(),
        album: t.album.clone(),
        total_bytes: t.total_bytes,
        received_bytes: t.received_bytes,
        status: t.status,
        created_at: t.created_at,
        updated_at: t.updated_at,
        cancelled: t.cancelled,
    }
}

/// One sweep removal preserves the engine invariant.
pub proof fn lemma_sweep_remove_inv(s: EngineV, i: int)
    requires
        inv(s),
        0 <= i < s.sessions.len(),
    ensures
        inv(sweep_remove(s, i)),
{
    let post = sweep_remove(s, i);
    let id = s.sessions[i].meta.upload_id;
    assert forall|j: int| 0 <= j < post.sessions.len() implies session_ok(
        #[trigger] post.sessions[j],
    ) && post.sessions[j].meta.upload_id != id && has_task(
        s.tasks,
        post.sessions[j].meta.upload_id,
    ) by {
        if j < i {
            assert(post.sessions[j] == s.sessions[j]);
        } else {
            assert(post.sessions[j] == s.sessions[j + 1]);
        }
    }
    assert(unique_session_ids(post.sessions)) by {
        assert forall|a: int, b: int| 0 <= a < b < post.sessions.len() implies post.sessions[a].meta.upload_id
            != post.sessions[b].meta.upload_id by {
            let a0 = if a < i {
                a
            } else {
                a + 1
            };
            let b0 = if b < i {
                b
            } else {
                b + 1
            };
            assert(post.sessions[a] == s.sessions[a0]);
            assert(post.sessions[b] == s.sessions[b0]);
        }
    }
    assert(unique_task_ids(post.tasks)) by {
        if has_task(s.tasks, id) {
            let k = task_idx(s.tasks, id);
            assert forall|a: int, b: int| 0 <= a < b < post.tasks.len() implies post.tasks[a].id
                != post.tasks[b].id by {
                let a0 = if a < k {
                    a
                } else {
                    a + 1
                };
                let b0 = if b < k {
                    b
                } else {
                    b + 1
                };
                assert(post.tasks[a] == s.tasks[a0]);
                assert(post.tasks[b] == s.tasks[b0]);
            }
        }
    }
    assert(unique_handle_ids(post.handles)) by {
        if has_handle(s.handles, id) {
            let k = handle_idx(s.handles, id);
            assert forall|a: int, b: int| 0 <= a < b < post.handles.len() implies post.handles[a].id
                != post.handles[b].id by {
                let a0 = if a < k {
                    a
                } else {
                    a + 1
                };
                let b0 = if b < k {
                    b
                } else {
                    b + 1
                };
                assert(post.handles[a] == s.handles[a0]);
                assert(post.handles[b] == s.handles[b0]);
            }
        }
    }
    assert forall|j: int| 0 <= j < post.sessions.len() implies has_task(
        post.tasks,
        (#[trigger] post.sessions[j]).meta.upload_id,
    ) by {
        let sid = post.sessions[j].meta.upload_id;
        assert(sid != id);
        lemma_has_task_after_remove(s.tasks, id, sid);
    }
    assert forall|j: int| 0 <= j < post.handles.len() implies has_task(
        post.tasks,
        (#[trigger] post.handles[j]).id,
    ) by {
        let hid = post.handles[j].id;
        if has_handle(s.handles, id) {
            let k = handle_idx(s.handles, id);
            let j0 = if j < k {
                j
            } else {
                j + 1
            };
            assert(post.handles[j] == s.handles[j0]);
            assert(has_task(s.tasks, hid));
            assert(s.handles[k].id == id);
            assert(hid != id);
        } else {
            assert(post.handles[j] == s.handles[j]);
            assert(has_task(s.tasks, hid));
            if hid == id {
                assert(has_handle(s.handles, id)) by {
                    assert(s.handles[j].id == id);
                }
            }
        }
        lemma_has_task_after_remove(s.tasks, id, hid);
    }
    assert forall|j: int| 0 <= j < post.tasks.len() && !is_terminal(
        (#[trigger] post.tasks[j]).status,
    ) implies has_session(post.sessions, post.tasks[j].id) by {
        let j0 = if has_task(s.tasks, id) {
            let k = task_idx(s.tasks, id);
            if j < k {
                j
            } else {
                j + 1
            }
        } else {
            j
        };
        assert(post.tasks[j] == s.tasks[j0]);
        let tid = post.tasks[j].id;
        assert(has_session(s.sessions, tid));
        if has_task(s.tasks, id) {
            let k = task_idx(s.tasks, id);
            assert(s.tasks[k].id == id);
            assert(j0 != k);
            assert(tid != id);
        } else {
            assert(has_task(s.tasks, tid));
            assert(tid != id);
        }
        let m = session_idx(s.sessions, tid);
        assert(s.sessions[m].meta.upload_id == tid);
        assert(s.sessions[i].meta.upload_id == id);
        assert(m != i);
        let m2 = if m < i {
            m
        } else {
            m - 1
        };
        assert(post.sessions[m2] == s.sessions[m]);
        assert(has_session(post.sessions, tid));
    }
}

/// Removing the task for `id` keeps every other id's task.
proof fn lemma_has_task_after_remove(ts: Seq<TaskV>, id: Seq<char>, tid: Seq<char>)
    requires
        has_task(ts, tid),
        tid != id,
    ensures
        has_task(
            if has_task(ts, id) {
                ts.remove(task_idx(ts, id))
            } else {
                ts
            },
            tid,
        ),
{
    let post = if has_task(ts, id) {
        ts.remove(task_idx(ts, id))
    } else {
        ts
    };
    let m = choose|m: int| 0 <= m < ts.len() && ts[m].id == tid;
    if has_task(ts, id) {
        let k = task_idx(ts, id);
        assert(ts[k].id == id);
        assert(m != k);
        let m2 = if m < k {
            m
        } else {
            m - 1
        };
        assert(post[m2] == ts[m]);
        assert(has_task(post, tid));
    }
}

/// Position of the artifact for chunk index `c` in a parts vector.
fn find_part_in(parts: &Vec<ChunkPart>, c: u32) -> (r: Option<usize>)
    ensures
        match r {
            Some(j) => j < parts@.len() && parts@[j as int]@.index == c,
            None => forall|j: int| 0 <= j < parts@.len() ==> (#[trigger] parts@[j]@).index != c,
        },
{
    let n = parts.len();
    for i in 0..n
        invariant
            n == parts@.len(),
            forall|j: int| 0 <= j < i ==> (#[trigger] parts@[j]@).index != c,
    {
        if parts[i].index == c {
            return Some(i);
        }
    }
    None
}

/// What survives a failed merge is drawn from the original artifacts:
/// uniqueness of chunk indices carries over, and so does membership.
proof fn lemma_parts_from_props(s: Seq<PartV>, m: u32)
    requires
        unique_part_indices(s),
    ensures
        unique_part_indices(parts_from(s, m)),
        forall|p: PartV| #[trigger] parts_from(s, m).contains(p) ==> s.contains(p),
    decreases s.len(),
{
    if s.len() == 0 {
    } else {
        let rest = s.drop_first();
        assert(unique_part_indices(rest)) by {
            assert(forall|i: int| 0 <= i < rest.len() ==> #[trigger] rest[i] == s[i + 1]);
        }
        lemma_parts_from_props(rest, m);
        let pf = parts_from(s, m);
        if s[0].index < m {
            assert(pf == parts_from(rest, m));
            assert forall|p: PartV| #[trigger] pf.contains(p) implies s.contains(p) by {
                assert(rest.contains(p));
                let i = choose|i: int| 0 <= i < rest.len() && rest[i] == p;
                assert(s[i + 1] == p);
            }
        } else {
            assert(pf == seq![s[0]] + parts_from(rest, m));
            assert forall|p: PartV| #[trigger] pf.contains(p) implies s.contains(p) by {
                let i = choose|i: int| 0 <= i < pf.len() && pf[i] == p;
                if i == 0 {
                    assert(s[0] == p);
                } else {
                    assert(parts_from(rest, m)[i - 1] == p);
                    assert(parts_from(rest, m).contains(p));
                    assert(rest.contains(p));
                    let i2 = choose|i2: int| 0 <= i2 < rest.len() && rest[i2] == p;
                    assert(s[i2 + 1] == p);
                }
            }
            assert forall|i: int, j: int| 0 <= i < j < pf.len() implies pf[i].index
                != pf[j].index by {
                if i == 0 {
                    let q = pf[j];
                    assert(parts_from(rest, m)[j - 1] == q);
                    assert(parts_from(rest, m).contains(q));
                    assert(rest.contains(q));
                    let i2 = choose|i2: int| 0 <= i2 < rest.len() && rest[i2] == q;
                    assert(s[i2 + 1] == q);
                    assert(s[0].index != s[i2 + 1].index);
                } else {
                    assert(pf[i] == parts_from(rest, m)[i - 1]);
                    assert(pf[j] == parts_from(rest, m)[j - 1]);
                }
            }
        }
    }
}

/// A failed merge preserves the engine invariant.
pub proof fn lemma_finalize_fail_inv(s: EngineV, id: Seq<char>, derivative: Option<Seq<char>>, now: i64)
    requires
        inv(s),
        !cancel_requested(s, id),
        has_session(s.sessions, id),
        first_missing(
            s.sessions[session_idx(s.sessions, id)].parts,
            s.sessions[session_idx(s.sessions, id)].meta.total_chunks,
            0,
        ) is Some,
    ensures
        inv(finalize_m(s, id, derivative, now).0),
{
    let post = finalize_m(s, id, derivative, now).0;
    let si = session_idx(s.sessions, id);
    let v = s.sessions[si];
    let m = first_missing(v.parts, v.meta.total_chunks, 0)->Some_0;
    let v2 = SessionV { meta: v.meta, parts: parts_from(v.parts, m) };
    assert(session_ok(v));
    lemma_parts_from_props(v.parts, m);
    assert(session_ok(v2));
    assert(forall|j: int| 0 <= j < post.sessions.len() ==> (#[trigger] post.sessions[j]).meta.upload_id
        == s.sessions[j].meta.upload_id);
    assert forall|i: int| 0 <= i < post.sessions.len() implies session_ok(
        #[trigger] post.sessions[i],
    ) by {
        if i == si {
            assert(post.sessions[i] == v2);
        } else {
            assert(post.sessions[i] == s.sessions[i]);
        }
    }
    assert forall|id2: Seq<char>| #[trigger] has_session(post.sessions, id2) <==> has_session(
        s.sessions,
        id2,
    ) by {
        if has_session(post.sessions, id2) {
            let i = choose|i: int|
                0 <= i < post.sessions.len() && post.sessions[i].meta.upload_id == id2;
            assert(s.sessions[i].meta.upload_id == id2);
        }
        if has_session(s.sessions, id2) {
            let i = choose|i: int| 0 <= i < s.sessions.len() && s.sessions[i].meta.upload_id == id2;
            assert(post.sessions[i].meta.upload_id == id2);
        }
    }
    lemma_bus_publish_caps(
        s.bus,
        EventV::ChunksMerging { upload_id: id, filename: v.meta.filename },
    );
    lemma_bus_publish_caps(
        bus_publish(s.bus, EventV::ChunksMerging { upload_id: id, filename: v.meta.filename }),
        merge_error_event(id, v.meta.filename),
    );
}

/// A successful finalize preserves the engine invariant.
pub proof fn lemma_finalize_done_inv(s: EngineV, id: Seq<char>, derivative: Option<Seq<char>>, now: i64)
    requires
        inv(s),
        !cancel_requested(s, id),
        has_session(s.sessions, id),
    ensures
        inv(finalize_m(s, id, derivative, now).0),
{
    let res = finalize_m(s, id, derivative, now);
    let si = session_idx(s.sessions, id);
    let v = s.sessions[si];
    if first_missing(v.parts, v.meta.total_chunks, 0) is Some {
        lemma_finalize_fail_inv(s, id, derivative, now);
    } else {
        let post = res.0;
        assert(post.sessions == s.sessions.remove(si));
        assert forall|i: int| 0 <= i < post.sessions.len() implies session_ok(
            #[trigger] post.sessions[i],
        ) by {
            if i < si {
                assert(post.sessions[i] == s.sessions[i]);
            } else {
                assert(post.sessions[i] == s.sessions[i + 1]);
            }
        }
        assert(unique_session_ids(post.sessions)) by {
            assert forall|i: int, j: int| 0 <= i < j < post.sessions.len() implies post.sessions[i].meta.upload_id
                != post.sessions[j].meta.upload_id by {
                let i0 = if i < si {
                    i
                } else {
                    i + 1
                };
                let j0 = if j < si {
                    j
                } else {
                    j + 1
                };
                assert(post.sessions[i] == s.sessions[i0]);
                assert(post.sessions[j] == s.sessions[j0]);
            }
        }
        assert(unique_task_ids(post.tasks)) by {
            if has_task(s.tasks, id) {
                assert(forall|i: int| 0 <= i < post.tasks.len() ==> (#[trigger] post.tasks[i]).id
                    == s.tasks[i].id);
            }
        }
        assert(unique_handle_ids(post.handles)) by {
            if has_handle(s.handles, id) {
                let k = handle_idx(s.handles, id);
                assert forall|i: int, j: int| 0 <= i < j < post.handles.len() implies post.handles[i].id
                    != post.handles[j].id by {
                    let i0 = if i < k {
                        i
                    } else {
                        i + 1
                    };
                    let j0 = if j < k {
                        j
                    } else {
                        j + 1
                    };
                    assert(post.handles[i] == s.handles[i0]);
                    assert(post.handles[j] == s.handles[j0]);
                }
            }
        }
        assert forall|i: int| 0 <= i < post.sessions.len() implies has_task(
            post.tasks,
            (#[trigger] post.sessions[i]).meta.upload_id,
        ) by {
            let i0 = if i < si {
                i
            } else {
                i + 1
            };
            assert(post.sessions[i] == s.sessions[i0]);
            let sid = post.sessions[i].meta.upload_id;
            assert(has_task(s.tasks, sid));
            lemma_complete_task_survives(s.tasks, id, now, sid);
        }
        assert forall|i: int| 0 <= i < post.handles.len() implies has_task(
            post.tasks,
            (#[trigger] post.handles[i]).id,
        ) by {
            let hid = post.handles[i].id;
            lemma_handle_entry(s.handles, id, i);
            assert(has_task(s.tasks, hid));
            lemma_complete_task_survives(s.tasks, id, now, hid);
        }
        assert forall|i: int| 0 <= i < post.tasks.len() && !is_terminal(
            (#[trigger] post.tasks[i]).status,
        ) implies has_session(post.sessions, post.tasks[i].id) by {
            if has_task(s.tasks, id) && i == task_idx(s.tasks, id) {
                assert(post.tasks[i].status == TaskStatus::Completed);
            } else {
                assert(post.tasks[i] == s.tasks[i]);
                let tid = post.tasks[i].id;
                assert(has_session(s.sessions, tid));
                if has_task(s.tasks, id) {
                    assert(s.tasks[task_idx(s.tasks, id)].id == id);
                    assert(tid != id);
                } else {
                    assert(has_task(s.tasks, tid));
                    assert(tid != id);
                }
                let mm = session_idx(s.sessions, tid);
                assert(s.sessions[mm].meta.upload_id == tid);
                assert(mm != si);
                let m2 = if mm < si {
                    mm
                } else {
                    mm - 1
                };
                assert(post.sessions[m2] == s.sessions[mm]);
                assert(has_session(post.sessions, tid));
            }
        }
        lemma_finalize_bus_caps(s.bus, id, v.meta, s.base_path, derivative, s.auto_sync);
    }
}

/// Updating the task for `id` to its completed form keeps every id that
/// had a task.
proof fn lemma_complete_task_survives(ts: Seq<TaskV>, id: Seq<char>, now: i64, tid: Seq<char>)
    requires
        has_task(ts, tid),
    ensures
        has_task(
            if has_task(ts, id) {
                ts.update(task_idx(ts, id), complete_task(ts[task_idx(ts, id)], now))
            } else {
                ts
            },
            tid,
        ),
{
    let post = if has_task(ts, id) {
        ts.update(task_idx(ts, id), complete_task(ts[task_idx(ts, id)], now))
    } else {
        ts
    };
    let m = task_idx(ts, tid);
    assert(ts[m].id == tid);
    assert(post[m].id == tid);
    assert(0 <= m < post.len() && post[m].id == tid);
}

/// The finalize event chain keeps every buffer within capacity.
proof fn lemma_finalize_bus_caps(
    b: BusV,
    id: Seq<char>,
    v: SessionMeta,
    base: Seq<char>,
    derivative: Option<Seq<char>>,
    auto_sync: bool,
)
    requires
        b.capacity >= 1,
        forall|i: int| 0 <= i < b.subs.len() ==> #[trigger] b.subs[i].len() <= b.capacity,
    ensures
        finalize_bus(b, id, v, base, derivative, auto_sync).capacity == b.capacity,
        forall|i: int|
            0 <= i < finalize_bus(b, id, v, base, derivative, auto_sync).subs.len()
                ==> #[trigger] finalize_bus(b, id, v, base, derivative, auto_sync).subs[i].len()
                <= b.capacity,
{
    let e1 = EventV::ChunksMerging { upload_id: id, filename: v.filename };
    let e2 = EventV::FileSaved {
        upload_id: id,
        filename: v.filename,
        path: storage_path_of(base, v.album, v.filename),
        size: v.total_size,
    };
    let e3 = EventV::HeicConverting { upload_id: id, filename: v.filename };
    let e4 = EventV::HeicConverted {
        upload_id: id,
        original: v.filename,
        converted: match derivative {
            Some(d) => d,
            None => Seq::empty(),
        },
        success: derivative is Some,
    };
    let e5 = EventV::DatabaseSaving { upload_id: id, filename: v.filename };
    let e6 = EventV::CloudSyncTriggered { upload_id: id, filename: v.filename };
    let e7 = EventV::UploadComplete {
        upload_id: id,
        filename: v.filename,
        album: v.album,
        size: v.total_size,
    };
    let b1 = bus_publish(b, e1);
    lemma_bus_publish_caps(b, e1);
    let b2 = bus_publish(b1, e2);
    lemma_bus_publish_caps(b1, e2);
    let b3 = bus_publish(b2, e3);
    lemma_bus_publish_caps(b2, e3);
    let b4 = bus_publish(b3, e4);
    lemma_bus_publish_caps(b3, e4);
    let b5 = bus_publish(b4, e5);
    lemma_bus_publish_caps(b4, e5);
    let b6 = if auto_sync {
        bus_publish(b5, e6)
    } else {
        b5
    };
    if auto_sync {
        lemma_bus_publish_caps(b5, e6);
    }
    lemma_bus_publish_caps(b6, e7);
}

/// Publishing keeps every buffer within capacity.
pub proof fn lemma_bus_publish_caps(b: BusV, e: EventV)
    requires
        b.capacity >= 1,
        forall|i: int| 0 <= i < b.subs.len() ==> #[trigger] b.subs[i].len() <= b.capacity,
    ensures
        forall|i: int| 0 <= i < bus_publish(b, e).subs.len() ==> #[trigger] bus_publish(
            b,
            e,
        ).subs[i].len() <= b.capacity,
        bus_publish(b, e).capacity == b.capacity,
{
    let post = bus_publish(b, e);
    assert forall|i: int| 0 <= i < post.subs.len() implies #[trigger] post.subs[i].len()
        <= b.capacity by {
        assert(post.subs[i] == crate::events::deliver(b.subs[i], e, b.capacity));
    }
}

} // verus!

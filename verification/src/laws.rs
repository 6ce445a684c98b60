//! Laws of the upload engine, each proved from the transition functions
//! that the engine's methods are specified against.

use vstd::prelude::*;
use crate::engine::{
    EngineV, FinalizeR, SubmitR, artifact_of, cancel_requested, cancel_task_v, core_teardown,
    finalize_m, first_missing, init_m, inv, lemma_core_teardown_inv, lemma_init_inv,
    lemma_submit_accept_inv, merged_bytes, session_ok, submit_m, submit_update_session, sweep_m,
    sweep_remove, age_of, stale_nonterminal, lemma_sweep_remove_inv,
};
use crate::models::{PartV, SessionV, TaskStatus, TaskV, is_terminal};
use crate::registry::{handle_idx, has_handle};
use crate::store::{
    has_part, has_session, has_task, part_bytes, part_idx, session_idx, task_idx,
    unique_part_indices, upsert_part,
};

verus! {

/// The session record of `id` (meaningful under `has_session`).
pub open spec fn session_of(s: EngineV, id: Seq<char>) -> SessionV {
    s.sessions[session_idx(s.sessions, id)]
}

/// The task record of `id` (meaningful under `has_task`).
pub open spec fn task_of(s: EngineV, id: Seq<char>) -> TaskV {
    s.tasks[task_idx(s.tasks, id)]
}

/// An upload still running normally: session and task exist and no
/// cancellation has been observed or requested.
pub open spec fn live_upload(s: EngineV, id: Seq<char>) -> bool {
    &&& has_session(s.sessions, id)
    &&& has_task(s.tasks, id)
    &&& !cancel_requested(s, id)
}

/// The engine after chunks `0..k` of `chunks` were submitted in index
/// order, starting from `s`.
pub open spec fn submit_seq(
    s: EngineV,
    id: Seq<char>,
    chunks: Seq<Seq<u8>>,
    k: int,
    now: i64,
) -> EngineV
    decreases k,
{
    if k <= 0 {
        s
    } else {
        submit_m(submit_seq(s, id, chunks, k - 1, now), id, (k - 1) as u32, chunks[k - 1], now).0
    }
}

/// After an engine update that keeps session ids unchanged and unique,
/// the session found under `id` is the updated entry.
proof fn lemma_session_idx_stable(ss: Seq<SessionV>, post: Seq<SessionV>, i: int, id: Seq<char>)
    requires
        0 <= i < ss.len(),
        post == ss.update(i, post[i]),
        post.len() == ss.len(),
        ss[i].meta.upload_id == id,
        post[i].meta.upload_id == id,
        forall|a: int, b: int| 0 <= a < b < post.len() ==> post[a].meta.upload_id
            != post[b].meta.upload_id,
    ensures
        has_session(post, id),
        session_idx(post, id) == i,
{
    assert(post[i].meta.upload_id == id);
    assert(has_session(post, id));
    let k = session_idx(post, id);
    assert(post[k].meta.upload_id == id);
    assert(k == i);
}

/// Progress of a sequential upload: after chunks `0..k` went in, the
/// session has acknowledged exactly `k` chunks, is complete exactly when
/// `k` reached the total, and the upload is still live.
proof fn lemma_submit_seq_progress(
    s1: EngineV,
    id: Seq<char>,
    chunks: Seq<Seq<u8>>,
    k: int,
    now: i64,
)
    requires
        inv(s1),
        live_upload(s1, id),
        session_of(s1, id).meta.received_chunks == 0,
        session_of(s1, id).meta.total_chunks == chunks.len(),
        task_of(s1, id).status != TaskStatus::Cancelled,
        1 <= chunks.len() < u32::MAX,
        0 <= k <= chunks.len(),
    ensures
        inv(submit_seq(s1, id, chunks, k, now)),
        live_upload(submit_seq(s1, id, chunks, k, now), id),
        task_of(submit_seq(s1, id, chunks, k, now), id).status != TaskStatus::Cancelled,
        session_of(submit_seq(s1, id, chunks, k, now), id).meta.received_chunks == k,
        session_of(submit_seq(s1, id, chunks, k, now), id).meta.total_chunks == chunks.len(),
        session_of(submit_seq(s1, id, chunks, k, now), id).meta.completed == (k >= chunks.len()),
        k > 0 ==> submit_m(
            submit_seq(s1, id, chunks, k - 1, now),
            id,
            (k - 1) as u32,
            chunks[k - 1],
            now,
        ).1 == (SubmitR::Accepted {
            received_chunks: k as u32,
            total_chunks: chunks.len() as u32,
            complete: k == chunks.len(),
        }),
    decreases k,
{
    if k > 0 {
        lemma_submit_seq_progress(s1, id, chunks, k - 1, now);
        let sp = submit_seq(s1, id, chunks, k - 1, now);
        let idx: u32 = (k - 1) as u32;
        let step = submit_m(sp, id, idx, chunks[k - 1], now);
        let sk = step.0;
        assert(!cancel_requested(sp, id));
        assert(has_session(sp.sessions, id));
        let si = session_idx(sp.sessions, id);
        let v = sp.sessions[si];
        assert(v == session_of(sp, id));
        let v1 = submit_update_session(v, idx, chunks[k - 1]);
        assert(v1.meta.received_chunks == k) by {
            assert(v.meta.received_chunks == k - 1);
        }
        assert(v1.meta.completed == (k >= chunks.len()));
        lemma_submit_accept_inv(sp, id, idx, chunks[k - 1], now);
        assert(sk.sessions == sp.sessions.update(si, v1));
        lemma_session_idx_stable(sp.sessions, sk.sessions, si, id);
        assert(session_of(sk, id) == v1);
        assert(step.1 == (SubmitR::Accepted {
            received_chunks: k as u32,
            total_chunks: chunks.len() as u32,
            complete: k == chunks.len(),
        })) by {
            assert(v.meta.total_chunks == chunks.len());
            assert(k >= chunks.len() <==> k == chunks.len());
        }
        assert(live_upload(sk, id) && task_of(sk, id).status != TaskStatus::Cancelled) by {
            assert(sk.handles == sp.handles);
            assert(has_task(sp.tasks, id));
            let ti = task_idx(sp.tasks, id);
            let t1 = crate::engine::uploading_task(sp.tasks[ti], v1.meta.received_bytes, now);
            assert(sk.tasks == sp.tasks.update(ti, t1));
            assert(forall|j: int| 0 <= j < sk.tasks.len() ==> (#[trigger] sk.tasks[j]).id
                == sp.tasks[j].id);
            assert(has_task(sk.tasks, id)) by {
                assert(sk.tasks[ti].id == id);
            }
            let ti2 = task_idx(sk.tasks, id);
            assert(sk.tasks[ti2].id == id && sk.tasks[ti].id == id);
            assert(ti2 == ti);
            assert(task_of(sk, id) == t1);
            assert(sp.tasks[ti].status != TaskStatus::Cancelled) by {
                assert(task_of(sp, id) == sp.tasks[ti]);
            }
            assert(t1.status != TaskStatus::Cancelled);
            assert(t1.cancelled == sp.tasks[ti].cancelled);
            assert(!sp.tasks[ti].cancelled) by {
                assert(!cancel_requested(sp, id));
            }
            assert(!cancel_requested(sk, id));
        }
    }
}

/// For any valid upload parameters, `init` followed by `total_chunks`
/// sequential chunk submissions (indices `0..total_chunks-1`, any byte
/// contents) reports `complete` on the final submission, and the session
/// reports complete from then on.
pub proof fn lemma_sequential_upload_completes(
    s0: EngineV,
    id: Seq<char>,
    filename: Seq<char>,
    album: Seq<char>,
    total_size: u64,
    chunks: Seq<Seq<u8>>,
    now: i64,
)
    requires
        inv(s0),
        total_size > 0,
        1 <= chunks.len() < u32::MAX,
    ensures
        ({
            let s1 = init_m(s0, id, filename, album, total_size, chunks.len() as u32, now);
            let n = chunks.len() as int;
            &&& submit_m(
                submit_seq(s1, id, chunks, n - 1, now),
                id,
                (n - 1) as u32,
                chunks[n - 1],
                now,
            ).1 == (SubmitR::Accepted {
                received_chunks: chunks.len() as u32,
                total_chunks: chunks.len() as u32,
                complete: true,
            })
            &&& has_session(submit_seq(s1, id, chunks, n, now).sessions, id)
            &&& session_of(submit_seq(s1, id, chunks, n, now), id).meta.completed
        }),
{
    let total_chunks = chunks.len() as u32;
    let s1 = init_m(s0, id, filename, album, total_size, total_chunks, now);
    let n = chunks.len() as int;
    lemma_init_inv(s0, id, filename, album, total_size, total_chunks, now);
    let fs = crate::engine::fresh_session(
        id,
        filename,
        album,
        total_size,
        total_chunks,
        s0.base_path,
        now,
    );
    let ft = crate::engine::fresh_task(id, filename, album, total_size, now);
    assert(has_session(s1.sessions, id) && session_of(s1, id) == fs) by {
        if has_session(s0.sessions, id) {
            let i = session_idx(s0.sessions, id);
            lemma_session_idx_stable(s0.sessions, s1.sessions, i, id);
        } else {
            assert(s1.sessions == s0.sessions.push(fs));
            assert(s1.sessions[s0.sessions.len() as int].meta.upload_id == id);
            assert(has_session(s1.sessions, id));
            let j = session_idx(s1.sessions, id);
            assert(s1.sessions[j].meta.upload_id == id);
            assert(j == s0.sessions.len() as int);
        }
    }
    assert(has_task(s1.tasks, id) && task_of(s1, id) == ft) by {
        if has_task(s0.tasks, id) {
            let i = task_idx(s0.tasks, id);
            assert(s1.tasks == s0.tasks.update(i, ft));
            assert(s1.tasks[i].id == id);
            assert(has_task(s1.tasks, id));
            let j = task_idx(s1.tasks, id);
            assert(s1.tasks[j].id == id);
            assert(j == i);
        } else {
            assert(s1.tasks == s0.tasks.push(ft));
            assert(s1.tasks[s0.tasks.len() as int].id == id);
            assert(has_task(s1.tasks, id));
            let j = task_idx(s1.tasks, id);
            assert(j == s0.tasks.len() as int);
        }
    }
    assert(!cancel_requested(s1, id)) by {
        if has_handle(s0.handles, id) {
            let i = handle_idx(s0.handles, id);
            assert(s1.handles == s0.handles.update(
                i,
                crate::registry::HandleV { id, cancelled: false },
            ));
            assert(s1.handles[i].id == id && !s1.handles[i].cancelled);
            let j = handle_idx(s1.handles, id);
            assert(s1.handles[j].id == id);
            assert(j == i);
        } else {
            assert(s1.handles == s0.handles.push(
                crate::registry::HandleV { id, cancelled: false },
            ));
            let j = handle_idx(s1.handles, id);
            if has_handle(s1.handles, id) {
                assert(s1.handles[j].id == id);
                assert(j == s0.handles.len() as int);
            }
        }
    }
    lemma_submit_seq_progress(s1, id, chunks, n - 1, now);
    lemma_submit_seq_progress(s1, id, chunks, n, now);
}

/// The artifact stored for a chunk index is exactly the *last* bytes
/// submitted for it: a re-submission before finalize overwrites the
/// earlier bytes, and touches no other index.
pub proof fn lemma_resubmit_overwrites(
    parts: Seq<PartV>,
    idx: u32,
    b1: Seq<u8>,
    b2: Seq<u8>,
)
    requires
        unique_part_indices(parts),
    ensures
        part_bytes(upsert_part(upsert_part(parts, idx, b1), idx, b2), idx) == b2,
        forall|c: u32| c != idx ==> has_part(upsert_part(upsert_part(parts, idx, b1), idx, b2), c)
            == has_part(parts, c),
        forall|c: u32| c != idx && has_part(parts, c) ==> part_bytes(
            upsert_part(upsert_part(parts, idx, b1), idx, b2),
            c,
        ) == part_bytes(parts, c),
{
    lemma_upsert_part_lookup(parts, idx, b1);
    let p1 = upsert_part(parts, idx, b1);
    lemma_upsert_part_lookup(p1, idx, b2);
    let p2 = upsert_part(p1, idx, b2);
    assert forall|c: u32| c != idx implies has_part(p2, c) == has_part(parts, c) && (has_part(
        parts,
        c,
    ) ==> part_bytes(p2, c) == part_bytes(parts, c)) by {
        lemma_upsert_part_other(parts, idx, b1, c);
        lemma_upsert_part_other(p1, idx, b2, c);
    }
}

/// After an upsert, the upserted index holds exactly the new bytes, and
/// index uniqueness is kept.
pub proof fn lemma_upsert_part_lookup(parts: Seq<PartV>, idx: u32, bytes: Seq<u8>)
    requires
        unique_part_indices(parts),
    ensures
        has_part(upsert_part(parts, idx, bytes), idx),
        part_bytes(upsert_part(parts, idx, bytes), idx) == bytes,
        unique_part_indices(upsert_part(parts, idx, bytes)),
{
    let post = upsert_part(parts, idx, bytes);
    if has_part(parts, idx) {
        let k = part_idx(parts, idx);
        assert(parts[k].index == idx);
        assert(post[k] == PartV { index: idx, bytes });
        assert(forall|j: int| 0 <= j < post.len() ==> (#[trigger] post[j]).index
            == parts[j].index);
        assert(has_part(post, idx));
        let k2 = part_idx(post, idx);
        assert(post[k2].index == idx && post[k].index == idx);
        assert(k2 == k);
    } else {
        assert(post[parts.len() as int] == PartV { index: idx, bytes });
        assert(has_part(post, idx));
        let k2 = part_idx(post, idx);
        assert(post[k2].index == idx);
        assert forall|j: int| 0 <= j < parts.len() implies (#[trigger] post[j]).index != idx by {
            assert(post[j] == parts[j]);
        }
        assert(k2 == parts.len() as int);
        assert forall|i: int, j: int| 0 <= i < j < post.len() implies post[i].index
            != post[j].index by {
            if j == parts.len() as int {
                assert(post[i] == parts[i]);
            }
        }
    }
}

/// An upsert leaves every other chunk index untouched.
proof fn lemma_upsert_part_other(parts: Seq<PartV>, idx: u32, bytes: Seq<u8>, c: u32)
    requires
        unique_part_indices(parts),
        c != idx,
    ensures
        has_part(upsert_part(parts, idx, bytes), c) == has_part(parts, c),
        has_part(parts, c) ==> part_bytes(upsert_part(parts, idx, bytes), c) == part_bytes(
            parts,
            c,
        ),
{
    let post = upsert_part(parts, idx, bytes);
    if has_part(parts, idx) {
        let k = part_idx(parts, idx);
        assert(forall|j: int| 0 <= j < post.len() ==> j != k ==> #[trigger] post[j] == parts[j]);
        if has_part(parts, c) {
            let m = part_idx(parts, c);
            assert(parts[m].index == c);
            assert(m != k);
            assert(post[m] == parts[m]);
            assert(has_part(post, c));
            let m2 = part_idx(post, c);
            assert(post[m2].index == c && post[m].index == c);
            assert(forall|j: int| 0 <= j < post.len() ==> (#[trigger] post[j]).index
                == parts[j].index);
            assert(m2 == m);
        }
        if has_part(post, c) {
            let m = part_idx(post, c);
            assert(post[m].index == c);
            assert(m != k);
            assert(parts[m].index == c);
            assert(has_part(parts, c));
        }
    } else {
        if has_part(parts, c) {
            let m = part_idx(parts, c);
            assert(post[m] == parts[m]);
            assert(has_part(post, c));
            let m2 = part_idx(post, c);
            assert(post[m2].index == c && post[m].index == c);
            assert forall|i: int, j: int| 0 <= i < j < post.len() implies post[i].index
                != post[j].index by {
                if j == parts.len() as int {
                    assert(post[i] == parts[i]);
                    assert(post[j].index == idx);
                    if post[i].index == idx {
                        assert(has_part(parts, idx)) by {
                            assert(parts[i].index == idx);
                        }
                    }
                } else {
                    assert(post[i] == parts[i] && post[j] == parts[j]);
                }
            }
            assert(m2 == m);
        }
        if has_part(post, c) {
            let m = part_idx(post, c);
            assert(post[m].index == c);
            if m == parts.len() as int {
                assert(post[m].index == idx);
                assert(false);
            }
            assert(parts[m].index == c);
            assert(has_part(parts, c));
        }
    }
}

/// Submitting two different chunk indices in either order leaves the
/// same bytes at every index: with
/// [`lemma_merge_depends_on_index_map`], the merged artifact and its
/// hash cannot depend on the order chunks were submitted in.
pub proof fn lemma_submission_order_irrelevant(
    parts: Seq<PartV>,
    i1: u32,
    b1: Seq<u8>,
    i2: u32,
    b2: Seq<u8>,
)
    requires
        unique_part_indices(parts),
        i1 != i2,
    ensures
        ({
            let fwd = upsert_part(upsert_part(parts, i1, b1), i2, b2);
            let rev = upsert_part(upsert_part(parts, i2, b2), i1, b1);
            forall|c: u32| has_part(fwd, c) == has_part(rev, c) && (has_part(fwd, c)
                ==> part_bytes(fwd, c) == part_bytes(rev, c))
        }),
{
    lemma_upsert_part_lookup(parts, i1, b1);
    lemma_upsert_part_lookup(parts, i2, b2);
    let f1 = upsert_part(parts, i1, b1);
    let r1 = upsert_part(parts, i2, b2);
    lemma_upsert_part_lookup(f1, i2, b2);
    lemma_upsert_part_lookup(r1, i1, b1);
    let fwd = upsert_part(f1, i2, b2);
    let rev = upsert_part(r1, i1, b1);
    assert forall|c: u32| has_part(fwd, c) == has_part(rev, c) && (has_part(fwd, c)
        ==> part_bytes(fwd, c) == part_bytes(rev, c)) by {
        if c == i1 {
            lemma_upsert_part_other(f1, i2, b2, c);
        } else if c == i2 {
            lemma_upsert_part_other(r1, i1, b1, c);
        } else {
            lemma_upsert_part_other(parts, i1, b1, c);
            lemma_upsert_part_other(parts, i2, b2, c);
            lemma_upsert_part_other(f1, i2, b2, c);
            lemma_upsert_part_other(r1, i1, b1, c);
        }
    }
}

/// The merged artifact is a function of which bytes sit at which chunk
/// index alone: two part stores that agree on every index below `c`
/// merge to the same bytes — the order chunks were submitted in cannot
/// matter.
pub proof fn lemma_merge_depends_on_index_map(p1: Seq<PartV>, p2: Seq<PartV>, c: int)
    requires
        forall|j: u32| 0 <= j < c ==> has_part(p1, j) == has_part(p2, j) && part_bytes(p1, j)
            == part_bytes(p2, j),
    ensures
        merged_bytes(p1, c) == merged_bytes(p2, c),
    decreases c,
{
    if c > 0 {
        lemma_merge_depends_on_index_map(p1, p2, c - 1);
        assert(part_bytes(p1, (c - 1) as u32) == part_bytes(p2, (c - 1) as u32));
    }
}

/// Total length of the artifacts for chunk indices `0..c`.
pub open spec fn sum_part_lens(parts: Seq<PartV>, c: int) -> int
    decreases c,
{
    if c <= 0 {
        0
    } else {
        sum_part_lens(parts, c - 1) + part_bytes(parts, (c - 1) as u32).len()
    }
}

/// The merged artifact's byte length is the sum of the merged chunks'
/// lengths.
pub proof fn lemma_merged_length(parts: Seq<PartV>, c: int)
    ensures
        merged_bytes(parts, c).len() == sum_part_lens(parts, c),
    decreases c,
{
    if c > 0 {
        lemma_merged_length(parts, c - 1);
    }
}

/// What a successful finalize commits: the catalog gains exactly one
/// record, whose bytes are the chunks concatenated in index order, whose
/// size is the sum of the chunk lengths, and whose content hash is the
/// hex digest of exactly those bytes.
pub proof fn lemma_finalize_artifact(s: EngineV, id: Seq<char>, derivative: Option<Seq<char>>, now: i64)
    requires
        inv(s),
        !cancel_requested(s, id),
        has_session(s.sessions, id),
        first_missing(
            session_of(s, id).parts,
            session_of(s, id).meta.total_chunks,
            0,
        ) is None,
    ensures
        ({
            let v = session_of(s, id);
            let post = finalize_m(s, id, derivative, now);
            let a = artifact_of(v, s.base_path, derivative);
            &&& post.0.catalog == s.catalog.push(a)
            &&& post.1 == (FinalizeR::Done {
                filename: v.meta.filename,
                album: v.meta.album,
                size: v.meta.total_size,
            })
            &&& a.bytes == merged_bytes(v.parts, v.meta.total_chunks as int)
            &&& a.bytes.len() == sum_part_lens(v.parts, v.meta.total_chunks as int)
            &&& a.size == a.bytes.len() as u64
            &&& a.content_hash == crate::hex::hex_of(crate::outside::sha256_of(a.bytes))
        }),
{
    let v = session_of(s, id);
    lemma_merged_length(v.parts, v.meta.total_chunks as int);
}

/// Once `cancel` has run for an upload, any later chunk submission or
/// finalize of that id fails with `Cancelled`, and the session record is
/// gone, chunk artifacts included.
pub proof fn lemma_cancel_is_lasting(
    s: EngineV,
    id: Seq<char>,
    idx: u32,
    bytes: Seq<u8>,
    derivative: Option<Seq<char>>,
    now1: i64,
    now2: i64,
)
    requires
        inv(s),
        has_handle(s.handles, id),
    ensures
        ({
            let s1 = core_teardown(s, id, now1);
            &&& !has_session(s1.sessions, id)
            &&& submit_m(s1, id, idx, bytes, now2).1 is Cancelled
            &&& finalize_m(s1, id, derivative, now2).1 is Cancelled
        }),
{
    let s1 = core_teardown(s, id, now1);
    lemma_core_teardown_inv(s, id, now1);
    assert(has_task(s.tasks, id)) by {
        let i = handle_idx(s.handles, id);
        assert(s.handles[i].id == id);
    }
    let k = task_idx(s.tasks, id);
    assert(s.tasks[k].id == id);
    assert(s1.tasks == s.tasks.update(k, cancel_task_v(s.tasks[k], now1)));
    assert(s1.tasks[k].id == id && s1.tasks[k].cancelled);
    assert(has_task(s1.tasks, id));
    let k2 = task_idx(s1.tasks, id);
    assert(s1.tasks[k2].id == id);
    assert(forall|j: int| 0 <= j < s1.tasks.len() ==> (#[trigger] s1.tasks[j]).id
        == s.tasks[j].id);
    assert(k2 == k);
    assert(cancel_requested(s1, id));
    assert(!has_session(s1.sessions, id)) by {
        if has_session(s.sessions, id) {
            let si = session_idx(s.sessions, id);
            assert forall|j: int| 0 <= j < s1.sessions.len() implies (
            #[trigger] s1.sessions[j]).meta.upload_id != id by {
                if j < si {
                    assert(s1.sessions[j] == s.sessions[j]);
                } else {
                    assert(s1.sessions[j] == s.sessions[j + 1]);
                }
            }
        }
    }
}

/// A sweep with threshold zero leaves no running upload behind: every
/// task still stored afterwards is terminal (and so, by the engine
/// invariant, no session of a running upload survives either).
pub proof fn lemma_sweep_zero_removes_nonterminal(s: EngineV, now: i64)
    requires
        inv(s),
    ensures
        inv(sweep_m(s, 0, now, 0).0),
        forall|j: int|
            0 <= j < sweep_m(s, 0, now, 0).0.tasks.len() ==> is_terminal(
                (#[trigger] sweep_m(s, 0, now, 0).0.tasks[j]).status,
            ),
{
    lemma_sweep_zero_rec(s, now, 0);
    let post = sweep_m(s, 0, now, 0).0;
    assert forall|j: int| 0 <= j < post.tasks.len() implies is_terminal(
        (#[trigger] post.tasks[j]).status,
    ) by {
        if !is_terminal(post.tasks[j].status) {
            let tid = post.tasks[j].id;
            assert(has_session(post.sessions, tid));
            let m = session_idx(post.sessions, tid);
            assert(post.sessions[m].meta.upload_id == tid);
            assert(has_task(post.tasks, tid) && is_terminal(task_of(post, tid).status));
            let k = task_idx(post.tasks, tid);
            assert(post.tasks[k].id == tid && post.tasks[j].id == tid);
            assert(k == j);
        }
    }
}

/// Sweep recursion for threshold zero: the surviving engine is invariant
/// and every surviving session's task is terminal.
proof fn lemma_sweep_zero_rec(s: EngineV, now: i64, i: int)
    requires
        inv(s),
        0 <= i,
        forall|j: int| 0 <= j < i && j < s.sessions.len() ==> has_task(
            s.tasks,
            (#[trigger] s.sessions[j]).meta.upload_id,
        ) && is_terminal(task_of(s, s.sessions[j].meta.upload_id).status),
    ensures
        inv(sweep_m(s, 0, now, i).0),
        forall|j: int|
            0 <= j < sweep_m(s, 0, now, i).0.sessions.len() ==> has_task(
                sweep_m(s, 0, now, i).0.tasks,
                (#[trigger] sweep_m(s, 0, now, i).0.sessions[j]).meta.upload_id,
            ) && is_terminal(
                task_of(sweep_m(s, 0, now, i).0, sweep_m(s, 0, now, i).0.sessions[j].meta.upload_id).status,
            ),
    decreases s.sessions.len() + 1 - i,
{
    if i >= s.sessions.len() {
        assert forall|j: int| 0 <= j < s.sessions.len() implies has_task(
            s.tasks,
            (#[trigger] s.sessions[j]).meta.upload_id,
        ) && is_terminal(task_of(s, s.sessions[j].meta.upload_id).status) by {
            assert(j < i);
        }
    } else {
        let id = s.sessions[i].meta.upload_id;
        if stale_nonterminal(s, i, 0, now) {
            let s1 = sweep_remove(s, i);
            lemma_sweep_remove_inv(s, i);
            assert forall|j: int| 0 <= j < i && j < s1.sessions.len() implies has_task(
                s1.tasks,
                (#[trigger] s1.sessions[j]).meta.upload_id,
            ) && is_terminal(task_of(s1, s1.sessions[j].meta.upload_id).status) by {
                assert(s1.sessions[j] == s.sessions[j]);
                let sid = s1.sessions[j].meta.upload_id;
                assert(s.sessions[i].meta.upload_id == id);
                assert(sid != id);
                lemma_task_lookup_after_remove(s.tasks, id, sid);
                assert(task_of(s1, sid) == task_of(s, sid)) by {
                    assert(s1.tasks == (if has_task(s.tasks, id) {
                        s.tasks.remove(task_idx(s.tasks, id))
                    } else {
                        s.tasks
                    }));
                }
            }
            lemma_sweep_zero_rec(s1, now, i);
        } else {
            assert(age_of(s.sessions[i].meta.created_at, now) >= 0);
            assert(has_task(s.tasks, id) && is_terminal(task_of(s, id).status));
            assert forall|j: int| 0 <= j < i + 1 && j < s.sessions.len() implies has_task(
                s.tasks,
                (#[trigger] s.sessions[j]).meta.upload_id,
            ) && is_terminal(task_of(s, s.sessions[j].meta.upload_id).status) by {
            }
            lemma_sweep_zero_rec(s, now, i + 1);
        }
    }
}

/// Removing the task for `id` leaves the task looked up under any other
/// id unchanged.
proof fn lemma_task_lookup_after_remove(ts: Seq<TaskV>, id: Seq<char>, tid: Seq<char>)
    requires
        has_task(ts, tid),
        tid != id,
        forall|a: int, b: int| 0 <= a < b < ts.len() ==> ts[a].id != ts[b].id,
    ensures
        ({
            let post = if has_task(ts, id) {
                ts.remove(task_idx(ts, id))
            } else {
                ts
            };
            &&& has_task(post, tid)
            &&& post[task_idx(post, tid)] == ts[task_idx(ts, tid)]
        }),
{
    let post = if has_task(ts, id) {
        ts.remove(task_idx(ts, id))
    } else {
        ts
    };
    let m = task_idx(ts, tid);
    assert(ts[m].id == tid);
    if has_task(ts, id) {
        let k = task_idx(ts, id);
        assert(ts[k].id == id);
        assert(m != k);
        let m2 = if m < k {
            m
        } else {
            m - 1
        };
        assert(post[m2] == ts[m]);
        assert(has_task(post, tid));
        let m3 = task_idx(post, tid);
        assert(post[m3].id == tid);
        let m3o = if m3 < k {
            m3
        } else {
            m3 + 1
        };
        assert(post[m3] == ts[m3o]);
        assert(ts[m3o].id == tid);
        assert(m3o == m);
    }
}

/// A sweep whose age threshold exceeds every session's age removes
/// nothing and changes nothing.
pub proof fn lemma_sweep_large_removes_none(s: EngineV, thresh: int, now: i64, i: int)
    requires
        0 <= i,
        forall|j: int| 0 <= j < s.sessions.len() ==> age_of(
            (#[trigger] s.sessions[j]).meta.created_at,
            now,
        ) < thresh,
    ensures
        sweep_m(s, thresh, now, i).0 == s,
        sweep_m(s, thresh, now, i).1 == 0,
    decreases s.sessions.len() + 1 - i,
{
    if i < s.sessions.len() {
        assert(!stale_nonterminal(s, i, thresh, now));
        lemma_sweep_large_removes_none(s, thresh, now, i + 1);
    }
}

} // verus!

//! Durable bookkeeping of in-flight uploads: one session record per upload
//! (with its chunk artifacts) and one user-facing task record per upload.

use vstd::prelude::*;
use crate::models::{
    ChunkPart, PartV, SessionMeta, SessionRec, SessionV, TaskV, UploadTask,
};

verus! {

/// True when some session in `s` carries `id`.
pub open spec fn has_session(s: Seq<SessionV>, id: Seq<char>) -> bool {
    exists|i: int| 0 <= i < s.len() && s[i].meta.upload_id == id
}

/// Index of the session carrying `id` (meaningful under [`has_session`]
/// and id uniqueness).
pub open spec fn session_idx(s: Seq<SessionV>, id: Seq<char>) -> int {
    choose|i: int| 0 <= i < s.len() && s[i].meta.upload_id == id
}

/// No two sessions share an id.
pub open spec fn unique_session_ids(s: Seq<SessionV>) -> bool {
    forall|i: int, j: int| 0 <= i < j < s.len() ==> s[i].meta.upload_id != s[j].meta.upload_id
}

/// True when some task in `s` carries `id`.
pub open spec fn has_task(s: Seq<TaskV>, id: Seq<char>) -> bool {
    exists|i: int| 0 <= i < s.len() && s[i].id == id
}

/// Index of the task carrying `id`.
pub open spec fn task_idx(s: Seq<TaskV>, id: Seq<char>) -> int {
    choose|i: int| 0 <= i < s.len() && s[i].id == id
}

/// No two tasks share an id.
pub open spec fn unique_task_ids(s: Seq<TaskV>) -> bool {
    forall|i: int, j: int| 0 <= i < j < s.len() ==> s[i].id != s[j].id
}

/// True when a part with chunk index `idx` is present.
pub open spec fn has_part(s: Seq<PartV>, idx: u32) -> bool {
    exists|i: int| 0 <= i < s.len() && s[i].index == idx
}

/// Position of the part with chunk index `idx`.
pub open spec fn part_idx(s: Seq<PartV>, idx: u32) -> int {
    choose|i: int| 0 <= i < s.len() && s[i].index == idx
}

/// The bytes stored for chunk index `idx`.
pub open spec fn part_bytes(s: Seq<PartV>, idx: u32) -> Seq<u8> {
    s[part_idx(s, idx)].bytes
}

/// No two parts share a chunk index.
pub open spec fn unique_part_indices(s: Seq<PartV>) -> bool {
    forall|i: int, j: int| 0 <= i < j < s.len() ==> s[i].index != s[j].index
}

/// The parts after chunk `idx` is (re-)submitted with `bytes`: the existing
/// artifact for that index is overwritten, otherwise a new one is added.
pub open spec fn upsert_part(s: Seq<PartV>, idx: u32, bytes: Seq<u8>) -> Seq<PartV> {
    if has_part(s, idx) {
        s.update(part_idx(s, idx), PartV { index: idx, bytes })
    } else {
        s.push(PartV { index: idx, bytes })
    }
}

/// Store of session records and task records, keyed by upload id.
pub struct UploadStore {
    pub sessions: Vec<SessionRec>,
    pub tasks: Vec<UploadTask>,
}

impl UploadStore {
    /// View of the session records.
    pub open spec fn sessions_v(&self) -> Seq<SessionV> {
        self.sessions@.map_values(|s: SessionRec| s@)
    }

    /// View of the task records.
    pub open spec fn tasks_v(&self) -> Seq<TaskV> {
        self.tasks@.map_values(|t: UploadTask| t@)
    }

    /// Store well-formedness: unique ids on both tables, unique chunk
    /// indices within each session's artifacts.
    pub open spec fn wf(&self) -> bool {
        &&& unique_session_ids(self.sessions_v())
        &&& unique_task_ids(self.tasks_v())
        &&& forall|i: int| 0 <= i < self.sessions_v().len() ==> unique_part_indices(
            #[trigger] self.sessions_v()[i].parts,
        )
    }

    /// A fresh, empty store.
    pub fn new() -> (r: UploadStore)
        ensures
            r.sessions_v() == Seq::<SessionV>::empty(),
            r.tasks_v() == Seq::<TaskV>::empty(),
            r.wf(),
    {
        let r = UploadStore { sessions: Vec::new(), tasks: Vec::new() };
        proof {
            assert(r.sessions_v() =~= Seq::<SessionV>::empty());
            assert(r.tasks_v() =~= Seq::<TaskV>::empty());
        }
        r
    }

    /// Index of the session for `id`, if one exists.
    pub fn find_session(&self, id: &String) -> (r: Option<usize>)
        ensures
            match r {
                Some(i) => i < self.sessions_v().len() && self.sessions_v()[i as int].meta.upload_id
                    == id@,
                None => !has_session(self.sessions_v(), id@),
            },
    {
        let n = self.sessions.len();
        for i in 0..n
            invariant
                n == self.sessions.len(),
                forall|j: int| 0 <= j < i ==> #[trigger] self.sessions_v()[j].meta.upload_id
                    != id@,
        {
            if self.sessions[i].meta.upload_id == *id {
                return Some(i);
            }
        }
        None
    }

    /// Index of the task for `id`, if one exists.
    pub fn find_task(&self, id: &String) -> (r: Option<usize>)
        ensures
            match r {
                Some(i) => i < self.tasks_v().len() && self.tasks_v()[i as int].id == id@,
                None => !has_task(self.tasks_v(), id@),
            },
    {
        let n = self.tasks.len();
        for i in 0..n
            invariant
                n == self.tasks.len(),
                forall|j: int| 0 <= j < i ==> #[trigger] self.tasks_v()[j].id != id@,
        {
            if self.tasks[i].id == *id {
                return Some(i);
            }
        }
        None
    }

    /// Borrow of the session record at position `i`.
    pub fn session_at(&self, i: usize) -> (r: &SessionRec)
        requires
            i < self.sessions_v().len(),
        ensures
            r@ == self.sessions_v()[i as int],
    {
        &self.sessions[i]
    }

    /// Borrow of the task record at position `i`.
    pub fn task_at(&self, i: usize) -> (r: &UploadTask)
        requires
            i < self.tasks_v().len(),
        ensures
            r@ == self.tasks_v()[i as int],
    {
        &self.tasks[i]
    }

    /// Number of session records.
    pub fn session_count(&self) -> (r: usize)
        ensures
            r == self.sessions_v().len(),
    {
        self.sessions.len()
    }

    /// Number of task records.
    pub fn task_count(&self) -> (r: usize)
        ensures
            r == self.tasks_v().len(),
    {
        self.tasks.len()
    }

    /// Upserts the session record for `rec.meta.upload_id`: a previous
    /// record for the same id is overwritten whole, so a re-init never
    /// errors and starts from the given record.
    pub fn create(&mut self, rec: SessionRec)
        requires
            old(self).wf(),
            unique_part_indices(rec@.parts),
        ensures
            final(self).wf(),
            final(self).tasks_v() == old(self).tasks_v(),
            has_session(old(self).sessions_v(), rec.meta.upload_id@) ==> final(self).sessions_v()
                == old(self).sessions_v().update(
                session_idx(old(self).sessions_v(), rec.meta.upload_id@),
                rec@,
            ),
            !has_session(old(self).sessions_v(), rec.meta.upload_id@) ==> final(self).sessions_v()
                == old(self).sessions_v().push(rec@),
    {
        let ghost pre = self.sessions_v();
        let ghost recv = rec@;
        match self.find_session(&rec.meta.upload_id) {
            Some(i) => {
                proof {
                    assert(has_session(pre, recv.meta.upload_id));
                    let k = session_idx(pre, recv.meta.upload_id);
                    assert(pre[i as int].meta.upload_id == recv.meta.upload_id && pre[k].meta.upload_id
                        == recv.meta.upload_id);
                    assert(k == i as int);
                }
                self.sessions[i] = rec;
                proof {
                    assert(self.sessions_v() =~= pre.update(i as int, recv));
                }
            },
            None => {
                self.sessions.push(rec);
                proof {
                    assert(self.sessions_v() =~= pre.push(recv));
                    assert(unique_session_ids(self.sessions_v())) by {
                        assert(forall|j: int|
                            0 <= j < pre.len() ==> #[trigger] self.sessions_v()[j] == pre[j]);
                        assert(!has_session(pre, recv.meta.upload_id));
                    }
                }
            },
        }
    }

    /// Upserts the task record for `task.id`, overwriting a previous one.
    pub fn put_task(&mut self, task: UploadTask)
        requires
            old(self).wf(),
        ensures
            final(self).wf(),
            final(self).sessions_v() == old(self).sessions_v(),
            has_task(old(self).tasks_v(), task.id@) ==> final(self).tasks_v() == old(
                self,
            ).tasks_v().update(task_idx(old(self).tasks_v(), task.id@), task@),
            !has_task(old(self).tasks_v(), task.id@) ==> final(self).tasks_v() == old(
                self,
            ).tasks_v().push(task@),
    {
        let ghost pre = self.tasks_v();
        let ghost tv = task@;
        match self.find_task(&task.id) {
            Some(i) => {
                proof {
                    assert(has_task(pre, tv.id));
                    let k = task_idx(pre, tv.id);
                    assert(pre[i as int].id == tv.id && pre[k].id == tv.id);
                    assert(k == i as int);
                }
                self.tasks[i] = task;
                proof {
                    assert(self.tasks_v() =~= pre.update(i as int, tv));
                }
            },
            None => {
                self.tasks.push(task);
                proof {
                    assert(self.tasks_v() =~= pre.push(tv));
                    assert(unique_task_ids(self.tasks_v())) by {
                        assert(forall|j: int|
                            0 <= j < pre.len() ==> #[trigger] self.tasks_v()[j] == pre[j]);
                        assert(!has_task(pre, tv.id));
                    }
                }
            },
        }
    }

    /// Overwrites the task record at position `i`.
    pub fn set_task_at(&mut self, i: usize, task: UploadTask)
        requires
            old(self).wf(),
            i < old(self).tasks_v().len(),
            task@.id == old(self).tasks_v()[i as int].id,
        ensures
            final(self).wf(),
            final(self).sessions_v() == old(self).sessions_v(),
            final(self).tasks_v() == old(self).tasks_v().update(i as int, task@),
    {
        let ghost pre = self.tasks_v();
        let ghost tv = task@;
        self.tasks[i] = task;
        proof {
            assert(self.tasks_v() =~= pre.update(i as int, tv));
        }
    }

    /// Writes the artifact for chunk `part.index` of the session at
    /// position `i`, overwriting any earlier submission of that index.
    pub fn put_part(&mut self, i: usize, part: ChunkPart)
        requires
            old(self).wf(),
            i < old(self).sessions_v().len(),
        ensures
            final(self).wf(),
            final(self).tasks_v() == old(self).tasks_v(),
            final(self).sessions_v() == old(self).sessions_v().update(
                i as int,
                SessionV {
                    meta: old(self).sessions_v()[i as int].meta,
                    parts: upsert_part(
                        old(self).sessions_v()[i as int].parts,
                        part.index,
                        part.bytes@,
                    ),
                },
            ),
    {
        let ghost pre = self.sessions_v();
        let ghost partspre = pre[i as int].parts;
        let ghost pv = part@;
        let n = self.sessions[i].parts.len();
        let mut k: usize = 0;
        let mut found = false;
        while k < n && !found
            invariant
                i < self.sessions@.len(),
                n == self.sessions@[i as int].parts@.len(),
                self.sessions_v() == pre,
                partspre == pre[i as int].parts,
                pv == part@,
                k <= n,
                !found ==> forall|j: int| 0 <= j < k ==> #[trigger] partspre[j].index != pv.index,
                found ==> k < n && partspre[k as int].index == pv.index,
            decreases n - k + (if found { 0int } else { 1int }),
        {
            proof {
                assert(pre[i as int] == self.sessions@[i as int]@);
                assert(partspre[k as int] == self.sessions@[i as int].parts@[k as int]@);
            }
            let sess: &SessionRec = &self.sessions[i];
            let pk: &ChunkPart = &sess.parts[k];
            let eq = pk.index == part.index;
            proof {
                assert(pk@ == partspre[k as int]);
                assert(eq == (partspre[k as int].index == pv.index));
            }
            if eq {
                found = true;
            } else {
                k += 1;
            }
        }
        if found {
            proof {
                assert(has_part(partspre, pv.index));
                let m = part_idx(partspre, pv.index);
                assert(partspre[k as int].index == pv.index && partspre[m].index == pv.index);
                assert(unique_part_indices(partspre));
                assert(m == k as int);
            }
            self.sessions[i].parts[k] = part;
            proof {
                assert(self.sessions_v()[i as int].parts =~= upsert_part(
                    partspre,
                    pv.index,
                    pv.bytes,
                ));
                lemma_frame_sessions(pre, self.sessions_v(), i as int);
                assert(self.sessions_v() =~= pre.update(
                    i as int,
                    SessionV { meta: pre[i as int].meta, parts: upsert_part(partspre, pv.index, pv.bytes) },
                ));
            }
        } else {
            proof {
                assert(!has_part(partspre, pv.index));
            }
            self.sessions[i].parts.push(part);
            proof {
                assert(self.sessions_v()[i as int].parts =~= upsert_part(
                    partspre,
                    pv.index,
                    pv.bytes,
                ));
                assert(unique_part_indices(self.sessions_v()[i as int].parts)) by {
                    assert(forall|j: int|
                        0 <= j < partspre.len() ==> #[trigger] self.sessions_v()[i as int].parts[j]
                            == partspre[j]);
                }
                lemma_frame_sessions(pre, self.sessions_v(), i as int);
                assert(self.sessions_v() =~= pre.update(
                    i as int,
                    SessionV { meta: pre[i as int].meta, parts: upsert_part(partspre, pv.index, pv.bytes) },
                ));
            }
        }
    }

    /// Updates the progress fields of the session at position `i`.
    pub fn record_chunk(
        &mut self,
        i: usize,
        received_chunks: u32,
        received_bytes: u64,
        completed: bool,
    )
        requires
            old(self).wf(),
            i < old(self).sessions_v().len(),
        ensures
            final(self).wf(),
            final(self).tasks_v() == old(self).tasks_v(),
            final(self).sessions_v() == old(self).sessions_v().update(
                i as int,
                SessionV {
                    meta: SessionMeta {
                        received_chunks,
                        received_bytes,
                        completed,
                        ..old(self).sessions_v()[i as int].meta
                    },
                    parts: old(self).sessions_v()[i as int].parts,
                },
            ),
    {
        let ghost pre = self.sessions_v();
        self.sessions[i].meta.received_chunks = received_chunks;
        self.sessions[i].meta.received_bytes = received_bytes;
        self.sessions[i].meta.completed = completed;
        proof {
            assert(self.sessions_v()[i as int].parts =~= pre[i as int].parts);
            assert(self.sessions_v()[i as int] == SessionV {
                meta: SessionMeta {
                    received_chunks,
                    received_bytes,
                    completed,
                    ..pre[i as int].meta
                },
                parts: pre[i as int].parts,
            });
            lemma_frame_sessions(pre, self.sessions_v(), i as int);
            assert(self.sessions_v() =~= pre.update(i as int, self.sessions_v()[i as int]));
        }
    }

    /// Deletes all chunk artifacts of the session at position `i`.
    pub fn clear_parts(&mut self, i: usize)
        requires
            old(self).wf(),
            i < old(self).sessions_v().len(),
        ensures
            final(self).wf(),
            final(self).tasks_v() == old(self).tasks_v(),
            final(self).sessions_v() == old(self).sessions_v().update(
                i as int,
                SessionV {
                    meta: old(self).sessions_v()[i as int].meta,
                    parts: Seq::<PartV>::empty(),
                },
            ),
    {
        let ghost pre = self.sessions_v();
        self.sessions[i].parts.clear();
        proof {
            assert(self.sessions_v()[i as int].parts =~= Seq::<PartV>::empty());
            lemma_frame_sessions(pre, self.sessions_v(), i as int);
            assert(self.sessions_v() =~= pre.update(
                i as int,
                SessionV { meta: pre[i as int].meta, parts: Seq::<PartV>::empty() },
            ));
        }
    }

    /// Removes the session record at position `i`.
    pub fn remove_session_at(&mut self, i: usize) -> (r: SessionRec)
        requires
            old(self).wf(),
            i < old(self).sessions_v().len(),
        ensures
            final(self).wf(),
            final(self).tasks_v() == old(self).tasks_v(),
            r@ == old(self).sessions_v()[i as int],
            final(self).sessions_v() == old(self).sessions_v().remove(i as int),
    {
        let ghost pre = self.sessions_v();
        let r = self.sessions.remove(i);
        proof {
            assert(self.sessions_v() =~= pre.remove(i as int));
        }
        r
    }

    /// Inserts a session record at position `i`.
    pub fn insert_session_at(&mut self, i: usize, rec: SessionRec)
        requires
            old(self).wf(),
            i <= old(self).sessions_v().len(),
            !has_session(old(self).sessions_v(), rec.meta.upload_id@),
            unique_part_indices(rec@.parts),
        ensures
            final(self).wf(),
            final(self).tasks_v() == old(self).tasks_v(),
            final(self).sessions_v() == old(self).sessions_v().insert(i as int, rec@),
    {
        let ghost pre = self.sessions_v();
        let ghost recv = rec@;
        self.sessions.insert(i, rec);
        proof {
            assert(self.sessions_v() =~= pre.insert(i as int, recv));
            assert(unique_session_ids(self.sessions_v())) by {
                assert forall|a: int, b: int|
                    0 <= a < b < self.sessions_v().len() implies self.sessions_v()[a].meta.upload_id
                    != self.sessions_v()[b].meta.upload_id by {
                    let a0 = if a < i as int {
                        a
                    } else {
                        a - 1
                    };
                    let b0 = if b < i as int {
                        b
                    } else {
                        b - 1
                    };
                    if a == i as int {
                        assert(self.sessions_v()[a] == recv);
                        assert(self.sessions_v()[b] == pre[b0]);
                        assert(!has_session(pre, recv.meta.upload_id));
                    } else if b == i as int {
                        assert(self.sessions_v()[b] == recv);
                        assert(self.sessions_v()[a] == pre[a0]);
                        assert(!has_session(pre, recv.meta.upload_id));
                    } else {
                        assert(self.sessions_v()[a] == pre[a0]);
                        assert(self.sessions_v()[b] == pre[b0]);
                    }
                }
            }
            assert forall|a: int| 0 <= a < self.sessions_v().len() implies unique_part_indices(
                #[trigger] self.sessions_v()[a].parts,
            ) by {
                if a == i as int {
                    assert(self.sessions_v()[a] == recv);
                } else {
                    let a0 = if a < i as int {
                        a
                    } else {
                        a - 1
                    };
                    assert(self.sessions_v()[a] == pre[a0]);
                }
            }
        }
    }

    /// Removes the task record at position `i`.
    pub fn remove_task_at(&mut self, i: usize) -> (r: UploadTask)
        requires
            old(self).wf(),
            i < old(self).tasks_v().len(),
        ensures
            final(self).wf(),
            final(self).sessions_v() == old(self).sessions_v(),
            r@ == old(self).tasks_v()[i as int],
            final(self).tasks_v() == old(self).tasks_v().remove(i as int),
    {
        let ghost pre = self.tasks_v();
        let r = self.tasks.remove(i);
        proof {
            assert(self.tasks_v() =~= pre.remove(i as int));
        }
        r
    }
}

/// If two session sequences agree everywhere but at `i`, updating the first
/// at `i` with the second's entry makes them equal elementwise.
proof fn lemma_frame_sessions(pre: Seq<SessionV>, post: Seq<SessionV>, i: int)
    requires
        pre.len() == post.len(),
        0 <= i < pre.len(),
        forall|j: int| 0 <= j < pre.len() && j != i ==> post[j] == pre[j],
    ensures
        post =~= pre.update(i, post[i]),
{
}

} // verus!

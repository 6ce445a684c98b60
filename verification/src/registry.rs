//! Process-wide registry of cooperative cancellation handles, one per
//! active upload.  Purely in-memory and freshly constructible, so tests
//! and independent engine instances stay isolated.

use vstd::prelude::*;

verus! {

/// One cancellation handle: a session id and whether cancellation was
/// signalled for it.
pub struct CancellationHandle {
    pub id: String,
    pub cancelled: bool,
}

/// Mathematical value of a [`CancellationHandle`].
pub ghost struct HandleV {
    pub id: Seq<char>,
    pub cancelled: bool,
}

impl View for CancellationHandle {
    type V = HandleV;

    open spec fn view(&self) -> HandleV {
        HandleV { id: self.id@, cancelled: self.cancelled }
    }
}

/// True when some handle in `s` carries `id`.
pub open spec fn has_handle(s: Seq<HandleV>, id: Seq<char>) -> bool {
    exists|i: int| 0 <= i < s.len() && s[i].id == id
}

/// Index of the handle carrying `id` (meaningful only under [`has_handle`]
/// and id uniqueness).
pub open spec fn handle_idx(s: Seq<HandleV>, id: Seq<char>) -> int {
    choose|i: int| 0 <= i < s.len() && s[i].id == id
}

/// No two handles share an id.
pub open spec fn unique_handle_ids(s: Seq<HandleV>) -> bool {
    forall|i: int, j: int| 0 <= i < j < s.len() ==> s[i].id != s[j].id
}

/// Registry of the cancellation handles of all active uploads.
pub struct CancellationRegistry {
    pub handles: Vec<CancellationHandle>,
}

impl View for CancellationRegistry {
    type V = Seq<HandleV>;

    open spec fn view(&self) -> Seq<HandleV> {
        self.handles@.map_values(|h: CancellationHandle| h@)
    }
}

impl CancellationRegistry {
    /// Registry well-formedness: ids are unique.
    pub open spec fn wf(&self) -> bool {
        unique_handle_ids(self@)
    }

    /// A fresh registry with no handles.
    pub fn new() -> (r: CancellationRegistry)
        ensures
            r@ == Seq::<HandleV>::empty(),
            r.wf(),
    {
        let r = CancellationRegistry { handles: Vec::new() };
        proof {
            assert(r@ =~= Seq::<HandleV>::empty());
        }
        r
    }

    /// Index of the handle for `id`, if one exists.
    fn find_idx(&self, id: &String) -> (r: Option<usize>)
        ensures
            match r {
                Some(i) => i < self@.len() && self@[i as int].id == id@,
                None => !has_handle(self@, id@),
            },
    {
        let n = self.handles.len();
        for i in 0..n
            invariant
                n == self.handles.len(),
                forall|j: int| 0 <= j < i ==> self@[j].id != id@,
        {
            if self.handles[i].id == *id {
                return Some(i);
            }
        }
        None
    }

    /// True when `id` has a handle whose cancellation was signalled.
    pub fn is_cancelled(&self, id: &String) -> (r: bool)
        requires
            self.wf(),
        ensures
            r == (has_handle(self@, id@) && self@[handle_idx(self@, id@)].cancelled),
    {
        match self.find_idx(id) {
            Some(i) => {
                proof {
                    assert(has_handle(self@, id@));
                    let k = handle_idx(self@, id@);
                    assert(self@[i as int].id == id@ && self@[k].id == id@);
                    assert(k == i as int);
                }
                self.handles[i].cancelled
            },
            None => false,
        }
    }

    /// True when `id` has a handle, signalled or not.
    pub fn is_registered(&self, id: &String) -> (r: bool)
        ensures
            r == has_handle(self@, id@),
    {
        match self.find_idx(id) {
            Some(i) => {
                proof {
                    assert(has_handle(self@, id@));
                }
                true
            },
            None => false,
        }
    }

    /// Creates (or resets) the handle for `id`.  Called at session init;
    /// re-initialising an id leaves it with a fresh, unsignalled handle.
    pub fn register(&mut self, id: String)
        requires
            old(self).wf(),
        ensures
            final(self).wf(),
            has_handle(final(self)@, id@),
            has_handle(old(self)@, id@) ==> final(self)@ == old(self)@.update(
                handle_idx(old(self)@, id@),
                HandleV { id: id@, cancelled: false },
            ),
            !has_handle(old(self)@, id@) ==> final(self)@ == old(self)@.push(
                HandleV { id: id@, cancelled: false },
            ),
    {
        let ghost pre = self@;
        match self.find_idx(&id) {
            Some(i) => {
                proof {
                    assert(has_handle(pre, id@));
                    let k = handle_idx(pre, id@);
                    assert(pre[i as int].id == id@ && pre[k].id == id@);
                    assert(k == i as int);
                }
                let ghost gid = id@;
                self.handles[i] = CancellationHandle { id, cancelled: false };
                proof {
                    assert(self@ =~= pre.update(i as int, HandleV { id: gid, cancelled: false }));
                    assert(has_handle(self@, gid)) by {
                        assert(self@[i as int].id == gid);
                    }
                }
            },
            None => {
                let ghost gid = id@;
                self.handles.push(CancellationHandle { id, cancelled: false });
                proof {
                    assert(self@ =~= pre.push(HandleV { id: gid, cancelled: false }));
                    assert(has_handle(self@, gid)) by {
                        assert(self@[pre.len() as int].id == gid);
                    }
                    assert(unique_handle_ids(self@)) by {
                        assert(forall|j: int|
                            0 <= j < pre.len() ==> #[trigger] self@[j].id == pre[j].id);
                        assert(!has_handle(pre, gid));
                    }
                }
            },
        }
    }

    /// Marks the handle for `id` cancelled; returns whether one existed.
    pub fn signal(&mut self, id: &String) -> (r: bool)
        requires
            old(self).wf(),
        ensures
            final(self).wf(),
            r == has_handle(old(self)@, id@),
            r ==> final(self)@ == old(self)@.update(
                handle_idx(old(self)@, id@),
                HandleV { id: id@, cancelled: true },
            ),
            !r ==> final(self)@ == old(self)@,
    {
        let ghost pre = self@;
        match self.find_idx(id) {
            Some(i) => {
                proof {
                    assert(has_handle(pre, id@));
                    let k = handle_idx(pre, id@);
                    assert(pre[i as int].id == id@ && pre[k].id == id@);
                    assert(k == i as int);
                }
                self.handles[i] = CancellationHandle { id: id.clone(), cancelled: true };
                proof {
                    assert(self@ =~= pre.update(i as int, HandleV { id: id@, cancelled: true }));
                }
                true
            },
            None => false,
        }
    }

    /// Removes the handle for `id`; returns whether one existed.
    pub fn clear(&mut self, id: &String) -> (r: bool)
        requires
            old(self).wf(),
        ensures
            final(self).wf(),
            r == has_handle(old(self)@, id@),
            r ==> final(self)@ == old(self)@.remove(handle_idx(old(self)@, id@)),
            !r ==> final(self)@ == old(self)@,
            !has_handle(final(self)@, id@),
    {
        let ghost pre = self@;
        match self.find_idx(id) {
            Some(i) => {
                proof {
                    assert(has_handle(pre, id@));
                    let k = handle_idx(pre, id@);
                    assert(pre[i as int].id == id@ && pre[k].id == id@);
                    assert(k == i as int);
                }
                self.handles.remove(i);
                proof {
                    assert(self@ =~= pre.remove(i as int));
                    assert forall|j: int| 0 <= j < self@.len() implies self@[j].id != id@ by {
                        if j < i as int {
                            assert(self@[j] == pre[j]);
                        } else {
                            assert(self@[j] == pre[j + 1]);
                        }
                    }
                }
                true
            },
            None => false,
        }
    }

    /// Number of handles currently registered.
    pub fn len(&self) -> (r: usize)
        ensures
            r == self@.len(),
    {
        self.handles.len()
    }

    /// Id of the oldest handle, if any.  Lets a caller drain the registry
    /// one handle at a time (as cancel-all does).
    pub fn first_id(&self) -> (r: Option<String>)
        ensures
            match r {
                Some(s) => self@.len() > 0 && s@ == self@[0].id,
                None => self@.len() == 0,
            },
    {
        if self.handles.len() == 0 {
            None
        } else {
            Some(self.handles[0].id.clone())
        }
    }

    /// Removes and returns the oldest handle, if any.  Lets a caller drain
    /// the registry one handle at a time (as cancel-all does).
    pub fn take_first(&mut self) -> (r: Option<CancellationHandle>)
        requires
            old(self).wf(),
        ensures
            final(self).wf(),
            match r {
                Some(h) => old(self)@.len() > 0 && h@ == old(self)@[0] && final(self)@ == old(
                    self,
                )@.drop_first(),
                None => old(self)@.len() == 0 && final(self)@ == old(self)@,
            },
    {
        let ghost pre = self@;
        if self.handles.len() == 0 {
            return None;
        }
        let h = self.handles.remove(0);
        proof {
            assert(self@ =~= pre.drop_first());
        }
        Some(h)
    }
}

} // verus!

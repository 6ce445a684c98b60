//! Lifecycle events and the in-process event bus.
//!
//! The bus is a bounded-buffer multicast: every publish is delivered to every
//! current subscriber; a subscriber that joins later never sees earlier
//! events; when a subscriber's buffer is full the oldest undelivered event is
//! dropped, so publishers are never blocked by slow consumers.

use vstd::prelude::*;

verus! {

/// One lifecycle transition of an upload.  Transient: never persisted,
/// never replayed to late subscribers.
#[derive(Clone, Debug)]
pub enum WsEvent {
    /// Upload session initialized.
    UploadStarted { upload_id: String, filename: String, album: String, total_bytes: u64, total_chunks: u32 },
    /// Individual chunk received.
    ChunkReceived { upload_id: String, chunk_index: u32, total_chunks: u32 },
    /// Overall upload progress (percentage).
    UploadProgress { upload_id: String, filename: String, received_bytes: u64, total_bytes: u64, percent: u8 },
    /// All chunks received, starting to merge.
    ChunksMerging { upload_id: String, filename: String },
    /// File saved to disk.
    FileSaved { upload_id: String, filename: String, path: String, size: u64 },
    /// Derivative conversion in progress.
    HeicConverting { upload_id: String, filename: String },
    /// Derivative conversion result.
    HeicConverted { upload_id: String, original: String, converted: String, success: bool },
    /// Saving to the catalog.
    DatabaseSaving { upload_id: String, filename: String },
    /// Upload completed successfully.
    UploadComplete { upload_id: String, filename: String, album: String, size: u64 },
    /// Upload failed; `stage` names the step that failed.
    UploadError { upload_id: String, filename: String, error: String, stage: String },
    /// Cloud sync triggered after upload.
    CloudSyncTriggered { upload_id: String, filename: String },
    /// Cloud sync started.
    CloudSyncStarted,
    /// Cloud sync completed.
    CloudSyncComplete { success: bool },
}

/// Mathematical value of a [`WsEvent`].
pub ghost enum EventV {
    UploadStarted { upload_id: Seq<char>, filename: Seq<char>, album: Seq<char>, total_bytes: u64, total_chunks: u32 },
    ChunkReceived { upload_id: Seq<char>, chunk_index: u32, total_chunks: u32 },
    UploadProgress { upload_id: Seq<char>, filename: Seq<char>, received_bytes: u64, total_bytes: u64, percent: u8 },
    ChunksMerging { upload_id: Seq<char>, filename: Seq<char> },
    FileSaved { upload_id: Seq<char>, filename: Seq<char>, path: Seq<char>, size: u64 },
    HeicConverting { upload_id: Seq<char>, filename: Seq<char> },
    HeicConverted { upload_id: Seq<char>, original: Seq<char>, converted: Seq<char>, success: bool },
    DatabaseSaving { upload_id: Seq<char>, filename: Seq<char> },
    UploadComplete { upload_id: Seq<char>, filename: Seq<char>, album: Seq<char>, size: u64 },
    UploadError { upload_id: Seq<char>, filename: Seq<char>, error: Seq<char>, stage: Seq<char> },
    CloudSyncTriggered { upload_id: Seq<char>, filename: Seq<char> },
    CloudSyncStarted,
    CloudSyncComplete { success: bool },
}

impl View for WsEvent {
    type V = EventV;

    open spec fn view(&self) -> EventV {
        match self {
            WsEvent::UploadStarted { upload_id, filename, album, total_bytes, total_chunks } => EventV::UploadStarted {
                upload_id: upload_id@,
                filename: filename@,
                album: album@,
                total_bytes: *total_bytes,
                total_chunks: *total_chunks,
            },
            WsEvent::ChunkReceived { upload_id, chunk_index, total_chunks } => EventV::ChunkReceived {
                upload_id: upload_id@,
                chunk_index: *chunk_index,
                total_chunks: *total_chunks,
            },
            WsEvent::UploadProgress { upload_id, filename, received_bytes, total_bytes, percent } => EventV::UploadProgress {
                upload_id: upload_id@,
                filename: filename@,
                received_bytes: *received_bytes,
                total_bytes: *total_bytes,
                percent: *percent,
            },
            WsEvent::ChunksMerging { upload_id, filename } => EventV::ChunksMerging {
                upload_id: upload_id@,
                filename: filename@,
            },
            WsEvent::FileSaved { upload_id, filename, path, size } => EventV::FileSaved {
                upload_id: upload_id@,
                filename: filename@,
                path: path@,
                size: *size,
            },
            WsEvent::HeicConverting { upload_id, filename } => EventV::HeicConverting {
                upload_id: upload_id@,
                filename: filename@,
            },
            WsEvent::HeicConverted { upload_id, original, converted, success } => EventV::HeicConverted {
                upload_id: upload_id@,
                original: original@,
                converted: converted@,
                success: *success,
            },
            WsEvent::DatabaseSaving { upload_id, filename } => EventV::DatabaseSaving {
                upload_id: upload_id@,
                filename: filename@,
            },
            WsEvent::UploadComplete { upload_id, filename, album, size } => EventV::UploadComplete {
                upload_id: upload_id@,
                filename: filename@,
                album: album@,
                size: *size,
            },
            WsEvent::UploadError { upload_id, filename, error, stage } => EventV::UploadError {
                upload_id: upload_id@,
                filename: filename@,
                error: error@,
                stage: stage@,
            },
            WsEvent::CloudSyncTriggered { upload_id, filename } => EventV::CloudSyncTriggered {
                upload_id: upload_id@,
                filename: filename@,
            },
            WsEvent::CloudSyncStarted => EventV::CloudSyncStarted,
            WsEvent::CloudSyncComplete { success } => EventV::CloudSyncComplete { success: *success },
        }
    }
}

/// A copy of `e` with the same mathematical value, used to hand one event
/// to several subscriber buffers.
pub fn duplicate_event(e: &WsEvent) -> (r: WsEvent)
    ensures
        r@ == e@,
{
    match e {
        WsEvent::UploadStarted { upload_id, filename, album, total_bytes, total_chunks } => WsEvent::UploadStarted {
            upload_id: upload_id.clone(),
            filename: filename.clone(),
            album: album.clone(),
            total_bytes: *total_bytes,
            total_chunks: *total_chunks,
        },
        WsEvent::ChunkReceived { upload_id, chunk_index, total_chunks } => WsEvent::ChunkReceived {
            upload_id: upload_id.clone(),
            chunk_index: *chunk_index,
            total_chunks: *total_chunks,
        },
        WsEvent::UploadProgress { upload_id, filename, received_bytes, total_bytes, percent } => WsEvent::UploadProgress {
            upload_id: upload_id.clone(),
            filename: filename.clone(),
            received_bytes: *received_bytes,
            total_bytes: *total_bytes,
            percent: *percent,
        },
        WsEvent::ChunksMerging { upload_id, filename } => WsEvent::ChunksMerging {
            upload_id: upload_id.clone(),
            filename: filename.clone(),
        },
        WsEvent::FileSaved { upload_id, filename, path, size } => WsEvent::FileSaved {
            upload_id: upload_id.clone(),
            filename: filename.clone(),
            path: path.clone(),
            size: *size,
        },
        WsEvent::HeicConverting { upload_id, filename } => WsEvent::HeicConverting {
            upload_id: upload_id.clone(),
            filename: filename.clone(),
        },
        WsEvent::HeicConverted { upload_id, original, converted, success } => WsEvent::HeicConverted {
            upload_id: upload_id.clone(),
            original: original.clone(),
            converted: converted.clone(),
            success: *success,
        },
        WsEvent::DatabaseSaving { upload_id, filename } => WsEvent::DatabaseSaving {
            upload_id: upload_id.clone(),
            filename: filename.clone(),
        },
        WsEvent::UploadComplete { upload_id, filename, album, size } => WsEvent::UploadComplete {
            upload_id: upload_id.clone(),
            filename: filename.clone(),
            album: album.clone(),
            size: *size,
        },
        WsEvent::UploadError { upload_id, filename, error, stage } => WsEvent::UploadError {
            upload_id: upload_id.clone(),
            filename: filename.clone(),
            error: error.clone(),
            stage: stage.clone(),
        },
        WsEvent::CloudSyncTriggered { upload_id, filename } => WsEvent::CloudSyncTriggered {
            upload_id: upload_id.clone(),
            filename: filename.clone(),
        },
        WsEvent::CloudSyncStarted => WsEvent::CloudSyncStarted,
        WsEvent::CloudSyncComplete { success } => WsEvent::CloudSyncComplete { success: *success },
    }
}

/// Mathematical value of an [`EventBus`].
pub ghost struct BusV {
    pub capacity: usize,
    pub subs: Seq<Seq<EventV>>,
}

/// What one subscriber's buffer holds after an event is delivered to it:
/// the event is appended; if the buffer was full, the oldest entry goes.
pub open spec fn deliver(buf: Seq<EventV>, e: EventV, cap: usize) -> Seq<EventV> {
    if buf.len() >= cap {
        buf.drop_first().push(e)
    } else {
        buf.push(e)
    }
}

/// The bus after `e` was published: every subscriber's buffer sees
/// [`deliver`]; nothing else changes.
pub open spec fn bus_publish(b: BusV, e: EventV) -> BusV {
    BusV { capacity: b.capacity, subs: b.subs.map_values(|buf: Seq<EventV>| deliver(buf, e, b.capacity)) }
}

/// Bounded multicast publish/subscribe for [`WsEvent`]s.
pub struct EventBus {
    pub capacity: usize,
    pub subs: Vec<Vec<WsEvent>>,
}

impl View for EventBus {
    type V = BusV;

    open spec fn view(&self) -> BusV {
        BusV {
            capacity: self.capacity,
            subs: self.subs@.map_values(|b: Vec<WsEvent>| b@.map_values(|e: WsEvent| e@)),
        }
    }
}

impl EventBus {
    /// Bus well-formedness: positive capacity, no buffer over capacity.
    pub open spec fn wf(&self) -> bool {
        &&& self@.capacity >= 1
        &&& forall|i: int| 0 <= i < self@.subs.len() ==> #[trigger] self@.subs[i].len() <= self@.capacity
    }

    /// A fresh bus with no subscribers; each subscriber's buffer will hold
    /// at most `capacity` undelivered events.
    pub fn new(capacity: usize) -> (r: EventBus)
        requires
            capacity >= 1,
        ensures
            r.wf(),
            r@.capacity == capacity,
            r@.subs == Seq::<Seq<EventV>>::empty(),
    {
        let r = EventBus { capacity, subs: Vec::new() };
        proof {
            assert(r@.subs =~= Seq::<Seq<EventV>>::empty());
        }
        r
    }

    /// Number of current subscribers.
    pub fn subscriber_count(&self) -> (r: usize)
        ensures
            r == self@.subs.len(),
    {
        self.subs.len()
    }

    /// Adds a subscriber with an empty buffer and returns its key.  A new
    /// subscriber never sees events published before it joined.
    pub fn subscribe(&mut self) -> (r: usize)
        requires
            old(self).wf(),
        ensures
            final(self).wf(),
            r == old(self)@.subs.len(),
            final(self)@.capacity == old(self)@.capacity,
            final(self)@.subs == old(self)@.subs.push(Seq::<EventV>::empty()),
    {
        let r = self.subs.len();
        self.subs.push(Vec::new());
        proof {
            assert(self@.subs =~~= old(self)@.subs.push(Seq::<EventV>::empty()));
        }
        r
    }

    /// Publishes `e` to every current subscriber.  Never fails and never
    /// blocks: a full buffer drops its oldest event instead.
    pub fn publish(&mut self, e: WsEvent)
        requires
            old(self).wf(),
        ensures
            final(self).wf(),
            final(self)@ == bus_publish(old(self)@, e@),
    {
        let ghost pre = self@;
        let n = self.subs.len();
        for i in 0..n
            invariant
                n == self.subs.len(),
                self@.capacity == pre.capacity,
                self@.subs.len() == pre.subs.len(),
                pre.capacity >= 1,
                forall|j: int| 0 <= j < pre.subs.len() ==> #[trigger] pre.subs[j].len()
                    <= pre.capacity,
                forall|j: int| 0 <= j < i ==> #[trigger] self@.subs[j] == deliver(
                    pre.subs[j],
                    e@,
                    pre.capacity,
                ),
                forall|j: int| i <= j < n ==> #[trigger] self@.subs[j] == pre.subs[j],
        {
            let ghost bufpre = self@.subs[i as int];
            let ghost snap = self.subs@;
            let ghost presubs = self@.subs;
            if self.subs[i].len() >= self.capacity {
                self.subs[i].remove(0);
                proof {
                    assert(self@.subs[i as int] =~= bufpre.drop_first());
                    assert(forall|j: int|
                        0 <= j < snap.len() && j != i ==> self.subs@[j] == snap[j]);
                }
            }
            self.subs[i].push(duplicate_event(&e));
            proof {
                assert(self@.subs[i as int] =~= deliver(bufpre, e@, pre.capacity));
                assert(forall|j: int| 0 <= j < snap.len() && j != i ==> self.subs@[j] == snap[j]);
                assert forall|j: int| 0 <= j < i + 1 implies #[trigger] self@.subs[j] == deliver(
                    pre.subs[j],
                    e@,
                    pre.capacity,
                ) by {
                    if j != i {
                        assert(self.subs@[j] == snap[j]);
                        assert(presubs[j] == deliver(pre.subs[j], e@, pre.capacity));
                        assert(self@.subs[j] == presubs[j]);
                    }
                }
                assert forall|j: int| i + 1 <= j < n implies #[trigger] self@.subs[j]
                    == pre.subs[j] by {
                    assert(self.subs@[j] == snap[j]);
                    assert(presubs[j] == pre.subs[j]);
                    assert(self@.subs[j] == presubs[j]);
                }
            }
        }
        proof {
            assert(self@.subs =~~= bus_publish(pre, e@).subs);
            assert forall|j: int| 0 <= j < self@.subs.len() implies #[trigger] self@.subs[j].len()
                <= self@.capacity by {
                assert(self@.subs[j] == deliver(pre.subs[j], e@, pre.capacity));
            }
        }
    }

    /// Takes the oldest undelivered event for subscriber `sub`, if any.
    pub fn poll(&mut self, sub: usize) -> (r: Option<WsEvent>)
        requires
            old(self).wf(),
        ensures
            final(self).wf(),
            final(self)@.capacity == old(self)@.capacity,
            match r {
                None => (sub >= old(self)@.subs.len() || old(self)@.subs[sub as int].len() == 0)
                    && final(self)@ == old(self)@,
                Some(ev) => sub < old(self)@.subs.len() && old(self)@.subs[sub as int].len() > 0
                    && ev@ == old(self)@.subs[sub as int][0] && final(self)@.subs == old(
                    self,
                )@.subs.update(sub as int, old(self)@.subs[sub as int].drop_first()),
            },
    {
        if sub >= self.subs.len() {
            return None;
        }
        if self.subs[sub].len() == 0 {
            return None;
        }
        let ghost pre = self@;
        let ev = self.subs[sub].remove(0);
        proof {
            assert(self@.subs[sub as int] =~= pre.subs[sub as int].drop_first());
            assert(self@.subs =~= pre.subs.update(sub as int, pre.subs[sub as int].drop_first()));
        }
        Some(ev)
    }
}

} // verus!

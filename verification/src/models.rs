//! Data model of the upload engine: task status, the durable session and
//! task records, chunk artifacts, and the record committed to the catalog.

use vstd::prelude::*;

verus! {

/// User-facing status of an upload task.
///
/// `Completed`, `Cancelled` and `Error` are terminal: once a task carries one
/// of them it never changes again (see the engine's contracts).
#[derive(Clone, Copy, Debug, PartialEq, Eq, Structural)]
pub enum TaskStatus {
    Pending,
    Uploading,
    Completed,
    Cancelled,
    Error,
}

/// Status of a sync run against the remote store.
#[derive(Clone, Copy, Debug, PartialEq, Eq, Structural)]
pub enum SyncStatus {
    Pending,
    Synced,
    Failed,
}

/// The wire spelling of each task status.
pub open spec fn status_str(s: TaskStatus) -> Seq<char> {
    match s {
        TaskStatus::Pending => "pending"@,
        TaskStatus::Uploading => "uploading"@,
        TaskStatus::Completed => "completed"@,
        TaskStatus::Cancelled => "cancelled"@,
        TaskStatus::Error => "error"@,
    }
}

/// True of the statuses a task can never leave.
pub open spec fn is_terminal(s: TaskStatus) -> bool {
    match s {
        TaskStatus::Completed | TaskStatus::Cancelled | TaskStatus::Error => true,
        TaskStatus::Pending | TaskStatus::Uploading => false,
    }
}

impl TaskStatus {
    /// Lower-case name of the status, as stored and serialized.
    pub fn as_str(&self) -> (r: &'static str)
        ensures
            r@ == status_str(*self),
    {
        match self {
            TaskStatus::Pending => "pending",
            TaskStatus::Uploading => "uploading",
            TaskStatus::Completed => "completed",
            TaskStatus::Cancelled => "cancelled",
            TaskStatus::Error => "error",
        }
    }
}

/// Durable record of one in-flight chunked upload session.
///
/// `received_chunks` is the highest acknowledged chunk index plus one
/// (zero before any chunk arrived); `completed` holds exactly when
/// `received_chunks >= total_chunks`.
pub struct UploadChunk {
    pub upload_id: String,
    pub filename: String,
    pub album: String,
    pub total_size: u64,
    pub received_chunks: u32,
    pub total_chunks: u32,
    pub received_bytes: u64,
    pub completed: bool,
    pub created_at: i64,
    pub temp_path: String,
}

/// Mathematical value of an [`UploadChunk`].
pub ghost struct SessionMeta {
    pub upload_id: Seq<char>,
    pub filename: Seq<char>,
    pub album: Seq<char>,
    pub total_size: u64,
    pub received_chunks: u32,
    pub total_chunks: u32,
    pub received_bytes: u64,
    pub completed: bool,
    pub created_at: i64,
    pub temp_path: Seq<char>,
}

impl View for UploadChunk {
    type V = SessionMeta;

    open spec fn view(&self) -> SessionMeta {
        SessionMeta {
            upload_id: self.upload_id@,
            filename: self.filename@,
            album: self.album@,
            total_size: self.total_size,
            received_chunks: self.received_chunks,
            total_chunks: self.total_chunks,
            received_bytes: self.received_bytes,
            completed: self.completed,
            created_at: self.created_at,
            temp_path: self.temp_path@,
        }
    }
}

/// One chunk artifact: the bytes last submitted for a chunk index.
pub struct ChunkPart {
    pub index: u32,
    pub bytes: Vec<u8>,
}

/// Mathematical value of a [`ChunkPart`].
pub ghost struct PartV {
    pub index: u32,
    pub bytes: Seq<u8>,
}

impl View for ChunkPart {
    type V = PartV;

    open spec fn view(&self) -> PartV {
        PartV { index: self.index, bytes: self.bytes@ }
    }
}

/// A session together with the chunk artifacts under its temp location.
pub struct SessionRec {
    pub meta: UploadChunk,
    pub parts: Vec<ChunkPart>,
}

/// Mathematical value of a [`SessionRec`].
pub ghost struct SessionV {
    pub meta: SessionMeta,
    pub parts: Seq<PartV>,
}

impl View for SessionRec {
    type V = SessionV;

    open spec fn view(&self) -> SessionV {
        SessionV { meta: self.meta@, parts: self.parts@.map_values(|p: ChunkPart| p@) }
    }
}

/// Durable status projection of one upload, shown to users.
pub struct UploadTask {
    pub id: String,
    pub filename: String,
    pub album: String,
    pub total_bytes: u64,
    pub received_bytes: u64,
    pub status: TaskStatus,
    pub created_at: i64,
    pub updated_at: i64,
    pub cancelled: bool,
}

/// Mathematical value of an [`UploadTask`].
pub ghost struct TaskV {
    pub id: Seq<char>,
    pub filename: Seq<char>,
    pub album: Seq<char>,
    pub total_bytes: u64,
    pub received_bytes: u64,
    pub status: TaskStatus,
    pub created_at: i64,
    pub updated_at: i64,
    pub cancelled: bool,
}

impl View for UploadTask {
    type V = TaskV;

    open spec fn view(&self) -> TaskV {
        TaskV {
            id: self.id@,
            filename: self.filename@,
            album: self.album@,
            total_bytes: self.total_bytes,
            received_bytes: self.received_bytes,
            status: self.status,
            created_at: self.created_at,
            updated_at: self.updated_at,
            cancelled: self.cancelled,
        }
    }
}

/// Record handed to the catalog after a successful merge.
///
/// `bytes` are the merged artifact's exact contents, `size` their length,
/// and `content_hash` the hex rendering of their digest.
pub struct FinalizedArtifact {
    pub filename: String,
    pub album: String,
    pub content_hash: String,
    pub size: u64,
    pub storage_path: String,
    pub has_derivative: bool,
    pub bytes: Vec<u8>,
}

/// Mathematical value of a [`FinalizedArtifact`].
pub ghost struct ArtifactV {
    pub filename: Seq<char>,
    pub album: Seq<char>,
    pub content_hash: Seq<char>,
    pub size: u64,
    pub storage_path: Seq<char>,
    pub has_derivative: bool,
    pub bytes: Seq<u8>,
}

impl View for FinalizedArtifact {
    type V = ArtifactV;

    open spec fn view(&self) -> ArtifactV {
        ArtifactV {
            filename: self.filename@,
            album: self.album@,
            content_hash: self.content_hash@,
            size: self.size,
            storage_path: self.storage_path@,
            has_derivative: self.has_derivative,
            bytes: self.bytes@,
        }
    }
}

/// Why an engine operation refused to act.
#[derive(Clone, Copy, Debug, PartialEq, Eq, Structural)]
pub enum UploadError {
    /// The session id is unknown.
    NotFound,
    /// A cooperative cancellation was observed at a checkpoint.
    Cancelled,
    /// A chunk artifact needed by the merge is missing.
    IOFailure,
}

/// Progress snapshot returned by chunk submission and status queries.
pub struct UploadStatus {
    pub upload_id: String,
    pub received_chunks: u32,
    pub total_chunks: u32,
    pub complete: bool,
}

/// Summary returned by a successful finalize.
pub struct FinalizeReceipt {
    pub filename: String,
    pub album: String,
    pub size: u64,
}

} // verus!

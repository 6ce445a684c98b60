//! Request and response shapes of the transport surface, and the little
//! computations that fill them.

use vstd::prelude::*;
use crate::models::UploadTask;

verus! {

/// Body of an upload-init request.
pub struct InitUploadRequest {
    pub filename: String,
    pub album: String,
    pub total_size: u64,
    pub total_chunks: u32,
}

/// Body of an upload-init response.
pub struct InitUploadResponse {
    pub upload_id: String,
}

/// Query parameters of a chunk submission.
pub struct UploadChunkQuery {
    pub upload_id: String,
    pub chunk_index: u32,
}

/// One row of the active-uploads listing.
pub struct UploadStatusResponse {
    pub id: String,
    pub filename: String,
    pub album: String,
    pub progress_percent: u8,
    pub received_bytes: u64,
    pub total_bytes: u64,
    pub status: String,
}

/// Body of an admin login request.
pub struct LoginRequest {
    pub password: String,
}

/// Body of an admin login response.
pub struct LoginResponse {
    pub token: String,
    pub expires_at: String,
}

/// Admin statistics.
pub struct AdminStats {
    pub total_photos: i64,
    pub total_size: i64,
    pub album_count: i32,
    pub disk_available: u64,
}

/// Body of a configuration update request.
pub struct UpdateConfigRequest {
    pub storage_path: Option<String>,
    pub server_port: Option<u16>,
}

/// Query parameters of the photo listing.
pub struct ListPhotosQuery {
    pub page: Option<i32>,
    pub limit: Option<i32>,
    pub album: Option<String>,
}

/// One row of the photo listing.
pub struct PhotoItem {
    pub id: i64,
    pub filename: String,
    pub album: String,
    pub size_bytes: i64,
    pub width: Option<i32>,
    pub height: Option<i32>,
    pub uploaded_at: String,
    pub thumbnail_url: Option<String>,
}

/// Body of the photo listing response.
pub struct ListPhotosResponse {
    pub photos: Vec<PhotoItem>,
    pub total: i64,
    pub page: i32,
    pub limit: i32,
}

/// The user-facing progress of a task: received over total bytes as an
/// integer-truncated percentage, clamped to 100, zero when the total is
/// unknown.
pub open spec fn task_percent(received: u64, total: u64) -> int {
    if total > 0 {
        if received * 100 / (total as int) <= 100 {
            received * 100 / (total as int)
        } else {
            100
        }
    } else {
        0
    }
}

/// The active-uploads row of one task.
pub fn status_response_of(task: &UploadTask) -> (r: UploadStatusResponse)
    ensures
        r.id@ == task.id@,
        r.filename@ == task.filename@,
        r.album@ == task.album@,
        r.progress_percent == task_percent(task.received_bytes, task.total_bytes),
        r.received_bytes == task.received_bytes,
        r.total_bytes == task.total_bytes,
        r.status@ == crate::models::status_str(task.status),
    {
        let progress: u8 = if task.total_bytes > 0 {
            let wide: u128 = (task.received_bytes as u128) * 100 / (task.total_bytes as u128);
            if wide >= 100 {
                100
            } else {
                wide as u8
            }
        } else {
            0
        };
        UploadStatusResponse {
            id: task.id.clone(),
            filename: task.filename.clone(),
            album: task.album.clone(),
            progress_percent: progress,
            received_bytes: task.received_bytes,
            total_bytes: task.total_bytes,
            status: task.status.as_str().to_owned(),
        }
    }

} // verus!

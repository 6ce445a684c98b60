//! The engine's parts on their own: percent arithmetic, events and the
//! bus, hex rendering, configuration and the small collaborator handles.

use skynas::config::{Config, feature_status};
use skynas::events::{EventBus, WsEvent};
use skynas::hex::hex_string;
use skynas::misc::{HeicConverter, SyncManager, ThumbnailGenerator};
use skynas::models::TaskStatus;
use skynas::net::get_best_host;
use skynas::progress_percent;

/// Test percent calculation for progress tracking.
#[test]
fn test_percent_calculation() {
    let total_bytes: u64 = 1000;
    let received_bytes: u64 = 500;
    let percent = progress_percent(received_bytes, total_bytes);
    assert_eq!(percent, 50);

    let received_bytes: u64 = 0;
    let percent = progress_percent(received_bytes, total_bytes);
    assert_eq!(percent, 0);

    let received_bytes: u64 = 1000;
    let percent = progress_percent(received_bytes, total_bytes);
    assert_eq!(percent, 100);
}

/// Test event cloning (needed for broadcast).
#[test]
fn test_event_clone() {
    let event = WsEvent::UploadProgress {
        upload_id: "test-123".to_string(),
        filename: "photo.jpg".to_string(),
        received_bytes: 500,
        total_bytes: 1000,
        percent: 50,
    };
    let cloned = event.clone();

    match cloned {
        WsEvent::UploadProgress { percent, .. } => {
            assert_eq!(percent, 50);
        }
        _ => panic!("Expected UploadProgress event"),
    }
}

/// Test that WsEvent types are correctly instantiated and delivered.
#[test]
fn test_ws_event_types() {
    let mut bus = EventBus::new(100);
    let sub = bus.subscribe();

    let started = WsEvent::UploadStarted {
        upload_id: "test-123".to_string(),
        filename: "photo.jpg".to_string(),
        album: "test-album".to_string(),
        total_bytes: 1024,
        total_chunks: 10,
    };
    bus.publish(started);

    let progress = WsEvent::UploadProgress {
        upload_id: "test-123".to_string(),
        filename: "photo.jpg".to_string(),
        received_bytes: 512,
        total_bytes: 1024,
        percent: 50,
    };
    bus.publish(progress);

    let chunk = WsEvent::ChunkReceived {
        upload_id: "test-123".to_string(),
        chunk_index: 5,
        total_chunks: 10,
    };
    bus.publish(chunk);

    let complete = WsEvent::UploadComplete {
        upload_id: "test-123".to_string(),
        filename: "photo.jpg".to_string(),
        album: "test-album".to_string(),
        size: 1024,
    };
    bus.publish(complete);

    let error = WsEvent::UploadError {
        upload_id: "test-123".to_string(),
        filename: "photo.jpg".to_string(),
        error: "Test error".to_string(),
        stage: "test".to_string(),
    };
    bus.publish(error);

    let mut delivered = 0;
    while bus.poll(sub).is_some() {
        delivered += 1;
    }
    assert_eq!(delivered, 5);
}

/// Test event channel creation and basic send/receive.
#[test]
fn test_event_channel() {
    let mut bus = EventBus::new(1000);
    let sub = bus.subscribe();

    let event = WsEvent::UploadStarted {
        upload_id: "test-123".to_string(),
        filename: "photo.jpg".to_string(),
        album: "vacation".to_string(),
        total_bytes: 1000,
        total_chunks: 5,
    };
    bus.publish(event);

    let received = bus.poll(sub).unwrap();
    match received {
        WsEvent::UploadStarted { upload_id, filename, .. } => {
            assert_eq!(upload_id, "test-123");
            assert_eq!(filename, "photo.jpg");
        }
        _ => panic!("Expected UploadStarted event"),
    }
}

/// A slow subscriber's oldest events are dropped once its buffer fills;
/// a late subscriber sees nothing published before it joined.
#[test]
fn bus_is_bounded_and_replay_free() {
    let mut bus = EventBus::new(2);
    let early = bus.subscribe();
    bus.publish(WsEvent::CloudSyncStarted);
    bus.publish(WsEvent::CloudSyncComplete { success: true });
    bus.publish(WsEvent::CloudSyncComplete { success: false });
    // capacity 2: the oldest event was dropped for the slow subscriber
    assert!(matches!(
        bus.poll(early),
        Some(WsEvent::CloudSyncComplete { success: true })
    ));
    assert!(matches!(
        bus.poll(early),
        Some(WsEvent::CloudSyncComplete { success: false })
    ));
    assert!(bus.poll(early).is_none());
    let late = bus.subscribe();
    assert!(bus.poll(late).is_none());
}

/// Test thumbnail directory layout.
#[test]
fn test_thumbnail_dir() {
    let config = Config::default();
    let dir = ThumbnailGenerator::thumbnail_dir(&config);
    assert!(dir.contains(".thumbnails"));
    assert_eq!(dir, "/tmp/Pictures/iPhoneSync/.thumbnails");
}

/// Hex rendering: two lower-case digits per byte, in byte order.
#[test]
fn hex_rendering() {
    assert_eq!(hex_string(&vec![]), "");
    assert_eq!(hex_string(&vec![0x00, 0xab, 0xff, 0x1c]), "00abff1c");
}

/// The server URL is built from host and port.
#[test]
fn server_url_format() {
    let mut config = Config::default();
    config.server.host = "192.168.1.7".to_string();
    config.server.port = 8081;
    assert_eq!(config.server_url(), "http://192.168.1.7:8081");
    assert_eq!(skynas::config::dec_string(0), "0");
    assert_eq!(skynas::config::dec_string(65535), "65535");
}

/// A concrete host is kept; wildcard and loopback are replaced.
#[test]
fn best_host_prefers_concrete() {
    assert_eq!(get_best_host("192.168.1.100"), "192.168.1.100");
    assert_eq!(get_best_host("example.local"), "example.local");
    // wildcard: replaced by the local address or the loopback fallback
    assert!(!get_best_host("0.0.0.0").is_empty());
}

/// Status names as stored and serialized.
#[test]
fn task_status_names() {
    assert_eq!(TaskStatus::Pending.as_str(), "pending");
    assert_eq!(TaskStatus::Uploading.as_str(), "uploading");
    assert_eq!(TaskStatus::Completed.as_str(), "completed");
    assert_eq!(TaskStatus::Cancelled.as_str(), "cancelled");
    assert_eq!(TaskStatus::Error.as_str(), "error");
    assert_eq!(feature_status(true), "enabled");
    assert_eq!(feature_status(false), "disabled");
}

/// Admin claims: subject, lifetime, validity window.
#[test]
fn admin_claims() {
    let claims = skynas::auth::Claims::for_admin(1000);
    assert_eq!(claims.sub, "admin");
    assert_eq!(claims.iat, 1000);
    assert_eq!(claims.exp, 1000 + 86400);
    assert!(claims.is_admin());
    assert!(claims.is_valid_at(1000));
    assert!(claims.is_valid_at(87400));
    assert!(!claims.is_valid_at(87401));
    assert!(!claims.is_valid_at(999));
}

/// The active-uploads row computes a clamped integer percentage.
#[test]
fn status_response_percent() {
    let task = skynas::models::UploadTask {
        id: "t1".to_string(),
        filename: "p.jpg".to_string(),
        album: "x".to_string(),
        total_bytes: 1024,
        received_bytes: 512,
        status: TaskStatus::Uploading,
        created_at: 0,
        updated_at: 0,
        cancelled: false,
    };
    let row = skynas::api::status_response_of(&task);
    assert_eq!(row.progress_percent, 50);
    assert_eq!(row.status, "uploading");
    let zero = skynas::models::UploadTask { total_bytes: 0, ..task };
    assert_eq!(skynas::api::status_response_of(&zero).progress_percent, 0);
}

/// The collaborator handles keep the configuration they were given.
#[test]
fn collaborator_handles() {
    let config = Config::default();
    let converter = HeicConverter::new(config.heic_converter);
    assert_eq!(converter.config.jpeg_quality, 85);
    let manager = SyncManager::new(Config::default());
    assert!(!manager.config.sync.auto_sync);
}

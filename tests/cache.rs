use docker_image::cache::{
    blob_paths, fetch_start, fetch_step, FetchAction, FetchEvent, FetchStage, CACHE_ROOT,
};

const DIGEST: &str = "sha256:0123456789abcdef0123456789abcdef";

#[test]
fn blob_names_come_from_content_hash() {
    let p = blob_paths(CACHE_ROOT, DIGEST).unwrap();
    let h = "0123456789abcdef0123456789abcdef";
    assert_eq!(p.blob, format!("/vagga/cache/docker-layers/{}.tar.gz", h));
    assert_eq!(p.tmp, format!("/vagga/cache/docker-layers/.{}.tar.gz.tmp", h));
    assert_eq!(p.lock, format!("/vagga/cache/docker-layers/.{}.tar.gz.lock", h));
    assert_eq!(p.short, "0123456789ab");
}

#[test]
fn malformed_digests_are_refused() {
    assert!(blob_paths(CACHE_ROOT, "0123456789abcdef0123").is_none());
    assert!(blob_paths(CACHE_ROOT, "sha256:0123").is_none());
    assert!(blob_paths("/c", "sha256:0123456789ab").is_some());
}

#[test]
fn cached_blob_is_returned_without_download() {
    let (stage, action) = fetch_start();
    assert!(matches!(action, FetchAction::CheckBlob));
    let (stage, action) = fetch_step(stage, FetchEvent::Present);
    assert!(matches!(stage, FetchStage::Done));
    assert!(matches!(action, FetchAction::Return));
}

#[test]
fn missing_blob_is_downloaded_under_lock() {
    let (stage, _) = fetch_start();
    let (stage, action) = fetch_step(stage, FetchEvent::Absent);
    assert!(matches!(action, FetchAction::TakeLock));
    let (stage, action) = fetch_step(stage, FetchEvent::LockTaken);
    assert!(matches!(action, FetchAction::CheckBlob));
    let (stage, action) = fetch_step(stage, FetchEvent::Absent);
    assert!(matches!(action, FetchAction::Download));
    let (stage, action) = fetch_step(stage, FetchEvent::Written);
    assert!(matches!(stage, FetchStage::Done));
    assert!(matches!(action, FetchAction::Return));
}

#[test]
fn waiter_sees_finished_blob() {
    let (stage, _) = fetch_start();
    let (stage, _) = fetch_step(stage, FetchEvent::Absent);
    let (stage, _) = fetch_step(stage, FetchEvent::LockTaken);
    let (stage, action) = fetch_step(stage, FetchEvent::Present);
    assert!(matches!(stage, FetchStage::Done));
    assert!(matches!(action, FetchAction::Return));
}

#[test]
fn fetch_failures_are_reported() {
    let (stage, action) = fetch_step(FetchStage::Probing, FetchEvent::ProbeFailed("denied".to_string()));
    assert!(matches!(stage, FetchStage::Failed));
    assert!(matches!(action, FetchAction::Fail(m) if m == "denied"));
    let (_, action) = fetch_step(FetchStage::Locking, FetchEvent::LockFailed("busy".to_string()));
    assert!(matches!(action, FetchAction::Fail(m) if m == "busy"));
    let (_, action) = fetch_step(FetchStage::Writing, FetchEvent::WriteFailed("disk full".to_string()));
    assert!(matches!(action, FetchAction::Fail(m) if m == "disk full"));
}

use bucket_dl::download_client::DownloadClient;
use bucket_dl::models::{DownloadError, DownloadStatus};

fn client() -> DownloadClient {
    DownloadClient::init(&"http://example.test/resource".to_string(), &"out.bin".to_string())
}

/// Feed every bucket exactly its assigned bytes, in chunks of at most
/// `chunk_len`.
fn download_everything(c: &mut DownloadClient, sizes: &[u64], chunk_len: u64) {
    for (i, &size) in sizes.iter().enumerate() {
        let mut left = size;
        while left > 0 {
            let n = left.min(chunk_len);
            assert!(c.record_chunk(i, n));
            left -= n;
        }
    }
}

#[test]
fn fresh_client_is_not_started() {
    let mut c = client();
    assert_eq!(c.status(), DownloadStatus::NotStarted);
    assert_eq!(c.current_progress().len(), 0);
    assert!(!c.progress_stream().active);
    assert!(!c.take_cleanup());
}

#[test]
fn scenario_a_full_range_capable_download_finishes() {
    let mut c = client();
    let p = c.begin_download(Some(602), true).expect("begin should succeed");
    assert_eq!(p.ranges.len(), 6);
    let sizes = c.bucket_sizes();
    assert_eq!(sizes, vec![101, 101, 101, 101, 101, 97]);
    assert_eq!(c.status(), DownloadStatus::InProgress);
    download_everything(&mut c, &sizes, 37);
    assert_eq!(c.status(), DownloadStatus::Finished);
    // The destination file stays: no cleanup was ever owed.
    assert!(!c.take_cleanup());
}

#[test]
fn scenario_b_range_incapable_download_finishes() {
    let mut c = client();
    let p = c.begin_download(Some(50), false).expect("begin should succeed");
    assert_eq!(p.ranges.len(), 1);
    assert_eq!(c.bucket_sizes(), vec![50]);
    assert_eq!(c.status(), DownloadStatus::InProgress);
    assert!(c.record_chunk(0, 50));
    assert_eq!(c.status(), DownloadStatus::Finished);
}

#[test]
fn scenario_c_cancel_mid_download() {
    let mut c = client();
    c.begin_download(Some(602), true).expect("begin should succeed");
    assert!(c.record_chunk(0, 10));
    c.cancel();
    assert_eq!(c.status(), DownloadStatus::Cancelled);
    // The incomplete destination file is owed exactly one deletion.
    assert!(c.take_cleanup());
    assert!(!c.take_cleanup());
    // A second cancel is a no-op and owes nothing.
    c.cancel();
    assert_eq!(c.status(), DownloadStatus::Cancelled);
    assert!(!c.take_cleanup());
}

#[test]
fn scenario_d_missing_content_length_fails_planning() {
    let mut c = client();
    let e = c.begin_download(None, true).unwrap_err();
    assert_eq!(e, DownloadError::PlanningError);
    assert_eq!(
        c.status(),
        DownloadStatus::Failed("content length missing or zero".to_string()),
    );
    // No buckets were made, so no destination file deletion is owed.
    assert!(!c.take_cleanup());
}

#[test]
fn zero_content_length_fails_planning() {
    let mut c = client();
    let e = c.begin_download(Some(0), false).unwrap_err();
    assert_eq!(e, DownloadError::PlanningError);
    assert_eq!(
        c.status(),
        DownloadStatus::Failed("content length missing or zero".to_string()),
    );
}

#[test]
fn scenario_e_mid_flight_failure_is_reported_and_cleans_up() {
    let mut c = client();
    c.begin_download(Some(602), true).expect("begin should succeed");
    assert!(c.record_chunk(2, 40));
    c.record_failure("range request failed".to_string());
    assert_eq!(c.status(), DownloadStatus::Failed("range request failed".to_string()));
    // Observing the failure cancelled the download and owes the one
    // destination-file deletion.
    assert!(c.take_cleanup());
    assert!(!c.take_cleanup());
    // The first recorded failure stays the reason.
    c.record_failure("later noise".to_string());
    assert_eq!(c.status(), DownloadStatus::Failed("range request failed".to_string()));
}

#[test]
fn status_is_idempotent_in_every_state() {
    let mut c = client();
    assert_eq!(c.status(), c.status());
    c.begin_download(Some(100), true).expect("begin should succeed");
    assert_eq!(c.status(), c.status());
    c.record_failure("boom".to_string());
    assert_eq!(c.status(), c.status());
    let mut d = client();
    d.begin_download(Some(100), true).expect("begin should succeed");
    d.cancel();
    assert_eq!(d.status(), d.status());
}

#[test]
fn progress_is_monotonic_per_bucket() {
    let mut c = client();
    c.begin_download(Some(100), true).expect("begin should succeed");
    let mut last = 0u64;
    for step in [3u64, 5, 0, 9] {
        assert!(c.record_chunk(0, step));
        let seen = c.current_progress()[0].byte_progress;
        assert!(seen >= last);
        last = seen;
    }
    assert_eq!(last, 17);
}

#[test]
fn record_chunk_rejects_bad_events() {
    let mut c = client();
    // Nothing started yet.
    assert!(!c.record_chunk(0, 1));
    c.begin_download(Some(100), true).expect("begin should succeed");
    let sizes = c.bucket_sizes();
    // Out-of-range bucket index.
    assert!(!c.record_chunk(sizes.len(), 1));
    // A chunk past the bucket's assigned size.
    assert!(!c.record_chunk(0, sizes[0] + 1));
    // The rejected events left the counters alone.
    for p in c.current_progress() {
        assert_eq!(p.byte_progress, 0);
    }
}

#[test]
fn current_progress_snapshots_every_bucket() {
    let mut c = client();
    c.begin_download(Some(602), true).expect("begin should succeed");
    assert!(c.record_chunk(3, 12));
    let ps = c.current_progress();
    assert_eq!(ps.len(), 6);
    for (i, p) in ps.iter().enumerate() {
        assert_eq!(p.id as usize, i);
        assert_eq!(p.byte_progress, if i == 3 { 12 } else { 0 });
        assert_eq!(p.size, if i == 5 { 97 } else { 101 });
    }
}

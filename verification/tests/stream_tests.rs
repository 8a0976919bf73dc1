use bucket_dl::bucket::{Bucket, BucketProgressStream};
use bucket_dl::delay::Delay;
use bucket_dl::download_client::DownloadClient;
use bucket_dl::models::DownloadStatus;
use std::time::Duration;

#[test]
fn empty_stream_terminates_immediately() {
    let mut s = BucketProgressStream::empty();
    let buckets: Vec<Bucket> = vec![Bucket::new(0, 10)];
    assert_eq!(s.poll_step(&buckets), None);
}

#[test]
fn stream_cycles_buckets_round_robin() {
    let buckets = vec![Bucket::new(0, 10), Bucket::new(1, 10), Bucket::new(2, 10)];
    let mut s = BucketProgressStream::new();
    for expected_id in [0u8, 1, 2, 0, 1, 2, 0] {
        let p = s.poll_step(&buckets).expect("stream should still run");
        assert_eq!(p.id, expected_id);
        assert_eq!(p.byte_progress, 0);
        assert_eq!(p.size, 10);
    }
}

#[test]
fn stream_ends_once_every_bucket_is_finished() {
    let mut buckets = vec![Bucket::new(0, 4), Bucket::new(1, 2)];
    let mut s = BucketProgressStream::new();
    assert!(s.poll_step(&buckets).is_some());
    buckets[0].record_chunk(4);
    // One bucket finished, the other not: the stream still runs and may
    // snapshot the finished bucket.
    let p = s.poll_step(&buckets).expect("stream should still run");
    assert_eq!(p.id, 1);
    buckets[1].record_chunk(2);
    assert_eq!(s.poll_step(&buckets), None);
    assert_eq!(s.poll_step(&buckets), None);
}

#[test]
fn stream_over_no_buckets_is_done_at_once() {
    let buckets: Vec<Bucket> = vec![];
    let mut s = BucketProgressStream::new();
    assert_eq!(s.poll_step(&buckets), None);
}

#[test]
fn client_hands_out_the_right_stream() {
    let url = "http://example.test/resource".to_string();
    let path = "out.bin".to_string();
    let mut c = DownloadClient::init(&url, &path);
    assert!(!c.progress_stream().active);
    c.begin_download(Some(30), true).expect("begin should succeed");
    assert_eq!(c.status(), DownloadStatus::InProgress);
    assert!(c.progress_stream().active);
}

#[test]
fn zero_delay_is_due_at_once() {
    let d = Delay::for_duration(Duration::from_millis(0));
    assert!(d.is_elapsed());
}

#[test]
fn long_delay_is_not_due_yet() {
    let d = Delay::for_duration(Duration::from_secs(3600));
    assert!(!d.is_elapsed());
}

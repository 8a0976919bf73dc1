use bucket_dl::assembly::{worker_run, worker_step, write_at};
use bucket_dl::bucket::Bucket;
use bucket_dl::planner::plan;

/// A test double for the transport: the bytes it would serve for
/// `[start, end]` of `source`, cut into chunks of at most `chunk_len`.
fn serve_range(source: &[u8], start: u64, end_inclusive: u64, chunk_len: usize) -> Vec<Vec<u8>> {
    let body = &source[start as usize..=end_inclusive as usize];
    body.chunks(chunk_len).map(|c| c.to_vec()).collect()
}

fn source_bytes(len: usize) -> Vec<u8> {
    (0..len).map(|i| (i % 251) as u8).collect()
}

#[test]
fn write_at_places_bytes_and_leaves_the_rest() {
    let mut dest = vec![0u8; 10];
    write_at(&mut dest, 3, &vec![7, 8, 9]);
    assert_eq!(dest, vec![0, 0, 0, 7, 8, 9, 0, 0, 0, 0]);
}

#[test]
fn worker_step_writes_at_the_running_offset() {
    let mut dest = vec![0u8; 10];
    let mut b = Bucket::new(0, 6);
    assert!(worker_step(&mut dest, &mut b, 2, &vec![1, 2]));
    assert!(worker_step(&mut dest, &mut b, 2, &vec![3, 4, 5]));
    assert_eq!(b.bytes_downloaded(), 5);
    assert_eq!(dest, vec![0, 0, 1, 2, 3, 4, 5, 0, 0, 0]);
}

#[test]
fn worker_step_honours_the_stop_flag() {
    let mut dest = vec![9u8; 4];
    let mut b = Bucket::new(0, 4);
    b.cancel();
    assert!(!worker_step(&mut dest, &mut b, 0, &vec![1, 2]));
    assert_eq!(dest, vec![9, 9, 9, 9]);
    assert_eq!(b.bytes_downloaded(), 0);
}

#[test]
fn round_trip_reassembles_the_source_exactly() {
    let source = source_bytes(602);
    let p = plan(Some(602), true).expect("plan should succeed");
    let mut dest = vec![0u8; 602];
    for (i, r) in p.ranges.iter().enumerate() {
        let chunks = serve_range(&source, r.start, r.end_inclusive, 37);
        let size = r.end_inclusive - r.start + 1;
        let mut b = Bucket::new(i as u8, size);
        assert!(worker_run(&mut dest, &mut b, r.start as usize, &chunks));
        assert!(b.finished());
    }
    assert_eq!(dest, source);
}

#[test]
fn round_trip_is_independent_of_worker_order() {
    let source = source_bytes(123);
    let p = plan(Some(123), true).expect("plan should succeed");
    let mut dest = vec![0u8; 123];
    for (i, r) in p.ranges.iter().enumerate().rev() {
        let chunks = serve_range(&source, r.start, r.end_inclusive, 5);
        let size = r.end_inclusive - r.start + 1;
        let mut b = Bucket::new(i as u8, size);
        assert!(worker_run(&mut dest, &mut b, r.start as usize, &chunks));
    }
    assert_eq!(dest, source);
}

#[test]
fn round_trip_single_bucket_without_range_support() {
    let source = source_bytes(50);
    let p = plan(Some(50), false).expect("plan should succeed");
    assert_eq!(p.ranges.len(), 1);
    let mut dest = vec![0u8; 50];
    let chunks = serve_range(&source, 0, 49, 7);
    let mut b = Bucket::new(0, 50);
    assert!(worker_run(&mut dest, &mut b, 0, &chunks));
    assert!(b.finished());
    assert_eq!(dest, source);
}

#[test]
fn stopped_worker_writes_nothing() {
    let source = source_bytes(30);
    let mut dest = vec![0u8; 30];
    let chunks = serve_range(&source, 0, 29, 8);
    let mut b = Bucket::new(0, 30);
    b.cancel();
    assert!(!worker_run(&mut dest, &mut b, 0, &chunks));
    assert_eq!(dest, vec![0u8; 30]);
    assert_eq!(b.bytes_downloaded(), 0);
}

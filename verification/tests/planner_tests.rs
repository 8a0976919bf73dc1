use bucket_dl::models::DownloadError;
use bucket_dl::planner::{get_bucket_size, get_standard_bucket_size, plan};

fn sizes_of(content_length: Option<u64>, accepts_ranges: bool) -> Vec<u64> {
    let p = plan(content_length, accepts_ranges).expect("plan should succeed");
    p.ranges.iter().map(|r| r.end_inclusive - r.start + 1).collect()
}

#[test]
fn standard_bucket_size_is_ceil_of_sixth() {
    assert_eq!(get_standard_bucket_size(602, true), 101);
    assert_eq!(get_standard_bucket_size(600, true), 100);
    assert_eq!(get_standard_bucket_size(601, true), 101);
    assert_eq!(get_standard_bucket_size(1, true), 1);
    assert_eq!(get_standard_bucket_size(6, true), 1);
    assert_eq!(get_standard_bucket_size(7, true), 2);
}

#[test]
fn bucket_size_without_range_support_is_whole_resource() {
    assert_eq!(get_standard_bucket_size(602, false), 602);
    assert_eq!(get_standard_bucket_size(1, false), 1);
    assert_eq!(get_bucket_size(50, false), 50);
    assert_eq!(get_bucket_size(602, true), 101);
}

#[test]
fn scenario_a_sizes_602_bytes_range_capable() {
    let sizes = sizes_of(Some(602), true);
    assert_eq!(sizes, vec![101, 101, 101, 101, 101, 97]);
}

#[test]
fn plan_without_range_support_is_one_bucket() {
    for l in [1u64, 5, 6, 50, 602, 1_000_000] {
        let p = plan(Some(l), false).expect("plan should succeed");
        assert_eq!(p.ranges.len(), 1);
        assert_eq!(p.ranges[0].start, 0);
        assert_eq!(p.ranges[0].end_inclusive, l - 1);
    }
}

#[test]
fn plan_rejects_zero_and_unknown_length() {
    assert_eq!(plan(Some(0), true).unwrap_err(), DownloadError::PlanningError);
    assert_eq!(plan(Some(0), false).unwrap_err(), DownloadError::PlanningError);
    assert_eq!(plan(None, true).unwrap_err(), DownloadError::PlanningError);
    assert_eq!(plan(None, false).unwrap_err(), DownloadError::PlanningError);
}

#[test]
fn range_capable_plans_tile_the_resource() {
    for l in [1u64, 2, 5, 6, 7, 12, 13, 25, 26, 100, 602, 1_000_003] {
        let p = plan(Some(l), true).expect("plan should succeed");
        assert!(p.ranges.len() <= 6);
        assert_eq!(p.ranges[0].start, 0);
        assert_eq!(p.ranges[p.ranges.len() - 1].end_inclusive, l - 1);
        let mut sum = 0u64;
        for (i, r) in p.ranges.iter().enumerate() {
            assert!(r.start <= r.end_inclusive);
            if i > 0 {
                assert_eq!(r.start, p.ranges[i - 1].end_inclusive + 1);
            }
            sum += r.end_inclusive - r.start + 1;
        }
        assert_eq!(sum, l);
        if l >= 26 {
            assert_eq!(p.ranges.len(), 6);
        }
        if l < 6 {
            assert_eq!(p.ranges.len() as u64, l);
        }
    }
}

#[test]
fn small_lengths_may_fill_fewer_than_six_buckets() {
    // ceil(13 / 6) = 3, and five chunks of 3 already pass 13 bytes.
    let p = plan(Some(13), true).expect("plan should succeed");
    assert_eq!(p.ranges.len(), 5);
    // A multiple of six splits evenly.
    let p = plan(Some(12), true).expect("plan should succeed");
    assert_eq!(p.ranges.len(), 6);
}

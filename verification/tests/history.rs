use tf2_rs::history::{answer, first_at_or_after, record, EdgePose, Sample};
use tf2_rs::transform_stamped::Transform;

fn sample(sec: i32, nanosec: u32, x: f64) -> Sample {
    let mut pose = Transform::identity();
    pose.tx = x.to_bits();
    Sample { sec, nanosec, pose }
}

fn times(h: &[Sample]) -> Vec<i64> {
    h.iter().map(|s| s.at()).collect()
}

#[test]
fn record_keeps_the_samples_in_order_of_time() {
    let mut h: Vec<Sample> = Vec::new();
    for sec in [5, 3, 9, 7, 4] {
        h = record(&h, sample(sec, 0, sec as f64), 100_000_000_000);
    }
    assert_eq!(
        times(&h),
        vec![3_000_000_000, 4_000_000_000, 5_000_000_000, 7_000_000_000, 9_000_000_000]
    );
}

#[test]
fn record_drops_what_is_older_than_the_window() {
    let mut h: Vec<Sample> = Vec::new();
    for sec in [1, 2, 3, 4] {
        h = record(&h, sample(sec, 0, 0.0), 2_000_000_000);
    }
    assert_eq!(times(&h), vec![2_000_000_000, 3_000_000_000, 4_000_000_000]);
    h = record(&h, sample(6, 1, 0.0), 2_000_000_000);
    assert_eq!(times(&h), vec![6_000_000_001]);
    // a sample that is itself too old changes nothing
    let again = record(&h, sample(1, 0, 0.0), 2_000_000_000);
    assert_eq!(again, h);
    // a window of zero keeps the newest sample alone
    let one = record(&h, sample(7, 0, 0.0), 0);
    assert_eq!(times(&one), vec![7_000_000_000]);
}

#[test]
fn record_replaces_a_sample_of_the_same_time() {
    let h = record(&Vec::new(), sample(5, 0, 1.0), 10_000_000_000);
    let h = record(&h, sample(6, 0, 2.0), 10_000_000_000);
    let h = record(&h, sample(5, 0, 3.0), 10_000_000_000);
    assert_eq!(h, vec![sample(5, 0, 3.0), sample(6, 0, 2.0)]);
}

#[test]
fn record_at_the_ends_of_the_timeline() {
    let h = record(&Vec::new(), sample(i32::MIN, 0, 1.0), u64::MAX);
    let h = record(&h, sample(i32::MAX, u32::MAX, 2.0), u64::MAX);
    assert_eq!(h.len(), 2);
    let e = answer(&h, false, Some(0)).unwrap();
    assert_eq!(
        e,
        EdgePose::Between {
            before: sample(0, 0, 1.0).pose,
            after: sample(0, 0, 2.0).pose,
            elapsed: 2_147_483_648_000_000_000,
            span: 2_147_483_648_000_000_000 + 2_147_483_647_000_000_000 + 4_294_967_295,
        }
    );
}

#[test]
fn first_at_or_after_counts_the_earlier_samples() {
    let h = vec![sample(1, 0, 0.0), sample(2, 0, 0.0), sample(4, 0, 0.0)];
    assert_eq!(first_at_or_after(&h, 0), 0);
    assert_eq!(first_at_or_after(&h, 1_000_000_000), 0);
    assert_eq!(first_at_or_after(&h, 1_000_000_001), 1);
    assert_eq!(first_at_or_after(&h, 4_000_000_000), 2);
    assert_eq!(first_at_or_after(&h, 4_000_000_001), 3);
    assert_eq!(first_at_or_after(&Vec::new(), 5), 0);
}

#[test]
fn answer_follows_the_rule_of_the_edge() {
    let h = vec![sample(1, 0, 1.0), sample(3, 0, 3.0)];
    assert_eq!(answer(&Vec::new(), false, None), None);
    assert_eq!(answer(&Vec::new(), true, Some(5)), None);
    assert_eq!(
        answer(&h, false, None),
        Some(EdgePose::Exact { sec: 3, nanosec: 0, pose: sample(3, 0, 3.0).pose })
    );
    assert_eq!(
        answer(&h, false, Some(1_000_000_000)),
        Some(EdgePose::Exact { sec: 1, nanosec: 0, pose: sample(1, 0, 1.0).pose })
    );
    assert_eq!(
        answer(&h, false, Some(1_500_000_000)),
        Some(EdgePose::Between {
            before: sample(1, 0, 1.0).pose,
            after: sample(3, 0, 3.0).pose,
            elapsed: 500_000_000,
            span: 2_000_000_000,
        })
    );
    assert_eq!(answer(&h, false, Some(999_999_999)), None);
    assert_eq!(answer(&h, false, Some(3_000_000_001)), None);
    let one = vec![sample(2, 0, 2.0)];
    assert_eq!(
        answer(&one, true, Some(-77)),
        Some(EdgePose::Exact { sec: 2, nanosec: 0, pose: sample(2, 0, 2.0).pose })
    );
}

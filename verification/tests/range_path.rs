//! Ranges and path segments: containment, the eased interpolation, and the
//! shape of generated drift paths.

use dials::dial::{generate_random_dial_path, DialRange, PathSegment};

#[test]
fn contains_is_inclusive_on_both_bounds() {
    let range = DialRange::new(200, 4200);
    assert!(range.contains(200));
    assert!(range.contains(4200));
    assert!(range.contains(2200));
    assert!(!range.contains(199));
    assert!(!range.contains(4201));
    assert!(!range.contains(-1000));
    assert!(!range.contains(1_000_000));
}

#[test]
fn middle_lies_within_the_range() {
    let range = DialRange::new(200, 4200);
    assert_eq!(range.middle(), 2200);
    assert!(range.contains(range.middle()));

    let negative = DialRange::new(-500, -100);
    assert_eq!(negative.middle(), -300);
    assert!(negative.contains(negative.middle()));
}

#[test]
fn random_in_stays_inside_the_range() {
    let range = DialRange::new(200, 4200);
    for _ in 0..200 {
        let v = range.random_in();
        assert!(range.contains(v));
    }
}

#[test]
fn random_in_actually_varies() {
    // A draw that ignored the bound and handed back a constant would almost
    // surely fail this: fifty uniform draws over two million values.
    let range = DialRange::new(0, 2_000_000);
    let first = range.random_in();
    let varied = (0..50).any(|_| range.random_in() != first);
    assert!(varied);
}

#[test]
fn random_near_stays_within_half_the_width() {
    let range = DialRange::new(200, 4200);
    let half_width = (4200 - 200) / 2;
    for _ in 0..200 {
        let v = range.random_in();
        let near = range.random_near(v);
        assert!((near - v).abs() <= half_width);
    }
}

#[test]
fn slightly_out_leaves_past_the_nearer_bound() {
    let range = DialRange::new(200, 4200);
    for _ in 0..100 {
        // Below the middle: the result drops below the start.
        let low = range.slightly_out(300);
        assert!(!range.contains(low));
        assert!(low < 200 && low >= 200 - 400_000);

        // At or above the middle: the result rises above the end.
        let high = range.slightly_out(2200);
        assert!(!range.contains(high));
        assert!(high > 4200 && high <= 4200 + 400_000);
    }
}

#[test]
fn value_at_time_interpolates_the_ease_curve() {
    let seg = PathSegment { start: 0, end: 1000, duration: 10 };
    assert_eq!(seg.value_at_time(0), 0);
    assert_eq!(seg.value_at_time(10), 1000);
    // 3 t^2 d - 2 t^3 at t = 5, d = 10: (750 - 250) / 1000 of the span.
    assert_eq!(seg.value_at_time(5), 500);
    // Slow start, fast middle: the first fifth covers far less than in a
    // linear ramp.
    assert!(seg.value_at_time(2) < 200);

    let falling = PathSegment { start: 1000, end: 0, duration: 10 };
    assert_eq!(falling.value_at_time(0), 1000);
    assert_eq!(falling.value_at_time(5), 500);
    assert_eq!(falling.value_at_time(10), 0);
}

#[test]
fn value_at_time_stays_between_the_endpoints() {
    let seg = PathSegment { start: -300, end: 700, duration: 97 };
    for t in 0..=97 {
        let v = seg.value_at_time(t);
        assert!(v >= -300 && v <= 700);
    }
}

#[test]
fn zero_duration_segment_is_already_at_its_end() {
    let seg = PathSegment { start: 10, end: 42, duration: 0 };
    assert_eq!(seg.value_at_time(0), 42);
}

#[test]
fn in_segment_is_the_duration_test() {
    let seg = PathSegment { start: 0, end: 1, duration: 25 };
    assert!(seg.in_segment(0));
    assert!(seg.in_segment(25));
    assert!(!seg.in_segment(26));
}

#[test]
fn travel_direction_is_the_sign_of_the_motion() {
    assert_eq!(PathSegment { start: 0, end: 5, duration: 1 }.travel_direction(), 1);
    assert_eq!(PathSegment { start: 5, end: 0, duration: 1 }.travel_direction(), -1);
    assert_eq!(PathSegment { start: 5, end: 5, duration: 1 }.travel_direction(), -1);
}

#[test]
fn generated_path_has_bounded_count_and_exact_total_time() {
    let range = DialRange::new(200_000, 4_200_000);
    for _ in 0..50 {
        let path = generate_random_dial_path(&range, 60_000, true, 8, 4);
        let segments: Vec<PathSegment> = path.iter().copied().collect();

        assert!(segments.len() >= 4 && segments.len() <= 8);
        let total: u64 = segments.iter().map(|s| s.duration).sum();
        assert_eq!(total, 60_000);

        // Segments chain: each starts where the previous ended.
        for w in segments.windows(2) {
            assert_eq!(w[1].start, w[0].end);
        }
        // The path starts inside the range.
        assert!(range.contains(segments[0].start));

        // The first n - 1 segments share the duration total / n; the last
        // absorbs the division remainder. Before the final drift-out
        // segment, no step moves more than half the range's width.
        let n = segments.len() as u64;
        let half_width = (range.end - range.start) / 2;
        for seg in &segments[..segments.len() - 1] {
            assert_eq!(seg.duration, 60_000 / n);
            assert!((seg.end - seg.start).abs() <= half_width);
        }
        assert_eq!(segments.last().unwrap().duration, 60_000 - (n - 1) * (60_000 / n));
    }
}

#[test]
fn drift_out_path_ends_outside_past_the_nearer_bound() {
    let range = DialRange::new(200_000, 4_200_000);
    for _ in 0..50 {
        let path = generate_random_dial_path(&range, 60_000, true, 8, 4);
        let segments: Vec<PathSegment> = path.iter().copied().collect();
        let last = segments.last().unwrap();

        assert!(!range.contains(last.end));
        if last.start < range.middle() {
            assert!(last.end < range.start);
            assert!(last.end >= range.start - 400_000);
        } else {
            assert!(last.end > range.end);
            assert!(last.end <= range.end + 400_000);
        }
    }
}

#[test]
fn path_without_drift_out_has_one_fewer_segment() {
    let range = DialRange::new(200_000, 4_200_000);
    for _ in 0..50 {
        let path = generate_random_dial_path(&range, 60_000, false, 8, 4);
        assert!(path.len() >= 3 && path.len() <= 7);
    }
}

use babiniku::single::{source_indices, Single};

/// What floating-point arithmetic gives.
fn reference(t: usize, n: usize) -> Vec<u32> {
    let scale = t as f32 / n as f32;
    (0..n).map(|i| ((i as f32 * scale).floor() as usize).min(t - 1) as u32).collect()
}

fn value(s: Single) -> f64 {
    s.m as f64 * 2f64.powi(s.e as i32)
}

#[test]
fn single_precision_shifts_frames() {
    let idx = source_indices(301, 516);
    assert_eq!(idx.len(), 516);
    assert_eq!(idx[108], 62);
    let exact: Vec<u32> = (0..516u64).map(|i| (i * 301 / 516) as u32).collect();
    assert_eq!(exact[108], 63);
    let shifted = idx.iter().zip(&exact).filter(|(a, b)| a != b).count();
    assert_eq!(shifted, 7);
    assert_eq!(idx, reference(301, 516));
}

#[test]
fn indices_are_those_of_floating_point_arithmetic() {
    for (t, n) in [(1, 1), (1, 10), (10, 1), (2, 3), (3, 2), (7, 7), (100, 33), (33, 100), (862, 1501), (4001, 977)] {
        assert_eq!(source_indices(t, n), reference(t, n), "{t} to {n}");
    }
    for t in 1..60 {
        for n in 1..60 {
            assert_eq!(source_indices(t, n), reference(t, n), "{t} to {n}");
        }
    }
    let large = (1 << 24) + 3;
    assert_eq!(source_indices(large, 1000), reference(large, 1000));
    assert_eq!(source_indices(3, 2000), reference(3, 2000));
}

#[test]
fn same_length_is_the_identity() {
    let idx = source_indices(1000, 1000);
    assert_eq!(idx, (0..1000).collect::<Vec<u32>>());
}

#[test]
fn indices_keep_order_and_stay_in_range() {
    for (t, n) in [(301, 516), (516, 301), (5, 1000)] {
        let idx = source_indices(t, n);
        assert!(idx.windows(2).all(|w| w[0] <= w[1]));
        assert!(idx.iter().all(|i| (*i as usize) < t));
        assert_eq!(idx[0], 0);
    }
}

#[test]
fn rounding_is_that_of_ieee_754() {
    for n in [1u64, 2, 3, 10, 0xff_ffff, 0x100_0000, 0x100_0001, 0x100_0003, 0x1ff_ffff, u64::MAX, 123_456_789_012] {
        assert_eq!(value(Single::whole(n)), n as f32 as f64, "{n}");
    }
    for (a, b) in [(1u64, 3u64), (301, 516), (2, 3), (10, 7), (0x100_0001, 3), (5, 0xff_ffff)] {
        let (x, y) = (Single::whole(a), Single::whole(b));
        assert_eq!(value(x.over(y)), (a as f32 / b as f32) as f64, "{a} / {b}");
        assert_eq!(value(x.times(y)), (a as f32 * b as f32) as f64, "{a} * {b}");
    }
}

#[test]
fn whole_parts_are_capped() {
    let x = Single::whole(7).over(Single::whole(2));
    assert_eq!(x.floor_capped(10), 3);
    assert_eq!(x.floor_capped(3), 3);
    assert_eq!(x.floor_capped(2), 2);
    assert_eq!(Single::whole(1).over(Single::whole(3)).floor_capped(10), 0);
    assert_eq!(Single::whole(1 << 40).floor_capped(u64::MAX), 1 << 40);
    assert_eq!(Single::whole(1 << 40).floor_capped(9), 9);
}

use staccato::{bundle_scopes_of, median_positions, Scope};

const VALUES: &[f64] = &[1f64, 2f64, 5f64, 7f64, 9f64, 12f64];

fn global(len: usize) -> Scope {
    Scope { percentile: None, len }
}

fn pct(p: u8, len: usize) -> Scope {
    Scope { percentile: Some(p), len }
}

fn median_of(vals: &[f64]) -> f64 {
    let (a, b) = median_positions(vals.len());
    if a == b {
        vals[a]
    } else {
        (vals[a] + vals[b]) / 2f64
    }
}

#[test]
fn bundle_over_empty_series_is_absent() {
    assert_eq!(None, bundle_scopes_of(0, &[]));
    assert_eq!(None, bundle_scopes_of(0, &[50, 90]));
    assert_eq!(None, bundle_scopes_of(0, &[150, 255]));
}

#[test]
fn bundle_global_only() {
    assert_eq!(Some(vec![global(6)]), bundle_scopes_of(VALUES.len(), &[]));
}

#[test]
fn bundle_fifty_percent_of_six_values() {
    let scopes = bundle_scopes_of(VALUES.len(), &[50]).unwrap();
    assert_eq!(vec![global(6), pct(50, 3)], scopes);
    let slice = &VALUES[..scopes[1].len];
    assert_eq!(&[1f64, 2f64, 5f64], slice);
    assert_eq!(2f64, median_of(slice));
}

#[test]
fn bundle_omits_empty_percentile_slices() {
    assert_eq!(Some(vec![global(10), pct(50, 5)]), bundle_scopes_of(10, &[1, 50]));
    assert_eq!(Some(vec![global(50), pct(90, 45)]), bundle_scopes_of(50, &[1, 90, 1]));
    assert_eq!(Some(vec![global(7)]), bundle_scopes_of(7, &[10, 5]));
}

#[test]
fn bundle_keeps_order_and_duplicates() {
    assert_eq!(
        Some(vec![global(100), pct(90, 90), pct(50, 50), pct(90, 90), pct(99, 99)]),
        bundle_scopes_of(100, &[90, 50, 90, 99])
    );
}

#[test]
fn median_positions_odd_and_even() {
    assert_eq!((0, 0), median_positions(1));
    assert_eq!((0, 1), median_positions(2));
    assert_eq!((1, 1), median_positions(3));
    assert_eq!((2, 3), median_positions(6));
    assert_eq!((usize::MAX / 2, usize::MAX / 2), median_positions(usize::MAX));
}

#[test]
fn median_of_full_values() {
    assert_eq!(6f64, median_of(VALUES));
    let m = median_of(VALUES);
    assert!(VALUES[0] <= m && m <= VALUES[VALUES.len() - 1]);
}

#[test]
fn median_of_single_value() {
    assert_eq!(13f64, median_of(&[13f64]));
    assert_eq!(Some(vec![global(1)]), bundle_scopes_of(1, &[50, 99]));
}

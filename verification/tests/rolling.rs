use stock_mm::strategy::rolling::RollingMedian;
use stock_mm::types::double::{is_above, is_finite};
use stock_mm::types::time::Ts;

fn median(w: &RollingMedian) -> Option<f64> {
    w.median_pair()
        .map(|(a, b)| if a == b { f64::from_bits(a) } else { (f64::from_bits(a) + f64::from_bits(b)) / 2.0 })
}

fn mad(w: &RollingMedian) -> Option<f64> {
    let med = median(w)?;
    let mut devs: Vec<f64> = w
        .ordered()
        .iter()
        .map(|b| (f64::from_bits(*b) - med).abs())
        .collect();
    devs.sort_by(|a, b| a.partial_cmp(b).unwrap());
    let n = devs.len();
    if n % 2 == 1 {
        Some(devs[n / 2])
    } else {
        Some((devs[n / 2 - 1] + devs[n / 2]) / 2.0)
    }
}

#[test]
fn median_and_window_evict() {
    let mut w = RollingMedian::new(1_000, 100);
    let t0 = Ts::from_millis(10_000);
    w.push(t0, 1.0f64.to_bits());
    w.push(t0.saturating_add_millis(100), 2.0f64.to_bits());
    w.push(t0.saturating_add_millis(200), 3.0f64.to_bits());
    assert_eq!(median(&w), Some(2.0));
    w.push(t0.saturating_add_millis(2_000), 10.0f64.to_bits());
    assert_eq!(w.len(), 1);
    assert_eq!(median(&w), Some(10.0));
}

#[test]
fn mad_is_robust() {
    let mut w = RollingMedian::new(10_000, 1);
    let t0 = Ts::from_millis(0);
    for (i, v) in [1.0f64, 1.0, 1.0, 1.0, 100.0].iter().enumerate() {
        w.push(t0.saturating_add_millis(i as i64), v.to_bits());
    }
    assert_eq!(median(&w), Some(1.0));
    assert_eq!(mad(&w), Some(0.0));
}

#[test]
fn one_sample_for_each_bucket() {
    let mut w = RollingMedian::new(10_000, 100);
    let t0 = Ts::from_millis(1_000);
    assert!(w.is_empty());
    assert!(w.median_pair().is_none());
    w.push(t0, 5.0f64.to_bits());
    w.push(t0.saturating_add_millis(50), 7.0f64.to_bits());
    assert_eq!(w.len(), 1);
    assert_eq!(median(&w), Some(7.0));
    w.push(t0.saturating_add_millis(100), f64::NAN.to_bits());
    assert_eq!(w.len(), 1);
    w.push(t0.saturating_add_millis(100), (-1.0f64).to_bits());
    assert_eq!(median(&w), Some(3.0));
    let bits: Vec<f64> = w.ordered().iter().map(|b| f64::from_bits(*b)).collect();
    assert_eq!(bits, vec![-1.0, 7.0]);
}

#[test]
fn doubles_compare_as_numbers() {
    let v = [-2.5f64, -0.0, 0.0, 1e-300, 3.0, f64::MAX];
    for a in v {
        for b in v {
            assert_eq!(is_above(a.to_bits(), b.to_bits()), a > b);
        }
    }
    assert!(!is_finite(f64::INFINITY.to_bits()));
    assert!(!is_above(f64::NAN.to_bits(), 0));
}

#[test]
fn each_recent_bucket_keeps_its_last_sample() {
    let mut w = RollingMedian::new(300, 100);
    for (ms, v) in [(0, 1.0), (50, 2.0), (120, 3.0), (180, 4.0), (290, 5.0), (410, 6.0)] {
        w.push(Ts::from_millis(ms), f64::to_bits(v));
    }
    let kept: Vec<f64> = w.ordered().iter().map(|b| f64::from_bits(*b)).collect();
    assert_eq!(kept, vec![5.0, 6.0]);
    assert_eq!(w.len(), 2);
    w.push(Ts::from_millis(420), f64::NAN.to_bits());
    w.push(Ts::from_millis(420), f64::INFINITY.to_bits());
    assert_eq!(w.len(), 2);
    assert_eq!(f64::from_bits(w.ordered()[1]), 6.0);
}

//! Measuring what blocks.
use medienzeit::timing::{Ms, Stats};

#[test]
fn milliseconds_have_one_decimal() {
    assert_eq!(Ms(0).text(), "0.0ms");
    assert_eq!(Ms(99).text(), "0.0ms");
    assert_eq!(Ms(100).text(), "0.1ms");
    assert_eq!(Ms(1_999).text(), "1.9ms");
    assert_eq!(Ms(190_050).text(), "190.0ms");
}

#[test]
fn a_summary_comes_every_so_often() {
    let mut s = Stats::new("reader round", 3);
    assert_eq!(s.record(1_000), None);
    assert_eq!(s.record(5_000), None);
    assert_eq!(
        s.record(3_300).as_deref(),
        Some("timing: reader round n=3 avg=3.1ms max=5.0ms")
    );
    assert_eq!((s.n, s.total_us, s.max_us), (0, 0, 0));
    assert_eq!(s.record(7), None);
    let mut each = Stats::new("x", 0);
    assert_eq!(each.record(200).as_deref(), Some("timing: x n=1 avg=0.2ms max=0.2ms"));
}

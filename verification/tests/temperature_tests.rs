use maison::temperature::temp_below;

fn below(a: f64, b: f64) -> bool {
    temp_below(a.to_bits(), b.to_bits())
}

#[test]
fn temp_below_matches_float_order() {
    let values = [
        f64::NEG_INFINITY, -1e300, -20.5, -1.0, -0.0, 0.0, 1e-310, 0.5, 19.5, 20.0, 21.25, 1e300,
        f64::INFINITY, f64::NAN,
    ];
    for a in values {
        for b in values {
            assert_eq!(below(a, b), a < b, "{a} < {b}");
        }
    }
}

#[test]
fn zeros_are_equal() {
    assert!(!below(-0.0, 0.0));
    assert!(!below(0.0, -0.0));
}

use pathtracer::scalar::{bits, key, EPS, INF, INFINITY, ONE};

fn k(x: f64) -> i64 {
    key(x.to_bits())
}

#[test]
fn key_of_named_constants() {
    assert_eq!(k(0.0), 0);
    assert_eq!(k(-0.0), -1);
    assert_eq!(k(1.0), ONE);
    assert_eq!(k(f64::INFINITY), INFINITY);
    assert_eq!(k(1e-6), EPS);
    assert_eq!(k(1e20), INF);
}

#[test]
fn key_round_trip() {
    for x in [0.0, -0.0, 1.5, -1.5, 1e-300, -1e300, f64::MAX, f64::MIN, f64::INFINITY] {
        assert_eq!(f64::from_bits(bits(k(x))).to_bits(), x.to_bits());
    }
}

#[test]
fn key_order_is_number_order() {
    let xs = [-1e300, -2.5, -1e-300, 0.0, 1e-300, 0.1, 0.33, 0.66, 1.0, 12.0, 1e20, f64::INFINITY];
    for i in 0..xs.len() {
        for j in 0..xs.len() {
            assert_eq!(xs[i] < xs[j], k(xs[i]) < k(xs[j]));
        }
    }
}

use tdigest::merge_order::{interleave, order_key};

fn key(x: f64) -> u64 {
    order_key(x.to_bits())
}

#[test]
fn order_key_follows_numeric_order() {
    let xs = [
        f64::NEG_INFINITY,
        -1.0e300,
        -2.5,
        -1.0,
        -f64::MIN_POSITIVE,
        0.0,
        f64::MIN_POSITIVE,
        1.0,
        1.5,
        1.0e300,
        f64::INFINITY,
    ];
    for w in xs.windows(2) {
        assert!(key(w[0]) < key(w[1]), "{} < {}", w[0], w[1]);
    }
}

#[test]
fn order_key_zeros_and_nan() {
    assert_eq!(key(-0.0), key(0.0));
    assert_eq!(key(0.0), 0x8000_0000_0000_0000);
    assert_eq!(key(1.0), 0x3ff0_0000_0000_0000 + 0x8000_0000_0000_0000);
    assert_eq!(key(-1.0), u64::MAX - 0xbff0_0000_0000_0000);
    assert_eq!(key(f64::NAN), u64::MAX);
    assert_eq!(key(-f64::NAN), u64::MAX);
    assert!(key(f64::INFINITY) < key(f64::NAN));
}

#[test]
fn interleave_prefers_value_on_ties() {
    let c: Vec<u64> = vec![1, 5, 5];
    let v: Vec<u64> = vec![3, 5, 9];
    assert_eq!(interleave(&c, &v), vec![true, false, false, true, true, false]);
}

#[test]
fn interleave_with_one_side_empty() {
    let empty: Vec<u64> = Vec::new();
    let c: Vec<u64> = vec![2, 4];
    assert_eq!(interleave(&c, &empty), vec![true, true]);
    assert_eq!(interleave(&empty, &c), vec![false, false]);
    assert!(interleave(&empty, &empty).is_empty());
}

#[test]
fn interleave_visits_keys_in_order() {
    let c: Vec<u64> = vec![key(-3.0), key(0.5), key(7.0), key(20.0)];
    let v: Vec<u64> = vec![key(-4.0), key(0.5), key(1.0), key(8.0), key(30.0)];
    let order = interleave(&c, &v);
    assert_eq!(order.len(), c.len() + v.len());
    assert_eq!(order.iter().filter(|b| **b).count(), c.len());
    let (mut i, mut j) = (0, 0);
    let mut seen = Vec::new();
    for take_centroid in order {
        if take_centroid {
            seen.push(c[i]);
            i += 1;
        } else {
            seen.push(v[j]);
            j += 1;
        }
    }
    assert!(seen.windows(2).all(|w| w[0] <= w[1]));
}

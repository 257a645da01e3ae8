use rpppp::histogram::Histogram;

#[test]
fn test_add_value() {
    let mut h: Histogram<100> = Histogram::new();
    h.add_value(98);
    h.add_value(99);
    h.add_value(101);
    h.add_value(100);
}

#[test]
fn test_overflow() {
    let mut h: Histogram<5> = Histogram::new();
    h.add_value(0);
    h.add_value(4);
    h.add_value(5);
    h.add_value(6);
    h.add_value(6);
    h.add_value(9);

    assert!(h.overflow_len() == 4);

    assert_eq!(h.get_frequency_table_from_overflow(), vec![(5, 1), (6, 2), (9, 1)])
}

#[test]
fn enumerate_with_overflow() {
    // values [0, 4, 5, 6, 6, 9] in a histogram of five dense buckets:
    // enumeration reproduces every value with its frequency, and the
    // largest observation is 9
    let mut h: Histogram<5> = Histogram::new();
    for v in [0, 4, 5, 6, 6, 9] {
        h.add_value(v);
    }
    assert_eq!(h.enumerate_nonempty(), vec![(0, 1), (4, 1), (5, 1), (6, 2), (9, 1)]);
    assert_eq!(h.max_value(), 9);
}

#[test]
fn enumerate_round_trip() {
    // adding a collection of values and enumerating frequencies gives the
    // collection back, dense and overflow alike
    let values = [3usize, 3, 3, 0, 7, 7, 12, 9, 9, 9];
    let mut h: Histogram<10> = Histogram::new();
    for v in values {
        h.add_value(v);
    }
    let pairs = h.enumerate_nonempty();
    assert_eq!(pairs, vec![(0, 1), (3, 3), (7, 2), (9, 3), (12, 1)]);
    let total: usize = pairs.iter().map(|p| p.1).sum();
    assert_eq!(total, values.len());
}

#[test]
fn merge_sums_buckets_and_overflow() {
    let mut a: Histogram<5> = Histogram::new();
    a.add_value(1);
    a.add_value(1);
    a.add_value(6);
    let mut b: Histogram<5> = Histogram::new();
    b.add_value(1);
    b.add_value(3);
    b.add_value(5);
    a.add_data_from(&b);
    assert_eq!(a.enumerate_nonempty(), vec![(1, 3), (3, 1), (5, 1), (6, 1)]);
}

#[test]
fn merge_is_commutative() {
    let mut a1: Histogram<4> = Histogram::new();
    let mut b1: Histogram<4> = Histogram::new();
    for v in [0, 2, 9, 9] {
        a1.add_value(v);
    }
    for v in [2, 5, 9] {
        b1.add_value(v);
    }
    // the same observations added the other way around
    let mut a2: Histogram<4> = Histogram::new();
    let mut b2: Histogram<4> = Histogram::new();
    for v in [0, 2, 9, 9] {
        a2.add_value(v);
    }
    for v in [2, 5, 9] {
        b2.add_value(v);
    }
    a1.add_data_from(&b1);
    b2.add_data_from(&a2);
    assert_eq!(a1.enumerate_nonempty(), b2.enumerate_nonempty());
}

#[test]
fn merge_with_empty_changes_nothing() {
    let mut a: Histogram<4> = Histogram::new();
    for v in [1, 1, 7] {
        a.add_value(v);
    }
    let before = a.enumerate_nonempty();
    let empty: Histogram<4> = Histogram::new();
    a.add_data_from(&empty);
    assert_eq!(a.enumerate_nonempty(), before);
}

#[test]
fn merge_is_associative() {
    let sets = [[1usize, 6, 6], [2, 2, 9], [0, 3, 11]];
    let build = |vals: &[usize]| {
        let mut h: Histogram<5> = Histogram::new();
        for &v in vals {
            h.add_value(v);
        }
        h
    };
    // (a + b) + c
    let mut left = build(&sets[0]);
    left.add_data_from(&build(&sets[1]));
    left.add_data_from(&build(&sets[2]));
    // a + (b + c)
    let mut bc = build(&sets[1]);
    bc.add_data_from(&build(&sets[2]));
    let mut right = build(&sets[0]);
    right.add_data_from(&bc);
    assert_eq!(left.enumerate_nonempty(), right.enumerate_nonempty());
}

#[test]
fn max_value_of_empty_is_zero() {
    let h: Histogram<8> = Histogram::new();
    assert_eq!(h.max_value(), 0);
}

#[test]
fn max_value_dense_only() {
    let mut h: Histogram<8> = Histogram::new();
    h.add_value(0);
    h.add_value(3);
    assert_eq!(h.max_value(), 3);
}

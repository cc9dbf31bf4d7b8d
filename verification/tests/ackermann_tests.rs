use sheep_shed::ackermann::ackermann_2ary_iter;

#[test]
fn ackermann_2ary_iter_r1() {
    let ns = vec![0, 1, 13, 23897];
    // A(0, n) => n + 1
    for n in ns {
        assert_eq!(ackermann_2ary_iter(0, n), n + 1);
    }
}

#[test]
fn ackermann_2ary_iter_r2() {
    let ms = vec![0, 1, 2, 3];
    // A(m + 1, 0) => A(m, 1)
    for m in ms {
        assert_eq!(ackermann_2ary_iter(m + 1, 0), ackermann_2ary_iter(m, 1));
    }
}

#[test]
fn ackermann_2ary_iter_r3() {
    let (m, n) = (1, 1);
    // A(m + 1, n + 1) => A(m, A(m + 1, n))
    assert_eq!(
        ackermann_2ary_iter(m + 1, n + 1),
        ackermann_2ary_iter(m, ackermann_2ary_iter(m + 1, n))
    );
}

#[test]
fn ackermann_2ary_iter_known_res() {
    // A(1, 2) => 4
    assert_eq!(ackermann_2ary_iter(1, 2), 4);
}

#[test]
fn ackermann_2ary_iter_more_known_values() {
    assert_eq!(ackermann_2ary_iter(2, 3), 9);
    assert_eq!(ackermann_2ary_iter(3, 3), 61);
    assert_eq!(ackermann_2ary_iter(3, 5), 253);
}

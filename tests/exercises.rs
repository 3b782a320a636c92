use todo_store::{
    fib_sync, first, inc_x, index, int_string, is_alphanumeric, match_expr, max, min_max, primis,
    uppercase, uppercases, BitSet, Expr, Point, VehicleStatus,
};

#[test]
fn vehicle_descriptions() {
    let parked = VehicleStatus::Parked;
    assert!(parked.is_operational());
    assert_eq!(parked.description(), "The vehicle is parked.");
    let driving = VehicleStatus::Driving { speed: 80 };
    assert!(driving.is_operational());
    assert_eq!(driving.description(), "The vehicle is driving at 80 km/h.");
    let broken_down = VehicleStatus::BrokenDown("Flat tire".to_string());
    assert!(!broken_down.is_operational());
    assert_eq!(broken_down.description(), "The vehicle is broken down: Flat tire.");
    assert_eq!(VehicleStatus::Driving { speed: 0 }.description(), "The vehicle is driving at 0 km/h.");
    assert_eq!(
        VehicleStatus::Driving { speed: u32::MAX }.description(),
        "The vehicle is driving at 4294967295 km/h."
    );
}

#[test]
fn letter_cases() {
    assert_eq!(uppercase(b'a'), 'A');
    assert_eq!(uppercase(b'z'), 'z');
    assert_eq!(uppercase(b'7'), '7');
    assert_eq!(uppercases(b'q'), b'Q');
    assert_eq!(uppercases(b'Q'), b'Q');
    assert!(is_alphanumeric('b'));
    assert!(is_alphanumeric('0'));
    assert!(!is_alphanumeric('9'));
    assert!(!is_alphanumeric('-'));
}

#[test]
fn points() {
    let mut p = Point::new(10, 20);
    inc_x(&mut p);
    assert_eq!(p, Point::new(11, 20));
    p.translate(-11, 5);
    assert_eq!(p, Point { x: 0, y: 25 });
    assert_eq!(Point::origin(), Point { x: 0, y: 0 });
    assert_eq!(Point::new(10, 20).add(Point::new(30, 40)), Point::new(40, 60));
}

#[test]
fn slices() {
    assert_eq!(max(3, 9), 9);
    assert_eq!(max(-1, -5), -1);
    assert_eq!(*first(&["a", "b"]), "a");
    assert_eq!(index(&[4, 8, 8, 1], &8), Some(1));
    assert_eq!(index(&[4, 8], &3), None);
    assert_eq!(min_max(&[3, -2, 9, 0]), Some((-2, 9)));
    assert_eq!(min_max(&[]), None);
}

#[test]
fn primes_and_fibonacci() {
    let primes: Vec<i32> = (1..30).filter_map(primis).collect();
    assert_eq!(primes, vec![2, 3, 5, 7, 11, 13, 17, 19, 23, 29]);
    assert_eq!(primis(-7), None);
    assert_eq!(fib_sync(0), 0);
    assert_eq!(fib_sync(1), 1);
    assert_eq!(fib_sync(10), 55);
    assert_eq!(fib_sync(30), 832040);
}

#[test]
fn bit_sets() {
    let mut n: u64 = 0;
    n.set(5);
    assert!(n.is_set(5));
    assert_eq!(n, 32);
    n.set(63);
    n.clear(5);
    assert!(!n.is_set(5));
    assert_eq!(n, 1 << 63);
    n.toogle(0);
    n.toogle(63);
    assert_eq!(n, 1);
}

#[test]
fn expression_lines() {
    assert_eq!(match_expr(&Expr::Null), "Null");
    assert_eq!(match_expr(&Expr::Add(40, 2)), "Add: 40 + 2");
    assert_eq!(match_expr(&Expr::Sub(-3, 7)), "Sub: -3 - 7");
    assert_eq!(match_expr(&Expr::Mul(6, -7)), "Mul: 6 * -7");
    assert_eq!(match_expr(&Expr::Div { dividend: 10, divisor: 2 }), "Div: 10 / 2");
    assert_eq!(match_expr(&Expr::Val(0)), "Val: 0");
    assert_eq!(int_string(i32::MIN), "-2147483648");
    assert_eq!(int_string(i32::MAX), "2147483647");
}

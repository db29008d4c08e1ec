use flatlanders::flatlander::Flatlander;
use flatlanders::shadow::tan_num;
use flatlanders::shadow::Shadow;
use flatlanders::shadow::ShadowEnd;
use flatlanders::shadow::TAN_DEN;

#[test]
fn test_shadow_new_positive_angle() {
    // 45 degrees: tangent exactly 1, so the reach equals the height.
    let flatlander = Flatlander::new(0, 10).unwrap();

    let shadow = Shadow::new(&flatlander, tan_num(45), TAN_DEN);

    // tan(45) = 1, so the shadow covers [0, 10].
    assert_eq!(shadow.start, 0);
    assert_eq!(shadow.end, ShadowEnd::Fin(10 * TAN_DEN as i64));
    assert_eq!(shadow.den, TAN_DEN);
}

#[test]
fn test_shadow_new_negative_angle() {
    // -45 degrees: tangent exactly -1, the shadow is thrown backwards.
    let flatlander = Flatlander::new(5, 10).unwrap();

    let shadow = Shadow::new(&flatlander, -(TAN_DEN as i64), TAN_DEN);

    // tan(-45) = -1, reach -10, normalized to [-5, 5].
    assert_eq!(shadow.start, -5 * TAN_DEN as i64);
    assert_eq!(shadow.end, ShadowEnd::Fin(5 * TAN_DEN as i64));
    assert_eq!(shadow.den, TAN_DEN);
}

#[test]
fn test_shadow_new_zero_angle() {
    // A tangent of exactly zero: the shadow reaches positive infinity.
    let flatlander = Flatlander::new(2, 10).unwrap();

    let shadow = Shadow::new(&flatlander, 0, TAN_DEN);

    assert_eq!(shadow.start, 2 * TAN_DEN as i64);
    assert!(matches!(shadow.end, ShadowEnd::Inf));
}

#[test]
fn tangent_table_values() {
    assert_eq!(tan_num(45), 1_000_000_000);
    assert_eq!(tan_num(10), 176_326_981);
    assert_eq!(tan_num(80), 5_671_281_820);
    assert_eq!(tan_num(30), 577_350_269);
}

#[test]
fn compare_orders_by_start_then_end() {
    let a = Shadow { start: 0, end: ShadowEnd::Fin(5), den: 1 };
    let b = Shadow { start: 1, end: ShadowEnd::Fin(3), den: 1 };
    let c = Shadow { start: 0, end: ShadowEnd::Fin(7), den: 1 };
    let inf = Shadow { start: 0, end: ShadowEnd::Inf, den: 1 };
    assert_eq!(Shadow::compare(&a, &b), std::cmp::Ordering::Less);
    assert_eq!(Shadow::compare(&b, &a), std::cmp::Ordering::Greater);
    assert_eq!(Shadow::compare(&a, &c), std::cmp::Ordering::Less);
    assert_eq!(Shadow::compare(&a, &a), std::cmp::Ordering::Equal);
    assert_eq!(Shadow::compare(&a, &inf), std::cmp::Ordering::Less);
    assert_eq!(Shadow::compare(&inf, &a), std::cmp::Ordering::Greater);
    assert_eq!(Shadow::compare(&inf, &inf), std::cmp::Ordering::Equal);
}

use ddquery::timestamp::SysTime;

#[test]
fn new_and_minimum() {
    assert_eq!(SysTime::new(42).internal, 42);
    assert_eq!(SysTime::minimum().internal, 0);
    assert_eq!(SysTime::maximum().internal, u64::MAX);
}

#[test]
fn ordering_ops() {
    let a = SysTime::new(3);
    let b = SysTime::new(5);
    assert!(a.less_equal(&b));
    assert!(a.less_equal(&a));
    assert!(a.less_than(&b));
    assert!(!b.less_than(&a));
    assert_eq!(a.join(&b).internal, 5);
    assert_eq!(a.meet(&b).internal, 3);
}

#[test]
fn step_forward_and_back() {
    let t = SysTime::new(7);
    assert_eq!(t.step_forward().internal, 8);
    assert_eq!(t.step_back().unwrap().internal, 6);
    assert!(SysTime::minimum().step_back().is_none());
    assert_eq!(SysTime::new(0).try_step_forward().unwrap().internal, 1);
    assert!(SysTime::maximum().try_step_forward().is_none());
    let amount = SysTime::new(10);
    assert_eq!(t.step_forward_by(&amount).internal, 17);
    assert_eq!(t.try_step_forward_by(&amount).unwrap().internal, 17);
    assert!(SysTime::maximum().try_step_forward_by(&amount).is_none());
}

#[test]
fn saturating_ops() {
    let a = SysTime::new(5);
    let b = SysTime::new(9);
    assert_eq!(a.saturating_sub(b).internal, 0);
    assert_eq!(b.saturating_sub(a).internal, 4);
    assert_eq!(SysTime::maximum().saturating_add(SysTime::new(1)).internal, u64::MAX);
    assert_eq!(a.saturating_add(b).internal, 14);
    assert_eq!(a.saturating_mul(b).internal, 45);
    assert_eq!(SysTime::maximum().saturating_mul(SysTime::new(2)).internal, u64::MAX);
}

#[test]
fn checked_ops() {
    let a = SysTime::new(5);
    assert_eq!(a.checked_add(SysTime::new(3)).unwrap().internal, 8);
    assert!(SysTime::maximum().checked_add(SysTime::new(1)).is_none());
    assert_eq!(a.checked_sub(SysTime::new(3)).unwrap().internal, 2);
    assert!(a.checked_sub(SysTime::new(6)).is_none());
}

#[test]
fn byte_encoding_round_trip() {
    let t = SysTime::new(0x0102030405060708);
    let bytes = t.to_bytes();
    assert_eq!(bytes, [0x08, 0x07, 0x06, 0x05, 0x04, 0x03, 0x02, 0x01]);
    assert_eq!(SysTime::from_bytes(bytes), t);
    let zero = SysTime::minimum();
    assert_eq!(SysTime::from_bytes(zero.to_bytes()), zero);
    let max = SysTime::maximum();
    assert_eq!(SysTime::from_bytes(max.to_bytes()), max);
}

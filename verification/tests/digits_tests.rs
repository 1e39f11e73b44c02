use factor_trace::Digits;

#[test]
fn from_u64_gives_decimal_form() {
    assert_eq!(Digits::from_u64(0).bytes().as_slice(), b"0");
    assert_eq!(Digits::from_u64(7).bytes().as_slice(), b"7");
    assert_eq!(Digits::from_u64(12345).bytes().as_slice(), b"12345");
    assert_eq!(
        Digits::from_u64(u64::MAX).bytes().as_slice(),
        b"18446744073709551615"
    );
}

#[test]
fn from_decimal_accepts_well_formed_forms_only() {
    assert!(Digits::from_decimal(b"123".to_vec()).is_some());
    assert!(Digits::from_decimal(b"0".to_vec()).is_some());
    assert!(Digits::from_decimal(Vec::new()).is_none());
    assert!(Digits::from_decimal(b"01".to_vec()).is_none());
    assert!(Digits::from_decimal(b"12a".to_vec()).is_none());
    assert!(Digits::from_decimal(b"-5".to_vec()).is_none());
    let d = Digits::from_decimal(b"987654321987654321987654321".to_vec()).unwrap();
    assert_eq!(d.bytes().as_slice(), b"987654321987654321987654321");
}

#[test]
fn duplicate_and_same_value_agree() {
    let a = Digits::from_u64(144);
    let b = a.duplicate();
    assert!(a.same_value(&b));
    assert_eq!(a.bytes(), b.bytes());
    let c = Digits::from_u64(145);
    assert!(!a.same_value(&c));
}

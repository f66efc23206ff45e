use sequel::decimal::Decimal;

#[test]
fn canonical_form() {
    assert_eq!(Decimal::make(176, 1), Some(Decimal { mantissa: 176, scale: 1 }));
    assert_eq!(Decimal::make(2500, 3), Some(Decimal { mantissa: 25, scale: 1 }));
    assert_eq!(Decimal::make(1000, 3), Some(Decimal { mantissa: 1, scale: 0 }));
    assert_eq!(Decimal::make(0, 5), Some(Decimal { mantissa: 0, scale: 0 }));
    assert_eq!(Decimal::make(1, 25), None);
}

#[test]
fn rendering() {
    assert_eq!(Decimal::from_int(0).to_bytes(), b"0".to_vec());
    assert_eq!(Decimal::from_int(16).to_bytes(), b"16".to_vec());
    assert_eq!(Decimal { mantissa: 176, scale: 1 }.to_bytes(), b"17.6".to_vec());
    assert_eq!(Decimal { mantissa: 5, scale: 2 }.to_bytes(), b"0.05".to_vec());
}

#[test]
fn ordering() {
    let a = Decimal { mantissa: 176, scale: 1 };
    let b = Decimal::from_int(18);
    assert!(a.lt(&b));
    assert!(!b.lt(&a));
    assert!(a.le(&b));
    assert!(a.le(&a));
    assert!(a.eq_value(&a));
    assert!(!a.eq_value(&b));
}

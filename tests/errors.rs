use varing::{ConstDecodeError, ConstEncodeError, DecodeError, EncodeError, InsufficientSpace};

#[test]
fn insufficient_space_accessors() {
    let e = InsufficientSpace::new(5, 2);
    assert_eq!(e.requested(), 5);
    assert_eq!(e.available(), 2);
}

#[test]
fn error_constructors() {
    assert_eq!(DecodeError::overflow(), DecodeError::Overflow);
    assert_eq!(DecodeError::insufficient_data(3), DecodeError::InsufficientData { available: 3 });
    assert_eq!(DecodeError::other("x"), DecodeError::Other("x"));
    assert_eq!(DecodeError::custom("y"), DecodeError::Other("y"));
    assert_eq!(EncodeError::other("z"), EncodeError::Other("z"));
    assert_eq!(
        EncodeError::insufficient_space(3, 1),
        EncodeError::InsufficientSpace(InsufficientSpace::new(3, 1))
    );
    assert_eq!(ConstDecodeError::overflow(), ConstDecodeError::Overflow);
    assert_eq!(
        ConstDecodeError::insufficient_data(0),
        ConstDecodeError::InsufficientData { available: 0 }
    );
    assert_eq!(ConstDecodeError::other("m"), ConstDecodeError::Other("m"));
    assert_eq!(ConstEncodeError::other("m"), ConstEncodeError::Other("m"));
}

#[test]
fn const_errors_convert() {
    let e = ConstEncodeError::insufficient_space(9, 4);
    assert_eq!(EncodeError::from(e), EncodeError::insufficient_space(9, 4));
    let e = ConstEncodeError::other("m").update(7, 1);
    assert_eq!(EncodeError::from(e), EncodeError::Other("m"));
    let e = ConstEncodeError::insufficient_space(2, 1).update(7, 1);
    assert_eq!(EncodeError::from(e), EncodeError::insufficient_space(7, 1));
    assert_eq!(
        DecodeError::from(ConstDecodeError::InsufficientData { available: 2 }),
        DecodeError::InsufficientData { available: 2 }
    );
    assert_eq!(DecodeError::from(ConstDecodeError::Overflow), DecodeError::Overflow);
}

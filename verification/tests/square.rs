use sealion::Square;

#[test]
fn square_to_str() {
    assert_eq!(&Square::at(0, 0).unwrap().to_string(), "a1");
    assert_eq!(&Square::at(7, 5).unwrap().to_string(), "f8");
    assert_eq!(&Square::at(3, 4).unwrap().to_string(), "e4");
    assert_eq!(&Square::at(6, 2).unwrap().to_string(), "c7");
    assert_eq!(&Square::at(8, 8), &None);
}

#[test]
fn square_from_str() {
    assert_eq!(Square::from_str("a2"), Square::at(1, 0).ok_or(()));
    assert_eq!(Square::from_str("h8"), Square::at(7, 7).ok_or(()));
    assert_eq!(Square::from_str("C5"), Square::at(4, 2).ok_or(()));
    assert_eq!(Square::from_str("e6"), Square::at(5, 4).ok_or(()));
    assert!(Square::from_str("5c").is_err());
    assert!(Square::from_str("b-").is_err());
    assert!(Square::from_str("^8").is_err());
    assert!(Square::from_str("b891").is_err());
    assert!(Square::from_str("b0").is_err());
}

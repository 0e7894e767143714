use chess_state_machine::square::Square;

#[test]
fn test_parse_algebraic_lowercase() {
    let sq = Square::try_from("e4").unwrap();
    assert_eq!(4, sq.x);
    assert_eq!(3, sq.y);
    let sq = Square::try_from("a1").unwrap();
    assert_eq!(0, sq.x);
    assert_eq!(0, sq.y);
    let sq = Square::try_from("h8").unwrap();
    assert_eq!(7, sq.x);
    assert_eq!(7, sq.y);
}

#[test]
fn test_parse_algebraic_uppercase_file() {
    let sq = Square::try_from("E4").unwrap();
    assert_eq!(4, sq.x);
    assert_eq!(3, sq.y);
}

#[test]
fn test_parse_rejects_bad_input() {
    assert!(Square::try_from("").is_err());
    assert!(Square::try_from("e").is_err());
    assert!(Square::try_from("e44").is_err());
    assert!(Square::try_from("e9").is_err());
    assert!(Square::try_from("i4").is_err());
    assert!(Square::try_from("4!").is_err());
    assert!(Square::try_from("--").is_err());
}

#[test]
fn test_parse_later_characters_overwrite_components() {
    // Both characters are valid rank digits: the rank is written twice and
    // the file keeps its starting value.
    let sq = Square::try_from("33").unwrap();
    assert_eq!(0, sq.x);
    assert_eq!(2, sq.y);
    // Reversed order still assigns each component from its own character
    // class.
    let sq = Square::try_from("3e").unwrap();
    assert_eq!(4, sq.x);
    assert_eq!(2, sq.y);
}

#[test]
fn test_to_algebraic() {
    assert_eq!("e4", Square { x: 4, y: 3 }.to_algebraic());
    assert_eq!("a1", Square { x: 0, y: 0 }.to_algebraic());
    assert_eq!("h8", Square { x: 7, y: 7 }.to_algebraic());
}

#[test]
fn test_from_coordinate_pairs() {
    let sq = Square::from((2u8, 5u8));
    assert_eq!(2, sq.x);
    assert_eq!(5, sq.y);
    let sq = Square::from([6u8, 1u8]);
    assert_eq!(6, sq.x);
    assert_eq!(1, sq.y);
}

use chess_core::vec2::{board_cells, Vec2};

#[test]
fn vec2_conver() {
    if Vec2::new(1, 2) != Vec2::from_str("(1,2)").unwrap() {
        panic!("Err when vec2 convert")
    }

    if Vec2::new(4, 2) != Vec2::from_str("( 4 ,2 )").unwrap() {
        panic!("Err when vec2 convert")
    }
}

#[test]
fn vec2_to_string_canonical() {
    assert_eq!(Vec2::new(1, 2).to_string(), "(1,2)");
    assert_eq!(Vec2::new(-12, 305).to_string(), "(-12,305)");
    assert_eq!(Vec2::new(0, 0).to_string(), "(0,0)");
}

#[test]
fn vec2_text_round_trip() {
    let cases = [
        Vec2::new(0, 0),
        Vec2::new(7, 3),
        Vec2::new(-12, 305),
        Vec2::new(i32::MIN, i32::MAX),
    ];
    for v in cases.iter() {
        let s = v.to_string();
        assert_eq!(Vec2::from_str(&s), Ok(*v));
    }
}

#[test]
fn vec2_from_str_rejects_bad_text() {
    assert!(Vec2::from_str("(1,2").is_err());
    assert!(Vec2::from_str("1,2)").is_err());
    assert!(Vec2::from_str("(1 2)").is_err());
    assert!(Vec2::from_str("(1.5,2)").is_err());
    assert!(Vec2::from_str("(a,2)").is_err());
    assert!(Vec2::from_str("(99999999999,1)").is_err());
    assert!(Vec2::from_str("(2147483648,1)").is_err());
    assert!(Vec2::from_str("(1,2)x").is_err());
    assert!(Vec2::from_str("").is_err());
}

#[test]
fn vec2_from_str_accepts_spaces_and_signs() {
    assert_eq!(Vec2::from_str("  ( -3 ,\t4 )  "), Ok(Vec2::new(-3, 4)));
    assert_eq!(Vec2::from_str("(007,0)"), Ok(Vec2::new(7, 0)));
    assert_eq!(Vec2::from_str("(-2147483648,2147483647)"), Ok(Vec2::new(i32::MIN, i32::MAX)));
}

#[test]
fn between_on_a_file() {
    let r = Vec2::between(Vec2::new(0, 0), Vec2::new(0, 3));
    assert_eq!(r, vec![Vec2::new(0, 1), Vec2::new(0, 2)]);
}

#[test]
fn between_on_a_diagonal_backwards() {
    let r = Vec2::between(Vec2::new(4, 4), Vec2::new(1, 1));
    assert_eq!(r, vec![Vec2::new(3, 3), Vec2::new(2, 2)]);
}

#[test]
fn between_on_a_rank() {
    let r = Vec2::between(Vec2::new(5, 2), Vec2::new(2, 2));
    assert_eq!(r, vec![Vec2::new(4, 2), Vec2::new(3, 2)]);
}

#[test]
fn between_is_empty_off_line_and_for_neighbours() {
    assert!(Vec2::between(Vec2::new(0, 0), Vec2::new(1, 2)).is_empty());
    assert!(Vec2::between(Vec2::new(3, 3), Vec2::new(3, 3)).is_empty());
    assert!(Vec2::between(Vec2::new(3, 3), Vec2::new(4, 4)).is_empty());
}

#[test]
fn board_cells_lists_all_cells_file_by_file() {
    let cells = board_cells();
    assert_eq!(cells.len(), 64);
    assert_eq!(cells[0], Vec2::new(0, 0));
    assert_eq!(cells[1], Vec2::new(0, 1));
    assert_eq!(cells[8], Vec2::new(1, 0));
    assert_eq!(cells[63], Vec2::new(7, 7));
}

use chess::board::Move;
use chess::coord::string_to_move;

#[test]
fn round_trip_all_squares() {
    for x in 0..8u8 {
        for y in 0..8u8 {
            let m = Move { x, y };
            let s = m.move_to_string();
            let back = string_to_move(&s);
            assert_eq!(back, m);
            assert_eq!(s, back.move_to_string());
        }
    }
}

#[test]
fn format_examples() {
    assert_eq!(Move { x: 1, y: 4 }.move_to_string(), String::from("E2"));
    assert_eq!(Move { x: 0, y: 0 }.move_to_string(), String::from("A1"));
    assert_eq!(Move { x: 7, y: 7 }.move_to_string(), String::from("H8"));
}

#[test]
fn parse_examples() {
    assert_eq!(string_to_move(&String::from("E2")), Move { x: 1, y: 4 });
    assert_eq!(string_to_move(&String::from("A1")), Move { x: 0, y: 0 });
    assert_eq!(string_to_move(&String::from("H8")), Move { x: 7, y: 7 });
}

#[test]
fn malformed_input_is_rejected_by_the_controller() {
    let mut game = chess::game::Game::new();
    for bad in ["", "E", "E22", "e2", "I1", "E9", "2E", "??"] {
        game.input_move(String::from(bad), String::from("E3"));
        assert_eq!(game.do_turn(), Err(chess::game::TurnError::FormatError));
        assert!(game.white_turn);
        game.input_move(String::from("E2"), String::from(bad));
        assert_eq!(game.do_turn(), Err(chess::game::TurnError::FormatError));
        assert!(game.white_turn);
    }
}

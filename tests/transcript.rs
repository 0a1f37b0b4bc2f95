use zikzakzoo::{format_seed_and_moves, parse_move, parse_seed, verify_player_win};

#[test]
fn format_writes_seed_and_moves() {
    assert_eq!(format_seed_and_moves(12345, &[4, 0, 2]), "12345,4,0,2");
    assert_eq!(format_seed_and_moves(0, &[]), "0");
    assert_eq!(format_seed_and_moves(u64::MAX, &[8]), "18446744073709551615,8");
}

#[test]
fn formatted_game_verifies() {
    let text = format_seed_and_moves(7, &[0, 1, 2]);
    assert!(verify_player_win(&text));
}

#[test]
fn seed_tokens() {
    assert_eq!(parse_seed("12345"), Some(12345));
    assert_eq!(parse_seed("+5"), Some(5));
    assert_eq!(parse_seed("007"), Some(7));
    assert_eq!(parse_seed("18446744073709551615"), Some(u64::MAX));
    assert_eq!(parse_seed("18446744073709551616"), None);
    assert_eq!(parse_seed(""), None);
    assert_eq!(parse_seed("+"), None);
    assert_eq!(parse_seed("-1"), None);
    assert_eq!(parse_seed("1 "), None);
    assert_eq!(parse_seed("abc"), None);
}

#[test]
fn move_tokens() {
    assert_eq!(parse_move("0"), Some(0));
    assert_eq!(parse_move("8"), Some(8));
    assert_eq!(parse_move("+3"), Some(3));
    assert_eq!(parse_move("9"), None);
    assert_eq!(parse_move("99999999999999999999999"), None);
    assert_eq!(parse_move("x"), None);
    assert_eq!(parse_move(""), None);
}

#[test]
fn formatted_fields_read_back() {
    let text = format_seed_and_moves(5, &[0, 8, 3, 12]);
    let parts: Vec<&str> = text.split(',').collect();
    assert_eq!(parts.len(), 5);
    assert_eq!(parse_seed(parts[0]), Some(5));
    assert_eq!(parse_move(parts[1]), Some(0));
    assert_eq!(parse_move(parts[2]), Some(8));
    assert_eq!(parse_move(parts[3]), Some(3));
    assert_eq!(parse_move(parts[4]), None);
    assert_eq!(parse_seed(parts[4]), Some(12));
}

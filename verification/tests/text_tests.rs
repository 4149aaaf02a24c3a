use omi_game::text::{is_blank, is_team_a, is_white_space, room_code_from_hash, team_for_seat};

#[test]
fn blank_names() {
    assert!(is_blank(&"".to_string()));
    assert!(is_blank(&" \t\n".to_string()));
    assert!(!is_blank(&" a ".to_string()));
    assert!(!is_blank(&"ann".to_string()));
}

#[test]
fn teams_by_seat() {
    assert_eq!(team_for_seat(0), "A");
    assert_eq!(team_for_seat(1), "B");
    assert_eq!(team_for_seat(2), "A");
    assert_eq!(team_for_seat(3), "B");
    assert!(is_team_a(&team_for_seat(2)));
    assert!(!is_team_a(&team_for_seat(3)));
    assert!(!is_team_a(&"AA".to_string()));
}

#[test]
fn room_codes_are_six_digits() {
    assert_eq!(room_code_from_hash(0), "000000");
    assert_eq!(room_code_from_hash(1234567), "234567");
    assert_eq!(room_code_from_hash(u64::MAX), "551615");
}

#[test]
fn white_space_matches_the_standard_library() {
    for x in 0u32..0x3100 {
        if let Some(c) = char::from_u32(x) {
            assert_eq!(is_white_space(c), c.is_whitespace(), "U+{:04X}", x);
        }
    }
    for x in [0xFEFFu32, 0x180E, 0x10FFFF, 0xE000] {
        let c = char::from_u32(x).unwrap();
        assert_eq!(is_white_space(c), c.is_whitespace());
    }
    assert!(is_blank(&"\u{3000}\u{A0}\u{2028}".to_string()));
    assert!(!is_blank(&"\u{200B}".to_string()));
}

#[test]
fn room_codes_match_zero_padded_formatting() {
    for h in [0u64, 7, 42, 999, 1000, 65535, 999999, 1000000, 123456789, u64::MAX] {
        assert_eq!(room_code_from_hash(h), format!("{:06}", h % 1_000_000));
    }
}

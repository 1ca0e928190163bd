use langton_ant::board::{Direction, Rule};

#[test]
fn parse_classical_rule() {
    let rule = Rule::new("LR").expect("LR is a valid rule");
    assert_eq!(rule.len(), 2);
}

#[test]
fn parse_rejects_unknown_symbol() {
    assert!(Rule::new("LRX").is_err());
}

#[test]
fn parse_rejects_empty_text() {
    assert!(Rule::new("").is_err());
}

#[test]
fn parse_rejects_lowercase_symbols() {
    assert!(Rule::new("lr").is_err());
}

#[test]
fn parse_rejects_oversized_rule() {
    let text: String = std::iter::repeat('L').take(257).collect();
    assert!(Rule::new(&text).is_err());
    let text_max: String = std::iter::repeat('R').take(256).collect();
    assert!(Rule::new(&text_max).is_ok());
}

#[test]
fn rule_text_round_trip() {
    let rule = Rule::new("LRRL").expect("valid rule");
    assert_eq!(rule.text(), "LRRL");
}

#[test]
fn next_value_advances_modulo_length() {
    let rule = Rule::new("LRL").expect("valid rule");
    assert_eq!(rule.next_value(0), 1);
    assert_eq!(rule.next_value(1), 2);
    assert_eq!(rule.next_value(2), 0);
}

#[test]
fn next_value_has_period_equal_to_length() {
    for text in ["L", "LR", "LRL", "LRRLLRRR"] {
        let rule = Rule::new(text).expect("valid rule");
        let n = rule.len() as u8;
        for start in 0..n {
            let mut value = start;
            for _ in 0..n {
                value = rule.next_value(value);
            }
            assert_eq!(value, start);
        }
    }
}

#[test]
fn next_direction_follows_directive() {
    let rule = Rule::new("LR").expect("valid rule");
    assert_eq!(rule.next_direction(0, Direction::North), Direction::West);
    assert_eq!(rule.next_direction(1, Direction::North), Direction::East);
    assert_eq!(rule.next_direction(0, Direction::East), Direction::North);
    assert_eq!(rule.next_direction(1, Direction::East), Direction::South);
}

#[test]
fn turn_left_four_times_is_identity() {
    for d in [
        Direction::North,
        Direction::South,
        Direction::East,
        Direction::West,
    ] {
        assert_eq!(d.turn_left().turn_left().turn_left().turn_left(), d);
    }
}

#[test]
fn turn_right_four_times_is_identity() {
    for d in [
        Direction::North,
        Direction::South,
        Direction::East,
        Direction::West,
    ] {
        assert_eq!(d.turn_right().turn_right().turn_right().turn_right(), d);
    }
}

#[test]
fn next_direction_four_times_under_one_directive_is_identity() {
    let left_only = Rule::new("L").expect("valid rule");
    let right_only = Rule::new("R").expect("valid rule");
    for d in [
        Direction::North,
        Direction::South,
        Direction::East,
        Direction::West,
    ] {
        let mut turned = d;
        for _ in 0..4 {
            turned = left_only.next_direction(0, turned);
        }
        assert_eq!(turned, d);
        let mut turned = d;
        for _ in 0..4 {
            turned = right_only.next_direction(0, turned);
        }
        assert_eq!(turned, d);
    }
}

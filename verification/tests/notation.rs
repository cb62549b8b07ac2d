use puretd_engine::board::{Move, Play, BAR_SENTINEL, OFF_SENTINEL};
use puretd_engine::notation::{notation, push_decimal, push_padded, push_signed};

fn play_of(moves: &[(i32, i32)]) -> Play {
    let mut play = Play::default();
    for (i, (src, dst)) in moves.iter().enumerate() {
        play.moves[i] = Move { src: *src, dst: *dst };
    }
    play.num_moves = moves.len() as i32;
    play
}

#[test]
fn the_best_opening_three_one_is_written_8_5_6_5() {
    assert_eq!(notation(&play_of(&[(7, 4), (5, 4)])), "8/5 6/5");
}

#[test]
fn entering_from_the_bar_is_written_bar() {
    assert_eq!(notation(&play_of(&[(BAR_SENTINEL, 19)])), "bar/20");
}

#[test]
fn bearing_off_is_written_off() {
    assert_eq!(notation(&play_of(&[(5, OFF_SENTINEL)])), "6/off");
}

#[test]
fn doubles_write_four_moves() {
    assert_eq!(
        notation(&play_of(&[(23, 17), (23, 17), (12, 6), (12, 6)])),
        "24/18 24/18 13/7 13/7"
    );
}

#[test]
fn a_play_without_moves_is_empty() {
    assert_eq!(notation(&play_of(&[])), "");
}

#[test]
fn moves_past_num_moves_are_not_written() {
    let mut play = play_of(&[(7, 4), (5, 4)]);
    play.moves[2] = Move { src: 1, dst: 0 };
    assert_eq!(notation(&play), "8/5 6/5");
}

#[test]
fn numerals_are_decimal() {
    let mut s = String::new();
    push_decimal(&mut s, 0);
    s.push(' ');
    push_decimal(&mut s, 1234567890);
    s.push(' ');
    push_decimal(&mut s, u64::MAX);
    assert_eq!(s, "0 1234567890 18446744073709551615");
}

#[test]
fn signed_numerals_carry_a_minus() {
    let mut s = String::new();
    push_signed(&mut s, -42);
    s.push(' ');
    push_signed(&mut s, i64::MIN);
    s.push(' ');
    push_signed(&mut s, 7);
    assert_eq!(s, "-42 -9223372036854775808 7");
}

#[test]
fn padding_adds_leading_zeros_only_when_short() {
    let mut s = String::new();
    push_padded(&mut s, 5, 2);
    s.push(' ');
    push_padded(&mut s, 12, 2);
    s.push(' ');
    push_padded(&mut s, 123, 2);
    s.push(' ');
    push_padded(&mut s, 7, 4);
    assert_eq!(s, "05 12 123 0007");
}

#[test]
fn slots_off_the_board_are_counted_from_one() {
    assert_eq!(notation(&play_of(&[(-5, 30)])), "-4/31");
}

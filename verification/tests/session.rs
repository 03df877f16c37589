use guessing_game::flow::{count_then_double, countdown_values};
use guessing_game::game::{compare_guess, play_script, Game, Outcome, Phase};
use guessing_game::parse::parse_guess;

#[test]
fn parse_plain_number() {
    assert_eq!(parse_guess(b"57"), Some(57));
}

#[test]
fn parse_trims_whitespace() {
    assert_eq!(parse_guess(b"  42 \n"), Some(42));
    assert_eq!(parse_guess(b"\t7\r\n"), Some(7));
}

#[test]
fn parse_leading_plus() {
    assert_eq!(parse_guess(b"+7"), Some(7));
}

#[test]
fn parse_leading_zeros() {
    assert_eq!(parse_guess(b"0057"), Some(57));
}

#[test]
fn parse_rejects_blank() {
    assert_eq!(parse_guess(b""), None);
    assert_eq!(parse_guess(b"   \n"), None);
}

#[test]
fn parse_rejects_bare_sign() {
    assert_eq!(parse_guess(b"+"), None);
}

#[test]
fn parse_rejects_negative() {
    assert_eq!(parse_guess(b"-5"), None);
}

#[test]
fn parse_rejects_letters() {
    assert_eq!(parse_guess(b"abc"), None);
    assert_eq!(parse_guess(b"4x2"), None);
}

#[test]
fn parse_rejects_inner_space() {
    assert_eq!(parse_guess(b"4 2"), None);
}

#[test]
fn parse_max_value() {
    assert_eq!(parse_guess(b"4294967295"), Some(u32::MAX));
}

#[test]
fn parse_rejects_overflow() {
    assert_eq!(parse_guess(b"4294967296"), None);
    assert_eq!(parse_guess(b"42949672950"), None);
}

#[test]
fn compare_reports_each_outcome() {
    assert_eq!(compare_guess(3, 5), Outcome::TooSmall);
    assert_eq!(compare_guess(7, 5), Outcome::TooBig);
    assert_eq!(compare_guess(5, 5), Outcome::Win);
}

#[test]
fn scripted_session() {
    let mut game = Game::new(57);
    assert_eq!(game.submit_line(b"abc"), None);
    assert_eq!(game.phase, Phase::AwaitingInput);
    assert_eq!(game.submit_line(b"-5"), None);
    assert_eq!(game.phase, Phase::AwaitingInput);
    assert_eq!(game.submit_line(b"101"), Some(Outcome::TooBig));
    assert_eq!(game.phase, Phase::AwaitingInput);
    assert_eq!(game.submit_line(b"57"), Some(Outcome::Win));
    assert_eq!(game.phase, Phase::Won);
    assert_eq!(game.target, 57);
}

#[test]
fn scripted_session_as_script() {
    let lines: Vec<Vec<u8>> = vec![
        b"abc".to_vec(),
        b"-5".to_vec(),
        b"101".to_vec(),
        b"57".to_vec(),
    ];
    assert_eq!(play_script(57, &lines), Some(3));
}

#[test]
fn boundary_low_wins_first_try() {
    let mut game = Game::new(1);
    assert_eq!(game.submit_line(b"1"), Some(Outcome::Win));
    assert_eq!(game.phase, Phase::Won);
}

#[test]
fn boundary_high_wins_first_try() {
    let mut game = Game::new(100);
    assert_eq!(game.submit_line(b"100"), Some(Outcome::Win));
    assert_eq!(game.phase, Phase::Won);
}

#[test]
fn malformed_input_keeps_state() {
    let mut game = Game::new(30);
    for _ in 0..5 {
        assert_eq!(game.submit_line(b"not a number"), None);
        assert_eq!(game.target, 30);
        assert_eq!(game.phase, Phase::AwaitingInput);
    }
}

#[test]
fn script_without_winner_runs_out() {
    let lines: Vec<Vec<u8>> = vec![b"1".to_vec(), b"oops".to_vec(), b"100".to_vec()];
    assert_eq!(play_script(57, &lines), None);
}

#[test]
fn script_with_late_winner_stops_there() {
    let lines: Vec<Vec<u8>> = vec![
        b"garbage".to_vec(),
        b"12".to_vec(),
        b"99".to_vec(),
        b"42".to_vec(),
        b"7".to_vec(),
    ];
    assert_eq!(play_script(42, &lines), Some(3));
}

#[test]
fn random_target_lies_in_range() {
    for _ in 0..100 {
        let game = Game::new_random();
        assert!(1 <= game.target && game.target <= 100);
        assert_eq!(game.phase, Phase::AwaitingInput);
    }
}

#[test]
fn counter_loop_doubles_its_threshold() {
    assert_eq!(count_then_double(10), 20);
    assert_eq!(count_then_double(1), 2);
}

#[test]
fn countdown_calls_out_every_value() {
    assert_eq!(countdown_values(3), vec![3, 2, 1]);
    assert_eq!(countdown_values(0), Vec::<u32>::new());
}

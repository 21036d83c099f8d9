use simon_robot::game::{Game, Signal, Step, WIN_LENGTH};

/// Drive one whole round: answer every wait with a completion and the scan
/// for the new color with `new_color`. Returns every step the game asked
/// for, in order.
fn complete_round(game: &mut Game, new_color: usize) -> Vec<Step> {
    let known = game.sequence_len();
    let total = 2 * known + 2 + 4 * (known + 1);
    let mut steps = Vec::new();
    for _ in 0..total {
        let step = game.next_step();
        steps.push(step);
        match step {
            Step::WaitAnyLightOn => game.advance(Signal::Detected(new_color)),
            Step::Won => panic!("game ended in the middle of a round"),
            _ => game.advance(Signal::Done),
        }
    }
    steps
}

fn sequence_of(game: &Game) -> Vec<usize> {
    let mut colors = Vec::new();
    for i in 0..game.sequence_len() {
        colors.push(game.color_at(i));
    }
    colors
}

#[test]
fn fresh_game_starts_by_watching_for_the_new_color() {
    let game = Game::new();
    assert_eq!(game.sequence_len(), 0);
    assert!(!game.is_won());
    // With nothing discovered there is no known sequence to re-observe.
    assert_eq!(game.next_step(), Step::WaitAnyLightOn);
}

#[test]
fn each_round_appends_exactly_the_detected_color() {
    let mut game = Game::new();
    let picks = [1usize, 0, 3, 3, 2, 0];
    for (round, &pick) in picks.iter().enumerate() {
        let before = sequence_of(&game);
        complete_round(&mut game, pick);
        let after = sequence_of(&game);
        assert_eq!(after.len(), before.len() + 1);
        assert_eq!(&after[..before.len()], &before[..]);
        assert_eq!(after[before.len()], pick);
        assert_eq!(game.sequence_len(), round + 1);
    }
}

#[test]
fn round_steps_follow_the_protocol_order() {
    let mut game = Game::new();
    complete_round(&mut game, 1);
    complete_round(&mut game, 0);
    // Third round on the known sequence [green, red]: re-observe it, learn
    // blue, then replay [green, red, blue].
    let steps = complete_round(&mut game, 3);
    let expected = vec![
        Step::WaitLightOn(1),
        Step::WaitLightOff(1),
        Step::WaitLightOn(0),
        Step::WaitLightOff(0),
        Step::WaitAnyLightOn,
        Step::WaitLightOff(3),
        Step::LowerHand(1),
        Step::WaitLightOn(1),
        Step::LiftHand(1),
        Step::WaitLightOff(1),
        Step::LowerHand(0),
        Step::WaitLightOn(0),
        Step::LiftHand(0),
        Step::WaitLightOff(0),
        Step::LowerHand(3),
        Step::WaitLightOn(3),
        Step::LiftHand(3),
        Step::WaitLightOff(3),
    ];
    assert_eq!(steps, expected);
}

#[test]
fn replay_presses_each_button_once_in_sequence_order() {
    let mut game = Game::new();
    // Build the sequence green, red, blue.
    complete_round(&mut game, 1);
    complete_round(&mut game, 0);
    let steps = complete_round(&mut game, 3);
    // The replay is the tail of the round: exactly one lower/lift pair per
    // color, in sequence order, the lower before its wait-for-on and the
    // lift between it and the wait-for-off.
    let replay = &steps[steps.len() - 12..];
    let mut presses = Vec::new();
    for chunk in replay.chunks(4) {
        match (chunk[0], chunk[1], chunk[2], chunk[3]) {
            (
                Step::LowerHand(a),
                Step::WaitLightOn(b),
                Step::LiftHand(c),
                Step::WaitLightOff(d),
            ) => {
                assert_eq!(a, b);
                assert_eq!(b, c);
                assert_eq!(c, d);
                presses.push(a);
            }
            other => panic!("replay step out of order: {:?}", other),
        }
    }
    assert_eq!(presses, vec![1, 0, 3]);
}

#[test]
fn game_is_won_exactly_at_the_winning_length() {
    let mut game = Game::new();
    for round in 0..WIN_LENGTH - 1 {
        complete_round(&mut game, round % 4);
        assert!(!game.is_won());
    }
    assert_eq!(game.sequence_len(), WIN_LENGTH - 1);
    // At 99 the loop proceeds to another observing round.
    assert_eq!(game.next_step(), Step::WaitLightOn(0));
    complete_round(&mut game, 3);
    assert_eq!(game.sequence_len(), WIN_LENGTH);
    assert!(game.is_won());
    assert_eq!(game.next_step(), Step::Won);
}

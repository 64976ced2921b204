use yuh_bot::gambling::{
    cancelled_description, cancelled_title, effective_max_roll, join_description, lobby_reply, mentions,
    press_reply, players_heading, roll, roll_description, rolled_title,
    score_fields, session_title, settle, settlement_description, standings, you_rolled, Game, Lobby,
    PressOutcome, RollCheck, Settlement,
};

#[test]
fn mentions_join_with_separator() {
    assert_eq!(mentions(&vec![1, 22, 333], "\n"), "<@1>\n<@22>\n<@333>");
    assert_eq!(mentions(&vec![7], ", "), "<@7>");
    assert_eq!(mentions(&vec![], ", "), "");
    assert_eq!(mentions(&vec![u64::MAX, 0], ", "), "<@18446744073709551615>, <@0>");
}

#[test]
fn lobby_starts_with_host_and_toggles() {
    let mut lobby = Lobby::new(10);
    assert_eq!(lobby.player_ids(), vec![10]);
    assert!(!lobby.enough_players());
    assert!(lobby.press(20));
    assert_eq!(lobby.player_ids(), vec![10, 20]);
    assert!(lobby.enough_players());
    assert!(!lobby.press(10));
    assert_eq!(lobby.player_ids(), vec![20]);
    assert!(lobby.press(10));
    assert_eq!(lobby.player_ids(), vec![20, 10]);
}

#[test]
fn lobby_join_then_leave_restores() {
    let mut lobby = Lobby::new(1);
    lobby.press(2);
    let before = lobby.player_ids();
    lobby.press(3);
    lobby.press(3);
    assert_eq!(lobby.player_ids(), before);
}

#[test]
fn lobby_player_list_text() {
    let mut lobby = Lobby::new(5);
    lobby.press(6);
    assert_eq!(lobby.player_list(), "<@5>\n<@6>");
    lobby.press(5);
    lobby.press(6);
    assert_eq!(lobby.player_list(), "No players");
}

#[test]
fn game_press_outcomes() {
    let mut lobby = Lobby::new(1);
    lobby.press(2);
    let mut game = Game::start(&lobby);
    assert_eq!(game.check_press(3), RollCheck::NotInGame);
    assert_eq!(game.press(3, 100), PressOutcome::NotInGame);
    assert_eq!(game.check_press(1), RollCheck::MayRoll);
    match game.press(1, 6) {
        PressOutcome::Rolled { roll, finished } => {
            assert!((1..=6).contains(&roll));
            assert!(!finished);
        }
        other => panic!("unexpected {:?}", other),
    }
    assert_eq!(game.check_press(1), RollCheck::AlreadyRolled);
    assert_eq!(game.press(1, 6), PressOutcome::AlreadyRolled);
    assert!(!game.finished());
    match game.press(2, 6) {
        PressOutcome::Rolled { finished, .. } => assert!(finished),
        other => panic!("unexpected {:?}", other),
    }
    assert!(game.finished());
    assert_eq!(game.score_list().len(), 2);
}

#[test]
fn record_roll_appends() {
    let mut lobby = Lobby::new(1);
    lobby.press(2);
    lobby.press(3);
    let mut game = Game::start(&lobby);
    assert!(!game.record_roll(2, 40));
    assert!(!game.record_roll(1, 7));
    assert!(game.record_roll(3, 99));
    assert_eq!(game.score_list(), vec![(2, 40), (1, 7), (3, 99)]);
}

#[test]
fn roll_stays_in_range() {
    for _ in 0..200 {
        let r = roll(3);
        assert!((1..=3).contains(&r));
    }
    assert_eq!(roll(1), 1);
    assert_eq!(effective_max_roll(None), 100);
    assert_eq!(effective_max_roll(Some(6)), 6);
}

#[test]
fn standings_sort_descending_and_keep_ties_in_order() {
    let s = standings(&vec![(1, 30), (2, 90), (3, 30), (4, 5), (5, 90)]);
    assert_eq!(s, vec![(2, 90), (5, 90), (1, 30), (3, 30), (4, 5)]);
    assert_eq!(standings(&vec![]), vec![]);
}

#[test]
fn settle_needs_two_rolls() {
    assert_eq!(settle(&vec![]), None);
    assert_eq!(settle(&vec![(1, 50)]), None);
}

#[test]
fn settle_first_highest_wins_last_lowest_loses() {
    let st = settle(&vec![(1, 30), (2, 90), (3, 5), (4, 90), (5, 5)]).unwrap();
    assert_eq!(st, Settlement { winner: 2, winner_roll: 90, loser: 5, loser_roll: 5, amount: 85 });
}

#[test]
fn settle_all_equal_owes_nothing() {
    let st = settle(&vec![(7, 10), (8, 10), (9, 10)]).unwrap();
    assert_eq!(st, Settlement { winner: 7, winner_roll: 10, loser: 9, loser_roll: 10, amount: 0 });
}

#[test]
fn texts_are_exact() {
    assert_eq!(session_title("Kail"), "Kail's Gambling Session!");
    assert_eq!(rolled_title("Kail"), "Kail has rolled!");
    assert_eq!(join_description(100), "Max is 100, Click the button below to join!");
    assert_eq!(roll_description(0), "Max is 0, Click the button below to roll!");
    assert_eq!(players_heading(3), "Current Players (3)");
    assert_eq!(you_rolled(42), "You rolled 42!");
    let st = Settlement { winner: 2, winner_roll: 90, loser: 5, loser_roll: 5, amount: 85 };
    assert_eq!(settlement_description(&st), "Congrats <@2>! <@5> owes <@2> 85 gold!");
    assert_eq!(
        score_fields(&vec![(2, 90), (5, 5)]),
        vec![("<@2>".to_string(), "90".to_string()), ("<@5>".to_string(), "5".to_string())]
    );
}

#[test]
fn rolls_once_made_are_kept_along_a_run_of_presses() {
    let mut lobby = Lobby::new(1);
    lobby.press(2);
    lobby.press(3);
    let mut game = Game::start(&lobby);
    let mut states = vec![game.score_list()];
    for user in [2, 9, 2, 1, 1, 3, 2, 3] {
        game.press(user, 50);
        states.push(game.score_list());
    }
    for i in 0..states.len() {
        for j in i..states.len() {
            assert!(states[j].starts_with(&states[i]), "{:?} {:?}", states[i], states[j]);
        }
    }
    let last = states.last().unwrap();
    let order: Vec<u64> = last.iter().map(|(u, _)| *u).collect();
    assert_eq!(order, vec![2, 1, 3]);
    assert!(last.iter().all(|(_, r)| (1..=50).contains(r)));
}

#[test]
fn reply_texts_are_exact() {
    assert_eq!(lobby_reply(true), "You joined the lobby.");
    assert_eq!(lobby_reply(false), "You left the lobby.");
    assert_eq!(press_reply(&PressOutcome::NotInGame), "You are not in this game!");
    assert_eq!(press_reply(&PressOutcome::AlreadyRolled), "You already rolled!");
    assert_eq!(press_reply(&PressOutcome::Rolled { roll: 42, finished: false }), "You rolled 42!");
    assert_eq!(cancelled_title(), "Gambling Session Cancelled");
    assert_eq!(cancelled_description(false), "Not enough players joined the session (Minimum 2).");
    assert_eq!(cancelled_description(true), "Not enough players rolled (Minimum 2).");
}

use keldurben_hub::model::Phase;
use keldurben_hub::protocol::snapshot;
use keldurben_hub::protocol::ClientMsg;
use keldurben_hub::protocol::Draw;
use keldurben_hub::room::contains_cell;
use keldurben_hub::room::default_room;
use keldurben_hub::room::RoomState;

const ALICE: u128 = 1;
const BOB: u128 = 2;
const CAROL: u128 = 3;

fn trio() -> RoomState {
    let mut room = default_room();
    room.join(ALICE, "Alice".to_string());
    room.join(BOB, "Bob".to_string());
    room.join(CAROL, "Carol".to_string());
    room
}

fn scores(room: &RoomState) -> Vec<i32> {
    room.players.iter().map(|p| p.score).collect()
}

fn ids(room: &RoomState) -> Vec<u128> {
    room.players.iter().map(|p| p.id).collect()
}

fn no_draw() -> Draw {
    Draw { player_id: 0, options: vec![], fallback: 0 }
}

#[test]
fn default_room_is_an_empty_lobby() {
    let room = default_room();
    assert_eq!(room.name, "default");
    assert_eq!(room.round, 0);
    assert_eq!(room.cols, 30);
    assert_eq!(room.rows, 18);
    assert_eq!(room.cue_giver_idx, 0);
    assert_eq!(room.phase, Phase::Lobby);
    assert_eq!(room.cue1, None);
    assert_eq!(room.cue2, None);
    assert_eq!(room.target, None);
    assert_eq!(room.select_options, None);
    assert!(room.players.is_empty());
    assert!(room.guessed_once.is_empty());
    assert!(room.guessed_twice.is_empty());
    assert!(room.guess1_cells.is_empty());
    assert!(room.guess2_cells.is_empty());
    assert_eq!(room.cue_giver(), None);
}

#[test]
fn new_room_carries_its_name() {
    let room = RoomState::new("r".to_string());
    assert_eq!(room.name, "r");
    assert_eq!(room.phase, Phase::Lobby);
    assert_eq!((room.cols, room.rows), (30, 18));
}

#[test]
fn join_appends_a_player_with_no_points() {
    let room = trio();
    assert_eq!(ids(&room), vec![ALICE, BOB, CAROL]);
    assert_eq!(scores(&room), vec![0, 0, 0]);
    assert_eq!(room.players[1].name, "Bob");
    assert_eq!(room.cue_giver(), Some(ALICE));
    assert_eq!(room.phase, Phase::Lobby);
}

#[test]
fn start_game_overwrites_the_round() {
    let mut room = trio();
    room.players[0].score = 5;
    room.players[2].score = -2;
    room.round = 9;
    room.cue_giver_idx = 2;
    room.phase = Phase::Reveal;
    room.cue1 = Some("old".to_string());
    room.cue2 = Some("older".to_string());
    room.target = Some(77);
    room.guessed_once.insert(BOB);
    room.guess1_cells.insert(BOB, 4);
    room.guessed_twice.insert(CAROL);
    room.guess2_cells.insert(CAROL, 5);

    room.start_game_with(vec![10, 20, 30, 40]);

    assert_eq!(scores(&room), vec![0, 0, 0]);
    assert_eq!(ids(&room), vec![ALICE, BOB, CAROL]);
    assert_eq!(room.round, 1);
    assert_eq!(room.cue_giver_idx, 0);
    assert_eq!(room.phase, Phase::Cue1);
    assert_eq!(room.cue1, None);
    assert_eq!(room.cue2, None);
    assert_eq!(room.target, None);
    assert_eq!(room.select_options, Some(vec![10, 20, 30, 40]));
    assert!(room.guessed_once.is_empty());
    assert!(room.guessed_twice.is_empty());
    assert!(room.guess1_cells.is_empty());
    assert!(room.guess2_cells.is_empty());
    assert_eq!(room.name, "default");
    assert_eq!((room.cols, room.rows), (30, 18));
}

#[test]
fn start_game_yields_the_first_cue_from_every_phase() {
    for phase in [Phase::Lobby, Phase::Cue1, Phase::Guess1, Phase::Cue2, Phase::Guess2, Phase::Reveal] {
        let mut room = trio();
        room.target = Some(0);
        room.phase = phase;
        room.start_game();
        assert_eq!(room.phase, Phase::Cue1);
        assert_eq!(room.round, 1);
    }
}

#[test]
fn start_game_draws_four_distinct_candidates() {
    for _ in 0..200 {
        let mut room = trio();
        room.start_game();
        let options = room.select_options.clone().unwrap();
        assert_eq!(options.len(), 4);
        for i in 0..4 {
            assert!(options[i] < 540);
            for j in (i + 1)..4 {
                assert_ne!(options[i], options[j]);
            }
        }
    }
}

#[test]
fn lock_cue1_opens_the_first_guessing_phase() {
    let mut room = trio();
    room.start_game_with(vec![1, 2, 3, 4]);
    room.guessed_once.insert(BOB);
    room.guess1_cells.insert(BOB, 4);
    room.guessed_twice.insert(CAROL);
    room.guess2_cells.insert(CAROL, 5);

    room.lock_cue1("sky".to_string());

    assert_eq!(room.cue1, Some("sky".to_string()));
    assert_eq!(room.phase, Phase::Guess1);
    assert!(room.guessed_once.is_empty());
    assert!(room.guess1_cells.is_empty());
    assert!(room.guessed_twice.contains(&CAROL));
    assert_eq!(room.guess2_cells.get(&CAROL), Some(&5));
    assert_eq!(room.cue2, None);
    assert_eq!(room.select_options, Some(vec![1, 2, 3, 4]));
}

#[test]
fn lock_cue2_opens_the_second_guessing_phase() {
    let mut room = trio();
    room.start_game_with(vec![1, 2, 3, 4]);
    room.lock_cue1("sky".to_string());
    room.guessed_once.insert(BOB);
    room.guess1_cells.insert(BOB, 4);
    room.guessed_twice.insert(CAROL);
    room.guess2_cells.insert(CAROL, 5);

    room.lock_cue2("blue".to_string());

    assert_eq!(room.cue1, Some("sky".to_string()));
    assert_eq!(room.cue2, Some("blue".to_string()));
    assert_eq!(room.phase, Phase::Guess2);
    assert!(room.guessed_twice.is_empty());
    assert!(room.guess2_cells.is_empty());
    assert!(room.guessed_once.contains(&BOB));
    assert_eq!(room.guess1_cells.get(&BOB), Some(&4));
}

#[test]
fn cues_are_taken_in_any_phase() {
    let mut room = default_room();
    room.lock_cue2("early".to_string());
    assert_eq!(room.phase, Phase::Guess2);
    assert_eq!(room.cue2, Some("early".to_string()));
    room.lock_cue1("late".to_string());
    assert_eq!(room.phase, Phase::Guess1);
    assert_eq!(room.cue1, Some("late".to_string()));

    let mut room = trio();
    room.target = Some(0);
    room.phase = Phase::Reveal;
    room.lock_cue1("again".to_string());
    assert_eq!(room.phase, Phase::Guess1);
}

#[test]
fn only_the_cue_giver_chooses_the_target() {
    let mut room = trio();
    room.start_game_with(vec![10, 20, 30, 40]);
    room.choose_target(BOB, 20);
    assert_eq!(room.target, None);
    assert_eq!(room.select_options, Some(vec![10, 20, 30, 40]));
    room.choose_target(99, 20);
    assert_eq!(room.target, None);
}

#[test]
fn only_a_candidate_can_be_chosen() {
    let mut room = trio();
    room.start_game_with(vec![10, 20, 30, 40]);
    room.choose_target(ALICE, 21);
    assert_eq!(room.target, None);
    assert_eq!(room.select_options, Some(vec![10, 20, 30, 40]));
}

#[test]
fn a_choice_consumes_the_candidates() {
    let mut room = trio();
    room.start_game_with(vec![10, 20, 30, 40]);
    room.choose_target(ALICE, 30);
    assert_eq!(room.target, Some(30));
    assert_eq!(room.select_options, None);
    assert_eq!(room.phase, Phase::Cue1);
    // With the candidates gone, a second choice changes nothing.
    room.choose_target(ALICE, 10);
    assert_eq!(room.target, Some(30));
}

#[test]
fn nobody_chooses_in_a_room_without_candidates() {
    let mut room = trio();
    room.choose_target(ALICE, 0);
    assert_eq!(room.target, None);
    let mut empty = default_room();
    empty.select_options = Some(vec![1, 2, 3, 4]);
    empty.choose_target(ALICE, 1);
    assert_eq!(empty.target, None);
}

#[test]
fn first_guessing_phase_ends_when_every_guesser_has_guessed() {
    let mut room = trio();
    room.start_game_with(vec![10, 20, 30, 40]);
    room.lock_cue1("sky".to_string());

    room.guess_with(BOB, 11, 0);
    assert_eq!(room.phase, Phase::Guess1);
    assert!(!room.all_guessed());
    assert_eq!(room.guess1_cells.get(&BOB), Some(&11));
    assert!(room.guessed_once.contains(&BOB));

    room.guess_with(CAROL, 12, 0);
    assert_eq!(room.phase, Phase::Cue2);
    assert_eq!(room.guess1_cells.get(&CAROL), Some(&12));
    assert_eq!(scores(&room), vec![0, 0, 0]);
    assert_eq!(room.target, None);
}

#[test]
fn reveal_waits_for_every_guesser() {
    let mut room = trio();
    room.start_game_with(vec![10, 20, 30, 40]);
    room.choose_target(ALICE, 10);
    room.lock_cue1("sky".to_string());
    room.guess_with(BOB, 11, 0);
    room.guess_with(CAROL, 12, 0);
    room.lock_cue2("blue".to_string());

    room.guess_with(BOB, 10, 0);
    assert_eq!(room.phase, Phase::Guess2);
    assert_eq!(scores(&room), vec![0, 0, 0]);
    // The cue-giver's own guess and a repeated guess do not stand in for Carol's.
    room.guess_with(ALICE, 10, 0);
    assert_eq!(room.phase, Phase::Guess2);
    room.guess_with(BOB, 10, 0);
    assert_eq!(room.phase, Phase::Guess2);
    // A stranger's guess does not either.
    room.guess_with(77, 10, 0);
    assert_eq!(room.phase, Phase::Guess2);

    room.guess_with(CAROL, 40, 0);
    assert_eq!(room.phase, Phase::Reveal);
    assert!(room.guessed_twice.contains(&BOB));
    assert!(room.guessed_twice.contains(&CAROL));
}

#[test]
fn a_repeated_guess_overwrites_the_earlier_one() {
    let mut room = trio();
    room.start_game_with(vec![10, 20, 30, 40]);
    room.lock_cue1("sky".to_string());
    room.guess_with(BOB, 11, 0);
    room.guess_with(BOB, 99, 0);
    assert_eq!(room.guess1_cells.len(), 1);
    assert_eq!(room.guessed_once.len(), 1);
    assert_eq!(room.guess1_cells.get(&BOB), Some(&99));
    assert_eq!(room.phase, Phase::Guess1);
}

#[test]
fn a_guess_outside_the_guessing_phases_is_not_recorded() {
    for phase in [Phase::Lobby, Phase::Cue1, Phase::Cue2, Phase::Reveal] {
        let mut room = trio();
        room.target = Some(0);
        room.phase = phase;
        room.guess_with(BOB, 11, 0);
        room.guess_with(CAROL, 11, 0);
        assert_eq!(room.phase, phase);
        assert!(room.guessed_once.is_empty());
        assert!(room.guessed_twice.is_empty());
        assert!(room.guess1_cells.is_empty());
        assert!(room.guess2_cells.is_empty());
        assert!(!room.all_guessed());
    }
}

#[test]
fn a_room_with_only_the_cue_giver_moves_on_at_any_guess() {
    let mut room = default_room();
    room.join(ALICE, "Alice".to_string());
    room.start_game_with(vec![1, 2, 3, 4]);
    room.lock_cue1("sky".to_string());
    assert!(room.all_guessed());
    room.guess_with(ALICE, 5, 0);
    assert_eq!(room.phase, Phase::Cue2);
    assert_eq!(room.guess1_cells.get(&ALICE), Some(&5));
}

#[test]
fn reveal_scores_by_distance_from_the_target() {
    // Target 35 is row 1, column 5 of a grid 30 wide.
    let mut room = default_room();
    room.join(ALICE, "Alice".to_string());
    for (id, name) in [(10u128, "hit"), (11, "right"), (12, "below"), (13, "two below"), (14, "far")] {
        room.join(id, name.to_string());
    }
    room.start_game_with(vec![35, 1, 2, 3]);
    room.choose_target(ALICE, 35);
    room.lock_cue1("sky".to_string());
    room.lock_cue2("blue".to_string());
    room.guess_with(10, 35, 0);
    room.guess_with(11, 36, 0);
    room.guess_with(12, 65, 0);
    room.guess_with(13, 95, 0);
    assert_eq!(room.phase, Phase::Guess2);
    room.guess_with(14, 125, 0);
    assert_eq!(room.phase, Phase::Reveal);
    assert_eq!(scores(&room), vec![0, 3, 2, 2, 1, 0]);
    assert_eq!(room.target, Some(35));
}

#[test]
fn reveal_counts_the_second_guess_before_the_first() {
    let mut room = trio();
    room.start_game_with(vec![35, 1, 2, 3]);
    room.choose_target(ALICE, 35);
    room.lock_cue1("sky".to_string());
    room.guess_with(BOB, 35, 0);
    room.guess_with(CAROL, 35, 0);
    assert_eq!(room.phase, Phase::Cue2);
    room.lock_cue2("blue".to_string());
    room.guess_with(BOB, 36, 0);
    room.guess_with(CAROL, 500, 0);
    assert_eq!(room.phase, Phase::Reveal);
    // Bob's second guess is one step away; Carol's is far: their first guesses no longer count.
    assert_eq!(scores(&room), vec![0, 2, 0]);
}

#[test]
fn reveal_falls_back_on_the_first_guess() {
    let mut room = trio();
    room.start_game_with(vec![35, 1, 2, 3]);
    room.choose_target(ALICE, 35);
    room.lock_cue1("sky".to_string());
    room.guess_with(BOB, 65, 0);
    room.guess_with(CAROL, 35, 0);
    room.lock_cue2("blue".to_string());
    room.guess_with(CAROL, 36, 0);
    assert_eq!(room.phase, Phase::Guess2);
    // Bob has no second guess; the reveal is forced and his first guess counts.
    room.reveal_round(0);
    assert_eq!(room.phase, Phase::Reveal);
    assert_eq!(scores(&room), vec![0, 2, 2]);
}

#[test]
fn reveal_gives_nothing_without_a_guess_and_nothing_to_the_cue_giver() {
    let mut room = trio();
    room.start_game_with(vec![35, 1, 2, 3]);
    room.choose_target(ALICE, 35);
    room.lock_cue1("sky".to_string());
    room.lock_cue2("blue".to_string());
    room.guess_with(ALICE, 35, 0);
    room.guess_with(BOB, 35, 0);
    room.reveal_round(0);
    assert_eq!(scores(&room), vec![0, 3, 0]);
}

#[test]
fn scores_accumulate_over_rounds() {
    let mut room = trio();
    room.start_game_with(vec![35, 1, 2, 3]);
    room.choose_target(ALICE, 35);
    room.lock_cue2("blue".to_string());
    room.guess_with(BOB, 35, 0);
    room.guess_with(CAROL, 36, 0);
    assert_eq!(scores(&room), vec![0, 3, 2]);

    room.next_round_with(vec![100, 1, 2, 3]);
    assert_eq!(room.cue_giver(), Some(BOB));
    room.choose_target(BOB, 100);
    room.lock_cue2("green".to_string());
    room.guess_with(ALICE, 100, 0);
    room.guess_with(CAROL, 160, 0);
    assert_eq!(room.phase, Phase::Reveal);
    assert_eq!(scores(&room), vec![3, 3, 3]);
}

#[test]
fn score_stops_at_the_top_of_its_range() {
    let mut room = trio();
    room.players[1].score = i32::MAX - 1;
    room.target = Some(35);
    room.phase = Phase::Guess2;
    room.guess_with(BOB, 35, 0);
    room.guess_with(CAROL, 35, 0);
    assert_eq!(room.phase, Phase::Reveal);
    assert_eq!(scores(&room), vec![0, i32::MAX, 3]);
}

#[test]
fn reveal_uses_the_fallback_when_no_target_was_chosen() {
    let mut room = trio();
    room.start_game_with(vec![1, 2, 3, 4]);
    room.lock_cue2("blue".to_string());
    room.guess_with(BOB, 200, 200);
    room.guess_with(CAROL, 201, 200);
    assert_eq!(room.phase, Phase::Reveal);
    assert_eq!(room.target, Some(200));
    assert_eq!(scores(&room), vec![0, 3, 2]);
    // The candidates were not consumed by a choice and stay on offer.
    assert_eq!(room.select_options, Some(vec![1, 2, 3, 4]));
}

#[test]
fn reveal_keeps_a_chosen_target() {
    let mut room = trio();
    room.start_game_with(vec![1, 2, 3, 4]);
    room.choose_target(ALICE, 4);
    room.lock_cue2("blue".to_string());
    room.guess_with(BOB, 4, 200);
    room.guess_with(CAROL, 200, 200);
    assert_eq!(room.target, Some(4));
    assert_eq!(scores(&room), vec![0, 3, 0]);
}

#[test]
fn drawn_fallback_lies_in_the_grid() {
    for _ in 0..200 {
        let mut room = trio();
        room.phase = Phase::Guess2;
        room.guess(BOB, 7);
        room.guess(CAROL, 7);
        assert_eq!(room.phase, Phase::Reveal);
        let target = room.target.unwrap();
        assert!(target < 540);
    }
}

#[test]
fn next_round_passes_the_cue_to_the_next_player() {
    let mut room = trio();
    room.start_game_with(vec![1, 2, 3, 4]);
    room.players[1].score = 4;
    room.cue1 = Some("a".to_string());
    room.cue2 = Some("b".to_string());
    room.target = Some(3);
    room.phase = Phase::Reveal;
    room.guessed_once.insert(BOB);
    room.guess1_cells.insert(BOB, 1);
    room.guessed_twice.insert(BOB);
    room.guess2_cells.insert(BOB, 1);

    room.next_round_with(vec![5, 6, 7, 8]);
    assert_eq!(room.round, 2);
    assert_eq!(room.cue_giver_idx, 1);
    assert_eq!(room.phase, Phase::Cue1);
    assert_eq!(room.cue1, None);
    assert_eq!(room.cue2, None);
    assert_eq!(room.target, None);
    assert_eq!(room.select_options, Some(vec![5, 6, 7, 8]));
    assert!(room.guessed_once.is_empty() && room.guessed_twice.is_empty());
    assert!(room.guess1_cells.is_empty() && room.guess2_cells.is_empty());
    assert_eq!(scores(&room), vec![0, 4, 0]);

    room.next_round_with(vec![1, 2, 3, 4]);
    assert_eq!(room.cue_giver_idx, 2);
    assert_eq!(room.round, 3);
    room.next_round_with(vec![1, 2, 3, 4]);
    assert_eq!(room.cue_giver_idx, 0);
    assert_eq!(room.round, 4);
}

#[test]
fn next_round_in_an_empty_room_does_not_fail() {
    let mut room = default_room();
    room.next_round_with(vec![1, 2, 3, 4]);
    assert_eq!(room.cue_giver_idx, 0);
    assert_eq!(room.round, 1);
    assert_eq!(room.phase, Phase::Cue1);
    room.next_round();
    assert_eq!(room.cue_giver_idx, 0);
    assert_eq!(room.round, 2);
    assert_eq!(room.select_options.clone().unwrap().len(), 4);
}

#[test]
fn round_counter_stops_at_the_top_of_its_range() {
    let mut room = trio();
    room.round = u32::MAX - 1;
    room.next_round_with(vec![1, 2, 3, 4]);
    assert_eq!(room.round, u32::MAX);
    room.next_round_with(vec![1, 2, 3, 4]);
    assert_eq!(room.round, u32::MAX);
}

#[test]
fn a_player_who_leaves_is_gone() {
    let mut room = trio();
    room.players[2].score = 7;
    room.remove_player(BOB);
    assert_eq!(ids(&room), vec![ALICE, CAROL]);
    assert_eq!(scores(&room), vec![0, 7]);
    assert_eq!(room.players[1].name, "Carol");
    assert_eq!(room.cue_giver_idx, 0);
    room.remove_player(BOB);
    assert_eq!(ids(&room), vec![ALICE, CAROL]);
    room.remove_player(ALICE);
    room.remove_player(CAROL);
    assert!(room.players.is_empty());
    assert_eq!(room.cue_giver_idx, 0);
    assert_eq!(room.cue_giver(), None);
}

#[test]
fn every_player_of_an_identity_leaves() {
    let mut room = default_room();
    room.join(5, "one".to_string());
    room.join(6, "two".to_string());
    room.join(5, "three".to_string());
    room.remove_player(5);
    assert_eq!(ids(&room), vec![6]);
    assert_eq!(room.players[0].name, "two");
}

#[test]
fn cue_giver_index_stays_in_the_list_when_a_player_leaves() {
    let mut room = trio();
    room.cue_giver_idx = 2;
    room.remove_player(CAROL);
    assert_eq!(room.cue_giver_idx, 0);
    assert_eq!(room.cue_giver(), Some(ALICE));

    let mut room = trio();
    room.cue_giver_idx = 2;
    room.remove_player(ALICE);
    assert_eq!(room.cue_giver_idx, 0);
    assert_eq!(room.cue_giver(), Some(BOB));

    let mut room = trio();
    room.cue_giver_idx = 1;
    room.remove_player(CAROL);
    assert_eq!(room.cue_giver_idx, 1);
    assert_eq!(room.cue_giver(), Some(BOB));
}

#[test]
fn a_guess_left_behind_does_not_count() {
    // Carol guesses and leaves; Bob has not guessed: the phase is not complete.
    let mut room = trio();
    room.start_game_with(vec![1, 2, 3, 4]);
    room.lock_cue2("blue".to_string());
    room.guess_with(CAROL, 9, 0);
    room.remove_player(CAROL);
    assert!(room.guessed_twice.contains(&CAROL));
    assert!(!room.all_guessed());
    assert_eq!(room.phase, Phase::Guess2);
    // A guess of the cue-giver does not complete it either.
    room.guess_with(ALICE, 9, 0);
    assert_eq!(room.phase, Phase::Guess2);
    // Bob's guess does, and Carol, being gone, scores nothing.
    room.guess_with(BOB, 9, 9);
    assert_eq!(room.phase, Phase::Reveal);
    assert_eq!(ids(&room), vec![ALICE, BOB]);
    assert_eq!(scores(&room), vec![0, 3]);
}

#[test]
fn a_phase_is_complete_once_the_missing_guesser_has_left() {
    let mut room = trio();
    room.start_game_with(vec![1, 2, 3, 4]);
    room.lock_cue1("sky".to_string());
    room.guess_with(BOB, 9, 0);
    assert!(!room.all_guessed());
    room.remove_player(CAROL);
    assert!(room.all_guessed());
    // The room moves on at the next guess.
    assert_eq!(room.phase, Phase::Guess1);
    room.guess_with(BOB, 9, 0);
    assert_eq!(room.phase, Phase::Cue2);
}

#[test]
fn reset_returns_to_a_new_room_of_the_same_name() {
    let mut room = RoomState::new("r".to_string());
    room.join(ALICE, "Alice".to_string());
    room.join(BOB, "Bob".to_string());
    room.start_game_with(vec![1, 2, 3, 4]);
    room.choose_target(ALICE, 1);
    room.lock_cue1("sky".to_string());
    room.guess_with(BOB, 3, 0);
    room.cols = 5;
    room.rows = 5;
    room.reset();
    assert_eq!(room.name, "r");
    assert_eq!(room.round, 0);
    assert_eq!((room.cols, room.rows), (30, 18));
    assert_eq!(room.phase, Phase::Lobby);
    assert_eq!(room.cue1, None);
    assert_eq!(room.target, None);
    assert_eq!(room.select_options, None);
    assert!(room.players.is_empty());
    assert!(room.guessed_once.is_empty());
    assert!(room.guess1_cells.is_empty());
}

#[test]
fn counted_guess_prefers_the_second() {
    let mut room = trio();
    assert_eq!(room.counted_guess(BOB), None);
    room.guess1_cells.insert(BOB, 1);
    assert_eq!(room.counted_guess(BOB), Some(1));
    room.guess2_cells.insert(BOB, 2);
    assert_eq!(room.counted_guess(BOB), Some(2));
    assert_eq!(room.counted_guess(CAROL), None);
}

#[test]
fn commands_are_applied_by_kind() {
    let mut room = trio();
    room.apply_with(BOB, ClientMsg::StartGame, Draw { player_id: 0, options: vec![7, 8, 9, 10], fallback: 0 });
    assert_eq!(room.phase, Phase::Cue1);
    assert_eq!(room.select_options, Some(vec![7, 8, 9, 10]));
    room.apply_with(BOB, ClientMsg::ChooseTarget { index: 7 }, no_draw());
    assert_eq!(room.target, None);
    room.apply_with(ALICE, ClientMsg::ChooseTarget { index: 7 }, no_draw());
    assert_eq!(room.target, Some(7));
    room.apply_with(ALICE, ClientMsg::LockCue1 { cue: "sky".to_string() }, no_draw());
    assert_eq!(room.phase, Phase::Guess1);
    room.apply_with(BOB, ClientMsg::Guess { cell: 7 }, no_draw());
    room.apply_with(CAROL, ClientMsg::Guess { cell: 8 }, no_draw());
    assert_eq!(room.phase, Phase::Cue2);
    room.apply_with(ALICE, ClientMsg::LockCue2 { cue2: "blue".to_string() }, no_draw());
    assert_eq!(room.phase, Phase::Guess2);
    room.apply_with(BOB, ClientMsg::Guess { cell: 7 }, Draw { player_id: 0, options: vec![], fallback: 300 });
    room.apply_with(CAROL, ClientMsg::Guess { cell: 8 }, Draw { player_id: 0, options: vec![], fallback: 300 });
    assert_eq!(room.phase, Phase::Reveal);
    assert_eq!(room.target, Some(7));
    assert_eq!(scores(&room), vec![0, 3, 2]);
    room.apply_with(CAROL, ClientMsg::NextRound, Draw { player_id: 0, options: vec![9, 10, 11, 12], fallback: 0 });
    assert_eq!(room.phase, Phase::Cue1);
    assert_eq!(room.round, 2);
    assert_eq!(room.cue_giver(), Some(BOB));
    assert_eq!(room.select_options, Some(vec![9, 10, 11, 12]));
}

#[test]
fn hub_commands_leave_a_room_alone() {
    let mut room = trio();
    room.start_game_with(vec![1, 2, 3, 4]);
    room.apply_with(BOB, ClientMsg::Join { name: "Dave".to_string(), room: None }, no_draw());
    room.apply_with(BOB, ClientMsg::AdminReset { secret: "s".to_string() }, no_draw());
    room.apply_with(BOB, ClientMsg::AdminKick { secret: "s".to_string(), player: ALICE }, no_draw());
    assert_eq!(ids(&room), vec![ALICE, BOB, CAROL]);
    assert_eq!(room.phase, Phase::Cue1);
    assert_eq!(room.round, 1);
}

#[test]
fn reveal_is_left_only_for_a_new_round() {
    let at_reveal = || {
        let mut room = trio();
        room.start_game_with(vec![1, 2, 3, 4]);
        room.lock_cue2("blue".to_string());
        room.guess_with(BOB, 1, 1);
        room.guess_with(CAROL, 1, 1);
        assert_eq!(room.phase, Phase::Reveal);
        room
    };
    let mut room = at_reveal();
    room.guess_with(BOB, 5, 0);
    room.choose_target(ALICE, 1);
    room.join(9, "Dave".to_string());
    room.remove_player(9);
    assert_eq!(room.phase, Phase::Reveal);
    assert_eq!(scores(&room), vec![0, 3, 3]);

    let mut room = at_reveal();
    room.next_round();
    assert_eq!(room.phase, Phase::Cue1);
    assert_eq!(room.round, 2);

    let mut room = at_reveal();
    room.start_game();
    assert_eq!(room.phase, Phase::Cue1);
    assert_eq!(room.round, 1);
}

#[test]
fn cells_are_found_in_a_list() {
    assert!(contains_cell(&vec![4, 5, 6], 4));
    assert!(contains_cell(&vec![4, 5, 6], 6));
    assert!(!contains_cell(&vec![4, 5, 6], 7));
    assert!(!contains_cell(&vec![], 0));
}

#[test]
fn snapshot_shows_the_room() {
    let mut room = RoomState::new("r".to_string());
    room.join(ALICE, "Alice".to_string());
    room.join(BOB, "Bob".to_string());
    room.join(CAROL, "Carol".to_string());
    room.start_game_with(vec![10, 20, 30, 40]);
    room.lock_cue1("sky".to_string());
    room.guess_with(BOB, 11, 0);
    room.guess_with(CAROL, 12, 0);
    room.lock_cue2("blue".to_string());
    room.guess_with(CAROL, 13, 0);
    room.players[1].score = 6;

    let state = snapshot(&room);
    assert_eq!(state.room, "r");
    assert_eq!(state.round, 1);
    assert_eq!((state.cols, state.rows), (30, 18));
    assert_eq!(state.cue_giver, Some(ALICE));
    assert_eq!(state.phase, "guess2");
    assert_eq!(state.cue1, Some("sky".to_string()));
    assert_eq!(state.cue2, Some("blue".to_string()));
    assert_eq!(state.target, None);
    assert_eq!(state.select_options, Some(vec![10, 20, 30, 40]));
    assert_eq!(state.players.len(), 3);
    assert_eq!(state.players[1].id, BOB);
    assert_eq!(state.players[1].name, "Bob");
    assert_eq!(state.players[1].score, 6);
    assert_eq!(state.players[2].name, "Carol");
    assert_eq!(state.guessed_once, room.guessed_once);
    assert_eq!(state.guessed_once.len(), 2);
    assert_eq!(state.guessed_twice.len(), 1);
    assert!(state.guessed_twice.contains(&CAROL));
    let mut first = state.guesses1.clone();
    first.sort();
    assert_eq!(first, vec![(BOB, 11), (CAROL, 12)]);
    assert_eq!(state.guesses2, vec![(CAROL, 13)]);
    assert_eq!(state.last_guesses, vec![(CAROL, 13)]);
}

#[test]
fn snapshot_hides_the_target_until_the_reveal() {
    let mut room = trio();
    room.start_game_with(vec![10, 20, 30, 40]);
    room.choose_target(ALICE, 20);
    assert_eq!(room.target, Some(20));
    for phase in [Phase::Lobby, Phase::Cue1, Phase::Guess1, Phase::Cue2, Phase::Guess2] {
        room.phase = phase;
        let state = snapshot(&room);
        assert_eq!(state.target, None);
        // The candidates were consumed by the choice.
        assert_eq!(state.select_options, None);
    }
    room.phase = Phase::Reveal;
    assert_eq!(snapshot(&room).target, Some(20));
}

#[test]
fn snapshot_names_every_phase() {
    let mut room = default_room();
    let names = [
        (Phase::Lobby, "lobby"),
        (Phase::Cue1, "cue1"),
        (Phase::Guess1, "guess1"),
        (Phase::Cue2, "cue2"),
        (Phase::Guess2, "guess2"),
        (Phase::Reveal, "reveal"),
    ];
    for (phase, name) in names {
        room.phase = phase;
        assert_eq!(snapshot(&room).phase, name);
        assert_eq!(phase.name(), name);
    }
}

#[test]
fn snapshot_of_an_empty_room_has_no_cue_giver() {
    let state = snapshot(&default_room());
    assert_eq!(state.cue_giver, None);
    assert!(state.players.is_empty());
    assert_eq!(state.select_options, None);
    assert!(state.guesses1.is_empty());
    assert!(state.guesses2.is_empty());
    assert!(state.last_guesses.is_empty());
}

#[test]
fn rooms_made_by_commands_are_well_formed() {
    assert!(default_room().is_well_formed());
    let mut room = trio();
    assert!(room.is_well_formed());
    room.start_game();
    room.lock_cue1("sky".to_string());
    room.guess(BOB, 3);
    assert!(room.is_well_formed());
    room.guess(CAROL, 4);
    room.lock_cue2("blue".to_string());
    room.guess(BOB, 3);
    room.remove_player(CAROL);
    assert!(room.is_well_formed());
    room.next_round();
    room.next_round();
    room.remove_player(ALICE);
    room.remove_player(BOB);
    assert!(room.is_well_formed());
    room.reset();
    assert!(room.is_well_formed());
}

#[test]
fn a_room_without_cells_is_not_well_formed() {
    let mut room = trio();
    room.cols = 0;
    assert!(!room.is_well_formed());
    let mut room = trio();
    room.rows = 0;
    assert!(!room.is_well_formed());
}

#[test]
fn a_cue_giver_index_outside_the_list_is_not_well_formed() {
    let mut room = trio();
    room.cue_giver_idx = 2;
    assert!(room.is_well_formed());
    room.cue_giver_idx = 3;
    assert!(!room.is_well_formed());
    let mut room = default_room();
    room.cue_giver_idx = 1;
    assert!(!room.is_well_formed());
}

#[test]
fn guess_sets_must_match_the_guess_maps() {
    let mut room = trio();
    room.guessed_once.insert(BOB);
    assert!(!room.is_well_formed());
    room.guess1_cells.insert(BOB, 1);
    assert!(room.is_well_formed());
    room.guess2_cells.insert(BOB, 1);
    assert!(!room.is_well_formed());
    room.guessed_twice.insert(CAROL);
    assert!(!room.is_well_formed());
    room.guessed_twice.insert(BOB);
    room.guess2_cells.insert(CAROL, 2);
    assert!(room.is_well_formed());
}

#[test]
fn a_room_at_the_reveal_has_a_target() {
    let mut room = trio();
    room.phase = Phase::Reveal;
    assert!(!room.is_well_formed());
    room.target = Some(539);
    assert!(room.is_well_formed());
    // Reached by play, the reveal always has one.
    let mut room = trio();
    room.start_game();
    room.lock_cue2("blue".to_string());
    room.guess(BOB, 1);
    room.guess(CAROL, 2);
    assert_eq!(room.phase, Phase::Reveal);
    assert!(room.target.is_some());
    assert!(room.is_well_formed());
}

#[test]
fn a_target_outside_the_grid_is_not_well_formed() {
    let mut room = trio();
    room.target = Some(539);
    assert!(room.is_well_formed());
    room.target = Some(540);
    assert!(!room.is_well_formed());
}

#[test]
fn candidates_must_be_distinct_cells_of_the_grid() {
    let mut room = trio();
    room.select_options = Some(vec![0, 1, 2, 539]);
    assert!(room.is_well_formed());
    room.select_options = Some(vec![0, 1, 2, 540]);
    assert!(!room.is_well_formed());
    room.select_options = Some(vec![0, 1, 2, 1]);
    assert!(!room.is_well_formed());
    room.select_options = Some(vec![0, 1, 2]);
    assert!(!room.is_well_formed());
    room.select_options = Some(vec![0, 1, 2, 3, 4]);
    assert!(!room.is_well_formed());
    room.select_options = Some(vec![]);
    assert!(!room.is_well_formed());
    // A grid of three cells offers all three.
    room.cols = 3;
    room.rows = 1;
    room.select_options = Some(vec![2, 0, 1]);
    assert!(room.is_well_formed());
}

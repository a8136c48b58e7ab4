use spacetimedb::rand::rngs::StdRng;
use spacetimedb::rand::SeedableRng;
use trigram_game::common::GameConfig;
use trigram_game::lobby::{
    add_player_to_game, create_game, delete_game, end_turn, game_countdown, remove_player,
    restart_game, start_game, turn_timeout, update_current_word, update_turn_logic_mode,
    update_turn_timeout, update_win_condition,
};
use trigram_game::moves::{
    apply_move, has_room_to_move, is_well_formed, make_move, move_needs_trigram, trigram_pool_ready,
    MoveBlocked,
};
use trigram_game::play::{
    create_initial_player_game_data, get_used_trigrams, get_used_words, has_winner,
};
use trigram_game::trigram::TrigramMap;
use trigram_game::types::{
    ClassicTurnLogic, GameResult, GameState, GameStateEvent, GameStateTable, GuessWordMove, Move,
    PastGuess, PlayerGameData, PlayerId, PlayingState, SettingsState, ShouldScheduleTurnTimeout,
    SimultaneousTurnLogic, TrigramExample, TurnLogic, TurnLogicMode, WinCondition,
};

fn code(k: usize) -> String {
    let a = (b'A' + ((k / 676) % 26) as u8) as char;
    let b = (b'A' + ((k / 26) % 26) as u8) as char;
    let c = (b'A' + (k % 26) as u8) as char;
    format!("{}{}{}", a, b, c)
}

const TRIGRAMS: [&str; 12] =
    ["NAT", "TER", "ION", "ATI", "INT", "RNA", "ERN", "NTE", "ONA", "TIO", "BAR", "LOW"];

fn map() -> TrigramMap {
    let mut entries = Vec::new();
    for t in TRIGRAMS {
        let mut words: Vec<String> = (0..201).map(|k| format!("{}{}", t, code(k))).collect();
        if "INTERNATIONAL".contains(t) {
            words.push("INTERNATIONAL".to_string());
        }
        if "NATION".contains(t) {
            words.push("NATION".to_string());
        }
        entries.push((t.to_string(), words));
    }
    TrigramMap::from_entries(entries)
}

fn id(n: u128) -> PlayerId {
    PlayerId { hi: 0, lo: n }
}

fn settings(mode: TurnLogicMode, win: WinCondition) -> SettingsState {
    SettingsState {
        turn_timeout_seconds: 7,
        players: Vec::new(),
        win_condition: win,
        turn_logic_mode: mode,
    }
}

fn playing(n: u128, mode: TurnLogicMode, win: WinCondition, trigram: &str) -> GameStateTable {
    let players: Vec<PlayerGameData> =
        (1..=n).map(|k| create_initial_player_game_data(id(k))).collect();
    let turn_logic = match mode {
        TurnLogicMode::Classic => {
            TurnLogic::Classic(ClassicTurnLogic { current_turn_index: 0, failed_players: Vec::new() })
        }
        TurnLogicMode::Simultaneous => TurnLogic::Simultaneous(SimultaneousTurnLogic {}),
    };
    GameStateTable {
        game_id: 1,
        state: GameState::Playing(PlayingState {
            players,
            turn_logic,
            turn_number: 0,
            settings: settings(mode, win),
            current_trigram: trigram.to_string(),
            trigram_examples: Vec::new(),
            winner: GameResult::Undecided,
        }),
        updated_at: 0,
        player_wins: Vec::new(),
    }
}

fn st(gs: &GameStateTable) -> &PlayingState {
    match &gs.state {
        GameState::Playing(p) => p,
        _ => panic!("not playing"),
    }
}

fn st_mut(gs: &mut GameStateTable) -> &mut PlayingState {
    match &mut gs.state {
        GameState::Playing(p) => p,
        _ => panic!("not playing"),
    }
}

fn guess(player: u128, word: &str) -> Move {
    Move::GuessWord(GuessWordMove { player_identity: id(player), word: word.to_string() })
}

fn is_time_up(e: &GameStateEvent) -> bool {
    matches!(e, GameStateEvent::TimeUp)
}

#[test]
fn default_config() {
    let c = GameConfig::default();
    assert_eq!(c.min_players, 2);
    assert_eq!(c.max_players, 8);
    assert_eq!(c.round_time_seconds, 60);
}

#[test]
fn new_game_has_default_settings_and_its_creator() {
    let gs = create_game(4, id(9), 123);
    assert_eq!(gs.game_id, 4);
    assert_eq!(gs.updated_at, 123);
    match &gs.state {
        GameState::Settings(s) => {
            assert_eq!(s.turn_timeout_seconds, 7);
            assert_eq!(s.win_condition, WinCondition::LastPlayerStanding);
            assert_eq!(s.turn_logic_mode, TurnLogicMode::Classic);
            assert_eq!(s.players.len(), 1);
            assert_eq!(s.players[0].player_identity, id(9));
            assert_eq!(s.players[0].lives, 3);
        }
        _ => panic!("expected settings"),
    }
}

#[test]
fn lobby_registration_rules() {
    let mut gs = create_game(1, id(1), 0);
    assert_eq!(add_player_to_game(&mut gs, id(1)), Err("Player already registered".to_string()));
    assert_eq!(add_player_to_game(&mut gs, id(2)), Ok(()));
    assert_eq!(remove_player(&mut gs, id(3)), Err("Player not found".to_string()));
    assert_eq!(remove_player(&mut gs, id(1)), Ok(()));
    assert_eq!(
        start_game(&mut gs),
        Err("Cannot start game with less than 2 players".to_string())
    );
    assert_eq!(remove_player(&mut gs, id(2)), Ok(()));
    assert_eq!(start_game(&mut gs), Err("Cannot start game with no players".to_string()));
}

#[test]
fn settings_updates_only_in_lobby() {
    let mut gs = create_game(1, id(1), 0);
    assert_eq!(
        update_turn_timeout(&mut gs, 0),
        Err("Turn timeout must be greater than 0 seconds".to_string())
    );
    assert_eq!(update_turn_timeout(&mut gs, 15), Ok(()));
    assert_eq!(update_win_condition(&mut gs, WinCondition::UseAllLetters), Ok(()));
    assert_eq!(update_turn_logic_mode(&mut gs, TurnLogicMode::Simultaneous), Ok(()));
    match &gs.state {
        GameState::Settings(s) => {
            assert_eq!(s.turn_timeout_seconds, 15);
            assert_eq!(s.win_condition, WinCondition::UseAllLetters);
            assert_eq!(s.turn_logic_mode, TurnLogicMode::Simultaneous);
        }
        _ => panic!("expected settings"),
    }
    assert_eq!(delete_game(&gs), Ok(()));
    add_player_to_game(&mut gs, id(2)).unwrap();
    assert_eq!(start_game(&mut gs), Ok(()));
    assert!(matches!(gs.state, GameState::Countdown(ref c) if c.countdown_seconds == 5));
    assert_eq!(
        update_turn_timeout(&mut gs, 3),
        Err("Cannot update turn timeout during countdown".to_string())
    );
    assert_eq!(
        update_win_condition(&mut gs, WinCondition::LastPlayerStanding),
        Err("Can only update win condition in Settings state".to_string())
    );
    assert_eq!(
        update_turn_logic_mode(&mut gs, TurnLogicMode::Classic),
        Err("Can only update turn logic mode in Settings state".to_string())
    );
    assert_eq!(add_player_to_game(&mut gs, id(3)), Err("Cannot register during countdown".to_string()));
    assert_eq!(delete_game(&gs), Err("Cannot delete game during countdown".to_string()));
    assert_eq!(start_game(&mut gs), Err("Game is already in countdown".to_string()));
    assert_eq!(restart_game(&mut gs), Err("Cannot restart game during countdown".to_string()));
}

#[test]
fn countdown_opens_a_shuffled_match() {
    let map = map();
    let mut rng = StdRng::seed_from_u64(3);
    let mut gs = create_game(1, id(1), 0);
    for k in 2..=4 {
        add_player_to_game(&mut gs, id(k)).unwrap();
    }
    start_game(&mut gs).unwrap();
    assert_eq!(game_countdown(&mut gs, &map, &mut rng), Ok(()));
    let p = st(&gs);
    let mut ids: Vec<u128> = p.players.iter().map(|q| q.player_identity.lo).collect();
    ids.sort();
    assert_eq!(ids, vec![1, 2, 3, 4]);
    assert_eq!(p.turn_number, 0);
    assert!(TRIGRAMS.contains(&p.current_trigram.as_str()));
    assert!(p.trigram_examples.is_empty());
    assert!(matches!(p.players[0].events[..], [GameStateEvent::MyTurn]));
    for q in &p.players[1..] {
        assert!(q.events.is_empty());
    }
    assert!(is_well_formed(p));
    assert_eq!(game_countdown(&mut gs, &map, &mut rng), Err("Game is not in countdown state".to_string()));
    assert_eq!(start_game(&mut gs), Err("Game already in progress".to_string()));
}

#[test]
fn simultaneous_countdown_tells_everyone() {
    let map = map();
    let mut rng = StdRng::seed_from_u64(5);
    let mut gs = create_game(1, id(1), 0);
    add_player_to_game(&mut gs, id(2)).unwrap();
    update_turn_logic_mode(&mut gs, TurnLogicMode::Simultaneous).unwrap();
    start_game(&mut gs).unwrap();
    game_countdown(&mut gs, &map, &mut rng).unwrap();
    for q in &st(&gs).players {
        assert!(matches!(q.events[..], [GameStateEvent::MyTurn]));
    }
}

#[test]
fn moves_are_refused_outside_of_play() {
    let map = map();
    let mut rng = StdRng::seed_from_u64(1);
    let mut gs = create_game(1, id(1), 0);
    assert_eq!(
        make_move(&mut gs, Move::TimeUp, &map, &mut rng),
        Err("Cannot make moves while in settings state".to_string())
    );
    add_player_to_game(&mut gs, id(2)).unwrap();
    start_game(&mut gs).unwrap();
    assert_eq!(
        make_move(&mut gs, Move::TimeUp, &map, &mut rng),
        Err("Cannot make moves during countdown".to_string())
    );
}

#[test]
fn guess_out_of_turn_is_refused() {
    let map = map();
    let mut rng = StdRng::seed_from_u64(1);
    let mut gs = playing(3, TurnLogicMode::Classic, WinCondition::LastPlayerStanding, "NAT");
    let r = make_move(&mut gs, guess(2, "NATION"), &map, &mut rng);
    assert_eq!(r, Err("Not your turn".to_string()));
    let p = st(&gs);
    assert_eq!(p.turn_number, 0);
    assert!(p.players.iter().all(|q| q.past_guesses.is_empty() && q.events.is_empty()));
    let r = make_move(&mut gs, guess(7, "NATION"), &map, &mut rng);
    assert_eq!(r, Err("Player not found".to_string()));
}

#[test]
fn guess_from_player_without_lives_is_refused() {
    let map = map();
    let mut rng = StdRng::seed_from_u64(1);
    let mut gs = playing(3, TurnLogicMode::Classic, WinCondition::LastPlayerStanding, "NAT");
    st_mut(&mut gs).players[0].lives = 0;
    assert_eq!(make_move(&mut gs, guess(1, "NATION"), &map, &mut rng), Err("Not your turn".to_string()));
}

#[test]
fn accepted_classic_guess_passes_the_turn_and_the_trigram() {
    let map = map();
    let mut rng = StdRng::seed_from_u64(11);
    let mut gs = playing(2, TurnLogicMode::Classic, WinCondition::LastPlayerStanding, "NAT");
    let r = make_move(&mut gs, guess(1, "  nation "), &map, &mut rng);
    assert_eq!(r, Ok(ShouldScheduleTurnTimeout::ScheduleTurnTimeout));
    let p = st(&gs);
    assert_eq!(p.turn_number, 1);
    assert!(matches!(&p.turn_logic, TurnLogic::Classic(c) if c.current_turn_index == 1));
    assert_eq!(p.players[0].past_guesses.len(), 1);
    assert_eq!(p.players[0].past_guesses[0].word, "NATION");
    assert_eq!(p.players[0].past_guesses[0].round_number, 0);
    assert!(matches!(p.players[0].events[..], [GameStateEvent::CorrectGuess]));
    assert!(matches!(p.players[1].events[..], [GameStateEvent::MyTurn]));
    let mut letters = p.players[0].used_letters.clone();
    letters.sort();
    assert_eq!(letters, vec!["A", "I", "N", "O", "T"]);
    assert_ne!(p.current_trigram, "NAT");
    assert_eq!(p.trigram_examples.len(), 1);
    assert_eq!(p.trigram_examples[0].trigram, "NAT");
    assert_eq!(p.trigram_examples[0].valid_words.len(), 1);
    assert_eq!(p.trigram_examples[0].valid_words[0].word, "NATION");
    assert!(p.trigram_examples[0].example_words.len() <= 3);
    assert_eq!(get_used_words(p), vec!["NATION".to_string()]);
}

#[test]
fn rejected_guess_tells_only_the_guesser() {
    let map = map();
    let mut rng = StdRng::seed_from_u64(2);
    let mut gs = playing(2, TurnLogicMode::Classic, WinCondition::LastPlayerStanding, "NAT");
    st_mut(&mut gs).players[0].current_word = "WAT".to_string();
    let r = make_move(&mut gs, guess(1, "water"), &map, &mut rng);
    assert_eq!(r, Ok(ShouldScheduleTurnTimeout::DoNotScheduleTurnTimeout));
    let p = st(&gs);
    assert_eq!(p.turn_number, 0);
    assert_eq!(p.players[0].current_word, "");
    match &p.players[0].events[..] {
        [GameStateEvent::InvalidGuess(e)] => {
            assert_eq!(e.word, "WATER");
            assert_eq!(e.reason, "Word not in dictionary");
        }
        _ => panic!("expected one invalid guess event"),
    }
    assert!(p.players[1].events.is_empty());
}

#[test]
fn stale_timer_changes_nothing() {
    let map = map();
    let mut rng = StdRng::seed_from_u64(2);
    let mut gs = playing(2, TurnLogicMode::Classic, WinCondition::LastPlayerStanding, "NAT");
    st_mut(&mut gs).turn_number = 5;
    assert_eq!(turn_timeout(&mut gs, 4, &map, &mut rng), Ok(None));
    let p = st(&gs);
    assert_eq!(p.turn_number, 5);
    assert!(p.players.iter().all(|q| q.lives == 3 && q.events.is_empty()));
    let r = turn_timeout(&mut gs, 5, &map, &mut rng);
    assert_eq!(r, Ok(Some(Ok(ShouldScheduleTurnTimeout::ScheduleTurnTimeout))));
    let p = st(&gs);
    assert_eq!(p.turn_number, 6);
    assert_eq!(p.players[0].lives, 2);
    assert!(matches!(p.players[0].events[..], [GameStateEvent::TimeUp]));
    assert!(matches!(p.players[1].events[..], [GameStateEvent::MyTurn]));
}

#[test]
fn turn_number_only_grows() {
    let map = map();
    let mut rng = StdRng::seed_from_u64(21);
    let mut gs = playing(3, TurnLogicMode::Classic, WinCondition::LastPlayerStanding, "NAT");
    let mut last = 0;
    for step in 0..6 {
        let r = make_move(&mut gs, Move::TimeUp, &map, &mut rng).unwrap();
        let now = st(&gs).turn_number;
        if r == ShouldScheduleTurnTimeout::ScheduleTurnTimeout {
            assert_eq!(now, last + 1, "step {}", step);
        } else {
            assert_eq!(now, last);
        }
        last = now;
    }
}

#[test]
fn trigram_changes_once_every_active_player_failed() {
    let map = map();
    let mut rng = StdRng::seed_from_u64(4);
    let mut gs = playing(2, TurnLogicMode::Classic, WinCondition::LastPlayerStanding, "NAT");
    make_move(&mut gs, Move::TimeUp, &map, &mut rng).unwrap();
    assert_eq!(st(&gs).current_trigram, "NAT");
    assert!(matches!(&st(&gs).turn_logic, TurnLogic::Classic(c) if c.failed_players == vec![id(1)]));
    make_move(&mut gs, Move::TimeUp, &map, &mut rng).unwrap();
    let p = st(&gs);
    assert_ne!(p.current_trigram, "NAT");
    assert_eq!(p.trigram_examples[0].trigram, "NAT");
    assert!(matches!(&p.turn_logic, TurnLogic::Classic(c) if c.failed_players.is_empty()));
}

#[test]
fn no_trigram_is_played_twice() {
    let map = map();
    let mut rng = StdRng::seed_from_u64(8);
    let mut gs = playing(2, TurnLogicMode::Simultaneous, WinCondition::UseAllLetters, "NAT");
    for _ in 0..8 {
        make_move(&mut gs, Move::TimeUp, &map, &mut rng).unwrap();
    }
    let p = st(&gs);
    let mut seen: Vec<String> = p.trigram_examples.iter().map(|e| e.trigram.clone()).collect();
    seen.push(p.current_trigram.clone());
    let mut sorted = seen.clone();
    sorted.sort();
    sorted.dedup();
    assert_eq!(sorted.len(), seen.len());
    assert_eq!(seen.len(), 9);
    assert_eq!(get_used_trigrams(p).len(), 9);
    assert!(is_well_formed(p));
    assert!(trigram_pool_ready(p, &map));
}

#[test]
fn full_alphabet_earns_a_life_and_clears_letters() {
    let map = map();
    let mut rng = StdRng::seed_from_u64(9);
    let mut gs = playing(2, TurnLogicMode::Classic, WinCondition::LastPlayerStanding, "NAT");
    let held: Vec<String> = "BCDEFGHJKLMPQRSUVWXYZ".chars().map(|c| c.to_string()).collect();
    st_mut(&mut gs).players[0].used_letters = held;
    make_move(&mut gs, guess(1, "NATION"), &map, &mut rng).unwrap();
    let p = &st(&gs).players[0];
    assert_eq!(p.lives, 4);
    assert!(p.used_letters.is_empty());
    assert!(p.free_letters.is_empty());
    assert!(matches!(p.events[..], [GameStateEvent::CorrectGuess, GameStateEvent::LifeEarned]));
}

#[test]
fn use_all_letters_has_no_life_bonus_but_a_winner() {
    let map = map();
    let mut rng = StdRng::seed_from_u64(9);
    let mut gs = playing(2, TurnLogicMode::Classic, WinCondition::UseAllLetters, "NAT");
    let held: Vec<String> = "BCDEFGHJKLMPQRSUVWXYZ".chars().map(|c| c.to_string()).collect();
    st_mut(&mut gs).players[0].used_letters = held;
    let r = make_move(&mut gs, guess(1, "NATION"), &map, &mut rng);
    assert_eq!(r, Ok(ShouldScheduleTurnTimeout::DoNotScheduleTurnTimeout));
    let p = st(&gs);
    assert_eq!(p.players[0].lives, 3);
    assert_eq!(p.winner, GameResult::Winner(id(1)));
    assert!(matches!(p.players[0].events[..], [GameStateEvent::CorrectGuess, GameStateEvent::IWin]));
    assert!(matches!(p.players[1].events[..], [GameStateEvent::ILose]));
    assert_eq!(gs.player_wins.len(), 1);
    assert_eq!(gs.player_wins[0].wins, 1);
    assert_eq!(p.trigram_examples[0].trigram, "NAT");
}

#[test]
fn winner_check_last_player_standing() {
    let mut gs = playing(3, TurnLogicMode::Classic, WinCondition::LastPlayerStanding, "NAT");
    assert_eq!(has_winner(st(&gs)), GameResult::Undecided);
    st_mut(&mut gs).players[0].lives = 0;
    st_mut(&mut gs).players[2].lives = 0;
    assert_eq!(has_winner(st(&gs)), GameResult::Winner(id(2)));
    st_mut(&mut gs).players[1].lives = 0;
    assert_eq!(has_winner(st(&gs)), GameResult::Draw);
}

#[test]
fn winner_check_use_all_letters_takes_the_first() {
    let mut gs = playing(3, TurnLogicMode::Classic, WinCondition::UseAllLetters, "NAT");
    assert_eq!(has_winner(st(&gs)), GameResult::Undecided);
    let half: Vec<String> = "ABCDEFGHIJKLM".chars().map(|c| c.to_string()).collect();
    let rest: Vec<String> = "NOPQRSTUVWXYZ".chars().map(|c| c.to_string()).collect();
    for k in [1, 2] {
        st_mut(&mut gs).players[k].used_letters = half.clone();
        st_mut(&mut gs).players[k].free_letters = rest.clone();
    }
    assert_eq!(has_winner(st(&gs)), GameResult::Winner(id(2)));
    st_mut(&mut gs).players[1].free_letters.pop();
    assert_eq!(has_winner(st(&gs)), GameResult::Winner(id(3)));
}

#[test]
fn last_player_standing_wins_after_the_others_time_out() {
    let map = map();
    let mut rng = StdRng::seed_from_u64(6);
    let mut gs = playing(3, TurnLogicMode::Classic, WinCondition::LastPlayerStanding, "NAT");
    let mut k = 100;
    for round in 0..3 {
        assert_eq!(make_move(&mut gs, Move::TimeUp, &map, &mut rng).map(|_| ()), Ok(()));
        let r = make_move(&mut gs, Move::TimeUp, &map, &mut rng);
        if round < 2 {
            assert_eq!(r, Ok(ShouldScheduleTurnTimeout::ScheduleTurnTimeout));
            let word = format!("{}{}", st(&gs).current_trigram, code(k));
            k += 1;
            let r = make_move(&mut gs, guess(3, &word), &map, &mut rng);
            assert_eq!(r, Ok(ShouldScheduleTurnTimeout::ScheduleTurnTimeout));
        } else {
            assert_eq!(r, Ok(ShouldScheduleTurnTimeout::DoNotScheduleTurnTimeout));
        }
    }
    let p = st(&gs);
    assert_eq!(p.players[0].lives, 0);
    assert_eq!(p.players[1].lives, 0);
    assert_eq!(p.players[2].lives, 3);
    assert_eq!(p.winner, GameResult::Winner(id(3)));
    assert_eq!(gs.player_wins.len(), 1);
    assert_eq!(gs.player_wins[0].player_identity, id(3));
    assert_eq!(gs.player_wins[0].wins, 1);
    assert!(matches!(p.players[2].events[..], [GameStateEvent::IWin]));
    assert!(matches!(p.players[1].events[..], [GameStateEvent::TimeUp, GameStateEvent::ILose]));
    let word = format!("{}{}", p.current_trigram, code(150));
    assert_eq!(make_move(&mut gs, guess(3, &word), &map, &mut rng), Err("Game is over".to_string()));
}

#[test]
fn restart_keeps_players_and_wins() {
    let map = map();
    let mut rng = StdRng::seed_from_u64(6);
    let mut gs = playing(2, TurnLogicMode::Classic, WinCondition::LastPlayerStanding, "NAT");
    assert_eq!(
        restart_game(&mut gs),
        Err("Cannot restart game while it is in progress".to_string())
    );
    st_mut(&mut gs).players[1].lives = 1;
    make_move(&mut gs, Move::TimeUp, &map, &mut rng).unwrap();
    make_move(&mut gs, Move::TimeUp, &map, &mut rng).unwrap();
    assert_eq!(st(&gs).winner, GameResult::Winner(id(1)));
    assert_eq!(restart_game(&mut gs), Ok(()));
    match &gs.state {
        GameState::Settings(s) => {
            assert_eq!(s.players.len(), 2);
            assert!(s.players.iter().all(|q| q.lives == 3 && q.past_guesses.is_empty()));
            assert_eq!(s.players[0].player_identity, id(1));
        }
        _ => panic!("expected settings"),
    }
    assert_eq!(gs.player_wins[0].wins, 1);
    assert_eq!(restart_game(&mut gs), Ok(()));
}

#[test]
fn long_word_earns_one_free_letter() {
    let map = map();
    let mut rng = StdRng::seed_from_u64(13);
    let mut gs = playing(2, TurnLogicMode::Classic, WinCondition::LastPlayerStanding, "NAT");
    make_move(&mut gs, guess(1, "INTERNATIONAL"), &map, &mut rng).unwrap();
    let p = &st(&gs).players[0];
    let awards: Vec<&String> = p
        .events
        .iter()
        .filter_map(|e| match e {
            GameStateEvent::FreeLetterAward(a) => Some(&a.letter),
            _ => None,
        })
        .collect();
    assert_eq!(awards.len(), 1);
    assert!(!p.used_letters.contains(awards[0]));
    assert_eq!(p.free_letters, vec![awards[0].clone()]);
    assert_eq!(awards[0].len(), 1);
}

#[test]
fn short_word_earns_no_free_letter() {
    let map = map();
    let mut rng = StdRng::seed_from_u64(13);
    let mut gs = playing(2, TurnLogicMode::Classic, WinCondition::LastPlayerStanding, "NAT");
    make_move(&mut gs, guess(1, "NATION"), &map, &mut rng).unwrap();
    assert!(st(&gs).players[0].free_letters.is_empty());
}

#[test]
fn word_cannot_be_played_twice_in_a_match() {
    let map = map();
    let mut rng = StdRng::seed_from_u64(17);
    let mut gs = playing(2, TurnLogicMode::Classic, WinCondition::LastPlayerStanding, "NAT");
    make_move(&mut gs, guess(1, "INTERNATIONAL"), &map, &mut rng).unwrap();
    let p = st_mut(&mut gs);
    p.trigram_examples.retain(|e| e.trigram != "TER");
    p.current_trigram = "TER".to_string();
    let r = make_move(&mut gs, guess(2, "international"), &map, &mut rng);
    assert_eq!(r, Ok(ShouldScheduleTurnTimeout::DoNotScheduleTurnTimeout));
    match &st(&gs).players[1].events[..] {
        [GameStateEvent::InvalidGuess(e)] => {
            assert_eq!(e.word, "INTERNATIONAL");
            assert_eq!(e.reason, "Word has already been used");
        }
        _ => panic!("expected the word to be refused"),
    }
}

#[test]
fn simultaneous_round_end_costs_silent_players_a_life() {
    let map = map();
    let mut rng = StdRng::seed_from_u64(19);
    let mut gs = playing(4, TurnLogicMode::Simultaneous, WinCondition::LastPlayerStanding, "NAT");
    assert_eq!(
        make_move(&mut gs, guess(2, "NATION"), &map, &mut rng),
        Ok(ShouldScheduleTurnTimeout::DoNotScheduleTurnTimeout)
    );
    assert_eq!(
        make_move(&mut gs, guess(4, "INTERNATIONAL"), &map, &mut rng),
        Ok(ShouldScheduleTurnTimeout::DoNotScheduleTurnTimeout)
    );
    assert_eq!(st(&gs).current_trigram, "NAT");
    let r = make_move(&mut gs, Move::TimeUp, &map, &mut rng);
    assert_eq!(r, Ok(ShouldScheduleTurnTimeout::ScheduleTurnTimeout));
    let p = st(&gs);
    let lives: Vec<i32> = p.players.iter().map(|q| q.lives).collect();
    assert_eq!(lives, vec![2, 3, 2, 3]);
    assert!(p.players[0].events.iter().any(is_time_up));
    assert!(p.players[2].events.iter().any(is_time_up));
    assert!(!p.players[1].events.iter().any(is_time_up));
    assert!(!p.players[3].events.iter().any(is_time_up));
    assert_ne!(p.current_trigram, "NAT");
    assert_eq!(p.turn_number, 1);
    let ex: &TrigramExample = &p.trigram_examples[0];
    assert_eq!(ex.trigram, "NAT");
    let words: Vec<&str> = ex.valid_words.iter().map(|g: &PastGuess| g.word.as_str()).collect();
    assert_eq!(words, vec!["NATION", "INTERNATIONAL"]);
}

#[test]
fn simultaneous_trigram_advances_even_when_all_submitted() {
    let map = map();
    let mut rng = StdRng::seed_from_u64(23);
    let mut gs = playing(2, TurnLogicMode::Simultaneous, WinCondition::LastPlayerStanding, "NAT");
    make_move(&mut gs, guess(1, "NATION"), &map, &mut rng).unwrap();
    make_move(&mut gs, guess(2, "INTERNATIONAL"), &map, &mut rng).unwrap();
    make_move(&mut gs, Move::TimeUp, &map, &mut rng).unwrap();
    let p = st(&gs);
    assert_ne!(p.current_trigram, "NAT");
    assert!(p.players.iter().all(|q| q.lives == 3));
}

#[test]
fn typing_is_shown_only_on_ones_turn() {
    let mut gs = playing(2, TurnLogicMode::Classic, WinCondition::LastPlayerStanding, "NAT");
    st_mut(&mut gs).players[1].events.push(GameStateEvent::MyTurn);
    assert_eq!(update_current_word(&mut gs, id(2), "NA".to_string()), Err("Not your turn".to_string()));
    assert_eq!(update_current_word(&mut gs, id(5), "NA".to_string()), Err("Player not found".to_string()));
    assert_eq!(update_current_word(&mut gs, id(1), "NA".to_string()), Ok(()));
    let p = st(&gs);
    assert_eq!(p.players[0].current_word, "NA");
    assert!(p.players[1].events.is_empty());
    let mut lobby = create_game(1, id(1), 0);
    assert_eq!(
        update_current_word(&mut lobby, id(1), "NA".to_string()),
        Err("Game not in playing state".to_string())
    );
}

#[test]
fn end_turn_outside_of_play_does_nothing() {
    let map = map();
    let mut rng = StdRng::seed_from_u64(1);
    let mut gs = create_game(1, id(1), 0);
    assert_eq!(end_turn(&mut gs, &map, &mut rng), ShouldScheduleTurnTimeout::DoNotScheduleTurnTimeout);
    let mut gs = playing(2, TurnLogicMode::Classic, WinCondition::LastPlayerStanding, "NAT");
    assert_eq!(end_turn(&mut gs, &map, &mut rng), ShouldScheduleTurnTimeout::ScheduleTurnTimeout);
    assert_eq!(st(&gs).turn_number, 1);
}

#[test]
fn counters_are_checked_before_a_move() {
    let mut gs = playing(2, TurnLogicMode::Classic, WinCondition::LastPlayerStanding, "NAT");
    assert!(has_room_to_move(&gs));
    st_mut(&mut gs).turn_number = u32::MAX;
    assert!(!has_room_to_move(&gs));
}

#[test]
fn submitted_word_goes_through_the_same_rules() {
    let map = map();
    let mut rng = StdRng::seed_from_u64(29);
    let mut gs = playing(2, TurnLogicMode::Classic, WinCondition::LastPlayerStanding, "NAT");
    assert_eq!(
        trigram_game::moves::submit_word(&mut gs, id(2), "NATION".to_string(), &map, &mut rng),
        Err("Not your turn".to_string())
    );
    assert_eq!(
        trigram_game::moves::submit_word(&mut gs, id(1), "NATION".to_string(), &map, &mut rng),
        Ok(ShouldScheduleTurnTimeout::ScheduleTurnTimeout)
    );
    assert_eq!(st(&gs).players[0].past_guesses[0].word, "NATION");
}

#[test]
fn single_winner_is_the_only_survivor() {
    let mut gs = playing(4, TurnLogicMode::Classic, WinCondition::LastPlayerStanding, "NAT");
    for k in [0, 1, 3] {
        st_mut(&mut gs).players[k].lives = 0;
    }
    let winners: Vec<GameResult> = (0..3).map(|_| has_winner(st(&gs))).collect();
    assert!(winners.iter().all(|w| *w == GameResult::Winner(id(3))));
}

#[test]
fn blocked_moves_change_nothing() {
    let small = TrigramMap::from_entries(vec![(
        "NAT".to_string(),
        (0..201).map(|k| format!("NAT{}", code(k))).collect(),
    )]);
    let mut rng = StdRng::seed_from_u64(31);
    let mut gs = playing(2, TurnLogicMode::Simultaneous, WinCondition::LastPlayerStanding, "NAT");
    assert!(move_needs_trigram(st(&gs), &Move::TimeUp, &small));
    assert!(!trigram_pool_ready(st(&gs), &small));
    assert_eq!(
        apply_move(&mut gs, Move::TimeUp, &small, &mut rng),
        Err(MoveBlocked::TrigramsExhausted)
    );
    assert_eq!(st(&gs).turn_number, 0);
    assert_eq!(
        apply_move(&mut gs, guess(1, "NATAAB"), &small, &mut rng),
        Ok(Ok(ShouldScheduleTurnTimeout::DoNotScheduleTurnTimeout))
    );
    st_mut(&mut gs).players[0].lives = i32::MAX;
    assert_eq!(
        apply_move(&mut gs, guess(2, "NATAAC"), &small, &mut rng),
        Err(MoveBlocked::CountersExhausted)
    );
    let mut bad = playing(2, TurnLogicMode::Classic, WinCondition::LastPlayerStanding, "NAT");
    if let TurnLogic::Classic(c) = &mut st_mut(&mut bad).turn_logic {
        c.current_turn_index = 5;
    }
    assert_eq!(apply_move(&mut bad, Move::TimeUp, &small, &mut rng), Err(MoveBlocked::Malformed));
    assert_eq!(turn_timeout(&mut bad, 0, &small, &mut rng), Err(MoveBlocked::Malformed));
}

#[test]
fn classic_timeout_needs_a_trigram_only_when_everyone_failed() {
    let map = map();
    let gs = playing(2, TurnLogicMode::Classic, WinCondition::LastPlayerStanding, "NAT");
    assert!(!move_needs_trigram(st(&gs), &Move::TimeUp, &map));
    assert!(move_needs_trigram(st(&gs), &guess(1, "NATION"), &map));
    assert!(!move_needs_trigram(st(&gs), &guess(1, "WATER"), &map));
    let mut gs = gs;
    if let TurnLogic::Classic(c) = &mut st_mut(&mut gs).turn_logic {
        c.failed_players.push(id(2));
    }
    assert!(move_needs_trigram(st(&gs), &Move::TimeUp, &map));
}

#[test]
fn classic_timeout_costs_a_life_under_use_all_letters() {
    let map = map();
    let mut rng = StdRng::seed_from_u64(37);
    let mut gs = playing(2, TurnLogicMode::Classic, WinCondition::UseAllLetters, "NAT");
    make_move(&mut gs, Move::TimeUp, &map, &mut rng).unwrap();
    assert_eq!(st(&gs).players[0].lives, 2);
    st_mut(&mut gs).players[1].lives = 0;
    make_move(&mut gs, Move::TimeUp, &map, &mut rng).unwrap();
    assert_eq!(st(&gs).players[1].lives, 0);
}

#[test]
fn countdown_outside_its_state_needs_no_dictionary() {
    let empty = TrigramMap::from_entries(Vec::new());
    let mut rng = StdRng::seed_from_u64(41);
    let mut gs = create_game(1, id(1), 0);
    assert_eq!(
        game_countdown(&mut gs, &empty, &mut rng),
        Err("Game is not in countdown state".to_string())
    );
}

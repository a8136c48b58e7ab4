use crate::moves::{apply_move, move_outcome, playing_of, turn_ended, MoveBlocked};
use crate::play::{
    can_pick_trigram, create_initial_player_game_data, end_turn_playing, is_fresh_player,
    pick_random_trigram_and_update, playing_wf, wins_below_max,
    used_trigram_list,
};
use crate::random::{fisher_yates, permuted, shuffle_vec};
use crate::trigram::TrigramMap;
use crate::types::{
    ClassicTurnLogic, CountdownState, GameResult, GameState, GameStateEvent, GameStateTable, Move,
    PlayerGameData, PlayerId, PlayingState, SettingsState, ShouldScheduleTurnTimeout,
    SimultaneousTurnLogic, TurnLogic, TurnLogicMode, WinCondition,
};
use spacetimedb::rand::rngs::StdRng;
use vstd::prelude::*;

verus! {

/// Seconds between the start of a match and its first turn.
pub const COUNTDOWN_SECONDS: u32 = 5;

/// Turn timeout of a new game, in seconds.
pub const DEFAULT_TURN_TIMEOUT_SECONDS: u32 = 7;

/// A number of seconds in microseconds, the unit of timers.
pub fn seconds_to_micros(seconds: u32) -> (r: i64)
    ensures
        r == seconds as int * 1_000_000,
{
    (seconds as i64) * 1_000_000
}

fn empty_settings() -> (r: SettingsState)
    ensures
        r.players@.len() == 0,
{
    SettingsState {
        turn_timeout_seconds: DEFAULT_TURN_TIMEOUT_SECONDS,
        players: Vec::new(),
        win_condition: WinCondition::LastPlayerStanding,
        turn_logic_mode: TurnLogicMode::Classic,
    }
}

/// Takes the state out of the record, leaving empty settings behind.
fn take_state(game_state: &mut GameStateTable) -> (r: GameState)
    ensures
        r == old(game_state).state,
        final(game_state).game_id == old(game_state).game_id,
        final(game_state).updated_at == old(game_state).updated_at,
        final(game_state).player_wins == old(game_state).player_wins,
{
    let mut taken = GameState::Settings(empty_settings());
    std::mem::swap(&mut game_state.state, &mut taken);
    taken
}

/// The record of a new game: default settings with its creator as the only
/// player, and no wins yet.
pub fn create_game(game_id: u32, creator: PlayerId, now: i64) -> (r: GameStateTable)
    ensures
        r.game_id == game_id,
        r.updated_at == now,
        r.player_wins@.len() == 0,
        r.state matches GameState::Settings(s) && s.turn_timeout_seconds == DEFAULT_TURN_TIMEOUT_SECONDS
            && s.win_condition == WinCondition::LastPlayerStanding && s.turn_logic_mode
            == TurnLogicMode::Classic && s.players@.len() == 1 && is_fresh_player(s.players@[0], creator),
{
    let mut players: Vec<PlayerGameData> = Vec::new();
    players.push(create_initial_player_game_data(creator));
    GameStateTable {
        game_id,
        state: GameState::Settings(
            SettingsState {
                turn_timeout_seconds: DEFAULT_TURN_TIMEOUT_SECONDS,
                players,
                win_condition: WinCondition::LastPlayerStanding,
                turn_logic_mode: TurnLogicMode::Classic,
            },
        ),
        updated_at: now,
        player_wins: Vec::new(),
    }
}

/// The record is unchanged but for its state.
pub open spec fn same_record(a: GameStateTable, b: GameStateTable) -> bool {
    &&& b.game_id == a.game_id
    &&& b.updated_at == a.updated_at
    &&& b.player_wins == a.player_wins
}

pub open spec fn has_player_id(ps: Seq<PlayerGameData>, id: PlayerId) -> bool {
    exists|i: int| 0 <= i < ps.len() && (#[trigger] ps[i]).player_identity == id
}

fn position_of(players: &Vec<PlayerGameData>, id: PlayerId) -> (r: Option<usize>)
    ensures
        r matches Some(i) ==> i < players@.len() && players@[i as int].player_identity == id && forall|j: int|
            0 <= j < i ==> (#[trigger] players@[j]).player_identity != id,
        r is None <==> !has_player_id(players@, id),
{
    let mut i: usize = 0;
    while i < players.len()
        invariant
            i <= players@.len(),
            forall|j: int| 0 <= j < i ==> (#[trigger] players@[j]).player_identity != id,
        decreases players@.len() - i,
    {
        if players[i].player_identity == id {
            return Some(i);
        }
        i = i + 1;
    }
    None
}

/// Adds `player` to the lobby with three lives.
pub fn add_player_to_game(game_state: &mut GameStateTable, player: PlayerId) -> (r: Result<(), String>)
    ensures
        same_record(*old(game_state), *final(game_state)),
        match old(game_state).state {
            GameState::Settings(s) => if has_player_id(s.players@, player) {
                r matches Err(e) && e@ == "Player already registered"@ && *final(game_state) == *old(game_state)
            } else {
                r is Ok && (final(game_state).state matches GameState::Settings(t) && t == (SettingsState {
                    players: t.players,
                    ..s
                }) && t.players@.len() == s.players@.len() + 1 && t.players@.drop_last()
                    == s.players@ && is_fresh_player(t.players@.last(), player))
            },
            GameState::Countdown(_) => r matches Err(e) && e@ == "Cannot register during countdown"@
                && *final(game_state) == *old(game_state),
            GameState::Playing(_) => r matches Err(e) && e@ == "Cannot register while game is in progress"@
                && *final(game_state) == *old(game_state),
        },
{
    match &mut game_state.state {
        GameState::Settings(settings) => {
            if position_of(&settings.players, player).is_some() {
                return Err("Player already registered".to_string());
            }
            settings.players.push(create_initial_player_game_data(player));
            assert(settings.players@.drop_last() == old(game_state).state->Settings_0.players@);
            Ok(())
        },
        GameState::Countdown(_) => Err("Cannot register during countdown".to_string()),
        GameState::Playing(_) => Err("Cannot register while game is in progress".to_string()),
    }
}

/// Removes `player` from the lobby.
pub fn remove_player(game_state: &mut GameStateTable, player: PlayerId) -> (r: Result<(), String>)
    ensures
        same_record(*old(game_state), *final(game_state)),
        match old(game_state).state {
            GameState::Settings(s) => if has_player_id(s.players@, player) {
                r is Ok && (final(game_state).state matches GameState::Settings(t) && t == (SettingsState {
                    players: t.players,
                    ..s
                }) && exists|i: int|
                    0 <= i < s.players@.len() && s.players@[i].player_identity == player && (forall|j: int|
                        0 <= j < i ==> (#[trigger] s.players@[j]).player_identity != player)
                        && t.players@ == s.players@.remove(i))
            } else {
                r matches Err(e) && e@ == "Player not found"@ && *final(game_state) == *old(game_state)
            },
            GameState::Countdown(_) => r matches Err(e) && e@ == "Cannot remove player during countdown"@
                && *final(game_state) == *old(game_state),
            GameState::Playing(_) => r matches Err(e) && e@ == "Cannot remove player while game is in progress"@
                && *final(game_state) == *old(game_state),
        },
{
    match &mut game_state.state {
        GameState::Settings(settings) => {
            match position_of(&settings.players, player) {
                Some(index) => {
                    settings.players.remove(index);
                    Ok(())
                },
                None => Err("Player not found".to_string()),
            }
        },
        GameState::Countdown(_) => Err("Cannot remove player during countdown".to_string()),
        GameState::Playing(_) => Err("Cannot remove player while game is in progress".to_string()),
    }
}

/// Starts the countdown of a lobby of at least two players.
pub fn start_game(game_state: &mut GameStateTable) -> (r: Result<(), String>)
    ensures
        same_record(*old(game_state), *final(game_state)),
        match old(game_state).state {
            GameState::Settings(s) => if s.players@.len() == 0 {
                r matches Err(e) && e@ == "Cannot start game with no players"@ && *final(game_state)
                    == *old(game_state)
            } else if s.players@.len() < 2 {
                r matches Err(e) && e@ == "Cannot start game with less than 2 players"@ && *final(game_state) == *old(game_state)
            } else {
                r is Ok && final(game_state).state == GameState::Countdown(
                    CountdownState { countdown_seconds: COUNTDOWN_SECONDS, settings: s },
                )
            },
            GameState::Countdown(_) => r matches Err(e) && e@ == "Game is already in countdown"@
                && *final(game_state) == *old(game_state),
            GameState::Playing(_) => r matches Err(e) && e@ == "Game already in progress"@ && *final(game_state) == *old(game_state),
        },
{
    match &game_state.state {
        GameState::Settings(settings) => {
            if settings.players.len() == 0 {
                return Err("Cannot start game with no players".to_string());
            }
            if settings.players.len() < 2 {
                return Err("Cannot start game with less than 2 players".to_string());
            }
        },
        GameState::Countdown(_) => {
            return Err("Game is already in countdown".to_string());
        },
        GameState::Playing(_) => {
            return Err("Game already in progress".to_string());
        },
    }
    let taken = take_state(game_state);
    match taken {
        GameState::Settings(settings) => {
            game_state.state = GameState::Countdown(
                CountdownState { countdown_seconds: COUNTDOWN_SECONDS, settings },
            );
        },
        other => {
            game_state.state = other;
        },
    }
    Ok(())
}

/// Sets the turn timeout of a lobby.
pub fn update_turn_timeout(game_state: &mut GameStateTable, seconds: u32) -> (r: Result<(), String>)
    ensures
        same_record(*old(game_state), *final(game_state)),
        seconds == 0 ==> (r matches Err(e) && e@ == "Turn timeout must be greater than 0 seconds"@
            && *final(game_state) == *old(game_state)),
        seconds > 0 ==> match old(game_state).state {
            GameState::Settings(s) => r is Ok && final(game_state).state == GameState::Settings(
                SettingsState { turn_timeout_seconds: seconds, ..s },
            ),
            GameState::Countdown(_) => r matches Err(e) && e@ == "Cannot update turn timeout during countdown"@
                && *final(game_state) == *old(game_state),
            GameState::Playing(_) => r matches Err(e) && e@
                == "Cannot update turn timeout while game is in progress"@ && *final(game_state)
                == *old(game_state),
        },
{
    if seconds == 0 {
        return Err("Turn timeout must be greater than 0 seconds".to_string());
    }
    match &mut game_state.state {
        GameState::Settings(settings) => {
            settings.turn_timeout_seconds = seconds;
            Ok(())
        },
        GameState::Countdown(_) => Err("Cannot update turn timeout during countdown".to_string()),
        GameState::Playing(_) => Err("Cannot update turn timeout while game is in progress".to_string()),
    }
}

/// Sets the win condition of a lobby.
pub fn update_win_condition(game_state: &mut GameStateTable, win_condition: WinCondition) -> (r: Result<(), String>)
    ensures
        same_record(*old(game_state), *final(game_state)),
        match old(game_state).state {
            GameState::Settings(s) => r is Ok && final(game_state).state == GameState::Settings(
                SettingsState { win_condition, ..s },
            ),
            _ => r matches Err(e) && e@ == "Can only update win condition in Settings state"@ && *final(game_state) == *old(game_state),
        },
{
    match &mut game_state.state {
        GameState::Settings(settings) => {
            settings.win_condition = win_condition;
            Ok(())
        },
        _ => Err("Can only update win condition in Settings state".to_string()),
    }
}

/// Sets whether turns are taken one at a time or by everyone at once.
pub fn update_turn_logic_mode(game_state: &mut GameStateTable, turn_logic_mode: TurnLogicMode) -> (r:
    Result<(), String>)
    ensures
        same_record(*old(game_state), *final(game_state)),
        match old(game_state).state {
            GameState::Settings(s) => r is Ok && final(game_state).state == GameState::Settings(
                SettingsState { turn_logic_mode, ..s },
            ),
            _ => r matches Err(e) && e@ == "Can only update turn logic mode in Settings state"@ && *final(game_state) == *old(game_state),
        },
{
    match &mut game_state.state {
        GameState::Settings(settings) => {
            settings.turn_logic_mode = turn_logic_mode;
            Ok(())
        },
        _ => Err("Can only update turn logic mode in Settings state".to_string()),
    }
}

/// Checks that a game may be deleted: only from its lobby.
pub fn delete_game(game_state: &GameStateTable) -> (r: Result<(), String>)
    ensures
        match game_state.state {
            GameState::Settings(_) => r is Ok,
            GameState::Countdown(_) => r matches Err(e) && e@ == "Cannot delete game during countdown"@,
            GameState::Playing(_) => r matches Err(e) && e@ == "Cannot delete game while in progress"@,
        },
{
    match &game_state.state {
        GameState::Settings(_) => Ok(()),
        GameState::Countdown(_) => Err("Cannot delete game during countdown".to_string()),
        GameState::Playing(_) => Err("Cannot delete game while in progress".to_string()),
    }
}

/// `b` is the match that the countdown of `s` opens: the players of `s` in a
/// shuffled order, turn zero, no history, a first trigram that may be chosen,
/// and under classic turns the first player, else every player, told it is
/// their turn.
pub open spec fn match_opened(s: SettingsState, b: PlayingState, map: TrigramMap) -> bool {
    &&& exists|order: Seq<usize>, ps: Seq<PlayerGameData>|
        #[trigger] permuted(s.players@, ps, order) && (exists|draws: Seq<u32>|
            draws.len() == s.players@.len() && #[trigger] fisher_yates(s.players@, draws) == ps)
            && b.players@.len() == ps.len() && forall|k: int|
            0 <= k < ps.len() ==> crate::play::same_but_events(ps[k], #[trigger] b.players@[k])
                && b.players@[k].events@ == if s.turn_logic_mode == TurnLogicMode::Simultaneous
                || k == 0 {
                ps[k].events@.push(GameStateEvent::MyTurn)
            } else {
                ps[k].events@
            }
    &&& match s.turn_logic_mode {
        TurnLogicMode::Classic => b.turn_logic matches TurnLogic::Classic(c) && c.current_turn_index
            == 0 && c.failed_players@.len() == 0,
        TurnLogicMode::Simultaneous => b.turn_logic == TurnLogic::Simultaneous(
            SimultaneousTurnLogic {  },
        ),
    }
    &&& b.turn_number == 0
    &&& b.settings.turn_timeout_seconds == s.turn_timeout_seconds
    &&& b.settings.players@.len() == 0
    &&& b.settings.win_condition == s.win_condition
    &&& b.settings.turn_logic_mode == s.turn_logic_mode
    &&& b.trigram_examples@.len() == 0
    &&& map.available_trigrams(Seq::empty()).contains(b.current_trigram@)
    &&& b.winner == GameResult::Undecided
}

/// Opens the match once the countdown has run out.
pub fn game_countdown(game_state: &mut GameStateTable, map: &TrigramMap, rng: &mut StdRng) -> (r: Result<
    (),
    String,
>)
    requires
        map.wf(),
        old(game_state).state is Countdown ==> map.available_trigrams(Seq::empty()).len() > 0,
        old(game_state).state matches GameState::Countdown(c) ==> c.settings.players@.len() <= u32::MAX,
    ensures
        same_record(*old(game_state), *final(game_state)),
        match old(game_state).state {
            GameState::Countdown(c) => r is Ok && (final(game_state).state matches GameState::Playing(b)
                && match_opened(c.settings, b, *map) && playing_wf(b)),
            _ => (r matches Err(e) && e@ == "Game is not in countdown state"@) && *final(game_state)
                == *old(game_state),
        },
{
    match &game_state.state {
        GameState::Countdown(_) => {},
        _ => {
            return Err("Game is not in countdown state".to_string());
        },
    }
    let taken = take_state(game_state);
    let settings = match taken {
        GameState::Countdown(countdown) => countdown.settings,
        _ => {
            proof {
                assert(false);
            }
            empty_settings()
        },
    };
    let ghost s = settings;
    let mut players = settings.players;
    shuffle_vec(&mut players, rng);
    let ghost shuffled = players@;
    let turn_logic = match settings.turn_logic_mode {
        TurnLogicMode::Classic => TurnLogic::Classic(
            ClassicTurnLogic { current_turn_index: 0, failed_players: Vec::new() },
        ),
        TurnLogicMode::Simultaneous => TurnLogic::Simultaneous(SimultaneousTurnLogic {  }),
    };
    let mut playing_state = PlayingState {
        players,
        turn_logic,
        turn_number: 0,
        settings: SettingsState {
            turn_timeout_seconds: settings.turn_timeout_seconds,
            players: Vec::new(),
            win_condition: settings.win_condition,
            turn_logic_mode: settings.turn_logic_mode,
        },
        current_trigram: String::new(),
        trigram_examples: Vec::new(),
        winner: GameResult::Undecided,
    };
    proof {
        assert(used_trigram_list(playing_state) == Seq::<Seq<char>>::empty());
        assert(crate::play::trigrams_fresh(playing_state));
    }
    pick_random_trigram_and_update(&mut playing_state, map, rng);
    let ghost picked = playing_state;
    match settings.turn_logic_mode {
        TurnLogicMode::Classic => {
            if playing_state.players.len() > 0 {
                crate::play::push_event(&mut playing_state.players, 0, GameStateEvent::MyTurn);
            }
        },
        TurnLogicMode::Simultaneous => {
            let mut i: usize = 0;
            while i < playing_state.players.len()
                invariant
                    playing_state == (PlayingState { players: playing_state.players, ..picked }),
                    picked.players@ == shuffled,
                    i <= playing_state.players@.len(),
                    playing_state.players@.len() == shuffled.len(),
                    forall|k: int|
                        0 <= k < i ==> crate::play::same_but_events(shuffled[k], #[trigger] playing_state.players@[k])
                            && playing_state.players@[k].events@ == shuffled[k].events@.push(
                            GameStateEvent::MyTurn,
                        ),
                    forall|k: int| i <= k < shuffled.len() ==> #[trigger] playing_state.players@[k] == shuffled[k],
                decreases shuffled.len() - i,
            {
                playing_state.players[i].events.push(GameStateEvent::MyTurn);
                i = i + 1;
            }
        },
    }
    let ghost b = playing_state;
    proof {
        let order = choose|order: Seq<usize>| #[trigger] permuted(s.players@, shuffled, order);
        assert(permuted(s.players@, shuffled, order));
        let draws = choose|draws: Seq<u32>|
            draws.len() == s.players@.len() && #[trigger] fisher_yates(s.players@, draws) == shuffled;
        assert(fisher_yates(s.players@, draws) == shuffled);
        assert(crate::play::trigrams_fresh(b));
        assert(playing_wf(b));
    }
    game_state.state = GameState::Playing(playing_state);
    Ok(())
}

/// Handles a turn timer: a timer armed for another turn than the current one is
/// stale and changes nothing (`Ok(None)`); otherwise the turn runs out of time,
/// as `apply_move` does it.
pub fn turn_timeout(
    game_state: &mut GameStateTable,
    turn_number: u32,
    map: &TrigramMap,
    rng: &mut StdRng,
) -> (r: Result<Option<Result<ShouldScheduleTurnTimeout, String>>, MoveBlocked>)
    requires
        map.wf(),
    ensures
        old(game_state).state is Playing && playing_of(*old(game_state)).turn_number != turn_number ==> (r
            == Ok::<Option<Result<ShouldScheduleTurnTimeout, String>>, MoveBlocked>(None) && *final(game_state)
            == *old(game_state)),
        !(old(game_state).state is Playing && playing_of(*old(game_state)).turn_number != turn_number)
            ==> match r {
            Ok(None) => false,
            Ok(Some(res)) => move_outcome(
                *old(game_state),
                *final(game_state),
                Move::TimeUp,
                Ok::<Result<ShouldScheduleTurnTimeout, String>, MoveBlocked>(res),
                *map,
            ),
            Err(b) => move_outcome(
                *old(game_state),
                *final(game_state),
                Move::TimeUp,
                Err::<Result<ShouldScheduleTurnTimeout, String>, MoveBlocked>(b),
                *map,
            ),
        },
{
    match &game_state.state {
        GameState::Playing(playing_state) => {
            if playing_state.turn_number != turn_number {
                return Ok(None);
            }
        },
        _ => {},
    }
    match apply_move(game_state, Move::TimeUp, map, rng) {
        Ok(res) => Ok(Some(res)),
        Err(b) => Err(b),
    }
}

/// Ends the current turn of a match in play: the turn passes on while the match
/// is undecided, else the match ends with its result. Outside of play nothing
/// happens.
pub fn end_turn(game_state: &mut GameStateTable, map: &TrigramMap, rng: &mut StdRng) -> (r:
    ShouldScheduleTurnTimeout)
    requires
        map.wf(),
        old(game_state).state is Playing ==> {
            let a = playing_of(*old(game_state));
            &&& playing_wf(a)
            &&& a.players@.len() > 0
            &&& a.turn_number < u32::MAX
            &&& a.winner == GameResult::Undecided
            &&& wins_below_max(old(game_state).player_wins@)
        },
    ensures
        same_record(*old(game_state), *final(game_state)) || old(game_state).state is Playing,
        match old(game_state).state {
            GameState::Playing(a) => final(game_state).state is Playing && final(game_state).game_id
                == old(game_state).game_id && final(game_state).updated_at == old(game_state).updated_at
                && turn_ended(
                a,
                playing_of(*final(game_state)),
                old(game_state).player_wins@,
                final(game_state).player_wins@,
                r,
                *map,
            ),
            _ => r == ShouldScheduleTurnTimeout::DoNotScheduleTurnTimeout && *final(game_state) == *old(
                game_state,
            ),
        },
{
    match &mut game_state.state {
        GameState::Playing(state) => end_turn_playing(state, &mut game_state.player_wins, map, rng),
        _ => ShouldScheduleTurnTimeout::DoNotScheduleTurnTimeout,
    }
}

/// Every player of `b` is the fresh player of the same identity in `a`.
pub open spec fn players_reset(a: Seq<PlayerGameData>, b: Seq<PlayerGameData>) -> bool {
    &&& b.len() == a.len()
    &&& forall|i: int| 0 <= i < a.len() ==> is_fresh_player(#[trigger] b[i], a[i].player_identity)
}

/// Returns a decided match to its lobby, with the same players afresh and the
/// same settings; the wins are kept.
pub fn restart_game(game_state: &mut GameStateTable) -> (r: Result<(), String>)
    ensures
        same_record(*old(game_state), *final(game_state)),
        match old(game_state).state {
            GameState::Playing(p) => if p.winner == GameResult::Undecided {
                (r matches Err(e) && e@ == "Cannot restart game while it is in progress"@) && *final(game_state)
                    == *old(game_state)
            } else {
                r is Ok && (final(game_state).state matches GameState::Settings(t)
                    && t.turn_timeout_seconds == p.settings.turn_timeout_seconds && t.win_condition
                    == p.settings.win_condition && t.turn_logic_mode == p.settings.turn_logic_mode
                    && players_reset(p.players@, t.players@))
            },
            GameState::Settings(_) => r is Ok && *final(game_state) == *old(game_state),
            GameState::Countdown(_) => (r matches Err(e) && e@ == "Cannot restart game during countdown"@)
                && *final(game_state) == *old(game_state),
        },
{
    match &game_state.state {
        GameState::Playing(playing_state) => {
            if let GameResult::Undecided = playing_state.winner {
                return Err("Cannot restart game while it is in progress".to_string());
            }
            let mut reset_players: Vec<PlayerGameData> = Vec::new();
            let mut i: usize = 0;
            while i < playing_state.players.len()
                invariant
                    i <= playing_state.players@.len(),
                    reset_players@.len() == i,
                    forall|k: int|
                        0 <= k < i ==> is_fresh_player(
                            #[trigger] reset_players@[k],
                            playing_state.players@[k].player_identity,
                        ),
                decreases playing_state.players@.len() - i,
            {
                reset_players.push(create_initial_player_game_data(playing_state.players[i].player_identity));
                i = i + 1;
            }
            let settings = SettingsState {
                turn_timeout_seconds: playing_state.settings.turn_timeout_seconds,
                players: reset_players,
                win_condition: playing_state.settings.win_condition,
                turn_logic_mode: playing_state.settings.turn_logic_mode,
            };
            game_state.state = GameState::Settings(settings);
            Ok(())
        },
        GameState::Settings(_) => Ok(()),
        GameState::Countdown(_) => Err("Cannot restart game during countdown".to_string()),
    }
}

/// Shows what `player` is typing: every player's events are emptied and the
/// player's word in progress is set. Under classic turns only the player whose
/// turn it is may type.
pub fn update_current_word(game_state: &mut GameStateTable, player: PlayerId, word: String) -> (r: Result<
    (),
    String,
>)
    ensures
        same_record(*old(game_state), *final(game_state)),
        match old(game_state).state {
            GameState::Settings(_) => (r matches Err(e) && e@ == "Game not in playing state"@) && *final(game_state)
                == *old(game_state),
            GameState::Countdown(_) => (r matches Err(e) && e@ == "Cannot update word during countdown"@)
                && *final(game_state) == *old(game_state),
            GameState::Playing(a) => if !has_player_id(a.players@, player) {
                (r matches Err(e) && e@ == "Player not found"@) && *final(game_state) == *old(game_state)
            } else if (a.turn_logic matches TurnLogic::Classic(c) && (c.current_turn_index >= a.players@.len()
                || a.players@[c.current_turn_index as int].player_identity != player)) {
                (r matches Err(e) && e@ == "Not your turn"@) && *final(game_state) == *old(game_state)
            } else {
                r is Ok && (final(game_state).state matches GameState::Playing(b) && b == (PlayingState {
                    players: b.players,
                    ..a
                }) && b.players@.len() == a.players@.len() && exists|i: int|
                    0 <= i < a.players@.len() && a.players@[i].player_identity == player && (forall|j: int|
                        0 <= j < i ==> (#[trigger] a.players@[j]).player_identity != player) && forall|j: int|
                        0 <= j < a.players@.len() ==> #[trigger] b.players@[j].events@.len() == 0
                            && b.players@[j].player_identity == a.players@[j].player_identity
                            && b.players@[j].lives == a.players@[j].lives && b.players@[j].used_letters
                            == a.players@[j].used_letters && b.players@[j].free_letters
                            == a.players@[j].free_letters && b.players@[j].past_guesses
                            == a.players@[j].past_guesses && b.players@[j].current_word == if j == i {
                            word
                        } else {
                            a.players@[j].current_word
                        })
            },
        },
{
    match &mut game_state.state {
        GameState::Settings(_) => Err("Game not in playing state".to_string()),
        GameState::Countdown(_) => Err("Cannot update word during countdown".to_string()),
        GameState::Playing(playing_state) => {
            match position_of(&playing_state.players, player) {
                Some(index) => {
                    match &playing_state.turn_logic {
                        TurnLogic::Classic(classic) => {
                            let cur = classic.current_turn_index as usize;
                            if cur >= playing_state.players.len()
                                || playing_state.players[cur].player_identity != player {
                                return Err("Not your turn".to_string());
                            }
                        },
                        TurnLogic::Simultaneous(_) => {},
                    }
                    let ghost a = *playing_state;
                    crate::play::clear_events(&mut playing_state.players);
                    playing_state.players[index].current_word = word;
                    proof {
                        assert(a.players@[index as int].player_identity == player);
                    }
                    Ok(())
                },
                None => Err("Player not found".to_string()),
            }
        },
    }
}

} // verus!

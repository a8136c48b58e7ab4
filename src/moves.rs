use crate::play::{
    end_turn_playing, events_cleared, has_winner, is_alive, match_ended, pick_random_trigram_and_update,
    lemma_winner_same, playing_wf, state_winner, trigram_advanced, turn_passed, wins_below_max,
    can_pick_trigram, trigrams_fresh, used_words, get_used_words,
};
use crate::player::{
    accepted_word_applied, apply_accepted_word, close_round, events_view, round_closed, time_out_turn,
    turn_timed_out, EventView,
};
use crate::text::{to_upper, trim_whitespace, trimmed, uppercase_of};
use crate::trigram::{is_word_valid, TrigramMap};
use crate::types::{
    GameResult, GameState, GameStateTable, GuessWordMove, Move, GameStateEvent, InvalidGuessEvent, PlayerGameData, PlayerId,
    PlayerWins, PlayingState, ShouldScheduleTurnTimeout, TurnLogic,
};
use spacetimedb::rand::rngs::StdRng;
use vstd::prelude::*;

verus! {

/// How a turn ends in state `a`: with the turn passed on while the match is
/// undecided, else with the match ended.
pub open spec fn turn_ended(
    a: PlayingState,
    b: PlayingState,
    wins_a: Seq<PlayerWins>,
    wins_b: Seq<PlayerWins>,
    r: ShouldScheduleTurnTimeout,
    map: TrigramMap,
) -> bool {
    let w = state_winner(a);
    if w == GameResult::Undecided {
        &&& turn_passed(a, b)
        &&& wins_b == wins_a
        &&& r == ShouldScheduleTurnTimeout::ScheduleTurnTimeout
    } else {
        &&& match_ended(a, b, wins_a, wins_b, w, map)
        &&& r == ShouldScheduleTurnTimeout::DoNotScheduleTurnTimeout
    }
}

/// `b` is `a` where player `i` had `word` rejected for `reason`: their word in
/// progress is dropped and they alone are told.
pub open spec fn guess_rejected(a: PlayingState, b: PlayingState, i: int, word: Seq<char>, reason: Seq<char>) -> bool {
    &&& b == PlayingState { players: b.players, ..a }
    &&& b.players@.len() == a.players@.len()
    &&& forall|j: int| 0 <= j < a.players@.len() && j != i ==> #[trigger] b.players@[j] == a.players@[j]
    &&& b.players@[i].player_identity == a.players@[i].player_identity
    &&& b.players@[i].current_word@.len() == 0
    &&& b.players@[i].lives == a.players@[i].lives
    &&& b.players@[i].used_letters == a.players@[i].used_letters
    &&& b.players@[i].free_letters == a.players@[i].free_letters
    &&& b.players@[i].past_guesses == a.players@[i].past_guesses
    &&& events_view(b.players@[i].events@) == events_view(a.players@[i].events@).push(
        EventView::InvalidGuess { word, reason },
    )
}

/// Rejects `word` from player `i`.
fn reject_guess(state: &mut PlayingState, i: usize, word: String, reason: String)
    requires
        i < old(state).players@.len(),
    ensures
        guess_rejected(*old(state), *final(state), i as int, word@, reason@),
{
    let ghost w = word@;
    let ghost rs = reason@;
    state.players[i].events.push(GameStateEvent::InvalidGuess(InvalidGuessEvent { word, reason }));
    state.players[i].current_word = String::new();
    assert(events_view(state.players@[i as int].events@) == events_view(
        old(state).players@[i as int].events@,
    ).push(EventView::InvalidGuess { word: w, reason: rs }));
}

/// `m` is `a` where player `i` had `word` accepted, with `draw` as the number
/// drawn for a free letter.
pub open spec fn word_recorded(a: PlayingState, m: PlayingState, i: int, word: Seq<char>, draw: u32) -> bool {
    &&& m == PlayingState { players: m.players, ..a }
    &&& m.players@.len() == a.players@.len()
    &&& accepted_word_applied(
        a.players@[i],
        m.players@[i],
        word,
        a.turn_number,
        a.settings.win_condition,
        draw,
    )
    &&& forall|j: int| 0 <= j < a.players@.len() && j != i ==> #[trigger] m.players@[j] == a.players@[j]
}

/// `m2` is `m` with no player counted as failed on the current trigram.
pub open spec fn failures_forgotten(m: PlayingState, m2: PlayingState) -> bool {
    &&& m2 == PlayingState { turn_logic: m2.turn_logic, ..m }
    &&& match (m.turn_logic, m2.turn_logic) {
        (TurnLogic::Classic(c), TurnLogic::Classic(c2)) => c2.current_turn_index == c.current_turn_index
            && c2.failed_players@.len() == 0,
        _ => false,
    }
}

/// What follows an accepted word in state `m`: a player who now wins ends the
/// match at once; otherwise simultaneous play goes on, and a classic turn clears
/// the failures, moves to a fresh trigram and ends.
pub open spec fn after_accepted(
    m: PlayingState,
    b: PlayingState,
    wins_a: Seq<PlayerWins>,
    wins_b: Seq<PlayerWins>,
    r: ShouldScheduleTurnTimeout,
    map: TrigramMap,
) -> bool {
    let w = state_winner(m);
    if w is Winner {
        &&& match_ended(m, b, wins_a, wins_b, w, map)
        &&& r == ShouldScheduleTurnTimeout::DoNotScheduleTurnTimeout
    } else {
        match m.turn_logic {
            TurnLogic::Simultaneous(_) => {
                &&& b == m
                &&& wins_b == wins_a
                &&& r == ShouldScheduleTurnTimeout::DoNotScheduleTurnTimeout
            },
            TurnLogic::Classic(_) => exists|m2: PlayingState, m3: PlayingState|
                #[trigger] trigram_advanced(m2, m3, map) && failures_forgotten(m, m2) && turn_ended(
                    m3,
                    b,
                    wins_a,
                    wins_b,
                    r,
                    map,
                ),
        }
    }
}

/// `b` is `a` after player `i` played the accepted `word`.
pub open spec fn guess_accepted(
    a: PlayingState,
    b: PlayingState,
    wins_a: Seq<PlayerWins>,
    wins_b: Seq<PlayerWins>,
    i: int,
    word: Seq<char>,
    r: ShouldScheduleTurnTimeout,
    map: TrigramMap,
) -> bool {
    exists|m: PlayingState, draw: u32|
        #[trigger] word_recorded(a, m, i, word, draw) && after_accepted(m, b, wins_a, wins_b, r, map)
}

/// No life count is at its largest value.
pub open spec fn lives_below_max(ps: Seq<PlayerGameData>) -> bool {
    forall|i: int| 0 <= i < ps.len() ==> (#[trigger] ps[i]).lives < i32::MAX
}

/// Accepts `word` from player `i`.
fn accept_guess(
    state: &mut PlayingState,
    wins: &mut Vec<PlayerWins>,
    i: usize,
    word: &String,
    map: &TrigramMap,
    rng: &mut StdRng,
) -> (r: ShouldScheduleTurnTimeout)
    requires
        map.wf(),
        i < old(state).players@.len(),
        playing_wf(*old(state)),
        state_winner(*old(state)) == GameResult::Undecided,
        old(state).turn_number < u32::MAX,
        lives_below_max(old(state).players@),
        wins_below_max(old(wins)@),
        old(state).turn_logic is Classic ==> can_pick_trigram(*old(state), *map),
    ensures
        guess_accepted(*old(state), *final(state), old(wins)@, final(wins)@, i as int, word@, r, *map),
        playing_wf(*final(state)),
        final(state).turn_number == old(state).turn_number || final(state).turn_number
            == old(state).turn_number + 1,
        final(state).turn_number == old(state).turn_number + 1 <==> r
            == ShouldScheduleTurnTimeout::ScheduleTurnTimeout,
{
    let ghost a = *state;
    let round = state.turn_number;
    let win = state.settings.win_condition;
    let draw = apply_accepted_word(&mut state.players[i], word, round, win, rng);
    let ghost m = *state;
    assert(word_recorded(a, m, i as int, word@, draw@));
    assert(playing_wf(m));
    let result = has_winner(state);
    if let GameResult::Winner(_) = result {
        crate::play::finish_match(state, wins, result, map, rng);
        return ShouldScheduleTurnTimeout::DoNotScheduleTurnTimeout;
    }
    match &mut state.turn_logic {
        TurnLogic::Classic(classic) => {
            classic.failed_players.clear();
        },
        TurnLogic::Simultaneous(_) => {
            return ShouldScheduleTurnTimeout::DoNotScheduleTurnTimeout;
        },
    }
    let ghost m2 = *state;
    assert(failures_forgotten(m, m2));
    pick_random_trigram_and_update(state, map, rng);
    end_turn_playing(state, wins, map, rng)
}

/// Every player with lives left is among `failed`.
pub open spec fn all_active_failed(ps: Seq<PlayerGameData>, failed: Seq<PlayerId>) -> bool {
    forall|j: int| 0 <= j < ps.len() && is_alive(#[trigger] ps[j]) ==> failed.contains(ps[j].player_identity)
}

/// `m` is `a` once the player whose turn it is ran out of time: they are added
/// to the failed players, lose a life, and the failures are
/// forgotten once every player with lives left has failed on this trigram.
pub open spec fn classic_timed_out(a: PlayingState, m: PlayingState) -> bool {
    match a.turn_logic {
        TurnLogic::Classic(c) => {
            let cur = c.current_turn_index as int;
            let id = a.players@[cur].player_identity;
            let failed1 = if c.failed_players@.contains(id) {
                c.failed_players@
            } else {
                c.failed_players@.push(id)
            };
            &&& m == PlayingState { players: m.players, turn_logic: m.turn_logic, ..a }
            &&& m.players@.len() == a.players@.len()
            &&& turn_timed_out(a.players@[cur], m.players@[cur], a.turn_number)
            &&& forall|j: int|
                0 <= j < a.players@.len() && j != cur ==> #[trigger] m.players@[j] == a.players@[j]
            &&& match m.turn_logic {
                TurnLogic::Classic(c2) => c2.current_turn_index == c.current_turn_index
                    && c2.failed_players@ == if all_active_failed(m.players@, failed1) {
                    Seq::empty()
                } else {
                    failed1
                },
                _ => false,
            }
        },
        _ => false,
    }
}

/// Every player with lives left has failed on the current trigram in `m`.
pub open spec fn failures_complete(a: PlayingState, m: PlayingState) -> bool {
    match a.turn_logic {
        TurnLogic::Classic(c) => {
            let id = a.players@[c.current_turn_index as int].player_identity;
            let failed1 = if c.failed_players@.contains(id) {
                c.failed_players@
            } else {
                c.failed_players@.push(id)
            };
            all_active_failed(m.players@, failed1)
        },
        _ => false,
    }
}

/// The steps of a classic timeout from `a`: `m` after the timeout itself, `m3`
/// after a fresh trigram where every active player failed.
pub open spec fn classic_time_up_steps(a: PlayingState, m: PlayingState, m3: PlayingState, map: TrigramMap) -> bool {
    &&& classic_timed_out(a, m)
    &&& if failures_complete(a, m) {
        trigram_advanced(m, m3, map)
    } else {
        m3 == m
    }
}

/// `b` is `a` after a classic turn ran out of time.
pub open spec fn classic_time_up(
    a: PlayingState,
    b: PlayingState,
    wins_a: Seq<PlayerWins>,
    wins_b: Seq<PlayerWins>,
    r: ShouldScheduleTurnTimeout,
    map: TrigramMap,
) -> bool {
    exists|m: PlayingState, m3: PlayingState|
        #[trigger] classic_time_up_steps(a, m, m3, map) && turn_ended(m3, b, wins_a, wins_b, r, map)
}

fn contains_id(v: &Vec<PlayerId>, id: PlayerId) -> (r: bool)
    ensures
        r == v@.contains(id),
{
    let mut i: usize = 0;
    while i < v.len()
        invariant
            i <= v@.len(),
            forall|j: int| 0 <= j < i ==> v@[j] != id,
        decreases v@.len() - i,
    {
        if v[i] == id {
            return true;
        }
        i = i + 1;
    }
    false
}

fn every_active_failed(players: &Vec<PlayerGameData>, failed: &Vec<PlayerId>) -> (r: bool)
    ensures
        r == all_active_failed(players@, failed@),
{
    let mut i: usize = 0;
    while i < players.len()
        invariant
            i <= players@.len(),
            forall|j: int|
                0 <= j < i && is_alive(#[trigger] players@[j]) ==> failed@.contains(
                    players@[j].player_identity,
                ),
        decreases players@.len() - i,
    {
        if players[i].lives > 0 && !contains_id(failed, players[i].player_identity) {
            return false;
        }
        i = i + 1;
    }
    true
}

/// Handles the end of time on a classic turn.
fn time_up_classic(
    state: &mut PlayingState,
    wins: &mut Vec<PlayerWins>,
    map: &TrigramMap,
    rng: &mut StdRng,
) -> (r: ShouldScheduleTurnTimeout)
    requires
        map.wf(),
        old(state).turn_logic is Classic,
        old(state).players@.len() > 0,
        playing_wf(*old(state)),
        state_winner(*old(state)) == GameResult::Undecided,
        old(state).turn_number < u32::MAX,
        wins_below_max(old(wins)@),
        timeout_exhausts_trigram(*old(state)) ==> can_pick_trigram(*old(state), *map),
    ensures
        classic_time_up(*old(state), *final(state), old(wins)@, final(wins)@, r, *map),
        playing_wf(*final(state)),
        final(state).turn_number == old(state).turn_number || final(state).turn_number
            == old(state).turn_number + 1,
        final(state).turn_number == old(state).turn_number + 1 <==> r
            == ShouldScheduleTurnTimeout::ScheduleTurnTimeout,
{
    let ghost a = *state;
    let round = state.turn_number;
    let mut pick_new_trigram = false;
    match &mut state.turn_logic {
        TurnLogic::Classic(classic) => {
            let cur = classic.current_turn_index as usize;
            let id = state.players[cur].player_identity;
            if !contains_id(&classic.failed_players, id) {
                classic.failed_players.push(id);
            }
            time_out_turn(&mut state.players[cur], round);
            if every_active_failed(&state.players, &classic.failed_players) {
                classic.failed_players.clear();
                pick_new_trigram = true;
            }
        },
        TurnLogic::Simultaneous(_) => {},
    }
    let ghost m = *state;
    assert(classic_timed_out(a, m));
    assert(playing_wf(m));
    proof {
        if pick_new_trigram {
            let c = a.turn_logic->Classic_0;
            let cur = c.current_turn_index as int;
            let id = a.players@[cur].player_identity;
            let failed1 = if c.failed_players@.contains(id) {
                c.failed_players@
            } else {
                c.failed_players@.push(id)
            };
            assert(all_active_failed(m.players@, failed1));
            assert forall|j: int|
                0 <= j < a.players@.len() && (if j == cur {
                    m.players@[cur].lives
                } else {
                    (#[trigger] a.players@[j]).lives
                }) > 0 implies failed1.contains(a.players@[j].player_identity) by {
                assert(is_alive(m.players@[j]));
            }
            assert(timeout_exhausts_trigram(a));
        }
    }
    if pick_new_trigram {
        pick_random_trigram_and_update(state, map, rng);
    }
    let ghost m3 = *state;
    assert(classic_time_up_steps(a, m, m3, *map));
    end_turn_playing(state, wins, map, rng)
}

/// `m` is `a` once a simultaneous round closed for every player.
pub open spec fn round_all_closed(a: PlayingState, m: PlayingState) -> bool {
    &&& m == PlayingState { players: m.players, ..a }
    &&& m.players@.len() == a.players@.len()
    &&& forall|j: int|
        0 <= j < a.players@.len() ==> round_closed(a.players@[j], #[trigger] m.players@[j], a.turn_number)
}

/// The steps of a simultaneous round's end from `a`: `m` once every player is
/// dealt with, `m3` once a fresh trigram is chosen.
pub open spec fn simultaneous_time_up_steps(a: PlayingState, m: PlayingState, m3: PlayingState, map: TrigramMap) -> bool {
    round_all_closed(a, m) && trigram_advanced(m, m3, map)
}

/// `b` is `a` after the timer of a simultaneous round ran out.
pub open spec fn simultaneous_time_up(
    a: PlayingState,
    b: PlayingState,
    wins_a: Seq<PlayerWins>,
    wins_b: Seq<PlayerWins>,
    r: ShouldScheduleTurnTimeout,
    map: TrigramMap,
) -> bool {
    exists|m: PlayingState, m3: PlayingState|
        #[trigger] simultaneous_time_up_steps(a, m, m3, map) && turn_ended(m3, b, wins_a, wins_b, r, map)
}

/// Handles the end of a simultaneous round.
fn time_up_simultaneous(
    state: &mut PlayingState,
    wins: &mut Vec<PlayerWins>,
    map: &TrigramMap,
    rng: &mut StdRng,
) -> (r: ShouldScheduleTurnTimeout)
    requires
        map.wf(),
        old(state).players@.len() > 0,
        playing_wf(*old(state)),
        state_winner(*old(state)) == GameResult::Undecided,
        old(state).turn_number < u32::MAX,
        wins_below_max(old(wins)@),
        can_pick_trigram(*old(state), *map),
    ensures
        simultaneous_time_up(*old(state), *final(state), old(wins)@, final(wins)@, r, *map),
        playing_wf(*final(state)),
        final(state).turn_number == old(state).turn_number || final(state).turn_number
            == old(state).turn_number + 1,
        final(state).turn_number == old(state).turn_number + 1 <==> r
            == ShouldScheduleTurnTimeout::ScheduleTurnTimeout,
{
    let ghost a = *state;
    let round = state.turn_number;
    let mut i: usize = 0;
    while i < state.players.len()
        invariant
            *state == (PlayingState { players: state.players, ..a }),
            round == a.turn_number,
            i <= state.players@.len(),
            state.players@.len() == a.players@.len(),
            forall|j: int| 0 <= j < i ==> round_closed(a.players@[j], #[trigger] state.players@[j], round),
            forall|j: int| i <= j < a.players@.len() ==> #[trigger] state.players@[j] == a.players@[j],
        decreases a.players@.len() - i,
    {
        close_round(&mut state.players[i], round);
        i = i + 1;
    }
    let ghost m = *state;
    assert(round_all_closed(a, m));
    assert(playing_wf(m));
    pick_random_trigram_and_update(state, map, rng);
    let ghost m3 = *state;
    assert(simultaneous_time_up_steps(a, m, m3, *map));
    end_turn_playing(state, wins, map, rng)
}

/// The match in a record that is in the playing state.
pub open spec fn playing_of(gs: GameStateTable) -> PlayingState {
    match gs.state {
        GameState::Playing(p) => p,
        _ => arbitrary(),
    }
}

/// Index `i` is the first of `ps` whose player is `id`.
pub open spec fn is_first_player(ps: Seq<PlayerGameData>, i: int, id: PlayerId) -> bool {
    0 <= i < ps.len() && ps[i].player_identity == id && forall|j: int|
        0 <= j < i ==> (#[trigger] ps[j]).player_identity != id
}

pub open spec fn has_player(ps: Seq<PlayerGameData>, id: PlayerId) -> bool {
    exists|i: int| 0 <= i < ps.len() && (#[trigger] ps[i]).player_identity == id
}

/// The index of the player who made a guess as `id`: the player whose turn it is
/// under classic turns, else the first player who is `id`.
pub open spec fn guesser(a: PlayingState, id: PlayerId) -> int {
    match a.turn_logic {
        TurnLogic::Classic(c) => c.current_turn_index as int,
        TurnLogic::Simultaneous(_) => choose|i: int| is_first_player(a.players@, i, id),
    }
}

/// A submitted word as it is checked: trimmed and in upper case.
pub open spec fn submitted_word(g: GuessWordMove) -> Seq<char> {
    uppercase_of(trimmed(g.word@))
}

/// Why a move is refused, if it is: outside of play, with no players, after the
/// match is decided, from someone who is not playing, or out of turn.
pub open spec fn move_error(gs: GameStateTable, mv: Move) -> Option<Seq<char>> {
    match gs.state {
        GameState::Settings(_) => Some("Cannot make moves while in settings state"@),
        GameState::Countdown(_) => Some("Cannot make moves during countdown"@),
        GameState::Playing(a) => if a.players@.len() == 0 {
            Some("No players in game"@)
        } else if state_winner(a) != GameResult::Undecided {
            Some("Game is over"@)
        } else {
            match mv {
                Move::TimeUp => None,
                Move::GuessWord(g) => if !has_player(a.players@, g.player_identity) {
                    Some("Player not found"@)
                } else {
                    match a.turn_logic {
                        TurnLogic::Classic(c) => {
                            let p = a.players@[c.current_turn_index as int];
                            if p.player_identity != g.player_identity || !is_alive(p) {
                                Some("Not your turn"@)
                            } else {
                                None
                            }
                        },
                        TurnLogic::Simultaneous(_) => None,
                    }
                },
            }
        },
    }
}

/// Under classic turns, the timeout of the player whose turn it is leaves every
/// player with lives left among those who failed on the current trigram.
pub open spec fn timeout_exhausts_trigram(a: PlayingState) -> bool {
    match a.turn_logic {
        TurnLogic::Classic(c) => {
            let cur = c.current_turn_index as int;
            let id = a.players@[cur].player_identity;
            let failed1 = if c.failed_players@.contains(id) {
                c.failed_players@
            } else {
                c.failed_players@.push(id)
            };
            let lives_after = crate::player::life_lost(a.players@[cur].lives);
            forall|j: int|
                0 <= j < a.players@.len() && (if j == cur {
                    lives_after
                } else {
                    (#[trigger] a.players@[j]).lives
                }) > 0 ==> failed1.contains(a.players@[j].player_identity)
        },
        TurnLogic::Simultaneous(_) => true,
    }
}

proof fn lemma_exhaustion_same(a: PlayingState, b: PlayingState)
    requires
        playing_wf(a),
        a.players@.len() > 0,
        b == (PlayingState { players: b.players, ..a }),
        b.players@.len() == a.players@.len(),
        forall|j: int| 0 <= j < a.players@.len() ==> (#[trigger] b.players@[j]).lives
            == a.players@[j].lives && b.players@[j].player_identity == a.players@[j].player_identity,
    ensures
        timeout_exhausts_trigram(a) == timeout_exhausts_trigram(b),
{
    if let TurnLogic::Classic(c) = a.turn_logic {
        let cur = c.current_turn_index as int;
        assert(b.players@[cur].lives == a.players@[cur].lives);
        assert(b.players@[cur].player_identity == a.players@[cur].player_identity);
        let id = a.players@[cur].player_identity;
        let failed1 = if c.failed_players@.contains(id) {
            c.failed_players@
        } else {
            c.failed_players@.push(id)
        };
        if timeout_exhausts_trigram(a) {
            assert forall|j: int|
                0 <= j < b.players@.len() && (if j == cur {
                    crate::player::life_lost(b.players@[cur].lives)
                } else {
                    (#[trigger] b.players@[j]).lives
                }) > 0 implies failed1.contains(b.players@[j].player_identity) by {
                assert(a.players@[j].lives == b.players@[j].lives);
                assert(a.players@[j].player_identity == b.players@[j].player_identity);
            }
        }
        if timeout_exhausts_trigram(b) {
            assert forall|j: int|
                0 <= j < a.players@.len() && (if j == cur {
                    crate::player::life_lost(a.players@[cur].lives)
                } else {
                    (#[trigger] a.players@[j]).lives
                }) > 0 implies failed1.contains(a.players@[j].player_identity) by {
                assert(a.players@[j].lives == b.players@[j].lives);
                assert(a.players@[j].player_identity == b.players@[j].player_identity);
            }
        }
    }
}

/// The move needs a fresh trigram: a timeout that exhausts the current one (every
/// simultaneous round does), and an accepted word under classic turns.
pub open spec fn move_may_pick(a: PlayingState, mv: Move, map: TrigramMap) -> bool {
    match mv {
        Move::TimeUp => timeout_exhausts_trigram(a),
        Move::GuessWord(g) => a.turn_logic is Classic && map.verdict(
            submitted_word(g),
            a.current_trigram@,
            used_words(a),
        ) is Ok,
    }
}

/// `a0` is `a` with every player's events emptied, as each move starts.
pub open spec fn events_reset(a: PlayingState, a0: PlayingState) -> bool {
    &&& a0 == PlayingState { players: a0.players, ..a }
    &&& events_cleared(a.players@, a0.players@)
}

/// `b` is `a0` after move `mv`, which was not refused.
pub open spec fn move_applied(
    a0: PlayingState,
    b: PlayingState,
    wins_a: Seq<PlayerWins>,
    wins_b: Seq<PlayerWins>,
    mv: Move,
    r: ShouldScheduleTurnTimeout,
    map: TrigramMap,
) -> bool {
    match mv {
        Move::TimeUp => match a0.turn_logic {
            TurnLogic::Classic(_) => classic_time_up(a0, b, wins_a, wins_b, r, map),
            TurnLogic::Simultaneous(_) => simultaneous_time_up(a0, b, wins_a, wins_b, r, map),
        },
        Move::GuessWord(g) => {
            let w = submitted_word(g);
            let i = guesser(a0, g.player_identity);
            match map.verdict(w, a0.current_trigram@, used_words(a0)) {
                Err(reason) => {
                    &&& guess_rejected(a0, b, i, w, reason)
                    &&& wins_b == wins_a
                    &&& r == ShouldScheduleTurnTimeout::DoNotScheduleTurnTimeout
                },
                Ok(_) => guess_accepted(a0, b, wins_a, wins_b, i, w, r, map),
            }
        },
    }
}

/// What a move needs to go through without overflow: room for one more turn,
/// one more life and one more win.
pub open spec fn has_room(gs: GameStateTable) -> bool {
    &&& playing_of(gs).turn_number < u32::MAX
    &&& lives_below_max(playing_of(gs).players@)
    &&& wins_below_max(gs.player_wins@)
}

fn find_player(players: &Vec<PlayerGameData>, id: PlayerId) -> (r: Option<usize>)
    ensures
        r matches Some(i) ==> is_first_player(players@, i as int, id),
        r is None <==> !has_player(players@, id),
{
    let mut i: usize = 0;
    while i < players.len()
        invariant
            i <= players@.len(),
            forall|j: int| 0 <= j < i ==> (#[trigger] players@[j]).player_identity != id,
        decreases players@.len() - i,
    {
        if players[i].player_identity == id {
            return Some(i);
        }
        i = i + 1;
    }
    None
}

proof fn lemma_guess_words_same(a: Seq<PlayerGameData>, b: Seq<PlayerGameData>)
    requires
        a.len() == b.len(),
        forall|i: int| 0 <= i < a.len() ==> (#[trigger] b[i]).past_guesses == a[i].past_guesses,
    ensures
        crate::play::guess_words(a) == crate::play::guess_words(b),
    decreases a.len(),
{
    if a.len() > 0 {
        lemma_guess_words_same(a.drop_last(), b.drop_last());
    }
}

/// The record `b` is `a` after the move `mv`, which was not refused and asks
/// for a new timer where `s` says so: the match stays well formed, its turn
/// number grows by one exactly when a timer is armed, and the move is applied
/// to the match with every player's events emptied first.
pub open spec fn move_done(a_gs: GameStateTable, b_gs: GameStateTable, mv: Move, s: ShouldScheduleTurnTimeout, map: TrigramMap) -> bool {
    let a = playing_of(a_gs);
    let b = playing_of(b_gs);
    &&& b_gs.state is Playing
    &&& b_gs.game_id == a_gs.game_id
    &&& b_gs.updated_at == a_gs.updated_at
    &&& playing_wf(b)
    &&& b.turn_number == a.turn_number || b.turn_number == a.turn_number + 1
    &&& b.turn_number == a.turn_number + 1 <==> s == ShouldScheduleTurnTimeout::ScheduleTurnTimeout
    &&& exists|a0: PlayingState|
        #[trigger] events_reset(a, a0) && move_applied(a0, b, a_gs.player_wins@, b_gs.player_wins@, mv, s, map)
}

/// Applies one move to a match: a turn's timer running out, or a word from a
/// player. A refused move changes nothing and says why.
pub fn make_move(
    game_state: &mut GameStateTable,
    game_move: Move,
    map: &TrigramMap,
    rng: &mut StdRng,
) -> (r: Result<ShouldScheduleTurnTimeout, String>)
    requires
        map.wf(),
        old(game_state).state is Playing ==> playing_wf(playing_of(*old(game_state))),
        move_error(*old(game_state), game_move) is None ==> {
            let a = playing_of(*old(game_state));
            &&& has_room(*old(game_state))
            &&& move_may_pick(a, game_move, *map) ==> can_pick_trigram(a, *map)
        },
    ensures
        move_error(*old(game_state), game_move) matches Some(msg) ==> r matches Err(e) && e@ == msg
            && *final(game_state) == *old(game_state),
        move_error(*old(game_state), game_move) is None ==> r is Ok && move_done(
            *old(game_state),
            *final(game_state),
            game_move,
            r->Ok_0,
            *map,
        ),
{
    let mut guesser_index: usize = 0;
    match &game_state.state {
        GameState::Settings(_) => {
            return Err("Cannot make moves while in settings state".to_string());
        },
        GameState::Countdown(_) => {
            return Err("Cannot make moves during countdown".to_string());
        },
        GameState::Playing(state) => {
            if state.players.len() == 0 {
                return Err("No players in game".to_string());
            }
            match has_winner(state) {
                GameResult::Undecided => {},
                _ => {
                    return Err("Game is over".to_string());
                },
            }
            match &game_move {
                Move::TimeUp => {},
                Move::GuessWord(g) => {
                    match find_player(&state.players, g.player_identity) {
                        None => {
                            return Err("Player not found".to_string());
                        },
                        Some(i) => {
                            guesser_index = i;
                        },
                    }
                    match &state.turn_logic {
                        TurnLogic::Classic(classic) => {
                            let cur = classic.current_turn_index as usize;
                            if state.players[cur].player_identity != g.player_identity
                                || state.players[cur].lives <= 0 {
                                return Err("Not your turn".to_string());
                            }
                            guesser_index = cur;
                        },
                        TurnLogic::Simultaneous(_) => {},
                    }
                },
            }
        },
    }
    let ghost a = playing_of(*game_state);
    match &mut game_state.state {
        GameState::Playing(state) => {
            crate::play::clear_events(&mut state.players);
            let ghost a0 = *state;
            proof {
                lemma_winner_same(a.players@, a0.players@, a.settings.win_condition);
                lemma_guess_words_same(a.players@, a0.players@);
                assert(events_reset(a, a0));
                assert(playing_wf(a0));
                assert(forall|j: int| 0 <= j < a.players@.len() ==> (#[trigger] a0.players@[j]).lives
                    == a.players@[j].lives && a0.players@[j].player_identity == a.players@[j].player_identity);
                lemma_exhaustion_same(a, a0);
                assert(lives_below_max(a0.players@)) by {
                    assert forall|i: int| 0 <= i < a0.players@.len() implies (#[trigger] a0.players@[i]).lives < i32::MAX by {
                        assert(a.players@[i].lives < i32::MAX);
                    }
                }
            }
            match game_move {
                Move::TimeUp => {
                    let s = match &state.turn_logic {
                        TurnLogic::Classic(_) => time_up_classic(state, &mut game_state.player_wins, map, rng),
                        TurnLogic::Simultaneous(_) => time_up_simultaneous(state, &mut game_state.player_wins, map, rng),
                    };
                    Ok(s)
                },
                Move::GuessWord(g) => {
                    proof {
                        let id = g.player_identity;
                        if a0.turn_logic is Simultaneous {
                            assert(is_first_player(a0.players@, guesser_index as int, id)) by {
                                assert forall|j: int| 0 <= j < guesser_index implies (#[trigger] a0.players@[j]).player_identity != id by {
                                    assert(a.players@[j].player_identity != id);
                                }
                            }
                            let c = choose|c: int| is_first_player(a0.players@, c, id);
                            if c < guesser_index {
                                assert(a0.players@[c].player_identity != id);
                            } else if guesser_index < c {
                                assert(a0.players@[guesser_index as int].player_identity != id);
                            }
                            assert(guesser(a0, id) == guesser_index);
                        }
                    }
                    let trimmed_word = trim_whitespace(g.word.as_str());
                    let word = to_upper(trimmed_word.as_str());
                    let used = get_used_words(state);
                    match is_word_valid(map, word.as_str(), state.current_trigram.as_str(), used.as_slice()) {
                        Ok(()) => {
                            let s = accept_guess(state, &mut game_state.player_wins, guesser_index, &word, map, rng);
                            Ok(s)
                        },
                        Err(reason) => {
                            reject_guess(state, guesser_index, word, reason);
                            Ok(ShouldScheduleTurnTimeout::DoNotScheduleTurnTimeout)
                        },
                    }
                },
            }
        },
        _ => {
            proof {
                assert(false);
            }
            Ok(ShouldScheduleTurnTimeout::DoNotScheduleTurnTimeout)
        },
    }
}

/// A word submitted by `player`: the move `GuessWord` from them.
pub fn submit_word(
    game_state: &mut GameStateTable,
    player: PlayerId,
    word: String,
    map: &TrigramMap,
    rng: &mut StdRng,
) -> (r: Result<ShouldScheduleTurnTimeout, String>)
    requires
        map.wf(),
        old(game_state).state is Playing ==> playing_wf(playing_of(*old(game_state))),
        ({
            let a = playing_of(*old(game_state));
            let mv = Move::GuessWord(GuessWordMove { player_identity: player, word });
            move_error(*old(game_state), mv) is None ==> has_room(*old(game_state)) && (move_may_pick(
                a,
                mv,
                *map,
            ) ==> can_pick_trigram(a, *map))
        }),
    ensures
        ({
            let mv = Move::GuessWord(GuessWordMove { player_identity: player, word });
            &&& move_error(*old(game_state), mv) matches Some(msg) ==> r matches Err(e) && e@ == msg
                && *final(game_state) == *old(game_state)
            &&& move_error(*old(game_state), mv) is None ==> r is Ok && move_done(
                *old(game_state),
                *final(game_state),
                mv,
                r->Ok_0,
                *map,
            )
        }),
{
    make_move(game_state, Move::GuessWord(GuessWordMove { player_identity: player, word }), map, rng)
}

/// Why a move could not be tried.
#[derive(Clone, Copy, Debug, PartialEq, Eq, Structural)]
pub enum MoveBlocked {
    /// The match is not well formed.
    Malformed,
    /// A turn, life or win count is at its largest value.
    CountersExhausted,
    /// The move needs a fresh trigram and none is left.
    TrigramsExhausted,
}

/// Whether the timeout of the current classic turn exhausts the trigram.
fn timeout_exhausts(state: &PlayingState) -> (r: bool)
    requires
        playing_wf(*state),
        state.players@.len() > 0,
    ensures
        r == timeout_exhausts_trigram(*state),
{
    match &state.turn_logic {
        TurnLogic::Classic(classic) => {
            let ghost a = *state;
            let cur = classic.current_turn_index as usize;
            let id = state.players[cur].player_identity;
            let already = contains_id(&classic.failed_players, id);
            let ghost failed1 = if classic.failed_players@.contains(id) {
                classic.failed_players@
            } else {
                classic.failed_players@.push(id)
            };
            let lives_after = if state.players[cur].lives > 0 {
                state.players[cur].lives - 1
            } else {
                0
            };
            let mut j: usize = 0;
            while j < state.players.len()
                invariant
                    *state == a,
                    a.turn_logic == TurnLogic::Classic(*classic),
                    cur == classic.current_turn_index,
                    cur < a.players@.len(),
                    id == a.players@[cur as int].player_identity,
                    already == classic.failed_players@.contains(id),
                    failed1 == (if classic.failed_players@.contains(id) {
                        classic.failed_players@
                    } else {
                        classic.failed_players@.push(id)
                    }),
                    lives_after == crate::player::life_lost(a.players@[cur as int].lives),
                    j <= a.players@.len(),
                    forall|k: int|
                        0 <= k < j && (if k == cur {
                            lives_after
                        } else {
                            (#[trigger] a.players@[k]).lives
                        }) > 0 ==> failed1.contains(a.players@[k].player_identity),
                decreases a.players@.len() - j,
            {
                let lives = if j == cur {
                    lives_after
                } else {
                    state.players[j].lives
                };
                let other = state.players[j].player_identity;
                let listed = contains_id(&classic.failed_players, other) || (!already && other == id);
                proof {
                    if !already {
                        assert(failed1 == classic.failed_players@.push(id));
                        assert(failed1.contains(other) == (classic.failed_players@.contains(other) || other == id)) by {
                            if other == id {
                                assert(failed1[failed1.len() - 1] == id);
                            }
                            if failed1.contains(other) && other != id {
                                let x = choose|x: int| 0 <= x < failed1.len() && failed1[x] == other;
                                assert(classic.failed_players@[x] == other);
                            }
                            if classic.failed_players@.contains(other) {
                                let x = choose|x: int| 0 <= x < classic.failed_players@.len() && classic.failed_players@[x] == other;
                                assert(failed1[x] == other);
                            }
                        }
                    }
                }
                if lives > 0 && !listed {
                    return false;
                }
                j = j + 1;
            }
            true
        },
        TurnLogic::Simultaneous(_) => true,
    }
}

/// Whether the move needs a fresh trigram, see `move_may_pick`.
pub fn move_needs_trigram(state: &PlayingState, game_move: &Move, map: &TrigramMap) -> (r: bool)
    requires
        map.wf(),
        playing_wf(*state),
        state.players@.len() > 0,
    ensures
        r == move_may_pick(*state, *game_move, *map),
{
    match game_move {
        Move::TimeUp => timeout_exhausts(state),
        Move::GuessWord(g) => match &state.turn_logic {
            TurnLogic::Classic(_) => {
                let trimmed_word = trim_whitespace(g.word.as_str());
                let word = to_upper(trimmed_word.as_str());
                let used = get_used_words(state);
                is_word_valid(map, word.as_str(), state.current_trigram.as_str(), used.as_slice()).is_ok()
            },
            TurnLogic::Simultaneous(_) => false,
        },
    }
}

/// What `apply_move` promises: a blocked move changes nothing and says which
/// need was missing; a tried move is refused or applied as `make_move` says.
pub open spec fn move_outcome(
    a_gs: GameStateTable,
    b_gs: GameStateTable,
    mv: Move,
    r: Result<Result<ShouldScheduleTurnTimeout, String>, MoveBlocked>,
    map: TrigramMap,
) -> bool {
    let a = playing_of(a_gs);
    match r {
        Err(b) => {
            &&& b_gs == a_gs
            &&& a_gs.state is Playing
            &&& match b {
                MoveBlocked::Malformed => !playing_wf(a),
                MoveBlocked::CountersExhausted => !has_room(a_gs),
                MoveBlocked::TrigramsExhausted => move_may_pick(a, mv, map) && !can_pick_trigram(a, map),
            }
        },
        Ok(res) => {
            &&& move_error(a_gs, mv) matches Some(msg) ==> res matches Err(e) && e@ == msg && b_gs == a_gs
            &&& move_error(a_gs, mv) is None ==> res is Ok && move_done(a_gs, b_gs, mv, res->Ok_0, map)
        },
    }
}

/// Applies a move after checking what it needs: a well-formed match, room in
/// its counters, and a fresh trigram where the move needs one. Where one of them
/// is missing nothing changes and the reason comes back.
pub fn apply_move(
    game_state: &mut GameStateTable,
    game_move: Move,
    map: &TrigramMap,
    rng: &mut StdRng,
) -> (r: Result<Result<ShouldScheduleTurnTimeout, String>, MoveBlocked>)
    requires
        map.wf(),
    ensures
        move_outcome(*old(game_state), *final(game_state), game_move, r, *map),
{
    match &game_state.state {
        GameState::Playing(state) => {
            if !is_well_formed(state) {
                return Err(MoveBlocked::Malformed);
            }
            if state.players.len() > 0 {
                if !has_room_to_move(game_state) {
                    return Err(MoveBlocked::CountersExhausted);
                }
                if move_needs_trigram(state, &game_move, map) && !trigram_pool_ready(state, map) {
                    return Err(MoveBlocked::TrigramsExhausted);
                }
            }
        },
        _ => {},
    }
    Ok(make_move(game_state, game_move, map, rng))
}

/// Whether the match is well formed.
pub fn is_well_formed(state: &PlayingState) -> (r: bool)
    ensures
        r == playing_wf(*state),
{
    if state.players.len() as u64 > u32::MAX as u64 {
        return false;
    }
    match &state.turn_logic {
        TurnLogic::Classic(classic) => {
            if state.players.len() > 0 && classic.current_turn_index as usize >= state.players.len() {
                return false;
            }
        },
        TurnLogic::Simultaneous(_) => {},
    }
    if !history_is_fresh(state) {
        return false;
    }
    match state.winner {
        GameResult::Undecided => true,
        w => w == has_winner(state),
    }
}

fn history_is_fresh(state: &PlayingState) -> (r: bool)
    ensures
        r == trigrams_fresh(*state),
{
    let ghost h = crate::play::history_trigrams(state.trigram_examples@);
    let exs = &state.trigram_examples;
    let mut i: usize = 0;
    while i < exs.len()
        invariant
            h == crate::play::history_trigrams(exs@),
            exs == &state.trigram_examples,
            i <= exs@.len(),
            forall|x: int, y: int| 0 <= x < y < i ==> h[x] != h[y],
            forall|x: int| 0 <= x < i ==> (#[trigger] h[x]).len() > 0,
            state.winner == GameResult::Undecided ==> forall|x: int| 0 <= x < i ==> h[x] != state.current_trigram@,
        decreases exs@.len() - i,
    {
        assert(h[i as int] == exs@[i as int].trigram@);
        if exs[i].trigram.as_str().unicode_len() == 0 {
            return false;
        }
        if let GameResult::Undecided = state.winner {
            if exs[i].trigram == state.current_trigram {
                assert(h.contains(state.current_trigram@)) by {
                    assert(h[i as int] == state.current_trigram@);
                }
                return false;
            }
        }
        let mut k: usize = 0;
        while k < i
            invariant
                h == crate::play::history_trigrams(exs@),
                exs == &state.trigram_examples,
                i < exs@.len(),
                k <= i,
                forall|x: int| 0 <= x < k ==> h[x] != h[i as int],
            decreases i - k,
        {
            if exs[k].trigram == exs[i].trigram {
                assert(h[k as int] == exs@[k as int].trigram@);
                assert(!h.no_duplicates()) by {
                    assert(h[k as int] == h[i as int]);
                }
                return false;
            }
            k = k + 1;
        }
        i = i + 1;
    }
    true
}

/// Whether a move fits in the counters: one more turn, life and win.
pub fn has_room_to_move(game_state: &GameStateTable) -> (r: bool)
    requires
        game_state.state is Playing,
    ensures
        r == has_room(*game_state),
{
    let state = match &game_state.state {
        GameState::Playing(state) => state,
        _ => {
            proof {
                assert(false);
            }
            return false;
        },
    };
    if state.turn_number == u32::MAX {
        return false;
    }
    let mut i: usize = 0;
    while i < state.players.len()
        invariant
            *state == playing_of(*game_state),
            i <= state.players@.len(),
            forall|j: int| 0 <= j < i ==> (#[trigger] state.players@[j]).lives < i32::MAX,
        decreases state.players@.len() - i,
    {
        if state.players[i].lives == i32::MAX {
            return false;
        }
        i = i + 1;
    }
    let wins = &game_state.player_wins;
    let mut k: usize = 0;
    while k < wins.len()
        invariant
            *state == playing_of(*game_state),
            wins == &game_state.player_wins,
            state.turn_number < u32::MAX,
            lives_below_max(state.players@),
            k <= wins@.len(),
            forall|j: int| 0 <= j < k ==> (#[trigger] wins@[j]).wins < u32::MAX,
        decreases wins@.len() - k,
    {
        if wins[k].wins == u32::MAX {
            assert(!wins_below_max(wins@)) by {
                assert(wins@[k as int].wins == u32::MAX);
            }
            return false;
        }
        k = k + 1;
    }
    true
}

/// Whether a trigram can still be chosen in the match.
pub fn trigram_pool_ready(state: &PlayingState, map: &TrigramMap) -> (r: bool)
    ensures
        r == can_pick_trigram(*state, *map),
{
    let used = crate::play::get_used_trigrams(state);
    let available = crate::trigram::get_available_trigrams(map, used.as_slice());
    available.len() > 0
}

} // verus!

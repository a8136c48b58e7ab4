use crate::moves::{move_done, move_error, playing_of};
use crate::play::{
    count_alive, history_trigrams, is_alive, is_first_alive, is_first_complete,
    playing_wf, state_winner, winner_of,
};
use crate::player::{accepted_word_applied, events_view, EventView};
use crate::text::strings_view;
use crate::types::{
    GameResult, GameState, GameStateTable, GuessWordMove, Move, PlayerGameData, PlayerId,
    TurnLogic, WinCondition,
};
use vstd::prelude::*;

verus! {

/// Under classic turns, a word from anyone but the player whose turn it is is
/// refused as out of turn (and a refused move changes nothing, see `make_move`).
pub proof fn lemma_guess_out_of_turn_refused(gs: GameStateTable, g: GuessWordMove)
    requires
        gs.state matches GameState::Playing(a) && a.players@.len() > 0 && state_winner(a)
            == GameResult::Undecided && (a.turn_logic matches TurnLogic::Classic(c)
            && c.current_turn_index < a.players@.len() && exists|i: int|
            0 <= i < a.players@.len() && (#[trigger] a.players@[i]).player_identity == g.player_identity
                && a.players@[c.current_turn_index as int].player_identity != g.player_identity),
    ensures
        move_error(gs, Move::GuessWord(g)) == Some("Not your turn"@),
{
}

/// The turn number never goes back: a move that goes through leaves it as it
/// was or adds one, and adds one exactly when a new turn timer is armed. (A
/// stale timer changes nothing at all, see `turn_timeout`.)
pub proof fn lemma_turn_number_never_decreases(
    a: GameStateTable,
    b: GameStateTable,
    mv: Move,
    s: crate::types::ShouldScheduleTurnTimeout,
    map: crate::trigram::TrigramMap,
)
    requires
        move_done(a, b, mv, s, map),
    ensures
        playing_of(b).turn_number >= playing_of(a).turn_number,
        playing_of(b).turn_number == playing_of(a).turn_number + 1 <==> s
            == crate::types::ShouldScheduleTurnTimeout::ScheduleTurnTimeout,
{
}

/// In a well-formed match no trigram was played twice: the history holds each
/// trigram once, and while the match is undecided the current trigram is not
/// among them.
pub proof fn lemma_trigrams_never_repeat(gs: GameStateTable)
    requires
        gs.state matches GameState::Playing(a) && playing_wf(a),
    ensures
        ({
            let a = gs.state->Playing_0;
            let h = history_trigrams(a.trigram_examples@);
            &&& forall|x: int, y: int| 0 <= x < y < h.len() ==> h[x] != h[y]
            &&& a.winner == GameResult::Undecided ==> forall|x: int| 0 <= x < h.len() ==> h[x] != a.current_trigram@
        }),
{
    let a = gs.state->Playing_0;
    let h = history_trigrams(a.trigram_examples@);
    if a.winner == GameResult::Undecided {
        assert forall|x: int| 0 <= x < h.len() implies h[x] != a.current_trigram@ by {
            if h[x] == a.current_trigram@ {
                assert(h.contains(a.current_trigram@));
            }
        }
    }
}

/// The life earned for holding all 26 letters takes both letter sets: right
/// after it the player holds no used and no free letter.
pub proof fn lemma_life_bonus_clears_letters(
    p: PlayerGameData,
    q: PlayerGameData,
    word: Seq<char>,
    round: u32,
    win: WinCondition,
    draw: u32,
)
    requires
        accepted_word_applied(p, q, word, round, win, draw),
        events_view(q.events@).last() == EventView::LifeEarned,
    ensures
        q.lives == p.lives + 1,
        strings_view(q.used_letters@).len() == 0,
        strings_view(q.free_letters@).len() == 0,
{
    let ev1 = events_view(p.events@).push(EventView::CorrectGuess);
    let cands = crate::player::free_letter_candidates(p, word);
    let letter = cands[crate::random::index_of_draw(draw, cands.len()) as int];
    let ev2 = if crate::player::earns_free_letter(p, word) {
        ev1.push(EventView::FreeLetterAward { letter })
    } else {
        ev1
    };
    assert(ev2.last() != EventView::LifeEarned);
}

proof fn lemma_one_alive_only(ps: Seq<PlayerGameData>, i: int)
    requires
        count_alive(ps) == 1,
        0 <= i < ps.len(),
        is_alive(ps[i]),
    ensures
        forall|j: int| 0 <= j < ps.len() && j != i ==> !is_alive(#[trigger] ps[j]),
    decreases ps.len(),
{
    let d = ps.drop_last();
    if i == ps.len() - 1 {
        assert(count_alive(d) == 0);
        crate::play::lemma_count_zero_none_alive(d);
        assert forall|j: int| 0 <= j < ps.len() && j != i implies !is_alive(#[trigger] ps[j]) by {
            assert(ps[j] == d[j]);
        }
    } else {
        assert(d[i] == ps[i]);
        lemma_count_positive(d, i);
        assert(count_alive(d) == 1);
        assert(!is_alive(ps.last()));
        lemma_one_alive_only(d, i);
        assert forall|j: int| 0 <= j < ps.len() && j != i implies !is_alive(#[trigger] ps[j]) by {
            if j < ps.len() - 1 {
                assert(ps[j] == d[j]);
            }
        }
    }
}

proof fn lemma_count_positive(ps: Seq<PlayerGameData>, i: int)
    requires
        0 <= i < ps.len(),
        is_alive(ps[i]),
    ensures
        count_alive(ps) >= 1,
    decreases ps.len(),
{
    if i < ps.len() - 1 {
        assert(ps.drop_last()[i] == ps[i]);
        lemma_count_positive(ps.drop_last(), i);
    }
}

/// A decided win names one player: under `LastPlayerStanding` the only player
/// with lives left, under `UseAllLetters` the first player holding all 26
/// letters.
pub proof fn lemma_single_winner(players: Seq<PlayerGameData>, win: WinCondition, w: PlayerId)
    requires
        winner_of(players, win) == GameResult::Winner(w),
    ensures
        exists|i: int|
            0 <= i < players.len() && (#[trigger] players[i]).player_identity == w && (win
                == WinCondition::LastPlayerStanding ==> is_alive(players[i]) && forall|j: int|
                0 <= j < players.len() && j != i ==> !is_alive(#[trigger] players[j])) && (win
                == WinCondition::UseAllLetters ==> is_first_complete(players, i)),
{
    match win {
        WinCondition::LastPlayerStanding => {
            assert(count_alive(players) == 1);
            crate::play::lemma_count_one_has_alive(players);
            let i = choose|i: int| is_first_alive(players, i);
            lemma_one_alive_only(players, i);
            assert(players[i].player_identity == w);
        },
        WinCondition::UseAllLetters => {
            let i = choose|i: int| is_first_complete(players, i);
            assert(players[i].player_identity == w);
        },
    }
}

} // verus!

use crate::random::{index_of_draw, next_u32, pick_index};
use crate::text::{contains_string, covers_alphabet, letters_complete, strings_view};
use crate::trigram::{
    get_available_trigrams, get_example_words, lemma_available_excludes,
    lemma_available_same_members, TrigramMap,
};
use crate::types::{
    ClassicTurnLogic, GameResult, GameStateEvent, PastGuess, PlayerGameData, PlayerId,
    PlayerWins, PlayingState, ShouldScheduleTurnTimeout, TrigramExample, TurnLogic, WinCondition,
};
use spacetimedb::rand::rngs::StdRng;
use vstd::prelude::*;

verus! {

pub open spec fn is_alive(p: PlayerGameData) -> bool {
    p.lives > 0
}

pub open spec fn has_all_letters(p: PlayerGameData) -> bool {
    covers_alphabet(p.used_letters@, p.free_letters@)
}

/// Index `i` is the first of `ps` whose player is alive.
pub open spec fn is_first_alive(ps: Seq<PlayerGameData>, i: int) -> bool {
    0 <= i < ps.len() && is_alive(ps[i]) && forall|j: int| 0 <= j < i ==> !is_alive(#[trigger] ps[j])
}

/// Index `i` is the first of `ps` whose player holds every letter.
pub open spec fn is_first_complete(ps: Seq<PlayerGameData>, i: int) -> bool {
    0 <= i < ps.len() && has_all_letters(ps[i]) && forall|j: int|
        0 <= j < i ==> !has_all_letters(#[trigger] ps[j])
}

/// The number of players of `ps` with lives left.
pub open spec fn count_alive(ps: Seq<PlayerGameData>) -> nat
    decreases ps.len(),
{
    if ps.len() == 0 {
        0
    } else {
        count_alive(ps.drop_last()) + if is_alive(ps.last()) {
            1nat
        } else {
            0nat
        }
    }
}

/// The outcome of a match in this state: under `LastPlayerStanding` a draw when
/// nobody has lives left and a win for the one player who has; under
/// `UseAllLetters` a win for the first player who holds all 26 letters.
pub open spec fn winner_of(players: Seq<PlayerGameData>, win: WinCondition) -> GameResult {
    match win {
        WinCondition::LastPlayerStanding => {
            let n = count_alive(players);
            if n == 0 {
                GameResult::Draw
            } else if n == 1 {
                GameResult::Winner(players[choose|i: int| is_first_alive(players, i)].player_identity)
            } else {
                GameResult::Undecided
            }
        },
        WinCondition::UseAllLetters => {
            if exists|i: int| is_first_complete(players, i) {
                GameResult::Winner(
                    players[choose|i: int| is_first_complete(players, i)].player_identity,
                )
            } else {
                GameResult::Undecided
            }
        },
    }
}

pub open spec fn state_winner(state: PlayingState) -> GameResult {
    winner_of(state.players@, state.settings.win_condition)
}

pub proof fn lemma_first_alive_unique(ps: Seq<PlayerGameData>, i: int, j: int)
    requires
        is_first_alive(ps, i),
        is_first_alive(ps, j),
    ensures
        i == j,
{
    if i < j {
        assert(!is_alive(ps[i]));
    } else if j < i {
        assert(!is_alive(ps[j]));
    }
}

pub proof fn lemma_first_complete_unique(ps: Seq<PlayerGameData>, i: int, j: int)
    requires
        is_first_complete(ps, i),
        is_first_complete(ps, j),
    ensures
        i == j,
{
    if i < j {
        assert(!has_all_letters(ps[i]));
    } else if j < i {
        assert(!has_all_letters(ps[j]));
    }
}

/// Decides the outcome of the match in `state`.
pub fn has_winner(state: &PlayingState) -> (r: GameResult)
    ensures
        r == state_winner(*state),
{
    let ghost ps = state.players@;
    match state.settings.win_condition {
        WinCondition::LastPlayerStanding => {
            let mut count: usize = 0;
            let mut first: usize = 0;
            let mut i: usize = 0;
            while i < state.players.len()
                invariant
                    ps == state.players@,
                    i <= ps.len(),
                    count <= i,
                    count == count_alive(ps.subrange(0, i as int)),
                    count == 0 ==> forall|j: int| 0 <= j < i ==> !is_alive(#[trigger] ps[j]),
                    count > 0 ==> is_first_alive(ps, first as int),
                decreases ps.len() - i,
            {
                assert(ps.subrange(0, i as int + 1).drop_last() == ps.subrange(0, i as int));
                if state.players[i].lives > 0 {
                    if count == 0 {
                        first = i;
                    }
                    count = count + 1;
                }
                i = i + 1;
            }
            assert(ps.subrange(0, ps.len() as int) == ps);
            if count == 0 {
                GameResult::Draw
            } else if count == 1 {
                proof {
                    let c = choose|k: int| is_first_alive(ps, k);
                    lemma_first_alive_unique(ps, c, first as int);
                }
                GameResult::Winner(state.players[first].player_identity)
            } else {
                GameResult::Undecided
            }
        },
        WinCondition::UseAllLetters => {
            let mut i: usize = 0;
            while i < state.players.len()
                invariant
                    ps == state.players@,
                    state.settings.win_condition == WinCondition::UseAllLetters,
                    i <= ps.len(),
                    forall|j: int| 0 <= j < i ==> !has_all_letters(#[trigger] ps[j]),
                decreases ps.len() - i,
            {
                if letters_complete(&state.players[i].used_letters, &state.players[i].free_letters) {
                    proof {
                        assert(has_all_letters(ps[i as int]));
                        assert(is_first_complete(ps, i as int));
                        assert(exists|k: int| is_first_complete(ps, k));
                        let c = choose|k: int| is_first_complete(ps, k);
                        lemma_first_complete_unique(ps, c, i as int);
                    }
                    return GameResult::Winner(state.players[i].player_identity);
                }
                i = i + 1;
            }
            GameResult::Undecided
        },
    }
}

/// The words of all accepted guesses, player after player, each in order of play.
pub open spec fn guess_words(ps: Seq<PlayerGameData>) -> Seq<Seq<char>>
    decreases ps.len(),
{
    if ps.len() == 0 {
        Seq::empty()
    } else {
        guess_words(ps.drop_last()) + ps.last().past_guesses@.map_values(|g: PastGuess| g.word@)
    }
}

/// `s` with each string kept at its first occurrence only.
pub open spec fn dedup(s: Seq<Seq<char>>) -> Seq<Seq<char>>
    decreases s.len(),
{
    if s.len() == 0 {
        Seq::empty()
    } else {
        let d = dedup(s.drop_last());
        if d.contains(s.last()) {
            d
        } else {
            d.push(s.last())
        }
    }
}

/// The words that can no longer be played in this match.
pub open spec fn used_words(state: PlayingState) -> Seq<Seq<char>> {
    dedup(guess_words(state.players@))
}

/// Every word accepted so far in the match, each once.
pub fn get_used_words(state: &PlayingState) -> (r: Vec<String>)
    ensures
        strings_view(r@) == used_words(*state),
{
    let ghost ps = state.players@;
    let mut words: Vec<String> = Vec::new();
    let mut i: usize = 0;
    while i < state.players.len()
        invariant
            ps == state.players@,
            i <= ps.len(),
            strings_view(words@) == dedup(guess_words(ps.subrange(0, i as int))),
        decreases ps.len() - i,
    {
        let guesses = &state.players[i].past_guesses;
        let ghost prev = guess_words(ps.subrange(0, i as int));
        let ghost gw = guesses@.map_values(|g: PastGuess| g.word@);
        assert(ps.subrange(0, i as int + 1).drop_last() == ps.subrange(0, i as int));
        let mut k: usize = 0;
        while k < guesses.len()
            invariant
                ps == state.players@,
                i < ps.len(),
                guesses == &ps[i as int].past_guesses,
                gw == guesses@.map_values(|g: PastGuess| g.word@),
                k <= guesses@.len(),
                strings_view(words@) == dedup(prev + gw.subrange(0, k as int)),
            decreases guesses@.len() - k,
        {
            let ghost before = words@;
            assert((prev + gw.subrange(0, k as int + 1)).drop_last() == prev + gw.subrange(
                0,
                k as int,
            ));
            assert((prev + gw.subrange(0, k as int + 1)).last() == guesses@[k as int].word@);
            if !contains_string(words.as_slice(), &guesses[k].word) {
                words.push(guesses[k].word.clone());
                assert(strings_view(words@) == strings_view(before).push(guesses@[k as int].word@));
            }
            k = k + 1;
        }
        assert(gw.subrange(0, gw.len() as int) == gw);
        i = i + 1;
    }
    assert(ps.subrange(0, ps.len() as int) == ps);
    words
}

/// The trigrams of the history, most recent first.
pub open spec fn history_trigrams(exs: Seq<TrigramExample>) -> Seq<Seq<char>> {
    exs.map_values(|e: TrigramExample| e.trigram@)
}

/// The trigrams that may not be chosen again: those of the history, then the
/// current one where it is set and not among them.
pub open spec fn used_trigram_list(state: PlayingState) -> Seq<Seq<char>> {
    let h = history_trigrams(state.trigram_examples@);
    if state.current_trigram@.len() > 0 && !h.contains(state.current_trigram@) {
        h.push(state.current_trigram@)
    } else {
        h
    }
}

/// The trigrams played so far in the match, the current one included.
pub fn get_used_trigrams(state: &PlayingState) -> (r: Vec<String>)
    ensures
        strings_view(r@) == used_trigram_list(*state),
{
    let ghost h = history_trigrams(state.trigram_examples@);
    let mut trigrams: Vec<String> = Vec::new();
    let mut i: usize = 0;
    while i < state.trigram_examples.len()
        invariant
            h == history_trigrams(state.trigram_examples@),
            i <= state.trigram_examples@.len(),
            strings_view(trigrams@) == h.subrange(0, i as int),
        decreases state.trigram_examples@.len() - i,
    {
        trigrams.push(state.trigram_examples[i].trigram.clone());
        assert(h.subrange(0, i as int + 1) == h.subrange(0, i as int).push(h[i as int]));
        i = i + 1;
    }
    assert(h.subrange(0, h.len() as int) == h);
    if state.current_trigram.as_str().unicode_len() > 0 && !contains_string(
        trigrams.as_slice(),
        &state.current_trigram,
    ) {
        trigrams.push(state.current_trigram.clone());
    }
    trigrams
}

/// A player as they join a game: three lives and nothing else.
pub open spec fn is_fresh_player(p: PlayerGameData, id: PlayerId) -> bool {
    &&& p.player_identity == id
    &&& p.current_word@.len() == 0
    &&& p.lives == 3
    &&& p.used_letters@.len() == 0
    &&& p.free_letters@.len() == 0
    &&& p.past_guesses@.len() == 0
    &&& p.events@.len() == 0
}

pub fn create_initial_player_game_data(player_identity: PlayerId) -> (r: PlayerGameData)
    ensures
        is_fresh_player(r, player_identity),
{
    PlayerGameData {
        player_identity,
        current_word: String::new(),
        lives: 3,
        used_letters: Vec::new(),
        free_letters: Vec::new(),
        past_guesses: Vec::new(),
        events: Vec::new(),
    }
}

/// The guesses of `gs` made in round `round`, most recent first.
pub open spec fn round_guesses_newest_first(gs: Seq<PastGuess>, round: u32) -> Seq<PastGuess>
    decreases gs.len(),
{
    if gs.len() == 0 {
        Seq::empty()
    } else {
        let rest = round_guesses_newest_first(gs.drop_first(), round);
        if gs[0].round_number == round {
            rest.push(gs[0])
        } else {
            rest
        }
    }
}

/// The guesses of round `round`, player after player, each player's most recent first.
pub open spec fn round_guesses(ps: Seq<PlayerGameData>, round: u32) -> Seq<PastGuess>
    decreases ps.len(),
{
    if ps.len() == 0 {
        Seq::empty()
    } else {
        round_guesses(ps.drop_last(), round) + round_guesses_newest_first(
            ps.last().past_guesses@,
            round,
        )
    }
}

pub open spec fn same_guess(a: PastGuess, b: PastGuess) -> bool {
    a.word@ == b.word@ && a.round_number == b.round_number
}

/// `s` with each guess kept at its first occurrence only.
pub open spec fn dedup_guesses(s: Seq<PastGuess>) -> Seq<PastGuess>
    decreases s.len(),
{
    if s.len() == 0 {
        Seq::empty()
    } else {
        let d = dedup_guesses(s.drop_last());
        if exists|j: int| 0 <= j < d.len() && same_guess(d[j], s.last()) {
            d
        } else {
            d.push(s.last())
        }
    }
}

/// The words accepted on the current trigram, as the history records them.
pub open spec fn accepted_this_round(state: PlayingState) -> Seq<PastGuess> {
    dedup_guesses(round_guesses(state.players@, state.turn_number))
}

/// `b` is `a` with a different trigram history.
pub open spec fn same_but_history(a: PlayingState, b: PlayingState) -> bool {
    &&& b.players == a.players
    &&& b.turn_logic == a.turn_logic
    &&& b.turn_number == a.turn_number
    &&& b.settings == a.settings
    &&& b.current_trigram == a.current_trigram
    &&& b.winner == a.winner
}

/// `b` is `a` with `trigram` archived at the front of the history: with the
/// guesses accepted this round and example words of the dictionary.
pub open spec fn archived(a: PlayingState, b: PlayingState, trigram: Seq<char>, map: TrigramMap) -> bool {
    &&& same_but_history(a, b)
    &&& b.trigram_examples@.len() == a.trigram_examples@.len() + 1
    &&& b.trigram_examples@.drop_first() == a.trigram_examples@
    &&& b.trigram_examples@[0].trigram@ == trigram
    &&& b.trigram_examples@[0].valid_words@ == accepted_this_round(a)
    &&& map.is_example_list(trigram, b.trigram_examples@[0].example_words@)
}

fn contains_guess(v: &Vec<PastGuess>, g: &PastGuess) -> (r: bool)
    ensures
        r == exists|j: int| 0 <= j < v@.len() && same_guess(v@[j], *g),
{
    let mut i: usize = 0;
    while i < v.len()
        invariant
            i <= v@.len(),
            forall|j: int| 0 <= j < i ==> !same_guess(v@[j], *g),
        decreases v@.len() - i,
    {
        if v[i].word == g.word && v[i].round_number == g.round_number {
            assert(same_guess(v@[i as int], *g));
            return true;
        }
        i = i + 1;
    }
    false
}

/// Collects the guesses of the current round, each once.
fn collect_round_guesses(state: &PlayingState) -> (r: Vec<PastGuess>)
    ensures
        r@ == accepted_this_round(*state),
{
    let ghost ps = state.players@;
    let round = state.turn_number;
    let mut valid: Vec<PastGuess> = Vec::new();
    let mut i: usize = 0;
    while i < state.players.len()
        invariant
            ps == state.players@,
            round == state.turn_number,
            i <= ps.len(),
            valid@ == dedup_guesses(round_guesses(ps.subrange(0, i as int), round)),
        decreases ps.len() - i,
    {
        let guesses = &state.players[i].past_guesses;
        let ghost prev = round_guesses(ps.subrange(0, i as int), round);
        assert(ps.subrange(0, i as int + 1).drop_last() == ps.subrange(0, i as int));
        let mut k: usize = guesses.len();
        while k > 0
            invariant
                ps == state.players@,
                i < ps.len(),
                guesses == &ps[i as int].past_guesses,
                k <= guesses@.len(),
                valid@ == dedup_guesses(
                    prev + round_guesses_newest_first(
                        guesses@.subrange(k as int, guesses@.len() as int),
                        round,
                    ),
                ),
            decreases k,
        {
            k = k - 1;
            let ghost tail = guesses@.subrange(k as int, guesses@.len() as int);
            assert(tail.drop_first() == guesses@.subrange(k as int + 1, guesses@.len() as int));
            let ghost before = prev + round_guesses_newest_first(tail.drop_first(), round);
            let g = &guesses[k];
            if g.round_number == round {
                assert((before.push(*g)).drop_last() == before);
                assert(prev + round_guesses_newest_first(tail, round) == before.push(*g));
                if !contains_guess(&valid, g) {
                    valid.push(crate::player::copy_guess(g));
                }
            } else {
                assert(prev + round_guesses_newest_first(tail, round) == before);
            }
        }
        assert(guesses@.subrange(0, guesses@.len() as int) == guesses@);
        i = i + 1;
    }
    assert(ps.subrange(0, ps.len() as int) == ps);
    valid
}

/// Archives `trigram`, where it is set, at the front of the history with the
/// words accepted on it and up to three example words.
pub fn store_trigram_example(
    state: &mut PlayingState,
    trigram: &String,
    map: &TrigramMap,
    rng: &mut StdRng,
)
    requires
        map.wf(),
    ensures
        trigram@.len() == 0 ==> *final(state) == *old(state),
        trigram@.len() > 0 ==> archived(*old(state), *final(state), trigram@, *map),
{
    if trigram.as_str().unicode_len() > 0 {
        let valid_words = collect_round_guesses(state);
        let example = TrigramExample {
            trigram: trigram.clone(),
            example_words: get_example_words(map, trigram.as_str(), rng),
            valid_words,
        };
        state.trigram_examples.insert(0, example);
        assert(state.trigram_examples@.drop_first() == old(state).trigram_examples@);
    }
}

/// The trigram history holds no trigram twice and no empty one, and while the
/// match is undecided the current trigram is not in it.
pub open spec fn trigrams_fresh(state: PlayingState) -> bool {
    let h = history_trigrams(state.trigram_examples@);
    &&& h.no_duplicates()
    &&& forall|i: int| 0 <= i < h.len() ==> (#[trigger] h[i]).len() > 0
    &&& state.winner == GameResult::Undecided ==> !h.contains(state.current_trigram@)
}

/// A trigram can still be chosen in this state.
pub open spec fn can_pick_trigram(state: PlayingState, map: TrigramMap) -> bool {
    map.available_trigrams(used_trigram_list(state)).len() > 0
}

/// `b` is `a` with its current trigram archived and a new one chosen among those
/// of the dictionary that have not been played.
pub open spec fn trigram_advanced(a: PlayingState, b: PlayingState, map: TrigramMap) -> bool {
    &&& map.available_trigrams(used_trigram_list(a)).contains(b.current_trigram@)
    &&& if a.current_trigram@.len() == 0 {
        b == PlayingState { current_trigram: b.current_trigram, ..a }
    } else {
        archived(a, PlayingState { current_trigram: a.current_trigram, ..b }, a.current_trigram@, map)
    }
}

/// The trigram that `draw` selects among `available`.
pub fn choose_trigram(available: &Vec<String>, draw: u32) -> (r: String)
    requires
        available@.len() > 0,
    ensures
        r@ == available@[index_of_draw(draw, available@.len()) as int]@,
{
    let i = pick_index(draw, available.len());
    available[i].clone()
}

/// Archives the current trigram and picks at random one that has not been played
/// and has more than 200 words.
pub fn pick_random_trigram_and_update(state: &mut PlayingState, map: &TrigramMap, rng: &mut StdRng)
    requires
        map.wf(),
        can_pick_trigram(*old(state), *map),
    ensures
        trigram_advanced(*old(state), *final(state), *map),
        trigrams_fresh(*old(state)) && old(state).winner == GameResult::Undecided ==> trigrams_fresh(
            *final(state),
        ),
{
    let ghost a = *state;
    let current = state.current_trigram.clone();
    store_trigram_example(state, &current, map, rng);
    let ghost mid = *state;
    let used = get_used_trigrams(state);
    proof {
        let h = history_trigrams(a.trigram_examples@);
        let h2 = history_trigrams(mid.trigram_examples@);
        if current@.len() > 0 {
            assert(h2 == seq![current@] + h);
            assert(h2.contains(current@)) by {
                assert(h2[0] == current@);
            }
            let ua = used_trigram_list(a);
            assert forall|t: Seq<char>| ua.contains(t) == (h.contains(t) || t == current@) by {
                if !h.contains(current@) {
                    assert(ua == h.push(current@));
                    assert(ua[h.len() as int] == current@);
                    if ua.contains(t) && t != current@ {
                        let k = choose|k: int| 0 <= k < ua.len() && ua[k] == t;
                        assert(h[k] == t);
                    }
                    if h.contains(t) {
                        let k = choose|k: int| 0 <= k < h.len() && h[k] == t;
                        assert(ua[k] == t);
                    }
                }
            }
            assert forall|t: Seq<char>| h2.contains(t) == (h.contains(t) || t == current@) by {
                if h2.contains(t) && t != current@ {
                    let k = choose|k: int| 0 <= k < h2.len() && h2[k] == t;
                    assert(h[k - 1] == t);
                }
                if h.contains(t) {
                    let k = choose|k: int| 0 <= k < h.len() && h[k] == t;
                    assert(h2[k + 1] == t);
                }
            }
            assert(used_trigram_list(mid) == h2);
        }
        lemma_available_same_members(map.view_entries(), used_trigram_list(a), used_trigram_list(mid));
    }
    let available = get_available_trigrams(map, used.as_slice());
    let draw = next_u32(rng);
    state.current_trigram = choose_trigram(&available, draw);
    proof {
        let av = map.available_trigrams(used_trigram_list(a));
        let idx = index_of_draw(draw, av.len());
        assert(av[idx as int] == state.current_trigram@);
        assert(av.contains(state.current_trigram@));
        assert(*state == PlayingState { current_trigram: state.current_trigram, ..mid });
        assert(mid == PlayingState { current_trigram: a.current_trigram, ..*state });
        lemma_available_excludes(map.view_entries(), used_trigram_list(a), state.current_trigram@);
        if trigrams_fresh(a) && a.winner == GameResult::Undecided {
            let h = history_trigrams(a.trigram_examples@);
            let h2 = history_trigrams(state.trigram_examples@);
            let c = state.current_trigram@;
            if current@.len() > 0 {
                assert(h2 == seq![current@] + h);
                assert(!h.contains(c)) by {
                    if h.contains(c) {
                        let k = choose|k: int| 0 <= k < h.len() && h[k] == c;
                        assert(used_trigram_list(a)[k] == c);
                    }
                }
                assert(c != current@) by {
                    if !h.contains(current@) {
                        assert(used_trigram_list(a)[h.len() as int] == current@);
                    }
                }
                assert(h2.no_duplicates()) by {
                    assert forall|x: int, y: int| 0 <= x < y < h2.len() implies h2[x] != h2[y] by {
                        if x == 0 {
                            assert(h2[y] == h[y - 1]);
                        }
                    }
                }
                assert(!h2.contains(c)) by {
                    if h2.contains(c) {
                        let k = choose|k: int| 0 <= k < h2.len() && h2[k] == c;
                        if k > 0 {
                            assert(h[k - 1] == c);
                        }
                    }
                }
                assert forall|i: int| 0 <= i < h2.len() implies (#[trigger] h2[i]).len() > 0 by {
                    if i > 0 {
                        assert(h2[i] == h[i - 1]);
                    }
                }
            } else {
                assert(h2 == h);
                assert(!h.contains(c)) by {
                    if h.contains(c) {
                        let k = choose|k: int| 0 <= k < h.len() && h[k] == c;
                        assert(used_trigram_list(a)[k] == c);
                    }
                }
            }
        }
    }
}

/// `q` is `p` with other events.
pub open spec fn same_but_events(p: PlayerGameData, q: PlayerGameData) -> bool {
    &&& q.player_identity == p.player_identity
    &&& q.current_word == p.current_word
    &&& q.lives == p.lives
    &&& q.used_letters == p.used_letters
    &&& q.free_letters == p.free_letters
    &&& q.past_guesses == p.past_guesses
}

/// `b` is `a` with every player's events emptied.
pub open spec fn events_cleared(a: Seq<PlayerGameData>, b: Seq<PlayerGameData>) -> bool {
    &&& b.len() == a.len()
    &&& forall|i: int|
        0 <= i < a.len() ==> same_but_events(a[i], #[trigger] b[i]) && b[i].events@.len() == 0
}

pub(crate) fn clear_events(players: &mut Vec<PlayerGameData>)
    ensures
        events_cleared(old(players)@, final(players)@),
{
    let ghost a = players@;
    let mut i: usize = 0;
    while i < players.len()
        invariant
            i <= players@.len(),
            players@.len() == a.len(),
            forall|j: int|
                0 <= j < i ==> same_but_events(a[j], #[trigger] players@[j])
                    && players@[j].events@.len() == 0,
            forall|j: int| i <= j < a.len() ==> #[trigger] players@[j] == a[j],
        decreases a.len() - i,
    {
        players[i].events.clear();
        i = i + 1;
    }
}

/// Adds `e` to the events of player `i`.
pub(crate) fn push_event(players: &mut Vec<PlayerGameData>, i: usize, e: GameStateEvent)
    requires
        i < old(players)@.len(),
    ensures
        final(players)@.len() == old(players)@.len(),
        same_but_events(old(players)@[i as int], final(players)@[i as int]),
        final(players)@[i as int].events@ == old(players)@[i as int].events@.push(e),
        forall|j: int|
            0 <= j < old(players)@.len() && j != i ==> #[trigger] final(players)@[j] == old(
                players,
            )@[j],
{
    players[i].events.push(e);
}

/// The index of the player `k` places after `cur`, going round the table.
pub open spec fn seat_after(cur: int, k: int, n: int) -> int {
    (cur + k) % n
}

/// `k` is the smallest step after `cur` that lands on a player with lives left.
pub open spec fn is_next_alive_step(ps: Seq<PlayerGameData>, cur: int, k: int) -> bool {
    &&& 1 <= k <= ps.len()
    &&& is_alive(ps[seat_after(cur, k, ps.len() as int)])
    &&& forall|m: int| 1 <= m < k ==> !is_alive(#[trigger] ps[seat_after(cur, m, ps.len() as int)])
}

/// The player whose turn follows `cur`: the next one round the table with lives
/// left, or the very next one where nobody has lives left.
pub open spec fn next_turn(ps: Seq<PlayerGameData>, cur: int) -> int {
    if exists|k: int| is_next_alive_step(ps, cur, k) {
        seat_after(cur, choose|k: int| is_next_alive_step(ps, cur, k), ps.len() as int)
    } else {
        seat_after(cur, 1, ps.len() as int)
    }
}

proof fn lemma_next_alive_step_unique(ps: Seq<PlayerGameData>, cur: int, k1: int, k2: int)
    requires
        is_next_alive_step(ps, cur, k1),
        is_next_alive_step(ps, cur, k2),
    ensures
        k1 == k2,
{
    if k1 < k2 {
        assert(!is_alive(ps[seat_after(cur, k1, ps.len() as int)]));
    } else if k2 < k1 {
        assert(!is_alive(ps[seat_after(cur, k2, ps.len() as int)]));
    }
}

/// Finds the player whose turn follows `cur`.
pub fn next_turn_index(players: &Vec<PlayerGameData>, cur: usize) -> (r: usize)
    requires
        cur < players@.len(),
    ensures
        r == next_turn(players@, cur as int),
        r < players@.len(),
{
    let ghost ps = players@;
    let n = players.len();
    let mut k: usize = 0;
    let mut idx: usize = if cur + 1 == n {
        0
    } else {
        cur + 1
    };
    assert(idx == seat_after(cur as int, 1, n as int)) by (nonlinear_arith)
        requires
            idx == (if cur + 1 == n { 0 } else { cur + 1 }),
            cur < n,
    ;
    while k < n
        invariant
            ps == players@,
            n == ps.len(),
            cur < n,
            0 <= k <= n,
            idx < n,
            idx == seat_after(cur as int, k as int + 1, n as int),
            forall|m: int| 1 <= m <= k ==> !is_alive(#[trigger] ps[seat_after(cur as int, m, n as int)]),
        decreases n - k,
    {
        if players[idx].lives > 0 {
            proof {
                assert(is_next_alive_step(ps, cur as int, k as int + 1));
                let c = choose|c: int| is_next_alive_step(ps, cur as int, c);
                lemma_next_alive_step_unique(ps, cur as int, c, k as int + 1);
            }
            return idx;
        }
        let ghost old_idx = idx;
        idx = if idx + 1 == n {
            0
        } else {
            idx + 1
        };
        assert(idx == seat_after(cur as int, k as int + 2, n as int)) by {
            vstd::arithmetic::div_mod::lemma_add_mod_noop(cur as int + k as int + 1, 1, n as int);
            if n > 1 {
                vstd::arithmetic::div_mod::lemma_small_mod(1, n as nat);
            }
            if old_idx + 1 < n {
                vstd::arithmetic::div_mod::lemma_small_mod((old_idx + 1) as nat, n as nat);
            } else {
                vstd::arithmetic::div_mod::lemma_mod_self_0(n as int);
            }
        }
        k = k + 1;
    }
    proof {
        assert forall|c: int| !is_next_alive_step(ps, cur as int, c) by {
            if is_next_alive_step(ps, cur as int, c) {
                assert(!is_alive(ps[seat_after(cur as int, c, n as int)]));
            }
        }
    }
    let r = if cur + 1 == n {
        0
    } else {
        cur + 1
    };
    assert(r == seat_after(cur as int, 1, n as int)) by (nonlinear_arith)
        requires
            r == (if cur + 1 == n { 0 } else { cur + 1 }),
            cur < n,
    ;
    r
}

/// The event that tells player `p` how the match ended.
pub open spec fn result_event(p: PlayerGameData, r: GameResult) -> GameStateEvent {
    match r {
        GameResult::Winner(w) => if p.player_identity == w {
            GameStateEvent::IWin
        } else {
            GameStateEvent::ILose
        },
        _ => GameStateEvent::ILose,
    }
}

/// `b` is `a` with each player told the result `r`.
pub open spec fn results_announced(a: Seq<PlayerGameData>, b: Seq<PlayerGameData>, r: GameResult) -> bool {
    &&& b.len() == a.len()
    &&& forall|i: int|
        0 <= i < a.len() ==> same_but_events(a[i], #[trigger] b[i]) && b[i].events@
            == a[i].events@.push(result_event(a[i], r))
}

fn announce_result(players: &mut Vec<PlayerGameData>, r: GameResult)
    ensures
        results_announced(old(players)@, final(players)@, r),
{
    let ghost a = players@;
    let mut i: usize = 0;
    while i < players.len()
        invariant
            i <= players@.len(),
            players@.len() == a.len(),
            forall|j: int|
                0 <= j < i ==> same_but_events(a[j], #[trigger] players@[j]) && players@[j].events@
                    == a[j].events@.push(result_event(a[j], r)),
            forall|j: int| i <= j < a.len() ==> #[trigger] players@[j] == a[j],
        decreases a.len() - i,
    {
        let e = match r {
            GameResult::Winner(w) => if players[i].player_identity == w {
                GameStateEvent::IWin
            } else {
                GameStateEvent::ILose
            },
            _ => GameStateEvent::ILose,
        };
        players[i].events.push(e);
        i = i + 1;
    }
}

/// Entry `i` is the first of `ws` that counts the wins of `w`.
pub open spec fn is_first_entry(ws: Seq<PlayerWins>, i: int, w: PlayerId) -> bool {
    0 <= i < ws.len() && ws[i].player_identity == w && forall|j: int|
        0 <= j < i ==> (#[trigger] ws[j]).player_identity != w
}

/// `ws` with one more win for `w`.
pub open spec fn credit_win(ws: Seq<PlayerWins>, w: PlayerId) -> Seq<PlayerWins> {
    if exists|i: int| is_first_entry(ws, i, w) {
        let i = choose|i: int| is_first_entry(ws, i, w);
        ws.update(i, PlayerWins { player_identity: w, wins: (ws[i].wins + 1) as u32 })
    } else {
        ws.push(PlayerWins { player_identity: w, wins: 1 })
    }
}

/// No win count is at its largest value.
pub open spec fn wins_below_max(ws: Seq<PlayerWins>) -> bool {
    forall|i: int| 0 <= i < ws.len() ==> (#[trigger] ws[i]).wins < u32::MAX
}

fn add_win(wins: &mut Vec<PlayerWins>, w: PlayerId)
    requires
        wins_below_max(old(wins)@),
    ensures
        final(wins)@ == credit_win(old(wins)@, w),
{
    let mut i: usize = 0;
    while i < wins.len()
        invariant
            i <= wins@.len(),
            wins@ == old(wins)@,
            wins_below_max(wins@),
            forall|j: int| 0 <= j < i ==> (#[trigger] wins@[j]).player_identity != w,
        decreases wins@.len() - i,
    {
        if wins[i].player_identity == w {
            proof {
                assert(is_first_entry(wins@, i as int, w));
                let c = choose|c: int| is_first_entry(wins@, c, w);
                if c < i {
                    assert(wins@[c].player_identity != w);
                } else if i < c {
                    assert(wins@[i as int].player_identity != w);
                }
            }
            let n = wins[i].wins + 1;
            wins[i] = PlayerWins { player_identity: w, wins: n };
            return;
        }
        i = i + 1;
    }
    wins.push(PlayerWins { player_identity: w, wins: 1 });
}

/// `h` is the history of `a` with its current trigram archived, where it is set,
/// with the guesses accepted this round and example words.
pub open spec fn history_closed(a: PlayingState, h: Seq<TrigramExample>, map: TrigramMap) -> bool {
    if a.current_trigram@.len() == 0 {
        h == a.trigram_examples@
    } else {
        &&& h.len() == a.trigram_examples@.len() + 1
        &&& h.drop_first() == a.trigram_examples@
        &&& h[0].trigram@ == a.current_trigram@
        &&& h[0].valid_words@ == accepted_this_round(a)
        &&& map.is_example_list(a.current_trigram@, h[0].example_words@)
    }
}

/// `b` is `a` once the match ended with `r`: the result is set and announced,
/// and a winner has the final trigram archived and one more win counted.
pub open spec fn match_ended(
    a: PlayingState,
    b: PlayingState,
    wins_a: Seq<PlayerWins>,
    wins_b: Seq<PlayerWins>,
    r: GameResult,
    map: TrigramMap,
) -> bool {
    &&& b.winner == r
    &&& b.turn_logic == a.turn_logic
    &&& b.turn_number == a.turn_number
    &&& b.settings == a.settings
    &&& b.current_trigram == a.current_trigram
    &&& results_announced(a.players@, b.players@, r)
    &&& match r {
        GameResult::Winner(w) => history_closed(a, b.trigram_examples@, map) && wins_b == credit_win(
            wins_a,
            w,
        ),
        _ => b.trigram_examples == a.trigram_examples && wins_b == wins_a,
    }
}

/// Ends the match with `r`.
pub(crate) fn finish_match(
    state: &mut PlayingState,
    wins: &mut Vec<PlayerWins>,
    r: GameResult,
    map: &TrigramMap,
    rng: &mut StdRng,
)
    requires
        map.wf(),
        r != GameResult::Undecided,
        wins_below_max(old(wins)@),
    ensures
        match_ended(*old(state), *final(state), old(wins)@, final(wins)@, r, *map),
        playing_wf(*old(state)) && old(state).winner == GameResult::Undecided && r == state_winner(
            *old(state),
        ) ==> playing_wf(*final(state)),
{
    let ghost a = *state;
    match r {
        GameResult::Winner(w) => {
            let final_trigram = state.current_trigram.clone();
            store_trigram_example(state, &final_trigram, map, rng);
            add_win(wins, w);
        },
        _ => {},
    }
    state.winner = r;
    announce_result(&mut state.players, r);
    proof {
        if playing_wf(a) && a.winner == GameResult::Undecided && r == state_winner(a) {
            lemma_winner_same(a.players@, state.players@, a.settings.win_condition);
            let h = history_trigrams(a.trigram_examples@);
            let h2 = history_trigrams(state.trigram_examples@);
            if a.current_trigram@.len() > 0 && r is Winner {
                assert(h2 == seq![a.current_trigram@] + h);
                assert(h2.no_duplicates()) by {
                    assert forall|x: int, y: int| 0 <= x < y < h2.len() implies h2[x] != h2[y] by {
                        if x == 0 {
                            assert(h2[y] == h[y - 1]);
                        }
                    }
                }
                assert forall|i: int| 0 <= i < h2.len() implies (#[trigger] h2[i]).len() > 0 by {
                    if i > 0 {
                        assert(h2[i] == h[i - 1]);
                    }
                }
            } else {
                assert(h2 == h);
            }
        }
    }
}

/// `b` is `a` with the turn passed on: one more turn, and under classic turns the
/// next player round the table with lives left is told it is their turn.
pub open spec fn turn_passed(a: PlayingState, b: PlayingState) -> bool {
    &&& b.turn_number == a.turn_number + 1
    &&& b.settings == a.settings
    &&& b.current_trigram == a.current_trigram
    &&& b.trigram_examples == a.trigram_examples
    &&& b.winner == a.winner
    &&& match a.turn_logic {
        TurnLogic::Classic(c) => {
            let nx = next_turn(a.players@, c.current_turn_index as int);
            &&& b.turn_logic == TurnLogic::Classic(
                ClassicTurnLogic { current_turn_index: nx as u32, failed_players: c.failed_players },
            )
            &&& b.players@.len() == a.players@.len()
            &&& same_but_events(a.players@[nx], b.players@[nx])
            &&& b.players@[nx].events@ == a.players@[nx].events@.push(GameStateEvent::MyTurn)
            &&& forall|j: int|
                0 <= j < a.players@.len() && j != nx ==> #[trigger] b.players@[j] == a.players@[j]
        },
        TurnLogic::Simultaneous(_) => b.turn_logic == a.turn_logic && b.players == a.players,
    }
}

/// Well-formed match: the turn index points at a player, the players can be
/// indexed by a `u32`, and no trigram was played twice.
pub open spec fn playing_wf(state: PlayingState) -> bool {
    &&& state.players@.len() <= u32::MAX
    &&& match state.turn_logic {
        TurnLogic::Classic(c) => state.players@.len() > 0 ==> c.current_turn_index < state.players@.len(),
        TurnLogic::Simultaneous(_) => true,
    }
    &&& trigrams_fresh(state)
    &&& state.winner != GameResult::Undecided ==> state.winner == state_winner(state)
}

/// Two lists of players that agree on everything but events and words in
/// progress have the same outcome.
pub proof fn lemma_winner_same(a: Seq<PlayerGameData>, b: Seq<PlayerGameData>, win: WinCondition)
    requires
        a.len() == b.len(),
        forall|i: int|
            0 <= i < a.len() ==> (#[trigger] b[i]).lives == a[i].lives && b[i].player_identity
                == a[i].player_identity && b[i].used_letters == a[i].used_letters
                && b[i].free_letters == a[i].free_letters,
    ensures
        winner_of(a, win) == winner_of(b, win),
{
    assert(count_alive(a) == count_alive(b)) by {
        lemma_count_alive_same(a, b);
    }
    assert forall|j: int| 0 <= j < a.len() implies is_alive(#[trigger] a[j]) == is_alive(b[j])
        && has_all_letters(a[j]) == has_all_letters(b[j]) by {
        assert(b[j].lives == a[j].lives);
    }
    assert forall|i: int| is_first_alive(a, i) == is_first_alive(b, i) by {
        if is_first_alive(a, i) {
            assert forall|j: int| 0 <= j < i implies !is_alive(#[trigger] b[j]) by {
                assert(!is_alive(a[j]));
            }
        }
        if is_first_alive(b, i) {
            assert forall|j: int| 0 <= j < i implies !is_alive(#[trigger] a[j]) by {
                assert(!is_alive(b[j]));
            }
        }
    }
    assert forall|i: int| is_first_complete(a, i) == is_first_complete(b, i) by {
        if is_first_complete(a, i) {
            assert forall|j: int| 0 <= j < i implies !has_all_letters(#[trigger] b[j]) by {
                assert(!has_all_letters(a[j]));
            }
        }
        if is_first_complete(b, i) {
            assert forall|j: int| 0 <= j < i implies !has_all_letters(#[trigger] a[j]) by {
                assert(!has_all_letters(b[j]));
            }
        }
    }
    if exists|i: int| is_first_alive(a, i) {
        let i = choose|i: int| is_first_alive(a, i);
        let j = choose|j: int| is_first_alive(b, j);
        lemma_first_alive_unique(b, i, j);
    }
    if exists|i: int| is_first_complete(a, i) {
        let i = choose|i: int| is_first_complete(a, i);
        let j = choose|j: int| is_first_complete(b, j);
        lemma_first_complete_unique(b, i, j);
    }
    if count_alive(a) == 1 {
        lemma_count_one_has_alive(a);
    }
}

pub proof fn lemma_count_one_has_alive(a: Seq<PlayerGameData>)
    requires
        count_alive(a) > 0,
    ensures
        exists|i: int| is_first_alive(a, i),
    decreases a.len(),
{
    if count_alive(a.drop_last()) > 0 {
        lemma_count_one_has_alive(a.drop_last());
        let i = choose|i: int| is_first_alive(a.drop_last(), i);
        assert forall|j: int| 0 <= j < i implies !is_alive(#[trigger] a[j]) by {
            assert(a[j] == a.drop_last()[j]);
        }
        assert(is_first_alive(a, i));
    } else {
        lemma_count_zero_none_alive(a.drop_last());
        let i = a.len() - 1;
        assert forall|j: int| 0 <= j < i implies !is_alive(#[trigger] a[j]) by {
            assert(a[j] == a.drop_last()[j]);
        }
        assert(is_first_alive(a, i));
    }
}

pub proof fn lemma_count_zero_none_alive(a: Seq<PlayerGameData>)
    requires
        count_alive(a) == 0,
    ensures
        forall|j: int| 0 <= j < a.len() ==> !is_alive(#[trigger] a[j]),
    decreases a.len(),
{
    if a.len() > 0 {
        lemma_count_zero_none_alive(a.drop_last());
        assert forall|j: int| 0 <= j < a.len() implies !is_alive(#[trigger] a[j]) by {
            if j < a.len() - 1 {
                assert(a[j] == a.drop_last()[j]);
            }
        }
    }
}

proof fn lemma_count_alive_same(a: Seq<PlayerGameData>, b: Seq<PlayerGameData>)
    requires
        a.len() == b.len(),
        forall|i: int| 0 <= i < a.len() ==> (#[trigger] b[i]).lives == a[i].lives,
    ensures
        count_alive(a) == count_alive(b),
    decreases a.len(),
{
    if a.len() > 0 {
        lemma_count_alive_same(a.drop_last(), b.drop_last());
    }
}

/// Decides how a turn ends: on to the next turn while the match is undecided,
/// else the match ends with its result.
pub(crate) fn end_turn_playing(
    state: &mut PlayingState,
    wins: &mut Vec<PlayerWins>,
    map: &TrigramMap,
    rng: &mut StdRng,
) -> (r: ShouldScheduleTurnTimeout)
    requires
        map.wf(),
        playing_wf(*old(state)),
        old(state).players@.len() > 0,
        old(state).turn_number < u32::MAX,
        old(state).winner == GameResult::Undecided,
        wins_below_max(old(wins)@),
    ensures
        playing_wf(*final(state)),
        ({
            let a = *old(state);
            let b = *final(state);
            let w = state_winner(a);
            if w == GameResult::Undecided {
                &&& turn_passed(a, b)
                &&& final(wins)@ == old(wins)@
                &&& r == ShouldScheduleTurnTimeout::ScheduleTurnTimeout
            } else {
                &&& match_ended(a, b, old(wins)@, final(wins)@, w, *map)
                &&& r == ShouldScheduleTurnTimeout::DoNotScheduleTurnTimeout
            }
        }),
{
    let result = has_winner(state);
    match result {
        GameResult::Undecided => {
            match &mut state.turn_logic {
                TurnLogic::Classic(classic) => {
                    let next = next_turn_index(&state.players, classic.current_turn_index as usize);
                    push_event(&mut state.players, next, GameStateEvent::MyTurn);
                    classic.current_turn_index = next as u32;
                },
                TurnLogic::Simultaneous(_) => {},
            }
            state.turn_number = state.turn_number + 1;
            ShouldScheduleTurnTimeout::ScheduleTurnTimeout
        },
        _ => {
            finish_match(state, wins, result, map, rng);
            ShouldScheduleTurnTimeout::DoNotScheduleTurnTimeout
        },
    }
}

} // verus!

use crate::random::pick_index;
use crate::text::{
    add_new, add_word_letters, covers_letters, letters_complete, letters_missing,
    missing_letters, strings_view, word_letters,
};
use crate::types::{
    FreeLetterAwardEvent, GameStateEvent, PastGuess, PlayerGameData, WinCondition,
};
use vstd::prelude::*;

verus! {

/// An event as plain values.
pub enum EventView {
    InvalidGuess { word: Seq<char>, reason: Seq<char> },
    TimeUp,
    MyTurn,
    IWin,
    ILose,
    CorrectGuess,
    LifeEarned,
    FreeLetterAward { letter: Seq<char> },
}

pub open spec fn event_view(e: GameStateEvent) -> EventView {
    match e {
        GameStateEvent::InvalidGuess(g) => EventView::InvalidGuess { word: g.word@, reason: g.reason@ },
        GameStateEvent::TimeUp => EventView::TimeUp,
        GameStateEvent::MyTurn => EventView::MyTurn,
        GameStateEvent::IWin => EventView::IWin,
        GameStateEvent::ILose => EventView::ILose,
        GameStateEvent::CorrectGuess => EventView::CorrectGuess,
        GameStateEvent::LifeEarned => EventView::LifeEarned,
        GameStateEvent::FreeLetterAward(a) => EventView::FreeLetterAward { letter: a.letter@ },
    }
}

pub open spec fn events_view(es: Seq<GameStateEvent>) -> Seq<EventView> {
    es.map_values(|e: GameStateEvent| event_view(e))
}

/// The letters a player holds after playing `word`.
pub open spec fn letters_after(p: PlayerGameData, word: Seq<char>) -> Seq<Seq<char>> {
    add_new(strings_view(p.used_letters@), word_letters(word))
}

/// The letters that could be awarded for free after `word`: those of the
/// alphabet the player holds neither as used nor as free letters.
pub open spec fn free_letter_candidates(p: PlayerGameData, word: Seq<char>) -> Seq<Seq<char>> {
    missing_letters(letters_after(p, word), strings_view(p.free_letters@), 26)
}

/// A word longer than ten characters earns a free letter, where one is left.
pub open spec fn earns_free_letter(p: PlayerGameData, word: Seq<char>) -> bool {
    word.len() > 10 && free_letter_candidates(p, word).len() > 0
}

/// `q` is `p` after `word` was accepted in round `round`, where `draw` chose the
/// free letter: the guess is recorded, its letters are collected, a word longer
/// than ten characters earns one letter the player lacks, and under
/// `LastPlayerStanding` holding all 26 letters trades them for a life.
pub open spec fn accepted_word_applied(
    p: PlayerGameData,
    q: PlayerGameData,
    word: Seq<char>,
    round: u32,
    win: WinCondition,
    draw: u32,
) -> bool {
    let used1 = letters_after(p, word);
    let cands = free_letter_candidates(p, word);
    let awarded = earns_free_letter(p, word);
    let letter = cands[crate::random::index_of_draw(draw, cands.len()) as int];
    let free1 = if awarded {
        strings_view(p.free_letters@).push(letter)
    } else {
        strings_view(p.free_letters@)
    };
    let ev1 = events_view(p.events@).push(EventView::CorrectGuess);
    let ev2 = if awarded {
        ev1.push(EventView::FreeLetterAward { letter })
    } else {
        ev1
    };
    let bonus = win == WinCondition::LastPlayerStanding && covers_letters(used1, free1);
    &&& q.player_identity == p.player_identity
    &&& q.current_word@.len() == 0
    &&& q.past_guesses@.len() == p.past_guesses@.len() + 1
    &&& q.past_guesses@.drop_last() == p.past_guesses@
    &&& q.past_guesses@.last().word@ == word
    &&& q.past_guesses@.last().round_number == round
    &&& q.lives == if bonus {
        p.lives + 1
    } else {
        p.lives as int
    }
    &&& strings_view(q.used_letters@) == if bonus {
        Seq::empty()
    } else {
        used1
    }
    &&& strings_view(q.free_letters@) == if bonus {
        Seq::empty()
    } else {
        free1
    }
    &&& events_view(q.events@) == if bonus {
        ev2.push(EventView::LifeEarned)
    } else {
        ev2
    }
}

/// Records `word` as accepted in round `round` and collects its letters.
pub fn record_accepted_word(p: &mut PlayerGameData, word: &String, round: u32)
    ensures
        final(p).player_identity == old(p).player_identity,
        final(p).current_word == old(p).current_word,
        final(p).lives == old(p).lives,
        final(p).free_letters == old(p).free_letters,
        final(p).past_guesses@ == old(p).past_guesses@.push(PastGuess { word: *word, round_number: round }),
        strings_view(final(p).used_letters@) == letters_after(*old(p), word@),
        events_view(final(p).events@) == events_view(old(p).events@).push(EventView::CorrectGuess),
{
    p.events.push(GameStateEvent::CorrectGuess);
    p.past_guesses.push(PastGuess { word: word.clone(), round_number: round });
    add_word_letters(&mut p.used_letters, word);
    assert(events_view(p.events@) == events_view(old(p).events@).push(EventView::CorrectGuess));
}

/// Gives the player the candidate that `draw` selects, and tells them.
pub fn award_free_letter(p: &mut PlayerGameData, candidates: &Vec<String>, draw: u32)
    requires
        candidates@.len() > 0,
    ensures
        ({
            let letter = candidates@[crate::random::index_of_draw(draw, candidates@.len()) as int]@;
            &&& strings_view(final(p).free_letters@) == strings_view(old(p).free_letters@).push(letter)
            &&& events_view(final(p).events@) == events_view(old(p).events@).push(
                EventView::FreeLetterAward { letter },
            )
        }),
        final(p).player_identity == old(p).player_identity,
        final(p).current_word == old(p).current_word,
        final(p).lives == old(p).lives,
        final(p).used_letters == old(p).used_letters,
        final(p).past_guesses == old(p).past_guesses,
{
    let i = pick_index(draw, candidates.len());
    let letter = candidates[i].clone();
    p.free_letters.push(letter.clone());
    p.events.push(GameStateEvent::FreeLetterAward(FreeLetterAwardEvent { letter }));
    proof {
        let l = candidates@[i as int]@;
        assert(strings_view(p.free_letters@) == strings_view(old(p).free_letters@).push(l));
        assert(events_view(p.events@) == events_view(old(p).events@).push(
            EventView::FreeLetterAward { letter: l },
        ));
    }
}

/// Under `LastPlayerStanding`, a player who holds all 26 letters gives them up
/// for one more life.
pub fn grant_life_if_complete(p: &mut PlayerGameData, win: WinCondition)
    requires
        old(p).lives < i32::MAX,
    ensures
        ({
            let bonus = win == WinCondition::LastPlayerStanding && covers_letters(
                strings_view(old(p).used_letters@),
                strings_view(old(p).free_letters@),
            );
            &&& final(p).lives == if bonus {
                old(p).lives + 1
            } else {
                old(p).lives as int
            }
            &&& strings_view(final(p).used_letters@) == if bonus {
                Seq::empty()
            } else {
                strings_view(old(p).used_letters@)
            }
            &&& strings_view(final(p).free_letters@) == if bonus {
                Seq::empty()
            } else {
                strings_view(old(p).free_letters@)
            }
            &&& events_view(final(p).events@) == if bonus {
                events_view(old(p).events@).push(EventView::LifeEarned)
            } else {
                events_view(old(p).events@)
            }
        }),
        final(p).player_identity == old(p).player_identity,
        final(p).current_word == old(p).current_word,
        final(p).past_guesses == old(p).past_guesses,
{
    match win {
        WinCondition::LastPlayerStanding => {
            if letters_complete(&p.used_letters, &p.free_letters) {
                p.lives = p.lives + 1;
                p.used_letters.clear();
                p.free_letters.clear();
                p.events.push(GameStateEvent::LifeEarned);
                assert(strings_view(p.used_letters@) == Seq::<Seq<char>>::empty());
                assert(strings_view(p.free_letters@) == Seq::<Seq<char>>::empty());
                assert(events_view(p.events@) == events_view(old(p).events@).push(EventView::LifeEarned));
            }
        },
        WinCondition::UseAllLetters => {},
    }
}

/// The guesses of `gs` from rounds other than `round`, in order.
pub open spec fn without_round(gs: Seq<PastGuess>, round: u32) -> Seq<PastGuess>
    decreases gs.len(),
{
    if gs.len() == 0 {
        Seq::empty()
    } else if gs.last().round_number == round {
        without_round(gs.drop_last(), round)
    } else {
        without_round(gs.drop_last(), round).push(gs.last())
    }
}

/// A life lost, never going below zero.
pub open spec fn life_lost(lives: i32) -> i32 {
    if lives > 0 {
        (lives - 1) as i32
    } else {
        0
    }
}

/// `q` is `p` after running out of time in round `round` on their own turn: the
/// word in progress and the guesses of that round are dropped, and a life is
/// lost, never going below zero.
pub open spec fn turn_timed_out(p: PlayerGameData, q: PlayerGameData, round: u32) -> bool {
    &&& q.player_identity == p.player_identity
    &&& q.current_word@.len() == 0
    &&& q.lives == life_lost(p.lives)
    &&& q.used_letters == p.used_letters
    &&& q.free_letters == p.free_letters
    &&& q.past_guesses@ == without_round(p.past_guesses@, round)
    &&& events_view(q.events@) == events_view(p.events@).push(EventView::TimeUp)
}

/// A copy of a guess.
pub(crate) fn copy_guess(g: &PastGuess) -> (r: PastGuess)
    ensures
        r == *g,
{
    PastGuess { word: g.word.clone(), round_number: g.round_number }
}

/// Applies a timeout on the player's own turn.
pub fn time_out_turn(p: &mut PlayerGameData, round: u32)
    ensures
        turn_timed_out(*old(p), *final(p), round),
{
    p.current_word = String::new();
    p.events.push(GameStateEvent::TimeUp);
    p.lives = if p.lives > 0 {
        p.lives - 1
    } else {
        0
    };
    let ghost gs = p.past_guesses@;
    let mut kept: Vec<PastGuess> = Vec::new();
    let mut i: usize = 0;
    while i < p.past_guesses.len()
        invariant
            gs == p.past_guesses@,
            i <= gs.len(),
            kept@ == without_round(gs.subrange(0, i as int), round),
        decreases gs.len() - i,
    {
        assert(gs.subrange(0, i as int + 1).drop_last() == gs.subrange(0, i as int));
        if p.past_guesses[i].round_number != round {
            kept.push(copy_guess(&p.past_guesses[i]));
        }
        i = i + 1;
    }
    assert(gs.subrange(0, gs.len() as int) == gs);
    p.past_guesses = kept;
    assert(events_view(p.events@) == events_view(old(p).events@).push(EventView::TimeUp));
}

/// Whether the player has a guess recorded in round `round`.
pub open spec fn played_in_round(p: PlayerGameData, round: u32) -> bool {
    exists|i: int| 0 <= i < p.past_guesses@.len() && (#[trigger] p.past_guesses@[i]).round_number == round
}

/// `q` is `p` when a simultaneous round `round` closes: the word in progress is
/// dropped, and a player who played no word that round loses a life and is told so.
pub open spec fn round_closed(p: PlayerGameData, q: PlayerGameData, round: u32) -> bool {
    &&& q.player_identity == p.player_identity
    &&& q.current_word@.len() == 0
    &&& q.used_letters == p.used_letters
    &&& q.free_letters == p.free_letters
    &&& q.past_guesses == p.past_guesses
    &&& if played_in_round(p, round) {
        q.lives == p.lives && q.events == p.events
    } else {
        q.lives == life_lost(p.lives) && events_view(q.events@) == events_view(p.events@).push(
            EventView::TimeUp,
        )
    }
}

/// Closes a simultaneous round for one player.
pub fn close_round(p: &mut PlayerGameData, round: u32)
    ensures
        round_closed(*old(p), *final(p), round),
{
    p.current_word = String::new();
    let mut submitted = false;
    let mut i: usize = 0;
    while i < p.past_guesses.len()
        invariant
            i <= p.past_guesses@.len(),
            submitted == exists|j: int| 0 <= j < i && (#[trigger] p.past_guesses@[j]).round_number == round,
        decreases p.past_guesses@.len() - i,
    {
        if p.past_guesses[i].round_number == round {
            submitted = true;
        }
        i = i + 1;
    }
    if !submitted {
        p.lives = if p.lives > 0 {
            p.lives - 1
        } else {
            0
        };
        p.events.push(GameStateEvent::TimeUp);
        assert(events_view(p.events@) == events_view(old(p).events@).push(EventView::TimeUp));
    }
}

/// Applies an accepted word: records it, collects its letters, awards a free
/// letter for a long word with a number drawn by `draw_for_letter`, and grants a
/// life for a full alphabet under `LastPlayerStanding`.
pub(crate) fn apply_accepted_word(
    p: &mut PlayerGameData,
    word: &String,
    round: u32,
    win: WinCondition,
    rng: &mut spacetimedb::rand::rngs::StdRng,
) -> (draw: Ghost<u32>)
    requires
        old(p).lives < i32::MAX,
    ensures
        accepted_word_applied(*old(p), *final(p), word@, round, win, draw@),
{
    record_accepted_word(p, word, round);
    assert(p.past_guesses@.drop_last() == old(p).past_guesses@);
    let candidates = letters_missing(&p.used_letters, &p.free_letters);
    let mut chosen: Ghost<u32> = Ghost(0);
    if crate::text::char_count(word) > 10 && candidates.len() > 0 {
        let draw = crate::random::next_u32(rng);
        chosen = Ghost(draw);
        award_free_letter(p, &candidates, draw);
    }
    p.current_word = String::new();
    grant_life_if_complete(p, win);
    chosen
}

} // verus!

use vstd::prelude::*;

verus! {

/// A player's identity: 256 bits, as two halves.
#[derive(Clone, Copy, Debug, PartialEq, Eq, Structural, Hash)]
pub struct PlayerId {
    pub hi: u128,
    pub lo: u128,
}

/// A word accepted from a player, with the round it was played in.
#[derive(Clone, Debug)]
pub struct PastGuess {
    pub word: String,
    pub round_number: u32,
}

/// One player's part of a match.
#[derive(Clone, Debug)]
pub struct PlayerGameData {
    pub player_identity: PlayerId,
    /// The word the player is typing, shown to the others.
    pub current_word: String,
    pub lives: i32,
    /// Letters used in accepted words.
    pub used_letters: Vec<String>,
    /// Letters awarded for long words.
    pub free_letters: Vec<String>,
    /// Accepted words, most recent last.
    pub past_guesses: Vec<PastGuess>,
    /// What happened to this player in the last move.
    pub events: Vec<GameStateEvent>,
}

/// Turns taken one player at a time.
#[derive(Clone, Debug)]
pub struct ClassicTurnLogic {
    /// Index of the player whose turn it is.
    pub current_turn_index: u32,
    /// Players who ran out of time on the current trigram.
    pub failed_players: Vec<PlayerId>,
}

/// All players play every round.
#[derive(Clone, Copy, Debug, PartialEq, Eq, Structural)]
pub struct SimultaneousTurnLogic {}

#[derive(Clone, Copy, Debug, PartialEq, Eq, Structural)]
pub enum TurnLogicMode {
    Classic,
    Simultaneous,
}

#[derive(Clone, Debug)]
pub enum TurnLogic {
    Classic(ClassicTurnLogic),
    Simultaneous(SimultaneousTurnLogic),
}

/// A trigram that was played, with example words and the words accepted on it.
#[derive(Clone, Debug)]
pub struct TrigramExample {
    pub trigram: String,
    pub example_words: Vec<String>,
    /// Words accepted on this trigram (most recent last).
    pub valid_words: Vec<PastGuess>,
}

/// How many matches a player has won in this game.
#[derive(Clone, Copy, Debug, PartialEq, Eq, Structural)]
pub struct PlayerWins {
    pub player_identity: PlayerId,
    pub wins: u32,
}

#[derive(Clone, Copy, Debug, PartialEq, Eq, Structural)]
pub enum GameResult {
    Winner(PlayerId),
    Draw,
    Undecided,
}

#[derive(Clone, Debug)]
pub enum GameState {
    Settings(SettingsState),
    Countdown(CountdownState),
    Playing(PlayingState),
}

/// A match in progress.
#[derive(Clone, Debug)]
pub struct PlayingState {
    pub players: Vec<PlayerGameData>,
    pub turn_logic: TurnLogic,
    /// Number of turns that have ended; the key that ties a turn timer to its turn.
    pub turn_number: u32,
    /// The settings the match was started with, without players.
    pub settings: SettingsState,
    /// The trigram that every word must contain; empty before the first pick.
    pub current_trigram: String,
    /// Trigrams played before the current one, most recent first.
    pub trigram_examples: Vec<TrigramExample>,
    pub winner: GameResult,
}

#[derive(Clone, Copy, Debug, PartialEq, Eq, Structural)]
pub enum WinCondition {
    LastPlayerStanding,
    UseAllLetters,
}

/// The lobby, before a match starts.
#[derive(Clone, Debug)]
pub struct SettingsState {
    pub turn_timeout_seconds: u32,
    pub players: Vec<PlayerGameData>,
    pub win_condition: WinCondition,
    pub turn_logic_mode: TurnLogicMode,
}

/// The seconds before a match starts.
#[derive(Clone, Debug)]
pub struct CountdownState {
    pub countdown_seconds: u32,
    pub settings: SettingsState,
}

#[derive(Clone, Debug)]
pub struct InvalidGuessEvent {
    pub word: String,
    pub reason: String,
}

#[derive(Clone, Debug)]
pub struct FreeLetterAwardEvent {
    pub letter: String,
}

#[derive(Clone, Debug)]
pub enum GameStateEvent {
    InvalidGuess(InvalidGuessEvent),
    TimeUp,
    MyTurn,
    IWin,
    ILose,
    CorrectGuess,
    LifeEarned,
    FreeLetterAward(FreeLetterAwardEvent),
}

/// The stored record of one game: its state and the wins of its players.
#[derive(Clone, Debug)]
pub struct GameStateTable {
    pub game_id: u32,
    pub state: GameState,
    /// Time of the last change, in microseconds since the Unix epoch.
    pub updated_at: i64,
    pub player_wins: Vec<PlayerWins>,
}

#[derive(Clone, Debug)]
pub struct GuessWordMove {
    pub player_identity: PlayerId,
    pub word: String,
}

/// What advances a match: a turn's timer running out, or a word from a player.
#[derive(Clone, Debug)]
pub enum Move {
    TimeUp,
    GuessWord(GuessWordMove),
}

/// Whether a new turn timer must be armed after a move.
#[derive(Clone, Copy, Debug, PartialEq, Eq, Structural)]
pub enum ShouldScheduleTurnTimeout {
    ScheduleTurnTimeout,
    DoNotScheduleTurnTimeout,
}

} // verus!

use vstd::prelude::*;

verus! {

/// Limits that a lobby can be configured with.
#[derive(Debug, Clone)]
pub struct GameConfig {
    pub min_players: u32,
    pub max_players: u32,
    pub round_time_seconds: u32,
}

impl Default for GameConfig {
    fn default() -> (r: Self)
        ensures
            r.min_players == 2,
            r.max_players == 8,
            r.round_time_seconds == 60,
    {
        GameConfig { min_players: 2, max_players: 8, round_time_seconds: 60 }
    }
}

} // verus!

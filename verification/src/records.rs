//! Plain data records of the fantasy-sports API surface that the client
//! shell passes around. The shell serializes them; here they are bare
//! values.

use vstd::prelude::*;

verus! {

/// One game offering: a sport in a season.
#[derive(Clone, Debug)]
pub struct Game {
    /// Stable identifier of the game, such as a code and season joined.
    pub game_key: String,
    /// Human-readable name of the game.
    pub name: String,
    /// Short sport code.
    pub code: String,
    /// Season year.
    pub season: i32,
}

/// One league a user belongs to within a game.
#[derive(Clone, Debug)]
pub struct League {
    /// Stable identifier of the league.
    pub league_key: String,
    /// Human-readable name of the league.
    pub name: String,
    /// Number of teams in the league.
    pub num_teams: i32,
    /// Week the league currently plays.
    pub current_week: i32,
}

} // verus!

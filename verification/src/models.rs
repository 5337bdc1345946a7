//! Stored records and request payloads.

use vstd::prelude::*;

verus! {

/// A team, owned by one user.
#[derive(Debug, Clone)]
pub struct Team {
    pub id: i64,
    pub user_id: i64,
    pub name: String,
    pub head_coach: String,
    pub assistant_coaches: String,
    pub logo_path: Option<String>,
    pub created_at: String,
}

/// A player on a team's roster.
#[derive(Debug, Clone)]
pub struct Player {
    pub id: i64,
    pub team_id: i64,
    pub number: String,
    pub name: String,
    pub default_position: String,
    pub sort_order: i64,
}

/// A saved lineup of a team.
#[derive(Debug, Clone)]
pub struct Lineup {
    pub id: i64,
    pub team_id: i64,
    pub name: String,
    pub opponent: String,
    pub game_date: String,
    pub location: String,
    pub home_away: String,
    pub use_dh: i64,
    pub use_eh: i64,
    pub dh_mode: String,
    pub created_at: String,
}

/// One row of a lineup: a batting spot, an extra hitter (`EH`) or a
/// defence-only spot (`DEF`).
#[derive(Debug, Clone)]
pub struct LineupSpot {
    pub id: i64,
    pub lineup_id: i64,
    pub batting_order: i64,
    pub slot_kind: String,
    pub player_id: Option<i64>,
    pub position: String,
    pub is_dh: i64,
}

/// Sign-up and login request.
#[derive(Debug, Clone)]
pub struct AuthPayload {
    pub email: String,
    pub password: String,
}

/// Team create and update request.
#[derive(Debug, Clone)]
pub struct TeamPayload {
    pub name: String,
    pub head_coach: String,
    pub assistant_coaches: String,
}

/// Player create and update request.
#[derive(Debug, Clone)]
pub struct PlayerPayload {
    pub number: String,
    pub name: String,
    pub default_position: String,
}

/// One spot of a lineup request.
#[derive(Debug, Clone)]
pub struct SpotPayload {
    pub batting_order: i64,
    pub slot_kind: String,
    pub player_id: Option<i64>,
    pub position: String,
    pub is_dh: bool,
}

/// Lineup create and update request.
#[derive(Debug, Clone)]
pub struct LineupPayload {
    pub name: String,
    pub opponent: String,
    pub game_date: String,
    pub location: String,
    pub home_away: String,
    pub use_dh: bool,
    pub use_eh: bool,
    pub dh_mode: String,
    pub spots: Vec<SpotPayload>,
}

/// A lineup with its spots.
#[derive(Debug, Clone)]
pub struct LineupDetail {
    pub lineup: Lineup,
    pub spots: Vec<LineupSpot>,
}

/// Slot kind of a spot whose request leaves it out.
pub fn default_slot_kind() -> (s: String)
    ensures
        s@ == "BAT"@,
{
    String::from_str("BAT")
}

/// DH mode of a lineup whose request leaves it out.
pub fn default_dh_mode() -> (s: String)
    ensures
        s@ == "straight9"@,
{
    String::from_str("straight9")
}

} // verus!

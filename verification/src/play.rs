//! The play-by-play input record and the role-column registry.

use vstd::prelude::*;

use crate::MAX_PLAY_YARDS;

verus! {

/// One play-by-play event. Field names follow the input table's columns:
/// nine role columns each pair a player id with a display name, and the
/// outcome columns carry the play's yardage, score and turnover results.
/// The string-valued result columns of the source table are held as the
/// conditions the pipeline reads from them (`two_point_conv_result =
/// 'success'`, `extra_point_result = 'good'`, `field_goal_result = 'made'`,
/// `play_type = 'kickoff'`).
#[derive(Clone, Debug)]
pub struct PlayRecord {
    pub game_id: String,
    pub week: u32,
    /// The team in possession of the ball; the scoring team for every
    /// offensive category.
    pub posteam: String,

    pub passer_player_id: Option<String>,
    pub passer_player_name: Option<String>,
    pub receiver_player_id: Option<String>,
    pub receiver_player_name: Option<String>,
    pub rusher_player_id: Option<String>,
    pub rusher_player_name: Option<String>,
    pub fumbled_1_player_id: Option<String>,
    pub fumbled_1_player_name: Option<String>,
    pub kicker_player_id: Option<String>,
    pub kicker_player_name: Option<String>,
    pub lateral_kickoff_returner_player_id: Option<String>,
    pub lateral_kickoff_returner_player_name: Option<String>,
    pub lateral_punt_returner_player_id: Option<String>,
    pub lateral_punt_returner_player_name: Option<String>,
    pub kickoff_returner_player_id: Option<String>,
    pub kickoff_returner_player_name: Option<String>,
    pub punt_returner_player_id: Option<String>,
    pub punt_returner_player_name: Option<String>,

    pub passing_yards: i64,
    pub receiving_yards: i64,
    pub rushing_yards: i64,
    pub pass_touchdown: bool,
    pub rush_touchdown: bool,
    pub return_touchdown: bool,
    pub interception: bool,
    pub complete_pass: bool,
    pub fumble_lost: bool,
    pub two_point_conv_success: bool,
    pub extra_point_good: bool,
    pub field_goal_made: bool,
    pub kick_distance: i64,
    pub is_kickoff_play: bool,
}

/// The nine play roles whose id/name column pairs identify a player.
/// The four returner roles are listed in the coalesce priority order the
/// returning category uses.
#[derive(Clone, Copy, Debug, PartialEq, Eq, Structural)]
pub enum Role {
    Passer,
    Receiver,
    Rusher,
    Fumbler,
    Kicker,
    LateralKickoffReturner,
    LateralPuntReturner,
    KickoffReturner,
    PuntReturner,
}

impl PlayRecord {
    /// The player id column of the given role.
    pub open spec fn spec_role_id(self, role: Role) -> Option<String> {
        match role {
            Role::Passer => self.passer_player_id,
            Role::Receiver => self.receiver_player_id,
            Role::Rusher => self.rusher_player_id,
            Role::Fumbler => self.fumbled_1_player_id,
            Role::Kicker => self.kicker_player_id,
            Role::LateralKickoffReturner => self.lateral_kickoff_returner_player_id,
            Role::LateralPuntReturner => self.lateral_punt_returner_player_id,
            Role::KickoffReturner => self.kickoff_returner_player_id,
            Role::PuntReturner => self.punt_returner_player_id,
        }
    }

    /// The player name column of the given role.
    pub open spec fn spec_role_name(self, role: Role) -> Option<String> {
        match role {
            Role::Passer => self.passer_player_name,
            Role::Receiver => self.receiver_player_name,
            Role::Rusher => self.rusher_player_name,
            Role::Fumbler => self.fumbled_1_player_name,
            Role::Kicker => self.kicker_player_name,
            Role::LateralKickoffReturner => self.lateral_kickoff_returner_player_name,
            Role::LateralPuntReturner => self.lateral_punt_returner_player_name,
            Role::KickoffReturner => self.kickoff_returner_player_name,
            Role::PuntReturner => self.punt_returner_player_name,
        }
    }

    /// A role's id column as a reference.
    pub fn role_id(&self, role: Role) -> (r: &Option<String>)
        ensures
            *r == self.spec_role_id(role),
    {
        match role {
            Role::Passer => &self.passer_player_id,
            Role::Receiver => &self.receiver_player_id,
            Role::Rusher => &self.rusher_player_id,
            Role::Fumbler => &self.fumbled_1_player_id,
            Role::Kicker => &self.kicker_player_id,
            Role::LateralKickoffReturner => &self.lateral_kickoff_returner_player_id,
            Role::LateralPuntReturner => &self.lateral_punt_returner_player_id,
            Role::KickoffReturner => &self.kickoff_returner_player_id,
            Role::PuntReturner => &self.punt_returner_player_id,
        }
    }

    /// A role's name column as a reference.
    pub fn role_name(&self, role: Role) -> (r: &Option<String>)
        ensures
            *r == self.spec_role_name(role),
    {
        match role {
            Role::Passer => &self.passer_player_name,
            Role::Receiver => &self.receiver_player_name,
            Role::Rusher => &self.rusher_player_name,
            Role::Fumbler => &self.fumbled_1_player_name,
            Role::Kicker => &self.kicker_player_name,
            Role::LateralKickoffReturner => &self.lateral_kickoff_returner_player_name,
            Role::LateralPuntReturner => &self.lateral_punt_returner_player_name,
            Role::KickoffReturner => &self.kickoff_returner_player_name,
            Role::PuntReturner => &self.punt_returner_player_name,
        }
    }

    /// Well-formed input: yardage outcomes stay within what one play can
    /// move, and each role column pair names a player by id and name
    /// together or not at all.
    pub open spec fn wf(self) -> bool {
        &&& -MAX_PLAY_YARDS <= self.passing_yards <= MAX_PLAY_YARDS
        &&& -MAX_PLAY_YARDS <= self.receiving_yards <= MAX_PLAY_YARDS
        &&& -MAX_PLAY_YARDS <= self.rushing_yards <= MAX_PLAY_YARDS
        &&& 0 <= self.kick_distance <= MAX_PLAY_YARDS
        &&& forall|role: Role|
            (#[trigger] self.spec_role_id(role)) is Some <==> self.spec_role_name(role) is Some
    }
}

/// True when an optional role column holds exactly the given text.
pub open spec fn opt_matches(o: Option<String>, s: Seq<char>) -> bool {
    match o {
        Option::Some(v) => v@ == s,
        Option::None => false,
    }
}

/// Compares an optional column against a target string.
pub fn opt_eq_string(o: &Option<String>, s: &String) -> (r: bool)
    ensures
        r == opt_matches(*o, s@),
{
    match o {
        Option::Some(v) => *v == *s,
        Option::None => false,
    }
}

} // verus!

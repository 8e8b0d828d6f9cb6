//! The filter builder: boolean row predicates over play records.
//!
//! Constraints are combined with AND; a player constraint matches a play
//! when ANY of the nine role columns carries the given identity. A builder
//! with no constraints matches every play.

use vstd::prelude::*;

use crate::play::opt_eq_string;
use crate::play::opt_matches;
use crate::play::PlayRecord;

verus! {

/// One named constraint of the play filter.
pub enum PbpConstraint {
    /// The possessing team equals the name.
    Team(String),
    /// The game id equals the id.
    Game(String),
    /// Some role column's player id equals the id.
    PlayerId(String),
    /// Some role column's player name equals the name.
    PlayerName(String),
    /// The week equals the number.
    Week(u32),
    /// The week lies within the inclusive range.
    WeekRange(u32, u32),
}

/// Whether any of the nine role id columns carries the given id.
pub open spec fn has_player_id(p: PlayRecord, id: Seq<char>) -> bool {
    ||| opt_matches(p.passer_player_id, id)
    ||| opt_matches(p.receiver_player_id, id)
    ||| opt_matches(p.rusher_player_id, id)
    ||| opt_matches(p.fumbled_1_player_id, id)
    ||| opt_matches(p.kicker_player_id, id)
    ||| opt_matches(p.lateral_kickoff_returner_player_id, id)
    ||| opt_matches(p.lateral_punt_returner_player_id, id)
    ||| opt_matches(p.kickoff_returner_player_id, id)
    ||| opt_matches(p.punt_returner_player_id, id)
}

/// Whether any of the nine role name columns carries the given name.
pub open spec fn has_player_name(p: PlayRecord, name: Seq<char>) -> bool {
    ||| opt_matches(p.passer_player_name, name)
    ||| opt_matches(p.receiver_player_name, name)
    ||| opt_matches(p.rusher_player_name, name)
    ||| opt_matches(p.fumbled_1_player_name, name)
    ||| opt_matches(p.kicker_player_name, name)
    ||| opt_matches(p.lateral_kickoff_returner_player_name, name)
    ||| opt_matches(p.lateral_punt_returner_player_name, name)
    ||| opt_matches(p.kickoff_returner_player_name, name)
    ||| opt_matches(p.punt_returner_player_name, name)
}

/// Whether one constraint accepts a play.
pub open spec fn constraint_matches(c: PbpConstraint, p: PlayRecord) -> bool {
    match c {
        PbpConstraint::Team(t) => p.posteam@ == t@,
        PbpConstraint::Game(g) => p.game_id@ == g@,
        PbpConstraint::PlayerId(id) => has_player_id(p, id@),
        PbpConstraint::PlayerName(n) => has_player_name(p, n@),
        PbpConstraint::Week(w) => p.week == w,
        PbpConstraint::WeekRange(lo, hi) => lo <= p.week && p.week <= hi,
    }
}

/// A builder of AND-combined play constraints.
pub struct PbpFilter {
    pub constraints: Vec<PbpConstraint>,
}

/// The new constraint list extends the old one by exactly one entry.
pub open spec fn pushed_one(old: Seq<PbpConstraint>, new: Seq<PbpConstraint>) -> bool {
    new.len() == old.len() + 1 && new.drop_last() == old
}

impl PbpFilter {
    /// An empty builder: its predicate accepts every play.
    pub fn new() -> (r: Self)
        ensures
            r.constraints@.len() == 0,
    {
        PbpFilter { constraints: Vec::new() }
    }

    /// Adds a possessing-team constraint.
    pub fn team(self, team_name: &str) -> (r: Self)
        ensures
            pushed_one(self.constraints@, r.constraints@),
            r.constraints@.last() matches PbpConstraint::Team(t) && t@ == team_name@,
    {
        let mut f = self;
        f.constraints.push(PbpConstraint::Team(team_name.to_owned()));
        proof {
            assert(f.constraints@.drop_last() =~= self.constraints@);
        }
        f
    }

    /// Adds a game constraint.
    pub fn game(self, game_id: &str) -> (r: Self)
        ensures
            pushed_one(self.constraints@, r.constraints@),
            r.constraints@.last() matches PbpConstraint::Game(g) && g@ == game_id@,
    {
        let mut f = self;
        f.constraints.push(PbpConstraint::Game(game_id.to_owned()));
        proof {
            assert(f.constraints@.drop_last() =~= self.constraints@);
        }
        f
    }

    /// Adds a player-id constraint, matched against every role column.
    pub fn player_id(self, player_id: &str) -> (r: Self)
        ensures
            pushed_one(self.constraints@, r.constraints@),
            r.constraints@.last() matches PbpConstraint::PlayerId(id) && id@ == player_id@,
    {
        let mut f = self;
        f.constraints.push(PbpConstraint::PlayerId(player_id.to_owned()));
        proof {
            assert(f.constraints@.drop_last() =~= self.constraints@);
        }
        f
    }

    /// Adds a player-name constraint, matched against every role column.
    pub fn player_name(self, player_name: &str) -> (r: Self)
        ensures
            pushed_one(self.constraints@, r.constraints@),
            r.constraints@.last() matches PbpConstraint::PlayerName(n) && n@ == player_name@,
    {
        let mut f = self;
        f.constraints.push(PbpConstraint::PlayerName(player_name.to_owned()));
        proof {
            assert(f.constraints@.drop_last() =~= self.constraints@);
        }
        f
    }

    /// Adds a week constraint.
    pub fn week(self, week: u16) -> (r: Self)
        ensures
            pushed_one(self.constraints@, r.constraints@),
            r.constraints@.last() == PbpConstraint::Week(week as u32),
    {
        let mut f = self;
        f.constraints.push(PbpConstraint::Week(week as u32));
        proof {
            assert(f.constraints@.drop_last() =~= self.constraints@);
        }
        f
    }

    /// Adds an inclusive week-range constraint.
    pub fn week_range(self, start: u16, end: u16) -> (r: Self)
        ensures
            pushed_one(self.constraints@, r.constraints@),
            r.constraints@.last() == PbpConstraint::WeekRange(start as u32, end as u32),
    {
        let mut f = self;
        f.constraints.push(PbpConstraint::WeekRange(start as u32, end as u32));
        proof {
            assert(f.constraints@.drop_last() =~= self.constraints@);
        }
        f
    }

    /// Finalizes the builder; with no constraints added the predicate is
    /// the always-true one rather than an error.
    pub fn build(self) -> (r: Self)
        ensures
            r == self,
    {
        self
    }

    /// The built predicate: the conjunction of every added constraint.
    pub open spec fn spec_matches(self, p: PlayRecord) -> bool {
        forall|i: int|
            0 <= i < self.constraints@.len() ==> constraint_matches(
                #[trigger] self.constraints@[i],
                p,
            )
    }

    /// Evaluates the predicate on one play.
    pub fn matches(&self, p: &PlayRecord) -> (r: bool)
        ensures
            r == self.spec_matches(*p),
    {
        let n = self.constraints.len();
        let mut i: usize = 0;
        while i < n
            invariant
                n == self.constraints@.len(),
                i <= n,
                forall|m: int|
                    0 <= m < i ==> constraint_matches(#[trigger] self.constraints@[m], *p),
            decreases n - i,
        {
            let ok: bool = match &self.constraints[i] {
                PbpConstraint::Team(t) => p.posteam == *t,
                PbpConstraint::Game(g) => p.game_id == *g,
                PbpConstraint::PlayerId(id) => opt_eq_string(&p.passer_player_id, id)
                    || opt_eq_string(&p.receiver_player_id, id) || opt_eq_string(
                    &p.rusher_player_id,
                    id,
                ) || opt_eq_string(&p.fumbled_1_player_id, id) || opt_eq_string(
                    &p.kicker_player_id,
                    id,
                ) || opt_eq_string(&p.lateral_kickoff_returner_player_id, id) || opt_eq_string(
                    &p.lateral_punt_returner_player_id,
                    id,
                ) || opt_eq_string(&p.kickoff_returner_player_id, id) || opt_eq_string(
                    &p.punt_returner_player_id,
                    id,
                ),
                PbpConstraint::PlayerName(nm) => opt_eq_string(&p.passer_player_name, nm)
                    || opt_eq_string(&p.receiver_player_name, nm) || opt_eq_string(
                    &p.rusher_player_name,
                    nm,
                ) || opt_eq_string(&p.fumbled_1_player_name, nm) || opt_eq_string(
                    &p.kicker_player_name,
                    nm,
                ) || opt_eq_string(&p.lateral_kickoff_returner_player_name, nm) || opt_eq_string(
                    &p.lateral_punt_returner_player_name,
                    nm,
                ) || opt_eq_string(&p.kickoff_returner_player_name, nm) || opt_eq_string(
                    &p.punt_returner_player_name,
                    nm,
                ),
                PbpConstraint::Week(w) => p.week == *w,
                PbpConstraint::WeekRange(lo, hi) => *lo <= p.week && p.week <= *hi,
            };
            if !ok {
                return false;
            }
            i = i + 1;
        }
        true
    }
}

} // verus!

//! The roster collaborator: a per-player table joined in to restrict the
//! stat table to players of interest.

use vstd::prelude::*;

use crate::error::Error;
use crate::scoring::clone_unified;
use crate::scoring::row_bounded;
use crate::scoring::FantasyStatsDf;
use crate::Position;

verus! {

/// One roster entry, keyed by the league-wide player id.
pub struct RosterRecord {
    pub gsis_id: String,
    pub team: String,
    /// The position code as the roster spells it (`"QB"`, `"RB"`, ...).
    pub position: String,
    pub full_name: String,
    pub first_name: String,
    pub last_name: String,
    pub week: u32,
}

/// The loaded roster table.
pub struct RosterDf {
    pub rows: Vec<RosterRecord>,
}

/// One named constraint of the roster filter.
pub enum RosterConstraint {
    /// The entry's team equals the name.
    Team(String),
    /// The entry's player id equals the id.
    PlayerId(String),
    /// The full, last or first name equals the name.
    PlayerName(String),
    /// The position column matches the position; `Flex` matches any of
    /// `WR`, `TE` and `RB`.
    Position(Position),
    /// The week equals the number.
    Week(u32),
    /// The week lies within the inclusive range.
    WeekRange(u32, u32),
    /// The entry is the first of its player id in the table.
    UniquePlayers,
}

/// The roster's spelling of a position.
pub open spec fn position_code(p: Position) -> Seq<char> {
    match p {
        Position::Qb => "QB"@,
        Position::Rb => "RB"@,
        Position::Wr => "WR"@,
        Position::Te => "TE"@,
        Position::Flex => "FLEX"@,
        Position::K => "K"@,
    }
}

/// Whether a position column matches a requested position.
pub open spec fn position_matches(p: Position, pos: Seq<char>) -> bool {
    match p {
        Position::Flex => pos == "WR"@ || pos == "TE"@ || pos == "RB"@,
        _ => pos == position_code(p),
    }
}

/// Whether the entry at index `i` is the first of its player id.
pub open spec fn first_of_player(rows: Seq<RosterRecord>, i: int) -> bool {
    forall|j: int| 0 <= j < i ==> (#[trigger] rows[j]).gsis_id@ != rows[i].gsis_id@
}

/// Whether one constraint accepts the entry at index `i`.
pub open spec fn roster_cmatches(c: RosterConstraint, rows: Seq<RosterRecord>, i: int) -> bool {
    match c {
        RosterConstraint::Team(t) => rows[i].team@ == t@,
        RosterConstraint::PlayerId(id) => rows[i].gsis_id@ == id@,
        RosterConstraint::PlayerName(n) => rows[i].full_name@ == n@ || rows[i].last_name@ == n@
            || rows[i].first_name@ == n@,
        RosterConstraint::Position(p) => position_matches(p, rows[i].position@),
        RosterConstraint::Week(w) => rows[i].week == w,
        RosterConstraint::WeekRange(lo, hi) => lo <= rows[i].week && rows[i].week <= hi,
        RosterConstraint::UniquePlayers => first_of_player(rows, i),
    }
}

/// A builder of AND-combined roster constraints.
pub struct RosterFilter {
    pub constraints: Vec<RosterConstraint>,
}

/// The new constraint list extends the old one by exactly one entry.
pub open spec fn roster_pushed_one(old: Seq<RosterConstraint>, new: Seq<RosterConstraint>) -> bool {
    new.len() == old.len() + 1 && new.drop_last() == old
}

impl RosterFilter {
    /// An empty builder: its predicate accepts every entry.
    pub fn new() -> (r: Self)
        ensures
            r.constraints@.len() == 0,
    {
        RosterFilter { constraints: Vec::new() }
    }

    /// Adds a team constraint.
    pub fn team(self, team_name: &str) -> (r: Self)
        ensures
            roster_pushed_one(self.constraints@, r.constraints@),
            r.constraints@.last() matches RosterConstraint::Team(t) && t@ == team_name@,
    {
        let mut f = self;
        f.constraints.push(RosterConstraint::Team(team_name.to_owned()));
        proof {
            assert(f.constraints@.drop_last() =~= self.constraints@);
        }
        f
    }

    /// Adds a player id constraint.
    pub fn player_id(self, player_id: &str) -> (r: Self)
        ensures
            roster_pushed_one(self.constraints@, r.constraints@),
            r.constraints@.last() matches RosterConstraint::PlayerId(id) && id@ == player_id@,
    {
        let mut f = self;
        f.constraints.push(RosterConstraint::PlayerId(player_id.to_owned()));
        proof {
            assert(f.constraints@.drop_last() =~= self.constraints@);
        }
        f
    }

    /// Adds a player name constraint, matched against the full, last and
    /// first name columns.
    pub fn player_name(self, player_name: &str) -> (r: Self)
        ensures
            roster_pushed_one(self.constraints@, r.constraints@),
            r.constraints@.last() matches RosterConstraint::PlayerName(n) && n@ == player_name@,
    {
        let mut f = self;
        f.constraints.push(RosterConstraint::PlayerName(player_name.to_owned()));
        proof {
            assert(f.constraints@.drop_last() =~= self.constraints@);
        }
        f
    }

    /// Adds a position constraint; `Flex` stands for `WR`, `TE` or `RB`.
    pub fn position(self, position: Position) -> (r: Self)
        ensures
            roster_pushed_one(self.constraints@, r.constraints@),
            r.constraints@.last() == RosterConstraint::Position(position),
    {
        let mut f = self;
        f.constraints.push(RosterConstraint::Position(position));
        proof {
            assert(f.constraints@.drop_last() =~= self.constraints@);
        }
        f
    }

    /// Adds a week constraint.
    pub fn week(self, week: u16) -> (r: Self)
        ensures
            roster_pushed_one(self.constraints@, r.constraints@),
            r.constraints@.last() == RosterConstraint::Week(week as u32),
    {
        let mut f = self;
        f.constraints.push(RosterConstraint::Week(week as u32));
        proof {
            assert(f.constraints@.drop_last() =~= self.constraints@);
        }
        f
    }

    /// Adds an inclusive week-range constraint.
    pub fn week_range(self, start: u16, end: u16) -> (r: Self)
        ensures
            roster_pushed_one(self.constraints@, r.constraints@),
            r.constraints@.last() == RosterConstraint::WeekRange(start as u32, end as u32),
    {
        let mut f = self;
        f.constraints.push(RosterConstraint::WeekRange(start as u32, end as u32));
        proof {
            assert(f.constraints@.drop_last() =~= self.constraints@);
        }
        f
    }

    /// Adds a first-of-its-player constraint.
    pub fn unique_players(self) -> (r: Self)
        ensures
            roster_pushed_one(self.constraints@, r.constraints@),
            r.constraints@.last() == RosterConstraint::UniquePlayers,
    {
        let mut f = self;
        f.constraints.push(RosterConstraint::UniquePlayers);
        proof {
            assert(f.constraints@.drop_last() =~= self.constraints@);
        }
        f
    }

    /// Finalizes the builder; with no constraints added the predicate is
    /// the always-true one rather than an error.
    pub fn build(self) -> (r: Self)
        ensures
            r == self,
    {
        self
    }

    /// The built predicate on the entry at index `i` of a table.
    pub open spec fn spec_matches(self, rows: Seq<RosterRecord>, i: int) -> bool {
        forall|m: int|
            0 <= m < self.constraints@.len() ==> roster_cmatches(
                #[trigger] self.constraints@[m],
                rows,
                i,
            )
    }
}

/// Compares a string column against a literal.
fn str_eq_lit(a: &String, b: &str) -> (r: bool)
    ensures
        r == (a@ == b@),
{
    *a == b.to_owned()
}

/// The entries of the first `n` rows that the filter accepts, in order.
pub open spec fn roster_kept(rows: Seq<RosterRecord>, f: RosterFilter, n: int) -> Seq<RosterRecord>
    decreases n,
{
    if n <= 0 {
        Seq::empty()
    } else {
        let rest = roster_kept(rows, f, n - 1);
        if f.spec_matches(rows, n - 1) {
            rest.push(rows[n - 1])
        } else {
            rest
        }
    }
}

/// The entries of the first `n` rows that are first of their player id.
pub open spec fn unique_kept(rows: Seq<RosterRecord>, n: int) -> Seq<RosterRecord>
    decreases n,
{
    if n <= 0 {
        Seq::empty()
    } else {
        let rest = unique_kept(rows, n - 1);
        if first_of_player(rows, n - 1) {
            rest.push(rows[n - 1])
        } else {
            rest
        }
    }
}

/// Copies a roster entry.
fn clone_roster(r: &RosterRecord) -> (c: RosterRecord)
    ensures
        c == *r,
{
    RosterRecord {
        gsis_id: r.gsis_id.clone(),
        team: r.team.clone(),
        position: r.position.clone(),
        full_name: r.full_name.clone(),
        first_name: r.first_name.clone(),
        last_name: r.last_name.clone(),
        week: r.week,
    }
}

/// Whether the entry at index `i` is the first of its player id.
fn first_of_player_exec(rows: &Vec<RosterRecord>, i: usize) -> (r: bool)
    requires
        i < rows@.len(),
    ensures
        r == first_of_player(rows@, i as int),
{
    let mut j: usize = 0;
    while j < i
        invariant
            i < rows@.len(),
            j <= i,
            forall|m: int| 0 <= m < j ==> (#[trigger] rows@[m]).gsis_id@ != rows@[i as int].gsis_id@,
        decreases i - j,
    {
        if rows[j].gsis_id == rows[i].gsis_id {
            return false;
        }
        j = j + 1;
    }
    true
}

/// Whether the filter accepts the entry at index `i`.
fn roster_matches_exec(rows: &Vec<RosterRecord>, f: &RosterFilter, i: usize) -> (r: bool)
    requires
        i < rows@.len(),
    ensures
        r == f.spec_matches(rows@, i as int),
{
    let n = f.constraints.len();
    let mut m: usize = 0;
    while m < n
        invariant
            i < rows@.len(),
            n == f.constraints@.len(),
            m <= n,
            forall|q: int|
                0 <= q < m ==> roster_cmatches(#[trigger] f.constraints@[q], rows@, i as int),
        decreases n - m,
    {
        let row = &rows[i];
        let ok: bool = match &f.constraints[m] {
            RosterConstraint::Team(t) => row.team == *t,
            RosterConstraint::PlayerId(id) => row.gsis_id == *id,
            RosterConstraint::PlayerName(nm) => row.full_name == *nm || row.last_name == *nm
                || row.first_name == *nm,
            RosterConstraint::Position(p) => match p {
                Position::Flex => str_eq_lit(&row.position, "WR") || str_eq_lit(
                    &row.position,
                    "TE",
                ) || str_eq_lit(&row.position, "RB"),
                Position::Qb => str_eq_lit(&row.position, "QB"),
                Position::Rb => str_eq_lit(&row.position, "RB"),
                Position::Wr => str_eq_lit(&row.position, "WR"),
                Position::Te => str_eq_lit(&row.position, "TE"),
                Position::K => str_eq_lit(&row.position, "K"),
            },
            RosterConstraint::Week(w) => row.week == *w,
            RosterConstraint::WeekRange(lo, hi) => *lo <= row.week && row.week <= *hi,
            RosterConstraint::UniquePlayers => first_of_player_exec(rows, i),
        };
        if !ok {
            return false;
        }
        m = m + 1;
    }
    true
}

impl RosterDf {
    /// Wraps a loaded roster table.
    pub fn new(rows: Vec<RosterRecord>) -> (r: Self)
        ensures
            r.rows@ == rows@,
    {
        RosterDf { rows }
    }

    /// Restricts the table to the entries the filter accepts. A
    /// first-of-its-player constraint is judged against the unfiltered
    /// table, as the builder's combined predicate is evaluated before any
    /// row is dropped.
    pub fn filter(self, filter: RosterFilter) -> (r: Result<Self, Error>)
        ensures
            r is Ok,
            r matches Ok(df) ==> df.rows@ == roster_kept(
                self.rows@,
                filter,
                self.rows@.len() as int,
            ),
    {
        let n = self.rows.len();
        let mut kept: Vec<RosterRecord> = Vec::new();
        let mut i: usize = 0;
        while i < n
            invariant
                n == self.rows@.len(),
                i <= n,
                kept@ == roster_kept(self.rows@, filter, i as int),
            decreases n - i,
        {
            if roster_matches_exec(&self.rows, &filter, i) {
                kept.push(clone_roster(&self.rows[i]));
            }
            i = i + 1;
        }
        Ok(RosterDf { rows: kept })
    }

    /// Keeps the first entry of every player id.
    pub fn unique_players(self) -> (r: Result<Self, Error>)
        ensures
            r is Ok,
            r matches Ok(df) ==> df.rows@ == unique_kept(self.rows@, self.rows@.len() as int),
    {
        let n = self.rows.len();
        let mut kept: Vec<RosterRecord> = Vec::new();
        let mut i: usize = 0;
        while i < n
            invariant
                n == self.rows@.len(),
                i <= n,
                kept@ == unique_kept(self.rows@, i as int),
            decreases n - i,
        {
            if first_of_player_exec(&self.rows, i) {
                kept.push(clone_roster(&self.rows[i]));
            }
            i = i + 1;
        }
        Ok(RosterDf { rows: kept })
    }
}

/// Whether some roster entry carries the given player id.
pub open spec fn roster_has(roster: Seq<RosterRecord>, id: Seq<char>) -> bool {
    exists|j: int| 0 <= j < roster.len() && (#[trigger] roster[j]).gsis_id@ == id
}

/// The stat rows whose player the roster lists, in table order.
pub open spec fn restricted(
    rows: Seq<crate::merge::UnifiedStatRow>,
    roster: Seq<RosterRecord>,
) -> Seq<crate::merge::UnifiedStatRow>
    decreases rows.len(),
{
    if rows.len() == 0 {
        Seq::empty()
    } else {
        let rest = restricted(rows.drop_last(), roster);
        if roster_has(roster, rows.last().key.player_id@) {
            rest.push(rows.last())
        } else {
            rest
        }
    }
}

/// Restriction keeps a subset of bounded rows bounded.
pub proof fn lemma_restricted_wf(rows: Seq<crate::merge::UnifiedStatRow>, roster: Seq<RosterRecord>)
    ensures
        restricted(rows, roster).len() <= rows.len(),
        (forall|i: int| 0 <= i < rows.len() ==> row_bounded(#[trigger] rows[i])) ==> forall|i: int|
            0 <= i < restricted(rows, roster).len() ==> row_bounded(
                #[trigger] restricted(rows, roster)[i],
            ),
    decreases rows.len(),
{
    if rows.len() > 0 {
        let d = rows.drop_last();
        assert(forall|i: int| 0 <= i < d.len() ==> d[i] == rows[i]);
        lemma_restricted_wf(d, roster);
        if forall|i: int| 0 <= i < rows.len() ==> row_bounded(#[trigger] rows[i]) {
            assert(forall|i: int| 0 <= i < d.len() ==> row_bounded(#[trigger] d[i]));
            let rest = restricted(d, roster);
            assert(row_bounded(rows[rows.len() - 1]));
            assert forall|i: int|
                0 <= i < restricted(rows, roster).len() implies row_bounded(
                #[trigger] restricted(rows, roster)[i],
            ) by {
                if i < rest.len() {
                    assert(restricted(rows, roster)[i] == rest[i]);
                }
            }
        }
    }
}

/// Whether some roster entry carries the given id string.
fn roster_has_exec(roster: &Vec<RosterRecord>, id: &String) -> (r: bool)
    ensures
        r == roster_has(roster@, id@),
{
    let n = roster.len();
    let mut j: usize = 0;
    while j < n
        invariant
            n == roster@.len(),
            j <= n,
            forall|m: int| 0 <= m < j ==> (#[trigger] roster@[m]).gsis_id@ != id@,
        decreases n - j,
    {
        if roster[j].gsis_id == *id {
            return true;
        }
        j = j + 1;
    }
    false
}

impl FantasyStatsDf {
    /// Restricts the stat table to players the roster lists: the inner
    /// join on player identity, keeping the stat columns.
    pub fn merge_roster(&self, roster_df: RosterDf) -> (r: Result<FantasyStatsDf, Error>)
        ensures
            r is Ok,
            r matches Ok(df) ==> df.rows@ == restricted(self.rows@, roster_df.rows@) && (
            self.wf() ==> df.wf()),
    {
        let n = self.rows.len();
        let mut kept: Vec<crate::merge::UnifiedStatRow> = Vec::new();
        let mut i: usize = 0;
        while i < n
            invariant
                n == self.rows@.len(),
                i <= n,
                kept@ == restricted(self.rows@.take(i as int), roster_df.rows@),
            decreases n - i,
        {
            let ghost prefix = self.rows@.take(i as int);
            proof {
                assert(self.rows@.take(i as int + 1) =~= prefix.push(self.rows@[i as int]));
                assert(prefix.push(self.rows@[i as int]).drop_last() =~= prefix);
            }
            let row = &self.rows[i];
            if roster_has_exec(&roster_df.rows, &row.key.player_id) {
                kept.push(clone_unified(row));
            }
            i = i + 1;
        }
        proof {
            assert(self.rows@.take(n as int) =~= self.rows@);
            lemma_restricted_wf(self.rows@, roster_df.rows@);
        }
        Ok(FantasyStatsDf { rows: kept })
    }
}

} // verus!

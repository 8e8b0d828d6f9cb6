//! Category aggregation: bucketing plays into per-player stat rows.
//!
//! Six categories share one aggregation engine. Each category is described
//! by the player it attributes a play to (`cat_key`) and the counters the
//! play contributes (`line_of`); the engine groups plays by (game, team,
//! player) and sums the contributions.

use vstd::prelude::*;

use crate::play::PlayRecord;
use crate::play::Role;
use crate::MAX_PLAYS;
use crate::MAX_PLAY_YARDS;

verus! {

/// The six statistical categories.
#[derive(Clone, Copy, Debug, PartialEq, Eq, Structural)]
pub enum Category {
    Passing,
    Receiving,
    Rushing,
    Fumbling,
    Kicking,
    Returning,
}

/// The grouping key of every category table: one row per game, possessing
/// team and player identity.
pub struct RowKey {
    pub game_id: String,
    pub team: String,
    pub player_id: String,
    pub player_name: String,
}

/// Mathematical value of a [`RowKey`].
#[verifier::ext_equal]
pub struct KeyV {
    pub game_id: Seq<char>,
    pub team: Seq<char>,
    pub player_id: Seq<char>,
    pub player_name: Seq<char>,
}

impl View for RowKey {
    type V = KeyV;

    open spec fn view(&self) -> KeyV {
        KeyV {
            game_id: self.game_id@,
            team: self.team@,
            player_id: self.player_id@,
            player_name: self.player_name@,
        }
    }
}

/// The union of every category's summed counters. A category row only ever
/// populates its own counters; the rest stay zero.
#[derive(Clone, Copy, Debug)]
pub struct StatLine {
    pub passing_yards: i64,
    pub pass_touchdowns: i64,
    pub interceptions: i64,
    pub passing_50yd_td: i64,
    pub receptions: i64,
    pub receiving_yards: i64,
    pub receiving_touchdowns: i64,
    pub receiving_50yd_td: i64,
    pub rushing_yards: i64,
    pub rush_touchdowns: i64,
    pub rushing_50yd_td: i64,
    pub two_pt_conv_made: i64,
    pub fumbles_lost: i64,
    pub pat_made: i64,
    pub fg_made: i64,
    pub fg_40plus_made: i64,
    pub fg_50plus_made: i64,
    pub td_returns: i64,
}

/// Mathematical value of a [`StatLine`].
#[verifier::ext_equal]
pub struct LineV {
    pub passing_yards: int,
    pub pass_touchdowns: int,
    pub interceptions: int,
    pub passing_50yd_td: int,
    pub receptions: int,
    pub receiving_yards: int,
    pub receiving_touchdowns: int,
    pub receiving_50yd_td: int,
    pub rushing_yards: int,
    pub rush_touchdowns: int,
    pub rushing_50yd_td: int,
    pub two_pt_conv_made: int,
    pub fumbles_lost: int,
    pub pat_made: int,
    pub fg_made: int,
    pub fg_40plus_made: int,
    pub fg_50plus_made: int,
    pub td_returns: int,
}

impl View for StatLine {
    type V = LineV;

    open spec fn view(&self) -> LineV {
        LineV {
            passing_yards: self.passing_yards as int,
            pass_touchdowns: self.pass_touchdowns as int,
            interceptions: self.interceptions as int,
            passing_50yd_td: self.passing_50yd_td as int,
            receptions: self.receptions as int,
            receiving_yards: self.receiving_yards as int,
            receiving_touchdowns: self.receiving_touchdowns as int,
            receiving_50yd_td: self.receiving_50yd_td as int,
            rushing_yards: self.rushing_yards as int,
            rush_touchdowns: self.rush_touchdowns as int,
            rushing_50yd_td: self.rushing_50yd_td as int,
            two_pt_conv_made: self.two_pt_conv_made as int,
            fumbles_lost: self.fumbles_lost as int,
            pat_made: self.pat_made as int,
            fg_made: self.fg_made as int,
            fg_40plus_made: self.fg_40plus_made as int,
            fg_50plus_made: self.fg_50plus_made as int,
            td_returns: self.td_returns as int,
        }
    }
}

/// One row of a category table.
pub struct CatRow {
    pub key: RowKey,
    pub week: u32,
    pub line: StatLine,
}

pub open spec fn b2i(b: bool) -> int {
    if b {
        1
    } else {
        0
    }
}

/// The all-zero counter line.
pub open spec fn line_zero() -> LineV {
    LineV {
        passing_yards: 0,
        pass_touchdowns: 0,
        interceptions: 0,
        passing_50yd_td: 0,
        receptions: 0,
        receiving_yards: 0,
        receiving_touchdowns: 0,
        receiving_50yd_td: 0,
        rushing_yards: 0,
        rush_touchdowns: 0,
        rushing_50yd_td: 0,
        two_pt_conv_made: 0,
        fumbles_lost: 0,
        pat_made: 0,
        fg_made: 0,
        fg_40plus_made: 0,
        fg_50plus_made: 0,
        td_returns: 0,
    }
}

/// Componentwise sum of two counter lines.
pub open spec fn line_add(a: LineV, b: LineV) -> LineV {
    LineV {
        passing_yards: a.passing_yards + b.passing_yards,
        pass_touchdowns: a.pass_touchdowns + b.pass_touchdowns,
        interceptions: a.interceptions + b.interceptions,
        passing_50yd_td: a.passing_50yd_td + b.passing_50yd_td,
        receptions: a.receptions + b.receptions,
        receiving_yards: a.receiving_yards + b.receiving_yards,
        receiving_touchdowns: a.receiving_touchdowns + b.receiving_touchdowns,
        receiving_50yd_td: a.receiving_50yd_td + b.receiving_50yd_td,
        rushing_yards: a.rushing_yards + b.rushing_yards,
        rush_touchdowns: a.rush_touchdowns + b.rush_touchdowns,
        rushing_50yd_td: a.rushing_50yd_td + b.rushing_50yd_td,
        two_pt_conv_made: a.two_pt_conv_made + b.two_pt_conv_made,
        fumbles_lost: a.fumbles_lost + b.fumbles_lost,
        pat_made: a.pat_made + b.pat_made,
        fg_made: a.fg_made + b.fg_made,
        fg_40plus_made: a.fg_40plus_made + b.fg_40plus_made,
        fg_50plus_made: a.fg_50plus_made + b.fg_50plus_made,
        td_returns: a.td_returns + b.td_returns,
    }
}

/// Every yardage counter within `n * MAX_PLAY_YARDS` in magnitude and every
/// event counter within `0 ..= n`: the shape of a sum over `n` well-formed
/// plays.
pub open spec fn line_within(l: LineV, n: int) -> bool {
    &&& -(n * MAX_PLAY_YARDS) <= l.passing_yards <= n * MAX_PLAY_YARDS
    &&& -(n * MAX_PLAY_YARDS) <= l.receiving_yards <= n * MAX_PLAY_YARDS
    &&& -(n * MAX_PLAY_YARDS) <= l.rushing_yards <= n * MAX_PLAY_YARDS
    &&& 0 <= l.pass_touchdowns <= n
    &&& 0 <= l.interceptions <= n
    &&& 0 <= l.passing_50yd_td <= n
    &&& 0 <= l.receptions <= n
    &&& 0 <= l.receiving_touchdowns <= n
    &&& 0 <= l.receiving_50yd_td <= n
    &&& 0 <= l.rush_touchdowns <= n
    &&& 0 <= l.rushing_50yd_td <= n
    &&& 0 <= l.two_pt_conv_made <= n
    &&& 0 <= l.fumbles_lost <= n
    &&& 0 <= l.pat_made <= n
    &&& 0 <= l.fg_made <= n
    &&& 0 <= l.fg_40plus_made <= n
    &&& 0 <= l.fg_50plus_made <= n
    &&& 0 <= l.td_returns <= n
}

/// Text of an optional column, or empty when the column is null.
pub open spec fn opt_text(o: Option<String>) -> Seq<char> {
    match o {
        Option::Some(s) => s@,
        Option::None => Seq::empty(),
    }
}

/// The first non-null value among the four returner name columns, in the
/// fixed coalesce priority order.
pub open spec fn returner_name(p: PlayRecord) -> Option<String> {
    if p.spec_role_name(Role::LateralKickoffReturner) is Some {
        p.spec_role_name(Role::LateralKickoffReturner)
    } else if p.spec_role_name(Role::LateralPuntReturner) is Some {
        p.spec_role_name(Role::LateralPuntReturner)
    } else if p.spec_role_name(Role::KickoffReturner) is Some {
        p.spec_role_name(Role::KickoffReturner)
    } else {
        p.spec_role_name(Role::PuntReturner)
    }
}

/// The first non-null value among the four returner id columns, in the same
/// priority order.
pub open spec fn returner_id(p: PlayRecord) -> Option<String> {
    if p.spec_role_id(Role::LateralKickoffReturner) is Some {
        p.spec_role_id(Role::LateralKickoffReturner)
    } else if p.spec_role_id(Role::LateralPuntReturner) is Some {
        p.spec_role_id(Role::LateralPuntReturner)
    } else if p.spec_role_id(Role::KickoffReturner) is Some {
        p.spec_role_id(Role::KickoffReturner)
    } else {
        p.spec_role_id(Role::PuntReturner)
    }
}

/// The single role whose id/name pair keys a category, for the five
/// categories with a fixed role column.
pub open spec fn primary_role(cat: Category) -> Role
    recommends
        cat != Category::Returning,
{
    match cat {
        Category::Passing => Role::Passer,
        Category::Receiving => Role::Receiver,
        Category::Rushing => Role::Rusher,
        Category::Fumbling => Role::Fumbler,
        Category::Kicking => Role::Kicker,
        Category::Returning => Role::PuntReturner,
    }
}

/// Whether a play belongs to a category at all: its role name column is
/// non-null, kicking excludes kickoff plays, and returning keeps only
/// return-touchdown plays with a resolvable returner.
pub open spec fn cat_selects(cat: Category, p: PlayRecord) -> bool {
    match cat {
        Category::Kicking => p.spec_role_name(Role::Kicker) is Some && !p.is_kickoff_play,
        Category::Returning => p.return_touchdown && returner_name(p) is Some,
        _ => p.spec_role_name(primary_role(cat)) is Some,
    }
}

/// The key a category attributes a play to, or `None` when the play does
/// not belong to the category.
pub open spec fn cat_key(cat: Category, p: PlayRecord) -> Option<KeyV> {
    if cat_selects(cat, p) {
        Option::Some(
            KeyV {
                game_id: p.game_id@,
                team: p.posteam@,
                player_id: if cat == Category::Returning {
                    opt_text(returner_id(p))
                } else {
                    opt_text(p.spec_role_id(primary_role(cat)))
                },
                player_name: if cat == Category::Returning {
                    opt_text(returner_name(p))
                } else {
                    opt_text(p.spec_role_name(primary_role(cat)))
                },
            },
        )
    } else {
        Option::None
    }
}

/// The counters one play contributes to its category row. Touchdown
/// distance bonuses count a touchdown only when the play's yardage is
/// strictly greater than 50; field-goal distance counters use inclusive
/// thresholds.
pub open spec fn line_of(cat: Category, p: PlayRecord) -> LineV {
    match cat {
        Category::Passing => LineV {
            passing_yards: p.passing_yards as int,
            pass_touchdowns: b2i(p.pass_touchdown),
            interceptions: b2i(p.interception),
            passing_50yd_td: if p.passing_yards > 50 {
                b2i(p.pass_touchdown)
            } else {
                0
            },
            ..line_zero()
        },
        Category::Receiving => LineV {
            receptions: b2i(p.complete_pass),
            receiving_yards: p.receiving_yards as int,
            receiving_touchdowns: b2i(p.pass_touchdown),
            two_pt_conv_made: b2i(p.two_point_conv_success),
            receiving_50yd_td: if p.receiving_yards > 50 {
                b2i(p.pass_touchdown)
            } else {
                0
            },
            ..line_zero()
        },
        Category::Rushing => LineV {
            rushing_yards: p.rushing_yards as int,
            rush_touchdowns: b2i(p.rush_touchdown),
            two_pt_conv_made: b2i(p.two_point_conv_success),
            rushing_50yd_td: if p.rushing_yards > 50 {
                b2i(p.rush_touchdown)
            } else {
                0
            },
            ..line_zero()
        },
        Category::Fumbling => LineV { fumbles_lost: b2i(p.fumble_lost), ..line_zero() },
        Category::Kicking => LineV {
            pat_made: b2i(p.extra_point_good),
            fg_made: b2i(p.field_goal_made),
            fg_40plus_made: if p.kick_distance >= 40 {
                b2i(p.field_goal_made)
            } else {
                0
            },
            fg_50plus_made: if p.kick_distance >= 50 {
                b2i(p.field_goal_made)
            } else {
                0
            },
            ..line_zero()
        },
        Category::Returning => LineV { td_returns: b2i(p.return_touchdown), ..line_zero() },
    }
}

/// The sum of the category contributions of every play attributed to key
/// `k`.
pub open spec fn sum_line(plays: Seq<PlayRecord>, cat: Category, k: KeyV) -> LineV
    decreases plays.len(),
{
    if plays.len() == 0 {
        line_zero()
    } else {
        line_add(
            sum_line(plays.drop_last(), cat, k),
            if cat_key(cat, plays.last()) == Option::Some(k) {
                line_of(cat, plays.last())
            } else {
                line_zero()
            },
        )
    }
}

/// The keys of the plays a category selects, one entry per selected play,
/// in play order.
pub open spec fn keys_of(plays: Seq<PlayRecord>, cat: Category) -> Seq<KeyV>
    decreases plays.len(),
{
    if plays.len() == 0 {
        Seq::empty()
    } else {
        match cat_key(cat, plays.last()) {
            Option::Some(k) => keys_of(plays.drop_last(), cat).push(k),
            Option::None => keys_of(plays.drop_last(), cat),
        }
    }
}

/// Keeps the first occurrence of every key, in first-appearance order.
pub open spec fn dedup<A>(ks: Seq<A>) -> Seq<A>
    decreases ks.len(),
{
    if ks.len() == 0 {
        Seq::empty()
    } else {
        let rest = dedup(ks.drop_last());
        if rest.contains(ks.last()) {
            rest
        } else {
            rest.push(ks.last())
        }
    }
}

/// The week of the first play a category attributes to key `k` (0 when no
/// play does).
pub open spec fn first_week(plays: Seq<PlayRecord>, cat: Category, k: KeyV) -> u32
    decreases plays.len(),
{
    if plays.len() == 0 {
        0
    } else if keys_of(plays.drop_last(), cat).contains(k) {
        first_week(plays.drop_last(), cat, k)
    } else if cat_key(cat, plays.last()) == Option::Some(k) {
        plays.last().week
    } else {
        0
    }
}

/// The key column of a category table.
pub open spec fn keys_of_rows(rows: Seq<CatRow>) -> Seq<KeyV>
    decreases rows.len(),
{
    if rows.len() == 0 {
        Seq::empty()
    } else {
        keys_of_rows(rows.drop_last()).push(rows.last().key@)
    }
}

/// Every play of the batch is well formed.
pub open spec fn all_wf(plays: Seq<PlayRecord>) -> bool {
    forall|i: int| 0 <= i < plays.len() ==> (#[trigger] plays[i]).wf()
}

/// What the aggregation engine guarantees of a category table: one row per
/// key in first-appearance order, each row carrying the sums of the plays
/// attributed to its key and the week of the first such play.
pub open spec fn category_table_ok(
    plays: Seq<PlayRecord>,
    cat: Category,
    rows: Seq<CatRow>,
) -> bool {
    &&& keys_of_rows(rows) == dedup(keys_of(plays, cat))
    &&& forall|i: int|
        0 <= i < rows.len() ==> (#[trigger] rows[i]).line@ == sum_line(plays, cat, rows[i].key@)
    &&& forall|i: int|
        0 <= i < rows.len() ==> (#[trigger] rows[i]).week == first_week(plays, cat, rows[i].key@)
}

/// Compares two row keys by value.
pub fn key_eq(a: &RowKey, b: &RowKey) -> (r: bool)
    ensures
        r == (a@ == b@),
{
    let r = a.game_id == b.game_id && a.team == b.team && a.player_id == b.player_id
        && a.player_name == b.player_name;
    proof {
        if r {
            assert(a@ =~= b@);
        }
    }
    r
}

/// Copies a row key.
pub fn clone_key(k: &RowKey) -> (r: RowKey)
    ensures
        r == *k,
{
    let r = RowKey {
        game_id: k.game_id.clone(),
        team: k.team.clone(),
        player_id: k.player_id.clone(),
        player_name: k.player_name.clone(),
    };
    r
}

/// The text of an optional column, empty when the column is null.
fn opt_text_exec(o: &Option<String>) -> (r: String)
    ensures
        r@ == opt_text(*o),
{
    match o {
        Option::Some(s) => s.clone(),
        Option::None => String::new(),
    }
}

/// The key a category attributes a play to, or `None` when the category
/// does not select the play.
pub fn play_key(cat: Category, p: &PlayRecord) -> (r: Option<RowKey>)
    ensures
        match (r, cat_key(cat, *p)) {
            (Option::Some(k), Option::Some(kv)) => k@ == kv,
            (Option::None, Option::None) => true,
            _ => false,
        },
{
    let selected: bool = match cat {
        Category::Kicking => p.kicker_player_name.is_some() && !p.is_kickoff_play,
        Category::Returning => p.return_touchdown && (p.lateral_kickoff_returner_player_name.is_some()
            || p.lateral_punt_returner_player_name.is_some()
            || p.kickoff_returner_player_name.is_some()
            || p.punt_returner_player_name.is_some()),
        Category::Passing => p.passer_player_name.is_some(),
        Category::Receiving => p.receiver_player_name.is_some(),
        Category::Rushing => p.rusher_player_name.is_some(),
        Category::Fumbling => p.fumbled_1_player_name.is_some(),
    };
    if !selected {
        return Option::None;
    }
    let (pid, pname): (String, String) = if let Category::Returning = cat {
        let rid: &Option<String> = if p.lateral_kickoff_returner_player_id.is_some() {
            &p.lateral_kickoff_returner_player_id
        } else if p.lateral_punt_returner_player_id.is_some() {
            &p.lateral_punt_returner_player_id
        } else if p.kickoff_returner_player_id.is_some() {
            &p.kickoff_returner_player_id
        } else {
            &p.punt_returner_player_id
        };
        let rname: &Option<String> = if p.lateral_kickoff_returner_player_name.is_some() {
            &p.lateral_kickoff_returner_player_name
        } else if p.lateral_punt_returner_player_name.is_some() {
            &p.lateral_punt_returner_player_name
        } else if p.kickoff_returner_player_name.is_some() {
            &p.kickoff_returner_player_name
        } else {
            &p.punt_returner_player_name
        };
        (opt_text_exec(rid), opt_text_exec(rname))
    } else {
        let role: Role = match cat {
            Category::Passing => Role::Passer,
            Category::Receiving => Role::Receiver,
            Category::Rushing => Role::Rusher,
            Category::Fumbling => Role::Fumbler,
            _ => Role::Kicker,
        };
        (opt_text_exec(p.role_id(role)), opt_text_exec(p.role_name(role)))
    };
    let k = RowKey {
        game_id: p.game_id.clone(),
        team: p.posteam.clone(),
        player_id: pid,
        player_name: pname,
    };
    proof {
        assert(k@ =~= cat_key(cat, *p)->Some_0);
    }
    Option::Some(k)
}

fn b2c(b: bool) -> (r: i64)
    ensures
        r as int == b2i(b),
        0 <= r <= 1,
{
    if b {
        1
    } else {
        0
    }
}

/// The counters one play contributes to a category.
pub fn play_line(cat: Category, p: &PlayRecord) -> (r: StatLine)
    ensures
        r@ == line_of(cat, *p),
{
    let mut r = StatLine {
        passing_yards: 0,
        pass_touchdowns: 0,
        interceptions: 0,
        passing_50yd_td: 0,
        receptions: 0,
        receiving_yards: 0,
        receiving_touchdowns: 0,
        receiving_50yd_td: 0,
        rushing_yards: 0,
        rush_touchdowns: 0,
        rushing_50yd_td: 0,
        two_pt_conv_made: 0,
        fumbles_lost: 0,
        pat_made: 0,
        fg_made: 0,
        fg_40plus_made: 0,
        fg_50plus_made: 0,
        td_returns: 0,
    };
    match cat {
        Category::Passing => {
            r.passing_yards = p.passing_yards;
            r.pass_touchdowns = b2c(p.pass_touchdown);
            r.interceptions = b2c(p.interception);
            r.passing_50yd_td = if p.passing_yards > 50 {
                b2c(p.pass_touchdown)
            } else {
                0
            };
        },
        Category::Receiving => {
            r.receptions = b2c(p.complete_pass);
            r.receiving_yards = p.receiving_yards;
            r.receiving_touchdowns = b2c(p.pass_touchdown);
            r.two_pt_conv_made = b2c(p.two_point_conv_success);
            r.receiving_50yd_td = if p.receiving_yards > 50 {
                b2c(p.pass_touchdown)
            } else {
                0
            };
        },
        Category::Rushing => {
            r.rushing_yards = p.rushing_yards;
            r.rush_touchdowns = b2c(p.rush_touchdown);
            r.two_pt_conv_made = b2c(p.two_point_conv_success);
            r.rushing_50yd_td = if p.rushing_yards > 50 {
                b2c(p.rush_touchdown)
            } else {
                0
            };
        },
        Category::Fumbling => {
            r.fumbles_lost = b2c(p.fumble_lost);
        },
        Category::Kicking => {
            r.pat_made = b2c(p.extra_point_good);
            r.fg_made = b2c(p.field_goal_made);
            r.fg_40plus_made = if p.kick_distance >= 40 {
                b2c(p.field_goal_made)
            } else {
                0
            };
            r.fg_50plus_made = if p.kick_distance >= 50 {
                b2c(p.field_goal_made)
            } else {
                0
            };
        },
        Category::Returning => {
            r.td_returns = b2c(p.return_touchdown);
        },
    }
    proof {
        assert(r@ =~= line_of(cat, *p));
    }
    r
}

/// Componentwise sum of an accumulated line and one play's contribution.
pub fn add_lines(a: &StatLine, b: &StatLine) -> (r: StatLine)
    requires
        line_within(a@, MAX_PLAYS as int),
        line_within(b@, 1),
    ensures
        r@ == line_add(a@, b@),
{
    let r = StatLine {
        passing_yards: a.passing_yards + b.passing_yards,
        pass_touchdowns: a.pass_touchdowns + b.pass_touchdowns,
        interceptions: a.interceptions + b.interceptions,
        passing_50yd_td: a.passing_50yd_td + b.passing_50yd_td,
        receptions: a.receptions + b.receptions,
        receiving_yards: a.receiving_yards + b.receiving_yards,
        receiving_touchdowns: a.receiving_touchdowns + b.receiving_touchdowns,
        receiving_50yd_td: a.receiving_50yd_td + b.receiving_50yd_td,
        rushing_yards: a.rushing_yards + b.rushing_yards,
        rush_touchdowns: a.rush_touchdowns + b.rush_touchdowns,
        rushing_50yd_td: a.rushing_50yd_td + b.rushing_50yd_td,
        two_pt_conv_made: a.two_pt_conv_made + b.two_pt_conv_made,
        fumbles_lost: a.fumbles_lost + b.fumbles_lost,
        pat_made: a.pat_made + b.pat_made,
        fg_made: a.fg_made + b.fg_made,
        fg_40plus_made: a.fg_40plus_made + b.fg_40plus_made,
        fg_50plus_made: a.fg_50plus_made + b.fg_50plus_made,
        td_returns: a.td_returns + b.td_returns,
    };
    proof {
        assert(r@ =~= line_add(a@, b@));
    }
    r
}

/// Adding the zero line changes nothing.
pub proof fn lemma_line_add_zero(l: LineV)
    ensures
        line_add(l, line_zero()) == l,
        line_add(line_zero(), l) == l,
{
    assert(line_add(l, line_zero()) =~= l);
    assert(line_add(line_zero(), l) =~= l);
}

/// `keys_of_rows` is the pointwise key column.
pub proof fn lemma_keys_of_rows(rows: Seq<CatRow>)
    ensures
        keys_of_rows(rows).len() == rows.len(),
        forall|j: int| 0 <= j < rows.len() ==> keys_of_rows(rows)[j] == (#[trigger] rows[j]).key@,
    decreases rows.len(),
{
    if rows.len() > 0 {
        let d = rows.drop_last();
        lemma_keys_of_rows(d);
        assert forall|j: int| 0 <= j < rows.len() implies keys_of_rows(rows)[j] == (
        #[trigger] rows[j]).key@ by {
            if j < rows.len() - 1 {
                assert(d[j] == rows[j]);
                assert(keys_of_rows(d)[j] == d[j].key@);
            }
        }
    }
}

/// Membership in a sequence extended by one element.
pub proof fn lemma_contains_push<A>(s: Seq<A>, x: A, k: A)
    ensures
        s.push(x).contains(k) <==> (s.contains(k) || k == x),
{
    assert(s.push(x)[s.len() as int] == x);
    if s.contains(k) {
        let j = choose|j: int| 0 <= j < s.len() && s[j] == k;
        assert(s.push(x)[j] == k);
    }
    if s.push(x).contains(k) && k != x {
        let j = choose|j: int| 0 <= j < s.push(x).len() && s.push(x)[j] == k;
        assert(j < s.len());
        assert(s[j] == k);
    }
}

/// `dedup` keeps exactly the keys of its input, once each.
pub proof fn lemma_dedup<A>(ks: Seq<A>)
    ensures
        dedup(ks).no_duplicates(),
        forall|k: A| #[trigger] dedup(ks).contains(k) <==> ks.contains(k),
    decreases ks.len(),
{
    if ks.len() > 0 {
        let d = ks.drop_last();
        lemma_dedup(d);
        let rest = dedup(d);
        let last = ks.last();
        assert(ks =~= d.push(last));
        assert forall|k: A| #[trigger] dedup(ks).contains(k) <==> ks.contains(k) by {
            lemma_contains_push(d, last, k);
            if !rest.contains(last) {
                lemma_contains_push(rest, last, k);
            }
        }
        if !rest.contains(last) {
            assert forall|i: int, j: int|
                0 <= i < dedup(ks).len() && 0 <= j < dedup(ks).len() && i != j implies dedup(
                ks,
            )[i] != dedup(ks)[j] by {
                let out = dedup(ks);
                assert(out == rest.push(last));
                if i < rest.len() && j < rest.len() {
                    assert(out[i] == rest[i] && out[j] == rest[j]);
                } else if i == rest.len() {
                    assert(out[j] == rest[j]);
                    assert(rest.contains(rest[j]));
                    assert(out[i] == last);
                } else {
                    assert(out[i] == rest[i]);
                    assert(rest.contains(rest[i]));
                    assert(out[j] == last);
                }
            }
        }
    }
}

/// Appending one play extends `keys_of` by that play's key, if any.
pub proof fn lemma_keys_of_push(s: Seq<PlayRecord>, p: PlayRecord, cat: Category)
    ensures
        keys_of(s.push(p), cat) == match cat_key(cat, p) {
            Option::Some(k) => keys_of(s, cat).push(k),
            Option::None => keys_of(s, cat),
        },
{
    assert(s.push(p).drop_last() =~= s);
    assert(s.push(p).last() == p);
}

/// Appending one play adds its contribution to `sum_line`.
pub proof fn lemma_sum_line_push(s: Seq<PlayRecord>, p: PlayRecord, cat: Category, k: KeyV)
    ensures
        sum_line(s.push(p), cat, k) == line_add(
            sum_line(s, cat, k),
            if cat_key(cat, p) == Option::Some(k) {
                line_of(cat, p)
            } else {
                line_zero()
            },
        ),
{
    assert(s.push(p).drop_last() =~= s);
    assert(s.push(p).last() == p);
}

/// Appending one play leaves the first week of already-seen keys alone and
/// sets it for a key first seen on that play.
pub proof fn lemma_first_week_push(s: Seq<PlayRecord>, p: PlayRecord, cat: Category, k: KeyV)
    ensures
        keys_of(s, cat).contains(k) ==> first_week(s.push(p), cat, k) == first_week(s, cat, k),
        !keys_of(s, cat).contains(k) && cat_key(cat, p) == Option::Some(k) ==> first_week(
            s.push(p),
            cat,
            k,
        ) == p.week,
{
    assert(s.push(p).drop_last() =~= s);
    assert(s.push(p).last() == p);
}

/// A key no selected play carries sums to zero.
pub proof fn lemma_sum_line_absent(s: Seq<PlayRecord>, cat: Category, k: KeyV)
    requires
        !keys_of(s, cat).contains(k),
    ensures
        sum_line(s, cat, k) == line_zero(),
    decreases s.len(),
{
    if s.len() > 0 {
        let d = s.drop_last();
        assert forall|j: int| 0 <= j < keys_of(d, cat).len() implies keys_of(d, cat)[j] != k by {
            if keys_of(d, cat)[j] == k {
                assert(keys_of(s, cat)[j] == k);
            }
        }
        assert(!keys_of(d, cat).contains(k));
        lemma_sum_line_absent(d, cat, k);
        if cat_key(cat, s.last()) == Option::Some(k) {
            assert(keys_of(s, cat).last() == k);
            assert(false);
        }
        lemma_line_add_zero(line_zero());
    }
}

/// The sum over `n` well-formed plays stays within the `n`-play bounds.
pub proof fn lemma_sum_line_within(s: Seq<PlayRecord>, cat: Category, k: KeyV)
    requires
        all_wf(s),
    ensures
        line_within(sum_line(s, cat, k), s.len() as int),
    decreases s.len(),
{
    if s.len() > 0 {
        let d = s.drop_last();
        assert(all_wf(d)) by {
            assert(forall|i: int| 0 <= i < d.len() ==> d[i] == s[i]);
        }
        lemma_sum_line_within(d, cat, k);
        assert(s.last().wf());
        assert(line_within(line_of(cat, s.last()), 1));
        assert(line_within(line_zero(), 0));
    }
}

/// Growing the play budget keeps a line within bounds.
pub proof fn lemma_line_within_widen(l: LineV, n: int, m: int)
    requires
        line_within(l, n),
        n <= m,
    ensures
        line_within(l, m),
{
}

/// Finds the row holding key `k`, if any.
pub fn find_row(rows: &Vec<CatRow>, k: &RowKey) -> (r: Option<usize>)
    ensures
        match r {
            Option::Some(j) => j < rows@.len() && rows@[j as int].key@ == k@,
            Option::None => !keys_of_rows(rows@).contains(k@),
        },
{
    proof {
        lemma_keys_of_rows(rows@);
    }
    let n = rows.len();
    let mut j: usize = 0;
    while j < n
        invariant
            n == rows@.len(),
            j <= n,
            forall|m: int| 0 <= m < j ==> (#[trigger] rows@[m]).key@ != k@,
        decreases n - j,
    {
        if key_eq(&rows[j].key, k) {
            return Option::Some(j);
        }
        j = j + 1;
    }
    proof {
        lemma_keys_of_rows(rows@);
        assert forall|m: int| 0 <= m < keys_of_rows(rows@).len() implies keys_of_rows(rows@)[m]
            != k@ by {
            assert(rows@[m].key@ != k@);
        }
    }
    Option::None
}

/// Groups the plays a category selects by (game, team, player) and sums
/// each group's counters: one pass of the shared aggregation engine.
pub fn aggregate(plays: &Vec<PlayRecord>, cat: Category) -> (rows: Vec<CatRow>)
    requires
        all_wf(plays@),
        plays@.len() <= MAX_PLAYS,
    ensures
        category_table_ok(plays@, cat, rows@),
        rows@.len() <= plays@.len(),
{
    let mut rows: Vec<CatRow> = Vec::new();
    let n = plays.len();
    let mut i: usize = 0;
    while i < n
        invariant
            n == plays@.len(),
            all_wf(plays@),
            n <= MAX_PLAYS,
            i <= n,
            rows@.len() <= i,
            keys_of_rows(rows@) == dedup(keys_of(plays@.take(i as int), cat)),
            forall|j: int|
                0 <= j < rows@.len() ==> (#[trigger] rows@[j]).line@ == sum_line(
                    plays@.take(i as int),
                    cat,
                    rows@[j].key@,
                ),
            forall|j: int|
                0 <= j < rows@.len() ==> (#[trigger] rows@[j]).week == first_week(
                    plays@.take(i as int),
                    cat,
                    rows@[j].key@,
                ),
        decreases n - i,
    {
        let ghost prefix = plays@.take(i as int);
        let ghost play = plays@[i as int];
        proof {
            assert(plays@.take(i as int + 1) =~= prefix.push(play));
        }
        let p = &plays[i];
        match play_key(cat, p) {
            Option::None => {
                proof {
                    lemma_keys_of_push(prefix, play, cat);
                    assert forall|j: int| 0 <= j < rows@.len() implies (#[trigger] rows@[j]).line@
                        == sum_line(prefix.push(play), cat, rows@[j].key@) by {
                        lemma_sum_line_push(prefix, play, cat, rows@[j].key@);
                        lemma_line_add_zero(sum_line(prefix, cat, rows@[j].key@));
                    }
                    assert forall|j: int| 0 <= j < rows@.len() implies (#[trigger] rows@[j]).week
                        == first_week(prefix.push(play), cat, rows@[j].key@) by {
                        lemma_keys_of_rows(rows@);
                        lemma_dedup(keys_of(prefix, cat));
                        assert(keys_of_rows(rows@)[j] == rows@[j].key@);
                        assert(keys_of_rows(rows@).contains(rows@[j].key@));
                        assert(keys_of(prefix, cat).contains(rows@[j].key@));
                        lemma_first_week_push(prefix, play, cat, rows@[j].key@);
                    }
                }
            },
            Option::Some(k) => {
                let ghost kv = k@;
                let line = play_line(cat, p);
                proof {
                    lemma_keys_of_push(prefix, play, cat);
                    lemma_dedup(keys_of(prefix, cat));
                    lemma_keys_of_rows(rows@);
                }
                match find_row(&rows, &k) {
                    Option::Some(j) => {
                        proof {
                            // the key is already present: the key column and
                            // every other row's sum are unchanged
                            lemma_keys_of_rows(rows@);
                            assert(keys_of_rows(rows@)[j as int] == kv);
                            assert(keys_of_rows(rows@).contains(kv));
                            assert(dedup(keys_of(prefix, cat)).contains(kv));
                            assert(keys_of(prefix, cat).contains(kv));
                            assert(keys_of(prefix, cat).push(kv).drop_last() =~= keys_of(
                                prefix,
                                cat,
                            ));
                            assert(dedup(keys_of(prefix.push(play), cat)) == dedup(
                                keys_of(prefix, cat),
                            ));
                            lemma_sum_line_within(prefix, cat, kv);
                            lemma_line_within_widen(
                                sum_line(prefix, cat, kv),
                                prefix.len() as int,
                                MAX_PLAYS as int,
                            );
                            assert(line_within(line_of(cat, play), 1)) by {
                                assert(play.wf());
                            }
                        }
                        let newline = add_lines(&rows[j].line, &line);
                        let ghost old_rows = rows@;
                        rows[j].line = newline;
                        proof {
                            assert(rows@.len() == old_rows.len());
                            assert(forall|m: int|
                                0 <= m < rows@.len() && m != j ==> rows@[m] == old_rows[m]);
                            assert(rows@[j as int].key == old_rows[j as int].key);
                            lemma_keys_of_rows(rows@);
                            lemma_keys_of_rows(old_rows);
                            assert forall|m: int|
                                0 <= m < rows@.len() implies keys_of_rows(rows@)[m]
                                == keys_of_rows(old_rows)[m] by {
                                assert(keys_of_rows(rows@)[m] == rows@[m].key@);
                                assert(keys_of_rows(old_rows)[m] == old_rows[m].key@);
                            }
                            assert(keys_of_rows(rows@) =~= keys_of_rows(old_rows));
                            assert forall|m: int| 0 <= m < rows@.len() implies (#[trigger] rows@[m]).line@
                                == sum_line(prefix.push(play), cat, rows@[m].key@) by {
                                lemma_sum_line_push(prefix, play, cat, rows@[m].key@);
                                if m == j {
                                    assert(rows@[m].key@ == kv);
                                } else {
                                    // distinct keys: this row is not the played key
                                    lemma_dedup(keys_of(prefix, cat));
                                    assert(keys_of_rows(old_rows).no_duplicates());
                                    assert(keys_of_rows(old_rows)[m] == old_rows[m].key@);
                                    assert(keys_of_rows(old_rows)[j as int] == kv);
                                    assert(rows@[m].key@ != kv);
                                    lemma_line_add_zero(sum_line(prefix, cat, rows@[m].key@));
                                }
                            }
                            assert forall|m: int| 0 <= m < rows@.len() implies (#[trigger] rows@[m]).week
                                == first_week(prefix.push(play), cat, rows@[m].key@) by {
                                assert(keys_of_rows(old_rows)[m] == old_rows[m].key@);
                                assert(rows@[m].key@ == old_rows[m].key@);
                                assert(keys_of_rows(old_rows).contains(old_rows[m].key@));
                                lemma_dedup(keys_of(prefix, cat));
                                assert(keys_of(prefix, cat).contains(rows@[m].key@));
                                lemma_first_week_push(prefix, play, cat, rows@[m].key@);
                            }
                        }
                    },
                    Option::None => {
                        proof {
                            assert(!dedup(keys_of(prefix, cat)).contains(kv));
                            assert(!keys_of(prefix, cat).contains(kv));
                            lemma_sum_line_absent(prefix, cat, kv);
                        }
                        let week = p.week;
                        let ghost old_rows = rows@;
                        rows.push(CatRow { key: k, week, line });
                        proof {
                            assert(rows@.drop_last() =~= old_rows);
                            assert(keys_of_rows(rows@) == keys_of_rows(old_rows).push(kv));
                            assert(dedup(keys_of(prefix.push(play), cat)) == dedup(
                                keys_of(prefix, cat),
                            ).push(kv)) by {
                                assert(keys_of(prefix, cat).push(kv).drop_last() =~= keys_of(
                                    prefix,
                                    cat,
                                ));
                            }
                            assert forall|m: int| 0 <= m < rows@.len() implies (#[trigger] rows@[m]).line@
                                == sum_line(prefix.push(play), cat, rows@[m].key@) by {
                                lemma_sum_line_push(prefix, play, cat, rows@[m].key@);
                                if m < rows@.len() - 1 {
                                    assert(rows@[m] == old_rows[m]);
                                    lemma_keys_of_rows(old_rows);
                                    assert(keys_of_rows(old_rows)[m] == old_rows[m].key@);
                                    assert(dedup(keys_of(prefix, cat)).contains(old_rows[m].key@));
                                    lemma_dedup(keys_of(prefix, cat));
                                    assert(old_rows[m].key@ != kv);
                                    lemma_line_add_zero(sum_line(prefix, cat, rows@[m].key@));
                                } else {
                                    assert(rows@[m].key@ == kv);
                                    lemma_line_add_zero(line_of(cat, play));
                                }
                            }
                            assert forall|m: int| 0 <= m < rows@.len() implies (#[trigger] rows@[m]).week
                                == first_week(prefix.push(play), cat, rows@[m].key@) by {
                                if m < rows@.len() - 1 {
                                    assert(rows@[m] == old_rows[m]);
                                    lemma_keys_of_rows(old_rows);
                                    assert(keys_of_rows(old_rows)[m] == old_rows[m].key@);
                                    assert(keys_of_rows(old_rows).contains(old_rows[m].key@));
                                    lemma_dedup(keys_of(prefix, cat));
                                    assert(keys_of(prefix, cat).contains(rows@[m].key@));
                                    lemma_first_week_push(prefix, play, cat, rows@[m].key@);
                                } else {
                                    assert(rows@[m].key@ == kv);
                                    lemma_first_week_push(prefix, play, cat, kv);
                                }
                            }
                        }
                    },
                }
            },
        }
        i = i + 1;
    }
    proof {
        assert(plays@.take(n as int) =~= plays@);
    }
    rows
}

} // verus!

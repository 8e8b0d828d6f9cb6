//! The scoring calculator: a configurable linear point formula with
//! threshold bonuses, applied to every unified stat row.
//!
//! All point values are centipoints (hundredths of a point): `18.4` points
//! is `1840`. The `*_yd_per_point` fields are whole yards per point, so
//! `passing_yd_per_point = 25` awards `4` centipoints per passing yard;
//! fractional centipoints from the yardage division are truncated toward
//! zero. Yardage bonus thresholds are strict (`> 100`); the field-goal
//! distance counters were already formed with inclusive (`>= 40`)
//! thresholds by the kicking aggregation.

use vstd::prelude::*;

use crate::error::Error;
use crate::filter::PbpConstraint;
use crate::filter::PbpFilter;
use crate::merge::cat_view;
use crate::merge::UnifiedStatRow;
use crate::stats::clone_key;
use crate::stats::dedup;
use crate::stats::lemma_dedup;
use crate::MAX_SCORED_ROWS;
use crate::stats::Category;
use crate::stats::LineV;
use crate::stats::StatLine;
use crate::stats::line_within;
use crate::MAX_COEFFICIENT;
use crate::MAX_COUNT_STAT;
use crate::MAX_PLAYS;
use crate::MAX_ROW_POINTS;
use crate::MAX_YARD_STAT;

verus! {

/// A scoring rule set: linear coefficients and bonus values in centipoints,
/// yardage divisors in yards per point. `fumble_recovery_td_points` is kept
/// for profile compatibility but is not applied by the point formula: no
/// play category counts fumble-recovery touchdowns, and which role would
/// score one is left open rather than invented here.
#[derive(Clone, Copy, Debug)]
pub struct Scoring {
    pub passing_yd_per_point: i64,
    pub passing_300yd_bonus: i64,
    pub passing_400yd_bonus: i64,
    pub passing_td_points: i64,
    pub passing_td_50yd_bonus: i64,

    pub rushing_yd_per_point: i64,
    pub rushing_100yd_bonus: i64,
    pub rushing_200yd_bonus: i64,
    pub rushing_td_points: i64,
    pub rushing_td_50yd_bonus: i64,

    pub reception_points: i64,
    pub receiving_yd_per_point: i64,
    pub receiving_100yd_bonus: i64,
    pub receiving_200yd_bonus: i64,
    pub receiving_td_points: i64,
    pub receiving_td_50yd_bonus: i64,

    pub fumble_recovery_td_points: i64,
    pub return_td_points: i64,

    pub interception_points: i64,
    pub fumble_lost_points: i64,
    pub two_point_conversion_points: i64,
    pub fg_made_points: i64,
    pub fg_made_40yd_bonus: i64,
    pub fg_made_50yd_bonus: i64,
    pub pat_made_points: i64,
}

impl Scoring {
    /// A usable rule set: positive yardage divisors and coefficients small
    /// enough that every 64-bit point computation stays exact.
    pub open spec fn wf(self) -> bool {
        &&& 1 <= self.passing_yd_per_point <= MAX_COEFFICIENT
        &&& 1 <= self.rushing_yd_per_point <= MAX_COEFFICIENT
        &&& 1 <= self.receiving_yd_per_point <= MAX_COEFFICIENT
        &&& -MAX_COEFFICIENT <= self.passing_300yd_bonus <= MAX_COEFFICIENT
        &&& -MAX_COEFFICIENT <= self.passing_400yd_bonus <= MAX_COEFFICIENT
        &&& -MAX_COEFFICIENT <= self.passing_td_points <= MAX_COEFFICIENT
        &&& -MAX_COEFFICIENT <= self.passing_td_50yd_bonus <= MAX_COEFFICIENT
        &&& -MAX_COEFFICIENT <= self.rushing_100yd_bonus <= MAX_COEFFICIENT
        &&& -MAX_COEFFICIENT <= self.rushing_200yd_bonus <= MAX_COEFFICIENT
        &&& -MAX_COEFFICIENT <= self.rushing_td_points <= MAX_COEFFICIENT
        &&& -MAX_COEFFICIENT <= self.rushing_td_50yd_bonus <= MAX_COEFFICIENT
        &&& -MAX_COEFFICIENT <= self.reception_points <= MAX_COEFFICIENT
        &&& -MAX_COEFFICIENT <= self.receiving_100yd_bonus <= MAX_COEFFICIENT
        &&& -MAX_COEFFICIENT <= self.receiving_200yd_bonus <= MAX_COEFFICIENT
        &&& -MAX_COEFFICIENT <= self.receiving_td_points <= MAX_COEFFICIENT
        &&& -MAX_COEFFICIENT <= self.receiving_td_50yd_bonus <= MAX_COEFFICIENT
        &&& -MAX_COEFFICIENT <= self.fumble_recovery_td_points <= MAX_COEFFICIENT
        &&& -MAX_COEFFICIENT <= self.return_td_points <= MAX_COEFFICIENT
        &&& -MAX_COEFFICIENT <= self.interception_points <= MAX_COEFFICIENT
        &&& -MAX_COEFFICIENT <= self.fumble_lost_points <= MAX_COEFFICIENT
        &&& -MAX_COEFFICIENT <= self.two_point_conversion_points <= MAX_COEFFICIENT
        &&& -MAX_COEFFICIENT <= self.fg_made_points <= MAX_COEFFICIENT
        &&& -MAX_COEFFICIENT <= self.fg_made_40yd_bonus <= MAX_COEFFICIENT
        &&& -MAX_COEFFICIENT <= self.fg_made_50yd_bonus <= MAX_COEFFICIENT
        &&& -MAX_COEFFICIENT <= self.pat_made_points <= MAX_COEFFICIENT
    }

    /// The full-point-per-reception preset.
    pub open spec fn ppr_spec() -> Scoring {
        Scoring {
            passing_yd_per_point: 25,
            passing_td_points: 400,
            interception_points: -200i64,
            rushing_yd_per_point: 10,
            rushing_td_points: 600,
            reception_points: 100,
            receiving_yd_per_point: 10,
            receiving_td_points: 600,
            fumble_lost_points: -200i64,
            two_point_conversion_points: 200,
            fg_made_points: 300,
            pat_made_points: 100,
            passing_300yd_bonus: 0,
            passing_400yd_bonus: 0,
            passing_td_50yd_bonus: 0,
            rushing_100yd_bonus: 0,
            rushing_200yd_bonus: 0,
            rushing_td_50yd_bonus: 0,
            receiving_100yd_bonus: 0,
            receiving_200yd_bonus: 0,
            receiving_td_50yd_bonus: 0,
            fumble_recovery_td_points: 600,
            return_td_points: 600,
            fg_made_40yd_bonus: 0,
            fg_made_50yd_bonus: 0,
        }
    }

    /// The half-point-per-reception preset: `ppr` with half the reception
    /// points.
    pub open spec fn half_ppr_spec() -> Scoring {
        Scoring { reception_points: 50, ..Self::ppr_spec() }
    }

    /// The no-point-per-reception preset: `ppr` with no reception points.
    pub open spec fn no_ppr_spec() -> Scoring {
        Scoring { reception_points: 0, ..Self::ppr_spec() }
    }

    /// Builds the PPR preset: one full point per reception.
    pub fn ppr() -> (r: Self)
        ensures
            r == Self::ppr_spec(),
            r.wf(),
    {
        Scoring {
            passing_yd_per_point: 25,
            passing_td_points: 400,
            interception_points: -200,
            rushing_yd_per_point: 10,
            rushing_td_points: 600,
            reception_points: 100,
            receiving_yd_per_point: 10,
            receiving_td_points: 600,
            fumble_lost_points: -200,
            two_point_conversion_points: 200,
            fg_made_points: 300,
            pat_made_points: 100,
            passing_300yd_bonus: 0,
            passing_400yd_bonus: 0,
            passing_td_50yd_bonus: 0,
            rushing_100yd_bonus: 0,
            rushing_200yd_bonus: 0,
            rushing_td_50yd_bonus: 0,
            receiving_100yd_bonus: 0,
            receiving_200yd_bonus: 0,
            receiving_td_50yd_bonus: 0,
            fumble_recovery_td_points: 600,
            return_td_points: 600,
            fg_made_40yd_bonus: 0,
            fg_made_50yd_bonus: 0,
        }
    }

    /// Builds the half-PPR preset: half a point per reception.
    pub fn half_ppr() -> (r: Self)
        ensures
            r == Self::half_ppr_spec(),
            r.wf(),
    {
        let mut scoring = Self::ppr();
        scoring.reception_points = 50;
        scoring
    }

    /// Builds the no-PPR preset: nothing per reception.
    pub fn no_ppr() -> (r: Self)
        ensures
            r == Self::no_ppr_spec(),
            r.wf(),
    {
        let mut scoring = Self::ppr();
        scoring.reception_points = 0;
        scoring
    }
}

/// Centipoints a yardage total earns at `yd_per_point` yards per point,
/// truncated toward zero.
pub open spec fn yard_points(yards: int, yd_per_point: int) -> int
    recommends
        yd_per_point >= 1,
{
    if yards >= 0 {
        (yards * 100) / yd_per_point
    } else {
        -(((-yards) * 100) / yd_per_point)
    }
}

/// Points of the passing counters, zero when the category is absent.
pub open spec fn passing_points(o: Option<LineV>, s: Scoring) -> int {
    match o {
        Option::None => 0,
        Option::Some(l) => yard_points(l.passing_yards, s.passing_yd_per_point as int)
            + l.pass_touchdowns * s.passing_td_points + l.interceptions * s.interception_points
            + l.passing_50yd_td * s.passing_td_50yd_bonus + (if l.passing_yards > 300 {
            s.passing_300yd_bonus as int
        } else {
            0
        }) + (if l.passing_yards > 400 {
            s.passing_400yd_bonus as int
        } else {
            0
        }),
    }
}

/// Points of the receiving counters except the two-point conversions,
/// which the merged row coalesces across categories.
pub open spec fn receiving_points(o: Option<LineV>, s: Scoring) -> int {
    match o {
        Option::None => 0,
        Option::Some(l) => l.receptions * s.reception_points + yard_points(
            l.receiving_yards,
            s.receiving_yd_per_point as int,
        ) + l.receiving_touchdowns * s.receiving_td_points + l.receiving_50yd_td
            * s.receiving_td_50yd_bonus + (if l.receiving_yards > 100 {
            s.receiving_100yd_bonus as int
        } else {
            0
        }) + (if l.receiving_yards > 200 {
            s.receiving_200yd_bonus as int
        } else {
            0
        }),
    }
}

/// Points of the rushing counters except the two-point conversions.
pub open spec fn rushing_points(o: Option<LineV>, s: Scoring) -> int {
    match o {
        Option::None => 0,
        Option::Some(l) => yard_points(l.rushing_yards, s.rushing_yd_per_point as int)
            + l.rush_touchdowns * s.rushing_td_points + l.rushing_50yd_td
            * s.rushing_td_50yd_bonus + (if l.rushing_yards > 100 {
            s.rushing_100yd_bonus as int
        } else {
            0
        }) + (if l.rushing_yards > 200 {
            s.rushing_200yd_bonus as int
        } else {
            0
        }),
    }
}

/// Points of the fumbling counters.
pub open spec fn fumbling_points(o: Option<LineV>, s: Scoring) -> int {
    match o {
        Option::None => 0,
        Option::Some(l) => l.fumbles_lost * s.fumble_lost_points,
    }
}

/// Points of the kicking counters.
pub open spec fn kicking_points(o: Option<LineV>, s: Scoring) -> int {
    match o {
        Option::None => 0,
        Option::Some(l) => l.fg_made * s.fg_made_points + l.pat_made * s.pat_made_points
            + l.fg_40plus_made * s.fg_made_40yd_bonus + l.fg_50plus_made * s.fg_made_50yd_bonus,
    }
}

/// Points of the returning counters.
pub open spec fn returning_points(o: Option<LineV>, s: Scoring) -> int {
    match o {
        Option::None => 0,
        Option::Some(l) => l.td_returns * s.return_td_points,
    }
}

/// The two-point conversion count of a merged row: the receiving table's
/// column wins the column coalesce over the rushing table's, absent counts
/// as zero.
pub open spec fn two_pt_value(r: UnifiedStatRow) -> int {
    match cat_view(r, Category::Receiving) {
        Option::Some(l) => l.two_pt_conv_made,
        Option::None => match cat_view(r, Category::Rushing) {
            Option::Some(l) => l.two_pt_conv_made,
            Option::None => 0,
        },
    }
}

/// The fantasy points of one merged row in centipoints: every counter of
/// an absent category reads as zero, never as an error.
pub open spec fn spec_points(r: UnifiedStatRow, s: Scoring) -> int {
    passing_points(cat_view(r, Category::Passing), s) + receiving_points(
        cat_view(r, Category::Receiving),
        s,
    ) + rushing_points(cat_view(r, Category::Rushing), s) + fumbling_points(
        cat_view(r, Category::Fumbling),
        s,
    ) + kicking_points(cat_view(r, Category::Kicking), s) + returning_points(
        cat_view(r, Category::Returning),
        s,
    ) + two_pt_value(r) * s.two_point_conversion_points
}

/// Every category's counters the row carries are sums over at most
/// `MAX_PLAYS` well-formed plays.
pub open spec fn row_bounded(r: UnifiedStatRow) -> bool {
    forall|c: Category|
        match #[trigger] cat_view(r, c) {
            Option::Some(l) => line_within(l, MAX_PLAYS as int),
            Option::None => true,
        }
}

/// A product of a bounded counter and a bounded coefficient is bounded.
proof fn lemma_mul_bound(a: int, b: int, ma: int, mb: int)
    requires
        -ma <= a <= ma,
        -mb <= b <= mb,
        0 <= ma,
        0 <= mb,
    ensures
        -(ma * mb) <= a * b <= ma * mb,
{
    assert(-(ma * mb) <= a * b <= ma * mb) by (nonlinear_arith)
        requires
            -ma <= a <= ma,
            -mb <= b <= mb,
            0 <= ma,
            0 <= mb,
    ;
}

/// Yardage points are bounded by a hundred times the yardage magnitude.
proof fn lemma_yard_points_bound(yards: int, d: int)
    requires
        -MAX_YARD_STAT <= yards <= MAX_YARD_STAT,
        1 <= d,
    ensures
        -(MAX_YARD_STAT * 100) <= yard_points(yards, d) <= MAX_YARD_STAT * 100,
{
    if yards >= 0 {
        assert(0 <= (yards * 100) / d <= yards * 100) by (nonlinear_arith)
            requires
                yards >= 0,
                d >= 1,
        ;
    } else {
        assert(0 <= ((-yards) * 100) / d <= (-yards) * 100) by (nonlinear_arith)
            requires
                yards < 0,
                d >= 1,
        ;
    }
}

/// The point formula stays far within 64-bit range on bounded rows.
pub proof fn lemma_spec_points_bound(r: UnifiedStatRow, s: Scoring)
    requires
        s.wf(),
        row_bounded(r),
    ensures
        -MAX_ROW_POINTS <= spec_points(r, s) <= MAX_ROW_POINTS,
{
    lemma_cat_points_bound(cat_view(r, Category::Passing), s);
    lemma_cat_points_bound(cat_view(r, Category::Receiving), s);
    lemma_cat_points_bound(cat_view(r, Category::Rushing), s);
    lemma_cat_points_bound(cat_view(r, Category::Fumbling), s);
    lemma_cat_points_bound(cat_view(r, Category::Kicking), s);
    lemma_cat_points_bound(cat_view(r, Category::Returning), s);
    lemma_mul_bound(
        two_pt_value(r),
        s.two_point_conversion_points as int,
        MAX_COUNT_STAT as int,
        MAX_COEFFICIENT as int,
    );
}

/// Each category contribution is bounded on a bounded line.
proof fn lemma_cat_points_bound(o: Option<LineV>, s: Scoring)
    requires
        s.wf(),
        match o {
            Option::Some(l) => line_within(l, MAX_PLAYS as int),
            Option::None => true,
        },
    ensures
        -(MAX_YARD_STAT * 100 + 6 * MAX_COUNT_STAT * MAX_COEFFICIENT) <= passing_points(o, s)
            <= MAX_YARD_STAT * 100 + 6 * MAX_COUNT_STAT * MAX_COEFFICIENT,
        -(MAX_YARD_STAT * 100 + 6 * MAX_COUNT_STAT * MAX_COEFFICIENT) <= receiving_points(o, s)
            <= MAX_YARD_STAT * 100 + 6 * MAX_COUNT_STAT * MAX_COEFFICIENT,
        -(MAX_YARD_STAT * 100 + 6 * MAX_COUNT_STAT * MAX_COEFFICIENT) <= rushing_points(o, s)
            <= MAX_YARD_STAT * 100 + 6 * MAX_COUNT_STAT * MAX_COEFFICIENT,
        -(MAX_YARD_STAT * 100 + 6 * MAX_COUNT_STAT * MAX_COEFFICIENT) <= fumbling_points(o, s)
            <= MAX_YARD_STAT * 100 + 6 * MAX_COUNT_STAT * MAX_COEFFICIENT,
        -(MAX_YARD_STAT * 100 + 6 * MAX_COUNT_STAT * MAX_COEFFICIENT) <= kicking_points(o, s)
            <= MAX_YARD_STAT * 100 + 6 * MAX_COUNT_STAT * MAX_COEFFICIENT,
        -(MAX_YARD_STAT * 100 + 6 * MAX_COUNT_STAT * MAX_COEFFICIENT) <= returning_points(o, s)
            <= MAX_YARD_STAT * 100 + 6 * MAX_COUNT_STAT * MAX_COEFFICIENT,
{
    match o {
        Option::None => {},
        Option::Some(l) => {
            lemma_yard_points_bound(l.passing_yards, s.passing_yd_per_point as int);
            lemma_yard_points_bound(l.receiving_yards, s.receiving_yd_per_point as int);
            lemma_yard_points_bound(l.rushing_yards, s.rushing_yd_per_point as int);
            lemma_mul_bound(
                l.pass_touchdowns,
                s.passing_td_points as int,
                MAX_COUNT_STAT as int,
                MAX_COEFFICIENT as int,
            );
            lemma_mul_bound(
                l.interceptions,
                s.interception_points as int,
                MAX_COUNT_STAT as int,
                MAX_COEFFICIENT as int,
            );
            lemma_mul_bound(
                l.passing_50yd_td,
                s.passing_td_50yd_bonus as int,
                MAX_COUNT_STAT as int,
                MAX_COEFFICIENT as int,
            );
            lemma_mul_bound(
                l.receptions,
                s.reception_points as int,
                MAX_COUNT_STAT as int,
                MAX_COEFFICIENT as int,
            );
            lemma_mul_bound(
                l.receiving_touchdowns,
                s.receiving_td_points as int,
                MAX_COUNT_STAT as int,
                MAX_COEFFICIENT as int,
            );
            lemma_mul_bound(
                l.receiving_50yd_td,
                s.receiving_td_50yd_bonus as int,
                MAX_COUNT_STAT as int,
                MAX_COEFFICIENT as int,
            );
            lemma_mul_bound(
                l.rush_touchdowns,
                s.rushing_td_points as int,
                MAX_COUNT_STAT as int,
                MAX_COEFFICIENT as int,
            );
            lemma_mul_bound(
                l.rushing_50yd_td,
                s.rushing_td_50yd_bonus as int,
                MAX_COUNT_STAT as int,
                MAX_COEFFICIENT as int,
            );
            lemma_mul_bound(
                l.fumbles_lost,
                s.fumble_lost_points as int,
                MAX_COUNT_STAT as int,
                MAX_COEFFICIENT as int,
            );
            lemma_mul_bound(
                l.fg_made,
                s.fg_made_points as int,
                MAX_COUNT_STAT as int,
                MAX_COEFFICIENT as int,
            );
            lemma_mul_bound(
                l.pat_made,
                s.pat_made_points as int,
                MAX_COUNT_STAT as int,
                MAX_COEFFICIENT as int,
            );
            lemma_mul_bound(
                l.fg_40plus_made,
                s.fg_made_40yd_bonus as int,
                MAX_COUNT_STAT as int,
                MAX_COEFFICIENT as int,
            );
            lemma_mul_bound(
                l.fg_50plus_made,
                s.fg_made_50yd_bonus as int,
                MAX_COUNT_STAT as int,
                MAX_COEFFICIENT as int,
            );
            lemma_mul_bound(
                l.td_returns,
                s.return_td_points as int,
                MAX_COUNT_STAT as int,
                MAX_COEFFICIENT as int,
            );
        },
    }
}

/// Centipoints of a yardage total, truncated toward zero.
fn yard_points_exec(yards: i64, d: i64) -> (r: i64)
    requires
        -MAX_YARD_STAT <= yards <= MAX_YARD_STAT,
        1 <= d <= MAX_COEFFICIENT,
    ensures
        r as int == yard_points(yards as int, d as int),
        -(MAX_YARD_STAT * 100) <= r <= MAX_YARD_STAT * 100,
{
    proof {
        lemma_yard_points_bound(yards as int, d as int);
    }
    if yards >= 0 {
        let q: u64 = ((yards * 100) as u64) / (d as u64);
        q as i64
    } else {
        let q: u64 = (((-yards) * 100) as u64) / (d as u64);
        -(q as i64)
    }
}

/// Product of an event counter and a coefficient.
fn term(count: i64, coef: i64) -> (r: i64)
    requires
        0 <= count <= MAX_COUNT_STAT,
        -MAX_COEFFICIENT <= coef <= MAX_COEFFICIENT,
    ensures
        r as int == count * coef,
        -(MAX_COUNT_STAT * MAX_COEFFICIENT) <= r <= MAX_COUNT_STAT * MAX_COEFFICIENT,
{
    proof {
        lemma_mul_bound(count as int, coef as int, MAX_COUNT_STAT as int, MAX_COEFFICIENT as int);
    }
    count * coef
}

/// The counters of an optional category line.
pub open spec fn opt_line_view(o: Option<StatLine>) -> Option<LineV> {
    match o {
        Option::Some(l) => Option::Some(l@),
        Option::None => Option::None,
    }
}

/// Points of the passing counters of a merged row.
fn passing_pts_exec(o: &Option<StatLine>, s: &Scoring) -> (r: i64)
    requires
        s.wf(),
        match *o {
            Option::Some(l) => line_within(l@, MAX_PLAYS as int),
            Option::None => true,
        },
    ensures
        r as int == passing_points(opt_line_view(*o), *s),
        -(MAX_YARD_STAT * 100 + 6 * MAX_COUNT_STAT * MAX_COEFFICIENT) <= r <= MAX_YARD_STAT * 100
            + 6 * MAX_COUNT_STAT * MAX_COEFFICIENT,
{
    proof {
        lemma_cat_points_bound(opt_line_view(*o), *s);
    }
    match o {
        Option::None => 0,
        Option::Some(l) => {
            let mut c: i64 = yard_points_exec(l.passing_yards, s.passing_yd_per_point);
            c = c + term(l.pass_touchdowns, s.passing_td_points);
            c = c + term(l.interceptions, s.interception_points);
            c = c + term(l.passing_50yd_td, s.passing_td_50yd_bonus);
            if l.passing_yards > 300 {
                c = c + s.passing_300yd_bonus;
            }
            if l.passing_yards > 400 {
                c = c + s.passing_400yd_bonus;
            }
            c
        },
    }
}

/// Points of the receiving counters except the coalesced two-point
/// conversions.
fn receiving_pts_exec(o: &Option<StatLine>, s: &Scoring) -> (r: i64)
    requires
        s.wf(),
        match *o {
            Option::Some(l) => line_within(l@, MAX_PLAYS as int),
            Option::None => true,
        },
    ensures
        r as int == receiving_points(opt_line_view(*o), *s),
        -(MAX_YARD_STAT * 100 + 6 * MAX_COUNT_STAT * MAX_COEFFICIENT) <= r <= MAX_YARD_STAT * 100
            + 6 * MAX_COUNT_STAT * MAX_COEFFICIENT,
{
    proof {
        lemma_cat_points_bound(opt_line_view(*o), *s);
    }
    match o {
        Option::None => 0,
        Option::Some(l) => {
            let mut c: i64 = term(l.receptions, s.reception_points);
            c = c + yard_points_exec(l.receiving_yards, s.receiving_yd_per_point);
            c = c + term(l.receiving_touchdowns, s.receiving_td_points);
            c = c + term(l.receiving_50yd_td, s.receiving_td_50yd_bonus);
            if l.receiving_yards > 100 {
                c = c + s.receiving_100yd_bonus;
            }
            if l.receiving_yards > 200 {
                c = c + s.receiving_200yd_bonus;
            }
            c
        },
    }
}

/// Points of the rushing counters except the coalesced two-point
/// conversions.
fn rushing_pts_exec(o: &Option<StatLine>, s: &Scoring) -> (r: i64)
    requires
        s.wf(),
        match *o {
            Option::Some(l) => line_within(l@, MAX_PLAYS as int),
            Option::None => true,
        },
    ensures
        r as int == rushing_points(opt_line_view(*o), *s),
        -(MAX_YARD_STAT * 100 + 6 * MAX_COUNT_STAT * MAX_COEFFICIENT) <= r <= MAX_YARD_STAT * 100
            + 6 * MAX_COUNT_STAT * MAX_COEFFICIENT,
{
    proof {
        lemma_cat_points_bound(opt_line_view(*o), *s);
    }
    match o {
        Option::None => 0,
        Option::Some(l) => {
            let mut c: i64 = yard_points_exec(l.rushing_yards, s.rushing_yd_per_point);
            c = c + term(l.rush_touchdowns, s.rushing_td_points);
            c = c + term(l.rushing_50yd_td, s.rushing_td_50yd_bonus);
            if l.rushing_yards > 100 {
                c = c + s.rushing_100yd_bonus;
            }
            if l.rushing_yards > 200 {
                c = c + s.rushing_200yd_bonus;
            }
            c
        },
    }
}

/// Points of the kicking counters.
fn kicking_pts_exec(o: &Option<StatLine>, s: &Scoring) -> (r: i64)
    requires
        s.wf(),
        match *o {
            Option::Some(l) => line_within(l@, MAX_PLAYS as int),
            Option::None => true,
        },
    ensures
        r as int == kicking_points(opt_line_view(*o), *s),
        -(MAX_YARD_STAT * 100 + 6 * MAX_COUNT_STAT * MAX_COEFFICIENT) <= r <= MAX_YARD_STAT * 100
            + 6 * MAX_COUNT_STAT * MAX_COEFFICIENT,
{
    proof {
        lemma_cat_points_bound(opt_line_view(*o), *s);
    }
    match o {
        Option::None => 0,
        Option::Some(l) => {
            let mut c: i64 = term(l.fg_made, s.fg_made_points);
            c = c + term(l.pat_made, s.pat_made_points);
            c = c + term(l.fg_40plus_made, s.fg_made_40yd_bonus);
            c = c + term(l.fg_50plus_made, s.fg_made_50yd_bonus);
            c
        },
    }
}

/// The fantasy points of one merged row, in centipoints.
pub fn score_row(r: &UnifiedStatRow, s: &Scoring) -> (pts: i64)
    requires
        s.wf(),
        row_bounded(*r),
    ensures
        pts as int == spec_points(*r, *s),
        -MAX_ROW_POINTS <= pts <= MAX_ROW_POINTS,
{
    proof {
        lemma_spec_points_bound(*r, *s);
        lemma_cat_points_bound(cat_view(*r, Category::Fumbling), *s);
        lemma_cat_points_bound(cat_view(*r, Category::Returning), *s);
        assert(cat_view(*r, Category::Passing) == opt_line_view(r.passing));
        assert(cat_view(*r, Category::Receiving) == opt_line_view(r.receiving));
        assert(cat_view(*r, Category::Rushing) == opt_line_view(r.rushing));
        assert(cat_view(*r, Category::Kicking) == opt_line_view(r.kicking));
    }
    let mut pts: i64 = passing_pts_exec(&r.passing, s);
    pts = pts + receiving_pts_exec(&r.receiving, s);
    pts = pts + rushing_pts_exec(&r.rushing, s);
    pts = pts + kicking_pts_exec(&r.kicking, s);
    if let Option::Some(l) = &r.fumbling {
        proof {
            assert(cat_view(*r, Category::Fumbling) == Option::Some(l@));
        }
        pts = pts + term(l.fumbles_lost, s.fumble_lost_points);
    }
    if let Option::Some(l) = &r.returning {
        proof {
            assert(cat_view(*r, Category::Returning) == Option::Some(l@));
        }
        pts = pts + term(l.td_returns, s.return_td_points);
    }
    let two_pt: i64 = match &r.receiving {
        Option::Some(l) => l.two_pt_conv_made,
        Option::None => match &r.rushing {
            Option::Some(l) => l.two_pt_conv_made,
            Option::None => 0,
        },
    };
    proof {
        assert(two_pt as int == two_pt_value(*r));
        assert(cat_view(*r, Category::Receiving) matches Option::Some(l) ==> line_within(
            l,
            MAX_PLAYS as int,
        ));
        assert(cat_view(*r, Category::Rushing) matches Option::Some(l) ==> line_within(
            l,
            MAX_PLAYS as int,
        ));
    }
    pts = pts + term(two_pt, s.two_point_conversion_points);
    pts
}

/// Rows that carry a fantasy point total and are ranked by it.
pub trait Ranked: Sized {
    /// The row's fantasy points, in centipoints.
    spec fn pts(&self) -> int;

    /// Reads the row's fantasy points.
    fn points(&self) -> (r: i64)
        ensures
            r as int == self.pts(),
    ;
}

/// A unified stat row plus its derived fantasy points, in centipoints.
pub struct FantasyScoreRow {
    pub row: UnifiedStatRow,
    pub fantasy_points: i64,
}

impl Ranked for FantasyScoreRow {
    open spec fn pts(&self) -> int {
        self.fantasy_points as int
    }

    fn points(&self) -> i64 {
        self.fantasy_points
    }
}

/// Sorted by fantasy points, highest first.
pub open spec fn sorted_desc<T: Ranked>(s: Seq<T>) -> bool {
    forall|i: int, j: int|
        #![trigger s[i].pts(), s[j].pts()]
        0 <= i <= j < s.len() ==> s[i].pts() >= s[j].pts()
}

/// The subsequence of rows scoring exactly `p` centipoints, in order.
pub open spec fn filter_pts<T: Ranked>(s: Seq<T>, p: int) -> Seq<T>
    decreases s.len(),
{
    if s.len() == 0 {
        Seq::empty()
    } else if s.last().pts() == p {
        filter_pts(s.drop_last(), p).push(s.last())
    } else {
        filter_pts(s.drop_last(), p)
    }
}

/// Appending a row extends at most its own point class.
pub proof fn lemma_filter_pts_push<T: Ranked>(s: Seq<T>, x: T, p: int)
    ensures
        filter_pts(s.push(x), p) == if x.pts() == p {
            filter_pts(s, p).push(x)
        } else {
            filter_pts(s, p)
        },
{
    assert(s.push(x).drop_last() =~= s);
    assert(s.push(x).last() == x);
}

/// Point classes distribute over concatenation.
pub proof fn lemma_filter_pts_concat<T: Ranked>(a: Seq<T>, b: Seq<T>, p: int)
    ensures
        filter_pts(a + b, p) == filter_pts(a, p) + filter_pts(b, p),
    decreases b.len(),
{
    if b.len() == 0 {
        assert(a + b =~= a);
        assert(filter_pts(a, p) + filter_pts(b, p) =~= filter_pts(a, p));
    } else {
        lemma_filter_pts_concat(a, b.drop_last(), p);
        assert((a + b).drop_last() =~= a + b.drop_last());
        assert((a + b).last() == b.last());
        if b.last().pts() == p {
            assert(filter_pts(a, p) + filter_pts(b.drop_last(), p).push(b.last()) =~= (filter_pts(
                a,
                p,
            ) + filter_pts(b.drop_last(), p)).push(b.last()));
        }
    }
}

/// A sequence without rows of point value `p` has an empty point class.
pub proof fn lemma_filter_pts_none<T: Ranked>(s: Seq<T>, p: int)
    requires
        forall|i: int| 0 <= i < s.len() ==> (#[trigger] s[i]).pts() != p,
    ensures
        filter_pts(s, p) == Seq::<T>::empty(),
    decreases s.len(),
{
    if s.len() > 0 {
        assert(forall|i: int| 0 <= i < s.drop_last().len() ==> s.drop_last()[i] == s[i]);
        lemma_filter_pts_none(s.drop_last(), p);
        assert(s[s.len() - 1].pts() != p);
    }
}

/// Stable insertion sort by fantasy points, highest first: rows with equal
/// points keep their relative order, stated as the preservation of every
/// point class.
pub fn sort_desc_rows<T: Ranked>(input: Vec<T>) -> (out: Vec<T>)
    ensures
        sorted_desc(out@),
        out@.to_multiset() == input@.to_multiset(),
        forall|p: int| #[trigger] filter_pts(out@, p) == filter_pts(input@, p),
{
    broadcast use vstd::seq_lib::group_to_multiset_ensures;

    let ghost orig = input@;
    let mut rest = input;
    let mut out: Vec<T> = Vec::new();
    proof {
        assert(orig.take(0) =~= Seq::<T>::empty());
        assert forall|p: int| #[trigger] filter_pts(out@, p) == filter_pts(
            orig.take(orig.len() - rest@.len()),
            p,
        ) by {
            assert(orig.take(0) =~= Seq::<T>::empty());
        }
    }
    while rest.len() > 0
        invariant
            rest@.len() <= orig.len(),
            rest@ == orig.skip(orig.len() - rest@.len()),
            sorted_desc(out@),
            out@.len() + rest@.len() == orig.len(),
            out@.to_multiset() == orig.take(orig.len() - rest@.len()).to_multiset(),
            forall|p: int| #[trigger] filter_pts(out@, p) == filter_pts(
                orig.take(orig.len() - rest@.len()),
                p,
            ),
        decreases rest@.len(),
    {
        broadcast use vstd::seq_lib::group_to_multiset_ensures;

        let ghost k = orig.len() - rest@.len();
        proof {
            assert(rest@[0] == orig.skip(k as int)[0]);
            assert(orig.take(k as int + 1) =~= orig.take(k as int).push(orig[k as int]));
        }
        let ghost old_rest = rest@;
        let x = rest.remove(0);
        let ghost xv = x;
        proof {
            assert(rest@ =~= orig.skip(k as int + 1));
            assert(xv == orig[k as int]);
        }
        let xp = x.points();
        let n = out.len();
        let mut j: usize = 0;
        while j < n
            invariant
                n == out@.len(),
                j <= n,
                xp as int == xv.pts(),
                forall|m: int| 0 <= m < j ==> (#[trigger] out@[m]).pts() >= xv.pts(),
            ensures
                j <= out@.len(),
                n == out@.len(),
                forall|m: int| 0 <= m < j ==> (#[trigger] out@[m]).pts() >= xv.pts(),
                j < out@.len() ==> out@[j as int].pts() < xv.pts(),
            decreases n - j,
        {
            if out[j].points() < xp {
                break ;
            }
            j = j + 1;
        }
        let ghost pre = out@;
        out.insert(j, x);
        proof {
            let a = pre.take(j as int);
            let b = pre.skip(j as int);
            assert(pre =~= a + b);
            pre.insert_ensures(j as int, xv);
            assert(out@ =~= a.push(xv) + b);
            // every row past the insertion point scores strictly less
            assert forall|m: int| 0 <= m < b.len() implies (#[trigger] b[m]).pts()
                < xv.pts() by {
                assert(b[m] == pre[j + m]);
                assert(pre[j as int].pts() < xv.pts());
                assert(pre[j as int].pts() >= pre[j + m].pts());
            }
            // sortedness
            assert forall|i1: int, i2: int|
                #![trigger out@[i1].pts(), out@[i2].pts()]
                0 <= i1 <= i2 < out@.len() implies out@[i1].pts() >= out@[i2].pts() by {
                if i1 < j {
                    assert(out@[i1] == pre[i1]);
                    assert(pre[i1].pts() >= xv.pts());
                    if i2 < j {
                        assert(out@[i2] == pre[i2]);
                    } else if i2 == j {
                        assert(out@[i2] == xv);
                    } else {
                        assert(out@[i2] == pre[i2 - 1]);
                        assert(pre[i1].pts() >= pre[i2 - 1].pts());
                    }
                } else if i1 == j {
                    assert(out@[i1] == xv);
                    if i2 > j {
                        assert(out@[i2] == pre[i2 - 1]);
                        assert(b[i2 - 1 - j] == pre[i2 - 1]);
                    }
                } else {
                    assert(out@[i1] == pre[i1 - 1]);
                    assert(out@[i2] == pre[i2 - 1]);
                }
            }
            // every point class is preserved
            assert forall|p: int| #[trigger] filter_pts(out@, p) == filter_pts(
                orig.take(k as int + 1),
                p,
            ) by {
                lemma_filter_pts_concat(a, b, p);
                lemma_filter_pts_concat(a.push(xv), b, p);
                lemma_filter_pts_push(a, xv, p);
                lemma_filter_pts_push(orig.take(k as int), xv, p);
                if xv.pts() == p {
                    lemma_filter_pts_none(b, p);
                    assert(filter_pts(a, p).push(xv) + Seq::<T>::empty() =~= filter_pts(
                        a,
                        p,
                    ).push(xv));
                    assert(filter_pts(a, p) + Seq::<T>::empty() =~= filter_pts(a, p));
                    assert(filter_pts(out@, p) == filter_pts(a, p).push(xv));
                    assert(filter_pts(pre, p) == filter_pts(a, p));
                } else {
                    assert(filter_pts(out@, p) == filter_pts(a, p) + filter_pts(b, p));
                }
            }
            // the multiset gains exactly the inserted row
            assert(out@.to_multiset() =~= orig.take(k as int + 1).to_multiset()) by {
                vstd::seq_lib::lemma_multiset_commutative(a.push(xv), b);
                vstd::seq_lib::lemma_multiset_commutative(a, b);
                assert(out@.to_multiset() == (a.push(xv)).to_multiset().add(b.to_multiset()));
                assert((a.push(xv)).to_multiset() =~= a.to_multiset().insert(xv));
                assert(pre.to_multiset() == a.to_multiset().add(b.to_multiset()));
                assert(orig.take(k as int + 1).to_multiset() =~= orig.take(
                    k as int,
                ).to_multiset().insert(xv));
            }
        }
    }
    proof {
        assert(orig.take(orig.len() - rest@.len()) =~= orig);
    }
    out
}

/// Copies a merged row.
pub fn clone_unified(r: &UnifiedStatRow) -> (c: UnifiedStatRow)
    ensures
        c == *r,
{
    UnifiedStatRow {
        key: clone_key(&r.key),
        week: r.week,
        passing: r.passing,
        receiving: r.receiving,
        rushing: r.rushing,
        fumbling: r.fumbling,
        kicking: r.kicking,
        returning: r.returning,
    }
}

/// The scored table before sorting: every unified row paired with its
/// centipoints under the given rule set.
pub open spec fn spec_scored(rows: Seq<UnifiedStatRow>, s: Scoring) -> Seq<FantasyScoreRow> {
    rows.map_values(
        |r: UnifiedStatRow| FantasyScoreRow { row: r, fantasy_points: spec_points(r, s) as i64 },
    )
}

/// Whether one filter constraint accepts a merged stat row, judged on
/// the row's identity columns and week; player constraints match the
/// row's single player identity.
pub open spec fn row_constraint_matches(c: PbpConstraint, r: UnifiedStatRow) -> bool {
    match c {
        PbpConstraint::Team(t) => r.key.team@ == t@,
        PbpConstraint::Game(g) => r.key.game_id@ == g@,
        PbpConstraint::PlayerId(id) => r.key.player_id@ == id@,
        PbpConstraint::PlayerName(n) => r.key.player_name@ == n@,
        PbpConstraint::Week(w) => r.week == w,
        PbpConstraint::WeekRange(lo, hi) => lo <= r.week && r.week <= hi,
    }
}

/// The built predicate of a filter on a merged stat row.
pub open spec fn row_filter_matches(f: PbpFilter, r: UnifiedStatRow) -> bool {
    forall|i: int|
        0 <= i < f.constraints@.len() ==> row_constraint_matches(#[trigger] f.constraints@[i], r)
}

/// The stat rows the filter accepts, in table order.
pub open spec fn rows_filtered(
    rows: Seq<UnifiedStatRow>,
    f: PbpFilter,
) -> Seq<UnifiedStatRow>
    decreases rows.len(),
{
    if rows.len() == 0 {
        Seq::empty()
    } else {
        let rest = rows_filtered(rows.drop_last(), f);
        if row_filter_matches(f, rows.last()) {
            rest.push(rows.last())
        } else {
            rest
        }
    }
}

/// Filtering keeps a subset of bounded rows bounded.
proof fn lemma_rows_filtered_wf(rows: Seq<UnifiedStatRow>, f: PbpFilter)
    ensures
        rows_filtered(rows, f).len() <= rows.len(),
        (forall|i: int| 0 <= i < rows.len() ==> row_bounded(#[trigger] rows[i])) ==> forall|
            i: int,
        |
            0 <= i < rows_filtered(rows, f).len() ==> row_bounded(
                #[trigger] rows_filtered(rows, f)[i],
            ),
    decreases rows.len(),
{
    if rows.len() > 0 {
        let d = rows.drop_last();
        assert(forall|i: int| 0 <= i < d.len() ==> d[i] == rows[i]);
        lemma_rows_filtered_wf(d, f);
        if forall|i: int| 0 <= i < rows.len() ==> row_bounded(#[trigger] rows[i]) {
            assert(forall|i: int| 0 <= i < d.len() ==> row_bounded(#[trigger] d[i]));
            let rest = rows_filtered(d, f);
            assert(row_bounded(rows[rows.len() - 1]));
            assert forall|i: int|
                0 <= i < rows_filtered(rows, f).len() implies row_bounded(
                #[trigger] rows_filtered(rows, f)[i],
            ) by {
                if i < rest.len() {
                    assert(rows_filtered(rows, f)[i] == rest[i]);
                }
            }
        }
    }
}

/// Whether the filter accepts a merged stat row.
fn row_matches_exec(f: &PbpFilter, r: &UnifiedStatRow) -> (ok: bool)
    ensures
        ok == row_filter_matches(*f, *r),
{
    let n = f.constraints.len();
    let mut i: usize = 0;
    while i < n
        invariant
            n == f.constraints@.len(),
            i <= n,
            forall|m: int|
                0 <= m < i ==> row_constraint_matches(#[trigger] f.constraints@[m], *r),
        decreases n - i,
    {
        let ok: bool = match &f.constraints[i] {
            PbpConstraint::Team(t) => r.key.team == *t,
            PbpConstraint::Game(g) => r.key.game_id == *g,
            PbpConstraint::PlayerId(id) => r.key.player_id == *id,
            PbpConstraint::PlayerName(nm) => r.key.player_name == *nm,
            PbpConstraint::Week(w) => r.week == *w,
            PbpConstraint::WeekRange(lo, hi) => *lo <= r.week && r.week <= *hi,
        };
        if !ok {
            return false;
        }
        i = i + 1;
    }
    true
}

/// The game id column of the unified table.
pub open spec fn game_ids_of(rows: Seq<UnifiedStatRow>) -> Seq<Seq<char>>
    decreases rows.len(),
{
    if rows.len() == 0 {
        Seq::empty()
    } else {
        game_ids_of(rows.drop_last()).push(rows.last().key.game_id@)
    }
}

/// The player id column of the unified table.
pub open spec fn player_ids_of(rows: Seq<UnifiedStatRow>) -> Seq<Seq<char>>
    decreases rows.len(),
{
    if rows.len() == 0 {
        Seq::empty()
    } else {
        player_ids_of(rows.drop_last()).push(rows.last().key.player_id@)
    }
}

/// `game_ids_of` is the pointwise game id column.
pub proof fn lemma_game_ids_of(rows: Seq<UnifiedStatRow>)
    ensures
        game_ids_of(rows).len() == rows.len(),
        forall|j: int|
            0 <= j < rows.len() ==> game_ids_of(rows)[j] == (#[trigger] rows[j]).key.game_id@,
    decreases rows.len(),
{
    if rows.len() > 0 {
        let d = rows.drop_last();
        lemma_game_ids_of(d);
        assert forall|j: int| 0 <= j < rows.len() implies game_ids_of(rows)[j] == (
        #[trigger] rows[j]).key.game_id@ by {
            if j < rows.len() - 1 {
                assert(d[j] == rows[j]);
                assert(game_ids_of(d)[j] == d[j].key.game_id@);
            }
        }
    }
}

/// `player_ids_of` is the pointwise player id column.
pub proof fn lemma_player_ids_of(rows: Seq<UnifiedStatRow>)
    ensures
        player_ids_of(rows).len() == rows.len(),
        forall|j: int|
            0 <= j < rows.len() ==> player_ids_of(rows)[j] == (#[trigger] rows[j]).key.player_id@,
    decreases rows.len(),
{
    if rows.len() > 0 {
        let d = rows.drop_last();
        lemma_player_ids_of(d);
        assert forall|j: int| 0 <= j < rows.len() implies player_ids_of(rows)[j] == (
        #[trigger] rows[j]).key.player_id@ by {
            if j < rows.len() - 1 {
                assert(d[j] == rows[j]);
                assert(player_ids_of(d)[j] == d[j].key.player_id@);
            }
        }
    }
}

/// The total centipoints of the rows of one game.
pub open spec fn game_sum(rows: Seq<UnifiedStatRow>, s: Scoring, g: Seq<char>) -> int
    decreases rows.len(),
{
    if rows.len() == 0 {
        0
    } else {
        game_sum(rows.drop_last(), s, g) + if rows.last().key.game_id@ == g {
            spec_points(rows.last(), s)
        } else {
            0
        }
    }
}

/// The total centipoints of the rows of one player.
pub open spec fn player_sum(rows: Seq<UnifiedStatRow>, s: Scoring, pid: Seq<char>) -> int
    decreases rows.len(),
{
    if rows.len() == 0 {
        0
    } else {
        player_sum(rows.drop_last(), s, pid) + if rows.last().key.player_id@ == pid {
            spec_points(rows.last(), s)
        } else {
            0
        }
    }
}

/// The first row of a game, in table order.
pub open spec fn first_game_row(rows: Seq<UnifiedStatRow>, g: Seq<char>) -> UnifiedStatRow
    recommends
        game_ids_of(rows).contains(g),
    decreases rows.len(),
{
    if rows.len() == 0 {
        choose|r: UnifiedStatRow| #[trigger] r.week >= 0
    } else if game_ids_of(rows.drop_last()).contains(g) {
        first_game_row(rows.drop_last(), g)
    } else {
        rows.last()
    }
}

/// The first row of a player, in table order.
pub open spec fn first_player_row(rows: Seq<UnifiedStatRow>, pid: Seq<char>) -> UnifiedStatRow
    recommends
        player_ids_of(rows).contains(pid),
    decreases rows.len(),
{
    if rows.len() == 0 {
        choose|r: UnifiedStatRow| #[trigger] r.week >= 0
    } else if player_ids_of(rows.drop_last()).contains(pid) {
        first_player_row(rows.drop_last(), pid)
    } else {
        rows.last()
    }
}

/// A game id no row carries sums to zero.
pub proof fn lemma_game_sum_absent(rows: Seq<UnifiedStatRow>, s: Scoring, g: Seq<char>)
    requires
        !game_ids_of(rows).contains(g),
    ensures
        game_sum(rows, s, g) == 0,
    decreases rows.len(),
{
    if rows.len() > 0 {
        let d = rows.drop_last();
        lemma_game_ids_of(rows);
        lemma_game_ids_of(d);
        assert forall|j: int| 0 <= j < game_ids_of(d).len() implies game_ids_of(d)[j] != g by {
            assert(game_ids_of(d)[j] == d[j].key.game_id@);
            assert(game_ids_of(rows)[j] == rows[j].key.game_id@);
            assert(d[j] == rows[j]);
        }
        assert(!game_ids_of(d).contains(g));
        lemma_game_sum_absent(d, s, g);
        assert(game_ids_of(rows)[rows.len() - 1] == rows.last().key.game_id@);
        assert(rows.last().key.game_id@ != g);
    }
}

/// A player id no row carries sums to zero.
pub proof fn lemma_player_sum_absent(rows: Seq<UnifiedStatRow>, s: Scoring, pid: Seq<char>)
    requires
        !player_ids_of(rows).contains(pid),
    ensures
        player_sum(rows, s, pid) == 0,
    decreases rows.len(),
{
    if rows.len() > 0 {
        let d = rows.drop_last();
        lemma_player_ids_of(rows);
        lemma_player_ids_of(d);
        assert forall|j: int| 0 <= j < player_ids_of(d).len() implies player_ids_of(d)[j]
            != pid by {
            assert(player_ids_of(d)[j] == d[j].key.player_id@);
            assert(player_ids_of(rows)[j] == rows[j].key.player_id@);
            assert(d[j] == rows[j]);
        }
        assert(!player_ids_of(d).contains(pid));
        lemma_player_sum_absent(d, s, pid);
        assert(player_ids_of(rows)[rows.len() - 1] == rows.last().key.player_id@);
        assert(rows.last().key.player_id@ != pid);
    }
}

/// Group sums over bounded rows stay within 64-bit range.
pub proof fn lemma_group_sum_bound(rows: Seq<UnifiedStatRow>, s: Scoring, id: Seq<char>)
    requires
        s.wf(),
        forall|i: int| 0 <= i < rows.len() ==> row_bounded(#[trigger] rows[i]),
    ensures
        -(rows.len() * MAX_ROW_POINTS) <= game_sum(rows, s, id) <= rows.len() * MAX_ROW_POINTS,
        -(rows.len() * MAX_ROW_POINTS) <= player_sum(rows, s, id) <= rows.len() * MAX_ROW_POINTS,
    decreases rows.len(),
{
    if rows.len() > 0 {
        let d = rows.drop_last();
        assert(forall|i: int| 0 <= i < d.len() ==> d[i] == rows[i]);
        lemma_group_sum_bound(d, s, id);
        lemma_spec_points_bound(rows.last(), s);
    }
}

/// The unified stat table: the merged per-player rows, ready for scoring.
pub struct FantasyStatsDf {
    pub rows: Vec<UnifiedStatRow>,
}

/// One row of the per-player aggregate: fantasy points summed over a
/// player's games, with the first team and display name seen.
pub struct PlayerScore {
    pub player_id: String,
    pub player_name: String,
    pub team: String,
    pub fantasy_points: i64,
}

impl Ranked for PlayerScore {
    open spec fn pts(&self) -> int {
        self.fantasy_points as int
    }

    fn points(&self) -> i64 {
        self.fantasy_points
    }
}

/// One row of the per-game aggregate: fantasy points summed over a game's
/// players, with the first week and team seen.
pub struct GameScore {
    pub game_id: String,
    pub week: u32,
    pub team: String,
    pub fantasy_points: i64,
}

impl Ranked for GameScore {
    open spec fn pts(&self) -> int {
        self.fantasy_points as int
    }

    fn points(&self) -> i64 {
        self.fantasy_points
    }
}

impl FantasyStatsDf {
    /// A scorable table: few enough rows, each carrying bounded counters.
    pub open spec fn wf(self) -> bool {
        &&& self.rows@.len() <= MAX_SCORED_ROWS
        &&& forall|i: int| 0 <= i < self.rows@.len() ==> row_bounded(#[trigger] self.rows@[i])
    }

    /// Wraps a unified stat table.
    pub fn new(rows: Vec<UnifiedStatRow>) -> (r: Self)
        ensures
            r.rows@ == rows@,
    {
        FantasyStatsDf { rows }
    }

    /// Restricts the stat table to the rows the filter accepts.
    pub fn filter(self, filter: PbpFilter) -> (r: Result<Self, Error>)
        ensures
            r is Ok,
            r matches Ok(df) ==> df.rows@ == rows_filtered(self.rows@, filter) && (self.wf()
                ==> df.wf()),
    {
        proof {
            lemma_rows_filtered_wf(self.rows@, filter);
        }
        let n = self.rows.len();
        let mut kept: Vec<UnifiedStatRow> = Vec::new();
        let mut i: usize = 0;
        proof {
            assert(self.rows@.take(0) =~= Seq::<UnifiedStatRow>::empty());
        }
        while i < n
            invariant
                n == self.rows@.len(),
                i <= n,
                kept@ == rows_filtered(self.rows@.take(i as int), filter),
            decreases n - i,
        {
            let ghost prefix = self.rows@.take(i as int);
            proof {
                assert(self.rows@.take(i as int + 1) =~= prefix.push(self.rows@[i as int]));
                assert(prefix.push(self.rows@[i as int]).drop_last() =~= prefix);
            }
            let row = &self.rows[i];
            if row_matches_exec(&filter, row) {
                kept.push(clone_unified(row));
            }
            i = i + 1;
        }
        proof {
            assert(self.rows@.take(n as int) =~= self.rows@);
        }
        Ok(FantasyStatsDf { rows: kept })
    }

    /// Scores every row and sorts by fantasy points descending; rows with
    /// equal points keep their table order.
    pub fn score(self, scoring: Scoring) -> (r: Result<Vec<FantasyScoreRow>, Error>)
        requires
            self.wf(),
            scoring.wf(),
        ensures
            r is Ok,
            r matches Ok(out) ==> {
                &&& sorted_desc(out@)
                &&& out@.to_multiset() == spec_scored(self.rows@, scoring).to_multiset()
                &&& forall|p: int|
                    #[trigger] filter_pts(out@, p) == filter_pts(
                        spec_scored(self.rows@, scoring),
                        p,
                    )
            },
    {
        let n = self.rows.len();
        let mut scored: Vec<FantasyScoreRow> = Vec::new();
        let mut i: usize = 0;
        while i < n
            invariant
                n == self.rows@.len(),
                self.wf(),
                scoring.wf(),
                i <= n,
                scored@.len() == i,
                forall|m: int|
                    0 <= m < i ==> (#[trigger] scored@[m]).row == self.rows@[m]
                        && scored@[m].fantasy_points as int == spec_points(
                        self.rows@[m],
                        scoring,
                    ),
            decreases n - i,
        {
            let r = &self.rows[i];
            let pts = score_row(r, &scoring);
            scored.push(FantasyScoreRow { row: clone_unified(r), fantasy_points: pts });
            i = i + 1;
        }
        proof {
            assert forall|m: int| 0 <= m < n implies scored@[m] == spec_scored(
                self.rows@,
                scoring,
            )[m] by {
                lemma_spec_points_bound(self.rows@[m], scoring);
            }
            assert(scored@ =~= spec_scored(self.rows@, scoring));
        }
        let out = sort_desc_rows(scored);
        Ok(out)
    }

    /// Sums fantasy points per player across games, keeping the first team
    /// and display name seen, sorted by total points descending.
    pub fn score_by_player(self, scoring: Scoring) -> (r: Result<Vec<PlayerScore>, Error>)
        requires
            self.wf(),
            scoring.wf(),
        ensures
            r is Ok,
            r matches Ok(out) ==> {
                &&& sorted_desc(out@)
                &&& forall|i: int, j: int|
                    0 <= i < out@.len() && 0 <= j < out@.len() && i != j ==> (
                    #[trigger] out@[i]).player_id@ != (#[trigger] out@[j]).player_id@
                &&& forall|pid: Seq<char>|
                    #[trigger] player_ids_of(self.rows@).contains(pid) <==> exists|i: int|
                        0 <= i < out@.len() && (#[trigger] out@[i]).player_id@ == pid
                &&& forall|i: int|
                    0 <= i < out@.len() ==> {
                        let pid = (#[trigger] out@[i]).player_id@;
                        &&& out@[i].fantasy_points as int == player_sum(self.rows@, scoring, pid)
                        &&& out@[i].player_name@ == first_player_row(
                            self.rows@,
                            pid,
                        ).key.player_name@
                        &&& out@[i].team@ == first_player_row(self.rows@, pid).key.team@
                    }
            },
    {
        let n = self.rows.len();
        let mut acc: Vec<PlayerScore> = Vec::new();
        let mut i: usize = 0;
        proof {
            assert(self.rows@.take(0) =~= Seq::<UnifiedStatRow>::empty());
        }
        while i < n
            invariant
                n == self.rows@.len(),
                self.wf(),
                scoring.wf(),
                i <= n,
                acc@.len() <= i,
                pids_of_out(acc@) == dedup(player_ids_of(self.rows@.take(i as int))),
                forall|m: int|
                    0 <= m < acc@.len() ==> (#[trigger] acc@[m]).fantasy_points as int
                        == player_sum(self.rows@.take(i as int), scoring, acc@[m].player_id@),
                forall|m: int|
                    0 <= m < acc@.len() ==> {
                        let fr = first_player_row(
                            self.rows@.take(i as int),
                            (#[trigger] acc@[m]).player_id@,
                        );
                        acc@[m].player_name@ == fr.key.player_name@ && acc@[m].team@
                            == fr.key.team@
                    },
            decreases n - i,
        {
            let ghost prefix = self.rows@.take(i as int);
            let ghost rowg = self.rows@[i as int];
            proof {
                assert(self.rows@.take(i as int + 1) =~= prefix.push(rowg));
                assert(prefix.push(rowg).drop_last() =~= prefix);
                lemma_player_ids_of(prefix);
                assert(player_ids_of(prefix.push(rowg)) =~= player_ids_of(prefix).push(
                    rowg.key.player_id@,
                )) by {
                    lemma_player_ids_of(prefix.push(rowg));
                    lemma_player_ids_of(prefix);
                }
                lemma_dedup(player_ids_of(prefix));
                lemma_pids_of_out(acc@);
            }
            let row = &self.rows[i];
            let pts = score_row(row, &scoring);
            match find_player(&acc, &row.key.player_id) {
                Some(j) => {
                    proof {
                        assert(pids_of_out(acc@)[j as int] == acc@[j as int].player_id@);
                        assert(pids_of_out(acc@).contains(rowg.key.player_id@));
                        assert(player_ids_of(prefix).contains(rowg.key.player_id@));
                        assert(dedup(player_ids_of(prefix).push(rowg.key.player_id@)) == dedup(
                            player_ids_of(prefix),
                        )) by {
                            assert(player_ids_of(prefix).push(
                                rowg.key.player_id@,
                            ).drop_last() =~= player_ids_of(prefix));
                        }
                        lemma_group_sum_bound(prefix, scoring, acc@[j as int].player_id@);
                        assert(prefix.len() * MAX_ROW_POINTS <= MAX_SCORED_ROWS
                            * MAX_ROW_POINTS);
                    }
                    let total = acc[j].fantasy_points + pts;
                    let ghost before = acc@;
                    acc[j].fantasy_points = total;
                    proof {
                        assert(acc@.len() == before.len());
                        assert(forall|m: int|
                            0 <= m < acc@.len() && m != j ==> acc@[m] == before[m]);
                        assert(acc@[j as int].player_id == before[j as int].player_id);
                        assert(acc@[j as int].player_name == before[j as int].player_name);
                        assert(acc@[j as int].team == before[j as int].team);
                        lemma_pids_of_out(acc@);
                        lemma_pids_of_out(before);
                        assert forall|m: int| 0 <= m < acc@.len() implies pids_of_out(acc@)[m]
                            == pids_of_out(before)[m] by {
                            assert(pids_of_out(acc@)[m] == acc@[m].player_id@);
                            assert(pids_of_out(before)[m] == before[m].player_id@);
                        }
                        assert(pids_of_out(acc@) =~= pids_of_out(before));
                        assert forall|m: int| 0 <= m < acc@.len() implies (
                        #[trigger] acc@[m]).fantasy_points as int == player_sum(
                            prefix.push(rowg),
                            scoring,
                            acc@[m].player_id@,
                        ) by {
                            if m == j {
                                assert(acc@[m].player_id@ == rowg.key.player_id@);
                            } else {
                                assert(pids_of_out(before).no_duplicates());
                                assert(pids_of_out(before)[m] == before[m].player_id@);
                                assert(pids_of_out(before)[j as int] == rowg.key.player_id@);
                                assert(acc@[m].player_id@ != rowg.key.player_id@);
                            }
                        }
                        assert forall|m: int| 0 <= m < acc@.len() implies {
                            let fr = first_player_row(
                                prefix.push(rowg),
                                (#[trigger] acc@[m]).player_id@,
                            );
                            acc@[m].player_name@ == fr.key.player_name@ && acc@[m].team@
                                == fr.key.team@
                        } by {
                            assert(pids_of_out(before)[m] == before[m].player_id@);
                            assert(pids_of_out(before).contains(before[m].player_id@));
                            assert(player_ids_of(prefix).contains(acc@[m].player_id@));
                            assert(first_player_row(prefix.push(rowg), acc@[m].player_id@)
                                == first_player_row(prefix, acc@[m].player_id@));
                        }
                    }
                },
                None => {
                    proof {
                        assert(!pids_of_out(acc@).contains(rowg.key.player_id@));
                        assert(!player_ids_of(prefix).contains(rowg.key.player_id@));
                        lemma_player_sum_absent(prefix, scoring, rowg.key.player_id@);
                        assert(dedup(player_ids_of(prefix).push(rowg.key.player_id@)) == dedup(
                            player_ids_of(prefix),
                        ).push(rowg.key.player_id@)) by {
                            assert(player_ids_of(prefix).push(
                                rowg.key.player_id@,
                            ).drop_last() =~= player_ids_of(prefix));
                        }
                    }
                    let ghost before = acc@;
                    acc.push(
                        PlayerScore {
                            player_id: row.key.player_id.clone(),
                            player_name: row.key.player_name.clone(),
                            team: row.key.team.clone(),
                            fantasy_points: pts,
                        },
                    );
                    proof {
                        assert(acc@.drop_last() =~= before);
                        assert(pids_of_out(acc@) == pids_of_out(before).push(
                            rowg.key.player_id@,
                        ));
                        assert forall|m: int| 0 <= m < acc@.len() implies (
                        #[trigger] acc@[m]).fantasy_points as int == player_sum(
                            prefix.push(rowg),
                            scoring,
                            acc@[m].player_id@,
                        ) by {
                            if m < acc@.len() - 1 {
                                assert(acc@[m] == before[m]);
                                lemma_pids_of_out(before);
                                assert(pids_of_out(before)[m] == before[m].player_id@);
                                assert(pids_of_out(before).contains(before[m].player_id@));
                                assert(acc@[m].player_id@ != rowg.key.player_id@) by {
                                    assert(dedup(player_ids_of(prefix)).contains(
                                        before[m].player_id@,
                                    ));
                                    assert(player_ids_of(prefix).contains(
                                        before[m].player_id@,
                                    ));
                                }
                            } else {
                                assert(acc@[m].player_id@ == rowg.key.player_id@);
                            }
                        }
                        assert forall|m: int| 0 <= m < acc@.len() implies {
                            let fr = first_player_row(
                                prefix.push(rowg),
                                (#[trigger] acc@[m]).player_id@,
                            );
                            acc@[m].player_name@ == fr.key.player_name@ && acc@[m].team@
                                == fr.key.team@
                        } by {
                            if m < acc@.len() - 1 {
                                assert(acc@[m] == before[m]);
                                lemma_pids_of_out(before);
                                assert(pids_of_out(before)[m] == before[m].player_id@);
                                assert(pids_of_out(before).contains(before[m].player_id@));
                                assert(player_ids_of(prefix).contains(acc@[m].player_id@));
                                assert(first_player_row(prefix.push(rowg), acc@[m].player_id@)
                                    == first_player_row(prefix, acc@[m].player_id@));
                            } else {
                                assert(acc@[m].player_id@ == rowg.key.player_id@);
                                assert(first_player_row(prefix.push(rowg), acc@[m].player_id@)
                                    == rowg);
                            }
                        }
                    }
                },
            }
            i = i + 1;
        }
        proof {
            assert(self.rows@.take(n as int) =~= self.rows@);
        }
        let ghost grouped = acc@;
        let out = sort_desc_rows(acc);
        proof {
            broadcast use vstd::seq_lib::group_to_multiset_ensures;

            lemma_pids_of_out(grouped);
            lemma_dedup(player_ids_of(self.rows@));
            assert forall|i2: int| 0 <= i2 < out@.len() implies grouped.contains(
                #[trigger] out@[i2],
            ) by {
                assert(out@.contains(out@[i2]));
                assert(out@.to_multiset().count(out@[i2]) > 0);
                assert(grouped.to_multiset().count(out@[i2]) > 0);
            }
            assert forall|i2: int, j2: int|
                0 <= i2 < out@.len() && 0 <= j2 < out@.len() && i2 != j2 implies (
            #[trigger] out@[i2]).player_id@ != (#[trigger] out@[j2]).player_id@ by {
                let a = out@[i2];
                let b = out@[j2];
                if a.player_id@ == b.player_id@ {
                    let ma = choose|m: int| 0 <= m < grouped.len() && grouped[m] == a;
                    let mb = choose|m: int| 0 <= m < grouped.len() && grouped[m] == b;
                    assert(pids_of_out(grouped)[ma] == a.player_id@);
                    assert(pids_of_out(grouped)[mb] == b.player_id@);
                    assert(pids_of_out(grouped).no_duplicates());
                    assert(ma == mb);
                    assert(a == b);
                    // two output positions holding the same grouped value
                    // would double its count in the shared multiset
                    lemma_count_two(out@, i2, j2);
                    grouped.lemma_multiset_has_no_duplicates();
                    assert(grouped.to_multiset().count(a) <= 1);
                    assert(false);
                }
            }
            assert forall|pid: Seq<char>| #[trigger] player_ids_of(self.rows@).contains(pid)
                <==> exists|i2: int|
                0 <= i2 < out@.len() && (#[trigger] out@[i2]).player_id@ == pid by {
                if player_ids_of(self.rows@).contains(pid) {
                    assert(dedup(player_ids_of(self.rows@)).contains(pid));
                    let m = choose|m: int|
                        0 <= m < pids_of_out(grouped).len() && pids_of_out(grouped)[m] == pid;
                    assert(grouped[m].player_id@ == pid);
                    assert(grouped.contains(grouped[m]));
                    assert(grouped.to_multiset().count(grouped[m]) > 0);
                    assert(out@.to_multiset().count(grouped[m]) > 0);
                    assert(out@.contains(grouped[m]));
                    let i2 = choose|i2: int| 0 <= i2 < out@.len() && out@[i2] == grouped[m];
                    assert(out@[i2].player_id@ == pid);
                } else {
                    assert forall|i2: int|
                        0 <= i2 < out@.len() implies (#[trigger] out@[i2]).player_id@ != pid by {
                        let m = choose|m: int| 0 <= m < grouped.len() && grouped[m] == out@[i2];
                        assert(pids_of_out(grouped)[m] == out@[i2].player_id@);
                        assert(pids_of_out(grouped).contains(out@[i2].player_id@));
                        assert(player_ids_of(self.rows@).contains(out@[i2].player_id@));
                    }
                }
            }
            assert forall|i2: int| 0 <= i2 < out@.len() implies {
                let pid = (#[trigger] out@[i2]).player_id@;
                &&& out@[i2].fantasy_points as int == player_sum(self.rows@, scoring, pid)
                &&& out@[i2].player_name@ == first_player_row(self.rows@, pid).key.player_name@
                &&& out@[i2].team@ == first_player_row(self.rows@, pid).key.team@
            } by {
                let m = choose|m: int| 0 <= m < grouped.len() && grouped[m] == out@[i2];
                assert(grouped[m].fantasy_points as int == player_sum(
                    self.rows@,
                    scoring,
                    grouped[m].player_id@,
                ));
            }
        }
        Ok(out)
    }

    /// Sums fantasy points per game across its players, keeping the first
    /// week and team seen, sorted by total points descending.
    pub fn score_by_game(self, scoring: Scoring) -> (r: Result<Vec<GameScore>, Error>)
        requires
            self.wf(),
            scoring.wf(),
        ensures
            r is Ok,
            r matches Ok(out) ==> {
                &&& sorted_desc(out@)
                &&& forall|i: int, j: int|
                    0 <= i < out@.len() && 0 <= j < out@.len() && i != j ==> (
                    #[trigger] out@[i]).game_id@ != (#[trigger] out@[j]).game_id@
                &&& forall|g: Seq<char>|
                    #[trigger] game_ids_of(self.rows@).contains(g) <==> exists|i: int|
                        0 <= i < out@.len() && (#[trigger] out@[i]).game_id@ == g
                &&& forall|i: int|
                    0 <= i < out@.len() ==> {
                        let g = (#[trigger] out@[i]).game_id@;
                        &&& out@[i].fantasy_points as int == game_sum(self.rows@, scoring, g)
                        &&& out@[i].week == first_game_row(self.rows@, g).week
                        &&& out@[i].team@ == first_game_row(self.rows@, g).key.team@
                    }
            },
    {
        let n = self.rows.len();
        let mut acc: Vec<GameScore> = Vec::new();
        let mut i: usize = 0;
        proof {
            assert(self.rows@.take(0) =~= Seq::<UnifiedStatRow>::empty());
        }
        while i < n
            invariant
                n == self.rows@.len(),
                self.wf(),
                scoring.wf(),
                i <= n,
                acc@.len() <= i,
                gids_of_out(acc@) == dedup(game_ids_of(self.rows@.take(i as int))),
                forall|m: int|
                    0 <= m < acc@.len() ==> (#[trigger] acc@[m]).fantasy_points as int
                        == game_sum(self.rows@.take(i as int), scoring, acc@[m].game_id@),
                forall|m: int|
                    0 <= m < acc@.len() ==> {
                        let fr = first_game_row(
                            self.rows@.take(i as int),
                            (#[trigger] acc@[m]).game_id@,
                        );
                        acc@[m].week == fr.week && acc@[m].team@ == fr.key.team@
                    },
            decreases n - i,
        {
            let ghost prefix = self.rows@.take(i as int);
            let ghost rowg = self.rows@[i as int];
            proof {
                assert(self.rows@.take(i as int + 1) =~= prefix.push(rowg));
                assert(prefix.push(rowg).drop_last() =~= prefix);
                lemma_game_ids_of(prefix);
                assert(game_ids_of(prefix.push(rowg)) =~= game_ids_of(prefix).push(
                    rowg.key.game_id@,
                )) by {
                    lemma_game_ids_of(prefix.push(rowg));
                    lemma_game_ids_of(prefix);
                }
                lemma_dedup(game_ids_of(prefix));
                lemma_gids_of_out(acc@);
            }
            let row = &self.rows[i];
            let pts = score_row(row, &scoring);
            match find_game(&acc, &row.key.game_id) {
                Some(j) => {
                    proof {
                        assert(gids_of_out(acc@)[j as int] == acc@[j as int].game_id@);
                        assert(gids_of_out(acc@).contains(rowg.key.game_id@));
                        assert(game_ids_of(prefix).contains(rowg.key.game_id@));
                        assert(dedup(game_ids_of(prefix).push(rowg.key.game_id@)) == dedup(
                            game_ids_of(prefix),
                        )) by {
                            assert(game_ids_of(prefix).push(
                                rowg.key.game_id@,
                            ).drop_last() =~= game_ids_of(prefix));
                        }
                        lemma_group_sum_bound(prefix, scoring, acc@[j as int].game_id@);
                        assert(prefix.len() * MAX_ROW_POINTS <= MAX_SCORED_ROWS
                            * MAX_ROW_POINTS);
                    }
                    let total = acc[j].fantasy_points + pts;
                    let ghost before = acc@;
                    acc[j].fantasy_points = total;
                    proof {
                        assert(acc@.len() == before.len());
                        assert(forall|m: int|
                            0 <= m < acc@.len() && m != j ==> acc@[m] == before[m]);
                        assert(acc@[j as int].game_id == before[j as int].game_id);
                        assert(acc@[j as int].week == before[j as int].week);
                        assert(acc@[j as int].team == before[j as int].team);
                        lemma_gids_of_out(acc@);
                        lemma_gids_of_out(before);
                        assert forall|m: int| 0 <= m < acc@.len() implies gids_of_out(acc@)[m]
                            == gids_of_out(before)[m] by {
                            assert(gids_of_out(acc@)[m] == acc@[m].game_id@);
                            assert(gids_of_out(before)[m] == before[m].game_id@);
                        }
                        assert(gids_of_out(acc@) =~= gids_of_out(before));
                        assert forall|m: int| 0 <= m < acc@.len() implies (
                        #[trigger] acc@[m]).fantasy_points as int == game_sum(
                            prefix.push(rowg),
                            scoring,
                            acc@[m].game_id@,
                        ) by {
                            if m == j {
                                assert(acc@[m].game_id@ == rowg.key.game_id@);
                            } else {
                                assert(gids_of_out(before).no_duplicates());
                                assert(gids_of_out(before)[m] == before[m].game_id@);
                                assert(gids_of_out(before)[j as int] == rowg.key.game_id@);
                                assert(acc@[m].game_id@ != rowg.key.game_id@);
                            }
                        }
                        assert forall|m: int| 0 <= m < acc@.len() implies {
                            let fr = first_game_row(
                                prefix.push(rowg),
                                (#[trigger] acc@[m]).game_id@,
                            );
                            acc@[m].week == fr.week && acc@[m].team@ == fr.key.team@
                        } by {
                            assert(gids_of_out(before)[m] == before[m].game_id@);
                            assert(gids_of_out(before).contains(before[m].game_id@));
                            assert(game_ids_of(prefix).contains(acc@[m].game_id@));
                            assert(first_game_row(prefix.push(rowg), acc@[m].game_id@)
                                == first_game_row(prefix, acc@[m].game_id@));
                        }
                    }
                },
                None => {
                    proof {
                        assert(!gids_of_out(acc@).contains(rowg.key.game_id@));
                        assert(!game_ids_of(prefix).contains(rowg.key.game_id@));
                        lemma_game_sum_absent(prefix, scoring, rowg.key.game_id@);
                        assert(dedup(game_ids_of(prefix).push(rowg.key.game_id@)) == dedup(
                            game_ids_of(prefix),
                        ).push(rowg.key.game_id@)) by {
                            assert(game_ids_of(prefix).push(
                                rowg.key.game_id@,
                            ).drop_last() =~= game_ids_of(prefix));
                        }
                    }
                    let ghost before = acc@;
                    acc.push(
                        GameScore {
                            game_id: row.key.game_id.clone(),
                            week: row.week,
                            team: row.key.team.clone(),
                            fantasy_points: pts,
                        },
                    );
                    proof {
                        assert(acc@.drop_last() =~= before);
                        assert(gids_of_out(acc@) == gids_of_out(before).push(
                            rowg.key.game_id@,
                        ));
                        assert forall|m: int| 0 <= m < acc@.len() implies (
                        #[trigger] acc@[m]).fantasy_points as int == game_sum(
                            prefix.push(rowg),
                            scoring,
                            acc@[m].game_id@,
                        ) by {
                            if m < acc@.len() - 1 {
                                assert(acc@[m] == before[m]);
                                lemma_gids_of_out(before);
                                assert(gids_of_out(before)[m] == before[m].game_id@);
                                assert(gids_of_out(before).contains(before[m].game_id@));
                                assert(acc@[m].game_id@ != rowg.key.game_id@) by {
                                    assert(dedup(game_ids_of(prefix)).contains(
                                        before[m].game_id@,
                                    ));
                                    assert(game_ids_of(prefix).contains(before[m].game_id@));
                                }
                            } else {
                                assert(acc@[m].game_id@ == rowg.key.game_id@);
                            }
                        }
                        assert forall|m: int| 0 <= m < acc@.len() implies {
                            let fr = first_game_row(
                                prefix.push(rowg),
                                (#[trigger] acc@[m]).game_id@,
                            );
                            acc@[m].week == fr.week && acc@[m].team@ == fr.key.team@
                        } by {
                            if m < acc@.len() - 1 {
                                assert(acc@[m] == before[m]);
                                lemma_gids_of_out(before);
                                assert(gids_of_out(before)[m] == before[m].game_id@);
                                assert(gids_of_out(before).contains(before[m].game_id@));
                                assert(game_ids_of(prefix).contains(acc@[m].game_id@));
                                assert(first_game_row(prefix.push(rowg), acc@[m].game_id@)
                                    == first_game_row(prefix, acc@[m].game_id@));
                            } else {
                                assert(acc@[m].game_id@ == rowg.key.game_id@);
                                assert(first_game_row(prefix.push(rowg), acc@[m].game_id@)
                                    == rowg);
                            }
                        }
                    }
                },
            }
            i = i + 1;
        }
        proof {
            assert(self.rows@.take(n as int) =~= self.rows@);
        }
        let ghost grouped = acc@;
        let out = sort_desc_rows(acc);
        proof {
            broadcast use vstd::seq_lib::group_to_multiset_ensures;

            lemma_gids_of_out(grouped);
            lemma_dedup(game_ids_of(self.rows@));
            assert forall|i2: int| 0 <= i2 < out@.len() implies grouped.contains(
                #[trigger] out@[i2],
            ) by {
                assert(out@.contains(out@[i2]));
                assert(out@.to_multiset().count(out@[i2]) > 0);
                assert(grouped.to_multiset().count(out@[i2]) > 0);
            }
            assert forall|i2: int, j2: int|
                0 <= i2 < out@.len() && 0 <= j2 < out@.len() && i2 != j2 implies (
            #[trigger] out@[i2]).game_id@ != (#[trigger] out@[j2]).game_id@ by {
                let a = out@[i2];
                let b = out@[j2];
                if a.game_id@ == b.game_id@ {
                    let ma = choose|m: int| 0 <= m < grouped.len() && grouped[m] == a;
                    let mb = choose|m: int| 0 <= m < grouped.len() && grouped[m] == b;
                    assert(gids_of_out(grouped)[ma] == a.game_id@);
                    assert(gids_of_out(grouped)[mb] == b.game_id@);
                    assert(gids_of_out(grouped).no_duplicates());
                    assert(ma == mb);
                    assert(a == b);
                    lemma_count_two(out@, i2, j2);
                    grouped.lemma_multiset_has_no_duplicates();
                    assert(grouped.to_multiset().count(a) <= 1);
                    assert(false);
                }
            }
            assert forall|g: Seq<char>| #[trigger] game_ids_of(self.rows@).contains(g)
                <==> exists|i2: int|
                0 <= i2 < out@.len() && (#[trigger] out@[i2]).game_id@ == g by {
                if game_ids_of(self.rows@).contains(g) {
                    assert(dedup(game_ids_of(self.rows@)).contains(g));
                    let m = choose|m: int|
                        0 <= m < gids_of_out(grouped).len() && gids_of_out(grouped)[m] == g;
                    assert(grouped[m].game_id@ == g);
                    assert(grouped.contains(grouped[m]));
                    assert(grouped.to_multiset().count(grouped[m]) > 0);
                    assert(out@.to_multiset().count(grouped[m]) > 0);
                    assert(out@.contains(grouped[m]));
                    let i2 = choose|i2: int| 0 <= i2 < out@.len() && out@[i2] == grouped[m];
                    assert(out@[i2].game_id@ == g);
                } else {
                    assert forall|i2: int|
                        0 <= i2 < out@.len() implies (#[trigger] out@[i2]).game_id@ != g by {
                        let m = choose|m: int| 0 <= m < grouped.len() && grouped[m] == out@[i2];
                        assert(gids_of_out(grouped)[m] == out@[i2].game_id@);
                        assert(gids_of_out(grouped).contains(out@[i2].game_id@));
                        assert(game_ids_of(self.rows@).contains(out@[i2].game_id@));
                    }
                }
            }
            assert forall|i2: int| 0 <= i2 < out@.len() implies {
                let g = (#[trigger] out@[i2]).game_id@;
                &&& out@[i2].fantasy_points as int == game_sum(self.rows@, scoring, g)
                &&& out@[i2].week == first_game_row(self.rows@, g).week
                &&& out@[i2].team@ == first_game_row(self.rows@, g).key.team@
            } by {
                let m = choose|m: int| 0 <= m < grouped.len() && grouped[m] == out@[i2];
                assert(grouped[m].fantasy_points as int == game_sum(
                    self.rows@,
                    scoring,
                    grouped[m].game_id@,
                ));
            }
        }
        Ok(out)
    }
}

/// The game id column of a per-game aggregate.
pub open spec fn gids_of_out(acc: Seq<GameScore>) -> Seq<Seq<char>>
    decreases acc.len(),
{
    if acc.len() == 0 {
        Seq::empty()
    } else {
        gids_of_out(acc.drop_last()).push(acc.last().game_id@)
    }
}

/// `gids_of_out` is the pointwise game id column.
pub proof fn lemma_gids_of_out(acc: Seq<GameScore>)
    ensures
        gids_of_out(acc).len() == acc.len(),
        forall|j: int| 0 <= j < acc.len() ==> gids_of_out(acc)[j] == (#[trigger] acc[j]).game_id@,
    decreases acc.len(),
{
    if acc.len() > 0 {
        let d = acc.drop_last();
        lemma_gids_of_out(d);
        assert forall|j: int| 0 <= j < acc.len() implies gids_of_out(acc)[j] == (
        #[trigger] acc[j]).game_id@ by {
            if j < acc.len() - 1 {
                assert(d[j] == acc[j]);
                assert(gids_of_out(d)[j] == d[j].game_id@);
            }
        }
    }
}

/// Finds the aggregate row of a game, if any.
fn find_game(acc: &Vec<GameScore>, g: &String) -> (r: Option<usize>)
    ensures
        match r {
            Some(j) => j < acc@.len() && acc@[j as int].game_id@ == g@,
            None => !gids_of_out(acc@).contains(g@),
        },
{
    let n = acc.len();
    let mut j: usize = 0;
    while j < n
        invariant
            n == acc@.len(),
            j <= n,
            forall|m: int| 0 <= m < j ==> (#[trigger] acc@[m]).game_id@ != g@,
        decreases n - j,
    {
        if acc[j].game_id == *g {
            return Some(j);
        }
        j = j + 1;
    }
    proof {
        lemma_gids_of_out(acc@);
        assert forall|m: int| 0 <= m < gids_of_out(acc@).len() implies gids_of_out(acc@)[m]
            != g@ by {
            assert(acc@[m].game_id@ != g@);
        }
    }
    None
}

/// The player id column of a per-player aggregate.
pub open spec fn pids_of_out(acc: Seq<PlayerScore>) -> Seq<Seq<char>>
    decreases acc.len(),
{
    if acc.len() == 0 {
        Seq::empty()
    } else {
        pids_of_out(acc.drop_last()).push(acc.last().player_id@)
    }
}

/// `pids_of_out` is the pointwise player id column.
pub proof fn lemma_pids_of_out(acc: Seq<PlayerScore>)
    ensures
        pids_of_out(acc).len() == acc.len(),
        forall|j: int|
            0 <= j < acc.len() ==> pids_of_out(acc)[j] == (#[trigger] acc[j]).player_id@,
    decreases acc.len(),
{
    if acc.len() > 0 {
        let d = acc.drop_last();
        lemma_pids_of_out(d);
        assert forall|j: int| 0 <= j < acc.len() implies pids_of_out(acc)[j] == (
        #[trigger] acc[j]).player_id@ by {
            if j < acc.len() - 1 {
                assert(d[j] == acc[j]);
                assert(pids_of_out(d)[j] == d[j].player_id@);
            }
        }
    }
}

/// A value standing at two positions counts at least twice in the
/// multiset.
pub proof fn lemma_count_two<T>(out: Seq<T>, i: int, j: int)
    requires
        0 <= i < out.len(),
        0 <= j < out.len(),
        i != j,
        out[i] == out[j],
    ensures
        out.to_multiset().count(out[i]) >= 2,
{
    broadcast use vstd::seq_lib::group_to_multiset_ensures;

    let x = out[i];
    assert(out.remove(i).to_multiset() =~= out.to_multiset().remove(x));
    let outr = out.remove(i);
    out.remove_ensures(i);
    if j < i {
        assert(outr[j] == x);
        assert(outr.contains(x));
    } else {
        assert(outr[j - 1] == x);
        assert(outr.contains(x));
    }
    assert(outr.to_multiset().count(x) > 0);
}

/// Finds the aggregate row of a player, if any.
fn find_player(acc: &Vec<PlayerScore>, pid: &String) -> (r: Option<usize>)
    ensures
        match r {
            Some(j) => j < acc@.len() && acc@[j as int].player_id@ == pid@,
            None => !pids_of_out(acc@).contains(pid@),
        },
{
    let n = acc.len();
    let mut j: usize = 0;
    while j < n
        invariant
            n == acc@.len(),
            j <= n,
            forall|m: int| 0 <= m < j ==> (#[trigger] acc@[m]).player_id@ != pid@,
        decreases n - j,
    {
        if acc[j].player_id == *pid {
            return Some(j);
        }
        j = j + 1;
    }
    proof {
        lemma_pids_of_out(acc@);
        assert forall|m: int| 0 <= m < pids_of_out(acc@).len() implies pids_of_out(acc@)[m]
            != pid@ by {
            assert(acc@[m].player_id@ != pid@);
        }
    }
    None
}


} // verus!

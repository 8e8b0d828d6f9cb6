//! Laws of the pipeline: properties that relate several components,
//! stated and proved over the same spec functions the contracts use.

use vstd::prelude::*;

use crate::merge::cat_view;
use crate::merge::expected_line;
use crate::merge::keys_of_unified;
use crate::merge::lemma_keys_of_unified;
use crate::merge::selected_by_any;
use crate::merge::unified_ok;
use crate::merge::UnifiedStatRow;
use crate::play::PlayRecord;
use crate::scoring::fumbling_points;
use crate::scoring::game_sum;
use crate::scoring::kicking_points;
use crate::scoring::lemma_spec_points_bound;
use crate::scoring::passing_points;
use crate::scoring::player_sum;
use crate::scoring::receiving_points;
use crate::scoring::returning_points;
use crate::scoring::row_bounded;
use crate::scoring::rushing_points;
use crate::scoring::spec_points;
use crate::scoring::spec_scored;
use crate::scoring::FantasyScoreRow;
use crate::scoring::Scoring;
use crate::stats::b2i;
use crate::stats::cat_key;
use crate::stats::keys_of;
use crate::stats::line_of;
use crate::stats::opt_text;
use crate::stats::sum_line;
use crate::stats::Category;
use crate::stats::KeyV;
use crate::stats::LineV;

verus! {

/// The points a player scores when only a single category aggregated them:
/// that category's contribution, with every other counter read as zero.
pub open spec fn lone_category_points(c: Category, l: LineV, s: Scoring) -> int {
    match c {
        Category::Passing => passing_points(Option::Some(l), s),
        Category::Receiving => receiving_points(Option::Some(l), s) + l.two_pt_conv_made
            * s.two_point_conversion_points,
        Category::Rushing => rushing_points(Option::Some(l), s) + l.two_pt_conv_made
            * s.two_point_conversion_points,
        Category::Fumbling => fumbling_points(Option::Some(l), s),
        Category::Kicking => kicking_points(Option::Some(l), s),
        Category::Returning => returning_points(Option::Some(l), s),
    }
}

/// Zero-fill: a player aggregated by exactly one category still owns
/// exactly one merged row; every other category of that row is absent, and
/// the row's fantasy points are the formula with those counters read as
/// zero — the lone category's contribution.
pub proof fn lemma_zero_fill(
    plays: Seq<PlayRecord>,
    rows: Seq<UnifiedStatRow>,
    s: Scoring,
    k: KeyV,
    c: Category,
)
    requires
        unified_ok(plays, rows),
        keys_of(plays, c).contains(k),
        forall|c2: Category| c2 != c ==> !(#[trigger] keys_of(plays, c2).contains(k)),
    ensures
        exists|i: int| 0 <= i < rows.len() && (#[trigger] rows[i]).key@ == k,
        forall|i: int|
            0 <= i < rows.len() && (#[trigger] rows[i]).key@ == k ==> {
                &&& cat_view(rows[i], c) == Option::Some(sum_line(plays, c, k))
                &&& forall|c2: Category| c2 != c ==> #[trigger] cat_view(rows[i], c2) is None
                &&& spec_points(rows[i], s) == lone_category_points(c, sum_line(plays, c, k), s)
            },
{
    lemma_keys_of_unified(rows);
    assert(crate::merge::cat_order(c) < 6);
    assert(selected_by_any(plays, k));
    assert(keys_of_unified(rows).contains(k));
    let m = choose|m: int| 0 <= m < keys_of_unified(rows).len() && keys_of_unified(rows)[m] == k;
    assert(rows[m].key@ == k);
    assert forall|i: int| 0 <= i < rows.len() && (#[trigger] rows[i]).key@ == k implies {
        &&& cat_view(rows[i], c) == Option::Some(sum_line(plays, c, k))
        &&& forall|c2: Category| c2 != c ==> #[trigger] cat_view(rows[i], c2) is None
        &&& spec_points(rows[i], s) == lone_category_points(c, sum_line(plays, c, k), s)
    } by {
        assert(cat_view(rows[i], c) == expected_line(plays, c, k));
        assert forall|c2: Category| c2 != c implies #[trigger] cat_view(rows[i], c2) is None by {
            assert(crate::merge::cat_order(c2) < 6);
            assert(cat_view(rows[i], c2) == expected_line(plays, c2, k));
        }
        assert(cat_view(rows[i], Category::Passing) == expected_line(plays, Category::Passing, k));
        assert(cat_view(rows[i], Category::Receiving) == expected_line(
            plays,
            Category::Receiving,
            k,
        ));
        assert(cat_view(rows[i], Category::Rushing) == expected_line(plays, Category::Rushing, k));
        assert(cat_view(rows[i], Category::Fumbling) == expected_line(
            plays,
            Category::Fumbling,
            k,
        ));
        assert(cat_view(rows[i], Category::Kicking) == expected_line(plays, Category::Kicking, k));
        assert(cat_view(rows[i], Category::Returning) == expected_line(
            plays,
            Category::Returning,
            k,
        ));
    }
}

/// Strict and inclusive thresholds at their edges: a rushing total of
/// exactly the tier earns no tier bonus and one yard past it earns exactly
/// the bonus, while a made field goal at exactly forty yards counts toward
/// the inclusive forty-plus counter.
pub proof fn lemma_threshold_edges(l: LineV, s: Scoring, p: PlayRecord)
    ensures
        l.rushing_yards == 100 ==> rushing_points(Option::Some(l), s) == rushing_points(
            Option::Some(l),
            Scoring { rushing_100yd_bonus: 0i64, ..s },
        ),
        l.rushing_yards == 101 ==> rushing_points(Option::Some(l), s) - rushing_points(
            Option::Some(l),
            Scoring { rushing_100yd_bonus: 0i64, ..s },
        ) == s.rushing_100yd_bonus,
        p.field_goal_made && p.kick_distance == 40 ==> line_of(Category::Kicking, p).fg_40plus_made
            == 1 && line_of(Category::Kicking, p).fg_50plus_made == 0,
{
}

/// Preset monotonicity: on the same stat row the presets order as
/// no-PPR at most half-PPR at most PPR, with equality exactly on rows
/// without receptions.
pub proof fn lemma_preset_monotonic(r: UnifiedStatRow)
    requires
        match cat_view(r, Category::Receiving) {
            Option::Some(l) => l.receptions >= 0,
            Option::None => true,
        },
    ensures
        spec_points(r, Scoring::no_ppr_spec()) <= spec_points(r, Scoring::half_ppr_spec()),
        spec_points(r, Scoring::half_ppr_spec()) <= spec_points(r, Scoring::ppr_spec()),
        (match cat_view(r, Category::Receiving) {
            Option::Some(l) => l.receptions == 0,
            Option::None => true,
        }) ==> spec_points(r, Scoring::no_ppr_spec()) == spec_points(r, Scoring::ppr_spec()),
{
    let ppr = Scoring::ppr_spec();
    let half = Scoring::half_ppr_spec();
    let nop = Scoring::no_ppr_spec();
    match cat_view(r, Category::Receiving) {
        Option::None => {},
        Option::Some(l) => {
            assert(receiving_points(Option::Some(l), ppr) - receiving_points(
                Option::Some(l),
                half,
            ) == l.receptions * 100 - l.receptions * 50);
            assert(l.receptions * 100 - l.receptions * 50 == l.receptions * 50)
                by (nonlinear_arith);
            assert(receiving_points(Option::Some(l), half) - receiving_points(
                Option::Some(l),
                nop,
            ) == l.receptions * 50 - l.receptions * 0);
            assert(l.receptions >= 0 ==> l.receptions * 50 >= 0) by (nonlinear_arith);
            assert(l.receptions == 0 ==> l.receptions * 50 == 0) by (nonlinear_arith);
        },
    }
}

/// Adds a row's points to the running total of one game.
pub open spec fn add_game_pts(g: Seq<char>) -> spec_fn(FantasyScoreRow, int) -> int {
    |fr: FantasyScoreRow, acc: int|
        if fr.row.key.game_id@ == g {
            acc + fr.fantasy_points as int
        } else {
            acc
        }
}

/// Adds a row's points to the running total of one player.
pub open spec fn add_player_pts(pid: Seq<char>) -> spec_fn(FantasyScoreRow, int) -> int {
    |fr: FantasyScoreRow, acc: int|
        if fr.row.key.player_id@ == pid {
            acc + fr.fantasy_points as int
        } else {
            acc
        }
}

/// The fantasy points of one game summed over a scored table.
pub open spec fn scored_game_total(out: Seq<FantasyScoreRow>, g: Seq<char>) -> int {
    out.fold_right(add_game_pts(g), 0)
}

/// The fantasy points of one player summed over a scored table.
pub open spec fn scored_player_total(out: Seq<FantasyScoreRow>, pid: Seq<char>) -> int {
    out.fold_right(add_player_pts(pid), 0)
}

/// Scoring each bounded row and summing one game's points matches the
/// per-game group sum.
proof fn lemma_scored_game_aligns(rows: Seq<UnifiedStatRow>, s: Scoring, g: Seq<char>, b: int)
    requires
        s.wf(),
        forall|i: int| 0 <= i < rows.len() ==> row_bounded(#[trigger] rows[i]),
    ensures
        spec_scored(rows, s).fold_right(add_game_pts(g), b) == game_sum(rows, s, g) + b,
    decreases rows.len(),
{
    let scored = spec_scored(rows, s);
    if rows.len() == 0 {
        assert(scored =~= Seq::<FantasyScoreRow>::empty());
    } else {
        let d = rows.drop_last();
        assert(forall|i: int| 0 <= i < d.len() ==> d[i] == rows[i]);
        assert(scored.drop_last() =~= spec_scored(d, s));
        assert(scored.last() == spec_scored(rows, s)[rows.len() - 1]);
        lemma_spec_points_bound(rows.last(), s);
        let x = scored.last();
        lemma_scored_game_aligns(d, s, g, add_game_pts(g)(x, b));
    }
}

/// Scoring each bounded row and summing one player's points matches the
/// per-player group sum.
proof fn lemma_scored_player_aligns(rows: Seq<UnifiedStatRow>, s: Scoring, pid: Seq<char>, b: int)
    requires
        s.wf(),
        forall|i: int| 0 <= i < rows.len() ==> row_bounded(#[trigger] rows[i]),
    ensures
        spec_scored(rows, s).fold_right(add_player_pts(pid), b) == player_sum(rows, s, pid) + b,
    decreases rows.len(),
{
    let scored = spec_scored(rows, s);
    if rows.len() == 0 {
        assert(scored =~= Seq::<FantasyScoreRow>::empty());
    } else {
        let d = rows.drop_last();
        assert(forall|i: int| 0 <= i < d.len() ==> d[i] == rows[i]);
        assert(scored.drop_last() =~= spec_scored(d, s));
        assert(scored.last() == spec_scored(rows, s)[rows.len() - 1]);
        lemma_spec_points_bound(rows.last(), s);
        let x = scored.last();
        lemma_scored_player_aligns(d, s, pid, add_player_pts(pid)(x, b));
    }
}

/// Aggregation consistency: summing `fantasy_points` over the player-per-
/// game rows of one game — in any order the scored table presents them —
/// equals the per-game group sum that the per-game aggregate reports; the
/// same holds per player across games.
pub proof fn lemma_aggregation_consistent(
    rows: Seq<UnifiedStatRow>,
    s: Scoring,
    out: Seq<FantasyScoreRow>,
    id: Seq<char>,
)
    requires
        s.wf(),
        forall|i: int| 0 <= i < rows.len() ==> row_bounded(#[trigger] rows[i]),
        out.to_multiset() == spec_scored(rows, s).to_multiset(),
    ensures
        scored_game_total(out, id) == game_sum(rows, s, id),
        scored_player_total(out, id) == player_sum(rows, s, id),
{
    let fg = add_game_pts(id);
    assert forall|x: FantasyScoreRow, y: FantasyScoreRow, v: int| #[trigger] fg(x, fg(y, v)) == fg(
        y,
        fg(x, v),
    ) by {}
    vstd::seq_lib::lemma_fold_right_permutation(out, spec_scored(rows, s), fg, 0);
    lemma_scored_game_aligns(rows, s, id, 0);
    let fp = add_player_pts(id);
    assert forall|x: FantasyScoreRow, y: FantasyScoreRow, v: int| #[trigger] fp(x, fp(y, v)) == fp(
        y,
        fp(x, v),
    ) by {}
    vstd::seq_lib::lemma_fold_right_permutation(out, spec_scored(rows, s), fp, 0);
    lemma_scored_player_aligns(rows, s, id, 0);
}

/// Returner coalescing: a return touchdown whose lateral returner columns
/// are null is attributed to the punt or kickoff returner actually named,
/// never to an empty identity.
pub proof fn lemma_returner_coalesce(p: PlayRecord)
    requires
        p.wf(),
        p.return_touchdown,
        p.lateral_kickoff_returner_player_name is None,
        p.lateral_punt_returner_player_name is None,
        p.kickoff_returner_player_name is None,
        p.punt_returner_player_name is Some,
    ensures
        cat_key(Category::Returning, p) matches Option::Some(k) && k.player_name == opt_text(
            p.punt_returner_player_name,
        ) && k.player_id == opt_text(p.punt_returner_player_id),
        line_of(Category::Returning, p).td_returns == b2i(true),
{
    assert(p.spec_role_id(crate::play::Role::LateralKickoffReturner) is None);
    assert(p.spec_role_id(crate::play::Role::LateralPuntReturner) is None);
    assert(p.spec_role_id(crate::play::Role::KickoffReturner) is None);
}

} // verus!

//! The play-by-play table and the pipeline entry points.

use vstd::prelude::*;

use crate::error::Error;
use crate::filter::PbpFilter;
use crate::merge::build_unified;
use crate::merge::cat_view;
use crate::merge::expected_line;
use crate::merge::selected_by_any;
use crate::merge::unified_ok;
use crate::merge::unified_week;
use crate::merge::keys_of_unified;
use crate::merge::lemma_keys_of_unified;
use crate::merge::UnifiedStatRow;
use crate::play::PlayRecord;
use crate::scoring::lemma_spec_points_bound;
use crate::scoring::row_bounded;
use crate::scoring::sorted_desc;
use crate::scoring::spec_points;
use crate::scoring::spec_scored;
use crate::scoring::FantasyScoreRow;
use crate::scoring::FantasyStatsDf;
use crate::scoring::Scoring;
use crate::stats::all_wf;
use crate::stats::dedup;
use crate::stats::lemma_dedup;
use crate::stats::lemma_sum_line_within;
use crate::stats::line_within;
use crate::stats::Category;
use crate::stats::KeyV;
use crate::MAX_PLAYS;

verus! {

/// The loaded play-by-play table.
pub struct PbpDf {
    pub plays: Vec<PlayRecord>,
}

/// The subsequence of plays the filter accepts, in table order.
pub open spec fn spec_filtered(plays: Seq<PlayRecord>, f: PbpFilter) -> Seq<PlayRecord>
    decreases plays.len(),
{
    if plays.len() == 0 {
        Seq::empty()
    } else {
        let rest = spec_filtered(plays.drop_last(), f);
        if f.spec_matches(plays.last()) {
            rest.push(plays.last())
        } else {
            rest
        }
    }
}

/// Filtering keeps a subset of well-formed plays well formed.
pub proof fn lemma_filtered_wf(plays: Seq<PlayRecord>, f: PbpFilter)
    ensures
        spec_filtered(plays, f).len() <= plays.len(),
        all_wf(plays) ==> all_wf(spec_filtered(plays, f)),
    decreases plays.len(),
{
    if plays.len() > 0 {
        let d = plays.drop_last();
        assert(forall|i: int| 0 <= i < d.len() ==> d[i] == plays[i]);
        lemma_filtered_wf(d, f);
        if all_wf(plays) {
            assert(all_wf(d));
            let rest = spec_filtered(d, f);
            if f.spec_matches(plays.last()) {
                assert(plays[plays.len() - 1].wf());
                assert forall|i: int|
                    0 <= i < spec_filtered(plays, f).len() implies (#[trigger] spec_filtered(
                    plays,
                    f,
                )[i]).wf() by {
                    if i < rest.len() {
                        assert(spec_filtered(plays, f)[i] == rest[i]);
                    }
                }
            }
        }
    }
}

/// The game id column of the play table.
pub open spec fn play_game_ids(plays: Seq<PlayRecord>) -> Seq<Seq<char>>
    decreases plays.len(),
{
    if plays.len() == 0 {
        Seq::empty()
    } else {
        play_game_ids(plays.drop_last()).push(plays.last().game_id@)
    }
}

/// `play_game_ids` is the pointwise game id column.
pub proof fn lemma_play_game_ids(plays: Seq<PlayRecord>)
    ensures
        play_game_ids(plays).len() == plays.len(),
        forall|j: int|
            0 <= j < plays.len() ==> play_game_ids(plays)[j] == (#[trigger] plays[j]).game_id@,
    decreases plays.len(),
{
    if plays.len() > 0 {
        let d = plays.drop_last();
        lemma_play_game_ids(d);
        assert forall|j: int| 0 <= j < plays.len() implies play_game_ids(plays)[j] == (
        #[trigger] plays[j]).game_id@ by {
            if j < plays.len() - 1 {
                assert(d[j] == plays[j]);
                assert(play_game_ids(d)[j] == d[j].game_id@);
            }
        }
    }
}

/// The views of a vector of strings.
pub open spec fn strvec_views(v: Seq<String>) -> Seq<Seq<char>>
    decreases v.len(),
{
    if v.len() == 0 {
        Seq::empty()
    } else {
        strvec_views(v.drop_last()).push(v.last()@)
    }
}

/// `strvec_views` is the pointwise view column.
pub proof fn lemma_strvec_views(v: Seq<String>)
    ensures
        strvec_views(v).len() == v.len(),
        forall|j: int| 0 <= j < v.len() ==> strvec_views(v)[j] == (#[trigger] v[j])@,
    decreases v.len(),
{
    if v.len() > 0 {
        let d = v.drop_last();
        lemma_strvec_views(d);
        assert forall|j: int| 0 <= j < v.len() implies strvec_views(v)[j] == (#[trigger] v[j])@ by {
            if j < v.len() - 1 {
                assert(d[j] == v[j]);
                assert(strvec_views(d)[j] == d[j]@);
            }
        }
    }
}

impl PbpDf {
    /// A processable table: every play well formed, within the batch size.
    pub open spec fn wf(self) -> bool {
        &&& all_wf(self.plays@)
        &&& self.plays@.len() <= MAX_PLAYS
    }

    /// Wraps a loaded play table.
    pub fn new(plays: Vec<PlayRecord>) -> (r: Self)
        ensures
            r.plays@ == plays@,
    {
        PbpDf { plays }
    }

    /// Restricts the table to the plays the filter accepts.
    pub fn filter(self, filter: PbpFilter) -> (r: Result<Self, Error>)
        ensures
            r is Ok,
            r matches Ok(df) ==> df.plays@ == spec_filtered(self.plays@, filter) && (self.wf()
                ==> df.wf()),
    {
        proof {
            lemma_filtered_wf(self.plays@, filter);
        }
        let ghost orig = self.plays@;
        let mut rest = self.plays;
        let mut kept: Vec<PlayRecord> = Vec::new();
        proof {
            assert(orig.take(0) =~= Seq::<PlayRecord>::empty());
        }
        while rest.len() > 0
            invariant
                rest@.len() <= orig.len(),
                rest@ == orig.skip(orig.len() - rest@.len()),
                kept@ == spec_filtered(orig.take(orig.len() - rest@.len()), filter),
            decreases rest@.len(),
        {
            let ghost k = orig.len() - rest@.len();
            proof {
                assert(rest@[0] == orig.skip(k as int)[0]);
                assert(orig.take(k as int + 1) =~= orig.take(k as int).push(orig[k as int]));
                assert(orig.take(k as int).push(orig[k as int]).drop_last() =~= orig.take(
                    k as int,
                ));
            }
            let p = rest.remove(0);
            proof {
                assert(rest@ =~= orig.skip(k as int + 1));
            }
            if filter.matches(&p) {
                kept.push(p);
            }
        }
        proof {
            assert(orig.take(orig.len() - rest@.len()) =~= orig);
        }
        Ok(PbpDf { plays: kept })
    }

    /// Runs the six category aggregations and the merge combiner, yielding
    /// the unified per-player stat table.
    pub fn fantasy_stats(self) -> (r: Result<FantasyStatsDf, Error>)
        requires
            self.wf(),
        ensures
            r is Ok,
            r matches Ok(df) ==> unified_ok(self.plays@, df.rows@) && df.wf(),
    {
        let rows = build_unified(&self.plays);
        proof {
            lemma_unified_bounded(self.plays@, rows@);
        }
        Ok(FantasyStatsDf { rows })
    }
}

/// A correctly merged table carries only bounded counter sums.
pub proof fn lemma_unified_bounded(plays: Seq<PlayRecord>, rows: Seq<UnifiedStatRow>)
    requires
        unified_ok(plays, rows),
        all_wf(plays),
        plays.len() <= MAX_PLAYS,
    ensures
        forall|i: int| 0 <= i < rows.len() ==> row_bounded(#[trigger] rows[i]),
{
    assert forall|i: int| 0 <= i < rows.len() implies row_bounded(#[trigger] rows[i]) by {
        assert forall|c: Category| match #[trigger] cat_view(rows[i], c) {
            Option::Some(l) => line_within(l, MAX_PLAYS as int),
            Option::None => true,
        } by {
            assert(crate::merge::cat_order(c) < 6);
            assert(cat_view(rows[i], c) == expected_line(plays, c, rows[i].key@));
            match cat_view(rows[i], c) {
                Option::Some(l) => {
                    lemma_sum_line_within(plays, c, rows[i].key@);
                    crate::stats::lemma_line_within_widen(
                        l,
                        plays.len() as int,
                        MAX_PLAYS as int,
                    );
                },
                Option::None => {},
            }
        }
    }
}

/// Checks that the table holds exactly one distinct game id; on failure
/// reports every distinct id seen, in first-appearance order.
pub fn assert_single_game_id(df: &PbpDf) -> (r: Result<(), Error>)
    ensures
        match r {
            Ok(u) => dedup(play_game_ids(df.plays@)).len() == 1,
            Err(e) => e matches Error::NotASingleGame(ids) && dedup(
                play_game_ids(df.plays@),
            ).len() != 1 && strvec_views(ids@) == dedup(play_game_ids(df.plays@)),
        },
{
    let n = df.plays.len();
    let mut ids: Vec<String> = Vec::new();
    let mut i: usize = 0;
    proof {
        assert(df.plays@.take(0) =~= Seq::<PlayRecord>::empty());
    }
    while i < n
        invariant
            n == df.plays@.len(),
            i <= n,
            strvec_views(ids@) == dedup(play_game_ids(df.plays@.take(i as int))),
        decreases n - i,
    {
        let ghost prefix = df.plays@.take(i as int);
        let ghost idv = df.plays@[i as int].game_id@;
        proof {
            assert(df.plays@.take(i as int + 1) =~= prefix.push(df.plays@[i as int]));
            assert(prefix.push(df.plays@[i as int]).drop_last() =~= prefix);
            assert(play_game_ids(prefix.push(df.plays@[i as int])) =~= play_game_ids(
                prefix,
            ).push(idv)) by {
                lemma_play_game_ids(prefix.push(df.plays@[i as int]));
                lemma_play_game_ids(prefix);
            }
            assert(play_game_ids(prefix).push(idv).drop_last() =~= play_game_ids(prefix));
            lemma_dedup(play_game_ids(prefix));
            lemma_strvec_views(ids@);
        }
        let g = &df.plays[i].game_id;
        let m = ids.len();
        let mut j: usize = 0;
        let mut found: bool = false;
        while j < m
            invariant
                m == ids@.len(),
                j <= m,
                !found ==> forall|q: int| 0 <= q < j ==> (#[trigger] ids@[q])@ != g@,
                found ==> exists|q: int| 0 <= q < m && (#[trigger] ids@[q])@ == g@,
            decreases m - j,
        {
            if ids[j] == *g {
                found = true;
                j = m;
            } else {
                j = j + 1;
            }
        }
        proof {
            lemma_strvec_views(ids@);
            if found {
                let q = choose|q: int| 0 <= q < m && (#[trigger] ids@[q])@ == g@;
                assert(strvec_views(ids@)[q] == ids@[q]@);
                assert(strvec_views(ids@).contains(idv));
                assert(dedup(play_game_ids(prefix)).contains(idv));
            } else {
                assert forall|q: int| 0 <= q < strvec_views(ids@).len() implies strvec_views(
                    ids@,
                )[q] != idv by {
                    assert(strvec_views(ids@)[q] == ids@[q]@);
                }
                assert(!strvec_views(ids@).contains(idv));
            }
        }
        if !found {
            let ghost before = ids@;
            ids.push(g.clone());
            proof {
                assert(ids@.drop_last() =~= before);
                assert(strvec_views(ids@) == strvec_views(before).push(idv));
            }
        }
        i = i + 1;
    }
    proof {
        assert(df.plays@.take(n as int) =~= df.plays@);
        lemma_strvec_views(ids@);
    }
    if ids.len() == 1 {
        Ok(())
    } else {
        Err(Error::NotASingleGame(ids))
    }
}

/// Every output row of an end-to-end scoring run: the unified counters of
/// its player, the points of the formula on them, one row per selected
/// player, sorted by points descending.
pub open spec fn scored_table_ok(
    plays: Seq<PlayRecord>,
    s: Scoring,
    out: Seq<FantasyScoreRow>,
) -> bool {
    &&& sorted_desc(out)
    &&& forall|i: int|
        0 <= i < out.len() ==> (#[trigger] out[i]).fantasy_points as int == spec_points(
            out[i].row,
            s,
        )
    &&& forall|i: int, c: Category|
        0 <= i < out.len() ==> #[trigger] cat_view((#[trigger] out[i]).row, c) == expected_line(
            plays,
            c,
            out[i].row.key@,
        )
    &&& forall|i: int|
        0 <= i < out.len() ==> (#[trigger] out[i]).row.week == unified_week(
            plays,
            out[i].row.key@,
        )
    &&& forall|i: int, j: int|
        0 <= i < out.len() && 0 <= j < out.len() && i != j ==> (#[trigger] out[i]).row.key@ != (
        #[trigger] out[j]).row.key@
    &&& forall|k: KeyV|
        #[trigger] selected_by_any(plays, k) <==> exists|i: int|
            0 <= i < out.len() && (#[trigger] out[i]).row.key@ == k
}

/// The end-to-end pipeline: aggregates the plays into the six categories,
/// merges them, scores every player and sorts by fantasy points.
pub fn fantasy_stats(df: PbpDf, scoring: Scoring) -> (r: Result<Vec<FantasyScoreRow>, Error>)
    requires
        df.wf(),
        scoring.wf(),
    ensures
        r is Ok,
        r matches Ok(out) ==> scored_table_ok(df.plays@, scoring, out@),
{
    broadcast use vstd::seq_lib::group_to_multiset_ensures;

    let ghost plays = df.plays@;
    let stats = match df.fantasy_stats() {
        Ok(stats) => stats,
        Err(e) => {
            return Err(e);
        },
    };
    let ghost rows = stats.rows@;
    let out = match stats.score(scoring) {
        Ok(out) => out,
        Err(e) => {
            return Err(e);
        },
    };
    proof {
        let scored = spec_scored(rows, scoring);
        lemma_keys_of_unified(rows);
        // scored rows have pairwise distinct keys, so each value occurs once
        assert forall|m1: int, m2: int|
            0 <= m1 < scored.len() && 0 <= m2 < scored.len() && m1 != m2 implies scored[m1]
            != scored[m2] by {
            assert(keys_of_unified(rows)[m1] == rows[m1].key@);
            assert(keys_of_unified(rows)[m2] == rows[m2].key@);
            assert(rows[m1].key@ != rows[m2].key@);
            assert(scored[m1].row == rows[m1] && scored[m2].row == rows[m2]);
        }
        assert(scored.no_duplicates());
        assert forall|i: int| 0 <= i < out@.len() implies scored.contains(#[trigger] out@[i]) by {
            assert(out@.contains(out@[i]));
            assert(out@.to_multiset().count(out@[i]) > 0);
            assert(scored.to_multiset().count(out@[i]) > 0);
        }
        assert forall|i: int| 0 <= i < out@.len() implies {
            &&& (#[trigger] out@[i]).fantasy_points as int == spec_points(out@[i].row, scoring)
            &&& out@[i].row.week == unified_week(plays, out@[i].row.key@)
        } by {
            let m = choose|m: int| 0 <= m < scored.len() && scored[m] == out@[i];
            assert(out@[i].row == rows[m]);
            lemma_spec_points_bound(rows[m], scoring);
            assert(crate::merge::cat_order(Category::Passing) < 6);
        }
        assert forall|i: int, c: Category|
            0 <= i < out@.len() implies #[trigger] cat_view(
            (#[trigger] out@[i]).row,
            c,
        ) == expected_line(plays, c, out@[i].row.key@) by {
            let m = choose|m: int| 0 <= m < scored.len() && scored[m] == out@[i];
            assert(out@[i].row == rows[m]);
            assert(crate::merge::cat_order(c) < 6);
        }
        assert forall|i: int, j: int|
            0 <= i < out@.len() && 0 <= j < out@.len() && i != j implies (
        #[trigger] out@[i]).row.key@ != (#[trigger] out@[j]).row.key@ by {
            if out@[i].row.key@ == out@[j].row.key@ {
                let mi = choose|m: int| 0 <= m < scored.len() && scored[m] == out@[i];
                let mj = choose|m: int| 0 <= m < scored.len() && scored[m] == out@[j];
                assert(out@[i].row == rows[mi] && out@[j].row == rows[mj]);
                assert(keys_of_unified(rows)[mi] == rows[mi].key@);
                assert(keys_of_unified(rows)[mj] == rows[mj].key@);
                assert(keys_of_unified(rows).no_duplicates());
                assert(mi == mj);
                assert(out@[i] == out@[j]);
                crate::scoring::lemma_count_two(out@, i, j);
                scored.lemma_multiset_has_no_duplicates();
                assert(scored.to_multiset().count(out@[i]) <= 1);
                assert(false);
            }
        }
        assert forall|k: KeyV| #[trigger] selected_by_any(plays, k) <==> exists|i: int|
            0 <= i < out@.len() && (#[trigger] out@[i]).row.key@ == k by {
            if selected_by_any(plays, k) {
                assert(keys_of_unified(rows).contains(k));
                let m = choose|m: int|
                    0 <= m < keys_of_unified(rows).len() && keys_of_unified(rows)[m] == k;
                assert(rows[m].key@ == k);
                assert(scored[m].row == rows[m]);
                assert(scored.contains(scored[m]));
                assert(scored.to_multiset().count(scored[m]) > 0);
                assert(out@.to_multiset().count(scored[m]) > 0);
                assert(out@.contains(scored[m]));
                let i = choose|i: int| 0 <= i < out@.len() && out@[i] == scored[m];
                assert(out@[i].row.key@ == k);
            } else {
                assert forall|i: int|
                    0 <= i < out@.len() implies (#[trigger] out@[i]).row.key@ != k by {
                    let m = choose|m: int| 0 <= m < scored.len() && scored[m] == out@[i];
                    assert(out@[i].row == rows[m]);
                    assert(keys_of_unified(rows)[m] == rows[m].key@);
                    assert(keys_of_unified(rows).contains(rows[m].key@));
                }
            }
        }
    }
    Ok(out)
}

} // verus!

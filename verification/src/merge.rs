//! The merge combiner: full outer join of the six category tables.
//!
//! Tables are merged one after another on the shared (game, team, player)
//! key. A key already present keeps its row and gains the new table's
//! counters; a new key appends a row that carries only the new table's
//! counters. A player present in a single category therefore still owns
//! exactly one merged row, with every other category absent.

use vstd::prelude::*;

use crate::play::PlayRecord;
use crate::stats::aggregate;
use crate::stats::all_wf;
use crate::stats::category_table_ok;
use crate::stats::clone_key;
use crate::stats::first_week;
use crate::stats::key_eq;
use crate::stats::keys_of;
use crate::stats::keys_of_rows;
use crate::stats::lemma_dedup;
use crate::stats::lemma_keys_of_rows;
use crate::stats::sum_line;
use crate::stats::CatRow;
use crate::stats::Category;
use crate::stats::KeyV;
use crate::stats::LineV;
use crate::stats::RowKey;
use crate::stats::StatLine;
use crate::MAX_PLAYS;

verus! {

/// The full-outer-join union of the six category tables, one row per
/// (game, team, player). A category a player never appeared in stays
/// `None` and is read as zero by the scoring formula, never as an error.
pub struct UnifiedStatRow {
    pub key: RowKey,
    pub week: u32,
    pub passing: Option<StatLine>,
    pub receiving: Option<StatLine>,
    pub rushing: Option<StatLine>,
    pub fumbling: Option<StatLine>,
    pub kicking: Option<StatLine>,
    pub returning: Option<StatLine>,
}

/// The counters a merged row holds for one category.
pub open spec fn cat_view(r: UnifiedStatRow, cat: Category) -> Option<LineV> {
    let f = match cat {
        Category::Passing => r.passing,
        Category::Receiving => r.receiving,
        Category::Rushing => r.rushing,
        Category::Fumbling => r.fumbling,
        Category::Kicking => r.kicking,
        Category::Returning => r.returning,
    };
    match f {
        Option::Some(l) => Option::Some(l@),
        Option::None => Option::None,
    }
}

/// The key column of the merged table.
pub open spec fn keys_of_unified(rows: Seq<UnifiedStatRow>) -> Seq<KeyV>
    decreases rows.len(),
{
    if rows.len() == 0 {
        Seq::empty()
    } else {
        keys_of_unified(rows.drop_last()).push(rows.last().key@)
    }
}

/// The counters a category table holds for key `k`, if any.
pub open spec fn lookup_line(t: Seq<CatRow>, k: KeyV) -> Option<LineV>
    decreases t.len(),
{
    if t.len() == 0 {
        Option::None
    } else if t.last().key@ == k {
        Option::Some(t.last().line@)
    } else {
        lookup_line(t.drop_last(), k)
    }
}

/// The week a category table records for key `k`, if any.
pub open spec fn lookup_week(t: Seq<CatRow>, k: KeyV) -> Option<u32>
    decreases t.len(),
{
    if t.len() == 0 {
        Option::None
    } else if t.last().key@ == k {
        Option::Some(t.last().week)
    } else {
        lookup_week(t.drop_last(), k)
    }
}

/// `keys_of_unified` is the pointwise key column.
pub proof fn lemma_keys_of_unified(rows: Seq<UnifiedStatRow>)
    ensures
        keys_of_unified(rows).len() == rows.len(),
        forall|j: int|
            0 <= j < rows.len() ==> keys_of_unified(rows)[j] == (#[trigger] rows[j]).key@,
    decreases rows.len(),
{
    if rows.len() > 0 {
        let d = rows.drop_last();
        lemma_keys_of_unified(d);
        assert forall|j: int| 0 <= j < rows.len() implies keys_of_unified(rows)[j] == (
        #[trigger] rows[j]).key@ by {
            if j < rows.len() - 1 {
                assert(d[j] == rows[j]);
                assert(keys_of_unified(d)[j] == d[j].key@);
            }
        }
    }
}

/// A lookup misses exactly the keys a table lacks, and a table with unique
/// keys answers a lookup from its matching row.
pub proof fn lemma_lookup(t: Seq<CatRow>, k: KeyV)
    ensures
        !keys_of_rows(t).contains(k) ==> lookup_line(t, k) is None && lookup_week(t, k) is None,
        keys_of_rows(t).no_duplicates() ==> forall|i: int|
            0 <= i < t.len() && (#[trigger] t[i]).key@ == k ==> lookup_line(t, k) == Option::Some(
                t[i].line@,
            ) && lookup_week(t, k) == Option::Some(t[i].week),
    decreases t.len(),
{
    lemma_keys_of_rows(t);
    if t.len() > 0 {
        let d = t.drop_last();
        lemma_lookup(d, k);
        lemma_keys_of_rows(d);
        if !keys_of_rows(t).contains(k) {
            assert(keys_of_rows(t)[t.len() - 1] == t.last().key@);
            assert(t.last().key@ != k);
            assert forall|j: int| 0 <= j < keys_of_rows(d).len() implies keys_of_rows(d)[j]
                != k by {
                assert(keys_of_rows(d)[j] == d[j].key@);
                assert(keys_of_rows(t)[j] == t[j].key@);
                assert(d[j] == t[j]);
            }
            assert(!keys_of_rows(d).contains(k));
        }
        if keys_of_rows(t).no_duplicates() {
            assert forall|i: int, j: int|
                0 <= i < d.len() && 0 <= j < d.len() && i != j implies keys_of_rows(d)[i]
                != keys_of_rows(d)[j] by {
                assert(keys_of_rows(t)[i] == t[i].key@ && keys_of_rows(t)[j] == t[j].key@);
            }
            assert(keys_of_rows(d).no_duplicates());
            assert forall|i: int|
                0 <= i < t.len() && (#[trigger] t[i]).key@ == k implies lookup_line(t, k)
                == Option::Some(t[i].line@) && lookup_week(t, k) == Option::Some(t[i].week) by {
                if t.last().key@ == k {
                    if i < t.len() - 1 {
                        assert(keys_of_rows(t)[i] == t[i].key@);
                        assert(keys_of_rows(t)[t.len() - 1] == t.last().key@);
                        assert(false);
                    }
                } else {
                    assert(i < t.len() - 1);
                    assert(d[i] == t[i]);
                    assert(d[i].key@ == k);
                }
            }
        }
    }
}

/// Finds the merged row holding key `k`, if any.
fn find_unified(rows: &Vec<UnifiedStatRow>, k: &RowKey) -> (r: Option<usize>)
    ensures
        match r {
            Option::Some(j) => j < rows@.len() && rows@[j as int].key@ == k@,
            Option::None => !keys_of_unified(rows@).contains(k@),
        },
{
    let n = rows.len();
    let mut j: usize = 0;
    while j < n
        invariant
            n == rows@.len(),
            j <= n,
            forall|m: int| 0 <= m < j ==> (#[trigger] rows@[m]).key@ != k@,
        decreases n - j,
    {
        if key_eq(&rows[j].key, k) {
            return Option::Some(j);
        }
        j = j + 1;
    }
    proof {
        lemma_keys_of_unified(rows@);
        assert forall|m: int| 0 <= m < keys_of_unified(rows@).len() implies keys_of_unified(
            rows@,
        )[m] != k@ by {
            assert(rows@[m].key@ != k@);
        }
    }
    Option::None
}

/// Stores one category's counters in a merged row.
fn set_cat_line(r: &mut UnifiedStatRow, cat: Category, line: StatLine)
    ensures
        final(r).key == old(r).key,
        final(r).week == old(r).week,
        cat_view(*final(r), cat) == Option::Some(line@),
        forall|c: Category| c != cat ==> cat_view(*final(r), c) == cat_view(*old(r), c),
{
    match cat {
        Category::Passing => r.passing = Option::Some(line),
        Category::Receiving => r.receiving = Option::Some(line),
        Category::Rushing => r.rushing = Option::Some(line),
        Category::Fumbling => r.fumbling = Option::Some(line),
        Category::Kicking => r.kicking = Option::Some(line),
        Category::Returning => r.returning = Option::Some(line),
    }
}

/// Merges one category table into the growing unified table: a full outer
/// join on the row key, coalescing on the key columns.
pub fn merge_one(unified: &mut Vec<UnifiedStatRow>, table: &Vec<CatRow>, cat: Category)
    requires
        keys_of_unified(old(unified)@).no_duplicates(),
        keys_of_rows(table@).no_duplicates(),
        forall|i: int|
            0 <= i < old(unified)@.len() ==> cat_view(
                #[trigger] old(unified)@[i],
                cat,
            ) is None,
    ensures
        keys_of_unified(final(unified)@).no_duplicates(),
        forall|k: KeyV|
            #[trigger] keys_of_unified(final(unified)@).contains(k) <==> (keys_of_unified(
                old(unified)@,
            ).contains(k) || keys_of_rows(table@).contains(k)),
        final(unified)@.len() >= old(unified)@.len(),
        final(unified)@.len() <= old(unified)@.len() + table@.len(),
        // rows that were already there keep their place, identity and the
        // other categories, and gain this table's counters for their key
        forall|i: int|
            0 <= i < old(unified)@.len() ==> (#[trigger] final(unified)@[i]).key == old(
                unified,
            )@[i].key,
        forall|i: int|
            0 <= i < old(unified)@.len() ==> (#[trigger] final(unified)@[i]).week == old(
                unified,
            )@[i].week,
        forall|i: int, c: Category|
            0 <= i < old(unified)@.len() && c != cat ==> #[trigger] cat_view(
                final(unified)@[i],
                c,
            ) == cat_view(old(unified)@[i], c),
        // appended rows carry a key new to the union, its week from this
        // table, and no other category
        forall|i: int|
            old(unified)@.len() <= i < final(unified)@.len() ==> !keys_of_unified(
                old(unified)@,
            ).contains((#[trigger] final(unified)@[i]).key@),
        forall|i: int|
            old(unified)@.len() <= i < final(unified)@.len() ==> lookup_week(
                table@,
                (#[trigger] final(unified)@[i]).key@,
            ) == Option::Some(final(unified)@[i].week),
        forall|i: int, c: Category|
            old(unified)@.len() <= i < final(unified)@.len() && c != cat ==> #[trigger] cat_view(
                final(unified)@[i],
                c,
            ) is None,
        // every row answers this category by lookup in the table
        forall|i: int|
            0 <= i < final(unified)@.len() ==> cat_view(#[trigger] final(unified)@[i], cat)
                == lookup_line(table@, final(unified)@[i].key@),
{
    let ghost base = unified@;
    let n = table.len();
    let mut t: usize = 0;
    while t < n
        invariant
            n == table@.len(),
            t <= n,
            keys_of_rows(table@).no_duplicates(),
            keys_of_unified(base).no_duplicates(),
            forall|i: int| 0 <= i < base.len() ==> cat_view(#[trigger] base[i], cat) is None,
            unified@.len() >= base.len(),
            unified@.len() <= base.len() + t,
            keys_of_unified(unified@).no_duplicates(),
            forall|k: KeyV|
                #[trigger] keys_of_unified(unified@).contains(k) <==> (keys_of_unified(
                    base,
                ).contains(k) || keys_of_rows(table@.take(t as int)).contains(k)),
            forall|i: int|
                0 <= i < base.len() ==> (#[trigger] unified@[i]).key == base[i].key,
            forall|i: int|
                0 <= i < base.len() ==> (#[trigger] unified@[i]).week == base[i].week,
            forall|i: int, c: Category|
                0 <= i < base.len() && c != cat ==> #[trigger] cat_view(unified@[i], c)
                    == cat_view(base[i], c),
            forall|i: int|
                base.len() <= i < unified@.len() ==> !keys_of_unified(base).contains(
                    (#[trigger] unified@[i]).key@,
                ),
            forall|i: int|
                base.len() <= i < unified@.len() ==> lookup_week(
                    table@.take(t as int),
                    (#[trigger] unified@[i]).key@,
                ) == Option::Some(unified@[i].week),
            forall|i: int, c: Category|
                base.len() <= i < unified@.len() && c != cat ==> #[trigger] cat_view(
                    unified@[i],
                    c,
                ) is None,
            forall|i: int|
                0 <= i < unified@.len() ==> cat_view(#[trigger] unified@[i], cat) == lookup_line(
                    table@.take(t as int),
                    unified@[i].key@,
                ),
        decreases n - t,
    {
        let ghost tprefix = table@.take(t as int);
        let ghost trow = table@[t as int];
        proof {
            assert(table@.take(t as int + 1) =~= tprefix.push(trow));
            assert(tprefix.push(trow).drop_last() =~= tprefix);
            lemma_keys_of_rows(table@);
            lemma_keys_of_rows(tprefix);
            // this table key is new to the processed prefix
            assert forall|j: int| 0 <= j < keys_of_rows(tprefix).len() implies keys_of_rows(
                tprefix,
            )[j] != trow.key@ by {
                assert(keys_of_rows(tprefix)[j] == tprefix[j].key@);
                assert(keys_of_rows(table@)[j] == table@[j].key@);
                assert(keys_of_rows(table@)[t as int] == trow.key@);
            }
            assert(!keys_of_rows(tprefix).contains(trow.key@));
        }
        let row = &table[t];
        let line = row.line;
        match find_unified(unified, &row.key) {
            Option::Some(j) => {
                proof {
                    lemma_keys_of_unified(unified@);
                    assert(keys_of_unified(unified@)[j as int] == unified@[j as int].key@);
                    assert(keys_of_unified(unified@).contains(trow.key@));
                    if j >= base.len() {
                        // an appended row already carries a processed table
                        // key, which would duplicate a key in the table
                        assert(lookup_week(tprefix, trow.key@) is Some);
                        lemma_lookup(tprefix, trow.key@);
                        assert(false);
                    }
                }
                let ghost before = unified@;
                set_cat_line(&mut unified[j], cat, line);
                proof {
                    assert(unified@.len() == before.len());
                    assert(forall|i: int|
                        0 <= i < unified@.len() && i != j ==> unified@[i] == before[i]);
                    assert(unified@[j as int].key == before[j as int].key);
                    lemma_keys_of_unified(unified@);
                    lemma_keys_of_unified(before);
                    assert forall|m: int| 0 <= m < unified@.len() implies keys_of_unified(
                        unified@,
                    )[m] == keys_of_unified(before)[m] by {
                        assert(keys_of_unified(unified@)[m] == unified@[m].key@);
                        assert(keys_of_unified(before)[m] == before[m].key@);
                    }
                    assert(keys_of_unified(unified@) =~= keys_of_unified(before));
                    assert forall|k: KeyV| #[trigger] keys_of_unified(unified@).contains(k)
                        <==> (keys_of_unified(base).contains(k) || keys_of_rows(
                        tprefix.push(trow),
                    ).contains(k)) by {
                        crate::stats::lemma_contains_push(keys_of_rows(tprefix), trow.key@, k);
                        assert(keys_of_rows(tprefix.push(trow)) == keys_of_rows(tprefix).push(
                            trow.key@,
                        )) by {
                            lemma_keys_of_rows(tprefix.push(trow));
                            lemma_keys_of_rows(tprefix);
                            assert(keys_of_rows(tprefix.push(trow)) =~= keys_of_rows(
                                tprefix,
                            ).push(trow.key@));
                        }
                    }
                    assert forall|i: int|
                        0 <= i < unified@.len() implies cat_view(#[trigger] unified@[i], cat)
                        == lookup_line(tprefix.push(trow), unified@[i].key@) by {
                        if i == j {
                            assert(cat_view(unified@[i], cat) == Option::Some(line@));
                            assert(trow.line == line);
                        } else {
                            assert(unified@[i] == before[i]);
                            assert(unified@[i].key@ != trow.key@) by {
                                assert(keys_of_unified(before).no_duplicates());
                                assert(keys_of_unified(before)[i] == before[i].key@);
                                assert(keys_of_unified(before)[j as int] == trow.key@);
                            }
                        }
                    }
                    assert forall|i: int|
                        base.len() <= i < unified@.len() implies lookup_week(
                        tprefix.push(trow),
                        (#[trigger] unified@[i]).key@,
                    ) == Option::Some(unified@[i].week) by {
                        assert(unified@[i] == before[i]);
                        assert(unified@[i].key@ != trow.key@) by {
                            assert(keys_of_unified(before).no_duplicates());
                            assert(keys_of_unified(before)[i] == before[i].key@);
                            assert(keys_of_unified(before)[j as int] == trow.key@);
                        }
                    }
                }
            },
            Option::None => {
                let newrow = UnifiedStatRow {
                    key: clone_key(&row.key),
                    week: row.week,
                    passing: Option::None,
                    receiving: Option::None,
                    rushing: Option::None,
                    fumbling: Option::None,
                    kicking: Option::None,
                    returning: Option::None,
                };
                let ghost before = unified@;
                unified.push(newrow);
                let last = unified.len() - 1;
                set_cat_line(&mut unified[last], cat, line);
                proof {
                    assert(unified@.len() == before.len() + 1);
                    assert(forall|i: int| 0 <= i < before.len() ==> unified@[i] == before[i]);
                    assert(unified@[unified@.len() - 1].key@ == trow.key@);
                    lemma_keys_of_unified(unified@);
                    lemma_keys_of_unified(before);
                    assert(keys_of_unified(unified@) =~= keys_of_unified(before).push(trow.key@))
                        by {
                        assert forall|m: int| 0 <= m < unified@.len() implies keys_of_unified(
                            unified@,
                        )[m] == keys_of_unified(before).push(trow.key@)[m] by {
                            assert(keys_of_unified(unified@)[m] == unified@[m].key@);
                            if m < before.len() {
                                assert(keys_of_unified(before)[m] == before[m].key@);
                            }
                        }
                    }
                    assert(keys_of_rows(tprefix.push(trow)) == keys_of_rows(tprefix).push(
                        trow.key@,
                    )) by {
                        lemma_keys_of_rows(tprefix.push(trow));
                        lemma_keys_of_rows(tprefix);
                        assert(keys_of_rows(tprefix.push(trow)) =~= keys_of_rows(tprefix).push(
                            trow.key@,
                        ));
                    }
                    assert forall|k: KeyV| #[trigger] keys_of_unified(unified@).contains(k)
                        <==> (keys_of_unified(base).contains(k) || keys_of_rows(
                        tprefix.push(trow),
                    ).contains(k)) by {
                        crate::stats::lemma_contains_push(
                            keys_of_unified(before),
                            trow.key@,
                            k,
                        );
                        crate::stats::lemma_contains_push(keys_of_rows(tprefix), trow.key@, k);
                    }
                    assert(keys_of_unified(unified@).no_duplicates()) by {
                        let out = keys_of_unified(unified@);
                        assert(out == keys_of_unified(before).push(trow.key@));
                        assert(!keys_of_unified(before).contains(trow.key@));
                        assert forall|a: int, b: int|
                            0 <= a < out.len() && 0 <= b < out.len() && a != b implies out[a]
                            != out[b] by {
                            if a < out.len() - 1 && b < out.len() - 1 {
                                assert(out[a] == keys_of_unified(before)[a]);
                                assert(out[b] == keys_of_unified(before)[b]);
                            } else if a == out.len() - 1 {
                                assert(keys_of_unified(before).contains(
                                    keys_of_unified(before)[b],
                                ));
                            } else {
                                assert(keys_of_unified(before).contains(
                                    keys_of_unified(before)[a],
                                ));
                            }
                        }
                    }
                    assert forall|i: int|
                        0 <= i < unified@.len() implies cat_view(#[trigger] unified@[i], cat)
                        == lookup_line(tprefix.push(trow), unified@[i].key@) by {
                        if i == unified@.len() - 1 {
                            assert(cat_view(unified@[i], cat) == Option::Some(line@));
                            assert(trow.line == line);
                        } else {
                            assert(unified@[i] == before[i]);
                            assert(unified@[i].key@ != trow.key@) by {
                                assert(keys_of_unified(before)[i] == before[i].key@);
                                assert(keys_of_unified(before).contains(before[i].key@));
                            }
                        }
                    }
                    assert forall|i: int|
                        base.len() <= i < unified@.len() implies lookup_week(
                        tprefix.push(trow),
                        (#[trigger] unified@[i]).key@,
                    ) == Option::Some(unified@[i].week) by {
                        if i < unified@.len() - 1 {
                            assert(unified@[i] == before[i]);
                            assert(unified@[i].key@ != trow.key@) by {
                                assert(keys_of_unified(before)[i] == before[i].key@);
                                assert(keys_of_unified(before).contains(before[i].key@));
                            }
                        } else {
                            assert(unified@[i].week == trow.week);
                        }
                    }
                }
            },
        }
        t = t + 1;
    }
    proof {
        assert(table@.take(n as int) =~= table@);
    }
}

/// The fixed merge order of the six category tables.
pub open spec fn cat_order(c: Category) -> int {
    match c {
        Category::Passing => 0,
        Category::Receiving => 1,
        Category::Rushing => 2,
        Category::Kicking => 3,
        Category::Returning => 4,
        Category::Fumbling => 5,
    }
}

/// The category at a merge position.
pub open spec fn order_cat(j: int) -> Category {
    if j == 0 {
        Category::Passing
    } else if j == 1 {
        Category::Receiving
    } else if j == 2 {
        Category::Rushing
    } else if j == 3 {
        Category::Kicking
    } else if j == 4 {
        Category::Returning
    } else {
        Category::Fumbling
    }
}

/// Whether any of the first `j` categories in merge order selects a play
/// with key `k`.
pub open spec fn selected_upto(plays: Seq<PlayRecord>, k: KeyV, j: int) -> bool {
    exists|c: Category|
        cat_order(c) < j && #[trigger] keys_of(plays, c).contains(k)
}

/// Whether any category at all selects a play with key `k`.
pub open spec fn selected_by_any(plays: Seq<PlayRecord>, k: KeyV) -> bool {
    selected_upto(plays, k, 6)
}

/// The counters the merged table owes key `k` for one category: the
/// category's sums when the category selects a play with that key, absent
/// otherwise.
pub open spec fn expected_line(plays: Seq<PlayRecord>, cat: Category, k: KeyV) -> Option<LineV> {
    if keys_of(plays, cat).contains(k) {
        Option::Some(sum_line(plays, cat, k))
    } else {
        Option::None
    }
}

/// The week a merged row records: the first week of the first category in
/// merge order that selects a play with the row's key.
pub open spec fn unified_week(plays: Seq<PlayRecord>, k: KeyV) -> u32 {
    if keys_of(plays, Category::Passing).contains(k) {
        first_week(plays, Category::Passing, k)
    } else if keys_of(plays, Category::Receiving).contains(k) {
        first_week(plays, Category::Receiving, k)
    } else if keys_of(plays, Category::Rushing).contains(k) {
        first_week(plays, Category::Rushing, k)
    } else if keys_of(plays, Category::Kicking).contains(k) {
        first_week(plays, Category::Kicking, k)
    } else if keys_of(plays, Category::Returning).contains(k) {
        first_week(plays, Category::Returning, k)
    } else if keys_of(plays, Category::Fumbling).contains(k) {
        first_week(plays, Category::Fumbling, k)
    } else {
        0
    }
}

/// The state of the unified table once the first `j` categories in merge
/// order have been joined in.
pub open spec fn merged_upto(plays: Seq<PlayRecord>, rows: Seq<UnifiedStatRow>, j: int) -> bool {
    &&& keys_of_unified(rows).no_duplicates()
    &&& forall|k: KeyV|
        #[trigger] keys_of_unified(rows).contains(k) <==> selected_upto(plays, k, j)
    &&& forall|i: int, c: Category|
        0 <= i < rows.len() && cat_order(c) < j ==> #[trigger] cat_view(rows[i], c)
            == expected_line(plays, c, rows[i].key@)
    &&& forall|i: int, c: Category|
        0 <= i < rows.len() && cat_order(c) >= j ==> #[trigger] cat_view(rows[i], c) is None
    &&& forall|i: int|
        0 <= i < rows.len() ==> (#[trigger] rows[i]).week == unified_week(plays, rows[i].key@)
}

/// What the merge combiner guarantees of the unified table: one row per
/// player selected by at least one category, each category's counters
/// present exactly when that category selected the player, and the week of
/// the player's first categorised play.
pub open spec fn unified_ok(plays: Seq<PlayRecord>, rows: Seq<UnifiedStatRow>) -> bool {
    merged_upto(plays, rows, 6)
}

/// A correct category table has pairwise distinct keys.
pub proof fn lemma_table_keys_unique(plays: Seq<PlayRecord>, cat: Category, t: Seq<CatRow>)
    requires
        category_table_ok(plays, cat, t),
    ensures
        keys_of_rows(t).no_duplicates(),
{
    lemma_dedup(keys_of(plays, cat));
}

/// A correct category table answers lookups with the category's sums.
pub proof fn lemma_table_lookup(plays: Seq<PlayRecord>, cat: Category, t: Seq<CatRow>, k: KeyV)
    requires
        category_table_ok(plays, cat, t),
    ensures
        keys_of_rows(t).no_duplicates(),
        keys_of_rows(t).contains(k) <==> keys_of(plays, cat).contains(k),
        lookup_line(t, k) == expected_line(plays, cat, k),
        keys_of_rows(t).contains(k) ==> lookup_week(t, k) == Option::Some(
            first_week(plays, cat, k),
        ),
{
    lemma_dedup(keys_of(plays, cat));
    lemma_lookup(t, k);
    lemma_keys_of_rows(t);
    if keys_of_rows(t).contains(k) {
        let i = choose|i: int| 0 <= i < keys_of_rows(t).len() && keys_of_rows(t)[i] == k;
        assert(t[i].key@ == k);
        assert(t[i].line@ == sum_line(plays, cat, k));
        assert(t[i].week == first_week(plays, cat, k));
    }
}

/// One merge step keeps the unified table correct for one more category.
proof fn lemma_merge_step(
    plays: Seq<PlayRecord>,
    j: int,
    table: Seq<CatRow>,
    before: Seq<UnifiedStatRow>,
    after: Seq<UnifiedStatRow>,
)
    requires
        0 <= j < 6,
        category_table_ok(plays, order_cat(j), table),
        merged_upto(plays, before, j),
        keys_of_unified(after).no_duplicates(),
        forall|k: KeyV|
            #[trigger] keys_of_unified(after).contains(k) <==> (keys_of_unified(before).contains(
                k,
            ) || keys_of_rows(table).contains(k)),
        after.len() >= before.len(),
        forall|i: int| 0 <= i < before.len() ==> (#[trigger] after[i]).key == before[i].key,
        forall|i: int| 0 <= i < before.len() ==> (#[trigger] after[i]).week == before[i].week,
        forall|i: int, c: Category|
            0 <= i < before.len() && c != order_cat(j) ==> #[trigger] cat_view(after[i], c)
                == cat_view(before[i], c),
        forall|i: int|
            before.len() <= i < after.len() ==> !keys_of_unified(before).contains(
                (#[trigger] after[i]).key@,
            ),
        forall|i: int|
            before.len() <= i < after.len() ==> lookup_week(
                table,
                (#[trigger] after[i]).key@,
            ) == Option::Some(after[i].week),
        forall|i: int, c: Category|
            before.len() <= i < after.len() && c != order_cat(j) ==> #[trigger] cat_view(
                after[i],
                c,
            ) is None,
        forall|i: int|
            0 <= i < after.len() ==> cat_view(#[trigger] after[i], order_cat(j)) == lookup_line(
                table,
                after[i].key@,
            ),
    ensures
        merged_upto(plays, after, j + 1),
{
    let cat = order_cat(j);
    assert forall|k: KeyV| #[trigger] keys_of_unified(after).contains(k) <==> selected_upto(
        plays,
        k,
        j + 1,
    ) by {
        lemma_table_lookup(plays, cat, table, k);
        if keys_of_unified(after).contains(k) {
            if keys_of_unified(before).contains(k) {
                let c = choose|c: Category|
                    cat_order(c) < j && #[trigger] keys_of(plays, c).contains(k);
                assert(cat_order(c) < j + 1 && keys_of(plays, c).contains(k));
            } else {
                assert(keys_of(plays, cat).contains(k));
                assert(cat_order(cat) == j);
            }
        }
        if selected_upto(plays, k, j + 1) {
            let c = choose|c: Category|
                cat_order(c) < j + 1 && #[trigger] keys_of(plays, c).contains(k);
            if cat_order(c) < j {
                assert(selected_upto(plays, k, j));
            } else {
                assert(c == cat);
            }
        }
    }
    assert forall|i: int, c: Category|
        0 <= i < after.len() && cat_order(c) < j + 1 implies #[trigger] cat_view(after[i], c)
        == expected_line(plays, c, after[i].key@) by {
        lemma_table_lookup(plays, cat, table, after[i].key@);
        if c == cat {
        } else {
            assert(cat_order(c) < j);
            if i < before.len() {
                assert(after[i].key@ == before[i].key@);
                assert(cat_view(after[i], c) == cat_view(before[i], c));
            } else {
                // a row appended by this step: no earlier category selected
                // its key, so the expected counters are absent
                assert(cat_view(after[i], c) is None);
                assert(!keys_of_unified(before).contains(after[i].key@));
                if keys_of(plays, c).contains(after[i].key@) {
                    assert(selected_upto(plays, after[i].key@, j));
                    assert(false);
                }
            }
        }
    }
    assert forall|i: int, c: Category|
        0 <= i < after.len() && cat_order(c) >= j + 1 implies #[trigger] cat_view(
        after[i],
        c,
    ) is None by {
        if i < before.len() {
            assert(cat_view(after[i], c) == cat_view(before[i], c));
            assert(cat_order(c) >= j);
        }
    }
    assert forall|i: int| 0 <= i < after.len() implies (#[trigger] after[i]).week == unified_week(
        plays,
        after[i].key@,
    ) by {
        if i < before.len() {
            assert(after[i].key@ == before[i].key@);
            assert(before[i].week == unified_week(plays, before[i].key@));
        } else {
            let k = after[i].key@;
            lemma_table_lookup(plays, cat, table, k);
            assert(lookup_week(table, k) is Some);
            lemma_lookup(table, k);
            assert(keys_of_rows(table).contains(k));
            assert(keys_of(plays, cat).contains(k));
            assert(!keys_of_unified(before).contains(k));
            assert forall|c: Category| cat_order(c) < j implies !keys_of(plays, c).contains(
                k,
            ) by {
                if keys_of(plays, c).contains(k) {
                    assert(selected_upto(plays, k, j));
                }
            }
            assert(after[i].week == first_week(plays, cat, k));
            if j == 0 {
            } else if j == 1 {
                assert(!keys_of(plays, Category::Passing).contains(k)) by {
                    assert(cat_order(Category::Passing) < j);
                }
            } else if j == 2 {
                assert(cat_order(Category::Passing) < j && cat_order(Category::Receiving) < j);
            } else if j == 3 {
                assert(cat_order(Category::Passing) < j && cat_order(Category::Receiving) < j
                    && cat_order(Category::Rushing) < j);
            } else if j == 4 {
                assert(cat_order(Category::Passing) < j && cat_order(Category::Receiving) < j
                    && cat_order(Category::Rushing) < j && cat_order(Category::Kicking) < j);
            } else {
                assert(cat_order(Category::Passing) < j && cat_order(Category::Receiving) < j
                    && cat_order(Category::Rushing) < j && cat_order(Category::Kicking) < j
                    && cat_order(Category::Returning) < j);
            }
        }
    }
}

/// Runs the six category aggregations over the play batch and merges their
/// tables into the unified per-player stat table.
pub fn build_unified(plays: &Vec<PlayRecord>) -> (rows: Vec<UnifiedStatRow>)
    requires
        all_wf(plays@),
        plays@.len() <= MAX_PLAYS,
    ensures
        unified_ok(plays@, rows@),
        rows@.len() <= 6 * plays@.len(),
{
    let passing = aggregate(plays, Category::Passing);
    let receiving = aggregate(plays, Category::Receiving);
    let rushing = aggregate(plays, Category::Rushing);
    let fumbling = aggregate(plays, Category::Fumbling);
    let kicking = aggregate(plays, Category::Kicking);
    let returning = aggregate(plays, Category::Returning);

    let mut unified: Vec<UnifiedStatRow> = Vec::new();
    proof {
        assert(merged_upto(plays@, unified@, 0)) by {
            assert(keys_of_unified(unified@) =~= Seq::<KeyV>::empty());
            assert forall|k: KeyV| !(#[trigger] keys_of_unified(unified@).contains(k)) by {}
        }
    }
    let ghost s0 = unified@;
    proof {
        lemma_table_keys_unique(plays@, order_cat(0), passing@);
    }
    merge_one(&mut unified, &passing, Category::Passing);
    proof {
        lemma_merge_step(plays@, 0, passing@, s0, unified@);
    }
    let ghost s1 = unified@;
    proof {
        lemma_table_keys_unique(plays@, order_cat(1), receiving@);
    }
    merge_one(&mut unified, &receiving, Category::Receiving);
    proof {
        lemma_merge_step(plays@, 1, receiving@, s1, unified@);
    }
    let ghost s2 = unified@;
    proof {
        lemma_table_keys_unique(plays@, order_cat(2), rushing@);
    }
    merge_one(&mut unified, &rushing, Category::Rushing);
    proof {
        lemma_merge_step(plays@, 2, rushing@, s2, unified@);
    }
    let ghost s3 = unified@;
    proof {
        lemma_table_keys_unique(plays@, order_cat(3), kicking@);
    }
    merge_one(&mut unified, &kicking, Category::Kicking);
    proof {
        lemma_merge_step(plays@, 3, kicking@, s3, unified@);
    }
    let ghost s4 = unified@;
    proof {
        lemma_table_keys_unique(plays@, order_cat(4), returning@);
    }
    merge_one(&mut unified, &returning, Category::Returning);
    proof {
        lemma_merge_step(plays@, 4, returning@, s4, unified@);
    }
    let ghost s5 = unified@;
    proof {
        lemma_table_keys_unique(plays@, order_cat(5), fumbling@);
    }
    merge_one(&mut unified, &fumbling, Category::Fumbling);
    proof {
        lemma_merge_step(plays@, 5, fumbling@, s5, unified@);
    }
    unified
}

} // verus!

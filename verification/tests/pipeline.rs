// End-to-end scenarios for the aggregation and scoring pipeline.
// All point values are centipoints: 18.4 points is 1840.

use fff::pbp::{assert_single_game_id, fantasy_stats, PbpDf};
use fff::play::PlayRecord;
use fff::scoring::{FantasyStatsDf, Scoring};
use fff::error::Error;

fn base_play(game: &str, week: u32, team: &str) -> PlayRecord {
    PlayRecord {
        game_id: game.to_string(),
        week,
        posteam: team.to_string(),
        passer_player_id: None,
        passer_player_name: None,
        receiver_player_id: None,
        receiver_player_name: None,
        rusher_player_id: None,
        rusher_player_name: None,
        fumbled_1_player_id: None,
        fumbled_1_player_name: None,
        kicker_player_id: None,
        kicker_player_name: None,
        lateral_kickoff_returner_player_id: None,
        lateral_kickoff_returner_player_name: None,
        lateral_punt_returner_player_id: None,
        lateral_punt_returner_player_name: None,
        kickoff_returner_player_id: None,
        kickoff_returner_player_name: None,
        punt_returner_player_id: None,
        punt_returner_player_name: None,
        passing_yards: 0,
        receiving_yards: 0,
        rushing_yards: 0,
        pass_touchdown: false,
        rush_touchdown: false,
        return_touchdown: false,
        interception: false,
        complete_pass: false,
        fumble_lost: false,
        two_point_conv_success: false,
        extra_point_good: false,
        field_goal_made: false,
        kick_distance: 0,
        is_kickoff_play: false,
    }
}

fn pass_play(game: &str, team: &str, qb: &str, yards: i64, td: bool, intercepted: bool) -> PlayRecord {
    let mut p = base_play(game, 1, team);
    p.passer_player_id = Some(format!("id-{}", qb));
    p.passer_player_name = Some(qb.to_string());
    p.passing_yards = yards;
    p.pass_touchdown = td;
    p.interception = intercepted;
    p
}

#[test]
fn end_to_end_quarterback() {
    // 310 passing yards, 2 passing touchdowns (one on a 55-yard play),
    // 1 interception under PPR: 310/25 + 2*4 - 2 = 18.4 points.
    let plays = vec![
        pass_play("g1", "SEA", "QB One", 55, true, false),
        pass_play("g1", "SEA", "QB One", 255, false, false),
        pass_play("g1", "SEA", "QB One", 0, true, false),
        pass_play("g1", "SEA", "QB One", 0, false, true),
    ];
    let out = fantasy_stats(PbpDf::new(plays), Scoring::ppr()).unwrap();
    assert_eq!(out.len(), 1);
    assert_eq!(out[0].row.key.player_name, "QB One");
    assert_eq!(out[0].fantasy_points, 1840);
}

#[test]
fn strict_rushing_threshold_at_100() {
    let mut bonus = Scoring::ppr();
    bonus.rushing_100yd_bonus = 100;

    let out = fantasy_stats(PbpDf::new(vec![rush_play("g1", "SF", "Rusher", 100)]), bonus)
        .unwrap();
    // exactly 100 rushing yards: 10.0 points and no bonus
    assert_eq!(out[0].fantasy_points, 1000);

    let out = fantasy_stats(PbpDf::new(vec![rush_play("g1", "SF", "Rusher", 101)]), bonus)
        .unwrap();
    // strictly more than 100: 10.1 points plus the 1.0 bonus
    assert_eq!(out[0].fantasy_points, 1010 + 100);
}

#[test]
fn inclusive_field_goal_distance_at_40() {
    let mut bonus = Scoring::ppr();
    bonus.fg_made_40yd_bonus = 100;

    let mut p = base_play("g1", 1, "BAL");
    p.kicker_player_id = Some("id-k".to_string());
    p.kicker_player_name = Some("Kicker".to_string());
    p.field_goal_made = true;
    p.kick_distance = 40;
    let out = fantasy_stats(PbpDf::new(vec![p]), bonus).unwrap();
    // a made field goal at exactly 40 yards earns the inclusive bonus
    assert_eq!(out[0].fantasy_points, 300 + 100);
}

#[test]
fn kickoff_plays_are_excluded_from_kicking() {
    let mut p = base_play("g1", 1, "BAL");
    p.kicker_player_id = Some("id-k".to_string());
    p.kicker_player_name = Some("Kicker".to_string());
    p.field_goal_made = true;
    p.kick_distance = 45;
    p.is_kickoff_play = true;
    let out = fantasy_stats(PbpDf::new(vec![p]), Scoring::ppr()).unwrap();
    assert_eq!(out.len(), 0);
}

fn catch_play(game: &str, team: &str, wr: &str, yards: i64) -> PlayRecord {
    let mut p = base_play(game, 1, team);
    p.receiver_player_id = Some(format!("id-{}", wr));
    p.receiver_player_name = Some(wr.to_string());
    p.receiving_yards = yards;
    p.complete_pass = true;
    p
}

#[test]
fn preset_monotonicity_on_receptions() {
    let plays = || {
        vec![
            catch_play("g1", "DET", "WR One", 10),
            catch_play("g1", "DET", "WR One", 15),
            catch_play("g1", "DET", "WR One", 25),
        ]
    };
    let ppr = fantasy_stats(PbpDf::new(plays()), Scoring::ppr()).unwrap()[0].fantasy_points;
    let half = fantasy_stats(PbpDf::new(plays()), Scoring::half_ppr()).unwrap()[0].fantasy_points;
    let none = fantasy_stats(PbpDf::new(plays()), Scoring::no_ppr()).unwrap()[0].fantasy_points;
    // 3 receptions, 50 receiving yards: 5.0 yardage points plus 3 / 1.5 / 0
    assert_eq!(ppr, 500 + 300);
    assert_eq!(half, 500 + 150);
    assert_eq!(none, 500);
    assert!(none <= half && half <= ppr);
}

fn rush_play(game: &str, team: &str, name: &str, yards: i64) -> PlayRecord {
    let mut p = base_play(game, 1, team);
    p.rusher_player_id = Some(format!("id-{}", name));
    p.rusher_player_name = Some(name.to_string());
    p.rushing_yards = yards;
    p
}

#[test]
fn preset_equality_without_receptions() {
    let ppr = fantasy_stats(PbpDf::new(vec![rush_play("g1", "SF", "Rusher", 60)]), Scoring::ppr())
        .unwrap()[0]
        .fantasy_points;
    let none =
        fantasy_stats(PbpDf::new(vec![rush_play("g1", "SF", "Rusher", 60)]), Scoring::no_ppr())
            .unwrap()[0]
            .fantasy_points;
    assert_eq!(ppr, none);
}

#[test]
fn single_game_guard_accepts_one_game() {
    let plays = vec![
        pass_play("g1", "SEA", "QB One", 10, false, false),
        pass_play("g1", "SEA", "QB One", 20, false, false),
    ];
    assert!(assert_single_game_id(&PbpDf::new(plays)).is_ok());
}

#[test]
fn single_game_guard_rejects_two_games() {
    let plays = vec![
        pass_play("g1", "SEA", "QB One", 10, false, false),
        pass_play("g2", "SEA", "QB One", 20, false, false),
    ];
    match assert_single_game_id(&PbpDf::new(plays)) {
        Ok(()) => panic!("two distinct games must be rejected"),
        Err(Error::NotASingleGame(ids)) => {
            assert_eq!(ids, vec!["g1".to_string(), "g2".to_string()]);
        }
    }
}

#[test]
fn single_game_guard_rejects_empty_input() {
    match assert_single_game_id(&PbpDf::new(Vec::new())) {
        Ok(()) => panic!("an empty table holds no game"),
        Err(Error::NotASingleGame(ids)) => assert!(ids.is_empty()),
    }
}

#[test]
fn returner_coalesces_to_punt_returner() {
    let mut p = base_play("g1", 1, "KC");
    p.punt_returner_player_id = Some("id-pr".to_string());
    p.punt_returner_player_name = Some("Returner".to_string());
    p.return_touchdown = true;
    let out = fantasy_stats(PbpDf::new(vec![p]), Scoring::ppr()).unwrap();
    assert_eq!(out.len(), 1);
    assert_eq!(out[0].row.key.player_name, "Returner");
    assert_eq!(out[0].row.key.player_id, "id-pr");
    // one return touchdown at 6.0 points
    assert_eq!(out[0].fantasy_points, 600);
}

#[test]
fn returner_priority_prefers_lateral_columns() {
    let mut p = base_play("g1", 1, "KC");
    p.lateral_punt_returner_player_id = Some("id-lat".to_string());
    p.lateral_punt_returner_player_name = Some("Lateral".to_string());
    p.punt_returner_player_id = Some("id-pr".to_string());
    p.punt_returner_player_name = Some("Straight".to_string());
    p.return_touchdown = true;
    let out = fantasy_stats(PbpDf::new(vec![p]), Scoring::ppr()).unwrap();
    assert_eq!(out.len(), 1);
    assert_eq!(out[0].row.key.player_name, "Lateral");
}

#[test]
fn zero_fill_for_single_category_player() {
    // a kicker alone still owns exactly one merged row, with every other
    // category absent and the formula applied over zeros
    let mut p = base_play("g1", 1, "BAL");
    p.kicker_player_id = Some("id-k".to_string());
    p.kicker_player_name = Some("Kicker".to_string());
    p.extra_point_good = true;
    let stats = PbpDf::new(vec![p]).fantasy_stats().unwrap();
    assert_eq!(stats.rows.len(), 1);
    let row = &stats.rows[0];
    assert!(row.passing.is_none());
    assert!(row.receiving.is_none());
    assert!(row.rushing.is_none());
    assert!(row.fumbling.is_none());
    assert!(row.returning.is_none());
    assert!(row.kicking.is_some());
    let out = FantasyStatsDf { rows: stats.rows }.score(Scoring::ppr()).unwrap();
    assert_eq!(out[0].fantasy_points, 100);
}

#[test]
fn scores_sort_descending() {
    let plays = vec![
        pass_play("g1", "SEA", "QB Low", 25, false, false),
        pass_play("g1", "SEA", "QB High", 250, false, false),
        pass_play("g1", "SEA", "QB Mid", 100, false, false),
    ];
    let out = fantasy_stats(PbpDf::new(plays), Scoring::ppr()).unwrap();
    assert_eq!(out.len(), 3);
    assert_eq!(out[0].row.key.player_name, "QB High");
    assert_eq!(out[1].row.key.player_name, "QB Mid");
    assert_eq!(out[2].row.key.player_name, "QB Low");
    assert!(out[0].fantasy_points >= out[1].fantasy_points);
    assert!(out[1].fantasy_points >= out[2].fantasy_points);
}

#[test]
fn multi_category_player_merges_into_one_row() {
    // a quarterback who also rushes owns a single merged row carrying
    // both categories: 150/25 + 4 (rushing td) + 30/10 points
    let mut rush = base_play("g1", 1, "BUF");
    rush.rusher_player_id = Some("id-QB One".to_string());
    rush.rusher_player_name = Some("QB One".to_string());
    rush.rushing_yards = 30;
    let plays = vec![pass_play("g1", "BUF", "QB One", 150, false, false), rush];
    let out = fantasy_stats(PbpDf::new(plays), Scoring::ppr()).unwrap();
    assert_eq!(out.len(), 1);
    assert_eq!(out[0].fantasy_points, 600 + 300);
}

#[test]
fn empty_input_scores_no_rows() {
    let out = fantasy_stats(PbpDf::new(Vec::new()), Scoring::ppr()).unwrap();
    assert!(out.is_empty());
}

#[test]
fn strict_passing_threshold_at_300() {
    let mut bonus = Scoring::ppr();
    bonus.passing_300yd_bonus = 100;
    let out = fantasy_stats(
        PbpDf::new(vec![pass_play("g1", "SEA", "QB One", 300, false, false)]),
        bonus,
    )
    .unwrap();
    // exactly 300 passing yards: 12.0 points, no bonus
    assert_eq!(out[0].fantasy_points, 1200);
    let out = fantasy_stats(
        PbpDf::new(vec![pass_play("g1", "SEA", "QB One", 301, false, false)]),
        bonus,
    )
    .unwrap();
    // strictly more: 12.04 points plus the 1.0 bonus
    assert_eq!(out[0].fantasy_points, 1204 + 100);
}

// Filters, roster restriction, and the aggregation granularities.

use fff::filter::PbpFilter;
use fff::pbp::{fantasy_stats, PbpDf};
use fff::play::PlayRecord;
use fff::roster::{RosterDf, RosterFilter, RosterRecord};
use fff::scoring::Scoring;
use fff::Position;

fn base_play(game: &str, week: u32, team: &str) -> PlayRecord {
    PlayRecord {
        game_id: game.to_string(),
        week,
        posteam: team.to_string(),
        passer_player_id: None,
        passer_player_name: None,
        receiver_player_id: None,
        receiver_player_name: None,
        rusher_player_id: None,
        rusher_player_name: None,
        fumbled_1_player_id: None,
        fumbled_1_player_name: None,
        kicker_player_id: None,
        kicker_player_name: None,
        lateral_kickoff_returner_player_id: None,
        lateral_kickoff_returner_player_name: None,
        lateral_punt_returner_player_id: None,
        lateral_punt_returner_player_name: None,
        kickoff_returner_player_id: None,
        kickoff_returner_player_name: None,
        punt_returner_player_id: None,
        punt_returner_player_name: None,
        passing_yards: 0,
        receiving_yards: 0,
        rushing_yards: 0,
        pass_touchdown: false,
        rush_touchdown: false,
        return_touchdown: false,
        interception: false,
        complete_pass: false,
        fumble_lost: false,
        two_point_conv_success: false,
        extra_point_good: false,
        field_goal_made: false,
        kick_distance: 0,
        is_kickoff_play: false,
    }
}

fn qb_play(game: &str, week: u32, team: &str, qb: &str, yards: i64) -> PlayRecord {
    let mut p = base_play(game, week, team);
    p.passer_player_id = Some(format!("id-{}", qb));
    p.passer_player_name = Some(qb.to_string());
    p.passing_yards = yards;
    p
}

#[test]
fn empty_filter_matches_every_play() {
    let plays = vec![
        qb_play("g1", 1, "SEA", "QB One", 10),
        qb_play("g2", 2, "SF", "QB Two", 20),
    ];
    let df = PbpDf::new(plays).filter(PbpFilter::new().build()).unwrap();
    assert_eq!(df.plays.len(), 2);
}

#[test]
fn team_and_week_filters_combine_with_and() {
    let plays = vec![
        qb_play("g1", 1, "SEA", "QB One", 10),
        qb_play("g2", 2, "SEA", "QB One", 20),
        qb_play("g3", 2, "SF", "QB Two", 30),
    ];
    let filter = PbpFilter::new().team("SEA").week(2).build();
    let df = PbpDf::new(plays).filter(filter).unwrap();
    assert_eq!(df.plays.len(), 1);
    assert_eq!(df.plays[0].game_id, "g2");
}

#[test]
fn week_range_filter_is_inclusive() {
    let plays = vec![
        qb_play("g1", 1, "SEA", "QB One", 10),
        qb_play("g2", 2, "SEA", "QB One", 20),
        qb_play("g3", 3, "SEA", "QB One", 30),
        qb_play("g4", 4, "SEA", "QB One", 40),
    ];
    let filter = PbpFilter::new().week_range(2, 3).build();
    let df = PbpDf::new(plays).filter(filter).unwrap();
    assert_eq!(df.plays.len(), 2);
    assert_eq!(df.plays[0].game_id, "g2");
    assert_eq!(df.plays[1].game_id, "g3");
}

#[test]
fn player_filter_matches_any_role_column() {
    let mut with_receiver = qb_play("g1", 1, "SEA", "QB One", 10);
    with_receiver.receiver_player_id = Some("id-wr".to_string());
    with_receiver.receiver_player_name = Some("WR One".to_string());
    let plays = vec![with_receiver, qb_play("g2", 1, "SEA", "QB One", 20)];
    let filter = PbpFilter::new().player_id("id-wr").build();
    let df = PbpDf::new(plays).filter(filter).unwrap();
    assert_eq!(df.plays.len(), 1);
    assert_eq!(df.plays[0].game_id, "g1");

    let plays = vec![
        qb_play("g1", 1, "SEA", "QB One", 10),
        qb_play("g2", 1, "SEA", "QB Two", 20),
    ];
    let filter = PbpFilter::new().player_name("QB Two").build();
    let df = PbpDf::new(plays).filter(filter).unwrap();
    assert_eq!(df.plays.len(), 1);
    assert_eq!(df.plays[0].game_id, "g2");
}

#[test]
fn two_point_conversion_coalesces_to_receiving() {
    // the same player converts once as a receiver and once as a rusher:
    // the merged column keeps the receiving table's count, so exactly one
    // two-point conversion is scored
    let mut catch = base_play("g1", 1, "DET");
    catch.receiver_player_id = Some("id-p".to_string());
    catch.receiver_player_name = Some("Player".to_string());
    catch.two_point_conv_success = true;
    let mut rush = base_play("g1", 1, "DET");
    rush.rusher_player_id = Some("id-p".to_string());
    rush.rusher_player_name = Some("Player".to_string());
    rush.two_point_conv_success = true;
    let out = fantasy_stats(PbpDf::new(vec![catch, rush]), Scoring::no_ppr()).unwrap();
    assert_eq!(out.len(), 1);
    assert_eq!(out[0].fantasy_points, 200);
}

#[test]
fn fumble_lost_costs_two_points() {
    let mut p = base_play("g1", 1, "NYJ");
    p.fumbled_1_player_id = Some("id-f".to_string());
    p.fumbled_1_player_name = Some("Fumbler".to_string());
    p.fumble_lost = true;
    let out = fantasy_stats(PbpDf::new(vec![p]), Scoring::ppr()).unwrap();
    assert_eq!(out[0].fantasy_points, -200);
}

fn roster_entry(id: &str, team: &str, position: &str, name: &str, week: u32) -> RosterRecord {
    RosterRecord {
        gsis_id: id.to_string(),
        team: team.to_string(),
        position: position.to_string(),
        full_name: name.to_string(),
        first_name: name.split(' ').next().unwrap().to_string(),
        last_name: name.split(' ').last().unwrap().to_string(),
        week,
    }
}

#[test]
fn roster_position_flex_matches_wr_te_rb() {
    let roster = RosterDf::new(vec![
        roster_entry("id-1", "SEA", "WR", "Wide Receiver", 1),
        roster_entry("id-2", "SEA", "TE", "Tight End", 1),
        roster_entry("id-3", "SEA", "RB", "Running Back", 1),
        roster_entry("id-4", "SEA", "QB", "Quarter Back", 1),
    ]);
    let filtered = roster.filter(RosterFilter::new().position(Position::Flex).build()).unwrap();
    assert_eq!(filtered.rows.len(), 3);
    let ids: Vec<&str> = filtered.rows.iter().map(|r| r.gsis_id.as_str()).collect();
    assert_eq!(ids, vec!["id-1", "id-2", "id-3"]);
}

#[test]
fn roster_unique_players_keeps_first_entry() {
    let roster = RosterDf::new(vec![
        roster_entry("id-1", "SEA", "WR", "Wide Receiver", 1),
        roster_entry("id-1", "SEA", "WR", "Wide Receiver", 2),
        roster_entry("id-2", "SEA", "TE", "Tight End", 1),
    ]);
    let unique = roster.unique_players().unwrap();
    assert_eq!(unique.rows.len(), 2);
    assert_eq!(unique.rows[0].week, 1);
}

#[test]
fn merge_roster_restricts_to_listed_players() {
    let plays = vec![
        qb_play("g1", 1, "SEA", "QB One", 100),
        qb_play("g1", 1, "SF", "QB Two", 200),
    ];
    let stats = PbpDf::new(plays).fantasy_stats().unwrap();
    let roster = RosterDf::new(vec![roster_entry("id-QB One", "SEA", "QB", "QB One", 1)]);
    let merged = stats.merge_roster(roster).unwrap();
    assert_eq!(merged.rows.len(), 1);
    assert_eq!(merged.rows[0].key.player_name, "QB One");
}

#[test]
fn aggregation_consistency_across_granularities() {
    // two games, two players each; the per-game aggregate equals the sum
    // of the player-per-game rows of that game, and the per-player
    // aggregate equals the player's sum across games
    let plays = vec![
        qb_play("g1", 1, "SEA", "QB One", 100),
        qb_play("g1", 1, "SF", "QB Two", 200),
        qb_play("g2", 2, "SEA", "QB One", 50),
        qb_play("g2", 2, "SF", "QB Two", 25),
    ];
    let per_game_rows =
        fantasy_stats(PbpDf::new(plays.clone()), Scoring::ppr()).unwrap();
    let sum_g1: i64 = per_game_rows
        .iter()
        .filter(|r| r.row.key.game_id == "g1")
        .map(|r| r.fantasy_points)
        .sum();
    let sum_qb1: i64 = per_game_rows
        .iter()
        .filter(|r| r.row.key.player_id == "id-QB One")
        .map(|r| r.fantasy_points)
        .sum();

    let stats = PbpDf::new(plays.clone()).fantasy_stats().unwrap();
    let by_game = stats.score_by_game(Scoring::ppr()).unwrap();
    let g1 = by_game.iter().find(|r| r.game_id == "g1").unwrap();
    assert_eq!(g1.fantasy_points, sum_g1);
    assert_eq!(g1.fantasy_points, 400 + 800);
    assert_eq!(g1.week, 1);

    let stats = PbpDf::new(plays).fantasy_stats().unwrap();
    let by_player = stats.score_by_player(Scoring::ppr()).unwrap();
    let qb1 = by_player.iter().find(|r| r.player_id == "id-QB One").unwrap();
    assert_eq!(qb1.fantasy_points, sum_qb1);
    assert_eq!(qb1.fantasy_points, 400 + 200);
    assert_eq!(qb1.team, "SEA");
    // sorted descending by total points
    assert!(by_player[0].fantasy_points >= by_player[1].fantasy_points);
    assert_eq!(by_player[0].player_id, "id-QB Two");
}

#[test]
fn stats_filter_restricts_by_game() {
    let plays = vec![
        qb_play("g1", 1, "SEA", "QB One", 100),
        qb_play("g2", 2, "SEA", "QB One", 50),
    ];
    let stats = PbpDf::new(plays).fantasy_stats().unwrap();
    let filtered = stats.filter(PbpFilter::new().game("g1").build()).unwrap();
    assert_eq!(filtered.rows.len(), 1);
    assert_eq!(filtered.rows[0].key.game_id, "g1");
}

#[test]
fn game_filter_selects_one_game() {
    let plays = vec![
        qb_play("g1", 1, "SEA", "QB One", 10),
        qb_play("g2", 2, "SEA", "QB One", 20),
    ];
    let df = PbpDf::new(plays).filter(PbpFilter::new().game("g2").build()).unwrap();
    assert_eq!(df.plays.len(), 1);
    assert_eq!(df.plays[0].week, 2);
}

#[test]
fn roster_filter_matches_any_name_column() {
    let roster = RosterDf::new(vec![
        roster_entry("id-1", "SEA", "WR", "Wide Receiver", 1),
        roster_entry("id-2", "SEA", "TE", "Tight End", 1),
    ]);
    let by_last = roster.filter(RosterFilter::new().player_name("End").build()).unwrap();
    assert_eq!(by_last.rows.len(), 1);
    assert_eq!(by_last.rows[0].gsis_id, "id-2");

    let roster = RosterDf::new(vec![
        roster_entry("id-1", "SEA", "WR", "Wide Receiver", 1),
        roster_entry("id-2", "SEA", "TE", "Tight End", 2),
    ]);
    let by_week = roster.filter(RosterFilter::new().week(2).build()).unwrap();
    assert_eq!(by_week.rows.len(), 1);
    assert_eq!(by_week.rows[0].gsis_id, "id-2");
}

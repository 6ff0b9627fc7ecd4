use reina_backup::errors::BackupError;
use reina_backup::stats::{merged_daily_stats, DailyStats, GameStatsRepository};
use reina_backup::stats_json::{parse_daily_stats, serialize_daily_stats};

fn day(date: &str, playtime: i32) -> DailyStats {
    DailyStats { date: date.to_string(), playtime }
}

#[test]
fn update_then_query_today_playtime() {
    let mut repo = GameStatsRepository::new();
    repo.update_statistics(
        1,
        120,
        2,
        Some(1700000000),
        vec![day("2024-01-01", 60), day("2024-01-02", 60)],
    );
    assert_eq!(repo.get_today_playtime(1, "2024-01-02").unwrap(), 60);
    assert_eq!(repo.get_today_playtime(1, "2024-01-03").unwrap(), 0);
    assert_eq!(repo.get_today_playtime(2, "2024-01-02").unwrap(), 0);
}

#[test]
fn update_statistics_replaces_wholesale() {
    let mut repo = GameStatsRepository::new();
    repo.update_statistics(1, 60, 1, Some(100), vec![day("2024-01-01", 60)]);
    repo.update_statistics(1, 30, 1, Some(200), vec![day("2024-02-02", 30)]);
    let row = repo.get_statistics(1).expect("row");
    assert_eq!(row.total_time, Some(30));
    assert_eq!(row.session_count, Some(1));
    assert_eq!(row.last_played, Some(200));
    assert_eq!(
        row.daily_stats.as_deref(),
        Some("[{\"date\":\"2024-02-02\",\"playtime\":30}]")
    );
    assert_eq!(repo.get_today_playtime(1, "2024-01-01").unwrap(), 0);
    assert_eq!(repo.get_today_playtime(1, "2024-02-02").unwrap(), 30);
}

#[test]
fn serializer_emits_compact_json() {
    let s = serialize_daily_stats(&vec![day("2024-01-01", 60), day("2024-01-02", 60)]);
    assert_eq!(
        s,
        "[{\"date\":\"2024-01-01\",\"playtime\":60},{\"date\":\"2024-01-02\",\"playtime\":60}]"
    );
    assert_eq!(serialize_daily_stats(&Vec::new()), "[]");
}

#[test]
fn serializer_output_is_standard_json() {
    // Control characters in a date are escaped as JSON requires.
    let s = serialize_daily_stats(&vec![day("2024-01-01", 60), day("a\nb\u{1}c", -5)]);
    let v: serde_json::Value = serde_json::from_str(&s).expect("valid JSON");
    let arr = v.as_array().expect("array");
    assert_eq!(arr.len(), 2);
    assert_eq!(arr[0].get("date").unwrap().as_str().unwrap(), "2024-01-01");
    assert_eq!(arr[0].get("playtime").unwrap().as_i64().unwrap(), 60);
    assert_eq!(arr[1].get("date").unwrap().as_str().unwrap(), "a\nb\u{1}c");
    assert_eq!(arr[1].get("playtime").unwrap().as_i64().unwrap(), -5);
}

#[test]
fn parser_accepts_what_a_standard_serializer_writes() {
    // The exact compact form serde_json produces for the same shape.
    let payload = "[{\"date\":\"2024-03-09\",\"playtime\":75}]";
    let parsed = parse_daily_stats(payload).expect("parse");
    assert_eq!(parsed.len(), 1);
    assert_eq!(parsed[0].date, "2024-03-09");
    assert_eq!(parsed[0].playtime, 75);
}

#[test]
fn parse_empty_list() {
    assert!(parse_daily_stats("[]").expect("parse").is_empty());
}

#[test]
fn parse_rejects_malformed_payloads() {
    for bad in [
        "",
        "[",
        "]",
        "{}",
        "not json",
        "[{}]",
        "[{\"date\":\"x\"}]",
        "[{\"date\":\"x\",\"playtime\":}]",
        "[{\"date\":\"x\",\"playtime\":1},]",
        "[{\"date\":\"x\",\"playtime\":1}",
        "[{\"date\":\"x\",\"playtime\":1}] x",
        "[{\"date\":\"x\",\"playtime\":--1}]",
        "[{\"date\":\"a\\qb\",\"playtime\":1}]",
        "[{\"date\":\"a\\u00\",\"playtime\":1}]",
        "[{\"date\":\"a\\ud800b\",\"playtime\":1}]",
    ] {
        let r = parse_daily_stats(bad);
        assert!(
            matches!(r, Err(BackupError::StatsCorrupt)),
            "expected corrupt: {:?}",
            bad
        );
    }
}

#[test]
fn parse_accepts_json_whitespace() {
    // The freedoms a standard JSON parser grants: whitespace between
    // tokens, before and after the payload.
    assert!(parse_daily_stats("[ ]").expect("parse").is_empty());
    assert!(parse_daily_stats(" \t[]\r\n").expect("parse").is_empty());
    let spaced = " [ { \"date\" : \"2024-01-02\" , \"playtime\" : 60 } , \n  {\"date\":\"2024-01-03\",\"playtime\":5} ] ";
    let parsed = parse_daily_stats(spaced).expect("parse");
    assert_eq!(parsed.len(), 2);
    assert_eq!(parsed[0].date, "2024-01-02");
    assert_eq!(parsed[0].playtime, 60);
    assert_eq!(parsed[1].date, "2024-01-03");
    assert_eq!(parsed[1].playtime, 5);
}

#[test]
fn parse_accepts_standard_escapes() {
    let parsed =
        parse_daily_stats("[{\"date\":\"a\\u0041\\n\\t\\\\ \\\" \\/b\",\"playtime\":1}]")
            .expect("parse");
    assert_eq!(parsed[0].date, "aA\n\t\\ \" /b");
}

#[test]
fn parse_rejects_out_of_range_playtime() {
    let r = parse_daily_stats("[{\"date\":\"x\",\"playtime\":99999999999}]");
    assert!(matches!(r, Err(BackupError::StatsCorrupt)));
    let ok = parse_daily_stats("[{\"date\":\"x\",\"playtime\":2147483647}]").expect("max fits");
    assert_eq!(ok[0].playtime, i32::MAX);
    let min = parse_daily_stats("[{\"date\":\"x\",\"playtime\":-2147483648}]").expect("min fits");
    assert_eq!(min[0].playtime, i32::MIN);
    let r = parse_daily_stats("[{\"date\":\"x\",\"playtime\":2147483648}]");
    assert!(matches!(r, Err(BackupError::StatsCorrupt)));
}

#[test]
fn escaped_dates_roundtrip() {
    let odd = vec![day("a\"b\\c\nd\u{1f}e", 5)];
    let s = serialize_daily_stats(&odd);
    assert_eq!(s, "[{\"date\":\"a\\\"b\\\\c\\u000ad\\u001fe\",\"playtime\":5}]");
    let parsed = parse_daily_stats(&s).expect("parse");
    assert_eq!(parsed[0].date, "a\"b\\c\nd\u{1f}e");
    assert_eq!(parsed[0].playtime, 5);
}

#[test]
fn init_is_idempotent_and_zeroed() {
    let mut repo = GameStatsRepository::new();
    repo.init_statistics_if_not_exists(4);
    let row = repo.get_statistics(4).expect("row");
    assert_eq!(row.total_time, Some(0));
    assert_eq!(row.session_count, Some(0));
    assert_eq!(row.last_played, None);
    assert_eq!(row.daily_stats.as_deref(), Some("[]"));

    repo.update_statistics(4, 99, 3, Some(7), vec![day("2024-01-01", 99)]);
    repo.init_statistics_if_not_exists(4);
    let row = repo.get_statistics(4).expect("row");
    assert_eq!(row.total_time, Some(99));
}

#[test]
fn record_session_assigns_increasing_ids() {
    let mut repo = GameStatsRepository::new();
    let a = repo.record_session(1, 100, 160, 60, "2024-01-01".to_string());
    let b = repo.record_session(1, 200, 290, 90, "2024-01-01".to_string());
    assert_eq!(a, 1);
    assert_eq!(b, 2);
}

#[test]
fn delete_statistics_removes_row() {
    let mut repo = GameStatsRepository::new();
    repo.init_statistics_if_not_exists(1);
    repo.init_statistics_if_not_exists(2);
    repo.delete_statistics(1);
    assert!(repo.get_statistics(1).is_none());
    assert!(repo.get_statistics(2).is_some());
    assert_eq!(repo.get_all_statistics().len(), 1);
}

#[test]
fn merge_increments_existing_day() {
    let merged = merged_daily_stats(&vec![day("2024-01-01", 60)], "2024-01-01", 30);
    assert_eq!(merged.len(), 1);
    assert_eq!(merged[0].date, "2024-01-01");
    assert_eq!(merged[0].playtime, 90);
}

#[test]
fn merge_appends_new_day() {
    let merged = merged_daily_stats(&vec![day("2024-01-01", 60)], "2024-01-02", 30);
    assert_eq!(merged.len(), 2);
    assert_eq!(merged[1].date, "2024-01-02");
    assert_eq!(merged[1].playtime, 30);
    // The sum grew by exactly the session's seconds.
    let total: i64 = merged.iter().map(|d| d.playtime as i64).sum();
    assert_eq!(total, 90);
}

#[test]
fn corrupt_payload_fails_loudly_through_the_store() {
    // A payload the grammar rejects surfaces as StatsCorrupt from the
    // read path, never as silently dropped data.
    let r = parse_daily_stats("[{\"date\":\"2024-01-01\",\"playtime\":60},");
    assert!(matches!(r, Err(BackupError::StatsCorrupt)));
}

#[test]
fn delete_session_removes_only_that_session() {
    let mut repo = GameStatsRepository::new();
    let a = repo.record_session(1, 100, 160, 60, "2024-01-01".to_string());
    let b = repo.record_session(1, 200, 290, 90, "2024-01-01".to_string());
    repo.delete_session(a);
    // Deleting again is a no-op; the other session keeps its id.
    repo.delete_session(a);
    let c = repo.record_session(1, 300, 330, 30, "2024-01-02".to_string());
    assert_eq!(b, 2);
    assert_eq!(c, 3);
}

#[test]
fn statistics_batch_filters_by_membership() {
    let mut repo = GameStatsRepository::new();
    repo.init_statistics_if_not_exists(1);
    repo.init_statistics_if_not_exists(2);
    repo.init_statistics_if_not_exists(3);
    let batch = repo.get_statistics_batch(&vec![3, 1]);
    let ids: Vec<i32> = batch.iter().map(|r| r.game_id).collect();
    assert_eq!(ids, vec![1, 3]);
    assert!(repo.get_statistics_batch(&Vec::new()).is_empty());
}

#[test]
fn session_history_is_sorted_and_paged() {
    let mut repo = GameStatsRepository::new();
    repo.record_session(1, 100, 160, 60, "2024-01-01".to_string());
    repo.record_session(2, 500, 520, 20, "2024-01-02".to_string());
    repo.record_session(1, 300, 330, 30, "2024-01-02".to_string());
    // A tie on start time keeps recording order.
    let tie_a = repo.record_session(1, 300, 350, 50, "2024-01-02".to_string());
    repo.record_session(1, 200, 260, 60, "2024-01-01".to_string());

    let all = repo.get_sessions(1, 10, 0);
    let starts: Vec<i32> = all.iter().map(|s| s.start_time).collect();
    assert_eq!(starts, vec![300, 300, 200, 100]);
    assert_eq!(all[0].session_id, 3);
    assert_eq!(all[1].session_id, tie_a);

    let page = repo.get_sessions(1, 2, 1);
    let ids: Vec<i32> = page.iter().map(|s| s.session_id).collect();
    assert_eq!(ids, vec![tie_a, 5]);

    assert!(repo.get_sessions(1, 10, 99).is_empty());
    assert!(repo.get_sessions(9, 10, 0).is_empty());
}

#[test]
fn recent_sessions_across_games_are_sorted_and_capped() {
    let mut repo = GameStatsRepository::new();
    repo.record_session(1, 100, 160, 60, "2024-01-01".to_string());
    repo.record_session(2, 500, 520, 20, "2024-01-02".to_string());
    repo.record_session(3, 900, 910, 10, "2024-01-03".to_string());
    repo.record_session(1, 300, 330, 30, "2024-01-02".to_string());

    let recent = repo.get_recent_sessions_for_all(&vec![1, 2], 5);
    let starts: Vec<i32> = recent.iter().map(|s| s.start_time).collect();
    // Game 3 is excluded; the rest come newest first.
    assert_eq!(starts, vec![500, 300, 100]);

    assert!(repo.get_recent_sessions_for_all(&Vec::new(), 5).is_empty());
    // The tenfold prefetch cap: limit 0 takes nothing.
    assert!(repo.get_recent_sessions_for_all(&vec![1, 2, 3], 0).is_empty());
}

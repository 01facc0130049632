use station_log::clock::{clock_label, now_seconds};
use station_log::dashboard::{Action, Dashboard, ServerInfo};
use station_log::history::{bot_name, OccupancyLog, StationEntry, StationHistory};

fn entry(prefix: &str, dispatchers: &[&str]) -> StationEntry {
    StationEntry {
        prefix: prefix.to_string(),
        dispatchers: dispatchers.iter().map(|d| d.to_string()).collect(),
    }
}

fn events_of(h: &StationHistory) -> Vec<(u64, String)> {
    h.events.iter().map(|e| (e.at, e.occupant.clone())).collect()
}

fn all(log: &OccupancyLog) -> Vec<StationHistory> {
    log.matching(&String::new())
}

fn server(code: &str, name: &str, active: bool) -> ServerInfo {
    ServerInfo { code: code.to_string(), name: name.to_string(), active }
}

#[test]
fn leave_and_return_gives_three_events() {
    let mut log = OccupancyLog::new();
    log.ingest(&vec![entry("S1", &["111"])], 1);
    log.ingest(&vec![entry("S1", &[])], 2);
    log.ingest(&vec![entry("S1", &["111"])], 3);
    let h = all(&log);
    assert_eq!(h.len(), 1);
    assert_eq!(h[0].prefix, "S1");
    assert_eq!(
        events_of(&h[0]),
        vec![(1, "111".to_string()), (2, "BOT".to_string()), (3, "111".to_string())]
    );
}

#[test]
fn unchanged_occupant_keeps_first_timestamp() {
    let mut log = OccupancyLog::new();
    log.ingest(&vec![entry("S1", &["111"])], 1);
    log.ingest(&vec![entry("S1", &["111"])], 2);
    let h = all(&log);
    assert_eq!(events_of(&h[0]), vec![(1, "111".to_string())]);
}

#[test]
fn empty_snapshot_changes_nothing() {
    let mut log = OccupancyLog::new();
    log.ingest(&vec![], 1);
    assert_eq!(log.len(), 0);
    log.ingest(&vec![entry("S1", &["111"])], 2);
    log.ingest(&vec![], 3);
    let h = all(&log);
    assert_eq!(h.len(), 1);
    assert_eq!(events_of(&h[0]), vec![(2, "111".to_string())]);
}

#[test]
fn abab_sequence_keeps_every_change() {
    let mut log = OccupancyLog::new();
    for (t, who) in [(1u64, "A"), (2, "B"), (3, "B"), (4, "A"), (5, "A"), (6, "B")] {
        log.ingest(&vec![entry("X", &[who])], t);
    }
    let ev = events_of(&all(&log)[0]);
    assert_eq!(
        ev,
        vec![(1, "A".to_string()), (2, "B".to_string()), (4, "A".to_string()), (6, "B".to_string())]
    );
    for w in ev.windows(2) {
        assert_ne!(w[0].1, w[1].1);
    }
}

#[test]
fn histories_only_grow() {
    let mut log = OccupancyLog::new();
    log.ingest(&vec![entry("S1", &["1"]), entry("S2", &[])], 10);
    let before: Vec<Vec<(u64, String)>> = all(&log).iter().map(events_of).collect();
    log.ingest(&vec![entry("S2", &["2"]), entry("S3", &["3"])], 20);
    let after: Vec<Vec<(u64, String)>> = all(&log).iter().map(events_of).collect();
    assert_eq!(after.len(), 3);
    for (b, a) in before.iter().zip(after.iter()) {
        assert!(a.len() >= b.len());
        assert_eq!(&a[..b.len()], &b[..]);
    }
    assert_eq!(after[1], vec![(10, "BOT".to_string()), (20, "2".to_string())]);
}

#[test]
fn only_first_dispatcher_counts() {
    let e = entry("S1", &["7", "8"]);
    assert_eq!(e.occupant(), "7");
    assert_eq!(entry("S1", &[]).occupant(), "BOT");
    assert_eq!(bot_name(), "BOT");
}

#[test]
fn stations_keep_first_seen_order() {
    let mut log = OccupancyLog::new();
    log.ingest(&vec![entry("B", &[]), entry("A", &[])], 1);
    log.ingest(&vec![entry("C", &[]), entry("A", &["9"])], 2);
    assert_eq!(log.prefixes(), vec!["B".to_string(), "A".to_string(), "C".to_string()]);
}

#[test]
fn filter_selects_one_station() {
    let mut log = OccupancyLog::new();
    log.ingest(&vec![entry("B", &[]), entry("A", &["1"])], 1);
    let only_a = log.matching(&"A".to_string());
    assert_eq!(only_a.len(), 1);
    assert_eq!(only_a[0].prefix, "A");
    assert_eq!(log.matching(&"Z".to_string()).len(), 0);
    assert_eq!(log.matching(&String::new()).len(), 2);
}

#[test]
fn server_switch_clears_histories() {
    let mut d = Dashboard::new();
    let a = d.select_server("X".to_string());
    assert!(matches!(a, Action::FetchStations(ref c) if c == "X"));
    d.ingest(&"X".to_string(), &vec![entry("S1", &["1"])], 1);
    assert_eq!(d.shown_stations().len(), 1);
    d.select_server("Y".to_string());
    assert_eq!(d.shown_stations().len(), 0);
    assert_eq!(d.selected_server(), "Y");
}

#[test]
fn stale_response_is_dropped() {
    let mut d = Dashboard::new();
    d.select_server("X".to_string());
    d.select_server("Y".to_string());
    d.ingest(&"X".to_string(), &vec![entry("S1", &["1"])], 1);
    assert_eq!(d.shown_stations().len(), 0);
    d.ingest(&"Y".to_string(), &vec![entry("S2", &[])], 2);
    let h = d.shown_stations();
    assert_eq!(h.len(), 1);
    assert_eq!(h[0].prefix, "S2");
}

#[test]
fn tick_is_idle_without_selection() {
    let d = Dashboard::new();
    assert!(matches!(d.tick(), Action::Idle));
}

#[test]
fn first_active_server_is_selected() {
    let mut d = Dashboard::new();
    let a = d.servers_loaded(vec![
        server("de1", "DE1", false),
        server("en1", "EN1", true),
        server("pl1", "PL1", true),
    ]);
    assert!(matches!(a, Action::FetchStations(ref c) if c == "en1"));
    assert_eq!(d.selected_server(), "en1");
    let active: Vec<String> = d.active_servers().into_iter().map(|s| s.code).collect();
    assert_eq!(active, vec!["en1".to_string(), "pl1".to_string()]);
}

#[test]
fn no_active_server_stays_idle() {
    let mut d = Dashboard::new();
    let a = d.servers_loaded(vec![server("de1", "DE1", false)]);
    assert!(matches!(a, Action::Idle));
    assert_eq!(d.selected_server(), "");
    assert!(matches!(d.tick(), Action::Idle));
}

#[test]
fn theme_and_filter_setters() {
    let mut d = Dashboard::new();
    assert!(d.is_dark());
    d.toggle_dark();
    assert!(!d.is_dark());
    d.select_server("X".to_string());
    d.ingest(&"X".to_string(), &vec![entry("S1", &[]), entry("S2", &[])], 5);
    d.set_filter("S2".to_string());
    assert_eq!(d.filter(), "S2");
    let h = d.shown_stations();
    assert_eq!(h.len(), 1);
    assert_eq!(h[0].prefix, "S2");
    assert_eq!(d.station_prefixes(), vec!["S1".to_string(), "S2".to_string()]);
}

#[test]
fn ingest_now_stamps_with_clock() {
    let mut d = Dashboard::new();
    d.select_server("X".to_string());
    let before = now_seconds();
    d.ingest_now(&"X".to_string(), &vec![entry("S1", &["5"])]);
    let h = d.shown_stations();
    assert_eq!(h[0].events.len(), 1);
    assert!(h[0].events[0].at >= before);
    assert!(before > 1_600_000_000);
}

#[test]
fn clock_label_values() {
    assert_eq!(clock_label(0, 0), "00:00:00");
    assert_eq!(clock_label(3661, 0), "01:01:01");
    assert_eq!(clock_label(86399, 0), "23:59:59");
    // UTC+2 is an offset of -120 minutes.
    assert_eq!(clock_label(3600, -120), "03:00:00");
    // UTC-5 is an offset of 300 minutes: wraps to the previous day.
    assert_eq!(clock_label(3600, 300), "20:00:00");
    assert_eq!(clock_label(1_700_000_000, 0), "22:13:20");
    assert_eq!(clock_label(0, i64::MIN), clock_label(0, i64::MIN % 1440 + 1440));
}

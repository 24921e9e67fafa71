use cansat_telemetry::mission::MissionData;
use cansat_telemetry::pipeline::worker_step;
use cansat_telemetry::record::SensedData;
use cansat_telemetry::stats::session_stats;

fn line_with_index(index: u32) -> String {
    format!("{}\t1\t1\t2\t3\t4\t4\t4\t0\t6\t6\t6\t0\t8\t9\t9\t10", index)
}

fn line_with(index: u32, uptime: u32) -> String {
    format!("{}\t{}\t1\t2\t3\t4\t4\t4\t0\t6\t6\t6\t0\t8\t9\t9\t10", index, uptime)
}

fn indices(session: &[SensedData]) -> Vec<u32> {
    session.iter().map(|r| r.index).collect()
}

#[test]
fn segmentation_splits_exactly_where_the_index_decreases() {
    let mut data = MissionData::new();
    for index in [5u32, 6, 7, 2, 3, 9, 1] {
        data.parse_line(&line_with_index(index)).unwrap();
    }
    let sessions = data.sessions();
    assert_eq!(sessions.len(), 3);
    assert_eq!(indices(&sessions[0]), vec![5, 6, 7]);
    assert_eq!(indices(&sessions[1]), vec![2, 3, 9]);
    assert_eq!(indices(&sessions[2]), vec![1]);
}

#[test]
fn equal_indices_stay_in_one_session() {
    let mut data = MissionData::new();
    for index in [4u32, 4, 4] {
        data.parse_line(&line_with_index(index)).unwrap();
    }
    assert_eq!(data.sessions().len(), 1);
    assert_eq!(indices(&data.sessions()[0]), vec![4, 4, 4]);
}

#[test]
fn bad_lines_never_touch_the_store() {
    let mut data = MissionData::new();
    data.parse_line(&line_with_index(3)).unwrap();
    assert!(data.parse_line("").is_err());
    assert!(data.parse_line("junk").is_err());
    // A dropped line does not update the last-seen index either: index 3
    // again goes to the same session.
    data.parse_line(&line_with_index(3)).unwrap();
    assert_eq!(data.sessions().len(), 1);
    assert_eq!(indices(&data.sessions()[0]), vec![3, 3]);
}

#[test]
fn from_log_filters_banners_and_drops_bad_lines() {
    let text = format!(
        "-- probe restarted --\n{}\n{}\nnoise line\n  -- another banner\n{}\r\n{}\n",
        line_with_index(1),
        line_with_index(2),
        line_with_index(0),
        line_with_index(5),
    );
    let data = MissionData::from_log(&text);
    let sessions = data.sessions();
    assert_eq!(sessions.len(), 2);
    assert_eq!(indices(&sessions[0]), vec![1, 2]);
    assert_eq!(indices(&sessions[1]), vec![0, 5]);
}

#[test]
fn from_log_of_empty_text_is_an_empty_store() {
    let data = MissionData::from_log("");
    assert!(data.sessions().is_empty());
    assert!(MissionData::default().sessions().is_empty());
    assert!(MissionData::new().sessions().is_empty());
}

#[test]
fn session_accessor_bounds() {
    let mut data = MissionData::new();
    data.parse_line(&line_with_index(7)).unwrap();
    assert_eq!(data.session(0).map(|s| s.len()), Some(1));
    assert!(data.session(1).is_none());
}

#[test]
fn worker_observes_cancellation_and_keeps_exactly_what_it_read() {
    // The cooperative live loop, with the transport simulated: the worker
    // reads lines, applies each to the store, and checks the flag after
    // every read. Setting the flag ends the loop at the next check; all
    // records read before that stay, and nothing else appears.
    let mut store = MissionData::new();
    let transport: Vec<String> = (0..10u32).map(line_with_index).collect();
    let mut fed = 0;
    for line in &transport {
        assert!(worker_step(&mut store, Some(line.as_str()), false));
        fed += 1;
    }
    // One read times out: no data this iteration, the loop goes on.
    assert!(worker_step(&mut store, None, false));
    // The requester switches source: the flag is observed after the next
    // read, whatever that read returned.
    assert!(!worker_step(&mut store, None, true));
    assert_eq!(store.sessions().len(), 1);
    assert_eq!(store.sessions()[0].len(), fed);
    for (i, rec) in store.sessions()[0].iter().enumerate() {
        assert_eq!(rec.index, i as u32);
    }
}

#[test]
fn stats_count_received_total_and_lost() {
    let mut data = MissionData::new();
    for index in [10u32, 11, 13, 16] {
        data.parse_line(&line_with_index(index)).unwrap();
    }
    let stats = session_stats(&data.sessions()[0]);
    assert_eq!(stats.received, 4);
    assert_eq!(stats.total, Some(7));
    assert_eq!(stats.lost, Some(3));
}

#[test]
fn stats_measure_inter_arrival_times() {
    let mut data = MissionData::new();
    for (index, uptime) in [(1u32, 1000u32), (2, 1500), (3, 1400), (4, 2500)] {
        data.parse_line(&line_with(index, uptime)).unwrap();
    }
    let stats = session_stats(&data.sessions()[0]);
    // 1500-1000 counts; 1400 went backwards and is skipped; 2500-1400 counts.
    assert_eq!(stats.delta_count, 2);
    assert_eq!(stats.delta_sum, 1600);
    assert_eq!(stats.max_delta, Some(1100));
    assert_eq!(stats.min_delta, Some(500));
    // A zero uptime means the clock was not ready: that pair is skipped too.
    let mut quiet = MissionData::new();
    for (index, uptime) in [(1u32, 0u32), (2, 800)] {
        quiet.parse_line(&line_with(index, uptime)).unwrap();
    }
    let stats = session_stats(&quiet.sessions()[0]);
    assert_eq!(stats.delta_count, 0);
    assert_eq!(stats.max_delta, None);
    assert_eq!(stats.min_delta, None);
}

#[test]
fn stats_of_an_empty_session_are_empty() {
    let stats = session_stats(&Vec::new());
    assert_eq!(stats.received, 0);
    assert_eq!(stats.total, None);
    assert_eq!(stats.lost, None);
    assert_eq!(stats.delta_count, 0);
    assert_eq!(stats.delta_sum, 0);
}

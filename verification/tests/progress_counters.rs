use skim::{eta_seconds, fmt_duration, precount_step, Progress};

#[test]
fn formats_durations() {
    assert_eq!(fmt_duration(0), "0s");
    assert_eq!(fmt_duration(5), "5s");
    assert_eq!(fmt_duration(65), "1m5s");
    assert_eq!(fmt_duration(3725), "1h2m");
}

#[test]
fn formats_duration_boundaries() {
    assert_eq!(fmt_duration(59), "59s");
    assert_eq!(fmt_duration(60), "1m0s");
    assert_eq!(fmt_duration(3599), "59m59s");
    assert_eq!(fmt_duration(3600), "1h0m");
    assert_eq!(fmt_duration(90061), "25h1m");
    assert_eq!(fmt_duration(u64::MAX), "5124095576030431h0m");
}

#[test]
fn fresh_progress_reports_line_before_start() {
    let p = Progress::new(1, None);
    assert_eq!(p.position(), 0);
    let p = Progress::new(1234568, Some(10));
    assert_eq!(p.position(), 1234567);
    assert_eq!(p.total_probeable(), Some(10));
    let p = Progress::new(0, None);
    assert_eq!(p.position(), 0);
}

#[test]
fn position_waits_for_oldest_inflight_line() {
    let mut p = Progress::new(1, None);
    p.start_probe(1);
    p.start_probe(2);
    p.record_skip(3);
    p.start_probe(4);
    assert_eq!(p.position(), 0);
    p.finish_probe(2, true);
    assert_eq!(p.position(), 0);
    p.finish_probe(1, false);
    assert_eq!(p.position(), 3);
    p.finish_probe(4, true);
    assert_eq!(p.position(), 4);
    let s = p.snapshot();
    assert_eq!((s.total, s.errors, s.skipped, s.position), (3, 1, 1, 4));
}

#[test]
fn resuming_after_position_reports_same_position() {
    let mut p = Progress::new(1, None);
    p.start_probe(7);
    p.start_probe(9);
    p.finish_probe(9, true);
    let pos = p.position();
    assert_eq!(pos, 6);
    assert_eq!(Progress::new(pos + 1, None).position(), pos);
}

#[test]
fn feeder_discards_lines_before_start() {
    let mut p = Progress::new(3, None);
    assert!(!p.feed_line(1, 3, true));
    assert!(!p.feed_line(2, 3, true));
    assert_eq!(p.position(), 2);
    assert!(!p.feed_line(3, 3, false));
    assert!(p.feed_line(4, 3, true));
    let s = p.snapshot();
    assert_eq!((s.total, s.errors, s.skipped, s.position), (0, 0, 1, 3));
    p.finish_probe(4, false);
    let s = p.snapshot();
    assert_eq!((s.total, s.errors, s.skipped, s.position), (1, 1, 1, 4));
}

#[test]
fn advance_feeder_moves_position_when_idle() {
    let mut p = Progress::new(1, None);
    p.advance_feeder(10);
    assert_eq!(p.position(), 10);
}

#[test]
fn eta_uses_remaining_records_and_rate() {
    assert_eq!(eta_seconds(Some(1000), 400, 600), Some(60));
    assert_eq!(eta_seconds(Some(1000), 1200, 600), Some(0));
    assert_eq!(eta_seconds(Some(1000), 400, 0), None);
    assert_eq!(eta_seconds(None, 400, 600), None);
    assert_eq!(eta_seconds(Some(10), 0, 7), Some(85));
}

#[test]
fn precount_counts_what_the_feeder_probes() {
    let flags = [true, false, true, true, false, true];
    let start_line = 3;
    let mut count = 0;
    let mut p = Progress::new(start_line, None);
    let mut probed = 0;
    for (i, &ok) in flags.iter().enumerate() {
        let line = i as u64 + 1;
        count = precount_step(count, line, start_line, ok);
        if p.feed_line(line, start_line, ok) {
            probed += 1;
        }
    }
    assert_eq!(count, 3);
    assert_eq!(count, probed);
}

#[test]
fn later_start_line_counts_fewer_lines() {
    let flags = [true, true, false, true];
    let count = |start_line: u64| {
        let mut c = 0;
        for (i, &ok) in flags.iter().enumerate() {
            c = precount_step(c, i as u64 + 1, start_line, ok);
        }
        c
    };
    assert_eq!(count(0), 3);
    assert_eq!(count(1), 3);
    assert_eq!(count(2), 2);
    assert_eq!(count(4), 1);
    assert_eq!(count(5), 0);
}

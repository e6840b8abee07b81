use azk::engine::{decide_next_kind, stamp, summarize, DaySummary};
use azk::error::TrackError;
use azk::event::{Event, EventKind, Record};

fn clock_in(time: i64) -> Event {
    Event { kind: EventKind::ClockIn, time }
}

fn clock_out(time: i64) -> Event {
    Event { kind: EventKind::ClockOut, time }
}

#[test]
fn kinds_are_stored_under_their_tags() {
    assert_eq!(EventKind::ClockIn.tag(), "strt");
    assert_eq!(EventKind::ClockOut.tag(), "stop");
    assert_eq!(EventKind::from_tag("strt"), EventKind::ClockIn);
    assert_eq!(EventKind::from_tag("stop"), EventKind::ClockOut);
}

#[test]
fn any_other_tag_counts_as_a_clock_out() {
    assert_eq!(EventKind::from_tag(""), EventKind::ClockOut);
    assert_eq!(EventKind::from_tag("STRT"), EventKind::ClockOut);
    assert_eq!(EventKind::from_tag("strt "), EventKind::ClockOut);
    assert_eq!(EventKind::from_tag("start"), EventKind::ClockOut);
    assert_eq!(EventKind::from_tag("str"), EventKind::ClockOut);
    assert_eq!(EventKind::from_tag("strü"), EventKind::ClockOut);
}

#[test]
fn an_event_is_stored_as_tag_and_time() {
    let record = clock_in(32400).encode();
    assert_eq!(record, Record { kind: "strt".to_string(), time: "09:00:00".to_string() });
    let record = clock_out(61205).encode();
    assert_eq!(record, Record { kind: "stop".to_string(), time: "17:00:05".to_string() });
}

#[test]
fn a_record_is_read_as_an_event() {
    let record = Record { kind: "strt".to_string(), time: "09:00:00".to_string() };
    assert_eq!(record.decode(), Ok(clock_in(32400)));
    let record = Record { kind: "stop".to_string(), time: "17:30:01".to_string() };
    assert_eq!(record.decode(), Ok(clock_out(63001)));
}

#[test]
fn a_record_with_a_malformed_time_is_not_read() {
    let record = Record { kind: "strt".to_string(), time: "9:60".to_string() };
    assert_eq!(record.decode(), Err(TrackError::MalformedTime));
}

#[test]
fn stored_events_read_back() {
    for kind in [EventKind::ClockIn, EventKind::ClockOut] {
        for time in [0i64, 1, 59, 60, 3599, 3600, 32400, 86399, 86400, 1000000, i64::MAX] {
            let event = Event { kind, time };
            assert_eq!(event.encode().decode(), Ok(event));
        }
    }
}

#[test]
fn an_empty_day_sums_to_nothing() {
    let summary = summarize(&vec![]);
    assert_eq!(summary, DaySummary { first_clock_in: 0, net_duration: 0, is_open: false });
}

#[test]
fn a_clock_in_alone_leaves_the_day_open() {
    let summary = summarize(&vec![clock_in(32400)]);
    assert_eq!(summary.net_duration, -32400);
    assert!(summary.is_open);
    assert_eq!(summary.first_clock_in, 32400);
}

#[test]
fn a_clock_in_and_a_clock_out_make_a_finished_day() {
    let summary = summarize(&vec![clock_in(32400), clock_out(61200)]);
    assert_eq!(summary.net_duration, 28800);
    assert!(!summary.is_open);
    assert_eq!(summary.first_clock_in, 32400);
}

#[test]
fn breaks_are_left_out_of_the_net_duration() {
    let events = vec![clock_in(32400), clock_out(43200), clock_in(46800), clock_out(61200)];
    let summary = summarize(&events);
    assert_eq!(summary.net_duration, 25200);
    assert_eq!(summary.first_clock_in, 32400);
    assert!(!summary.is_open);
}

#[test]
fn the_first_clock_in_is_the_earliest_in_the_log() {
    let events = vec![clock_out(100), clock_out(200), clock_in(300), clock_in(50)];
    let summary = summarize(&events);
    assert_eq!(summary.first_clock_in, 300);
    assert_eq!(summary.net_duration, -50);
    assert!(summary.is_open);
}

#[test]
fn a_day_of_clock_outs_has_no_first_clock_in() {
    let summary = summarize(&vec![clock_out(100), clock_out(200)]);
    assert_eq!(summary.first_clock_in, 0);
    assert_eq!(summary.net_duration, 300);
    assert!(!summary.is_open);
}

#[test]
fn sums_do_not_pair_events_up() {
    let summary = summarize(&vec![clock_in(10), clock_in(20), clock_out(100)]);
    assert_eq!(summary.net_duration, 70);
    assert!(!summary.is_open);
}

#[test]
fn sums_beyond_64_bits_are_kept() {
    let events = vec![clock_out(i64::MAX), clock_out(i64::MAX), clock_out(i64::MAX)];
    assert_eq!(summarize(&events).net_duration, 3 * (i64::MAX as i128));
    let events = vec![clock_in(i64::MAX), clock_in(i64::MAX), clock_out(i64::MIN)];
    assert_eq!(summarize(&events).net_duration, -2 * (i64::MAX as i128) + (i64::MIN as i128));
}

#[test]
fn the_next_kind_follows_the_net_duration() {
    let open = DaySummary { first_clock_in: 32400, net_duration: -32400, is_open: true };
    assert_eq!(decide_next_kind(&open), EventKind::ClockOut);
    let closed = DaySummary { first_clock_in: 32400, net_duration: 28800, is_open: false };
    assert_eq!(decide_next_kind(&closed), EventKind::ClockIn);
    let fresh = DaySummary { first_clock_in: 0, net_duration: 0, is_open: false };
    assert_eq!(decide_next_kind(&fresh), EventKind::ClockIn);
    let barely = DaySummary { first_clock_in: 0, net_duration: -1, is_open: true };
    assert_eq!(decide_next_kind(&barely), EventKind::ClockOut);
}

#[test]
fn stamps_take_turns_from_an_empty_log() {
    let mut events: Vec<Event> = Vec::new();
    let first = stamp(&events, 32400);
    assert_eq!(first, clock_in(32400));
    events.push(first);
    let second = stamp(&events, 43200);
    assert_eq!(second, clock_out(43200));
    events.push(second);
    let third = stamp(&events, 46800);
    assert_eq!(third, clock_in(46800));
    events.push(third);
    let fourth = stamp(&events, 61200);
    assert_eq!(fourth, clock_out(61200));
}

#[test]
fn many_stamps_at_rising_times_take_turns() {
    let mut events: Vec<Event> = Vec::new();
    let mut time: i64 = 1;
    for i in 0..200 {
        let event = stamp(&events, time);
        let expected = if i % 2 == 0 { EventKind::ClockIn } else { EventKind::ClockOut };
        assert_eq!(event.kind, expected);
        assert_eq!(event.time, time);
        events.push(event);
        assert_eq!(summarize(&events).is_open, i % 2 == 0);
        time += 1 + (i % 7);
    }
}

#[test]
fn a_clock_in_at_midnight_does_not_open_the_day() {
    let events = vec![clock_in(0)];
    assert!(!summarize(&events).is_open);
    assert_eq!(stamp(&events, 10), clock_in(10));
}

#[test]
fn the_last_kind_does_not_decide_the_next() {
    let events = vec![clock_in(100), clock_out(50)];
    assert_eq!(stamp(&events, 200).kind, EventKind::ClockOut);
}

use maison::local_time::{wait_until, Next, ScheduleWait, DAY_NS};
use maison::schedule::TimeOfDay;
use maison::zone::{zone_bytes_ok, Zone};
use maison::pb::HeatSchedule;
use maison::schedule::{parse_line, LineEvent, ScheduleTracker};

const SEC: i128 = 1_000_000_000;
/// 2024-01-01 00:00:00 UTC, a Monday.
const MONDAY: i128 = 1_704_067_200 * SEC;
const HOUR: i128 = 3600 * SEC;

fn temps(events: &[LineEvent]) -> Vec<Option<u64>> {
    events
        .iter()
        .map(|e| match e {
            LineEvent::HeatTo(_, t) => t.parse::<f64>().ok().map(f64::to_bits),
            _ => None,
        })
        .collect()
}

fn tracker(lines: &[&str]) -> ScheduleTracker {
    let mut s = ScheduleTracker::new();
    for l in lines {
        if let Some(line) = parse_line(l).unwrap() {
            let t = temps(&line.events);
            s.add_line(&line, &t).unwrap();
        }
    }
    s.sort_days();
    s
}

/// A TZif (version 2) file for a zone at a fixed offset from UTC.
fn tzif(offset: i32) -> Vec<u8> {
    let mut block = Vec::new();
    block.extend_from_slice(&offset.to_be_bytes());
    block.extend_from_slice(&[0, 0]);
    block.extend_from_slice(b"ZZZ\0");
    let mut header = b"TZif2".to_vec();
    header.extend_from_slice(&[0; 15]);
    for count in [0u32, 0, 0, 0, 1, 4] {
        header.extend_from_slice(&count.to_be_bytes());
    }
    let mut file = header.clone();
    file.extend_from_slice(&block);
    file.extend_from_slice(&header);
    file.extend_from_slice(&block);
    file
}

fn zone(offset: i32) -> Zone {
    let bytes = tzif(offset);
    assert!(zone_bytes_ok(&bytes));
    Zone::new(bytes).unwrap()
}

fn utc() -> Zone {
    zone(0)
}

fn waters(sent: &[HeatSchedule]) -> Vec<Option<bool>> {
    sent.iter().map(|h| h.hot_water).collect()
}

#[test]
fn wait_until_exact() {
    assert_eq!(wait_until(Some((10, 5)), 9 * SEC), Some(1_000_000_005));
    assert_eq!(wait_until(Some((9, 0)), 9 * SEC), None);
    assert_eq!(wait_until(Some((8, 999_999_999)), 9 * SEC), None);
    assert_eq!(wait_until(None, 9 * SEC), None);
    assert_eq!(wait_until(Some((-1, 0)), -2 * SEC), Some(SEC as u128));
}

#[test]
fn run_to_now_carries_out_due_events_today() {
    let mut s = tracker(&["Mon 06:00 water", "Mon 18:00 nowater"]);
    let (w, sent) = s.run_to_now(&utc(), MONDAY + 12 * HOUR);
    assert_eq!(w, ScheduleWait::Sleep((6 * HOUR) as u128));
    assert_eq!(waters(&sent), vec![Some(true)]);
    assert!(s.now.water);
    assert_eq!((s.now_weekday, s.now_time), (0, 1));
}

#[test]
fn run_to_now_catches_up_over_days() {
    let mut s = tracker(&["Mon 06:00 water", "Tue 06:00 nowater main=20.5", "Wed 06:00 water", "Wed 20:00 nowater"]);
    let (w, sent) = s.run_to_now(&utc(), MONDAY + 2 * 24 * HOUR + 12 * HOUR);
    assert_eq!(w, ScheduleWait::Sleep((8 * HOUR) as u128));
    assert_eq!(waters(&sent), vec![Some(true), Some(false), Some(false), Some(true)]);
    assert_eq!(sent[0].heating.len(), 0);
    assert_eq!(sent[3].heating.len(), 1);
    assert_eq!(sent[3].heating[0].zone.as_deref(), Some("main"));
    assert_eq!(sent[3].heating[0].setpoint, Some(20.5f64.to_bits()));
    assert_eq!((s.now_weekday, s.now_time), (2, 1));
}

#[test]
fn run_to_now_in_a_zone_east_of_utc() {
    let tz = zone(3600);
    let mut s = tracker(&["Mon 06:00 water", "Mon 18:00 nowater"]);
    // 05:30 UTC is 06:30 in the zone: the morning event is due.
    let (w, sent) = s.run_to_now(&tz, MONDAY + 5 * HOUR + HOUR / 2);
    assert_eq!(w, ScheduleWait::Sleep((11 * HOUR + HOUR / 2) as u128));
    assert_eq!(waters(&sent), vec![Some(true)]);
    // 04:30 UTC is 05:30 there: nothing is due yet.
    let mut s = tracker(&["Mon 06:00 water", "Mon 18:00 nowater"]);
    let (w, sent) = s.run_to_now(&tz, MONDAY + 4 * HOUR + HOUR / 2);
    assert_eq!(w, ScheduleWait::Sleep((HOUR / 2) as u128));
    assert!(sent.is_empty());
}

#[test]
fn run_to_now_waits_for_tomorrow() {
    let mut s = tracker(&["Tue 07:00 nowater"]);
    let (w, sent) = s.run_to_now(&utc(), MONDAY + 12 * HOUR);
    assert_eq!(w, ScheduleWait::Sleep((19 * HOUR) as u128));
    assert!(sent.is_empty());
    assert_eq!((s.now_weekday, s.now_time), (0, 0));
}

#[test]
fn run_to_now_after_last_event_of_today() {
    // Past today's events, the weekday after the position (Wednesday) is
    // the one looked at: it has no event, so the wait is a day.
    let mut s = tracker(&["Mon 06:00 water", "Tue 07:00 nowater"]);
    let (w, sent) = s.run_to_now(&utc(), MONDAY + 12 * HOUR);
    assert_eq!(w, ScheduleWait::Sleep(DAY_NS));
    assert_eq!(waters(&sent), vec![Some(true)]);
    assert_eq!((s.now_weekday, s.now_time), (1, 0));
}

#[test]
fn run_to_now_with_nothing_scheduled() {
    let mut s = tracker(&[]);
    let (w, sent) = s.run_to_now(&utc(), MONDAY + 12 * HOUR);
    assert_eq!(w, ScheduleWait::Sleep(DAY_NS));
    assert!(sent.is_empty());
}

#[test]
fn run_to_now_without_an_event_tomorrow() {
    let mut s = tracker(&["Mon 06:00 water", "Wed 06:00 nowater"]);
    let (w, sent) = s.run_to_now(&utc(), MONDAY + 8 * HOUR);
    assert_eq!(w, ScheduleWait::NoEventTomorrow);
    assert_eq!(waters(&sent), vec![Some(true)]);
}

fn at(h: u32) -> TimeOfDay {
    TimeOfDay { secs: h * 3600, frac: 0 }
}

#[test]
fn next_step_choices() {
    let mut s = tracker(&["Mon 06:00 water", "Mon 18:00 nowater", "Wed 07:00 water"]);
    assert_eq!(s.next_step(0), Next::Today(at(6)));
    assert_eq!(s.next_step(6), Next::Done(ScheduleWait::Sleep(DAY_NS)));
    assert_eq!(s.next_step(3), Next::Done(ScheduleWait::Sleep(DAY_NS)));
    s.run_forward(1);
    // Past Monday: Wednesday, after the position, has events; Tuesday has none.
    assert_eq!(s.next_step(0), Next::Done(ScheduleWait::NoEventTomorrow));
    assert_eq!(s.next_step(1), Next::Tomorrow(at(7)));
}

#[test]
fn catch_up_step_waits_or_steps() {
    let mut s = tracker(&["Mon 06:00 water", "Mon 18:00 nowater"]);
    let mut sent = Vec::new();
    let now = MONDAY + 12 * HOUR;
    let six = (1_704_067_200 + 6 * 3600, 0);
    let six_pm = (1_704_067_200 + 18 * 3600, 0);
    assert_eq!(s.catch_up_step(0, Some(six), now, &mut sent), None);
    assert_eq!((s.now_weekday, s.now_time), (0, 1));
    assert_eq!(waters(&sent), vec![Some(true)]);
    assert_eq!(s.catch_up_step(0, Some(six_pm), now, &mut sent), Some(ScheduleWait::Sleep((6 * HOUR) as u128)));
    assert_eq!((s.now_weekday, s.now_time), (0, 1));
    assert_eq!(sent.len(), 1);
    // A local time the zone skips counts as due.
    assert_eq!(s.catch_up_step(0, None, now, &mut sent), None);
    assert_eq!(waters(&sent), vec![Some(true), Some(false)]);
    assert_eq!((s.now_weekday, s.now_time), (1, 0));
    assert_eq!(s.catch_up_step(1, None, now, &mut sent), Some(ScheduleWait::Sleep(DAY_NS)));
}

#[test]
fn zone_bytes_checked_before_parsing() {
    assert!(zone_bytes_ok(b"TZif"));
    assert!(Zone::new(b"not a zone".to_vec()).is_none());
    // A second block whose one transition lies at the far end of time.
    let mut bytes = tzif(0);
    let header2 = bytes.len() - 10 - 44;
    bytes[header2 + 35] = 1;
    bytes.truncate(header2 + 44);
    bytes.extend_from_slice(&i64::MAX.to_be_bytes());
    bytes.push(0);
    bytes.extend_from_slice(&[0, 0, 0, 0, 0, 0]);
    bytes.extend_from_slice(b"ZZZ\0");
    assert!(!zone_bytes_ok(&bytes));
    bytes[header2 + 44] = 0;
    assert!(zone_bytes_ok(&bytes));
    assert!(Zone::new(bytes).is_some());
}

fn unsorted(lines: &[&str]) -> ScheduleTracker {
    let mut s = ScheduleTracker::new();
    for l in lines {
        if let Some(line) = parse_line(l).unwrap() {
            let t = temps(&line.events);
            s.add_line(&line, &t).unwrap();
        }
    }
    s
}

#[test]
fn start_reflects_the_week_before_now() {
    let lines = ["Sun 22:00 nowater main=19", "Mon 20:00 nowater", "Mon 06:00 water", "Sun 21:00 water"];
    // Monday 03:00: the latest events are Sunday's, the later of them last.
    let mut s = unsorted(&lines);
    assert_eq!(s.start(&utc(), MONDAY + 3 * HOUR), ScheduleWait::Sleep((3 * HOUR) as u128));
    assert!(!s.now.water);
    assert_eq!(s.now.heat, vec![("main".to_string(), 19f64.to_bits())]);
    assert_eq!((s.now_weekday, s.now_time), (0, 0));
    // Monday 12:00: Monday's event is carried out too.
    let mut s = unsorted(&lines);
    assert_eq!(s.start(&utc(), MONDAY + 12 * HOUR), ScheduleWait::Sleep((8 * HOUR) as u128));
    assert!(s.now.water);
    assert_eq!(s.now.heat.len(), 1);
    assert_eq!((s.now_weekday, s.now_time), (0, 1));
}

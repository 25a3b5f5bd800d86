use maison::pb::HeatSchedule;
use maison::schedule::{
    parse_line, sort_events, Candidate, LineEvent, ProgrammedEvent, ProgrammedEventDesc,
    ScheduleReadError, ScheduleTracker, SchedulePoint, TimeOfDay,
};

fn tod(h: u32, m: u32) -> TimeOfDay {
    TimeOfDay { secs: h * 3600 + m * 60, frac: 0 }
}

fn temps_of(events: &[LineEvent]) -> Vec<Option<u64>> {
    events
        .iter()
        .map(|e| match e {
            LineEvent::HeatTo(_, t) => t.parse::<f64>().ok().map(f64::to_bits),
            _ => None,
        })
        .collect()
}

fn load(lines: &[&str]) -> ScheduleTracker {
    let mut s = ScheduleTracker::new();
    for l in lines {
        if let Some(line) = parse_line(l).unwrap() {
            let temps = temps_of(&line.events);
            s.add_line(&line, &temps).unwrap();
        }
    }
    s.sort_days();
    s
}

#[test]
fn parse_full_line() {
    let l = parse_line("Mon,tuesday 06:30 water main=20.5 top=off # comment words").unwrap().unwrap();
    assert_eq!(l.weekdays, vec![0, 1]);
    assert_eq!(l.time, tod(6, 30));
    assert_eq!(l.events.len(), 3);
    assert!(matches!(&l.events[0], LineEvent::Water(true)));
    assert!(matches!(&l.events[1], LineEvent::HeatTo(z, t) if z == "main" && t == "20.5"));
    assert!(matches!(&l.events[2], LineEvent::HeatOff(z) if z == "top"));
    assert!(l.stop.is_none());
}

#[test]
fn parse_blank_and_comment_lines() {
    assert!(parse_line("").unwrap().is_none());
    assert!(parse_line("   \t ").unwrap().is_none());
    assert!(parse_line("# Mon 06:00 water").unwrap().is_none());
}

#[test]
fn parse_errors() {
    assert!(matches!(parse_line("Funday 06:00 water"), Err(ScheduleReadError::ParseWeekdayError(_))));
    assert!(matches!(parse_line("Mon,,Tue 06:00 water"), Err(ScheduleReadError::ParseWeekdayError(_))));
    assert!(matches!(parse_line("Mon"), Err(ScheduleReadError::MissingTime)));
    assert!(matches!(parse_line("Mon 25:00"), Err(ScheduleReadError::ChronoParseError(_))));
    let l = parse_line("Sun 07:00 nowater boil main=18").unwrap().unwrap();
    assert_eq!(l.events.len(), 1);
    assert_eq!(l.stop.as_deref(), Some("boil"));
}

#[test]
fn add_line_reports_errors_in_order() {
    let mut s = ScheduleTracker::new();
    let l = parse_line("Mon 07:00 main=warm boil").unwrap().unwrap();
    let temps = temps_of(&l.events);
    assert!(matches!(s.add_line(&l, &temps), Err(ScheduleReadError::BadTemperature)));
    let l = parse_line("Mon 07:00 main=19 boil").unwrap().unwrap();
    let temps = temps_of(&l.events);
    match s.add_line(&l, &temps) {
        Err(ScheduleReadError::UnknownEvent(x)) => assert_eq!(x, "boil"),
        r => panic!("unexpected {r:?}"),
    }
    assert!(s.daily.iter().all(|d| d.is_empty()));
}

#[test]
fn add_line_repeats_for_each_weekday() {
    let s = load(&["Mon,Wed,Mon 07:00 water"]);
    assert_eq!(s.daily[0].len(), 2);
    assert_eq!(s.daily[2].len(), 1);
    assert_eq!(s.daily[1].len(), 0);
}

#[test]
fn sort_is_stable_by_time() {
    let ev = |h, w| ProgrammedEvent(tod(h, 0), ProgrammedEventDesc::Water(w));
    let v = vec![ev(9, true), ev(7, true), ev(9, false), ev(7, false)];
    let r = sort_events(&v);
    let got: Vec<(u32, bool)> = r
        .iter()
        .map(|e| match e.1 {
            ProgrammedEventDesc::Water(w) => (e.0.secs / 3600, w),
            _ => unreachable!(),
        })
        .collect();
    assert_eq!(got, vec![(7, true), (7, false), (9, true), (9, false)]);
}

#[test]
fn week_replay_gives_start_state() {
    let mut s = load(&[
        "Mon 06:00 water main=20",
        "Mon 22:00 nowater main=off",
        "Sun 08:00 top=17.5",
    ]);
    s.run_forward(1);
    assert_eq!((s.now_weekday, s.now_time), (1, 0));
    s.run_forward(0);
    assert_eq!((s.now_weekday, s.now_time), (0, 0));
    assert!(!s.now.water);
    assert_eq!(s.now.heat, vec![("top".to_string(), 17.5f64.to_bits())]);
    // A second whole week changes nothing.
    s.run_forward(1);
    s.run_forward(0);
    assert_eq!((s.now_weekday, s.now_time), (0, 0));
    assert!(!s.now.water);
    assert_eq!(s.now.heat, vec![("top".to_string(), 17.5f64.to_bits())]);
}

#[test]
fn execute_next_today_steps_through_events() {
    let mut s = load(&["Mon 06:00 water b=1 a=2"]);
    assert!(s.execute_next_today());
    assert!(s.now.water);
    assert!(s.execute_next_today());
    assert!(s.execute_next_today());
    assert_eq!((s.now_weekday, s.now_time), (1, 0));
    assert_eq!(s.now.heat, vec![("a".to_string(), 2f64.to_bits()), ("b".to_string(), 1f64.to_bits())]);
    assert!(!s.execute_next_today());
    assert_eq!((s.now_weekday, s.now_time), (2, 0));
}

#[test]
fn heat_schedule_is_sorted_by_zone() {
    let mut p = SchedulePoint::new();
    p.water = true;
    p.heat_insert(&"top".to_string(), 1);
    p.heat_insert(&"bottom".to_string(), 2);
    p.heat_insert(&"middle".to_string(), 3);
    p.heat_insert(&"top".to_string(), 4);
    p.heat_remove(&"middle".to_string());
    p.heat_remove(&"nowhere".to_string());
    let h = HeatSchedule::from_point(&p);
    assert_eq!(h.hot_water, Some(true));
    let zones: Vec<(String, u64)> = h.heating.iter().map(|s| (s.zone.clone().unwrap(), s.setpoint.unwrap())).collect();
    assert_eq!(zones, vec![("bottom".to_string(), 2), ("top".to_string(), 4)]);
}

#[test]
fn next_candidate_choices() {
    let mut s = load(&["Mon 06:00 water", "Tue 07:00 nowater"]);
    assert_eq!(s.next_candidate(0), Candidate::Today(tod(6, 0)));
    s.execute_next_today();
    assert_eq!(s.now_weekday, 1);
    assert_eq!(s.next_candidate(1), Candidate::Today(tod(7, 0)));
    s.run_forward(6);
    assert_eq!(s.next_candidate(6), Candidate::Tomorrow(tod(6, 0)));
    s.run_forward(3);
    assert_eq!(s.next_candidate(3), Candidate::TryLater);
}

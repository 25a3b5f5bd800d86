//! The weekly heating and hot-water schedule: parsing the schedule file,
//! and stepping through its events.
//!
//! A schedule line is `WEEKDAYS TIME EVENT...`, where `WEEKDAYS` is a
//! comma-separated list of weekday names, `TIME` a time of day, and each
//! event `water`, `nowater`, `ZONE=off` or `ZONE=TEMPERATURE`; a token
//! starting with `#` starts a comment.  Temperatures are read by the caller
//! (see `ScheduleTracker::add_line`).
use vstd::prelude::*;
use chrono::Timelike;
use crate::text::{lemma_seq_lt_total, lemma_seq_lt_transitive, seq_lt, str_lt, chars_of, split_on, split_ranges, str_eq, text_of, token_ranges, tokens, ranges_name};

verus! {

#[verifier::external_type_specification]
#[verifier::external_body]
pub struct ExParseWeekdayError(chrono::ParseWeekdayError);

#[verifier::external_type_specification]
#[verifier::external_body]
pub struct ExChronoParseError(chrono::ParseError);

/// Where the schedule is read from, and the time zone it is written in.
#[derive(Debug)]
pub struct ScheduleArgs {
    /// Path of the schedule file.
    pub schedule: String,
    /// Name of the schedule's time zone.
    pub tz: String,
}

/// Why a schedule could not be read.
#[derive(Debug)]
pub enum ScheduleReadError {
    ParseWeekdayError(chrono::ParseWeekdayError),
    ChronoParseError(chrono::ParseError),
    UnknownEvent(String),
    MissingTime,
    /// A temperature that does not read as a number.
    BadTemperature,
}

/// A time of day as `chrono::NaiveTime` holds it: seconds from midnight and
/// nanoseconds (above 10^9 during a leap second).
#[derive(Clone, Copy, Debug, PartialEq, Eq, Structural)]
pub struct TimeOfDay {
    pub secs: u32,
    pub frac: u32,
}

/// The order of times of day (that of `NaiveTime`).
pub open spec fn time_lt(a: TimeOfDay, b: TimeOfDay) -> bool {
    a.secs < b.secs || (a.secs == b.secs && a.frac < b.frac)
}

/// `a` is earlier than `b`.
pub fn time_before(a: TimeOfDay, b: TimeOfDay) -> (r: bool)
    ensures
        r == time_lt(a, b),
{
    a.secs < b.secs || (a.secs == b.secs && a.frac < b.frac)
}

/// ASCII lower case of a character.
pub open spec fn ascii_lower(c: char) -> char {
    if 'A' <= c && c <= 'Z' {
        ((c as u32) + 32) as char
    } else {
        c
    }
}

/// ASCII lower case of a text.
pub open spec fn lower(s: Seq<char>) -> Seq<char> {
    s.map_values(|c: char| ascii_lower(c))
}

/// The weekday (0 for Monday to 6 for Sunday) that a text names: its
/// three-letter or full English name, in any ASCII case.
pub open spec fn spec_weekday(s: Seq<char>) -> Option<u8> {
    let l = lower(s);
    if l == "mon"@ || l == "monday"@ {
        Some(0)
    } else if l == "tue"@ || l == "tuesday"@ {
        Some(1)
    } else if l == "wed"@ || l == "wednesday"@ {
        Some(2)
    } else if l == "thu"@ || l == "thursday"@ {
        Some(3)
    } else if l == "fri"@ || l == "friday"@ {
        Some(4)
    } else if l == "sat"@ || l == "saturday"@ {
        Some(5)
    } else if l == "sun"@ || l == "sunday"@ {
        Some(6)
    } else {
        None
    }
}

/// `<chrono::Weekday as FromStr>::from_str`, numbered from Monday: accepts
/// exactly the three-letter and the full English names, ignoring ASCII case.
#[verifier::external_body]
fn parse_weekday(s: &str) -> (r: Result<u8, chrono::ParseWeekdayError>)
    ensures
        r matches Ok(d) ==> spec_weekday(s@) == Some(d),
        r is Err ==> spec_weekday(s@) is None,
{
    match s.parse::<chrono::Weekday>() {
        Ok(w) => Ok(w.num_days_from_monday() as u8),
        Err(e) => Err(e),
    }
}

/// What `<chrono::NaiveTime as FromStr>::from_str` makes of a text: its
/// seconds from midnight and nanoseconds.
pub uninterp spec fn naive_time_parse(s: Seq<char>) -> Option<(u32, u32)>;

/// `<chrono::NaiveTime as FromStr>::from_str`, read back as seconds from
/// midnight and nanoseconds: the result is the named one.
#[verifier::external_body]
fn parse_time(s: &str) -> (r: Result<TimeOfDay, chrono::ParseError>)
    ensures
        r matches Ok(t) ==> naive_time_parse(s@) == Some((t.secs, t.frac)),
        r is Err ==> naive_time_parse(s@) is None,
{
    match s.parse::<chrono::NaiveTime>() {
        Ok(t) => Ok(TimeOfDay { secs: t.num_seconds_from_midnight(), frac: t.nanosecond() }),
        Err(e) => Err(e),
    }
}

/// The token starts a comment.
pub open spec fn starts_comment(t: Seq<char>) -> bool {
    t.len() > 0 && t[0] == '#'
}

/// The number of tokens before the first comment.
pub open spec fn comment_pos(t: Seq<Seq<char>>) -> int {
    if exists|k: int| 0 <= k < t.len() && starts_comment(#[trigger] t[k]) {
        choose|k: int| 0 <= k < t.len() && starts_comment(#[trigger] t[k])
            && forall|j: int| 0 <= j < k ==> !starts_comment(t[j])
    } else {
        t.len() as int
    }
}

/// The words of a schedule line: its tokens before any comment.
pub open spec fn words(line: Seq<char>) -> Seq<Seq<char>> {
    tokens(line).take(comment_pos(tokens(line)))
}

/// An event as written on a schedule line.
pub enum EventText {
    Water(bool),
    HeatOff(Seq<char>),
    /// A zone and the text of its temperature.
    HeatTo(Seq<char>, Seq<char>),
}

/// Position of the first `c` in `s`.
pub open spec fn first_index(s: Seq<char>, c: char) -> Option<int> {
    if exists|k: int| 0 <= k < s.len() && s[k] == c {
        Some(choose|k: int| 0 <= k < s.len() && s[k] == c && forall|j: int| 0 <= j < k ==> s[j] != c)
    } else {
        None
    }
}

/// The event that a word names, if any.
pub open spec fn event_text(w: Seq<char>) -> Option<EventText> {
    if w == "water"@ {
        Some(EventText::Water(true))
    } else if w == "nowater"@ {
        Some(EventText::Water(false))
    } else {
        match first_index(w, '=') {
            None => None,
            Some(k) => {
                let zone = w.take(k);
                let temp = w.skip(k + 1);
                if temp == "off"@ {
                    Some(EventText::HeatOff(zone))
                } else {
                    Some(EventText::HeatTo(zone, temp))
                }
            },
        }
    }
}

/// The events named by words `w`, up to the first word that names none
/// (which is returned too).
pub open spec fn events_text(w: Seq<Seq<char>>) -> (Seq<EventText>, Option<Seq<char>>)
    decreases w.len(),
{
    if w.len() == 0 {
        (Seq::empty(), None)
    } else {
        match event_text(w[0]) {
            None => (Seq::empty(), Some(w[0])),
            Some(e) => {
                let (rest, stop) = events_text(w.drop_first());
                (seq![e] + rest, stop)
            },
        }
    }
}

/// An event read from a schedule line.
#[derive(Debug)]
pub enum LineEvent {
    Water(bool),
    HeatOff(String),
    /// A zone and the text of its temperature.
    HeatTo(String, String),
}

/// The written form of a read event.
pub open spec fn line_event_text(e: LineEvent) -> EventText {
    match e {
        LineEvent::Water(b) => EventText::Water(b),
        LineEvent::HeatOff(z) => EventText::HeatOff(z@),
        LineEvent::HeatTo(z, t) => EventText::HeatTo(z@, t@),
    }
}

/// A schedule line that names its weekdays and time.
#[derive(Debug)]
pub struct ScheduleLine {
    /// Weekdays, numbered from Monday.
    pub weekdays: Vec<u8>,
    pub time: TimeOfDay,
    /// The events, up to the first word that names none.
    pub events: Vec<LineEvent>,
    /// The first word that names no event, if any.
    pub stop: Option<String>,
}

/// Weekday numbers of the pieces `p`, if each names one.
pub open spec fn weekdays_of(p: Seq<Seq<char>>) -> Option<Seq<u8>>
    decreases p.len(),
{
    if p.len() == 0 {
        Some(Seq::empty())
    } else {
        match (spec_weekday(p[0]), weekdays_of(p.drop_first())) {
            (Some(d), Some(rest)) => Some(seq![d] + rest),
            _ => None,
        }
    }
}

/// What a schedule line says, or why it cannot be read: `Ok(None)` for a
/// line without words.
pub open spec fn spec_line_ok(line: Seq<char>, r: Result<Option<ScheduleLine>, ScheduleReadError>) -> bool {
    let w = words(line);
    if w.len() == 0 {
        r matches Ok(None)
    } else {
        match weekdays_of(split_on(w[0], ',')) {
            None => r matches Err(ScheduleReadError::ParseWeekdayError(_)),
            Some(days) => if w.len() < 2 {
                r matches Err(ScheduleReadError::MissingTime)
            } else {
                match naive_time_parse(w[1]) {
                    None => r matches Err(ScheduleReadError::ChronoParseError(_)),
                    Some((secs, frac)) => r matches Ok(Some(l)) && {
                        let (evs, stop) = events_text(w.skip(2));
                        &&& l.weekdays@ == days
                        &&& l.time == (TimeOfDay { secs, frac })
                        &&& l.events@.map_values(|e: LineEvent| line_event_text(e)) == evs
                        &&& match stop {
                            None => l.stop is None,
                            Some(s) => l.stop matches Some(t) && t@ == s,
                        }
                    },
                }
            }
        }
    }
}


proof fn lemma_weekdays_of(p: Seq<Seq<char>>)
    ensures
        weekdays_of(p) is Some <==> forall|k: int| 0 <= k < p.len() ==> (#[trigger] spec_weekday(p[k])) is Some,
        weekdays_of(p) matches Some(d) ==> d.len() == p.len()
            && forall|k: int| 0 <= k < p.len() ==> spec_weekday(p[k]) == Some(#[trigger] d[k]),
    decreases p.len(),
{
    if p.len() > 0 {
        lemma_weekdays_of(p.drop_first());
        assert forall|k: int| 0 < k < p.len() implies #[trigger] spec_weekday(p[k]) == spec_weekday(p.drop_first()[k - 1]) by {}
        if forall|k: int| 0 <= k < p.len() ==> (#[trigger] spec_weekday(p[k])) is Some {
            assert forall|k: int| 0 <= k < p.drop_first().len() implies (#[trigger] spec_weekday(p.drop_first()[k])) is Some by {
                assert(spec_weekday(p[k + 1]) is Some);
            }
        }
    }
}

proof fn lemma_events_text_prefix(w: Seq<Seq<char>>, m: int)
    requires
        0 <= m <= w.len(),
        forall|j: int| 0 <= j < m ==> (#[trigger] event_text(w[j])) is Some,
    ensures
        events_text(w).0 == Seq::new(m as nat, |j: int| event_text(w[j]).unwrap()) + events_text(w.skip(m)).0,
        events_text(w).1 == events_text(w.skip(m)).1,
    decreases m,
{
    if m == 0 {
        assert(w.skip(0) =~= w);
        assert(Seq::new(0, |j: int| event_text(w[j]).unwrap()) + events_text(w).0 =~= events_text(w).0);
    } else {
        let t = w.drop_first();
        assert forall|j: int| 0 <= j < m - 1 implies (#[trigger] event_text(t[j])) is Some by {
            assert(t[j] == w[j + 1]);
            assert(event_text(w[j + 1]) is Some);
        }
        lemma_events_text_prefix(t, m - 1);
        assert(t.skip(m - 1) =~= w.skip(m));
        assert(event_text(w[0]) is Some);
        assert(Seq::new(m as nat, |j: int| event_text(w[j]).unwrap()) =~= seq![event_text(w[0]).unwrap()]
            + Seq::new((m - 1) as nat, |j: int| event_text(t[j]).unwrap()));
    }
}

/// Reads the event written as `c[from..to]` (a word of `line`).
fn read_event(line: &str, c: &Vec<char>, from: usize, to: usize) -> (r: Option<LineEvent>)
    requires
        c@ == line@,
        from <= to <= c@.len(),
    ensures
        match r {
            Some(e) => event_text(c@.subrange(from as int, to as int)) == Some(line_event_text(e)),
            None => event_text(c@.subrange(from as int, to as int)) is None,
        },
{
    let ghost w = c@.subrange(from as int, to as int);
    let word = text_of(line, c, from, to);
    if str_eq(word.as_str(), "water") {
        return Some(LineEvent::Water(true));
    }
    if str_eq(word.as_str(), "nowater") {
        return Some(LineEvent::Water(false));
    }
    let mut j: usize = from;
    while j < to
        invariant
            from <= j <= to <= c@.len(),
            c@ == line@,
            w == c@.subrange(from as int, to as int),
            word@ == w,
            w != "water"@,
            w != "nowater"@,
            forall|k: int| from <= k < j ==> c@[k] != '=',
        decreases to - j,
    {
        if c[j] == '=' {
            proof {
                let k = (j - from) as int;
                assert(w[k] == '=');
                let q = choose|q: int| 0 <= q < w.len() && w[q] == '=' && forall|i: int| 0 <= i < q ==> w[i] != '=';
                if q < k {
                    assert(c@[from + q] == '=');
                } else if q > k {
                    assert(w[k] != '=');
                }
                assert(first_index(w, '=') == Some(k));
                assert(w.take(k) =~= c@.subrange(from as int, j as int));
                assert(w.skip(k + 1) =~= c@.subrange(j + 1, to as int));
            }
            let zone = text_of(line, c, from, j);
            let temp = text_of(line, c, j + 1, to);
            proof {
                assert(word@ == w);
                assert(w != "water"@);
                assert(w != "nowater"@);
            }
            if str_eq(temp.as_str(), "off") {
                return Some(LineEvent::HeatOff(zone));
            } else {
                return Some(LineEvent::HeatTo(zone, temp));
            }
        }
        j = j + 1;
    }
    proof {
        assert forall|k: int| 0 <= k < w.len() implies w[k] != '=' by {
            assert(w[k] == c@[from + k]);
        }
    }
    None
}

/// Token `n` (named by `toks`) starts a comment.
fn token_is_comment(c: &Vec<char>, toks: &Vec<(usize, usize)>, n: usize) -> (r: bool)
    requires
        n < toks@.len(),
        toks@[n as int].0 <= toks@[n as int].1 <= c@.len(),
    ensures
        r == starts_comment(c@.subrange(toks@[n as int].0 as int, toks@[n as int].1 as int)),
{
    let (a, b) = toks[n];
    a < b && c[a] == '#'
}

/// Reads one line of the schedule file.
pub fn parse_line(line: &str) -> (r: Result<Option<ScheduleLine>, ScheduleReadError>)
    ensures
        spec_line_ok(line@, r),
{
    let c = chars_of(line);
    let toks = token_ranges(&c, 0, c.len());
    let ghost t = tokens(line@);
    proof {
        assert(c@.subrange(0, c@.len() as int) =~= c@);
    }
    let mut n: usize = 0;
    while n < toks.len() && !token_is_comment(&c, &toks, n)
        invariant
            n <= toks@.len(),
            c@ == line@,
            t == tokens(line@),
            ranges_name(c@, toks@, t),
            forall|j: int| 0 <= j < n ==> !starts_comment(#[trigger] t[j]),
        decreases toks@.len() - n,
    {
        n = n + 1;
    }
    proof {
        if n < toks@.len() {
            assert(starts_comment(t[n as int]));
            let q = choose|q: int| 0 <= q < t.len() && starts_comment(#[trigger] t[q]) && forall|j: int| 0 <= j < q ==> !starts_comment(t[j]);
            if q > n {
                assert(!starts_comment(t[n as int]));
            }
            assert(comment_pos(t) == n);
        } else {
            assert(comment_pos(t) == n);
        }
    }
    let ghost w = words(line@);
    assert(w =~= t.take(n as int));
    if n == 0 {
        return Ok(None);
    }
    let (a0, b0) = toks[0];
    let pieces = split_ranges(&c, a0, b0, ',');
    let ghost p = split_on(w[0], ',');
    proof {
        assert(w[0] == t[0]);
        assert(t[0] == c@.subrange(a0 as int, b0 as int));
    }
    let mut days: Vec<u8> = Vec::new();
    let mut k: usize = 0;
    while k < pieces.len()
        invariant
            k <= pieces@.len(),
            c@ == line@,
            p == split_on(c@.subrange(a0 as int, b0 as int), ','),
            p == split_on(w[0], ','),
            w == words(line@),
            w.len() == n,
            n > 0,
            ranges_name(c@, pieces@, p),
            days@.len() == k,
            forall|j: int| 0 <= j < k ==> spec_weekday(p[j]) == Some(#[trigger] days@[j]),
        decreases pieces@.len() - k,
    {
        let (pa, pb) = pieces[k];
        let piece = text_of(line, &c, pa, pb);
        match parse_weekday(piece.as_str()) {
            Ok(d) => {
                proof {
                    assert(piece@ == p[k as int]);
                }
                days.push(d);
            },
            Err(e) => {
                proof {
                    assert(piece@ == p[k as int]);
                    lemma_weekdays_of(p);
                }
                return Err(ScheduleReadError::ParseWeekdayError(e));
            },
        }
        k = k + 1;
    }
    proof {
        lemma_weekdays_of(p);
        assert forall|j: int| 0 <= j < p.len() implies (#[trigger] spec_weekday(p[j])) is Some by {
            assert(spec_weekday(p[j]) == Some(days@[j]));
        }
        assert(weekdays_of(p) is Some);
        assert(weekdays_of(p).unwrap() =~= days@);
    }
    if n < 2 {
        return Err(ScheduleReadError::MissingTime);
    }
    let (a1, b1) = toks[1];
    let time_text = text_of(line, &c, a1, b1);
    let time = match parse_time(time_text.as_str()) {
        Ok(t) => t,
        Err(e) => {
            return Err(ScheduleReadError::ChronoParseError(e));
        },
    };
    let ghost ws = w.skip(2);
    let mut events: Vec<LineEvent> = Vec::new();
    let mut stop: Option<String> = None;
    let mut i: usize = 2;
    while i < n
        invariant_except_break
            stop is None,
        invariant
            2 <= i <= n <= toks@.len(),
            c@ == line@,
            ranges_name(c@, toks@, t),
            w == t.take(n as int),
            ws == w.skip(2),
            events@.len() == i - 2,
            forall|j: int| 0 <= j < i - 2 ==> event_text(ws[j]) == Some(line_event_text(#[trigger] events@[j])),
        ensures
            stop is None ==> i == n,
            stop matches Some(x) ==> i < n && event_text(ws[i - 2]) is None && x@ == ws[i - 2],
        decreases n - i,
    {
        let (a, b) = toks[i];
        match read_event(line, &c, a, b) {
            Some(e) => {
                events.push(e);
            },
            None => {
                let x = text_of(line, &c, a, b);
                proof {
                    assert(ws[i - 2] == t[i as int]);
                }
                stop = Some(x);
                break;
            },
        }
        i = i + 1;
    }
    proof {
        let m = (i - 2) as int;
        assert forall|j: int| 0 <= j < m implies (#[trigger] event_text(ws[j])) is Some by {
            assert(event_text(ws[j]) == Some(line_event_text(events@[j])));
        }
        lemma_events_text_prefix(ws, m);
        let evs = events@.map_values(|e: LineEvent| line_event_text(e));
        if stop is Some {
            assert(ws.skip(m)[0] == ws[m]);
            assert(event_text(ws[m]) is None);
            assert(events_text(ws.skip(m)).0 =~= Seq::<EventText>::empty());
        } else {
            assert(ws.skip(m).len() == 0);
        }
        assert(evs =~= events_text(ws).0);
    }
    Ok(Some(ScheduleLine { weekdays: days, time, events, stop }))
}


/// The heating set points of a schedule point: zone names in strictly
/// ascending order, each with its temperature.
pub open spec fn heat_sorted(h: Seq<(String, u64)>) -> bool {
    forall|i: int, j: int| 0 <= i < j < h.len() ==> seq_lt(#[trigger] h[i].0@, #[trigger] h[j].0@)
}

/// Some set point is for zone `z`.
pub open spec fn heat_has(h: Seq<(String, u64)>, z: Seq<char>) -> bool {
    exists|k: int| 0 <= k < h.len() && #[trigger] h[k].0@ == z
}

/// The position of the set point of zone `z`.
pub open spec fn heat_pos(h: Seq<(String, u64)>, z: Seq<char>) -> int {
    choose|k: int| 0 <= k < h.len() && #[trigger] h[k].0@ == z
}

/// The set points as a map from zone to temperature.
pub open spec fn heat_map(h: Seq<(String, u64)>) -> Map<Seq<char>, u64> {
    Map::new(|z: Seq<char>| heat_has(h, z), |z: Seq<char>| h[heat_pos(h, z)].1)
}

proof fn lemma_heat_pos(h: Seq<(String, u64)>, k: int)
    requires
        heat_sorted(h),
        0 <= k < h.len(),
    ensures
        heat_has(h, h[k].0@),
        heat_pos(h, h[k].0@) == k,
{
    let z = h[k].0@;
    assert(heat_has(h, z));
    let p = heat_pos(h, z);
    assert(h[p].0@ == z);
    lemma_seq_lt_total(z, z);
    if p < k {
        assert(seq_lt(h[p].0@, h[k].0@));
    } else if p > k {
        assert(seq_lt(h[k].0@, h[p].0@));
    }
}

/// What the schedule asks for at some moment.
#[derive(Debug)]
pub struct SchedulePoint {
    pub water: bool,
    pub heat: Vec<(String, u64)>,
}

impl SchedulePoint {
    /// No hot water and no heating.
    pub fn new() -> (r: SchedulePoint)
        ensures
            !r.water,
            r.heat@.len() == 0,
    {
        SchedulePoint { water: false, heat: Vec::new() }
    }

    /// Zone `z` is no longer heated.
    pub fn heat_remove(&mut self, z: &String)
        requires
            heat_sorted(old(self).heat@),
        ensures
            heat_sorted(final(self).heat@),
            heat_map(final(self).heat@) == heat_map(old(self).heat@).remove(z@),
            final(self).water == old(self).water,
    {
        let ghost h = self.heat@;
        let mut k: usize = 0;
        while k < self.heat.len()
            invariant
                k <= h.len(),
                self.heat@ == h,
                h == old(self).heat@,
                heat_sorted(h),
                self.water == old(self).water,
                forall|a: int| 0 <= a < k ==> (#[trigger] h[a]).0@ != z@,
            decreases h.len() - k,
        {
            if self.heat[k].0 == *z {
                proof {
                    lemma_heat_pos(h, k as int);
                }
                self.heat.remove(k);
                proof {
                    let n = self.heat@;
                    assert(forall|j: int| 0 <= j < k ==> n[j] == h[j]);
                    assert(forall|j: int| k <= j < n.len() ==> n[j] == h[j + 1]);
                    assert forall|i: int, j: int| 0 <= i < j < n.len() implies seq_lt(#[trigger] n[i].0@, #[trigger] n[j].0@) by {
                        let i2 = if i < k { i } else { i + 1 };
                        let j2 = if j < k { j } else { j + 1 };
                        assert(n[i] == h[i2]);
                        assert(n[j] == h[j2]);
                    }
                    assert forall|y: Seq<char>| heat_has(n, y) <==> (heat_has(h, y) && y != z@) by {
                        if heat_has(n, y) {
                            let j = choose|j: int| 0 <= j < n.len() && #[trigger] n[j].0@ == y;
                            let j2 = if j < k { j } else { j + 1 };
                            assert(h[j2].0@ == y);
                            lemma_heat_pos(h, j2);
                        }
                        if heat_has(h, y) && y != z@ {
                            let j = choose|j: int| 0 <= j < h.len() && #[trigger] h[j].0@ == y;
                            if j < k {
                                assert(n[j].0@ == y);
                            } else {
                                assert(j != k);
                                assert(n[j - 1].0@ == y);
                            }
                        }
                    }
                    assert forall|y: Seq<char>| heat_has(n, y) implies n[heat_pos(n, y)] == h[heat_pos(h, y)] by {
                        let p = heat_pos(n, y);
                        assert(n[p].0@ == y);
                        lemma_heat_pos(n, p);
                        let p2 = if p < k { p } else { p + 1 };
                        assert(n[p] == h[p2]);
                        lemma_heat_pos(h, p2);
                    }
                    assert(heat_map(n) =~= heat_map(h).remove(z@));
                }
                return;
            }
            k = k + 1;
        }
        proof {
            assert(!heat_has(h, z@));
            assert(heat_map(h) =~= heat_map(h).remove(z@));
        }
    }

    /// Zone `z` is now heated to `t`.
    pub fn heat_insert(&mut self, z: &String, t: u64)
        requires
            heat_sorted(old(self).heat@),
        ensures
            heat_sorted(final(self).heat@),
            heat_map(final(self).heat@) == heat_map(old(self).heat@).insert(z@, t),
            final(self).water == old(self).water,
    {
        let ghost h = self.heat@;
        let mut k: usize = 0;
        while k < self.heat.len() && str_lt(self.heat[k].0.as_str(), z.as_str())
            invariant
                k <= h.len(),
                self.heat@ == h,
                h == old(self).heat@,
                heat_sorted(h),
                self.water == old(self).water,
                forall|a: int| 0 <= a < k ==> seq_lt((#[trigger] h[a]).0@, z@),
            decreases h.len() - k,
        {
            k = k + 1;
        }
        if k < self.heat.len() && self.heat[k].0 == *z {
            proof {
                lemma_heat_pos(h, k as int);
            }
            let name = self.heat[k].0.clone();
            self.heat.set(k, (name, t));
            proof {
                let n = self.heat@;
                assert(forall|j: int| 0 <= j < n.len() ==> (#[trigger] n[j]).0@ == h[j].0@);
                assert forall|i: int, j: int| 0 <= i < j < n.len() implies seq_lt(#[trigger] n[i].0@, #[trigger] n[j].0@) by {
                    assert(n[i].0@ == h[i].0@);
                    assert(n[j].0@ == h[j].0@);
                }
                assert forall|y: Seq<char>| heat_has(n, y) <==> heat_has(h, y) by {
                    if heat_has(n, y) {
                        let j = choose|j: int| 0 <= j < n.len() && #[trigger] n[j].0@ == y;
                        assert(h[j].0@ == y);
                    }
                    if heat_has(h, y) {
                        let j = choose|j: int| 0 <= j < h.len() && #[trigger] h[j].0@ == y;
                        assert(n[j].0@ == y);
                    }
                }
                assert forall|y: Seq<char>| heat_has(n, y) implies heat_pos(n, y) == heat_pos(h, y) by {
                    let p = heat_pos(n, y);
                    assert(n[p].0@ == y);
                    lemma_heat_pos(n, p);
                    assert(h[p].0@ == y);
                    lemma_heat_pos(h, p);
                }
                assert(heat_map(n) =~= heat_map(h).insert(z@, t));
            }
        } else {
            proof {
                if k < h.len() {
                    lemma_seq_lt_total(h[k as int].0@, z@);
                }
            }
            self.heat.insert(k, (z.clone(), t));
            proof {
                let n = self.heat@;
                assert(n[k as int].0@ == z@);
                assert(forall|j: int| 0 <= j < k ==> n[j] == h[j]);
                assert(forall|j: int| k < j < n.len() ==> n[j] == h[j - 1]);
                assert forall|i: int, j: int| 0 <= i < j < n.len() implies seq_lt(#[trigger] n[i].0@, #[trigger] n[j].0@) by {
                    if j < k {
                    } else if j == k {
                        assert(n[i] == h[i]);
                    } else if i == k {
                        assert(n[j] == h[j - 1]);
                        if j - 1 > k {
                            assert(seq_lt(h[k as int].0@, h[j - 1].0@));
                            lemma_seq_lt_transitive(z@, h[k as int].0@, h[j - 1].0@);
                        }
                    } else if i < k {
                        assert(n[i] == h[i]);
                        assert(n[j] == h[j - 1]);
                        assert(seq_lt(h[i].0@, z@));
                        if k < h.len() {
                            lemma_seq_lt_transitive(h[i].0@, z@, h[k as int].0@);
                            if j - 1 > k {
                                lemma_seq_lt_transitive(h[i].0@, h[k as int].0@, h[j - 1].0@);
                            }
                        }
                    } else {
                        assert(n[i] == h[i - 1]);
                        assert(n[j] == h[j - 1]);
                    }
                }
                assert(!heat_has(h, z@)) by {
                    if heat_has(h, z@) {
                        let j = choose|j: int| 0 <= j < h.len() && #[trigger] h[j].0@ == z@;
                        lemma_seq_lt_total(z@, z@);
                        if j < k {
                        } else if j > k {
                            assert(seq_lt(h[k as int].0@, h[j].0@));
                        }
                    }
                }
                assert forall|y: Seq<char>| heat_has(n, y) <==> (heat_has(h, y) || y == z@) by {
                    if heat_has(n, y) {
                        let j = choose|j: int| 0 <= j < n.len() && #[trigger] n[j].0@ == y;
                        if j < k {
                            assert(h[j].0@ == y);
                        } else if j > k {
                            assert(h[j - 1].0@ == y);
                        }
                    }
                    if heat_has(h, y) {
                        let j = choose|j: int| 0 <= j < h.len() && #[trigger] h[j].0@ == y;
                        if j < k {
                            assert(n[j].0@ == y);
                        } else {
                            assert(n[j + 1].0@ == y);
                        }
                    }
                }
                assert forall|y: Seq<char>| heat_has(n, y) && y != z@ implies n[heat_pos(n, y)] == h[heat_pos(h, y)] by {
                    let p = heat_pos(n, y);
                    assert(n[p].0@ == y);
                    lemma_heat_pos(n, p);
                    let p2 = if p < k { p } else { p - 1 };
                    assert(p != k);
                    assert(n[p] == h[p2]);
                    lemma_heat_pos(h, p2);
                }
                lemma_heat_pos(n, k as int);
                assert(heat_map(n) =~= heat_map(h).insert(z@, t));
            }
        }
    }
}

/// The schedule message `hs` says what `p` asks for: the same hot water,
/// and one set point per heated zone, with its temperature, zones in
/// ascending name order.
pub open spec fn shows(hs: crate::pb::HeatSchedule, p: PointView) -> bool {
    &&& hs.hot_water == Some(p.water)
    &&& forall|k: int| 0 <= k < hs.heating@.len() ==> {
        &&& (#[trigger] hs.heating@[k]).zone is Some
        &&& hs.heating@[k].unique is None
        &&& p.heat.contains_key(hs.heating@[k].zone.unwrap()@)
        &&& hs.heating@[k].setpoint == Some(p.heat[hs.heating@[k].zone.unwrap()@])
    }
    &&& forall|z: Seq<char>| #[trigger] p.heat.contains_key(z) ==> exists|k: int|
        0 <= k < hs.heating@.len() && (#[trigger] hs.heating@[k]).zone.unwrap()@ == z
    &&& forall|i: int, j: int| 0 <= i < j < hs.heating@.len()
        ==> seq_lt((#[trigger] hs.heating@[i]).zone.unwrap()@, (#[trigger] hs.heating@[j]).zone.unwrap()@)
}

impl crate::pb::HeatSchedule {
    /// What the schedule point asks for, as a schedule message: heating
    /// zones in ascending name order (the point keeps its set points in
    /// that order, one per zone).
    pub fn from_point(h: &SchedulePoint) -> (r: crate::pb::HeatSchedule)
        requires
            heat_sorted(h.heat@),
        ensures
            shows(r, point_view(*h)),
            r.hot_water == Some(h.water),
            r.heating@.len() == h.heat@.len(),
            forall|k: int| 0 <= k < r.heating@.len() ==> #[trigger] r.heating@[k] == (crate::pb::SetPoint {
                zone: Some(h.heat@[k].0),
                setpoint: Some(h.heat@[k].1),
                unique: None,
            }),
    {
        let mut heating: Vec<crate::pb::SetPoint> = Vec::new();
        let mut k: usize = 0;
        while k < h.heat.len()
            invariant
                k <= h.heat@.len(),
                heating@.len() == k,
                forall|j: int| 0 <= j < k ==> #[trigger] heating@[j] == (crate::pb::SetPoint {
                    zone: Some(h.heat@[j].0),
                    setpoint: Some(h.heat@[j].1),
                    unique: None,
                }),
            decreases h.heat@.len() - k,
        {
            heating.push(crate::pb::SetPoint { zone: Some(h.heat[k].0.clone()), setpoint: Some(h.heat[k].1), unique: None });
            k = k + 1;
        }
        proof {
            if heat_sorted(h.heat@) {
                assert forall|i: int, j: int| 0 <= i < j < heating@.len()
                    implies seq_lt((#[trigger] heating@[i]).zone.unwrap()@, (#[trigger] heating@[j]).zone.unwrap()@) by {
                    assert(heating@[i].zone.unwrap() == h.heat@[i].0);
                    assert(heating@[j].zone.unwrap() == h.heat@[j].0);
                }
                let m = heat_map(h.heat@);
                assert forall|k: int| 0 <= k < heating@.len() implies {
                    &&& (#[trigger] heating@[k]).zone is Some
                    &&& heating@[k].unique is None
                    &&& m.contains_key(heating@[k].zone.unwrap()@)
                    &&& heating@[k].setpoint == Some(m[heating@[k].zone.unwrap()@])
                } by {
                    lemma_heat_pos(h.heat@, k);
                }
                assert forall|z: Seq<char>| #[trigger] m.contains_key(z) implies exists|k: int|
                    0 <= k < heating@.len() && (#[trigger] heating@[k]).zone.unwrap()@ == z by {
                    let k = heat_pos(h.heat@, z);
                    assert(heating@[k].zone.unwrap()@ == z);
                }
            }
        }
        crate::pb::HeatSchedule { hot_water: Some(h.water), heating }
    }
}


/// What a scheduled event does.
#[derive(Debug)]
pub enum ProgrammedEventDesc {
    /// Hot water on or off.
    Water(bool),
    /// A zone heated to a temperature, or no longer heated.
    HeatZone(String, Option<u64>),
}

impl Clone for ProgrammedEventDesc {
    fn clone(&self) -> (r: Self)
        ensures
            r == *self,
    {
        match self {
            ProgrammedEventDesc::Water(b) => ProgrammedEventDesc::Water(*b),
            ProgrammedEventDesc::HeatZone(z, t) => ProgrammedEventDesc::HeatZone(z.clone(), *t),
        }
    }
}

/// A scheduled event: its time of day and what it does.
#[derive(Debug)]
pub struct ProgrammedEvent(pub TimeOfDay, pub ProgrammedEventDesc);

impl Clone for ProgrammedEvent {
    fn clone(&self) -> (r: Self)
        ensures
            r == *self,
    {
        ProgrammedEvent(self.0, self.1.clone())
    }
}

/// What the schedule asks for, as a model.
pub struct PointView {
    pub water: bool,
    pub heat: Map<Seq<char>, u64>,
}

/// The model of a schedule point.
pub open spec fn point_view(p: SchedulePoint) -> PointView {
    PointView { water: p.water, heat: heat_map(p.heat@) }
}

/// What the schedule asks for after event `d`.
pub open spec fn apply_desc(p: PointView, d: ProgrammedEventDesc) -> PointView {
    match d {
        ProgrammedEventDesc::Water(b) => PointView { water: b, heat: p.heat },
        ProgrammedEventDesc::HeatZone(z, None) => PointView { water: p.water, heat: p.heat.remove(z@) },
        ProgrammedEventDesc::HeatZone(z, Some(t)) => PointView { water: p.water, heat: p.heat.insert(z@, t) },
    }
}

/// The weekly schedule and where in it we are.
#[derive(Debug)]
pub struct ScheduleTracker {
    /// The events of each weekday (Monday first), in time order once sorted.
    pub daily: Vec<Vec<ProgrammedEvent>>,
    /// What the schedule asks for now.
    pub now: SchedulePoint,
    /// The weekday of the next event.
    pub now_weekday: usize,
    /// The position of the next event in its weekday.
    pub now_time: usize,
}

/// The model of a tracker.
pub struct TrackerView {
    pub daily: Seq<Seq<ProgrammedEvent>>,
    pub point: PointView,
    pub wd: int,
    pub t: int,
}

/// The model of tracker `t`.
pub open spec fn tracker_view(t: ScheduleTracker) -> TrackerView {
    TrackerView {
        daily: t.daily@.map_values(|v: Vec<ProgrammedEvent>| v@),
        point: point_view(t.now),
        wd: t.now_weekday as int,
        t: t.now_time as int,
    }
}

/// A tracker model is well formed: seven days, a weekday, and a position
/// within it (or at the start of an empty day).
pub open spec fn view_wf(v: TrackerView) -> bool {
    &&& v.daily.len() == 7
    &&& 0 <= v.wd < 7
    &&& 0 <= v.t
    &&& (v.t == 0 || v.t < v.daily[v.wd].len())
}

/// One step through the schedule: the next event of the day, if any, is
/// carried out, then the position moves on (to the next weekday after the
/// last event, or straight away on an empty day).
pub open spec fn spec_step(v: TrackerView) -> TrackerView {
    let day = v.daily[v.wd];
    let point = if v.t < day.len() { apply_desc(v.point, day[v.t].1) } else { v.point };
    if v.t + 1 >= day.len() {
        TrackerView { daily: v.daily, point, wd: (v.wd + 1) % 7, t: 0 }
    } else {
        TrackerView { daily: v.daily, point, wd: v.wd, t: v.t + 1 }
    }
}

/// Steps a day takes: its number of events, and one for an empty day.
pub open spec fn day_steps(daily: Seq<Seq<ProgrammedEvent>>, d: int) -> int {
    if daily[d].len() == 0 { 1 } else { daily[d].len() as int }
}

/// Whole days from weekday `wd` forward to weekday `target`.
pub open spec fn days_to(wd: int, target: int) -> int {
    (target - wd + 7) % 7
}

/// Steps taken by `k` whole days from weekday `wd` on.
pub open spec fn dist_days(daily: Seq<Seq<ProgrammedEvent>>, wd: int, k: nat) -> int
    decreases k,
{
    if k == 0 {
        0
    } else {
        day_steps(daily, wd) + dist_days(daily, (wd + 1) % 7, (k - 1) as nat)
    }
}

/// Steps left until the start of weekday `target`.
pub open spec fn steps_to(v: TrackerView, target: int) -> int {
    dist_days(v.daily, v.wd, days_to(v.wd, target) as nat) - v.t
}

/// The model after stepping (at most `fuel` times) until weekday `target`.
pub open spec fn spec_run(v: TrackerView, target: int, fuel: nat) -> TrackerView
    decreases fuel,
{
    if fuel == 0 || v.wd == target {
        v
    } else {
        spec_run(spec_step(v), target, (fuel - 1) as nat)
    }
}

pub(crate) proof fn lemma_dist_days_nonneg(daily: Seq<Seq<ProgrammedEvent>>, wd: int, k: nat)
    ensures
        dist_days(daily, wd, k) >= 0,
    decreases k,
{
    if k > 0 {
        lemma_dist_days_nonneg(daily, (wd + 1) % 7, (k - 1) as nat);
    }
}

pub(crate) proof fn lemma_step_progress(v: TrackerView, target: int)
    requires
        view_wf(v),
        0 <= target < 7,
        v.wd != target,
    ensures
        view_wf(spec_step(v)),
        steps_to(v, target) >= 1,
        steps_to(spec_step(v), target) == steps_to(v, target) - 1,
        spec_step(v).daily == v.daily,
        spec_step(v).wd == target ==> spec_step(v).t == 0,
{
    let k = days_to(v.wd, target);
    assert(k >= 1);
    let w2 = (v.wd + 1) % 7;
    lemma_dist_days_nonneg(v.daily, w2, (k - 1) as nat);
    assert(dist_days(v.daily, v.wd, k as nat) == day_steps(v.daily, v.wd) + dist_days(v.daily, w2, (k - 1) as nat));
    let n = spec_step(v);
    if v.t + 1 >= v.daily[v.wd].len() {
        assert(days_to(w2, target) == k - 1);
    }
}

impl ScheduleTracker {
    /// Seven empty weekdays, positioned at the start of Monday.
    pub fn new() -> (r: ScheduleTracker)
        ensures
            r.wf(),
            r.now_weekday == 0,
            r.now_time == 0,
            !r.now.water,
            r.now.heat@.len() == 0,
            forall|d: int| 0 <= d < 7 ==> (#[trigger] r.daily@[d])@.len() == 0,
    {
        let mut daily: Vec<Vec<ProgrammedEvent>> = Vec::new();
        let mut i: usize = 0;
        while i < 7
            invariant
                i <= 7,
                daily@.len() == i,
                forall|d: int| 0 <= d < i ==> (#[trigger] daily@[d])@.len() == 0,
            decreases 7 - i,
        {
            daily.push(Vec::new());
            i = i + 1;
        }
        ScheduleTracker { daily, now: SchedulePoint::new(), now_weekday: 0, now_time: 0 }
    }

    /// Seven weekdays, a valid position, and set points in zone order.
    pub open spec fn wf(&self) -> bool {
        &&& view_wf(tracker_view(*self))
        &&& heat_sorted(self.now.heat@)
    }

    /// Carries out the next event of the current weekday, if any, and moves
    /// on; returns whether an event was carried out.
    pub fn execute_next_today(&mut self) -> (executed: bool)
        requires
            old(self).wf(),
        ensures
            final(self).wf(),
            tracker_view(*final(self)) == spec_step(tracker_view(*old(self))),
            executed == (old(self).now_time < old(self).daily@[old(self).now_weekday as int]@.len()),
            final(self).daily == old(self).daily,
    {
        let ghost v = tracker_view(*self);
        let wd = self.now_weekday;
        let t = self.now_time;
        let len = self.daily[wd].len();
        let executed = len > t;
        if executed {
            match &self.daily[wd][t].1 {
                ProgrammedEventDesc::Water(water) => {
                    self.now.water = *water;
                },
                ProgrammedEventDesc::HeatZone(z, None) => {
                    let z2 = z.clone();
                    self.now.heat_remove(&z2);
                },
                ProgrammedEventDesc::HeatZone(z, Some(temp)) => {
                    let z2 = z.clone();
                    self.now.heat_insert(&z2, *temp);
                },
            }
            proof {
                assert(point_view(self.now) =~= apply_desc(v.point, v.daily[wd as int][t as int].1));
            }
        }
        self.now_time = t + 1;
        if self.now_time >= len {
            self.now_weekday = (wd + 1) % 7;
            self.now_time = 0;
        }
        proof {
            assert(tracker_view(*self).daily =~= v.daily);
            assert(tracker_view(*self) == spec_step(v));
        }
        executed
    }

    /// Steps through the schedule until the start of weekday `weekday`
    /// (nothing when already on it).
    pub fn run_forward(&mut self, weekday: usize)
        requires
            old(self).wf(),
            weekday < 7,
        ensures
            final(self).wf(),
            final(self).now_weekday == weekday,
            old(self).now_weekday != weekday ==> final(self).now_time == 0,
            tracker_view(*final(self)) == spec_run(tracker_view(*old(self)), weekday as int,
                steps_to(tracker_view(*old(self)), weekday as int) as nat),
            final(self).daily == old(self).daily,
    {
        let ghost v0 = tracker_view(*self);
        let ghost m0 = steps_to(v0, weekday as int) as nat;
        proof {
            if v0.wd != weekday {
                lemma_step_progress(v0, weekday as int);
            }
        }
        while self.now_weekday != weekday
            invariant
                self.wf(),
                weekday < 7,
                self.daily == old(self).daily,
                self.now_weekday != weekday ==> steps_to(tracker_view(*self), weekday as int) >= 1,
                spec_run(tracker_view(*self), weekday as int, steps_to(tracker_view(*self), weekday as int) as nat)
                    == spec_run(v0, weekday as int, m0),
                old(self).now_weekday != weekday && self.now_weekday == weekday ==> self.now_time == 0,
            decreases steps_to(tracker_view(*self), weekday as int),
        {
            let ghost before = tracker_view(*self);
            proof {
                lemma_step_progress(before, weekday as int);
            }
            self.execute_next_today();
            proof {
                if self.now_weekday != weekday {
                    lemma_step_progress(tracker_view(*self), weekday as int);
                }
                let m = steps_to(before, weekday as int);
                assert(spec_run(before, weekday as int, m as nat) == spec_run(spec_step(before), weekday as int, (m - 1) as nat));
            }
        }
    }
}

/// The next scheduled event to wait for.
#[derive(Clone, Copy, Debug, PartialEq, Eq, Structural)]
pub enum Candidate {
    /// An event later today, at this time.
    Today(TimeOfDay),
    /// The first event of tomorrow, at this time.
    Tomorrow(TimeOfDay),
    /// No event to wait for: look again in a day.
    TryLater,
}

impl ScheduleTracker {
    /// The event to wait for, today being weekday `now_wd`: the next event
    /// of today if the position is in today, else the first event of
    /// tomorrow if the day after the position has any.
    pub fn next_candidate(&self, now_wd: usize) -> (r: Candidate)
        requires
            self.wf(),
            now_wd < 7,
            !(self.now_weekday == now_wd && self.now_time < self.daily@[now_wd as int]@.len())
                && self.daily@[((self.now_weekday + 1) % 7) as int]@.len() > 0
                ==> self.daily@[((now_wd + 1) % 7) as int]@.len() > 0,
        ensures
            ({
                let d = self.daily@;
                if self.now_weekday == now_wd && self.now_time < d[now_wd as int]@.len() {
                    r == Candidate::Today(d[now_wd as int]@[self.now_time as int].0)
                } else if d[((self.now_weekday + 1) % 7) as int]@.len() > 0 {
                    r == Candidate::Tomorrow(d[((now_wd + 1) % 7) as int]@[0].0)
                } else {
                    r == Candidate::TryLater
                }
            }),
    {
        if self.now_weekday == now_wd && self.now_time < self.daily[now_wd].len() {
            Candidate::Today(self.daily[now_wd][self.now_time].0)
        } else if self.daily[(self.now_weekday + 1) % 7].len() > 0 {
            Candidate::Tomorrow(self.daily[(now_wd + 1) % 7][0].0)
        } else {
            Candidate::TryLater
        }
    }
}


/// The event of the schedule that a read event becomes, given the
/// temperature read from its text (`None` when a temperature does not read).
pub open spec fn resolved(e: LineEvent, t: Option<u64>) -> Option<ProgrammedEventDesc> {
    match e {
        LineEvent::Water(b) => Some(ProgrammedEventDesc::Water(b)),
        LineEvent::HeatOff(z) => Some(ProgrammedEventDesc::HeatZone(z, None)),
        LineEvent::HeatTo(z, _) => match t {
            Some(x) => Some(ProgrammedEventDesc::HeatZone(z, Some(x))),
            None => None,
        },
    }
}

/// How often weekday `d` occurs in `ws`.
pub open spec fn count(ws: Seq<u8>, d: int) -> nat
    decreases ws.len(),
{
    if ws.len() == 0 {
        0
    } else {
        count(ws.drop_last(), d) + (if ws.last() == d { 1nat } else { 0nat })
    }
}

/// `n` copies of `e`.
pub open spec fn copies(e: ProgrammedEvent, n: nat) -> Seq<ProgrammedEvent> {
    Seq::new(n, |i: int| e)
}

/// The events added to weekday `d` by a line with events `descs` at `time`
/// for weekdays `ws`: for each event in turn, one copy per mention of `d`.
pub open spec fn day_additions(descs: Seq<ProgrammedEventDesc>, time: TimeOfDay, ws: Seq<u8>, d: int) -> Seq<ProgrammedEvent>
    decreases descs.len(),
{
    if descs.len() == 0 {
        Seq::empty()
    } else {
        day_additions(descs.drop_last(), time, ws, d) + copies(ProgrammedEvent(time, descs.last()), count(ws, d))
    }
}

impl ScheduleTracker {
    /// Adds the events of a read schedule line; `temps[j]` is the
    /// temperature read from event `j`'s text (used for `HeatTo` events).
    /// Fails, changing nothing, on the first temperature that does not
    /// read, or else on a word that names no event.
    pub fn add_line(&mut self, line: &ScheduleLine, temps: &Vec<Option<u64>>) -> (r: Result<(), ScheduleReadError>)
        requires
            old(self).wf(),
            temps@.len() == line.events@.len(),
            forall|k: int| 0 <= k < line.weekdays@.len() ==> #[trigger] line.weekdays@[k] < 7,
        ensures
            final(self).wf(),
            (exists|j: int| 0 <= j < line.events@.len() && #[trigger] resolved(line.events@[j], temps@[j]) is None) ==> {
                &&& r matches Err(ScheduleReadError::BadTemperature)
                &&& *final(self) == *old(self)
            },
            (forall|j: int| 0 <= j < line.events@.len() ==> #[trigger] resolved(line.events@[j], temps@[j]) is Some) ==> {
                let descs = Seq::new(line.events@.len(), |j: int| resolved(line.events@[j], temps@[j]).unwrap());
                match line.stop {
                    Some(x) => (r matches Err(ScheduleReadError::UnknownEvent(y)) && y@ == x@) && *final(self) == *old(self),
                    None => {
                        &&& r is Ok
                        &&& final(self).now == old(self).now
                        &&& final(self).now_weekday == old(self).now_weekday
                        &&& final(self).now_time == old(self).now_time
                        &&& final(self).daily@.len() == 7
                        &&& forall|d: int| 0 <= d < 7 ==> (#[trigger] final(self).daily@[d])@
                            == old(self).daily@[d]@ + day_additions(descs, line.time, line.weekdays@, d)
                    },
                }
            },
    {
        let ghost ev = line.events@;
        let mut descs: Vec<ProgrammedEventDesc> = Vec::new();
        let mut j: usize = 0;
        while j < line.events.len()
            invariant
                j <= ev.len(),
                line.events@ == ev,
                temps@.len() == ev.len(),
                *self == *old(self),
                self.wf(),
                descs@.len() == j,
                forall|k: int| 0 <= k < j ==> resolved(ev[k], temps@[k]) == Some(#[trigger] descs@[k]),
            decreases ev.len() - j,
        {
            match &line.events[j] {
                LineEvent::Water(b) => {
                    descs.push(ProgrammedEventDesc::Water(*b));
                },
                LineEvent::HeatOff(z) => {
                    descs.push(ProgrammedEventDesc::HeatZone(z.clone(), None));
                },
                LineEvent::HeatTo(z, _) => {
                    match temps[j] {
                        None => {
                            proof {
                                assert(resolved(ev[j as int], temps@[j as int]) is None);
                            }
                            return Err(ScheduleReadError::BadTemperature);
                        },
                        Some(t) => {
                            descs.push(ProgrammedEventDesc::HeatZone(z.clone(), Some(t)));
                        },
                    }
                },
            }
            j = j + 1;
        }
        let ghost all = descs@;
        proof {
            assert(all =~= Seq::new(ev.len(), |k: int| resolved(ev[k], temps@[k]).unwrap()));
            assert forall|k: int| 0 <= k < ev.len() implies #[trigger] resolved(ev[k], temps@[k]) is Some by {
                assert(resolved(ev[k], temps@[k]) == Some(descs@[k]));
            }
        }
        if let Some(x) = &line.stop {
            return Err(ScheduleReadError::UnknownEvent(x.clone()));
        }
        let ghost old_daily = self.daily@;
        let ghost ws = line.weekdays@;
        let mut j: usize = 0;
        while j < descs.len()
            invariant
                j <= all.len(),
                descs@ == all,
                ws == line.weekdays@,
                forall|k: int| 0 <= k < ws.len() ==> #[trigger] ws[k] < 7,
                self.wf(),
                self.now == old(self).now,
                self.now_weekday == old(self).now_weekday,
                self.now_time == old(self).now_time,
                self.daily@.len() == 7,
                old_daily == old(self).daily@,
                forall|d: int| 0 <= d < 7 ==> (#[trigger] self.daily@[d])@
                    == old_daily[d]@ + day_additions(all.take(j as int), line.time, ws, d),
            decreases all.len() - j,
        {
            let ghost at_j = self.daily@;
            let ghost ev_j = ProgrammedEvent(line.time, all[j as int]);
            let mut i: usize = 0;
            while i < line.weekdays.len()
                invariant
                    i <= ws.len(),
                    j < all.len(),
                    descs@ == all,
                    ws == line.weekdays@,
                    forall|k: int| 0 <= k < ws.len() ==> #[trigger] ws[k] < 7,
                    ev_j == ProgrammedEvent(line.time, all[j as int]),
                    self.now == old(self).now,
                    self.now_weekday == old(self).now_weekday,
                    self.now_time == old(self).now_time,
                    self.daily@.len() == 7,
                    forall|d: int| 0 <= d < 7 ==> (#[trigger] self.daily@[d])@
                        == at_j[d]@ + copies(ev_j, count(ws.take(i as int), d)),
                    forall|d: int| 0 <= d < 7 ==> (#[trigger] self.daily@[d])@.len() >= at_j[d]@.len(),
                decreases ws.len() - i,
            {
                let w = line.weekdays[i] as usize;
                let ghost before = self.daily@;
                let mut day = self.daily.remove(w);
                day.push(ProgrammedEvent(line.time, descs[j].clone()));
                self.daily.insert(w, day);
                proof {
                    assert(ws.take(i + 1).drop_last() =~= ws.take(i as int));
                    assert forall|d: int| 0 <= d < 7 implies (#[trigger] self.daily@[d])@
                        == at_j[d]@ + copies(ev_j, count(ws.take(i + 1), d)) by {
                        if d == w {
                            assert(copies(ev_j, count(ws.take(i + 1), d)) =~= copies(ev_j, count(ws.take(i as int), d)).push(ev_j));
                        } else {
                            assert(self.daily@[d] == before[d]);
                            assert(copies(ev_j, count(ws.take(i + 1), d)) =~= copies(ev_j, count(ws.take(i as int), d)));
                        }
                    }
                }
                i = i + 1;
            }
            proof {
                assert(ws.take(ws.len() as int) =~= ws);
                assert(all.take(j + 1).drop_last() =~= all.take(j as int));
                assert forall|d: int| 0 <= d < 7 implies (#[trigger] self.daily@[d])@
                    == old_daily[d]@ + day_additions(all.take(j + 1), line.time, ws, d) by {
                    assert(all.take(j + 1).last() == all[j as int]);
                }
                let v = tracker_view(*self);
                assert(v.daily[v.wd].len() >= old_daily[v.wd]@.len());
            }
            j = j + 1;
        }
        proof {
            assert(all.take(all.len() as int) =~= all);
        }
        Ok(())
    }
}


/// `s` with `e` inserted after every event that is not later than it
/// (in a time-ordered `s`: after the events at the same time).
pub open spec fn insert_by_time(s: Seq<ProgrammedEvent>, e: ProgrammedEvent) -> Seq<ProgrammedEvent>
    decreases s.len(),
{
    if s.len() == 0 || !time_lt(e.0, s.last().0) {
        s.push(e)
    } else {
        insert_by_time(s.drop_last(), e).push(s.last())
    }
}

/// The events of `s` in time order, events at the same time in their
/// order in `s` (a stable sort by time, as `sort_by_key` does).
pub open spec fn sort_by_time(s: Seq<ProgrammedEvent>) -> Seq<ProgrammedEvent>
    decreases s.len(),
{
    if s.len() == 0 {
        s
    } else {
        insert_by_time(sort_by_time(s.drop_last()), s.last())
    }
}

/// The events are in time order.
pub open spec fn time_sorted(s: Seq<ProgrammedEvent>) -> bool {
    forall|i: int, j: int| 0 <= i < j < s.len() ==> !time_lt((#[trigger] s[j]).0, (#[trigger] s[i]).0)
}

fn insert_event(v: &mut Vec<ProgrammedEvent>, e: ProgrammedEvent)
    ensures
        final(v)@ == insert_by_time(old(v)@, e),
    decreases old(v)@.len(),
{
    let n = v.len();
    if n == 0 || !time_before(e.0, v[n - 1].0) {
        v.push(e);
    } else {
        let ghost s = v@;
        let last = v.pop().unwrap();
        proof {
            assert(v@ =~= s.drop_last());
        }
        insert_event(v, e);
        v.push(last);
    }
}

/// Sorts events by time, keeping the order of events at the same time.
pub fn sort_events(v: &Vec<ProgrammedEvent>) -> (r: Vec<ProgrammedEvent>)
    ensures
        r@ == sort_by_time(v@),
{
    let mut out: Vec<ProgrammedEvent> = Vec::new();
    let mut i: usize = 0;
    while i < v.len()
        invariant
            i <= v@.len(),
            out@ == sort_by_time(v@.take(i as int)),
        decreases v@.len() - i,
    {
        proof {
            assert(v@.take(i + 1).drop_last() =~= v@.take(i as int));
        }
        insert_event(&mut out, v[i].clone());
        i = i + 1;
    }
    proof {
        assert(v@.take(v@.len() as int) =~= v@);
    }
    out
}

proof fn lemma_insert_sorted(s: Seq<ProgrammedEvent>, e: ProgrammedEvent)
    requires
        time_sorted(s),
    ensures
        time_sorted(insert_by_time(s, e)),
        insert_by_time(s, e).to_multiset() == s.to_multiset().insert(e),
        insert_by_time(s, e).len() == s.len() + 1,
        forall|k: int| 0 <= k < insert_by_time(s, e).len() ==> (#[trigger] insert_by_time(s, e)[k] == e
            || s.contains(insert_by_time(s, e)[k])),
    decreases s.len(),
{
    broadcast use vstd::seq_lib::to_multiset_build;
    let r = insert_by_time(s, e);
    if s.len() == 0 || !time_lt(e.0, s.last().0) {
        assert forall|i: int, j: int| 0 <= i < j < r.len() implies !time_lt((#[trigger] r[j]).0, (#[trigger] r[i]).0) by {
            if j == s.len() {
                assert(r[i] == s[i]);
                if i < s.len() - 1 {
                    assert(!time_lt(s.last().0, s[i].0));
                }
            } else {
                assert(r[i] == s[i]);
                assert(r[j] == s[j]);
            }
        }
        assert forall|k: int| 0 <= k < r.len() implies (#[trigger] r[k] == e || s.contains(r[k])) by {
            if k < s.len() {
                assert(r[k] == s[k]);
            }
        }
    } else {
        let p = s.drop_last();
        assert(time_sorted(p)) by {
            assert forall|i: int, j: int| 0 <= i < j < p.len() implies !time_lt((#[trigger] p[j]).0, (#[trigger] p[i]).0) by {
                assert(p[i] == s[i]);
                assert(p[j] == s[j]);
            }
        }
        lemma_insert_sorted(p, e);
        let q = insert_by_time(p, e);
        assert(s =~= p.push(s.last()));
        assert forall|i: int, j: int| 0 <= i < j < r.len() implies !time_lt((#[trigger] r[j]).0, (#[trigger] r[i]).0) by {
            if j == r.len() - 1 {
                assert(r[j] == s.last());
                assert(r[i] == q[i]);
                if q[i] == e {
                } else {
                    assert(p.contains(q[i]));
                    let m = choose|m: int| 0 <= m < p.len() && p[m] == q[i];
                    assert(s[m] == p[m]);
                    assert(!time_lt(s[s.len() - 1].0, s[m].0));
                }
            } else {
                assert(r[i] == q[i]);
                assert(r[j] == q[j]);
            }
        }
        assert forall|k: int| 0 <= k < r.len() implies (#[trigger] r[k] == e || s.contains(r[k])) by {
            if k < r.len() - 1 {
                assert(r[k] == q[k]);
                if q[k] != e {
                    assert(p.contains(q[k]));
                    let m = choose|m: int| 0 <= m < p.len() && p[m] == q[k];
                    assert(s[m] == p[m]);
                }
            } else {
                assert(s[s.len() - 1] == r[k]);
            }
        }
        assert(r.to_multiset() =~= s.to_multiset().insert(e)) by {
            assert(r == q.push(s.last()));
        }
    }
}

/// Sorting by time yields the same events, in time order.
pub proof fn lemma_sort_by_time(s: Seq<ProgrammedEvent>)
    ensures
        time_sorted(sort_by_time(s)),
        sort_by_time(s).to_multiset() == s.to_multiset(),
    decreases s.len(),
{
    broadcast use vstd::seq_lib::to_multiset_build;
    if s.len() > 0 {
        lemma_sort_by_time(s.drop_last());
        lemma_insert_sorted(sort_by_time(s.drop_last()), s.last());
        assert(s =~= s.drop_last().push(s.last()));
    } else {
        assert(s.to_multiset() =~= sort_by_time(s).to_multiset());
    }
}

/// The events of `s` at time `t`, in their order in `s`.
pub open spec fn at_time(s: Seq<ProgrammedEvent>, t: TimeOfDay) -> Seq<ProgrammedEvent> {
    s.filter(|e: ProgrammedEvent| e.0 == t)
}

proof fn lemma_at_time_push(s: Seq<ProgrammedEvent>, e: ProgrammedEvent, t: TimeOfDay)
    ensures
        at_time(s.push(e), t) == (if e.0 == t { at_time(s, t).push(e) } else { at_time(s, t) }),
{
    reveal(Seq::filter);
    assert(s.push(e).drop_last() =~= s);
}

proof fn lemma_insert_at_time(s: Seq<ProgrammedEvent>, e: ProgrammedEvent, t: TimeOfDay)
    ensures
        at_time(insert_by_time(s, e), t) == (if e.0 == t { at_time(s, t).push(e) } else { at_time(s, t) }),
    decreases s.len(),
{
    if s.len() == 0 || !time_lt(e.0, s.last().0) {
        lemma_at_time_push(s, e, t);
    } else {
        lemma_insert_at_time(s.drop_last(), e, t);
        lemma_at_time_push(insert_by_time(s.drop_last(), e), s.last(), t);
        lemma_at_time_push(s.drop_last(), s.last(), t);
        assert(s.drop_last().push(s.last()) =~= s);
    }
}

/// Sorting by time is stable: the events at any one time keep their order.
pub proof fn lemma_sort_is_stable(s: Seq<ProgrammedEvent>, t: TimeOfDay)
    ensures
        at_time(sort_by_time(s), t) == at_time(s, t),
    decreases s.len(),
{
    if s.len() > 0 {
        lemma_sort_is_stable(s.drop_last(), t);
        lemma_insert_at_time(sort_by_time(s.drop_last()), s.last(), t);
        lemma_at_time_push(s.drop_last(), s.last(), t);
        assert(s.drop_last().push(s.last()) =~= s);
    }
}

impl ScheduleTracker {
    /// Puts every weekday's events in time order (stably).
    pub fn sort_days(&mut self)
        requires
            old(self).wf(),
            old(self).now_time == 0,
        ensures
            final(self).wf(),
            final(self).now == old(self).now,
            final(self).now_weekday == old(self).now_weekday,
            final(self).now_time == 0,
            final(self).daily@.len() == 7,
            forall|d: int| 0 <= d < 7 ==> (#[trigger] final(self).daily@[d])@ == sort_by_time(old(self).daily@[d]@),
            forall|d: int| 0 <= d < 7 ==> time_sorted((#[trigger] final(self).daily@[d])@),
            forall|d: int| 0 <= d < 7 ==> (#[trigger] final(self).daily@[d])@.to_multiset() == old(self).daily@[d]@.to_multiset(),
            forall|d: int, t: TimeOfDay| 0 <= d < 7 ==> #[trigger] at_time(final(self).daily@[d]@, t) == at_time(old(self).daily@[d]@, t),
    {
        let ghost old_daily = self.daily@;
        let mut d: usize = 0;
        while d < 7
            invariant
                d <= 7,
                self.daily@.len() == 7,
                old_daily == old(self).daily@,
                self.now == old(self).now,
                self.now_weekday == old(self).now_weekday,
                self.now_weekday < 7,
                heat_sorted(self.now.heat@),
                self.now_time == 0,
                forall|k: int| 0 <= k < d ==> (#[trigger] self.daily@[k])@ == sort_by_time(old_daily[k]@),
                forall|k: int| d <= k < 7 ==> #[trigger] self.daily@[k] == old_daily[k],
            decreases 7 - d,
        {
            let ghost before = self.daily@;
            let sorted = sort_events(&self.daily[d]);
            let _ = self.daily.remove(d);
            self.daily.insert(d, sorted);
            proof {
                assert forall|k: int| 0 <= k < d + 1 implies (#[trigger] self.daily@[k])@ == sort_by_time(old_daily[k]@) by {
                    if k < d {
                        assert(self.daily@[k] == before[k]);
                    }
                }
                assert forall|k: int| d + 1 <= k < 7 implies #[trigger] self.daily@[k] == old_daily[k] by {
                    assert(self.daily@[k] == before[k]);
                }
            }
            d = d + 1;
        }
        proof {
            assert forall|k: int| 0 <= k < 7 implies time_sorted((#[trigger] self.daily@[k])@)
                && self.daily@[k]@.to_multiset() == old_daily[k]@.to_multiset() by {
                lemma_sort_by_time(old_daily[k]@);
            }
            assert forall|k: int, t: TimeOfDay| 0 <= k < 7 implies #[trigger] at_time(self.daily@[k]@, t) == at_time(old_daily[k]@, t) by {
                lemma_sort_is_stable(old_daily[k]@, t);
            }
        }
    }
}

} // verus!

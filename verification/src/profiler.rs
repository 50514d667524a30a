//! Timing of named sections: the running sections, the statistics of
//! those that ended, and the log of starts and ends.

use crate::names::{lemma_position, position, NameMap};
use crate::text::{joined, nat_text, u128_text};
use std::time::{Duration, Instant};
use vstd::prelude::*;
use vstd::string::*;

verus! {

/// A point in time of the monotonic clock.
#[verifier::external_type_specification]
#[verifier::external_body]
pub struct ExInstant(Instant);

/// `Instant::now`: the present moment. Nothing is known of it.
#[verifier::external_body]
fn instant_now() -> Instant {
    Instant::now()
}

/// `Instant::elapsed`: the time that has passed since `since`. Nothing
/// is known of it.
#[verifier::external_body]
fn elapsed_since(since: &Instant) -> Duration {
    since.elapsed()
}

/// `Duration::as_nanos`: the duration in nanoseconds. Nothing is stated
/// of it: a duration is opaque here.
#[verifier::external_body]
fn duration_nanos(d: &Duration) -> u128 {
    d.as_nanos()
}

/// The time that has passed since `since`, in nanoseconds.
fn nanos_since(since: &Instant) -> u128 {
    let elapsed = elapsed_since(since);
    duration_nanos(&elapsed)
}

/// The least duration before any was recorded: the greatest number of
/// whole seconds, in nanoseconds.
pub const NO_MINIMUM: u128 = 18446744073709551615000000000;

/// Durations in nanoseconds: their sum, their number, the least and the
/// greatest.
#[derive(Debug, Clone, Copy, PartialEq, Eq, Structural)]
pub struct SimpleStats {
    pub total: u128,
    pub count: usize,
    pub min: u128,
    pub max: u128,
}

impl SimpleStats {
    /// The statistics after one more duration. The sum and the number stay
    /// at their greatest value once they are there.
    pub open spec fn added(self, duration: u128) -> SimpleStats {
        SimpleStats {
            total: if self.total + duration > u128::MAX {
                u128::MAX
            } else {
                (self.total + duration) as u128
            },
            count: if self.count < usize::MAX {
                (self.count + 1) as usize
            } else {
                self.count
            },
            min: if duration < self.min {
                duration
            } else {
                self.min
            },
            max: if duration > self.max {
                duration
            } else {
                self.max
            },
        }
    }

    /// The statistics of a section after one more duration, where it had
    /// `before`, or none yet.
    pub open spec fn after(before: Option<SimpleStats>, duration: u128) -> SimpleStats {
        match before {
            Some(s) => s.added(duration),
            None => SimpleStats::empty().added(duration),
        }
    }

    /// The statistics of no duration.
    pub open spec fn empty() -> SimpleStats {
        SimpleStats { total: 0, count: 0, min: NO_MINIMUM, max: 0 }
    }

    /// The mean duration, rounded down; zero where none was recorded.
    pub open spec fn average(self) -> nat {
        if self.count == 0 {
            0
        } else {
            (self.total as nat) / (self.count as nat)
        }
    }

    /// The statistics of no duration.
    pub fn new() -> (r: Self)
        ensures
            r == SimpleStats::empty(),
    {
        SimpleStats { total: 0, count: 0, min: NO_MINIMUM, max: 0 }
    }

    /// Records one more duration.
    pub fn add_duration(&mut self, duration: u128)
        ensures
            *final(self) == old(self).added(duration),
    {
        self.total = match self.total.checked_add(duration) {
            Some(t) => t,
            None => u128::MAX,
        };
        if self.count < usize::MAX {
            self.count = self.count + 1;
        }
        if duration < self.min {
            self.min = duration;
        }
        if duration > self.max {
            self.max = duration;
        }
    }

    /// The mean duration, rounded down; zero where none was recorded.
    pub fn get_average(&self) -> (r: u128)
        ensures
            r == self.average(),
    {
        if self.count == 0 {
            0
        } else {
            self.total / (self.count as u128)
        }
    }

    /// The least duration.
    pub fn get_min(&self) -> (r: u128)
        ensures
            r == self.min,
    {
        self.min
    }

    /// The greatest duration.
    pub fn get_max(&self) -> (r: u128)
        ensures
            r == self.max,
    {
        self.max
    }

    /// The sum of the durations.
    pub fn get_total(&self) -> (r: u128)
        ensures
            r == self.total,
    {
        self.total
    }

    /// The number of durations.
    pub fn get_count(&self) -> (r: usize)
        ensures
            r == self.count,
    {
        self.count
    }
}

/// One line of the log: the section, whether it started or ended, and
/// when.
pub struct ProfilingEvent {
    pub name: String,
    pub is_start: bool,
    pub at: Instant,
}

/// What the log says of one event, without the time.
pub struct EventView {
    pub name: Seq<char>,
    pub is_start: bool,
}

/// The statistics of one section as a JSON member.
pub open spec fn stat_json(name: Seq<char>, s: SimpleStats) -> Seq<char> {
    "\""@ + name + "\": {"@ + "\"total\": "@ + nat_text(s.total as nat) + ","@ + "\"average\": "@
        + nat_text(s.average()) + ","@ + "\"min\": "@ + nat_text(s.min as nat) + ","@
        + "\"max\": "@ + nat_text(s.max as nat) + ","@ + "\"count\": "@ + nat_text(s.count as nat)
        + "}"@
}

/// One event as a JSON object; `time` is its age in nanoseconds.
pub open spec fn event_json(e: EventView, time: u128) -> Seq<char> {
    "{\"name\": \""@ + e.name + "\", \"type\": \""@ + (if e.is_start {
        "start"@
    } else {
        "end"@
    }) + "\", \"time\": "@ + nat_text(time as nat) + "}"@
}

/// The whole report as JSON: the statistics by section, then the events.
pub open spec fn report_json(stats: Seq<Seq<char>>, events: Seq<Seq<char>>) -> Seq<char> {
    "{"@ + "\"stats\": {"@ + joined(stats) + "}, "@ + "\"events\": ["@ + joined(events) + "]}"@
}

/// A profiler: it measures while it is enabled.
pub struct Profiler {
    start_times: NameMap<Instant>,
    stats: NameMap<SimpleStats>,
    events: Vec<ProfilingEvent>,
    enabled: bool,
}

impl Profiler {
    /// Whether the profiler measures.
    pub closed spec fn is_enabled(&self) -> bool {
        self.enabled
    }

    /// The sections that were started and have not ended.
    pub closed spec fn running(&self) -> Seq<Seq<char>> {
        self.start_times.keys()
    }

    /// The sections that have statistics, in the order of their first end.
    pub closed spec fn measured(&self) -> Seq<Seq<char>> {
        self.stats.keys()
    }

    /// The statistics of the sections, in the order of `measured`.
    pub closed spec fn figures(&self) -> Seq<SimpleStats> {
        self.stats.entries@.map_values(|e: crate::names::Entry<SimpleStats>| e.value)
    }

    /// The statistics of a section, if it has any.
    pub open spec fn metric(&self, name: Seq<char>) -> Option<SimpleStats> {
        match position(self.measured(), name) {
            Some(i) => Some(self.figures()[i]),
            None => None,
        }
    }

    /// The log of starts and ends.
    pub closed spec fn log(&self) -> Seq<EventView> {
        self.events@.map_values(|e: ProfilingEvent| EventView { name: e.name@, is_start: e.is_start })
    }

    /// The statistics as JSON members, in the order of `measured`.
    pub open spec fn stat_items(&self) -> Seq<Seq<char>> {
        Seq::new(self.measured().len(), |i: int| stat_json(self.measured()[i], self.figures()[i]))
    }

    /// An enabled profiler that has measured nothing.
    pub fn new() -> (r: Self)
        ensures
            r.is_enabled(),
            r.running().len() == 0,
            r.measured().len() == 0,
            r.log().len() == 0,
    {
        Profiler {
            start_times: NameMap::new(),
            stats: NameMap::new(),
            events: Vec::new(),
            enabled: true,
        }
    }

    /// A disabled profiler that has measured nothing.
    pub fn new_disabled() -> (r: Self)
        ensures
            !r.is_enabled(),
            r.running().len() == 0,
            r.measured().len() == 0,
            r.log().len() == 0,
    {
        Profiler {
            start_times: NameMap::new(),
            stats: NameMap::new(),
            events: Vec::new(),
            enabled: false,
        }
    }

    /// Starts the section `name` at the moment `now`: the section runs,
    /// from `now` on if it ran before, and the log has one more start. A
    /// disabled profiler does not change.
    pub fn start_at(&mut self, name: &str, now: Instant)
        ensures
            final(self).is_enabled() == old(self).is_enabled(),
            final(self).measured() == old(self).measured(),
            final(self).figures() == old(self).figures(),
            !old(self).is_enabled() ==> final(self).running() == old(self).running() && final(self).log() == old(self).log(),
            old(self).is_enabled() ==> final(self).log() == old(self).log().push(
                EventView { name: name@, is_start: true },
            ) && final(self).running() == match position(old(self).running(), name@) {
                Some(i) => old(self).running(),
                None => old(self).running().push(name@),
            },
    {
        if !self.enabled {
            return ;
        }
        let ghost before = self.start_times.keys();
        let ghost log = self.log();
        proof {
            lemma_position(before, name@);
        }
        self.start_times.insert(String::from_str(name), now);
        self.events.push(ProfilingEvent { name: String::from_str(name), is_start: true, at: now });
        proof {
            match position(before, name@) {
                Some(i) => {
                    assert(self.start_times.keys() =~= before);
                },
                None => {
                    assert(self.start_times.keys() =~= before.push(name@));
                },
            }
            assert(self.log() =~= log.push(EventView { name: name@, is_start: true }));
        }
    }

    /// Starts the section `name` now.
    pub fn start(&mut self, name: &str)
        ensures
            final(self).is_enabled() == old(self).is_enabled(),
            final(self).measured() == old(self).measured(),
            final(self).figures() == old(self).figures(),
            !old(self).is_enabled() ==> final(self).running() == old(self).running() && final(self).log() == old(self).log(),
            old(self).is_enabled() ==> final(self).log() == old(self).log().push(
                EventView { name: name@, is_start: true },
            ) && final(self).running() == match position(old(self).running(), name@) {
                Some(i) => old(self).running(),
                None => old(self).running().push(name@),
            },
    {
        if !self.enabled {
            return ;
        }
        let now = instant_now();
        self.start_at(name, now);
    }

    /// Enters the duration `elapsed` in the statistics of `name` and logs
    /// its end at `now`.
    pub fn record(&mut self, name: &str, elapsed: u128, now: Instant)
        ensures
            final(self).is_enabled() == old(self).is_enabled(),
            final(self).running() == old(self).running(),
            final(self).log() == old(self).log().push(EventView { name: name@, is_start: false }),
            final(self).metric(name@) == Some(SimpleStats::after(old(self).metric(name@), elapsed)),
            forall|other: Seq<char>|
                other != name@ ==> final(self).metric(other) == old(self).metric(other),
    {
        let ghost log = self.log();
        let ghost old_stats = self.stats;
        let mut s = match self.stats.get(name) {
            Some(s) => *s,
            None => SimpleStats::new(),
        };
        s.add_duration(elapsed);
        self.stats.insert(String::from_str(name), s);
        self.events.push(ProfilingEvent { name: String::from_str(name), is_start: false, at: now });
        proof {
            assert(self.log() =~= log.push(EventView { name: name@, is_start: false }));
            let new_stats = self.stats;
            lemma_position(new_stats.keys(), name@);
            lemma_position(old_stats.keys(), name@);
            assert(self.metric(name@) == new_stats.lookup(name@));
            assert(old(self).metric(name@) == old_stats.lookup(name@));
            assert forall|other: Seq<char>| other != name@ implies self.metric(other) == old(self).metric(other) by {
                lemma_position(new_stats.keys(), other);
                lemma_position(old_stats.keys(), other);
                assert(self.metric(other) == new_stats.lookup(other));
                assert(old(self).metric(other) == old_stats.lookup(other));
            }
        }
    }

    /// Ends the section `name` now. If the profiler is enabled and the
    /// section runs, it runs no more, the time since its start enters its
    /// statistics, and the log has one more end. Otherwise nothing
    /// changes.
    pub fn end(&mut self, name: &str)
        ensures
            final(self).is_enabled() == old(self).is_enabled(),
            match position(old(self).running(), name@) {
                Some(i) if old(self).is_enabled() => {
                    &&& final(self).running() == old(self).running().remove(i)
                    &&& final(self).log() == old(self).log().push(
                        EventView { name: name@, is_start: false },
                    )
                    &&& exists|elapsed: u128|
                        final(self).metric(name@) == Some(
                            #[trigger] SimpleStats::after(old(self).metric(name@), elapsed),
                        )
                    &&& forall|other: Seq<char>|
                        other != name@ ==> final(self).metric(other) == old(self).metric(other)
                },
                _ => {
                    &&& final(self).running() == old(self).running()
                    &&& final(self).log() == old(self).log()
                    &&& final(self).measured() == old(self).measured()
                    &&& final(self).figures() == old(self).figures()
                },
            },
    {
        if !self.enabled {
            return ;
        }
        let ghost before = self.start_times.keys();
        proof {
            lemma_position(before, name@);
        }
        match self.start_times.remove(name) {
            Some(start) => {
                proof {
                    let i = position(before, name@).unwrap();
                    assert(self.start_times.keys() =~= before.remove(i));
                }
                let elapsed = nanos_since(&start);
                let now = instant_now();
                self.record(name, elapsed, now);
            },
            None => {},
        }
    }

    /// The JSON member for the statistics of the section at `i`.
    fn stat_member(&self, i: usize) -> (r: String)
        requires
            i < self.measured().len(),
        ensures
            r@ == self.stat_items()[i as int],
    {
        let e = &self.stats.entries[i];
        let s = e.value;
        let mut r = String::from_str("\"");
        r.append(e.key.as_str());
        r.append("\": {");
        r.append("\"total\": ");
        r.append(u128_text(s.get_total()).as_str());
        r.append(",");
        r.append("\"average\": ");
        r.append(u128_text(s.get_average()).as_str());
        r.append(",");
        r.append("\"min\": ");
        r.append(u128_text(s.get_min()).as_str());
        r.append(",");
        r.append("\"max\": ");
        r.append(u128_text(s.get_max()).as_str());
        r.append(",");
        r.append("\"count\": ");
        r.append(u128_text(s.get_count() as u128).as_str());
        r.append("}");
        r
    }

    /// The events as JSON objects, each with its age from `times`.
    pub open spec fn event_items(&self, times: Seq<u128>) -> Seq<Seq<char>> {
        Seq::new(self.log().len(), |i: int| event_json(self.log()[i], times[i]))
    }

    /// The JSON object for the event at `i`, of age `time`.
    fn event_member(&self, i: usize, time: u128) -> (r: String)
        requires
            i < self.log().len(),
        ensures
            r@ == event_json(self.log()[i as int], time),
    {
        let e = &self.events[i];
        let mut r = String::from_str("{\"name\": \"");
        r.append(e.name.as_str());
        r.append("\", \"type\": \"");
        if e.is_start {
            r.append("start");
        } else {
            r.append("end");
        }
        r.append("\", \"time\": ");
        r.append(u128_text(time).as_str());
        r.append("}");
        r
    }

    /// The report as JSON, with the events' ages given: `{}` for a
    /// disabled profiler.
    pub fn export_json_at(&self, times: &Vec<u128>) -> (r: String)
        requires
            times@.len() == self.log().len(),
        ensures
            r@ == if self.is_enabled() {
                report_json(self.stat_items(), self.event_items(times@))
            } else {
                "{}"@
            },
    {
        if !self.enabled {
            return String::from_str("{}");
        }
        let ghost stat_items = self.stat_items();
        let ghost event_items = self.event_items(times@);
        let mut stats_part = String::new();
        let mut i: usize = 0;
        while i < self.stats.entries.len()
            invariant
                i <= self.stats.entries@.len(),
                stat_items == self.stat_items(),
                stat_items.len() == self.stats.entries@.len(),
                stats_part@ == joined(stat_items.subrange(0, i as int)),
            decreases self.stats.entries@.len() - i,
        {
            let member = self.stat_member(i);
            proof {
                assert(stat_items.subrange(0, i + 1).drop_last() =~= stat_items.subrange(
                    0,
                    i as int,
                ));
            }
            if i > 0 {
                stats_part.append(",");
            }
            stats_part.append(member.as_str());
            i = i + 1;
        }
        let mut events_part = String::new();
        let mut j: usize = 0;
        while j < self.events.len()
            invariant
                j <= self.events@.len(),
                times@.len() == self.log().len(),
                self.log().len() == self.events@.len(),
                event_items == self.event_items(times@),
                event_items.len() == self.events@.len(),
                events_part@ == joined(event_items.subrange(0, j as int)),
            decreases self.events@.len() - j,
        {
            let member = self.event_member(j, times[j]);
            proof {
                assert(event_items.subrange(0, j + 1).drop_last() =~= event_items.subrange(
                    0,
                    j as int,
                ));
            }
            if j > 0 {
                events_part.append(",");
            }
            events_part.append(member.as_str());
            j = j + 1;
        }
        proof {
            assert(stat_items.subrange(0, stat_items.len() as int) =~= stat_items);
            assert(event_items.subrange(0, event_items.len() as int) =~= event_items);
        }
        let mut json = String::from_str("{");
        json.append("\"stats\": {");
        json.append(stats_part.as_str());
        json.append("}, ");
        json.append("\"events\": [");
        json.append(events_part.as_str());
        json.append("]}");
        json
    }

    /// The report as JSON, with each event's age at this moment: `{}` for
    /// a disabled profiler.
    pub fn export_json(&self) -> (r: String)
        ensures
            !self.is_enabled() ==> r@ == "{}"@,
            self.is_enabled() ==> exists|times: Seq<u128>|
                times.len() == self.log().len() && r@ == report_json(
                    self.stat_items(),
                    self.event_items(times),
                ),
    {
        let mut times: Vec<u128> = Vec::new();
        let mut i: usize = 0;
        while i < self.events.len()
            invariant
                i <= self.events@.len(),
                times@.len() == i,
            decreases self.events@.len() - i,
        {
            times.push(nanos_since(&self.events[i].at));
            i = i + 1;
        }
        self.export_json_at(&times)
    }

    /// Whether the profiler measures.
    pub fn enabled(&self) -> (r: bool)
        ensures
            r == self.is_enabled(),
    {
        self.enabled
    }

    /// The number of sections that have statistics.
    pub fn metric_count(&self) -> (n: usize)
        ensures
            n == self.measured().len(),
    {
        self.stats.len()
    }

    /// The name of the section at `i`, in the order of `measured`.
    pub fn metric_name(&self, i: usize) -> (r: &str)
        requires
            i < self.measured().len(),
        ensures
            r@ == self.measured()[i as int],
    {
        self.stats.entries[i].key.as_str()
    }

    /// The statistics of the section at `i`, in the order of `measured`.
    pub fn metric_stats(&self, i: usize) -> (r: SimpleStats)
        requires
            i < self.measured().len(),
        ensures
            r == self.figures()[i as int],
    {
        self.stats.entries[i].value
    }

    /// The number of lines of the log.
    pub fn event_count(&self) -> (n: usize)
        ensures
            n == self.log().len(),
    {
        self.events.len()
    }

    /// Enables or disables measuring.
    pub fn set_enabled(&mut self, enabled: bool)
        ensures
            final(self).is_enabled() == enabled,
            final(self).running() == old(self).running(),
            final(self).measured() == old(self).measured(),
            final(self).figures() == old(self).figures(),
            final(self).log() == old(self).log(),
    {
        self.enabled = enabled;
    }

    /// Forgets what was measured; enabled stays what it is.
    pub fn clear(&mut self)
        ensures
            final(self).is_enabled() == old(self).is_enabled(),
            final(self).running().len() == 0,
            final(self).measured().len() == 0,
            final(self).log().len() == 0,
    {
        self.start_times.clear();
        self.stats.clear();
        self.events.clear();
    }
}

} // verus!

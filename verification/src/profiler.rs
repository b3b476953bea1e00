use vstd::prelude::*;

use crate::table::{IdMap, StrMap};

verus! {

/// Timing statistics of one profiled function.
#[derive(Debug, Clone, Copy, PartialEq, Eq, Structural)]
pub struct MetricData {
    pub total_calls: u64,
    pub total_time_us: u64,
    pub min_time_us: u64,
    pub max_time_us: u64,
    pub errors: u64,
}

/// A traced span: when it started (microseconds since the epoch) and, once finished, how
/// long it took.
#[derive(Debug)]
pub struct Span {
    pub span_id: u64,
    pub name: String,
    pub start_time: u64,
    pub duration_us: Option<u64>,
    pub metadata: Vec<(String, String)>,
}

/// A span as plain values.
pub struct SpanModel {
    pub span_id: u64,
    pub name: Seq<char>,
    pub start_time: u64,
    pub duration_us: Option<u64>,
    pub metadata: Seq<(Seq<char>, Seq<char>)>,
}

impl View for Span {
    type V = SpanModel;

    open spec fn view(&self) -> SpanModel {
        SpanModel {
            span_id: self.span_id,
            name: self.name@,
            start_time: self.start_time,
            duration_us: self.duration_us,
            metadata: self.metadata@.map_values(|p: (String, String)| (p.0@, p.1@)),
        }
    }
}

impl crate::util::DeepCopy for Span {
    fn deep_copy(&self) -> (r: Self) {
        let mut metadata: Vec<(String, String)> = Vec::new();
        let mut i: usize = 0;
        while i < self.metadata.len()
            invariant
                0 <= i <= self.metadata@.len(),
                metadata@ =~= self.metadata@.subrange(0, i as int),
            decreases self.metadata@.len() - i,
        {
            let k = self.metadata[i].0.clone();
            let v = self.metadata[i].1.clone();
            metadata.push((k, v));
            i = i + 1;
        }
        assert(metadata@ =~= self.metadata@);
        Span {
            span_id: self.span_id,
            name: self.name.clone(),
            start_time: self.start_time,
            duration_us: self.duration_us,
            metadata,
        }
    }
}

/// One line of a performance report. Times are in microseconds; the call rate is in
/// millionths of calls per second.
#[derive(Debug, Clone)]
pub struct ProfileReport {
    pub function: String,
    pub total_calls: u64,
    pub total_time_us: u64,
    pub avg_time_us: u64,
    pub min_time_us: u64,
    pub max_time_us: u64,
    pub errors: u64,
    pub calls_per_second_ppm: u64,
}

/// Totals over every profiled function.
#[derive(Debug, Clone, Copy, PartialEq, Eq, Structural)]
pub struct ProfileSummary {
    pub total_functions: usize,
    pub total_time_us: u128,
    pub total_calls: u64,
    pub total_errors: u64,
    pub avg_call_time_us: u64,
}

/// Calls per second, in millionths, over `max(total_time, 1 s)`, at most `u64::MAX`.
pub open spec fn call_rate_spec(calls: u64, total_time_us: u64) -> u64 {
    let r = if total_time_us <= 1_000_000 {
        calls * 1_000_000
    } else {
        calls * 1_000_000_000_000 / (total_time_us as int)
    };
    if r > u64::MAX {
        u64::MAX
    } else {
        r as u64
    }
}

/// The report line of `function` with statistics `d`.
pub open spec fn report_line(function: Seq<char>, d: MetricData, r: ProfileReport) -> bool {
    &&& r.function@ == function
    &&& r.total_calls == d.total_calls
    &&& r.total_time_us == d.total_time_us
    &&& r.avg_time_us == (if d.total_calls > 0 {
        d.total_time_us / d.total_calls
    } else {
        0
    })
    &&& r.min_time_us == d.min_time_us
    &&& r.max_time_us == d.max_time_us
    &&& r.errors == d.errors
    &&& r.calls_per_second_ppm == call_rate_spec(d.total_calls, d.total_time_us)
}

/// Whether the lines are ordered by total time, slowest first.
pub open spec fn slowest_first(s: Seq<ProfileReport>) -> bool {
    forall|i: int, j: int| 0 <= i < j < s.len() ==> s[i].total_time_us >= s[j].total_time_us
}

/// The statistics after one more sample of `duration_us`.
pub open spec fn add_sample_spec(old: Option<MetricData>, duration_us: u64, error: bool) -> MetricData {
    match old {
        None => MetricData {
            total_calls: 1,
            total_time_us: duration_us,
            min_time_us: duration_us,
            max_time_us: duration_us,
            errors: if error {
                1
            } else {
                0
            },
        },
        Some(d) => MetricData {
            total_calls: (d.total_calls + 1) as u64,
            total_time_us: (d.total_time_us + duration_us) as u64,
            min_time_us: if duration_us < d.min_time_us {
                duration_us
            } else {
                d.min_time_us
            },
            max_time_us: if duration_us > d.max_time_us {
                duration_us
            } else {
                d.max_time_us
            },
            errors: if error {
                (d.errors + 1) as u64
            } else {
                d.errors
            },
        },
    }
}

/// Whether one more sample of `duration_us` fits the counters of `old`.
pub open spec fn sample_fits(old: Option<MetricData>, duration_us: u64, error: bool) -> bool {
    match old {
        None => true,
        Some(d) => d.total_calls < u64::MAX && d.total_time_us + duration_us <= u64::MAX && (error
            ==> d.errors < u64::MAX),
    }
}

/// The calls added up.
pub open spec fn calls_sum(s: Seq<MetricData>) -> int
    decreases s.len(),
{
    if s.len() == 0 {
        0
    } else {
        calls_sum(s.drop_last()) + s.last().total_calls
    }
}

/// The errors added up.
pub open spec fn errors_sum(s: Seq<MetricData>) -> int
    decreases s.len(),
{
    if s.len() == 0 {
        0
    } else {
        errors_sum(s.drop_last()) + s.last().errors
    }
}

/// The times added up.
pub open spec fn time_sum(s: Seq<MetricData>) -> int
    decreases s.len(),
{
    if s.len() == 0 {
        0
    } else {
        time_sum(s.drop_last()) + s.last().total_time_us
    }
}

/// A profiler as plain values.
pub struct ProfilerModel {
    pub metrics: Map<Seq<char>, MetricData>,
    /// The functions and their statistics, in the order the functions were first seen.
    pub functions: Seq<(Seq<char>, MetricData)>,
    pub spans: Map<u64, SpanModel>,
    pub span_counter: u64,
    pub enabled: bool,
}

/// Collects call timings per function and traced spans.
pub struct PerformanceProfiler {
    metrics: StrMap<MetricData>,
    spans: IdMap<Span>,
    span_counter: u64,
    enabled: bool,
}

impl View for PerformanceProfiler {
    type V = ProfilerModel;

    closed spec fn view(&self) -> ProfilerModel {
        ProfilerModel {
            metrics: self.metrics@,
            functions: self.metrics.entries().map_values(|e: (String, MetricData)| (e.0@, e.1)),
            spans: self.spans@.map_values(|s: Span| s@),
            span_counter: self.span_counter,
            enabled: self.enabled,
        }
    }
}

/// A running measurement of one call, started by `PerformanceProfiler::start`.
pub struct Timer {
    name: String,
    start_us: u64,
    enabled: bool,
}

impl Timer {
    pub closed spec fn name(&self) -> Seq<char> {
        self.name@
    }

    pub closed spec fn start_us(&self) -> u64 {
        self.start_us
    }

    pub closed spec fn is_enabled(&self) -> bool {
        self.enabled
    }

    /// A timer that records nothing.
    fn disabled() -> (t: Self)
        ensures
            !t.is_enabled(),
    {
        Timer { name: String::new(), start_us: 0, enabled: false }
    }

    /// Stop at `now_us` (microseconds) without error (see `stop_with_error_at`).
    pub fn stop_at(self, profiler: &mut PerformanceProfiler, now_us: u64)
        requires
            old(profiler).wf(),
            self.is_enabled() ==> sample_fits(
                old(profiler)@.metrics.get(self.name()),
                elapsed(self.start_us(), now_us),
                false,
            ),
        ensures
            final(profiler).wf(),
            final(profiler)@ == stopped(old(profiler)@, self, now_us, false),
    {
        self.stop_with_error_at(profiler, now_us, false)
    }

    /// Stop at `now_us`: an enabled timer records one call of its function, lasting from its
    /// start to `now_us` (0 if the clock went back), failed when `error`.
    pub fn stop_with_error_at(self, profiler: &mut PerformanceProfiler, now_us: u64, error: bool)
        requires
            old(profiler).wf(),
            self.is_enabled() ==> sample_fits(
                old(profiler)@.metrics.get(self.name()),
                elapsed(self.start_us(), now_us),
                error,
            ),
        ensures
            final(profiler).wf(),
            final(profiler)@ == stopped(old(profiler)@, self, now_us, error),
    {
        if self.enabled {
            let duration_us = now_us.saturating_sub(self.start_us);
            profiler.add_sample(self.name, duration_us, error);
        }
    }

    /// Stop now (see `stop_with_error_at`). The call is recorded only when its duration fits
    /// the counters; the result says whether it did.
    pub fn stop(self, profiler: &mut PerformanceProfiler) -> (recorded: bool)
        requires
            old(profiler).wf(),
        ensures
            final(profiler).wf(),
            recorded ==> exists|now: u64| final(profiler)@ == #[trigger] stopped(old(profiler)@, self, now, false),
            !recorded ==> final(profiler)@ == old(profiler)@,
    {
        self.stop_with_error(profiler, false)
    }

    /// Stop now, failed when `error` (see `stop_with_error_at`). The call is recorded only
    /// when its duration fits the counters; the result says whether it did.
    pub fn stop_with_error(self, profiler: &mut PerformanceProfiler, error: bool) -> (recorded: bool)
        requires
            old(profiler).wf(),
        ensures
            final(profiler).wf(),
            recorded ==> exists|now: u64| final(profiler)@ == #[trigger] stopped(old(profiler)@, self, now, error),
            !recorded ==> final(profiler)@ == old(profiler)@,
    {
        let now = crate::clock::now_micros();
        let fits = if self.enabled {
            let duration_us = now.saturating_sub(self.start_us);
            match profiler.metrics.get(self.name.as_str()) {
                None => true,
                Some(d) => d.total_calls < u64::MAX && d.total_time_us <= u64::MAX - duration_us
                    && (!error || d.errors < u64::MAX),
            }
        } else {
            true
        };
        if fits {
            let ghost t = self;
            self.stop_with_error_at(profiler, now, error);
            assert(profiler@ == stopped(old(profiler)@, t, now, error));
            true
        } else {
            false
        }
    }
}

/// Microseconds from `start` to `now`, 0 if `now` is earlier.
pub open spec fn elapsed(start: u64, now: u64) -> u64 {
    if now >= start {
        (now - start) as u64
    } else {
        0
    }
}

/// The profiler after `t` stopped at `now`.
pub open spec fn stopped(p: ProfilerModel, t: Timer, now: u64, error: bool) -> ProfilerModel {
    if t.is_enabled() {
        sampled(p, t.name(), elapsed(t.start_us(), now), error)
    } else {
        p
    }
}

/// The profiler after one sample of `name`.
pub open spec fn sampled(p: ProfilerModel, name: Seq<char>, duration_us: u64, error: bool) -> ProfilerModel {
    let d = add_sample_spec(p.metrics.get(name), duration_us, error);
    ProfilerModel {
        metrics: p.metrics.insert(name, d),
        functions: if p.metrics.dom().contains(name) {
            Seq::new(
                p.functions.len(),
                |i: int|
                    if p.functions[i].0 == name {
                        (name, d)
                    } else {
                        p.functions[i]
                    },
            )
        } else {
            p.functions.push((name, d))
        },
        ..p
    }
}

/// A traced span that is open until `finish` is called.
pub struct SpanGuard {
    span_id: u64,
    start_us: u64,
}

impl SpanGuard {
    pub closed spec fn id(&self) -> u64 {
        self.span_id
    }

    pub closed spec fn start_us(&self) -> u64 {
        self.start_us
    }

    /// The id of the span.
    pub fn span_id(&self) -> (r: u64)
        ensures
            r == self.id(),
    {
        self.span_id
    }

    /// Close the span at `now_us`: if it is still recorded, its duration becomes the time
    /// since it started (0 if the clock went back).
    pub fn finish_at(self, profiler: &mut PerformanceProfiler, now_us: u64)
        requires
            old(profiler).wf(),
        ensures
            final(profiler).wf(),
            final(profiler)@ == finished(old(profiler)@, self.id(), elapsed(self.start_us(), now_us)),
    {
        let d = now_us.saturating_sub(self.start_us);
        profiler.set_span_duration(self.span_id, d);
    }

    /// Close the span now (see `finish_at`).
    pub fn finish(self, profiler: &mut PerformanceProfiler)
        requires
            old(profiler).wf(),
        ensures
            final(profiler).wf(),
            exists|d: u64| final(profiler)@ == #[trigger] finished(old(profiler)@, self.id(), d),
    {
        let id = self.span_id;
        let d = crate::clock::now_micros().saturating_sub(self.start_us);
        profiler.set_span_duration(id, d);
        assert(profiler@ == finished(old(profiler)@, self.id(), d));
    }
}

/// The profiler after the span `id` was given the duration `d`, if it is recorded.
pub open spec fn finished(p: ProfilerModel, id: u64, d: u64) -> ProfilerModel {
    if p.spans.dom().contains(id) {
        ProfilerModel {
            spans: p.spans.insert(id, SpanModel { duration_us: Some(d), ..p.spans[id] }),
            ..p
        }
    } else {
        p
    }
}

/// The profiler after a span named `name` was opened at `now_us`: it is filed under the
/// next span id, with no duration and no metadata, and the counter moves on (wrapping).
pub open spec fn span_opened(p: ProfilerModel, name: Seq<char>, now_us: u64) -> ProfilerModel {
    ProfilerModel {
        spans: p.spans.insert(
            p.span_counter,
            SpanModel { span_id: p.span_counter, name, start_time: now_us, duration_us: None, metadata: Seq::empty() },
        ),
        span_counter: (if p.span_counter == u64::MAX { 0 } else { p.span_counter + 1 }) as u64,
        ..p
    }
}

impl PerformanceProfiler {
    /// The statistics map and the span table have no duplicate keys.
    pub closed spec fn wf(&self) -> bool {
        &&& self.metrics.wf()
        &&& self.spans.wf()
        &&& forall|k: u64| #[trigger] self.spans@.dom().contains(k) ==> self.spans@[k].span_id == k
    }

    /// An empty profiler, enabled or not.
    pub fn new(enabled: bool) -> (p: Self)
        ensures
            p.wf(),
            p@.metrics == Map::<Seq<char>, MetricData>::empty(),
            p@.functions == Seq::<(Seq<char>, MetricData)>::empty(),
            p@.spans == Map::<u64, SpanModel>::empty(),
            p@.span_counter == 0,
            p@.enabled == enabled,
    {
        let p = PerformanceProfiler { metrics: StrMap::new(), spans: IdMap::new(), span_counter: 0, enabled };
        assert(p@.spans =~= Map::<u64, SpanModel>::empty());
        assert(p@.functions =~= Seq::<(Seq<char>, MetricData)>::empty());
        p
    }

    /// Start timing a call of `name` at `now_us` (microseconds); a disabled profiler hands
    /// out a timer that records nothing.
    pub fn start_at(&self, name: &str, now_us: u64) -> (t: Timer)
        ensures
            t.is_enabled() == self@.enabled,
            t.is_enabled() ==> t.name() == name@ && t.start_us() == now_us,
    {
        if !self.enabled {
            return Timer::disabled();
        }
        Timer { name: name.to_string(), start_us: now_us, enabled: true }
    }

    /// Start timing a call of `name` now (see `start_at`).
    pub fn start(&self, name: &str) -> (t: Timer)
        ensures
            t.is_enabled() == self@.enabled,
            t.is_enabled() ==> t.name() == name@,
    {
        self.start_at(name, crate::clock::now_micros())
    }

    /// Open a span named `name` at `now_us`: it takes the next span id (the counter wraps)
    /// and has no duration until it is finished.
    pub fn start_span_at(&mut self, name: String, now_us: u64) -> (g: SpanGuard)
        requires
            old(self).wf(),
        ensures
            final(self).wf(),
            g.id() == old(self)@.span_counter,
            g.start_us() == now_us,
            final(self)@ == span_opened(old(self)@, name@, now_us),
    {
        let span_id = self.span_counter;
        self.span_counter = self.span_counter.wrapping_add(1);
        let span = Span { span_id, name, start_time: now_us, duration_us: None, metadata: Vec::new() };
        let ghost sv = span@;
        self.spans.insert(span_id, span);
        proof {
            assert(sv.metadata =~= Seq::<(Seq<char>, Seq<char>)>::empty());
            assert(self@.spans =~= old(self)@.spans.insert(span_id, sv));
        }
        SpanGuard { span_id, start_us: now_us }
    }

    /// Open a span named `name` now (see `start_span_at`).
    pub fn start_span(&mut self, name: String) -> (g: SpanGuard)
        requires
            old(self).wf(),
        ensures
            final(self).wf(),
            g.id() == old(self)@.span_counter,
            exists|now_us: u64| g.start_us() == now_us && final(self)@ == #[trigger] span_opened(old(self)@, name@, now_us),
    {
        self.start_span_at(name, crate::clock::now_micros())
    }

    fn set_span_duration(&mut self, id: u64, d: u64)
        requires
            old(self).wf(),
        ensures
            final(self).wf(),
            final(self)@ == finished(old(self)@, id, d),
    {
        match self.spans.remove(id) {
            Some(mut span) => {
                let ghost old_view = span@;
                span.duration_us = Some(d);
                let ghost new_view = span@;
                self.spans.insert(id, span);
                proof {
                    assert(new_view == SpanModel { duration_us: Some(d), ..old_view });
                    assert(self@.spans =~= old(self)@.spans.insert(id, new_view));
                }
            },
            None => {
                assert(self@.spans =~= old(self)@.spans);
            },
        }
    }

    /// Record one call of `name` lasting `duration_us`, failed when `error`; nothing when the
    /// profiler is disabled.
    pub fn record(&mut self, name: &str, duration_us: u64, error: bool)
        requires
            old(self).wf(),
            old(self)@.enabled ==> sample_fits(old(self)@.metrics.get(name@), duration_us, error),
        ensures
            final(self).wf(),
            final(self)@ == if old(self)@.enabled {
                sampled(old(self)@, name@, duration_us, error)
            } else {
                old(self)@
            },
    {
        if !self.enabled {
            return;
        }
        self.add_sample(name.to_string(), duration_us, error);
    }

    fn add_sample(&mut self, name: String, duration_us: u64, error: bool)
        requires
            old(self).wf(),
            sample_fits(old(self)@.metrics.get(name@), duration_us, error),
        ensures
            final(self).wf(),
            final(self)@ == sampled(old(self)@, name@, duration_us, error),
    {
        proof {
            self.metrics.lemma_view();
        }
        let ghost list0 = old(self)@.functions;
        let d = match self.metrics.get(name.as_str()) {
            None => MetricData {
                total_calls: 1,
                total_time_us: duration_us,
                min_time_us: duration_us,
                max_time_us: duration_us,
                errors: if error {
                    1
                } else {
                    0
                },
            },
            Some(old_d) => MetricData {
                total_calls: old_d.total_calls + 1,
                total_time_us: old_d.total_time_us + duration_us,
                min_time_us: if duration_us < old_d.min_time_us {
                    duration_us
                } else {
                    old_d.min_time_us
                },
                max_time_us: if duration_us > old_d.max_time_us {
                    duration_us
                } else {
                    old_d.max_time_us
                },
                errors: if error {
                    old_d.errors + 1
                } else {
                    old_d.errors
                },
            },
        };
        let ghost e0 = self.metrics.entries();
        let ghost had = self.metrics@.dom().contains(name@);
        let ghost nv = name@;
        self.metrics.insert(name, d);
        proof {
            assert(d == add_sample_spec(old(self)@.metrics.get(nv), duration_us, error));
            let target = sampled(old(self)@, nv, duration_us, error);
            if had {
                crate::util::lemma_find_first(e0, |e: (String, MetricData)| e.0@ == nv);
                let p = crate::table::key_pos(e0, nv)->Some_0;
                assert(self@.functions =~= target.functions) by {
                    assert forall|i: int| 0 <= i < list0.len() implies self@.functions[i] == target.functions[i] by {
                        if i != p {
                            assert(e0[i].0@ != e0[p].0@);
                        }
                    }
                }
            } else {
                assert(self@.functions =~= list0.push((nv, d)));
            }
            assert(self@.spans =~= target.spans);
        }
    }

    /// One report line per profiled function, slowest first.
    pub fn get_report(&self) -> (r: Vec<ProfileReport>)
        requires
            self.wf(),
        ensures
            slowest_first(r@),
            r@.len() == self@.metrics.dom().len(),
            forall|i: int|
                0 <= i < r@.len() ==> #[trigger] self@.metrics.dom().contains(r@[i].function@)
                    && report_line(r@[i].function@, self@.metrics[r@[i].function@], r@[i]),
            forall|k: Seq<char>|
                #[trigger] self@.metrics.dom().contains(k) ==> exists|i: int|
                    0 <= i < r@.len() && r@[i].function@ == k,
    {
        proof {
            self.metrics.lemma_view();
        }
        let n = self.metrics.len_entries();
        let mut lines: Vec<ProfileReport> = Vec::new();
        let mut i: usize = 0;
        while i < n
            invariant
                n == self.metrics.entries().len(),
                0 <= i <= n,
                lines@.len() == i,
                forall|j: int|
                    0 <= j < i ==> report_line(
                        self.metrics.entries()[j].0@,
                        self.metrics.entries()[j].1,
                        #[trigger] lines@[j],
                    ),
            decreases n - i,
        {
            let line = report_line_of(self.metrics.key_at(i), *self.metrics.value_at(i));
            lines.push(line);
            i = i + 1;
        }
        let ghost unsorted = lines@;
        let sorted = sort_slowest_first(lines);
        proof {
            broadcast use vstd::seq_lib::group_to_multiset_ensures;
            assert forall|j: int|
                0 <= j < sorted@.len() implies #[trigger] self@.metrics.dom().contains(
                sorted@[j].function@,
            ) && report_line(sorted@[j].function@, self@.metrics[sorted@[j].function@], sorted@[j]) by {
                let x = sorted@[j];
                assert(sorted@.contains(x));
                assert(sorted@.to_multiset().count(x) > 0);
                assert(unsorted.to_multiset().count(x) > 0);
                assert(unsorted.contains(x));
                let m = choose|m: int| 0 <= m < unsorted.len() && unsorted[m] == x;
                assert(report_line(self.metrics.entries()[m].0@, self.metrics.entries()[m].1, unsorted[m]));
                assert(self.metrics@.dom().contains(self.metrics.entries()[m].0@));
            }
            assert forall|k: Seq<char>| #[trigger]
                self@.metrics.dom().contains(k) implies exists|j: int|
                0 <= j < sorted@.len() && sorted@[j].function@ == k by {
                let m = choose|m: int|
                    0 <= m < self.metrics.entries().len() && self.metrics.entries()[m].0@ == k;
                let x = unsorted[m];
                assert(report_line(self.metrics.entries()[m].0@, self.metrics.entries()[m].1, unsorted[m]));
                assert(unsorted.contains(x));
                assert(unsorted.to_multiset().count(x) > 0);
                assert(sorted@.to_multiset().count(x) > 0);
                assert(sorted@.contains(x));
            }
            assert(sorted@.len() == unsorted.len()) by {
                assert(sorted@.to_multiset().len() == unsorted.to_multiset().len());
            }
        }
        sorted
    }

    /// The `n` slowest functions' report lines, slowest first: every function left out is
    /// no slower than any kept.
    pub fn get_slowest(&self, n: usize) -> (r: Vec<ProfileReport>)
        requires
            self.wf(),
        ensures
            slowest_first(r@),
            r@.len() == (if n < self@.metrics.dom().len() {
                n as int
            } else {
                self@.metrics.dom().len() as int
            }),
            forall|i: int|
                0 <= i < r@.len() ==> #[trigger] self@.metrics.dom().contains(r@[i].function@)
                    && report_line(r@[i].function@, self@.metrics[r@[i].function@], r@[i]),
            forall|k: Seq<char>|
                #[trigger] self@.metrics.dom().contains(k) ==> (exists|i: int|
                    0 <= i < r@.len() && r@[i].function@ == k) || (forall|i: int|
                    0 <= i < r@.len() ==> self@.metrics[k].total_time_us <= #[trigger] r@[i].total_time_us),
    {
        let mut report = self.get_report();
        let ghost full = report@;
        report.truncate(n);
        proof {
            assert forall|i: int| 0 <= i < report@.len() implies #[trigger] self@.metrics.dom().contains(
                report@[i].function@,
            ) && report_line(report@[i].function@, self@.metrics[report@[i].function@], report@[i]) by {
                assert(report@[i] == full[i]);
            }
            assert forall|k: Seq<char>| #[trigger]
                self@.metrics.dom().contains(k) implies (exists|i: int|
                0 <= i < report@.len() && report@[i].function@ == k) || (forall|i: int|
                0 <= i < report@.len() ==> self@.metrics[k].total_time_us
                    <= #[trigger] report@[i].total_time_us) by {
                let p = choose|p: int| 0 <= p < full.len() && full[p].function@ == k;
                if p < report@.len() {
                    assert(report@[p] == full[p]);
                } else {
                    assert(report_line(full[p].function@, self@.metrics[full[p].function@], full[p]));
                    assert forall|i: int| 0 <= i < report@.len() implies self@.metrics[k].total_time_us
                        <= #[trigger] report@[i].total_time_us by {
                        assert(report@[i] == full[i]);
                    }
                }
            }
        }
        report
    }

    /// A copy of every recorded span.
    pub fn get_spans(&self) -> (r: Vec<Span>)
        requires
            self.wf(),
        ensures
            r@.len() == self@.spans.dom().len(),
            forall|i: int|
                0 <= i < r@.len() ==> #[trigger] self@.spans.dom().contains(r@[i].span_id)
                    && r@[i]@ == self@.spans[r@[i].span_id],
            forall|id: u64|
                #[trigger] self@.spans.dom().contains(id) ==> exists|i: int|
                    0 <= i < r@.len() && r@[i].span_id == id,
    {
        proof {
            self.spans.lemma_view();
        }
        let n = self.spans.len_entries();
        let mut r: Vec<Span> = Vec::new();
        let mut i: usize = 0;
        while i < n
            invariant
                n == self.spans.entries().len(),
                0 <= i <= n,
                r@.len() == i,
                self.wf(),
                forall|j: int|
                    0 <= j < i ==> (#[trigger] r@[j])@ == self.spans.entries()[j].1@
                        && r@[j].span_id == self.spans.entries()[j].0,
            decreases n - i,
        {
            proof {
                self.spans.lemma_view();
                assert(self.spans@.dom().contains(self.spans.entries()[i as int].0));
            }
            let s = crate::util::DeepCopy::deep_copy(self.spans.value_at(i));
            r.push(s);
            i = i + 1;
        }
        proof {
            assert(self@.spans.dom() =~= self.spans@.dom());
            assert forall|j: int| 0 <= j < r@.len() implies #[trigger] self@.spans.dom().contains(
                r@[j].span_id,
            ) && r@[j]@ == self@.spans[r@[j].span_id] by {
                assert(self.spans@.dom().contains(self.spans.entries()[j].0));
            }
            assert forall|id: u64| #[trigger]
                self@.spans.dom().contains(id) implies exists|j: int|
                0 <= j < r@.len() && r@[j].span_id == id by {
                assert(self.spans@.dom().contains(id));
                let m = choose|m: int| 0 <= m < self.spans.entries().len() && self.spans.entries()[m].0 == id;
                assert(r@[m].span_id == id);
            }
        }
        r
    }

    /// Forget every statistic and span.
    pub fn clear(&mut self)
        requires
            old(self).wf(),
        ensures
            final(self).wf(),
            final(self)@ == (ProfilerModel {
                metrics: Map::empty(),
                functions: Seq::empty(),
                spans: Map::empty(),
                ..old(self)@
            }),
    {
        self.metrics.clear();
        self.spans.clear();
        assert(self@.spans =~= Map::<u64, SpanModel>::empty());
        assert(self@.functions =~= Seq::<(Seq<char>, MetricData)>::empty());
    }

    /// Totals over every function: the time, calls and errors added up, and the mean call
    /// time (the total time, at most `u64::MAX`, over the calls; 0 without calls).
    pub fn get_summary(&self) -> (s: ProfileSummary)
        requires
            self.wf(),
            calls_sum(self@.functions.map_values(|e: (Seq<char>, MetricData)| e.1)) <= u64::MAX,
            errors_sum(self@.functions.map_values(|e: (Seq<char>, MetricData)| e.1)) <= u64::MAX,
        ensures
            ({
                let ds = self@.functions.map_values(|e: (Seq<char>, MetricData)| e.1);
                &&& s.total_functions == self@.metrics.dom().len()
                &&& s.total_time_us == time_sum(ds)
                &&& s.total_calls == calls_sum(ds)
                &&& s.total_errors == errors_sum(ds)
                &&& s.avg_call_time_us == (if calls_sum(ds) > 0 {
                    (if time_sum(ds) > u64::MAX {
                        u64::MAX as int
                    } else {
                        time_sum(ds)
                    }) / calls_sum(ds)
                } else {
                    0
                })
            }),
    {
        proof {
            self.metrics.lemma_view();
        }
        let ghost ds = self@.functions.map_values(|e: (Seq<char>, MetricData)| e.1);
        let n = self.metrics.len_entries();
        let mut total_time: u128 = 0;
        let mut total_calls: u64 = 0;
        let mut total_errors: u64 = 0;
        let mut i: usize = 0;
        while i < n
            invariant
                n == ds.len(),
                ds == self@.functions.map_values(|e: (Seq<char>, MetricData)| e.1),
                self@.functions == self.metrics.entries().map_values(|e: (String, MetricData)| (e.0@, e.1)),
                0 <= i <= n,
                calls_sum(ds) <= u64::MAX,
                errors_sum(ds) <= u64::MAX,
                total_time == time_sum(ds.take(i as int)),
                total_calls == calls_sum(ds.take(i as int)),
                total_errors == errors_sum(ds.take(i as int)),
                time_sum(ds.take(i as int)) <= i * u64::MAX,
            decreases n - i,
        {
            let d = *self.metrics.value_at(i);
            assert(d == ds[i as int]);
            proof {
                assert(ds.take(i + 1).drop_last() =~= ds.take(i as int));
                lemma_sums_prefix(ds, i + 1);
            }
            total_time = total_time + (d.total_time_us as u128);
            total_calls = total_calls + d.total_calls;
            total_errors = total_errors + d.errors;
            i = i + 1;
        }
        assert(ds.take(n as int) =~= ds);
        let avg = if total_calls > 0 {
            let capped: u64 = if total_time > u64::MAX as u128 {
                u64::MAX
            } else {
                total_time as u64
            };
            capped / total_calls
        } else {
            0
        };
        ProfileSummary {
            total_functions: self.metrics.len(),
            total_time_us: total_time,
            total_calls,
            total_errors,
            avg_call_time_us: avg,
        }
    }
}

/// A prefix's sums are at most the whole's.
proof fn lemma_sums_prefix(ds: Seq<MetricData>, k: int)
    requires
        0 <= k <= ds.len(),
    ensures
        calls_sum(ds.take(k)) <= calls_sum(ds),
        errors_sum(ds.take(k)) <= errors_sum(ds),
    decreases ds.len(),
{
    if k < ds.len() {
        assert(ds.drop_last().take(k) =~= ds.take(k));
        lemma_sums_prefix(ds.drop_last(), k);
    } else {
        assert(ds.take(k) =~= ds);
    }
}

/// The report line of `function` with statistics `d`.
fn report_line_of(function: &String, d: MetricData) -> (r: ProfileReport)
    ensures
        report_line(function@, d, r),
{
    let wide: u128 = if d.total_time_us <= 1_000_000 {
        (d.total_calls as u128) * 1_000_000
    } else {
        (d.total_calls as u128) * 1_000_000_000_000 / (d.total_time_us as u128)
    };
    let rate: u64 = if wide > u64::MAX as u128 {
        u64::MAX
    } else {
        wide as u64
    };
    ProfileReport {
        function: function.clone(),
        total_calls: d.total_calls,
        total_time_us: d.total_time_us,
        avg_time_us: if d.total_calls > 0 {
            d.total_time_us / d.total_calls
        } else {
            0
        },
        min_time_us: d.min_time_us,
        max_time_us: d.max_time_us,
        errors: d.errors,
        calls_per_second_ppm: rate,
    }
}

/// The lines ordered slowest first; lines of equal time keep their order (insertion sort).
fn sort_slowest_first(v: Vec<ProfileReport>) -> (r: Vec<ProfileReport>)
    ensures
        slowest_first(r@),
        r@.to_multiset() == v@.to_multiset(),
{
    let mut r: Vec<ProfileReport> = Vec::new();
    let mut rest = v;
    let ghost all = rest@;
    let mut i: usize = 0;
    let n: usize = rest.len();
    broadcast use vstd::seq_lib::group_to_multiset_ensures;
    while rest.len() > 0
        invariant
            n == all.len(),
            0 <= i <= n,
            rest@ == all.skip(i as int),
            slowest_first(r@),
            r@.to_multiset() == all.take(i as int).to_multiset(),
        decreases rest.len(),
    {
        let x = rest.remove(0);
        assert(x == all[i as int]);
        let mut k: usize = 0;
        while k < r.len() && r[k].total_time_us >= x.total_time_us
            invariant
                0 <= k <= r@.len(),
                forall|m: int| 0 <= m < k ==> (#[trigger] r@[m]).total_time_us >= x.total_time_us,
            decreases r@.len() - k,
        {
            k = k + 1;
        }
        let ghost r0 = r@;
        r.insert(k, x);
        proof {
            assert(r@ == r0.insert(k as int, x));
            assert forall|a: int, b: int| 0 <= a < b < r@.len() implies r@[a].total_time_us
                >= r@[b].total_time_us by {
                if k < r0.len() {
                    assert(r0[k as int].total_time_us < x.total_time_us);
                }
                if a < k && b == k {
                } else if a == k && b > k {
                    assert(r@[b] == r0[b - 1]);
                    if b - 1 > k {
                        assert(r0[k as int].total_time_us >= r0[b - 1].total_time_us);
                    }
                } else if a < k && b > k {
                    assert(r@[b] == r0[b - 1]);
                } else if a > k {
                    assert(r@[a] == r0[a - 1]);
                    assert(r@[b] == r0[b - 1]);
                }
            }
            vstd::seq_lib::to_multiset_insert(r0, k as int, x);
            assert(all.take(i + 1) =~= all.take(i as int).push(x));
            vstd::seq_lib::to_multiset_build(all.take(i as int), x);
        }
        assert(rest@ =~= all.skip(i + 1));
        i = i + 1;
    }
    assert(all.take(n as int) =~= all);
    r
}

impl Default for PerformanceProfiler {
    fn default() -> (p: Self)
        ensures
            p.wf(),
            p@.metrics == Map::<Seq<char>, MetricData>::empty(),
            p@.spans == Map::<u64, SpanModel>::empty(),
            p@.enabled,
    {
        Self::new(true)
    }
}

/// One more sample of `d` microseconds: one more call, `d` more time, one more error exactly
/// when it failed; the fastest time is the smaller of the old one and `d`, the slowest the
/// larger; a first sample makes all three times `d`.
pub proof fn lemma_sample_statistics(prev: Option<MetricData>, d: u64, error: bool)
    requires
        sample_fits(prev, d, error),
    ensures
        ({
            let n = add_sample_spec(prev, d, error);
            &&& n.min_time_us <= d <= n.max_time_us
            &&& (n.min_time_us == d || (prev matches Some(o) && n.min_time_us == o.min_time_us))
            &&& (n.max_time_us == d || (prev matches Some(o) && n.max_time_us == o.max_time_us))
            &&& match prev {
                None => n.total_calls == 1 && n.total_time_us == d && n.min_time_us == d && n.max_time_us == d
                    && n.errors == (if error { 1int } else { 0int }),
                Some(o) => {
                    &&& n.total_calls == o.total_calls + 1
                    &&& n.total_time_us == o.total_time_us + d
                    &&& n.min_time_us <= o.min_time_us
                    &&& n.max_time_us >= o.max_time_us
                    &&& n.errors == o.errors + (if error { 1int } else { 0int })
                },
            }
        }),
{
}

/// The call rate in millionths of calls per second: over a total time of at most one second
/// it is the calls times a million; over a longer time `t` microseconds it is the largest
/// rate `r` with `r * t <= calls * 10^12`; in either case at most `u64::MAX`.
pub proof fn lemma_call_rate(calls: u64, t: u64)
    ensures
        t <= 1_000_000 ==> call_rate_spec(calls, t) == (if calls * 1_000_000 > u64::MAX {
            u64::MAX as int
        } else {
            calls * 1_000_000
        }),
        t > 1_000_000 && call_rate_spec(calls, t) < u64::MAX ==> call_rate_spec(calls, t) * t <= calls
            * 1_000_000_000_000 < (call_rate_spec(calls, t) + 1) * t,
{
    if t > 1_000_000 {
        crate::util::lemma_floor_div(calls * 1_000_000_000_000, t as int);
    }
}

} // verus!

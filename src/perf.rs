use vstd::prelude::*;
use std::collections::VecDeque;
use std::time::{Duration, Instant};

verus! {

/// `std::time::Instant`, a reading of a monotonic clock, carried as an
/// opaque value.
#[verifier::external_type_specification]
#[verifier::external_body]
pub struct ExInstant(std::time::Instant);

/// Relies on `Instant::now`: the current time of a monotonic clock.
pub assume_specification[ std::time::Instant::now ]() -> std::time::Instant;

/// Relies on `Instant::elapsed`: the time since the instant.
pub assume_specification[ std::time::Instant::elapsed ](i: &std::time::Instant) -> std::time::Duration;

/// The samples a monitor keeps of each kind.
pub const MAX_SAMPLES: usize = 120;

/// `s` after recording `d`, keeping at most `max` samples, newest last.
pub open spec fn recorded(s: Seq<Duration>, d: Duration, max: nat) -> Seq<Duration> {
    (if s.len() >= max { s.drop_first() } else { s }).push(d)
}

/// Recent frame, input-latency and render times, while enabled.
pub struct PerfMonitor {
    frame_times: VecDeque<Duration>,
    input_latencies: VecDeque<Duration>,
    render_times: VecDeque<Duration>,
    max_samples: usize,
    enabled: bool,
}

pub struct PerfView {
    pub frame_times: Seq<Duration>,
    pub input_latencies: Seq<Duration>,
    pub render_times: Seq<Duration>,
    pub max_samples: nat,
    pub enabled: bool,
}

impl PerfView {
    pub open spec fn wf(self) -> bool {
        &&& self.max_samples >= 1
        &&& self.frame_times.len() <= self.max_samples
        &&& self.input_latencies.len() <= self.max_samples
        &&& self.render_times.len() <= self.max_samples
    }
}

impl View for PerfMonitor {
    type V = PerfView;

    closed spec fn view(&self) -> PerfView {
        PerfView {
            frame_times: self.frame_times@,
            input_latencies: self.input_latencies@,
            render_times: self.render_times@,
            max_samples: self.max_samples as nat,
            enabled: self.enabled,
        }
    }
}

fn record_sample(samples: &mut VecDeque<Duration>, d: Duration, max: usize)
    requires
        max >= 1,
        old(samples)@.len() <= max,
    ensures
        final(samples)@ == recorded(old(samples)@, d, max as nat),
        final(samples)@.len() <= max,
{
    if samples.len() >= max {
        samples.pop_front();
    }
    samples.push_back(d);
}

fn copy_samples(samples: &VecDeque<Duration>) -> (r: Vec<Duration>)
    ensures
        r@ == samples@,
{
    let mut r: Vec<Duration> = Vec::new();
    let mut i: usize = 0;
    while i < samples.len()
        invariant
            i <= samples@.len(),
            r@ == samples@.take(i as int),
        decreases samples@.len() - i,
    {
        r.push(samples[i]);
        i += 1;
        assert(r@ =~= samples@.take(i as int));
    }
    assert(r@ =~= samples@);
    r
}

impl PerfMonitor {
    /// A disabled monitor with no samples, keeping `MAX_SAMPLES` of each kind.
    pub fn new() -> (r: PerfMonitor)
        ensures
            r@ == (PerfView {
                frame_times: Seq::empty(),
                input_latencies: Seq::empty(),
                render_times: Seq::empty(),
                max_samples: MAX_SAMPLES as nat,
                enabled: false,
            }),
            r@.wf(),
    {
        PerfMonitor {
            frame_times: VecDeque::new(),
            input_latencies: VecDeque::new(),
            render_times: VecDeque::new(),
            max_samples: MAX_SAMPLES,
            enabled: false,
        }
    }

    pub fn set_enabled(&mut self, enabled: bool)
        ensures
            final(self)@ == (PerfView { enabled, ..old(self)@ }),
    {
        self.enabled = enabled;
    }

    pub fn is_enabled(&self) -> (r: bool)
        ensures
            r == self@.enabled,
    {
        self.enabled
    }

    /// Records a frame time, dropping the oldest when full; nothing while
    /// disabled.
    pub fn record_frame(&mut self, duration: Duration)
        requires
            old(self)@.wf(),
        ensures
            final(self)@ == (if old(self)@.enabled {
                PerfView {
                    frame_times: recorded(old(self)@.frame_times, duration, old(self)@.max_samples),
                    ..old(self)@
                }
            } else {
                old(self)@
            }),
            final(self)@.wf(),
    {
        if !self.enabled {
            return;
        }
        record_sample(&mut self.frame_times, duration, self.max_samples);
    }

    /// Records an input latency, dropping the oldest when full; nothing while
    /// disabled.
    pub fn record_input_latency(&mut self, duration: Duration)
        requires
            old(self)@.wf(),
        ensures
            final(self)@ == (if old(self)@.enabled {
                PerfView {
                    input_latencies: recorded(old(self)@.input_latencies, duration, old(self)@.max_samples),
                    ..old(self)@
                }
            } else {
                old(self)@
            }),
            final(self)@.wf(),
    {
        if !self.enabled {
            return;
        }
        record_sample(&mut self.input_latencies, duration, self.max_samples);
    }

    /// Records a render time, dropping the oldest when full; nothing while
    /// disabled.
    pub fn record_render(&mut self, duration: Duration)
        requires
            old(self)@.wf(),
        ensures
            final(self)@ == (if old(self)@.enabled {
                PerfView {
                    render_times: recorded(old(self)@.render_times, duration, old(self)@.max_samples),
                    ..old(self)@
                }
            } else {
                old(self)@
            }),
            final(self)@.wf(),
    {
        if !self.enabled {
            return;
        }
        record_sample(&mut self.render_times, duration, self.max_samples);
    }

    /// The recorded frame times, oldest first.
    pub fn frame_times(&self) -> (r: Vec<Duration>)
        ensures
            r@ == self@.frame_times,
    {
        copy_samples(&self.frame_times)
    }

    /// The recorded input latencies, oldest first.
    pub fn input_latencies(&self) -> (r: Vec<Duration>)
        ensures
            r@ == self@.input_latencies,
    {
        copy_samples(&self.input_latencies)
    }

    /// The recorded render times, oldest first.
    pub fn render_times(&self) -> (r: Vec<Duration>)
        ensures
            r@ == self@.render_times,
    {
        copy_samples(&self.render_times)
    }
}

/// Measures the time since it was made.
pub struct PerfTimer {
    start: Instant,
    name: String,
}

impl PerfTimer {
    /// A timer named `name`, started now.
    pub fn new(name: &str) -> (r: PerfTimer)
        ensures
            r.name()@ == name@,
    {
        PerfTimer { start: Instant::now(), name: name.to_owned() }
    }

    pub closed spec fn name(&self) -> String {
        self.name
    }

    /// The name given at creation.
    pub fn label(&self) -> (r: &str)
        ensures
            r@ == self.name()@,
    {
        self.name.as_str()
    }

    /// The time since the timer was made.
    pub fn elapsed(&self) -> Duration {
        self.start.elapsed()
    }
}

} // verus!

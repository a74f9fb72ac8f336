//! Where the time of one request goes: configuration loading, talking to
//! the daemon, and processing.
use vstd::prelude::*;
use crate::aka::ProcessingMode;
use std::time::Duration;

verus! {

#[verifier::external_type_specification]
#[verifier::external_body]
pub struct ExInstant(std::time::Instant);

#[verifier::external_type_specification]
#[verifier::external_body]
pub struct ExSystemTime(std::time::SystemTime);

/// The current instant, from `std::time::Instant::now`. Nothing is claimed
/// of it.
#[verifier::external_body]
fn instant_now() -> std::time::Instant {
    std::time::Instant::now()
}

/// The time since `start`, from `std::time::Instant::elapsed`. Nothing is
/// claimed of it.
#[verifier::external_body]
fn elapsed_since(start: &std::time::Instant) -> Duration {
    start.elapsed()
}

/// The wall-clock time, from `std::time::SystemTime::now`. Nothing is
/// claimed of it.
#[verifier::external_body]
fn wall_clock_now() -> std::time::SystemTime {
    std::time::SystemTime::now()
}


/// The duration of `nanos` nanoseconds, as `Duration::from_nanos` makes it.
pub uninterp spec fn duration_of_nanos(nanos: u64) -> Duration;

/// The duration of `nanos` nanoseconds, from `std::time::Duration::from_nanos`.
/// The contract claims that the result depends on `nanos` alone, naming it
/// [`duration_of_nanos`].
#[verifier::external_body]
fn duration_from_nanos(nanos: u64) -> (d: Duration)
    ensures
        d == duration_of_nanos(nanos),
{
    Duration::from_nanos(nanos)
}

/// Where the time of one request went.
#[derive(Debug, Clone, Copy)]
pub struct TimingData {
    pub total_duration: Duration,
    pub config_load_duration: Option<Duration>,
    pub ipc_duration: Option<Duration>,
    pub processing_duration: Duration,
    pub mode: ProcessingMode,
    pub timestamp: std::time::SystemTime,
}

/// Collects the timing of one request: each phase that was started is
/// measured up to the moment it is ended or the collection finalized.
#[derive(Debug, Clone, Copy)]
pub struct TimingCollector {
    pub start_time: std::time::Instant,
    pub config_start: Option<std::time::Instant>,
    pub ipc_start: Option<std::time::Instant>,
    pub processing_start: Option<std::time::Instant>,
    pub mode: ProcessingMode,
}

impl TimingCollector {
    /// A collector that starts now, with no phase started.
    pub fn new(mode: ProcessingMode) -> (r: Self)
        ensures
            r.mode == mode,
            r.config_start is None,
            r.ipc_start is None,
            r.processing_start is None,
    {
        TimingCollector {
            start_time: instant_now(),
            config_start: None,
            ipc_start: None,
            processing_start: None,
            mode,
        }
    }

    /// Starts (or restarts) the configuration phase.
    pub fn start_config_load(&mut self)
        ensures
            final(self).config_start is Some,
            final(self).ipc_start == old(self).ipc_start,
            final(self).processing_start == old(self).processing_start,
            final(self).start_time == old(self).start_time,
            final(self).mode == old(self).mode,
    {
        self.config_start = Some(instant_now());
    }

    /// The time since the configuration phase started, if it did.
    pub fn end_config_load(&mut self) -> (r: Option<Duration>)
        ensures
            r is Some <==> old(self).config_start is Some,
            *final(self) == *old(self),
    {
        match &self.config_start {
            Some(start) => Some(elapsed_since(start)),
            None => None,
        }
    }

    /// Starts (or restarts) the phase of talking to the daemon.
    pub fn start_ipc(&mut self)
        ensures
            final(self).ipc_start is Some,
            final(self).config_start == old(self).config_start,
            final(self).processing_start == old(self).processing_start,
            final(self).start_time == old(self).start_time,
            final(self).mode == old(self).mode,
    {
        self.ipc_start = Some(instant_now());
    }

    /// The time since the phase of talking to the daemon started, if it did.
    pub fn end_ipc(&mut self) -> (r: Option<Duration>)
        ensures
            r is Some <==> old(self).ipc_start is Some,
            *final(self) == *old(self),
    {
        match &self.ipc_start {
            Some(start) => Some(elapsed_since(start)),
            None => None,
        }
    }

    /// Starts (or restarts) the processing phase.
    pub fn start_processing(&mut self)
        ensures
            final(self).processing_start is Some,
            final(self).config_start == old(self).config_start,
            final(self).ipc_start == old(self).ipc_start,
            final(self).start_time == old(self).start_time,
            final(self).mode == old(self).mode,
    {
        self.processing_start = Some(instant_now());
    }

    /// The time since the processing phase started, or the duration of no
    /// time if it did not.
    pub fn end_processing(&mut self) -> (r: Duration)
        ensures
            old(self).processing_start is None ==> r == duration_of_nanos(0),
            *final(self) == *old(self),
    {
        match &self.processing_start {
            Some(start) => elapsed_since(start),
            None => duration_from_nanos(0),
        }
    }

    /// The timing of the request: the total so far, each phase that was
    /// started measured up to now, the mode, and the wall-clock time.
    pub fn finalize(self) -> (r: TimingData)
        ensures
            r.mode == self.mode,
            r.config_load_duration is Some <==> self.config_start is Some,
            r.ipc_duration is Some <==> self.ipc_start is Some,
            self.processing_start is None ==> r.processing_duration == duration_of_nanos(0),
    {
        let total_duration = elapsed_since(&self.start_time);
        let config_load_duration = match &self.config_start {
            Some(start) => Some(elapsed_since(start)),
            None => None,
        };
        let ipc_duration = match &self.ipc_start {
            Some(start) => Some(elapsed_since(start)),
            None => None,
        };
        let processing_duration = match &self.processing_start {
            Some(start) => elapsed_since(start),
            None => duration_from_nanos(0),
        };
        TimingData {
            total_duration,
            config_load_duration,
            ipc_duration,
            processing_duration,
            mode: self.mode,
            timestamp: wall_clock_now(),
        }
    }
}

} // verus!

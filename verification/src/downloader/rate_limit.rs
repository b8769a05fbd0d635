//! How long to wait before each download.
use vstd::prelude::*;

verus! {

/// The `download.wait-steps` value used: non-positive values mean 0 (a
/// value beyond `u32` keeps its low 32 bits, as the setting is read), and on
/// なろう a value of 0 or above 10 becomes 10.
pub open spec fn wait_steps_for(raw_wait_steps: i64, is_narou: bool) -> u32 {
    let wait_steps = if raw_wait_steps > 0 {
        raw_wait_steps as u32
    } else {
        0
    };
    if is_narou && (wait_steps == 0 || wait_steps > 10) {
        10
    } else {
        wait_steps
    }
}

/// The `download.wait-steps` value to use for a site.
pub fn normalize_wait_steps(raw_wait_steps: i64, is_narou: bool) -> (r: u32)
    ensures
        r == wait_steps_for(raw_wait_steps, is_narou),
{
    let wait_steps: u32 = if raw_wait_steps > 0 {
        raw_wait_steps as u32
    } else {
        0
    };
    if is_narou && (wait_steps == 0 || wait_steps > 10) {
        10
    } else {
        wait_steps
    }
}

/// The pause before a download.
#[derive(Debug, Clone, Copy, PartialEq, Eq)]
pub enum WaitKind {
    /// The first download of a run: no pause.
    NoWait,
    /// The ordinary interval between downloads.
    Interval,
    /// The longer pause after each `wait_steps` downloads.
    Steps,
}

/// The counter after an idle pause: a pause longer than the step wait starts
/// a new run.
pub open spec fn counter_after_idle(counter: u32, idle_too_long: bool) -> u32 {
    if idle_too_long {
        0
    } else {
        counter
    }
}

/// The pause owed before the next download, given the downloads counted so
/// far in this run.
pub open spec fn wait_kind_for(counter: u32, wait_steps: u32) -> WaitKind {
    if wait_steps > 0 && counter % wait_steps == 0 && counter >= wait_steps {
        WaitKind::Steps
    } else if counter > 0 {
        WaitKind::Interval
    } else {
        WaitKind::NoWait
    }
}

/// Decides the pause before the next download and the counter after it.
/// `idle_too_long` says whether the last download is longer ago than the
/// step wait.
pub fn plan_wait(counter: u32, idle_too_long: bool, wait_steps: u32) -> (r: (WaitKind, u32))
    requires
        counter < u32::MAX,
    ensures
        r.0 == wait_kind_for(counter_after_idle(counter, idle_too_long), wait_steps),
        r.1 == counter_after_idle(counter, idle_too_long) + 1,
{
    let current = if idle_too_long {
        0
    } else {
        counter
    };
    let kind = if wait_steps > 0 && current % wait_steps == 0 && current >= wait_steps {
        WaitKind::Steps
    } else if current > 0 {
        WaitKind::Interval
    } else {
        WaitKind::NoWait
    };
    (kind, current + 1)
}

} // verus!

use vstd::prelude::*;

verus! {

/// How long a value-watching fermata waits between two readings, in milliseconds.
pub const POLL_INTERVAL_MS: u64 = 50u64;

/// How long a value-watching fermata watches before it gives up, in milliseconds.
pub const FERMATA_TIMEOUT_MS: u64 = 30_000u64;

/// Timing for a step in the score.
#[derive(Debug, Clone)]
pub enum Timing {
    Immediate,
    /// After this many milliseconds.
    After(u64),
    /// On this beat number.
    OnBeat(u32),
}

/// A fermata: pause until a condition is met. Thresholds are binary64 values,
/// stored as their bit patterns.
#[derive(Debug, Clone)]
pub enum Fermata {
    UntilValueExceeds { agent: String, threshold: u64 },
    UntilValueBelow { agent: String, threshold: u64 },
    /// Milliseconds.
    ForDuration(u64),
    UntilCount { agent: String, count: usize },
}

/// What happened since the last step of a wait.
pub enum FermataEvent {
    /// The wait begins.
    Started,
    /// The requested sleep is over.
    Slept,
    /// The watched value was read: `met` tells whether it passed the threshold,
    /// `past_deadline` whether the timeout has run out.
    Checked { met: bool, past_deadline: bool },
}

/// What the waiter does next.
#[derive(Debug, Clone, Copy, PartialEq, Eq, Structural)]
pub enum FermataStep {
    /// Sleep this many milliseconds, then report `Slept`.
    Sleep(u64),
    /// Read the watched value, then report `Checked`.
    Check,
    /// The wait is over, with this result.
    Finish(bool),
}

/// The waiting rule of each fermata.
pub open spec fn fermata_rule(f: Fermata, event: FermataEvent) -> FermataStep {
    match f {
        Fermata::ForDuration(ms) => match event {
            FermataEvent::Started => FermataStep::Sleep(ms),
            _ => FermataStep::Finish(true),
        },
        Fermata::UntilCount { .. } => FermataStep::Finish(true),
        _ => match event {
            FermataEvent::Checked { met, past_deadline } => if met {
                FermataStep::Finish(true)
            } else if past_deadline {
                FermataStep::Finish(false)
            } else {
                FermataStep::Sleep(POLL_INTERVAL_MS)
            },
            _ => FermataStep::Check,
        },
    }
}

/// The next step of waiting for `fermata` after `event`.
pub fn fermata_next(fermata: &Fermata, event: FermataEvent) -> (r: FermataStep)
    ensures
        r == fermata_rule(*fermata, event),
{
    match fermata {
        Fermata::ForDuration(ms) => match event {
            FermataEvent::Started => FermataStep::Sleep(*ms),
            _ => FermataStep::Finish(true),
        },
        Fermata::UntilCount { .. } => FermataStep::Finish(true),
        _ => match event {
            FermataEvent::Checked { met, past_deadline } => {
                if met {
                    FermataStep::Finish(true)
                } else if past_deadline {
                    FermataStep::Finish(false)
                } else {
                    FermataStep::Sleep(POLL_INTERVAL_MS)
                }
            },
            _ => FermataStep::Check,
        },
    }
}


/// Watching a value: the wait begins and resumes after each sleep by reading
/// the value; it ends with `true` exactly when the reading passes the
/// threshold, ends with `false` only when the reading does not and the timeout
/// has run out, and otherwise sleeps one poll interval and reads again.
pub proof fn lemma_watch_polls_until_deadline(f: Fermata, met: bool, past_deadline: bool)
    requires
        f is UntilValueExceeds || f is UntilValueBelow,
    ensures
        fermata_rule(f, FermataEvent::Started) == FermataStep::Check,
        fermata_rule(f, FermataEvent::Slept) == FermataStep::Check,
        (fermata_rule(f, FermataEvent::Checked { met, past_deadline }) == FermataStep::Finish(true))
            <==> met,
        (fermata_rule(f, FermataEvent::Checked { met, past_deadline }) == FermataStep::Finish(false))
            <==> (!met && past_deadline),
        !met && !past_deadline ==> fermata_rule(f, FermataEvent::Checked { met, past_deadline })
            == FermataStep::Sleep(POLL_INTERVAL_MS),
{
}

/// A fixed pause sleeps its whole duration once and then ends with `true`;
/// waiting for a count ends at once with `true`.
pub proof fn lemma_duration_and_count(ms: u64, agent: String, count: usize, event: FermataEvent)
    ensures
        fermata_rule(Fermata::ForDuration(ms), FermataEvent::Started) == FermataStep::Sleep(ms),
        !(event is Started) ==> fermata_rule(Fermata::ForDuration(ms), event)
            == FermataStep::Finish(true),
        fermata_rule(Fermata::UntilCount { agent, count }, event) == FermataStep::Finish(true),
{
}

} // verus!

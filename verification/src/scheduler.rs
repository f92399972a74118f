//! A job that runs once a day at a given time of day.
//!
//! The library decides; the program around it reads the clock, sets the
//! timer, waits and runs the job. It tells the schedule what happened, and
//! the schedule answers with what to do next.

use vstd::prelude::*;

verus! {

/// Seconds of one day, the period of the job.
pub const SECONDS_IN_A_DAY: u64 = 86400;

/// Nanoseconds of one second.
pub const NANOS_IN_A_SECOND: u64 = 1_000_000_000;

/// A time of day on the local clock.
#[derive(Clone, Copy, Debug, PartialEq, Eq, Structural)]
pub struct TimeOfDay {
    hour: u32,
    minute: u32,
    second: u32,
    nanosecond: u32,
}

impl TimeOfDay {
    /// Whether the fields are those of a time of day. Every time of day that
    /// a program holds is well formed.
    #[verifier::type_invariant]
    pub closed spec fn wf(self) -> bool {
        &&& self.hour < 24
        &&& self.minute < 60
        &&& self.second < 60
        &&& self.nanosecond < NANOS_IN_A_SECOND
    }

    /// Nanoseconds from midnight to this time.
    pub closed spec fn since_midnight(self) -> int {
        (self.hour * 3600 + self.minute * 60 + self.second) * NANOS_IN_A_SECOND + self.nanosecond
    }

    /// The hour, minute, second and nanosecond of this time.
    pub closed spec fn parts(self) -> (u32, u32, u32, u32) {
        (self.hour, self.minute, self.second, self.nanosecond)
    }

    /// A time that is well formed lies within one day, and is known by its
    /// parts.
    pub proof fn lemma_since_midnight(self)
        requires
            self.wf(),
        ensures
            0 <= self.since_midnight() < SECONDS_IN_A_DAY * NANOS_IN_A_SECOND,
            self.parts().0 < 24,
            self.parts().1 < 60,
            self.parts().2 < 60,
            self.parts().3 < NANOS_IN_A_SECOND,
            self.since_midnight() == (self.parts().0 * 3600 + self.parts().1 * 60
                + self.parts().2) * NANOS_IN_A_SECOND + self.parts().3,
    {
    }

    /// The time of day with these fields, if there is one: the hour is below
    /// 24, minute and second are below 60, and the nanosecond is below one
    /// second.
    pub fn new(hour: u32, minute: u32, second: u32, nanosecond: u32) -> (time: Option<TimeOfDay>)
        ensures
            time is Some <==> hour < 24 && minute < 60 && second < 60 && nanosecond
                < NANOS_IN_A_SECOND,
            time matches Some(t) ==> t.wf() && t.parts() == (hour, minute, second, nanosecond),
    {
        if hour < 24 && minute < 60 && second < 60 && nanosecond < 1_000_000_000 {
            Some(TimeOfDay { hour, minute, second, nanosecond })
        } else {
            None
        }
    }

    /// The hour of this time.
    pub fn hour(&self) -> (hour: u32)
        ensures
            hour == self.parts().0,
    {
        self.hour
    }

    /// The minute of this time.
    pub fn minute(&self) -> (minute: u32)
        ensures
            minute == self.parts().1,
    {
        self.minute
    }

    /// The second of this time.
    pub fn second(&self) -> (second: u32)
        ensures
            second == self.parts().2,
    {
        self.second
    }

    /// The nanosecond of this time.
    pub fn nanosecond(&self) -> (nanosecond: u32)
        ensures
            nanosecond == self.parts().3,
    {
        self.nanosecond
    }
}

/// Why a job cannot be scheduled.
#[derive(Clone, Copy, Debug, PartialEq, Eq, Structural)]
pub enum ScheduleError {
    /// The hour is not below 24.
    InvalidHour,
    /// The minute is not below 60.
    InvalidMinute,
}

/// Nanoseconds from `now` to the next time the clock shows `hour:minute:00`:
/// to that time today, or, where it has passed, to that time on the day
/// after. At that very time the wait is nothing.
pub open spec fn delay_nanos(hour: u32, minute: u32, now: TimeOfDay) -> int {
    let target = (hour * 3600 + minute * 60) * NANOS_IN_A_SECOND;
    if target - now.since_midnight() < 0 {
        target - now.since_midnight() + SECONDS_IN_A_DAY * NANOS_IN_A_SECOND
    } else {
        target - now.since_midnight()
    }
}

/// The whole seconds of `delay_nanos`.
pub open spec fn delay_seconds(hour: u32, minute: u32, now: TimeOfDay) -> int {
    delay_nanos(hour, minute, now) / (NANOS_IN_A_SECOND as int)
}

/// The wait before the first run is never negative and always shorter than a
/// day.
pub proof fn lemma_delay_within_a_day(hour: u32, minute: u32, now: TimeOfDay)
    requires
        hour < 24,
        minute < 60,
        now.wf(),
    ensures
        0 <= delay_nanos(hour, minute, now) < SECONDS_IN_A_DAY * NANOS_IN_A_SECOND,
        0 <= delay_seconds(hour, minute, now) < SECONDS_IN_A_DAY,
{
    now.lemma_since_midnight();
}

/// The wait ends when the clock shows `hour:minute:00`: the time of day of
/// `now` and the wait, taken together and counted within one day, are that
/// time. With the bounds of the wait this says what the wait is.
pub proof fn lemma_delay_reaches_target(hour: u32, minute: u32, now: TimeOfDay)
    requires
        hour < 24,
        minute < 60,
        now.wf(),
    ensures
        (now.since_midnight() + delay_nanos(hour, minute, now)) % (SECONDS_IN_A_DAY
            * NANOS_IN_A_SECOND) as int == (hour * 3600 + minute * 60) * NANOS_IN_A_SECOND,
{
    now.lemma_since_midnight();
}

/// The seconds to wait from `now` until the clock next shows
/// `hour:minute:00`. Parts of a second are dropped.
pub fn initial_delay(hour: u32, minute: u32, now: TimeOfDay) -> (delay: Result<u64, ScheduleError>)
    ensures
        hour >= 24 <==> delay == Err::<u64, ScheduleError>(ScheduleError::InvalidHour),
        hour < 24 && minute >= 60 <==> delay == Err::<u64, ScheduleError>(
            ScheduleError::InvalidMinute,
        ),
        hour < 24 && minute < 60 <==> delay is Ok,
        delay matches Ok(seconds) ==> seconds == delay_seconds(hour, minute, now) && seconds
            < SECONDS_IN_A_DAY,
{
    if hour >= 24 {
        return Err(ScheduleError::InvalidHour);
    }
    if minute >= 60 {
        return Err(ScheduleError::InvalidMinute);
    }
    proof {
        use_type_invariant(&now);
        now.lemma_since_midnight();
        lemma_delay_within_a_day(hour, minute, now);
    }
    let day: u64 = SECONDS_IN_A_DAY * NANOS_IN_A_SECOND;
    let target: u64 = (hour as u64 * 3600 + minute as u64 * 60) * NANOS_IN_A_SECOND;
    let seconds: u64 = now.hour as u64 * 3600 + now.minute as u64 * 60 + now.second as u64;
    let since_midnight: u64 = seconds * NANOS_IN_A_SECOND + now.nanosecond as u64;
    let nanos: u64 = if target < since_midnight {
        target + day - since_midnight
    } else {
        target - since_midnight
    };
    Ok(nanos / NANOS_IN_A_SECOND)
}

/// Where a schedule stands.
#[derive(Clone, Copy, Debug, PartialEq, Eq, Structural)]
pub enum State {
    /// Nothing has happened yet.
    Idle,
    /// The first run is due after `initial_delay` seconds; the timer is being
    /// set.
    Armed { initial_delay: u64 },
    /// The timer is set and its next tick is awaited.
    Waiting,
    /// The job is running. `cancelled` says whether the schedule was told to
    /// end while it ran.
    Firing { cancelled: bool },
    /// The schedule has ended.
    Cancelled,
}

/// What the program tells the schedule.
#[derive(Clone, Copy, Debug, PartialEq, Eq, Structural)]
pub enum Event {
    /// The schedule starts, and the clock shows `now`.
    Start { now: TimeOfDay },
    /// The timer has been set.
    TimerSet,
    /// The timer has ticked.
    Tick,
    /// The job has come to its end; `failed` says whether with an error.
    Fired { failed: bool },
    /// The schedule is to end.
    Cancel,
}

/// What the schedule tells the program to do.
#[derive(Clone, Copy, Debug, PartialEq, Eq, Structural)]
pub enum Action {
    /// Set a timer that ticks first after `initial_delay` seconds and then
    /// every `period` seconds, counted from that first tick.
    SetTimer { initial_delay: u64, period: u64 },
    /// Wait for the next tick of the timer.
    AwaitTick,
    /// Run the job, and wait until it has ended.
    Fire,
    /// Record that the job failed, then wait for the next tick of the timer.
    LogFailureAndAwaitTick,
    /// Let the running job come to its end.
    LetFinish,
    /// Leave the loop.
    Stop,
    /// Give up: the time of day of the job is none.
    Abort { error: ScheduleError },
    /// Nothing: the event means nothing where the schedule stands.
    Ignore,
}

/// A state with the action that led to it.
#[derive(Clone, Copy, Debug, PartialEq, Eq, Structural)]
pub struct Step {
    /// The state after the event.
    pub state: State,
    /// What to do now.
    pub action: Action,
}

/// A job that runs every day when the local clock shows `hour:minute:00`.
#[derive(Clone, Copy, Debug, PartialEq, Eq, Structural)]
pub struct DailyJob {
    /// The hour of the day at which it runs.
    pub hour: u32,
    /// The minute of that hour.
    pub minute: u32,
}

impl DailyJob {
    /// What a schedule in `state` does when `event` happens.
    ///
    /// A schedule starts by setting its timer; a time of day that is none
    /// ends it at once. Each tick runs the job once, and the next tick is
    /// awaited only when the job has ended, whether it failed or not. A
    /// schedule that is told to end does so at once, or, while the job runs,
    /// when the job has ended. An event that does not fit the state changes
    /// nothing.
    pub open spec fn next(self, state: State, event: Event) -> Step {
        match (state, event) {
            (State::Cancelled, _) => Step { state, action: Action::Ignore },
            (State::Firing { cancelled }, Event::Fired { failed }) => if cancelled {
                Step { state: State::Cancelled, action: Action::Stop }
            } else if failed {
                Step { state: State::Waiting, action: Action::LogFailureAndAwaitTick }
            } else {
                Step { state: State::Waiting, action: Action::AwaitTick }
            },
            (State::Firing { cancelled }, Event::Cancel) => Step {
                state: State::Firing { cancelled: true },
                action: Action::LetFinish,
            },
            (_, Event::Cancel) => Step { state: State::Cancelled, action: Action::Stop },
            (State::Idle, Event::Start { now }) => if self.hour >= 24 {
                Step {
                    state: State::Cancelled,
                    action: Action::Abort { error: ScheduleError::InvalidHour },
                }
            } else if self.minute >= 60 {
                Step {
                    state: State::Cancelled,
                    action: Action::Abort { error: ScheduleError::InvalidMinute },
                }
            } else {
                let initial_delay = delay_seconds(self.hour, self.minute, now) as u64;
                Step {
                    state: State::Armed { initial_delay },
                    action: Action::SetTimer { initial_delay, period: SECONDS_IN_A_DAY },
                }
            },
            (State::Armed { initial_delay }, Event::TimerSet) => Step {
                state: State::Waiting,
                action: Action::AwaitTick,
            },
            (State::Waiting, Event::Tick) => Step {
                state: State::Firing { cancelled: false },
                action: Action::Fire,
            },
            _ => Step { state, action: Action::Ignore },
        }
    }

    /// The state after `events`, one after the other, from `state`.
    pub open spec fn state_after(self, state: State, events: Seq<Event>) -> State
        decreases events.len(),
    {
        if events.len() == 0 {
            state
        } else {
            self.next(self.state_after(state, events.drop_last()), events.last()).state
        }
    }

    /// The action that answers the event at index `i` of `events`, for a
    /// schedule that was in `state` before the first of them.
    pub open spec fn action_at(self, state: State, events: Seq<Event>, i: int) -> Action {
        self.next(self.state_after(state, events.take(i)), events[i]).action
    }

    /// The schedule's answer to `event` in `state`.
    pub fn step(&self, state: State, event: Event) -> (step: Step)
        ensures
            step == self.next(state, event),
    {
        match state {
            State::Cancelled => Step { state, action: Action::Ignore },
            State::Firing { cancelled } => match event {
                Event::Fired { failed } => if cancelled {
                    Step { state: State::Cancelled, action: Action::Stop }
                } else if failed {
                    Step { state: State::Waiting, action: Action::LogFailureAndAwaitTick }
                } else {
                    Step { state: State::Waiting, action: Action::AwaitTick }
                },
                Event::Cancel => Step {
                    state: State::Firing { cancelled: true },
                    action: Action::LetFinish,
                },
                _ => Step { state, action: Action::Ignore },
            },
            State::Idle => match event {
                Event::Cancel => Step { state: State::Cancelled, action: Action::Stop },
                Event::Start { now } => match initial_delay(self.hour, self.minute, now) {
                    Ok(initial_delay) => Step {
                        state: State::Armed { initial_delay },
                        action: Action::SetTimer { initial_delay, period: SECONDS_IN_A_DAY },
                    },
                    Err(error) => Step { state: State::Cancelled, action: Action::Abort { error } },
                },
                _ => Step { state, action: Action::Ignore },
            },
            State::Armed { initial_delay } => match event {
                Event::Cancel => Step { state: State::Cancelled, action: Action::Stop },
                Event::TimerSet => Step { state: State::Waiting, action: Action::AwaitTick },
                _ => Step { state, action: Action::Ignore },
            },
            State::Waiting => match event {
                Event::Cancel => Step { state: State::Cancelled, action: Action::Stop },
                Event::Tick => Step {
                    state: State::Firing { cancelled: false },
                    action: Action::Fire,
                },
                _ => Step { state, action: Action::Ignore },
            },
        }
    }

    /// While the job runs, nothing but its end leads out of `Firing`, and no
    /// event starts it again.
    pub proof fn lemma_firing_holds(self, state: State, event: Event)
        requires
            state is Firing,
            !(event is Fired),
        ensures
            self.next(state, event).state is Firing,
            !(self.next(state, event).action is Fire),
    {
    }

    /// The job is started only by a tick that is awaited, and is running from
    /// then on.
    pub proof fn lemma_fire_starts_firing(self, state: State, event: Event)
        requires
            self.next(state, event).action is Fire,
        ensures
            state is Waiting,
            event is Tick,
            self.next(state, event).state is Firing,
    {
    }

    /// No two runs of the job overlap: between two events that start it,
    /// there is the event that says that the first run has ended.
    pub proof fn lemma_no_overlapping_firings(
        self,
        state: State,
        events: Seq<Event>,
        i: int,
        j: int,
    )
        requires
            0 <= i < j < events.len(),
            self.action_at(state, events, i) is Fire,
            self.action_at(state, events, j) is Fire,
        ensures
            exists|k: int| i < k < j && #[trigger] events[k] is Fired,
    {
        self.lemma_fire_starts_firing(self.state_after(state, events.take(i)), events[i]);
        assert(events.take(i + 1).drop_last() =~= events.take(i));
        assert(self.state_after(state, events.take(i + 1)) is Firing);
        if forall|k: int| i < k < j ==> !(#[trigger] events[k] is Fired) {
            self.lemma_stays_firing(state, events, i + 1, j);
            self.lemma_fire_starts_firing(self.state_after(state, events.take(j)), events[j]);
        }
    }

    /// Whether a schedule in `state` is ending or has ended: it was told to
    /// end, and at most lets the running job come to its end.
    pub open spec fn ending(state: State) -> bool {
        state == State::Cancelled || state == (State::Firing { cancelled: true })
    }

    /// A schedule that was told to end is ending, whatever it was doing.
    pub proof fn lemma_cancel_ends(self, state: State)
        ensures
            Self::ending(self.next(state, Event::Cancel).state),
    {
    }

    /// A schedule that is ending stays so, and starts the job no more.
    pub proof fn lemma_ending_holds(self, state: State, event: Event)
        requires
            Self::ending(state),
        ensures
            Self::ending(self.next(state, event).state),
            !(self.next(state, event).action is Fire),
            !(self.next(state, event).action is AwaitTick),
            !(self.next(state, event).action is LogFailureAndAwaitTick),
    {
    }

    /// Once a schedule was told to end, the job is never started again and
    /// no tick is awaited: none of the actions that answer a later event is
    /// `Fire`, `AwaitTick` or `LogFailureAndAwaitTick`.
    pub proof fn lemma_cancel_is_final(self, state: State, events: Seq<Event>, i: int, j: int)
        requires
            0 <= i < j < events.len(),
            events[i] is Cancel,
        ensures
            !(self.action_at(state, events, j) is Fire),
            !(self.action_at(state, events, j) is AwaitTick),
            !(self.action_at(state, events, j) is LogFailureAndAwaitTick),
    {
        assert(events.take(i + 1).drop_last() =~= events.take(i));
        self.lemma_cancel_ends(self.state_after(state, events.take(i)));
        self.lemma_stays_ending(state, events, i + 1, j);
        self.lemma_ending_holds(self.state_after(state, events.take(j)), events[j]);
    }

    proof fn lemma_stays_ending(self, state: State, events: Seq<Event>, from: int, to: int)
        requires
            0 < from <= to <= events.len(),
            Self::ending(self.state_after(state, events.take(from))),
        ensures
            Self::ending(self.state_after(state, events.take(to))),
        decreases to - from,
    {
        if from < to {
            self.lemma_stays_ending(state, events, from, to - 1);
            assert(events.take(to).drop_last() =~= events.take(to - 1));
            self.lemma_ending_holds(self.state_after(state, events.take(to - 1)), events[to - 1]);
        }
    }

    proof fn lemma_stays_firing(self, state: State, events: Seq<Event>, from: int, to: int)
        requires
            0 < from <= to <= events.len(),
            self.state_after(state, events.take(from)) is Firing,
            forall|k: int| from <= k < to ==> !(#[trigger] events[k] is Fired),
        ensures
            self.state_after(state, events.take(to)) is Firing,
        decreases to - from,
    {
        if from < to {
            self.lemma_stays_firing(state, events, from, to - 1);
            assert(events.take(to).drop_last() =~= events.take(to - 1));
            self.lemma_firing_holds(self.state_after(state, events.take(to - 1)), events[to - 1]);
        }
    }
}

} // verus!

use dle_bot::scheduler::{
    initial_delay, Action, DailyJob, Event, ScheduleError, State, Step, TimeOfDay,
    SECONDS_IN_A_DAY,
};

fn at(hour: u32, minute: u32, second: u32, nanosecond: u32) -> TimeOfDay {
    TimeOfDay::new(hour, minute, second, nanosecond).unwrap()
}

#[test]
fn time_of_day_takes_only_what_a_clock_shows() {
    assert!(TimeOfDay::new(0, 0, 0, 0).is_some());
    assert!(TimeOfDay::new(23, 59, 59, 999_999_999).is_some());
    assert!(TimeOfDay::new(24, 0, 0, 0).is_none());
    assert!(TimeOfDay::new(0, 60, 0, 0).is_none());
    assert!(TimeOfDay::new(0, 0, 60, 0).is_none());
    assert!(TimeOfDay::new(0, 0, 0, 1_000_000_000).is_none());
    let time = at(7, 8, 9, 10);
    assert_eq!((time.hour(), time.minute(), time.second(), time.nanosecond()), (7, 8, 9, 10));
}

#[test]
fn delay_to_a_time_later_today() {
    assert_eq!(initial_delay(12, 0, at(11, 0, 0, 0)), Ok(3600));
    assert_eq!(initial_delay(12, 30, at(12, 29, 59, 0)), Ok(1));
    assert_eq!(initial_delay(23, 59, at(0, 0, 0, 0)), Ok(86_340));
}

#[test]
fn delay_to_a_time_that_has_passed_today() {
    assert_eq!(initial_delay(12, 0, at(13, 0, 0, 0)), Ok(82_800));
    assert_eq!(initial_delay(0, 0, at(23, 59, 59, 0)), Ok(1));
    assert_eq!(initial_delay(12, 0, at(12, 0, 1, 0)), Ok(86_399));
}

#[test]
fn delay_at_the_very_time_is_nothing() {
    assert_eq!(initial_delay(12, 0, at(12, 0, 0, 0)), Ok(0));
    assert_eq!(initial_delay(0, 0, at(0, 0, 0, 0)), Ok(0));
}

#[test]
fn delay_just_past_the_time_is_a_day_less_that_moment() {
    assert_eq!(initial_delay(12, 0, at(12, 0, 0, 1)), Ok(86_399));
    assert_eq!(initial_delay(12, 0, at(12, 0, 0, 999_999_999)), Ok(86_399));
}

#[test]
fn delay_drops_parts_of_a_second() {
    assert_eq!(initial_delay(12, 0, at(11, 59, 59, 1)), Ok(0));
    assert_eq!(initial_delay(12, 0, at(11, 59, 58, 500_000_000)), Ok(1));
}

#[test]
fn delay_is_always_shorter_than_a_day() {
    for hour in 0..24 {
        for minute in [0, 1, 30, 59] {
            for now in [at(0, 0, 0, 0), at(hour, minute, 0, 0), at(hour, minute, 0, 1), at(23, 59, 59, 999_999_999)] {
                let delay = initial_delay(hour, minute, now).unwrap();
                assert!(delay < SECONDS_IN_A_DAY);
            }
        }
    }
}

#[test]
fn time_that_no_clock_shows_is_refused() {
    assert_eq!(initial_delay(24, 0, at(1, 0, 0, 0)), Err(ScheduleError::InvalidHour));
    assert_eq!(initial_delay(24, 60, at(1, 0, 0, 0)), Err(ScheduleError::InvalidHour));
    assert_eq!(initial_delay(23, 60, at(1, 0, 0, 0)), Err(ScheduleError::InvalidMinute));
}

#[test]
fn schedule_runs_the_job_tick_by_tick() {
    let job = DailyJob { hour: 12, minute: 0 };
    let step = job.step(State::Idle, Event::Start { now: at(11, 0, 0, 0) });
    assert_eq!(
        step,
        Step {
            state: State::Armed { initial_delay: 3600 },
            action: Action::SetTimer { initial_delay: 3600, period: 86_400 },
        }
    );
    let step = job.step(step.state, Event::TimerSet);
    assert_eq!(step, Step { state: State::Waiting, action: Action::AwaitTick });
    let step = job.step(step.state, Event::Tick);
    assert_eq!(step, Step { state: State::Firing { cancelled: false }, action: Action::Fire });
    let step = job.step(step.state, Event::Fired { failed: false });
    assert_eq!(step, Step { state: State::Waiting, action: Action::AwaitTick });
    let step = job.step(step.state, Event::Tick);
    assert_eq!(step, Step { state: State::Firing { cancelled: false }, action: Action::Fire });
}

#[test]
fn failed_run_does_not_end_the_schedule() {
    let job = DailyJob { hour: 12, minute: 0 };
    assert_eq!(
        job.step(State::Firing { cancelled: false }, Event::Fired { failed: true }),
        Step { state: State::Waiting, action: Action::LogFailureAndAwaitTick }
    );
}

#[test]
fn tick_while_the_job_runs_starts_no_second_run() {
    let job = DailyJob { hour: 12, minute: 0 };
    for cancelled in [false, true] {
        assert_eq!(
            job.step(State::Firing { cancelled }, Event::Tick),
            Step { state: State::Firing { cancelled }, action: Action::Ignore }
        );
    }
}

#[test]
fn cancel_ends_the_schedule_before_its_next_wait() {
    let job = DailyJob { hour: 12, minute: 0 };
    for state in [State::Idle, State::Armed { initial_delay: 5 }, State::Waiting] {
        assert_eq!(
            job.step(state, Event::Cancel),
            Step { state: State::Cancelled, action: Action::Stop }
        );
    }
    let step = job.step(State::Firing { cancelled: false }, Event::Cancel);
    assert_eq!(step, Step { state: State::Firing { cancelled: true }, action: Action::LetFinish });
    for failed in [false, true] {
        assert_eq!(
            job.step(step.state, Event::Fired { failed }),
            Step { state: State::Cancelled, action: Action::Stop }
        );
    }
}

#[test]
fn schedule_that_has_ended_stays_ended() {
    let job = DailyJob { hour: 12, minute: 0 };
    for event in [
        Event::Start { now: at(1, 0, 0, 0) },
        Event::TimerSet,
        Event::Tick,
        Event::Fired { failed: false },
        Event::Cancel,
    ] {
        assert_eq!(
            job.step(State::Cancelled, event),
            Step { state: State::Cancelled, action: Action::Ignore }
        );
    }
}

#[test]
fn job_at_no_time_of_day_is_given_up_at_the_start() {
    assert_eq!(
        DailyJob { hour: 25, minute: 0 }.step(State::Idle, Event::Start { now: at(1, 0, 0, 0) }),
        Step { state: State::Cancelled, action: Action::Abort { error: ScheduleError::InvalidHour } }
    );
    assert_eq!(
        DailyJob { hour: 5, minute: 61 }.step(State::Idle, Event::Start { now: at(1, 0, 0, 0) }),
        Step {
            state: State::Cancelled,
            action: Action::Abort { error: ScheduleError::InvalidMinute },
        }
    );
}

#[test]
fn event_that_does_not_fit_changes_nothing() {
    let job = DailyJob { hour: 12, minute: 0 };
    assert_eq!(job.step(State::Idle, Event::Tick), Step { state: State::Idle, action: Action::Ignore });
    assert_eq!(
        job.step(State::Waiting, Event::Fired { failed: false }),
        Step { state: State::Waiting, action: Action::Ignore }
    );
    assert_eq!(
        job.step(State::Waiting, Event::Start { now: at(1, 0, 0, 0) }),
        Step { state: State::Waiting, action: Action::Ignore }
    );
    assert_eq!(
        job.step(State::Armed { initial_delay: 9 }, Event::Tick),
        Step { state: State::Armed { initial_delay: 9 }, action: Action::Ignore }
    );
}

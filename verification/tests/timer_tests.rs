use icemodoro::setting::SessionType;
use icemodoro::span::Span;
use icemodoro::timer::{
    break_summary, work_summary, Reminder, Timer, TimerState, SUMMARY_COUNT,
};

fn timer_secs(secs: u64) -> Span {
    Span::from_secs(secs)
}

#[test]
fn timer_starts_idle_at_full_work_length() {
    let timer = Timer::new(25, 5, 15, 4);
    assert_eq!(timer.session(), SessionType::Pomodoro);
    assert_eq!(timer.state(), TimerState::Idle);
    assert!(timer.is_idle());
    assert_eq!(timer.remaining(), timer_secs(1500));
    assert_eq!(timer.last_full(), timer_secs(1500));
    assert_eq!(timer.full_length(), timer_secs(1500));
    assert_eq!(timer.overtime(), Span::zero());
    assert_eq!(timer.work_count(), 0);
    assert_eq!(timer.long_break_after(), 4);
    assert_eq!(timer.elapsed_time(), Span::zero());
}

#[test]
fn timer_toggle_starts_and_pauses() {
    let mut timer = Timer::new(25, 5, 15, 4);
    timer.toggle(timer_secs(100));
    assert_eq!(timer.state(), TimerState::Running { deadline: timer_secs(1600) });
    assert!(!timer.is_idle());
    assert_eq!(timer.tick_with(timer_secs(700), 0), None);
    assert_eq!(timer.remaining(), timer_secs(900));
    timer.toggle(timer_secs(705));
    assert_eq!(timer.state(), TimerState::Idle);
    assert_eq!(timer.remaining(), timer_secs(900));
    timer.toggle(timer_secs(1000));
    assert_eq!(timer.state(), TimerState::Running { deadline: timer_secs(1900) });
}

#[test]
fn timer_toggle_deadline_stops_at_the_longest_span() {
    let mut timer = Timer::new(25, 5, 15, 4);
    timer.toggle(Span::longest());
    assert_eq!(timer.state(), TimerState::Running { deadline: Span::longest() });
}

#[test]
fn timer_tick_while_idle_changes_nothing() {
    let mut timer = Timer::new(25, 5, 15, 4);
    assert_eq!(timer.tick_with(timer_secs(5000), 3), None);
    assert_eq!(timer.tick(timer_secs(6000)), None);
    assert_eq!(timer.remaining(), timer_secs(1500));
    assert_eq!(timer.state(), TimerState::Idle);
}

#[test]
fn timer_tick_at_the_deadline_leaves_no_time_but_keeps_counting_down() {
    let mut timer = Timer::new(25, 5, 15, 4);
    timer.toggle(timer_secs(0));
    assert!(!timer.expires(timer_secs(1500)));
    assert_eq!(timer.tick_with(timer_secs(1500), 2), None);
    assert_eq!(timer.remaining(), Span::zero());
    assert_eq!(timer.state(), TimerState::Running { deadline: timer_secs(1500) });
    assert_eq!(timer.elapsed_time(), timer_secs(1500));
}

#[test]
fn timer_tick_past_the_deadline_enters_overtime_with_a_reminder() {
    let mut timer = Timer::new(25, 5, 15, 4);
    timer.toggle(timer_secs(0));
    assert!(timer.expires(timer_secs(1501)));
    let reminder = timer.tick_with(timer_secs(1501), 5);
    assert_eq!(reminder, Some(Reminder { ended: SessionType::Pomodoro, index: 5 }));
    assert_eq!(timer.remaining(), Span::zero());
    assert_eq!(timer.state(), TimerState::Overtime { last_sample: timer_secs(1501) });
    assert_eq!(timer.overtime(), Span::zero());
    assert!(!timer.expires(timer_secs(1600)));
}

#[test]
fn timer_overtime_adds_up_between_readings() {
    let mut timer = Timer::new(25, 5, 15, 4);
    timer.toggle(timer_secs(0));
    timer.tick_with(timer_secs(1501), 0);
    assert_eq!(timer.tick_with(timer_secs(1531), 0), None);
    assert_eq!(timer.overtime(), timer_secs(30));
    assert_eq!(timer.tick_with(timer_secs(1591), 0), None);
    assert_eq!(timer.overtime(), timer_secs(90));
    assert_eq!(timer.state(), TimerState::Overtime { last_sample: timer_secs(1591) });
    // A reading before the last one adds nothing.
    assert_eq!(timer.tick_with(timer_secs(1000), 0), None);
    assert_eq!(timer.overtime(), timer_secs(90));
    assert_eq!(timer.state(), TimerState::Overtime { last_sample: timer_secs(1000) });
}

#[test]
fn timer_time_left_is_the_time_to_the_deadline_on_an_earlier_reading() {
    let mut timer = Timer::new(25, 5, 15, 4);
    timer.toggle(timer_secs(1000));
    timer.tick_with(timer_secs(1100), 0);
    assert_eq!(timer.remaining(), timer_secs(1400));
    timer.tick_with(timer_secs(1050), 0);
    assert_eq!(timer.remaining(), timer_secs(1450));
    assert_eq!(timer.elapsed_time(), timer_secs(50));
}

#[test]
fn timer_time_left_stops_at_the_length_of_the_stretch() {
    let mut timer = Timer::new(25, 5, 15, 4);
    timer.toggle(timer_secs(1000));
    timer.tick_with(timer_secs(1100), 0);
    timer.tick_with(timer_secs(900), 0);
    assert_eq!(timer.remaining(), timer_secs(1500));
    assert_eq!(timer.elapsed_time(), Span::zero());
    timer.tick_with(timer_secs(1600), 0);
    timer.settle();
    assert_eq!(timer.last_full(), timer_secs(900));
    timer.toggle(timer_secs(2000));
    timer.tick_with(timer_secs(1000), 0);
    assert_eq!(timer.remaining(), timer_secs(900));
}

#[test]
fn timer_resumed_after_overtime_counts_down_from_nothing() {
    let mut timer = Timer::new(25, 5, 15, 4);
    timer.toggle(timer_secs(0));
    timer.tick_with(timer_secs(1510), 0);
    timer.tick_with(timer_secs(1540), 0);
    timer.toggle(timer_secs(1550));
    assert_eq!(timer.state(), TimerState::Idle);
    assert_eq!(timer.overtime(), timer_secs(30));
    timer.toggle(timer_secs(1600));
    assert_eq!(timer.state(), TimerState::Running { deadline: timer_secs(1600) });
    assert_eq!(timer.tick_with(timer_secs(1600), 0), None);
    assert_eq!(timer.remaining(), Span::zero());
    assert_eq!(timer.elapsed_time(), timer_secs(1530));
    assert!(timer.tick_with(timer_secs(1601), 0).is_some());
}

#[test]
fn timer_elapsed_is_full_length_less_time_left() {
    let mut timer = Timer::new(25, 5, 15, 4);
    timer.toggle(timer_secs(0));
    timer.tick_with(Span::from_millis(600_500), 0);
    assert_eq!(timer.remaining(), Span::from_millis(899_500));
    assert_eq!(timer.elapsed_time(), Span::from_millis(600_500));
}

#[test]
fn timer_elapsed_with_no_time_left_is_full_length_and_overtime() {
    let mut timer = Timer::new(25, 5, 15, 4);
    timer.toggle(timer_secs(0));
    timer.tick_with(timer_secs(1510), 0);
    timer.tick_with(timer_secs(1600), 0);
    assert_eq!(timer.remaining(), Span::zero());
    assert_eq!(timer.overtime(), timer_secs(90));
    assert_eq!(timer.elapsed_time(), timer_secs(1590));
}

#[test]
fn timer_elapsed_holds_over_many_readings() {
    let mut timer = Timer::new(1, 1, 1, 2);
    timer.toggle(timer_secs(10));
    let mut now = 10u64;
    let mut seed = 12345u64;
    for _ in 0..200 {
        seed = seed.wrapping_mul(6364136223846793005).wrapping_add(1442695040888963407);
        now += (seed >> 33) % 7;
        timer.tick_with(timer_secs(now), 0);
        let elapsed = timer.elapsed_time();
        if timer.remaining().is_zero() {
            assert_eq!(elapsed, timer.last_full().saturating_add(timer.overtime()));
        } else {
            assert_eq!(Some(elapsed), timer.last_full().checked_sub(timer.remaining()));
        }
        assert!(timer.remaining().le(&timer.last_full()));
    }
    assert!(!timer.overtime().is_zero());
}

#[test]
fn timer_reset_returns_to_full_length() {
    let mut timer = Timer::new(25, 5, 15, 4);
    timer.toggle(timer_secs(0));
    timer.tick_with(timer_secs(1600), 0);
    timer.tick_with(timer_secs(1700), 0);
    timer.reset();
    assert_eq!(timer.state(), TimerState::Idle);
    assert_eq!(timer.remaining(), timer_secs(1500));
    assert_eq!(timer.last_full(), timer_secs(1500));
    assert_eq!(timer.overtime(), Span::zero());
    assert_eq!(timer.session(), SessionType::Pomodoro);
}

#[test]
fn timer_finish_work_credits_elapsed_and_goes_to_break() {
    let mut timer = Timer::new(25, 5, 15, 4);
    timer.toggle(timer_secs(0));
    timer.tick_with(timer_secs(600), 0);
    assert_eq!(timer.finish(), Some(timer_secs(600)));
    assert_eq!(timer.session(), SessionType::Break);
    assert_eq!(timer.work_count(), 1);
    assert_eq!(timer.remaining(), timer_secs(300));
    assert_eq!(timer.last_full(), timer_secs(300));
    assert_eq!(timer.state(), TimerState::Idle);
}

#[test]
fn timer_finish_break_credits_nothing_and_returns_to_work() {
    let mut timer = Timer::new(25, 5, 15, 4);
    timer.finish();
    timer.toggle(timer_secs(0));
    timer.tick_with(timer_secs(100), 0);
    assert_eq!(timer.finish(), None);
    assert_eq!(timer.session(), SessionType::Pomodoro);
    assert_eq!(timer.work_count(), 1);
    assert_eq!(timer.remaining(), timer_secs(1500));
}

#[test]
fn timer_long_break_follows_the_configured_number_of_work_segments() {
    let mut timer = Timer::new(25, 5, 15, 4);
    for finished in 1..4u8 {
        timer.finish();
        assert_eq!(timer.session(), SessionType::Break);
        assert_eq!(timer.work_count(), finished);
        timer.finish();
        assert_eq!(timer.session(), SessionType::Pomodoro);
    }
    timer.finish();
    assert_eq!(timer.session(), SessionType::LongBreak);
    assert_eq!(timer.work_count(), 0);
    assert_eq!(timer.remaining(), timer_secs(900));
    timer.finish();
    assert_eq!(timer.session(), SessionType::Pomodoro);
    timer.finish();
    assert_eq!(timer.session(), SessionType::Break);
    assert_eq!(timer.work_count(), 1);
}

#[test]
fn timer_long_break_after_zero_or_one_is_always_long() {
    let mut timer = Timer::new(25, 5, 15, 0);
    timer.finish();
    assert_eq!(timer.session(), SessionType::LongBreak);
    assert_eq!(timer.work_count(), 0);
    let mut timer = Timer::new(25, 5, 15, 1);
    timer.finish();
    assert_eq!(timer.session(), SessionType::LongBreak);
    assert_eq!(timer.work_count(), 0);
}

#[test]
fn timer_long_break_after_the_largest_number_never_overflows() {
    let mut timer = Timer::new(1, 1, 1, 255);
    for finished in 1..255u8 {
        timer.finish();
        assert_eq!(timer.session(), SessionType::Break);
        assert_eq!(timer.work_count(), finished);
        timer.finish();
    }
    timer.finish();
    assert_eq!(timer.session(), SessionType::LongBreak);
    assert_eq!(timer.work_count(), 0);
}

#[test]
fn timer_settle_begins_a_new_stretch_at_the_time_left() {
    let mut timer = Timer::new(25, 5, 15, 4);
    timer.toggle(timer_secs(0));
    timer.tick_with(timer_secs(600), 0);
    timer.settle();
    assert_eq!(timer.state(), TimerState::Idle);
    assert_eq!(timer.remaining(), timer_secs(900));
    assert_eq!(timer.last_full(), timer_secs(900));
    assert_eq!(timer.elapsed_time(), Span::zero());
}

#[test]
fn timer_pause_keeps_what_has_elapsed() {
    let mut timer = Timer::new(25, 5, 15, 4);
    timer.toggle(timer_secs(0));
    timer.tick_with(timer_secs(600), 0);
    timer.pause();
    assert_eq!(timer.state(), TimerState::Idle);
    assert_eq!(timer.elapsed_time(), timer_secs(600));
}

#[test]
fn timer_apply_settings_resets_only_when_idle() {
    let mut timer = Timer::new(25, 5, 15, 4);
    timer.apply_settings(30, 10, 20, 3);
    assert_eq!(timer.remaining(), timer_secs(1800));
    assert_eq!(timer.last_full(), timer_secs(1800));
    assert_eq!(timer.long_break_after(), 3);
    timer.toggle(timer_secs(0));
    timer.tick_with(timer_secs(60), 0);
    timer.apply_settings(50, 1, 2, 2);
    assert_eq!(timer.remaining(), timer_secs(1740));
    assert_eq!(timer.last_full(), timer_secs(1800));
    assert_eq!(timer.state(), TimerState::Running { deadline: timer_secs(1800) });
    assert_eq!(timer.full_length(), timer_secs(3000));
    assert_eq!(timer.long_break_after(), 2);
    timer.finish();
    assert_eq!(timer.session(), SessionType::Break);
    assert_eq!(timer.remaining(), timer_secs(60));
}

#[test]
fn timer_zero_lengths_are_taken_as_they_are() {
    let mut timer = Timer::new(0, 0, 0, 4);
    assert_eq!(timer.remaining(), Span::zero());
    assert_eq!(timer.elapsed_time(), Span::zero());
    timer.toggle(timer_secs(5));
    assert_eq!(timer.tick_with(timer_secs(5), 0), None);
    assert_eq!(
        timer.tick_with(timer_secs(6), 1),
        Some(Reminder { ended: SessionType::Pomodoro, index: 1 })
    );
}

#[test]
fn timer_tick_draws_a_phrase_that_exists() {
    for _ in 0..50 {
        let mut timer = Timer::new(1, 1, 1, 4);
        timer.toggle(timer_secs(0));
        let reminder = timer.tick(timer_secs(61)).unwrap();
        assert_eq!(reminder.ended, SessionType::Pomodoro);
        assert!(reminder.index < SUMMARY_COUNT);
        assert!(reminder.summary().is_some());
    }
}

#[test]
fn timer_reminder_after_a_rest_sends_back_to_work() {
    let mut timer = Timer::new(1, 1, 1, 4);
    timer.finish();
    timer.toggle(timer_secs(0));
    let reminder = timer.tick_with(timer_secs(61), 6).unwrap();
    assert_eq!(reminder.ended, SessionType::Break);
    assert_eq!(
        reminder.summary(),
        Some("Break is gone, energy’s prime, back to work, it’s task time!")
    );
}

#[test]
fn timer_summaries_are_the_fourteen_phrases() {
    assert_eq!(
        break_summary(0),
        Some("Stretch up high, touch the sky. Take a sip, stay fresh and spry.")
    );
    assert_eq!(
        break_summary(6),
        Some("Wiggle free, breathe with glee. Sip your water, let it be.")
    );
    assert_eq!(
        work_summary(0),
        Some("Shake off breaks and take your seat, make your tasks feel light and neat.")
    );
    assert_eq!(
        work_summary(4),
        Some("Mind refreshed, body bright, tackle tasks with all your might.")
    );
    for index in 0..SUMMARY_COUNT {
        assert!(break_summary(index).is_some());
        assert!(work_summary(index).is_some());
        assert_ne!(break_summary(index), work_summary(index));
    }
    assert_eq!(break_summary(7), None);
    assert_eq!(work_summary(7), None);
    let reminder = Reminder { ended: SessionType::Pomodoro, index: 3 };
    assert_eq!(reminder.summary(), break_summary(3));
    let reminder = Reminder { ended: SessionType::LongBreak, index: 3 };
    assert_eq!(reminder.summary(), work_summary(3));
    let reminder = Reminder { ended: SessionType::LongBreak, index: 9 };
    assert_eq!(reminder.summary(), None);
}

//! The timer engine: the countdown of one segment, its run into overtime,
//! and the rotation of work and rest.

use crate::setting::SessionType;
use crate::span::{capped_sum, floored_diff, max_nanos, Span};
use rand::Rng;
use vstd::prelude::*;

verus! {

/// The number of phrases to choose from when a segment runs out.
pub const SUMMARY_COUNT: usize = 7;

/// The nanoseconds of `mins` minutes.
pub open spec fn mins_to_nanos(mins: u8) -> nat {
    (mins * 60 * 1_000_000_000) as nat
}

/// What the timer is doing. Times are spans since a fixed origin that the
/// caller chooses.
#[derive(Clone, Copy, Debug, PartialEq, Eq, Structural)]
pub enum TimerState {
    /// Not counting: the time left is frozen.
    Idle,
    /// Counting down to `deadline`.
    Running { deadline: Span },
    /// The countdown ran out; counting up from reading to reading.
    Overtime { last_sample: Span },
}

/// `TimerState` with its times in nanoseconds.
pub enum Phase {
    Idle,
    Running { deadline: nat },
    Overtime { last_sample: nat },
}

impl View for TimerState {
    type V = Phase;

    open spec fn view(&self) -> Phase {
        match *self {
            TimerState::Idle => Phase::Idle,
            TimerState::Running { deadline } => Phase::Running { deadline: deadline@ },
            TimerState::Overtime { last_sample } => Phase::Overtime { last_sample: last_sample@ },
        }
    }
}

/// The timer as a mathematical value, all spans in nanoseconds.
pub struct TimerView {
    /// The configured length of a work segment.
    pub work: nat,
    /// The configured length of a short rest.
    pub short_break: nat,
    /// The configured length of a long rest.
    pub long_break: nat,
    /// The number of work segments after which the rest is a long one.
    pub long_break_after: u8,
    /// The work segments finished since the last long rest.
    pub work_count: u8,
    /// The kind of the current segment.
    pub session: SessionType,
    /// What the timer is doing.
    pub phase: Phase,
    /// The time left in the current segment.
    pub remaining: nat,
    /// The time that was left when the current stretch of the segment
    /// began: the full length after a reset.
    pub last_full: nat,
    /// The time counted after the countdown ran out.
    pub overtime: nat,
}

impl TimerView {
    /// What every timer satisfies: the time left is within the length of
    /// the stretch, none is left in overtime, and the work counter has room
    /// for one more.
    pub open spec fn wf(self) -> bool {
        &&& self.work <= max_nanos()
        &&& self.short_break <= max_nanos()
        &&& self.long_break <= max_nanos()
        &&& self.remaining <= self.last_full <= max_nanos()
        &&& self.overtime <= max_nanos()
        &&& self.work_count < u8::MAX
        &&& (self.phase is Overtime ==> self.remaining == 0)
    }

    /// The timer to start with, its lengths given in minutes: idle at the
    /// start of a work segment, with no work segment counted.
    pub open spec fn initial(
        work_min: u8,
        break_min: u8,
        long_break_min: u8,
        long_break_after: u8,
    ) -> TimerView {
        TimerView {
            work: mins_to_nanos(work_min),
            short_break: mins_to_nanos(break_min),
            long_break: mins_to_nanos(long_break_min),
            long_break_after,
            work_count: 0,
            session: SessionType::Pomodoro,
            phase: Phase::Idle,
            remaining: mins_to_nanos(work_min),
            last_full: mins_to_nanos(work_min),
            overtime: 0,
        }
    }

    /// The configured length of a segment of the current kind.
    pub open spec fn full_length(self) -> nat {
        match self.session {
            SessionType::Pomodoro => self.work,
            SessionType::Break => self.short_break,
            SessionType::LongBreak => self.long_break,
        }
    }

    /// The time spent in the current stretch: with no time left, the
    /// stretch and the overtime; else the part of the stretch that is gone.
    pub open spec fn elapsed(self) -> nat {
        if self.remaining == 0 {
            capped_sum(self.last_full, self.overtime)
        } else {
            (self.last_full - self.remaining) as nat
        }
    }

    /// Start or pause: an idle timer counts down to `now` and the time
    /// left; any other becomes idle with the time left as it is.
    pub open spec fn toggled(self, now: nat) -> TimerView {
        match self.phase {
            Phase::Idle => TimerView {
                phase: Phase::Running { deadline: capped_sum(now, self.remaining) },
                ..self
            },
            _ => TimerView { phase: Phase::Idle, ..self },
        }
    }

    /// Whether a reading of the clock at `now` finds the countdown run out.
    pub open spec fn expires(self, now: nat) -> bool {
        self.phase matches Phase::Running { deadline } && deadline < now
    }

    /// A reading of the clock at `now`.
    ///
    /// Counting down, the time left becomes the time to the deadline, and
    /// the length of the stretch where that is shorter (as it can only be
    /// on a reading from before the countdown began); past the deadline it
    /// is zero and overtime begins at `now`. In overtime, the time since
    /// the last reading is added, and nothing where `now` is before it. An
    /// idle timer stays as it is.
    pub open spec fn ticked(self, now: nat) -> TimerView {
        match self.phase {
            Phase::Idle => self,
            Phase::Running { deadline } => if now <= deadline {
                TimerView {
                    remaining: if deadline - now <= self.last_full {
                        (deadline - now) as nat
                    } else {
                        self.last_full
                    },
                    ..self
                }
            } else {
                TimerView { remaining: 0, phase: Phase::Overtime { last_sample: now }, ..self }
            },
            Phase::Overtime { last_sample } => TimerView {
                overtime: capped_sum(self.overtime, floored_diff(now, last_sample)),
                phase: Phase::Overtime { last_sample: now },
                ..self
            },
        }
    }

    /// Back to the full length of the current kind of segment, idle.
    pub open spec fn reset(self) -> TimerView {
        TimerView {
            remaining: self.full_length(),
            last_full: self.full_length(),
            overtime: 0,
            phase: Phase::Idle,
            ..self
        }
    }

    /// The kind of the segment that follows the current one.
    pub open spec fn next_session(self) -> SessionType {
        match self.session {
            SessionType::Pomodoro => if self.work_count + 1 >= self.long_break_after {
                SessionType::LongBreak
            } else {
                SessionType::Break
            },
            _ => SessionType::Pomodoro,
        }
    }

    /// The work counter once the current segment is finished.
    pub open spec fn next_work_count(self) -> u8 {
        match self.session {
            SessionType::Pomodoro => if self.work_count + 1 >= self.long_break_after {
                0
            } else {
                (self.work_count + 1) as u8
            },
            _ => self.work_count,
        }
    }

    /// The time that finishing the current segment credits: what has
    /// elapsed of a work segment, nothing of a rest.
    pub open spec fn credit(self) -> Option<nat> {
        if self.session is Pomodoro {
            Some(self.elapsed())
        } else {
            None
        }
    }

    /// The current segment finished: the next kind of segment at its full
    /// length, idle.
    pub open spec fn finished(self) -> TimerView {
        TimerView {
            session: self.next_session(),
            work_count: self.next_work_count(),
            ..self
        }.reset()
    }

    /// A new stretch begins at the time left: what has elapsed is handed
    /// over and forgotten, and the timer is idle.
    pub open spec fn settled(self) -> TimerView {
        TimerView { last_full: self.remaining, overtime: 0, phase: Phase::Idle, ..self }
    }

    /// The timer made idle, with nothing else changed.
    pub open spec fn paused(self) -> TimerView {
        TimerView { phase: Phase::Idle, ..self }
    }

    /// New lengths and a new number of work segments before the long rest.
    /// An idle timer is reset to them; a timer that is counting goes on.
    pub open spec fn configured(
        self,
        work: nat,
        short_break: nat,
        long_break: nat,
        long_break_after: u8,
    ) -> TimerView {
        let next = TimerView { work, short_break, long_break, long_break_after, ..self };
        if self.phase is Idle {
            next.reset()
        } else {
            next
        }
    }

    /// The timer once `n` more work segments are finished, each rest
    /// between them finished too.
    pub open spec fn after_work_segments(self, n: nat) -> TimerView
        decreases n,
    {
        if n == 0 {
            self
        } else {
            let before = self.after_work_segments((n - 1) as nat);
            if before.session is Pomodoro {
                before.finished()
            } else {
                before.finished().finished()
            }
        }
    }

    /// The time left stays within the stretch, and overtime waits for the
    /// end of the countdown, whatever the timer is asked to do.
    pub proof fn lemma_wf_preserved(
        self,
        now: nat,
        work: nat,
        short_break: nat,
        long_break: nat,
        long_break_after: u8,
    )
        requires
            self.wf(),
            work <= max_nanos(),
            short_break <= max_nanos(),
            long_break <= max_nanos(),
        ensures
            self.toggled(now).wf(),
            self.ticked(now).wf(),
            self.reset().wf(),
            self.finished().wf(),
            self.settled().wf(),
            self.paused().wf(),
            self.configured(work, short_break, long_break, long_break_after).wf(),
    {
    }

    /// The moves of the state machine. A toggle starts an idle timer and
    /// makes any other idle. A reading of the clock leaves an idle timer
    /// idle and a timer in overtime in overtime; it takes a timer that
    /// counts down into overtime exactly where the deadline is past.
    /// Resetting, finishing, settling and pausing end idle. New settings
    /// change nothing of what the timer is doing.
    pub proof fn lemma_transitions(
        self,
        now: nat,
        work: nat,
        short_break: nat,
        long_break: nat,
        long_break_after: u8,
    )
        ensures
            self.phase is Idle ==> self.toggled(now).phase is Running,
            !(self.phase is Idle) ==> self.toggled(now).phase is Idle,
            self.phase is Idle ==> self.ticked(now).phase is Idle,
            self.phase is Overtime ==> self.ticked(now).phase is Overtime,
            self.phase is Running ==> (if self.expires(now) {
                self.ticked(now).phase is Overtime
            } else {
                self.ticked(now).phase == self.phase
            }),
            self.reset().phase is Idle,
            self.finished().phase is Idle,
            self.settled().phase is Idle,
            self.paused().phase is Idle,
            self.configured(work, short_break, long_break, long_break_after).phase == self.phase,
    {
    }

    /// Readings of the clock never take overtime back.
    pub proof fn lemma_tick_monotonic(self, now: nat)
        requires
            self.wf(),
        ensures
            self.ticked(now).overtime >= self.overtime,
    {
    }

    /// With no time left, what has elapsed is the stretch and the overtime
    /// (as far as a span can hold it); with time left, it is the stretch
    /// less the time left.
    pub proof fn lemma_elapsed(self)
        requires
            self.wf(),
        ensures
            self.remaining == 0 && self.last_full + self.overtime <= max_nanos()
                ==> self.elapsed() == self.last_full + self.overtime,
            self.remaining == 0 && self.last_full + self.overtime > max_nanos()
                ==> self.elapsed() == max_nanos(),
            self.remaining > 0 ==> self.elapsed() == self.last_full - self.remaining,
            self.elapsed() <= max_nanos(),
    {
    }

    /// From the start of a round of work segments, finishing fewer than
    /// `long_break_after` of them leads to a short rest with that many
    /// counted; finishing `long_break_after` of them leads to the long
    /// rest and a counter of zero.
    pub proof fn lemma_long_break_cycle(self, n: nat)
        requires
            self.wf(),
            self.session is Pomodoro,
            self.work_count == 0,
            0 < n <= self.long_break_after,
        ensures
            n < self.long_break_after ==> {
                &&& self.after_work_segments(n).session is Break
                &&& self.after_work_segments(n).work_count == n
            },
            n == self.long_break_after ==> {
                &&& self.after_work_segments(n).session is LongBreak
                &&& self.after_work_segments(n).work_count == 0
            },
            self.after_work_segments(n).long_break_after == self.long_break_after,
        decreases n,
    {
        if n > 1 {
            self.lemma_long_break_cycle((n - 1) as nat);
        } else {
            assert(self.after_work_segments(0) == self);
        }
    }
}

/// What to tell the user when a countdown runs out: the kind of segment
/// that ended, and which of the phrases for it to show.
#[derive(Clone, Copy, Debug, PartialEq, Eq, Structural)]
pub struct Reminder {
    pub ended: SessionType,
    pub index: usize,
}

/// The phrase with the given number that sends the user to rest.
pub open spec fn spec_break_summary(index: usize) -> Option<Seq<char>> {
    if index == 0 {
        Some("Stretch up high, touch the sky. Take a sip, stay fresh and spry."@)
    } else if index == 1 {
        Some("Bend and sway, greet the day. Drink your water, wash fatigue away."@)
    } else if index == 2 {
        Some("Twist with grace, find your space. Sip some water, keep your pace."@)
    } else if index == 3 {
        Some("Reach and glide, open wide. Hydrate well, feel joy inside."@)
    } else if index == 4 {
        Some("Roll your neck, take a sec. Drink your water, keep your check."@)
    } else if index == 5 {
        Some("Stretch with cheer, far and near. Take a sip, refresh your gear."@)
    } else if index == 6 {
        Some("Wiggle free, breathe with glee. Sip your water, let it be."@)
    } else {
        None
    }
}

/// The phrase with the given number that sends the user back to work.
pub open spec fn spec_work_summary(index: usize) -> Option<Seq<char>> {
    if index == 0 {
        Some("Shake off breaks and take your seat, make your tasks feel light and neat."@)
    } else if index == 1 {
        Some("Stretch was sweet, now tap your keys, move with calm and gentle ease."@)
    } else if index == 2 {
        Some("Sip was done, now face the day, let your work flow in a playful way."@)
    } else if index == 3 {
        Some("Shake the rest from head to toe, dive in now and let ideas grow."@)
    } else if index == 4 {
        Some("Mind refreshed, body bright, tackle tasks with all your might."@)
    } else if index == 5 {
        Some("Take a breath, then start the grind, joy and focus you will find."@)
    } else if index == 6 {
        Some("Break is gone, energy’s prime, back to work, it’s task time!"@)
    } else {
        None
    }
}

/// The phrase with the given number that sends the user to rest.
pub fn break_summary(index: usize) -> (r: Option<&'static str>)
    ensures
        match spec_break_summary(index) {
            Some(text) => r is Some && r->0@ == text,
            None => r is None,
        },
        r is Some <==> index < SUMMARY_COUNT,
{
    if index == 0 {
        Some("Stretch up high, touch the sky. Take a sip, stay fresh and spry.")
    } else if index == 1 {
        Some("Bend and sway, greet the day. Drink your water, wash fatigue away.")
    } else if index == 2 {
        Some("Twist with grace, find your space. Sip some water, keep your pace.")
    } else if index == 3 {
        Some("Reach and glide, open wide. Hydrate well, feel joy inside.")
    } else if index == 4 {
        Some("Roll your neck, take a sec. Drink your water, keep your check.")
    } else if index == 5 {
        Some("Stretch with cheer, far and near. Take a sip, refresh your gear.")
    } else if index == 6 {
        Some("Wiggle free, breathe with glee. Sip your water, let it be.")
    } else {
        None
    }
}

/// The phrase with the given number that sends the user back to work.
pub fn work_summary(index: usize) -> (r: Option<&'static str>)
    ensures
        match spec_work_summary(index) {
            Some(text) => r is Some && r->0@ == text,
            None => r is None,
        },
        r is Some <==> index < SUMMARY_COUNT,
{
    if index == 0 {
        Some("Shake off breaks and take your seat, make your tasks feel light and neat.")
    } else if index == 1 {
        Some("Stretch was sweet, now tap your keys, move with calm and gentle ease.")
    } else if index == 2 {
        Some("Sip was done, now face the day, let your work flow in a playful way.")
    } else if index == 3 {
        Some("Shake the rest from head to toe, dive in now and let ideas grow.")
    } else if index == 4 {
        Some("Mind refreshed, body bright, tackle tasks with all your might.")
    } else if index == 5 {
        Some("Take a breath, then start the grind, joy and focus you will find.")
    } else if index == 6 {
        Some("Break is gone, energy’s prime, back to work, it’s task time!")
    } else {
        None
    }
}

impl Reminder {
    /// The phrase to show: after work one that sends the user to rest,
    /// after a rest one that sends the user back to work.
    pub open spec fn spec_summary(self) -> Option<Seq<char>> {
        match self.ended {
            SessionType::Pomodoro => spec_break_summary(self.index),
            _ => spec_work_summary(self.index),
        }
    }

    /// The phrase to show, where `index` is the number of one.
    pub fn summary(&self) -> (r: Option<&'static str>)
        ensures
            match self.spec_summary() {
                Some(text) => r is Some && r->0@ == text,
                None => r is None,
            },
            r is Some <==> self.index < SUMMARY_COUNT,
    {
        match self.ended {
            SessionType::Pomodoro => break_summary(self.index),
            SessionType::Break => work_summary(self.index),
            SessionType::LongBreak => work_summary(self.index),
        }
    }
}

/// `rand::rng` and `Rng::random_range` over `0..bound`, which is not empty:
/// some number below `bound`, and no more is claimed. The call does not
/// return where the generator of the thread cannot be seeded.
#[verifier::external_body]
fn random_index(bound: usize) -> (index: usize)
    requires
        bound > 0,
    ensures
        index < bound,
{
    rand::rng().random_range(0..bound)
}

/// The timer engine.
#[derive(Clone, Copy, Debug)]
pub struct Timer {
    work_dur: Span,
    break_dur: Span,
    long_break_dur: Span,
    long_break_after: u8,
    work_count: u8,
    session: SessionType,
    state: TimerState,
    remaining: Span,
    last_done: Span,
    overtime: Span,
}

impl View for Timer {
    type V = TimerView;

    closed spec fn view(&self) -> TimerView {
        TimerView {
            work: self.work_dur@,
            short_break: self.break_dur@,
            long_break: self.long_break_dur@,
            long_break_after: self.long_break_after,
            work_count: self.work_count,
            session: self.session,
            phase: self.state@,
            remaining: self.remaining@,
            last_full: self.last_done@,
            overtime: self.overtime@,
        }
    }
}

impl Timer {
    /// What every timer satisfies.
    pub open spec fn wf(&self) -> bool {
        self@.wf()
    }

    proof fn lemma_spans_bounded(&self)
        ensures
            self@.work <= max_nanos(),
            self@.short_break <= max_nanos(),
            self@.long_break <= max_nanos(),
            self@.remaining <= max_nanos(),
            self@.last_full <= max_nanos(),
            self@.overtime <= max_nanos(),
    {
        self.work_dur.lemma_bounded();
        self.break_dur.lemma_bounded();
        self.long_break_dur.lemma_bounded();
        self.remaining.lemma_bounded();
        self.last_done.lemma_bounded();
        self.overtime.lemma_bounded();
    }

    /// A timer with the given lengths in minutes: idle at the start of a
    /// work segment, with no work segment counted.
    pub fn new(work_min: u8, break_min: u8, long_break_min: u8, long_break_after: u8) -> (r: Timer)
        ensures
            r.wf(),
            r@ == TimerView::initial(work_min, break_min, long_break_min, long_break_after),
    {
        let work = Span::from_mins(work_min);
        let r = Timer {
            work_dur: work,
            break_dur: Span::from_mins(break_min),
            long_break_dur: Span::from_mins(long_break_min),
            long_break_after,
            work_count: 0,
            session: SessionType::Pomodoro,
            state: TimerState::Idle,
            remaining: work,
            last_done: work,
            overtime: Span::zero(),
        };
        proof {
            r.lemma_spans_bounded();
        }
        r
    }

    /// The kind of the current segment.
    pub fn session(&self) -> (r: SessionType)
        ensures
            r == self@.session,
    {
        self.session
    }

    /// What the timer is doing.
    pub fn state(&self) -> (r: TimerState)
        ensures
            r@ == self@.phase,
    {
        self.state
    }

    /// Whether the timer is not counting.
    pub fn is_idle(&self) -> (r: bool)
        ensures
            r == (self@.phase is Idle),
    {
        match self.state {
            TimerState::Idle => true,
            _ => false,
        }
    }

    /// The time left in the current segment.
    pub fn remaining(&self) -> (r: Span)
        ensures
            r@ == self@.remaining,
    {
        self.remaining
    }

    /// The time counted after the countdown ran out.
    pub fn overtime(&self) -> (r: Span)
        ensures
            r@ == self@.overtime,
    {
        self.overtime
    }

    /// The time that was left when the current stretch began.
    pub fn last_full(&self) -> (r: Span)
        ensures
            r@ == self@.last_full,
    {
        self.last_done
    }

    /// The work segments finished since the last long rest.
    pub fn work_count(&self) -> (r: u8)
        ensures
            r == self@.work_count,
    {
        self.work_count
    }

    /// The number of work segments after which the rest is a long one.
    pub fn long_break_after(&self) -> (r: u8)
        ensures
            r == self@.long_break_after,
    {
        self.long_break_after
    }

    /// The configured length of a segment of the current kind.
    pub fn full_length(&self) -> (r: Span)
        ensures
            r@ == self@.full_length(),
    {
        match self.session {
            SessionType::Pomodoro => self.work_dur,
            SessionType::Break => self.break_dur,
            SessionType::LongBreak => self.long_break_dur,
        }
    }

    /// The time spent in the current stretch of the segment.
    pub fn elapsed_time(&self) -> (r: Span)
        requires
            self.wf(),
        ensures
            r@ == self@.elapsed(),
            self@.remaining == 0 ==> r@ == capped_sum(self@.last_full, self@.overtime),
            self@.remaining > 0 ==> r@ == self@.last_full - self@.remaining,
    {
        if self.remaining.is_zero() {
            self.last_done.saturating_add(self.overtime)
        } else {
            self.last_done.saturating_sub(self.remaining)
        }
    }

    /// Starts an idle timer at `now`; pauses any other.
    pub fn toggle(&mut self, now: Span)
        requires
            old(self).wf(),
        ensures
            final(self)@ == old(self)@.toggled(now@),
            final(self).wf(),
    {
        match self.state {
            TimerState::Idle => {
                self.state = TimerState::Running { deadline: now.saturating_add(self.remaining) };
            },
            _ => {
                self.state = TimerState::Idle;
            },
        }
    }

    /// Whether a reading of the clock at `now` finds the countdown run out.
    pub fn expires(&self, now: Span) -> (r: bool)
        ensures
            r == self@.expires(now@),
    {
        match self.state {
            TimerState::Running { deadline } => deadline.lt(&now),
            _ => false,
        }
    }

    /// A reading of the clock at `now`, with `index` the number of the
    /// phrase to show should the countdown have run out. The result is the
    /// reminder to show: one exactly where it has.
    pub fn tick_with(&mut self, now: Span, index: usize) -> (r: Option<Reminder>)
        requires
            old(self).wf(),
        ensures
            final(self)@ == old(self)@.ticked(now@),
            final(self).wf(),
            r == (if old(self)@.expires(now@) {
                Some(Reminder { ended: old(self)@.session, index })
            } else {
                None
            }),
    {
        match self.state {
            TimerState::Idle => None,
            TimerState::Running { deadline } => {
                match deadline.checked_sub(now) {
                    Some(left) => {
                        self.remaining = left.min(self.last_done);
                        None
                    },
                    None => {
                        self.remaining = Span::zero();
                        self.state = TimerState::Overtime { last_sample: now };
                        Some(Reminder { ended: self.session, index })
                    },
                }
            },
            TimerState::Overtime { last_sample } => {
                self.overtime = self.overtime.saturating_add(now.saturating_sub(last_sample));
                self.state = TimerState::Overtime { last_sample: now };
                None
            },
        }
    }

    /// A reading of the clock at `now`. Where the countdown has run out, the
    /// result is a reminder with a phrase picked at random.
    pub fn tick(&mut self, now: Span) -> (r: Option<Reminder>)
        requires
            old(self).wf(),
        ensures
            final(self)@ == old(self)@.ticked(now@),
            final(self).wf(),
            r is Some <==> old(self)@.expires(now@),
            r matches Some(reminder) ==> reminder.ended == old(self)@.session && reminder.index
                < SUMMARY_COUNT,
    {
        let index: usize = if self.expires(now) {
            random_index(SUMMARY_COUNT)
        } else {
            0
        };
        self.tick_with(now, index)
    }

    /// Back to the full length of the current kind of segment, idle.
    pub fn reset(&mut self)
        requires
            old(self).wf(),
        ensures
            final(self)@ == old(self)@.reset(),
            final(self).wf(),
    {
        proof {
            self.lemma_spans_bounded();
        }
        self.remaining = self.full_length();
        self.last_done = self.remaining;
        self.overtime = Span::zero();
        self.state = TimerState::Idle;
    }

    /// Finishes the current segment and goes on to the next kind. The
    /// result is the time to credit: what has elapsed of a work segment,
    /// nothing of a rest.
    pub fn finish(&mut self) -> (r: Option<Span>)
        requires
            old(self).wf(),
        ensures
            final(self)@ == old(self)@.finished(),
            final(self).wf(),
            match old(self)@.credit() {
                Some(elapsed) => r is Some && r->0@ == elapsed,
                None => r is None,
            },
    {
        proof {
            self.lemma_spans_bounded();
        }
        let credit = match self.session {
            SessionType::Pomodoro => Some(self.elapsed_time()),
            _ => None,
        };
        match self.session {
            SessionType::Pomodoro => {
                let count: u8 = self.work_count + 1;
                if count >= self.long_break_after {
                    self.work_count = 0;
                    self.session = SessionType::LongBreak;
                } else {
                    self.work_count = count;
                    self.session = SessionType::Break;
                }
            },
            _ => {
                self.session = SessionType::Pomodoro;
            },
        }
        self.reset();
        credit
    }

    /// Begins a new stretch at the time left, idle: what has elapsed is
    /// taken to be handed over.
    pub fn settle(&mut self)
        requires
            old(self).wf(),
        ensures
            final(self)@ == old(self)@.settled(),
            final(self).wf(),
    {
        proof {
            self.lemma_spans_bounded();
        }
        self.last_done = self.remaining;
        self.overtime = Span::zero();
        self.state = TimerState::Idle;
    }

    /// Makes the timer idle.
    pub fn pause(&mut self)
        requires
            old(self).wf(),
        ensures
            final(self)@ == old(self)@.paused(),
            final(self).wf(),
    {
        self.state = TimerState::Idle;
    }

    /// Takes new lengths, in minutes, and a new number of work segments
    /// before the long rest. An idle timer is reset to them; a timer that
    /// is counting goes on undisturbed.
    pub fn apply_settings(
        &mut self,
        work_min: u8,
        break_min: u8,
        long_break_min: u8,
        long_break_after: u8,
    )
        requires
            old(self).wf(),
        ensures
            final(self)@ == old(self)@.configured(
                mins_to_nanos(work_min),
                mins_to_nanos(break_min),
                mins_to_nanos(long_break_min),
                long_break_after,
            ),
            final(self).wf(),
    {
        self.work_dur = Span::from_mins(work_min);
        self.break_dur = Span::from_mins(break_min);
        self.long_break_dur = Span::from_mins(long_break_min);
        self.long_break_after = long_break_after;
        proof {
            self.lemma_spans_bounded();
        }
        if self.is_idle() {
            self.reset();
        }
    }
}

} // verus!

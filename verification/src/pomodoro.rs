//! The timer and the task list together, driven by messages: what the user
//! does, and the readings of the clock.

use crate::setting::{AppTheme, SessionType};
use crate::span::Span;
use crate::tasks::{first_open, open_ids, task_views, Direction, StoreView, Task, TaskStore};
use crate::text::trimmed;
use crate::timer::{mins_to_nanos, Reminder, Timer, TimerView, SUMMARY_COUNT};
use vstd::prelude::*;

verus! {

/// What can happen to the timer and the task list.
#[derive(Clone, Debug)]
pub enum Message {
    /// A reading of the clock.
    Tick(Span),
    Toggle,
    Reset,
    Finish,
    /// The text typed for a new task.
    Input(String),
    Add,
    Clear,
    EndDay,
    Select(u64),
    Complete(u64),
    Delete(u64),
    Edit(u64),
    /// The text typed for the task in editing.
    EditInput(String),
    SaveEdit,
    CancelEdit,
    FocusInput,
    CompleteActive,
    Activate,
    ActiveUp,
    ActiveDown,
    EditActive,
    DeleteActive,
}

/// A key that the user pressed.
#[derive(Clone, Copy, Debug, PartialEq, Eq, Structural)]
pub enum Key {
    Space,
    ArrowUp,
    ArrowDown,
    Character(char),
    Other,
}

/// The field that is to take what the user types next.
#[derive(Clone, Copy, Debug, PartialEq, Eq, Structural)]
pub enum Focus {
    /// No change.
    Keep,
    /// The field for a new task.
    Input,
    /// The field of the task in editing.
    Edit,
}

/// What is left for the caller to do once a message is taken.
#[derive(Clone, Copy, Debug, PartialEq, Eq, Structural)]
pub struct Outcome {
    /// Whether the task list is to be stored.
    pub store: bool,
    /// The field that is to take what the user types next.
    pub focus: Focus,
    /// What to tell the user, where a countdown has run out.
    pub reminder: Option<Reminder>,
}

/// The time between two readings of the clock while the timer counts, in
/// milliseconds.
pub const TICK_MILLIS: u64 = 500;

/// The timer and the task list as a mathematical value.
pub struct PomodoroView {
    pub timer: TimerView,
    pub store: StoreView,
    /// The theme of work segments.
    pub work_theme: AppTheme,
    /// The theme of rests.
    pub break_theme: AppTheme,
    /// The theme in use.
    pub theme: AppTheme,
}

/// Whether the task list is to be stored after `message`: after every
/// message that can change a task.
pub open spec fn changes_tasks(message: Message) -> bool {
    match message {
        Message::Add
        | Message::Clear
        | Message::Finish
        | Message::Complete(_)
        | Message::CompleteActive
        | Message::SaveEdit
        | Message::Delete(_)
        | Message::DeleteActive
        | Message::EndDay => true,
        _ => false,
    }
}

/// The field that takes what the user types after `message`.
pub open spec fn focus_after(message: Message) -> Focus {
    match message {
        Message::FocusInput => Focus::Input,
        Message::EditActive => Focus::Edit,
        _ => Focus::Keep,
    }
}

/// The message that a key stands for.
pub open spec fn spec_shortcut(key: Key) -> Option<Message> {
    match key {
        Key::Space => Some(Message::Toggle),
        Key::ArrowUp => Some(Message::ActiveUp),
        Key::ArrowDown => Some(Message::ActiveDown),
        Key::Character(c) => if c == 'r' {
            Some(Message::Reset)
        } else if c == 'f' {
            Some(Message::Finish)
        } else if c == 'n' {
            Some(Message::FocusInput)
        } else if c == 's' {
            Some(Message::CompleteActive)
        } else if c == 'a' {
            Some(Message::Activate)
        } else if c == 'e' {
            Some(Message::EditActive)
        } else if c == 'd' {
            Some(Message::DeleteActive)
        } else if c == 'x' {
            Some(Message::EndDay)
        } else {
            None
        },
        Key::Other => None,
    }
}

/// The message that a key stands for.
pub fn shortcut(key: Key) -> (r: Option<Message>)
    ensures
        r == spec_shortcut(key),
{
    match key {
        Key::Space => Some(Message::Toggle),
        Key::ArrowUp => Some(Message::ActiveUp),
        Key::ArrowDown => Some(Message::ActiveDown),
        Key::Character(c) => if c == 'r' {
            Some(Message::Reset)
        } else if c == 'f' {
            Some(Message::Finish)
        } else if c == 'n' {
            Some(Message::FocusInput)
        } else if c == 's' {
            Some(Message::CompleteActive)
        } else if c == 'a' {
            Some(Message::Activate)
        } else if c == 'e' {
            Some(Message::EditActive)
        } else if c == 'd' {
            Some(Message::DeleteActive)
        } else if c == 'x' {
            Some(Message::EndDay)
        } else {
            None
        },
        Key::Other => None,
    }
}

impl PomodoroView {
    /// What always holds: of the timer, and of the task list.
    pub open spec fn wf(self) -> bool {
        self.timer.wf() && self.store.wf()
    }

    /// The theme that goes with a kind of segment.
    pub open spec fn theme_for(self, session: SessionType) -> AppTheme {
        match session {
            SessionType::Pomodoro => self.work_theme,
            _ => self.break_theme,
        }
    }

    /// The current segment finished: what has elapsed of a work segment is
    /// credited to the active task, the timer goes on to the next kind of
    /// segment, and the theme follows.
    pub open spec fn finished(self) -> PomodoroView {
        PomodoroView {
            store: match (self.timer.credit(), self.store.active) {
                (Some(elapsed), Some(id)) => self.store.credited(id, elapsed),
                _ => self.store,
            },
            timer: self.timer.finished(),
            theme: self.theme_for(self.timer.next_session()),
            ..self
        }
    }

    /// The task known by `id` chosen; the timer is idle then.
    pub open spec fn selected(self, id: u64) -> PomodoroView {
        PomodoroView { store: self.store.selected(id), timer: self.timer.paused(), ..self }
    }

    /// The task known by `id` turned from completed to not completed or
    /// back, credited with what has elapsed; the timer begins a new stretch,
    /// idle.
    pub open spec fn completed(self, id: u64) -> PomodoroView {
        PomodoroView {
            store: self.store.completed(id, self.timer.elapsed()),
            timer: self.timer.settled(),
            ..self
        }
    }

    /// The active task moved to its neighbour; where there is a move, the
    /// timer is idle then.
    pub open spec fn moved(self, direction: Direction) -> PomodoroView {
        if self.store.active is Some && open_ids(self.store.tasks).len() > 0 {
            PomodoroView { store: self.store.moved(direction), timer: self.timer.paused(), ..self }
        } else {
            self
        }
    }

    /// New lengths, in minutes, and new themes. An idle timer is reset to
    /// them, and the theme in use becomes that of the current kind of
    /// segment; a timer that is counting goes on, in the theme it has.
    pub open spec fn configured(
        self,
        work_min: u8,
        break_min: u8,
        long_break_min: u8,
        long_break_after: u8,
        work_theme: AppTheme,
        break_theme: AppTheme,
    ) -> PomodoroView {
        let next = PomodoroView {
            timer: self.timer.configured(
                mins_to_nanos(work_min),
                mins_to_nanos(break_min),
                mins_to_nanos(long_break_min),
                long_break_after,
            ),
            work_theme,
            break_theme,
            ..self
        };
        if self.timer.phase is Idle {
            PomodoroView { theme: next.theme_for(self.timer.session), ..next }
        } else {
            next
        }
    }

    /// The state after `message`, taken when the clock reads `now`.
    pub open spec fn after(self, message: Message, now: nat) -> PomodoroView {
        match message {
            Message::Tick(at) => PomodoroView { timer: self.timer.ticked(at@), ..self },
            Message::Toggle => PomodoroView { timer: self.timer.toggled(now), ..self },
            Message::Reset => PomodoroView { timer: self.timer.reset(), ..self },
            Message::Finish => self.finished(),
            Message::Input(text) => PomodoroView { store: self.store.typed(text@), ..self },
            Message::Add => PomodoroView {
                store: self.store.added(trimmed(self.store.input)),
                ..self
            },
            Message::Clear => PomodoroView { store: self.store.cleared(), ..self },
            Message::EndDay => PomodoroView { store: self.store.day_ended(), ..self },
            Message::Select(id) => self.selected(id),
            Message::Complete(id) => self.completed(id),
            Message::Delete(id) => PomodoroView { store: self.store.deleted(id), ..self },
            Message::Edit(id) => PomodoroView { store: self.store.edit_begun(id), ..self },
            Message::EditInput(text) => PomodoroView {
                store: self.store.edit_typed(text@),
                ..self
            },
            Message::SaveEdit => PomodoroView {
                store: self.store.edit_saved(
                    match self.store.editing {
                        Some((_, text)) => trimmed(text),
                        None => Seq::empty(),
                    },
                ),
                ..self
            },
            Message::CancelEdit => PomodoroView { store: self.store.edit_cancelled(), ..self },
            Message::FocusInput => self,
            Message::CompleteActive => match self.store.active {
                Some(id) => self.completed(id),
                None => self,
            },
            Message::Activate => match first_open(self.store.tasks) {
                Some(id) => self.selected(id),
                None => self,
            },
            Message::ActiveUp => self.moved(Direction::Up),
            Message::ActiveDown => self.moved(Direction::Down),
            Message::EditActive => match self.store.active {
                Some(id) => PomodoroView { store: self.store.edit_begun(id), ..self },
                None => self,
            },
            Message::DeleteActive => match self.store.active {
                Some(id) => PomodoroView { store: self.store.deleted(id), ..self },
                None => self,
            },
        }
    }

    /// The state after a run of messages, each with the reading of the
    /// clock at which it is taken.
    pub open spec fn after_all(self, messages: Seq<(Message, nat)>) -> PomodoroView
        decreases messages.len(),
    {
        if messages.len() == 0 {
            self
        } else {
            self.after_all(messages.drop_last()).after(messages.last().0, messages.last().1)
        }
    }

    /// Whatever message is taken, the active task, if there is one, is in
    /// the list and not completed, and the timer keeps its bounds.
    pub proof fn lemma_wf_preserved(self, message: Message, now: nat)
        requires
            self.wf(),
        ensures
            self.after(message, now).wf(),
    {
        let nothing = Seq::<char>::empty();
        match message {
            Message::Tick(at) => {
                self.timer.lemma_wf_preserved(at@, 0, 0, 0, 0);
            },
            Message::Toggle => {
                self.timer.lemma_wf_preserved(now, 0, 0, 0, 0);
            },
            Message::Reset => {
                self.timer.lemma_wf_preserved(now, 0, 0, 0, 0);
            },
            Message::Finish => {
                self.lemma_finished_wf();
            },
            Message::Input(text) => {
                self.store.lemma_wf_preserved(0, 0, text@, Direction::Up);
            },
            Message::Add => {
                self.store.lemma_wf_preserved(0, 0, trimmed(self.store.input), Direction::Up);
            },
            Message::Clear => {
                self.store.lemma_wf_preserved(0, 0, nothing, Direction::Up);
            },
            Message::EndDay => {
                self.store.lemma_wf_preserved(0, 0, nothing, Direction::Up);
            },
            Message::Select(id) => {
                self.lemma_selected_wf(id);
            },
            Message::Complete(id) => {
                self.lemma_completed_wf(id);
            },
            Message::Delete(id) => {
                self.store.lemma_wf_preserved(id, 0, nothing, Direction::Up);
            },
            Message::Edit(id) => {
                self.store.lemma_wf_preserved(id, 0, nothing, Direction::Up);
            },
            Message::EditInput(text) => {
                self.store.lemma_wf_preserved(0, 0, text@, Direction::Up);
            },
            Message::SaveEdit => {
                let text = match self.store.editing {
                    Some((_, text)) => trimmed(text),
                    None => nothing,
                };
                self.store.lemma_wf_preserved(0, 0, text, Direction::Up);
            },
            Message::CancelEdit => {
                self.store.lemma_wf_preserved(0, 0, nothing, Direction::Up);
            },
            Message::FocusInput => {},
            Message::CompleteActive => {
                if self.store.active is Some {
                    self.lemma_completed_wf(self.store.active->0);
                }
            },
            Message::Activate => {
                if first_open(self.store.tasks) is Some {
                    self.lemma_selected_wf(first_open(self.store.tasks)->0);
                }
            },
            Message::ActiveUp => {
                self.lemma_moved_wf(Direction::Up);
            },
            Message::ActiveDown => {
                self.lemma_moved_wf(Direction::Down);
            },
            Message::EditActive => {
                if self.store.active is Some {
                    self.store.lemma_wf_preserved(self.store.active->0, 0, nothing, Direction::Up);
                }
            },
            Message::DeleteActive => {
                if self.store.active is Some {
                    self.store.lemma_wf_preserved(self.store.active->0, 0, nothing, Direction::Up);
                }
            },
        }
    }

    proof fn lemma_finished_wf(self)
        requires
            self.wf(),
        ensures
            self.finished().wf(),
    {
        self.timer.lemma_wf_preserved(0, 0, 0, 0, 0);
        if self.timer.credit() is Some && self.store.active is Some {
            self.store.lemma_wf_preserved(
                self.store.active->0,
                self.timer.credit()->0,
                Seq::empty(),
                Direction::Up,
            );
        }
    }

    proof fn lemma_selected_wf(self, id: u64)
        requires
            self.wf(),
        ensures
            self.selected(id).wf(),
    {
        self.timer.lemma_wf_preserved(0, 0, 0, 0, 0);
        self.store.lemma_wf_preserved(id, 0, Seq::empty(), Direction::Up);
    }

    proof fn lemma_completed_wf(self, id: u64)
        requires
            self.wf(),
        ensures
            self.completed(id).wf(),
    {
        self.timer.lemma_wf_preserved(0, 0, 0, 0, 0);
        self.store.lemma_wf_preserved(id, self.timer.elapsed(), Seq::empty(), Direction::Up);
    }

    proof fn lemma_moved_wf(self, direction: Direction)
        requires
            self.wf(),
        ensures
            self.moved(direction).wf(),
    {
        self.timer.lemma_wf_preserved(0, 0, 0, 0, 0);
        self.store.lemma_wf_preserved(0, 0, Seq::empty(), direction);
    }

    /// After any run of messages, the active task, if there is one, is in
    /// the list and not completed.
    pub proof fn lemma_wf_after_all(self, messages: Seq<(Message, nat)>)
        requires
            self.wf(),
        ensures
            self.after_all(messages).wf(),
        decreases messages.len(),
    {
        if messages.len() > 0 {
            self.lemma_wf_after_all(messages.drop_last());
            self.after_all(messages.drop_last()).lemma_wf_preserved(
                messages.last().0,
                messages.last().1,
            );
        }
    }

    /// Whether `message` adds a task: it is `Add`, and the input has more in
    /// it than white space.
    pub open spec fn adds(self, message: Message) -> bool {
        message is Add && trimmed(self.store.input).len() > 0
    }

    /// What a message does to the numbers of the tasks, where every task is
    /// known by a number below the next one and the last number is not
    /// reached.
    ///
    /// Every task is still known by a number below the next one. A message
    /// that adds a task gives it the number that was next, at the end of
    /// the list, and raises the next number by one; no other message
    /// changes the next number. No message makes up a number: every task
    /// afterwards is known by a number that a task was known by before, or
    /// by the number that was next. Numbers that were all different stay
    /// all different, and numbers that grew along the list still do.
    pub proof fn lemma_ids_preserved(self, message: Message, now: nat)
        requires
            self.store.fresh(),
            self.store.next_id < u64::MAX,
        ensures
            self.after(message, now).store.fresh(),
            self.adds(message) ==> {
                &&& self.after(message, now).store.next_id == self.store.next_id + 1
                &&& self.after(message, now).store.tasks.len() == self.store.tasks.len() + 1
                &&& self.after(message, now).store.tasks.last().id == self.store.next_id
            },
            !self.adds(message) ==> self.after(message, now).store.next_id == self.store.next_id,
            StoreView::ids_from(
                self.after(message, now).store.tasks,
                self.store.tasks,
                self.store.next_id,
            ),
            self.store.distinct() ==> self.after(message, now).store.distinct(),
            self.store.ascending() ==> self.after(message, now).store.ascending(),
    {
        self.lemma_store_step(message, now);
        if message is Add {
            let text = trimmed(self.store.input);
            self.store.lemma_ids_fresh(0, 0, text, Direction::Up);
            self.store.lemma_same_ids(0, 0, text, Direction::Up);
            if self.store.distinct() {
                self.store.lemma_ids_distinct(0, 0, text, Direction::Up);
            }
            if self.store.ascending() {
                self.store.lemma_ids_ascend(0, 0, text, Direction::Up);
            }
        } else {
            self.store.lemma_reaches(
                self.after(message, now).store,
                self.step_id(message),
                self.step_time(message),
                self.step_text(message),
                Self::step_direction(message),
            );
        }
    }

    /// The number that `message` is about, if it is about a task.
    spec fn step_id(self, message: Message) -> u64 {
        match message {
            Message::Select(id) => id,
            Message::Complete(id) => id,
            Message::Delete(id) => id,
            Message::Edit(id) => id,
            Message::Activate => match first_open(self.store.tasks) {
                Some(id) => id,
                None => 0,
            },
            _ => match self.store.active {
                Some(id) => id,
                None => 0,
            },
        }
    }

    /// The time that `message` credits, if it credits any.
    spec fn step_time(self, message: Message) -> nat {
        match message {
            Message::Finish => match self.timer.credit() {
                Some(credit) => credit,
                None => 0,
            },
            _ => self.timer.elapsed(),
        }
    }

    /// The text that `message` brings or takes up, if any.
    spec fn step_text(self, message: Message) -> Seq<char> {
        match message {
            Message::Input(text) => text@,
            Message::EditInput(text) => text@,
            Message::Add => trimmed(self.store.input),
            Message::SaveEdit => match self.store.editing {
                Some((_, text)) => trimmed(text),
                None => Seq::empty(),
            },
            _ => Seq::empty(),
        }
    }

    /// The direction that `message` moves in, if it moves.
    spec fn step_direction(message: Message) -> Direction {
        match message {
            Message::ActiveDown => Direction::Down,
            _ => Direction::Up,
        }
    }

    /// What a message does to the task list is one of the things that can
    /// be done to a task list.
    proof fn lemma_store_step(self, message: Message, now: nat)
        ensures
            message is Add ==> self.after(message, now).store == self.store.added(
                self.step_text(message),
            ),
            !(message is Add) ==> self.store.reaches(
                self.after(message, now).store,
                self.step_id(message),
                self.step_time(message),
                self.step_text(message),
                Self::step_direction(message),
            ),
    {
    }

    /// After a run of messages that does not reach the last number, every
    /// task is still known by a number below the next one, which has never
    /// gone down; numbers that were all different are still all different,
    /// and numbers that grew along the list still do.
    pub proof fn lemma_ids_after_all(self, messages: Seq<(Message, nat)>)
        requires
            self.store.fresh(),
            self.store.next_id + messages.len() <= u64::MAX,
        ensures
            self.after_all(messages).store.fresh(),
            self.store.next_id <= self.after_all(messages).store.next_id <= self.store.next_id
                + messages.len(),
            self.store.distinct() ==> self.after_all(messages).store.distinct(),
            self.store.ascending() ==> self.after_all(messages).store.ascending(),
        decreases messages.len(),
    {
        if messages.len() > 0 {
            self.lemma_ids_after_all(messages.drop_last());
            self.after_all(messages.drop_last()).lemma_ids_preserved(
                messages.last().0,
                messages.last().1,
            );
        }
    }

    /// A number once given is not given again, whatever is deleted in
    /// between. In a run of messages that does not reach the last number,
    /// take the state after the first `early` messages and the state after
    /// the first `late`: the next number of the later state is not below
    /// that of the earlier one, and it is above the number of every task
    /// that the earlier state holds. A task added by a later message is
    /// known by that next number, so it is known by a number above those of
    /// all tasks that were ever in the list before, those added earlier in
    /// the run among them.
    pub proof fn lemma_ids_never_given_again(
        self,
        messages: Seq<(Message, nat)>,
        early: int,
        late: int,
    )
        requires
            self.store.fresh(),
            self.store.next_id + messages.len() <= u64::MAX,
            0 <= early <= late <= messages.len(),
        ensures
            self.after_all(messages.take(early)).store.next_id <= self.after_all(
                messages.take(late),
            ).store.next_id,
            forall|i: int|
                0 <= i < self.after_all(messages.take(early)).store.tasks.len() ==> (
                #[trigger] self.after_all(messages.take(early)).store.tasks[i]).id
                    < self.after_all(messages.take(late)).store.next_id,
            late < messages.len() && self.after_all(messages.take(late)).adds(messages[late].0)
                ==> {
                &&& self.after_all(messages.take(late + 1)).store.tasks.last().id
                    == self.after_all(messages.take(late)).store.next_id
                &&& self.after_all(messages.take(late + 1)).store.next_id == self.after_all(
                    messages.take(late),
                ).store.next_id + 1
            },
        decreases late - early,
    {
        let first = self.after_all(messages.take(early));
        let second = self.after_all(messages.take(late));
        self.lemma_ids_after_all(messages.take(early));
        self.lemma_ids_after_all(messages.take(late));
        if early < late {
            let before = messages.take(late - 1);
            assert(messages.take(late).drop_last() =~= before);
            assert(messages.take(late).last() == messages[late - 1]);
            self.lemma_ids_never_given_again(messages, early, late - 1);
            self.lemma_ids_after_all(before);
            self.after_all(before).lemma_ids_preserved(messages[late - 1].0, messages[late - 1].1);
        }
        if late < messages.len() {
            assert(messages.take(late + 1).drop_last() =~= messages.take(late));
            assert(messages.take(late + 1).last() == messages[late]);
            second.lemma_ids_preserved(messages[late].0, messages[late].1);
        }
    }
}

/// The timer and the task list, with the themes of work and rest.
#[derive(Clone, Debug)]
pub struct Pomodoro {
    timer: Timer,
    store: TaskStore,
    work_theme: AppTheme,
    break_theme: AppTheme,
    theme: AppTheme,
}

impl View for Pomodoro {
    type V = PomodoroView;

    closed spec fn view(&self) -> PomodoroView {
        PomodoroView {
            timer: self.timer@,
            store: self.store@,
            work_theme: self.work_theme,
            break_theme: self.break_theme,
            theme: self.theme,
        }
    }
}

impl Pomodoro {
    /// What always holds: of the timer, and of the task list.
    pub open spec fn wf(&self) -> bool {
        self@.wf()
    }

    /// A timer with the given lengths, in minutes, idle at the start of a
    /// work segment and in its theme, and the given tasks, of which the
    /// first that is not completed is active.
    pub fn new(
        work_min: u8,
        break_min: u8,
        long_break_min: u8,
        long_break_after: u8,
        work_theme: AppTheme,
        break_theme: AppTheme,
        tasks: Vec<Task>,
    ) -> (r: Pomodoro)
        ensures
            r.wf(),
            r@ == (PomodoroView {
                timer: TimerView::initial(work_min, break_min, long_break_min, long_break_after),
                store: StoreView::loaded(task_views(tasks@)),
                work_theme,
                break_theme,
                theme: work_theme,
            }),
    {
        Pomodoro {
            timer: Timer::new(work_min, break_min, long_break_min, long_break_after),
            store: TaskStore::new(tasks),
            work_theme,
            break_theme,
            theme: work_theme,
        }
    }

    /// The timer.
    pub fn timer(&self) -> (r: &Timer)
        ensures
            r@ == self@.timer,
    {
        &self.timer
    }

    /// The task list.
    pub fn store(&self) -> (r: &TaskStore)
        ensures
            r@ == self@.store,
    {
        &self.store
    }

    /// The theme in use.
    pub fn theme(&self) -> (r: AppTheme)
        ensures
            r == self@.theme,
    {
        self.theme
    }

    /// The name of the current kind of segment.
    pub fn tab_title(&self) -> (r: String)
        ensures
            r@ == (match self@.timer.session {
                SessionType::Pomodoro => "Pomodoro"@,
                SessionType::Break => "Break"@,
                SessionType::LongBreak => "Long Break"@,
            }),
    {
        match self.timer.session() {
            SessionType::Pomodoro => "Pomodoro".to_owned(),
            SessionType::Break => "Break".to_owned(),
            SessionType::LongBreak => "Long Break".to_owned(),
        }
    }

    /// The time between two readings of the clock that the timer asks for:
    /// none while it is idle.
    pub fn subscription(&self) -> (r: Option<Span>)
        ensures
            r is None <==> self@.timer.phase is Idle,
            r matches Some(period) ==> period@ == TICK_MILLIS * 1_000_000,
    {
        if self.timer.is_idle() {
            None
        } else {
            Some(Span::from_millis(TICK_MILLIS))
        }
    }

    /// The time spent on the completed tasks, as far as a span can hold it,
    /// and their number.
    pub fn get_completed_stats(&self) -> (r: (Span, usize))
        ensures
            r.0@ == self@.store.stats().0,
            r.1 == self@.store.stats().1,
    {
        self.store.completed_stats()
    }

    /// Takes new lengths, in minutes, and new themes. An idle timer is
    /// reset to them and shown in the theme of its kind of segment; a
    /// timer that is counting goes on undisturbed.
    pub fn apply_settings(
        &mut self,
        work_min: u8,
        break_min: u8,
        long_break_min: u8,
        long_break_after: u8,
        work_theme: AppTheme,
        break_theme: AppTheme,
    )
        requires
            old(self).wf(),
        ensures
            final(self)@ == old(self)@.configured(
                work_min,
                break_min,
                long_break_min,
                long_break_after,
                work_theme,
                break_theme,
            ),
            final(self).wf(),
    {
        let idle = self.timer.is_idle();
        self.timer.apply_settings(work_min, break_min, long_break_min, long_break_after);
        self.work_theme = work_theme;
        self.break_theme = break_theme;
        if idle {
            self.theme = match self.timer.session() {
                SessionType::Pomodoro => self.work_theme,
                _ => self.break_theme,
            };
        }
    }

    /// A reading of the clock at `now`. Where the countdown has run out, the
    /// result is a reminder with a phrase picked at random.
    pub fn handle_tick(&mut self, now: Span) -> (r: Option<Reminder>)
        requires
            old(self).wf(),
        ensures
            final(self)@ == (PomodoroView { timer: old(self)@.timer.ticked(now@), ..old(self)@ }),
            final(self).wf(),
            r is Some <==> old(self)@.timer.expires(now@),
            r matches Some(reminder) ==> reminder.ended == old(self)@.timer.session
                && reminder.index < SUMMARY_COUNT,
    {
        self.timer.tick(now)
    }

    /// Starts an idle timer at `now`; pauses any other.
    pub fn toggle_timer(&mut self, now: Span)
        requires
            old(self).wf(),
        ensures
            final(self)@ == (PomodoroView { timer: old(self)@.timer.toggled(now@), ..old(self)@ }),
            final(self).wf(),
    {
        self.timer.toggle(now);
    }

    /// Back to the full length of the current kind of segment, idle.
    pub fn reset_duration(&mut self)
        requires
            old(self).wf(),
        ensures
            final(self)@ == (PomodoroView { timer: old(self)@.timer.reset(), ..old(self)@ }),
            final(self).wf(),
    {
        self.timer.reset();
    }

    /// The time spent in the current stretch of the segment.
    pub fn get_time_spent(&self) -> (r: Span)
        requires
            self.wf(),
        ensures
            r@ == self@.timer.elapsed(),
    {
        self.timer.elapsed_time()
    }

    /// Finishes the current segment: what has elapsed of a work segment is
    /// credited to the active task, and the timer goes on to the next kind
    /// of segment, in its theme.
    pub fn finish_timer(&mut self)
        requires
            old(self).wf(),
        ensures
            final(self)@ == old(self)@.finished(),
            final(self).wf(),
    {
        let credit = self.timer.finish();
        match (credit, self.store.active()) {
            (Some(elapsed), Some(id)) => {
                self.store.credit(id, elapsed);
            },
            _ => {},
        }
        self.theme = match self.timer.session() {
            SessionType::Pomodoro => self.work_theme,
            _ => self.break_theme,
        };
    }

    /// Chooses the active task by its number, and makes the timer idle.
    pub fn select_task(&mut self, id: u64)
        requires
            old(self).wf(),
        ensures
            final(self)@ == old(self)@.selected(id),
            final(self).wf(),
    {
        self.store.select(id);
        self.timer.pause();
    }

    /// Moves the active task to its neighbour among the tasks not
    /// completed; where there is a move, the timer is idle then.
    pub fn move_active(&mut self, direction: Direction)
        requires
            old(self).wf(),
        ensures
            final(self)@ == old(self)@.moved(direction),
            final(self).wf(),
    {
        if self.store.move_active(direction) {
            self.timer.pause();
        }
    }

    /// Turns the task known by `id` from completed to not completed or
    /// back, and credits it with what has elapsed; the timer begins a new
    /// stretch, idle.
    pub fn complete_task(&mut self, id: u64)
        requires
            old(self).wf(),
        ensures
            final(self)@ == old(self)@.completed(id),
            final(self).wf(),
    {
        let elapsed = self.timer.elapsed_time();
        self.store.complete(id, elapsed);
        self.timer.settle();
    }

    /// Takes the task known by `id` into editing.
    pub fn edit_task(&mut self, id: u64)
        requires
            old(self).wf(),
        ensures
            final(self)@ == (PomodoroView { store: old(self)@.store.edit_begun(id), ..old(self)@ }),
            final(self).wf(),
    {
        self.store.edit(id);
    }

    /// Removes the task known by `id`.
    pub fn delete_task(&mut self, id: u64)
        requires
            old(self).wf(),
        ensures
            final(self)@ == (PomodoroView { store: old(self)@.store.deleted(id), ..old(self)@ }),
            final(self).wf(),
    {
        self.store.delete(id);
    }

    /// Takes a message when the clock reads `now`. The result says what is
    /// left to do: whether to store the task list, which field is to take
    /// what the user types, and what to tell the user where a countdown
    /// has run out.
    pub fn update(&mut self, message: Message, now: Span) -> (outcome: Outcome)
        requires
            old(self).wf(),
        ensures
            final(self)@ == old(self)@.after(message, now@),
            final(self).wf(),
            outcome.store == changes_tasks(message),
            outcome.focus == focus_after(message),
            outcome.reminder is Some <==> (message matches Message::Tick(at) && old(
                self,
            )@.timer.expires(at@)),
            outcome.reminder matches Some(reminder) ==> reminder.ended == old(self)@.timer.session
                && reminder.index < SUMMARY_COUNT,
    {
        let mut outcome = Outcome { store: false, focus: Focus::Keep, reminder: None };
        match message {
            Message::Tick(at) => {
                outcome.reminder = self.handle_tick(at);
            },
            Message::Toggle => {
                self.toggle_timer(now);
            },
            Message::Reset => {
                self.reset_duration();
            },
            Message::Finish => {
                self.finish_timer();
                outcome.store = true;
            },
            Message::Input(text) => {
                self.store.set_input(text);
            },
            Message::Add => {
                self.store.add();
                outcome.store = true;
            },
            Message::Clear => {
                self.store.clear_all();
                outcome.store = true;
            },
            Message::EndDay => {
                self.store.end_day();
                outcome.store = true;
            },
            Message::Select(id) => {
                self.select_task(id);
            },
            Message::Complete(id) => {
                self.complete_task(id);
                outcome.store = true;
            },
            Message::Delete(id) => {
                self.delete_task(id);
                outcome.store = true;
            },
            Message::Edit(id) => {
                self.edit_task(id);
            },
            Message::EditInput(text) => {
                self.store.edit_input(text);
            },
            Message::SaveEdit => {
                self.store.save_edit();
                outcome.store = true;
            },
            Message::CancelEdit => {
                self.store.cancel_edit();
            },
            Message::FocusInput => {
                outcome.focus = Focus::Input;
            },
            Message::CompleteActive => {
                match self.store.active() {
                    Some(id) => {
                        self.complete_task(id);
                    },
                    None => {},
                }
                outcome.store = true;
            },
            Message::Activate => {
                match crate::tasks::first_incomplete(self.store.tasks()) {
                    Some(id) => {
                        self.select_task(id);
                    },
                    None => {},
                }
            },
            Message::ActiveUp => {
                self.move_active(Direction::Up);
            },
            Message::ActiveDown => {
                self.move_active(Direction::Down);
            },
            Message::EditActive => {
                match self.store.active() {
                    Some(id) => {
                        self.edit_task(id);
                    },
                    None => {},
                }
                outcome.focus = Focus::Edit;
            },
            Message::DeleteActive => {
                match self.store.active() {
                    Some(id) => {
                        self.delete_task(id);
                    },
                    None => {},
                }
                outcome.store = true;
            },
        }
        outcome
    }
}

} // verus!

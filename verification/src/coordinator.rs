//! The coordinator: it owns the settings, the timer with its task list and
//! the report ledger, hands each message to the part it is meant for, and
//! decides when a day's totals go into the ledger and when new settings
//! reach the timer.

use crate::date::nameable;
use crate::pomodoro::{changes_tasks, focus_after, Focus, Outcome, Pomodoro, PomodoroView};
use crate::report::{Action, LedgerView, Report};
use crate::setting::{AppTheme, Settings};
use crate::span::Span;
use crate::tasks::{task_views, StoreView, Task};
use crate::timer::{TimerView, SUMMARY_COUNT};
use vstd::prelude::*;

verus! {

/// The three tabs of the window.
#[derive(Clone, Copy, Debug, PartialEq, Eq, Structural)]
pub enum TabId {
    Pomodoro,
    Setting,
    Report,
}

/// Everything that can happen: a change of tab, or a message for one of
/// the three parts.
#[derive(Clone, Debug)]
pub enum Message {
    TabSelected(TabId),
    NavigateTabForward,
    NavigateTabBackward,
    Pomodoro(crate::pomodoro::Message),
    Settings(crate::setting::Message),
    Report(crate::report::Message),
}

/// What is left for the caller to do once a message is taken.
#[derive(Clone, Copy, Debug, PartialEq, Eq, Structural)]
pub struct Effects {
    /// Whether the task list is to be stored.
    pub store_tasks: bool,
    /// Whether the settings are to be stored.
    pub store_settings: bool,
    /// What is to be done about the ledger, if anything.
    pub report: Option<Action>,
    /// The field that is to take what the user types next.
    pub focus: Focus,
    /// What to tell the user, where a countdown has run out.
    pub reminder: Option<crate::timer::Reminder>,
}

/// The tab after `tab`, the first following the last.
pub open spec fn next_tab(tab: TabId) -> TabId {
    match tab {
        TabId::Pomodoro => TabId::Setting,
        TabId::Setting => TabId::Report,
        TabId::Report => TabId::Pomodoro,
    }
}

/// The tab before `tab`, the last preceding the first.
pub open spec fn previous_tab(tab: TabId) -> TabId {
    match tab {
        TabId::Pomodoro => TabId::Report,
        TabId::Setting => TabId::Pomodoro,
        TabId::Report => TabId::Setting,
    }
}

/// The message that the tabulator key stands for: back with the shift key
/// held, forward without.
pub fn tab_key(shift: bool) -> (r: Message)
    ensures
        shift ==> r is NavigateTabBackward,
        !shift ==> r is NavigateTabForward,
{
    if shift {
        Message::NavigateTabBackward
    } else {
        Message::NavigateTabForward
    }
}

/// The whole state as a mathematical value.
pub struct AppView {
    pub active_tab: TabId,
    pub pomodoro: PomodoroView,
    pub settings: Settings,
    pub report: LedgerView,
}

impl AppView {
    /// What always holds: of the timer and its task list, and of the
    /// ledger.
    pub open spec fn wf(self) -> bool {
        self.pomodoro.wf() && self.report.wf()
    }

    /// Whether `message` ends a day on which a task was completed, so that
    /// the day's totals go into the ledger.
    pub open spec fn closes_day(self, message: crate::pomodoro::Message) -> bool {
        message is EndDay && self.pomodoro.store.stats().1 > 0
    }

    /// The state after `message`, taken when the clock reads `now` on the
    /// day `today`.
    ///
    /// A change of tab changes the tab. A message for the timer and its
    /// task list goes there; where it ends a day on which a task was
    /// completed, the totals of the completed tasks are first recorded in
    /// the ledger, and the report tab is shown. A message for the settings
    /// goes there; where it submits them, they are first applied to the
    /// timer as they stand, and the timer's tab is shown. A message for the
    /// ledger goes there.
    pub open spec fn after(self, message: Message, now: nat, today: int) -> AppView {
        match message {
            Message::TabSelected(tab) => AppView { active_tab: tab, ..self },
            Message::NavigateTabForward => AppView {
                active_tab: next_tab(self.active_tab),
                ..self
            },
            Message::NavigateTabBackward => AppView {
                active_tab: previous_tab(self.active_tab),
                ..self
            },
            Message::Pomodoro(inner) => AppView {
                report: if self.closes_day(inner) {
                    self.report.generated(
                        today,
                        self.pomodoro.store.stats().0,
                        self.pomodoro.store.stats().1,
                    )
                } else {
                    self.report
                },
                active_tab: if self.closes_day(inner) {
                    TabId::Report
                } else {
                    self.active_tab
                },
                pomodoro: self.pomodoro.after(inner, now),
                ..self
            },
            Message::Settings(inner) => AppView {
                pomodoro: if inner is Submit {
                    self.pomodoro.configured(
                        self.settings.work_min,
                        self.settings.break_min,
                        self.settings.long_break_min,
                        self.settings.long_break_after,
                        self.settings.work_theme,
                        self.settings.break_theme,
                    )
                } else {
                    self.pomodoro
                },
                active_tab: if inner is Submit {
                    TabId::Pomodoro
                } else {
                    self.active_tab
                },
                settings: self.settings.after(inner),
                ..self
            },
            Message::Report(inner) => AppView { report: self.report.after(inner, today), ..self },
        }
    }

    /// What is left to do after `message`, but for the reminder.
    pub open spec fn effects_after(self, message: Message) -> Effects {
        match message {
            Message::Pomodoro(inner) => Effects {
                store_tasks: changes_tasks(inner),
                store_settings: false,
                report: if self.closes_day(inner) {
                    Some(Action::Store)
                } else {
                    None
                },
                focus: focus_after(inner),
                reminder: None,
            },
            Message::Settings(inner) => Effects {
                store_tasks: false,
                store_settings: inner is Submit,
                report: None,
                focus: Focus::Keep,
                reminder: None,
            },
            Message::Report(inner) => Effects {
                store_tasks: false,
                store_settings: false,
                report: Some(LedgerView::action_after(inner)),
                focus: Focus::Keep,
                reminder: None,
            },
            _ => Effects {
                store_tasks: false,
                store_settings: false,
                report: None,
                focus: Focus::Keep,
                reminder: None,
            },
        }
    }

    /// Whether a reading of the clock in `message` finds the countdown run
    /// out.
    pub open spec fn reminds(self, message: Message) -> bool {
        message matches Message::Pomodoro(crate::pomodoro::Message::Tick(at))
            && self.pomodoro.timer.expires(at@)
    }

    /// Whatever message is taken, the parts keep what always holds of
    /// them.
    pub proof fn lemma_wf_preserved(self, message: Message, now: nat, today: int)
        requires
            self.wf(),
        ensures
            self.after(message, now, today).wf(),
    {
        match message {
            Message::Pomodoro(inner) => {
                self.pomodoro.lemma_wf_preserved(inner, now);
                self.report.lemma_generated(
                    today,
                    self.pomodoro.store.stats().0,
                    self.pomodoro.store.stats().1,
                );
            },
            Message::Settings(inner) => {
                self.pomodoro.timer.lemma_wf_preserved(
                    0,
                    crate::timer::mins_to_nanos(self.settings.work_min),
                    crate::timer::mins_to_nanos(self.settings.break_min),
                    crate::timer::mins_to_nanos(self.settings.long_break_min),
                    self.settings.long_break_after,
                );
            },
            Message::Report(inner) => {
                match inner {
                    crate::report::Message::Generate { focused, completed } => {
                        self.report.lemma_generated(today, focused@, completed as nat);
                    },
                    _ => {},
                }
            },
            _ => {},
        }
    }
}

/// The whole state: the tab shown, the timer with its task list, the
/// settings and the ledger.
#[derive(Clone, Debug)]
pub struct App {
    active_tab: TabId,
    pomodoro: Pomodoro,
    settings: Settings,
    report: Report,
}

impl View for App {
    type V = AppView;

    closed spec fn view(&self) -> AppView {
        AppView {
            active_tab: self.active_tab,
            pomodoro: self.pomodoro@,
            settings: self.settings,
            report: self.report@,
        }
    }
}

impl App {
    /// What always holds.
    pub open spec fn wf(&self) -> bool {
        self@.wf()
    }

    /// The state to start with, from what was stored: settings, tasks and
    /// ledger, each replaced by its default where nothing was stored. The
    /// timer is set up from the settings, and its tab is shown.
    pub fn new(settings: Option<Settings>, tasks: Vec<Task>, report: Option<Report>) -> (r: App)
        requires
            report matches Some(ledger) ==> ledger.wf(),
        ensures
            r.wf(),
            r@.active_tab == TabId::Pomodoro,
            r@.settings == (match settings {
                Some(stored) => stored,
                None => Settings::initial(),
            }),
            r@.pomodoro == (PomodoroView {
                timer: TimerView::initial(
                    r@.settings.work_min,
                    r@.settings.break_min,
                    r@.settings.long_break_min,
                    r@.settings.long_break_after,
                ),
                store: StoreView::loaded(task_views(tasks@)),
                work_theme: r@.settings.work_theme,
                break_theme: r@.settings.break_theme,
                theme: r@.settings.work_theme,
            }),
            r@.report == (match report {
                Some(ledger) => ledger@,
                None => LedgerView::empty(),
            }),
    {
        let settings = Settings::new(settings);
        let pomodoro = Pomodoro::new(
            settings.work_min,
            settings.break_min,
            settings.long_break_min,
            settings.long_break_after,
            settings.work_theme,
            settings.break_theme,
            tasks,
        );
        App { active_tab: TabId::Pomodoro, pomodoro, settings, report: Report::new(report) }
    }

    /// The tab shown.
    pub fn active_tab(&self) -> (r: TabId)
        ensures
            r == self@.active_tab,
    {
        self.active_tab
    }

    /// The timer with its task list.
    pub fn pomodoro(&self) -> (r: &Pomodoro)
        ensures
            r@ == self@.pomodoro,
    {
        &self.pomodoro
    }

    /// The settings.
    pub fn settings(&self) -> (r: Settings)
        ensures
            r == self@.settings,
    {
        self.settings
    }

    /// The ledger.
    pub fn report(&self) -> (r: &Report)
        ensures
            r@ == self@.report,
    {
        &self.report
    }

    /// The theme in use: that of the timer.
    pub fn theme(&self) -> (r: AppTheme)
        ensures
            r == self@.pomodoro.theme,
    {
        self.pomodoro.theme()
    }

    /// The time between two readings of the clock that the timer asks for:
    /// none while it is idle.
    pub fn subscription(&self) -> (r: Option<Span>)
        ensures
            r is None <==> self@.pomodoro.timer.phase is Idle,
            r matches Some(period) ==> period@ == crate::pomodoro::TICK_MILLIS * 1_000_000,
    {
        self.pomodoro.subscription()
    }

    /// Puts `data` in the place of the ledger, records and all.
    pub fn import_report(&mut self, data: Report)
        requires
            old(self).wf(),
            data.wf(),
        ensures
            final(self)@ == (AppView { report: data@, ..old(self)@ }),
            final(self).wf(),
    {
        self.report.import_replace(data);
    }

    /// Takes a message when the clock reads `now`. A day that ends is
    /// recorded for the current day of the machine's calendar. The result
    /// says what is left to do.
    pub fn update(&mut self, message: Message, now: Span) -> (effects: Effects)
        requires
            old(self).wf(),
        ensures
            exists|today: int|
                nameable(today) && final(self)@ == old(self)@.after(message, now@, today),
            final(self).wf(),
            effects == (Effects {
                reminder: effects.reminder,
                ..old(self)@.effects_after(message)
            }),
            effects.reminder is Some <==> old(self)@.reminds(message),
            effects.reminder matches Some(reminder) ==> reminder.ended == old(
                self,
            )@.pomodoro.timer.session && reminder.index < SUMMARY_COUNT,
    {
        let mut effects = Effects {
            store_tasks: false,
            store_settings: false,
            report: None,
            focus: Focus::Keep,
            reminder: None,
        };
        let ghost mut day: int = 0;
        match message {
            Message::TabSelected(tab) => {
                self.active_tab = tab;
            },
            Message::NavigateTabForward => {
                self.active_tab = match self.active_tab {
                    TabId::Pomodoro => TabId::Setting,
                    TabId::Setting => TabId::Report,
                    TabId::Report => TabId::Pomodoro,
                };
            },
            Message::NavigateTabBackward => {
                self.active_tab = match self.active_tab {
                    TabId::Pomodoro => TabId::Report,
                    TabId::Setting => TabId::Pomodoro,
                    TabId::Report => TabId::Setting,
                };
            },
            Message::Pomodoro(inner) => {
                let ends_day = match &inner {
                    crate::pomodoro::Message::EndDay => true,
                    _ => false,
                };
                if ends_day {
                    let (focused, completed) = self.pomodoro.get_completed_stats();
                    if completed > 0 {
                        let ghost before = self.report@;
                        let action = self.report.update(
                            crate::report::Message::Generate { focused, completed },
                        );
                        proof {
                            day = choose|today: int|
                                nameable(today) && self.report@ == before.after(
                                    crate::report::Message::Generate { focused, completed },
                                    today,
                                );
                        }
                        effects.report = Some(action);
                        self.active_tab = TabId::Report;
                    }
                }
                let outcome = self.pomodoro.update(inner, now);
                effects.store_tasks = outcome.store;
                effects.focus = outcome.focus;
                effects.reminder = outcome.reminder;
            },
            Message::Settings(inner) => {
                let submit = match &inner {
                    crate::setting::Message::Submit => true,
                    _ => false,
                };
                if submit {
                    self.pomodoro.apply_settings(
                        self.settings.work_min,
                        self.settings.break_min,
                        self.settings.long_break_min,
                        self.settings.long_break_after,
                        self.settings.work_theme,
                        self.settings.break_theme,
                    );
                    self.active_tab = TabId::Pomodoro;
                }
                effects.store_settings = self.settings.update(inner);
            },
            Message::Report(inner) => {
                let ghost before = self.report@;
                let action = self.report.update(inner);
                proof {
                    day = choose|today: int|
                        nameable(today) && self.report@ == before.after(inner, today);
                }
                effects.report = Some(action);
            },
        }
        proof {
            assert(nameable(day) && self@ == old(self)@.after(message, now@, day));
        }
        effects
    }
}

} // verus!

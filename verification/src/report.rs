//! The report ledger: what was achieved on each day, the longest run of
//! days in a row, and the longest time focused on one day.

use crate::date::{day_before, nameable, Date, FIRST_DAY, LAST_DAY};
use crate::search::{first_match, lemma_first_match, lemma_first_match_is};
use crate::span::{capped_sum, Span};
use vstd::prelude::*;

verus! {

/// What was achieved on one day.
#[derive(Clone, Copy, Debug, PartialEq, Eq, Structural)]
pub struct DayReport {
    /// The day.
    pub date: Date,
    /// The time spent on the tasks completed on it.
    pub focused: Span,
    /// The number of tasks completed on it.
    pub completed: usize,
}

/// A day's report as a mathematical value: the day as its number, the time
/// in nanoseconds.
pub struct DayView {
    pub date: int,
    pub focused: nat,
    pub completed: nat,
}

impl View for DayReport {
    type V = DayView;

    open spec fn view(&self) -> DayView {
        DayView { date: self.date@, focused: self.focused@, completed: self.completed as nat }
    }
}

/// What the user can do to the ledger.
#[derive(Clone, Copy, Debug)]
pub enum Message {
    Generate { focused: Span, completed: usize },
    Clear,
    Import,
    Export,
}

/// What is left for the caller to do once the ledger has taken a message.
#[derive(Clone, Copy, Debug, PartialEq, Eq, Structural)]
pub enum Action {
    /// The ledger has changed: store it.
    Store,
    /// Let the user pick a stored ledger, and hand it to `import_replace`.
    Import,
    /// Let the user pick a place, and store the ledger there.
    Export,
}

/// The views of the reports of a history, in its order.
pub open spec fn day_views(history: Seq<DayReport>) -> Seq<DayView> {
    history.map_values(|day: DayReport| day@)
}

/// The reports of `date` and of later days.
pub open spec fn not_before(date: int) -> spec_fn(DayView) -> bool {
    |day: DayView| day.date >= date
}

/// A number of tasks as far as a counter can hold it.
pub open spec fn capped_count(count: nat) -> nat {
    if count <= usize::MAX {
        count
    } else {
        usize::MAX as nat
    }
}

/// The larger of two numbers.
pub open spec fn larger(a: nat, b: nat) -> nat {
    if a >= b {
        a
    } else {
        b
    }
}

/// Whether the days of a history grow from each report to the next, so
/// that no day has two reports.
pub open spec fn ascending(history: Seq<DayView>) -> bool {
    forall|i: int, j: int|
        0 <= i < j < history.len() ==> (#[trigger] history[i]).date < (#[trigger] history[j]).date
}

/// The number of reports at the end of the history that are of `day`, of
/// the day before it, and so on back without a gap. It is zero where there
/// is no day to look for.
pub open spec fn streak_ending(history: Seq<DayView>, day: Option<int>) -> nat
    decreases history.len(),
{
    if history.len() > 0 && day == Some(history.last().date) {
        1 + streak_ending(history.drop_last(), day_before(history.last().date))
    } else {
        0
    }
}

/// The ledger as a mathematical value.
pub struct LedgerView {
    /// The reports, one for a day, the earliest day first.
    pub history: Seq<DayView>,
    /// The longest run of days in a row that was ever seen.
    pub longest_streak: nat,
    /// The longest time focused on one day that was ever seen.
    pub longest_focused: nat,
}

impl LedgerView {
    /// What every ledger satisfies: the days of the history grow from each
    /// report to the next.
    pub open spec fn wf(self) -> bool {
        ascending(self.history)
    }

    /// The ledger with nothing in it.
    pub open spec fn empty() -> LedgerView {
        LedgerView { history: Seq::empty(), longest_streak: 0, longest_focused: 0 }
    }

    /// The place of the report of `date`, or where one would have to go.
    pub open spec fn place_of(self, date: int) -> int {
        first_match(self.history, not_before(date), 0)
    }

    /// Whether the history has a report of `date`.
    pub open spec fn has(self, date: int) -> bool {
        self.place_of(date) < self.history.len() && self.history[self.place_of(date)].date == date
    }

    /// The time focused on `date` as the history has it; nothing where it
    /// has no report of that day.
    pub open spec fn focused_on(self, date: int) -> nat {
        if self.has(date) {
            self.history[self.place_of(date)].focused
        } else {
            0
        }
    }

    /// The number of tasks completed on `date` as the history has it.
    pub open spec fn completed_on(self, date: int) -> nat {
        if self.has(date) {
            self.history[self.place_of(date)].completed
        } else {
            0
        }
    }

    /// The run of days in a row that ends with `today`.
    pub open spec fn current_streak(self, today: int) -> nat {
        streak_ending(self.history, Some(today))
    }

    /// The ledger once `focused` and `completed` are recorded for `today`.
    ///
    /// Where the history has a report of `today`, both are added to it.
    /// Where it has none, a report of `today` goes in at its place among
    /// the days, and the longest run becomes the run that ends today if
    /// that is longer. Either way the longest focused time becomes that of
    /// today's report if that is longer.
    pub open spec fn generated(self, today: int, focused: nat, completed: nat) -> LedgerView {
        let at = self.place_of(today);
        if self.has(today) {
            let merged = DayView {
                date: today,
                focused: capped_sum(self.history[at].focused, focused),
                completed: capped_count(self.history[at].completed + completed),
            };
            LedgerView {
                history: self.history.update(at, merged),
                longest_streak: self.longest_streak,
                longest_focused: larger(self.longest_focused, merged.focused),
            }
        } else {
            let history = self.history.insert(at, DayView { date: today, focused, completed });
            LedgerView {
                history,
                longest_streak: larger(self.longest_streak, streak_ending(history, Some(today))),
                longest_focused: larger(self.longest_focused, focused),
            }
        }
    }

    /// The ledger after `message`, taken on the day `today`: `Generate`
    /// records for today, `Clear` empties the ledger, and the other two
    /// leave it as it is.
    pub open spec fn after(self, message: Message, today: int) -> LedgerView {
        match message {
            Message::Generate { focused, completed } => self.generated(
                today,
                focused@,
                completed as nat,
            ),
            Message::Clear => LedgerView::empty(),
            Message::Import => self,
            Message::Export => self,
        }
    }

    /// What is left to do after `message`.
    pub open spec fn action_after(message: Message) -> Action {
        match message {
            Message::Generate { .. } => Action::Store,
            Message::Clear => Action::Store,
            Message::Import => Action::Import,
            Message::Export => Action::Export,
        }
    }

    /// The ledger made of the given parts, where the days of the history
    /// grow from each report to the next.
    pub open spec fn from_parts(
        history: Seq<DayView>,
        longest_streak: nat,
        longest_focused: nat,
    ) -> Option<LedgerView> {
        if ascending(history) {
            Some(LedgerView { history, longest_streak, longest_focused })
        } else {
            None
        }
    }

    /// A ledger taken apart and made of its parts again is the same
    /// ledger: history and records.
    pub proof fn lemma_parts_round_trip(self)
        requires
            self.wf(),
        ensures
            Self::from_parts(self.history, self.longest_streak, self.longest_focused) == Some(self),
    {
    }

    /// In a history whose days grow, the report of a day is found at the
    /// place of the first report that is not of an earlier day, and nowhere
    /// else.
    pub proof fn lemma_lookup(self, date: int)
        requires
            self.wf(),
        ensures
            0 <= self.place_of(date) <= self.history.len(),
            forall|i: int|
                0 <= i < self.history.len() ==> ((#[trigger] self.history[i]).date == date <==> (
                self.has(date) && i == self.place_of(date))),
            forall|i: int|
                0 <= i < self.place_of(date) ==> (#[trigger] self.history[i]).date < date,
            forall|i: int|
                self.place_of(date) <= i < self.history.len() ==> (#[trigger] self.history[i]).date
                    >= date,
    {
        lemma_first_match(self.history, not_before(date), 0);
    }

    /// Recording a day keeps the days of the history growing, never takes
    /// a report away, and never lowers the two records.
    pub proof fn lemma_generated(self, today: int, focused: nat, completed: nat)
        requires
            self.wf(),
        ensures
            self.generated(today, focused, completed).wf(),
            self.generated(today, focused, completed).has(today),
            self.generated(today, focused, completed).place_of(today) == self.place_of(today),
            self.generated(today, focused, completed).history.len() == if self.has(today) {
                self.history.len()
            } else {
                self.history.len() + 1
            },
            self.generated(today, focused, completed).longest_streak >= self.longest_streak,
            self.generated(today, focused, completed).longest_focused >= self.longest_focused,
            self.generated(today, focused, completed).longest_focused >= self.generated(
                today,
                focused,
                completed,
            ).focused_on(today),
    {
        self.lemma_lookup(today);
        let after = self.generated(today, focused, completed);
        lemma_first_match_is(after.history, not_before(today), self.place_of(today));
    }

    /// Recording twice for one day leaves one report of that day, which
    /// holds what the history had of the day and both of what was recorded
    /// (as far as a span and a counter can hold them).
    pub proof fn lemma_generated_twice(
        self,
        today: int,
        focused_1: nat,
        completed_1: nat,
        focused_2: nat,
        completed_2: nat,
    )
        requires
            self.wf(),
            self.focused_on(today) + focused_1 + focused_2 <= crate::span::max_nanos(),
            self.completed_on(today) + completed_1 + completed_2 <= usize::MAX,
        ensures
            ({
                let once = self.generated(today, focused_1, completed_1);
                let twice = once.generated(today, focused_2, completed_2);
                &&& twice.wf()
                &&& twice.history.len() == once.history.len()
                &&& twice.has(today)
                &&& twice.focused_on(today) == self.focused_on(today) + focused_1 + focused_2
                &&& twice.completed_on(today) == self.completed_on(today) + completed_1
                    + completed_2
                &&& forall|i: int|
                    0 <= i < twice.history.len() && (#[trigger] twice.history[i]).date == today
                        ==> i == twice.place_of(today)
            }),
    {
        let once = self.generated(today, focused_1, completed_1);
        self.lemma_generated(today, focused_1, completed_1);
        once.lemma_generated(today, focused_2, completed_2);
        let twice = once.generated(today, focused_2, completed_2);
        twice.lemma_lookup(today);
    }

    /// The run that ends with `today` is made of the last reports of the
    /// history: they are of today, of yesterday, and so on, one day apart;
    /// and the report before them, if there is one, is not of the day
    /// before the first of the run.
    pub proof fn lemma_streak_is_run(self, today: int)
        requires
            FIRST_DAY <= today <= LAST_DAY,
        ensures
            self.current_streak(today) <= self.history.len(),
            forall|k: int|
                0 <= k < self.current_streak(today) ==> (#[trigger] self.history[self.history.len()
                    - 1 - k]).date == today - k,
            self.current_streak(today) < self.history.len() ==> self.history[self.history.len() - 1
                - self.current_streak(today)].date != today - self.current_streak(today)
                || today - self.current_streak(today) < FIRST_DAY,
        decreases self.history.len(),
    {
        let history = self.history;
        if history.len() > 0 && history.last().date == today {
            let rest = LedgerView { history: history.drop_last(), ..self };
            if today > FIRST_DAY {
                rest.lemma_streak_is_run(today - 1);
                let inner = rest.current_streak(today - 1);
                assert forall|k: int| 0 <= k < self.current_streak(today) implies (
                #[trigger] history[history.len() - 1 - k]).date == today - k by {
                    if k > 0 {
                        assert(rest.history[rest.history.len() - 1 - (k - 1)].date == today - 1 - (k
                            - 1));
                    }
                }
                if self.current_streak(today) < history.len() {
                    assert(rest.history[rest.history.len() - 1 - inner] == history[history.len() - 1
                        - self.current_streak(today)]);
                }
            } else {
                assert(streak_ending(history.drop_last(), None) == 0);
            }
        }
    }
}

/// The ledger.
#[derive(Clone, Debug)]
pub struct Report {
    history: Vec<DayReport>,
    longest_streak: usize,
    longest_focused: Span,
}

impl View for Report {
    type V = LedgerView;

    closed spec fn view(&self) -> LedgerView {
        LedgerView {
            history: day_views(self.history@),
            longest_streak: self.longest_streak as nat,
            longest_focused: self.longest_focused@,
        }
    }
}

impl Default for Report {
    fn default() -> (r: Report)
        ensures
            r@ == LedgerView::empty(),
            r.wf(),
    {
        let r = Report {
            history: Vec::new(),
            longest_streak: 0,
            longest_focused: Span::zero(),
        };
        proof {
            assert(r@.history =~= Seq::<DayView>::empty());
        }
        r
    }
}

impl Report {
    /// What every ledger satisfies.
    pub open spec fn wf(&self) -> bool {
        self@.wf()
    }

    /// The ledger to start with: the one that was stored, or, where there
    /// is none, an empty one.
    pub fn new(stored: Option<Report>) -> (r: Report)
        requires
            stored matches Some(ledger) ==> ledger.wf(),
        ensures
            r.wf(),
            match stored {
                Some(ledger) => r == ledger,
                None => r@ == LedgerView::empty(),
            },
    {
        match stored {
            Some(ledger) => ledger,
            None => Report::default(),
        }
    }

    /// The ledger made of the given parts, where the days of the history
    /// grow from each report to the next; none where they do not. The two
    /// records are taken as they are given.
    pub fn from_parts(history: Vec<DayReport>, longest_streak: usize, longest_focused: Span) -> (r:
        Option<Report>)
        ensures
            match LedgerView::from_parts(
                day_views(history@),
                longest_streak as nat,
                longest_focused@,
            ) {
                Some(view) => r matches Some(ledger) && ledger@ == view && ledger.wf(),
                None => r is None,
            },
    {
        let ghost days = day_views(history@);
        let mut i: usize = 1;
        while i < history.len()
            invariant
                1 <= i,
                days == day_views(history@),
                forall|a: int, b: int|
                    0 <= a < b < i && b < days.len() ==> (#[trigger] days[a]).date < (
                    #[trigger] days[b]).date,
            decreases history.len() - i,
        {
            if !history[i - 1].date.is_before(&history[i].date) {
                proof {
                    assert(!(days[i - 1].date < days[i as int].date));
                }
                return None;
            }
            i += 1;
        }
        Some(Report { history, longest_streak, longest_focused })
    }

    /// The parts of the ledger: the history and the two records. Handed to
    /// `from_parts`, they make the same ledger again.
    pub fn to_parts(&self) -> (r: (Vec<DayReport>, usize, Span))
        requires
            self.wf(),
        ensures
            LedgerView::from_parts(day_views(r.0@), r.1 as nat, r.2@) == Some(self@),
    {
        let mut history: Vec<DayReport> = Vec::new();
        let mut i: usize = 0;
        while i < self.history.len()
            invariant
                0 <= i <= self.history.len(),
                history@ == self.history@.take(i as int),
            decreases self.history.len() - i,
        {
            history.push(self.history[i]);
            i += 1;
        }
        proof {
            assert(self.history@.take(i as int) =~= self.history@);
        }
        (history, self.longest_streak, self.longest_focused)
    }

    /// The reports, one for a day, the earliest day first.
    pub fn history(&self) -> (r: &Vec<DayReport>)
        ensures
            day_views(r@) == self@.history,
    {
        &self.history
    }

    /// The longest run of days in a row that was ever seen.
    pub fn longest_streak(&self) -> (r: usize)
        ensures
            r == self@.longest_streak,
    {
        self.longest_streak
    }

    /// The longest time focused on one day that was ever seen.
    pub fn longest_focused(&self) -> (r: Span)
        ensures
            r@ == self@.longest_focused,
    {
        self.longest_focused
    }

    /// The time focused on `date` as the history has it; nothing where it
    /// has no report of that day.
    pub fn focused_on(&self, date: Date) -> (r: Span)
        requires
            self.wf(),
        ensures
            r@ == self@.focused_on(date@),
    {
        let at = self.place_of(date);
        if at < self.history.len() && self.history[at].date.days() == date.days() {
            self.history[at].focused
        } else {
            Span::zero()
        }
    }

    /// The place of the report of `date`, or where one would have to go.
    fn place_of(&self, date: Date) -> (at: usize)
        ensures
            at == self@.place_of(date@),
            at <= self.history.len(),
    {
        let mut i: usize = 0;
        while i < self.history.len()
            invariant
                0 <= i <= self.history.len(),
                forall|j: int| 0 <= j < i ==> !not_before(date@)(#[trigger] self@.history[j]),
            decreases self.history.len() - i,
        {
            if !self.history[i].date.is_before(&date) {
                proof {
                    lemma_first_match_is(self@.history, not_before(date@), i as int);
                }
                return i;
            }
            i += 1;
        }
        proof {
            lemma_first_match_is(self@.history, not_before(date@), i as int);
        }
        i
    }

    /// The run of days in a row that ends with `today`: the number of
    /// reports at the end of the history that are of today, of yesterday,
    /// and so on back without a gap.
    pub fn calculate_current_streak(&self, today: Date) -> (streak: usize)
        ensures
            streak == self@.current_streak(today@),
    {
        let ghost history = self@.history;
        let mut streak: usize = 0;
        let mut expected: Option<Date> = Some(today);
        let mut i: usize = self.history.len();
        let mut going = true;
        proof {
            assert(history.take(i as int) =~= history);
        }
        while going && i > 0
            invariant
                0 <= i <= self.history.len(),
                history == self@.history,
                streak + i <= self.history.len(),
                self@.current_streak(today@) == streak + streak_ending(
                    history.take(i as int),
                    match expected {
                        Some(day) => Some(day@),
                        None => None,
                    },
                ),
                !going ==> streak_ending(
                    history.take(i as int),
                    match expected {
                        Some(day) => Some(day@),
                        None => None,
                    },
                ) == 0,
            decreases i + if going { 1int } else { 0int },
        {
            proof {
                assert(history.take(i as int).drop_last() =~= history.take(i - 1));
            }
            match expected {
                Some(day) => {
                    if self.history[i - 1].date.days() == day.days() {
                        streak += 1;
                        expected = day.previous();
                        i -= 1;
                    } else {
                        going = false;
                    }
                },
                None => {
                    going = false;
                },
            }
        }
        streak
    }

    /// Records `focused` and `completed` for `today`: added to the report
    /// of today, or as a new report at its place among the days; and
    /// raises the two records where today's run or today's focused time is
    /// above them.
    pub fn generate(&mut self, today: Date, focused: Span, completed: usize)
        requires
            old(self).wf(),
        ensures
            final(self)@ == old(self)@.generated(today@, focused@, completed as nat),
            final(self).wf(),
            final(self)@.longest_streak >= old(self)@.longest_streak,
            final(self)@.longest_focused >= old(self)@.longest_focused,
    {
        proof {
            self@.lemma_generated(today@, focused@, completed as nat);
            self@.lemma_lookup(today@);
        }
        let at = self.place_of(today);
        let known = at < self.history.len() && self.history[at].date.days() == today.days();
        let current = if known {
            let day = &mut self.history[at];
            day.focused = day.focused.saturating_add(focused);
            day.completed = day.completed.saturating_add(completed);
            day.focused
        } else {
            self.history.insert(at, DayReport { date: today, focused, completed });
            proof {
                assert(self@.history =~= old(self)@.history.insert(
                    at as int,
                    DayView { date: today@, focused: focused@, completed: completed as nat },
                ));
            }
            let streak = self.calculate_current_streak(today);
            if streak > self.longest_streak {
                self.longest_streak = streak;
            }
            focused
        };
        if self.longest_focused.lt(&current) {
            self.longest_focused = current;
        }
        proof {
            assert(self@.history =~= old(self)@.generated(
                today@,
                focused@,
                completed as nat,
            ).history);
        }
    }

    /// Empties the history and sets both records to zero.
    pub fn clear(&mut self)
        ensures
            final(self)@ == LedgerView::empty(),
            final(self).wf(),
    {
        self.history.clear();
        self.longest_streak = 0;
        self.longest_focused = Span::zero();
        proof {
            assert(self@.history =~= Seq::<DayView>::empty());
        }
    }

    /// Puts `data` in the place of the ledger, records and all.
    pub fn import_replace(&mut self, data: Report)
        requires
            data.wf(),
        ensures
            *final(self) == data,
            final(self).wf(),
    {
        *self = data;
    }

    /// Takes a message. `Generate` records for the current day of the
    /// machine's calendar, `Clear` empties the ledger; the other two leave
    /// the ledger as it is. The result says what is left to do.
    pub fn update(&mut self, message: Message) -> (action: Action)
        requires
            old(self).wf(),
        ensures
            final(self).wf(),
            exists|today: int|
                nameable(today) && final(self)@ == old(self)@.after(message, today),
            action == LedgerView::action_after(message),
            message is Import || message is Export ==> *final(self) == *old(self),
    {
        match message {
            Message::Generate { focused, completed } => {
                let today = Date::today();
                self.generate(today, focused, completed);
                proof {
                    assert(nameable(today@) && self@ == old(self)@.after(message, today@));
                }
                Action::Store
            },
            Message::Clear => {
                self.clear();
                proof {
                    assert(nameable(0) && self@ == old(self)@.after(message, 0));
                }
                Action::Store
            },
            Message::Import => {
                proof {
                    assert(nameable(0) && self@ == old(self)@.after(message, 0));
                }
                Action::Import
            },
            Message::Export => {
                proof {
                    assert(nameable(0) && self@ == old(self)@.after(message, 0));
                }
                Action::Export
            },
        }
    }
}

} // verus!

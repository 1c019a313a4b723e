//! The task store: the ordered list of tasks, the task that is active, the
//! text being typed for a new task, and the one task that may be in editing.

use crate::search::{
    first_match, lemma_filter_members, lemma_filter_step, lemma_first_match, lemma_first_match_is,
};
use crate::span::{capped_sum, max_nanos, Span};
use crate::text::{lemma_trimmed, trim, trimmed, white};
use vstd::prelude::*;

verus! {

/// One task of the list.
#[derive(Clone, Debug)]
pub struct Task {
    /// The number by which the task is known; it is never given again.
    pub id: u64,
    /// What is to be done.
    pub desc: String,
    /// The time spent on the task so far.
    pub spent: Span,
    /// Whether the task is completed.
    pub done: bool,
}

/// A task as a mathematical value: the text as a sequence of characters,
/// the time spent in nanoseconds.
pub struct TaskView {
    pub id: u64,
    pub desc: Seq<char>,
    pub spent: nat,
    pub done: bool,
}

impl View for Task {
    type V = TaskView;

    open spec fn view(&self) -> TaskView {
        TaskView { id: self.id, desc: self.desc@, spent: self.spent@, done: self.done }
    }
}

/// The length of the list up to which the user is offered to add a task.
pub const ROOMY: usize = 10;

/// The direction in which the active task moves through the list.
#[derive(Clone, Copy, Debug, PartialEq, Eq, Structural)]
pub enum Direction {
    Up,
    Down,
}

/// The views of the tasks of a list, in the order of the list.
pub open spec fn task_views(tasks: Seq<Task>) -> Seq<TaskView> {
    tasks.map_values(|task: Task| task@)
}

/// The tasks that are not completed.
pub open spec fn is_open() -> spec_fn(TaskView) -> bool {
    |task: TaskView| !task.done
}

/// The tasks that are known by `id`.
pub open spec fn known_by(id: u64) -> spec_fn(TaskView) -> bool {
    |task: TaskView| task.id == id
}

/// The tasks that are known by another number than `id`.
pub open spec fn is_other(id: u64) -> spec_fn(TaskView) -> bool {
    |task: TaskView| task.id != id
}

/// The numbers equal to `id`.
pub open spec fn same_as(id: u64) -> spec_fn(u64) -> bool {
    |other: u64| other == id
}

/// The number given after `id`: the next one, and zero after the last.
pub open spec fn next_after(id: u64) -> u64 {
    if id == u64::MAX {
        0
    } else {
        (id + 1) as u64
    }
}

/// The first place in the list that holds a task known by `id`.
pub open spec fn position(tasks: Seq<TaskView>, id: u64) -> Option<int> {
    let place = first_match(tasks, known_by(id), 0);
    if place < tasks.len() {
        Some(place)
    } else {
        None
    }
}

/// The number of the first task in the list that is not completed.
pub open spec fn first_open(tasks: Seq<TaskView>) -> Option<u64> {
    let place = first_match(tasks, is_open(), 0);
    if place < tasks.len() {
        Some(tasks[place].id)
    } else {
        None
    }
}

/// The numbers of the tasks that are not completed, in the order of the
/// list.
pub open spec fn open_ids(tasks: Seq<TaskView>) -> Seq<u64> {
    tasks.filter(is_open()).map_values(|task: TaskView| task.id)
}

/// Whether some task of the list is known by `id` and not completed.
pub open spec fn has_open(tasks: Seq<TaskView>, id: u64) -> bool {
    exists|i: int| 0 <= i < tasks.len() && #[trigger] tasks[i].id == id && !tasks[i].done
}

/// The largest number by which a task of the list is known; zero for the
/// empty list.
pub open spec fn max_id(tasks: Seq<TaskView>) -> u64
    decreases tasks.len(),
{
    if tasks.len() == 0 {
        0
    } else {
        let before = max_id(tasks.drop_last());
        if tasks.last().id > before {
            tasks.last().id
        } else {
            before
        }
    }
}

/// The time spent on the completed tasks of the list, in nanoseconds.
pub open spec fn done_total(tasks: Seq<TaskView>) -> nat
    decreases tasks.len(),
{
    if tasks.len() == 0 {
        0
    } else if tasks.last().done {
        done_total(tasks.drop_last()) + tasks.last().spent
    } else {
        done_total(tasks.drop_last())
    }
}

/// The number of completed tasks in the list.
pub open spec fn done_count(tasks: Seq<TaskView>) -> nat
    decreases tasks.len(),
{
    if tasks.len() == 0 {
        0
    } else if tasks.last().done {
        done_count(tasks.drop_last()) + 1
    } else {
        done_count(tasks.drop_last())
    }
}

/// A length of time as far as a span can hold it.
pub open spec fn capped(nanos: nat) -> nat {
    if nanos <= max_nanos() {
        nanos
    } else {
        max_nanos()
    }
}

/// The number that `first_open` gives is that of a task in the list that
/// is not completed.
pub proof fn lemma_first_open_is_open(tasks: Seq<TaskView>)
    ensures
        first_open(tasks) matches Some(id) ==> has_open(tasks, id),
{
    lemma_first_match(tasks, is_open(), 0);
}

/// A task that is not completed and known by another number than the one
/// removed is still there, not completed, after the removal; so is one not
/// completed after the completed tasks are removed.
pub proof fn lemma_open_survives(tasks: Seq<TaskView>, keep: spec_fn(TaskView) -> bool, id: u64)
    requires
        has_open(tasks, id),
        keep == is_open() || exists|gone: u64| gone != id && keep == is_other(gone),
    ensures
        has_open(tasks.filter(keep), id),
{
    lemma_filter_members(tasks, keep);
    let i = choose|i: int| 0 <= i < tasks.len() && #[trigger] tasks[i].id == id && !tasks[i].done;
    assert(keep(tasks[i]));
    assert(tasks.filter(keep).contains(tasks[i]));
    let j = choose|j: int| 0 <= j < tasks.filter(keep).len() && tasks.filter(keep)[j] == tasks[i];
    assert(tasks.filter(keep)[j].id == id);
}

/// Every number among `open_ids` is that of a task in the list that is not
/// completed.
pub proof fn lemma_open_ids_are_open(tasks: Seq<TaskView>, place: int)
    requires
        0 <= place < open_ids(tasks).len(),
    ensures
        has_open(tasks, open_ids(tasks)[place]),
{
    lemma_filter_members(tasks, is_open());
    let task = tasks.filter(is_open())[place];
    assert(tasks.contains(task));
    let i = choose|i: int| 0 <= i < tasks.len() && tasks[i] == task;
    assert(tasks[i].id == open_ids(tasks)[place]);
}

/// The place in `tasks` of the first task known by `id`.
pub fn find(tasks: &Vec<Task>, id: u64) -> (r: Option<usize>)
    ensures
        match position(task_views(tasks@), id) {
            Some(place) => r matches Some(found) && found == place,
            None => r is None,
        },
        r matches Some(found) ==> found < tasks.len() && tasks[found as int].id == id,
{
    let mut i: usize = 0;
    while i < tasks.len()
        invariant
            0 <= i <= tasks.len(),
            forall|j: int| 0 <= j < i ==> !known_by(id)(#[trigger] task_views(tasks@)[j]),
        decreases tasks.len() - i,
    {
        if tasks[i].id == id {
            proof {
                lemma_first_match_is(task_views(tasks@), known_by(id), i as int);
            }
            return Some(i);
        }
        i += 1;
    }
    proof {
        lemma_first_match_is(task_views(tasks@), known_by(id), i as int);
    }
    None
}

/// The number of the first task in `tasks` that is not completed.
pub fn first_incomplete(tasks: &Vec<Task>) -> (r: Option<u64>)
    ensures
        r == first_open(task_views(tasks@)),
{
    let mut i: usize = 0;
    while i < tasks.len()
        invariant
            0 <= i <= tasks.len(),
            forall|j: int| 0 <= j < i ==> !is_open()(#[trigger] task_views(tasks@)[j]),
        decreases tasks.len() - i,
    {
        if !tasks[i].done {
            proof {
                lemma_first_match_is(task_views(tasks@), is_open(), i as int);
            }
            return Some(tasks[i].id);
        }
        i += 1;
    }
    proof {
        lemma_first_match_is(task_views(tasks@), is_open(), i as int);
    }
    None
}

/// Sets the time spent on the task at place `i`, and whether it is completed.
fn set_progress(tasks: &mut Vec<Task>, i: usize, spent: Span, done: bool)
    requires
        i < old(tasks).len(),
    ensures
        task_views(final(tasks)@) == task_views(old(tasks)@).update(
            i as int,
            TaskView { spent: spent@, done, ..task_views(old(tasks)@)[i as int] },
        ),
{
    let task = &mut tasks[i];
    task.spent = spent;
    task.done = done;
}

/// Sets the text of the task at place `i`.
fn set_desc(tasks: &mut Vec<Task>, i: usize, desc: String)
    requires
        i < old(tasks).len(),
    ensures
        task_views(final(tasks)@) == task_views(old(tasks)@).update(
            i as int,
            TaskView { desc: desc@, ..task_views(old(tasks)@)[i as int] },
        ),
{
    tasks[i].desc = desc;
}

/// Removes every task known by `id`, keeping the others in their order.
fn remove_known_by(tasks: &mut Vec<Task>, id: u64)
    ensures
        task_views(final(tasks)@) == task_views(old(tasks)@).filter(is_other(id)),
{
    let ghost before = task_views(tasks@);
    let ghost mut k: int = 0;
    let mut i: usize = 0;
    proof {
        reveal(Seq::filter);
        assert(before.take(0).filter(is_other(id)) =~= Seq::<TaskView>::empty());
        assert(before.skip(0) =~= before);
    }
    while i < tasks.len()
        invariant
            0 <= k <= before.len(),
            i == before.take(k).filter(is_other(id)).len(),
            task_views(tasks@) == before.take(k).filter(is_other(id)) + before.skip(k),
        decreases before.len() - k,
    {
        proof {
            lemma_filter_step(before, is_other(id), k);
            assert(task_views(tasks@)[i as int] == before.skip(k)[0]);
        }
        if tasks[i].id == id {
            let ghost prior = task_views(tasks@);
            tasks.remove(i);
            proof {
                assert(!is_other(id)(before[k]));
                assert(task_views(tasks@) =~= prior.remove(i as int));
                assert(task_views(tasks@) =~= before.take(k + 1).filter(is_other(id))
                    + before.skip(k + 1));
            }
        } else {
            proof {
                assert(is_other(id)(before[k]));
                assert(before.skip(k) =~= seq![before[k]] + before.skip(k + 1));
                assert(task_views(tasks@) =~= before.take(k + 1).filter(is_other(id))
                    + before.skip(k + 1));
            }
            i += 1;
        }
        proof {
            k = k + 1;
        }
    }
    proof {
        assert(before.take(k) =~= before);
        assert(task_views(tasks@) =~= before.filter(is_other(id)));
    }
}

/// Removes every completed task, keeping the others in their order.
fn remove_done(tasks: &mut Vec<Task>)
    ensures
        task_views(final(tasks)@) == task_views(old(tasks)@).filter(is_open()),
{
    let ghost before = task_views(tasks@);
    let ghost mut k: int = 0;
    let mut i: usize = 0;
    proof {
        reveal(Seq::filter);
        assert(before.take(0).filter(is_open()) =~= Seq::<TaskView>::empty());
        assert(before.skip(0) =~= before);
    }
    while i < tasks.len()
        invariant
            0 <= k <= before.len(),
            i == before.take(k).filter(is_open()).len(),
            task_views(tasks@) == before.take(k).filter(is_open()) + before.skip(k),
        decreases before.len() - k,
    {
        proof {
            lemma_filter_step(before, is_open(), k);
            assert(task_views(tasks@)[i as int] == before.skip(k)[0]);
        }
        if tasks[i].done {
            let ghost prior = task_views(tasks@);
            tasks.remove(i);
            proof {
                assert(!is_open()(before[k]));
                assert(task_views(tasks@) =~= prior.remove(i as int));
                assert(task_views(tasks@) =~= before.take(k + 1).filter(is_open()) + before.skip(
                    k + 1,
                ));
            }
        } else {
            proof {
                assert(is_open()(before[k]));
                assert(before.skip(k) =~= seq![before[k]] + before.skip(k + 1));
                assert(task_views(tasks@) =~= before.take(k + 1).filter(is_open()) + before.skip(
                    k + 1,
                ));
            }
            i += 1;
        }
        proof {
            k = k + 1;
        }
    }
    proof {
        assert(before.take(k) =~= before);
        assert(task_views(tasks@) =~= before.filter(is_open()));
    }
}

/// The numbers of the tasks that are not completed, in the order of the
/// list.
fn collect_open_ids(tasks: &Vec<Task>) -> (ids: Vec<u64>)
    ensures
        ids@ == open_ids(task_views(tasks@)),
{
    let ghost views = task_views(tasks@);
    let mut ids: Vec<u64> = Vec::new();
    let mut i: usize = 0;
    proof {
        reveal(Seq::filter);
        assert(views.take(0).filter(is_open()) =~= Seq::<TaskView>::empty());
        assert(ids@ =~= open_ids(views.take(0)));
    }
    while i < tasks.len()
        invariant
            0 <= i <= tasks.len(),
            views == task_views(tasks@),
            ids@ == open_ids(views.take(i as int)),
        decreases tasks.len() - i,
    {
        proof {
            lemma_filter_step(views, is_open(), i as int);
        }
        if !tasks[i].done {
            ids.push(tasks[i].id);
        }
        proof {
            assert(ids@ =~= open_ids(views.take(i + 1)));
        }
        i += 1;
    }
    proof {
        assert(views.take(i as int) =~= views);
    }
    ids
}

/// The largest number by which a task of `tasks` is known.
fn largest_id(tasks: &Vec<Task>) -> (r: u64)
    ensures
        r == max_id(task_views(tasks@)),
{
    let ghost views = task_views(tasks@);
    let mut largest: u64 = 0;
    let mut i: usize = 0;
    while i < tasks.len()
        invariant
            0 <= i <= tasks.len(),
            views == task_views(tasks@),
            largest == max_id(views.take(i as int)),
        decreases tasks.len() - i,
    {
        proof {
            assert(views.take(i + 1).drop_last() =~= views.take(i as int));
        }
        if tasks[i].id > largest {
            largest = tasks[i].id;
        }
        i += 1;
    }
    proof {
        assert(views.take(i as int) =~= views);
    }
    largest
}

/// The task store as a mathematical value.
pub struct StoreView {
    /// The tasks, in the order of the list.
    pub tasks: Seq<TaskView>,
    /// The number that the next new task will be known by.
    pub next_id: u64,
    /// The number of the active task, if there is one.
    pub active: Option<u64>,
    /// The number of the task in editing and its text as typed so far.
    pub editing: Option<(u64, Seq<char>)>,
    /// The text typed for a new task.
    pub input: Seq<char>,
}

impl StoreView {
    /// What every store satisfies: the active task, if there is one, is in
    /// the list and not completed.
    pub open spec fn wf(self) -> bool {
        &&& self.active matches Some(id) ==> has_open(self.tasks, id)
        &&& forall|i: int|
            0 <= i < self.tasks.len() ==> (#[trigger] self.tasks[i]).spent <= max_nanos()
    }

    /// Every task is known by a number below the next one to be given.
    pub open spec fn fresh(self) -> bool {
        forall|i: int| 0 <= i < self.tasks.len() ==> (#[trigger] self.tasks[i]).id < self.next_id
    }

    /// No two tasks of the list are known by the same number.
    pub open spec fn distinct(self) -> bool {
        forall|i: int, j: int|
            0 <= i < j < self.tasks.len() ==> (#[trigger] self.tasks[i]).id != (
            #[trigger] self.tasks[j]).id
    }

    /// The numbers of the tasks grow along the list, and the next one to be
    /// given is above them all.
    pub open spec fn ascending(self) -> bool {
        &&& self.fresh()
        &&& forall|i: int, j: int|
            0 <= i < j < self.tasks.len() ==> (#[trigger] self.tasks[i]).id < (
            #[trigger] self.tasks[j]).id
    }

    /// The store that holds stored tasks: the first that is not completed
    /// is active, and the next number is the one after the largest in use
    /// (1 for an empty list).
    pub open spec fn loaded(tasks: Seq<TaskView>) -> StoreView {
        StoreView {
            tasks,
            next_id: if tasks.len() == 0 {
                1
            } else {
                next_after(max_id(tasks))
            },
            active: first_open(tasks),
            editing: None,
            input: Seq::empty(),
        }
    }

    /// `text` typed for a new task.
    pub open spec fn typed(self, text: Seq<char>) -> StoreView {
        StoreView { input: text, ..self }
    }

    /// A new task with the text `desc`, which is the trimmed input: none
    /// where it is empty; else a task known by the next number, at the end
    /// of the list, with no time spent and not completed, and the input is
    /// emptied.
    pub open spec fn added(self, desc: Seq<char>) -> StoreView {
        if desc.len() == 0 {
            self
        } else {
            StoreView {
                tasks: self.tasks.push(
                    TaskView { id: self.next_id, desc, spent: 0, done: false },
                ),
                next_id: next_after(self.next_id),
                input: Seq::empty(),
                ..self
            }
        }
    }

    /// `elapsed` added to the time spent on the first task known by `id`.
    pub open spec fn credited(self, id: u64, elapsed: nat) -> StoreView {
        match position(self.tasks, id) {
            Some(place) => StoreView {
                tasks: self.tasks.update(
                    place,
                    TaskView {
                        spent: capped_sum(self.tasks[place].spent, elapsed),
                        ..self.tasks[place]
                    },
                ),
                ..self
            },
            None => self,
        }
    }

    /// The first task known by `id` turned from completed to not completed
    /// or back, with `elapsed` added to the time spent on it; then the
    /// first task not completed is the active one.
    pub open spec fn completed(self, id: u64, elapsed: nat) -> StoreView {
        let tasks = match position(self.tasks, id) {
            Some(place) => self.tasks.update(
                place,
                TaskView {
                    spent: capped_sum(self.tasks[place].spent, elapsed),
                    done: !self.tasks[place].done,
                    ..self.tasks[place]
                },
            ),
            None => self.tasks,
        };
        StoreView { tasks, active: first_open(tasks), ..self }
    }

    /// The active task chosen by its number: choosing the active task
    /// leaves none active; choosing another makes it active, and not
    /// completed if it was. A number that no task is known by changes
    /// nothing.
    pub open spec fn selected(self, id: u64) -> StoreView {
        if self.active == Some(id) {
            StoreView { active: None, ..self }
        } else {
            match position(self.tasks, id) {
                Some(place) => StoreView {
                    tasks: self.tasks.update(
                        place,
                        TaskView { done: false, ..self.tasks[place] },
                    ),
                    active: Some(id),
                    ..self
                },
                None => self,
            }
        }
    }

    /// The place among `count` places next to `current` in the given
    /// direction, the last being next to the first.
    pub open spec fn neighbour(current: int, count: int, direction: Direction) -> int {
        match direction {
            Direction::Up => if current == 0 {
                count - 1
            } else {
                current - 1
            },
            Direction::Down => if current + 1 == count {
                0
            } else {
                current + 1
            },
        }
    }

    /// The active task moved to its neighbour among the tasks not
    /// completed. With no active task, or no task not completed, nothing
    /// changes.
    pub open spec fn moved(self, direction: Direction) -> StoreView {
        let ids = open_ids(self.tasks);
        if self.active is Some && ids.len() > 0 {
            let found = first_match(ids, same_as(self.active->0), 0);
            let current = if found < ids.len() {
                found
            } else {
                0
            };
            StoreView {
                active: Some(ids[Self::neighbour(current, ids.len() as int, direction)]),
                ..self
            }
        } else {
            self
        }
    }

    /// The first task known by `id` taken into editing, with its text. A
    /// number that no task is known by changes nothing.
    pub open spec fn edit_begun(self, id: u64) -> StoreView {
        match position(self.tasks, id) {
            Some(place) => StoreView { editing: Some((id, self.tasks[place].desc)), ..self },
            None => self,
        }
    }

    /// `text` typed for the task in editing; nothing where none is.
    pub open spec fn edit_typed(self, text: Seq<char>) -> StoreView {
        match self.editing {
            Some((id, _)) => StoreView { editing: Some((id, text)), ..self },
            None => self,
        }
    }

    /// The editing ended with `text`, which is the trimmed text of the
    /// editing: where it is not empty, it is the new text of the first task
    /// known by the number in editing.
    pub open spec fn edit_saved(self, text: Seq<char>) -> StoreView {
        match self.editing {
            Some((id, _)) => StoreView {
                tasks: match position(self.tasks, id) {
                    Some(place) => if text.len() > 0 {
                        self.tasks.update(place, TaskView { desc: text, ..self.tasks[place] })
                    } else {
                        self.tasks
                    },
                    None => self.tasks,
                },
                editing: None,
                ..self
            },
            None => self,
        }
    }

    /// The editing given up.
    pub open spec fn edit_cancelled(self) -> StoreView {
        StoreView { editing: None, ..self }
    }

    /// Every task known by `id` removed. Where the active task is among
    /// them, or none was active, the first task left that is not completed
    /// is active.
    pub open spec fn deleted(self, id: u64) -> StoreView {
        let tasks = self.tasks.filter(is_other(id));
        StoreView {
            tasks,
            active: if self.active is None || self.active == Some(id) {
                first_open(tasks)
            } else {
                self.active
            },
            ..self
        }
    }

    /// Every task removed; none is active.
    pub open spec fn cleared(self) -> StoreView {
        StoreView { tasks: Seq::empty(), active: None, ..self }
    }

    /// Every completed task removed.
    pub open spec fn day_ended(self) -> StoreView {
        StoreView { tasks: self.tasks.filter(is_open()), ..self }
    }

    /// The time spent on the completed tasks, as far as a span can hold it,
    /// and their number.
    pub open spec fn stats(self) -> (nat, nat) {
        (capped(done_total(self.tasks)), done_count(self.tasks))
    }

    /// Whatever is done to the store, the active task, if there is one, is
    /// in the list and not completed.
    pub proof fn lemma_wf_preserved(
        self,
        id: u64,
        elapsed: nat,
        text: Seq<char>,
        direction: Direction,
    )
        requires
            self.wf(),
        ensures
            self.typed(text).wf(),
            self.added(text).wf(),
            self.credited(id, elapsed).wf(),
            self.completed(id, elapsed).wf(),
            self.selected(id).wf(),
            self.moved(direction).wf(),
            self.edit_begun(id).wf(),
            self.edit_typed(text).wf(),
            self.edit_saved(text).wf(),
            self.edit_cancelled().wf(),
            self.deleted(id).wf(),
            self.cleared().wf(),
            self.day_ended().wf(),
    {
        lemma_first_match(self.tasks, known_by(id), 0);
        if self.active is Some {
            let active = self.active->0;
            let at = choose|i: int|
                0 <= i < self.tasks.len() && #[trigger] self.tasks[i].id == active
                    && !self.tasks[i].done;
            assert(self.added(text).tasks[at].id == active);
            assert(self.credited(id, elapsed).tasks[at].id == active);
            assert(self.edit_saved(text).tasks[at].id == active) by {
                if self.editing is Some {
                    let slot = self.editing->0;
                    lemma_first_match(self.tasks, known_by(slot.0), 0);
                }
            }
            lemma_open_survives(self.tasks, is_open(), active);
            if active != id {
                lemma_open_survives(self.tasks, is_other(id), active);
            }
        }
        assert(self.edit_saved(text).wf()) by {
            if self.editing is Some {
                let slot = self.editing->0;
                lemma_first_match(self.tasks, known_by(slot.0), 0);
            }
        }
        lemma_first_open_is_open(self.completed(id, elapsed).tasks);
        lemma_first_open_is_open(self.deleted(id).tasks);
        lemma_filter_members(self.tasks, is_other(id));
        lemma_filter_members(self.tasks, is_open());
        assert(self.selected(id).wf()) by {
            if self.active != Some(id) && position(self.tasks, id) is Some {
                let place = position(self.tasks, id)->0;
                assert(self.selected(id).tasks[place].id == id);
            }
        }
        assert(self.moved(direction).wf()) by {
            let ids = open_ids(self.tasks);
            if self.active is Some && ids.len() > 0 {
                lemma_first_match(ids, same_as(self.active->0), 0);
                let found = first_match(ids, same_as(self.active->0), 0);
                let current = if found < ids.len() {
                    found
                } else {
                    0
                };
                lemma_open_ids_are_open(
                    self.tasks,
                    Self::neighbour(current, ids.len() as int, direction),
                );
            }
        }
    }

    /// Completing a task twice leaves it completed or not as it was, and
    /// adds both times to the time spent on it.
    pub proof fn lemma_complete_twice(self, id: u64, first: nat, second: nat)
        requires
            self.wf(),
            position(self.tasks, id) is Some,
        ensures
            ({
                let place = position(self.tasks, id)->0;
                let twice = self.completed(id, first).completed(id, second);
                &&& position(twice.tasks, id) == Some(place)
                &&& twice.tasks[place].done == self.tasks[place].done
                &&& twice.tasks[place].spent == capped(self.tasks[place].spent + first + second)
                &&& twice.tasks == self.tasks.update(
                    place,
                    TaskView {
                        spent: capped(self.tasks[place].spent + first + second),
                        ..self.tasks[place]
                    },
                )
            }),
    {
        let place = position(self.tasks, id)->0;
        lemma_first_match(self.tasks, known_by(id), 0);
        let once = self.completed(id, first);
        lemma_first_match_is(once.tasks, known_by(id), place);
        let twice = once.completed(id, second);
        lemma_first_match_is(twice.tasks, known_by(id), place);
        assert(twice.tasks =~= self.tasks.update(
            place,
            TaskView {
                spent: capped(self.tasks[place].spent + first + second),
                ..self.tasks[place]
            },
        ));
    }

    /// Crediting and completing change no task but the first known by
    /// `id`, keep every task at its place, and never lower the time spent
    /// on a task.
    pub proof fn lemma_spent_never_falls(self, id: u64, elapsed: nat)
        requires
            self.wf(),
        ensures
            self.credited(id, elapsed).tasks.len() == self.tasks.len(),
            self.completed(id, elapsed).tasks.len() == self.tasks.len(),
            forall|i: int|
                0 <= i < self.tasks.len() ==> (#[trigger] self.credited(id, elapsed).tasks[i]).spent
                    >= self.tasks[i].spent,
            forall|i: int|
                0 <= i < self.tasks.len() ==> (#[trigger] self.completed(
                    id,
                    elapsed,
                ).tasks[i]).spent >= self.tasks[i].spent,
            forall|i: int|
                0 <= i < self.tasks.len() && Some(i) != position(self.tasks, id) ==> (
                #[trigger] self.completed(id, elapsed).tasks[i]) == self.tasks[i],
    {
        lemma_first_match(self.tasks, known_by(id), 0);
    }

    /// In a store that holds stored tasks, every task is known by a number
    /// below the next one, unless the last number is in use.
    pub proof fn lemma_loaded_fresh(tasks: Seq<TaskView>)
        ensures
            forall|i: int| 0 <= i < tasks.len() ==> (#[trigger] tasks[i]).id <= max_id(tasks),
            max_id(tasks) < u64::MAX ==> Self::loaded(tasks).fresh(),
        decreases tasks.len(),
    {
        if tasks.len() > 0 {
            Self::lemma_loaded_fresh(tasks.drop_last());
            assert forall|i: int| 0 <= i < tasks.len() implies (#[trigger] tasks[i]).id <= max_id(
                tasks,
            ) by {
                if i < tasks.len() - 1 {
                    assert(tasks.drop_last()[i] == tasks[i]);
                }
            }
        }
    }

    /// Whether `next` is the store as it is, or after one of the things
    /// that can be done to it with the given number, time, text and
    /// direction, the adding of a task left aside.
    pub open spec fn reaches(
        self,
        next: StoreView,
        id: u64,
        elapsed: nat,
        text: Seq<char>,
        direction: Direction,
    ) -> bool {
        ||| next == self
        ||| next == self.typed(text)
        ||| next == self.credited(id, elapsed)
        ||| next == self.completed(id, elapsed)
        ||| next == self.selected(id)
        ||| next == self.moved(direction)
        ||| next == self.edit_begun(id)
        ||| next == self.edit_typed(text)
        ||| next == self.edit_saved(text)
        ||| next == self.edit_cancelled()
        ||| next == self.deleted(id)
        ||| next == self.cleared()
        ||| next == self.day_ended()
    }

    /// Nothing that can be done to the store, the adding of a task left
    /// aside, changes the next number or makes up a number; tasks known by
    /// numbers below the next one stay so, numbers that were all different
    /// stay all different, and numbers that grew along the list still do.
    pub proof fn lemma_reaches(
        self,
        next: StoreView,
        id: u64,
        elapsed: nat,
        text: Seq<char>,
        direction: Direction,
    )
        requires
            self.fresh(),
            self.reaches(next, id, elapsed, text, direction),
        ensures
            next.fresh(),
            next.next_id == self.next_id,
            Self::ids_from(next.tasks, self.tasks, self.next_id),
            self.distinct() ==> next.distinct(),
            self.ascending() ==> next.ascending(),
    {
        self.lemma_ids_fresh(id, elapsed, text, direction);
        self.lemma_same_ids(id, elapsed, text, direction);
        if self.distinct() {
            self.lemma_ids_distinct(id, elapsed, text, direction);
        }
        if self.ascending() {
            self.lemma_ids_ascend(id, elapsed, text, direction);
        }
    }

    /// Where every task is known by a number below the next one, that stays
    /// so whatever is done to the store, as long as the last number is not
    /// reached. A new task is known by the number that was next, and the
    /// next number is one more then; nothing else changes the next number.
    pub proof fn lemma_ids_fresh(
        self,
        id: u64,
        elapsed: nat,
        text: Seq<char>,
        direction: Direction,
    )
        requires
            self.fresh(),
        ensures
            text.len() > 0 ==> {
                &&& self.added(text).tasks.len() == self.tasks.len() + 1
                &&& self.added(text).tasks.last().id == self.next_id
                &&& self.added(text).next_id == next_after(self.next_id)
            },
            text.len() > 0 && self.next_id < u64::MAX ==> {
                &&& self.added(text).fresh()
                &&& self.added(text).next_id == self.next_id + 1
            },
            text.len() == 0 ==> self.added(text) == self,
            self.typed(text).fresh() && self.typed(text).next_id == self.next_id,
            self.credited(id, elapsed).fresh() && self.credited(id, elapsed).next_id
                == self.next_id,
            self.completed(id, elapsed).fresh() && self.completed(id, elapsed).next_id
                == self.next_id,
            self.selected(id).fresh() && self.selected(id).next_id == self.next_id,
            self.moved(direction).fresh() && self.moved(direction).next_id == self.next_id,
            self.edit_begun(id).fresh() && self.edit_begun(id).next_id == self.next_id,
            self.edit_typed(text).fresh() && self.edit_typed(text).next_id == self.next_id,
            self.edit_saved(text).fresh() && self.edit_saved(text).next_id == self.next_id,
            self.edit_cancelled().fresh() && self.edit_cancelled().next_id == self.next_id,
            self.deleted(id).fresh() && self.deleted(id).next_id == self.next_id,
            self.cleared().fresh() && self.cleared().next_id == self.next_id,
            self.day_ended().fresh() && self.day_ended().next_id == self.next_id,
    {
        lemma_first_match(self.tasks, known_by(id), 0);
        if self.editing is Some {
            let slot = self.editing->0;
            lemma_first_match(self.tasks, known_by(slot.0), 0);
        }
        lemma_filter_distinct(self.tasks, is_other(id));
        lemma_filter_distinct(self.tasks, is_open());
    }

    /// Where every task is known by a number below the next one and no two
    /// by the same, no two are known by the same number whatever is done to
    /// the store.
    pub proof fn lemma_ids_distinct(
        self,
        id: u64,
        elapsed: nat,
        text: Seq<char>,
        direction: Direction,
    )
        requires
            self.fresh(),
            self.distinct(),
        ensures
            self.typed(text).distinct(),
            self.added(text).distinct(),
            self.credited(id, elapsed).distinct(),
            self.completed(id, elapsed).distinct(),
            self.selected(id).distinct(),
            self.moved(direction).distinct(),
            self.edit_begun(id).distinct(),
            self.edit_typed(text).distinct(),
            self.edit_saved(text).distinct(),
            self.edit_cancelled().distinct(),
            self.deleted(id).distinct(),
            self.cleared().distinct(),
            self.day_ended().distinct(),
    {
        lemma_first_match(self.tasks, known_by(id), 0);
        if self.editing is Some {
            let slot = self.editing->0;
            lemma_first_match(self.tasks, known_by(slot.0), 0);
        }
        lemma_filter_distinct(self.tasks, is_other(id));
        lemma_filter_distinct(self.tasks, is_open());
    }

    /// A new task is known by a number above those of all tasks in the
    /// list, and the numbers go on growing, as long as the last number is
    /// not reached; nothing else that is done to the store changes the next
    /// number or brings a number back.
    pub proof fn lemma_ids_ascend(
        self,
        id: u64,
        elapsed: nat,
        text: Seq<char>,
        direction: Direction,
    )
        requires
            self.ascending(),
        ensures
            text.len() > 0 && self.next_id < u64::MAX ==> {
                &&& self.added(text).ascending()
                &&& self.added(text).tasks.last().id == self.next_id
                &&& self.added(text).next_id == self.next_id + 1
            },
            text.len() == 0 ==> self.added(text) == self,
            self.typed(text).ascending() && self.typed(text).next_id == self.next_id,
            self.credited(id, elapsed).ascending() && self.credited(id, elapsed).next_id
                == self.next_id,
            self.completed(id, elapsed).ascending() && self.completed(id, elapsed).next_id
                == self.next_id,
            self.selected(id).ascending() && self.selected(id).next_id == self.next_id,
            self.moved(direction).ascending() && self.moved(direction).next_id == self.next_id,
            self.edit_begun(id).ascending() && self.edit_begun(id).next_id == self.next_id,
            self.edit_typed(text).ascending() && self.edit_typed(text).next_id == self.next_id,
            self.edit_saved(text).ascending() && self.edit_saved(text).next_id == self.next_id,
            self.edit_cancelled().ascending() && self.edit_cancelled().next_id == self.next_id,
            self.deleted(id).ascending() && self.deleted(id).next_id == self.next_id,
            self.cleared().ascending() && self.cleared().next_id == self.next_id,
            self.day_ended().ascending() && self.day_ended().next_id == self.next_id,
    {
        lemma_first_match(self.tasks, known_by(id), 0);
        if self.editing is Some {
            let slot = self.editing->0;
            lemma_first_match(self.tasks, known_by(slot.0), 0);
        }
        lemma_filter_ascending(self.tasks, is_other(id), self.next_id);
        lemma_filter_ascending(self.tasks, is_open(), self.next_id);
    }

    /// Nothing that is done to the store makes up a number: every task
    /// afterwards is known by a number that a task was known by before, or,
    /// after an addition, by the number that was next.
    pub proof fn lemma_same_ids(self, id: u64, elapsed: nat, text: Seq<char>, direction: Direction)
        ensures
            Self::ids_from(self.typed(text).tasks, self.tasks, self.next_id),
            Self::ids_from(self.added(text).tasks, self.tasks, self.next_id),
            Self::ids_from(self.credited(id, elapsed).tasks, self.tasks, self.next_id),
            Self::ids_from(self.completed(id, elapsed).tasks, self.tasks, self.next_id),
            Self::ids_from(self.selected(id).tasks, self.tasks, self.next_id),
            Self::ids_from(self.moved(direction).tasks, self.tasks, self.next_id),
            Self::ids_from(self.edit_begun(id).tasks, self.tasks, self.next_id),
            Self::ids_from(self.edit_typed(text).tasks, self.tasks, self.next_id),
            Self::ids_from(self.edit_saved(text).tasks, self.tasks, self.next_id),
            Self::ids_from(self.edit_cancelled().tasks, self.tasks, self.next_id),
            Self::ids_from(self.deleted(id).tasks, self.tasks, self.next_id),
            Self::ids_from(self.cleared().tasks, self.tasks, self.next_id),
            Self::ids_from(self.day_ended().tasks, self.tasks, self.next_id),
    {
        lemma_first_match(self.tasks, known_by(id), 0);
        if self.editing is Some {
            let slot = self.editing->0;
            lemma_first_match(self.tasks, known_by(slot.0), 0);
        }
        lemma_filter_members(self.tasks, is_other(id));
        lemma_filter_members(self.tasks, is_open());
    }

    /// Whether `id` is a number that a task of `before` is known by, or is
    /// `next`.
    pub open spec fn id_from(id: u64, before: Seq<TaskView>, next: u64) -> bool {
        id == next || exists|j: int| 0 <= j < before.len() && #[trigger] before[j].id == id
    }

    /// Whether every task of `after` is known by a number that a task of
    /// `before` is known by, or by `next`.
    pub open spec fn ids_from(after: Seq<TaskView>, before: Seq<TaskView>, next: u64) -> bool {
        forall|i: int|
            0 <= i < after.len() ==> Self::id_from(#[trigger] after[i].id, before, next)
    }
}

/// Every task that is kept is known by a number that a task of the list was
/// known by, and where no two tasks of the list were known by the same
/// number, no two of those kept are.
pub proof fn lemma_filter_distinct(tasks: Seq<TaskView>, keep: spec_fn(TaskView) -> bool)
    ensures
        forall|i: int|
            0 <= i < tasks.filter(keep).len() ==> exists|j: int|
                0 <= j < tasks.len() && (#[trigger] tasks[j]).id == (#[trigger] tasks.filter(
                    keep,
                )[i]).id,
        (forall|i: int, j: int|
            0 <= i < j < tasks.len() ==> (#[trigger] tasks[i]).id != (#[trigger] tasks[j]).id)
            ==> (forall|i: int, j: int|
            0 <= i < j < tasks.filter(keep).len() ==> (#[trigger] tasks.filter(keep)[i]).id != (
            #[trigger] tasks.filter(keep)[j]).id),
    decreases tasks.len(),
{
    reveal(Seq::filter);
    if tasks.len() > 0 {
        let before = tasks.drop_last();
        lemma_filter_distinct(before, keep);
        let kept = tasks.filter(keep);
        let kept_before = before.filter(keep);
        assert forall|i: int| 0 <= i < kept.len() implies exists|j: int|
            0 <= j < tasks.len() && (#[trigger] tasks[j]).id == (#[trigger] kept[i]).id by {
            if i < kept_before.len() {
                assert(kept[i] == kept_before[i]);
                let j = choose|j: int|
                    0 <= j < before.len() && (#[trigger] before[j]).id == kept_before[i].id;
                assert(tasks[j].id == kept[i].id);
            } else {
                assert(tasks[tasks.len() - 1].id == kept[i].id);
            }
        }
        if forall|i: int, j: int|
            0 <= i < j < tasks.len() ==> (#[trigger] tasks[i]).id != (#[trigger] tasks[j]).id {
            assert forall|i: int, j: int| 0 <= i < j < before.len() implies (
            #[trigger] before[i]).id != (#[trigger] before[j]).id by {
                assert(before[i] == tasks[i] && before[j] == tasks[j]);
            }
            assert forall|i: int, j: int| 0 <= i < j < kept.len() implies (#[trigger] kept[i]).id
                != (#[trigger] kept[j]).id by {
                assert(kept[i] == kept_before[i]);
                if j < kept_before.len() {
                    assert(kept[j] == kept_before[j]);
                } else {
                    let m = choose|m: int|
                        0 <= m < before.len() && (#[trigger] before[m]).id == kept_before[i].id;
                    assert(tasks[m].id == kept[i].id);
                    assert(kept[j] == tasks[tasks.len() - 1]);
                }
            }
        }
    }
}

/// Numbers that grow along a list still grow along what is kept of it, and
/// stay below a bound that they were below.
pub proof fn lemma_filter_ascending(
    tasks: Seq<TaskView>,
    keep: spec_fn(TaskView) -> bool,
    bound: u64,
)
    requires
        forall|i: int| 0 <= i < tasks.len() ==> (#[trigger] tasks[i]).id < bound,
        forall|i: int, j: int|
            0 <= i < j < tasks.len() ==> (#[trigger] tasks[i]).id < (#[trigger] tasks[j]).id,
    ensures
        forall|i: int|
            0 <= i < tasks.filter(keep).len() ==> (#[trigger] tasks.filter(keep)[i]).id < bound,
        forall|i: int, j: int|
            0 <= i < j < tasks.filter(keep).len() ==> (#[trigger] tasks.filter(keep)[i]).id < (
            #[trigger] tasks.filter(keep)[j]).id,
        forall|i: int|
            0 <= i < tasks.filter(keep).len() && tasks.len() > 0 ==> (
            #[trigger] tasks.filter(keep)[i]).id <= tasks.last().id,
    decreases tasks.len(),
{
    reveal(Seq::filter);
    if tasks.len() > 0 {
        let before = tasks.drop_last();
        assert forall|i: int, j: int| 0 <= i < j < before.len() implies (#[trigger] before[i]).id
            < (#[trigger] before[j]).id by {
            assert(before[i] == tasks[i] && before[j] == tasks[j]);
        }
        assert forall|i: int| 0 <= i < before.len() implies (#[trigger] before[i]).id < bound by {
            assert(before[i] == tasks[i]);
        }
        lemma_filter_ascending(before, keep, bound);
        let kept = tasks.filter(keep);
        let kept_before = before.filter(keep);
        assert forall|i: int| 0 <= i < kept_before.len() implies (#[trigger] kept_before[i]).id
            < tasks.last().id by {
            assert(before.len() > 0);
            assert(before.last() == tasks[tasks.len() - 2]);
        }
        assert forall|i: int| 0 <= i < kept.len() implies (#[trigger] kept[i]).id < bound
            && kept[i].id <= tasks.last().id by {
            if i < kept_before.len() {
                assert(kept[i] == kept_before[i]);
            } else {
                assert(kept[i] == tasks[tasks.len() - 1]);
            }
        }
        assert forall|i: int, j: int| 0 <= i < j < kept.len() implies (#[trigger] kept[i]).id < (
        #[trigger] kept[j]).id by {
            if j < kept_before.len() {
                assert(kept[i] == kept_before[i] && kept[j] == kept_before[j]);
            } else {
                assert(kept[i] == kept_before[i]);
                assert(kept[j] == tasks[tasks.len() - 1]);
            }
        }
    }
}

/// The task store.
#[derive(Clone, Debug)]
pub struct TaskStore {
    tasks: Vec<Task>,
    next_id: u64,
    active: Option<u64>,
    editing: Option<(u64, String)>,
    input: String,
}

impl View for TaskStore {
    type V = StoreView;

    closed spec fn view(&self) -> StoreView {
        StoreView {
            tasks: task_views(self.tasks@),
            next_id: self.next_id,
            active: self.active,
            editing: match self.editing {
                Some((id, text)) => Some((id, text@)),
                None => None,
            },
            input: self.input@,
        }
    }
}

impl Task {
    /// A task known by `id`, with no time spent and not completed.
    pub fn new(id: u64, desc: String) -> (r: Task)
        ensures
            r@ == (TaskView { id, desc: desc@, spent: 0, done: false }),
    {
        Task { id, desc, spent: Span::zero(), done: false }
    }
}

impl TaskStore {
    /// What every store satisfies.
    pub open spec fn wf(&self) -> bool {
        self@.wf()
    }

    proof fn lemma_spent_bounded(&self)
        ensures
            forall|i: int|
                0 <= i < self@.tasks.len() ==> (#[trigger] self@.tasks[i]).spent <= max_nanos(),
    {
        assert forall|i: int| 0 <= i < self@.tasks.len() implies (#[trigger] self@.tasks[i]).spent
            <= max_nanos() by {
            self.tasks@[i].spent.lemma_bounded();
        }
    }

    /// The store that holds the given tasks.
    pub fn new(tasks: Vec<Task>) -> (r: TaskStore)
        ensures
            r@ == StoreView::loaded(task_views(tasks@)),
            r.wf(),
    {
        let active = first_incomplete(&tasks);
        let next_id: u64 = if tasks.len() == 0 {
            1
        } else {
            let largest = largest_id(&tasks);
            if largest == u64::MAX {
                0
            } else {
                largest + 1
            }
        };
        let r = TaskStore { tasks, next_id, active, editing: None, input: String::new() };
        proof {
            r.lemma_spent_bounded();
            lemma_first_open_is_open(r@.tasks);
        }
        r
    }

    /// The tasks, in the order of the list.
    pub fn tasks(&self) -> (r: &Vec<Task>)
        ensures
            task_views(r@) == self@.tasks,
    {
        &self.tasks
    }

    /// The number of the active task, if there is one.
    pub fn active(&self) -> (r: Option<u64>)
        ensures
            r == self@.active,
    {
        self.active
    }

    /// The number that the next new task will be known by.
    pub fn next_id(&self) -> (r: u64)
        ensures
            r == self@.next_id,
    {
        self.next_id
    }

    /// The text typed for a new task.
    pub fn input(&self) -> (r: &String)
        ensures
            r@ == self@.input,
    {
        &self.input
    }

    /// The number of the task in editing and its text as typed so far.
    pub fn editing(&self) -> (r: Option<(u64, String)>)
        ensures
            match self@.editing {
                Some((id, text)) => r matches Some(slot) && slot.0 == id && slot.1@ == text,
                None => r is None,
            },
    {
        match &self.editing {
            Some(slot) => Some((slot.0, slot.1.clone())),
            None => None,
        }
    }

    /// Whether the list is short enough for the user to be offered to add
    /// a task: it holds `ROOMY` tasks at most.
    pub fn has_room(&self) -> (r: bool)
        ensures
            r == (self@.tasks.len() <= ROOMY),
    {
        self.tasks.len() <= ROOMY
    }

    /// Takes `text` as what is typed for a new task.
    pub fn set_input(&mut self, text: String)
        requires
            old(self).wf(),
        ensures
            final(self)@ == old(self)@.typed(text@),
            final(self).wf(),
    {
        self.input = text;
    }

    /// Adds a task with the text `desc`, unless it is empty.
    pub fn add_trimmed(&mut self, desc: String)
        requires
            old(self).wf(),
        ensures
            final(self)@ == old(self)@.added(desc@),
            final(self).wf(),
    {
        proof {
            self@.lemma_wf_preserved(0, 0, desc@, Direction::Up);
        }
        if !desc.as_str().is_empty() {
            let id = self.next_id;
            self.tasks.push(Task::new(id, desc));
            self.next_id = if id == u64::MAX {
                0
            } else {
                id + 1
            };
            self.input = String::new();
            proof {
                assert(self@.tasks =~= old(self)@.added(desc@).tasks);
            }
        }
    }

    /// Adds a task with the trimmed input as its text, unless that is
    /// empty, as it is where the input is empty or all white space: then
    /// nothing changes, and no number is used up.
    pub fn add(&mut self)
        requires
            old(self).wf(),
        ensures
            final(self)@ == old(self)@.added(trimmed(old(self)@.input)),
            (forall|i: int| 0 <= i < old(self)@.input.len() ==> white(#[trigger] old(self)@.input[i]))
                ==> final(self)@ == old(self)@,
            final(self).wf(),
    {
        proof {
            lemma_trimmed(self@.input);
        }
        let desc = trim(self.input.as_str());
        self.add_trimmed(desc);
    }

    /// Adds `elapsed` to the time spent on the first task known by `id`.
    pub fn credit(&mut self, id: u64, elapsed: Span)
        requires
            old(self).wf(),
        ensures
            final(self)@ == old(self)@.credited(id, elapsed@),
            final(self).wf(),
    {
        proof {
            self@.lemma_wf_preserved(id, elapsed@, Seq::empty(), Direction::Up);
        }
        match find(&self.tasks, id) {
            Some(place) => {
                let spent = self.tasks[place].spent.saturating_add(elapsed);
                let done = self.tasks[place].done;
                set_progress(&mut self.tasks, place, spent, done);
            },
            None => {},
        }
    }

    /// Turns the first task known by `id` from completed to not completed
    /// or back, and adds `elapsed` to the time spent on it. The first task
    /// not completed is then the active one.
    pub fn complete(&mut self, id: u64, elapsed: Span)
        requires
            old(self).wf(),
        ensures
            final(self)@ == old(self)@.completed(id, elapsed@),
            final(self).wf(),
    {
        proof {
            self@.lemma_wf_preserved(id, elapsed@, Seq::empty(), Direction::Up);
        }
        match find(&self.tasks, id) {
            Some(place) => {
                let spent = self.tasks[place].spent.saturating_add(elapsed);
                let done = !self.tasks[place].done;
                set_progress(&mut self.tasks, place, spent, done);
            },
            None => {},
        }
        self.active = first_incomplete(&self.tasks);
    }

    /// Chooses the active task by its number: choosing the active task
    /// leaves none active; choosing another makes it active, and not
    /// completed if it was.
    pub fn select(&mut self, id: u64)
        requires
            old(self).wf(),
        ensures
            final(self)@ == old(self)@.selected(id),
            final(self).wf(),
    {
        proof {
            self@.lemma_wf_preserved(id, 0, Seq::empty(), Direction::Up);
        }
        if self.active == Some(id) {
            self.active = None;
        } else {
            match find(&self.tasks, id) {
                Some(place) => {
                    let spent = self.tasks[place].spent;
                    set_progress(&mut self.tasks, place, spent, false);
                    self.active = Some(id);
                },
                None => {},
            }
        }
    }

    /// Moves the active task to its neighbour among the tasks not
    /// completed, the last being next to the first. The result says
    /// whether there was an active task and a task not completed, and so
    /// a move.
    pub fn move_active(&mut self, direction: Direction) -> (moved: bool)
        requires
            old(self).wf(),
        ensures
            final(self)@ == old(self)@.moved(direction),
            final(self).wf(),
            moved == (old(self)@.active is Some && open_ids(old(self)@.tasks).len() > 0),
    {
        proof {
            self@.lemma_wf_preserved(0, 0, Seq::empty(), direction);
        }
        let active = match self.active {
            Some(active) => active,
            None => {
                return false;
            },
        };
        let ids = collect_open_ids(&self.tasks);
        if ids.len() == 0 {
            return false;
        }
        let mut found: usize = 0;
        while found < ids.len() && ids[found] != active
            invariant
                0 <= found <= ids.len(),
                forall|j: int| 0 <= j < found ==> !same_as(active)(#[trigger] ids@[j]),
            decreases ids.len() - found,
        {
            found += 1;
        }
        proof {
            lemma_first_match_is(ids@, same_as(active), found as int);
        }
        let current: usize = if found < ids.len() {
            found
        } else {
            0
        };
        let next: usize = match direction {
            Direction::Up => if current == 0 {
                ids.len() - 1
            } else {
                current - 1
            },
            Direction::Down => if current + 1 == ids.len() {
                0
            } else {
                current + 1
            },
        };
        self.active = Some(ids[next]);
        true
    }

    /// Takes the first task known by `id` into editing, with its text.
    pub fn edit(&mut self, id: u64)
        requires
            old(self).wf(),
        ensures
            final(self)@ == old(self)@.edit_begun(id),
            final(self).wf(),
    {
        proof {
            self@.lemma_wf_preserved(id, 0, Seq::empty(), Direction::Up);
            lemma_first_match(self@.tasks, known_by(id), 0);
        }
        match find(&self.tasks, id) {
            Some(place) => {
                self.editing = Some((self.tasks[place].id, self.tasks[place].desc.clone()));
            },
            None => {},
        }
    }

    /// Takes `text` as what is typed for the task in editing.
    pub fn edit_input(&mut self, text: String)
        requires
            old(self).wf(),
        ensures
            final(self)@ == old(self)@.edit_typed(text@),
            final(self).wf(),
    {
        let slot: Option<u64> = match &self.editing {
            Some(slot) => Some(slot.0),
            None => None,
        };
        match slot {
            Some(id) => {
                self.editing = Some((id, text));
            },
            None => {},
        }
    }

    /// Ends the editing with `text`: where it is not empty, it becomes the
    /// text of the first task known by the number in editing.
    pub fn save_edit_as(&mut self, text: String)
        requires
            old(self).wf(),
        ensures
            final(self)@ == old(self)@.edit_saved(text@),
            final(self).wf(),
    {
        proof {
            self@.lemma_wf_preserved(0, 0, text@, Direction::Up);
        }
        let slot: Option<u64> = match &self.editing {
            Some(slot) => Some(slot.0),
            None => None,
        };
        match slot {
            Some(id) => {
                self.editing = None;
                if !text.as_str().is_empty() {
                    match find(&self.tasks, id) {
                        Some(place) => {
                            set_desc(&mut self.tasks, place, text);
                        },
                        None => {},
                    }
                }
            },
            None => {},
        }
    }

    /// Ends the editing: the trimmed text of the editing, where it is not
    /// empty, becomes the text of the first task known by the number in
    /// editing.
    pub fn save_edit(&mut self)
        requires
            old(self).wf(),
        ensures
            final(self)@ == old(self)@.edit_saved(
                match old(self)@.editing {
                    Some((_, text)) => trimmed(text),
                    None => Seq::empty(),
                },
            ),
            final(self).wf(),
    {
        let text = match &self.editing {
            Some(slot) => trim(slot.1.as_str()),
            None => String::new(),
        };
        self.save_edit_as(text);
    }

    /// Gives the editing up.
    pub fn cancel_edit(&mut self)
        requires
            old(self).wf(),
        ensures
            final(self)@ == old(self)@.edit_cancelled(),
            final(self).wf(),
    {
        self.editing = None;
    }

    /// Removes every task known by `id`. Where the active task is among
    /// them, or none was active, the first task left that is not completed
    /// becomes active.
    pub fn delete(&mut self, id: u64)
        requires
            old(self).wf(),
        ensures
            final(self)@ == old(self)@.deleted(id),
            final(self).wf(),
    {
        proof {
            self@.lemma_wf_preserved(id, 0, Seq::empty(), Direction::Up);
        }
        remove_known_by(&mut self.tasks, id);
        let rederive = match self.active {
            Some(active) => active == id,
            None => true,
        };
        if rederive {
            self.active = first_incomplete(&self.tasks);
        }
    }

    /// Removes every task; none is active then.
    pub fn clear_all(&mut self)
        requires
            old(self).wf(),
        ensures
            final(self)@ == old(self)@.cleared(),
            final(self).wf(),
    {
        self.tasks.clear();
        self.active = None;
        proof {
            assert(self@.tasks =~= Seq::<TaskView>::empty());
        }
    }

    /// Removes every completed task.
    pub fn end_day(&mut self)
        requires
            old(self).wf(),
        ensures
            final(self)@ == old(self)@.day_ended(),
            final(self).wf(),
    {
        proof {
            self@.lemma_wf_preserved(0, 0, Seq::empty(), Direction::Up);
        }
        remove_done(&mut self.tasks);
    }

    /// The time spent on the completed tasks, as far as a span can hold it,
    /// and their number.
    pub fn completed_stats(&self) -> (r: (Span, usize))
        ensures
            r.0@ == self@.stats().0,
            r.1 == self@.stats().1,
    {
        let ghost views = task_views(self.tasks@);
        let mut focused = Span::zero();
        let mut count: usize = 0;
        let mut i: usize = 0;
        while i < self.tasks.len()
            invariant
                0 <= i <= self.tasks.len(),
                views == task_views(self.tasks@),
                focused@ == capped(done_total(views.take(i as int))),
                count == done_count(views.take(i as int)),
                count <= i,
            decreases self.tasks.len() - i,
        {
            proof {
                assert(views.take(i + 1).drop_last() =~= views.take(i as int));
            }
            if self.tasks[i].done {
                focused = focused.saturating_add(self.tasks[i].spent);
                count += 1;
            }
            i += 1;
        }
        proof {
            assert(views.take(i as int) =~= views);
        }
        (focused, count)
    }
}

} // verus!

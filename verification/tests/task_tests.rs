use icemodoro::span::Span;
use icemodoro::tasks::{find, first_incomplete, Direction, Task, TaskStore};

fn task(id: u64, desc: &str, spent_secs: u64, done: bool) -> Task {
    Task { id, desc: desc.to_string(), spent: Span::from_secs(spent_secs), done }
}

fn store_with(descriptions: &[&str]) -> TaskStore {
    let mut store = TaskStore::new(Vec::new());
    for desc in descriptions {
        store.set_input(desc.to_string());
        store.add();
    }
    store
}

fn ids(store: &TaskStore) -> Vec<u64> {
    store.tasks().iter().map(|task| task.id).collect()
}

fn active_is_valid(store: &TaskStore) -> bool {
    match store.active() {
        Some(id) => store.tasks().iter().any(|task| task.id == id && !task.done),
        None => true,
    }
}

#[test]
fn task_new_is_untouched() {
    let made = Task::new(7, "write".to_string());
    assert_eq!(made.id, 7);
    assert_eq!(made.desc, "write");
    assert_eq!(made.spent, Span::zero());
    assert!(!made.done);
}

#[test]
fn store_of_nothing_starts_at_one() {
    let store = TaskStore::new(Vec::new());
    assert!(store.tasks().is_empty());
    assert_eq!(store.next_id(), 1);
    assert_eq!(store.active(), None);
    assert_eq!(store.editing(), None);
    assert_eq!(store.input(), "");
}

#[test]
fn store_of_stored_tasks_goes_on_after_the_largest_number() {
    let store = TaskStore::new(vec![task(4, "a", 0, true), task(9, "b", 0, false), task(2, "c", 0, false)]);
    assert_eq!(store.next_id(), 10);
    assert_eq!(store.active(), Some(9));
    let store = TaskStore::new(vec![task(3, "a", 0, true)]);
    assert_eq!(store.next_id(), 4);
    assert_eq!(store.active(), None);
    let store = TaskStore::new(vec![task(u64::MAX, "a", 0, false)]);
    assert_eq!(store.next_id(), 0);
}

#[test]
fn add_gives_growing_numbers() {
    let store = store_with(&["one", "two", "three"]);
    assert_eq!(ids(&store), vec![1, 2, 3]);
    assert_eq!(store.next_id(), 4);
    assert_eq!(store.tasks()[1].desc, "two");
    assert_eq!(store.tasks()[1].spent, Span::zero());
    assert!(!store.tasks()[1].done);
    assert_eq!(store.input(), "");
    assert_eq!(store.active(), None);
}

#[test]
fn add_never_gives_a_number_again_after_deletions() {
    let mut store = store_with(&["one", "two", "three"]);
    store.delete(3);
    store.delete(1);
    store.set_input("four".to_string());
    store.add();
    assert_eq!(ids(&store), vec![2, 4]);
    store.clear_all();
    store.set_input("five".to_string());
    store.add();
    assert_eq!(ids(&store), vec![5]);
    assert_eq!(store.next_id(), 6);
}

#[test]
fn add_of_empty_text_changes_nothing() {
    let mut store = store_with(&["one"]);
    store.set_input(String::new());
    store.add();
    assert_eq!(ids(&store), vec![1]);
    assert_eq!(store.next_id(), 2);
    store.add_trimmed(String::new());
    assert_eq!(ids(&store), vec![1]);
    assert_eq!(store.next_id(), 2);
}

#[test]
fn add_of_blank_text_changes_nothing() {
    let mut store = store_with(&["one"]);
    store.set_input("   ".to_string());
    store.add();
    assert_eq!(ids(&store), vec![1]);
    assert_eq!(store.next_id(), 2);
    assert_eq!(store.input(), "   ");
    store.set_input(" \t\n ".to_string());
    store.add();
    assert_eq!(ids(&store), vec![1]);
    assert_eq!(store.next_id(), 2);
}

#[test]
fn add_trims_the_text() {
    let mut store = TaskStore::new(Vec::new());
    store.set_input("  read the paper \n".to_string());
    store.add();
    assert_eq!(store.tasks()[0].desc, "read the paper");
    assert_eq!(store.input(), "");
}

#[test]
fn add_after_the_last_number_starts_again_at_zero() {
    let mut store = TaskStore::new(vec![task(u64::MAX - 1, "a", 0, false)]);
    assert_eq!(store.next_id(), u64::MAX);
    store.add_trimmed("b".to_string());
    assert_eq!(ids(&store), vec![u64::MAX - 1, u64::MAX]);
    assert_eq!(store.next_id(), 0);
}

#[test]
fn find_gives_the_first_place() {
    let tasks = vec![task(4, "a", 0, true), task(9, "b", 0, false), task(4, "c", 0, false)];
    assert_eq!(find(&tasks, 4), Some(0));
    assert_eq!(find(&tasks, 9), Some(1));
    assert_eq!(find(&tasks, 5), None);
    assert_eq!(first_incomplete(&tasks), Some(9));
    assert_eq!(first_incomplete(&Vec::new()), None);
}

#[test]
fn complete_twice_restores_the_flag_and_adds_the_time_twice() {
    let mut store = store_with(&["one", "two"]);
    store.complete(2, Span::from_secs(40));
    assert!(store.tasks()[1].done);
    assert_eq!(store.tasks()[1].spent, Span::from_secs(40));
    assert_eq!(store.active(), Some(1));
    store.complete(2, Span::from_secs(2));
    assert!(!store.tasks()[1].done);
    assert_eq!(store.tasks()[1].spent, Span::from_secs(42));
    assert_eq!(store.active(), Some(1));
    assert!(!store.tasks()[0].done);
    assert_eq!(store.tasks()[0].spent, Span::zero());
}

#[test]
fn complete_time_saturates() {
    let mut store = TaskStore::new(vec![task(1, "a", 5, false)]);
    store.complete(1, Span::longest());
    assert_eq!(store.tasks()[0].spent, Span::longest());
    store.complete(1, Span::from_secs(1));
    assert_eq!(store.tasks()[0].spent, Span::longest());
}

#[test]
fn complete_makes_the_first_open_task_active() {
    let mut store = store_with(&["one", "two", "three"]);
    store.select(2);
    store.complete(2, Span::zero());
    assert_eq!(store.active(), Some(1));
    store.complete(1, Span::zero());
    assert_eq!(store.active(), Some(3));
    store.complete(3, Span::zero());
    assert_eq!(store.active(), None);
    store.complete(77, Span::from_secs(5));
    assert_eq!(store.active(), None);
    assert_eq!(store.tasks()[0].spent, Span::zero());
}

#[test]
fn credit_adds_time_only() {
    let mut store = store_with(&["one", "two"]);
    store.select(2);
    store.credit(2, Span::from_secs(1590));
    assert_eq!(store.tasks()[1].spent, Span::from_secs(1590));
    assert!(!store.tasks()[1].done);
    assert_eq!(store.active(), Some(2));
    store.credit(9, Span::from_secs(5));
    assert_eq!(store.tasks()[0].spent, Span::zero());
}

#[test]
fn select_activates_deactivates_and_reopens() {
    let mut store = store_with(&["one", "two"]);
    store.select(2);
    assert_eq!(store.active(), Some(2));
    store.select(2);
    assert_eq!(store.active(), None);
    store.complete(1, Span::zero());
    assert!(store.tasks()[0].done);
    store.select(1);
    assert_eq!(store.active(), Some(1));
    assert!(!store.tasks()[0].done);
}

#[test]
fn select_of_an_unknown_number_changes_nothing() {
    let mut store = store_with(&["one", "two"]);
    store.select(1);
    store.select(42);
    assert_eq!(store.active(), Some(1));
    assert_eq!(ids(&store), vec![1, 2]);
}

#[test]
fn move_active_cycles_among_open_tasks() {
    let mut store = store_with(&["one", "two", "three", "four"]);
    store.complete(2, Span::zero());
    assert_eq!(store.active(), Some(1));
    assert!(store.move_active(Direction::Down));
    assert_eq!(store.active(), Some(3));
    assert!(store.move_active(Direction::Down));
    assert_eq!(store.active(), Some(4));
    assert!(store.move_active(Direction::Down));
    assert_eq!(store.active(), Some(1));
    assert!(store.move_active(Direction::Up));
    assert_eq!(store.active(), Some(4));
    assert!(store.move_active(Direction::Up));
    assert_eq!(store.active(), Some(3));
}

#[test]
fn move_active_without_active_task_changes_nothing() {
    let mut store = store_with(&["one", "two"]);
    assert_eq!(store.active(), None);
    assert!(!store.move_active(Direction::Down));
    assert_eq!(store.active(), None);
    let mut store = TaskStore::new(Vec::new());
    assert!(!store.move_active(Direction::Up));
}

#[test]
fn move_active_with_one_open_task_stays() {
    let mut store = store_with(&["one"]);
    store.select(1);
    assert!(store.move_active(Direction::Down));
    assert_eq!(store.active(), Some(1));
    assert!(store.move_active(Direction::Up));
    assert_eq!(store.active(), Some(1));
}

#[test]
fn edit_saves_the_trimmed_text() {
    let mut store = store_with(&["one", "two"]);
    store.edit(2);
    assert_eq!(store.editing(), Some((2, "two".to_string())));
    store.edit_input("  second  ".to_string());
    assert_eq!(store.editing(), Some((2, "  second  ".to_string())));
    store.save_edit();
    assert_eq!(store.editing(), None);
    assert_eq!(store.tasks()[1].desc, "second");
    assert_eq!(store.tasks()[0].desc, "one");
}

#[test]
fn edit_with_blank_text_is_discarded() {
    let mut store = store_with(&["one"]);
    store.edit(1);
    store.edit_input("   ".to_string());
    store.save_edit();
    assert_eq!(store.editing(), None);
    assert_eq!(store.tasks()[0].desc, "one");
    store.edit(1);
    store.save_edit_as(String::new());
    assert_eq!(store.editing(), None);
    assert_eq!(store.tasks()[0].desc, "one");
}

#[test]
fn edit_is_one_at_a_time_and_can_be_cancelled() {
    let mut store = store_with(&["one", "two"]);
    store.edit(1);
    store.edit(2);
    assert_eq!(store.editing(), Some((2, "two".to_string())));
    store.edit(99);
    assert_eq!(store.editing(), Some((2, "two".to_string())));
    store.cancel_edit();
    assert_eq!(store.editing(), None);
    store.edit_input("lost".to_string());
    assert_eq!(store.editing(), None);
    store.save_edit();
    assert_eq!(store.tasks()[1].desc, "two");
}

#[test]
fn edit_of_a_deleted_task_is_dropped_on_save() {
    let mut store = store_with(&["one", "two"]);
    store.edit(2);
    store.edit_input("changed".to_string());
    store.delete(2);
    store.save_edit();
    assert_eq!(store.editing(), None);
    assert_eq!(ids(&store), vec![1]);
    assert_eq!(store.tasks()[0].desc, "one");
}

#[test]
fn delete_of_the_active_task_activates_the_first_open_one() {
    let mut store = store_with(&["one", "two", "three"]);
    store.complete(1, Span::zero());
    store.select(3);
    store.delete(3);
    assert_eq!(ids(&store), vec![1, 2]);
    assert_eq!(store.active(), Some(2));
    store.delete(2);
    assert_eq!(store.active(), None);
}

#[test]
fn delete_of_another_task_keeps_the_active_one() {
    let mut store = store_with(&["one", "two", "three"]);
    store.select(3);
    store.delete(1);
    assert_eq!(store.active(), Some(3));
    assert_eq!(ids(&store), vec![2, 3]);
}

#[test]
fn delete_without_active_task_activates_the_first_open_one() {
    let mut store = store_with(&["one", "two", "three"]);
    assert_eq!(store.active(), None);
    store.delete(1);
    assert_eq!(store.active(), Some(2));
    store.delete(42);
    assert_eq!(store.active(), Some(2));
    assert_eq!(ids(&store), vec![2, 3]);
}

#[test]
fn delete_removes_every_task_of_that_number() {
    let mut store = TaskStore::new(vec![task(1, "a", 0, false), task(2, "b", 0, false), task(1, "c", 0, false)]);
    store.delete(1);
    assert_eq!(ids(&store), vec![2]);
    assert_eq!(store.active(), Some(2));
}

#[test]
fn clear_all_leaves_nothing_active() {
    let mut store = store_with(&["one", "two"]);
    store.select(2);
    store.clear_all();
    assert!(store.tasks().is_empty());
    assert_eq!(store.active(), None);
    assert_eq!(store.next_id(), 3);
}

#[test]
fn end_day_removes_the_completed_tasks() {
    let mut store = store_with(&["one", "two", "three", "four"]);
    store.complete(2, Span::from_secs(10));
    store.complete(4, Span::from_secs(20));
    store.select(3);
    store.end_day();
    assert_eq!(ids(&store), vec![1, 3]);
    assert_eq!(store.active(), Some(3));
    assert_eq!(store.next_id(), 5);
}

#[test]
fn completed_stats_sum_the_completed_tasks() {
    let store = TaskStore::new(vec![
        task(1, "a", 100, true),
        task(2, "b", 50, false),
        task(3, "c", 25, true),
    ]);
    assert_eq!(store.completed_stats(), (Span::from_secs(125), 2));
    assert_eq!(TaskStore::new(Vec::new()).completed_stats(), (Span::zero(), 0));
}

#[test]
fn completed_stats_saturate() {
    let mut tasks = vec![task(1, "a", 1, true), task(2, "b", 1, true)];
    tasks[0].spent = Span::longest();
    let store = TaskStore::new(tasks);
    assert_eq!(store.completed_stats(), (Span::longest(), 2));
}

#[test]
fn active_task_stays_valid_over_many_operations() {
    let mut store = TaskStore::new(Vec::new());
    let mut seed = 987654321u64;
    let mut last_next = store.next_id();
    for step in 0..3000 {
        seed = seed.wrapping_mul(6364136223846793005).wrapping_add(1442695040888963407);
        let choice = (seed >> 33) % 12;
        let known = ids(&store);
        let id = if known.is_empty() || (seed >> 20) % 5 == 0 {
            (seed >> 40) % 50
        } else {
            known[((seed >> 40) % known.len() as u64) as usize]
        };
        match choice {
            0 | 1 => {
                store.set_input(format!("task {step}"));
                store.add();
            }
            2 => store.complete(id, Span::from_secs(id % 60)),
            3 => store.select(id),
            4 => store.delete(id),
            5 => {
                store.move_active(Direction::Up);
            }
            6 => {
                store.move_active(Direction::Down);
            }
            7 => store.end_day(),
            8 => store.edit(id),
            9 => {
                store.edit_input(format!(" edited {step} "));
                store.save_edit();
            }
            10 => store.credit(id, Span::from_secs(3)),
            _ => {
                if step % 97 == 0 {
                    store.clear_all();
                }
            }
        }
        assert!(active_is_valid(&store), "after step {step}");
        assert!(store.next_id() >= last_next);
        last_next = store.next_id();
        let numbers = ids(&store);
        assert!(numbers.windows(2).all(|pair| pair[0] < pair[1]));
        assert!(numbers.iter().all(|number| *number < store.next_id()));
    }
}

#[test]
fn store_has_room_up_to_ten_tasks() {
    let mut store = TaskStore::new(Vec::new());
    for number in 0..10 {
        assert!(store.has_room());
        store.add_trimmed(format!("task {number}"));
    }
    assert!(store.has_room());
    store.add_trimmed("one more".to_string());
    assert!(!store.has_room());
}

#[test]
fn numbers_are_not_given_again_in_a_list_stored_out_of_order() {
    let mut store = TaskStore::new(vec![task(5, "a", 0, false), task(2, "b", 0, true), task(9, "c", 0, false)]);
    assert_eq!(store.next_id(), 10);
    let mut seen: Vec<u64> = ids(&store);
    let mut given: Vec<u64> = Vec::new();
    for round in 0..20u64 {
        store.delete(given.last().copied().unwrap_or(9));
        if round % 3 == 0 {
            store.end_day();
        }
        if round % 7 == 6 {
            store.clear_all();
        }
        store.complete(5, Span::from_secs(1));
        store.set_input(format!("task {round}"));
        store.add();
        let number = store.tasks().last().unwrap().id;
        assert!(!seen.contains(&number));
        assert!(given.iter().all(|earlier| *earlier < number));
        assert_eq!(store.next_id(), number + 1);
        seen.push(number);
        given.push(number);
        let numbers = ids(&store);
        for (place, one) in numbers.iter().enumerate() {
            assert!(!numbers[place + 1..].contains(one));
            assert!(*one < store.next_id());
        }
    }
    assert_eq!(given, (10..30).collect::<Vec<u64>>());
}

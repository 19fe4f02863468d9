use reactive_todo::item::{Resolution, TodoItemState, ToggleError, ToggleRequest};
use reactive_todo::record::{count_incomplete, TodoRecord};
use reactive_todo::runtime::Runtime;
use reactive_todo::signal::Signal;

fn record(id: u64, completed: bool, text: &str) -> TodoRecord {
    TodoRecord::new(id, completed, text)
}

#[test]
fn a_record_keeps_its_fields() {
    let r = TodoRecord::new(7, true, "Water the plants");
    assert_eq!(r.id, 7);
    assert!(r.completed);
    assert_eq!(r.text, "Water the plants");
    assert_eq!(r, TodoRecord { id: 7, completed: true, text: "Water the plants".to_string() });
}

#[test]
fn counting_what_is_left() {
    assert_eq!(count_incomplete(&vec![]), 0);
    assert_eq!(count_incomplete(&vec![record(0, true, "a")]), 0);
    assert_eq!(count_incomplete(&vec![record(0, false, "a")]), 1);
    let list = vec![record(0, false, "a"), record(1, true, "b"), record(2, false, "c")];
    assert_eq!(count_incomplete(&list), 2);
    let turned = vec![record(2, false, "c"), record(1, true, "b"), record(0, false, "a")];
    assert_eq!(count_incomplete(&turned), 2);
}

#[test]
fn an_item_that_is_not_completed_is_counted_when_it_is_made() {
    let mut rt = Runtime::new();
    let mut counter = Signal::create(0i32, &mut rt);
    let header = rt.add_observer();
    rt.enter(header);
    counter.get(&mut rt);
    rt.exit();
    let (item, told) = TodoItemState::mount(&record(3, false, "Buy milk"), &mut counter, &mut rt);
    assert_eq!(counter.get_untracked(), 1);
    assert_eq!(told, vec![header]);
    assert_eq!(item.id(), 3);
    assert_eq!(item.text(), "Buy milk");
    assert!(!item.completed());
    assert!(!item.updating());
    assert!(!item.is_completed(&mut rt));
    assert!(!item.is_updating(&mut rt));
}

#[test]
fn an_item_that_is_completed_is_not_counted_when_it_is_made() {
    let mut rt = Runtime::new();
    let mut counter = Signal::create(5i32, &mut rt);
    let header = rt.add_observer();
    rt.enter(header);
    counter.get(&mut rt);
    rt.exit();
    let (item, told) = TodoItemState::mount(&record(4, true, "Done"), &mut counter, &mut rt);
    assert_eq!(counter.get_untracked(), 5);
    assert_eq!(told, Vec::<usize>::new());
    assert!(item.completed());
    assert!(!item.updating());
}

#[test]
fn a_successful_toggle_of_an_open_item_lowers_the_tally() {
    let mut rt = Runtime::new();
    let mut counter = Signal::create(0i32, &mut rt);
    let (mut item, _) = TodoItemState::mount(&record(0, false, "A"), &mut counter, &mut rt);
    assert_eq!(counter.get_untracked(), 1);
    let (request, _) = item.begin_toggle(&rt);
    assert_eq!(request, Some(ToggleRequest { id: 0 }));
    let (resolution, _) = item.resolve(Ok(()), &mut counter, &rt);
    assert_eq!(resolution, Resolution::Toggled);
    assert!(item.completed());
    assert_eq!(counter.get_untracked(), 0);
}

#[test]
fn a_successful_toggle_of_a_completed_item_raises_the_tally() {
    let mut rt = Runtime::new();
    let mut counter = Signal::create(0i32, &mut rt);
    let (mut item, _) = TodoItemState::mount(&record(1, true, "B"), &mut counter, &mut rt);
    assert_eq!(counter.get_untracked(), 0);
    let (request, _) = item.begin_toggle(&rt);
    assert_eq!(request, Some(ToggleRequest { id: 1 }));
    let (resolution, _) = item.resolve(Ok(()), &mut counter, &rt);
    assert_eq!(resolution, Resolution::Toggled);
    assert!(!item.completed());
    assert_eq!(counter.get_untracked(), 1);
}

#[test]
fn toggling_twice_brings_flag_and_tally_back() {
    let mut rt = Runtime::new();
    let mut counter = Signal::create(0i32, &mut rt);
    let (mut item, _) = TodoItemState::mount(&record(0, false, "A"), &mut counter, &mut rt);
    item.begin_toggle(&rt);
    item.resolve(Ok(()), &mut counter, &rt);
    item.begin_toggle(&rt);
    item.resolve(Ok(()), &mut counter, &rt);
    assert!(!item.completed());
    assert_eq!(counter.get_untracked(), 1);
}

#[test]
fn an_item_shows_as_updating_from_the_gesture_to_the_end_of_the_call() {
    let mut rt = Runtime::new();
    let mut counter = Signal::create(0i32, &mut rt);
    let (mut item, _) = TodoItemState::mount(&record(0, false, "A"), &mut counter, &mut rt);
    assert!(!item.updating());
    item.begin_toggle(&rt);
    assert!(item.updating());
    assert!(item.is_updating(&mut rt));
    // the flag and the tally wait for the end of the call
    assert!(!item.completed());
    assert_eq!(counter.get_untracked(), 1);
    item.resolve(Ok(()), &mut counter, &rt);
    assert!(!item.updating());

    item.begin_toggle(&rt);
    assert!(item.updating());
    item.resolve(Err(ToggleError::Transport), &mut counter, &rt);
    assert!(!item.updating());
}

#[test]
fn a_failed_toggle_leaves_flag_and_tally_and_ends_the_update() {
    let mut rt = Runtime::new();
    let mut counter = Signal::create(0i32, &mut rt);
    let (mut item, _) = TodoItemState::mount(&record(0, false, "A"), &mut counter, &mut rt);
    item.begin_toggle(&rt);
    let (resolution, _) = item.resolve(Err(ToggleError::Transport), &mut counter, &rt);
    assert_eq!(resolution, Resolution::Failed(ToggleError::Transport));
    assert!(!item.completed());
    assert!(!item.updating());
    assert_eq!(counter.get_untracked(), 1);
    // the gesture can be made again
    let (request, _) = item.begin_toggle(&rt);
    assert_eq!(request, Some(ToggleRequest { id: 0 }));
    let (resolution, _) = item.resolve(Ok(()), &mut counter, &rt);
    assert_eq!(resolution, Resolution::Toggled);
    assert!(item.completed());
    assert_eq!(counter.get_untracked(), 0);
}

#[test]
fn a_gesture_on_an_updating_item_is_turned_away() {
    let mut rt = Runtime::new();
    let mut counter = Signal::create(0i32, &mut rt);
    let (mut item, _) = TodoItemState::mount(&record(9, false, "A"), &mut counter, &mut rt);
    let watcher = rt.add_observer();
    rt.enter(watcher);
    item.is_updating(&mut rt);
    rt.exit();
    let (first, told) = item.begin_toggle(&rt);
    assert_eq!(first, Some(ToggleRequest { id: 9 }));
    assert_eq!(told, vec![watcher]);
    let (second, told) = item.begin_toggle(&rt);
    assert_eq!(second, None);
    assert_eq!(told, Vec::<usize>::new());
    assert!(item.updating());
    item.resolve(Ok(()), &mut counter, &rt);
    // one toggle was carried out, so the tally moved once
    assert_eq!(counter.get_untracked(), 0);
    assert!(item.completed());
}

#[test]
fn a_report_without_a_toggle_under_way_is_ignored() {
    let mut rt = Runtime::new();
    let mut counter = Signal::create(0i32, &mut rt);
    let (mut item, _) = TodoItemState::mount(&record(0, false, "A"), &mut counter, &mut rt);
    let (resolution, told) = item.resolve(Ok(()), &mut counter, &rt);
    assert_eq!(resolution, Resolution::Ignored);
    assert_eq!(told, Vec::<usize>::new());
    assert!(!item.completed());
    assert_eq!(counter.get_untracked(), 1);
    item.begin_toggle(&rt);
    item.resolve(Ok(()), &mut counter, &rt);
    let (resolution, _) = item.resolve(Ok(()), &mut counter, &rt);
    assert_eq!(resolution, Resolution::Ignored);
    assert!(item.completed());
    assert_eq!(counter.get_untracked(), 0);
}

#[test]
fn a_toggle_names_those_who_read_what_it_wrote() {
    let mut rt = Runtime::new();
    let mut counter = Signal::create(0i32, &mut rt);
    let (mut item, _) = TodoItemState::mount(&record(0, false, "A"), &mut counter, &mut rt);
    let header = rt.add_observer();
    let checkbox = rt.add_observer();
    let label = rt.add_observer();
    rt.enter(header);
    counter.get(&mut rt);
    rt.exit();
    rt.enter(checkbox);
    item.is_completed(&mut rt);
    rt.exit();
    rt.enter(label);
    item.is_completed(&mut rt);
    item.is_updating(&mut rt);
    rt.exit();
    let (_, told) = item.begin_toggle(&rt);
    assert_eq!(told, vec![label]);
    let (_, told) = item.resolve(Ok(()), &mut counter, &rt);
    assert_eq!(told, vec![header, checkbox, label, label]);
    let (_, _) = item.begin_toggle(&rt);
    let (_, told) = item.resolve(Err(ToggleError::Transport), &mut counter, &rt);
    assert_eq!(told, vec![label]);
}

#[test]
fn taking_an_item_away_takes_its_share_out_of_the_tally() {
    let mut rt = Runtime::new();
    let mut counter = Signal::create(0i32, &mut rt);
    let (open, _) = TodoItemState::mount(&record(0, false, "A"), &mut counter, &mut rt);
    let (done, _) = TodoItemState::mount(&record(1, true, "B"), &mut counter, &mut rt);
    assert_eq!(counter.get_untracked(), 1);
    done.unmount(&mut counter, &rt);
    assert_eq!(counter.get_untracked(), 1);
    open.unmount(&mut counter, &rt);
    assert_eq!(counter.get_untracked(), 0);
}

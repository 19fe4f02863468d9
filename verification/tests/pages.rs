use reactive_todo::item::{Resolution, ToggleError};
use reactive_todo::page::{Composition, PendingToggle, TodoPage};
use reactive_todo::record::TodoRecord;
use reactive_todo::resource::LoadError;

fn record(id: u64, completed: bool, text: &str) -> TodoRecord {
    TodoRecord::new(id, completed, text)
}

fn loaded(records: Vec<TodoRecord>) -> TodoPage {
    let (mut page, request) = TodoPage::create();
    assert!(page.list_loaded(request.ticket, Ok(records)).0);
    page.compose();
    page
}

#[test]
fn end_to_end_scenario() {
    let (mut page, request) = TodoPage::create();
    assert_eq!(request.ticket, 1);
    let (accepted, _) =
        page.list_loaded(request.ticket, Ok(vec![record(0, false, "A"), record(1, true, "B")]));
    assert!(accepted);
    assert_eq!(page.compose().0, Composition::Items(2));
    assert_eq!(page.remaining(), 1);

    let (pending, _) = page.toggle(0);
    let pending = pending.unwrap();
    assert_eq!(pending, PendingToggle { id: 0, index: 0, list_ticket: 1 });
    assert!(page.item_updating(0));
    assert_eq!(page.remaining(), 1);

    let (resolution, _) = page.toggle_resolved(pending, Ok(()));
    assert_eq!(resolution, Resolution::Toggled);
    assert_eq!(page.remaining(), 0);
    assert!(page.item_completed(0));
    assert!(!page.item_updating(0));
    assert!(page.item_completed(1));
}

#[test]
fn the_page_shows_a_placeholder_until_the_list_is_there() {
    let (mut page, _) = TodoPage::create();
    assert_eq!(page.compose(), (Composition::Loading, vec![]));
    assert_eq!(page.len(), 0);
    assert_eq!(page.remaining(), 0);
}

#[test]
fn a_failed_load_is_shown_as_failed() {
    let (mut page, request) = TodoPage::create();
    assert!(page.list_loaded(request.ticket, Err(LoadError::Fetch)).0);
    assert_eq!(page.compose().0, Composition::Failed);
    assert_eq!(page.len(), 0);
    assert_eq!(page.remaining(), 0);

    let (mut page, request) = TodoPage::create();
    assert!(page.list_loaded(request.ticket, Err(LoadError::Parse)).0);
    assert_eq!(page.compose().0, Composition::Failed);
    assert_eq!(page.compose().0, Composition::Failed);
}

#[test]
fn there_is_one_item_for_each_record_in_order() {
    let mut page = loaded(vec![
        record(10, false, "Test todo 1"),
        record(11, true, "Test todo 2"),
        record(12, false, "Test todo 3"),
    ]);
    assert_eq!(page.len(), 3);
    assert_eq!(page.item_id(0), 10);
    assert_eq!(page.item_id(1), 11);
    assert_eq!(page.item_id(2), 12);
    assert_eq!(page.item_text(0), "Test todo 1");
    assert_eq!(page.item_text(1), "Test todo 2");
    assert_eq!(page.item_text(2), "Test todo 3");
    assert!(!page.item_completed(0));
    assert!(page.item_completed(1));
    assert!(!page.item_completed(2));
    assert!(!page.item_updating(0));
    assert!(!page.item_updating(1));
    assert!(!page.item_updating(2));
    assert_eq!(page.remaining(), 2);
}

#[test]
fn the_tally_counts_the_open_records_whatever_their_number_and_order() {
    assert_eq!(loaded(vec![]).remaining(), 0);
    assert_eq!(loaded(vec![record(0, true, "a")]).remaining(), 0);
    assert_eq!(loaded(vec![record(0, false, "a")]).remaining(), 1);
    let a = || record(0, false, "a");
    let b = || record(1, true, "b");
    let c = || record(2, false, "c");
    let d = || record(3, false, "d");
    assert_eq!(loaded(vec![a(), b(), c(), d()]).remaining(), 3);
    assert_eq!(loaded(vec![d(), c(), b(), a()]).remaining(), 3);
    assert_eq!(loaded(vec![b(), a(), d(), c()]).remaining(), 3);
    let many: Vec<TodoRecord> = (0u64..100).map(|i| record(i, i % 3 == 0, "x")).collect();
    assert_eq!(loaded(many).remaining(), 66);
}

#[test]
fn composing_again_counts_nothing_twice() {
    let mut page = loaded(vec![record(0, false, "A"), record(1, false, "B")]);
    assert_eq!(page.remaining(), 2);
    assert_eq!(page.compose(), (Composition::Items(2), vec![]));
    assert_eq!(page.compose(), (Composition::Items(2), vec![]));
    assert_eq!(page.remaining(), 2);
    assert_eq!(page.len(), 2);

    // the items are kept, not made anew: a toggle under way survives
    let (pending, _) = page.toggle(1);
    assert_eq!(page.compose().0, Composition::Items(2));
    assert!(page.item_updating(1));
    assert_eq!(page.toggle_resolved(pending.unwrap(), Ok(())).0, Resolution::Toggled);
    assert_eq!(page.compose().0, Composition::Items(2));
    assert_eq!(page.remaining(), 1);
    assert!(page.item_completed(1));
}

#[test]
fn the_tally_follows_every_toggle() {
    let mut page = loaded(vec![record(0, false, "A"), record(1, true, "B"), record(2, false, "C")]);
    assert_eq!(page.remaining(), 2);
    let (p, _) = page.toggle(1);
    assert_eq!(page.toggle_resolved(p.unwrap(), Ok(())).0, Resolution::Toggled);
    assert_eq!(page.remaining(), 3);
    assert!(!page.item_completed(1));
    let (p, _) = page.toggle(0);
    assert_eq!(page.toggle_resolved(p.unwrap(), Ok(())).0, Resolution::Toggled);
    assert_eq!(page.remaining(), 2);
    let (p, _) = page.toggle(2);
    let failed = page.toggle_resolved(p.unwrap(), Err(ToggleError::Transport)).0;
    assert_eq!(failed, Resolution::Failed(ToggleError::Transport));
    assert_eq!(page.remaining(), 2);
    assert!(!page.item_completed(2));
    assert!(!page.item_updating(2));
}

#[test]
fn toggles_of_different_items_may_overlap() {
    let mut page = loaded(vec![record(0, false, "A"), record(1, false, "B")]);
    let first = page.toggle(0).0.unwrap();
    let second = page.toggle(1).0.unwrap();
    assert!(page.item_updating(0));
    assert!(page.item_updating(1));
    assert_eq!(page.toggle_resolved(second, Ok(())).0, Resolution::Toggled);
    assert_eq!(page.remaining(), 1);
    assert!(page.item_updating(0));
    assert_eq!(page.toggle_resolved(first, Ok(())).0, Resolution::Toggled);
    assert_eq!(page.remaining(), 0);
}

#[test]
fn a_gesture_is_turned_away_while_the_item_updates_and_where_no_item_is() {
    let mut page = loaded(vec![record(5, false, "A")]);
    let (first, _) = page.toggle(0);
    assert_eq!(first, Some(PendingToggle { id: 5, index: 0, list_ticket: 1 }));
    assert_eq!(page.toggle(0), (None, vec![]));
    assert_eq!(page.toggle(1), (None, vec![]));
    assert_eq!(page.toggle(usize::MAX), (None, vec![]));
    assert_eq!(page.toggle_resolved(first.unwrap(), Ok(())).0, Resolution::Toggled);
    assert_eq!(page.remaining(), 0);
}

#[test]
fn a_report_for_no_standing_toggle_is_ignored() {
    let mut page = loaded(vec![record(5, false, "A")]);
    let forged = PendingToggle { id: 5, index: 0, list_ticket: 1 };
    assert_eq!(page.toggle_resolved(forged, Ok(())), (Resolution::Ignored, vec![]));
    let pending = page.toggle(0).0.unwrap();
    let wrong_id = PendingToggle { id: 6, ..pending };
    let wrong_place = PendingToggle { index: 3, ..pending };
    let wrong_load = PendingToggle { list_ticket: 2, ..pending };
    assert_eq!(page.toggle_resolved(wrong_id, Ok(())).0, Resolution::Ignored);
    assert_eq!(page.toggle_resolved(wrong_place, Ok(())).0, Resolution::Ignored);
    assert_eq!(page.toggle_resolved(wrong_load, Ok(())).0, Resolution::Ignored);
    assert_eq!(page.remaining(), 1);
    assert!(page.item_updating(0));
    assert_eq!(page.toggle_resolved(pending, Ok(())).0, Resolution::Toggled);
    assert_eq!(page.toggle_resolved(pending, Ok(())).0, Resolution::Ignored);
    assert_eq!(page.remaining(), 0);
}

#[test]
fn a_new_load_replaces_the_items_and_their_shares() {
    let mut page = loaded(vec![record(0, false, "A"), record(1, false, "B")]);
    assert_eq!(page.remaining(), 2);
    let stale = page.toggle(0).0.unwrap();
    let request = page.reload();
    assert_eq!(request.ticket, 2);
    // until the new load is there, the page shows what it showed
    assert_eq!(page.compose().0, Composition::Items(2));
    assert_eq!(page.remaining(), 2);
    let fresh = vec![record(7, true, "X"), record(8, false, "Y"), record(9, true, "Z")];
    assert!(page.list_loaded(request.ticket, Ok(fresh)).0);
    assert_eq!(page.compose().0, Composition::Items(3));
    assert_eq!(page.remaining(), 1);
    assert_eq!(page.item_id(0), 7);
    assert!(!page.item_updating(0));
    // the toggle of an item that was taken away changes nothing
    assert_eq!(page.toggle_resolved(stale, Ok(())).0, Resolution::Ignored);
    assert_eq!(page.remaining(), 1);
    assert!(page.item_completed(0));
}

#[test]
fn a_load_that_fails_after_one_that_succeeded_takes_the_items_away() {
    let mut page = loaded(vec![record(0, false, "A")]);
    assert_eq!(page.remaining(), 1);
    let request = page.reload();
    assert!(page.list_loaded(request.ticket, Err(LoadError::Fetch)).0);
    assert_eq!(page.compose().0, Composition::Failed);
    assert_eq!(page.len(), 0);
    assert_eq!(page.remaining(), 0);
}

#[test]
fn the_completion_of_a_load_that_was_superseded_is_dropped() {
    let (mut page, first) = TodoPage::create();
    let second = page.reload();
    assert!(page.list_loaded(second.ticket, Ok(vec![record(1, false, "new")])).0);
    let late = vec![record(0, false, "old"), record(2, false, "old")];
    assert!(!page.list_loaded(first.ticket, Ok(late)).0);
    assert_eq!(page.compose().0, Composition::Items(1));
    assert_eq!(page.item_text(0), "new");
    assert_eq!(page.remaining(), 1);
}

#[test]
fn fragments_are_named_when_what_they_read_has_changed() {
    let (mut page, request) = TodoPage::create();
    let header = page.add_observer();
    let list = page.add_observer();
    let first = page.add_observer();
    let second = page.add_observer();
    assert_eq!(page.observer_count(), 5);

    page.enter(header);
    assert_eq!(page.remaining(), 0);
    page.exit();
    page.enter(list);
    assert_eq!(page.compose(), (Composition::Loading, vec![]));
    page.exit();

    let records = vec![record(0, false, "A"), record(1, true, "B")];
    let (_, told) = page.list_loaded(request.ticket, Ok(records));
    assert_eq!(told, vec![list]);
    page.enter(list);
    let (shown, told) = page.compose();
    page.exit();
    assert_eq!(shown, Composition::Items(2));
    assert_eq!(told, vec![header]);

    page.enter(first);
    page.item_completed(0);
    page.item_updating(0);
    page.exit();
    page.enter(second);
    page.item_completed(1);
    page.item_updating(1);
    page.exit();

    let (pending, told) = page.toggle(0);
    assert_eq!(told, vec![first]);
    let (_, told) = page.toggle_resolved(pending.unwrap(), Ok(()));
    assert_eq!(told, vec![header, first, first]);
    assert!(!told.contains(&second));
    assert!(!told.contains(&list));
}

fn open_items(page: &mut TodoPage) -> i32 {
    let mut open = 0;
    for index in 0..page.len() {
        if !page.item_completed(index) {
            open += 1;
        }
    }
    open
}

#[test]
fn the_tally_is_the_number_of_open_items_after_every_step() {
    let (mut page, request) = TodoPage::create();
    let mut requests = vec![request.ticket];
    let mut pending: Vec<PendingToggle> = Vec::new();
    let mut seed: u64 = 0x2545f4914f6cdd1d;
    let mut next = move |bound: u64| {
        seed = seed.wrapping_mul(6364136223846793005).wrapping_add(1442695040888963407);
        (seed >> 33) % bound
    };
    for step in 0..2000u64 {
        match next(8) {
            0 => {
                requests.push(page.reload().ticket);
            },
            1 => {
                if !requests.is_empty() {
                    let at = next(requests.len() as u64) as usize;
                    let ticket = requests.remove(at);
                    let size = next(6);
                    let records: Vec<TodoRecord> =
                        (0..size).map(|i| record(step * 10 + i, next(2) == 0, "x")).collect();
                    let outcome = if next(5) == 0 { Err(LoadError::Fetch) } else { Ok(records) };
                    let newest = ticket == page.latest_ticket();
                    assert_eq!(page.list_loaded(ticket, outcome).0, newest);
                }
            },
            2 => {
                page.compose();
            },
            3 | 4 => {
                let index = next(6) as usize;
                let idle = index < page.len() && !page.item_updating(index);
                let (begun, _) = page.toggle(index);
                assert_eq!(begun.is_some(), idle);
                if let Some(toggle) = begun {
                    pending.push(toggle);
                }
            },
            _ => {
                if !pending.is_empty() {
                    let at = next(pending.len() as u64) as usize;
                    let toggle = pending.remove(at);
                    let before = page.remaining();
                    let outcome = if next(3) == 0 { Err(ToggleError::Transport) } else { Ok(()) };
                    let went_well = outcome.is_ok();
                    match page.toggle_resolved(toggle, outcome).0 {
                        Resolution::Toggled => {
                            assert!(went_well);
                            let now_done = page.item_completed(toggle.index);
                            let step = if now_done { -1 } else { 1 };
                            assert_eq!(page.remaining(), before + step);
                            assert!(!page.item_updating(toggle.index));
                        },
                        Resolution::Failed(ToggleError::Transport) => {
                            assert!(!went_well);
                            assert_eq!(page.remaining(), before);
                            assert!(!page.item_updating(toggle.index));
                        },
                        Resolution::Ignored => {
                            assert_eq!(page.remaining(), before);
                        },
                    }
                }
            },
        }
        assert_eq!(page.remaining(), open_items(&mut page));
    }
}

use todo::state::AppState;
use todo::task::ToDo;

const NOW: i64 = 1_700_000_000;

#[test]
fn create_adds_one_task_at_front() {
    let mut s = AppState::new();
    s.create("first".to_string(), None, NOW);
    let before = s.todos.len();
    let t = s.create("Buy milk".to_string(), None, NOW).expect("non-empty title creates");
    assert_eq!(s.todos.len(), before + 1);
    assert_eq!(s.todos[0].id, t.id);
    assert_eq!(s.todos[0].title, "Buy milk");
    assert_eq!(s.todos[0].completed, false);
    assert_eq!(s.todos[0].due_date, None);
    assert_eq!(s.todos[0].created_at, NOW);
    assert!(s.todos[0].tags.is_empty());
}

#[test]
fn create_with_empty_title_changes_nothing() {
    let mut s = AppState::new();
    s.create("kept".to_string(), None, NOW);
    let n = s.todos.len();
    let next = s.next_id;
    assert!(s.create("".to_string(), None, NOW).is_none());
    assert!(s.create("   \t\n".to_string(), None, NOW).is_none());
    assert_eq!(s.todos.len(), n);
    assert_eq!(s.next_id, next);
}

#[test]
fn create_normalizes_empty_description() {
    let mut s = AppState::new();
    let a = s.create("a".to_string(), Some("".to_string()), NOW).unwrap();
    let b = s.create("b".to_string(), Some("details".to_string()), NOW).unwrap();
    assert_eq!(a.description, None);
    assert_eq!(b.description, Some("details".to_string()));
}

#[test]
fn generated_ids_are_distinct_and_consecutive() {
    let mut s = AppState::new();
    let mut ids: Vec<u32> = Vec::new();
    for _ in 0..100 {
        ids.push(s.generate_id());
    }
    for k in 0..ids.len() {
        assert_eq!(ids[k], 1 + k as u32);
    }
    for p in 0..ids.len() {
        for q in (p + 1)..ids.len() {
            assert_ne!(ids[p], ids[q]);
        }
    }
}

#[test]
fn create_never_reuses_an_id_after_delete() {
    let mut s = AppState::new();
    let a = s.create("a".to_string(), None, NOW).unwrap();
    s.delete(a.id);
    let b = s.create("b".to_string(), None, NOW).unwrap();
    assert_ne!(a.id, b.id);
}

#[test]
fn delete_of_absent_id_changes_nothing() {
    let mut s = AppState::new();
    s.create("one".to_string(), None, NOW);
    s.create("two".to_string(), None, NOW);
    let titles: Vec<String> = s.todos.iter().map(|t| t.title.clone()).collect();
    let ids: Vec<u32> = s.todos.iter().map(|t| t.id).collect();
    s.delete(999);
    assert_eq!(s.todos.len(), 2);
    assert_eq!(titles, s.todos.iter().map(|t| t.title.clone()).collect::<Vec<_>>());
    assert_eq!(ids, s.todos.iter().map(|t| t.id).collect::<Vec<_>>());
}

#[test]
fn delete_removes_only_the_named_task() {
    let mut s = AppState::new();
    let a = s.create("a".to_string(), None, NOW).unwrap();
    let b = s.create("b".to_string(), None, NOW).unwrap();
    s.delete(a.id);
    assert_eq!(s.todos.len(), 1);
    assert_eq!(s.todos[0].id, b.id);
}

#[test]
fn toggle_twice_restores_completion() {
    let mut s = AppState::new();
    let t = s.create("task".to_string(), None, NOW).unwrap();
    let before = s.todos[0].completed;
    s.toggle_completion(t.id);
    assert_eq!(s.todos[0].completed, !before);
    s.toggle_completion(t.id);
    assert_eq!(s.todos[0].completed, before);
}

#[test]
fn toggle_of_absent_id_changes_nothing() {
    let mut s = AppState::new();
    s.create("task".to_string(), None, NOW);
    let before = s.todos[0].completed;
    s.toggle_completion(12345);
    assert_eq!(s.todos[0].completed, before);
}

#[test]
fn past_due_date_is_overdue_on_next_listing() {
    let mut s = AppState::new();
    let t = s.create("soon".to_string(), None, NOW).unwrap();
    s.set_due(t.id, NOW - 60);
    assert_eq!(s.todos[0].is_overdue, false, "the flag is not computed at write time");
    let listed = s.list_all(NOW);
    assert_eq!(listed[0].is_overdue, true);
    assert_eq!(s.todos[0].is_overdue, true);
}

#[test]
fn future_due_date_is_not_overdue() {
    let mut s = AppState::new();
    let t = s.create("later".to_string(), None, NOW).unwrap();
    s.set_due(t.id, NOW + 3600);
    let listed = s.list_all(NOW);
    assert_eq!(listed[0].is_overdue, false);
}

#[test]
fn reschedule_parses_the_minute_format() {
    let mut s = AppState::new();
    let t = s.create("epoch".to_string(), None, NOW).unwrap();
    s.reschedule(t.id, "1970-01-01T00:00");
    assert_eq!(s.todos[0].due_date, Some(0));
    s.reschedule(t.id, "1970-01-01T01:30");
    assert_eq!(s.todos[0].due_date, Some(5400));
}

#[test]
fn reschedule_with_unparsable_text_changes_nothing() {
    let mut s = AppState::new();
    let t = s.create("task".to_string(), None, NOW).unwrap();
    s.reschedule(t.id, "1970-01-01T00:00");
    s.reschedule(t.id, "not a date");
    assert_eq!(s.todos[0].due_date, Some(0));
    s.reschedule(t.id, "1970-13-40T99:99");
    assert_eq!(s.todos[0].due_date, Some(0));
}

#[test]
fn rename_with_empty_title_keeps_title_but_edits_the_rest() {
    let mut s = AppState::new();
    let t = s.create("Original".to_string(), None, NOW).unwrap();
    s.rename_and_redescribe(
        t.id,
        "".to_string(),
        "new details".to_string(),
        vec!["work".to_string(), "urgent".to_string()],
    );
    assert_eq!(s.todos[0].title, "Original");
    assert_eq!(s.todos[0].description, Some("new details".to_string()));
    assert_eq!(s.todos[0].tags, vec!["work".to_string(), "urgent".to_string()]);
}

#[test]
fn rename_with_nonempty_title_replaces_it() {
    let mut s = AppState::new();
    let t = s.create("Original".to_string(), None, NOW).unwrap();
    s.rename_and_redescribe(t.id, "Renamed".to_string(), "".to_string(), vec![]);
    assert_eq!(s.todos[0].title, "Renamed");
    assert_eq!(s.todos[0].description, None);
    assert!(s.todos[0].tags.is_empty());
}

#[test]
fn rename_drops_repeated_tags() {
    let mut s = AppState::new();
    let t = s.create("task".to_string(), None, NOW).unwrap();
    s.rename_and_redescribe(
        t.id,
        "".to_string(),
        "".to_string(),
        vec!["a".to_string(), "a".to_string(), "b".to_string(), "a".to_string()],
    );
    assert_eq!(s.todos[0].tags, vec!["a".to_string(), "b".to_string()]);
}

#[test]
fn rename_of_absent_id_changes_nothing() {
    let mut s = AppState::new();
    s.create("task".to_string(), None, NOW);
    s.rename_and_redescribe(999, "x".to_string(), "y".to_string(), vec!["z".to_string()]);
    assert_eq!(s.todos[0].title, "task");
    assert_eq!(s.todos[0].description, None);
    assert!(s.todos[0].tags.is_empty());
    assert!(s.tags.is_empty(), "the registry is untouched when the id is absent");
}

#[test]
fn registry_holds_the_submitted_tags_after_rename() {
    let mut s = AppState::new();
    let t = s.create("task".to_string(), None, NOW).unwrap();
    s.rename_and_redescribe(
        t.id,
        "".to_string(),
        "".to_string(),
        vec!["work".to_string(), "urgent".to_string()],
    );
    assert!(s.tags.contains(&"work".to_string()));
    assert!(s.tags.contains(&"urgent".to_string()));
}

#[test]
fn rename_replaces_the_whole_registry() {
    let mut s = AppState::new();
    let t = s.create("task".to_string(), None, NOW).unwrap();
    s.rename_and_redescribe(t.id, "".to_string(), "".to_string(), vec!["old".to_string()]);
    s.rename_and_redescribe(t.id, "".to_string(), "".to_string(), vec!["new".to_string()]);
    assert_eq!(s.tags, vec!["new".to_string()]);
}

#[test]
fn add_tag_grows_task_and_registry_without_repeats() {
    let mut s = AppState::new();
    let t = s.create("task".to_string(), None, NOW).unwrap();
    s.add_tag(t.id, "home".to_string());
    s.add_tag(t.id, "home".to_string());
    s.add_tag(t.id, "garden".to_string());
    assert_eq!(s.todos[0].tags, vec!["home".to_string(), "garden".to_string()]);
    assert_eq!(s.tags, vec!["home".to_string(), "garden".to_string()]);
}

#[test]
fn set_display_title_ignores_empty_input() {
    let mut s = AppState::new();
    assert_eq!(s.title, "To-dos");
    s.set_display_title("".to_string());
    assert_eq!(s.title, "To-dos");
    s.set_display_title("My list".to_string());
    assert_eq!(s.title, "My list");
}

#[test]
fn with_seed_accepts_a_valid_seed() {
    let a = ToDo::new(1, "erste".to_string(), None, true, NOW);
    let b = ToDo::new(2, "zweite".to_string(), Some("mehr".to_string()), false, NOW);
    let s = AppState::with_seed(vec![a, b], 4, "To-dos".to_string()).expect("valid seed");
    assert_eq!(s.todos.len(), 2);
    assert_eq!(s.next_id, 4);
    assert!(s.tags.is_empty());
}

#[test]
fn with_seed_rejects_bad_seeds() {
    let dup1 = ToDo::new(1, "a".to_string(), None, false, NOW);
    let dup2 = ToDo::new(1, "b".to_string(), None, false, NOW);
    assert!(AppState::with_seed(vec![dup1, dup2], 4, "t".to_string()).is_none());
    let high = ToDo::new(9, "a".to_string(), None, false, NOW);
    assert!(AppState::with_seed(vec![high], 4, "t".to_string()).is_none());
    let fine = ToDo::new(1, "a".to_string(), None, false, NOW);
    assert!(AppState::with_seed(vec![fine], 4, "".to_string()).is_none());
    assert!(AppState::with_seed(vec![], 0, "t".to_string()).is_none());
}

#[test]
fn list_all_returns_a_snapshot_copy() {
    let mut s = AppState::new();
    s.create("task".to_string(), None, NOW);
    let mut listed = s.list_all(NOW);
    listed[0].title = "changed".to_string();
    assert_eq!(s.todos[0].title, "task");
}

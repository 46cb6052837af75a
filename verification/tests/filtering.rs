use todo::filter::AllFilters;
use todo::filter::apply_filters;
use todo::filter::filter_by_completed;
use todo::filter::filter_by_date_range;
use todo::filter::filter_by_tags;
use todo::state::AppState;
use todo::text::matches_query;

const NOW: i64 = 1_700_000_000;

fn no_filters() -> AllFilters {
    AllFilters {
        completed: None,
        is_due: None,
        start_date: None,
        end_date: None,
        query: None,
        tags: Vec::new(),
    }
}

/// The two tasks of the worked scenario: "Buy milk" open with no due date,
/// "Pay rent" done and due far in the future.
fn scenario() -> AppState {
    let mut s = AppState::new();
    let t1 = s.create("Buy milk".to_string(), None, NOW).unwrap();
    let t2 = s.create("Pay rent".to_string(), None, NOW).unwrap();
    s.toggle_completion(t2.id);
    s.reschedule(t2.id, "2099-01-01T00:00");
    assert_eq!(s.todos[1].id, t1.id);
    s
}

#[test]
fn open_tasks_matching_milk_is_exactly_buy_milk() {
    let mut s = scenario();
    let snapshot = s.list_all(NOW);
    let mut f = no_filters();
    f.completed = Some(false);
    f.query = Some("milk".to_string());
    let r = apply_filters(&f, &snapshot, &s.tags, NOW);
    assert_eq!(r.len(), 1);
    assert_eq!(r[0].title, "Buy milk");
}

#[test]
fn nothing_is_due_when_due_dates_lie_ahead() {
    let mut s = scenario();
    let snapshot = s.list_all(NOW);
    let mut f = no_filters();
    f.is_due = Some(true);
    let r = apply_filters(&f, &snapshot, &s.tags, NOW);
    assert!(r.is_empty());
}

#[test]
fn a_past_due_task_is_due() {
    let mut s = scenario();
    let id = s.todos[0].id;
    s.reschedule(id, "1970-01-02T00:00");
    let snapshot = s.list_all(NOW);
    let mut f = no_filters();
    f.is_due = Some(true);
    let r = apply_filters(&f, &snapshot, &s.tags, NOW);
    assert_eq!(r.len(), 1);
    assert_eq!(r[0].id, id);
}

#[test]
fn is_due_false_does_not_narrow() {
    let mut s = scenario();
    let snapshot = s.list_all(NOW);
    let mut f = no_filters();
    f.is_due = Some(false);
    let r = apply_filters(&f, &snapshot, &s.tags, NOW);
    assert_eq!(r.len(), 2);
}

#[test]
fn text_match_ignores_case() {
    assert!(matches_query(&"Buy MILK now".to_string(), &"Milk".to_string()));
    assert!(matches_query(&"Buy milk".to_string(), &"BUY M".to_string()));
    assert!(!matches_query(&"Pay rent".to_string(), &"milk".to_string()));
    assert!(matches_query(&"anything".to_string(), &"".to_string()));
    assert!(!matches_query(&"".to_string(), &"milk".to_string()));
}

#[test]
fn undated_tasks_never_match_a_date_range() {
    let mut s = AppState::new();
    s.create("no deadline".to_string(), None, NOW);
    let snapshot = s.list_all(NOW);
    let r = filter_by_date_range(&snapshot, Some(i64::MIN), Some(i64::MAX));
    assert!(r.is_empty());
}

#[test]
fn date_range_is_inclusive_on_both_ends() {
    let mut s = AppState::new();
    let a = s.create("a".to_string(), None, NOW).unwrap();
    let b = s.create("b".to_string(), None, NOW).unwrap();
    let c = s.create("c".to_string(), None, NOW).unwrap();
    s.set_due(a.id, 100);
    s.set_due(b.id, 200);
    s.set_due(c.id, 300);
    let snapshot = s.list_all(NOW);
    let r = filter_by_date_range(&snapshot, Some(100), Some(200));
    let ids: Vec<u32> = r.iter().map(|t| t.id).collect();
    assert_eq!(ids, vec![b.id, a.id]);
}

#[test]
fn date_range_with_a_missing_bound_matches_nothing() {
    let mut s = AppState::new();
    let a = s.create("a".to_string(), None, NOW).unwrap();
    s.set_due(a.id, 100);
    let snapshot = s.list_all(NOW);
    assert!(filter_by_date_range(&snapshot, Some(0), None).is_empty());
    assert!(filter_by_date_range(&snapshot, None, Some(200)).is_empty());
    assert!(filter_by_date_range(&snapshot, None, None).is_empty());
}

#[test]
fn completion_filter_keeps_matching_tasks_in_order() {
    let mut s = scenario();
    let snapshot = s.list_all(NOW);
    let done = filter_by_completed(&snapshot, true);
    let open = filter_by_completed(&snapshot, false);
    assert_eq!(done.len(), 1);
    assert_eq!(done[0].title, "Pay rent");
    assert_eq!(open.len(), 1);
    assert_eq!(open[0].title, "Buy milk");
}

#[test]
fn tag_filter_matches_through_the_registry() {
    let mut s = AppState::new();
    let a = s.create("tagged".to_string(), None, NOW).unwrap();
    s.create("untagged".to_string(), None, NOW);
    s.rename_and_redescribe(a.id, "".to_string(), "".to_string(), vec!["work".to_string()]);
    let snapshot = s.list_all(NOW);
    let mut f = no_filters();
    f.tags = vec!["work".to_string()];
    let r = apply_filters(&f, &snapshot, &s.tags, NOW);
    assert_eq!(r.len(), 1);
    assert_eq!(r[0].id, a.id);
}

#[test]
fn tag_filter_ignores_names_outside_the_registry() {
    let mut s = AppState::new();
    let a = s.create("tagged".to_string(), None, NOW).unwrap();
    s.rename_and_redescribe(a.id, "".to_string(), "".to_string(), vec!["work".to_string()]);
    // the task carries "home" only by hand: the registry does not know it
    s.todos[0].tags.push("home".to_string());
    let snapshot = s.list_all(NOW);
    let mut f = no_filters();
    f.tags = vec!["home".to_string()];
    let r = apply_filters(&f, &snapshot, &s.tags, NOW);
    assert!(r.is_empty(), "a name absent from the registry selects nothing");
}

#[test]
fn direct_tag_filter_uses_the_given_set() {
    let mut s = AppState::new();
    let a = s.create("tagged".to_string(), None, NOW).unwrap();
    s.rename_and_redescribe(a.id, "".to_string(), "".to_string(), vec!["work".to_string()]);
    let snapshot = s.list_all(NOW);
    let r = filter_by_tags(&snapshot, &vec!["work".to_string()]);
    assert_eq!(r.len(), 1);
    let none = filter_by_tags(&snapshot, &vec!["other".to_string()]);
    assert!(none.is_empty());
}

#[test]
fn stages_compose_conjunctively() {
    let mut s = AppState::new();
    let a = s.create("pay the bill".to_string(), None, NOW).unwrap();
    let b = s.create("pay the rent".to_string(), None, NOW).unwrap();
    s.set_due(a.id, 100);
    s.set_due(b.id, 200);
    s.toggle_completion(b.id);
    let snapshot = s.list_all(NOW);
    let mut f = no_filters();
    f.completed = Some(false);
    f.start_date = Some(50);
    f.end_date = Some(250);
    f.query = Some("PAY".to_string());
    f.is_due = Some(true);
    let r = apply_filters(&f, &snapshot, &s.tags, NOW);
    assert_eq!(r.len(), 1);
    assert_eq!(r[0].id, a.id);
}

#[test]
fn empty_filter_returns_everything_unchanged() {
    let mut s = scenario();
    let snapshot = s.list_all(NOW);
    let f = no_filters();
    let r = apply_filters(&f, &snapshot, &s.tags, NOW);
    assert_eq!(r.len(), 2);
    assert_eq!(r[0].title, "Pay rent");
    assert_eq!(r[1].title, "Buy milk");
}

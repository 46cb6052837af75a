use vstd::prelude::*;

use crate::task::TaskView;
use crate::task::ToDo;
use crate::task::clone_todos;
use crate::task::has_tag;
use crate::task::overdue_at;
use crate::task::task_views;
use crate::task::text_views;
use crate::task::vec_has_string;
use crate::text::matches_query;
use crate::text::text_match;

verus! {

/// Model of a filter request: every field optional, an absent field skips its
/// stage.
#[verifier::ext_equal]
pub ghost struct FiltersView {
    pub completed: Option<bool>,
    pub is_due: Option<bool>,
    pub start_date: Option<i64>,
    pub end_date: Option<i64>,
    pub query: Option<Seq<char>>,
    pub tags: Seq<Seq<char>>,
}

/// A filter request over a task snapshot. All fields are optional; `tags`
/// stands for the absent field when it is empty. The date bounds are
/// timestamps in seconds, like a task's due date.
pub struct AllFilters {
    pub completed: Option<bool>,
    pub is_due: Option<bool>,
    pub start_date: Option<i64>,
    pub end_date: Option<i64>,
    pub query: Option<String>,
    pub tags: Vec<String>,
}

impl View for AllFilters {
    type V = FiltersView;

    open spec fn view(&self) -> FiltersView {
        FiltersView {
            completed: self.completed,
            is_due: self.is_due,
            start_date: self.start_date,
            end_date: self.end_date,
            query: match self.query {
                Some(q) => Some(q@),
                None => None,
            },
            tags: text_views(self.tags@),
        }
    }
}

/// Keeping a task means its completion flag equals `c`.
pub open spec fn completed_is(c: bool) -> spec_fn(TaskView) -> bool {
    |t: TaskView| t.completed == c
}

/// Keeping a task means it has a due date and that date lies in the inclusive
/// range `[start, end]`. A task with no due date never lies in any range.
pub open spec fn in_range(start: i64, end: i64) -> spec_fn(TaskView) -> bool {
    |t: TaskView| t.due_date matches Some(d) && start <= d && d <= end
}

/// Keeping a task means its title matches the query, case-insensitively.
pub open spec fn matches_text(q: Seq<char>) -> spec_fn(TaskView) -> bool {
    |t: TaskView| text_match(t.title, q)
}

/// Keeping a task means its due date lies at `now` or earlier.
pub open spec fn due_by(now: i64) -> spec_fn(TaskView) -> bool {
    |t: TaskView| overdue_at(t.due_date, now)
}

/// Keeping a task means it shares at least one tag name with `sel`.
pub open spec fn shares_tag(sel: Seq<Seq<char>>) -> spec_fn(TaskView) -> bool {
    |t: TaskView| exists|i: int| 0 <= i < t.tags.len() && has_tag(sel, #[trigger] t.tags[i])
}

/// Keeping a name means it occurs in `wanted`.
pub open spec fn in_tags(wanted: Seq<Seq<char>>) -> spec_fn(Seq<char>) -> bool {
    |x: Seq<char>| has_tag(wanted, x)
}

/// The registry entries named by the filter's tag set, in registry order.
pub open spec fn selected_tags(registry: Seq<Seq<char>>, wanted: Seq<Seq<char>>) -> Seq<
    Seq<char>,
> {
    registry.filter(in_tags(wanted))
}

/// The completion stage: an absent field keeps every task.
pub open spec fn stage_completed(s: Seq<TaskView>, completed: Option<bool>) -> Seq<TaskView> {
    match completed {
        Some(c) => s.filter(completed_is(c)),
        None => s,
    }
}

/// The date-range stage: it narrows only when both bounds are present.
pub open spec fn stage_date_range(s: Seq<TaskView>, start: Option<i64>, end: Option<i64>) -> Seq<
    TaskView,
> {
    match (start, end) {
        (Some(a), Some(b)) => s.filter(in_range(a, b)),
        _ => s,
    }
}

/// The text stage: an absent query keeps every task.
pub open spec fn stage_text(s: Seq<TaskView>, query: Option<Seq<char>>) -> Seq<TaskView> {
    match query {
        Some(q) => s.filter(matches_text(q)),
        None => s,
    }
}

/// The due-status stage: only an explicit `true` narrows.
pub open spec fn stage_due(s: Seq<TaskView>, is_due: Option<bool>, now: i64) -> Seq<TaskView> {
    if is_due == Some(true) {
        s.filter(due_by(now))
    } else {
        s
    }
}

/// The tag stage: a non-empty tag set keeps the tasks that share a tag with
/// the registry entries named by the filter.
pub open spec fn stage_tags(
    s: Seq<TaskView>,
    wanted: Seq<Seq<char>>,
    registry: Seq<Seq<char>>,
) -> Seq<TaskView> {
    if wanted.len() > 0 {
        s.filter(shares_tag(selected_tags(registry, wanted)))
    } else {
        s
    }
}

/// The whole conjunctive pipeline in its fixed order: completion, then date
/// range, then text, then due status, then tags. Each stage narrows what the
/// one before it left.
pub open spec fn apply_filters_spec(
    f: FiltersView,
    s: Seq<TaskView>,
    registry: Seq<Seq<char>>,
    now: i64,
) -> Seq<TaskView> {
    stage_tags(
        stage_due(
            stage_text(
                stage_date_range(stage_completed(s, f.completed), f.start_date, f.end_date),
                f.query,
            ),
            f.is_due,
            now,
        ),
        f.tags,
        registry,
    )
}

/// The tasks whose completion flag equals `completed`, in order.
pub fn filter_by_completed(todos: &Vec<ToDo>, completed: bool) -> (r: Vec<ToDo>)
    ensures
        task_views(r@) == task_views(todos@).filter(completed_is(completed)),
{
    let ghost sv = task_views(todos@);
    let mut out: Vec<ToDo> = Vec::new();
    let mut i: usize = 0;
    while i < todos.len()
        invariant
            0 <= i <= todos.len(),
            sv == task_views(todos@),
            task_views(out@) =~= sv.take(i as int).filter(completed_is(completed)),
        decreases todos.len() - i,
    {
        proof {
            assert(sv[i as int] == todos@[i as int]@);
            assert(sv.take(i + 1).drop_last() =~= sv.take(i as int));
        }
        let ghost before = task_views(out@);
        if todos[i].completed == completed {
            let c = todos[i].duplicate();
            out.push(c);
            proof {
                assert(task_views(out@) =~= before.push(sv[i as int]));
            }
        }
        proof {
            reveal(Seq::filter);
            assert(task_views(out@) =~= sv.take(i + 1).filter(completed_is(completed)));
        }
        i = i + 1;
    }
    proof {
        assert(sv.take(sv.len() as int) =~= sv);
    }
    out
}

/// The tasks whose due date lies in the inclusive range, in order. It narrows
/// only when both bounds are given: with either missing nothing matches. A
/// task with no due date never matches a date-range filter, whatever the
/// bounds.
pub fn filter_by_date_range(todos: &Vec<ToDo>, start_date: Option<i64>, end_date: Option<i64>) -> (r:
    Vec<ToDo>)
    ensures
        (match (start_date, end_date) {
            (Some(a), Some(b)) => task_views(r@) == task_views(todos@).filter(in_range(a, b)),
            _ => task_views(r@) == Seq::<TaskView>::empty(),
        }),
        forall|k: int|
            0 <= k < r@.len() ==> (#[trigger] task_views(r@)[k]).due_date is Some,
{
    match (start_date, end_date) {
        (Some(a), Some(b)) => {
            let ghost sv = task_views(todos@);
            let mut out: Vec<ToDo> = Vec::new();
            let mut i: usize = 0;
            while i < todos.len()
                invariant
                    0 <= i <= todos.len(),
                    sv == task_views(todos@),
                    task_views(out@) =~= sv.take(i as int).filter(in_range(a, b)),
                decreases todos.len() - i,
            {
                proof {
                    assert(sv[i as int] == todos@[i as int]@);
                    assert(sv.take(i + 1).drop_last() =~= sv.take(i as int));
                }
                let ghost before = task_views(out@);
                let keep: bool = match todos[i].due_date {
                    Some(d) => a <= d && d <= b,
                    None => false,
                };
                if keep {
                    let c = todos[i].duplicate();
                    out.push(c);
                    proof {
                        assert(task_views(out@) =~= before.push(sv[i as int]));
                    }
                }
                proof {
                    reveal(Seq::filter);
                    assert(task_views(out@) =~= sv.take(i + 1).filter(in_range(a, b)));
                }
                i = i + 1;
            }
            proof {
                assert(sv.take(sv.len() as int) =~= sv);
                assert forall|k: int| 0 <= k < out@.len() implies (#[trigger] task_views(
                    out@,
                )[k]).due_date is Some by {
                    sv.lemma_filter_pred(in_range(a, b), k);
                }
            }
            out
        },
        _ => {
            let out: Vec<ToDo> = Vec::new();
            proof {
                assert(task_views(out@) =~= Seq::<TaskView>::empty());
            }
            out
        },
    }
}

/// The tasks whose title contains the query, case-insensitively, in order.
pub fn filter_by_text(todos: &Vec<ToDo>, query: &String) -> (r: Vec<ToDo>)
    ensures
        task_views(r@) == task_views(todos@).filter(matches_text(query@)),
{
    let ghost sv = task_views(todos@);
    let mut out: Vec<ToDo> = Vec::new();
    let mut i: usize = 0;
    while i < todos.len()
        invariant
            0 <= i <= todos.len(),
            sv == task_views(todos@),
            task_views(out@) =~= sv.take(i as int).filter(matches_text(query@)),
        decreases todos.len() - i,
    {
        proof {
            assert(sv[i as int] == todos@[i as int]@);
            assert(sv.take(i + 1).drop_last() =~= sv.take(i as int));
        }
        let ghost before = task_views(out@);
        if matches_query(&todos[i].title, query) {
            let c = todos[i].duplicate();
            out.push(c);
            proof {
                assert(task_views(out@) =~= before.push(sv[i as int]));
            }
        }
        proof {
            reveal(Seq::filter);
            assert(task_views(out@) =~= sv.take(i + 1).filter(matches_text(query@)));
        }
        i = i + 1;
    }
    proof {
        assert(sv.take(sv.len() as int) =~= sv);
    }
    out
}

/// The tasks whose due date lies at `now` or earlier, in order.
pub fn filter_by_due(todos: &Vec<ToDo>, now: i64) -> (r: Vec<ToDo>)
    ensures
        task_views(r@) == task_views(todos@).filter(due_by(now)),
{
    let ghost sv = task_views(todos@);
    let mut out: Vec<ToDo> = Vec::new();
    let mut i: usize = 0;
    while i < todos.len()
        invariant
            0 <= i <= todos.len(),
            sv == task_views(todos@),
            task_views(out@) =~= sv.take(i as int).filter(due_by(now)),
        decreases todos.len() - i,
    {
        proof {
            assert(sv[i as int] == todos@[i as int]@);
            assert(sv.take(i + 1).drop_last() =~= sv.take(i as int));
        }
        let ghost before = task_views(out@);
        let keep: bool = match todos[i].due_date {
            Some(d) => d <= now,
            None => false,
        };
        if keep {
            let c = todos[i].duplicate();
            out.push(c);
            proof {
                assert(task_views(out@) =~= before.push(sv[i as int]));
            }
        }
        proof {
            reveal(Seq::filter);
            assert(task_views(out@) =~= sv.take(i + 1).filter(due_by(now)));
        }
        i = i + 1;
    }
    proof {
        assert(sv.take(sv.len() as int) =~= sv);
    }
    out
}

/// Whether the two vectors share at least one text.
pub fn any_shared(a: &Vec<String>, b: &Vec<String>) -> (r: bool)
    ensures
        r == (exists|i: int|
            0 <= i < text_views(a@).len() && has_tag(text_views(b@), #[trigger] text_views(a@)[i])),
{
    let mut i: usize = 0;
    while i < a.len()
        invariant
            0 <= i <= a.len(),
            forall|k: int| 0 <= k < i ==> !has_tag(text_views(b@), #[trigger] text_views(a@)[k]),
        decreases a.len() - i,
    {
        proof {
            assert(text_views(a@)[i as int] == a@[i as int]@);
        }
        if vec_has_string(b, &a[i]) {
            return true;
        }
        i = i + 1;
    }
    false
}

/// The tasks that share at least one tag name with `tags`, in order.
pub fn filter_by_tags(todos: &Vec<ToDo>, tags: &Vec<String>) -> (r: Vec<ToDo>)
    ensures
        task_views(r@) == task_views(todos@).filter(shares_tag(text_views(tags@))),
{
    let ghost sv = task_views(todos@);
    let ghost sel = text_views(tags@);
    let mut out: Vec<ToDo> = Vec::new();
    let mut i: usize = 0;
    while i < todos.len()
        invariant
            0 <= i <= todos.len(),
            sv == task_views(todos@),
            sel == text_views(tags@),
            task_views(out@) =~= sv.take(i as int).filter(shares_tag(sel)),
        decreases todos.len() - i,
    {
        proof {
            assert(sv[i as int] == todos@[i as int]@);
            assert(sv.take(i + 1).drop_last() =~= sv.take(i as int));
        }
        let ghost before = task_views(out@);
        let keep: bool = any_shared(&todos[i].tags, tags);
        proof {
            assert(sv[i as int].tags == text_views(todos@[i as int].tags@));
            assert(keep == shares_tag(sel)(sv[i as int]));
        }
        if keep {
            let c = todos[i].duplicate();
            out.push(c);
            proof {
                assert(task_views(out@) =~= before.push(sv[i as int]));
            }
        }
        proof {
            reveal(Seq::filter);
            assert(task_views(out@) =~= sv.take(i + 1).filter(shares_tag(sel)));
        }
        i = i + 1;
    }
    proof {
        assert(sv.take(sv.len() as int) =~= sv);
    }
    out
}

/// The registry entries named by `wanted`, in registry order.
pub fn select_registry(registry: &Vec<String>, wanted: &Vec<String>) -> (r: Vec<String>)
    ensures
        text_views(r@) == selected_tags(text_views(registry@), text_views(wanted@)),
{
    let ghost rv = text_views(registry@);
    let ghost wv = text_views(wanted@);
    let mut out: Vec<String> = Vec::new();
    let mut i: usize = 0;
    while i < registry.len()
        invariant
            0 <= i <= registry.len(),
            rv == text_views(registry@),
            wv == text_views(wanted@),
            text_views(out@) =~= rv.take(i as int).filter(in_tags(wv)),
        decreases registry.len() - i,
    {
        proof {
            assert(rv[i as int] == registry@[i as int]@);
            assert(rv.take(i + 1).drop_last() =~= rv.take(i as int));
        }
        let ghost before = text_views(out@);
        if vec_has_string(wanted, &registry[i]) {
            out.push(registry[i].clone());
            proof {
                assert(text_views(out@) =~= before.push(rv[i as int]));
            }
        }
        proof {
            reveal(Seq::filter);
            assert(text_views(out@) =~= rv.take(i + 1).filter(in_tags(wv)));
        }
        i = i + 1;
    }
    proof {
        assert(rv.take(rv.len() as int) =~= rv);
    }
    out
}

/// Applies the whole pipeline to a task snapshot without changing it: the
/// result holds copies. Stages run in the fixed order; an absent field skips
/// its stage entirely.
pub fn apply_filters(filters: &AllFilters, todos: &Vec<ToDo>, registry: &Vec<String>, now: i64) -> (
    r: Vec<ToDo>)
    ensures
        task_views(r@) == apply_filters_spec(
            filters@,
            task_views(todos@),
            text_views(registry@),
            now,
        ),
{
    let mut cur: Vec<ToDo> = clone_todos(todos);
    if let Some(c) = filters.completed {
        cur = filter_by_completed(&cur, c);
    }
    proof {
        assert(task_views(cur@) == stage_completed(task_views(todos@), filters@.completed));
    }
    let ghost s1 = task_views(cur@);
    if filters.start_date.is_some() && filters.end_date.is_some() {
        cur = filter_by_date_range(&cur, filters.start_date, filters.end_date);
    }
    proof {
        assert(task_views(cur@) == stage_date_range(s1, filters@.start_date, filters@.end_date));
    }
    let ghost s2 = task_views(cur@);
    if let Some(q) = &filters.query {
        cur = filter_by_text(&cur, q);
    }
    proof {
        assert(task_views(cur@) == stage_text(s2, filters@.query));
    }
    let ghost s3 = task_views(cur@);
    let is_due_now: bool = match filters.is_due {
        Some(b) => b,
        None => false,
    };
    if is_due_now {
        cur = filter_by_due(&cur, now);
    }
    proof {
        assert(task_views(cur@) == stage_due(s3, filters@.is_due, now));
    }
    let ghost s4 = task_views(cur@);
    if filters.tags.len() > 0 {
        let sel = select_registry(registry, &filters.tags);
        cur = filter_by_tags(&cur, &sel);
    }
    proof {
        assert(task_views(cur@) == stage_tags(s4, filters@.tags, text_views(registry@)));
    }
    cur
}

} // verus!

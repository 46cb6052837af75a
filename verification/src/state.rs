use vstd::prelude::*;

use crate::dates::parse_stamp;
use crate::dates::stamp_of;
use crate::task::TaskView;
use crate::task::ToDo;
use crate::task::clone_strings;
use crate::task::clone_todos;
use crate::task::dedup;
use crate::task::dedup_strings;
use crate::task::has_tag;
use crate::task::overdue_at;
use crate::task::tags_distinct;
use crate::task::task_views;
use crate::task::text_views;
use crate::task::vec_has_string;
use crate::task::with_tag;
use crate::text::blank;
use crate::text::is_blank;

verus! {

/// Whether some task in `s` carries the id `id`.
pub open spec fn has_id(s: Seq<TaskView>, id: u32) -> bool {
    exists|i: int| 0 <= i < s.len() && s[i].id == id
}

/// `s` with the completion flag of the task with id `id` flipped; unchanged
/// where no task carries that id.
pub open spec fn toggled(s: Seq<TaskView>, id: u32) -> Seq<TaskView> {
    s.map_values(|t: TaskView| if t.id == id { t.ticked() } else { t })
}

/// `s` with every task's overdue flag recomputed against `now`.
pub open spec fn refreshed_all(s: Seq<TaskView>, now: i64) -> Seq<TaskView> {
    s.map_values(|t: TaskView| t.refreshed(now))
}

/// Keeping a task means its id differs from `id`.
pub open spec fn not_id(id: u32) -> spec_fn(TaskView) -> bool {
    |t: TaskView| t.id != id
}

/// `s` without the task that carries the id `id`, order kept.
pub open spec fn removed(s: Seq<TaskView>, id: u32) -> Seq<TaskView> {
    s.filter(not_id(id))
}

/// `s` with the due date of the task with id `id` set to `due`; unchanged
/// where no task carries that id.
pub open spec fn due_set(s: Seq<TaskView>, id: u32, due: i64) -> Seq<TaskView> {
    s.map_values(|t: TaskView| if t.id == id { TaskView { due_date: Some(due), ..t } } else { t })
}

/// The task edited as a whole: a non-empty new title replaces the old one
/// while an empty one keeps it; the description is replaced, an empty input
/// clearing it to absent; the tag set is replaced in full.
pub open spec fn edited(
    t: TaskView,
    new_title: Seq<char>,
    new_description: Seq<char>,
    new_tags: Seq<Seq<char>>,
) -> TaskView {
    TaskView {
        title: if new_title.len() > 0 {
            new_title
        } else {
            t.title
        },
        description: if new_description.len() > 0 {
            Some(new_description)
        } else {
            None::<Seq<char>>
        },
        tags: new_tags,
        ..t
    }
}

/// `s` with the task carrying id `id` edited; unchanged where no task carries
/// that id.
pub open spec fn edited_all(
    s: Seq<TaskView>,
    id: u32,
    new_title: Seq<char>,
    new_description: Seq<char>,
    new_tags: Seq<Seq<char>>,
) -> Seq<TaskView> {
    s.map_values(
        |t: TaskView|
            if t.id == id {
                edited(t, new_title, new_description, new_tags)
            } else {
                t
            },
    )
}

/// `s` with the tag name added to the task carrying id `id`; unchanged where
/// no task carries that id.
pub open spec fn tag_added_all(s: Seq<TaskView>, id: u32, tag: Seq<char>) -> Seq<TaskView> {
    s.map_values(
        |t: TaskView|
            if t.id == id {
                with_tag(t, tag)
            } else {
                t
            },
    )
}

/// The registry with the tag name added; a name already present changes
/// nothing.
pub open spec fn registry_with(tags: Seq<Seq<char>>, tag: Seq<char>) -> Seq<Seq<char>> {
    if has_tag(tags, tag) {
        tags
    } else {
        tags.push(tag)
    }
}

/// Mathematical model of the whole repository state.
#[verifier::ext_equal]
pub ghost struct StateView {
    pub todos: Seq<TaskView>,
    pub next_id: u32,
    pub title: Seq<char>,
    pub tags: Seq<Seq<char>>,
}

impl StateView {
    /// Well-formed state: every task well formed, ids distinct and below the
    /// counter, a positive counter, a non-empty display title, and a
    /// duplicate-free tag registry.
    pub open spec fn wf(self) -> bool {
        &&& self.next_id >= 1
        &&& (forall|i: int| 0 <= i < self.todos.len() ==> (#[trigger] self.todos[i]).wf())
        &&& (forall|i: int|
            0 <= i < self.todos.len() ==> (#[trigger] self.todos[i]).id < self.next_id)
        &&& (forall|i: int, j: int|
            0 <= i < j < self.todos.len() ==> self.todos[i].id != self.todos[j].id)
        &&& self.title.len() > 0
        &&& tags_distinct(self.tags)
    }
}

/// The repository: sole owner of the task collection, the id counter, the
/// display title, and the tag registry. Callers that share it across request
/// handlers wrap the whole value in one mutual-exclusion lock, so that each
/// operation below runs as an uninterrupted critical section.
pub struct AppState {
    pub todos: Vec<ToDo>,
    pub next_id: u32,
    pub title: String,
    pub tags: Vec<String>,
}

impl View for AppState {
    type V = StateView;

    open spec fn view(&self) -> StateView {
        StateView {
            todos: task_views(self.todos@),
            next_id: self.next_id,
            title: self.title@,
            tags: text_views(self.tags@),
        }
    }
}

impl AppState {
    /// An empty repository: no tasks, counter at one, the default display
    /// title, an empty tag registry.
    pub fn new() -> (s: AppState)
        ensures
            s@.todos =~= Seq::<TaskView>::empty(),
            s@.next_id == 1,
            s@.title == "To-dos"@,
            s@.tags =~= Seq::<Seq<char>>::empty(),
            s@.wf(),
    {
        let s = AppState {
            todos: Vec::new(),
            next_id: 1,
            title: "To-dos".to_owned(),
            tags: Vec::new(),
        };
        proof {
            reveal_strlit("To-dos");
            assert(s@.todos =~= Seq::<TaskView>::empty());
            assert(s@.tags =~= Seq::<Seq<char>>::empty());
        }
        s
    }

    /// Hands out the next unused id and advances the counter; under the
    /// repository's lock no two calls can observe the same counter value, so
    /// no id is ever issued twice.
    pub fn generate_id(&mut self) -> (id: u32)
        requires
            old(self)@.next_id < u32::MAX,
        ensures
            id == old(self)@.next_id,
            final(self)@ =~= (StateView { next_id: (old(self)@.next_id + 1) as u32, ..old(self)@ }),
            old(self)@.wf() ==> final(self)@.wf(),
    {
        let id = self.next_id;
        self.next_id = self.next_id + 1;
        id
    }

    /// Replaces the display title; an empty input is a no-op.
    pub fn set_display_title(&mut self, new_title: String)
        ensures
            new_title@.len() > 0 ==> final(self)@ =~= (StateView {
                title: new_title@,
                ..old(self)@
            }),
            new_title@.len() == 0 ==> final(self)@ =~= old(self)@,
            old(self)@.wf() ==> final(self)@.wf(),
    {
        if !new_title.as_str().is_empty() {
            self.title = new_title;
        }
    }

    /// Flips the completion flag of the task with id `id`; a no-op where no
    /// task carries that id.
    pub fn toggle_completion(&mut self, id: u32)
        requires
            old(self)@.wf(),
        ensures
            final(self)@ =~= (StateView { todos: toggled(old(self)@.todos, id), ..old(self)@ }),
            final(self)@.wf(),
    {
        let ghost sv = old(self)@.todos;
        let mut i: usize = 0;
        while i < self.todos.len()
            invariant
                0 <= i <= self.todos.len(),
                *self == *old(self),
                sv == task_views(self.todos@),
                old(self)@.wf(),
                forall|k: int| 0 <= k < i ==> sv[k].id != id,
            decreases self.todos.len() - i,
        {
            proof {
                assert(sv[i as int] == self.todos@[i as int]@);
            }
            if self.todos[i].id == id {
                self.todos[i].tick();
                proof {
                    assert forall|k: int| 0 <= k < sv.len() implies task_views(
                        self.todos@,
                    )[k] == toggled(sv, id)[k] by {
                        assert(task_views(self.todos@)[k] == self.todos@[k]@);
                    }
                    assert(task_views(self.todos@) =~= toggled(sv, id));
                }
                return ;
            }
            i = i + 1;
        }
        proof {
            assert forall|k: int| 0 <= k < sv.len() implies toggled(sv, id)[k] == sv[k] by {}
            assert(task_views(self.todos@) =~= toggled(sv, id));
        }
    }

    /// Creates a task and inserts it at the front of the collection: newest
    /// first. A title of nothing but whitespace is rejected and nothing
    /// changes. The returned task is a copy of the one inserted.
    pub fn create(&mut self, title: String, description: Option<String>, now: i64) -> (r: Option<
        ToDo,
    >)
        requires
            old(self)@.wf(),
            old(self)@.next_id < u32::MAX,
        ensures
            final(self)@.wf(),
            blank(title@) ==> final(self)@ =~= old(self)@ && r is None,
            !blank(title@) ==> (match r {
                Some(t) => {
                    &&& t@.id == old(self)@.next_id
                    &&& t@.title == title@
                    &&& t@.description == (match description {
                        Some(d) => if d@.len() > 0 {
                            Some(d@)
                        } else {
                            None::<Seq<char>>
                        },
                        None => None::<Seq<char>>,
                    })
                    &&& t@.due_date is None
                    &&& t@.created_at == now
                    &&& t@.completed == false
                    &&& t@.is_overdue == false
                    &&& t@.tags =~= Seq::<Seq<char>>::empty()
                    &&& final(self)@.todos =~= seq![t@] + old(self)@.todos
                    &&& final(self)@.todos.len() == old(self)@.todos.len() + 1
                    &&& final(self)@.todos[0] == t@
                    &&& final(self)@.next_id == old(self)@.next_id + 1
                    &&& final(self)@.title == old(self)@.title
                    &&& final(self)@.tags == old(self)@.tags
                },
                None => false,
            }),
    {
        if is_blank(title.as_str()) {
            return None;
        }
        proof {
            if title@.len() == 0 {
                assert(blank(title@));
            }
        }
        let id = self.generate_id();
        let t = ToDo::new(id, title, description, false, now);
        let copy = t.duplicate();
        proof {
            assert(old(self)@.wf());
        }
        let ghost sv = task_views(self.todos@);
        self.todos.insert(0, t);
        proof {
            assert forall|k: int| 0 <= k < self.todos@.len() implies #[trigger] task_views(
                self.todos@,
            )[k] == (seq![copy@] + sv)[k] by {
                assert(task_views(self.todos@)[k] == self.todos@[k]@);
            }
            assert(task_views(self.todos@) =~= seq![copy@] + sv);
        }
        Some(copy)
    }

    /// A snapshot copy of the collection, each task's overdue flag freshly
    /// recomputed against `now` before the snapshot is taken. The flag is
    /// never trusted from an earlier write: it always reflects `now`.
    #[verifier::loop_isolation(false)]
    pub fn list_all(&mut self, now: i64) -> (r: Vec<ToDo>)
        requires
            old(self)@.wf(),
        ensures
            final(self)@ =~= (StateView {
                todos: refreshed_all(old(self)@.todos, now),
                ..old(self)@
            }),
            final(self)@.wf(),
            task_views(r@) == final(self)@.todos,
            forall|k: int|
                0 <= k < r@.len() ==> (#[trigger] task_views(r@)[k]).is_overdue == overdue_at(
                    old(self)@.todos[k].due_date,
                    now,
                ),
    {
        let ghost sv = old(self)@.todos;
        let mut i: usize = 0;
        while i < self.todos.len()
            invariant
                0 <= i <= self.todos@.len(),
                self.todos@.len() == sv.len(),
                self.next_id == old(self).next_id,
                self.title@ == old(self).title@,
                self.tags@ == old(self).tags@,
                forall|k: int|
                    0 <= k < i ==> #[trigger] task_views(self.todos@)[k] == sv[k].refreshed(now),
                forall|k: int|
                    i <= k < sv.len() ==> #[trigger] task_views(self.todos@)[k] == sv[k],
            decreases sv.len() - i,
        {
            proof {
                assert(task_views(self.todos@)[i as int] == self.todos@[i as int]@);
            }
            let ghost prev = self.todos@;
            self.todos[i].check_overdue(now);
            proof {
                assert forall|k: int|
                    0 <= k < i + 1 implies #[trigger] task_views(self.todos@)[k]
                    == sv[k].refreshed(now) by {
                    assert(task_views(self.todos@)[k] == self.todos@[k]@);
                    assert(task_views(prev)[k] == prev[k]@);
                    if k < i {
                        assert(self.todos@[k] == prev[k]);
                    }
                }
                assert forall|k: int|
                    i + 1 <= k < sv.len() implies #[trigger] task_views(self.todos@)[k]
                    == sv[k] by {
                    assert(task_views(self.todos@)[k] == self.todos@[k]@);
                    assert(task_views(prev)[k] == prev[k]@);
                    assert(self.todos@[k] == prev[k]);
                }
            }
            i = i + 1;
        }
        proof {
            assert(task_views(self.todos@) =~= refreshed_all(sv, now));
            assert(self@ =~= (StateView { todos: refreshed_all(sv, now), ..old(self)@ }));
        }
        clone_todos(&self.todos)
    }

    /// Removes the task with id `id`; a no-op where no task carries that id.
    pub fn delete(&mut self, id: u32)
        requires
            old(self)@.wf(),
        ensures
            final(self)@ =~= (StateView { todos: removed(old(self)@.todos, id), ..old(self)@ }),
            final(self)@.wf(),
            !has_id(old(self)@.todos, id) ==> final(self)@ =~= old(self)@,
    {
        let ghost sv = old(self)@.todos;
        let mut i: usize = 0;
        while i < self.todos.len()
            invariant
                0 <= i <= self.todos.len(),
                *self == *old(self),
                sv == task_views(self.todos@),
                old(self)@.wf(),
                forall|k: int| 0 <= k < i ==> sv[k].id != id,
            decreases self.todos.len() - i,
        {
            proof {
                assert(sv[i as int] == self.todos@[i as int]@);
            }
            if self.todos[i].id == id {
                self.todos.remove(i);
                proof {
                    assert(task_views(self.todos@) =~= sv.remove(i as int));
                    lemma_remove_unique_is_filter(sv, id, i as int);
                }
                return ;
            }
            i = i + 1;
        }
        proof {
            lemma_filter_all_keep(sv, not_id(id));
            assert(removed(sv, id) == sv);
        }
    }

    /// Sets the due date of the task with id `id` to the already-parsed
    /// timestamp `due`; a no-op where no task carries that id.
    pub fn set_due(&mut self, id: u32, due: i64)
        requires
            old(self)@.wf(),
        ensures
            final(self)@ =~= (StateView { todos: due_set(old(self)@.todos, id, due), ..old(self)@ }),
            final(self)@.wf(),
    {
        let ghost sv = old(self)@.todos;
        let mut i: usize = 0;
        while i < self.todos.len()
            invariant
                0 <= i <= self.todos.len(),
                *self == *old(self),
                sv == task_views(self.todos@),
                old(self)@.wf(),
                forall|k: int| 0 <= k < i ==> sv[k].id != id,
            decreases self.todos.len() - i,
        {
            proof {
                assert(sv[i as int] == self.todos@[i as int]@);
            }
            if self.todos[i].id == id {
                self.todos[i].set_due_date(due);
                proof {
                    assert forall|k: int| 0 <= k < sv.len() implies task_views(
                        self.todos@,
                    )[k] == due_set(sv, id, due)[k] by {
                        assert(task_views(self.todos@)[k] == self.todos@[k]@);
                    }
                    assert(task_views(self.todos@) =~= due_set(sv, id, due));
                }
                return ;
            }
            i = i + 1;
        }
        proof {
            assert forall|k: int| 0 <= k < sv.len() implies due_set(sv, id, due)[k] == sv[k] by {}
            assert(task_views(self.todos@) =~= due_set(sv, id, due));
        }
    }

    /// Sets the due date of the task with id `id` from a text in the form
    /// `YYYY-MM-DDTHH:MM`. An unparsable text drops the whole operation
    /// silently: the due date is left unchanged.
    pub fn reschedule(&mut self, id: u32, new_due_date: &str)
        requires
            old(self)@.wf(),
        ensures
            final(self)@.wf(),
            (match stamp_of(new_due_date@) {
                Some(due) => final(self)@ =~= (StateView {
                    todos: due_set(old(self)@.todos, id, due),
                    ..old(self)@
                }),
                None => final(self)@ =~= old(self)@,
            }),
    {
        match parse_stamp(new_due_date) {
            Some(due) => self.set_due(id, due),
            None => {},
        }
    }

    /// Edits the task with id `id` as a whole: a non-empty `new_title`
    /// replaces the title while an empty one keeps it; the description is
    /// replaced, an empty input clearing it; the tag set is replaced in full
    /// by the submitted names with repeats dropped. As a side effect the
    /// process-wide tag registry is cleared and repopulated from the edited task's
    /// new tag set only. A no-op where no task carries that id.
    pub fn rename_and_redescribe(
        &mut self,
        id: u32,
        new_title: String,
        new_description: String,
        new_tags: Vec<String>,
    )
        requires
            old(self)@.wf(),
        ensures
            final(self)@.wf(),
            has_id(old(self)@.todos, id) ==> final(self)@ =~= (StateView {
                todos: edited_all(
                    old(self)@.todos,
                    id,
                    new_title@,
                    new_description@,
                    dedup(text_views(new_tags@)),
                ),
                tags: dedup(text_views(new_tags@)),
                ..old(self)@
            }),
            !has_id(old(self)@.todos, id) ==> final(self)@ =~= old(self)@,
    {
        let ghost sv = old(self)@.todos;
        let ghost new_tag_views = dedup(text_views(new_tags@));
        let deduped = dedup_strings(&new_tags);
        let mut i: usize = 0;
        while i < self.todos.len()
            invariant
                0 <= i <= self.todos.len(),
                *self == *old(self),
                sv == task_views(self.todos@),
                sv == old(self)@.todos,
                old(self)@.wf(),
                text_views(deduped@) == new_tag_views,
                new_tag_views == dedup(text_views(new_tags@)),
                tags_distinct(new_tag_views),
                forall|k: int| 0 <= k < i ==> sv[k].id != id,
            decreases self.todos.len() - i,
        {
            proof {
                assert(sv[i as int] == self.todos@[i as int]@);
            }
            if self.todos[i].id == id {
                let task_tags = clone_strings(&deduped);
                let ghost before = self.todos@;
                let mut t = self.todos.remove(i);
                if !new_title.as_str().is_empty() {
                    t.title = new_title;
                }
                if new_description.as_str().is_empty() {
                    t.description = None;
                } else {
                    t.description = Some(new_description);
                }
                t.tags = task_tags;
                proof {
                    assert(t@ =~= edited(sv[i as int], new_title@, new_description@, new_tag_views));
                }
                self.todos.insert(i, t);
                self.tags = deduped;
                proof {
                    assert(self.todos@ =~= before.update(i as int, t));
                    assert forall|k: int| 0 <= k < sv.len() implies task_views(
                        self.todos@,
                    )[k] == edited_all(sv, id, new_title@, new_description@, new_tag_views)[k] by {
                        assert(task_views(self.todos@)[k] == self.todos@[k]@);
                        assert(task_views(before)[k] == before[k]@);
                    }
                    assert(task_views(self.todos@) =~= edited_all(
                        sv,
                        id,
                        new_title@,
                        new_description@,
                        new_tag_views,
                    ));
                    assert(sv[i as int].id == id);
                    assert(has_id(sv, id));
                }
                return ;
            }
            i = i + 1;
        }
        proof {
            if has_id(sv, id) {
                let w = choose|k: int| 0 <= k < sv.len() && sv[k].id == id;
                assert(sv[w].id != id);
            }
        }
    }

    /// Adds a tag name to the task with id `id` and records the name in the
    /// process-wide tag registry; the registry only ever grows here. The
    /// registry gains the name even where no task carries the id.
    pub fn add_tag(&mut self, id: u32, tag: String)
        requires
            old(self)@.wf(),
        ensures
            final(self)@.wf(),
            final(self)@ =~= (StateView {
                todos: tag_added_all(old(self)@.todos, id, tag@),
                tags: registry_with(old(self)@.tags, tag@),
                ..old(self)@
            }),
    {
        let ghost sv = old(self)@.todos;
        if !vec_has_string(&self.tags, &tag) {
            let ghost before = text_views(self.tags@);
            self.tags.push(tag.clone());
            proof {
                assert(text_views(self.tags@) =~= before.push(tag@));
            }
        }
        let mut i: usize = 0;
        while i < self.todos.len()
            invariant
                0 <= i <= self.todos.len(),
                sv == task_views(self.todos@),
                sv == old(self)@.todos,
                old(self)@.wf(),
                self.next_id == old(self).next_id,
                self.title@ == old(self).title@,
                text_views(self.tags@) == registry_with(old(self)@.tags, tag@),
                tags_distinct(text_views(self.tags@)),
                forall|k: int| 0 <= k < i ==> sv[k].id != id,
            decreases self.todos.len() - i,
        {
            proof {
                assert(sv[i as int] == self.todos@[i as int]@);
            }
            if self.todos[i].id == id {
                let ghost prev = self.todos@;
                self.todos[i].add_tag(tag);
                proof {
                    assert(self.todos@[i as int]@ == with_tag(sv[i as int], tag@));
                    assert forall|k: int| 0 <= k < sv.len() implies task_views(
                        self.todos@,
                    )[k] == tag_added_all(sv, id, tag@)[k] by {
                        assert(task_views(self.todos@)[k] == self.todos@[k]@);
                        if k != i {
                            assert(self.todos@[k] == prev[k]);
                            assert(task_views(prev)[k] == prev[k]@);
                        }
                    }
                    assert(task_views(self.todos@) =~= tag_added_all(sv, id, tag@));
                }
                return ;
            }
            i = i + 1;
        }
        proof {
            assert forall|k: int| 0 <= k < sv.len() implies tag_added_all(sv, id, tag@)[k]
                == sv[k] by {}
            assert(task_views(self.todos@) =~= tag_added_all(sv, id, tag@));
        }
    }

    /// A repository seeded with the given tasks, counter and display title,
    /// and an empty tag registry; `None` where the seed would not form a
    /// well-formed state.
    pub fn with_seed(todos: Vec<ToDo>, next_id: u32, title: String) -> (r: Option<AppState>)
        ensures
            ({
                let candidate = StateView {
                    todos: task_views(todos@),
                    next_id: next_id,
                    title: title@,
                    tags: Seq::<Seq<char>>::empty(),
                };
                match r {
                    Some(s) => s@ =~= candidate && candidate.wf(),
                    None => !candidate.wf(),
                }
            }),
    {
        let ghost sv = task_views(todos@);
        if next_id < 1 {
            return None;
        }
        if title.as_str().is_empty() {
            return None;
        }
        let mut i: usize = 0;
        while i < todos.len()
            invariant
                0 <= i <= todos.len(),
                sv == task_views(todos@),
                next_id >= 1,
                forall|k: int| 0 <= k < i ==> (#[trigger] sv[k]).wf(),
                forall|k: int| 0 <= k < i ==> (#[trigger] sv[k]).id < next_id,
                forall|p: int, q: int| 0 <= p < q < i ==> sv[p].id != sv[q].id,
            decreases todos.len() - i,
        {
            proof {
                assert(sv[i as int] == todos@[i as int]@);
            }
            if !todos[i].is_wf() {
                return None;
            }
            if !(todos[i].id < next_id) {
                return None;
            }
            let mut j: usize = 0;
            while j < i
                invariant
                    0 <= j <= i < todos.len(),
                    sv == task_views(todos@),
                    sv[i as int] == todos@[i as int]@,
                    forall|q: int| 0 <= q < j ==> sv[q].id != sv[i as int].id,
                decreases i - j,
            {
                proof {
                    assert(sv[j as int] == todos@[j as int]@);
                }
                if todos[j].id == todos[i].id {
                    return None;
                }
                j = j + 1;
            }
            i = i + 1;
        }
        let s = AppState { todos, next_id, title, tags: Vec::new() };
        proof {
            assert(text_views(s.tags@) =~= Seq::<Seq<char>>::empty());
        }
        Some(s)
    }
}

/// The ids a run of the counter hands out: starting at `c0`, the `k`-th call
/// returns `c0 + k`.
pub open spec fn issued_ids(c0: u32, n: nat) -> Seq<int> {
    Seq::new(n, |k: int| c0 + k)
}

/// Law: any number of id allocations hands out pairwise distinct ids, with no
/// value in the range skipped: exactly the consecutive integers from the
/// counter's starting value. Exclusive access to the repository makes every
/// call of `generate_id` see the counter the call before it left, which is
/// what its contract states.
pub proof fn lemma_generated_ids_distinct(c0: u32, n: nat)
    ensures
        forall|k: int| 0 <= k < n ==> issued_ids(c0, n)[k] == c0 + k,
        forall|p: int, q: int| 0 <= p < q < n ==> issued_ids(c0, n)[p] != issued_ids(c0, n)[q],
{
}

/// Law: flipping the completion of the same task twice restores every task,
/// and with it the whole collection, to what it was.
pub proof fn lemma_toggle_twice(s: Seq<TaskView>, id: u32)
    ensures
        toggled(toggled(s, id), id) == s,
{
    assert forall|k: int| 0 <= k < s.len() implies toggled(toggled(s, id), id)[k] == s[k] by {
        assert(toggled(s, id)[k] == (if s[k].id == id {
            s[k].ticked()
        } else {
            s[k]
        }));
        assert(s[k].ticked().ticked() =~= s[k]);
    }
    assert(toggled(toggled(s, id), id) =~= s);
}

/// Law: an edit with an empty new title keeps the task's title, while the
/// description change and the tag replacement still apply.
pub proof fn lemma_edit_with_empty_title(
    t: TaskView,
    new_description: Seq<char>,
    new_tags: Seq<Seq<char>>,
)
    ensures
        edited(t, Seq::empty(), new_description, new_tags).title == t.title,
        edited(t, Seq::empty(), new_description, new_tags).tags == new_tags,
        edited(t, Seq::empty(), new_description, new_tags).description == (if new_description.len()
            > 0 {
            Some(new_description)
        } else {
            None::<Seq<char>>
        }),
{
}

/// Law: the registry a whole-task edit leaves behind covers every submitted
/// tag name: dropping repeats loses no name.
pub proof fn lemma_registry_covers_submitted(submitted: Seq<Seq<char>>, x: Seq<char>)
    requires
        has_tag(submitted, x),
    ensures
        has_tag(dedup(submitted), x),
{
    crate::task::lemma_dedup_members(submitted, x);
}

/// Filtering keeps a sequence unchanged when the predicate holds of every
/// element.
proof fn lemma_filter_all_keep<A>(s: Seq<A>, pred: spec_fn(A) -> bool)
    requires
        forall|i: int| 0 <= i < s.len() ==> pred(#[trigger] s[i]),
    ensures
        s.filter(pred) == s,
    decreases s.len(),
{
    reveal(Seq::filter);
    if s.len() == 0 {
        assert(s.filter(pred) =~= s);
    } else {
        lemma_filter_all_keep(s.drop_last(), pred);
        assert(s.filter(pred) =~= s);
    }
}

/// Where the id occurs exactly once, at position `i`, dropping all tasks with
/// that id is the same as removing position `i`.
proof fn lemma_remove_unique_is_filter(s: Seq<TaskView>, id: u32, i: int)
    requires
        0 <= i < s.len(),
        s[i].id == id,
        forall|k: int| 0 <= k < s.len() && k != i ==> (#[trigger] s[k]).id != id,
    ensures
        removed(s, id) == s.remove(i),
{
    let pred = not_id(id);
    let a = s.take(i + 1);
    let b = s.skip(i + 1);
    assert(s == a + b) by {
        assert(s =~= a + b);
    }
    Seq::filter_distributes_over_add(a, b, pred);
    reveal(Seq::filter);
    assert(a.drop_last() =~= s.take(i));
    assert(a.last() == s[i]);
    assert(a.filter(pred) == s.take(i).filter(pred));
    lemma_filter_all_keep(s.take(i), pred);
    lemma_filter_all_keep(b, pred);
    assert(s.filter(pred) == s.take(i) + s.skip(i + 1));
    assert(s.remove(i) =~= s.take(i) + s.skip(i + 1));
}

} // verus!

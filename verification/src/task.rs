use vstd::prelude::*;

verus! {

/// Mathematical model of a task: every field as a plain value, with text as
/// sequences of characters.
#[verifier::ext_equal]
pub ghost struct TaskView {
    pub id: u32,
    pub title: Seq<char>,
    pub description: Option<Seq<char>>,
    pub due_date: Option<i64>,
    pub created_at: i64,
    pub completed: bool,
    pub is_overdue: bool,
    pub tags: Seq<Seq<char>>,
}

/// A due date is overdue at `now` when it is present and at or before `now`.
pub open spec fn overdue_at(due_date: Option<i64>, now: i64) -> bool {
    due_date matches Some(d) && d <= now
}

/// The texts of a sequence of strings.
pub open spec fn text_views(v: Seq<String>) -> Seq<Seq<char>> {
    v.map_values(|t: String| t@)
}

/// The models of a sequence of tasks.
pub open spec fn task_views(v: Seq<ToDo>) -> Seq<TaskView> {
    v.map_values(|t: ToDo| t@)
}

/// A sequence of tag names with no name occurring twice.
pub open spec fn tags_distinct(ts: Seq<Seq<char>>) -> bool {
    forall|i: int, j: int| 0 <= i < j < ts.len() ==> ts[i] != ts[j]
}

/// Whether the tag name `t` occurs in `ts`.
pub open spec fn has_tag(ts: Seq<Seq<char>>, t: Seq<char>) -> bool {
    exists|i: int| 0 <= i < ts.len() && ts[i] == t
}

/// The task with the tag name added; a name already present changes nothing.
pub open spec fn with_tag(t: TaskView, tag: Seq<char>) -> TaskView {
    if has_tag(t.tags, tag) {
        t
    } else {
        TaskView { tags: t.tags.push(tag), ..t }
    }
}

/// The same names with every repeat dropped: each name keeps its first
/// occurrence only.
pub open spec fn dedup(ts: Seq<Seq<char>>) -> Seq<Seq<char>>
    decreases ts.len(),
{
    if ts.len() == 0 {
        Seq::empty()
    } else {
        let rest = dedup(ts.drop_last());
        if has_tag(rest, ts.last()) {
            rest
        } else {
            rest.push(ts.last())
        }
    }
}

/// Dropping repeats keeps exactly the names that were there.
pub proof fn lemma_dedup_members(ts: Seq<Seq<char>>, x: Seq<char>)
    ensures
        has_tag(dedup(ts), x) == has_tag(ts, x),
    decreases ts.len(),
{
    if ts.len() == 0 {
    } else {
        lemma_dedup_members(ts.drop_last(), x);
        assert(has_tag(ts, x) == (has_tag(ts.drop_last(), x) || ts.last() == x)) by {
            if has_tag(ts, x) {
                let i = choose|i: int| 0 <= i < ts.len() && ts[i] == x;
                if i < ts.len() - 1 {
                    assert(ts.drop_last()[i] == x);
                }
            }
            if has_tag(ts.drop_last(), x) {
                let i = choose|i: int| 0 <= i < ts.drop_last().len() && ts.drop_last()[i] == x;
                assert(ts[i] == x);
            }
            if ts.last() == x {
                assert(ts[ts.len() - 1] == x);
            }
        }
        let rest = dedup(ts.drop_last());
        if !has_tag(rest, ts.last()) {
            assert(has_tag(dedup(ts), x) == (has_tag(rest, x) || ts.last() == x)) by {
                if has_tag(dedup(ts), x) {
                    let i = choose|i: int| 0 <= i < dedup(ts).len() && dedup(ts)[i] == x;
                    if i < rest.len() {
                        assert(rest[i] == x);
                    }
                }
                if has_tag(rest, x) {
                    let i = choose|i: int| 0 <= i < rest.len() && rest[i] == x;
                    assert(dedup(ts)[i] == x);
                }
                if ts.last() == x {
                    assert(dedup(ts)[rest.len() as int] == x);
                }
            }
        }
    }
}

/// Dropping repeats leaves no repeat behind.
pub proof fn lemma_dedup_distinct(ts: Seq<Seq<char>>)
    ensures
        tags_distinct(dedup(ts)),
    decreases ts.len(),
{
    if ts.len() == 0 {
    } else {
        lemma_dedup_distinct(ts.drop_last());
        let rest = dedup(ts.drop_last());
        if !has_tag(rest, ts.last()) {
            assert forall|i: int, j: int| 0 <= i < j < dedup(ts).len() implies dedup(ts)[i]
                != dedup(ts)[j] by {
                if j < rest.len() {
                } else {
                    assert(dedup(ts)[j] == ts.last());
                    assert(dedup(ts)[i] == rest[i]);
                    assert(!has_tag(rest, ts.last()));
                    if rest[i] == ts.last() {
                        assert(has_tag(rest, ts.last()));
                    }
                }
            }
        }
    }
}

impl TaskView {
    /// Well-formed task: positive id, non-empty title, a present description is
    /// non-empty, and no duplicate tag names.
    pub open spec fn wf(self) -> bool {
        &&& self.id >= 1
        &&& self.title.len() > 0
        &&& (self.description matches Some(d) ==> d.len() > 0)
        &&& tags_distinct(self.tags)
    }

    /// The same task with its overdue flag recomputed against `now`.
    pub open spec fn refreshed(self, now: i64) -> TaskView {
        TaskView { is_overdue: overdue_at(self.due_date, now), ..self }
    }

    /// The same task with the completion flag flipped.
    pub open spec fn ticked(self) -> TaskView {
        TaskView { completed: !self.completed, ..self }
    }
}

/// A task: the unit of data the repository owns. Timestamps (`due_date`,
/// `created_at`) are minutes-precision local times held as seconds since the
/// epoch; `None` for `due_date` means "no deadline".
pub struct ToDo {
    pub id: u32,
    pub title: String,
    pub description: Option<String>,
    pub due_date: Option<i64>,
    pub created_at: i64,
    pub completed: bool,
    pub is_overdue: bool,
    pub tags: Vec<String>,
}

impl View for ToDo {
    type V = TaskView;

    open spec fn view(&self) -> TaskView {
        TaskView {
            id: self.id,
            title: self.title@,
            description: match self.description {
                Some(d) => Some(d@),
                None => None,
            },
            due_date: self.due_date,
            created_at: self.created_at,
            completed: self.completed,
            is_overdue: self.is_overdue,
            tags: text_views(self.tags@),
        }
    }
}

impl ToDo {
    /// A fresh task: no due date, not overdue, no tags, created at `now`.
    /// An empty description is normalized to absent.
    pub fn new(id: u32, title: String, description: Option<String>, completed: bool, now: i64) -> (t: ToDo)
        requires
            id >= 1,
            title@.len() > 0,
        ensures
            t@.id == id,
            t@.title == title@,
            t@.description == (match description {
                Some(d) => if d@.len() > 0 { Some(d@) } else { None::<Seq<char>> },
                None => None::<Seq<char>>,
            }),
            t@.due_date is None,
            t@.created_at == now,
            t@.completed == completed,
            t@.is_overdue == false,
            t@.tags =~= Seq::<Seq<char>>::empty(),
            t@.wf(),
    {
        let description = match description {
            Some(d) => {
                if d.as_str().is_empty() {
                    None
                } else {
                    Some(d)
                }
            },
            None => None,
        };
        let t = ToDo {
            id,
            title,
            description,
            due_date: None,
            created_at: now,
            completed,
            is_overdue: false,
            tags: Vec::new(),
        };
        proof {
            assert(t@.tags =~= Seq::<Seq<char>>::empty());
        }
        t
    }

    /// Flips the completion flag and changes nothing else.
    pub fn tick(&mut self)
        ensures
            final(self)@ == old(self)@.ticked(),
    {
        self.completed = !self.completed;
    }

    /// Recomputes the overdue flag against `now` and changes nothing else.
    pub fn check_overdue(&mut self, now: i64)
        ensures
            final(self)@ == old(self)@.refreshed(now),
    {
        self.is_overdue = match self.due_date {
            Some(d) => d <= now,
            None => false,
        };
    }

    /// Adds `tag` to the task's tag set; a name already present is not
    /// duplicated.
    pub fn add_tag(&mut self, tag: String)
        ensures
            final(self)@ == with_tag(old(self)@, tag@),
            tags_distinct(old(self)@.tags) ==> tags_distinct(final(self)@.tags),
    {
        if !vec_has_string(&self.tags, &tag) {
            self.tags.push(tag);
            proof {
                assert(final(self)@.tags =~= old(self)@.tags.push(tag@));
            }
        }
    }

    /// Sets the due date.
    pub fn set_due_date(&mut self, due: i64)
        ensures
            final(self)@ == (TaskView { due_date: Some(due), ..old(self)@ }),
    {
        self.due_date = Some(due);
    }

    /// Whether the task's model is well formed.
    pub fn is_wf(&self) -> (r: bool)
        ensures
            r == self@.wf(),
    {
        self.id >= 1 && !self.title.as_str().is_empty() && (match &self.description {
            Some(d) => !d.as_str().is_empty(),
            None => true,
        }) && strings_distinct(&self.tags)
    }

    /// A copy of the task; the copy models the same task.
    pub fn duplicate(&self) -> (r: ToDo)
        ensures
            r@ == self@,
    {
        let r = ToDo {
            id: self.id,
            title: self.title.clone(),
            description: match &self.description {
                Some(d) => Some(d.clone()),
                None => None,
            },
            due_date: self.due_date,
            created_at: self.created_at,
            completed: self.completed,
            is_overdue: self.is_overdue,
            tags: clone_strings(&self.tags),
        };
        proof {
            assert(r@ =~= self@);
        }
        r
    }

    /// The task's tag names.
    pub fn get_tags(&self) -> (r: &Vec<String>)
        ensures
            r == &self.tags,
    {
        &self.tags
    }
}

/// A copy of a vector of strings; the copy holds the same strings.
pub fn clone_strings(v: &Vec<String>) -> (r: Vec<String>)
    ensures
        r@ == v@,
{
    let mut out: Vec<String> = Vec::new();
    let mut i: usize = 0;
    while i < v.len()
        invariant
            0 <= i <= v.len(),
            out@ =~= v@.take(i as int),
        decreases v.len() - i,
    {
        out.push(v[i].clone());
        proof {
            assert(out@ =~= v@.take(i + 1));
        }
        i = i + 1;
    }
    proof {
        assert(out@ =~= v@);
    }
    out
}

/// A copy of a vector of tasks; the copies model the same tasks in the same
/// order.
pub fn clone_todos(v: &Vec<ToDo>) -> (r: Vec<ToDo>)
    ensures
        task_views(r@) == task_views(v@),
{
    let mut out: Vec<ToDo> = Vec::new();
    let mut i: usize = 0;
    while i < v.len()
        invariant
            0 <= i <= v.len(),
            task_views(out@) =~= task_views(v@).take(i as int),
        decreases v.len() - i,
    {
        proof {
            assert(task_views(v@)[i as int] == v@[i as int]@);
            assert(task_views(v@).take(i + 1) =~= task_views(v@).take(i as int).push(
                v@[i as int]@,
            ));
        }
        let ghost before = task_views(out@);
        let c = v[i].duplicate();
        out.push(c);
        proof {
            assert(task_views(out@) =~= before.push(v@[i as int]@));
            assert(task_views(out@) =~= task_views(v@).take(i + 1));
        }
        i = i + 1;
    }
    proof {
        assert(task_views(out@) =~= task_views(v@));
    }
    out
}

/// Whether no two elements of `v` hold the same text.
pub fn strings_distinct(v: &Vec<String>) -> (r: bool)
    ensures
        r == tags_distinct(text_views(v@)),
{
    let mut i: usize = 0;
    while i < v.len()
        invariant
            0 <= i <= v.len(),
            forall|p: int, q: int| 0 <= p < q < i ==> text_views(v@)[p] != text_views(v@)[q],
        decreases v.len() - i,
    {
        let mut j: usize = 0;
        while j < i
            invariant
                0 <= j <= i < v.len(),
                forall|q: int| 0 <= q < j ==> text_views(v@)[q] != text_views(v@)[i as int],
            decreases i - j,
        {
            proof {
                assert(text_views(v@)[j as int] == v@[j as int]@);
                assert(text_views(v@)[i as int] == v@[i as int]@);
            }
            if v[j] == v[i] {
                return false;
            }
            j = j + 1;
        }
        i = i + 1;
    }
    true
}

/// Copies the names of `v` in order, dropping every repeated name.
pub fn dedup_strings(v: &Vec<String>) -> (r: Vec<String>)
    ensures
        text_views(r@) == dedup(text_views(v@)),
        tags_distinct(text_views(r@)),
{
    let mut out: Vec<String> = Vec::new();
    let mut i: usize = 0;
    while i < v.len()
        invariant
            0 <= i <= v.len(),
            text_views(out@) =~= dedup(text_views(v@).take(i as int)),
        decreases v.len() - i,
    {
        proof {
            assert(text_views(v@)[i as int] == v@[i as int]@);
            assert(text_views(v@).take(i + 1).drop_last() =~= text_views(v@).take(i as int));
            assert(text_views(v@).take(i + 1).last() == v@[i as int]@);
        }
        let ghost before = text_views(out@);
        if !vec_has_string(&out, &v[i]) {
            out.push(v[i].clone());
            proof {
                assert(text_views(out@) =~= before.push(v@[i as int]@));
            }
        }
        proof {
            assert(text_views(out@) =~= dedup(text_views(v@).take(i + 1)));
        }
        i = i + 1;
    }
    proof {
        assert(text_views(v@).take(v@.len() as int) =~= text_views(v@));
        assert(text_views(out@) =~= dedup(text_views(v@)));
        lemma_dedup_distinct(text_views(v@));
    }
    out
}

/// Whether some element of `v` holds the same text as `s`.
pub fn vec_has_string(v: &Vec<String>, s: &String) -> (r: bool)
    ensures
        r == has_tag(text_views(v@), s@),
{
    let mut i: usize = 0;
    while i < v.len()
        invariant
            0 <= i <= v.len(),
            forall|k: int| 0 <= k < i ==> text_views(v@)[k] != s@,
        decreases v.len() - i,
    {
        proof {
            assert(text_views(v@)[i as int] == v@[i as int]@);
        }
        if v[i] == *s {
            return true;
        }
        i = i + 1;
    }
    false
}

} // verus!

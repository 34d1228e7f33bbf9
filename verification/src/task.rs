//! Task trees of a daily entry and the carry-over of unfinished work to the next day.
use vstd::prelude::*;
use crate::text::{trim, trim_str};

verus! {

/// State of a checklist item: `[ ]`, `[/]` or `[x]`.
#[derive(Debug, Clone, Copy, PartialEq, Eq, Structural)]
pub enum TaskStatus {
    Todo,
    Doing,
    Done,
}

/// The status that a checkbox character stands for.
pub open spec fn status_of_token(token: char) -> TaskStatus {
    if token == '/' {
        TaskStatus::Doing
    } else if token == 'x' || token == 'X' {
        TaskStatus::Done
    } else {
        TaskStatus::Todo
    }
}

/// The checkbox character written for a status.
pub open spec fn token_of_status(status: TaskStatus) -> char {
    match status {
        TaskStatus::Todo => ' ',
        TaskStatus::Doing => '/',
        TaskStatus::Done => 'x',
    }
}

impl Default for TaskStatus {
    /// A new task is to do.
    fn default() -> (s: TaskStatus)
        ensures
            s == TaskStatus::Todo,
    {
        TaskStatus::Todo
    }
}

impl TaskStatus {
    /// `/` is in progress, `x` or `X` is done, any other character is to do.
    pub fn from_token(token: char) -> (s: Self)
        ensures
            s == status_of_token(token),
    {
        match token {
            '/' => TaskStatus::Doing,
            'x' | 'X' => TaskStatus::Done,
            _ => TaskStatus::Todo,
        }
    }

    /// The character between the checkbox brackets.
    pub fn token(self) -> (c: char)
        ensures
            c == token_of_status(self),
    {
        match self {
            TaskStatus::Todo => ' ',
            TaskStatus::Doing => '/',
            TaskStatus::Done => 'x',
        }
    }
}

/// The meaning of a task: its text, status, sub-tasks and notes.
pub struct Task {
    pub text: Seq<char>,
    pub status: TaskStatus,
    pub children: Seq<Task>,
    pub notes: Seq<Seq<char>>,
}

/// A checklist item with nested sub-tasks and free-text notes.
#[derive(Debug)]
pub struct TaskNode {
    pub text: String,
    pub status: TaskStatus,
    pub children: Vec<TaskNode>,
    pub notes: Vec<String>,
}

/// The texts held by a sequence of strings.
pub open spec fn strings_view(v: Seq<String>) -> Seq<Seq<char>> {
    Seq::new(v.len(), |i: int| v[i]@)
}

impl TaskNode {
    /// The meaning of this node.
    pub open spec fn model(&self) -> Task
        decreases self,
    {
        Task {
            text: self.text@,
            status: self.status,
            children: forest_model(self.children@),
            notes: strings_view(self.notes@),
        }
    }
}

/// The meaning of a list of nodes.
pub open spec fn forest_model(s: Seq<TaskNode>) -> Seq<Task>
    decreases s,
{
    Seq::new(s.len(), |i: int| if 0 <= i < s.len() { s[i].model() } else { arbitrary() })
}

/// Replacing one node replaces its meaning.
pub broadcast proof fn lemma_forest_model_update(s: Seq<TaskNode>, i: int, x: TaskNode)
    requires
        0 <= i < s.len(),
    ensures
        #[trigger] forest_model(s.update(i, x)) == forest_model(s).update(i, x.model()),
{
    assert(forest_model(s.update(i, x)) =~= forest_model(s).update(i, x.model()));
}

impl View for TaskNode {
    type V = Task;

    open spec fn view(&self) -> Task {
        self.model()
    }
}

/// The meaning of an optional node.
pub open spec fn option_model(o: Option<TaskNode>) -> Option<Task> {
    match o {
        Some(n) => Some(n.model()),
        None => None,
    }
}

/// What of a task is carried to the next day: nothing for a finished task whose
/// sub-tasks are all finished; otherwise the task with its text trimmed, its notes,
/// only its carried sub-tasks, and `Done` turned into `Doing`.
pub open spec fn carry_task(t: Task) -> Option<Task>
    decreases t,
{
    let kids = carry_forest(t.children);
    if t.status == TaskStatus::Done && kids.len() == 0 {
        None
    } else {
        Some(
            Task {
                text: trim(t.text),
                status: if t.status == TaskStatus::Done {
                    TaskStatus::Doing
                } else {
                    t.status
                },
                children: kids,
                notes: t.notes,
            },
        )
    }
}

/// The carried tasks of a list, in order.
pub open spec fn carry_forest(f: Seq<Task>) -> Seq<Task>
    decreases f,
{
    if f.len() == 0 {
        Seq::empty()
    } else {
        let rest = carry_forest(f.subrange(0, f.len() - 1));
        match carry_task(f[f.len() - 1]) {
            Some(t) => rest.push(t),
            None => rest,
        }
    }
}

impl TaskNode {
    /// The task as it stands on the following day, if it stays (see `carry_task`).
    pub fn carry_over(&self) -> (r: Option<TaskNode>)
        ensures
            option_model(r) == carry_task(self@),
        decreases self,
    {
        let mut children: Vec<TaskNode> = Vec::new();
        let mut i: usize = 0;
        while i < self.children.len()
            invariant
                i <= self.children@.len(),
                forest_model(children@) == carry_forest(
                    forest_model(self.children@).take(i as int),
                ),
            decreases self.children@.len() - i,
        {
            let ghost f = forest_model(self.children@);
            assert(f.take(i + 1).subrange(0, i as int) == f.take(i as int));
            assert(f.take(i + 1)[i as int] == self.children@[i as int].model());
            let ghost before = forest_model(children@);
            proof {
                assert(decreases_to!(self => self.children@[i as int]));
            }
            match self.children[i].carry_over() {
                Some(c) => {
                    children.push(c);
                    assert(forest_model(children@) =~= before.push(c.model()));
                },
                None => {},
            }
            i = i + 1;
        }
        assert(forest_model(self.children@).take(self.children@.len() as int) == forest_model(
            self.children@,
        ));
        let done = match self.status {
            TaskStatus::Done => true,
            _ => false,
        };
        if done && children.len() == 0 {
            return None;
        }
        let notes = self.notes.clone();
        assert(strings_view(notes@) =~= strings_view(self.notes@));
        let node = TaskNode {
            text: trim_str(self.text.as_str()),
            status: if done {
                TaskStatus::Doing
            } else {
                self.status
            },
            children,
            notes,
        };
        Some(node)
    }
}

/// The three task lists of a day.
#[derive(Debug)]
pub struct EntryDoc {
    pub must_do_tasks: Vec<TaskNode>,
    pub queued_tasks: Vec<TaskNode>,
    pub pending_tasks: Vec<TaskNode>,
}

/// The meaning of a day's task lists.
pub struct DocModel {
    pub must_do: Seq<Task>,
    pub queued: Seq<Task>,
    pub pending: Seq<Task>,
}

impl View for EntryDoc {
    type V = DocModel;

    open spec fn view(&self) -> DocModel {
        DocModel {
            must_do: forest_model(self.must_do_tasks@),
            queued: forest_model(self.queued_tasks@),
            pending: forest_model(self.pending_tasks@),
        }
    }
}

/// A day with no tasks.
pub open spec fn empty_doc() -> DocModel {
    DocModel { must_do: Seq::empty(), queued: Seq::empty(), pending: Seq::empty() }
}

impl EntryDoc {
    /// A day with no tasks.
    pub fn new() -> (d: EntryDoc)
        ensures
            d@ == empty_doc(),
    {
        let d = EntryDoc { must_do_tasks: Vec::new(), queued_tasks: Vec::new(), pending_tasks: Vec::new() };
        assert(d@.must_do =~= Seq::<Task>::empty());
        assert(d@.queued =~= Seq::<Task>::empty());
        assert(d@.pending =~= Seq::<Task>::empty());
        d
    }
}

impl Default for EntryDoc {
    /// A day with no tasks.
    fn default() -> (d: EntryDoc)
        ensures
            d@ == empty_doc(),
    {
        EntryDoc::new()
    }
}

/// The carried tasks of each list of a day.
pub open spec fn carry_doc(d: DocModel) -> DocModel {
    DocModel {
        must_do: carry_forest(d.must_do),
        queued: carry_forest(d.queued),
        pending: carry_forest(d.pending),
    }
}

/// The carried tasks of a list of nodes, in order.
pub fn carry_over_tasks(tasks: &Vec<TaskNode>) -> (r: Vec<TaskNode>)
    ensures
        forest_model(r@) == carry_forest(forest_model(tasks@)),
{
    let mut out: Vec<TaskNode> = Vec::new();
    let mut i: usize = 0;
    while i < tasks.len()
        invariant
            i <= tasks@.len(),
            forest_model(out@) == carry_forest(forest_model(tasks@).take(i as int)),
        decreases tasks@.len() - i,
    {
        let ghost f = forest_model(tasks@);
        assert(f.take(i + 1).subrange(0, i as int) == f.take(i as int));
        assert(f.take(i + 1)[i as int] == tasks@[i as int].model());
        let ghost before = forest_model(out@);
        match tasks[i].carry_over() {
            Some(c) => {
                out.push(c);
                assert(forest_model(out@) =~= before.push(c.model()));
            },
            None => {},
        }
        i = i + 1;
    }
    assert(forest_model(tasks@).take(tasks@.len() as int) == forest_model(tasks@));
    out
}

/// The carried tasks of each list of a day.
pub fn carry_over_doc(doc: &EntryDoc) -> (r: EntryDoc)
    ensures
        r@ == carry_doc(doc@),
{
    EntryDoc {
        must_do_tasks: carry_over_tasks(&doc.must_do_tasks),
        queued_tasks: carry_over_tasks(&doc.queued_tasks),
        pending_tasks: carry_over_tasks(&doc.pending_tasks),
    }
}

/// Number of levels of a task tree.
pub open spec fn task_height(t: Task) -> nat
    decreases t,
{
    1 + forest_height(t.children)
}

/// Number of levels of the deepest tree of a list.
pub open spec fn forest_height(f: Seq<Task>) -> nat
    decreases f,
{
    if f.len() == 0 {
        0
    } else {
        let a = forest_height(f.subrange(0, f.len() - 1));
        let b = task_height(f[f.len() - 1]);
        if a >= b {
            a
        } else {
            b
        }
    }
}

/// The deepest tree of a day's lists.
pub open spec fn doc_height(d: DocModel) -> nat {
    let a = forest_height(d.must_do);
    let b = forest_height(d.queued);
    let c = forest_height(d.pending);
    if a >= b && a >= c {
        a
    } else if b >= c {
        b
    } else {
        c
    }
}

} // verus!

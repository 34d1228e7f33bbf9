//! Building task trees from indented lines: addressing lists and nodes by index paths,
//! the stack of open tasks, and where a task or a note goes.
use vstd::prelude::*;
use crate::task::{Task, TaskNode, EntryDoc, DocModel, forest_model, strings_view, forest_height, task_height, doc_height};
use crate::parse::ParseSection;

verus! {

broadcast use {vstd::string::group_string_axioms, crate::task::lemma_forest_model_update};

/// Every index of `p` stays inside the list it indexes, starting from `f`.
pub open spec fn valid_list_path(f: Seq<Task>, p: Seq<usize>) -> bool
    decreases p.len(),
{
    p.len() == 0 || (p[0] < f.len() && valid_list_path(f[p[0] as int].children, p.drop_first()))
}

/// The list that `p` leads to: the children of the node at `p`, or `f` itself for `[]`.
pub open spec fn list_at(f: Seq<Task>, p: Seq<usize>) -> Seq<Task>
    decreases p.len(),
{
    if p.len() == 0 {
        f
    } else if p[0] < f.len() {
        list_at(f[p[0] as int].children, p.drop_first())
    } else {
        Seq::empty()
    }
}

/// `t` with other children.
pub open spec fn with_children(t: Task, c: Seq<Task>) -> Task {
    Task { text: t.text, status: t.status, children: c, notes: t.notes }
}

/// `f` with the list at `p` replaced by `l`.
pub open spec fn replace_list(f: Seq<Task>, p: Seq<usize>, l: Seq<Task>) -> Seq<Task>
    decreases p.len(),
{
    if p.len() == 0 {
        l
    } else if p[0] < f.len() {
        let n = f[p[0] as int];
        f.update(p[0] as int, with_children(n, replace_list(n.children, p.drop_first(), l)))
    } else {
        f
    }
}

/// `f` with `t` appended to the list at `p`.
pub open spec fn push_task_at(f: Seq<Task>, p: Seq<usize>, t: Task) -> Seq<Task> {
    replace_list(f, p, list_at(f, p).push(t))
}

/// `p` addresses a node: it is not empty and every index is in range.
pub open spec fn valid_node_path(f: Seq<Task>, p: Seq<usize>) -> bool
    decreases p.len(),
{
    p.len() > 0 && p[0] < f.len() && (p.len() == 1 || valid_node_path(
        f[p[0] as int].children,
        p.drop_first(),
    ))
}

/// The node at `p`.
pub open spec fn node_at(f: Seq<Task>, p: Seq<usize>) -> Task
    decreases p.len(),
{
    if p.len() <= 1 || !(p[0] < f.len()) {
        f[p[0] as int]
    } else {
        node_at(f[p[0] as int].children, p.drop_first())
    }
}

/// `f` with the node at `p` replaced by `n`.
pub open spec fn replace_node(f: Seq<Task>, p: Seq<usize>, n: Task) -> Seq<Task>
    decreases p.len(),
{
    if p.len() == 0 || !(p[0] < f.len()) {
        f
    } else if p.len() == 1 {
        f.update(p[0] as int, n)
    } else {
        let m = f[p[0] as int];
        f.update(p[0] as int, with_children(m, replace_node(m.children, p.drop_first(), n)))
    }
}

/// `f` with `note` added to the notes of the node at `p`, if there is one.
pub open spec fn add_note_at(f: Seq<Task>, p: Seq<usize>, note: Seq<char>) -> Seq<Task> {
    if valid_node_path(f, p) {
        let n = node_at(f, p);
        replace_node(
            f,
            p,
            Task { text: n.text, status: n.status, children: n.children, notes: n.notes.push(note) },
        )
    } else {
        f
    }
}

/// The list of a day that a section's tasks go to: must-do, pending, or else the queued list.
pub open spec fn bucket_of(d: DocModel, s: ParseSection) -> Seq<Task> {
    match s {
        ParseSection::MustDo => d.must_do,
        ParseSection::Pending => d.pending,
        _ => d.queued,
    }
}

/// `d` with the list of section `s` replaced by `f`.
pub open spec fn with_bucket(d: DocModel, s: ParseSection, f: Seq<Task>) -> DocModel {
    match s {
        ParseSection::MustDo => DocModel { must_do: f, queued: d.queued, pending: d.pending },
        ParseSection::Pending => DocModel { must_do: d.must_do, queued: d.queued, pending: f },
        _ => DocModel { must_do: d.must_do, queued: f, pending: d.pending },
    }
}

/// The stack of open tasks: indentation level and path of each.
pub open spec fn stack_view(s: Seq<(usize, Vec<usize>)>) -> Seq<(usize, Seq<usize>)> {
    Seq::new(s.len(), |i: int| (s[i].0, s[i].1@))
}

/// The stack without its entries at `indent` or deeper on top.
pub open spec fn pop_levels(st: Seq<(usize, Seq<usize>)>, indent: usize) -> Seq<(usize, Seq<usize>)>
    decreases st.len(),
{
    if st.len() > 0 && st.last().0 >= indent {
        pop_levels(st.drop_last(), indent)
    } else {
        st
    }
}

/// The path of the list that a task at `indent` joins: the children of the nearest open
/// task that is less indented, or the top-level list.
pub open spec fn parent_path(st: Seq<(usize, Seq<usize>)>, indent: usize) -> Seq<usize> {
    let popped = pop_levels(st, indent);
    if popped.len() > 0 {
        popped.last().1
    } else {
        Seq::empty()
    }
}

/// The day and the stack after a task at `indent` is added to section `s`: the task
/// joins the list at `parent_path`, and becomes the innermost open task.
pub open spec fn appended(
    d: DocModel,
    s: ParseSection,
    st: Seq<(usize, Seq<usize>)>,
    indent: usize,
    t: Task,
) -> (DocModel, Seq<(usize, Seq<usize>)>) {
    let parent = parent_path(st, indent);
    let b = bucket_of(d, s);
    (
        with_bucket(d, s, push_task_at(b, parent, t)),
        pop_levels(st, indent).push((indent, parent.push(list_at(b, parent).len() as usize))),
    )
}

/// The path of the topmost open task at level `pref` or shallower.
pub open spec fn last_at_most(st: Seq<(usize, Seq<usize>)>, pref: usize) -> Option<Seq<usize>>
    decreases st.len(),
{
    if st.len() == 0 {
        None
    } else if st.last().0 <= pref {
        Some(st.last().1)
    } else {
        last_at_most(st.drop_last(), pref)
    }
}

/// The task that a note at `indent` belongs to: the innermost open task at least one level
/// shallower, or else the outermost open task; none when no task is open.
pub open spec fn note_target(st: Seq<(usize, Seq<usize>)>, indent: usize) -> Option<Seq<usize>> {
    if st.len() == 0 {
        None
    } else {
        let pref: usize = if indent >= 1 {
            (indent - 1) as usize
        } else {
            0
        };
        match last_at_most(st, pref) {
            Some(p) => Some(p),
            None => Some(st[0].1),
        }
    }
}

/// The day after a note at `indent` is attached in section `s`.
pub open spec fn attached(
    d: DocModel,
    s: ParseSection,
    st: Seq<(usize, Seq<usize>)>,
    indent: usize,
    text: Seq<char>,
) -> DocModel {
    match note_target(st, indent) {
        Some(p) => with_bucket(d, s, add_note_at(bucket_of(d, s), p, text)),
        None => d,
    }
}

/// Every open task of the stack is a node of `f`, and the `j`-th has a path of length `j + 1`.
pub open spec fn stack_ok(f: Seq<Task>, st: Seq<(usize, Seq<usize>)>) -> bool {
    forall|j: int|
        0 <= j < st.len() ==> valid_node_path(f, #[trigger] st[j].1) && st[j].1.len() == j + 1
}

/// The list of a day that a section's tasks go to.
pub fn task_bucket_mut(doc: &mut EntryDoc, section: ParseSection) -> (r: &mut Vec<TaskNode>)
    ensures
        forest_model((*r)@) == bucket_of(old(doc)@, section),
        final(doc)@ == with_bucket(old(doc)@, section, forest_model((*final(r))@)),
{
    match section {
        ParseSection::MustDo => &mut doc.must_do_tasks,
        ParseSection::Pending => &mut doc.pending_tasks,
        ParseSection::Queued | ParseSection::LegacyToday | ParseSection::LegacyDone
        | ParseSection::Other | ParseSection::LegacyImpact | ParseSection::LegacySupport
        | ParseSection::LegacyImprovements | ParseSection::LegacyLearning
        | ParseSection::LegacyNotes => &mut doc.queued_tasks,
    }
}

/// The list at `path`.
pub fn task_list_mut<'a>(tasks: &'a mut Vec<TaskNode>, path: &[usize]) -> (r: &'a mut Vec<
    TaskNode,
>)
    requires
        valid_list_path(forest_model(old(tasks)@), path@),
    ensures
        forest_model((*r)@) == list_at(forest_model(old(tasks)@), path@),
        forest_model(final(tasks)@) == replace_list(
            forest_model(old(tasks)@),
            path@,
            forest_model((*final(r))@),
        ),
    decreases path@.len(),
{
    if path.len() == 0 {
        return tasks;
    }
    let i = path[0];
    let rest = vstd::slice::slice_subrange(path, 1, path.len());
    assert(rest@ == path@.drop_first());
    let node = &mut tasks[i];
    let r = task_list_mut(&mut node.children, rest);
    r
}

/// Appends `task` to the list at `path` and returns its index there.
pub fn push_task(tasks: &mut Vec<TaskNode>, path: &[usize], task: TaskNode) -> (index: usize)
    requires
        valid_list_path(forest_model(old(tasks)@), path@),
    ensures
        index == list_at(forest_model(old(tasks)@), path@).len(),
        forest_model(final(tasks)@) == push_task_at(forest_model(old(tasks)@), path@, task@),
{
    let list = task_list_mut(tasks, path);
    let index = list.len();
    let ghost before = list@;
    list.push(task);
    assert(forest_model(list@) =~= forest_model(before).push(task@));
    index
}

/// The node at `path`, if `path` addresses one.
pub fn get_task_mut<'a>(tasks: &'a mut Vec<TaskNode>, path: &[usize]) -> (r: Option<&'a mut TaskNode>)
    ensures
        r is Some <==> valid_node_path(forest_model(old(tasks)@), path@),
        r matches Some(n) ==> (*n)@ == node_at(forest_model(old(tasks)@), path@)
            && forest_model(final(tasks)@) == replace_node(
            forest_model(old(tasks)@),
            path@,
            (*final(n))@,
        ),
        r is None ==> forest_model(final(tasks)@) == forest_model(old(tasks)@),
    decreases path@.len(),
{
    if path.len() == 0 {
        return None;
    }
    let first = path[0];
    if first >= tasks.len() {
        return None;
    }
    let rest = vstd::slice::slice_subrange(path, 1, path.len());
    assert(rest@ == path@.drop_first());
    let node = &mut tasks[first];
    if rest.len() == 0 {
        return Some(node);
    }
    get_task_mut(&mut node.children, rest)
}

/// The path of the task that a note at `indent` belongs to (see `note_target`).
pub fn note_target_path(stack: &[(usize, Vec<usize>)], indent: usize) -> (r: Option<&[usize]>)
    ensures
        match r {
            Some(p) => note_target(stack_view(stack@), indent) == Some(p@),
            None => note_target(stack_view(stack@), indent) is None,
        },
{
    if stack.len() == 0 {
        return None;
    }
    let preferred: usize = if indent >= 1 { indent - 1 } else { 0 };
    let ghost st = stack_view(stack@);
    let mut k: usize = stack.len();
    assert(st.take(k as int) == st);
    while k > 0
        invariant
            k <= stack@.len(),
            st == stack_view(stack@),
            preferred == (if indent >= 1 { (indent - 1) as usize } else { 0usize }),
            last_at_most(st, preferred) == last_at_most(st.take(k as int), preferred),
        decreases k,
    {
        let (level, path) = &stack[k - 1];
        assert(st.take(k as int).last() == st[k - 1]);
        if *level <= preferred {
            assert(st[k - 1].1 == path@);
            assert(st[k - 1].0 == *level);
            assert(last_at_most(st.take(k as int), preferred) == Some(st[k - 1].1));
            return Some(path.as_slice());
        }
        assert(st.take(k as int).drop_last() == st.take(k - 1));
        k = k - 1;
    }
    Some(stack[0].1.as_slice())
}

/// Attaches `text` as a note of the task that a note at `indent` belongs to, if any.
pub fn attach_note(
    doc: &mut EntryDoc,
    section: ParseSection,
    stack: &[(usize, Vec<usize>)],
    indent: usize,
    text: &str,
)
    ensures
        final(doc)@ == attached(old(doc)@, section, stack_view(stack@), indent, text@),
        forest_height(bucket_of(final(doc)@, section)) <= forest_height(bucket_of(old(doc)@, section)),
{
    proof {
        match note_target(stack_view(stack@), indent) {
            Some(p) => lemma_height_note(bucket_of(doc@, section), p, text@),
            None => {},
        }
    }
    let path = match note_target_path(stack, indent) {
        Some(p) => p,
        None => {
            return ;
        },
    };
    let tasks = task_bucket_mut(doc, section);
    let ghost b = forest_model(tasks@);
    match get_task_mut(tasks, path) {
        Some(node) => {
            let ghost before = node.notes@;
            node.notes.push(text.to_string());
            assert(strings_view(node.notes@) =~= strings_view(before).push(text@));
        },
        None => {},
    }
}

/// `a` is a prefix of `b`.
pub open spec fn is_prefix_of<T>(a: Seq<T>, b: Seq<T>) -> bool {
    a.len() <= b.len() && forall|i: int| 0 <= i < a.len() ==> a[i] == b[i]
}

proof fn lemma_pop_prefix(st: Seq<(usize, Seq<usize>)>, indent: usize)
    ensures
        is_prefix_of(pop_levels(st, indent), st),
        pop_levels(st, indent).len() > 0 ==> pop_levels(st, indent).last().0 < indent,
    decreases st.len(),
{
    if st.len() > 0 && st.last().0 >= indent {
        lemma_pop_prefix(st.drop_last(), indent);
    }
}

/// A node path also addresses that node's list of children.
pub proof fn lemma_node_path_list_path(f: Seq<Task>, p: Seq<usize>)
    requires
        valid_node_path(f, p),
    ensures
        valid_list_path(f, p),
    decreases p.len(),
{
    if p.len() > 1 {
        lemma_node_path_list_path(f[p[0] as int].children, p.drop_first());
    } else {
        assert(p.drop_first().len() == 0);
        assert(valid_list_path(f[p[0] as int].children, p.drop_first()));
    }
}

/// Replacing the list at a valid path puts exactly that list there.
pub proof fn lemma_replace_list_at(f: Seq<Task>, p: Seq<usize>, l: Seq<Task>)
    requires
        valid_list_path(f, p),
    ensures
        valid_list_path(replace_list(f, p, l), p),
        list_at(replace_list(f, p, l), p) == l,
    decreases p.len(),
{
    if p.len() > 0 {
        lemma_replace_list_at(f[p[0] as int].children, p.drop_first(), l);
    }
}

/// An index inside the list at `p` extends `p` to a node path.
pub proof fn lemma_list_index_node(g: Seq<Task>, p: Seq<usize>, k: usize)
    requires
        valid_list_path(g, p),
        k < list_at(g, p).len(),
    ensures
        valid_node_path(g, p.push(k)),
    decreases p.len(),
{
    if p.len() > 0 {
        lemma_list_index_node(g[p[0] as int].children, p.drop_first(), k);
        assert(p.push(k).drop_first() == p.drop_first().push(k));
    }
}

/// Growing the list at a path keeps every node where it was.
pub proof fn lemma_replace_keeps_nodes(f: Seq<Task>, p: Seq<usize>, l: Seq<Task>, q: Seq<usize>)
    requires
        valid_list_path(f, p),
        is_prefix_of(list_at(f, p), l),
        valid_node_path(f, q),
    ensures
        valid_node_path(replace_list(f, p, l), q),
    decreases p.len(), q.len(),
{
    if p.len() == 0 {
        assert(l[q[0] as int] == f[q[0] as int]);
    } else {
        if q.len() > 1 && q[0] == p[0] {
            lemma_replace_keeps_nodes(
                f[p[0] as int].children,
                p.drop_first(),
                l,
                q.drop_first(),
            );
        }
    }
}

/// Adds `task` to the list of `section` under the nearest open task that is less indented
/// (or at the top level), and makes it the innermost open task.
pub fn append_task(
    doc: &mut EntryDoc,
    section: ParseSection,
    stack: &mut Vec<(usize, Vec<usize>)>,
    indent: usize,
    task: TaskNode,
)
    requires
        stack_ok(bucket_of(old(doc)@, section), stack_view(old(stack)@)),
    ensures
        (final(doc)@, stack_view(final(stack)@)) == appended(
            old(doc)@,
            section,
            stack_view(old(stack)@),
            indent,
            task@,
        ),
        stack_ok(bucket_of(final(doc)@, section), stack_view(final(stack)@)),
        final(stack)@.len() <= old(stack)@.len() + 1,
        task@.children.len() == 0 ==> forest_height(bucket_of(final(doc)@, section)) <= (if forest_height(
            bucket_of(old(doc)@, section),
        ) >= old(stack)@.len() + 1 {
            forest_height(bucket_of(old(doc)@, section))
        } else {
            (old(stack)@.len() + 1) as nat
        }),
{
    let ghost st0 = stack_view(stack@);
    let ghost b = bucket_of(doc@, section);
    let ghost popped = pop_levels(st0, indent);
    proof {
        lemma_pop_prefix(st0, indent);
    }
    while stack.len() > 0 && stack[stack.len() - 1].0 >= indent
        invariant
            pop_levels(stack_view(stack@), indent) == popped,
            is_prefix_of(stack_view(stack@), st0),
        decreases stack@.len(),
    {
        let ghost sv = stack_view(stack@);
        assert(sv.last().0 >= indent);
        stack.pop();
        assert(stack_view(stack@) =~= sv.drop_last());
    }
    assert(stack_view(stack@) == popped);
    let ghost parent = parent_path(st0, indent);
    let parent_vec: Vec<usize> = if stack.len() > 0 {
        let c = stack[stack.len() - 1].1.clone();
        assert(c@ =~= stack@[stack@.len() - 1].1@);
        c
    } else {
        Vec::new()
    };
    assert(parent_vec@ == parent);
    proof {
        if popped.len() > 0 {
            assert(popped[popped.len() - 1] == st0[popped.len() - 1]);
            lemma_node_path_list_path(b, parent);
            assert(parent.len() == popped.len());
        }
    }
    let tasks = task_bucket_mut(doc, section);
    let index = push_task(tasks, parent_vec.as_slice(), task);
    let mut next_path = parent_vec;
    next_path.push(index);
    let ghost sv = stack_view(stack@);
    stack.push((indent, next_path));
    assert(stack_view(stack@) =~= sv.push((indent, parent.push(index))));
    proof {
        let l = list_at(b, parent).push(task@);
        let g = push_task_at(b, parent, task@);
        lemma_replace_list_at(b, parent, l);
        lemma_list_index_node(g, parent, index);
        if task@.children.len() == 0 {
            lemma_height_push(b, parent, task@);
        }
        let st1 = stack_view(stack@);
        assert forall|j: int| 0 <= j < st1.len() implies valid_node_path(g, #[trigger] st1[j].1)
            && st1[j].1.len() == j + 1 by {
            if j < popped.len() {
                assert(st1[j] == st0[j]);
                lemma_replace_keeps_nodes(b, parent, l, st0[j].1);
            }
        }
    }
}

/// Attaching a note keeps every node where it was.
pub proof fn lemma_note_keeps_nodes(f: Seq<Task>, p: Seq<usize>, note: Seq<char>, q: Seq<usize>)
    requires
        valid_node_path(f, q),
    ensures
        valid_node_path(add_note_at(f, p, note), q),
{
    if valid_node_path(f, p) {
        let n = node_at(f, p);
        lemma_replace_node_keeps(
            f,
            p,
            Task { text: n.text, status: n.status, children: n.children, notes: n.notes.push(note) },
            q,
        );
    }
}

/// Replacing a node by one with the same children keeps every node where it was.
pub proof fn lemma_replace_node_keeps(f: Seq<Task>, p: Seq<usize>, n: Task, q: Seq<usize>)
    requires
        valid_node_path(f, p),
        valid_node_path(f, q),
        n.children == node_at(f, p).children,
    ensures
        valid_node_path(replace_node(f, p, n), q),
    decreases p.len(),
{
    if p.len() > 1 && q.len() > 1 && q[0] == p[0] {
        lemma_replace_node_keeps(f[p[0] as int].children, p.drop_first(), n, q.drop_first());
    }
}

/// Replacing one list of a day bounds the day's depth by the old depth and the new list's.
pub proof fn lemma_doc_height_with_bucket(d: DocModel, s: ParseSection, f: Seq<Task>)
    ensures
        forest_height(bucket_of(d, s)) <= doc_height(d),
        doc_height(with_bucket(d, s, f)) <= (if doc_height(d) >= forest_height(f) {
            doc_height(d)
        } else {
            forest_height(f)
        }),
{
}

/// Every tree of a list is at most as deep as the list.
pub proof fn lemma_height_each(f: Seq<Task>, i: int)
    requires
        0 <= i < f.len(),
    ensures
        task_height(f[i]) <= forest_height(f),
    decreases f.len(),
{
    if i < f.len() - 1 {
        lemma_height_each(f.subrange(0, f.len() - 1), i);
    }
}

/// A list is no deeper than a bound on each of its trees.
pub proof fn lemma_height_bound(f: Seq<Task>, h: nat)
    requires
        forall|i: int| 0 <= i < f.len() ==> task_height(#[trigger] f[i]) <= h,
    ensures
        forest_height(f) <= h,
    decreases f.len(),
{
    if f.len() > 0 {
        let g = f.subrange(0, f.len() - 1);
        assert forall|i: int| 0 <= i < g.len() implies task_height(#[trigger] g[i]) <= h by {
            assert(g[i] == f[i]);
        }
        lemma_height_bound(g, h);
    }
}

/// Appending a task without sub-tasks at `p` adds at most the level `p.len() + 1`.
pub proof fn lemma_height_push(f: Seq<Task>, p: Seq<usize>, t: Task)
    requires
        t.children.len() == 0,
    ensures
        forest_height(push_task_at(f, p, t)) <= (if forest_height(f) >= p.len() + 1 {
            forest_height(f)
        } else {
            p.len() + 1
        }),
    decreases p.len(),
{
    let h: nat = if forest_height(f) >= p.len() + 1 {
        forest_height(f)
    } else {
        (p.len() + 1) as nat
    };
    let g = push_task_at(f, p, t);
    assert(forest_height(t.children) == 0);
    assert(task_height(t) == 1);
    if p.len() == 0 {
        assert forall|i: int| 0 <= i < g.len() implies task_height(#[trigger] g[i]) <= h by {
            if i < f.len() {
                lemma_height_each(f, i);
            }
        }
        lemma_height_bound(g, h);
    } else if p[0] < f.len() {
        let k = p[0] as int;
        let n = f[k];
        lemma_height_push(n.children, p.drop_first(), t);
        lemma_height_each(f, k);
        assert(list_at(f, p) == list_at(n.children, p.drop_first()));
        assert(g == f.update(k, with_children(n, push_task_at(n.children, p.drop_first(), t))));
        assert forall|i: int| 0 <= i < g.len() implies task_height(#[trigger] g[i]) <= h by {
            if i != k {
                lemma_height_each(f, i);
            }
        }
        lemma_height_bound(g, h);
    } else {
        assert(g == f);
    }
}

/// Replacing a node by one with the same sub-tasks keeps the list as deep as it was.
pub proof fn lemma_height_replace_node(f: Seq<Task>, p: Seq<usize>, n: Task)
    requires
        valid_node_path(f, p),
        n.children == node_at(f, p).children,
    ensures
        forest_height(replace_node(f, p, n)) <= forest_height(f),
    decreases p.len(),
{
    let g = replace_node(f, p, n);
    let k = p[0] as int;
    if p.len() == 1 {
        assert(task_height(n) == task_height(f[k]));
    } else {
        let m = f[k];
        lemma_height_replace_node(m.children, p.drop_first(), n);
        assert(task_height(g[k]) <= task_height(m));
    }
    assert forall|i: int| 0 <= i < g.len() implies task_height(#[trigger] g[i]) <= forest_height(f) by {
        lemma_height_each(f, i);
    }
    lemma_height_bound(g, forest_height(f));
}

/// Attaching a note keeps the list as deep as it was.
pub proof fn lemma_height_note(f: Seq<Task>, p: Seq<usize>, note: Seq<char>)
    ensures
        forest_height(add_note_at(f, p, note)) <= forest_height(f),
{
    if valid_node_path(f, p) {
        let n = node_at(f, p);
        lemma_height_replace_node(
            f,
            p,
            Task { text: n.text, status: n.status, children: n.children, notes: n.notes.push(note) },
        );
    }
}

} // verus!

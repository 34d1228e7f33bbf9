//! Laws of the carry-over of unfinished tasks.
use vstd::prelude::*;
use crate::task::{Task, TaskStatus, carry_task, carry_forest, task_height, forest_height, DocModel, carry_doc, doc_height};
use crate::text::{trim, lemma_trim_idempotent};

verus! {

/// The task, or one of its descendants, is not finished.
pub open spec fn has_open(t: Task) -> bool
    decreases t,
{
    t.status != TaskStatus::Done || forest_has_open(t.children)
}

/// Some task of the list, at any depth, is not finished.
pub open spec fn forest_has_open(f: Seq<Task>) -> bool
    decreases f,
{
    if f.len() == 0 {
        false
    } else {
        forest_has_open(f.subrange(0, f.len() - 1)) || has_open(f[f.len() - 1])
    }
}

/// No task of the tree is finished.
pub open spec fn all_open(t: Task) -> bool
    decreases t,
{
    t.status != TaskStatus::Done && forest_all_open(t.children)
}

/// No task of the list, at any depth, is finished.
pub open spec fn forest_all_open(f: Seq<Task>) -> bool
    decreases f,
{
    if f.len() == 0 {
        true
    } else {
        forest_all_open(f.subrange(0, f.len() - 1)) && all_open(f[f.len() - 1])
    }
}

/// A task is carried to the next day exactly when it or one of its sub-tasks is
/// unfinished; what is carried holds no finished task, keeps a to-do task to do and
/// any other carried task in progress, and carrying it again changes nothing.
pub proof fn lemma_carry_task(t: Task)
    ensures
        carry_task(t) is Some <==> has_open(t),
        carry_task(t) matches Some(c) ==> {
            &&& all_open(c)
            &&& (c.status == TaskStatus::Todo <==> t.status == TaskStatus::Todo)
            &&& carry_task(c) == Some(c)
        },
    decreases t,
{
    lemma_carry_forest(t.children);
    if let Some(c) = carry_task(t) {
        lemma_trim_idempotent(t.text);
        assert(carry_forest(c.children) == c.children);
    }
}

/// The carried list of a list holds exactly its tasks with unfinished work, holds no
/// finished task, and carrying it again changes nothing.
pub proof fn lemma_carry_forest(f: Seq<Task>)
    ensures
        carry_forest(f).len() > 0 <==> forest_has_open(f),
        forest_all_open(carry_forest(f)),
        carry_forest(carry_forest(f)) == carry_forest(f),
    decreases f,
{
    if f.len() > 0 {
        let init = f.subrange(0, f.len() - 1);
        let last = f[f.len() - 1];
        lemma_carry_forest(init);
        lemma_carry_task(last);
        let rest = carry_forest(init);
        match carry_task(last) {
            Some(c) => {
                let r = rest.push(c);
                assert(r.subrange(0, r.len() - 1) == rest);
                assert(r[r.len() - 1] == c);
            },
            None => {},
        }
    }
}

/// Carrying over never makes a tree deeper.
pub proof fn lemma_carry_task_height(t: Task)
    ensures
        carry_task(t) matches Some(c) ==> task_height(c) <= task_height(t),
    decreases t,
{
    lemma_carry_forest_height(t.children);
}

/// Carrying over never makes a list deeper.
pub proof fn lemma_carry_forest_height(f: Seq<Task>)
    ensures
        forest_height(carry_forest(f)) <= forest_height(f),
    decreases f,
{
    if f.len() > 0 {
        let init = f.subrange(0, f.len() - 1);
        lemma_carry_forest_height(init);
        lemma_carry_task_height(f[f.len() - 1]);
        let rest = carry_forest(init);
        match carry_task(f[f.len() - 1]) {
            Some(c) => {
                let r = rest.push(c);
                assert(r.subrange(0, r.len() - 1) == rest);
            },
            None => {},
        }
    }
}

/// Carrying over never makes a day deeper.
pub proof fn lemma_carry_doc_height(d: DocModel)
    ensures
        doc_height(carry_doc(d)) <= doc_height(d),
{
    lemma_carry_forest_height(d.must_do);
    lemma_carry_forest_height(d.queued);
    lemma_carry_forest_height(d.pending);
}

/// The carried form of a task that is carried.
pub open spec fn carried(t: Task) -> Task {
    carry_task(t)->0
}

/// Adding a task to a list adds its carried form, if any, after the carried tasks of the
/// list: no carried task is dropped and none is added.
pub proof fn lemma_carry_forest_push(f: Seq<Task>, t: Task)
    ensures
        carry_forest(f.push(t)) == carry_forest(f) + match carry_task(t) {
            Some(c) => seq![c],
            None => Seq::<Task>::empty(),
        },
{
    let g = f.push(t);
    assert(g.subrange(0, g.len() - 1) == f);
    assert(g[g.len() - 1] == t);
    match carry_task(t) {
        Some(c) => assert(carry_forest(f).push(c) =~= carry_forest(f) + seq![c]),
        None => assert(carry_forest(f) =~= carry_forest(f) + Seq::<Task>::empty()),
    }
}

/// The carried tasks of two lists one after the other are the carried tasks of each.
pub proof fn lemma_carry_forest_concat(a: Seq<Task>, b: Seq<Task>)
    ensures
        carry_forest(a + b) == carry_forest(a) + carry_forest(b),
    decreases b.len(),
{
    if b.len() == 0 {
        assert(a + b =~= a);
        assert(carry_forest(b) =~= Seq::<Task>::empty());
        assert(carry_forest(a) + carry_forest(b) =~= carry_forest(a));
    } else {
        let init = b.drop_last();
        let t = b.last();
        lemma_carry_forest_concat(a, init);
        assert(a + b =~= (a + init).push(t));
        assert(b =~= init.push(t));
        lemma_carry_forest_push(a + init, t);
        lemma_carry_forest_push(init, t);
        match carry_task(t) {
            Some(c) => assert(carry_forest(a) + carry_forest(init) + seq![c] =~= carry_forest(a) + (
            carry_forest(init) + seq![c])),
            None => assert(carry_forest(a) + carry_forest(init) + Seq::<Task>::empty() =~= carry_forest(a)
                + (carry_forest(init) + Seq::<Task>::empty())),
        }
    }
}

/// The carried tasks of a list are exactly its tasks with unfinished work, in order, each
/// in its carried form; so there are as many as the list has such tasks.
pub proof fn lemma_carry_forest_keeps_open(f: Seq<Task>)
    ensures
        carry_forest(f) == f.filter(|t: Task| has_open(t)).map_values(|t: Task| carried(t)),
        carry_forest(f).len() == f.filter(|t: Task| has_open(t)).len(),
    decreases f.len(),
{
    let p = |t: Task| has_open(t);
    let m = |t: Task| carried(t);
    if f.len() == 0 {
        reveal(Seq::filter);
        assert(f.filter(p) =~= Seq::<Task>::empty());
        assert(f.filter(p).map_values(m) =~= Seq::<Task>::empty());
    } else {
        let init = f.drop_last();
        let t = f.last();
        lemma_carry_forest_keeps_open(init);
        assert(f =~= init.push(t));
        init.lemma_filter_push(t, p);
        lemma_carry_forest_push(init, t);
        lemma_carry_task(t);
        if has_open(t) {
            assert(init.filter(p).push(t).map_values(m) =~= init.filter(p).map_values(m).push(carried(t)));
            assert(carry_forest(init) + seq![carried(t)] =~= carry_forest(init).push(carried(t)));
        } else {
            assert(carry_forest(init) + Seq::<Task>::empty() =~= carry_forest(init));
        }
    }
}

/// A carried task keeps its text trimmed and all its notes, turns finished into in
/// progress and keeps any other status, and keeps exactly its sub-tasks with unfinished
/// work, in order, each in its carried form.
pub proof fn lemma_carry_task_keeps_open(t: Task)
    ensures
        carry_task(t) matches Some(c) ==> {
            &&& c.text == trim(t.text)
            &&& c.notes == t.notes
            &&& c.status == (if t.status == TaskStatus::Done {
                TaskStatus::Doing
            } else {
                t.status
            })
            &&& c.children == t.children.filter(|u: Task| has_open(u)).map_values(|u: Task| carried(u))
        },
{
    lemma_carry_forest_keeps_open(t.children);
}

} // verus!

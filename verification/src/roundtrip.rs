//! Reading back what was written: the Markdown of a day, read again, gives the same task
//! lists when every text is already in its normal form.
use vstd::prelude::*;
use crate::text::{
    is_ws, trim, trim_start, trim_end, normalize_ws, collapse_ws, split_lines, lines_text,
    first_newline,
};
use crate::task::{Task, TaskStatus, DocModel, status_of_token, token_of_status, task_height, forest_height, doc_height, empty_doc};
use crate::render::starter_text;
use crate::render_laws::lemma_starter_is_empty_render;
use crate::render::{
    indent, task_line, note_line, task_lines, forest_lines, doc_lines, doc_text, notes_lines,
    title_line, heading_today, heading_must_do, heading_queued, heading_memo, heading_pending,
};
use crate::parse::{
    ParseState, ParseSection, step, run_lines, parse_doc, initial_state, heading_of, content_of,
    checkbox_of, leading_hashes, leading_spaces, with_task, is_task_section, leaf, section_of,
    ascii_key,
};
use crate::text::{contains, occurs_at};
use crate::outline::{
    attached, valid_list_path, list_at, replace_list, valid_node_path, node_at, replace_node,
    with_children, add_note_at, lemma_replace_list_at, lemma_list_index_node, bucket_of,
    with_bucket, pop_levels, parent_path, appended, note_target, last_at_most, push_task_at,
    lemma_node_path_list_path,
};

verus! {

/// A text in normal form: not empty, no whitespace but single spaces between words.
pub open spec fn clean_text(s: Seq<char>) -> bool {
    &&& s.len() > 0
    &&& forall|i: int| 0 <= i < s.len() ==> (is_ws(#[trigger] s[i]) ==> s[i] == ' ')
    &&& s[0] != ' '
    &&& s.last() != ' '
    &&& forall|i: int| 0 <= i < s.len() - 1 ==> !(#[trigger] s[i] == ' ' && s[i + 1] == ' ')
}

/// A prefix of a text in normal form: it may end with one space.
pub open spec fn clean_prefix(s: Seq<char>) -> bool {
    &&& forall|i: int| 0 <= i < s.len() ==> (is_ws(#[trigger] s[i]) ==> s[i] == ' ')
    &&& (s.len() > 0 ==> s[0] != ' ')
    &&& forall|i: int| 0 <= i < s.len() - 1 ==> !(#[trigger] s[i] == ' ' && s[i + 1] == ' ')
}

proof fn lemma_collapse_clean_prefix(s: Seq<char>)
    requires
        clean_prefix(s),
    ensures
        collapse_ws(s) == (if s.len() > 0 && s.last() == ' ' {
            (s.drop_last(), true)
        } else {
            (s, false)
        }),
    decreases s.len(),
{
    if s.len() > 0 {
        let p = s.drop_last();
        assert(clean_prefix(p)) by {
            assert forall|i: int| 0 <= i < p.len() - 1 implies !(#[trigger] p[i] == ' ' && p[i + 1] == ' ') by {
                assert(p[i] == s[i] && p[i + 1] == s[i + 1]);
            }
            assert forall|i: int| 0 <= i < p.len() && is_ws(#[trigger] p[i]) implies p[i] == ' ' by {
                assert(p[i] == s[i]);
            }
        }
        lemma_collapse_clean_prefix(p);
        let c = s.last();
        if p.len() > 0 && p.last() == ' ' {
            assert(s[s.len() - 2] == ' ');
            assert(c != ' ');
            assert(!is_ws(c));
            assert(p.drop_last().len() > 0);
            assert(p.drop_last().push(' ').push(c) =~= s);
        } else {
            if is_ws(c) {
                assert(c == ' ');
                assert(p.len() > 0);
            } else {
                assert(p.push(c) =~= s);
            }
        }
    }
}

/// A text in normal form is its own normal form and its own trimmed form.
pub proof fn lemma_clean_fixed(s: Seq<char>)
    requires
        clean_text(s),
    ensures
        normalize_ws(s) == s,
        trim(s) == s,
        trim_start(s) == s,
        trim_end(s) == s,
{
    lemma_collapse_clean_prefix(s);
    assert(!is_ws(s[0]));
    assert(!is_ws(s.last()));
    assert(trim_start(s) == s);
    assert(trim_end(s) == s);
}

/// No line holds a newline.
pub open spec fn no_newlines(ls: Seq<Seq<char>>) -> bool {
    forall|i: int, j: int| 0 <= i < ls.len() && 0 <= j < ls[i].len() ==> #[trigger] ls[i][j] != '\n'
}

proof fn lemma_lines_text_front(ls: Seq<Seq<char>>)
    requires
        ls.len() > 0,
    ensures
        lines_text(ls) == ls[0] + seq!['\n'] + lines_text(ls.drop_first()),
    decreases ls.len(),
{
    if ls.len() == 1 {
        assert(ls.drop_last() =~= Seq::<Seq<char>>::empty());
        assert(ls.drop_first() =~= Seq::<Seq<char>>::empty());
        assert(lines_text(ls.drop_last()) == Seq::<char>::empty());
        assert(ls.last() == ls[0]);
        assert(lines_text(ls) =~= ls[0] + seq!['\n']);
    } else {
        let init = ls.drop_last();
        lemma_lines_text_front(init);
        assert(ls.drop_first().drop_last() == init.drop_first());
        assert(ls.drop_first().last() == ls.last());
        assert(lines_text(ls) =~= ls[0] + seq!['\n'] + lines_text(ls.drop_first()));
    }
}

proof fn lemma_first_newline_after(a: Seq<char>, b: Seq<char>)
    requires
        forall|j: int| 0 <= j < a.len() ==> #[trigger] a[j] != '\n',
    ensures
        first_newline(a + seq!['\n'] + b) == Some(a.len() as int),
    decreases a.len(),
{
    let s = a + seq!['\n'] + b;
    if a.len() > 0 {
        lemma_first_newline_after(a.drop_first(), b);
        assert(s.drop_first() =~= a.drop_first() + seq!['\n'] + b);
    }
}

/// Splitting the text of lines without newlines gives back the lines.
pub proof fn lemma_split_lines_text(ls: Seq<Seq<char>>)
    requires
        no_newlines(ls),
    ensures
        split_lines(lines_text(ls)) == ls,
    decreases ls.len(),
{
    if ls.len() == 0 {
        assert(lines_text(ls) == Seq::<char>::empty());
    } else {
        let rest = ls.drop_first();
        assert(no_newlines(rest)) by {
            assert forall|i: int, j: int| 0 <= i < rest.len() && 0 <= j < rest[i].len() implies #[trigger] rest[i][j] != '\n' by {
                assert(rest[i] == ls[i + 1]);
            }
        }
        lemma_split_lines_text(rest);
        lemma_lines_text_front(ls);
        let a = ls[0];
        let s = lines_text(ls);
        assert forall|j: int| 0 <= j < a.len() implies #[trigger] a[j] != '\n' by {
            assert(ls[0][j] != '\n');
        }
        lemma_first_newline_after(a, lines_text(rest));
        assert(s.take(a.len() as int) =~= a);
        assert(s.skip(a.len() as int + 1) =~= lines_text(rest));
        assert(split_lines(s) =~= seq![a] + rest);
        assert(seq![a] + rest =~= ls);
    }
}

/// Reading two runs of lines one after the other is reading them joined.
pub proof fn lemma_run_concat(st: ParseState, a: Seq<Seq<char>>, b: Seq<Seq<char>>)
    ensures
        run_lines(st, a + b) == run_lines(run_lines(st, a), b),
    decreases b.len(),
{
    if b.len() == 0 {
        assert(a + b =~= a);
    } else {
        lemma_run_concat(st, a, b.drop_last());
        assert((a + b).drop_last() =~= a + b.drop_last());
        assert((a + b).last() == b.last());
    }
}

proof fn lemma_indent(d: nat)
    ensures
        indent(d).len() == 2 * d,
        forall|i: int| 0 <= i < indent(d).len() ==> #[trigger] indent(d)[i] == ' ',
    decreases d,
{
    if d > 0 {
        lemma_indent((d - 1) as nat);
        let p = indent((d - 1) as nat);
        assert forall|i: int| 0 <= i < indent(d).len() implies #[trigger] indent(d)[i] == ' ' by {
            if i < p.len() {
                assert(indent(d)[i] == p[i]);
            }
        }
    }
}

proof fn lemma_spaces_prefix(sp: Seq<char>, r: Seq<char>)
    requires
        forall|i: int| 0 <= i < sp.len() ==> #[trigger] sp[i] == ' ',
    ensures
        leading_spaces(sp + r) == sp.len() + leading_spaces(r),
        trim_start(sp + r) == trim_start(r),
        (sp + r).skip(sp.len() as int) == r,
    decreases sp.len(),
{
    if sp.len() > 0 {
        lemma_spaces_prefix(sp.drop_first(), r);
        assert((sp + r).drop_first() =~= sp.drop_first() + r);
        assert((sp + r)[0] == ' ');
        assert(is_ws(' '));
    }
    assert((sp + r).skip(sp.len() as int) =~= r);
}

/// A dash line `{indent}- {body}` with a body in normal form reads as content at level `d`.
proof fn lemma_dash_line(d: nat, body: Seq<char>)
    requires
        clean_text(body),
    ensures
        trim_end(indent(d) + seq!['-', ' '] + body) == indent(d) + seq!['-', ' '] + body,
        trim(indent(d) + seq!['-', ' '] + body).len() > 0,
        heading_of(indent(d) + seq!['-', ' '] + body) is None,
        content_of(indent(d) + seq!['-', ' '] + body) == (d, body),
{
    lemma_clean_fixed(body);
    lemma_indent(d);
    let r = seq!['-', ' '] + body;
    let line = indent(d) + r;
    assert(line =~= indent(d) + seq!['-', ' '] + body);
    assert(line.last() == body.last());
    assert(!is_ws(body.last()));
    assert(trim_end(line) == line);
    lemma_spaces_prefix(indent(d), r);
    assert(r[0] == '-');
    assert(!is_ws(r[0]));
    assert(trim_start(r) == r);
    assert(r.last() == body.last());
    assert(trim_end(r) == r);
    assert(leading_hashes(r) == 0);
    assert(leading_spaces(r) == 0);
    assert(r.take(2) =~= seq!['-', ' ']);
    assert(r.skip(2) =~= body);
    assert((2 * d) / 2 == d) by (nonlinear_arith);
}

/// The body `[c] {text}` of a checkbox line is in normal form when the text is.
proof fn lemma_checkbox_body_clean(c: char, text: Seq<char>)
    requires
        clean_text(text),
        c == ' ' || c == '/' || c == 'x',
    ensures
        clean_text(seq!['[', c, ']', ' '] + text),
{
    let b = seq!['[', c, ']', ' '] + text;
    assert forall|i: int| 0 <= i < b.len() && is_ws(#[trigger] b[i]) implies b[i] == ' ' by {
        if i >= 4 {
            assert(b[i] == text[i - 4]);
        }
    }
    assert forall|i: int| 0 <= i < b.len() - 1 implies !(#[trigger] b[i] == ' ' && b[i + 1] == ' ') by {
        if i >= 4 {
            assert(b[i] == text[i - 4]);
            assert(b[i + 1] == text[i - 3]);
        } else if i == 3 {
            assert(b[4] == text[0]);
        }
    }
    assert(b.last() == text.last());
}

/// A task line of a task in normal form reads as that task, without sub-tasks or notes.
pub proof fn lemma_task_line_step(st: ParseState, t: Task, d: nat)
    requires
        is_task_section(st.section),
        clean_text(t.text),
    ensures
        step(st, task_line(t, d)) == with_task(st, d, leaf(t.text, t.status)),
{
    lemma_clean_fixed(t.text);
    let c = token_of_status(t.status);
    let body = seq!['[', c, ']', ' '] + t.text;
    lemma_checkbox_body_clean(c, t.text);
    lemma_dash_line(d, body);
    assert(task_line(t, d) =~= indent(d) + seq!['-', ' '] + body);
    assert(body.skip(4) =~= t.text);
    assert(status_of_token(c) == t.status);
    assert(checkbox_of(body) == Some((t.status, t.text)));
}

/// A note line of a note in normal form that is not a checkbox reads as a note at the
/// next level.
pub proof fn lemma_note_line_step(st: ParseState, n: Seq<char>, d: nat)
    requires
        st.section == ParseSection::MustDo || st.section == ParseSection::Queued || st.section
            == ParseSection::Pending,
        clean_text(n),
        checkbox_of(n) is None,
    ensures
        step(st, note_line(n, d)) == (ParseState {
            doc: attached(st.doc, st.section, st.stack, (d + 1) as usize, n),
            section: st.section,
            stack: st.stack,
        }),
{
    lemma_clean_fixed(n);
    lemma_dash_line(d + 1, n);
    assert(indent(d + 1) == indent(d) + seq![' ', ' ']);
    assert(note_line(n, d) =~= indent(d + 1) + seq!['-', ' '] + n);
}

/// Replacing a list by itself changes nothing.
proof fn lemma_replace_same(f: Seq<Task>, p: Seq<usize>)
    requires
        valid_list_path(f, p),
    ensures
        replace_list(f, p, list_at(f, p)) == f,
    decreases p.len(),
{
    if p.len() > 0 {
        let k = p[0] as int;
        lemma_replace_same(f[k].children, p.drop_first());
        assert(with_children(f[k], f[k].children) == f[k]);
        assert(f.update(k, f[k]) =~= f);
    }
}

/// Replacing the same list twice keeps the second replacement.
proof fn lemma_replace_twice(f: Seq<Task>, p: Seq<usize>, x: Seq<Task>, y: Seq<Task>)
    requires
        valid_list_path(f, p),
    ensures
        replace_list(replace_list(f, p, x), p, y) == replace_list(f, p, y),
    decreases p.len(),
{
    if p.len() > 0 {
        let k = p[0] as int;
        lemma_replace_twice(f[k].children, p.drop_first(), x, y);
        let g = replace_list(f, p, x);
        assert(g[k].children == replace_list(f[k].children, p.drop_first(), x));
        assert(g.update(k, with_children(g[k], replace_list(g[k].children, p.drop_first(), y)))
            =~= f.update(k, with_children(f[k], replace_list(f[k].children, p.drop_first(), y))));
    }
}

/// The node at `p.push(k)` is the `k`-th of the list at `p`, and replacing it replaces that
/// element of the list.
proof fn lemma_node_in_list(g: Seq<Task>, p: Seq<usize>, k: usize, y: Task)
    requires
        valid_list_path(g, p),
        k < list_at(g, p).len(),
    ensures
        node_at(g, p.push(k)) == list_at(g, p)[k as int],
        replace_node(g, p.push(k), y) == replace_list(g, p, list_at(g, p).update(k as int, y)),
    decreases p.len(),
{
    let q = p.push(k);
    if p.len() == 0 {
        assert(q =~= seq![k]);
    } else {
        let i = p[0] as int;
        assert(q.drop_first() =~= p.drop_first().push(k));
        assert(q[0] == p[0]);
        lemma_node_in_list(g[i].children, p.drop_first(), k, y);
    }
}

/// The list at `p.push(k)` is the children of the `k`-th node of the list at `p`, and
/// replacing it replaces that node's children.
proof fn lemma_children_in_list(g: Seq<Task>, p: Seq<usize>, k: usize, c: Seq<Task>)
    requires
        valid_list_path(g, p),
        k < list_at(g, p).len(),
    ensures
        list_at(g, p.push(k)) == list_at(g, p)[k as int].children,
        replace_list(g, p.push(k), c) == replace_list(
            g,
            p,
            list_at(g, p).update(k as int, with_children(list_at(g, p)[k as int], c)),
        ),
    decreases p.len(),
{
    let q = p.push(k);
    if p.len() == 0 {
        assert(q =~= seq![k]);
        assert(q.drop_first() =~= Seq::<usize>::empty());
        assert(list_at(g[k as int].children, q.drop_first()) == g[k as int].children);
        assert(replace_list(g[k as int].children, q.drop_first(), c) == c);
    } else {
        let i = p[0] as int;
        assert(q.drop_first() =~= p.drop_first().push(k));
        assert(q[0] == p[0]);
        lemma_children_in_list(g[i].children, p.drop_first(), k, c);
    }
}

/// A note that reads back as itself: in normal form and not shaped like a checkbox.
pub open spec fn clean_note(n: Seq<char>) -> bool {
    clean_text(n) && checkbox_of(n) is None
}

/// A task that reads back as itself: text and notes in normal form, sub-tasks likewise,
/// and no more sub-tasks than a `usize` counts.
pub open spec fn clean_task(t: Task) -> bool
    decreases t,
{
    &&& clean_text(t.text)
    &&& forall|i: int| 0 <= i < t.notes.len() ==> clean_note(#[trigger] t.notes[i])
    &&& t.children.len() <= usize::MAX
    &&& clean_forest(t.children)
}

/// Every task of the list reads back as itself.
pub open spec fn clean_forest(f: Seq<Task>) -> bool
    decreases f,
{
    if f.len() == 0 {
        true
    } else {
        clean_forest(f.subrange(0, f.len() - 1)) && clean_task(f[f.len() - 1])
    }
}

/// The sections whose tasks a rendered day holds.
pub open spec fn list_section(s: ParseSection) -> bool {
    s == ParseSection::MustDo || s == ParseSection::Queued || s == ParseSection::Pending
}

/// The `j`-th open task of `st` sits at level `j`, for `d` levels.
pub open spec fn levels_exact(st: Seq<(usize, Seq<usize>)>, d: nat) -> bool {
    st.len() == d && forall|j: int| 0 <= j < d ==> #[trigger] st[j].0 == j
}

/// `st` is `s` followed by open tasks at level `d` or deeper.
pub open spec fn stack_above(st: Seq<(usize, Seq<usize>)>, s: Seq<(usize, Seq<usize>)>, d: nat) -> bool {
    &&& s.len() <= st.len()
    &&& st.subrange(0, s.len() as int) == s
    &&& forall|j: int| s.len() <= j < st.len() ==> #[trigger] st[j].0 >= d
}

/// The list that tasks at level `d` join, below the open tasks `s`.
pub open spec fn parent_of(s: Seq<(usize, Seq<usize>)>, d: nat) -> Seq<usize> {
    if d == 0 {
        Seq::empty()
    } else {
        s[d - 1].1
    }
}

/// `x` with more notes.
pub open spec fn with_more_notes(x: Task, extra: Seq<Seq<char>>) -> Task {
    Task { text: x.text, status: x.status, children: x.children, notes: x.notes + extra }
}

proof fn lemma_pop_to(st: Seq<(usize, Seq<usize>)>, s: Seq<(usize, Seq<usize>)>, d: nat)
    requires
        levels_exact(s, d),
        stack_above(st, s, d),
        d <= usize::MAX,
    ensures
        pop_levels(st, d as usize) == s,
        parent_path(st, d as usize) == parent_of(s, d),
    decreases st.len(),
{
    if st.len() > s.len() {
        let p = st.drop_last();
        assert(st.last().0 >= d);
        assert(p.subrange(0, s.len() as int) == st.subrange(0, s.len() as int));
        assert forall|j: int| s.len() <= j < p.len() implies #[trigger] p[j].0 >= d by {
            assert(p[j] == st[j]);
        }
        lemma_pop_to(p, s, d);
    } else {
        assert(st == s);
        if d > 0 {
            assert(st.last().0 == d - 1);
        }
    }
}

proof fn lemma_run_single(st: ParseState, l: Seq<char>)
    ensures
        run_lines(st, seq![l]) == step(st, l),
{
    assert(seq![l].drop_last() =~= Seq::<Seq<char>>::empty());
    assert(run_lines(st, seq![l].drop_last()) == st);
    assert(seq![l].last() == l);
}

proof fn lemma_notes_parse(st: ParseState, ns: Seq<Seq<char>>, d: nat, p: Seq<usize>, k: usize)
    requires
        list_section(st.section),
        st.stack.len() > 0,
        st.stack.last() == (d as usize, p.push(k)),
        d + 1 <= usize::MAX,
        valid_list_path(bucket_of(st.doc, st.section), p),
        k < list_at(bucket_of(st.doc, st.section), p).len(),
        forall|i: int| 0 <= i < ns.len() ==> clean_note(#[trigger] ns[i]),
    ensures
        ({
            let g = bucket_of(st.doc, st.section);
            let l = list_at(g, p);
            let r = run_lines(st, crate::render::notes_lines(ns, d));
            &&& r.section == st.section
            &&& r.stack == st.stack
            &&& r.doc == with_bucket(
                st.doc,
                st.section,
                replace_list(g, p, l.update(k as int, with_more_notes(l[k as int], ns))),
            )
        }),
    decreases ns.len(),
{
    let g = bucket_of(st.doc, st.section);
    let l = list_at(g, p);
    let lines = crate::render::notes_lines(ns, d);
    if ns.len() == 0 {
        assert(lines =~= Seq::<Seq<char>>::empty());
        assert(with_more_notes(l[k as int], ns) == l[k as int]) by {
            assert(l[k as int].notes + ns =~= l[k as int].notes);
        }
        assert(l.update(k as int, l[k as int]) =~= l);
        crate::roundtrip::lemma_replace_same(g, p);
    } else {
        let init = ns.drop_last();
        let n = ns.last();
        assert forall|i: int| 0 <= i < init.len() implies clean_note(#[trigger] init[i]) by {
            assert(init[i] == ns[i]);
        }
        lemma_notes_parse(st, init, d, p, k);
        assert(lines.drop_last() =~= crate::render::notes_lines(init, d));
        assert(lines.last() == note_line(n, d));
        let mid = run_lines(st, crate::render::notes_lines(init, d));
        let x = with_more_notes(l[k as int], init);
        let l1 = l.update(k as int, x);
        let g1 = replace_list(g, p, l1);
        assert(bucket_of(mid.doc, mid.section) == g1);
        assert(clean_note(ns[ns.len() - 1]));
        lemma_note_line_step(mid, n, d);
        lemma_replace_list_at(g, p, l1);
        lemma_list_index_node(g1, p, k);
        let y = Task { text: x.text, status: x.status, children: x.children, notes: x.notes.push(n) };
        lemma_node_in_list(g1, p, k, y);
        assert(note_target(mid.stack, (d + 1) as usize) == Some(p.push(k))) by {
            assert(last_at_most(mid.stack, d as usize) == Some(p.push(k)));
        }
        assert(add_note_at(g1, p.push(k), n) == replace_list(g1, p, l1.update(k as int, y)));
        crate::roundtrip::lemma_replace_twice(g, p, l1, l1.update(k as int, y));
        assert(y == with_more_notes(l[k as int], ns)) by {
            assert(x.notes.push(n) =~= l[k as int].notes + ns);
        }
        assert(l1.update(k as int, y) =~= l.update(k as int, y));
    }
}

/// The lines of a task in normal form, read below open tasks `s` at level `d`, add exactly
/// that task to the list that tasks at level `d` join.
pub proof fn lemma_task_parse(st: ParseState, t: Task, d: nat, s: Seq<(usize, Seq<usize>)>)
    requires
        list_section(st.section),
        levels_exact(s, d),
        stack_above(st.stack, s, d),
        valid_list_path(bucket_of(st.doc, st.section), parent_of(s, d)),
        list_at(bucket_of(st.doc, st.section), parent_of(s, d)).len() + 1 <= usize::MAX,
        clean_task(t),
        d + task_height(t) <= usize::MAX,
    ensures
        ({
            let g = bucket_of(st.doc, st.section);
            let p = parent_of(s, d);
            let r = run_lines(st, task_lines(t, d));
            &&& r.section == st.section
            &&& r.doc == with_bucket(st.doc, st.section, replace_list(g, p, list_at(g, p).push(t)))
            &&& stack_above(r.stack, s, d)
        }),
    decreases t, 0nat,
{
    let g = bucket_of(st.doc, st.section);
    let p = parent_of(s, d);
    let l = list_at(g, p);
    let k = l.len() as usize;
    assert(task_height(t) == 1 + forest_height(t.children));
    lemma_pop_to(st.stack, s, d);
    lemma_task_line_step(st, t, d);
    let lf = leaf(t.text, t.status);
    let st1 = with_task(st, d, lf);
    assert(st1.doc == with_bucket(st.doc, st.section, replace_list(g, p, l.push(lf))));
    assert(st1.stack == s.push((d as usize, p.push(k))));
    let a = seq![task_line(t, d)];
    let b = crate::render::notes_lines(t.notes, d);
    let c = forest_lines(t.children, d + 1);
    assert(task_lines(t, d) == a + b + c);
    lemma_run_concat(st, a + b, c);
    lemma_run_concat(st, a, b);
    lemma_run_single(st, task_line(t, d));
    let g1 = replace_list(g, p, l.push(lf));
    lemma_replace_list_at(g, p, l.push(lf));
    assert(bucket_of(st1.doc, st1.section) == g1);
    lemma_notes_parse(st1, t.notes, d, p, k);
    let st2 = run_lines(st1, b);
    let x = with_more_notes(lf, t.notes);
    assert(l.push(lf).update(k as int, with_more_notes(l.push(lf)[k as int], t.notes)) =~= l.push(x));
    crate::roundtrip::lemma_replace_twice(g, p, l.push(lf), l.push(x));
    let g2 = replace_list(g, p, l.push(x));
    assert(bucket_of(st2.doc, st2.section) == g2);
    lemma_replace_list_at(g, p, l.push(x));
    lemma_list_index_node(g2, p, k);
    lemma_node_path_list_path(g2, p.push(k));
    let s1 = st1.stack;
    assert(levels_exact(s1, d + 1));
    assert(stack_above(st2.stack, s1, d + 1)) by {
        assert(st2.stack.subrange(0, s1.len() as int) =~= s1);
    }
    assert(parent_of(s1, d + 1) == p.push(k));
    lemma_children_in_list(g2, p, k, t.children);
    assert(x.notes =~= t.notes);
    assert(list_at(g2, p.push(k)) == Seq::<Task>::empty());
    lemma_forest_parse(st2, t.children, d + 1, s1);
    let r = run_lines(st2, c);
    assert(Seq::<Task>::empty() + t.children =~= t.children);
    assert(with_children(x, t.children) == t);
    assert(l.push(x).update(k as int, t) =~= l.push(t));
    crate::roundtrip::lemma_replace_twice(g, p, l.push(x), l.push(t));
    assert(r.doc == with_bucket(st.doc, st.section, replace_list(g, p, l.push(t))));
    assert(stack_above(r.stack, s, d)) by {
        assert(r.stack.subrange(0, s.len() as int) =~= s1.subrange(0, s.len() as int));
        assert(s1.subrange(0, s.len() as int) =~= s);
        assert forall|j: int| s.len() <= j < r.stack.len() implies #[trigger] r.stack[j].0 >= d by {
            if j < s1.len() {
                assert(r.stack[j] == r.stack.subrange(0, s1.len() as int)[j]);
            }
        }
    }
}

/// The lines of a list of tasks in normal form, read below open tasks `s` at level `d`,
/// append exactly that list to the list that tasks at level `d` join.
pub proof fn lemma_forest_parse(st: ParseState, f: Seq<Task>, d: nat, s: Seq<(usize, Seq<usize>)>)
    requires
        list_section(st.section),
        levels_exact(s, d),
        stack_above(st.stack, s, d),
        valid_list_path(bucket_of(st.doc, st.section), parent_of(s, d)),
        list_at(bucket_of(st.doc, st.section), parent_of(s, d)).len() + f.len() <= usize::MAX,
        clean_forest(f),
        d + forest_height(f) <= usize::MAX,
    ensures
        ({
            let g = bucket_of(st.doc, st.section);
            let p = parent_of(s, d);
            let r = run_lines(st, forest_lines(f, d));
            &&& r.section == st.section
            &&& r.doc == with_bucket(st.doc, st.section, replace_list(g, p, list_at(g, p) + f))
            &&& stack_above(r.stack, s, d)
        }),
    decreases f, 1nat,
{
    let g = bucket_of(st.doc, st.section);
    let p = parent_of(s, d);
    let l = list_at(g, p);
    if f.len() == 0 {
        assert(forest_lines(f, d) == Seq::<Seq<char>>::empty());
        assert(l + f =~= l);
        crate::roundtrip::lemma_replace_same(g, p);
    } else {
        let init = f.subrange(0, f.len() - 1);
        let last = f[f.len() - 1];
        lemma_forest_parse(st, init, d, s);
        let sa = run_lines(st, forest_lines(init, d));
        let ga = replace_list(g, p, l + init);
        lemma_replace_list_at(g, p, l + init);
        assert(bucket_of(sa.doc, sa.section) == ga);
        lemma_task_parse(sa, last, d, s);
        lemma_run_concat(st, forest_lines(init, d), task_lines(last, d));
        assert((l + init).push(last) =~= l + f);
        crate::roundtrip::lemma_replace_twice(g, p, l + init, l + f);
    }
}

proof fn lemma_no_newlines_concat(a: Seq<Seq<char>>, b: Seq<Seq<char>>)
    requires
        no_newlines(a),
        no_newlines(b),
    ensures
        no_newlines(a + b),
{
    assert forall|i: int, j: int| 0 <= i < (a + b).len() && 0 <= j < (a + b)[i].len() implies #[trigger] (a
        + b)[i][j] != '\n' by {
        if i < a.len() {
            assert((a + b)[i] == a[i]);
            assert(a[i][j] != '\n');
        } else {
            assert((a + b)[i] == b[i - a.len()]);
            assert(b[i - a.len()][j] != '\n');
        }
    }
}

proof fn lemma_clean_no_newline(s: Seq<char>)
    requires
        clean_text(s),
    ensures
        forall|j: int| 0 <= j < s.len() ==> #[trigger] s[j] != '\n',
{
    assert forall|j: int| 0 <= j < s.len() implies #[trigger] s[j] != '\n' by {
        if s[j] == '\n' {
            assert(is_ws(s[j]));
        }
    }
}

proof fn lemma_dash_line_no_newline(d: nat, pre: Seq<char>, body: Seq<char>)
    requires
        forall|j: int| 0 <= j < pre.len() ==> #[trigger] pre[j] != '\n',
        clean_text(body),
    ensures
        forall|j: int| 0 <= j < (indent(d) + pre + body).len() ==> #[trigger] (indent(d) + pre
            + body)[j] != '\n',
{
    lemma_indent(d);
    lemma_clean_no_newline(body);
    let l = indent(d) + pre + body;
    assert forall|j: int| 0 <= j < l.len() implies #[trigger] l[j] != '\n' by {
        if j < indent(d).len() {
            assert(l[j] == indent(d)[j]);
        } else if j < indent(d).len() + pre.len() {
            assert(l[j] == pre[j - indent(d).len()]);
        } else {
            assert(l[j] == body[j - indent(d).len() - pre.len()]);
        }
    }
}

proof fn lemma_task_no_newlines(t: Task, d: nat)
    requires
        clean_task(t),
    ensures
        no_newlines(task_lines(t, d)),
    decreases t, 0nat,
{
    lemma_clean_fixed(t.text);
    let pre = seq!['-', ' ', '[', token_of_status(t.status), ']', ' '];
    lemma_dash_line_no_newline(d, pre, t.text);
    let a = seq![task_line(t, d)];
    assert(no_newlines(a)) by {
        assert(a[0] == indent(d) + pre + t.text);
    }
    let b = notes_lines(t.notes, d);
    assert(no_newlines(b)) by {
        assert forall|i: int, j: int| 0 <= i < b.len() && 0 <= j < b[i].len() implies #[trigger] b[i][j]
            != '\n' by {
            let n = t.notes[i];
            assert(clean_note(n));
            lemma_clean_fixed(n);
            lemma_dash_line_no_newline(d, seq![' ', ' ', '-', ' '], n);
            assert(b[i] == indent(d) + seq![' ', ' ', '-', ' '] + n);
        }
    }
    lemma_forest_no_newlines(t.children, d + 1);
    lemma_no_newlines_concat(a, b);
    lemma_no_newlines_concat(a + b, forest_lines(t.children, d + 1));
}

proof fn lemma_forest_no_newlines(f: Seq<Task>, d: nat)
    requires
        clean_forest(f),
    ensures
        no_newlines(forest_lines(f, d)),
    decreases f, 1nat,
{
    if f.len() > 0 {
        let init = f.subrange(0, f.len() - 1);
        lemma_forest_no_newlines(init, d);
        lemma_task_no_newlines(f[f.len() - 1], d);
        lemma_no_newlines_concat(forest_lines(init, d), task_lines(f[f.len() - 1], d));
    }
}

proof fn lemma_leading_hashes(pre: Seq<char>, rest: Seq<char>)
    requires
        forall|i: int| 0 <= i < pre.len() ==> #[trigger] pre[i] == '#',
        rest.len() > 0,
        rest[0] != '#',
    ensures
        leading_hashes(pre + rest) == pre.len(),
    decreases pre.len(),
{
    if pre.len() > 0 {
        lemma_leading_hashes(pre.drop_first(), rest);
        assert((pre + rest).drop_first() =~= pre.drop_first() + rest);
    } else {
        assert(pre + rest =~= rest);
    }
}

/// A heading line `#… {name}` with a name in normal form reads as that name.
proof fn lemma_heading_line(hashes: Seq<char>, name: Seq<char>)
    requires
        hashes.len() > 0,
        forall|i: int| 0 <= i < hashes.len() ==> #[trigger] hashes[i] == '#',
        clean_text(name),
    ensures
        heading_of(hashes + seq![' '] + name) == Some(name),
        trim_end(hashes + seq![' '] + name) == hashes + seq![' '] + name,
        trim(hashes + seq![' '] + name).len() > 0,
{
    lemma_clean_fixed(name);
    let line = hashes + seq![' '] + name;
    let rest = seq![' '] + name;
    assert(line =~= hashes + rest);
    assert(line[0] == '#');
    assert(!is_ws(line[0]));
    assert(trim_start(line) == line);
    lemma_leading_hashes(hashes, rest);
    assert(line.skip(hashes.len() as int) =~= rest);
    assert(is_ws(rest[0]));
    assert(rest.drop_first() =~= name);
    assert(trim_start(rest) == trim_start(name));
    assert(line.last() == name.last());
    assert(!is_ws(line.last()));
    assert(trim_end(line) == line);
}

proof fn lemma_blank_step(st: ParseState)
    ensures
        step(st, Seq::empty()) == st,
{
    assert(trim(Seq::<char>::empty()) == Seq::<char>::empty());
}

/// A heading line with a name in normal form opens the name's section and closes all open
/// tasks.
proof fn lemma_heading_step(st: ParseState, hashes: Seq<char>, name: Seq<char>)
    requires
        hashes.len() > 0,
        forall|i: int| 0 <= i < hashes.len() ==> #[trigger] hashes[i] == '#',
        clean_text(name),
    ensures
        step(st, hashes + seq![' '] + name) == (ParseState {
            doc: st.doc,
            section: section_of(name),
            stack: Seq::empty(),
        }),
{
    lemma_heading_line(hashes, name);
}

/// A word: not empty, no whitespace.
pub open spec fn solid(w: Seq<char>) -> bool {
    w.len() > 0 && forall|i: int| 0 <= i < w.len() ==> !is_ws(#[trigger] w[i])
}

proof fn lemma_words_clean(a: Seq<char>, b: Seq<char>)
    requires
        solid(a),
        clean_text(b),
    ensures
        clean_text(a + seq![' '] + b),
{
    let s = a + seq![' '] + b;
    assert forall|i: int| 0 <= i < s.len() && is_ws(#[trigger] s[i]) implies s[i] == ' ' by {
        if i < a.len() {
            assert(s[i] == a[i]);
        } else if i > a.len() {
            assert(s[i] == b[i - a.len() - 1]);
        }
    }
    assert forall|i: int| 0 <= i < s.len() - 1 implies !(#[trigger] s[i] == ' ' && s[i + 1] == ' ') by {
        if i < a.len() {
            assert(s[i] == a[i]);
            assert(!is_ws(a[i]));
        } else if i == a.len() {
            assert(s[i + 1] == b[0]);
        } else {
            assert(s[i] == b[i - a.len() - 1]);
            assert(s[i + 1] == b[i - a.len()]);
        }
    }
    assert(s[0] == a[0]);
    assert(!is_ws(a[0]));
    assert(s.last() == b.last());
}

/// The name of the must-do heading.
pub open spec fn must_do_name() -> Seq<char> {
    seq!['🚨', ' ', '今', '日', '必', '達']
}

/// The name of the queued heading.
pub open spec fn queued_name() -> Seq<char> {
    seq!['🐻', ' ', '必', '達', '以', '外']
}

/// The name of the pending heading.
pub open spec fn pending_name() -> Seq<char> {
    seq!['🐕', ' ', '保', '留']
}

/// The name of the heading of a day's work.
pub open spec fn today_name() -> Seq<char> {
    seq!['✅', ' ', '今', '日', 'や', 'る', 'こ', 'と']
}

/// The name of the memo heading.
pub open spec fn memo_name() -> Seq<char> {
    seq!['📝', ' ', 'メ', 'モ', ' ', '/', ' ', '気', 'づ', 'き']
}

proof fn lemma_heading_names()
    ensures
        heading_must_do() == seq!['#', '#', '#', ' '] + must_do_name(),
        heading_queued() == seq!['#', '#', '#', ' '] + queued_name(),
        heading_pending() == seq!['#', '#', ' '] + pending_name(),
        heading_today() == seq!['#', '#', ' '] + today_name(),
        heading_memo() == seq!['#', '#', ' '] + memo_name(),
        clean_text(must_do_name()),
        clean_text(queued_name()),
        clean_text(pending_name()),
        clean_text(today_name()),
        clean_text(memo_name()),
{
    reveal_strlit("## ✅ 今日やること");
    reveal_strlit("### 🚨 今日必達");
    reveal_strlit("### 🐻 必達以外");
    reveal_strlit("## 📝 メモ / 気づき");
    reveal_strlit("## 🐕 保留");
    assert(heading_must_do() =~= seq!['#', '#', '#', ' '] + must_do_name());
    assert(heading_queued() =~= seq!['#', '#', '#', ' '] + queued_name());
    assert(heading_pending() =~= seq!['#', '#', ' '] + pending_name());
    assert(heading_today() =~= seq!['#', '#', ' '] + today_name());
    assert(heading_memo() =~= seq!['#', '#', ' '] + memo_name());
    let w1 = seq!['今', '日', '必', '達'];
    assert(solid(w1)) by {
        assert forall|i: int| 0 <= i < w1.len() implies !is_ws(#[trigger] w1[i]) by {
            if i == 0 {} else if i == 1 {} else if i == 2 {} else {}
        }
    }
    lemma_words_clean(seq!['🚨'], w1);
    assert(must_do_name() =~= seq!['🚨'] + seq![' '] + w1);
    let w2 = seq!['必', '達', '以', '外'];
    assert(solid(w2)) by {
        assert forall|i: int| 0 <= i < w2.len() implies !is_ws(#[trigger] w2[i]) by {
            if i == 0 {} else if i == 1 {} else if i == 2 {} else {}
        }
    }
    lemma_words_clean(seq!['🐻'], w2);
    assert(queued_name() =~= seq!['🐻'] + seq![' '] + w2);
    let w3 = seq!['保', '留'];
    assert(solid(w3)) by {
        assert forall|i: int| 0 <= i < w3.len() implies !is_ws(#[trigger] w3[i]) by {
            if i == 0 {} else {}
        }
    }
    lemma_words_clean(seq!['🐕'], w3);
    assert(pending_name() =~= seq!['🐕'] + seq![' '] + w3);
    let w4 = seq!['今', '日', 'や', 'る', 'こ', 'と'];
    assert(solid(w4)) by {
        assert forall|i: int| 0 <= i < w4.len() implies !is_ws(#[trigger] w4[i]) by {
            if i == 0 {} else if i == 1 {} else if i == 2 {} else if i == 3 {} else if i == 4 {} else {}
        }
    }
    lemma_words_clean(seq!['✅'], w4);
    assert(today_name() =~= seq!['✅'] + seq![' '] + w4);
    let w5 = seq!['気', 'づ', 'き'];
    assert(solid(w5)) by {
        assert forall|i: int| 0 <= i < w5.len() implies !is_ws(#[trigger] w5[i]) by {
            if i == 0 {} else if i == 1 {} else {}
        }
    }
    lemma_words_clean(seq!['/'], w5);
    lemma_words_clean(seq!['メ', 'モ'], seq!['/'] + seq![' '] + w5);
    lemma_words_clean(seq!['📝'], seq!['メ', 'モ'] + seq![' '] + (seq!['/'] + seq![' '] + w5));
    assert(memo_name() =~= seq!['📝'] + seq![' '] + (seq!['メ', 'モ'] + seq![' '] + (seq!['/']
        + seq![' '] + w5)));
}

/// `pat` does not occur in `s` when its first character is nowhere in `s`.
proof fn lemma_not_contains(s: Seq<char>, pat: Seq<char>)
    requires
        pat.len() > 0,
        forall|i: int| 0 <= i < s.len() ==> #[trigger] s[i] != pat[0],
    ensures
        !contains(s, pat),
{
    assert forall|i: int| !occurs_at(s, pat, i) by {
        if occurs_at(s, pat, i) {
            assert(s.subrange(i, i + pat.len())[0] == s[i]);
        }
    }
}

proof fn lemma_section_names()
    ensures
        section_of(must_do_name()) == ParseSection::MustDo,
        section_of(queued_name()) == ParseSection::Queued,
        section_of(pending_name()) == ParseSection::Pending,
{
    reveal_strlit("今日必達");
    reveal_strlit("必達以外");
    reveal_strlit("保留");
    let m = must_do_name();
    assert(occurs_at(m, "今日必達"@, 2)) by {
        assert(m.subrange(2, 6) =~= "今日必達"@);
    }
    let q = queued_name();
    assert forall|i: int| 0 <= i < q.len() implies #[trigger] q[i] != "今日必達"@[0] by {
        if i == 0 {} else if i == 1 {} else if i == 2 {} else if i == 3 {} else if i == 4 {} else {}
    }
    lemma_not_contains(q, "今日必達"@);
    assert(occurs_at(q, "必達以外"@, 2)) by {
        assert(q.subrange(2, 6) =~= "必達以外"@);
    }
    let p = pending_name();
    assert forall|i: int| 0 <= i < p.len() implies #[trigger] p[i] != "今日必達"@[0] by {
        if i == 0 {} else if i == 1 {} else if i == 2 {} else {}
    }
    lemma_not_contains(p, "今日必達"@);
    assert forall|i: int| 0 <= i < p.len() implies #[trigger] p[i] != "必達以外"@[0] by {
        if i == 0 {} else if i == 1 {} else if i == 2 {} else {}
    }
    lemma_not_contains(p, "必達以外"@);
    assert(occurs_at(p, "保留"@, 2)) by {
        assert(p.subrange(2, 4) =~= "保留"@);
    }
}

/// A day whose task lists read back as themselves: every task in normal form, and lists
/// and depths that a `usize` counts.
pub open spec fn clean_doc(d: DocModel) -> bool {
    &&& clean_forest(d.must_do)
    &&& clean_forest(d.queued)
    &&& clean_forest(d.pending)
    &&& d.must_do.len() <= usize::MAX
    &&& d.queued.len() <= usize::MAX
    &&& d.pending.len() <= usize::MAX
    &&& doc_height(d) <= usize::MAX
}

proof fn lemma_heading_no_newlines()
    ensures
        no_newlines(seq![heading_today()]),
        no_newlines(seq![heading_must_do()]),
        no_newlines(seq![heading_queued()]),
        no_newlines(seq![heading_memo()]),
        no_newlines(seq![heading_pending()]),
{
    lemma_heading_names();
    lemma_heading_no_newline(seq!['#', '#', ' '], today_name());
    lemma_heading_no_newline(seq!['#', '#', '#', ' '], must_do_name());
    lemma_heading_no_newline(seq!['#', '#', '#', ' '], queued_name());
    lemma_heading_no_newline(seq!['#', '#', ' '], memo_name());
    lemma_heading_no_newline(seq!['#', '#', ' '], pending_name());
}

proof fn lemma_heading_no_newline(pre: Seq<char>, name: Seq<char>)
    requires
        forall|j: int| 0 <= j < pre.len() ==> #[trigger] pre[j] != '\n',
        clean_text(name),
    ensures
        no_newlines(seq![pre + name]),
{
    lemma_dash_line_no_newline(0, pre, name);
    assert(indent(0) + pre + name =~= pre + name);
}

/// The state after a heading that opens `sec`, between the lists of a rendered day.
pub open spec fn at_heading(doc: DocModel, sec: ParseSection) -> ParseState {
    ParseState { doc, section: sec, stack: Seq::empty() }
}

proof fn lemma_doc_no_newlines(date: Seq<char>, d: DocModel)
    requires
        forall|j: int| 0 <= j < date.len() ==> #[trigger] date[j] != '\n',
        clean_doc(d),
    ensures
        no_newlines(doc_lines(date, d)),
{
    let e = Seq::<char>::empty();
    let title = title_line(date);
    let seg1 = seq![title, e, heading_today(), e, heading_must_do()];
    let fm = forest_lines(d.must_do, 0);
    let seg2 = seq![e, heading_queued()];
    let fq = forest_lines(d.queued, 0);
    let seg3 = seq![e, heading_memo(), e, heading_pending()];
    let fp = forest_lines(d.pending, 0);
    assert(doc_lines(date, d) == seg1 + fm + seg2 + fq + seg3 + fp);
    lemma_heading_no_newlines();
    assert(no_newlines(seq![title])) by {
        assert forall|i: int, j: int| 0 <= i < 1 && 0 <= j < seq![title][i].len() implies #[trigger] seq![title][i][j] != '\n' by {
            if j >= 2 {
                assert(title[j] == date[j - 2]);
            }
        }
    }
    assert(no_newlines(seq![e]));
    lemma_no_newlines_concat(seq![title], seq![e]);
    lemma_no_newlines_concat(seq![title] + seq![e], seq![heading_today()]);
    lemma_no_newlines_concat(seq![title] + seq![e] + seq![heading_today()], seq![e]);
    lemma_no_newlines_concat(seq![title] + seq![e] + seq![heading_today()] + seq![e], seq![heading_must_do()]);
    assert(seg1 =~= seq![title] + seq![e] + seq![heading_today()] + seq![e] + seq![heading_must_do()]);
    lemma_no_newlines_concat(seq![e], seq![heading_queued()]);
    assert(seg2 =~= seq![e] + seq![heading_queued()]);
    lemma_no_newlines_concat(seq![e], seq![heading_memo()]);
    lemma_no_newlines_concat(seq![e] + seq![heading_memo()], seq![e]);
    lemma_no_newlines_concat(seq![e] + seq![heading_memo()] + seq![e], seq![heading_pending()]);
    assert(seg3 =~= seq![e] + seq![heading_memo()] + seq![e] + seq![heading_pending()]);
    lemma_forest_no_newlines(d.must_do, 0);
    lemma_forest_no_newlines(d.queued, 0);
    lemma_forest_no_newlines(d.pending, 0);
    lemma_no_newlines_concat(seg1, fm);
    lemma_no_newlines_concat(seg1 + fm, seg2);
    lemma_no_newlines_concat(seg1 + fm + seg2, fq);
    lemma_no_newlines_concat(seg1 + fm + seg2 + fq, seg3);
    lemma_no_newlines_concat(seg1 + fm + seg2 + fq + seg3, fp);
}

proof fn lemma_header_run(date: Seq<char>)
    ensures
        run_lines(
            initial_state(),
            seq![title_line(date), Seq::empty(), heading_today(), Seq::empty(), heading_must_do()],
        ) == at_heading(empty_doc(), ParseSection::MustDo),
{
    lemma_heading_names();
    lemma_section_names();
    let e = Seq::<char>::empty();
    let title = title_line(date);
    let s0 = initial_state();
    let s1 = step(s0, title);
    assert(s1.doc == empty_doc() && s1.stack == Seq::<(usize, Seq<usize>)>::empty());
    lemma_blank_step(s1);
    lemma_heading_step(s1, seq!['#', '#'], today_name());
    assert(seq!['#', '#', ' '] + today_name() =~= seq!['#', '#'] + seq![' '] + today_name());
    let s3 = step(s1, heading_today());
    lemma_blank_step(s3);
    lemma_heading_step(s3, seq!['#', '#', '#'], must_do_name());
    assert(seq!['#', '#', '#', ' '] + must_do_name() =~= seq!['#', '#', '#'] + seq![' '] + must_do_name());
    let s5 = step(s3, heading_must_do());
    assert(s5 == at_heading(empty_doc(), ParseSection::MustDo));
    let seg1 = seq![title, e, heading_today(), e, heading_must_do()];
    assert(seg1.drop_last() =~= seq![title, e, heading_today(), e]);
    assert(seg1.drop_last().drop_last() =~= seq![title, e, heading_today()]);
    assert(seg1.drop_last().drop_last().drop_last() =~= seq![title, e]);
    assert(seg1.drop_last().drop_last().drop_last().drop_last() =~= seq![title]);
    lemma_run_single(s0, title);
    assert(run_lines(s0, seq![title, e]) == step(s1, e));
    assert(run_lines(s0, seq![title, e, heading_today()]) == s3);
    assert(run_lines(s0, seq![title, e, heading_today(), e]) == step(s3, e));
}

proof fn lemma_queued_run(st: ParseState)
    requires
        st.doc == st.doc,
    ensures
        run_lines(st, seq![Seq::empty(), heading_queued()]) == at_heading(st.doc, ParseSection::Queued),
{
    lemma_heading_names();
    lemma_section_names();
    let e = Seq::<char>::empty();
    lemma_blank_step(st);
    lemma_heading_step(st, seq!['#', '#', '#'], queued_name());
    assert(seq!['#', '#', '#', ' '] + queued_name() =~= seq!['#', '#', '#'] + seq![' '] + queued_name());
    let seg = seq![e, heading_queued()];
    assert(seg.drop_last() =~= seq![e]);
    lemma_run_single(st, e);
}

proof fn lemma_pending_run(st: ParseState)
    ensures
        run_lines(st, seq![Seq::empty(), heading_memo(), Seq::empty(), heading_pending()])
            == at_heading(st.doc, ParseSection::Pending),
{
    lemma_heading_names();
    lemma_section_names();
    let e = Seq::<char>::empty();
    lemma_blank_step(st);
    lemma_heading_step(st, seq!['#', '#'], memo_name());
    assert(seq!['#', '#', ' '] + memo_name() =~= seq!['#', '#'] + seq![' '] + memo_name());
    let s2 = step(st, heading_memo());
    lemma_blank_step(s2);
    lemma_heading_step(s2, seq!['#', '#'], pending_name());
    assert(seq!['#', '#', ' '] + pending_name() =~= seq!['#', '#'] + seq![' '] + pending_name());
    let seg = seq![e, heading_memo(), e, heading_pending()];
    assert(seg.drop_last() =~= seq![e, heading_memo(), e]);
    assert(seg.drop_last().drop_last() =~= seq![e, heading_memo()]);
    assert(seg.drop_last().drop_last().drop_last() =~= seq![e]);
    lemma_run_single(st, e);
    assert(run_lines(st, seq![e, heading_memo()]) == s2);
    assert(run_lines(st, seq![e, heading_memo(), e]) == s2);
    assert(seg.last() == heading_pending());
}

proof fn lemma_list_run(doc: DocModel, sec: ParseSection, f: Seq<Task>)
    requires
        list_section(sec),
        bucket_of(doc, sec) == Seq::<Task>::empty(),
        clean_forest(f),
        f.len() <= usize::MAX,
        forest_height(f) <= usize::MAX,
    ensures
        run_lines(at_heading(doc, sec), forest_lines(f, 0)).doc == crate::outline::with_bucket(doc, sec, f),
{
    let st = at_heading(doc, sec);
    let empty_stack = Seq::<(usize, Seq<usize>)>::empty();
    assert(stack_above(st.stack, empty_stack, 0)) by {
        assert(st.stack.subrange(0, 0) =~= empty_stack);
    }
    lemma_forest_parse(st, f, 0, empty_stack);
    assert(Seq::<Task>::empty() + f =~= f);
}

/// Reading a rendered day gives back its task lists, when every task is in normal form
/// and the date holds no newline.
pub proof fn lemma_read_back(date: Seq<char>, d: DocModel)
    requires
        forall|j: int| 0 <= j < date.len() ==> #[trigger] date[j] != '\n',
        clean_doc(d),
    ensures
        parse_doc(doc_text(date, d)) == d,
{
    let e = Seq::<char>::empty();
    let seg1 = seq![title_line(date), e, heading_today(), e, heading_must_do()];
    let fm = forest_lines(d.must_do, 0);
    let seg2 = seq![e, heading_queued()];
    let fq = forest_lines(d.queued, 0);
    let seg3 = seq![e, heading_memo(), e, heading_pending()];
    let fp = forest_lines(d.pending, 0);
    let ls = doc_lines(date, d);
    assert(ls == seg1 + fm + seg2 + fq + seg3 + fp);
    lemma_doc_no_newlines(date, d);
    lemma_split_lines_text(ls);
    assert(forest_height(d.must_do) <= doc_height(d));
    assert(forest_height(d.queued) <= doc_height(d));
    assert(forest_height(d.pending) <= doc_height(d));
    let s0 = initial_state();
    lemma_header_run(date);
    let d0 = empty_doc();
    lemma_list_run(d0, ParseSection::MustDo, d.must_do);
    let s6 = run_lines(at_heading(d0, ParseSection::MustDo), fm);
    let d1 = DocModel { must_do: d.must_do, queued: Seq::empty(), pending: Seq::empty() };
    assert(s6.doc == d1);
    lemma_queued_run(s6);
    lemma_list_run(d1, ParseSection::Queued, d.queued);
    let s8 = run_lines(at_heading(d1, ParseSection::Queued), fq);
    let d2 = DocModel { must_do: d.must_do, queued: d.queued, pending: Seq::empty() };
    assert(s8.doc == d2);
    lemma_pending_run(s8);
    lemma_list_run(d2, ParseSection::Pending, d.pending);
    let s11 = run_lines(at_heading(d2, ParseSection::Pending), fp);
    assert(s11.doc == d);
    lemma_run_concat(s0, seg1, fm);
    lemma_run_concat(s0, seg1 + fm, seg2);
    lemma_run_concat(s0, seg1 + fm + seg2, fq);
    lemma_run_concat(s0, seg1 + fm + seg2 + fq, seg3);
    lemma_run_concat(s0, seg1 + fm + seg2 + fq + seg3, fp);
}

/// A day with no tasks is in normal form.
proof fn lemma_empty_doc_clean()
    ensures
        clean_doc(empty_doc()),
{
    let d = empty_doc();
    assert(clean_forest(d.must_do));
    assert(forest_height(d.must_do) == 0);
    assert(doc_height(d) == 0);
}

/// Reading a new day's starter Markdown gives a day with no tasks.
pub proof fn lemma_starter_reads_empty(date: Seq<char>)
    requires
        forall|j: int| 0 <= j < date.len() ==> #[trigger] date[j] != '\n',
    ensures
        parse_doc(starter_text(date)) == empty_doc(),
{
    lemma_empty_doc_clean();
    lemma_starter_is_empty_render(date);
    lemma_read_back(date, empty_doc());
}

} // verus!

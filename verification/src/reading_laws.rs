//! Laws of reading a day: every task text and note that the reader makes is in normal
//! form, and a day written from what was read, or carried over from it, reads back as
//! exactly those tasks.
use vstd::prelude::*;
use crate::text::{
    is_ws, trim, trim_start, trim_end, collapse_ws, normalize_ws, starts_with, split_lines, contains,
    lemma_trim_start_skip, lemma_trim_end_take,
};
use crate::task::{Task, TaskStatus, DocModel, carry_task, carry_forest, carry_doc, doc_height};
use crate::parse::{
    ParseState, step, run_lines, parse_doc, initial_state, checkbox_of, strip_task_prefix_of,
    content_of, heading_of, leaf, is_task_section, leading_spaces, ParseSection, section_of,
    ascii_key,
};
use crate::outline::{
    list_at, replace_list, with_children, push_task_at, valid_node_path, node_at, replace_node,
    add_note_at, bucket_of, with_bucket, note_target, parent_path,
};
use crate::roundtrip::{
    clean_text, clean_note, clean_task, clean_forest, clean_doc, lemma_clean_fixed,
    lemma_read_back,
};
use crate::render::doc_text;
use crate::entry::carried_text;

verus! {

/// A task as the reader makes it: its text in normal form or empty, its notes in normal
/// form and not checkboxes, and its sub-tasks likewise.
pub open spec fn read_task(t: Task) -> bool
    decreases t,
{
    &&& (t.text.len() == 0 || clean_text(t.text))
    &&& forall|i: int| 0 <= i < t.notes.len() ==> clean_note(#[trigger] t.notes[i])
    &&& read_forest(t.children)
}

/// Every task of the list is as the reader makes it.
pub open spec fn read_forest(f: Seq<Task>) -> bool
    decreases f,
{
    forall|i: int| 0 <= i < f.len() ==> read_task(#[trigger] f[i])
}

/// Every task of a day is as the reader makes it.
pub open spec fn read_doc(d: DocModel) -> bool {
    read_forest(d.must_do) && read_forest(d.queued) && read_forest(d.pending)
}

/// Every task of the list, at any depth, has a text.
pub open spec fn texts_filled(f: Seq<Task>) -> bool
    decreases f,
{
    forall|i: int| 0 <= i < f.len() ==> (#[trigger] f[i]).text.len() > 0 && texts_filled(f[i].children)
}

/// Every list of the tree, at any depth, has at most `usize::MAX` tasks.
pub open spec fn lists_fit(f: Seq<Task>) -> bool
    decreases f,
{
    f.len() <= usize::MAX && forall|i: int| 0 <= i < f.len() ==> lists_fit((#[trigger] f[i]).children)
}

/// Every task of a day has a text.
pub open spec fn doc_filled(d: DocModel) -> bool {
    texts_filled(d.must_do) && texts_filled(d.queued) && texts_filled(d.pending)
}

/// A day's lists and trees are within what a `usize` counts.
pub open spec fn doc_fits(d: DocModel) -> bool {
    lists_fit(d.must_do) && lists_fit(d.queued) && lists_fit(d.pending) && doc_height(d)
        <= usize::MAX
}

/// The whitespace-collapsed form of a text is in normal form unless it is empty.
proof fn lemma_collapse_clean(s: Seq<char>)
    ensures
        collapse_ws(s).0.len() == 0 || clean_text(collapse_ws(s).0),
    decreases s.len(),
{
    if s.len() > 0 {
        lemma_collapse_clean(s.drop_last());
        let (out, gap) = collapse_ws(s.drop_last());
        let c = s.last();
        if !is_ws(c) {
            let r = collapse_ws(s).0;
            if gap && out.len() > 0 {
                assert(r == out.push(' ').push(c));
                assert forall|i: int| 0 <= i < r.len() && is_ws(#[trigger] r[i]) implies r[i] == ' ' by {
                    if i < out.len() {
                        assert(r[i] == out[i]);
                    }
                }
                assert forall|i: int| 0 <= i < r.len() - 1 implies !(#[trigger] r[i] == ' ' && r[i + 1] == ' ') by {
                    if i < out.len() - 1 {
                        assert(r[i] == out[i] && r[i + 1] == out[i + 1]);
                    } else if i == out.len() - 1 {
                        assert(r[i] == out.last());
                    }
                }
                assert(r[0] == out[0]);
            } else {
                assert(r == out.push(c));
                assert(c != ' ');
                assert forall|i: int| 0 <= i < r.len() && is_ws(#[trigger] r[i]) implies r[i] == ' ' by {
                    if i < out.len() {
                        assert(r[i] == out[i]);
                    }
                }
                assert forall|i: int| 0 <= i < r.len() - 1 implies !(#[trigger] r[i] == ' ' && r[i + 1] == ' ') by {
                    if i < out.len() - 1 {
                        assert(r[i] == out[i] && r[i + 1] == out[i + 1]);
                    }
                }
                if out.len() > 0 {
                    assert(r[0] == out[0]);
                }
            }
        }
    }
}

/// The trimmed rest of a text in normal form is in normal form unless it is empty.
proof fn lemma_trim_rest_clean(s: Seq<char>, k: int)
    requires
        clean_text(s),
        0 <= k <= s.len(),
    ensures
        trim(s.skip(k)).len() == 0 || clean_text(trim(s.skip(k))),
{
    let r = s.skip(k);
    let i: int = if r.len() > 0 && r[0] == ' ' {
        1
    } else {
        0
    };
    if i == 1 {
        assert(r[0] == s[k]);
        assert(is_ws(r[0]));
        if r.len() > 1 {
            assert(r[1] == s[k + 1]);
            assert(!(s[k] == ' ' && s[k + 1] == ' '));
            assert(r[1] != ' ');
            assert(!is_ws(r[1]));
        }
    } else if r.len() > 0 {
        assert(r[0] == s[k]);
        assert(!is_ws(r[0]));
    }
    lemma_trim_start_skip(r, i);
    let u = r.skip(i);
    assert(u == s.skip(k + i));
    if u.len() > 0 {
        assert(u.last() == s.last());
        assert(!is_ws(u.last()));
    }
    lemma_trim_end_take(u, u.len() as int);
    assert(u.take(u.len() as int) == u);
    if u.len() > 0 {
        assert forall|j: int| 0 <= j < u.len() && is_ws(#[trigger] u[j]) implies u[j] == ' ' by {
            assert(u[j] == s[k + i + j]);
        }
        assert forall|j: int| 0 <= j < u.len() - 1 implies !(#[trigger] u[j] == ' ' && u[j + 1] == ' ') by {
            assert(u[j] == s[k + i + j] && u[j + 1] == s[k + i + j + 1]);
        }
        assert(u[0] == s[k + i]);
        if i == 0 {
            assert(u[0] == r[0]);
        } else {
            assert(u[0] == r[1]);
        }
    }
}

/// A task that the reader makes from a line is as the reader makes it.
proof fn lemma_line_texts(text: Seq<char>)
    requires
        text.len() > 0,
        clean_text(text),
    ensures
        checkbox_of(text) matches Some((_, body)) ==> body.len() == 0 || clean_text(body),
        strip_task_prefix_of(text).len() == 0 || clean_text(strip_task_prefix_of(text)),
        checkbox_of(text) is None ==> clean_note(text),
{
    if text.len() >= 4 {
        lemma_trim_rest_clean(text, 4);
    }
    if text.len() >= 5 {
        lemma_trim_rest_clean(text, 5);
    }
    lemma_trim_rest_clean(text, 0);
    assert(text.skip(0) == text);
}

proof fn lemma_read_list_at(f: Seq<Task>, p: Seq<usize>)
    requires
        read_forest(f),
    ensures
        read_forest(list_at(f, p)),
    decreases p.len(),
{
    if p.len() > 0 && p[0] < f.len() {
        assert(read_task(f[p[0] as int]));
        lemma_read_list_at(f[p[0] as int].children, p.drop_first());
    }
}

proof fn lemma_read_replace_list(f: Seq<Task>, p: Seq<usize>, l: Seq<Task>)
    requires
        read_forest(f),
        read_forest(l),
    ensures
        read_forest(replace_list(f, p, l)),
    decreases p.len(),
{
    if p.len() > 0 && p[0] < f.len() {
        let n = f[p[0] as int];
        assert(read_task(n));
        lemma_read_replace_list(n.children, p.drop_first(), l);
        let m = with_children(n, replace_list(n.children, p.drop_first(), l));
        assert(read_task(m));
        let g = f.update(p[0] as int, m);
        assert forall|i: int| 0 <= i < g.len() implies read_task(#[trigger] g[i]) by {
            if i != p[0] {
                assert(g[i] == f[i]);
            }
        }
    }
}

proof fn lemma_read_push(f: Seq<Task>, p: Seq<usize>, t: Task)
    requires
        read_forest(f),
        read_task(t),
    ensures
        read_forest(push_task_at(f, p, t)),
{
    lemma_read_list_at(f, p);
    let l = list_at(f, p).push(t);
    assert forall|i: int| 0 <= i < l.len() implies read_task(#[trigger] l[i]) by {
        if i < l.len() - 1 {
            assert(l[i] == list_at(f, p)[i]);
        }
    }
    lemma_read_replace_list(f, p, l);
}

proof fn lemma_read_node_at(f: Seq<Task>, p: Seq<usize>)
    requires
        read_forest(f),
        valid_node_path(f, p),
    ensures
        read_task(node_at(f, p)),
    decreases p.len(),
{
    assert(read_task(f[p[0] as int]));
    if p.len() > 1 {
        lemma_read_node_at(f[p[0] as int].children, p.drop_first());
    }
}

proof fn lemma_read_replace_node(f: Seq<Task>, p: Seq<usize>, n: Task)
    requires
        read_forest(f),
        read_task(n),
    ensures
        read_forest(replace_node(f, p, n)),
    decreases p.len(),
{
    if p.len() > 0 && p[0] < f.len() {
        let g = replace_node(f, p, n);
        if p.len() == 1 {
            assert(g == f.update(p[0] as int, n));
            assert forall|i: int| 0 <= i < g.len() implies read_task(#[trigger] g[i]) by {
                if i != p[0] {
                    assert(g[i] == f[i]);
                }
            }
        } else {
            let m = f[p[0] as int];
            assert(read_task(m));
            lemma_read_replace_node(m.children, p.drop_first(), n);
            let m2 = with_children(m, replace_node(m.children, p.drop_first(), n));
            assert(read_task(m2));
            assert(g == f.update(p[0] as int, m2));
            assert forall|i: int| 0 <= i < g.len() implies read_task(#[trigger] g[i]) by {
                if i != p[0] {
                    assert(g[i] == f[i]);
                }
            }
        }
    }
}

proof fn lemma_read_add_note(f: Seq<Task>, p: Seq<usize>, note: Seq<char>)
    requires
        read_forest(f),
        clean_note(note),
    ensures
        read_forest(add_note_at(f, p, note)),
{
    if valid_node_path(f, p) {
        let n = node_at(f, p);
        lemma_read_node_at(f, p);
        let m = Task { text: n.text, status: n.status, children: n.children, notes: n.notes.push(note) };
        assert forall|i: int| 0 <= i < m.notes.len() implies clean_note(#[trigger] m.notes[i]) by {
            if i < n.notes.len() {
                assert(m.notes[i] == n.notes[i]);
            }
        }
        assert(read_task(m));
        lemma_read_replace_node(f, p, m);
    }
}

proof fn lemma_read_with_bucket(d: DocModel, s: ParseSection, f: Seq<Task>)
    requires
        read_doc(d),
        read_forest(f),
    ensures
        read_doc(with_bucket(d, s, f)),
        read_forest(bucket_of(d, s)),
{
}

/// One line keeps every task of the day as the reader makes it.
proof fn lemma_read_step(st: ParseState, raw: Seq<char>)
    requires
        read_doc(st.doc),
    ensures
        read_doc(step(st, raw).doc),
{
    let line = trim_end(raw);
    if trim(line).len() > 0 && heading_of(line) is None {
        let (indent, text) = content_of(line);
        if text.len() > 0 && is_task_section(st.section) {
            let b = bucket_of(st.doc, st.section);
            lemma_read_with_bucket(st.doc, st.section, b);
            let rest = line.skip(leading_spaces(line) as int);
            lemma_collapse_clean(if starts_with(rest, seq!['-', ' ']) {
                rest.skip(2)
            } else {
                rest
            });
            assert(clean_text(text));
            lemma_line_texts(text);
            let parent = parent_path(st.stack, indent as usize);
            match checkbox_of(text) {
                Some((status, body)) => {
                    let t = leaf(body, status);
                    assert(read_task(t));
                    lemma_read_push(b, parent, t);
                    lemma_read_with_bucket(st.doc, st.section, push_task_at(b, parent, t));
                },
                None => {
                    if (st.section == ParseSection::LegacyDone || st.section
                        == ParseSection::LegacyToday) && indent == 0 {
                        let status = if st.section == ParseSection::LegacyDone {
                            TaskStatus::Done
                        } else {
                            TaskStatus::Todo
                        };
                        let t = leaf(strip_task_prefix_of(text), status);
                        assert(read_task(t));
                        lemma_read_push(b, parent_path(st.stack, 0), t);
                        lemma_read_with_bucket(st.doc, st.section, push_task_at(b, parent_path(st.stack, 0), t));
                    } else {
                        match note_target(st.stack, indent as usize) {
                            Some(p) => {
                                lemma_read_add_note(b, p, text);
                                lemma_read_with_bucket(st.doc, st.section, add_note_at(b, p, text));
                            },
                            None => {},
                        }
                    }
                },
            }
        }
    }
}

proof fn lemma_read_run(st: ParseState, ls: Seq<Seq<char>>)
    requires
        read_doc(st.doc),
    ensures
        read_doc(run_lines(st, ls).doc),
    decreases ls.len(),
{
    if ls.len() > 0 {
        lemma_read_run(st, ls.drop_last());
        lemma_read_step(run_lines(st, ls.drop_last()), ls.last());
    }
}

/// Every task text that the reader makes is in normal form or empty, and every note it
/// makes is in normal form and is not a checkbox.
pub proof fn lemma_parse_is_read(md: Seq<char>)
    ensures
        read_doc(parse_doc(md)),
{
    let s0 = initial_state();
    assert(read_forest(s0.doc.must_do));
    lemma_read_run(s0, split_lines(md));
}

/// Carrying over keeps every task as the reader makes it.
proof fn lemma_carry_task_read(t: Task)
    requires
        read_task(t),
    ensures
        carry_task(t) matches Some(c) ==> read_task(c),
    decreases t,
{
    lemma_carry_forest_read(t.children);
    if t.text.len() > 0 {
        lemma_clean_fixed(t.text);
    } else {
        assert(trim_start(t.text) == t.text);
        assert(trim_end(t.text) == t.text);
    }
}

/// Carrying over keeps every task of a list as the reader makes it.
proof fn lemma_carry_forest_read(f: Seq<Task>)
    requires
        read_forest(f),
    ensures
        read_forest(carry_forest(f)),
    decreases f,
{
    if f.len() > 0 {
        let init = f.subrange(0, f.len() - 1);
        assert forall|i: int| 0 <= i < init.len() implies read_task(#[trigger] init[i]) by {
            assert(init[i] == f[i]);
        }
        lemma_carry_forest_read(init);
        assert(read_task(f[f.len() - 1]));
        lemma_carry_task_read(f[f.len() - 1]);
        let rest = carry_forest(init);
        match carry_task(f[f.len() - 1]) {
            Some(c) => {
                let r = rest.push(c);
                assert forall|i: int| 0 <= i < r.len() implies read_task(#[trigger] r[i]) by {
                    if i < rest.len() {
                        assert(r[i] == rest[i]);
                    }
                }
            },
            None => {},
        }
    }
}

/// A list as the reader makes it, whose tasks all have texts and whose lists fit, is in
/// normal form.
proof fn lemma_read_clean(f: Seq<Task>)
    requires
        read_forest(f),
        texts_filled(f),
        lists_fit(f),
    ensures
        clean_forest(f),
    decreases f,
{
    if f.len() > 0 {
        let init = f.subrange(0, f.len() - 1);
        let t = f[f.len() - 1];
        assert forall|i: int| 0 <= i < init.len() implies read_task(#[trigger] init[i]) by {
            assert(init[i] == f[i]);
        }
        assert forall|i: int| 0 <= i < init.len() implies (#[trigger] init[i]).text.len() > 0
            && texts_filled(init[i].children) by {
            assert(init[i] == f[i]);
        }
        assert forall|i: int| 0 <= i < init.len() implies lists_fit((#[trigger] init[i]).children) by {
            assert(init[i] == f[i]);
        }
        lemma_read_clean(init);
        assert(read_task(t));
        assert(t.text.len() > 0 && texts_filled(t.children));
        assert(lists_fit(t.children));
        lemma_read_clean_task(t);
    }
}

proof fn lemma_read_clean_task(t: Task)
    requires
        read_task(t),
        t.text.len() > 0,
        texts_filled(t.children),
        lists_fit(t.children),
    ensures
        clean_task(t),
    decreases t,
{
    lemma_read_clean(t.children);
}

/// A day as the reader makes it, whose tasks all have texts and whose lists fit, is in
/// normal form.
proof fn lemma_read_doc_clean(d: DocModel)
    requires
        read_doc(d),
        doc_filled(d),
        doc_fits(d),
    ensures
        clean_doc(d),
{
    lemma_read_clean(d.must_do);
    lemma_read_clean(d.queued);
    lemma_read_clean(d.pending);
}

/// Writing a day that was read and reading it again gives the same tasks, when every task
/// has a text, the lists fit, and the date holds no newline.
pub proof fn lemma_reread(date: Seq<char>, md: Seq<char>)
    requires
        forall|j: int| 0 <= j < date.len() ==> #[trigger] date[j] != '\n',
        doc_filled(parse_doc(md)),
        doc_fits(parse_doc(md)),
    ensures
        parse_doc(doc_text(date, parse_doc(md))) == parse_doc(md),
{
    lemma_parse_is_read(md);
    lemma_read_doc_clean(parse_doc(md));
    lemma_read_back(date, parse_doc(md));
}

/// Opening a new day after a previous day gives exactly the previous day's carried-over
/// tasks, when every carried task has a text, the carried lists fit, and the date holds
/// no newline.
pub proof fn lemma_new_day_reads_back(date: Seq<char>, previous: Seq<char>)
    requires
        forall|j: int| 0 <= j < date.len() ==> #[trigger] date[j] != '\n',
        doc_filled(carry_doc(parse_doc(previous))),
        doc_fits(carry_doc(parse_doc(previous))),
    ensures
        parse_doc(carried_text(date, Some(previous))) == carry_doc(parse_doc(previous)),
{
    let d = parse_doc(previous);
    lemma_parse_is_read(previous);
    lemma_carry_forest_read(d.must_do);
    lemma_carry_forest_read(d.queued);
    lemma_carry_forest_read(d.pending);
    lemma_read_doc_clean(carry_doc(d));
    lemma_read_back(date, carry_doc(d));
}

/// A non-empty text that whitespace normalizing leaves unchanged is in normal form.
pub proof fn lemma_normalized_is_clean(s: Seq<char>)
    requires
        s.len() > 0,
        normalize_ws(s) == s,
    ensures
        clean_text(s),
{
    lemma_collapse_clean(s);
}

/// Every task of the list, at any depth, has a non-empty text that whitespace normalizing
/// leaves unchanged, and notes likewise that are not checkboxes.
pub open spec fn written_forest(f: Seq<Task>) -> bool
    decreases f,
{
    forall|i: int|
        0 <= i < f.len() ==> {
            &&& (#[trigger] f[i]).text.len() > 0
            &&& normalize_ws(f[i].text) == f[i].text
            &&& forall|j: int|
                0 <= j < f[i].notes.len() ==> {
                    &&& (#[trigger] f[i].notes[j]).len() > 0
                    &&& normalize_ws(f[i].notes[j]) == f[i].notes[j]
                    &&& checkbox_of(f[i].notes[j]) is None
                }
            &&& written_forest(f[i].children)
        }
}

/// Every task of the day is written as `written_forest` says.
pub open spec fn doc_written(d: DocModel) -> bool {
    written_forest(d.must_do) && written_forest(d.queued) && written_forest(d.pending)
}

proof fn lemma_written_read(f: Seq<Task>)
    requires
        written_forest(f),
    ensures
        read_forest(f),
        texts_filled(f),
    decreases f,
{
    assert forall|i: int| 0 <= i < f.len() implies read_task(#[trigger] f[i]) && f[i].text.len() > 0
        && texts_filled(f[i].children) by {
        let t = f[i];
        lemma_normalized_is_clean(t.text);
        assert forall|j: int| 0 <= j < t.notes.len() implies clean_note(#[trigger] t.notes[j]) by {
            lemma_normalized_is_clean(t.notes[j]);
        }
        lemma_written_read(t.children);
    }
}

/// Reading a rendered day gives back its task lists, when every task text and note is
/// non-empty and left unchanged by whitespace normalizing, no note is a checkbox, the
/// lists fit, and the date holds no newline.
pub proof fn lemma_written_day_reads_back(date: Seq<char>, d: DocModel)
    requires
        forall|j: int| 0 <= j < date.len() ==> #[trigger] date[j] != '\n',
        doc_written(d),
        doc_fits(d),
    ensures
        parse_doc(doc_text(date, d)) == d,
{
    lemma_written_read(d.must_do);
    lemma_written_read(d.queued);
    lemma_written_read(d.pending);
    lemma_read_doc_clean(d);
    lemma_read_back(date, d);
}

/// Normalizing whitespace a second time changes nothing.
pub proof fn lemma_normalize_ws_idempotent(s: Seq<char>)
    ensures
        normalize_ws(normalize_ws(s)) == normalize_ws(s),
{
    lemma_collapse_clean(s);
    let n = normalize_ws(s);
    if n.len() > 0 {
        lemma_clean_fixed(n);
    } else {
        assert(n =~= Seq::<char>::empty());
    }
}

/// A heading that holds none of the names of the current sections opens the older to-do
/// section exactly when its ASCII letters, lower-cased, spell `today`, `todo`, `tasks` or
/// `task`.
pub proof fn lemma_legacy_today_heading(name: Seq<char>)
    requires
        !contains(name, "今日必達"@),
        !contains(name, "必達以外"@),
        !contains(name, "保留"@),
    ensures
        section_of(name) == ParseSection::LegacyToday <==> (ascii_key(name) == "today"@ || ascii_key(name)
            == "todo"@ || ascii_key(name) == "tasks"@ || ascii_key(name) == "task"@),
{
}

/// A heading naming the must-do list opens it; one naming the other list, and not the
/// must-do list, opens that; one naming the pending list, and neither of the others, opens
/// that.
pub proof fn lemma_current_headings(name: Seq<char>)
    ensures
        contains(name, "今日必達"@) ==> section_of(name) == ParseSection::MustDo,
        !contains(name, "今日必達"@) && contains(name, "必達以外"@) ==> section_of(name)
            == ParseSection::Queued,
        !contains(name, "今日必達"@) && !contains(name, "必達以外"@) && contains(name, "保留"@)
            ==> section_of(name) == ParseSection::Pending,
{
}

/// A heading that holds none of the names of the current sections opens the older done
/// section exactly when its ASCII letters, lower-cased, spell `done`.
pub proof fn lemma_legacy_done_heading(name: Seq<char>)
    requires
        !contains(name, "今日必達"@),
        !contains(name, "必達以外"@),
        !contains(name, "保留"@),
    ensures
        section_of(name) == ParseSection::LegacyDone <==> ascii_key(name) == "done"@,
{
    reveal_strlit("done");
    reveal_strlit("today");
    reveal_strlit("todo");
    reveal_strlit("tasks");
    reveal_strlit("task");
    let k = ascii_key(name);
    if k == "done"@ {
        assert(k != "today"@ && k != "todo"@ && k != "tasks"@ && k != "task"@) by {
            assert("done"@[1] == 'o');
            assert("todo"@[0] == 't');
            assert("today"@.len() == 5);
            assert("tasks"@.len() == 5);
            assert("task"@[0] == 't');
        }
    }
}

} // verus!

//! Writing a day's task lists as Markdown.
use vstd::prelude::*;
use crate::text::{trim, trim_str, lines_text, push_char};
use crate::task::{
    Task, TaskNode, EntryDoc, DocModel, TaskStatus, token_of_status, strings_view, forest_model,
    forest_height, task_height, doc_height,
};

verus! {

broadcast use vstd::string::group_string_axioms;

/// Two spaces per level.
pub open spec fn indent(depth: nat) -> Seq<char>
    decreases depth,
{
    if depth == 0 {
        Seq::empty()
    } else {
        indent((depth - 1) as nat) + seq![' ', ' ']
    }
}

/// `{indent}- [{token}] {text}` with the text trimmed.
pub open spec fn task_line(t: Task, depth: nat) -> Seq<char> {
    indent(depth) + seq!['-', ' ', '[', token_of_status(t.status), ']', ' '] + trim(t.text)
}

/// `{indent}  - {note}` with the note trimmed.
pub open spec fn note_line(note: Seq<char>, depth: nat) -> Seq<char> {
    indent(depth) + seq![' ', ' ', '-', ' '] + trim(note)
}

/// The note lines of a task at the given depth.
pub open spec fn notes_lines(notes: Seq<Seq<char>>, depth: nat) -> Seq<Seq<char>> {
    Seq::new(notes.len(), |i: int| note_line(notes[i], depth))
}

/// The lines of a task: its own line, its notes, then its sub-tasks one level deeper.
pub open spec fn task_lines(t: Task, depth: nat) -> Seq<Seq<char>>
    decreases t,
{
    seq![task_line(t, depth)] + notes_lines(t.notes, depth) + forest_lines(t.children, depth + 1)
}

/// The lines of a list of tasks, in order.
pub open spec fn forest_lines(f: Seq<Task>, depth: nat) -> Seq<Seq<char>>
    decreases f,
{
    if f.len() == 0 {
        Seq::empty()
    } else {
        forest_lines(f.subrange(0, f.len() - 1), depth) + task_lines(f[f.len() - 1], depth)
    }
}

pub open spec fn heading_today() -> Seq<char> {
    "## ✅ 今日やること"@
}

pub open spec fn heading_must_do() -> Seq<char> {
    "### 🚨 今日必達"@
}

pub open spec fn heading_queued() -> Seq<char> {
    "### 🐻 必達以外"@
}

pub open spec fn heading_memo() -> Seq<char> {
    "## 📝 メモ / 気づき"@
}

pub open spec fn heading_pending() -> Seq<char> {
    "## 🐕 保留"@
}

/// `# {date}`.
pub open spec fn title_line(date: Seq<char>) -> Seq<char> {
    seq!['#', ' '] + date
}

/// The lines of a rendered day.
pub open spec fn doc_lines(date: Seq<char>, d: DocModel) -> Seq<Seq<char>> {
    seq![title_line(date), Seq::empty(), heading_today(), Seq::empty(), heading_must_do()]
        + forest_lines(d.must_do, 0)
        + seq![Seq::empty(), heading_queued()]
        + forest_lines(d.queued, 0)
        + seq![Seq::empty(), heading_memo(), Seq::empty(), heading_pending()]
        + forest_lines(d.pending, 0)
}

/// The Markdown of a rendered day: each line followed by a newline.
pub open spec fn doc_text(date: Seq<char>, d: DocModel) -> Seq<char> {
    lines_text(doc_lines(date, d))
}

/// The text after the date in a new day's Markdown.
pub open spec fn starter_tail() -> Seq<char> {
    "\n\n## ✅ 今日やること\n\n### 🚨 今日必達\n\n### 🐻 必達以外\n\n## 📝 メモ / 気づき\n\n## 🐕 保留\n"@
}

/// The Markdown of a new day: its title, the section headings, and no tasks.
pub open spec fn starter_text(date: Seq<char>) -> Seq<char> {
    title_line(date) + starter_tail()
}

/// The Markdown of a new day with no tasks.
pub fn starter_markdown(date: &str) -> (s: String)
    ensures
        s@ == starter_text(date@),
{
    let mut s = "# ".to_string();
    s.append(date);
    s.append("\n\n## ✅ 今日やること\n\n### 🚨 今日必達\n\n### 🐻 必達以外\n\n## 📝 メモ / 気づき\n\n## 🐕 保留\n");
    proof {
        reveal_strlit("# ");
    }
    s
}

/// A stored day: its date and its Markdown.
#[derive(Debug, Clone)]
pub struct EntryPayload {
    pub date: String,
    pub markdown_source: String,
}

impl EntryPayload {
    /// A new day with the starter Markdown.
    pub fn empty(date: &str) -> (e: Self)
        ensures
            e.date@ == date@,
            e.markdown_source@ == starter_text(date@),
    {
        EntryPayload { date: date.to_string(), markdown_source: starter_markdown(date) }
    }
}

/// Two spaces per level.
fn indent_string(depth: usize) -> (s: String)
    ensures
        s@ == indent(depth as nat),
{
    let mut s = String::new();
    let mut i: usize = 0;
    while i < depth
        invariant
            i <= depth,
            s@ == indent(i as nat),
        decreases depth - i,
    {
        push_char(&mut s, ' ');
        push_char(&mut s, ' ');
        i = i + 1;
    }
    s
}

/// Appends the lines of `tasks` at the given depth: each task's line, its notes,
/// then its sub-tasks one level deeper.
pub fn render_tasks(tasks: &[TaskNode], depth: usize, lines: &mut Vec<String>)
    requires
        depth + forest_height(forest_model(tasks@)) <= usize::MAX,
    ensures
        strings_view(final(lines)@) == strings_view(old(lines)@) + forest_lines(
            forest_model(tasks@),
            depth as nat,
        ),
    decreases tasks@,
{
    let ghost f = forest_model(tasks@);
    let mut i: usize = 0;
    while i < tasks.len()
        invariant
            i <= tasks@.len(),
            f == forest_model(tasks@),
            depth + forest_height(f) <= usize::MAX,
            strings_view(lines@) == strings_view(old(lines)@) + forest_lines(
                f.take(i as int),
                depth as nat,
            ),
        decreases tasks@.len() - i,
    {
        let task = &tasks[i];
        let ghost t = task.model();
        assert(f.take(i + 1).subrange(0, i as int) == f.take(i as int));
        assert(f.take(i + 1)[i as int] == t);
        proof {
            lemma_height_take(f, i + 1);
            lemma_height_last(f.take(i + 1));
        }
        let ind = indent_string(depth);
        let mut line = ind.clone();
        line.append("- [");
        push_char(&mut line, task.status.token());
        line.append("] ");
        let text = trim_str(task.text.as_str());
        line.append(text.as_str());
        proof {
            reveal_strlit("- [");
            reveal_strlit("] ");
        }
        assert(line@ == task_line(t, depth as nat));
        let ghost before = strings_view(lines@);
        lines.push(line);
        assert(strings_view(lines@) =~= before.push(task_line(t, depth as nat)));
        let mut k: usize = 0;
        while k < task.notes.len()
            invariant
                k <= task.notes@.len(),
                t == task.model(),
                ind@ == indent(depth as nat),
                strings_view(lines@) == before.push(task_line(t, depth as nat)) + notes_lines(
                    t.notes.take(k as int),
                    depth as nat,
                ),
            decreases task.notes@.len() - k,
        {
            let mut note_line_s = ind.clone();
            note_line_s.append("  - ");
            let nt = trim_str(task.notes[k].as_str());
            note_line_s.append(nt.as_str());
            proof {
                reveal_strlit("  - ");
            }
            assert(nt@ == trim(t.notes[k as int]));
            assert(note_line_s@ == note_line(t.notes[k as int], depth as nat));
            let ghost prev = strings_view(lines@);
            lines.push(note_line_s);
            assert(strings_view(lines@) =~= prev.push(note_line(t.notes[k as int], depth as nat)));
            assert(notes_lines(t.notes.take(k + 1), depth as nat) =~= notes_lines(
                t.notes.take(k as int),
                depth as nat,
            ).push(note_line(t.notes[k as int], depth as nat)));
            k = k + 1;
        }
        assert(t.notes.take(task.notes@.len() as int) == t.notes);
        proof {
            assert(decreases_to!(tasks@ => tasks@[i as int]));
            assert(decreases_to!(tasks@[i as int] => tasks@[i as int].children));
            assert(decreases_to!(tasks@[i as int].children => tasks@[i as int].children@));
        }
        render_tasks(task.children.as_slice(), depth + 1, lines);
        assert(task_lines(t, depth as nat) == seq![task_line(t, depth as nat)] + notes_lines(
            t.notes,
            depth as nat,
        ) + forest_lines(t.children, depth as nat + 1));
        assert(strings_view(lines@) =~= strings_view(old(lines)@) + forest_lines(
            f.take(i + 1),
            depth as nat,
        ));
        i = i + 1;
    }
    assert(f.take(tasks@.len() as int) == f);
}

proof fn lemma_height_take(f: Seq<Task>, n: int)
    requires
        0 <= n <= f.len(),
    ensures
        forest_height(f.take(n)) <= forest_height(f),
    decreases f.len(),
{
    if n < f.len() {
        lemma_height_take(f.subrange(0, f.len() - 1), n);
        assert(f.subrange(0, f.len() - 1).take(n) == f.take(n));
    } else {
        assert(f.take(n) == f);
    }
}

proof fn lemma_height_last(f: Seq<Task>)
    requires
        f.len() > 0,
    ensures
        task_height(f[f.len() - 1]) <= forest_height(f),
        forest_height(f[f.len() - 1].children) + 1 <= forest_height(f),
{
    assert(task_height(f[f.len() - 1]) == 1 + forest_height(f[f.len() - 1].children));
}

/// Each line followed by a newline.
pub fn join_lines(lines: &Vec<String>) -> (s: String)
    ensures
        s@ == lines_text(strings_view(lines@)),
{
    let mut s = String::new();
    let mut i: usize = 0;
    while i < lines.len()
        invariant
            i <= lines@.len(),
            s@ == lines_text(strings_view(lines@).take(i as int)),
        decreases lines@.len() - i,
    {
        s.append(lines[i].as_str());
        push_char(&mut s, '\n');
        assert(strings_view(lines@).take(i + 1).drop_last() == strings_view(lines@).take(i as int));
        i = i + 1;
    }
    assert(strings_view(lines@).take(lines@.len() as int) == strings_view(lines@));
    s
}

/// The Markdown of a day: title, section headings, and each list's task lines.
pub fn render_doc(date: &str, doc: &EntryDoc) -> (s: String)
    requires
        doc_height(doc@) <= usize::MAX,
    ensures
        s@ == doc_text(date@, doc@),
{
    let mut lines: Vec<String> = Vec::new();
    let mut title = "# ".to_string();
    title.append(date);
    lines.push(title);
    lines.push(String::new());
    lines.push("## ✅ 今日やること".to_string());
    lines.push(String::new());
    lines.push("### 🚨 今日必達".to_string());
    proof {
        reveal_strlit("# ");
    }
    assert(lines@[0]@ == title_line(date@));
    assert(lines@[1]@ == Seq::<char>::empty());
    assert(lines@[2]@ == heading_today());
    let ghost head = seq![title_line(date@), Seq::empty(), heading_today(), Seq::empty(), heading_must_do()];
    assert(strings_view(lines@) =~= head);
    render_tasks(doc.must_do_tasks.as_slice(), 0, &mut lines);
    lines.push(String::new());
    lines.push("### 🐻 必達以外".to_string());
    let ghost mid = head + forest_lines(doc@.must_do, 0) + seq![Seq::empty(), heading_queued()];
    assert(strings_view(lines@) =~= mid);
    render_tasks(doc.queued_tasks.as_slice(), 0, &mut lines);
    lines.push(String::new());
    lines.push("## 📝 メモ / 気づき".to_string());
    lines.push(String::new());
    lines.push("## 🐕 保留".to_string());
    let ghost tail = mid + forest_lines(doc@.queued, 0) + seq![Seq::empty(), heading_memo(), Seq::empty(), heading_pending()];
    assert(strings_view(lines@) =~= tail);
    render_tasks(doc.pending_tasks.as_slice(), 0, &mut lines);
    assert(strings_view(lines@) =~= doc_lines(date@, doc@));
    join_lines(&lines)
}

} // verus!

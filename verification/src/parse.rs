//! Reading a day's task lists back from Markdown.
use vstd::prelude::*;
use crate::text::{
    trim, trim_start, trim_end, normalize_ws, contains, starts_with, is_ws, ascii_lower,
    is_ascii_alpha, chars_of, string_of, trim_chars, trim_start_index, normalize_chars,
    contains_chars, starts_with_chars, ascii_lower_char,
};
use crate::task::{
    Task, TaskNode, TaskStatus, status_of_token, DocModel, EntryDoc, empty_doc, forest_model,
    strings_view,
};
use crate::text::{split_lines, split_lines_chars, lines_view, trim_end_chars};
use crate::outline::{
    appended, attached, stack_view, stack_ok, bucket_of, append_task, attach_note,
    lemma_note_keeps_nodes, add_note_at, lemma_doc_height_with_bucket,
};
use crate::task::doc_height;

verus! {

broadcast use vstd::string::group_string_axioms;

/// The kind of section that a heading opens.
#[derive(Debug, Clone, Copy, PartialEq, Eq, Structural)]
pub enum ParseSection {
    MustDo,
    Queued,
    Pending,
    LegacyToday,
    LegacyDone,
    LegacyImpact,
    LegacySupport,
    LegacyImprovements,
    LegacyLearning,
    LegacyNotes,
    Other,
}

/// Number of `#` characters at the start of `s`.
pub open spec fn leading_hashes(s: Seq<char>) -> nat
    decreases s.len(),
{
    if s.len() > 0 && s[0] == '#' {
        1 + leading_hashes(s.drop_first())
    } else {
        0
    }
}

/// The heading name of a line: after optional indentation, one or more `#`, then a
/// non-blank name whose whitespace is collapsed.
pub open spec fn heading_of(line: Seq<char>) -> Option<Seq<char>> {
    let t = trim_start(line);
    let h = leading_hashes(t);
    let rest = trim(t.skip(h as int));
    if h == 0 || rest.len() == 0 {
        None
    } else {
        Some(normalize_ws(rest))
    }
}

/// The ASCII letters of `name`, lower-cased, in order.
pub open spec fn ascii_key(name: Seq<char>) -> Seq<char>
    decreases name.len(),
{
    if name.len() == 0 {
        Seq::empty()
    } else {
        let k = ascii_key(name.drop_last());
        if is_ascii_alpha(name.last()) {
            k.push(ascii_lower(name.last()))
        } else {
            k
        }
    }
}

/// The section that a heading name opens: the current headings by their Japanese
/// names, the older English headings by their letters alone.
pub open spec fn section_of(name: Seq<char>) -> ParseSection {
    let key = ascii_key(name);
    if contains(name, "今日必達"@) {
        ParseSection::MustDo
    } else if contains(name, "必達以外"@) {
        ParseSection::Queued
    } else if contains(name, "保留"@) {
        ParseSection::Pending
    } else if key == "today"@ || key == "todo"@ || key == "tasks"@ || key == "task"@ {
        ParseSection::LegacyToday
    } else if key == "done"@ {
        ParseSection::LegacyDone
    } else if key == "impact"@ {
        ParseSection::LegacyImpact
    } else if key == "support"@ {
        ParseSection::LegacySupport
    } else if key == "improvement"@ || key == "improvements"@ {
        ParseSection::LegacyImprovements
    } else if key == "learning"@ {
        ParseSection::LegacyLearning
    } else if key == "notes"@ {
        ParseSection::LegacyNotes
    } else {
        ParseSection::Other
    }
}

/// Number of space characters at the start of `s`.
pub open spec fn leading_spaces(s: Seq<char>) -> nat
    decreases s.len(),
{
    if s.len() > 0 && s[0] == ' ' {
        1 + leading_spaces(s.drop_first())
    } else {
        0
    }
}

/// The indentation level (two spaces per level) and the text of a content line, without
/// a leading `- ` and with its whitespace collapsed.
pub open spec fn content_of(line: Seq<char>) -> (nat, Seq<char>) {
    let n = leading_spaces(line);
    let t = line.skip(n as int);
    let body = if starts_with(t, seq!['-', ' ']) {
        t.skip(2)
    } else {
        t
    };
    (n / 2, normalize_ws(body))
}

/// A checkbox `[c] body`, where `c` is one ASCII character: its status and trimmed body.
pub open spec fn checkbox_of(text: Seq<char>) -> Option<(TaskStatus, Seq<char>)> {
    if text.len() >= 4 && text[0] == '[' && (text[1] as u32) < 128 && text[2] == ']' && text[3]
        == ' ' {
        Some((status_of_token(text[1]), trim(text.skip(4))))
    } else {
        None
    }
}

/// The text of an older task line: after a case-insensitive `task:` prefix if there is one,
/// trimmed.
pub open spec fn strip_task_prefix_of(text: Seq<char>) -> Seq<char> {
    if text.len() >= 5 && text.take(5).map_values(|c: char| ascii_lower(c)) == "task:"@ {
        trim(text.skip(5))
    } else {
        trim(text)
    }
}

fn leading_hashes_exec(s: &[char]) -> (n: usize)
    ensures
        n == leading_hashes(s@),
        n <= s@.len(),
{
    let mut n: usize = 0;
    assert(s@.skip(0) == s@);
    while n < s.len() && s[n] == '#'
        invariant
            n <= s@.len(),
            leading_hashes(s@) == n + leading_hashes(s@.skip(n as int)),
        decreases s@.len() - n,
    {
        assert(s@.skip(n as int).drop_first() == s@.skip(n + 1));
        n = n + 1;
    }
    assert(s@.skip(0) == s@);
    n
}

/// The heading name of a line, if the line is a heading (see `heading_of`).
pub fn heading_chars(line: &[char]) -> (h: Option<Vec<char>>)
    ensures
        match h {
            Some(v) => heading_of(line@) == Some(v@),
            None => heading_of(line@) is None,
        },
{
    let i = trim_start_index(line);
    let t = vstd::slice::slice_subrange(line, i, line.len());
    let n = leading_hashes_exec(t);
    if n == 0 {
        return None;
    }
    let after = vstd::slice::slice_subrange(t, n, t.len());
    assert(t@.skip(n as int) == after@);
    let rest = trim_chars(after);
    if rest.len() == 0 {
        None
    } else {
        Some(normalize_chars(rest.as_slice()))
    }
}

/// The heading name of a line, if the line is a heading (see `heading_of`).
pub fn parse_heading(line: &str) -> (h: Option<String>)
    ensures
        match h {
            Some(v) => heading_of(line@) == Some(v@),
            None => heading_of(line@) is None,
        },
{
    let v = chars_of(line);
    match heading_chars(v.as_slice()) {
        Some(w) => Some(string_of(w.as_slice())),
        None => None,
    }
}

fn ascii_key_exec(name: &[char]) -> (k: Vec<char>)
    ensures
        k@ == ascii_key(name@),
{
    let mut k: Vec<char> = Vec::new();
    let mut i: usize = 0;
    while i < name.len()
        invariant
            i <= name@.len(),
            k@ == ascii_key(name@.take(i as int)),
        decreases name@.len() - i,
    {
        let c = name[i];
        assert(name@.take(i + 1).drop_last() == name@.take(i as int));
        if ('A' <= c && c <= 'Z') || ('a' <= c && c <= 'z') {
            k.push(ascii_lower_char(c));
        }
        i = i + 1;
    }
    assert(name@.take(name@.len() as int) == name@);
    k
}

fn key_is(key: &[char], word: &str) -> (b: bool)
    ensures
        b == (key@ == word@),
{
    let w = chars_of(word);
    if key.len() != w.len() {
        return false;
    }
    let b = starts_with_chars(key, w.as_slice());
    assert(key@.take(w@.len() as int) == key@);
    b
}

/// The section that a heading name opens (see `section_of`).
pub fn section_chars(name: &[char]) -> (s: ParseSection)
    ensures
        s == section_of(name@),
{
    let key = ascii_key_exec(name);
    let k = key.as_slice();
    if contains_chars(name, chars_of("今日必達").as_slice()) {
        ParseSection::MustDo
    } else if contains_chars(name, chars_of("必達以外").as_slice()) {
        ParseSection::Queued
    } else if contains_chars(name, chars_of("保留").as_slice()) {
        ParseSection::Pending
    } else if key_is(k, "today") || key_is(k, "todo") || key_is(k, "tasks") || key_is(k, "task") {
        ParseSection::LegacyToday
    } else if key_is(k, "done") {
        ParseSection::LegacyDone
    } else if key_is(k, "impact") {
        ParseSection::LegacyImpact
    } else if key_is(k, "support") {
        ParseSection::LegacySupport
    } else if key_is(k, "improvement") || key_is(k, "improvements") {
        ParseSection::LegacyImprovements
    } else if key_is(k, "learning") {
        ParseSection::LegacyLearning
    } else if key_is(k, "notes") {
        ParseSection::LegacyNotes
    } else {
        ParseSection::Other
    }
}

/// The section that a heading name opens (see `section_of`).
pub fn normalize_section_name(name: &str) -> (s: ParseSection)
    ensures
        s == section_of(name@),
{
    let v = chars_of(name);
    section_chars(v.as_slice())
}

fn leading_spaces_exec(s: &[char]) -> (n: usize)
    ensures
        n == leading_spaces(s@),
        n <= s@.len(),
{
    let mut n: usize = 0;
    assert(s@.skip(0) == s@);
    while n < s.len() && s[n] == ' '
        invariant
            n <= s@.len(),
            leading_spaces(s@) == n + leading_spaces(s@.skip(n as int)),
        decreases s@.len() - n,
    {
        assert(s@.skip(n as int).drop_first() == s@.skip(n + 1));
        n = n + 1;
    }
    assert(s@.skip(0) == s@);
    n
}

/// Indentation level and text of a content line (see `content_of`).
pub fn content_chars(line: &[char]) -> (r: (usize, Vec<char>))
    ensures
        (r.0 as nat, r.1@) == content_of(line@),
{
    let n = leading_spaces_exec(line);
    let t = vstd::slice::slice_subrange(line, n, line.len());
    assert(t@ == line@.skip(n as int));
    proof {
        reveal_strlit("- ");
        assert("- "@ =~= seq!['-', ' ']);
    }
    let text = if starts_with_chars(t, chars_of("- ").as_slice()) {
        proof {
            reveal_strlit("- ");
        }
        let after = vstd::slice::slice_subrange(t, 2, t.len());
        assert(after@ == t@.skip(2));
        normalize_chars(after)
    } else {
        proof {
            reveal_strlit("- ");
        }
        normalize_chars(t)
    };
    (n / 2, text)
}

/// Indentation level and text of a content line (see `content_of`).
pub fn parse_content_line(line: &str) -> (r: (usize, String))
    ensures
        (r.0 as nat, r.1@) == content_of(line@),
{
    let v = chars_of(line);
    let (n, t) = content_chars(v.as_slice());
    (n, string_of(t.as_slice()))
}

/// Status and body of a checkbox item (see `checkbox_of`).
pub fn checkbox_chars(text: &[char]) -> (r: Option<(TaskStatus, Vec<char>)>)
    ensures
        match r {
            Some((s, b)) => checkbox_of(text@) == Some((s, b@)),
            None => checkbox_of(text@) is None,
        },
{
    if text.len() >= 4 && text[0] == '[' && (text[1] as u32) < 128 && text[2] == ']' && text[3]
        == ' ' {
        let after = vstd::slice::slice_subrange(text, 4, text.len());
        assert(after@ == text@.skip(4));
        let body = trim_chars(after);
        Some((TaskStatus::from_token(text[1]), body))
    } else {
        None
    }
}

/// Status and body of a checkbox item (see `checkbox_of`).
pub fn parse_checkbox(text: &str) -> (r: Option<(TaskStatus, String)>)
    ensures
        match r {
            Some((s, b)) => checkbox_of(text@) == Some((s, b@)),
            None => checkbox_of(text@) is None,
        },
{
    let v = chars_of(text);
    match checkbox_chars(v.as_slice()) {
        Some((s, b)) => Some((s, string_of(b.as_slice()))),
        None => None,
    }
}

/// The text of an older task line (see `strip_task_prefix_of`).
pub fn strip_task_prefix_chars(text: &[char]) -> (r: Vec<char>)
    ensures
        r@ == strip_task_prefix_of(text@),
{
    proof {
        reveal_strlit("task:");
    }
    if text.len() >= 5 && ascii_lower_char(text[0]) == 't' && ascii_lower_char(text[1]) == 'a'
        && ascii_lower_char(text[2]) == 's' && ascii_lower_char(text[3]) == 'k' && ascii_lower_char(
    text[4]) == ':' {
        assert(text@.take(5).map_values(|c: char| ascii_lower(c)) =~= "task:"@);
        let after = vstd::slice::slice_subrange(text, 5, text.len());
        assert(after@ == text@.skip(5));
        trim_chars(after)
    } else {
        proof {
            if text@.len() >= 5 && text@.take(5).map_values(|c: char| ascii_lower(c)) == "task:"@ {
                assert(text@.take(5).map_values(|c: char| ascii_lower(c))[0] == 't');
                assert(text@.take(5).map_values(|c: char| ascii_lower(c))[1] == 'a');
                assert(text@.take(5).map_values(|c: char| ascii_lower(c))[2] == 's');
                assert(text@.take(5).map_values(|c: char| ascii_lower(c))[3] == 'k');
                assert(text@.take(5).map_values(|c: char| ascii_lower(c))[4] == ':');
            }
        }
        trim_chars(text)
    }
}

/// The text of an older task line (see `strip_task_prefix_of`).
pub fn strip_task_prefix(text: &str) -> (r: String)
    ensures
        r@ == strip_task_prefix_of(text@),
{
    let v = chars_of(text);
    let r = strip_task_prefix_chars(v.as_slice());
    string_of(r.as_slice())
}

/// What the reader knows after some lines: the day so far, the current section, and the
/// stack of open tasks.
pub struct ParseState {
    pub doc: DocModel,
    pub section: ParseSection,
    pub stack: Seq<(usize, Seq<usize>)>,
}

/// The reader's state made of its parts.
pub open spec fn state_of(doc: DocModel, section: ParseSection, stack: Seq<(usize, Seq<usize>)>) -> ParseState {
    ParseState { doc, section, stack }
}

/// Before the first line: no tasks, no section, no open task.
pub open spec fn initial_state() -> ParseState {
    ParseState { doc: empty_doc(), section: ParseSection::Other, stack: Seq::empty() }
}

/// Sections whose lines are read as tasks and notes.
pub open spec fn is_task_section(s: ParseSection) -> bool {
    s == ParseSection::MustDo || s == ParseSection::Queued || s == ParseSection::Pending || s
        == ParseSection::LegacyToday || s == ParseSection::LegacyDone
}

/// A task without sub-tasks or notes.
pub open spec fn leaf(text: Seq<char>, status: TaskStatus) -> Task {
    Task { text, status, children: Seq::empty(), notes: Seq::empty() }
}

/// The state after a task at `indent` is read.
pub open spec fn with_task(st: ParseState, indent: nat, t: Task) -> ParseState {
    let (d, s) = appended(st.doc, st.section, st.stack, indent as usize, t);
    ParseState { doc: d, section: st.section, stack: s }
}

/// The state after one line: blank lines are skipped; a heading opens a section and closes
/// all open tasks; in a task section, a checkbox line is a task, a plain top-level line of
/// an older to-do or done section is a task, and any other line is a note.
pub open spec fn step(st: ParseState, raw: Seq<char>) -> ParseState {
    let line = trim_end(raw);
    if trim(line).len() == 0 {
        st
    } else {
        match heading_of(line) {
            Some(h) => ParseState { doc: st.doc, section: section_of(h), stack: Seq::empty() },
            None => {
                let (indent, text) = content_of(line);
                if text.len() == 0 || !is_task_section(st.section) {
                    st
                } else {
                    match checkbox_of(text) {
                        Some((status, body)) => with_task(st, indent, leaf(body, status)),
                        None => {
                            if st.section == ParseSection::LegacyDone && indent == 0 {
                                with_task(st, 0, leaf(strip_task_prefix_of(text), TaskStatus::Done))
                            } else if st.section == ParseSection::LegacyToday && indent == 0 {
                                with_task(st, 0, leaf(strip_task_prefix_of(text), TaskStatus::Todo))
                            } else {
                                ParseState {
                                    doc: attached(st.doc, st.section, st.stack, indent as usize, text),
                                    section: st.section,
                                    stack: st.stack,
                                }
                            }
                        },
                    }
                }
            },
        }
    }
}

/// The state after reading `ls` in order from `st`.
pub open spec fn run_lines(st: ParseState, ls: Seq<Seq<char>>) -> ParseState
    decreases ls.len(),
{
    if ls.len() == 0 {
        st
    } else {
        step(run_lines(st, ls.drop_last()), ls.last())
    }
}

/// The task lists read from a day's Markdown.
pub open spec fn parse_doc(md: Seq<char>) -> DocModel {
    run_lines(initial_state(), split_lines(md)).doc
}

fn leaf_node(text: &[char], status: TaskStatus) -> (n: TaskNode)
    ensures
        n@ == leaf(text@, status),
{
    let n = TaskNode { text: string_of(text), status, children: Vec::new(), notes: Vec::new() };
    assert(n@.children =~= Seq::<Task>::empty());
    assert(n@.notes =~= Seq::<Seq<char>>::empty());
    n
}

fn parse_line(
    doc: &mut EntryDoc,
    section: &mut ParseSection,
    stack: &mut Vec<(usize, Vec<usize>)>,
    raw: &[char],
)
    requires
        stack_ok(bucket_of(old(doc)@, *old(section)), stack_view(old(stack)@)),
    ensures
        state_of(final(doc)@, *final(section), stack_view(final(stack)@)) == step(
            state_of(old(doc)@, *old(section), stack_view(old(stack)@)),
            raw@,
        ),
        stack_ok(bucket_of(final(doc)@, *final(section)), stack_view(final(stack)@)),
        final(stack)@.len() <= old(stack)@.len() + 1,
        doc_height(final(doc)@) <= (if doc_height(old(doc)@) >= old(stack)@.len() + 1 {
            doc_height(old(doc)@)
        } else {
            (old(stack)@.len() + 1) as nat
        }),
{
    let ghost d0 = doc@;
    let ghost n0 = stack@.len();
    let line = trim_end_chars(raw);
    let whole = trim_chars(line.as_slice());
    if whole.len() == 0 {
        return ;
    }
    match heading_chars(line.as_slice()) {
        Some(h) => {
            *section = section_chars(h.as_slice());
            stack.clear();
            assert(stack_view(stack@) =~= Seq::<(usize, Seq<usize>)>::empty());
            return ;
        },
        None => {},
    }
    let (indent, text) = content_chars(line.as_slice());
    if text.len() == 0 {
        return ;
    }
    let s = *section;
    let task_section = match s {
        ParseSection::MustDo | ParseSection::Queued | ParseSection::Pending
        | ParseSection::LegacyToday | ParseSection::LegacyDone => true,
        _ => false,
    };
    if !task_section {
        return ;
    }
    match checkbox_chars(text.as_slice()) {
        Some((status, body)) => {
            append_task(doc, s, stack, indent, leaf_node(body.as_slice(), status));
            proof {
                lemma_doc_height_with_bucket(d0, s, bucket_of(doc@, s));
            }
            return ;
        },
        None => {},
    }
    let done_section = match s {
        ParseSection::LegacyDone => true,
        _ => false,
    };
    let today_section = match s {
        ParseSection::LegacyToday => true,
        _ => false,
    };
    if done_section && indent == 0 {
        let body = strip_task_prefix_chars(text.as_slice());
        append_task(doc, s, stack, 0, leaf_node(body.as_slice(), TaskStatus::Done));
        proof {
            lemma_doc_height_with_bucket(d0, s, bucket_of(doc@, s));
        }
    } else if today_section && indent == 0 {
        let body = strip_task_prefix_chars(text.as_slice());
        append_task(doc, s, stack, 0, leaf_node(body.as_slice(), TaskStatus::Todo));
        proof {
            lemma_doc_height_with_bucket(d0, s, bucket_of(doc@, s));
        }
    } else {
        let ghost b = bucket_of(doc@, s);
        let ghost st = stack_view(stack@);
        let note = string_of(text.as_slice());
        attach_note(doc, s, stack.as_slice(), indent, note.as_str());
        proof {
            lemma_doc_height_with_bucket(d0, s, bucket_of(doc@, s));
            assert(bucket_of(doc@, s) == (match crate::outline::note_target(st, indent) {
                Some(p) => add_note_at(b, p, text@),
                None => b,
            }));
            assert forall|j: int| 0 <= j < st.len() implies crate::outline::valid_node_path(
                bucket_of(doc@, s),
                #[trigger] st[j].1,
            ) by {
                match crate::outline::note_target(st, indent) {
                    Some(p) => lemma_note_keeps_nodes(b, p, text@, st[j].1),
                    None => {},
                }
            }
        }
    }
}

/// The task lists of a day read from its Markdown (see `parse_doc`).
pub fn parse_markdown_to_doc(markdown: &str) -> (doc: EntryDoc)
    ensures
        doc@ == parse_doc(markdown@),
        doc_height(doc@) <= usize::MAX,
{
    let chars = chars_of(markdown);
    let lines = split_lines_chars(chars.as_slice());
    let ghost ls = lines_view(lines@);
    let mut doc = EntryDoc::new();
    let mut current_section = ParseSection::Other;
    let mut stack: Vec<(usize, Vec<usize>)> = Vec::new();
    assert(stack_view(stack@) =~= Seq::<(usize, Seq<usize>)>::empty());
    assert(ls.take(0) =~= Seq::<Seq<char>>::empty());
    let mut i: usize = 0;
    while i < lines.len()
        invariant
            i <= lines@.len(),
            ls == lines_view(lines@),
            ls == split_lines(markdown@),
            state_of(doc@, current_section, stack_view(stack@)) == run_lines(
                initial_state(),
                ls.take(i as int),
            ),
            stack_ok(bucket_of(doc@, current_section), stack_view(stack@)),
            stack@.len() <= i,
            doc_height(doc@) <= i,
        decreases lines@.len() - i,
    {
        assert(ls.take(i + 1).drop_last() == ls.take(i as int));
        assert(ls.take(i + 1).last() == lines@[i as int]@);
        parse_line(&mut doc, &mut current_section, &mut stack, lines[i].as_slice());
        i = i + 1;
    }
    assert(ls.take(lines@.len() as int) == ls);
    doc
}

} // verus!

use work_log::entry::carry_over_entry;
use work_log::parse::parse_markdown_to_doc;
use work_log::render::{render_doc, render_tasks, starter_markdown, EntryPayload};
use work_log::task::{carry_over_doc, EntryDoc, TaskNode, TaskStatus};

fn node(text: &str, status: TaskStatus, children: Vec<TaskNode>, notes: &[&str]) -> TaskNode {
    TaskNode {
        text: text.to_string(),
        status,
        children,
        notes: notes.iter().map(|n| n.to_string()).collect(),
    }
}

const STARTER: &str = "# 2026-03-12\n\n## ✅ 今日やること\n\n### 🚨 今日必達\n\n### 🐻 必達以外\n\n## 📝 メモ / 気づき\n\n## 🐕 保留\n";

#[test]
fn starter_is_the_render_of_an_empty_day() {
    assert_eq!(starter_markdown("2026-03-12"), STARTER);
    assert_eq!(render_doc("2026-03-12", &EntryDoc::new()), STARTER);
    let e = EntryPayload::empty("2026-03-12");
    assert_eq!(e.date, "2026-03-12");
    assert_eq!(e.markdown_source, STARTER);
    let read = parse_markdown_to_doc(STARTER);
    assert!(read.must_do_tasks.is_empty());
    assert!(read.queued_tasks.is_empty());
    assert!(read.pending_tasks.is_empty());
}

#[test]
fn tasks_render_with_indentation_and_notes() {
    let mut lines = Vec::new();
    let tasks = vec![node(
        " a ",
        TaskStatus::Doing,
        vec![node("b", TaskStatus::Done, vec![], &[])],
        &[" n "],
    )];
    render_tasks(&tasks, 1, &mut lines);
    assert_eq!(lines, vec!["  - [/] a", "    - n", "    - [x] b"]);
}

#[test]
fn rendered_day_reads_back() {
    let doc = EntryDoc {
        must_do_tasks: vec![node(
            "週次 準備",
            TaskStatus::Todo,
            vec![
                node("sub one", TaskStatus::Done, vec![node("deep", TaskStatus::Doing, vec![], &[])], &[]),
                node("sub two", TaskStatus::Todo, vec![], &["note x"]),
            ],
            &["リンク"],
        )],
        queued_tasks: vec![node("q", TaskStatus::Doing, vec![], &[])],
        pending_tasks: vec![node("p", TaskStatus::Todo, vec![], &[]), node("p2", TaskStatus::Done, vec![], &[])],
    };
    let text = render_doc("2026-03-12", &doc);
    assert_eq!(
        text,
        "# 2026-03-12\n\n## ✅ 今日やること\n\n### 🚨 今日必達\n- [ ] 週次 準備\n  - リンク\n  - [x] sub one\n    - [/] deep\n  - [ ] sub two\n    - note x\n\n### 🐻 必達以外\n- [/] q\n\n## 📝 メモ / 気づき\n\n## 🐕 保留\n- [ ] p\n- [x] p2\n"
    );
    let back = parse_markdown_to_doc(&text);
    assert_eq!(render_doc("2026-03-12", &back), text);
    assert_eq!(back.must_do_tasks.len(), 1);
    assert_eq!(back.must_do_tasks[0].children.len(), 2);
    assert_eq!(back.must_do_tasks[0].notes, vec!["リンク"]);
    assert_eq!(back.must_do_tasks[0].children[0].children[0].text, "deep");
    assert_eq!(back.pending_tasks[1].status, TaskStatus::Done);
}

#[test]
fn notes_attach_to_the_nearest_shallower_task() {
    let md = "### 🚨 今日必達\n- orphan note\n- [ ] a\n  - [ ] b\n      - deep note\n  - a note\n- [ ] c\n";
    let doc = parse_markdown_to_doc(md);
    assert_eq!(doc.must_do_tasks.len(), 2);
    let a = &doc.must_do_tasks[0];
    assert_eq!(a.text, "a");
    assert_eq!(a.notes, vec!["a note"]);
    assert_eq!(a.children[0].text, "b");
    assert_eq!(a.children[0].notes, vec!["deep note"]);
    assert_eq!(doc.must_do_tasks[1].text, "c");
}

#[test]
fn older_section_names_are_read() {
    let md = "# 2026-03-01\n## Done\n- Task: shipped\n- [ ] boxed\n## Today\n- task: plan\n  - detail\n## Impact\n- ignored\n## 保留\n- [/] later\n## 必達以外\n- [ ] q\n## Notes\n- [ ] not a task\n";
    let doc = parse_markdown_to_doc(md);
    assert!(doc.must_do_tasks.is_empty());
    let q: Vec<(String, TaskStatus)> = doc
        .queued_tasks
        .iter()
        .map(|t| (t.text.clone(), t.status))
        .collect();
    assert_eq!(
        q,
        vec![
            ("shipped".to_string(), TaskStatus::Done),
            ("boxed".to_string(), TaskStatus::Todo),
            ("plan".to_string(), TaskStatus::Todo),
            ("q".to_string(), TaskStatus::Todo),
        ]
    );
    assert_eq!(doc.queued_tasks[2].notes, vec!["detail"]);
    assert_eq!(doc.pending_tasks.len(), 1);
    assert_eq!(doc.pending_tasks[0].status, TaskStatus::Doing);
}

#[test]
fn carry_over_drops_finished_work_once() {
    let doc = EntryDoc {
        must_do_tasks: vec![node(
            " parent ",
            TaskStatus::Done,
            vec![node("open", TaskStatus::Todo, vec![], &[]), node("closed", TaskStatus::Done, vec![], &[])],
            &["keep"],
        )],
        queued_tasks: vec![node("gone", TaskStatus::Done, vec![], &[])],
        pending_tasks: vec![],
    };
    let once = carry_over_doc(&doc);
    assert_eq!(once.must_do_tasks.len(), 1);
    assert_eq!(once.must_do_tasks[0].text, "parent");
    assert_eq!(once.must_do_tasks[0].status, TaskStatus::Doing);
    assert_eq!(once.must_do_tasks[0].notes, vec!["keep"]);
    assert_eq!(once.must_do_tasks[0].children.len(), 1);
    assert!(once.queued_tasks.is_empty());
    let twice = carry_over_doc(&once);
    assert_eq!(render_doc("d", &twice), render_doc("d", &once));
    assert!(TaskNode::carry_over(&node("x", TaskStatus::Done, vec![], &[])).is_none());
}

#[test]
fn new_day_from_previous_day() {
    let fresh = carry_over_entry("2026-03-13", None);
    assert_eq!(fresh.date, "2026-03-13");
    assert_eq!(fresh.markdown_source, starter_markdown("2026-03-13"));
    let prev = EntryPayload {
        date: "2026-03-12".to_string(),
        markdown_source: "# 2026-03-12\n### 🚨 今日必達\n- [x] done\n- [ ] open\n## 🐕 保留\n- [/] wait\n".to_string(),
    };
    let next = carry_over_entry("2026-03-13", Some(&prev));
    assert_eq!(next.date, "2026-03-13");
    assert_eq!(
        next.markdown_source,
        "# 2026-03-13\n\n## ✅ 今日やること\n\n### 🚨 今日必達\n- [ ] open\n\n### 🐻 必達以外\n\n## 📝 メモ / 気づき\n\n## 🐕 保留\n- [/] wait\n"
    );
}

#[test]
fn carried_day_reads_back_as_the_carried_tasks() {
    let prev = EntryPayload {
        date: "2026-03-12".to_string(),
        markdown_source: "### 🚨 今日必達\n- [x] a\n  - [ ] b\n    - why\n- [x] c\n## 🐕 保留\n- [ ] p\n".to_string(),
    };
    let next = carry_over_entry("2026-03-13", Some(&prev));
    let read = parse_markdown_to_doc(&next.markdown_source);
    let carried = carry_over_doc(&parse_markdown_to_doc(&prev.markdown_source));
    assert_eq!(render_doc("x", &read), render_doc("x", &carried));
    assert_eq!(read.must_do_tasks[0].status, TaskStatus::Doing);
    assert_eq!(read.must_do_tasks[0].children[0].notes, vec!["why"]);
    assert_eq!(read.must_do_tasks.len(), 1);
}

#[test]
fn written_reading_reads_back_the_same() {
    let md = "#   2026-03-12\r\n## Today\n-   task:   plan   it \n   - [x]   sub\u{3000}task\n    - a\tnote\n### 🚨 今日必達\n- [/] x  y\n";
    let first = parse_markdown_to_doc(md);
    let written = render_doc("2026-03-12", &first);
    let again = parse_markdown_to_doc(&written);
    assert_eq!(render_doc("2026-03-12", &again), written);
    assert_eq!(first.queued_tasks[0].text, "plan it");
    assert_eq!(first.queued_tasks[0].children[0].text, "sub task");
    assert_eq!(first.queued_tasks[0].children[0].notes, vec!["a note"]);
    assert_eq!(first.must_do_tasks[0].text, "x y");
}

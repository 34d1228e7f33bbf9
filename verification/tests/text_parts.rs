use work_log::entry::{markdown_entry, normalize_entry, normalize_line_endings};
use work_log::parse::{
    normalize_section_name, parse_checkbox, parse_content_line, parse_heading,
    strip_task_prefix, ParseSection,
};
use work_log::render::EntryPayload;
use work_log::task::TaskStatus;
use work_log::text::normalize_whitespace;

#[test]
fn whitespace_is_collapsed() {
    assert_eq!(normalize_whitespace("  a \u{3000} b\t\tc  "), "a b c");
    assert_eq!(normalize_whitespace("   "), "");
    let once = normalize_whitespace("\t x \u{3000} y\n");
    assert_eq!(normalize_whitespace(&once), once);
}

#[test]
fn line_endings_are_normalized() {
    assert_eq!(normalize_line_endings("a\r\nb\rc"), "a\nb\nc\n");
    assert_eq!(normalize_line_endings(""), "\n");
    assert_eq!(normalize_line_endings("x\n"), "x\n");
    assert_eq!(normalize_line_endings("\r\r\n"), "\n\n");
    let once = normalize_line_endings("a\r\nb");
    assert_eq!(normalize_line_endings(&once), once);
}

#[test]
fn headings_are_read() {
    assert_eq!(parse_heading("## ✅ 今日やること").unwrap(), "✅ 今日やること");
    assert_eq!(parse_heading("  ####   a   b ").unwrap(), "a b");
    assert!(parse_heading("#").is_none());
    assert!(parse_heading("# ").is_none());
    assert!(parse_heading("- # not").is_none());
}

#[test]
fn sections_are_named() {
    assert_eq!(normalize_section_name("🚨 今日必達"), ParseSection::MustDo);
    assert_eq!(normalize_section_name("🐻 必達以外"), ParseSection::Queued);
    assert_eq!(normalize_section_name("🐕 保留"), ParseSection::Pending);
    assert_eq!(normalize_section_name("Done"), ParseSection::LegacyDone);
    assert_eq!(normalize_section_name("✅ Today"), ParseSection::LegacyToday);
    assert_eq!(normalize_section_name("Improvements!"), ParseSection::LegacyImprovements);
    assert_eq!(normalize_section_name("TODO list"), ParseSection::Other);
    assert_eq!(normalize_section_name("Impact"), ParseSection::LegacyImpact);
}

#[test]
fn content_lines_are_read() {
    assert_eq!(parse_content_line("    - foo  bar"), (2, "foo bar".to_string()));
    assert_eq!(parse_content_line("   plain"), (1, "plain".to_string()));
    assert_eq!(parse_content_line("-no-space"), (0, "-no-space".to_string()));
}

#[test]
fn checkboxes_are_read() {
    assert_eq!(
        parse_checkbox("[x] done  ").unwrap(),
        (TaskStatus::Done, "done".to_string())
    );
    assert_eq!(
        parse_checkbox("[X] done").unwrap(),
        (TaskStatus::Done, "done".to_string())
    );
    assert_eq!(
        parse_checkbox("[/] doing").unwrap(),
        (TaskStatus::Doing, "doing".to_string())
    );
    assert_eq!(
        parse_checkbox("[?] other").unwrap(),
        (TaskStatus::Todo, "other".to_string())
    );
    assert!(parse_checkbox("[✓] wide").is_none());
    assert!(parse_checkbox("[x]done").is_none());
    assert!(parse_checkbox("x] done").is_none());
}

#[test]
fn task_prefixes_are_stripped() {
    assert_eq!(strip_task_prefix("Task: foo "), "foo");
    assert_eq!(strip_task_prefix("TASK:bar"), "bar");
    assert_eq!(strip_task_prefix(" tasks: baz "), "tasks: baz");
}

#[test]
fn entries_are_normalized_for_saving() {
    let e = EntryPayload {
        date: " 2026-03-12 ".to_string(),
        markdown_source: "a\r\nb".to_string(),
    };
    let n = normalize_entry(&e);
    assert_eq!(n.date, "2026-03-12");
    assert_eq!(n.markdown_source, "a\nb\n");
    let m = markdown_entry("2026-03-12", "x\ry");
    assert_eq!(m.date, "2026-03-12");
    assert_eq!(m.markdown_source, "x\ny\n");
}

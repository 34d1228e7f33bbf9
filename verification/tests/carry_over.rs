use work_log::parse::parse_markdown_to_doc;
use work_log::render::{render_doc, starter_markdown};
use work_log::task::{EntryDoc, TaskNode};

fn carried(doc: &EntryDoc) -> EntryDoc {
    EntryDoc {
        must_do_tasks: doc
            .must_do_tasks
            .iter()
            .filter_map(TaskNode::carry_over)
            .collect(),
        queued_tasks: doc
            .queued_tasks
            .iter()
            .filter_map(TaskNode::carry_over)
            .collect(),
        pending_tasks: doc
            .pending_tasks
            .iter()
            .filter_map(TaskNode::carry_over)
            .collect(),
    }
}

#[test]
fn carries_over_incomplete_tasks_only() {
    let markdown = r#"# 2026-03-12

## ✅ 今日やること

### 🚨 今日必達
- [ ] 週次ミーティングの準備
  - [x] アジェンダ整理
  - [ ] 共有メモ更新
  - 関連リンクをまとめておく

### 🐻 必達以外
- [x] 完了タスク
- [/] 進行中タスク

## 📝 メモ / 気づき

## 🐕 保留
- [ ] コピペのダイアログ消す
"#;

    let doc = parse_markdown_to_doc(markdown);
    let next = render_doc("2026-03-13", &carried(&doc));

    assert!(next.contains("- [ ] 週次ミーティングの準備"));
    assert!(next.contains("- [ ] 共有メモ更新"));
    assert!(!next.contains("アジェンダ整理"));
    assert!(!next.contains("完了タスク"));
    assert!(next.contains("- [/] 進行中タスク"));
    assert!(next.contains("- [ ] コピペのダイアログ消す"));
}

#[test]
fn keeps_starter_when_no_tasks_to_carry() {
    let markdown = starter_markdown("2026-03-12");
    let doc = parse_markdown_to_doc(&markdown);
    let next = render_doc("2026-03-13", &carried(&doc));
    assert!(next.contains("## ✅ 今日やること"));
    assert!(next.contains("## 🐕 保留"));
}

use work_log::json::parse_entry_json;

#[test]
fn converts_legacy_json_into_markdown_source() {
    let content = r#"{
          "date": "2026-03-09",
          "today": [
            {"task": "Review PR", "checked": false, "mustDo": true, "impact": ""},
            {"task": "Settings screen fix", "checked": true, "mustDo": false, "impact": "UX improvement"}
          ],
          "support": ["Helped Wang with verification"]
        }"#;

    let entry = parse_entry_json(content, "2026-03-09").unwrap();
    assert!(entry.markdown_source.contains("### 🚨 今日必達"));
    assert!(entry.markdown_source.contains("- [ ] Review PR"));
    assert!(entry.markdown_source.contains("- [x] Settings screen fix"));
    assert!(entry
        .markdown_source
        .contains("- support: Helped Wang with verification"));
}

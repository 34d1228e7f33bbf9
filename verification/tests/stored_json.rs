use work_log::entry::restore_entry;
use work_log::json::parse_entry_json;

#[test]
fn text_that_is_not_json_is_refused() {
    let err = parse_entry_json("not json", "2026-03-09").unwrap_err();
    assert!(err.starts_with("編集中データの解析に失敗しました: "));
    assert!(err.len() > "編集中データの解析に失敗しました: ".len());
}

#[test]
fn unknown_documents_are_refused() {
    assert_eq!(
        parse_entry_json(r#"{"foo": 1}"#, "2026-03-09").unwrap_err(),
        "編集中データの形式に対応していません。"
    );
    assert_eq!(
        parse_entry_json("[1, 2]", "2026-03-09").unwrap_err(),
        "編集中データの形式に対応していません。"
    );
}

#[test]
fn current_format_is_read_and_normalized() {
    let e = parse_entry_json(
        r#"{"date": "2026-03-10", "markdownSource": "a\r\nb"}"#,
        "2026-03-09",
    )
    .unwrap();
    assert_eq!(e.date, "2026-03-10");
    assert_eq!(e.markdown_source, "a\nb\n");
}

#[test]
fn blank_date_takes_the_hint() {
    let e = parse_entry_json(r#"{"date": "  ", "markdownSource": "x\n"}"#, "2026-03-09").unwrap();
    assert_eq!(e.date, "2026-03-09");
    assert_eq!(e.markdown_source, "x\n");
}

#[test]
fn current_format_needs_both_strings() {
    let missing = parse_entry_json(r#"{"markdownSource": "x"}"#, "2026-03-09").unwrap_err();
    assert!(missing.starts_with("編集中データの解析に失敗しました: "));
    assert!(missing.contains("date"));
    let wrong = parse_entry_json(r#"{"date": "d", "markdownSource": 3}"#, "2026-03-09").unwrap_err();
    assert!(wrong.starts_with("編集中データの解析に失敗しました: "));
}

#[test]
fn preview_format_is_read() {
    let e = parse_entry_json(
        r#"{"date": "2026-03-01", "markdownPreview": "p\rq"}"#,
        "2026-03-09",
    )
    .unwrap();
    assert_eq!(e.date, "2026-03-01");
    assert_eq!(e.markdown_source, "p\nq\n");
    let h = parse_entry_json(r#"{"markdownPreview": "p"}"#, "2026-03-09").unwrap();
    assert_eq!(h.date, "2026-03-09");
    assert_eq!(h.markdown_source, "p\n");
}

#[test]
fn checklist_format_gives_exact_markdown() {
    let e = parse_entry_json(
        r#"{"date": "2026-03-09",
            "today": [{"task": " A ", "mustDo": true}, ["B", true, false, " speed "]],
            "notes": ["n", "  "],
            "learning": [" rust "]}"#,
        "hint",
    )
    .unwrap();
    assert_eq!(e.date, "2026-03-09");
    assert_eq!(
        e.markdown_source,
        "# 2026-03-09\n\n## ✅ 今日やること\n\n### 🚨 今日必達\n- [ ] A\n\n### 🐻 必達以外\n- [x] B\n  - impact: speed\n\n## 📝 メモ / 気づき\n- learning: rust\n- note: n\n\n## 🐕 保留\n"
    );
}

#[test]
fn checklist_with_blank_date_takes_the_hint() {
    let e = parse_entry_json(r#"{"date": " ", "today": []}"#, "2026-03-09").unwrap();
    assert_eq!(e.date, "2026-03-09");
    assert!(e.markdown_source.starts_with("# 2026-03-09\n"));
}

#[test]
fn checklist_errors_name_their_part() {
    let not_list = parse_entry_json(r#"{"today": 5}"#, "2026-03-09").unwrap_err();
    assert!(not_list.starts_with("旧形式データの解析に失敗しました: "));
    let no_task = parse_entry_json(r#"{"today": [{"checked": true}]}"#, "2026-03-09").unwrap_err();
    assert!(no_task.starts_with("旧形式データの解析に失敗しました: "));
    assert!(no_task.contains("task"));
    let bad_support =
        parse_entry_json(r#"{"today": [], "support": "x"}"#, "2026-03-09").unwrap_err();
    assert!(bad_support.starts_with("旧形式データの解析に失敗しました (support): "));
    let bad_note = parse_entry_json(r#"{"today": [], "notes": [1]}"#, "2026-03-09").unwrap_err();
    assert!(bad_note.starts_with("旧形式データの解析に失敗しました (notes): "));
}

#[test]
fn conversion_errors_read_as_serde_writes_them() {
    let err = |text: &str| parse_entry_json(text, "2026-03-09").unwrap_err();
    assert_eq!(
        err(r#"{"today": 5}"#),
        "旧形式データの解析に失敗しました: invalid type: integer `5`, expected a sequence"
    );
    assert_eq!(
        err(r#"{"today": {"a": 1}}"#),
        "旧形式データの解析に失敗しました: invalid type: map, expected a sequence"
    );
    assert_eq!(
        err(r#"{"today": [{"checked": true}]}"#),
        "旧形式データの解析に失敗しました: missing field `task`"
    );
    assert_eq!(
        err(r#"{"today": [{"task": 1, "checked": "x"}]}"#),
        "旧形式データの解析に失敗しました: invalid type: string \"x\", expected a boolean"
    );
    assert_eq!(
        err(r#"{"today": [["a", true, false, "", 1]]}"#),
        "旧形式データの解析に失敗しました: invalid length 5, expected fewer elements in array"
    );
    assert_eq!(
        err(r#"{"today": [[7, true, false, "", 1]]}"#),
        "旧形式データの解析に失敗しました: invalid type: integer `7`, expected a string"
    );
    assert_eq!(
        err(r#"{"today": [[]]}"#),
        "旧形式データの解析に失敗しました: invalid length 0, expected struct LegacyTodayItem with 4 elements"
    );
    assert_eq!(
        err(r#"{"today": ["x\ty"]}"#),
        "旧形式データの解析に失敗しました: invalid type: string \"x\\ty\", expected struct LegacyTodayItem"
    );
    assert_eq!(
        err(r#"{"today": [], "notes": [null]}"#),
        "旧形式データの解析に失敗しました (notes): invalid type: unit value, expected a string"
    );
    assert_eq!(
        err(r#"{"today": [], "support": false}"#),
        "旧形式データの解析に失敗しました (support): invalid type: boolean `false`, expected a sequence"
    );
    assert_eq!(
        err(r#"{"date": 1.5, "markdownSource": "x"}"#),
        "編集中データの解析に失敗しました: invalid type: floating point `1.5`, expected a string"
    );
    assert_eq!(
        err(r#"{"markdownSource": "x"}"#),
        "編集中データの解析に失敗しました: missing field `date`"
    );
    assert_eq!(
        err(r#"{"date": "d", "markdownSource": -3}"#),
        "編集中データの解析に失敗しました: invalid type: integer `-3`, expected a string"
    );
}

#[test]
fn saved_days_are_restored_state_first() {
    let state = r#"{"date": "2026-03-09", "markdownSource": "from state"}"#;
    let e = restore_entry("2026-03-09", Some(state), Some("from file")).unwrap().unwrap();
    assert_eq!(e.markdown_source, "from state\n");
    let f = restore_entry("2026-03-09", Some("not json"), Some("from\r\nfile")).unwrap().unwrap();
    assert_eq!(f.date, "2026-03-09");
    assert_eq!(f.markdown_source, "from\nfile\n");
    let saved = "# 2026-03-09\n- [ ] a\n";
    assert_eq!(
        restore_entry("2026-03-09", None, Some(saved)).unwrap().unwrap().markdown_source,
        saved
    );
    assert!(restore_entry("2026-03-09", None, None).unwrap().is_none());
    assert_eq!(
        restore_entry("bad", None, Some("x")).unwrap_err(),
        "日付形式が不正です: bad"
    );
    let kept = restore_entry("bad", Some(state), None).unwrap().unwrap();
    assert_eq!(kept.date, "2026-03-09");
}

#[test]
fn float_errors_are_written_in_plain_decimal() {
    let err = |text: &str| parse_entry_json(text, "2026-03-09").unwrap_err();
    assert_eq!(
        err(r#"{"date": 1e20, "markdownSource": "x"}"#),
        "編集中データの解析に失敗しました: invalid type: floating point `100000000000000000000.0`, expected a string"
    );
    assert_eq!(
        err(r#"{"date": 1.5e-7, "markdownSource": "x"}"#),
        "編集中データの解析に失敗しました: invalid type: floating point `0.00000015`, expected a string"
    );
    assert_eq!(
        err(r#"{"date": -2.5E300, "markdownSource": "x"}"#),
        format!(
            "編集中データの解析に失敗しました: invalid type: floating point `-25{}.0`, expected a string",
            "0".repeat(299)
        )
    );
    assert_eq!(
        err(r#"{"today": [[true]]}"#),
        "旧形式データの解析に失敗しました: invalid type: boolean `true`, expected a string"
    );
}

#[test]
fn saved_state_reads_back_as_saved() {
    let e = parse_entry_json(
        r##"{"date": "2026-03-09", "markdownSource": "# 2026-03-09\n- [ ] a\n"}"##,
        "2026-03-09",
    )
    .unwrap();
    assert_eq!(e.date, "2026-03-09");
    assert_eq!(e.markdown_source, "# 2026-03-09\n- [ ] a\n");
}

#[test]
fn plain_float_texts() {
    assert_eq!(work_log::float_text::plain_float_text("1e+20"), "100000000000000000000.0");
    assert_eq!(work_log::float_text::plain_float_text("1.234e-5"), "0.00001234");
    assert_eq!(work_log::float_text::plain_float_text("1.25e1"), "12.5");
    assert_eq!(work_log::float_text::plain_float_text("-7e-0"), "-7.0");
    assert_eq!(work_log::float_text::plain_float_text("1.5"), "1.5");
    assert_eq!(work_log::float_text::plain_float_text("1.e5"), "1.e5");
}

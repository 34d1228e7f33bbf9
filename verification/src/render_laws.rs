//! Laws of the rendered Markdown.
use vstd::prelude::*;
use crate::text::lines_text;
use crate::task::{Task, empty_doc};
use crate::render::{doc_text, doc_lines, starter_text, forest_lines, title_line};

verus! {

/// A new day's starter Markdown is exactly what rendering a day with no tasks writes.
pub proof fn lemma_starter_is_empty_render(date: Seq<char>)
    ensures
        doc_text(date, empty_doc()) == starter_text(date),
{
    reveal_strlit("## ✅ 今日やること");
    reveal_strlit("### 🚨 今日必達");
    reveal_strlit("### 🐻 必達以外");
    reveal_strlit("## 📝 メモ / 気づき");
    reveal_strlit("## 🐕 保留");
    reveal_strlit("\n\n## ✅ 今日やること\n\n### 🚨 今日必達\n\n### 🐻 必達以外\n\n## 📝 メモ / 気づき\n\n## 🐕 保留\n");
    let e = Seq::<Task>::empty();
    assert(forest_lines(e, 0) == Seq::<Seq<char>>::empty());
    let ls = doc_lines(date, empty_doc());
    assert(ls =~= seq![
        title_line(date),
        Seq::empty(),
        "## ✅ 今日やること"@,
        Seq::empty(),
        "### 🚨 今日必達"@,
        Seq::empty(),
        "### 🐻 必達以外"@,
        Seq::empty(),
        "## 📝 メモ / 気づき"@,
        Seq::empty(),
        "## 🐕 保留"@,
    ]);
    reveal_with_fuel(lines_text, 12);
    assert(lines_text(ls) =~= starter_text(date));
}

} // verus!

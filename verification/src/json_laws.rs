//! Laws of the checklist format: every note of its lists reaches the Markdown it is
//! turned into.
use vstd::prelude::*;
use crate::text::{trim, lines_text, contains, occurs_at};
use crate::json::{
    Json, json_field, json_strings, prefixed_lines, prefixed_of, today_items, legacy_entry,
    legacy_text, field_or_empty,
};

verus! {

/// The text of two runs of lines is the text of each, one after the other.
pub proof fn lemma_lines_text_concat(a: Seq<Seq<char>>, b: Seq<Seq<char>>)
    ensures
        lines_text(a + b) == lines_text(a) + lines_text(b),
    decreases b.len(),
{
    if b.len() == 0 {
        assert(a + b =~= a);
        assert(lines_text(a) + lines_text(b) =~= lines_text(a));
    } else {
        lemma_lines_text_concat(a, b.drop_last());
        assert((a + b).drop_last() =~= a + b.drop_last());
        assert((a + b).last() == b.last());
        assert(lines_text(a) + (lines_text(b.drop_last()) + b.last() + seq!['\n']) =~= lines_text(a)
            + lines_text(b.drop_last()) + b.last() + seq!['\n']);
    }
}

/// A line after the first stands in the text of the lines between two newlines.
pub proof fn lemma_line_in_text(ls: Seq<Seq<char>>, i: int)
    requires
        1 <= i < ls.len(),
    ensures
        contains(lines_text(ls), seq!['\n'] + ls[i] + seq!['\n']),
{
    let pre = ls.take(i);
    let rest = ls.skip(i);
    assert(ls =~= pre + rest);
    lemma_lines_text_concat(pre, rest);
    assert(rest =~= seq![ls[i]] + rest.drop_first());
    lemma_lines_text_concat(seq![ls[i]], rest.drop_first());
    let one = seq![ls[i]];
    assert(one.drop_last() =~= Seq::<Seq<char>>::empty());
    assert(lines_text(one.drop_last()) == Seq::<char>::empty());
    assert(one.last() == ls[i]);
    assert(lines_text(one) =~= ls[i] + seq!['\n']);
    let p = lines_text(pre);
    assert(p == lines_text(pre.drop_last()) + pre.last() + seq!['\n']);
    assert(p.len() >= 1 && p[p.len() - 1] == '\n');
    let text = lines_text(ls);
    let pat = seq!['\n'] + ls[i] + seq!['\n'];
    assert(text == p + (ls[i] + seq!['\n']) + lines_text(rest.drop_first()));
    let k = p.len() - 1;
    assert(text.subrange(k, k + pat.len()) =~= pat);
    assert(occurs_at(text, pat, k));
}

/// The texts of a list of strings are its strings, one for one.
proof fn lemma_json_strings_each(xs: Seq<Json>)
    requires
        json_strings(xs) is Ok,
    ensures
        json_strings(xs)->Ok_0.len() == xs.len(),
        forall|j: int| 0 <= j < xs.len() ==> xs[j] == Json::Str(#[trigger] json_strings(xs)->Ok_0[j]),
    decreases xs.len(),
{
    if xs.len() > 0 {
        lemma_json_strings_each(xs.drop_last());
        let ss = json_strings(xs)->Ok_0;
        assert forall|j: int| 0 <= j < xs.len() implies xs[j] == Json::Str(#[trigger] ss[j]) by {
            if j < xs.len() - 1 {
                assert(xs[j] == xs.drop_last()[j]);
            }
        }
    }
}

/// Every text that is not blank gives its note line.
proof fn lemma_prefixed_holds(ss: Seq<Seq<char>>, prefix: Seq<char>, j: int)
    requires
        0 <= j < ss.len(),
        trim(ss[j]).len() > 0,
    ensures
        prefixed_lines(ss, prefix).contains(seq!['-', ' '] + prefix + seq![':', ' '] + trim(ss[j])),
    decreases ss.len(),
{
    let line = seq!['-', ' '] + prefix + seq![':', ' '] + trim(ss[j]);
    let rest = prefixed_lines(ss.drop_last(), prefix);
    if j < ss.len() - 1 {
        lemma_prefixed_holds(ss.drop_last(), prefix, j);
        assert(ss.drop_last()[j] == ss[j]);
        let k = choose|k: int| 0 <= k < rest.len() && rest[k] == line;
        assert(prefixed_lines(ss, prefix)[k] == line);
    } else {
        let r = prefixed_lines(ss, prefix);
        assert(r == rest.push(line));
        assert(r[r.len() - 1] == line);
    }
}

/// The note lists of the checklist format and the prefix of their lines.
pub open spec fn note_list(key: Seq<char>, prefix: Seq<char>) -> bool {
    ||| key == "support"@ && prefix == "support"@
    ||| key == "improvements"@ && prefix == "improvement"@
    ||| key == "learning"@ && prefix == "learning"@
    ||| key == "notes"@ && prefix == "note"@
}

/// A checklist document whose lists all read is turned into Markdown, and every
/// non-blank string of its `support`, `improvements`, `learning` and `notes` lists stands
/// there as a line of its own: `- support: …`, `- improvement: …`, `- learning: …` or
/// `- note: …` with the string trimmed.
pub proof fn lemma_legacy_notes_kept(
    v: Json,
    hint: Seq<char>,
    key: Seq<char>,
    prefix: Seq<char>,
    xs: Seq<Json>,
    j: int,
    s: Seq<char>,
)
    requires
        note_list(key, prefix),
        today_items(v) is Ok,
        prefixed_of(v, "support"@, "support"@) is Ok,
        prefixed_of(v, "improvements"@, "improvement"@) is Ok,
        prefixed_of(v, "learning"@, "learning"@) is Ok,
        prefixed_of(v, "notes"@, "note"@) is Ok,
        json_field(v, key) == Some(Json::Array(xs)),
        0 <= j < xs.len(),
        xs[j] == Json::Str(s),
        trim(s).len() > 0,
    ensures
        legacy_entry(v, hint) is Ok,
        contains(
            legacy_entry(v, hint)->Ok_0.1,
            seq!['\n'] + (seq!['-', ' '] + prefix + seq![':', ' '] + trim(s)) + seq!['\n'],
        ),
{
    let line = seq!['-', ' '] + prefix + seq![':', ' '] + trim(s);
    assert(field_or_empty(v, key) == Json::Array(xs));
    lemma_json_strings_each(xs);
    let ss = json_strings(xs)->Ok_0;
    assert(ss[j] == s);
    lemma_prefixed_holds(ss, prefix, j);
    let own = prefixed_lines(ss, prefix);
    assert(prefixed_of(v, key, prefix) == Ok::<Seq<Seq<char>>, Seq<char>>(own));
    let a = prefixed_of(v, "support"@, "support"@)->Ok_0;
    let b = prefixed_of(v, "improvements"@, "improvement"@)->Ok_0;
    let c = prefixed_of(v, "learning"@, "learning"@)->Ok_0;
    let d = prefixed_of(v, "notes"@, "note"@)->Ok_0;
    let notes = a + b + c + d;
    let k = choose|k: int| 0 <= k < own.len() && own[k] == line;
    let at: int = if key == "support"@ && prefix == "support"@ {
        k
    } else if key == "improvements"@ && prefix == "improvement"@ {
        a.len() + k
    } else if key == "learning"@ && prefix == "learning"@ {
        a.len() + b.len() + k
    } else {
        a.len() + b.len() + c.len() + k
    };
    assert(0 <= at < notes.len() && notes[at] == line);
    let items = today_items(v)->Ok_0;
    let r = legacy_entry(v, hint)->Ok_0;
    let head = seq![
        crate::render::title_line(r.0),
        Seq::empty(),
        crate::render::heading_today(),
        Seq::empty(),
        crate::render::heading_must_do(),
    ] + crate::json::items_lines(items, true) + seq![Seq::empty(), crate::render::heading_queued()]
        + crate::json::items_lines(items, false) + seq![Seq::empty(), crate::render::heading_memo()];
    let ls = head + notes + seq![Seq::empty(), crate::render::heading_pending()];
    assert(r.1 == legacy_text(r.0, items, notes));
    assert(legacy_text(r.0, items, notes) == lines_text(ls));
    assert(ls[head.len() + at] == line);
    lemma_line_in_text(ls, head.len() + at);
}

} // verus!

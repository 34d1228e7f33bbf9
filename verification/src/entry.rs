//! Stored days: creating a new day from the previous one, and normalizing what is saved.
use vstd::prelude::*;
use crate::text::{trim, trim_str, chars_of, string_of, push_char};
use crate::task::{carry_doc, carry_over_doc};
use crate::render::{EntryPayload, starter_text, doc_text, render_doc};
use crate::parse::{parse_doc, parse_markdown_to_doc};
use crate::carry_laws::lemma_carry_doc_height;
use crate::json::{parse_entry_json, entry_of_text, entry_of_json, entry_lookup, first_entry_error, entry_error, Json};
use crate::date::{year_of, year_from_date};

verus! {

broadcast use vstd::string::group_string_axioms;

/// The Markdown of a new day: the starter when there is no previous day, otherwise the
/// previous day's unfinished tasks, carried over and rendered under the new date.
pub open spec fn carried_text(date: Seq<char>, previous: Option<Seq<char>>) -> Seq<char> {
    match previous {
        None => starter_text(date),
        Some(md) => doc_text(date, carry_doc(parse_doc(md))),
    }
}

/// The Markdown of the previous day, if there is one.
pub open spec fn previous_markdown(previous: Option<&EntryPayload>) -> Option<Seq<char>> {
    match previous {
        Some(p) => Some(p.markdown_source@),
        None => None,
    }
}

/// A new day built from the previous day's entry, if any (see `carried_text`).
pub fn carry_over_entry(date: &str, previous: Option<&EntryPayload>) -> (e: EntryPayload)
    ensures
        e.date@ == date@,
        e.markdown_source@ == carried_text(date@, previous_markdown(previous)),
{
    match previous {
        None => EntryPayload::empty(date),
        Some(prev) => {
            let doc = parse_markdown_to_doc(prev.markdown_source.as_str());
            let next = carry_over_doc(&doc);
            proof {
                lemma_carry_doc_height(doc@);
            }
            EntryPayload { date: date.to_string(), markdown_source: render_doc(date, &next) }
        },
    }
}

/// Every CRLF pair and every other lone CR becomes a LF.
pub open spec fn unify_newlines(s: Seq<char>) -> Seq<char>
    decreases s.len(),
{
    if s.len() == 0 {
        Seq::empty()
    } else if s[0] == '\r' && s.len() > 1 && s[1] == '\n' {
        seq!['\n'] + unify_newlines(s.skip(2))
    } else if s[0] == '\r' {
        seq!['\n'] + unify_newlines(s.drop_first())
    } else {
        seq![s[0]] + unify_newlines(s.drop_first())
    }
}

/// Text with LF line endings that ends with a LF.
pub open spec fn normalized_text(s: Seq<char>) -> Seq<char> {
    let u = unify_newlines(s);
    if u.len() > 0 && u.last() == '\n' {
        u
    } else {
        u.push('\n')
    }
}

/// Turns CRLF and CR line endings into LF and makes the text end with a LF.
pub fn normalize_line_endings(text: &str) -> (r: String)
    ensures
        r@ == normalized_text(text@),
{
    let v = chars_of(text);
    let mut out: Vec<char> = Vec::new();
    let mut i: usize = 0;
    assert(v@.skip(0) == v@);
    while i < v.len()
        invariant
            i <= v@.len(),
            v@ == text@,
            unify_newlines(v@) == out@ + unify_newlines(v@.skip(i as int)),
        decreases v@.len() - i,
    {
        let ghost t = v@.skip(i as int);
        if v[i] == '\r' && i + 1 < v.len() && v[i + 1] == '\n' {
            out.push('\n');
            assert(t.skip(2) == v@.skip(i + 2));
            i = i + 2;
        } else if v[i] == '\r' {
            out.push('\n');
            assert(t.drop_first() == v@.skip(i + 1));
            i = i + 1;
        } else {
            out.push(v[i]);
            assert(t.drop_first() == v@.skip(i + 1));
            i = i + 1;
        }
    }
    assert(v@.skip(i as int) =~= Seq::<char>::empty());
    assert(out@ + Seq::<char>::empty() == out@);
    if out.len() == 0 || out[out.len() - 1] != '\n' {
        out.push('\n');
    }
    string_of(out.as_slice())
}

/// A day read from its Markdown file: the date, and the Markdown with normalized line endings.
pub fn markdown_entry(date: &str, content: &str) -> (e: EntryPayload)
    ensures
        e.date@ == date@,
        e.markdown_source@ == normalized_text(content@),
{
    EntryPayload { date: date.to_string(), markdown_source: normalize_line_endings(content) }
}

/// What is saved for a day: the date trimmed and the Markdown with normalized line endings.
pub fn normalize_entry(entry: &EntryPayload) -> (e: EntryPayload)
    ensures
        e.date@ == trim(entry.date@),
        e.markdown_source@ == normalized_text(entry.markdown_source@),
{
    EntryPayload {
        date: trim_str(entry.date.as_str()),
        markdown_source: normalize_line_endings(entry.markdown_source.as_str()),
    }
}

/// Unifying newlines leaves no carriage return.
pub proof fn lemma_unify_no_cr(s: Seq<char>)
    ensures
        forall|i: int| 0 <= i < unify_newlines(s).len() ==> #[trigger] unify_newlines(s)[i] != '\r',
    decreases s.len(),
{
    if s.len() > 0 {
        let rest = if s[0] == '\r' && s.len() > 1 && s[1] == '\n' {
            s.skip(2)
        } else {
            s.drop_first()
        };
        lemma_unify_no_cr(rest);
        let head = if s[0] == '\r' {
            '\n'
        } else {
            s[0]
        };
        let u = unify_newlines(s);
        assert(u == seq![head] + unify_newlines(rest));
        assert forall|i: int| 0 <= i < u.len() implies #[trigger] u[i] != '\r' by {
            if i > 0 {
                assert(u[i] == unify_newlines(rest)[i - 1]);
            }
        }
    }
}

/// A text without carriage returns is left as it is.
proof fn lemma_unify_without_cr(s: Seq<char>)
    requires
        forall|i: int| 0 <= i < s.len() ==> #[trigger] s[i] != '\r',
    ensures
        unify_newlines(s) == s,
    decreases s.len(),
{
    if s.len() > 0 {
        let t = s.drop_first();
        assert forall|i: int| 0 <= i < t.len() implies #[trigger] t[i] != '\r' by {
            assert(t[i] == s[i + 1]);
        }
        lemma_unify_without_cr(t);
        assert(seq![s[0]] + t =~= s);
    }
}

/// Normalizing line endings a second time changes nothing: the Markdown that saving
/// writes is what reading the Markdown file gives back.
pub proof fn lemma_normalized_text_stable(s: Seq<char>)
    ensures
        normalized_text(normalized_text(s)) == normalized_text(s),
{
    let u = unify_newlines(s);
    let n = normalized_text(s);
    lemma_unify_no_cr(s);
    assert forall|i: int| 0 <= i < n.len() implies #[trigger] n[i] != '\r' by {
        if i < u.len() {
            assert(n[i] == u[i]);
        }
    }
    lemma_unify_without_cr(n);
}

/// The text of an optional string.
pub open spec fn option_text(o: Option<&str>) -> Option<Seq<char>> {
    match o {
        Some(t) => Some(t@),
        None => None,
    }
}

/// The meaning of a restored day or of its error.
pub open spec fn restore_result(r: Result<Option<EntryPayload>, String>) -> Result<
    Option<(Seq<char>, Seq<char>)>,
    Seq<char>,
> {
    match r {
        Ok(Some(e)) => Ok(Some((e.date@, e.markdown_source@))),
        Ok(None) => Ok(None),
        Err(e) => Err(e@),
    }
}

/// A saved day from the texts of its files, each absent when the file is: the editing
/// state when it reads (see `entry_of_text`); otherwise, for a date with a year, the
/// Markdown file with normalized line endings, or nothing when there is none; otherwise
/// the error for a date without a year.
pub open spec fn restored(date: Seq<char>, state: Option<Seq<char>>, markdown: Option<Seq<char>>) -> Result<
    Option<(Seq<char>, Seq<char>)>,
    Seq<char>,
> {
    if state is Some && entry_of_text(state->0, date) is Ok {
        Ok(Some(entry_of_text(state->0, date)->Ok_0))
    } else {
        match year_of(date) {
            Err(e) => Err(e),
            Ok(_) => match markdown {
                Some(c) => Ok(Some((date, normalized_text(c)))),
                None => Ok(None),
            },
        }
    }
}

/// A saved day from the texts of its editing state and its Markdown file (see `restored`).
pub fn restore_entry(date: &str, state: Option<&str>, markdown: Option<&str>) -> (r: Result<
    Option<EntryPayload>,
    String,
>)
    ensures
        restore_result(r) == restored(date@, option_text(state), option_text(markdown)),
{
    match state {
        Some(t) => match parse_entry_json(t, date) {
            Ok(e) => {
                return Ok(Some(e));
            },
            Err(_) => {},
        },
        None => {},
    }
    match year_from_date(date) {
        Err(e) => {
            return Err(e);
        },
        Ok(_) => {},
    }
    match markdown {
        Some(c) => Ok(Some(markdown_entry(date, c))),
        None => Ok(None),
    }
}

/// A day saved without editing state is restored from its Markdown file exactly as it was
/// saved.
pub proof fn lemma_restore_from_markdown(date: Seq<char>, text: Seq<char>)
    requires
        year_of(date) is Ok,
    ensures
        restored(date, None, Some(normalized_text(text))) == Ok::<
            Option<(Seq<char>, Seq<char>)>,
            Seq<char>,
        >(Some((date, normalized_text(text)))),
{
    lemma_normalized_text_stable(text);
}

/// Text with normalized line endings holds no carriage return and ends with a newline.
pub proof fn lemma_normalized_text_shape(s: Seq<char>)
    ensures
        forall|i: int| 0 <= i < normalized_text(s).len() ==> #[trigger] normalized_text(s)[i] != '\r',
        normalized_text(s).len() > 0,
        normalized_text(s).last() == '\n',
{
    let u = unify_newlines(s);
    let n = normalized_text(s);
    lemma_unify_no_cr(s);
    assert forall|i: int| 0 <= i < n.len() implies #[trigger] n[i] != '\r' by {
        if i < u.len() {
            assert(n[i] == u[i]);
        }
    }
}

/// A day saved in the current format reads back, with its own date as the hint, as that
/// date and that Markdown: the document `{"date": d, "markdownSource": m}` with `m`'s line
/// endings normalized.
pub proof fn lemma_saved_state_reads_back(d: Seq<char>, m: Seq<char>)
    ensures
        entry_of_json(
            Json::Object(seq![("date"@, Json::Str(d)), ("markdownSource"@, Json::Str(normalized_text(m)))]),
            d,
        ) == Ok::<(Seq<char>, Seq<char>), Seq<char>>((d, normalized_text(m))),
{
    let n = normalized_text(m);
    let es = seq![("date"@, Json::Str(d)), ("markdownSource"@, Json::Str(n))];
    reveal_strlit("date");
    reveal_strlit("markdownSource");
    assert("date"@ != "markdownSource"@) by {
        assert("date"@.len() != "markdownSource"@.len());
    }
    assert(es.drop_first() =~= seq![("markdownSource"@, Json::Str(n))]);
    assert(entry_lookup(es, "date"@) == Some(Json::Str(d)));
    assert(entry_lookup(es.drop_first(), "markdownSource"@) == Some(Json::Str(n)));
    assert(entry_lookup(es, "markdownSource"@) == Some(Json::Str(n)));
    assert(es.drop_last() =~= seq![("date"@, Json::Str(d))]);
    assert(es.drop_last().drop_last() =~= Seq::<(Seq<char>, Json)>::empty());
    assert(first_entry_error(es.drop_last().drop_last(), false) is None);
    assert(entry_error(es.drop_last().last(), false) is None);
    assert(first_entry_error(es.drop_last(), false) is None);
    assert(entry_error(es.last(), false) is None);
    assert(first_entry_error(es, false) is None);
    lemma_normalized_text_stable(m);
}

} // verus!

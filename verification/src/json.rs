//! Stored editing state in JSON: the current format, the older preview format, and the
//! oldest checklist format, which is turned into Markdown.
use vstd::prelude::*;
use crate::text::{same_text, trim, trim_str, lines_text, push_char, str_result, chars_of};
use crate::task::strings_view;
use crate::render::{
    EntryPayload, title_line, heading_today, heading_must_do, heading_queued, heading_memo,
    heading_pending, join_lines,
};
use crate::entry::{normalized_text, normalize_line_endings};
use crate::date::{decimal, push_decimal};
use crate::float_text::{float_text, plain_float_text};

verus! {

broadcast use vstd::string::group_string_axioms;

/// A JSON document as read from text.
pub enum JsonValue {
    Null,
    Bool(bool),
    Number(String),
    Str(String),
    Array(Vec<JsonValue>),
    Object(Vec<(String, JsonValue)>),
}

/// The meaning of a JSON document: numbers by their text, objects as their entries in order.
pub enum Json {
    Null,
    Bool(bool),
    Number(Seq<char>),
    Str(Seq<char>),
    Array(Seq<Json>),
    Object(Seq<(Seq<char>, Json)>),
}

impl JsonValue {
    /// The meaning of this document.
    pub open spec fn model(&self) -> Json
        decreases self,
    {
        match self {
            JsonValue::Null => Json::Null,
            JsonValue::Bool(b) => Json::Bool(*b),
            JsonValue::Number(n) => Json::Number(n@),
            JsonValue::Str(s) => Json::Str(s@),
            JsonValue::Array(items) => Json::Array(json_items_model(items@)),
            JsonValue::Object(entries) => Json::Object(json_entries_model(entries@)),
        }
    }
}

/// The meaning of a list of documents.
pub open spec fn json_items_model(s: Seq<JsonValue>) -> Seq<Json>
    decreases s,
{
    Seq::new(s.len(), |i: int| if 0 <= i < s.len() { s[i].model() } else { arbitrary() })
}

/// The meaning of the entries of an object.
pub open spec fn json_entries_model(s: Seq<(String, JsonValue)>) -> Seq<(Seq<char>, Json)>
    decreases s,
{
    Seq::new(
        s.len(),
        |i: int|
            if 0 <= i < s.len() {
                (s[i].0@, s[i].1.model())
            } else {
                arbitrary()
            },
    )
}

impl View for JsonValue {
    type V = Json;

    open spec fn view(&self) -> Json {
        self.model()
    }
}

/// What `serde_json::from_str::<serde_json::Value>` makes of a text: a document, or the
/// text of its error.
pub uninterp spec fn json_text_value(text: Seq<char>) -> Result<Json, Seq<char>>;

/// The meaning of a read document or of its error text.
pub open spec fn json_result_model(r: Result<JsonValue, String>) -> Result<Json, Seq<char>> {
    match r {
        Ok(v) => Ok(v@),
        Err(e) => Err(e@),
    }
}

/// `serde_json::Value`, carried only inside the reading of a text.
#[verifier::external_type_specification]
#[verifier::external_body]
pub struct ExJsonDocument(serde_json::Value);

/// Calls `serde_json::from_str::<serde_json::Value>` and hands back the document, converted
/// one value for one value, or the error's text. The contract claims only that the result is
/// what `json_text_value` names for this text: serde_json's JSON grammar is not restated.
#[verifier::external_body]
fn parse_json_text(text: &str) -> (r: Result<JsonValue, String>)
    ensures
        json_result_model(r) == json_text_value(text@),
{
    match serde_json::from_str::<serde_json::Value>(text) {
        Ok(v) => Ok(json_from_document(v)),
        Err(e) => Err(e.to_string()),
    }
}

/// Converts a `serde_json::Value` into a `JsonValue`, variant for variant (a number by its
/// `Display` text, an object's entries in the map's order); part of `parse_json_text`.
#[verifier::external_body]
fn json_from_document(v: serde_json::Value) -> JsonValue {
    match v {
        serde_json::Value::Null => JsonValue::Null,
        serde_json::Value::Bool(b) => JsonValue::Bool(b),
        serde_json::Value::Number(n) => JsonValue::Number(n.to_string()),
        serde_json::Value::String(s) => JsonValue::Str(s),
        serde_json::Value::Array(a) => JsonValue::Array(a.into_iter().map(json_from_document).collect()),
        serde_json::Value::Object(m) => JsonValue::Object(
            m.into_iter().map(|(k, v)| (k, json_from_document(v))).collect(),
        ),
    }
}

/// The value under `key` in a list of object entries: the first entry with that key.
pub open spec fn entry_lookup(es: Seq<(Seq<char>, Json)>, key: Seq<char>) -> Option<Json>
    decreases es.len(),
{
    if es.len() == 0 {
        None
    } else if es[0].0 == key {
        Some(es[0].1)
    } else {
        entry_lookup(es.drop_first(), key)
    }
}

/// `serde_json::Value::get` with a string key: the value under `key` of an object; nothing
/// for any other document.
pub open spec fn json_field(v: Json, key: Seq<char>) -> Option<Json> {
    match v {
        Json::Object(es) => entry_lookup(es, key),
        _ => None,
    }
}

/// The meaning of an optional borrowed document.
pub open spec fn option_json(o: Option<&JsonValue>) -> Option<Json> {
    match o {
        Some(v) => Some(v@),
        None => None,
    }
}

/// The value under `key` of an object (see `json_field`).
pub fn json_get<'a>(value: &'a JsonValue, key: &str) -> (r: Option<&'a JsonValue>)
    ensures
        option_json(r) == json_field(value@, key@),
{
    match value {
        JsonValue::Object(entries) => {
            let ghost es = json_entries_model(entries@);
            let mut i: usize = 0;
            assert(es.skip(0) == es);
            while i < entries.len()
                invariant
                    i <= entries@.len(),
                    es == json_entries_model(entries@),
                    value@ == Json::Object(es),
                    entry_lookup(es, key@) == entry_lookup(es.skip(i as int), key@),
                decreases entries@.len() - i,
            {
                assert(es[i as int] == (entries@[i as int].0@, entries@[i as int].1@));
                if same_text(entries[i].0.as_str(), key) {
                    return Some(&entries[i].1);
                }
                assert(es.skip(i as int).drop_first() == es.skip(i + 1));
                i = i + 1;
            }
            None
        },
        _ => None,
    }
}

/// The text of a string document (`serde_json::Value::as_str`).
pub open spec fn json_str(v: Option<Json>) -> Option<Seq<char>> {
    match v {
        Some(Json::Str(s)) => Some(s),
        _ => None,
    }
}

/// The text of a string document.
pub fn json_as_str(v: Option<&JsonValue>) -> (r: Option<&str>)
    ensures
        match r {
            Some(s) => json_str(option_json(v)) == Some(s@),
            None => json_str(option_json(v)) is None,
        },
{
    match v {
        Some(JsonValue::Str(s)) => Some(s.as_str()),
        _ => None,
    }
}

/// `<str as Debug>::fmt`: the text in double quotes with its special characters escaped,
/// as `format!("{:?}", s)` writes it.
pub uninterp spec fn debug_text(s: Seq<char>) -> Seq<char>;

/// Writes `s` as `format!("{:?}", s)` does, by `<str as Debug>::fmt`. The contract claims
/// only that the result is what `debug_text` names for this text: the escaping rules are
/// not restated.
#[verifier::external_body]
fn debug_quoted(s: &str) -> (r: String)
    ensures
        r@ == debug_text(s@),
{
    format!("{:?}", s)
}

/// A number text with a `.` or an exponent: serde_json writes every floating-point number
/// so, and no integer.
pub open spec fn float_written(t: Seq<char>) -> bool {
    exists|i: int| 0 <= i < t.len() && (t[i] == '.' || t[i] == 'e' || t[i] == 'E')
}

/// serde's description of a document of the wrong type (`serde::de::Unexpected`): `unit
/// value`, ``boolean `b` ``, ``integer `n` ``, ``floating point `x` ``, `string "…"`,
/// `sequence` or `map`. A floating-point number is written in plain decimal notation, as
/// serde writes its value (see `float_text`).
pub open spec fn unexpected(v: Json) -> Seq<char> {
    match v {
        Json::Null => "unit value"@,
        Json::Bool(b) => if b {
            "boolean `true`"@
        } else {
            "boolean `false`"@
        },
        Json::Number(t) => if float_written(t) {
            "floating point `"@ + float_text(t) + "`"@
        } else {
            "integer `"@ + t + "`"@
        },
        Json::Str(s) => "string "@ + debug_text(s),
        Json::Array(_) => "sequence"@,
        Json::Object(_) => "map"@,
    }
}

/// serde's error for a document of the wrong type.
pub open spec fn invalid_type(v: Json, expected: Seq<char>) -> Seq<char> {
    "invalid type: "@ + unexpected(v) + ", expected "@ + expected
}

/// serde's error for a list of the wrong length.
pub open spec fn invalid_length(n: nat, expected: Seq<char>) -> Seq<char> {
    "invalid length "@ + decimal(n) + ", expected "@ + expected
}

/// What serde expects of a string field.
pub open spec fn expected_string() -> Seq<char> {
    "a string"@
}

/// What serde expects of a boolean field.
pub open spec fn expected_bool() -> Seq<char> {
    "a boolean"@
}

/// What serde expects of a list.
pub open spec fn expected_sequence() -> Seq<char> {
    "a sequence"@
}

/// What serde expects of a checklist item.
pub open spec fn expected_item() -> Seq<char> {
    "struct LegacyTodayItem"@
}

/// What serde expects of a checklist item written as an array.
pub open spec fn item_elements() -> Seq<char> {
    "struct LegacyTodayItem with 4 elements"@
}

/// What serde expects of an array that holds more values than the item has fields.
pub open spec fn fewer_elements() -> Seq<char> {
    "fewer elements in array"@
}

/// Error detail: a required field is absent.
pub open spec fn missing_field(name: Seq<char>) -> Seq<char> {
    "missing field `"@ + name + "`"@
}

/// Prefix of the errors in reading the current format.
pub open spec fn state_error_prefix() -> Seq<char> {
    "編集中データの解析に失敗しました: "@
}

/// Prefix of the errors in reading the checklist format.
pub open spec fn legacy_error_prefix() -> Seq<char> {
    "旧形式データの解析に失敗しました: "@
}

/// Prefix of the errors in reading one list of notes of the checklist format.
pub open spec fn legacy_key_error_prefix(key: Seq<char>) -> Seq<char> {
    "旧形式データの解析に失敗しました ("@ + key + "): "@
}

/// The error for a document in none of the known formats.
pub open spec fn unsupported_format() -> Seq<char> {
    "編集中データの形式に対応していません。"@
}

/// A required string field.
pub open spec fn required_string(o: Option<Json>, name: Seq<char>) -> Result<Seq<char>, Seq<char>> {
    match o {
        Some(Json::Str(s)) => Ok(s),
        Some(x) => Err(invalid_type(x, expected_string())),
        None => Err(missing_field(name)),
    }
}

/// An optional string field, empty when absent.
pub open spec fn optional_string(o: Option<Json>) -> Result<Seq<char>, Seq<char>> {
    match o {
        Some(Json::Str(s)) => Ok(s),
        Some(x) => Err(invalid_type(x, expected_string())),
        None => Ok(Seq::empty()),
    }
}

/// An optional boolean field, false when absent.
pub open spec fn optional_bool(o: Option<Json>) -> Result<bool, Seq<char>> {
    match o {
        Some(Json::Bool(b)) => Ok(b),
        Some(x) => Err(invalid_type(x, expected_bool())),
        None => Ok(false),
    }
}

/// One item of the checklist format.
pub struct LegacyItem {
    pub task: Seq<char>,
    pub checked: bool,
    pub must_do: bool,
    pub impact: Seq<char>,
}

/// An item from its four fields: `task` required, the others defaulting to false and "".
pub open spec fn item_of_fields(
    task: Option<Json>,
    checked: Option<Json>,
    must_do: Option<Json>,
    impact: Option<Json>,
) -> Result<LegacyItem, Seq<char>> {
    match required_string(task, "task"@) {
        Err(e) => Err(e),
        Ok(t) => match optional_bool(checked) {
            Err(e) => Err(e),
            Ok(c) => match optional_bool(must_do) {
                Err(e) => Err(e),
                Ok(m) => match optional_string(impact) {
                    Err(e) => Err(e),
                    Ok(i) => Ok(LegacyItem { task: t, checked: c, must_do: m, impact: i }),
                },
            },
        },
    }
}

/// The `k`-th element of an array, if present.
pub open spec fn element(xs: Seq<Json>, k: int) -> Option<Json> {
    if k < xs.len() {
        Some(xs[k])
    } else {
        None
    }
}

/// The type error of one object entry, if its key names a field of the checklist item
/// (`item`) or of the current format (otherwise) and its value has the wrong type.
pub open spec fn entry_error(e: (Seq<char>, Json), item: bool) -> Option<Seq<char>> {
    let (k, v) = e;
    if item {
        if (k == "task"@ || k == "impact"@) && !(v is Str) {
            Some(invalid_type(v, expected_string()))
        } else if (k == "checked"@ || k == "mustDo"@) && !(v is Bool) {
            Some(invalid_type(v, expected_bool()))
        } else {
            None
        }
    } else {
        if (k == "date"@ || k == "markdownSource"@) && !(v is Str) {
            Some(invalid_type(v, expected_string()))
        } else {
            None
        }
    }
}

/// The first type error among the entries of an object, in the object's order: serde reads
/// a struct's fields in the order its map gives them.
pub open spec fn first_entry_error(es: Seq<(Seq<char>, Json)>, item: bool) -> Option<Seq<char>>
    decreases es.len(),
{
    if es.len() == 0 {
        None
    } else {
        match first_entry_error(es.drop_last(), item) {
            Some(e) => Some(e),
            None => entry_error(es.last(), item),
        }
    }
}

/// A checklist item: an object with fields `task`, `checked`, `mustDo`, `impact` (type
/// errors in the object's order, then a missing `task`), or an array of values in that
/// order (each checked in turn, then an array longer than four), as serde reads it.
pub open spec fn legacy_item(v: Json) -> Result<LegacyItem, Seq<char>> {
    match v {
        Json::Object(es) => match first_entry_error(es, true) {
            Some(e) => Err(e),
            None => item_of_fields(
                entry_lookup(es, "task"@),
                entry_lookup(es, "checked"@),
                entry_lookup(es, "mustDo"@),
                entry_lookup(es, "impact"@),
            ),
        },
        Json::Array(xs) => if xs.len() == 0 {
            Err(invalid_length(0, item_elements()))
        } else {
            match item_of_fields(element(xs, 0), element(xs, 1), element(xs, 2), element(xs, 3)) {
                Err(e) => Err(e),
                Ok(it) => if xs.len() > 4 {
                    Err(invalid_length(xs.len(), fewer_elements()))
                } else {
                    Ok(it)
                },
            }
        },
        _ => Err(invalid_type(v, expected_item())),
    }
}

/// All items of a list, or the first item's error.
pub open spec fn legacy_items(xs: Seq<Json>) -> Result<Seq<LegacyItem>, Seq<char>>
    decreases xs.len(),
{
    if xs.len() == 0 {
        Ok(Seq::empty())
    } else {
        match legacy_items(xs.drop_last()) {
            Err(e) => Err(e),
            Ok(items) => match legacy_item(xs.last()) {
                Err(e) => Err(e),
                Ok(it) => Ok(items.push(it)),
            },
        }
    }
}

/// The value under `key`, or an empty array when there is none.
pub open spec fn field_or_empty(v: Json, key: Seq<char>) -> Json {
    match json_field(v, key) {
        Some(x) => x,
        None => Json::Array(Seq::empty()),
    }
}

/// The checklist under `today`.
pub open spec fn today_items(v: Json) -> Result<Seq<LegacyItem>, Seq<char>> {
    match field_or_empty(v, "today"@) {
        Json::Array(xs) => legacy_items(xs),
        x => Err(invalid_type(x, expected_sequence())),
    }
}

/// All texts of a list of strings, or an error at the first non-string.
pub open spec fn json_strings(xs: Seq<Json>) -> Result<Seq<Seq<char>>, Seq<char>>
    decreases xs.len(),
{
    if xs.len() == 0 {
        Ok(Seq::empty())
    } else {
        match json_strings(xs.drop_last()) {
            Err(e) => Err(e),
            Ok(ss) => match xs.last() {
                Json::Str(s) => Ok(ss.push(s)),
                x => Err(invalid_type(x, expected_string())),
            },
        }
    }
}

/// `- {prefix}: {text}` for each text that is not blank after trimming.
pub open spec fn prefixed_lines(ss: Seq<Seq<char>>, prefix: Seq<char>) -> Seq<Seq<char>>
    decreases ss.len(),
{
    if ss.len() == 0 {
        Seq::empty()
    } else {
        let rest = prefixed_lines(ss.drop_last(), prefix);
        let t = trim(ss.last());
        if t.len() > 0 {
            rest.push(seq!['-', ' '] + prefix + seq![':', ' '] + t)
        } else {
            rest
        }
    }
}

/// The note lines of the list under `key` of the checklist format.
pub open spec fn prefixed_of(v: Json, key: Seq<char>, prefix: Seq<char>) -> Result<
    Seq<Seq<char>>,
    Seq<char>,
> {
    match field_or_empty(v, key) {
        Json::Array(xs) => match json_strings(xs) {
            Ok(ss) => Ok(prefixed_lines(ss, prefix)),
            Err(e) => Err(legacy_key_error_prefix(key) + e),
        },
        x => Err(legacy_key_error_prefix(key) + invalid_type(x, expected_sequence())),
    }
}

/// The lines of a checklist item: `- [x] task` or `- [ ] task`, then its impact as a note.
pub open spec fn legacy_item_lines(it: LegacyItem) -> Seq<Seq<char>> {
    let head = seq!['-', ' ', '[', if it.checked {
        'x'
    } else {
        ' '
    }, ']', ' '] + trim(it.task);
    if trim(it.impact).len() > 0 {
        seq![head, "  - impact: "@ + trim(it.impact)]
    } else {
        seq![head]
    }
}

/// The lines of the items whose must-do flag is `must`, in order.
pub open spec fn items_lines(items: Seq<LegacyItem>, must: bool) -> Seq<Seq<char>>
    decreases items.len(),
{
    if items.len() == 0 {
        Seq::empty()
    } else {
        let rest = items_lines(items.drop_last(), must);
        if items.last().must_do == must {
            rest + legacy_item_lines(items.last())
        } else {
            rest
        }
    }
}

/// The Markdown made from the checklist format.
pub open spec fn legacy_text(
    date: Seq<char>,
    items: Seq<LegacyItem>,
    notes: Seq<Seq<char>>,
) -> Seq<char> {
    lines_text(
        seq![title_line(date), Seq::empty(), heading_today(), Seq::empty(), heading_must_do()]
            + items_lines(items, true) + seq![Seq::empty(), heading_queued()] + items_lines(
            items,
            false,
        ) + seq![Seq::empty(), heading_memo()] + notes + seq![Seq::empty(), heading_pending()],
    )
}

/// The date of a checklist entry: its `date` string when not blank, else the hint.
pub open spec fn legacy_date(v: Json, hint: Seq<char>) -> Seq<char> {
    match json_str(json_field(v, "date"@)) {
        Some(d) => if trim(d).len() > 0 {
            d
        } else {
            hint
        },
        None => hint,
    }
}

/// A day from the checklist format: date and Markdown, or the first error.
pub open spec fn legacy_entry(v: Json, hint: Seq<char>) -> Result<(Seq<char>, Seq<char>), Seq<char>> {
    match today_items(v) {
        Err(e) => Err(legacy_error_prefix() + e),
        Ok(items) => match prefixed_of(v, "support"@, "support"@) {
            Err(e) => Err(e),
            Ok(a) => match prefixed_of(v, "improvements"@, "improvement"@) {
                Err(e) => Err(e),
                Ok(b) => match prefixed_of(v, "learning"@, "learning"@) {
                    Err(e) => Err(e),
                    Ok(c) => match prefixed_of(v, "notes"@, "note"@) {
                        Err(e) => Err(e),
                        Ok(d) => Ok((legacy_date(v, hint), legacy_text(legacy_date(v, hint), items, a + b + c + d))),
                    },
                },
            },
        },
    }
}

/// The first type error among the entries of a document in the current format.
pub open spec fn object_entry_error(v: Json) -> Option<Seq<char>> {
    match v {
        Json::Object(es) => first_entry_error(es, false),
        _ => None,
    }
}

/// A day from a stored document: the current format (`date` and `markdownSource`, a blank
/// date replaced by the hint), the preview format (`markdownPreview`, with `date` if it is a
/// string), or the checklist format (`today`); Markdown line endings normalized.
pub open spec fn entry_of_json(v: Json, hint: Seq<char>) -> Result<(Seq<char>, Seq<char>), Seq<char>> {
    if json_field(v, "markdownSource"@) is Some {
        match object_entry_error(v) {
            Some(e) => Err(state_error_prefix() + e),
            None => match required_string(json_field(v, "date"@), "date"@) {
                Err(e) => Err(state_error_prefix() + e),
                Ok(d) => match required_string(json_field(v, "markdownSource"@), "markdownSource"@) {
                    Err(e) => Err(state_error_prefix() + e),
                    Ok(m) => Ok(
                        (
                            if trim(d).len() == 0 {
                                hint
                            } else {
                                d
                            },
                            normalized_text(m),
                        ),
                    ),
                },
            },
        }
    } else if json_str(json_field(v, "markdownPreview"@)) is Some {
        Ok(
            (
                match json_str(json_field(v, "date"@)) {
                    Some(d) => d,
                    None => hint,
                },
                normalized_text(json_str(json_field(v, "markdownPreview"@))->0),
            ),
        )
    } else if json_field(v, "today"@) is Some {
        legacy_entry(v, hint)
    } else {
        Err(unsupported_format())
    }
}

/// The date and Markdown of a read day, or the error text.
pub open spec fn entry_result(r: Result<EntryPayload, String>) -> Result<(Seq<char>, Seq<char>), Seq<char>> {
    match r {
        Ok(e) => Ok((e.date@, e.markdown_source@)),
        Err(e) => Err(e@),
    }
}

/// A day from the text of a stored document: its JSON read by serde_json, then
/// `entry_of_json`; a text that is not JSON gives the reading error.
pub open spec fn entry_of_text(text: Seq<char>, hint: Seq<char>) -> Result<(Seq<char>, Seq<char>), Seq<char>> {
    match json_text_value(text) {
        Ok(v) => entry_of_json(v, hint),
        Err(e) => Err(state_error_prefix() + e),
    }
}

/// One item of the checklist format.
#[derive(Debug)]
pub struct LegacyTodayItem {
    pub task: String,
    pub checked: bool,
    pub must_do: bool,
    pub impact: String,
}

impl View for LegacyTodayItem {
    type V = LegacyItem;

    open spec fn view(&self) -> LegacyItem {
        LegacyItem { task: self.task@, checked: self.checked, must_do: self.must_do, impact: self.impact@ }
    }
}

/// The meaning of a list of items.
pub open spec fn items_view(v: Seq<LegacyTodayItem>) -> Seq<LegacyItem> {
    Seq::new(v.len(), |i: int| v[i]@)
}

/// The meaning of a read item or of its error text.
pub open spec fn item_result(r: Result<LegacyTodayItem, String>) -> Result<LegacyItem, Seq<char>> {
    match r {
        Ok(it) => Ok(it@),
        Err(e) => Err(e@),
    }
}

/// serde's description of a document of the wrong type (see `unexpected`).
fn unexpected_text(v: &JsonValue) -> (s: String)
    ensures
        s@ == unexpected(v@),
{
    match v {
        JsonValue::Null => "unit value".to_string(),
        JsonValue::Bool(b) => if *b {
            "boolean `true`".to_string()
        } else {
            "boolean `false`".to_string()
        },
        JsonValue::Number(t) => {
            let cs = chars_of(t.as_str());
            let mut k: usize = 0;
            let mut float = false;
            while k < cs.len()
                invariant
                    k <= cs@.len(),
                    cs@ == t@,
                    float == exists|i: int|
                        0 <= i < k && (cs@[i] == '.' || cs@[i] == 'e' || cs@[i] == 'E'),
                decreases cs@.len() - k,
            {
                if cs[k] == '.' || cs[k] == 'e' || cs[k] == 'E' {
                    float = true;
                }
                k = k + 1;
            }
            let mut s = if float {
                "floating point `".to_string()
            } else {
                "integer `".to_string()
            };
            if float {
                let plain = plain_float_text(t.as_str());
                s.append(plain.as_str());
            } else {
                s.append(t.as_str());
            }
            s.append("`");
            s
        },
        JsonValue::Str(x) => {
            let mut s = "string ".to_string();
            let q = debug_quoted(x.as_str());
            s.append(q.as_str());
            s
        },
        JsonValue::Array(_) => "sequence".to_string(),
        JsonValue::Object(_) => "map".to_string(),
    }
}

/// serde's error for a document of the wrong type (see `invalid_type`).
fn invalid_type_text(v: &JsonValue, expected: &str) -> (s: String)
    ensures
        s@ == invalid_type(v@, expected@),
{
    let mut s = "invalid type: ".to_string();
    let u = unexpected_text(v);
    s.append(u.as_str());
    s.append(", expected ");
    s.append(expected);
    s
}

/// serde's error for a list of the wrong length (see `invalid_length`).
fn invalid_length_text(n: usize, expected: &str) -> (s: String)
    ensures
        s@ == invalid_length(n as nat, expected@),
{
    let mut s = "invalid length ".to_string();
    push_decimal(&mut s, n as u64);
    s.append(", expected ");
    s.append(expected);
    s
}

/// The type error of one object entry (see `entry_error`).
fn entry_error_exec(e: &(String, JsonValue), item: bool) -> (r: Option<String>)
    ensures
        match r {
            Some(s) => entry_error((e.0@, e.1@), item) == Some(s@),
            None => entry_error((e.0@, e.1@), item) is None,
        },
{
    let k = e.0.as_str();
    let v = &e.1;
    let is_str = match v {
        JsonValue::Str(_) => true,
        _ => false,
    };
    let is_bool = match v {
        JsonValue::Bool(_) => true,
        _ => false,
    };
    if item {
        if (same_text(k, "task") || same_text(k, "impact")) && !is_str {
            return Some(invalid_type_text(v, "a string"));
        }
        if (same_text(k, "checked") || same_text(k, "mustDo")) && !is_bool {
            return Some(invalid_type_text(v, "a boolean"));
        }
        None
    } else {
        if (same_text(k, "date") || same_text(k, "markdownSource")) && !is_str {
            return Some(invalid_type_text(v, "a string"));
        }
        None
    }
}

/// Once a prefix of the entries has a type error, the whole object has that error first.
proof fn lemma_first_entry_error(es: Seq<(Seq<char>, Json)>, k: int, item: bool)
    requires
        0 <= k <= es.len(),
        first_entry_error(es.take(k), item) is Some,
    ensures
        first_entry_error(es, item) == first_entry_error(es.take(k), item),
    decreases es.len(),
{
    if k < es.len() {
        assert(es.drop_last().take(k) == es.take(k));
        lemma_first_entry_error(es.drop_last(), k, item);
    } else {
        assert(es.take(k) == es);
    }
}

/// The first type error among the entries of an object (see `first_entry_error`).
fn first_entry_error_exec(es: &Vec<(String, JsonValue)>, item: bool) -> (r: Option<String>)
    ensures
        match r {
            Some(s) => first_entry_error(json_entries_model(es@), item) == Some(s@),
            None => first_entry_error(json_entries_model(es@), item) is None,
        },
{
    let ghost m = json_entries_model(es@);
    let mut i: usize = 0;
    assert(m.take(0) =~= Seq::<(Seq<char>, Json)>::empty());
    while i < es.len()
        invariant
            i <= es@.len(),
            m == json_entries_model(es@),
            first_entry_error(m.take(i as int), item) is None,
        decreases es@.len() - i,
    {
        assert(m.take(i + 1).drop_last() == m.take(i as int));
        assert(m.take(i + 1).last() == (es@[i as int].0@, es@[i as int].1@));
        match entry_error_exec(&es[i], item) {
            Some(e) => {
                proof {
                    lemma_first_entry_error(m, i + 1, item);
                }
                return Some(e);
            },
            None => {},
        }
        i = i + 1;
    }
    assert(m.take(i as int) == m);
    None
}

fn required_string_exec(o: Option<&JsonValue>, name: &str) -> (r: Result<String, String>)
    ensures
        str_result(r) == required_string(option_json(o), name@),
{
    match o {
        Some(JsonValue::Str(s)) => Ok(s.clone()),
        Some(x) => Err(invalid_type_text(x, "a string")),
        None => {
            let mut e = "missing field `".to_string();
            e.append(name);
            e.append("`");
            Err(e)
        },
    }
}

fn optional_string_exec(o: Option<&JsonValue>) -> (r: Result<String, String>)
    ensures
        str_result(r) == optional_string(option_json(o)),
{
    match o {
        Some(JsonValue::Str(s)) => Ok(s.clone()),
        Some(x) => Err(invalid_type_text(x, "a string")),
        None => Ok(String::new()),
    }
}

fn optional_bool_exec(o: Option<&JsonValue>) -> (r: Result<bool, String>)
    ensures
        match r {
            Ok(b) => optional_bool(option_json(o)) == Ok::<bool, Seq<char>>(b),
            Err(e) => optional_bool(option_json(o)) == Err::<bool, Seq<char>>(e@),
        },
{
    match o {
        Some(JsonValue::Bool(b)) => Ok(*b),
        Some(x) => Err(invalid_type_text(x, "a boolean")),
        None => Ok(false),
    }
}

fn item_of_fields_exec(
    task: Option<&JsonValue>,
    checked: Option<&JsonValue>,
    must_do: Option<&JsonValue>,
    impact: Option<&JsonValue>,
) -> (r: Result<LegacyTodayItem, String>)
    ensures
        item_result(r) == item_of_fields(
            option_json(task),
            option_json(checked),
            option_json(must_do),
            option_json(impact),
        ),
{
    let t = match required_string_exec(task, "task") {
        Ok(t) => t,
        Err(e) => {
            return Err(e);
        },
    };
    let c = match optional_bool_exec(checked) {
        Ok(c) => c,
        Err(e) => {
            return Err(e);
        },
    };
    let m = match optional_bool_exec(must_do) {
        Ok(m) => m,
        Err(e) => {
            return Err(e);
        },
    };
    let i = match optional_string_exec(impact) {
        Ok(i) => i,
        Err(e) => {
            return Err(e);
        },
    };
    Ok(LegacyTodayItem { task: t, checked: c, must_do: m, impact: i })
}

fn element_exec(xs: &Vec<JsonValue>, k: usize) -> (r: Option<&JsonValue>)
    ensures
        option_json(r) == element(json_items_model(xs@), k as int),
{
    if k < xs.len() {
        Some(&xs[k])
    } else {
        None
    }
}

/// One checklist item (see `legacy_item`).
pub fn legacy_item_from_json(v: &JsonValue) -> (r: Result<LegacyTodayItem, String>)
    ensures
        item_result(r) == legacy_item(v@),
{
    match v {
        JsonValue::Object(es) => match first_entry_error_exec(es, true) {
            Some(e) => Err(e),
            None => item_of_fields_exec(
                json_get(v, "task"),
                json_get(v, "checked"),
                json_get(v, "mustDo"),
                json_get(v, "impact"),
            ),
        },
        JsonValue::Array(xs) => {
            if xs.len() == 0 {
                Err(invalid_length_text(0, "struct LegacyTodayItem with 4 elements"))
            } else {
                match item_of_fields_exec(
                    element_exec(xs, 0),
                    element_exec(xs, 1),
                    element_exec(xs, 2),
                    element_exec(xs, 3),
                ) {
                    Err(e) => Err(e),
                    Ok(it) => if xs.len() > 4 {
                        Err(invalid_length_text(xs.len(), "fewer elements in array"))
                    } else {
                        Ok(it)
                    },
                }
            }
        },
        _ => Err(invalid_type_text(v, "struct LegacyTodayItem")),
    }
}

/// The checklist under `today` of a stored document (see `today_items`).
pub fn legacy_today_items(value: &JsonValue) -> (r: Result<Vec<LegacyTodayItem>, String>)
    ensures
        match r {
            Ok(items) => today_items(value@) == Ok::<Seq<LegacyItem>, Seq<char>>(items_view(items@)),
            Err(e) => today_items(value@) == Err::<Seq<LegacyItem>, Seq<char>>(e@),
        },
{
    let field = json_get(value, "today");
    let xs = match field {
        None => {
            let empty: Vec<LegacyTodayItem> = Vec::new();
            assert(items_view(empty@) =~= Seq::<LegacyItem>::empty());
            return Ok(empty);
        },
        Some(JsonValue::Array(xs)) => xs,
        Some(other) => {
            return Err(invalid_type_text(other, "a sequence"));
        },
    };
    let ghost m = json_items_model(xs@);
    let mut items: Vec<LegacyTodayItem> = Vec::new();
    let mut i: usize = 0;
    assert(m.take(0) =~= Seq::<Json>::empty());
    assert(items_view(items@) =~= Seq::<LegacyItem>::empty());
    while i < xs.len()
        invariant
            i <= xs@.len(),
            m == json_items_model(xs@),
            field_or_empty(value@, "today"@) == Json::Array(m),
            legacy_items(m.take(i as int)) == Ok::<Seq<LegacyItem>, Seq<char>>(items_view(items@)),
        decreases xs@.len() - i,
    {
        assert(m.take(i + 1).drop_last() == m.take(i as int));
        assert(m.take(i + 1).last() == xs@[i as int]@);
        match legacy_item_from_json(&xs[i]) {
            Ok(it) => {
                let ghost before = items_view(items@);
                items.push(it);
                assert(items_view(items@) =~= before.push(it@));
            },
            Err(e) => {
                proof {
                    lemma_legacy_items_error(m, i as int + 1);
                }
                return Err(e);
            },
        }
        i = i + 1;
    }
    assert(m.take(i as int) == m);
    Ok(items)
}

/// Once a prefix of a list has an error, the whole list has that error.
proof fn lemma_legacy_items_error(xs: Seq<Json>, k: int)
    requires
        0 <= k <= xs.len(),
        legacy_items(xs.take(k)) is Err,
    ensures
        legacy_items(xs) == legacy_items(xs.take(k)),
    decreases xs.len(),
{
    if k < xs.len() {
        assert(xs.drop_last().take(k) == xs.take(k));
        lemma_legacy_items_error(xs.drop_last(), k);
    } else {
        assert(xs.take(k) == xs);
    }
}

/// Once a prefix of a list has a non-string, the whole list has that error.
proof fn lemma_json_strings_error(xs: Seq<Json>, k: int)
    requires
        0 <= k <= xs.len(),
        json_strings(xs.take(k)) is Err,
    ensures
        json_strings(xs) == json_strings(xs.take(k)),
    decreases xs.len(),
{
    if k < xs.len() {
        assert(xs.drop_last().take(k) == xs.take(k));
        lemma_json_strings_error(xs.drop_last(), k);
    } else {
        assert(xs.take(k) == xs);
    }
}

/// The error text for one list of notes of the checklist format.
fn key_error(key: &str, detail: &str) -> (e: String)
    ensures
        e@ == legacy_key_error_prefix(key@) + detail@,
{
    let mut e = "旧形式データの解析に失敗しました (".to_string();
    e.append(key);
    e.append("): ");
    e.append(detail);
    e
}

/// The note lines `- {prefix}: {text}` of the list of strings under `key` (see `prefixed_of`).
pub fn prefixed_legacy_lines(value: &JsonValue, key: &str, prefix: &str) -> (r: Result<
    Vec<String>,
    String,
>)
    ensures
        match r {
            Ok(ls) => prefixed_of(value@, key@, prefix@) == Ok::<Seq<Seq<char>>, Seq<char>>(
                strings_view(ls@),
            ),
            Err(e) => prefixed_of(value@, key@, prefix@) == Err::<Seq<Seq<char>>, Seq<char>>(e@),
        },
{
    let xs = match json_get(value, key) {
        None => {
            let empty: Vec<String> = Vec::new();
            assert(strings_view(empty@) =~= Seq::<Seq<char>>::empty());
            return Ok(empty);
        },
        Some(JsonValue::Array(xs)) => xs,
        Some(other) => {
            let detail = invalid_type_text(other, "a sequence");
            return Err(key_error(key, detail.as_str()));
        },
    };
    let ghost m = json_items_model(xs@);
    let ghost texts: Seq<Seq<char>> = Seq::empty();
    let mut lines: Vec<String> = Vec::new();
    let mut i: usize = 0;
    assert(m.take(0) =~= Seq::<Json>::empty());
    assert(strings_view(lines@) =~= Seq::<Seq<char>>::empty());
    while i < xs.len()
        invariant
            i <= xs@.len(),
            m == json_items_model(xs@),
            field_or_empty(value@, key@) == Json::Array(m),
            json_strings(m.take(i as int)) == Ok::<Seq<Seq<char>>, Seq<char>>(texts),
            strings_view(lines@) == prefixed_lines(texts, prefix@),
        decreases xs@.len() - i,
    {
        assert(m.take(i + 1).drop_last() == m.take(i as int));
        assert(m.take(i + 1).last() == xs@[i as int]@);
        match &xs[i] {
            JsonValue::Str(item) => {
                let t = trim_str(item.as_str());
                let ghost old_texts = texts;
                proof {
                    texts = texts.push(item@);
                }
                assert(texts.drop_last() == old_texts);
                assert(texts.last() == item@);
                if t.unicode_len() > 0 {
                    let mut line = "- ".to_string();
                    line.append(prefix);
                    line.append(": ");
                    line.append(t.as_str());
                    proof {
                        reveal_strlit("- ");
                        reveal_strlit(": ");
                    }
                    assert(line@ =~= seq!['-', ' '] + prefix@ + seq![':', ' '] + t@);
                    let ghost before = strings_view(lines@);
                    lines.push(line);
                    assert(strings_view(lines@) =~= before.push(line@));
                }
            },
            other => {
                proof {
                    lemma_json_strings_error(m, i as int + 1);
                }
                let detail = invalid_type_text(other, "a string");
                return Err(key_error(key, detail.as_str()));
            },
        }
        i = i + 1;
    }
    assert(m.take(i as int) == m);
    Ok(lines)
}

fn push_item_lines(lines: &mut Vec<String>, it: &LegacyTodayItem)
    ensures
        strings_view(final(lines)@) == strings_view(old(lines)@) + legacy_item_lines(it@),
{
    let mut head = "- [".to_string();
    push_char(&mut head, if it.checked { 'x' } else { ' ' });
    head.append("] ");
    let task = trim_str(it.task.as_str());
    head.append(task.as_str());
    proof {
        reveal_strlit("- [");
        reveal_strlit("] ");
    }
    let ghost before = strings_view(lines@);
    let ghost h = head@;
    assert(h =~= seq!['-', ' ', '[', if it.checked { 'x' } else { ' ' }, ']', ' '] + trim(it.task@));
    lines.push(head);
    let impact = trim_str(it.impact.as_str());
    if impact.unicode_len() > 0 {
        let mut note = "  - impact: ".to_string();
        note.append(impact.as_str());
        lines.push(note);
        assert(strings_view(lines@) =~= before + seq![h, note@]);
    } else {
        assert(strings_view(lines@) =~= before + seq![h]);
    }
}

fn push_items_lines(lines: &mut Vec<String>, items: &Vec<LegacyTodayItem>, must: bool)
    ensures
        strings_view(final(lines)@) == strings_view(old(lines)@) + items_lines(items_view(items@), must),
{
    let ghost iv = items_view(items@);
    let mut i: usize = 0;
    assert(iv.take(0) =~= Seq::<LegacyItem>::empty());
    assert(strings_view(lines@) =~= strings_view(old(lines)@) + Seq::<Seq<char>>::empty());
    while i < items.len()
        invariant
            i <= items@.len(),
            iv == items_view(items@),
            strings_view(lines@) == strings_view(old(lines)@) + items_lines(iv.take(i as int), must),
        decreases items@.len() - i,
    {
        assert(iv.take(i + 1).drop_last() == iv.take(i as int));
        assert(iv.take(i + 1).last() == items@[i as int]@);
        if items[i].must_do == must {
            push_item_lines(lines, &items[i]);
        }
        i = i + 1;
    }
    assert(iv.take(i as int) == iv);
}

fn push_all(lines: &mut Vec<String>, more: Vec<String>)
    ensures
        strings_view(final(lines)@) == strings_view(old(lines)@) + strings_view(more@),
{
    let mut i: usize = 0;
    while i < more.len()
        invariant
            i <= more@.len(),
            strings_view(lines@) == strings_view(old(lines)@) + strings_view(more@).take(i as int),
        decreases more@.len() - i,
    {
        let ghost before = strings_view(lines@);
        lines.push(more[i].clone());
        assert(strings_view(lines@) =~= before.push(more@[i as int]@));
        assert(strings_view(more@).take(i + 1) =~= strings_view(more@).take(i as int).push(more@[i as int]@));
        i = i + 1;
    }
    assert(strings_view(more@).take(i as int) == strings_view(more@));
}

/// A day from the checklist format: the must-do items, the other items, then the
/// support, improvement, learning and note lists as memo lines (see `legacy_entry`).
pub fn parse_legacy_entry(value: &JsonValue, date_hint: &str) -> (r: Result<EntryPayload, String>)
    ensures
        entry_result(r) == legacy_entry(value@, date_hint@),
{
    let date = match json_as_str(json_get(value, "date")) {
        Some(d) => {
            let t = trim_str(d);
            if t.unicode_len() > 0 {
                d.to_string()
            } else {
                date_hint.to_string()
            }
        },
        None => date_hint.to_string(),
    };
    assert(date@ == legacy_date(value@, date_hint@));
    let today = match legacy_today_items(value) {
        Ok(t) => t,
        Err(e) => {
            let mut msg = "旧形式データの解析に失敗しました: ".to_string();
            msg.append(e.as_str());
            return Err(msg);
        },
    };
    let mut lines: Vec<String> = Vec::new();
    let mut title = "# ".to_string();
    title.append(date.as_str());
    proof {
        reveal_strlit("# ");
    }
    lines.push(title);
    lines.push(String::new());
    lines.push("## ✅ 今日やること".to_string());
    lines.push(String::new());
    lines.push("### 🚨 今日必達".to_string());
    assert(lines@[0]@ == title_line(date@));
    assert(lines@[1]@ == Seq::<char>::empty());
    assert(lines@[2]@ == heading_today());
    let ghost head = seq![title_line(date@), Seq::empty(), heading_today(), Seq::empty(), heading_must_do()];
    assert(strings_view(lines@) =~= head);
    push_items_lines(&mut lines, &today, true);
    lines.push(String::new());
    lines.push("### 🐻 必達以外".to_string());
    let ghost iv = items_view(today@);
    let ghost mid = head + items_lines(iv, true) + seq![Seq::empty(), heading_queued()];
    assert(strings_view(lines@) =~= mid);
    push_items_lines(&mut lines, &today, false);
    lines.push(String::new());
    lines.push("## 📝 メモ / 気づき".to_string());
    let ghost memo = mid + items_lines(iv, false) + seq![Seq::empty(), heading_memo()];
    assert(strings_view(lines@) =~= memo);
    let a = prefixed_legacy_lines(value, "support", "support");
    let a = match a {
        Ok(a) => a,
        Err(e) => {
            return Err(e);
        },
    };
    let b = match prefixed_legacy_lines(value, "improvements", "improvement") {
        Ok(b) => b,
        Err(e) => {
            return Err(e);
        },
    };
    let c = match prefixed_legacy_lines(value, "learning", "learning") {
        Ok(c) => c,
        Err(e) => {
            return Err(e);
        },
    };
    let d = match prefixed_legacy_lines(value, "notes", "note") {
        Ok(d) => d,
        Err(e) => {
            return Err(e);
        },
    };
    let ghost notes = strings_view(a@) + strings_view(b@) + strings_view(c@) + strings_view(d@);
    let ghost (sa, sb, sc, sd) = (strings_view(a@), strings_view(b@), strings_view(c@), strings_view(d@));
    push_all(&mut lines, a);
    assert(strings_view(lines@) == memo + sa);
    push_all(&mut lines, b);
    assert(strings_view(lines@) =~= memo + (sa + sb));
    push_all(&mut lines, c);
    assert(strings_view(lines@) =~= memo + (sa + sb + sc));
    push_all(&mut lines, d);
    assert(strings_view(lines@) =~= memo + notes);
    lines.push(String::new());
    lines.push("## 🐕 保留".to_string());
    assert(strings_view(lines@) =~= memo + notes + seq![Seq::empty(), heading_pending()]);
    let markdown = join_lines(&lines);
    assert(markdown@ == legacy_text(date@, iv, notes));
    Ok(EntryPayload { date, markdown_source: markdown })
}

/// A day from a stored document (see `entry_of_json`).
pub fn entry_from_json(value: &JsonValue, date_hint: &str) -> (r: Result<EntryPayload, String>)
    ensures
        entry_result(r) == entry_of_json(value@, date_hint@),
{
    if json_get(value, "markdownSource").is_some() {
        match value {
            JsonValue::Object(es) => match first_entry_error_exec(es, false) {
                Some(e) => {
                    let mut msg = "編集中データの解析に失敗しました: ".to_string();
                    msg.append(e.as_str());
                    return Err(msg);
                },
                None => {},
            },
            _ => {},
        }
        let d = match required_string_exec(json_get(value, "date"), "date") {
            Ok(d) => d,
            Err(e) => {
                let mut msg = "編集中データの解析に失敗しました: ".to_string();
                msg.append(e.as_str());
                return Err(msg);
            },
        };
        let m = match required_string_exec(json_get(value, "markdownSource"), "markdownSource") {
            Ok(m) => m,
            Err(e) => {
                let mut msg = "編集中データの解析に失敗しました: ".to_string();
                msg.append(e.as_str());
                return Err(msg);
            },
        };
        let blank = trim_str(d.as_str()).unicode_len() == 0;
        let date = if blank {
            date_hint.to_string()
        } else {
            d
        };
        return Ok(EntryPayload { date, markdown_source: normalize_line_endings(m.as_str()) });
    }
    match json_as_str(json_get(value, "markdownPreview")) {
        Some(md) => {
            let date = match json_as_str(json_get(value, "date")) {
                Some(d) => d.to_string(),
                None => date_hint.to_string(),
            };
            return Ok(EntryPayload { date, markdown_source: normalize_line_endings(md) });
        },
        None => {},
    }
    if json_get(value, "today").is_some() {
        return parse_legacy_entry(value, date_hint);
    }
    Err("編集中データの形式に対応していません。".to_string())
}

/// A day from the text of a stored document (see `entry_of_text`).
pub fn parse_entry_json(content: &str, date_hint: &str) -> (r: Result<EntryPayload, String>)
    ensures
        entry_result(r) == entry_of_text(content@, date_hint@),
{
    match parse_json_text(content) {
        Ok(v) => entry_from_json(&v, date_hint),
        Err(e) => {
            let mut msg = "編集中データの解析に失敗しました: ".to_string();
            msg.append(e.as_str());
            Err(msg)
        },
    }
}

} // verus!

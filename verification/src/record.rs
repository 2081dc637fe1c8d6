//! Journald entry model and parsing of `journalctl -o json` lines.

use vstd::prelude::*;
use vstd::utf8::{decode_utf8, valid_utf8};

use crate::numbers::{parse_i64, parse_i64_spec, parse_u8, parse_u8_spec};
use crate::strings::{str_eq, trim, trim_seq};

verus! {

/// A single journald entry, reduced to the fields the tool renders and
/// filters on.
///
/// `host` is the ssh destination the entry came from, not the remote
/// `_HOSTNAME`, so entries are labeled exactly the way the user addressed
/// the machine.
#[derive(Debug, Clone)]
pub struct Record {
    pub host: String,
    pub timestamp_us: i64,
    pub cursor: Option<String>,
    pub unit: Option<String>,
    pub pid: Option<String>,
    pub priority: Option<u8>,
    pub message: String,
}

/// A [`Record`] with every string taken as its characters.
pub struct RecordView {
    pub host: Seq<char>,
    pub timestamp_us: i64,
    pub cursor: Option<Seq<char>>,
    pub unit: Option<Seq<char>>,
    pub pid: Option<Seq<char>>,
    pub priority: Option<u8>,
    pub message: Seq<char>,
}

/// The characters of an optional string.
pub open spec fn opt_chars(o: Option<String>) -> Option<Seq<char>> {
    match o {
        Some(s) => Some(s@),
        None => None,
    }
}

impl View for Record {
    type V = RecordView;

    open spec fn view(&self) -> RecordView {
        RecordView {
            host: self.host@,
            timestamp_us: self.timestamp_us,
            cursor: opt_chars(self.cursor),
            unit: opt_chars(self.unit),
            pid: opt_chars(self.pid),
            priority: self.priority,
            message: self.message@,
        }
    }
}

/// The view of an optional record.
pub open spec fn opt_record(o: Option<Record>) -> Option<RecordView> {
    match o {
        Some(r) => Some(r@),
        None => None,
    }
}

/// A JSON member value, reduced to what a journald field can be: a string,
/// an array (journald's encoding of non-UTF-8 payloads) holding for each
/// item its value if it is an unsigned integer, or anything else.
pub enum JsonField {
    Text(String),
    Items(Vec<Option<u64>>),
    Other,
}

/// The members, in the parser's order, of the JSON object that `text`
/// holds, or `None` when `text` is not a JSON object
/// (`serde_json::from_str::<serde_json::Value>`).
pub uninterp spec fn json_object_of(text: Seq<char>) -> Option<Vec<(String, JsonField)>>;

/// Parses `text` with `serde_json::from_str::<serde_json::Value>` and keeps
/// the members if it is an object, each value reduced to a [`JsonField`]
/// (`serde_json::Value::as_u64` for array items). The contract only names
/// the result: JSON's grammar is not restated here.
#[verifier::external_body]
fn json_object(text: &str) -> (res: Option<Vec<(String, JsonField)>>)
    ensures
        res == json_object_of(text@),
{
    let Ok(serde_json::Value::Object(map)) = serde_json::from_str(text) else { return None };
    let mut fields = Vec::new();
    for (key, value) in map {
        let field = match value {
            serde_json::Value::String(s) => JsonField::Text(s),
            serde_json::Value::Array(items) => JsonField::Items(
                items.iter().map(serde_json::Value::as_u64).collect(),
            ),
            _ => JsonField::Other,
        };
        fields.push((key, field));
    }
    Some(fields)
}

/// What `String::from_utf8_lossy` makes of `bytes`.
pub uninterp spec fn utf8_lossy(bytes: Seq<u8>) -> Seq<char>;

/// Whether every byte is ASCII.
pub open spec fn ascii_bytes(bytes: Seq<u8>) -> bool {
    forall|i: int| 0 <= i < bytes.len() ==> bytes[i] < 128
}

/// Decodes `bytes` with `String::from_utf8_lossy`, which replaces invalid
/// sequences with U+FFFD. Stated: the result is the named decoding, valid
/// UTF-8 decodes to the characters it encodes, and ASCII bytes decode one
/// character each. The replacement rules for invalid input are left to the
/// name.
#[verifier::external_body]
fn decode_lossy(bytes: &[u8]) -> (res: String)
    ensures
        res@ == utf8_lossy(bytes@),
        valid_utf8(bytes@) ==> res@ == decode_utf8(bytes@),
        ascii_bytes(bytes@) ==> res@ == bytes@.map_values(|b: u8| b as char),
{
    String::from_utf8_lossy(bytes).into_owned()
}

/// The first member of `fields` called `key`.
pub open spec fn lookup(fields: Seq<(String, JsonField)>, key: Seq<char>) -> Option<JsonField>
    decreases fields.len(),
{
    if fields.len() == 0 {
        None
    } else if fields[0].0@ == key {
        Some(fields[0].1)
    } else {
        lookup(fields.drop_first(), key)
    }
}

/// The bytes of a journald byte array: every unsigned integer item,
/// truncated to its low eight bits, other items skipped.
pub open spec fn item_bytes(items: Seq<Option<u64>>) -> Seq<u8>
    decreases items.len(),
{
    if items.len() == 0 {
        Seq::empty()
    } else {
        item_bytes(items.drop_last()) + match items.last() {
            Some(b) => seq![b as u8],
            None => Seq::empty(),
        }
    }
}

/// The text of a byte payload: the characters it encodes when it is valid
/// UTF-8, else its lossy decoding.
pub open spec fn bytes_text(bytes: Seq<u8>) -> Seq<char> {
    if valid_utf8(bytes) {
        decode_utf8(bytes)
    } else {
        utf8_lossy(bytes)
    }
}

/// The text of a journald field value: a string as it is, a byte array
/// decoded lossily, anything else nothing.
pub open spec fn field_text(f: JsonField) -> Option<Seq<char>> {
    match f {
        JsonField::Text(s) => Some(s@),
        JsonField::Items(items) => Some(bytes_text(item_bytes(items@))),
        JsonField::Other => None,
    }
}

/// The text of an optional field value.
pub open spec fn opt_text(f: Option<JsonField>) -> Option<Seq<char>> {
    match f {
        Some(v) => field_text(v),
        None => None,
    }
}

/// `a`, or `b` when `a` is absent.
pub open spec fn or_else<T>(a: Option<T>, b: Option<T>) -> Option<T> {
    match a {
        Some(_) => a,
        None => b,
    }
}

/// The record that the members `f` of a journal line from `host` describe,
/// if it has a realtime timestamp.
pub open spec fn record_from_fields(host: Seq<char>, f: Seq<(String, JsonField)>) -> Option<
    RecordView,
> {
    match opt_text(lookup(f, "__REALTIME_TIMESTAMP"@)) {
        None => None,
        Some(t) => match parse_i64_spec(t) {
            None => None,
            Some(ts) => Some(
                RecordView {
                    host,
                    timestamp_us: ts,
                    cursor: opt_text(lookup(f, "__CURSOR"@)),
                    unit: opt_text(
                        or_else(
                            lookup(f, "_SYSTEMD_UNIT"@),
                            or_else(lookup(f, "UNIT"@), lookup(f, "SYSLOG_IDENTIFIER"@)),
                        ),
                    ),
                    pid: opt_text(or_else(lookup(f, "_PID"@), lookup(f, "SYSLOG_PID"@))),
                    priority: match opt_text(lookup(f, "PRIORITY"@)) {
                        Some(p) => parse_u8_spec(p),
                        None => None,
                    },
                    message: match opt_text(lookup(f, "MESSAGE"@)) {
                        Some(m) => m,
                        None => Seq::empty(),
                    },
                },
            ),
        },
    }
}

/// The record that the journal line `line` from `host` holds.
pub open spec fn parsed_record(host: Seq<char>, line: Seq<char>) -> Option<RecordView> {
    match json_object_of(trim_seq(line)) {
        None => None,
        Some(fields) => record_from_fields(host, fields@),
    }
}

/// The first member of `fields` called `key`.
fn find<'a>(fields: &'a Vec<(String, JsonField)>, key: &str) -> (res: Option<&'a JsonField>)
    ensures
        match res {
            Some(v) => lookup(fields@, key@) == Some(*v),
            None => lookup(fields@, key@) is None,
        },
{
    let mut i: usize = 0;
    assert(fields@.skip(0) =~= fields@);
    while i < fields.len()
        invariant
            i <= fields.len(),
            lookup(fields@, key@) == lookup(fields@.skip(i as int), key@),
        decreases fields.len() - i,
    {
        assert(fields@.skip(i as int)[0] == fields@[i as int]);
        if str_eq(fields[i].0.as_str(), key) {
            return Some(&fields[i].1);
        }
        assert(fields@.skip(i as int).drop_first() =~= fields@.skip(i + 1));
        i = i + 1;
    }
    None
}

/// The bytes of a journald byte array.
fn bytes_of_items(items: &Vec<Option<u64>>) -> (res: Vec<u8>)
    ensures
        res@ == item_bytes(items@),
{
    let mut out: Vec<u8> = Vec::new();
    let mut i: usize = 0;
    assert(items@.take(0) =~= Seq::<Option<u64>>::empty());
    while i < items.len()
        invariant
            i <= items.len(),
            out@ == item_bytes(items@.take(i as int)),
        decreases items.len() - i,
    {
        assert(items@.take(i + 1).drop_last() =~= items@.take(i as int));
        match items[i] {
            Some(b) => {
                out.push(b as u8);
            },
            None => {},
        }
        assert(out@ =~= item_bytes(items@.take(i + 1)));
        i = i + 1;
    }
    assert(items@.take(items.len() as int) =~= items@);
    out
}

/// Extracts a journald field value, which is either a string or an array of
/// bytes for non-UTF-8 payloads.
fn field_str(value: &JsonField) -> (res: Option<String>)
    ensures
        opt_chars(res) == field_text(*value),
{
    match value {
        JsonField::Text(s) => Some(s.clone()),
        JsonField::Items(items) => {
            let bytes = bytes_of_items(items);
            Some(decode_lossy(bytes.as_slice()))
        },
        JsonField::Other => None,
    }
}

/// The text of the member called `key`, if there is one with a text value.
fn text_of(fields: &Vec<(String, JsonField)>, key: &str) -> (res: Option<String>)
    ensures
        opt_chars(res) == opt_text(lookup(fields@, key@)),
{
    match find(fields, key) {
        Some(v) => field_str(v),
        None => None,
    }
}

/// The text of the member called `first`, or if there is none, of the
/// member called `second`.
fn text_of_first(fields: &Vec<(String, JsonField)>, first: &str, second: &str) -> (res: Option<
    String,
>)
    ensures
        opt_chars(res) == opt_text(or_else(lookup(fields@, first@), lookup(fields@, second@))),
{
    match find(fields, first) {
        Some(v) => field_str(v),
        None => text_of(fields, second),
    }
}

/// Builds the record that the members `fields` of a journal line from
/// `host` describe; `None` when the realtime timestamp is missing or is not
/// a decimal integer.
pub fn record_from_members(host: &str, fields: &Vec<(String, JsonField)>) -> (res: Option<Record>)
    ensures
        opt_record(res) == record_from_fields(host@, fields@),
{
    let stamp = match text_of(fields, "__REALTIME_TIMESTAMP") {
        Some(t) => t,
        None => return None,
    };
    let timestamp_us = match parse_i64(stamp.as_str()) {
        Some(ts) => ts,
        None => return None,
    };
    let cursor = text_of(fields, "__CURSOR");
    let unit = match find(fields, "_SYSTEMD_UNIT") {
        Some(v) => field_str(v),
        None => text_of_first(fields, "UNIT", "SYSLOG_IDENTIFIER"),
    };
    let pid = text_of_first(fields, "_PID", "SYSLOG_PID");
    let priority = match text_of(fields, "PRIORITY") {
        Some(p) => parse_u8(p.as_str()),
        None => None,
    };
    let message = match text_of(fields, "MESSAGE") {
        Some(m) => m,
        None => String::new(),
    };
    let r = Record { host: host.to_string(), timestamp_us, cursor, unit, pid, priority, message };
    proof {
        assert(r@ == record_from_fields(host@, fields@).unwrap());
    }
    Some(r)
}

/// Parses one `journalctl -o json` line into a [`Record`].
///
/// Returns `None` for blank or malformed lines; a live journal stream may
/// legitimately contain both. Journald encodes non-UTF-8 field payloads as
/// arrays of bytes, which are decoded lossily.
pub fn parse(host: &str, line: &str) -> (res: Option<Record>)
    ensures
        opt_record(res) == parsed_record(host@, line@),
{
    match json_object(trim(line)) {
        Some(fields) => record_from_members(host, &fields),
        None => None,
    }
}

} // verus!

//! Log lines: how a record is laid out as text and as JSON.

use vstd::prelude::*;

use crate::text::decimal;
use crate::text::decimal_text;
use crate::text::same_text;

verus! {

/// The severity of a log record.
#[derive(Clone, Copy, Debug, PartialEq, Eq, Structural)]
pub enum Level {
    Error,
    Warn,
    Info,
    Debug,
    Trace,
}

/// The severity of a record in the telemetry protocol.
#[derive(Clone, Copy, Debug, PartialEq, Eq, Structural)]
pub enum Severity {
    Trace,
    Debug,
    Info,
    Warn,
    Error,
}

/// The telemetry severity that stands for a log level.
pub open spec fn otel_severity(level: Level) -> Severity {
    match level {
        Level::Error => Severity::Error,
        Level::Warn => Severity::Warn,
        Level::Info => Severity::Info,
        Level::Debug => Severity::Debug,
        Level::Trace => Severity::Trace,
    }
}

/// Maps a log level to the telemetry severity of the same name.
pub fn map_severity_to_otel_severity(level: Level) -> (s: Severity)
    ensures
        s == otel_severity(level),
{
    match level {
        Level::Error => Severity::Error,
        Level::Warn => Severity::Warn,
        Level::Info => Severity::Info,
        Level::Debug => Severity::Debug,
        Level::Trace => Severity::Trace,
    }
}

/// The name of a level, in capitals.
pub open spec fn level_name(level: Level) -> Seq<char> {
    match level {
        Level::Error => "ERROR"@,
        Level::Warn => "WARN"@,
        Level::Info => "INFO"@,
        Level::Debug => "DEBUG"@,
        Level::Trace => "TRACE"@,
    }
}

/// A text moved to the right end of a field of the given width, filled up
/// with spaces. A text that is wider than the field is left as it is.
pub open spec fn right_aligned(text: Seq<char>, width: nat) -> Seq<char> {
    if text.len() >= width {
        text
    } else {
        Seq::new((width - text.len()) as nat, |i: int| ' ') + text
    }
}

impl Level {
    /// The name of the level, in capitals.
    pub fn as_str(&self) -> (s: &'static str)
        ensures
            s@ == level_name(*self),
    {
        match self {
            Level::Error => "ERROR",
            Level::Warn => "WARN",
            Level::Info => "INFO",
            Level::Debug => "DEBUG",
            Level::Trace => "TRACE",
        }
    }

    /// The name of the level, right-aligned in five columns.
    pub fn padded(&self) -> (s: &'static str)
        ensures
            s@ == right_aligned(level_name(*self), 5),
    {
        proof {
            reveal_strlit("ERROR");
            reveal_strlit("WARN");
            reveal_strlit("INFO");
            reveal_strlit("DEBUG");
            reveal_strlit("TRACE");
            reveal_strlit(" WARN");
            reveal_strlit(" INFO");
        }
        let s = match self {
            Level::Error => "ERROR",
            Level::Warn => " WARN",
            Level::Info => " INFO",
            Level::Debug => "DEBUG",
            Level::Trace => "TRACE",
        };
        assert(s@ =~= right_aligned(level_name(*self), 5));
        s
    }
}

/// How the lines of a log file are laid out.
#[derive(Clone, Copy, Debug, PartialEq, Eq, Structural)]
pub enum LogFormat {
    Text,
    Json,
}

/// Whether a name is that of a layout for log files.
pub open spec fn is_format_name(name: Seq<char>) -> bool {
    name == "text"@ || name == "json"@
}

/// The layout with the given name, `text` or `json`, if there is one.
pub fn parse_format(format: &str) -> (r: Option<LogFormat>)
    ensures
        r == (if format@ == "text"@ {
            Some(LogFormat::Text)
        } else if format@ == "json"@ {
            Some(LogFormat::Json)
        } else {
            None
        }),
{
    if same_text(format, "text") {
        Some(LogFormat::Text)
    } else if same_text(format, "json") {
        Some(LogFormat::Json)
    } else {
        None
    }
}

/// The layout with the given name, which is `text` or `json`.
pub fn formatter(format: &str) -> (r: LogFormat)
    requires
        is_format_name(format@),
    ensures
        format@ == "text"@ ==> r == LogFormat::Text,
        format@ != "text"@ ==> r == LogFormat::Json,
{
    if same_text(format, "text") {
        LogFormat::Text
    } else {
        LogFormat::Json
    }
}

/// One key with its value, both as text.
#[derive(Clone, Debug)]
pub struct KeyValue {
    pub key: String,
    pub value: String,
}

/// Mathematical value of a `KeyValue`.
pub struct KeyValueView {
    pub key: Seq<char>,
    pub value: Seq<char>,
}

impl View for KeyValue {
    type V = KeyValueView;

    open spec fn view(&self) -> KeyValueView {
        KeyValueView { key: self.key@, value: self.value@ }
    }
}

/// The views of a sequence of keys and values.
pub open spec fn pairs_view(s: Seq<KeyValue>) -> Seq<KeyValueView> {
    Seq::new(s.len(), |i: int| s[i]@)
}

/// The keys and values of a record written out: for each pair a space, the
/// key, an equals sign and the value.
pub open spec fn kv_text(pairs: Seq<KeyValueView>) -> Seq<char>
    decreases pairs.len(),
{
    if pairs.len() == 0 {
        Seq::empty()
    } else {
        kv_text(pairs.drop_last()) + " "@ + pairs.last().key + "="@ + pairs.last().value
    }
}

/// The keys and values of a log record, ready to be written out.
#[derive(Clone, Debug)]
pub struct KvDisplay {
    kv: Vec<KeyValue>,
}

impl View for KvDisplay {
    type V = Seq<KeyValueView>;

    closed spec fn view(&self) -> Seq<KeyValueView> {
        pairs_view(self.kv@)
    }
}

impl KvDisplay {
    /// Wraps the keys and values of a record, in the order of the record.
    pub fn new(kv: Vec<KeyValue>) -> (d: KvDisplay)
        ensures
            d@ == pairs_view(kv@),
    {
        KvDisplay { kv }
    }

    /// The pairs, in the order of the record.
    pub fn pairs(&self) -> (p: &Vec<KeyValue>)
        ensures
            pairs_view(p@) == self@,
    {
        &self.kv
    }

    /// Writes the pairs out: for each a space, the key, an equals sign and the value.
    pub fn render(&self) -> (s: String)
        ensures
            s@ == kv_text(self@),
    {
        let ghost all = pairs_view(self.kv@);
        let mut out = String::new();
        let mut i: usize = 0;
        while i < self.kv.len()
            invariant
                i <= self.kv@.len(),
                all == pairs_view(self.kv@),
                out@ == kv_text(all.subrange(0, i as int)),
            decreases self.kv@.len() - i,
        {
            proof {
                let next = all.subrange(0, i + 1);
                assert(next.drop_last() =~= all.subrange(0, i as int));
                assert(next.last() == self.kv@[i as int]@);
            }
            out.append(" ");
            out.append(self.kv[i].key.as_str());
            out.append("=");
            out.append(self.kv[i].value.as_str());
            i += 1;
        }
        assert(all.subrange(0, i as int) =~= all);
        out
    }
}

/// A point in time, counted from the start of 1970 in UTC.
#[derive(Clone, Copy, Debug, PartialEq, Eq)]
pub struct Timestamp {
    pub secs_since_epoch: u64,
    pub subsec_nanos: u32,
}

impl Timestamp {
    /// The time lies before the year 10000 and the nanoseconds are less than a second.
    pub open spec fn in_range(&self) -> bool {
        self.secs_since_epoch < 253_402_300_800 && self.subsec_nanos < 1_000_000_000
    }

    /// The point in time, if it can be written as a timestamp.
    pub fn new(secs_since_epoch: u64, subsec_nanos: u32) -> (r: Option<Timestamp>)
        ensures
            r is Some <==> (Timestamp { secs_since_epoch, subsec_nanos }).in_range(),
            r is Some ==> r->Some_0 == (Timestamp { secs_since_epoch, subsec_nanos }),
    {
        if secs_since_epoch < 253_402_300_800 && subsec_nanos < 1_000_000_000 {
            Some(Timestamp { secs_since_epoch, subsec_nanos })
        } else {
            None
        }
    }
}

/// The timestamp that `humantime::format_rfc3339_micros` writes for a point in time.
pub uninterp spec fn rfc3339_micros_text(secs_since_epoch: u64, subsec_nanos: u32) -> Seq<char>;

/// Calls `humantime::format_rfc3339_micros` on the given point in time and
/// takes the text that it displays. Trusted: that the text depends on the
/// point in time alone. Times from the year 10000 on, which the display
/// refuses, are left out.
#[verifier::external_body]
fn format_rfc3339_micros(time: Timestamp) -> (text: String)
    requires
        time.in_range(),
    ensures
        text@ == rfc3339_micros_text(time.secs_since_epoch, time.subsec_nanos),
{
    let since_epoch = std::time::Duration::new(time.secs_since_epoch, time.subsec_nanos);
    humantime::format_rfc3339_micros(std::time::UNIX_EPOCH + since_epoch).to_string()
}

/// A text in which each occurrence of a character is replaced by a text.
pub open spec fn replaced(text: Seq<char>, from: char, to: Seq<char>) -> Seq<char>
    decreases text.len(),
{
    if text.len() == 0 {
        Seq::empty()
    } else {
        replaced(text.drop_last(), from, to) + (if text.last() == from {
            to
        } else {
            seq![text.last()]
        })
    }
}

/// Calls `str::replace` with a character as the pattern. Trusted: that every
/// occurrence of the character is replaced and the rest is copied, as the
/// documentation of std says.
#[verifier::external_body]
fn replace_char(text: &str, from: char, to: &str) -> (r: String)
    ensures
        r@ == replaced(text@, from, to@),
{
    text.replace(from, to)
}

/// The text of an optional text: nothing where there is none.
pub open spec fn text_or_empty(t: Option<&str>) -> Seq<char> {
    match t {
        Some(s) => s@,
        None => ""@,
    }
}

/// The number of an optional line: zero where there is none.
pub open spec fn line_or_zero(line: Option<u32>) -> nat {
    match line {
        Some(n) => n as nat,
        None => 0,
    }
}

/// A record as one line of a text log: the time, the level in five columns,
/// the module, the file and line, the message and the keys and values.
pub open spec fn text_line(
    time: Seq<char>,
    level: Level,
    module: Seq<char>,
    file: Seq<char>,
    line: nat,
    message: Seq<char>,
    pairs: Seq<KeyValueView>,
) -> Seq<char> {
    time + " "@ + right_aligned(level_name(level), 5) + " "@ + module + ": "@ + file + ":"@
        + decimal_text(line) + " "@ + message + kv_text(pairs)
}

/// Lays a record out as one line of a text log.
pub fn format_text_log(
    time: Timestamp,
    level: Level,
    module: Option<&str>,
    file: Option<&str>,
    line: Option<u32>,
    message: &str,
    kv: &KvDisplay,
) -> (out: String)
    requires
        time.in_range(),
    ensures
        out@ == text_line(
            rfc3339_micros_text(time.secs_since_epoch, time.subsec_nanos),
            level,
            text_or_empty(module),
            text_or_empty(file),
            line_or_zero(line),
            message@,
            kv@,
        ),
{
    let mut out = format_rfc3339_micros(time);
    out.append(" ");
    out.append(level.padded());
    out.append(" ");
    out.append(
        match module {
            Some(m) => m,
            None => "",
        },
    );
    out.append(": ");
    out.append(
        match file {
            Some(f) => f,
            None => "",
        },
    );
    out.append(":");
    let number = decimal(
        match line {
            Some(n) => n as u128,
            None => 0,
        },
    );
    out.append(number.as_str());
    out.append(" ");
    out.append(message);
    let pairs = kv.render();
    out.append(pairs.as_str());
    out
}

/// What a line break becomes inside a trace event: a line break and as many
/// spaces as the time and the level take up.
pub open spec fn continuation() -> Seq<char> {
    "\n                                  "@
}

/// A record as the text of a trace event: the time, the level in five
/// columns, the message and the keys and values, with every line after the
/// first moved in under the message.
pub open spec fn trace_text(
    time: Seq<char>,
    level: Level,
    message: Seq<char>,
    pairs: Seq<KeyValueView>,
) -> Seq<char> {
    replaced(
        time + " "@ + right_aligned(level_name(level), 5) + " "@ + message + kv_text(pairs),
        '\n',
        continuation(),
    )
}

/// Lays a record out as the text of a trace event.
pub fn format_trace_event(time: Timestamp, level: Level, message: &str, kv: &KvDisplay) -> (out:
    String)
    requires
        time.in_range(),
    ensures
        out@ == trace_text(
            rfc3339_micros_text(time.secs_since_epoch, time.subsec_nanos),
            level,
            message@,
            kv@,
        ),
{
    let mut text = format_rfc3339_micros(time);
    text.append(" ");
    text.append(level.padded());
    text.append(" ");
    text.append(message);
    let pairs = kv.render();
    text.append(pairs.as_str());
    replace_char(text.as_str(), '\n', "\n                                  ")
}

/// A text without the character is left as it is by the replacement, so
/// a text need not be searched before it is handed to the replacement.
pub proof fn lemma_replaced_without_match(text: Seq<char>, from: char, to: Seq<char>)
    requires
        forall|i: int| 0 <= i < text.len() ==> text[i] != from,
    ensures
        replaced(text, from, to) == text,
    decreases text.len(),
{
    if text.len() > 0 {
        lemma_replaced_without_match(text.drop_last(), from, to);
        assert(text.drop_last() + seq![text.last()] =~= text);
    }
}

/// `serde_json::Map`, the object of a JSON document.
#[verifier::external_type_specification]
#[verifier::external_body]
#[verifier::reject_recursive_types(K)]
#[verifier::reject_recursive_types(V)]
pub struct ExJsonMap<K, V>(serde_json::Map<K, V>);

/// `serde_json::Value`, any value of a JSON document.
#[verifier::external_type_specification]
#[verifier::external_body]
pub struct ExJsonValue(serde_json::Value);

/// The text fields of a JSON object: under each key that holds a JSON
/// string, the text of that string.
pub uninterp spec fn json_fields(object: serde_json::Map<String, serde_json::Value>) -> Map<
    Seq<char>,
    Seq<char>,
>;

/// Whether every value of a JSON object is a JSON string, so that the text
/// fields are all that the object holds.
pub uninterp spec fn json_all_text(object: serde_json::Map<String, serde_json::Value>) -> bool;

/// The fields of an object without fields.
pub open spec fn no_fields() -> Map<Seq<char>, Seq<char>> {
    Map::empty()
}

/// What `serde_json::to_string` gives for an object that holds these text
/// fields and nothing else: the text that it writes, or nothing where it fails.
pub uninterp spec fn json_object_text(fields: Map<Seq<char>, Seq<char>>) -> Option<Seq<char>>;

/// Calls `serde_json::Map::new`. Trusted: that the new object has no field,
/// and so no value that is not a text.
#[verifier::external_body]
fn json_object_new() -> (r: serde_json::Map<String, serde_json::Value>)
    ensures
        json_fields(r) == no_fields(),
        json_all_text(r),
{
    serde_json::Map::new()
}

/// Calls `serde_json::Map::insert` with the value as a JSON string. Trusted:
/// that the object then holds the value under the key, in place of what the
/// key held before, and everything else as before; an object of texts only
/// stays one.
#[verifier::external_body]
fn json_object_insert(
    object: &mut serde_json::Map<String, serde_json::Value>,
    key: String,
    value: String,
)
    ensures
        json_fields(*final(object)) == json_fields(*old(object)).insert(key@, value@),
        json_all_text(*old(object)) ==> json_all_text(*final(object)),
{
    object.insert(key, value.into());
}

/// Calls `serde_json::to_string` on an object of texts only, and drops the
/// error where it fails. Trusted: that the outcome depends on the fields
/// alone; the object keeps its fields ordered by key, so the order of
/// insertion leaves no trace. An object with a value that is no text is
/// left out: its text fields do not tell what is written.
#[verifier::external_body]
fn json_object_to_string(object: &serde_json::Map<String, serde_json::Value>) -> (text: Option<
    String,
>)
    requires
        json_all_text(*object),
    ensures
        text is Some <==> json_object_text(json_fields(*object)) is Some,
        text is Some ==> text->Some_0@ == json_object_text(json_fields(*object))->Some_0,
{
    serde_json::to_string(object).ok()
}

/// The fields of a record in a JSON log: the message under `message`, then
/// each pair under its key. A later pair replaces an earlier field of the same key.
pub open spec fn record_fields(message: Seq<char>, pairs: Seq<KeyValueView>) -> Map<
    Seq<char>,
    Seq<char>,
>
    decreases pairs.len(),
{
    if pairs.len() == 0 {
        no_fields().insert("message"@, message)
    } else {
        record_fields(message, pairs.drop_last()).insert(pairs.last().key, pairs.last().value)
    }
}

/// A record as one line of a JSON log: an object with the time, the level
/// and the fields as they were serialised.
pub open spec fn json_line(time: Seq<char>, level: Level, fields: Seq<char>) -> Seq<char> {
    "{\"timestamp\":\""@ + time + "\",\"level\":\""@ + level_name(level) + "\",\"fields\":"@
        + fields + "}"@
}

/// Puts the line of a JSON log together from the time as text and the
/// serialised fields. Where the fields could not be serialised they are left empty.
pub fn assemble_json_log(time: &str, level: Level, fields: Option<String>) -> (out: String)
    ensures
        out@ == json_line(
            time@,
            level,
            match fields {
                Some(text) => text@,
                None => ""@,
            },
        ),
{
    let mut out = "{\"timestamp\":\"".to_owned();
    out.append(time);
    out.append("\",\"level\":\"");
    out.append(level.as_str());
    out.append("\",\"fields\":");
    match fields {
        Some(text) => {
            out.append(text.as_str());
        },
        None => {
            out.append("");
        },
    }
    out.append("}");
    out
}

/// The fields of a log line as they were serialised: nothing where
/// serialising failed.
pub open spec fn serialised_or_empty(text: Option<Seq<char>>) -> Seq<char> {
    match text {
        Some(t) => t,
        None => ""@,
    }
}

/// Lays a record out as one line of a JSON log. The fields are serialised
/// by `serde_json`; should that fail, the line has no fields.
pub fn format_json_log(time: Timestamp, level: Level, message: &str, kv: &KvDisplay) -> (out:
    String)
    requires
        time.in_range(),
    ensures
        out@ == json_line(
            rfc3339_micros_text(time.secs_since_epoch, time.subsec_nanos),
            level,
            serialised_or_empty(json_object_text(record_fields(message@, kv@))),
        ),
{
    let mut fields = json_object_new();
    json_object_insert(&mut fields, "message".to_owned(), message.to_owned());
    let pairs = kv.pairs();
    let ghost all = pairs_view(pairs@);
    let mut i: usize = 0;
    while i < pairs.len()
        invariant
            i <= pairs@.len(),
            all == pairs_view(pairs@),
            json_fields(fields) == record_fields(message@, all.subrange(0, i as int)),
            json_all_text(fields),
        decreases pairs@.len() - i,
    {
        proof {
            let next = all.subrange(0, i + 1);
            assert(next.drop_last() =~= all.subrange(0, i as int));
            assert(next.last() == pairs@[i as int]@);
        }
        json_object_insert(&mut fields, pairs[i].key.clone(), pairs[i].value.clone());
        i += 1;
    }
    assert(all.subrange(0, i as int) =~= all);
    let text = json_object_to_string(&fields);
    let stamp = format_rfc3339_micros(time);
    assemble_json_log(stamp.as_str(), level, text)
}

} // verus!

//! The log's text: secret redaction, timestamps and line layout. Opening
//! the log file and appending lines is left to the program around the
//! library.
use vstd::prelude::*;
use crate::app_paths::{app_log_path, joined};
use crate::pattern::{regex_replace_all, regex_replaced};
use crate::text::{copy_str, decimal, decimal_padded, decimal_string, push_char, push_str};

verus! {

/// Redacts "Authorization: Token ..." headers.
pub open spec fn authorization_pattern() -> Seq<char> {
    r#"(?i)(?P<prefix>authorization\s*[:=]\s*token\s+)[A-Za-z0-9._-]+"#@
}

/// Redacts `key=value` pairs whose key names an API key, a token, a
/// password or a credential.
pub open spec fn secret_pair_pattern() -> Seq<char> {
    r#"(?i)(?P<prefix>["']?(?:api[_ -]?key|[\w.-]*token|[\w.-]*password|credential)["']?\s*[:=]\s*["']?)[^"',\s]+"#@
}

/// What replaces a redacted value: the matched key part, then a marker.
pub open spec fn redaction_replacement() -> Seq<char> {
    "${prefix}[REDACTED]"@
}

/// `text` with the matches of `pattern` redacted (unchanged when the pattern
/// does not compile).
pub open spec fn redact_with(text: Seq<char>, pattern: Seq<char>) -> Seq<char> {
    match regex_replaced(pattern, text, redaction_replacement()) {
        Some(r) => r,
        None => text,
    }
}

/// `message` with authorization headers redacted, then secret pairs.
pub open spec fn sanitize_spec(message: Seq<char>) -> Seq<char> {
    redact_with(redact_with(message, authorization_pattern()), secret_pair_pattern())
}

/// The timestamp text of a time since the Unix epoch: seconds, a dot and
/// three millisecond digits; "time-error" when the clock read failed.
pub open spec fn timestamp_spec(t: Option<(u64, u32)>) -> Seq<char> {
    match t {
        Some((secs, millis)) => decimal(secs as nat) + "."@ + decimal_padded(millis as nat, 3),
        None => "time-error"@,
    }
}

/// One line of the log file.
pub open spec fn log_line_spec(timestamp: Seq<char>, level: Seq<char>, message: Seq<char>) -> Seq<char> {
    "["@ + timestamp + "] ["@ + level + "] "@ + sanitize_spec(message) + "\n"@
}

/// A reading of the system clock that is possible: milliseconds below 1000.
pub open spec fn clock_reading(t: Option<(u64, u32)>) -> bool {
    t matches Some(p) ==> p.1 < 1000
}

/// Reads the system clock as seconds and milliseconds since the Unix epoch
/// (`SystemTime::now().duration_since(UNIX_EPOCH)`); `None` when the clock
/// is before the epoch. The contract claims only what `subsec_millis`
/// documents: the milliseconds are below 1000.
#[verifier::external_body]
pub(crate) fn unix_time_now() -> (t: Option<(u64, u32)>)
    ensures
        clock_reading(t),
{
    let d = std::time::SystemTime::now().duration_since(std::time::UNIX_EPOCH).ok()?;
    Some((d.as_secs(), d.subsec_millis()))
}

/// `message` with secrets redacted.
pub fn sanitize_message(message: &str) -> (out: String)
    ensures
        out@ == sanitize_spec(message@),
{
    let first = match regex_replace_all(
        r#"(?i)(?P<prefix>authorization\s*[:=]\s*token\s+)[A-Za-z0-9._-]+"#,
        message,
        "${prefix}[REDACTED]",
    ) {
        Some(r) => r,
        None => copy_str(message),
    };
    match regex_replace_all(
        r#"(?i)(?P<prefix>["']?(?:api[_ -]?key|[\w.-]*token|[\w.-]*password|credential)["']?\s*[:=]\s*["']?)[^"',\s]+"#,
        first.as_str(),
        "${prefix}[REDACTED]",
    ) {
        Some(r) => r,
        None => first,
    }
}

/// `n` in decimal with at least three digits.
fn three_digits(n: u32) -> (s: String)
    requires
        n < 1000,
    ensures
        s@ == decimal_padded(n as nat, 3),
{
    let d = decimal_string(n as u64);
    proof {
        crate::text::lemma_decimal_len(n as nat);
        reveal_with_fuel(decimal, 3);
    }
    if n >= 100 {
        proof {
            assert(decimal(n as nat).len() == 3);
        }
        d
    } else if n >= 10 {
        let mut s = copy_str("0");
        push_str(&mut s, d.as_str());
        proof {
            reveal_strlit("0");
            assert(decimal(n as nat).len() == 2);
            assert(s@ =~= decimal_padded(n as nat, 3));
        }
        s
    } else {
        let mut s = copy_str("00");
        push_str(&mut s, d.as_str());
        proof {
            reveal_strlit("00");
            assert(decimal(n as nat).len() == 1);
            assert(s@ =~= decimal_padded(n as nat, 3));
        }
        s
    }
}

/// The timestamp text of a clock reading.
pub fn format_timestamp(t: Option<(u64, u32)>) -> (s: String)
    requires
        clock_reading(t),
    ensures
        s@ == timestamp_spec(t),
{
    match t {
        Some((secs, millis)) => {
            let mut s = decimal_string(secs);
            push_char(&mut s, '.');
            let m = three_digits(millis);
            push_str(&mut s, m.as_str());
            proof {
                reveal_strlit(".");
                assert(s@ =~= timestamp_spec(t));
            }
            s
        },
        None => copy_str("time-error"),
    }
}

/// The timestamp text of the current time.
pub fn timestamp_string() -> (s: String)
    ensures
        exists|t: Option<(u64, u32)>| clock_reading(t) && s@ == timestamp_spec(t),
{
    let t = unix_time_now();
    format_timestamp(t)
}

/// One log line for `message` at `level`, stamped with `timestamp`.
pub fn log_line(timestamp: &str, level: &str, message: &str) -> (line: String)
    ensures
        line@ == log_line_spec(timestamp@, level@, message@),
{
    let mut line = copy_str("[");
    push_str(&mut line, timestamp);
    push_str(&mut line, "] [");
    push_str(&mut line, level);
    push_str(&mut line, "] ");
    let sanitized = sanitize_message(message);
    push_str(&mut line, sanitized.as_str());
    push_str(&mut line, "\n");
    proof {
        assert(line@ =~= log_line_spec(timestamp@, level@, message@));
    }
    line
}

/// The line that records `message` at `level` now.
fn write_line(level: &str, message: &str) -> (line: String)
    ensures
        exists|t: Option<(u64, u32)>|
            clock_reading(t) && line@ == log_line_spec(timestamp_spec(t), level@, message@),
{
    let ts = timestamp_string();
    log_line(ts.as_str(), level, message)
}

/// The log line for an informational `message`, stamped now.
pub fn info(message: &str) -> (line: String)
    ensures
        exists|t: Option<(u64, u32)>|
            clock_reading(t) && line@ == log_line_spec(timestamp_spec(t), "INFO"@, message@),
{
    write_line("INFO", message)
}

/// The log line for a warning `message`, stamped now.
pub fn warn(message: &str) -> (line: String)
    ensures
        exists|t: Option<(u64, u32)>|
            clock_reading(t) && line@ == log_line_spec(timestamp_spec(t), "WARN"@, message@),
{
    write_line("WARN", message)
}

/// The log line for an error `message`, stamped now.
pub fn error(message: &str) -> (line: String)
    ensures
        exists|t: Option<(u64, u32)>|
            clock_reading(t) && line@ == log_line_spec(timestamp_spec(t), "ERROR"@, message@),
{
    write_line("ERROR", message)
}

/// Where a panic happened: file, line and column.
pub struct PanicLocation {
    pub file: String,
    pub line: u32,
    pub column: u32,
}

/// The description of a panic with text payload `payload` (when the
/// payload is text at all) at `location` (when known).
pub open spec fn panic_description_spec(payload: Option<Seq<char>>, location: Option<(Seq<char>, u32, u32)>) -> Seq<char> {
    let text = match payload {
        Some(p) => p,
        None => "non-string panic payload"@,
    };
    match location {
        Some((file, line, column)) => "panic at "@ + file + ":"@ + decimal(line as nat) + ":"@ + decimal(
            column as nat,
        ) + ": "@ + text,
        None => "panic: "@ + text,
    }
}

/// The log text that describes a panic.
pub fn panic_description(payload: Option<String>, location: Option<PanicLocation>) -> (d: String)
    ensures
        d@ == panic_description_spec(
            match payload {
                Some(p) => Some(p@),
                None => None,
            },
            match location {
                Some(l) => Some((l.file@, l.line, l.column)),
                None => None,
            },
        ),
{
    let text = match payload {
        Some(p) => p,
        None => copy_str("non-string panic payload"),
    };
    match location {
        Some(l) => {
            let mut d = copy_str("panic at ");
            push_str(&mut d, l.file.as_str());
            push_str(&mut d, ":");
            let line = decimal_string(l.line as u64);
            push_str(&mut d, line.as_str());
            push_str(&mut d, ":");
            let column = decimal_string(l.column as u64);
            push_str(&mut d, column.as_str());
            push_str(&mut d, ": ");
            push_str(&mut d, text.as_str());
            d
        },
        None => {
            let mut d = copy_str("panic: ");
            push_str(&mut d, text.as_str());
            d
        },
    }
}

/// The log file in use: the one the logger opened, else the default one
/// under the data directory, else none.
pub fn log_path(opened: Option<String>, data_dir: Option<String>) -> (p: Option<String>)
    ensures
        opened matches Some(o) ==> p == Some(o),
        opened is None && data_dir is None ==> p is None,
        opened is None ==> (data_dir matches Some(d) ==> (p matches Some(q) && exists|logs: Seq<char>|
            joined(d@, "logs"@, logs) && joined(logs, "soziopolis-reader.log"@, q@))),
{
    match opened {
        Some(o) => Some(o),
        None => match data_dir {
            Some(d) => Some(app_log_path(d.as_str())),
            None => None,
        },
    }
}

} // verus!

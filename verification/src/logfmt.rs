//! The logging layer's decisions and formatting: severity filtering, field
//! accumulation, and the console line for each event.

use vstd::prelude::*;
use crate::textutil::eq_str;

verus! {

/// A log severity, most severe first.
#[derive(Clone, Copy, Debug, PartialEq, Eq, Structural)]
pub enum LogLevel {
    Error,
    Warn,
    Info,
    Debug,
    Trace,
}

/// A severity's rank: lower is more severe.
pub open spec fn spec_level_rank(l: LogLevel) -> int {
    match l {
        LogLevel::Error => 0,
        LogLevel::Warn => 1,
        LogLevel::Info => 2,
        LogLevel::Debug => 3,
        LogLevel::Trace => 4,
    }
}

/// Whether an event of this severity passes a threshold: it does unless it
/// is more verbose than the threshold.
pub fn should_log(event: LogLevel, threshold: LogLevel) -> (r: bool)
    ensures
        r == (spec_level_rank(event) <= spec_level_rank(threshold)),
{
    let er: u8 = match event {
        LogLevel::Error => 0,
        LogLevel::Warn => 1,
        LogLevel::Info => 2,
        LogLevel::Debug => 3,
        LogLevel::Trace => 4,
    };
    let tr: u8 = match threshold {
        LogLevel::Error => 0,
        LogLevel::Warn => 1,
        LogLevel::Info => 2,
        LogLevel::Debug => 3,
        LogLevel::Trace => 4,
    };
    er <= tr
}

/// A severity's upper-case label.
pub open spec fn spec_level_label(l: LogLevel) -> Seq<char> {
    match l {
        LogLevel::Error => "ERROR"@,
        LogLevel::Warn => "WARN"@,
        LogLevel::Info => "INFO"@,
        LogLevel::Debug => "DEBUG"@,
        LogLevel::Trace => "TRACE"@,
    }
}

/// The severity's label as a string.
pub fn level_label(l: LogLevel) -> (r: &'static str)
    ensures
        r@ == spec_level_label(l),
{
    match l {
        LogLevel::Error => "ERROR",
        LogLevel::Warn => "WARN",
        LogLevel::Info => "INFO",
        LogLevel::Debug => "DEBUG",
        LogLevel::Trace => "TRACE",
    }
}

/// `s` left-padded with spaces to at least `width` characters.
pub open spec fn spec_pad_left(s: Seq<char>, width: int) -> Seq<char> {
    if s.len() >= width {
        s
    } else {
        Seq::new((width - s.len()) as nat, |i: int| ' ') + s
    }
}

/// Left-pad with spaces to at least `width` characters.
pub fn pad_left(s: &str, width: usize) -> (r: String)
    requires
        width <= 16,
    ensures
        r@ == spec_pad_left(s@, width as int),
{
    let slen = s.unicode_len();
    if slen >= width {
        return String::from_str(s);
    }
    let mut r = String::new();
    let mut i: usize = 0;
    while i < width - slen
        invariant
            0 <= i <= width - slen,
            slen == s@.len(),
            slen < width <= 16,
            r@ =~= Seq::new(i as nat, |j: int| ' '),
        decreases width - slen - i,
    {
        r.append(" ");
        proof {
            reveal_strlit(" ");
            assert(r@ =~= Seq::new((i + 1) as nat, |j: int| ' '));
        }
        i = i + 1;
    }
    r.append(s);
    proof {
        assert(r@ =~= Seq::new((width - slen) as nat, |j: int| ' ') + s@);
    }
    r
}

/// Accumulates an event's fields as text, the message field verbatim and
/// every other as `name = value; `.
pub struct StringVisitor {
    pub string: String,
}

impl StringVisitor {
    /// An empty accumulator.
    pub fn new() -> (r: StringVisitor)
        ensures
            r.string@ == Seq::<char>::empty(),
    {
        StringVisitor { string: String::new() }
    }

    /// Record one field whose value was already rendered: the `message`
    /// field appends its rendering alone, any other appends
    /// `name = rendering; `.
    pub fn record_rendered(&mut self, field_name: &str, rendered: &str)
        ensures
            final(self).string@ == old(self).string@ + (if field_name@ == "message"@ {
                rendered@
            } else {
                field_name@ + " = "@ + rendered@ + "; "@
            }),
    {
        if eq_str(field_name, "message") {
            self.string.append(rendered);
        } else {
            self.string.append(field_name);
            self.string.append(" = ");
            self.string.append(rendered);
            self.string.append("; ");
        }
    }
}

/// The console line for one event.  Errors and warnings carry target,
/// fields and event name; informational and more verbose lines also carry
/// the severity label padded to five characters.
pub open spec fn spec_log_line(
    level: LogLevel,
    target: Seq<char>,
    fields: Seq<char>,
    name: Seq<char>,
) -> Seq<char> {
    let tail = target + ": "@ + fields + " ("@ + name + ")"@;
    if spec_level_rank(level) <= 1 {
        tail
    } else {
        spec_pad_left(spec_level_label(level), 5) + " "@ + tail
    }
}

/// Format the console line for one event.
pub fn format_line(level: LogLevel, target: &str, fields: &str, name: &str) -> (r: String)
    ensures
        r@ == spec_log_line(level, target@, fields@, name@),
{
    let mut tail = String::from_str(target);
    tail.append(": ");
    tail.append(fields);
    tail.append(" (");
    tail.append(name);
    tail.append(")");
    match level {
        LogLevel::Error => tail,
        LogLevel::Warn => tail,
        _ => {
            let mut r = pad_left(level_label(level), 5);
            r.append(" ");
            r.append(tail.as_str());
            r
        },
    }
}

/// The logging layer: events above this threshold are dropped.
pub struct WorkerLayer {
    pub level: LogLevel,
}

impl WorkerLayer {
    /// A layer with this verbosity threshold.
    pub fn new(level: LogLevel) -> (r: WorkerLayer)
        ensures
            r.level == level,
    {
        WorkerLayer { level }
    }
}

/// The verbosity a request-serving run logs at: everything in development,
/// informational and up otherwise.
pub fn request_log_level(env: &str) -> (r: LogLevel)
    ensures
        r == (if env@ == "development"@ {
            LogLevel::Trace
        } else {
            LogLevel::Info
        }),
{
    if eq_str(env, "development") {
        LogLevel::Trace
    } else {
        LogLevel::Info
    }
}

/// The verbosity a scheduled run logs at: informational and up in
/// production, everything otherwise.
pub fn scheduled_log_level(env: &str) -> (r: LogLevel)
    ensures
        r == (if env@ == "production"@ {
            LogLevel::Info
        } else {
            LogLevel::Trace
        }),
{
    if eq_str(env, "production") {
        LogLevel::Info
    } else {
        LogLevel::Trace
    }
}

} // verus!

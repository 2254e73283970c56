//! The stock record formatters: a plain text line and a JSON line.

use vstd::prelude::*;

use crate::appender::{Command, FastLogRecord, Level, LevelFilter, RecordFormat};
use crate::date::{lemma_dec_no_newline, lemma_display_date_no_newline, local_date,
    spec_display_date, spec_record_date, LogDate};
use crate::runtime::offset_sec;
use crate::text::{lemma_count_char_concat, lemma_count_char_single, lemma_count_char_zero,
    push_char, spec_count_char, spec_dec, u64_to_dec};

verus! {

/// Whether timestamps are rendered in the machine's zone or in UTC.
#[derive(Clone, Copy, Debug, PartialEq, Eq, Structural)]
pub enum TimeType {
    Local,
    Utc,
}

impl Default for TimeType {
    /// Timestamps render in the machine's zone unless asked otherwise.
    fn default() -> (r: Self)
        ensures
            r == TimeType::Local,
    {
        TimeType::Local
    }
}

/// The rendered timestamp of `rec` under zone offset `off`.
fn record_date_string(rec: &FastLogRecord, off: i32) -> (r: String)
    ensures
        r@ == spec_display_date(spec_record_date(*rec, off as int)),
{
    let d: LogDate = local_date(rec.now_sec, rec.now_nano, off);
    d.to_string()
}

/// The plain formatter: `"{date} {level} {module} - {message}\n"`, with a
/// `{file}:{line}` origin instead of the module for records at or above
/// the configured level.
pub struct FastLogFormat {
    /// Records at this level or more severe show their file and line.
    pub display_line_level: LevelFilter,
    pub time_type: TimeType,
    /// The zone offset in seconds, sampled when the formatter was built.
    pub zone_offset_sec: i32,
}

impl FastLogFormat {
    /// The zone offset this formatter applies to timestamps.
    pub open spec fn spec_offset(&self) -> int {
        match self.time_type {
            TimeType::Local => self.zone_offset_sec as int,
            TimeType::Utc => 0,
        }
    }

    /// The line rendered for a record: timestamp, level name, then either
    /// `file:line` or `module -`, then the message, newline-terminated.
    pub open spec fn spec_plain_rendered(&self, rec: FastLogRecord) -> Seq<char> {
        let ds = spec_display_date(spec_record_date(rec, self.spec_offset()));
        if rec.level.spec_rank() <= self.display_line_level.spec_rank() {
            ds + seq![' '] + rec.level.spec_name() + seq![' '] + rec.file@ + seq![':'] + spec_dec(
                match rec.line {
                    Some(l) => l as nat,
                    None => 0,
                },
            ) + seq![' '] + rec.args@ + seq!['\n']
        } else {
            ds + seq![' '] + rec.level.spec_name() + seq![' '] + rec.module@ + seq![' ', '-', ' ']
                + rec.args@ + seq!['\n']
        }
    }

    /// A formatter showing file and line for warnings and errors, with
    /// local-zone timestamps.
    pub fn new() -> (r: FastLogFormat)
        ensures
            r.display_line_level == LevelFilter::Warn,
            r.time_type == TimeType::Local,
    {
        FastLogFormat {
            display_line_level: LevelFilter::Warn,
            time_type: TimeType::Local,
            zone_offset_sec: offset_sec(),
        }
    }

    /// Show file and line for records at `level` or more severe.
    pub fn set_display_line_level(self, level: LevelFilter) -> (r: Self)
        ensures
            r.display_line_level == level,
            r.time_type == self.time_type,
            r.zone_offset_sec == self.zone_offset_sec,
    {
        FastLogFormat { display_line_level: level, ..self }
    }

    /// Render timestamps in the given convention, with the given zone
    /// offset in seconds.
    pub fn set_time_type(self, time_type: TimeType, zone_offset_sec: i32) -> (r: Self)
        ensures
            r.display_line_level == self.display_line_level,
            r.time_type == time_type,
            r.zone_offset_sec == zone_offset_sec,
    {
        FastLogFormat { time_type, zone_offset_sec, ..self }
    }

    fn render(&self, rec: &FastLogRecord) -> (r: String)
        ensures
            r@ == self.spec_plain_rendered(*rec),
    {
        let off: i32 = match self.time_type {
            TimeType::Local => self.zone_offset_sec,
            TimeType::Utc => 0,
        };
        let mut out: String = record_date_string(rec, off);
        push_char(&mut out, ' ');
        out.append(rec.level.as_str());
        push_char(&mut out, ' ');
        if rec.level.to_level_filter().to_usize() <= self.display_line_level.to_usize() {
            out.append(rec.file.as_str());
            push_char(&mut out, ':');
            let line: u32 = match rec.line {
                Some(l) => l,
                None => 0,
            };
            let line_str: String = u64_to_dec(line as u64);
            out.append(line_str.as_str());
            push_char(&mut out, ' ');
            out.append(rec.args.as_str());
            push_char(&mut out, '\n');
            proof {
                assert(out@ =~= self.spec_plain_rendered(*rec));
            }
        } else {
            out.append(rec.module.as_str());
            push_char(&mut out, ' ');
            push_char(&mut out, '-');
            push_char(&mut out, ' ');
            out.append(rec.args.as_str());
            push_char(&mut out, '\n');
            proof {
                assert(out@ =~= self.spec_plain_rendered(*rec));
            }
        }
        out
    }
}

impl RecordFormat for FastLogFormat {
    open spec fn spec_rendered(&self, rec: FastLogRecord) -> Seq<char> {
        self.spec_plain_rendered(rec)
    }

    fn do_format(&self, arg: &mut FastLogRecord) {
        let is_record: bool = match &arg.command {
            Command::CommandRecord => true,
            Command::CommandExit => false,
            Command::CommandFlush(_) => false,
        };
        if is_record {
            let s: String = self.render(arg);
            arg.formated = s;
        }
    }
}

/// The JSON formatter: one object per line with the message, timestamp,
/// origin and level.  Field values are copied in verbatim, unescaped.
pub struct FastLogFormatJson {
    pub time_type: TimeType,
    /// The zone offset in seconds, sampled when the formatter was built.
    pub zone_offset_sec: i32,
}

impl FastLogFormatJson {
    /// The zone offset this formatter applies to timestamps.
    pub open spec fn spec_offset(&self) -> int {
        match self.time_type {
            TimeType::Local => self.zone_offset_sec as int,
            TimeType::Utc => 0,
        }
    }

    /// The object rendered for a record, newline-terminated.
    pub open spec fn spec_json_rendered(&self, rec: FastLogRecord) -> Seq<char> {
        let ds = spec_display_date(spec_record_date(rec, self.spec_offset()));
        "{\"args\":\""@ + rec.args@ + "\",\"date\":\""@ + ds + "\",\"file\":\""@ + rec.file@
            + "\",\"level\":\""@ + rec.level.spec_name() + "\",\"line\":"@ + spec_dec(
            match rec.line {
                Some(l) => l as nat,
                None => 0,
            },
        ) + "}\n"@
    }

    /// A JSON formatter with local-zone timestamps.
    pub fn new() -> (r: FastLogFormatJson)
        ensures
            r.time_type == TimeType::Local,
    {
        FastLogFormatJson { time_type: TimeType::Local, zone_offset_sec: offset_sec() }
    }

    fn render(&self, rec: &FastLogRecord) -> (r: String)
        ensures
            r@ == self.spec_json_rendered(*rec),
    {
        let off: i32 = match self.time_type {
            TimeType::Local => self.zone_offset_sec,
            TimeType::Utc => 0,
        };
        let ds: String = record_date_string(rec, off);
        let mut out: String = String::new();
        out.append("{\"args\":\"");
        out.append(rec.args.as_str());
        out.append("\",\"date\":\"");
        out.append(ds.as_str());
        out.append("\",\"file\":\"");
        out.append(rec.file.as_str());
        out.append("\",\"level\":\"");
        out.append(rec.level.as_str());
        out.append("\",\"line\":");
        let line: u32 = match rec.line {
            Some(l) => l,
            None => 0,
        };
        let line_str: String = u64_to_dec(line as u64);
        out.append(line_str.as_str());
        out.append("}\n");
        proof {
            assert(out@ =~= self.spec_json_rendered(*rec));
        }
        out
    }
}

impl Default for FastLogFormatJson {
    /// A JSON formatter with local-zone timestamps and an unset offset.
    fn default() -> (r: Self)
        ensures
            r.time_type == TimeType::Local,
            r.zone_offset_sec == 0,
    {
        FastLogFormatJson { time_type: TimeType::Local, zone_offset_sec: 0 }
    }
}

impl RecordFormat for FastLogFormatJson {
    open spec fn spec_rendered(&self, rec: FastLogRecord) -> Seq<char> {
        self.spec_json_rendered(rec)
    }

    fn do_format(&self, arg: &mut FastLogRecord) {
        let is_record: bool = match &arg.command {
            Command::CommandRecord => true,
            Command::CommandExit => false,
            Command::CommandFlush(_) => false,
        };
        if is_record {
            let s: String = self.render(arg);
            arg.formated = s;
        }
    }
}

/// The upper-case level names hold no newline.
proof fn lemma_level_name_no_newline(level: Level)
    ensures
        spec_count_char(level.spec_name(), '\n') == 0,
{
    reveal_strlit("ERROR");
    reveal_strlit("WARN");
    reveal_strlit("INFO");
    reveal_strlit("DEBUG");
    reveal_strlit("TRACE");
    lemma_count_char_zero(level.spec_name(), '\n');
}

/// One rendered plain line holds exactly one newline — the one that ends
/// it — whenever the record's message, file and module fields hold none
/// themselves.  A message that carries its own newline breaks the
/// line-per-record accounting, so it is left out here.
pub proof fn lemma_plain_line_count(fmt: FastLogFormat, rec: FastLogRecord)
    requires
        forall|i: int| 0 <= i < rec.args@.len() ==> rec.args@[i] != '\n',
        forall|i: int| 0 <= i < rec.file@.len() ==> rec.file@[i] != '\n',
        forall|i: int| 0 <= i < rec.module@.len() ==> rec.module@[i] != '\n',
    ensures
        spec_count_char(fmt.spec_plain_rendered(rec), '\n') == 1,
{
    let c = '\n';
    lemma_count_char_single(' ', c);
    lemma_count_char_single(':', c);
    lemma_count_char_single('\n', c);
    lemma_count_char_zero(seq![' ', '-', ' '], c);
    let ds = spec_display_date(spec_record_date(rec, fmt.spec_offset()));
    let nm = rec.level.spec_name();
    lemma_display_date_no_newline(spec_record_date(rec, fmt.spec_offset()));
    lemma_level_name_no_newline(rec.level);
    lemma_count_char_zero(rec.args@, c);
    lemma_count_char_zero(rec.file@, c);
    lemma_count_char_zero(rec.module@, c);
    if rec.level.spec_rank() <= fmt.display_line_level.spec_rank() {
        let ln = spec_dec(
            match rec.line {
                Some(l) => l as nat,
                None => 0,
            },
        );
        lemma_dec_no_newline(
            match rec.line {
                Some(l) => l as nat,
                None => 0,
            },
        );
        let a1 = ds + seq![' '];
        let a2 = a1 + nm;
        let a3 = a2 + seq![' '];
        let a4 = a3 + rec.file@;
        let a5 = a4 + seq![':'];
        let a6 = a5 + ln;
        let a7 = a6 + seq![' '];
        let a8 = a7 + rec.args@;
        lemma_count_char_concat(ds, seq![' '], c);
        lemma_count_char_concat(a1, nm, c);
        lemma_count_char_concat(a2, seq![' '], c);
        lemma_count_char_concat(a3, rec.file@, c);
        lemma_count_char_concat(a4, seq![':'], c);
        lemma_count_char_concat(a5, ln, c);
        lemma_count_char_concat(a6, seq![' '], c);
        lemma_count_char_concat(a7, rec.args@, c);
        lemma_count_char_concat(a8, seq!['\n'], c);
    } else {
        let a1 = ds + seq![' '];
        let a2 = a1 + nm;
        let a3 = a2 + seq![' '];
        let a4 = a3 + rec.module@;
        let a5 = a4 + seq![' ', '-', ' '];
        let a6 = a5 + rec.args@;
        lemma_count_char_concat(ds, seq![' '], c);
        lemma_count_char_concat(a1, nm, c);
        lemma_count_char_concat(a2, seq![' '], c);
        lemma_count_char_concat(a3, rec.module@, c);
        lemma_count_char_concat(a4, seq![' ', '-', ' '], c);
        lemma_count_char_concat(a5, rec.args@, c);
        lemma_count_char_concat(a6, seq!['\n'], c);
    }
}

/// One rendered JSON line holds exactly one newline — the one that ends
/// it — whenever the record's message and file fields hold none
/// themselves.
#[verifier::rlimit(100)]
pub proof fn lemma_json_line_count(fmt: FastLogFormatJson, rec: FastLogRecord)
    requires
        forall|i: int| 0 <= i < rec.args@.len() ==> rec.args@[i] != '\n',
        forall|i: int| 0 <= i < rec.file@.len() ==> rec.file@[i] != '\n',
    ensures
        spec_count_char(fmt.spec_json_rendered(rec), '\n') == 1,
{
    let c = '\n';
    reveal_strlit("{\"args\":\"");
    reveal_strlit("\",\"date\":\"");
    reveal_strlit("\",\"file\":\"");
    reveal_strlit("\",\"level\":\"");
    reveal_strlit("\",\"line\":");
    reveal_strlit("}\n");
    let ds = spec_display_date(spec_record_date(rec, fmt.spec_offset()));
    let nm = rec.level.spec_name();
    let ln = spec_dec(
        match rec.line {
            Some(l) => l as nat,
            None => 0,
        },
    );
    lemma_display_date_no_newline(spec_record_date(rec, fmt.spec_offset()));
    lemma_level_name_no_newline(rec.level);
    lemma_dec_no_newline(
        match rec.line {
            Some(l) => l as nat,
            None => 0,
        },
    );
    lemma_count_char_zero(rec.args@, c);
    lemma_count_char_zero(rec.file@, c);
    lemma_count_char_zero("{\"args\":\""@, c);
    lemma_count_char_zero("\",\"date\":\""@, c);
    lemma_count_char_zero("\",\"file\":\""@, c);
    lemma_count_char_zero("\",\"level\":\""@, c);
    lemma_count_char_zero("\",\"line\":"@, c);
    assert(spec_count_char("}\n"@, c) == 1) by {
        lemma_count_char_single('}', c);
        assert("}\n"@.drop_last() =~= seq!['}']);
        assert("}\n"@.last() == '\n');
    }
    let a1 = "{\"args\":\""@ + rec.args@;
    let a2 = a1 + "\",\"date\":\""@;
    let a3 = a2 + ds;
    let a4 = a3 + "\",\"file\":\""@;
    let a5 = a4 + rec.file@;
    let a6 = a5 + "\",\"level\":\""@;
    let a7 = a6 + nm;
    let a8 = a7 + "\",\"line\":"@;
    let a9 = a8 + ln;
    lemma_count_char_concat("{\"args\":\""@, rec.args@, c);
    lemma_count_char_concat(a1, "\",\"date\":\""@, c);
    lemma_count_char_concat(a2, ds, c);
    lemma_count_char_concat(a3, "\",\"file\":\""@, c);
    lemma_count_char_concat(a4, rec.file@, c);
    lemma_count_char_concat(a5, "\",\"level\":\""@, c);
    lemma_count_char_concat(a6, nm, c);
    lemma_count_char_concat(a7, "\",\"line\":"@, c);
    lemma_count_char_concat(a8, ln, c);
    lemma_count_char_concat(a9, "}\n"@, c);
}

/// One of the stock formatters, as a value a configuration can carry.
pub enum FormatKind {
    Plain(FastLogFormat),
    Json(FastLogFormatJson),
}

impl RecordFormat for FormatKind {
    open spec fn spec_rendered(&self, rec: FastLogRecord) -> Seq<char> {
        match self {
            FormatKind::Plain(f) => f.spec_plain_rendered(rec),
            FormatKind::Json(f) => f.spec_json_rendered(rec),
        }
    }

    fn do_format(&self, arg: &mut FastLogRecord) {
        match self {
            FormatKind::Plain(f) => f.do_format(arg),
            FormatKind::Json(f) => f.do_format(arg),
        }
    }
}

} // verus!

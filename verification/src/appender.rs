//! Records, the command protocol, and the traits appenders and formatters
//! implement.

use vstd::prelude::*;

use crate::runtime::wg_clone;

verus! {

/// The severity of a record, most severe first.
#[derive(Clone, Copy, Debug, PartialEq, Eq, Structural, Hash)]
pub enum Level {
    Error,
    Warn,
    Info,
    Debug,
    Trace,
}

/// A severity ceiling: `Off` admits nothing, `Trace` admits everything.
#[derive(Clone, Copy, Debug, PartialEq, Eq, Structural, Hash)]
pub enum LevelFilter {
    Off,
    Error,
    Warn,
    Info,
    Debug,
    Trace,
}

impl Level {
    /// The rank of this level: 1 for the most severe, upward from there.
    pub open spec fn spec_rank(&self) -> nat {
        match self {
            Level::Error => 1,
            Level::Warn => 2,
            Level::Info => 3,
            Level::Debug => 4,
            Level::Trace => 5,
        }
    }

    /// The name of this level, upper case.
    pub open spec fn spec_name(&self) -> Seq<char> {
        match self {
            Level::Error => "ERROR"@,
            Level::Warn => "WARN"@,
            Level::Info => "INFO"@,
            Level::Debug => "DEBUG"@,
            Level::Trace => "TRACE"@,
        }
    }

    /// The rank of this level.
    pub fn to_usize(&self) -> (r: usize)
        ensures
            r == self.spec_rank(),
    {
        match self {
            Level::Error => 1,
            Level::Warn => 2,
            Level::Info => 3,
            Level::Debug => 4,
            Level::Trace => 5,
        }
    }

    /// The name of this level, upper case.
    pub fn as_str(&self) -> (r: &'static str)
        ensures
            r@ == self.spec_name(),
    {
        match self {
            Level::Error => "ERROR",
            Level::Warn => "WARN",
            Level::Info => "INFO",
            Level::Debug => "DEBUG",
            Level::Trace => "TRACE",
        }
    }

    /// The ceiling that admits exactly this level and the more severe ones.
    pub fn to_level_filter(&self) -> (r: LevelFilter)
        ensures
            r.spec_rank() == self.spec_rank(),
    {
        match self {
            Level::Error => LevelFilter::Error,
            Level::Warn => LevelFilter::Warn,
            Level::Info => LevelFilter::Info,
            Level::Debug => LevelFilter::Debug,
            Level::Trace => LevelFilter::Trace,
        }
    }
}

impl LevelFilter {
    /// The rank of this ceiling: 0 admits nothing; a level passes when its
    /// rank is at most this.
    pub open spec fn spec_rank(&self) -> nat {
        match self {
            LevelFilter::Off => 0,
            LevelFilter::Error => 1,
            LevelFilter::Warn => 2,
            LevelFilter::Info => 3,
            LevelFilter::Debug => 4,
            LevelFilter::Trace => 5,
        }
    }

    /// The rank of this ceiling.
    pub fn to_usize(&self) -> (r: usize)
        ensures
            r == self.spec_rank(),
    {
        match self {
            LevelFilter::Off => 0,
            LevelFilter::Error => 1,
            LevelFilter::Warn => 2,
            LevelFilter::Info => 3,
            LevelFilter::Debug => 4,
            LevelFilter::Trace => 5,
        }
    }
}

/// What a message in the pipeline asks for: an ordinary record, a drain
/// followed by worker shutdown, or a flush acknowledged through a barrier.
#[derive(Debug)]
pub enum Command {
    CommandRecord,
    CommandExit,
    /// Ensure that the log splitter forces splitting and saves the log.
    CommandFlush(crossbeam_utils::sync::WaitGroup),
}

impl Command {
    /// The discriminant of this command.
    pub open spec fn spec_to_i32(&self) -> int {
        match self {
            Command::CommandRecord => 1,
            Command::CommandExit => 2,
            Command::CommandFlush(_) => 3,
        }
    }

    /// The discriminant of this command.
    pub fn to_i32(&self) -> (r: i32)
        ensures
            r == self.spec_to_i32(),
    {
        match self {
            Command::CommandRecord => 1,
            Command::CommandExit => 2,
            Command::CommandFlush(_) => 3,
        }
    }
}

impl Clone for Command {
    /// A copy carrying the same discriminant; a flush command's copy holds
    /// one more holder of the same barrier.
    fn clone(&self) -> (r: Self)
        ensures
            r.spec_to_i32() == self.spec_to_i32(),
    {
        match self {
            Command::CommandRecord => Command::CommandRecord,
            Command::CommandExit => Command::CommandExit,
            Command::CommandFlush(w) => Command::CommandFlush(wg_clone(w)),
        }
    }
}

impl PartialEq for Command {
    /// Commands compare by discriminant alone.
    fn eq(&self, other: &Self) -> (r: bool) {
        self.to_i32() == other.to_i32()
    }
}

impl vstd::std_specs::cmp::PartialEqSpecImpl for Command {
    open spec fn obeys_eq_spec() -> bool {
        true
    }

    open spec fn eq_spec(&self, other: &Self) -> bool {
        self.spec_to_i32() == other.spec_to_i32()
    }
}

impl Eq for Command {

}

/// One log event: its command tag, severity, origin, message, timestamp as
/// plain epoch values, and the rendered line the formatter fills in.
#[derive(Debug)]
pub struct FastLogRecord {
    pub command: Command,
    pub level: Level,
    pub target: String,
    pub args: String,
    pub module: String,
    pub file: String,
    pub line: Option<u32>,
    /// Seconds since the Unix epoch.
    pub now_sec: u64,
    /// Subsecond nanoseconds.
    pub now_nano: u32,
    pub formated: String,
}

impl FastLogRecord {
    /// Are these records equal up to the identity of a flush barrier?
    pub open spec fn spec_same(self, other: FastLogRecord) -> bool {
        &&& self.command.spec_to_i32() == other.command.spec_to_i32()
        &&& self.level == other.level
        &&& self.target@ == other.target@
        &&& self.args@ == other.args@
        &&& self.module@ == other.module@
        &&& self.file@ == other.file@
        &&& self.line == other.line
        &&& self.now_sec == other.now_sec
        &&& self.now_nano == other.now_nano
        &&& self.formated@ == other.formated@
    }
}

impl Clone for FastLogRecord {
    /// A field-for-field copy; a flush command's copy holds one more
    /// holder of the same barrier.
    fn clone(&self) -> (r: Self)
        ensures
            r.spec_same(*self),
    {
        FastLogRecord {
            command: self.command.clone(),
            level: self.level,
            target: self.target.clone(),
            args: self.args.clone(),
            module: self.module.clone(),
            file: self.file.clone(),
            line: self.line,
            now_sec: self.now_sec,
            now_nano: self.now_nano,
            formated: self.formated.clone(),
        }
    }
}

/// A sink consuming batches of rendered records.  Implementations state
/// their own guarantees on inherent methods; the pipeline calls `do_logs`
/// with each batch in broadcast order.
pub trait LogAppender {
    /// Write a batch of records, or do nothing.
    fn do_logs(&mut self, records: &Vec<FastLogRecord>);

    /// Push buffered bytes towards durability, or do nothing.
    fn flush(&mut self) {
    }
}

/// A renderer turning one record into its line.  What the line holds is
/// pinned by `spec_rendered`, which each implementation defines.
pub trait RecordFormat {
    /// The line this formatter renders for `rec`.
    spec fn spec_rendered(&self, rec: FastLogRecord) -> Seq<char>;

    /// Fill `arg.formated` with the rendered line; commands that are not
    /// records pass through untouched.
    fn do_format(&self, arg: &mut FastLogRecord)
        ensures
            old(arg).command is CommandRecord ==> {
                &&& final(arg).formated@ == self.spec_rendered(*old(arg))
                &&& final(arg).command == old(arg).command
                &&& final(arg).level == old(arg).level
                &&& final(arg).target == old(arg).target
                &&& final(arg).args == old(arg).args
                &&& final(arg).module == old(arg).module
                &&& final(arg).file == old(arg).file
                &&& final(arg).line == old(arg).line
                &&& final(arg).now_sec == old(arg).now_sec
                &&& final(arg).now_nano == old(arg).now_nano
            },
            !(old(arg).command is CommandRecord) ==> *final(arg) == *old(arg),
    ;
}

} // verus!

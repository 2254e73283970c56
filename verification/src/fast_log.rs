//! The logger facade and the pipeline's decision steps: record admission,
//! the formatter stage, the appender workers' command scan, and the packer
//! worker's job handling.

use vstd::prelude::*;

use crate::appender::{Command, FastLogRecord, Level, LevelFilter, RecordFormat};
use crate::config::Config;
use crate::error::LogError;
use crate::filter::chain_admits;
use crate::runtime::{
    chan_bounded, chan_queue_len, chan_recv, chan_send, chan_try_recv, chan_unbounded, now_epoch,
    spec_chan_bound, wg_clone, wg_new,
};

verus! {

/// The channel ends and configuration of an initialised logger.  The
/// embedding program owns one and spawns the formatter and appender
/// workers around it.
pub struct Logger {
    pub cfg: Option<Config>,
    pub send: Option<crossbeam_channel::Sender<FastLogRecord>>,
    pub recv: Option<crossbeam_channel::Receiver<FastLogRecord>>,
    pub level: LevelFilter,
}

/// A record carrying no payload, with the given command and the present
/// moment as its timestamp: what `exit` and `flush` enqueue.
fn bare_record(command: Command) -> (r: FastLogRecord)
    ensures
        r.command == command,
        r.level == Level::Info,
        r.target@.len() == 0,
        r.args@.len() == 0,
        r.module@.len() == 0,
        r.file@.len() == 0,
        r.line is None,
        r.formated@.len() == 0,
{
    let (sec, nano) = now_epoch();
    FastLogRecord {
        command,
        level: Level::Info,
        target: String::new(),
        args: String::new(),
        module: String::new(),
        file: String::new(),
        line: None,
        now_sec: sec,
        now_nano: nano,
        formated: String::new(),
    }
}

/// The record `print` enqueues for an already-rendered line: an ordinary
/// record whose rendered field holds the line itself, so the formatter
/// leaves it untouched, carrying no message or origin of its own.
pub fn print_record(log: String) -> (r: FastLogRecord)
    ensures
        r.command is CommandRecord,
        r.formated@ == log@,
        r.level == Level::Info,
        r.target@.len() == 0,
        r.args@.len() == 0,
        r.module@.len() == 0,
        r.file@.len() == 0,
        r.line is None,
{
    let mut rec: FastLogRecord = bare_record(Command::CommandRecord);
    rec.formated = log;
    rec
}

impl Logger {
    /// A logger with nothing initialised and everything admitted.
    pub fn default() -> (r: Self)
        ensures
            r.cfg is None,
            r.send is None,
            r.recv is None,
            r.level == LevelFilter::Trace,
    {
        Logger { cfg: None, send: None, recv: None, level: LevelFilter::Trace }
    }

    /// Set the admission ceiling.
    pub fn set_level(&mut self, level: LevelFilter)
        ensures
            final(self).level == level,
            final(self).cfg == old(self).cfg,
            final(self).send == old(self).send,
            final(self).recv == old(self).recv,
    {
        self.level = level;
    }

    /// The admission ceiling.
    pub fn get_level(&self) -> (r: LevelFilter)
        ensures
            r == self.level,
    {
        self.level
    }

    /// Is a record at `level` admitted at all?
    pub fn enabled(&self, level: Level) -> (r: bool)
        ensures
            r == (level.spec_rank() <= self.level.spec_rank()),
    {
        level.to_usize() <= self.level.to_usize()
    }

    /// Enqueue an already-rendered line, bypassing the formatter: the
    /// record handed on is exactly `print_record(log)`.  Fails with
    /// `not init` exactly when the logger is not initialised, and with
    /// its own message when the workers are gone.
    pub fn print(&self, log: String) -> (r: Result<(), LogError>)
        ensures
            (self.send is None) <==> (r is Err && r->Err_0.spec_message() == "not init"@),
            self.send is Some && r is Err ==> r->Err_0.spec_message()
                == "[fast_log] print fail!"@,
    {
        proof {
            reveal_strlit("not init");
            reveal_strlit("[fast_log] print fail!");
            assert("not init"@.len() == 8);
            assert("[fast_log] print fail!"@.len() == 22);
            assert("not init"@ != "[fast_log] print fail!"@);
        }
        let rec: FastLogRecord = print_record(log);
        match &self.send {
            Some(s) => {
                match chan_send(s, rec) {
                    Ok(()) => Ok(()),
                    Err(_) => Err(LogError::of("[fast_log] print fail!")),
                }
            },
            None => Err(LogError::of("not init")),
        }
    }

    /// Run the filter chain and enqueue the record.  This never fails:
    /// a record some filter rejects is dropped silently, and so is one
    /// handed to an uninitialised logger or to workers that are gone —
    /// a logging facade must stay quiet.
    pub fn log(&self, record: FastLogRecord) -> (r: Result<(), LogError>)
        ensures
            r is Ok,
    {
        match &self.cfg {
            Some(cfg) => {
                if !chain_admits(&cfg.filters, record.module.as_str()) {
                    return Ok(());
                }
                match &self.send {
                    Some(s) => {
                        let _ = chan_send(s, record);
                        Ok(())
                    },
                    None => Ok(()),
                }
            },
            None => Ok(()),
        }
    }

    /// Ask for a flush and wait until every worker has acknowledged it.
    pub fn wait(&self) {
        match flush(self) {
            Ok(wg) => {
                crate::runtime::wg_wait(wg);
            },
            Err(_) => {
            },
        }
    }
}

/// Build a logger from a configuration: refuse one without appenders,
/// open the ingest channel at the configured bound, and remember the
/// configuration.  The embedding program then spawns one formatter worker
/// and one worker per appender.
pub fn init(config: Config) -> (r: Result<Logger, LogError>)
    ensures
        config.appends@.len() == 0 <==> r is Err,
        r is Err ==> r->Err_0.spec_message() == "[fast_log] appends can not be empty!"@,
        r is Ok ==> ({
            let lg = r->Ok_0;
            &&& lg.cfg is Some
            &&& lg.send is Some
            &&& lg.recv is Some
            &&& lg.cfg->0.level == config.level
            &&& lg.level == config.level
            &&& spec_chan_bound(lg.recv->0) == config.chan_len
            &&& lg.cfg->0.chan_len == config.chan_len
        }),
{
    if config.appends.len() == 0 {
        return Err(LogError::of("[fast_log] appends can not be empty!"));
    }
    let (s, r) = chan(&config.chan_len);
    let level: LevelFilter = config.level;
    Ok(Logger { cfg: Some(config), send: Some(s), recv: Some(r), level })
}

/// A channel sized by the configuration: bounded at `len` when one is
/// given, unbounded otherwise.
pub fn chan(
    len: &Option<usize>,
) -> (r: (crossbeam_channel::Sender<FastLogRecord>, crossbeam_channel::Receiver<FastLogRecord>))
    ensures
        spec_chan_bound(r.1) == *len,
{
    match len {
        None => chan_unbounded(),
        Some(n) => chan_bounded(*n),
    }
}

/// Enqueue the exit sentinel — `bare_record(CommandExit)` — so every
/// worker drains what is before it and terminates.  Fails with
/// `not init` exactly when the logger is not initialised, and with its
/// own message when the workers are gone already.
pub fn exit(logger: &Logger) -> (r: Result<(), LogError>)
    ensures
        (logger.send is None) <==> (r is Err && r->Err_0.spec_message() == "not init"@),
        logger.send is Some && r is Err ==> r->Err_0.spec_message() == "[fast_log] exit fail!"@,
        r is Ok ==> logger.send is Some,
{
    proof {
        reveal_strlit("not init");
        reveal_strlit("[fast_log] exit fail!");
        assert("not init"@.len() == 8);
        assert("[fast_log] exit fail!"@.len() == 21);
        assert("not init"@ != "[fast_log] exit fail!"@);
    }
    let rec: FastLogRecord = bare_record(Command::CommandExit);
    match &logger.send {
        Some(s) => {
            match chan_send(s, rec) {
                Ok(()) => Ok(()),
                Err(_) => Err(LogError::of("[fast_log] exit fail!")),
            }
        },
        None => Err(LogError::of("not init")),
    }
}

/// Enqueue a flush command — `bare_record(CommandFlush)` carrying one
/// fresh barrier holder — and hand the barrier back: when every worker
/// that must acknowledge has dropped its holder, the barrier fires and
/// `wait` on the returned handle unblocks.  Fails with `not init`
/// exactly when the logger is not initialised, and with its own message
/// when the workers are gone.
pub fn flush(logger: &Logger) -> (r: Result<crossbeam_utils::sync::WaitGroup, LogError>)
    ensures
        (logger.send is None) <==> (r is Err && r->Err_0.spec_message() == "not init"@),
        logger.send is Some && r is Err ==> r->Err_0.spec_message() == "[fast_log] flush fail!"@,
        r is Ok ==> logger.send is Some,
{
    proof {
        reveal_strlit("not init");
        reveal_strlit("[fast_log] flush fail!");
        assert("not init"@.len() == 8);
        assert("[fast_log] flush fail!"@.len() == 22);
        assert("not init"@ != "[fast_log] flush fail!"@);
    }
    let wg: crossbeam_utils::sync::WaitGroup = wg_new();
    let rec: FastLogRecord = bare_record(Command::CommandFlush(wg_clone(&wg)));
    match &logger.send {
        Some(s) => {
            match chan_send(s, rec) {
                Ok(()) => Ok(wg),
                Err(_) => Err(LogError::of("[fast_log] flush fail!")),
            }
        },
        None => Err(LogError::of("not init")),
    }
}

/// Enqueue an already-rendered line through the logger.
pub fn print(logger: &Logger, log: String) -> (r: Result<(), LogError>)
    ensures
        logger.send is None ==> r is Err,
{
    logger.print(log)
}

/// One round of a worker's intake: a blocking receive when nothing is
/// ready, then everything further that is already waiting, without
/// blocking — the batching policy that amortises locks and system calls.
/// Fails only when the channel is empty with no sender left.
pub fn collect_batch<T>(r: &crossbeam_channel::Receiver<T>) -> (res: Result<Vec<T>, LogError>)
    ensures
        res is Ok ==> res->Ok_0@.len() >= 1,
{
    let mut out: Vec<T> = Vec::new();
    if chan_queue_len(r) == 0 {
        match chan_recv(r) {
            Ok(m) => {
                out.push(m);
            },
            Err(e) => {
                return Err(e);
            },
        }
    }
    let ready: usize = chan_queue_len(r);
    let mut i: usize = 0;
    while i < ready
        invariant
            i <= ready,
        decreases ready - i,
    {
        match chan_try_recv(r) {
            Some(v) => {
                out.push(v);
            },
            None => {
                break;
            },
        }
        i = i + 1;
    }
    if out.len() == 0 {
        match chan_recv(r) {
            Ok(m) => {
                out.push(m);
            },
            Err(e) => {
                return Err(e);
            },
        }
    }
    Ok(out)
}

/// Does this batch carry the exit sentinel?  An appender worker shuts
/// down after the batch that does.
pub fn scan_exit(records: &Vec<FastLogRecord>) -> (r: bool)
    ensures
        r == (exists|k: int|
            0 <= k < records@.len() && (#[trigger] records@[k].command) is CommandExit),
{
    let n: usize = records.len();
    let mut i: usize = 0;
    while i < n
        invariant
            i <= n,
            n == records@.len(),
            forall|k: int| 0 <= k < i ==> !((#[trigger] records@[k].command) is CommandExit),
        decreases n - i,
    {
        let is_exit: bool = match &records[i].command {
            Command::CommandExit => true,
            Command::CommandRecord => false,
            Command::CommandFlush(_) => false,
        };
        if is_exit {
            return true;
        }
        i = i + 1;
    }
    false
}

/// One round of the formatter stage: render every record that is not yet
/// rendered, exactly once each, leave everything else untouched, and
/// report whether the batch carries the exit sentinel.  Every appender
/// then receives this same batch, in this same order.
pub fn format_batch<F: RecordFormat>(fmt: &F, remain: &mut Vec<FastLogRecord>) -> (exit: bool)
    ensures
        final(remain)@.len() == old(remain)@.len(),
        forall|k: int|
            0 <= k < old(remain)@.len() ==> {
                let r0 = #[trigger] old(remain)@[k];
                let r1 = final(remain)@[k];
                if r0.command is CommandRecord && r0.formated@.len() == 0 {
                    &&& r1.formated@ == fmt.spec_rendered(r0)
                    &&& r1.command == r0.command
                    &&& r1.level == r0.level
                    &&& r1.target == r0.target
                    &&& r1.args == r0.args
                    &&& r1.module == r0.module
                    &&& r1.file == r0.file
                    &&& r1.line == r0.line
                    &&& r1.now_sec == r0.now_sec
                    &&& r1.now_nano == r0.now_nano
                } else {
                    r1 == r0
                }
            },
        exit == (exists|k: int|
            0 <= k < old(remain)@.len() && (#[trigger] old(remain)@[k].command) is CommandExit),
{
    let n: usize = remain.len();
    let mut exit: bool = false;
    let mut i: usize = 0;
    while i < n
        invariant
            i <= n,
            n == remain@.len(),
            remain@.len() == old(remain)@.len(),
            forall|k: int|
                i <= k < old(remain)@.len() ==> #[trigger] remain@[k] == old(remain)@[k],
            forall|k: int|
                0 <= k < i ==> {
                    let r0 = #[trigger] old(remain)@[k];
                    let r1 = remain@[k];
                    if r0.command is CommandRecord && r0.formated@.len() == 0 {
                        &&& r1.formated@ == fmt.spec_rendered(r0)
                        &&& r1.command == r0.command
                        &&& r1.level == r0.level
                        &&& r1.target == r0.target
                        &&& r1.args == r0.args
                        &&& r1.module == r0.module
                        &&& r1.file == r0.file
                        &&& r1.line == r0.line
                        &&& r1.now_sec == r0.now_sec
                        &&& r1.now_nano == r0.now_nano
                    } else {
                        r1 == r0
                    }
                },
            exit == (exists|k: int|
                0 <= k < i && (#[trigger] old(remain)@[k].command) is CommandExit),
        decreases n - i,
    {
        let is_record: bool = match &remain[i].command {
            Command::CommandRecord => true,
            Command::CommandExit => {
                exit = true;
                false
            },
            Command::CommandFlush(_) => false,
        };
        if is_record && remain[i].formated.as_str().unicode_len() == 0 {
            fmt.do_format(&mut remain[i]);
        }
        i = i + 1;
    }
    exit
}

} // verus!

//! The configuration a logger is initialised from.

use vstd::prelude::*;

use crate::appender::LevelFilter;
use crate::consts::LogSize;
use crate::filter::ModuleFilter;
use crate::formats::{FastLogFormat, FormatKind};
use crate::plugin::file_split::{KeepType, PackType};
use crate::plugin::packer::PackerKind;

verus! {

/// One appender, described as data; the embedding program materialises
/// the described sink when it spawns the worker.
pub enum AppenderConf {
    /// Write batches to standard output.
    Console,
    /// Write batches to standard error.
    ConsoleStderr,
    /// Append everything to the file at this path.
    File(String),
    /// A single size-bounded rolling file at this path.
    FileLoop(String, LogSize),
    /// A rotated, packed, retention-governed segment directory.
    FileSplit { path: String, rolling: PackType, keep: KeepType, packer: PackerKind },
}

/// What a logger is built from: the appenders, the admission level, the
/// filter chain, the formatter, and the ingest channel's bound.
pub struct Config {
    /// Each appender gets its own worker and channel.
    pub appends: Vec<AppenderConf>,
    /// The most verbose level still admitted.
    pub level: LevelFilter,
    /// Records any filter rejects are never enqueued.
    pub filters: Vec<ModuleFilter>,
    /// How records are rendered.
    pub format: FormatKind,
    /// The ingest channel's capacity; unbounded when absent.
    pub chan_len: Option<usize>,
}

impl Config {
    /// An empty configuration: no appenders, everything admitted, plain
    /// formatting, unbounded channel.
    pub fn new() -> (r: Self)
        ensures
            r.appends@.len() == 0,
            r.level == LevelFilter::Trace,
            r.filters@.len() == 0,
            r.format is Plain,
            r.chan_len is None,
    {
        Config {
            appends: Vec::new(),
            level: LevelFilter::Trace,
            filters: Vec::new(),
            format: FormatKind::Plain(FastLogFormat::new()),
            chan_len: None,
        }
    }

    /// Set the admission level.
    pub fn level(self, level: LevelFilter) -> (r: Self)
        ensures
            r == (Config { level, ..self }),
    {
        Config { level, ..self }
    }

    /// Add one filter to the chain.
    pub fn add_filter(self, filter: ModuleFilter) -> (r: Self)
        ensures
            r.appends == self.appends,
            r.level == self.level,
            r.format == self.format,
            r.chan_len == self.chan_len,
            r.filters@ == self.filters@.push(filter),
    {
        let mut s = self;
        s.filters.push(filter);
        s
    }

    /// Add a whole chain of filters, in order.
    pub fn filter(self, filters: Vec<ModuleFilter>) -> (r: Self)
        ensures
            r.appends == self.appends,
            r.level == self.level,
            r.format == self.format,
            r.chan_len == self.chan_len,
            r.filters@ == self.filters@ + filters@,
    {
        let mut s = self;
        let mut fs = filters;
        s.filters.append(&mut fs);
        s
    }

    /// Set the formatter.
    pub fn format(self, format: FormatKind) -> (r: Self)
        ensures
            r == (Config { format, ..self }),
    {
        Config { format, ..self }
    }

    /// Add a console appender.
    pub fn console(self) -> (r: Self)
        ensures
            r.level == self.level,
            r.format == self.format,
            r.chan_len == self.chan_len,
            r.filters == self.filters,
            r.appends@ == self.appends@.push(AppenderConf::Console),
    {
        self.add_appender(AppenderConf::Console)
    }

    /// Add a plain file appender.
    pub fn file(self, file: &str) -> (r: Self)
        ensures
            r.level == self.level,
            r.format == self.format,
            r.chan_len == self.chan_len,
            r.filters == self.filters,
            r.appends@.len() == self.appends@.len() + 1,
            r.appends@.take(self.appends@.len() as int) == self.appends@,
            r.appends@.last() matches AppenderConf::File(p) && p@ == file@,
    {
        self.add_appender(AppenderConf::File(file.to_owned()))
    }

    /// Add a size-bounded rolling file appender.
    pub fn file_loop(self, file: &str, max_temp_size: LogSize) -> (r: Self)
        ensures
            r.level == self.level,
            r.format == self.format,
            r.chan_len == self.chan_len,
            r.filters == self.filters,
            r.appends@.len() == self.appends@.len() + 1,
            r.appends@.take(self.appends@.len() as int) == self.appends@,
            r.appends@.last() matches AppenderConf::FileLoop(p, sz) && p@ == file@ && sz
                == max_temp_size,
    {
        self.add_appender(AppenderConf::FileLoop(file.to_owned(), max_temp_size))
    }

    /// Add a split-file appender with its rotation predicate, retention
    /// policy and packer.
    pub fn file_split(
        self,
        file_path: &str,
        rolling: PackType,
        keeper: KeepType,
        packer: PackerKind,
    ) -> (r: Self)
        ensures
            r.level == self.level,
            r.format == self.format,
            r.chan_len == self.chan_len,
            r.filters == self.filters,
            r.appends@.len() == self.appends@.len() + 1,
            r.appends@.take(self.appends@.len() as int) == self.appends@,
            r.appends@.last() matches AppenderConf::FileSplit { path, rolling: ro, keep, packer: pa }
                && path@ == file_path@ && ro == rolling && keep == keeper && pa == packer,
    {
        self.add_appender(
            AppenderConf::FileSplit {
                path: file_path.to_owned(),
                rolling,
                keep: keeper,
                packer,
            },
        )
    }

    /// Add an appender described as data.
    pub fn add_appender(self, arg: AppenderConf) -> (r: Self)
        ensures
            r.level == self.level,
            r.format == self.format,
            r.chan_len == self.chan_len,
            r.filters == self.filters,
            r.appends@ == self.appends@.push(arg),
    {
        let mut s = self;
        s.appends.push(arg);
        s
    }

    /// Bound the ingest channel (sends block when it is full), or pass
    /// `None` for an unbounded channel.
    pub fn chan_len(self, len: Option<usize>) -> (r: Self)
        ensures
            r == (Config { chan_len: len, ..self }),
    {
        Config { chan_len: len, ..self }
    }
}

impl Default for Config {
    /// The empty configuration.
    fn default() -> (r: Self)
        ensures
            r.appends@.len() == 0,
            r.level == LevelFilter::Trace,
            r.filters@.len() == 0,
            r.format is Plain,
            r.chan_len is None,
    {
        Config::new()
    }
}

} // verus!

//! A size-bounded single-file rolling log: a split appender configured to
//! keep one archive and pack nothing.

use vstd::prelude::*;

use crate::appender::{FastLogRecord, LogAppender};
use crate::consts::LogSize;
use crate::error::LogError;
use crate::plugin::file_split::{spec_pack_matches, spec_split_run, FileSplitAppender, KeepType,
    PackType, SplitFile};
use crate::plugin::packer::{LogPacker, PackerKind};

verus! {

/// A single log kept in rolling mode by capacity: rotation by size, one
/// archive retained, no compression.
pub struct FileLoopAppender<F: SplitFile> {
    file: FileSplitAppender<F>,
}

impl<F: SplitFile> FileLoopAppender<F> {
    /// The split appender this wraps.
    pub closed spec fn spec_inner(&self) -> FileSplitAppender<F> {
        self.file
    }

    /// A rolling log at `log_file_path`, rotating when a segment would
    /// pass `size` and keeping one archive.
    pub fn new(log_file_path: &str, size: LogSize) -> (r: Result<FileLoopAppender<F>, LogError>)
        ensures
            r is Ok ==> ({
                let a = r->Ok_0.spec_inner();
                &&& a.wf()
                &&& a.spec_rolling() == PackType::BySize(size)
                &&& a.spec_keep() == KeepType::KeepNum(1)
                &&& a.spec_packer().spec_is_noop()
            }),
    {
        let inner: FileSplitAppender<F> = match FileSplitAppender::new(
            log_file_path,
            PackType::BySize(size),
            KeepType::KeepNum(1),
            PackerKind::Log(LogPacker {  }),
        ) {
            Ok(a) => a,
            Err(e) => {
                return Err(e);
            },
        };
        Ok(FileLoopAppender { file: inner })
    }

    /// Write a batch through the underlying split appender.
    pub fn write_batch(&mut self, records: &Vec<FastLogRecord>)
        requires
            old(self).spec_inner().wf(),
        ensures
            final(self).spec_inner().wf(),
            final(self).spec_inner().spec_temp_name() == old(self).spec_inner().spec_temp_name(),
            final(self).spec_inner().spec_dir() == old(self).spec_inner().spec_dir(),
            final(self).spec_inner().spec_keep() == old(self).spec_inner().spec_keep(),
            final(self).spec_inner().spec_packer() == old(self).spec_inner().spec_packer(),
            final(self).spec_inner().spec_zone() == old(self).spec_inner().spec_zone(),
            ({
                let run = spec_split_run(
                    old(self).spec_inner().spec_data(),
                    Seq::<u8>::empty(),
                    old(self).spec_inner().spec_rolling(),
                    old(self).spec_inner().spec_temp_name(),
                    old(self).spec_inner().spec_zone(),
                    records@,
                );
                &&& final(self).spec_inner().spec_data() == run.0
                &&& final(self).spec_inner().spec_rolling() == run.1
                &&& final(self).spec_inner().spec_packs().len() == old(
                    self,
                ).spec_inner().spec_packs().len() + run.2.len()
                &&& final(self).spec_inner().spec_packs().take(
                    old(self).spec_inner().spec_packs().len() as int,
                ) == old(self).spec_inner().spec_packs()
                &&& forall|k: int|
                    0 <= k < run.2.len() ==> spec_pack_matches(
                        #[trigger] final(self).spec_inner().spec_packs()[old(
                            self,
                        ).spec_inner().spec_packs().len() + k],
                        old(self).spec_inner().spec_dir(),
                        run.2[k].0,
                        run.2[k].1,
                        run.2[k].2,
                    )
            }),
    {
        self.file.write_batch(records);
    }

    /// The segment file's name.
    pub fn temp_name(&self) -> (r: &String)
        ensures
            r@ == self.spec_inner().spec_temp_name(),
    {
        self.file.temp_name()
    }

    /// Hand out the queued archive jobs.
    pub fn take_packs(&mut self) -> (r: Vec<crate::plugin::file_split::LogPack>)
        ensures
            r@ == old(self).spec_inner().spec_packs(),
    {
        self.file.take_packs()
    }
}

impl<F: SplitFile> LogAppender for FileLoopAppender<F> {
    fn do_logs(&mut self, records: &Vec<FastLogRecord>) {
        self.file.resync();
        self.file.write_batch(records);
    }
}

} // verus!

//! The plain file appender: one always-open sink, appended in batches.

use vstd::prelude::*;

use crate::appender::{Command, FastLogRecord, LogAppender};
use crate::error::LogError;
use crate::plugin::file_split::{spec_rec_bytes, SplitFile};

verus! {

/// The rendered bytes of a batch, joined in order: what a file appender
/// appends for it.
pub open spec fn spec_concat_bytes(recs: Seq<FastLogRecord>) -> Seq<u8>
    decreases recs.len(),
{
    if recs.len() == 0 {
        Seq::empty()
    } else {
        spec_concat_bytes(recs.drop_last()) + spec_rec_bytes(recs.last())
    }
}

/// Appends every batch to one sink; a flush command forces the bytes
/// gathered so far down to the sink before the batch ends.
pub struct FileAppender<F: SplitFile> {
    file: F,
}

impl<F: SplitFile> FileAppender<F> {
    /// The sink's cursor sits at its end.
    pub closed spec fn wf(&self) -> bool {
        self.file.cursor() == self.file.data().len()
    }

    /// The bytes the sink holds.
    pub closed spec fn spec_data(&self) -> Seq<u8> {
        self.file.data()
    }

    /// Open the sink under `log_file_path` and append to whatever it
    /// holds.
    pub fn new(log_file_path: &str) -> (r: Result<FileAppender<F>, LogError>)
        ensures
            r is Ok ==> r->Ok_0.wf(),
    {
        let file: F = match F::new(log_file_path) {
            Ok(f) => f,
            Err(e) => {
                return Err(e);
            },
        };
        Ok(FileAppender::from_file(file))
    }

    /// Adopt an already-open sink, preserving what it holds.
    pub fn from_file(file: F) -> (r: FileAppender<F>)
        requires
            0 <= file.cursor() <= file.data().len(),
        ensures
            r.wf(),
            r.spec_data() == file.data(),
    {
        let mut file = file;
        let n: usize = file.len();
        let _ = file.seek(crate::plugin::file_split::SeekPos::Start(n as u64));
        FileAppender { file }
    }

    /// Append a batch: the sink grows by exactly the batch's rendered
    /// bytes, in order.  At each flush command the bytes gathered so far
    /// are already down in the sink when its barrier is released.
    pub fn write_batch(&mut self, records: &Vec<FastLogRecord>)
        requires
            old(self).wf(),
        ensures
            final(self).wf(),
            final(self).spec_data() == old(self).spec_data() + spec_concat_bytes(records@),
    {
        let n: usize = records.len();
        let mut buf: Vec<u8> = Vec::new();
        let mut i: usize = 0;
        proof {
            assert(records@.take(0) =~= Seq::<FastLogRecord>::empty());
            assert(old(self).spec_data() + Seq::<u8>::empty() =~= old(self).spec_data());
        }
        while i < n
            invariant
                i <= n,
                n == records@.len(),
                self.wf(),
                self.spec_data() + buf@ == old(self).spec_data() + spec_concat_bytes(
                    records@.take(i as int),
                ),
            decreases n - i,
        {
            let rec: &FastLogRecord = &records[i];
            let ghost oldbuf = buf@;
            let ghost rbs = spec_rec_bytes(records@[i as int]);
            let mut rb: Vec<u8> = rec.formated.as_str().as_bytes_vec();
            proof {
                assert(rb@ == rbs);
            }
            buf.append(&mut rb);
            proof {
                assert(records@.take(i + 1).drop_last() =~= records@.take(i as int));
                assert(records@.take(i + 1).last() == records@[i as int]);
                assert(self.spec_data() + buf@ =~= (self.spec_data() + oldbuf) + rbs);
                assert(old(self).spec_data() + spec_concat_bytes(records@.take(i + 1)) =~= (old(
                    self,
                ).spec_data() + spec_concat_bytes(records@.take(i as int))) + rbs);
            }
            let is_flush: bool = match &rec.command {
                Command::CommandFlush(_) => true,
                Command::CommandRecord => false,
                Command::CommandExit => false,
            };
            if is_flush {
                let _ = self.file.write(&buf);
                buf = Vec::new();
                self.file.flush();
                proof {
                    assert(self.spec_data() + buf@ =~= self.spec_data());
                }
            }
            i = i + 1;
        }
        let _ = self.file.write(&buf);
        proof {
            assert(records@.take(n as int) =~= records@);
        }
    }

    /// The bytes the sink holds, copied out.
    pub fn read_sink(&self) -> (r: Vec<u8>)
        ensures
            r@ == self.spec_data(),
    {
        self.file.read_all()
    }

    /// Force buffered bytes down to the sink.
    pub fn flush(&mut self)
        ensures
            final(self).wf() == old(self).wf(),
            final(self).spec_data() == old(self).spec_data(),
    {
        self.file.flush();
    }
}

impl<F: SplitFile> LogAppender for FileAppender<F> {
    fn do_logs(&mut self, records: &Vec<FastLogRecord>) {
        let n: usize = self.file.len();
        let _ = self.file.seek(crate::plugin::file_split::SeekPos::Start(n as u64));
        self.write_batch(records);
    }

    fn flush(&mut self) {
        self.file.flush();
    }
}

} // verus!

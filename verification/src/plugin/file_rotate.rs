//! Rotation with caller-controlled archive names: an integer index after
//! the segment's stem, counted up on every rotation.

use vstd::prelude::*;

use crate::appender::FastLogRecord;
use crate::consts::LogSize;
use crate::error::LogError;
use crate::plugin::file_split::{get_base_name, spec_base_name, spec_pack_matches, spec_rfind,
    spec_split_run, FileInfo, FileSplitAppender, IndexType, KeepType, PackType, SplitFile};
use crate::plugin::packer::PackerKind;
use crate::text::{push_char, rfind_char, spec_dec, spec_parse_usize, spec_starts_with,
    spec_trim_start, str_starts_with, str_trim_start_matches, substring, u64_to_dec};

verus! {

/// A naming scheme for rotated segments: which file is current, and what
/// the next rotation is called.
pub trait Rotate {
    /// The base file name rotations derive theirs from.
    fn base_name(&self) -> &'static str;

    /// Adopt the highest index found among existing archives, and return
    /// the current file name.
    fn init(&mut self, files: &Vec<FileInfo>) -> String;

    /// The current file name.
    fn current(&self) -> String;

    /// Step to the next file name.
    fn next(&mut self, record: &FastLogRecord) -> String;

    /// Must the segment rotate before this record, regardless of size?
    fn should_rotate(&self, record: &FastLogRecord) -> bool {
        false
    }
}

/// How many index-named archives to keep.
#[derive(Copy, Clone, Debug, PartialEq, Eq, Structural)]
pub enum RotateKeepType {
    /// Keep all of the archives.
    All,
    /// Keep at most this many archives, those with the highest indexes.
    KeepNum(i64),
}

/// What parsing an index-named archive yields: for a name of the shape
/// `{stem}_{index}.{ext}`, the index; nothing otherwise.
pub open spec fn spec_parse_index(name: Seq<char>, temp_name: Seq<char>) -> Option<usize> {
    let base = spec_base_name(temp_name);
    if spec_starts_with(name, base) {
        let t = if base.len() == 0 {
            name
        } else {
            spec_trim_start(name, base)
        };
        let t2 = match spec_rfind(t, '.') {
            Some(v) => if v >= 1 {
                t.subrange(1, v)
            } else {
                t
            },
            None => t,
        };
        spec_parse_usize(t2)
    } else {
        None
    }
}

/// Index-based rotation: archives are named `{stem}_{index}.{ext}` and
/// the index counts up.
pub struct RotateKeeper {
    pub keep_type: RotateKeepType,
    pub index: usize,
}

impl RotateKeeper {
    /// A keeper starting at index zero.
    pub fn new(keep_type: RotateKeepType) -> (r: Self)
        ensures
            r.keep_type == keep_type,
            r.index == 0,
    {
        RotateKeeper { keep_type, index: 0 }
    }

    /// Parse the index out of an archive name of the shape
    /// `{stem}_{index}.{ext}`.
    pub fn file_name_parse_index(name: &str, temp_name: &str) -> (r: Option<usize>)
        ensures
            r == spec_parse_index(name@, temp_name@),
    {
        let base: String = Self::get_base_name(temp_name);
        if str_starts_with(name, base.as_str()) {
            let t: String = if base.as_str().unicode_len() == 0 {
                name.to_owned()
            } else {
                str_trim_start_matches(name, base.as_str())
            };
            proof {
                crate::plugin::file_split::lemma_rfind_last(t@, '.');
            }
            let t2: String = match rfind_char(t.as_str(), '.') {
                Some(v) => {
                    if v >= 1 {
                        substring(t.as_str(), 1, v)
                    } else {
                        t
                    }
                },
                None => t,
            };
            crate::text::parse_usize(t2.as_str())
        } else {
            None
        }
    }

    /// The name `{stem}_{index}.{ext}` derived from `name`, which must
    /// carry an extension.
    pub fn calc_filename(name: &str, index: usize) -> (r: String)
        requires
            spec_rfind(name@, '.') is Some,
        ensures
            ({
                let p = spec_rfind(name@, '.')->0;
                r@ == name@.subrange(0, p) + seq!['_'] + spec_dec(index as nat) + name@.subrange(
                    p,
                    name@.len() as int,
                )
            }),
    {
        proof {
            crate::plugin::file_split::lemma_rfind_last(name@, '.');
        }
        let n: usize = name.unicode_len();
        let p: usize = match rfind_char(name, '.') {
            Some(v) => v,
            None => 0,
        };
        let mut out: String = substring(name, 0, p);
        push_char(&mut out, '_');
        let dec: String = u64_to_dec(index as u64);
        out.append(dec.as_str());
        let ext: String = substring(name, p, n);
        out.append(ext.as_str());
        out
    }

    /// The stem archive siblings share: the file name without extension.
    pub fn get_base_name(path: &str) -> (r: String)
        ensures
            r@ == spec_base_name(path@),
    {
        get_base_name(path)
    }
}

impl Rotate for RotateKeeper {
    fn base_name(&self) -> &'static str {
        "temp.log"
    }

    /// Adopt the highest index any existing archive carries.
    fn init(&mut self, files: &Vec<FileInfo>) -> String {
        let n: usize = files.len();
        let mut best: usize = 0;
        let mut i: usize = 0;
        while i < n
            invariant
                i <= n,
                n == files@.len(),
            decreases n - i,
        {
            match RotateKeeper::file_name_parse_index(files[i].name.as_str(), "temp.log") {
                Some(v) => {
                    if v > best {
                        best = v;
                    }
                },
                None => {
                },
            }
            i = i + 1;
        }
        self.index = best;
        self.current()
    }

    fn current(&self) -> String {
        proof {
            reveal_strlit("temp.log");
            reveal_with_fuel(spec_rfind, 6);
        }
        RotateKeeper::calc_filename("temp.log", self.index)
    }

    fn next(&mut self, record: &FastLogRecord) -> String {
        if self.index < usize::MAX {
            self.index = self.index + 1;
        }
        self.current()
    }

    fn should_rotate(&self, record: &FastLogRecord) -> bool {
        false
    }
}

/// A split appender whose archives carry a counted-up index instead of a
/// timestamp.  The starting index comes from the caller, who can adopt
/// the highest index among existing archives with [`RotateKeeper::init`].
pub struct FileRotateAppender<F: SplitFile> {
    file: FileSplitAppender<F>,
}

impl<F: SplitFile> FileRotateAppender<F> {
    /// The split appender this wraps.
    pub closed spec fn spec_inner(&self) -> FileSplitAppender<F> {
        self.file
    }

    /// An index-rotated log at `file_path`, rotating when a segment would
    /// pass `temp_size`, with the next archive named at `start_index`.
    pub fn new(
        file_path: &str,
        temp_size: LogSize,
        start_index: u64,
        keep: KeepType,
        packer: PackerKind,
    ) -> (r: Result<FileRotateAppender<F>, LogError>)
        ensures
            r is Ok ==> ({
                let a = r->Ok_0.spec_inner();
                &&& a.wf()
                &&& a.spec_rolling() == PackType::ByIndex(
                    IndexType { index: start_index, size_limit: temp_size },
                )
                &&& a.spec_keep() == keep
                &&& a.spec_packer() == packer
            }),
    {
        let inner: FileSplitAppender<F> = match FileSplitAppender::new(
            file_path,
            PackType::ByIndex(IndexType::starting_at(start_index, temp_size)),
            keep,
            packer,
        ) {
            Ok(a) => a,
            Err(e) => {
                return Err(e);
            },
        };
        Ok(FileRotateAppender { file: inner })
    }

    /// Write a batch through the underlying split appender.
    pub fn write_batch(&mut self, records: &Vec<FastLogRecord>)
        requires
            old(self).spec_inner().wf(),
        ensures
            final(self).spec_inner().wf(),
            final(self).spec_inner().spec_temp_name() == old(self).spec_inner().spec_temp_name(),
            final(self).spec_inner().spec_dir() == old(self).spec_inner().spec_dir(),
            final(self).spec_inner().spec_keep() == old(self).spec_inner().spec_keep(),
            final(self).spec_inner().spec_packer() == old(self).spec_inner().spec_packer(),
            final(self).spec_inner().spec_zone() == old(self).spec_inner().spec_zone(),
            ({
                let run = spec_split_run(
                    old(self).spec_inner().spec_data(),
                    Seq::<u8>::empty(),
                    old(self).spec_inner().spec_rolling(),
                    old(self).spec_inner().spec_temp_name(),
                    old(self).spec_inner().spec_zone(),
                    records@,
                );
                &&& final(self).spec_inner().spec_data() == run.0
                &&& final(self).spec_inner().spec_rolling() == run.1
                &&& final(self).spec_inner().spec_packs().len() == old(
                    self,
                ).spec_inner().spec_packs().len() + run.2.len()
                &&& final(self).spec_inner().spec_packs().take(
                    old(self).spec_inner().spec_packs().len() as int,
                ) == old(self).spec_inner().spec_packs()
                &&& forall|k: int|
                    0 <= k < run.2.len() ==> spec_pack_matches(
                        #[trigger] final(self).spec_inner().spec_packs()[old(
                            self,
                        ).spec_inner().spec_packs().len() + k],
                        old(self).spec_inner().spec_dir(),
                        run.2[k].0,
                        run.2[k].1,
                        run.2[k].2,
                    )
            }),
    {
        self.file.write_batch(records);
    }

    /// The segment file's name.
    pub fn temp_name(&self) -> (r: &String)
        ensures
            r@ == self.spec_inner().spec_temp_name(),
    {
        self.file.temp_name()
    }

    /// Hand out the queued archive jobs.
    pub fn take_packs(&mut self) -> (r: Vec<crate::plugin::file_split::LogPack>)
        ensures
            r@ == old(self).spec_inner().spec_packs(),
    {
        self.file.take_packs()
    }
}

impl<F: SplitFile> crate::appender::LogAppender for FileRotateAppender<F> {
    fn do_logs(&mut self, records: &Vec<FastLogRecord>) {
        self.file.resync();
        self.file.write_batch(records);
    }
}

} // verus!

//! Day-rolled segments: a split appender whose rotation predicate fires
//! at each day boundary and on a full segment, with archives named
//! `{stem}_{YYYYMMDD}_{index}{ext}`.

use vstd::prelude::*;

use crate::appender::{FastLogRecord, LogAppender};
use crate::consts::LogSize;
use crate::date::{push_four_digits, spec_four_digits, LogDate};
use crate::error::LogError;
use crate::plugin::file_name::{extract_file_name_of, spec_extract_file_name};
use crate::plugin::file_split::{get_base_name, lemma_rfind_last, spec_base_name,
    spec_pack_matches, spec_rfind, spec_split_run, DailyType, FileInfo, FileSplitAppender,
    KeepType, PackType, SplitFile};
use crate::plugin::packer::PackerKind;
use crate::text::{parse_usize, push_char, push_two_digits, rfind_char, spec_parse_usize,
    spec_starts_with, spec_two_digits, str_starts_with, substring};

verus! {

/// The name prefix every archive of day `d` for the segment `temp_name`
/// carries: the stem, the day written as eight digits, and the
/// underscores around it.
pub open spec fn spec_daily_prefix(temp_name: Seq<char>, d: LogDate) -> Seq<char> {
    spec_base_name(temp_name) + seq!['_'] + spec_four_digits(d.year as nat) + spec_two_digits(
        d.mon as nat,
    ) + spec_two_digits(d.day as nat) + seq!['_']
}

/// What parsing a daily archive name yields: for a name of the shape
/// `{stem}_{YYYYMMDD}_{index}{ext}` carrying the day `d`, the index;
/// nothing otherwise.
pub open spec fn spec_parse_daily_index(
    name: Seq<char>,
    temp_name: Seq<char>,
    d: LogDate,
) -> Option<usize> {
    let pref = spec_daily_prefix(temp_name, d);
    if spec_starts_with(name, pref) {
        let t = name.skip(pref.len() as int);
        let t2 = match spec_rfind(t, '.') {
            Some(v) => t.take(v),
            None => t,
        };
        spec_parse_usize(t2)
    } else {
        None
    }
}

/// Parse the within-day index out of a daily archive name.
pub fn parse_daily_index(name: &str, temp_name: &str, d: &LogDate) -> (r: Option<usize>)
    ensures
        r == spec_parse_daily_index(name@, temp_name@, *d),
{
    let mut pref: String = get_base_name(temp_name);
    push_char(&mut pref, '_');
    push_four_digits(&mut pref, d.year);
    push_two_digits(&mut pref, d.mon);
    push_two_digits(&mut pref, d.day);
    push_char(&mut pref, '_');
    proof {
        assert(pref@ =~= spec_daily_prefix(temp_name@, *d));
    }
    if !str_starts_with(name, pref.as_str()) {
        return None;
    }
    let n: usize = name.unicode_len();
    let plen: usize = pref.as_str().unicode_len();
    let t: String = substring(name, plen, n);
    proof {
        assert(t@ =~= name@.skip(plen as int));
        lemma_rfind_last(t@, '.');
    }
    let t2: String = match rfind_char(t.as_str(), '.') {
        Some(v) => substring(t.as_str(), 0, v),
        None => t,
    };
    parse_usize(t2.as_str())
}

/// The first index no archive of day `d` carries in the listing: one past
/// the highest parsed index, zero when the day has none.  A reopened
/// appender resuming here cannot name a same-day rotation after an
/// archive that already exists.
pub fn daily_next_index(files: &Vec<FileInfo>, temp_name: &str, d: &LogDate) -> (r: u64)
    ensures
        forall|j: int|
            0 <= j < files@.len() ==> (match spec_parse_daily_index(
                (#[trigger] files@[j]).name@,
                temp_name@,
                *d,
            ) {
                Some(ix) => r == u64::MAX || (ix as int) < r,
                None => true,
            }),
        r > 0 ==> exists|j: int|
            0 <= j < files@.len() && (match spec_parse_daily_index(
                (#[trigger] files@[j]).name@,
                temp_name@,
                *d,
            ) {
                Some(ix) => ix as int >= r - 1,
                None => false,
            }),
{
    let n: usize = files.len();
    let mut best: u64 = 0;
    let mut seen: bool = false;
    let mut i: usize = 0;
    while i < n
        invariant
            i <= n,
            n == files@.len(),
            forall|j: int|
                0 <= j < i ==> (match spec_parse_daily_index(
                    (#[trigger] files@[j]).name@,
                    temp_name@,
                    *d,
                ) {
                    Some(ix) => seen && ix as int <= best,
                    None => true,
                }),
            seen ==> exists|j: int|
                0 <= j < i && (match spec_parse_daily_index(
                    (#[trigger] files@[j]).name@,
                    temp_name@,
                    *d,
                ) {
                    Some(ix) => ix as int == best,
                    None => false,
                }),
        decreases n - i,
    {
        match parse_daily_index(files[i].name.as_str(), temp_name, d) {
            Some(ix) => {
                let ix64: u64 = ix as u64;
                if !seen || ix64 > best {
                    best = ix64;
                    seen = true;
                }
            },
            None => {
            },
        }
        i = i + 1;
    }
    if !seen {
        0
    } else if best == u64::MAX {
        u64::MAX
    } else {
        best + 1
    }
}

/// A split appender rotating on the day boundary and on a full segment.
pub struct FileDailyAppender<F: SplitFile> {
    file: FileSplitAppender<F>,
}

impl<F: SplitFile> FileDailyAppender<F> {
    /// The split appender this wraps.
    pub closed spec fn spec_inner(&self) -> FileSplitAppender<F> {
        self.file
    }

    /// A day-rolled log at `file_path`, also rotating when a segment
    /// would pass `temp_size`.
    pub fn new(
        file_path: &str,
        temp_size: LogSize,
        keep: KeepType,
        packer: PackerKind,
    ) -> (r: Result<FileDailyAppender<F>, LogError>)
        ensures
            r is Ok ==> ({
                let a = r->Ok_0.spec_inner();
                &&& a.wf()
                &&& a.spec_rolling() matches PackType::ByDaily(dt) && dt.index == 0
                    && dt.size_limit == temp_size
                &&& a.spec_keep() == keep
                &&& a.spec_packer() == packer
            }),
    {
        let daily: DailyType = DailyType::new(temp_size);
        let inner: FileSplitAppender<F> = match FileSplitAppender::new(
            file_path,
            PackType::ByDaily(daily),
            keep,
            packer,
        ) {
            Ok(a) => a,
            Err(e) => {
                return Err(e);
            },
        };
        Ok(FileDailyAppender { file: inner })
    }

    /// A day-rolled log at `file_path` for the day `today`, resuming at
    /// the first within-day index free in `files` (a listing of the
    /// segment's directory, supplied by the embedding program), so that a
    /// same-day rotation after a reopen cannot overwrite an archive that
    /// already exists.
    pub fn new_resuming(
        file_path: &str,
        temp_size: LogSize,
        keep: KeepType,
        packer: PackerKind,
        files: &Vec<FileInfo>,
        today: LogDate,
    ) -> (r: Result<FileDailyAppender<F>, LogError>)
        ensures
            r is Ok ==> ({
                let a = r->Ok_0.spec_inner();
                &&& a.wf()
                &&& a.spec_rolling() matches PackType::ByDaily(dt) && dt.last == today
                    && dt.size_limit == temp_size && (forall|j: int|
                    0 <= j < files@.len() ==> (match spec_parse_daily_index(
                        (#[trigger] files@[j]).name@,
                        a.spec_temp_name(),
                        today,
                    ) {
                        Some(ix) => dt.index == u64::MAX || (ix as int) < dt.index,
                        None => true,
                    }))
                &&& a.spec_keep() == keep
                &&& a.spec_packer() == packer
            }),
    {
        proof {
            reveal_strlit("temp.log");
        }
        let mut temp_name: String = extract_file_name_of(file_path);
        if temp_name.as_str().unicode_len() == 0 {
            temp_name = String::from_str("temp.log");
        }
        let start: u64 = daily_next_index(files, temp_name.as_str(), &today);
        let daily: DailyType = DailyType::starting_at(today, start, temp_size);
        let inner: FileSplitAppender<F> = match FileSplitAppender::new(
            file_path,
            PackType::ByDaily(daily),
            keep,
            packer,
        ) {
            Ok(a) => a,
            Err(e) => {
                return Err(e);
            },
        };
        Ok(FileDailyAppender { file: inner })
    }

    /// Write a batch through the underlying split appender.
    pub fn write_batch(&mut self, records: &Vec<FastLogRecord>)
        requires
            old(self).spec_inner().wf(),
        ensures
            final(self).spec_inner().wf(),
            final(self).spec_inner().spec_temp_name() == old(self).spec_inner().spec_temp_name(),
            final(self).spec_inner().spec_dir() == old(self).spec_inner().spec_dir(),
            final(self).spec_inner().spec_keep() == old(self).spec_inner().spec_keep(),
            final(self).spec_inner().spec_packer() == old(self).spec_inner().spec_packer(),
            final(self).spec_inner().spec_zone() == old(self).spec_inner().spec_zone(),
            ({
                let run = spec_split_run(
                    old(self).spec_inner().spec_data(),
                    Seq::<u8>::empty(),
                    old(self).spec_inner().spec_rolling(),
                    old(self).spec_inner().spec_temp_name(),
                    old(self).spec_inner().spec_zone(),
                    records@,
                );
                &&& final(self).spec_inner().spec_data() == run.0
                &&& final(self).spec_inner().spec_rolling() == run.1
                &&& final(self).spec_inner().spec_packs().len() == old(
                    self,
                ).spec_inner().spec_packs().len() + run.2.len()
                &&& final(self).spec_inner().spec_packs().take(
                    old(self).spec_inner().spec_packs().len() as int,
                ) == old(self).spec_inner().spec_packs()
                &&& forall|k: int|
                    0 <= k < run.2.len() ==> spec_pack_matches(
                        #[trigger] final(self).spec_inner().spec_packs()[old(
                            self,
                        ).spec_inner().spec_packs().len() + k],
                        old(self).spec_inner().spec_dir(),
                        run.2[k].0,
                        run.2[k].1,
                        run.2[k].2,
                    )
            }),
    {
        self.file.write_batch(records);
    }

    /// The segment file's name.
    pub fn temp_name(&self) -> (r: &String)
        ensures
            r@ == self.spec_inner().spec_temp_name(),
    {
        self.file.temp_name()
    }

    /// Hand out the queued archive jobs.
    pub fn take_packs(&mut self) -> (r: Vec<crate::plugin::file_split::LogPack>)
        ensures
            r@ == old(self).spec_inner().spec_packs(),
    {
        self.file.take_packs()
    }
}

impl<F: SplitFile> LogAppender for FileDailyAppender<F> {
    fn do_logs(&mut self, records: &Vec<FastLogRecord>) {
        self.file.resync();
        self.file.write_batch(records);
    }
}

} // verus!

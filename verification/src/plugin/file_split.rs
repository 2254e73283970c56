//! The segmented, rotatable, retention-governed sink: the byte-sink
//! abstraction, the rotation predicates, the retention policies and the
//! split appender itself.

use vstd::prelude::*;

use crate::appender::{Command, FastLogRecord};
use crate::consts::LogSize;
use crate::date::{local_date, push_four_digits, spec_archive_stamp, spec_four_digits,
    spec_record_date, LogDate};
use crate::error::LogError;
use crate::plugin::file_name::{extract_file_name_of, spec_extract_file_name};
use crate::runtime::{now_epoch, offset_sec, wg_clone};
use crate::text::{push_char, push_two_digits, rfind_char, spec_dec, spec_replace,
    spec_starts_with, spec_trim_end, spec_two_digits, str_eq, str_replace, str_starts_with,
    str_trim_end_matches, substring, u64_to_dec};

verus! {

/// A position to move a sink's cursor to.
#[derive(Clone, Copy, Debug)]
pub enum SeekPos {
    /// An offset from the start.
    Start(u64),
    /// An offset back from the end.
    End(i64),
    /// An offset from the current position.
    Current(i64),
}

/// Where a seek on a fixed-size mapped region lands: a start position is
/// clamped to the region, an end position counts back from the region's
/// end (a positive distance past the start is refused), and a relative
/// position moves the cursor with wrap-around arithmetic on the raw
/// offset (refused when the sum leaves the offset space), clamped to the
/// region.
pub open spec fn spec_mmap_seek(pos: SeekPos, current: u64, region_len: u64) -> Option<u64> {
    match pos {
        SeekPos::Start(n) => Some(
            if n > region_len {
                region_len
            } else {
                n
            },
        ),
        SeekPos::End(n) => if n < 0 {
            let e = if region_len + (-n) > u64::MAX {
                u64::MAX as int
            } else {
                region_len + (-n)
            };
            Some(
                if e == 0 {
                    0
                } else {
                    (e - 1) as u64
                },
            )
        } else {
            if region_len >= n {
                Some((region_len - n) as u64)
            } else {
                None
            }
        },
        SeekPos::Current(n) => {
            let w = if n >= 0 {
                n as int
            } else {
                n + 0x10000000000000000
            };
            if current + w > u64::MAX {
                None
            } else if current + w > region_len {
                Some(region_len)
            } else {
                Some((current + w) as u64)
            }
        },
    }
}

/// The seek decision of a memory-mapped sink, on plain values: the new
/// cursor, or the error the out-of-range cases carry.
pub fn mmap_seek_target(pos: SeekPos, current: u64, region_len: u64) -> (r: Result<u64, LogError>)
    ensures
        (r is Ok) <==> spec_mmap_seek(pos, current, region_len) is Some,
        r is Ok ==> r->Ok_0 == spec_mmap_seek(pos, current, region_len)->0,
        r is Err ==> r->Err_0.spec_message() == "Seek before start of file"@,
{
    match pos {
        SeekPos::Start(n) => {
            if n > region_len {
                Ok(region_len)
            } else {
                Ok(n)
            }
        },
        SeekPos::End(n) => {
            if n < 0 {
                let mag: u64 = if n == i64::MIN {
                    9223372036854775808u64
                } else {
                    (-n) as u64
                };
                let e: u64 = if region_len > u64::MAX - mag {
                    u64::MAX
                } else {
                    region_len + mag
                };
                if e == 0 {
                    Ok(0)
                } else {
                    Ok(e - 1)
                }
            } else {
                if region_len >= n as u64 {
                    Ok(region_len - n as u64)
                } else {
                    Err(LogError::of("Seek before start of file"))
                }
            }
        },
        SeekPos::Current(n) => {
            let wrapped: u64 = if n >= 0 {
                n as u64
            } else {
                u64::MAX - ((-(n + 1)) as u64)
            };
            if current > u64::MAX - wrapped {
                Err(LogError::of("Seek before start of file"))
            } else {
                let sum: u64 = current + wrapped;
                if sum > region_len {
                    Ok(region_len)
                } else {
                    Ok(sum)
                }
            }
        },
    }
}

/// An abstract byte sink backing one live segment.  Its model is the byte
/// content it holds and an append cursor.  The in-memory [`MemFile`]
/// implements it here and is verified; an embedding program may implement
/// it over a real file or map, and then answers for the contract itself.
pub trait SplitFile: Sized {
    /// The bytes the sink holds.  An implementation outside the verifier's
    /// reach may leave the default model; it then answers for the
    /// executable contract itself.
    open spec fn data(&self) -> Seq<u8> {
        Seq::empty()
    }

    /// The position the next write lands at.
    open spec fn cursor(&self) -> int {
        0
    }

    /// Open the sink named by `path`.  What it holds depends on what was
    /// there before, so nothing is promised of the content.
    fn new(path: &str) -> (r: Result<Self, LogError>)
        ensures
            r is Ok ==> 0 <= r->Ok_0.cursor() <= r->Ok_0.data().len(),
    ;

    /// Move the cursor; the content stays.  A `Start` position within the
    /// content is honoured exactly.
    fn seek(&mut self, pos: SeekPos) -> (r: Result<u64, LogError>)
        ensures
            final(self).data() == old(self).data(),
            0 <= final(self).cursor() <= final(self).data().len(),
            match pos {
                SeekPos::Start(o) => o <= old(self).data().len() ==> final(self).cursor() == o,
                SeekPos::End(_) => true,
                SeekPos::Current(_) => true,
            },
    ;

    /// Append all of `buf` at the cursor, which must sit at the end, and
    /// return the count written.  A backend over a medium that takes
    /// short writes loops until everything is down.
    fn write(&mut self, buf: &Vec<u8>) -> (n: usize)
        requires
            old(self).cursor() == old(self).data().len(),
        ensures
            n == buf@.len(),
            final(self).data() == old(self).data() + buf@,
            final(self).cursor() == final(self).data().len(),
    ;

    /// Drop all content and rewind the cursor to the start.
    fn truncate(&mut self) -> (r: Result<(), LogError>)
        ensures
            final(self).data() == Seq::<u8>::empty(),
            final(self).cursor() == 0,
    ;

    /// Push buffered bytes towards durability; the model does not move.
    fn flush(&mut self)
        ensures
            final(self).data() == old(self).data(),
            final(self).cursor() == old(self).cursor(),
    ;

    /// The number of bytes held.
    fn len(&self) -> (r: usize)
        ensures
            r == self.data().len(),
    ;

    /// The current append position.
    fn offset(&self) -> (r: usize)
        requires
            0 <= self.cursor() <= self.data().len(),
        ensures
            r == self.cursor(),
    ;

    /// The content, copied out (what a rotation archives).
    fn read_all(&self) -> (r: Vec<u8>)
        ensures
            r@ == self.data(),
    ;
}

/// A fully verified in-memory byte sink: the reference implementation of
/// [`SplitFile`], and the segment model the tests run against.
pub struct MemFile {
    bytes: Vec<u8>,
    pos: usize,
}

impl MemFile {
    /// An empty sink.
    pub fn empty() -> (r: MemFile)
        ensures
            r.data() == Seq::<u8>::empty(),
            r.cursor() == 0,
    {
        MemFile { bytes: Vec::new(), pos: 0 }
    }

    /// A sink already holding `bytes`, cursor at the end — a segment file
    /// found on disk when an appender reopens.
    pub fn with_content(bytes: Vec<u8>) -> (r: MemFile)
        ensures
            r.data() == bytes@,
            r.cursor() == bytes@.len(),
    {
        let pos: usize = bytes.len();
        MemFile { bytes, pos }
    }

    /// Borrow the held bytes.
    pub fn data_ref(&self) -> (r: &Vec<u8>)
        ensures
            r@ == self.data(),
    {
        &self.bytes
    }
}

impl SplitFile for MemFile {
    closed spec fn data(&self) -> Seq<u8> {
        self.bytes@
    }

    closed spec fn cursor(&self) -> int {
        self.pos as int
    }

    fn new(path: &str) -> (r: Result<Self, LogError>) {
        Ok(MemFile::empty())
    }

    fn seek(&mut self, pos: SeekPos) -> (r: Result<u64, LogError>) {
        let n: usize = self.bytes.len();
        match pos {
            SeekPos::Start(o) => {
                if o <= n as u64 {
                    self.pos = o as usize;
                } else {
                    self.pos = n;
                }
            },
            SeekPos::End(_) => {
                self.pos = n;
            },
            SeekPos::Current(_) => {
                if self.pos > n {
                    self.pos = n;
                }
            },
        }
        Ok(self.pos as u64)
    }

    fn write(&mut self, buf: &Vec<u8>) -> (n: usize) {
        let k: usize = buf.len();
        let mut i: usize = 0;
        while i < k
            invariant
                i <= k,
                k == buf@.len(),
                self.bytes@ == old(self).bytes@ + buf@.take(i as int),
            decreases k - i,
        {
            let b: u8 = buf[i];
            self.bytes.push(b);
            i = i + 1;
            proof {
                assert(self.bytes@ =~= old(self).bytes@ + buf@.take(i as int));
            }
        }
        self.pos = self.bytes.len();
        proof {
            assert(old(self).bytes@ + buf@.take(0) =~= old(self).bytes@);
            assert(buf@.take(k as int) =~= buf@);
        }
        k
    }

    fn truncate(&mut self) -> (r: Result<(), LogError>) {
        self.bytes = Vec::new();
        self.pos = 0;
        Ok(())
    }

    fn flush(&mut self) {
    }

    fn len(&self) -> (r: usize) {
        self.bytes.len()
    }

    fn offset(&self) -> (r: usize) {
        self.pos
    }

    fn read_all(&self) -> (r: Vec<u8>) {
        let n: usize = self.bytes.len();
        let mut out: Vec<u8> = Vec::new();
        let mut i: usize = 0;
        while i < n
            invariant
                i <= n,
                n == self.bytes@.len(),
                out@ == self.bytes@.take(i as int),
            decreases n - i,
        {
            out.push(self.bytes[i]);
            i = i + 1;
            proof {
                assert(out@ =~= self.bytes@.take(i as int));
            }
        }
        proof {
            assert(self.bytes@.take(n as int) =~= self.bytes@);
        }
        out
    }
}

/// The calendar granularity at which a date-based predicate compares two
/// timestamps.
#[derive(Clone, Copy, Debug, PartialEq, Eq, Structural)]
pub enum DiffDateType {
    Sec,
    Hour,
    Minute,
    Day,
    Month,
    Year,
}

/// The state of a date-based rotation predicate: the granularity and the
/// local-zone date of the last record seen.
#[derive(Clone, Copy, Debug, PartialEq, Eq, Structural)]
pub struct DateType {
    pub last: LogDate,
    pub diff: DiffDateType,
}

impl DateType {
    /// A predicate comparing at granularity `arg`, starting from the
    /// present moment.
    pub fn new(arg: DiffDateType) -> (r: Self)
        ensures
            r.diff == arg,
    {
        let (s, n) = now_epoch();
        let off: i32 = offset_sec();
        DateType { last: local_date(s, n, off), diff: arg }
    }

    /// A predicate comparing at granularity `diff`, starting from `last`.
    pub fn starting_at(last: LogDate, diff: DiffDateType) -> (r: Self)
        ensures
            r.last == last,
            r.diff == diff,
    {
        DateType { last, diff }
    }
}

impl Default for DateType {
    /// Rotation on the day boundary, starting from the present moment.
    fn default() -> (r: Self)
        ensures
            r.diff == DiffDateType::Day,
    {
        DateType::new(DiffDateType::Day)
    }
}

/// The state of a duration-based rotation predicate: the period, when the
/// current period started, and the local-zone date of the last record seen
/// (which names the archive on rotation).
#[derive(Clone, Copy, Debug, PartialEq, Eq, Structural)]
pub struct DurationType {
    pub last: LogDate,
    pub start_sec: u64,
    pub start_nano: u32,
    pub dur_sec: u64,
    pub dur_nano: u32,
}

impl DurationType {
    /// A predicate rotating every `dur_sec` seconds and `dur_nano`
    /// nanoseconds, starting from the present moment.
    pub fn new(dur_sec: u64, dur_nano: u32) -> (r: Self)
        ensures
            r.dur_sec == dur_sec,
            r.dur_nano == dur_nano,
    {
        let (s, n) = now_epoch();
        let off: i32 = offset_sec();
        DurationType { last: local_date(s, n, off), start_sec: s, start_nano: n, dur_sec, dur_nano }
    }

    /// A predicate with every part of its state given.
    pub fn starting_at(
        last: LogDate,
        start_sec: u64,
        start_nano: u32,
        dur_sec: u64,
        dur_nano: u32,
    ) -> (r: Self)
        ensures
            r == (DurationType { last, start_sec, start_nano, dur_sec, dur_nano }),
    {
        DurationType { last, start_sec, start_nano, dur_sec, dur_nano }
    }
}

/// Do two timestamps fall on different calendar days?
pub open spec fn spec_day_changed(a: LogDate, b: LogDate) -> bool {
    a.year != b.year || a.mon != b.mon || a.day != b.day
}

/// The state of the daily rotation predicate: the day the live segment
/// belongs to, the size ceiling, and the within-day archive index.
#[derive(Clone, Copy, Debug, PartialEq, Eq, Structural)]
pub struct DailyType {
    pub last: LogDate,
    pub index: u64,
    pub size_limit: LogSize,
}

impl DailyType {
    /// A daily predicate starting from the present moment at index zero.
    pub fn new(size_limit: LogSize) -> (r: Self)
        ensures
            r.index == 0,
            r.size_limit == size_limit,
    {
        let (s, n) = now_epoch();
        let off: i32 = offset_sec();
        DailyType { last: local_date(s, n, off), index: 0, size_limit }
    }

    /// A daily predicate with every part of its state given.
    pub fn starting_at(last: LogDate, index: u64, size_limit: LogSize) -> (r: Self)
        ensures
            r == (DailyType { last, index, size_limit }),
    {
        DailyType { last, index, size_limit }
    }
}

/// The archive name a daily rotation uses: the segment name with
/// `_YYYYMMDD_{index}` slipped in before the extension (or appended when
/// there is none).
pub open spec fn spec_daily_name(temp_name: Seq<char>, d: LogDate, index: nat) -> Seq<char> {
    let tag = seq!['_'] + spec_four_digits(d.year as nat) + spec_two_digits(d.mon as nat)
        + spec_two_digits(d.day as nat) + seq!['_'] + spec_dec(index);
    match spec_rfind(temp_name, '.') {
        None => temp_name + tag,
        Some(p) => temp_name.take(p) + tag + temp_name.skip(p),
    }
}

/// Render the archive name of a daily rotation.
pub fn daily_name(temp_name: &str, d: &LogDate, index: u64) -> (r: String)
    ensures
        r@ == spec_daily_name(temp_name@, *d, index as nat),
{
    proof {
        lemma_rfind_last(temp_name@, '.');
    }
    let n: usize = temp_name.unicode_len();
    let p: usize = match rfind_char(temp_name, '.') {
        Some(v) => v,
        None => n,
    };
    let mut out: String = substring(temp_name, 0, p);
    push_char(&mut out, '_');
    push_four_digits(&mut out, d.year);
    push_two_digits(&mut out, d.mon);
    push_two_digits(&mut out, d.day);
    push_char(&mut out, '_');
    let dec: String = u64_to_dec(index);
    out.append(dec.as_str());
    let ext: String = substring(temp_name, p, n);
    out.append(ext.as_str());
    proof {
        if spec_rfind(temp_name@, '.') is Some {
            assert(out@ =~= spec_daily_name(temp_name@, *d, index as nat));
        } else {
            assert(temp_name@.take(n as int) =~= temp_name@);
            assert(temp_name@.skip(n as int) =~= Seq::<char>::empty());
            assert(out@ =~= spec_daily_name(temp_name@, *d, index as nat));
        }
    }
    out
}

/// The state of the index rotation predicate: the size ceiling and the
/// index the next archive carries.
#[derive(Clone, Copy, Debug, PartialEq, Eq, Structural)]
pub struct IndexType {
    pub index: u64,
    pub size_limit: LogSize,
}

impl IndexType {
    /// An index predicate starting at `index`.
    pub fn starting_at(index: u64, size_limit: LogSize) -> (r: Self)
        ensures
            r == (IndexType { index, size_limit }),
    {
        IndexType { index, size_limit }
    }
}

/// The archive name an index rotation uses: the segment name with
/// `_{index}` slipped in before the extension (or appended when there is
/// none).
pub open spec fn spec_index_name(temp_name: Seq<char>, index: nat) -> Seq<char> {
    let tag = seq!['_'] + spec_dec(index);
    match spec_rfind(temp_name, '.') {
        None => temp_name + tag,
        Some(p) => temp_name.take(p) + tag + temp_name.skip(p),
    }
}

/// Render the archive name of an index rotation.
pub fn index_name(temp_name: &str, index: u64) -> (r: String)
    ensures
        r@ == spec_index_name(temp_name@, index as nat),
{
    proof {
        lemma_rfind_last(temp_name@, '.');
    }
    let n: usize = temp_name.unicode_len();
    let p: usize = match rfind_char(temp_name, '.') {
        Some(v) => v,
        None => n,
    };
    let mut out: String = substring(temp_name, 0, p);
    push_char(&mut out, '_');
    let dec: String = u64_to_dec(index);
    out.append(dec.as_str());
    let ext: String = substring(temp_name, p, n);
    out.append(ext.as_str());
    proof {
        if spec_rfind(temp_name@, '.') is Some {
            assert(out@ =~= spec_index_name(temp_name@, index as nat));
        } else {
            assert(temp_name@.take(n as int) =~= temp_name@);
            assert(temp_name@.skip(n as int) =~= Seq::<char>::empty());
            assert(out@ =~= spec_index_name(temp_name@, index as nat));
        }
    }
    out
}

/// Is the instant `(a_sec, a_nano)` at or after `(b_sec, b_nano)` moved
/// forward by `(d_sec, d_nano)`?
pub open spec fn spec_instant_reached(
    a_sec: nat,
    a_nano: nat,
    b_sec: nat,
    b_nano: nat,
    d_sec: nat,
    d_nano: nat,
) -> bool {
    a_sec * 1000000000 + a_nano >= (b_sec + d_sec) * 1000000000 + b_nano + d_nano
}

/// A rotation predicate: asked before each record is written, with the
/// prospective segment size, it answers with the archive name when the
/// segment must rotate now.
pub trait CanPack {
    /// Decide whether to rotate before writing `arg`, given the live
    /// segment's file name, the prospective size, and the zone offset for
    /// timestamp naming; `Some` carries the archive file name.
    fn is_pack(
        &mut self,
        temp_name: &str,
        temp_size: usize,
        arg: &FastLogRecord,
        zone_offset_sec: i32,
    ) -> (r: Option<String>);
}

/// One of the stock rotation predicates.
#[derive(Clone, Copy, Debug)]
pub enum PackType {
    /// Rotate when the record's timestamp differs from the last one at the
    /// chosen granularity; the archive is named after the previous date.
    ByDate(DateType),
    /// Rotate when the prospective size reaches the limit; the archive is
    /// named after the incoming record's timestamp.
    BySize(LogSize),
    /// Rotate when the record's timestamp reaches the end of the current
    /// period; the archive is named after the previous record's date.
    ByDuration(DurationType),
    /// Rotate at each day boundary and whenever the prospective size
    /// reaches the ceiling; archives carry the day and a within-day
    /// index.
    ByDaily(DailyType),
    /// Rotate when the prospective size reaches the ceiling; archives
    /// carry a counted-up index.
    ByIndex(IndexType),
}

impl PackType {
    /// Does this predicate demand a rotation for `rec` at `temp_size`?
    pub open spec fn spec_decides(
        self,
        temp_size: nat,
        rec: FastLogRecord,
        off: int,
    ) -> bool {
        match self {
            PackType::ByDate(dt) => {
                let d = spec_record_date(rec, off);
                match dt.diff {
                    DiffDateType::Sec => d.sec != dt.last.sec,
                    DiffDateType::Hour => d.hour != dt.last.hour,
                    DiffDateType::Minute => d.min != dt.last.min,
                    DiffDateType::Day => d.day != dt.last.day,
                    DiffDateType::Month => d.mon != dt.last.mon,
                    DiffDateType::Year => d.year != dt.last.year,
                }
            },
            PackType::BySize(limit) => temp_size >= limit.spec_len(),
            PackType::ByDuration(du) => spec_instant_reached(
                rec.now_sec as nat,
                rec.now_nano as nat,
                du.start_sec as nat,
                du.start_nano as nat,
                du.dur_sec as nat,
                du.dur_nano as nat,
            ),
            PackType::ByDaily(dt) => temp_size >= dt.size_limit.spec_len() || spec_day_changed(
                spec_record_date(rec, off),
                dt.last,
            ),
            PackType::ByIndex(ix) => temp_size >= ix.size_limit.spec_len(),
        }
    }

    /// The archive name a rotation for `rec` uses: the segment name with
    /// `.log` replaced by a timestamp stamp ending in `.log`.
    pub open spec fn spec_archive_name(
        self,
        temp_name: Seq<char>,
        rec: FastLogRecord,
        off: int,
    ) -> Seq<char> {
        match self {
            PackType::ByDate(dt) => spec_replace(temp_name, ".log"@, spec_archive_stamp(dt.last)),
            PackType::BySize(_) => spec_replace(
                temp_name,
                ".log"@,
                spec_archive_stamp(spec_record_date(rec, off)),
            ),
            PackType::ByDuration(du) => spec_replace(
                temp_name,
                ".log"@,
                spec_archive_stamp(du.last),
            ),
            PackType::ByDaily(dt) => spec_daily_name(temp_name, dt.last, dt.index as nat),
            PackType::ByIndex(ix) => spec_index_name(temp_name, ix.index as nat),
        }
    }

    /// The predicate's state after seeing `rec`: a date predicate restarts
    /// from the record's date when it fires; a duration predicate always
    /// remembers the record's date, and restarts its period when it fires.
    pub open spec fn spec_next(self, temp_size: nat, rec: FastLogRecord, off: int) -> PackType {
        let fired = self.spec_decides(temp_size, rec, off);
        match self {
            PackType::ByDate(dt) => if fired {
                PackType::ByDate(DateType { last: spec_record_date(rec, off), diff: dt.diff })
            } else {
                self
            },
            PackType::BySize(_) => self,
            PackType::ByDuration(du) => if fired {
                PackType::ByDuration(
                    DurationType {
                        last: spec_record_date(rec, off),
                        start_sec: rec.now_sec,
                        start_nano: rec.now_nano,
                        dur_sec: du.dur_sec,
                        dur_nano: du.dur_nano,
                    },
                )
            } else {
                PackType::ByDuration(DurationType { last: spec_record_date(rec, off), ..du })
            },
            PackType::ByDaily(dt) => if fired {
                if spec_day_changed(spec_record_date(rec, off), dt.last) {
                    PackType::ByDaily(
                        DailyType { last: spec_record_date(rec, off), index: 0, ..dt },
                    )
                } else if dt.index < u64::MAX {
                    PackType::ByDaily(DailyType { index: (dt.index + 1) as u64, ..dt })
                } else {
                    self
                }
            } else {
                self
            },
            PackType::ByIndex(ix) => if fired && ix.index < u64::MAX {
                PackType::ByIndex(IndexType { index: (ix.index + 1) as u64, ..ix })
            } else {
                self
            },
        }
    }

    /// Decide whether to rotate before writing `arg`; exactly when the
    /// predicate fires, the archive name is returned and the state moves
    /// on as `spec_next` says.
    pub fn decide(
        &mut self,
        temp_name: &str,
        temp_size: u128,
        arg: &FastLogRecord,
        zone_offset_sec: i32,
    ) -> (r: Option<String>)
        ensures
            r is Some <==> old(self).spec_decides(
                temp_size as nat,
                *arg,
                zone_offset_sec as int,
            ),
            r is Some ==> r->0@ == old(self).spec_archive_name(
                temp_name@,
                *arg,
                zone_offset_sec as int,
            ),
            *final(self) == old(self).spec_next(temp_size as nat, *arg, zone_offset_sec as int),
    {
        proof {
            reveal_strlit(".log");
        }
        match self {
            PackType::ByDate(dt) => {
                let d: LogDate = local_date(arg.now_sec, arg.now_nano, zone_offset_sec);
                let diff: bool = match dt.diff {
                    DiffDateType::Sec => d.sec != dt.last.sec,
                    DiffDateType::Hour => d.hour != dt.last.hour,
                    DiffDateType::Minute => d.min != dt.last.min,
                    DiffDateType::Day => d.day != dt.last.day,
                    DiffDateType::Month => d.mon != dt.last.mon,
                    DiffDateType::Year => d.year != dt.last.year,
                };
                if diff {
                    let stamp: String = dt.last.archive_stamp();
                    let log_name: String = str_replace(temp_name, ".log", stamp.as_str());
                    dt.last = d;
                    Some(log_name)
                } else {
                    None
                }
            },
            PackType::BySize(limit) => {
                if temp_size >= limit.len_u128() {
                    let d: LogDate = local_date(arg.now_sec, arg.now_nano, zone_offset_sec);
                    let stamp: String = d.archive_stamp();
                    Some(str_replace(temp_name, ".log", stamp.as_str()))
                } else {
                    None
                }
            },
            PackType::ByDaily(dt) => {
                let d: LogDate = local_date(arg.now_sec, arg.now_nano, zone_offset_sec);
                let day_changed: bool = d.year != dt.last.year || d.mon != dt.last.mon || d.day
                    != dt.last.day;
                let full: bool = temp_size >= dt.size_limit.len_u128();
                if full || day_changed {
                    let log_name: String = daily_name(temp_name, &dt.last, dt.index);
                    if day_changed {
                        dt.last = d;
                        dt.index = 0;
                    } else if dt.index < u64::MAX {
                        dt.index = dt.index + 1;
                    }
                    Some(log_name)
                } else {
                    None
                }
            },
            PackType::ByIndex(ix) => {
                if temp_size >= ix.size_limit.len_u128() {
                    let log_name: String = index_name(temp_name, ix.index);
                    if ix.index < u64::MAX {
                        ix.index = ix.index + 1;
                    }
                    Some(log_name)
                } else {
                    None
                }
            },
            PackType::ByDuration(du) => {
                let d: LogDate = local_date(arg.now_sec, arg.now_nano, zone_offset_sec);
                let a: u128 = (arg.now_sec as u128) * 1000000000 + arg.now_nano as u128;
                let b: u128 = (du.start_sec as u128 + du.dur_sec as u128) * 1000000000
                    + du.start_nano as u128 + du.dur_nano as u128;
                if a >= b {
                    let stamp: String = du.last.archive_stamp();
                    let log_name: String = str_replace(temp_name, ".log", stamp.as_str());
                    du.start_sec = arg.now_sec;
                    du.start_nano = arg.now_nano;
                    du.last = d;
                    Some(log_name)
                } else {
                    du.last = d;
                    None
                }
            },
        }
    }
}

impl CanPack for PackType {
    fn is_pack(
        &mut self,
        temp_name: &str,
        temp_size: usize,
        arg: &FastLogRecord,
        zone_offset_sec: i32,
    ) -> (r: Option<String>)
        ensures
            r is Some <==> old(self).spec_decides(
                temp_size as nat,
                *arg,
                zone_offset_sec as int,
            ),
            r is Some ==> r->0@ == old(self).spec_archive_name(
                temp_name@,
                *arg,
                zone_offset_sec as int,
            ),
            *final(self) == old(self).spec_next(temp_size as nat, *arg, zone_offset_sec as int),
    {
        self.decide(temp_name, temp_size as u128, arg, zone_offset_sec)
    }
}

/// The last index at which `c` occurs in `s`, if any.
pub open spec fn spec_rfind(s: Seq<char>, c: char) -> Option<int>
    decreases s.len(),
{
    if s.len() == 0 {
        None
    } else if s.last() == c {
        Some(s.len() - 1)
    } else {
        spec_rfind(s.drop_last(), c)
    }
}

/// `spec_rfind` finds the last occurrence.
pub proof fn lemma_rfind_last(s: Seq<char>, c: char)
    ensures
        (forall|j: int| 0 <= j < s.len() ==> s[j] != c) ==> spec_rfind(s, c) is None,
        forall|i: int|
            (0 <= i < s.len() && s[i] == c && (forall|j: int| i < j < s.len() ==> s[j] != c))
                ==> spec_rfind(s, c) == Some(i),
    decreases s.len(),
{
    if s.len() > 0 {
        lemma_rfind_last(s.drop_last(), c);
        assert forall|i: int|
            (0 <= i < s.len() && s[i] == c && (forall|j: int|
                i < j < s.len() ==> s[j] != c)) implies spec_rfind(s, c) == Some(i) by {
            if i < s.len() - 1 {
                assert(s.last() != c);
                assert(s.drop_last()[i] == c);
                assert(forall|j: int| i < j < s.drop_last().len() ==> s.drop_last()[j] != c);
            }
        }
    }
}

/// The file-name component of `path`, with its extension (everything from
/// the last dot) removed; the whole file name when it has no dot.
pub open spec fn spec_base_name(path: Seq<char>) -> Seq<char> {
    let f = spec_extract_file_name(path);
    match spec_rfind(f, '.') {
        None => f,
        Some(i) => f.take(i),
    }
}

/// The file-name component of `path` without its extension: the stem that
/// archive siblings of a segment share.
pub fn get_base_name(path: &str) -> (r: String)
    ensures
        r@ == spec_base_name(path@),
{
    let file_name: String = extract_file_name_of(path);
    let n: usize = file_name.as_str().unicode_len();
    proof {
        lemma_rfind_last(file_name@, '.');
    }
    match rfind_char(file_name.as_str(), '.') {
        None => file_name,
        Some(i) => substring(file_name.as_str(), 0, i),
    }
}

/// A directory entry as the retention logic sees it: the file name and
/// its creation time in epoch seconds.
#[derive(Debug)]
pub struct FileInfo {
    pub name: String,
    pub created_sec: u64,
}

impl Clone for FileInfo {
    /// A field-for-field copy.
    fn clone(&self) -> (r: Self)
        ensures
            r == *self,
    {
        FileInfo { name: self.name.clone(), created_sec: self.created_sec }
    }
}

/// Is `a` strictly before `b` in lexicographic order of character values?
pub open spec fn spec_lex_lt(a: Seq<char>, b: Seq<char>) -> bool
    decreases a.len(),
{
    if b.len() == 0 {
        false
    } else if a.len() == 0 {
        true
    } else if (a[0] as u32) < (b[0] as u32) {
        true
    } else if (b[0] as u32) < (a[0] as u32) {
        false
    } else {
        spec_lex_lt(a.drop_first(), b.drop_first())
    }
}

/// Lexicographic order is transitive.
pub proof fn lemma_lex_lt_trans(a: Seq<char>, b: Seq<char>, c: Seq<char>)
    requires
        spec_lex_lt(a, b),
        spec_lex_lt(b, c),
    ensures
        spec_lex_lt(a, c),
    decreases a.len() + b.len() + c.len(),
{
    if a.len() > 0 && b.len() > 0 && c.len() > 0 {
        if (a[0] as u32) == (b[0] as u32) && (b[0] as u32) == (c[0] as u32) {
            lemma_lex_lt_trans(a.drop_first(), b.drop_first(), c.drop_first());
        }
    }
}

/// Nothing is lexicographically before itself.
pub proof fn lemma_lex_lt_irrefl(a: Seq<char>)
    ensures
        !spec_lex_lt(a, a),
    decreases a.len(),
{
    if a.len() > 0 {
        lemma_lex_lt_irrefl(a.drop_first());
    }
}

/// Is `a` strictly before `b` in lexicographic order?
pub fn str_lt(a: &str, b: &str) -> (r: bool)
    ensures
        r == spec_lex_lt(a@, b@),
{
    let na: usize = a.unicode_len();
    let nb: usize = b.unicode_len();
    let mut i: usize = 0;
    proof {
        assert(a@.skip(0) =~= a@);
        assert(b@.skip(0) =~= b@);
    }
    loop
        invariant
            i <= na,
            i <= nb,
            na == a@.len(),
            nb == b@.len(),
            spec_lex_lt(a@, b@) == spec_lex_lt(a@.skip(i as int), b@.skip(i as int)),
        decreases na - i,
    {
        if i >= nb {
            return false;
        }
        if i >= na {
            return true;
        }
        let ca: u32 = a.get_char(i) as u32;
        let cb: u32 = b.get_char(i) as u32;
        if ca < cb {
            return true;
        }
        if cb < ca {
            return false;
        }
        proof {
            assert(a@.skip(i as int).drop_first() =~= a@.skip(i + 1));
            assert(b@.skip(i as int).drop_first() =~= b@.skip(i + 1));
        }
        i = i + 1;
    }
}

/// A common prefix neither makes nor breaks a lexicographic comparison.
proof fn lemma_lex_prefix_cancel(a: Seq<char>, s: Seq<char>, t: Seq<char>)
    ensures
        spec_lex_lt(a + s, a + t) == spec_lex_lt(s, t),
    decreases a.len(),
{
    if a.len() == 0 {
        assert(a + s =~= s);
        assert(a + t =~= t);
    } else {
        assert((a + s)[0] == a[0]);
        assert((a + t)[0] == a[0]);
        assert((a + s).drop_first() =~= a.drop_first() + s);
        assert((a + t).drop_first() =~= a.drop_first() + t);
        lemma_lex_prefix_cancel(a.drop_first(), s, t);
    }
}

/// Two heads of equal width that already compare strictly keep comparing
/// strictly whatever follows them.
proof fn lemma_lex_extend(h1: Seq<char>, h2: Seq<char>, s: Seq<char>, t: Seq<char>)
    requires
        spec_lex_lt(h1, h2),
        h1.len() == h2.len(),
    ensures
        spec_lex_lt(h1 + s, h2 + t),
    decreases h1.len(),
{
    assert(h2.len() > 0);
    assert(h1.len() > 0);
    assert((h1 + s)[0] == h1[0]);
    assert((h2 + t)[0] == h2[0]);
    if (h1[0] as u32) == (h2[0] as u32) {
        assert((h1 + s).drop_first() =~= h1.drop_first() + s);
        assert((h2 + t).drop_first() =~= h2.drop_first() + t);
        lemma_lex_extend(h1.drop_first(), h2.drop_first(), s, t);
    }
}

/// Zero-padded two-digit groups compare like the numbers they render.
proof fn lemma_two_digits_order(x: nat, y: nat)
    requires
        x < y <= 99,
    ensures
        spec_lex_lt(spec_two_digits(x), spec_two_digits(y)),
{
    reveal_with_fuel(spec_lex_lt, 3);
    crate::text::lemma_digit_char_value(x / 10 % 10);
    crate::text::lemma_digit_char_value(x % 10);
    crate::text::lemma_digit_char_value(y / 10 % 10);
    crate::text::lemma_digit_char_value(y % 10);
    vstd::arithmetic::div_mod::lemma_fundamental_div_mod(x as int, 10);
    vstd::arithmetic::div_mod::lemma_fundamental_div_mod(y as int, 10);
    vstd::arithmetic::div_mod::lemma_small_mod(x / 10, 10);
    vstd::arithmetic::div_mod::lemma_small_mod(y / 10, 10);
    vstd::arithmetic::div_mod::lemma_div_is_ordered(x as int, y as int, 10);
    let s1 = spec_two_digits(x);
    let s2 = spec_two_digits(y);
    if x / 10 < y / 10 {
        assert((s1[0] as u32) < (s2[0] as u32));
    } else {
        assert(x / 10 == y / 10);
        assert(x % 10 < y % 10);
        assert((s1[0] as u32) == (s2[0] as u32));
        assert(s1.drop_first() =~= seq![crate::text::spec_digit_char(x % 10)]);
        assert(s2.drop_first() =~= seq![crate::text::spec_digit_char(y % 10)]);
    }
}

/// Zero-padded four-digit groups compare like the numbers they render.
#[verifier::rlimit(100)]
proof fn lemma_four_digits_order(x: nat, y: nat)
    requires
        x < y <= 9999,
    ensures
        spec_lex_lt(spec_four_digits(x), spec_four_digits(y)),
{
    crate::text::lemma_digit_char_value(x / 1000 % 10);
    crate::text::lemma_digit_char_value(x / 100 % 10);
    crate::text::lemma_digit_char_value(y / 1000 % 10);
    crate::text::lemma_digit_char_value(y / 100 % 10);
    vstd::arithmetic::div_mod::lemma_fundamental_div_mod(x as int, 100);
    vstd::arithmetic::div_mod::lemma_fundamental_div_mod(y as int, 100);
    vstd::arithmetic::div_mod::lemma_fundamental_div_mod(x as int / 100, 10);
    vstd::arithmetic::div_mod::lemma_fundamental_div_mod(y as int / 100, 10);
    vstd::arithmetic::div_mod::lemma_small_mod(x / 1000, 10);
    vstd::arithmetic::div_mod::lemma_small_mod(y / 1000, 10);
    vstd::arithmetic::div_mod::lemma_div_is_ordered(x as int, y as int, 100);
    assert((x as int / 100) / 10 == x as int / 1000) by {
        vstd::arithmetic::div_mod::lemma_div_denominator(x as int, 100, 10);
    }
    assert((y as int / 100) / 10 == y as int / 1000) by {
        vstd::arithmetic::div_mod::lemma_div_denominator(y as int, 100, 10);
    }
    let s1 = spec_four_digits(x);
    let s2 = spec_four_digits(y);
    let t1 = spec_two_digits(x % 100);
    let t2 = spec_two_digits(y % 100);
    assert(s1 =~= spec_two_digits(x / 100) + t1) by {
        vstd::arithmetic::div_mod::lemma_mod_mod(x as int, 10, 10);
        assert(x as int % 100 % 10 == x as int % 10);
        assert(x as int % 100 / 10 == x as int / 10 % 10) by {
            vstd::arithmetic::div_mod::lemma_fundamental_div_mod(x as int, 10);
            vstd::arithmetic::div_mod::lemma_fundamental_div_mod(x as int % 100, 10);
            vstd::arithmetic::div_mod::lemma_fundamental_div_mod(x as int / 10, 10);
        }
    }
    assert(s2 =~= spec_two_digits(y / 100) + t2) by {
        vstd::arithmetic::div_mod::lemma_mod_mod(y as int, 10, 10);
        assert(y as int % 100 % 10 == y as int % 10);
        assert(y as int % 100 / 10 == y as int / 10 % 10) by {
            vstd::arithmetic::div_mod::lemma_fundamental_div_mod(y as int, 10);
            vstd::arithmetic::div_mod::lemma_fundamental_div_mod(y as int % 100, 10);
            vstd::arithmetic::div_mod::lemma_fundamental_div_mod(y as int / 10, 10);
        }
    }
    if x / 100 < y / 100 {
        lemma_two_digits_order(x / 100, y / 100);
        lemma_lex_extend(spec_two_digits(x / 100), spec_two_digits(y / 100), t1, t2);
    } else {
        assert(x / 100 == y / 100);
        assert(x % 100 < y % 100);
        lemma_two_digits_order(x % 100, y % 100);
        lemma_lex_prefix_cancel(spec_two_digits(x / 100), t1, t2);
    }
}

/// Zero-padded six-digit groups compare like the numbers they render.
proof fn lemma_six_digits_order(x: nat, y: nat)
    requires
        x < y <= 999999,
    ensures
        spec_lex_lt(crate::date::spec_six_digits(x), crate::date::spec_six_digits(y)),
{
    vstd::arithmetic::div_mod::lemma_fundamental_div_mod(x as int, 100);
    vstd::arithmetic::div_mod::lemma_fundamental_div_mod(y as int, 100);
    vstd::arithmetic::div_mod::lemma_div_is_ordered(x as int, y as int, 100);
    let s1 = crate::date::spec_six_digits(x);
    let s2 = crate::date::spec_six_digits(y);
    let h1 = spec_four_digits(x / 100);
    let h2 = spec_four_digits(y / 100);
    let t1 = spec_two_digits(x % 100);
    let t2 = spec_two_digits(y % 100);
    assert(s1 =~= h1 + t1) by {
        lemma_six_split(x);
    }
    assert(s2 =~= h2 + t2) by {
        lemma_six_split(y);
    }
    if x / 100 < y / 100 {
        assert(x / 100 <= 9999);
        assert(y / 100 <= 9999);
        lemma_four_digits_order(x / 100, y / 100);
        lemma_lex_extend(h1, h2, t1, t2);
    } else {
        assert(x / 100 == y / 100);
        assert(x % 100 < y % 100);
        lemma_two_digits_order(x % 100, y % 100);
        lemma_lex_prefix_cancel(h1, t1, t2);
    }
}

/// A six-digit group is the four-digit group of the number's hundreds
/// followed by the two-digit group of its remainder.
#[verifier::rlimit(100)]
proof fn lemma_six_split(x: nat)
    ensures
        crate::date::spec_six_digits(x) =~= spec_four_digits(x / 100) + spec_two_digits(x % 100),
{
    let xi = x as int;
    assert((xi / 100) / 10 == xi / 1000) by {
        vstd::arithmetic::div_mod::lemma_div_denominator(xi, 100, 10);
    }
    assert((xi / 100) / 100 == xi / 10000) by {
        vstd::arithmetic::div_mod::lemma_div_denominator(xi, 100, 100);
    }
    assert((xi / 100) / 1000 == xi / 100000) by {
        vstd::arithmetic::div_mod::lemma_div_denominator(xi, 100, 1000);
    }
    assert(xi % 100 % 10 == xi % 10 && xi % 100 / 10 == xi / 10 % 10) by {
        vstd::arithmetic::div_mod::lemma_fundamental_div_mod(xi, 100);
        vstd::arithmetic::div_mod::lemma_fundamental_div_mod(xi % 100, 10);
        vstd::arithmetic::div_mod::lemma_fundamental_div_mod_converse(
            xi,
            10,
            10 * (xi / 100) + (xi % 100) / 10,
            (xi % 100) % 10,
        );
        vstd::arithmetic::div_mod::lemma_fundamental_div_mod_converse(
            xi / 10,
            10,
            xi / 100,
            (xi % 100) / 10,
        );
    }
}

/// Is `a` chronologically strictly before `b`, at the precision an
/// archive stamp prints (microseconds)?
pub open spec fn spec_chrono_lt(a: LogDate, b: LogDate) -> bool {
    if a.year != b.year {
        a.year < b.year
    } else if a.mon != b.mon {
        a.mon < b.mon
    } else if a.day != b.day {
        a.day < b.day
    } else if a.hour != b.hour {
        a.hour < b.hour
    } else if a.min != b.min {
        a.min < b.min
    } else if a.sec != b.sec {
        a.sec < b.sec
    } else {
        a.nano / 1000 < b.nano / 1000
    }
}

/// One field case of the archive-stamp order: a common prefix, then two
/// groups of equal width that compare strictly, then arbitrary tails.
proof fn lemma_stamp_case(
    sa: Seq<char>,
    sb: Seq<char>,
    p: Seq<char>,
    g1: Seq<char>,
    g2: Seq<char>,
    t1: Seq<char>,
    t2: Seq<char>,
)
    requires
        sa == p + (g1 + t1),
        sb == p + (g2 + t2),
        spec_lex_lt(g1, g2),
        g1.len() == g2.len(),
    ensures
        spec_lex_lt(sa, sb),
{
    lemma_lex_extend(g1, g2, t1, t2);
    lemma_lex_prefix_cancel(p, g1 + t1, g2 + t2);
}

/// Archive name order when the years differ.
#[verifier::rlimit(100)]
proof fn lemma_stamp_order_year(a: LogDate, b: LogDate)
    requires
        spec_chrono_lt(a, b),
        a.year <= 9999,
        b.year <= 9999,
        a.nano <= 999999999,
        b.nano <= 999999999,
        a.mon <= 99,
        a.day <= 99,
        a.hour <= 99,
        a.min <= 99,
        a.sec <= 99,
        b.mon <= 99,
        b.day <= 99,
        b.hour <= 99,
        b.min <= 99,
        b.sec <= 99,
        a.year != b.year,
    ensures
        spec_lex_lt(spec_archive_stamp(a), spec_archive_stamp(b)),
{
    let sa = spec_archive_stamp(a);
    let sb = spec_archive_stamp(b);
    lemma_four_digits_order(a.year as nat, b.year as nat);
    let t1 = sa.skip(4);
    let t2 = sb.skip(4);
    assert(sa =~= Seq::<char>::empty() + (spec_four_digits(a.year as nat) + t1));
    assert(sb =~= Seq::<char>::empty() + (spec_four_digits(b.year as nat) + t2));
    lemma_stamp_case(
        sa,
        sb,
        Seq::<char>::empty(),
        spec_four_digits(a.year as nat),
        spec_four_digits(b.year as nat),
        t1,
        t2,
    );
}

/// Archive name order when the years agree and the months differ.
#[verifier::rlimit(100)]
proof fn lemma_stamp_order_mon(a: LogDate, b: LogDate)
    requires
        spec_chrono_lt(a, b),
        a.year <= 9999,
        b.year <= 9999,
        a.nano <= 999999999,
        b.nano <= 999999999,
        a.mon <= 99,
        a.day <= 99,
        a.hour <= 99,
        a.min <= 99,
        a.sec <= 99,
        b.mon <= 99,
        b.day <= 99,
        b.hour <= 99,
        b.min <= 99,
        b.sec <= 99,
        a.year == b.year && a.mon != b.mon,
    ensures
        spec_lex_lt(spec_archive_stamp(a), spec_archive_stamp(b)),
{
    let sa = spec_archive_stamp(a);
    let sb = spec_archive_stamp(b);
    lemma_two_digits_order(a.mon as nat, b.mon as nat);
    let p = spec_four_digits(a.year as nat) + seq!['-'];
    let t1 = sa.skip(7);
    let t2 = sb.skip(7);
    assert(sa =~= p + (spec_two_digits(a.mon as nat) + t1));
    assert(sb =~= p + (spec_two_digits(b.mon as nat) + t2));
    lemma_stamp_case(
        sa,
        sb,
        p,
        spec_two_digits(a.mon as nat),
        spec_two_digits(b.mon as nat),
        t1,
        t2,
    );
}

/// Archive name order when year and month agree and the days differ.
#[verifier::rlimit(100)]
proof fn lemma_stamp_order_day(a: LogDate, b: LogDate)
    requires
        spec_chrono_lt(a, b),
        a.year <= 9999,
        b.year <= 9999,
        a.nano <= 999999999,
        b.nano <= 999999999,
        a.mon <= 99,
        a.day <= 99,
        a.hour <= 99,
        a.min <= 99,
        a.sec <= 99,
        b.mon <= 99,
        b.day <= 99,
        b.hour <= 99,
        b.min <= 99,
        b.sec <= 99,
        a.year == b.year && a.mon == b.mon && a.day != b.day,
    ensures
        spec_lex_lt(spec_archive_stamp(a), spec_archive_stamp(b)),
{
    let sa = spec_archive_stamp(a);
    let sb = spec_archive_stamp(b);
    lemma_two_digits_order(a.day as nat, b.day as nat);
    let p = spec_four_digits(a.year as nat) + seq!['-'] + spec_two_digits(a.mon as nat)
        + seq!['-'];
    let t1 = sa.skip(10);
    let t2 = sb.skip(10);
    assert(sa =~= p + (spec_two_digits(a.day as nat) + t1));
    assert(sb =~= p + (spec_two_digits(b.day as nat) + t2));
    lemma_stamp_case(
        sa,
        sb,
        p,
        spec_two_digits(a.day as nat),
        spec_two_digits(b.day as nat),
        t1,
        t2,
    );
}

/// Archive name order on the calendar-date fields.
proof fn lemma_stamp_order_date_part(a: LogDate, b: LogDate)
    requires
        spec_chrono_lt(a, b),
        a.year <= 9999,
        b.year <= 9999,
        a.nano <= 999999999,
        b.nano <= 999999999,
        a.mon <= 99,
        a.day <= 99,
        a.hour <= 99,
        a.min <= 99,
        a.sec <= 99,
        b.mon <= 99,
        b.day <= 99,
        b.hour <= 99,
        b.min <= 99,
        b.sec <= 99,
        a.year != b.year || a.mon != b.mon || a.day != b.day,
    ensures
        spec_lex_lt(spec_archive_stamp(a), spec_archive_stamp(b)),
{
    if a.year != b.year {
        lemma_stamp_order_year(a, b);
    } else if a.mon != b.mon {
        lemma_stamp_order_mon(a, b);
    } else {
        lemma_stamp_order_day(a, b);
    }
}

/// Archive name order on the time-of-day fields.
#[verifier::rlimit(100)]
proof fn lemma_stamp_order_time_part(a: LogDate, b: LogDate)
    requires
        spec_chrono_lt(a, b),
        a.year <= 9999,
        b.year <= 9999,
        a.nano <= 999999999,
        b.nano <= 999999999,
        a.mon <= 99,
        a.day <= 99,
        a.hour <= 99,
        a.min <= 99,
        a.sec <= 99,
        b.mon <= 99,
        b.day <= 99,
        b.hour <= 99,
        b.min <= 99,
        b.sec <= 99,
        a.year == b.year && a.mon == b.mon && a.day == b.day,
        a.hour != b.hour || a.min != b.min || a.sec != b.sec,
    ensures
        spec_lex_lt(spec_archive_stamp(a), spec_archive_stamp(b)),
{
    let sa = spec_archive_stamp(a);
    let sb = spec_archive_stamp(b);
    if a.hour != b.hour {
        lemma_two_digits_order(a.hour as nat, b.hour as nat);
        let p = spec_four_digits(a.year as nat) + seq!['-'] + spec_two_digits(a.mon as nat)
            + seq!['-'] + spec_two_digits(a.day as nat) + seq!['T'];
        let t1 = sa.skip(13);
        let t2 = sb.skip(13);
        assert(sa =~= p + (spec_two_digits(a.hour as nat) + t1));
        assert(sb =~= p + (spec_two_digits(b.hour as nat) + t2));
        lemma_stamp_case(
            sa,
            sb,
            p,
            spec_two_digits(a.hour as nat),
            spec_two_digits(b.hour as nat),
            t1,
            t2,
        );
    } else if a.min != b.min {
        lemma_two_digits_order(a.min as nat, b.min as nat);
        let p = spec_four_digits(a.year as nat) + seq!['-'] + spec_two_digits(a.mon as nat)
            + seq!['-'] + spec_two_digits(a.day as nat) + seq!['T'] + spec_two_digits(
            a.hour as nat,
        ) + seq!['-'];
        let t1 = sa.skip(16);
        let t2 = sb.skip(16);
        assert(sa =~= p + (spec_two_digits(a.min as nat) + t1));
        assert(sb =~= p + (spec_two_digits(b.min as nat) + t2));
        lemma_stamp_case(
            sa,
            sb,
            p,
            spec_two_digits(a.min as nat),
            spec_two_digits(b.min as nat),
            t1,
            t2,
        );
    } else {
        lemma_two_digits_order(a.sec as nat, b.sec as nat);
        let p = spec_four_digits(a.year as nat) + seq!['-'] + spec_two_digits(a.mon as nat)
            + seq!['-'] + spec_two_digits(a.day as nat) + seq!['T'] + spec_two_digits(
            a.hour as nat,
        ) + seq!['-'] + spec_two_digits(a.min as nat) + seq!['-'];
        let t1 = sa.skip(19);
        let t2 = sb.skip(19);
        assert(sa =~= p + (spec_two_digits(a.sec as nat) + t1));
        assert(sb =~= p + (spec_two_digits(b.sec as nat) + t2));
        lemma_stamp_case(
            sa,
            sb,
            p,
            spec_two_digits(a.sec as nat),
            spec_two_digits(b.sec as nat),
            t1,
            t2,
        );
    }
}

/// Archive name order on the subsecond field.
#[verifier::rlimit(100)]
proof fn lemma_stamp_order_micro_part(a: LogDate, b: LogDate)
    requires
        spec_chrono_lt(a, b),
        a.year <= 9999,
        b.year <= 9999,
        a.nano <= 999999999,
        b.nano <= 999999999,
        a.mon <= 99,
        a.day <= 99,
        a.hour <= 99,
        a.min <= 99,
        a.sec <= 99,
        b.mon <= 99,
        b.day <= 99,
        b.hour <= 99,
        b.min <= 99,
        b.sec <= 99,
        a.year == b.year && a.mon == b.mon && a.day == b.day,
        a.hour == b.hour && a.min == b.min && a.sec == b.sec,
    ensures
        spec_lex_lt(spec_archive_stamp(a), spec_archive_stamp(b)),
{
    let sa = spec_archive_stamp(a);
    let sb = spec_archive_stamp(b);
    let micro_a = (a.nano / 1000) as nat;
    let micro_b = (b.nano / 1000) as nat;
    assert(micro_a <= 999999 && micro_b <= 999999) by {
        assert(1000 * (a.nano as int / 1000) <= a.nano as int) by {
            vstd::arithmetic::div_mod::lemma_fundamental_div_mod(a.nano as int, 1000);
        }
        assert(1000 * (b.nano as int / 1000) <= b.nano as int) by {
            vstd::arithmetic::div_mod::lemma_fundamental_div_mod(b.nano as int, 1000);
        }
    }
    lemma_six_digits_order(micro_a, micro_b);
    let p = spec_four_digits(a.year as nat) + seq!['-'] + spec_two_digits(a.mon as nat)
        + seq!['-'] + spec_two_digits(a.day as nat) + seq!['T'] + spec_two_digits(a.hour as nat)
        + seq!['-'] + spec_two_digits(a.min as nat) + seq!['-'] + spec_two_digits(a.sec as nat)
        + seq!['.'];
    let t1 = sa.skip(26);
    let t2 = sb.skip(26);
    assert(sa =~= p + (crate::date::spec_six_digits(micro_a) + t1));
    assert(sb =~= p + (crate::date::spec_six_digits(micro_b) + t2));
    lemma_stamp_case(
        sa,
        sb,
        p,
        crate::date::spec_six_digits(micro_a),
        crate::date::spec_six_digits(micro_b),
        t1,
        t2,
    );
}

/// Archive name order: the lexicographic order of archive stamps is the
/// chronological order of the timestamps they render, so sorting archive
/// names descending puts the newest archive first.
pub proof fn lemma_archive_stamp_order(a: LogDate, b: LogDate)
    requires
        spec_chrono_lt(a, b),
        a.year <= 9999,
        b.year <= 9999,
        a.nano <= 999999999,
        b.nano <= 999999999,
        a.mon <= 99,
        a.day <= 99,
        a.hour <= 99,
        a.min <= 99,
        a.sec <= 99,
        b.mon <= 99,
        b.day <= 99,
        b.hour <= 99,
        b.min <= 99,
        b.sec <= 99,
    ensures
        spec_lex_lt(spec_archive_stamp(a), spec_archive_stamp(b)),
{
    if a.year != b.year || a.mon != b.mon || a.day != b.day {
        lemma_stamp_order_date_part(a, b);
    } else if a.hour != b.hour || a.min != b.min || a.sec != b.sec {
        lemma_stamp_order_time_part(a, b);
    } else {
        lemma_stamp_order_micro_part(a, b);
    }
}

/// Are the names of `s` in descending lexicographic order (newest archive
/// first, for timestamp-named archives)?
pub open spec fn spec_name_sorted_desc(s: Seq<FileInfo>) -> bool {
    forall|i: int, j: int|
        0 <= i < j < s.len() ==> !spec_lex_lt(#[trigger] s[i].name@, #[trigger] s[j].name@)
}

/// Sort directory entries by name, descending, keeping exactly the same
/// entries (as a multiset).  Entries with equal names keep their order.
pub fn sort_files_desc(v: &Vec<FileInfo>) -> (r: Vec<FileInfo>)
    ensures
        spec_name_sorted_desc(r@),
        r@.to_multiset() == v@.to_multiset(),
{
    broadcast use vstd::seq_lib::group_to_multiset_ensures;

    let n: usize = v.len();
    let mut out: Vec<FileInfo> = Vec::new();
    let mut i: usize = 0;
    proof {
        assert(v@.take(0) =~= Seq::<FileInfo>::empty());
        assert(out@.to_multiset() =~= v@.take(0).to_multiset());
    }
    while i < n
        invariant
            i <= n,
            n == v@.len(),
            spec_name_sorted_desc(out@),
            out@.to_multiset() == v@.take(i as int).to_multiset(),
        decreases n - i,
    {
        let f: FileInfo = v[i].clone();
        let m: usize = out.len();
        let mut pos: usize = 0;
        loop
            invariant
                pos <= m,
                m == out@.len(),
                forall|k: int| 0 <= k < pos ==> !spec_lex_lt(#[trigger] out@[k].name@, f.name@),
            ensures
                pos <= m,
                m == out@.len(),
                forall|k: int| 0 <= k < pos ==> !spec_lex_lt(#[trigger] out@[k].name@, f.name@),
                pos < m ==> spec_lex_lt(out@[pos as int].name@, f.name@),
            decreases m - pos,
        {
            if pos >= m {
                break;
            }
            if str_lt(out[pos].name.as_str(), f.name.as_str()) {
                break;
            }
            pos = pos + 1;
        }
        let ghost old_out = out@;
        proof {
            vstd::seq_lib::to_multiset_insert(out@, pos as int, f);
            assert(v@.take(i + 1) =~= v@.take(i as int).push(v@[i as int]));
            vstd::seq_lib::to_multiset_build(v@.take(i as int), v@[i as int]);
        }
        out.insert(pos, f);
        proof {
            let s = out@;
            assert(s =~= old_out.take(pos as int).push(f) + old_out.skip(pos as int));
            assert(forall|x: int| 0 <= x < pos ==> s[x] == old_out[x]);
            assert(s[pos as int] == f);
            assert(forall|y: int| pos < y < s.len() ==> s[y] == old_out[y - 1]);
            assert forall|x: int, y: int|
                0 <= x < y < s.len() implies !spec_lex_lt(s[x].name@, s[y].name@) by {
                if x == pos && y > pos {
                    if spec_lex_lt(s[x].name@, s[y].name@) {
                        assert(spec_lex_lt(old_out[pos as int].name@, f.name@));
                        lemma_lex_lt_trans(old_out[pos as int].name@, f.name@, s[y].name@);
                        if y - 1 == pos {
                            lemma_lex_lt_irrefl(old_out[pos as int].name@);
                        } else {
                            assert(!spec_lex_lt(old_out[pos as int].name@, old_out[y - 1].name@));
                        }
                    }
                }
            }
        }
        i = i + 1;
    }
    proof {
        assert(v@.take(n as int) =~= v@);
    }
    out
}

/// Is `f` an archive sibling of the live segment `temp_name`: another
/// file whose name starts with the segment's stem?
pub open spec fn spec_sibling(f: FileInfo, temp_name: Seq<char>) -> bool {
    f.name@ != temp_name && spec_starts_with(f.name@, spec_base_name(temp_name))
}

/// `spec_sibling` of a fixed segment name, as a value `filter` can take.
pub open spec fn spec_sibling_pred(temp_name: Seq<char>) -> spec_fn(FileInfo) -> bool {
    |f: FileInfo| spec_sibling(f, temp_name)
}

/// The archive siblings of the live segment among a directory's entries,
/// sorted by name descending (newest first).
pub fn read_paths(files: &Vec<FileInfo>, temp_name: &str) -> (r: Vec<FileInfo>)
    ensures
        spec_name_sorted_desc(r@),
        r@.to_multiset() == files@.filter(spec_sibling_pred(temp_name@)).to_multiset(),
{
    let base: String = get_base_name(temp_name);
    let n: usize = files.len();
    let mut picked: Vec<FileInfo> = Vec::new();
    let mut i: usize = 0;
    proof {
        assert(files@.take(0) =~= Seq::<FileInfo>::empty());
        reveal(Seq::filter);
        assert(picked@ =~= files@.take(0).filter(spec_sibling_pred(temp_name@)));
    }
    while i < n
        invariant
            i <= n,
            n == files@.len(),
            base@ == spec_base_name(temp_name@),
            picked@ == files@.take(i as int).filter(spec_sibling_pred(temp_name@)),
        decreases n - i,
    {
        let f: &FileInfo = &files[i];
        let is_temp: bool = str_eq(f.name.as_str(), temp_name);
        let keep: bool = !is_temp && str_starts_with(f.name.as_str(), base.as_str());
        proof {
            reveal(Seq::filter);
            let pred = spec_sibling_pred(temp_name@);
            let pre = files@.take(i + 1);
            assert(pre.drop_last() =~= files@.take(i as int));
            assert(pre.last() == files@[i as int]);
            assert(pre.filter(pred) == if pred(pre.last()) {
                pre.drop_last().filter(pred).push(pre.last())
            } else {
                pre.drop_last().filter(pred)
            });
            assert(keep == pred(files@[i as int]));
        }
        if keep {
            let c: FileInfo = f.clone();
            picked.push(c);
        }
        i = i + 1;
    }
    proof {
        assert(files@.take(n as int) =~= files@);
    }
    sort_files_desc(&picked)
}

/// A retention policy: given the archive siblings of a segment, newest
/// first, it marks which of them must be deleted.
pub trait Keep {
    /// One mark per candidate, in order: `true` means delete.
    fn do_keep(&self, candidates: &Vec<FileInfo>, now_sec: u64) -> (remove: Vec<bool>)
        ensures
            remove@.len() == candidates@.len(),
    ;
}

/// One of the stock retention policies.
#[derive(Copy, Clone, Debug, PartialEq, Eq, Structural)]
pub enum KeepType {
    /// Keep every archive.
    All,
    /// Keep archives younger than this many seconds.
    KeepTime(u64),
    /// Keep at most this many archives, the newest ones.
    KeepNum(i64),
    KeepDate,
}

/// Rolling keep type.
pub type RollingType = KeepType;

impl KeepType {
    /// Does this policy delete the candidate at position `i` (newest
    /// first): beyond the kept count, or older than the kept age?
    pub open spec fn spec_removes(self, files: Seq<FileInfo>, now_sec: nat, i: int) -> bool {
        match self {
            KeepType::KeepNum(n) => i >= n,
            KeepType::KeepTime(d) => files[i].created_sec + d < now_sec,
            KeepType::All => false,
            KeepType::KeepDate => false,
        }
    }

    /// Mark the candidates this policy deletes.  With `KeepNum(n)`, at
    /// most `n` candidates stay unmarked.
    pub fn select_removals(&self, files: &Vec<FileInfo>, now_sec: u64) -> (r: Vec<bool>)
        ensures
            r@.len() == files@.len(),
            forall|i: int|
                0 <= i < files@.len() ==> r@[i] == self.spec_removes(files@, now_sec as nat, i),
    {
        let n: usize = files.len();
        let mut mask: Vec<bool> = Vec::new();
        let mut i: usize = 0;
        while i < n
            invariant
                i <= n,
                n == files@.len(),
                mask@.len() == i,
                forall|k: int|
                    0 <= k < i ==> mask@[k] == self.spec_removes(files@, now_sec as nat, k),
            decreases n - i,
        {
            let rm: bool = match self {
                KeepType::KeepNum(k) => i as i128 >= *k as i128,
                KeepType::KeepTime(d) => (files[i].created_sec as u128) + (*d as u128)
                    < now_sec as u128,
                KeepType::All => false,
                KeepType::KeepDate => false,
            };
            mask.push(rm);
            i = i + 1;
        }
        mask
    }
}

impl Keep for KeepType {
    fn do_keep(&self, candidates: &Vec<FileInfo>, now_sec: u64) -> (remove: Vec<bool>)
        ensures
            forall|i: int|
                0 <= i < candidates@.len() ==> remove@[i] == self.spec_removes(
                    candidates@,
                    now_sec as nat,
                    i,
                ),
    {
        self.select_removals(candidates, now_sec)
    }
}

/// The number of `false` entries of `s`: how many candidates a removal
/// mask keeps.
pub open spec fn spec_count_kept(s: Seq<bool>) -> nat
    decreases s.len(),
{
    if s.len() == 0 {
        0
    } else {
        spec_count_kept(s.drop_last()) + if s.last() {
            0
        } else {
            1nat
        }
    }
}

/// A removal mask keeps at most as many entries as it has.
pub proof fn lemma_count_kept_le_len(s: Seq<bool>)
    ensures
        spec_count_kept(s) <= s.len(),
    decreases s.len(),
{
    if s.len() > 0 {
        lemma_count_kept_le_len(s.drop_last());
    }
}

/// After a `KeepNum(n)` enforcement, at most `n` archives stay: every
/// candidate from position `n` on is marked for deletion, so the unmarked
/// ones number at most `n`.
pub proof fn lemma_keep_num_bound(files: Seq<FileInfo>, mask: Seq<bool>, n: i64, now_sec: nat)
    requires
        n >= 0,
        mask.len() == files.len(),
        forall|i: int|
            0 <= i < files.len() ==> mask[i] == KeepType::KeepNum(n).spec_removes(
                files,
                now_sec,
                i,
            ),
    ensures
        spec_count_kept(mask) <= n,
    decreases mask.len(),
{
    if mask.len() > 0 {
        let m2 = mask.drop_last();
        let f2 = files.drop_last();
        assert forall|i: int|
            0 <= i < f2.len() implies m2[i] == KeepType::KeepNum(n).spec_removes(
            f2,
            now_sec,
            i,
        ) by {
            assert(mask[i] == KeepType::KeepNum(n).spec_removes(files, now_sec, i));
        }
        lemma_keep_num_bound(f2, m2, n, now_sec);
        lemma_count_kept_le_len(mask);
        if mask.len() > n {
            assert(mask[mask.len() - 1] == KeepType::KeepNum(n).spec_removes(
                files,
                now_sec,
                mask.len() - 1,
            ));
        }
    }
}

/// The entries of `files` whose mask entry is unset: what a retention
/// enforcement leaves in place.
pub open spec fn spec_apply_mask(files: Seq<FileInfo>, mask: Seq<bool>) -> Seq<FileInfo>
    decreases files.len(),
{
    if files.len() == 0 || mask.len() < files.len() {
        files
    } else if mask.last() {
        spec_apply_mask(files.drop_last(), mask.drop_last())
    } else {
        spec_apply_mask(files.drop_last(), mask.drop_last()).push(files.last())
    }
}

/// Remove the marked entries from `files`.
pub fn apply_removals(files: &Vec<FileInfo>, mask: &Vec<bool>) -> (r: Vec<FileInfo>)
    requires
        mask@.len() == files@.len(),
    ensures
        r@ == spec_apply_mask(files@, mask@),
        r@.len() == spec_count_kept(mask@),
{
    let n: usize = files.len();
    let mut out: Vec<FileInfo> = Vec::new();
    let mut i: usize = 0;
    proof {
        assert(files@.take(0) =~= Seq::<FileInfo>::empty());
        assert(mask@.take(0) =~= Seq::<bool>::empty());
    }
    while i < n
        invariant
            i <= n,
            n == files@.len(),
            mask@.len() == n,
            out@ == spec_apply_mask(files@.take(i as int), mask@.take(i as int)),
            out@.len() == spec_count_kept(mask@.take(i as int)),
        decreases n - i,
    {
        proof {
            assert(files@.take(i + 1).drop_last() =~= files@.take(i as int));
            assert(mask@.take(i + 1).drop_last() =~= mask@.take(i as int));
        }
        if !mask[i] {
            let c: FileInfo = files[i].clone();
            out.push(c);
        }
        i = i + 1;
    }
    proof {
        assert(files@.take(n as int) =~= files@);
        assert(mask@.take(n as int) =~= mask@);
    }
    out
}

/// The full path of `name` inside `dir`.
pub open spec fn spec_join_path(dir: Seq<char>, name: Seq<char>) -> Seq<char> {
    if dir.len() == 0 {
        name
    } else if dir.last() == '/' {
        dir + name
    } else {
        dir + seq!['/'] + name
    }
}

/// The full path of `name` inside `dir`.
pub fn join_path(dir: &str, name: &str) -> (r: String)
    ensures
        r@ == spec_join_path(dir@, name@),
{
    let nd: usize = dir.unicode_len();
    let mut out: String = String::new();
    out.append(dir);
    if nd > 0 && dir.get_char(nd - 1) != '/' {
        push_char(&mut out, '/');
    }
    out.append(name);
    proof {
        assert(out@ =~= spec_join_path(dir@, name@));
    }
    out
}

/// The UTF-8 bytes of a record's rendered line: what an appender writes
/// for it.
pub open spec fn spec_rec_bytes(rec: FastLogRecord) -> Seq<u8> {
    vstd::utf8::encode_utf8(rec.formated@)
}

/// An archival job handed to the packer worker: the directory, the full
/// path of the rotated copy, its content, and — when a flush rode along —
/// the barrier whose drop acknowledges it.
pub struct LogPack {
    pub dir: String,
    pub new_log_name: String,
    pub wg: Option<crossbeam_utils::sync::WaitGroup>,
    /// The archived segment bytes (the rotated copy travels by value).
    pub data: Vec<u8>,
}

/// What the split appender does with a batch, as one spec-level run over
/// the records: from the segment content, the pending buffer and the
/// rotation predicate's state, it yields the final segment content, the
/// final predicate state, and the archive jobs emitted, each a triple of
/// archive name, archived bytes, and whether a flush barrier rides along.
pub open spec fn spec_split_run(
    seg: Seq<u8>,
    pend: Seq<u8>,
    roll: PackType,
    tn: Seq<char>,
    off: int,
    recs: Seq<FastLogRecord>,
) -> (Seq<u8>, PackType, Seq<(Seq<char>, Seq<u8>, bool)>)
    decreases recs.len(),
{
    if recs.len() == 0 {
        (seg + pend, roll, Seq::empty())
    } else {
        let r = recs[0];
        let rest = recs.drop_first();
        match r.command {
            Command::CommandRecord => {
                let rb = spec_rec_bytes(r);
                let size = seg.len() + pend.len() + rb.len();
                if roll.spec_decides(size, r, off) {
                    let name = roll.spec_archive_name(tn, r, off);
                    let next = spec_split_run(
                        Seq::empty(),
                        rb,
                        roll.spec_next(size, r, off),
                        tn,
                        off,
                        rest,
                    );
                    (next.0, next.1, seq![(name, seg + pend, false)] + next.2)
                } else {
                    spec_split_run(seg, pend + rb, roll.spec_next(size, r, off), tn, off, rest)
                }
            },
            Command::CommandExit => spec_split_run(seg, pend, roll, tn, off, rest),
            Command::CommandFlush(_) => {
                let size = seg.len();
                if roll.spec_decides(size, r, off) {
                    let name = roll.spec_archive_name(tn, r, off);
                    let next = spec_split_run(
                        Seq::empty(),
                        Seq::empty(),
                        roll.spec_next(size, r, off),
                        tn,
                        off,
                        rest,
                    );
                    (next.0, next.1, seq![(name, seg + pend, true)] + next.2)
                } else {
                    spec_split_run(seg, pend, roll.spec_next(size, r, off), tn, off, rest)
                }
            },
        }
    }
}

/// Does the exec-level archive job `p` carry what the spec-level job
/// `(name, data, flush)` says, for a segment living in `dir`?
pub open spec fn spec_pack_matches(
    p: LogPack,
    dir: Seq<char>,
    name: Seq<char>,
    data: Seq<u8>,
    flush: bool,
) -> bool {
    &&& p.dir@ == dir
    &&& p.new_log_name@ == spec_join_path(dir, name)
    &&& p.data@ == data
    &&& (p.wg is Some <==> flush)
}

/// The split appender: owns the live segment, consults its rotation
/// predicate before each record, and on rotation archives the segment's
/// bytes as a job in its outbox, for a packer worker to consume.
pub struct FileSplitAppender<F: SplitFile> {
    file: F,
    dir_path: String,
    temp_bytes: usize,
    temp_name: String,
    is_pack: PackType,
    keep: KeepType,
    packer: crate::plugin::packer::PackerKind,
    zone_offset_sec: i32,
    packs: Vec<LogPack>,
}

impl<F: SplitFile> FileSplitAppender<F> {
    /// The sink's cursor sits at its end, and the byte counter equals the
    /// segment's length.
    pub closed spec fn wf(&self) -> bool {
        &&& self.file.cursor() == self.file.data().len()
        &&& self.temp_bytes == self.file.data().len()
    }

    /// The live segment's bytes.
    pub closed spec fn spec_data(&self) -> Seq<u8> {
        self.file.data()
    }

    /// The segment file's name.
    pub closed spec fn spec_temp_name(&self) -> Seq<char> {
        self.temp_name@
    }

    /// The directory the segment and its archives live in.
    pub closed spec fn spec_dir(&self) -> Seq<char> {
        self.dir_path@
    }

    /// The rotation predicate's current state.
    pub closed spec fn spec_rolling(&self) -> PackType {
        self.is_pack
    }

    /// The jobs waiting in the outbox.
    pub closed spec fn spec_packs(&self) -> Seq<LogPack> {
        self.packs@
    }

    /// The zone offset archive names are stamped with.
    pub closed spec fn spec_zone(&self) -> int {
        self.zone_offset_sec as int
    }

    /// The byte counter for the live segment.
    pub closed spec fn spec_temp_bytes(&self) -> nat {
        self.temp_bytes as nat
    }

    /// The retention policy archives are governed by.
    pub closed spec fn spec_keep(&self) -> KeepType {
        self.keep
    }

    /// The packer rotated copies are handed to.
    pub closed spec fn spec_packer(&self) -> crate::plugin::packer::PackerKind {
        self.packer
    }

    /// The byte counter for the live segment.
    pub fn temp_bytes(&self) -> (r: usize)
        ensures
            r == self.spec_temp_bytes(),
    {
        self.temp_bytes
    }

    /// The retention policy archives are governed by.
    pub fn keep(&self) -> (r: KeepType)
        ensures
            r == self.spec_keep(),
    {
        self.keep
    }

    /// The packer rotated copies are handed to.
    pub fn packer(&self) -> (r: crate::plugin::packer::PackerKind)
        ensures
            r == self.spec_packer(),
    {
        self.packer
    }

    /// Adopt an already-open sink as the live segment.  Whatever the sink
    /// holds is preserved — reopening an existing segment appends to it —
    /// and the byte counter starts at its length.
    pub fn from_file(
        file: F,
        dir_path: String,
        temp_name: String,
        how_to_pack: PackType,
        keep: KeepType,
        packer: crate::plugin::packer::PackerKind,
        zone_offset_sec: i32,
    ) -> (r: FileSplitAppender<F>)
        requires
            0 <= file.cursor() <= file.data().len(),
        ensures
            r.wf(),
            r.spec_data() == file.data(),
            r.spec_temp_bytes() == file.data().len(),
            r.spec_temp_name() == temp_name@,
            r.spec_dir() == dir_path@,
            r.spec_rolling() == how_to_pack,
            r.spec_keep() == keep,
            r.spec_packer() == packer,
            r.spec_zone() == zone_offset_sec as int,
            r.spec_packs() == Seq::<LogPack>::empty(),
    {
        let mut file = file;
        let n: usize = file.len();
        let _ = file.seek(SeekPos::Start(n as u64));
        FileSplitAppender {
            file,
            dir_path,
            temp_bytes: n,
            temp_name,
            is_pack: how_to_pack,
            keep,
            packer,
            zone_offset_sec: zone_offset_sec,
            packs: Vec::new(),
        }
    }

    /// Open (or reopen) the segment under `file_path` and build the
    /// appender around it.  The segment's file name is the path's
    /// file-name component, `temp.log` when the path ends in a separator;
    /// the rest of the path is the directory.
    pub fn new(
        file_path: &str,
        how_to_pack: PackType,
        keep: KeepType,
        packer: crate::plugin::packer::PackerKind,
    ) -> (r: Result<FileSplitAppender<F>, LogError>)
        ensures
            r is Ok ==> ({
                let a = r->Ok_0;
                &&& a.wf()
                &&& a.spec_rolling() == how_to_pack
                &&& a.spec_keep() == keep
                &&& a.spec_packer() == packer
                &&& a.spec_packs() == Seq::<LogPack>::empty()
                &&& a.spec_temp_name() == (if spec_extract_file_name(file_path@).len() > 0 {
                    spec_extract_file_name(file_path@)
                } else {
                    "temp.log"@
                })
                &&& a.spec_dir() == spec_trim_end(file_path@, a.spec_temp_name())
            }),
    {
        proof {
            reveal_strlit("temp.log");
        }
        let mut temp_name: String = extract_file_name_of(file_path);
        if temp_name.as_str().unicode_len() == 0 {
            temp_name = String::from_str("temp.log");
        }
        let dir_path: String = str_trim_end_matches(file_path, temp_name.as_str());
        let temp_file: String = join_path(dir_path.as_str(), temp_name.as_str());
        let file: F = match F::new(temp_file.as_str()) {
            Ok(f) => f,
            Err(e) => {
                return Err(e);
            },
        };
        let off: i32 = offset_sec();
        Ok(
            FileSplitAppender::from_file(
                file,
                dir_path,
                temp_name,
                how_to_pack,
                keep,
                packer,
                off,
            ),
        )
    }

    /// The segment file's name.
    pub fn temp_name(&self) -> (r: &String)
        ensures
            r@ == self.spec_temp_name(),
    {
        &self.temp_name
    }

    /// Archive the live segment's bytes as a job named `new_log_name` in
    /// the outbox (carrying `wg` when a flush rides along), then truncate
    /// the segment.
    pub fn send_pack(&mut self, new_log_name: String, wg: Option<crossbeam_utils::sync::WaitGroup>)
        requires
            old(self).wf(),
        ensures
            final(self).wf(),
            final(self).spec_data() == Seq::<u8>::empty(),
            final(self).spec_temp_bytes() == 0,
            final(self).spec_temp_name() == old(self).spec_temp_name(),
            final(self).spec_dir() == old(self).spec_dir(),
            final(self).spec_rolling() == old(self).spec_rolling(),
            final(self).spec_keep() == old(self).spec_keep(),
            final(self).spec_packer() == old(self).spec_packer(),
            final(self).spec_zone() == old(self).spec_zone(),
            final(self).spec_packs().len() == old(self).spec_packs().len() + 1,
            final(self).spec_packs().take(old(self).spec_packs().len() as int) == old(
                self,
            ).spec_packs(),
            spec_pack_matches(
                final(self).spec_packs().last(),
                old(self).spec_dir(),
                new_log_name@,
                old(self).spec_data(),
                wg is Some,
            ),
    {
        self.file.flush();
        let data: Vec<u8> = self.file.read_all();
        let path: String = join_path(self.dir_path.as_str(), new_log_name.as_str());
        let dir: String = self.dir_path.clone();
        self.packs.push(LogPack { dir, new_log_name: path, wg, data });
        self.truncate();
        proof {
            assert(final(self).spec_packs().take(old(self).spec_packs().len() as int)
                =~= old(self).spec_packs());
        }
    }

    /// Empty the live segment and reset its byte counter.
    pub fn truncate(&mut self)
        ensures
            final(self).wf(),
            final(self).spec_data() == Seq::<u8>::empty(),
            final(self).spec_temp_bytes() == 0,
            final(self).spec_temp_name() == old(self).spec_temp_name(),
            final(self).spec_dir() == old(self).spec_dir(),
            final(self).spec_rolling() == old(self).spec_rolling(),
            final(self).spec_keep() == old(self).spec_keep(),
            final(self).spec_packer() == old(self).spec_packer(),
            final(self).spec_zone() == old(self).spec_zone(),
            final(self).spec_packs() == old(self).spec_packs(),
    {
        let _ = self.file.truncate();
        self.temp_bytes = 0;
    }

    /// Restore the bookkeeping from the sink: move the cursor to the end
    /// and adopt the content length as the byte counter.
    pub fn resync(&mut self)
        ensures
            final(self).wf(),
            final(self).spec_data() == old(self).spec_data(),
            final(self).spec_temp_name() == old(self).spec_temp_name(),
            final(self).spec_dir() == old(self).spec_dir(),
            final(self).spec_rolling() == old(self).spec_rolling(),
            final(self).spec_keep() == old(self).spec_keep(),
            final(self).spec_packer() == old(self).spec_packer(),
            final(self).spec_zone() == old(self).spec_zone(),
            final(self).spec_packs() == old(self).spec_packs(),
    {
        let n: usize = self.file.len();
        let _ = self.file.seek(SeekPos::Start(n as u64));
        self.temp_bytes = n;
    }

    /// Hand out the queued archive jobs, leaving the outbox empty: what a
    /// packer worker drains.
    pub fn take_packs(&mut self) -> (r: Vec<LogPack>)
        ensures
            r@ == old(self).spec_packs(),
            final(self).spec_packs() == Seq::<LogPack>::empty(),
            final(self).wf() == old(self).wf(),
            final(self).spec_data() == old(self).spec_data(),
            final(self).spec_temp_bytes() == old(self).spec_temp_bytes(),
            final(self).spec_temp_name() == old(self).spec_temp_name(),
            final(self).spec_dir() == old(self).spec_dir(),
            final(self).spec_rolling() == old(self).spec_rolling(),
            final(self).spec_keep() == old(self).spec_keep(),
            final(self).spec_packer() == old(self).spec_packer(),
            final(self).spec_zone() == old(self).spec_zone(),
    {
        let mut out: Vec<LogPack> = Vec::new();
        core::mem::swap(&mut out, &mut self.packs);
        out
    }

    /// Write a batch.  Every record's rendered bytes reach the live
    /// segment in order; before each one the rotation predicate is
    /// consulted with the prospective size, and when it fires the bytes
    /// gathered so far are archived as a job in the outbox.  A flush
    /// command consults the predicate too and, when it fires, sends the
    /// barrier along with the job.  The whole effect is pinned by
    /// [`spec_split_run`].
    pub fn write_batch(&mut self, records: &Vec<FastLogRecord>)
        requires
            old(self).wf(),
        ensures
            final(self).wf(),
            final(self).spec_temp_name() == old(self).spec_temp_name(),
            final(self).spec_dir() == old(self).spec_dir(),
            final(self).spec_keep() == old(self).spec_keep(),
            final(self).spec_packer() == old(self).spec_packer(),
            final(self).spec_zone() == old(self).spec_zone(),
            ({
                let run = spec_split_run(
                    old(self).spec_data(),
                    Seq::<u8>::empty(),
                    old(self).spec_rolling(),
                    old(self).spec_temp_name(),
                    old(self).spec_zone(),
                    records@,
                );
                &&& final(self).spec_data() == run.0
                &&& final(self).spec_rolling() == run.1
                &&& final(self).spec_packs().len() == old(self).spec_packs().len() + run.2.len()
                &&& final(self).spec_packs().take(old(self).spec_packs().len() as int) == old(
                    self,
                ).spec_packs()
                &&& forall|k: int|
                    0 <= k < run.2.len() ==> spec_pack_matches(
                        #[trigger] final(self).spec_packs()[old(self).spec_packs().len() + k],
                        old(self).spec_dir(),
                        run.2[k].0,
                        run.2[k].1,
                        run.2[k].2,
                    )
            }),
    {
        let ghost tn = old(self).spec_temp_name();
        let ghost off = old(self).spec_zone();
        let ghost run = spec_split_run(
            old(self).spec_data(),
            Seq::<u8>::empty(),
            old(self).spec_rolling(),
            tn,
            off,
            records@,
        );
        let ghost packs0 = old(self).spec_packs();
        let n: usize = records.len();
        let mut pend: Vec<u8> = Vec::new();
        let mut i: usize = 0;
        proof {
            assert(records@.skip(0) =~= records@);
        }
        while i < n
            invariant
                i <= n,
                n == records@.len(),
                self.wf(),
                tn == old(self).spec_temp_name(),
                off == old(self).spec_zone(),
                run == spec_split_run(
                    old(self).spec_data(),
                    Seq::<u8>::empty(),
                    old(self).spec_rolling(),
                    tn,
                    off,
                    records@,
                ),
                packs0 == old(self).spec_packs(),
                self.spec_temp_name() == tn,
                self.spec_dir() == old(self).spec_dir(),
                self.spec_keep() == old(self).spec_keep(),
                self.spec_packer() == old(self).spec_packer(),
                self.spec_zone() == off,
                ({
                    let cur = spec_split_run(
                        self.spec_data(),
                        pend@,
                        self.spec_rolling(),
                        tn,
                        off,
                        records@.skip(i as int),
                    );
                    let emitted = self.spec_packs().len() - packs0.len();
                    &&& cur.0 == run.0
                    &&& cur.1 == run.1
                    &&& emitted + cur.2.len() == run.2.len()
                    &&& forall|k: int|
                        0 <= k < cur.2.len() ==> cur.2[k] == run.2[emitted + k]
                }),
                self.spec_packs().len() >= packs0.len(),
                self.spec_packs().take(packs0.len() as int) == packs0,
                forall|k: int|
                    0 <= k < self.spec_packs().len() - packs0.len() ==> spec_pack_matches(
                        #[trigger] self.spec_packs()[packs0.len() + k],
                        old(self).spec_dir(),
                        run.2[k].0,
                        run.2[k].1,
                        run.2[k].2,
                    ),
            decreases n - i,
        {
            let ghost seg0 = self.spec_data();
            let ghost pend0 = pend@;
            let ghost roll0 = self.spec_rolling();
            let ghost rem = records@.skip(i as int);
            let ghost cur = spec_split_run(seg0, pend0, roll0, tn, off, rem);
            let ghost emitted = self.spec_packs().len() - packs0.len();
            let ghost pk1 = self.spec_packs();
            proof {
                assert(rem[0] == records@[i as int]);
                assert(rem.drop_first() =~= records@.skip(i + 1));
            }
            let rec: &FastLogRecord = &records[i];
            match &rec.command {
                Command::CommandRecord => {
                    let mut rb: Vec<u8> = rec.formated.as_str().as_bytes_vec();
                    let ghost rbs = spec_rec_bytes(rem[0]);
                    let ghost fired = roll0.spec_decides(
                        seg0.len() + pend0.len() + rbs.len(),
                        rem[0],
                        off,
                    );
                    let ghost roll1 = roll0.spec_next(
                        seg0.len() + pend0.len() + rbs.len(),
                        rem[0],
                        off,
                    );
                    proof {
                        assert(rb@ == rbs);
                    }
                    let size: u128 = self.temp_bytes as u128 + pend.len() as u128
                        + rb.len() as u128;
                    let decision: Option<String> = self.is_pack.decide(
                        self.temp_name.as_str(),
                        size,
                        rec,
                        self.zone_offset_sec,
                    );
                    proof {
                        assert(size as nat == seg0.len() + pend0.len() + rbs.len());
                        assert(decision is Some <==> fired);
                        assert(self.spec_rolling() == roll1);
                    }
                    match decision {
                        Some(new_log_name) => {
                            proof {
                                assert(new_log_name@ == roll0.spec_archive_name(tn, rem[0], off));
                            }
                            let _ = self.file.write(&pend);
                            self.temp_bytes = self.file.len();
                            pend = Vec::new();
                            self.send_pack(new_log_name, None);
                        },
                        None => {
                        },
                    }
                    pend.append(&mut rb);
                    proof {
                        let newrem = records@.skip(i + 1);
                        if fired {
                            let dname = roll0.spec_archive_name(tn, rem[0], off);
                            let next = spec_split_run(
                                Seq::<u8>::empty(),
                                rbs,
                                roll1,
                                tn,
                                off,
                                newrem,
                            );
                            assert(cur == (next.0, next.1, seq![(dname, seg0 + pend0, false)]
                                + next.2));
                            assert(cur.2[0] == (dname, seg0 + pend0, false));
                            assert(forall|k: int|
                                0 <= k < next.2.len() ==> next.2[k] == cur.2[k + 1]);
                            assert(pend@ =~= rbs);
                            assert(self.spec_packs() =~= pk1.push(self.spec_packs().last()));
                            assert(self.spec_packs().take(packs0.len() as int)
                                =~= pk1.take(packs0.len() as int));
                            assert(forall|j: int|
                                0 <= j < pk1.len() ==> self.spec_packs()[j] == pk1[j]);
                            assert(spec_pack_matches(
                                self.spec_packs()[packs0.len() + emitted],
                                old(self).spec_dir(),
                                run.2[emitted].0,
                                run.2[emitted].1,
                                run.2[emitted].2,
                            ));
                        } else {
                            assert(cur == spec_split_run(
                                seg0,
                                pend0 + rbs,
                                roll1,
                                tn,
                                off,
                                newrem,
                            ));
                            assert(pend@ =~= pend0 + rbs);
                        }
                    }
                },
                Command::CommandExit => {
                    proof {
                        assert(cur == spec_split_run(
                            seg0,
                            pend0,
                            roll0,
                            tn,
                            off,
                            records@.skip(i + 1),
                        ));
                    }
                },
                Command::CommandFlush(w) => {
                    let ghost fired = roll0.spec_decides(seg0.len(), rem[0], off);
                    let ghost roll1 = roll0.spec_next(seg0.len(), rem[0], off);
                    let size: u128 = self.temp_bytes as u128;
                    let decision: Option<String> = self.is_pack.decide(
                        self.temp_name.as_str(),
                        size,
                        rec,
                        self.zone_offset_sec,
                    );
                    proof {
                        assert(size as nat == seg0.len());
                        assert(decision is Some <==> fired);
                        assert(self.spec_rolling() == roll1);
                    }
                    match decision {
                        Some(new_log_name) => {
                            proof {
                                assert(new_log_name@ == roll0.spec_archive_name(tn, rem[0], off));
                            }
                            let wc: crossbeam_utils::sync::WaitGroup = wg_clone(w);
                            let _ = self.file.write(&pend);
                            self.temp_bytes = self.file.len();
                            pend = Vec::new();
                            self.send_pack(new_log_name, Some(wc));
                        },
                        None => {
                        },
                    }
                    proof {
                        let newrem = records@.skip(i + 1);
                        if fired {
                            let dname = roll0.spec_archive_name(tn, rem[0], off);
                            let next = spec_split_run(
                                Seq::<u8>::empty(),
                                Seq::<u8>::empty(),
                                roll1,
                                tn,
                                off,
                                newrem,
                            );
                            assert(cur == (next.0, next.1, seq![(dname, seg0 + pend0, true)]
                                + next.2));
                            assert(cur.2[0] == (dname, seg0 + pend0, true));
                            assert(forall|k: int|
                                0 <= k < next.2.len() ==> next.2[k] == cur.2[k + 1]);
                            assert(self.spec_packs() =~= pk1.push(self.spec_packs().last()));
                            assert(self.spec_packs().take(packs0.len() as int)
                                =~= pk1.take(packs0.len() as int));
                            assert(forall|j: int|
                                0 <= j < pk1.len() ==> self.spec_packs()[j] == pk1[j]);
                            assert(spec_pack_matches(
                                self.spec_packs()[packs0.len() + emitted],
                                old(self).spec_dir(),
                                run.2[emitted].0,
                                run.2[emitted].1,
                                run.2[emitted].2,
                            ));
                        } else {
                            assert(cur == spec_split_run(seg0, pend0, roll1, tn, off, newrem));
                        }
                    }
                },
            }
            i = i + 1;
        }
        proof {
            assert(records@.skip(n as int) =~= Seq::<FastLogRecord>::empty());
        }
        if pend.len() > 0 {
            let _ = self.file.write(&pend);
            self.temp_bytes = self.file.len();
        } else {
            proof {
                assert(self.spec_data() + pend@ =~= self.spec_data());
            }
        }
    }
}

impl<F: SplitFile> crate::appender::LogAppender for FileSplitAppender<F> {
    fn do_logs(&mut self, records: &Vec<FastLogRecord>) {
        self.resync();
        self.write_batch(records);
    }
}

impl LogPack {
    /// Pack this job's rotated copy.  A no-op packer leaves the copy as
    /// the archive; the others produce the archive under the copy's path
    /// with `.log` replaced by their extension and ask for the copy's
    /// deletion, and succeed whenever `spec_pack_succeeds` holds of the
    /// job.  Packing here is a pure function of the job's bytes, so a
    /// worker gains nothing by calling it twice; what remains fallible
    /// (the disk writes) is retried by the worker.
    pub fn do_pack(&self, packer: &crate::plugin::packer::PackerKind) -> (r: Result<
        crate::plugin::packer::PackDone,
        LogError,
    >)
        ensures
            packer.spec_pack_succeeds(self.new_log_name@, self.data@) ==> r is Ok,
            packer.spec_is_noop() ==> r == Ok::<
                crate::plugin::packer::PackDone,
                LogError,
            >(crate::plugin::packer::PackDone { archive: None, remove_original: false }),
            !packer.spec_is_noop() && r is Ok ==> ({
                let done = r->Ok_0;
                &&& done.remove_original == true
                &&& done.archive is Some
                &&& (done.archive->0).0@ == crate::plugin::packer::spec_packed_path(
                    self.new_log_name@,
                    packer.spec_ext(),
                )
            }),
    {
        packer.do_pack(&self.data, self.new_log_name.as_str())
    }
}

/// The packer worker's effect on the segment directory for one job,
/// with the directory seen as a list of files: the rotated copy appears;
/// the packer may add its archive and may take the copy away.  The number
/// of files never goes down — in particular, a no-op packer invocation
/// grows the directory by exactly the copy.
pub fn apply_pack(
    dir: &mut Vec<FileInfo>,
    pack: &LogPack,
    packer: &crate::plugin::packer::PackerKind,
    now_sec: u64,
) -> (r: Result<(), LogError>)
    ensures
        final(dir)@.len() >= old(dir)@.len(),
        final(dir)@.take(old(dir)@.len() as int) == old(dir)@,
        packer.spec_pack_succeeds(pack.new_log_name@, pack.data@) ==> r is Ok,
        packer.spec_is_noop() ==> r is Ok && ({
            &&& final(dir)@.len() == old(dir)@.len() + 1
            &&& final(dir)@.last().name@ == spec_extract_file_name(pack.new_log_name@)
            &&& final(dir)@.last().created_sec == now_sec
        }),
        !packer.spec_is_noop() && r is Ok ==> ({
            &&& final(dir)@.len() == old(dir)@.len() + 1
            &&& final(dir)@.last().name@ == spec_extract_file_name(
                crate::plugin::packer::spec_packed_path(pack.new_log_name@, packer.spec_ext()),
            )
            &&& final(dir)@.last().created_sec == now_sec
        }),
        r is Err ==> ({
            &&& final(dir)@.len() == old(dir)@.len() + 1
            &&& final(dir)@.last().name@ == spec_extract_file_name(pack.new_log_name@)
            &&& final(dir)@.last().created_sec == now_sec
        }),
{
    let ghost dir0 = dir@;
    let name: String = extract_file_name_of(pack.new_log_name.as_str());
    let copy_idx: usize = dir.len();
    dir.push(FileInfo { name, created_sec: now_sec });
    proof {
        assert(dir@.take(dir0.len() as int) =~= dir0);
    }
    let done: crate::plugin::packer::PackDone = match pack.do_pack(packer) {
        Ok(d) => d,
        Err(e) => {
            return Err(e);
        },
    };
    match done.archive {
        Some((apath, _abytes)) => {
            let aname: String = extract_file_name_of(apath.as_str());
            dir.push(FileInfo { name: aname, created_sec: now_sec });
        },
        None => {
        },
    }
    if done.remove_original {
        let ghost pre = dir@;
        let _ = dir.remove(copy_idx);
        proof {
            assert(dir@ =~= pre.remove(copy_idx as int));
            assert(dir@ =~= dir0.push(pre.last()));
            assert(dir@.take(dir0.len() as int) =~= dir0);
        }
    }
    Ok(())
}

/// Every entry a removal mask keeps was among the candidates.
proof fn lemma_apply_mask_elements(files: Seq<FileInfo>, mask: Seq<bool>)
    requires
        mask.len() == files.len(),
    ensures
        forall|j: int|
            0 <= j < spec_apply_mask(files, mask).len() ==> files.contains(
                #[trigger] spec_apply_mask(files, mask)[j],
            ),
    decreases files.len(),
{
    if files.len() > 0 {
        lemma_apply_mask_elements(files.drop_last(), mask.drop_last());
        assert forall|j: int|
            0 <= j < spec_apply_mask(files, mask).len() implies files.contains(
            spec_apply_mask(files, mask)[j],
        ) by {
            let kept = spec_apply_mask(files, mask);
            let kept2 = spec_apply_mask(files.drop_last(), mask.drop_last());
            if j < kept2.len() {
                assert(kept[j] == kept2[j]);
                let w = choose|w: int|
                    0 <= w < files.drop_last().len() && files.drop_last()[w] == kept2[j];
                assert(files[w] == kept2[j]);
            } else {
                assert(kept[j] == files.last());
            }
        }
    }
}

/// A sequence none of whose entries satisfies the predicate filters to
/// nothing.
proof fn lemma_filter_none<A>(s: Seq<A>, pred: spec_fn(A) -> bool)
    requires
        forall|i: int| 0 <= i < s.len() ==> !pred(#[trigger] s[i]),
    ensures
        s.filter(pred).len() == 0,
    decreases s.len(),
{
    reveal(Seq::filter);
    if s.len() > 0 {
        lemma_filter_none(s.drop_last(), pred);
    }
}

/// A sequence all of whose entries satisfy the predicate filters to
/// itself.
proof fn lemma_filter_all<A>(s: Seq<A>, pred: spec_fn(A) -> bool)
    requires
        forall|i: int| 0 <= i < s.len() ==> pred(#[trigger] s[i]),
    ensures
        s.filter(pred) == s,
    decreases s.len(),
{
    reveal(Seq::filter);
    if s.len() > 0 {
        lemma_filter_all(s.drop_last(), pred);
        assert(s.drop_last().push(s.last()) =~= s);
    }
}

/// `spec_sibling` negated, as a value `filter` can take: the entries a
/// retention enforcement never touches.
pub open spec fn spec_non_sibling_pred(temp_name: Seq<char>) -> spec_fn(FileInfo) -> bool {
    |f: FileInfo| !spec_sibling(f, temp_name)
}

/// Enforce the retention policy in the directory for the segment
/// `temp_name`: list the archive siblings newest first, mark them with
/// the policy, and drop the marked ones.  Everything that is not a
/// sibling stays exactly as it was; every sibling that stays was a
/// sibling before; and after a `KeepNum(n)` enforcement at most `n`
/// siblings remain.
pub fn enforce_keep(
    dir: &mut Vec<FileInfo>,
    keep: &KeepType,
    temp_name: &str,
    now_sec: u64,
) -> (removed: u64)
    ensures
        final(dir)@.filter(spec_non_sibling_pred(temp_name@)) == old(dir)@.filter(
            spec_non_sibling_pred(temp_name@),
        ),
        forall|x: FileInfo|
            final(dir)@.filter(spec_sibling_pred(temp_name@)).contains(x) ==> old(
                dir,
            )@.filter(spec_sibling_pred(temp_name@)).contains(x),
        (match keep {
            KeepType::KeepNum(n) => *n >= 0 ==> final(dir)@.filter(
                spec_sibling_pred(temp_name@),
            ).len() <= *n,
            _ => true,
        }),
{
    let sibs: Vec<FileInfo> = read_paths(dir, temp_name);
    let mask: Vec<bool> = keep.select_removals(&sibs, now_sec);
    let kept: Vec<FileInfo> = apply_removals(&sibs, &mask);
    let n: usize = dir.len();
    let mut rest: Vec<FileInfo> = Vec::new();
    let base: String = get_base_name(temp_name);
    let mut i: usize = 0;
    proof {
        reveal(Seq::filter);
        assert(dir@.take(0) =~= Seq::<FileInfo>::empty());
        assert(rest@ =~= dir@.take(0).filter(spec_non_sibling_pred(temp_name@)));
    }
    while i < n
        invariant
            i <= n,
            n == dir@.len(),
            base@ == spec_base_name(temp_name@),
            rest@ == dir@.take(i as int).filter(spec_non_sibling_pred(temp_name@)),
        decreases n - i,
    {
        let f: &FileInfo = &dir[i];
        let is_temp: bool = str_eq(f.name.as_str(), temp_name);
        let is_sib: bool = !is_temp && str_starts_with(f.name.as_str(), base.as_str());
        proof {
            reveal(Seq::filter);
            let npred = spec_non_sibling_pred(temp_name@);
            let pre = dir@.take(i + 1);
            assert(pre.drop_last() =~= dir@.take(i as int));
            assert(pre.last() == dir@[i as int]);
            assert(pre.filter(npred) == if npred(pre.last()) {
                pre.drop_last().filter(npred).push(pre.last())
            } else {
                pre.drop_last().filter(npred)
            });
            assert(!is_sib == npred(dir@[i as int]));
        }
        if !is_sib {
            rest.push(FileInfo { name: f.name.clone(), created_sec: f.created_sec });
            proof {
                assert(rest@[rest@.len() - 1] == dir@[i as int]);
                assert(rest@ =~= dir@.take(i + 1).filter(spec_non_sibling_pred(temp_name@)));
            }
        }
        i = i + 1;
    }
    proof {
        lemma_count_kept_le_len(mask@);
        assert(dir@.take(n as int) =~= dir@);
    }
    let removed_count: usize = sibs.len() - kept.len();
    let ghost keptv = kept@;
    let ghost restv = rest@;
    let mut kept_mut: Vec<FileInfo> = kept;
    rest.append(&mut kept_mut);
    proof {
        let pred = spec_sibling_pred(temp_name@);
        let npred = spec_non_sibling_pred(temp_name@);
        broadcast use vstd::seq_lib::group_to_multiset_ensures;
        broadcast use vstd::seq_lib::group_filter_ensures;

        assert(rest@ =~= restv + keptv);
        Seq::<FileInfo>::filter_distributes_over_add(restv, keptv, pred);
        Seq::<FileInfo>::filter_distributes_over_add(restv, keptv, npred);
        lemma_filter_none(restv, pred);
        lemma_apply_mask_elements(sibs@, mask@);
        assert forall|j: int| 0 <= j < keptv.len() implies pred(#[trigger] keptv[j]) by {
            assert(sibs@.contains(keptv[j]));
            assert(sibs@.to_multiset().count(keptv[j]) > 0);
            assert(dir@.filter(pred).to_multiset().count(keptv[j]) > 0);
            assert(dir@.filter(pred).contains(keptv[j]));
            let w = choose|w: int|
                0 <= w < dir@.filter(pred).len() && dir@.filter(pred)[w] == keptv[j];
            assert(pred(dir@.filter(pred)[w]));
        }
        lemma_filter_all(keptv, pred);
        lemma_filter_none(keptv, npred);
        lemma_filter_all(restv, npred);
        assert(rest@.filter(npred) =~= dir@.filter(npred));
        assert(rest@.filter(pred) =~= keptv);
        assert forall|x: FileInfo|
            rest@.filter(pred).contains(x) implies dir@.filter(pred).contains(x) by {
            let w = choose|w: int| 0 <= w < keptv.len() && keptv[w] == x;
            assert(sibs@.contains(x));
            assert(sibs@.to_multiset().count(x) > 0);
            assert(dir@.filter(pred).to_multiset().count(x) > 0);
        }
        match keep {
            KeepType::KeepNum(nn) => {
                if *nn >= 0 {
                    lemma_keep_num_bound(sibs@, mask@, *nn, now_sec as nat);
                }
            },
            _ => {},
        }
    }
    core::mem::swap(dir, &mut rest);
    removed_count as u64
}

/// One round of the packer worker, on the directory model: a job that
/// carries a flush barrier is the worker's shutdown signal (the barrier
/// fires when the job is dropped) and `false` comes back; otherwise the
/// job is packed, the directory updated, retention enforced, and `true`
/// comes back.
pub fn saver_step(
    dir: &mut Vec<FileInfo>,
    pack: LogPack,
    packer: &crate::plugin::packer::PackerKind,
    keep: &KeepType,
    temp_name: &str,
    now_sec: u64,
) -> (cont: bool)
    ensures
        cont == !(pack.wg is Some),
        !cont ==> final(dir)@ == old(dir)@,
        cont ==> (match keep {
            KeepType::KeepNum(n) => *n >= 0 ==> final(dir)@.filter(
                spec_sibling_pred(temp_name@),
            ).len() <= *n,
            _ => true,
        }),
        cont ==> forall|x: FileInfo|
            old(dir)@.filter(spec_non_sibling_pred(temp_name@)).contains(x) ==> final(dir)@.filter(
                spec_non_sibling_pred(temp_name@),
            ).contains(x),
{
    let is_shutdown: bool = match &pack.wg {
        Some(_) => true,
        None => false,
    };
    if is_shutdown {
        return false;
    }
    let ghost dir0 = dir@;
    let _ = apply_pack(dir, &pack, packer, now_sec);
    let ghost mid = dir@;
    let _ = enforce_keep(dir, keep, temp_name, now_sec);
    proof {
        let npred = spec_non_sibling_pred(temp_name@);
        assert(mid =~= dir0 + mid.skip(dir0.len() as int));
        Seq::<FileInfo>::filter_distributes_over_add(dir0, mid.skip(dir0.len() as int), npred);
        assert forall|x: FileInfo|
            dir0.filter(npred).contains(x) implies dir@.filter(npred).contains(x) by {
            let w = choose|w: int|
                0 <= w < dir0.filter(npred).len() && dir0.filter(npred)[w] == x;
            assert(mid.filter(npred)[w] == x);
        }
    }
    true
}

/// The index of the last non-zero byte of `v`, if any: where a
/// memory-mapped sink's logical content ends, trailing zeros counting as
/// free space.
pub fn find_last_nonzero(v: &Vec<u8>) -> (r: Option<usize>)
    ensures
        match r {
            Some(i) => i < v@.len() && v@[i as int] != 0 && forall|j: int|
                i < j < v@.len() ==> v@[j] == 0,
            None => forall|j: int| 0 <= j < v@.len() ==> v@[j] == 0,
        },
{
    let n: usize = v.len();
    let mut i: usize = n;
    while i > 0
        invariant
            i <= n,
            n == v@.len(),
            forall|j: int| i <= j < v@.len() ==> v@[j] == 0,
        decreases i,
    {
        i = i - 1;
        if v[i] != 0 {
            return Some(i);
        }
    }
    None
}

/// Truncate, then write: the sink holds exactly the written bytes, and
/// the cursor sits right after them.
pub fn truncate_then_write<F: SplitFile>(f: &mut F, buf: &Vec<u8>) -> (n: usize)
    ensures
        n == buf@.len(),
        final(f).data() == buf@,
        final(f).cursor() == buf@.len(),
{
    let _ = f.truncate();
    let n: usize = f.write(buf);
    proof {
        assert(Seq::<u8>::empty() + buf@ =~= buf@);
    }
    n
}

/// Size rotation bounds: under a `BySize(limit)` predicate, when every
/// record in the batch renders to at most `m` bytes and the segment plus
/// pending bytes start inside a rotation period (below the limit, or no
/// more than one record's worth), every archive the run emits holds at
/// least `limit - m` and at most `limit + m` bytes.
pub proof fn lemma_by_size_rotation_bounds(
    seg: Seq<u8>,
    pend: Seq<u8>,
    limit: LogSize,
    tn: Seq<char>,
    off: int,
    recs: Seq<FastLogRecord>,
    m: nat,
)
    requires
        forall|k: int| 0 <= k < recs.len() ==> spec_rec_bytes(#[trigger] recs[k]).len() <= m,
        seg.len() + pend.len() < limit.spec_len() || seg.len() + pend.len() <= m,
    ensures
        forall|k: int|
            0 <= k < spec_split_run(seg, pend, PackType::BySize(limit), tn, off, recs).2.len()
                ==> ({
                let sz = (#[trigger] spec_split_run(
                    seg,
                    pend,
                    PackType::BySize(limit),
                    tn,
                    off,
                    recs,
                ).2[k]).1.len();
                &&& limit.spec_len() - m <= sz
                &&& sz <= limit.spec_len() + m
            }),
    decreases recs.len(),
{
    let roll = PackType::BySize(limit);
    let l = limit.spec_len();
    if recs.len() > 0 {
        let r = recs[0];
        let rest = recs.drop_first();
        assert(forall|k: int|
            0 <= k < rest.len() ==> spec_rec_bytes(#[trigger] rest[k]).len() <= m);
        let run = spec_split_run(seg, pend, roll, tn, off, recs);
        match r.command {
            Command::CommandRecord => {
                let rb = spec_rec_bytes(r);
                assert(rb.len() <= m);
                let size = seg.len() + pend.len() + rb.len();
                if roll.spec_decides(size, r, off) {
                    assert(size >= l);
                    assert(roll.spec_next(size, r, off) == roll);
                    lemma_by_size_rotation_bounds(
                        Seq::<u8>::empty(),
                        rb,
                        limit,
                        tn,
                        off,
                        rest,
                        m,
                    );
                    let next = spec_split_run(Seq::<u8>::empty(), rb, roll, tn, off, rest);
                    assert(run.2 == seq![
                        (roll.spec_archive_name(tn, r, off), seg + pend, false),
                    ] + next.2);
                    assert((seg + pend).len() == seg.len() + pend.len());
                    assert(l - m <= (seg + pend).len() <= l + m);
                    assert forall|k: int| 0 <= k < run.2.len() implies ({
                        let sz = (#[trigger] run.2[k]).1.len();
                        &&& l - m <= sz
                        &&& sz <= l + m
                    }) by {
                        if k > 0 {
                            assert(run.2[k] == next.2[k - 1]);
                        }
                    }
                } else {
                    assert(roll.spec_next(size, r, off) == roll);
                    lemma_by_size_rotation_bounds(seg, pend + rb, limit, tn, off, rest, m);
                    assert((pend + rb).len() == pend.len() + rb.len());
                    let ih = spec_split_run(seg, pend + rb, roll, tn, off, rest);
                    assert forall|k: int| 0 <= k < run.2.len() implies ({
                        let sz = (#[trigger] run.2[k]).1.len();
                        &&& l - m <= sz
                        &&& sz <= l + m
                    }) by {
                        assert(run.2[k] == ih.2[k]);
                    }
                }
            },
            Command::CommandExit => {
                lemma_by_size_rotation_bounds(seg, pend, limit, tn, off, rest, m);
                let ih = spec_split_run(seg, pend, roll, tn, off, rest);
                assert forall|k: int| 0 <= k < run.2.len() implies ({
                    let sz = (#[trigger] run.2[k]).1.len();
                    &&& l - m <= sz
                    &&& sz <= l + m
                }) by {
                    assert(run.2[k] == ih.2[k]);
                }
            },
            Command::CommandFlush(_) => {
                let size = seg.len();
                if roll.spec_decides(size, r, off) {
                    assert(seg.len() >= l);
                    assert(roll.spec_next(size, r, off) == roll);
                    lemma_by_size_rotation_bounds(
                        Seq::<u8>::empty(),
                        Seq::<u8>::empty(),
                        limit,
                        tn,
                        off,
                        rest,
                        m,
                    );
                    let next = spec_split_run(
                        Seq::<u8>::empty(),
                        Seq::<u8>::empty(),
                        roll,
                        tn,
                        off,
                        rest,
                    );
                    assert(run.2 == seq![
                        (roll.spec_archive_name(tn, r, off), seg + pend, true),
                    ] + next.2);
                    assert((seg + pend).len() == seg.len() + pend.len());
                    assert(l - m <= (seg + pend).len() <= l + m);
                    assert forall|k: int| 0 <= k < run.2.len() implies ({
                        let sz = (#[trigger] run.2[k]).1.len();
                        &&& l - m <= sz
                        &&& sz <= l + m
                    }) by {
                        if k > 0 {
                            assert(run.2[k] == next.2[k - 1]);
                        }
                    }
                } else {
                    assert(roll.spec_next(size, r, off) == roll);
                    lemma_by_size_rotation_bounds(seg, pend, limit, tn, off, rest, m);
                    let ih = spec_split_run(seg, pend, roll, tn, off, rest);
                    assert forall|k: int| 0 <= k < run.2.len() implies ({
                        let sz = (#[trigger] run.2[k]).1.len();
                        &&& l - m <= sz
                        &&& sz <= l + m
                    }) by {
                        assert(run.2[k] == ih.2[k]);
                    }
                }
            },
        }
    }
}

} // verus!

//! Packers: transformers turning a rotated segment's bytes into a
//! (possibly compressed) archive.  The codecs themselves are outside
//! crates, reached through trusted wrappers over plain byte vectors.

use vstd::prelude::*;

use crate::date::{local_date, LogDate};
use crate::error::LogError;
use crate::plugin::file_split::get_base_name;
use crate::runtime::{now_epoch, offset_sec};
use crate::text::{push_char, spec_ends_with, spec_replace, str_replace, str_trim_end_matches};
use std::io::Write;

verus! {

/// What the gzip encoding of a byte string is.  flate2 writes a fixed
/// header (zero timestamp, unknown-OS marker), so the result depends on
/// the input bytes alone.
pub uninterp spec fn gzip_of(data: Seq<u8>) -> Seq<u8>;

/// What the lz4 frame encoding of a byte string is.
pub uninterp spec fn lz4_of(data: Seq<u8>) -> Seq<u8>;

/// Relies on flate2's GzEncoder over a byte vector: the gzip encoding of
/// the input, a pure function of it.  Encoding into memory cannot fail
/// (the `Vec` sink is infallible and the encoder has no error path of its
/// own), so success is promised.
#[verifier::external_body]
fn gzip_bytes(data: &Vec<u8>) -> (r: Result<Vec<u8>, LogError>)
    ensures
        r is Ok,
        r is Ok ==> r->Ok_0@ == gzip_of(data@),
{
    let mut enc = flate2::write::GzEncoder::new(Vec::new(), flate2::Compression::default());
    if let Err(e) = enc.write_all(data.as_slice()) {
        return Err(LogError::E(format!("{}", e)));
    }
    match enc.finish() {
        Ok(v) => Ok(v),
        Err(e) => Err(LogError::E(format!("{}", e))),
    }
}

/// Relies on lz4_flex's FrameEncoder over a byte vector: the lz4 frame
/// encoding of the input, a pure function of it.  Encoding into memory
/// cannot fail (the `Vec` sink is infallible and frame compression has no
/// error path of its own), so success is promised.
#[verifier::external_body]
fn lz4_bytes(data: &Vec<u8>) -> (r: Result<Vec<u8>, LogError>)
    ensures
        r is Ok,
        r is Ok ==> r->Ok_0@ == lz4_of(data@),
{
    let mut enc = lz4_flex::frame::FrameEncoder::new(Vec::new());
    if let Err(e) = enc.write_all(data.as_slice()) {
        return Err(LogError::E(format!("{}", e)));
    }
    match enc.finish() {
        Ok(v) => Ok(v),
        Err(e) => Err(LogError::E(format!("{}", e))),
    }
}

/// Relies on zip's ZipWriter over an in-memory cursor: an archive holding
/// one entry named `entry_name` with content `data`.  The cursor is
/// infallible and the options carry no extra fields, so the write fails
/// only where the format itself refuses: an entry name whose UTF-8 byte
/// length does not fit the format's 16-bit field, or content at the
/// 4 GiB threshold that would need the large-file option.
#[verifier::external_body]
fn zip_bytes(entry_name: &str, data: &Vec<u8>) -> (r: Result<Vec<u8>, LogError>)
    ensures
        vstd::utf8::encode_utf8(entry_name@).len() <= 65535 && data@.len() < 0xFFFF0000
            ==> r is Ok,
{
    let cursor = std::io::Cursor::new(Vec::new());
    let mut zip = zip::ZipWriter::new(cursor);
    let options = zip::write::SimpleFileOptions::default();
    if let Err(e) = zip.start_file(entry_name, options) {
        return Err(LogError::E(format!("{}", e)));
    }
    if let Err(e) = zip.write_all(data.as_slice()) {
        return Err(LogError::E(format!("{}", e)));
    }
    match zip.finish() {
        Ok(c) => Ok(c.into_inner()),
        Err(e) => Err(LogError::E(format!("{}", e))),
    }
}

/// What packing produced: the archive file to write in place of the
/// segment copy, or nothing when the copy stays as it is.
pub struct PackDone {
    /// The archive's file name and content, when one is to be written.
    pub archive: Option<(String, Vec<u8>)>,
    /// Whether the original segment copy is to be deleted afterwards.
    pub remove_original: bool,
}

/// A packer: turns one rotated segment copy into its archived form.
pub trait Packer {
    /// The archive extension this packer writes (without the dot).
    spec fn spec_pack_name(&self) -> Seq<char>;

    /// The archive extension this packer writes (without the dot).
    fn pack_name(&self) -> (r: &'static str)
        ensures
            r@ == self.spec_pack_name(),
    ;

    /// Pack the segment copy named `log_file_path` holding `data`.
    fn do_pack(&self, data: &Vec<u8>, log_file_path: &str) -> (r: Result<PackDone, LogError>);

    /// The archive file name for a rotated copy of `first_file_path`:
    /// the copy's stem, the present moment's stamp, and this packer's
    /// extension.
    fn log_name_create(&self, first_file_path: &str) -> (r: String)
        ensures
            spec_ends_with(r@, seq!['.'] + self.spec_pack_name()),
    {
        proof {
            reveal_strlit(".log");
        }
        let (sec, nano) = now_epoch();
        let off: i32 = offset_sec();
        let d: LogDate = local_date(sec, nano, off);
        let stamp: String = d.archive_stamp();
        let trimmed: String = str_trim_end_matches(stamp.as_str(), ".log");
        let mut out: String = get_base_name(first_file_path);
        out.append(trimmed.as_str());
        push_char(&mut out, '.');
        out.append(self.pack_name());
        proof {
            assert(out@.subrange(
                out@.len() - (1 + self.spec_pack_name().len()),
                out@.len() as int,
            ) =~= seq!['.'] + self.spec_pack_name());
        }
        out
    }

    /// How many more times to try when packing fails.
    fn retry(&self) -> i32 {
        0
    }
}

/// The no-op packer: keeps the rotated copy as a plain `.log` file.
#[derive(Clone, Copy, Debug)]
pub struct LogPacker {

}

/// The zip packer: one `.zip` archive per rotated segment.
#[derive(Clone, Copy, Debug)]
pub struct ZipPacker {

}

/// The lz4 packer: one `.lz4` frame per rotated segment.
#[derive(Clone, Copy, Debug)]
pub struct LZ4Packer {

}

/// The gzip packer: one `.gz` stream per rotated segment.
#[derive(Clone, Copy, Debug)]
pub struct GZipPacker {

}

impl Packer for LogPacker {
    open spec fn spec_pack_name(&self) -> Seq<char> {
        "log"@
    }

    fn pack_name(&self) -> (r: &'static str) {
        "log"
    }

    /// Writes nothing and keeps the original: the copy is the archive.
    fn do_pack(&self, data: &Vec<u8>, log_file_path: &str) -> (r: Result<PackDone, LogError>)
        ensures
            r == Ok::<PackDone, LogError>(PackDone { archive: None, remove_original: false }),
    {
        Ok(PackDone { archive: None, remove_original: false })
    }
}

/// The path with its `.log` occurrences replaced by the packer's own
/// extension.
pub open spec fn spec_packed_path(path: Seq<char>, ext: Seq<char>) -> Seq<char> {
    spec_replace(path, ".log"@, ext)
}

impl Packer for ZipPacker {
    open spec fn spec_pack_name(&self) -> Seq<char> {
        "zip"@
    }

    fn pack_name(&self) -> (r: &'static str) {
        "zip"
    }

    /// A `.zip` archive holding the segment copy as its one entry; the
    /// original is deleted.  Success is owed whenever the entry name (the
    /// path's file-name component) fits the format's 16-bit length field
    /// and the content stays clear of the 4 GiB large-file threshold.
    fn do_pack(&self, data: &Vec<u8>, log_file_path: &str) -> (r: Result<PackDone, LogError>)
        ensures
            vstd::utf8::encode_utf8(
                crate::plugin::file_name::spec_extract_file_name(log_file_path@),
            ).len() <= 65535 && data@.len() < 0xFFFF0000 ==> r is Ok,
            r is Ok ==> ({
                let done = r->Ok_0;
                &&& done.remove_original == true
                &&& done.archive is Some
                &&& (done.archive->0).0@ == spec_packed_path(log_file_path@, ".zip"@)
            }),
    {
        proof {
            reveal_strlit(".log");
        }
        let name: String = extract_entry_name(log_file_path);
        let zipped: Vec<u8> = match zip_bytes(name.as_str(), data) {
            Ok(v) => v,
            Err(e) => {
                return Err(e);
            },
        };
        let path: String = str_replace(log_file_path, ".log", ".zip");
        Ok(PackDone { archive: Some((path, zipped)), remove_original: true })
    }
}

impl Packer for LZ4Packer {
    open spec fn spec_pack_name(&self) -> Seq<char> {
        "lz4"@
    }

    fn pack_name(&self) -> (r: &'static str) {
        "lz4"
    }

    /// The lz4 frame encoding of the segment copy; the original is
    /// deleted.  Packing into memory always succeeds.
    fn do_pack(&self, data: &Vec<u8>, log_file_path: &str) -> (r: Result<PackDone, LogError>)
        ensures
            r is Ok,
            r is Ok ==> ({
                let done = r->Ok_0;
                &&& done.remove_original == true
                &&& done.archive is Some
                &&& (done.archive->0).0@ == spec_packed_path(log_file_path@, ".lz4"@)
                &&& (done.archive->0).1@ == lz4_of(data@)
            }),
    {
        proof {
            reveal_strlit(".log");
        }
        let packed: Vec<u8> = match lz4_bytes(data) {
            Ok(v) => v,
            Err(e) => {
                return Err(e);
            },
        };
        let path: String = str_replace(log_file_path, ".log", ".lz4");
        Ok(PackDone { archive: Some((path, packed)), remove_original: true })
    }
}

impl Packer for GZipPacker {
    open spec fn spec_pack_name(&self) -> Seq<char> {
        "gz"@
    }

    fn pack_name(&self) -> (r: &'static str) {
        "gz"
    }

    /// The gzip encoding of the segment copy; the original is deleted.
    /// Packing into memory always succeeds.
    fn do_pack(&self, data: &Vec<u8>, log_file_path: &str) -> (r: Result<PackDone, LogError>)
        ensures
            r is Ok,
            r is Ok ==> ({
                let done = r->Ok_0;
                &&& done.remove_original == true
                &&& done.archive is Some
                &&& (done.archive->0).0@ == spec_packed_path(log_file_path@, ".gz"@)
                &&& (done.archive->0).1@ == gzip_of(data@)
            }),
    {
        proof {
            reveal_strlit(".log");
        }
        let packed: Vec<u8> = match gzip_bytes(data) {
            Ok(v) => v,
            Err(e) => {
                return Err(e);
            },
        };
        let path: String = str_replace(log_file_path, ".log", ".gz");
        Ok(PackDone { archive: Some((path, packed)), remove_original: true })
    }
}

/// The file-name component of the path, for use as a zip entry name.
fn extract_entry_name(path: &str) -> (r: String)
    ensures
        r@ == crate::plugin::file_name::spec_extract_file_name(path@),
{
    crate::plugin::file_name::extract_file_name_of(path)
}

/// One of the stock packers, as a value a configuration or worker can
/// carry.
#[derive(Clone, Copy, Debug)]
pub enum PackerKind {
    Log(LogPacker),
    Zip(ZipPacker),
    Lz4(LZ4Packer),
    Gzip(GZipPacker),
}

impl PackerKind {
    /// The archive extension the packer writes, dot included.
    pub open spec fn spec_ext(self) -> Seq<char> {
        match self {
            PackerKind::Log(_) => ".log"@,
            PackerKind::Zip(_) => ".zip"@,
            PackerKind::Lz4(_) => ".lz4"@,
            PackerKind::Gzip(_) => ".gz"@,
        }
    }

    /// Is this the packer that leaves the copy as it is?
    pub open spec fn spec_is_noop(self) -> bool {
        self is Log
    }

    /// Is success owed for packing the copy at `path` holding `data`?
    /// Packing into memory fails only where the zip format refuses: an
    /// entry name too long for its 16-bit length field, or content at
    /// the 4 GiB large-file threshold.  Every other packer always
    /// succeeds.
    pub open spec fn spec_pack_succeeds(self, path: Seq<char>, data: Seq<u8>) -> bool {
        match self {
            PackerKind::Zip(_) => vstd::utf8::encode_utf8(
                crate::plugin::file_name::spec_extract_file_name(path),
            ).len() <= 65535 && data.len() < 0xFFFF0000,
            PackerKind::Log(_) => true,
            PackerKind::Lz4(_) => true,
            PackerKind::Gzip(_) => true,
        }
    }

    /// How many more times a worker should try when packing fails; none
    /// of the stock packers asks for retries.
    pub fn retry(&self) -> (r: i32)
        ensures
            r == 0,
    {
        0
    }

    /// Pack the segment copy named `log_file_path` holding `data`.  A
    /// no-op packer returns no archive and keeps the original; the others,
    /// when they succeed, produce an archive at the path with `.log`
    /// replaced by their extension, and ask for the original's deletion.
    pub fn do_pack(&self, data: &Vec<u8>, log_file_path: &str) -> (r: Result<PackDone, LogError>)
        ensures
            self.spec_pack_succeeds(log_file_path@, data@) ==> r is Ok,
            self.spec_is_noop() ==> r == Ok::<PackDone, LogError>(
                PackDone { archive: None, remove_original: false },
            ),
            !self.spec_is_noop() && r is Ok ==> ({
                let done = r->Ok_0;
                &&& done.remove_original == true
                &&& done.archive is Some
                &&& (done.archive->0).0@ == spec_packed_path(log_file_path@, self.spec_ext())
            }),
    {
        match self {
            PackerKind::Log(p) => p.do_pack(data, log_file_path),
            PackerKind::Zip(p) => p.do_pack(data, log_file_path),
            PackerKind::Lz4(p) => p.do_pack(data, log_file_path),
            PackerKind::Gzip(p) => p.do_pack(data, log_file_path),
        }
    }
}

} // verus!

//! Sizes of log segments, with their unit suffixes.

use vstd::prelude::*;

use crate::error::LogError;
use crate::text::{spec_ends_with, spec_parse_usize, spec_trim_end, str_ends_with,
    str_trim_end_matches, parse_usize};

verus! {

/// A byte count given in one of the usual binary units.
#[derive(Clone, Copy, Debug, PartialEq, Eq, Structural)]
pub enum LogSize {
    B(usize),
    KB(usize),
    MB(usize),
    GB(usize),
    TB(usize),
    EB(usize),
}

/// The number that `unit_count` digits parse to, or zero when they do not
/// parse (absent, overlong, or not all digits).
pub open spec fn spec_size_count(s: Seq<char>, unit: Seq<char>) -> usize {
    match spec_parse_usize(spec_trim_end(s, unit)) {
        Some(v) => v,
        None => 0,
    }
}

/// What parsing a size string yields: the count before the longest matching
/// unit suffix, or nothing when no unit suffix is present.
pub open spec fn spec_parse_size(s: Seq<char>) -> Option<LogSize> {
    if spec_ends_with(s, "EB"@) {
        Some(LogSize::EB(spec_size_count(s, "EB"@)))
    } else if spec_ends_with(s, "TB"@) {
        Some(LogSize::TB(spec_size_count(s, "TB"@)))
    } else if spec_ends_with(s, "GB"@) {
        Some(LogSize::GB(spec_size_count(s, "GB"@)))
    } else if spec_ends_with(s, "MB"@) {
        Some(LogSize::MB(spec_size_count(s, "MB"@)))
    } else if spec_ends_with(s, "KB"@) {
        Some(LogSize::KB(spec_size_count(s, "KB"@)))
    } else if spec_ends_with(s, "B"@) {
        Some(LogSize::B(spec_size_count(s, "B"@)))
    } else {
        None
    }
}

impl LogSize {
    /// The size in bytes.
    pub open spec fn spec_len(&self) -> nat {
        match self {
            LogSize::B(b) => (*b * 1) as nat,
            LogSize::KB(kb) => (*kb * 1024) as nat,
            LogSize::MB(mb) => (*mb * 1024 * 1024) as nat,
            LogSize::GB(gb) => (*gb * 1024 * 1024 * 1024) as nat,
            LogSize::TB(tb) => (*tb * 1024 * 1024 * 1024 * 1024) as nat,
            LogSize::EB(eb) => (*eb * 1024 * 1024 * 1024 * 1024 * 1024) as nat,
        }
    }

    /// The size in bytes.
    pub fn len(&self) -> (r: usize)
        requires
            self.spec_len() <= usize::MAX,
        ensures
            r == self.spec_len(),
    {
        match self {
            LogSize::B(b) => *b,
            LogSize::KB(kb) => *kb * 1024,
            LogSize::MB(mb) => *mb * 1024 * 1024,
            LogSize::GB(gb) => *gb * 1024 * 1024 * 1024,
            LogSize::TB(tb) => *tb * 1024 * 1024 * 1024 * 1024,
            LogSize::EB(eb) => *eb * 1024 * 1024 * 1024 * 1024 * 1024,
        }
    }

    /// The size in bytes, in a width no unit can overflow.
    pub fn len_u128(&self) -> (r: u128)
        ensures
            r == self.spec_len(),
    {
        match self {
            LogSize::B(b) => *b as u128,
            LogSize::KB(kb) => *kb as u128 * 1024,
            LogSize::MB(mb) => *mb as u128 * 1024 * 1024,
            LogSize::GB(gb) => *gb as u128 * 1024 * 1024 * 1024,
            LogSize::TB(tb) => *tb as u128 * 1024 * 1024 * 1024 * 1024,
            LogSize::EB(eb) => *eb as u128 * 1024 * 1024 * 1024 * 1024 * 1024,
        }
    }

    /// The size in bytes.
    pub fn get_len(&self) -> (r: usize)
        requires
            self.spec_len() <= usize::MAX,
        ensures
            r == self.spec_len(),
    {
        self.len()
    }

    /// Parse a size such as `"4MB"`: digits followed by a unit suffix.
    /// Digits that do not parse count as zero; a string without a unit
    /// suffix is an error.
    pub fn parse(value: &str) -> (r: Result<LogSize, LogError>)
        ensures
            match spec_parse_size(value@) {
                Some(sz) => r == Ok::<LogSize, LogError>(sz),
                None => r is Err && r->Err_0.spec_message() == "unknow LogSize"@,
            },
    {
        proof {
            reveal_strlit("EB");
            reveal_strlit("TB");
            reveal_strlit("GB");
            reveal_strlit("MB");
            reveal_strlit("KB");
            reveal_strlit("B");
        }
        if str_ends_with(value, "EB") {
            Ok(LogSize::EB(size_count(value, "EB")))
        } else if str_ends_with(value, "TB") {
            Ok(LogSize::TB(size_count(value, "TB")))
        } else if str_ends_with(value, "GB") {
            Ok(LogSize::GB(size_count(value, "GB")))
        } else if str_ends_with(value, "MB") {
            Ok(LogSize::MB(size_count(value, "MB")))
        } else if str_ends_with(value, "KB") {
            Ok(LogSize::KB(size_count(value, "KB")))
        } else if str_ends_with(value, "B") {
            Ok(LogSize::B(size_count(value, "B")))
        } else {
            Err(LogError::of("unknow LogSize"))
        }
    }
}

/// The digits of `s` before its `unit` suffix, parsed; zero when they do
/// not parse.
fn size_count(s: &str, unit: &str) -> (r: usize)
    requires
        unit@.len() > 0,
    ensures
        r == spec_size_count(s@, unit@),
{
    let trimmed: String = str_trim_end_matches(s, unit);
    match parse_usize(trimmed.as_str()) {
        Some(v) => v,
        None => 0,
    }
}

} // verus!

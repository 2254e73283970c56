//! Stand-alone retention policies, mirroring the variants of
//! [`KeepType`](crate::plugin::file_split::KeepType).

use vstd::prelude::*;

use crate::plugin::file_split::{FileInfo, Keep, KeepType};

verus! {

/// Keeps every archive.
pub struct KeepAll {

}

/// Keeps at most this many archives, the newest ones.
pub struct KeepNum(pub i64);

/// Keeps archives younger than this many seconds.
pub struct KeepDuration(pub u64);

impl Keep for KeepAll {
    /// Marks nothing.
    fn do_keep(&self, candidates: &Vec<FileInfo>, now_sec: u64) -> (remove: Vec<bool>)
        ensures
            forall|i: int| 0 <= i < remove@.len() ==> remove@[i] == false,
    {
        KeepType::All.select_removals(candidates, now_sec)
    }
}

impl Keep for KeepNum {
    /// Marks every candidate from position `self.0` on.
    fn do_keep(&self, candidates: &Vec<FileInfo>, now_sec: u64) -> (remove: Vec<bool>)
        ensures
            forall|i: int|
                0 <= i < remove@.len() ==> remove@[i] == KeepType::KeepNum(self.0).spec_removes(
                    candidates@,
                    now_sec as nat,
                    i,
                ),
    {
        KeepType::KeepNum(self.0).select_removals(candidates, now_sec)
    }
}

impl Keep for KeepDuration {
    /// Marks every candidate older than `self.0` seconds.
    fn do_keep(&self, candidates: &Vec<FileInfo>, now_sec: u64) -> (remove: Vec<bool>)
        ensures
            forall|i: int|
                0 <= i < remove@.len() ==> remove@[i] == KeepType::KeepTime(self.0).spec_removes(
                    candidates@,
                    now_sec as nat,
                    i,
                ),
    {
        KeepType::KeepTime(self.0).select_removals(candidates, now_sec)
    }
}

} // verus!

//! Extracting the file-name component of a path string.

use vstd::prelude::*;

use crate::text::{rfind_char, spec_replace, str_replace, substring};

verus! {

/// The suffix of `s` after the last occurrence of `c`; all of `s` when `c`
/// does not occur.
pub open spec fn spec_after_last(s: Seq<char>, c: char) -> Seq<char>
    decreases s.len(),
{
    if s.len() == 0 {
        s
    } else if s.last() == c {
        Seq::empty()
    } else {
        spec_after_last(s.drop_last(), c).push(s.last())
    }
}

/// The file-name component of the path `s`: what follows the last path
/// separator, after backslashes are normalised to slashes.
pub open spec fn spec_extract_file_name(s: Seq<char>) -> Seq<char> {
    spec_after_last(spec_replace(s, seq!['\\'], seq!['/']), '/')
}

proof fn lemma_after_last_at(s: Seq<char>, c: char, i: int)
    requires
        0 <= i < s.len(),
        s[i] == c,
        forall|j: int| i < j < s.len() ==> s[j] != c,
    ensures
        spec_after_last(s, c) == s.skip(i + 1),
    decreases s.len(),
{
    if i == s.len() - 1 {
        assert(s.skip(i + 1) =~= Seq::empty());
    } else {
        lemma_after_last_at(s.drop_last(), c, i);
        assert(s.drop_last().skip(i + 1).push(s.last()) =~= s.skip(i + 1));
    }
}

proof fn lemma_after_last_none(s: Seq<char>, c: char)
    requires
        forall|j: int| 0 <= j < s.len() ==> s[j] != c,
    ensures
        spec_after_last(s, c) == s,
    decreases s.len(),
{
    if s.len() > 0 {
        lemma_after_last_none(s.drop_last(), c);
        assert(s.drop_last().push(s.last()) =~= s);
    }
}

/// The file-name component of the path `path`.
pub fn extract_file_name_of(path: &str) -> (r: String)
    ensures
        r@ == spec_extract_file_name(path@),
{
    proof {
        reveal_strlit("\\");
        reveal_strlit("/");
        assert("\\"@ =~= seq!['\\']);
        assert("/"@ =~= seq!['/']);
    }
    let p: String = str_replace(path, "\\", "/");
    let n: usize = p.as_str().unicode_len();
    match rfind_char(p.as_str(), '/') {
        Some(i) => {
            proof {
                lemma_after_last_at(p@, '/', i as int);
            }
            substring(p.as_str(), i + 1, n)
        },
        None => {
            proof {
                lemma_after_last_none(p@, '/');
            }
            p
        },
    }
}

/// Path-like strings from which a file name can be read off.
pub trait FileName: View<V = Seq<char>> {
    /// The file-name component of this path.
    fn extract_file_name(&self) -> (r: String)
        ensures
            r@ == spec_extract_file_name(self@),
    ;
}

impl FileName for String {
    fn extract_file_name(&self) -> (r: String) {
        extract_file_name_of(self.as_str())
    }
}

impl FileName for &str {
    fn extract_file_name(&self) -> (r: String) {
        extract_file_name_of(*self)
    }
}

} // verus!

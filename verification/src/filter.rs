//! Record filters: predicates that drop records before they enter the
//! pipeline.

use vstd::prelude::*;

use crate::text::str_eq;

verus! {

/// A predicate run over each record before it is enqueued: `true` keeps
/// the record, `false` drops it.
pub trait Filter {
    /// Keep a record coming from `module`?
    fn do_log(&self, module: &str) -> bool;
}

/// Does the list hold an entry spelling exactly `module`?
pub open spec fn spec_blocks(mods: Seq<String>, module: Seq<char>) -> bool {
    exists|i: int| 0 <= i < mods.len() && mods[i]@ == module
}

/// A filter dropping records whose module path is on its list.
pub struct ModuleFilter {
    pub modules: Vec<String>,
}

impl ModuleFilter {
    /// A filter with an empty list, which drops nothing.
    pub fn new() -> (r: Self)
        ensures
            r.modules@ == Seq::<String>::empty(),
    {
        ModuleFilter { modules: Vec::new() }
    }

    /// Add a module path to drop.
    pub fn add(&mut self, module: &str)
        ensures
            final(self).modules@.len() == old(self).modules@.len() + 1,
            final(self).modules@.take(old(self).modules@.len() as int) == old(self).modules@,
            final(self).modules@.last()@ == module@,
    {
        self.modules.push(module.to_owned());
        proof {
            assert(self.modules@.take(old(self).modules@.len() as int) =~= old(self).modules@);
        }
    }

    /// Keep the record exactly when its module is not on the list.
    pub fn check(&self, module: &str) -> (r: bool)
        ensures
            r == !spec_blocks(self.modules@, module@),
    {
        let n: usize = self.modules.len();
        let mut i: usize = 0;
        while i < n
            invariant
                i <= n,
                n == self.modules@.len(),
                forall|j: int| 0 <= j < i ==> #[trigger] self.modules@[j]@ != module@,
            decreases n - i,
        {
            if str_eq(self.modules[i].as_str(), module) {
                return false;
            }
            i = i + 1;
        }
        true
    }
}

/// Does the whole filter chain admit a record from `module`?  Exactly
/// when no filter's list carries the module: the decision behind the
/// facade's silent drop.
pub fn chain_admits(filters: &Vec<ModuleFilter>, module: &str) -> (r: bool)
    ensures
        r == !(exists|i: int|
            0 <= i < filters@.len() && spec_blocks((#[trigger] filters@[i]).modules@, module@)),
{
    let n: usize = filters.len();
    let mut i: usize = 0;
    while i < n
        invariant
            i <= n,
            n == filters@.len(),
            forall|j: int|
                0 <= j < i ==> !spec_blocks((#[trigger] filters@[j]).modules@, module@),
        decreases n - i,
    {
        if !filters[i].check(module) {
            return false;
        }
        i = i + 1;
    }
    true
}

impl Filter for ModuleFilter {
    fn do_log(&self, module: &str) -> bool {
        self.check(module)
    }
}

} // verus!

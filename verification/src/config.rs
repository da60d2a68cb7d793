//! The configuration the tracking loop consults: where to store data,
//! which tag names are blacklisted, and the ordered tag rules.

use vstd::prelude::*;

use crate::tagger::{tagger_wf, Tagger};
use crate::text::{chars_eq, chars_vec};

verus! {

/// Where the persisted data lives; `None` selects the default location.
pub struct StorageDescription {
    pub location: Option<String>,
}

/// Whether `name` is one of the names in `bl`.
pub open spec fn spec_blacklisted(bl: Seq<String>, name: Seq<char>) -> bool {
    exists|i: int| 0 <= i < bl.len() && (#[trigger] bl[i])@ == name
}

/// The whole configuration: storage selection, blacklisted tag names, and
/// the tagger's ordered rules.
pub struct Config {
    pub storage: StorageDescription,
    pub blacklist: Vec<String>,
    pub tagger: Tagger,
}

impl Config {
    /// Every rule of the configuration holds only patterns that compile.
    pub open spec fn wf(&self) -> bool {
        tagger_wf(self.tagger@)
    }

    /// Whether `name` is a blacklisted tag name.
    pub fn blacklisted(&self, name: &str) -> (r: bool)
        ensures
            r == spec_blacklisted(self.blacklist@, name@),
    {
        let nv = chars_vec(name);
        let mut i: usize = 0;
        while i < self.blacklist.len()
            invariant
                nv@ == name@,
                i <= self.blacklist@.len(),
                forall|k: int| 0 <= k < i ==> (#[trigger] self.blacklist@[k])@ != name@,
            decreases self.blacklist@.len() - i,
        {
            let bv = chars_vec(self.blacklist[i].as_str());
            if chars_eq(&bv, &nv) {
                return true;
            }
            i = i + 1;
        }
        false
    }
}

} // verus!

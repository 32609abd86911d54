//! The variables of rc.conf as read by the service: an ordered list of
//! `(name, value)` pairs, looked up by name.
use vstd::prelude::*;
use crate::text::string_eq;

verus! {

/// rc.conf variables, each name at most once.
pub struct RcVars {
    pub entries: Vec<(String, String)>,
}

/// The value of the first entry named `key`.
pub open spec fn rc_lookup(entries: Seq<(String, String)>, key: Seq<char>) -> Option<Seq<char>>
    decreases entries.len(),
{
    if entries.len() == 0 {
        None
    } else if entries[0].0@ == key {
        Some(entries[0].1@)
    } else {
        rc_lookup(entries.drop_first(), key)
    }
}

impl RcVars {
    pub open spec fn lookup(&self, key: Seq<char>) -> Option<Seq<char>> {
        rc_lookup(self.entries@, key)
    }

    /// The value of variable `key`, if set.
    pub fn get(&self, key: &String) -> (r: Option<String>)
        ensures
            r.deep_view() == self.lookup(key@),
    {
        let n = self.entries.len();
        let mut i: usize = 0;
        assert(self.entries@.skip(0) =~= self.entries@);
        while i < n
            invariant
                i <= n == self.entries@.len(),
                rc_lookup(self.entries@.skip(i as int), key@) == rc_lookup(self.entries@, key@),
            decreases n - i,
        {
            let ghost rest = self.entries@.skip(i as int);
            assert(rest[0] == self.entries@[i as int]);
            if string_eq(&self.entries[i].0, key) {
                return Some(self.entries[i].1.clone());
            }
            assert(rest.drop_first() =~= self.entries@.skip(i + 1));
            i += 1;
        }
        None
    }
}

} // verus!

//! The finds registered so far, so that bytes read twice are not reported twice.

use std::collections::HashMap;

use vstd::prelude::*;

use crate::text;

verus! {

broadcast use {vstd::std_specs::hash::group_hash_axioms, vstd::hash_map::group_hash_map_axioms};

/// Pairs of an absolute offset and the extension found there.
pub struct SeenKeys {
    by_offset: HashMap<u64, Vec<&'static str>>,
}

/// One of the texts is `wanted`.
spec fn holds_text(list: Seq<&'static str>, wanted: Seq<char>) -> bool {
    exists|i: int| 0 <= i < list.len() && (#[trigger] list[i])@ == wanted
}

impl View for SeenKeys {
    type V = Set<(u64, Seq<char>)>;

    closed spec fn view(&self) -> Set<(u64, Seq<char>)> {
        Set::new(
            |key: (u64, Seq<char>)|
                self.by_offset@.contains_key(key.0) && holds_text(
                    self.by_offset@[key.0]@,
                    key.1,
                ),
        )
    }
}

fn list_holds(list: &Vec<&'static str>, wanted: &str) -> (yes: bool)
    ensures
        yes == holds_text(list@, wanted@),
{
    let mut i: usize = 0;
    while i < list.len()
        invariant
            i <= list@.len(),
            forall|k: int| 0 <= k < i ==> (#[trigger] list@[k])@ != wanted@,
        decreases list@.len() - i,
    {
        if text::same_text(list[i], wanted) {
            return true;
        }
        i = i + 1;
    }
    false
}

impl SeenKeys {
    /// No finds yet.
    pub fn new() -> (seen: Self)
        ensures
            seen@ == Set::<(u64, Seq<char>)>::empty(),
    {
        let seen = SeenKeys { by_offset: HashMap::new() };
        assert(seen@ =~= Set::<(u64, Seq<char>)>::empty());
        seen
    }

    /// Registers a find. Returns whether it is a new one.
    pub fn insert(&mut self, offset: u64, extension: &'static str) -> (is_new: bool)
        ensures
            is_new == !old(self)@.contains((offset, extension@)),
            final(self)@ == old(self)@.insert((offset, extension@)),
    {
        let ghost before = self.by_offset@;
        let list: Vec<&'static str> = match self.by_offset.remove(&offset) {
            Some(list) => list,
            None => Vec::new(),
        };
        let mut list = list;
        let ghost listed = list@;
        let known = list_holds(&list, extension);
        if !known {
            list.push(extension);
        }
        proof {
            assert(holds_text(list@, extension@)) by {
                if !known {
                    assert(list@[listed.len() as int]@ == extension@);
                }
            }
            assert forall|other: Seq<char>| other != extension@ implies holds_text(list@, other)
                == holds_text(listed, other) by {
                if holds_text(listed, other) {
                    let k = choose|k: int| 0 <= k < listed.len() && (#[trigger] listed[k])@ == other;
                    assert(list@[k]@ == other);
                }
                if holds_text(list@, other) {
                    let k = choose|k: int| 0 <= k < list@.len() && (#[trigger] list@[k])@ == other;
                    assert(listed[k]@ == other);
                }
            }
        }
        let ghost kept = list@;
        self.by_offset.insert(offset, list);
        assert(self@ =~= old(self)@.insert((offset, extension@))) by {
            assert forall|key: (u64, Seq<char>)| self@.contains(key) == old(self)@.insert(
                (offset, extension@),
            ).contains(key) by {
                if key.0 != offset {
                    assert(self.by_offset@.contains_key(key.0) == before.contains_key(key.0));
                }
            }
        }
        !known
    }
}

} // verus!

//! Vocabulary entries: a pair of terms, one per language slot, and the
//! grammatical class that drives class-specific grading tolerance.

use vstd::prelude::*;
use crate::text::normalize;

verus! {

/// The closed set of linguistic categories an entry can carry.
#[derive(Clone, Copy, PartialEq, Eq, Structural, Debug)]
pub enum GramClass {
    Adverb,
    Noun,
    Verb,
}

/// One vocabulary item: the term in language slot 0, the term in language
/// slot 1, and its grammatical class.
pub struct Entry {
    pub term0: String,
    pub term1: String,
    pub class: GramClass,
}

/// The mathematical value of an [`Entry`]: both terms as character
/// sequences, plus the class.
pub struct EntryV {
    pub term0: Seq<char>,
    pub term1: Seq<char>,
    pub class: GramClass,
}

impl View for Entry {
    type V = EntryV;

    open spec fn view(&self) -> EntryV {
        EntryV { term0: self.term0@, term1: self.term1@, class: self.class }
    }
}

/// The expected term of an entry in the given language slot.
pub open spec fn spec_term(e: EntryV, slot: int) -> Seq<char> {
    if slot == 0 {
        e.term0
    } else {
        e.term1
    }
}

impl EntryV {
    /// A well-formed entry has something other than whitespace in both
    /// term slots.
    pub open spec fn wf(self) -> bool {
        normalize(self.term0).len() > 0 && normalize(self.term1).len() > 0
    }
}

impl Entry {
    pub fn new(term0: String, term1: String, class: GramClass) -> (e: Entry)
        ensures
            e@ == (EntryV { term0: term0@, term1: term1@, class }),
    {
        Entry { term0, term1, class }
    }

    /// The term stored in the given language slot.
    pub fn get(&self, slot: usize) -> (r: &String)
        requires
            slot < 2,
        ensures
            r@ == spec_term(self@, slot as int),
    {
        if slot == 0 {
            &self.term0
        } else {
            &self.term1
        }
    }
}

} // verus!

//! The record this service persists: a title and an icon.

use vstd::prelude::*;

verus! {

/// Mathematical view of a record: the two field texts as character
/// sequences.
pub ghost struct RecordView {
    pub title: Seq<char>,
    pub icon: Seq<char>,
}

/// The payload persisted in the store's `introductions` collection.
///
/// No identifier lives at this layer: the store assigns one on insert. Any
/// pair of strings is a valid record; the layer enforces no uniqueness or
/// ordering invariant.
#[derive(Clone, Debug)]
pub struct Record {
    pub title: String,
    pub icon: String,
}

impl View for Record {
    type V = RecordView;

    open spec fn view(&self) -> RecordView {
        RecordView { title: self.title@, icon: self.icon@ }
    }
}

impl Record {
    pub fn new(title: String, icon: String) -> (r: Record)
        ensures
            r@ == (RecordView { title: title@, icon: icon@ }),
    {
        Record { title, icon }
    }
}

} // verus!

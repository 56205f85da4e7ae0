//! The data model of Discogs labels.
//!
//! The struct mirrors the `<label>` element of the labels dump.

use vstd::prelude::*;

verus! {

/// A label: one `<label>` element of the labels dump.
#[derive(Debug, Clone)]
pub struct Label {
    pub id: u64,
    pub name: String,
    pub parent_id: Option<u64>,
    pub parent_name: String,
}

/// The model of a [`Label`].
pub struct LabelView {
    pub id: u64,
    pub name: Seq<char>,
    pub parent_id: Option<u64>,
    pub parent_name: Seq<char>,
}

impl LabelView {
    /// The model of a default [`Label`]: nothing is set.
    pub open spec fn blank() -> LabelView {
        LabelView {
            id: 0,
            name: Seq::empty(),
            parent_id: None,
            parent_name: Seq::empty(),
        }
    }
}

impl DeepView for Label {
    type V = LabelView;

    open spec fn deep_view(&self) -> LabelView {
        LabelView {
            id: self.id,
            name: self.name@,
            parent_id: self.parent_id,
            parent_name: self.parent_name@,
        }
    }
}

impl Default for Label {
    fn default() -> (r: Label)
        ensures
            r.deep_view() == LabelView::blank(),
    {
        Label {
            id: 0,
            name: String::new(),
            parent_id: None,
            parent_name: String::new(),
        }
    }
}

} // verus!

//! The abstract tree the search walks, and the paths that address its nodes.
//!
//! A [`TreeValue`] is either a `Base` leaf carrying the string under which it
//! is displayed, or an `Expandable` container holding an ordered list of
//! (segment, child) entries together with a tag telling objects from arrays.
//! A path is a sequence of [`JsonPointerSegment`]s leading from the root to a
//! node; [`SegView`] is its mathematical image, over which all contracts are
//! stated.

use vstd::prelude::*;

use crate::text::{contains_seq, lower_seq};

verus! {

/// One step from a node to a child: an object key or an array index.
#[derive(Debug)]
pub enum JsonPointerSegment {
    Key(String),
    Index(usize),
}

/// The mathematical image of a [`JsonPointerSegment`].
pub enum SegView {
    Key(Seq<char>),
    Index(int),
}

impl View for JsonPointerSegment {
    type V = SegView;

    open spec fn view(&self) -> SegView {
        match self {
            JsonPointerSegment::Key(k) => SegView::Key(k@),
            JsonPointerSegment::Index(i) => SegView::Index(*i as int),
        }
    }
}

impl JsonPointerSegment {
    /// An equal copy of the segment.
    pub fn duplicate(&self) -> (r: Self)
        ensures
            r@ == self@,
    {
        match self {
            JsonPointerSegment::Key(k) => JsonPointerSegment::Key(k.clone()),
            JsonPointerSegment::Index(i) => JsonPointerSegment::Index(*i),
        }
    }
}

/// The view of a whole path.
pub open spec fn path_view(p: Seq<JsonPointerSegment>) -> Seq<SegView> {
    p.map_values(|s: JsonPointerSegment| s@)
}

/// Whether an expandable node carries object or array semantics; only object
/// keys take part in matching.
#[derive(Clone, Copy, Debug, PartialEq, Eq, Structural)]
pub enum ExpandableType {
    Object,
    Array,
}

/// A tree-shaped, JSON-like value: a displayable leaf, or an ordered
/// container of (segment, child) entries.
#[derive(Debug)]
pub enum TreeValue {
    Base(String),
    Expandable(Vec<(JsonPointerSegment, TreeValue)>, ExpandableType),
}

impl TreeValue {
    /// Whether the node is a container rather than a leaf.
    pub fn is_expandable(&self) -> (r: bool)
        ensures
            r == (self is Expandable),
    {
        match self {
            TreeValue::Base(_) => false,
            TreeValue::Expandable(_, _) => true,
        }
    }
}

/// The relative path `p` leads from `value` to a match for the (lowercased)
/// term: either a leaf whose display text contains the term, or an entry of
/// an object whose key contains the term. Array indices never match.
pub open spec fn is_match_path(value: TreeValue, term: Seq<char>, p: Seq<SegView>) -> bool
    decreases value,
{
    match value {
        TreeValue::Base(display) => p.len() == 0 && contains_seq(lower_seq(display@), term),
        TreeValue::Expandable(entries, ty) => exists|j: int|
            {
                &&& 0 <= j < entries@.len()
                &&& p.len() >= 1
                &&& p[0] == (#[trigger] entries@[j]).0@
                &&& {
                    ||| is_match_path(entries@[j].1, term, p.drop_first())
                    ||| {
                        &&& p.len() == 1
                        &&& ty == ExpandableType::Object
                        &&& seg_key_matches(entries@[j].0, term)
                    }
                }
            },
    }
}

/// The segment is an object key whose text contains the (lowercased) term.
pub open spec fn seg_key_matches(seg: JsonPointerSegment, term: Seq<char>) -> bool {
    match seg {
        JsonPointerSegment::Key(k) => contains_seq(lower_seq(k@), term),
        JsonPointerSegment::Index(_) => false,
    }
}

/// The relative path `p` leads from `value` to an expandable node; the empty
/// path says that `value` itself is expandable.
pub open spec fn is_expandable_path(value: TreeValue, p: Seq<SegView>) -> bool
    decreases value,
{
    match value {
        TreeValue::Base(_) => false,
        TreeValue::Expandable(entries, ty) => p.len() == 0 || exists|j: int|
            {
                &&& 0 <= j < entries@.len()
                &&& p[0] == (#[trigger] entries@[j]).0@
                &&& is_expandable_path(entries@[j].1, p.drop_first())
            },
    }
}

} // verus!

//! The items that a region is filled with.
use vstd::prelude::*;

use crate::child::{PlacedChild, SingleChild};
use crate::frame::{Content, Frame, Tag};
use crate::geom::{Abs, Axes, FixedAlignment, Fr};

verus! {

/// A laid out item in a distribution.
#[derive(Clone, Copy, Debug, PartialEq, Eq)]
pub enum Item {
    /// An introspection tag.
    Tag(Tag),
    /// Absolute spacing and its weakness level.
    Abs(Abs, u8),
    /// Fractional spacing or a fractional block.
    Fr(Fr, u8, Option<SingleChild>),
    /// A frame for a laid out line or block.
    Frame(Frame, Axes<FixedAlignment>),
    /// A frame for an absolutely (not floatingly) placed child.
    Placed(Frame, PlacedChild),
    /// A side-wrap float: drawn at the current offset without advancing it, so the following
    /// deferred paragraph's lines overlap its top band, unless their vertical alignment moves them
    /// on. The length is a vertical anchor delta added to the paint offset: zero for an ordinary
    /// wrap float, and for a drop cap the distance that registers the top of the scaled cap on the
    /// first line's cap-top.
    WrapFloat(Frame, FixedAlignment, Abs),
}

impl Item {
    pub open spec fn spec_migratable(&self) -> bool {
        match *self {
            Item::Tag(_) => true,
            Item::Frame(frame, _) => frame.size.is_zero() && !(frame.content is Visible),
            Item::Placed(_, placed) => !placed.float,
            _ => false,
        }
    }

    /// Whether this item should be migrated to the next region if the region consists solely of
    /// such items.
    #[verifier::when_used_as_spec(spec_migratable)]
    pub fn migratable(&self) -> (result: bool)
        ensures
            result == self.spec_migratable(),
    {
        match self {
            Item::Tag(_) => true,
            Item::Frame(frame, _) => {
                frame.size.is_zero() && !matches!(frame.content, Content::Visible)
            },
            Item::Placed(_, placed) => !placed.float,
            _ => false,
        }
    }

    /// Whether relative spacing is collapsed across this item.
    pub open spec fn see_through(self) -> bool {
        match self {
            Item::Tag(_) | Item::Placed(..) | Item::WrapFloat(..) => true,
            Item::Abs(_, weakness) => weakness == 0,
            _ => false,
        }
    }

    /// Whether fractional spacing is collapsed across this item.
    pub open spec fn fr_see_through(self) -> bool {
        self.see_through() || self is Abs
    }

    /// Whether this item supports weak spacing after it.
    pub open spec fn supports(self) -> bool {
        match self {
            Item::Frame(..) => true,
            Item::Fr(_, _, child) => child is Some,
            _ => false,
        }
    }

    /// Whether this item is weak spacing.
    pub open spec fn is_weak(self) -> bool {
        match self {
            Item::Abs(_, weakness) => weakness > 0,
            Item::Fr(_, weakness, None) => weakness > 0,
            _ => false,
        }
    }
}

/// The index of the last item that relative spacing is not collapsed across, or -1.
pub open spec fn last_stop(items: Seq<Item>) -> int
    decreases items.len(),
{
    if items.len() == 0 {
        -1
    } else if items.last().see_through() {
        last_stop(items.drop_last())
    } else {
        items.len() - 1
    }
}

/// The index of the last item that fractional spacing is not collapsed across, or -1.
pub open spec fn last_fr_stop(items: Seq<Item>) -> int
    decreases items.len(),
{
    if items.len() == 0 {
        -1
    } else if items.last().fr_see_through() {
        last_fr_stop(items.drop_last())
    } else {
        items.len() - 1
    }
}

/// Where a search ended, as an index.
pub open spec fn found_at(found: Option<usize>) -> int {
    match found {
        Some(i) => i as int,
        None => -1,
    }
}

/// Finds the last item that relative spacing is not collapsed across.
pub fn find_last_stop(items: &Vec<Item>) -> (result: Option<usize>)
    ensures
        found_at(result) == last_stop(items@),
        result matches Some(i) ==> i < items@.len() && !items@[i as int].see_through(),
{
    let mut i = items.len();
    assert(items@.take(i as int) =~= items@);
    while i > 0
        invariant
            i <= items@.len(),
            last_stop(items@) == last_stop(items@.take(i as int)),
        decreases i,
    {
        assert(items@.take(i as int).drop_last() =~= items@.take(i - 1));
        i -= 1;
        match items[i] {
            Item::Tag(_) | Item::Abs(_, 0) | Item::Placed(..) | Item::WrapFloat(..) => {},
            _ => return Some(i),
        }
    }
    None
}

/// Finds the last item that fractional spacing is not collapsed across.
pub fn find_last_fr_stop(items: &Vec<Item>) -> (result: Option<usize>)
    ensures
        found_at(result) == last_fr_stop(items@),
        result matches Some(i) ==> i < items@.len() && !items@[i as int].fr_see_through(),
{
    let mut i = items.len();
    assert(items@.take(i as int) =~= items@);
    while i > 0
        invariant
            i <= items@.len(),
            last_fr_stop(items@) == last_fr_stop(items@.take(i as int)),
        decreases i,
    {
        assert(items@.take(i as int).drop_last() =~= items@.take(i - 1));
        i -= 1;
        match items[i] {
            Item::Tag(_) | Item::Abs(..) | Item::Placed(..) | Item::WrapFloat(..) => {},
            _ => return Some(i),
        }
    }
    None
}

/// Whether any of the items is a frame.
pub open spec fn has_frame(items: Seq<Item>) -> bool {
    exists|i: int| 0 <= i < items.len() && (#[trigger] items[i]) is Frame
}

/// Whether any of the items is a frame.
pub fn any_frame(items: &Vec<Item>) -> (result: bool)
    ensures
        result == has_frame(items@),
{
    let mut i: usize = 0;
    while i < items.len()
        invariant
            i <= items@.len(),
            forall|j: int| 0 <= j < i ==> !((#[trigger] items@[j]) is Frame),
        decreases items@.len() - i,
    {
        if matches!(items[i], Item::Frame(..)) {
            return true;
        }
        i += 1;
    }
    false
}

/// Whether all of the items may migrate to the next region.
pub open spec fn all_migratable(items: Seq<Item>) -> bool {
    forall|i: int| 0 <= i < items.len() ==> (#[trigger] items[i]).migratable()
}

/// Whether all of the items may migrate to the next region.
pub fn every_migratable(items: &Vec<Item>) -> (result: bool)
    ensures
        result == all_migratable(items@),
{
    let mut i: usize = 0;
    while i < items.len()
        invariant
            i <= items@.len(),
            forall|j: int| 0 <= j < i ==> (#[trigger] items@[j]).migratable(),
        decreases items@.len() - i,
    {
        if !items[i].migratable() {
            return false;
        }
        i += 1;
    }
    true
}

} // verus!

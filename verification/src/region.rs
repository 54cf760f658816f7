//! The regions that content is laid out into.
use vstd::prelude::*;

use crate::geom::{Abs, Axes, Size};
use crate::util::copy_vec;

verus! {

/// A single region to lay out into.
#[derive(Clone, Copy, Debug, PartialEq, Eq, Hash)]
pub struct Region {
    /// The size of the region.
    pub size: Size,
    /// Whether elements should expand to fill the region.
    pub expand: Axes<bool>,
}

/// A sequence of regions to lay out into.
#[derive(Debug, PartialEq, Eq, Hash)]
pub struct Regions {
    /// The remaining size of the first region.
    pub size: Size,
    /// Whether elements should expand to fill the regions.
    pub expand: Axes<bool>,
    /// The full height of the first region, for relative sizing.
    pub full: Abs,
    /// The heights of the regions that follow. The width stays the same.
    pub backlog: Vec<Abs>,
    /// The height of the region that is repeated once the backlog is drained, if any.
    pub last: Option<Abs>,
}

/// What a sequence of regions holds.
#[verifier::ext_equal]
pub struct RegionsModel {
    /// The remaining size of the first region.
    pub size: Size,
    /// Whether elements should expand.
    pub expand: Axes<bool>,
    /// The full height of the first region.
    pub full: Abs,
    /// The heights of the regions that follow.
    pub backlog: Seq<Abs>,
    /// The height of the repeated region, if any.
    pub last: Option<Abs>,
}

impl RegionsModel {
    /// The size that relative lengths refer to.
    pub open spec fn base(self) -> Size {
        Axes { x: self.size.x, y: self.full }
    }

    /// Whether there is a region after the first one.
    pub open spec fn may_break(self) -> bool {
        self.backlog.len() > 0 || self.last is Some
    }

    /// Whether moving on to the next region may improve a lack of space. It cannot where that
    /// region is the repeated one and no higher or lower than what remains of the first.
    pub open spec fn may_progress(self) -> bool {
        self.backlog.len() > 0 || (self.last matches Some(height) && self.size.y != height)
    }

    /// Whether the first region is full and moving on may help.
    pub open spec fn is_full(self) -> bool {
        Abs(0).fits(self.size.y) && self.may_progress()
    }

    /// The height of the region after the first one, if there is one.
    pub open spec fn next_height(self) -> Option<Abs> {
        if self.backlog.len() > 0 {
            Some(self.backlog[0])
        } else {
            self.last
        }
    }

    /// Whether content of the given height has to go to the next region: it does not fit and moving
    /// on may help, or what must stay together with it fits into the next region only.
    pub open spec fn must_move_on(self, height: Abs, need: Abs) -> bool {
        ||| !self.size.y.fits(height) && self.may_progress()
        ||| !self.size.y.fits(need) && (self.next_height() matches Some(next) && next.fits(need))
    }

    /// The regions with another remaining height of the first.
    pub open spec fn with_y(self, y: Abs) -> RegionsModel {
        RegionsModel { size: Axes { x: self.size.x, y }, ..self }
    }
}

impl View for Regions {
    type V = RegionsModel;

    open spec fn view(&self) -> RegionsModel {
        RegionsModel {
            size: self.size,
            expand: self.expand,
            full: self.full,
            backlog: self.backlog@,
            last: self.last,
        }
    }
}

impl Regions {
    /// A copy of the regions.
    pub fn duplicate(&self) -> (result: Regions)
        ensures
            result@ == self@,
    {
        Regions {
            size: self.size,
            expand: self.expand,
            full: self.full,
            backlog: copy_vec(&self.backlog),
            last: self.last,
        }
    }

    /// The size of the first region that relative lengths refer to.
    pub fn base(&self) -> (result: Size)
        ensures
            result == self@.base(),
    {
        Axes { x: self.size.x, y: self.full }
    }

    /// Whether there is a region after the first one.
    pub fn may_break(&self) -> (result: bool)
        ensures
            result == self@.may_break(),
    {
        self.backlog.len() > 0 || self.last.is_some()
    }

    /// Whether moving on to the next region may improve a lack of space.
    pub fn may_progress(&self) -> (result: bool)
        ensures
            result == self@.may_progress(),
    {
        if self.backlog.len() > 0 {
            return true;
        }
        match self.last {
            Some(height) => self.size.y != height,
            None => false,
        }
    }

    /// Whether the first region is full and moving on may help.
    pub fn is_full(&self) -> (result: bool)
        ensures
            result == self@.is_full(),
    {
        Abs::zero().fits(self.size.y) && self.may_progress()
    }

    /// The height of the region after the first one, if there is one.
    pub fn next_height(&self) -> (result: Option<Abs>)
        ensures
            result == self@.next_height(),
    {
        if self.backlog.len() > 0 {
            Some(self.backlog[0])
        } else {
            self.last
        }
    }

    /// Whether content of the given height has to go to the next region.
    pub fn must_move_on(&self, height: Abs, need: Abs) -> (result: bool)
        ensures
            result == self@.must_move_on(height, need),
    {
        // If the content doesn't fit and a followup region may improve things, it moves on.
        if !self.size.y.fits(height) && self.may_progress() {
            return true;
        }
        // If its need, which includes what is grouped with it, does not fit into the current
        // region, but does fit into the next region, it moves on.
        if !self.size.y.fits(need) {
            if let Some(next) = self.next_height() {
                return next.fits(need);
            }
        }
        false
    }
}

} // verus!

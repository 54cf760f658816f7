//! Spacing between the items of a region, and how it collapses.
use vstd::prelude::*;

use super::{DistModel, Distributor};
use crate::geom::{Abs, Fr, Rel};
use crate::item::{find_last_fr_stop, find_last_stop, last_fr_stop, last_stop, Item};

verus! {

impl DistModel {
    /// The outcome of deciding whether to keep weak spacing: it depends on the last item that
    /// spacing is not collapsed across.
    ///
    /// - Weak relative spacing that's at most as weak is reused: it becomes the stronger of the
    ///   two, or the larger of two equally strong ones, and the new spacing is discarded.
    /// - Any kind of fractional spacing destructs weak relative spacing.
    /// - Frames and fractional blocks support the spacing.
    pub open spec fn weak_rel_kept(self, amount: Abs, weakness: u8) -> (DistModel, bool) {
        let i = last_stop(self.items);
        if i < 0 {
            (self, false)
        } else {
            match self.items[i] {
                Item::Abs(prev, prev_weakness) => {
                    if weakness < prev_weakness || (weakness == prev_weakness && amount.0
                        > prev.0) {
                        (
                            DistModel {
                                items: self.items.update(i, Item::Abs(amount, weakness)),
                                ..self.with_y(self.y().minus(amount.minus(prev)))
                            },
                            false,
                        )
                    } else {
                        (self, false)
                    }
                },
                item => (self, item.supports()),
            }
        }
    }

    /// With relative spacing. Weak spacing may collapse.
    pub open spec fn with_rel(self, amount: Rel, weakness: u8) -> DistModel {
        let amount = amount.relative_to(self.regions.full);
        let (kept, keep) = self.weak_rel_kept(amount, weakness);
        if weakness > 0 && !keep {
            kept
        } else {
            self.with_y(self.y().minus(amount)).pushed(Item::Abs(amount, weakness))
        }
    }

    /// The outcome of deciding whether to keep weak fractional spacing.
    ///
    /// - Weak fractional spacing that's at most as weak is reused.
    /// - Strong fractional spacing, frames and fractional blocks support the spacing.
    pub open spec fn weak_fr_kept(self, fr: Fr, weakness: u8) -> (DistModel, bool) {
        let i = last_fr_stop(self.items);
        if i < 0 {
            (self, false)
        } else {
            match self.items[i] {
                Item::Fr(prev, prev_weakness, None) => {
                    if prev_weakness == 0 {
                        (self, true)
                    } else if weakness < prev_weakness || (weakness == prev_weakness && fr.0
                        > prev.0) {
                        (
                            DistModel {
                                items: self.items.update(i, Item::Fr(fr, weakness, None)),
                                ..self
                            },
                            false,
                        )
                    } else {
                        (self, false)
                    }
                },
                _ => (self, true),
            }
        }
    }

    /// Without the weak spacing at the end, if there is any: the last item that spacing is not
    /// collapsed across. Its space is given back.
    pub open spec fn trimmed(self) -> DistModel {
        let i = last_stop(self.items);
        if i >= 0 && self.items[i].is_weak() {
            DistModel {
                items: self.items.remove(i),
                ..match self.items[i] {
                    Item::Abs(amount, _) => self.with_y(self.y().plus(amount)),
                    _ => self,
                }
            }
        } else {
            self
        }
    }

    /// With fractional spacing. Weak spacing may collapse. Where it is kept, preceding weak
    /// spacing goes, as no stronger fractional spacing can exist.
    pub open spec fn with_fr(self, fr: Fr, weakness: u8) -> DistModel {
        let (kept, keep) = self.weak_fr_kept(fr, weakness);
        if weakness > 0 && !keep {
            kept
        } else {
            self.trimmed().pushed(Item::Fr(fr, weakness, None))
        }
    }

    /// The amount of weak relative spacing at the end.
    pub open spec fn trailing(self) -> Abs {
        let i = last_stop(self.items);
        if i >= 0 {
            match self.items[i] {
                Item::Abs(amount, _) => amount,
                _ => Abs(0),
            }
        } else {
            Abs(0)
        }
    }
}

impl<'b> Distributor<'b> {
    /// Processes relative spacing.
    pub fn rel(&mut self, amount: Rel, weakness: u8)
        ensures
            final(self)@ == old(self)@.with_rel(amount, weakness),
    {
        let amount = amount.relative_to(self.regions.base().y);
        if weakness > 0 && !self.keep_weak_rel_spacing(amount, weakness) {
            return;
        }
        self.regions.size.y = self.regions.size.y - amount;
        self.items.push(Item::Abs(amount, weakness));
    }

    /// The height that remains once relative spacing is processed.
    pub fn height_after_rel(&self, amount: Rel, weakness: u8) -> (result: Abs)
        ensures
            result == self@.with_rel(amount, weakness).y(),
    {
        let y = self.regions.size.y;
        let amount = amount.relative_to(self.regions.base().y);
        if weakness == 0 {
            return y - amount;
        }
        match find_last_stop(&self.items) {
            Some(i) => match self.items[i] {
                Item::Abs(prev_amount, prev_weakness) => {
                    if weakness <= prev_weakness && (weakness < prev_weakness || amount.0
                        > prev_amount.0) {
                        y - (amount - prev_amount)
                    } else {
                        y
                    }
                },
                Item::Fr(_, _, None) => y,
                _ => y - amount,
            },
            None => y,
        }
    }

    /// Processes fractional spacing.
    pub fn fr(&mut self, fr: Fr, weakness: u8)
        ensures
            final(self)@ == old(self)@.with_fr(fr, weakness),
    {
        if weakness > 0 && !self.keep_weak_fr_spacing(fr, weakness) {
            return;
        }
        // If we decided to keep the fr spacing, it's safe to trim previous spacing as no stronger
        // fr spacing can exist.
        self.trim_spacing();
        self.items.push(Item::Fr(fr, weakness, None));
    }

    /// Decides whether to keep weak spacing based on previous items. If there is a preceding weak
    /// spacing, it might be patched in place.
    pub fn keep_weak_rel_spacing(&mut self, amount: Abs, weakness: u8) -> (result: bool)
        ensures
            (final(self)@, result) == old(self)@.weak_rel_kept(amount, weakness),
            result ==> final(self)@ == old(self)@,
    {
        let i = match find_last_stop(&self.items) {
            Some(i) => i,
            None => return false,
        };
        match self.items[i] {
            // When previous weak relative spacing exists that's at most as weak, we reuse the old
            // item, set it to the maximum of both, and discard the new item.
            Item::Abs(prev_amount, prev_weakness) => {
                if weakness <= prev_weakness && (weakness < prev_weakness || amount.0
                    > prev_amount.0) {
                    self.regions.size.y = self.regions.size.y - (amount - prev_amount);
                    self.items.set(i, Item::Abs(amount, weakness));
                }
                false
            },
            // Any kind of fractional spacing destructs weak relative spacing.
            Item::Fr(_, _, None) => false,
            // These naturally support the spacing.
            _ => true,
        }
    }

    /// Decides whether to keep weak fractional spacing based on previous items. If there is a
    /// preceding weak spacing, it might be patched in place.
    pub fn keep_weak_fr_spacing(&mut self, fr: Fr, weakness: u8) -> (result: bool)
        ensures
            (final(self)@, result) == old(self)@.weak_fr_kept(fr, weakness),
            result ==> final(self)@ == old(self)@,
    {
        let i = match find_last_fr_stop(&self.items) {
            Some(i) => i,
            None => return false,
        };
        match self.items[i] {
            // For weak + strong fr spacing, we keep both, same as for weak + strong rel spacing.
            Item::Fr(_, 0, None) => true,
            // When previous weak fr spacing exists that's at most as weak, we reuse the old item,
            // set it to the maximum of both, and discard the new item.
            Item::Fr(prev_fr, prev_weakness, None) => {
                if weakness <= prev_weakness && (weakness < prev_weakness || fr.0 > prev_fr.0) {
                    self.items.set(i, Item::Fr(fr, weakness, None));
                }
                false
            },
            // These naturally support the spacing.
            _ => true,
        }
    }

    /// Trims trailing weak spacing from the items.
    pub fn trim_spacing(&mut self)
        ensures
            final(self)@ == old(self)@.trimmed(),
    {
        if let Some(i) = find_last_stop(&self.items) {
            match self.items[i] {
                Item::Abs(amount, _) => {
                    self.regions.size.y = self.regions.size.y + amount;
                    self.items.remove(i);
                },
                Item::Fr(_, weakness, None) => {
                    if weakness > 0 {
                        self.items.remove(i);
                    }
                },
                _ => {},
            }
        }
    }

    /// The amount of trailing weak spacing.
    pub fn weak_spacing(&self) -> (result: Abs)
        ensures
            result == self@.trailing(),
    {
        match find_last_stop(&self.items) {
            Some(i) => match self.items[i] {
                Item::Abs(amount, _) => amount,
                _ => Abs::zero(),
            },
            None => Abs::zero(),
        }
    }
}

} // verus!

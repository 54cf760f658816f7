//! The elements that a flow is made of, with their styles resolved.
use vstd::prelude::*;

use crate::frame::Tag;
use crate::geom::{Abs, Axes, FixedAlignment, Fr, Ratio, Rel, Smart};

verus! {

/// What kind of flow is laid out.
#[derive(Clone, Copy, Debug, PartialEq, Eq, Structural, Hash)]
pub enum FlowMode {
    /// The root flow of a page.
    Root,
    /// A flow within a block.
    Block,
    /// A flow of inline content.
    Inline,
}

/// Where a paragraph stands among its siblings.
#[derive(Clone, Copy, Debug, PartialEq, Eq, Structural, Hash)]
pub enum ParSituation {
    /// The paragraph is the first thing in the flow or after a column break.
    First,
    /// The paragraph follows another paragraph.
    Consecutive,
    /// The paragraph follows something else.
    Other,
}

/// The place of an element's layout in the introspection order: how many elements were located
/// before it.
#[derive(Clone, Copy, Debug, PartialEq, Eq, Structural, Hash)]
pub struct Locator(pub usize);

/// The location of an element in the document.
#[derive(Clone, Copy, Debug, PartialEq, Eq, Structural, Hash)]
pub struct Location(pub u64);

/// The styles that determine how the lines of a paragraph are grouped.
#[derive(Clone, Copy, Debug, PartialEq, Eq, Hash)]
pub struct LineStyle {
    /// How the lines are aligned.
    pub align: Axes<FixedAlignment>,
    /// The cost of leaving the first line alone in a region.
    pub orphan: Ratio,
    /// The cost of leaving the last line alone in a region.
    pub widow: Ratio,
}

/// A paragraph.
#[derive(Clone, Copy, Debug, PartialEq, Eq, Hash)]
pub struct ParElem {
    /// The handle of the paragraph's content and styles.
    pub id: u64,
    /// The spacing around the paragraph.
    pub spacing: Abs,
    /// The spacing between its lines.
    pub leading: Abs,
    /// The size of its text.
    pub text_size: Abs,
    /// How its lines are grouped.
    pub style: LineStyle,
}

/// An amount of spacing.
#[derive(Clone, Copy, Debug, PartialEq, Eq, Hash)]
pub enum Spacing {
    /// Spacing relative to the height of the region.
    Rel(Rel),
    /// A share of the remaining space.
    Fr(Fr),
}

/// Explicit vertical spacing.
#[derive(Clone, Copy, Debug, PartialEq, Eq, Hash)]
pub struct VElem {
    /// How much spacing.
    pub amount: Spacing,
    /// Whether the spacing collapses.
    pub weak: bool,
}

/// How a block is sized.
#[derive(Clone, Copy, Debug, PartialEq, Eq, Hash)]
pub enum Sizing {
    /// By its content.
    Auto,
    /// Relative to the region.
    Rel(Rel),
    /// As a share of the remaining space.
    Fr(Fr),
}

/// A block-level container.
#[derive(Clone, Copy, Debug, PartialEq, Eq, Hash)]
pub struct BlockElem {
    /// The handle of the block's content and styles.
    pub id: u64,
    /// How the block is aligned.
    pub align: Axes<FixedAlignment>,
    /// Whether the block sticks to what follows it.
    pub sticky: bool,
    /// Whether the block may break across regions.
    pub breakable: bool,
    /// The height of the block.
    pub height: Sizing,
    /// The spacing above the block.
    pub above: Smart<Spacing>,
    /// The spacing below the block.
    pub below: Smart<Spacing>,
    /// The spacing around paragraphs, which automatic spacing falls back to.
    pub par_spacing: Abs,
}

/// A horizontal alignment.
#[derive(Clone, Copy, Debug, PartialEq, Eq, Structural, Hash)]
pub enum HAlignment {
    /// Where text starts.
    Start,
    /// To the left.
    Left,
    /// In the middle.
    Center,
    /// To the right.
    Right,
    /// Where text ends.
    End,
}

impl HAlignment {
    pub open spec fn spec_fix(self, left_to_right: bool) -> FixedAlignment {
        match self {
            HAlignment::Left => FixedAlignment::Start,
            HAlignment::Center => FixedAlignment::Center,
            HAlignment::Right => FixedAlignment::End,
            HAlignment::Start => if left_to_right {
                FixedAlignment::Start
            } else {
                FixedAlignment::End
            },
            HAlignment::End => if left_to_right {
                FixedAlignment::End
            } else {
                FixedAlignment::Start
            },
        }
    }

    /// The side that the alignment means for text of the given direction.
    #[verifier::when_used_as_spec(spec_fix)]
    pub fn fix(self, left_to_right: bool) -> (result: FixedAlignment)
        ensures
            result == self.spec_fix(left_to_right),
    {
        match self {
            HAlignment::Left => FixedAlignment::Start,
            HAlignment::Center => FixedAlignment::Center,
            HAlignment::Right => FixedAlignment::End,
            HAlignment::Start => if left_to_right {
                FixedAlignment::Start
            } else {
                FixedAlignment::End
            },
            HAlignment::End => if left_to_right {
                FixedAlignment::End
            } else {
                FixedAlignment::Start
            },
        }
    }
}

/// A vertical alignment.
#[derive(Clone, Copy, Debug, PartialEq, Eq, Structural, Hash)]
pub enum VAlignment {
    /// At the top.
    Top,
    /// In the middle.
    Horizon,
    /// At the bottom.
    Bottom,
}

impl VAlignment {
    pub open spec fn spec_fix(self) -> FixedAlignment {
        match self {
            VAlignment::Top => FixedAlignment::Start,
            VAlignment::Horizon => FixedAlignment::Center,
            VAlignment::Bottom => FixedAlignment::End,
        }
    }

    /// The end of the vertical axis that the alignment means.
    #[verifier::when_used_as_spec(spec_fix)]
    pub fn fix(self) -> (result: FixedAlignment)
        ensures
            result == self.spec_fix(),
    {
        match self {
            VAlignment::Top => FixedAlignment::Start,
            VAlignment::Horizon => FixedAlignment::Center,
            VAlignment::Bottom => FixedAlignment::End,
        }
    }
}

/// A two-dimensional alignment of which one axis may be left open.
#[derive(Clone, Copy, Debug, PartialEq, Eq, Hash)]
pub struct Alignment {
    /// The horizontal alignment, if given.
    pub x: Option<HAlignment>,
    /// The vertical alignment, if given.
    pub y: Option<VAlignment>,
}

/// Relative to what something is placed.
#[derive(Clone, Copy, Debug, PartialEq, Eq, Structural, Hash)]
pub enum PlacementScope {
    /// The current column.
    Column,
    /// The parent of the columns.
    Parent,
}

/// A placed element.
#[derive(Clone, Copy, Debug, PartialEq, Eq, Hash)]
pub struct PlaceElem {
    /// The handle of the element's content and styles.
    pub id: u64,
    /// Where to place the element.
    pub alignment: Smart<Alignment>,
    /// Whether the text around the element runs from left to right.
    pub left_to_right: bool,
    /// Relative to what to place the element.
    pub scope: PlacementScope,
    /// Whether the element floats.
    pub float: bool,
    /// Whether text wraps around the element.
    pub wrap: bool,
    /// How many lines the element spans as a drop cap, if it is one.
    pub dropcap: Option<usize>,
    /// The space to keep free around a floating element.
    pub clearance: Abs,
    /// The displacement from the position.
    pub delta: Axes<Rel>,
    /// The element's location.
    pub location: Location,
}

/// A child of a flow, before it is prepared.
#[derive(Clone, Copy, Debug, PartialEq, Eq, Hash)]
pub enum Element {
    /// An introspection tag.
    Tag(Tag),
    /// Explicit vertical spacing.
    V(VElem),
    /// A paragraph.
    Par(ParElem),
    /// A block.
    Block(BlockElem),
    /// A placed element.
    Place(PlaceElem),
    /// A float flush.
    Flush,
    /// A column break, and whether it is weak.
    Colbreak(bool),
    /// A page break, by its handle.
    Pagebreak(u64),
    /// An element that plays no part in the flow, by its handle.
    Other(u64),
}

} // verus!

//! What the flow knows of laid-out content.
use vstd::prelude::*;

use crate::element::Location;
use crate::geom::{Abs, Point, Size};

verus! {

/// An introspection tag, by its handle.
#[derive(Clone, Copy, Debug, PartialEq, Eq, Structural, Hash)]
pub struct Tag(pub u64);

/// What is drawn in a frame.
#[derive(Clone, Copy, Debug, PartialEq, Eq, Structural, Hash)]
pub enum Content {
    /// Nothing at all.
    Empty,
    /// Nothing but links and tags.
    Bare,
    /// At least one item that is neither a link nor a tag.
    Visible,
}

/// A factor by which a frame's content is drawn larger, as a quotient of two lengths.
#[derive(Clone, Copy, Debug, PartialEq, Eq, Structural, Hash)]
pub struct Scale {
    /// The length that the content shall span.
    pub num: Abs,
    /// The length that the content spans unscaled.
    pub den: Abs,
}

/// A finished layout with items at fixed positions.
#[derive(Clone, Copy, Debug, PartialEq, Eq, Hash)]
pub struct Frame {
    /// The handle of the frame's content.
    pub id: u64,
    /// The size of the frame.
    pub size: Size,
    /// The baseline, measured from the top, if one was set.
    pub baseline: Option<Abs>,
    /// What is drawn in the frame.
    pub content: Content,
    /// A hint about the text that follows the content, or the null character.
    pub hint: char,
    /// The factor by which the content is drawn larger, if any.
    pub scale: Option<Scale>,
    /// The element that the content belongs to in the document's structure, where that is not
    /// the element around it.
    pub parent: Option<Location>,
}

impl Frame {
    pub open spec fn spec_width(&self) -> Abs {
        self.size.x
    }

    /// The width of the frame.
    #[verifier::when_used_as_spec(spec_width)]
    pub fn width(&self) -> (result: Abs)
        ensures
            result == self.spec_width(),
    {
        self.size.x
    }

    pub open spec fn spec_height(&self) -> Abs {
        self.size.y
    }

    /// The height of the frame.
    #[verifier::when_used_as_spec(spec_height)]
    pub fn height(&self) -> (result: Abs)
        ensures
            result == self.spec_height(),
    {
        self.size.y
    }

    pub open spec fn spec_baseline_or_height(&self) -> Abs {
        match self.baseline {
            Some(baseline) => baseline,
            None => self.size.y,
        }
    }

    /// The baseline, or the height where none was set.
    #[verifier::when_used_as_spec(spec_baseline_or_height)]
    pub fn baseline_or_height(&self) -> (result: Abs)
        ensures
            result == self.spec_baseline_or_height(),
    {
        match self.baseline {
            Some(baseline) => baseline,
            None => self.size.y,
        }
    }

    pub open spec fn spec_is_empty(&self) -> bool {
        self.content is Empty
    }

    /// Whether nothing is drawn in the frame.
    #[verifier::when_used_as_spec(spec_is_empty)]
    pub fn is_empty(&self) -> (result: bool)
        ensures
            result == self.spec_is_empty(),
    {
        matches!(self.content, Content::Empty)
    }

    /// The frame with another hint.
    pub open spec fn with_hint(self, hint: char) -> Frame {
        Frame { hint, ..self }
    }

    /// Sets the hint about the text that follows.
    pub fn set_content_hint(&mut self, hint: char)
        ensures
            *final(self) == old(self).with_hint(hint),
    {
        self.hint = hint;
    }

    /// The frame with another parent.
    pub open spec fn with_parent(self, parent: Location) -> Frame {
        Frame { parent: Some(parent), ..self }
    }

    /// Sets the element that the content belongs to.
    pub fn set_parent(&mut self, parent: Location)
        ensures
            *final(self) == old(self).with_parent(parent),
    {
        self.parent = Some(parent);
    }

    pub open spec fn spec_scaled_by(self, scale: Scale) -> Frame {
        Frame {
            size: Size {
                x: self.size.x.scaled(scale.num, scale.den),
                y: self.size.y.scaled(scale.num, scale.den),
            },
            scale: Some(scale),
            ..self
        }
    }

    /// The frame with its content drawn larger and its size following suit. The baseline stays.
    #[verifier::when_used_as_spec(spec_scaled_by)]
    pub fn scaled_by(self, scale: Scale) -> (result: Frame)
        requires
            scale.den.0 > 0,
        ensures
            result == self.spec_scaled_by(scale),
    {
        Frame {
            size: Size {
                x: self.size.x.scaled(scale.num, scale.den),
                y: self.size.y.scaled(scale.num, scale.den),
            },
            scale: Some(scale),
            ..self
        }
    }
}

pub open spec fn spec_mark_block_end(frame: Frame) -> Frame {
    if frame.is_empty() {
        frame
    } else {
        frame.with_hint('\n')
    }
}

/// Marks the frame of an unbreakable block as ending a line of text, unless it is empty.
#[verifier::when_used_as_spec(spec_mark_block_end)]
pub fn mark_block_end(frame: Frame) -> (result: Frame)
    ensures
        result == spec_mark_block_end(frame),
{
    let mut frame = frame;
    if !frame.is_empty() {
        frame.set_content_hint('\n');
    }
    frame
}

/// The lines of a paragraph with the last one marked as ending a line of text, unless it has a
/// hint already.
pub open spec fn par_end_marked(lines: Seq<Frame>) -> Seq<Frame> {
    if lines.len() > 0 && lines.last().hint == '\0' {
        lines.update(lines.len() - 1, lines.last().with_hint('\n'))
    } else {
        lines
    }
}

/// Marks the last line of a paragraph as ending a line of text, unless it has a hint already.
pub fn mark_par_end(lines: &mut Vec<Frame>)
    ensures
        final(lines)@ == par_end_marked(old(lines)@),
{
    let len = lines.len();
    if len > 0 {
        let mut line = lines[len - 1];
        if line.hint == '\0' {
            line.set_content_hint('\n');
            lines.set(len - 1, line);
        }
    }
}

/// Something placed in an output frame.
#[derive(Clone, Copy, Debug, PartialEq, Eq, Hash)]
pub enum FrameItem {
    /// An introspection tag.
    Tag(Tag),
    /// A nested frame.
    Frame(Frame),
}

/// The frame that a region was filled with.
#[derive(Debug, PartialEq, Eq)]
pub struct RegionFrame {
    /// The size of the frame.
    pub size: Size,
    /// The baseline, if one was set.
    pub baseline: Option<Abs>,
    /// The items with the positions of their top left corners, in drawing order.
    pub items: Vec<(Point, FrameItem)>,
}

/// What a region's frame holds.
#[verifier::ext_equal]
pub struct RegionFrameModel {
    /// The size of the frame.
    pub size: Size,
    /// The baseline, if one was set.
    pub baseline: Option<Abs>,
    /// The items with their positions, in drawing order.
    pub items: Seq<(Point, FrameItem)>,
}

impl View for RegionFrame {
    type V = RegionFrameModel;

    open spec fn view(&self) -> RegionFrameModel {
        RegionFrameModel { size: self.size, baseline: self.baseline, items: self.items@ }
    }
}

} // verus!

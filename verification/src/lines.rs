//! The lines of paragraphs as children of the flow.
use vstd::prelude::*;

use crate::child::{Child, LineChild};
use crate::element::LineStyle;
use crate::frame::Frame;
use crate::geom::{Abs, Rel};

verus! {

/// Whether the first line must not be left alone in a region.
pub open spec fn prevents_orphans(lines: Seq<Frame>, style: LineStyle) -> bool {
    style.orphan.0 > 0 && lines.len() >= 2 && !lines[1].is_empty()
}

/// Whether the last line must not be left alone in a region.
pub open spec fn prevents_widows(lines: Seq<Frame>, style: LineStyle) -> bool {
    style.widow.0 > 0 && lines.len() >= 2 && !lines[lines.len() - 2].is_empty()
}

/// The height that must be available for line `i` to be placed. To prevent widows and orphans,
/// this is enough for
/// - all lines at the first line if it's just three
/// - the first two lines at the first line
/// - the last two lines at the second to last line
pub open spec fn line_need(lines: Seq<Frame>, leading: Abs, style: LineStyle, i: int) -> Abs {
    let len = lines.len();
    if len == 3 && prevents_orphans(lines, style) && prevents_widows(lines, style) && i == 0 {
        lines[0].height().plus(leading).plus(lines[1].height()).plus(leading).plus(
            lines[2].height(),
        )
    } else if prevents_orphans(lines, style) && i == 0 {
        lines[0].height().plus(leading).plus(lines[1].height())
    } else if prevents_widows(lines, style) && i >= 2 && i == len - 2 {
        lines[len - 2].height().plus(leading).plus(lines[len - 1].height())
    } else {
        lines[i].height()
    }
}

/// The line children for the given lines.
pub open spec fn line_children(lines: Seq<Frame>, leading: Abs, style: LineStyle) -> Seq<
    LineChild,
> {
    Seq::new(
        lines.len(),
        |i: int|
            LineChild {
                frame: lines[i],
                align: style.align,
                need: line_need(lines, leading, style, i),
            },
    )
}

/// Build line children from laid-out line frames, computing the `need` for each line that keeps
/// widows and orphans away. The caller is responsible for inserting the spacing between
/// consecutive lines.
pub fn build_line_children(lines: &Vec<Frame>, leading: Abs, style: LineStyle) -> (result: Vec<
    LineChild,
>)
    ensures
        result@ == line_children(lines@, leading, style),
{
    let len = lines.len();
    let prevent_orphans = style.orphan.0 > 0 && len >= 2 && !lines[1].is_empty();
    let prevent_widows = style.widow.0 > 0 && len >= 2 && !lines[len - 2].is_empty();
    let prevent_all = len == 3 && prevent_orphans && prevent_widows;

    let mut output = Vec::with_capacity(len);
    let mut i: usize = 0;
    while i < len
        invariant
            i <= len,
            len == lines@.len(),
            prevent_orphans == prevents_orphans(lines@, style),
            prevent_widows == prevents_widows(lines@, style),
            prevent_all == (len == 3 && prevent_orphans && prevent_widows),
            output@ == line_children(lines@, leading, style).take(i as int),
        decreases len - i,
    {
        let frame = lines[i];
        let need = if prevent_all && i == 0 {
            lines[0].height() + leading + lines[1].height() + leading + lines[2].height()
        } else if prevent_orphans && i == 0 {
            lines[0].height() + leading + lines[1].height()
        } else if prevent_widows && i >= 2 && i == len - 2 {
            lines[len - 2].height() + leading + lines[len - 1].height()
        } else {
            frame.height()
        };
        output.push(LineChild { frame, align: style.align, need });
        assert(output@ =~= line_children(lines@, leading, style).take(i + 1));
        i += 1;
    }
    assert(output@ =~= line_children(lines@, leading, style));
    output
}

/// Lines alternating with the leading between them.
pub open spec fn leaded(lines: Seq<LineChild>, leading: Abs) -> Seq<Child> {
    Seq::new(
        if lines.len() == 0 {
            0
        } else {
            (2 * lines.len() - 1) as nat
        },
        |k: int|
            if k % 2 == 0 {
                Child::Line(lines[k / 2])
            } else {
                Child::Rel(Rel::absolute(leading), 5)
            },
    )
}

/// Appends the lines to the output, with leading between them.
pub fn push_leaded(output: &mut Vec<Child>, lines: &Vec<LineChild>, leading: Abs)
    ensures
        final(output)@ == old(output)@ + leaded(lines@, leading),
{
    let ghost out0 = output@;
    let mut i: usize = 0;
    assert(out0 =~= out0 + leaded(lines@.take(0), leading));
    while i < lines.len()
        invariant
            i <= lines@.len(),
            output@ == out0 + leaded(lines@.take(i as int), leading),
        decreases lines@.len() - i,
    {
        if i > 0 {
            output.push(Child::Rel(Rel::absolute(leading), 5));
        }
        output.push(Child::Line(lines[i]));
        assert(output@ =~= out0 + leaded(lines@.take(i + 1), leading)) by {
            let a = leaded(lines@.take(i as int), leading);
            let b = leaded(lines@.take(i + 1), leading);
            assert forall|k: int| 0 <= k < a.len() implies a[k] == b[k] by {
                if k % 2 == 0 {
                    assert(lines@.take(i as int)[k / 2] == lines@.take(i + 1)[k / 2]);
                }
            }
            if i > 0 {
                assert(b =~= a.push(Child::Rel(Rel::absolute(leading), 5)).push(
                    Child::Line(lines@[i as int]),
                ));
            } else {
                assert(b =~= a.push(Child::Line(lines@[i as int])));
            }
        }
        i += 1;
    }
    assert(lines@.take(i as int) =~= lines@);
}

} // verus!

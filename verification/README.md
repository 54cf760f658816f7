# flow

Decides where the content of a document flow goes: which lines, blocks and placed elements share a
region, where they stand in it, and what moves on to the next one. Paragraphs may wrap around
floats and drop caps at their side.

The decisions are verified with Verus. Laying out the content itself, breaking paragraphs into
lines, inserting footnotes and looking up fonts is done elsewhere: the flow puts a request for each
piece of such work and goes on from the answer (`src/engine.rs`).

- `src/geom.rs`, `src/frame.rs`, `src/region.rs`, `src/element.rs`: lengths, frames, regions and the
  elements of a flow. Lengths are fixed-point numbers with two infinities.
- `src/collect.rs`, `src/lines.rs`, `src/child.rs`: elements become children that are simple to
  handle.
- `src/wrap.rs`, `src/bands.rs`: the widths of lines beside floats.
- `src/work.rs`, `src/item.rs`, `src/distribute/`: children are distributed into a region and
  arranged in its frame.
- `src/cache.rs`: a cell that keeps the latest output of a computation.
- `src/laws/`: what holds of the flow as a whole.
- `app/`: answers the requests through a host that lays out content.

Each step of the flow is described by a spec function on a model of its state, such as
`DistModel::with_child`, and each executable function is proved to take the model of its state to
what that spec function says. The laws are stated of the models.

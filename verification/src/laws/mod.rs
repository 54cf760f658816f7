//! What holds of the flow as a whole.
pub mod arrange;
pub mod beside;
pub mod collect;
pub mod dialogue;
pub mod elements;
pub mod geometry;
pub mod items;
pub mod paragraphs;
pub mod placing;
pub mod regions;
pub mod replay;
pub mod run;
pub mod space;
pub mod spill;
pub mod steps;
pub mod wrap;

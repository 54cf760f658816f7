pub mod bands;
pub mod cache;
pub mod child;
pub mod collect;
pub mod distribute;
pub mod element;
pub mod engine;
pub mod frame;
pub mod geom;
pub mod item;
pub mod laws;
pub mod lines;
pub mod region;
pub mod util;
pub mod work;
pub mod wrap;

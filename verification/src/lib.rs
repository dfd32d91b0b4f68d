//! Splitting of convex quadrilaterals in space into fragments that do not
//! pierce each other, and their ordering from back to front along a view.
//!
//! The geometry is in `scalar`, `vector`, `line`, `plane`, `projection` and
//! `polygon`: what a polygon is, where two polygons pierce each other, and
//! how a line splits a polygon. `cut` makes a polygon a plane that
//! partitions space. The two splitters are in `naive`, which compares the
//! polygons pair by pair, and in `bsp`, which keeps them in a tree and reads
//! the tree from back to front; `tree` is that tree as a value of
//! specifications, with what holds of it. `splitter` is what the two have in
//! common, `debug` records the work of a splitter, and `grid` makes polygons
//! to try one on. `exact` says what the computations are worth where the
//! scalars compute exactly.
//!
//! Every function states what it computes, operation by operation; the laws
//! that follow from that are proof functions beside the functions that they
//! speak of.

pub mod bsp;
pub mod cut;
pub mod debug;
pub mod exact;
pub mod grid;
pub mod line;
pub mod naive;
pub mod plane;
pub mod polygon;
pub mod projection;
pub mod scalar;
pub mod splitter;
pub mod tree;
pub mod vector;

pub use bsp::BspNode;
pub use bsp::BspPlane;
pub use bsp::BspSplitter;
pub use bsp::PlaneCut;
pub use debug::DebugLayer;
pub use debug::Dump;
pub use grid::_make_grid;
pub use line::Line;
pub use naive::NaiveSplitter;
pub use plane::Plane;
pub use polygon::Polygon;
pub use projection::LineProjection;
pub use scalar::Scalar;
pub use splitter::Splitter;
pub use vector::Vec3;

//! Spiral indexing of an infinite hexagonal grid: every cell gets one
//! non-negative index, handed out ring by ring outward from the center.
//! Also the hex distance, the cells within reach of a center, alignment along
//! the three hex axes, and snapping a fractional position to its cell.
pub mod cube;
pub mod spiral;
pub mod range;
pub mod axis;
pub mod highlight;
pub mod rounding;

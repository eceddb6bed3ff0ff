//! Pixel-level core of a document scanner: RGBA images, the choice of the
//! target rectangle of a perspective warp, the warp's sampling loop, and the
//! choice of the point nearest to each corner of a bounding box.
pub mod corners;
pub mod image;
pub mod perspective;

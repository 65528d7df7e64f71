//! Verified core of a Whitted-style ray tracer: nearest-hit selection, the
//! depth-bounded shading recursion, the row-band scheduler and the collector
//! that assembles the framebuffer.
//!
//! Real-valued geometry is supplied by an implementation of [`optics::Optics`];
//! everything decided here is decided on plain integers.

pub mod nearest;
pub mod optics;
pub mod intersect;
pub mod shader;
pub mod tiles;
pub mod frame;
pub mod render;
pub mod naming;

//! A dot-grid raster compositor.
//!
//! The library renders a square grid of palette-indexed dots into an RGBA
//! pixel canvas, encodes the canvas as a PNG byte stream, and stages the
//! encoded bytes for retrieval by a host. A handle-keyed arena models the
//! byte regions a host writes inputs into and reads outputs from.

pub mod bridge;
pub mod canvas;
pub mod codec;
pub mod compositor;
pub mod session;

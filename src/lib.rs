//! Turns a short animation into a network of lamps and combinators driven by a
//! cyclic tick counter: the graph is laid out, wired and then encoded as an
//! exchange string.

/// Fixed numbers of the format.
pub mod constants;
/// The graph's data types and their views.
pub mod models;
/// Frames, color packing and grayscale bit-packing.
pub mod pixels;
/// The tick counter.
pub mod timer;
/// The selection logic of a column-group.
pub mod layout;
/// The power grid.
pub mod power;
/// The grid of lights.
pub mod lamps;
/// The assembler of the whole graph.
pub mod blueprint;
/// Laws that every assembled graph obeys.
pub mod consistency;
/// Compression and text encoding of a serialized graph.
pub mod encode;
/// Expansion of the signal catalog into quality tiers.
pub mod signals;
/// Progress milestones.
pub mod progress;

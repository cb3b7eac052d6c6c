//! Remapping engine for forwarding a physical input device's axis and button
//! events onto a synthesized virtual device.
//!
//! The crate covers the logic of that pipeline: the textual mapping-rule
//! grammar and its parser, the capability table built from the physical
//! device's advertised axes, the calibration of the virtual device's axes,
//! and the per-event translation (identity pass-through, inversion,
//! retargeting). Device I/O itself — opening the physical node, creating the
//! virtual node, polling and emitting events — stays with the binary that
//! drives this library.

pub mod axis;
pub mod caps;
pub mod hex;
pub mod rules;
pub mod translate;

//! Shadow-caster visibility for directional, point and spot lights: which mesh entities each
//! light frustum sees, how the per-worker results are gathered, and how the frame's findings
//! are committed to the view-visibility flags and the set of entities seen before.

pub mod classify;
pub mod commit;
pub mod components;
pub mod frusta;
pub mod layers;
pub mod lights;

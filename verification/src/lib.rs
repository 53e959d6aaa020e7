//! A raytraced text-mode city renderer: the number system, the glyph
//! catalogue, the elevation map and the pieces of the frame built on them.

pub mod fixed;
pub mod trig;
pub mod rng;
pub mod palette;
pub mod catalog;
pub mod frame;
pub mod font;
pub mod glyph;
pub mod elevation;
pub mod shadow;
pub mod arch;
pub mod camera;
pub mod atmos;
pub mod raycast;
pub mod sprite;
pub mod decal;
pub mod drive;
pub mod sim;
pub mod walk;
pub mod road;
pub mod tour;
pub mod cabbie;

use vstd::prelude::*;

verus! {

/// The city everything defaults to: one seed, in one place, so that every
/// program that renders the default city renders the same one.
pub const DEFAULT_SEED: u32 = 0xA5C1_771E;

} // verus!

use vstd::prelude::*;

pub mod compose;
pub mod level;
pub mod optic;
pub mod rng;
pub mod screen;

verus! {

/// Vertical distance a prism falls per simulation step, in pixels.
pub const SPEED: i16 = 8;

/// Horizontal distance one key press shifts the prisms, in pixels.
pub const H_SPEED: i16 = 8;

/// Logical display width, in pixel columns.
pub const W: i16 = 720;

/// Logical display height, in pixel rows.
pub const H: i16 = 1600;

/// Height of a prism's growth band: the number of interpolated rows
/// drawn while the refraction forms.
pub const OPTIC_HEIGHT: i16 = 100;

/// Width of one stripe of the generated background pattern.
pub const LINE_W: i16 = 10;

pub use crate::compose::LayerPlan;
pub use crate::level::Level;
pub use crate::optic::Optic;
pub use crate::screen::Run;
pub use crate::screen::Screen;

} // verus!

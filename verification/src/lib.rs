//! A grid maze drawn in first person by ray casting, with an overhead minimap.
//!
//! Everything here is integer arithmetic. World coordinates are fixed-point
//! numbers (see [`fixed`]), angles are counted in ticks of a turn and their
//! sines come from a table that the caller supplies once (see [`trig`]).
//! Drawing goes to an in-memory [`framebuffer::Framebuffer`]; showing that
//! surface on a display is left to the caller.

pub mod color;
pub mod fixed;
pub mod trig;
pub mod framebuffer;
pub mod maze;
pub mod player;
pub mod caster;
pub mod resources;
pub mod render3d;
pub mod minimap;
pub mod input;
pub mod game_state;
pub mod overlay;

//! ledbetter: the verified core of an LED pixel-mapping engine.
//!
//! The canvas is a rectangular RGB framebuffer; a patch of controllers,
//! outputs and strips maps it onto DMX addresses; frames go out as sACN
//! (E1.31) packets.
pub mod camera;
pub mod canvas;
pub mod clock;
pub mod crossfader;
pub mod effect;
pub mod layer;
pub mod output;
pub mod palette;
pub mod patch;
pub mod shader;

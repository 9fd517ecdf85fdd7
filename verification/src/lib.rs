//! A screen-magnifier core: capture a rectangular region of a display,
//! repack its pixels, and hand them to a presentation surface.
//!
//! The crate holds the verified logic of that pipeline: coordinate-pair
//! parsing, region validation against display bounds, the pixel-format
//! conversion, and the capture loop's decision rules. The platform work
//! (display capture, windowing, argument handling) lives outside.

pub mod capture;
pub mod convert;
pub mod coords;
pub mod region;

pub use capture::{Gate, LoopState, PollEvent, PollStep, TickInput};
pub use coords::Coords;
pub use region::{Config, ConfigError, Rect, ScaleMode};

//! DeskFrog: a tiny desktop companion frog that wanders over the screen in
//! grid steps, naps, gets startled, flees from the mouse cursor and comments
//! in a DOS-style speech bubble.
//!
//! This crate holds the frog's brain (state machine, movement, commentary),
//! the CPU compositing of its frame (speech bubble, bitmap font, alpha
//! blending) and the behaviour settings; the windowing layer lives outside.
pub mod chance;
pub mod brain;
pub mod render;
pub mod config;
pub mod placement;
pub mod wide;

//! Rendering of markup documents onto a split-flap board.
//!
//! A board is a grid of character codes ([`board`]). A document describes
//! a board by components, texts and ready boards with hints on their
//! placement, and is rendered onto one ([`vbml`]).

pub mod board;
pub mod pattern;
pub mod rw;
pub mod text;
pub mod vbml;

pub use board::{BoardData, CharacterCode};
pub use rw::RWApiReadMessage;
pub use vbml::Vbml;

//! Terminal rendering for a coding agent: styled output, text layout, block
//! history, dialogs and the prompt area.
//!
//! Everything that is drawn is first recorded as a list of terminal commands
//! in a [`render::out::RenderOut`].  Contracts speak about that list through
//! its view, [`render::out::Canvas`].

pub mod dialogs;
pub mod digest;
pub mod hints;
pub mod json;
pub mod render;
pub mod session;
pub mod text;
pub mod theme;
pub mod utils;

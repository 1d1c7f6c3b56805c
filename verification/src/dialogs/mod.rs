//! Dialogs that cover the prompt.

pub mod agents;
pub mod confirm;
pub mod confirm_draw;
pub mod keys;
pub mod option_laws;
pub mod list;
pub mod text_area;
pub mod questions;
pub mod notebook;
pub mod preview;
pub mod question;
pub mod question_draw;
pub mod request_laws;
pub mod result;
pub mod ps;
pub mod resume;
pub mod rewind;
pub mod row_laws;
pub mod help;
pub mod permissions;

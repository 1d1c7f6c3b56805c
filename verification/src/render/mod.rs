//! Drawing: output commands, layout and the widgets built on them.

pub mod active;
pub mod active_laws;
pub mod bars;
pub mod blocks;
pub mod blocks_laws;
pub mod cache;
pub mod call_laws;
pub mod completions;
pub mod diff;
pub mod diff_laws;
pub mod diff_reading;
pub mod frame;
pub mod highlight;
pub mod history;
pub mod inline_laws;
pub mod inline_md;
pub mod input;
pub mod input_laws;
pub mod lit;
pub mod markdown;
pub mod markdown_laws;
pub mod menu_laws;
pub mod model;
pub mod out;
pub mod paths;
pub mod prompt;
pub mod prompt_laws;
pub mod reading_laws;
pub mod reply_laws;
pub mod screen;
pub mod sections;
pub mod seen;
pub mod spans;
pub mod status;
pub mod status_laws;
pub mod stream;
pub mod stream_laws;
pub mod style_laws;
pub mod styled;
pub mod table;
pub mod table_laws;
pub mod tools;
pub mod tools_laws;
pub mod window_laws;
pub mod working;
pub mod wrap;
pub mod wrap_laws;

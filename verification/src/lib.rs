//! Daily work-log documents: a verified Markdown model with task trees,
//! carry-over of unfinished work, date arithmetic and the stored-entry formats.
pub mod text;
pub mod task;
pub mod carry_laws;
pub mod render;
pub mod render_laws;
pub mod parse;
pub mod outline;
pub mod entry;
pub mod date;
pub mod json;
pub mod json_laws;
pub mod float_text;
pub mod git;
pub mod settings;
pub mod roundtrip;
pub mod reading_laws;

pub mod find;
pub mod flow;
pub mod highlight;
pub mod insertion_point;
pub mod key_handler;
pub mod language;
pub mod laws;
pub mod overlay;
pub mod page;
pub mod parse;
pub mod render;
pub mod screen;
pub mod text;
pub mod width;

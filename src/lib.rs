//! Core of a logic-less template engine: a value model, path navigation over
//! it, and the renderer that evaluates parsed templates against it.
pub mod json;
pub mod path;
pub mod context;
pub mod template;
pub mod render;

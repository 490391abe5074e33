//! Filters a stream of tab-separated feed records against a persisted set of
//! already-read links, and renders what is left as one HTML document.
pub mod text;
pub mod record;
pub mod render;
pub mod store;
pub mod pipeline;

pub mod grid;
pub mod scrollback;
pub mod vt;
pub mod selection;
pub mod config;
pub mod perf;
pub mod text_renderer;

pub mod text;
pub mod model;
pub mod diff;
pub mod ui;
pub mod theme;
pub mod gh;
pub mod bd;
pub mod clipboard;
pub mod app;
pub mod preflight;

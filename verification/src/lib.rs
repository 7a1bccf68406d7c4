//! The parts of a desktop that can be reasoned about without a screen.
//!
//! - Picture-in-picture thumbnails: [`thumbnail`] holds the geometry of one, [`pip`] the thumbnails
//!   of a session, [`pip_grab`] moves and resizes them with the pointer, [`pip_render`] tells what
//!   is drawn. What holds of them stands in [`pip_laws`], [`pip_exact`], [`pip_call_laws`] and
//!   [`render_laws`].
//! - The expose view: [`expose`] arranges windows in a grid, with what holds of it in
//!   [`expose_laws`] and [`expose_exact`].
//! - Icons of applications: [`desktop_entry`] reads and indexes desktop entries, [`xdg`] names the
//!   directories, [`icon_theme`] ranks the files of an icon, and [`app_icon`] brings them together.
//!   What holds of them stands in [`entry_laws`], [`theme_laws`] and [`icon_laws`].
//! - [`keyboard_scroll`], [`background_effect`] and [`focus_or_spawn`] each hold one feature, with
//!   its laws in [`scroll_laws`], [`effect_laws`] and [`focus_laws`].
//!
//! [`number`] and [`geometry`] are what positions and sizes are made of; [`text`], [`path`] and
//! [`sorting`] serve the rest. [`exact`] reads numbers as real numbers, for laws on places and
//! sizes, and [`text_laws`] tells what texts and paths are cut into. Drawing, files and the event
//! loop stay with the caller, which hands in what they answer and carries out what it is told.
pub mod app_icon;
pub mod background_effect;
pub mod desktop_entry;
pub mod effect_laws;
pub mod entry_laws;
pub mod exact;
pub mod expose;
pub mod expose_exact;
pub mod expose_laws;
pub mod focus_laws;
pub mod focus_or_spawn;
pub mod geometry;
pub mod icon_laws;
pub mod icon_theme;
pub mod keyboard_scroll;
pub mod number;
pub mod path;
pub mod pip;
pub mod pip_call_laws;
pub mod pip_exact;
pub mod pip_grab;
pub mod pip_laws;
pub mod pip_render;
pub mod render_laws;
pub mod scroll_laws;
pub mod sorting;
pub mod text;
pub mod text_laws;
pub mod theme_laws;
pub mod thumbnail;
pub mod window;
pub mod xdg;

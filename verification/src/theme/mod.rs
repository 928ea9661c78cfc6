//! Themes: scenes of layers, their data bindings and the theme document.
pub mod binding;
pub mod layer;
pub mod scene;
pub mod document;

//! A data-description layer for map tile sources: a validated descriptor of
//! one tile server (zoom range, URL template, projection, expiry, styling)
//! and a codec that saves and loads it against a fixed XML template.
pub mod codec;
pub mod descriptor;
pub mod events;
pub mod num;
pub mod text;
pub mod xml;

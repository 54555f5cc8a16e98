//! Menu pipeline for a university-cafeteria chat bot.
//!
//! The library covers the whole menu-resolution pipeline: decoding the
//! upstream restaurant catalog from JSON, resolving a location by slug,
//! selecting the menu for a given date label, and rendering the menu as
//! text escaped for a MarkdownV2-style transport. Network and chat
//! transport live outside the library and hand in plain values.

pub mod strutil;
pub mod escape;
pub mod model;
pub mod resolve;
pub mod select;
pub mod render;
pub mod pipeline;
pub mod commands;
pub mod jsonprim;
pub mod codec;

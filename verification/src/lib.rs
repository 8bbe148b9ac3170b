//! Core logic of a Pisi package-manager front-end: interpretation of the
//! external `pisi` tool's output, and parsing of a package-index document
//! into a normalized in-memory catalog.

pub mod command;
pub mod index;
pub mod settings;
pub mod text;
pub mod xml;

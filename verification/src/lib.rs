//! A library for modelling a directory tree as an in-memory `Folder` value
//! and rendering it as an indented, connector-decorated text tree.
//!
//! The tree builder's decisions (which entries to record, which directory
//! names to skip) and the renderer live here, fully verified; filesystem
//! enumeration is left to the caller, which feeds plain names and entry
//! kinds into the builder operations.

pub mod basename;
pub mod entry;
pub mod folder;
pub mod ignore;
pub mod render;
pub mod text;

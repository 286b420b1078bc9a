//! starpkg: a package-build pipeline for composable mod packages.
//!
//! A package is a directory tree of mod sources plus a manifest, optionally
//! depending on other packages.  Loading flattens the dependency graph and
//! merges per-kind export registries (sprites, actors, text strings);
//! assembling assigns final indices to every export, emits listing files, and
//! rewrites symbolic `{Kind:...}` expressions in script sources to those
//! indices.  All of that logic lives here, on plain in-memory values; reading
//! the package tree from disk and writing the build output back belong to the
//! surrounding application.

pub mod actor;
pub mod id;
pub mod output;
pub mod package;
pub mod registry;
pub mod resolve;
pub mod sanitize;
pub mod script;
pub mod sprite;
pub mod text;
pub mod strutil;
pub mod version;
pub mod xml;

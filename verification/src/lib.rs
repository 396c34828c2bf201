//! Audits a MkDocs-style documentation tree: checks that every navigation
//! entry names an existing page, finds on-disk markdown unreachable from the
//! navigation or from any followed hyperlink, validates internal links and
//! image references, and checks a help-index header of documentation URLs.
//!
//! All path and URL algebra, the navigation walk, the link-resolution
//! cascade and the audit engine are verified. File reading, directory
//! walking and YAML decoding stay outside the library: callers hand in
//! file lists, contents and an existence set as plain values.

pub mod paths;
pub mod sets;
pub mod nav;
pub mod links;
pub mod resolve;
pub mod content;
pub mod help;
pub mod engine;
pub mod laws;

//! Turns an outline of margin notes into a set of named, cross-linked
//! note files whose identity survives repeated exports.

pub mod body;
pub mod exporter;
pub mod extractor;
pub mod files;
pub mod item;
pub mod naming;
pub mod notes;
pub mod oo3;
pub mod query;
pub mod reading;
pub mod scan;
pub mod text;
pub mod textmap;
pub mod title;
pub mod tree;

//! A small verified library for release tags: parsing a tag string into a
//! namespaced semantic version, rendering it back canonically, ordering tags,
//! and computing the next tag from a previous tag and a bump intent.

pub mod context;
pub mod digits;
pub mod order;
pub mod policy;
pub mod select;
pub mod text;
pub mod tag;
pub mod version;

//! Photo import and catalog logic: token templates, scanning and grouping, destination
//! planning, capture metadata tidying, and the catalog's query and naming rules.

pub mod text;
pub mod datetime;
pub mod meta;
pub mod template;
pub mod paths;
pub mod scan;
pub mod config;
pub mod plan;
pub mod catalog;
pub mod query;
pub mod print;
pub mod decode;
pub mod video;
pub mod film;
pub mod look;
pub mod manifest;
pub mod job;
pub mod strindex;
pub mod index;
pub mod link;
pub mod sequence;
pub mod dupes;
pub mod tree;
pub mod import_dupes;
pub mod thumbs;

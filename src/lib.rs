//! Fetch pipeline of a repository showcase: response classification,
//! link-relation pagination, the language color table and the join of
//! repositories with their colors.

pub mod gh;
pub mod link;
pub mod paginate;
pub mod colors;
pub mod repos;

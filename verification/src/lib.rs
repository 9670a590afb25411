//! A personal-blog content platform core: a content store that records every
//! mutation as a hash-chained commit record, and a synchronization protocol
//! that reconciles two replicas of the store by replaying missing commits.

pub mod block_tree;
pub mod digest;
pub mod doc;
pub mod html;
pub mod models;
pub mod notion;
pub mod pagination;
pub mod render;
pub mod store;
pub mod sync;
pub mod wire;

pub use pagination::PaginatedList;
pub use pagination::Pagination;

//! Content pipeline of a small blog: parsing the metadata header of a post
//! file, building the ordered index of published posts, and formatting
//! syndication entries.
pub mod feed;
pub mod frontmatter;
pub mod repository;
pub mod trusted;

pub use frontmatter::FrontMatter;
pub use frontmatter::FrontmatterError;
pub use frontmatter::Timestamp;
pub use repository::AppState;

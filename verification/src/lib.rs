//! A static site generator, verified.
//!
//! The library turns the Markdown documents of a content directory into the
//! model of a site: pages with their titles and descriptions, a blog ordered
//! by publish date with an index of its tags, and the feed of the blog. Link
//! and image targets are rewritten into root-relative, extension-free URLs.
//!
//! Reading files, walking the version-control history and writing pages is
//! left to the program around the library, which hands it plain values.

pub mod blog;
pub mod blog_name;
pub mod config;
pub mod date;
pub mod dialect;
pub mod error;
pub mod feed;
pub mod history;
pub mod link;
pub mod markdown;
pub mod pages;
pub mod path;
pub mod site;
pub mod text;

pub use blog::{BlogCommit, BlogEntry};
pub use blog_name::parse_blog_file_name;
pub use config::{tag_to_link, Config, Footer, Header, Link};
pub use dialect::default_option;
pub use error::Error;
pub use history::git_time_to_datetime;
pub use markdown::{read_md, Markdown, MarkdownMeta};
pub use site::{build, Generator};

//! The site configuration and the fixed places of a site.

use vstd::prelude::*;

verus! {

/// The configuration of a site.
#[derive(Debug, PartialEq, Eq)]
pub struct Config {
    pub author: String,
    pub author_email: String,
    pub site_name: String,
    pub site_url: String,
    pub commit_base_url: String,
    /// Root-relative paths that the build leaves out.
    pub skip: Vec<String>,
    pub header: Header,
    pub footer: Footer,
}

/// The header of every page.
#[derive(Debug, PartialEq, Eq)]
pub struct Header {
    pub home_name: String,
    pub links: Vec<Link>,
}

/// The footer of every page.
#[derive(Debug, PartialEq, Eq)]
pub struct Footer {
    pub links: Vec<Link>,
    pub cc: String,
}

/// A titled link of the header or the footer.
#[derive(Debug, PartialEq, Eq)]
pub struct Link {
    pub title: String,
    pub url: String,
}

/// The document that becomes the front page.
pub const HOME_MD: &'static str = "home.md";

/// The document that is served for unknown paths.
pub const NOT_FOUND_MD: &'static str = "not_found.md";

/// The directory of the blog entries.
pub const BLOG_DIR: &'static str = "blog";

/// The directory of the static assets.
pub const STATIC_DIR: &'static str = "static";

/// The URL of the index page of `tag`.
pub fn tag_to_link(tag: &str) -> (link: String)
    ensures
        link@ == "/blog/tags/"@ + tag@,
{
    let mut link = String::from_str("/blog/tags/");
    link.append(tag);
    link
}

/// The path of the site icon, where none is configured.
pub fn default_favicon_path() -> (path: String)
    ensures
        path@ == "favicon.ico"@,
{
    String::from_str("favicon.ico")
}

/// The path of the front page document, where none is configured.
pub fn default_home_md_path() -> (path: String)
    ensures
        path@ == "home.md"@,
{
    String::from_str("home.md")
}

/// The path of the document for unknown paths, where none is configured.
pub fn default_not_found_md_path() -> (path: String)
    ensures
        path@ == "not_found.md"@,
{
    String::from_str("not_found.md")
}

/// The directory of the blog entries, where none is configured.
pub fn default_blog_dir() -> (path: String)
    ensures
        path@ == "blog"@,
{
    String::from_str("blog")
}

/// The usage line of the program called `name`.
pub fn help(name: &str) -> (usage: String)
    ensures
        usage@ == "Usage: "@ + name@ + " <src-dir> <dst-dir>"@,
{
    let mut usage = String::from_str("Usage: ");
    usage.append(name);
    usage.append(" <src-dir> <dst-dir>");
    usage
}

} // verus!

//! What the pages of a site are made from: their places, titles and the
//! small decisions of their templates.

use vstd::prelude::*;
use crate::blog::{blog_file, blog_file_name, BlogCommit, BlogEntry};
use crate::config::Config;
use crate::date::Date;
use crate::link::{blog_url, lemma_file_name_is_suffix};
use crate::markdown::Markdown;
use crate::path::{extension, extension_dot, file_name, file_name_of, find_extension_dot};
use crate::text::{
    begins_with, copy_option, copy_texts, option_view, same_text, starts_with, texts, trim,
    trim_both, Trim,
};

verus! {

/// `path` without the extension of its file name.
pub open spec fn without_extension(path: Seq<char>) -> Seq<char> {
    let name = file_name(path);
    if extension_dot(name) == 0 {
        path
    } else {
        path.take(path.len() - (name.len() - extension_dot(name)))
    }
}

/// The place of the page made from the document at `md`: the file
/// `index.html` in a directory named like the document without its extension.
pub open spec fn html_path(md: Seq<char>) -> Seq<char> {
    if without_extension(md).len() == 0 {
        "index.html"@
    } else {
        without_extension(md) + "/index.html"@
    }
}

/// `abc.md` becomes `abc/index.html`, `aaa/abc.md` becomes
/// `aaa/abc/index.html`.
pub fn md_to_html_path(md: &str) -> (path: String)
    ensures
        path@ == html_path(md@),
{
    let name = file_name_of(md);
    let dot = find_extension_dot(name);
    let n = md.unicode_len();
    proof {
        lemma_file_name_is_suffix(md@);
    }
    let keep = if dot == 0 {
        n
    } else {
        n - (name.unicode_len() - dot)
    };
    if keep == 0 {
        return String::from_str("index.html");
    }
    let mut path = String::from_str(md.substring_char(0, keep));
    proof {
        assert(md@.subrange(0, keep as int) == md@.take(keep as int));
        assert(md@.take(n as int) == md@);
    }
    path.append("/index.html");
    path
}

/// The title of a page of the site: the page's own title, then the author.
pub fn title_with_author(title: &str, author: &str) -> (full: String)
    ensures
        full@ == title@ + " - "@ + author@,
{
    let mut full = String::from_str(title);
    full.append(" - ");
    full.append(author);
    full
}

/// A page of the site, before it is laid out.
#[derive(Debug, PartialEq, Eq)]
pub struct Page {
    /// Where the page is written, relative to the root of the site.
    pub html_path: String,
    pub title: String,
    pub description: Option<String>,
    pub author: String,
}

/// What a `Page` holds, as characters.
pub struct PageContent {
    pub html_path: Seq<char>,
    pub title: Seq<char>,
    pub description: Option<Seq<char>>,
    pub author: Seq<char>,
}

impl View for Page {
    type V = PageContent;

    open spec fn view(&self) -> PageContent {
        PageContent {
            html_path: self.html_path@,
            title: self.title@,
            description: option_view(self.description),
            author: self.author@,
        }
    }
}

/// The page of the document at `rel_path`. The front page carries the name of
/// the site as its title; every other page its own title and the author.
pub fn markdown_page(md: &Markdown, rel_path: &str, config: &Config) -> (page: Page)
    ensures
        page@ == (PageContent {
            html_path: html_path(rel_path@),
            title: if rel_path@ == "home.md"@ {
                config.site_name@
            } else {
                md.meta.title@ + " - "@ + config.author@
            },
            description: option_view(md.meta.description_md),
            author: config.author@,
        }),
{
    let title = if same_text(rel_path, "home.md") {
        config.site_name.clone()
    } else {
        title_with_author(md.meta.title.as_str(), config.author.as_str())
    };
    Page {
        html_path: md_to_html_path(rel_path),
        title,
        description: copy_option(&md.meta.description_md),
        author: config.author.clone(),
    }
}

/// The page of a blog entry, served at `/blog/` and the entry's slug.
pub fn blog_page(blog: &BlogEntry, config: &Config) -> (page: Page)
    ensures
        page@ == (PageContent {
            html_path: "blog/"@ + blog.slug@ + "/index.html"@,
            title: blog.markdown.meta.title@ + " - "@ + config.author@,
            description: option_view(blog.markdown.meta.description_md),
            author: config.author@,
        }),
{
    let mut html_path = String::from_str("blog/");
    html_path.append(blog.slug.as_str());
    html_path.append("/index.html");
    Page {
        html_path,
        title: title_with_author(blog.markdown.meta.title.as_str(), config.author.as_str()),
        description: copy_option(&blog.markdown.meta.description_md),
        author: config.author.clone(),
    }
}

/// The page that lists all blog entries.
pub fn blog_home_page(config: &Config) -> (page: Page)
    ensures
        page@ == (PageContent {
            html_path: "blog/index.html"@,
            title: "blog"@ + " - "@ + config.author@,
            description: Some("blog"@),
            author: config.author@,
        }),
{
    Page {
        html_path: String::from_str("blog/index.html"),
        title: title_with_author("blog", config.author.as_str()),
        description: Some(String::from_str("blog")),
        author: config.author.clone(),
    }
}

/// The page that lists the blog entries of `tag`.
pub fn blog_tag_page(tag: &str, config: &Config) -> (page: Page)
    ensures
        page@ == (PageContent {
            html_path: "blog/tags/"@ + tag@ + "/index.html"@,
            title: "#"@ + tag@ + " - "@ + config.author@,
            description: Some("#"@ + tag@ + " - "@ + config.author@),
            author: config.author@,
        }),
{
    let mut html_path = String::from_str("blog/tags/");
    html_path.append(tag);
    html_path.append("/index.html");
    let mut name = String::from_str("#");
    name.append(tag);
    let title = title_with_author(name.as_str(), config.author.as_str());
    Page { html_path, description: Some(title.clone()), title, author: config.author.clone() }
}

/// A blog entry as the lists of entries show it.
#[derive(Debug, PartialEq, Eq)]
pub struct BlogListEntry {
    pub publish_time: Date,
    pub title: String,
    /// The address of the entry on the site.
    pub url: String,
    pub tags: Vec<String>,
}

impl BlogEntry {
    /// The entry as the lists of entries show it.
    pub fn as_page(&self) -> (shown: BlogListEntry)
        ensures
            shown.publish_time == self.time,
            shown.title@ == self.markdown.meta.title@,
            shown.url@ == blog_url(self.slug@),
            texts(shown.tags@) == self.tags(),
    {
        proof {
            reveal_strlit("/blog/");
            assert("/blog/"@ =~= seq!['/', 'b', 'l', 'o', 'g', '/']);
        }
        let mut url = String::from_str("/blog/");
        url.append(self.slug.as_str());
        BlogListEntry {
            publish_time: self.time,
            title: self.markdown.meta.title.clone(),
            url,
            tags: copy_texts(&self.markdown.meta.tags),
        }
    }

    /// The newest commit of the entry, with the address under which commits
    /// are shown.
    pub fn last_commit(&self, base_url: &str) -> (commit: Option<BlogCommit>)
        ensures
            commit is Some <==> self.commits@.len() > 0,
            commit matches Some(c) ==> c.time == self.commits@[0].time && c.hash@
                == self.commits@[0].hash@ && option_view(c.summary) == option_view(
                self.commits@[0].summary,
            ) && c.base_url@ == base_url@,
    {
        if self.commits.len() == 0 {
            None
        } else {
            let newest = &self.commits[0];
            Some(
                BlogCommit {
                    time: newest.time,
                    hash: newest.hash.clone(),
                    summary: copy_option(&newest.summary),
                    base_url: String::from_str(base_url),
                },
            )
        }
    }

    /// The day on which the entry was last updated: the day of its newest
    /// commit, on the clock that recorded it, or the publish date where the
    /// entry has no history.
    pub fn last_update_date(&self) -> (date: Date)
        ensures
            date == if self.commits@.len() > 0 {
                self.commits@[0].time.date
            } else {
                self.time
            },
    {
        if self.commits.len() > 0 {
            self.commits[0].time.date
        } else {
            self.time
        }
    }
}

/// Whether the header link to `link_url` leads to the page at `active_url`, or
/// to a page above it: the page's path starts with the link without its
/// surrounding slashes.
pub fn is_active(link_url: &str, active_url: Option<&str>) -> (active: bool)
    ensures
        active == match active_url {
            Some(url) => begins_with(url@, trim_both(link_url@, Trim::Slashes)),
            None => false,
        },
{
    match active_url {
        Some(url) => starts_with(url, trim(link_url, Trim::Slashes)),
        None => false,
    }
}

/// The first seven characters of a commit hash, or all of a shorter one.
pub fn short_hash(hash: &str) -> (short: &str)
    ensures
        short@ == if hash@.len() >= 7 {
            hash@.take(7)
        } else {
            hash@
        },
{
    if hash.unicode_len() >= 7 {
        let short = hash.substring_char(0, 7);
        proof {
            assert(hash@.subrange(0, 7) == hash@.take(7));
        }
        short
    } else {
        hash
    }
}

/// The address under which the commit `hash` is shown.
pub fn commit_url(base_url: &str, hash: &str) -> (url: String)
    ensures
        url@ == base_url@ + "/"@ + hash@,
{
    let mut url = String::from_str(base_url);
    url.append("/");
    url.append(hash);
    url
}

/// Whether the build leaves the root-relative path `rel_path` out: the
/// version-control directory, the spelling settings, the README and the
/// site configuration.
pub fn is_reserved(rel_path: &str) -> (reserved: bool)
    ensures
        reserved == (rel_path@ == ".git"@ || rel_path@ == ".cspell.yaml"@ || rel_path@
            == "README.md"@ || rel_path@ == "config.yaml"@),
{
    same_text(rel_path, ".git") || same_text(rel_path, ".cspell.yaml") || same_text(
        rel_path,
        "README.md",
    ) || same_text(rel_path, "config.yaml")
}

/// What the build does with a file.
#[derive(Clone, Copy, Debug, PartialEq, Eq, Structural)]
pub enum FileKind {
    /// A Markdown file directly in the blog directory: the source of a blog
    /// entry.
    Blog,
    /// Any other Markdown document: it becomes a page.
    Page,
    /// Any other file: it is copied.
    Asset,
}

/// What the build does with the file at the root-relative path `path`.
pub open spec fn kind_of(path: Seq<char>) -> FileKind {
    if extension(file_name(path)) != Some(seq!['m', 'd']) {
        FileKind::Asset
    } else if blog_file(path) is Some {
        FileKind::Blog
    } else {
        FileKind::Page
    }
}

/// Tells what the build does with the file at the root-relative path `rel_path`.
pub fn handle_file(rel_path: &str) -> (kind: FileKind)
    ensures
        kind == kind_of(rel_path@),
{
    if !crate::link::has_md_extension(rel_path) {
        FileKind::Asset
    } else if blog_file_name(rel_path).is_some() {
        FileKind::Blog
    } else {
        FileKind::Page
    }
}

} // verus!

//! The failures of the content pipeline.

use vstd::prelude::*;

verus! {

/// Why a build failed. Every failure names the source file it belongs to; a
/// link failure also names the link text.
#[derive(Debug, PartialEq, Eq)]
pub enum Error {
    /// The metadata block of `path` is present but is not valid structured
    /// data.
    Parse { path: String },
    /// `path` has neither a metadata title nor a level-1 heading.
    MissingTitle { path: String },
    /// `link`, written in `document`, points outside the content root.
    InvalidLinkTarget { document: String, link: String },
    /// `name` is not of the form `YYYY-MM-DD-slug` with a real calendar date.
    InvalidBlogFilename { name: String },
    /// The history of `path` could not be read.
    HistoryLookup { path: String },
    /// More than one blog entry has the slug `slug`.
    DuplicateSlug { slug: String },
}

impl Error {
    /// What the message of this failure says.
    pub open spec fn text(self) -> Seq<char> {
        match self {
            Error::Parse { path } => "failed to parse the document: "@ + path@,
            Error::MissingTitle { path } => "cannot get title: "@ + path@,
            Error::InvalidLinkTarget { document, link } => "the link `"@ + link@
                + "` leaves the content root, in "@ + document@,
            Error::InvalidBlogFilename { name } => "expected the filename to have the format \"yyyy-mm-dd-blog-name\": "@
                + name@,
            Error::HistoryLookup { path } => "cannot read the history of "@ + path@,
            Error::DuplicateSlug { slug } => "more than one blog entry has the slug "@ + slug@,
        }
    }

    /// The message that tells a user of the build what went wrong, and where.
    pub fn message(&self) -> (message: String)
        ensures
            message@ == self.text(),
    {
        match self {
            Error::Parse { path } => {
                let mut message = String::from_str("failed to parse the document: ");
                message.append(path.as_str());
                message
            },
            Error::MissingTitle { path } => {
                let mut message = String::from_str("cannot get title: ");
                message.append(path.as_str());
                message
            },
            Error::InvalidLinkTarget { document, link } => {
                let mut message = String::from_str("the link `");
                message.append(link.as_str());
                message.append("` leaves the content root, in ");
                message.append(document.as_str());
                message
            },
            Error::InvalidBlogFilename { name } => {
                let mut message = String::from_str(
                    "expected the filename to have the format \"yyyy-mm-dd-blog-name\": ",
                );
                message.append(name.as_str());
                message
            },
            Error::HistoryLookup { path } => {
                let mut message = String::from_str("cannot read the history of ");
                message.append(path.as_str());
                message
            },
            Error::DuplicateSlug { slug } => {
                let mut message = String::from_str("more than one blog entry has the slug ");
                message.append(slug.as_str());
                message
            },
        }
    }
}

} // verus!

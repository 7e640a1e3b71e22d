//! Markdown documents: the parsed outline of a document, and the content
//! extracted from it.

use vstd::prelude::*;
use crate::dialect::{comrak_options, default_option, recognized, Dialect, DialectContent};
use crate::error::Error;
use crate::link::{rewrite_target, rewritten, TargetKind};
use crate::text::{option_view, texts, trim, trim_back, trim_both, trim_end, Trim};

verus! {

/// One node of a parsed document, with what the pipeline reads of it.
#[derive(Debug, PartialEq, Eq)]
pub enum Node {
    /// The leading metadata block, fences included.
    FrontMatter(String),
    /// A heading of the given level.
    Heading(u8),
    Paragraph,
    /// A link, with its target.
    Link(String),
    /// An image, with its target.
    Image(String),
    /// Any other node.
    Other,
}

/// What a `Node` holds, as characters.
pub enum NodeContent {
    FrontMatter(Seq<char>),
    Heading(u8),
    Paragraph,
    Link(Seq<char>),
    Image(Seq<char>),
    Other,
}

impl View for Node {
    type V = NodeContent;

    open spec fn view(&self) -> NodeContent {
        match self {
            Node::FrontMatter(block) => NodeContent::FrontMatter(block@),
            Node::Heading(level) => NodeContent::Heading(*level),
            Node::Paragraph => NodeContent::Paragraph,
            Node::Link(target) => NodeContent::Link(target@),
            Node::Image(target) => NodeContent::Image(target@),
            Node::Other => NodeContent::Other,
        }
    }
}

/// What the nodes of a list hold, as characters.
pub open spec fn node_views(nodes: Seq<Node>) -> Seq<NodeContent> {
    nodes.map_values(|node: Node| node@)
}

/// The nodes of the document `text` in document order, as `comrak` parses it
/// under `dialect`.
pub uninterp spec fn outline_of(text: Seq<char>, dialect: DialectContent) -> Seq<NodeContent>;

/// The Markdown that `comrak` writes for the node at `index` of the document
/// `text`, where the document has such a node.
pub uninterp spec fn commonmark_of(text: Seq<char>, dialect: DialectContent, index: int) -> Seq<
    char,
>;

/// The HTML that `comrak` writes for the document `text`, found at the
/// root-relative path `document`, with highlighted code blocks.
pub uninterp spec fn html_of(
    text: Seq<char>,
    dialect: DialectContent,
    document: Seq<char>,
) -> Seq<char>;

/// The HTML that `comrak` writes for the Markdown fragment `text`, written in
/// the document at the root-relative path `document`.
pub uninterp spec fn fragment_html_of(
    text: Seq<char>,
    dialect: DialectContent,
    document: Seq<char>,
) -> Seq<char>;

/// The target that stands in the rendered page for `target`, written in
/// `document`: the rewritten target, or `target` itself where it cannot be
/// rewritten.
pub open spec fn rewritten_or_same(document: Seq<char>, target: Seq<char>, kind: TargetKind) -> Seq<
    char,
> {
    match rewritten(document, target, kind) {
        Some(url) => url,
        None => target,
    }
}

/// Rewrites `target` where that is possible and returns it unchanged
/// otherwise. It is what the renderer hands every target to; a document is
/// rendered only after `check_targets` has found that each of its targets can
/// be rewritten, so that none is kept silently.
pub fn rewrite_or_keep(document: &str, target: &str, kind: TargetKind) -> (url: String)
    ensures
        url@ == rewritten_or_same(document@, target@, kind),
{
    match rewrite_target(document, target, kind) {
        Ok(url) => url,
        Err(_) => String::from_str(target),
    }
}

/// A Markdown document that is ready to be parsed: its root-relative path, its
/// text, and the dialect it is written in.
///
/// A source is made by `MarkdownSource::new` and nowhere else, so that
/// `options` is always what `comrak` is to be handed for `dialect` and
/// `file_path`: the settings of the dialect, and the rewriters of targets for
/// a document at that path.
pub struct MarkdownSource {
    file_path: String,
    content: String,
    dialect: Dialect,
    options: comrak::Options<'static>,
}

/// Sets the two URL rewriters of `comrak`'s option record: when `comrak`
/// writes HTML it hands each link target and each image target to
/// `rewrite_or_keep`, for the document at `document`.
#[verifier::external_body]
fn with_rewriters(options: comrak::Options<'static>, document: &str) -> comrak::Options<'static> {
    let mut options = options;
    let (links, images) = (document.to_owned(), document.to_owned());
    options.extension.link_url_rewriter = Some(std::sync::Arc::new(
        move |url: &str| rewrite_or_keep(&links, url, TargetKind::Link),
    ));
    options.extension.image_url_rewriter = Some(std::sync::Arc::new(
        move |url: &str| rewrite_or_keep(&images, url, TargetKind::Image),
    ));
    options
}

/// `comrak::parse_document`, with each node of the tree, in document order,
/// reduced to what the pipeline reads of it. The source must have been made by
/// `MarkdownSource::new`, so that its options are those of its dialect.
#[verifier::external_body]
fn outline(source: &MarkdownSource, text: &str) -> (nodes: Vec<Node>)
    ensures
        node_views(nodes@) == outline_of(text@, source.dialect@),
{
    let arena = comrak::Arena::new();
    let root = comrak::parse_document(&arena, text, &source.options);
    root.descendants().map(|node| match &node.data.borrow().value {
        comrak::nodes::NodeValue::FrontMatter(block) => Node::FrontMatter(block.clone()),
        comrak::nodes::NodeValue::Heading(heading) => Node::Heading(heading.level),
        comrak::nodes::NodeValue::Paragraph => Node::Paragraph,
        comrak::nodes::NodeValue::Link(link) => Node::Link(link.url.clone()),
        comrak::nodes::NodeValue::Image(image) => Node::Image(image.url.clone()),
        _ => Node::Other,
    }).collect()
}

/// `comrak::parse_document` and `comrak::format_commonmark`, on the node at
/// `index` of the tree in document order. Claimed of it: every node of the
/// tree can be written, since writing fails only where the text cannot be
/// taken, and a `String` takes all text.
#[verifier::external_body]
fn node_commonmark(source: &MarkdownSource, text: &str, index: usize) -> (markdown: Option<String>)
    ensures
        markdown is Some <==> index < outline_of(text@, source.dialect@).len(),
        markdown is Some ==> option_view(markdown) == Some(
            commonmark_of(text@, source.dialect@, index as int),
        ),
{
    let arena = comrak::Arena::new();
    let root = comrak::parse_document(&arena, text, &source.options);
    let node = root.descendants().nth(index)?;
    let mut markdown = String::new();
    comrak::format_commonmark(node, &source.options, &mut markdown).ok()?;
    Some(markdown)
}

/// `comrak::parse_document` and `comrak::format_html_with_plugins`, with
/// `comrak`'s `SyntectAdapter`, made without a theme, as the highlighter of
/// code blocks. Claimed of it: the document can always be written, since
/// writing fails only where the text cannot be taken, and a `String` takes
/// all text.
#[verifier::external_body]
fn document_html(source: &MarkdownSource, text: &str) -> (html: Option<String>)
    ensures
        option_view(html) == Some(html_of(text@, source.dialect@, source.file_path@)),
{
    let arena = comrak::Arena::new();
    let root = comrak::parse_document(&arena, text, &source.options);
    let adapter = comrak::plugins::syntect::SyntectAdapter::new(None);
    let mut plugins = comrak::options::Plugins::default();
    plugins.render.codefence_syntax_highlighter = Some(&adapter);
    let mut html = String::new();
    comrak::format_html_with_plugins(root, &source.options, &mut html, &plugins).ok()?;
    Some(html)
}

/// `comrak::markdown_to_html`.
#[verifier::external_body]
fn fragment_html(source: &MarkdownSource, text: &str) -> (html: String)
    ensures
        html@ == fragment_html_of(text@, source.dialect@, source.file_path@),
{
    comrak::markdown_to_html(text, &source.options)
}

impl MarkdownSource {
    /// The root-relative path of the document.
    pub closed spec fn file_path(&self) -> Seq<char> {
        self.file_path@
    }

    /// The text of the document.
    pub closed spec fn content(&self) -> Seq<char> {
        self.content@
    }

    /// The dialect that the document is written in.
    pub closed spec fn dialect(&self) -> DialectContent {
        self.dialect@
    }

    /// The outline that parsing the document gives.
    pub open spec fn parsed(&self) -> Seq<NodeContent> {
        outline_of(self.content(), self.dialect())
    }

    /// The document at the root-relative path `file_path` with the text
    /// `content`, written in `dialect`.
    pub fn new(file_path: &str, content: &str, dialect: Dialect) -> (source: MarkdownSource)
        ensures
            source.file_path() == file_path@,
            source.content() == content@,
            source.dialect() == dialect@,
    {
        let options = with_rewriters(comrak_options(&dialect), file_path);
        MarkdownSource {
            file_path: String::from_str(file_path),
            content: String::from_str(content),
            dialect,
            options,
        }
    }

    /// Parses the document into its outline.
    pub fn parse(&self) -> (ast: MarkdownAst<'_>)
        ensures
            ast.is_parsed(),
            ast.keeps_shape(),
            ast.source() == self,
    {
        MarkdownAst { source: self, nodes: outline(self, self.content.as_str()) }
    }
}

/// The metadata of a document, as its leading block states it.
#[derive(Debug, PartialEq, Eq)]
pub struct Frontmatter {
    pub title: Option<String>,
    pub description: Option<String>,
    pub tags: Vec<String>,
}

/// What a `Frontmatter` states, as characters.
pub struct FrontmatterContent {
    pub title: Option<Seq<char>>,
    pub description: Option<Seq<char>>,
    pub tags: Seq<Seq<char>>,
}

impl View for Frontmatter {
    type V = FrontmatterContent;

    open spec fn view(&self) -> FrontmatterContent {
        FrontmatterContent {
            title: option_view(self.title),
            description: option_view(self.description),
            tags: texts(self.tags@),
        }
    }
}

impl Default for Frontmatter {
    /// The metadata of a document without a metadata block: no title, no
    /// description, no tags.
    fn default() -> (frontmatter: Frontmatter)
        ensures
            frontmatter.title is None,
            frontmatter.description is None,
            frontmatter.tags@.len() == 0,
    {
        Frontmatter { title: None, description: None, tags: Vec::new() }
    }
}

/// What reading the metadata block of a document as structured data gave.
#[derive(Debug, PartialEq, Eq)]
pub enum Metadata {
    /// The document has no metadata block.
    Missing,
    /// The block is not valid structured data.
    Malformed,
    /// The block holds this metadata.
    Parsed(Frontmatter),
}

/// The content extracted from a document.
#[derive(Debug, PartialEq, Eq)]
pub struct MarkdownMeta {
    /// The title, as Markdown.
    pub title: String,
    /// The title, rendered as HTML.
    pub title_html: String,
    pub description_md: Option<String>,
    pub description_html: Option<String>,
    pub tags: Vec<String>,
}

/// What a `MarkdownMeta` holds, as characters.
pub struct MetaContent {
    pub title: Seq<char>,
    pub title_html: Seq<char>,
    pub description_md: Option<Seq<char>>,
    pub description_html: Option<Seq<char>>,
    pub tags: Seq<Seq<char>>,
}

impl View for MarkdownMeta {
    type V = MetaContent;

    open spec fn view(&self) -> MetaContent {
        MetaContent {
            title: self.title@,
            title_html: self.title_html@,
            description_md: option_view(self.description_md),
            description_html: option_view(self.description_html),
            tags: texts(self.tags@),
        }
    }
}

/// A processed document: its extracted content and its rendered body.
#[derive(Debug, PartialEq, Eq)]
pub struct Markdown {
    pub meta: MarkdownMeta,
    pub html: String,
}

/// What a `Markdown` holds, as characters.
pub struct MarkdownContent {
    pub meta: MetaContent,
    pub html: Seq<char>,
}

impl View for Markdown {
    type V = MarkdownContent;

    open spec fn view(&self) -> MarkdownContent {
        MarkdownContent { meta: self.meta@, html: self.html@ }
    }
}

/// The kinds of node that content is extracted from.
#[derive(Clone, Copy, Debug, PartialEq, Eq, Structural)]
pub enum Wanted {
    /// The metadata block.
    FrontMatter,
    /// A heading of level 1.
    Title,
    /// A paragraph.
    Paragraph,
}

/// Whether `node` is of the kind `what`.
pub open spec fn is_wanted(node: NodeContent, what: Wanted) -> bool {
    match what {
        Wanted::FrontMatter => node is FrontMatter,
        Wanted::Title => node == NodeContent::Heading(1),
        Wanted::Paragraph => node is Paragraph,
    }
}

/// Whether the node at `index` is the first of the kind `what` in document order.
pub open spec fn is_first(nodes: Seq<NodeContent>, what: Wanted, index: int) -> bool {
    &&& 0 <= index < nodes.len()
    &&& is_wanted(nodes[index], what)
    &&& forall|j: int| 0 <= j < index ==> !is_wanted(#[trigger] nodes[j], what)
}

/// The index of the first node of the kind `what`, if there is one.
pub open spec fn first_index(nodes: Seq<NodeContent>, what: Wanted) -> Option<int> {
    if exists|i: int| is_first(nodes, what, i) {
        Some(choose|i: int| is_first(nodes, what, i))
    } else {
        None
    }
}

/// Whether two nodes are of one kind: both links, both images, or the same
/// node.
pub open spec fn same_kind(a: NodeContent, b: NodeContent) -> bool {
    match a {
        NodeContent::Link(_) => b is Link,
        NodeContent::Image(_) => b is Image,
        _ => a == b,
    }
}

/// Whether `nodes` is `parsed` but for the targets of its links and images.
pub open spec fn has_shape_of(nodes: Seq<NodeContent>, parsed: Seq<NodeContent>) -> bool {
    &&& nodes.len() == parsed.len()
    &&& forall|i: int| 0 <= i < nodes.len() ==> same_kind(#[trigger] nodes[i], parsed[i])
}

/// The text of a metadata block between its fences: the block without
/// surrounding whitespace, without the hyphens around that, and without the
/// whitespace around that.
pub open spec fn unfenced(block: Seq<char>) -> Seq<char> {
    trim_both(trim_both(trim_both(block, Trim::Whitespace), Trim::Hyphens), Trim::Whitespace)
}

/// The text of a level-1 heading, given the Markdown written for it: what
/// follows the two characters of the marker `# `, without trailing whitespace.
pub open spec fn heading_text(markdown: Seq<char>) -> Seq<char> {
    trim_back(
        if markdown.len() >= 2 {
            markdown.skip(2)
        } else {
            Seq::<char>::empty()
        },
        Trim::Whitespace,
    )
}

/// The text between the fences of the metadata block of a document with the
/// outline `nodes`, if it has one.
pub open spec fn frontmatter_source(nodes: Seq<NodeContent>) -> Option<Seq<char>> {
    match first_index(nodes, Wanted::FrontMatter) {
        Some(i) => Some(unfenced(nodes[i]->FrontMatter_0)),
        None => None,
    }
}

/// The title that the body of the document `text` gives: the text of its first
/// level-1 heading. `None` exactly when it has no such heading.
pub open spec fn heading_title(text: Seq<char>, dialect: DialectContent) -> Option<Seq<char>> {
    match first_index(outline_of(text, dialect), Wanted::Title) {
        Some(i) => Some(heading_text(commonmark_of(text, dialect, i))),
        None => None,
    }
}

/// The description that the body of the document `text` gives: its first
/// paragraph, as Markdown. `None` exactly when it has no paragraph.
pub open spec fn paragraph_description(text: Seq<char>, dialect: DialectContent) -> Option<
    Seq<char>,
> {
    match first_index(outline_of(text, dialect), Wanted::Paragraph) {
        Some(i) => Some(commonmark_of(text, dialect, i)),
        None => None,
    }
}

/// The first of two optional values that is present.
pub open spec fn or_else(first: Option<Seq<char>>, second: Option<Seq<char>>) -> Option<
    Seq<char>,
> {
    match first {
        Some(_) => first,
        None => second,
    }
}

/// The metadata that counts for a document with the outline `nodes`, where
/// reading its metadata block gave `metadata`: the metadata of the block, no
/// metadata where the document has no block, and `None` where it has a block
/// that could not be read.
pub open spec fn effective(nodes: Seq<NodeContent>, metadata: Metadata) -> Option<
    FrontmatterContent,
> {
    if first_index(nodes, Wanted::FrontMatter) is None {
        Some(FrontmatterContent { title: None, description: None, tags: Seq::empty() })
    } else {
        match metadata {
            Metadata::Parsed(frontmatter) => Some(frontmatter@),
            _ => None,
        }
    }
}

/// The target of a link or an image.
pub open spec fn target_of(node: NodeContent) -> Option<(Seq<char>, TargetKind)> {
    match node {
        NodeContent::Link(target) => Some((target, TargetKind::Link)),
        NodeContent::Image(target) => Some((target, TargetKind::Image)),
        _ => None,
    }
}

/// The targets of the links and images of an outline, in document order.
pub open spec fn targets_of(nodes: Seq<NodeContent>) -> Seq<(Seq<char>, TargetKind)>
    decreases nodes.len(),
{
    if nodes.len() == 0 {
        Seq::<(Seq<char>, TargetKind)>::empty()
    } else {
        match target_of(nodes.last()) {
            Some(target) => targets_of(nodes.drop_last()).push(target),
            None => targets_of(nodes.drop_last()),
        }
    }
}

/// The characters of a list of targets.
pub open spec fn target_views(targets: Seq<(String, TargetKind)>) -> Seq<(Seq<char>, TargetKind)> {
    targets.map_values(|target: (String, TargetKind)| (target.0@, target.1))
}

/// Whether the node at `index` holds a target that leaves the content root
/// when it is written in `document`.
pub open spec fn escapes_at(nodes: Seq<NodeContent>, document: Seq<char>, index: int) -> bool {
    &&& 0 <= index < nodes.len()
    &&& target_of(nodes[index]) matches Some((target, kind)) && rewritten(document, target, kind)
        is None
}

/// Whether the node at `index` is the first whose target leaves the content root.
pub open spec fn is_first_escape(nodes: Seq<NodeContent>, document: Seq<char>, index: int) -> bool {
    &&& escapes_at(nodes, document, index)
    &&& forall|j: int| 0 <= j < index ==> !escapes_at(nodes, document, j)
}

/// The index of the first node whose target leaves the content root.
pub open spec fn first_escape(nodes: Seq<NodeContent>, document: Seq<char>) -> Option<int> {
    if exists|i: int| is_first_escape(nodes, document, i) {
        Some(choose|i: int| is_first_escape(nodes, document, i))
    } else {
        None
    }
}

/// The first target of `nodes`, in document order, that leaves the content
/// root when it is written in `document`.
pub open spec fn escaping_target(nodes: Seq<NodeContent>, document: Seq<char>) -> Option<
    Seq<char>,
> {
    match first_escape(nodes, document) {
        Some(i) => Some(target_of(nodes[i]).unwrap().0),
        None => None,
    }
}

/// Whether `after` is `before` with its target, if it has one, rewritten for
/// the document at `document`.
pub open spec fn is_rewritten(before: NodeContent, after: NodeContent, document: Seq<char>) -> bool {
    match before {
        NodeContent::Link(target) => after matches NodeContent::Link(url) && Some(url)
            == rewritten(document, target, TargetKind::Link),
        NodeContent::Image(target) => after matches NodeContent::Image(url) && Some(url)
            == rewritten(document, target, TargetKind::Image),
        _ => after == before,
    }
}

/// The ways in which processing a document fails.
pub enum Failure {
    /// The metadata block could not be read.
    Parse,
    /// The document has no title.
    MissingTitle,
    /// This target leaves the content root.
    InvalidLinkTarget(Seq<char>),
}

/// Whether `error` is the failure `failure` of the document at `file_path`.
pub open spec fn reports(error: Error, failure: Failure, file_path: Seq<char>) -> bool {
    match failure {
        Failure::Parse => error matches Error::Parse { path } && path@ == file_path,
        Failure::MissingTitle => error matches Error::MissingTitle { path } && path@
            == file_path,
        Failure::InvalidLinkTarget(target) => error matches Error::InvalidLinkTarget {
            document,
            link,
        } && document@ == file_path && link@ == target,
    }
}

/// The first target of the Markdown fragment `text` that leaves the content
/// root when the fragment is written in `document`.
pub open spec fn fragment_escape(text: Seq<char>, dialect: DialectContent, document: Seq<char>) -> Option<
    Seq<char>,
> {
    escaping_target(outline_of(text, dialect), document)
}

/// The content extracted from the document `text` at the root-relative path
/// `document`, whose metadata is `frontmatter`.
///
/// The title is that of the metadata, else that of the body; a document with
/// neither fails. The description is that of the metadata, else that of the
/// body, else absent. A target in the title, and then one in the description,
/// that leaves the content root fails the document.
pub open spec fn extracted(
    text: Seq<char>,
    dialect: DialectContent,
    document: Seq<char>,
    frontmatter: FrontmatterContent,
) -> Result<MetaContent, Failure> {
    let description_md = or_else(frontmatter.description, paragraph_description(text, dialect));
    match or_else(frontmatter.title, heading_title(text, dialect)) {
        None => Err(Failure::MissingTitle),
        Some(title) => match fragment_escape(title, dialect, document) {
            Some(target) => Err(Failure::InvalidLinkTarget(target)),
            None => match description_md {
                None => Ok(
                    MetaContent {
                        title,
                        title_html: fragment_html_of(title, dialect, document),
                        description_md: None,
                        description_html: None,
                        tags: frontmatter.tags,
                    },
                ),
                Some(description) => match fragment_escape(description, dialect, document) {
                    Some(target) => Err(Failure::InvalidLinkTarget(target)),
                    None => Ok(
                        MetaContent {
                            title,
                            title_html: fragment_html_of(title, dialect, document),
                            description_md: Some(description),
                            description_html: Some(
                                fragment_html_of(description, dialect, document),
                            ),
                            tags: frontmatter.tags,
                        },
                    ),
                },
            },
        },
    }
}

/// What processing the document `content` at `file_path` gives, where reading
/// its metadata block gave `metadata`: the failure, or the processed document.
pub open spec fn processed(file_path: Seq<char>, content: Seq<char>, metadata: Metadata) -> Result<
    MarkdownContent,
    Failure,
> {
    let nodes = outline_of(content, recognized());
    match effective(nodes, metadata) {
        None => Err(Failure::Parse),
        Some(frontmatter) => match extracted(content, recognized(), file_path, frontmatter) {
            Err(failure) => Err(failure),
            Ok(meta) => match escaping_target(nodes, file_path) {
                Some(target) => Err(Failure::InvalidLinkTarget(target)),
                None => Ok(
                    MarkdownContent { meta, html: html_of(content, recognized(), file_path) },
                ),
            },
        },
    }
}

/// The first target that leaves the content root is the one found first.
proof fn lemma_first_escape(nodes: Seq<NodeContent>, document: Seq<char>, index: int)
    requires
        is_first_escape(nodes, document, index),
    ensures
        first_escape(nodes, document) == Some(index),
{
    let chosen = choose|i: int| is_first_escape(nodes, document, i);
    if chosen < index {
        assert(!escapes_at(nodes, document, chosen));
    } else if chosen > index {
        assert(!escapes_at(nodes, document, index));
    }
}

/// Where no target leaves the content root, there is no first one.
proof fn lemma_no_escape(nodes: Seq<NodeContent>, document: Seq<char>)
    requires
        forall|j: int| 0 <= j < nodes.len() ==> !escapes_at(nodes, document, j),
    ensures
        first_escape(nodes, document) is None,
{
    if exists|i: int| is_first_escape(nodes, document, i) {
        let i = choose|i: int| is_first_escape(nodes, document, i);
        assert(escapes_at(nodes, document, i));
    }
}

/// The first node of a kind stands at one place in two outlines of one shape.
pub proof fn lemma_first_index_of_shape(
    nodes: Seq<NodeContent>,
    parsed: Seq<NodeContent>,
    what: Wanted,
)
    requires
        has_shape_of(nodes, parsed),
    ensures
        first_index(nodes, what) == first_index(parsed, what),
        first_index(nodes, what) matches Some(i) ==> is_first(nodes, what, i) && is_first(
            parsed,
            what,
            i,
        ) && (what == Wanted::FrontMatter ==> nodes[i] == parsed[i]),
{
    assert forall|i: int| 0 <= i < nodes.len() implies is_wanted(nodes[i], what) == is_wanted(
        parsed[i],
        what,
    ) by {
        assert(same_kind(nodes[i], parsed[i]));
    }
    assert forall|i: int| is_first(nodes, what, i) == is_first(parsed, what, i) by {
        if is_first(nodes, what, i) {
            assert forall|j: int| 0 <= j < i implies !is_wanted(#[trigger] parsed[j], what) by {
                assert(!is_wanted(nodes[j], what));
            }
        }
        if is_first(parsed, what, i) {
            assert forall|j: int| 0 <= j < i implies !is_wanted(#[trigger] nodes[j], what) by {
                assert(!is_wanted(parsed[j], what));
            }
        }
    }
    if exists|i: int| is_first(nodes, what, i) {
        let a = choose|i: int| is_first(nodes, what, i);
        let b = choose|i: int| is_first(parsed, what, i);
        assert(is_first(parsed, what, a));
        if a < b {
            assert(!is_wanted(parsed[a], what));
        } else if b < a {
            assert(!is_wanted(parsed[b], what));
        }
        assert(same_kind(nodes[a], parsed[a]));
    } else {
        if exists|i: int| is_first(parsed, what, i) {
            let b = choose|i: int| is_first(parsed, what, i);
            assert(is_first(nodes, what, b));
        }
    }
}

/// Finds the first target of `nodes` that leaves the content root when it is
/// written in `document`, and fails with it.
pub fn check_targets(nodes: &Vec<Node>, document: &str) -> (result: Result<(), Error>)
    ensures
        match escaping_target(node_views(nodes@), document@) {
            Some(target) => result matches Err(Error::InvalidLinkTarget { document: d, link })
                && d@ == document@ && link@ == target,
            None => result is Ok,
        },
        result is Ok <==> forall|j: int|
            0 <= j < nodes@.len() ==> !escapes_at(node_views(nodes@), document@, j),
{
    let mut i: usize = 0;
    while i < nodes.len()
        invariant
            i <= nodes.len(),
            forall|j: int| 0 <= j < i ==> !escapes_at(node_views(nodes@), document@, j),
        decreases nodes.len() - i,
    {
        let failure = match &nodes[i] {
            Node::Link(target) => rewrite_target(document, target.as_str(), TargetKind::Link),
            Node::Image(target) => rewrite_target(document, target.as_str(), TargetKind::Image),
            _ => Ok(String::new()),
        };
        proof {
            assert(node_views(nodes@)[i as int] == nodes@[i as int]@);
        }
        if let Err(error) = failure {
            proof {
                lemma_first_escape(node_views(nodes@), document@, i as int);
            }
            return Err(error);
        }
        i += 1;
    }
    proof {
        lemma_no_escape(node_views(nodes@), document@);
    }
    Ok(())
}

/// The outline of a parsed document.
pub struct MarkdownAst<'a> {
    source: &'a MarkdownSource,
    nodes: Vec<Node>,
}

impl<'a> MarkdownAst<'a> {
    /// The document that was parsed.
    pub closed spec fn source(&self) -> &'a MarkdownSource {
        self.source
    }

    /// The nodes in document order.
    pub closed spec fn nodes(&self) -> Seq<Node> {
        self.nodes@
    }

    /// What the nodes hold, in document order.
    pub open spec fn outline(&self) -> Seq<NodeContent> {
        node_views(self.nodes())
    }

    /// Whether the nodes are still those that parsing the source gave: no
    /// target has been rewritten.
    pub open spec fn is_parsed(&self) -> bool {
        self.outline() == self.source().parsed()
    }

    /// Whether the nodes are those that parsing the source gave, but for the
    /// targets of links and images, which may have been rewritten.
    pub open spec fn keeps_shape(&self) -> bool {
        has_shape_of(self.outline(), self.source().parsed())
    }

    /// The index of the first node of the kind `what` in document order.
    pub fn find_first_node(&self, what: Wanted) -> (found: Option<usize>)
        ensures
            found is Some <==> first_index(self.outline(), what) is Some,
            found matches Some(i) ==> first_index(self.outline(), what) == Some(i as int)
                && is_first(self.outline(), what, i as int),
    {
        let mut i: usize = 0;
        while i < self.nodes.len()
            invariant
                i <= self.nodes.len(),
                forall|j: int| 0 <= j < i ==> !is_wanted(#[trigger] self.outline()[j], what),
            decreases self.nodes.len() - i,
        {
            let hit = match (&self.nodes[i], what) {
                (Node::FrontMatter(_), Wanted::FrontMatter) => true,
                (Node::Heading(level), Wanted::Title) => *level == 1,
                (Node::Paragraph, Wanted::Paragraph) => true,
                _ => false,
            };
            proof {
                assert(self.outline()[i as int] == self.nodes@[i as int]@);
            }
            if hit {
                proof {
                    assert(is_first(self.outline(), what, i as int));
                    let chosen = choose|k: int| is_first(self.outline(), what, k);
                    assert(chosen == i) by {
                        if chosen < i {
                            assert(!is_wanted(self.outline()[chosen], what));
                        } else if chosen > i {
                            assert(!is_wanted(self.outline()[i as int], what));
                        }
                    }
                }
                return Some(i);
            }
            i += 1;
        }
        None
    }

    /// The Markdown of the node at `index`, written back from the source.
    /// Every node of the document can be written.
    pub fn node_to_markdown(&self, index: usize) -> (markdown: Option<String>)
        ensures
            markdown is Some <==> index < self.source().parsed().len(),
            markdown matches Some(m) ==> m@ == commonmark_of(
                self.source().content(),
                self.source().dialect(),
                index as int,
            ),
    {
        node_commonmark(self.source, self.source.content.as_str(), index)
    }

    /// The text between the fences of the metadata block, if the document has
    /// one. It is the text to be read as structured data.
    pub fn get_frontmatter(&self) -> (block: Option<String>)
        ensures
            option_view(block) == frontmatter_source(self.outline()),
    {
        match self.find_first_node(Wanted::FrontMatter) {
            Some(i) => match &self.nodes[i] {
                Node::FrontMatter(block) => {
                    proof {
                        assert(self.outline()[i as int] == self.nodes@[i as int]@);
                    }
                    let inner = trim(
                        trim(trim(block.as_str(), Trim::Whitespace), Trim::Hyphens),
                        Trim::Whitespace,
                    );
                    Some(String::from_str(inner))
                },
                _ => {
                    proof {
                        assert(self.outline()[i as int] == self.nodes@[i as int]@);
                    }
                    None
                },
            },
            None => None,
        }
    }

    /// The title that the body gives: the text of the first level-1 heading.
    /// `None` exactly when the document has no such heading.
    pub fn find_title(&self) -> (title: Option<String>)
        requires
            self.keeps_shape(),
        ensures
            option_view(title) == heading_title(self.source().content(), self.source().dialect()),
            title is None <==> first_index(self.source().parsed(), Wanted::Title) is None,
    {
        proof {
            lemma_first_index_of_shape(self.outline(), self.source().parsed(), Wanted::Title);
        }
        match self.find_first_node(Wanted::Title) {
            Some(i) => match self.node_to_markdown(i) {
                Some(markdown) => {
                    let text = markdown.as_str();
                    let n = text.unicode_len();
                    let body = if n >= 2 {
                        text.substring_char(2, n)
                    } else {
                        text.substring_char(0, 0)
                    };
                    proof {
                        assert(text@.subrange(2, n as int) == text@.skip(2));
                        assert(text@.subrange(0, 0) == Seq::<char>::empty());
                    }
                    Some(String::from_str(trim_end(body, Trim::Whitespace)))
                },
                None => None,
            },
            None => None,
        }
    }

    /// The description that the body gives: the first paragraph, as Markdown.
    /// `None` exactly when the document has no paragraph.
    pub fn find_description(&self) -> (description: Option<String>)
        requires
            self.keeps_shape(),
        ensures
            option_view(description) == paragraph_description(
                self.source().content(),
                self.source().dialect(),
            ),
            description is None <==> first_index(self.source().parsed(), Wanted::Paragraph)
                is None,
    {
        proof {
            lemma_first_index_of_shape(self.outline(), self.source().parsed(), Wanted::Paragraph);
        }
        match self.find_first_node(Wanted::Paragraph) {
            Some(i) => self.node_to_markdown(i),
            None => None,
        }
    }

    /// Renders the Markdown fragment `text`, written in this document, as
    /// HTML. A target of the fragment that leaves the content root is an
    /// error that names the document and the target.
    pub fn fragment_to_html(&self, text: &str) -> (result: Result<String, Error>)
        ensures
            match fragment_escape(text@, self.source().dialect(), self.source().file_path()) {
                Some(target) => result matches Err(
                    Error::InvalidLinkTarget { document, link },
                ) && document@ == self.source().file_path() && link@ == target,
                None => result matches Ok(html) && html@ == fragment_html_of(
                    text@,
                    self.source().dialect(),
                    self.source().file_path(),
                ),
            },
    {
        let nodes = outline(self.source, text);
        match check_targets(&nodes, self.source.file_path.as_str()) {
            Ok(()) => Ok(fragment_html(self.source, text)),
            Err(error) => Err(error),
        }
    }

    /// Extracts the title, the description and the tags of the document, where
    /// reading its metadata block as structured data gave `metadata`.
    ///
    /// The metadata wins over the body: the title is the metadata title, else
    /// the text of the first level-1 heading; the description is the metadata
    /// description, else the first paragraph, else absent. The tags are those
    /// of the metadata. A document with a metadata block that could not be
    /// read fails with `Error::Parse`; a document without any title fails with
    /// `Error::MissingTitle`; a title or a description with a target that
    /// leaves the content root fails with `Error::InvalidLinkTarget`.
    pub fn to_meta(&self, metadata: Metadata) -> (result: Result<MarkdownMeta, Error>)
        requires
            self.keeps_shape(),
        ensures
            match effective(self.source().parsed(), metadata) {
                None => result matches Err(e) && reports(
                    e,
                    Failure::Parse,
                    self.source().file_path(),
                ),
                Some(frontmatter) => match extracted(
                    self.source().content(),
                    self.source().dialect(),
                    self.source().file_path(),
                    frontmatter,
                ) {
                    Err(failure) => result matches Err(e) && reports(
                        e,
                        failure,
                        self.source().file_path(),
                    ),
                    Ok(meta) => result matches Ok(m) && m@ == meta,
                },
            },
    {
        proof {
            lemma_first_index_of_shape(self.outline(), self.source().parsed(), Wanted::FrontMatter);
        }
        let frontmatter = match self.find_first_node(Wanted::FrontMatter) {
            None => Frontmatter::default(),
            Some(_) => match metadata {
                Metadata::Parsed(frontmatter) => frontmatter,
                _ => {
                    return Err(Error::Parse { path: self.source.file_path.clone() });
                },
            },
        };
        proof {
            assert(frontmatter@ == effective(self.source().parsed(), metadata).unwrap()) by {
                if first_index(self.source().parsed(), Wanted::FrontMatter) is None {
                    assert(frontmatter@.tags =~= Seq::<Seq<char>>::empty());
                }
            }
        }
        let body_description = match &frontmatter.description {
            Some(_) => None,
            None => self.find_description(),
        };
        let title = match frontmatter.title {
            Some(title) => title,
            None => match self.find_title() {
                Some(title) => title,
                None => {
                    return Err(Error::MissingTitle { path: self.source.file_path.clone() });
                },
            },
        };
        let title_html = match self.fragment_to_html(title.as_str()) {
            Ok(html) => html,
            Err(error) => {
                return Err(error);
            },
        };
        let description_md = match frontmatter.description {
            Some(description) => Some(description),
            None => body_description,
        };
        let description_html = match &description_md {
            Some(description) => match self.fragment_to_html(description.as_str()) {
                Ok(html) => Some(html),
                Err(error) => {
                    return Err(error);
                },
            },
            None => None,
        };
        Ok(
            MarkdownMeta {
                title,
                title_html,
                description_md,
                description_html,
                tags: frontmatter.tags,
            },
        )
    }

    /// Replaces the target of every link of the outline by what `visit` gives
    /// for it. Every other node stays as it is.
    pub fn visit_links<F: Fn(&String) -> String>(&mut self, visit: F)
        requires
            forall|target: &String| call_requires(visit, (target,)),
        ensures
            final(self).source() == old(self).source(),
            final(self).nodes().len() == old(self).nodes().len(),
            forall|i: int|
                0 <= i < old(self).nodes().len() ==> match old(self).nodes()[i] {
                    Node::Link(target) => (#[trigger] final(self).nodes()[i]) matches Node::Link(
                        url,
                    ) && call_ensures(visit, (&target,), url),
                    _ => final(self).nodes()[i] == old(self).nodes()[i],
                },
            old(self).keeps_shape() ==> final(self).keeps_shape(),
    {
        let mut k: usize = 0;
        while k < self.nodes.len()
            invariant
                k <= self.nodes.len(),
                self.nodes@.len() == old(self).nodes@.len(),
                self.source == old(self).source,
                forall|target: &String| call_requires(visit, (target,)),
                forall|j: int| k <= j < self.nodes@.len() ==> self.nodes@[j] == old(self).nodes@[j],
                forall|j: int|
                    0 <= j < k ==> match old(self).nodes@[j] {
                        Node::Link(target) => (#[trigger] self.nodes@[j]) matches Node::Link(url)
                            && call_ensures(visit, (&target,), url),
                        _ => self.nodes@[j] == old(self).nodes@[j],
                    },
            decreases self.nodes.len() - k,
        {
            let replacement = match &self.nodes[k] {
                Node::Link(target) => Some(Node::Link(visit(target))),
                _ => None,
            };
            if let Some(node) = replacement {
                self.nodes.set(k, node);
            }
            k += 1;
        }
        proof {
            if old(self).keeps_shape() {
                assert forall|i: int| 0 <= i < self.outline().len() implies same_kind(
                    #[trigger] self.outline()[i],
                    self.source().parsed()[i],
                ) by {
                    assert(same_kind(old(self).outline()[i], old(self).source().parsed()[i]));
                    assert(self.outline()[i] == self.nodes@[i]@);
                    assert(old(self).outline()[i] == old(self).nodes@[i]@);
                }
            }
        }
    }

    /// Replaces the target of every image of the outline by what `visit`
    /// gives for it. Every other node stays as it is.
    pub fn visit_images<F: Fn(&String) -> String>(&mut self, visit: F)
        requires
            forall|target: &String| call_requires(visit, (target,)),
        ensures
            final(self).source() == old(self).source(),
            final(self).nodes().len() == old(self).nodes().len(),
            forall|i: int|
                0 <= i < old(self).nodes().len() ==> match old(self).nodes()[i] {
                    Node::Image(target) => (#[trigger] final(self).nodes()[i]) matches Node::Image(
                        url,
                    ) && call_ensures(visit, (&target,), url),
                    _ => final(self).nodes()[i] == old(self).nodes()[i],
                },
            old(self).keeps_shape() ==> final(self).keeps_shape(),
    {
        let mut k: usize = 0;
        while k < self.nodes.len()
            invariant
                k <= self.nodes.len(),
                self.nodes@.len() == old(self).nodes@.len(),
                self.source == old(self).source,
                forall|target: &String| call_requires(visit, (target,)),
                forall|j: int| k <= j < self.nodes@.len() ==> self.nodes@[j] == old(self).nodes@[j],
                forall|j: int|
                    0 <= j < k ==> match old(self).nodes@[j] {
                        Node::Image(target) => (#[trigger] self.nodes@[j]) matches Node::Image(
                            url,
                        ) && call_ensures(visit, (&target,), url),
                        _ => self.nodes@[j] == old(self).nodes@[j],
                    },
            decreases self.nodes.len() - k,
        {
            let replacement = match &self.nodes[k] {
                Node::Image(target) => Some(Node::Image(visit(target))),
                _ => None,
            };
            if let Some(node) = replacement {
                self.nodes.set(k, node);
            }
            k += 1;
        }
        proof {
            if old(self).keeps_shape() {
                assert forall|i: int| 0 <= i < self.outline().len() implies same_kind(
                    #[trigger] self.outline()[i],
                    self.source().parsed()[i],
                ) by {
                    assert(same_kind(old(self).outline()[i], old(self).source().parsed()[i]));
                    assert(self.outline()[i] == self.nodes@[i]@);
                    assert(old(self).outline()[i] == old(self).nodes@[i]@);
                }
            }
        }
    }

    /// The targets of the links and images of the outline, in document order.
    pub fn targets(&self) -> (found: Vec<(String, TargetKind)>)
        ensures
            target_views(found@) == targets_of(self.outline()),
    {
        let mut found: Vec<(String, TargetKind)> = Vec::new();
        let mut i: usize = 0;
        proof {
            assert(self.outline().take(0).len() == 0);
            assert(target_views(found@) =~= targets_of(self.outline().take(0)));
        }
        while i < self.nodes.len()
            invariant
                i <= self.nodes.len(),
                target_views(found@) == targets_of(self.outline().take(i as int)),
            decreases self.nodes.len() - i,
        {
            proof {
                assert(self.outline().take(i + 1).drop_last() == self.outline().take(i as int));
                assert(self.outline().take(i + 1).last() == self.nodes@[i as int]@);
            }
            let ghost before = found@;
            match &self.nodes[i] {
                Node::Link(target) => {
                    found.push((target.clone(), TargetKind::Link));
                    proof {
                        assert(target_views(found@) =~= target_views(before).push(
                            (target@, TargetKind::Link),
                        ));
                    }
                },
                Node::Image(target) => {
                    found.push((target.clone(), TargetKind::Image));
                    proof {
                        assert(target_views(found@) =~= target_views(before).push(
                            (target@, TargetKind::Image),
                        ));
                    }
                },
                _ => {},
            }
            i += 1;
        }
        proof {
            assert(self.outline().take(i as int) == self.outline());
        }
        found
    }

    /// Rewrites the target of every link and image of the outline in place.
    ///
    /// Each target is replaced by what `rewrite_target` gives for it. When a
    /// target leaves the content root, nothing is changed and the error names
    /// the document and the first such target.
    pub fn rewrite_links(&mut self) -> (result: Result<(), Error>)
        ensures
            final(self).source() == old(self).source(),
            final(self).nodes().len() == old(self).nodes().len(),
            old(self).keeps_shape() ==> final(self).keeps_shape(),
            match escaping_target(old(self).outline(), old(self).source().file_path()) {
                Some(target) => {
                    &&& final(self).nodes() == old(self).nodes()
                    &&& result matches Err(Error::InvalidLinkTarget { document, link })
                        && document@ == old(self).source().file_path() && link@ == target
                },
                None => result is Ok && forall|i: int|
                    0 <= i < old(self).outline().len() ==> is_rewritten(
                        old(self).outline()[i],
                        #[trigger] final(self).outline()[i],
                        old(self).source().file_path(),
                    ),
            },
    {
        let document = self.source.file_path.as_str();
        match check_targets(&self.nodes, document) {
            Ok(()) => {},
            Err(error) => {
                return Err(error);
            },
        }
        let mut k: usize = 0;
        while k < self.nodes.len()
            invariant
                k <= self.nodes.len(),
                self.nodes@.len() == old(self).nodes@.len(),
                self.source == old(self).source,
                document@ == self.source.file_path@,
                forall|j: int|
                    0 <= j < old(self).nodes@.len() ==> !escapes_at(
                        old(self).outline(),
                        document@,
                        j,
                    ),
                forall|j: int| k <= j < self.nodes@.len() ==> self.nodes@[j] == old(self).nodes@[j],
                forall|j: int|
                    0 <= j < k ==> is_rewritten(
                        old(self).nodes@[j]@,
                        #[trigger] self.nodes@[j]@,
                        document@,
                    ),
            decreases self.nodes.len() - k,
        {
            proof {
                assert(!escapes_at(old(self).outline(), document@, k as int));
                assert(old(self).outline()[k as int] == old(self).nodes@[k as int]@);
            }
            let replacement = match &self.nodes[k] {
                Node::Link(target) => match rewrite_target(
                    document,
                    target.as_str(),
                    TargetKind::Link,
                ) {
                    Ok(url) => Some(Node::Link(url)),
                    Err(_) => None,
                },
                Node::Image(target) => match rewrite_target(
                    document,
                    target.as_str(),
                    TargetKind::Image,
                ) {
                    Ok(url) => Some(Node::Image(url)),
                    Err(_) => None,
                },
                _ => None,
            };
            if let Some(node) = replacement {
                self.nodes.set(k, node);
            }
            k += 1;
        }
        proof {
            assert forall|i: int| 0 <= i < old(self).outline().len() implies is_rewritten(
                old(self).outline()[i],
                #[trigger] self.outline()[i],
                document@,
            ) by {
                assert(old(self).outline()[i] == old(self).nodes@[i]@);
                assert(self.outline()[i] == self.nodes@[i]@);
                assert(is_rewritten(old(self).nodes@[i]@, self.nodes@[i]@, document@));
            }
            if old(self).keeps_shape() {
                assert forall|i: int| 0 <= i < self.outline().len() implies same_kind(
                    #[trigger] self.outline()[i],
                    self.source().parsed()[i],
                ) by {
                    assert(same_kind(old(self).outline()[i], old(self).source().parsed()[i]));
                    assert(is_rewritten(old(self).outline()[i], self.outline()[i], document@));
                }
            }
        }
        Ok(())
    }

    /// Renders the document as HTML, with every link and image target
    /// rewritten and code blocks highlighted. The document is rendered from
    /// its source. A target of the document that leaves the content root is
    /// an error that names the document and the first such target.
    pub fn to_html(&self) -> (result: Result<String, Error>)
        ensures
            match escaping_target(self.source().parsed(), self.source().file_path()) {
                Some(target) => result matches Err(
                    Error::InvalidLinkTarget { document, link },
                ) && document@ == self.source().file_path() && link@ == target,
                None => result matches Ok(html) && html@ == html_of(
                    self.source().content(),
                    self.source().dialect(),
                    self.source().file_path(),
                ),
            },
    {
        let nodes = outline(self.source, self.source.content.as_str());
        match check_targets(&nodes, self.source.file_path.as_str()) {
            Ok(()) => {},
            Err(error) => {
                return Err(error);
            },
        }
        Ok(document_html(self.source, self.source.content.as_str()).unwrap())
    }
}

/// The text between the fences of the metadata block of the document
/// `content`, if it has one: the text to read as structured data before the
/// document is processed.
pub fn frontmatter_of(content: &str) -> (block: Option<String>)
    ensures
        option_view(block) == frontmatter_source(outline_of(content@, recognized())),
{
    let source = MarkdownSource::new("", content, default_option());
    source.parse().get_frontmatter()
}

/// Processes the Markdown document `content`, found at the root-relative path
/// `file_path`, where reading its metadata block as structured data gave
/// `metadata`.
///
/// The document is parsed in the recognized dialect; its title, description
/// and tags are extracted; its link and image targets are checked; and it is
/// rendered as HTML with those targets rewritten. The first failure, in that
/// order, is returned.
pub fn read_md(file_path: &str, content: &str, metadata: Metadata) -> (result: Result<
    Markdown,
    Error,
>)
    ensures
        match processed(file_path@, content@, metadata) {
            Ok(markdown) => result matches Ok(m) && m@ == markdown,
            Err(failure) => result matches Err(e) && reports(e, failure, file_path@),
        },
{
    let source = MarkdownSource::new(file_path, content, default_option());
    let ast = source.parse();
    let meta = match ast.to_meta(metadata) {
        Ok(meta) => meta,
        Err(error) => {
            return Err(error);
        },
    };
    match ast.to_html() {
        Ok(html) => Ok(Markdown { meta, html }),
        Err(error) => Err(error),
    }
}

/// The metadata wins over the body. A title in the metadata is the title of
/// the document, whatever its headings say; without one, the title is the text
/// of the first level-1 heading; and a document with neither has no title.
pub proof fn lemma_title_precedence(
    text: Seq<char>,
    dialect: DialectContent,
    document: Seq<char>,
    frontmatter: FrontmatterContent,
)
    ensures
        extracted(text, dialect, document, frontmatter) matches Ok(meta) ==> Some(meta.title)
            == or_else(frontmatter.title, heading_title(text, dialect)),
        extracted(text, dialect, document, frontmatter) == Err::<MetaContent, Failure>(
            Failure::MissingTitle,
        ) <==> frontmatter.title is None && first_index(outline_of(text, dialect), Wanted::Title)
            is None,
{
}

} // verus!

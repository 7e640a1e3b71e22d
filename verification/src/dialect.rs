//! The recognized document dialect.

use vstd::prelude::*;
use crate::text::option_view;

verus! {

/// The option record of `comrak`. Nothing is known of what it holds.
#[verifier::external_type_specification]
#[verifier::external_body]
pub struct ExOptions<'c>(comrak::Options<'c>);

/// The extensions of the recognized document dialect.
#[derive(Debug)]
pub struct Dialect {
    pub strikethrough: bool,
    pub table: bool,
    pub autolink: bool,
    pub tasklist: bool,
    pub superscript: bool,
    pub subscript: bool,
    /// The prefix of generated heading anchors, where they are generated.
    pub header_ids: Option<String>,
    pub footnotes: bool,
    pub description_lists: bool,
    /// The fence that delimits the leading metadata block, where one is read.
    pub front_matter_delimiter: Option<String>,
    pub alerts: bool,
    pub math_dollars: bool,
    pub math_code: bool,
    pub shortcodes: bool,
    pub cjk_friendly_emphasis: bool,
    /// Whether Markdown is written back in its shortest form.
    pub minimize_commonmark: bool,
}

/// The settings of a `Dialect`, as characters.
pub struct DialectContent {
    pub strikethrough: bool,
    pub table: bool,
    pub autolink: bool,
    pub tasklist: bool,
    pub superscript: bool,
    pub subscript: bool,
    pub header_ids: Option<Seq<char>>,
    pub footnotes: bool,
    pub description_lists: bool,
    pub front_matter_delimiter: Option<Seq<char>>,
    pub alerts: bool,
    pub math_dollars: bool,
    pub math_code: bool,
    pub shortcodes: bool,
    pub cjk_friendly_emphasis: bool,
    pub minimize_commonmark: bool,
}

impl View for Dialect {
    type V = DialectContent;

    open spec fn view(&self) -> DialectContent {
        DialectContent {
            strikethrough: self.strikethrough,
            table: self.table,
            autolink: self.autolink,
            tasklist: self.tasklist,
            superscript: self.superscript,
            subscript: self.subscript,
            header_ids: option_view(self.header_ids),
            footnotes: self.footnotes,
            description_lists: self.description_lists,
            front_matter_delimiter: option_view(self.front_matter_delimiter),
            alerts: self.alerts,
            math_dollars: self.math_dollars,
            math_code: self.math_code,
            shortcodes: self.shortcodes,
            cjk_friendly_emphasis: self.cjk_friendly_emphasis,
            minimize_commonmark: self.minimize_commonmark,
        }
    }
}

/// The recognized document dialect: strikethrough, tables, autolinks, task
/// lists, superscript and subscript, heading anchors with the prefix
/// `heading-`, footnotes, description lists, a metadata block fenced by `---`,
/// alerts, dollar- and code-delimited math, shortcodes and CJK-friendly
/// emphasis. Markdown is written back in its shortest form.
pub open spec fn recognized() -> DialectContent {
    DialectContent {
        strikethrough: true,
        table: true,
        autolink: true,
        tasklist: true,
        superscript: true,
        subscript: true,
        header_ids: Some("heading-"@),
        footnotes: true,
        description_lists: true,
        front_matter_delimiter: Some("---"@),
        alerts: true,
        math_dollars: true,
        math_code: true,
        shortcodes: true,
        cjk_friendly_emphasis: true,
        minimize_commonmark: true,
    }
}

/// The recognized document dialect, made once and handed to every parse.
pub fn default_option() -> (dialect: Dialect)
    ensures
        dialect@ == recognized(),
{
    Dialect {
        strikethrough: true,
        table: true,
        autolink: true,
        tasklist: true,
        superscript: true,
        subscript: true,
        header_ids: Some(String::from_str("heading-")),
        footnotes: true,
        description_lists: true,
        front_matter_delimiter: Some(String::from_str("---")),
        alerts: true,
        math_dollars: true,
        math_code: true,
        shortcodes: true,
        cjk_friendly_emphasis: true,
        minimize_commonmark: true,
    }
}

/// Copies the settings of `dialect` into `comrak`'s option record, one for
/// one; every other option keeps `comrak`'s default.
#[verifier::external_body]
pub(crate) fn comrak_options(dialect: &Dialect) -> comrak::Options<'static> {
    let extension = comrak::options::Extension {
        strikethrough: dialect.strikethrough, table: dialect.table, autolink: dialect.autolink,
        tasklist: dialect.tasklist, superscript: dialect.superscript, subscript: dialect.subscript,
        header_id_prefix: dialect.header_ids.clone(), footnotes: dialect.footnotes,
        description_lists: dialect.description_lists, alerts: dialect.alerts,
        front_matter_delimiter: dialect.front_matter_delimiter.clone(),
        math_dollars: dialect.math_dollars, math_code: dialect.math_code,
        shortcodes: dialect.shortcodes, cjk_friendly_emphasis: dialect.cjk_friendly_emphasis,
        ..Default::default()
    };
    let mut options = comrak::Options { extension, ..Default::default() };
    options.render.experimental_minimize_commonmark = dialect.minimize_commonmark;
    options
}

} // verus!

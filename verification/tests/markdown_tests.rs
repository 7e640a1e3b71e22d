use my_site_generator::error::Error;
use my_site_generator::link::TargetKind;
use my_site_generator::dialect::default_option;
use my_site_generator::markdown::{
    frontmatter_of, read_md, rewrite_or_keep, Frontmatter, MarkdownSource, Metadata, Wanted,
};

fn titled(title: &str) -> Metadata {
    Metadata::Parsed(Frontmatter {
        title: Some(title.to_string()),
        description: None,
        tags: vec![],
    })
}

#[test]
fn metadata_title_wins_over_heading() {
    let content = "---\ntitle: A\n---\n\n# B\n\nText.\n";
    let markdown = read_md("page.md", content, titled("A")).unwrap();
    assert_eq!(markdown.meta.title, "A");
    assert_eq!(markdown.meta.title_html, "<p>A</p>\n");
}

#[test]
fn heading_gives_the_title_without_metadata() {
    let markdown = read_md("page.md", "# B\n\nText.\n", Metadata::Missing).unwrap();
    assert_eq!(markdown.meta.title, "B");
}

#[test]
fn heading_title_keeps_inline_markdown() {
    let markdown = read_md("page.md", "intro\n\n# The *B* side  \n", Metadata::Missing).unwrap();
    assert_eq!(markdown.meta.title, "The *B* side");
    assert_eq!(markdown.meta.title_html, "<p>The <em>B</em> side</p>\n");
}

#[test]
fn document_without_any_title_fails() {
    assert_eq!(
        read_md("dir/page.md", "Text only.\n\n## Second level\n", Metadata::Missing),
        Err(Error::MissingTitle { path: "dir/page.md".to_string() })
    );
}

#[test]
fn metadata_without_title_falls_back_to_heading() {
    let content = "---\ntags: [a]\n---\n# B\n";
    let metadata = Metadata::Parsed(Frontmatter {
        title: None,
        description: None,
        tags: vec!["a".to_string()],
    });
    let markdown = read_md("page.md", content, metadata).unwrap();
    assert_eq!(markdown.meta.title, "B");
    assert_eq!(markdown.meta.tags, vec!["a".to_string()]);
}

#[test]
fn malformed_metadata_block_fails() {
    let content = "---\ntitle: [unclosed\n---\n# B\n";
    assert_eq!(
        read_md("page.md", content, Metadata::Malformed),
        Err(Error::Parse { path: "page.md".to_string() })
    );
    assert_eq!(
        read_md("page.md", content, Metadata::Missing),
        Err(Error::Parse { path: "page.md".to_string() })
    );
}

#[test]
fn metadata_is_ignored_where_the_document_has_no_block() {
    let markdown = read_md("page.md", "# B\n", Metadata::Malformed).unwrap();
    assert_eq!(markdown.meta.title, "B");
    let markdown = read_md("page.md", "# B\n", titled("A")).unwrap();
    assert_eq!(markdown.meta.title, "B");
}

#[test]
fn description_comes_from_metadata_then_from_the_first_paragraph() {
    let content = "---\ndescription: short\n---\n# B\n\nFirst *paragraph*.\n\nSecond.\n";
    let metadata = Metadata::Parsed(Frontmatter {
        title: None,
        description: Some("short".to_string()),
        tags: vec![],
    });
    let markdown = read_md("page.md", content, metadata).unwrap();
    assert_eq!(markdown.meta.description_md, Some("short".to_string()));
    assert_eq!(markdown.meta.description_html, Some("<p>short</p>\n".to_string()));

    let markdown = read_md("page.md", "# B\n\nFirst *paragraph*.\n\nSecond.\n", Metadata::Missing)
        .unwrap();
    assert_eq!(markdown.meta.description_md, Some("First *paragraph*.\n".to_string()));
    assert_eq!(
        markdown.meta.description_html,
        Some("<p>First <em>paragraph</em>.</p>\n".to_string())
    );
}

#[test]
fn description_may_be_absent() {
    let markdown = read_md("page.md", "# B\n", Metadata::Missing).unwrap();
    assert_eq!(markdown.meta.description_md, None);
    assert_eq!(markdown.meta.description_html, None);
    assert!(markdown.meta.tags.is_empty());
}

#[test]
fn tags_come_from_metadata_as_written() {
    let content = "---\ntags: [b, a, b, A]\n---\n# B\n";
    let tags = vec!["b".to_string(), "a".to_string(), "b".to_string(), "A".to_string()];
    let metadata =
        Metadata::Parsed(Frontmatter { title: None, description: None, tags: tags.clone() });
    assert_eq!(read_md("page.md", content, metadata).unwrap().meta.tags, tags);
}

#[test]
fn rendered_page_has_rewritten_targets() {
    let content = "# B\n\n[post](../blog/2024-01-05-my-first-post.md) [about](/about.md) \
                   ![pic](images/image.png) [out](https://example.com/x.md) [here](#top)\n";
    let html = read_md("foo/bar.md", content, Metadata::Missing).unwrap().html;
    assert!(html.contains("href=\"/blog/my-first-post\""), "{}", html);
    assert!(html.contains("href=\"/about\""), "{}", html);
    assert!(html.contains("src=\"/foo/images/image.png\""), "{}", html);
    assert!(html.contains("href=\"https://example.com/x.md\""), "{}", html);
    assert!(html.contains("href=\"#top\""), "{}", html);
}

#[test]
fn rendered_page_uses_the_dialect() {
    let content = "# Title\n\n~~gone~~ www.example.com H~2~O x^2^\n\n- [x] done\n\n\
                   | a | b |\n|---|---|\n| 1 | 2 |\n\n```rust\nfn main() {}\n```\n";
    let html = read_md("page.md", content, Metadata::Missing).unwrap().html;
    assert!(html.contains("<del>gone</del>"), "{}", html);
    assert!(html.contains("<a href=\"http://www.example.com\">"), "{}", html);
    assert!(html.contains("<sub>2</sub>"), "{}", html);
    assert!(html.contains("<sup>2</sup>"), "{}", html);
    assert!(html.contains("type=\"checkbox\""), "{}", html);
    assert!(html.contains("<table>"), "{}", html);
    assert!(html.contains("id=\"heading-title\""), "{}", html);
    assert!(html.contains("<pre"), "{}", html);
    assert!(html.contains("<span class="), "{}", html);
    assert!(!html.contains("fn main() {}"), "{}", html);
}

#[test]
fn metadata_block_is_not_rendered() {
    let html = read_md("page.md", "---\ntitle: A\n---\n\nBody.\n", titled("A")).unwrap().html;
    assert!(!html.contains("title: A"), "{}", html);
    assert!(html.contains("<p>Body.</p>"), "{}", html);
}

#[test]
fn escaping_link_fails_the_document() {
    assert_eq!(
        read_md("foo/bar.md", "# B\n\n[ok](x.md) ![up](../../images/image.png) [up](../../y)\n",
            Metadata::Missing),
        Err(Error::InvalidLinkTarget {
            document: "foo/bar.md".to_string(),
            link: "../../images/image.png".to_string(),
        })
    );
}

#[test]
fn escaping_link_in_the_metadata_fails_the_document() {
    let escaping = |link: &str| Error::InvalidLinkTarget {
        document: "bar.md".to_string(),
        link: link.to_string(),
    };
    let title = Metadata::Parsed(Frontmatter {
        title: Some("See [up](../one)".to_string()),
        description: Some("and [up](../two)".to_string()),
        tags: vec![],
    });
    let content = "---\ntitle: ignored here\n---\n\nBody [up](../three).\n";
    assert_eq!(read_md("bar.md", content, title), Err(escaping("../one")));
    let description = Metadata::Parsed(Frontmatter {
        title: Some("See [in](one)".to_string()),
        description: Some("and ![up](../two)".to_string()),
        tags: vec![],
    });
    assert_eq!(read_md("bar.md", content, description), Err(escaping("../two")));
    let body = Metadata::Parsed(Frontmatter {
        title: Some("See [in](one)".to_string()),
        description: Some("and [in](two)".to_string()),
        tags: vec![],
    });
    assert_eq!(read_md("bar.md", content, body), Err(escaping("../three")));
}

#[test]
fn links_in_the_metadata_are_rewritten() {
    let metadata = Metadata::Parsed(Frontmatter {
        title: Some("See [that](other.md)".to_string()),
        description: Some("![pic](../pic.png)".to_string()),
        tags: vec![],
    });
    let meta = read_md("foo/bar.md", "---\nx: 1\n---\nBody.\n", metadata).unwrap().meta;
    assert_eq!(meta.title_html, "<p>See <a href=\"/foo/other\">that</a></p>\n");
    assert!(meta.description_html.unwrap().contains("src=\"/pic.png\""));
}

#[test]
fn rendering_alone_fails_on_an_escaping_link() {
    let source = MarkdownSource::new("bar.md", "# T\n\n[up](../one)\n", default_option());
    assert_eq!(
        source.parse().to_html(),
        Err(Error::InvalidLinkTarget { document: "bar.md".to_string(), link: "../one".to_string() })
    );
    assert_eq!(
        source.parse().fragment_to_html("![up](../../two)"),
        Err(Error::InvalidLinkTarget {
            document: "bar.md".to_string(),
            link: "../../two".to_string(),
        })
    );
    assert_eq!(
        source.parse().fragment_to_html("*fine* [in](a.md)"),
        Ok("<p><em>fine</em> <a href=\"/a\">in</a></p>\n".to_string())
    );
}

#[test]
fn content_is_extracted_after_rewriting_too() {
    let source = MarkdownSource::new(
        "foo/bar.md",
        "# The [title](t.md)\n\nFirst ![pic](p.png).\n",
        default_option(),
    );
    let mut ast = source.parse();
    assert_eq!(ast.rewrite_links(), Ok(()));
    ast.visit_links(|target: &String| format!("{}?seen", target));
    ast.visit_images(|target: &String| format!("{}?seen", target));
    assert_eq!(ast.find_title(), Some("The [title](t.md)".to_string()));
    assert_eq!(ast.find_description(), Some("First ![pic](p.png).\n".to_string()));
    let meta = ast.to_meta(Metadata::Missing).unwrap();
    assert_eq!(meta.title, "The [title](t.md)");
    assert_eq!(meta.title_html, "<p>The <a href=\"/foo/t\">title</a></p>\n");
}

#[test]
fn every_node_of_the_outline_can_be_written() {
    let content = "---\nx: 1\n---\n# T\n\n- a\n- [b](c)\n\n| x | y |\n|---|---|\n| 1 | 2 |\n\n                   > q\n\n```rust\nfn f() {}\n```\n\nterm\n: def\n\n[^1]: note\n\ntext[^1] $x$\n";
    let source = MarkdownSource::new("a.md", content, default_option());
    let ast = source.parse();
    let mut index = 0;
    while let Some(_) = ast.node_to_markdown(index) {
        index += 1;
    }
    assert!(index > 30, "{}", index);
    assert_eq!(ast.node_to_markdown(index + 1), None);
}

#[test]
fn missing_title_is_reported_before_an_escaping_link() {
    assert_eq!(
        read_md("bar.md", "[up](../y)\n", Metadata::Missing),
        Err(Error::MissingTitle { path: "bar.md".to_string() })
    );
}

#[test]
fn metadata_block_is_handed_out_without_its_fences() {
    assert_eq!(
        frontmatter_of("---\ntitle: A\ntags: [x, y]\n---\n\n# B\n"),
        Some("title: A\ntags: [x, y]".to_string())
    );
    assert_eq!(frontmatter_of("# B\n\n---\ntitle: A\n---\n"), None);
    assert_eq!(frontmatter_of(""), None);
}

#[test]
fn outline_finds_the_first_nodes_in_document_order() {
    let source = MarkdownSource::new(
        "page.md",
        "---\nx: 1\n---\n## Two\n\nfirst\n\n# One\n\n> quoted\n\n# Other\n",
        default_option(),
    );
    let ast = source.parse();
    let front = ast.find_first_node(Wanted::FrontMatter).unwrap();
    let title = ast.find_first_node(Wanted::Title).unwrap();
    let paragraph = ast.find_first_node(Wanted::Paragraph).unwrap();
    assert!(front < paragraph && paragraph < title);
    assert_eq!(ast.get_frontmatter(), Some("x: 1".to_string()));
    assert_eq!(ast.find_title(), Some("One".to_string()));
    assert_eq!(ast.find_description(), Some("first\n".to_string()));
    assert_eq!(ast.node_to_markdown(title), Some("# One\n".to_string()));
    assert_eq!(ast.node_to_markdown(100_000), None);
}

#[test]
fn outline_without_wanted_nodes_finds_none() {
    let source = MarkdownSource::new("page.md", "## Two\n", default_option());
    let ast = source.parse();
    assert_eq!(ast.find_first_node(Wanted::FrontMatter), None);
    assert_eq!(ast.find_first_node(Wanted::Title), None);
    assert_eq!(ast.find_first_node(Wanted::Paragraph), None);
    assert_eq!(ast.find_title(), None);
    assert_eq!(ast.find_description(), None);
    assert_eq!(ast.get_frontmatter(), None);
}

#[test]
fn paragraph_inside_a_quote_counts_as_first_paragraph() {
    let source = MarkdownSource::new("page.md", "# T\n\n> quoted\n\nplain\n", default_option());
    assert_eq!(source.parse().find_description(), Some("quoted\n".to_string()));
}

#[test]
fn links_of_the_outline_are_rewritten_in_place() {
    let source = MarkdownSource::new(
        "foo/bar.md",
        "[a](x.md) ![b](../y.png) [c](https://example.com)\n",
        default_option(),
    );
    let mut ast = source.parse();
    assert_eq!(
        ast.targets(),
        vec![
            ("x.md".to_string(), TargetKind::Link),
            ("../y.png".to_string(), TargetKind::Image),
            ("https://example.com".to_string(), TargetKind::Link),
        ]
    );
    assert_eq!(ast.rewrite_links(), Ok(()));
    let rewritten = vec![
        ("/foo/x".to_string(), TargetKind::Link),
        ("/y.png".to_string(), TargetKind::Image),
        ("https://example.com".to_string(), TargetKind::Link),
    ];
    assert_eq!(ast.targets(), rewritten);
    assert_eq!(ast.rewrite_links(), Ok(()));
    assert_eq!(ast.targets(), rewritten);
    assert_eq!(ast.to_html().unwrap().matches("href=\"/foo/x\"").count(), 1);
}

#[test]
fn links_and_images_are_visited_apart() {
    let source = MarkdownSource::new("a.md", "[a](x.md) ![b](y.png) [c](z)\n", default_option());
    let mut ast = source.parse();
    ast.visit_links(|target: &String| format!("link:{}", target));
    assert_eq!(
        ast.targets(),
        vec![
            ("link:x.md".to_string(), TargetKind::Link),
            ("y.png".to_string(), TargetKind::Image),
            ("link:z".to_string(), TargetKind::Link),
        ]
    );
    ast.visit_images(|target: &String| target.to_uppercase());
    assert_eq!(
        ast.targets(),
        vec![
            ("link:x.md".to_string(), TargetKind::Link),
            ("Y.PNG".to_string(), TargetKind::Image),
            ("link:z".to_string(), TargetKind::Link),
        ]
    );
}

#[test]
fn failed_rewriting_names_the_first_escaping_target() {
    let source =
        MarkdownSource::new("bar.md", "[a](x.md) [b](../one) [c](../two)\n", default_option());
    let mut ast = source.parse();
    let before = ast.targets();
    assert_eq!(
        ast.rewrite_links(),
        Err(Error::InvalidLinkTarget { document: "bar.md".to_string(), link: "../one".to_string() })
    );
    assert_eq!(ast.targets(), before);
}

#[test]
fn unrewritable_target_is_kept_in_the_page() {
    assert_eq!(rewrite_or_keep("bar.md", "../x.md", TargetKind::Link), "../x.md");
    assert_eq!(rewrite_or_keep("bar.md", "x.md", TargetKind::Link), "/x");
}

#[test]
fn recognized_dialect_has_its_extensions() {
    let dialect = default_option();
    assert!(dialect.strikethrough && dialect.table && dialect.autolink && dialect.tasklist);
    assert!(dialect.superscript && dialect.subscript && dialect.footnotes);
    assert!(dialect.description_lists && dialect.alerts && dialect.math_dollars);
    assert!(dialect.math_code && dialect.shortcodes && dialect.cjk_friendly_emphasis);
    assert!(dialect.minimize_commonmark);
    assert_eq!(dialect.header_ids, Some("heading-".to_string()));
    assert_eq!(dialect.front_matter_delimiter, Some("---".to_string()));
}

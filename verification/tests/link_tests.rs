use my_site_generator::error::Error;
use my_site_generator::link::{
    has_md_extension, is_external_target, is_same_document_target, rewrite_target, serve,
    TargetKind,
};

fn link(document: &str, target: &str) -> Option<String> {
    rewrite_target(document, target, TargetKind::Link).ok()
}

fn image(document: &str, target: &str) -> Option<String> {
    rewrite_target(document, target, TargetKind::Image).ok()
}

#[test]
fn blog_cross_link_leads_to_the_slug() {
    assert_eq!(
        link("blog/2024-02-01-second.md", "2024-01-05-my-first-post.md"),
        Some("/blog/my-first-post".to_string())
    );
    assert_eq!(
        link("home.md", "blog/2024-01-05-my-first-post.md"),
        Some("/blog/my-first-post".to_string())
    );
    assert_eq!(
        link("a/b/c.md", "/blog/2024-01-05-my-first-post.md"),
        Some("/blog/my-first-post".to_string())
    );
}

#[test]
fn page_link_loses_its_extension() {
    assert_eq!(link("foo/bar.md", "/about.md"), Some("/about".to_string()));
    assert_eq!(link("foo/bar.md", "other.md"), Some("/foo/other".to_string()));
    assert_eq!(link("blog/2024-01-05-x.md", "index.md"), Some("/blog/index".to_string()));
}

#[test]
fn dated_file_outside_the_blog_keeps_its_name() {
    assert_eq!(
        link("notes/a.md", "2024-01-05-my-first-post.md"),
        Some("/notes/2024-01-05-my-first-post".to_string())
    );
    assert_eq!(
        link("home.md", "blog/old/2024-01-05-x.md"),
        Some("/blog/old/2024-01-05-x".to_string())
    );
}

#[test]
fn other_files_keep_their_extension() {
    assert_eq!(link("foo/bar.md", "../images/image.png"), Some("/images/image.png".to_string()));
    assert_eq!(link("foo/bar.md", "a.mdx"), Some("/foo/a.mdx".to_string()));
    assert_eq!(link("foo/bar.md", ".md"), Some("/foo/.md".to_string()));
    assert_eq!(link("foo/bar.md", "a.md/"), Some("/foo/a".to_string()));
}

#[test]
fn slug_that_ends_in_the_extension_loses_it_too() {
    assert_eq!(link("home.md", "blog/2024-01-05-x.md.md"), Some("/blog/x".to_string()));
}

#[test]
fn image_is_resolved_but_never_retargeted() {
    assert_eq!(
        image("foo/bar.md", "../images/image.png"),
        Some("/images/image.png".to_string())
    );
    assert_eq!(
        image("home.md", "blog/2024-01-05-my-first-post.md"),
        Some("/blog/2024-01-05-my-first-post".to_string())
    );
}

#[test]
fn external_targets_stay() {
    for target in ["https://example.com/a/../b.md", "mailto:someone@example.com", "ftp://x", "x://"] {
        assert_eq!(link("foo/bar.md", target), Some(target.to_string()));
        assert_eq!(image("foo/bar.md", target), Some(target.to_string()));
        assert!(is_external_target(target));
    }
    assert!(!is_external_target("a/b.md"));
    assert!(!is_external_target("mail:to"));
    assert!(!is_external_target("xmailto:a"));
    assert!(!is_external_target(":/"));
}

#[test]
fn same_document_targets_stay() {
    for target in ["", "#section", "?page=2"] {
        assert_eq!(link("foo/bar.md", target), Some(target.to_string()));
        assert!(is_same_document_target(target));
    }
    assert!(!is_same_document_target("a#b"));
}

#[test]
fn escaping_target_fails_with_document_and_link() {
    assert_eq!(
        rewrite_target("foo/bar.md", "../../images/image.png", TargetKind::Image),
        Err(Error::InvalidLinkTarget {
            document: "foo/bar.md".to_string(),
            link: "../../images/image.png".to_string(),
        })
    );
    assert!(rewrite_target("bar.md", "../x.md", TargetKind::Link).is_err());
}

#[test]
fn markdown_extension_is_told_by_the_file_name() {
    assert!(has_md_extension("/a/b.md"));
    assert!(has_md_extension("b.md"));
    assert!(has_md_extension("/a/..md"));
    assert!(!has_md_extension("/a/.md"));
    assert!(!has_md_extension("/a.md/b"));
    assert!(!has_md_extension("/a/b.MD"));
    assert!(!has_md_extension(""));
}

#[test]
fn serving_a_canonical_path() {
    assert_eq!(serve("/blog/2024-01-05-x.md", TargetKind::Link), "/blog/x");
    assert_eq!(serve("/blog/2024-01-05-x.md", TargetKind::Image), "/blog/2024-01-05-x");
    assert_eq!(serve("/blog/2024-13-05-x.md", TargetKind::Link), "/blog/2024-13-05-x");
    assert_eq!(serve("/blog/2024-01-05-x", TargetKind::Link), "/blog/2024-01-05-x");
    assert_eq!(serve("/", TargetKind::Link), "/");
}

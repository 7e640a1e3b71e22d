use my_site_generator::blog::BlogEntry;
use my_site_generator::config::{Config, Footer, Header};
use my_site_generator::date::Date;
use my_site_generator::feed::{build_rss, last_update_time, to_rss_item, FeedItem};
use my_site_generator::history::{git_time_to_datetime, Commit};
use my_site_generator::markdown::{Markdown, MarkdownMeta};

fn config() -> Config {
    Config {
        author: "Ann".to_string(),
        author_email: "ann@example.com".to_string(),
        site_name: "Site".to_string(),
        site_url: "https://example.com".to_string(),
        commit_base_url: "https://git.example.com/commit".to_string(),
        skip: vec![],
        header: Header { home_name: "home".to_string(), links: vec![] },
        footer: Footer { links: vec![], cc: "cc".to_string() },
    }
}

fn entry(slug: &str, day: u32, commits: &[i64]) -> BlogEntry {
    BlogEntry {
        rel_md_path: format!("blog/2024-01-{:02}-{}.md", day, slug),
        time: Date { year: 2024, month: 1, day },
        slug: slug.to_string(),
        commits: commits
            .iter()
            .map(|seconds| Commit {
                hash: format!("{:040x}", seconds),
                time: git_time_to_datetime(*seconds, 540).unwrap(),
                summary: None,
            })
            .collect(),
        markdown: Markdown {
            meta: MarkdownMeta {
                title: format!("About *{}*", slug),
                title_html: format!("<p>About <em>{}</em></p>\n", slug),
                description_md: Some("short".to_string()),
                description_html: Some("<p>short</p>\n".to_string()),
                tags: vec!["a".to_string(), "b".to_string()],
            },
            html: format!("<p>body of {}</p>\n", slug),
        },
    }
}

#[test]
fn feed_is_skipped_when_no_entry_has_history() {
    assert_eq!(build_rss(&vec![entry("x", 5, &[]), entry("y", 2, &[])], &config()), None);
    assert_eq!(build_rss(&vec![], &config()), None);
    assert_eq!(last_update_time(&vec![entry("x", 5, &[])]), None);
}

#[test]
fn feed_item_is_made_from_the_entry() {
    assert_eq!(
        to_rss_item(&entry("my-first-post", 5, &[]), &config()),
        FeedItem {
            title: "About *my-first-post*".to_string(),
            link: "https://example.com/blog/my-first-post".to_string(),
            description: Some("<p>short</p>\n".to_string()),
            author: "ann@example.com (Ann)".to_string(),
            categories: vec!["a".to_string(), "b".to_string()],
            guid: "https://example.com/blog/my-first-post".to_string(),
            guid_is_permalink: true,
            pub_date: "Fri, 5 Jan 2024 00:00:00 +0000".to_string(),
            content: "<p>body of my-first-post</p>\n".to_string(),
        }
    );
}

#[test]
fn feed_item_may_lack_a_description() {
    let mut plain = entry("x", 5, &[]);
    plain.markdown.meta.description_md = None;
    plain.markdown.meta.description_html = None;
    plain.markdown.meta.tags = vec![];
    let item = to_rss_item(&plain, &config());
    assert_eq!(item.description, None);
    assert!(item.categories.is_empty());
}

#[test]
fn feed_is_dated_by_the_latest_newest_commit() {
    let entries = vec![
        entry("x", 7, &[1_704_412_800, 1_800_000_000]),
        entry("y", 5, &[]),
        entry("z", 2, &[1_704_412_800 + 3_723, 10]),
    ];
    assert_eq!(last_update_time(&entries), Some(1_704_412_800 + 3_723));
    let feed = build_rss(&entries, &config()).unwrap();
    assert_eq!(feed.pub_date, "Fri, 5 Jan 2024 01:02:03 +0000");
    assert_eq!(feed.last_build_date, "Fri, 5 Jan 2024 01:02:03 +0000");
    assert_eq!(feed.title, "Site");
    assert_eq!(feed.link, "https://example.com");
    assert_eq!(feed.description, "Site");
    assert_eq!(feed.self_link.href, "https://example.com/blog/rss.xml");
    assert_eq!(feed.self_link.rel, "self");
    assert_eq!(feed.self_link.mime_type, "application/rss+xml");
    let links: Vec<&str> = feed.items.iter().map(|item| item.link.as_str()).collect();
    assert_eq!(
        links,
        vec![
            "https://example.com/blog/x",
            "https://example.com/blog/y",
            "https://example.com/blog/z"
        ]
    );
}

#[test]
fn feed_date_ignores_the_offset_of_the_recording_clock() {
    let entries = vec![entry("x", 7, &[0])];
    assert_eq!(build_rss(&entries, &config()).unwrap().pub_date, "Thu, 1 Jan 1970 00:00:00 +0000");
}

#[test]
fn feed_is_written_as_rss() {
    let feed = build_rss(&vec![entry("x", 7, &[1_704_412_800]), entry("y", 5, &[])], &config())
        .unwrap();
    let xml = feed.to_xml();
    assert!(xml.contains("<rss"), "{}", xml);
    assert!(xml.contains("<title>Site</title>"), "{}", xml);
    assert!(xml.contains("<link>https://example.com</link>"), "{}", xml);
    assert!(xml.contains("<pubDate>Fri, 5 Jan 2024 00:00:00 +0000</pubDate>"), "{}", xml);
    assert!(xml.contains("<lastBuildDate>Fri, 5 Jan 2024 00:00:00 +0000</lastBuildDate>"), "{}", xml);
    assert!(xml.contains("https://example.com/blog/rss.xml"), "{}", xml);
    assert!(xml.contains("application/rss+xml"), "{}", xml);
    assert!(xml.contains("<link>https://example.com/blog/x</link>"), "{}", xml);
    assert!(xml.contains("<guid>https://example.com/blog/y</guid>"), "{}", xml);
    assert!(xml.contains("<author>ann@example.com (Ann)</author>"), "{}", xml);
    assert!(xml.contains("<category>a</category>"), "{}", xml);
    assert!(xml.contains("<pubDate>Sun, 7 Jan 2024 00:00:00 +0000</pubDate>"), "{}", xml);
    assert!(xml.contains("body of x"), "{}", xml);
    assert_eq!(xml.matches("<item>").count(), 2);
    assert!(xml.find("/blog/x").unwrap() < xml.find("/blog/y").unwrap());
}

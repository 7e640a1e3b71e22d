use my_site_generator::blog::{
    blog_file_name, process_tag_blog_list, sort_newest_first, try_get_blog_entry, BlogEntry,
    TagBucket,
};
use my_site_generator::config::{Config, Footer, Header};
use my_site_generator::date::Date;
use my_site_generator::error::Error;
use my_site_generator::history::{git_time_to_datetime, Commit, Visit};
use my_site_generator::markdown::{Frontmatter, Markdown, MarkdownMeta, Metadata};
use my_site_generator::site::{build, find_duplicate_slug, Generator};

fn entry(slug: &str, day: u32, tags: &[&str]) -> BlogEntry {
    BlogEntry {
        rel_md_path: format!("blog/2024-01-{:02}-{}.md", day, slug),
        time: Date { year: 2024, month: 1, day },
        slug: slug.to_string(),
        commits: vec![],
        markdown: Markdown {
            meta: MarkdownMeta {
                title: slug.to_string(),
                title_html: format!("<p>{}</p>\n", slug),
                description_md: None,
                description_html: None,
                tags: tags.iter().map(|tag| tag.to_string()).collect(),
            },
            html: String::new(),
        },
    }
}

fn with_commit(mut entry: BlogEntry, seconds: i64) -> BlogEntry {
    entry.commits.push(Commit {
        hash: "0123456789abcdef".to_string(),
        time: git_time_to_datetime(seconds, 0).unwrap(),
        summary: None,
    });
    entry
}

fn config() -> Config {
    Config {
        author: "Ann".to_string(),
        author_email: "ann@example.com".to_string(),
        site_name: "Site".to_string(),
        site_url: "https://example.com".to_string(),
        commit_base_url: "https://git.example.com/commit".to_string(),
        skip: vec![],
        header: Header { home_name: "home".to_string(), links: vec![] },
        footer: Footer { links: vec![], cc: "cc".to_string() },
    }
}

fn slugs(entries: &[BlogEntry]) -> Vec<&str> {
    entries.iter().map(|entry| entry.slug.as_str()).collect()
}

fn bucket(tag: &str, entries: &[usize]) -> TagBucket {
    TagBucket { tag: tag.to_string(), entries: entries.to_vec() }
}

#[test]
fn entries_are_ordered_newest_first_and_ties_keep_their_order() {
    let given = vec![entry("first", 2, &["a"]), entry("second", 5, &["a", "b"]), entry("third", 5, &["b"])];
    let sorted = sort_newest_first(given);
    assert_eq!(slugs(&sorted), vec!["second", "third", "first"]);
}

#[test]
fn tag_buckets_follow_the_order_of_the_entries() {
    let site = build(
        vec![entry("first", 2, &["a"]), entry("second", 5, &["a", "b"]), entry("third", 5, &["b"])],
        &config(),
    )
    .unwrap();
    assert_eq!(slugs(&site.all_blog), vec!["second", "third", "first"]);
    assert_eq!(site.tags, vec![bucket("a", &[0, 2]), bucket("b", &[0, 1])]);
    let in_a: Vec<&str> =
        site.tags[0].entries.iter().map(|place| site.all_blog[*place].slug.as_str()).collect();
    assert_eq!(in_a, vec!["second", "first"]);
    assert_eq!(site.feed, None);
}

#[test]
fn sorting_is_stable_for_many_ties() {
    let given = vec![
        entry("a", 3, &[]),
        entry("b", 1, &[]),
        entry("c", 3, &[]),
        entry("d", 2, &[]),
        entry("e", 1, &[]),
        entry("f", 3, &[]),
        entry("g", 2, &[]),
    ];
    assert_eq!(slugs(&sort_newest_first(given)), vec!["a", "c", "f", "d", "g", "b", "e"]);
    assert_eq!(slugs(&sort_newest_first(vec![])), Vec::<&str>::new());
}

#[test]
fn sorting_compares_year_then_month_then_day() {
    let mut old = entry("old", 31, &[]);
    old.time = Date { year: 2023, month: 12, day: 31 };
    let mut mid = entry("mid", 1, &[]);
    mid.time = Date { year: 2024, month: 2, day: 1 };
    let late = entry("jan", 30, &[]);
    assert_eq!(slugs(&sort_newest_first(vec![old, late, mid])), vec!["mid", "jan", "old"]);
}

#[test]
fn tag_named_twice_lists_the_entry_once() {
    let entries = vec![entry("x", 1, &["a", "b", "a"]), entry("y", 1, &[]), entry("z", 1, &["b", "c", "b"])];
    assert_eq!(
        process_tag_blog_list(&entries),
        vec![bucket("a", &[0]), bucket("b", &[0, 2]), bucket("c", &[2])]
    );
    assert_eq!(process_tag_blog_list(&vec![]), vec![]);
}

#[test]
fn tags_are_case_sensitive() {
    let entries = vec![entry("x", 1, &["Rust"]), entry("y", 1, &["rust"])];
    assert_eq!(process_tag_blog_list(&entries), vec![bucket("Rust", &[0]), bucket("rust", &[1])]);
}

#[test]
fn entries_with_one_slug_fail_the_build() {
    let given = vec![entry("a", 1, &[]), entry("b", 2, &[]), entry("a", 3, &[]), entry("b", 4, &[])];
    assert_eq!(find_duplicate_slug(&given), Some(2));
    assert_eq!(build(given, &config()), Err(Error::DuplicateSlug { slug: "a".to_string() }));
    assert_eq!(find_duplicate_slug(&vec![entry("a", 1, &[]), entry("b", 1, &[])]), None);
}

#[test]
fn feed_is_built_when_an_entry_has_history() {
    let given = vec![
        entry("first", 2, &[]),
        with_commit(entry("second", 5, &[]), 1_704_412_800),
        with_commit(entry("third", 7, &[]), 1_000_000_000),
    ];
    let site = build(given, &config()).unwrap();
    let feed = site.feed.unwrap();
    assert_eq!(feed.pub_date, "Fri, 5 Jan 2024 00:00:00 +0000");
    assert_eq!(feed.items.len(), 3);
    assert_eq!(feed.items[0].link, "https://example.com/blog/third");
}

#[test]
fn blog_files_are_the_markdown_files_of_the_blog_directory() {
    assert_eq!(
        blog_file_name("blog/2024-01-05-my-first-post.md"),
        Some("2024-01-05-my-first-post.md")
    );
    assert_eq!(blog_file_name("blog/about.md"), Some("about.md"));
    assert_eq!(blog_file_name("blog/2024-01-05-my-first-post.txt"), None);
    assert_eq!(blog_file_name("blog/2024-01-05-my-first-post"), None);
    assert_eq!(blog_file_name("blog/.md"), None);
    assert_eq!(blog_file_name("2024-01-05-my-first-post.md"), None);
    assert_eq!(blog_file_name("notes/2024-01-05-my-first-post.md"), None);
    assert_eq!(blog_file_name("blog/old/2024-01-05-my-first-post.md"), None);
    assert_eq!(blog_file_name("/blog/2024-01-05-my-first-post.md"), None);
    assert_eq!(blog_file_name("Blog/2024-01-05-my-first-post.md"), None);
}

#[test]
fn entry_without_matching_commits_has_an_empty_history() {
    let walk = vec![Visit {
        commit: Commit {
            hash: "abc".to_string(),
            time: git_time_to_datetime(100, 0).unwrap(),
            summary: None,
        },
        changes: 0,
    }];
    let entry = try_get_blog_entry("blog/2024-01-05-x.md", "# X\n", Metadata::Missing, Ok(walk))
        .unwrap()
        .unwrap();
    assert!(entry.commits.is_empty());
    assert_eq!(entry.slug, "x");
    assert_eq!(entry.time, Date { year: 2024, month: 1, day: 5 });
    assert_eq!(entry.rel_md_path, "blog/2024-01-05-x.md");
    assert_eq!(entry.markdown.meta.title, "X");
}

#[test]
fn entry_whose_history_cannot_be_read_has_an_empty_history() {
    let failed = Err(Error::HistoryLookup { path: "blog/2024-01-05-x.md".to_string() });
    let entry = try_get_blog_entry("blog/2024-01-05-x.md", "# X\n", Metadata::Missing, failed)
        .unwrap()
        .unwrap();
    assert!(entry.commits.is_empty());
}

#[test]
fn entry_gets_the_commits_that_changed_it() {
    let commit = |hash: &str, seconds: i64| Commit {
        hash: hash.to_string(),
        time: git_time_to_datetime(seconds, 60).unwrap(),
        summary: Some("message".to_string()),
    };
    let walk = vec![
        Visit { commit: commit("c", 300), changes: 2 },
        Visit { commit: commit("b", 200), changes: 0 },
        Visit { commit: commit("a", 100), changes: 1 },
    ];
    let metadata = Metadata::Parsed(Frontmatter {
        title: Some("T".to_string()),
        description: None,
        tags: vec!["t".to_string()],
    });
    let content = "---\ntitle: T\ntags: [t]\n---\nbody\n";
    let entry = try_get_blog_entry("blog/2024-01-05-x.md", content, metadata, Ok(walk))
        .unwrap()
        .unwrap();
    assert_eq!(entry.commits, vec![commit("c", 300), commit("a", 100)]);
    assert_eq!(entry.markdown.meta.tags, vec!["t".to_string()]);
}

#[test]
fn files_outside_the_blog_directory_are_no_entries() {
    assert_eq!(try_get_blog_entry("about.md", "no title", Metadata::Missing, Ok(vec![])), Ok(None));
    assert_eq!(
        try_get_blog_entry("notes/2024-01-05-x.md", "# X\n", Metadata::Missing, Ok(vec![])),
        Ok(None)
    );
    assert_eq!(
        try_get_blog_entry("blog/old/2024-01-05-x.md", "# X\n", Metadata::Missing, Ok(vec![])),
        Ok(None)
    );
    assert_eq!(
        try_get_blog_entry("blog/2024-01-05-x.png", "", Metadata::Missing, Ok(vec![])),
        Ok(None)
    );
}

#[test]
fn misnamed_blog_file_fails() {
    assert_eq!(
        try_get_blog_entry("blog/readme.md", "# Readme\n", Metadata::Missing, Ok(vec![])),
        Err(Error::InvalidBlogFilename { name: "readme".to_string() })
    );
    assert_eq!(
        try_get_blog_entry("blog/2024-02-30-x.md", "# X\n", Metadata::Missing, Ok(vec![])),
        Err(Error::InvalidBlogFilename { name: "2024-02-30-x".to_string() })
    );
}

#[test]
fn entry_that_cannot_be_processed_fails() {
    assert_eq!(
        try_get_blog_entry("blog/2024-01-05-x.md", "no title", Metadata::Missing, Ok(vec![])),
        Err(Error::MissingTitle { path: "blog/2024-01-05-x.md".to_string() })
    );
}

#[test]
fn entry_is_made_wherever_the_file_lies() {
    let made = BlogEntry::new("drafts/2024-01-05-x.md", "# X\n", Metadata::Missing, vec![]).unwrap();
    assert_eq!(made.slug, "x");
    assert_eq!(made.time, Date { year: 2024, month: 1, day: 5 });
    assert_eq!(made.rel_md_path, "drafts/2024-01-05-x.md");
    assert_eq!(
        BlogEntry::new("blog/about.md", "# X\n", Metadata::Missing, vec![]),
        Err(Error::InvalidBlogFilename { name: "about".to_string() })
    );
    assert_eq!(
        BlogEntry::new("blog/2024-01-05-x.md", "x\n", Metadata::Missing, vec![]),
        Err(Error::MissingTitle { path: "blog/2024-01-05-x.md".to_string() })
    );
}

#[test]
fn generator_builds_what_it_was_given() {
    let generator = Generator::new(config());
    assert_eq!(generator.config().site_name, "Site");
    let (generator, added) = generator.add_blog_entry(entry("first", 2, &["a"]));
    assert!(added);
    let (generator, added) =
        generator.add_blog_entry(with_commit(entry("second", 5, &["a", "b"]), 1_704_412_800));
    assert!(added);
    let (generator, added) = generator.add_blog_entry(entry("no-such-day", 32, &["c"]));
    assert!(!added);
    let (generator, added) = generator.add_blog_entry(entry("third", 5, &["b"]));
    assert!(added);
    let site = generator.build().unwrap();
    assert_eq!(slugs(&site.all_blog), vec!["second", "third", "first"]);
    assert_eq!(site.tags, vec![bucket("a", &[0, 2]), bucket("b", &[0, 1])]);
    assert_eq!(site.feed.unwrap().items.len(), 3);
}

#[test]
fn entries_can_be_checked() {
    assert!(entry("x", 5, &[]).check());
    assert!(with_commit(entry("x", 5, &[]), 100).check());
    assert!(!entry("x", 32, &[]).check());
    let mut broken = with_commit(with_commit(entry("x", 5, &[]), 100), 200);
    broken.commits[1].time.seconds = i64::MAX;
    assert!(!broken.check());
}

#[test]
fn generator_takes_an_entry_from_each_blog_file() {
    let walk = |changes: usize| {
        Ok(vec![Visit {
            commit: Commit {
                hash: "abc".to_string(),
                time: git_time_to_datetime(1_704_412_800, 0).unwrap(),
                summary: None,
            },
            changes,
        }])
    };
    let generator = Generator::new(config());
    let (generator, added) =
        generator.handle_blog_file("about.md", "# About\n", Metadata::Missing, walk(1));
    assert_eq!(added, Ok(false));
    let (generator, added) =
        generator.handle_blog_file("blog/2024-01-05-x.md", "# X\n", Metadata::Missing, walk(1));
    assert_eq!(added, Ok(true));
    let (generator, added) =
        generator.handle_blog_file("blog/readme.md", "# R\n", Metadata::Missing, walk(1));
    assert_eq!(added, Err(Error::InvalidBlogFilename { name: "readme".to_string() }));
    let (generator, added) =
        generator.handle_blog_file("blog/2024-01-07-y.md", "no title\n", Metadata::Missing, walk(1));
    assert_eq!(added, Err(Error::MissingTitle { path: "blog/2024-01-07-y.md".to_string() }));
    let (generator, added) =
        generator.handle_blog_file("blog/2024-01-06-z.md", "# Z\n", Metadata::Missing, walk(0));
    assert_eq!(added, Ok(true));
    let site = generator.build().unwrap();
    assert_eq!(slugs(&site.all_blog), vec!["z", "x"]);
    assert!(site.all_blog[0].commits.is_empty());
    assert_eq!(site.all_blog[1].commits.len(), 1);
    assert_eq!(site.feed.unwrap().pub_date, "Fri, 5 Jan 2024 00:00:00 +0000");
}

#[test]
fn walk_with_a_broken_time_leaves_the_entry_without_history() {
    let mut time = git_time_to_datetime(1_704_412_800, 0).unwrap();
    time.date = Date { year: 2024, month: 1, day: 6 };
    let broken = Ok(vec![Visit {
        commit: Commit { hash: "abc".to_string(), time, summary: None },
        changes: 1,
    }]);
    let (generator, added) = Generator::new(config()).handle_blog_file(
        "blog/2024-01-05-x.md",
        "# X\n",
        Metadata::Missing,
        broken,
    );
    assert_eq!(added, Ok(true));
    assert!(generator.build().unwrap().all_blog[0].commits.is_empty());
}

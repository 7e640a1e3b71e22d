use my_site_generator::text::{
    contains, is_stripped, matches_at, same_text, split, starts_with, trim, trim_end, trim_start,
    Trim,
};

#[test]
fn splitting_keeps_empty_pieces() {
    assert_eq!(split("a/b/c", '/'), vec!["a", "b", "c"]);
    assert_eq!(split("/a//b/", '/'), vec!["", "a", "", "b", ""]);
    assert_eq!(split("", '/'), vec![""]);
    assert_eq!(split("abc", '/'), vec!["abc"]);
    assert_eq!(split("日-本", '-'), vec!["日", "本"]);
}

#[test]
fn needles_are_found_where_they_stand() {
    assert!(matches_at("hello", "ll", 2));
    assert!(!matches_at("hello", "ll", 3));
    assert!(matches_at("hello", "", 5));
    assert!(!matches_at("hello", "", 6));
    assert!(!matches_at("hello", "lo!", 3));
    assert!(contains("a://b", "://"));
    assert!(contains("://", "://"));
    assert!(!contains(":/ /", "://"));
    assert!(contains("abc", ""));
    assert!(contains("", ""));
    assert!(!contains("", "a"));
    assert!(starts_with("mailto:x", "mailto:"));
    assert!(!starts_with("mail", "mailto:"));
    assert!(same_text("blog", "blog"));
    assert!(!same_text("blog", "blogs"));
    assert!(!same_text("blog", "bloG"));
}

#[test]
fn trimming_takes_the_ends_only() {
    assert_eq!(trim("  a b \n", Trim::Whitespace), "a b");
    assert_eq!(trim_start("  a b ", Trim::Whitespace), "a b ");
    assert_eq!(trim_end("  a b ", Trim::Whitespace), "  a b");
    assert_eq!(trim("---a-b--", Trim::Hyphens), "a-b");
    assert_eq!(trim("/blog/", Trim::Slashes), "blog");
    assert_eq!(trim("///", Trim::Slashes), "");
    assert_eq!(trim("", Trim::Whitespace), "");
    assert_eq!(trim("\u{3000}x\u{a0}\u{2003}", Trim::Whitespace), "x");
}

#[test]
fn whitespace_is_what_std_takes_for_it() {
    for code in 0..0x11000u32 {
        if let Some(c) = char::from_u32(code) {
            assert_eq!(is_stripped(Trim::Whitespace, c), c.is_whitespace(), "{:x}", code);
        }
    }
    assert!(is_stripped(Trim::Hyphens, '-'));
    assert!(!is_stripped(Trim::Hyphens, '_'));
    assert!(is_stripped(Trim::Slashes, '/'));
    assert!(!is_stripped(Trim::Slashes, '\\'));
}

use my_site_generator::blog::BlogEntry;
use my_site_generator::blog_name::parse_blog_file_name;
use my_site_generator::date::Date;
use my_site_generator::error::Error;

fn invalid(name: &str) -> Result<(Date, String), Error> {
    Err(Error::InvalidBlogFilename { name: name.to_string() })
}

#[test]
fn dated_name_gives_date_and_slug() {
    assert_eq!(
        parse_blog_file_name("2024-01-05-my-first-post"),
        Ok((Date { year: 2024, month: 1, day: 5 }, "my-first-post".to_string()))
    );
}

#[test]
fn month_thirteen_is_rejected() {
    assert_eq!(parse_blog_file_name("2024-13-05-x"), invalid("2024-13-05-x"));
}

#[test]
fn name_without_slug_is_rejected() {
    assert_eq!(parse_blog_file_name("2024-01-05"), invalid("2024-01-05"));
    assert_eq!(parse_blog_file_name("2024-01-05-"), invalid("2024-01-05-"));
}

#[test]
fn name_without_date_is_rejected() {
    assert_eq!(parse_blog_file_name("not-a-date-post"), invalid("not-a-date-post"));
    assert_eq!(parse_blog_file_name(""), invalid(""));
}

#[test]
fn days_that_the_month_lacks_are_rejected() {
    assert!(parse_blog_file_name("2023-02-31-x").is_err());
    assert!(parse_blog_file_name("2023-02-29-x").is_err());
    assert!(parse_blog_file_name("2024-04-31-x").is_err());
    assert!(parse_blog_file_name("2024-01-00-x").is_err());
    assert!(parse_blog_file_name("2024-00-10-x").is_err());
    assert!(parse_blog_file_name("1900-02-29-x").is_err());
}

#[test]
fn leap_days_are_accepted() {
    assert_eq!(
        parse_blog_file_name("2024-02-29-x"),
        Ok((Date { year: 2024, month: 2, day: 29 }, "x".to_string()))
    );
    assert_eq!(
        parse_blog_file_name("2000-02-29-x"),
        Ok((Date { year: 2000, month: 2, day: 29 }, "x".to_string()))
    );
    assert_eq!(
        parse_blog_file_name("0000-02-29-year-zero"),
        Ok((Date { year: 0, month: 2, day: 29 }, "year-zero".to_string()))
    );
}

#[test]
fn groups_must_have_their_width() {
    assert!(parse_blog_file_name("2024-1-5-x").is_err());
    assert!(parse_blog_file_name("24-01-05-x").is_err());
    assert!(parse_blog_file_name("02024-01-05-x").is_err());
    assert!(parse_blog_file_name("+024-01-05-x").is_err());
    assert!(parse_blog_file_name("2024_01_05_x").is_err());
    assert!(parse_blog_file_name("２０２４-01-05-x").is_err());
}

#[test]
fn slug_is_kept_as_written() {
    assert_eq!(
        parse_blog_file_name("9999-12-31---a--b-"),
        Ok((Date { year: 9999, month: 12, day: 31 }, "--a--b-".to_string()))
    );
    assert_eq!(
        parse_blog_file_name("2024-01-05-日本語"),
        Ok((Date { year: 2024, month: 1, day: 5 }, "日本語".to_string()))
    );
}

#[test]
fn path_is_parsed_by_its_file_stem() {
    assert_eq!(
        BlogEntry::parse_path("blog/2024-01-05-my-first-post.md"),
        Ok((Date { year: 2024, month: 1, day: 5 }, "my-first-post".to_string()))
    );
    assert_eq!(
        BlogEntry::parse_path("2024-01-05-v1.2.md"),
        Ok((Date { year: 2024, month: 1, day: 5 }, "v1.2".to_string()))
    );
    assert_eq!(BlogEntry::parse_path("blog/about.md"), invalid("about"));
    assert_eq!(BlogEntry::parse_path("blog/"), invalid(""));
}

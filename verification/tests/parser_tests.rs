use portfolio_blog::parser::{parse_metadata, parse_post, split_frontmatter, PostError};
use portfolio_blog::projects::ContentTag;

#[test]
fn split_frontmatter_separates_block_and_body() {
    let raw = "---\ntitle: \"t\"\n---\nbody text\n";
    let (fm, body) = split_frontmatter(raw).expect("delimiters present");
    assert_eq!(fm, "title: \"t\"\n");
    assert_eq!(body, "body text\n");
}

#[test]
fn split_frontmatter_without_opening_delimiter_fails() {
    assert!(matches!(
        split_frontmatter("title: t\nbody\n"),
        Err(PostError::MalformedPost)
    ));
}

#[test]
fn split_frontmatter_without_closing_delimiter_fails() {
    assert!(matches!(
        split_frontmatter("---\ntitle: t\nbody\n"),
        Err(PostError::MalformedPost)
    ));
}

#[test]
fn split_frontmatter_with_closing_delimiter_at_end() {
    let (fm, body) = split_frontmatter("---\na: b\n---").expect("delimiters present");
    assert_eq!(fm, "a: b\n");
    assert_eq!(body, "");
}

#[test]
fn parse_metadata_reads_all_fields() {
    let info = parse_metadata(
        "title: \"Hello\"\ntagline: \"a post\"\nimage: \"cover.png\"\ntags: [Rust, Website]\n",
    )
    .expect("metadata is valid");
    assert_eq!(info.title, "Hello");
    assert_eq!(info.tagline, "a post");
    assert_eq!(info.image, Some("cover.png".to_string()));
    assert_eq!(info.tags, vec![ContentTag::Rust, ContentTag::Website]);
    assert_eq!(info.created_at, 0);
}

#[test]
fn parse_metadata_unquoted_values_and_default_tags() {
    let info = parse_metadata("title: plain\ntagline: words here\n").expect("metadata is valid");
    assert_eq!(info.title, "plain");
    assert_eq!(info.tagline, "words here");
    assert_eq!(info.image, None);
    assert!(info.tags.is_empty());
}

#[test]
fn parse_metadata_empty_tag_list() {
    let info = parse_metadata("title: t\ntagline: s\ntags: []\n").expect("metadata is valid");
    assert!(info.tags.is_empty());
}

#[test]
fn parse_metadata_unknown_key_is_ignored() {
    let info = parse_metadata("title: t\ntagline: s\nauthor: someone\n").expect("metadata is valid");
    assert_eq!(info.title, "t");
}

#[test]
fn parse_metadata_missing_tagline_fails() {
    assert!(matches!(
        parse_metadata("title: t\n"),
        Err(PostError::InvalidMetadata)
    ));
}

#[test]
fn parse_metadata_line_without_colon_fails() {
    assert!(matches!(
        parse_metadata("title: t\ntagline\n"),
        Err(PostError::InvalidMetadata)
    ));
}

#[test]
fn parse_metadata_unrecognized_tag_fails_whole_post() {
    assert!(matches!(
        parse_metadata("title: t\ntagline: s\ntags: [Rust, Cobol]\n"),
        Err(PostError::InvalidMetadata)
    ));
}

#[test]
fn parse_post_combines_split_and_metadata() {
    let info = parse_post("---\ntitle: \"x\"\ntagline: \"y\"\n---\nbody\n").expect("post parses");
    assert_eq!(info.title, "x");
    assert_eq!(info.tagline, "y");
}

#[test]
fn parse_post_reports_malformed_before_invalid() {
    assert!(matches!(parse_post("plain text"), Err(PostError::MalformedPost)));
    assert!(matches!(
        parse_post("---\nnothing: here\n---\nbody\n"),
        Err(PostError::InvalidMetadata)
    ));
}

use portfolio_blog::blog::{index_blog_posts, BlogID, BlogPostIndex, BlogPostInfo, PostFile, TagFilterSet};
use portfolio_blog::parser::PostError;
use portfolio_blog::projects::ContentTag;

fn post_file(name: &str, content: &str, created_at: u64) -> PostFile {
    PostFile { file_name: name.to_string(), content: content.to_string(), created_at }
}

const POST_A: &str = "---\ntitle: \"Hello\"\ntagline: \"first post\"\ntags: [Rust]\n---\n# Hello\n";
const POST_B: &str = "---\ntitle: \"World\"\ntagline: \"second post\"\ntags: [Cpp, Rust]\n---\n# World\n";

fn two_post_index() -> BlogPostIndex {
    let files = vec![post_file("a.md", POST_A, 100), post_file("b.md", POST_B, 200)];
    index_blog_posts(&files).expect("both posts parse")
}

fn ids(list: &[(BlogID, BlogPostInfo)]) -> Vec<String> {
    list.iter().map(|e| e.0.file_name.clone()).collect()
}

#[test]
fn round_trip_two_files_two_entries() {
    let index = two_post_index();
    assert_eq!(index.entries.len(), 2);
    let mut found: Vec<String> = index.entries.iter().map(|e| e.0.file_name.clone()).collect();
    found.sort();
    assert_eq!(found, vec!["a".to_string(), "b".to_string()]);
}

#[test]
fn parsed_metadata_matches_frontmatter() {
    let index = two_post_index();
    let a = BlogID { file_name: "a".to_string() };
    let info = index.get(&a).expect("post a is indexed");
    assert_eq!(info.title, "Hello");
    assert_eq!(info.tagline, "first post");
    assert_eq!(info.image, None);
    assert_eq!(info.tags, vec![ContentTag::Rust]);
    assert_eq!(info.created_at, 100);
}

#[test]
fn lookup_miss_is_none() {
    let index = two_post_index();
    let missing = BlogID { file_name: "c".to_string() };
    assert!(index.get(&missing).is_none());
}

#[test]
fn list_posts_no_filter_returns_all_most_recent_first() {
    let index = two_post_index();
    let all = index.list_posts(&TagFilterSet { filters: vec![] });
    assert_eq!(ids(&all), vec!["b".to_string(), "a".to_string()]);
}

#[test]
fn list_posts_filter_rust_keeps_both() {
    let index = two_post_index();
    let rust = index.list_posts(&TagFilterSet { filters: vec![ContentTag::Rust] });
    assert_eq!(ids(&rust), vec!["b".to_string(), "a".to_string()]);
}

#[test]
fn list_posts_filter_cpp_keeps_one() {
    let index = two_post_index();
    let cpp = index.list_posts(&TagFilterSet { filters: vec![ContentTag::Cpp] });
    assert_eq!(ids(&cpp), vec!["b".to_string()]);
}

#[test]
fn list_posts_and_semantics_across_filters() {
    let index = two_post_index();
    let both = index.list_posts(&TagFilterSet { filters: vec![ContentTag::Cpp, ContentTag::Rust] });
    assert_eq!(ids(&both), vec!["b".to_string()]);
    let none = index.list_posts(&TagFilterSet { filters: vec![ContentTag::Game] });
    assert!(none.is_empty());
}

#[test]
fn list_posts_ties_broken_by_id_ascending() {
    let files = vec![
        post_file("zeta.md", POST_A, 500),
        post_file("alpha.md", POST_B, 500),
        post_file("mid.md", POST_A, 700),
    ];
    let index = index_blog_posts(&files).expect("posts parse");
    let all = index.list_posts(&TagFilterSet { filters: vec![] });
    assert_eq!(
        ids(&all),
        vec!["mid".to_string(), "alpha".to_string(), "zeta".to_string()]
    );
}

#[test]
fn as_sorted_vec_orders_by_descending_creation_time() {
    let index = two_post_index();
    let sorted = index.as_sorted_vec();
    assert_eq!(ids(&sorted), vec!["b".to_string(), "a".to_string()]);
}

#[test]
fn duplicate_post_id_last_entry_wins() {
    let files = vec![post_file("a.md", POST_A, 100), post_file("a.txt", POST_B, 300)];
    let index = index_blog_posts(&files).expect("posts parse");
    assert_eq!(index.entries.len(), 1);
    let a = BlogID { file_name: "a".to_string() };
    let info = index.get(&a).expect("post a is indexed");
    assert_eq!(info.title, "World");
    assert_eq!(info.created_at, 300);
}

#[test]
fn malformed_post_aborts_build() {
    let files = vec![
        post_file("a.md", POST_A, 100),
        post_file("broken.md", "no frontmatter here\njust text\n", 200),
    ];
    assert!(matches!(index_blog_posts(&files), Err(PostError::MalformedPost)));
}

#[test]
fn missing_title_is_invalid_metadata() {
    let files = vec![post_file("a.md", "---\ntagline: \"x\"\n---\nbody\n", 1)];
    assert!(matches!(index_blog_posts(&files), Err(PostError::InvalidMetadata)));
}

#[test]
fn unknown_tag_is_invalid_metadata() {
    let files = vec![post_file(
        "a.md",
        "---\ntitle: \"t\"\ntagline: \"x\"\ntags: [Fortran]\n---\nbody\n",
        1,
    )];
    assert!(matches!(index_blog_posts(&files), Err(PostError::InvalidMetadata)));
}

#[test]
fn empty_directory_builds_empty_index() {
    let files: Vec<PostFile> = vec![];
    let index = index_blog_posts(&files).expect("empty build succeeds");
    assert!(index.entries.is_empty());
    let all = index.list_posts(&TagFilterSet { filters: vec![] });
    assert!(all.is_empty());
}

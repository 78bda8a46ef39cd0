use portfolio_blog::blog::PostFile;
use portfolio_blog::cache::{BlogState, SharedCache};
use portfolio_blog::parser::PostError;

fn post_file(name: &str, content: &str, created_at: u64) -> PostFile {
    PostFile { file_name: name.to_string(), content: content.to_string(), created_at }
}

const POST: &str = "---\ntitle: \"Hello\"\ntagline: \"first\"\ntags: [Rust]\n---\nbody\n";

#[test]
fn load_records_directory_timestamp() {
    let files = vec![post_file("a.md", POST, 10)];
    let state = BlogState::load(&files, 77).expect("load succeeds");
    assert_eq!(state.creation_timestamp, 77);
    assert_eq!(state.index.entries.len(), 1);
}

#[test]
fn load_propagates_parse_errors() {
    let files = vec![post_file("a.md", "no delimiters", 10)];
    assert!(matches!(BlogState::load(&files, 77), Err(PostError::MalformedPost)));
}

#[test]
fn is_dirty_is_exact_timestamp_inequality() {
    let state = BlogState::load(&vec![], 77).expect("empty load succeeds");
    assert!(!state.is_dirty(77));
    assert!(state.is_dirty(76));
    assert!(state.is_dirty(78));
}

#[test]
fn fresh_cache_serves_same_generation_without_rebuild() {
    let state = BlogState::load(&vec![], 77).expect("empty load succeeds");
    let mut cache = SharedCache::new(state);
    assert_eq!(cache.generation, 0);
    assert!(!cache.needs_rebuild(77));
    cache.refresh(77, None);
    assert_eq!(cache.generation, 0);
    assert!(!cache.needs_rebuild(77));
    cache.refresh(77, None);
    assert_eq!(cache.generation, 0);
}

#[test]
fn directory_change_triggers_exactly_one_rebuild() {
    let state = BlogState::load(&vec![], 77).expect("empty load succeeds");
    let mut cache = SharedCache::new(state);
    assert!(cache.needs_rebuild(78));
    let fresh = BlogState::load(&vec![post_file("a.md", POST, 1)], 78).expect("load succeeds");
    cache.refresh(78, Some(fresh));
    assert_eq!(cache.generation, 1);
    assert_eq!(cache.current().index.entries.len(), 1);
    assert!(!cache.needs_rebuild(78));
    let again = BlogState::load(&vec![], 78).expect("load succeeds");
    cache.refresh(78, Some(again));
    assert_eq!(cache.generation, 1);
    assert_eq!(cache.current().index.entries.len(), 1);
}

#[test]
fn failed_rebuild_retains_last_good_snapshot() {
    let files = vec![post_file("a.md", POST, 1)];
    let state = BlogState::load(&files, 77).expect("load succeeds");
    let mut cache = SharedCache::new(state);
    assert!(cache.needs_rebuild(78));
    assert!(BlogState::load(&vec![post_file("bad.md", "oops", 2)], 78).is_err());
    cache.refresh(78, None);
    assert_eq!(cache.generation, 0);
    assert_eq!(cache.current().index.entries.len(), 1);
    assert_eq!(cache.current().creation_timestamp, 77);
}

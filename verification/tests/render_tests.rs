use portfolio_blog::blog::{stem_of, BlogID};
use portfolio_blog::helpers::remove_quotes;
use portfolio_blog::parser::PostError;
use portfolio_blog::projects::{
    all_content_tags, all_projects, tag_display, tag_from_token, tag_token, ContentTag, Project,
};
use portfolio_blog::render::{get_blog_post_date_str, render_post_html};
use portfolio_blog::blog::{is_tag_selected, TagFilterSet};

#[test]
fn render_post_html_renders_markdown_body() {
    let html = render_post_html("---\ntitle: \"t\"\ntagline: \"s\"\n---\n# Hi\n")
        .expect("delimiters present");
    assert!(html.contains("<h1>Hi</h1>"));
    assert!(!html.contains("---"));
    assert!(!html.contains("title"));
}

#[test]
fn render_post_html_fails_without_delimiters() {
    assert!(matches!(render_post_html("# Hi\n"), Err(PostError::MalformedPost)));
}

#[test]
fn date_string_is_utc_date_of_timestamp() {
    assert_eq!(get_blog_post_date_str(0), "Thu January 01, 1970");
    assert_eq!(get_blog_post_date_str(86_400), "Fri January 02, 1970");
}

#[test]
fn tag_tokens_round_trip() {
    for tag in all_content_tags() {
        let token = tag_token(tag);
        assert_eq!(tag_from_token(&token), Some(tag));
    }
}

#[test]
fn unknown_token_parses_to_none() {
    assert_eq!(tag_from_token("NotATag"), None);
    assert_eq!(tag_from_token(""), None);
    assert_eq!(tag_from_token("rust"), None);
}

#[test]
fn tag_display_names() {
    assert_eq!(tag_display(ContentTag::Cpp), "C++");
    assert_eq!(tag_display(ContentTag::GodotEngine), "Godot Engine");
    assert_eq!(tag_display(ContentTag::OpenSource), "Open Source Project");
}

#[test]
fn all_content_tags_lists_each_tag_once() {
    let tags = all_content_tags();
    assert_eq!(tags.len(), 10);
    for (i, a) in tags.iter().enumerate() {
        for b in tags.iter().skip(i + 1) {
            assert_ne!(a, b);
        }
    }
}

#[test]
fn project_cards_and_tags() {
    let projects = all_projects();
    assert_eq!(projects.len(), 5);
    assert!(matches!(projects[0].project, Project::Jem));
    assert_eq!(
        projects[0].get_tags(),
        vec![ContentTag::Cpp, ContentTag::GodotEngine, ContentTag::Game]
    );
    assert_eq!(projects[4].learn_more_link, "https://github.com/jordigulley/ticks");
    assert_eq!(
        projects[4].get_tags(),
        vec![ContentTag::Rust, ContentTag::WebDevelopment, ContentTag::OpenSource]
    );
}

#[test]
fn remove_quotes_strips_first_and_last_character() {
    assert_eq!(remove_quotes("\"Rust\"".to_string()), "Rust");
    assert_eq!(remove_quotes("ab".to_string()), "");
}

#[test]
fn stem_of_strips_extension() {
    assert_eq!(stem_of("hello.md"), "hello");
    assert_eq!(stem_of("archive.tar.gz"), "archive.tar");
    assert_eq!(stem_of("noext"), "noext");
}

#[test]
fn blog_id_empty_is_empty_string() {
    assert_eq!(BlogID::empty().file_name, "");
}

#[test]
fn tag_selected_only_when_filters_requested_hold_it() {
    let none: Option<TagFilterSet> = None;
    assert!(!is_tag_selected(&ContentTag::Rust, &none));
    let some = Some(TagFilterSet { filters: vec![ContentTag::Rust] });
    assert!(is_tag_selected(&ContentTag::Rust, &some));
    assert!(!is_tag_selected(&ContentTag::Cpp, &some));
}

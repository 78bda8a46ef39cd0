//! Rendering helpers around outside code: the Markdown renderer and the
//! date formatter. Each outside call sits behind a contract; everything
//! around it is verified.

use vstd::prelude::*;
use crate::parser::{split_frontmatter, spec_split_frontmatter, PostError};

verus! {

/// What the Markdown renderer returns for a given source text. The
/// rendering depends on the source text alone.
pub uninterp spec fn html_of(md: Seq<char>) -> Seq<char>;

/// Relies on markdown::to_html: turns Markdown into HTML. With default
/// options it never fails, and its output depends on its input alone.
#[verifier::external_body]
fn markdown_to_html(md: &str) -> (r: String)
    ensures
        r@ == html_of(md@),
{
    markdown::to_html(md)
}

/// The compute part of serving one post's page: splits the raw post file
/// and renders its Markdown body to HTML on demand. Purely functional;
/// fails with `MalformedPost` exactly when the file has no frontmatter
/// delimiter pair.
pub fn render_post_html(raw: &str) -> (r: Result<String, PostError>)
    ensures
        match r {
            Ok(html) => spec_split_frontmatter(raw@) is Some && html@ == html_of(
                spec_split_frontmatter(raw@).unwrap().1,
            ),
            Err(e) => e == PostError::MalformedPost && spec_split_frontmatter(raw@) is None,
        },
{
    match split_frontmatter(raw) {
        Ok(p) => Ok(markdown_to_html(p.1.as_str())),
        Err(e) => Err(e),
    }
}

/// What the date formatter returns for a given timestamp: the UTC date of
/// the moment that many seconds after the epoch, written out with fixed
/// English weekday and month names. Depends on the timestamp alone.
pub uninterp spec fn date_display_of(secs: u64) -> Seq<char>;

/// Relies on chrono's `DateTime::<Utc>::from_timestamp` and `format`: the
/// timestamp is taken as whole seconds since the epoch, turned into a UTC
/// date and written as weekday, month name, day and year. chrono formats
/// with fixed English names, so the result depends on the timestamp
/// alone; a timestamp out of chrono's range formats as the empty string.
#[verifier::external_body]
fn chrono_format_date(secs: u64) -> (r: String)
    ensures
        r@ == date_display_of(secs),
{
    match chrono::DateTime::<chrono::Utc>::from_timestamp(secs as i64, 0) {
        Some(d) => d.format("%a %B %d, %Y").to_string(),
        None => String::new(),
    }
}

/// The date line shown under a post: its creation time written out as a
/// UTC date.
pub fn get_blog_post_date_str(post_created_at: u64) -> (r: String)
    ensures
        r@ == date_display_of(post_created_at),
{
    chrono_format_date(post_created_at)
}

} // verus!

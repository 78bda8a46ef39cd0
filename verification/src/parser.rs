//! The post file parser: splits a raw post file into its frontmatter block
//! and Markdown body, and parses the frontmatter's line-delimited key/value
//! metadata into post metadata.
//!
//! A post file starts with a `---` delimiter line; the frontmatter block
//! runs until the next `---` delimiter line, and the body is everything
//! after it. Frontmatter fields are written one per line as `key: value`,
//! with optional double quotes around the value; the `tags` field holds a
//! bracketed, comma-separated list of tag tokens.

use vstd::prelude::*;
use crate::projects::{ContentTag, spec_tag_from_token, tag_from_token};
use crate::blog::{BlogPostInfo, PostMeta};

verus! {

/// Why a post file was rejected.
#[derive(Copy, Clone, PartialEq, Eq, Structural, Debug)]
pub enum PostError {
    /// No recognizable frontmatter delimiter pair was found.
    MalformedPost,
    /// A required field is missing, or a tag token is unrecognized, or a
    /// field line is malformed.
    InvalidMetadata,
}

/// The file opens with a `---` delimiter line.
pub open spec fn has_open_delim(raw: Seq<char>) -> bool {
    raw.len() >= 4 && raw[0] == '-' && raw[1] == '-' && raw[2] == '-' && raw[3] == '\n'
}

/// Position `i` of `s` starts a closing `---` delimiter line.
pub open spec fn close_at(s: Seq<char>, i: int) -> bool {
    &&& 0 <= i
    &&& i + 3 <= s.len()
    &&& (i == 0 || s[i - 1] == '\n')
    &&& s[i] == '-'
    &&& s[i + 1] == '-'
    &&& s[i + 2] == '-'
    &&& (i + 3 == s.len() || s[i + 3] == '\n')
}

/// The first closing delimiter position at or after `i`, if any.
pub open spec fn first_close_from(s: Seq<char>, i: int) -> Option<int>
    decreases s.len() - i,
{
    if i + 3 > s.len() {
        None
    } else if close_at(s, i) {
        Some(i)
    } else {
        first_close_from(s, i + 1)
    }
}

/// Splitting a raw post file: the frontmatter block between the opening
/// delimiter line and the first closing delimiter line, and the body after
/// the closing line. `None` when either delimiter is missing.
pub open spec fn spec_split_frontmatter(raw: Seq<char>) -> Option<(Seq<char>, Seq<char>)> {
    if !has_open_delim(raw) {
        None
    } else {
        let rest = raw.skip(4);
        match first_close_from(rest, 0) {
            None => None,
            Some(i) => Some(
                (
                    rest.take(i),
                    if i + 4 <= rest.len() {
                        rest.skip(i + 4)
                    } else {
                        Seq::empty()
                    },
                ),
            ),
        }
    }
}

/// Decides whether position `i` of `rest` starts a closing delimiter line.
fn close_at_exec(rest: &str, i: usize) -> (r: bool)
    requires
        i + 3 <= rest@.len(),
        rest@.len() <= usize::MAX,
    ensures
        r == close_at(rest@, i as int),
{
    (i == 0 || rest.get_char(i - 1) == '\n') && rest.get_char(i) == '-' && rest.get_char(i + 1)
        == '-' && rest.get_char(i + 2) == '-' && (i + 3 == rest.unicode_len() || rest.get_char(
        i + 3,
    ) == '\n')
}

/// Splits a raw post file into its frontmatter block and Markdown body.
/// Fails with `MalformedPost` exactly when no frontmatter delimiter pair is
/// found.
pub fn split_frontmatter(raw: &str) -> (r: Result<(String, String), PostError>)
    ensures
        match r {
            Ok(p) => spec_split_frontmatter(raw@) == Some((p.0@, p.1@)),
            Err(e) => e == PostError::MalformedPost && spec_split_frontmatter(raw@) is None,
        },
{
    let n = raw.unicode_len();
    if n < 4 || raw.get_char(0) != '-' || raw.get_char(1) != '-' || raw.get_char(2) != '-'
        || raw.get_char(3) != '\n' {
        return Err(PostError::MalformedPost);
    }
    let rest = raw.substring_char(4, n);
    proof {
        assert(rest@ =~= raw@.skip(4));
    }
    let m = n - 4;
    if m < 3 {
        return Err(PostError::MalformedPost);
    }
    let mut i: usize = 0;
    while i <= m - 3 && !close_at_exec(rest, i)
        invariant
            m == rest@.len(),
            rest@.len() <= usize::MAX,
            m >= 3,
            i <= m,
            first_close_from(rest@, 0) == first_close_from(rest@, i as int),
        decreases m - i,
    {
        i = i + 1;
    }
    if i > m - 3 {
        return Err(PostError::MalformedPost);
    }
    proof {
        assert(close_at(rest@, i as int));
        assert(first_close_from(rest@, 0) == Some(i as int));
    }
    let fm = rest.substring_char(0, i).to_owned();
    let body = if i + 4 <= m {
        rest.substring_char(i + 4, m).to_owned()
    } else {
        String::new()
    };
    proof {
        assert(fm@ =~= rest@.take(i as int));
        if i + 4 <= m {
            assert(body@ =~= rest@.skip(i + 4));
        } else {
            assert(body@ =~= Seq::<char>::empty());
        }
    }
    Ok((fm, body))
}

/// The first position at or after `i` where `sep` occurs, if any.
pub open spec fn first_at(s: Seq<char>, sep: char, i: int) -> Option<int>
    decreases s.len() - i,
{
    if i < 0 || i >= s.len() {
        None
    } else if s[i] == sep {
        Some(i)
    } else {
        first_at(s, sep, i + 1)
    }
}

/// What the first-occurrence position means: no earlier occurrence at or
/// after `from`, and an occurrence at the position itself.
pub proof fn lemma_first_at_props(s: Seq<char>, sep: char, from: int)
    requires
        0 <= from <= s.len(),
    ensures
        match first_at(s, sep, from) {
            Some(i) => from <= i < s.len() && s[i] == sep && forall|j: int|
                from <= j < i ==> s[j] != sep,
            None => forall|j: int| from <= j < s.len() ==> s[j] != sep,
        },
    decreases s.len() - from,
{
    if from < s.len() && s[from] != sep {
        lemma_first_at_props(s, sep, from + 1);
    }
}

/// The first occurrence of `sep` in `s` at or after position `from`.
fn find_char_from(s: &str, sep: char, from: usize) -> (r: Option<usize>)
    requires
        from <= s@.len(),
    ensures
        match r {
            Some(i) => from <= i < s@.len() && first_at(s@, sep, from as int) == Some(i as int),
            None => first_at(s@, sep, from as int) is None,
        },
{
    let n = s.unicode_len();
    let mut i: usize = from;
    while i < n && s.get_char(i) != sep
        invariant
            n == s@.len(),
            from <= i <= n,
            first_at(s@, sep, from as int) == first_at(s@, sep, i as int),
        decreases n - i,
    {
        i = i + 1;
    }
    if i < n {
        Some(i)
    } else {
        None
    }
}

/// Splitting `s` at every occurrence of `sep`: the list of separated
/// items, in order, each free of `sep`. The empty sequence splits into one
/// empty item.
pub open spec fn spec_split(s: Seq<char>, sep: char) -> Seq<Seq<char>>
    decreases s.len(),
{
    if s.len() == 0 {
        seq![s]
    } else if s[0] == sep {
        seq![Seq::<char>::empty()] + spec_split(s.drop_first(), sep)
    } else {
        let rest = spec_split(s.drop_first(), sep);
        seq![seq![s[0]] + rest[0]] + rest.skip(1)
    }
}

/// Splitting always yields at least one item.
pub proof fn lemma_split_len(s: Seq<char>, sep: char)
    ensures
        spec_split(s, sep).len() >= 1,
    decreases s.len(),
{
    if s.len() == 0 {
    } else {
        lemma_split_len(s.drop_first(), sep);
    }
}

/// Splitting a sequence whose first separator stands at `i`: the head item
/// is everything before `i`, and the rest is the splitting of everything
/// after `i`. With no separator at all, the sequence is its own single
/// item.
pub proof fn lemma_split_first(s: Seq<char>, sep: char, i: int)
    requires
        0 <= i <= s.len(),
        forall|j: int| 0 <= j < i ==> s[j] != sep,
        i < s.len() ==> s[i] == sep,
    ensures
        i == s.len() ==> spec_split(s, sep) =~~= seq![s],
        i < s.len() ==> spec_split(s, sep) =~~= seq![s.take(i)] + spec_split(s.skip(i + 1), sep),
    decreases s.len(),
{
    lemma_split_len(s, sep);
    if s.len() == 0 {
    } else if i == 0 {
        if i < s.len() {
            assert(s.skip(1) =~= s.drop_first());
            assert(s.take(0) =~= Seq::<char>::empty());
        }
    } else {
        let d = s.drop_first();
        lemma_split_len(d, sep);
        lemma_split_first(d, sep, i - 1);
        if i == s.len() {
            assert(d.len() == i - 1);
            assert(spec_split(d, sep) =~~= seq![d]);
            assert(seq![s[0]] + d =~= s);
        } else {
            assert(spec_split(d, sep) =~~= seq![d.take(i - 1)] + spec_split(d.skip(i), sep));
            assert(spec_split(d, sep)[0] == d.take(i - 1));
            assert(seq![s[0]] + d.take(i - 1) =~= s.take(i));
            assert(d.skip(i) =~= s.skip(i + 1));
            assert(spec_split(d, sep).skip(1) =~~= spec_split(s.skip(i + 1), sep));
        }
    }
}

/// Splits a string at every occurrence of `sep`.
fn split_on(s: &str, sep: char) -> (r: Vec<String>)
    ensures
        r.deep_view() =~~= spec_split(s@, sep),
{
    let n = s.unicode_len();
    let mut out: Vec<String> = Vec::new();
    let mut st: usize = 0;
    proof {
        assert(s@.skip(0) =~= s@);
        assert(out.deep_view() =~= Seq::<Seq<char>>::empty());
    }
    loop
        invariant
            n == s@.len(),
            st <= n,
            spec_split(s@, sep) =~~= out.deep_view() + spec_split(s@.skip(st as int), sep),
        decreases n - st + 1,
    {
        let ghost out_before = out.deep_view();
        match find_char_from(s, sep, st) {
            Some(i) => {
                let item = s.substring_char(st, i).to_owned();
                proof {
                    lemma_first_at_props(s@, sep, st as int);
                    assert(item@ =~= s@.skip(st as int).take(i - st));
                    assert forall|j: int| 0 <= j < i - st implies s@.skip(st as int)[j]
                        != sep by {
                        assert(s@.skip(st as int)[j] == s@[st + j]);
                    }
                    assert(s@.skip(st as int)[i - st] == sep);
                    lemma_split_first(s@.skip(st as int), sep, i - st);
                    assert(s@.skip(st as int).skip(i - st + 1) =~= s@.skip(i + 1));
                }
                out.push(item);
                proof {
                    assert(out.deep_view() =~= out_before.push(item@));
                    assert(spec_split(s@, sep) =~~= out.deep_view() + spec_split(
                        s@.skip(i + 1),
                        sep,
                    ));
                }
                st = i + 1;
            },
            None => {
                let item = s.substring_char(st, n).to_owned();
                proof {
                    lemma_first_at_props(s@, sep, st as int);
                    assert(item@ =~= s@.skip(st as int));
                    assert forall|j: int| 0 <= j < s@.skip(st as int).len() implies s@.skip(
                        st as int,
                    )[j] != sep by {
                        assert(s@.skip(st as int)[j] == s@[st + j]);
                    }
                    lemma_split_first(s@.skip(st as int), sep, s@.skip(st as int).len() as int);
                }
                out.push(item);
                proof {
                    assert(out.deep_view() =~= out_before.push(item@));
                    assert(spec_split(s@, sep) =~~= out.deep_view());
                }
                return out;
            },
        }
    }
}


/// A field value with surrounding double quotes stripped.
pub open spec fn spec_unquote(v: Seq<char>) -> Seq<char> {
    if v.len() >= 2 && v[0] == '"' && v[v.len() - 1] == '"' {
        v.subrange(1, v.len() - 1)
    } else {
        v
    }
}

/// Strips surrounding double quotes off a field value.
fn unquote(v: &str) -> (r: String)
    ensures
        r@ == spec_unquote(v@),
{
    let n = v.unicode_len();
    if n >= 2 && v.get_char(0) == '"' && v.get_char(n - 1) == '"' {
        let r = v.substring_char(1, n - 1).to_owned();
        proof {
            assert(r@ =~= spec_unquote(v@));
        }
        r
    } else {
        v.to_owned()
    }
}

/// A tag list item with one leading space dropped, as written after a
/// comma.
pub open spec fn spec_item_token(it: Seq<char>) -> Seq<char> {
    if it.len() > 0 && it[0] == ' ' {
        it.drop_first()
    } else {
        it
    }
}

/// Parsing a list of tag items: every item must be a tag token; one
/// unrecognized token rejects the whole list.
pub open spec fn spec_parse_tag_items(items: Seq<Seq<char>>) -> Option<Seq<ContentTag>>
    decreases items.len(),
{
    if items.len() == 0 {
        Some(Seq::empty())
    } else {
        match spec_tag_from_token(spec_item_token(items[0])) {
            None => None,
            Some(t) => match spec_parse_tag_items(items.drop_first()) {
                None => None,
                Some(ts) => Some(seq![t] + ts),
            },
        }
    }
}

/// Parsing a `tags` value: a bracketed, comma-separated list of tag
/// tokens. `None` when the brackets are missing or a token is
/// unrecognized.
pub open spec fn spec_parse_tags(v: Seq<char>) -> Option<Seq<ContentTag>> {
    if v.len() >= 2 && v[0] == '[' && v[v.len() - 1] == ']' {
        let inner = v.subrange(1, v.len() - 1);
        if inner.len() == 0 {
            Some(Seq::empty())
        } else {
            spec_parse_tag_items(spec_split(inner, ','))
        }
    } else {
        None
    }
}

/// Parses a `tags` value. Fails with `InvalidMetadata` exactly when the
/// value is not a bracketed list of recognized tag tokens.
fn parse_tags(v: &str) -> (r: Result<Vec<ContentTag>, PostError>)
    ensures
        match r {
            Ok(ts) => spec_parse_tags(v@) == Some(ts@),
            Err(e) => e == PostError::InvalidMetadata && spec_parse_tags(v@) is None,
        },
{
    let n = v.unicode_len();
    if !(n >= 2 && v.get_char(0) == '[' && v.get_char(n - 1) == ']') {
        return Err(PostError::InvalidMetadata);
    }
    let inner = v.substring_char(1, n - 1);
    proof {
        assert(inner@ =~= v@.subrange(1, v@.len() - 1));
    }
    let mut out: Vec<ContentTag> = Vec::new();
    if inner.unicode_len() == 0 {
        proof {
            assert(out@ =~= Seq::<ContentTag>::empty());
        }
        return Ok(out);
    }
    let items = split_on(inner, ',');
    let ghost idv = items.deep_view();
    let m = items.len();
    let mut k: usize = 0;
    proof {
        assert(idv.skip(0) =~= idv);
    }
    while k < m
        invariant
            m == idv.len(),
            idv == items.deep_view(),
            idv =~~= spec_split(inner@, ','),
            v@.len() >= 2 && v@[0] == '[' && v@[v@.len() - 1] == ']',
            inner@ == v@.subrange(1, v@.len() - 1),
            inner@.len() != 0,
            k <= m,
            spec_parse_tag_items(idv) == match spec_parse_tag_items(idv.skip(k as int)) {
                None => None::<Seq<ContentTag>>,
                Some(ts) => Some(out@ + ts),
            },
        decreases m - k,
    {
        let ghost out_before = out@;
        let item = &items[k];
        proof {
            assert(item@ == idv[k as int]);
        }
        let tok = if item.as_str().unicode_len() > 0 && item.as_str().get_char(0) == ' ' {
            item.as_str().substring_char(1, item.as_str().unicode_len()).to_owned()
        } else {
            item.clone()
        };
        proof {
            assert(tok@ =~= spec_item_token(idv[k as int]));
        }
        match tag_from_token(tok.as_str()) {
            Some(t) => {
                out.push(t);
                proof {
                    assert(idv.skip(k as int)[0] == idv[k as int]);
                    assert(idv.skip(k as int).drop_first() =~~= idv.skip(k + 1));
                    assert forall|ts: Seq<ContentTag>|
                        out_before + (seq![t] + ts) =~= out@ + ts by {}
                    assert(spec_parse_tag_items(idv) == match spec_parse_tag_items(
                        idv.skip(k + 1),
                    ) {
                        None => None::<Seq<ContentTag>>,
                        Some(ts) => Some(out@ + ts),
                    });
                }
            },
            None => {
                proof {
                    assert(idv.skip(k as int)[0] == idv[k as int]);
                    assert(spec_parse_tag_items(idv.skip(k as int)) is None);
                }
                return Err(PostError::InvalidMetadata);
            },
        }
        k = k + 1;
    }
    proof {
        assert(idv.skip(m as int) =~~= Seq::<Seq<char>>::empty());
        assert(spec_parse_tag_items(idv.skip(m as int)) == Some(Seq::<ContentTag>::empty()));
        assert(out@ + Seq::<ContentTag>::empty() =~= out@);
    }
    Ok(out)
}

/// The fields gathered while reading frontmatter lines.
pub struct FieldState {
    pub title: Option<Seq<char>>,
    pub tagline: Option<Seq<char>>,
    pub image: Option<Seq<char>>,
    pub tags: Option<Seq<ContentTag>>,
}

/// No field seen yet.
pub open spec fn init_fields() -> FieldState {
    FieldState { title: None, tagline: None, image: None, tags: None }
}

/// Reading one frontmatter line into the field state. Empty lines are
/// skipped; a line of an unknown key is ignored; a line without a colon,
/// or with an unparsable `tags` value, rejects the metadata. The value
/// begins after the colon, with one leading space and surrounding quotes
/// dropped. A repeated key overwrites the earlier value.
pub open spec fn spec_apply_line(f: FieldState, l: Seq<char>) -> Option<FieldState> {
    if l.len() == 0 {
        Some(f)
    } else {
        match first_at(l, ':', 0) {
            None => None,
            Some(i) => {
                let k = l.take(i);
                let after = l.skip(i + 1);
                let v = if after.len() > 0 && after[0] == ' ' {
                    after.drop_first()
                } else {
                    after
                };
                if k == "title"@ {
                    Some(FieldState { title: Some(spec_unquote(v)), ..f })
                } else if k == "tagline"@ {
                    Some(FieldState { tagline: Some(spec_unquote(v)), ..f })
                } else if k == "image"@ {
                    Some(FieldState { image: Some(spec_unquote(v)), ..f })
                } else if k == "tags"@ {
                    match spec_parse_tags(v) {
                        None => None,
                        Some(ts) => Some(FieldState { tags: Some(ts), ..f }),
                    }
                } else {
                    Some(f)
                }
            },
        }
    }
}

/// Reading frontmatter lines in order into the field state.
pub open spec fn spec_apply_lines(f: FieldState, ls: Seq<Seq<char>>) -> Option<FieldState>
    decreases ls.len(),
{
    if ls.len() == 0 {
        Some(f)
    } else {
        match spec_apply_line(f, ls[0]) {
            None => None,
            Some(f2) => spec_apply_lines(f2, ls.drop_first()),
        }
    }
}

/// Parsing a frontmatter block: its lines read in order, requiring title
/// and tagline, with the tag list defaulting to empty and the image
/// optional. The creation time is never taken from frontmatter; it is
/// filled in at index build time.
pub open spec fn spec_parse_metadata(fm: Seq<char>) -> Option<PostMeta> {
    match spec_apply_lines(init_fields(), spec_split(fm, '\n')) {
        None => None,
        Some(f) => if f.title is Some && f.tagline is Some {
            Some(
                PostMeta {
                    title: f.title.unwrap(),
                    tagline: f.tagline.unwrap(),
                    image: f.image,
                    tags: match f.tags {
                        Some(ts) => ts,
                        None => Seq::empty(),
                    },
                    created_at: 0,
                },
            )
        } else {
            None
        },
    }
}

/// The field state the gathered exec values stand for.
pub open spec fn fields_of(
    title: Option<String>,
    tagline: Option<String>,
    image: Option<String>,
    tags: Option<Vec<ContentTag>>,
) -> FieldState {
    FieldState {
        title: match title {
            Some(s) => Some(s@),
            None => None,
        },
        tagline: match tagline {
            Some(s) => Some(s@),
            None => None,
        },
        image: match image {
            Some(s) => Some(s@),
            None => None,
        },
        tags: match tags {
            Some(ts) => Some(ts@),
            None => None,
        },
    }
}

/// Parses a frontmatter block into post metadata, with the creation time
/// left at zero for the index builder to fill in. Fails with
/// `InvalidMetadata` exactly when a required field is missing, a field
/// line is malformed, or a tag is unrecognized.
pub fn parse_metadata(fm: &str) -> (r: Result<BlogPostInfo, PostError>)
    ensures
        match r {
            Ok(info) => spec_parse_metadata(fm@) == Some(info.deep_view()),
            Err(e) => e == PostError::InvalidMetadata && spec_parse_metadata(fm@) is None,
        },
{
    let lines = split_on(fm, '\n');
    let ghost ldv = lines.deep_view();
    let m = lines.len();
    let mut title: Option<String> = None;
    let mut tagline: Option<String> = None;
    let mut image: Option<String> = None;
    let mut tags: Option<Vec<ContentTag>> = None;
    let mut k: usize = 0;
    proof {
        assert(ldv.skip(0) =~~= ldv);
    }
    while k < m
        invariant
            m == ldv.len(),
            ldv == lines.deep_view(),
            ldv =~~= spec_split(fm@, '\n'),
            k <= m,
            spec_apply_lines(init_fields(), ldv) == spec_apply_lines(
                fields_of(title, tagline, image, tags),
                ldv.skip(k as int),
            ),
        decreases m - k,
    {
        let ghost fcur = fields_of(title, tagline, image, tags);
        proof {
            assert(ldv.skip(k as int)[0] == ldv[k as int]);
            assert(ldv.skip(k as int).drop_first() =~~= ldv.skip(k + 1));
        }
        let line = &lines[k];
        proof {
            assert(line@ == ldv[k as int]);
        }
        let n = line.as_str().unicode_len();
        if n > 0 {
            match find_char_from(line.as_str(), ':', 0) {
                None => {
                    proof {
                        assert(spec_apply_line(fcur, ldv[k as int]) is None);
                    }
                    return Err(PostError::InvalidMetadata);
                },
                Some(i) => {
                    let key = line.as_str().substring_char(0, i).to_owned();
                    let value = if i + 1 < n && line.as_str().get_char(i + 1) == ' ' {
                        line.as_str().substring_char(i + 2, n).to_owned()
                    } else {
                        line.as_str().substring_char(i + 1, n).to_owned()
                    };
                    proof {
                        let l = ldv[k as int];
                        let after = l.skip(i + 1);
                        assert(key@ =~= l.take(i as int));
                        if i + 1 < n && l[i + 1] == ' ' {
                            assert(value@ =~= after.drop_first());
                        } else {
                            assert(value@ =~= after);
                        }
                    }
                    if key == "title".to_owned() {
                        title = Some(unquote(value.as_str()));
                    } else if key == "tagline".to_owned() {
                        tagline = Some(unquote(value.as_str()));
                    } else if key == "image".to_owned() {
                        image = Some(unquote(value.as_str()));
                    } else if key == "tags".to_owned() {
                        match parse_tags(value.as_str()) {
                            Ok(ts) => {
                                tags = Some(ts);
                            },
                            Err(e) => {
                                proof {
                                    assert(spec_apply_line(fcur, ldv[k as int]) is None);
                                }
                                return Err(PostError::InvalidMetadata);
                            },
                        }
                    }
                    proof {
                        assert(spec_apply_line(fcur, ldv[k as int]) == Some(
                            fields_of(title, tagline, image, tags),
                        ));
                    }
                },
            }
        }
        k = k + 1;
    }
    proof {
        assert(ldv.skip(m as int) =~~= Seq::<Seq<char>>::empty());
        assert(spec_apply_lines(init_fields(), ldv) == Some(
            fields_of(title, tagline, image, tags),
        ));
    }
    let title = match title {
        Some(t) => t,
        None => {
            return Err(PostError::InvalidMetadata);
        },
    };
    let tagline = match tagline {
        Some(t) => t,
        None => {
            return Err(PostError::InvalidMetadata);
        },
    };
    let tags = match tags {
        Some(ts) => ts,
        None => Vec::new(),
    };
    let info = BlogPostInfo { title, tagline, image, tags, created_at: 0 };
    proof {
        assert(spec_parse_metadata(fm@) == Some(info.deep_view()));
    }
    Ok(info)
}

/// Parsing a whole post file: the frontmatter is split off and parsed;
/// the body plays no part in the metadata.
pub open spec fn spec_parse_post(raw: Seq<char>) -> Result<PostMeta, PostError> {
    match spec_split_frontmatter(raw) {
        None => Err(PostError::MalformedPost),
        Some(p) => match spec_parse_metadata(p.0) {
            None => Err(PostError::InvalidMetadata),
            Some(meta) => Ok(meta),
        },
    }
}

/// Parses a whole post file into its metadata, with the creation time
/// left at zero for the index builder to fill in.
pub fn parse_post(raw: &str) -> (r: Result<BlogPostInfo, PostError>)
    ensures
        match r {
            Ok(info) => spec_parse_post(raw@) == Ok::<PostMeta, PostError>(info.deep_view()),
            Err(e) => spec_parse_post(raw@) == Err::<PostMeta, PostError>(e),
        },
{
    let (fm, _body) = match split_frontmatter(raw) {
        Ok(p) => p,
        Err(e) => {
            return Err(e);
        },
    };
    match parse_metadata(fm.as_str()) {
        Ok(info) => Ok(info),
        Err(e) => Err(e),
    }
}

} // verus!

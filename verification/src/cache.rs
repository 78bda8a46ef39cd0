//! The snapshot of the blog directory and the process-wide cache that
//! holds it.
//!
//! The cache's methods express the check-staleness-and-rebuild step; the
//! serving layer drives them under one mutual-exclusion lock, performing
//! the directory reads between the calls, so that at most one rebuild of a
//! directory-change generation can ever run.

use vstd::prelude::*;
use crate::blog::{BlogPostIndex, PostFile, index_blog_posts, spec_build, PostMeta};
use crate::parser::{PostError, spec_parse_post};

verus! {

/// An immutable snapshot: the content index together with the directory
/// modification timestamp observed at the moment of build.
pub struct BlogState {
    pub index: BlogPostIndex,
    pub creation_timestamp: u64,
}

impl BlogState {
    /// Builds a snapshot from the post files read out of the directory
    /// and the directory modification timestamp observed alongside them.
    /// Fails with the first file's parse error.
    pub fn load(files: &Vec<PostFile>, dir_modified: u64) -> (r: Result<BlogState, PostError>)
        ensures
            match r {
                Ok(st) => st.index.wf() && st.index@ =~= spec_build(files@)
                    && st.creation_timestamp == dir_modified && (forall|i: int|
                    0 <= i < files@.len() ==> spec_parse_post(
                        (#[trigger] files@[i]).content@,
                    ) is Ok),
                Err(e) => exists|i: int|
                    0 <= i < files@.len() && spec_parse_post((#[trigger] files@[i]).content@)
                        == Err::<PostMeta, PostError>(e) && (forall|j: int|
                        0 <= j < i ==> spec_parse_post((#[trigger] files@[j]).content@) is Ok),
            },
    {
        match index_blog_posts(files) {
            Ok(index) => Ok(BlogState { index, creation_timestamp: dir_modified }),
            Err(e) => Err(e),
        }
    }

    /// Whether the directory changed since this snapshot was built: the
    /// observed directory timestamp differs, by exact inequality, from
    /// the one stored at build time.
    pub fn is_dirty(&self, dir_modified: u64) -> (r: bool)
        ensures
            r == (self.creation_timestamp != dir_modified),
    {
        self.creation_timestamp != dir_modified
    }
}

/// The holder of the current snapshot for the process lifetime. The
/// generation counts installed rebuilds; it never moves otherwise.
pub struct SharedCache {
    pub state: BlogState,
    pub generation: u64,
}

/// One pass of the serve path, at the model level: when the cache's
/// snapshot is stale for the observed directory timestamp, the freshly
/// built snapshot replaces it and the generation advances by one;
/// otherwise the cache is left untouched.
pub open spec fn spec_refresh(c: SharedCache, dir_modified: u64, rebuilt: BlogState) -> SharedCache {
    if c.state.creation_timestamp != dir_modified {
        SharedCache { state: rebuilt, generation: (c.generation + 1) as u64 }
    } else {
        c
    }
}

impl SharedCache {
    /// A cache holding the snapshot built at process start.
    pub fn new(initial: BlogState) -> (r: Self)
        ensures
            r.state == initial,
            r.generation == 0,
    {
        SharedCache { state: initial, generation: 0 }
    }

    /// Whether serving must rebuild first: the held snapshot is stale for
    /// the observed directory timestamp.
    pub fn needs_rebuild(&self, dir_modified: u64) -> (r: bool)
        ensures
            r == (self.state.creation_timestamp != dir_modified),
    {
        self.state.is_dirty(dir_modified)
    }

    /// The held snapshot.
    pub fn current(&self) -> (r: &BlogState)
        ensures
            *r == self.state,
    {
        &self.state
    }

    /// One pass of the serve path: the caller observed `dir_modified`,
    /// rebuilt exactly when the cache said the snapshot was stale, and
    /// hands the rebuilt snapshot in. On a rebuild failure the caller
    /// passes `None` for its branch instead, and the last good snapshot
    /// is retained unchanged.
    pub fn refresh(&mut self, dir_modified: u64, rebuilt: Option<BlogState>)
        requires
            old(self).generation < u64::MAX,
        ensures
            match rebuilt {
                Some(fresh) => *final(self) == spec_refresh(*old(self), dir_modified, fresh),
                None => *final(self) == *old(self),
            },
    {
        if self.state.is_dirty(dir_modified) {
            match rebuilt {
                Some(fresh) => {
                    self.state = fresh;
                    self.generation = self.generation + 1;
                },
                None => {
                },
            }
        }
    }
}

/// Asking the cache for the snapshot twice with no directory change in
/// between serves the same snapshot at the same generation: a cache that
/// is fresh for the observed timestamp is left exactly as it is, whatever
/// rebuilds are offered.
pub proof fn lemma_refresh_idempotent(
    c: SharedCache,
    dir_modified: u64,
    r1: BlogState,
    r2: BlogState,
)
    requires
        c.state.creation_timestamp == dir_modified,
    ensures
        spec_refresh(c, dir_modified, r1) == c,
        spec_refresh(spec_refresh(c, dir_modified, r1), dir_modified, r2) == c,
{
}

/// One directory-change generation triggers exactly one rebuild: a stale
/// cache advances its generation by exactly one when the rebuilt snapshot
/// is installed, and any later pass that observes the same directory
/// timestamp rebuilds nothing, however many such passes run.
pub proof fn lemma_one_rebuild_per_generation(
    c: SharedCache,
    dir_modified: u64,
    fresh: BlogState,
    later: BlogState,
)
    requires
        c.state.creation_timestamp != dir_modified,
        fresh.creation_timestamp == dir_modified,
        c.generation < u64::MAX,
    ensures
        spec_refresh(c, dir_modified, fresh).generation == c.generation + 1,
        spec_refresh(c, dir_modified, fresh).state == fresh,
        spec_refresh(spec_refresh(c, dir_modified, fresh), dir_modified, later) == spec_refresh(
            c,
            dir_modified,
            fresh,
        ),
{
}

} // verus!

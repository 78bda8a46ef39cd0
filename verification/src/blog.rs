//! The blog content index: post identifiers, post metadata, the immutable
//! index of parsed posts, and the query engine that filters posts by tag and
//! orders them by recency.

use vstd::prelude::*;
use crate::order::{lex_leq, str_lex_leq, lemma_lex_leq_total, lemma_lex_leq_trans, lemma_lex_leq_antisym};
use crate::projects::ContentTag;
use crate::parser::{PostError, spec_parse_post, parse_post};

verus! {

/// The stable identifier of a post: its filename with the extension
/// stripped. Equality is by exact string value.
pub struct BlogID {
    pub file_name: String,
}

impl View for BlogID {
    type V = Seq<char>;

    open spec fn view(&self) -> Seq<char> {
        self.file_name@
    }
}

impl DeepView for BlogID {
    type V = Seq<char>;

    open spec fn deep_view(&self) -> Seq<char> {
        self.file_name@
    }
}

impl Clone for BlogID {
    fn clone(&self) -> (r: Self)
        ensures
            r@ == self@,
    {
        BlogID { file_name: self.file_name.clone() }
    }
}

impl BlogID {
    /// The identifier made of the empty string.
    pub fn empty() -> (r: Self)
        ensures
            r@.len() == 0,
    {
        BlogID { file_name: String::new() }
    }
}

/// The metadata of one post, as the mathematical model speaks of it.
pub struct PostMeta {
    pub title: Seq<char>,
    pub tagline: Seq<char>,
    pub image: Option<Seq<char>>,
    pub tags: Seq<ContentTag>,
    pub created_at: u64,
}

/// The cached metadata of one post. The Markdown body is never stored here;
/// it is re-read from disk only when a single post's page is requested.
pub struct BlogPostInfo {
    pub title: String,
    pub tagline: String,
    pub image: Option<String>,
    pub tags: Vec<ContentTag>,
    pub created_at: u64,
}

impl DeepView for BlogPostInfo {
    type V = PostMeta;

    open spec fn deep_view(&self) -> PostMeta {
        PostMeta {
            title: self.title@,
            tagline: self.tagline@,
            image: match self.image {
                Some(s) => Some(s@),
                None => None,
            },
            tags: self.tags@,
            created_at: self.created_at,
        }
    }
}

/// Copies a tag list element by element.
fn clone_tags(v: &Vec<ContentTag>) -> (r: Vec<ContentTag>)
    ensures
        r@ == v@,
{
    let mut out: Vec<ContentTag> = Vec::new();
    let mut i: usize = 0;
    while i < v.len()
        invariant
            i <= v.len(),
            out@ =~= v@.take(i as int),
        decreases v.len() - i,
    {
        out.push(v[i]);
        proof {
            assert(out@ =~= v@.take(i + 1));
        }
        i = i + 1;
    }
    proof {
        assert(v@.take(v@.len() as int) =~= v@);
    }
    out
}

impl Clone for BlogPostInfo {
    fn clone(&self) -> (r: Self)
        ensures
            r.deep_view() == self.deep_view(),
    {
        let image = match &self.image {
            Some(s) => Some(s.clone()),
            None => None,
        };
        let r = BlogPostInfo {
            title: self.title.clone(),
            tagline: self.tagline.clone(),
            image,
            tags: clone_tags(&self.tags),
            created_at: self.created_at,
        };
        proof {
            assert(r.deep_view() == self.deep_view());
        }
        r
    }
}

/// The model of one index entry: identifier and metadata.
pub open spec fn entry_dv(e: (BlogID, BlogPostInfo)) -> (Seq<char>, PostMeta) {
    (e.0@, e.1.deep_view())
}

/// The model of a sequence of index entries.
pub open spec fn entries_dv(s: Seq<(BlogID, BlogPostInfo)>) -> Seq<(Seq<char>, PostMeta)> {
    s.map_values(|e: (BlogID, BlogPostInfo)| entry_dv(e))
}

/// The display order of posts: most recently created first, ties broken by
/// identifier in ascending lexicographic order.
pub open spec fn entry_leq(a: (Seq<char>, PostMeta), b: (Seq<char>, PostMeta)) -> bool {
    b.1.created_at < a.1.created_at || (a.1.created_at == b.1.created_at && lex_leq(a.0, b.0))
}

/// The display order relates every pair of entries.
pub proof fn lemma_entry_leq_total(a: (Seq<char>, PostMeta), b: (Seq<char>, PostMeta))
    ensures
        entry_leq(a, b) || entry_leq(b, a),
{
    lemma_lex_leq_total(a.0, b.0);
}

/// The display order is transitive.
pub proof fn lemma_entry_leq_trans(
    a: (Seq<char>, PostMeta),
    b: (Seq<char>, PostMeta),
    c: (Seq<char>, PostMeta),
)
    requires
        entry_leq(a, b),
        entry_leq(b, c),
    ensures
        entry_leq(a, c),
{
    if a.1.created_at == b.1.created_at && b.1.created_at == c.1.created_at {
        lemma_lex_leq_trans(a.0, b.0, c.0);
    }
}

/// The sequence is in display order: every earlier entry precedes every
/// later one.
pub open spec fn entries_sorted(s: Seq<(Seq<char>, PostMeta)>) -> bool {
    forall|i: int, j: int| 0 <= i < j < s.len() ==> entry_leq(#[trigger] s[i], #[trigger] s[j])
}

/// Decides the display order on two index entries.
fn entry_leq_exec(a: &(BlogID, BlogPostInfo), b: &(BlogID, BlogPostInfo)) -> (r: bool)
    ensures
        r == entry_leq(entry_dv(*a), entry_dv(*b)),
{
    if b.1.created_at < a.1.created_at {
        true
    } else if a.1.created_at == b.1.created_at {
        str_lex_leq(a.0.file_name.as_str(), b.0.file_name.as_str())
    } else {
        false
    }
}

/// The index of all parsed posts: an immutable mapping from post identifier
/// to post metadata. Entries are keyed uniquely; the order of the stored
/// entries is the order in which they were indexed.
pub struct BlogPostIndex {
    pub entries: Vec<(BlogID, BlogPostInfo)>,
}

impl View for BlogPostIndex {
    type V = Seq<(Seq<char>, PostMeta)>;

    open spec fn view(&self) -> Seq<(Seq<char>, PostMeta)> {
        entries_dv(self.entries@)
    }
}

/// Whether some entry of `s` has the identifier `id`.
pub open spec fn seq_contains_id(s: Seq<(Seq<char>, PostMeta)>, id: Seq<char>) -> bool {
    exists|i: int| 0 <= i < s.len() && (#[trigger] s[i]).0 == id
}

/// The position of an entry of `s` with identifier `id`.
pub open spec fn seq_idx_of(s: Seq<(Seq<char>, PostMeta)>, id: Seq<char>) -> int {
    choose|i: int| 0 <= i < s.len() && (#[trigger] s[i]).0 == id
}

/// Recording metadata under an identifier, at the model level: an entry
/// already keyed by `id` is overwritten in place, else the entry is
/// appended.
pub open spec fn upsert(
    s: Seq<(Seq<char>, PostMeta)>,
    id: Seq<char>,
    m: PostMeta,
) -> Seq<(Seq<char>, PostMeta)> {
    if seq_contains_id(s, id) {
        s.update(seq_idx_of(s, id), (id, m))
    } else {
        s.push((id, m))
    }
}

impl BlogPostIndex {
    /// No two entries share an identifier.
    pub open spec fn wf(&self) -> bool {
        forall|i: int, j: int|
            0 <= i < j < self@.len() ==> (#[trigger] self@[i]).0 != (#[trigger] self@[j]).0
    }

    /// Whether some entry has the identifier `id`.
    pub open spec fn contains_id(&self, id: Seq<char>) -> bool {
        seq_contains_id(self@, id)
    }

    /// The position of the entry with identifier `id`.
    pub open spec fn idx_of(&self, id: Seq<char>) -> int {
        seq_idx_of(self@, id)
    }

    /// The metadata stored under `id`.
    pub open spec fn spec_get(&self, id: Seq<char>) -> Option<PostMeta> {
        if self.contains_id(id) {
            Some(self@[self.idx_of(id)].1)
        } else {
            None
        }
    }

    /// In a well-formed index the entry at any position holding `id` is the
    /// entry `idx_of` names.
    pub proof fn lemma_idx_unique(&self, id: Seq<char>, i: int)
        requires
            self.wf(),
            0 <= i < self@.len(),
            self@[i].0 == id,
        ensures
            self.contains_id(id),
            self.idx_of(id) == i,
    {
        assert(self.contains_id(id));
        let j = self.idx_of(id);
        if i < j {
            assert(self@[i].0 != self@[j].0);
        } else if j < i {
            assert(self@[j].0 != self@[i].0);
        }
    }

    /// An empty index.
    pub fn new() -> (r: Self)
        ensures
            r@.len() == 0,
            r.wf(),
    {
        BlogPostIndex { entries: Vec::new() }
    }

    /// Records metadata under an identifier. If the identifier is already
    /// present its entry is overwritten in place (last entry wins);
    /// otherwise the entry is appended.
    pub fn insert(&mut self, id: BlogID, info: BlogPostInfo)
        requires
            old(self).wf(),
        ensures
            final(self).wf(),
            old(self).contains_id(id@) ==> final(self)@ =~= old(self)@.update(
                old(self).idx_of(id@),
                (id@, info.deep_view()),
            ),
            !old(self).contains_id(id@) ==> final(self)@ =~= old(self)@.push(
                (id@, info.deep_view()),
            ),
    {
        let ghost idv = id@;
        let ghost infodv = info.deep_view();
        let n = self.entries.len();
        let mut k: usize = 0;
        while k < n
            invariant
                n == self.entries@.len(),
                *self == *old(self),
                old(self).wf(),
                k <= n,
                forall|j: int| 0 <= j < k ==> (#[trigger] self@[j]).0 != id@,
                idv == id@,
                infodv == info.deep_view(),
            decreases n - k,
        {
            if self.entries[k].0.file_name == id.file_name {
                proof {
                    assert(self@[k as int].0 == idv);
                    old(self).lemma_idx_unique(idv, k as int);
                }
                self.entries.set(k, (id, info));
                proof {
                    assert(self@ =~= old(self)@.update(k as int, (idv, infodv)));
                    assert forall|i: int, j: int| 0 <= i < j < self@.len() implies (
                    #[trigger] self@[i]).0 != (#[trigger] self@[j]).0 by {
                        assert(old(self)@[i].0 != old(self)@[j].0);
                        assert(old(self)@[k as int].0 == idv);
                    }
                }
                return ;
            }
            k = k + 1;
        }
        proof {
            assert(!old(self).contains_id(idv));
        }
        self.entries.push((id, info));
        proof {
            assert(self@ =~= old(self)@.push((idv, infodv)));
            assert forall|i: int, j: int| 0 <= i < j < self@.len() implies (
            #[trigger] self@[i]).0 != (#[trigger] self@[j]).0 by {
                if j < old(self)@.len() {
                    assert(old(self)@[i].0 != old(self)@[j].0);
                } else {
                    assert(self@[j].0 == idv);
                    assert(old(self)@[i].0 != idv);
                }
            }
        }
    }

    /// Looks a post up by identifier. A miss is the normal not-found
    /// condition, distinct from any I/O failure.
    pub fn get(&self, id: &BlogID) -> (r: Option<&BlogPostInfo>)
        requires
            self.wf(),
        ensures
            match r {
                Some(info) => self.contains_id(id@) && Some(info.deep_view()) == self.spec_get(
                    id@,
                ),
                None => !self.contains_id(id@),
            },
    {
        let n = self.entries.len();
        let mut k: usize = 0;
        while k < n
            invariant
                self.wf(),
                n == self.entries@.len(),
                k <= n,
                forall|j: int| 0 <= j < k ==> (#[trigger] self@[j]).0 != id@,
            decreases n - k,
        {
            if self.entries[k].0.file_name == id.file_name {
                proof {
                    self.lemma_idx_unique(id@, k as int);
                }
                return Some(&self.entries[k].1);
            }
            k = k + 1;
        }
        None
    }

    /// All entries, ordered for display: most recent creation time first,
    /// ties broken by ascending identifier.
    pub fn as_sorted_vec(&self) -> (r: Vec<(BlogID, BlogPostInfo)>)
        ensures
            entries_dv(r@).to_multiset() == self@.to_multiset(),
            entries_sorted(entries_dv(r@)),
    {
        let n = self.entries.len();
        let mut out: Vec<(BlogID, BlogPostInfo)> = Vec::new();
        let mut i: usize = 0;
        proof {
            broadcast use vstd::seq_lib::group_to_multiset_ensures;

            assert(entries_dv(out@) =~= Seq::<(Seq<char>, PostMeta)>::empty());
            assert(entries_dv(self.entries@.take(0)) =~= Seq::<(Seq<char>, PostMeta)>::empty());
        }
        while i < n
            invariant
                n == self.entries@.len(),
                i <= n,
                entries_dv(out@).to_multiset() == entries_dv(
                    self.entries@.take(i as int),
                ).to_multiset(),
                entries_sorted(entries_dv(out@)),
            decreases n - i,
        {
            let e = (self.entries[i].0.clone(), self.entries[i].1.clone());
            proof {
                assert(entry_dv(e) == entry_dv(self.entries@[i as int]));
            }
            let m = out.len();
            let mut j: usize = 0;
            while j < m && !entry_leq_exec(&e, &out[j])
                invariant
                    m == out@.len(),
                    j <= m,
                    forall|t: int| 0 <= t < j ==> !entry_leq(
                        entry_dv(e),
                        entry_dv(#[trigger] out@[t]),
                    ),
                decreases m - j,
            {
                j = j + 1;
            }
            proof {
                let odv = entries_dv(out@);
                assert forall|t: int| 0 <= t < j implies entry_leq(odv[t], entry_dv(e)) by {
                    assert(odv[t] == entry_dv(out@[t]));
                    lemma_entry_leq_total(entry_dv(e), odv[t]);
                }
            }
            let ghost out_before = out@;
            let ghost edv = entry_dv(e);
            let ghost found = j < m;
            proof {
                if found {
                    assert(entry_leq(edv, entry_dv(out_before[j as int])));
                }
            }
            out.insert(j, e);
            proof {
                broadcast use vstd::seq_lib::group_to_multiset_ensures;

                let before = entries_dv(out_before);
                let after = entries_dv(out@);
                assert(after =~= before.insert(j as int, edv));
                vstd::seq_lib::to_multiset_insert(before, j as int, edv);
                assert(self.entries@.take(i + 1) =~= self.entries@.take(i as int).push(
                    self.entries@[i as int],
                ));
                assert(entries_dv(self.entries@.take(i + 1)) =~= entries_dv(
                    self.entries@.take(i as int),
                ).push(edv));
                assert(after.to_multiset() == entries_dv(self.entries@.take(i + 1)).to_multiset());
                assert forall|p: int, q: int| 0 <= p < q < after.len() implies entry_leq(
                    #[trigger] after[p],
                    #[trigger] after[q],
                ) by {
                    if q < j {
                        assert(after[p] == before[p] && after[q] == before[q]);
                    } else if p < j && q == j {
                        assert(entry_leq(before[p], edv));
                    } else if p < j && q > j {
                        assert(after[q] == before[q - 1]);
                        assert(entry_leq(before[p], before[q - 1]));
                    } else if p == j && q > j {
                        assert(entry_leq(edv, before[j as int]));
                        if q - 1 > j {
                            assert(entry_leq(before[j as int], before[q - 1]));
                            lemma_entry_leq_trans(edv, before[j as int], before[q - 1]);
                        }
                    } else {
                        assert(after[p] == before[p - 1] && after[q] == before[q - 1]);
                        assert(entry_leq(before[p - 1], before[q - 1]));
                    }
                }
            }
            i = i + 1;
        }
        proof {
            assert(self.entries@.take(n as int) =~= self.entries@);
        }
        out
    }
}


/// The requested tag filters of a list query, as handed in by the routing
/// layer.
pub struct TagFilterSet {
    pub filters: Vec<ContentTag>,
}

/// A post matches a filter set when its tag set is a superset of the
/// requested tags (AND semantics across filters).
pub open spec fn matches_filters(m: PostMeta, filters: Seq<ContentTag>) -> bool {
    forall|i: int| 0 <= i < filters.len() ==> m.tags.contains(#[trigger] filters[i])
}

/// Whether a tag list holds the tag `t`.
fn tag_list_contains(tags: &Vec<ContentTag>, t: ContentTag) -> (r: bool)
    ensures
        r == tags@.contains(t),
{
    let mut i: usize = 0;
    while i < tags.len()
        invariant
            i <= tags@.len(),
            forall|j: int| 0 <= j < i ==> tags@[j] != t,
        decreases tags@.len() - i,
    {
        if tags[i] == t {
            return true;
        }
        i = i + 1;
    }
    false
}

/// Decides whether a post's tags are a superset of the requested filters.
fn matches_filters_exec(info: &BlogPostInfo, filters: &Vec<ContentTag>) -> (r: bool)
    ensures
        r == matches_filters(info.deep_view(), filters@),
{
    let mut i: usize = 0;
    while i < filters.len()
        invariant
            i <= filters@.len(),
            forall|j: int| 0 <= j < i ==> info.deep_view().tags.contains(#[trigger] filters@[j]),
        decreases filters@.len() - i,
    {
        if !tag_list_contains(&info.tags, filters[i]) {
            return false;
        }
        i = i + 1;
    }
    true
}

/// Exactly what listing posts under a filter set returns: a sequence in
/// display order holding each matching snapshot entry with its
/// multiplicity, and nothing else.
pub open spec fn list_posts_post(
    snapshot: Seq<(Seq<char>, PostMeta)>,
    filters: Seq<ContentTag>,
    r: Seq<(Seq<char>, PostMeta)>,
) -> bool {
    &&& entries_sorted(r)
    &&& forall|e: (Seq<char>, PostMeta)|
        (#[trigger] r.to_multiset().count(e)) == if matches_filters(e.1, filters) {
            snapshot.to_multiset().count(e)
        } else {
            0
        }
}

impl BlogPostIndex {
    /// The posts whose tag set is a superset of the requested tags, in
    /// display order. With no tags requested, every post is returned.
    pub fn list_posts(&self, filters: &TagFilterSet) -> (r: Vec<(BlogID, BlogPostInfo)>)
        ensures
            list_posts_post(self@, filters.filters@, entries_dv(r@)),
    {
        let sorted = self.as_sorted_vec();
        let ghost sdv = entries_dv(sorted@);
        let n = sorted.len();
        let mut out: Vec<(BlogID, BlogPostInfo)> = Vec::new();
        let mut i: usize = 0;
        proof {
            broadcast use vstd::seq_lib::group_to_multiset_ensures;

            assert(entries_dv(out@) =~= Seq::<(Seq<char>, PostMeta)>::empty());
            assert(entries_dv(sorted@.take(0)) =~= Seq::<(Seq<char>, PostMeta)>::empty());
            assert(entries_dv(out@).to_multiset() =~= Seq::<(
                Seq<char>,
                PostMeta,
            )>::empty().to_multiset());
        }
        while i < n
            invariant
                n == sorted@.len(),
                i <= n,
                sdv == entries_dv(sorted@),
                sdv.to_multiset() == self@.to_multiset(),
                entries_sorted(sdv),
                entries_sorted(entries_dv(out@)),
                forall|t: int, u: int|
                    #![trigger entries_dv(out@)[t], sdv[u]]
                    0 <= t < out@.len() && i <= u < n ==> entry_leq(entries_dv(out@)[t], sdv[u]),
                forall|e: (Seq<char>, PostMeta)|
                    (#[trigger] entries_dv(out@).to_multiset().count(e)) == if matches_filters(
                        e.1,
                        filters.filters@,
                    ) {
                        entries_dv(sorted@.take(i as int)).to_multiset().count(e)
                    } else {
                        0
                    },
            decreases n - i,
        {
            let ghost out_before = out@;
            let ghost edv = entry_dv(sorted@[i as int]);
            if matches_filters_exec(&sorted[i].1, &filters.filters) {
                let e = (sorted[i].0.clone(), sorted[i].1.clone());
                proof {
                    assert(entry_dv(e) == edv);
                    assert(edv.1 == sorted@[i as int].1.deep_view());
                }
                out.push(e);
                proof {
                    assert(entries_dv(out@) =~= entries_dv(out_before).push(edv));
                    assert forall|p: int, q: int|
                        0 <= p < q < entries_dv(out@).len() implies entry_leq(
                        #[trigger] entries_dv(out@)[p],
                        #[trigger] entries_dv(out@)[q],
                    ) by {
                        if q < entries_dv(out_before).len() {
                            assert(entry_leq(entries_dv(out_before)[p], entries_dv(out_before)[q]));
                        } else {
                            assert(entries_dv(out@)[q] == sdv[i as int]);
                        }
                    }
                }
            }
            proof {
                broadcast use vstd::seq_lib::group_to_multiset_ensures;

                assert(sorted@.take(i + 1) =~= sorted@.take(i as int).push(sorted@[i as int]));
                assert(entries_dv(sorted@.take(i + 1)) =~= entries_dv(sorted@.take(i as int)).push(
                    edv,
                ));
                if matches_filters(edv.1, filters.filters@) {
                    assert(entries_dv(out@) =~= entries_dv(out_before).push(edv));
                }
                assert forall|t: int, u: int|
                    #![trigger entries_dv(out@)[t], sdv[u]]
                    0 <= t < out@.len() && i + 1 <= u < n implies entry_leq(
                    entries_dv(out@)[t],
                    sdv[u],
                ) by {
                    if t < out_before.len() {
                        assert(entries_dv(out@)[t] == entries_dv(out_before)[t]);
                        assert(entry_leq(entries_dv(out_before)[t], sdv[u]));
                    } else {
                        assert(entries_dv(out@)[t] == sdv[i as int]);
                        assert(entry_leq(sdv[i as int], sdv[u]));
                    }
                }
                assert forall|e: (Seq<char>, PostMeta)|
                    (#[trigger] entries_dv(out@).to_multiset().count(e)) == (if matches_filters(
                        e.1,
                        filters.filters@,
                    ) {
                        entries_dv(sorted@.take(i + 1)).to_multiset().count(e)
                    } else {
                        0
                    }) by {
                    assert(entries_dv(sorted@.take(i + 1)).to_multiset() == entries_dv(
                        sorted@.take(i as int),
                    ).to_multiset().insert(edv));
                    if matches_filters(edv.1, filters.filters@) {
                        assert(entries_dv(out@).to_multiset() == entries_dv(
                            out_before,
                        ).to_multiset().insert(edv));
                    }
                }
            }
            i = i + 1;
        }
        proof {
            assert(sorted@.take(n as int) =~= sorted@);
        }
        out
    }
}

/// Narrowing by more tags never adds posts: every entry listed under a
/// filter set is listed under any subset of it (monotonic narrowing).
pub proof fn lemma_list_posts_monotonic(
    snapshot: Seq<(Seq<char>, PostMeta)>,
    t1: Seq<ContentTag>,
    t2: Seq<ContentTag>,
    r1: Seq<(Seq<char>, PostMeta)>,
    r2: Seq<(Seq<char>, PostMeta)>,
)
    requires
        forall|t: ContentTag| t1.contains(t) ==> t2.contains(t),
        list_posts_post(snapshot, t1, r1),
        list_posts_post(snapshot, t2, r2),
    ensures
        forall|e: (Seq<char>, PostMeta)| #[trigger] r2.contains(e) ==> r1.contains(e),
{
    broadcast use vstd::seq_lib::group_to_multiset_ensures;

    assert forall|e: (Seq<char>, PostMeta)| #[trigger] r2.contains(e) implies r1.contains(e) by {
        assert(r2.to_multiset().count(e) > 0);
        assert(matches_filters(e.1, t2));
        assert forall|i: int| 0 <= i < t1.len() implies e.1.tags.contains(#[trigger] t1[i]) by {
            assert(t1.contains(t1[i]));
            assert(t2.contains(t1[i]));
            let j = choose|j: int| 0 <= j < t2.len() && t2[j] == t1[i];
            assert(e.1.tags.contains(t2[j]));
        }
        assert(matches_filters(e.1, t1));
        assert(r1.to_multiset().count(e) == snapshot.to_multiset().count(e));
        assert(r2.to_multiset().count(e) == snapshot.to_multiset().count(e));
        assert(r1.to_multiset().count(e) > 0);
    }
}

/// With no tags requested, listing returns all entries of the snapshot, in
/// display order: most recent creation time first, ties broken by
/// ascending identifier.
pub proof fn lemma_list_posts_no_filter(
    snapshot: Seq<(Seq<char>, PostMeta)>,
    r: Seq<(Seq<char>, PostMeta)>,
)
    requires
        list_posts_post(snapshot, Seq::<ContentTag>::empty(), r),
    ensures
        entries_sorted(r),
        r.to_multiset() == snapshot.to_multiset(),
{
    assert forall|e: (Seq<char>, PostMeta)|
        r.to_multiset().count(e) == snapshot.to_multiset().count(e) by {
        assert(matches_filters(e.1, Seq::<ContentTag>::empty()));
        assert(r.to_multiset().count(e) == snapshot.to_multiset().count(e));
    }
    assert(r.to_multiset() =~= snapshot.to_multiset());
}


/// Whether a tag chip is shown as selected: some tags are requested and
/// this tag stands among them.
pub fn is_tag_selected(tag: &ContentTag, current_filter_set: &Option<TagFilterSet>) -> (r: bool)
    ensures
        r == match current_filter_set {
            Some(fs) => fs.filters@.contains(*tag),
            None => false,
        },
{
    match current_filter_set {
        Some(fs) => tag_list_contains(&fs.filters, *tag),
        None => false,
    }
}

/// One post file as read from the post directory: its filename, its full
/// content, and its creation time as reported by the filesystem.
pub struct PostFile {
    pub file_name: String,
    pub content: String,
    pub created_at: u64,
}

/// The position of the last dot before position `i` of `name`, if any.
pub open spec fn last_dot_before(name: Seq<char>, i: int) -> Option<int>
    decreases i,
{
    if i <= 0 {
        None
    } else if name[i - 1] == '.' {
        Some(i - 1)
    } else {
        last_dot_before(name, i - 1)
    }
}

/// A filename with its extension stripped: everything before the last
/// dot, or the whole name when it has no dot.
pub open spec fn spec_stem(name: Seq<char>) -> Seq<char> {
    match last_dot_before(name, name.len() as int) {
        None => name,
        Some(i) => name.take(i),
    }
}

/// Strips the extension off a filename.
pub fn stem_of(name: &str) -> (r: String)
    ensures
        r@ == spec_stem(name@),
{
    let n = name.unicode_len();
    let mut i: usize = n;
    while i > 0 && name.get_char(i - 1) != '.'
        invariant
            n == name@.len(),
            i <= n,
            last_dot_before(name@, n as int) == last_dot_before(name@, i as int),
        decreases i,
    {
        i = i - 1;
    }
    if i == 0 {
        name.to_owned()
    } else {
        let r = name.substring_char(0, i - 1).to_owned();
        proof {
            assert(r@ =~= name@.take(i - 1));
        }
        r
    }
}

/// The metadata an indexed post file stands for: its parsed frontmatter
/// with the file's creation time filled in.
pub open spec fn file_meta(f: PostFile) -> PostMeta {
    match spec_parse_post(f.content@) {
        Ok(m) => PostMeta { created_at: f.created_at, ..m },
        Err(_) => PostMeta {
            title: Seq::empty(),
            tagline: Seq::empty(),
            image: None,
            tags: Seq::empty(),
            created_at: f.created_at,
        },
    }
}

/// The index built from post files in order: each file's entry is keyed
/// by its filename minus extension, and a later file with the same key
/// silently overwrites an earlier one (last entry wins).
pub open spec fn spec_build(files: Seq<PostFile>) -> Seq<(Seq<char>, PostMeta)>
    decreases files.len(),
{
    if files.len() == 0 {
        Seq::empty()
    } else {
        let prev = spec_build(files.drop_last());
        let f = files.last();
        upsert(prev, spec_stem(f.file_name@), file_meta(f))
    }
}

/// Builds the content index from the post files of the directory, in the
/// order the filesystem reported them. Fails with the first file's parse
/// error; one bad post aborts the whole build.
pub fn index_blog_posts(files: &Vec<PostFile>) -> (r: Result<BlogPostIndex, PostError>)
    ensures
        match r {
            Ok(index) => index.wf() && index@ =~= spec_build(files@) && (forall|i: int|
                0 <= i < files@.len() ==> spec_parse_post(
                    (#[trigger] files@[i]).content@,
                ) is Ok),
            Err(e) => exists|i: int|
                0 <= i < files@.len() && spec_parse_post((#[trigger] files@[i]).content@)
                    == Err::<PostMeta, PostError>(e) && (forall|j: int|
                    0 <= j < i ==> spec_parse_post((#[trigger] files@[j]).content@) is Ok),
        },
{
    let n = files.len();
    let mut index = BlogPostIndex::new();
    let mut i: usize = 0;
    proof {
        assert(index@ =~= spec_build(files@.take(0)));
    }
    while i < n
        invariant
            n == files@.len(),
            i <= n,
            index.wf(),
            index@ =~= spec_build(files@.take(i as int)),
            forall|j: int| 0 <= j < i ==> spec_parse_post((#[trigger] files@[j]).content@) is Ok,
        decreases n - i,
    {
        let ghost index_before = index@;
        let mut info = match parse_post(files[i].content.as_str()) {
            Ok(info) => info,
            Err(e) => {
                return Err(e);
            },
        };
        info.created_at = files[i].created_at;
        proof {
            assert(info.deep_view() == file_meta(files@[i as int]));
        }
        let id = BlogID { file_name: stem_of(files[i].file_name.as_str()) };
        proof {
            assert(id@ == spec_stem(files@[i as int].file_name@));
        }
        index.insert(id, info);
        proof {
            assert(files@.take(i + 1).drop_last() =~= files@.take(i as int));
            assert(files@.take(i + 1).last() == files@[i as int]);
            assert(index@ =~= upsert(
                index_before,
                spec_stem(files@[i as int].file_name@),
                file_meta(files@[i as int]),
            ));
            assert(index@ =~= spec_build(files@.take(i + 1)));
        }
        i = i + 1;
    }
    proof {
        assert(files@.take(n as int) =~= files@);
    }
    Ok(index)
}

/// Building from valid post files whose filenames (minus extension) are
/// all distinct yields exactly one entry per file, in file order, each
/// keyed by its filename minus extension and carrying its parsed
/// metadata.
pub proof fn lemma_build_round_trip(files: Seq<PostFile>)
    requires
        forall|i: int|
            0 <= i < files.len() ==> spec_parse_post((#[trigger] files[i]).content@) is Ok,
        forall|i: int, j: int|
            0 <= i < j < files.len() ==> spec_stem((#[trigger] files[i]).file_name@) != spec_stem(
                (#[trigger] files[j]).file_name@,
            ),
    ensures
        spec_build(files).len() == files.len(),
        forall|i: int|
            0 <= i < files.len() ==> (#[trigger] spec_build(files)[i]) == (
                spec_stem(files[i].file_name@),
                file_meta(files[i]),
            ),
    decreases files.len(),
{
    if files.len() > 0 {
        let d = files.drop_last();
        let f = files.last();
        lemma_build_round_trip(d);
        let prev = spec_build(d);
        assert forall|i: int| 0 <= i < prev.len() implies prev[i].0 != spec_stem(
            f.file_name@,
        ) by {
            assert(prev[i] == (spec_stem(d[i].file_name@), file_meta(d[i])));
            assert(spec_stem(files[i].file_name@) != spec_stem(
                files[files.len() - 1].file_name@,
            ));
        }
        assert(!seq_contains_id(prev, spec_stem(f.file_name@)));
        assert(spec_build(files) =~= prev.push((spec_stem(f.file_name@), file_meta(f))));
    }
}


/// The display order is deterministic: two sequences in display order that
/// hold the same entries, keyed uniquely, are one and the same sequence.
pub proof fn lemma_display_order_deterministic(
    x: Seq<(Seq<char>, PostMeta)>,
    y: Seq<(Seq<char>, PostMeta)>,
)
    requires
        entries_sorted(x),
        entries_sorted(y),
        x.to_multiset() == y.to_multiset(),
        forall|i: int, j: int| 0 <= i < j < x.len() ==> (#[trigger] x[i]).0 != (#[trigger] x[j]).0,
    ensures
        x =~= y,
    decreases x.len(),
{
    broadcast use vstd::seq_lib::group_to_multiset_ensures;
    broadcast use vstd::multiset::group_multiset_axioms;

    if x.len() == 0 {
        assert(y.to_multiset().len() == 0);
    } else {
        assert(x.to_multiset().contains(x[0]));
        assert(y.to_multiset().contains(y[0]));
        assert(x.to_multiset().contains(y[0]));
        assert(y.to_multiset().contains(x[0]));
        let i = choose|i: int| 0 <= i < x.len() && x[i] == y[0];
        let j = choose|j: int| 0 <= j < y.len() && y[j] == x[0];
        assert(x[i] == y[0] && y[j] == x[0]);
        if i != 0 {
            assert(entry_leq(x[0], x[i]));
            assert(entry_leq(y[0], y[j]));
            assert(x[0].1.created_at == x[i].1.created_at);
            assert(lex_leq(x[0].0, x[i].0) && lex_leq(x[i].0, x[0].0));
            lemma_lex_leq_antisym(x[0].0, x[i].0);
            assert(x[0].0 != x[i].0);
            assert(false);
        }
        assert(x[0] == y[0]);
        let xd = x.drop_first();
        let yd = y.drop_first();
        assert(xd =~= x.remove(0));
        assert(yd =~= y.remove(0));
        vstd::seq_lib::to_multiset_remove(x, 0);
        vstd::seq_lib::to_multiset_remove(y, 0);
        assert(xd.to_multiset() == x.to_multiset().remove(x[0]));
        assert(yd.to_multiset() == y.to_multiset().remove(y[0]));
        assert forall|p: int, q: int| 0 <= p < q < xd.len() implies (#[trigger] xd[p]).0 != (
        #[trigger] xd[q]).0 by {
            assert(xd[p] == x[p + 1] && xd[q] == x[q + 1]);
        }
        assert forall|p: int, q: int| 0 <= p < q < xd.len() implies entry_leq(
            #[trigger] xd[p],
            #[trigger] xd[q],
        ) by {
            assert(xd[p] == x[p + 1] && xd[q] == x[q + 1]);
        }
        assert forall|p: int, q: int| 0 <= p < q < yd.len() implies entry_leq(
            #[trigger] yd[p],
            #[trigger] yd[q],
        ) by {
            assert(yd[p] == y[p + 1] && yd[q] == y[q + 1]);
        }
        lemma_display_order_deterministic(xd, yd);
        assert forall|k: int| 0 <= k < x.len() implies x[k] == y[k] by {
            if k > 0 {
                assert(x[k] == xd[k - 1] && y[k] == yd[k - 1]);
            }
        }
    }
}

} // verus!

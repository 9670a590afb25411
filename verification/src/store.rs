//! The storage facade: a content store for posts and resources combined with
//! an append-only, hash-chained commit log.
//!
//! Every mutating operation performs its content change and appends exactly
//! one commit record describing it, so the content and the chain never
//! observably diverge.

use vstd::prelude::*;
use vstd::utf8::encode_utf8;

use crate::digest::commit_digest;
use crate::digest::commit_wf;
use crate::models::Commit;
use crate::pagination::PaginatedList;
use crate::pagination::Pagination;
use crate::models::CommitPayload;
use crate::models::CommitV;
use crate::models::Delta;
use crate::models::PayloadV;
use crate::models::post_bundle_view;
use crate::models::Post;
use crate::models::PostV;
use crate::models::Resource;
use crate::models::ResourceId;
use crate::models::ResourceV;

verus! {

// Equality of string slices is equality of their character sequences
// (std documents `str` equality as comparing the underlying text).
pub assume_specification[ <str as PartialEq<str>>::eq ](a: &str, b: &str) -> (r: bool)
    ensures
        r == (a@ == b@),
;

/// Decide whether two string slices hold the same text.
pub fn str_eq(a: &str, b: &str) -> (r: bool)
    ensures
        r == (a@ == b@),
{
    <str as PartialEq<str>>::eq(a, b)
}

/// Errors reported by the storage facade.
#[derive(Clone, Copy, Debug, PartialEq, Eq, Structural)]
pub enum StorageError {
    /// A unique-key violation on insert.
    Conflict,
    /// The entity addressed by a mutation does not exist.
    NotFound,
}

/// Strict lexicographic order on byte sequences.
#[verifier::opaque]
pub open spec fn bytes_lt(a: Seq<u8>, b: Seq<u8>) -> bool
    decreases a.len(),
{
    if b.len() == 0 {
        false
    } else if a.len() == 0 {
        true
    } else if a[0] != b[0] {
        a[0] < b[0]
    } else {
        bytes_lt(a.drop_first(), b.drop_first())
    }
}

/// Lexicographic order is transitive.
pub proof fn lemma_bytes_lt_trans(a: Seq<u8>, b: Seq<u8>, c: Seq<u8>)
    requires
        bytes_lt(a, b),
        bytes_lt(b, c),
    ensures
        bytes_lt(a, c),
    decreases a.len(),
{
    reveal(bytes_lt);
    if a.len() != 0 && b.len() != 0 && c.len() != 0 && a[0] == b[0] && b[0] == c[0] {
        lemma_bytes_lt_trans(a.drop_first(), b.drop_first(), c.drop_first());
    }
}

/// The UTF-8 bytes of a slug, under which slugs are compared.
#[verifier::opaque]
pub open spec fn slug_bytes(s: Seq<char>) -> Seq<u8> {
    encode_utf8(s)
}

/// The order in which posts are listed: by creation timestamp descending,
/// with ties broken by slug in ascending lexicographic order of its UTF-8
/// bytes. `listed_before(a, b)` says that `a` is listed strictly before `b`.
pub open spec fn listed_before(a: PostV, b: PostV) -> bool {
    ||| a.create_timestamp > b.create_timestamp
    ||| (a.create_timestamp == b.create_timestamp && bytes_lt(
        slug_bytes(a.slug),
        slug_bytes(b.slug),
    ))
}

/// Non-strict companion of [`listed_before`]: `a` need not be listed after
/// `b`.
pub open spec fn listed_no_later(a: PostV, b: PostV) -> bool {
    ||| a.create_timestamp > b.create_timestamp
    ||| (a.create_timestamp == b.create_timestamp && !bytes_lt(
        slug_bytes(b.slug),
        slug_bytes(a.slug),
    ))
}

/// A sequence of posts is in listing order.
pub open spec fn posts_ordered(posts: Seq<PostV>) -> bool {
    forall|i: int, j: int|
        0 <= i < j < posts.len() ==> listed_no_later(#[trigger] posts[i], #[trigger] posts[j])
}

fn bytes_lt_exec(a: &[u8], b: &[u8]) -> (r: bool)
    ensures
        r == bytes_lt(a@, b@),
    decreases a@.len(),
{
    proof {
        reveal(bytes_lt);
    }
    if b.len() == 0 {
        false
    } else if a.len() == 0 {
        true
    } else if a[0] != b[0] {
        a[0] < b[0]
    } else {
        let ra = vstd::slice::slice_subrange(a, 1, a.len());
        let rb = vstd::slice::slice_subrange(b, 1, b.len());
        proof {
            assert(ra@ =~= a@.drop_first());
            assert(rb@ =~= b@.drop_first());
        }
        bytes_lt_exec(ra, rb)
    }
}

/// Decide whether post `a` is listed strictly before post `b`.
fn listed_before_exec(a: &Post, b: &Post) -> (r: bool)
    ensures
        r == listed_before(a@, b@),
{
    proof {
        reveal(slug_bytes);
    }
    if a.create_timestamp > b.create_timestamp {
        true
    } else if a.create_timestamp == b.create_timestamp {
        bytes_lt_exec(a.slug.as_str().as_bytes(), b.slug.as_str().as_bytes())
    } else {
        false
    }
}

/// Holds of a commit whose timestamp is at least `since`.
pub open spec fn at_least(since: i64) -> spec_fn(CommitV) -> bool {
    |c: CommitV| c.timestamp >= since
}

/// The commits of `log` whose timestamp is at least `since`, oldest first.
pub open spec fn commits_since(log: Seq<CommitV>, since: i64) -> Seq<CommitV> {
    log.filter(at_least(since))
}

/// Holds of a post whose slug differs from the given one.
pub open spec fn keeps_post(slug: Seq<char>) -> spec_fn(PostV) -> bool {
    |p: PostV| p.slug != slug
}

/// Holds of an attachment pair that does not belong to the given post.
pub open spec fn keeps_attachment(slug: Seq<char>) -> spec_fn((Seq<char>, ResourceId)) -> bool {
    |a: (Seq<char>, ResourceId)| a.0 != slug
}

/// Holds of a resource that is not attached to the given post under the
/// given attachment relation.
pub open spec fn survives_cascade(
    att: Seq<(Seq<char>, ResourceId)>,
    slug: Seq<char>,
) -> spec_fn(ResourceV) -> bool {
    |r: ResourceV| !att.contains((slug, r.id))
}

/// Holds of a resource whose identifier differs from the given one.
pub open spec fn keeps_resource(id: ResourceId) -> spec_fn(ResourceV) -> bool {
    |r: ResourceV| r.id != id
}

/// Holds of an attachment pair that references another resource.
pub open spec fn keeps_attachment_id(id: ResourceId) -> spec_fn((Seq<char>, ResourceId)) -> bool {
    |a: (Seq<char>, ResourceId)| a.1 != id
}

/// Holds of a resource attached to the given post under the given
/// attachment relation.
pub open spec fn attached_to(
    att: Seq<(Seq<char>, ResourceId)>,
    slug: Seq<char>,
) -> spec_fn(ResourceV) -> bool {
    |r: ResourceV| att.contains((slug, r.id))
}

/// Maps a resource to its attachment pair for the given post.
pub open spec fn attaches_to(slug: Seq<char>) -> spec_fn(ResourceV) -> (Seq<char>, ResourceId) {
    |r: ResourceV| (slug, r.id)
}

/// The commit chain invariant: commits are ordered oldest to newest with
/// non-decreasing timestamps, every commit's identifier is the digest of its
/// own metadata and payload, the chain root's parent identifier is the empty
/// byte sequence, and every later commit's parent identifier is the
/// identifier of the commit just before it.
pub open spec fn chain_wf(log: Seq<CommitV>) -> bool {
    &&& forall|i: int| 0 <= i < log.len() ==> commit_wf(#[trigger] log[i])
    &&& forall|i: int, j: int|
        0 <= i < j < log.len() ==> (#[trigger] log[i]).timestamp <= (#[trigger] log[j]).timestamp
    &&& forall|i: int|
        0 <= i < log.len() ==> (#[trigger] log[i]).prev_commit_id == if i == 0 {
            Seq::<u8>::empty()
        } else {
            log[i - 1].id
        }
}

/// An append-only store of commit records, kept ordered by timestamp (ties
/// keep insertion order), queryable by timestamp range.
#[derive(Debug)]
pub struct CommitLog {
    commits: Vec<Commit>,
}

impl View for CommitLog {
    type V = Seq<CommitV>;

    closed spec fn view(&self) -> Seq<CommitV> {
        self.commits.deep_view()
    }
}

impl CommitLog {
    /// Commit timestamps never decrease along the log.
    pub open spec fn sorted(log: Seq<CommitV>) -> bool {
        forall|i: int, j: int|
            0 <= i < j < log.len() ==> (#[trigger] log[i]).timestamp <= (
            #[trigger] log[j]).timestamp
    }

    /// Create a new, empty commit log.
    pub fn new() -> (r: Self)
        ensures
            r@.len() == 0,
    {
        CommitLog { commits: Vec::new() }
    }

    /// Append a commit whose timestamp is no earlier than every commit
    /// already in the log; it becomes the newest entry.
    pub fn append(&mut self, c: Commit)
        requires
            forall|i: int|
                0 <= i < old(self)@.len() ==> (#[trigger] old(self)@[i]).timestamp <= c@.timestamp,
        ensures
            final(self)@ == old(self)@.push(c@),
    {
        self.commits.push(c);
        proof {
            assert(self@ =~= old(self)@.push(c@));
        }
    }

    /// The commit with the maximum timestamp, or none if the log is empty.
    ///
    /// For a log kept in order this is the last entry.
    pub fn latest(&self) -> (r: Option<&Commit>)
        ensures
            match r {
                Option::None => self@.len() == 0,
                Option::Some(c) => self@.len() > 0 && c@ == self@.last(),
            },
    {
        if self.commits.len() == 0 {
            None
        } else {
            Some(&self.commits[self.commits.len() - 1])
        }
    }

    /// All commits with a timestamp at least `since`, oldest to newest.
    pub fn since(&self, since: i64) -> (r: Vec<Commit>)
        ensures
            r.deep_view() == commits_since(self@, since),
    {
        let ghost pred = at_least(since);
        let mut out: Vec<Commit> = Vec::new();
        let mut i: usize = 0;
        proof {
            reveal(Seq::filter);
            assert(out.deep_view() =~= self@.take(0).filter(pred));
        }
        while i < self.commits.len()
            invariant
                i <= self.commits.len(),
                self@ == self.commits.deep_view(),
                pred == at_least(since),
                out.deep_view() == self@.take(i as int).filter(pred),
            decreases self.commits.len() - i,
        {
            let ghost prev = out.deep_view();
            if self.commits[i].timestamp >= since {
                out.push(self.commits[i].clone());
                proof {
                    assert(out.deep_view() =~= prev.push(self@[i as int]));
                }
            }
            proof {
                reveal(Seq::filter);
                let s1 = self@.take(i + 1);
                assert(s1.len() == i + 1);
                assert(s1.drop_last() =~= self@.take(i as int));
                assert(s1.last() == self@[i as int]);
                assert(s1.filter(pred) == if pred(s1.last()) {
                    s1.drop_last().filter(pred).push(s1.last())
                } else {
                    s1.drop_last().filter(pred)
                });
                assert(pred(s1.last()) == (self@[i as int].timestamp >= since));
                assert(out.deep_view() =~= s1.filter(pred));
            }
            i = i + 1;
        }
        proof {
            assert(self@.take(self@.len() as int) =~= self@);
        }
        out
    }

    /// The number of commits in the log.
    pub fn len(&self) -> (r: usize)
        ensures
            r == self@.len(),
    {
        self.commits.len()
    }
}

} // verus!

verus! {

/// The timestamp that a mutation at wall-clock time `now` stamps on its
/// commit: the clock value, clamped so that it never runs behind the chain
/// tail (timestamps along the chain are monotonic non-decreasing).
pub open spec fn next_timestamp(log: Seq<CommitV>, now: i64) -> i64 {
    if log.len() > 0 && log.last().timestamp > now {
        log.last().timestamp
    } else {
        now
    }
}

/// The parent identifier for the next commit: the identifier of the chain
/// tail, or the empty byte sequence if the log is empty.
pub open spec fn chain_prev(log: Seq<CommitV>) -> Seq<u8> {
    if log.len() == 0 {
        Seq::<u8>::empty()
    } else {
        log.last().id
    }
}

/// The commit that a mutation with the given payload, issued at wall-clock
/// time `now` against a store whose log is `log`, appends to the chain.
pub open spec fn appended_commit(log: Seq<CommitV>, now: i64, payload: PayloadV) -> CommitV {
    CommitV {
        id: commit_digest(next_timestamp(log, now), chain_prev(log), payload),
        timestamp: next_timestamp(log, now),
        prev_commit_id: chain_prev(log),
        payload,
    }
}

/// The log that recording a batch of payloads leaves behind: one commit per
/// payload, in order, each appended onto the log the previous ones left.
pub open spec fn appended_commits(log: Seq<CommitV>, now: i64, ps: Seq<PayloadV>) -> Seq<CommitV>
    decreases ps.len(),
{
    if ps.len() == 0 {
        log
    } else {
        let prev = appended_commits(log, now, ps.drop_last());
        prev.push(appended_commit(prev, now, ps.last()))
    }
}

/// Whether the sequence holds a post with the given slug.
pub open spec fn seq_has_post(posts: Seq<PostV>, slug: Seq<char>) -> bool {
    exists|i: int| 0 <= i < posts.len() && (#[trigger] posts[i]).slug == slug
}

/// The post with the given slug within the sequence.
pub open spec fn seq_post_with(posts: Seq<PostV>, slug: Seq<char>) -> PostV {
    posts[choose|i: int| 0 <= i < posts.len() && (#[trigger] posts[i]).slug == slug]
}

/// Whether the sequence holds a resource with the given identifier.
pub open spec fn seq_has_resource(rs: Seq<ResourceV>, id: ResourceId) -> bool {
    exists|i: int| 0 <= i < rs.len() && (#[trigger] rs[i]).id == id
}

/// The resource with the given identifier within the sequence.
pub open spec fn seq_resource_with(rs: Seq<ResourceV>, id: ResourceId) -> ResourceV {
    rs[choose|i: int| 0 <= i < rs.len() && (#[trigger] rs[i]).id == id]
}

/// The storage facade: durable CRUD for posts and resources with cascade
/// delete, fused with the append-only commit log. This variant keeps all
/// state in memory.
#[derive(Debug)]
pub struct MemoryStorage {
    posts: Vec<Post>,
    resources: Vec<Resource>,
    attachments: Vec<(String, ResourceId)>,
    log: CommitLog,
}

impl MemoryStorage {
    /// The stored posts, in listing order.
    pub closed spec fn posts_v(self) -> Seq<PostV> {
        self.posts.deep_view()
    }

    /// The stored resources, in insertion order.
    pub closed spec fn resources_v(self) -> Seq<ResourceV> {
        self.resources.deep_view()
    }

    /// The attachment relation: pairs of a post slug and the identifier of a
    /// resource attached to that post.
    pub closed spec fn attachments_v(self) -> Seq<(Seq<char>, ResourceId)> {
        self.attachments@.map_values(|a: (String, ResourceId)| (a.0@, a.1))
    }

    /// The commit log, oldest to newest.
    pub closed spec fn log_v(self) -> Seq<CommitV> {
        self.log@
    }

    /// Whether a post with the given slug is stored.
    pub open spec fn has_post(self, slug: Seq<char>) -> bool {
        seq_has_post(self.posts_v(), slug)
    }

    /// The stored post with the given slug.
    pub open spec fn post_with(self, slug: Seq<char>) -> PostV {
        seq_post_with(self.posts_v(), slug)
    }

    /// Whether a resource with the given identifier is stored.
    pub open spec fn has_resource(self, id: ResourceId) -> bool {
        seq_has_resource(self.resources_v(), id)
    }

    /// The stored resource with the given identifier.
    pub open spec fn resource_with(self, id: ResourceId) -> ResourceV {
        seq_resource_with(self.resources_v(), id)
    }

    /// The resources attached to the post with the given slug, in insertion
    /// order.
    pub open spec fn attached(self, slug: Seq<char>) -> Seq<ResourceV> {
        self.resources_v().filter(attached_to(self.attachments_v(), slug))
    }

    /// Internal invariant of the store.
    ///
    /// Posts are kept in listing order with unique slugs; resource
    /// identifiers are unique; every attachment pair names a stored post and
    /// a stored resource, and no resource is attached twice; and the commit
    /// log is a well-formed hash chain.
    pub open spec fn wf(self) -> bool {
        &&& posts_ordered(self.posts_v())
        &&& forall|i: int, j: int|
            0 <= i < j < self.posts_v().len() ==> (#[trigger] self.posts_v()[i]).slug != (
            #[trigger] self.posts_v()[j]).slug
        &&& forall|i: int, j: int|
            0 <= i < j < self.resources_v().len() ==> (#[trigger] self.resources_v()[i]).id != (
            #[trigger] self.resources_v()[j]).id
        &&& forall|k: int|
            0 <= k < self.attachments_v().len() ==> self.has_post(
                (#[trigger] self.attachments_v()[k]).0,
            ) && self.has_resource(self.attachments_v()[k].1)
        &&& forall|k: int, l: int|
            0 <= k < l < self.attachments_v().len() ==> (#[trigger] self.attachments_v()[k]).1 != (
            #[trigger] self.attachments_v()[l]).1
        &&& chain_wf(self.log_v())
    }

    /// Create a new, empty store.
    pub fn new() -> (r: Self)
        ensures
            r.wf(),
            r.posts_v().len() == 0,
            r.resources_v().len() == 0,
            r.attachments_v().len() == 0,
            r.log_v().len() == 0,
    {
        let r = MemoryStorage {
            posts: Vec::new(),
            resources: Vec::new(),
            attachments: Vec::new(),
            log: CommitLog::new(),
        };
        proof {
            assert(r.attachments_v() =~= Seq::<(Seq<char>, ResourceId)>::empty());
        }
        r
    }

    fn find_post_index(&self, slug: &str) -> (r: Option<usize>)
        ensures
            match r {
                Option::Some(i) => i < self.posts_v().len() && self.posts_v()[i as int].slug
                    == slug@,
                Option::None => !self.has_post(slug@),
            },
    {
        let mut i: usize = 0;
        while i < self.posts.len()
            invariant
                i <= self.posts.len(),
                forall|k: int| 0 <= k < i ==> (#[trigger] self.posts_v()[k]).slug != slug@,
            decreases self.posts.len() - i,
        {
            if str_eq(self.posts[i].slug.as_str(), slug) {
                return Some(i);
            }
            i = i + 1;
        }
        None
    }

    fn find_resource_index(&self, id: ResourceId) -> (r: Option<usize>)
        ensures
            match r {
                Option::Some(i) => i < self.resources_v().len() && self.resources_v()[i as int].id
                    == id,
                Option::None => !self.has_resource(id),
            },
    {
        let mut i: usize = 0;
        while i < self.resources.len()
            invariant
                i <= self.resources.len(),
                forall|k: int| 0 <= k < i ==> (#[trigger] self.resources_v()[k]).id != id,
            decreases self.resources.len() - i,
        {
            if self.resources[i].id == id {
                return Some(i);
            }
            i = i + 1;
        }
        None
    }

    /// Get the post with the given slug, or none if no such post is stored.
    pub fn get_post(&self, slug: &str) -> (r: Option<Post>)
        requires
            self.wf(),
        ensures
            match r {
                Option::Some(p) => self.has_post(slug@) && p@ == self.post_with(slug@),
                Option::None => !self.has_post(slug@),
            },
    {
        match self.find_post_index(slug) {
            Some(i) => {
                let p = self.posts[i].clone();
                proof {
                    let j = choose|j: int|
                        0 <= j < self.posts_v().len() && (#[trigger] self.posts_v()[j]).slug
                            == slug@;
                    assert(j == i);
                }
                Some(p)
            },
            None => None,
        }
    }

    /// Get the resource with the given identifier, or none if no such
    /// resource is stored.
    pub fn get_resource(&self, id: ResourceId) -> (r: Option<Resource>)
        requires
            self.wf(),
        ensures
            match r {
                Option::Some(res) => self.has_resource(id) && res@ == self.resource_with(id),
                Option::None => !self.has_resource(id),
            },
    {
        match self.find_resource_index(id) {
            Some(i) => {
                let res = self.resources[i].clone();
                proof {
                    let j = choose|j: int|
                        0 <= j < self.resources_v().len() && (#[trigger] self.resources_v()[j]).id
                            == id;
                    assert(j == i);
                }
                Some(res)
            },
            None => None,
        }
    }

    /// Get every stored resource, in insertion order.
    pub fn get_resources(&self) -> (r: Vec<Resource>)
        ensures
            r.deep_view() == self.resources_v(),
    {
        let r = self.resources.clone();
        proof {
            assert(r.deep_view() =~= self.resources_v());
        }
        r
    }

    /// Get all commits whose timestamp is at least `since_timestamp`, in
    /// order from oldest to newest.
    pub fn get_commits_since(&self, since_timestamp: i64) -> (r: Vec<Commit>)
        ensures
            r.deep_view() == commits_since(self.log_v(), since_timestamp),
    {
        self.log.since(since_timestamp)
    }

    /// Get the chain tail: the commit with the maximum timestamp, or none if
    /// the log is empty.
    pub fn get_latest_commit(&self) -> (r: Option<Commit>)
        ensures
            match r {
                Option::Some(c) => self.log_v().len() > 0 && c@ == self.log_v().last(),
                Option::None => self.log_v().len() == 0,
            },
    {
        match self.log.latest() {
            Some(c) => Some(c.clone()),
            None => None,
        }
    }

    /// The number of stored posts.
    pub fn post_count(&self) -> (r: usize)
        ensures
            r == self.posts_v().len(),
    {
        self.posts.len()
    }
}

} // verus!

verus! {

/// A filter keeps a sequence in which every element satisfies the predicate
/// unchanged.
pub proof fn lemma_filter_all<A>(s: Seq<A>, p: spec_fn(A) -> bool)
    requires
        forall|k: int| 0 <= k < s.len() ==> p(#[trigger] s[k]),
    ensures
        s.filter(p) == s,
    decreases s.len(),
{
    reveal(Seq::filter);
    if s.len() > 0 {
        lemma_filter_all(s.drop_last(), p);
        assert(s.filter(p) =~= s);
    }
}

/// Filtering one more element: the filtered prefix grows by the element
/// exactly when the predicate holds of it.
pub proof fn lemma_filter_take_step<A>(s: Seq<A>, p: spec_fn(A) -> bool, i: int)
    requires
        0 <= i < s.len(),
    ensures
        s.take(i + 1).filter(p) == if p(s[i]) {
            s.take(i).filter(p).push(s[i])
        } else {
            s.take(i).filter(p)
        },
{
    reveal(Seq::filter);
    assert(s.take(i + 1).drop_last() =~= s.take(i));
    assert(s.take(i + 1).last() == s[i]);
}

/// A filter preserves every pairwise property of the sequence.
pub proof fn lemma_filter_pairwise<A>(s: Seq<A>, p: spec_fn(A) -> bool, rel: spec_fn(A, A) -> bool)
    requires
        forall|i: int, j: int| 0 <= i < j < s.len() ==> rel(#[trigger] s[i], #[trigger] s[j]),
    ensures
        forall|i: int, j: int|
            0 <= i < j < s.filter(p).len() ==> rel(
                #[trigger] s.filter(p)[i],
                #[trigger] s.filter(p)[j],
            ),
    decreases s.len(),
{
    reveal(Seq::filter);
    if s.len() > 0 {
        let rest = s.drop_last();
        lemma_filter_pairwise(rest, p, rel);
        let out = s.filter(p);
        assert forall|i: int, j: int| 0 <= i < j < out.len() implies rel(out[i], out[j]) by {
            if p(s.last()) && j == out.len() - 1 {
                assert(out[j] == s.last());
                assert(rest.filter(p).contains(rest.filter(p)[i]));
                rest.lemma_filter_contains_rev(p, rest.filter(p)[i]);
                let k = choose|k: int| 0 <= k < rest.len() && rest[k] == out[i];
                assert(rel(s[k], s.last()));
            } else {
                assert(out[i] == rest.filter(p)[i] && out[j] == rest.filter(p)[j]);
            }
        }
    }
}

/// Every element of a filtered sequence is an element of the original.
pub proof fn lemma_filter_element_of<A>(s: Seq<A>, p: spec_fn(A) -> bool, i: int)
    requires
        0 <= i < s.filter(p).len(),
    ensures
        exists|k: int| 0 <= k < s.len() && s[k] == s.filter(p)[i] && p(#[trigger] s[k]),
{
    let x = s.filter(p)[i];
    assert(s.filter(p).contains(x));
    s.lemma_filter_contains_rev(p, x);
    let k = choose|k: int| 0 <= k < s.len() && s[k] == x;
    s.lemma_filter_pred(p, i);
    assert(0 <= k < s.len() && s[k] == x && p(s[k]));
}

/// Two stores hold the same observable state: the same posts, resources,
/// attachments and commits.
pub open spec fn same_state(a: MemoryStorage, b: MemoryStorage) -> bool {
    &&& a.posts_v() == b.posts_v()
    &&& a.resources_v() == b.resources_v()
    &&& a.attachments_v() == b.attachments_v()
    &&& a.log_v() == b.log_v()
}

impl MemoryStorage {
    /// Append one commit describing the mutation that was just performed,
    /// stamped at wall-clock time `now` and chained to the current tail.
    fn append_commit(&mut self, payload: CommitPayload, now: i64)
        requires
            chain_wf(old(self).log_v()),
            now >= 0,
        ensures
            final(self).log_v() == old(self).log_v().push(
                appended_commit(old(self).log_v(), now, payload@),
            ),
            chain_wf(final(self).log_v()),
            final(self).posts_v() == old(self).posts_v(),
            final(self).resources_v() == old(self).resources_v(),
            final(self).attachments_v() == old(self).attachments_v(),
    {
        let (prev, ts): (Vec<u8>, i64) = match self.log.latest() {
            None => (Vec::new(), now),
            Some(c) => (
                c.id.clone(),
                if c.timestamp > now {
                    c.timestamp
                } else {
                    now
                },
            ),
        };
        proof {
            assert(prev@ =~= chain_prev(old(self).log_v()));
        }
        let c = Commit::new(prev, payload, ts);
        self.log.append(c);
        proof {
            let log0 = old(self).log_v();
            let log1 = final(self).log_v();
            assert(log1 =~= log0.push(appended_commit(log0, now, payload@)));
            assert forall|i: int, j: int|
                0 <= i < j < log1.len() implies (#[trigger] log1[i]).timestamp <= (
            #[trigger] log1[j]).timestamp by {
                if j == log1.len() - 1 && log0.len() > 0 {
                    assert(log0[i].timestamp <= log0.last().timestamp);
                }
            }
            assert(chain_wf(log1));
        }
    }

    /// Record a batch of mutations as commits: exactly one commit per
    /// payload, in order, each chained onto the commit before it, all
    /// stamped at wall-clock time `now`. The stored content is untouched,
    /// the commits already in the log stay as they are, and the `k`-th new
    /// commit carries the `k`-th payload.
    #[verifier::loop_isolation(false)]
    pub fn append_payload_commits(&mut self, payloads: Vec<CommitPayload>, now: i64)
        requires
            old(self).wf(),
            now >= 0,
        ensures
            final(self).wf(),
            final(self).content_v() == old(self).content_v(),
            final(self).log_v() == appended_commits(
                old(self).log_v(),
                now,
                payloads.deep_view(),
            ),
            final(self).log_v().len() == old(self).log_v().len() + payloads@.len(),
            forall|k: int|
                0 <= k < old(self).log_v().len() ==> final(self).log_v()[k] == old(
                    self,
                ).log_v()[k],
            forall|k: int|
                0 <= k < payloads@.len() ==> (#[trigger] final(self).log_v()[old(
                    self,
                ).log_v().len() + k]).payload == payloads.deep_view()[k],
    {
        let ghost log0 = old(self).log_v();
        let ghost pv = payloads@;
        let ghost ps = payloads.deep_view();
        let mut rest = payloads;
        let mut i: usize = 0;
        let total: usize = rest.len();
        proof {
            assert(pv.len() == total as int);
            assert(rest@ =~= pv.skip(0));
            assert(ps.take(0) =~= Seq::<PayloadV>::empty());
            assert(self.log_v() =~= appended_commits(log0, now, ps.take(0)));
        }
        while rest.len() > 0
            invariant
                rest@ == pv.skip(i as int),
                pv.len() <= usize::MAX,
                i <= pv.len(),
                self.wf(),
                self.posts_v() == old(self).posts_v(),
                self.resources_v() == old(self).resources_v(),
                self.attachments_v() == old(self).attachments_v(),
                self.log_v() == appended_commits(log0, now, ps.take(i as int)),
                self.log_v().len() == log0.len() + i,
                forall|k: int| 0 <= k < log0.len() ==> self.log_v()[k] == log0[k],
                forall|k: int|
                    0 <= k < i ==> (#[trigger] self.log_v()[log0.len() + k]).payload == ps[k],
            decreases rest.len(),
        {
            proof {
                assert(pv.skip(i as int).len() > 0);
            }
            let p = rest.remove(0);
            proof {
                assert(p == pv.skip(i as int)[0]);
                assert(p == pv[i as int]);
                assert(pv.skip(i as int).drop_first() =~= pv.skip(i as int + 1));
            }
            let ghost logpre = self.log_v();
            self.append_commit(p, now);
            i = i + 1;
            proof {
                assert(ps.take(i as int).drop_last() =~= ps.take(i as int - 1));
                assert(ps.take(i as int).last() == ps[i as int - 1]);
                assert(self.log_v() =~= appended_commits(log0, now, ps.take(i as int)));
                assert(self.log_v().last().payload == ps[i as int - 1]);
            }
        }
        proof {
            assert(ps.take(ps.len() as int) =~= ps);
        }
    }

    /// What a successful `insert_resource` leaves behind: the resource is
    /// appended to the stored resources, posts and attachments are untouched,
    /// and one `CreateResource` commit is chained onto the log.
    pub open spec fn resource_inserted(
        s0: MemoryStorage,
        s1: MemoryStorage,
        resv: ResourceV,
        now: i64,
    ) -> bool {
        &&& s1.resources_v() == s0.resources_v().push(resv)
        &&& s1.posts_v() == s0.posts_v()
        &&& s1.attachments_v() == s0.attachments_v()
        &&& s1.log_v() == s0.log_v().push(
            appended_commit(s0.log_v(), now, PayloadV::CreateResource { id: resv.id }),
        )
    }

    /// Insert a free-standing resource.
    ///
    /// Fails with `Conflict`, leaving the store unchanged, exactly when a
    /// resource with the same identifier is already stored. On success the
    /// resource is stored and one `CreateResource` commit is appended.
    pub fn insert_resource(&mut self, resource: &Resource, now: i64) -> (r: Result<
        (),
        StorageError,
    >)
        requires
            old(self).wf(),
            now >= 0,
        ensures
            final(self).wf(),
            old(self).has_resource(resource@.id) ==> r == Result::<(), StorageError>::Err(
                StorageError::Conflict,
            ) && same_state(*final(self), *old(self)),
            !old(self).has_resource(resource@.id) ==> r == Result::<(), StorageError>::Ok(())
                && Self::resource_inserted(*old(self), *final(self), resource@, now),
    {
        if self.find_resource_index(resource.id).is_some() {
            return Err(StorageError::Conflict);
        }
        self.push_free_resource(resource);
        self.append_commit(CommitPayload::create_resource(resource.id), now);
        Ok(())
    }

    /// Delete the resource with the given identifier, along with any
    /// attachment that references it. Deleting a non-existent resource is a
    /// no-op on the content. Either way one `DeleteResource` commit is
    /// appended.
    pub fn delete_resource(&mut self, id: ResourceId, now: i64) -> (r: Result<(), StorageError>)
        requires
            old(self).wf(),
            now >= 0,
        ensures
            final(self).wf(),
            r == Result::<(), StorageError>::Ok(()),
            final(self).resources_v() == old(self).resources_v().filter(keeps_resource(id)),
            final(self).attachments_v() == old(self).attachments_v().filter(
                keeps_attachment_id(id),
            ),
            final(self).posts_v() == old(self).posts_v(),
            final(self).log_v() == old(self).log_v().push(
                appended_commit(old(self).log_v(), now, PayloadV::DeleteResource { id }),
            ),
    {
        self.remove_resource_content(id);
        self.append_commit(CommitPayload::delete_resource(id), now);
        proof {
            let s1 = *self;
            let s0 = *old(self);
            lemma_removed_resource_wf(s0, s1, id);
        }
        Ok(())
    }

    /// Remove the resource with the given identifier and any attachment pair
    /// that references it, leaving the commit log alone. A no-op if no such
    /// resource is stored.
    #[verifier::loop_isolation(false)]
    fn remove_resource_content(&mut self, id: ResourceId)
        requires
            old(self).wf(),
        ensures
            final(self).resources_v() == old(self).resources_v().filter(keeps_resource(id)),
            final(self).attachments_v() == old(self).attachments_v().filter(
                keeps_attachment_id(id),
            ),
            final(self).posts_v() == old(self).posts_v(),
            final(self).log_v() == old(self).log_v(),
    {
        let ghost rkeep = keeps_resource(id);
        let ghost akeep = keeps_attachment_id(id);
        match self.find_resource_index(id) {
            Some(i) => {
                self.resources.remove(i);
                proof {
                    let s0 = old(self).resources_v();
                    assert(self.resources_v() =~= s0.remove(i as int));
                    lemma_remove_unique_is_filter(s0, rkeep, i as int);
                }
            },
            None => {
                proof {
                    lemma_filter_all(old(self).resources_v(), rkeep);
                }
            },
        }
        let mut j: usize = 0;
        let mut found: bool = false;
        while j < self.attachments.len() && !found
            invariant
                j <= self.attachments.len(),
                self.attachments_v() == old(self).attachments_v(),
                !found ==> forall|k: int| 0 <= k < j ==> (#[trigger] self.attachments_v()[k]).1
                    != id,
                found ==> j < self.attachments_v().len() && self.attachments_v()[j as int].1 == id,
            decreases self.attachments.len() - j, (if found { 0int } else { 1int }),
        {
            if self.attachments[j].1 == id {
                found = true;
            } else {
                j = j + 1;
            }
        }
        if found {
            self.attachments.remove(j);
            proof {
                let a0 = old(self).attachments_v();
                assert(self.attachments_v() =~= a0.remove(j as int));
                lemma_remove_unique_is_filter(a0, akeep, j as int);
            }
        } else {
            proof {
                lemma_filter_all(old(self).attachments_v(), akeep);
            }
        }
    }
}

/// A store whose content is that of a well-formed store with one resource
/// and its attachment pairs filtered out, and whose chain is well-formed,
/// is well-formed.
#[verifier::rlimit(100)]
proof fn lemma_removed_resource_wf(s0: MemoryStorage, s1: MemoryStorage, id: ResourceId)
    requires
        s0.wf(),
        s1.posts_v() == s0.posts_v(),
        s1.resources_v() == s0.resources_v().filter(keeps_resource(id)),
        s1.attachments_v() == s0.attachments_v().filter(keeps_attachment_id(id)),
        chain_wf(s1.log_v()),
    ensures
        s1.wf(),
{
    let rkeep = keeps_resource(id);
    let akeep = keeps_attachment_id(id);
    lemma_filter_pairwise(s0.resources_v(), rkeep, |a: ResourceV, b: ResourceV| a.id != b.id);
    lemma_filter_pairwise(
        s0.attachments_v(),
        akeep,
        |a: (Seq<char>, ResourceId), b: (Seq<char>, ResourceId)| a.1 != b.1,
    );
    assert forall|k: int| 0 <= k < s1.attachments_v().len() implies s1.has_post(
        (#[trigger] s1.attachments_v()[k]).0,
    ) && s1.has_resource(s1.attachments_v()[k].1) by {
        lemma_filter_element_of(s0.attachments_v(), akeep, k);
        let k0 = choose|k0: int|
            0 <= k0 < s0.attachments_v().len() && s0.attachments_v()[k0] == s1.attachments_v()[k]
                && akeep(#[trigger] s0.attachments_v()[k0]);
        let a = s0.attachments_v()[k0];
        assert(s0.has_post(a.0));
        assert(s0.has_resource(a.1));
        let ri = choose|ri: int|
            0 <= ri < s0.resources_v().len() && (#[trigger] s0.resources_v()[ri]).id == a.1;
        assert(rkeep(s0.resources_v()[ri]));
        s0.resources_v().lemma_filter_contains(rkeep, ri);
        assert(s1.resources_v().contains(s0.resources_v()[ri]));
        let rj = choose|rj: int|
            0 <= rj < s1.resources_v().len() && s1.resources_v()[rj] == s0.resources_v()[ri];
        assert(s1.resources_v()[rj].id == a.1);
    }
}

/// Removing the only element that fails the predicate is the same as
/// filtering by it.
proof fn lemma_remove_unique_is_filter<A>(s: Seq<A>, p: spec_fn(A) -> bool, i: int)
    requires
        0 <= i < s.len(),
        !p(s[i]),
        forall|k: int| 0 <= k < s.len() && k != i ==> p(#[trigger] s[k]),
    ensures
        s.filter(p) == s.remove(i),
    decreases s.len(),
{
    reveal(Seq::filter);
    if i == s.len() - 1 {
        lemma_filter_all(s.drop_last(), p);
        assert(s.filter(p) =~= s.remove(i));
    } else {
        lemma_remove_unique_is_filter(s.drop_last(), p, i);
        assert(s.drop_last().remove(i) =~= s.remove(i).drop_last());
        assert(s.filter(p) =~= s.remove(i));
    }
}

} // verus!

verus! {

/// Lexicographic order is asymmetric.
pub proof fn lemma_bytes_lt_asym(a: Seq<u8>, b: Seq<u8>)
    requires
        bytes_lt(a, b),
    ensures
        !bytes_lt(b, a),
    decreases a.len(),
{
    reveal(bytes_lt);
    if a.len() != 0 && b.len() != 0 && a[0] == b[0] {
        lemma_bytes_lt_asym(a.drop_first(), b.drop_first());
    }
}

impl MemoryStorage {
    fn attachment_contains(&self, slug: &str, id: ResourceId) -> (r: bool)
        ensures
            r == self.attachments_v().contains((slug@, id)),
    {
        let mut k: usize = 0;
        while k < self.attachments.len()
            invariant
                k <= self.attachments.len(),
                forall|l: int| 0 <= l < k ==> (#[trigger] self.attachments_v()[l]) != (slug@, id),
            decreases self.attachments.len() - k,
        {
            if str_eq(self.attachments[k].0.as_str(), slug) && self.attachments[k].1 == id {
                proof {
                    assert(self.attachments_v()[k as int] == (slug@, id));
                }
                return true;
            }
            k = k + 1;
        }
        proof {
            assert forall|l: int|
                0 <= l < self.attachments_v().len() implies (#[trigger] self.attachments_v()[l])
                != (slug@, id) by {}
        }
        false
    }

    /// Remove the post with the given slug, its attachment pairs, and every
    /// resource attached to it, leaving the commit log alone. A no-op if no
    /// such post is stored.
    #[verifier::loop_isolation(false)]
    fn remove_post_content(&mut self, slug: &str)
        requires
            old(self).wf(),
        ensures
            final(self).wf(),
            final(self).posts_v() == old(self).posts_v().filter(keeps_post(slug@)),
            final(self).resources_v() == old(self).resources_v().filter(
                survives_cascade(old(self).attachments_v(), slug@),
            ),
            final(self).attachments_v() == old(self).attachments_v().filter(
                keeps_attachment(slug@),
            ),
            final(self).log_v() == old(self).log_v(),
    {
        let ghost s0 = *old(self);
        let ghost pkeep = keeps_post(slug@);
        let ghost rkeep = survives_cascade(s0.attachments_v(), slug@);
        let ghost akeep = keeps_attachment(slug@);

        // Remove the post row itself.
        match self.find_post_index(slug) {
            Some(i) => {
                self.posts.remove(i);
                proof {
                    assert(self.posts_v() =~= s0.posts_v().remove(i as int));
                    lemma_remove_unique_is_filter(s0.posts_v(), pkeep, i as int);
                }
            },
            None => {
                proof {
                    lemma_filter_all(s0.posts_v(), pkeep);
                }
            },
        }

        // Cascade: drop every resource attached to the post. The attachment
        // pairs are still those of the initial state here.
        let mut kept: Vec<Resource> = Vec::new();
        let mut i: usize = 0;
        proof {
            reveal(Seq::filter);
            assert(kept.deep_view() =~= s0.resources_v().take(0).filter(rkeep));
        }
        while i < self.resources.len()
            invariant
                i <= self.resources.len(),
                self.resources.deep_view() == s0.resources_v(),
                self.attachments_v() == s0.attachments_v(),
                kept.deep_view() == s0.resources_v().take(i as int).filter(rkeep),
            decreases self.resources.len() - i,
        {
            let ghost prev = kept.deep_view();
            if !self.attachment_contains(slug, self.resources[i].id) {
                kept.push(self.resources[i].clone());
                proof {
                    assert(kept.deep_view() =~= prev.push(s0.resources_v()[i as int]));
                }
            }
            proof {
                lemma_filter_take_step(s0.resources_v(), rkeep, i as int);
            }
            i = i + 1;
        }
        self.resources = kept;
        proof {
            assert(s0.resources_v().take(s0.resources_v().len() as int) =~= s0.resources_v());
        }

        // Drop the attachment pairs of the post.
        let mut akept: Vec<(String, ResourceId)> = Vec::new();
        let mut j: usize = 0;
        proof {
            reveal(Seq::filter);
            assert(akept@.map_values(|a: (String, ResourceId)| (a.0@, a.1)) =~= s0.attachments_v()
                .take(0).filter(akeep));
        }
        while j < self.attachments.len()
            invariant
                j <= self.attachments.len(),
                self.attachments_v() == s0.attachments_v(),
                akept@.map_values(|a: (String, ResourceId)| (a.0@, a.1)) == s0.attachments_v().take(
                    j as int,
                ).filter(akeep),
            decreases self.attachments.len() - j,
        {
            let ghost prev = akept@.map_values(|a: (String, ResourceId)| (a.0@, a.1));
            if !str_eq(self.attachments[j].0.as_str(), slug) {
                let id = self.attachments[j].1;
                let name = self.attachments[j].0.clone();
                akept.push((name, id));
                proof {
                    assert(akept@.map_values(|a: (String, ResourceId)| (a.0@, a.1)) =~= prev.push(
                        s0.attachments_v()[j as int],
                    ));
                }
            }
            proof {
                lemma_filter_take_step(s0.attachments_v(), akeep, j as int);
            }
            j = j + 1;
        }
        self.attachments = akept;
        proof {
            assert(s0.attachments_v().take(s0.attachments_v().len() as int) =~= s0.attachments_v());
        }

        // The invariant is restored: filters preserve order and uniqueness,
        // and every surviving attachment still references stored entities.
        proof {
            let s1 = *self;
            lemma_filter_pairwise(
                s0.posts_v(),
                pkeep,
                |a: PostV, b: PostV| listed_no_later(a, b) && a.slug != b.slug,
            );
            lemma_filter_pairwise(s0.resources_v(), rkeep, |a: ResourceV, b: ResourceV| a.id != b.id);
            lemma_filter_pairwise(
                s0.attachments_v(),
                akeep,
                |a: (Seq<char>, ResourceId), b: (Seq<char>, ResourceId)| a.1 != b.1,
            );
            assert forall|k: int| 0 <= k < s1.attachments_v().len() implies s1.has_post(
                (#[trigger] s1.attachments_v()[k]).0,
            ) && s1.has_resource(s1.attachments_v()[k].1) by {
                lemma_filter_element_of(s0.attachments_v(), akeep, k);
                let k0 = choose|k0: int|
                    0 <= k0 < s0.attachments_v().len() && s0.attachments_v()[k0]
                        == s1.attachments_v()[k] && akeep(#[trigger] s0.attachments_v()[k0]);
                let a = s0.attachments_v()[k0];
                // The referenced post has a different slug, so it survives.
                let pi = choose|pi: int|
                    0 <= pi < s0.posts_v().len() && (#[trigger] s0.posts_v()[pi]).slug == a.0;
                s0.posts_v().lemma_filter_contains(pkeep, pi);
                let pj = choose|pj: int|
                    0 <= pj < s1.posts_v().len() && s1.posts_v()[pj] == s0.posts_v()[pi];
                assert(s1.posts_v()[pj].slug == a.0);
                // The referenced resource is not attached to the deleted
                // post: its only attachment pair is this one.
                let ri = choose|ri: int|
                    0 <= ri < s0.resources_v().len() && (#[trigger] s0.resources_v()[ri]).id
                        == a.1;
                assert forall|l: int|
                    0 <= l < s0.attachments_v().len() && (#[trigger] s0.attachments_v()[l]).1
                        == a.1 implies l == k0 by {}
                assert(!s0.attachments_v().contains((slug@, a.1)));
                s0.resources_v().lemma_filter_contains(rkeep, ri);
                let rj = choose|rj: int|
                    0 <= rj < s1.resources_v().len() && s1.resources_v()[rj]
                        == s0.resources_v()[ri];
                assert(s1.resources_v()[rj].id == a.1);
            }
        }
    }

    /// What `delete_post` leaves behind: the post and everything attached to
    /// it are gone, and one `DeletePost` commit is chained onto the log.
    pub open spec fn post_deleted(
        s0: MemoryStorage,
        s1: MemoryStorage,
        slug: Seq<char>,
        now: i64,
    ) -> bool {
        &&& s1.posts_v() == s0.posts_v().filter(keeps_post(slug))
        &&& s1.resources_v() == s0.resources_v().filter(survives_cascade(s0.attachments_v(), slug))
        &&& s1.attachments_v() == s0.attachments_v().filter(keeps_attachment(slug))
        &&& s1.log_v() == s0.log_v().push(
            appended_commit(s0.log_v(), now, PayloadV::DeletePost { slug }),
        )
    }

    /// Delete the post with the given slug, cascading to its attached
    /// resources. Deleting a non-existent slug is a no-op on the content,
    /// not an error. Either way one `DeletePost` commit is appended.
    #[verifier::rlimit(60)]
    pub fn delete_post(&mut self, post_slug: &str, now: i64) -> (r: Result<(), StorageError>)
        requires
            old(self).wf(),
            now >= 0,
        ensures
            final(self).wf(),
            r == Result::<(), StorageError>::Ok(()),
            Self::post_deleted(*old(self), *final(self), post_slug@, now),
            !final(self).has_post(post_slug@),
    {
        self.remove_post_content(post_slug);
        let payload = CommitPayload::delete_post(String::from_str(post_slug));
        self.append_commit(payload, now);
        proof {
            let s1 = *self;
            if s1.has_post(post_slug@) {
                let i = choose|i: int|
                    0 <= i < s1.posts_v().len() && (#[trigger] s1.posts_v()[i]).slug == post_slug@;
                s1.posts_v().lemma_filter_pred(keeps_post(post_slug@), i);
            }
        }
        Ok(())
    }
}

} // verus!

verus! {

/// A strictly-earlier listing position gives a non-strict one.
proof fn lemma_listed_before_no_later(a: PostV, b: PostV)
    requires
        listed_before(a, b),
    ensures
        listed_no_later(a, b),
{
    if a.create_timestamp == b.create_timestamp {
        lemma_bytes_lt_asym(slug_bytes(a.slug), slug_bytes(b.slug));
    }
}

/// Listing strictly before chains through a non-strict step.
proof fn lemma_listed_before_trans(a: PostV, b: PostV, c: PostV)
    requires
        listed_before(a, b),
        listed_no_later(b, c),
    ensures
        listed_no_later(a, c),
{
    if a.create_timestamp == b.create_timestamp && b.create_timestamp == c.create_timestamp {
        if bytes_lt(slug_bytes(c.slug), slug_bytes(a.slug)) {
            lemma_bytes_lt_trans(slug_bytes(c.slug), slug_bytes(a.slug), slug_bytes(b.slug));
        }
    }
}

/// Inserting a fresh post at its listing position keeps the sequence ordered
/// with distinct slugs.
proof fn lemma_insert_post_ordered(s0v: Seq<PostV>, posn: int, p: PostV)
    requires
        posts_ordered(s0v),
        forall|i: int, j: int|
            0 <= i < j < s0v.len() ==> (#[trigger] s0v[i]).slug != (#[trigger] s0v[j]).slug,
        !seq_has_post(s0v, p.slug),
        0 <= posn <= s0v.len(),
        forall|k: int| 0 <= k < posn ==> !listed_before(p, #[trigger] s0v[k]),
        posn < s0v.len() ==> listed_before(p, s0v[posn]),
    ensures
        posts_ordered(s0v.insert(posn, p)),
        forall|i: int, j: int|
            0 <= i < j < s0v.insert(posn, p).len() ==> (#[trigger] s0v.insert(posn, p)[i]).slug
                != (#[trigger] s0v.insert(posn, p)[j]).slug,
{
    let s1v = s0v.insert(posn, p);
    assert forall|i: int, j: int| 0 <= i < j < s1v.len() implies listed_no_later(
        #[trigger] s1v[i],
        #[trigger] s1v[j],
    ) && s1v[i].slug != s1v[j].slug by {
        if i < posn && j == posn {
            let x = s0v[i];
            assert(!listed_before(p, x));
            assert(x.slug != p.slug);
        } else if i == posn && j > posn {
            let y = s0v[j - 1];
            assert(y.slug != p.slug);
            if j - 1 == posn {
                lemma_listed_before_no_later(p, y);
            } else {
                lemma_listed_before_trans(p, s0v[posn], y);
            }
        } else if i < posn && j > posn {
            assert(listed_no_later(s0v[i], s0v[j - 1]));
        } else if j < posn {
            assert(listed_no_later(s0v[i], s0v[j]));
        } else {
            assert(listed_no_later(s0v[i - 1], s0v[j - 1]));
        }
    }
}

/// Appending fresh resources and their attachment pairs keeps the
/// attachment relation well-formed.
#[verifier::rlimit(100)]
proof fn lemma_append_attachments_wf(
    posts0: Seq<PostV>,
    posts1: Seq<PostV>,
    posn: int,
    p: PostV,
    r0: Seq<ResourceV>,
    rsv: Seq<ResourceV>,
    a0: Seq<(Seq<char>, ResourceId)>,
    pairs: Seq<(Seq<char>, ResourceId)>,
)
    requires
        0 <= posn <= posts0.len(),
        posts1 == posts0.insert(posn, p),
        pairs == rsv.map_values(attaches_to(p.slug)),
        forall|k: int|
            0 <= k < a0.len() ==> seq_has_post(posts0, (#[trigger] a0[k]).0) && seq_has_resource(
                r0,
                a0[k].1,
            ),
        forall|k: int, l: int| 0 <= k < l < a0.len() ==> (#[trigger] a0[k]).1 != (#[trigger] a0[l]).1,
        forall|i: int| 0 <= i < rsv.len() ==> !seq_has_resource(r0, (#[trigger] rsv[i]).id),
        forall|i: int, j: int|
            0 <= i < j < rsv.len() ==> (#[trigger] rsv[i]).id != (#[trigger] rsv[j]).id,
    ensures
        forall|k: int|
            0 <= k < (a0 + pairs).len() ==> seq_has_post(
                posts1,
                (#[trigger] (a0 + pairs)[k]).0,
            ) && seq_has_resource(r0 + rsv, (a0 + pairs)[k].1),
        forall|k: int, l: int|
            0 <= k < l < (a0 + pairs).len() ==> (#[trigger] (a0 + pairs)[k]).1 != (
            #[trigger] (a0 + pairs)[l]).1,
{
    let a1 = a0 + pairs;
    assert(posts1[posn] == p);
    assert forall|k: int| 0 <= k < a1.len() implies seq_has_post(posts1, (#[trigger] a1[k]).0)
        && seq_has_resource(r0 + rsv, a1[k].1) by {
        if k < a0.len() {
            let a = a0[k];
            let pi = choose|pi: int|
                0 <= pi < posts0.len() && (#[trigger] posts0[pi]).slug == a.0;
            if pi < posn {
                assert(posts1[pi].slug == a.0);
            } else {
                assert(posts1[pi + 1].slug == a.0);
            }
            let ri = choose|ri: int| 0 <= ri < r0.len() && (#[trigger] r0[ri]).id == a.1;
            assert((r0 + rsv)[ri].id == a.1);
        } else {
            let d = k - a0.len();
            assert(a1[k] == pairs[d]);
            assert(posts1[posn].slug == p.slug);
            assert((r0 + rsv)[r0.len() + d].id == rsv[d].id);
        }
    }
    assert forall|k: int, l: int| 0 <= k < l < a1.len() implies (#[trigger] a1[k]).1 != (
    #[trigger] a1[l]).1 by {
        if k < a0.len() && l >= a0.len() {
            let a = a0[k];
            let ri = choose|ri: int| 0 <= ri < r0.len() && (#[trigger] r0[ri]).id == a.1;
            let d = l - a0.len();
            assert(!seq_has_resource(r0, rsv[d].id));
            assert(a1[l].1 == rsv[d].id);
        } else if k >= a0.len() {
            assert(a1[k].1 == rsv[k - a0.len()].id && a1[l].1 == rsv[l - a0.len()].id);
        }
    }
}

impl MemoryStorage {
    /// Whether inserting the given resources would violate a uniqueness
    /// constraint: one of them is already stored (unless it is attached to
    /// the excluded slug, whose content is about to be replaced), or two of
    /// them share an identifier.
    pub open spec fn resources_conflict_spec(
        s0: MemoryStorage,
        rsv: Seq<ResourceV>,
        excluding: Option<Seq<char>>,
    ) -> bool {
        ||| exists|i: int|
            0 <= i < rsv.len() && s0.has_resource((#[trigger] rsv[i]).id) && match excluding {
                Option::None => true,
                Option::Some(slug) => !s0.attachments_v().contains((slug, rsv[i].id)),
            }
        ||| exists|i: int, j: int|
            0 <= i < j < rsv.len() && (#[trigger] rsv[i]).id == (#[trigger] rsv[j]).id
    }

    #[verifier::loop_isolation(false)]
    fn resources_conflict(&self, rs: &Vec<Resource>, excluding: Option<&str>) -> (r: bool)
        ensures
            r == Self::resources_conflict_spec(
                *self,
                rs.deep_view(),
                match excluding {
                    Option::None => Option::None,
                    Option::Some(s) => Option::Some(s@),
                },
            ),
    {
        let ghost rsv = rs.deep_view();
        let mut i: usize = 0;
        while i < rs.len()
            invariant
                i <= rs.len(),
                forall|k: int|
                    0 <= k < i ==> !(self.has_resource((#[trigger] rsv[k]).id) && match excluding {
                        Option::None => true,
                        Option::Some(s) => !self.attachments_v().contains((s@, rsv[k].id)),
                    }),
                forall|k: int, l: int|
                    0 <= k < l < i ==> (#[trigger] rsv[k]).id != (#[trigger] rsv[l]).id,
            decreases rs.len() - i,
        {
            if self.find_resource_index(rs[i].id).is_some() {
                proof {
                    assert(self.has_resource(rsv[i as int].id));
                }
                match excluding {
                    None => {
                        return true;
                    },
                    Some(s) => {
                        if !self.attachment_contains(s, rs[i].id) {
                            return true;
                        }
                    },
                }
            }
            let mut j: usize = 0;
            while j < i
                invariant
                    j <= i < rs.len(),
                    forall|l: int| 0 <= l < j ==> (#[trigger] rsv[l]).id != rsv[i as int].id,
                decreases i - j,
            {
                if rs[j].id == rs[i].id {
                    proof {
                        assert(rsv[j as int].id == rsv[i as int].id);
                    }
                    return true;
                }
                j = j + 1;
            }
            i = i + 1;
        }
        false
    }

    /// The listing position at which the given post belongs.
    #[verifier::loop_isolation(false)]
    fn find_insert_position(&self, post: &Post) -> (pos: usize)
        ensures
            pos <= self.posts_v().len(),
            forall|k: int| 0 <= k < pos ==> !listed_before(post@, #[trigger] self.posts_v()[k]),
            pos < self.posts_v().len() ==> listed_before(post@, self.posts_v()[pos as int]),
    {
        let mut pos: usize = 0;
        while pos < self.posts.len() && !listed_before_exec(post, &self.posts[pos])
            invariant
                pos <= self.posts.len(),
                forall|k: int| 0 <= k < pos ==> !listed_before(post@, #[trigger] self.posts_v()[k]),
            decreases self.posts.len() - pos,
        {
            pos = pos + 1;
        }
        pos
    }

    /// Append the given resources and their attachment pairs to the store.
    #[verifier::loop_isolation(false)]
    fn push_attached_resources(&mut self, post: &Post, post_resources: &Vec<Resource>)
        ensures
            final(self).resources_v() == old(self).resources_v() + post_resources.deep_view(),
            final(self).attachments_v() == old(self).attachments_v()
                + post_resources.deep_view().map_values(attaches_to(post@.slug)),
            final(self).posts_v() == old(self).posts_v(),
            final(self).log_v() == old(self).log_v(),
    {
        let ghost s0 = *old(self);
        let ghost rsv = post_resources.deep_view();
        let ghost mp = attaches_to(post@.slug);
        let mut t: usize = 0;
        proof {
            assert(self.resources_v() =~= s0.resources_v() + rsv.take(0));
            assert(self.attachments_v() =~= s0.attachments_v() + rsv.take(0).map_values(mp));
        }
        while t < post_resources.len()
            invariant
                t <= post_resources.len(),
                self.resources_v() == s0.resources_v() + rsv.take(t as int),
                self.attachments_v() == s0.attachments_v() + rsv.take(t as int).map_values(mp),
                self.posts_v() == s0.posts_v(),
                self.log_v() == s0.log_v(),
            decreases post_resources.len() - t,
        {
            let r = post_resources[t].clone();
            let id = r.id;
            let ghost prevr = self.resources_v();
            let ghost preva = self.attachments_v();
            proof {
                assert(r@ == rsv[t as int]);
            }
            self.resources.push(r);
            self.attachments.push((post.slug.clone(), id));
            proof {
                assert(self.resources_v() =~= prevr.push(rsv[t as int]));
                assert(self.attachments_v() =~= preva.push((post@.slug, id)));
                assert(rsv.take(t + 1) =~= rsv.take(t as int).push(rsv[t as int]));
                assert(self.resources_v() =~= s0.resources_v() + rsv.take(t + 1));
                assert(rsv.take(t + 1).map_values(mp) =~= rsv.take(t as int).map_values(mp).push(
                    (post@.slug, id),
                ));
                assert(self.attachments_v() =~= s0.attachments_v() + rsv.take(t + 1).map_values(
                    mp,
                ));
            }
            t = t + 1;
        }
        proof {
            assert(rsv.take(rsv.len() as int) =~= rsv);
        }
    }

    /// Insert a post row with its attached resources, leaving the commit log
    /// alone.
    #[verifier::rlimit(100)]
    fn insert_post_content(&mut self, post: &Post, post_resources: &Vec<Resource>) -> (pos: usize)
        requires
            old(self).wf(),
            !old(self).has_post(post@.slug),
            forall|i: int|
                0 <= i < post_resources.deep_view().len() ==> !old(self).has_resource(
                    (#[trigger] post_resources.deep_view()[i]).id,
                ),
            forall|i: int, j: int|
                0 <= i < j < post_resources.deep_view().len() ==> (
                #[trigger] post_resources.deep_view()[i]).id != (
                #[trigger] post_resources.deep_view()[j]).id,
        ensures
            final(self).wf(),
            pos <= old(self).posts_v().len(),
            forall|k: int|
                0 <= k < pos ==> !listed_before(post@, #[trigger] old(self).posts_v()[k]),
            pos < old(self).posts_v().len() ==> listed_before(
                post@,
                old(self).posts_v()[pos as int],
            ),
            final(self).posts_v() == old(self).posts_v().insert(pos as int, post@),
            final(self).resources_v() == old(self).resources_v() + post_resources.deep_view(),
            final(self).attachments_v() == old(self).attachments_v()
                + post_resources.deep_view().map_values(attaches_to(post@.slug)),
            final(self).log_v() == old(self).log_v(),
    {
        let ghost s0 = *old(self);
        let ghost rsv = post_resources.deep_view();

        let pos = self.find_insert_position(post);
        let ghost posn = pos as int;
        self.posts.insert(pos, post.clone());
        proof {
            assert(self.posts_v() =~= s0.posts_v().insert(posn, post@));
            lemma_insert_post_ordered(s0.posts_v(), posn, post@);
        }
        self.push_attached_resources(post, post_resources);
        proof {
            let s1 = *self;
            lemma_append_attachments_wf(
                s0.posts_v(),
                s1.posts_v(),
                posn,
                post@,
                s0.resources_v(),
                rsv,
                s0.attachments_v(),
                rsv.map_values(attaches_to(post@.slug)),
            );
        }
        pos
    }
}

} // verus!

verus! {


/// After the old row and its attachments are removed, the slug and the new
/// resource identifiers are free: a new identifier either named no stored
/// resource at all, or named one attached to this very post, which the
/// removal dropped.
#[verifier::rlimit(100)]
proof fn lemma_update_mid_state(
    s0: MemoryStorage,
    smid: MemoryStorage,
    slugv: Seq<char>,
    rsv: Seq<ResourceV>,
)
    requires
        s0.wf(),
        smid.posts_v() == s0.posts_v().filter(keeps_post(slugv)),
        smid.resources_v() == s0.resources_v().filter(
            survives_cascade(s0.attachments_v(), slugv),
        ),
        !MemoryStorage::resources_conflict_spec(s0, rsv, Option::Some(slugv)),
    ensures
        !smid.has_post(slugv),
        forall|i: int| 0 <= i < rsv.len() ==> !smid.has_resource((#[trigger] rsv[i]).id),
        forall|i: int, j: int|
            0 <= i < j < rsv.len() ==> (#[trigger] rsv[i]).id != (#[trigger] rsv[j]).id,
{
    let pkeep = keeps_post(slugv);
    let rkeep = survives_cascade(s0.attachments_v(), slugv);
    if smid.has_post(slugv) {
        let i = choose|i: int|
            0 <= i < smid.posts_v().len() && (#[trigger] smid.posts_v()[i]).slug == slugv;
        smid.posts_v().lemma_filter_pred(pkeep, i);
    }
    assert forall|i: int| 0 <= i < rsv.len() implies !smid.has_resource(
        (#[trigger] rsv[i]).id,
    ) by {
        let id = rsv[i].id;
        if smid.has_resource(id) {
            let k = choose|k: int|
                0 <= k < smid.resources_v().len() && (#[trigger] smid.resources_v()[k]).id == id;
            lemma_filter_element_of(s0.resources_v(), rkeep, k);
            let k0 = choose|k0: int|
                0 <= k0 < s0.resources_v().len() && s0.resources_v()[k0] == smid.resources_v()[k]
                    && rkeep(#[trigger] s0.resources_v()[k0]);
            assert(s0.has_resource(id));
            assert(s0.attachments_v().contains((slugv, id)));
        }
    }
}


impl MemoryStorage {
    /// Whether inserting the given post with the given resources would
    /// violate a uniqueness constraint.
    pub open spec fn insert_conflict(s0: MemoryStorage, postv: PostV, rsv: Seq<ResourceV>) -> bool {
        ||| s0.has_post(postv.slug)
        ||| Self::resources_conflict_spec(s0, rsv, Option::None)
    }

    /// What a successful `insert_post` leaves behind: the post stands at its
    /// listing position, its resources and attachment pairs are stored, and
    /// one `CreatePost` commit is chained onto the log.
    pub open spec fn post_inserted(
        s0: MemoryStorage,
        s1: MemoryStorage,
        postv: PostV,
        rsv: Seq<ResourceV>,
        now: i64,
    ) -> bool {
        &&& exists|pos: int|
            0 <= pos <= s0.posts_v().len() && s1.posts_v() == s0.posts_v().insert(pos, postv)
        &&& s1.resources_v() == s0.resources_v() + rsv
        &&& s1.attachments_v() == s0.attachments_v() + rsv.map_values(attaches_to(postv.slug))
        &&& s1.log_v() == s0.log_v().push(
            appended_commit(s0.log_v(), now, PayloadV::CreatePost { slug: postv.slug }),
        )
    }

    /// Insert a post with its attached resources.
    ///
    /// Fails with `Conflict`, leaving the store unchanged, exactly when the
    /// slug is already taken or a resource identifier collides. On success
    /// the post and its resources are stored and one `CreatePost` commit is
    /// appended.
    #[verifier::rlimit(100)]
    pub fn insert_post(&mut self, post: &Post, post_resources: &Vec<Resource>, now: i64) -> (r:
        Result<(), StorageError>)
        requires
            old(self).wf(),
            now >= 0,
        ensures
            final(self).wf(),
            Self::insert_conflict(*old(self), post@, post_resources.deep_view()) ==> r == Result::<
                (),
                StorageError,
            >::Err(StorageError::Conflict) && same_state(*final(self), *old(self)),
            !Self::insert_conflict(*old(self), post@, post_resources.deep_view()) ==> r == Result::<
                (),
                StorageError,
            >::Ok(()) && Self::post_inserted(
                *old(self),
                *final(self),
                post@,
                post_resources.deep_view(),
                now,
            ) && final(self).has_post(post@.slug) && final(self).post_with(post@.slug) == post@,
    {
        if self.find_post_index(post.slug.as_str()).is_some() {
            return Err(StorageError::Conflict);
        }
        if self.resources_conflict(post_resources, None) {
            return Err(StorageError::Conflict);
        }
        let pos = self.insert_post_content(post, post_resources);
        proof {
            lemma_insert_lookup(old(self).posts_v(), self.posts_v(), pos as int, post@);
            assert(exists|p: int|
                0 <= p <= old(self).posts_v().len() && self.posts_v() == old(self).posts_v().insert(
                    p,
                    post@,
                ));
        }
        let payload = CommitPayload::create_post(post.slug.clone());
        self.append_commit(payload, now);
        Ok(())
    }

    /// The stored posts with the post carrying the given slug removed.
    pub open spec fn posts_without(posts: Seq<PostV>, slug: Seq<char>) -> Seq<PostV> {
        posts.filter(keeps_post(slug))
    }

    /// What a successful `update_post` leaves behind: the old post row and
    /// its attached resources are replaced by the new ones, and one
    /// `UpdatePost` commit is chained onto the log.
    pub open spec fn post_updated(
        s0: MemoryStorage,
        s1: MemoryStorage,
        postv: PostV,
        rsv: Seq<ResourceV>,
        now: i64,
    ) -> bool {
        &&& exists|pos: int|
            0 <= pos <= Self::posts_without(s0.posts_v(), postv.slug).len() && s1.posts_v()
                == #[trigger] Self::posts_without(s0.posts_v(), postv.slug).insert(pos, postv)
        &&& s1.resources_v() == s0.resources_v().filter(
            survives_cascade(s0.attachments_v(), postv.slug),
        ) + rsv
        &&& s1.attachments_v() == s0.attachments_v().filter(keeps_attachment(postv.slug))
            + rsv.map_values(attaches_to(postv.slug))
        &&& s1.log_v() == s0.log_v().push(
            appended_commit(s0.log_v(), now, PayloadV::UpdatePost { slug: postv.slug }),
        )
    }

    /// Update the post with the new post's slug by a full replace: the old
    /// row and its attached resources are deleted and the new ones inserted,
    /// within one logical change.
    ///
    /// Fails with `NotFound` if no post with the slug is stored, and with
    /// `Conflict` if a new resource identifier collides with a resource that
    /// survives the replace; either way the store is unchanged. On success
    /// one `UpdatePost` commit is appended.
    #[verifier::rlimit(100)]
    #[verifier::spinoff_prover]
    pub fn update_post(&mut self, post: &Post, post_resources: &Vec<Resource>, now: i64) -> (r:
        Result<(), StorageError>)
        requires
            old(self).wf(),
            now >= 0,
        ensures
            final(self).wf(),
            !old(self).has_post(post@.slug) ==> r == Result::<(), StorageError>::Err(
                StorageError::NotFound,
            ) && same_state(*final(self), *old(self)),
            old(self).has_post(post@.slug) && Self::resources_conflict_spec(
                *old(self),
                post_resources.deep_view(),
                Option::Some(post@.slug),
            ) ==> r == Result::<(), StorageError>::Err(StorageError::Conflict) && same_state(
                *final(self),
                *old(self),
            ),
            old(self).has_post(post@.slug) && !Self::resources_conflict_spec(
                *old(self),
                post_resources.deep_view(),
                Option::Some(post@.slug),
            ) ==> r == Result::<(), StorageError>::Ok(()) && Self::post_updated(
                *old(self),
                *final(self),
                post@,
                post_resources.deep_view(),
                now,
            ) && final(self).has_post(post@.slug) && final(self).post_with(post@.slug) == post@,
    {
        let ghost s0 = *old(self);
        let ghost rsv = post_resources.deep_view();
        if self.find_post_index(post.slug.as_str()).is_none() {
            return Err(StorageError::NotFound);
        }
        if self.resources_conflict(post_resources, Some(post.slug.as_str())) {
            return Err(StorageError::Conflict);
        }
        self.remove_post_content(post.slug.as_str());
        let ghost smid = *self;
        proof {
            lemma_update_mid_state(s0, smid, post@.slug, rsv);
        }
        let pos = self.insert_post_content(post, post_resources);
        proof {
            lemma_insert_lookup(smid.posts_v(), self.posts_v(), pos as int, post@);
        }
        let payload = CommitPayload::update_post(post.slug.clone());
        self.append_commit(payload, now);
        proof {
            let kept = Self::posts_without(s0.posts_v(), post@.slug);
            assert(smid.posts_v() == kept);
            assert(self.posts_v() == kept.insert(pos as int, post@));
            assert(Self::post_updated(s0, *self, post@, rsv, now));
        }
        Ok(())
    }

    /// Get one page of the post listing: the posts ranked by creation
    /// timestamp descending (ties broken by slug), restricted to the
    /// requested page, together with the total number of stored posts.
    #[verifier::loop_isolation(false)]
    pub fn get_posts(&self, pagination: &Pagination) -> (r: PaginatedList<Post>)
        requires
            self.wf(),
            pagination.wf(),
        ensures
            r.total_count == self.posts_v().len(),
            r.objects.deep_view() == self.posts_v().subrange(
                if pagination.spec_skip_count() <= self.posts_v().len() {
                    pagination.spec_skip_count()
                } else {
                    self.posts_v().len() as int
                },
                if pagination.spec_skip_count() + pagination.spec_page_size()
                    <= self.posts_v().len() {
                    pagination.spec_skip_count() + pagination.spec_page_size()
                } else {
                    self.posts_v().len() as int
                },
            ),
    {
        let total_count = self.posts.len();
        let skip = pagination.skip_count();
        let lo = if skip <= total_count {
            skip
        } else {
            total_count
        };
        let hi = if total_count - lo < pagination.page_size() {
            total_count
        } else {
            lo + pagination.page_size()
        };
        let ghost lov = lo as int;
        let ghost hiv = hi as int;
        let mut objects: Vec<Post> = Vec::new();
        let mut i: usize = lo;
        proof {
            assert(objects.deep_view() =~= self.posts_v().subrange(lov, lov));
        }
        while i < hi
            invariant
                lo <= i <= hi,
                objects.deep_view() == self.posts_v().subrange(lov, i as int),
            decreases hi - i,
        {
            let ghost prev = objects.deep_view();
            objects.push(self.posts[i].clone());
            proof {
                assert(objects.deep_view() =~= prev.push(self.posts_v()[i as int]));
                assert(objects.deep_view() =~= self.posts_v().subrange(lov, i + 1));
            }
            i = i + 1;
        }
        PaginatedList { objects, total_count }
    }

    /// Get the post with the given slug together with its attached
    /// resources, or none if no such post is stored.
    #[verifier::loop_isolation(false)]
    pub fn get_post_with_resources(&self, post_slug: &str) -> (r: Option<(Post, Vec<Resource>)>)
        requires
            self.wf(),
        ensures
            match r {
                Option::Some(pr) => self.has_post(post_slug@) && pr.0@ == self.post_with(post_slug@)
                    && pr.1.deep_view() == self.attached(post_slug@),
                Option::None => !self.has_post(post_slug@),
            },
    {
        let post = match self.get_post(post_slug) {
            Some(p) => p,
            None => {
                return None;
            },
        };
        let ghost akeep = attached_to(self.attachments_v(), post_slug@);
        let mut rs: Vec<Resource> = Vec::new();
        let mut i: usize = 0;
        proof {
            reveal(Seq::filter);
            assert(rs.deep_view() =~= self.resources_v().take(0).filter(akeep));
        }
        while i < self.resources.len()
            invariant
                i <= self.resources.len(),
                rs.deep_view() == self.resources_v().take(i as int).filter(akeep),
            decreases self.resources.len() - i,
        {
            let ghost prev = rs.deep_view();
            if self.attachment_contains(post_slug, self.resources[i].id) {
                rs.push(self.resources[i].clone());
                proof {
                    assert(rs.deep_view() =~= prev.push(self.resources_v()[i as int]));
                }
            }
            proof {
                lemma_filter_take_step(self.resources_v(), akeep, i as int);
            }
            i = i + 1;
        }
        proof {
            assert(self.resources_v().take(self.resources_v().len() as int) =~= self.resources_v());
        }
        Some((post, rs))
    }
}

} // verus!

verus! {

/// The content of a store: its posts, resources and attachment pairs,
/// without the commit log.
#[verifier::ext_equal]
pub struct ContentV {
    pub posts: Seq<PostV>,
    pub resources: Seq<ResourceV>,
    pub attachments: Seq<(Seq<char>, ResourceId)>,
}

/// What deleting a post does to the content: the post row, its attachment
/// pairs and the resources attached to it are gone.
pub open spec fn delete_post_effect(c: ContentV, slug: Seq<char>) -> ContentV {
    ContentV {
        posts: c.posts.filter(keeps_post(slug)),
        resources: c.resources.filter(survives_cascade(c.attachments, slug)),
        attachments: c.attachments.filter(keeps_attachment(slug)),
    }
}

/// What deleting a resource does to the content.
pub open spec fn delete_resource_effect(c: ContentV, id: ResourceId) -> ContentV {
    ContentV {
        posts: c.posts,
        resources: c.resources.filter(keeps_resource(id)),
        attachments: c.attachments.filter(keeps_attachment_id(id)),
    }
}

/// The post sequence with a post placed at its listing position.
#[verifier::opaque]
pub open spec fn listing_insert(posts: Seq<PostV>, p: PostV) -> Seq<PostV>
    decreases posts.len(),
{
    if posts.len() == 0 {
        seq![p]
    } else if listed_before(p, posts[0]) {
        seq![p] + posts
    } else {
        seq![posts[0]] + listing_insert(posts.drop_first(), p)
    }
}

/// Inserting at the first position whose occupant the new post is listed
/// before places the post at its listing position.
pub proof fn lemma_listing_insert_at(posts: Seq<PostV>, p: PostV, pos: int)
    requires
        0 <= pos <= posts.len(),
        forall|k: int| 0 <= k < pos ==> !listed_before(p, #[trigger] posts[k]),
        pos < posts.len() ==> listed_before(p, posts[pos]),
    ensures
        listing_insert(posts, p) == posts.insert(pos, p),
    decreases posts.len(),
{
    reveal(listing_insert);
    if posts.len() == 0 {
        assert(listing_insert(posts, p) =~= posts.insert(0, p));
    } else if pos == 0 {
        assert(listing_insert(posts, p) =~= posts.insert(0, p));
    } else {
        lemma_listing_insert_at(posts.drop_first(), p, pos - 1);
        assert(posts.drop_first().insert(pos - 1, p) =~= posts.insert(pos, p).drop_first());
        assert(listing_insert(posts, p) =~= posts.insert(pos, p));
    }
}

/// The content after deleting the given posts in order.
pub open spec fn apply_post_deletions(c: ContentV, slugs: Seq<Seq<char>>) -> ContentV
    decreases slugs.len(),
{
    if slugs.len() == 0 {
        c
    } else {
        apply_post_deletions(delete_post_effect(c, slugs[0]), slugs.drop_first())
    }
}

/// The content after deleting the given resources in order.
pub open spec fn apply_resource_deletions(c: ContentV, ids: Seq<ResourceId>) -> ContentV
    decreases ids.len(),
{
    if ids.len() == 0 {
        c
    } else {
        apply_resource_deletions(delete_resource_effect(c, ids[0]), ids.drop_first())
    }
}

/// Folding one more deletion onto a prefix.
pub proof fn lemma_post_deletions_push(c: ContentV, slugs: Seq<Seq<char>>, slug: Seq<char>)
    ensures
        apply_post_deletions(c, slugs.push(slug)) == delete_post_effect(
            apply_post_deletions(c, slugs),
            slug,
        ),
    decreases slugs.len(),
{
    reveal_with_fuel(apply_post_deletions, 3);
    if slugs.len() == 0 {
        assert(slugs.push(slug).drop_first() =~= Seq::<Seq<char>>::empty());
    } else {
        assert(slugs.push(slug)[0] == slugs[0]);
        assert(slugs.push(slug).drop_first() =~= slugs.drop_first().push(slug));
        lemma_post_deletions_push(delete_post_effect(c, slugs[0]), slugs.drop_first(), slug);
    }
}

/// Folding one more deletion onto a prefix.
pub proof fn lemma_resource_deletions_push(c: ContentV, ids: Seq<ResourceId>, id: ResourceId)
    ensures
        apply_resource_deletions(c, ids.push(id)) == delete_resource_effect(
            apply_resource_deletions(c, ids),
            id,
        ),
    decreases ids.len(),
{
    reveal_with_fuel(apply_resource_deletions, 3);
    if ids.len() == 0 {
        assert(ids.push(id).drop_first() =~= Seq::<ResourceId>::empty());
    } else {
        assert(ids.push(id)[0] == ids[0]);
        assert(ids.push(id).drop_first() =~= ids.drop_first().push(id));
        lemma_resource_deletions_push(delete_resource_effect(c, ids[0]), ids.drop_first(), id);
    }
}

/// What applying a delta does to the content: every deletion, then every
/// addition.
pub open spec fn delta_content_effect(c: ContentV, d: crate::models::DeltaV) -> ContentV {
    let afterdel = apply_resource_deletions(
        apply_post_deletions(c, d.deleted_post_slugs),
        d.deleted_resource_ids,
    );
    ContentV {
        posts: posts_after_additions(afterdel.posts, d.added_posts),
        resources: afterdel.resources + bundle_resources(d.added_posts) + d.added_resources,
        attachments: afterdel.attachments + bundle_pairs(d.added_posts),
    }
}

/// The posts after placing each added post at its listing position, in
/// order.
#[verifier::opaque]
pub open spec fn posts_after_additions(
    posts: Seq<PostV>,
    added: Seq<(PostV, Seq<ResourceV>)>,
) -> Seq<PostV>
    decreases added.len(),
{
    if added.len() == 0 {
        posts
    } else {
        posts_after_additions(listing_insert(posts, added[0].0), added.drop_first())
    }
}

/// All resources attached to the added posts, in order.
#[verifier::opaque]
pub open spec fn bundle_resources(added: Seq<(PostV, Seq<ResourceV>)>) -> Seq<ResourceV>
    decreases added.len(),
{
    if added.len() == 0 {
        Seq::<ResourceV>::empty()
    } else {
        added[0].1 + bundle_resources(added.drop_first())
    }
}

/// All attachment pairs of the added posts, in order.
#[verifier::opaque]
pub open spec fn bundle_pairs(added: Seq<(PostV, Seq<ResourceV>)>) -> Seq<(Seq<char>, ResourceId)>
    decreases added.len(),
{
    if added.len() == 0 {
        Seq::<(Seq<char>, ResourceId)>::empty()
    } else {
        added[0].1.map_values(attaches_to(added[0].0.slug)) + bundle_pairs(added.drop_first())
    }
}

/// Folding one more post addition onto a prefix.
pub proof fn lemma_posts_after_additions_push(
    posts: Seq<PostV>,
    added: Seq<(PostV, Seq<ResourceV>)>,
    pr: (PostV, Seq<ResourceV>),
)
    ensures
        posts_after_additions(posts, added.push(pr)) == listing_insert(
            posts_after_additions(posts, added),
            pr.0,
        ),
    decreases added.len(),
{
    reveal_with_fuel(posts_after_additions, 3);
    if added.len() == 0 {
        assert(added.push(pr).drop_first() =~= Seq::<(PostV, Seq<ResourceV>)>::empty());
    } else {
        assert(added.push(pr)[0] == added[0]);
        assert(added.push(pr).drop_first() =~= added.drop_first().push(pr));
        lemma_posts_after_additions_push(
            listing_insert(posts, added[0].0),
            added.drop_first(),
            pr,
        );
    }
}

/// Folding one more post addition onto a prefix.
pub proof fn lemma_bundle_resources_push(
    added: Seq<(PostV, Seq<ResourceV>)>,
    pr: (PostV, Seq<ResourceV>),
)
    ensures
        bundle_resources(added.push(pr)) == bundle_resources(added) + pr.1,
    decreases added.len(),
{
    reveal_with_fuel(bundle_resources, 3);
    if added.len() == 0 {
        assert(added.push(pr).drop_first() =~= Seq::<(PostV, Seq<ResourceV>)>::empty());
        assert(bundle_resources(added.push(pr)) =~= bundle_resources(added) + pr.1);
    } else {
        assert(added.push(pr)[0] == added[0]);
        assert(added.push(pr).drop_first() =~= added.drop_first().push(pr));
        lemma_bundle_resources_push(added.drop_first(), pr);
        assert(bundle_resources(added.push(pr)) =~= bundle_resources(added) + pr.1);
    }
}

/// Folding one more post addition onto a prefix.
pub proof fn lemma_bundle_pairs_push(
    added: Seq<(PostV, Seq<ResourceV>)>,
    pr: (PostV, Seq<ResourceV>),
)
    ensures
        bundle_pairs(added.push(pr)) == bundle_pairs(added) + pr.1.map_values(
            attaches_to(pr.0.slug),
        ),
    decreases added.len(),
{
    reveal_with_fuel(bundle_pairs, 3);
    if added.len() == 0 {
        assert(added.push(pr).drop_first() =~= Seq::<(PostV, Seq<ResourceV>)>::empty());
        assert(bundle_pairs(added.push(pr)) =~= bundle_pairs(added) + pr.1.map_values(
            attaches_to(pr.0.slug),
        ));
    } else {
        assert(added.push(pr)[0] == added[0]);
        assert(added.push(pr).drop_first() =~= added.drop_first().push(pr));
        lemma_bundle_pairs_push(added.drop_first(), pr);
        assert(bundle_pairs(added.push(pr)) =~= bundle_pairs(added) + pr.1.map_values(
            attaches_to(pr.0.slug),
        ));
    }
}

/// Placing a post at its listing position stores exactly the old slugs plus
/// the new one.
pub proof fn lemma_listing_insert_membership(posts: Seq<PostV>, p: PostV)
    ensures
        forall|s: Seq<char>|
            #[trigger] seq_has_post(listing_insert(posts, p), s) <==> (s == p.slug || seq_has_post(
                posts,
                s,
            )),
    decreases posts.len(),
{
    reveal(listing_insert);
    if posts.len() == 0 {
        assert forall|s: Seq<char>| #[trigger]
            seq_has_post(listing_insert(posts, p), s) <==> (s == p.slug || seq_has_post(
                posts,
                s,
            )) by {
            assert(listing_insert(posts, p)[0] == p);
        }
    } else if listed_before(p, posts[0]) {
        assert forall|s: Seq<char>| #[trigger]
            seq_has_post(listing_insert(posts, p), s) <==> (s == p.slug || seq_has_post(
                posts,
                s,
            )) by {
            let out = listing_insert(posts, p);
            assert(out[0] == p);
            assert forall|k: int| 0 <= k < posts.len() implies out[k + 1] == posts[k] by {}
            if seq_has_post(out, s) {
                let w = choose|w: int| 0 <= w < out.len() && (#[trigger] out[w]).slug == s;
                if w > 0 {
                    assert(posts[w - 1].slug == s);
                }
            }
            if seq_has_post(posts, s) {
                let w = choose|w: int| 0 <= w < posts.len() && (#[trigger] posts[w]).slug == s;
                assert(out[w + 1].slug == s);
            }
        }
    } else {
        lemma_listing_insert_membership(posts.drop_first(), p);
        assert forall|s: Seq<char>| #[trigger]
            seq_has_post(listing_insert(posts, p), s) <==> (s == p.slug || seq_has_post(
                posts,
                s,
            )) by {
            let out = listing_insert(posts, p);
            let rest = listing_insert(posts.drop_first(), p);
            assert(out[0] == posts[0]);
            assert forall|k: int| 0 <= k < rest.len() implies out[k + 1] == rest[k] by {}
            if seq_has_post(out, s) {
                let w = choose|w: int| 0 <= w < out.len() && (#[trigger] out[w]).slug == s;
                if w > 0 {
                    assert(rest[w - 1].slug == s);
                    assert(seq_has_post(rest, s));
                    if s != p.slug {
                        let rest0 = posts.drop_first();
                        let v = choose|v: int|
                            0 <= v < rest0.len() && (#[trigger] rest0[v]).slug == s;
                        assert(posts[v + 1].slug == s);
                    }
                }
            }
            if s == p.slug {
                assert(seq_has_post(rest, s));
                let w = choose|w: int| 0 <= w < rest.len() && (#[trigger] rest[w]).slug == s;
                assert(out[w + 1].slug == s);
            }
            if seq_has_post(posts, s) {
                let w = choose|w: int| 0 <= w < posts.len() && (#[trigger] posts[w]).slug == s;
                if w == 0 {
                    assert(out[0].slug == s);
                } else {
                    assert(posts.drop_first()[w - 1].slug == s);
                    assert(seq_has_post(rest, s));
                    let v = choose|v: int| 0 <= v < rest.len() && (#[trigger] rest[v]).slug == s;
                    assert(out[v + 1].slug == s);
                }
            }
        }
    }
}

/// The posts after a batch of additions store exactly the old slugs plus the
/// added ones.
pub proof fn lemma_posts_after_additions_membership(
    posts: Seq<PostV>,
    added: Seq<(PostV, Seq<ResourceV>)>,
)
    ensures
        forall|s: Seq<char>|
            #[trigger] seq_has_post(posts_after_additions(posts, added), s) <==> (seq_has_post(
                posts,
                s,
            ) || exists|k: int| 0 <= k < added.len() && (#[trigger] added[k]).0.slug == s),
    decreases added.len(),
{
    reveal_with_fuel(posts_after_additions, 2);
    if added.len() > 0 {
        let base = listing_insert(posts, added[0].0);
        let rest0 = added.drop_first();
        lemma_listing_insert_membership(posts, added[0].0);
        lemma_posts_after_additions_membership(base, rest0);
        assert(posts_after_additions(posts, added) == posts_after_additions(base, rest0));
        assert forall|s: Seq<char>| #[trigger]
            seq_has_post(posts_after_additions(posts, added), s) <==> (seq_has_post(posts, s)
                || exists|k: int| 0 <= k < added.len() && (#[trigger] added[k]).0.slug == s) by {
            if seq_has_post(posts_after_additions(posts, added), s) {
                if !seq_has_post(posts, s) && s != added[0].0.slug {
                    assert(seq_has_post(base, s) || exists|k: int|
                        0 <= k < rest0.len() && (#[trigger] rest0[k]).0.slug == s);
                    let k = choose|k: int| 0 <= k < rest0.len() && (#[trigger] rest0[k]).0.slug
                        == s;
                    assert(rest0[k] == added[k + 1]);
                    assert(added[k + 1].0.slug == s);
                } else if s == added[0].0.slug {
                    assert(added[0].0.slug == s);
                }
            }
            if seq_has_post(posts, s) {
                assert(seq_has_post(base, s));
                assert(seq_has_post(posts_after_additions(base, rest0), s));
            }
            if exists|k: int| 0 <= k < added.len() && (#[trigger] added[k]).0.slug == s {
                let k = choose|k: int| 0 <= k < added.len() && (#[trigger] added[k]).0.slug == s;
                if k == 0 {
                    assert(seq_has_post(base, s));
                    assert(seq_has_post(posts_after_additions(base, rest0), s));
                } else {
                    assert(rest0[k - 1] == added[k]);
                    assert(rest0[k - 1].0.slug == s);
                    assert(seq_has_post(posts_after_additions(base, rest0), s));
                }
            }
        }
    }
}

/// Every element of a resource bundle belongs to one of the added posts.
pub proof fn lemma_bundle_resources_element(added: Seq<(PostV, Seq<ResourceV>)>, m: int)
    requires
        0 <= m < bundle_resources(added).len(),
    ensures
        exists|k: int, j: int|
            0 <= k < added.len() && 0 <= j < added[k].1.len() && (#[trigger] added[k].1[j])
                == bundle_resources(added)[m],
    decreases added.len(),
{
    reveal_with_fuel(bundle_resources, 2);
    if added.len() > 0 {
        if m < added[0].1.len() {
            assert(added[0].1[m] == bundle_resources(added)[m]);
        } else {
            lemma_bundle_resources_element(added.drop_first(), m - added[0].1.len());
            let rest0 = added.drop_first();
            let (k, j) = choose|k: int, j: int|
                0 <= k < rest0.len() && 0 <= j < rest0[k].1.len() && (#[trigger] rest0[k].1[j])
                    == bundle_resources(rest0)[m - added[0].1.len()];
            assert(added[k + 1].1[j] == bundle_resources(added)[m]);
        }
    }
}

/// A post addition batch goes through when the slugs of the added posts are
/// fresh and pairwise distinct, and the identifiers of all their attached
/// resources are fresh and pairwise distinct.
#[verifier::opaque]
pub open spec fn post_additions_apply(c: ContentV, added: Seq<(PostV, Seq<ResourceV>)>) -> bool {
    &&& forall|k: int|
        0 <= k < added.len() ==> !seq_has_post(c.posts, (#[trigger] added[k]).0.slug)
    &&& forall|k: int, l: int|
        0 <= k < l < added.len() ==> (#[trigger] added[k]).0.slug != (#[trigger] added[l]).0.slug
    &&& forall|k: int, j: int|
        0 <= k < added.len() && 0 <= j < (#[trigger] added[k]).1.len() ==> !seq_has_resource(
            c.resources,
            (#[trigger] added[k].1[j]).id,
        )
    &&& forall|k: int, j: int, l: int, m: int|
        0 <= k < added.len() && 0 <= j < added[k].1.len() && 0 <= l < added.len() && 0 <= m
            < added[l].1.len() && (k != l || j != m) ==> (#[trigger] added[k].1[j]).id != (
        #[trigger] added[l].1[m]).id
}

/// A batch of free-standing resources goes through when their identifiers
/// are fresh — also with respect to the resources the added posts bring —
/// and pairwise distinct.
pub open spec fn resource_additions_apply(
    c: ContentV,
    added: Seq<(PostV, Seq<ResourceV>)>,
    rs: Seq<ResourceV>,
) -> bool {
    &&& forall|i: int|
        0 <= i < rs.len() ==> !seq_has_resource(
            c.resources + bundle_resources(added),
            (#[trigger] rs[i]).id,
        )
    &&& forall|i: int, j: int|
        0 <= i < j < rs.len() ==> (#[trigger] rs[i]).id != (#[trigger] rs[j]).id
}

/// Whether the delta's additions go through on the content that its
/// deletions leave.
pub open spec fn delta_applies(c: ContentV, d: crate::models::DeltaV) -> bool {
    let afterdel = apply_resource_deletions(
        apply_post_deletions(c, d.deleted_post_slugs),
        d.deleted_resource_ids,
    );
    &&& post_additions_apply(afterdel, d.added_posts)
    &&& resource_additions_apply(afterdel, d.added_posts, d.added_resources)
}

impl MemoryStorage {
    /// The content of the store: its posts, resources and attachments.
    pub open spec fn content_v(self) -> ContentV {
        ContentV {
            posts: self.posts_v(),
            resources: self.resources_v(),
            attachments: self.attachments_v(),
        }
    }

    /// Store a free-standing resource with a fresh identifier, leaving the
    /// commit log alone.
    fn push_free_resource(&mut self, resource: &Resource)
        requires
            old(self).wf(),
            !old(self).has_resource(resource@.id),
        ensures
            final(self).wf(),
            final(self).resources_v() == old(self).resources_v().push(resource@),
            final(self).posts_v() == old(self).posts_v(),
            final(self).attachments_v() == old(self).attachments_v(),
            final(self).log_v() == old(self).log_v(),
    {
        self.resources.push(resource.clone());
        proof {
            assert(self.resources_v() =~= old(self).resources_v().push(resource@));
            let s1 = *self;
            let s0 = *old(self);
            assert forall|k: int| 0 <= k < s1.attachments_v().len() implies s1.has_post(
                (#[trigger] s1.attachments_v()[k]).0,
            ) && s1.has_resource(s1.attachments_v()[k].1) by {
                assert(s0.has_post(s0.attachments_v()[k].0));
                assert(s0.has_resource(s0.attachments_v()[k].1));
                let j = choose|j: int|
                    0 <= j < s0.resources_v().len() && (#[trigger] s0.resources_v()[j]).id
                        == s0.attachments_v()[k].1;
                assert(s1.resources_v()[j].id == s1.attachments_v()[k].1);
            }
        }
    }
}

} // verus!

verus! {

/// A post placed into a sequence of posts with distinct slugs, under a slug
/// not yet stored, is then looked up under its slug.
proof fn lemma_insert_lookup(s0: Seq<PostV>, s1: Seq<PostV>, pos: int, p: PostV)
    requires
        0 <= pos <= s0.len(),
        s1 == s0.insert(pos, p),
        !seq_has_post(s0, p.slug),
    ensures
        seq_has_post(s1, p.slug),
        seq_post_with(s1, p.slug) == p,
{
    assert(s1[pos] == p);
    assert(seq_has_post(s1, p.slug));
    let w = choose|w: int| 0 <= w < s1.len() && (#[trigger] s1[w]).slug == p.slug;
    if w != pos {
        if w < pos {
            assert(s0[w].slug == p.slug);
        } else {
            assert(s0[w - 1].slug == p.slug);
        }
        assert(false);
    }
}

/// In a post-addition batch that applies, each step's post has a fresh slug
/// and fresh, distinct resource identifiers on the content that the previous
/// steps left.
#[verifier::rlimit(100)]
proof fn lemma_post_addition_step(
    c0: ContentV,
    av: Seq<(PostV, Seq<ResourceV>)>,
    i: int,
    cpre: ContentV,
)
    requires
        post_additions_apply(c0, av),
        0 <= i < av.len(),
        cpre.posts == posts_after_additions(c0.posts, av.take(i)),
        cpre.resources == c0.resources + bundle_resources(av.take(i)),
    ensures
        !seq_has_post(cpre.posts, av[i].0.slug),
        forall|j: int|
            0 <= j < av[i].1.len() ==> !seq_has_resource(
                cpre.resources,
                (#[trigger] av[i].1[j]).id,
            ),
        forall|j: int, m: int|
            0 <= j < m < av[i].1.len() ==> (#[trigger] av[i].1[j]).id != (
            #[trigger] av[i].1[m]).id,
{
    reveal(post_additions_apply);
    lemma_posts_after_additions_membership(c0.posts, av.take(i));
    if seq_has_post(cpre.posts, av[i].0.slug) {
        if exists|k: int|
            0 <= k < av.take(i).len() && (#[trigger] av.take(i)[k]).0.slug == av[i].0.slug {
            let k = choose|k: int|
                0 <= k < av.take(i).len() && (#[trigger] av.take(i)[k]).0.slug == av[i].0.slug;
            assert(av[k].0.slug == av[i].0.slug);
            assert(false);
        }
        assert(false);
    }
    assert forall|j: int| 0 <= j < av[i].1.len() implies !seq_has_resource(
        cpre.resources,
        (#[trigger] av[i].1[j]).id,
    ) by {
        if seq_has_resource(cpre.resources, av[i].1[j].id) {
            let w = choose|w: int|
                0 <= w < cpre.resources.len() && (#[trigger] cpre.resources[w]).id == av[
                    i].1[j].id;
            if w < c0.resources.len() {
                assert(c0.resources[w].id == av[i].1[j].id);
            } else {
                lemma_bundle_resources_element(av.take(i), w - c0.resources.len());
                let (k, m) = choose|k: int, m: int|
                    0 <= k < av.take(i).len() && 0 <= m < av.take(i)[k].1.len() && (
                    #[trigger] av.take(i)[k].1[m]) == bundle_resources(av.take(i))[w
                        - c0.resources.len()];
                assert(av[k].1[m].id == av[i].1[j].id);
            }
        }
    }
}

/// In a well-formed chain split into a prefix and a suffix, each suffix
/// commit is well formed, chains onto the element just before it, and its
/// timestamp is at least its predecessor's.
proof fn lemma_chain_commit_at(log0: Seq<CommitV>, cv: Seq<CommitV>, i: int)
    requires
        chain_wf(log0 + cv),
        0 <= i < cv.len(),
    ensures
        commit_wf(cv[i]),
        log0.len() + i == 0 ==> cv[i].prev_commit_id == Seq::<u8>::empty(),
        log0.len() + i > 0 ==> cv[i].prev_commit_id == (log0 + cv)[log0.len() + i - 1].id && (log0
            + cv)[log0.len() + i - 1].timestamp <= cv[i].timestamp,
{
    assert((log0 + cv)[log0.len() + i] == cv[i]);
}

/// Resources that are fresh on a store and pairwise distinct raise no
/// resource conflict there.
proof fn lemma_no_resource_conflict(s: MemoryStorage, rsv: Seq<ResourceV>)
    requires
        forall|j: int|
            0 <= j < rsv.len() ==> !seq_has_resource(s.resources_v(), (#[trigger] rsv[j]).id),
        forall|j: int, m: int|
            0 <= j < m < rsv.len() ==> (#[trigger] rsv[j]).id != (#[trigger] rsv[m]).id,
    ensures
        !MemoryStorage::resources_conflict_spec(s, rsv, Option::None),
{
    if MemoryStorage::resources_conflict_spec(s, rsv, Option::None) {
        if exists|j: int| 0 <= j < rsv.len() && s.has_resource((#[trigger] rsv[j]).id) {
            let j = choose|j: int| 0 <= j < rsv.len() && s.has_resource((#[trigger] rsv[j]).id);
            assert(!seq_has_resource(s.resources_v(), rsv[j].id));
        } else {
            let (j, m) = choose|j: int, m: int|
                0 <= j < m < rsv.len() && (#[trigger] rsv[j]).id == (#[trigger] rsv[m]).id;
            assert(rsv[j].id != rsv[m].id);
        }
        assert(false);
    }
}

/// An identifier that a fitting delta adds as a free-standing resource is
/// absent from the store that the earlier additions left.
proof fn lemma_free_resource_fresh(
    c2: ContentV,
    av: Seq<(PostV, Seq<ResourceV>)>,
    rv: Seq<ResourceV>,
    cur: Seq<ResourceV>,
    i: int,
)
    requires
        resource_additions_apply(c2, av, rv),
        cur == (c2.resources + bundle_resources(av)) + rv.take(i),
        0 <= i < rv.len(),
    ensures
        !seq_has_resource(cur, rv[i].id),
{
    let c3r = c2.resources + bundle_resources(av);
    if seq_has_resource(cur, rv[i].id) {
        let w = choose|w: int| 0 <= w < cur.len() && (#[trigger] cur[w]).id == rv[i].id;
        if w < c3r.len() {
            assert(seq_has_resource(c3r, rv[i].id));
        } else {
            assert(rv.take(i)[w - c3r.len()] == rv[w - c3r.len()]);
            assert(rv[w - c3r.len()].id == rv[i].id);
        }
        assert(false);
    }
}

impl MemoryStorage {
    /// Delete the given posts in order, cascading, leaving the log alone.
    #[verifier::loop_isolation(false)]
    fn apply_post_deletion_phase(&mut self, slugs: &Vec<String>)
        requires
            old(self).wf(),
        ensures
            final(self).wf(),
            final(self).content_v() == apply_post_deletions(
                old(self).content_v(),
                slugs.deep_view(),
            ),
            final(self).log_v() == old(self).log_v(),
    {
        let ghost c0 = old(self).content_v();
        let ghost sv = slugs.deep_view();
        let mut i: usize = 0;
        proof {
            assert(sv.take(0) =~= Seq::<Seq<char>>::empty());
        }
        while i < slugs.len()
            invariant
                i <= slugs.len(),
                self.wf(),
                self.content_v() == apply_post_deletions(c0, sv.take(i as int)),
                self.log_v() == old(self).log_v(),
            decreases slugs.len() - i,
        {
            let ghost cpre = self.content_v();
            self.remove_post_content(slugs[i].as_str());
            proof {
                assert(self.content_v() =~= delete_post_effect(cpre, sv[i as int]));
                lemma_post_deletions_push(c0, sv.take(i as int), sv[i as int]);
                assert(sv.take(i + 1) =~= sv.take(i as int).push(sv[i as int]));
            }
            i = i + 1;
        }
        proof {
            assert(sv.take(sv.len() as int) =~= sv);
        }
    }

    /// Delete the given resources in order, leaving the log alone.
    #[verifier::rlimit(100)]
    fn apply_resource_deletion_phase(&mut self, ids: &Vec<ResourceId>)
        requires
            old(self).wf(),
        ensures
            final(self).wf(),
            final(self).content_v() == apply_resource_deletions(old(self).content_v(), ids@),
            final(self).log_v() == old(self).log_v(),
    {
        let ghost c0 = old(self).content_v();
        let mut i: usize = 0;
        proof {
            assert(ids@.take(0) =~= Seq::<ResourceId>::empty());
        }
        while i < ids.len()
            invariant
                i <= ids.len(),
                c0 == old(self).content_v(),
                self.wf(),
                self.content_v() == apply_resource_deletions(c0, ids@.take(i as int)),
                self.log_v() == old(self).log_v(),
            decreases ids.len() - i,
        {
            let ghost cpre = self.content_v();
            let ghost spre = *self;
            self.remove_resource_content(ids[i]);
            proof {
                lemma_removed_resource_wf(spre, *self, ids@[i as int]);
                assert(self.content_v() =~= delete_resource_effect(cpre, ids@[i as int]));
                lemma_resource_deletions_push(c0, ids@.take(i as int), ids@[i as int]);
                assert(ids@.take(i + 1) =~= ids@.take(i as int).push(ids@[i as int]));
            }
            i = i + 1;
        }
        proof {
            assert(ids@.take(ids@.len() as int) =~= ids@);
        }
    }

    /// Perform one step of a post-addition batch.
    #[verifier::rlimit(100)]
    fn apply_post_addition_step(
        &mut self,
        pr: &(Post, Vec<Resource>),
        Ghost(c0): Ghost<ContentV>,
        Ghost(av): Ghost<Seq<(PostV, Seq<ResourceV>)>>,
        Ghost(i): Ghost<int>,
    )
        requires
            old(self).wf(),
            post_additions_apply(c0, av),
            0 <= i < av.len(),
            av[i] == (pr.0@, pr.1.deep_view()),
            old(self).posts_v() == posts_after_additions(c0.posts, av.take(i)),
            old(self).resources_v() == c0.resources + bundle_resources(av.take(i)),
            old(self).attachments_v() == c0.attachments + bundle_pairs(av.take(i)),
        ensures
            final(self).wf(),
            final(self).posts_v() == posts_after_additions(c0.posts, av.take(i + 1)),
            final(self).resources_v() == c0.resources + bundle_resources(av.take(i + 1)),
            final(self).attachments_v() == c0.attachments + bundle_pairs(av.take(i + 1)),
            final(self).log_v() == old(self).log_v(),
    {
        proof {
            lemma_post_addition_step(c0, av, i, old(self).content_v());
            assert forall|j: int| 0 <= j < pr.1.deep_view().len() implies !old(self).has_resource(
                (#[trigger] pr.1.deep_view()[j]).id,
            ) by {
                assert(pr.1.deep_view()[j] == av[i].1[j]);
            }
            assert forall|j: int, m: int| 0 <= j < m < pr.1.deep_view().len() implies (
            #[trigger] pr.1.deep_view()[j]).id != (#[trigger] pr.1.deep_view()[m]).id by {
                assert(pr.1.deep_view()[j] == av[i].1[j]);
                assert(pr.1.deep_view()[m] == av[i].1[m]);
            }
        }
        let pos = self.insert_post_content(&pr.0, &pr.1);
        proof {
            lemma_listing_insert_at(old(self).posts_v(), pr.0@, pos as int);
            lemma_posts_after_additions_push(c0.posts, av.take(i), av[i]);
            lemma_bundle_resources_push(av.take(i), av[i]);
            lemma_bundle_pairs_push(av.take(i), av[i]);
            assert(av.take(i + 1) =~= av.take(i).push(av[i]));
            assert(self.resources_v() =~= c0.resources + bundle_resources(av.take(i + 1)));
            assert(self.attachments_v() =~= c0.attachments + bundle_pairs(av.take(i + 1)));
        }
    }

    /// Insert the given posts with their resources in order, leaving the log
    /// alone.
    #[verifier::rlimit(100)]
    fn apply_post_addition_phase(&mut self, added: &Vec<(Post, Vec<Resource>)>)
        requires
            old(self).wf(),
            post_additions_apply(old(self).content_v(), post_bundle_view(added@)),
        ensures
            final(self).wf(),
            final(self).posts_v() == posts_after_additions(
                old(self).posts_v(),
                post_bundle_view(added@),
            ),
            final(self).resources_v() == old(self).resources_v() + bundle_resources(
                post_bundle_view(added@),
            ),
            final(self).attachments_v() == old(self).attachments_v() + bundle_pairs(
                post_bundle_view(added@),
            ),
            final(self).log_v() == old(self).log_v(),
    {
        let ghost c0 = old(self).content_v();
        let ghost av = post_bundle_view(added@);
        let mut i: usize = 0;
        proof {
            reveal_with_fuel(posts_after_additions, 1);
            reveal_with_fuel(bundle_resources, 1);
            reveal_with_fuel(bundle_pairs, 1);
            assert(av.take(0) =~= Seq::<(PostV, Seq<ResourceV>)>::empty());
            assert(bundle_resources(av.take(0)) =~= Seq::<ResourceV>::empty());
            assert(bundle_pairs(av.take(0)) =~= Seq::<(Seq<char>, ResourceId)>::empty());
            assert(self.resources_v() =~= c0.resources + bundle_resources(av.take(0)));
            assert(self.attachments_v() =~= c0.attachments + bundle_pairs(av.take(0)));
        }
        while i < added.len()
            invariant
                i <= added.len(),
                c0 == old(self).content_v(),
                av == post_bundle_view(added@),
                post_additions_apply(c0, av),
                self.wf(),
                self.posts_v() == posts_after_additions(c0.posts, av.take(i as int)),
                self.resources_v() == c0.resources + bundle_resources(av.take(i as int)),
                self.attachments_v() == c0.attachments + bundle_pairs(av.take(i as int)),
                self.log_v() == old(self).log_v(),
            decreases added.len() - i,
        {
            proof {
                assert(av[i as int] == (added@[i as int].0@, added@[i as int].1.deep_view()));
            }
            let pr = &added[i];
            self.apply_post_addition_step(pr, Ghost(c0), Ghost(av), Ghost(i as int));
            i = i + 1;
        }
        proof {
            assert(av.take(av.len() as int) =~= av);
        }
    }

    /// Insert the given free-standing resources in order, leaving the log
    /// alone.
    #[verifier::rlimit(100)]
    fn apply_resource_addition_phase(&mut self, rs: &Vec<Resource>)
        requires
            old(self).wf(),
            forall|i: int|
                0 <= i < rs.deep_view().len() ==> !old(self).has_resource(
                    (#[trigger] rs.deep_view()[i]).id,
                ),
            forall|i: int, j: int|
                0 <= i < j < rs.deep_view().len() ==> (#[trigger] rs.deep_view()[i]).id != (
                #[trigger] rs.deep_view()[j]).id,
        ensures
            final(self).wf(),
            final(self).resources_v() == old(self).resources_v() + rs.deep_view(),
            final(self).posts_v() == old(self).posts_v(),
            final(self).attachments_v() == old(self).attachments_v(),
            final(self).log_v() == old(self).log_v(),
    {
        let ghost r0 = old(self).resources_v();
        let ghost rv = rs.deep_view();
        let mut i: usize = 0;
        proof {
            assert(self.resources_v() =~= r0 + rv.take(0));
        }
        while i < rs.len()
            invariant
                i <= rs.len(),
                r0 == old(self).resources_v(),
                rv == rs.deep_view(),
                forall|k: int|
                    0 <= k < rv.len() ==> !seq_has_resource(r0, (#[trigger] rv[k]).id),
                forall|k: int, j: int|
                    0 <= k < j < rv.len() ==> (#[trigger] rv[k]).id != (#[trigger] rv[j]).id,
                self.wf(),
                self.resources_v() == r0 + rv.take(i as int),
                self.posts_v() == old(self).posts_v(),
                self.attachments_v() == old(self).attachments_v(),
                self.log_v() == old(self).log_v(),
            decreases rs.len() - i,
        {
            proof {
                // The identifier is fresh on the current content.
                if seq_has_resource(self.resources_v(), rv[i as int].id) {
                    let w = choose|w: int|
                        0 <= w < self.resources_v().len() && (
                        #[trigger] self.resources_v()[w]).id == rv[i as int].id;
                    if w < r0.len() {
                        assert(r0[w].id == rv[i as int].id);
                    } else {
                        assert(rv.take(i as int)[w - r0.len()].id == rv[i as int].id);
                    }
                    assert(false);
                }
            }
            self.push_free_resource(&rs[i]);
            proof {
                assert(rv.take(i + 1) =~= rv.take(i as int).push(rv[i as int]));
                assert(self.resources_v() =~= r0 + rv.take(i + 1));
            }
            i = i + 1;
        }
        proof {
            assert(rv.take(rv.len() as int) =~= rv);
        }
    }

    /// Append the given commits verbatim: they chain onto the current tail.
    #[verifier::loop_isolation(false)]
    fn append_commits_phase(&mut self, cs: &Vec<Commit>)
        requires
            chain_wf(old(self).log_v() + cs.deep_view()),
        ensures
            final(self).log_v() == old(self).log_v() + cs.deep_view(),
            final(self).content_v() == old(self).content_v(),
    {
        let ghost log0 = old(self).log_v();
        let ghost cv = cs.deep_view();
        let mut i: usize = 0;
        proof {
            assert(log0 + cv.take(0) =~= log0);
        }
        while i < cs.len()
            invariant
                i <= cs.len(),
                self.log_v() == log0 + cv.take(i as int),
                self.content_v() == old(self).content_v(),
            decreases cs.len() - i,
        {
            let ghost full = log0 + cv;
            proof {
                assert forall|k: int| 0 <= k < self.log_v().len() implies (
                #[trigger] self.log_v()[k]).timestamp <= cv[i as int].timestamp by {
                    assert(self.log_v()[k] == full[k]);
                    assert(cv[i as int] == full[log0.len() + i]);
                }
            }
            let c = cs[i].clone();
            self.log.append(c);
            proof {
                assert(self.log_v() =~= log0 + cv.take(i + 1));
            }
            i = i + 1;
        }
        proof {
            assert(log0 + cv.take(cv.len() as int) =~= log0 + cv);
        }
    }

    /// Apply a delta computed by the synchronizer: every deletion, then
    /// every addition, then the delta's commits appended verbatim — they
    /// already carry correct parent linkage from the source store.
    ///
    /// The caller must hand in a delta whose commits chain onto this store's
    /// log and whose additions go through on the content its deletions
    /// leave; the synchronizer's construction guarantees both.
    #[verifier::rlimit(100)]
    pub fn apply_delta(&mut self, delta: &Delta) -> (r: Result<(), StorageError>)
        requires
            old(self).wf(),
            chain_wf(old(self).log_v() + delta@.commits),
            delta_applies(old(self).content_v(), delta@),
        ensures
            final(self).wf(),
            r == Result::<(), StorageError>::Ok(()),
            final(self).content_v() == delta_content_effect(old(self).content_v(), delta@),
            final(self).log_v() == old(self).log_v() + delta@.commits,
    {
        let ghost c0 = old(self).content_v();
        let ghost dv = delta@;
        self.apply_post_deletion_phase(&delta.deleted_post_slugs);
        self.apply_resource_deletion_phase(&delta.deleted_resource_ids);
        let ghost c2 = self.content_v();
        self.apply_post_addition_phase(&delta.added_posts);
        proof {
            // The free-standing additions are fresh on the current content.
            assert forall|i: int|
                0 <= i < delta.added_resources.deep_view().len() implies !self.has_resource(
                (#[trigger] delta.added_resources.deep_view()[i]).id,
            ) by {
                assert(self.resources_v() == c2.resources + bundle_resources(dv.added_posts));
            }
        }
        self.apply_resource_addition_phase(&delta.added_resources);
        self.append_commits_phase(&delta.commits);
        proof {
            assert(self.content_v() =~= delta_content_effect(c0, dv));
        }
        Ok(())
    }
}

} // verus!

verus! {

/// Decide whether two byte vectors hold the same bytes.
pub fn bytes_eq(a: &Vec<u8>, b: &Vec<u8>) -> (r: bool)
    ensures
        r == (a@ == b@),
{
    if a.len() != b.len() {
        proof {
            assert(a@ != b@);
        }
        return false;
    }
    let mut i: usize = 0;
    while i < a.len()
        invariant
            i <= a.len(),
            a@.len() == b@.len(),
            forall|k: int| 0 <= k < i ==> a@[k] == b@[k],
        decreases a.len() - i,
    {
        if a[i] != b[i] {
            return false;
        }
        i = i + 1;
    }
    proof {
        assert(a@ =~= b@);
    }
    true
}

impl MemoryStorage {
    /// A copy of this store, holding the same content and the same chain.
    fn clone_store(&self) -> (r: Self)
        ensures
            same_state(r, *self),
    {
        let mut posts: Vec<Post> = Vec::new();
        let mut i: usize = 0;
        while i < self.posts.len()
            invariant
                i <= self.posts.len(),
                posts.deep_view() == self.posts_v().take(i as int),
            decreases self.posts.len() - i,
        {
            let ghost prev = posts.deep_view();
            posts.push(self.posts[i].clone());
            proof {
                assert(posts.deep_view() =~= prev.push(self.posts_v()[i as int]));
                assert(posts.deep_view() =~= self.posts_v().take(i + 1));
            }
            i = i + 1;
        }
        let resources = self.resources.clone();
        let mut attachments: Vec<(String, ResourceId)> = Vec::new();
        let mut j: usize = 0;
        while j < self.attachments.len()
            invariant
                j <= self.attachments.len(),
                attachments@.map_values(|a: (String, ResourceId)| (a.0@, a.1))
                    == self.attachments_v().take(j as int),
            decreases self.attachments.len() - j,
        {
            let ghost prev = attachments@.map_values(|a: (String, ResourceId)| (a.0@, a.1));
            let name = self.attachments[j].0.clone();
            attachments.push((name, self.attachments[j].1));
            proof {
                assert(attachments@.map_values(|a: (String, ResourceId)| (a.0@, a.1)) =~= prev.push(
                    self.attachments_v()[j as int],
                ));
                assert(attachments@.map_values(|a: (String, ResourceId)| (a.0@, a.1))
                    =~= self.attachments_v().take(j + 1));
            }
            j = j + 1;
        }
        let log = CommitLog { commits: self.log.commits.clone() };
        let r = MemoryStorage { posts, resources, attachments, log };
        proof {
            assert(r.posts_v() =~= self.posts_v());
            assert(r.resources_v() =~= self.resources_v());
            assert(r.attachments_v() =~= self.attachments_v());
            assert(r.log_v() =~= self.log_v());
        }
        r
    }

    /// Apply a delta after checking, step by step, that it fits this store:
    /// that its additions meet no uniqueness conflict and that its commits
    /// chain correctly onto the tail, carrying their own digests. On any
    /// mismatch the store is left untouched and `Conflict` is reported; a
    /// delta that fits — its commits chain onto this store's log and its
    /// additions go through on the content its deletions leave — is applied
    /// whole and succeeds.
    #[verifier::loop_isolation(false)]
    #[verifier::rlimit(100)]
    pub fn try_apply_delta(&mut self, delta: &Delta) -> (r: Result<(), StorageError>)
        requires
            old(self).wf(),
        ensures
            final(self).wf(),
            r matches Result::Err(e) ==> e == StorageError::Conflict && same_state(
                *final(self),
                *old(self),
            ),
            r == Result::<(), StorageError>::Ok(()) ==> final(self).content_v()
                == delta_content_effect(old(self).content_v(), delta@) && final(self).log_v()
                == old(self).log_v() + delta@.commits && chain_wf(
                old(self).log_v() + delta@.commits,
            ),
            chain_wf(old(self).log_v() + delta@.commits) && delta_applies(
                old(self).content_v(),
                delta@,
            ) ==> r == Result::<(), StorageError>::Ok(()),
    {
        let ghost dv = delta@;
        let ghost fits = chain_wf(old(self).log_v() + dv.commits) && delta_applies(
            old(self).content_v(),
            dv,
        );
        let mut scratch = self.clone_store();
        proof {
            assert(scratch.wf());
        }
        scratch.apply_post_deletion_phase(&delta.deleted_post_slugs);
        scratch.apply_resource_deletion_phase(&delta.deleted_resource_ids);
        let ghost c2 = scratch.content_v();
        proof {
            assert(c2 =~= apply_resource_deletions(
                apply_post_deletions(old(self).content_v(), dv.deleted_post_slugs),
                dv.deleted_resource_ids,
            ));
        }

        // Checked post additions.
        let ghost av = post_bundle_view(delta.added_posts@);
        let mut i: usize = 0;
        proof {
            assert(av.take(0) =~= Seq::<(PostV, Seq<ResourceV>)>::empty());
            reveal_with_fuel(posts_after_additions, 1);
            reveal_with_fuel(bundle_resources, 1);
            reveal_with_fuel(bundle_pairs, 1);
            assert(bundle_resources(av.take(0)) =~= Seq::<ResourceV>::empty());
            assert(bundle_pairs(av.take(0)) =~= Seq::<(Seq<char>, ResourceId)>::empty());
            assert(scratch.resources_v() =~= c2.resources + bundle_resources(av.take(0)));
            assert(scratch.attachments_v() =~= c2.attachments + bundle_pairs(av.take(0)));
        }
        while i < delta.added_posts.len()
            invariant
                i <= delta.added_posts.len(),
                scratch.wf(),
                scratch.posts_v() == posts_after_additions(c2.posts, av.take(i as int)),
                scratch.resources_v() == c2.resources + bundle_resources(av.take(i as int)),
                scratch.attachments_v() == c2.attachments + bundle_pairs(av.take(i as int)),
                scratch.log_v() == old(self).log_v(),
            decreases delta.added_posts.len() - i,
        {
            let pr = &delta.added_posts[i];
            proof {
                assert(av[i as int] == (pr.0@, pr.1.deep_view()));
            }
            if scratch.find_post_index(pr.0.slug.as_str()).is_some() {
                proof {
                    // A fitting delta has no such conflict: its slugs are
                    // fresh on the content the deletions leave.
                    if fits {
                        lemma_post_addition_step(c2, av, i as int, scratch.content_v());
                        assert(scratch.has_post(pr.0@.slug));
                        assert(false);
                    }
                }
                return Err(StorageError::Conflict);
            }
            if scratch.resources_conflict(&pr.1, None) {
                proof {
                    if fits {
                        lemma_post_addition_step(c2, av, i as int, scratch.content_v());
                        lemma_no_resource_conflict(scratch, av[i as int].1);
                        assert(pr.1.deep_view() =~= av[i as int].1);
                        assert(false);
                    }
                }
                return Err(StorageError::Conflict);
            }
            let ghost cpre = scratch.content_v();
            let pos = scratch.insert_post_content(&pr.0, &pr.1);
            proof {
                assert(av[i as int] == (delta.added_posts@[i as int].0@, delta.added_posts@[
                    i as int].1.deep_view()));
                lemma_listing_insert_at(cpre.posts, av[i as int].0, pos as int);
                lemma_posts_after_additions_push(c2.posts, av.take(i as int), av[i as int]);
                lemma_bundle_resources_push(av.take(i as int), av[i as int]);
                lemma_bundle_pairs_push(av.take(i as int), av[i as int]);
                assert(av.take(i + 1) =~= av.take(i as int).push(av[i as int]));
                assert(scratch.resources_v() =~= c2.resources + bundle_resources(av.take(i + 1)));
                assert(scratch.attachments_v() =~= c2.attachments + bundle_pairs(av.take(i + 1)));
            }
            i = i + 1;
        }
        proof {
            assert(av.take(av.len() as int) =~= av);
        }

        // Checked free-standing resource additions.
        let ghost c3r = scratch.resources_v();
        let ghost rv = delta.added_resources.deep_view();
        let mut i: usize = 0;
        proof {
            assert(scratch.resources_v() =~= c3r + rv.take(0));
            assert(c3r == c2.resources + bundle_resources(av));
        }
        while i < delta.added_resources.len()
            invariant
                i <= delta.added_resources.len(),
                scratch.wf(),
                scratch.posts_v() == posts_after_additions(c2.posts, av),
                scratch.resources_v() == c3r + rv.take(i as int),
                scratch.attachments_v() == c2.attachments + bundle_pairs(av),
                scratch.log_v() == old(self).log_v(),
            decreases delta.added_resources.len() - i,
        {
            if scratch.find_resource_index(delta.added_resources[i].id).is_some() {
                proof {
                    // A fitting delta's free-standing identifiers are fresh
                    // and pairwise distinct, so none is found here.
                    if fits {
                        lemma_free_resource_fresh(c2, av, rv, scratch.resources_v(), i as int);
                        assert(seq_has_resource(scratch.resources_v(), rv[i as int].id));
                        assert(false);
                    }
                }
                return Err(StorageError::Conflict);
            }
            scratch.push_free_resource(&delta.added_resources[i]);
            proof {
                assert(rv.take(i + 1) =~= rv.take(i as int).push(rv[i as int]));
                assert(scratch.resources_v() =~= c3r + rv.take(i + 1));
            }
            i = i + 1;
        }
        proof {
            assert(rv.take(rv.len() as int) =~= rv);
        }

        // Checked commit appends: each commit must carry its own digest and
        // chain onto the current tail with a non-decreasing timestamp.
        let ghost log0 = old(self).log_v();
        let ghost cv = delta.commits.deep_view();
        let mut i: usize = 0;
        proof {
            assert(log0 + cv.take(0) =~= log0);
        }
        while i < delta.commits.len()
            invariant
                i <= delta.commits.len(),
                scratch.wf(),
                scratch.posts_v() == posts_after_additions(c2.posts, av),
                scratch.resources_v() == c3r + rv,
                scratch.attachments_v() == c2.attachments + bundle_pairs(av),
                scratch.log_v() == log0 + cv.take(i as int),
                chain_wf(scratch.log_v()),
            decreases delta.commits.len() - i,
        {
            let c = &delta.commits[i];
            proof {
                // A fitting delta's commits already form a well-formed chain
                // with the log: each check below then passes.
                if fits {
                    assert(log0 + cv == old(self).log_v() + dv.commits);
                    lemma_chain_commit_at(log0, cv, i as int);
                    assert(c@ == cv[i as int]);
                    if scratch.log_v().len() == 0 {
                        assert(log0.len() + i == 0);
                    } else {
                        assert(scratch.log_v().last() == (log0 + cv)[log0.len() + i - 1]);
                    }
                }
            }
            if c.timestamp < 0 {
                proof {
                    if fits {
                        assert(false);
                    }
                }
                return Err(StorageError::Conflict);
            }
            let linked: bool = match scratch.log.latest() {
                None => c.prev_commit_id.len() == 0,
                Some(l) => {
                    let ts_ok = c.timestamp >= l.timestamp;
                    ts_ok && bytes_eq(&c.prev_commit_id, &l.id)
                },
            };
            if !linked {
                proof {
                    if fits {
                        assert(false);
                    }
                }
                return Err(StorageError::Conflict);
            }
            let digest = crate::digest::recompute_commit_id(c);
            if !bytes_eq(&digest, &c.id) {
                proof {
                    if fits {
                        assert(false);
                    }
                }
                return Err(StorageError::Conflict);
            }
            proof {
                if scratch.log_v().len() == 0 {
                    assert(c@.prev_commit_id =~= Seq::<u8>::empty());
                }
                assert(commit_wf(c@));
                assert forall|k: int|
                    0 <= k < scratch.log_v().len() implies (
                #[trigger] scratch.log_v()[k]).timestamp <= c@.timestamp by {
                    assert(scratch.log_v()[k].timestamp <= scratch.log_v().last().timestamp);
                }
            }
            let ghost logpre = scratch.log_v();
            scratch.log.append(c.clone());
            proof {
                assert(scratch.log_v() =~= log0 + cv.take(i + 1));
                assert forall|k: int, j: int|
                    0 <= k < j < scratch.log_v().len() implies (
                #[trigger] scratch.log_v()[k]).timestamp <= (
                #[trigger] scratch.log_v()[j]).timestamp by {
                    if j == scratch.log_v().len() - 1 && logpre.len() > 0 {
                        assert(logpre[k].timestamp <= logpre.last().timestamp);
                    }
                }
                assert(chain_wf(scratch.log_v()));
            }
            i = i + 1;
        }
        proof {
            assert(log0 + cv.take(cv.len() as int) =~= log0 + cv);
        }
        *self = scratch;
        proof {
            assert(self.content_v() =~= delta_content_effect(old(self).content_v(), dv));
        }
        Ok(())
    }
}

} // verus!

verus! {

/// Law: in a well-formed store, a commit query from timestamp 0 returns the
/// whole log — after any sequence of mutating calls, that is exactly one
/// commit per call, in order. Along the log the timestamps never decrease,
/// the first commit's parent identifier is the empty byte sequence, every
/// later commit's parent identifier is the identifier of the commit just
/// before it, and every commit's identifier is the digest of its own
/// timestamp, parent identifier and payload.
pub proof fn lemma_commit_chain_integrity(s: MemoryStorage)
    requires
        s.wf(),
    ensures
        commits_since(s.log_v(), 0) == s.log_v(),
        s.log_v().len() > 0 ==> s.log_v()[0].prev_commit_id == Seq::<u8>::empty(),
        forall|i: int|
            0 < i < s.log_v().len() ==> (#[trigger] s.log_v()[i]).prev_commit_id == s.log_v()[
                i - 1].id,
        forall|i: int, j: int|
            0 <= i < j < s.log_v().len() ==> (#[trigger] s.log_v()[i]).timestamp <= (
            #[trigger] s.log_v()[j]).timestamp,
        forall|i: int| 0 <= i < s.log_v().len() ==> commit_wf(#[trigger] s.log_v()[i]),
{
    assert forall|k: int| 0 <= k < s.log_v().len() implies at_least(0)(#[trigger] s.log_v()[k]) by {
        assert(commit_wf(s.log_v()[k]));
    }
    lemma_filter_all(s.log_v(), at_least(0));
}

} // verus!

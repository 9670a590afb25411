//! The synchronizer: bring a destination store into the state of a source
//! store by replaying exactly the commits the destination lacks.
//!
//! The missing commits are folded into a delta — a `CreatePost` later undone
//! by a `DeletePost` of the same slug cancels to nothing, an `UpdatePost`
//! re-fetches the full post, and symmetric rules apply to resources — and
//! the delta is applied to the destination in one step. Divergent histories
//! are refused, never merged.

use vstd::prelude::*;

use crate::models::Commit;
use crate::models::CommitV;
use crate::models::Delta;
use crate::models::PayloadV;
use crate::models::Post;
use crate::models::PostV;
use crate::models::Resource;
use crate::models::ResourceId;
use crate::models::ResourceV;
use crate::store::at_least;
use crate::store::bytes_eq;
use crate::store::commits_since;
use crate::store::same_state;
use crate::store::str_eq;
use crate::store::MemoryStorage;
use crate::store::StorageError;

verus! {

/// Errors during storage synchronization. Errors of the source and of the
/// destination store are told apart, so a caller knows which replica needs
/// attention; a diverged history is reported distinctly, since retrying will
/// not help.
#[derive(Clone, Copy, Debug, PartialEq, Eq, Structural)]
pub enum SynchronizeStorageError {
    /// An error reported by the source store.
    FromStorage(StorageError),
    /// An error reported by the destination store.
    ToStorage(StorageError),
    /// The two stores' commit chains disagree on their shared prefix.
    DivergedHistory,
}

/// The running result of folding a commit window: the slugs and identifiers
/// with a net addition or a net deletion so far. Each sequence holds
/// pairwise distinct entries, in first-insertion order.
#[verifier::ext_equal]
pub struct FoldV {
    pub added_slugs: Seq<Seq<char>>,
    pub deleted_slugs: Seq<Seq<char>>,
    pub added_ids: Seq<ResourceId>,
    pub deleted_ids: Seq<ResourceId>,
}

/// A sequence of slugs extended by one slug, unless it is already there.
pub open spec fn push_unique_slug(s: Seq<Seq<char>>, x: Seq<char>) -> Seq<Seq<char>> {
    if s.contains(x) {
        s
    } else {
        s.push(x)
    }
}

/// A sequence of identifiers extended by one, unless it is already there.
pub open spec fn push_unique_id(s: Seq<ResourceId>, x: ResourceId) -> Seq<ResourceId> {
    if s.contains(x) {
        s
    } else {
        s.push(x)
    }
}

/// Holds of a slug that differs from the given one.
pub open spec fn slug_differs(x: Seq<char>) -> spec_fn(Seq<char>) -> bool {
    |y: Seq<char>| y != x
}

/// Holds of an identifier that differs from the given one.
pub open spec fn id_differs(x: ResourceId) -> spec_fn(ResourceId) -> bool {
    |y: ResourceId| y != x
}

/// One step of the fold: how one commit payload changes the net additions
/// and deletions of the window.
///
/// A creation enters the added set. A deletion cancels a pending addition if
/// there is one, and otherwise enters the deleted set. An update re-fetches
/// the full post on replay: the slug enters the added set, and also the
/// deleted set unless the post was created within the window itself.
pub open spec fn fold_step(f: FoldV, p: PayloadV) -> FoldV {
    match p {
        PayloadV::CreatePost { slug } => FoldV {
            added_slugs: push_unique_slug(f.added_slugs, slug),
            ..f
        },
        PayloadV::UpdatePost { slug } => FoldV {
            added_slugs: push_unique_slug(f.added_slugs, slug),
            deleted_slugs: if f.added_slugs.contains(slug) {
                f.deleted_slugs
            } else {
                push_unique_slug(f.deleted_slugs, slug)
            },
            ..f
        },
        PayloadV::DeletePost { slug } => FoldV {
            added_slugs: f.added_slugs.filter(slug_differs(slug)),
            deleted_slugs: if f.added_slugs.contains(slug) {
                f.deleted_slugs
            } else {
                push_unique_slug(f.deleted_slugs, slug)
            },
            ..f
        },
        PayloadV::CreateResource { id } => FoldV {
            added_ids: push_unique_id(f.added_ids, id),
            ..f
        },
        PayloadV::DeleteResource { id } => FoldV {
            added_ids: f.added_ids.filter(id_differs(id)),
            deleted_ids: if f.added_ids.contains(id) {
                f.deleted_ids
            } else {
                push_unique_id(f.deleted_ids, id)
            },
            ..f
        },
    }
}

/// The empty fold result.
pub open spec fn fold_empty() -> FoldV {
    FoldV {
        added_slugs: Seq::<Seq<char>>::empty(),
        deleted_slugs: Seq::<Seq<char>>::empty(),
        added_ids: Seq::<ResourceId>::empty(),
        deleted_ids: Seq::<ResourceId>::empty(),
    }
}

/// The payloads of a commit window, in order.
pub open spec fn payloads_of(cs: Seq<CommitV>) -> Seq<PayloadV> {
    cs.map_values(|c: CommitV| c.payload)
}

/// The net additions and deletions of a window of commit payloads.
pub open spec fn fold_payloads(ps: Seq<PayloadV>) -> FoldV
    decreases ps.len(),
{
    if ps.len() == 0 {
        fold_empty()
    } else {
        fold_step(fold_payloads(ps.drop_last()), ps.last())
    }
}

/// The net changes of a commit window, as plain vectors.
pub struct SyncPlan {
    /// Slugs of posts to fetch in full from the source.
    pub added_post_slugs: Vec<String>,
    /// Slugs of posts to delete at the destination.
    pub deleted_post_slugs: Vec<String>,
    /// Identifiers of resources to fetch in full from the source.
    pub added_resource_ids: Vec<ResourceId>,
    /// Identifiers of resources to delete at the destination.
    pub deleted_resource_ids: Vec<ResourceId>,
}

impl SyncPlan {
    /// The mathematical value of the plan.
    pub open spec fn view_v(self) -> FoldV {
        FoldV {
            added_slugs: self.added_post_slugs.deep_view(),
            deleted_slugs: self.deleted_post_slugs.deep_view(),
            added_ids: self.added_resource_ids@,
            deleted_ids: self.deleted_resource_ids@,
        }
    }
}

fn contains_slug(v: &Vec<String>, slug: &str) -> (r: bool)
    ensures
        r == v.deep_view().contains(slug@),
{
    let mut i: usize = 0;
    while i < v.len()
        invariant
            i <= v.len(),
            forall|k: int| 0 <= k < i ==> (#[trigger] v.deep_view()[k]) != slug@,
        decreases v.len() - i,
    {
        if str_eq(v[i].as_str(), slug) {
            proof {
                assert(v.deep_view()[i as int] == slug@);
            }
            return true;
        }
        i = i + 1;
    }
    proof {
        if v.deep_view().contains(slug@) {
            let k = choose|k: int|
                0 <= k < v.deep_view().len() && (#[trigger] v.deep_view()[k]) == slug@;
        }
    }
    false
}

fn contains_id(v: &Vec<ResourceId>, id: ResourceId) -> (r: bool)
    ensures
        r == v@.contains(id),
{
    let mut i: usize = 0;
    while i < v.len()
        invariant
            i <= v.len(),
            forall|k: int| 0 <= k < i ==> v@[k] != id,
        decreases v.len() - i,
    {
        if v[i] == id {
            return true;
        }
        i = i + 1;
    }
    false
}

fn remove_slug(v: &mut Vec<String>, slug: &str)
    ensures
        final(v).deep_view() == old(v).deep_view().filter(slug_differs(slug@)),
{
    let ghost v0 = old(v).deep_view();
    let mut kept: Vec<String> = Vec::new();
    let mut i: usize = 0;
    proof {
        reveal(Seq::filter);
        assert(kept.deep_view() =~= v0.take(0).filter(slug_differs(slug@)));
    }
    while i < v.len()
        invariant
            i <= v.len(),
            v.deep_view() == v0,
            kept.deep_view() == v0.take(i as int).filter(slug_differs(slug@)),
        decreases v.len() - i,
    {
        let ghost prev = kept.deep_view();
        if !str_eq(v[i].as_str(), slug) {
            kept.push(v[i].clone());
            proof {
                assert(kept.deep_view() =~= prev.push(v0[i as int]));
            }
        }
        proof {
            crate::store::lemma_filter_take_step(v0, slug_differs(slug@), i as int);
        }
        i = i + 1;
    }
    proof {
        assert(v0.take(v0.len() as int) =~= v0);
    }
    *v = kept;
}

fn remove_id(v: &mut Vec<ResourceId>, id: ResourceId)
    ensures
        final(v)@ == old(v)@.filter(id_differs(id)),
{
    let ghost v0 = old(v)@;
    let mut kept: Vec<ResourceId> = Vec::new();
    let mut i: usize = 0;
    proof {
        reveal(Seq::filter);
        assert(kept@ =~= v0.take(0).filter(id_differs(id)));
    }
    while i < v.len()
        invariant
            i <= v.len(),
            v@ == v0,
            kept@ == v0.take(i as int).filter(id_differs(id)),
        decreases v.len() - i,
    {
        let ghost prev = kept@;
        if v[i] != id {
            kept.push(v[i]);
            proof {
                assert(kept@ =~= prev.push(v0[i as int]));
            }
        }
        proof {
            crate::store::lemma_filter_take_step(v0, id_differs(id), i as int);
        }
        i = i + 1;
    }
    proof {
        assert(v0.take(v0.len() as int) =~= v0);
    }
    *v = kept;
}

/// Fold a commit window into its net additions and deletions.
#[verifier::loop_isolation(false)]
#[verifier::rlimit(100)]
pub fn fold_commits(commits: &Vec<Commit>) -> (r: SyncPlan)
    ensures
        r.view_v() == fold_payloads(payloads_of(commits.deep_view())),
{
    let ghost ps = payloads_of(commits.deep_view());
    let mut plan = SyncPlan {
        added_post_slugs: Vec::new(),
        deleted_post_slugs: Vec::new(),
        added_resource_ids: Vec::new(),
        deleted_resource_ids: Vec::new(),
    };
    let mut i: usize = 0;
    proof {
        assert(plan.view_v() =~= fold_payloads(ps.take(0)));
    }
    while i < commits.len()
        invariant
            i <= commits.len(),
            plan.view_v() == fold_payloads(ps.take(i as int)),
        decreases commits.len() - i,
    {
        let ghost prev = plan.view_v();
        match &commits[i].payload {
            crate::models::CommitPayload::CreatePost(p) => {
                if !contains_slug(&plan.added_post_slugs, p.slug.as_str()) {
                    plan.added_post_slugs.push(p.slug.clone());
                    proof {
                        assert(plan.added_post_slugs.deep_view() =~= prev.added_slugs.push(
                            p.slug@,
                        ));
                    }
                }
            },
            crate::models::CommitPayload::UpdatePost(p) => {
                if !contains_slug(&plan.added_post_slugs, p.slug.as_str()) {
                    if !contains_slug(&plan.deleted_post_slugs, p.slug.as_str()) {
                        plan.deleted_post_slugs.push(p.slug.clone());
                        proof {
                            assert(plan.deleted_post_slugs.deep_view()
                                =~= prev.deleted_slugs.push(p.slug@));
                        }
                    }
                    plan.added_post_slugs.push(p.slug.clone());
                    proof {
                        assert(plan.added_post_slugs.deep_view() =~= prev.added_slugs.push(
                            p.slug@,
                        ));
                    }
                }
            },
            crate::models::CommitPayload::DeletePost(p) => {
                if contains_slug(&plan.added_post_slugs, p.slug.as_str()) {
                    remove_slug(&mut plan.added_post_slugs, p.slug.as_str());
                } else {
                    proof {
                        crate::store::lemma_filter_all(prev.added_slugs, slug_differs(p.slug@));
                    }
                    remove_slug(&mut plan.added_post_slugs, p.slug.as_str());
                    if !contains_slug(&plan.deleted_post_slugs, p.slug.as_str()) {
                        plan.deleted_post_slugs.push(p.slug.clone());
                        proof {
                            assert(plan.deleted_post_slugs.deep_view()
                                =~= prev.deleted_slugs.push(p.slug@));
                        }
                    }
                }
            },
            crate::models::CommitPayload::CreateResource(p) => {
                if !contains_id(&plan.added_resource_ids, p.id) {
                    plan.added_resource_ids.push(p.id);
                }
            },
            crate::models::CommitPayload::DeleteResource(p) => {
                if contains_id(&plan.added_resource_ids, p.id) {
                    remove_id(&mut plan.added_resource_ids, p.id);
                } else {
                    proof {
                        crate::store::lemma_filter_all(prev.added_ids, id_differs(p.id));
                    }
                    remove_id(&mut plan.added_resource_ids, p.id);
                    if !contains_id(&plan.deleted_resource_ids, p.id) {
                        plan.deleted_resource_ids.push(p.id);
                    }
                }
            },
        }
        proof {
            assert(ps[i as int] == commits.deep_view()[i as int].payload);
            assert(plan.view_v() =~= fold_step(prev, ps[i as int]));
            assert(ps.take(i + 1).drop_last() =~= ps.take(i as int));
            assert(ps.take(i + 1).last() == ps[i as int]);
            assert(plan.view_v() =~= fold_payloads(ps.take(i + 1)));
        }
        i = i + 1;
    }
    proof {
        assert(ps.take(ps.len() as int) =~= ps);
    }
    plan
}

} // verus!

verus! {

/// The timestamp from which the destination needs commits: that of its
/// chain tail, or 0 if its log is empty.
pub open spec fn dest_since_timestamp(to: MemoryStorage) -> i64 {
    if to.log_v().len() == 0 {
        0
    } else {
        to.log_v().last().timestamp
    }
}

/// Every source commit from the destination's tail timestamp on, tail
/// included.
pub open spec fn source_window_all(from: MemoryStorage, to: MemoryStorage) -> Seq<CommitV> {
    commits_since(from.log_v(), dest_since_timestamp(to))
}

/// The two stores' histories have diverged: the source returns nothing
/// although the destination has commits, or the first commit the source
/// returns is not the destination's tail.
pub open spec fn diverged(from: MemoryStorage, to: MemoryStorage) -> bool {
    let w = source_window_all(from, to);
    ||| (w.len() == 0 && to.log_v().len() > 0)
    ||| (w.len() > 0 && to.log_v().len() > 0 && w[0].id != to.log_v().last().id)
}

/// The commits the destination lacks: the source window, with the
/// already-known tail commit dropped when the destination is not empty.
pub open spec fn sync_window(from: MemoryStorage, to: MemoryStorage) -> Seq<CommitV> {
    if to.log_v().len() == 0 {
        source_window_all(from, to)
    } else {
        source_window_all(from, to).drop_first()
    }
}

/// The full post-and-resources bundles stored at the source under the given
/// slugs; slugs with no stored post are passed over.
pub open spec fn fetch_bundles(src: MemoryStorage, slugs: Seq<Seq<char>>) -> Seq<
    (PostV, Seq<ResourceV>),
>
    decreases slugs.len(),
{
    if slugs.len() == 0 {
        Seq::<(PostV, Seq<ResourceV>)>::empty()
    } else {
        (if src.has_post(slugs[0]) {
            seq![(src.post_with(slugs[0]), src.attached(slugs[0]))]
        } else {
            Seq::<(PostV, Seq<ResourceV>)>::empty()
        }) + fetch_bundles(src, slugs.drop_first())
    }
}

/// The resources stored at the source under the given identifiers;
/// identifiers with no stored resource are passed over.
pub open spec fn fetch_resources(src: MemoryStorage, ids: Seq<ResourceId>) -> Seq<ResourceV>
    decreases ids.len(),
{
    if ids.len() == 0 {
        Seq::<ResourceV>::empty()
    } else {
        (if src.has_resource(ids[0]) {
            seq![src.resource_with(ids[0])]
        } else {
            Seq::<ResourceV>::empty()
        }) + fetch_resources(src, ids.drop_first())
    }
}

/// Fetching one more slug extends the bundles by at most one entry.
pub proof fn lemma_fetch_bundles_push(src: MemoryStorage, slugs: Seq<Seq<char>>, x: Seq<char>)
    ensures
        fetch_bundles(src, slugs.push(x)) == fetch_bundles(src, slugs) + (if src.has_post(x) {
            seq![(src.post_with(x), src.attached(x))]
        } else {
            Seq::<(PostV, Seq<ResourceV>)>::empty()
        }),
    decreases slugs.len(),
{
    reveal_with_fuel(fetch_bundles, 3);
    if slugs.len() == 0 {
        assert(slugs.push(x).drop_first() =~= Seq::<Seq<char>>::empty());
        assert(fetch_bundles(src, slugs.push(x)) =~= fetch_bundles(src, slugs) + (
        if src.has_post(x) {
            seq![(src.post_with(x), src.attached(x))]
        } else {
            Seq::<(PostV, Seq<ResourceV>)>::empty()
        }));
    } else {
        assert(slugs.push(x)[0] == slugs[0]);
        assert(slugs.push(x).drop_first() =~= slugs.drop_first().push(x));
        lemma_fetch_bundles_push(src, slugs.drop_first(), x);
        assert(fetch_bundles(src, slugs.push(x)) =~= fetch_bundles(src, slugs) + (
        if src.has_post(x) {
            seq![(src.post_with(x), src.attached(x))]
        } else {
            Seq::<(PostV, Seq<ResourceV>)>::empty()
        }));
    }
}

/// Fetching one more identifier extends the resources by at most one entry.
pub proof fn lemma_fetch_resources_push(src: MemoryStorage, ids: Seq<ResourceId>, x: ResourceId)
    ensures
        fetch_resources(src, ids.push(x)) == fetch_resources(src, ids) + (if src.has_resource(x) {
            seq![src.resource_with(x)]
        } else {
            Seq::<ResourceV>::empty()
        }),
    decreases ids.len(),
{
    reveal_with_fuel(fetch_resources, 3);
    if ids.len() == 0 {
        assert(ids.push(x).drop_first() =~= Seq::<ResourceId>::empty());
        assert(fetch_resources(src, ids.push(x)) =~= fetch_resources(src, ids) + (
        if src.has_resource(x) {
            seq![src.resource_with(x)]
        } else {
            Seq::<ResourceV>::empty()
        }));
    } else {
        assert(ids.push(x)[0] == ids[0]);
        assert(ids.push(x).drop_first() =~= ids.drop_first().push(x));
        lemma_fetch_resources_push(src, ids.drop_first(), x);
        assert(fetch_resources(src, ids.push(x)) =~= fetch_resources(src, ids) + (
        if src.has_resource(x) {
            seq![src.resource_with(x)]
        } else {
            Seq::<ResourceV>::empty()
        }));
    }
}

/// The delta that synchronization computes from a source and a destination
/// store whose histories have not diverged: the destination's missing
/// commits, folded into net changes, with the surviving additions fetched in
/// full from the source.
pub open spec fn computed_delta(from: MemoryStorage, to: MemoryStorage) -> crate::models::DeltaV {
    let w = sync_window(from, to);
    let f = fold_payloads(payloads_of(w));
    crate::models::DeltaV {
        added_posts: fetch_bundles(from, f.added_slugs),
        deleted_post_slugs: f.deleted_slugs,
        added_resources: fetch_resources(from, f.added_ids),
        deleted_resource_ids: f.deleted_ids,
        commits: w,
    }
}

/// Compute the delta required to synchronize data in `storage_from` to
/// `storage_to`.
///
/// Returns `DivergedHistory`, and that exactly when the destination's chain
/// is not a visible prefix of what the source returns; otherwise the delta
/// holds the destination's missing commits and their net content changes.
#[verifier::loop_isolation(false)]
#[verifier::rlimit(100)]
pub fn get_delta(storage_from: &MemoryStorage, storage_to: &MemoryStorage) -> (r: Result<
    Delta,
    SynchronizeStorageError,
>)
    requires
        storage_from.wf(),
        storage_to.wf(),
    ensures
        diverged(*storage_from, *storage_to) <==> r == Result::<
            Delta,
            SynchronizeStorageError,
        >::Err(SynchronizeStorageError::DivergedHistory),
        match r {
            Result::Ok(d) => d@ == computed_delta(*storage_from, *storage_to),
            Result::Err(e) => e == SynchronizeStorageError::DivergedHistory,
        },
{
    let to_latest = storage_to.get_latest_commit();
    let t: i64 = match &to_latest {
        None => 0,
        Some(c) => c.timestamp,
    };
    let mut from_commits = storage_from.get_commits_since(t);
    proof {
        assert(from_commits.deep_view() == source_window_all(*storage_from, *storage_to));
    }
    if from_commits.len() == 0 {
        match &to_latest {
            None => {
                let delta = Delta::new();
                proof {
                    reveal_with_fuel(fold_payloads, 1);
                    reveal_with_fuel(fetch_bundles, 1);
                    reveal_with_fuel(fetch_resources, 1);
                    assert(sync_window(*storage_from, *storage_to) =~= Seq::<CommitV>::empty());
                    assert(payloads_of(sync_window(*storage_from, *storage_to)) =~= Seq::<
                        PayloadV,
                    >::empty());
                    assert(delta@ =~= computed_delta(*storage_from, *storage_to));
                }
                return Ok(delta);
            },
            Some(_) => {
                return Err(SynchronizeStorageError::DivergedHistory);
            },
        }
    } else {
        match &to_latest {
            Some(l) => {
                if !bytes_eq(&l.id, &from_commits[0].id) {
                    return Err(SynchronizeStorageError::DivergedHistory);
                }
                let ghost pre = from_commits.deep_view();
                from_commits.remove(0);
                proof {
                    assert(from_commits.deep_view() =~= pre.drop_first());
                }
            },
            None => {},
        }
    }
    proof {
        assert(from_commits.deep_view() == sync_window(*storage_from, *storage_to));
    }
    let ghost window = from_commits.deep_view();
    let plan = fold_commits(&from_commits);
    let ghost f = fold_payloads(payloads_of(window));

    // Fetch the surviving additions in full from the source.
    let mut added_posts: Vec<(Post, Vec<Resource>)> = Vec::new();
    let mut i: usize = 0;
    proof {
        assert(plan.view_v().added_slugs.take(0) =~= Seq::<Seq<char>>::empty());
        reveal_with_fuel(fetch_bundles, 1);
        assert(crate::models::post_bundle_view(added_posts@) =~= fetch_bundles(
            *storage_from,
            plan.view_v().added_slugs.take(0),
        ));
    }
    while i < plan.added_post_slugs.len()
        invariant
            i <= plan.added_post_slugs.len(),
            crate::models::post_bundle_view(added_posts@) == fetch_bundles(
                *storage_from,
                plan.view_v().added_slugs.take(i as int),
            ),
        decreases plan.added_post_slugs.len() - i,
    {
        let ghost prev = crate::models::post_bundle_view(added_posts@);
        let ghost slugv = plan.view_v().added_slugs[i as int];
        match storage_from.get_post_with_resources(plan.added_post_slugs[i].as_str()) {
            Some(pr) => {
                added_posts.push(pr);
                proof {
                    assert(crate::models::post_bundle_view(added_posts@) =~= prev.push(
                        (storage_from.post_with(slugv), storage_from.attached(slugv)),
                    ));
                }
            },
            None => {},
        }
        proof {
            lemma_fetch_bundles_push(
                *storage_from,
                plan.view_v().added_slugs.take(i as int),
                slugv,
            );
            assert(plan.view_v().added_slugs.take(i + 1) =~= plan.view_v().added_slugs.take(
                i as int,
            ).push(slugv));
            assert(crate::models::post_bundle_view(added_posts@) =~= fetch_bundles(
                *storage_from,
                plan.view_v().added_slugs.take(i + 1),
            ));
        }
        i = i + 1;
    }
    proof {
        assert(plan.view_v().added_slugs.take(plan.view_v().added_slugs.len() as int)
            =~= plan.view_v().added_slugs);
    }

    let mut added_resources: Vec<Resource> = Vec::new();
    let mut i: usize = 0;
    proof {
        assert(plan.view_v().added_ids.take(0) =~= Seq::<ResourceId>::empty());
        reveal_with_fuel(fetch_resources, 1);
        assert(added_resources.deep_view() =~= fetch_resources(
            *storage_from,
            plan.view_v().added_ids.take(0),
        ));
    }
    while i < plan.added_resource_ids.len()
        invariant
            i <= plan.added_resource_ids.len(),
            added_resources.deep_view() == fetch_resources(
                *storage_from,
                plan.view_v().added_ids.take(i as int),
            ),
        decreases plan.added_resource_ids.len() - i,
    {
        let ghost prev = added_resources.deep_view();
        let ghost idv = plan.view_v().added_ids[i as int];
        match storage_from.get_resource(plan.added_resource_ids[i]) {
            Some(res) => {
                added_resources.push(res);
                proof {
                    assert(added_resources.deep_view() =~= prev.push(
                        storage_from.resource_with(idv),
                    ));
                }
            },
            None => {},
        }
        proof {
            lemma_fetch_resources_push(
                *storage_from,
                plan.view_v().added_ids.take(i as int),
                idv,
            );
            assert(plan.view_v().added_ids.take(i + 1) =~= plan.view_v().added_ids.take(
                i as int,
            ).push(idv));
            assert(added_resources.deep_view() =~= fetch_resources(
                *storage_from,
                plan.view_v().added_ids.take(i + 1),
            ));
        }
        i = i + 1;
    }
    proof {
        assert(plan.view_v().added_ids.take(plan.view_v().added_ids.len() as int)
            =~= plan.view_v().added_ids);
    }

    let delta = Delta {
        added_posts,
        deleted_post_slugs: plan.deleted_post_slugs,
        added_resources,
        deleted_resource_ids: plan.deleted_resource_ids,
        commits: from_commits,
    };
    proof {
        assert(delta@ =~= computed_delta(*storage_from, *storage_to));
    }
    Ok(delta)
}

/// Synchronize data in `storage_from` to `storage_to`: compute the delta the
/// destination lacks and apply it there in one step.
///
/// Divergent histories are refused with `DivergedHistory`, and that exactly
/// when the stores have diverged; on any error the destination is left
/// untouched. On success the destination carries the source's missing
/// commits and the delta's net content changes. Success is owed whenever the
/// histories have not diverged and the computed delta fits the destination:
/// its commits chain onto the destination's log and its additions go through
/// on the content its deletions leave.
pub fn synchronize_storage(storage_from: &MemoryStorage, storage_to: &mut MemoryStorage) -> (r:
    Result<(), SynchronizeStorageError>)
    requires
        storage_from.wf(),
        old(storage_to).wf(),
    ensures
        final(storage_to).wf(),
        r is Err ==> same_state(*final(storage_to), *old(storage_to)),
        diverged(*storage_from, *old(storage_to)) <==> r == Result::<
            (),
            SynchronizeStorageError,
        >::Err(SynchronizeStorageError::DivergedHistory),
        match r {
            Result::Ok(u) => final(storage_to).content_v() == crate::store::delta_content_effect(
                old(storage_to).content_v(),
                computed_delta(*storage_from, *old(storage_to)),
            ) && final(storage_to).log_v() == old(storage_to).log_v() + computed_delta(
                *storage_from,
                *old(storage_to),
            ).commits,
            Result::Err(e) => e == SynchronizeStorageError::DivergedHistory || e
                == SynchronizeStorageError::ToStorage(StorageError::Conflict),
        },
        !diverged(*storage_from, *old(storage_to)) && crate::store::chain_wf(
            old(storage_to).log_v() + computed_delta(*storage_from, *old(storage_to)).commits,
        ) && crate::store::delta_applies(
            old(storage_to).content_v(),
            computed_delta(*storage_from, *old(storage_to)),
        ) ==> r == Result::<(), SynchronizeStorageError>::Ok(()),
{
    let delta = match get_delta(storage_from, storage_to) {
        Ok(d) => d,
        Err(e) => {
            return Err(e);
        },
    };
    match storage_to.try_apply_delta(&delta) {
        Ok(u) => Ok(u),
        Err(e) => Err(SynchronizeStorageError::ToStorage(e)),
    }
}

} // verus!

verus! {

/// Whether a commit payload is a post operation on the given slug.
pub open spec fn touches_post(p: PayloadV, x: Seq<char>) -> bool {
    match p {
        PayloadV::CreatePost { slug } => slug == x,
        PayloadV::UpdatePost { slug } => slug == x,
        PayloadV::DeletePost { slug } => slug == x,
        PayloadV::CreateResource { .. } => false,
        PayloadV::DeleteResource { .. } => false,
    }
}

/// A payload that does not operate on a slug leaves that slug's membership
/// in the folded added and deleted sets alone.
proof fn lemma_fold_step_other(f: FoldV, p: PayloadV, x: Seq<char>)
    requires
        !touches_post(p, x),
    ensures
        fold_step(f, p).added_slugs.contains(x) == f.added_slugs.contains(x),
        fold_step(f, p).deleted_slugs.contains(x) == f.deleted_slugs.contains(x),
{
    let f1 = fold_step(f, p);
    match p {
        PayloadV::CreatePost { slug } => {
            lemma_push_unique_other(f.added_slugs, slug, x);
        },
        PayloadV::UpdatePost { slug } => {
            lemma_push_unique_other(f.added_slugs, slug, x);
            if !f.added_slugs.contains(slug) {
                lemma_push_unique_other(f.deleted_slugs, slug, x);
            }
        },
        PayloadV::DeletePost { slug } => {
            lemma_filter_other(f.added_slugs, slug, x);
            if !f.added_slugs.contains(slug) {
                lemma_push_unique_other(f.deleted_slugs, slug, x);
            }
        },
        PayloadV::CreateResource { .. } => {},
        PayloadV::DeleteResource { .. } => {},
    }
}

/// Extending a slug set by one other slug does not change membership.
proof fn lemma_push_unique_other(s: Seq<Seq<char>>, y: Seq<char>, x: Seq<char>)
    requires
        y != x,
    ensures
        push_unique_slug(s, y).contains(x) == s.contains(x),
{
    if !s.contains(y) {
        let s1 = s.push(y);
        if s1.contains(x) {
            let k = choose|k: int| 0 <= k < s1.len() && s1[k] == x;
            assert(k < s.len() && s[k] == x);
        }
        if s.contains(x) {
            let k = choose|k: int| 0 <= k < s.len() && s[k] == x;
            assert(s1[k] == x);
        }
    }
}

/// Removing one other slug from a slug set does not change membership.
proof fn lemma_filter_other(s: Seq<Seq<char>>, y: Seq<char>, x: Seq<char>)
    requires
        y != x,
    ensures
        s.filter(slug_differs(y)).contains(x) == s.contains(x),
{
    let s1 = s.filter(slug_differs(y));
    if s1.contains(x) {
        s.lemma_filter_contains_rev(slug_differs(y), x);
    }
    if s.contains(x) {
        let k = choose|k: int| 0 <= k < s.len() && s[k] == x;
        assert(slug_differs(y)(s[k]));
        s.lemma_filter_contains(slug_differs(y), k);
    }
}

/// A window with no operation on a slug folds to no addition and no
/// deletion for it.
proof fn lemma_fold_untouched(ps: Seq<PayloadV>, x: Seq<char>)
    requires
        forall|k: int| 0 <= k < ps.len() ==> !touches_post(#[trigger] ps[k], x),
    ensures
        !fold_payloads(ps).added_slugs.contains(x),
        !fold_payloads(ps).deleted_slugs.contains(x),
    decreases ps.len(),
{
    if ps.len() == 0 {
        assert(!fold_empty().added_slugs.contains(x));
        assert(!fold_empty().deleted_slugs.contains(x));
    } else {
        lemma_fold_untouched(ps.drop_last(), x);
        lemma_fold_step_other(fold_payloads(ps.drop_last()), ps.last(), x);
    }
}

/// A window whose only operation on a slug is one `CreatePost` folds to an
/// addition and no deletion for it.
proof fn lemma_fold_created(ps: Seq<PayloadV>, x: Seq<char>, wi: int)
    requires
        0 <= wi < ps.len(),
        ps[wi] == (PayloadV::CreatePost { slug: x }),
        forall|k: int| 0 <= k < ps.len() && k != wi ==> !touches_post(#[trigger] ps[k], x),
    ensures
        fold_payloads(ps).added_slugs.contains(x),
        !fold_payloads(ps).deleted_slugs.contains(x),
    decreases ps.len(),
{
    let fprev = fold_payloads(ps.drop_last());
    if wi == ps.len() - 1 {
        assert forall|k: int| 0 <= k < ps.drop_last().len() implies !touches_post(
            #[trigger] ps.drop_last()[k],
            x,
        ) by {
            assert(ps.drop_last()[k] == ps[k]);
        }
        lemma_fold_untouched(ps.drop_last(), x);
        // The creation enters the added set.
        let s1 = push_unique_slug(fprev.added_slugs, x);
        assert(s1[s1.len() - 1] == x);
        assert(s1.contains(x));
    } else {
        assert forall|k: int|
            0 <= k < ps.drop_last().len() && k != wi implies !touches_post(
            #[trigger] ps.drop_last()[k],
            x,
        ) by {
            assert(ps.drop_last()[k] == ps[k]);
        }
        assert(ps.drop_last()[wi] == ps[wi]);
        lemma_fold_created(ps.drop_last(), x, wi);
        assert(!touches_post(ps.last(), x));
        lemma_fold_step_other(fprev, ps.last(), x);
    }
}

/// Law: create-then-delete folding. A window that holds a `CreatePost` for a
/// slug, later a `DeletePost` for the same slug, and no other operation on
/// that slug, folds to no net addition and no net deletion for it — the
/// post was transient relative to the window. The window's commits are
/// still carried in the delta whole: the synchronizer's delta always lists
/// every commit of the window.
pub proof fn lemma_create_then_delete_folds_away(ps: Seq<PayloadV>, x: Seq<char>, ci: int, di: int)
    requires
        0 <= ci < di < ps.len(),
        ps[ci] == (PayloadV::CreatePost { slug: x }),
        ps[di] == (PayloadV::DeletePost { slug: x }),
        forall|k: int|
            0 <= k < ps.len() && k != ci && k != di ==> !touches_post(#[trigger] ps[k], x),
    ensures
        !fold_payloads(ps).added_slugs.contains(x),
        !fold_payloads(ps).deleted_slugs.contains(x),
    decreases ps.len(),
{
    let fprev = fold_payloads(ps.drop_last());
    if di == ps.len() - 1 {
        assert forall|k: int|
            0 <= k < ps.drop_last().len() && k != ci implies !touches_post(
            #[trigger] ps.drop_last()[k],
            x,
        ) by {
            assert(ps.drop_last()[k] == ps[k]);
        }
        assert(ps.drop_last()[ci] == ps[ci]);
        lemma_fold_created(ps.drop_last(), x, ci);
        // The deletion cancels the pending addition.
        let s1 = fprev.added_slugs.filter(slug_differs(x));
        if s1.contains(x) {
            let k = choose|k: int| 0 <= k < s1.len() && s1[k] == x;
            fprev.added_slugs.lemma_filter_pred(slug_differs(x), k);
        }
    } else {
        assert forall|k: int|
            0 <= k < ps.drop_last().len() && k != ci && k != di implies !touches_post(
            #[trigger] ps.drop_last()[k],
            x,
        ) by {
            assert(ps.drop_last()[k] == ps[k]);
        }
        assert(ps.drop_last()[ci] == ps[ci]);
        assert(ps.drop_last()[di] == ps[di]);
        lemma_create_then_delete_folds_away(ps.drop_last(), x, ci, di);
        assert(!touches_post(ps.last(), x));
        lemma_fold_step_other(fprev, ps.last(), x);
    }
}

} // verus!

verus! {

/// A filter that rejects a prefix and accepts the rest returns exactly the
/// rest.
proof fn lemma_filter_is_suffix<A>(s: Seq<A>, p: spec_fn(A) -> bool, m: int)
    requires
        0 <= m <= s.len(),
        forall|k: int| 0 <= k < m ==> !p(#[trigger] s[k]),
        forall|k: int| m <= k < s.len() ==> p(#[trigger] s[k]),
    ensures
        s.filter(p) == s.skip(m),
    decreases s.len(),
{
    reveal(Seq::filter);
    if s.len() == 0 {
        assert(s.filter(p) =~= s.skip(m));
    } else if m <= s.len() - 1 {
        lemma_filter_is_suffix(s.drop_last(), p, m);
        assert(s.drop_last().skip(m).push(s.last()) =~= s.skip(m));
        assert(s.filter(p) =~= s.skip(m));
    } else {
        lemma_filter_is_suffix(s.drop_last(), p, m - 1);
        assert(s.drop_last().skip(m - 1) =~= Seq::<A>::empty());
        assert(s.filter(p) =~= s.skip(m));
    }
}

/// Law: synchronization convergence of the commit chain. When the
/// destination's log is a prefix of the source's — it is either empty or
/// holds exactly the source's first commits — and the source's timestamps
/// are strictly increasing, the synchronizer does not report divergence,
/// and the window it replays is exactly the source's missing suffix: the
/// destination's log followed by the window is the source's full log, a
/// well-formed chain, and the delta carries that window whole. So by what
/// `synchronize_storage` ensures, the call is owed success whenever the
/// delta's content additions also go through on the destination, and on
/// success the destination's log equals the source's.
pub proof fn lemma_sync_window_completes_prefix(src: MemoryStorage, dst: MemoryStorage, k: int)
    requires
        src.wf(),
        dst.wf(),
        forall|i: int, j: int|
            0 <= i < j < src.log_v().len() ==> (#[trigger] src.log_v()[i]).timestamp < (
            #[trigger] src.log_v()[j]).timestamp,
        0 <= k <= src.log_v().len(),
        dst.log_v() == src.log_v().take(k),
    ensures
        !diverged(src, dst),
        sync_window(src, dst) == src.log_v().skip(k),
        dst.log_v() + sync_window(src, dst) == src.log_v(),
        computed_delta(src, dst).commits == src.log_v().skip(k),
        crate::store::chain_wf(dst.log_v() + computed_delta(src, dst).commits),
{
    let log = src.log_v();
    let t = dest_since_timestamp(dst);
    if k == 0 {
        assert forall|i: int| 0 <= i < log.len() implies at_least(t)(#[trigger] log[i]) by {
            assert(crate::digest::commit_wf(log[i]));
        }
        lemma_filter_is_suffix(log, at_least(t), 0);
        assert(dst.log_v() + sync_window(src, dst) =~= log);
    } else {
        assert(dst.log_v().last() == log[k - 1]);
        assert(t == log[k - 1].timestamp);
        assert forall|i: int| 0 <= i < k - 1 implies !at_least(t)(#[trigger] log[i]) by {
            assert(log[i].timestamp < log[k - 1].timestamp);
        }
        assert forall|i: int| k - 1 <= i < log.len() implies at_least(t)(#[trigger] log[i]) by {
            if i > k - 1 {
                assert(log[k - 1].timestamp < log[i].timestamp);
            }
        }
        lemma_filter_is_suffix(log, at_least(t), k - 1);
        let w = source_window_all(src, dst);
        assert(w == log.skip(k - 1));
        assert(w.len() > 0);
        assert(w[0] == log[k - 1]);
        assert(w.drop_first() =~= log.skip(k));
        assert(dst.log_v() + sync_window(src, dst) =~= log);
    }
}

} // verus!

use ublog::digest::recompute_commit_id;
use ublog::models::Commit;
use ublog::models::CommitPayload;
use ublog::models::CreatePostCommitPayload;
use ublog::models::Post;
use ublog::models::Resource;
use ublog::pagination::Pagination;
use ublog::store::CommitLog;
use ublog::store::MemoryStorage;
use ublog::sync::fold_commits;
use ublog::sync::synchronize_storage;
use ublog::sync::SynchronizeStorageError;

fn make_post(slug: &str, create_timestamp: i64) -> Post {
    Post {
        title: String::from("title"),
        slug: String::from(slug),
        author: String::from("msr"),
        create_timestamp,
        update_timestamp: create_timestamp,
        category: String::from("category"),
        tags: Vec::new(),
        content: vec![1, 2, 3],
    }
}

fn make_commit(id: Vec<u8>, timestamp: i64, prev_commit_id: Vec<u8>, slug: &str) -> Commit {
    Commit {
        id,
        timestamp,
        prev_commit_id,
        payload: CommitPayload::CreatePost(CreatePostCommitPayload {
            slug: String::from(slug),
        }),
    }
}

#[test]
fn test_insert_commit_basic() {
    let mut log = CommitLog::new();
    let commit = make_commit(Vec::new(), 100, Vec::new(), "slug");
    log.append(commit);
    assert_eq!(log.len(), 1);
}

#[test]
fn test_select_commit_basic() {
    let mut log = CommitLog::new();

    log.append(make_commit(vec![1, 2], 100, Vec::new(), "slug"));
    log.append(make_commit(vec![3, 4], 200, vec![1, 2], "slug"));
    log.append(make_commit(vec![5, 6], 300, vec![3, 4], "slug"));

    let commits = log.since(200);
    assert_eq!(commits.len(), 2);

    assert_eq!(commits[0].id, vec![3, 4]);
    assert_eq!(commits[0].timestamp, 200);
    assert_eq!(commits[0].prev_commit_id, vec![1, 2]);

    assert_eq!(commits[1].id, vec![5, 6]);
    assert_eq!(commits[1].timestamp, 300);
    assert_eq!(commits[1].prev_commit_id, vec![3, 4]);
}

// After a sequence of mutating calls, the log holds exactly one commit per
// call, in order, with the chain rooted in the empty identifier and each
// commit naming its predecessor.
#[test]
fn test_commit_chain_integrity() {
    let mut store = MemoryStorage::new();

    store.insert_post(&make_post("a", 10), &Vec::new(), 10).unwrap();
    store.insert_post(&make_post("b", 20), &Vec::new(), 20).unwrap();
    store.delete_post("a", 30).unwrap();
    store
        .insert_resource(
            &Resource {
                id: 9,
                name: String::from("res"),
                ty: String::from("text/plain"),
                data: vec![1],
            },
            40,
        )
        .unwrap();

    let commits = store.get_commits_since(0);
    assert_eq!(commits.len(), 4);
    assert_eq!(commits[0].prev_commit_id, Vec::<u8>::new());
    for i in 1..commits.len() {
        assert_eq!(commits[i].prev_commit_id, commits[i - 1].id);
        assert!(commits[i - 1].timestamp <= commits[i].timestamp);
    }
}

// Recomputing a commit's digest from its stored timestamp, parent id and
// payload reproduces its stored id, and the id is a 32-byte digest.
#[test]
fn test_commit_digest_recomputes() {
    let mut store = MemoryStorage::new();
    store.insert_post(&make_post("a", 10), &Vec::new(), 10).unwrap();

    let latest = store.get_latest_commit().unwrap();
    assert_eq!(latest.id.len(), 32);
    let recomputed = recompute_commit_id(&latest);
    assert_eq!(recomputed, latest.id);
}

// Synchronization convergence: an empty destination catches up with the
// source's content and full commit log.
#[test]
fn test_synchronize_into_empty_store() {
    let mut src = MemoryStorage::new();
    src.insert_post(&make_post("a", 10), &Vec::new(), 10).unwrap();
    src.insert_post(&make_post("b", 20), &Vec::new(), 20).unwrap();
    src.delete_post("a", 30).unwrap();

    let mut dst = MemoryStorage::new();
    synchronize_storage(&src, &mut dst).unwrap();

    assert!(dst.get_post("a").is_none());
    let b = dst.get_post("b").unwrap();
    assert_eq!(b.title, "title");
    assert_eq!(b.create_timestamp, 20);

    let src_commits = src.get_commits_since(0);
    let dst_commits = dst.get_commits_since(0);
    assert_eq!(src_commits.len(), 3);
    assert_eq!(dst_commits.len(), 3);
    for i in 0..3 {
        assert_eq!(src_commits[i].id, dst_commits[i].id);
        assert_eq!(src_commits[i].timestamp, dst_commits[i].timestamp);
        assert_eq!(src_commits[i].prev_commit_id, dst_commits[i].prev_commit_id);
    }
}

// Synchronization convergence from a shared prefix: the destination already
// holds the first commits and receives only the rest.
#[test]
fn test_synchronize_from_shared_prefix() {
    let mut src = MemoryStorage::new();
    src.insert_post(&make_post("a", 10), &Vec::new(), 10).unwrap();

    let mut dst = MemoryStorage::new();
    synchronize_storage(&src, &mut dst).unwrap();

    src.insert_post(&make_post("b", 20), &Vec::new(), 20).unwrap();
    src.insert_resource(
        &Resource {
            id: 5,
            name: String::from("res"),
            ty: String::from("text/plain"),
            data: vec![7],
        },
        30,
    )
    .unwrap();

    synchronize_storage(&src, &mut dst).unwrap();

    assert!(dst.get_post("a").is_some());
    assert!(dst.get_post("b").is_some());
    assert!(dst.get_resource(5).is_some());
    assert_eq!(dst.get_commits_since(0).len(), 3);
    assert_eq!(
        dst.get_latest_commit().unwrap().id,
        src.get_latest_commit().unwrap().id
    );
}

// An update made at the source is replayed at the destination as a full
// replace.
#[test]
fn test_synchronize_replays_update() {
    let mut src = MemoryStorage::new();
    src.insert_post(&make_post("a", 10), &Vec::new(), 10).unwrap();

    let mut dst = MemoryStorage::new();
    synchronize_storage(&src, &mut dst).unwrap();

    let mut updated = make_post("a", 10);
    updated.title = String::from("renamed");
    src.update_post(&updated, &Vec::new(), 20).unwrap();

    synchronize_storage(&src, &mut dst).unwrap();

    assert_eq!(dst.get_post("a").unwrap().title, "renamed");
    assert_eq!(dst.get_commits_since(0).len(), 2);
}

// Synchronization divergence: a destination with commits the source does
// not know is refused, and is not mutated.
#[test]
fn test_synchronize_diverged_history() {
    let src = MemoryStorage::new();
    let mut dst = MemoryStorage::new();
    dst.insert_post(&make_post("a", 10), &Vec::new(), 10).unwrap();

    let err = synchronize_storage(&src, &mut dst).unwrap_err();
    assert_eq!(err, SynchronizeStorageError::DivergedHistory);
    assert!(dst.get_post("a").is_some());
    assert_eq!(dst.get_commits_since(0).len(), 1);
}

#[test]
fn test_synchronize_diverged_tail() {
    let mut src = MemoryStorage::new();
    src.insert_post(&make_post("a", 10), &Vec::new(), 10).unwrap();

    // The destination's chain tail is not what the source returns first.
    let mut dst = MemoryStorage::new();
    dst.insert_post(&make_post("z", 10), &Vec::new(), 10).unwrap();

    let err = synchronize_storage(&src, &mut dst).unwrap_err();
    assert_eq!(err, SynchronizeStorageError::DivergedHistory);
    assert!(dst.get_post("z").is_some());
    assert!(dst.get_post("a").is_none());
}

// Pagination: for page_size 5, page 2 of 12 posts returns the posts ranked
// 6 to 10 by descending creation timestamp, and page 3 the last two.
#[test]
fn test_pagination_pages() {
    let mut store = MemoryStorage::new();
    for i in 0..12i64 {
        let slug = format!("p{:02}", i);
        let post = Post {
            title: String::from("title"),
            slug,
            author: String::from("msr"),
            create_timestamp: 100 - i,
            update_timestamp: 100 - i,
            category: String::from("category"),
            tags: Vec::new(),
            content: Vec::new(),
        };
        store.insert_post(&post, &Vec::new(), i + 1).unwrap();
    }

    let page2 = store.get_posts(&Pagination::from_page_and_size(2, 5));
    assert_eq!(page2.total_count, 12);
    let slugs2: Vec<String> = page2.objects.iter().map(|p| p.slug.clone()).collect();
    assert_eq!(slugs2, vec!["p05", "p06", "p07", "p08", "p09"]);

    let page3 = store.get_posts(&Pagination::from_page_and_size(3, 5));
    let slugs3: Vec<String> = page3.objects.iter().map(|p| p.slug.clone()).collect();
    assert_eq!(slugs3, vec!["p10", "p11"]);
}

// Create-then-delete folding: a window holding CreatePost(x) followed later
// by DeletePost(x) folds to no net addition or deletion for x, while both
// commits are still carried in the delta's commit list.
#[test]
fn test_create_then_delete_folds_away() {
    let mut src = MemoryStorage::new();
    src.insert_post(&make_post("keep", 10), &Vec::new(), 10).unwrap();

    let mut dst = MemoryStorage::new();
    synchronize_storage(&src, &mut dst).unwrap();

    src.insert_post(&make_post("x", 20), &Vec::new(), 20).unwrap();
    src.delete_post("x", 30).unwrap();

    let window = src.get_commits_since(dst.get_latest_commit().unwrap().timestamp);
    let plan = fold_commits(&window[1..].to_vec());
    assert!(plan.added_post_slugs.is_empty());
    assert!(plan.deleted_post_slugs.is_empty());

    let delta = ublog::sync::get_delta(&src, &dst).unwrap();
    assert_eq!(delta.added_posts.len(), 0);
    assert_eq!(delta.deleted_post_slugs.len(), 0);
    assert_eq!(delta.commits.len(), 2);

    synchronize_storage(&src, &mut dst).unwrap();
    assert!(dst.get_post("x").is_none());
    assert_eq!(dst.get_commits_since(0).len(), 3);
}

// A delta applied to a store that does not match it is refused and leaves
// the store untouched.
#[test]
fn test_try_apply_delta_rejects_bad_chain() {
    let mut store = MemoryStorage::new();
    store.insert_post(&make_post("a", 10), &Vec::new(), 10).unwrap();

    let mut delta = ublog::models::Delta::new();
    delta.commits.push(make_commit(vec![1], 20, vec![9, 9], "b"));

    let err = store.try_apply_delta(&delta).unwrap_err();
    assert_eq!(err, ublog::store::StorageError::Conflict);
    assert_eq!(store.get_commits_since(0).len(), 1);
}

#[test]
fn test_append_payload_commits_chains_batch() {
    let mut store = MemoryStorage::new();
    let payloads = vec![
        CommitPayload::create_post(String::from("a")),
        CommitPayload::update_post(String::from("a")),
        CommitPayload::delete_post(String::from("a")),
    ];
    store.append_payload_commits(payloads, 5);

    let commits = store.get_commits_since(0);
    assert_eq!(commits.len(), 3);
    assert!(commits[0].prev_commit_id.is_empty());
    assert_eq!(commits[1].prev_commit_id, commits[0].id);
    assert_eq!(commits[2].prev_commit_id, commits[1].id);
    assert!(matches!(commits[0].payload, CommitPayload::CreatePost(_)));
    assert!(matches!(commits[1].payload, CommitPayload::UpdatePost(_)));
    assert!(matches!(commits[2].payload, CommitPayload::DeletePost(_)));
    for commit in &commits {
        assert_eq!(commit.timestamp, 5);
        assert_eq!(recompute_commit_id(commit), commit.id);
    }
}

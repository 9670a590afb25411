//! Data model of the content store: posts, resources, commits and deltas.

use vstd::prelude::*;

verus! {

/// Identifier of a free-standing resource.
///
/// Resources are addressed by a process-wide unique 128-bit identifier.
pub type ResourceId = u128;

/// A blog post.
///
/// A post is identified by its slug, which is unique within a store. The
/// content payload is an opaque serialized document, treated as a binary blob
/// by the store.
#[derive(Debug)]
pub struct Post {
    /// The post's title.
    pub title: String,

    /// The post's slug.
    pub slug: String,

    /// The post's author.
    pub author: String,

    /// Unix timestamp of the post's creation time, in UTC time zone.
    pub create_timestamp: i64,

    /// Unix timestamp of the post's last update time, in UTC time zone.
    pub update_timestamp: i64,

    /// The post's category.
    pub category: String,

    /// The post's tags.
    pub tags: Vec<String>,

    /// Serialized content of the post.
    pub content: Vec<u8>,
}

/// The mathematical value of a [`Post`].
#[verifier::ext_equal]
pub struct PostV {
    pub title: Seq<char>,
    pub slug: Seq<char>,
    pub author: Seq<char>,
    pub create_timestamp: i64,
    pub update_timestamp: i64,
    pub category: Seq<char>,
    pub tags: Seq<Seq<char>>,
    pub content: Seq<u8>,
}

impl View for Post {
    type V = PostV;

    open spec fn view(&self) -> PostV {
        PostV {
            title: self.title@,
            slug: self.slug@,
            author: self.author@,
            create_timestamp: self.create_timestamp,
            update_timestamp: self.update_timestamp,
            category: self.category@,
            tags: self.tags.deep_view(),
            content: self.content@,
        }
    }
}

impl DeepView for Post {
    type V = PostV;

    open spec fn deep_view(&self) -> PostV {
        self.view()
    }
}

impl Clone for Post {
    fn clone(&self) -> (r: Self)
        ensures
            r@ == self@,
    {
        let r = Post {
            title: self.title.clone(),
            slug: self.slug.clone(),
            author: self.author.clone(),
            create_timestamp: self.create_timestamp,
            update_timestamp: self.update_timestamp,
            category: self.category.clone(),
            tags: self.tags.clone(),
            content: self.content.clone(),
        };
        proof {
            assert(r.tags.deep_view() =~= self.tags.deep_view());
            assert(r.content@ =~= self.content@);
            assert(r@ =~= self@);
        }
        r
    }
}

/// A static resource: a binary object with a MIME type.
#[derive(Debug)]
pub struct Resource {
    /// Identifier of the resource.
    pub id: ResourceId,

    /// Name of the resource.
    pub name: String,

    /// The MIME type of the resource.
    pub ty: String,

    /// Raw data of the resource.
    pub data: Vec<u8>,
}

/// The mathematical value of a [`Resource`].
#[verifier::ext_equal]
pub struct ResourceV {
    pub id: ResourceId,
    pub name: Seq<char>,
    pub ty: Seq<char>,
    pub data: Seq<u8>,
}

impl View for Resource {
    type V = ResourceV;

    open spec fn view(&self) -> ResourceV {
        ResourceV { id: self.id, name: self.name@, ty: self.ty@, data: self.data@ }
    }
}

impl DeepView for Resource {
    type V = ResourceV;

    open spec fn deep_view(&self) -> ResourceV {
        self.view()
    }
}

impl Clone for Resource {
    fn clone(&self) -> (r: Self)
        ensures
            r@ == self@,
    {
        let r = Resource {
            id: self.id,
            name: self.name.clone(),
            ty: self.ty.clone(),
            data: self.data.clone(),
        };
        proof {
            assert(r.data@ =~= self.data@);
            assert(r@ =~= self@);
        }
        r
    }
}

/// Payload of a `CreatePost` commit.
#[derive(Debug)]
pub struct CreatePostCommitPayload {
    /// Slug of the created post.
    pub slug: String,
}

/// Payload of an `UpdatePost` commit.
#[derive(Debug)]
pub struct UpdatePostCommitPayload {
    /// Slug of the updated post.
    pub slug: String,
}

/// Payload of a `DeletePost` commit.
#[derive(Debug)]
pub struct DeletePostCommitPayload {
    /// Slug of the deleted post.
    pub slug: String,
}

/// Payload of a `CreateResource` commit.
#[derive(Debug)]
pub struct CreateResourceCommitPayload {
    /// Identifier of the created resource.
    pub id: ResourceId,
}

/// Payload of a `DeleteResource` commit.
#[derive(Debug)]
pub struct DeleteResourceCommitPayload {
    /// Identifier of the deleted resource.
    pub id: ResourceId,
}

/// Payload of a commit: a description of one logical change.
///
/// The set of payload kinds is closed; a commit never references stored state,
/// it only records that the mutation happened.
#[derive(Debug)]
pub enum CommitPayload {
    CreatePost(CreatePostCommitPayload),
    UpdatePost(UpdatePostCommitPayload),
    DeletePost(DeletePostCommitPayload),
    CreateResource(CreateResourceCommitPayload),
    DeleteResource(DeleteResourceCommitPayload),
}

/// The mathematical value of a [`CommitPayload`].
#[verifier::ext_equal]
pub enum PayloadV {
    CreatePost { slug: Seq<char> },
    UpdatePost { slug: Seq<char> },
    DeletePost { slug: Seq<char> },
    CreateResource { id: ResourceId },
    DeleteResource { id: ResourceId },
}

impl View for CommitPayload {
    type V = PayloadV;

    open spec fn view(&self) -> PayloadV {
        match self {
            CommitPayload::CreatePost(p) => PayloadV::CreatePost { slug: p.slug@ },
            CommitPayload::UpdatePost(p) => PayloadV::UpdatePost { slug: p.slug@ },
            CommitPayload::DeletePost(p) => PayloadV::DeletePost { slug: p.slug@ },
            CommitPayload::CreateResource(p) => PayloadV::CreateResource { id: p.id },
            CommitPayload::DeleteResource(p) => PayloadV::DeleteResource { id: p.id },
        }
    }
}

impl DeepView for CommitPayload {
    type V = PayloadV;

    open spec fn deep_view(&self) -> PayloadV {
        self.view()
    }
}

impl CommitPayload {
    /// Create a new `CreatePost` commit payload.
    pub fn create_post(slug: String) -> (r: Self)
        ensures
            r@ == (PayloadV::CreatePost { slug: slug@ }),
    {
        Self::CreatePost(CreatePostCommitPayload { slug })
    }

    /// Create a new `UpdatePost` commit payload.
    pub fn update_post(slug: String) -> (r: Self)
        ensures
            r@ == (PayloadV::UpdatePost { slug: slug@ }),
    {
        Self::UpdatePost(UpdatePostCommitPayload { slug })
    }

    /// Create a new `DeletePost` commit payload.
    pub fn delete_post(slug: String) -> (r: Self)
        ensures
            r@ == (PayloadV::DeletePost { slug: slug@ }),
    {
        Self::DeletePost(DeletePostCommitPayload { slug })
    }

    /// Create a new `CreateResource` commit payload.
    pub fn create_resource(id: ResourceId) -> (r: Self)
        ensures
            r@ == (PayloadV::CreateResource { id }),
    {
        Self::CreateResource(CreateResourceCommitPayload { id })
    }

    /// Create a new `DeleteResource` commit payload.
    pub fn delete_resource(id: ResourceId) -> (r: Self)
        ensures
            r@ == (PayloadV::DeleteResource { id }),
    {
        Self::DeleteResource(DeleteResourceCommitPayload { id })
    }
}

impl Clone for CommitPayload {
    fn clone(&self) -> (r: Self)
        ensures
            r@ == self@,
    {
        match self {
            CommitPayload::CreatePost(p) => CommitPayload::CreatePost(
                CreatePostCommitPayload { slug: p.slug.clone() },
            ),
            CommitPayload::UpdatePost(p) => CommitPayload::UpdatePost(
                UpdatePostCommitPayload { slug: p.slug.clone() },
            ),
            CommitPayload::DeletePost(p) => CommitPayload::DeletePost(
                DeletePostCommitPayload { slug: p.slug.clone() },
            ),
            CommitPayload::CreateResource(p) => CommitPayload::CreateResource(
                CreateResourceCommitPayload { id: p.id },
            ),
            CommitPayload::DeleteResource(p) => CommitPayload::DeleteResource(
                DeleteResourceCommitPayload { id: p.id },
            ),
        }
    }
}

/// A commit object: an immutable record of one logical change.
///
/// A commit's id is the SHA-256 digest of the commit's metadata and payload;
/// commits form a singly linked chain through `prev_commit_id`.
#[derive(Debug)]
pub struct Commit {
    /// ID of the commit: the digest of the commit's metadata and payload.
    pub id: Vec<u8>,

    /// The creation timestamp of the commit.
    pub timestamp: i64,

    /// The previous commit ID; empty for the chain root.
    pub prev_commit_id: Vec<u8>,

    /// The commit's payload.
    pub payload: CommitPayload,
}

/// The mathematical value of a [`Commit`].
#[verifier::ext_equal]
pub struct CommitV {
    pub id: Seq<u8>,
    pub timestamp: i64,
    pub prev_commit_id: Seq<u8>,
    pub payload: PayloadV,
}

impl View for Commit {
    type V = CommitV;

    open spec fn view(&self) -> CommitV {
        CommitV {
            id: self.id@,
            timestamp: self.timestamp,
            prev_commit_id: self.prev_commit_id@,
            payload: self.payload@,
        }
    }
}

impl DeepView for Commit {
    type V = CommitV;

    open spec fn deep_view(&self) -> CommitV {
        self.view()
    }
}

impl Clone for Commit {
    fn clone(&self) -> (r: Self)
        ensures
            r@ == self@,
    {
        let r = Commit {
            id: self.id.clone(),
            timestamp: self.timestamp,
            prev_commit_id: self.prev_commit_id.clone(),
            payload: self.payload.clone(),
        };
        proof {
            assert(r.id@ =~= self.id@);
            assert(r.prev_commit_id@ =~= self.prev_commit_id@);
            assert(r@ =~= self@);
        }
        r
    }
}

/// A transient aggregate that transports replication state between two
/// stores: the content to add and delete, and the commits that produced it.
#[derive(Debug)]
pub struct Delta {
    /// Posts to insert, each with its attached resources.
    pub added_posts: Vec<(Post, Vec<Resource>)>,

    /// Slugs of posts to delete.
    pub deleted_post_slugs: Vec<String>,

    /// Free-standing resources to insert.
    pub added_resources: Vec<Resource>,

    /// Identifiers of resources to delete.
    pub deleted_resource_ids: Vec<ResourceId>,

    /// All commits of the synchronization window, in order.
    pub commits: Vec<Commit>,
}

/// The mathematical value of a [`Delta`].
#[verifier::ext_equal]
pub struct DeltaV {
    pub added_posts: Seq<(PostV, Seq<ResourceV>)>,
    pub deleted_post_slugs: Seq<Seq<char>>,
    pub added_resources: Seq<ResourceV>,
    pub deleted_resource_ids: Seq<ResourceId>,
    pub commits: Seq<CommitV>,
}

/// The mathematical value of a batch of posts, each with its attached
/// resources.
pub open spec fn post_bundle_view(prs: Seq<(Post, Vec<Resource>)>) -> Seq<(PostV, Seq<ResourceV>)> {
    prs.map_values(|pr: (Post, Vec<Resource>)| (pr.0@, pr.1.deep_view()))
}

impl View for Delta {
    type V = DeltaV;

    open spec fn view(&self) -> DeltaV {
        DeltaV {
            added_posts: post_bundle_view(self.added_posts@),
            deleted_post_slugs: self.deleted_post_slugs.deep_view(),
            added_resources: self.added_resources.deep_view(),
            deleted_resource_ids: self.deleted_resource_ids@,
            commits: self.commits.deep_view(),
        }
    }
}

impl Delta {
    /// Create a new, empty `Delta`.
    pub fn new() -> (r: Self)
        ensures
            r@.added_posts.len() == 0,
            r@.deleted_post_slugs.len() == 0,
            r@.added_resources.len() == 0,
            r@.deleted_resource_ids.len() == 0,
            r@.commits.len() == 0,
    {
        Delta {
            added_posts: Vec::new(),
            deleted_post_slugs: Vec::new(),
            added_resources: Vec::new(),
            deleted_resource_ids: Vec::new(),
            commits: Vec::new(),
        }
    }
}

} // verus!

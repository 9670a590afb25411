use ublog::models::Post;
use ublog::models::Resource;
use ublog::pagination::Pagination;
use ublog::store::MemoryStorage;
use ublog::store::StorageError;

fn make_post(slug: &str, create_timestamp: i64, update_timestamp: i64, tags: Vec<String>) -> Post {
    Post {
        title: String::from("title"),
        slug: String::from(slug),
        author: String::from("msr"),
        create_timestamp,
        update_timestamp,
        category: String::from("category"),
        tags,
        content: Vec::new(),
    }
}

#[test]
fn test_insert_post_basic() {
    let mut store = MemoryStorage::new();

    let post = make_post("slug", 0, 0, Vec::new());
    store.insert_post(&post, &Vec::new(), 1).unwrap();
}

#[test]
fn test_insert_post_conflict_slug() {
    let mut store = MemoryStorage::new();

    let post = make_post("slug", 0, 0, Vec::new());
    store.insert_post(&post, &Vec::new(), 1).unwrap();

    let insert_err = store.insert_post(&post, &Vec::new(), 2).unwrap_err();
    assert_eq!(insert_err, StorageError::Conflict);
}

#[test]
fn test_insert_post_tags() {
    let mut store = MemoryStorage::new();

    let post = make_post(
        "slug",
        0,
        0,
        vec![String::from("tag1"), String::from("tag2")],
    );
    store.insert_post(&post, &Vec::new(), 1).unwrap();

    let selected = store.get_post("slug").unwrap();
    assert_eq!(selected.tags, vec![String::from("tag1"), String::from("tag2")]);
}

#[test]
fn test_select_one_post_basic() {
    let mut store = MemoryStorage::new();

    let post = make_post(
        "slug",
        0,
        0,
        vec![String::from("tag1"), String::from("tag2")],
    );
    store.insert_post(&post, &Vec::new(), 1).unwrap();

    let selected_post = store.get_post("slug").unwrap();
    assert_eq!(post.title, selected_post.title);
    assert_eq!(post.slug, selected_post.slug);
    assert_eq!(post.author, selected_post.author);
    assert_eq!(post.create_timestamp, selected_post.create_timestamp);
    assert_eq!(post.update_timestamp, selected_post.update_timestamp);
    assert_eq!(post.category, selected_post.category);
    assert_eq!(post.tags, selected_post.tags);
    assert_eq!(post.content, selected_post.content);
}

#[test]
fn test_select_one_post_not_exist() {
    let store = MemoryStorage::new();

    let selected_post = store.get_post("slug");
    assert!(selected_post.is_none());
}

#[test]
fn test_select_many_basic() {
    let mut store = MemoryStorage::new();

    let post1 = make_post(
        "slug1",
        30,
        30,
        vec![String::from("tag1"), String::from("tag2")],
    );
    store.insert_post(&post1, &Vec::new(), 1).unwrap();

    let post2 = make_post(
        "slug2",
        20,
        20,
        vec![String::from("tag1"), String::from("tag2")],
    );
    store.insert_post(&post2, &Vec::new(), 2).unwrap();

    let post3 = make_post(
        "slug3",
        10,
        10,
        vec![String::from("tag1"), String::from("tag2")],
    );
    store.insert_post(&post3, &Vec::new(), 3).unwrap();

    let selected_posts = store.get_posts(&Pagination::from_page_and_size(2, 1));
    assert_eq!(selected_posts.objects.len(), 1);
    assert_eq!(selected_posts.total_count, 3);

    let selected_post = &selected_posts.objects[0];
    assert_eq!(post2.title, selected_post.title);
    assert_eq!(post2.slug, selected_post.slug);
    assert_eq!(post2.author, selected_post.author);
    assert_eq!(post2.create_timestamp, selected_post.create_timestamp);
    assert_eq!(post2.update_timestamp, selected_post.update_timestamp);
    assert_eq!(post2.category, selected_post.category);
    assert_eq!(post2.tags, selected_post.tags);
}

#[test]
fn test_update_basic() {
    let mut store = MemoryStorage::new();

    let post = make_post(
        "slug",
        30,
        30,
        vec![String::from("tag1"), String::from("tag2")],
    );
    store.insert_post(&post, &Vec::new(), 1).unwrap();

    let mut update_post = make_post(
        "slug",
        30,
        30,
        vec![String::from("tag1"), String::from("tag3")],
    );
    update_post.title = String::from("title2");
    update_post.author = String::from("msr2");
    update_post.category = String::from("category2");
    store.update_post(&update_post, &Vec::new(), 2).unwrap();

    let selected_post = store.get_post("slug").unwrap();
    assert_eq!(selected_post.title, "title2");
    assert_eq!(selected_post.author, "msr2");
    assert_eq!(selected_post.category, "category2");
    assert_eq!(
        selected_post.tags,
        vec![String::from("tag1"), String::from("tag3")]
    );
}

#[test]
fn test_update_not_exist() {
    let mut store = MemoryStorage::new();

    let post = make_post("slug", 30, 30, Vec::new());
    let update_err = store.update_post(&post, &Vec::new(), 1).unwrap_err();
    assert_eq!(update_err, StorageError::NotFound);
}

#[test]
fn test_delete_basic() {
    let mut store = MemoryStorage::new();

    let post = make_post("slug", 0, 0, Vec::new());
    store.insert_post(&post, &Vec::new(), 1).unwrap();

    store.delete_post("slug", 2).unwrap();

    let selected_post = store.get_post("slug");
    assert!(selected_post.is_none());
}

#[test]
fn test_delete_not_exist() {
    let mut store = MemoryStorage::new();
    store.delete_post("slug", 1).unwrap();
}

#[test]
fn test_delete_cascades_to_attached_resources() {
    let mut store = MemoryStorage::new();

    let post = make_post("slug", 0, 0, Vec::new());
    let res = Resource {
        id: 7,
        name: String::from("res"),
        ty: String::from("text/html"),
        data: vec![0, 1, 2, 3],
    };
    store.insert_post(&post, &vec![res], 1).unwrap();
    assert!(store.get_resource(7).is_some());

    store.delete_post("slug", 2).unwrap();

    assert!(store.get_post("slug").is_none());
    assert!(store.get_resource(7).is_none());
}

#[test]
fn test_insert_resource_basic() {
    let mut store = MemoryStorage::new();

    let res = Resource {
        id: 1,
        name: String::from("res"),
        ty: String::from("text/html"),
        data: vec![0, 1, 2, 3],
    };
    store.insert_resource(&res, 1).unwrap();
}

#[test]
fn test_insert_resource_name_conflict() {
    let mut store = MemoryStorage::new();

    let res = Resource {
        id: 1,
        name: String::from("res1"),
        ty: String::from("text/html"),
        data: vec![0, 1, 2, 3],
    };
    store.insert_resource(&res, 1).unwrap();

    let res = Resource {
        id: 1,
        name: String::from("res2"),
        ty: String::from("text/css"),
        data: vec![1, 2, 3, 4],
    };
    let insert_err = store.insert_resource(&res, 2).unwrap_err();
    assert_eq!(insert_err, StorageError::Conflict);
}

#[test]
fn test_select_basic() {
    let mut store = MemoryStorage::new();

    let res = Resource {
        id: 1,
        name: String::from("res"),
        ty: String::from("text/html"),
        data: vec![0, 1, 2, 3],
    };
    store.insert_resource(&res, 1).unwrap();

    let selected_res = store.get_resource(1).unwrap();
    assert_eq!(res.id, selected_res.id);
    assert_eq!(res.name, selected_res.name);
    assert_eq!(res.ty, selected_res.ty);
    assert_eq!(res.data, selected_res.data);
}

#[test]
fn test_select_not_exist() {
    let store = MemoryStorage::new();

    let selected_res = store.get_resource(1);
    assert!(selected_res.is_none());
}

#[test]
fn test_resource_delete_basic() {
    let mut store = MemoryStorage::new();

    let res = Resource {
        id: 1,
        name: String::from("res"),
        ty: String::from("text/html"),
        data: vec![0, 1, 2, 3],
    };
    store.insert_resource(&res, 1).unwrap();

    store.delete_resource(1, 2).unwrap();

    let selected_res = store.get_resource(1);
    assert!(selected_res.is_none());
}

#[test]
fn test_resource_delete_not_exist() {
    let mut store = MemoryStorage::new();
    store.delete_resource(1, 1).unwrap();
}

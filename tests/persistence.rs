use sealed_posts::cipher::{decrypt_data, FieldError};
use sealed_posts::records::{decode_posts, encode_posts, Post};
use sealed_posts::store::{create_post, get_posts, AppState, NewPost, PostError, PostStore};

fn post(id: usize, user: &str, content: &str, media: Option<&str>) -> Post {
    Post {
        id,
        user: user.to_string(),
        content: content.to_string(),
        media: media.map(|m| m.to_string()),
        iv: format!("iv-{}", id),
        media_iv: media.map(|_| format!("media-iv-{}", id)),
    }
}

fn new_post(user: &str, content: &str) -> NewPost {
    NewPost {
        user: user.to_string(),
        content: content.to_string(),
        media: None,
        iv: "client-iv".to_string(),
        media_iv: None,
    }
}

fn same(a: &Post, b: &Post) -> bool {
    a.id == b.id
        && a.user == b.user
        && a.content == b.content
        && a.media == b.media
        && a.iv == b.iv
        && a.media_iv == b.media_iv
}

#[test]
fn record_round_trip_with_attachment() {
    let posts = vec![post(1, "bob", "ünïcode body", Some("/static/uploads/x.png"))];
    let stored = encode_posts(&posts, "pw").unwrap();
    assert_eq!(stored.len(), 1);
    assert_eq!(stored[0].id, 1);
    assert_eq!(stored[0].iv, "iv-1");
    assert_eq!(stored[0].media_iv.as_deref(), Some("media-iv-1"));
    assert_ne!(stored[0].user, "bob");
    assert_ne!(stored[0].media.as_deref(), Some("/static/uploads/x.png"));
    let loaded = decode_posts(Some(stored), "pw").unwrap();
    assert_eq!(loaded.len(), 1);
    assert!(same(&loaded[0], &posts[0]));
}

#[test]
fn records_keep_their_order() {
    let posts = vec![post(1, "a", "first", None), post(2, "", "", None)];
    let stored = encode_posts(&posts, "pw").unwrap();
    assert!(stored.iter().all(|p| p.media.is_none()));
    let loaded = decode_posts(Some(stored), "pw").unwrap();
    assert_eq!(loaded.len(), 2);
    assert!(same(&loaded[0], &posts[0]));
    assert!(same(&loaded[1], &posts[1]));
}

#[test]
fn empty_collection_round_trips() {
    let stored = encode_posts(&Vec::new(), "pw").unwrap();
    assert!(stored.is_empty());
    assert!(decode_posts(Some(stored), "pw").unwrap().is_empty());
}

#[test]
fn missing_storage_loads_empty() {
    assert!(decode_posts(None, "pw").unwrap().is_empty());
}

#[test]
fn corrupted_record_aborts_the_load() {
    let mut stored = encode_posts(&vec![post(1, "a", "b", None)], "pw").unwrap();
    stored[0].content = "not a field".to_string();
    assert_eq!(decode_posts(Some(stored), "pw").unwrap_err(), FieldError::MalformedField);
}

#[test]
fn scenario_restart_with_same_password() {
    let state = AppState::new("correct-horse");
    let mut store = PostStore::new();
    let (created, stored) = create_post(new_post("alice", "hello"), &mut store, &state).unwrap();
    assert_eq!(created.id, 1);
    let loaded = decode_posts(Some(stored), "correct-horse").unwrap();
    let restarted = PostStore::from_posts(loaded);
    let listed = get_posts(&restarted);
    assert_eq!(listed.len(), 1);
    assert_eq!(listed[0].id, 1);
    assert_eq!(listed[0].user, "alice");
    assert_eq!(listed[0].content, "hello");
    assert_eq!(listed[0].media, None);
}

#[test]
fn scenario_restart_with_wrong_password() {
    let state = AppState::new("correct-horse");
    let mut store = PostStore::new();
    let (_, stored) = create_post(new_post("alice", "hello"), &mut store, &state).unwrap();
    assert!(decrypt_data(&stored[0].user, "correct-horse").is_ok());
    let loaded = decode_posts(Some(stored), "wrong-password");
    assert_eq!(loaded.unwrap_err(), FieldError::AuthenticationFailure);
}

#[test]
fn scenario_author_too_long() {
    let state = AppState::new("pw");
    let mut store = PostStore::new();
    let r = create_post(new_post(&"x".repeat(21), "body"), &mut store, &state);
    assert_eq!(r.unwrap_err(), PostError::AuthorTooLong);
    assert_eq!(store.len(), 0);
    assert!(get_posts(&store).is_empty());
}

#[test]
fn author_limit_counts_characters() {
    let state = AppState::new("pw");
    let mut store = PostStore::new();
    let name = "é".repeat(20);
    let (created, stored) = create_post(new_post(&name, "b"), &mut store, &state).unwrap();
    assert_eq!(created.user, name);
    assert_eq!(stored.len(), 1);
    assert_eq!(store.len(), 1);
    let r = create_post(new_post(&"é".repeat(21), "b"), &mut store, &state);
    assert_eq!(r.unwrap_err(), PostError::AuthorTooLong);
    assert_eq!(store.len(), 1);
}

#[test]
fn ids_are_sequential() {
    let state = AppState::new("pw");
    let mut store = PostStore::new();
    let (first, _) = create_post(new_post("a", "1"), &mut store, &state).unwrap();
    let (second, stored) = create_post(new_post("b", "2"), &mut store, &state).unwrap();
    assert_eq!(first.id, 1);
    assert_eq!(second.id, 2);
    assert_eq!(stored.len(), 2);
    assert_eq!(stored[0].id, 1);
    assert_eq!(stored[1].id, 2);
    let listed = get_posts(&store);
    assert_eq!(listed.len(), 2);
    assert_eq!(listed[1].user, "b");
    assert_eq!(listed[1].iv, "client-iv");
}

#[test]
fn app_state_keeps_the_password() {
    assert_eq!(AppState::new("correct-horse").password, "correct-horse");
}

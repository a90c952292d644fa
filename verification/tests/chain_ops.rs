use post_chain::ops::{create_post, delete_latest_post, delete_post, init_blog, signup_user,
    update_post};
use post_chain::records::{BlogError, EventLabel, PostChain, PostEvent, PostState, UserState};

const ADMIN: u64 = 7;
const AUTHOR: u64 = 9;
const USER_KEY: u64 = 100;

fn author() -> UserState {
    signup_user("ada".to_string(), "avatar".to_string(), AUTHOR)
}

fn post<'a>(chain: &'a PostChain, key: u64) -> &'a PostState {
    for p in chain.posts.iter() {
        if p.0 == key {
            return &p.1;
        }
    }
    panic!("no post stored under key {}", key);
}

fn has_post(chain: &PostChain, key: u64) -> bool {
    chain.posts.iter().any(|p| p.0 == key)
}

fn create(chain: &mut PostChain, title: &str, content: &str, ts: u64, key: u64) -> PostEvent {
    let user = author();
    create_post(
        chain,
        &user,
        USER_KEY,
        title.to_string(),
        content.to_string(),
        AUTHOR,
        ts,
        key,
    )
    .expect("create should succeed")
}

#[test]
fn init_blog_starts_empty() {
    let chain = init_blog(ADMIN);
    assert_eq!(chain.blog.authority, ADMIN);
    assert_eq!(chain.blog.current_post_key, None);
    assert_eq!(chain.posts.len(), 0);
}

#[test]
fn create_appends_and_moves_head() {
    let mut chain = init_blog(ADMIN);
    let ev = create(&mut chain, "A", "a1", 10, 1);
    assert_eq!(
        ev,
        PostEvent { label: EventLabel::Create, post_id: 1, next_post_id: None }
    );
    assert_eq!(chain.blog.current_post_key, Some(1));
    assert_eq!(chain.posts.len(), 1);
    let a = post(&chain, 1);
    assert_eq!(a.title, "A");
    assert_eq!(a.content, "a1");
    assert_eq!(a.user, USER_KEY);
    assert_eq!(a.timestamp, 10);
    assert_eq!(a.pre_post_key, None);
    assert_eq!(a.authority, AUTHOR);
    create(&mut chain, "B", "b1", 11, 2);
    assert_eq!(chain.blog.current_post_key, Some(2));
    assert_eq!(chain.posts.len(), 2);
    assert_eq!(post(&chain, 2).pre_post_key, Some(1));
}

#[test]
fn scenario_three_posts_then_two_deletes() {
    let mut chain = init_blog(ADMIN);
    create(&mut chain, "A", "a1", 10, 1);
    create(&mut chain, "B", "b1", 11, 2);
    create(&mut chain, "C", "c1", 12, 3);
    assert_eq!(chain.blog.current_post_key, Some(3));
    assert_eq!(post(&chain, 3).pre_post_key, Some(2));
    assert_eq!(post(&chain, 2).pre_post_key, Some(1));
    assert_eq!(post(&chain, 1).pre_post_key, None);
    assert_eq!(chain.posts.len(), 3);

    delete_post(&mut chain, 2, 3, AUTHOR).expect("interior delete should succeed");
    assert_eq!(chain.blog.current_post_key, Some(3));
    assert_eq!(post(&chain, 3).pre_post_key, Some(1));
    assert_eq!(chain.posts.len(), 2);
    assert!(!has_post(&chain, 2));

    delete_latest_post(&mut chain, 3, AUTHOR).expect("head delete should succeed");
    assert_eq!(chain.blog.current_post_key, Some(1));
    assert_eq!(chain.posts.len(), 1);
    assert!(!has_post(&chain, 3));
}

#[test]
fn scenario_event_order() {
    let mut chain = init_blog(ADMIN);
    let mut events = Vec::new();
    events.push(create(&mut chain, "A", "a1", 10, 1));
    events.push(create(&mut chain, "B", "b1", 11, 2));
    events.push(create(&mut chain, "C", "c1", 12, 3));
    events.push(delete_post(&mut chain, 2, 3, AUTHOR).unwrap());
    events.push(delete_latest_post(&mut chain, 3, AUTHOR).unwrap());
    assert_eq!(
        events,
        vec![
            PostEvent { label: EventLabel::Create, post_id: 1, next_post_id: None },
            PostEvent { label: EventLabel::Create, post_id: 2, next_post_id: None },
            PostEvent { label: EventLabel::Create, post_id: 3, next_post_id: None },
            PostEvent { label: EventLabel::Delete, post_id: 2, next_post_id: Some(3) },
            PostEvent { label: EventLabel::Delete, post_id: 3, next_post_id: None },
        ]
    );
}

#[test]
fn create_rejects_empty_and_oversized_text() {
    let mut chain = init_blog(ADMIN);
    let user = author();
    let long_title = "t".repeat(51);
    let long_content = "c".repeat(501);
    for (title, content) in [
        (String::new(), "body".to_string()),
        ("title".to_string(), String::new()),
        (long_title, "body".to_string()),
        ("title".to_string(), long_content),
    ] {
        let r = create_post(&mut chain, &user, USER_KEY, title, content, AUTHOR, 10, 1);
        assert_eq!(r, Err(BlogError::ValidationError));
        assert_eq!(chain.posts.len(), 0);
        assert_eq!(chain.blog.current_post_key, None);
    }
}

#[test]
fn create_accepts_text_at_the_bounds() {
    let mut chain = init_blog(ADMIN);
    let user = author();
    let title = "t".repeat(50);
    let content = "c".repeat(500);
    let r = create_post(&mut chain, &user, USER_KEY, title, content, AUTHOR, 10, 1);
    assert!(r.is_ok());
    assert_eq!(chain.posts.len(), 1);
}

#[test]
fn create_counts_bytes_not_characters() {
    let mut chain = init_blog(ADMIN);
    let user = author();
    // 26 two-byte characters: 26 characters but 52 bytes, over the title bound.
    let title = "é".repeat(26);
    assert_eq!(title.chars().count(), 26);
    let r = create_post(&mut chain, &user, USER_KEY, title, "body".to_string(), AUTHOR, 10, 1);
    assert_eq!(r, Err(BlogError::ValidationError));
}

#[test]
fn create_rejects_foreign_identity() {
    let mut chain = init_blog(ADMIN);
    let user = author();
    let r = create_post(
        &mut chain,
        &user,
        USER_KEY,
        "A".to_string(),
        "a1".to_string(),
        AUTHOR + 1,
        10,
        1,
    );
    assert_eq!(r, Err(BlogError::AuthorizationError));
    assert_eq!(chain.posts.len(), 0);
}

#[test]
fn create_rejects_reused_address() {
    let mut chain = init_blog(ADMIN);
    let user = author();
    create(&mut chain, "A", "a1", 10, 1);
    let r = create_post(
        &mut chain,
        &user,
        USER_KEY,
        "B".to_string(),
        "b1".to_string(),
        AUTHOR,
        11,
        1,
    );
    assert_eq!(r, Err(BlogError::StorageError));
    assert_eq!(chain.posts.len(), 1);
    assert_eq!(post(&chain, 1).title, "A");
}

#[test]
fn update_overwrites_text_only() {
    let mut chain = init_blog(ADMIN);
    create(&mut chain, "A", "a1", 10, 1);
    create(&mut chain, "B", "b1", 11, 2);
    let ev = update_post(&mut chain, 1, "A2".to_string(), "a2".to_string(), AUTHOR).unwrap();
    assert_eq!(
        ev,
        PostEvent { label: EventLabel::Update, post_id: 1, next_post_id: None }
    );
    let a = post(&chain, 1);
    assert_eq!(a.title, "A2");
    assert_eq!(a.content, "a2");
    assert_eq!(a.user, USER_KEY);
    assert_eq!(a.timestamp, 10);
    assert_eq!(a.pre_post_key, None);
    assert_eq!(a.authority, AUTHOR);
    assert_eq!(chain.blog.current_post_key, Some(2));
    assert_eq!(chain.posts.len(), 2);
}

#[test]
fn update_twice_equals_update_once() {
    let mut chain_once = init_blog(ADMIN);
    create(&mut chain_once, "A", "a1", 10, 1);
    create(&mut chain_once, "B", "b1", 11, 2);
    let mut chain_twice = init_blog(ADMIN);
    create(&mut chain_twice, "A", "a1", 10, 1);
    create(&mut chain_twice, "B", "b1", 11, 2);

    let once = update_post(&mut chain_once, 1, "A2".to_string(), "a2".to_string(), AUTHOR);
    update_post(&mut chain_twice, 1, "A2".to_string(), "a2".to_string(), AUTHOR).unwrap();
    let twice = update_post(&mut chain_twice, 1, "A2".to_string(), "a2".to_string(), AUTHOR);
    assert_eq!(once, twice);
    assert_eq!(chain_once.blog.current_post_key, chain_twice.blog.current_post_key);
    assert_eq!(chain_once.posts.len(), chain_twice.posts.len());
    for (p, q) in chain_once.posts.iter().zip(chain_twice.posts.iter()) {
        assert_eq!(p.0, q.0);
        assert_eq!(p.1.title, q.1.title);
        assert_eq!(p.1.content, q.1.content);
        assert_eq!(p.1.user, q.1.user);
        assert_eq!(p.1.timestamp, q.1.timestamp);
        assert_eq!(p.1.pre_post_key, q.1.pre_post_key);
        assert_eq!(p.1.authority, q.1.authority);
    }
}

#[test]
fn update_rejects_empty_and_oversized_text() {
    let mut chain = init_blog(ADMIN);
    create(&mut chain, "A", "a1", 10, 1);
    let long_title = "t".repeat(51);
    let long_content = "c".repeat(501);
    // 26 two-byte characters: 26 characters but 52 bytes, over the title bound.
    let wide_title = "é".repeat(26);
    for (title, content) in [
        (String::new(), "body".to_string()),
        ("title".to_string(), String::new()),
        (long_title, "body".to_string()),
        ("title".to_string(), long_content),
        (wide_title, "body".to_string()),
    ] {
        let r = update_post(&mut chain, 1, title, content, AUTHOR);
        assert_eq!(r, Err(BlogError::ValidationError));
        assert_eq!(post(&chain, 1).title, "A");
        assert_eq!(post(&chain, 1).content, "a1");
        assert_eq!(chain.posts.len(), 1);
        assert_eq!(chain.blog.current_post_key, Some(1));
    }
}

#[test]
fn update_accepts_text_at_the_bounds() {
    let mut chain = init_blog(ADMIN);
    create(&mut chain, "A", "a1", 10, 1);
    let title = "t".repeat(50);
    let content = "c".repeat(500);
    let r = update_post(&mut chain, 1, title.clone(), content.clone(), AUTHOR);
    assert!(r.is_ok());
    assert_eq!(post(&chain, 1).title, title);
    assert_eq!(post(&chain, 1).content, content);
}

#[test]
fn update_rejects_foreign_identity() {
    let mut chain = init_blog(ADMIN);
    create(&mut chain, "A", "a1", 10, 1);
    let r = update_post(&mut chain, 1, "A2".to_string(), "a2".to_string(), AUTHOR + 1);
    assert_eq!(r, Err(BlogError::AuthorizationError));
    assert_eq!(post(&chain, 1).title, "A");
    assert_eq!(post(&chain, 1).content, "a1");
}

#[test]
fn update_rejects_missing_record() {
    let mut chain = init_blog(ADMIN);
    create(&mut chain, "A", "a1", 10, 1);
    let r = update_post(&mut chain, 2, "B".to_string(), "b1".to_string(), AUTHOR);
    assert_eq!(r, Err(BlogError::ConsistencyError));
    assert_eq!(chain.posts.len(), 1);
}

#[test]
fn delete_rejects_mismatched_pair() {
    let mut chain = init_blog(ADMIN);
    create(&mut chain, "A", "a1", 10, 1);
    create(&mut chain, "B", "b1", 11, 2);
    create(&mut chain, "C", "c1", 12, 3);
    // C's backward link names B, not A: refusing prevents a corrupting relink.
    let r = delete_post(&mut chain, 1, 3, AUTHOR);
    assert_eq!(r, Err(BlogError::ConsistencyError));
    assert_eq!(chain.posts.len(), 3);
    assert_eq!(post(&chain, 1).pre_post_key, None);
    assert_eq!(post(&chain, 2).pre_post_key, Some(1));
    assert_eq!(post(&chain, 3).pre_post_key, Some(2));
    assert_eq!(chain.blog.current_post_key, Some(3));
}

#[test]
fn delete_rejects_missing_records() {
    let mut chain = init_blog(ADMIN);
    create(&mut chain, "A", "a1", 10, 1);
    assert_eq!(delete_post(&mut chain, 5, 1, AUTHOR), Err(BlogError::ConsistencyError));
    assert_eq!(delete_post(&mut chain, 1, 5, AUTHOR), Err(BlogError::ConsistencyError));
    assert_eq!(chain.posts.len(), 1);
}

#[test]
fn delete_rejects_foreign_identity() {
    let mut chain = init_blog(ADMIN);
    create(&mut chain, "A", "a1", 10, 1);
    create(&mut chain, "B", "b1", 11, 2);
    let r = delete_post(&mut chain, 1, 2, AUTHOR + 1);
    assert_eq!(r, Err(BlogError::AuthorizationError));
    assert_eq!(chain.posts.len(), 2);
    assert_eq!(post(&chain, 2).pre_post_key, Some(1));
}

#[test]
fn delete_latest_rejects_non_head() {
    let mut chain = init_blog(ADMIN);
    create(&mut chain, "A", "a1", 10, 1);
    create(&mut chain, "B", "b1", 11, 2);
    let r = delete_latest_post(&mut chain, 1, AUTHOR);
    assert_eq!(r, Err(BlogError::ConsistencyError));
    assert_eq!(chain.posts.len(), 2);
    assert_eq!(chain.blog.current_post_key, Some(2));
}

#[test]
fn delete_latest_rejects_empty_chain() {
    let mut chain = init_blog(ADMIN);
    let r = delete_latest_post(&mut chain, 1, AUTHOR);
    assert_eq!(r, Err(BlogError::ConsistencyError));
}

#[test]
fn delete_latest_rejects_foreign_identity() {
    let mut chain = init_blog(ADMIN);
    create(&mut chain, "A", "a1", 10, 1);
    let r = delete_latest_post(&mut chain, 1, AUTHOR + 1);
    assert_eq!(r, Err(BlogError::AuthorizationError));
    assert_eq!(chain.posts.len(), 1);
}

#[test]
fn delete_head_of_single_post_empties_chain() {
    let mut chain = init_blog(ADMIN);
    create(&mut chain, "A", "a1", 10, 1);
    let ev = delete_latest_post(&mut chain, 1, AUTHOR).unwrap();
    assert_eq!(
        ev,
        PostEvent { label: EventLabel::Delete, post_id: 1, next_post_id: None }
    );
    assert_eq!(chain.blog.current_post_key, None);
    assert_eq!(chain.posts.len(), 0);
}

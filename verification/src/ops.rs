//! The four chain operations and the two profile operations.
//!
//! Each exec operation is an atomic unit: it validates ownership and linkage
//! against the current state first and mutates only once every check has
//! passed, so an error leaves the whole structure unchanged. The exact
//! outcome of each operation — the successor state and the returned event or
//! error — is pinned down by a spec-level transition function, and the exec
//! function ensures it computes precisely that transition. Beside each
//! transition stands the proof that it preserves well-formedness; `laws`
//! chains those proofs into the statement that every reachable state is
//! well-formed.

use crate::model::{index_of_key, init_chain, lemma_index_of_key_bounds, lemma_index_of_key_first,
    lemma_remove_insert_is_update, valid_content, valid_post_text, valid_title, ChainView,
    PostView, MAX_CONTENT_BYTES, MAX_TITLE_BYTES};
use crate::records::{lemma_posts_view_insert, lemma_posts_view_remove, lemma_posts_view_update,
    posts_view, BlogError, BlogState, EventLabel, PostChain, PostEvent, PostState, UserState};
use vstd::prelude::*;

verus! {

/// Scaffolding entry point of the program; performs no mutation.
pub fn initialize() -> (r: Result<(), BlogError>)
    ensures
        r == Ok::<(), BlogError>(()),
{
    Ok(())
}

/// Creates the blog: an empty chain administered by `authority`.
pub fn init_blog(authority: u64) -> (chain: PostChain)
    ensures
        chain@ == init_chain(authority),
        chain@.wf(),
{
    let chain = PostChain {
        blog: BlogState { current_post_key: None, authority },
        posts: Vec::new(),
    };
    proof {
        assert(chain@.posts =~= Seq::<(u64, PostView)>::empty());
    }
    chain
}

/// Creates an author profile owned by `authority`.
pub fn signup_user(name: String, avatar: String, authority: u64) -> (user: UserState)
    ensures
        user.name@ == name@,
        user.avatar@ == avatar@,
        user.authority == authority,
{
    UserState { name, avatar, authority }
}

/// Overwrites a profile's display fields. Only the profile's owner may do so;
/// any other caller is refused and the profile is left unchanged.
pub fn update_user(user_account: &mut UserState, name: String, avatar: String, authority: u64)
    -> (r: Result<(), BlogError>)
    ensures
        authority == old(user_account).authority ==> {
            &&& r == Ok::<(), BlogError>(())
            &&& final(user_account).name@ == name@
            &&& final(user_account).avatar@ == avatar@
            &&& final(user_account).authority == old(user_account).authority
        },
        authority != old(user_account).authority ==> {
            &&& r == Err::<(), BlogError>(BlogError::AuthorizationError)
            &&& *final(user_account) == *old(user_account)
        },
{
    if authority != user_account.authority {
        return Err(BlogError::AuthorizationError);
    }
    user_account.name = name;
    user_account.avatar = avatar;
    Ok(())
}

/// Index of the record stored under `key`, or `None` if no live record has
/// that address.
fn find_post(posts: &Vec<(u64, PostState)>, key: u64) -> (r: Option<usize>)
    ensures
        match r {
            Some(i) => index_of_key(posts_view(posts@), key) == i as int,
            None => index_of_key(posts_view(posts@), key) == -1,
        },
{
    let mut j: usize = 0;
    while j < posts.len()
        invariant
            j <= posts@.len(),
            forall|m: int| 0 <= m < j ==> #[trigger] posts_view(posts@)[m].0 != key,
        decreases posts@.len() - j,
    {
        if posts[j].0 == key {
            proof {
                lemma_index_of_key_first(posts_view(posts@), key, j as int);
            }
            return Some(j);
        }
        assert(posts_view(posts@)[j as int].0 == posts@[j as int].0);
        j += 1;
    }
    proof {
        lemma_index_of_key_bounds(posts_view(posts@), key);
    }
    None
}

/// The exact outcome of Create: the successor state and the returned event or
/// error. The requester must be the owner of the supplied author profile, the
/// text fields must be within bounds, and the new address must be free; the
/// new record then carries the old head as its backward link and becomes the
/// head itself.
pub open spec fn create_post_spec(
    v: ChainView,
    user_authority: u64,
    user_key: u64,
    title: Seq<char>,
    content: Seq<char>,
    authority: u64,
    timestamp: u64,
    post_key: u64,
) -> (ChainView, Result<PostEvent, BlogError>) {
    if authority != user_authority {
        (v, Err(BlogError::AuthorizationError))
    } else if !valid_title(title) || !valid_content(content) {
        (v, Err(BlogError::ValidationError))
    } else if v.contains_key(post_key) {
        (v, Err(BlogError::StorageError))
    } else {
        let node = PostView {
            title,
            content,
            user: user_key,
            timestamp,
            pre_post_key: v.head,
            authority,
        };
        let next = ChainView {
            authority: v.authority,
            head: Some(post_key),
            posts: v.posts.insert(0, (post_key, node)),
        };
        (next, Ok(PostEvent { label: EventLabel::Create, post_id: post_key, next_post_id: None }))
    }
}

/// Create preserves well-formedness; on success the chain grows by exactly
/// one record, linked back to the old head.
pub proof fn lemma_create_post_spec_wf(
    v: ChainView,
    user_authority: u64,
    user_key: u64,
    title: Seq<char>,
    content: Seq<char>,
    authority: u64,
    timestamp: u64,
    post_key: u64,
)
    requires
        v.wf(),
    ensures
        ({
            let (w, r) = create_post_spec(
                v,
                user_authority,
                user_key,
                title,
                content,
                authority,
                timestamp,
                post_key,
            );
            &&& w.wf()
            &&& (r is Err ==> w == v)
            &&& (r is Ok ==> w.len() == v.len() + 1 && w.posts[0].1.pre_post_key == v.head
                && w.head == Some(post_key))
        }),
{
    if authority == user_authority && valid_title(title) && valid_content(content)
        && !v.contains_key(post_key) {
        let node = PostView {
            title,
            content,
            user: user_key,
            timestamp,
            pre_post_key: v.head,
            authority,
        };
        let w = create_post_spec(
            v,
            user_authority,
            user_key,
            title,
            content,
            authority,
            timestamp,
            post_key,
        ).0;
        v.posts.insert_ensures(0, (post_key, node));
        lemma_index_of_key_bounds(v.posts, post_key);
        assert forall|i: int, j: int| 0 <= i < j < w.posts.len() implies w.posts[i].0
            != w.posts[j].0 by {
            if i == 0 {
                assert(w.posts[j] == v.posts[j - 1]);
                assert(v.posts[j - 1].0 != post_key);
            } else {
                assert(w.posts[i] == v.posts[i - 1]);
                assert(w.posts[j] == v.posts[j - 1]);
            }
        }
        assert forall|i: int| 0 <= i < w.posts.len() implies w.linked_at(i) by {
            if i == 0 {
                if v.posts.len() > 0 {
                    assert(w.posts[1] == v.posts[0]);
                }
            } else {
                assert(w.posts[i] == v.posts[i - 1]);
                assert(v.linked_at(i - 1));
                if i < w.posts.len() - 1 {
                    assert(w.posts[i + 1] == v.posts[i]);
                }
            }
        }
        assert forall|i: int| 0 <= i < w.posts.len() implies valid_post_text(w.posts[i].1) by {
            if i > 0 {
                assert(w.posts[i] == v.posts[i - 1]);
                assert(valid_post_text(v.posts[i - 1].1));
            }
        }
    }
}

/// Appends a post: the new record's backward link is the old head (the
/// sentinel for the first-ever post) and the head is moved onto the new
/// record, atomically. `authority` is the authenticated requesting identity,
/// `timestamp` the clock's current time, and `post_key` the address the store
/// allocated for the record.
pub fn create_post(
    chain: &mut PostChain,
    user_account: &UserState,
    user_key: u64,
    title: String,
    content: String,
    authority: u64,
    timestamp: u64,
    post_key: u64,
) -> (r: Result<PostEvent, BlogError>)
    requires
        old(chain)@.wf(),
    ensures
        final(chain)@.wf(),
        (final(chain)@, r) == create_post_spec(
            old(chain)@,
            user_account.authority,
            user_key,
            title@,
            content@,
            authority,
            timestamp,
            post_key,
        ),
        r is Err ==> final(chain)@ == old(chain)@,
        r is Ok ==> final(chain)@.len() == old(chain)@.len() + 1
            && final(chain)@.posts[0].1.pre_post_key == old(chain)@.head
            && final(chain)@.head == Some(post_key),
{
    if authority != user_account.authority {
        return Err(BlogError::AuthorizationError);
    }
    let title_ok = !title.as_str().is_empty() && title.as_str().as_bytes().len() <= MAX_TITLE_BYTES;
    let content_ok = !content.as_str().is_empty()
        && content.as_str().as_bytes().len() <= MAX_CONTENT_BYTES;
    if !title_ok || !content_ok {
        return Err(BlogError::ValidationError);
    }
    if find_post(&chain.posts, post_key).is_some() {
        return Err(BlogError::StorageError);
    }
    let node = PostState {
        title,
        content,
        user: user_key,
        timestamp,
        pre_post_key: chain.blog.current_post_key,
        authority,
    };
    let ghost v = old(chain)@;
    let ghost pair = (post_key, node);
    chain.posts.insert(0, (post_key, node));
    chain.blog.current_post_key = Some(post_key);
    proof {
        lemma_posts_view_insert(old(chain).posts@, 0, pair);
        v.posts.insert_ensures(0, (post_key, pair.1@));
        lemma_create_post_spec_wf(
            v,
            user_account.authority,
            user_key,
            pair.1@.title,
            pair.1@.content,
            authority,
            timestamp,
            post_key,
        );
    }
    Ok(PostEvent { label: EventLabel::Create, post_id: post_key, next_post_id: None })
}

/// The exact outcome of Update: the record named by `post_key` must exist,
/// be owned by the requester, and be handed text within bounds; its text
/// fields are then overwritten in place while its address, backward link,
/// owner, and creation time are untouched.
pub open spec fn update_post_spec(
    v: ChainView,
    post_key: u64,
    title: Seq<char>,
    content: Seq<char>,
    authority: u64,
) -> (ChainView, Result<PostEvent, BlogError>) {
    if !v.contains_key(post_key) {
        (v, Err(BlogError::ConsistencyError))
    } else if authority != v.post(post_key).authority {
        (v, Err(BlogError::AuthorizationError))
    } else if !valid_title(title) || !valid_content(content) {
        (v, Err(BlogError::ValidationError))
    } else {
        let i = v.index_of_key(post_key);
        let p = v.posts[i].1;
        let p2 = PostView {
            title,
            content,
            user: p.user,
            timestamp: p.timestamp,
            pre_post_key: p.pre_post_key,
            authority: p.authority,
        };
        let next = ChainView {
            authority: v.authority,
            head: v.head,
            posts: v.posts.update(i, (post_key, p2)),
        };
        (next, Ok(PostEvent { label: EventLabel::Update, post_id: post_key, next_post_id: None }))
    }
}

/// Update preserves well-formedness; on success it touches exactly the text
/// fields of the named record.
pub proof fn lemma_update_post_spec_wf(
    v: ChainView,
    post_key: u64,
    title: Seq<char>,
    content: Seq<char>,
    authority: u64,
)
    requires
        v.wf(),
    ensures
        ({
            let (w, r) = update_post_spec(v, post_key, title, content, authority);
            &&& w.wf()
            &&& (r is Err ==> w == v)
            &&& (r is Ok ==> {
                let before = v.post(post_key);
                let after = w.post(post_key);
                &&& w.len() == v.len()
                &&& w.head == v.head
                &&& after.title == title
                &&& after.content == content
                &&& after.pre_post_key == before.pre_post_key
                &&& after.user == before.user
                &&& after.timestamp == before.timestamp
                &&& after.authority == before.authority
            })
        }),
{
    lemma_index_of_key_bounds(v.posts, post_key);
    if v.contains_key(post_key) && authority == v.post(post_key).authority && valid_title(title)
        && valid_content(content) {
        let i = v.index_of_key(post_key);
        let w = update_post_spec(v, post_key, title, content, authority).0;
        assert forall|m: int| 0 <= m < w.posts.len() implies w.linked_at(m) by {
            assert(v.linked_at(m));
        }
        assert forall|m: int| 0 <= m < w.posts.len() implies valid_post_text(w.posts[m].1) by {
            if m != i {
                assert(valid_post_text(v.posts[m].1));
            }
        }
        assert forall|m: int| 0 <= m < i implies w.posts[m].0 != post_key by {
            assert(v.posts[m].0 != v.posts[i].0);
        }
        lemma_index_of_key_first(w.posts, post_key, i);
    }
}

/// Edits a post in place. Only the post's owner may do so, a stale address is
/// refused, and the new text must fit the record's storage bounds just as at
/// creation; every refusal leaves every record unchanged.
pub fn update_post(
    chain: &mut PostChain,
    post_key: u64,
    title: String,
    content: String,
    authority: u64,
) -> (r: Result<PostEvent, BlogError>)
    requires
        old(chain)@.wf(),
    ensures
        final(chain)@.wf(),
        (final(chain)@, r) == update_post_spec(old(chain)@, post_key, title@, content@, authority),
        r is Err ==> final(chain)@ == old(chain)@,
        old(chain)@.contains_key(post_key) && authority != old(chain)@.post(post_key).authority
            ==> r == Err::<PostEvent, BlogError>(BlogError::AuthorizationError),
        old(chain)@.contains_key(post_key) && authority == old(chain)@.post(post_key).authority
            && !(valid_title(title@) && valid_content(content@))
            ==> r == Err::<PostEvent, BlogError>(BlogError::ValidationError),
        r is Ok ==> {
            let before = old(chain)@.post(post_key);
            let after = final(chain)@.post(post_key);
            &&& final(chain)@.len() == old(chain)@.len()
            &&& final(chain)@.head == old(chain)@.head
            &&& after.title == title@
            &&& after.content == content@
            &&& after.pre_post_key == before.pre_post_key
            &&& after.user == before.user
            &&& after.timestamp == before.timestamp
            &&& after.authority == before.authority
        },
{
    let ghost v = old(chain)@;
    let idx = match find_post(&chain.posts, post_key) {
        Some(i) => i,
        None => {
            return Err(BlogError::ConsistencyError);
        },
    };
    proof {
        lemma_index_of_key_bounds(v.posts, post_key);
    }
    if authority != chain.posts[idx].1.authority {
        return Err(BlogError::AuthorizationError);
    }
    let title_ok = !title.as_str().is_empty() && title.as_str().as_bytes().len() <= MAX_TITLE_BYTES;
    let content_ok = !content.as_str().is_empty()
        && content.as_str().as_bytes().len() <= MAX_CONTENT_BYTES;
    if !title_ok || !content_ok {
        return Err(BlogError::ValidationError);
    }
    let ghost s = chain.posts@;
    let mut rec = chain.posts.remove(idx);
    rec.1.title = title;
    rec.1.content = content;
    let ghost pair = rec;
    chain.posts.insert(idx, rec);
    proof {
        lemma_remove_insert_is_update(s, idx as int, pair);
        lemma_posts_view_update(s, idx as int, pair);
        lemma_update_post_spec_wf(v, post_key, pair.1@.title, pair.1@.content, authority);
    }
    Ok(PostEvent { label: EventLabel::Update, post_id: post_key, next_post_id: None })
}

/// The exact outcome of Delete-Interior: both supplied records must exist,
/// the requester must own the record being removed, and the supplied
/// successor must really point at it; the successor is then relinked to the
/// removed record's own predecessor and the record is destroyed.
pub open spec fn delete_post_spec(
    v: ChainView,
    post_key: u64,
    next_post_key: u64,
    authority: u64,
) -> (ChainView, Result<PostEvent, BlogError>) {
    if !v.contains_key(post_key) || !v.contains_key(next_post_key) {
        (v, Err(BlogError::ConsistencyError))
    } else if authority != v.post(post_key).authority {
        (v, Err(BlogError::AuthorizationError))
    } else if v.post(next_post_key).pre_post_key != Some(post_key) {
        (v, Err(BlogError::ConsistencyError))
    } else {
        let ix = v.index_of_key(post_key);
        let iy = v.index_of_key(next_post_key);
        let y = v.posts[iy].1;
        let y2 = PostView {
            title: y.title,
            content: y.content,
            user: y.user,
            timestamp: y.timestamp,
            pre_post_key: v.posts[ix].1.pre_post_key,
            authority: y.authority,
        };
        let next = ChainView {
            authority: v.authority,
            head: v.head,
            posts: v.posts.update(iy, (next_post_key, y2)).remove(ix),
        };
        (next, Ok(PostEvent {
            label: EventLabel::Delete,
            post_id: post_key,
            next_post_id: Some(next_post_key),
        }))
    }
}

/// Delete-Interior preserves well-formedness; on success the chain shrinks by
/// exactly the named record, and its successor is linked to its predecessor.
pub proof fn lemma_delete_post_spec_wf(
    v: ChainView,
    post_key: u64,
    next_post_key: u64,
    authority: u64,
)
    requires
        v.wf(),
    ensures
        ({
            let (w, r) = delete_post_spec(v, post_key, next_post_key, authority);
            &&& w.wf()
            &&& (r is Err ==> w == v)
            &&& (r is Ok ==> {
                &&& w.len() == v.len() - 1
                &&& !w.contains_key(post_key)
                &&& w.contains_key(next_post_key)
                &&& w.post(next_post_key).pre_post_key == v.post(post_key).pre_post_key
                &&& w.head == v.head
            })
        }),
{
    lemma_index_of_key_bounds(v.posts, post_key);
    lemma_index_of_key_bounds(v.posts, next_post_key);
    if v.contains_key(post_key) && v.contains_key(next_post_key)
        && authority == v.post(post_key).authority
        && v.post(next_post_key).pre_post_key == Some(post_key) {
        let iy = v.index_of_key(next_post_key);
        // The successor's backward link names `post_key`, so by the chain
        // invariant the removed record sits directly after the successor.
        assert(v.linked_at(iy));
        assert forall|m: int| 0 <= m < iy + 1 implies v.posts[m].0 != post_key by {
            assert(v.posts[m].0 != v.posts[iy + 1].0);
        }
        lemma_index_of_key_first(v.posts, post_key, iy + 1);
        let ix = v.index_of_key(post_key);
        let y2 = PostView {
            pre_post_key: v.posts[ix].1.pre_post_key,
            ..v.posts[iy].1
        };
        let u = v.posts.update(iy, (next_post_key, y2));
        let w = delete_post_spec(v, post_key, next_post_key, authority).0;
        assert(w.posts == u.remove(ix));
        u.remove_ensures(ix);
        let n = v.posts.len() as int;
        // Every surviving slot carries the record it carried before, shifted
        // left past the removed index; only the successor's link changed.
        assert forall|m: int| 0 <= m < n - 1 implies w.posts[m].0 == (if m < ix {
            v.posts[m].0
        } else {
            v.posts[m + 1].0
        }) by {
            if m < ix {
                assert(w.posts[m] == u[m]);
            } else {
                assert(w.posts[m] == u[m + 1]);
            }
        }
        assert forall|i: int, j: int| 0 <= i < j < n - 1 implies w.posts[i].0 != w.posts[j].0 by {
            let i2: int = if i < ix { i } else { i + 1 };
            let j2: int = if j < ix { j } else { j + 1 };
            assert(v.posts[i2].0 != v.posts[j2].0);
        }
        assert forall|m: int| 0 <= m < n - 1 implies w.linked_at(m) by {
            if m < iy {
                assert(w.posts[m] == u[m]);
                assert(v.linked_at(m));
                if m + 1 < ix {
                    assert(w.posts[m + 1] == u[m + 1]);
                }
            } else if m == iy {
                assert(w.posts[m] == u[m]);
                assert(v.linked_at(ix));
                if m < n - 2 {
                    assert(w.posts[m + 1] == u[m + 2]);
                }
            } else {
                assert(w.posts[m] == u[m + 1]);
                assert(v.linked_at(m + 1));
                if m < n - 2 {
                    assert(w.posts[m + 1] == u[m + 2]);
                }
            }
        }
        assert forall|m: int| 0 <= m < n - 1 implies valid_post_text(w.posts[m].1) by {
            if m < iy {
                assert(w.posts[m] == u[m]);
                assert(valid_post_text(v.posts[m].1));
            } else if m == iy {
                assert(w.posts[m] == u[m]);
                assert(valid_post_text(v.posts[iy].1));
            } else {
                assert(w.posts[m] == u[m + 1]);
                assert(valid_post_text(v.posts[m + 1].1));
            }
        }
        assert forall|m: int| 0 <= m < n - 1 implies w.posts[m].0 != post_key by {
            let m2: int = if m < ix { m } else { m + 1 };
            if m2 != ix {
                assert(v.posts[m2].0 != v.posts[ix].0);
            }
        }
        lemma_index_of_key_bounds(w.posts, post_key);
        lemma_index_of_key_first(w.posts, next_post_key, iy);
    }
}

/// Splices a non-head post out of the chain. The caller supplies the record
/// to remove and its immediate successor explicitly; if the successor's
/// backward link does not name the record — a stale view of the chain — the
/// operation is refused and every record is left unchanged.
pub fn delete_post(
    chain: &mut PostChain,
    post_key: u64,
    next_post_key: u64,
    authority: u64,
) -> (r: Result<PostEvent, BlogError>)
    requires
        old(chain)@.wf(),
    ensures
        final(chain)@.wf(),
        (final(chain)@, r) == delete_post_spec(old(chain)@, post_key, next_post_key, authority),
        r is Err ==> final(chain)@ == old(chain)@,
        old(chain)@.contains_key(post_key) && old(chain)@.contains_key(next_post_key)
            && authority != old(chain)@.post(post_key).authority
            ==> r == Err::<PostEvent, BlogError>(BlogError::AuthorizationError),
        old(chain)@.contains_key(post_key) && old(chain)@.contains_key(next_post_key)
            && authority == old(chain)@.post(post_key).authority
            && old(chain)@.post(next_post_key).pre_post_key != Some(post_key)
            ==> r == Err::<PostEvent, BlogError>(BlogError::ConsistencyError),
        r is Ok ==> {
            &&& final(chain)@.len() == old(chain)@.len() - 1
            &&& !final(chain)@.contains_key(post_key)
            &&& final(chain)@.contains_key(next_post_key)
            &&& final(chain)@.post(next_post_key).pre_post_key
                == old(chain)@.post(post_key).pre_post_key
            &&& final(chain)@.head == old(chain)@.head
        },
{
    let ghost v = old(chain)@;
    let ix = match find_post(&chain.posts, post_key) {
        Some(i) => i,
        None => {
            return Err(BlogError::ConsistencyError);
        },
    };
    let iy = match find_post(&chain.posts, next_post_key) {
        Some(i) => i,
        None => {
            return Err(BlogError::ConsistencyError);
        },
    };
    proof {
        lemma_index_of_key_bounds(v.posts, post_key);
        lemma_index_of_key_bounds(v.posts, next_post_key);
    }
    if authority != chain.posts[ix].1.authority {
        return Err(BlogError::AuthorizationError);
    }
    let pre_matches = match chain.posts[iy].1.pre_post_key {
        Some(k) => k == post_key,
        None => false,
    };
    if !pre_matches {
        return Err(BlogError::ConsistencyError);
    }
    let x_pre = chain.posts[ix].1.pre_post_key;
    let ghost s = chain.posts@;
    let mut y = chain.posts.remove(iy);
    y.1.pre_post_key = x_pre;
    let ghost pair = y;
    chain.posts.insert(iy, y);
    proof {
        lemma_remove_insert_is_update(s, iy as int, pair);
        lemma_posts_view_update(s, iy as int, pair);
    }
    // Dropping the removed record is the storage reclaim.
    let _ = chain.posts.remove(ix);
    proof {
        lemma_posts_view_remove(s.update(iy as int, pair), ix as int);
        lemma_delete_post_spec_wf(v, post_key, next_post_key, authority);
        assert(chain@.posts == delete_post_spec(v, post_key, next_post_key, authority).0.posts);
    }
    Ok(PostEvent { label: EventLabel::Delete, post_id: post_key, next_post_id: Some(next_post_key) })
}

/// The exact outcome of Delete-Head: the supplied address must be the current
/// head and the requester must own it; the head is then moved onto the
/// record's predecessor and the record is destroyed.
pub open spec fn delete_latest_post_spec(v: ChainView, post_key: u64, authority: u64) -> (
    ChainView,
    Result<PostEvent, BlogError>,
) {
    if v.head != Some(post_key) {
        (v, Err(BlogError::ConsistencyError))
    } else if authority != v.posts[0].1.authority {
        (v, Err(BlogError::AuthorizationError))
    } else {
        let next = ChainView {
            authority: v.authority,
            head: v.posts[0].1.pre_post_key,
            posts: v.posts.drop_first(),
        };
        (next, Ok(PostEvent { label: EventLabel::Delete, post_id: post_key, next_post_id: None }))
    }
}

/// Delete-Head preserves well-formedness; on success the head moves onto the
/// removed record's predecessor and the chain shrinks by one.
pub proof fn lemma_delete_latest_post_spec_wf(v: ChainView, post_key: u64, authority: u64)
    requires
        v.wf(),
    ensures
        ({
            let (w, r) = delete_latest_post_spec(v, post_key, authority);
            &&& w.wf()
            &&& (r is Err ==> w == v)
            &&& (r is Ok ==> {
                &&& w.len() == v.len() - 1
                &&& !w.contains_key(post_key)
                &&& w.head == v.post(post_key).pre_post_key
            })
        }),
{
    if v.head == Some(post_key) && authority == v.posts[0].1.authority {
        let w = delete_latest_post_spec(v, post_key, authority).0;
        let n = v.posts.len() as int;
        v.posts.remove_ensures(0);
        assert(v.posts.remove(0) =~= v.posts.drop_first());
        lemma_index_of_key_first(v.posts, post_key, 0);
        assert forall|m: int| 0 <= m < n - 1 implies w.linked_at(m) by {
            assert(w.posts[m] == v.posts[m + 1]);
            assert(v.linked_at(m + 1));
            if m < n - 2 {
                assert(w.posts[m + 1] == v.posts[m + 2]);
            }
        }
        assert(v.linked_at(0));
        assert forall|m: int| 0 <= m < n - 1 implies valid_post_text(w.posts[m].1) by {
            assert(w.posts[m] == v.posts[m + 1]);
            assert(valid_post_text(v.posts[m + 1].1));
        }
        assert forall|m: int| 0 <= m < n - 1 implies w.posts[m].0 != post_key by {
            assert(w.posts[m] == v.posts[m + 1]);
            assert(v.posts[0].0 != v.posts[m + 1].0);
        }
        lemma_index_of_key_bounds(w.posts, post_key);
    }
}

/// Unlinks the most recent post. The supplied address must still be the
/// chain's head — anything else is a stale view and is refused — and the
/// requester must own the head record.
pub fn delete_latest_post(chain: &mut PostChain, post_key: u64, authority: u64) -> (r: Result<
    PostEvent,
    BlogError,
>)
    requires
        old(chain)@.wf(),
    ensures
        final(chain)@.wf(),
        (final(chain)@, r) == delete_latest_post_spec(old(chain)@, post_key, authority),
        r is Err ==> final(chain)@ == old(chain)@,
        old(chain)@.head == Some(post_key) && authority != old(chain)@.posts[0].1.authority
            ==> r == Err::<PostEvent, BlogError>(BlogError::AuthorizationError),
        r is Ok ==> {
            &&& final(chain)@.len() == old(chain)@.len() - 1
            &&& !final(chain)@.contains_key(post_key)
            &&& final(chain)@.head == old(chain)@.post(post_key).pre_post_key
        },
{
    let ghost v = old(chain)@;
    let head_matches = match chain.blog.current_post_key {
        Some(k) => k == post_key,
        None => false,
    };
    if !head_matches {
        return Err(BlogError::ConsistencyError);
    }
    assert(v.posts.len() > 0);
    if authority != chain.posts[0].1.authority {
        return Err(BlogError::AuthorizationError);
    }
    let ghost s = chain.posts@;
    let x = chain.posts.remove(0);
    chain.blog.current_post_key = x.1.pre_post_key;
    proof {
        lemma_posts_view_remove(s, 0);
        v.posts.remove_ensures(0);
        assert(v.posts.remove(0) =~= v.posts.drop_first());
        lemma_delete_latest_post_spec_wf(v, post_key, authority);
    }
    Ok(PostEvent { label: EventLabel::Delete, post_id: post_key, next_post_id: None })
}

} // verus!

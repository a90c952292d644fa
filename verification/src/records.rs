//! The record types and their views.
//!
//! Addresses are plain `u64` identifiers handed in by the caller; the sentinel
//! "no record" is `None`. `PostChain` owns the blog head record together with
//! every live post record, keyed by address, in chain order.

use crate::model::{ChainView, PostView};
use vstd::prelude::*;

verus! {

/// The blog-level head record: the address of the most recent live post (or
/// `None` while the chain is empty) and the blog administrator's identity.
pub struct BlogState {
    pub current_post_key: Option<u64>,
    pub authority: u64,
}

/// One post record: the text fields, the author profile's address, the
/// author's identity, the creation time, and the backward link.
pub struct PostState {
    pub title: String,
    pub content: String,
    pub user: u64,
    pub timestamp: u64,
    pub pre_post_key: Option<u64>,
    pub authority: u64,
}

/// An author profile: display fields and the owning identity.
pub struct UserState {
    pub name: String,
    pub avatar: String,
    pub authority: u64,
}

/// What kind of mutation an event reports.
#[derive(Clone, Copy, PartialEq, Eq, Debug, Structural)]
pub enum EventLabel {
    Create,
    Update,
    Delete,
}

/// The notification produced after each successful operation. `next_post_id`
/// names the relinked successor for an interior delete and is `None`
/// otherwise.
#[derive(Clone, Copy, PartialEq, Eq, Debug)]
pub struct PostEvent {
    pub label: EventLabel,
    pub post_id: u64,
    pub next_post_id: Option<u64>,
}

/// Why an operation was refused. Every error leaves all records unchanged.
#[derive(Clone, Copy, PartialEq, Eq, Debug, Structural)]
pub enum BlogError {
    /// Malformed or oversized input.
    ValidationError,
    /// The caller is not the owner of the record being mutated.
    AuthorizationError,
    /// The supplied linkage no longer matches the committed chain state.
    ConsistencyError,
    /// The storage collaborator handed out an address that is already in use.
    StorageError,
}

/// The whole structure: the head record and the live post records as
/// `(address, record)` pairs in chain order, newest first.
pub struct PostChain {
    pub blog: BlogState,
    pub posts: Vec<(u64, PostState)>,
}

impl View for PostState {
    type V = PostView;

    open spec fn view(&self) -> PostView {
        PostView {
            title: self.title@,
            content: self.content@,
            user: self.user,
            timestamp: self.timestamp,
            pre_post_key: self.pre_post_key,
            authority: self.authority,
        }
    }
}

/// The mathematical image of a stored record sequence.
pub open spec fn posts_view(s: Seq<(u64, PostState)>) -> Seq<(u64, PostView)> {
    s.map_values(|p: (u64, PostState)| (p.0, p.1@))
}

impl View for PostChain {
    type V = ChainView;

    open spec fn view(&self) -> ChainView {
        ChainView {
            authority: self.blog.authority,
            head: self.blog.current_post_key,
            posts: posts_view(self.posts@),
        }
    }
}

/// Mapping to views commutes with inserting a record.
pub proof fn lemma_posts_view_insert(s: Seq<(u64, PostState)>, i: int, p: (u64, PostState))
    requires
        0 <= i <= s.len(),
    ensures
        posts_view(s.insert(i, p)) == posts_view(s).insert(i, (p.0, p.1@)),
{
    s.insert_ensures(i, p);
    posts_view(s).insert_ensures(i, (p.0, p.1@));
    assert(posts_view(s.insert(i, p)) =~= posts_view(s).insert(i, (p.0, p.1@)));
}

/// Mapping to views commutes with removing a record.
pub proof fn lemma_posts_view_remove(s: Seq<(u64, PostState)>, i: int)
    requires
        0 <= i < s.len(),
    ensures
        posts_view(s.remove(i)) == posts_view(s).remove(i),
{
    s.remove_ensures(i);
    posts_view(s).remove_ensures(i);
    assert(posts_view(s.remove(i)) =~= posts_view(s).remove(i));
}

/// Mapping to views commutes with replacing a record.
pub proof fn lemma_posts_view_update(s: Seq<(u64, PostState)>, i: int, p: (u64, PostState))
    requires
        0 <= i < s.len(),
    ensures
        posts_view(s.update(i, p)) == posts_view(s).update(i, (p.0, p.1@)),
{
    assert(posts_view(s.update(i, p)) =~= posts_view(s).update(i, (p.0, p.1@)));
}

} // verus!

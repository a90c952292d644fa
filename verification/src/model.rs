//! Mathematical model of the post chain.
//!
//! A chain state is an administrator identity, a stored head pointer, and the
//! live post records in chain order: index 0 is the most recent post, each
//! record's backward link names the record one index further on, and the last
//! record's link is the sentinel `None`. Well-formedness (`ChainView::wf`)
//! pins that shape down; the traversal lemmas in `laws` show that it makes
//! the walk from the head visit every live record exactly once.

use vstd::prelude::*;
use vstd::utf8::encode_utf8;

verus! {

/// Largest accepted title, in encoded bytes.
pub const MAX_TITLE_BYTES: usize = 50;

/// Largest accepted content, in encoded bytes.
pub const MAX_CONTENT_BYTES: usize = 500;

/// A title is accepted when it is non-empty and at most `MAX_TITLE_BYTES`
/// bytes long once encoded.
pub open spec fn valid_title(t: Seq<char>) -> bool {
    t.len() > 0 && encode_utf8(t).len() <= MAX_TITLE_BYTES
}

/// Content is accepted when it is non-empty and at most `MAX_CONTENT_BYTES`
/// bytes long once encoded.
pub open spec fn valid_content(c: Seq<char>) -> bool {
    c.len() > 0 && encode_utf8(c).len() <= MAX_CONTENT_BYTES
}

/// Mathematical image of one post record: the text fields as character
/// sequences, the author's identity, the creation time, and the backward link
/// (`None` marks the chain's oldest post).
#[verifier::ext_equal]
pub ghost struct PostView {
    pub title: Seq<char>,
    pub content: Seq<char>,
    pub user: u64,
    pub timestamp: u64,
    pub pre_post_key: Option<u64>,
    pub authority: u64,
}

/// Mathematical image of the whole structure: the blog administrator, the
/// stored head pointer, and the live records as `(address, record)` pairs in
/// chain order, newest first.
#[verifier::ext_equal]
pub ghost struct ChainView {
    pub authority: u64,
    pub head: Option<u64>,
    pub posts: Seq<(u64, PostView)>,
}

/// A record's text fields fit the storage budget reserved for the node.
pub open spec fn valid_post_text(p: PostView) -> bool {
    valid_title(p.title) && valid_content(p.content)
}

/// The state a freshly created blog is in: the sentinel head and no posts.
pub open spec fn init_chain(authority: u64) -> ChainView {
    ChainView { authority, head: None, posts: Seq::empty() }
}

/// Index of the first record stored under `key`, or -1 when no live record
/// has that address.
pub open spec fn index_of_key(posts: Seq<(u64, PostView)>, key: u64) -> int
    decreases posts.len(),
{
    if posts.len() == 0 {
        -1
    } else if posts[0].0 == key {
        0
    } else if index_of_key(posts.drop_first(), key) == -1 {
        -1
    } else {
        index_of_key(posts.drop_first(), key) + 1
    }
}

impl ChainView {
    /// Number of live posts.
    pub open spec fn len(self) -> nat {
        self.posts.len()
    }

    /// The addresses of the live posts, in chain order.
    pub open spec fn keys(self) -> Seq<u64> {
        self.posts.map_values(|p: (u64, PostView)| p.0)
    }

    /// Index of the live record at address `key`, or -1 if there is none.
    pub open spec fn index_of_key(self, key: u64) -> int {
        index_of_key(self.posts, key)
    }

    /// Whether a live record exists at address `key`.
    pub open spec fn contains_key(self, key: u64) -> bool {
        self.index_of_key(key) >= 0
    }

    /// The live record at address `key` (meaningful only when it exists).
    pub open spec fn post(self, key: u64) -> PostView {
        self.posts[self.index_of_key(key)].1
    }

    /// The backward link of the record at index `i` names the record at
    /// `i + 1`, or the sentinel when `i` is the last index.
    pub open spec fn linked_at(self, i: int) -> bool {
        self.posts[i].1.pre_post_key == if i == self.posts.len() - 1 {
            None::<u64>
        } else {
            Some(self.posts[i + 1].0)
        }
    }

    /// No two live records share an address.
    pub open spec fn keys_distinct(self) -> bool {
        forall|i: int, j: int|
            0 <= i < j < self.posts.len() ==> #[trigger] self.posts[i].0 != #[trigger] self.posts[j].0
    }

    /// Every stored record's text fields are within bounds.
    pub open spec fn texts_valid(self) -> bool {
        forall|i: int| 0 <= i < self.posts.len() ==> #[trigger] valid_post_text(self.posts[i].1)
    }

    /// Well-formedness: the stored head names the newest record (or the
    /// sentinel when the chain is empty), addresses are distinct, the
    /// backward links thread the records in order down to the sentinel, and
    /// every stored text field is within bounds.
    pub open spec fn wf(self) -> bool {
        &&& self.head == if self.posts.len() == 0 {
            None::<u64>
        } else {
            Some(self.posts[0].0)
        }
        &&& self.keys_distinct()
        &&& (forall|i: int| 0 <= i < self.posts.len() ==> #[trigger] self.linked_at(i))
        &&& self.texts_valid()
    }
}

/// `index_of_key` returns -1 or a valid index, a found index carries the key
/// looked for, and -1 means no record carries it.
pub proof fn lemma_index_of_key_bounds(posts: Seq<(u64, PostView)>, key: u64)
    ensures
        -1 <= index_of_key(posts, key) < posts.len(),
        index_of_key(posts, key) >= 0 ==> posts[index_of_key(posts, key)].0 == key,
        index_of_key(posts, key) == -1 ==> forall|i: int|
            0 <= i < posts.len() ==> #[trigger] posts[i].0 != key,
    decreases posts.len(),
{
    if posts.len() > 0 && posts[0].0 != key {
        lemma_index_of_key_bounds(posts.drop_first(), key);
        if index_of_key(posts, key) == -1 {
            assert forall|i: int| 0 <= i < posts.len() implies #[trigger] posts[i].0 != key by {
                if i > 0 {
                    assert(posts.drop_first()[i - 1] == posts[i]);
                }
            }
        }
    }
}

/// Removing an element and inserting another at the same index is the same as
/// replacing it.
pub proof fn lemma_remove_insert_is_update<A>(s: Seq<A>, i: int, a: A)
    requires
        0 <= i < s.len(),
    ensures
        s.remove(i).insert(i, a) == s.update(i, a),
{
    s.remove_ensures(i);
    s.remove(i).insert_ensures(i, a);
    assert(s.remove(i).insert(i, a) =~= s.update(i, a));
}

/// `index_of_key` returns the first index that carries the key.
pub proof fn lemma_index_of_key_first(posts: Seq<(u64, PostView)>, key: u64, i: int)
    requires
        0 <= i < posts.len(),
        posts[i].0 == key,
        forall|m: int| 0 <= m < i ==> #[trigger] posts[m].0 != key,
    ensures
        index_of_key(posts, key) == i,
    decreases i,
{
    if i > 0 {
        assert(posts.drop_first()[i - 1] == posts[i]);
        assert(forall|m: int|
            0 <= m < i - 1 ==> #[trigger] posts.drop_first()[m] == posts[m + 1]);
        lemma_index_of_key_first(posts.drop_first(), key, i - 1);
    }
}

} // verus!

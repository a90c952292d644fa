//! The chain-integrity laws.
//!
//! `lemma_reachable_wf` shows that every state a run of operations can
//! produce — whatever their inputs and outcomes — is well-formed, and
//! `lemma_wf_traversal` shows that well-formedness is what the protocol
//! promises observers: the backward walk from the head visits every live
//! post exactly once and then stops at the sentinel.
//! `lemma_reachable_traversal` combines the two. `lemma_update_idempotent`
//! shows that repeating an update with the same text is a no-op.

use crate::model::{index_of_key, init_chain, lemma_index_of_key_bounds, lemma_index_of_key_first,
    valid_content, valid_title, ChainView, PostView};
use crate::ops::{create_post_spec, delete_latest_post_spec, delete_post_spec,
    lemma_create_post_spec_wf, lemma_delete_latest_post_spec_wf, lemma_delete_post_spec_wf,
    lemma_update_post_spec_wf, update_post_spec};
use crate::records::{BlogError, PostEvent};
use vstd::prelude::*;

verus! {

/// One step of the backward walk: the live record stored under `key`, if any.
pub open spec fn lookup(posts: Seq<(u64, PostView)>, key: u64) -> Option<PostView> {
    if index_of_key(posts, key) >= 0 {
        Some(posts[index_of_key(posts, key)].1)
    } else {
        None
    }
}

/// The addresses visited by walking backward from `cur`, following each
/// record's `pre_post_key`, for at most `fuel` steps. The walk stops at the
/// sentinel, at an address with no live record, or when the budget runs out.
pub open spec fn trace_from(posts: Seq<(u64, PostView)>, cur: Option<u64>, fuel: nat) -> Seq<u64>
    decreases fuel,
{
    if fuel == 0 {
        Seq::empty()
    } else {
        match cur {
            None => Seq::empty(),
            Some(k) => match lookup(posts, k) {
                None => seq![k],
                Some(p) => seq![k] + trace_from(posts, p.pre_post_key, (fuel - 1) as nat),
            },
        }
    }
}

/// The link that leads into position `i`: the head for 0, the stored backward
/// link of the record above otherwise, the sentinel past the end.
pub open spec fn link_at(v: ChainView, i: int) -> Option<u64> {
    if i == v.posts.len() {
        None
    } else {
        Some(v.posts[i].0)
    }
}

/// In a well-formed chain, the walk that starts at position `i`'s address
/// visits exactly the addresses from `i` on, in order.
proof fn lemma_trace_suffix(v: ChainView, i: int, fuel: nat)
    requires
        v.wf(),
        0 <= i <= v.posts.len(),
        fuel >= v.posts.len() - i,
    ensures
        trace_from(v.posts, link_at(v, i), fuel) == v.keys().subrange(i, v.posts.len() as int),
    decreases v.posts.len() - i,
{
    let n = v.posts.len() as int;
    if i == n {
        assert(v.keys().subrange(i, n) =~= Seq::<u64>::empty());
    } else {
        let k = v.posts[i].0;
        assert forall|m: int| 0 <= m < i implies v.posts[m].0 != k by {
            assert(v.posts[m].0 != v.posts[i].0);
        }
        lemma_index_of_key_first(v.posts, k, i);
        assert(v.linked_at(i));
        lemma_trace_suffix(v, i + 1, (fuel - 1) as nat);
        assert(trace_from(v.posts, link_at(v, i), fuel) =~= v.keys().subrange(i, n));
    }
}

/// Chain well-formedness, as the observer sees it: with any step budget of at
/// least the number of live posts, the backward walk from the head yields
/// exactly the live addresses in chain order — so it reaches the sentinel in
/// exactly as many steps as there are live posts, visiting no address twice.
pub proof fn lemma_wf_traversal(v: ChainView, fuel: nat)
    requires
        v.wf(),
        fuel >= v.len(),
    ensures
        trace_from(v.posts, v.head, fuel) == v.keys(),
        trace_from(v.posts, v.head, fuel).len() == v.len(),
        trace_from(v.posts, v.head, fuel).no_duplicates(),
{
    let n = v.posts.len() as int;
    assert(v.head == link_at(v, 0));
    lemma_trace_suffix(v, 0, fuel);
    assert(v.keys().subrange(0, n) =~= v.keys());
    assert forall|i: int, j: int|
        0 <= i < v.keys().len() && 0 <= j < v.keys().len() && i != j implies v.keys()[i]
        != v.keys()[j] by {
        if i < j {
            assert(v.posts[i].0 != v.posts[j].0);
        } else {
            assert(v.posts[j].0 != v.posts[i].0);
        }
    }
}

/// One protocol step: some operation, with some inputs, carries `v` to `w`.
pub open spec fn is_step(v: ChainView, w: ChainView) -> bool {
    ||| exists|ua: u64, uk: u64, t: Seq<char>, c: Seq<char>, a: u64, ts: u64, k: u64|
        w == #[trigger] create_post_spec(v, ua, uk, t, c, a, ts, k).0
    ||| exists|k: u64, t: Seq<char>, c: Seq<char>, a: u64|
        w == #[trigger] update_post_spec(v, k, t, c, a).0
    ||| exists|k: u64, nk: u64, a: u64| w == #[trigger] delete_post_spec(v, k, nk, a).0
    ||| exists|k: u64, a: u64| w == #[trigger] delete_latest_post_spec(v, k, a).0
}

/// A step from a well-formed state leaves the chain well-formed.
pub proof fn lemma_step_wf(v: ChainView, w: ChainView)
    requires
        v.wf(),
        is_step(v, w),
    ensures
        w.wf(),
{
    if exists|ua: u64, uk: u64, t: Seq<char>, c: Seq<char>, a: u64, ts: u64, k: u64|
        w == #[trigger] create_post_spec(v, ua, uk, t, c, a, ts, k).0 {
        let (ua, uk, t, c, a, ts, k) = choose|
            ua: u64,
            uk: u64,
            t: Seq<char>,
            c: Seq<char>,
            a: u64,
            ts: u64,
            k: u64,
        | w == create_post_spec(v, ua, uk, t, c, a, ts, k).0;
        lemma_create_post_spec_wf(v, ua, uk, t, c, a, ts, k);
    } else if exists|k: u64, t: Seq<char>, c: Seq<char>, a: u64|
        w == #[trigger] update_post_spec(v, k, t, c, a).0 {
        let (k, t, c, a) = choose|k: u64, t: Seq<char>, c: Seq<char>, a: u64|
            w == update_post_spec(v, k, t, c, a).0;
        lemma_update_post_spec_wf(v, k, t, c, a);
    } else if exists|k: u64, nk: u64, a: u64| w == #[trigger] delete_post_spec(v, k, nk, a).0 {
        let (k, nk, a) = choose|k: u64, nk: u64, a: u64| w == delete_post_spec(v, k, nk, a).0;
        lemma_delete_post_spec_wf(v, k, nk, a);
    } else {
        let (k, a) = choose|k: u64, a: u64| w == delete_latest_post_spec(v, k, a).0;
        lemma_delete_latest_post_spec_wf(v, k, a);
    }
}

/// A run of the protocol: a fresh blog followed by the states that a
/// sequence of operations, whatever their inputs and outcomes, produced.
pub open spec fn is_run(states: Seq<ChainView>) -> bool {
    &&& states.len() > 0
    &&& (exists|authority: u64| states[0] == init_chain(authority))
    &&& (forall|i: int| 0 <= i < states.len() - 1 ==> #[trigger] is_step(states[i], states[i + 1]))
}

/// A chain state is reachable when some finite run of operations, starting
/// from a fresh blog, ends in it.
pub open spec fn reachable(v: ChainView) -> bool {
    exists|states: Seq<ChainView>| #[trigger] is_run(states) && states.last() == v
}

proof fn lemma_run_wf(states: Seq<ChainView>, i: int)
    requires
        is_run(states),
        0 <= i < states.len(),
    ensures
        states[i].wf(),
    decreases i,
{
    if i == 0 {
        let authority = choose|authority: u64| states[0] == init_chain(authority);
        assert(states[0] == init_chain(authority));
    } else {
        let j = i - 1;
        lemma_run_wf(states, j);
        assert(is_step(states[j], states[j + 1]));
        lemma_step_wf(states[j], states[i]);
    }
}

/// Every reachable state is well-formed: a fresh blog is, and every
/// operation, whatever its inputs and outcome, preserves it.
pub proof fn lemma_reachable_wf(v: ChainView)
    requires
        reachable(v),
    ensures
        v.wf(),
{
    let states = choose|states: Seq<ChainView>| #[trigger] is_run(states) && states.last() == v;
    lemma_run_wf(states, states.len() - 1);
}

/// Chain well-formedness of every reachable state, as the observer sees it:
/// the backward walk from the head reaches the sentinel in exactly as many
/// steps as there are live posts, visiting every live address exactly once.
pub proof fn lemma_reachable_traversal(v: ChainView, fuel: nat)
    requires
        reachable(v),
        fuel >= v.len(),
    ensures
        trace_from(v.posts, v.head, fuel) == v.keys(),
        trace_from(v.posts, v.head, fuel).len() == v.len(),
        trace_from(v.posts, v.head, fuel).no_duplicates(),
{
    lemma_reachable_wf(v);
    lemma_wf_traversal(v, fuel);
}

/// Delete-Interior refuses a mismatched pair: when both supplied records are
/// live, the requester owns the record to remove, and the supplied
/// successor's backward link does not name that record, the operation yields
/// `ConsistencyError` and leaves every record unchanged. The ownership
/// condition is needed because the ownership check comes first: a requester
/// who is not the owner is refused with `AuthorizationError`, mismatched pair
/// or not.
pub proof fn lemma_delete_rejects_mismatched_pair(
    v: ChainView,
    post_key: u64,
    next_post_key: u64,
    authority: u64,
)
    requires
        v.wf(),
        v.contains_key(post_key),
        v.contains_key(next_post_key),
        authority == v.post(post_key).authority,
        v.post(next_post_key).pre_post_key != Some(post_key),
    ensures
        delete_post_spec(v, post_key, next_post_key, authority) == (
            v,
            Err::<PostEvent, BlogError>(BlogError::ConsistencyError),
        ),
{
}

/// Update idempotence: applying Update twice with the same title and content
/// yields the same final state and the same outcome as applying it once.
pub proof fn lemma_update_idempotent(
    v: ChainView,
    post_key: u64,
    title: Seq<char>,
    content: Seq<char>,
    authority: u64,
)
    requires
        v.wf(),
    ensures
        ({
            let once = update_post_spec(v, post_key, title, content, authority);
            update_post_spec(once.0, post_key, title, content, authority) == once
        }),
{
    lemma_index_of_key_bounds(v.posts, post_key);
    let once = update_post_spec(v, post_key, title, content, authority);
    if v.contains_key(post_key) && authority == v.post(post_key).authority && valid_title(title)
        && valid_content(content) {
        let i = v.index_of_key(post_key);
        let w = once.0;
        assert forall|m: int| 0 <= m < i implies w.posts[m].0 != post_key by {
            assert(v.posts[m].0 != v.posts[i].0);
        }
        lemma_index_of_key_first(w.posts, post_key, i);
        assert(w.posts.update(i, w.posts[i]) =~= w.posts);
        assert(update_post_spec(w, post_key, title, content, authority).0 =~= w);
    }
}

} // verus!

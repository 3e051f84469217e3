//! Random identifiers that are fresh for the table they will key.

use vstd::prelude::*;

use crate::data::{ModItem, Reply, Thread};
use crate::ids::{ModItemID, ReplyID, ThreadID};
use crate::table::Table;

verus! {

/// Length of an entity identifier.
pub const ID_LEN: usize = 24;

/// How many draws an identifier gets before generation gives up.
pub const MAX_DRAWS: usize = 32;

/// An ASCII letter or digit.
pub open spec fn is_alphanumeric(c: char) -> bool {
    ('a' <= c && c <= 'z') || ('A' <= c && c <= 'Z') || ('0' <= c && c <= '9')
}

/// `s` has `len` characters, each an ASCII letter or digit.
pub open spec fn is_random_id(s: Seq<char>, len: nat) -> bool {
    s.len() == len && forall|i: int| 0 <= i < s.len() ==> is_alphanumeric(#[trigger] s[i])
}

/// No key of the map has the shape of a drawn identifier of `len`
/// characters, so the first draw is fresh whatever it gives.
pub open spec fn no_key_shaped<V>(m: Map<Seq<char>, V>, len: nat) -> bool {
    forall|k: Seq<char>| #[trigger] m.contains_key(k) ==> !is_random_id(k, len)
}

/// Relies on rand's `Alphanumeric` distribution sampled by
/// `DistString::sample_string` on the thread-local generator: `len`
/// characters, each drawn from A-Z, a-z and 0-9.
#[verifier::external_body]
pub(crate) fn random_alphanumeric(len: usize) -> (r: String)
    ensures
        is_random_id(r@, len as nat),
{
    rand::distributions::DistString::sample_string(
        &rand::distributions::Alphanumeric,
        &mut rand::thread_rng(),
        len,
    )
}

/// Draws identifiers of `len` characters until one is not a key of `taken`.
/// Gives up, with `None`, after `MAX_DRAWS` draws that all collided.
pub fn gen_id<V>(taken: &Table<V>, len: usize) -> (r: Option<String>)
    requires
        taken.wf(),
    ensures
        match r {
            Some(s) => !taken@.contains_key(s@) && is_random_id(s@, len as nat),
            None => true,
        },
        no_key_shaped(taken@, len as nat) ==> r is Some,
{
    let mut draws: usize = 0;
    while draws < MAX_DRAWS
        invariant
            taken.wf(),
            draws > 0 ==> !no_key_shaped(taken@, len as nat),
        decreases MAX_DRAWS - draws,
    {
        let id = random_alphanumeric(len);
        if !taken.contains_key(&id) {
            return Some(id);
        }
        draws = draws + 1;
    }
    None
}

/// A fresh reply identifier, if one was found.
pub fn gen_reply_id(replies: &Table<Reply>) -> (r: Option<ReplyID>)
    requires
        replies.wf(),
    ensures
        match r {
            Some(id) => !replies@.contains_key(id@) && is_random_id(id@, ID_LEN as nat),
            None => true,
        },
        no_key_shaped(replies@, ID_LEN as nat) ==> r is Some,
{
    match gen_id(replies, ID_LEN) {
        Some(s) => Some(ReplyID(s)),
        None => None,
    }
}

/// A fresh thread identifier, if one was found.
pub fn gen_thread_id(threads: &Table<Thread>) -> (r: Option<ThreadID>)
    requires
        threads.wf(),
    ensures
        match r {
            Some(id) => !threads@.contains_key(id@) && is_random_id(id@, ID_LEN as nat),
            None => true,
        },
        no_key_shaped(threads@, ID_LEN as nat) ==> r is Some,
{
    match gen_id(threads, ID_LEN) {
        Some(s) => Some(ThreadID(s)),
        None => None,
    }
}

/// A fresh moderation item identifier, if one was found.
pub fn gen_inspection_id(items: &Table<ModItem>) -> (r: Option<ModItemID>)
    requires
        items.wf(),
    ensures
        match r {
            Some(id) => !items@.contains_key(id@) && is_random_id(id@, ID_LEN as nat),
            None => true,
        },
        no_key_shaped(items@, ID_LEN as nat) ==> r is Some,
{
    match gen_id(items, ID_LEN) {
        Some(s) => Some(ModItemID(s)),
        None => None,
    }
}

proof fn lemma_taken_grows(ids: Seq<Seq<char>>, taken: Seq<Set<Seq<char>>>, i: int, j: int)
    requires
        taken.len() == ids.len() + 1,
        forall|k: int|
            0 <= k < ids.len() ==> #[trigger] taken[k].insert(ids[k]).subset_of(taken[k + 1]),
        0 <= i <= j < taken.len(),
    ensures
        taken[i].subset_of(taken[j]),
    decreases j - i,
{
    if i < j {
        lemma_taken_grows(ids, taken, i, j - 1);
        let k = j - 1;
        assert(taken[k].insert(ids[k]).subset_of(taken[k + 1]));
        assert forall|x: Seq<char>| taken[i].contains(x) implies taken[j].contains(x) by {
            assert(taken[k].insert(ids[k]).contains(x));
        }
    }
}

/// Identifiers generated one after another, each drawn fresh for the keys
/// taken at its draw and then recorded among them, are pairwise distinct:
/// `taken[k]` is the set of keys at the `k`-th draw, which gave `ids[k]`.
pub proof fn lemma_sequential_ids_distinct(ids: Seq<Seq<char>>, taken: Seq<Set<Seq<char>>>)
    requires
        taken.len() == ids.len() + 1,
        forall|k: int| 0 <= k < ids.len() ==> !(#[trigger] taken[k]).contains(ids[k]),
        forall|k: int|
            0 <= k < ids.len() ==> #[trigger] taken[k].insert(ids[k]).subset_of(taken[k + 1]),
    ensures
        ids.no_duplicates(),
{
    assert forall|a: int, b: int|
        0 <= a < ids.len() && 0 <= b < ids.len() && a != b implies ids[a] != ids[b] by {
        let (lo, hi) = if a < b { (a, b) } else { (b, a) };
        lemma_taken_grows(ids, taken, lo + 1, hi);
        assert(taken[lo].insert(ids[lo]).subset_of(taken[lo + 1]));
        assert(taken[lo + 1].contains(ids[lo]));
        assert(!taken[hi].contains(ids[hi]));
    }
}

} // verus!

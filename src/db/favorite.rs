//! Favorite topics and threads: weak references from a user, toggled
//! idempotently.

use vstd::prelude::*;

use super::{
    DB, DBView, StoreOp, StoreOpView, is_last_index, lemma_remove_last, remove_last,
};
use crate::data::{UserView, thread_ids, topic_ids};
use crate::ids::{ThreadID, TopicID, UserID};

verus! {

/// A favorites list after a toggle: asking for a favorite appends `x` unless
/// it is already there; asking to drop one removes the last occurrence of `x`.
pub open spec fn toggled(s: Seq<Seq<char>>, x: Seq<char>, favorite: bool) -> Seq<Seq<char>> {
    if favorite {
        if s.contains(x) {
            s
        } else {
            s.push(x)
        }
    } else {
        remove_last(s, x)
    }
}

/// How many times `x` occurs in `s`.
pub open spec fn occurrences(s: Seq<Seq<char>>, x: Seq<char>) -> nat
    decreases s.len(),
{
    if s.len() == 0 {
        0
    } else {
        occurrences(s.drop_last(), x) + if s.last() == x {
            1nat
        } else {
            0nat
        }
    }
}

proof fn lemma_occurrences_zero(s: Seq<Seq<char>>, x: Seq<char>)
    ensures
        occurrences(s, x) == 0 <==> !s.contains(x),
    decreases s.len(),
{
    if s.len() > 0 {
        lemma_occurrences_zero(s.drop_last(), x);
        if s.drop_last().contains(x) {
            let j = choose|j: int| 0 <= j < s.drop_last().len() && s.drop_last()[j] == x;
            assert(s[j] == x);
        }
        if s.contains(x) && s.last() != x {
            let j = choose|j: int| 0 <= j < s.len() && s[j] == x;
            assert(s.drop_last()[j] == x);
        }
        if s.last() == x {
            assert(s[s.len() - 1] == x);
        }
    }
}

/// Marking the same entry as favorite twice leaves it in the list exactly
/// once, provided it was there at most once before; the second call changes
/// nothing.
pub proof fn lemma_favorite_twice(s: Seq<Seq<char>>, x: Seq<char>)
    requires
        occurrences(s, x) <= 1,
    ensures
        toggled(toggled(s, x, true), x, true) == toggled(s, x, true),
        occurrences(toggled(toggled(s, x, true), x, true), x) == 1,
{
    lemma_occurrences_zero(s, x);
    if !s.contains(x) {
        assert(s.push(x).drop_last() =~= s);
        assert(s.push(x)[s.len() as int] == x);
        assert(s.push(x).contains(x));
    }
}

/// Where `x` last occurs in `v`.
fn last_topic_position(v: &Vec<TopicID>, x: &TopicID) -> (r: Option<usize>)
    ensures
        match r {
            Some(i) => is_last_index(topic_ids(v@), x@, i as int),
            None => !topic_ids(v@).contains(x@),
        },
{
    let mut i: usize = v.len();
    while i > 0
        invariant
            i <= v@.len(),
            forall|j: int| i <= j < v@.len() ==> topic_ids(v@)[j] != x@,
        decreases i,
    {
        i = i - 1;
        if v[i].0 == x.0 {
            return Some(i);
        }
    }
    None
}

/// Where `x` last occurs in `v`.
fn last_thread_position(v: &Vec<ThreadID>, x: &ThreadID) -> (r: Option<usize>)
    ensures
        match r {
            Some(i) => is_last_index(thread_ids(v@), x@, i as int),
            None => !thread_ids(v@).contains(x@),
        },
{
    let mut i: usize = v.len();
    while i > 0
        invariant
            i <= v@.len(),
            forall|j: int| i <= j < v@.len() ==> thread_ids(v@)[j] != x@,
        decreases i,
    {
        i = i - 1;
        if v[i].0 == x.0 {
            return Some(i);
        }
    }
    None
}

impl DB {
    /// Marks the topic as a favorite of the user, or unmarks it. Gives
    /// `false`, changing nothing, if there is no such user.
    pub fn favorite_topic(&mut self, user_id: &UserID, topic: &TopicID, favorite: bool) -> (r: bool)
        requires
            old(self).wf(),
        ensures
            final(self).wf(),
            r == old(self)@.users.contains_key(user_id@),
            r ==> final(self)@ == (DBView {
                users: old(self)@.users.insert(
                    user_id@,
                    UserView {
                        fav_topics: toggled(old(self)@.users[user_id@].fav_topics, topic@, favorite),
                        ..old(self)@.users[user_id@]
                    },
                ),
                pending: old(self)@.pending.push(StoreOpView::StoreUser(user_id@)),
                ..old(self)@
            }),
            !r ==> final(self)@ == old(self)@,
    {
        let mut user = match self.users.remove(&user_id.0) {
            Some(u) => u,
            None => return false,
        };
        let ghost u0 = user@;
        let i = last_topic_position(&user.fav_topics, topic);
        if favorite {
            if i.is_none() {
                user.fav_topics.push(topic.clone());
                assert(user@.fav_topics =~= u0.fav_topics.push(topic@));
            }
        } else if let Some(i) = i {
            proof {
                lemma_remove_last(u0.fav_topics, topic@, i as int);
            }
            user.fav_topics.remove(i);
            assert(user@.fav_topics =~= u0.fav_topics.remove(i as int));
        }
        assert(user@ == (UserView { fav_topics: toggled(u0.fav_topics, topic@, favorite), ..u0 }));
        self.users.insert(user_id.0.clone(), user);
        self.pending.push(StoreOp::StoreUser(user_id.clone()));
        assert(self@.users =~= old(self)@.users.insert(
            user_id@,
            UserView { fav_topics: toggled(u0.fav_topics, topic@, favorite), ..u0 },
        ));
        assert(self@.pending =~= old(self)@.pending.push(StoreOpView::StoreUser(user_id@)));
        true
    }

    /// Marks the thread as a favorite of the user, or unmarks it. Gives
    /// `false`, changing nothing, if there is no such user.
    pub fn favorite_thread(&mut self, user_id: &UserID, thread: &ThreadID, favorite: bool) -> (r:
        bool)
        requires
            old(self).wf(),
        ensures
            final(self).wf(),
            r == old(self)@.users.contains_key(user_id@),
            r ==> final(self)@ == (DBView {
                users: old(self)@.users.insert(
                    user_id@,
                    UserView {
                        fav_threads: toggled(
                            old(self)@.users[user_id@].fav_threads,
                            thread@,
                            favorite,
                        ),
                        ..old(self)@.users[user_id@]
                    },
                ),
                pending: old(self)@.pending.push(StoreOpView::StoreUser(user_id@)),
                ..old(self)@
            }),
            !r ==> final(self)@ == old(self)@,
    {
        let mut user = match self.users.remove(&user_id.0) {
            Some(u) => u,
            None => return false,
        };
        let ghost u0 = user@;
        let i = last_thread_position(&user.fav_threads, thread);
        if favorite {
            if i.is_none() {
                user.fav_threads.push(thread.clone());
                assert(user@.fav_threads =~= u0.fav_threads.push(thread@));
            }
        } else if let Some(i) = i {
            proof {
                lemma_remove_last(u0.fav_threads, thread@, i as int);
            }
            user.fav_threads.remove(i);
            assert(user@.fav_threads =~= u0.fav_threads.remove(i as int));
        }
        assert(user@ == (UserView { fav_threads: toggled(u0.fav_threads, thread@, favorite), ..u0 }));
        self.users.insert(user_id.0.clone(), user);
        self.pending.push(StoreOp::StoreUser(user_id.clone()));
        assert(self@.users =~= old(self)@.users.insert(
            user_id@,
            UserView { fav_threads: toggled(u0.fav_threads, thread@, favorite), ..u0 },
        ));
        assert(self@.pending =~= old(self)@.pending.push(StoreOpView::StoreUser(user_id@)));
        true
    }

    /// Whether the user has the topic among its favorites; `false` if there
    /// is no such user.
    pub fn is_topic_favorite(&self, user: &UserID, topic: &TopicID) -> (r: bool)
        requires
            self.wf(),
        ensures
            r == (self@.users.contains_key(user@) && self@.users[user@].fav_topics.contains(topic@)),
    {
        match self.users.get(&user.0) {
            Some(u) => last_topic_position(&u.fav_topics, topic).is_some(),
            None => false,
        }
    }

    /// Whether the user has the thread among its favorites; `false` if there
    /// is no such user.
    pub fn is_thread_favorite(&self, user: &UserID, thread: &ThreadID) -> (r: bool)
        requires
            self.wf(),
        ensures
            r == (self@.users.contains_key(user@) && self@.users[user@].fav_threads.contains(thread@)),
    {
        match self.users.get(&user.0) {
            Some(u) => last_thread_position(&u.fav_threads, thread).is_some(),
            None => false,
        }
    }
}

} // verus!

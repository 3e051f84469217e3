//! Ordered views over the repository: a topic's threads by recent activity.

use vstd::prelude::*;
use vstd::seq_lib::{lemma_multiset_commutative, to_multiset_build, to_multiset_insert};

use super::{DB, DBView};
use crate::data::{Timestamp, reply_ids, thread_ids};
use crate::ids::{ReplyID, ThreadID, TopicID, UserID};

verus! {

broadcast use {vstd::seq_lib::group_to_multiset_ensures, vstd::seq_lib::lemma_seq_contains_after_push};

/// The pairs, in order, of the thread `thread` with each reply of `rs` that
/// exists and that `user` wrote.
pub open spec fn thread_pairs(
    db: DBView,
    user: Seq<char>,
    thread: Seq<char>,
    rs: Seq<Seq<char>>,
) -> Seq<(Seq<char>, Seq<char>)>
    decreases rs.len(),
{
    if rs.len() == 0 {
        Seq::empty()
    } else {
        let prev = thread_pairs(db, user, thread, rs.drop_last());
        if db.replies.contains_key(rs.last()) && db.replies[rs.last()].user == user {
            prev.push((thread, rs.last()))
        } else {
            prev
        }
    }
}

/// The pairs of `user`'s replies in the threads `ts` that exist, thread by
/// thread, each thread's replies in its order.
pub open spec fn threads_pairs(db: DBView, user: Seq<char>, ts: Seq<Seq<char>>) -> Seq<
    (Seq<char>, Seq<char>),
>
    decreases ts.len(),
{
    if ts.len() == 0 {
        Seq::empty()
    } else {
        threads_pairs(db, user, ts.drop_last()) + if db.threads.contains_key(ts.last()) {
            thread_pairs(db, user, ts.last(), db.threads[ts.last()].replies)
        } else {
            Seq::empty()
        }
    }
}

/// The pairs of `user`'s replies in the topics `order`, topic by topic, each
/// topic's threads in its order.
pub open spec fn topics_pairs(db: DBView, user: Seq<char>, order: Seq<Seq<char>>) -> Seq<
    (Seq<char>, Seq<char>),
>
    decreases order.len(),
{
    if order.len() == 0 {
        Seq::empty()
    } else {
        topics_pairs(db, user, order.drop_last()) + if db.topics.contains_key(order.last()) {
            threads_pairs(db, user, db.topics[order.last()].threads)
        } else {
            Seq::empty()
        }
    }
}

/// The identifier texts of each pair.
pub open spec fn pair_views(v: Seq<(ThreadID, ReplyID)>) -> Seq<(Seq<char>, Seq<char>)> {
    v.map_values(|p: (ThreadID, ReplyID)| (p.0@, p.1@))
}

/// When the thread's most recent reply was written: `None` if the thread does
/// not exist, has no reply, or its last reply no longer exists.
pub open spec fn last_reply_of(db: DBView, thread: Seq<char>) -> Option<Timestamp> {
    if db.threads.contains_key(thread) && db.threads[thread].replies.len() > 0
        && db.replies.contains_key(db.threads[thread].replies.last()) {
        Some(db.replies[db.threads[thread].replies.last()].created)
    } else {
        None
    }
}

/// A thread whose last reply came at `a` may stand before one whose last
/// reply came at `b`: more recent first, threads without replies last.
pub open spec fn may_precede(a: Option<Timestamp>, b: Option<Timestamp>) -> bool {
    match (a, b) {
        (Some(x), Some(y)) => x.millis >= y.millis,
        (Some(_), None) => true,
        (None, None) => true,
        (None, Some(_)) => false,
    }
}

/// Whether a thread has no last reply to sort by.
pub open spec fn unanswered_in(db: DBView) -> spec_fn(Seq<char>) -> bool {
    |t: Seq<char>| last_reply_of(db, t) is None
}

impl DB {
    /// When the thread's most recent reply was written, if it has one.
    pub fn last_reply_time(&self, thread_id: &ThreadID) -> (r: Option<Timestamp>)
        requires
            self.wf(),
        ensures
            r == last_reply_of(self@, thread_id@),
    {
        match self.threads.get(&thread_id.0) {
            Some(t) => {
                if t.replies.len() == 0 {
                    return None;
                }
                let last = &t.replies[t.replies.len() - 1];
                match self.replies.get(&last.0) {
                    Some(p) => Some(p.created),
                    None => None,
                }
            },
            None => None,
        }
    }

    /// The threads of the topic, most recently answered first; threads
    /// without replies come last, in the topic's order. `None` if there is no
    /// such topic.
    pub fn get_sorted_threads(&self, topic: &TopicID) -> (r: Option<Vec<ThreadID>>)
        requires
            self.wf(),
        ensures
            match r {
                Some(v) => {
                    let ids = thread_ids(v@);
                    let listed = self@.topics[topic@].threads;
                    &&& self@.topics.contains_key(topic@)
                    &&& ids.to_multiset() == listed.to_multiset()
                    &&& forall|i: int, j: int|
                        0 <= i < j < ids.len() ==> may_precede(
                            last_reply_of(self@, ids[i]),
                            last_reply_of(self@, ids[j]),
                        )
                    &&& ids.subrange(
                        ids.len() - listed.filter(unanswered_in(self@)).len(),
                        ids.len() as int,
                    ) == listed.filter(unanswered_in(self@))
                },
                None => !self@.topics.contains_key(topic@),
            },
    {
        let listed = match self.topics.get(&topic.0) {
            Some(t) => &t.threads,
            None => return None,
        };
        let ghost db = self@;
        let ghost all = thread_ids(listed@);
        let ghost none_pred = unanswered_in(db);
        let mut timed: Vec<ThreadID> = Vec::new();
        let mut untimed: Vec<ThreadID> = Vec::new();
        let mut i: usize = 0;
        proof {
            assert(all.take(0) =~= Seq::<Seq<char>>::empty());
            assert(thread_ids(timed@) =~= Seq::<Seq<char>>::empty());
            assert(thread_ids(untimed@) =~= Seq::<Seq<char>>::empty());
        }
        while i < listed.len()
            invariant
                self.wf(),
                db == self@,
                all == thread_ids(listed@),
                none_pred == unanswered_in(db),
                i <= listed@.len(),
                forall|a: int|
                    0 <= a < timed@.len() ==> last_reply_of(db, #[trigger] thread_ids(timed@)[a]) is Some,
                forall|a: int, b: int|
                    0 <= a < b < timed@.len() ==> last_reply_of(db, #[trigger] thread_ids(timed@)[a])->0.millis
                        >= last_reply_of(db, #[trigger] thread_ids(timed@)[b])->0.millis,
                forall|a: int|
                    0 <= a < untimed@.len() ==> last_reply_of(db, #[trigger] thread_ids(untimed@)[a]) is None,
                thread_ids(timed@).to_multiset().add(thread_ids(untimed@).to_multiset()) == all.take(
                    i as int,
                ).to_multiset(),
                thread_ids(untimed@) == all.take(i as int).filter(none_pred),
            decreases listed@.len() - i,
        {
            let id = &listed[i];
            let ghost before_t = thread_ids(timed@);
            let ghost before_u = thread_ids(untimed@);
            proof {
                assert(all.take(i + 1) =~= all.take(i as int).push(id@));
                to_multiset_build(all.take(i as int), id@);
                all.take(i as int).lemma_filter_push(id@, none_pred);
            }
            match self.last_reply_time(id) {
                Some(t) => {
                    assert(!none_pred(id@));
                    assert(thread_ids(untimed@) == all.take(i + 1).filter(none_pred));
                    let mut p: usize = 0;
                    while p < timed.len()
                        invariant
                            self.wf(),
                            db == self@,
                            p <= timed@.len(),
                            thread_ids(timed@) == before_t,
                            forall|a: int|
                                0 <= a < timed@.len() ==> last_reply_of(db, #[trigger] thread_ids(timed@)[a]) is Some,
                            forall|a: int|
                                0 <= a < p ==> last_reply_of(db, #[trigger] thread_ids(timed@)[a])->0.millis
                                    >= t.millis,
                        ensures
                            p <= timed@.len(),
                            thread_ids(timed@) == before_t,
                            forall|a: int|
                                0 <= a < p ==> last_reply_of(db, #[trigger] thread_ids(timed@)[a])->0.millis
                                    >= t.millis,
                            p < timed@.len() ==> last_reply_of(db, thread_ids(timed@)[p as int])->0.millis
                                < t.millis,
                        decreases timed@.len() - p,
                    {
                        match self.last_reply_time(&timed[p]) {
                            Some(u) => {
                                if u.millis < t.millis {
                                    break;
                                }
                            },
                            None => {},
                        }
                        p = p + 1;
                    }
                    let ghost old_timed = timed@;
                    timed.insert(p, id.clone());
                    proof {
                        assert(thread_ids(timed@) =~= before_t.insert(p as int, id@));
                        to_multiset_insert(before_t, p as int, id@);
                        let tv = thread_ids(timed@);
                        assert forall|a: int| 0 <= a < tv.len() implies last_reply_of(db, #[trigger] tv[a]) is Some by {
                            if a > p {
                                assert(tv[a] == before_t[a - 1]);
                            } else if a < p {
                                assert(tv[a] == before_t[a]);
                            }
                        }
                        assert forall|a: int, b: int|
                            0 <= a < b < tv.len() implies last_reply_of(db, #[trigger] tv[a])->0.millis
                            >= last_reply_of(db, #[trigger] tv[b])->0.millis by {
                            if p < before_t.len() {
                                assert(last_reply_of(db, before_t[p as int])->0.millis < t.millis);
                            }
                            if a < p && b < p {
                                assert(tv[a] == before_t[a] && tv[b] == before_t[b]);
                            } else if a < p && b == p {
                                assert(tv[a] == before_t[a]);
                            } else if a < p {
                                assert(tv[a] == before_t[a] && tv[b] == before_t[b - 1]);
                            } else if a == p {
                                assert(tv[b] == before_t[b - 1]);
                                if b - 1 > p {
                                    assert(last_reply_of(db, before_t[p as int])->0.millis
                                        >= last_reply_of(db, before_t[b - 1])->0.millis);
                                }
                            } else {
                                assert(tv[a] == before_t[a - 1] && tv[b] == before_t[b - 1]);
                            }
                        }
                    }
                },
                None => {
                    assert(none_pred(id@));
                    untimed.push(id.clone());
                    proof {
                        assert(thread_ids(untimed@) =~= before_u.push(id@));
                        to_multiset_build(before_u, id@);
                        let uv = thread_ids(untimed@);
                        assert forall|a: int| 0 <= a < uv.len() implies last_reply_of(db, #[trigger] uv[a]) is None by {
                            if a < before_u.len() {
                                assert(uv[a] == before_u[a]);
                            }
                        }
                    }
                },
            }
            i = i + 1;
        }
        let ghost tv = thread_ids(timed@);
        let ghost uv = thread_ids(untimed@);
        timed.append(&mut untimed);
        proof {
            let rv = thread_ids(timed@);
            assert(rv =~= tv + uv);
            assert(all.take(all.len() as int) =~= all);
            lemma_multiset_commutative(tv, uv);
            assert forall|a: int, b: int|
                0 <= a < b < rv.len() implies may_precede(
                last_reply_of(db, rv[a]),
                last_reply_of(db, rv[b]),
            ) by {
                if b < tv.len() {
                    assert(rv[a] == tv[a] && rv[b] == tv[b]);
                } else if a < tv.len() {
                    assert(rv[a] == tv[a] && rv[b] == uv[b - tv.len()]);
                } else {
                    assert(rv[a] == uv[a - tv.len()] && rv[b] == uv[b - tv.len()]);
                }
            }
            assert(rv.subrange(rv.len() - uv.len(), rv.len() as int) =~= uv);
        }
        Some(timed)
    }

    /// Every reply the user wrote, with the thread that lists it, found by
    /// going through the topics in the order they are kept, each topic's
    /// threads in order, and each existing thread's replies in order;
    /// replies or threads that no longer exist are skipped.
    pub fn collect_replies_for_user(&self, user_id: &UserID) -> (r: Vec<(ThreadID, ReplyID)>)
        requires
            self.wf(),
        ensures
            exists|order: Seq<Seq<char>>|
                {
                    &&& order.no_duplicates()
                    &&& forall|k: Seq<char>| #[trigger] order.contains(k) <==> self@.topics.contains_key(k)
                    &&& pair_views(r@) == topics_pairs(self@, user_id@, order)
                },
    {
        let ghost db = self@;
        let ghost u = user_id@;
        let ghost ks = self.topics.key_seq();
        proof {
            self.topics.lemma_keys();
        }
        let mut out: Vec<(ThreadID, ReplyID)> = Vec::new();
        let mut i: usize = 0;
        proof {
            assert(pair_views(out@) =~= topics_pairs(db, u, ks.take(0)));
        }
        while i < self.topics.len()
            invariant
                self.wf(),
                db == self@,
                u == user_id@,
                ks == self.topics.key_seq(),
                forall|k: Seq<char>| self.topics@.contains_key(k) <==> #[trigger] ks.contains(k),
                i <= ks.len(),
                pair_views(out@) == topics_pairs(db, u, ks.take(i as int)),
            decreases ks.len() - i,
        {
            let (tkey, topic) = self.topics.entry_at(i);
            let ghost tk = tkey@;
            let ghost tl = thread_ids(topic.threads@);
            let ghost before_topic = pair_views(out@);
            assert(tl == db.topics[tk].threads);
            let mut j: usize = 0;
            proof {
                assert(before_topic + threads_pairs(db, u, tl.take(0)) =~= before_topic);
            }
            while j < topic.threads.len()
                invariant
                    self.wf(),
                    db == self@,
                    u == user_id@,
                    tl == thread_ids(topic.threads@),
                    j <= tl.len(),
                    pair_views(out@) == before_topic + threads_pairs(db, u, tl.take(j as int)),
                decreases tl.len() - j,
            {
                let th_id = &topic.threads[j];
                let ghost thk = th_id@;
                let ghost before_thread = pair_views(out@);
                assert(tl[j as int] == thk);
                proof {
                    assert(tl.take(j + 1).drop_last() =~= tl.take(j as int));
                    assert(tl.take(j + 1).last() == thk);
                }
                match self.threads.get(&th_id.0) {
                    Some(th) => {
                        let ghost rl = reply_ids(th.replies@);
                        assert(rl == db.threads[thk].replies);
                        let mut k: usize = 0;
                        proof {
                            assert(before_thread + thread_pairs(db, u, thk, rl.take(0)) =~= before_thread);
                        }
                        while k < th.replies.len()
                            invariant
                                self.wf(),
                                db == self@,
                                u == user_id@,
                                thk == th_id@,
                                rl == reply_ids(th.replies@),
                                k <= rl.len(),
                                pair_views(out@) == before_thread + thread_pairs(db, u, thk, rl.take(k as int)),
                            decreases rl.len() - k,
                        {
                            let rid = &th.replies[k];
                            let ghost rk = rid@;
                            let ghost prev = pair_views(out@);
                            assert(rl[k as int] == rk);
                            assert(rl.take(k + 1).drop_last() =~= rl.take(k as int));
                            assert(rl.take(k + 1).last() == rk);
                            match self.replies.get(&rid.0) {
                                Some(p) => {
                                    if p.user.0 == user_id.0 {
                                        let pair = (th_id.clone(), rid.clone());
                                        assert(pair.0@ == thk && pair.1@ == rk);
                                        out.push(pair);
                                        assert(pair_views(out@) =~= prev.push((thk, rk)));
                                        assert(pair_views(out@) =~= before_thread + thread_pairs(
                                            db,
                                            u,
                                            thk,
                                            rl.take(k + 1),
                                        ));
                                    } else {
                                        assert(thread_pairs(db, u, thk, rl.take(k + 1)) == thread_pairs(
                                            db,
                                            u,
                                            thk,
                                            rl.take(k as int),
                                        ));
                                    }
                                },
                                None => {
                                    assert(thread_pairs(db, u, thk, rl.take(k + 1)) == thread_pairs(
                                        db,
                                        u,
                                        thk,
                                        rl.take(k as int),
                                    ));
                                },
                            }
                            k = k + 1;
                        }
                        proof {
                            assert(rl.take(rl.len() as int) =~= rl);
                            assert(pair_views(out@) =~= before_topic + threads_pairs(db, u, tl.take(j + 1)));
                        }
                    },
                    None => {
                        proof {
                            assert(threads_pairs(db, u, tl.take(j + 1)) =~= threads_pairs(db, u, tl.take(j as int)));
                        }
                    },
                }
                j = j + 1;
            }
            proof {
                assert(tl.take(tl.len() as int) =~= tl);
                assert(ks.take(i + 1).drop_last() =~= ks.take(i as int));
                assert(ks.take(i + 1).last() == tk);
                assert(pair_views(out@) =~= topics_pairs(db, u, ks.take(i + 1)));
            }
            i = i + 1;
        }
        proof {
            assert(ks.take(ks.len() as int) =~= ks);
            assert forall|k: Seq<char>| #[trigger] ks.contains(k) <==> self@.topics.contains_key(k) by {
                assert(self.topics@.contains_key(k) <==> self@.topics.contains_key(k));
            }
        }
        out
    }
}

} // verus!

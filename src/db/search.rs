//! Case-sensitive substring search over topic names and thread titles.

use vstd::prelude::*;

use super::DB;
use crate::data::{thread_ids, topic_ids};
use crate::ids::{ThreadID, TopicID};
use crate::table::lemma_not_in_prefix;

verus! {

broadcast use vstd::seq_lib::lemma_seq_contains_after_push;

/// `q` occurs in `t` as a run of consecutive characters.
pub open spec fn is_substring(q: Seq<char>, t: Seq<char>) -> bool {
    exists|i: int| 0 <= i && i + q.len() <= t.len() && #[trigger] t.subrange(i, i + q.len()) == q
}

/// Relies on std's `str::contains` with a `&str` pattern: whether the
/// pattern matches a sub-slice of the string.
#[verifier::external_body]
fn str_contains(t: &str, q: &str) -> (r: bool)
    ensures
        r == is_substring(q@, t@),
{
    t.contains(q)
}

impl DB {
    fn match_title_to_query(title: &str, query: &str) -> (r: bool)
        ensures
            r == is_substring(query@, title@),
    {
        str_contains(title, query)
    }

    /// The topics whose name contains `query`, each once, in no particular
    /// order.
    pub fn search_topics(&self, query: &str) -> (r: Vec<TopicID>)
        requires
            self.wf(),
        ensures
            topic_ids(r@).no_duplicates(),
            forall|k: Seq<char>|
                #[trigger] topic_ids(r@).contains(k) <==> (self@.topics.contains_key(k)
                    && is_substring(query@, k)),
    {
        let ghost ks = self.topics.key_seq();
        proof {
            self.topics.lemma_keys();
        }
        let mut found: Vec<TopicID> = Vec::new();
        let mut i: usize = 0;
        proof {
            assert(topic_ids(found@) =~= Seq::<Seq<char>>::empty());
        }
        while i < self.topics.len()
            invariant
                self.wf(),
                ks == self.topics.key_seq(),
                ks.no_duplicates(),
                forall|k: Seq<char>| self.topics@.contains_key(k) <==> #[trigger] ks.contains(k),
                i <= ks.len(),
                topic_ids(found@).no_duplicates(),
                forall|k: Seq<char>|
                    #[trigger] topic_ids(found@).contains(k) <==> (ks.take(i as int).contains(k)
                        && is_substring(query@, k)),
            decreases ks.len() - i,
        {
            let (key, _) = self.topics.entry_at(i);
            let ghost before = topic_ids(found@);
            proof {
                assert(ks.take(i + 1) =~= ks.take(i as int).push(key@));
                lemma_not_in_prefix(ks, i as int);
            }
            if Self::match_title_to_query(key.as_str(), query) {
                found.push(TopicID(key.clone()));
                proof {
                    assert(topic_ids(found@) =~= before.push(key@));
                    assert forall|a: int, b: int|
                        0 <= a < b < topic_ids(found@).len() implies topic_ids(found@)[a]
                        != topic_ids(found@)[b] by {
                        if b == before.len() {
                            assert(before.contains(before[a]));
                        }
                    }
                }
            }
            i = i + 1;
        }
        proof {
            assert(ks.take(ks.len() as int) =~= ks);
        }
        found
    }

    /// The threads whose title contains `query`, each once, in no particular
    /// order. Reply content is not searched.
    pub fn search_threads(&self, query: &str) -> (r: Vec<ThreadID>)
        requires
            self.wf(),
        ensures
            thread_ids(r@).no_duplicates(),
            forall|k: Seq<char>|
                #[trigger] thread_ids(r@).contains(k) <==> (self@.threads.contains_key(k)
                    && is_substring(query@, self@.threads[k].title)),
    {
        let ghost ks = self.threads.key_seq();
        proof {
            self.threads.lemma_keys();
        }
        let mut found: Vec<ThreadID> = Vec::new();
        let mut i: usize = 0;
        proof {
            assert(thread_ids(found@) =~= Seq::<Seq<char>>::empty());
        }
        while i < self.threads.len()
            invariant
                self.wf(),
                ks == self.threads.key_seq(),
                ks.no_duplicates(),
                forall|k: Seq<char>| self.threads@.contains_key(k) <==> #[trigger] ks.contains(k),
                i <= ks.len(),
                thread_ids(found@).no_duplicates(),
                forall|k: Seq<char>|
                    #[trigger] thread_ids(found@).contains(k) <==> (ks.take(i as int).contains(k)
                        && is_substring(query@, self@.threads[k].title)),
            decreases ks.len() - i,
        {
            let (key, thread) = self.threads.entry_at(i);
            let ghost before = thread_ids(found@);
            proof {
                assert(ks.take(i + 1) =~= ks.take(i as int).push(key@));
                lemma_not_in_prefix(ks, i as int);
            }
            if Self::match_title_to_query(thread.title.as_str(), query) {
                found.push(ThreadID(key.clone()));
                proof {
                    assert(thread_ids(found@) =~= before.push(key@));
                    assert forall|a: int, b: int|
                        0 <= a < b < thread_ids(found@).len() implies thread_ids(found@)[a]
                        != thread_ids(found@)[b] by {
                        if b == before.len() {
                            assert(before.contains(before[a]));
                        }
                    }
                }
            }
            i = i + 1;
        }
        proof {
            assert(ks.take(ks.len() as int) =~= ks);
        }
        found
    }
}

} // verus!

//! The moderation queue: replies taken out of circulation with their author.

use vstd::prelude::*;

use super::{DB, DBView, StoreOp, StoreOpView, remove_first};
use crate::data::{
    ModItem, ModItemView, Moderatable, ModeratableView, ThreadView, Timestamp, now,
};
use crate::idgen::{ID_LEN, gen_inspection_id, is_random_id, no_key_shaped};
use crate::ids::{ModItemID, ReplyID, ThreadID};
use crate::table::Table;

verus! {

/// The reply `reply` is listed in the thread `thread`, exists, and its
/// author has a profile.
pub open spec fn can_inspect(db: DBView, thread: Seq<char>, reply: Seq<char>) -> bool {
    &&& db.threads.contains_key(thread)
    &&& db.threads[thread].replies.contains(reply)
    &&& db.replies.contains_key(reply)
    &&& db.users.contains_key(db.replies[reply].user)
}

/// The repository after the reply `reply` of the thread `thread` has been
/// filed, with its author's profile, under the moderation item `item` at
/// time `at`: the thread is written, the reply's and the author's files are
/// removed, and the item is written.
pub open spec fn inspected(
    db: DBView,
    thread: Seq<char>,
    reply: Seq<char>,
    item: Seq<char>,
    at: Timestamp,
) -> DBView {
    let author = db.replies[reply].user;
    DBView {
        threads: db.threads.insert(
            thread,
            ThreadView { replies: remove_first(db.threads[thread].replies, reply), ..db.threads[thread] },
        ),
        replies: db.replies.remove(reply),
        users: db.users.remove(author),
        inspection: db.inspection.insert(
            item,
            ModItemView {
                moderated: at,
                thing: ModeratableView::Reply(db.users[author], db.replies[reply], thread),
            },
        ),
        pending: db.pending.push(StoreOpView::StoreThread(thread)).push(
            StoreOpView::DeleteReply(reply),
        ).push(StoreOpView::DeleteUser(author)).push(StoreOpView::StoreModItem(item)),
        ..db
    }
}

impl DB {
    /// Files the reply `reply_id` of the thread `thread_id` under the
    /// moderation item `item_id` at time `at`: the reply leaves the thread and
    /// the replies, its author's profile leaves the users, and both are kept
    /// in the item. Does nothing, and gives `false`, unless the reply is
    /// listed in the thread, both it and its author exist, and no item has
    /// that identifier.
    pub fn file_reply_for_inspection(
        &mut self,
        thread_id: &ThreadID,
        reply_id: &ReplyID,
        item_id: ModItemID,
        at: Timestamp,
    ) -> (r: bool)
        requires
            old(self).wf(),
        ensures
            final(self).wf(),
            r == (can_inspect(old(self)@, thread_id@, reply_id@) && !old(self)@.inspection.contains_key(
                item_id@,
            )),
            r ==> final(self)@ == inspected(old(self)@, thread_id@, reply_id@, item_id@, at),
            !r ==> final(self)@ == old(self)@,
    {
        if self.inspection.contains_key(&item_id.0) {
            return false;
        }
        let listed = match self.threads.get(&thread_id.0) {
            Some(t) => {
                let mut i: usize = 0;
                let mut hit = false;
                while i < t.replies.len()
                    invariant_except_break
                        !hit,
                    invariant
                        i <= t.replies@.len(),
                        forall|j: int| 0 <= j < i ==> t@.replies[j] != reply_id@,
                    ensures
                        hit == t@.replies.contains(reply_id@),
                    decreases t.replies@.len() - i,
                {
                    if t.replies[i].0 == reply_id.0 {
                        assert(t@.replies[i as int] == reply_id@);
                        hit = true;
                        break;
                    }
                    i = i + 1;
                }
                hit
            },
            None => false,
        };
        if !listed {
            return false;
        }
        let author = match self.replies.get(&reply_id.0) {
            Some(p) => p.user.clone(),
            None => return false,
        };
        if !self.users.contains_key(&author.0) {
            return false;
        }
        let ghost db0 = self@;
        let reply = match self.delete_reply(thread_id, reply_id) {
            Some(p) => p,
            None => return false,
        };
        assert(self@.users.contains_key(author@));
        assert(self.users@.contains_key(author@));
        let user = match self.users.remove(&author.0) {
            Some(u) => u,
            None => return false,
        };
        let ghost uv = user@;
        let ghost rv = reply@;
        let item = ModItem { moderated: at, thing: Moderatable::Reply(user, reply, thread_id.clone()) };
        self.inspection.insert(item_id.0.clone(), item);
        let ghost p0 = self@.pending;
        self.pending.push(StoreOp::DeleteUser(author.clone()));
        self.pending.push(StoreOp::StoreModItem(item_id.clone()));
        assert(self@.pending =~= p0.push(StoreOpView::DeleteUser(author@)).push(
            StoreOpView::StoreModItem(item_id@),
        ));
        assert(self@.users =~= db0.users.remove(author@));
        assert(self@.inspection =~= db0.inspection.insert(
            item_id@,
            ModItemView {
                moderated: at,
                thing: ModeratableView::Reply(uv, rv, thread_id@),
            },
        ));
        true
    }

    /// Takes the reply `reply_id` of the thread `thread_id`, with its
    /// author's profile, out of circulation into a new moderation item
    /// stamped with the current time. Gives the item's identifier, or `None`,
    /// changing nothing, if the reply is not listed in the thread, it or its
    /// author does not exist, or no fresh identifier was drawn.
    pub fn move_reply_to_inspection(&mut self, thread_id: &ThreadID, reply_id: &ReplyID) -> (r:
        Option<ModItemID>)
        requires
            old(self).wf(),
        ensures
            final(self).wf(),
            !can_inspect(old(self)@, thread_id@, reply_id@) ==> r is None,
            can_inspect(old(self)@, thread_id@, reply_id@) && no_key_shaped(
                old(self)@.inspection,
                ID_LEN as nat,
            ) ==> r is Some,
            match r {
                Some(id) => {
                    &&& can_inspect(old(self)@, thread_id@, reply_id@)
                    &&& !old(self)@.inspection.contains_key(id@)
                    &&& final(self)@.inspection.contains_key(id@)
                    &&& final(self)@ == inspected(
                        old(self)@,
                        thread_id@,
                        reply_id@,
                        id@,
                        final(self)@.inspection[id@].moderated,
                    )
                },
                None => final(self)@ == old(self)@,
            },
    {
        proof {
            if no_key_shaped(self@.inspection, ID_LEN as nat) {
                assert forall|k: Seq<char>| #[trigger] self.inspection@.contains_key(k) implies !is_random_id(
                    k,
                    ID_LEN as nat,
                ) by {
                    assert(self@.inspection.contains_key(k));
                }
            }
        }
        let id = match gen_inspection_id(&self.inspection) {
            Some(id) => id,
            None => return None,
        };
        let at = now();
        let kept = id.clone();
        if self.file_reply_for_inspection(thread_id, reply_id, id, at) {
            Some(kept)
        } else {
            None
        }
    }

    /// The moderation queue.
    pub fn get_inspection(&self) -> (r: &Table<ModItem>)
        requires
            self.wf(),
        ensures
            r.wf(),
            r@.map_values(|m: ModItem| m@) == self@.inspection,
    {
        &self.inspection
    }
}

} // verus!

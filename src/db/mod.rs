//! The entity repository: the authoritative in-memory state of every entity
//! kind. Each mutation also records, in order, the file writes and removals
//! that make it durable; the host drains and performs them.

use vstd::prelude::*;

pub mod favorite;
pub mod inspection;
pub mod permissions;
pub mod search;
pub mod sequence;
pub mod store;

use crate::auth::{PasswordStore, PasswordView};
use crate::data::{
    ModItem, ModItemView, Permission, PermissionView, Reply, ReplyView, Thread, ThreadView,
    Topic, TopicView, User, UserView, permission_views, reply_ids, thread_ids,
};
use crate::data::{Timestamp, now, pronoun_view};
use crate::idgen::{ID_LEN, gen_reply_id, gen_thread_id, is_random_id, no_key_shaped};
use crate::ids::{ModItemID, ReplyID, ThreadID, TopicID, UserID};
use crate::table::Table;
use store::{
    file_views, load_permissions, load_replies, load_threads,
    load_topics, load_users, loaded_permissions, loaded_replies, loaded_threads, loaded_topics,
    loaded_users, permissions_text,
};

verus! {

/// A write or removal of one stored file that a mutation owes.
#[derive(Debug)]
pub enum StoreOp {
    StoreUser(UserID),
    StoreTopic(TopicID),
    StoreThread(ThreadID),
    StoreReply(ReplyID),
    DeleteThread(ThreadID),
    DeleteReply(ReplyID),
    DeleteUser(UserID),
    /// An item of the moderation queue.
    StoreModItem(ModItemID),
    /// The credential record of a user name.
    StoreAuth(String, PasswordStore),
    /// The aggregate document of every user's grants.
    StorePermissions,
}

pub ghost enum StoreOpView {
    StoreUser(Seq<char>),
    StoreTopic(Seq<char>),
    StoreThread(Seq<char>),
    StoreReply(Seq<char>),
    DeleteThread(Seq<char>),
    DeleteReply(Seq<char>),
    DeleteUser(Seq<char>),
    StoreModItem(Seq<char>),
    StoreAuth(Seq<char>, PasswordView),
    StorePermissions,
}

impl View for StoreOp {
    type V = StoreOpView;

    open spec fn view(&self) -> StoreOpView {
        match self {
            StoreOp::StoreUser(id) => StoreOpView::StoreUser(id@),
            StoreOp::StoreTopic(id) => StoreOpView::StoreTopic(id@),
            StoreOp::StoreThread(id) => StoreOpView::StoreThread(id@),
            StoreOp::StoreReply(id) => StoreOpView::StoreReply(id@),
            StoreOp::DeleteThread(id) => StoreOpView::DeleteThread(id@),
            StoreOp::DeleteReply(id) => StoreOpView::DeleteReply(id@),
            StoreOp::DeleteUser(id) => StoreOpView::DeleteUser(id@),
            StoreOp::StoreModItem(id) => StoreOpView::StoreModItem(id@),
            StoreOp::StoreAuth(name, p) => StoreOpView::StoreAuth(name@, p@),
            StoreOp::StorePermissions => StoreOpView::StorePermissions,
        }
    }
}

/// The stored files of each kind, as name and text, and the text of the
/// permissions document if there is one.
pub struct StoreFiles {
    pub users: Vec<(String, String)>,
    pub topics: Vec<(String, String)>,
    pub threads: Vec<(String, String)>,
    pub replies: Vec<(String, String)>,
    pub permissions: Option<String>,
}

/// The text of the permissions document, if there is one.
pub open spec fn permissions_file(files: &StoreFiles) -> Option<Seq<char>> {
    match files.permissions {
        Some(t) => Some(t@),
        None => None,
    }
}

/// The repository of every entity kind.
pub struct DB {
    topics: Table<Topic>,
    users: Table<User>,
    threads: Table<Thread>,
    replies: Table<Reply>,
    permissions: Table<Vec<Permission>>,
    inspection: Table<ModItem>,
    pending: Vec<StoreOp>,
}

/// What the repository holds: each kind as a map from identifier text to the
/// entity's view, and the store operations not yet carried out.
pub ghost struct DBView {
    pub topics: Map<Seq<char>, TopicView>,
    pub users: Map<Seq<char>, UserView>,
    pub threads: Map<Seq<char>, ThreadView>,
    pub replies: Map<Seq<char>, ReplyView>,
    pub permissions: Map<Seq<char>, Seq<PermissionView>>,
    pub inspection: Map<Seq<char>, ModItemView>,
    pub pending: Seq<StoreOpView>,
}

/// The grants a user holds, none if the user has no entry.
pub open spec fn grants_of(
    permissions: Map<Seq<char>, Seq<PermissionView>>,
    user: Seq<char>,
) -> Seq<PermissionView> {
    if permissions.contains_key(user) {
        permissions[user]
    } else {
        Seq::empty()
    }
}

/// The view of a topic just created.
pub open spec fn empty_topic() -> TopicView {
    TopicView { about: Seq::empty(), threads: Seq::empty() }
}

/// The view of a user profile just created.
pub open spec fn empty_user() -> UserView {
    UserView {
        about: Seq::empty(),
        pronouns: None,
        fav_topics: Seq::empty(),
        fav_threads: Seq::empty(),
    }
}


/// `i` is the first place where `x` occurs in `s`.
pub open spec fn is_first_index<A>(s: Seq<A>, x: A, i: int) -> bool {
    &&& 0 <= i < s.len()
    &&& s[i] == x
    &&& forall|j: int| 0 <= j < i ==> s[j] != x
}

/// `i` is the last place where `x` occurs in `s`.
pub open spec fn is_last_index<A>(s: Seq<A>, x: A, i: int) -> bool {
    &&& 0 <= i < s.len()
    &&& s[i] == x
    &&& forall|j: int| i < j < s.len() ==> s[j] != x
}

/// `s` without the first occurrence of `x`, or `s` itself if `x` does not occur.
pub open spec fn remove_first<A>(s: Seq<A>, x: A) -> Seq<A> {
    if s.contains(x) {
        s.remove(choose|i: int| is_first_index(s, x, i))
    } else {
        s
    }
}

/// `s` without the last occurrence of `x`, or `s` itself if `x` does not occur.
pub open spec fn remove_last<A>(s: Seq<A>, x: A) -> Seq<A> {
    if s.contains(x) {
        s.remove(choose|i: int| is_last_index(s, x, i))
    } else {
        s
    }
}

pub proof fn lemma_remove_first<A>(s: Seq<A>, x: A, i: int)
    requires
        is_first_index(s, x, i),
    ensures
        s.contains(x),
        remove_first(s, x) == s.remove(i),
{
    assert(s[i] == x);
    let k = choose|k: int| is_first_index(s, x, k);
    assert(is_first_index(s, x, k));
    if k < i {
        assert(s[k] != x);
    } else if i < k {
        assert(s[i] != x);
    }
}

pub proof fn lemma_remove_last<A>(s: Seq<A>, x: A, i: int)
    requires
        is_last_index(s, x, i),
    ensures
        s.contains(x),
        remove_last(s, x) == s.remove(i),
{
    assert(s[i] == x);
    let k = choose|k: int| is_last_index(s, x, k);
    assert(is_last_index(s, x, k));
    if k < i {
        assert(s[i] != x);
    } else if i < k {
        assert(s[k] != x);
    }
}

/// Where `x` first occurs in `v`.
fn first_thread_position(v: &Vec<ThreadID>, x: &ThreadID) -> (r: Option<usize>)
    ensures
        match r {
            Some(i) => is_first_index(thread_ids(v@), x@, i as int),
            None => !thread_ids(v@).contains(x@),
        },
{
    let mut i: usize = 0;
    while i < v.len()
        invariant
            i <= v@.len(),
            forall|j: int| 0 <= j < i ==> thread_ids(v@)[j] != x@,
        decreases v@.len() - i,
    {
        if v[i].0 == x.0 {
            return Some(i);
        }
        i = i + 1;
    }
    None
}

/// Where `x` first occurs in `v`.
fn first_reply_position(v: &Vec<ReplyID>, x: &ReplyID) -> (r: Option<usize>)
    ensures
        match r {
            Some(i) => is_first_index(reply_ids(v@), x@, i as int),
            None => !reply_ids(v@).contains(x@),
        },
{
    let mut i: usize = 0;
    while i < v.len()
        invariant
            i <= v@.len(),
            forall|j: int| 0 <= j < i ==> reply_ids(v@)[j] != x@,
        decreases v@.len() - i,
    {
        if v[i].0 == x.0 {
            return Some(i);
        }
        i = i + 1;
    }
    None
}

/// The identifiers among the first `i` of `ids`.
pub open spec fn prefix_set(ids: Seq<Seq<char>>, i: int) -> Set<Seq<char>> {
    Set::new(|k: Seq<char>| exists|j: int| 0 <= j < i && ids[j] == k)
}

/// `ops` are exactly the store operations owed by deleting the thread
/// `thread` from the topic `topic`, which removed the replies `replies`: the
/// topic is written, the thread's file removed if the thread existed, the
/// file of each removed reply removed, and nothing else.
pub open spec fn is_cascade(
    ops: Seq<StoreOpView>,
    topic: Seq<char>,
    thread: Seq<char>,
    thread_existed: bool,
    replies: Set<Seq<char>>,
) -> bool {
    &&& forall|j: int|
        0 <= j < ops.len() ==> {
            ||| ops[j] == StoreOpView::StoreTopic(topic)
            ||| thread_existed && ops[j] == StoreOpView::DeleteThread(thread)
            ||| ops[j] is DeleteReply && replies.contains(ops[j]->DeleteReply_0)
        }
    &&& ops.contains(StoreOpView::StoreTopic(topic))
    &&& thread_existed ==> ops.contains(StoreOpView::DeleteThread(thread))
    &&& forall|k: Seq<char>| #[trigger] replies.contains(k) ==> ops.contains(StoreOpView::DeleteReply(k))
}

proof fn lemma_contains_push<A>(s: Seq<A>, x: A, y: A)
    requires
        s.contains(x),
    ensures
        s.push(y).contains(x),
{
    let j = choose|j: int| 0 <= j < s.len() && s[j] == x;
    assert(s.push(y)[j] == x);
}

/// The replies that deleting the thread `thread` removes: those it lists,
/// none if there is no such thread.
pub open spec fn deleted_replies(db: DBView, thread: Seq<char>) -> Set<Seq<char>> {
    if db.threads.contains_key(thread) {
        db.threads[thread].replies.to_set()
    } else {
        Set::empty()
    }
}

/// `new` is `old` after the thread `thread` was deleted from the topic
/// `topic`, pending store operations aside: the topic no longer lists it
/// first, and the thread and the replies it lists are gone.
pub open spec fn thread_cascade(old: DBView, new: DBView, topic: Seq<char>, thread: Seq<char>) -> bool {
    &&& new.topics == old.topics.insert(
        topic,
        TopicView { threads: remove_first(old.topics[topic].threads, thread), ..old.topics[topic] },
    )
    &&& new.threads == old.threads.remove(thread)
    &&& new.replies == old.replies.remove_keys(deleted_replies(old, thread))
    &&& new.users == old.users
    &&& new.permissions == old.permissions
    &&& new.inspection == old.inspection
}

/// Deleting a thread that lists k existing replies removes exactly those k
/// replies and the thread: afterwards neither the thread nor any reply it
/// listed is found, and every other reply is kept unchanged.
pub proof fn lemma_thread_deletion(old: DBView, new: DBView, topic: Seq<char>, thread: Seq<char>)
    requires
        old.threads.contains_key(thread),
        thread_cascade(old, new, topic, thread),
    ensures
        !new.threads.contains_key(thread),
        forall|r: Seq<char>| old.threads[thread].replies.contains(r) ==> !#[trigger] new.replies.contains_key(r),
        old.replies.dom().difference(new.replies.dom()) == old.replies.dom().intersect(
            old.threads[thread].replies.to_set(),
        ),
        forall|r: Seq<char>| #[trigger] new.replies.contains_key(r) ==> new.replies[r] == old.replies[r],
{
    assert(old.replies.dom().difference(new.replies.dom()) =~= old.replies.dom().intersect(
        old.threads[thread].replies.to_set(),
    ));
}

impl View for DB {
    type V = DBView;

    closed spec fn view(&self) -> DBView {
        DBView {
            topics: self.topics@.map_values(|t: Topic| t@),
            users: self.users@.map_values(|u: User| u@),
            threads: self.threads@.map_values(|t: Thread| t@),
            replies: self.replies@.map_values(|r: Reply| r@),
            permissions: self.permissions@.map_values(|p: Vec<Permission>| permission_views(p@)),
            inspection: self.inspection@.map_values(|m: ModItem| m@),
            pending: self.pending@.map_values(|o: StoreOp| o@),
        }
    }
}

impl Default for DB {
    fn default() -> (r: Self)
        ensures
            r.wf(),
            r@.topics.is_empty(),
            r@.users.is_empty(),
            r@.threads.is_empty(),
            r@.replies.is_empty(),
            r@.permissions.is_empty(),
            r@.inspection.is_empty(),
            r@.pending.len() == 0,
    {
        let r = DB {
            topics: Table::new(),
            users: Table::new(),
            threads: Table::new(),
            replies: Table::new(),
            permissions: Table::new(),
            inspection: Table::new(),
            pending: Vec::new(),
        };
        assert(r@.topics =~= Map::empty());
        assert(r@.users =~= Map::empty());
        assert(r@.threads =~= Map::empty());
        assert(r@.replies =~= Map::empty());
        assert(r@.permissions =~= Map::empty());
        assert(r@.inspection =~= Map::empty());
        r
    }
}

impl DB {
    /// Every table keeps its keys unique.
    pub closed spec fn wf(&self) -> bool {
        &&& self.topics.wf()
        &&& self.users.wf()
        &&& self.threads.wf()
        &&& self.replies.wf()
        &&& self.permissions.wf()
        &&& self.inspection.wf()
    }

    pub fn get_topic(&self, name: &TopicID) -> (r: Option<&Topic>)
        requires
            self.wf(),
        ensures
            match r {
                Some(t) => self@.topics.contains_key(name@) && t@ == self@.topics[name@],
                None => !self@.topics.contains_key(name@),
            },
    {
        self.topics.get(&name.0)
    }

    pub fn get_user(&self, name: &UserID) -> (r: Option<&User>)
        requires
            self.wf(),
        ensures
            match r {
                Some(u) => self@.users.contains_key(name@) && u@ == self@.users[name@],
                None => !self@.users.contains_key(name@),
            },
    {
        self.users.get(&name.0)
    }

    pub fn get_thread(&self, name: &ThreadID) -> (r: Option<&Thread>)
        requires
            self.wf(),
        ensures
            match r {
                Some(t) => self@.threads.contains_key(name@) && t@ == self@.threads[name@],
                None => !self@.threads.contains_key(name@),
            },
    {
        self.threads.get(&name.0)
    }

    pub fn get_reply(&self, name: &ReplyID) -> (r: Option<&Reply>)
        requires
            self.wf(),
        ensures
            match r {
                Some(p) => self@.replies.contains_key(name@) && p@ == self@.replies[name@],
                None => !self@.replies.contains_key(name@),
            },
    {
        self.replies.get(&name.0)
    }

    /// Hands over the store operations recorded so far, oldest first, and
    /// forgets them.
    pub fn take_pending(&mut self) -> (r: Vec<StoreOp>)
        requires
            old(self).wf(),
        ensures
            final(self).wf(),
            r@.map_values(|o: StoreOp| o@) == old(self)@.pending,
            final(self)@ == (DBView { pending: Seq::empty(), ..old(self)@ }),
    {
        let mut r = Vec::new();
        std::mem::swap(&mut r, &mut self.pending);
        assert(self@.pending =~= Seq::empty());
        r
    }

    /// Adds `grant` to the grants of `user`.
    fn push_grant(&mut self, user: &UserID, grant: Permission)
        requires
            old(self).wf(),
        ensures
            final(self).wf(),
            final(self)@ == (DBView {
                permissions: old(self)@.permissions.insert(
                    user@,
                    grants_of(old(self)@.permissions, user@).push(grant@),
                ),
                ..old(self)@
            }),
    {
        let ghost g = grant@;
        match self.permissions.remove(&user.0) {
            Some(mut grants) => {
                grants.push(grant);
                assert(permission_views(grants@) =~= permission_views(old(self).permissions@[user@]@).push(g));
                self.permissions.insert(user.0.clone(), grants);
            },
            None => {
                let grants = vec![grant];
                assert(permission_views(grants@) =~= Seq::<PermissionView>::empty().push(g));
                self.permissions.insert(user.0.clone(), grants);
            },
        }
        assert(self@.permissions =~= old(self)@.permissions.insert(
            user@,
            grants_of(old(self)@.permissions, user@).push(g),
        ));
    }

    /// Creates an empty topic named `name`, owned by `owner`: the owner is
    /// granted ownership of it. Fails if a topic of that name exists.
    pub fn create_new_topic(&mut self, owner: &UserID, name: &str) -> (r: Result<TopicID, ()>)
        requires
            old(self).wf(),
        ensures
            final(self).wf(),
            match r {
                Ok(id) => {
                    &&& !old(self)@.topics.contains_key(name@)
                    &&& id@ == name@
                    &&& final(self)@ == (DBView {
                        topics: old(self)@.topics.insert(name@, empty_topic()),
                        permissions: old(self)@.permissions.insert(
                            owner@,
                            grants_of(old(self)@.permissions, owner@).push(
                                PermissionView::TopicOwner(name@),
                            ),
                        ),
                        pending: old(self)@.pending.push(StoreOpView::StoreTopic(name@)).push(
                            StoreOpView::StorePermissions,
                        ),
                        ..old(self)@
                    })
                },
                Err(()) => old(self)@.topics.contains_key(name@) && final(self)@ == old(self)@,
            },
    {
        let id = TopicID(name.to_owned());
        if self.topics.contains_key(&id.0) {
            Err(())
        } else {
            let topic = Topic::default();
            self.topics.insert(id.0.clone(), topic);
            self.pending.push(StoreOp::StoreTopic(id.clone()));
            let ghost mid = self.pending@;
            assert(mid.map_values(|o: StoreOp| o@) =~= old(self)@.pending.push(
                StoreOpView::StoreTopic(name@),
            ));
            self.push_grant(owner, Permission::TopicOwner(id.clone()));
            assert(self.pending@.map_values(|o: StoreOp| o@) == mid.map_values(|o: StoreOp| o@));
            self.pending.push(StoreOp::StorePermissions);
            assert(self@.topics =~= old(self)@.topics.insert(name@, empty_topic()));
            assert(self@.pending =~= old(self)@.pending.push(StoreOpView::StoreTopic(name@)).push(
                StoreOpView::StorePermissions,
            ));
            Ok(id)
        }
    }

    /// Creates an empty profile for the user name `name` and records its
    /// credential. Fails if a profile of that name exists.
    pub fn create_new_user(&mut self, name: &str, password_store: &PasswordStore) -> (r: Result<
        UserID,
        (),
    >)
        requires
            old(self).wf(),
        ensures
            final(self).wf(),
            match r {
                Ok(id) => {
                    &&& !old(self)@.users.contains_key(name@)
                    &&& id@ == name@
                    &&& final(self)@ == (DBView {
                        users: old(self)@.users.insert(name@, empty_user()),
                        pending: old(self)@.pending.push(StoreOpView::StoreUser(name@)).push(
                            StoreOpView::StoreAuth(name@, password_store@),
                        ),
                        ..old(self)@
                    })
                },
                Err(()) => old(self)@.users.contains_key(name@) && final(self)@ == old(self)@,
            },
    {
        let id = UserID(name.to_owned());
        if self.users.contains_key(&id.0) {
            Err(())
        } else {
            let user = User::default();
            self.users.insert(id.0.clone(), user);
            self.pending.push(StoreOp::StoreUser(id.clone()));
            self.pending.push(StoreOp::StoreAuth(id.0.clone(), password_store.clone()));
            assert(self@.users =~= old(self)@.users.insert(name@, empty_user()));
            assert(self@.pending =~= old(self)@.pending.push(StoreOpView::StoreUser(name@)).push(
                StoreOpView::StoreAuth(name@, password_store@),
            ));
            Ok(id)
        }
    }

    /// Adds an empty thread titled `title` under the identifier `id` to the
    /// topic `topic_id`. Does nothing, and gives `None`, if the topic does not
    /// exist or a thread already has that identifier.
    pub fn add_thread(&mut self, topic_id: &TopicID, title: String, id: ThreadID) -> (r: Option<
        ThreadID,
    >)
        requires
            old(self).wf(),
        ensures
            final(self).wf(),
            match r {
                Some(rid) => {
                    &&& rid@ == id@
                    &&& old(self)@.topics.contains_key(topic_id@)
                    &&& !old(self)@.threads.contains_key(id@)
                    &&& final(self)@ == (DBView {
                        topics: old(self)@.topics.insert(
                            topic_id@,
                            TopicView {
                                threads: old(self)@.topics[topic_id@].threads.push(id@),
                                ..old(self)@.topics[topic_id@]
                            },
                        ),
                        threads: old(self)@.threads.insert(
                            id@,
                            ThreadView { title: title@, replies: Seq::empty() },
                        ),
                        pending: old(self)@.pending.push(StoreOpView::StoreThread(id@)).push(
                            StoreOpView::StoreTopic(topic_id@),
                        ),
                        ..old(self)@
                    })
                },
                None => {
                    &&& !old(self)@.topics.contains_key(topic_id@) || old(self)@.threads.contains_key(
                        id@,
                    )
                    &&& final(self)@ == old(self)@
                },
            },
    {
        if self.threads.contains_key(&id.0) {
            return None;
        }
        let mut topic = match self.topics.remove(&topic_id.0) {
            Some(t) => t,
            None => return None,
        };
        let ghost t0 = topic@;
        let thread = Thread { title, replies: Vec::new() };
        assert(thread@.replies =~= Seq::<Seq<char>>::empty());
        self.threads.insert(id.0.clone(), thread);
        self.pending.push(StoreOp::StoreThread(id.clone()));
        topic.threads.push(id.clone());
        assert(topic@ == (TopicView { threads: t0.threads.push(id@), ..t0 })) by {
            assert(topic@.threads =~= t0.threads.push(id@));
        }
        self.topics.insert(topic_id.0.clone(), topic);
        self.pending.push(StoreOp::StoreTopic(topic_id.clone()));
        assert(self@.topics =~= old(self)@.topics.insert(
            topic_id@,
            TopicView { threads: t0.threads.push(id@), ..t0 },
        ));
        assert(self@.threads =~= old(self)@.threads.insert(
            id@,
            ThreadView { title: self@.threads[id@].title, replies: Seq::empty() },
        ));
        assert(self@.pending =~= old(self)@.pending.push(StoreOpView::StoreThread(id@)).push(
            StoreOpView::StoreTopic(topic_id@),
        ));
        Some(id)
    }

    /// Creates an empty thread titled `title` in the topic `topic_id` under a
    /// freshly drawn identifier. Gives `None`, changing nothing, if the topic
    /// does not exist or no fresh identifier was drawn.
    pub fn create_new_thread(&mut self, topic_id: &TopicID, title: String) -> (r: Option<ThreadID>)
        requires
            old(self).wf(),
        ensures
            final(self).wf(),
            !old(self)@.topics.contains_key(topic_id@) ==> r is None,
            old(self)@.topics.contains_key(topic_id@) && no_key_shaped(old(self)@.threads, ID_LEN as nat)
                ==> r is Some,
            match r {
                Some(id) => {
                    &&& old(self)@.topics.contains_key(topic_id@)
                    &&& !old(self)@.threads.contains_key(id@)
                    &&& final(self)@ == (DBView {
                        topics: old(self)@.topics.insert(
                            topic_id@,
                            TopicView {
                                threads: old(self)@.topics[topic_id@].threads.push(id@),
                                ..old(self)@.topics[topic_id@]
                            },
                        ),
                        threads: old(self)@.threads.insert(
                            id@,
                            ThreadView { title: title@, replies: Seq::empty() },
                        ),
                        pending: old(self)@.pending.push(StoreOpView::StoreThread(id@)).push(
                            StoreOpView::StoreTopic(topic_id@),
                        ),
                        ..old(self)@
                    })
                },
                None => final(self)@ == old(self)@,
            },
    {
        if !self.topics.contains_key(&topic_id.0) {
            return None;
        }
        proof {
            if no_key_shaped(self@.threads, ID_LEN as nat) {
                assert forall|k: Seq<char>| #[trigger] self.threads@.contains_key(k) implies !is_random_id(
                    k,
                    ID_LEN as nat,
                ) by {
                    assert(self@.threads.contains_key(k));
                }
            }
        }
        match gen_thread_id(&self.threads) {
            Some(id) => self.add_thread(topic_id, title, id),
            None => None,
        }
    }

    /// Adds the reply `content` by `user`, written at `created`, under the
    /// identifier `id` at the end of the thread `thread_id`. Does nothing, and
    /// gives `None`, if the thread or the user does not exist or a reply
    /// already has that identifier.
    pub fn add_reply(
        &mut self,
        content: &str,
        thread_id: &ThreadID,
        user: &UserID,
        id: ReplyID,
        created: Timestamp,
    ) -> (r: Option<ReplyID>)
        requires
            old(self).wf(),
        ensures
            final(self).wf(),
            match r {
                Some(rid) => {
                    &&& rid@ == id@
                    &&& old(self)@.threads.contains_key(thread_id@)
                    &&& old(self)@.users.contains_key(user@)
                    &&& !old(self)@.replies.contains_key(id@)
                    &&& final(self)@ == (DBView {
                        replies: old(self)@.replies.insert(
                            id@,
                            ReplyView { created, user: user@, content: content@ },
                        ),
                        threads: old(self)@.threads.insert(
                            thread_id@,
                            ThreadView {
                                replies: old(self)@.threads[thread_id@].replies.push(id@),
                                ..old(self)@.threads[thread_id@]
                            },
                        ),
                        pending: old(self)@.pending.push(StoreOpView::StoreReply(id@)).push(
                            StoreOpView::StoreThread(thread_id@),
                        ),
                        ..old(self)@
                    })
                },
                None => {
                    &&& !old(self)@.threads.contains_key(thread_id@) || !old(self)@.users.contains_key(
                        user@,
                    ) || old(self)@.replies.contains_key(id@)
                    &&& final(self)@ == old(self)@
                },
            },
    {
        if !self.users.contains_key(&user.0) || self.replies.contains_key(&id.0) {
            return None;
        }
        let mut thread = match self.threads.remove(&thread_id.0) {
            Some(t) => t,
            None => return None,
        };
        let ghost t0 = thread@;
        let reply = Reply { created, user: user.clone(), content: content.to_owned() };
        self.replies.insert(id.0.clone(), reply);
        self.pending.push(StoreOp::StoreReply(id.clone()));
        thread.replies.push(id.clone());
        assert(thread@ == (ThreadView { replies: t0.replies.push(id@), ..t0 })) by {
            assert(thread@.replies =~= t0.replies.push(id@));
        }
        self.threads.insert(thread_id.0.clone(), thread);
        self.pending.push(StoreOp::StoreThread(thread_id.clone()));
        assert(self@.threads =~= old(self)@.threads.insert(
            thread_id@,
            ThreadView { replies: t0.replies.push(id@), ..t0 },
        ));
        assert(self@.replies =~= old(self)@.replies.insert(
            id@,
            ReplyView { created, user: user@, content: content@ },
        ));
        assert(self@.pending =~= old(self)@.pending.push(StoreOpView::StoreReply(id@)).push(
            StoreOpView::StoreThread(thread_id@),
        ));
        Some(id)
    }

    /// Posts the reply `content` by `user` at the end of the thread
    /// `thread_id`, stamped with the current time, under a freshly drawn
    /// identifier. Gives `None`, changing nothing, if the thread or the user
    /// does not exist or no fresh identifier was drawn.
    pub fn try_reply(&mut self, content: &str, thread_id: &ThreadID, user: &UserID) -> (r: Option<
        ReplyID,
    >)
        requires
            old(self).wf(),
        ensures
            final(self).wf(),
            !old(self)@.threads.contains_key(thread_id@) || !old(self)@.users.contains_key(user@)
                ==> r is None,
            old(self)@.threads.contains_key(thread_id@) && old(self)@.users.contains_key(user@)
                && no_key_shaped(old(self)@.replies, ID_LEN as nat) ==> r is Some,
            match r {
                Some(id) => {
                    &&& old(self)@.threads.contains_key(thread_id@)
                    &&& old(self)@.users.contains_key(user@)
                    &&& !old(self)@.replies.contains_key(id@)
                    &&& final(self)@.replies.contains_key(id@)
                    &&& final(self)@.replies[id@].user == user@
                    &&& final(self)@.replies[id@].content == content@
                    &&& final(self)@ == (DBView {
                        replies: old(self)@.replies.insert(id@, final(self)@.replies[id@]),
                        threads: old(self)@.threads.insert(
                            thread_id@,
                            ThreadView {
                                replies: old(self)@.threads[thread_id@].replies.push(id@),
                                ..old(self)@.threads[thread_id@]
                            },
                        ),
                        pending: old(self)@.pending.push(StoreOpView::StoreReply(id@)).push(
                            StoreOpView::StoreThread(thread_id@),
                        ),
                        ..old(self)@
                    })
                },
                None => final(self)@ == old(self)@,
            },
    {
        if !self.threads.contains_key(&thread_id.0) || !self.users.contains_key(&user.0) {
            return None;
        }
        proof {
            if no_key_shaped(self@.replies, ID_LEN as nat) {
                assert forall|k: Seq<char>| #[trigger] self.replies@.contains_key(k) implies !is_random_id(
                    k,
                    ID_LEN as nat,
                ) by {
                    assert(self@.replies.contains_key(k));
                }
            }
        }
        match gen_reply_id(&self.replies) {
            Some(id) => {
                let created = now();
                self.add_reply(content, thread_id, user, id, created)
            },
            None => None,
        }
    }

    /// Overwrites the biography and pronouns of the user `user_id`. Gives
    /// `false`, changing nothing, if there is no such user.
    pub fn update_user(&mut self, user_id: &UserID, about: String, pronouns: Option<[String; 3]>) -> (r:
        bool)
        requires
            old(self).wf(),
        ensures
            final(self).wf(),
            r == old(self)@.users.contains_key(user_id@),
            r ==> final(self)@ == (DBView {
                users: old(self)@.users.insert(
                    user_id@,
                    UserView {
                        about: about@,
                        pronouns: pronoun_view(pronouns),
                        ..old(self)@.users[user_id@]
                    },
                ),
                pending: old(self)@.pending.push(StoreOpView::StoreUser(user_id@)),
                ..old(self)@
            }),
            !r ==> final(self)@ == old(self)@,
    {
        let ghost new_about = about@;
        let ghost new_pronouns = pronoun_view(pronouns);
        let mut user = match self.users.remove(&user_id.0) {
            Some(u) => u,
            None => return false,
        };
        let ghost u0 = user@;
        user.about = about;
        user.pronouns = pronouns;
        self.users.insert(user_id.0.clone(), user);
        self.pending.push(StoreOp::StoreUser(user_id.clone()));
        assert(self@.users =~= old(self)@.users.insert(
            user_id@,
            UserView { about: new_about, pronouns: new_pronouns, ..u0 },
        ));
        assert(self@.pending =~= old(self)@.pending.push(StoreOpView::StoreUser(user_id@)));
        true
    }

    /// Takes the reply `reply_id` out of the thread `thread_id`: its first
    /// occurrence leaves the thread's list and the reply entity is removed and
    /// handed back. Does nothing, and gives `None`, if the thread does not
    /// exist or does not list the reply.
    pub fn delete_reply(&mut self, thread_id: &ThreadID, reply_id: &ReplyID) -> (r: Option<Reply>)
        requires
            old(self).wf(),
        ensures
            final(self).wf(),
            ({
                let listed = old(self)@.threads.contains_key(thread_id@)
                    && old(self)@.threads[thread_id@].replies.contains(reply_id@);
                &&& !listed ==> r is None && final(self)@ == old(self)@
                &&& listed ==> final(self)@ == (DBView {
                    threads: old(self)@.threads.insert(
                        thread_id@,
                        ThreadView {
                            replies: remove_first(old(self)@.threads[thread_id@].replies, reply_id@),
                            ..old(self)@.threads[thread_id@]
                        },
                    ),
                    replies: old(self)@.replies.remove(reply_id@),
                    pending: old(self)@.pending.push(StoreOpView::StoreThread(thread_id@)).push(
                        StoreOpView::DeleteReply(reply_id@),
                    ),
                    ..old(self)@
                })
                &&& match r {
                    Some(p) => listed && old(self)@.replies.contains_key(reply_id@) && p@
                        == old(self)@.replies[reply_id@],
                    None => !listed || !old(self)@.replies.contains_key(reply_id@),
                }
            }),
    {
        let pos = match self.threads.get(&thread_id.0) {
            Some(t) => first_reply_position(&t.replies, reply_id),
            None => return None,
        };
        let pos = match pos {
            Some(p) => p,
            None => return None,
        };
        let mut thread = match self.threads.remove(&thread_id.0) {
            Some(t) => t,
            None => return None,
        };
        let ghost t0 = thread@;
        proof {
            lemma_remove_first(t0.replies, reply_id@, pos as int);
        }
        thread.replies.remove(pos);
        assert(thread@ == (ThreadView { replies: t0.replies.remove(pos as int), ..t0 })) by {
            assert(thread@.replies =~= t0.replies.remove(pos as int));
        }
        self.threads.insert(thread_id.0.clone(), thread);
        self.pending.push(StoreOp::StoreThread(thread_id.clone()));
        let removed = self.replies.remove(&reply_id.0);
        self.pending.push(StoreOp::DeleteReply(reply_id.clone()));
        assert(self@.threads =~= old(self)@.threads.insert(
            thread_id@,
            ThreadView { replies: remove_first(t0.replies, reply_id@), ..t0 },
        ));
        assert(self@.replies =~= old(self)@.replies.remove(reply_id@));
        assert(self@.pending =~= old(self)@.pending.push(StoreOpView::StoreThread(thread_id@)).push(
            StoreOpView::DeleteReply(reply_id@),
        ));
        removed
    }

    /// Deletes the thread `thread_id` from the topic `topic_id`: its first
    /// occurrence leaves the topic's list, the thread entity is removed, and
    /// so is every reply the thread lists. Hands back the thread and the
    /// removed replies. Does nothing, and gives `None`, if the topic does not
    /// exist or does not list the thread.
    pub fn delete_thread(&mut self, topic_id: &TopicID, thread_id: &ThreadID) -> (r: Option<
        (Thread, Table<Reply>),
    >)
        requires
            old(self).wf(),
        ensures
            final(self).wf(),
            ({
                let listed = old(self)@.topics.contains_key(topic_id@)
                    && old(self)@.topics[topic_id@].threads.contains(thread_id@);
                let existed = old(self)@.threads.contains_key(thread_id@);
                let gone = deleted_replies(old(self)@, thread_id@);
                &&& !listed ==> r is None && final(self)@ == old(self)@
                &&& listed ==> {
                    &&& thread_cascade(old(self)@, final(self)@, topic_id@, thread_id@)
                    &&& final(self)@.pending.len() >= old(self)@.pending.len()
                    &&& final(self)@.pending.subrange(0, old(self)@.pending.len() as int)
                        == old(self)@.pending
                    &&& is_cascade(
                        final(self)@.pending.subrange(
                            old(self)@.pending.len() as int,
                            final(self)@.pending.len() as int,
                        ),
                        topic_id@,
                        thread_id@,
                        existed,
                        old(self)@.replies.dom().intersect(gone),
                    )
                }
                &&& match r {
                    Some((thread, removed)) => {
                        &&& listed && existed
                        &&& thread@ == old(self)@.threads[thread_id@]
                        &&& removed.wf()
                        &&& removed@.map_values(|p: Reply| p@) == old(self)@.replies.restrict(gone)
                    },
                    None => !listed || !existed,
                }
            }),
    {
        let pos = match self.topics.get(&topic_id.0) {
            Some(t) => first_thread_position(&t.threads, thread_id),
            None => return None,
        };
        let pos = match pos {
            Some(p) => p,
            None => return None,
        };
        let mut topic = match self.topics.remove(&topic_id.0) {
            Some(t) => t,
            None => return None,
        };
        let ghost t0 = topic@;
        let ghost m = old(self)@.pending.len() as int;
        proof {
            lemma_remove_first(t0.threads, thread_id@, pos as int);
        }
        topic.threads.remove(pos);
        assert(topic@ == (TopicView { threads: t0.threads.remove(pos as int), ..t0 })) by {
            assert(topic@.threads =~= t0.threads.remove(pos as int));
        }
        self.topics.insert(topic_id.0.clone(), topic);
        self.pending.push(StoreOp::StoreTopic(topic_id.clone()));
        assert(self@.topics =~= old(self)@.topics.insert(
            topic_id@,
            TopicView { threads: remove_first(t0.threads, thread_id@), ..t0 },
        ));
        assert(self@.pending =~= old(self)@.pending.push(StoreOpView::StoreTopic(topic_id@)));
        let thread = match self.threads.remove(&thread_id.0) {
            Some(t) => t,
            None => {
                proof {
                    let ops = self@.pending.subrange(m, self@.pending.len() as int);
                    assert(ops =~= seq![StoreOpView::StoreTopic(topic_id@)]);
                    assert(ops[0] == StoreOpView::StoreTopic(topic_id@));
                    assert(deleted_replies(old(self)@, thread_id@) == Set::<Seq<char>>::empty());
                    assert(old(self)@.replies.remove_keys(Set::empty()) =~= old(self)@.replies);
                    assert(self@.pending.subrange(0, m) =~= old(self)@.pending);
                    assert(self@.topics == old(self)@.topics.insert(
                        topic_id@,
                        TopicView { threads: remove_first(old(self)@.topics[topic_id@].threads, thread_id@), ..old(self)@.topics[topic_id@] },
                    ));
                    assert(self@.threads == old(self)@.threads.remove(thread_id@));
                    assert(self@.replies == old(self)@.replies.remove_keys(deleted_replies(old(self)@, thread_id@)));
                    assert(self@.users == old(self)@.users);
                    assert(self@.inspection == old(self)@.inspection);
                    assert(thread_cascade(old(self)@, self@, topic_id@, thread_id@));
                }
                return None;
            },
        };
        self.pending.push(StoreOp::DeleteThread(thread_id.clone()));
        assert(self@.threads =~= old(self)@.threads.remove(thread_id@));
        assert(self@.topics == old(self)@.topics.insert(
            topic_id@,
            TopicView { threads: remove_first(old(self)@.topics[topic_id@].threads, thread_id@), ..old(self)@.topics[topic_id@] },
        ));
        let ghost mid = self@;
        let ghost r0 = old(self)@.replies;
        let ghost ids = thread@.replies;
        let mut removed: Table<Reply> = Table::new();
        proof {
            let ops = self@.pending.subrange(m, self@.pending.len() as int);
            assert(ops =~= seq![
                StoreOpView::StoreTopic(topic_id@),
                StoreOpView::DeleteThread(thread_id@),
            ]);
            assert(ops[0] == StoreOpView::StoreTopic(topic_id@));
            assert(ops[1] == StoreOpView::DeleteThread(thread_id@));
            assert(prefix_set(ids, 0) =~= Set::empty());
            assert(r0.remove_keys(Set::empty()) =~= r0);
            assert(removed@.map_values(|p: Reply| p@) =~= r0.restrict(Set::empty()));
        }
        let mut i: usize = 0;
        while i < thread.replies.len()
            invariant
                self.wf(),
                removed.wf(),
                i <= thread.replies@.len(),
                ids == thread@.replies,
                ids.len() == thread.replies@.len(),
                m == old(self)@.pending.len(),
                m <= mid.pending.len(),
                m <= self@.pending.len(),
                self@ == (DBView { replies: self@.replies, pending: self@.pending, ..mid }),
                self@.replies == r0.remove_keys(prefix_set(ids, i as int)),
                removed@.map_values(|p: Reply| p@) == r0.restrict(prefix_set(ids, i as int)),
                self@.pending.len() >= mid.pending.len(),
                self@.pending.subrange(0, mid.pending.len() as int) == mid.pending,
                is_cascade(
                    self@.pending.subrange(m, self@.pending.len() as int),
                    topic_id@,
                    thread_id@,
                    true,
                    r0.dom().intersect(prefix_set(ids, i as int)),
                ),
            decreases thread.replies@.len() - i,
        {
            let reply_id = &thread.replies[i];
            let ghost k = reply_id@;
            let ghost before = self@;
            let ghost rm_before = removed@;
            let ghost raw_before = self.replies@;
            assert(k == ids[i as int]);
            assert(prefix_set(ids, i + 1) =~= prefix_set(ids, i as int).insert(k)) by {
                assert forall|x: Seq<char>| prefix_set(ids, i + 1).contains(x) implies prefix_set(
                    ids,
                    i as int,
                ).insert(k).contains(x) by {
                    let j = choose|j: int| 0 <= j < i + 1 && ids[j] == x;
                    if j < i {
                        assert(prefix_set(ids, i as int).contains(x));
                    }
                }
                assert forall|x: Seq<char>| prefix_set(ids, i as int).insert(k).contains(x) implies prefix_set(
                    ids,
                    i + 1,
                ).contains(x) by {
                    if x == k {
                        assert(ids[i as int] == x);
                    } else {
                        let j = choose|j: int| 0 <= j < i && ids[j] == x;
                        assert(0 <= j < i + 1 && ids[j] == x);
                    }
                }
            }
            match self.replies.remove(&reply_id.0) {
                Some(reply) => {
                    let ghost rv = reply@;
                    removed.insert(reply_id.0.clone(), reply);
                    self.pending.push(StoreOp::DeleteReply(reply_id.clone()));
                    proof {
                        let p_old = prefix_set(ids, i as int);
                        let p_new = prefix_set(ids, i + 1);
                        assert(raw_before.contains_key(k));
                        assert(before.replies.contains_key(k));
                        assert(before.replies[k] == raw_before[k]@);
                        assert(r0.remove_keys(p_old).contains_key(k));
                        assert(r0.contains_key(k) && !p_old.contains(k));
                        assert(rv == r0[k]);
                        assert(self@.replies =~= before.replies.remove(k));
                        assert(before.replies.remove(k) =~= r0.remove_keys(p_new));
                        assert(removed@.map_values(|p: Reply| p@) =~= rm_before.map_values(
                            |p: Reply| p@,
                        ).insert(k, rv));
                        assert(rm_before.map_values(|p: Reply| p@).insert(k, rv) =~= r0.restrict(
                            p_new,
                        ));
                        let ops0 = before.pending.subrange(m, before.pending.len() as int);
                        let ops1 = self@.pending.subrange(m, self@.pending.len() as int);
                        assert(self@.pending =~= before.pending.push(StoreOpView::DeleteReply(k)));
                        assert(ops1.len() == ops0.len() + 1);
                        assert forall|j: int| 0 <= j < ops0.len() implies ops1[j] == ops0[j] by {
                            assert(ops1[j] == self@.pending[m + j]);
                            assert(self@.pending[m + j] == before.pending[m + j]);
                        }
                        assert(ops1[ops0.len() as int] == StoreOpView::DeleteReply(k));
                        assert(ops1 =~= ops0.push(StoreOpView::DeleteReply(k)));
                        assert(self@.pending.subrange(0, mid.pending.len() as int) =~= mid.pending);
                        let rs = r0.dom().intersect(p_new);
                        assert forall|j: int| 0 <= j < ops1.len() implies {
                            ||| ops1[j] == StoreOpView::StoreTopic(topic_id@)
                            ||| true && ops1[j] == StoreOpView::DeleteThread(thread_id@)
                            ||| ops1[j] is DeleteReply && rs.contains(ops1[j]->DeleteReply_0)
                        } by {
                            if j < ops0.len() {
                                assert(ops1[j] == ops0[j]);
                            }
                        }
                        lemma_contains_push(ops0, StoreOpView::StoreTopic(topic_id@), StoreOpView::DeleteReply(k));
                        lemma_contains_push(ops0, StoreOpView::DeleteThread(thread_id@), StoreOpView::DeleteReply(k));
                        assert forall|x: Seq<char>| #[trigger] rs.contains(x) implies ops1.contains(
                            StoreOpView::DeleteReply(x),
                        ) by {
                            if x == k {
                                assert(ops1[ops1.len() - 1] == StoreOpView::DeleteReply(x));
                            } else {
                                assert(r0.dom().intersect(p_old).contains(x));
                                lemma_contains_push(ops0, StoreOpView::DeleteReply(x), StoreOpView::DeleteReply(k));
                            }
                        }
                    }
                },
                None => {
                    proof {
                        let p_old = prefix_set(ids, i as int);
                        let p_new = prefix_set(ids, i + 1);
                        assert(!before.replies.contains_key(k));
                        assert(!r0.contains_key(k) || p_old.contains(k));
                        assert(self@.replies =~= r0.remove_keys(p_new));
                        assert(removed@.map_values(|p: Reply| p@) =~= r0.restrict(p_new));
                        assert(r0.dom().intersect(p_new) =~= r0.dom().intersect(p_old));
                    }
                },
            }
            i = i + 1;
        }
        proof {
            assert(prefix_set(ids, ids.len() as int) =~= ids.to_set()) by {
                assert forall|x: Seq<char>| ids.to_set().contains(x) implies prefix_set(
                    ids,
                    ids.len() as int,
                ).contains(x) by {
                    let j = choose|j: int| 0 <= j < ids.len() && ids[j] == x;
                    assert(0 <= j < ids.len() && ids[j] == x);
                }
                assert forall|x: Seq<char>| prefix_set(ids, ids.len() as int).contains(x) implies ids.to_set().contains(x) by {
                    let j = choose|j: int| 0 <= j < ids.len() && ids[j] == x;
                    assert(ids.contains(x));
                }
            }
            assert(self@.pending.subrange(0, m) =~= old(self)@.pending);
            assert(deleted_replies(old(self)@, thread_id@) == ids.to_set());
            assert(self@.replies == r0.remove_keys(ids.to_set()));
            assert(self@.topics == old(self)@.topics.insert(
                topic_id@,
                TopicView { threads: remove_first(old(self)@.topics[topic_id@].threads, thread_id@), ..old(self)@.topics[topic_id@] },
            ));
            assert(self@.threads == old(self)@.threads.remove(thread_id@));
            assert(self@.users == old(self)@.users);
            assert(self@.inspection == old(self)@.inspection);
            assert(thread_cascade(old(self)@, self@, topic_id@, thread_id@));
        }
        Some((thread, removed))
    }

    /// The repository that the stored files give, with an empty moderation
    /// queue and no pending store operations.
    pub fn load(files: &StoreFiles) -> (r: Self)
        ensures
            r.wf(),
            r@.users == loaded_users(file_views(files.users@)),
            r@.topics == loaded_topics(file_views(files.topics@)),
            r@.threads == loaded_threads(file_views(files.threads@)),
            r@.replies == loaded_replies(file_views(files.replies@)),
            r@.permissions == loaded_permissions(permissions_file(files)),
            r@.inspection.is_empty(),
            r@.pending.len() == 0,
    {
        let mut l = Self::default();
        l.reload(files);
        l
    }

    /// Replaces every entity kind but the moderation queue with what the
    /// stored files give. Pending store operations are kept.
    pub fn reload(&mut self, files: &StoreFiles)
        requires
            old(self).wf(),
        ensures
            final(self).wf(),
            final(self)@ == (DBView {
                users: loaded_users(file_views(files.users@)),
                topics: loaded_topics(file_views(files.topics@)),
                threads: loaded_threads(file_views(files.threads@)),
                replies: loaded_replies(file_views(files.replies@)),
                permissions: loaded_permissions(permissions_file(files)),
                ..old(self)@
            }),
    {
        self.users = load_users(&files.users);
        self.topics = load_topics(&files.topics);
        self.threads = load_threads(&files.threads);
        self.replies = load_replies(&files.replies);
        self.permissions = load_permissions(
            match &files.permissions {
                Some(t) => Some(t.as_str()),
                None => None,
            },
        );
    }

    /// The JSON text of every user's grants; reading it back gives the same
    /// grants.
    pub fn permissions_text(&self) -> (r: String)
        requires
            self.wf(),
        ensures
            loaded_permissions(Some(r@)) == self@.permissions,
    {
        permissions_text(&self.permissions)
    }
}

} // verus!

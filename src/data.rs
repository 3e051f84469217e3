//! The forum's entities and their mathematical views.

use vstd::prelude::*;

use crate::ids::{ReplyID, ThreadID, TopicID, UserID};

verus! {

/// A point in time: milliseconds since the Unix epoch, in UTC.
#[derive(Clone, Copy, Debug, PartialEq, Eq, Structural)]
pub struct Timestamp {
    pub millis: i64,
}

/// Relies on chrono's `Utc::now` and `DateTime::timestamp_millis`: the
/// current time. Nothing is promised of its value.
#[verifier::external_body]
pub(crate) fn now() -> (r: Timestamp) {
    Timestamp { millis: chrono::Utc::now().timestamp_millis() }
}

/// The characters of each identifier, in order.
pub open spec fn topic_ids(s: Seq<TopicID>) -> Seq<Seq<char>> {
    s.map_values(|t: TopicID| t@)
}

/// The characters of each identifier, in order.
pub open spec fn thread_ids(s: Seq<ThreadID>) -> Seq<Seq<char>> {
    s.map_values(|t: ThreadID| t@)
}

/// The characters of each identifier, in order.
pub open spec fn reply_ids(s: Seq<ReplyID>) -> Seq<Seq<char>> {
    s.map_values(|t: ReplyID| t@)
}

/// A user profile. The user's identity is the user name, which keys it.
pub struct User {
    pub about: String,
    /// Nominative, oblique and possessive pronoun.
    pub pronouns: Option<[String; 3]>,
    pub fav_topics: Vec<TopicID>,
    pub fav_threads: Vec<ThreadID>,
}

pub ghost struct UserView {
    pub about: Seq<char>,
    pub pronouns: Option<Seq<Seq<char>>>,
    pub fav_topics: Seq<Seq<char>>,
    pub fav_threads: Seq<Seq<char>>,
}

/// The text of each of three pronouns.
pub open spec fn pronoun_view(p: Option<[String; 3]>) -> Option<Seq<Seq<char>>> {
    match p {
        Some(a) => Some(a@.map_values(|s: String| s@)),
        None => None,
    }
}

impl View for User {
    type V = UserView;

    open spec fn view(&self) -> UserView {
        UserView {
            about: self.about@,
            pronouns: pronoun_view(self.pronouns),
            fav_topics: topic_ids(self.fav_topics@),
            fav_threads: thread_ids(self.fav_threads@),
        }
    }
}

impl Default for User {
    fn default() -> (r: Self)
        ensures
            r@ == (UserView {
                about: Seq::empty(),
                pronouns: None,
                fav_topics: Seq::empty(),
                fav_threads: Seq::empty(),
            }),
    {
        let r = User {
            about: String::new(),
            pronouns: None,
            fav_topics: Vec::new(),
            fav_threads: Vec::new(),
        };
        assert(r@.fav_topics =~= Seq::empty());
        assert(r@.fav_threads =~= Seq::empty());
        r
    }
}

/// A topic, keyed by its name, with its threads in creation order.
pub struct Topic {
    pub about: String,
    pub threads: Vec<ThreadID>,
}

pub ghost struct TopicView {
    pub about: Seq<char>,
    pub threads: Seq<Seq<char>>,
}

impl View for Topic {
    type V = TopicView;

    open spec fn view(&self) -> TopicView {
        TopicView { about: self.about@, threads: thread_ids(self.threads@) }
    }
}

impl Default for Topic {
    fn default() -> (r: Self)
        ensures
            r@ == (TopicView { about: Seq::empty(), threads: Seq::empty() }),
    {
        let r = Topic { about: String::new(), threads: Vec::new() };
        assert(r@.threads =~= Seq::empty());
        r
    }
}

/// A thread: its title and its replies, oldest first.
pub struct Thread {
    pub title: String,
    pub replies: Vec<ReplyID>,
}

pub ghost struct ThreadView {
    pub title: Seq<char>,
    pub replies: Seq<Seq<char>>,
}

impl View for Thread {
    type V = ThreadView;

    open spec fn view(&self) -> ThreadView {
        ThreadView { title: self.title@, replies: reply_ids(self.replies@) }
    }
}

/// A reply: when it was written, by whom, and what it says.
pub struct Reply {
    pub created: Timestamp,
    pub user: UserID,
    pub content: String,
}

pub ghost struct ReplyView {
    pub created: Timestamp,
    pub user: Seq<char>,
    pub content: Seq<char>,
}

impl View for Reply {
    type V = ReplyView;

    open spec fn view(&self) -> ReplyView {
        ReplyView { created: self.created, user: self.user@, content: self.content@ }
    }
}

/// Content taken out of circulation, with when that happened.
pub struct ModItem {
    pub moderated: Timestamp,
    pub thing: Moderatable,
}

/// What a moderation item holds: a user, a topic with its owner, or a thread
/// or reply with the user it was taken from and where it stood.
pub enum Moderatable {
    User(User),
    Topic(User, Topic),
    Thread(User, Thread, TopicID),
    Reply(User, Reply, ThreadID),
}

pub ghost enum ModeratableView {
    User(UserView),
    Topic(UserView, TopicView),
    Thread(UserView, ThreadView, Seq<char>),
    Reply(UserView, ReplyView, Seq<char>),
}

pub ghost struct ModItemView {
    pub moderated: Timestamp,
    pub thing: ModeratableView,
}

impl View for Moderatable {
    type V = ModeratableView;

    open spec fn view(&self) -> ModeratableView {
        match self {
            Moderatable::User(u) => ModeratableView::User(u@),
            Moderatable::Topic(u, t) => ModeratableView::Topic(u@, t@),
            Moderatable::Thread(u, t, p) => ModeratableView::Thread(u@, t@, p@),
            Moderatable::Reply(u, r, p) => ModeratableView::Reply(u@, r@, p@),
        }
    }
}

impl View for ModItem {
    type V = ModItemView;

    open spec fn view(&self) -> ModItemView {
        ModItemView { moderated: self.moderated, thing: self.thing@ }
    }
}

/// A grant held by a user: global moderator, or owner of one topic.
#[derive(Debug)]
pub enum Permission {
    Overlord,
    TopicOwner(TopicID),
}

pub ghost enum PermissionView {
    Overlord,
    TopicOwner(Seq<char>),
}

impl View for Permission {
    type V = PermissionView;

    open spec fn view(&self) -> PermissionView {
        match self {
            Permission::Overlord => PermissionView::Overlord,
            Permission::TopicOwner(t) => PermissionView::TopicOwner(t@),
        }
    }
}

/// The view of each grant, in order.
pub open spec fn permission_views(s: Seq<Permission>) -> Seq<PermissionView> {
    s.map_values(|p: Permission| p@)
}

impl PartialEq for Permission {
    fn eq(&self, o: &Permission) -> (r: bool) {
        match (self, o) {
            (Permission::Overlord, Permission::Overlord) => true,
            (Permission::TopicOwner(a), Permission::TopicOwner(b)) => a == b,
            _ => false,
        }
    }
}

impl vstd::std_specs::cmp::PartialEqSpecImpl for Permission {
    open spec fn obeys_eq_spec() -> bool {
        true
    }

    open spec fn eq_spec(&self, o: &Permission) -> bool {
        self@ == o@
    }
}

impl Clone for Permission {
    fn clone(&self) -> (r: Self)
        ensures
            r == *self,
    {
        match self {
            Permission::Overlord => Permission::Overlord,
            Permission::TopicOwner(t) => Permission::TopicOwner(t.clone()),
        }
    }
}

} // verus!

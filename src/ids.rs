//! Kind-specific identifiers. Each wraps the identifier text; keeping them as
//! distinct types prevents mixing up, say, a thread id with a reply id.

use vstd::prelude::*;

verus! {

/// Identifier of a topic: the topic's name.
#[derive(Debug)]
pub struct TopicID(pub String);

/// Identifier of a user: the user name.
#[derive(Debug)]
pub struct UserID(pub String);

/// Identifier of a thread.
#[derive(Debug)]
pub struct ThreadID(pub String);

/// Identifier of a reply.
#[derive(Debug)]
pub struct ReplyID(pub String);

/// Identifier of an item in the moderation queue.
#[derive(Debug)]
pub struct ModItemID(pub String);

/// Identifier of a login session.
#[derive(Debug)]
pub struct SessionID(pub String);

impl View for TopicID {
    type V = Seq<char>;

    open spec fn view(&self) -> Seq<char> {
        self.0@
    }
}

impl Clone for TopicID {
    fn clone(&self) -> (r: Self)
        ensures
            r == *self,
    {
        TopicID(self.0.clone())
    }
}

impl PartialEq for TopicID {
    fn eq(&self, o: &TopicID) -> (r: bool) {
        self.0 == o.0
    }
}

impl vstd::std_specs::cmp::PartialEqSpecImpl for TopicID {
    open spec fn obeys_eq_spec() -> bool {
        true
    }

    open spec fn eq_spec(&self, o: &TopicID) -> bool {
        self@ == o@
    }
}

impl View for UserID {
    type V = Seq<char>;

    open spec fn view(&self) -> Seq<char> {
        self.0@
    }
}

impl Clone for UserID {
    fn clone(&self) -> (r: Self)
        ensures
            r == *self,
    {
        UserID(self.0.clone())
    }
}

impl PartialEq for UserID {
    fn eq(&self, o: &UserID) -> (r: bool) {
        self.0 == o.0
    }
}

impl vstd::std_specs::cmp::PartialEqSpecImpl for UserID {
    open spec fn obeys_eq_spec() -> bool {
        true
    }

    open spec fn eq_spec(&self, o: &UserID) -> bool {
        self@ == o@
    }
}

impl View for ThreadID {
    type V = Seq<char>;

    open spec fn view(&self) -> Seq<char> {
        self.0@
    }
}

impl Clone for ThreadID {
    fn clone(&self) -> (r: Self)
        ensures
            r == *self,
    {
        ThreadID(self.0.clone())
    }
}

impl PartialEq for ThreadID {
    fn eq(&self, o: &ThreadID) -> (r: bool) {
        self.0 == o.0
    }
}

impl vstd::std_specs::cmp::PartialEqSpecImpl for ThreadID {
    open spec fn obeys_eq_spec() -> bool {
        true
    }

    open spec fn eq_spec(&self, o: &ThreadID) -> bool {
        self@ == o@
    }
}

impl View for ReplyID {
    type V = Seq<char>;

    open spec fn view(&self) -> Seq<char> {
        self.0@
    }
}

impl Clone for ReplyID {
    fn clone(&self) -> (r: Self)
        ensures
            r == *self,
    {
        ReplyID(self.0.clone())
    }
}

impl PartialEq for ReplyID {
    fn eq(&self, o: &ReplyID) -> (r: bool) {
        self.0 == o.0
    }
}

impl vstd::std_specs::cmp::PartialEqSpecImpl for ReplyID {
    open spec fn obeys_eq_spec() -> bool {
        true
    }

    open spec fn eq_spec(&self, o: &ReplyID) -> bool {
        self@ == o@
    }
}

impl View for ModItemID {
    type V = Seq<char>;

    open spec fn view(&self) -> Seq<char> {
        self.0@
    }
}

impl Clone for ModItemID {
    fn clone(&self) -> (r: Self)
        ensures
            r == *self,
    {
        ModItemID(self.0.clone())
    }
}

impl PartialEq for ModItemID {
    fn eq(&self, o: &ModItemID) -> (r: bool) {
        self.0 == o.0
    }
}

impl vstd::std_specs::cmp::PartialEqSpecImpl for ModItemID {
    open spec fn obeys_eq_spec() -> bool {
        true
    }

    open spec fn eq_spec(&self, o: &ModItemID) -> bool {
        self@ == o@
    }
}

impl View for SessionID {
    type V = Seq<char>;

    open spec fn view(&self) -> Seq<char> {
        self.0@
    }
}

impl Clone for SessionID {
    fn clone(&self) -> (r: Self)
        ensures
            r == *self,
    {
        SessionID(self.0.clone())
    }
}

impl PartialEq for SessionID {
    fn eq(&self, o: &SessionID) -> (r: bool) {
        self.0 == o.0
    }
}

impl vstd::std_specs::cmp::PartialEqSpecImpl for SessionID {
    open spec fn obeys_eq_spec() -> bool {
        true
    }

    open spec fn eq_spec(&self, o: &SessionID) -> bool {
        self@ == o@
    }
}

} // verus!

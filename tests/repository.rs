use forum_core::data::{Permission, Timestamp};
use forum_core::db::{StoreFiles, StoreOp, DB};
use forum_core::ids::{ReplyID, ThreadID, TopicID, UserID};
use forum_core::auth::PasswordStore;

fn credential() -> PasswordStore {
    PasswordStore { salt: "s".to_string(), hashed: "h".to_string() }
}

fn forum_with_user(name: &str) -> DB {
    let mut db = DB::default();
    db.create_new_user(name, &credential()).unwrap();
    db
}

#[test]
fn generated_thread_ids_are_distinct() {
    let mut db = forum_with_user("alice");
    let topic = db.create_new_topic(&UserID("alice".to_string()), "general").unwrap();
    let mut ids: Vec<String> = Vec::new();
    for i in 0..50 {
        let id = db.create_new_thread(&topic, format!("t{}", i)).unwrap();
        assert_eq!(id.0.len(), 24);
        assert!(id.0.chars().all(|c| c.is_ascii_alphanumeric()));
        assert!(!ids.contains(&id.0));
        ids.push(id.0);
    }
    assert_eq!(db.get_topic(&topic).unwrap().threads.len(), 50);
}

#[test]
fn favoriting_twice_keeps_one_entry() {
    let mut db = forum_with_user("alice");
    let u = UserID("alice".to_string());
    let t = TopicID("general".to_string());
    assert!(db.favorite_topic(&u, &t, true));
    assert!(db.favorite_topic(&u, &t, true));
    let favs = &db.get_user(&u).unwrap().fav_topics;
    assert_eq!(favs.iter().filter(|x| x.0 == "general").count(), 1);
    assert!(db.is_topic_favorite(&u, &t));
    assert!(db.favorite_topic(&u, &t, false));
    assert!(!db.is_topic_favorite(&u, &t));
    assert!(!db.favorite_topic(&UserID("nobody".to_string()), &t, true));
}

#[test]
fn unfavoriting_removes_last_occurrence() {
    let mut db = forum_with_user("bob");
    let u = UserID("bob".to_string());
    let a = ThreadID("a".to_string());
    assert!(db.favorite_thread(&u, &a, true));
    assert!(db.favorite_thread(&u, &ThreadID("b".to_string()), true));
    assert!(db.is_thread_favorite(&u, &a));
    assert!(db.favorite_thread(&u, &a, false));
    let favs: Vec<String> = db.get_user(&u).unwrap().fav_threads.iter().map(|x| x.0.clone()).collect();
    assert_eq!(favs, vec!["b".to_string()]);
}

#[test]
fn delete_thread_removes_its_replies() {
    let mut db = forum_with_user("alice");
    let u = UserID("alice".to_string());
    let topic = db.create_new_topic(&u, "general").unwrap();
    let thread = db.create_new_thread(&topic, "Hello".to_string()).unwrap();
    let mut replies = Vec::new();
    for text in ["one", "two", "three"] {
        replies.push(db.try_reply(text, &thread, &u).unwrap());
    }
    let other = db.create_new_thread(&topic, "Other".to_string()).unwrap();
    let kept = db.try_reply("stays", &other, &u).unwrap();
    db.take_pending();
    let (removed_thread, removed) = db.delete_thread(&topic, &thread).unwrap();
    assert_eq!(removed_thread.title, "Hello");
    assert_eq!(removed.len(), 3);
    assert!(db.get_thread(&thread).is_none());
    for r in &replies {
        assert!(db.get_reply(r).is_none());
        assert!(removed.get(&r.0).is_some());
    }
    assert!(db.get_reply(&kept).is_some());
    let topic_threads: Vec<String> = db.get_topic(&topic).unwrap().threads.iter().map(|x| x.0.clone()).collect();
    assert_eq!(topic_threads, vec![other.0.clone()]);
    let ops = db.take_pending();
    assert_eq!(ops.len(), 5);
    assert_eq!(ops.iter().filter(|o| matches!(o, StoreOp::DeleteReply(_))).count(), 3);
    assert!(ops.iter().any(|o| matches!(o, StoreOp::DeleteThread(t) if t.0 == thread.0)));
    assert!(ops.iter().any(|o| matches!(o, StoreOp::StoreTopic(t) if t.0 == "general")));
}

#[test]
fn delete_thread_not_in_topic_does_nothing() {
    let mut db = forum_with_user("alice");
    let topic = db.create_new_topic(&UserID("alice".to_string()), "general").unwrap();
    assert!(db.delete_thread(&topic, &ThreadID("missing".to_string())).is_none());
    assert!(db.delete_thread(&TopicID("none".to_string()), &ThreadID("missing".to_string())).is_none());
}

#[test]
fn delete_reply_removes_first_occurrence() {
    let mut db = forum_with_user("alice");
    let u = UserID("alice".to_string());
    let topic = db.create_new_topic(&u, "general").unwrap();
    let thread = db.create_new_thread(&topic, "Hello".to_string()).unwrap();
    let first = db.try_reply("one", &thread, &u).unwrap();
    let second = db.try_reply("two", &thread, &u).unwrap();
    let reply = db.delete_reply(&thread, &first).unwrap();
    assert_eq!(reply.content, "one");
    assert!(db.get_reply(&first).is_none());
    let left: Vec<String> = db.get_thread(&thread).unwrap().replies.iter().map(|x| x.0.clone()).collect();
    assert_eq!(left, vec![second.0.clone()]);
    assert!(db.delete_reply(&thread, &first).is_none());
}

#[test]
fn sorted_threads_most_recent_first_unanswered_last() {
    let mut db = forum_with_user("alice");
    let u = UserID("alice".to_string());
    let topic = db.create_new_topic(&u, "general").unwrap();
    let quiet = db.add_thread(&topic, "quiet".to_string(), ThreadID("q".to_string())).unwrap();
    let old = db.add_thread(&topic, "old".to_string(), ThreadID("o".to_string())).unwrap();
    let new = db.add_thread(&topic, "new".to_string(), ThreadID("n".to_string())).unwrap();
    let quiet2 = db.add_thread(&topic, "quiet too".to_string(), ThreadID("q2".to_string())).unwrap();
    db.add_reply("a", &old, &u, ReplyID("r1".to_string()), Timestamp { millis: 1000 }).unwrap();
    db.add_reply("b", &new, &u, ReplyID("r2".to_string()), Timestamp { millis: 500 }).unwrap();
    db.add_reply("c", &new, &u, ReplyID("r3".to_string()), Timestamp { millis: 2000 }).unwrap();
    let sorted: Vec<String> = db.get_sorted_threads(&topic).unwrap().into_iter().map(|x| x.0).collect();
    assert_eq!(sorted, vec![new.0, old.0, quiet.0, quiet2.0]);
    assert!(db.get_sorted_threads(&TopicID("none".to_string())).is_none());
}

#[test]
fn forum_scenario() {
    let mut db = forum_with_user("alice");
    let alice = UserID("alice".to_string());
    let general = db.create_new_topic(&alice, "general").unwrap();
    let hello = db.create_new_thread(&general, "Hello".to_string()).unwrap();
    db.try_reply("hi there", &hello, &alice).unwrap();
    let sorted: Vec<String> = db.get_sorted_threads(&general).unwrap().into_iter().map(|x| x.0).collect();
    assert_eq!(sorted, vec![hello.0.clone()]);
    assert!(db.search_threads("hi").is_empty());
    let found: Vec<String> = db.search_threads("Hello").into_iter().map(|x| x.0).collect();
    assert_eq!(found, vec![hello.0.clone()]);
}

#[test]
fn search_topics_by_substring() {
    let mut db = forum_with_user("alice");
    let u = UserID("alice".to_string());
    db.create_new_topic(&u, "rustacean").unwrap();
    db.create_new_topic(&u, "gardening").unwrap();
    let mut found: Vec<String> = db.search_topics("rust").into_iter().map(|x| x.0).collect();
    assert_eq!(found, vec!["rustacean".to_string()]);
    found = db.search_topics("Rust").into_iter().map(|x| x.0).collect();
    assert!(found.is_empty());
    assert_eq!(db.search_topics("").len(), 2);
}

#[test]
fn create_topic_twice_fails_and_grants_owner() {
    let mut db = forum_with_user("alice");
    let u = UserID("alice".to_string());
    db.take_pending();
    assert_eq!(db.create_new_topic(&u, "general").unwrap().0, "general");
    let ops = db.take_pending();
    assert!(matches!(&ops[0], StoreOp::StoreTopic(t) if t.0 == "general"));
    assert!(matches!(&ops[1], StoreOp::StorePermissions));
    assert!(db.create_new_topic(&u, "general").is_err());
    assert!(db.revoke_permission(&u, Permission::TopicOwner(TopicID("general".to_string()))));
    assert!(!db.revoke_permission(&u, Permission::TopicOwner(TopicID("general".to_string()))));
}

#[test]
fn create_user_twice_fails() {
    let mut db = forum_with_user("alice");
    assert!(db.create_new_user("alice", &credential()).is_err());
    assert!(db.get_user(&UserID("alice".to_string())).is_some());
}

#[test]
fn replies_need_thread_and_user() {
    let mut db = forum_with_user("alice");
    let u = UserID("alice".to_string());
    let topic = db.create_new_topic(&u, "general").unwrap();
    let thread = db.create_new_thread(&topic, "Hello".to_string()).unwrap();
    assert!(db.try_reply("x", &ThreadID("none".to_string()), &u).is_none());
    assert!(db.try_reply("x", &thread, &UserID("ghost".to_string())).is_none());
    assert!(db.create_new_thread(&TopicID("none".to_string()), "t".to_string()).is_none());
    let r = db.add_reply("x", &thread, &u, ReplyID("r".to_string()), Timestamp { millis: 1 });
    assert!(r.is_some());
    assert!(db.add_reply("y", &thread, &u, ReplyID("r".to_string()), Timestamp { millis: 2 }).is_none());
}

#[test]
fn update_user_overwrites_profile() {
    let mut db = forum_with_user("alice");
    let u = UserID("alice".to_string());
    let pronouns = Some(["they".to_string(), "them".to_string(), "theirs".to_string()]);
    assert!(db.update_user(&u, "hi".to_string(), pronouns));
    let user = db.get_user(&u).unwrap();
    assert_eq!(user.about, "hi");
    assert_eq!(user.pronouns.as_ref().unwrap()[2], "theirs");
    assert!(!db.update_user(&UserID("ghost".to_string()), "x".to_string(), None));
}

#[test]
fn permissions_grant_and_query() {
    let mut db = forum_with_user("alice");
    let u = UserID("alice".to_string());
    assert!(!db.is_admin(&u));
    db.grant_permission(&u, Permission::Overlord);
    assert!(db.is_admin(&u));
    assert!(db.revoke_permission(&u, Permission::Overlord));
    assert!(!db.is_admin(&u));
}

#[test]
fn moving_reply_to_inspection() {
    let mut db = forum_with_user("alice");
    let u = UserID("alice".to_string());
    let topic = db.create_new_topic(&u, "general").unwrap();
    let thread = db.create_new_thread(&topic, "Hello".to_string()).unwrap();
    let reply = db.try_reply("spam", &thread, &u).unwrap();
    db.take_pending();
    let item = db.move_reply_to_inspection(&thread, &reply).unwrap();
    let ops = db.take_pending();
    assert_eq!(ops.len(), 4);
    assert!(matches!(&ops[2], StoreOp::DeleteUser(u) if u.0 == "alice"));
    assert!(matches!(&ops[3], StoreOp::StoreModItem(i) if i.0 == item.0));
    let text = forum_core::db::store::encode_mod_item(db.get_inspection().get(&item.0).unwrap()).unwrap();
    assert!(text.contains("\"kind\":\"reply\""));
    assert!(text.contains("\"reply.content\":\"spam\""));
    assert!(text.contains(&format!("\"parent\":\"{}\"", thread.0)));
    assert!(db.get_reply(&reply).is_none());
    assert!(db.get_user(&u).is_none());
    assert!(db.get_thread(&thread).unwrap().replies.is_empty());
    assert!(db.get_inspection().get(&item.0).is_some());
    assert!(db.move_reply_to_inspection(&thread, &reply).is_none());
}

#[test]
fn reload_reads_stored_files() {
    let mut db = forum_with_user("alice");
    let u = UserID("alice".to_string());
    let pronouns = Some(["they".to_string(), "them".to_string(), "theirs".to_string()]);
    db.update_user(&u, "hi".to_string(), pronouns);
    db.grant_permission(&u, Permission::Overlord);
    let text = forum_core::db::store::encode_user(db.get_user(&u).unwrap());
    let files = StoreFiles {
        users: vec![("alice.json".to_string(), text), ("broken.json".to_string(), "not json".to_string())],
        topics: vec![],
        threads: vec![],
        replies: vec![],
        permissions: Some(db.permissions_text()),
    };
    let loaded = DB::load(&files);
    let user = loaded.get_user(&u).unwrap();
    assert_eq!(user.about, "hi");
    assert_eq!(user.pronouns.as_ref().unwrap()[0], "they");
    assert_eq!(user.pronouns.as_ref().unwrap()[1], "them");
    assert_eq!(user.pronouns.as_ref().unwrap()[2], "theirs");
    assert!(user.fav_topics.is_empty());
    assert!(loaded.get_user(&UserID("broken".to_string())).is_none());
    assert!(loaded.is_admin(&u));
}

#[test]
fn replies_collected_for_their_author() {
    let mut db = forum_with_user("alice");
    db.create_new_user("bob", &credential()).unwrap();
    let alice = UserID("alice".to_string());
    let bob = UserID("bob".to_string());
    let topic = db.create_new_topic(&alice, "general").unwrap();
    let t1 = db.create_new_thread(&topic, "one".to_string()).unwrap();
    let t2 = db.create_new_thread(&topic, "two".to_string()).unwrap();
    let r1 = db.try_reply("a", &t1, &alice).unwrap();
    db.try_reply("b", &t1, &bob).unwrap();
    let r3 = db.try_reply("c", &t2, &alice).unwrap();
    let mut found: Vec<(String, String)> = db
        .collect_replies_for_user(&alice)
        .into_iter()
        .map(|(t, r)| (t.0, r.0))
        .collect();
    found.sort();
    let mut expected = vec![(t1.0, r1.0), (t2.0, r3.0)];
    expected.sort();
    assert_eq!(found, expected);
    assert!(db.collect_replies_for_user(&UserID("carol".to_string())).is_empty());
}

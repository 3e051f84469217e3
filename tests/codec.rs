use forum_core::auth::PasswordStore;
use forum_core::data::{Reply, Thread, Timestamp, Topic, User};
use forum_core::db::store::{
    decode_password_store, decode_reply, decode_thread, decode_topic, decode_user,
    encode_password_store, encode_reply, encode_thread, encode_topic, encode_user, file_stem,
    load_permissions,
};
use forum_core::ids::{ReplyID, ThreadID, TopicID, UserID};

#[test]
fn user_round_trip_keeps_every_field() {
    let user = User {
        about: "hi".to_string(),
        pronouns: Some(["they".to_string(), "them".to_string(), "theirs".to_string()]),
        fav_topics: vec![TopicID("general".to_string())],
        fav_threads: vec![ThreadID("abc".to_string()), ThreadID("def".to_string())],
    };
    let back = decode_user(&encode_user(&user)).unwrap();
    assert_eq!(back.about, "hi");
    assert_eq!(back.pronouns, user.pronouns);
    assert_eq!(back.fav_topics, user.fav_topics);
    assert_eq!(back.fav_threads, user.fav_threads);
}

#[test]
fn user_without_pronouns_round_trip() {
    let user = User::default();
    let back = decode_user(&encode_user(&user)).unwrap();
    assert!(back.pronouns.is_none());
    assert_eq!(back.about, "");
}

#[test]
fn user_decoded_from_written_json() {
    let text = r#"{"about":"bio","pronouns":["she","her"],"fav-topics":["a",1,"b"]}"#;
    let user = decode_user(text).unwrap();
    assert_eq!(user.about, "bio");
    let p = user.pronouns.unwrap();
    assert_eq!(p, ["she".to_string(), "her".to_string(), "null".to_string()]);
    let topics: Vec<String> = user.fav_topics.into_iter().map(|t| t.0).collect();
    assert_eq!(topics, vec!["a".to_string(), "b".to_string()]);
    assert!(user.fav_threads.is_empty());
    assert!(decode_user("[1, 2]").is_none());
    assert!(decode_user("{").is_none());
}

#[test]
fn topic_and_thread_round_trip() {
    let topic = Topic { about: "all things".to_string(), threads: vec![ThreadID("t1".to_string())] };
    let back = decode_topic(&encode_topic(&topic)).unwrap();
    assert_eq!(back.about, topic.about);
    assert_eq!(back.threads, topic.threads);
    let thread = Thread { title: "Hello".to_string(), replies: vec![ReplyID("r1".to_string()), ReplyID("r2".to_string())] };
    let back = decode_thread(&encode_thread(&thread)).unwrap();
    assert_eq!(back.title, "Hello");
    assert_eq!(back.replies, thread.replies);
}

#[test]
fn reply_round_trip_and_time_text() {
    let reply = Reply {
        created: Timestamp { millis: 1672628645123 },
        user: UserID("alice".to_string()),
        content: "hi there".to_string(),
    };
    let text = encode_reply(&reply).unwrap();
    assert!(text.contains("2023-01-02 03:04:05.123 UTC"));
    let back = decode_reply(&text).unwrap();
    assert_eq!(back.created, reply.created);
    assert_eq!(back.user, reply.user);
    assert_eq!(back.content, reply.content);
    let written = r#"{"created":"2023-01-02 03:04:05 UTC","user":"bob","content":"x"}"#;
    assert_eq!(decode_reply(written).unwrap().created, Timestamp { millis: 1672628645000 });
    assert!(decode_reply(r#"{"created":"yesterday","user":"bob"}"#).is_none());
}

#[test]
fn password_store_round_trip() {
    let store = PasswordStore { salt: "abc".to_string(), hashed: "0f".to_string() };
    let back = decode_password_store(&encode_password_store(&store)).unwrap();
    assert_eq!(back.salt, "abc");
    assert_eq!(back.hashed, "0f");
    assert!(decode_password_store(r#"{"salt":"abc"}"#).is_none());
}

#[test]
fn permissions_document_tokens() {
    let table = load_permissions(Some(r#"{"alice":["overlord","mod:general","bogus"],"bob":"x"}"#));
    let alice = table.get(&"alice".to_string()).unwrap();
    assert_eq!(alice.len(), 2);
    assert!(matches!(alice[0], forum_core::data::Permission::Overlord));
    assert!(matches!(&alice[1], forum_core::data::Permission::TopicOwner(t) if t.0 == "general"));
    assert!(table.get(&"bob".to_string()).unwrap().is_empty());
    assert_eq!(load_permissions(None).len(), 0);
    assert_eq!(load_permissions(Some("oops")).len(), 0);
}

#[test]
fn stems_of_file_names() {
    assert_eq!(file_stem("abc.json"), "abc");
    assert_eq!(file_stem("a.b.c"), "a");
    assert_eq!(file_stem("plain"), "plain");
    assert_eq!(file_stem(".hidden"), "");
}

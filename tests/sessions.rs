use forum_core::auth::{
    hash_password, is_valid_user_name, match_password, secure_password, to_hex, Auth, LoginError,
    PasswordStore, SignupError, UserSession,
};
use forum_core::data::Timestamp;
use forum_core::db::{StoreOp, DB};
use forum_core::forms::{parse_pronouns, SettingsError};
use forum_core::ids::{SessionID, UserID};

fn signed_up(auth: &mut Auth, db: &mut DB, name: &str, password: &str) -> PasswordStore {
    db.take_pending();
    auth.signup(name, password, false, db).unwrap();
    let ops = db.take_pending();
    match ops.into_iter().last().unwrap() {
        StoreOp::StoreAuth(n, rec) => {
            assert_eq!(n, name);
            rec
        }
        other => panic!("unexpected {:?}", other),
    }
}

#[test]
fn sha256_hex_of_password_and_salt() {
    assert_eq!(
        hash_password("ab", "c"),
        "ba7816bf8f01cfea414140de5dae2223b00361a396177a9cb410ff61f20015ad"
    );
    assert_eq!(to_hex(&vec![0u8, 15, 16, 255]), "000f10ff");
    assert_eq!(to_hex(&vec![]), "");
}

#[test]
fn secure_password_salts_and_verifies() {
    let a = secure_password("secret");
    let b = secure_password("secret");
    assert_eq!(a.salt.len(), 16);
    assert!(a.salt.chars().all(|c| c.is_ascii_alphanumeric()));
    assert_ne!(a.salt, b.salt);
    assert!(match_password("secret", &a));
    assert!(!match_password("Secret", &a));
    assert_eq!(a.hashed.len(), 64);
}

#[test]
fn user_names_are_validated() {
    assert!(is_valid_user_name("alice_01-x"));
    assert!(!is_valid_user_name("al ice"));
    assert!(!is_valid_user_name(""));
    assert!(!is_valid_user_name("bob!"));
}

#[test]
fn signup_errors() {
    let mut auth = Auth::init();
    let mut db = DB::default();
    assert_eq!(auth.signup("bad name", "pw", false, &mut db), Err(SignupError::InvalidUserName));
    assert_eq!(auth.signup("carol", "pw", true, &mut db), Err(SignupError::AlreadyExists));
    assert_eq!(auth.signup("carol", "pw", false, &mut db).unwrap().0, "carol");
    assert_eq!(auth.signup("carol", "pw", false, &mut db), Err(SignupError::AlreadyExists));
}

#[test]
fn login_twice_with_same_credentials() {
    let mut auth = Auth::init();
    let mut db = DB::default();
    let stored = signed_up(&mut auth, &mut db, "alice", "pw");
    let (user, s1, renewed) = auth.login("alice", "pw", Some(&stored)).unwrap();
    assert_eq!(user.0, "alice");
    assert_ne!(renewed.salt, stored.salt);
    let (_, s2, _) = auth.login("alice", "pw", Some(&renewed)).unwrap();
    assert_ne!(s1.0, s2.0);
    assert_eq!(s1.0.len(), 128);
}

#[test]
fn login_errors() {
    let mut auth = Auth::init();
    let mut db = DB::default();
    let stored = signed_up(&mut auth, &mut db, "alice", "pw");
    assert_eq!(auth.login("alice", "wrong", Some(&stored)).err(), Some(LoginError::WrongCredentials));
    assert_eq!(auth.login("alice", "pw", None).err(), Some(LoginError::WrongCredentials));
    assert_eq!(auth.login("al ice", "pw", Some(&stored)).err(), Some(LoginError::InvalidUserName));
}

#[test]
fn session_rotation() {
    let mut auth = Auth::init();
    let mut db = DB::default();
    let stored = signed_up(&mut auth, &mut db, "alice", "pw");
    let (_, s, _) = auth.login("alice", "pw", Some(&stored)).unwrap();
    let (s2, user) = auth.get_user_for_session_id(s.clone()).unwrap();
    assert_ne!(s2.0, s.0);
    assert_eq!(user.0, "alice");
    assert!(auth.get_user_for_session_id(s).is_none());
    let (s3, user) = auth.get_user_for_session_id(s2).unwrap();
    assert_eq!(user.0, "alice");
    auth.logout(UserSession { user, session_id: s3.clone() });
    assert!(auth.get_user_for_session_id(s3).is_none());
}

#[test]
fn sessions_expire_by_age() {
    let mut auth = Auth::init();
    let u = UserID("alice".to_string());
    assert!(auth.start_session(u.clone(), SessionID("old".to_string()), Timestamp { millis: 0 }));
    assert!(auth.start_session(u.clone(), SessionID("new".to_string()), Timestamp { millis: 900 }));
    assert!(!auth.start_session(u.clone(), SessionID("new".to_string()), Timestamp { millis: 950 }));
    auth.delete_sessions_older_than(Timestamp { millis: 1000 }, 500);
    assert!(auth.rotate_session(&SessionID("old".to_string()), SessionID("x".to_string()), Timestamp { millis: 1 }).is_none());
    let user = auth.rotate_session(&SessionID("new".to_string()), SessionID("y".to_string()), Timestamp { millis: 1 });
    assert_eq!(user.unwrap().0, "alice");
}

#[test]
fn pronoun_field_parsing() {
    assert_eq!(parse_pronouns("").unwrap(), None);
    assert_eq!(
        parse_pronouns("they/them/theirs").unwrap().unwrap(),
        ["they".to_string(), "them".to_string(), "theirs".to_string()]
    );
    assert_eq!(
        parse_pronouns("a/b/c/d").unwrap().unwrap(),
        ["a".to_string(), "b".to_string(), "c".to_string()]
    );
    assert_eq!(parse_pronouns("//").unwrap().unwrap(), [String::new(), String::new(), String::new()]);
    assert_eq!(parse_pronouns("she/her").err(), Some(SettingsError::InvalidPronounsFormat));
    assert_eq!(parse_pronouns("xe").err(), Some(SettingsError::InvalidPronounsFormat));
}

#[test]
fn second_lookup_after_rotation_succeeds() {
    let mut auth = Auth::init();
    let u = UserID("dana".to_string());
    assert!(auth.start_session(u, SessionID("s0".to_string()), Timestamp { millis: 5 }));
    let (s1, _) = auth.get_user_for_session_id(SessionID("s0".to_string())).unwrap();
    let (s2, user) = auth.get_user_for_session_id(s1.clone()).unwrap();
    assert_ne!(s1.0, s2.0);
    assert_eq!(user.0, "dana");
    assert!(auth.get_user_for_session_id(SessionID("s0".to_string())).is_none());
}

#[test]
fn stored_hash_has_sixty_four_hex_digits() {
    let h = hash_password("x", "y");
    assert_eq!(h.len(), 64);
    assert!(h.chars().all(|c| c.is_ascii_hexdigit() && !c.is_ascii_uppercase()));
}

//! The stored form of each entity: a document of named fields, written as
//! JSON text, one file per entity; permission grants form one document.

use vstd::prelude::*;

use crate::auth::{PasswordStore, PasswordView};
use crate::data::{
    ModItem, ModItemView, Moderatable, ModeratableView, Permission, PermissionView, Reply, ReplyView, Thread, ThreadView, Timestamp, Topic, TopicView,
    User, UserView, permission_views, reply_ids, thread_ids, topic_ids,
};
use crate::table::Table;
use crate::ids::{ReplyID, ThreadID, TopicID, UserID};

verus! {

/// The value of a document field.
#[derive(Debug)]
pub enum Field {
    Null,
    Text(String),
    /// A list whose items are text, or `None` where an item is not text.
    List(Vec<Option<String>>),
    /// A value of another kind.
    Other,
}

pub ghost enum FieldView {
    Null,
    Text(Seq<char>),
    List(Seq<Option<Seq<char>>>),
    Other,
}

/// The text of each item, in order.
pub open spec fn item_views(l: Seq<Option<String>>) -> Seq<Option<Seq<char>>> {
    l.map_values(
        |x: Option<String>|
            match x {
                Some(s) => Some(s@),
                None => None,
            },
    )
}

impl View for Field {
    type V = FieldView;

    open spec fn view(&self) -> FieldView {
        match self {
            Field::Null => FieldView::Null,
            Field::Text(s) => FieldView::Text(s@),
            Field::List(l) => FieldView::List(item_views(l@)),
            Field::Other => FieldView::Other,
        }
    }
}

/// The name and value of each field, in order.
pub open spec fn doc_view(d: Seq<(String, Field)>) -> Seq<(Seq<char>, FieldView)> {
    d.map_values(|e: (String, Field)| (e.0@, e.1@))
}

/// The JSON text of a document: an object with the fields in order.
pub uninterp spec fn json_text(doc: Seq<(Seq<char>, FieldView)>) -> Seq<char>;

/// The document that JSON text holds, if it is a JSON object.
pub uninterp spec fn json_document(text: Seq<char>) -> Option<Seq<(Seq<char>, FieldView)>>;

/// The text that chrono writes for the instant `millis` milliseconds after
/// the Unix epoch, if chrono can represent it.
pub uninterp spec fn datetime_text(millis: i64) -> Option<Seq<char>>;

/// The instant, in milliseconds after the Unix epoch, that chrono reads from
/// the text, if it reads one.
pub uninterp spec fn datetime_parsed(text: Seq<char>) -> Option<i64>;

/// The fields have distinct names and none holds a value of another kind.
pub open spec fn is_plain_doc(d: Seq<(Seq<char>, FieldView)>) -> bool {
    &&& forall|i: int, j: int| 0 <= i < j < d.len() ==> #[trigger] d[i].0 != #[trigger] d[j].0
    &&& forall|i: int| 0 <= i < d.len() ==> !(#[trigger] d[i].1 is Other)
}

/// Relies on json's `object::Object::insert` and `JsonValue::dump`: the JSON
/// text of an object holding the fields in order, text as strings, lists as
/// arrays of strings and nulls, other values as null. Relies on json's
/// `parse` and `JsonValue::as_str` for the read-back: a document with
/// distinct names and no value of another kind is read back unchanged
/// (strings are escaped by `dump` and unescaped by `parse`; objects keep
/// their order of insertion).
#[verifier::external_body]
fn json_dump(doc: &Vec<(String, Field)>) -> (r: String)
    ensures
        r@ == json_text(doc_view(doc@)),
        is_plain_doc(doc_view(doc@)) ==> json_document(r@) == Some(doc_view(doc@)),
{
    let mut obj = json::object::Object::new();
    for (key, field) in doc.iter() {
        obj.insert(key, match field {
            Field::Text(s) => json::JsonValue::String(s.clone()),
            Field::List(l) => json::JsonValue::Array(
                l.iter().map(|x| x.clone().map_or(json::JsonValue::Null, json::JsonValue::String)).collect(),
            ),
            Field::Null | Field::Other => json::JsonValue::Null,
        });
    }
    json::JsonValue::Object(obj).dump()
}

/// Relies on json's `parse` and `JsonValue::as_str`: the fields of the JSON
/// object the text holds, in order; `None` if it holds no JSON object.
#[verifier::external_body]
fn json_read(text: &str) -> (r: Option<Vec<(String, Field)>>)
    ensures
        match r {
            Some(d) => json_document(text@) == Some(doc_view(d@)),
            None => json_document(text@) is None,
        },
{
    let json::JsonValue::Object(obj) = json::parse(text).ok()? else { return None };
    Some(obj.iter().map(|(k, v)| (k.to_string(), match v {
        json::JsonValue::Null => Field::Null,
        json::JsonValue::Array(a) => Field::List(a.iter().map(|x| x.as_str().map(|s| s.to_string())).collect()),
        _ => v.as_str().map_or(Field::Other, |s| Field::Text(s.to_string())),
    })).collect())
}

/// The first and the last millisecond of the years 1970 to 9999, whose
/// four-digit text chrono writes and reads.
pub const FIRST_WRITTEN_MILLIS: i64 = 0;
pub const LAST_WRITTEN_MILLIS: i64 = 253402300799999;

/// Relies on chrono's `DateTime::<Utc>::from_timestamp_millis` and its
/// `Display`: the instant as text, if chrono can represent it. Relies on
/// chrono's `FromStr` for `DateTime<Utc>` (the relaxed RFC 3339 reading,
/// which takes the space and the `UTC` that `Display` writes) for the
/// read-back: within the years 1970 to 9999 the text reads back as the same
/// millisecond.
#[verifier::external_body]
fn write_datetime(t: Timestamp) -> (r: Option<String>)
    ensures
        match r {
            Some(s) => datetime_text(t.millis) == Some(s@),
            None => datetime_text(t.millis) is None,
        },
        FIRST_WRITTEN_MILLIS <= t.millis <= LAST_WRITTEN_MILLIS ==> match r {
            Some(s) => datetime_parsed(s@) == Some(t.millis),
            None => false,
        },
{
    chrono::DateTime::<chrono::Utc>::from_timestamp_millis(t.millis).map(|d| d.to_string())
}

/// Relies on chrono's `FromStr` for `DateTime<Utc>` and
/// `DateTime::timestamp_millis`: the instant the text names, if it names one.
#[verifier::external_body]
fn read_datetime(text: &str) -> (r: Option<Timestamp>)
    ensures
        match r {
            Some(t) => datetime_parsed(text@) == Some(t.millis),
            None => datetime_parsed(text@) is None,
        },
{
    text.parse::<chrono::DateTime<chrono::Utc>>().ok().map(|d| Timestamp { millis: d.timestamp_millis() })
}

/// The value of the first field named `key`; a missing field reads as null.
pub open spec fn lookup(doc: Seq<(Seq<char>, FieldView)>, key: Seq<char>) -> FieldView
    decreases doc.len(),
{
    if doc.len() == 0 {
        FieldView::Null
    } else if doc[0].0 == key {
        doc[0].1
    } else {
        lookup(doc.drop_first(), key)
    }
}

/// The text items of a list, in order, skipping items that are not text.
pub open spec fn texts(l: Seq<Option<Seq<char>>>) -> Seq<Seq<char>>
    decreases l.len(),
{
    if l.len() == 0 {
        Seq::empty()
    } else {
        match l.last() {
            Some(s) => texts(l.drop_last()).push(s),
            None => texts(l.drop_last()),
        }
    }
}

/// Each text as a list item.
pub open spec fn as_items(s: Seq<Seq<char>>) -> Seq<Option<Seq<char>>> {
    s.map_values(|x: Seq<char>| Some(x))
}

/// A text field's text; any other value reads as empty text.
pub open spec fn text_of(f: FieldView) -> Seq<char> {
    match f {
        FieldView::Text(s) => s,
        _ => Seq::empty(),
    }
}

/// The text items of a list field; any other value reads as no items.
pub open spec fn list_of(f: FieldView) -> Seq<Seq<char>> {
    match f {
        FieldView::List(l) => texts(l),
        _ => Seq::empty(),
    }
}

/// Item `i` of a list when it is text, else the text `null`.
pub open spec fn item_or_null(l: Seq<Option<Seq<char>>>, i: int) -> Seq<char> {
    if 0 <= i < l.len() && l[i] is Some {
        l[i]->0
    } else {
        "null"@
    }
}

/// The pronouns a field gives: three items of a list, absent otherwise.
pub open spec fn pronouns_of(f: FieldView) -> Option<Seq<Seq<char>>> {
    match f {
        FieldView::List(l) => Some(seq![item_or_null(l, 0), item_or_null(l, 1), item_or_null(l, 2)]),
        _ => None,
    }
}

pub open spec fn user_doc(u: UserView) -> Seq<(Seq<char>, FieldView)> {
    seq![
        ("about"@, FieldView::Text(u.about)),
        ("pronouns"@, match u.pronouns {
            Some(p) => FieldView::List(as_items(p)),
            None => FieldView::Null,
        }),
        ("fav-topics"@, FieldView::List(as_items(u.fav_topics))),
        ("fav-threads"@, FieldView::List(as_items(u.fav_threads))),
    ]
}

pub open spec fn user_of_doc(d: Seq<(Seq<char>, FieldView)>) -> UserView {
    UserView {
        about: text_of(lookup(d, "about"@)),
        pronouns: pronouns_of(lookup(d, "pronouns"@)),
        fav_topics: list_of(lookup(d, "fav-topics"@)),
        fav_threads: list_of(lookup(d, "fav-threads"@)),
    }
}

proof fn lemma_texts_items(s: Seq<Seq<char>>)
    ensures
        texts(as_items(s)) == s,
    decreases s.len(),
{
    if s.len() > 0 {
        assert(as_items(s).drop_last() =~= as_items(s.drop_last()));
        lemma_texts_items(s.drop_last());
        assert(s.drop_last().push(s.last()) =~= s);
    }
}

/// A user profile turned into its document and read back is the same
/// profile, in every field.
pub proof fn lemma_user_round_trip(u: UserView)
    requires
        u.pronouns is Some ==> u.pronouns->0.len() == 3,
    ensures
        user_of_doc(user_doc(u)) == u,
{
    reveal_strlit("about");
    reveal_strlit("pronouns");
    reveal_strlit("fav-topics");
    reveal_strlit("fav-threads");
    let d = user_doc(u);
    reveal_with_fuel(lookup, 5);
    assert("about"@.len() == 5 && "pronouns"@.len() == 8);
    assert("fav-topics"@.len() == 10 && "fav-threads"@.len() == 11);
    assert("about"@ != "pronouns"@ && "about"@ != "fav-topics"@ && "about"@ != "fav-threads"@);
    assert("pronouns"@ != "fav-topics"@ && "pronouns"@ != "fav-threads"@);
    assert("fav-topics"@ != "fav-threads"@);
    assert(d.drop_first()[0] == d[1]);
    assert(d.drop_first().drop_first()[0] == d[2]);
    assert(d.drop_first().drop_first().drop_first()[0] == d[3]);
    assert(lookup(d, "about"@) == FieldView::Text(u.about));
    assert(lookup(d.drop_first(), "pronouns"@) == d[1].1);
    assert(lookup(d, "pronouns"@) == d[1].1);
    assert(lookup(d.drop_first().drop_first(), "fav-topics"@) == d[2].1);
    assert(lookup(d, "fav-topics"@) == d[2].1);
    assert(lookup(d.drop_first().drop_first().drop_first(), "fav-threads"@) == d[3].1);
    assert(lookup(d, "fav-threads"@) == d[3].1);
    lemma_texts_items(u.fav_topics);
    lemma_texts_items(u.fav_threads);
    if u.pronouns is Some {
        let p = u.pronouns->0;
        assert(pronouns_of(d[1].1)->0 =~= p);
    }
}

/// The value of the first field named `key`, if there is one.
fn lookup_field<'a>(doc: &'a Vec<(String, Field)>, key: &str) -> (r: Option<&'a Field>)
    ensures
        match r {
            Some(f) => f@ == lookup(doc_view(doc@), key@),
            None => lookup(doc_view(doc@), key@) == FieldView::Null,
        },
{
    let ghost k = key@;
    let owned = key.to_owned();
    let mut i: usize = 0;
    assert(doc_view(doc@).skip(0) =~= doc_view(doc@));
    while i < doc.len()
        invariant
            i <= doc@.len(),
            owned@ == k,
            k == key@,
            lookup(doc_view(doc@), k) == lookup(doc_view(doc@).skip(i as int), k),
        decreases doc@.len() - i,
    {
        let ghost rest = doc_view(doc@).skip(i as int);
        assert(rest.drop_first() =~= doc_view(doc@).skip(i + 1));
        assert(rest.len() > 0);
        assert(rest[0] == (doc@[i as int].0@, doc@[i as int].1@));
        if doc[i].0 == owned {
            assert(rest[0].0 == k);
            assert(lookup(rest, k) == rest[0].1);
            let f = &doc[i].1;
            assert(f@ == lookup(doc_view(doc@), k));
            assert(k == key@);
            return Some(f);
        }
        assert(lookup(rest, k) == lookup(rest.drop_first(), k));
        i = i + 1;
    }
    assert(doc_view(doc@).skip(i as int).len() == 0);
    None
}

/// The field's text, or empty text.
fn text_field(f: Option<&Field>) -> (r: String)
    ensures
        r@ == text_of(
            match f {
                Some(f) => f@,
                None => FieldView::Null,
            },
        ),
{
    match f {
        Some(Field::Text(s)) => s.clone(),
        _ => String::new(),
    }
}

/// The text items of a list.
fn text_items(l: &Vec<Option<String>>) -> (r: Vec<String>)
    ensures
        r@.map_values(|s: String| s@) == texts(item_views(l@)),
{
    let mut out: Vec<String> = Vec::new();
    let mut i: usize = 0;
    while i < l.len()
        invariant
            i <= l@.len(),
            out@.map_values(|s: String| s@) == texts(item_views(l@).take(i as int)),
        decreases l@.len() - i,
    {
        let ghost before = out@;
        assert(item_views(l@).take(i + 1).drop_last() =~= item_views(l@).take(i as int));
        match &l[i] {
            Some(s) => {
                out.push(s.clone());
                assert(out@.map_values(|s: String| s@) =~= before.map_values(|s: String| s@).push(s@));
            },
            None => {},
        }
        i = i + 1;
    }
    assert(item_views(l@).take(l@.len() as int) =~= item_views(l@));
    out
}

/// Item `i` of a list when it is text, else the text `null`.
fn item_or_null_exec(l: &Vec<Option<String>>, i: usize) -> (r: String)
    ensures
        r@ == item_or_null(item_views(l@), i as int),
{
    if i < l.len() {
        match &l[i] {
            Some(s) => {
                return s.clone();
            },
            None => {},
        }
    }
    "null".to_owned()
}

/// Each text as a list item.
fn items_of_topics(v: &Vec<TopicID>) -> (r: Vec<Option<String>>)
    ensures
        item_views(r@) == as_items(topic_ids(v@)),
{
    let mut out: Vec<Option<String>> = Vec::new();
    let mut i: usize = 0;
    while i < v.len()
        invariant
            i <= v@.len(),
            item_views(out@) == as_items(topic_ids(v@.take(i as int))),
        decreases v@.len() - i,
    {
        let ghost before = out@;
        assert(v@.take(i + 1) =~= v@.take(i as int).push(v@[i as int]));
        assert(topic_ids(v@.take(i + 1)) =~= topic_ids(v@.take(i as int)).push(v@[i as int]@));
        assert(as_items(topic_ids(v@.take(i + 1))) =~= as_items(topic_ids(v@.take(i as int))).push(
            Some(v@[i as int]@),
        ));
        out.push(Some(v[i].0.clone()));
        assert(item_views(out@) =~= item_views(before).push(Some(v@[i as int]@)));
        i = i + 1;
    }
    assert(v@.take(v@.len() as int) =~= v@);
    out
}

/// Each text as a list item.
fn items_of_threads(v: &Vec<ThreadID>) -> (r: Vec<Option<String>>)
    ensures
        item_views(r@) == as_items(thread_ids(v@)),
{
    let mut out: Vec<Option<String>> = Vec::new();
    let mut i: usize = 0;
    while i < v.len()
        invariant
            i <= v@.len(),
            item_views(out@) == as_items(thread_ids(v@.take(i as int))),
        decreases v@.len() - i,
    {
        let ghost before = out@;
        assert(v@.take(i + 1) =~= v@.take(i as int).push(v@[i as int]));
        assert(thread_ids(v@.take(i + 1)) =~= thread_ids(v@.take(i as int)).push(v@[i as int]@));
        assert(as_items(thread_ids(v@.take(i + 1))) =~= as_items(thread_ids(v@.take(i as int))).push(
            Some(v@[i as int]@),
        ));
        out.push(Some(v[i].0.clone()));
        assert(item_views(out@) =~= item_views(before).push(Some(v@[i as int]@)));
        i = i + 1;
    }
    assert(v@.take(v@.len() as int) =~= v@);
    out
}

/// Each text as a list item.
fn items_of_replies(v: &Vec<ReplyID>) -> (r: Vec<Option<String>>)
    ensures
        item_views(r@) == as_items(reply_ids(v@)),
{
    let mut out: Vec<Option<String>> = Vec::new();
    let mut i: usize = 0;
    while i < v.len()
        invariant
            i <= v@.len(),
            item_views(out@) == as_items(reply_ids(v@.take(i as int))),
        decreases v@.len() - i,
    {
        let ghost before = out@;
        assert(v@.take(i + 1) =~= v@.take(i as int).push(v@[i as int]));
        assert(reply_ids(v@.take(i + 1)) =~= reply_ids(v@.take(i as int)).push(v@[i as int]@));
        assert(as_items(reply_ids(v@.take(i + 1))) =~= as_items(reply_ids(v@.take(i as int))).push(
            Some(v@[i as int]@),
        ));
        out.push(Some(v[i].0.clone()));
        assert(item_views(out@) =~= item_views(before).push(Some(v@[i as int]@)));
        i = i + 1;
    }
    assert(v@.take(v@.len() as int) =~= v@);
    out
}

/// The document of a user profile.
pub fn user_document(user: &User) -> (r: Vec<(String, Field)>)
    ensures
        doc_view(r@) == user_doc(user@),
{
    let pronouns = match &user.pronouns {
        Some(p) => {
            let l = vec![Some(p[0].clone()), Some(p[1].clone()), Some(p[2].clone())];
            assert(item_views(l@) =~= as_items(user@.pronouns->0));
            Field::List(l)
        },
        None => Field::Null,
    };
    let r = vec![
        ("about".to_owned(), Field::Text(user.about.clone())),
        ("pronouns".to_owned(), pronouns),
        ("fav-topics".to_owned(), Field::List(items_of_topics(&user.fav_topics))),
        ("fav-threads".to_owned(), Field::List(items_of_threads(&user.fav_threads))),
    ];
    assert(doc_view(r@) =~= user_doc(user@));
    r
}

/// The user profile a document describes.
pub fn user_from_document(doc: &Vec<(String, Field)>) -> (r: User)
    ensures
        r@ == user_of_doc(doc_view(doc@)),
{
    let about = text_field(lookup_field(doc, "about"));
    let pronouns = match lookup_field(doc, "pronouns") {
        Some(Field::List(l)) => {
            let p = [item_or_null_exec(l, 0), item_or_null_exec(l, 1), item_or_null_exec(l, 2)];
            assert(p@.map_values(|s: String| s@) =~= pronouns_of(FieldView::List(item_views(l@)))->0);
            Some(p)
        },
        _ => None,
    };
    let fav_topics = match lookup_field(doc, "fav-topics") {
        Some(Field::List(l)) => text_items(l),
        _ => Vec::new(),
    };
    let fav_threads = match lookup_field(doc, "fav-threads") {
        Some(Field::List(l)) => text_items(l),
        _ => Vec::new(),
    };
    let mut topics: Vec<TopicID> = Vec::new();
    let mut i: usize = 0;
    while i < fav_topics.len()
        invariant
            i <= fav_topics@.len(),
            topic_ids(topics@) == fav_topics@.take(i as int).map_values(|s: String| s@),
        decreases fav_topics@.len() - i,
    {
        let ghost before = topics@;
        assert(fav_topics@.take(i + 1) =~= fav_topics@.take(i as int).push(fav_topics@[i as int]));
        assert(fav_topics@.take(i + 1).map_values(|s: String| s@) =~= fav_topics@.take(
            i as int,
        ).map_values(|s: String| s@).push(fav_topics@[i as int]@));
        topics.push(TopicID(fav_topics[i].clone()));
        assert(topic_ids(topics@) =~= topic_ids(before).push(fav_topics@[i as int]@));
        i = i + 1;
    }
    let mut threads: Vec<ThreadID> = Vec::new();
    let mut j: usize = 0;
    while j < fav_threads.len()
        invariant
            j <= fav_threads@.len(),
            thread_ids(threads@) == fav_threads@.take(j as int).map_values(|s: String| s@),
        decreases fav_threads@.len() - j,
    {
        let ghost before = threads@;
        assert(fav_threads@.take(j + 1) =~= fav_threads@.take(j as int).push(fav_threads@[j as int]));
        assert(fav_threads@.take(j + 1).map_values(|s: String| s@) =~= fav_threads@.take(
            j as int,
        ).map_values(|s: String| s@).push(fav_threads@[j as int]@));
        threads.push(ThreadID(fav_threads[j].clone()));
        assert(thread_ids(threads@) =~= thread_ids(before).push(fav_threads@[j as int]@));
        j = j + 1;
    }
    assert(fav_topics@.take(fav_topics@.len() as int) =~= fav_topics@);
    assert(fav_threads@.take(fav_threads@.len() as int) =~= fav_threads@);
    let r = User { about, pronouns, fav_topics: topics, fav_threads: threads };
    assert(r@.about == text_of(lookup(doc_view(doc@), "about"@)));
    assert(r@.pronouns == pronouns_of(lookup(doc_view(doc@), "pronouns"@)));
    assert(r@.fav_topics == list_of(lookup(doc_view(doc@), "fav-topics"@)));
    assert(r@.fav_threads == list_of(lookup(doc_view(doc@), "fav-threads"@)));
    r
}

pub open spec fn topic_doc(t: TopicView) -> Seq<(Seq<char>, FieldView)> {
    seq![("about"@, FieldView::Text(t.about)), ("threads"@, FieldView::List(as_items(t.threads)))]
}

pub open spec fn topic_of_doc(d: Seq<(Seq<char>, FieldView)>) -> TopicView {
    TopicView { about: text_of(lookup(d, "about"@)), threads: list_of(lookup(d, "threads"@)) }
}

pub open spec fn thread_doc(t: ThreadView) -> Seq<(Seq<char>, FieldView)> {
    seq![("title"@, FieldView::Text(t.title)), ("replies"@, FieldView::List(as_items(t.replies)))]
}

pub open spec fn thread_of_doc(d: Seq<(Seq<char>, FieldView)>) -> ThreadView {
    ThreadView { title: text_of(lookup(d, "title"@)), replies: list_of(lookup(d, "replies"@)) }
}

/// The document of a reply whose creation time is written as `created`.
pub open spec fn reply_doc(r: ReplyView, created: Seq<char>) -> Seq<(Seq<char>, FieldView)> {
    seq![
        ("created"@, FieldView::Text(created)),
        ("user"@, FieldView::Text(r.user)),
        ("content"@, FieldView::Text(r.content)),
    ]
}

/// The reply a document describes; none if its creation time does not read
/// as an instant.
pub open spec fn reply_of_doc(d: Seq<(Seq<char>, FieldView)>) -> Option<ReplyView> {
    match lookup(d, "created"@) {
        FieldView::Text(s) => match datetime_parsed(s) {
            Some(m) => Some(
                ReplyView {
                    created: Timestamp { millis: m },
                    user: text_of(lookup(d, "user"@)),
                    content: text_of(lookup(d, "content"@)),
                },
            ),
            None => None,
        },
        _ => None,
    }
}

/// A topic turned into its document and read back is the same topic.
pub proof fn lemma_topic_round_trip(t: TopicView)
    ensures
        topic_of_doc(topic_doc(t)) == t,
{
    reveal_strlit("about");
    reveal_strlit("threads");
    reveal_with_fuel(lookup, 3);
    assert("about"@.len() == 5 && "threads"@.len() == 7);
    let d = topic_doc(t);
    assert(d.drop_first()[0] == d[1]);
    lemma_texts_items(t.threads);
}

/// A thread turned into its document and read back is the same thread.
pub proof fn lemma_thread_round_trip(t: ThreadView)
    ensures
        thread_of_doc(thread_doc(t)) == t,
{
    reveal_strlit("title");
    reveal_strlit("replies");
    reveal_with_fuel(lookup, 3);
    assert("title"@.len() == 5 && "replies"@.len() == 7);
    let d = thread_doc(t);
    assert(d.drop_first()[0] == d[1]);
    lemma_texts_items(t.replies);
}

/// A reply turned into its document and read back is the same reply,
/// provided chrono reads the text it wrote for the creation time back as the
/// same instant.
pub proof fn lemma_reply_round_trip(r: ReplyView, created: Seq<char>)
    requires
        datetime_text(r.created.millis) == Some(created),
        datetime_parsed(created) == Some(r.created.millis),
    ensures
        reply_of_doc(reply_doc(r, created)) == Some(r),
{
    reveal_strlit("created");
    reveal_strlit("user");
    reveal_strlit("content");
    reveal_with_fuel(lookup, 4);
    assert("created"@.len() == 7 && "user"@.len() == 4 && "content"@.len() == 7);
    assert("created"@ != "content"@) by {
        assert("created"@[1] != "content"@[1]);
    }
    let d = reply_doc(r, created);
    assert(d.drop_first()[0] == d[1]);
    assert(d.drop_first().drop_first()[0] == d[2]);
}

/// The stored documents have distinct field names and no value of another
/// kind.
pub proof fn lemma_docs_plain(u: UserView, t: TopicView, th: ThreadView, r: ReplyView, created: Seq<char>, p: PasswordView)
    ensures
        is_plain_doc(user_doc(u)),
        is_plain_doc(topic_doc(t)),
        is_plain_doc(thread_doc(th)),
        is_plain_doc(reply_doc(r, created)),
        is_plain_doc(password_doc(p)),
{
    reveal_strlit("about");
    reveal_strlit("pronouns");
    reveal_strlit("fav-topics");
    reveal_strlit("fav-threads");
    reveal_strlit("threads");
    reveal_strlit("title");
    reveal_strlit("replies");
    reveal_strlit("created");
    reveal_strlit("user");
    reveal_strlit("content");
    reveal_strlit("salt");
    reveal_strlit("hashed");
    assert("about"@.len() == 5 && "pronouns"@.len() == 8);
    assert("fav-topics"@.len() == 10 && "fav-threads"@.len() == 11);
    assert("threads"@.len() == 7 && "title"@.len() == 5 && "replies"@.len() == 7);
    assert("created"@.len() == 7 && "user"@.len() == 4 && "content"@.len() == 7);
    assert("created"@[1] != "content"@[1]);
    assert("about"@[0] != "title"@[0]);
    assert("salt"@.len() == 4 && "hashed"@.len() == 6);
    assert("fav-topics"@ != "fav-threads"@);
    let d = user_doc(u);
    assert forall|i: int, j: int| 0 <= i < j < d.len() implies #[trigger] d[i].0 != #[trigger] d[j].0 by {
    }
    let d = reply_doc(r, created);
    assert forall|i: int, j: int| 0 <= i < j < d.len() implies #[trigger] d[i].0 != #[trigger] d[j].0 by {
    }
}

/// A file named by the identifier `id` and the extension `.json` has `id` as
/// its stem, provided `id` holds no `.`.
pub proof fn lemma_json_file_stem(id: Seq<char>)
    requires
        !id.contains('.'),
    ensures
        stem_of(id + ".json"@) == id,
{
    reveal_strlit(".json");
    let name = id + ".json"@;
    assert forall|j: int| 0 <= j < id.len() implies name[j] != '.' by {
        assert(name[j] == id[j]);
        if id[j] == '.' {
            assert(id.contains('.'));
        }
    }
    assert(name[id.len() as int] == '.');
    lemma_stem(name, id.len() as int);
    assert(name.take(id.len() as int) =~= id);
}

/// The document of a topic.
pub fn topic_document(topic: &Topic) -> (r: Vec<(String, Field)>)
    ensures
        doc_view(r@) == topic_doc(topic@),
{
    let r = vec![
        ("about".to_owned(), Field::Text(topic.about.clone())),
        ("threads".to_owned(), Field::List(items_of_threads(&topic.threads))),
    ];
    assert(doc_view(r@) =~= topic_doc(topic@));
    r
}

/// Identifiers from their texts.
fn thread_ids_of(v: Vec<String>) -> (r: Vec<ThreadID>)
    ensures
        thread_ids(r@) == v@.map_values(|s: String| s@),
{
    let mut out: Vec<ThreadID> = Vec::new();
    let mut i: usize = 0;
    while i < v.len()
        invariant
            i <= v@.len(),
            thread_ids(out@) == v@.take(i as int).map_values(|s: String| s@),
        decreases v@.len() - i,
    {
        let ghost before = out@;
        assert(v@.take(i + 1) =~= v@.take(i as int).push(v@[i as int]));
        assert(v@.take(i + 1).map_values(|s: String| s@) =~= v@.take(i as int).map_values(
            |s: String| s@,
        ).push(v@[i as int]@));
        out.push(ThreadID(v[i].clone()));
        assert(thread_ids(out@) =~= thread_ids(before).push(v@[i as int]@));
        i = i + 1;
    }
    assert(v@.take(v@.len() as int) =~= v@);
    out
}

/// Identifiers from their texts.
fn reply_ids_of(v: Vec<String>) -> (r: Vec<ReplyID>)
    ensures
        reply_ids(r@) == v@.map_values(|s: String| s@),
{
    let mut out: Vec<ReplyID> = Vec::new();
    let mut i: usize = 0;
    while i < v.len()
        invariant
            i <= v@.len(),
            reply_ids(out@) == v@.take(i as int).map_values(|s: String| s@),
        decreases v@.len() - i,
    {
        let ghost before = out@;
        assert(v@.take(i + 1) =~= v@.take(i as int).push(v@[i as int]));
        assert(v@.take(i + 1).map_values(|s: String| s@) =~= v@.take(i as int).map_values(
            |s: String| s@,
        ).push(v@[i as int]@));
        out.push(ReplyID(v[i].clone()));
        assert(reply_ids(out@) =~= reply_ids(before).push(v@[i as int]@));
        i = i + 1;
    }
    assert(v@.take(v@.len() as int) =~= v@);
    out
}

/// The text items of a list field, or none.
fn list_field(f: Option<&Field>) -> (r: Vec<String>)
    ensures
        r@.map_values(|s: String| s@) == list_of(
            match f {
                Some(f) => f@,
                None => FieldView::Null,
            },
        ),
{
    match f {
        Some(Field::List(l)) => text_items(l),
        _ => {
            let r: Vec<String> = Vec::new();
            assert(r@.map_values(|s: String| s@) =~= Seq::<Seq<char>>::empty());
            r
        },
    }
}

/// The topic a document describes.
pub fn topic_from_document(doc: &Vec<(String, Field)>) -> (r: Topic)
    ensures
        r@ == topic_of_doc(doc_view(doc@)),
{
    let about = text_field(lookup_field(doc, "about"));
    let threads = thread_ids_of(list_field(lookup_field(doc, "threads")));
    Topic { about, threads }
}

/// The document of a thread.
pub fn thread_document(thread: &Thread) -> (r: Vec<(String, Field)>)
    ensures
        doc_view(r@) == thread_doc(thread@),
{
    let r = vec![
        ("title".to_owned(), Field::Text(thread.title.clone())),
        ("replies".to_owned(), Field::List(items_of_replies(&thread.replies))),
    ];
    assert(doc_view(r@) =~= thread_doc(thread@));
    r
}

/// The thread a document describes.
pub fn thread_from_document(doc: &Vec<(String, Field)>) -> (r: Thread)
    ensures
        r@ == thread_of_doc(doc_view(doc@)),
{
    let title = text_field(lookup_field(doc, "title"));
    let replies = reply_ids_of(list_field(lookup_field(doc, "replies")));
    Thread { title, replies }
}

/// The document of a reply; `None` if chrono cannot write its creation time.
pub fn reply_document(reply: &Reply) -> (r: Option<Vec<(String, Field)>>)
    ensures
        match r {
            Some(d) => datetime_text(reply.created.millis) is Some && doc_view(d@) == reply_doc(
                reply@,
                datetime_text(reply.created.millis)->0,
            ),
            None => datetime_text(reply.created.millis) is None,
        },
        FIRST_WRITTEN_MILLIS <= reply.created.millis <= LAST_WRITTEN_MILLIS ==> r is Some
            && datetime_parsed(datetime_text(reply.created.millis)->0) == Some(reply.created.millis),
{
    let created = match write_datetime(reply.created) {
        Some(s) => s,
        None => return None,
    };
    let r = vec![
        ("created".to_owned(), Field::Text(created)),
        ("user".to_owned(), Field::Text(reply.user.0.clone())),
        ("content".to_owned(), Field::Text(reply.content.clone())),
    ];
    assert(doc_view(r@) =~= reply_doc(reply@, datetime_text(reply.created.millis)->0));
    Some(r)
}

/// The reply a document describes, if its creation time reads as an instant.
pub fn reply_from_document(doc: &Vec<(String, Field)>) -> (r: Option<Reply>)
    ensures
        match r {
            Some(p) => reply_of_doc(doc_view(doc@)) == Some(p@),
            None => reply_of_doc(doc_view(doc@)) is None,
        },
{
    let created = match lookup_field(doc, "created") {
        Some(Field::Text(s)) => match read_datetime(s.as_str()) {
            Some(t) => t,
            None => return None,
        },
        _ => return None,
    };
    let user = UserID(text_field(lookup_field(doc, "user")));
    let content = text_field(lookup_field(doc, "content"));
    Some(Reply { created, user, content })
}

/// The JSON text stored for a user profile.
pub fn encode_user(user: &User) -> (r: String)
    ensures
        r@ == json_text(user_doc(user@)),
        json_document(r@) == Some(user_doc(user@)),
{
    let d = user_document(user);
    proof {
        lemma_docs_plain(user@, arbitrary(), arbitrary(), arbitrary(), arbitrary(), arbitrary());
    }
    json_dump(&d)
}

/// The user profile stored as `text`, if the text holds a JSON object.
pub fn decode_user(text: &str) -> (r: Option<User>)
    ensures
        match r {
            Some(u) => json_document(text@) is Some && u@ == user_of_doc(json_document(text@)->0),
            None => json_document(text@) is None,
        },
{
    match json_read(text) {
        Some(d) => Some(user_from_document(&d)),
        None => None,
    }
}

/// The JSON text stored for a topic.
pub fn encode_topic(topic: &Topic) -> (r: String)
    ensures
        r@ == json_text(topic_doc(topic@)),
        json_document(r@) == Some(topic_doc(topic@)),
{
    let d = topic_document(topic);
    proof {
        lemma_docs_plain(arbitrary(), topic@, arbitrary(), arbitrary(), arbitrary(), arbitrary());
    }
    json_dump(&d)
}

/// The topic stored as `text`, if the text holds a JSON object.
pub fn decode_topic(text: &str) -> (r: Option<Topic>)
    ensures
        match r {
            Some(t) => json_document(text@) is Some && t@ == topic_of_doc(json_document(text@)->0),
            None => json_document(text@) is None,
        },
{
    match json_read(text) {
        Some(d) => Some(topic_from_document(&d)),
        None => None,
    }
}

/// The JSON text stored for a thread.
pub fn encode_thread(thread: &Thread) -> (r: String)
    ensures
        r@ == json_text(thread_doc(thread@)),
        json_document(r@) == Some(thread_doc(thread@)),
{
    let d = thread_document(thread);
    proof {
        lemma_docs_plain(arbitrary(), arbitrary(), thread@, arbitrary(), arbitrary(), arbitrary());
    }
    json_dump(&d)
}

/// The thread stored as `text`, if the text holds a JSON object.
pub fn decode_thread(text: &str) -> (r: Option<Thread>)
    ensures
        match r {
            Some(t) => json_document(text@) is Some && t@ == thread_of_doc(json_document(text@)->0),
            None => json_document(text@) is None,
        },
{
    match json_read(text) {
        Some(d) => Some(thread_from_document(&d)),
        None => None,
    }
}

/// The JSON text stored for a reply; `None` if chrono cannot write its
/// creation time.
pub fn encode_reply(reply: &Reply) -> (r: Option<String>)
    ensures
        match r {
            Some(s) => {
                &&& datetime_text(reply.created.millis) is Some
                &&& s@ == json_text(reply_doc(reply@, datetime_text(reply.created.millis)->0))
                &&& json_document(s@) == Some(reply_doc(reply@, datetime_text(reply.created.millis)->0))
            },
            None => datetime_text(reply.created.millis) is None,
        },
        FIRST_WRITTEN_MILLIS <= reply.created.millis <= LAST_WRITTEN_MILLIS ==> r is Some
            && datetime_parsed(datetime_text(reply.created.millis)->0) == Some(reply.created.millis),
{
    match reply_document(reply) {
        Some(d) => {
            proof {
                lemma_docs_plain(
                    arbitrary(),
                    arbitrary(),
                    arbitrary(),
                    reply@,
                    datetime_text(reply.created.millis)->0,
                    arbitrary(),
                );
            }
            Some(json_dump(&d))
        },
        None => None,
    }
}

/// The reply stored as `text`, if the text holds a JSON object describing
/// one.
pub fn decode_reply(text: &str) -> (r: Option<Reply>)
    ensures
        match r {
            Some(p) => json_document(text@) is Some && reply_of_doc(json_document(text@)->0) == Some(
                p@,
            ),
            None => json_document(text@) is None || reply_of_doc(json_document(text@)->0) is None,
        },
{
    match json_read(text) {
        Some(d) => reply_from_document(&d),
        None => None,
    }
}

/// The part of a file name before its first `.`: the identifier it stores.
pub open spec fn stem_of(name: Seq<char>) -> Seq<char>
    decreases name.len(),
{
    if name.len() == 0 || name[0] == '.' {
        Seq::empty()
    } else {
        seq![name[0]] + stem_of(name.drop_first())
    }
}

proof fn lemma_stem(name: Seq<char>, i: int)
    requires
        0 <= i <= name.len(),
        forall|j: int| 0 <= j < i ==> name[j] != '.',
        i == name.len() || name[i] == '.',
    ensures
        stem_of(name) == name.take(i),
    decreases i,
{
    if i > 0 {
        lemma_stem(name.drop_first(), i - 1);
        assert(seq![name[0]] + name.drop_first().take(i - 1) =~= name.take(i));
    } else {
        assert(name.take(0) =~= Seq::<char>::empty());
    }
}

/// The identifier a stored file holds: its name up to the first `.`.
pub fn file_stem(name: &str) -> (r: String)
    ensures
        r@ == stem_of(name@),
{
    let n: usize = name.unicode_len();
    let mut i: usize = 0;
    while i < n
        invariant
            n == name@.len(),
            i <= n,
            forall|j: int| 0 <= j < i ==> name@[j] != '.',
        ensures
            i <= n,
            forall|j: int| 0 <= j < i ==> name@[j] != '.',
            i == n || name@[i as int] == '.',
        decreases n - i,
    {
        if name.get_char(i) == '.' {
            break;
        }
        i = i + 1;
    }
    proof {
        lemma_stem(name@, i as int);
    }
    name.substring_char(0, i).to_owned()
}

/// The name and text of each file, in order.
pub open spec fn file_views(files: Seq<(String, String)>) -> Seq<(Seq<char>, Seq<char>)> {
    files.map_values(|f: (String, String)| (f.0@, f.1@))
}

/// The users that the stored files give: each file that decodes is keyed by
/// its name's stem, and a later file replaces an earlier one of the same stem.
pub open spec fn loaded_users(files: Seq<(Seq<char>, Seq<char>)>) -> Map<Seq<char>, UserView>
    decreases files.len(),
{
    if files.len() == 0 {
        Map::empty()
    } else {
        let m = loaded_users(files.drop_last());
        match json_document(files.last().1) {
            Some(d) => m.insert(stem_of(files.last().0), user_of_doc(d)),
            None => m,
        }
    }
}

/// Reads the users from the stored files, given as name and text;
/// files that do not decode are skipped.
pub fn load_users(files: &Vec<(String, String)>) -> (r: Table<User>)
    ensures
        r.wf(),
        r@.map_values(|x: User| x@) == loaded_users(file_views(files@)),
{
    let mut t: Table<User> = Table::new();
    let mut i: usize = 0;
    proof {
        assert(file_views(files@).take(0).len() == 0);
        assert(t@.map_values(|x: User| x@) =~= Map::empty());
    }
    while i < files.len()
        invariant
            t.wf(),
            i <= files@.len(),
            t@.map_values(|x: User| x@) == loaded_users(file_views(files@).take(i as int)),
        decreases files@.len() - i,
    {
        let ghost before = t@.map_values(|x: User| x@);
        proof {
            assert(file_views(files@).take(i + 1).drop_last() =~= file_views(files@).take(i as int));
            assert(file_views(files@).take(i + 1).last() == (files@[i as int].0@, files@[i as int].1@));
        }
        match decode_user(files[i].1.as_str()) {
            Some(x) => {
                let ghost xv = x@;
                t.insert(file_stem(files[i].0.as_str()), x);
                assert(t@.map_values(|x: User| x@) =~= before.insert(stem_of(files@[i as int].0@), xv));
            },
            None => {},
        }
        i = i + 1;
    }
    assert(file_views(files@).take(files@.len() as int) =~= file_views(files@));
    t
}

/// The topics that the stored files give: each file that decodes is keyed by
/// its name's stem, and a later file replaces an earlier one of the same stem.
pub open spec fn loaded_topics(files: Seq<(Seq<char>, Seq<char>)>) -> Map<Seq<char>, TopicView>
    decreases files.len(),
{
    if files.len() == 0 {
        Map::empty()
    } else {
        let m = loaded_topics(files.drop_last());
        match json_document(files.last().1) {
            Some(d) => m.insert(stem_of(files.last().0), topic_of_doc(d)),
            None => m,
        }
    }
}

/// Reads the topics from the stored files, given as name and text;
/// files that do not decode are skipped.
pub fn load_topics(files: &Vec<(String, String)>) -> (r: Table<Topic>)
    ensures
        r.wf(),
        r@.map_values(|x: Topic| x@) == loaded_topics(file_views(files@)),
{
    let mut t: Table<Topic> = Table::new();
    let mut i: usize = 0;
    proof {
        assert(file_views(files@).take(0).len() == 0);
        assert(t@.map_values(|x: Topic| x@) =~= Map::empty());
    }
    while i < files.len()
        invariant
            t.wf(),
            i <= files@.len(),
            t@.map_values(|x: Topic| x@) == loaded_topics(file_views(files@).take(i as int)),
        decreases files@.len() - i,
    {
        let ghost before = t@.map_values(|x: Topic| x@);
        proof {
            assert(file_views(files@).take(i + 1).drop_last() =~= file_views(files@).take(i as int));
            assert(file_views(files@).take(i + 1).last() == (files@[i as int].0@, files@[i as int].1@));
        }
        match decode_topic(files[i].1.as_str()) {
            Some(x) => {
                let ghost xv = x@;
                t.insert(file_stem(files[i].0.as_str()), x);
                assert(t@.map_values(|x: Topic| x@) =~= before.insert(stem_of(files@[i as int].0@), xv));
            },
            None => {},
        }
        i = i + 1;
    }
    assert(file_views(files@).take(files@.len() as int) =~= file_views(files@));
    t
}

/// The threads that the stored files give: each file that decodes is keyed by
/// its name's stem, and a later file replaces an earlier one of the same stem.
pub open spec fn loaded_threads(files: Seq<(Seq<char>, Seq<char>)>) -> Map<Seq<char>, ThreadView>
    decreases files.len(),
{
    if files.len() == 0 {
        Map::empty()
    } else {
        let m = loaded_threads(files.drop_last());
        match json_document(files.last().1) {
            Some(d) => m.insert(stem_of(files.last().0), thread_of_doc(d)),
            None => m,
        }
    }
}

/// Reads the threads from the stored files, given as name and text;
/// files that do not decode are skipped.
pub fn load_threads(files: &Vec<(String, String)>) -> (r: Table<Thread>)
    ensures
        r.wf(),
        r@.map_values(|x: Thread| x@) == loaded_threads(file_views(files@)),
{
    let mut t: Table<Thread> = Table::new();
    let mut i: usize = 0;
    proof {
        assert(file_views(files@).take(0).len() == 0);
        assert(t@.map_values(|x: Thread| x@) =~= Map::empty());
    }
    while i < files.len()
        invariant
            t.wf(),
            i <= files@.len(),
            t@.map_values(|x: Thread| x@) == loaded_threads(file_views(files@).take(i as int)),
        decreases files@.len() - i,
    {
        let ghost before = t@.map_values(|x: Thread| x@);
        proof {
            assert(file_views(files@).take(i + 1).drop_last() =~= file_views(files@).take(i as int));
            assert(file_views(files@).take(i + 1).last() == (files@[i as int].0@, files@[i as int].1@));
        }
        match decode_thread(files[i].1.as_str()) {
            Some(x) => {
                let ghost xv = x@;
                t.insert(file_stem(files[i].0.as_str()), x);
                assert(t@.map_values(|x: Thread| x@) =~= before.insert(stem_of(files@[i as int].0@), xv));
            },
            None => {},
        }
        i = i + 1;
    }
    assert(file_views(files@).take(files@.len() as int) =~= file_views(files@));
    t
}

/// The replies that the stored files give: each file that decodes is keyed by
/// its name's stem, and a later file replaces an earlier one of the same stem.
pub open spec fn loaded_replies(files: Seq<(Seq<char>, Seq<char>)>) -> Map<Seq<char>, ReplyView>
    decreases files.len(),
{
    if files.len() == 0 {
        Map::empty()
    } else {
        let m = loaded_replies(files.drop_last());
        match json_document(files.last().1) {
            Some(d) => match reply_of_doc(d) {
                Some(r) => m.insert(stem_of(files.last().0), r),
                None => m,
            },
            None => m,
        }
    }
}

/// Reads the replies from the stored files, given as name and text;
/// files that do not decode are skipped.
pub fn load_replies(files: &Vec<(String, String)>) -> (r: Table<Reply>)
    ensures
        r.wf(),
        r@.map_values(|x: Reply| x@) == loaded_replies(file_views(files@)),
{
    let mut t: Table<Reply> = Table::new();
    let mut i: usize = 0;
    proof {
        assert(file_views(files@).take(0).len() == 0);
        assert(t@.map_values(|x: Reply| x@) =~= Map::empty());
    }
    while i < files.len()
        invariant
            t.wf(),
            i <= files@.len(),
            t@.map_values(|x: Reply| x@) == loaded_replies(file_views(files@).take(i as int)),
        decreases files@.len() - i,
    {
        let ghost before = t@.map_values(|x: Reply| x@);
        proof {
            assert(file_views(files@).take(i + 1).drop_last() =~= file_views(files@).take(i as int));
            assert(file_views(files@).take(i + 1).last() == (files@[i as int].0@, files@[i as int].1@));
        }
        match decode_reply(files[i].1.as_str()) {
            Some(x) => {
                let ghost xv = x@;
                t.insert(file_stem(files[i].0.as_str()), x);
                assert(t@.map_values(|x: Reply| x@) =~= before.insert(stem_of(files@[i as int].0@), xv));
            },
            None => {},
        }
        i = i + 1;
    }
    assert(file_views(files@).take(files@.len() as int) =~= file_views(files@));
    t
}

/// The token a grant is stored as.
pub open spec fn grant_token(p: PermissionView) -> Seq<char> {
    match p {
        PermissionView::Overlord => "overlord"@,
        PermissionView::TopicOwner(t) => "mod:"@ + t,
    }
}

/// The grant a stored token names, if it names one.
pub open spec fn grant_of_token(s: Seq<char>) -> Option<PermissionView> {
    if s == "overlord"@ {
        Some(PermissionView::Overlord)
    } else if s.len() >= 4 && s.take(4) == "mod:"@ {
        Some(PermissionView::TopicOwner(s.skip(4)))
    } else {
        None
    }
}

/// The grants that stored tokens name, in order, skipping unknown tokens.
pub open spec fn grants_of_tokens(s: Seq<Seq<char>>) -> Seq<PermissionView>
    decreases s.len(),
{
    if s.len() == 0 {
        Seq::empty()
    } else {
        match grant_of_token(s.last()) {
            Some(p) => grants_of_tokens(s.drop_last()).push(p),
            None => grants_of_tokens(s.drop_last()),
        }
    }
}

/// The grants of each user that the permissions document gives.
pub open spec fn grants_of_doc(d: Seq<(Seq<char>, FieldView)>) -> Map<Seq<char>, Seq<PermissionView>>
    decreases d.len(),
{
    if d.len() == 0 {
        Map::empty()
    } else {
        grants_of_doc(d.drop_last()).insert(d.last().0, grants_of_tokens(list_of(d.last().1)))
    }
}

/// The grants that the stored permissions text gives; none if there is no
/// such text or it holds no JSON object.
pub open spec fn loaded_permissions(text: Option<Seq<char>>) -> Map<Seq<char>, Seq<PermissionView>> {
    match text {
        Some(t) => match json_document(t) {
            Some(d) => grants_of_doc(d),
            None => Map::empty(),
        },
        None => Map::empty(),
    }
}

/// A grant read back from its token is the same grant.
pub proof fn lemma_grant_token(p: PermissionView)
    ensures
        grant_of_token(grant_token(p)) == Some(p),
{
    reveal_strlit("overlord");
    reveal_strlit("mod:");
    if let PermissionView::TopicOwner(t) = p {
        let s = grant_token(p);
        assert(s[0] != "overlord"@[0]);
        assert(s.take(4) =~= "mod:"@);
        assert(s.skip(4) =~= t);
    }
}

proof fn lemma_grants_tokens(g: Seq<PermissionView>)
    ensures
        grants_of_tokens(g.map_values(|p: PermissionView| grant_token(p))) == g,
    decreases g.len(),
{
    if g.len() > 0 {
        let ts = g.map_values(|p: PermissionView| grant_token(p));
        assert(ts.drop_last() =~= g.drop_last().map_values(|p: PermissionView| grant_token(p)));
        lemma_grants_tokens(g.drop_last());
        lemma_grant_token(g.last());
        assert(g.drop_last().push(g.last()) =~= g);
    }
}

/// The grant a stored token names, if it names one.
fn grant_from_token(s: &String) -> (r: Option<Permission>)
    ensures
        match r {
            Some(p) => grant_of_token(s@) == Some(p@),
            None => grant_of_token(s@) is None,
        },
{
    if *s == "overlord".to_owned() {
        return Some(Permission::Overlord);
    }
    let n: usize = s.as_str().unicode_len();
    if n >= 4 && s.as_str().substring_char(0, 4).to_owned() == "mod:".to_owned() {
        let topic = s.as_str().substring_char(4, n).to_owned();
        assert(s@.take(4) =~= s@.subrange(0, 4));
        assert(s@.skip(4) =~= s@.subrange(4, n as int));
        Some(Permission::TopicOwner(TopicID(topic)))
    } else {
        proof {
            if s@.len() >= 4 {
                assert(s@.take(4) =~= s@.subrange(0, 4));
            }
        }
        None
    }
}

/// The grants that stored tokens name.
fn grants_from_tokens(tokens: &Vec<String>) -> (r: Vec<Permission>)
    ensures
        permission_views(r@) == grants_of_tokens(tokens@.map_values(|s: String| s@)),
{
    let mut out: Vec<Permission> = Vec::new();
    let mut i: usize = 0;
    while i < tokens.len()
        invariant
            i <= tokens@.len(),
            permission_views(out@) == grants_of_tokens(tokens@.take(i as int).map_values(|s: String| s@)),
        decreases tokens@.len() - i,
    {
        let ghost before = out@;
        let ghost ts = tokens@.take(i + 1).map_values(|s: String| s@);
        assert(ts.drop_last() =~= tokens@.take(i as int).map_values(|s: String| s@));
        assert(ts.last() == tokens@[i as int]@);
        match grant_from_token(&tokens[i]) {
            Some(p) => {
                let ghost pv = p@;
                out.push(p);
                assert(permission_views(out@) =~= permission_views(before).push(pv));
            },
            None => {},
        }
        i = i + 1;
    }
    assert(tokens@.take(tokens@.len() as int) =~= tokens@);
    out
}

/// Reads every user's grants from the stored permissions text, if any.
pub fn load_permissions(text: Option<&str>) -> (r: Table<Vec<Permission>>)
    ensures
        r.wf(),
        r@.map_values(|g: Vec<Permission>| permission_views(g@)) == loaded_permissions(
            match text {
                Some(t) => Some(t@),
                None => None,
            },
        ),
{
    let mut t: Table<Vec<Permission>> = Table::new();
    assert(t@.map_values(|g: Vec<Permission>| permission_views(g@)) =~= Map::empty());
    let text = match text {
        Some(x) => x,
        None => return t,
    };
    let doc = match json_read(text) {
        Some(d) => d,
        None => return t,
    };
    let ghost dv = doc_view(doc@);
    let mut i: usize = 0;
    proof {
        assert(dv.take(0).len() == 0);
    }
    while i < doc.len()
        invariant
            t.wf(),
            dv == doc_view(doc@),
            i <= doc@.len(),
            t@.map_values(|g: Vec<Permission>| permission_views(g@)) == grants_of_doc(dv.take(i as int)),
        decreases doc@.len() - i,
    {
        let ghost before = t@.map_values(|g: Vec<Permission>| permission_views(g@));
        proof {
            assert(dv.take(i + 1).drop_last() =~= dv.take(i as int));
            assert(dv.take(i + 1).last() == dv[i as int]);
        }
        let grants = grants_from_tokens(&list_field(Some(&doc[i].1)));
        let ghost gv = permission_views(grants@);
        t.insert(doc[i].0.clone(), grants);
        assert(t@.map_values(|g: Vec<Permission>| permission_views(g@)) =~= before.insert(dv[i as int].0, gv));
        i = i + 1;
    }
    assert(dv.take(dv.len() as int) =~= dv);
    t
}

/// The stored tokens of the grants, as list items.
fn grant_items(grants: &Vec<Permission>) -> (r: Vec<Option<String>>)
    ensures
        item_views(r@) == as_items(permission_views(grants@).map_values(|p: PermissionView| grant_token(p))),
{
    let mut out: Vec<Option<String>> = Vec::new();
    let mut i: usize = 0;
    while i < grants.len()
        invariant
            i <= grants@.len(),
            item_views(out@) == as_items(
                permission_views(grants@.take(i as int)).map_values(|p: PermissionView| grant_token(p)),
            ),
        decreases grants@.len() - i,
    {
        let ghost before = out@;
        let token = match &grants[i] {
            Permission::Overlord => "overlord".to_owned(),
            Permission::TopicOwner(t) => "mod:".to_owned().concat(t.0.as_str()),
        };
        assert(token@ == grant_token(grants@[i as int]@));
        let ghost tv = token@;
        out.push(Some(token));
        assert(grants@.take(i + 1) =~= grants@.take(i as int).push(grants@[i as int]));
        assert(permission_views(grants@.take(i + 1)) =~= permission_views(grants@.take(i as int)).push(
            grants@[i as int]@,
        ));
        assert(permission_views(grants@.take(i + 1)).map_values(|p: PermissionView| grant_token(p))
            =~= permission_views(grants@.take(i as int)).map_values(|p: PermissionView| grant_token(p)).push(
            tv,
        ));
        assert(item_views(out@) =~= item_views(before).push(Some(tv)));
        assert(item_views(out@) =~= as_items(
            permission_views(grants@.take(i + 1)).map_values(|p: PermissionView| grant_token(p)),
        ));
        i = i + 1;
    }
    assert(grants@.take(grants@.len() as int) =~= grants@);
    out
}

/// The JSON text of every user's grants, one field per user holding the
/// user's grant tokens; reading it back gives the same grants.
pub fn permissions_text(permissions: &Table<Vec<Permission>>) -> (r: String)
    requires
        permissions.wf(),
    ensures
        loaded_permissions(Some(r@)) == permissions@.map_values(
            |g: Vec<Permission>| permission_views(g@),
        ),
{
    let ghost ks = permissions.key_seq();
    let ghost pm = permissions@.map_values(|g: Vec<Permission>| permission_views(g@));
    proof {
        permissions.lemma_keys();
    }
    let mut doc: Vec<(String, Field)> = Vec::new();
    let mut i: usize = 0;
    proof {
        assert(doc_view(doc@) =~= Seq::<(Seq<char>, FieldView)>::empty());
        assert(doc_view(doc@).map_values(|e: (Seq<char>, FieldView)| e.0) =~= ks.take(0));
        assert(grants_of_doc(doc_view(doc@)) =~= pm.restrict(ks.take(0).to_set()));
    }
    while i < permissions.len()
        invariant
            permissions.wf(),
            ks == permissions.key_seq(),
            ks.no_duplicates(),
            forall|k: Seq<char>| permissions@.contains_key(k) <==> #[trigger] ks.contains(k),
            pm == permissions@.map_values(|g: Vec<Permission>| permission_views(g@)),
            i <= ks.len(),
            grants_of_doc(doc_view(doc@)) == pm.restrict(ks.take(i as int).to_set()),
            doc_view(doc@).map_values(|e: (Seq<char>, FieldView)| e.0) == ks.take(i as int),
            forall|a: int| 0 <= a < doc@.len() ==> (#[trigger] doc_view(doc@)[a]).1 is List,
        decreases ks.len() - i,
    {
        let (user, grants) = permissions.entry_at(i);
        let ghost before = doc_view(doc@);
        let items = grant_items(grants);
        proof {
            lemma_grants_tokens(permission_views(grants@));
            lemma_texts_items(permission_views(grants@).map_values(|p: PermissionView| grant_token(p)));
        }
        doc.push((user.clone(), Field::List(items)));
        proof {
            assert(doc_view(doc@) =~= before.push((user@, FieldView::List(item_views(items@)))));
            assert(doc_view(doc@).drop_last() =~= before);
            assert(ks.take(i + 1) =~= ks.take(i as int).push(user@));
            ks.take(i as int).lemma_push_to_set_commute(user@);
            assert(ks.take(i + 1).to_set() =~= ks.take(i as int).to_set().insert(user@));
            assert(grants_of_doc(doc_view(doc@)) =~= pm.restrict(ks.take(i + 1).to_set()));
            assert(doc_view(doc@).map_values(|e: (Seq<char>, FieldView)| e.0) =~= ks.take(i + 1));
        }
        i = i + 1;
    }
    proof {
        assert(ks.take(ks.len() as int) =~= ks);
        assert(pm.restrict(ks.to_set()) =~= pm);
        let dv = doc_view(doc@);
        assert forall|a: int, b: int| 0 <= a < b < dv.len() implies #[trigger] dv[a].0 != #[trigger] dv[b].0 by {
            assert(dv.map_values(|e: (Seq<char>, FieldView)| e.0)[a] == ks[a]);
            assert(dv.map_values(|e: (Seq<char>, FieldView)| e.0)[b] == ks[b]);
        }
        assert forall|a: int| 0 <= a < dv.len() implies !(#[trigger] dv[a].1 is Other) by {
            assert(doc_view(doc@)[a].1 is List);
        }
    }
    json_dump(&doc)
}

pub open spec fn password_doc(p: PasswordView) -> Seq<(Seq<char>, FieldView)> {
    seq![("salt"@, FieldView::Text(p.salt)), ("hashed"@, FieldView::Text(p.hashed))]
}

/// The credential a document describes; none unless both its salt and its
/// digest are text.
pub open spec fn password_of_doc(d: Seq<(Seq<char>, FieldView)>) -> Option<PasswordView> {
    match (lookup(d, "salt"@), lookup(d, "hashed"@)) {
        (FieldView::Text(salt), FieldView::Text(hashed)) => Some(PasswordView { salt, hashed }),
        _ => None,
    }
}

/// A credential turned into its document and read back is the same
/// credential.
pub proof fn lemma_password_round_trip(p: PasswordView)
    ensures
        password_of_doc(password_doc(p)) == Some(p),
{
    reveal_strlit("salt");
    reveal_strlit("hashed");
    reveal_with_fuel(lookup, 3);
    assert("salt"@.len() == 4 && "hashed"@.len() == 6);
    let d = password_doc(p);
    assert(d.drop_first()[0] == d[1]);
}

/// The JSON text stored for a credential.
pub fn encode_password_store(store: &PasswordStore) -> (r: String)
    ensures
        r@ == json_text(password_doc(store@)),
        json_document(r@) == Some(password_doc(store@)),
{
    proof {
        lemma_docs_plain(arbitrary(), arbitrary(), arbitrary(), arbitrary(), arbitrary(), store@);
    }
    let d = vec![
        ("salt".to_owned(), Field::Text(store.salt.clone())),
        ("hashed".to_owned(), Field::Text(store.hashed.clone())),
    ];
    assert(doc_view(d@) =~= password_doc(store@));
    json_dump(&d)
}

/// The credential stored as `text`, if the text holds one.
pub fn decode_password_store(text: &str) -> (r: Option<PasswordStore>)
    ensures
        match r {
            Some(p) => json_document(text@) is Some && password_of_doc(json_document(text@)->0) == Some(
                p@,
            ),
            None => json_document(text@) is None || password_of_doc(json_document(text@)->0) is None,
        },
{
    let d = match json_read(text) {
        Some(d) => d,
        None => return None,
    };
    match (lookup_field(&d, "salt"), lookup_field(&d, "hashed")) {
        (Some(Field::Text(salt)), Some(Field::Text(hashed))) => Some(
            PasswordStore { salt: salt.clone(), hashed: hashed.clone() },
        ),
        _ => None,
    }
}

/// The fields of `d` with their names prefixed by `p`.
pub open spec fn prefixed(p: Seq<char>, d: Seq<(Seq<char>, FieldView)>) -> Seq<(Seq<char>, FieldView)> {
    d.map_values(|e: (Seq<char>, FieldView)| (p + e.0, e.1))
}

/// The document of a moderation item: when it was moderated, its kind, the
/// documents of what it holds with their field names prefixed by `user.`,
/// `topic.`, `thread.` or `reply.`, and where a thread or reply stood.
/// `None` if chrono cannot write one of its times.
pub open spec fn mod_item_doc(m: ModItemView) -> Option<Seq<(Seq<char>, FieldView)>> {
    match datetime_text(m.moderated.millis) {
        None => None,
        Some(at) => {
            let head = seq![("moderated"@, FieldView::Text(at))];
            match m.thing {
                ModeratableView::User(u) => Some(
                    head + seq![("kind"@, FieldView::Text("user"@))] + prefixed("user."@, user_doc(u)),
                ),
                ModeratableView::Topic(u, t) => Some(
                    head + seq![("kind"@, FieldView::Text("topic"@))] + prefixed("user."@, user_doc(u))
                        + prefixed("topic."@, topic_doc(t)),
                ),
                ModeratableView::Thread(u, t, parent) => Some(
                    head + seq![("kind"@, FieldView::Text("thread"@))] + prefixed("user."@, user_doc(u))
                        + prefixed("thread."@, thread_doc(t)) + seq![("parent"@, FieldView::Text(parent))],
                ),
                ModeratableView::Reply(u, r, parent) => match datetime_text(r.created.millis) {
                    None => None,
                    Some(c) => Some(
                        head + seq![("kind"@, FieldView::Text("reply"@))] + prefixed(
                            "user."@,
                            user_doc(u),
                        ) + prefixed("reply."@, reply_doc(r, c)) + seq![("parent"@, FieldView::Text(parent))],
                    ),
                },
            }
        },
    }
}

/// Appends the fields of `d`, their names prefixed by `p`, to `out`.
fn push_prefixed(out: &mut Vec<(String, Field)>, p: &str, d: Vec<(String, Field)>)
    ensures
        doc_view(final(out)@) == doc_view(old(out)@) + prefixed(p@, doc_view(d@)),
{
    let ghost start = doc_view(out@);
    let ghost all = doc_view(d@);
    let n: usize = d.len();
    assert(all.len() == n);
    let mut d = d;
    let mut i: usize = 0;
    while d.len() > 0
        invariant
            i <= all.len(),
            all.len() <= usize::MAX,
            doc_view(d@) == all.skip(i as int),
            doc_view(out@) == start + prefixed(p@, all.take(i as int)),
        decreases d@.len(),
    {
        let ghost before = doc_view(out@);
        let ghost d0 = d@;
        assert(doc_view(d0).len() == d0.len());
        assert(i < all.len());
        let (k, f) = d.remove(0);
        assert(doc_view(d0)[0] == (k@, f@));
        assert(all[i as int] == (k@, f@));
        assert(doc_view(d@) =~= doc_view(d0).drop_first());
        assert(doc_view(d@) =~= all.skip(i + 1));
        out.push((p.to_owned().concat(k.as_str()), f));
        assert(all.take(i + 1) =~= all.take(i as int).push((k@, f@)));
        assert(prefixed(p@, all.take(i + 1)) =~= prefixed(p@, all.take(i as int)).push((p@ + k@, f@)));
        assert(doc_view(out@) =~= before.push((p@ + k@, f@)));
        assert(doc_view(out@) =~= start + prefixed(p@, all.take(i + 1)));
        i = i + 1;
    }
    assert(all.take(i as int) =~= all);
}

/// Appends one text field to `out`.
fn push_text(out: &mut Vec<(String, Field)>, key: &str, text: String)
    ensures
        doc_view(final(out)@) == doc_view(old(out)@) + seq![(key@, FieldView::Text(text@))],
{
    let ghost t = text@;
    out.push((key.to_owned(), Field::Text(text)));
    assert(doc_view(out@) =~= doc_view(old(out)@) + seq![(key@, FieldView::Text(t))]);
}

/// The JSON text stored for a moderation item; `None` if chrono cannot write
/// one of its times.
pub fn encode_mod_item(item: &ModItem) -> (r: Option<String>)
    ensures
        match r {
            Some(s) => mod_item_doc(item@) is Some && s@ == json_text(mod_item_doc(item@)->0),
            None => mod_item_doc(item@) is None,
        },
{
    let at = match write_datetime(item.moderated) {
        Some(t) => t,
        None => return None,
    };
    let mut d: Vec<(String, Field)> = Vec::new();
    push_text(&mut d, "moderated", at);
    match &item.thing {
        Moderatable::User(u) => {
            push_text(&mut d, "kind", "user".to_owned());
            push_prefixed(&mut d, "user.", user_document(u));
        },
        Moderatable::Topic(u, t) => {
            push_text(&mut d, "kind", "topic".to_owned());
            push_prefixed(&mut d, "user.", user_document(u));
            push_prefixed(&mut d, "topic.", topic_document(t));
        },
        Moderatable::Thread(u, t, parent) => {
            push_text(&mut d, "kind", "thread".to_owned());
            push_prefixed(&mut d, "user.", user_document(u));
            push_prefixed(&mut d, "thread.", thread_document(t));
            push_text(&mut d, "parent", parent.0.clone());
        },
        Moderatable::Reply(u, p, parent) => {
            let rd = match reply_document(p) {
                Some(rd) => rd,
                None => return None,
            };
            push_text(&mut d, "kind", "reply".to_owned());
            push_prefixed(&mut d, "user.", user_document(u));
            push_prefixed(&mut d, "reply.", rd);
            push_text(&mut d, "parent", parent.0.clone());
        },
    }
    Some(json_dump(&d))
}

/// A user profile stored as the text `encode_user` gives for it, in the
/// file `<id>.json` read last for `id`, is read back by a reload as the same
/// profile in every field.
pub proof fn lemma_user_reload(files: Seq<(Seq<char>, Seq<char>)>, id: Seq<char>, text: Seq<char>, u: UserView)
    requires
        !id.contains('.'),
        u.pronouns is Some ==> u.pronouns->0.len() == 3,
        json_document(text) == Some(user_doc(u)),
    ensures
        loaded_users(files.push((id + ".json"@, text))).contains_key(id),
        loaded_users(files.push((id + ".json"@, text)))[id] == u,
{
    assert(files.push((id + ".json"@, text)).drop_last() =~= files);
    lemma_json_file_stem(id);
    lemma_user_round_trip(u);
}

/// A topic stored as the text `encode_topic` gives for it, in the file
/// `<id>.json` read last for `id`, is read back by a reload as the same topic.
pub proof fn lemma_topic_reload(files: Seq<(Seq<char>, Seq<char>)>, id: Seq<char>, text: Seq<char>, t: TopicView)
    requires
        !id.contains('.'),
        json_document(text) == Some(topic_doc(t)),
    ensures
        loaded_topics(files.push((id + ".json"@, text))).contains_key(id),
        loaded_topics(files.push((id + ".json"@, text)))[id] == t,
{
    assert(files.push((id + ".json"@, text)).drop_last() =~= files);
    lemma_json_file_stem(id);
    lemma_topic_round_trip(t);
}

/// A thread stored as the text `encode_thread` gives for it, in the file
/// `<id>.json` read last for `id`, is read back by a reload as the same
/// thread.
pub proof fn lemma_thread_reload(files: Seq<(Seq<char>, Seq<char>)>, id: Seq<char>, text: Seq<char>, t: ThreadView)
    requires
        !id.contains('.'),
        json_document(text) == Some(thread_doc(t)),
    ensures
        loaded_threads(files.push((id + ".json"@, text))).contains_key(id),
        loaded_threads(files.push((id + ".json"@, text)))[id] == t,
{
    assert(files.push((id + ".json"@, text)).drop_last() =~= files);
    lemma_json_file_stem(id);
    lemma_thread_round_trip(t);
}

/// A reply created within the years 1970 to 9999 and stored as the text
/// `encode_reply` gives for it, in the file `<id>.json` read last for `id`,
/// is read back by a reload as the same reply, to the millisecond.
pub proof fn lemma_reply_reload(files: Seq<(Seq<char>, Seq<char>)>, id: Seq<char>, text: Seq<char>, r: ReplyView)
    requires
        !id.contains('.'),
        datetime_text(r.created.millis) is Some,
        datetime_parsed(datetime_text(r.created.millis)->0) == Some(r.created.millis),
        json_document(text) == Some(reply_doc(r, datetime_text(r.created.millis)->0)),
    ensures
        loaded_replies(files.push((id + ".json"@, text))).contains_key(id),
        loaded_replies(files.push((id + ".json"@, text)))[id] == r,
{
    assert(files.push((id + ".json"@, text)).drop_last() =~= files);
    lemma_json_file_stem(id);
    lemma_reply_round_trip(r, datetime_text(r.created.millis)->0);
}

} // verus!

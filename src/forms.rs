//! The inputs that request handlers receive, and the validation of the
//! settings form.

use vstd::prelude::*;

use crate::data::pronoun_view;

verus! {

pub struct Signup {
    pub user_name: String,
    pub password: String,
}

pub struct Login {
    pub user_name: String,
    pub password: String,
}

pub struct MakeReply {
    pub thread: String,
    pub content: String,
}

pub struct MakeThread {
    pub topic: String,
    pub title: String,
    pub first: String,
}

pub struct FavoriteTopic {
    pub topic: String,
    pub favorite: bool,
}

pub struct FavoriteThread {
    pub thread: String,
    pub favorite: bool,
}

pub struct SettingsForm {
    pub about: String,
    pub pronouns: String,
}

pub struct DeleteReply {
    pub thread: String,
    pub reply: String,
}

pub struct ModReply {
    pub thread: String,
    pub reply: String,
}

/// An error message carried back to a page.
pub struct Error {
    pub error: Option<String>,
}

pub struct Search {
    pub q: String,
}

#[derive(Debug, PartialEq, Eq, Structural)]
pub enum SettingsError {
    InvalidPronounsFormat,
}

impl SettingsError {
    /// The message shown to the user.
    pub fn message(&self) -> &'static str {
        "Invalid pronouns format. Must be either nominative/oblique/possessive or empty"
    }
}

/// The places of the `/` characters in `s`, in order.
pub open spec fn slash_positions(s: Seq<char>) -> Seq<int>
    decreases s.len(),
{
    if s.len() == 0 {
        Seq::empty()
    } else if s.last() == '/' {
        slash_positions(s.drop_last()).push(s.len() - 1)
    } else {
        slash_positions(s.drop_last())
    }
}

/// What the pronouns field says: empty text means no pronouns; otherwise the
/// first three `/`-separated parts are nominative, oblique and possessive.
/// `None` if the text is not empty and has fewer than three parts.
pub open spec fn parsed_pronouns(s: Seq<char>) -> Option<Option<Seq<Seq<char>>>> {
    let p = slash_positions(s);
    if s.len() == 0 {
        Some(None)
    } else if p.len() >= 2 {
        Some(
            Some(
                seq![
                    s.subrange(0, p[0]),
                    s.subrange(p[0] + 1, p[1]),
                    s.subrange(p[1] + 1, if p.len() >= 3 { p[2] } else { s.len() as int }),
                ],
            ),
        )
    } else {
        None
    }
}

/// Reads the pronouns field of the settings form.
pub fn parse_pronouns(text: &str) -> (r: Result<Option<[String; 3]>, SettingsError>)
    ensures
        match r {
            Ok(p) => parsed_pronouns(text@) == Some(pronoun_view(p)),
            Err(_) => parsed_pronouns(text@) is None,
        },
{
    let n: usize = text.unicode_len();
    if n == 0 {
        return Ok(None);
    }
    let mut found: Vec<usize> = Vec::new();
    let mut i: usize = 0;
    while i < n
        invariant
            n == text@.len(),
            i <= n,
            found@.map_values(|x: usize| x as int) == slash_positions(text@.take(i as int)),
            forall|a: int| 0 <= a < found@.len() ==> found@[a] < i,
            forall|a: int, b: int| 0 <= a < b < found@.len() ==> found@[a] < found@[b],
        decreases n - i,
    {
        proof {
            assert(text@.take(i + 1).drop_last() =~= text@.take(i as int));
            assert(text@.take(i + 1).last() == text@[i as int]);
        }
        if text.get_char(i) == '/' {
            found.push(i);
            assert(found@.map_values(|x: usize| x as int) =~= slash_positions(text@.take(i + 1)));
        }
        i = i + 1;
    }
    proof {
        assert(text@.take(n as int) =~= text@);
    }
    if found.len() < 2 {
        return Err(SettingsError::InvalidPronounsFormat);
    }
    let end: usize = if found.len() >= 3 {
        found[2]
    } else {
        n
    };
    let a = text.substring_char(0, found[0]).to_owned();
    let b = text.substring_char(found[0] + 1, found[1]).to_owned();
    let c = text.substring_char(found[1] + 1, end).to_owned();
    let p = [a, b, c];
    assert(pronoun_view(Some(p))->0 =~= parsed_pronouns(text@)->0->0);
    Ok(Some(p))
}

} // verus!

//! Serialising a user profile to JSON and reading it back.

use vstd::prelude::*;
use crate::json::{
    dec_string, json_bool, json_string, parse_bool_at, parse_json_string_at, parse_u32_at,
    u32_string, write_json_string,
};
use crate::text;

verus! {

/// A user profile.
#[derive(Debug)]
pub struct User {
    /// The numeric identifier.
    pub id: u32,
    /// The display name.
    pub name: String,
    /// The email address.
    pub email: String,
    /// Whether the account is active.
    pub active: bool,
}

impl PartialEq for User {
    /// Two profiles are equal when all four fields agree.
    fn eq(&self, other: &User) -> (r: bool) {
        self.id == other.id && self.name == other.name && self.email == other.email
            && self.active == other.active
    }
}

impl vstd::std_specs::cmp::PartialEqSpecImpl for User {
    open spec fn obeys_eq_spec() -> bool {
        true
    }

    open spec fn eq_spec(&self, other: &User) -> bool {
        self.id == other.id && self.name@ == other.name@ && self.email@ == other.email@
            && self.active == other.active
    }
}

/// A malformed document.
#[derive(Debug, Clone, Copy, PartialEq, Eq, Structural)]
pub enum JsonError {
    /// The text is not the JSON this reader understands.
    Malformed,
}

/// The JSON rendering of a profile: the four fields, in order, with no
/// white space.
pub open spec fn user_json(id: u32, name: Seq<char>, email: Seq<char>, active: bool) -> Seq<
    char,
> {
    seq!['{'] + json_string("id"@) + seq![':'] + dec_string(id as nat) + seq![','] + json_string(
        "name"@,
    ) + seq![':'] + json_string(name) + seq![','] + json_string("email"@) + seq![':']
        + json_string(email) + seq![','] + json_string("active"@) + seq![':'] + json_bool(active)
        + seq!['}']
}

/// Renders a profile as JSON, exactly as `user_json` describes.
pub fn user_to_json(user: &User) -> (r: String)
    ensures
        r@ == user_json(user.id, user.name@, user.email@, user.active),
{
    let mut out = String::new();
    text::push_char(&mut out, '{');
    write_json_string(&mut out, "id");
    text::push_char(&mut out, ':');
    let id_s = u32_string(user.id);
    out.append(id_s.as_str());
    text::push_char(&mut out, ',');
    write_json_string(&mut out, "name");
    text::push_char(&mut out, ':');
    write_json_string(&mut out, user.name.as_str());
    text::push_char(&mut out, ',');
    write_json_string(&mut out, "email");
    text::push_char(&mut out, ':');
    write_json_string(&mut out, user.email.as_str());
    text::push_char(&mut out, ',');
    write_json_string(&mut out, "active");
    text::push_char(&mut out, ':');
    if user.active {
        out.append("true");
    } else {
        out.append("false");
    }
    text::push_char(&mut out, '}');
    proof {
        assert(out@ =~= user_json(user.id, user.name@, user.email@, user.active));
    }
    out
}

/// Reads a profile back from JSON.  Accepted documents are exactly the
/// renderings of `user_json`: on success the whole input is the returned
/// profile's rendering.
#[verifier::rlimit(100)]
pub fn user_from_json(json: &str) -> (r: Result<User, JsonError>)
    ensures
        r matches Ok(u) ==> json@ == user_json(u.id, u.name@, u.email@, u.active),
{
    let n = json.unicode_len();
    if !(n >= 1 && json.get_char(0) == '{') {
        return Err(JsonError::Malformed);
    }
    let (k1, p1) = match parse_json_string_at(json, 1) {
        Some(p) => p,
        None => {
            return Err(JsonError::Malformed);
        },
    };
    if !text::str_eq(k1.as_str(), "id") {
        return Err(JsonError::Malformed);
    }
    if !(p1 < n && json.get_char(p1) == ':') {
        return Err(JsonError::Malformed);
    }
    let (id, p2) = match parse_u32_at(json, p1 + 1) {
        Some(p) => p,
        None => {
            return Err(JsonError::Malformed);
        },
    };
    if !(p2 < n && json.get_char(p2) == ',') {
        return Err(JsonError::Malformed);
    }
    let (k2, p3) = match parse_json_string_at(json, p2 + 1) {
        Some(p) => p,
        None => {
            return Err(JsonError::Malformed);
        },
    };
    if !text::str_eq(k2.as_str(), "name") {
        return Err(JsonError::Malformed);
    }
    if !(p3 < n && json.get_char(p3) == ':') {
        return Err(JsonError::Malformed);
    }
    let (name, p4) = match parse_json_string_at(json, p3 + 1) {
        Some(p) => p,
        None => {
            return Err(JsonError::Malformed);
        },
    };
    if !(p4 < n && json.get_char(p4) == ',') {
        return Err(JsonError::Malformed);
    }
    let (k3, p5) = match parse_json_string_at(json, p4 + 1) {
        Some(p) => p,
        None => {
            return Err(JsonError::Malformed);
        },
    };
    if !text::str_eq(k3.as_str(), "email") {
        return Err(JsonError::Malformed);
    }
    if !(p5 < n && json.get_char(p5) == ':') {
        return Err(JsonError::Malformed);
    }
    let (email, p6) = match parse_json_string_at(json, p5 + 1) {
        Some(p) => p,
        None => {
            return Err(JsonError::Malformed);
        },
    };
    if !(p6 < n && json.get_char(p6) == ',') {
        return Err(JsonError::Malformed);
    }
    let (k4, p7) = match parse_json_string_at(json, p6 + 1) {
        Some(p) => p,
        None => {
            return Err(JsonError::Malformed);
        },
    };
    if !text::str_eq(k4.as_str(), "active") {
        return Err(JsonError::Malformed);
    }
    if !(p7 < n && json.get_char(p7) == ':') {
        return Err(JsonError::Malformed);
    }
    let (active, p8) = match parse_bool_at(json, p7 + 1) {
        Some(p) => p,
        None => {
            return Err(JsonError::Malformed);
        },
    };
    if !(p8 < n && json.get_char(p8) == '}' && p8 + 1 == n) {
        return Err(JsonError::Malformed);
    }
    proof {
        assert(json@ =~= json@.subrange(0, 1) + json@.subrange(1, p1 as int) + json@.subrange(
            p1 as int,
            p1 + 1,
        ) + json@.subrange(p1 + 1, p2 as int) + json@.subrange(p2 as int, p2 + 1)
            + json@.subrange(p2 + 1, p3 as int) + json@.subrange(p3 as int, p3 + 1)
            + json@.subrange(p3 + 1, p4 as int) + json@.subrange(p4 as int, p4 + 1)
            + json@.subrange(p4 + 1, p5 as int) + json@.subrange(p5 as int, p5 + 1)
            + json@.subrange(p5 + 1, p6 as int) + json@.subrange(p6 as int, p6 + 1)
            + json@.subrange(p6 + 1, p7 as int) + json@.subrange(p7 as int, p7 + 1)
            + json@.subrange(p7 + 1, p8 as int) + json@.subrange(p8 as int, p8 + 1));
        assert(json@.subrange(0, 1) =~= seq!['{']);
        assert(json@.subrange(p1 as int, p1 + 1) =~= seq![':']);
        assert(json@.subrange(p2 as int, p2 + 1) =~= seq![',']);
        assert(json@.subrange(p3 as int, p3 + 1) =~= seq![':']);
        assert(json@.subrange(p4 as int, p4 + 1) =~= seq![',']);
        assert(json@.subrange(p5 as int, p5 + 1) =~= seq![':']);
        assert(json@.subrange(p6 as int, p6 + 1) =~= seq![',']);
        assert(json@.subrange(p7 as int, p7 + 1) =~= seq![':']);
        assert(json@.subrange(p8 as int, p8 + 1) =~= seq!['}']);
        assert(json@ =~= user_json(id, name@, email@, active));
    }
    Ok(User { id, name, email, active })
}

} // verus!

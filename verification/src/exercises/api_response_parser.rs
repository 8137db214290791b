//! Reading an API response envelope from JSON.

use vstd::prelude::*;
use crate::exercises::user_profile_json::JsonError;
use crate::json::{
    dec_string, json_string, json_string_array, parse_json_string_at, parse_string_array_at,
    parse_u32_at,
};
use crate::text;

verus! {

/// An API response envelope: a status word plus optional payload fields.
#[derive(Debug)]
pub struct ApiResponse {
    /// The status word; `ok` means success.
    pub status: String,
    /// The returned items, when the call produced any.
    pub data: Option<Vec<String>>,
    /// The error message, when the call failed.
    pub error: Option<String>,
    /// The item count, when reported.
    pub count: Option<u32>,
}

/// The JSON rendering of an envelope: the status field, then each present
/// optional field, in a fixed order, with no white space.
pub open spec fn api_json(
    status: Seq<char>,
    data: Option<Seq<Seq<char>>>,
    error: Option<Seq<char>>,
    count: Option<u32>,
) -> Seq<char> {
    seq!['{'] + json_string("status"@) + seq![':'] + json_string(status) + (match data {
        Some(d) => seq![','] + json_string("data"@) + seq![':'] + json_string_array(d),
        None => Seq::empty(),
    }) + (match error {
        Some(e) => seq![','] + json_string("error"@) + seq![':'] + json_string(e),
        None => Seq::empty(),
    }) + (match count {
        Some(c) => seq![','] + json_string("count"@) + seq![':'] + dec_string(c as nat),
        None => Seq::empty(),
    }) + seq!['}']
}

/// The view of the optional data items.
pub open spec fn data_view(data: Option<Vec<String>>) -> Option<Seq<Seq<char>>> {
    match data {
        Some(v) => Some(v@.map_values(|s: String| s@)),
        None => None,
    }
}

/// The view of the optional error message.
pub open spec fn error_view(error: Option<String>) -> Option<Seq<char>> {
    match error {
        Some(e) => Some(e@),
        None => None,
    }
}

/// Reads the optional `data` field at `pos`: nothing is consumed when the
/// next field is another one.
fn parse_optional_data(json: &str, pos: usize) -> (r: Result<(Option<Vec<String>>, usize), JsonError>)
    requires
        pos <= json@.len(),
    ensures
        r matches Ok(p) ==> pos <= p.1 <= json@.len() && match p.0 {
            Some(items) => json@.subrange(pos as int, p.1 as int) == seq![','] + json_string(
                "data"@,
            ) + seq![':'] + json_string_array(items@.map_values(|x: String| x@)),
            None => p.1 == pos,
        },
{
    let n = json.unicode_len();
    if pos < n && json.get_char(pos) == ',' {
        if let Some((key, kp)) = parse_json_string_at(json, pos + 1) {
            if text::str_eq(key.as_str(), "data") {
                if !(kp < n && json.get_char(kp) == ':') {
                    return Err(JsonError::Malformed);
                }
                let (items, ap) = match parse_string_array_at(json, kp + 1) {
                    Some(p) => p,
                    None => {
                        return Err(JsonError::Malformed);
                    },
                };
                proof {
                    assert(json@.subrange(pos as int, pos + 1) =~= seq![',']);
                    assert(json@.subrange(kp as int, kp + 1) =~= seq![':']);
                    assert(json@.subrange(pos as int, ap as int) =~= json@.subrange(
                        pos as int,
                        pos + 1,
                    ) + json@.subrange(pos + 1, kp as int) + json@.subrange(kp as int, kp + 1)
                        + json@.subrange(kp + 1, ap as int));
                    assert(json@.subrange(pos as int, ap as int) =~= seq![','] + json_string(
                        "data"@,
                    ) + seq![':'] + json_string_array(items@.map_values(|x: String| x@)));
                }
                return Ok((Some(items), ap));
            }
        }
    }
    Ok((None, pos))
}

/// Reads the optional `error` field at `pos`.
fn parse_optional_error(json: &str, pos: usize) -> (r: Result<(Option<String>, usize), JsonError>)
    requires
        pos <= json@.len(),
    ensures
        r matches Ok(p) ==> pos <= p.1 <= json@.len() && match p.0 {
            Some(msg) => json@.subrange(pos as int, p.1 as int) == seq![','] + json_string(
                "error"@,
            ) + seq![':'] + json_string(msg@),
            None => p.1 == pos,
        },
{
    let n = json.unicode_len();
    if pos < n && json.get_char(pos) == ',' {
        if let Some((key, kp)) = parse_json_string_at(json, pos + 1) {
            if text::str_eq(key.as_str(), "error") {
                if !(kp < n && json.get_char(kp) == ':') {
                    return Err(JsonError::Malformed);
                }
                let (msg, ep) = match parse_json_string_at(json, kp + 1) {
                    Some(p) => p,
                    None => {
                        return Err(JsonError::Malformed);
                    },
                };
                proof {
                    assert(json@.subrange(pos as int, pos + 1) =~= seq![',']);
                    assert(json@.subrange(kp as int, kp + 1) =~= seq![':']);
                    assert(json@.subrange(pos as int, ep as int) =~= json@.subrange(
                        pos as int,
                        pos + 1,
                    ) + json@.subrange(pos + 1, kp as int) + json@.subrange(kp as int, kp + 1)
                        + json@.subrange(kp + 1, ep as int));
                }
                return Ok((Some(msg), ep));
            }
        }
    }
    Ok((None, pos))
}

/// Reads the optional `count` field at `pos`.
fn parse_optional_count(json: &str, pos: usize) -> (r: Result<(Option<u32>, usize), JsonError>)
    requires
        pos <= json@.len(),
    ensures
        r matches Ok(p) ==> pos <= p.1 <= json@.len() && match p.0 {
            Some(c) => json@.subrange(pos as int, p.1 as int) == seq![','] + json_string(
                "count"@,
            ) + seq![':'] + dec_string(c as nat),
            None => p.1 == pos,
        },
{
    let n = json.unicode_len();
    if pos < n && json.get_char(pos) == ',' {
        if let Some((key, kp)) = parse_json_string_at(json, pos + 1) {
            if text::str_eq(key.as_str(), "count") {
                if !(kp < n && json.get_char(kp) == ':') {
                    return Err(JsonError::Malformed);
                }
                let (value, cp) = match parse_u32_at(json, kp + 1) {
                    Some(p) => p,
                    None => {
                        return Err(JsonError::Malformed);
                    },
                };
                proof {
                    assert(json@.subrange(pos as int, pos + 1) =~= seq![',']);
                    assert(json@.subrange(kp as int, kp + 1) =~= seq![':']);
                    assert(json@.subrange(pos as int, cp as int) =~= json@.subrange(
                        pos as int,
                        pos + 1,
                    ) + json@.subrange(pos + 1, kp as int) + json@.subrange(kp as int, kp + 1)
                        + json@.subrange(kp + 1, cp as int));
                }
                return Ok((Some(value), cp));
            }
        }
    }
    Ok((None, pos))
}

/// Reads an envelope from JSON.  Accepted documents are exactly the
/// renderings of `api_json`: a `status` field, optionally followed by
/// `data`, `error` and `count`, in that order.
#[verifier::rlimit(100)]
pub fn parse_api_response(json: &str) -> (r: Result<ApiResponse, JsonError>)
    ensures
        r matches Ok(resp) ==> json@ == api_json(
            resp.status@,
            data_view(resp.data),
            error_view(resp.error),
            resp.count,
        ),
{
    let n = json.unicode_len();
    if !(n >= 1 && json.get_char(0) == '{') {
        return Err(JsonError::Malformed);
    }
    let (k1, p1) = match parse_json_string_at(json, 1) {
        Some(p) => p,
        None => {
            return Err(JsonError::Malformed);
        },
    };
    if !text::str_eq(k1.as_str(), "status") {
        return Err(JsonError::Malformed);
    }
    if !(p1 < n && json.get_char(p1) == ':') {
        return Err(JsonError::Malformed);
    }
    let (status, p2) = match parse_json_string_at(json, p1 + 1) {
        Some(p) => p,
        None => {
            return Err(JsonError::Malformed);
        },
    };
    proof {
        assert(json@.subrange(0, 1) =~= seq!['{']);
        assert(json@.subrange(p1 as int, p1 + 1) =~= seq![':']);
        assert(json@.subrange(0, p2 as int) =~= json@.subrange(0, 1) + json@.subrange(
            1,
            p1 as int,
        ) + json@.subrange(p1 as int, p1 + 1) + json@.subrange(p1 + 1, p2 as int));
        assert(json@.subrange(0, p2 as int) =~= seq!['{'] + json_string("status"@) + seq![':']
            + json_string(status@));
    }
    let (data, p3) = match parse_optional_data(json, p2) {
        Ok(p) => p,
        Err(e) => {
            return Err(e);
        },
    };
    proof {
        assert(json@.subrange(0, p3 as int) =~= json@.subrange(0, p2 as int) + json@.subrange(
            p2 as int,
            p3 as int,
        ));
    }
    let (error, p4) = match parse_optional_error(json, p3) {
        Ok(p) => p,
        Err(e) => {
            return Err(e);
        },
    };
    proof {
        assert(json@.subrange(0, p4 as int) =~= json@.subrange(0, p3 as int) + json@.subrange(
            p3 as int,
            p4 as int,
        ));
    }
    let (count, p5) = match parse_optional_count(json, p4) {
        Ok(p) => p,
        Err(e) => {
            return Err(e);
        },
    };
    proof {
        assert(json@.subrange(0, p5 as int) =~= json@.subrange(0, p4 as int) + json@.subrange(
            p4 as int,
            p5 as int,
        ));
    }
    if !(p5 < n && json.get_char(p5) == '}' && p5 + 1 == n) {
        return Err(JsonError::Malformed);
    }
    proof {
        assert(json@ =~= json@.subrange(0, p5 as int) + json@.subrange(p5 as int, p5 + 1));
        assert(json@.subrange(p5 as int, p5 + 1) =~= seq!['}']);
        assert(json@ =~= api_json(status@, data_view(data), error_view(error), count));
    }
    Ok(ApiResponse { status, data, error, count })
}

/// The call succeeded: the status word is `ok`.
pub fn is_success(response: &ApiResponse) -> (r: bool)
    ensures
        r == (response.status@ == "ok"@),
{
    text::str_eq(response.status.as_str(), "ok")
}

} // verus!

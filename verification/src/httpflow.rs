//! The core of the one-shot authorization listener. The interactive flow
//! opens a browser on the authorization URL and a short-lived loopback
//! listener accepts exactly one request: the redirect carrying the
//! authorization code and the CSRF state as query parameters. The
//! listener's socket work happens outside; this module parses the request
//! line it reads and renders the one response it serves, both verified
//! against the request-line grammar `METHOD SP target SP version` with a
//! `key=value` query joined by `&`.

use vstd::prelude::*;

use crate::digits::decimal_digits;
use crate::digits::u64_to_decimal;
use crate::paths::find_char;
use crate::paths::first_index_of;
use crate::paths::lemma_first_index_properties;
use crate::paths::str_equal;
use vstd::string::StringSliceAdditionalSpecFns;

verus! {

/// The request target: the second single-space-separated field of the
/// request line; the rest of the line when no third field follows.
pub open spec fn request_target(line: Seq<char>) -> Option<Seq<char>> {
    match first_index_of(line, ' ') {
        Some(i) => {
            let rest = line.skip(i + 1);
            match first_index_of(rest, ' ') {
                Some(j) => Some(rest.subrange(0, j)),
                None => Some(rest),
            }
        },
        None => None,
    }
}

/// The query of a target: what follows the first `?`; empty without one.
pub open spec fn query_of(target: Seq<char>) -> Seq<char> {
    match first_index_of(target, '?') {
        Some(i) => target.skip(i + 1),
        None => Seq::empty(),
    }
}

/// The value of the first `key=value` pair of the query whose key
/// matches; a pair without `=` has an empty value.
pub open spec fn query_param(q: Seq<char>, key: Seq<char>) -> Option<Seq<char>>
    decreases q.len(),
    via query_param_decreases
{
    let pair = match first_index_of(q, '&') {
        Some(i) => q.subrange(0, i),
        None => q,
    };
    let k = match first_index_of(pair, '=') {
        Some(i) => pair.subrange(0, i),
        None => pair,
    };
    let v = match first_index_of(pair, '=') {
        Some(i) => pair.skip(i + 1),
        None => Seq::empty(),
    };
    if k == key {
        Some(v)
    } else {
        match first_index_of(q, '&') {
            Some(i) => query_param(q.skip(i + 1), key),
            None => None,
        }
    }
}

#[via_fn]
proof fn query_param_decreases(q: Seq<char>, key: Seq<char>) {
    lemma_first_index_properties(q, '&');
}

/// Exec counterpart of [`request_target`].
pub fn request_target_of(line: &str) -> (r: Option<String>)
    ensures
        match r {
            Some(t) => request_target(line@) == Some(t@),
            None => request_target(line@) is None,
        },
{
    let n = line.unicode_len();
    match find_char(line, ' ') {
        Some(i) => {
            proof {
                lemma_first_index_properties(line@, ' ');
            }
            let rest = line.substring_char(i + 1, n);
            proof {
                assert(rest@ =~= line@.skip(i + 1));
            }
            let m = rest.unicode_len();
            match find_char(rest, ' ') {
                Some(j) => {
                    proof {
                        lemma_first_index_properties(rest@, ' ');
                    }
                    Some(rest.substring_char(0, j).to_owned())
                },
                None => Some(rest.to_owned()),
            }
        },
        None => None,
    }
}

/// Exec counterpart of [`query_param`], searching the query string for a
/// key.
pub fn find_query_param(q: &str, key: &str) -> (r: Option<String>)
    ensures
        match r {
            Some(v) => query_param(q@, key@) == Some(v@),
            None => query_param(q@, key@) is None,
        },
    decreases q@.len(),
{
    let n = q.unicode_len();
    let amp = find_char(q, '&');
    proof {
        lemma_first_index_properties(q@, '&');
    }
    let pair = match amp {
        Some(i) => q.substring_char(0, i),
        None => q,
    };
    proof {
        match first_index_of(q@, '&') {
            Some(i) => {
                assert(pair@ =~= q@.subrange(0, i));
            },
            None => {},
        }
    }
    let m = pair.unicode_len();
    let eq = find_char(pair, '=');
    proof {
        lemma_first_index_properties(pair@, '=');
    }
    let (k, v): (&str, &str) = match eq {
        Some(i) => (pair.substring_char(0, i), pair.substring_char(i + 1, m)),
        None => (pair, ""),
    };
    proof {
        reveal_strlit("");
        match first_index_of(pair@, '=') {
            Some(i) => {
                assert(v@ =~= pair@.skip(i + 1));
            },
            None => {
                assert(""@ =~= Seq::<char>::empty());
            },
        }
    }
    if str_equal(k, key) {
        Some(v.to_owned())
    } else {
        match amp {
            Some(i) => {
                let rest = q.substring_char(i + 1, n);
                proof {
                    assert(rest@ =~= q@.skip(i + 1));
                }
                find_query_param(rest, key)
            },
            None => None,
        }
    }
}

/// Parse the one redirect request the listener serves: the authorization
/// code and the CSRF state, read from the request line's query. Nothing
/// is returned unless both parameters are present.
pub fn redirect_code_and_state(request_line: &str) -> (r: Option<(String, String)>)
    ensures
        match r {
            Some(cs) => request_target(request_line@) matches Some(t) && query_param(
                query_of(t),
                "code"@,
            ) == Some(cs.0@) && query_param(query_of(t), "state"@) == Some(cs.1@),
            None => request_target(request_line@) is None || (request_target(request_line@)
                matches Some(t) && (query_param(query_of(t), "code"@) is None || query_param(
                query_of(t),
                "state"@,
            ) is None)),
        },
{
    let target = match request_target_of(request_line) {
        Some(t) => t,
        None => {
            return None;
        },
    };
    let n = target.as_str().unicode_len();
    let q = match find_char(target.as_str(), '?') {
        Some(i) => {
            proof {
                lemma_first_index_properties(target@, '?');
            }
            let s = target.as_str().substring_char(i + 1, n);
            proof {
                assert(s@ =~= target@.skip(i + 1));
            }
            s.to_owned()
        },
        None => String::new(),
    };
    let code = match find_query_param(q.as_str(), "code") {
        Some(c) => c,
        None => {
            return None;
        },
    };
    let state = match find_query_param(q.as_str(), "state") {
        Some(s) => s,
        None => {
            return None;
        },
    };
    Some((code, state))
}

/// Render the one response the listener serves before it stops: a plain
/// `200 OK` carrying `message`, its `content-length` counting the
/// message's bytes.
pub fn redirect_response(message: &str) -> (r: String)
    ensures
        r@ == "HTTP/1.1 200 OK\r\ncontent-length: "@ + decimal_digits(
            message.spec_bytes().len() as usize as nat,
        ) + "\r\n\r\n"@ + message@,
{
    let len = message.len();
    let mut r = String::from_str("HTTP/1.1 200 OK\r\ncontent-length: ");
    r.append(u64_to_decimal(len as u64).as_str());
    r.append("\r\n\r\n");
    r.append(message);
    proof {
        assert(r@ =~= "HTTP/1.1 200 OK\r\ncontent-length: "@ + decimal_digits(
            message.spec_bytes().len() as usize as nat,
        ) + "\r\n\r\n"@ + message@);
    }
    r
}

} // verus!

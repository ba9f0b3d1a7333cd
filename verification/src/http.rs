//! Request building and response classification.
//!
//! The request URL is assembled from the configured base URL, the endpoint
//! path and the caller's query parameters, with the reserved `key` and
//! `comment` parameters stripped and the configured comment appended.
//! Responses are classified before decoding: a non-success status fails with
//! the status carried in the message, and a body matching the remote error
//! envelope `{"error": {"code": …, "error": …}}` fails with the remote code
//! and message, whatever else the body would decode as.

use vstd::prelude::*;

use crate::error::Error;

verus! {

/// What `urlencoding::encode` returns for a string's characters.
pub uninterp spec fn encoded_of(s: Seq<char>) -> Seq<char>;

/// Relies on `urlencoding::encode`: percent-encodes every byte except
/// alphanumerics and `-`, `_`, `.`, `~`, so the result depends on the
/// characters alone and an empty string stays empty.
#[verifier::external_body]
fn encode_component(s: &str) -> (r: String)
    ensures
        r@ == encoded_of(s@),
        s@.len() == 0 ==> r@.len() == 0,
{
    urlencoding::encode(s).into_owned()
}

/// The error envelope carried by a response body, if its JSON matches
/// `{"error": {"code": <u16>, "error": <string>}}`: the remote code and
/// message. What `parse_error_envelope` extracts.
pub uninterp spec fn error_envelope_of(body: Seq<char>) -> Option<(u16, Seq<char>)>;

/// Relies on `serde_json::from_str` and `serde_json::Value::{get, as_u64,
/// as_str}`: whether a body matches the error envelope shape, and the code
/// and message it carries, depend on the body text alone.
#[verifier::external_body]
fn parse_error_envelope(body: &str) -> (r: Option<(u16, String)>)
    ensures
        match r {
            Some(cm) => error_envelope_of(body@) == Some((cm.0, cm.1@)),
            None => error_envelope_of(body@) is None,
        },
{
    let v: serde_json::Value = serde_json::from_str(body).ok()?;
    let e = v.get("error")?;
    let code = u16::try_from(e.get("code")?.as_u64()?).ok()?;
    let message = e.get("error")?.as_str()?.to_owned();
    Some((code, message))
}

/// The decimal digit character for `d`.
pub open spec fn digit_char(d: int) -> char {
    if d == 0 {
        '0'
    } else if d == 1 {
        '1'
    } else if d == 2 {
        '2'
    } else if d == 3 {
        '3'
    } else if d == 4 {
        '4'
    } else if d == 5 {
        '5'
    } else if d == 6 {
        '6'
    } else if d == 7 {
        '7'
    } else if d == 8 {
        '8'
    } else {
        '9'
    }
}

/// The decimal rendering of `n`, most significant digit first.
pub open spec fn dec_of(n: nat) -> Seq<char>
    decreases n,
{
    if n < 10 {
        seq![digit_char(n as int)]
    } else {
        dec_of(n / 10).push(digit_char(n as int % 10))
    }
}

/// Append the digit character for `d` to `s`.
fn push_digit(s: &mut String, d: u16)
    requires
        d < 10,
    ensures
        final(s)@ == old(s)@.push(digit_char(d as int)),
{
    proof {
        reveal_strlit("0");
        reveal_strlit("1");
        reveal_strlit("2");
        reveal_strlit("3");
        reveal_strlit("4");
        reveal_strlit("5");
        reveal_strlit("6");
        reveal_strlit("7");
        reveal_strlit("8");
        reveal_strlit("9");
    }
    let ghost pre = s@;
    match d {
        0 => s.append("0"),
        1 => s.append("1"),
        2 => s.append("2"),
        3 => s.append("3"),
        4 => s.append("4"),
        5 => s.append("5"),
        6 => s.append("6"),
        7 => s.append("7"),
        8 => s.append("8"),
        _ => s.append("9"),
    }
    proof {
        assert(s@ =~= pre.push(digit_char(d as int)));
    }
}

/// Append the decimal rendering of `n` to `s`.
fn append_decimal(s: &mut String, n: u16)
    ensures
        final(s)@ == old(s)@ + dec_of(n as nat),
    decreases n,
{
    if n < 10 {
        push_digit(s, n);
        proof {
            assert(s@ =~= old(s)@ + dec_of(n as nat));
        }
    } else {
        append_decimal(s, n / 10);
        push_digit(s, n % 10);
        proof {
            assert(s@ =~= old(s)@ + dec_of(n as nat));
        }
    }
}

/// Whether an HTTP status code means success.
pub open spec fn status_is_success(status: u16) -> bool {
    200 <= status < 300
}

/// The message carried by a status failure: `HTTP <status> from API`.
pub open spec fn http_status_message(status: u16) -> Seq<char> {
    "HTTP "@ + dec_of(status as nat) + " from API"@
}

/// Classify a response before any decoding, in order of precedence.
///
/// A non-success status fails with `Request` carrying the status; a body
/// matching the error envelope shape fails with `Api` carrying the remote
/// code and message verbatim — even if the body would also decode as the
/// target type; anything else is left to the decoder.
pub fn classify_response(status: u16, body: &str) -> (r: Result<(), Error>)
    ensures
        !status_is_success(status) ==> (r matches Err(e) && e matches Error::Request(m)
            && m@ == http_status_message(status)),
        status_is_success(status) ==> match error_envelope_of(body@) {
            Some(cm) => r matches Err(e) && e matches Error::Api { code, message }
                && code == cm.0 && message@ == cm.1,
            None => r is Ok,
        },
{
    if !(200 <= status && status < 300) {
        let mut m = String::from_str("HTTP ");
        append_decimal(&mut m, status);
        m.append(" from API");
        proof {
            assert(m@ =~= http_status_message(status));
        }
        return Err(Error::Request(m));
    }
    match parse_error_envelope(body) {
        Some(cm) => Err(Error::Api { code: cm.0, message: cm.1 }),
        None => Ok(()),
    }
}

/// Whether a query parameter name is reserved for the client itself and
/// stripped from caller-supplied parameters.
pub open spec fn is_reserved_param(name: Seq<char>) -> bool {
    name == "key"@ || name == "comment"@
}

/// One rendered query pair: `<name>=<encoded value>`.
pub open spec fn query_pair_of(name: Seq<char>, value: Seq<char>) -> Seq<char> {
    name + "="@ + encoded_of(value)
}

/// The rendered query pairs of a request: the caller's parameters without
/// the reserved names, then the configured comment if any.
pub open spec fn query_parts_of(
    params: Seq<(Seq<char>, Seq<char>)>,
    comment: Option<Seq<char>>,
) -> Seq<Seq<char>> {
    let kept = params.filter(|p: (Seq<char>, Seq<char>)| !is_reserved_param(p.0)).map_values(
        |p: (Seq<char>, Seq<char>)| query_pair_of(p.0, p.1),
    );
    match comment {
        Some(c) => kept.push(query_pair_of("comment"@, c)),
        None => kept,
    }
}

/// `parts` joined with `&` separators.
pub open spec fn joined_with_amp(parts: Seq<Seq<char>>) -> Seq<char>
    decreases parts.len(),
{
    if parts.len() == 0 {
        Seq::empty()
    } else if parts.len() == 1 {
        parts[0]
    } else {
        joined_with_amp(parts.drop_last()) + "&"@ + parts.last()
    }
}

/// The complete request URL: base, path, and — when any query part exists —
/// `?` followed by the `&`-joined query parts.
pub open spec fn url_of(
    base: Seq<char>,
    path: Seq<char>,
    params: Seq<(Seq<char>, Seq<char>)>,
    comment: Option<Seq<char>>,
) -> Seq<char> {
    let parts = query_parts_of(params, comment);
    if parts.len() == 0 {
        base + path
    } else {
        base + path + "?"@ + joined_with_amp(parts)
    }
}

/// Build a complete URL from base, path and query parameters.
///
/// Caller-supplied `key` and `comment` parameters are stripped — those are
/// the client's own concerns — and the configured comment, when present, is
/// appended as the last query parameter.
pub fn build_url(
    base: &str,
    path: &str,
    params: &Vec<(String, String)>,
    comment: &Option<String>,
) -> (url: String)
    ensures
        url@ == url_of(base@, path@, params.deep_view(), comment.deep_view()),
{
    let key_name = String::from_str("key");
    let comment_name = String::from_str("comment");
    let ghost pview = params.deep_view();
    let ghost keep = |p: (Seq<char>, Seq<char>)| !is_reserved_param(p.0);
    let ghost render = |p: (Seq<char>, Seq<char>)| query_pair_of(p.0, p.1);
    let mut parts: Vec<String> = Vec::new();
    let mut i: usize = 0;
    proof {
        assert(pview.take(0) =~= Seq::<(Seq<char>, Seq<char>)>::empty());
        reveal(Seq::filter);
        assert(parts.deep_view() =~= pview.take(0).filter(keep).map_values(render));
    }
    while i < params.len()
        invariant
            i <= params.len(),
            pview == params.deep_view(),
            keep == (|p: (Seq<char>, Seq<char>)| !is_reserved_param(p.0)),
            render == (|p: (Seq<char>, Seq<char>)| query_pair_of(p.0, p.1)),
            key_name@ == "key"@,
            comment_name@ == "comment"@,
            parts.deep_view() == pview.take(i as int).filter(keep).map_values(render),
        decreases params.len() - i,
    {
        let ghost pre = parts.deep_view();
        proof {
            assert(pview.take(i + 1) =~= pview.take(i as int).push(pview[i as int]));
            lemma_filter_push_pair(pview.take(i as int), keep, pview[i as int]);
        }
        let name = &params[i].0;
        if !(*name == key_name) && !(*name == comment_name) {
            let mut part = name.clone();
            part.append("=");
            let encoded = encode_component(params[i].1.as_str());
            part.append(encoded.as_str());
            proof {
                assert(part@ == render(pview[i as int]));
            }
            parts.push(part);
            proof {
                assert(parts.deep_view() =~= pre.push(render(pview[i as int])));
                assert(pview.take(i as int).filter(keep).map_values(render).push(
                    render(pview[i as int]),
                ) =~= pview.take(i + 1).filter(keep).map_values(render));
            }
        } else {
            proof {
                assert(is_reserved_param(pview[i as int].0));
            }
        }
        i += 1;
    }
    proof {
        assert(pview.take(params@.len() as int) =~= pview);
    }
    if let Some(c) = comment {
        let mut part = String::from_str("comment");
        part.append("=");
        let encoded = encode_component(c.as_str());
        part.append(encoded.as_str());
        let ghost pre = parts.deep_view();
        proof {
            assert(part@ == query_pair_of("comment"@, c@));
        }
        parts.push(part);
        proof {
            assert(parts.deep_view() =~= pre.push(query_pair_of("comment"@, c@)));
        }
    }
    proof {
        assert(parts.deep_view() == query_parts_of(pview, comment.deep_view()));
    }
    let mut url = String::from_str(base);
    url.append(path);
    if parts.len() > 0 {
        url.append("?");
        let mut j: usize = 0;
        while j < parts.len()
            invariant
                j <= parts.len(),
                parts.len() > 0,
                url@ == base@ + path@ + "?"@ + joined_with_amp(parts.deep_view().take(j as int)),
            decreases parts.len() - j,
        {
            if j > 0 {
                url.append("&");
            }
            url.append(parts[j].as_str());
            proof {
                let dv = parts.deep_view();
                assert(dv.take(j + 1).drop_last() =~= dv.take(j as int));
                assert(dv.take(j + 1).last() == dv[j as int]);
                if j == 0 {
                    assert(joined_with_amp(dv.take(1)) == dv[0]);
                }
            }
            j += 1;
        }
        proof {
            assert(parts.deep_view().take(parts@.len() as int) =~= parts.deep_view());
        }
    }
    url
}

/// Filtering pairs distributes over appending one pair.
proof fn lemma_filter_push_pair(
    s: Seq<(Seq<char>, Seq<char>)>,
    p: spec_fn((Seq<char>, Seq<char>)) -> bool,
    x: (Seq<char>, Seq<char>),
)
    ensures
        s.push(x).filter(p) == if p(x) {
            s.filter(p).push(x)
        } else {
            s.filter(p)
        },
{
    reveal(Seq::filter);
    assert(s.push(x).drop_last() =~= s);
    assert(s.push(x).last() == x);
}

} // verus!

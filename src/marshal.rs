use vstd::prelude::*;

use crate::kv::pairs_denote;
use crate::text::same_text;

verus! {

/// Why a request or a response could not cross into or out of a script.
#[derive(Clone, Copy, Debug, PartialEq, Eq, Structural)]
pub enum MarshalError {
    /// The request carries no `Host` header.
    MissingHost,
    /// The script answered with a status outside 100 to 599.
    InvalidStatus,
}

/// The URL a script sees: scheme (`http` by default), `://`, host, path and
/// query.
pub open spec fn url_of(scheme: Option<Seq<char>>, host: Seq<char>, path_and_query: Seq<char>) -> Seq<char> {
    let sch = match scheme {
        Some(s) => s,
        None => seq!['h', 't', 't', 'p'],
    };
    sch + seq![':', '/', '/'] + host + path_and_query
}

/// The value the last pair named `k` carries.
pub open spec fn last_value(pairs: Seq<(String, String)>, k: Seq<char>) -> Option<Seq<char>>
    decreases pairs.len(),
{
    if pairs.len() == 0 {
        None
    } else if pairs.last().0@ == k {
        Some(pairs.last().1@)
    } else {
        last_value(pairs.drop_last(), k)
    }
}

/// Header pairs as a mapping in which a later pair wins over an earlier one
/// of the same name.
pub open spec fn header_map(pairs: Seq<(String, String)>) -> Map<Seq<char>, Seq<char>> {
    Map::new(|k: Seq<char>| last_value(pairs, k) is Some, |k: Seq<char>| last_value(pairs, k)->0)
}

/// The URL handed to a script for a request.
pub fn request_url(scheme: Option<&str>, host: Option<&str>, path_and_query: &str) -> (r: Result<
    String,
    MarshalError,
>)
    ensures
        match host {
            None => r == Err::<String, MarshalError>(MarshalError::MissingHost),
            Some(h) => r is Ok && r->Ok_0@ == url_of(
                match scheme {
                    Some(s) => Some(s@),
                    None => None,
                },
                h@,
                path_and_query@,
            ),
        },
{
    let h = match host {
        Some(h) => h,
        None => return Err(MarshalError::MissingHost),
    };
    proof {
        reveal_strlit("http");
        reveal_strlit("://");
    }
    let mut out = match scheme {
        Some(s) => String::from_str(s),
        None => String::from_str("http"),
    };
    out.append("://");
    out.append(h);
    out.append(path_and_query);
    assert(out@ =~= url_of(
        match scheme {
            Some(s) => Some(s@),
            None => None,
        },
        h@,
        path_and_query@,
    ));
    Ok(out)
}

/// Flattens request headers into one value per name; of repeated names the
/// last value wins.
pub fn flatten_headers(pairs: &Vec<(String, String)>) -> (r: Vec<(String, String)>)
    ensures
        pairs_denote(r@, header_map(pairs@)),
{
    let mut out: Vec<(String, String)> = Vec::new();
    let mut i: usize = 0;
    while i < pairs.len()
        invariant
            i <= pairs@.len(),
            pairs_denote(out@, header_map(pairs@.subrange(0, i as int))),
        decreases pairs@.len() - i,
    {
        let ghost pre = pairs@.subrange(0, i as int);
        let ghost next = pairs@.subrange(0, i + 1);
        assert(next.drop_last() =~= pre);
        let ghost old_out = out@;
        let name = &pairs[i].0;
        let value = &pairs[i].1;
        let mut j: usize = 0;
        while j < out.len()
            invariant
                out@ == old_out,
                j <= out@.len(),
                forall|x: int| 0 <= x < j ==> (#[trigger] out@[x]).0@ != name@,
            ensures
                out@ == old_out,
                j <= out@.len(),
                forall|x: int| 0 <= x < j ==> (#[trigger] out@[x]).0@ != name@,
                j < out@.len() ==> out@[j as int].0@ == name@,
            decreases out@.len() - j,
        {
            if same_text(out[j].0.as_str(), name.as_str()) {
                break;
            }
            j += 1;
        }
        let ghost m = header_map(next);
        assert forall|k: Seq<char>|
            #[trigger] last_value(next, k) == (if name@ == k {
                Some(value@)
            } else {
                last_value(pre, k)
            }) by {
            assert(next.last() == pairs@[i as int]);
        }
        if j < out.len() {
            out.set(j, (name.clone(), value.clone()));
            proof {
                let o = out@;
                assert forall|a: int, b: int|
                    0 <= a < o.len() && 0 <= b < o.len() && (#[trigger] o[a]).0@ == (
                    #[trigger] o[b]).0@ implies a == b by {
                    assert(old_out[a].0@ == o[a].0@);
                    assert(old_out[b].0@ == o[b].0@);
                }
                assert forall|x: int| 0 <= x < o.len() implies #[trigger] m.contains_key(o[x].0@)
                    && m[o[x].0@] == o[x].1@ by {
                    if x != j {
                        assert(o[x] == old_out[x]);
                        assert(old_out[x].0@ != old_out[j as int].0@);
                        assert(header_map(pre).contains_key(old_out[x].0@));
                        assert(last_value(next, o[x].0@) == last_value(pre, o[x].0@));
                    } else {
                        assert(last_value(next, o[x].0@) == Some(value@));
                    }
                }
                assert forall|k: Seq<char>| #[trigger] m.contains_key(k) implies exists|x: int|
                    0 <= x < o.len() && o[x].0@ == k by {
                    if k == name@ {
                        assert(o[j as int].0@ == k);
                    } else {
                        assert(header_map(pre).contains_key(k));
                        let x = choose|x: int| 0 <= x < old_out.len() && old_out[x].0@ == k;
                        assert(o[x].0@ == old_out[x].0@);
                    }
                }
            }
        } else {
            out.push((name.clone(), value.clone()));
            proof {
                let o = out@;
                assert forall|a: int, b: int|
                    0 <= a < o.len() && 0 <= b < o.len() && (#[trigger] o[a]).0@ == (
                    #[trigger] o[b]).0@ implies a == b by {
                    if a < old_out.len() {
                        assert(o[a] == old_out[a]);
                    }
                    if b < old_out.len() {
                        assert(o[b] == old_out[b]);
                    }
                }
                assert forall|x: int| 0 <= x < o.len() implies #[trigger] m.contains_key(o[x].0@)
                    && m[o[x].0@] == o[x].1@ by {
                    if x < old_out.len() {
                        assert(o[x] == old_out[x]);
                        assert(header_map(pre).contains_key(old_out[x].0@));
                        assert(last_value(next, o[x].0@) == last_value(pre, o[x].0@));
                    } else {
                        assert(last_value(next, o[x].0@) == Some(value@));
                    }
                }
                assert forall|k: Seq<char>| #[trigger] m.contains_key(k) implies exists|x: int|
                    0 <= x < o.len() && o[x].0@ == k by {
                    if k == name@ {
                        assert(o[o.len() - 1].0@ == k);
                    } else {
                        assert(header_map(pre).contains_key(k));
                        let x = choose|x: int| 0 <= x < old_out.len() && old_out[x].0@ == k;
                        assert(o[x] == old_out[x]);
                    }
                }
            }
        }
        i += 1;
    }
    assert(pairs@.subrange(0, i as int) =~= pairs@);
    out
}

/// Checks the status a script answered with.
pub fn check_status(status: u16) -> (r: Result<u16, MarshalError>)
    ensures
        100 <= status <= 599 ==> r == Ok::<u16, MarshalError>(status),
        !(100 <= status <= 599) ==> r == Err::<u16, MarshalError>(MarshalError::InvalidStatus),
{
    if 100 <= status && status <= 599 {
        Ok(status)
    } else {
        Err(MarshalError::InvalidStatus)
    }
}

/// What a script's `respondWith` left behind.
pub struct JsResponse {
    pub headers: Vec<(String, String)>,
    pub ok: bool,
    pub redirected: bool,
    pub status: u16,
    pub status_text: String,
    pub body: Vec<u8>,
}

/// The response handed back to the router.
pub struct NativeResponse {
    pub status: u16,
    pub headers: Vec<(String, String)>,
    pub body: Vec<u8>,
}

/// Whether http accepts `s` as a header name.
pub uninterp spec fn header_name_accepted(s: Seq<char>) -> bool;

/// A header value of tabs and of characters from space upward, DEL
/// excepted.
pub open spec fn header_value_valid(s: Seq<char>) -> bool {
    forall|i: int|
        0 <= i < s.len() ==> (#[trigger] s[i]) == '\t' || (s[i] as int >= 32 && s[i] as int != 127)
}

/// Relies on http's `HeaderName::from_str` (reached through axum): it
/// refuses the empty name, and otherwise decides by its table of token
/// characters and its length limit.
#[verifier::external_body]
fn accepts_header_name(s: &str) -> (r: bool)
    ensures
        r == header_name_accepted(s@),
        s@.len() == 0 ==> !r,
{
    <axum::http::HeaderName as std::str::FromStr>::from_str(s).is_ok()
}

/// Relies on http's `HeaderValue::from_str` (reached through axum): it
/// accepts a value exactly when every byte is a tab or at least 32 and not
/// 127; bytes of non-ASCII characters are all at least 128.
#[verifier::external_body]
fn accepts_header_value(s: &str) -> (r: bool)
    ensures
        r == header_value_valid(s@),
{
    axum::http::HeaderValue::from_str(s).is_ok()
}

/// The pairs of `headers` whose flag in `accepted` is set, in order.
pub open spec fn kept_headers(headers: Seq<(String, String)>, accepted: Seq<bool>) -> Seq<
    (String, String),
>
    decreases headers.len(),
{
    if headers.len() == 0 || accepted.len() == 0 {
        Seq::empty()
    } else if accepted.last() {
        kept_headers(headers.drop_last(), accepted.drop_last()).push(headers.last())
    } else {
        kept_headers(headers.drop_last(), accepted.drop_last())
    }
}

/// Whether http takes a response header pair.
pub open spec fn header_accepted(h: (String, String)) -> bool {
    header_name_accepted(h.0@) && header_value_valid(h.1@)
}

/// Keeps the header pairs that `accepted` flags, in order.
pub fn select_headers(headers: &Vec<(String, String)>, accepted: &Vec<bool>) -> (r: Vec<
    (String, String),
>)
    requires
        accepted@.len() == headers@.len(),
    ensures
        r@ == kept_headers(headers@, accepted@),
{
    let mut out: Vec<(String, String)> = Vec::new();
    let mut i: usize = 0;
    while i < headers.len()
        invariant
            i <= headers@.len(),
            accepted@.len() == headers@.len(),
            out@ == kept_headers(headers@.subrange(0, i as int), accepted@.subrange(0, i as int)),
        decreases headers@.len() - i,
    {
        let ghost hs = headers@.subrange(0, i + 1);
        let ghost acc = accepted@.subrange(0, i + 1);
        assert(hs.drop_last() =~= headers@.subrange(0, i as int));
        assert(acc.drop_last() =~= accepted@.subrange(0, i as int));
        if accepted[i] {
            let h = &headers[i];
            out.push((h.0.clone(), h.1.clone()));
            assert(out@.last() == hs.last());
            assert(out@ =~= kept_headers(hs, acc));
        }
        i += 1;
    }
    assert(headers@.subrange(0, i as int) =~= headers@);
    assert(accepted@.subrange(0, i as int) =~= accepted@);
    out
}

/// For each header pair, whether http takes it.
pub fn header_flags(headers: &Vec<(String, String)>) -> (r: Vec<bool>)
    ensures
        r@.len() == headers@.len(),
        forall|i: int| 0 <= i < r@.len() ==> r@[i] == header_accepted(#[trigger] headers@[i]),
{
    let mut out: Vec<bool> = Vec::new();
    let mut i: usize = 0;
    while i < headers.len()
        invariant
            i <= headers@.len(),
            out@.len() == i,
            forall|j: int| 0 <= j < i ==> out@[j] == header_accepted(#[trigger] headers@[j]),
        decreases headers@.len() - i,
    {
        let h = &headers[i];
        let ok = accepts_header_name(h.0.as_str()) && accepts_header_value(h.1.as_str());
        out.push(ok);
        i += 1;
    }
    out
}

/// Turns what a script answered into the response the router sends: its
/// status, once checked, the header pairs http takes (others are dropped),
/// and its body.
pub fn to_native_response(js: JsResponse) -> (r: Result<NativeResponse, MarshalError>)
    ensures
        !(100 <= js.status <= 599) ==> r matches Err(MarshalError::InvalidStatus),
        100 <= js.status <= 599 ==> r is Ok && r->Ok_0.status == js.status && r->Ok_0.body
            == js.body && r->Ok_0.headers@ == kept_headers(
            js.headers@,
            Seq::new(js.headers@.len(), |i: int| header_accepted(js.headers@[i])),
        ),
{
    let status = match check_status(js.status) {
        Ok(s) => s,
        Err(e) => return Err(e),
    };
    let flags = header_flags(&js.headers);
    assert(flags@ =~= Seq::new(js.headers@.len(), |i: int| header_accepted(js.headers@[i])));
    let headers = select_headers(&js.headers, &flags);
    Ok(NativeResponse { status, headers, body: js.body })
}

} // verus!

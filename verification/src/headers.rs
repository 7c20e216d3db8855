//! Header lists and the rewrite policy for outbound requests.
//!
//! Headers are plain name/value pairs; lookups are ASCII-case-insensitive as
//! HTTP requires. The rewriter drops hop-by-hop and proxy-private headers,
//! injects the configured upstream credential in the scheme the client used,
//! and renders display dumps with credentials removed.

use vstd::prelude::*;

use crate::text::{eq_ignore_case, iequal_seq};

verus! {

/// One HTTP header: a name and a value.
#[derive(Debug, Clone)]
pub struct Header {
    pub name: String,
    pub value: String,
}

/// The mathematical model of a [`Header`].
pub ghost struct HeaderModel {
    pub name: Seq<char>,
    pub value: Seq<char>,
}

impl DeepView for Header {
    type V = HeaderModel;

    open spec fn deep_view(&self) -> HeaderModel {
        HeaderModel { name: self.name@, value: self.value@ }
    }
}

impl View for Header {
    type V = HeaderModel;

    open spec fn view(&self) -> HeaderModel {
        self.deep_view()
    }
}

impl Header {
    /// Build a header from parts.
    pub fn new(name: String, value: String) -> (r: Header)
        ensures
            r@.name == name@,
            r@.value == value@,
    {
        Header { name, value }
    }
}

/// Index of the first header whose name matches `name` up to ASCII case, or
/// `-1` when there is none.
pub open spec fn find_header_idx(hs: Seq<HeaderModel>, name: Seq<char>) -> int
    decreases hs.len(),
{
    if hs.len() == 0 {
        -1
    } else if iequal_seq(hs.first().name, name) {
        0
    } else {
        let r = find_header_idx(hs.drop_first(), name);
        if r == -1 {
            -1
        } else {
            r + 1
        }
    }
}

/// The value of the first header named `name` (up to ASCII case), if any.
pub open spec fn header_lookup(hs: Seq<HeaderModel>, name: Seq<char>) -> Option<Seq<char>> {
    let i = find_header_idx(hs, name);
    if i == -1 {
        None
    } else {
        Some(hs[i].value)
    }
}

/// Whether some header is named `name`, up to ASCII case.
pub open spec fn has_header(hs: Seq<HeaderModel>, name: Seq<char>) -> bool {
    find_header_idx(hs, name) != -1
}

proof fn lemma_find_none(hs: Seq<HeaderModel>, name: Seq<char>)
    requires
        forall|j: int| 0 <= j < hs.len() ==> !iequal_seq(#[trigger] hs[j].name, name),
    ensures
        find_header_idx(hs, name) == -1,
    decreases hs.len(),
{
    if hs.len() > 0 {
        assert(hs.first() == hs[0]);
        lemma_find_none(hs.drop_first(), name);
    }
}

proof fn lemma_find_at(hs: Seq<HeaderModel>, name: Seq<char>, i: int)
    requires
        0 <= i < hs.len(),
        forall|j: int| 0 <= j < i ==> !iequal_seq(#[trigger] hs[j].name, name),
        iequal_seq(hs[i].name, name),
    ensures
        find_header_idx(hs, name) == i,
    decreases hs.len(),
{
    if i == 0 {
    } else {
        assert(!iequal_seq(hs[0].name, name));
        lemma_find_at(hs.drop_first(), name, i - 1);
    }
}

/// Find the first header named `name`, up to ASCII case; see
/// [`header_lookup`].
pub fn get_header<'a>(hs: &'a Vec<Header>, name: &str) -> (r: Option<&'a String>)
    ensures
        match r {
            Some(v) => header_lookup(hs.deep_view(), name@) == Some(v@),
            None => header_lookup(hs.deep_view(), name@) is None,
        },
{
    let mut i: usize = 0;
    let n = hs.len();
    while i < n
        invariant
            0 <= i <= n,
            n == hs.len(),
            hs.deep_view().len() == n,
            forall|j: int| 0 <= j < i ==> !iequal_seq(#[trigger] hs.deep_view()[j].name, name@),
        decreases n - i,
    {
        if eq_ignore_case(hs[i].name.as_str(), name) {
            proof {
                lemma_find_at(hs.deep_view(), name@, i as int);
            }
            return Some(&hs[i].value);
        }
        i = i + 1;
    }
    proof {
        lemma_find_none(hs.deep_view(), name@);
    }
    None
}

/// The rendered display line of one header.
pub open spec fn header_line(h: HeaderModel) -> Seq<char> {
    h.name + ": "@ + h.value
}

/// The rendered display dump of a header list: one line per header, joined
/// with newlines.
pub open spec fn render_headers(hs: Seq<HeaderModel>) -> Seq<char>
    decreases hs.len(),
{
    if hs.len() == 0 {
        Seq::empty()
    } else if hs.len() == 1 {
        header_line(hs.first())
    } else {
        render_headers(hs.drop_last()) + "\n"@ + header_line(hs.last())
    }
}

/// A header list with credentials removed for display: every header except
/// `Authorization` and `x-proxy-key`.
pub open spec fn display_headers(hs: Seq<HeaderModel>) -> Seq<HeaderModel>
    decreases hs.len(),
{
    if hs.len() == 0 {
        Seq::empty()
    } else {
        let rest = display_headers(hs.drop_last());
        let h = hs.last();
        if iequal_seq(h.name, "authorization"@) || iequal_seq(h.name, "x-proxy-key"@) {
            rest
        } else {
            rest.push(h)
        }
    }
}

/// Render a header list for a log entry, with `Authorization` and
/// `x-proxy-key` removed.
pub fn format_headers(hs: &Vec<Header>) -> (r: String)
    ensures
        r@ == render_headers(display_headers(hs.deep_view())),
{
    let mut out = String::new();
    let mut any: bool = false;
    let mut i: usize = 0;
    let n = hs.len();
    proof {
        assert(hs.deep_view().take(0) =~= Seq::<HeaderModel>::empty());
    }
    while i < n
        invariant
            0 <= i <= n,
            n == hs.len(),
            hs.deep_view().len() == n,
            out@ == render_headers(display_headers(hs.deep_view().take(i as int))),
            any == (display_headers(hs.deep_view().take(i as int)).len() > 0),
        decreases n - i,
    {
        proof {
            let pre = hs.deep_view().take(i as int);
            let cur = hs.deep_view().take(i + 1);
            assert(cur.drop_last() =~= pre);
            assert(cur.last() == hs.deep_view()[i as int]);
        }
        let keep = !(eq_ignore_case(hs[i].name.as_str(), "authorization") || eq_ignore_case(
            hs[i].name.as_str(),
            "x-proxy-key",
        ));
        if keep {
            let ghost d_pre = display_headers(hs.deep_view().take(i as int));
            if any {
                out.append("\n");
            }
            out.append(hs[i].name.as_str());
            out.append(": ");
            out.append(hs[i].value.as_str());
            any = true;
            proof {
                let d_cur = display_headers(hs.deep_view().take(i + 1));
                assert(d_cur == d_pre.push(hs.deep_view()[i as int]));
                if d_pre.len() > 0 {
                    assert(d_cur.drop_last() =~= d_pre);
                    assert(d_cur.last() == hs.deep_view()[i as int]);
                    assert(out@ =~= render_headers(d_pre) + "\n"@ + header_line(d_cur.last()));
                } else {
                    assert(d_cur =~= seq![hs.deep_view()[i as int]]);
                    assert(d_cur.first() == hs.deep_view()[i as int]);
                    assert(out@ =~= header_line(d_cur.first()));
                }
            }
        }
        i = i + 1;
    }
    proof {
        assert(hs.deep_view().take(n as int) =~= hs.deep_view());
    }
    out
}

/// Headers forwarded verbatim to an upstream: everything except `Host`,
/// `Content-Length`, the proxy-private `x-proxy-key`, and the two captured
/// credential headers `Authorization` and `x-goog-api-key`.
pub open spec fn forwarded_headers(hs: Seq<HeaderModel>) -> Seq<HeaderModel>
    decreases hs.len(),
{
    if hs.len() == 0 {
        Seq::empty()
    } else {
        let rest = forwarded_headers(hs.drop_last());
        let h = hs.last();
        if iequal_seq(h.name, "host"@) || iequal_seq(h.name, "content-length"@) || iequal_seq(
            h.name,
            "x-proxy-key"@,
        ) || iequal_seq(h.name, "authorization"@) || iequal_seq(h.name, "x-goog-api-key"@) {
            rest
        } else {
            rest.push(h)
        }
    }
}

/// The outbound header list for one attempt. With a configured upstream key,
/// the credential is injected in the scheme the client used: `x-goog-api-key`
/// when the inbound request carried one, otherwise `Authorization: Bearer`.
/// Without one, the captured client credentials are re-emitted verbatim.
pub open spec fn outbound_headers(hs: Seq<HeaderModel>, api_key: Option<Seq<char>>) -> Seq<
    HeaderModel,
> {
    let base = forwarded_headers(hs);
    match api_key {
        Some(k) => if has_header(hs, "x-goog-api-key"@) {
            base.push(HeaderModel { name: "x-goog-api-key"@, value: k })
        } else {
            base.push(HeaderModel { name: "authorization"@, value: "Bearer "@ + k })
        },
        None => {
            let base2 = match header_lookup(hs, "x-goog-api-key"@) {
                Some(v) => base.push(HeaderModel { name: "x-goog-api-key"@, value: v }),
                None => base,
            };
            match header_lookup(hs, "authorization"@) {
                Some(v) => base2.push(HeaderModel { name: "authorization"@, value: v }),
                None => base2,
            }
        },
    }
}

/// Build the outbound header list for one attempt; see [`outbound_headers`].
pub fn prepare_upstream_headers(headers: &Vec<Header>, api_key: &Option<String>) -> (r: Vec<
    Header,
>)
    ensures
        r.deep_view() == outbound_headers(headers.deep_view(), api_key.deep_view()),
{
    let mut out: Vec<Header> = Vec::new();
    let mut i: usize = 0;
    let n = headers.len();
    proof {
        assert(headers.deep_view().take(0) =~= Seq::<HeaderModel>::empty());
    }
    while i < n
        invariant
            0 <= i <= n,
            n == headers.len(),
            headers.deep_view().len() == n,
            out.deep_view() == forwarded_headers(headers.deep_view().take(i as int)),
        decreases n - i,
    {
        proof {
            let pre = headers.deep_view().take(i as int);
            let cur = headers.deep_view().take(i + 1);
            assert(cur.drop_last() =~= pre);
            assert(cur.last() == headers.deep_view()[i as int]);
        }
        let nm = headers[i].name.as_str();
        let drop = eq_ignore_case(nm, "host") || eq_ignore_case(nm, "content-length")
            || eq_ignore_case(nm, "x-proxy-key") || eq_ignore_case(nm, "authorization")
            || eq_ignore_case(nm, "x-goog-api-key");
        if !drop {
            let ghost pre_out = out.deep_view();
            out.push(Header { name: headers[i].name.clone(), value: headers[i].value.clone() });
            proof {
                assert(out.deep_view() =~= pre_out.push(headers.deep_view()[i as int]));
            }
        }
        i = i + 1;
    }
    proof {
        assert(headers.deep_view().take(n as int) =~= headers.deep_view());
    }
    match api_key {
        Some(k) => {
            let uses_goog = match get_header(headers, "x-goog-api-key") {
                Some(_) => true,
                None => false,
            };
            let ghost pre_out = out.deep_view();
            if uses_goog {
                out.push(Header { name: String::from_str("x-goog-api-key"), value: k.clone() });
            } else {
                let mut v = String::from_str("Bearer ");
                v.append(k.as_str());
                out.push(Header { name: String::from_str("authorization"), value: v });
            }
            proof {
                assert(out.deep_view() =~= outbound_headers(
                    headers.deep_view(),
                    api_key.deep_view(),
                ));
            }
        },
        None => {
            match get_header(headers, "x-goog-api-key") {
                Some(v) => {
                    let ghost pre_out = out.deep_view();
                    out.push(
                        Header { name: String::from_str("x-goog-api-key"), value: v.clone() },
                    );
                    proof {
                        assert(out.deep_view() =~= pre_out.push(
                            HeaderModel {
                                name: "x-goog-api-key"@,
                                value: header_lookup(
                                    headers.deep_view(),
                                    "x-goog-api-key"@,
                                ).unwrap(),
                            },
                        ));
                    }
                },
                None => {},
            }
            match get_header(headers, "authorization") {
                Some(v) => {
                    let ghost pre_out = out.deep_view();
                    out.push(Header { name: String::from_str("authorization"), value: v.clone() });
                    proof {
                        assert(out.deep_view() =~= pre_out.push(
                            HeaderModel {
                                name: "authorization"@,
                                value: header_lookup(headers.deep_view(), "authorization"@).unwrap(),
                            },
                        ));
                    }
                },
                None => {},
            }
            proof {
                assert(out.deep_view() =~= outbound_headers(
                    headers.deep_view(),
                    api_key.deep_view(),
                ));
            }
        },
    }
    out
}

/// Response headers passed back to the client: everything except
/// `Transfer-Encoding`, `Content-Length` and `Connection`, whose framing the
/// server recomputes.
pub open spec fn client_response_headers(hs: Seq<HeaderModel>) -> Seq<HeaderModel>
    decreases hs.len(),
{
    if hs.len() == 0 {
        Seq::empty()
    } else {
        let rest = client_response_headers(hs.drop_last());
        let h = hs.last();
        if iequal_seq(h.name, "transfer-encoding"@) || iequal_seq(h.name, "content-length"@)
            || iequal_seq(h.name, "connection"@) {
            rest
        } else {
            rest.push(h)
        }
    }
}

/// Filter an upstream's response headers for the client; see
/// [`client_response_headers`].
pub fn filter_response_headers(headers: &Vec<Header>) -> (r: Vec<Header>)
    ensures
        r.deep_view() == client_response_headers(headers.deep_view()),
{
    let mut out: Vec<Header> = Vec::new();
    let mut i: usize = 0;
    let n = headers.len();
    proof {
        assert(headers.deep_view().take(0) =~= Seq::<HeaderModel>::empty());
    }
    while i < n
        invariant
            0 <= i <= n,
            n == headers.len(),
            headers.deep_view().len() == n,
            out.deep_view() == client_response_headers(headers.deep_view().take(i as int)),
        decreases n - i,
    {
        proof {
            let pre = headers.deep_view().take(i as int);
            let cur = headers.deep_view().take(i + 1);
            assert(cur.drop_last() =~= pre);
            assert(cur.last() == headers.deep_view()[i as int]);
        }
        let nm = headers[i].name.as_str();
        let drop = eq_ignore_case(nm, "transfer-encoding") || eq_ignore_case(nm, "content-length")
            || eq_ignore_case(nm, "connection");
        if !drop {
            let ghost pre_out = out.deep_view();
            out.push(Header { name: headers[i].name.clone(), value: headers[i].value.clone() });
            proof {
                assert(out.deep_view() =~= pre_out.push(headers.deep_view()[i as int]));
            }
        }
        i = i + 1;
    }
    proof {
        assert(headers.deep_view().take(n as int) =~= headers.deep_view());
    }
    out
}

} // verus!

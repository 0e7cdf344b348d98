//! The host-side record of an HTTP request: method, absolute URI,
//! header multimap and optional byte body. Includes the hop-by-hop
//! header filter a proxy must apply before replaying a request
//! upstream.

use vstd::prelude::*;

use crate::text::{
    chars_of, is_blank, lower, lower_str, split_chars, split_on, str_eq, string_of, trim_chars,
    trimmed,
};

verus! {

/// An HTTP request record. Header names are matched
/// case-insensitively; values are kept as given.
pub struct HttpRequest {
    pub method: String,
    pub uri: String,
    pub headers: Vec<(String, String)>,
    pub body: Option<Vec<u8>>,
}

impl HttpRequest {
    /// The header pairs as character sequences.
    pub open spec fn headers_view(self) -> Seq<(Seq<char>, Seq<char>)> {
        self.headers@.map_values(|h: (String, String)| (h.0@, h.1@))
    }

    /// A request with no custom headers needs no proxying.
    pub open spec fn has_no_headers(self) -> bool {
        self.headers@.len() == 0
    }
}

/// Whether a lowercase header name is hop-by-hop and must never
/// traverse a proxy.
pub open spec fn is_hop_by_hop(name: Seq<char>) -> bool {
    ||| name == "connection"@
    ||| name == "keep-alive"@
    ||| name == "proxy-authenticate"@
    ||| name == "proxy-authorization"@
    ||| name == "te"@
    ||| name == "trailers"@
    ||| name == "transfer-encoding"@
    ||| name == "upgrade"@
}

/// The value of the first header with the given lowercase name.
pub open spec fn first_header(headers: Seq<(Seq<char>, Seq<char>)>, name: Seq<char>) -> Option<
    Seq<char>,
>
    decreases headers.len(),
{
    if headers.len() == 0 {
        None
    } else if lower(headers.first().0) == name {
        Some(headers.first().1)
    } else {
        first_header(headers.drop_first(), name)
    }
}

/// The tokens of a `Connection:` value: comma-separated, trimmed,
/// lowercased.
pub open spec fn conn_tokens(v: Seq<char>) -> Seq<Seq<char>> {
    split_on(v, ',').map_values(|t: Seq<char>| lower(trimmed(t)))
}

/// Whether a (lowercase, non-empty) name is listed in the request's
/// own `Connection:` token list.
pub open spec fn named_in_connection(
    headers: Seq<(Seq<char>, Seq<char>)>,
    name: Seq<char>,
) -> bool {
    match first_header(headers, "connection"@) {
        Some(v) => name.len() > 0 && conn_tokens(v).contains(name),
        None => false,
    }
}

/// Whether a header survives the hop-by-hop filter, judged against
/// the original header list.
pub open spec fn survives_filter(
    h: (Seq<char>, Seq<char>),
    headers: Seq<(Seq<char>, Seq<char>)>,
) -> bool {
    !is_hop_by_hop(lower(h.0)) && !named_in_connection(headers, lower(h.0))
}

/// Strips the headers that must not traverse a proxy.
pub trait HopByHopHeadersExt {
    /// The header pairs the filter judges and rewrites.
    spec fn header_model(&self) -> Seq<(Seq<char>, Seq<char>)>;

    /// Remove the hop-by-hop headers and every header named in the
    /// `Connection:` token list; keep everything else, in order.
    fn remove_hop_by_hop_headers(&mut self)
        ensures
            final(self).header_model() == old(self).header_model().filter(
                |h: (Seq<char>, Seq<char>)| survives_filter(h, old(self).header_model()),
            ),
    ;
}

/// Look up the first header with the given lowercase name.
fn find_first_header(headers: &Vec<(String, String)>, name: &str) -> (r: Option<String>)
    ensures
        match r {
            Some(v) => first_header(
                headers@.map_values(|h: (String, String)| (h.0@, h.1@)),
                name@,
            ) == Some(v@),
            None => first_header(
                headers@.map_values(|h: (String, String)| (h.0@, h.1@)),
                name@,
            ) is None,
        },
{
    let n = headers.len();
    let ghost hv = headers@.map_values(|h: (String, String)| (h.0@, h.1@));
    proof {
        assert(hv.skip(0) =~= hv);
    }
    for i in 0..n
        invariant
            n == headers@.len(),
            hv == headers@.map_values(|h: (String, String)| (h.0@, h.1@)),
            first_header(hv, name@) == first_header(hv.skip(i as int), name@),
            forall|j: int| 0 <= j < i ==> lower(hv[j].0) != name@,
    {
        let low = lower_str(headers[i].0.as_str());
        proof {
            assert(hv.skip(i as int).first() == hv[i as int]);
            assert(hv.skip(i as int).drop_first() =~= hv.skip(i + 1));
        }
        if str_eq(low.as_str(), name) {
            let v = headers[i].1.clone();
            return Some(v);
        }
    }
    proof {
        assert(hv.skip(n as int) =~= Seq::<(Seq<char>, Seq<char>)>::empty());
    }
    None
}

/// Character-vector equality.
fn chars_eq(a: &Vec<char>, b: &Vec<char>) -> (r: bool)
    ensures
        r == (a@ == b@),
{
    let na = a.len();
    let nb = b.len();
    if na != nb {
        return false;
    }
    for i in 0..na
        invariant
            na == a@.len(),
            na == b@.len(),
            forall|j: int| 0 <= j < i ==> a@[j] == b@[j],
    {
        if a[i] != b[i] {
            return false;
        }
    }
    proof {
        assert(a@ =~= b@);
    }
    true
}

/// Lowercase each character of a vector.
fn lower_chars(v: &Vec<char>) -> (r: Vec<char>)
    ensures
        r@ == lower(v@),
{
    let n = v.len();
    let mut r: Vec<char> = Vec::new();
    for i in 0..n
        invariant
            n == v@.len(),
            r@ == lower(v@.take(i as int)),
    {
        r.push(crate::text::lower_char_exec(v[i]));
        assert(r@ =~= lower(v@.take(i + 1)));
    }
    assert(r@ =~= lower(v@));
    r
}

/// The `Connection:` token list of a header list, as trimmed
/// lowercase tokens.
fn connection_token_list(headers: &Vec<(String, String)>) -> (r: Vec<Vec<char>>)
    ensures
        match first_header(
            headers@.map_values(|h: (String, String)| (h.0@, h.1@)),
            "connection"@,
        ) {
            Some(v) => r@.map_values(|t: Vec<char>| t@) == conn_tokens(v),
            None => r@.len() == 0,
        },
{
    let conn = find_first_header(headers, "connection");
    match conn {
        Some(v) => {
            let vchars = chars_of(v.as_str());
            let pieces = split_chars(&vchars, ',');
            let np = pieces.len();
            let mut toks: Vec<Vec<char>> = Vec::new();
            let ghost pv = pieces@.map_values(|p: Vec<char>| p@);
            for i in 0..np
                invariant
                    np == pieces@.len(),
                    pv == pieces@.map_values(|p: Vec<char>| p@),
                    toks@.map_values(|t: Vec<char>| t@) == pv.take(i as int).map_values(
                        |t: Seq<char>| lower(trimmed(t)),
                    ),
            {
                let ghost before = toks@.map_values(|t: Vec<char>| t@);
                let t = lower_chars(&trim_chars(&pieces[i]));
                toks.push(t);
                proof {
                    assert(toks@.map_values(|t: Vec<char>| t@) =~= before.push(
                        lower(trimmed(pv[i as int])),
                    ));
                    assert(pv.take(i + 1).map_values(|t: Seq<char>| lower(trimmed(t))) =~= pv.take(
                        i as int,
                    ).map_values(|t: Seq<char>| lower(trimmed(t))).push(
                        lower(trimmed(pv[i as int])),
                    ));
                }
            }
            proof {
                assert(pv.take(np as int) =~= pv);
            }
            toks
        },
        None => Vec::new(),
    }
}

/// Whether a non-empty name occurs in the token list.
fn in_token_list(toks: &Vec<Vec<char>>, name: &Vec<char>) -> (r: bool)
    ensures
        r == (name@.len() > 0 && toks@.map_values(|t: Vec<char>| t@).contains(name@)),
{
    if name.len() == 0 {
        return false;
    }
    let n = toks.len();
    let ghost tv = toks@.map_values(|t: Vec<char>| t@);
    for i in 0..n
        invariant
            name@.len() > 0,
            n == toks@.len(),
            tv == toks@.map_values(|t: Vec<char>| t@),
            forall|j: int| 0 <= j < i ==> tv[j] != name@,
    {
        if chars_eq(&toks[i], name) {
            proof {
                assert(tv[i as int] == name@);
                assert(tv.contains(name@));
            }
            return true;
        }
    }
    proof {
        assert(forall|j: int| 0 <= j < tv.len() ==> tv[j] != name@);
    }
    false
}

/// Whether a lowercase name is one of the fixed hop-by-hop headers.
fn is_hop_by_hop_exec(low: &str) -> (r: bool)
    ensures
        r == is_hop_by_hop(low@),
{
    str_eq(low, "connection") || str_eq(low, "keep-alive") || str_eq(low, "proxy-authenticate")
        || str_eq(low, "proxy-authorization") || str_eq(low, "te") || str_eq(low, "trailers")
        || str_eq(low, "transfer-encoding") || str_eq(low, "upgrade")
}

impl HopByHopHeadersExt for HttpRequest {
    open spec fn header_model(&self) -> Seq<(Seq<char>, Seq<char>)> {
        self.headers_view()
    }

    fn remove_hop_by_hop_headers(&mut self)
        ensures
            final(self).method@ == old(self).method@,
            final(self).uri@ == old(self).uri@,
            final(self).body == old(self).body,
    {
        let ghost orig = self.headers_view();
        let ghost keep = |h: (Seq<char>, Seq<char>)| survives_filter(h, orig);
        let toks = connection_token_list(&self.headers);
        let n = self.headers.len();
        let mut kept: Vec<(String, String)> = Vec::new();
        for i in 0..n
            invariant
                n == self.headers@.len(),
                orig == self.headers@.map_values(|h: (String, String)| (h.0@, h.1@)),
                keep == (|h: (Seq<char>, Seq<char>)| survives_filter(h, orig)),
                match first_header(orig, "connection"@) {
                    Some(v) => toks@.map_values(|t: Vec<char>| t@) == conn_tokens(v),
                    None => toks@.len() == 0,
                },
                kept@.map_values(|h: (String, String)| (h.0@, h.1@)) == orig.take(
                    i as int,
                ).filter(keep),
        {
            let low = lower_str(self.headers[i].0.as_str());
            let low_chars = chars_of(low.as_str());
            let hop = is_hop_by_hop_exec(low.as_str());
            let in_conn = in_token_list(&toks, &low_chars);
            let ghost before = kept@.map_values(|h: (String, String)| (h.0@, h.1@));
            proof {
                assert(orig[i as int] == (self.headers@[i as int].0@, self.headers@[i as int].1@));
                assert(named_in_connection(orig, lower(orig[i as int].0)) == in_conn);
                assert(orig.take(i + 1).drop_last() =~= orig.take(i as int));
                reveal(Seq::filter);
            }
            if !hop && !in_conn {
                let name = self.headers[i].0.clone();
                let value = self.headers[i].1.clone();
                kept.push((name, value));
                proof {
                    assert(kept@.map_values(|h: (String, String)| (h.0@, h.1@)) =~= before.push(
                        orig[i as int],
                    ));
                    assert(keep(orig[i as int]));
                    assert(orig.take(i + 1).filter(keep) =~= before.push(orig[i as int]));
                }
            } else {
                proof {
                    assert(!keep(orig[i as int]));
                    assert(orig.take(i + 1).filter(keep) =~= before);
                }
            }
        }
        proof {
            assert(orig.take(n as int) =~= orig);
        }
        self.headers = kept;
    }
}

/// Every header that survives the filter is neither hop-by-hop nor
/// named in the original `Connection:` token list.
pub proof fn lemma_stripped_headers_clean(
    orig: Seq<(Seq<char>, Seq<char>)>,
    stripped: Seq<(Seq<char>, Seq<char>)>,
    i: int,
)
    requires
        stripped == orig.filter(
            |h: (Seq<char>, Seq<char>)| survives_filter(h, orig),
        ),
        0 <= i < stripped.len(),
    ensures
        !is_hop_by_hop(lower(stripped[i].0)),
        !named_in_connection(orig, lower(stripped[i].0)),
{
    orig.lemma_filter_pred(|h: (Seq<char>, Seq<char>)| survives_filter(h, orig), i);
}

/// A request's parts, for stating that two records carry the same
/// request.
pub open spec fn req_view(r: HttpRequest) -> (
    Seq<char>,
    Seq<char>,
    Seq<(Seq<char>, Seq<char>)>,
    Option<Seq<u8>>,
) {
    (r.method@, r.uri@, r.headers_view(), match r.body {
        Some(b) => Some(b@),
        None => None,
    })
}

/// Copy a byte vector.
fn copy_bytes(v: &Vec<u8>) -> (r: Vec<u8>)
    ensures
        r@ == v@,
{
    let n = v.len();
    let mut r: Vec<u8> = Vec::new();
    for i in 0..n
        invariant
            n == v@.len(),
            r@ == v@.take(i as int),
    {
        r.push(v[i]);
        assert(r@ =~= v@.take(i + 1));
    }
    assert(r@ =~= v@);
    r
}

/// Copy a header list.
fn copy_headers(v: &Vec<(String, String)>) -> (r: Vec<(String, String)>)
    ensures
        r@.map_values(|h: (String, String)| (h.0@, h.1@)) == v@.map_values(
            |h: (String, String)| (h.0@, h.1@),
        ),
{
    let n = v.len();
    let mut r: Vec<(String, String)> = Vec::new();
    let ghost goal = v@.map_values(|h: (String, String)| (h.0@, h.1@));
    for i in 0..n
        invariant
            n == v@.len(),
            goal == v@.map_values(|h: (String, String)| (h.0@, h.1@)),
            r@.map_values(|h: (String, String)| (h.0@, h.1@)) == goal.take(i as int),
    {
        let ghost before = r@.map_values(|h: (String, String)| (h.0@, h.1@));
        r.push((v[i].0.clone(), v[i].1.clone()));
        proof {
            assert(r@.map_values(|h: (String, String)| (h.0@, h.1@)) =~= before.push(
                goal[i as int],
            ));
            assert(goal.take(i + 1) =~= goal.take(i as int).push(goal[i as int]));
        }
    }
    proof {
        assert(goal.take(n as int) =~= goal);
    }
    r
}

impl HttpRequest {
    /// A copy carrying the same request.
    pub fn duplicate(&self) -> (r: HttpRequest)
        ensures
            req_view(r) == req_view(*self),
    {
        let body = match &self.body {
            Some(b) => Some(copy_bytes(b)),
            None => None,
        };
        let r = HttpRequest {
            method: self.method.clone(),
            uri: self.uri.clone(),
            headers: copy_headers(&self.headers),
            body,
        };
        r
    }
}

} // verus!

//! Media-type detection. The first tier reads the URI path's
//! extension and asks the extension table; the network tiers (HEAD
//! probe and content sniff) parse a `Content-Type` value or identify
//! magic bytes in the first body chunk.

use vstd::prelude::*;

use crate::request::HttpRequest;
use crate::text::{chars_of, str_eq, string_of};

verus! {

/// A media type as the proxy dispatches on it: a top-level type and
/// a subtype, both lowercase (e.g. "video" and "mp4").
pub struct MediaType {
    pub top: String,
    pub sub: String,
}

impl MediaType {
    /// The pair of character sequences.
    pub open spec fn view_pair(self) -> (Seq<char>, Seq<char>) {
        (self.top@, self.sub@)
    }

    /// A `video/*` type.
    pub open spec fn is_video_spec(self) -> bool {
        self.top@ == "video"@
    }

    /// The BitTorrent metainfo type.
    pub open spec fn is_torrent_spec(self) -> bool {
        self.top@ == "application"@ && self.sub@ == "x-bittorrent"@
    }

    /// Whether the top-level type is `video`.
    pub fn is_video(&self) -> (r: bool)
        ensures
            r == self.is_video_spec(),
    {
        str_eq(self.top.as_str(), "video")
    }

    /// Whether this is `application/x-bittorrent`.
    pub fn is_torrent(&self) -> (r: bool)
        ensures
            r == self.is_torrent_spec(),
    {
        str_eq(self.top.as_str(), "application") && str_eq(self.sub.as_str(), "x-bittorrent")
    }
}

/// What the extension table answers for a file extension: the
/// (type, subtype) of the first guess, a function of the extension
/// alone.
pub uninterp spec fn guessed_mime(ext: Seq<char>) -> Option<(Seq<char>, Seq<char>)>;

/// Relies on `mime_guess::from_ext` and `MimeGuess::first`: the
/// first media type registered for the extension, if any.
#[verifier::external_body]
pub fn guess_mime_for_ext(ext: &str) -> (r: Option<MediaType>)
    ensures
        match r {
            Some(m) => guessed_mime(ext@) == Some(m.view_pair()),
            None => guessed_mime(ext@) is None,
        },
{
    mime_guess::from_ext(ext).first().map(|m| MediaType {
        top: m.type_().as_str().to_string(),
        sub: m.subtype().as_str().to_string(),
    })
}

/// What parsing a `Content-Type` text yields: the (type, subtype)
/// pair, a function of the text alone.
pub uninterp spec fn parsed_mime(s: Seq<char>) -> Option<(Seq<char>, Seq<char>)>;

/// Relies on `mime::Mime::from_str`: the parsed type and subtype of
/// a media-type text such as a `Content-Type` value.
#[verifier::external_body]
pub fn parse_mime(s: &str) -> (r: Option<MediaType>)
    ensures
        match r {
            Some(m) => parsed_mime(s@) == Some(m.view_pair()),
            None => parsed_mime(s@) is None,
        },
{
    <mime::Mime as core::str::FromStr>::from_str(s).ok().map(|m| MediaType {
        top: m.type_().as_str().to_string(),
        sub: m.subtype().as_str().to_string(),
    })
}

/// What magic-byte identification answers for a buffer: the
/// media-type text of the matched signature, a function of the bytes
/// alone.
pub uninterp spec fn sniffed_mime(bytes: Seq<u8>) -> Option<Seq<char>>;

/// Relies on `infer::get` and `infer::Type::mime_type`: the media
/// type matched by magic bytes at the front of the buffer.
#[verifier::external_body]
pub fn sniff_mime_text(bytes: &Vec<u8>) -> (r: Option<String>)
    ensures
        match r {
            Some(s) => sniffed_mime(bytes@) == Some(s@),
            None => sniffed_mime(bytes@) is None,
        },
{
    infer::get(bytes.as_slice()).map(|kind| kind.mime_type().to_string())
}

/// Identify the media type of a body chunk by its magic bytes.
pub fn sniff_media_type(bytes: &Vec<u8>) -> (r: Option<MediaType>)
    ensures
        match sniffed_mime(bytes@) {
            Some(s) => match r {
                Some(m) => parsed_mime(s) == Some(m.view_pair()),
                None => parsed_mime(s) is None,
            },
            None => r is None,
        },
{
    match sniff_mime_text(bytes) {
        Some(s) => parse_mime(s.as_str()),
        None => None,
    }
}

/// The first index at or past `from` holding `c`.
pub open spec fn first_at(s: Seq<char>, from: int, c: char) -> Option<int>
    decreases s.len() - from,
{
    if from < 0 || from >= s.len() {
        None
    } else if s[from] == c {
        Some(from)
    } else {
        first_at(s, from + 1, c)
    }
}

/// The last index holding `c`.
pub open spec fn last_of(s: Seq<char>, c: char) -> Option<int>
    decreases s.len(),
{
    if s.len() == 0 {
        None
    } else if s.last() == c {
        Some(s.len() - 1)
    } else {
        last_of(s.drop_last(), c)
    }
}

/// The first index at or past `from` where "://" begins.
pub open spec fn first_scheme_sep(s: Seq<char>, from: int) -> Option<int>
    decreases s.len() - from,
{
    if from < 0 || from + 3 > s.len() {
        None
    } else if s[from] == ':' && s[from + 1] == '/' && s[from + 2] == '/' {
        Some(from)
    } else {
        first_scheme_sep(s, from + 1)
    }
}

/// The URI text before any query or fragment.
pub open spec fn strip_query(u: Seq<char>) -> Seq<char> {
    let q = match first_at(u, 0, '?') {
        Some(i) => u.take(i),
        None => u,
    };
    match first_at(q, 0, '#') {
        Some(i) => q.take(i),
        None => q,
    }
}

/// The path of an absolute URI: what follows the authority, from its
/// leading slash, queries stripped. An authority without a path has
/// the path "/"; text without a scheme separator is all path.
pub open spec fn uri_path(u: Seq<char>) -> Seq<char> {
    let ns = strip_query(u);
    match first_scheme_sep(ns, 0) {
        None => ns,
        Some(i) => {
            let rest = ns.skip(i + 3);
            match first_at(rest, 0, '/') {
                None => seq!['/'],
                Some(j) => rest.skip(j),
            }
        },
    }
}

/// The path's extension: the text after the last dot, unless there
/// is none or a slash follows it.
pub open spec fn path_extension(p: Seq<char>) -> Option<Seq<char>> {
    match last_of(p, '.') {
        None => None,
        Some(i) => {
            let e = p.skip(i + 1);
            if first_at(e, 0, '/') is Some {
                None
            } else {
                Some(e)
            }
        },
    }
}

/// Find the first occurrence of a character, scanning forward.
pub fn find_first(v: &Vec<char>, from: usize, c: char) -> (r: Option<usize>)
    requires
        from <= v@.len(),
    ensures
        match r {
            Some(i) => from <= i < v@.len() && first_at(v@, from as int, c) == Some(i as int),
            None => first_at(v@, from as int, c) is None,
        },
{
    let n = v.len();
    for i in from..n
        invariant
            n == v@.len(),
            from <= i <= n,
            first_at(v@, from as int, c) == first_at(v@, i as int, c),
    {
        if v[i] == c {
            return Some(i);
        }
    }
    None
}

/// Find the last occurrence of a character.
pub fn find_last(v: &Vec<char>, c: char) -> (r: Option<usize>)
    ensures
        match r {
            Some(i) => i < v@.len() && last_of(v@, c) == Some(i as int),
            None => last_of(v@, c) is None,
        },
{
    let n = v.len();
    let mut i: usize = n;
    proof {
        assert(v@.take(n as int) =~= v@);
    }
    while i > 0
        invariant
            n == v@.len(),
            i <= n,
            last_of(v@, c) == last_of(v@.take(i as int), c),
        decreases i,
    {
        i = i - 1;
        proof {
            assert(v@.take(i + 1).last() == v@[i as int]);
            assert(v@.take(i + 1).drop_last() =~= v@.take(i as int));
        }
        if v[i] == c {
            return Some(i);
        }
    }
    proof {
        assert(v@.take(0) =~= Seq::<char>::empty());
    }
    None
}

/// Find where "://" first begins.
fn find_scheme_sep(v: &Vec<char>) -> (r: Option<usize>)
    ensures
        match r {
            Some(i) => i + 3 <= v@.len() && first_scheme_sep(v@, 0) == Some(i as int),
            None => first_scheme_sep(v@, 0) is None,
        },
{
    let n = v.len();
    if n < 3 {
        return None;
    }
    let last_start = n - 3;
    let mut i: usize = 0;
    while i <= last_start
        invariant
            n == v@.len(),
            n >= 3,
            last_start == n - 3,
            i <= last_start + 1,
            first_scheme_sep(v@, 0) == first_scheme_sep(v@, i as int),
        decreases last_start + 1 - i,
    {
        if v[i] == ':' && v[i + 1] == '/' && v[i + 2] == '/' {
            return Some(i);
        }
        i = i + 1;
    }
    None
}

/// The prefix of a character vector.
fn take_prefix(v: &Vec<char>, upto: usize) -> (r: Vec<char>)
    requires
        upto <= v@.len(),
    ensures
        r@ == v@.take(upto as int),
{
    let mut r: Vec<char> = Vec::new();
    for i in 0..upto
        invariant
            upto <= v@.len(),
            r@ == v@.take(upto as int).take(i as int),
    {
        r.push(v[i]);
        assert(r@ =~= v@.take(upto as int).take(i + 1));
    }
    proof {
        assert(v@.take(upto as int).take(upto as int) =~= v@.take(upto as int));
    }
    r
}

/// The suffix of a character vector.
fn skip_prefix(v: &Vec<char>, from: usize) -> (r: Vec<char>)
    requires
        from <= v@.len(),
    ensures
        r@ == v@.skip(from as int),
{
    let n = v.len();
    let mut r: Vec<char> = Vec::new();
    for i in from..n
        invariant
            from <= i <= n,
            n == v@.len(),
            r@ == v@.subrange(from as int, i as int),
    {
        r.push(v[i]);
        assert(r@ =~= v@.subrange(from as int, i + 1));
    }
    proof {
        assert(r@ =~= v@.skip(from as int));
    }
    r
}

/// Strip the query and fragment from URI text.
fn strip_query_exec(u: &Vec<char>) -> (r: Vec<char>)
    ensures
        r@ == strip_query(u@),
{
    let ns = match find_first(u, 0, '?') {
        Some(i) => take_prefix(u, i),
        None => {
            let r = take_prefix(u, u.len());
            proof {
                assert(u@.take(u@.len() as int) =~= u@);
            }
            r
        },
    };
    match find_first(&ns, 0, '#') {
        Some(i) => take_prefix(&ns, i),
        None => {
            proof {
                assert(ns@.take(ns@.len() as int) =~= ns@);
            }
            ns
        },
    }
}

/// The path of URI text.
fn uri_path_exec(u: &Vec<char>) -> (r: Vec<char>)
    ensures
        r@ == uri_path(u@),
{
    let nf = strip_query_exec(u);
    match find_scheme_sep(&nf) {
        None => nf,
        Some(i) => {
            let rest_start = i + 3;
            let ghost rest = nf@.skip(rest_start as int);
            match find_first(&nf, rest_start, '/') {
                None => {
                    proof {
                        lemma_first_at_shift(nf@, rest_start as int, 0, '/');
                        assert(first_at(rest, 0, '/') is None);
                    }
                    let mut path: Vec<char> = Vec::new();
                    path.push('/');
                    proof {
                        assert(path@ =~= seq!['/']);
                    }
                    path
                },
                Some(j) => {
                    let path = skip_prefix(&nf, j);
                    proof {
                        lemma_first_at_shift(nf@, rest_start as int, 0, '/');
                        assert(first_at(rest, 0, '/') == Some(j - rest_start));
                        assert(rest.skip(j - rest_start) =~= nf@.skip(j as int));
                    }
                    path
                },
            }
        },
    }
}

/// The URI path's extension, if it is a pure extension.
pub fn uri_path_extension(uri: &str) -> (r: Option<String>)
    ensures
        match r {
            Some(e) => path_extension(uri_path(uri@)) == Some(e@),
            None => path_extension(uri_path(uri@)) is None,
        },
{
    let u = chars_of(uri);
    let path = uri_path_exec(&u);
    let n = path.len();
    match find_last(&path, '.') {
        None => None,
        Some(d) => {
            proof {
                assert(d < n);
            }
            let ext = skip_prefix(&path, d + 1);
            match find_first(&ext, 0, '/') {
                Some(_) => None,
                None => Some(string_of(&ext)),
            }
        },
    }
}

/// `first_at` on a suffix is `first_at` shifted.
proof fn lemma_first_at_shift(s: Seq<char>, base: int, off: int, c: char)
    requires
        0 <= base <= s.len(),
        0 <= off,
    ensures
        first_at(s, base + off, c) == match first_at(s.skip(base), off, c) {
            Some(i) => Some(i + base),
            None => None,
        },
    decreases s.len() - base - off,
{
    let t = s.skip(base);
    if off >= t.len() {
    } else {
        assert(t[off] == s[base + off]);
        if t[off] == c {
        } else {
            lemma_first_at_shift(s, base, off + 1, c);
        }
    }
}

/// The extension of a plain path (no scheme or query stripping):
/// the text after the last dot, unless a slash follows it.
pub fn uri_path_extension_of_path(path: &str) -> (r: Option<String>)
    ensures
        match r {
            Some(e) => path_extension(path@) == Some(e@),
            None => path_extension(path@) is None,
        },
{
    let chars = chars_of(path);
    let n = chars.len();
    match find_last(&chars, '.') {
        None => None,
        Some(d) => {
            proof {
                assert(d < n);
            }
            let ext = skip_prefix(&chars, d + 1);
            match find_first(&ext, 0, '/') {
                Some(_) => None,
                None => Some(string_of(&ext)),
            }
        },
    }
}

/// First-tier detection: the media type of the URI path's extension.
pub fn detect_from_path(request: &HttpRequest) -> (r: Option<MediaType>)
    ensures
        match path_extension(uri_path(request.uri@)) {
            Some(e) => match r {
                Some(m) => guessed_mime(e) == Some(m.view_pair()),
                None => guessed_mime(e) is None,
            },
            None => r is None,
        },
{
    match uri_path_extension(request.uri.as_str()) {
        Some(e) => guess_mime_for_ext(e.as_str()),
        None => None,
    }
}

} // verus!

//! The extension host's boundary types: the operations surface a
//! loaded extension exposes, and the materialization of a guest's
//! outgoing HTTP request as a host-side request record.

use vstd::prelude::*;

use crate::request::HttpRequest;
use crate::types::{EpisodeRecord, FilterCategory, Page, SearchFilter, SeriesRecord, VideoRecord};

verus! {

/// The five guest operations, one fresh guest context per call.
/// Errors are the guest's own messages. The wasm host in front of
/// the library implements this; tests implement it directly.
pub trait Extension {
    /// Enumerate the filter categories the catalog offers.
    fn filters(&mut self) -> Result<Vec<FilterCategory>, String>;

    /// Search the catalog; `page` is 1-based, absent meaning 1.
    fn search(&mut self, query: &str, page: Option<u16>, filters: Vec<SearchFilter>) -> Result<
        Page<SeriesRecord>,
        String,
    >;

    /// Fetch one series.
    fn get_series_info(&mut self, series_id: &str) -> Result<SeriesRecord, String>;

    /// List a series' episodes; `page` is 1-based, absent meaning 1.
    fn get_series_episodes(&mut self, series_id: &str, page: Option<u16>) -> Result<
        Page<EpisodeRecord>,
        String,
    >;

    /// Resolve the playable videos of one episode.
    fn get_series_videos(&mut self, series_id: &str, episode_id: &str) -> Result<
        Vec<VideoRecord>,
        String,
    >;
}

/// The scheme of a guest's outgoing request.
pub enum OutScheme {
    Http,
    Https,
    Other(String),
}

/// The method of a guest's outgoing request: the standard verbs plus
/// an "other" string form.
pub enum OutMethod {
    Get,
    Head,
    Post,
    Put,
    Delete,
    Connect,
    Options,
    Trace,
    Patch,
    Other(String),
}

/// A guest's outgoing request as the linked outbound-HTTP capability
/// hands it to the host: parts of a URI, a method, headers, and the
/// body already collected to bytes.
pub struct OutgoingRequest {
    pub scheme: Option<OutScheme>,
    pub authority: Option<String>,
    pub path_with_query: Option<String>,
    pub method: OutMethod,
    pub headers: Vec<(String, String)>,
    pub body: Option<Vec<u8>>,
}

/// The scheme's text.
pub open spec fn scheme_text(s: OutScheme) -> Seq<char> {
    match s {
        OutScheme::Http => "http"@,
        OutScheme::Https => "https"@,
        OutScheme::Other(t) => t@,
    }
}

/// The method's text.
pub open spec fn method_text(m: OutMethod) -> Seq<char> {
    match m {
        OutMethod::Get => "GET"@,
        OutMethod::Head => "HEAD"@,
        OutMethod::Post => "POST"@,
        OutMethod::Put => "PUT"@,
        OutMethod::Delete => "DELETE"@,
        OutMethod::Connect => "CONNECT"@,
        OutMethod::Options => "OPTIONS"@,
        OutMethod::Trace => "TRACE"@,
        OutMethod::Patch => "PATCH"@,
        OutMethod::Other(t) => t@,
    }
}

/// The URI assembled from the present parts: `scheme "://"`, then
/// the authority, then the path with query.
pub open spec fn assembled_uri(r: OutgoingRequest) -> Seq<char> {
    (match r.scheme {
        Some(s) => scheme_text(s) + "://"@,
        None => Seq::<char>::empty(),
    }) + (match r.authority {
        Some(a) => a@,
        None => Seq::<char>::empty(),
    }) + (match r.path_with_query {
        Some(p) => p@,
        None => Seq::<char>::empty(),
    })
}

impl OutgoingRequest {
    /// Materialize the outgoing request as a host request record:
    /// the URI assembled from its parts, the method spelled out, and
    /// headers and body carried over. The host does not perform the
    /// request.
    pub fn into_http_request(self) -> (r: HttpRequest)
        ensures
            r.uri@ == assembled_uri(self),
            r.method@ == method_text(self.method),
            r.headers@ == self.headers@,
            r.body == self.body,
    {
        let mut uri = String::new();
        match &self.scheme {
            Some(s) => {
                match s {
                    OutScheme::Http => uri.append("http"),
                    OutScheme::Https => uri.append("https"),
                    OutScheme::Other(t) => uri.append(t.as_str()),
                }
                uri.append("://");
            },
            None => {},
        }
        match &self.authority {
            Some(a) => uri.append(a.as_str()),
            None => {},
        }
        match &self.path_with_query {
            Some(p) => uri.append(p.as_str()),
            None => {},
        }
        proof {
            assert(uri@ =~= assembled_uri(self));
        }
        let method = match &self.method {
            OutMethod::Get => String::from_str("GET"),
            OutMethod::Head => String::from_str("HEAD"),
            OutMethod::Post => String::from_str("POST"),
            OutMethod::Put => String::from_str("PUT"),
            OutMethod::Delete => String::from_str("DELETE"),
            OutMethod::Connect => String::from_str("CONNECT"),
            OutMethod::Options => String::from_str("OPTIONS"),
            OutMethod::Trace => String::from_str("TRACE"),
            OutMethod::Patch => String::from_str("PATCH"),
            OutMethod::Other(t) => {
                let mut m = String::new();
                m.append(t.as_str());
                m
            },
        };
        HttpRequest { method, uri, headers: self.headers, body: self.body }
    }
}

/// The package declarations of a component's metadata, as
/// (namespace, name, version-present) with the version's parts.
pub struct PackageDecl {
    pub namespace: String,
    pub name: String,
    pub version: Option<crate::version::SemVer>,
}

/// Whether a package declaration is the extension declaration:
/// namespace "nero", name "extension", with a version.
pub open spec fn is_extension_package(p: PackageDecl) -> bool {
    p.namespace@ == "nero"@ && p.name@ == "extension"@ && p.version is Some
}

/// The version of the first extension declaration in a package list.
pub open spec fn first_extension_decl(ps: Seq<PackageDecl>) -> Option<crate::version::SemVer>
    decreases ps.len(),
{
    if ps.len() == 0 {
        None
    } else if is_extension_package(ps.first()) {
        ps.first().version
    } else {
        first_extension_decl(ps.drop_first())
    }
}

/// The extension version among decoded package declarations: exactly
/// the version of the first `nero:extension` package carrying one.
pub fn find_extension_version(packages: Vec<PackageDecl>) -> (r: Option<crate::version::SemVer>)
    ensures
        r == first_extension_decl(packages@),
{
    let ghost orig = packages@;
    let mut rest = packages;
    let ghost processed: int = 0;
    proof {
        assert(orig.skip(0) =~= orig);
    }
    while rest.len() != 0
        invariant
            orig == packages@,
            0 <= processed <= orig.len(),
            rest@ == orig.skip(processed),
            first_extension_decl(orig) == first_extension_decl(orig.skip(processed)),
        decreases orig.len() - processed,
    {
        let p = rest.remove(0);
        proof {
            assert(orig.skip(processed).first() == orig[processed]);
            assert(orig.skip(processed).drop_first() =~= orig.skip(processed + 1));
            assert(p == orig[processed]);
        }
        let ok = crate::text::str_eq(p.namespace.as_str(), "nero") && crate::text::str_eq(
            p.name.as_str(),
            "extension",
        );
        if ok {
            match p.version {
                Some(v) => {
                    proof {
                        assert(is_extension_package(orig[processed]));
                        assert(first_extension_decl(orig) == orig[processed].version);
                    }
                    return Some(v);
                },
                None => {},
            }
        }
        proof {
            assert(!is_extension_package(orig[processed]));
            processed = processed + 1;
        }
    }
    proof {
        assert(orig.skip(processed).len() == 0);
    }
    None
}


/// A package declaration as decoded from a component binary, the
/// version still in raw parts: the numeric triple and the pre-release
/// text.
pub struct RawPackage {
    pub namespace: String,
    pub name: String,
    pub version: Option<(u64, u64, u64, String)>,
}

/// The raw package as character sequences and plain values.
pub open spec fn raw_package_view(p: RawPackage) -> (
    Seq<char>,
    Seq<char>,
    Option<(u64, u64, u64, Seq<char>)>,
) {
    (
        p.namespace@,
        p.name@,
        match p.version {
            Some(v) => Some((v.0, v.1, v.2, v.3@)),
            None => None,
        },
    )
}

/// What decoding a component binary's metadata yields: its package
/// declarations in order, a function of the bytes alone; nothing for
/// bytes that are no component.
pub uninterp spec fn decoded_packages(bytes: Seq<u8>) -> Option<
    Seq<(Seq<char>, Seq<char>, Option<(u64, u64, u64, Seq<char>)>)>,
>;

/// Relies on `wit_component::decode`: the package declarations in a
/// WebAssembly component's metadata, with their versions' parts.
#[verifier::external_body]
pub fn decode_component_packages(bytes: &Vec<u8>) -> (r: Result<Vec<RawPackage>, String>)
    ensures
        match r {
            Ok(ps) => decoded_packages(bytes@) == Some(
                ps@.map_values(|p: RawPackage| raw_package_view(p)),
            ),
            Err(_) => decoded_packages(bytes@) is None,
        },
{
    let decoded = wit_component::decode(bytes.as_slice()).map_err(|e| e.to_string())?;
    Ok(decoded.resolve().packages.iter().map(|(_, p)| RawPackage {
        namespace: p.name.namespace.clone(),
        name: p.name.name.clone(),
        version: p.name.version.as_ref().map(|v| (v.major, v.minor, v.patch, v.pre.as_str().to_string())),
    }).collect())
}

/// Whether a raw package is the extension declaration: namespace
/// "nero", name "extension", with a version.
pub open spec fn raw_is_extension(
    p: (Seq<char>, Seq<char>, Option<(u64, u64, u64, Seq<char>)>),
) -> bool {
    p.0 == "nero"@ && p.1 == "extension"@ && p.2 is Some
}

/// The first extension declaration's version parts, if any.
pub open spec fn first_extension_raw(
    ps: Seq<(Seq<char>, Seq<char>, Option<(u64, u64, u64, Seq<char>)>)>,
) -> Option<(u64, u64, u64, Seq<char>)>
    decreases ps.len(),
{
    if ps.len() == 0 {
        None
    } else if raw_is_extension(ps.first()) {
        ps.first().2
    } else {
        first_extension_raw(ps.drop_first())
    }
}

/// The pre-release identifiers of a pre-release text: the
/// dot-separated pieces, none for the empty text.
pub open spec fn pre_idents(pre: Seq<char>) -> Seq<Seq<char>> {
    if pre.len() == 0 {
        Seq::<Seq<char>>::empty()
    } else {
        crate::text::split_on(pre, '.')
    }
}

/// A version from its raw parts, the pre-release text split on dots.
pub fn semver_from_parts(major: u64, minor: u64, patch: u64, pre: &str) -> (r:
    crate::version::SemVer)
    ensures
        r.major == major,
        r.minor == minor,
        r.patch == patch,
        crate::version::pre_view(r.pre@) == pre_idents(pre@),
{
    let chars = crate::text::chars_of(pre);
    if chars.len() == 0 {
        let idents: Vec<String> = Vec::new();
        proof {
            assert(crate::version::pre_view(idents@) =~= pre_idents(pre@));
        }
        return crate::version::SemVer { major, minor, patch, pre: idents };
    }
    let pieces = crate::text::split_chars(&chars, '.');
    let n = pieces.len();
    let mut idents: Vec<String> = Vec::new();
    let ghost pv = pieces@.map_values(|p: Vec<char>| p@);
    for i in 0..n
        invariant
            n == pieces@.len(),
            pv == pieces@.map_values(|p: Vec<char>| p@),
            crate::version::pre_view(idents@) == pv.take(i as int),
    {
        let ghost before = crate::version::pre_view(idents@);
        idents.push(crate::text::string_of(&pieces[i]));
        proof {
            assert(crate::version::pre_view(idents@) =~= before.push(pv[i as int]));
            assert(pv.take(i + 1) =~= pv.take(i as int).push(pv[i as int]));
        }
    }
    proof {
        assert(pv.take(n as int) =~= pv);
    }
    crate::version::SemVer { major, minor, patch, pre: idents }
}

/// The extension version declared in a component binary: the version
/// of the first `nero:extension` package. The decode is the
/// component toolchain's; the scan and the version's shape are
/// exact.
pub fn extension_version_from_wasm(bytes: &Vec<u8>) -> (r: Result<crate::version::SemVer, String>)
    ensures
        match decoded_packages(bytes@) {
            None => r is Err,
            Some(ps) => match first_extension_raw(ps) {
                None => r is Err,
                Some(v) => (r matches Ok(sv) && sv.major == v.0 && sv.minor == v.1 && sv.patch
                    == v.2 && crate::version::pre_view(sv.pre@) == pre_idents(v.3)),
            },
        },
{
    let raws = match decode_component_packages(bytes) {
        Ok(ps) => ps,
        Err(e) => {
            return Err(e);
        },
    };
    let ghost rv = raws@.map_values(|p: RawPackage| raw_package_view(p));
    let mut rest = raws;
    let ghost processed: int = 0;
    proof {
        assert(rv.skip(0) =~= rv);
    }
    while rest.len() != 0
        invariant
            decoded_packages(bytes@) == Some(rv),
            0 <= processed <= rv.len(),
            rest@.map_values(|p: RawPackage| raw_package_view(p)) == rv.skip(processed),
            first_extension_raw(rv) == first_extension_raw(rv.skip(processed)),
        decreases rv.len() - processed,
    {
        let p = rest.remove(0);
        proof {
            assert(rv.skip(processed).first() == rv[processed]);
            assert(rv.skip(processed).drop_first() =~= rv.skip(processed + 1));
            assert(rest@.map_values(|p: RawPackage| raw_package_view(p)) =~= rv.skip(
                processed + 1,
            ));
            assert(raw_package_view(p) == rv[processed]);
        }
        let hit = crate::text::str_eq(p.namespace.as_str(), "nero") && crate::text::str_eq(
            p.name.as_str(),
            "extension",
        );
        if hit {
            match p.version {
                Some(v) => {
                    proof {
                        assert(raw_is_extension(rv[processed]));
                    }
                    return Ok(semver_from_parts(v.0, v.1, v.2, v.3.as_str()));
                },
                None => {},
            }
        }
        proof {
            processed = processed + 1;
        }
    }
    proof {
        assert(rv.skip(processed).len() == 0);
    }
    Err(String::from_str("wasm contains no extension package with a version"))
}

} // verus!

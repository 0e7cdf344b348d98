//! Torrent sources and the abstract torrent backend: listing a
//! torrent's files, adding and cancelling sessions, and the M3U
//! playlist and HTTP range arithmetic of the streaming routes.

use vstd::prelude::*;

use crate::fingerprint::{fingerprint_of, fold_chars, fold_step, get_request_hash, FOLD_SEED};
use crate::media_type::first_at;
use crate::request::HttpRequest;
use crate::text::{
    all_digits, chars_of, contains_seq, dec_of, dec_val, parse_u64, str_contains, u64_to_dec,
    usize_to_dec,
};

verus! {

/// A reference to a torrent: a `.torrent` file behind an HTTP
/// request, or a magnet URI.
pub enum TorrentSource {
    Http(Box<HttpRequest>),
    MagnetUri(String),
}

/// What the video cache stores under a fingerprint: a direct HTTP
/// request, or a torrent source with the file indices to play.
pub enum CachedRequest {
    Http(Box<HttpRequest>),
    Torrent { source: TorrentSource, file_indices: Vec<usize> },
}

/// The single playback session the proxy tracks.
pub enum CurrentVideo {
    Http(Box<HttpRequest>),
    Torrent { torrent_id: String },
}

/// One file of a torrent: its stable index in the listing, its
/// display name, and its relative path.
pub struct TorrentFile {
    pub index: usize,
    pub name: String,
    pub path: String,
}

/// A torrent the backend has added: its session id and the included
/// files.
pub struct Torrent {
    pub id: String,
    pub name: Option<String>,
    pub files: Vec<TorrentFile>,
}

/// Options for adding a torrent: restrict the download to these file
/// indices.
pub struct AddTorrentOptions {
    pub file_indices: Vec<usize>,
}

/// The torrent engine behind the proxy. Implementations must keep
/// file indices stable between `list_files` and `add_torrent` for
/// the same source. Streaming bodies are served outside the library;
/// the proxy computes the response head with `stream_response_head`.
pub trait TorrentBackend {
    /// List the torrent's files without starting a download.
    fn list_files(&mut self, source: &TorrentSource) -> Result<Vec<TorrentFile>, String>;

    /// Start (or restart) a torrent, optionally restricted to some
    /// file indices, and report the session and included files.
    fn add_torrent(&mut self, source: TorrentSource, options: Option<AddTorrentOptions>) -> Result<
        Torrent,
        String,
    >;

    /// Cancel a session by id.
    fn cancel_torrent(&mut self, torrent_id: &str) -> Result<(), String>;
}

/// The fingerprint of a torrent source: a domain unit (zero for
/// HTTP, one for magnet), then the inner request fingerprint or the
/// magnet text.
pub open spec fn source_fingerprint(s: TorrentSource) -> u64 {
    match s {
        TorrentSource::Http(req) => fold_u64(fold_step(FOLD_SEED, 0), fingerprint_of(*req)),
        TorrentSource::MagnetUri(m) => fold_chars(fold_step(FOLD_SEED, 1), m@),
    }
}

/// Fold a 64-bit value as its two halves.
pub open spec fn fold_u64(h: u64, x: u64) -> u64 {
    fold_step(fold_step(h, ((x as int) / 0x100000000) as u32), ((x as int) % 0x100000000) as u32)
}

/// Executable fold of a 64-bit value.
fn fold_u64_exec(h: u64, x: u64) -> (r: u64)
    ensures
        r == fold_u64(h, x),
{
    let hi = (x >> 32) as u32;
    let lo = (x & 0xffffffff) as u32;
    proof {
        assert(x >> 32 == (x as int) / 0x100000000) by (bit_vector);
        assert(x & 0xffffffff == (x as int) % 0x100000000) by (bit_vector);
    }
    crate::fingerprint::fold_step_exec(crate::fingerprint::fold_step_exec(h, hi), lo)
}

/// Fold a string's characters (shared with request fingerprints).
fn fold_magnet(h: u64, s: &str) -> (r: u64)
    ensures
        r == fold_chars(h, s@),
{
    let n = s.unicode_len();
    let mut acc = h;
    proof {
        assert(s@.skip(0) =~= s@);
    }
    for i in 0..n
        invariant
            n == s@.len(),
            fold_chars(h, s@) == fold_chars(acc, s@.skip(i as int)),
    {
        let c = s.get_char(i);
        proof {
            assert(s@.skip(i as int).first() == s@[i as int]);
            assert(s@.skip(i as int).drop_first() =~= s@.skip(i + 1));
        }
        acc = crate::fingerprint::fold_step_exec(acc, c as u32);
    }
    proof {
        assert(s@.skip(n as int) =~= Seq::<char>::empty());
    }
    acc
}

/// The fingerprint of a torrent source.
pub fn get_torrent_source_hash(source: &TorrentSource) -> (r: u64)
    ensures
        r == source_fingerprint(*source),
{
    match source {
        TorrentSource::Http(req) => {
            let inner = get_request_hash(req);
            fold_u64_exec(crate::fingerprint::fold_step_exec(FOLD_SEED, 0), inner)
        },
        TorrentSource::MagnetUri(m) => {
            fold_magnet(crate::fingerprint::fold_step_exec(FOLD_SEED, 1), m.as_str())
        },
    }
}

/// One playlist entry: an EXTINF line with the file name, then the
/// stream URL for the file's index.
pub open spec fn m3u_entry(addr: Seq<char>, id: Seq<char>, f: TorrentFile) -> Seq<char> {
    "#EXTINF:-1,"@ + f.name@ + "\n"@ + "http://"@ + addr + "/torrent/"@ + id + "/stream/"@
        + dec_of(f.index as nat) + "\n"@
}

/// The playlist entries of a file list, in order.
pub open spec fn m3u_entries(addr: Seq<char>, id: Seq<char>, files: Seq<TorrentFile>) -> Seq<char>
    decreases files.len(),
{
    if files.len() == 0 {
        Seq::<char>::empty()
    } else {
        m3u_entry(addr, id, files.first()) + m3u_entries(addr, id, files.drop_first())
    }
}

/// A whole playlist: the header line, then one entry per file.
pub open spec fn m3u_playlist(addr: Seq<char>, id: Seq<char>, files: Seq<TorrentFile>) -> Seq<
    char,
> {
    "#EXTM3U\n"@ + m3u_entries(addr, id, files)
}

/// Entries of a longer prefix extend entries of a shorter one.
proof fn lemma_m3u_entries_take(addr: Seq<char>, id: Seq<char>, files: Seq<TorrentFile>, i: int)
    requires
        0 <= i < files.len(),
    ensures
        m3u_entries(addr, id, files.take(i + 1)) == m3u_entries(addr, id, files.take(i))
            + m3u_entry(addr, id, files[i]),
    decreases i,
{
    if i == 0 {
        assert(files.take(1).first() == files[0]);
        assert(files.take(1).drop_first() =~= files.take(0));
        assert(m3u_entries(addr, id, files.take(0)) == Seq::<char>::empty());
        assert(m3u_entries(addr, id, files.take(1)) =~= m3u_entries(addr, id, files.take(0))
            + m3u_entry(addr, id, files[0]));
    } else {
        let t = files.drop_first();
        lemma_m3u_entries_take(addr, id, t, i - 1);
        assert(files.take(i + 1).first() == files[0]);
        assert(files.take(i + 1).drop_first() =~= t.take(i));
        assert(files.take(i).first() == files[0]);
        assert(files.take(i).drop_first() =~= t.take(i - 1));
        assert(t[i - 1] == files[i]);
        assert(m3u_entries(addr, id, files.take(i + 1)) =~= m3u_entries(addr, id, files.take(i))
            + m3u_entry(addr, id, files[i]));
    }
}

/// Build the M3U playlist for an added torrent.
pub fn build_m3u(addr: &str, id: &str, files: &Vec<TorrentFile>) -> (r: String)
    ensures
        r@ == m3u_playlist(addr@, id@, files@),
{
    let mut out = String::from_str("#EXTM3U\n");
    let n = files.len();
    proof {
        assert(m3u_entries(addr@, id@, files@.take(0)) == Seq::<char>::empty());
        assert(out@ =~= "#EXTM3U\n"@ + m3u_entries(addr@, id@, files@.take(0)));
    }
    for i in 0..n
        invariant
            n == files@.len(),
            out@ == "#EXTM3U\n"@ + m3u_entries(addr@, id@, files@.take(i as int)),
    {
        out.append("#EXTINF:-1,");
        out.append(files[i].name.as_str());
        out.append("\n");
        out.append("http://");
        out.append(addr);
        out.append("/torrent/");
        out.append(id);
        out.append("/stream/");
        let idx = usize_to_dec(files[i].index);
        out.append(idx.as_str());
        out.append("\n");
        proof {
            lemma_m3u_entries_take(addr@, id@, files@, i as int);
            assert(out@ =~= "#EXTM3U\n"@ + m3u_entries(addr@, id@, files@.take(i + 1)));
        }
    }
    proof {
        assert(files@.take(n as int) =~= files@);
    }
    out
}

/// A parsed `Range` value: the first byte, and one past the last
/// byte if an end was given.
pub open spec fn parsed_range(v: Seq<char>) -> Option<(u64, Option<u64>)> {
    if v.len() < 6 || v.take(6) != "bytes="@ {
        None
    } else {
        let rest = v.skip(6);
        match first_at(rest, 0, '-') {
            None => None,
            Some(i) => {
                let st = rest.take(i);
                let en = rest.skip(i + 1);
                if all_digits(st) && dec_val(st) <= u64::MAX {
                    Some(
                        (
                            dec_val(st) as u64,
                            if all_digits(en) && dec_val(en) < u64::MAX {
                                Some((dec_val(en) + 1) as u64)
                            } else {
                                None
                            },
                        ),
                    )
                } else {
                    None
                }
            },
        }
    }
}

/// Parse a `Range: bytes=start-[end]` value. The start is required;
/// a parseable end is returned exclusive.
pub fn parse_range(v: &str) -> (r: Option<(u64, Option<u64>)>)
    ensures
        r == parsed_range(v@),
{
    let chars = chars_of(v);
    let n = chars.len();
    if n < 6 {
        return None;
    }
    let ok = chars[0] == 'b' && chars[1] == 'y' && chars[2] == 't' && chars[3] == 'e' && chars[4]
        == 's' && chars[5] == '=';
    proof {
        reveal_strlit("bytes=");
        assert("bytes="@.len() == 6);
        if ok {
            assert(v@.take(6) =~= "bytes="@);
        } else {
            assert(v@.take(6) != "bytes="@) by {
                if v@.take(6) == "bytes="@ {
                    assert(v@[0] == "bytes="@[0]);
                    assert(v@[1] == "bytes="@[1]);
                    assert(v@[2] == "bytes="@[2]);
                    assert(v@[3] == "bytes="@[3]);
                    assert(v@[4] == "bytes="@[4]);
                    assert(v@[5] == "bytes="@[5]);
                }
            }
        }
    }
    if !ok {
        return None;
    }
    let rest = crate::text::string_of(&skip_chars(&chars, 6));
    let ghost restv = v@.skip(6);
    let rchars = chars_of(rest.as_str());
    match crate::media_type::find_first(&rchars, 0, '-') {
        None => None,
        Some(i) => {
            let st = crate::text::string_of(&sub_chars(&rchars, 0, i));
            let en = crate::text::string_of(&skip_chars(&rchars, i + 1));
            proof {
                assert(st@ =~= restv.take(i as int));
                assert(en@ =~= restv.skip(i + 1));
            }
            match parse_u64(st.as_str()) {
                None => {
                    proof {
                        assert(!(all_digits(restv.take(i as int)) && dec_val(
                            restv.take(i as int),
                        ) <= u64::MAX));
                    }
                    None
                },
                Some(start) => {
                    let end = match parse_u64(en.as_str()) {
                        Some(e) => {
                            if e < u64::MAX {
                                Some(e + 1)
                            } else {
                                None
                            }
                        },
                        None => None,
                    };
                    Some((start, end))
                },
            }
        },
    }
}

/// The suffix of a character vector.
fn skip_chars(v: &Vec<char>, from: usize) -> (r: Vec<char>)
    requires
        from <= v@.len(),
    ensures
        r@ == v@.skip(from as int),
{
    let n = v.len();
    let mut r: Vec<char> = Vec::new();
    for i in from..n
        invariant
            from <= i <= n,
            n == v@.len(),
            r@ == v@.subrange(from as int, i as int),
    {
        r.push(v[i]);
        assert(r@ =~= v@.subrange(from as int, i + 1));
    }
    proof {
        assert(r@ =~= v@.skip(from as int));
    }
    r
}

/// A middle piece of a character vector.
fn sub_chars(v: &Vec<char>, from: usize, to: usize) -> (r: Vec<char>)
    requires
        from <= to <= v@.len(),
    ensures
        r@ == v@.subrange(from as int, to as int),
{
    let mut r: Vec<char> = Vec::new();
    for i in from..to
        invariant
            from <= i <= to <= v@.len(),
            r@ == v@.subrange(from as int, i as int),
    {
        r.push(v[i]);
        assert(r@ =~= v@.subrange(from as int, i + 1));
    }
    r
}

/// The response head of a stream request: status, length, and the
/// `Content-Range` value for a partial response.
pub struct StreamHead {
    pub status: u16,
    pub content_length: u64,
    pub content_range: Option<String>,
}

/// Whether a parsed range is satisfiable for a file of this length.
pub open spec fn range_valid(total: u64, start: u64, end: Option<u64>) -> bool {
    match end {
        Some(e) => start < e && e <= total,
        None => start < total,
    }
}

/// The `Content-Range` text for a partial response.
pub open spec fn content_range_text(start: u64, end_excl: u64, total: u64) -> Seq<char> {
    "bytes "@ + dec_of(start as nat) + "-"@ + dec_of((end_excl - 1) as nat) + "/"@ + dec_of(
        total as nat,
    )
}

/// Compute the head of a stream response. Without a satisfiable
/// range the whole file is served with 200; with one, 206 with the
/// exact partial length and `Content-Range`. In particular, a range
/// `bytes=a-b` with `0 <= a <= b < total` yields 206, length
/// `b - a + 1`, and `Content-Range: bytes a-b/total`.
pub fn stream_response_head(total_len: u64, range_value: Option<&str>) -> (r: StreamHead)
    ensures
        ({
            let parsed = match range_value {
                Some(v) => parsed_range(v@),
                None => None,
            };
            match parsed {
                Some((start, end)) => {
                    if range_valid(total_len, start, end) {
                        let e = match end {
                            Some(e) => e,
                            None => total_len,
                        };
                        &&& r.status == 206
                        &&& r.content_length == e - start
                        &&& r.content_range matches Some(t) && t@ == content_range_text(
                            start,
                            e,
                            total_len,
                        )
                    } else {
                        &&& r.status == 200
                        &&& r.content_length == total_len
                        &&& r.content_range is None
                    }
                },
                None => {
                    &&& r.status == 200
                    &&& r.content_length == total_len
                    &&& r.content_range is None
                },
            }
        }),
{
    let parsed = match range_value {
        Some(v) => parse_range(v),
        None => None,
    };
    match parsed {
        Some((start, end)) => {
            let valid = match end {
                Some(e) => start < e && e <= total_len,
                None => start < total_len,
            };
            if valid {
                let e = match end {
                    Some(e) => e,
                    None => total_len,
                };
                let mut t = String::from_str("bytes ");
                t.append(u64_to_dec(start).as_str());
                t.append("-");
                t.append(u64_to_dec(e - 1).as_str());
                t.append("/");
                t.append(u64_to_dec(total_len).as_str());
                proof {
                    assert(t@ =~= content_range_text(start, e, total_len));
                }
                StreamHead { status: 206, content_length: e - start, content_range: Some(t) }
            } else {
                StreamHead { status: 200, content_length: total_len, content_range: None }
            }
        },
        None => StreamHead { status: 200, content_length: total_len, content_range: None },
    }
}

/// The files a raw engine listing yields, as (index, base name,
/// path) triples: one per name with a non-empty base name, indexed
/// by its position in the listing.
pub open spec fn files_of_names(names: Seq<Seq<char>>, from: int) -> Seq<
    (usize, Seq<char>, Seq<char>),
>
    decreases names.len(),
{
    if names.len() == 0 {
        Seq::<(usize, Seq<char>, Seq<char>)>::empty()
    } else {
        let rest = files_of_names(names.drop_first(), from + 1);
        if crate::resolver::base_name(names.first()).len() > 0 {
            seq![(from as usize, crate::resolver::base_name(names.first()), names.first())] + rest
        } else {
            rest
        }
    }
}

/// The (index, name, path) triples of a file list.
pub open spec fn files_view(files: Seq<TorrentFile>) -> Seq<(usize, Seq<char>, Seq<char>)> {
    files.map_values(|f: TorrentFile| (f.index, f.name@, f.path@))
}

/// Materialize a torrent's raw name listing as files: each name with
/// a non-empty base name becomes a file at its listing position. A
/// listing without any usable name is an error.
pub fn torrent_files_from_names(names: &Vec<String>) -> (r: Result<Vec<TorrentFile>, String>)
    ensures
        match r {
            Ok(files) => files_view(files@) == files_of_names(
                names@.map_values(|s: String| s@),
                0,
            ) && files@.len() > 0,
            Err(_) => files_of_names(names@.map_values(|s: String| s@), 0).len() == 0,
        },
{
    let n = names.len();
    let ghost nv = names@.map_values(|s: String| s@);
    let mut files: Vec<TorrentFile> = Vec::new();
    let mut i: usize = n;
    proof {
        assert(nv.skip(n as int) =~= Seq::<Seq<char>>::empty());
    }
    while i > 0
        invariant
            i <= n,
            n == nv.len(),
            nv == names@.map_values(|s: String| s@),
            files_view(files@) == files_of_names(nv.skip(i as int), i as int),
        decreases i,
    {
        i = i - 1;
        let base = crate::resolver::base_name_exec(names[i].as_str());
        proof {
            assert(nv.skip(i as int).first() == nv[i as int]);
            assert(nv.skip(i as int).drop_first() =~= nv.skip(i + 1));
        }
        let ghost before = files_view(files@);
        if base.unicode_len() > 0 {
            let path = names[i].clone();
            files.insert(0, TorrentFile { index: i, name: base, path });
            proof {
                assert(files_view(files@) =~= seq![
                    (i, crate::resolver::base_name(nv[i as int]), nv[i as int]),
                ] + before);
            }
        }
    }
    proof {
        assert(nv.skip(0) =~= nv);
    }
    if files.len() == 0 {
        Err(String::from_str("No valid files found in torrent"))
    } else {
        Ok(files)
    }
}

/// Whether a backend error reports a session that is merely not
/// ready yet — still initializing or fetching metadata — so the
/// stream request should be retried after a short pause.
pub fn should_retry_stream_error(msg: &str) -> (r: bool)
    ensures
        r == (contains_seq(msg@, "initializing"@) || contains_seq(msg@, "metadata"@)),
{
    str_contains(msg, "initializing") || str_contains(msg, "metadata")
}

} // verus!

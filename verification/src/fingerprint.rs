//! Canonical 64-bit fingerprints of HTTP request records.
//!
//! A fingerprint folds, in order: the URI, the method, the header
//! pairs sorted lexicographically by lowercase name (then by value),
//! and the body bytes if present. Sorting makes the fingerprint
//! independent of header insertion order.

use vstd::prelude::*;
use vstd::multiset::Multiset;
use vstd::relations::{sorted_by, total_ordering};
use vstd::seq_lib::lemma_sorted_unique;

use crate::request::HttpRequest;
use crate::text::{lex_leq, lemma_lex_antisym, lemma_lex_connected, lemma_lex_refl,
    lemma_lex_trans, lower, lower_str, str_eq, str_lex_leq};

verus! {

/// The fold's starting value.
pub const FOLD_SEED: u64 = 0xcbf29ce484222325;

/// The fold's multiplier, an odd constant that disperses every input
/// position over the whole word.
pub const FOLD_PRIME: u64 = 0x100000001b3;

/// A unit folded between fields, outside the range of any character
/// code point, so field boundaries cannot be confused with content.
pub const FIELD_MARK: u32 = 0xffffffff;

/// Wrapping 64-bit multiplication.
pub open spec fn mul64(a: u64, b: u64) -> u64 {
    ((a * b) % 0x10000000000000000) as u64
}

/// One step of the 64-bit fold: xor the unit in, then multiply.
pub open spec fn fold_step(h: u64, unit: u32) -> u64 {
    mul64(h ^ (unit as u64), FOLD_PRIME)
}

/// Fold a character sequence, front to back.
pub open spec fn fold_chars(h: u64, s: Seq<char>) -> u64
    decreases s.len(),
{
    if s.len() == 0 {
        h
    } else {
        fold_chars(fold_step(h, s.first() as u32), s.drop_first())
    }
}

/// Fold a byte sequence, front to back.
pub open spec fn fold_bytes(h: u64, s: Seq<u8>) -> u64
    decreases s.len(),
{
    if s.len() == 0 {
        h
    } else {
        fold_bytes(fold_step(h, s.first() as u32), s.drop_first())
    }
}

/// Order on lowered header pairs: by name, then by value.
pub open spec fn pair_leq(a: (Seq<char>, Seq<char>), b: (Seq<char>, Seq<char>)) -> bool {
    if a.0 != b.0 {
        lex_leq(a.0, b.0)
    } else {
        lex_leq(a.1, b.1)
    }
}

/// The pair order as a closure, shared by every use site.
pub open spec fn pair_order() -> spec_fn((Seq<char>, Seq<char>), (Seq<char>, Seq<char>)) -> bool {
    |a: (Seq<char>, Seq<char>), b: (Seq<char>, Seq<char>)| pair_leq(a, b)
}

/// The pair order is a total order.
pub proof fn lemma_pair_order_total()
    ensures
        total_ordering(pair_order()),
{
    let leq = pair_order();
    assert forall|a: (Seq<char>, Seq<char>)| #[trigger] leq(a, a) by {
        lemma_lex_refl(a.0);
        lemma_lex_refl(a.1);
    }
    assert forall|a: (Seq<char>, Seq<char>), b: (Seq<char>, Seq<char>)|
        #[trigger] leq(a, b) && #[trigger] leq(b, a) implies a == b by {
        if a.0 != b.0 {
            lemma_lex_antisym(a.0, b.0);
        } else {
            lemma_lex_antisym(a.1, b.1);
        }
    }
    assert forall|a: (Seq<char>, Seq<char>), b: (Seq<char>, Seq<char>), c: (Seq<char>, Seq<char>)|
        #[trigger] leq(a, b) && #[trigger] leq(b, c) implies leq(a, c) by {
        if a.0 == b.0 && b.0 == c.0 {
            lemma_lex_trans(a.1, b.1, c.1);
        } else if a.0 == b.0 {
            assert(lex_leq(b.0, c.0));
        } else if b.0 == c.0 {
            assert(lex_leq(a.0, b.0));
        } else {
            lemma_lex_trans(a.0, b.0, c.0);
            if a.0 == c.0 {
                lemma_lex_antisym(a.0, b.0);
            }
        }
    }
    assert forall|a: (Seq<char>, Seq<char>), b: (Seq<char>, Seq<char>)|
        #[trigger] leq(a, b) || #[trigger] leq(b, a) by {
        if a.0 == b.0 {
            lemma_lex_connected(a.1, b.1);
        } else {
            lemma_lex_connected(a.0, b.0);
        }
    }
}

/// The name-lowering map on header pairs, shared by every use site.
pub open spec fn lower_pair() -> spec_fn((Seq<char>, Seq<char>)) -> (Seq<char>, Seq<char>) {
    |h: (Seq<char>, Seq<char>)| (lower(h.0), h.1)
}

/// Header pairs with lowercased names, in canonical sorted order.
pub open spec fn canon_headers(headers: Seq<(Seq<char>, Seq<char>)>) -> Seq<(Seq<char>, Seq<char>)> {
    headers.map_values(lower_pair()).sort_by(pair_order())
}

/// Fold a run of header pairs, each field preceded by a mark.
pub open spec fn fold_pairs(h: u64, ps: Seq<(Seq<char>, Seq<char>)>) -> u64
    decreases ps.len(),
{
    if ps.len() == 0 {
        h
    } else {
        fold_pairs(
            fold_chars(fold_step(fold_chars(fold_step(h, FIELD_MARK), ps.first().0), FIELD_MARK), ps.first().1),
            ps.drop_first(),
        )
    }
}

/// The canonical fingerprint of a request's parts.
pub open spec fn request_fingerprint(
    method: Seq<char>,
    uri: Seq<char>,
    headers: Seq<(Seq<char>, Seq<char>)>,
    body: Option<Seq<u8>>,
) -> u64 {
    let h1 = fold_chars(FOLD_SEED, uri);
    let h2 = fold_chars(fold_step(h1, FIELD_MARK), method);
    let h3 = fold_pairs(h2, canon_headers(headers));
    match body {
        Some(b) => fold_bytes(fold_step(h3, FIELD_MARK), b),
        None => h3,
    }
}

/// The body bytes of a request, as a sequence.
pub open spec fn body_view(req: HttpRequest) -> Option<Seq<u8>> {
    match req.body {
        Some(b) => Some(b@),
        None => None,
    }
}

/// The canonical fingerprint of a request record.
pub open spec fn fingerprint_of(req: HttpRequest) -> u64 {
    request_fingerprint(req.method@, req.uri@, req.headers_view(), body_view(req))
}

/// Executable fold step.
pub fn fold_step_exec(h: u64, unit: u32) -> (r: u64)
    ensures
        r == fold_step(h, unit),
{
    (h ^ (unit as u64)).wrapping_mul(FOLD_PRIME)
}

/// Fold a string's characters.
fn fold_str(h: u64, s: &str) -> (r: u64)
    ensures
        r == fold_chars(h, s@),
{
    let n = s.unicode_len();
    let mut acc = h;
    proof {
        assert(s@.skip(0) =~= s@);
    }
    for i in 0..n
        invariant
            n == s@.len(),
            fold_chars(h, s@) == fold_chars(acc, s@.skip(i as int)),
    {
        let c = s.get_char(i);
        proof {
            assert(s@.skip(i as int).first() == s@[i as int]);
            assert(s@.skip(i as int).drop_first() =~= s@.skip(i + 1));
        }
        acc = fold_step_exec(acc, c as u32);
    }
    proof {
        assert(s@.skip(n as int) =~= Seq::<char>::empty());
    }
    acc
}

/// Fold a byte vector.
fn fold_bytes_exec(h: u64, b: &Vec<u8>) -> (r: u64)
    ensures
        r == fold_bytes(h, b@),
{
    let n = b.len();
    let mut acc = h;
    proof {
        assert(b@.skip(0) =~= b@);
    }
    for i in 0..n
        invariant
            n == b@.len(),
            fold_bytes(h, b@) == fold_bytes(acc, b@.skip(i as int)),
    {
        proof {
            assert(b@.skip(i as int).first() == b@[i as int]);
            assert(b@.skip(i as int).drop_first() =~= b@.skip(i + 1));
        }
        acc = fold_step_exec(acc, b[i] as u32);
    }
    proof {
        assert(b@.skip(n as int) =~= Seq::<u8>::empty());
    }
    acc
}

/// Executable pair order on lowered header pairs.
fn pair_leq_exec(a: &(String, String), b: &(String, String)) -> (r: bool)
    ensures
        r == pair_leq((a.0@, a.1@), (b.0@, b.1@)),
{
    if str_eq(a.0.as_str(), b.0.as_str()) {
        str_lex_leq(a.1.as_str(), b.1.as_str())
    } else {
        str_lex_leq(a.0.as_str(), b.0.as_str())
    }
}

/// The view of a pair vector.
pub open spec fn pairs_view(v: Seq<(String, String)>) -> Seq<(Seq<char>, Seq<char>)> {
    v.map_values(|h: (String, String)| (h.0@, h.1@))
}

/// Insertion sort of header pairs under the pair order.
fn sort_pairs(input: Vec<(String, String)>) -> (r: Vec<(String, String)>)
    ensures
        sorted_by(pairs_view(r@), pair_order()),
        pairs_view(r@).to_multiset() == pairs_view(input@).to_multiset(),
{
    broadcast use vstd::seq_lib::group_to_multiset_ensures;

    let ghost iv = pairs_view(input@);
    let mut out: Vec<(String, String)> = Vec::new();
    let n = input.len();
    let mut rest = input;
    proof {
        assert(pairs_view(out@).to_multiset() =~= Seq::<(Seq<char>, Seq<char>)>::empty().to_multiset());
        assert(iv.skip(0) =~= iv);
    }
    for i in 0..n
        invariant
            n == iv.len(),
            iv == pairs_view(rest@),
            rest@.len() == n,
            sorted_by(pairs_view(out@), pair_order()),
            pairs_view(out@).to_multiset() == iv.take(i as int).to_multiset(),
    {
        let x = rest[i].0.clone();
        let y = rest[i].1.clone();
        let item = (x, y);
        proof {
            assert((item.0@, item.1@) == iv[i as int]);
        }
        // find the first position whose element is not <= item
        let m = out.len();
        let mut j: usize = 0;
        while j < m && pair_leq_exec(&out[j], &item)
            invariant
                m == out@.len(),
                j <= m,
                forall|k: int|
                    0 <= k < j ==> pair_order()(pairs_view(out@)[k], (item.0@, item.1@)),
            decreases m - j,
        {
            j = j + 1;
        }
        proof {
            lemma_pair_order_total();
            let ov = pairs_view(out@);
            let x = (item.0@, item.1@);
            if j < m {
                assert(!pair_order()(ov[j as int], x));
                assert(pair_order()(x, ov[j as int]));
            }
            // inserting keeps sortedness
            let nv = ov.insert(j as int, x);
            assert forall|p: int, q: int| 0 <= p < q < nv.len() implies pair_order()(
                nv[p],
                nv[q],
            ) by {
                if p < j && q == j {
                } else if p == j && q > j {
                    if j < m {
                        assert(pair_order()(x, ov[j as int]));
                        assert(nv[q] == ov[q - 1]);
                        if q - 1 > j {
                            assert(pair_order()(ov[j as int], ov[q - 1]));
                        }
                    }
                } else if p < j && q > j {
                    assert(nv[p] == ov[p]);
                    assert(nv[q] == ov[q - 1]);
                    if j < m {
                        assert(pair_order()(ov[p], ov[j as int]));
                        assert(pair_order()(x, ov[j as int]));
                        if q - 1 == j {
                        } else {
                            assert(pair_order()(ov[j as int], ov[q - 1]));
                        }
                    } else {
                        assert(q - 1 < m);
                        assert(pair_order()(ov[p], ov[q - 1]));
                    }
                } else if p > j || q < j {
                    assert(pair_order()(nv[p], nv[q]));
                }
            }
            assert(sorted_by(nv, pair_order()));
            // inserting adds one element to the multiset
            vstd::seq_lib::to_multiset_insert(ov, j as int, x);
            assert(nv.to_multiset() == ov.to_multiset().insert(x));
            assert(iv.take(i + 1) =~= iv.take(i as int).push(iv[i as int]));
            vstd::seq_lib::to_multiset_build(iv.take(i as int), iv[i as int]);
            assert(iv.take(i + 1).to_multiset() == iv.take(i as int).to_multiset().insert(
                iv[i as int],
            ));
        }
        let ghost before = pairs_view(out@);
        out.insert(j, item);
        proof {
            assert(pairs_view(out@) =~= before.insert(j as int, (item.0@, item.1@)));
        }
    }
    proof {
        assert(iv.take(n as int) =~= iv);
    }
    out
}

/// Fold a vector of already-lowered header pairs.
fn fold_pairs_exec(h: u64, ps: &Vec<(String, String)>) -> (r: u64)
    ensures
        r == fold_pairs(h, pairs_view(ps@)),
{
    let n = ps.len();
    let mut acc = h;
    let ghost pv = pairs_view(ps@);
    proof {
        assert(pv.skip(0) =~= pv);
    }
    for i in 0..n
        invariant
            n == pv.len(),
            pv == pairs_view(ps@),
            fold_pairs(h, pv) == fold_pairs(acc, pv.skip(i as int)),
    {
        proof {
            assert(pv.skip(i as int).first() == pv[i as int]);
            assert(pv.skip(i as int).drop_first() =~= pv.skip(i + 1));
        }
        acc = fold_step_exec(acc, FIELD_MARK);
        acc = fold_str(acc, ps[i].0.as_str());
        acc = fold_step_exec(acc, FIELD_MARK);
        acc = fold_str(acc, ps[i].1.as_str());
    }
    proof {
        assert(pv.skip(n as int) =~= Seq::<(Seq<char>, Seq<char>)>::empty());
    }
    acc
}

/// Lower the names of all header pairs.
fn lower_names(headers: &Vec<(String, String)>) -> (r: Vec<(String, String)>)
    ensures
        pairs_view(r@) == pairs_view(headers@).map_values(lower_pair()),
{
    let n = headers.len();
    let mut r: Vec<(String, String)> = Vec::new();
    let ghost hv = pairs_view(headers@);
    let ghost goal = hv.map_values(lower_pair());
    for i in 0..n
        invariant
            n == hv.len(),
            hv == pairs_view(headers@),
            goal == hv.map_values(lower_pair()),
            pairs_view(r@) == goal.take(i as int),
    {
        let ghost before = pairs_view(r@);
        let name = lower_str(headers[i].0.as_str());
        let value = headers[i].1.clone();
        r.push((name, value));
        proof {
            assert(pairs_view(r@) =~= before.push((lower(hv[i as int].0), hv[i as int].1)));
            assert(goal.take(i + 1) =~= goal.take(i as int).push(goal[i as int]));
        }
    }
    proof {
        assert(goal.take(n as int) =~= goal);
    }
    r
}

/// The canonical fingerprint of a request, independent of header
/// insertion order.
pub fn get_request_hash(request: &HttpRequest) -> (r: u64)
    ensures
        r == fingerprint_of(*request),
{
    let h1 = fold_str(FOLD_SEED, request.uri.as_str());
    let h2 = fold_str(fold_step_exec(h1, FIELD_MARK), request.method.as_str());
    let lowered = lower_names(&request.headers);
    let sorted = sort_pairs(lowered);
    proof {
        lemma_pair_order_total();
        let mapped = request.headers_view().map_values(lower_pair());
        mapped.lemma_sort_by_ensures(pair_order());
        lemma_sorted_unique(pairs_view(sorted@), mapped.sort_by(pair_order()), pair_order());
        assert(pairs_view(sorted@) == canon_headers(request.headers_view()));
    }
    let h3 = fold_pairs_exec(h2, &sorted);
    match &request.body {
        Some(b) => fold_bytes_exec(fold_step_exec(h3, FIELD_MARK), b),
        None => h3,
    }
}

/// Mapping over two sequences with equal multisets yields sequences
/// with equal multisets.
proof fn lemma_map_multiset<A, B>(s1: Seq<A>, s2: Seq<A>, f: spec_fn(A) -> B)
    requires
        s1.to_multiset() == s2.to_multiset(),
    ensures
        s1.map_values(f).to_multiset() == s2.map_values(f).to_multiset(),
    decreases s1.len(),
{
    broadcast use vstd::seq_lib::group_to_multiset_ensures;
    broadcast use vstd::multiset::group_multiset_axioms;

    if s1.len() == 0 {
        assert(s1.to_multiset().len() == s1.len());
        assert(s2.to_multiset().len() == s2.len());
        assert(s2.len() == 0);
        assert(s1.map_values(f) =~= Seq::<B>::empty());
        assert(s2.map_values(f) =~= Seq::<B>::empty());
        assert(s1.map_values(f).to_multiset() =~= s2.map_values(f).to_multiset());
    } else {
        let x = s1.last();
        assert(s1.contains(x)) by {
            assert(s1[s1.len() - 1] == x);
        }
        assert(s1.to_multiset().count(x) > 0);
        assert(s2.to_multiset().count(x) > 0);
        assert(s2.contains(x));
        let i = choose|i: int| 0 <= i < s2.len() && s2[i] == x;
        assert(s1.drop_last() =~= s1.remove(s1.len() - 1));
        vstd::seq_lib::to_multiset_remove(s1, s1.len() - 1);
        vstd::seq_lib::to_multiset_remove(s2, i);
        assert(s1.drop_last().to_multiset() == s2.remove(i).to_multiset());
        lemma_map_multiset(s1.drop_last(), s2.remove(i), f);
        // the s1 side: map then push
        assert(s1.map_values(f) =~= s1.drop_last().map_values(f).push(f(x)));
        vstd::seq_lib::to_multiset_build(s1.drop_last().map_values(f), f(x));
        // the s2 side: map commutes with remove
        assert(s2.remove(i).map_values(f) =~= s2.map_values(f).remove(i));
        vstd::seq_lib::to_multiset_remove(s2.map_values(f), i);
        assert(s2.map_values(f)[i] == f(x));
        assert(s1.map_values(f).to_multiset() == s2.map_values(f).to_multiset().remove(
            f(x),
        ).insert(f(x)));
        assert(s2.map_values(f).contains(f(x))) by {
            assert(s2.map_values(f)[i] == f(x));
        }
        assert(s2.map_values(f).to_multiset().count(f(x)) > 0);
        assert(s1.map_values(f).to_multiset() =~= s2.map_values(f).to_multiset());
    }
}

/// Fingerprint canonicality: two requests that agree on method, URI
/// and body, and whose header lists are permutations of each other,
/// have the same fingerprint.
pub proof fn lemma_fingerprint_canonical(
    method: Seq<char>,
    uri: Seq<char>,
    h1: Seq<(Seq<char>, Seq<char>)>,
    h2: Seq<(Seq<char>, Seq<char>)>,
    body: Option<Seq<u8>>,
)
    requires
        h1.to_multiset() == h2.to_multiset(),
    ensures
        request_fingerprint(method, uri, h1, body) == request_fingerprint(method, uri, h2, body),
{
    lemma_map_multiset(h1, h2, lower_pair());
    lemma_pair_order_total();
    h1.map_values(lower_pair()).lemma_sort_by_ensures(pair_order());
    h2.map_values(lower_pair()).lemma_sort_by_ensures(pair_order());
    lemma_sorted_unique(
        h1.map_values(lower_pair()).sort_by(pair_order()),
        h2.map_values(lower_pair()).sort_by(pair_order()),
        pair_order(),
    );
    assert(canon_headers(h1) == canon_headers(h2));
}

/// The fingerprint is a function of the request's parts alone: two
/// records carrying the same request — a record and its copy — have
/// the same fingerprint.
pub proof fn lemma_fingerprint_of_view(a: HttpRequest, b: HttpRequest)
    requires
        crate::request::req_view(a) == crate::request::req_view(b),
    ensures
        fingerprint_of(a) == fingerprint_of(b),
{
    assert(a.method@ == b.method@);
    assert(a.uri@ == b.uri@);
    assert(a.headers_view() == b.headers_view());
    assert(body_view(a) == body_view(b));
}

} // verus!

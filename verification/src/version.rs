//! Semantic-version precedence and the contract-version gate.
//!
//! The host supports a table of contract bindings, each with the
//! minimum extension version it serves; a component is bound to the
//! highest binding whose minimum is at or below the component's own
//! version, and refused when none is.

use vstd::prelude::*;

use crate::text::{all_digits, lex_leq, str_eq, str_lex_leq};

verus! {

/// A semantic version: numeric triple plus pre-release identifiers
/// (the dot-separated pieces, in order). Build metadata does not
/// affect precedence and is not represented.
pub struct SemVer {
    pub major: u64,
    pub minor: u64,
    pub patch: u64,
    pub pre: Vec<String>,
}

/// The pre-release identifiers as character sequences.
pub open spec fn pre_view(pre: Seq<String>) -> Seq<Seq<char>> {
    pre.map_values(|s: String| s@)
}

/// Strict lexicographic order.
pub open spec fn lex_lt(a: Seq<char>, b: Seq<char>) -> bool {
    lex_leq(a, b) && a != b
}

/// Precedence of single pre-release identifiers. Identifiers of
/// digits compare numerically — by length, then lexically, which is
/// numeric order because valid identifiers carry no leading zeros —
/// and rank below alphanumeric identifiers, which compare lexically.
pub open spec fn ident_lt(a: Seq<char>, b: Seq<char>) -> bool {
    if all_digits(a) && all_digits(b) {
        a.len() < b.len() || (a.len() == b.len() && lex_lt(a, b))
    } else if all_digits(a) && !all_digits(b) {
        true
    } else if !all_digits(a) && all_digits(b) {
        false
    } else {
        lex_lt(a, b)
    }
}

/// Precedence of pre-release identifier lists: identifier by
/// identifier, a missing identifier ranking lowest.
pub open spec fn pre_lt(a: Seq<Seq<char>>, b: Seq<Seq<char>>) -> bool
    decreases a.len(),
{
    if b.len() == 0 {
        false
    } else if a.len() == 0 {
        true
    } else if a.first() == b.first() {
        pre_lt(a.drop_first(), b.drop_first())
    } else {
        ident_lt(a.first(), b.first())
    }
}

/// Version precedence: the numeric triple first; on a tie, a
/// pre-release ranks below the release, and two pre-releases compare
/// by their identifiers.
pub open spec fn ver_lt(a: SemVer, b: SemVer) -> bool {
    if a.major != b.major {
        a.major < b.major
    } else if a.minor != b.minor {
        a.minor < b.minor
    } else if a.patch != b.patch {
        a.patch < b.patch
    } else if pre_view(a.pre@).len() == 0 {
        false
    } else if pre_view(b.pre@).len() == 0 {
        true
    } else {
        pre_lt(pre_view(a.pre@), pre_view(b.pre@))
    }
}

/// Whether a string slice is a non-empty run of decimal digits.
fn all_digits_exec(s: &str) -> (r: bool)
    ensures
        r == all_digits(s@),
{
    let n = s.unicode_len();
    if n == 0 {
        return false;
    }
    for i in 0..n
        invariant
            n == s@.len(),
            forall|j: int| 0 <= j < i ==> crate::text::is_digit(#[trigger] s@[j]),
    {
        let c = s.get_char(i);
        if !('0' <= c && c <= '9') {
            return false;
        }
    }
    true
}

/// Executable identifier precedence.
fn ident_lt_exec(a: &str, b: &str) -> (r: bool)
    ensures
        r == ident_lt(a@, b@),
{
    let an = all_digits_exec(a);
    let bn = all_digits_exec(b);
    if an && bn {
        let la = a.unicode_len();
        let lb = b.unicode_len();
        if la != lb {
            la < lb
        } else {
            str_lex_leq(a, b) && !str_eq(a, b)
        }
    } else if an {
        true
    } else if bn {
        false
    } else {
        str_lex_leq(a, b) && !str_eq(a, b)
    }
}

/// Executable pre-release list precedence.
fn pre_lt_exec(a: &Vec<String>, b: &Vec<String>) -> (r: bool)
    ensures
        r == pre_lt(pre_view(a@), pre_view(b@)),
{
    let na = a.len();
    let nb = b.len();
    let ghost av = pre_view(a@);
    let ghost bv = pre_view(b@);
    let mut i: usize = 0;
    proof {
        assert(av.skip(0) =~= av);
        assert(bv.skip(0) =~= bv);
    }
    loop
        invariant
            na == av.len(),
            nb == bv.len(),
            av == pre_view(a@),
            bv == pre_view(b@),
            i <= na,
            i <= nb,
            pre_lt(av, bv) == pre_lt(av.skip(i as int), bv.skip(i as int)),
        decreases na - i,
    {
        if i == nb {
            return false;
        }
        if i == na {
            return true;
        }
        proof {
            assert(av.skip(i as int).first() == av[i as int]);
            assert(bv.skip(i as int).first() == bv[i as int]);
            assert(av.skip(i as int).drop_first() =~= av.skip(i + 1));
            assert(bv.skip(i as int).drop_first() =~= bv.skip(i + 1));
        }
        if !str_eq(a[i].as_str(), b[i].as_str()) {
            return ident_lt_exec(a[i].as_str(), b[i].as_str());
        }
        i = i + 1;
    }
}

/// Executable version precedence.
pub fn ver_lt_exec(a: &SemVer, b: &SemVer) -> (r: bool)
    ensures
        r == ver_lt(*a, *b),
{
    if a.major != b.major {
        a.major < b.major
    } else if a.minor != b.minor {
        a.minor < b.minor
    } else if a.patch != b.patch {
        a.patch < b.patch
    } else if a.pre.len() == 0 {
        false
    } else if b.pre.len() == 0 {
        true
    } else {
        pre_lt_exec(&a.pre, &b.pre)
    }
}

/// The bound contract surfaces, one per supported interface version,
/// newest first.
pub enum ContractVersion {
    V0_1_0Draft,
}

/// The lowest extension version the oldest binding serves:
/// 0.1.0-draft.
pub fn min_supported_version() -> (r: SemVer)
    ensures
        r.major == 0,
        r.minor == 1,
        r.patch == 0,
        pre_view(r.pre@) =~= seq!["draft"@],
{
    let mut pre: Vec<String> = Vec::new();
    pre.push(String::from_str("draft"));
    proof {
        assert(pre_view(pre@) =~= seq!["draft"@]);
    }
    SemVer { major: 0, minor: 1, patch: 0, pre }
}

/// Whether the host supports an extension of this version: it is not
/// below 0.1.0-draft.
pub open spec fn supports(v: SemVer) -> bool {
    ||| v.major > 0
    ||| v.major == 0 && v.minor > 1
    ||| v.major == 0 && v.minor == 1 && v.patch > 0
    ||| v.major == 0 && v.minor == 1 && v.patch == 0 && (pre_view(v.pre@).len() == 0 || !pre_lt(
        pre_view(v.pre@),
        seq!["draft"@],
    ))
}

/// Pick the binding for a component's version: the highest whose
/// minimum version is at or below it. A version below every minimum
/// is refused.
pub fn select_binding(v: &SemVer) -> (r: Option<ContractVersion>)
    ensures
        r is Some <==> supports(*v),
        r is Some ==> r->0 == ContractVersion::V0_1_0Draft,
{
    let min = min_supported_version();
    proof {
        assert(ver_lt(*v, min) == !supports(*v));
    }
    if ver_lt_exec(v, &min) {
        None
    } else {
        Some(ContractVersion::V0_1_0Draft)
    }
}

} // verus!

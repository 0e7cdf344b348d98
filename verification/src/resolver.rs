//! Episode selection inside a multi-file torrent.
//!
//! Files are parsed by the filename-metadata parser, non-episode
//! content (openings, endings, previews and the like) is dropped,
//! the rest is grouped by a title key, each group's title is
//! confirmed against the extension's own search, and the confirmed
//! group yields the file whose parsed episode number matches the
//! request.

use vstd::prelude::*;

use crate::extension::Extension;
use crate::media_type::{find_last, last_of};
use crate::text::{all_digits, dec_of, dec_val, lower, lower_str, parse_u32, str_eq};
use crate::torrent::TorrentFile;
use crate::types::SeriesRecord;

verus! {

/// Best-effort metadata parsed from one filename.
pub struct ParsedElement {
    pub title: Option<String>,
    pub year: Option<String>,
    pub season: Option<String>,
    pub episode: Option<String>,
    pub kind: Option<String>,
}

/// The parsed metadata as character sequences.
pub struct ParsedView {
    pub title: Option<Seq<char>>,
    pub year: Option<Seq<char>>,
    pub season: Option<Seq<char>>,
    pub episode: Option<Seq<char>>,
    pub kind: Option<Seq<char>>,
}

/// An optional string's view.
pub open spec fn opt_view(s: Option<String>) -> Option<Seq<char>> {
    match s {
        Some(t) => Some(t@),
        None => None,
    }
}

impl ParsedElement {
    /// The element's view.
    pub open spec fn pv(self) -> ParsedView {
        ParsedView {
            title: opt_view(self.title),
            year: opt_view(self.year),
            season: opt_view(self.season),
            episode: opt_view(self.episode),
            kind: opt_view(self.kind),
        }
    }

    /// A copy with the same view.
    pub fn duplicate(&self) -> (r: ParsedElement)
        ensures
            r.pv() == self.pv(),
    {
        ParsedElement {
            title: clone_opt(&self.title),
            year: clone_opt(&self.year),
            season: clone_opt(&self.season),
            episode: clone_opt(&self.episode),
            kind: clone_opt(&self.kind),
        }
    }
}

/// Copy an optional string.
fn clone_opt(s: &Option<String>) -> (r: Option<String>)
    ensures
        opt_view(r) == opt_view(*s),
{
    match s {
        Some(t) => Some(t.clone()),
        None => None,
    }
}

/// What the filename-metadata parser extracts from a filename: a
/// function of the filename alone.
pub uninterp spec fn parsed_filename(name: Seq<char>) -> ParsedView;

/// Whether text is free of the NUL character, which C-string
/// boundaries cannot carry.
pub open spec fn nul_free(s: Seq<char>) -> bool {
    forall|i: int| 0 <= i < s.len() ==> s[i] != '\0'
}

/// Relies on the anitomy parser: the title, year, season, episode
/// number and content kind it extracts from a filename. The parser
/// crosses a C-string boundary, which refuses interior NUL, so such
/// names are excluded.
#[verifier::external_body]
pub fn parse_filename(name: &str) -> (r: ParsedElement)
    requires
        nul_free(name@),
    ensures
        r.pv() == parsed_filename(name@),
{
    let mut parser = anitomy::Anitomy::new();
    let elements = match parser.parse(name) {
        Ok(e) => e,
        Err(e) => e,
    };
    ParsedElement {
        title: elements.get(anitomy::ElementCategory::AnimeTitle).map(|s| s.to_string()),
        year: elements.get(anitomy::ElementCategory::AnimeYear).map(|s| s.to_string()),
        season: elements.get(anitomy::ElementCategory::AnimeSeason).map(|s| s.to_string()),
        episode: elements.get(anitomy::ElementCategory::EpisodeNumber).map(|s| s.to_string()),
        kind: elements.get(anitomy::ElementCategory::AnimeType).map(|s| s.to_string()),
    }
}

/// The base name of a path: the text after the last slash.
pub open spec fn base_name(p: Seq<char>) -> Seq<char> {
    match last_of(p, '/') {
        None => p,
        Some(i) => p.skip(i + 1),
    }
}

/// The base name, executable.
pub fn base_name_exec(p: &str) -> (r: String)
    ensures
        r@ == base_name(p@),
{
    let chars = crate::text::chars_of(p);
    match find_last(&chars, '/') {
        None => {
            let r = crate::text::string_of(&chars);
            r
        },
        Some(i) => {
            let n = chars.len();
            let mut rest: Vec<char> = Vec::new();
            let start = i + 1;
            for t in start..n
                invariant
                    start <= t <= n,
                    n == chars@.len(),
                    rest@ == chars@.subrange(start as int, t as int),
            {
                rest.push(chars[t]);
                assert(rest@ =~= chars@.subrange(start as int, t + 1));
            }
            proof {
                assert(rest@ =~= chars@.skip(start as int));
            }
            crate::text::string_of(&rest)
        },
    }
}

/// The content kinds that mark non-episode material, judged on the
/// lowercased kind.
pub open spec fn is_non_episode_kind(k: Seq<char>) -> bool {
    let l = lower(k);
    ||| l == "op"@
    ||| l == "opening"@
    ||| l == "ncop"@
    ||| l == "ed"@
    ||| l == "ending"@
    ||| l == "nced"@
    ||| l == "pv"@
    ||| l == "preview"@
    ||| l == "trailer"@
    ||| l == "cm"@
}

/// Whether a kind marks non-episode material.
fn is_non_episode_kind_exec(k: &str) -> (r: bool)
    ensures
        r == is_non_episode_kind(k@),
{
    let l = lower_str(k);
    let ls = l.as_str();
    str_eq(ls, "op") || str_eq(ls, "opening") || str_eq(ls, "ncop") || str_eq(ls, "ed") || str_eq(
        ls,
        "ending",
    ) || str_eq(ls, "nced") || str_eq(ls, "pv") || str_eq(ls, "preview") || str_eq(ls, "trailer")
        || str_eq(ls, "cm")
}

/// The parse of every file with a non-empty base name, with its
/// index.
pub open spec fn parse_all_spec(files: Seq<TorrentFile>) -> Seq<(usize, ParsedView)>
    decreases files.len(),
{
    if files.len() == 0 {
        Seq::<(usize, ParsedView)>::empty()
    } else {
        let f = files.first();
        let rest = parse_all_spec(files.drop_first());
        if base_name(f.path@).len() > 0 {
            seq![(f.index, parsed_filename(base_name(f.path@)))] + rest
        } else {
            rest
        }
    }
}

/// Every file path is free of NUL, so its base name can cross the
/// parser's C-string boundary.
pub open spec fn paths_nul_free(files: Seq<TorrentFile>) -> bool {
    forall|i: int| 0 <= i < files.len() ==> nul_free((#[trigger] files[i]).path@)
}

/// A suffix of NUL-free text is NUL-free, so in particular a base
/// name is.
proof fn lemma_base_name_nul_free(p: Seq<char>)
    requires
        nul_free(p),
    ensures
        nul_free(base_name(p)),
{
    match last_of(p, '/') {
        None => {},
        Some(i) => {
            lemma_last_of_in_range(p, '/');
            assert forall|j: int| 0 <= j < base_name(p).len() implies base_name(p)[j] != '\0' by {
                assert(base_name(p)[j] == p[i + 1 + j]);
            }
        },
    }
}

/// A found character's index is in range.
proof fn lemma_last_of_in_range(p: Seq<char>, c: char)
    ensures
        last_of(p, c) matches Some(i) ==> 0 <= i < p.len(),
    decreases p.len(),
{
    if p.len() > 0 && p.last() != c {
        lemma_last_of_in_range(p.drop_last(), c);
    }
}

/// Parse every file's base name.
pub fn parse_all(files: &Vec<TorrentFile>) -> (r: Vec<(usize, ParsedElement)>)
    requires
        paths_nul_free(files@),
    ensures
        r@.map_values(|e: (usize, ParsedElement)| (e.0, e.1.pv())) == parse_all_spec(files@),
{
    let n = files.len();
    let mut r: Vec<(usize, ParsedElement)> = Vec::new();
    let mut i: usize = n;
    let ghost fv = files@;
    proof {
        assert(fv.skip(n as int) =~= Seq::<TorrentFile>::empty());
    }
    // build from the back so the spec's head recursion lines up
    while i > 0
        invariant
            i <= n,
            n == fv.len(),
            fv == files@,
            paths_nul_free(fv),
            r@.map_values(|e: (usize, ParsedElement)| (e.0, e.1.pv())) == parse_all_spec(
                fv.skip(i as int),
            ),
        decreases i,
    {
        i = i - 1;
        let base = base_name_exec(files[i].path.as_str());
        proof {
            assert(fv.skip(i as int).first() == fv[i as int]);
            assert(fv.skip(i as int).drop_first() =~= fv.skip(i + 1));
            lemma_base_name_nul_free(fv[i as int].path@);
        }
        let ghost before = r@.map_values(|e: (usize, ParsedElement)| (e.0, e.1.pv()));
        if base.unicode_len() > 0 {
            let parsed = parse_filename(base.as_str());
            r.insert(0, (files[i].index, parsed));
            proof {
                assert(r@.map_values(|e: (usize, ParsedElement)| (e.0, e.1.pv())) =~= seq![
                    (fv[i as int].index, parsed_filename(base_name(fv[i as int].path@))),
                ] + before);
            }
        }
    }
    proof {
        assert(fv.skip(0) =~= fv);
    }
    r
}

/// Whether a parse names an episode: it has a title and an episode
/// number and its kind, if any, is not non-episode material.
pub open spec fn names_episode(p: ParsedView) -> bool {
    &&& p.title is Some
    &&& p.episode is Some
    &&& match p.kind {
        Some(k) => !is_non_episode_kind(k),
        None => true,
    }
}

/// The episode-naming predicate on indexed parses, shared by every
/// use site.
pub open spec fn episode_entry() -> spec_fn((usize, ParsedView)) -> bool {
    |e: (usize, ParsedView)| names_episode(e.1)
}

/// The indexed parses that name episodes.
pub open spec fn parse_episodes_spec(files: Seq<TorrentFile>) -> Seq<(usize, ParsedView)> {
    parse_all_spec(files).filter(episode_entry())
}

/// Parse the files and keep only those naming episodes.
pub fn parse_episodes(files: &Vec<TorrentFile>) -> (r: Vec<(usize, ParsedElement)>)
    requires
        paths_nul_free(files@),
    ensures
        r@.map_values(|e: (usize, ParsedElement)| (e.0, e.1.pv())) == parse_episodes_spec(files@),
{
    let all = parse_all(files);
    let ghost av = all@.map_values(|e: (usize, ParsedElement)| (e.0, e.1.pv()));
    let mut r: Vec<(usize, ParsedElement)> = Vec::new();
    let n = all.len();
    proof {
        assert(av.take(0) =~= Seq::<(usize, ParsedView)>::empty());
        reveal(Seq::filter);
        assert(r@.map_values(|e: (usize, ParsedElement)| (e.0, e.1.pv())) =~= av.take(0).filter(
            episode_entry(),
        ));
    }
    for i in 0..n
        invariant
            n == all@.len(),
            av == all@.map_values(|e: (usize, ParsedElement)| (e.0, e.1.pv())),
            r@.map_values(|e: (usize, ParsedElement)| (e.0, e.1.pv())) == av.take(i as int).filter(
                episode_entry(),
            ),
    {
        let keep = match &all[i].1.title {
            Some(_) => match &all[i].1.episode {
                Some(_) => match &all[i].1.kind {
                    Some(k) => !is_non_episode_kind_exec(k.as_str()),
                    None => true,
                },
                None => false,
            },
            None => false,
        };
        proof {
            assert(av[i as int] == (all@[i as int].0, all@[i as int].1.pv()));
            assert(keep == names_episode(av[i as int].1));
            assert(av.take(i + 1).drop_last() =~= av.take(i as int));
            assert(av.take(i + 1).last() == av[i as int]);
            reveal(Seq::filter);
        }
        let ghost before = r@.map_values(|e: (usize, ParsedElement)| (e.0, e.1.pv()));
        if keep {
            let dup = (all[i].0, all[i].1.duplicate());
            r.push(dup);
            proof {
                assert(r@.map_values(|e: (usize, ParsedElement)| (e.0, e.1.pv())) =~= before.push(
                    av[i as int],
                ));
            }
        }
    }
    proof {
        assert(av.take(n as int) =~= av);
    }
    r
}

/// The title key a parse groups under: the title, the year if
/// present, and "S" plus the season if present.
pub open spec fn title_key_spec(p: ParsedView) -> Seq<char> {
    (match p.title {
        Some(t) => t,
        None => Seq::<char>::empty(),
    }) + (match p.year {
        Some(y) => y,
        None => Seq::<char>::empty(),
    }) + (match p.season {
        Some(s) => "S"@ + s,
        None => Seq::<char>::empty(),
    })
}

/// The title key, executable.
pub fn title_key(p: &ParsedElement) -> (r: String)
    ensures
        r@ == title_key_spec(p.pv()),
{
    let mut key = String::new();
    match &p.title {
        Some(t) => key.append(t.as_str()),
        None => {},
    }
    match &p.year {
        Some(y) => key.append(y.as_str()),
        None => {},
    }
    match &p.season {
        Some(s) => {
            key.append("S");
            key.append(s.as_str());
        },
        None => {},
    }
    proof {
        assert(key@ =~= title_key_spec(p.pv()));
    }
    key
}

/// The view of an indexed parse list.
pub open spec fn entries_view(v: Seq<(usize, ParsedElement)>) -> Seq<(usize, ParsedView)> {
    v.map_values(|e: (usize, ParsedElement)| (e.0, e.1.pv()))
}

/// Whether an indexed parse occurs somewhere in a grouping.
pub open spec fn in_groups(
    groups: Seq<Vec<(usize, ParsedElement)>>,
    e: (usize, ParsedView),
) -> bool {
    exists|g: int, x: int|
        0 <= g < groups.len() && 0 <= x < groups[g]@.len() && e == ((#[trigger] groups[g]@[x]).0, groups[g]@[x].1.pv())
}

/// A concrete position witnesses membership in a grouping.
proof fn lemma_in_groups_witness(
    groups: Seq<Vec<(usize, ParsedElement)>>,
    e: (usize, ParsedView),
    g: int,
    x: int,
)
    requires
        0 <= g < groups.len(),
        0 <= x < groups[g]@.len(),
        e == (groups[g]@[x].0, groups[g]@[x].1.pv()),
    ensures
        in_groups(groups, e),
{
    assert(0 <= g < groups.len() && 0 <= x < groups[g]@.len() && e == ((groups[g]@[x]).0, groups[g]@[x].1.pv()));
}

/// Extending one group preserves membership.
proof fn lemma_in_groups_after_group_push(
    before: Seq<Vec<(usize, ParsedElement)>>,
    after: Seq<Vec<(usize, ParsedElement)>>,
    slot: int,
    e: (usize, ParsedView),
)
    requires
        0 <= slot < before.len(),
        after.len() == before.len(),
        forall|g: int| 0 <= g < before.len() && g != slot ==> after[g] == #[trigger] before[g],
        after[slot]@.len() >= before[slot]@.len(),
        forall|x: int| 0 <= x < before[slot]@.len() ==> after[slot]@[x] == #[trigger] before[slot]@[x],
        in_groups(before, e),
    ensures
        in_groups(after, e),
{
    let (g, x): (int, int) = choose|g: int, x: int|
        0 <= g < before.len() && 0 <= x < before[g]@.len() && e == ((#[trigger] before[g]@[x]).0, before[g]@[x].1.pv());
    lemma_in_groups_witness(after, e, g, x);
}

/// Appending a fresh group preserves membership.
proof fn lemma_in_groups_after_new_group(
    before: Seq<Vec<(usize, ParsedElement)>>,
    after: Seq<Vec<(usize, ParsedElement)>>,
    e: (usize, ParsedView),
)
    requires
        after.len() == before.len() + 1,
        forall|g: int| 0 <= g < before.len() ==> after[g] == #[trigger] before[g],
        in_groups(before, e),
    ensures
        in_groups(after, e),
{
    let (g, x): (int, int) = choose|g: int, x: int|
        0 <= g < before.len() && 0 <= x < before[g]@.len() && e == ((#[trigger] before[g]@[x]).0, before[g]@[x].1.pv());
    lemma_in_groups_witness(after, e, g, x);
}

/// Group indexed parses by their title key, in first-appearance
/// order. Every group is non-empty, coherent under the key, and made
/// of input entries; distinct groups have distinct keys; and every
/// input entry lands in some group.
pub fn group_by_title_key(entries: &Vec<(usize, ParsedElement)>) -> (r: Vec<
    Vec<(usize, ParsedElement)>,
>)
    ensures
        forall|g: int| 0 <= g < r@.len() ==> (#[trigger] r@[g])@.len() > 0,
        forall|g: int, x: int|
            0 <= g < r@.len() && 0 <= x < r@[g]@.len() ==> entries_view(entries@).contains(
                ((#[trigger] r@[g]@[x]).0, r@[g]@[x].1.pv()),
            ),
        forall|g: int, x: int|
            0 <= g < r@.len() && 0 <= x < r@[g]@.len() ==> title_key_spec(
                (#[trigger] r@[g]@[x]).1.pv(),
            ) == title_key_spec(r@[g]@[0].1.pv()),
        forall|g1: int, g2: int|
            0 <= g1 < g2 < r@.len() ==> title_key_spec((#[trigger] r@[g1])@[0].1.pv())
                != title_key_spec((#[trigger] r@[g2])@[0].1.pv()),
        forall|ii: int|
            0 <= ii < entries@.len() ==> in_groups(r@, #[trigger] entries_view(entries@)[ii]),
{
    let n = entries.len();
    let mut r: Vec<Vec<(usize, ParsedElement)>> = Vec::new();
    let ghost ev = entries_view(entries@);
    for i in 0..n
        invariant
            n == entries@.len(),
            ev == entries_view(entries@),
            forall|g: int| 0 <= g < r@.len() ==> (#[trigger] r@[g])@.len() > 0,
            forall|g: int, x: int|
                0 <= g < r@.len() && 0 <= x < r@[g]@.len() ==> ev.contains(
                    ((#[trigger] r@[g]@[x]).0, r@[g]@[x].1.pv()),
                ),
            forall|g: int, x: int|
                0 <= g < r@.len() && 0 <= x < r@[g]@.len() ==> title_key_spec(
                    (#[trigger] r@[g]@[x]).1.pv(),
                ) == title_key_spec(r@[g]@[0].1.pv()),
            forall|g1: int, g2: int|
                0 <= g1 < g2 < r@.len() ==> title_key_spec((#[trigger] r@[g1])@[0].1.pv())
                    != title_key_spec((#[trigger] r@[g2])@[0].1.pv()),
            forall|ii: int|
                0 <= ii < i ==> in_groups(r@, #[trigger] entries_view(entries@)[ii]),
    {
        let key = title_key(&entries[i].1);
        let item = (entries[i].0, entries[i].1.duplicate());
        proof {
            assert(ev[i as int] == (entries@[i as int].0, entries@[i as int].1.pv()));
            assert(ev.contains(ev[i as int]));
            assert((item.0, item.1.pv()) == ev[i as int]);
        }
        let m = r.len();
        let mut placed: bool = false;
        let mut gi: usize = 0;
        while gi < m && !placed
            invariant
                m == r@.len(),
                gi <= m,
                forall|g: int| 0 <= g < m ==> (#[trigger] r@[g])@.len() > 0,
                !placed ==> forall|g: int|
                    0 <= g < gi ==> title_key_spec((#[trigger] r@[g])@[0].1.pv()) != key@,
                placed ==> gi >= 1 && gi <= m && title_key_spec((r@[gi - 1])@[0].1.pv()) == key@,
            decreases m - gi,
        {
            let gkey = title_key(&r[gi][0].1);
            if str_eq(gkey.as_str(), key.as_str()) {
                placed = true;
            }
            gi = gi + 1;
        }
        let ghost rbefore = r@;
        if placed {
            let slot = gi - 1;
            let ghost gbefore = r@[slot as int]@;
            let inner = &mut r[slot];
            inner.push(item);
            proof {
                assert(r@[slot as int]@ =~= gbefore.push(item));
                assert forall|ii: int| 0 <= ii < i + 1 implies in_groups(
                    r@,
                    #[trigger] entries_view(entries@)[ii],
                ) by {
                    if ii == i {
                        assert(r@[slot as int]@[gbefore.len() as int] == item);
                        lemma_in_groups_witness(
                            r@,
                            entries_view(entries@)[ii],
                            slot as int,
                            gbefore.len() as int,
                        );
                    } else {
                        lemma_in_groups_after_group_push(
                            rbefore,
                            r@,
                            slot as int,
                            entries_view(entries@)[ii],
                        );
                    }
                }
            }
        } else {
            let mut group: Vec<(usize, ParsedElement)> = Vec::new();
            group.push(item);
            r.push(group);
            proof {
                assert forall|ii: int| 0 <= ii < i + 1 implies in_groups(
                    r@,
                    #[trigger] entries_view(entries@)[ii],
                ) by {
                    if ii == i {
                        assert(r@[rbefore.len() as int]@[0] == item);
                        lemma_in_groups_witness(
                            r@,
                            entries_view(entries@)[ii],
                            rbefore.len() as int,
                            0,
                        );
                    } else {
                        lemma_in_groups_after_new_group(rbefore, r@, entries_view(entries@)[ii]);
                    }
                }
            }
        }
    }
    r
}

/// Whether a parse's episode number equals the requested one.
pub open spec fn episode_matches(p: ParsedView, n: u32) -> bool {
    match p.episode {
        Some(e) => all_digits(e) && dec_val(e) == n,
        None => false,
    }
}

/// The index of the first group entry whose parsed episode number is
/// the requested one.
pub open spec fn first_episode_match(g: Seq<(usize, ParsedView)>, n: u32) -> Option<usize>
    decreases g.len(),
{
    if g.len() == 0 {
        None
    } else if episode_matches(g.first().1, n) {
        Some(g.first().0)
    } else {
        first_episode_match(g.drop_first(), n)
    }
}

/// Pick the file index of the requested episode inside one group.
pub fn episode_in_group(group: &Vec<(usize, ParsedElement)>, episode_number: u32) -> (r: Option<
    usize,
>)
    ensures
        r == first_episode_match(entries_view(group@), episode_number),
{
    let n = group.len();
    let ghost gv = entries_view(group@);
    proof {
        assert(gv.skip(0) =~= gv);
    }
    for i in 0..n
        invariant
            n == gv.len(),
            gv == entries_view(group@),
            first_episode_match(gv, episode_number) == first_episode_match(
                gv.skip(i as int),
                episode_number,
            ),
    {
        proof {
            assert(gv.skip(i as int).first() == gv[i as int]);
            assert(gv.skip(i as int).drop_first() =~= gv.skip(i + 1));
        }
        let matched = match &group[i].1.episode {
            Some(e) => match parse_u32(e.as_str()) {
                Some(v) => v == episode_number,
                None => false,
            },
            None => false,
        };
        proof {
            assert(gv[i as int] == (group@[i as int].0, group@[i as int].1.pv()));
            assert(matched == episode_matches(gv[i as int].1, episode_number));
        }
        if matched {
            return Some(group[i].0);
        }
    }
    proof {
        assert(gv.skip(n as int) =~= Seq::<(usize, ParsedView)>::empty());
    }
    None
}

/// The ordinal suffix of a season number.
pub open spec fn ordinal_suffix(n: nat) -> Seq<char> {
    if n == 1 {
        "st"@
    } else if n == 2 {
        "nd"@
    } else if n == 3 {
        "rd"@
    } else {
        "th"@
    }
}

/// The alternative titles tried when confirming a group: the parsed
/// title itself; and, when the season parses as a number, the title
/// with the season appended, with the ordinal season appended, and
/// with "Season" and the number appended.
pub open spec fn alternative_titles(p: ParsedView) -> Seq<Seq<char>> {
    match p.title {
        None => Seq::<Seq<char>>::empty(),
        Some(t) => {
            let base = seq![t];
            match p.season {
                Some(s) => {
                    if all_digits(s) && dec_val(s) <= u32::MAX {
                        let num = dec_of(dec_val(s));
                        base + seq![
                            t + " "@ + num,
                            t + " "@ + num + ordinal_suffix(dec_val(s)),
                            t + " Season "@ + num,
                        ]
                    } else {
                        base
                    }
                },
                None => base,
            }
        },
    }
}

/// Generate the alternative titles of a parse.
pub fn generate_alternative_titles(p: &ParsedElement) -> (r: Vec<String>)
    ensures
        r@.map_values(|s: String| s@) == alternative_titles(p.pv()),
{
    let mut titles: Vec<String> = Vec::new();
    match &p.title {
        None => {
            proof {
                assert(titles@.map_values(|s: String| s@) =~= alternative_titles(p.pv()));
            }
            titles
        },
        Some(t) => {
            titles.push(t.clone());
            let season_num = match &p.season {
                Some(s) => parse_u32(s.as_str()),
                None => None,
            };
            match season_num {
                Some(num) => {
                    let ns = crate::text::u64_to_dec(num as u64);
                    let suffix = if num == 1 {
                        "st"
                    } else if num == 2 {
                        "nd"
                    } else if num == 3 {
                        "rd"
                    } else {
                        "th"
                    };
                    let mut t1 = t.clone();
                    t1.append(" ");
                    t1.append(ns.as_str());
                    let mut t2 = t.clone();
                    t2.append(" ");
                    t2.append(ns.as_str());
                    t2.append(suffix);
                    let mut t3 = t.clone();
                    t3.append(" Season ");
                    t3.append(ns.as_str());
                    titles.push(t1);
                    titles.push(t2);
                    titles.push(t3);
                    proof {
                        assert(ordinal_suffix(dec_val(p.pv().season->0)) == suffix@);
                        assert(titles@.map_values(|s: String| s@) =~= alternative_titles(p.pv()));
                    }
                },
                None => {
                    proof {
                        assert(titles@.map_values(|s: String| s@) =~= alternative_titles(p.pv()));
                    }
                },
            }
            titles
        },
    }
}

/// Whether a page's items contain the series.
pub open spec fn page_has_series(items: Seq<SeriesRecord>, series_id: Seq<char>) -> bool {
    exists|i: int| 0 <= i < items.len() && (#[trigger] items[i]).id@ == series_id
}

/// Whether the series is among the page's items.
pub fn find_in_page(items: &Vec<SeriesRecord>, series_id: &str) -> (r: bool)
    ensures
        r == page_has_series(items@, series_id@),
{
    let n = items.len();
    for i in 0..n
        invariant
            n == items@.len(),
            forall|j: int| 0 <= j < i ==> (#[trigger] items@[j]).id@ != series_id@,
    {
        if str_eq(items[i].id.as_str(), series_id) {
            proof {
                assert((items@[i as int]).id@ == series_id@);
            }
            return true;
        }
    }
    false
}

/// Search the extension page by page for a series with the given id,
/// until a page contains it or reports no next page. What the
/// extension answers is its own; the scan of each answered page is
/// exact (`find_in_page`).
fn search_series_all_pages<E: Extension>(
    ext: &mut E,
    query: &str,
    series_id: &str,
) -> (r: Result<bool, String>)
{
    let mut page_number: u16 = 1;
    loop
        decreases u16::MAX - page_number,
    {
        let result = match ext.search(query, Some(page_number), Vec::new()) {
            Ok(p) => p,
            Err(e) => {
                return Err(e);
            },
        };
        if find_in_page(&result.items, series_id) {
            return Ok(true);
        }
        if !result.has_next_page || page_number == u16::MAX {
            return Ok(false);
        }
        page_number = page_number + 1;
    }
}

/// Confirm a group's title against the extension: try each
/// alternative title until a search confirms the series.
fn confirm_group<E: Extension>(
    ext: &mut E,
    representative: &ParsedElement,
    series_id: &str,
) -> (r: Result<bool, String>)
{
    let titles = generate_alternative_titles(representative);
    let n = titles.len();
    for i in 0..n
        invariant
            n == titles@.len(),
    {
        match search_series_all_pages(ext, titles[i].as_str(), series_id) {
            Ok(true) => {
                return Ok(true);
            },
            Ok(false) => {},
            Err(e) => {
                return Err(e);
            },
        }
    }
    Ok(false)
}

/// Find the file index of the requested episode among a torrent's
/// files. A returned index always belongs to a file whose parse
/// names an episode and whose episode number is the requested one;
/// when nothing parses as an episode, no search is made and nothing
/// is found. Which group confirms depends on the extension's
/// answers.
pub fn find_episode<E: Extension>(
    files: &Vec<TorrentFile>,
    ext: &mut E,
    series_id: &str,
    episode_number: u32,
) -> (r: Result<Option<usize>, String>)
    requires
        paths_nul_free(files@),
    ensures
        (r is Ok && r->Ok_0 is Some) ==> exists|j: int|
            0 <= j < parse_episodes_spec(files@).len() && (#[trigger] parse_episodes_spec(
                files@,
            )[j]).0 == r->Ok_0->0 && episode_matches(
                parse_episodes_spec(files@)[j].1,
                episode_number,
            ),
        parse_episodes_spec(files@).len() == 0 ==> (r matches Ok(o) && o is None),
{
    let episodes = parse_episodes(files);
    if episodes.len() == 0 {
        return Ok(None);
    }
    let groups = group_by_title_key(&episodes);
    let ghost ev = entries_view(episodes@);
    let m = groups.len();
    for g in 0..m
        invariant
            m == groups@.len(),
            ev == entries_view(episodes@),
            ev == parse_episodes_spec(files@),
            ev.len() > 0,
            forall|gg: int| 0 <= gg < m ==> (#[trigger] groups@[gg])@.len() > 0,
            forall|gg: int, x: int|
                0 <= gg < m && 0 <= x < groups@[gg]@.len() ==> ev.contains(
                    ((#[trigger] groups@[gg]@[x]).0, groups@[gg]@[x].1.pv()),
                ),
    {
        let confirmed = match confirm_group(ext, &groups[g][0].1, series_id) {
            Ok(c) => c,
            Err(e) => {
                return Err(e);
            },
        };
        if confirmed {
            match episode_in_group(&groups[g], episode_number) {
                Some(idx) => {
                    proof {
                        let gv = entries_view(groups@[g as int]@);
                        lemma_first_match_found(gv, episode_number);
                        let w = choose|w: int|
                            0 <= w < gv.len() && (#[trigger] gv[w]).0 == idx && episode_matches(
                                gv[w].1,
                                episode_number,
                            );
                        assert(ev.contains(gv[w]));
                        let j = choose|j: int| 0 <= j < ev.len() && #[trigger] ev[j] == gv[w];
                        assert((parse_episodes_spec(files@)[j]).0 == idx);
                    }
                    return Ok(Some(idx));
                },
                None => {},
            }
        }
    }
    Ok(None)
}

/// A first-match result names a matching entry.
proof fn lemma_first_match_found(g: Seq<(usize, ParsedView)>, n: u32)
    ensures
        first_episode_match(g, n) is Some ==> exists|w: int|
            0 <= w < g.len() && (#[trigger] g[w]).0 == first_episode_match(g, n)->0
                && episode_matches(g[w].1, n),
    decreases g.len(),
{
    if g.len() > 0 {
        if episode_matches(g.first().1, n) {
            assert(g[0].0 == g.first().0 && episode_matches(g[0].1, n));
        } else {
            lemma_first_match_found(g.drop_first(), n);
            if first_episode_match(g.drop_first(), n) is Some {
                let idx = first_episode_match(g.drop_first(), n)->0;
                let w = choose|w: int|
                    0 <= w < g.drop_first().len() && (#[trigger] g.drop_first()[w]).0 == idx
                        && episode_matches(g.drop_first()[w].1, n);
                assert(g[w + 1].0 == idx && episode_matches(g[w + 1].1, n));
            }
        }
    }
}

/// Whether a file's path carries an extension the table maps to a
/// video type.
pub open spec fn video_file() -> spec_fn(crate::torrent::TorrentFile) -> bool {
    |f: crate::torrent::TorrentFile| match crate::media_type::path_extension(f.path@) {
        Some(e) => match crate::media_type::guessed_mime(e) {
            Some(p) => p.0 == "video"@,
            None => false,
        },
        None => false,
    }
}

/// Keep the files whose path extension maps to a video type.
pub fn filter_video_files(files: Vec<crate::torrent::TorrentFile>) -> (r: Vec<
    crate::torrent::TorrentFile,
>)
    ensures
        r@ == files@.filter(video_file()),
{
    let ghost orig = files@;
    let mut rest = files;
    let mut kept: Vec<crate::torrent::TorrentFile> = Vec::new();
    let ghost processed: int = 0;
    proof {
        assert(orig.skip(0) =~= orig);
    }
    while rest.len() != 0
        invariant
            0 <= processed <= orig.len(),
            rest@ == orig.skip(processed),
            kept@ == orig.take(processed).filter(video_file()),
        decreases orig.len() - processed,
    {
        let f = rest.remove(0);
        let is_video = match crate::media_type::uri_path_extension_of_path(f.path.as_str()) {
            Some(e) => match crate::media_type::guess_mime_for_ext(e.as_str()) {
                Some(m) => m.is_video(),
                None => false,
            },
            None => false,
        };
        proof {
            assert(orig.skip(processed).first() == orig[processed]);
            assert(orig.skip(processed).drop_first() =~= orig.skip(processed + 1));
            assert(orig.take(processed + 1).drop_last() =~= orig.take(processed));
            assert(orig.take(processed + 1).last() == orig[processed]);
            assert(is_video == video_file()(orig[processed]));
            reveal(Seq::filter);
        }
        let ghost before = kept@;
        if is_video {
            kept.push(f);
            proof {
                assert(kept@ =~= before.push(orig[processed]));
            }
        }
        proof {
            processed = processed + 1;
        }
    }
    proof {
        assert(orig.take(orig.len() as int) =~= orig);
    }
    kept
}

} // verus!

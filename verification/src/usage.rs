//! Usage scan: find call sites of ledger item paths in the consumer's
//! source tree.
//!
//! Matches by the last two path segments (type + member), so both `use`d and
//! fully-qualified paths are found: `BackendEvent::Output(s)` and
//! `bro_tui::backend::BackendEvent::Output(s)` both match item path
//! `bro_tui::backend::BackendEvent::Output`. Walking the tree and parsing
//! each file belongs to the caller, which hands every path it met over as a
//! [`PathOccurrence`].

use vstd::prelude::*;
use crate::text::{chars_of, is_sep_at, str_eq, string_from_chars};

verus! {

/// A single call-site where a ledger item is referenced.
#[derive(Debug)]
pub struct UsageSite {
    /// Full ledger item path, e.g. `bro_tui::backend::BackendEvent::Output`.
    pub item_path: String,
    /// Source file relative to the scan root, e.g. `src/agent.rs`.
    pub file: String,
    /// 1-indexed line number.
    pub line: u32,
}

/// Abstract value of a [`UsageSite`].
pub struct UsageSiteView {
    pub item_path: Seq<char>,
    pub file: Seq<char>,
    pub line: u32,
}

impl View for UsageSite {
    type V = UsageSiteView;

    open spec fn view(&self) -> UsageSiteView {
        UsageSiteView { item_path: self.item_path@, file: self.file@, line: self.line }
    }
}

impl Clone for UsageSite {
    fn clone(&self) -> (r: Self)
        ensures
            r@ == self@,
    {
        UsageSite { item_path: self.item_path.clone(), file: self.file.clone(), line: self.line }
    }
}

/// One path met in the consumer's source: its segments, the file it is in
/// and the line of its last segment.
#[derive(Debug)]
pub struct PathOccurrence {
    pub segments: Vec<String>,
    pub file: String,
    pub line: u32,
}

/// Starts of the `::` separators `str::split("::")` cuts at, scanning from
/// `i`: left to right, never overlapping.
pub open spec fn seps_from(s: Seq<char>, i: int) -> Seq<int>
    decreases s.len() - i,
{
    if i < 0 || i + 2 > s.len() {
        Seq::empty()
    } else if is_sep_at(s, i) {
        seq![i] + seps_from(s, i + 2)
    } else {
        seps_from(s, i + 1)
    }
}

/// The (second-to-last, last) segments of `s.split("::")`, when it has at
/// least two.
pub open spec fn last_two_segments(s: Seq<char>) -> Option<(Seq<char>, Seq<char>)> {
    let seps = seps_from(s, 0);
    if seps.len() == 0 {
        None
    } else {
        let last_sep = seps.last();
        let start = if seps.len() >= 2 { seps[seps.len() - 2] + 2 } else { 0 };
        Some((s.subrange(start, last_sep), s.skip(last_sep + 2)))
    }
}

/// A scan target: (type segment, member segment, full item path).
pub type Target = (Seq<char>, Seq<char>, Seq<char>);

/// The targets built from `item_paths`: one per path with at least two
/// segments, in order.
pub open spec fn targets_upto(item_paths: Seq<Seq<char>>, n: int) -> Seq<Target>
    decreases n,
{
    if n <= 0 {
        Seq::empty()
    } else {
        let t = targets_upto(item_paths, n - 1);
        match last_two_segments(item_paths[n - 1]) {
            Some((ty, member)) => t.push((ty, member, item_paths[n - 1])),
            None => t,
        }
    }
}

/// The views of executable targets.
pub open spec fn targets_view(t: Seq<(String, String, String)>) -> Seq<Target> {
    t.map_values(|x: (String, String, String)| (x.0@, x.1@, x.2@))
}

proof fn lemma_seps_from_bounds(s: Seq<char>, i: int)
    requires
        0 <= i,
    ensures
        forall|k: int| 0 <= k < seps_from(s, i).len() ==> i <= #[trigger] seps_from(s, i)[k] && seps_from(s, i)[k] + 2 <= s.len()
            && is_sep_at(s, seps_from(s, i)[k]),
        forall|k: int| 0 <= k < seps_from(s, i).len() - 1 ==> seps_from(s, i)[k] + 2 <= #[trigger] seps_from(s, i)[k + 1],
    decreases s.len() - i,
{
    if i + 2 <= s.len() {
        if is_sep_at(s, i) {
            lemma_seps_from_bounds(s, i + 2);
            assert(seps_from(s, i) == seq![i] + seps_from(s, i + 2));
            assert forall|k: int| 0 <= k < seps_from(s, i).len() implies i <= #[trigger] seps_from(s, i)[k]
                && seps_from(s, i)[k] + 2 <= s.len() && is_sep_at(s, seps_from(s, i)[k]) by {
                if k > 0 {
                    assert(seps_from(s, i)[k] == seps_from(s, i + 2)[k - 1]);
                }
            }
            assert forall|k: int| 0 <= k < seps_from(s, i).len() - 1 implies seps_from(s, i)[k] + 2 <= #[trigger] seps_from(s, i)[k + 1] by {
                assert(seps_from(s, i)[k + 1] == seps_from(s, i + 2)[k]);
                assert(i + 2 <= seps_from(s, i + 2)[k]);
                if k > 0 {
                    assert(seps_from(s, i)[k] == seps_from(s, i + 2)[k - 1]);
                    assert(seps_from(s, i + 2)[k - 1] + 2 <= seps_from(s, i + 2)[(k - 1) + 1]);
                } else {
                    assert(seps_from(s, i)[0] == i);
                }
            }
        } else {
            lemma_seps_from_bounds(s, i + 1);
            assert(seps_from(s, i) == seps_from(s, i + 1));
        }
    }
}

/// A copy of `v[from..to]` as a string.
fn substring(v: &Vec<char>, from: usize, to: usize) -> (r: String)
    requires
        from <= to <= v@.len(),
    ensures
        r@ == v@.subrange(from as int, to as int),
{
    let mut out: Vec<char> = Vec::new();
    for k in from..to
        invariant
            to <= v@.len(),
            out@ == v@.subrange(from as int, k as int),
    {
        out.push(v[k]);
        assert(out@ =~= v@.subrange(from as int, k + 1));
    }
    string_from_chars(&out)
}

/// Exec [`last_two_segments`].
fn last_two(p: &str) -> (r: Option<(String, String)>)
    ensures
        r matches Some(x) ==> last_two_segments(p@) == Some((x.0@, x.1@)),
        r is None ==> last_two_segments(p@) is None,
{
    let v = chars_of(p);
    let ghost s = v@;
    let mut i: usize = 0;
    let mut prev: Option<usize> = None;
    let mut last: Option<usize> = None;
    let ghost mut found: Seq<int> = Seq::empty();
    proof {
        lemma_seps_from_bounds(s, 0);
    }
    while v.len() >= 2 && i <= v.len() - 2
        invariant
            s == v@,
            s == p@,
            i <= s.len(),
            seps_from(s, 0) == found + seps_from(s, i as int),
            last is None <==> found.len() == 0,
            last matches Some(l) ==> l == found.last(),
            found.len() >= 2 ==> (prev matches Some(q) && q == found[found.len() - 2]),
            found.len() < 2 ==> prev is None,
        decreases s.len() - i,
    {
        if v[i] == ':' && v[i + 1] == ':' {
            assert(is_sep_at(s, i as int));
            proof {
                assert(seps_from(s, i as int) == seq![i as int] + seps_from(s, i + 2));
                assert(found + seps_from(s, i as int) =~= found.push(i as int) + seps_from(s, i + 2));
                found = found.push(i as int);
            }
            prev = last;
            last = Some(i);
            i = i + 2;
        } else {
            i = i + 1;
        }
    }
    assert(seps_from(s, i as int) =~= Seq::<int>::empty());
    assert(found =~= seps_from(s, 0));
    match last {
        None => None,
        Some(l) => {
            proof {
                lemma_seps_from_bounds(s, 0);
            }
            let start = match prev {
                Some(q) => {
                    assert(q + 2 <= l) by {
                        assert(found[found.len() - 2] + 2 <= found[found.len() - 2 + 1]);
                    }
                    q + 2
                },
                None => 0,
            };
            Some((substring(&v, start, l), substring(&v, l + 2, v.len())))
        },
    }
}

/// `(type_segment, member_segment, full_item_path)` triples built from paths.
pub fn build_targets(item_paths: &[&str]) -> (r: Vec<(String, String, String)>)
    ensures
        targets_view(r@) == targets_upto(item_paths@.map_values(|p: &str| p@), item_paths@.len() as int),
{
    let ghost ps = item_paths@.map_values(|p: &str| p@);
    let mut out: Vec<(String, String, String)> = Vec::new();
    for i in 0..item_paths.len()
        invariant
            ps == item_paths@.map_values(|p: &str| p@),
            targets_view(out@) == targets_upto(ps, i as int),
    {
        assert(ps[i as int] == item_paths@[i as int]@);
        match last_two(item_paths[i]) {
            Some((ty, member)) => {
                let ghost before = out@;
                out.push((ty, member, item_paths[i].to_owned()));
                assert(targets_view(out@) =~= targets_view(before).push((ty@, member@, ps[i as int])));
            },
            None => {},
        }
    }
    out
}

/// The sites a single path occurrence yields: one per target whose type
/// and member are the occurrence's last two segments, in target order.
pub open spec fn sites_for(segs: Seq<Seq<char>>, file: Seq<char>, line: u32, targets: Seq<Target>, n: int) -> Seq<UsageSiteView>
    decreases n,
{
    if n <= 0 || segs.len() < 2 {
        Seq::empty()
    } else {
        let s = sites_for(segs, file, line, targets, n - 1);
        let t = targets[n - 1];
        if t.0 == segs[segs.len() - 2] && t.1 == segs[segs.len() - 1] {
            s.push(UsageSiteView { item_path: t.2, file, line })
        } else {
            s
        }
    }
}

/// The views of a list of strings.
pub open spec fn segs_view(v: Seq<String>) -> Seq<Seq<char>> {
    v.map_values(|x: String| x@)
}

/// All sites found in the first `n` occurrences, in occurrence order.
pub open spec fn scan_upto(occ: Seq<PathOccurrence>, targets: Seq<Target>, n: int) -> Seq<UsageSiteView>
    decreases n,
{
    if n <= 0 {
        Seq::empty()
    } else {
        scan_upto(occ, targets, n - 1) + sites_for(
            segs_view(occ[n - 1].segments@),
            occ[n - 1].file@,
            occ[n - 1].line,
            targets,
            targets.len() as int,
        )
    }
}

/// Every usage of `item_paths` among the path occurrences met in the
/// consumer's source, in the order met.
pub fn scan(occurrences: &[PathOccurrence], item_paths: &[&str]) -> (r: Vec<UsageSite>)
    ensures
        crate::sorting::views(r@) == scan_upto(
            occurrences@,
            targets_upto(item_paths@.map_values(|p: &str| p@), item_paths@.len() as int),
            occurrences@.len() as int,
        ),
{
    let targets = build_targets(item_paths);
    let ghost tv = targets_view(targets@);
    let mut sites: Vec<UsageSite> = Vec::new();
    for i in 0..occurrences.len()
        invariant
            tv == targets_view(targets@),
            crate::sorting::views(sites@) == scan_upto(occurrences@, tv, i as int),
    {
        let occ = &occurrences[i];
        let ghost segs = segs_view(occ.segments@);
        let ghost base = sites@;
        let n = occ.segments.len();
        if n >= 2 {
            for j in 0..targets.len()
                invariant
                    n == occ.segments@.len(),
                    n >= 2,
                    segs == segs_view(occ.segments@),
                    tv == targets_view(targets@),
                    crate::sorting::views(sites@) == crate::sorting::views(base) + sites_for(segs, occ.file@, occ.line, tv, j as int),
            {
                assert(tv[j as int] == (targets@[j as int].0@, targets@[j as int].1@, targets@[j as int].2@));
                assert(segs[n - 2] == occ.segments@[n - 2]@ && segs[n - 1] == occ.segments@[n - 1]@);
                let ghost before = sites@;
                if str_eq(targets[j].0.as_str(), occ.segments[n - 2].as_str()) && str_eq(targets[j].1.as_str(), occ.segments[n - 1].as_str()) {
                    sites.push(UsageSite { item_path: targets[j].2.clone(), file: occ.file.clone(), line: occ.line });
                    assert(crate::sorting::views(sites@) =~= crate::sorting::views(before).push(
                        UsageSiteView { item_path: tv[j as int].2, file: occ.file@, line: occ.line },
                    ));
                }
            }
        } else {
            assert(sites_for(segs, occ.file@, occ.line, tv, tv.len() as int) =~= Seq::<UsageSiteView>::empty());
        }
        assert(crate::sorting::views(sites@) =~= scan_upto(occurrences@, tv, i + 1));
    }
    sites
}

} // verus!

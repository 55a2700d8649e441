//! Consumer-side check: follow each pinned upstream ledger from the pin to
//! its head, intersect the classified breaks with the consumer's usage
//! sites, and report every break that hits a real call site.
//!
//! The caller reads `api-drift.toml`, each upstream ledger and the
//! consumer's source; [`run`] decides and renders the report.

use vstd::prelude::*;
use crate::classify::{ClassifiedBreak, ClassifiedBreakView, break_kind_name, break_kind_name_spec, severity_name, severity_name_spec};
use crate::diff::collect;
use crate::ledger::{LedgerEntry, LedgerEntryView, copy_breaks, join_path, join_path_spec};
use crate::sorting::views;
use crate::text::{decimal, join_spec, join_strings, push_decimal, str_eq, take_chars};
use crate::usage::{PathOccurrence, Target, UsageSite, UsageSiteView, last_two_segments, scan, scan_upto, segs_view, sites_for, targets_upto};

verus! {

/// Parsed `api-drift.toml`.
#[derive(Debug)]
pub struct ConsumerConfig {
    pub upstream: Vec<UpstreamPin>,
}

/// One upstream surface pin.
#[derive(Debug)]
pub struct UpstreamPin {
    /// Human name, e.g. `bro-tui`.
    pub name: String,
    /// Ledger key, e.g. `backend-events`.
    pub surface: String,
    /// Where to read the upstream ledger directory.
    pub source: UpstreamSource,
    /// `sha256:…` hash of the last-known-good snapshot (empty = from beginning).
    pub pin: String,
}

/// How to locate the upstream ledger directory.
#[derive(Debug)]
pub enum UpstreamSource {
    /// Relative or absolute filesystem path, e.g. `{ path = "../bro-tui/api-drift" }`.
    Path { path: String },
}

/// The ledger directory of `source`, relative to the consumer's manifest
/// directory.
pub fn resolve_source(manifest_dir: &str, source: &UpstreamSource) -> (r: String)
    ensures
        source matches UpstreamSource::Path { path } ==> r@ == join_path_spec(manifest_dir@, path@),
{
    match source {
        UpstreamSource::Path { path } => join_path(manifest_dir, path.as_str()),
    }
}

/// A classified break together with the consumer call sites where it's used.
#[derive(Debug)]
pub struct BreakWithSites {
    pub brk: ClassifiedBreak,
    pub sites: Vec<UsageSite>,
    /// Migration note from the upstream ledger entry.
    pub migration_note: String,
    /// Upstream ticket reference.
    pub reference: String,
}

/// Abstract value of a [`BreakWithSites`].
pub struct BreakWithSitesView {
    pub brk: ClassifiedBreakView,
    pub sites: Seq<UsageSiteView>,
    pub migration_note: Seq<char>,
    pub reference: Seq<char>,
}

impl View for BreakWithSites {
    type V = BreakWithSitesView;

    open spec fn view(&self) -> BreakWithSitesView {
        BreakWithSitesView {
            brk: self.brk@,
            sites: views(self.sites@),
            migration_note: self.migration_note@,
            reference: self.reference@,
        }
    }
}

pub open spec fn entry_at(es: Seq<LedgerEntryView>) -> spec_fn(int) -> LedgerEntryView {
    |i: int| es[i]
}

pub open spec fn entry_of_surface(es: Seq<LedgerEntryView>, surface: Seq<char>) -> spec_fn(int) -> bool {
    |i: int| es[i].surface == surface
}

/// The entries for `surface`, in append order.
pub open spec fn surface_entries(es: Seq<LedgerEntryView>, surface: Seq<char>) -> Seq<LedgerEntryView> {
    collect(es.len() as int, entry_of_surface(es, surface), entry_at(es))
}

/// Index of the last entry among the first `n` whose new hash is `pin`, or -1.
pub open spec fn last_to_upto(es: Seq<LedgerEntryView>, pin: Seq<char>, n: int) -> int
    decreases n,
{
    if n <= 0 {
        -1
    } else if es[n - 1].to == pin {
        n - 1
    } else {
        last_to_upto(es, pin, n - 1)
    }
}

/// All ledger entries for `surface` that come after the last one whose new
/// hash is `pin`. An empty pin sees the whole history of the surface; a pin
/// the history does not know sees nothing (changes that cannot be placed
/// in the chain are not reported).
pub open spec fn after_pin_spec(es: Seq<LedgerEntryView>, surface: Seq<char>, pin: Seq<char>) -> Seq<LedgerEntryView> {
    let se = surface_entries(es, surface);
    if pin.len() == 0 {
        se
    } else {
        let p = last_to_upto(se, pin, se.len() as int);
        if p >= 0 {
            se.skip(p + 1)
        } else {
            Seq::empty()
        }
    }
}

/// See [`after_pin_spec`].
pub fn entries_after_pin(entries: &[LedgerEntry], surface: &str, pin: &str) -> (r: Vec<LedgerEntry>)
    ensures
        views(r@) == after_pin_spec(views(entries@), surface@, pin@),
{
    let ghost es = views(entries@);
    let mut se: Vec<LedgerEntry> = Vec::new();
    for i in 0..entries.len()
        invariant
            es == views(entries@),
            views(se@) == collect(i as int, entry_of_surface(es, surface@), entry_at(es)),
    {
        assert(es[i as int] == entries@[i as int]@);
        if str_eq(entries[i].surface.as_str(), surface) {
            let ghost before = se@;
            se.push(entries[i].clone());
            assert(views(se@) =~= views(before).push(es[i as int]));
        }
    }
    let ghost sev = views(se@);
    assert(sev == surface_entries(es, surface@));
    if pin.is_empty() {
        return se;
    }
    let mut n = se.len();
    while n > 0
        invariant_except_break
            last_to_upto(sev, pin@, sev.len() as int) == last_to_upto(sev, pin@, n as int),
        invariant
            n <= se@.len(),
            sev == views(se@),
            sev == surface_entries(es, surface@),
            pin@.len() > 0,
        ensures
            n == 0 ==> last_to_upto(sev, pin@, sev.len() as int) == -1,
            n > 0 ==> last_to_upto(sev, pin@, sev.len() as int) == n - 1,
        decreases n,
    {
        assert(sev[n - 1] == se@[n - 1]@);
        if str_eq(se[n - 1].to.as_str(), pin) {
            break;
        }
        n = n - 1;
    }
    if n == 0 {
        return Vec::new();
    }
    let mut out: Vec<LedgerEntry> = Vec::new();
    for k in n..se.len()
        invariant
            n <= se@.len(),
            sev == views(se@),
            views(out@) == sev.subrange(n as int, k as int),
    {
        let ghost before = out@;
        assert(sev[k as int] == se@[k as int]@);
        out.push(se[k].clone());
        assert(views(out@) =~= views(before).push(sev[k as int]));
        assert(sev.subrange(n as int, k + 1) =~= sev.subrange(n as int, k as int).push(sev[k as int]));
    }
    assert(sev.subrange(n as int, sev.len() as int) =~= sev.skip(n as int));
    out
}

/// A break together with the note and reference of its entry.
pub type Annotated = (ClassifiedBreakView, Seq<char>, Seq<char>);

/// The breaks of one entry, each with the entry's note and reference.
pub open spec fn annotate(e: LedgerEntryView) -> Seq<Annotated> {
    e.breaks.map_values(|b: ClassifiedBreakView| (b, e.note, e.reference))
}

/// Every break of the first `n` entries with its entry's note and
/// reference, in order.
pub open spec fn annotated_upto(es: Seq<LedgerEntryView>, n: int) -> Seq<Annotated>
    decreases n,
{
    if n <= 0 {
        Seq::empty()
    } else {
        annotated_upto(es, n - 1) + annotate(es[n - 1])
    }
}

/// The sites at the first `n` positions of `sites` that use `path`.
pub open spec fn sites_of(sites: Seq<UsageSiteView>, path: Seq<char>, n: int) -> Seq<UsageSiteView>
    decreases n,
{
    if n <= 0 {
        Seq::empty()
    } else if sites[n - 1].item_path == path {
        sites_of(sites, path, n - 1).push(sites[n - 1])
    } else {
        sites_of(sites, path, n - 1)
    }
}

/// The annotated breaks among the first `n` that have at least one site.
pub open spec fn hits_upto(ann: Seq<Annotated>, sites: Seq<UsageSiteView>, n: int) -> Seq<BreakWithSitesView>
    decreases n,
{
    if n <= 0 {
        Seq::empty()
    } else {
        let h = hits_upto(ann, sites, n - 1);
        let these = sites_of(sites, ann[n - 1].0.path, sites.len() as int);
        if these.len() > 0 {
            h.push(BreakWithSitesView { brk: ann[n - 1].0, sites: these, migration_note: ann[n - 1].1, reference: ann[n - 1].2 })
        } else {
            h
        }
    }
}

/// The references of the first `n` entries that have one.
pub open spec fn refs_upto(es: Seq<LedgerEntryView>, n: int) -> Seq<Seq<char>>
    decreases n,
{
    if n <= 0 {
        Seq::empty()
    } else if es[n - 1].reference.len() == 0 {
        refs_upto(es, n - 1)
    } else {
        refs_upto(es, n - 1).push(es[n - 1].reference)
    }
}

/// First `k` characters of `s`.
pub open spec fn prefix_chars(s: Seq<char>, k: int) -> Seq<char> {
    if s.len() <= k { s } else { s.take(k) }
}

/// The report lines of one site.
pub open spec fn site_lines(sites: Seq<UsageSiteView>, n: int) -> Seq<char>
    decreases n,
{
    if n <= 0 {
        Seq::empty()
    } else {
        site_lines(sites, n - 1) + "    used: "@ + sites[n - 1].file + ":"@ + decimal(sites[n - 1].line as nat) + "\n"@
    }
}

/// The report lines of one hit: its break, its sites and its note.
pub open spec fn hit_text(h: BreakWithSitesView) -> Seq<char> {
    "  "@ + severity_name_spec(h.brk.severity) + "/"@ + break_kind_name_spec(h.brk.kind) + "  "@ + h.brk.path + "\n"@
        + site_lines(h.sites, h.sites.len() as int) + if h.migration_note.len() == 0 {
        Seq::<char>::empty()
    } else {
        "    note: "@ + h.migration_note + "\n"@
    }
}

/// The report lines of the first `n` hits.
pub open spec fn hit_lines(hits: Seq<BreakWithSitesView>, n: int) -> Seq<char>
    decreases n,
{
    if n <= 0 {
        Seq::empty()
    } else {
        hit_lines(hits, n - 1) + hit_text(hits[n - 1])
    }
}

/// The report section of one upstream with hits.
pub open spec fn section_spec(name: Seq<char>, surface: Seq<char>, pin: Seq<char>, new_entries: Seq<LedgerEntryView>, hits: Seq<BreakWithSitesView>) -> Seq<char> {
    let refs = refs_upto(new_entries, new_entries.len() as int);
    "\n"@ + name + "/"@ + surface + "  pin "@ + prefix_chars(pin, 16) + "…  → head "@ + prefix_chars(new_entries.last().to, 16)
        + "…  ("@ + decimal(new_entries.len()) + " ledger entry/entries"@ + if refs.len() == 0 {
        Seq::<char>::empty()
    } else {
        ", ref "@ + join_spec(refs, ", "@)
    } + ")\n"@ + hit_lines(hits, hits.len() as int)
}


/// Every break of `entries` with its entry's note and reference, in order.
fn annotated_breaks(entries: &[LedgerEntry]) -> (r: Vec<(ClassifiedBreak, String, String)>)
    ensures
        views(r@) == annotated_upto(views(entries@), entries@.len() as int),
{
    let ghost es = views(entries@);
    let mut out: Vec<(ClassifiedBreak, String, String)> = Vec::new();
    for i in 0..entries.len()
        invariant
            es == views(entries@),
            views(out@) == annotated_upto(es, i as int),
    {
        let e = &entries[i];
        assert(es[i as int] == e@);
        let ghost base = views(out@);
        let ghost a = annotate(e@);
        for j in 0..e.breaks.len()
            invariant
                a == annotate(e@),
                views(out@) == base + a.take(j as int),
        {
            let ghost before = views(out@);
            out.push((e.breaks[j].clone(), e.note.clone(), e.reference.clone()));
            assert(a[j as int] == (e.breaks@[j as int]@, e.note@, e.reference@));
            assert(a.take(j + 1) =~= a.take(j as int).push(a[j as int]));
            assert(views(out@) =~= before.push(a[j as int]));
        }
        assert(a.take(a.len() as int) =~= a);
    }
    out
}

/// The sites in `sites` that use `path`, in order.
fn sites_using(sites: &[UsageSite], path: &str) -> (r: Vec<UsageSite>)
    ensures
        views(r@) == sites_of(views(sites@), path@, sites@.len() as int),
{
    let ghost sv = views(sites@);
    let mut out: Vec<UsageSite> = Vec::new();
    for i in 0..sites.len()
        invariant
            sv == views(sites@),
            views(out@) == sites_of(sv, path@, i as int),
    {
        assert(sv[i as int] == sites@[i as int]@);
        if str_eq(sites[i].item_path.as_str(), path) {
            let ghost before = views(out@);
            out.push(sites[i].clone());
            assert(views(out@) =~= before.push(sv[i as int]));
        }
    }
    out
}

/// The annotated breaks that have at least one site, each with its sites.
fn breaks_at_sites(ann: &Vec<(ClassifiedBreak, String, String)>, sites: &[UsageSite]) -> (r: Vec<BreakWithSites>)
    ensures
        views(r@) == hits_upto(views(ann@), views(sites@), ann@.len() as int),
{
    let ghost av = views(ann@);
    let mut out: Vec<BreakWithSites> = Vec::new();
    for i in 0..ann.len()
        invariant
            av == views(ann@),
            views(out@) == hits_upto(av, views(sites@), i as int),
    {
        assert(av[i as int] == (ann@[i as int].0@, ann@[i as int].1@, ann@[i as int].2@));
        let these = sites_using(sites, ann[i].0.path.as_str());
        if these.len() > 0 {
            let ghost before = views(out@);
            let b = BreakWithSites {
                brk: ann[i].0.clone(),
                sites: these,
                migration_note: ann[i].1.clone(),
                reference: ann[i].2.clone(),
            };
            out.push(b);
            assert(views(out@) =~= before.push(b@));
        }
    }
    out
}

/// The references of `entries` that are not empty.
fn entry_refs(entries: &[LedgerEntry]) -> (r: Vec<String>)
    ensures
        r@.map_values(|p: String| p@) == refs_upto(views(entries@), entries@.len() as int),
{
    let ghost es = views(entries@);
    let mut out: Vec<String> = Vec::new();
    for i in 0..entries.len()
        invariant
            es == views(entries@),
            out@.map_values(|p: String| p@) == refs_upto(es, i as int),
    {
        assert(es[i as int] == entries@[i as int]@);
        if !entries[i].reference.as_str().is_empty() {
            let ghost before = out@.map_values(|p: String| p@);
            out.push(entries[i].reference.clone());
            assert(out@.map_values(|p: String| p@) =~= before.push(es[i as int].reference));
        }
    }
    out
}

/// Appends the report lines of `sites`.
fn push_site_lines(report: &mut String, sites: &Vec<UsageSite>)
    ensures
        final(report)@ == old(report)@ + site_lines(views(sites@), sites@.len() as int),
{
    let ghost sv = views(sites@);
    let ghost start = report@;
    for i in 0..sites.len()
        invariant
            sv == views(sites@),
            report@ == start + site_lines(sv, i as int),
    {
        assert(sv[i as int] == sites@[i as int]@);
        let ghost before = report@;
        report.append("    used: ");
        report.append(sites[i].file.as_str());
        report.append(":");
        push_decimal(report, sites[i].line as u64);
        report.append("\n");
        assert(report@ =~= before + "    used: "@ + sv[i as int].file + ":"@ + decimal(sv[i as int].line as nat) + "\n"@);
        assert(report@ =~= start + site_lines(sv, i + 1));
    }
}

/// Appends the report lines of one hit.
fn push_hit(report: &mut String, h: &BreakWithSites)
    ensures
        final(report)@ == old(report)@ + hit_text(h@),
{
    let ghost start = report@;
    report.append("  ");
    report.append(severity_name(h.brk.severity));
    report.append("/");
    report.append(break_kind_name(h.brk.kind));
    report.append("  ");
    report.append(h.brk.path.as_str());
    report.append("\n");
    push_site_lines(report, &h.sites);
    let ghost mid = report@;
    if !h.migration_note.as_str().is_empty() {
        report.append("    note: ");
        report.append(h.migration_note.as_str());
        report.append("\n");
    }
    let ghost tail = if h@.migration_note.len() == 0 {
        Seq::<char>::empty()
    } else {
        "    note: "@ + h@.migration_note + "\n"@
    };
    assert(report@ =~= mid + tail);
    assert(report@ =~= start + hit_text(h@));
}

/// Appends the report lines of `hits`.
fn push_hit_lines(report: &mut String, hits: &[BreakWithSites])
    ensures
        final(report)@ == old(report)@ + hit_lines(views(hits@), hits@.len() as int),
{
    let ghost hv = views(hits@);
    let ghost start = report@;
    for i in 0..hits.len()
        invariant
            hv == views(hits@),
            report@ == start + hit_lines(hv, i as int),
    {
        assert(hv[i as int] == hits@[i as int]@);
        push_hit(report, &hits[i]);
        assert(report@ =~= start + hit_lines(hv, i + 1));
    }
}

/// The report section of one upstream whose new entries hit call sites.
fn render_section(name: &str, surface: &str, pin: &str, new_entries: &[LedgerEntry], hits: &[BreakWithSites]) -> (r: String)
    requires
        new_entries@.len() > 0,
    ensures
        r@ == section_spec(name@, surface@, pin@, views(new_entries@), views(hits@)),
{
    let ghost es = views(new_entries@);
    let refs = entry_refs(new_entries);
    let mut report = String::new();
    report.append("\n");
    report.append(name);
    report.append("/");
    report.append(surface);
    report.append("  pin ");
    report.append(take_chars(pin, 16).as_str());
    report.append("…  → head ");
    let last = new_entries.len() - 1;
    assert(es.last() == new_entries@[last as int]@);
    report.append(take_chars(new_entries[last].to.as_str(), 16).as_str());
    report.append("…  (");
    push_decimal(&mut report, new_entries.len() as u64);
    report.append(" ledger entry/entries");
    let ghost head = report@;
    if refs.len() > 0 {
        report.append(", ref ");
        report.append(join_strings(&refs, ", ").as_str());
    }
    let ghost refs_part = if refs_upto(es, es.len() as int).len() == 0 {
        Seq::<char>::empty()
    } else {
        ", ref "@ + join_spec(refs_upto(es, es.len() as int), ", "@)
    };
    assert(report@ =~= head + refs_part);
    report.append(")\n");
    push_hit_lines(&mut report, hits);
    assert(report@ =~= section_spec(name@, surface@, pin@, es, views(hits@)));
    report
}

/// The paths of a list of annotated breaks, in order.
pub open spec fn ann_paths(ann: Seq<Annotated>) -> Seq<Seq<char>> {
    ann.map_values(|a: Annotated| a.0.path)
}

/// The breaks that the new entries of an upstream (history `es`, pinned
/// surface `surface` at `pin`) bring to call sites among `occ`, each with
/// its sites.
pub open spec fn upstream_hits(surface: Seq<char>, pin: Seq<char>, es: Seq<LedgerEntryView>, occ: Seq<PathOccurrence>) -> Seq<BreakWithSitesView> {
    let ne = after_pin_spec(es, surface, pin);
    let ann = annotated_upto(ne, ne.len() as int);
    let paths = ann_paths(ann);
    let sites = scan_upto(occ, targets_upto(paths, paths.len() as int), occ.len() as int);
    hits_upto(ann, sites, ann.len() as int)
}

/// The report section of one upstream: empty when none of its new breaks
/// hits a call site.
pub open spec fn upstream_report(u: UpstreamPin, es: Seq<LedgerEntryView>, occ: Seq<PathOccurrence>) -> Seq<char> {
    let hits = upstream_hits(u.surface@, u.pin@, es, occ);
    if hits.len() == 0 {
        Seq::empty()
    } else {
        section_spec(u.name@, u.surface@, u.pin@, after_pin_spec(es, u.surface@, u.pin@), hits)
    }
}

/// The report of the first `n` upstreams.
pub open spec fn report_upto(ups: Seq<UpstreamPin>, ledgers: Seq<Vec<LedgerEntry>>, occ: Seq<PathOccurrence>, n: int) -> Seq<char>
    decreases n,
{
    if n <= 0 {
        Seq::empty()
    } else {
        report_upto(ups, ledgers, occ, n - 1) + upstream_report(ups[n - 1], views(ledgers[n - 1]@), occ)
    }
}

/// Some break of one of the first `n` upstreams hits a call site.
pub open spec fn has_break_upto(ups: Seq<UpstreamPin>, ledgers: Seq<Vec<LedgerEntry>>, occ: Seq<PathOccurrence>, n: int) -> bool
    decreases n,
{
    if n <= 0 {
        false
    } else {
        has_break_upto(ups, ledgers, occ, n - 1) || upstream_hits(ups[n - 1].surface@, ups[n - 1].pin@, views(ledgers[n - 1]@), occ).len() > 0
    }
}

/// The consumer check: `ledgers[i]` is the history of `config.upstream[i]`
/// and `occurrences` every path met in the consumer's own source (none when
/// it has no `src/`). `None` when the consumer is up to date with its pins
/// as far as its call sites go; otherwise the failure message with a
/// section per upstream whose new breaks hit a call site.
pub fn run(config: &ConsumerConfig, ledgers: &[Vec<LedgerEntry>], occurrences: &[PathOccurrence]) -> (r: Option<String>)
    requires
        ledgers@.len() == config.upstream@.len(),
    ensures
        r is None <==> !has_break_upto(config.upstream@, ledgers@, occurrences@, ledgers@.len() as int),
        r matches Some(m) ==> m@ == "api-drift consumer check: breaks affecting used items:"@ + report_upto(
            config.upstream@,
            ledgers@,
            occurrences@,
            ledgers@.len() as int,
        ),
{
    let mut report = String::new();
    let mut has_break = false;
    for i in 0..ledgers.len()
        invariant
            ledgers@.len() == config.upstream@.len(),
            report@ == report_upto(config.upstream@, ledgers@, occurrences@, i as int),
            has_break == has_break_upto(config.upstream@, ledgers@, occurrences@, i as int),
    {
        let u = &config.upstream[i];
        let ghost es = views(ledgers@[i as int]@);
        let new_entries = entries_after_pin(ledgers[i].as_slice(), u.surface.as_str(), u.pin.as_str());
        let ann = annotated_breaks(new_entries.as_slice());
        let ghost av = views(ann@);
        let mut item_paths: Vec<&str> = Vec::new();
        for k in 0..ann.len()
            invariant
                av == views(ann@),
                item_paths@.map_values(|p: &str| p@) == ann_paths(av).take(k as int),
        {
            let ghost before = item_paths@.map_values(|p: &str| p@);
            assert(av[k as int] == (ann@[k as int].0@, ann@[k as int].1@, ann@[k as int].2@));
            item_paths.push(ann[k].0.path.as_str());
            assert(item_paths@.map_values(|p: &str| p@) =~= before.push(ann_paths(av)[k as int]));
            assert(ann_paths(av).take(k + 1) =~= ann_paths(av).take(k as int).push(ann_paths(av)[k as int]));
        }
        assert(ann_paths(av).take(ann@.len() as int) =~= ann_paths(av));
        let sites = scan(occurrences, item_paths.as_slice());
        let hits = breaks_at_sites(&ann, sites.as_slice());
        assert(views(hits@) == upstream_hits(u.surface@, u.pin@, es, occurrences@));
        let ghost before = report@;
        if hits.len() > 0 {
            has_break = true;
            assert(new_entries@.len() > 0);
            let section = render_section(
                u.name.as_str(),
                u.surface.as_str(),
                u.pin.as_str(),
                new_entries.as_slice(),
                hits.as_slice(),
            );
            report.append(section.as_str());
        }
        assert(report@ =~= before + upstream_report(config.upstream@[i as int], es, occurrences@));
    }
    if has_break {
        let mut msg = String::new();
        msg.append("api-drift consumer check: breaks affecting used items:");
        msg.append(report.as_str());
        Some(msg)
    } else {
        None
    }
}

/// A consumer pinned to the head of an upstream's history (the new hash of
/// the last entry for its surface) sees no new entries, so no break of that
/// upstream can reach its call sites.
pub proof fn law_pinned_at_head_sees_nothing(es: Seq<LedgerEntryView>, surface: Seq<char>, pin: Seq<char>, occ: Seq<PathOccurrence>)
    requires
        pin.len() > 0,
        surface_entries(es, surface).len() > 0,
        surface_entries(es, surface).last().to == pin,
    ensures
        after_pin_spec(es, surface, pin).len() == 0,
        upstream_hits(surface, pin, es, occ).len() == 0,
{
    let se = surface_entries(es, surface);
    assert(last_to_upto(se, pin, se.len() as int) == se.len() - 1);
    assert(se.skip(se.len() as int).len() == 0);
}

/// A pin that the history of the surface does not know sees nothing: changes
/// that cannot be placed in the chain are not reported.
pub proof fn law_unknown_pin_sees_nothing(es: Seq<LedgerEntryView>, surface: Seq<char>, pin: Seq<char>)
    requires
        pin.len() > 0,
        forall|i: int| 0 <= i < surface_entries(es, surface).len() ==> #[trigger] surface_entries(es, surface)[i].to != pin,
    ensures
        after_pin_spec(es, surface, pin).len() == 0,
{
    let se = surface_entries(es, surface);
    lemma_last_to_absent(se, pin, se.len() as int);
}

proof fn lemma_last_to_absent(se: Seq<LedgerEntryView>, pin: Seq<char>, n: int)
    requires
        n <= se.len(),
        forall|i: int| 0 <= i < se.len() ==> #[trigger] se[i].to != pin,
    ensures
        last_to_upto(se, pin, n) == -1,
    decreases n,
{
    if n > 0 {
        assert(se[n - 1].to != pin);
        lemma_last_to_absent(se, pin, n - 1);
    }
}

proof fn lemma_annotated_contains(es: Seq<LedgerEntryView>, n: int, j: int, k: int)
    requires
        0 <= j < n <= es.len(),
        0 <= k < es[j].breaks.len(),
    ensures
        annotated_upto(es, n).contains((es[j].breaks[k], es[j].note, es[j].reference)),
    decreases n,
{
    let prev = annotated_upto(es, n - 1);
    let a = annotate(es[n - 1]);
    assert(annotated_upto(es, n) == prev + a);
    if j == n - 1 {
        assert(a[k] == (es[j].breaks[k], es[j].note, es[j].reference));
        assert((prev + a)[prev.len() + k] == a[k]);
    } else {
        lemma_annotated_contains(es, n - 1, j, k);
        let q = choose|q: int| 0 <= q < prev.len() && prev[q] == (es[j].breaks[k], es[j].note, es[j].reference);
        assert((prev + a)[q] == prev[q]);
    }
}

proof fn lemma_targets_contains(paths: Seq<Seq<char>>, n: int, idx: int, t0: Seq<char>, t1: Seq<char>)
    requires
        0 <= idx < n <= paths.len(),
        last_two_segments(paths[idx]) == Some((t0, t1)),
    ensures
        targets_upto(paths, n).contains((t0, t1, paths[idx])),
    decreases n,
{
    let prev = targets_upto(paths, n - 1);
    if idx == n - 1 {
        assert(targets_upto(paths, n) == prev.push((t0, t1, paths[idx])));
        assert(targets_upto(paths, n)[prev.len() as int] == (t0, t1, paths[idx]));
    } else {
        lemma_targets_contains(paths, n - 1, idx, t0, t1);
        let q = choose|q: int| 0 <= q < prev.len() && prev[q] == (t0, t1, paths[idx]);
        match last_two_segments(paths[n - 1]) {
            Some((a, b)) => assert(targets_upto(paths, n)[q] == prev[q]),
            None => {},
        }
    }
}

proof fn lemma_sites_for_contains(segs: Seq<Seq<char>>, file: Seq<char>, line: u32, targets: Seq<Target>, n: int, ti: int)
    requires
        segs.len() >= 2,
        0 <= ti < n <= targets.len(),
        targets[ti].0 == segs[segs.len() - 2],
        targets[ti].1 == segs[segs.len() - 1],
    ensures
        sites_for(segs, file, line, targets, n).contains(UsageSiteView { item_path: targets[ti].2, file, line }),
    decreases n,
{
    let prev = sites_for(segs, file, line, targets, n - 1);
    let x = UsageSiteView { item_path: targets[ti].2, file, line };
    if ti == n - 1 {
        assert(sites_for(segs, file, line, targets, n) == prev.push(x));
        assert(prev.push(x)[prev.len() as int] == x);
    } else {
        lemma_sites_for_contains(segs, file, line, targets, n - 1, ti);
        let q = choose|q: int| 0 <= q < prev.len() && prev[q] == x;
        let t = targets[n - 1];
        if t.0 == segs[segs.len() - 2] && t.1 == segs[segs.len() - 1] {
            assert(prev.push(UsageSiteView { item_path: t.2, file, line })[q] == prev[q]);
        }
    }
}

proof fn lemma_scan_contains(occ: Seq<PathOccurrence>, targets: Seq<Target>, n: int, oi: int, x: UsageSiteView)
    requires
        0 <= oi < n <= occ.len(),
        sites_for(segs_view(occ[oi].segments@), occ[oi].file@, occ[oi].line, targets, targets.len() as int).contains(x),
    ensures
        scan_upto(occ, targets, n).contains(x),
    decreases n,
{
    let prev = scan_upto(occ, targets, n - 1);
    let here = sites_for(segs_view(occ[n - 1].segments@), occ[n - 1].file@, occ[n - 1].line, targets, targets.len() as int);
    assert(scan_upto(occ, targets, n) == prev + here);
    if oi == n - 1 {
        let q = choose|q: int| 0 <= q < here.len() && here[q] == x;
        assert((prev + here)[prev.len() + q] == x);
    } else {
        lemma_scan_contains(occ, targets, n - 1, oi, x);
        let q = choose|q: int| 0 <= q < prev.len() && prev[q] == x;
        assert((prev + here)[q] == x);
    }
}

proof fn lemma_sites_of_contains(sites: Seq<UsageSiteView>, path: Seq<char>, n: int, si: int)
    requires
        0 <= si < n <= sites.len(),
        sites[si].item_path == path,
    ensures
        sites_of(sites, path, n).contains(sites[si]),
    decreases n,
{
    let prev = sites_of(sites, path, n - 1);
    if si == n - 1 {
        assert(prev.push(sites[si])[prev.len() as int] == sites[si]);
    } else {
        lemma_sites_of_contains(sites, path, n - 1, si);
        let q = choose|q: int| 0 <= q < prev.len() && prev[q] == sites[si];
        if sites[n - 1].item_path == path {
            assert(prev.push(sites[n - 1])[q] == prev[q]);
        }
    }
}

proof fn lemma_hits_contains(ann: Seq<Annotated>, sites: Seq<UsageSiteView>, n: int, q: int)
    requires
        0 <= q < n <= ann.len(),
        sites_of(sites, ann[q].0.path, sites.len() as int).len() > 0,
    ensures
        hits_upto(ann, sites, n).contains(
            BreakWithSitesView {
                brk: ann[q].0,
                sites: sites_of(sites, ann[q].0.path, sites.len() as int),
                migration_note: ann[q].1,
                reference: ann[q].2,
            },
        ),
    decreases n,
{
    let prev = hits_upto(ann, sites, n - 1);
    let x = BreakWithSitesView {
        brk: ann[q].0,
        sites: sites_of(sites, ann[q].0.path, sites.len() as int),
        migration_note: ann[q].1,
        reference: ann[q].2,
    };
    if q == n - 1 {
        assert(hits_upto(ann, sites, n) == prev.push(x));
        assert(prev.push(x)[prev.len() as int] == x);
    } else {
        lemma_hits_contains(ann, sites, n - 1, q);
        let k = choose|k: int| 0 <= k < prev.len() && prev[k] == x;
        let these = sites_of(sites, ann[n - 1].0.path, sites.len() as int);
        if these.len() > 0 {
            let y = BreakWithSitesView { brk: ann[n - 1].0, sites: these, migration_note: ann[n - 1].1, reference: ann[n - 1].2 };
            assert(prev.push(y)[k] == prev[k]);
        }
    }
}

/// Every break of every entry after the pin is checked against the
/// consumer's call sites: when some path met in the consumer's source ends
/// in the same two segments as the break's item path, the upstream reports
/// that break, with that call site among its sites and its entry's note and
/// reference.
pub proof fn law_used_break_after_pin_is_reported(
    surface: Seq<char>,
    pin: Seq<char>,
    es: Seq<LedgerEntryView>,
    occ: Seq<PathOccurrence>,
    j: int,
    k: int,
    oi: int,
)
    requires
        0 <= j < after_pin_spec(es, surface, pin).len(),
        0 <= k < after_pin_spec(es, surface, pin)[j].breaks.len(),
        0 <= oi < occ.len(),
        occ[oi].segments@.len() >= 2,
        last_two_segments(after_pin_spec(es, surface, pin)[j].breaks[k].path) == Some(
            (
                segs_view(occ[oi].segments@)[occ[oi].segments@.len() - 2],
                segs_view(occ[oi].segments@)[occ[oi].segments@.len() - 1],
            ),
        ),
    ensures
        exists|h: BreakWithSitesView|
            #[trigger] upstream_hits(surface, pin, es, occ).contains(h) && h.brk == after_pin_spec(es, surface, pin)[j].breaks[k]
                && h.migration_note == after_pin_spec(es, surface, pin)[j].note && h.reference == after_pin_spec(
                es,
                surface,
                pin,
            )[j].reference && h.sites.contains(
                UsageSiteView {
                    item_path: after_pin_spec(es, surface, pin)[j].breaks[k].path,
                    file: occ[oi].file@,
                    line: occ[oi].line,
                },
            ),
{
    let ne = after_pin_spec(es, surface, pin);
    let e = ne[j];
    let b = e.breaks[k];
    let ann = annotated_upto(ne, ne.len() as int);
    let paths = ann_paths(ann);
    let targets = targets_upto(paths, paths.len() as int);
    let sites = scan_upto(occ, targets, occ.len() as int);
    let segs = segs_view(occ[oi].segments@);
    let t0 = segs[segs.len() - 2];
    let t1 = segs[segs.len() - 1];
    lemma_annotated_contains(ne, ne.len() as int, j, k);
    let q = choose|q: int| 0 <= q < ann.len() && ann[q] == (b, e.note, e.reference);
    assert(paths[q] == b.path);
    lemma_targets_contains(paths, paths.len() as int, q, t0, t1);
    let ti = choose|ti: int| 0 <= ti < targets.len() && targets[ti] == (t0, t1, b.path);
    let x = UsageSiteView { item_path: b.path, file: occ[oi].file@, line: occ[oi].line };
    lemma_sites_for_contains(segs, occ[oi].file@, occ[oi].line, targets, targets.len() as int, ti);
    lemma_scan_contains(occ, targets, occ.len() as int, oi, x);
    let si = choose|si: int| 0 <= si < sites.len() && sites[si] == x;
    lemma_sites_of_contains(sites, b.path, sites.len() as int, si);
    lemma_hits_contains(ann, sites, ann.len() as int, q);
    let h = BreakWithSitesView {
        brk: ann[q].0,
        sites: sites_of(sites, ann[q].0.path, sites.len() as int),
        migration_note: ann[q].1,
        reference: ann[q].2,
    };
    assert(upstream_hits(surface, pin, es, occ).contains(h));
}

proof fn lemma_has_break(ups: Seq<UpstreamPin>, ledgers: Seq<Vec<LedgerEntry>>, occ: Seq<PathOccurrence>, n: int, i: int)
    requires
        0 <= i < n,
        upstream_hits(ups[i].surface@, ups[i].pin@, views(ledgers[i]@), occ).len() > 0,
    ensures
        has_break_upto(ups, ledgers, occ, n),
    decreases n,
{
    if i < n - 1 {
        lemma_has_break(ups, ledgers, occ, n - 1, i);
    }
}

/// The consumer check fails (its report is `Some`) whenever some break of
/// some entry after an upstream's pin has a call site in the consumer's
/// source: two trailing path segments equal to the break's item path's.
pub proof fn law_used_break_fails_the_check(
    ups: Seq<UpstreamPin>,
    ledgers: Seq<Vec<LedgerEntry>>,
    occ: Seq<PathOccurrence>,
    i: int,
    j: int,
    k: int,
    oi: int,
)
    requires
        0 <= i < ledgers.len(),
        0 <= j < after_pin_spec(views(ledgers[i]@), ups[i].surface@, ups[i].pin@).len(),
        0 <= k < after_pin_spec(views(ledgers[i]@), ups[i].surface@, ups[i].pin@)[j].breaks.len(),
        0 <= oi < occ.len(),
        occ[oi].segments@.len() >= 2,
        last_two_segments(after_pin_spec(views(ledgers[i]@), ups[i].surface@, ups[i].pin@)[j].breaks[k].path) == Some(
            (
                segs_view(occ[oi].segments@)[occ[oi].segments@.len() - 2],
                segs_view(occ[oi].segments@)[occ[oi].segments@.len() - 1],
            ),
        ),
    ensures
        has_break_upto(ups, ledgers, occ, ledgers.len() as int),
{
    law_used_break_after_pin_is_reported(ups[i].surface@, ups[i].pin@, views(ledgers[i]@), occ, j, k, oi);
    let h = choose|h: BreakWithSitesView| #[trigger] upstream_hits(ups[i].surface@, ups[i].pin@, views(ledgers[i]@), occ).contains(h);
    lemma_has_break(ups, ledgers, occ, ledgers.len() as int, i);
}

} // verus!

//! What is said of a unit's parse defaults.

use vstd::prelude::*;

use crate::config::Fallback;
use crate::fallback::sites::{bare_name, bare_of, Site, SiteKind, SiteView};
use crate::order::{Key, KeyView};
use crate::patterns::{pattern_hit, Pattern};
use crate::rows::{first_rows, top_rows};
use crate::text::{decimal, digits, join, joined, list_has, plus, put, Chars};
use crate::units::FunctionMetrics;

verus! {

/// Counts of the parse defaults among a unit's sites.
pub open spec fn parse_defaults_in(sites: Seq<SiteView>) -> Seq<SiteView>
    decreases sites.len(),
{
    if sites.len() == 0 {
        Seq::empty()
    } else {
        let rest = parse_defaults_in(sites.drop_last());
        if sites.last().kind == SiteKind::ParseDefault {
            rest.push(sites.last())
        } else {
            rest
        }
    }
}

/// How many of the sites are parse defaults.
pub fn count_parse_defaults(sites: &Vec<Site>) -> (n: usize)
    ensures
        n == parse_defaults_in(sites.deep_view()).len(),
{
    let ghost view = sites.deep_view();
    let mut n: usize = 0;
    let mut k: usize = 0;
    assert(view.take(0) =~= Seq::<SiteView>::empty());
    while k < sites.len()
        invariant
            k <= sites.len(),
            n <= k,
            view == sites.deep_view(),
            n == parse_defaults_in(view.take(k as int)).len(),
        decreases sites.len() - k,
    {
        assert(view.take(k + 1).drop_last() =~= view.take(k as int));
        assert(view[k as int] == sites@[k as int].deep_view());
        if sites[k].kind == SiteKind::ParseDefault {
            n = n + 1;
        }
        k = k + 1;
    }
    assert(view.take(view.len() as int) =~= view);
    n
}

/// The compiled patterns of exempt functions; a pattern that does not compile exempts nothing.
pub struct Exempt {
    pub patterns: Vec<Pattern>,
}

/// One of the patterns matches.
pub open spec fn exempted(patterns: Seq<Chars>, name: Chars) -> bool {
    exists|k: int| 0 <= k < patterns.len() && pattern_hit(#[trigger] patterns[k], false, name)
}

impl View for Exempt {
    type V = Seq<Chars>;

    /// The texts of the patterns.
    open spec fn view(&self) -> Seq<Chars> {
        Seq::new(self.patterns@.len(), |k: int| self.patterns@[k]@.0)
    }
}

impl Exempt {
    /// The patterns heed case.
    pub open spec fn ok(&self) -> bool {
        forall|k: int| 0 <= k < self.patterns@.len() ==> !(#[trigger] self.patterns@[k])@.1
    }

    /// The patterns of the settings.
    pub fn new(cfg: &Fallback) -> (r: Exempt)
        ensures
            r.ok(),
            r@ == cfg.exempt_fn_patterns.deep_view(),
    {
        let list = &cfg.exempt_fn_patterns;
        let ghost view = list.deep_view();
        let mut patterns: Vec<Pattern> = Vec::new();
        let mut k: usize = 0;
        while k < list.len()
            invariant
                k <= list.len(),
                patterns@.len() == k,
                view == list.deep_view(),
                forall|j: int| 0 <= j < k ==> (#[trigger] patterns@[j])@ == (view[j], false),
            decreases list.len() - k,
        {
            assert(view[k as int] == list@[k as int]@);
            patterns.push(Pattern::new(list[k].as_str(), false));
            k = k + 1;
        }
        let r = Exempt { patterns };
        assert(r@ =~= view);
        r
    }

    /// Does one of the patterns match?
    pub fn hits(&self, name: &str) -> (r: bool)
        requires
            self.ok(),
        ensures
            r == exempted(self@, name@),
    {
        let mut k: usize = 0;
        while k < self.patterns.len()
            invariant
                k <= self.patterns.len(),
                self.ok(),
                forall|j: int| 0 <= j < k ==> !pattern_hit(#[trigger] self@[j], false, name@),
            decreases self.patterns.len() - k,
        {
            if self.patterns[k].hits(name) {
                assert(pattern_hit(self@[k as int], false, name@));
                return true;
            }
            k = k + 1;
        }
        false
    }
}

/// `a, b and c`.
pub open spec fn listed(parts: Seq<Chars>) -> Chars {
    if parts.len() == 0 {
        Seq::empty()
    } else if parts.len() == 1 {
        parts[0]
    } else {
        joined(parts.drop_last(), ", "@) + " and "@ + parts.last()
    }
}

/// `a, b and c`.
pub fn join_and(parts: &Vec<String>) -> (o: String)
    ensures
        o@ == listed(parts.deep_view()),
{
    let ghost view = parts.deep_view();
    let n: usize = parts.len();
    assert(view.len() == n);
    if n == 0 {
        return String::new();
    }
    assert(view[n - 1] == parts@[n - 1]@);
    if n == 1 {
        return parts[0].as_str().to_owned();
    }
    let mut head: Vec<String> = Vec::new();
    let mut k: usize = 0;
    while k < n - 1
        invariant
            k <= n - 1,
            n == parts.len(),
            head.len() == k,
            view == parts.deep_view(),
            forall|j: int| 0 <= j < k ==> (#[trigger] head@[j])@ == view[j],
        decreases n - 1 - k,
    {
        assert(view[k as int] == parts@[k as int]@);
        head.push(parts[k].as_str().to_owned());
        k = k + 1;
    }
    assert(head.deep_view() =~= view.drop_last());
    plus(plus(join(&head, ", "), " and "), parts[n - 1].as_str())
}

/// What a site's value becomes.
pub open spec fn becomes_text(s: SiteView) -> Chars {
    match s.binding {
        Some(b) => b + " "@ + s.default,
        None => s.default,
    }
}

/// The lines of the sites.
pub open spec fn line_texts(sites: Seq<SiteView>) -> Seq<Chars> {
    Seq::new(sites.len(), |i: int| digits(sites[i].line as nat))
}

/// What the values become, each once, in line order.
pub open spec fn becomes(sites: Seq<SiteView>) -> Seq<Chars>
    decreases sites.len(),
{
    if sites.len() == 0 {
        Seq::empty()
    } else {
        let rest = becomes(sites.drop_last());
        let x = becomes_text(sites.last());
        if rest.contains(x) {
            rest
        } else {
            rest.push(x)
        }
    }
}

/// The reason for one unit's parse defaults.
pub open spec fn swallows(name: Chars, sites: Seq<SiteView>) -> Chars {
    name + " swallows "@ + digits(sites.len()) + " parse failure"@ + (if sites.len() == 1 {
        Seq::empty()
    } else {
        "s"@
    }) + " with literal defaults (lines "@ + joined(line_texts(sites), ", "@) + "): a malformed line becomes "@ + listed(
        becomes(sites),
    )
}

/// A unit is reported: it has enough parse defaults and no exempt name.
pub open spec fn reported(u: FunctionMetrics, cfg: Fallback) -> bool {
    &&& u.parse_defaults >= cfg.min_sites
    &&& u.parse_defaults > 0
    &&& !exempted(cfg.exempt_fn_patterns.deep_view(), bare_of(u.name@))
}

/// The reason for one unit.
pub open spec fn reason_of(u: FunctionMetrics, cfg: Fallback) -> Option<Chars> {
    if reported(u, cfg) {
        Some(swallows(u.name@, parse_defaults_in(u.fallback_sites.deep_view())))
    } else {
        None
    }
}

/// The reason for one unit: `parse swallows 5 parse failures with literal defaults (lines 157, 160,
/// 161, 162, 163): a malformed line becomes header "", hash "", author "", ts 0 and subject ""`,
/// listing every parse-default line and the distinct binding and default pairs in line order.
pub fn unit_reason(u: &FunctionMetrics, cfg: &Fallback, exempt: &Exempt) -> (r: Option<String>)
    requires
        exempt.ok(),
        exempt@ == cfg.exempt_fn_patterns.deep_view(),
    ensures
        r.deep_view() == reason_of(*u, *cfg),
{
    if u.parse_defaults < cfg.min_sites || u.parse_defaults == 0 {
        return None;
    }
    let bare = bare_name(u.name.as_str());
    if exempt.hits(bare.as_str()) {
        return None;
    }
    let sites = &u.fallback_sites;
    let ghost view = sites.deep_view();
    let mut lines: Vec<String> = Vec::new();
    let mut out: Vec<String> = Vec::new();
    let mut n: usize = 0;
    let mut k: usize = 0;
    assert(view.take(0) =~= Seq::<SiteView>::empty());
    assert(out.deep_view() =~= Seq::<Chars>::empty());
    assert(lines.deep_view() =~= line_texts(parse_defaults_in(view.take(0))));
    while k < sites.len()
        invariant
            k <= sites.len(),
            n <= k,
            view == sites.deep_view(),
            n == parse_defaults_in(view.take(k as int)).len(),
            lines.deep_view() == line_texts(parse_defaults_in(view.take(k as int))),
            out.deep_view() == becomes(parse_defaults_in(view.take(k as int))),
        decreases sites.len() - k,
    {
        assert(view.take(k + 1).drop_last() =~= view.take(k as int));
        let s = &sites[k];
        assert(view[k as int] == s.deep_view());
        if s.kind == SiteKind::ParseDefault {
            let ghost done = parse_defaults_in(view.take(k as int));
            let ghost now = done.push(s.deep_view());
            assert(now.drop_last() =~= done);
            put(&mut lines, decimal(s.line));
            assert(lines.deep_view() =~= line_texts(now));
            let x = match &s.binding {
                Some(b) => plus(plus(b.as_str().to_owned(), " "), s.default.as_str()),
                None => s.default.as_str().to_owned(),
            };
            if !list_has(&out, x.as_str()) {
                put(&mut out, x);
            }
            n = n + 1;
        }
        k = k + 1;
    }
    assert(view.take(view.len() as int) =~= view);
    let mut o = u.name.as_str().to_owned();
    o.append(" swallows ");
    o.append(decimal(n).as_str());
    o.append(" parse failure");
    let mut many = String::new();
    if n != 1 {
        many = "s".to_owned();
    }
    o.append(many.as_str());
    o.append(" with literal defaults (lines ");
    o.append(join(&lines, ", ").as_str());
    o.append("): a malformed line becomes ");
    o.append(join_and(&out).as_str());
    Some(o)
}

/// The reported units: most sites first, then line order.
pub open spec fn unit_rows(units: Seq<&FunctionMetrics>, cfg: Fallback) -> Seq<(KeyView, Chars)>
    decreases units.len(),
{
    if units.len() == 0 {
        Seq::empty()
    } else {
        let rest = unit_rows(units.drop_last(), cfg);
        let u = *units.last();
        match reason_of(u, cfg) {
            Some(r) => rest.push(
                (
                    KeyView { a: (usize::MAX - u.parse_defaults) as usize, b: u.start_line, s: Seq::empty(), c: 0 },
                    r,
                ),
            ),
            None => rest,
        }
    }
}

/// The reason lines of a file.
pub open spec fn file_lines(units: Seq<&FunctionMetrics>, cfg: Fallback) -> Seq<Chars> {
    let rows = unit_rows(units, cfg);
    let most = cfg.max_reported_per_file as nat;
    let first = top_rows(rows, most);
    if rows.len() > most {
        first.push(
            "+"@ + digits((rows.len() - most) as nat) + " more function(s) swallow "@ + digits(cfg.min_sites as nat)
                + "+ parse failures with literal defaults"@,
        )
    } else {
        first
    }
}

/// The reason lines of a file's production units: one per unit at or over `min_sites` (most sites
/// first, then line order), at most `max_reported_per_file`, then a count of the rest.
pub fn file_reasons(units: &Vec<&FunctionMetrics>, cfg: &Fallback, exempt: &Exempt) -> (out: Vec<String>)
    requires
        exempt.ok(),
        exempt@ == cfg.exempt_fn_patterns.deep_view(),
    ensures
        out.deep_view() == file_lines(units@, *cfg),
{
    let mut rows: Vec<(Key, String)> = Vec::new();
    let mut k: usize = 0;
    assert(units@.take(0) =~= Seq::<&FunctionMetrics>::empty());
    assert(rows.deep_view() =~= Seq::<(KeyView, Chars)>::empty());
    while k < units.len()
        invariant
            k <= units.len(),
            exempt.ok(),
            exempt@ == cfg.exempt_fn_patterns.deep_view(),
            rows.deep_view() == unit_rows(units@.take(k as int), *cfg),
        decreases units.len() - k,
    {
        assert(units@.take(k + 1).drop_last() =~= units@.take(k as int));
        let u = units[k];
        if let Some(r) = unit_reason(u, cfg, exempt) {
            let none = String::new();
            assert(none@ =~= Seq::<char>::empty());
            put(&mut rows, (Key { a: usize::MAX - u.parse_defaults, b: u.start_line, s: none, c: 0 }, r));
        }
        k = k + 1;
    }
    assert(units@.take(units@.len() as int) =~= units@);
    let most: usize = cfg.max_reported_per_file;
    let total: usize = rows.len();
    assert(rows.deep_view().len() == total);
    let mut out = first_rows(&rows, most);
    if total > most {
        let mut o = "+".to_owned();
        o.append(decimal(total - most).as_str());
        o.append(" more function(s) swallow ");
        o.append(decimal(cfg.min_sites).as_str());
        o.append("+ parse failures with literal defaults");
        put(&mut out, o);
    }
    out
}

/// A unit with fewer parse defaults than asked for, or with none, is never reported.
pub proof fn few_sites_are_never_reported(u: FunctionMetrics, cfg: Fallback)
    requires
        u.parse_defaults < cfg.min_sites || u.parse_defaults == 0,
    ensures
        reason_of(u, cfg) is None,
{
}

/// A site is a parse default only where its chain holds a transform and its default is a literal.
pub proof fn parse_defaults_have_a_transform(
    t: crate::tree::Nodes,
    n: usize,
    unit: usize,
    f: crate::fallback::sites::FoundView,
    lang: crate::lang::Language,
    cfg: Fallback,
)
    ensures
        ({
            let s = crate::fallback::sites::site_at(t, n, unit, f, lang, cfg);
            s.kind == SiteKind::ParseDefault <==> (f.literal is Some && s.transform is Some)
        }),
{
}

} // verus!

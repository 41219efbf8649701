//! Fallback sites.

use vstd::prelude::*;

use crate::config::Fallback;
use crate::fallback::literals::{
    args_of, callee, callee_name, cut, cut_of, named_args, python_literal, python_literal_of, rust_literal, rust_literal_of,
    transform_from, transform_in_chain, transforms, ts_literal, ts_literal_of,
};
use crate::lang::Language;
use crate::text::{around_last, list_has, put, rsplit_once, same, Chars};
use crate::tree::{child_of, named_at, Nodes, SyntaxTree};

verus! {

/// What a fallback does.
#[derive(Debug, Clone, Copy, PartialEq, Eq, Structural)]
pub enum SiteKind {
    /// A literal default on a receiver chain holding a fallible transform.
    ParseDefault,
    /// Any other value-swallowing default (`unwrap_or(other)`, `.ok()?`, `d.get(k, 0)`).
    Fallback,
}

/// One fallback site of a unit.
pub struct Site {
    pub line: usize,
    pub kind: SiteKind,
    /// The default as written (`""`, `0`, `Default::default()`; `?` for `.ok()?`), cut short.
    pub default: String,
    /// The fallible transform in the receiver chain that made it a parse default (`next`, `parse`).
    pub transform: Option<String>,
    /// The name the value lands in: a `let` pattern (the matching element of a tuple pattern), a
    /// declarator, an assignment target, a struct field or an object key; none for a value
    /// returned or passed on.
    pub binding: Option<String>,
}

/// A [`Site`] by its contents.
pub struct SiteView {
    pub line: usize,
    pub kind: SiteKind,
    pub default: Chars,
    pub transform: Option<Chars>,
    pub binding: Option<Chars>,
}

impl DeepView for Site {
    type V = SiteView;

    open spec fn deep_view(&self) -> SiteView {
        SiteView {
            line: self.line,
            kind: self.kind,
            default: self.default@,
            transform: self.transform.deep_view(),
            binding: self.binding.deep_view(),
        }
    }
}

/// What a grammar-specific check found at a node: the default (literal text when it is one), the
/// default's raw text, and where the receiver chain starts.
pub struct Found {
    pub literal: Option<String>,
    pub raw: String,
    pub chain: usize,
}

/// A [`Found`] by its contents.
pub struct FoundView {
    pub literal: Option<Chars>,
    pub raw: Chars,
    pub chain: usize,
}

impl DeepView for Found {
    type V = FoundView;

    open spec fn deep_view(&self) -> FoundView {
        FoundView { literal: self.literal.deep_view(), raw: self.raw@, chain: self.chain }
    }
}

/// A name without its owner.
pub open spec fn bare_of(name: Chars) -> Chars {
    match around_last(name, '.') {
        Some((_, last)) => last,
        None => name,
    }
}

/// The unit's name without its owner (`Repo.discover` → `discover`).
pub fn bare_name(name: &str) -> (r: String)
    ensures
        r@ == bare_of(name@),
{
    match rsplit_once(name, '.') {
        Some((_, last)) => last,
        None => name.to_owned(),
    }
}

// ---------- sites ----------

/// A Rust site: a method that supplies a default (`x.unwrap_or(0)`, `x.unwrap_or_else(Vec::new)`,
/// `x.or_default()`), or `.ok()?`. A bare `.ok()` anywhere else is not a site, so
/// `x.parse().ok().unwrap_or(0)` is one site at the `unwrap_or`.
pub open spec fn rust_found(t: Nodes, n: int, cfg: Fallback) -> Option<FoundView> {
    if t[n].kind == "call_expression"@ {
        rust_method(t, n, cfg)
    } else if t[n].kind == "try_expression"@ {
        rust_ok(t, n)
    } else {
        None
    }
}

/// A method that supplies a default.
pub open spec fn rust_method(t: Nodes, n: int, cfg: Fallback) -> Option<FoundView> {
    match child_of(t, n, "function"@) {
        None => None,
        Some(f) => if t[f as int].kind != "field_expression"@ {
            None
        } else {
            match (child_of(t, f as int, "field"@), child_of(t, f as int, "value"@)) {
                (Some(m), Some(chain)) => if !cfg.methods_rust.deep_view().contains(t[m as int].text) {
                    None
                } else {
                    match first_arg(t, n) {
                        Some(a) => Some(
                            FoundView {
                                literal: rust_literal_of(t, a as int, cfg.empty_constructors.deep_view()),
                                raw: t[a as int].text,
                                chain,
                            },
                        ),
                        None => Some(
                            FoundView {
                                literal: Some("Default::default()"@),
                                raw: "Default::default()"@,
                                chain,
                            },
                        ),
                    }
                },
                _ => None,
            }
        },
    }
}

/// The first argument of a call.
pub open spec fn first_arg(t: Nodes, n: int) -> Option<usize> {
    match child_of(t, n, "arguments"@) {
        Some(a) => if args_of(t, a as int).len() > 0 {
            Some(args_of(t, a as int)[0])
        } else {
            None
        },
        None => None,
    }
}

/// `.ok()?`.
pub open spec fn rust_ok(t: Nodes, n: int) -> Option<FoundView> {
    match named_at(t, n, 0) {
        None => None,
        Some(inner) => if t[inner as int].kind != "call_expression"@ {
            None
        } else {
            match child_of(t, inner as int, "function"@) {
                None => None,
                Some(f) => if t[f as int].kind != "field_expression"@ {
                    None
                } else {
                    match callee(t, f) {
                        Some(c) => if t[c as int].text == "ok"@ {
                            Some(
                                FoundView {
                                    literal: None,
                                    raw: "?"@,
                                    chain: match child_of(t, f as int, "value"@) {
                                        Some(v) => v,
                                        None => f,
                                    },
                                },
                            )
                        } else {
                            None
                        },
                        None => None,
                    }
                },
            }
        },
    }
}

fn arg_one(t: &SyntaxTree, n: usize) -> (r: Option<usize>)
    requires
        t.ok(),
        n < t@.len(),
    ensures
        r == first_arg(t@, n as int),
        r matches Some(a) ==> a < t@.len(),
{
    match t.child(n, "arguments") {
        Some(a) => {
            let args = named_args(t, a);
            if args.len() > 0 {
                assert(a < args@[0] < t@.len());
                Some(args[0])
            } else {
                None
            }
        },
        None => None,
    }
}

/// A Rust site.
pub fn rust_site(t: &SyntaxTree, n: usize, cfg: &Fallback) -> (r: Option<Found>)
    requires
        t.ok(),
        n < t@.len(),
    ensures
        r.deep_view() == rust_found(t@, n as int, *cfg),
        r matches Some(f) ==> f.chain < t@.len(),
{
    if t.is(n, "call_expression") {
        let f = match t.child(n, "function") {
            Some(f) => f,
            None => {
                return None;
            },
        };
        if !t.is(f, "field_expression") {
            return None;
        }
        let (m, chain) = match (t.child(f, "field"), t.child(f, "value")) {
            (Some(m), Some(chain)) => (m, chain),
            _ => {
                return None;
            },
        };
        if !list_has(&cfg.methods_rust, t.text(m)) {
            return None;
        }
        match arg_one(t, n) {
            Some(a) => Some(Found { literal: rust_literal(t, a, cfg), raw: t.text(a).to_owned(), chain }),
            None => Some(
                Found {
                    literal: Some("Default::default()".to_owned()),
                    raw: "Default::default()".to_owned(),
                    chain,
                },
            ),
        }
    } else if t.is(n, "try_expression") {
        let inner = match t.named_child(n, 0) {
            Some(i) => i,
            None => {
                return None;
            },
        };
        if !t.is(inner, "call_expression") {
            return None;
        }
        let f = match t.child(inner, "function") {
            Some(f) => f,
            None => {
                return None;
            },
        };
        if !t.is(f, "field_expression") {
            return None;
        }
        match callee_name(t, f) {
            Some(c) => if same(t.text(c), "ok") {
                let chain: usize = match t.child(f, "value") {
                    Some(v) => v,
                    None => f,
                };
                Some(Found { literal: None, raw: "?".to_owned(), chain })
            } else {
                None
            },
            None => None,
        }
    } else {
        None
    }
}

/// What a default that is a literal makes of a site.
pub open spec fn with_literal(literal: Option<Chars>, chain: usize) -> Option<FoundView> {
    match literal {
        Some(text) => Some(FoundView { literal: Some(text), raw: text, chain }),
        None => None,
    }
}

fn found_literal(literal: Option<String>, chain: usize) -> (r: Option<Found>)
    ensures
        r.deep_view() == with_literal(literal.deep_view(), chain),
        r matches Some(f) ==> f.chain == chain,
{
    match literal {
        Some(text) => {
            let raw = text.as_str().to_owned();
            Some(Found { literal: Some(text), raw, chain })
        },
        None => None,
    }
}

/// A Python getter with a default: `d.get(k, lit)`, `d.pop(k, lit)`, `getattr(o, k, lit)`.
pub open spec fn python_getter(t: Nodes, n: int, cfg: Fallback) -> Option<FoundView> {
    match (child_of(t, n, "function"@), child_of(t, n, "arguments"@)) {
        (Some(f), Some(a)) => {
            let args = args_of(t, a as int);
            match callee(t, f) {
                None => None,
                Some(c) => if !cfg.python_default_getters.deep_view().contains(t[c as int].text) {
                    None
                } else if t[f as int].kind == "attribute"@ && args.len() == 2 {
                    match child_of(t, f as int, "object"@) {
                        Some(chain) => with_literal(python_literal_of(t, args[1] as int), chain),
                        None => None,
                    }
                } else if t[f as int].kind == "identifier"@ && args.len() == 3 {
                    with_literal(python_literal_of(t, args[2] as int), args[0])
                } else {
                    None
                },
            }
        },
        _ => None,
    }
}

/// `x or lit`, outside the units where `or` supplies an optional argument.
pub open spec fn python_or(t: Nodes, n: int, bare: Chars, cfg: Fallback) -> Option<FoundView> {
    match child_of(t, n, "operator"@) {
        None => None,
        Some(op) => if t[op as int].text != "or"@ || cfg.python_skip_or_in.deep_view().contains(bare) {
            None
        } else {
            match (child_of(t, n, "right"@), child_of(t, n, "left"@)) {
                (Some(r), Some(l)) => with_literal(python_literal_of(t, r as int), l),
                _ => None,
            }
        },
    }
}

/// A Python site. The default must be a literal.
pub open spec fn python_found(t: Nodes, n: int, bare: Chars, cfg: Fallback) -> Option<FoundView> {
    if t[n].kind == "call"@ {
        python_getter(t, n, cfg)
    } else if t[n].kind == "boolean_operator"@ {
        python_or(t, n, bare, cfg)
    } else {
        None
    }
}

/// A Python site.
pub fn python_site(t: &SyntaxTree, n: usize, bare: &str, cfg: &Fallback) -> (r: Option<Found>)
    requires
        t.ok(),
        n < t@.len(),
    ensures
        r.deep_view() == python_found(t@, n as int, bare@, *cfg),
        r matches Some(f) ==> f.chain < t@.len(),
{
    if t.is(n, "call") {
        let (f, a) = match (t.child(n, "function"), t.child(n, "arguments")) {
            (Some(f), Some(a)) => (f, a),
            _ => {
                return None;
            },
        };
        let args = named_args(t, a);
        let c = match callee_name(t, f) {
            Some(c) => c,
            None => {
                return None;
            },
        };
        if !list_has(&cfg.python_default_getters, t.text(c)) {
            return None;
        }
        if t.is(f, "attribute") && args.len() == 2 {
            assert(a < args@[1] < t@.len());
            match t.child(f, "object") {
                Some(chain) => found_literal(python_literal(t, args[1]), chain),
                None => None,
            }
        } else if t.is(f, "identifier") && args.len() == 3 {
            assert(a < args@[2] < t@.len());
            assert(a < args@[0] < t@.len());
            found_literal(python_literal(t, args[2]), args[0])
        } else {
            None
        }
    } else if t.is(n, "boolean_operator") {
        let op = match t.child(n, "operator") {
            Some(op) => op,
            None => {
                return None;
            },
        };
        if !same(t.text(op), "or") || list_has(&cfg.python_skip_or_in, bare) {
            return None;
        }
        match (t.child(n, "right"), t.child(n, "left")) {
            (Some(r), Some(l)) => found_literal(python_literal(t, r), l),
            _ => None,
        }
    } else {
        None
    }
}

/// A TypeScript site: `a ?? lit` (`||` only where the settings say so), and where they say so every
/// `?.` member, call or index (a default of `undefined`, never a parse default).
pub open spec fn ts_found(t: Nodes, n: int, cfg: Fallback) -> Option<FoundView> {
    let kind = t[n].kind;
    if kind == "binary_expression"@ {
        match child_of(t, n, "operator"@) {
            None => None,
            Some(op) => if !(cfg.ts_operators.deep_view().contains(t[op as int].text) || (cfg.ts_count_or && t[op as int].text
                == "||"@)) {
                None
            } else {
                match (child_of(t, n, "right"@), child_of(t, n, "left"@)) {
                    (Some(r), Some(l)) => with_literal(ts_literal_of(t, r as int), l),
                    _ => None,
                }
            },
        }
    } else if (kind == "member_expression"@ || kind == "call_expression"@ || kind == "subscript_expression"@)
        && cfg.count_optional_chain && child_of(t, n, "optional_chain"@) is Some {
        match child_of(t, n, "object"@) {
            Some(o) => Some(FoundView { literal: None, raw: "?."@, chain: o }),
            None => match child_of(t, n, "function"@) {
                Some(f) => Some(FoundView { literal: None, raw: "?."@, chain: f }),
                None => None,
            },
        }
    } else {
        None
    }
}

/// A TypeScript site.
pub fn ts_site(t: &SyntaxTree, n: usize, cfg: &Fallback) -> (r: Option<Found>)
    requires
        t.ok(),
        n < t@.len(),
    ensures
        r.deep_view() == ts_found(t@, n as int, *cfg),
        r matches Some(f) ==> f.chain < t@.len(),
{
    if t.is(n, "binary_expression") {
        let op = match t.child(n, "operator") {
            Some(op) => op,
            None => {
                return None;
            },
        };
        if !(list_has(&cfg.ts_operators, t.text(op)) || (cfg.ts_count_or && same(t.text(op), "||"))) {
            return None;
        }
        match (t.child(n, "right"), t.child(n, "left")) {
            (Some(r), Some(l)) => found_literal(ts_literal(t, r), l),
            _ => None,
        }
    } else if (t.is(n, "member_expression") || t.is(n, "call_expression") || t.is(n, "subscript_expression"))
        && cfg.count_optional_chain && t.child(n, "optional_chain").is_some() {
        match t.child(n, "object") {
            Some(o) => Some(Found { literal: None, raw: "?.".to_owned(), chain: o }),
            None => match t.child(n, "function") {
                Some(f) => Some(Found { literal: None, raw: "?.".to_owned(), chain: f }),
                None => None,
            },
        }
    } else {
        None
    }
}

// ---------- bindings ----------

/// The text of a field, cut short.
pub open spec fn field_text(t: Nodes, p: int, f: Chars) -> Option<Chars> {
    match child_of(t, p, f) {
        Some(c) => Some(cut_of(t[c as int].text)),
        None => None,
    }
}

/// The target of an assignment, where `prev` is its right-hand side: `*m.entry(k).or_default() +=
/// 1` holds the site in its target.
pub open spec fn target_text(t: Nodes, p: int, prev: usize) -> Option<Chars> {
    if child_of(t, p, "right"@) == Some(prev) {
        field_text(t, p, "left"@)
    } else {
        None
    }
}

/// The name that ancestor `p` gives the value of its part `prev`; the pattern of a `let` aside.
pub open spec fn named_by(t: Nodes, p: int, prev: usize, lang: Language) -> Option<Chars> {
    let kind = t[p].kind;
    match lang {
        Language::Rust => if kind == "field_initializer"@ {
            field_text(t, p, "field"@)
        } else if kind == "assignment_expression"@ || kind == "compound_assignment_expr"@ {
            target_text(t, p, prev)
        } else {
            None
        },
        Language::Python => if kind == "assignment"@ || kind == "augmented_assignment"@ {
            target_text(t, p, prev)
        } else if kind == "keyword_argument"@ {
            field_text(t, p, "name"@)
        } else if kind == "pair"@ {
            field_text(t, p, "key"@)
        } else {
            None
        },
        Language::TypeScript | Language::JavaScript => if kind == "variable_declarator"@ {
            field_text(t, p, "name"@)
        } else if kind == "assignment_expression"@ {
            target_text(t, p, prev)
        } else if kind == "pair"@ {
            field_text(t, p, "key"@)
        } else {
            None
        },
        _ => None,
    }
}

/// The place of a node in a list, from `k` on.
pub open spec fn place_in(list: Seq<usize>, x: usize, k: int) -> Option<int>
    decreases list.len() - k,
{
    if k < 0 || k >= list.len() {
        None
    } else if list[k] == x {
        Some(k)
    } else {
        place_in(list, x, k + 1)
    }
}

/// The name a `let` gives: the element at the site's place when a tuple is bound to a tuple
/// pattern, else the pattern.
pub open spec fn let_name(t: Nodes, p: int, prev: usize, place: Option<int>) -> Option<Chars> {
    match child_of(t, p, "pattern"@) {
        None => None,
        Some(pat) => if t[pat as int].kind == "tuple_pattern"@ && place is Some && t[prev as int].kind
            == "tuple_expression"@ {
            let elems = args_of(t, pat as int);
            if place->0 < elems.len() {
                Some(cut_of(t[elems[place->0] as int].text))
            } else {
                None
            }
        } else {
            Some(cut_of(t[pat as int].text))
        },
    }
}

/// The name a site's value lands in, found on the way up from `cur` to the unit; `place` is that of
/// `prev` in a tuple.
pub open spec fn binding_from(
    t: Nodes,
    prev: usize,
    cur: Option<usize>,
    unit: usize,
    place: Option<int>,
    lang: Language,
) -> Option<Chars>
    decreases
            match cur {
                Some(p) => p + 1,
                None => 0,
            },
{
    match cur {
        None => None,
        Some(p) => if p == unit {
            None
        } else if lang == Language::Rust && t[p as int].kind == "let_declaration"@ {
            let_name(t, p as int, prev, place)
        } else {
            match named_by(t, p as int, prev, lang) {
                Some(name) => Some(name),
                None => {
                    let next = t[p as int].parent;
                    if next is None || next->0 < p {
                        binding_from(
                            t,
                            p,
                            next,
                            unit,
                            if t[p as int].kind == "tuple_expression"@ {
                                place_in(args_of(t, p as int), prev, 0)
                            } else {
                                None
                            },
                            lang,
                        )
                    } else {
                        None
                    }
                },
            }
        },
    }
}

fn text_of_field(t: &SyntaxTree, p: usize, f: &str) -> (r: Option<String>)
    requires
        t.ok(),
        p < t@.len(),
    ensures
        r.deep_view() == field_text(t@, p as int, f@),
{
    match t.child(p, f) {
        Some(c) => Some(cut(t.text(c))),
        None => None,
    }
}

fn text_of_target(t: &SyntaxTree, p: usize, prev: usize) -> (r: Option<String>)
    requires
        t.ok(),
        p < t@.len(),
    ensures
        r.deep_view() == target_text(t@, p as int, prev),
{
    match t.child(p, "right") {
        Some(r) => if r == prev {
            text_of_field(t, p, "left")
        } else {
            None
        },
        None => None,
    }
}

fn name_by(t: &SyntaxTree, p: usize, prev: usize, lang: Language) -> (r: Option<String>)
    requires
        t.ok(),
        p < t@.len(),
    ensures
        r.deep_view() == named_by(t@, p as int, prev, lang),
{
    match lang {
        Language::Rust => if t.is(p, "field_initializer") {
            text_of_field(t, p, "field")
        } else if t.is(p, "assignment_expression") || t.is(p, "compound_assignment_expr") {
            text_of_target(t, p, prev)
        } else {
            None
        },
        Language::Python => if t.is(p, "assignment") || t.is(p, "augmented_assignment") {
            text_of_target(t, p, prev)
        } else if t.is(p, "keyword_argument") {
            text_of_field(t, p, "name")
        } else if t.is(p, "pair") {
            text_of_field(t, p, "key")
        } else {
            None
        },
        Language::TypeScript | Language::JavaScript => if t.is(p, "variable_declarator") {
            text_of_field(t, p, "name")
        } else if t.is(p, "assignment_expression") {
            text_of_target(t, p, prev)
        } else if t.is(p, "pair") {
            text_of_field(t, p, "key")
        } else {
            None
        },
        _ => None,
    }
}

fn place_of(list: &Vec<usize>, x: usize) -> (r: Option<usize>)
    ensures
        crate::text::as_int(r) == place_in(list@, x, 0),
{
    let mut k: usize = 0;
    while k < list.len()
        invariant
            k <= list.len(),
            place_in(list@, x, 0) == place_in(list@, x, k as int),
        decreases list.len() - k,
    {
        if list[k] == x {
            return Some(k);
        }
        k = k + 1;
    }
    None
}

fn name_let(t: &SyntaxTree, p: usize, prev: usize, place: Option<usize>) -> (r: Option<String>)
    requires
        t.ok(),
        p < t@.len(),
        prev < t@.len(),
    ensures
        r.deep_view() == let_name(t@, p as int, prev, crate::text::as_int(place)),
{
    match t.child(p, "pattern") {
        None => None,
        Some(pat) => {
            if let Some(i) = place {
                if t.is(pat, "tuple_pattern") && t.is(prev, "tuple_expression") {
                    let elems = named_args(t, pat);
                    if i < elems.len() {
                        assert(pat < elems@[i as int] < t@.len());
                        return Some(cut(t.text(elems[i])));
                    }
                    return None;
                }
            }
            Some(cut(t.text(pat)))
        },
    }
}

/// The name a site's value lands in.
pub fn binding_of(t: &SyntaxTree, site: usize, unit: usize, lang: Language) -> (r: Option<String>)
    requires
        t.ok(),
        site < t@.len(),
    ensures
        r.deep_view() == binding_from(t@, site, t@[site as int].parent, unit, None, lang),
{
    let mut prev: usize = site;
    let mut cur = t.parent(site);
    let mut place: Option<usize> = None;
    let ghost want = binding_from(t@, site, t@[site as int].parent, unit, None, lang);
    loop
        invariant
            t.ok(),
            prev < t@.len(),
            cur matches Some(p) ==> p < t@.len(),
            want == binding_from(t@, site, t@[site as int].parent, unit, None, lang),
            want == binding_from(t@, prev, cur, unit, crate::text::as_int(place), lang),
        decreases
                match cur {
                    Some(p) => p + 1,
                    None => 0,
                },
    {
        match cur {
            None => {
                return None;
            },
            Some(p) => {
                if p == unit {
                    return None;
                }
                if matches!(lang, Language::Rust) && t.is(p, "let_declaration") {
                    return name_let(t, p, prev, place);
                }
                let name = name_by(t, p, prev, lang);
                if name.is_some() {
                    return name;
                }
                place = if t.is(p, "tuple_expression") {
                    let args = named_args(t, p);
                    place_of(&args, prev)
                } else {
                    None
                };
                prev = p;
                cur = t.parent(p);
            },
        }
    }
}

// ---------- units ----------

/// What is found at a node.
pub open spec fn found_at(t: Nodes, n: int, bare: Chars, lang: Language, cfg: Fallback) -> Option<FoundView> {
    match lang {
        Language::Rust => rust_found(t, n, cfg),
        Language::Python => python_found(t, n, bare, cfg),
        _ => ts_found(t, n, cfg),
    }
}

/// The site at a node.
pub open spec fn site_at(t: Nodes, n: usize, unit: usize, f: FoundView, lang: Language, cfg: Fallback) -> SiteView {
    let transform = transform_from(t, f.chain as int, lang, transforms(lang, cfg));
    SiteView {
        line: t[n as int].line,
        kind: if f.literal is Some && transform is Some {
            SiteKind::ParseDefault
        } else {
            SiteKind::Fallback
        },
        default: cut_of(
            match f.literal {
                Some(l) => l,
                None => f.raw,
            },
        ),
        transform,
        binding: binding_from(t, n, t[n as int].parent, unit, None, lang),
    }
}

/// The sites among the nodes from `n` to `end`, in document order; nested units are left to their
/// own measurement.
pub open spec fn sites_from(
    t: Nodes,
    n: int,
    end: int,
    unit: usize,
    bare: Chars,
    lang: Language,
    nested: Seq<usize>,
    cfg: Fallback,
) -> Seq<SiteView>
    decreases t.len() - n,
{
    if n < 0 || n >= end || end > t.len() {
        Seq::empty()
    } else if nested.contains(n as usize) {
        if n < t[n].after <= t.len() {
            sites_from(t, t[n].after as int, end, unit, bare, lang, nested, cfg)
        } else {
            Seq::empty()
        }
    } else {
        let rest = sites_from(t, n + 1, end, unit, bare, lang, nested, cfg);
        match found_at(t, n, bare, lang, cfg) {
            Some(f) => seq![site_at(t, n as usize, unit, f, lang, cfg)] + rest,
            None => rest,
        }
    }
}

/// The sites of a unit.
pub open spec fn sites_of(
    t: Nodes,
    unit: usize,
    name: Chars,
    lang: Language,
    nested: Seq<usize>,
    cfg: Fallback,
) -> Seq<SiteView> {
    sites_from(t, unit + 1, t[unit as int].after as int, unit, bare_of(name), lang, nested, cfg)
}

fn is_in(list: &Vec<usize>, x: usize) -> (r: bool)
    ensures
        r == list@.contains(x),
{
    let mut k: usize = 0;
    while k < list.len()
        invariant
            k <= list.len(),
            forall|j: int| 0 <= j < k ==> #[trigger] list@[j] != x,
        decreases list.len() - k,
    {
        if list[k] == x {
            assert(list@[k as int] == x);
            return true;
        }
        k = k + 1;
    }
    false
}

fn make_site(t: &SyntaxTree, n: usize, unit: usize, f: Found, lang: Language, cfg: &Fallback) -> (r: Site)
    requires
        t.ok(),
        n < t@.len(),
        f.chain < t@.len(),
    ensures
        r.deep_view() == site_at(t@, n, unit, f.deep_view(), lang, *cfg),
{
    assert(t@[n as int] == t.nodes@[n as int].deep_view());
    let transform = transform_in_chain(t, f.chain, lang, cfg);
    let binding = binding_of(t, n, unit, lang);
    let line = t.nodes[n].line;
    match f.literal {
        Some(l) => {
            let kind = if transform.is_some() {
                SiteKind::ParseDefault
            } else {
                SiteKind::Fallback
            };
            Site { line, kind, default: cut(l.as_str()), transform, binding }
        },
        None => Site { line, kind: SiteKind::Fallback, default: cut(f.raw.as_str()), transform, binding },
    }
}

/// Every fallback site of one unit, in document order. The nodes in `nested` are units of their own
/// and left to their own measurement; closures and inline callbacks belong to the unit.
pub fn unit_sites(
    t: &SyntaxTree,
    unit: usize,
    name: &str,
    lang: Language,
    nested: &Vec<usize>,
    cfg: &Fallback,
) -> (out: Vec<Site>)
    requires
        t.ok(),
        unit < t@.len(),
    ensures
        out.deep_view() == sites_of(t@, unit, name@, lang, nested@, *cfg),
{
    let bare = bare_name(name);
    assert(t@[unit as int] == t.nodes@[unit as int].deep_view());
    assert(crate::tree::node_ok(t@, unit as int));
    let end: usize = t.nodes[unit].after;
    let mut out: Vec<Site> = Vec::new();
    let mut n: usize = unit + 1;
    let ghost want = sites_of(t@, unit, name@, lang, nested@, *cfg);
    assert(out.deep_view() + want =~= want);
    while n < end
        invariant
            n <= t@.len(),
            end <= t@.len(),
            t.ok(),
            bare@ == bare_of(name@),
            want == out.deep_view() + sites_from(t@, n as int, end as int, unit, bare@, lang, nested@, *cfg),
        decreases t@.len() - n,
    {
        assert(crate::tree::node_ok(t@, n as int));
        assert(t@[n as int] == t.nodes@[n as int].deep_view());
        if is_in(nested, n) {
            n = t.nodes[n].after;
        } else {
            let found = match lang {
                Language::Rust => rust_site(t, n, cfg),
                Language::Python => python_site(t, n, bare.as_str(), cfg),
                _ => ts_site(t, n, cfg),
            };
            let ghost done = out.deep_view();
            let ghost rest = sites_from(t@, n + 1, end as int, unit, bare@, lang, nested@, *cfg);
            if let Some(f) = found {
                let ghost fv = f.deep_view();
                put(&mut out, make_site(t, n, unit, f, lang, cfg));
                assert(done + (seq![site_at(t@, n, unit, fv, lang, *cfg)] + rest) =~= out.deep_view() + rest);
            }
            n = n + 1;
        }
    }
    assert(out.deep_view() + Seq::<SiteView>::empty() =~= out.deep_view());
    out
}

} // verus!

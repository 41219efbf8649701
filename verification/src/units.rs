//! The functions of a file.

use vstd::prelude::*;

use crate::fallback::sites::Site;
use crate::lang::Language;
use crate::text::{after_last, around_first, last_piece, put, same, split_once, Chars};
use crate::tree::{child_of, Nodes, SyntaxTree};

verus! {

/// One measured function, method or closure.
pub struct FunctionMetrics {
    pub name: String,
    pub start_line: usize,
    pub end_line: usize,
    pub lines: usize,
    /// Cognitive complexity.
    pub cognitive: u32,
    /// It stands in a test region.
    pub in_test: bool,
    /// How many of its fallback sites are parse defaults.
    pub parse_defaults: usize,
    pub fallback_sites: Vec<Site>,
}

/// A function or method with a signature of its own.
pub struct Unit {
    pub node: usize,
    pub name: String,
}

/// A [`Unit`] by its contents.
pub struct UnitView {
    pub node: usize,
    pub name: Chars,
}

impl DeepView for Unit {
    type V = UnitView;

    open spec fn deep_view(&self) -> UnitView {
        UnitView { node: self.node, name: self.name@ }
    }
}

/// A node with a signature of its own; Rust closures and Python lambdas belong to their function.
pub open spec fn unit_kind(lang: Language, k: Chars) -> bool {
    match lang {
        Language::Rust => k == "function_item"@,
        Language::Python => k == "function_definition"@,
        _ => k == "function_declaration"@ || k == "generator_function_declaration"@ || k == "method_definition"@ || k
            == "function_expression"@ || k == "generator_function"@ || k == "arrow_function"@,
    }
}

fn is_unit_kind(lang: Language, k: &str) -> (r: bool)
    ensures
        r == unit_kind(lang, k@),
{
    match lang {
        Language::Rust => same(k, "function_item"),
        Language::Python => same(k, "function_definition"),
        _ => same(k, "function_declaration") || same(k, "generator_function_declaration") || same(k, "method_definition")
            || same(k, "function_expression") || same(k, "generator_function") || same(k, "arrow_function"),
    }
}

/// The node that names what a value is bound to.
pub open spec fn bound_name(t: Nodes, p: int) -> Option<usize> {
    let k = t[p].kind;
    if k == "variable_declarator"@ || k == "public_field_definition"@ {
        child_of(t, p, "name"@)
    } else if k == "field_definition"@ {
        child_of(t, p, "property"@)
    } else if k == "pair"@ {
        child_of(t, p, "key"@)
    } else if k == "assignment_expression"@ {
        child_of(t, p, "left"@)
    } else {
        None
    }
}

/// The name of a unit itself: its own, or that of what it is bound to.
pub open spec fn own_name(t: Nodes, n: int) -> Chars {
    match child_of(t, n, "name"@) {
        Some(c) => t[c as int].text,
        None => match t[n].parent {
            Some(p) => match bound_name(t, p as int) {
                Some(c) => t[c as int].text,
                None => "(anonymous)"@,
            },
            None => "(anonymous)"@,
        },
    }
}

/// A type without its arguments (`Repo<T>` → `Repo`).
pub open spec fn plain_type(s: Chars) -> Chars {
    match around_first(s, '<') {
        Some((before, after)) => before,
        None => s,
    }
}

/// The type or class that a node up from `cur` belongs to; a function in a function has none.
pub open spec fn owner_from(t: Nodes, cur: Option<usize>, lang: Language) -> Option<Chars>
    decreases
            (match cur {
                Some(p) => p + 1,
                None => 0,
            }),
{
    match cur {
        Some(p) => {
            let k = t[p as int].kind;
            if unit_kind(lang, k) {
                None
            } else if k == "impl_item"@ {
                match child_of(t, p as int, "type"@) {
                    Some(c) => Some(plain_type(t[c as int].text)),
                    None => None,
                }
            } else if k == "trait_item"@ || k == "class_definition"@ || k == "class_declaration"@ || k
                == "abstract_class_declaration"@ || k == "class"@ {
                match child_of(t, p as int, "name"@) {
                    Some(c) => Some(t[c as int].text),
                    None => None,
                }
            } else {
                match t[p as int].parent {
                    Some(q) => if q < p {
                        owner_from(t, Some(q), lang)
                    } else {
                        None
                    },
                    None => None,
                }
            }
        },
        None => None,
    }
}

/// The name of a unit: `Owner.name`, or `name` where nothing owns it.
pub open spec fn unit_name(t: Nodes, n: int, lang: Language) -> Chars {
    match owner_from(t, t[n].parent, lang) {
        Some(o) => o + "."@ + own_name(t, n),
        None => own_name(t, n),
    }
}

/// A unit's name without its owner (`Repo.discover` → `discover`).
pub open spec fn bare(name: Chars) -> Chars {
    after_last(name, "."@)
}

/// A unit's name without its owner.
pub fn bare_of(name: &str) -> (r: String)
    ensures
        r@ == bare(name@),
{
    last_piece(name, ".")
}

/// The units among the first `n` nodes, in document order.
pub open spec fn units_in(t: Nodes, lang: Language, n: int) -> Seq<UnitView>
    decreases n,
{
    if n <= 0 {
        Seq::empty()
    } else {
        let was = units_in(t, lang, n - 1);
        if t[n - 1].named && unit_kind(lang, t[n - 1].kind) {
            was.push(UnitView { node: (n - 1) as usize, name: unit_name(t, n - 1, lang) })
        } else {
            was
        }
    }
}

/// The units of a tree.
pub open spec fn tree_units(t: Nodes, lang: Language) -> Seq<UnitView> {
    units_in(t, lang, t.len() as int)
}

fn name_bound(t: &SyntaxTree, p: usize) -> (r: Option<usize>)
    requires
        t.ok(),
        p < t@.len(),
    ensures
        r == bound_name(t@, p as int),
        r matches Some(c) ==> c < t@.len(),
{
    if t.is(p, "variable_declarator") || t.is(p, "public_field_definition") {
        t.child(p, "name")
    } else if t.is(p, "field_definition") {
        t.child(p, "property")
    } else if t.is(p, "pair") {
        t.child(p, "key")
    } else if t.is(p, "assignment_expression") {
        t.child(p, "left")
    } else {
        None
    }
}

fn name_itself(t: &SyntaxTree, n: usize) -> (r: String)
    requires
        t.ok(),
        n < t@.len(),
    ensures
        r@ == own_name(t@, n as int),
{
    if let Some(c) = t.child(n, "name") {
        return t.text(c).to_owned();
    }
    if let Some(p) = t.parent(n) {
        if let Some(c) = name_bound(t, p) {
            return t.text(c).to_owned();
        }
    }
    "(anonymous)".to_owned()
}

fn owner(t: &SyntaxTree, n: usize, lang: Language) -> (r: Option<String>)
    requires
        t.ok(),
        n < t@.len(),
    ensures
        r.deep_view() == owner_from(t@, t@[n as int].parent, lang),
{
    let ghost whole = owner_from(t@, t@[n as int].parent, lang);
    let mut cur: Option<usize> = t.parent(n);
    loop
        invariant
            t.ok(),
            cur matches Some(p) ==> p < t@.len(),
            whole == owner_from(t@, t@[n as int].parent, lang),
            whole == owner_from(t@, cur, lang),
        decreases
                (match cur {
                    Some(p) => p + 1,
                    None => 0,
                }),
    {
        let p: usize = match cur {
            Some(p) => p,
            None => return None,
        };
        let k = t.kind(p);
        if is_unit_kind(lang, k) {
            return None;
        }
        if same(k, "impl_item") {
            return match t.child(p, "type") {
                Some(c) => {
                    let s = t.text(c);
                    match split_once(s, '<') {
                        Some((before, _)) => Some(before),
                        None => Some(s.to_owned()),
                    }
                },
                None => None,
            };
        }
        if same(k, "trait_item") || same(k, "class_definition") || same(k, "class_declaration") || same(
            k,
            "abstract_class_declaration",
        ) || same(k, "class") {
            return match t.child(p, "name") {
                Some(c) => Some(t.text(c).to_owned()),
                None => None,
            };
        }
        cur = t.parent(p);
    }
}

/// The name of a unit.
pub fn unit_name_of(t: &SyntaxTree, n: usize, lang: Language) -> (r: String)
    requires
        t.ok(),
        n < t@.len(),
    ensures
        r@ == unit_name(t@, n as int, lang),
{
    let own = name_itself(t, n);
    match owner(t, n, lang) {
        Some(mut o) => {
            o.append(".");
            o.append(own.as_str());
            o
        },
        None => own,
    }
}

/// The units of a tree, in document order.
pub fn unit_nodes(t: &SyntaxTree, lang: Language) -> (out: Vec<Unit>)
    requires
        t.ok(),
    ensures
        out.deep_view() == tree_units(t@, lang),
        forall|i: int| 0 <= i < out.len() ==> (#[trigger] out@[i]).node < t@.len(),
{
    let mut out: Vec<Unit> = Vec::new();
    let mut n: usize = 0;
    assert(out.deep_view() =~= Seq::<UnitView>::empty());
    while n < t.len()
        invariant
            n <= t@.len(),
            t.ok(),
            out.deep_view() == units_in(t@, lang, n as int),
            forall|i: int| 0 <= i < out.len() ==> (#[trigger] out@[i]).node < t@.len(),
        decreases t@.len() - n,
    {
        assert(t@[n as int] == t.nodes@[n as int].deep_view());
        if t.nodes[n].named && is_unit_kind(lang, t.kind(n)) {
            let name = unit_name_of(t, n, lang);
            put(&mut out, Unit { node: n, name });
        }
        n = n + 1;
    }
    out
}

} // verus!

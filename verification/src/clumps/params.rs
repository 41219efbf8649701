//! What a function takes and uses, stated over its nodes.

use vstd::prelude::*;

use crate::clumps::side::{
    comment_kind, ident_kind, inherited, param_at, param_name, params_from, passed, protocol, refs_from, refs_of,
    rust_skip, side_of, skip_of, slots_of, squeezed, unit_params, with_name, with_unit, with_units, FnView, ParamText,
    Reading, Skip,
};
use crate::config::Clumps;
use crate::discover::SourceFile;
use crate::lang::Language;
use crate::regions::{within, TestRegion};
use crate::text::{trimmed_start, without_leading, Chars};
use crate::tree::{child_of, named_at, named_kids, the_named_children_are_kept, tree_ok, Nodes};
use crate::units::{bare, tree_units, UnitView};

verus! {

proof fn param_kinds_differ()
    ensures
        "parameter"@.len() == 9,
        "identifier"@.len() == 10,
        "typed_parameter"@.len() == 15,
        "default_parameter"@.len() == 17,
        "typed_default_parameter"@.len() == 23,
        "required_parameter"@.len() == 18,
        "required_parameter"@[0] == 'r',
        "optional_parameter"@.len() == 18,
        "optional_parameter"@[0] == 'o',
{
    reveal_strlit("parameter");
    reveal_strlit("identifier");
    reveal_strlit("typed_parameter");
    reveal_strlit("default_parameter");
    reveal_strlit("typed_default_parameter");
    reveal_strlit("required_parameter");
    reveal_strlit("optional_parameter");
}

proof fn holder_kinds_differ()
    ensures
        "declaration_list"@.len() == 16,
        "declaration_list"@[0] == 'd',
        "block"@.len() == 5,
        "impl_item"@.len() == 9,
        "trait_item"@.len() == 10,
        "function_item"@.len() == 13,
        "source_file"@.len() == 11,
        "decorated_definition"@.len() == 20,
        "class_definition"@.len() == 16,
        "class_definition"@[0] == 'c',
{
    reveal_strlit("declaration_list");
    reveal_strlit("block");
    reveal_strlit("impl_item");
    reveal_strlit("trait_item");
    reveal_strlit("function_item");
    reveal_strlit("source_file");
    reveal_strlit("decorated_definition");
    reveal_strlit("class_definition");
}

// ---------- parameters ----------

/// What a method is called on.
pub open spec fn is_receiver(name: Chars) -> bool {
    name == "self"@ || name == "cls"@ || name == "this"@
}

/// Node `p` of a parameter list names a parameter by node `c`: a plain name, or a parameter with a
/// type, a default or both.
pub open spec fn names_parameter(t: Nodes, p: int, c: usize, lang: Language) -> bool {
    let k = t[p].kind;
    &&& t[c as int].kind == "identifier"@
    &&& match lang {
        Language::Rust => k == "parameter"@ && child_of(t, p, "pattern"@) == Some(c),
        Language::Python => {
            ||| k == "identifier"@ && c == p
            ||| k == "typed_parameter"@ && named_kids(t, p).len() > 0 && named_kids(t, p)[0] == c
            ||| (k == "default_parameter"@ || k == "typed_default_parameter"@) && child_of(t, p, "name"@) == Some(c)
        },
        _ => {
            ||| k == "identifier"@ && c == p
            ||| (k == "required_parameter"@ || k == "optional_parameter"@) && child_of(t, p, "pattern"@) == Some(c)
        },
    }
}

/// The type that a parameter states, with its spaces squeezed; in TypeScript without its colon.
pub open spec fn stated_type(t: Nodes, p: int, lang: Language) -> Option<Chars> {
    if t[p].kind == "identifier"@ {
        None
    } else {
        match child_of(t, p, "type"@) {
            Some(c) => Some(
                if lang == Language::Rust || lang == Language::Python {
                    squeezed(t[c as int].text)
                } else {
                    squeezed(without_leading(trimmed_start(t[c as int].text), ":"@))
                },
            ),
            None => None,
        }
    }
}

proof fn named_is_param(t: Nodes, p: int, c: usize, lang: Language)
    requires
        0 <= p < t.len() <= usize::MAX,
        names_parameter(t, p, c, lang),
        !is_receiver(t[c as int].text),
    ensures
        param_at(t, p, lang) == Some((t[c as int].text, stated_type(t, p, lang))),
{
    param_kinds_differ();
    assert(param_name(t, p, lang) == Some(c));
}

proof fn param_is_kept(t: Nodes, kids: Seq<usize>, lang: Language, max: usize, k: int, acc: Seq<ParamText>, j: int, want: ParamText)
    requires
        0 <= k <= j < kids.len(),
        acc.len() + kids.len() - k <= max,
        param_at(t, kids[j] as int, lang) == Some(want),
    ensures
        params_from(t, kids, lang, max, k, acc).contains(want),
    decreases j - k,
{
    let next = match param_at(t, kids[k] as int, lang) {
        Some(p) => acc.push(p),
        None => acc,
    };
    if k == j {
        params_grow(t, kids, lang, max, k + 1, next);
        assert(params_from(t, kids, lang, max, k, acc)[acc.len() as int] == want);
    } else {
        param_is_kept(t, kids, lang, max, k + 1, next, j, want);
    }
}

proof fn params_grow(t: Nodes, kids: Seq<usize>, lang: Language, max: usize, k: int, acc: Seq<ParamText>)
    ensures
        acc.len() <= params_from(t, kids, lang, max, k, acc).len(),
        forall|i: int| 0 <= i < acc.len() ==> #[trigger] params_from(t, kids, lang, max, k, acc)[i] == acc[i],
    decreases kids.len() - k,
{
    if 0 <= k < kids.len() && acc.len() < max {
        let next = match param_at(t, kids[k] as int, lang) {
            Some(p) => acc.push(p),
            None => acc,
        };
        params_grow(t, kids, lang, max, k + 1, next);
        assert forall|i: int| 0 <= i < acc.len() implies #[trigger] params_from(t, kids, lang, max, k, acc)[i] == acc[i] by {
            assert(next[i] == acc[i]);
        }
    }
}

/// Every parameter of a function that is no receiver is taken, with the type it states, where there
/// are not more than the settings look at.
pub proof fn every_parameter_is_taken(t: Nodes, n: int, lang: Language, max: usize, ps: usize, k: int, c: usize)
    requires
        t.len() <= usize::MAX,
        child_of(t, n, "parameters"@) == Some(ps),
        named_kids(t, ps as int).len() <= max,
        0 <= k < t[ps as int].children.len(),
        t[ps as int].children[k] < t.len(),
        t[t[ps as int].children[k] as int].named,
        names_parameter(t, t[ps as int].children[k] as int, c, lang),
        !is_receiver(t[c as int].text),
    ensures
        unit_params(t, n, lang, max).contains((t[c as int].text, stated_type(t, t[ps as int].children[k] as int, lang))),
{
    the_named_children_are_kept(t, ps as int);
    let kids = named_kids(t, ps as int);
    let p = t[ps as int].children[k];
    assert(kids.contains(p));
    let j = choose|j: int| 0 <= j < kids.len() && kids[j] == p;
    named_is_param(t, p as int, c, lang);
    param_is_kept(t, kids, lang, max, 0, Seq::empty(), j, (t[c as int].text, stated_type(t, p as int, lang)));
}

proof fn no_param_is_receiver(t: Nodes, kids: Seq<usize>, lang: Language, max: usize, k: int, acc: Seq<ParamText>)
    requires
        forall|i: int| 0 <= i < acc.len() ==> !is_receiver((#[trigger] acc[i]).0),
    ensures
        forall|i: int|
            0 <= i < params_from(t, kids, lang, max, k, acc).len() ==> !is_receiver((#[trigger] params_from(t, kids, lang, max, k, acc)[i]).0),
    decreases kids.len() - k,
{
    if 0 <= k < kids.len() && acc.len() < max {
        let next = match param_at(t, kids[k] as int, lang) {
            Some(p) => acc.push(p),
            None => acc,
        };
        assert forall|i: int| 0 <= i < next.len() implies !is_receiver((#[trigger] next[i]).0) by {
            if i < acc.len() {
                assert(next[i] == acc[i]);
            }
        }
        no_param_is_receiver(t, kids, lang, max, k + 1, next);
        assert(params_from(t, kids, lang, max, k, acc) == params_from(t, kids, lang, max, k + 1, next));
    } else {
        assert(params_from(t, kids, lang, max, k, acc) == acc);
    }
}

/// A receiver is never taken, nor more parameters than the settings look at.
pub proof fn a_receiver_is_never_taken(t: Nodes, n: int, lang: Language, max: usize, i: int)
    requires
        0 <= i < unit_params(t, n, lang, max).len(),
    ensures
        !is_receiver(unit_params(t, n, lang, max)[i].0),
{
    if let Some(ps) = child_of(t, n, "parameters"@) {
        no_param_is_receiver(t, named_kids(t, ps as int), lang, max, 0, Seq::empty());
    }
}

/// An arrow function with a bare parameter takes it.
pub proof fn a_bare_parameter_is_taken(t: Nodes, n: int, lang: Language, max: usize, p: usize)
    requires
        child_of(t, n, "parameters"@) is None,
        child_of(t, n, "parameter"@) == Some(p),
        t[p as int].kind == "identifier"@,
        !is_receiver(t[p as int].text),
    ensures
        unit_params(t, n, lang, max) == seq![(t[p as int].text, None::<Chars>)],
{
}

/// A parameter is unused where it has the prefix of unused ones or where the body never names it.
pub proof fn a_parameter_is_unused_unless_named(ps: Seq<ParamText>, prefix: Chars, refs: Seq<Chars>, i: int)
    requires
        0 <= i < ps.len(),
    ensures
        slots_of(ps, prefix, refs)[i].name == ps[i].0,
        slots_of(ps, prefix, refs)[i].ty == ps[i].1,
        slots_of(ps, prefix, refs)[i].unused <==> !refs.contains(ps[i].0) || prefix.len() > 0 && prefix.len() <= ps[i].0.len()
            && ps[i].0.take(prefix.len() as int) == prefix,
{
    let name = ps[i].0;
    if prefix.len() <= name.len() {
        assert(name.subrange(0, prefix.len() as int) =~= name.take(prefix.len() as int));
    }
}

// ---------- names ----------

/// A node that refers by its text.
pub open spec fn refers(kind: Chars) -> bool {
    ||| kind == "identifier"@
    ||| kind == "shorthand_property_identifier"@
    ||| kind == "shorthand_field_identifier"@
}

/// A node of a body that is read as a whole.
pub open spec fn read_whole(t: Nodes, n: int, top: int, lang: Language) -> bool {
    ident_kind(t[n].kind) || comment_kind(t[n].kind) || crate::clumps::side::capturing(t, n, top, lang)
}

proof fn with_name_keeps(s: Seq<Chars>, x: Chars)
    ensures
        with_name(s, x).contains(x),
        forall|y: Chars| s.contains(y) ==> #[trigger] with_name(s, x).contains(y),
{
    if !s.contains(x) {
        assert(s.push(x)[s.len() as int] == x);
        assert forall|y: Chars| s.contains(y) implies #[trigger] with_name(s, x).contains(y) by {
            let k = choose|k: int| 0 <= k < s.len() && s[k] == y;
            assert(s.push(x)[k] == y);
        }
    }
}

proof fn captures_keep(s: Chars, i: int, acc: Seq<Chars>)
    requires
        0 <= i <= s.len(),
    ensures
        forall|y: Chars| acc.contains(y) ==> #[trigger] crate::clumps::side::captures_from(s, i, acc).contains(y),
    decreases s.len() - i,
{
    if i < s.len() {
        if s[i] != '{' {
            captures_keep(s, i + 1, acc);
            assert(crate::clumps::side::captures_from(s, i, acc) == crate::clumps::side::captures_from(s, i + 1, acc));
        } else if i + 1 < s.len() && s[i + 1] == '{' {
            assert(i + 2 <= s.len());
            captures_keep(s, i + 2, acc);
            assert(crate::clumps::side::captures_from(s, i, acc) == crate::clumps::side::captures_from(s, i + 2, acc));
        } else {
            let j = crate::clumps::side::ident_end(s, i + 1);
            with_name_keeps(acc, s.subrange(i + 1, j));
            let more = if i + 1 < j < s.len() && (s[j] == '}' || s[j] == ':') {
                with_name(acc, s.subrange(i + 1, j))
            } else {
                acc
            };
            if i < j <= s.len() {
                captures_keep(s, j, more);
                assert(crate::clumps::side::captures_from(s, i, acc) == crate::clumps::side::captures_from(s, j, more));
            } else {
                assert(crate::clumps::side::captures_from(s, i, acc) == more);
            }
        }
    } else {
        assert(crate::clumps::side::captures_from(s, i, acc) == acc);
    }
}

proof fn refs_keep(t: Nodes, n: int, end: int, top: int, lang: Language, acc: Seq<Chars>)
    ensures
        forall|y: Chars| acc.contains(y) ==> #[trigger] refs_from(t, n, end, top, lang, acc).contains(y),
    decreases t.len() - n,
{
    if 0 <= n < end && end <= t.len() {
        let k = t[n].kind;
        let after = t[n].after as int;
        let next = if ident_kind(k) {
            with_name(acc, t[n].text)
        } else if crate::clumps::side::capturing(t, n, top, lang) {
            crate::clumps::side::captures_from(t[n].text, 0, acc)
        } else {
            acc
        };
        with_name_keeps(acc, t[n].text);
        captures_keep(t[n].text, 0, acc);
        if read_whole(t, n, top, lang) {
            if n < after <= t.len() {
                refs_keep(t, after, end, top, lang, next);
                assert(refs_from(t, n, end, top, lang, acc) == refs_from(t, after, end, top, lang, next));
            } else {
                assert(refs_from(t, n, end, top, lang, acc) == next);
            }
        } else {
            refs_keep(t, n + 1, end, top, lang, next);
            assert(refs_from(t, n, end, top, lang, acc) == refs_from(t, n + 1, end, top, lang, next));
        }
    } else {
        assert(refs_from(t, n, end, top, lang, acc) == acc);
    }
}

proof fn name_is_referred(t: Nodes, n: int, end: int, top: int, lang: Language, acc: Seq<Chars>, j: int)
    requires
        tree_ok(t),
        0 <= n <= j < end <= t.len(),
        refers(t[j].kind),
        forall|a: int| n <= a < j && read_whole(t, a, top, lang) ==> (#[trigger] t[a]).after <= j,
    ensures
        refs_from(t, n, end, top, lang, acc).contains(t[j].text),
    decreases j - n,
{
    assert(crate::tree::node_ok(t, n));
    let k = t[n].kind;
    let after = t[n].after as int;
    let next = if ident_kind(k) {
        with_name(acc, t[n].text)
    } else if crate::clumps::side::capturing(t, n, top, lang) {
        crate::clumps::side::captures_from(t[n].text, 0, acc)
    } else {
        acc
    };
    if n == j {
        with_name_keeps(acc, t[n].text);
        refs_keep(t, after, end, top, lang, next);
        assert(refs_from(t, n, end, top, lang, acc) == refs_from(t, after, end, top, lang, next));
    } else if read_whole(t, n, top, lang) {
        name_is_referred(t, after, end, top, lang, next, j);
        assert(refs_from(t, n, end, top, lang, acc) == refs_from(t, after, end, top, lang, next));
    } else {
        name_is_referred(t, n + 1, end, top, lang, next, j);
        assert(refs_from(t, n, end, top, lang, acc) == refs_from(t, n + 1, end, top, lang, next));
    }
}

/// Every identifier of a body that no comment or text encloses is a name that the body refers to.
pub proof fn a_body_refers_to_its_names(t: Nodes, body: int, lang: Language, j: int)
    requires
        tree_ok(t),
        0 <= body <= j < t[body].after,
        body < t.len(),
        refers(t[j].kind),
        forall|a: int| body <= a < j && read_whole(t, a, body, lang) ==> (#[trigger] t[a]).after <= j,
    ensures
        refs_of(t, body, lang).contains(t[j].text),
{
    assert(crate::tree::node_ok(t, body));
    name_is_referred(t, body, t[body].after as int, body, lang, Seq::empty(), j);
}

// ---------- what is left out ----------

/// A Rust function of a trait or of an implementation of one is left out where the settings say so; one
/// of a plain `impl`, or in another function, is not.
pub proof fn a_trait_function_is_left_out(t: Nodes, n: int, body: int, name: Chars, cfg: Clumps, b: usize, p: usize)
    requires
        0 <= n < t.len(),
        t[n].parent == Some(b),
        t[b as int].kind == "declaration_list"@ || t[b as int].kind == "block"@,
        t[b as int].parent == Some(p),
        p < b,
    ensures
        ({
            let r = skip_of(t, n, body, name, Language::Rust, cfg);
            let k = t[p as int].kind;
            &&& k == "impl_item"@ && child_of(t, p as int, "trait"@) is Some && cfg.skip_trait_impls ==> r == Some(Skip::TraitImpl)
            &&& k == "trait_item"@ && cfg.skip_trait_impls ==> r == Some(Skip::TraitImpl)
            &&& k == "impl_item"@ && child_of(t, p as int, "trait"@) is None ==> r is None
            &&& k == "function_item"@ ==> r is None
            &&& (k == "impl_item"@ || k == "trait_item"@) && !cfg.skip_trait_impls ==> r is None
        }),
{
    holder_kinds_differ();
    assert(rust_skip(t, Some(b), cfg.skip_trait_impls) == rust_skip(t, Some(p), cfg.skip_trait_impls));
}

/// A statement that does nothing: `pass`, a comment, a text or `...`.
pub open spec fn does_nothing(t: Nodes, s: int) -> bool {
    let k = t[s].kind;
    ||| k == "pass_statement"@
    ||| k == "comment"@
    ||| k == "expression_statement"@ && (named_at(t, s, 0) matches Some(e) && (t[e as int].kind == "string"@ || t[e as int].kind == "ellipsis"@))
}

/// A Python function is left out where its name is that of a protocol method, where it is an overload,
/// where its body does nothing, and where its class inherits; the last one as the trait functions of
/// Rust are.
pub proof fn a_python_function_is_left_out(t: Nodes, n: int, body: int, name: Chars, cfg: Clumps)
    ensures
        ({
            let r = skip_of(t, n, body, name, Language::Python, cfg);
            let idle = forall|k: int| 0 <= k < named_kids(t, body).len() ==> does_nothing(t, #[trigger] named_kids(t, body)[k] as int);
            let dunder = crate::clumps::side::dunder(name);
            let overload = t[n].parent matches Some(d) && t[d as int].kind == "decorated_definition"@ && crate::clumps::side::overloaded(t, d as int);
            &&& r == Some(Skip::Other) <==> cfg.skip_dunder && dunder || cfg.skip_overloads && overload || idle
            &&& r == Some(Skip::TraitImpl) <==> r != Some(Skip::Other) && cfg.skip_trait_impls && inherited(t, n)
        }),
{
}

/// A method of a Python class with superclasses inherits, decorated or not.
pub proof fn a_method_of_a_subclass_inherits(t: Nodes, n: int, b: usize, c: usize)
    requires
        t[n].parent == Some(b),
        t[b as int].kind == "block"@,
        t[b as int].parent == Some(c),
        t[c as int].kind == "class_definition"@,
    ensures
        inherited(t, n) <==> child_of(t, c as int, "superclasses"@) is Some,
{
    holder_kinds_differ();
}

/// A function that is handed to a call, as it is or in an object, is left out in TypeScript, and so is
/// a method of a class that extends another.
pub proof fn a_handed_function_is_left_out(t: Nodes, n: int, body: int, name: Chars, lang: Language, cfg: Clumps, p: usize)
    requires
        lang != Language::Rust && lang != Language::Python,
        cfg.skip_trait_impls,
        t[n].parent == Some(p),
    ensures
        t[p as int].kind == "arguments"@ ==> skip_of(t, n, body, name, lang, cfg) == Some(Skip::TraitImpl),
        forall|q: usize|
            (t[p as int].kind == "pair"@ || t[p as int].kind == "object"@ || t[p as int].kind == "method_definition"@ || t[p as int].kind
                == "parenthesized_expression"@ || t[p as int].kind == "as_expression"@ || t[p as int].kind == "satisfies_expression"@
                || t[p as int].kind == "type_assertion"@) && t[p as int].parent == Some(q) && q < p && t[q as int].kind == "arguments"@ && #[trigger] passed(
                t,
                Some(q),
            ) ==> skip_of(t, n, body, name, lang, cfg) == Some(Skip::TraitImpl),
{
}

// ---------- functions ----------

/// A unit that is neither a test, nor without a body, nor left out.
pub open spec fn is_taken(t: Nodes, u: UnitView, lang: Language, regions: Seq<TestRegion>, cfg: Clumps) -> bool {
    let n = u.node as int;
    &&& !(lang == Language::Rust && within(regions, t[n].start))
    &&& child_of(t, n, "body"@) matches Some(b) && skip_of(t, n, b as int, bare(u.name), lang, cfg) is None
    &&& !protocol(unit_params(t, n, lang, cfg.max_params), cfg.protocol_tuples.deep_view())
}

proof fn units_keep(r: Reading, t: Nodes, units: Seq<UnitView>, k: int, lang: Language, regions: Seq<TestRegion>, cfg: Clumps)
    ensures
        r.side.functions.len() <= with_units(r, t, units, k, lang, regions, cfg).side.functions.len(),
        forall|i: int|
            0 <= i < r.side.functions.len() ==> #[trigger] with_units(r, t, units, k, lang, regions, cfg).side.functions[i] == r.side.functions[i],
    decreases units.len() - k,
{
    if 0 <= k < units.len() {
        let next = with_unit(r, t, units[k], lang, regions, cfg);
        units_keep(next, t, units, k + 1, lang, regions, cfg);
        assert forall|i: int| 0 <= i < r.side.functions.len() implies #[trigger] with_units(r, t, units, k, lang, regions, cfg).side.functions[i]
            == r.side.functions[i] by {
            assert(next.side.functions[i] == r.side.functions[i]);
        }
    }
}

proof fn unit_is_listed(r: Reading, t: Nodes, units: Seq<UnitView>, k: int, lang: Language, regions: Seq<TestRegion>, cfg: Clumps, j: int)
    requires
        0 <= k <= j < units.len(),
        !cfg.dedupe_same_name_in_file,
        is_taken(t, units[j], lang, regions, cfg),
    ensures
        has_function(with_units(r, t, units, k, lang, regions, cfg).side.functions, units[j].name, t[units[j].node as int].line),
    decreases j - k,
{
    let next = with_unit(r, t, units[k], lang, regions, cfg);
    if k == j {
        units_keep(next, t, units, k + 1, lang, regions, cfg);
        let x = r.side.functions.len() as int;
        assert(next.side.functions.len() == x + 1);
        assert(with_units(r, t, units, k, lang, regions, cfg).side.functions[x] == next.side.functions[x]);
    } else {
        unit_is_listed(next, t, units, k + 1, lang, regions, cfg, j);
    }
}

/// A function is listed on its line.
pub open spec fn has_function(list: Seq<FnView>, name: Chars, line: usize) -> bool {
    exists|x: int| 0 <= x < list.len() && (#[trigger] list[x]).name == name && list[x].line == line
}

/// Every function of a file that is not left out is listed, where names that repeat are not dropped.
pub proof fn every_taken_function_is_listed(t: Nodes, f: SourceFile, regions: Seq<TestRegion>, cfg: Clumps, j: int)
    requires
        0 <= j < tree_units(t, f.lang).len(),
        !cfg.dedupe_same_name_in_file,
        is_taken(t, tree_units(t, f.lang)[j], f.lang, regions, cfg),
    ensures
        has_function(
            side_of(Some(t), f, regions, cfg).functions,
            tree_units(t, f.lang)[j].name,
            t[tree_units(t, f.lang)[j].node as int].line,
        ),
{
    let units = tree_units(t, f.lang);
    unit_is_listed(
        Reading { side: crate::clumps::side::blank_side(f.path@), seen: Seq::empty() },
        t,
        units,
        0,
        f.lang,
        regions,
        cfg,
        j,
    );
}

} // verus!

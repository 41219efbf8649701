//! Receiver chains, and the literals that stand for a default.

use vstd::prelude::*;

use crate::config::Fallback;
use crate::lang::Language;
use crate::text::{list_has, plus, same, Chars};
use crate::tree::{child_of, named_at, named_kids, Nodes, SyntaxTree};

verus! {

/// Characters of a default or binding kept in a site.
pub const TEXT_LEN: usize = 40;

/// A text cut to its first 40 characters.
pub open spec fn cut_of(s: Chars) -> Chars {
    if s.len() <= TEXT_LEN {
        s
    } else {
        s.take(TEXT_LEN - 1) + "…"@
    }
}

/// A text cut to its first 40 characters.
pub fn cut(s: &str) -> (out: String)
    ensures
        out@ == cut_of(s@),
{
    let a = crate::text::chars(s);
    if a.len() <= TEXT_LEN {
        s.to_owned()
    } else {
        plus(crate::text::slice(&a, 0, TEXT_LEN - 1), "…")
    }
}

/// The nodes of `kids` but comments.
pub open spec fn uncommented(t: Nodes, kids: Seq<usize>) -> Seq<usize>
    decreases kids.len(),
{
    if kids.len() == 0 {
        Seq::empty()
    } else {
        let rest = uncommented(t, kids.drop_last());
        if t[kids.last() as int].kind == "comment"@ {
            rest
        } else {
            rest.push(kids.last())
        }
    }
}

/// The arguments in a list of them.
pub open spec fn args_of(t: Nodes, i: int) -> Seq<usize> {
    uncommented(t, named_kids(t, i))
}

/// The arguments in a list of them.
pub fn named_args(t: &SyntaxTree, i: usize) -> (out: Vec<usize>)
    requires
        t.ok(),
        i < t@.len(),
    ensures
        out@ == args_of(t@, i as int),
        forall|k: int| 0 <= k < out@.len() ==> i < #[trigger] out@[k] < t@.len(),
{
    let kids = t.named_children(i);
    let ghost view = kids@;
    proof {
        crate::tree::named_kids_are_later(t@, i as int);
    }
    let mut out: Vec<usize> = Vec::new();
    let mut k: usize = 0;
    assert(view.take(0) =~= Seq::<usize>::empty());
    while k < kids.len()
        invariant
            k <= kids.len(),
            view == kids@,
            t.ok(),
            forall|j: int| 0 <= j < view.len() ==> i < #[trigger] view[j] < t@.len(),
            forall|j: int| 0 <= j < out@.len() ==> i < #[trigger] out@[j] < t@.len(),
            out@ == uncommented(t@, view.take(k as int)),
        decreases kids.len() - k,
    {
        assert(view.take(k + 1).drop_last() =~= view.take(k as int));
        assert(i < view[k as int] < t@.len());
        if !t.is(kids[k], "comment") {
            out.push(kids[k]);
        }
        k = k + 1;
    }
    assert(view.take(view.len() as int) =~= view);
    out
}

/// The node that names what a callee calls: `x.parse` → `parse`, `t.parse::<i64>` → `parse`,
/// `std::str::from_utf8` → `from_utf8`, `JSON.parse` → `parse`.
pub open spec fn callee(t: Nodes, f: usize) -> Option<usize> {
    let kind = t[f as int].kind;
    if kind == "identifier"@ {
        Some(f)
    } else if kind == "field_expression"@ {
        child_of(t, f as int, "field"@)
    } else if kind == "generic_function"@ {
        match child_of(t, f as int, "function"@) {
            Some(g) => if t[g as int].kind == "field_expression"@ {
                child_of(t, g as int, "field"@)
            } else if t[g as int].kind == "scoped_identifier"@ {
                child_of(t, g as int, "name"@)
            } else if t[g as int].kind == "identifier"@ {
                Some(g)
            } else {
                None
            },
            None => None,
        }
    } else if kind == "scoped_identifier"@ {
        child_of(t, f as int, "name"@)
    } else if kind == "attribute"@ {
        child_of(t, f as int, "attribute"@)
    } else if kind == "member_expression"@ {
        child_of(t, f as int, "property"@)
    } else {
        None
    }
}

/// The node that names what a callee calls.
pub fn callee_name(t: &SyntaxTree, f: usize) -> (r: Option<usize>)
    requires
        t.ok(),
        f < t@.len(),
    ensures
        r == callee(t@, f),
        r matches Some(n) ==> n < t@.len(),
{
    if t.is(f, "identifier") {
        Some(f)
    } else if t.is(f, "field_expression") {
        t.child(f, "field")
    } else if t.is(f, "generic_function") {
        match t.child(f, "function") {
            Some(g) => if t.is(g, "field_expression") {
                t.child(g, "field")
            } else if t.is(g, "scoped_identifier") {
                t.child(g, "name")
            } else if t.is(g, "identifier") {
                Some(g)
            } else {
                None
            },
            None => None,
        }
    } else if t.is(f, "scoped_identifier") {
        t.child(f, "name")
    } else if t.is(f, "attribute") {
        t.child(f, "attribute")
    } else if t.is(f, "member_expression") {
        t.child(f, "property")
    } else {
        None
    }
}

/// The calls that take input apart.
pub open spec fn transforms(lang: Language, cfg: Fallback) -> Seq<Chars> {
    match lang {
        Language::Rust => cfg.parse_calls.deep_view(),
        Language::Python => cfg.parse_calls_python.deep_view(),
        _ => cfg.parse_calls_ts.deep_view(),
    }
}

/// A call.
pub open spec fn is_call(kind: Chars) -> bool {
    kind == "call_expression"@ || kind == "call"@
}

/// The next node down a receiver chain: the value of a field access, the operand of `?`,
/// parentheses, `&` or `await`, the object of a member or subscript. Arguments are never entered.
pub open spec fn chain_next(t: Nodes, n: int, lang: Language) -> Option<usize> {
    let kind = t[n].kind;
    match lang {
        Language::Rust => if kind == "field_expression"@ {
            child_of(t, n, "value"@)
        } else if kind == "generic_function"@ {
            child_of(t, n, "function"@)
        } else if kind == "try_expression"@ || kind == "parenthesized_expression"@ || kind == "await_expression"@ || kind
            == "reference_expression"@ || kind == "unary_expression"@ {
            named_at(t, n, 0)
        } else {
            None
        },
        Language::Python => if kind == "attribute"@ {
            child_of(t, n, "object"@)
        } else if kind == "subscript"@ {
            child_of(t, n, "value"@)
        } else if kind == "parenthesized_expression"@ || kind == "await"@ {
            named_at(t, n, 0)
        } else {
            None
        },
        _ => if kind == "member_expression"@ || kind == "subscript_expression"@ {
            child_of(t, n, "object"@)
        } else if kind == "parenthesized_expression"@ || kind == "non_null_expression"@ || kind == "as_expression"@ || kind
            == "satisfies_expression"@ || kind == "await_expression"@ {
            named_at(t, n, 0)
        } else {
            None
        },
    }
}

/// The first transform met walking the receiver chain down from `n`.
pub open spec fn transform_from(t: Nodes, n: int, lang: Language, names: Seq<Chars>) -> Option<Chars>
    decreases t.len() - n,
{
    if n < 0 || n >= t.len() {
        None
    } else {
        let called = if is_call(t[n].kind) {
            match child_of(t, n, "function"@) {
                Some(f) => match callee(t, f) {
                    Some(c) => if names.contains(t[c as int].text) {
                        Some(t[c as int].text)
                    } else {
                        None
                    },
                    None => None,
                },
                None => None,
            }
        } else {
            None
        };
        let next = if is_call(t[n].kind) {
            child_of(t, n, "function"@)
        } else {
            chain_next(t, n, lang)
        };
        match called {
            Some(name) => Some(name),
            None => match next {
                Some(m) => if n < m < t.len() {
                    transform_from(t, m as int, lang, names)
                } else {
                    None
                },
                None => None,
            },
        }
    }
}

fn go_down(t: &SyntaxTree, n: usize, lang: Language) -> (r: Option<usize>)
    requires
        t.ok(),
        n < t@.len(),
    ensures
        r == chain_next(t@, n as int, lang),
        r matches Some(m) ==> n < m < t@.len(),
{
    match lang {
        Language::Rust => if t.is(n, "field_expression") {
            t.child(n, "value")
        } else if t.is(n, "generic_function") {
            t.child(n, "function")
        } else if t.is(n, "try_expression") || t.is(n, "parenthesized_expression") || t.is(n, "await_expression") || t.is(
            n,
            "reference_expression",
        ) || t.is(n, "unary_expression") {
            t.named_child(n, 0)
        } else {
            None
        },
        Language::Python => if t.is(n, "attribute") {
            t.child(n, "object")
        } else if t.is(n, "subscript") {
            t.child(n, "value")
        } else if t.is(n, "parenthesized_expression") || t.is(n, "await") {
            t.named_child(n, 0)
        } else {
            None
        },
        _ => if t.is(n, "member_expression") || t.is(n, "subscript_expression") {
            t.child(n, "object")
        } else if t.is(n, "parenthesized_expression") || t.is(n, "non_null_expression") || t.is(n, "as_expression") || t.is(
            n,
            "satisfies_expression",
        ) || t.is(n, "await_expression") {
            t.named_child(n, 0)
        } else {
            None
        },
    }
}

/// The first fallible transform met walking the receiver chain down from `start`:
/// `a.unwrap_or(b.next())` has `next` in an argument, not in the chain.
pub fn transform_in_chain(t: &SyntaxTree, start: usize, lang: Language, cfg: &Fallback) -> (r: Option<String>)
    requires
        t.ok(),
        start < t@.len(),
    ensures
        r.deep_view() == transform_from(t@, start as int, lang, transforms(lang, *cfg)),
{
    let names = match lang {
        Language::Rust => &cfg.parse_calls,
        Language::Python => &cfg.parse_calls_python,
        _ => &cfg.parse_calls_ts,
    };
    let ghost want = transforms(lang, *cfg);
    let mut n: usize = start;
    loop
        invariant
            t.ok(),
            n < t@.len(),
            names.deep_view() == want,
            want == transforms(lang, *cfg),
            transform_from(t@, start as int, lang, want) == transform_from(t@, n as int, lang, want),
        decreases t@.len() - n,
    {
        let next = if t.is(n, "call_expression") || t.is(n, "call") {
            let f = t.child(n, "function");
            if let Some(f) = f {
                if let Some(c) = callee_name(t, f) {
                    if list_has(names, t.text(c)) {
                        return Some(t.text(c).to_owned());
                    }
                }
            }
            f
        } else {
            go_down(t, n, lang)
        };
        match next {
            Some(m) => {
                n = m;
            },
            None => {
                return None;
            },
        }
    }
}

// ---------- literals ----------

/// A literal token of Rust.
pub open spec fn rust_token(kind: Chars) -> bool {
    kind == "integer_literal"@ || kind == "float_literal"@ || kind == "string_literal"@ || kind == "raw_string_literal"@
        || kind == "char_literal"@ || kind == "boolean_literal"@ || kind == "unit_expression"@
}

/// The node a Rust default is looked for in: behind `&`, parentheses or a closure.
pub open spec fn rust_inner(t: Nodes, n: int) -> Option<usize> {
    let kind = t[n].kind;
    if kind == "reference_expression"@ || kind == "parenthesized_expression"@ {
        named_at(t, n, 0)
    } else if kind == "closure_expression"@ {
        match child_of(t, n, "body"@) {
            Some(body) => if t[body as int].kind == "block"@ {
                let inner = args_of(t, body as int);
                if inner.len() == 1 {
                    Some(inner[0])
                } else {
                    None
                }
            } else {
                Some(body)
            },
            None => None,
        }
    } else {
        None
    }
}

/// The literal a Rust node is by itself.
pub open spec fn rust_plain(t: Nodes, n: int, empty: Seq<Chars>) -> Option<Chars> {
    let kind = t[n].kind;
    let text = t[n].text;
    if rust_token(kind) {
        Some(text)
    } else if kind == "unary_expression"@ {
        match named_at(t, n, 0) {
            Some(inner) => if t[inner as int].kind == "integer_literal"@ || t[inner as int].kind == "float_literal"@ {
                Some(text)
            } else {
                None
            },
            None => None,
        }
    } else if kind == "array_expression"@ {
        if named_kids(t, n).len() == 0 {
            Some("[]"@)
        } else {
            None
        }
    } else if kind == "identifier"@ {
        if text == "None"@ {
            Some("None"@)
        } else {
            None
        }
    } else if kind == "scoped_identifier"@ {
        if empty.contains(text) {
            Some(text + "()"@)
        } else {
            None
        }
    } else if kind == "call_expression"@ {
        match (child_of(t, n, "function"@), child_of(t, n, "arguments"@)) {
            (Some(f), Some(a)) => if named_kids(t, a as int).len() == 0 && empty.contains(t[f as int].text) {
                Some(t[f as int].text + "()"@)
            } else {
                None
            },
            _ => None,
        }
    } else {
        None
    }
}

/// The literal a Rust default is, as text: a literal token (behind `&`, parentheses or a minus),
/// `()`, `[]`, `None`, a call of an empty constructor, or a closure returning one or the bare
/// constructor path.
pub open spec fn rust_literal_of(t: Nodes, n: int, empty: Seq<Chars>) -> Option<Chars>
    decreases t.len() - n,
{
    if n < 0 || n >= t.len() {
        None
    } else {
        match rust_plain(t, n, empty) {
            Some(text) => Some(text),
            None => match rust_inner(t, n) {
                Some(m) => if n < m < t.len() {
                    rust_literal_of(t, m as int, empty)
                } else {
                    None
                },
                None => None,
            },
        }
    }
}

fn plain_rust(t: &SyntaxTree, n: usize, empty: &Vec<String>) -> (r: Option<String>)
    requires
        t.ok(),
        n < t@.len(),
    ensures
        r.deep_view() == rust_plain(t@, n as int, empty.deep_view()),
{
    let text = t.text(n);
    if t.is(n, "integer_literal") || t.is(n, "float_literal") || t.is(n, "string_literal") || t.is(
        n,
        "raw_string_literal",
    ) || t.is(n, "char_literal") || t.is(n, "boolean_literal") || t.is(n, "unit_expression") {
        Some(text.to_owned())
    } else if t.is(n, "unary_expression") {
        match t.named_child(n, 0) {
            Some(inner) => if t.is(inner, "integer_literal") || t.is(inner, "float_literal") {
                Some(text.to_owned())
            } else {
                None
            },
            None => None,
        }
    } else if t.is(n, "array_expression") {
        if t.named_children(n).len() == 0 {
            Some("[]".to_owned())
        } else {
            None
        }
    } else if t.is(n, "identifier") {
        if same(text, "None") {
            Some("None".to_owned())
        } else {
            None
        }
    } else if t.is(n, "scoped_identifier") {
        if list_has(empty, text) {
            Some(plus(text.to_owned(), "()"))
        } else {
            None
        }
    } else if t.is(n, "call_expression") {
        match (t.child(n, "function"), t.child(n, "arguments")) {
            (Some(f), Some(a)) => if t.named_children(a).len() == 0 && list_has(empty, t.text(f)) {
                Some(plus(t.text(f).to_owned(), "()"))
            } else {
                None
            },
            _ => None,
        }
    } else {
        None
    }
}

fn inner_rust(t: &SyntaxTree, n: usize) -> (r: Option<usize>)
    requires
        t.ok(),
        n < t@.len(),
    ensures
        r == rust_inner(t@, n as int),
        r matches Some(m) ==> n < m < t@.len(),
{
    if t.is(n, "reference_expression") || t.is(n, "parenthesized_expression") {
        t.named_child(n, 0)
    } else if t.is(n, "closure_expression") {
        match t.child(n, "body") {
            Some(body) => if t.is(body, "block") {
                let inner = named_args(t, body);
                if inner.len() == 1 {
                    assert(body < inner@[0] < t@.len());
                    Some(inner[0])
                } else {
                    None
                }
            } else {
                Some(body)
            },
            None => None,
        }
    } else {
        None
    }
}

/// The literal a Rust default is, as text.
pub fn rust_literal(t: &SyntaxTree, arg: usize, cfg: &Fallback) -> (r: Option<String>)
    requires
        t.ok(),
        arg < t@.len(),
    ensures
        r.deep_view() == rust_literal_of(t@, arg as int, cfg.empty_constructors.deep_view()),
{
    let empty = &cfg.empty_constructors;
    let ghost ev = empty.deep_view();
    let mut n: usize = arg;
    loop
        invariant
            t.ok(),
            n < t@.len(),
            ev == empty.deep_view(),
            ev == cfg.empty_constructors.deep_view(),
            rust_literal_of(t@, arg as int, ev) == rust_literal_of(t@, n as int, ev),
        decreases t@.len() - n,
    {
        let plain = plain_rust(t, n, empty);
        if plain.is_some() {
            return plain;
        }
        match inner_rust(t, n) {
            Some(m) => {
                n = m;
            },
            None => {
                return None;
            },
        }
    }
}

/// A literal token of Python.
pub open spec fn python_token(kind: Chars) -> bool {
    kind == "dictionary"@ || kind == "list"@ || kind == "tuple"@ || kind == "set"@ || kind == "none"@ || kind == "string"@
        || kind == "concatenated_string"@ || kind == "integer"@ || kind == "float"@ || kind == "true"@ || kind == "false"@
}

/// The literal a Python default is, as text.
pub open spec fn python_literal_of(t: Nodes, n: int) -> Option<Chars>
    decreases t.len() - n,
{
    if n < 0 || n >= t.len() {
        None
    } else if python_token(t[n].kind) {
        Some(t[n].text)
    } else if t[n].kind == "parenthesized_expression"@ {
        match named_at(t, n, 0) {
            Some(m) => if n < m < t.len() {
                python_literal_of(t, m as int)
            } else {
                None
            },
            None => None,
        }
    } else if t[n].kind == "unary_operator"@ {
        match named_at(t, n, 0) {
            Some(m) => if t[m as int].kind == "integer"@ || t[m as int].kind == "float"@ {
                Some(t[n].text)
            } else {
                None
            },
            None => None,
        }
    } else {
        None
    }
}

/// The literal a Python default is, as text.
pub fn python_literal(t: &SyntaxTree, arg: usize) -> (r: Option<String>)
    requires
        t.ok(),
        arg < t@.len(),
    ensures
        r.deep_view() == python_literal_of(t@, arg as int),
{
    let mut n: usize = arg;
    loop
        invariant
            t.ok(),
            n < t@.len(),
            python_literal_of(t@, arg as int) == python_literal_of(t@, n as int),
        decreases t@.len() - n,
    {
        if t.is(n, "dictionary") || t.is(n, "list") || t.is(n, "tuple") || t.is(n, "set") || t.is(n, "none") || t.is(
            n,
            "string",
        ) || t.is(n, "concatenated_string") || t.is(n, "integer") || t.is(n, "float") || t.is(n, "true") || t.is(
            n,
            "false",
        ) {
            return Some(t.text(n).to_owned());
        }
        if t.is(n, "parenthesized_expression") {
            match t.named_child(n, 0) {
                Some(m) => {
                    n = m;
                },
                None => {
                    return None;
                },
            }
        } else {
            if t.is(n, "unary_operator") {
                if let Some(m) = t.named_child(n, 0) {
                    if t.is(m, "integer") || t.is(m, "float") {
                        return Some(t.text(n).to_owned());
                    }
                }
            }
            return None;
        }
    }
}

/// A literal token of TypeScript.
pub open spec fn ts_token(kind: Chars) -> bool {
    kind == "object"@ || kind == "array"@ || kind == "string"@ || kind == "template_string"@ || kind == "number"@ || kind
        == "null"@ || kind == "undefined"@ || kind == "true"@ || kind == "false"@
}

/// A wrapper a TypeScript literal is looked for in.
pub open spec fn ts_wrapper(kind: Chars) -> bool {
    kind == "parenthesized_expression"@ || kind == "as_expression"@ || kind == "satisfies_expression"@
}

/// The literal a TypeScript default is, as text.
pub open spec fn ts_literal_of(t: Nodes, n: int) -> Option<Chars>
    decreases t.len() - n,
{
    if n < 0 || n >= t.len() {
        None
    } else if ts_token(t[n].kind) {
        Some(t[n].text)
    } else if ts_wrapper(t[n].kind) {
        match named_at(t, n, 0) {
            Some(m) => if n < m < t.len() {
                ts_literal_of(t, m as int)
            } else {
                None
            },
            None => None,
        }
    } else if t[n].kind == "unary_expression"@ {
        match named_at(t, n, 0) {
            Some(m) => if t[m as int].kind == "number"@ {
                Some(t[n].text)
            } else {
                None
            },
            None => None,
        }
    } else {
        None
    }
}

/// The literal a TypeScript default is, as text.
pub fn ts_literal(t: &SyntaxTree, arg: usize) -> (r: Option<String>)
    requires
        t.ok(),
        arg < t@.len(),
    ensures
        r.deep_view() == ts_literal_of(t@, arg as int),
{
    let mut n: usize = arg;
    loop
        invariant
            t.ok(),
            n < t@.len(),
            ts_literal_of(t@, arg as int) == ts_literal_of(t@, n as int),
        decreases t@.len() - n,
    {
        if t.is(n, "object") || t.is(n, "array") || t.is(n, "string") || t.is(n, "template_string") || t.is(n, "number")
            || t.is(n, "null") || t.is(n, "undefined") || t.is(n, "true") || t.is(n, "false") {
            return Some(t.text(n).to_owned());
        }
        if t.is(n, "parenthesized_expression") || t.is(n, "as_expression") || t.is(n, "satisfies_expression") {
            match t.named_child(n, 0) {
                Some(m) => {
                    n = m;
                },
                None => {
                    return None;
                },
            }
        } else {
            if t.is(n, "unary_expression") {
                if let Some(m) = t.named_child(n, 0) {
                    if t.is(m, "number") {
                        return Some(t.text(n).to_owned());
                    }
                }
            }
            return None;
        }
    }
}

} // verus!

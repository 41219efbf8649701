//! When a default hides a failure, stated over the nodes of a tree.

use vstd::prelude::*;

use crate::config::Fallback;
use crate::fallback::literals::{
    args_of, callee, cut_of, python_literal_of, rust_literal_of, transform_from, ts_literal_of, uncommented,
};
use crate::fallback::reasons::{parse_defaults_in, reason_of};
use crate::fallback::sites::{
    bare_of, binding_from, found_at, site_at, sites_from, sites_of, SiteKind, SiteView,
};
use crate::lang::Language;
use crate::text::Chars;
use crate::tree::{child_of, named_at, named_kids, Nodes};
use crate::units::FunctionMetrics;

verus! {

// ---------- calls ----------

/// Node `c` names what is called where the function of the call is node `f`: an identifier names
/// itself, a path its last segment, a member access its member; type arguments aside.
pub open spec fn names_callee(t: Nodes, f: usize, c: usize) -> bool {
    ||| t[f as int].kind == "identifier"@ && c == f
    ||| t[f as int].kind == "field_expression"@ && child_of(t, f as int, "field"@) == Some(c)
    ||| t[f as int].kind == "scoped_identifier"@ && child_of(t, f as int, "name"@) == Some(c)
    ||| t[f as int].kind == "attribute"@ && child_of(t, f as int, "attribute"@) == Some(c)
    ||| t[f as int].kind == "member_expression"@ && child_of(t, f as int, "property"@) == Some(c)
    ||| t[f as int].kind == "generic_function"@ && exists|g: usize| #[trigger]
        child_of(t, f as int, "function"@) == Some(g) && {
            ||| t[g as int].kind == "identifier"@ && c == g
            ||| t[g as int].kind == "field_expression"@ && child_of(t, g as int, "field"@) == Some(c)
            ||| t[g as int].kind == "scoped_identifier"@ && child_of(t, g as int, "name"@) == Some(c)
        }
}

/// A call names what it calls, and nothing else does.
pub proof fn a_call_is_named_by_its_last_part(t: Nodes, f: usize)
    ensures
        forall|c: usize| #[trigger] names_callee(t, f, c) <==> callee(t, f) == Some(c),
{
    kinds_of_functions_differ();
    assert forall|c: usize| #[trigger] names_callee(t, f, c) <==> callee(t, f) == Some(c) by {
        if t[f as int].kind == "generic_function"@ {
            match child_of(t, f as int, "function"@) {
                Some(g) => {
                    assert(child_of(t, f as int, "function"@) == Some(g));
                },
                None => {},
            }
        }
    }
}

proof fn kinds_of_functions_differ()
    ensures
        "identifier"@ != "field_expression"@,
        "identifier"@ != "generic_function"@,
        "identifier"@ != "scoped_identifier"@,
        "identifier"@ != "attribute"@,
        "identifier"@ != "member_expression"@,
        "field_expression"@ != "generic_function"@,
        "field_expression"@ != "scoped_identifier"@,
        "field_expression"@ != "attribute"@,
        "field_expression"@ != "member_expression"@,
        "generic_function"@ != "scoped_identifier"@,
        "generic_function"@ != "attribute"@,
        "generic_function"@ != "member_expression"@,
        "scoped_identifier"@ != "attribute"@,
        "scoped_identifier"@ != "member_expression"@,
        "attribute"@ != "member_expression"@,
{
    reveal_strlit("identifier");
    reveal_strlit("field_expression");
    reveal_strlit("generic_function");
    reveal_strlit("scoped_identifier");
    reveal_strlit("attribute");
    reveal_strlit("member_expression");
    assert("identifier"@.len() == 10);
    assert("field_expression"@[0] == 'f');
    assert("generic_function"@[0] == 'g');
    assert("scoped_identifier"@[0] == 's');
    assert("attribute"@[0] == 'a');
    assert("member_expression"@[0] == 'm');
    assert("identifier"@[0] == 'i');
}

// ---------- chains ----------

/// Node `m` is the next one down the receiver chain from `n`.
pub open spec fn goes_to(t: Nodes, n: int, m: usize, lang: Language) -> bool {
    let k = t[n].kind;
    if k == "call_expression"@ || k == "call"@ {
        child_of(t, n, "function"@) == Some(m)
    } else if lang == Language::Rust {
        ||| k == "field_expression"@ && child_of(t, n, "value"@) == Some(m)
        ||| k == "generic_function"@ && child_of(t, n, "function"@) == Some(m)
        ||| k == "try_expression"@ && named_at(t, n, 0) == Some(m)
        ||| k == "parenthesized_expression"@ && named_at(t, n, 0) == Some(m)
        ||| k == "await_expression"@ && named_at(t, n, 0) == Some(m)
        ||| k == "reference_expression"@ && named_at(t, n, 0) == Some(m)
        ||| k == "unary_expression"@ && named_at(t, n, 0) == Some(m)
    } else if lang == Language::Python {
        ||| k == "attribute"@ && child_of(t, n, "object"@) == Some(m)
        ||| k == "subscript"@ && child_of(t, n, "value"@) == Some(m)
        ||| k == "parenthesized_expression"@ && named_at(t, n, 0) == Some(m)
        ||| k == "await"@ && named_at(t, n, 0) == Some(m)
    } else {
        ||| k == "member_expression"@ && child_of(t, n, "object"@) == Some(m)
        ||| k == "subscript_expression"@ && child_of(t, n, "object"@) == Some(m)
        ||| k == "parenthesized_expression"@ && named_at(t, n, 0) == Some(m)
        ||| k == "non_null_expression"@ && named_at(t, n, 0) == Some(m)
        ||| k == "as_expression"@ && named_at(t, n, 0) == Some(m)
        ||| k == "satisfies_expression"@ && named_at(t, n, 0) == Some(m)
        ||| k == "await_expression"@ && named_at(t, n, 0) == Some(m)
    }
}

/// Node `n` is a call of one of `names`, which is the text of node `c`.
pub open spec fn calls_one(t: Nodes, n: int, c: usize, names: Seq<Chars>) -> bool {
    &&& t[n].kind == "call_expression"@ || t[n].kind == "call"@
    &&& exists|f: usize| #[trigger] child_of(t, n, "function"@) == Some(f) && names_callee(t, f, c)
    &&& names.contains(t[c as int].text)
}

/// A chain that starts at a call of a transform has that transform; one that starts elsewhere has
/// the transform of the chain below it; and one that goes nowhere has none.
pub proof fn a_chain_has_its_first_transform(t: Nodes, n: int, lang: Language, names: Seq<Chars>)
    requires
        0 <= n < t.len(),
    ensures
        forall|c: usize| #[trigger] calls_one(t, n, c, names) ==> transform_from(t, n, lang, names) == Some(t[c as int].text),
        (forall|c: usize| !#[trigger] calls_one(t, n, c, names)) ==> {
            &&& forall|m: usize|
                n < m < t.len() && #[trigger] goes_to(t, n, m, lang) ==> transform_from(t, n, lang, names) == transform_from(
                    t,
                    m as int,
                    lang,
                    names,
                )
            &&& (forall|m: usize| !#[trigger] goes_to(t, n, m, lang)) ==> transform_from(t, n, lang, names) is None
        },
{
    chain_kinds_differ();
    let call = t[n].kind == "call_expression"@ || t[n].kind == "call"@;
    match child_of(t, n, "function"@) {
        Some(f) => {
            a_call_is_named_by_its_last_part(t, f);
            if call {
                match callee(t, f) {
                    Some(c) => {
                        assert(names_callee(t, f, c));
                        if names.contains(t[c as int].text) {
                            assert(calls_one(t, n, c, names));
                        }
                        assert forall|d: usize| #[trigger] calls_one(t, n, d, names) implies d == c by {
                            assert(names_callee(t, f, d));
                        }
                    },
                    None => {
                        assert forall|d: usize| !#[trigger] calls_one(t, n, d, names) by {
                            assert(!names_callee(t, f, d));
                        }
                    },
                }
            }
        },
        None => {},
    }
    if forall|m: usize| !#[trigger] goes_to(t, n, m, lang) {
        let next = if call {
            child_of(t, n, "function"@)
        } else {
            crate::fallback::literals::chain_next(t, n, lang)
        };
        match next {
            Some(m) => {
                assert(goes_to(t, n, m, lang));
            },
            None => {},
        }
    }
    assert forall|m: usize| n < m < t.len() && #[trigger] goes_to(t, n, m, lang) && (forall|c: usize|
        !#[trigger] calls_one(t, n, c, names)) implies transform_from(t, n, lang, names) == transform_from(t, m as int, lang, names) by {
        if !call {
            assert(crate::fallback::literals::chain_next(t, n, lang) == Some(m));
        }
    }
}

proof fn chain_kinds_differ()
    ensures
        "field_expression"@ != "generic_function"@,
        "field_expression"@ != "try_expression"@,
        "field_expression"@ != "parenthesized_expression"@,
        "field_expression"@ != "await_expression"@,
        "field_expression"@ != "reference_expression"@,
        "field_expression"@ != "unary_expression"@,
        "generic_function"@ != "try_expression"@,
        "generic_function"@ != "parenthesized_expression"@,
        "generic_function"@ != "await_expression"@,
        "generic_function"@ != "reference_expression"@,
        "generic_function"@ != "unary_expression"@,
        "attribute"@ != "subscript"@,
        "attribute"@ != "parenthesized_expression"@,
        "attribute"@ != "await"@,
        "subscript"@ != "parenthesized_expression"@,
        "subscript"@ != "await"@,
        "member_expression"@ != "parenthesized_expression"@,
        "member_expression"@ != "non_null_expression"@,
        "member_expression"@ != "as_expression"@,
        "member_expression"@ != "satisfies_expression"@,
        "member_expression"@ != "await_expression"@,
        "subscript_expression"@ != "parenthesized_expression"@,
        "subscript_expression"@ != "non_null_expression"@,
        "subscript_expression"@ != "as_expression"@,
        "subscript_expression"@ != "satisfies_expression"@,
        "subscript_expression"@ != "await_expression"@,
{
    reveal_strlit("field_expression");
    reveal_strlit("generic_function");
    reveal_strlit("try_expression");
    reveal_strlit("parenthesized_expression");
    reveal_strlit("await_expression");
    reveal_strlit("reference_expression");
    reveal_strlit("unary_expression");
    reveal_strlit("attribute");
    reveal_strlit("subscript");
    reveal_strlit("await");
    reveal_strlit("member_expression");
    reveal_strlit("non_null_expression");
    reveal_strlit("as_expression");
    reveal_strlit("satisfies_expression");
    reveal_strlit("subscript_expression");
    assert("field_expression"@[0] == 'f');
    assert("generic_function"@[0] == 'g');
    assert("try_expression"@[0] == 't');
    assert("parenthesized_expression"@[0] == 'p');
    assert("await_expression"@[0] == 'a');
    assert("reference_expression"@[0] == 'r');
    assert("unary_expression"@[0] == 'u');
    assert("attribute"@.len() == 9);
    assert("await"@.len() == 5);
    assert("attribute"@[0] == 'a');
    assert("subscript"@[0] == 's');
    assert("member_expression"@[0] == 'm');
    assert("non_null_expression"@[0] == 'n');
    assert("as_expression"@[0] == 'a');
    assert("satisfies_expression"@[1] == 'a');
    assert("subscript_expression"@[1] == 'u');
    assert("subscript_expression"@[0] == 's');
}

// ---------- literals ----------

/// What a Rust literal is: a literal token, the same behind `&` or parentheses or in a closure, a
/// negative number, an empty array, `None`, or an empty constructor with or without its call.
pub proof fn a_rust_literal_is_one_of(t: Nodes, n: int, empty: Seq<Chars>)
    requires
        0 <= n < t.len(),
    ensures
        ({
            let k = t[n].kind;
            let r = rust_literal_of(t, n, empty);
            &&& k == "integer_literal"@ ==> r == Some(t[n].text)
            &&& k == "float_literal"@ ==> r == Some(t[n].text)
            &&& k == "string_literal"@ ==> r == Some(t[n].text)
            &&& k == "raw_string_literal"@ ==> r == Some(t[n].text)
            &&& k == "char_literal"@ ==> r == Some(t[n].text)
            &&& k == "boolean_literal"@ ==> r == Some(t[n].text)
            &&& k == "unit_expression"@ ==> r == Some(t[n].text)
            &&& k == "reference_expression"@ || k == "parenthesized_expression"@ ==> forall|m: usize|
                n < m < t.len() && #[trigger] named_at(t, n, 0) == Some(m) ==> r == rust_literal_of(t, m as int, empty)
            &&& k == "closure_expression"@ ==> forall|m: usize|
                n < m < t.len() && #[trigger] child_of(t, n, "body"@) == Some(m) && t[m as int].kind != "block"@ ==> r
                    == rust_literal_of(t, m as int, empty)
            &&& k == "unary_expression"@ ==> forall|m: usize|
                #[trigger] named_at(t, n, 0) == Some(m) && (t[m as int].kind == "integer_literal"@ || t[m as int].kind
                    == "float_literal"@) ==> r == Some(t[n].text)
            &&& k == "array_expression"@ && named_kids(t, n).len() == 0 ==> r == Some("[]"@)
            &&& k == "identifier"@ && t[n].text == "None"@ ==> r == Some("None"@)
            &&& k == "scoped_identifier"@ && empty.contains(t[n].text) ==> r == Some(t[n].text + "()"@)
            &&& k == "call_expression"@ ==> forall|f: usize, a: usize|
                #[trigger] child_of(t, n, "function"@) == Some(f) && #[trigger] child_of(t, n, "arguments"@) == Some(a)
                    && named_kids(t, a as int).len() == 0 && empty.contains(t[f as int].text) ==> r == Some(
                    t[f as int].text + "()"@,
                )
        }),
{
    rust_kinds_differ();
}

proof fn rust_kinds_differ()
    ensures
        "reference_expression"@ != "unary_expression"@,
        "reference_expression"@ != "array_expression"@,
        "reference_expression"@ != "identifier"@,
        "reference_expression"@ != "scoped_identifier"@,
        "reference_expression"@ != "call_expression"@,
        "parenthesized_expression"@ != "unary_expression"@,
        "parenthesized_expression"@ != "array_expression"@,
        "parenthesized_expression"@ != "identifier"@,
        "parenthesized_expression"@ != "scoped_identifier"@,
        "parenthesized_expression"@ != "call_expression"@,
        "closure_expression"@ != "unary_expression"@,
        "closure_expression"@ != "array_expression"@,
        "closure_expression"@ != "identifier"@,
        "closure_expression"@ != "scoped_identifier"@,
        "closure_expression"@ != "call_expression"@,
        "closure_expression"@ != "reference_expression"@,
        "closure_expression"@ != "parenthesized_expression"@,
        "unary_expression"@ != "array_expression"@,
        "unary_expression"@ != "unit_expression"@,
        "identifier"@ != "unary_expression"@,
        "identifier"@ != "array_expression"@,
        "identifier"@ != "integer_literal"@,
        "scoped_identifier"@ != "identifier"@,
        "scoped_identifier"@ != "unary_expression"@,
        "scoped_identifier"@ != "string_literal"@,
        "scoped_identifier"@ != "array_expression"@,
        "call_expression"@ != "unary_expression"@,
        "call_expression"@ != "array_expression"@,
        "call_expression"@ != "identifier"@,
        "call_expression"@ != "scoped_identifier"@,
        "call_expression"@ != "char_literal"@,
        forall|k: Chars|
            (k == "reference_expression"@ || k == "parenthesized_expression"@ || k == "closure_expression"@ || k
                == "unary_expression"@ || k == "array_expression"@ || k == "identifier"@ || k == "scoped_identifier"@ || k
                == "call_expression"@) ==> !#[trigger] crate::fallback::literals::rust_token(k),
{
    reveal_strlit("reference_expression");
    reveal_strlit("unary_expression");
    reveal_strlit("array_expression");
    reveal_strlit("identifier");
    reveal_strlit("scoped_identifier");
    reveal_strlit("call_expression");
    reveal_strlit("parenthesized_expression");
    reveal_strlit("closure_expression");
    reveal_strlit("integer_literal");
    reveal_strlit("float_literal");
    reveal_strlit("string_literal");
    reveal_strlit("raw_string_literal");
    reveal_strlit("char_literal");
    reveal_strlit("boolean_literal");
    reveal_strlit("unit_expression");
    assert("reference_expression"@[0] == 'r' && "reference_expression"@[1] == 'e');
    assert("unary_expression"@[0] == 'u' && "unary_expression"@[2] == 'a');
    assert("array_expression"@[0] == 'a');
    assert("identifier"@[0] == 'i' && "identifier"@[1] == 'd');
    assert("scoped_identifier"@[0] == 's' && "scoped_identifier"@[1] == 'c');
    assert("call_expression"@[0] == 'c' && "call_expression"@[1] == 'a');
    assert("parenthesized_expression"@[0] == 'p');
    assert("closure_expression"@[0] == 'c' && "closure_expression"@[1] == 'l');
    assert("integer_literal"@[0] == 'i' && "integer_literal"@[1] == 'n');
    assert("float_literal"@[0] == 'f');
    assert("string_literal"@[0] == 's' && "string_literal"@[1] == 't');
    assert("raw_string_literal"@[0] == 'r' && "raw_string_literal"@[1] == 'a');
    assert("char_literal"@[0] == 'c' && "char_literal"@[1] == 'h');
    assert("boolean_literal"@[0] == 'b');
    assert("unit_expression"@[0] == 'u' && "unit_expression"@[2] == 'i');
}

/// What a Python literal is: a literal or a display, the same in parentheses, or a signed number.
pub proof fn a_python_literal_is_one_of(t: Nodes, n: int)
    requires
        0 <= n < t.len(),
    ensures
        ({
            let k = t[n].kind;
            let r = python_literal_of(t, n);
            &&& k == "dictionary"@ ==> r == Some(t[n].text)
            &&& k == "list"@ ==> r == Some(t[n].text)
            &&& k == "tuple"@ ==> r == Some(t[n].text)
            &&& k == "set"@ ==> r == Some(t[n].text)
            &&& k == "none"@ ==> r == Some(t[n].text)
            &&& k == "string"@ ==> r == Some(t[n].text)
            &&& k == "concatenated_string"@ ==> r == Some(t[n].text)
            &&& k == "integer"@ ==> r == Some(t[n].text)
            &&& k == "float"@ ==> r == Some(t[n].text)
            &&& k == "true"@ ==> r == Some(t[n].text)
            &&& k == "false"@ ==> r == Some(t[n].text)
            &&& k == "parenthesized_expression"@ ==> forall|m: usize|
                n < m < t.len() && #[trigger] named_at(t, n, 0) == Some(m) ==> r == python_literal_of(t, m as int)
            &&& k == "unary_operator"@ ==> forall|m: usize|
                #[trigger] named_at(t, n, 0) == Some(m) ==> (r == Some(t[n].text) <==> t[m as int].kind == "integer"@ || t[m as int].kind
                    == "float"@)
            &&& k == "identifier"@ || k == "call"@ || k == "attribute"@ ==> r is None
        }),
{
    python_kinds_differ();
}

proof fn python_kinds_differ()
    ensures
        forall|k: Chars|
            (k == "parenthesized_expression"@ || k == "unary_operator"@ || k == "identifier"@ || k == "call"@ || k == "attribute"@)
                ==> !#[trigger] crate::fallback::literals::python_token(k),
        "unary_operator"@ != "parenthesized_expression"@,
        "identifier"@ != "parenthesized_expression"@,
        "identifier"@ != "unary_operator"@,
        "call"@ != "parenthesized_expression"@,
        "call"@ != "unary_operator"@,
        "attribute"@ != "parenthesized_expression"@,
        "attribute"@ != "unary_operator"@,
{
    reveal_strlit("parenthesized_expression");
    reveal_strlit("unary_operator");
    reveal_strlit("identifier");
    reveal_strlit("call");
    reveal_strlit("attribute");
    reveal_strlit("dictionary");
    reveal_strlit("list");
    reveal_strlit("tuple");
    reveal_strlit("set");
    reveal_strlit("none");
    reveal_strlit("string");
    reveal_strlit("concatenated_string");
    reveal_strlit("integer");
    reveal_strlit("float");
    reveal_strlit("true");
    reveal_strlit("false");
    assert("parenthesized_expression"@[0] == 'p');
    assert("unary_operator"@[0] == 'u');
    assert("identifier"@[0] == 'i' && "identifier"@[1] == 'd');
    assert("call"@[0] == 'c' && "call"@.len() == 4);
    assert("concatenated_string"@.len() == 19);
    assert("attribute"@[0] == 'a');
    assert("dictionary"@[0] == 'd');
    assert("list"@[0] == 'l');
    assert("tuple"@[0] == 't');
    assert("set"@[0] == 's');
    assert("none"@[0] == 'n');
    assert("string"@[0] == 's');
    assert("integer"@[0] == 'i' && "integer"@[1] == 'n');
    assert("float"@[0] == 'f');
    assert("true"@[0] == 't');
    assert("false"@[0] == 'f');
}

/// What a TypeScript literal is: a literal or a display, the same in parentheses or behind a type, or
/// a signed number.
pub proof fn a_ts_literal_is_one_of(t: Nodes, n: int)
    requires
        0 <= n < t.len(),
    ensures
        ({
            let k = t[n].kind;
            let r = ts_literal_of(t, n);
            &&& k == "object"@ ==> r == Some(t[n].text)
            &&& k == "array"@ ==> r == Some(t[n].text)
            &&& k == "string"@ ==> r == Some(t[n].text)
            &&& k == "template_string"@ ==> r == Some(t[n].text)
            &&& k == "number"@ ==> r == Some(t[n].text)
            &&& k == "null"@ ==> r == Some(t[n].text)
            &&& k == "undefined"@ ==> r == Some(t[n].text)
            &&& k == "true"@ ==> r == Some(t[n].text)
            &&& k == "false"@ ==> r == Some(t[n].text)
            &&& k == "parenthesized_expression"@ || k == "as_expression"@ || k == "satisfies_expression"@ ==> forall|m: usize|
                n < m < t.len() && #[trigger] named_at(t, n, 0) == Some(m) ==> r == ts_literal_of(t, m as int)
            &&& k == "unary_expression"@ ==> forall|m: usize|
                #[trigger] named_at(t, n, 0) == Some(m) ==> (r == Some(t[n].text) <==> t[m as int].kind == "number"@)
            &&& k == "identifier"@ || k == "call_expression"@ || k == "member_expression"@ ==> r is None
        }),
{
    ts_kinds_differ();
}

proof fn ts_kinds_differ()
    ensures
        forall|k: Chars|
            (k == "parenthesized_expression"@ || k == "as_expression"@ || k == "satisfies_expression"@ || k == "unary_expression"@
                || k == "identifier"@ || k == "call_expression"@ || k == "member_expression"@)
                ==> !#[trigger] crate::fallback::literals::ts_token(k),
        forall|k: Chars|
            (k == "unary_expression"@ || k == "identifier"@ || k == "call_expression"@ || k == "member_expression"@)
                ==> !#[trigger] crate::fallback::literals::ts_wrapper(k),
        "identifier"@ != "unary_expression"@,
        "call_expression"@ != "unary_expression"@,
        "member_expression"@ != "unary_expression"@,
{
    reveal_strlit("parenthesized_expression");
    reveal_strlit("as_expression");
    reveal_strlit("satisfies_expression");
    reveal_strlit("unary_expression");
    reveal_strlit("identifier");
    reveal_strlit("call_expression");
    reveal_strlit("member_expression");
    reveal_strlit("object");
    reveal_strlit("array");
    reveal_strlit("string");
    reveal_strlit("template_string");
    reveal_strlit("number");
    reveal_strlit("null");
    reveal_strlit("undefined");
    reveal_strlit("true");
    reveal_strlit("false");
    assert("parenthesized_expression"@[0] == 'p');
    assert("as_expression"@[0] == 'a' && "as_expression"@[1] == 's');
    assert("satisfies_expression"@[0] == 's' && "satisfies_expression"@[1] == 'a');
    assert("unary_expression"@[0] == 'u' && "unary_expression"@[2] == 'a');
    assert("identifier"@[0] == 'i');
    assert("call_expression"@[0] == 'c');
    assert("member_expression"@[0] == 'm');
    assert("object"@[0] == 'o');
    assert("array"@[0] == 'a' && "array"@[1] == 'r');
    assert("string"@[0] == 's' && "string"@[1] == 't');
    assert("template_string"@[0] == 't');
    assert("number"@[0] == 'n');
    assert("null"@[0] == 'n');
    assert("undefined"@[0] == 'u' && "undefined"@[2] == 'd');
    assert("true"@[0] == 't');
    assert("false"@[0] == 'f');
}

// ---------- sites ----------

proof fn first_stays_first(t: Nodes, list: Seq<usize>)
    requires
        list.len() > 0,
        t[list[0] as int].kind != "comment"@,
    ensures
        uncommented(t, list).len() > 0,
        uncommented(t, list)[0] == list[0],
    decreases list.len(),
{
    if list.len() > 1 {
        let rest = list.drop_last();
        assert(rest[0] == list[0]);
        first_stays_first(t, rest);
    } else {
        let rest = list.drop_last();
        assert(uncommented(t, rest) =~= Seq::<usize>::empty());
        assert(list.last() == list[0]);
    }
}

proof fn site_is_listed(
    t: Nodes,
    i: int,
    end: int,
    unit: usize,
    bare: Chars,
    lang: Language,
    inner: Seq<usize>,
    cfg: Fallback,
    n: usize,
) -> (k: int)
    requires
        0 <= i <= n < end <= t.len() <= usize::MAX,
        found_at(t, n as int, bare, lang, cfg) is Some,
        forall|x: usize| #[trigger] inner.contains(x) ==> !(i <= x <= n && n < t[x as int].after),
        forall|x: int| 0 <= x < t.len() ==> x < (#[trigger] t[x]).after <= t.len(),
    ensures
        0 <= k < sites_from(t, i, end, unit, bare, lang, inner, cfg).len(),
        sites_from(t, i, end, unit, bare, lang, inner, cfg)[k] == site_at(
            t,
            n,
            unit,
            found_at(t, n as int, bare, lang, cfg)->0,
            lang,
            cfg,
        ),
    decreases t.len() - i,
{
    let all = sites_from(t, i, end, unit, bare, lang, inner, cfg);
    assert(i < t[i].after <= t.len());
    if inner.contains(i as usize) {
        site_is_listed(t, t[i].after as int, end, unit, bare, lang, inner, cfg, n)
    } else if i == n {
        0
    } else {
        let k = site_is_listed(t, i + 1, end, unit, bare, lang, inner, cfg, n);
        let rest = sites_from(t, i + 1, end, unit, bare, lang, inner, cfg);
        if found_at(t, i, bare, lang, cfg) is Some {
            assert(all[k + 1] == rest[k]);
            k + 1
        } else {
            k
        }
    }
}

/// Node `n` stands in a unit, and in no unit that is nested in it.
pub open spec fn belongs(t: Nodes, unit: usize, inner: Seq<usize>, n: usize) -> bool {
    &&& unit < n < t[unit as int].after <= t.len() <= usize::MAX
    &&& forall|x: usize| #[trigger] inner.contains(x) ==> !(unit < x <= n && n < t[x as int].after)
    &&& forall|x: int| 0 <= x < t.len() ==> x < (#[trigger] t[x]).after <= t.len()
}

/// A unit has a site at a node of this kind, with this default and this transform.
pub open spec fn has_site(sites: Seq<SiteView>, line: usize, kind: SiteKind, default: Chars, transform: Option<Chars>) -> bool {
    exists|k: int|
        0 <= k < sites.len() && (#[trigger] sites[k]).line == line && sites[k].kind == kind && sites[k].default == cut_of(default)
            && sites[k].transform == transform
}

/// A Rust method that supplies a literal default to a chain that starts at a call of a fallible
/// transform hides its failure: the unit has a parse default there, with that transform. The call may
/// be of a plain name, of a path, of a method, or of any of these with type arguments.
pub proof fn a_literal_default_hides_a_rust_failure(
    t: Nodes,
    unit: usize,
    name: Chars,
    inner: Seq<usize>,
    cfg: Fallback,
    n: usize,
    f: usize,
    m: usize,
    v: usize,
    c: usize,
    args: usize,
    a: usize,
)
    requires
        belongs(t, unit, inner, n),
        t[n as int].kind == "call_expression"@,
        child_of(t, n as int, "function"@) == Some(f),
        t[f as int].kind == "field_expression"@,
        child_of(t, f as int, "field"@) == Some(m),
        cfg.methods_rust.deep_view().contains(t[m as int].text),
        child_of(t, f as int, "value"@) == Some(v),
        v < t.len(),
        calls_one(t, v as int, c, cfg.parse_calls.deep_view()),
        child_of(t, n as int, "arguments"@) == Some(args),
        named_kids(t, args as int).len() > 0,
        named_kids(t, args as int)[0] == a,
        a < t.len(),
        t[a as int].kind != "comment"@,
    ensures
        ({
            let s = sites_of(t, unit, name, Language::Rust, inner, cfg);
            let k = t[a as int].kind;
            let hides = has_site(s, t[n as int].line, SiteKind::ParseDefault, t[a as int].text, Some(t[c as int].text));
            &&& k == "integer_literal"@ ==> hides
            &&& k == "float_literal"@ ==> hides
            &&& k == "string_literal"@ ==> hides
            &&& k == "raw_string_literal"@ ==> hides
            &&& k == "char_literal"@ ==> hides
            &&& k == "boolean_literal"@ ==> hides
            &&& k == "unit_expression"@ ==> hides
            &&& rust_literal_of(t, a as int, cfg.empty_constructors.deep_view()) matches Some(l) ==> has_site(
                s,
                t[n as int].line,
                SiteKind::ParseDefault,
                l,
                Some(t[c as int].text),
            )
        }),
{
    first_stays_first(t, named_kids(t, args as int));
    a_chain_has_its_first_transform(t, v as int, Language::Rust, cfg.parse_calls.deep_view());
    let bare = bare_of(name);
    assert(found_at(t, n as int, bare, Language::Rust, cfg) is Some);
    let k = site_is_listed(t, unit + 1, t[unit as int].after as int, unit, bare, Language::Rust, inner, cfg, n);
    let s = sites_of(t, unit, name, Language::Rust, inner, cfg);
    assert(s[k].line == t[n as int].line);
    a_rust_literal_is_one_of(t, a as int, cfg.empty_constructors.deep_view());
}

/// The same without an argument: the default of the type is a literal.
pub proof fn a_default_of_the_type_hides_a_rust_failure(
    t: Nodes,
    unit: usize,
    name: Chars,
    inner: Seq<usize>,
    cfg: Fallback,
    n: usize,
    f: usize,
    m: usize,
    v: usize,
    c: usize,
    args: usize,
)
    requires
        belongs(t, unit, inner, n),
        t[n as int].kind == "call_expression"@,
        child_of(t, n as int, "function"@) == Some(f),
        t[f as int].kind == "field_expression"@,
        child_of(t, f as int, "field"@) == Some(m),
        cfg.methods_rust.deep_view().contains(t[m as int].text),
        child_of(t, f as int, "value"@) == Some(v),
        v < t.len(),
        calls_one(t, v as int, c, cfg.parse_calls.deep_view()),
        child_of(t, n as int, "arguments"@) == Some(args),
        named_kids(t, args as int).len() == 0,
    ensures
        has_site(
            sites_of(t, unit, name, Language::Rust, inner, cfg),
            t[n as int].line,
            SiteKind::ParseDefault,
            "Default::default()"@,
            Some(t[c as int].text),
        ),
{
    a_chain_has_its_first_transform(t, v as int, Language::Rust, cfg.parse_calls.deep_view());
    let bare = bare_of(name);
    assert(args_of(t, args as int) =~= Seq::<usize>::empty());
    assert(found_at(t, n as int, bare, Language::Rust, cfg) is Some);
    let k = site_is_listed(t, unit + 1, t[unit as int].after as int, unit, bare, Language::Rust, inner, cfg, n);
    let s = sites_of(t, unit, name, Language::Rust, inner, cfg);
    assert(s[k].line == t[n as int].line);
}

/// `.ok()?` is a site, and never a parse default.
pub proof fn dropping_the_error_is_a_plain_fallback(
    t: Nodes,
    unit: usize,
    name: Chars,
    inner: Seq<usize>,
    cfg: Fallback,
    n: usize,
    call: usize,
    f: usize,
    m: usize,
)
    requires
        belongs(t, unit, inner, n),
        t[n as int].kind == "try_expression"@,
        named_at(t, n as int, 0) == Some(call),
        t[call as int].kind == "call_expression"@,
        child_of(t, call as int, "function"@) == Some(f),
        t[f as int].kind == "field_expression"@,
        child_of(t, f as int, "field"@) == Some(m),
        t[m as int].text == "ok"@,
    ensures
        ({
            let s = sites_of(t, unit, name, Language::Rust, inner, cfg);
            exists|k: int|
                0 <= k < s.len() && (#[trigger] s[k]).line == t[n as int].line && s[k].kind == SiteKind::Fallback && s[k].default
                    == cut_of("?"@)
        }),
{
    kinds_of_functions_differ();
    reveal_strlit("try_expression");
    reveal_strlit("call_expression");
    assert("try_expression"@[0] == 't' && "call_expression"@[0] == 'c');
    let bare = bare_of(name);
    assert(callee(t, f) == Some(m));
    assert(found_at(t, n as int, bare, Language::Rust, cfg) is Some);
    let k = site_is_listed(t, unit + 1, t[unit as int].after as int, unit, bare, Language::Rust, inner, cfg, n);
    let s = sites_of(t, unit, name, Language::Rust, inner, cfg);
    assert(s[k].line == t[n as int].line);
}

/// `x or lit` in Python is a site at `x`, but in the units where `or` supplies an optional argument.
pub proof fn a_python_or_is_a_site(
    t: Nodes,
    unit: usize,
    name: Chars,
    inner: Seq<usize>,
    cfg: Fallback,
    n: usize,
    op: usize,
    l: usize,
    r: usize,
    text: Chars,
)
    requires
        belongs(t, unit, inner, n),
        t[n as int].kind == "boolean_operator"@,
        child_of(t, n as int, "operator"@) == Some(op),
        t[op as int].text == "or"@,
        !cfg.python_skip_or_in.deep_view().contains(bare_of(name)),
        child_of(t, n as int, "left"@) == Some(l),
        child_of(t, n as int, "right"@) == Some(r),
        python_literal_of(t, r as int) == Some(text),
    ensures
        ({
            let s = sites_of(t, unit, name, Language::Python, inner, cfg);
            let x = transform_from(t, l as int, Language::Python, cfg.parse_calls_python.deep_view());
            &&& x is Some ==> has_site(s, t[n as int].line, SiteKind::ParseDefault, text, x)
            &&& x is None ==> has_site(s, t[n as int].line, SiteKind::Fallback, text, None)
        }),
{
    reveal_strlit("boolean_operator");
    reveal_strlit("call");
    assert("boolean_operator"@[0] == 'b' && "call"@[0] == 'c');
    let bare = bare_of(name);
    assert(found_at(t, n as int, bare, Language::Python, cfg) is Some);
    let k = site_is_listed(t, unit + 1, t[unit as int].after as int, unit, bare, Language::Python, inner, cfg, n);
    let s = sites_of(t, unit, name, Language::Python, inner, cfg);
    assert(s[k].line == t[n as int].line);
}

/// `d.get(k, lit)` in Python, for each of the getters, is a site at `d`; `getattr(o, k, lit)` is one
/// at `o`.
pub proof fn a_python_getter_is_a_site(
    t: Nodes,
    unit: usize,
    name: Chars,
    inner: Seq<usize>,
    cfg: Fallback,
    n: usize,
    f: usize,
    c: usize,
    args: usize,
    chain: usize,
    text: Chars,
)
    requires
        belongs(t, unit, inner, n),
        t[n as int].kind == "call"@,
        child_of(t, n as int, "function"@) == Some(f),
        child_of(t, n as int, "arguments"@) == Some(args),
        cfg.python_default_getters.deep_view().contains(t[c as int].text),
        ({
            let list = args_of(t, args as int);
            ||| {
                &&& t[f as int].kind == "attribute"@
                &&& child_of(t, f as int, "attribute"@) == Some(c)
                &&& child_of(t, f as int, "object"@) == Some(chain)
                &&& list.len() == 2
                &&& python_literal_of(t, list[1] as int) == Some(text)
            }
            ||| {
                &&& t[f as int].kind == "identifier"@
                &&& c == f
                &&& list.len() == 3
                &&& chain == list[0]
                &&& python_literal_of(t, list[2] as int) == Some(text)
            }
        }),
    ensures
        ({
            let s = sites_of(t, unit, name, Language::Python, inner, cfg);
            let x = transform_from(t, chain as int, Language::Python, cfg.parse_calls_python.deep_view());
            &&& x is Some ==> has_site(s, t[n as int].line, SiteKind::ParseDefault, text, x)
            &&& x is None ==> has_site(s, t[n as int].line, SiteKind::Fallback, text, None)
        }),
{
    kinds_of_functions_differ();
    let bare = bare_of(name);
    assert(callee(t, f) == Some(c));
    assert(found_at(t, n as int, bare, Language::Python, cfg) is Some);
    let k = site_is_listed(t, unit + 1, t[unit as int].after as int, unit, bare, Language::Python, inner, cfg, n);
    let s = sites_of(t, unit, name, Language::Python, inner, cfg);
    assert(s[k].line == t[n as int].line);
}

/// `x ?? lit` in TypeScript, for each of the operators, is a site at `x`; `||` is one only where the
/// settings say so.
pub proof fn a_ts_default_is_a_site(
    t: Nodes,
    unit: usize,
    name: Chars,
    lang: Language,
    inner: Seq<usize>,
    cfg: Fallback,
    n: usize,
    op: usize,
    l: usize,
    r: usize,
    text: Chars,
)
    requires
        lang == Language::TypeScript || lang == Language::Tsx || lang == Language::JavaScript,
        belongs(t, unit, inner, n),
        t[n as int].kind == "binary_expression"@,
        child_of(t, n as int, "operator"@) == Some(op),
        child_of(t, n as int, "left"@) == Some(l),
        child_of(t, n as int, "right"@) == Some(r),
        ts_literal_of(t, r as int) == Some(text),
    ensures
        ({
            let s = sites_of(t, unit, name, lang, inner, cfg);
            let x = transform_from(t, l as int, lang, cfg.parse_calls_ts.deep_view());
            let counts = cfg.ts_operators.deep_view().contains(t[op as int].text) || (cfg.ts_count_or && t[op as int].text == "||"@);
            &&& counts && x is Some ==> has_site(s, t[n as int].line, SiteKind::ParseDefault, text, x)
            &&& counts && x is None ==> has_site(s, t[n as int].line, SiteKind::Fallback, text, None)
            &&& !counts ==> found_at(t, n as int, bare_of(name), lang, cfg) is None
        }),
{
    let bare = bare_of(name);
    if cfg.ts_operators.deep_view().contains(t[op as int].text) || (cfg.ts_count_or && t[op as int].text == "||"@) {
        assert(found_at(t, n as int, bare, lang, cfg) is Some);
        let k = site_is_listed(t, unit + 1, t[unit as int].after as int, unit, bare, lang, inner, cfg, n);
        let s = sites_of(t, unit, name, lang, inner, cfg);
        assert(s[k].line == t[n as int].line);
    }
}

// ---------- where the value lands ----------

/// The value of a site lands in what its parent binds it to: the pattern of a `let`, the field of a
/// struct, the left side of an assignment of which it is the right, the name of a declarator or of a
/// keyword argument, the key of a pair.
pub proof fn a_value_lands_where_its_parent_binds_it(t: Nodes, n: usize, p: usize, unit: usize, lang: Language, x: usize)
    requires
        t[n as int].parent == Some(p),
        p != unit,
    ensures
        ({
            let k = t[p as int].kind;
            let lands = binding_from(t, n, Some(p), unit, None, lang) == Some(cut_of(t[x as int].text));
            let right = child_of(t, p as int, "right"@) == Some(n) && child_of(t, p as int, "left"@) == Some(x);
            let ts = lang == Language::TypeScript || lang == Language::JavaScript;
            &&& lang == Language::Rust && k == "let_declaration"@ && child_of(t, p as int, "pattern"@) == Some(x) ==> lands
            &&& lang == Language::Rust && k == "field_initializer"@ && child_of(t, p as int, "field"@) == Some(x) ==> lands
            &&& lang == Language::Rust && k == "assignment_expression"@ && right ==> lands
            &&& lang == Language::Rust && k == "compound_assignment_expr"@ && right ==> lands
            &&& lang == Language::Python && k == "assignment"@ && right ==> lands
            &&& lang == Language::Python && k == "augmented_assignment"@ && right ==> lands
            &&& lang == Language::Python && k == "keyword_argument"@ && child_of(t, p as int, "name"@) == Some(x) ==> lands
            &&& lang == Language::Python && k == "pair"@ && child_of(t, p as int, "key"@) == Some(x) ==> lands
            &&& ts && k == "variable_declarator"@ && child_of(t, p as int, "name"@) == Some(x) ==> lands
            &&& ts && k == "assignment_expression"@ && right ==> lands
            &&& ts && k == "pair"@ && child_of(t, p as int, "key"@) == Some(x) ==> lands
        }),
{
    reveal_strlit("let_declaration");
    reveal_strlit("field_initializer");
    reveal_strlit("assignment_expression");
    reveal_strlit("compound_assignment_expr");
    reveal_strlit("assignment");
    reveal_strlit("augmented_assignment");
    reveal_strlit("keyword_argument");
    reveal_strlit("pair");
    reveal_strlit("variable_declarator");
    assert("let_declaration"@[0] == 'l');
    assert("field_initializer"@[0] == 'f');
    assert("assignment_expression"@[0] == 'a');
    assert("compound_assignment_expr"@[0] == 'c');
    assert("assignment"@[0] == 'a');
    assert("augmented_assignment"@[0] == 'a');
    assert("keyword_argument"@[0] == 'k');
    assert("pair"@[0] == 'p');
    assert("variable_declarator"@[0] == 'v');
}

// ---------- reasons ----------

/// The parse defaults of a unit are its sites of that kind, in order.
pub proof fn parse_defaults_are_the_sites_of_that_kind(sites: Seq<SiteView>)
    ensures
        parse_defaults_in(sites) == sites.filter(|s: SiteView| s.kind == SiteKind::ParseDefault),
    decreases sites.len(),
{
    reveal(Seq::filter);
    if sites.len() > 0 {
        parse_defaults_are_the_sites_of_that_kind(sites.drop_last());
    }
}

/// A unit is reported exactly where it has parse defaults, at least as many as asked for, and no
/// pattern of exempt functions that compiles matches its own name.
pub proof fn a_unit_is_reported_by_its_parse_defaults(u: FunctionMetrics, cfg: Fallback)
    ensures
        reason_of(u, cfg) is Some <==> u.parse_defaults > 0 && u.parse_defaults >= cfg.min_sites && forall|k: int|
            0 <= k < cfg.exempt_fn_patterns.deep_view().len() ==> !(crate::patterns::compiles(
                #[trigger] cfg.exempt_fn_patterns.deep_view()[k],
                false,
            ) && crate::patterns::regex_hit(cfg.exempt_fn_patterns.deep_view()[k], false, bare_of(u.name@))),
{
}

} // verus!

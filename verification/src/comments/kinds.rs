//! The node kinds the comment passes tell apart.

use vstd::prelude::*;

use crate::lang::Language;
use crate::text::{
    ends_with, is_alnum, lines, same, strip_prefix, strip_suffix, trim, trim_leading, trimmed, without_leading, without_prefix,
    without_suffix, Chars,
};
use crate::tree::{Nodes, SyntaxTree};

verus! {

/// A comment.
pub open spec fn comment_kind(lang: Language, kind: Chars) -> bool {
    match lang {
        Language::Rust => kind == "line_comment"@ || kind == "block_comment"@,
        _ => kind == "comment"@,
    }
}

/// Is it a comment?
pub fn is_comment_kind(lang: Language, kind: &str) -> (r: bool)
    ensures
        r == comment_kind(lang, kind@),
{
    match lang {
        Language::Rust => same(kind, "line_comment") || same(kind, "block_comment"),
        _ => same(kind, "comment"),
    }
}

/// An import.
pub open spec fn import_kind(lang: Language, kind: Chars) -> bool {
    match lang {
        Language::Rust => kind == "use_declaration"@ || kind == "extern_crate_declaration"@,
        Language::Python => kind == "import_statement"@ || kind == "import_from_statement"@ || kind
            == "future_import_statement"@,
        _ => kind == "import_statement"@,
    }
}

/// Is it an import?
pub fn is_import_kind(lang: Language, kind: &str) -> (r: bool)
    ensures
        r == import_kind(lang, kind@),
{
    match lang {
        Language::Rust => same(kind, "use_declaration") || same(kind, "extern_crate_declaration"),
        Language::Python => same(kind, "import_statement") || same(kind, "import_from_statement") || same(
            kind,
            "future_import_statement",
        ),
        _ => same(kind, "import_statement"),
    }
}

/// A node that holds statements: a phase comment's parent must be one.
pub open spec fn block_kind(lang: Language, kind: Chars) -> bool {
    match lang {
        Language::Rust => kind == "block"@ || kind == "match_block"@,
        Language::Python => kind == "block"@,
        _ => kind == "statement_block"@ || kind == "switch_body"@ || kind == "switch_case"@ || kind == "switch_default"@,
    }
}

/// Does it hold statements?
pub fn is_block_kind(lang: Language, kind: &str) -> (r: bool)
    ensures
        r == block_kind(lang, kind@),
{
    match lang {
        Language::Rust => same(kind, "block") || same(kind, "match_block"),
        Language::Python => same(kind, "block"),
        _ => same(kind, "statement_block") || same(kind, "switch_body") || same(kind, "switch_case") || same(
            kind,
            "switch_default",
        ),
    }
}

/// A name that is read.
pub open spec fn ident_kind(lang: Language, kind: Chars) -> bool {
    match lang {
        Language::Rust | Language::Python => kind == "identifier"@,
        _ => kind == "identifier"@ || kind == "shorthand_property_identifier"@,
    }
}

/// Is it a name that is read?
pub fn is_ident_kind(lang: Language, kind: &str) -> (r: bool)
    ensures
        r == ident_kind(lang, kind@),
{
    match lang {
        Language::Rust | Language::Python => same(kind, "identifier"),
        _ => same(kind, "identifier") || same(kind, "shorthand_property_identifier"),
    }
}

/// The pattern field of a binder; empty where the node itself is the pattern, none where a node of
/// this kind binds nothing.
pub open spec fn binder_field(lang: Language, kind: Chars) -> Option<Chars> {
    match lang {
        Language::Rust => if kind == "parameters"@ {
            Some(""@)
        } else if kind == "let_declaration"@ || kind == "for_expression"@ {
            Some("pattern"@)
        } else if kind == "assignment_expression"@ {
            Some("left"@)
        } else {
            None
        },
        Language::Python => if kind == "parameters"@ {
            Some(""@)
        } else if kind == "assignment"@ || kind == "for_statement"@ {
            Some("left"@)
        } else {
            None
        },
        _ => if kind == "formal_parameters"@ {
            Some(""@)
        } else if kind == "variable_declarator"@ {
            Some("name"@)
        } else if kind == "for_in_statement"@ || kind == "assignment_expression"@ {
            Some("left"@)
        } else {
            None
        },
    }
}

/// The pattern field of a binder.
pub fn binder(lang: Language, kind: &str) -> (r: Option<&'static str>)
    ensures
        r.deep_view() == binder_field(lang, kind@),
{
    match lang {
        Language::Rust => if same(kind, "parameters") {
            Some("")
        } else if same(kind, "let_declaration") || same(kind, "for_expression") {
            Some("pattern")
        } else if same(kind, "assignment_expression") {
            Some("left")
        } else {
            None
        },
        Language::Python => if same(kind, "parameters") {
            Some("")
        } else if same(kind, "assignment") || same(kind, "for_statement") {
            Some("left")
        } else {
            None
        },
        _ => if same(kind, "formal_parameters") {
            Some("")
        } else if same(kind, "variable_declarator") {
            Some("name")
        } else if same(kind, "for_in_statement") || same(kind, "assignment_expression") {
            Some("left")
        } else {
            None
        },
    }
}

/// A node with a scope of its own.
pub open spec fn callable_kind(lang: Language, kind: Chars) -> bool {
    match lang {
        Language::Rust => kind == "function_item"@ || kind == "closure_expression"@,
        Language::Python => kind == "function_definition"@ || kind == "lambda"@,
        _ => kind == "function_declaration"@ || kind == "function_expression"@ || kind == "arrow_function"@ || kind
            == "method_definition"@ || kind == "generator_function"@ || kind == "generator_function_declaration"@,
    }
}

/// Has it a scope of its own?
pub fn is_callable_kind(lang: Language, kind: &str) -> (r: bool)
    ensures
        r == callable_kind(lang, kind@),
{
    match lang {
        Language::Rust => same(kind, "function_item") || same(kind, "closure_expression"),
        Language::Python => same(kind, "function_definition") || same(kind, "lambda"),
        _ => same(kind, "function_declaration") || same(kind, "function_expression") || same(kind, "arrow_function") || same(
            kind,
            "method_definition",
        ) || same(kind, "generator_function") || same(kind, "generator_function_declaration"),
    }
}

/// A documentation comment carries a marker child.
pub open spec fn doc_comment(t: Nodes, i: int) -> bool {
    exists|k: int|
        0 <= k < t[i].children.len() && crate::text::ends(
            t[#[trigger] t[i].children[k] as int].kind,
            "doc_comment_marker"@,
        )
}

/// Rust doc comments (`///`, `//!`, `/** */`) carry a `*_doc_comment_marker` child.
pub fn is_doc_comment(t: &SyntaxTree, i: usize) -> (r: bool)
    requires
        t.ok(),
        i < t@.len(),
    ensures
        r == doc_comment(t@, i as int),
{
    let kids = &t.nodes[i].children;
    assert(t@[i as int] == t.nodes@[i as int].deep_view());
    assert(crate::tree::node_ok(t@, i as int));
    let mut k: usize = 0;
    while k < kids.len()
        invariant
            k <= kids.len(),
            t.ok(),
            i < t@.len(),
            kids@ == t@[i as int].children,
            crate::tree::node_ok(t@, i as int),
            forall|j: int|
                0 <= j < k ==> !crate::text::ends(t@[#[trigger] kids@[j] as int].kind, "doc_comment_marker"@),
        decreases kids.len() - k,
    {
        assert(i < t@[i as int].children[k as int] < t@.len());
        if ends_with(t.kind(kids[k]), "doc_comment_marker") {
            return true;
        }
        k = k + 1;
    }
    false
}

/// Some letter or digit.
pub open spec fn wordy_text(s: Chars) -> bool {
    exists|i: int| 0 <= i < s.len() && crate::text::alphanumeric(#[trigger] s[i])
}

/// Is there a letter or digit?
pub fn has_word(t: &str) -> (r: bool)
    ensures
        r == wordy_text(t@),
{
    let a = crate::text::chars(t);
    let mut i: usize = 0;
    while i < a.len()
        invariant
            i <= a.len(),
            a@ == t@,
            forall|k: int| 0 <= k < i ==> !crate::text::alphanumeric(#[trigger] a@[k]),
        decreases a.len() - i,
    {
        if is_alnum(a[i]) {
            return true;
        }
        i = i + 1;
    }
    false
}

/// The first line from `k` on that is not blank, trimmed.
pub open spec fn first_inked(list: Seq<Chars>, k: int) -> Chars
    decreases list.len() - k,
{
    if k < 0 || k >= list.len() {
        Seq::empty()
    } else if trimmed(list[k]).len() > 0 {
        trimmed(list[k])
    } else {
        first_inked(list, k + 1)
    }
}

/// A comment without its marker.
pub open spec fn unmarked(raw: Chars) -> Chars {
    let t = trimmed(raw);
    match without_prefix(t, "/*"@) {
        Some(r) => match without_suffix(r, "*/"@) {
            Some(inner) => inner,
            None => r,
        },
        None => match without_prefix(t, "//"@) {
            Some(r) => without_leading(r, "/"@),
            None => match without_prefix(t, "#"@) {
                Some(r) => r,
                None => t,
            },
        },
    }
}

/// The first line of a comment that is not blank, without its marker.
pub open spec fn comment_text(raw: Chars) -> Chars {
    first_inked(crate::text::lines_of(unmarked(raw)), 0)
}

/// The comment's text without its marker: the first non-empty line of a block comment.
pub fn strip_comment(raw: &str) -> (out: String)
    ensures
        out@ == comment_text(raw@),
{
    let t = trim(raw);
    let t = match strip_prefix(t.as_str(), "/*") {
        Some(r) => match strip_suffix(r.as_str(), "*/") {
            Some(inner) => inner,
            None => r,
        },
        None => match strip_prefix(t.as_str(), "//") {
            Some(r) => trim_leading(r.as_str(), "/"),
            None => match strip_prefix(t.as_str(), "#") {
                Some(r) => r,
                None => t,
            },
        },
    };
    assert(t@ == unmarked(raw@));
    let all = lines(t.as_str());
    let ghost view = all.deep_view();
    let mut k: usize = 0;
    while k < all.len()
        invariant
            k <= all.len(),
            view == all.deep_view(),
            comment_text(raw@) == first_inked(view, k as int),
        decreases all.len() - k,
    {
        assert(view[k as int] == all@[k as int]@);
        let l = trim(all[k].as_str());
        if l.as_str().unicode_len() > 0 {
            return l;
        }
        k = k + 1;
    }
    String::new()
}

} // verus!

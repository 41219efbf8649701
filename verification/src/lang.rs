//! The languages the passes read.

use vstd::prelude::*;

use crate::text::{around_last, rsplit_once, same, Chars};

verus! {

/// A language with a grammar.
#[derive(Debug, Clone, Copy, PartialEq, Eq, Structural)]
pub enum Language {
    Rust,
    Python,
    TypeScript,
    Tsx,
    JavaScript,
}

impl DeepView for Language {
    type V = Language;

    open spec fn deep_view(&self) -> Language {
        *self
    }
}

/// The language of a file name extension.
pub open spec fn language_of(ext: Chars) -> Option<Language> {
    if ext == "rs"@ {
        Some(Language::Rust)
    } else if ext == "py"@ {
        Some(Language::Python)
    } else if ext == "ts"@ || ext == "mts"@ || ext == "cts"@ {
        Some(Language::TypeScript)
    } else if ext == "tsx"@ {
        Some(Language::Tsx)
    } else if ext == "js"@ || ext == "jsx"@ || ext == "mjs"@ || ext == "cjs"@ {
        Some(Language::JavaScript)
    } else {
        None
    }
}

impl Language {
    /// The language of a path, by its extension.
    pub fn from_path(path: &str) -> (r: Option<Language>)
        ensures
            r == (match around_last(path@, '.') {
                Some((_, ext)) => language_of(ext),
                None => None,
            }),
    {
        match rsplit_once(path, '.') {
            None => None,
            Some((_, ext)) => {
                let e = ext.as_str();
                if same(e, "rs") {
                    Some(Language::Rust)
                } else if same(e, "py") {
                    Some(Language::Python)
                } else if same(e, "ts") || same(e, "mts") || same(e, "cts") {
                    Some(Language::TypeScript)
                } else if same(e, "tsx") {
                    Some(Language::Tsx)
                } else if same(e, "js") || same(e, "jsx") || same(e, "mjs") || same(e, "cjs") {
                    Some(Language::JavaScript)
                } else {
                    None
                }
            },
        }
    }
}

} // verus!

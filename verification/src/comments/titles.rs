//! What a banner says.

use vstd::prelude::*;

use crate::comments::kinds::{has_word, wordy_text};
use crate::config::{Banners, Comments, Metrics};
use crate::patterns::{compiles, pattern_hit, regex_group, Pattern};
use crate::text::{
    chars, decimal, digits, has_char, is_white, same, slice, starts, starts_with, trim_leading, white, without_leading, Chars,
};

verus! {

/// `s` from its first character that is neither white nor in `set`.
pub open spec fn ruleless_start(s: Chars, set: Chars) -> Chars
    decreases s.len(),
{
    if s.len() > 0 && (white(s[0]) || set.contains(s[0])) {
        ruleless_start(s.skip(1), set)
    } else {
        s
    }
}

/// `s` up to its last character that is neither white nor in `set`.
pub open spec fn ruleless_end(s: Chars, set: Chars) -> Chars
    decreases s.len(),
{
    if s.len() > 0 && (white(s.last()) || set.contains(s.last())) {
        ruleless_end(s.drop_last(), set)
    } else {
        s
    }
}

/// `s` without white space and characters of `set` at either end.
pub open spec fn ruleless(s: Chars, set: Chars) -> Chars {
    ruleless_end(ruleless_start(s, set), set)
}

fn cut_start(s: &str, set: &str) -> (out: String)
    ensures
        out@ == ruleless_start(s@, set@),
{
    let a = chars(s);
    let mut i: usize = 0;
    assert(a@.skip(0) =~= a@);
    while i < a.len() && (is_white(a[i]) || has_char(set, a[i]))
        invariant
            i <= a.len(),
            ruleless_start(a@, set@) == ruleless_start(a@.skip(i as int), set@),
        decreases a.len() - i,
    {
        assert(a@.skip(i as int).skip(1) =~= a@.skip(i + 1));
        i = i + 1;
    }
    slice(&a, i, a.len())
}

fn cut_end(s: &str, set: &str) -> (out: String)
    ensures
        out@ == ruleless_end(s@, set@),
{
    let a = chars(s);
    let mut n: usize = a.len();
    assert(a@.take(n as int) =~= a@);
    while n > 0 && (is_white(a[n - 1]) || has_char(set, a[n - 1]))
        invariant
            n <= a.len(),
            ruleless_end(a@, set@) == ruleless_end(a@.take(n as int), set@),
        decreases n,
    {
        assert(a@.take(n as int).drop_last() =~= a@.take(n - 1));
        n = n - 1;
    }
    slice(&a, 0, n)
}

/// `s` without white space and characters of `set` at either end.
pub fn trim_rule(s: &str, set: &str) -> (out: String)
    ensures
        out@ == ruleless(s@, set@),
{
    cut_end(cut_start(s, set).as_str(), set)
}

/// What stands before the first white character from `i` on.
pub open spec fn up_to_white(s: Chars, i: int) -> Chars
    decreases s.len() - i,
{
    if i < 0 || i >= s.len() || white(s[i]) {
        s.take(i)
    } else {
        up_to_white(s, i + 1)
    }
}

/// The first word of a text that starts with none but a word, if it has one.
pub open spec fn first_word(s: Chars) -> Option<Chars> {
    if s.len() == 0 {
        None
    } else {
        Some(up_to_white(s, 0))
    }
}

/// A marker that starts the text, or that is its first word but for `#`.
pub open spec fn marked(t: Chars, m: Chars) -> bool {
    starts(t, m) || first_word(t) == Some(without_leading(m, "#"@))
}

/// A comment that editors and tools read: it starts with one of the markers.
pub open spec fn skipped(text: Chars, markers: Seq<Chars>) -> bool {
    exists|k: int| 0 <= k < markers.len() && marked(ruleless_start(text, "/*"@), #[trigger] markers[k])
}

/// Does the text start with one of the markers?
pub fn is_skipped(text: &str, markers: &Vec<String>) -> (r: bool)
    ensures
        r == skipped(text@, markers.deep_view()),
{
    let t = cut_start(text, "/*");
    let a = chars(t.as_str());
    let mut n: usize = 0;
    while n < a.len() && !is_white(a[n])
        invariant
            n <= a.len(),
            up_to_white(a@, 0) == up_to_white(a@, n as int),
        decreases a.len() - n,
    {
        n = n + 1;
    }
    let word = slice(&a, 0, n);
    assert(word@ == up_to_white(a@, 0));
    let ghost view = markers.deep_view();
    let mut k: usize = 0;
    while k < markers.len()
        invariant
            k <= markers.len(),
            view == markers.deep_view(),
            a@ == t@,
            t@ == ruleless_start(text@, "/*"@),
            word@ == up_to_white(a@, 0),
            forall|j: int| 0 <= j < k ==> !marked(t@, #[trigger] view[j]),
        decreases markers.len() - k,
    {
        assert(view[k as int] == markers@[k as int]@);
        let m = markers[k].as_str();
        if starts_with(t.as_str(), m) || (a.len() > 0 && same(word.as_str(), trim_leading(m, "#").as_str())) {
            assert(marked(t@, view[k as int]));
            return true;
        }
        k = k + 1;
    }
    false
}

/// A character of a class, escaped where the class gives it a meaning.
pub open spec fn class_char(c: char) -> Chars {
    if c == '\\' || c == ']' || c == '[' || c == '^' || c == '-' || c == '&' || c == '~' {
        seq!['\\', c]
    } else {
        seq![c]
    }
}

/// The characters of a class.
pub open spec fn class_chars(s: Chars) -> Chars
    decreases s.len(),
{
    if s.len() == 0 {
        Seq::empty()
    } else {
        class_chars(s.drop_last()) + class_char(s.last())
    }
}

/// A character class.
pub open spec fn class_of(s: Chars) -> Chars {
    seq!['['] + class_chars(s) + seq![']']
}

/// A character class of `set`, with the class metacharacters escaped.
pub fn rule_class(set: &str) -> (out: String)
    ensures
        out@ == class_of(set@),
{
    let a = chars(set);
    let mut s = String::new();
    s.push('[');
    let mut i: usize = 0;
    assert(a@.take(0) =~= Seq::<char>::empty());
    assert(s@ =~= seq!['['] + class_chars(a@.take(0)));
    while i < a.len()
        invariant
            i <= a.len(),
            s@ == seq!['['] + class_chars(a@.take(i as int)),
        decreases a.len() - i,
    {
        let ghost was = s@;
        let c: char = a[i];
        if c == '\\' || c == ']' || c == '[' || c == '^' || c == '-' || c == '&' || c == '~' {
            s.push('\\');
        }
        s.push(c);
        proof {
            assert(a@.take(i + 1).drop_last() =~= a@.take(i as int));
            assert(s@ =~= was + class_char(c));
            assert(s@ =~= seq!['['] + class_chars(a@.take(i + 1)));
        }
        i = i + 1;
    }
    assert(a@.take(a@.len() as int) =~= a@);
    s.push(']');
    assert(s@ =~= class_of(set@));
    s
}

/// A rule with an optional inline title.
pub open spec fn rule_pattern(b: Banners) -> Chars {
    let class = class_of(b.rule_chars@);
    r"^\s*"@ + class + "{"@ + digits(
        if b.min_rule_len < 1 {
            1nat
        } else {
            b.min_rule_len as nat
        },
    ) + r",}\s*(\S.*?)?\s*"@ + class + "*$"@
}

/// A short rule followed by text.
pub open spec fn short_pattern() -> Chars {
    r"^\s*(──|--|==)\s*(\S.*)$"@
}

/// The compiled patterns, built once per scan and shared by every file.
pub struct Walker<'c> {
    pub cfg: &'c Comments,
    pub cognitive_min: u32,
    /// `^\s*[rule]{n,}\s*(\S.*?)?\s*[rule]*$`: a rule with an optional inline title.
    pub rule: Option<Pattern>,
    /// `^\s*(──|--|==)\s*(\S.*)$`: a short rule followed by text.
    pub short: Pattern,
    pub phase: Vec<Pattern>,
}

/// The complexity from which a unit's phases are looked at.
pub open spec fn cognitive_floor(cfg: Comments, metrics: Metrics) -> u32 {
    match cfg.phases.cross_with_cognitive_min {
        Some(n) => n,
        None => metrics.cognitive_hard,
    }
}

impl<'c> Walker<'c> {
    /// The patterns are those of the settings.
    pub open spec fn ok(&self) -> bool {
        &&& self.rule is Some <==> self.cfg.banners.rule_chars@.len() > 0
        &&& self.rule matches Some(p) ==> p@ == (rule_pattern(self.cfg.banners), false)
        &&& self.short@ == (short_pattern(), false)
        &&& self.phase@.len() == self.cfg.phases.patterns@.len()
        &&& forall|k: int|
            0 <= k < self.phase@.len() ==> (#[trigger] self.phase@[k])@ == (self.cfg.phases.patterns@[k]@, true)
    }

    /// The patterns of the settings.
    pub fn new(cfg: &'c Comments, metrics: &Metrics) -> (r: Walker<'c>)
        ensures
            r.ok(),
            r.cfg == cfg,
            r.cognitive_min == cognitive_floor(*cfg, *metrics),
    {
        let b = &cfg.banners;
        let rule = if b.rule_chars.as_str().unicode_len() > 0 {
            let class = rule_class(b.rule_chars.as_str());
            let least: usize = if b.min_rule_len < 1 {
                1
            } else {
                b.min_rule_len
            };
            let mut p = r"^\s*".to_owned();
            p.append(class.as_str());
            p.append("{");
            p.append(decimal(least).as_str());
            p.append(r",}\s*(\S.*?)?\s*");
            p.append(class.as_str());
            p.append("*$");
            Some(Pattern::new(p.as_str(), false))
        } else {
            None
        };
        let mut phase: Vec<Pattern> = Vec::new();
        let mut k: usize = 0;
        while k < cfg.phases.patterns.len()
            invariant
                k <= cfg.phases.patterns.len(),
                phase@.len() == k,
                forall|j: int| 0 <= j < k ==> (#[trigger] phase@[j])@ == (cfg.phases.patterns@[j]@, true),
            decreases cfg.phases.patterns.len() - k,
        {
            phase.push(Pattern::new(cfg.phases.patterns[k].as_str(), true));
            k = k + 1;
        }
        Walker {
            cfg,
            cognitive_min: match cfg.phases.cross_with_cognitive_min {
                Some(n) => n,
                None => metrics.cognitive_hard,
            },
            rule,
            short: Pattern::new(r"^\s*(──|--|==)\s*(\S.*)$", false),
            phase,
        }
    }
}

/// What a pattern captures, where it compiles.
pub open spec fn captured(pattern: Chars, text: Chars, group: usize) -> Option<Option<Chars>> {
    if compiles(pattern, false) {
        regex_group(pattern, false, text, group)
    } else {
        None
    }
}

/// The title a rule carries.
pub open spec fn inline_title(b: Banners, caught: Option<Chars>) -> Option<Chars> {
    match caught {
        Some(t) => {
            let title = ruleless(t, b.rule_chars@);
            if wordy_text(title) {
                Some(title)
            } else {
                None
            }
        },
        None => None,
    }
}

/// What a banner says, by what the rule and the short rule captured in it.
pub open spec fn title_by(
    b: Banners,
    text: Chars,
    rule: Option<Option<Chars>>,
    short: Option<Option<Chars>>,
) -> Option<Option<Chars>> {
    let markers = b.skip_markers.deep_view();
    if skipped(text, markers) {
        None
    } else {
        match rule {
            Some(caught) => match inline_title(b, caught) {
                Some(t) => if skipped(t, markers) {
                    None
                } else {
                    Some(Some(t))
                },
                None => Some(None),
            },
            None => match short {
                Some(Some(caught)) => match inline_title(b, Some(caught)) {
                    Some(t) => if skipped(t, markers) {
                        None
                    } else {
                        Some(Some(t))
                    },
                    None => None,
                },
                _ => None,
            },
        }
    }
}

/// What a banner says: nothing where the text is none, and no title for a bare rule.
pub open spec fn title_of(b: Banners, text: Chars) -> Option<Option<Chars>> {
    title_by(
        b,
        text,
        if b.rule_chars@.len() > 0 {
            captured(rule_pattern(b), text, 1)
        } else {
            None
        },
        captured(short_pattern(), text, 2),
    )
}

/// The title in what a rule captured.
pub fn inline_title_in(b: &Banners, caught: Option<String>) -> (r: Option<String>)
    ensures
        r.deep_view() == inline_title(*b, caught.deep_view()),
{
    match caught {
        Some(t) => {
            let title = trim_rule(t.as_str(), b.rule_chars.as_str());
            if has_word(title.as_str()) {
                Some(title)
            } else {
                None
            }
        },
        None => None,
    }
}

/// What a banner says, by what the rule and the short rule captured in it. Editor folding markers
/// are never banners.
pub fn titled(
    b: &Banners,
    text: &str,
    rule: Option<Option<String>>,
    short: Option<Option<String>>,
) -> (r: Option<Option<String>>)
    ensures
        r.deep_view() == title_by(*b, text@, rule.deep_view(), short.deep_view()),
{
    if is_skipped(text, &b.skip_markers) {
        return None;
    }
    match rule {
        Some(caught) => match inline_title_in(b, caught) {
            Some(t) => if is_skipped(t.as_str(), &b.skip_markers) {
                None
            } else {
                Some(Some(t))
            },
            None => Some(None),
        },
        None => match short {
            Some(Some(caught)) => match inline_title_in(b, Some(caught)) {
                Some(t) => if is_skipped(t.as_str(), &b.skip_markers) {
                    None
                } else {
                    Some(Some(t))
                },
                None => None,
            },
            _ => None,
        },
    }
}

impl<'c> Walker<'c> {
    /// A title when `text` is a banner, none of its own for a bare rule.
    pub fn banner_title(&self, text: &str) -> (r: Option<Option<String>>)
        requires
            self.ok(),
        ensures
            r.deep_view() == title_of(self.cfg.banners, text@),
    {
        let rule = match &self.rule {
            Some(p) => p.group(text, 1),
            None => None,
        };
        let short = self.short.group(text, 2);
        titled(&self.cfg.banners, text, rule, short)
    }

    /// Does the text label a phase?
    pub fn is_phase(&self, text: &str) -> (r: bool)
        requires
            self.ok(),
        ensures
            r == labels_phase(*self.cfg, text@),
    {
        let mut k: usize = 0;
        while k < self.phase.len()
            invariant
                self.ok(),
                k <= self.phase.len(),
                forall|j: int|
                    0 <= j < k ==> !pattern_hit((#[trigger] self.cfg.phases.patterns@[j])@, true, text@),
            decreases self.phase.len() - k,
        {
            if self.phase[k].hits(text) {
                assert(pattern_hit(self.cfg.phases.patterns@[k as int]@, true, text@));
                return true;
            }
            k = k + 1;
        }
        false
    }
}

/// A comment that labels a phase: one of the patterns matches it.
pub open spec fn labels_phase(cfg: Comments, text: Chars) -> bool {
    exists|k: int|
        0 <= k < cfg.phases.patterns@.len() && pattern_hit((#[trigger] cfg.phases.patterns@[k])@, true, text)
}

} // verus!

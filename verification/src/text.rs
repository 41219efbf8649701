//! Text: strings seen as sequences of characters, and the operations every pass shares.
//!
//! A `&str` or `String` is modelled by its view, a `Seq<char>`; a list of strings by its deep
//! view, a `Seq<Seq<char>>`. Every operation here states its result over those views.

use vstd::prelude::*;

verus! {

/// A text.
pub type Chars = Seq<char>;

// ---------- what std gives ----------

/// `String::push`: the character is appended.
pub assume_specification[ String::push ](s: &mut String, c: char)
    ensures
        final(s)@ == old(s)@.push(c),
;

/// What `char::is_whitespace` answers: the Unicode property `White_Space`.
pub uninterp spec fn white(c: char) -> bool;

/// `char::is_whitespace` answers by the character alone. Of the characters it accepts, the
/// blank, the tab and the two line ends are stated, and that no printable ASCII character is one.
#[verifier::external_body]
pub(crate) fn is_white(c: char) -> (r: bool)
    ensures
        r == white(c),
        c == ' ' || c == '\t' || c == '\n' || c == '\r' ==> r,
        '!' <= c <= '~' ==> !r,
{
    c.is_whitespace()
}

/// What `char::is_alphanumeric` answers: the Unicode properties `Alphabetic` and `Numeric`.
pub uninterp spec fn alphanumeric(c: char) -> bool;

/// `char::is_alphanumeric` answers by the character alone. On ASCII it accepts the letters and
/// the digits and nothing else.
#[verifier::external_body]
pub(crate) fn is_alnum(c: char) -> (r: bool)
    ensures
        r == alphanumeric(c),
        c <= '\x7f' ==> r == ascii_alnum(c),
{
    c.is_alphanumeric()
}

/// What `char::is_uppercase` answers: the Unicode property `Uppercase`.
pub uninterp spec fn uppercase(c: char) -> bool;

/// `char::is_uppercase` answers by the character alone. On ASCII it accepts the capitals and
/// nothing else.
#[verifier::external_body]
pub(crate) fn is_upper(c: char) -> (r: bool)
    ensures
        r == uppercase(c),
        c <= '\x7f' ==> r == ascii_upper(c),
{
    c.is_uppercase()
}

/// What `str::to_uppercase` returns, character by character of Unicode's `Uppercase` mapping.
pub uninterp spec fn upper(s: Chars) -> Chars;

/// `str::to_uppercase` is a function of its text. Of an ASCII text it makes the small letters
/// capitals and leaves the rest.
#[verifier::external_body]
pub(crate) fn to_upper(s: &str) -> (r: String)
    ensures
        r@ == upper(s@),
        ascii_only(s@) ==> r@ == Seq::new(s@.len(), |i: int| big(s@[i])),
{
    s.to_uppercase()
}

/// What `str::to_lowercase` returns: Unicode's `Lowercase` mapping of each character, but for the
/// capital sigma, whose small letter depends on where in its word it stands.
pub uninterp spec fn lower(s: Chars) -> Chars;

/// `str::to_lowercase` is a function of its text. Of an ASCII text it makes the capitals small
/// letters and leaves the rest.
#[verifier::external_body]
pub(crate) fn to_lower(s: &str) -> (r: String)
    ensures
        r@ == lower(s@),
        ascii_only(s@) ==> r@ == Seq::new(s@.len(), |i: int| small(s@[i])),
{
    s.to_lowercase()
}

// ---------- character classes ----------

/// An ASCII digit.
pub open spec fn ascii_digit(c: char) -> bool {
    '0' <= c <= '9'
}

/// An ASCII lower-case letter.
pub open spec fn ascii_lower(c: char) -> bool {
    'a' <= c <= 'z'
}

/// An ASCII upper-case letter.
pub open spec fn ascii_upper(c: char) -> bool {
    'A' <= c <= 'Z'
}

/// An ASCII letter or digit.
pub open spec fn ascii_alnum(c: char) -> bool {
    ascii_digit(c) || ascii_lower(c) || ascii_upper(c)
}

/// A text of ASCII characters.
pub open spec fn ascii_only(s: Chars) -> bool {
    forall|i: int| 0 <= i < s.len() ==> #[trigger] s[i] <= '\x7f'
}

/// An ASCII capital as its small letter, any other character as it is.
pub open spec fn small(c: char) -> char {
    if ascii_upper(c) {
        ((c as u8) + 32) as char
    } else {
        c
    }
}

pub fn to_small(c: char) -> (r: char)
    ensures
        r == small(c),
{
    if is_ascii_upper(c) {
        let n: u8 = c as u8;
        (n + 32) as char
    } else {
        c
    }
}

/// An ASCII small letter as its capital, any other character as it is.
pub open spec fn big(c: char) -> char {
    if ascii_lower(c) {
        ((c as u8) - 32) as char
    } else {
        c
    }
}

pub fn is_ascii_digit(c: char) -> (r: bool)
    ensures
        r == ascii_digit(c),
{
    '0' <= c && c <= '9'
}

pub fn is_ascii_lower(c: char) -> (r: bool)
    ensures
        r == ascii_lower(c),
{
    'a' <= c && c <= 'z'
}

pub fn is_ascii_upper(c: char) -> (r: bool)
    ensures
        r == ascii_upper(c),
{
    'A' <= c && c <= 'Z'
}

pub fn is_ascii_alnum(c: char) -> (r: bool)
    ensures
        r == ascii_alnum(c),
{
    is_ascii_digit(c) || is_ascii_lower(c) || is_ascii_upper(c)
}

// ---------- between strings and character vectors ----------

/// The characters of `s`.
pub fn chars(s: &str) -> (out: Vec<char>)
    ensures
        out@ == s@,
{
    let mut out: Vec<char> = Vec::new();
    for c in it: s.chars()
        invariant
            it.seq() == s@,
            out@ == it.seq().take(it.index()),
    {
        out.push(c);
        assert(it.seq().take(it.index() + 1) =~= it.seq().take(it.index() as int).push(c));
    }
    out
}

/// The string whose characters are `s[from..to]`.
pub fn slice(s: &Vec<char>, from: usize, to: usize) -> (out: String)
    requires
        from <= to <= s.len(),
    ensures
        out@ == s@.subrange(from as int, to as int),
{
    let mut out = String::new();
    let mut i: usize = from;
    while i < to
        invariant
            from <= i <= to <= s.len(),
            out@ == s@.subrange(from as int, i as int),
        decreases to - i,
    {
        out.push(s[i]);
        assert(s@.subrange(from as int, i + 1) =~= s@.subrange(from as int, i as int).push(s@[i as int]));
        i = i + 1;
    }
    out
}

/// The string whose characters are `s`.
pub fn string(s: &Vec<char>) -> (out: String)
    ensures
        out@ == s@,
{
    let out = slice(s, 0, s.len());
    assert(s@.subrange(0, s@.len() as int) =~= s@);
    out
}

/// The number of bytes of a text in UTF-8.
pub open spec fn byte_len(s: Chars) -> nat {
    vstd::utf8::encode_utf8(s).len()
}

/// A number as a machine holds it.
pub open spec fn capped_size(n: nat) -> usize {
    if n <= usize::MAX {
        n as usize
    } else {
        usize::MAX
    }
}

/// `s` with `t` appended.
pub fn plus(s: String, t: &str) -> (out: String)
    ensures
        out@ == s@ + t@,
{
    s.concat(t)
}

/// Are the two texts the same?
pub(crate) fn same(a: &str, b: &str) -> (r: bool)
    ensures
        r == (a@ == b@),
{
    let x = a.as_bytes();
    let y = b.as_bytes();
    proof {
        vstd::utf8::encode_utf8_decode_utf8(a@);
        vstd::utf8::encode_utf8_decode_utf8(b@);
    }
    if x.len() != y.len() {
        return false;
    }
    let mut i: usize = 0;
    while i < x.len()
        invariant
            i <= x.len() == y.len(),
            x@ == vstd::utf8::encode_utf8(a@),
            y@ == vstd::utf8::encode_utf8(b@),
            forall|j: int| 0 <= j < i ==> x@[j] == y@[j],
        decreases x.len() - i,
    {
        if x[i] != y[i] {
            return false;
        }
        i = i + 1;
    }
    assert(x@ =~= y@);
    true
}

// ---------- lists ----------

/// Append one element, seen through the deep view.
pub fn put<T: DeepView>(v: &mut Vec<T>, x: T)
    ensures
        final(v)@ == old(v)@.push(x),
        final(v).deep_view() == old(v).deep_view().push(x.deep_view()),
{
    v.push(x);
    assert(v.deep_view() =~= old(v).deep_view().push(x.deep_view()));
}

/// A copy of a list of strings.
pub fn copy_list(v: &Vec<String>) -> (out: Vec<String>)
    ensures
        out.deep_view() == v.deep_view(),
{
    let mut out: Vec<String> = Vec::new();
    let mut i: usize = 0;
    while i < v.len()
        invariant
            i <= v.len(),
            out.deep_view() == v.deep_view().take(i as int),
        decreases v.len() - i,
    {
        put(&mut out, v[i].clone());
        assert(v.deep_view().take(i + 1) =~= v.deep_view().take(i as int).push(v[i as int]@));
        i = i + 1;
    }
    assert(v.deep_view().take(v.len() as int) =~= v.deep_view());
    out
}

/// Append a copy of every string of `more`.
pub fn extend(v: &mut Vec<String>, more: &Vec<String>)
    ensures
        final(v).deep_view() == old(v).deep_view() + more.deep_view(),
{
    let mut i: usize = 0;
    while i < more.len()
        invariant
            i <= more.len(),
            v.deep_view() == old(v).deep_view() + more.deep_view().take(i as int),
        decreases more.len() - i,
    {
        put(v, more[i].clone());
        assert(old(v).deep_view() + more.deep_view().take(i + 1) =~= (old(v).deep_view() + more.deep_view().take(
            i as int,
        )).push(more[i as int]@));
        i = i + 1;
    }
    assert(more.deep_view().take(more.len() as int) =~= more.deep_view());
}

/// Does the list hold `s`?
pub fn list_has(list: &Vec<String>, s: &str) -> (r: bool)
    ensures
        r == list.deep_view().contains(s@),
{
    let mut i: usize = 0;
    while i < list.len()
        invariant
            i <= list.len(),
            forall|k: int| 0 <= k < i ==> list.deep_view()[k] != s@,
        decreases list.len() - i,
    {
        if same(list[i].as_str(), s) {
            assert(list.deep_view()[i as int] == s@);
            return true;
        }
        i = i + 1;
    }
    false
}

/// The position of the first `s` at or after `from`.
pub open spec fn index_from(list: Seq<Chars>, s: Chars, from: int) -> Option<int>
    decreases list.len() - from,
{
    if from < 0 || from >= list.len() {
        None
    } else if list[from] == s {
        Some(from)
    } else {
        index_from(list, s, from + 1)
    }
}

/// A machine index seen as a mathematical one.
pub open spec fn as_int(r: Option<usize>) -> Option<int> {
    match r {
        Some(i) => Some(i as int),
        None => None,
    }
}

/// The position of the first string of `list` equal to `s`.
pub fn position(list: &Vec<String>, s: &str) -> (r: Option<usize>)
    ensures
        as_int(r) == index_from(list.deep_view(), s@, 0),
{
    let mut i: usize = 0;
    while i < list.len()
        invariant
            i <= list.len(),
            index_from(list.deep_view(), s@, 0) == index_from(list.deep_view(), s@, i as int),
        decreases list.len() - i,
    {
        if same(list[i].as_str(), s) {
            return Some(i);
        }
        i = i + 1;
    }
    None
}

// ---------- prefixes, suffixes, searches ----------

/// Does `p` stand in `s` at `i`?
pub open spec fn stands_at(s: Chars, p: Chars, i: int) -> bool {
    0 <= i && i + p.len() <= s.len() && s.subrange(i, i + p.len()) == p
}

/// `s` begins with `p`.
pub open spec fn starts(s: Chars, p: Chars) -> bool {
    stands_at(s, p, 0)
}

/// `s` ends with `p`.
pub open spec fn ends(s: Chars, p: Chars) -> bool {
    stands_at(s, p, s.len() - p.len())
}

/// `s` without its prefix `p`, where it has it.
pub open spec fn without_prefix(s: Chars, p: Chars) -> Option<Chars> {
    if starts(s, p) {
        Some(s.skip(p.len() as int))
    } else {
        None
    }
}

/// `s` without its suffix `p`, where it has it.
pub open spec fn without_suffix(s: Chars, p: Chars) -> Option<Chars> {
    if ends(s, p) {
        Some(s.take(s.len() - p.len()))
    } else {
        None
    }
}

/// Does `p` stand in `s` at `i`?
pub fn is_at(s: &Vec<char>, p: &Vec<char>, i: usize) -> (r: bool)
    ensures
        r == stands_at(s@, p@, i as int),
{
    if i > s.len() || p.len() > s.len() - i {
        return false;
    }
    let mut k: usize = 0;
    while k < p.len()
        invariant
            i + p.len() <= s.len(),
            k <= p.len(),
            forall|j: int| 0 <= j < k ==> s@[i + j] == p@[j],
        decreases p.len() - k,
    {
        if s[i + k] != p[k] {
            assert(s@.subrange(i as int, i + p.len())[k as int] != p@[k as int]);
            return false;
        }
        k = k + 1;
    }
    assert(s@.subrange(i as int, i + p.len()) =~= p@);
    true
}

/// `s.starts_with(p)`.
pub fn starts_with(s: &str, p: &str) -> (r: bool)
    ensures
        r == starts(s@, p@),
{
    is_at(&chars(s), &chars(p), 0)
}

/// `s.ends_with(p)`.
pub fn ends_with(s: &str, p: &str) -> (r: bool)
    ensures
        r == ends(s@, p@),
{
    let a = chars(s);
    let b = chars(p);
    b.len() <= a.len() && is_at(&a, &b, a.len() - b.len())
}

/// `s.strip_prefix(p)`.
pub fn strip_prefix(s: &str, p: &str) -> (r: Option<String>)
    ensures
        r.deep_view() == without_prefix(s@, p@),
{
    let a = chars(s);
    let b = chars(p);
    if is_at(&a, &b, 0) {
        Some(slice(&a, b.len(), a.len()))
    } else {
        None
    }
}

/// `s.strip_suffix(p)`.
pub fn strip_suffix(s: &str, p: &str) -> (r: Option<String>)
    ensures
        r.deep_view() == without_suffix(s@, p@),
{
    let a = chars(s);
    let b = chars(p);
    if b.len() <= a.len() && is_at(&a, &b, a.len() - b.len()) {
        Some(slice(&a, 0, a.len() - b.len()))
    } else {
        None
    }
}

/// The first place at or after `from` where `p` stands in `s`.
pub open spec fn find_from(s: Chars, p: Chars, from: int) -> Option<int>
    decreases s.len() + 1 - from,
{
    if from < 0 || from + p.len() > s.len() {
        None
    } else if stands_at(s, p, from) {
        Some(from)
    } else {
        find_from(s, p, from + 1)
    }
}

/// `p` stands somewhere in `s`.
pub open spec fn holds(s: Chars, p: Chars) -> bool {
    find_from(s, p, 0) is Some
}

/// The first place at or after `from` where `p` stands in `s`.
pub fn find(s: &Vec<char>, p: &Vec<char>, from: usize) -> (r: Option<usize>)
    ensures
        as_int(r) == find_from(s@, p@, from as int),
        r matches Some(i) ==> from <= i && i + p.len() <= s.len() && stands_at(s@, p@, i as int),
{
    let mut i: usize = from;
    while i <= s.len() && p.len() <= s.len() - i
        invariant
            from <= i,
            find_from(s@, p@, from as int) == find_from(s@, p@, i as int),
        decreases s.len() + 1 - i,
    {
        if is_at(s, p, i) {
            return Some(i);
        }
        if i == s.len() {
            assert(s@.subrange(i as int, i + p.len()) =~= p@);
            return None;
        }
        i = i + 1;
    }
    None
}

/// `s.contains(p)`.
pub fn contains(s: &str, p: &str) -> (r: bool)
    ensures
        r == holds(s@, p@),
{
    find(&chars(s), &chars(p), 0).is_some()
}

/// A match of `p` in `s` is found, and the first one is.
pub proof fn find_is_first(s: Chars, p: Chars, from: int)
    requires
        0 <= from,
    ensures
        match find_from(s, p, from) {
            Some(i) => from <= i && stands_at(s, p, i) && forall|j: int|
                from <= j < i ==> !#[trigger] stands_at(s, p, j),
            None => forall|j: int| from <= j ==> !#[trigger] stands_at(s, p, j),
        },
    decreases s.len() + 1 - from,
{
    if from + p.len() <= s.len() && !stands_at(s, p, from) {
        find_is_first(s, p, from + 1);
    }
}

/// The last position of `c` in `s`.
pub open spec fn last_of(s: Chars, c: char) -> Option<int>
    decreases s.len(),
{
    if s.len() == 0 {
        None
    } else if s.last() == c {
        Some(s.len() - 1)
    } else {
        last_of(s.drop_last(), c)
    }
}

/// `s.rfind(c)`.
pub fn rfind(s: &Vec<char>, c: char) -> (r: Option<usize>)
    ensures
        as_int(r) == last_of(s@, c),
        r matches Some(i) ==> i < s.len(),
{
    let mut n: usize = s.len();
    assert(s@.take(n as int) =~= s@);
    while n > 0
        invariant
            n <= s.len(),
            last_of(s@, c) == last_of(s@.take(n as int), c),
        decreases n,
    {
        if s[n - 1] == c {
            return Some(n - 1);
        }
        assert(s@.take(n as int).drop_last() =~= s@.take(n - 1));
        n = n - 1;
    }
    None
}

/// What stands before and after the last `c` of `s`.
pub open spec fn around_last(s: Chars, c: char) -> Option<(Chars, Chars)> {
    match last_of(s, c) {
        Some(i) => Some((s.take(i), s.skip(i + 1))),
        None => None,
    }
}

/// `s.rsplit_once(c)`.
pub fn rsplit_once(s: &str, c: char) -> (r: Option<(String, String)>)
    ensures
        r.deep_view() == around_last(s@, c),
{
    let a = chars(s);
    match rfind(&a, c) {
        Some(i) => Some((slice(&a, 0, i), slice(&a, i + 1, a.len()))),
        None => None,
    }
}

/// The first position of `c` in `s` at or after `from`.
pub open spec fn first_of(s: Chars, c: char, from: int) -> Option<int>
    decreases s.len() - from,
{
    if from < 0 || from >= s.len() {
        None
    } else if s[from] == c {
        Some(from)
    } else {
        first_of(s, c, from + 1)
    }
}

/// `s.find(c)`.
pub fn find_char(s: &Vec<char>, c: char) -> (r: Option<usize>)
    ensures
        as_int(r) == first_of(s@, c, 0),
        r matches Some(i) ==> i < s.len() && s@[i as int] == c,
{
    let mut i: usize = 0;
    while i < s.len()
        invariant
            i <= s.len(),
            first_of(s@, c, 0) == first_of(s@, c, i as int),
        decreases s.len() - i,
    {
        if s[i] == c {
            return Some(i);
        }
        i = i + 1;
    }
    None
}

/// `s.contains(c)`.
pub fn has_char(s: &str, c: char) -> (r: bool)
    ensures
        r == s@.contains(c),
{
    let a = chars(s);
    let mut i: usize = 0;
    while i < a.len()
        invariant
            i <= a.len(),
            a@ == s@,
            forall|k: int| 0 <= k < i ==> a@[k] != c,
        decreases a.len() - i,
    {
        if a[i] == c {
            return true;
        }
        i = i + 1;
    }
    false
}

/// What stands before and after the first `c` of `s`.
pub open spec fn around_first(s: Chars, c: char) -> Option<(Chars, Chars)> {
    match first_of(s, c, 0) {
        Some(i) => Some((s.take(i), s.skip(i + 1))),
        None => None,
    }
}

/// `s.split_once(c)`.
pub fn split_once(s: &str, c: char) -> (r: Option<(String, String)>)
    ensures
        r.deep_view() == around_first(s@, c),
{
    let a = chars(s);
    match find_char(&a, c) {
        Some(i) => Some((slice(&a, 0, i), slice(&a, i + 1, a.len()))),
        None => None,
    }
}

/// The last place at or before `i` where `p` stands in `s`.
pub open spec fn find_back(s: Chars, p: Chars, i: int) -> Option<int>
    decreases i + 1,
{
    if i < 0 {
        None
    } else if stands_at(s, p, i) {
        Some(i)
    } else {
        find_back(s, p, i - 1)
    }
}

/// What follows the last `p` of `s`; all of `s` where there is none.
pub open spec fn after_last(s: Chars, p: Chars) -> Chars {
    match find_back(s, p, s.len() as int) {
        Some(i) => s.skip(i + p.len()),
        None => s,
    }
}

/// `s.rsplit(p).next()`, for a string `p`.
pub fn last_piece(s: &str, p: &str) -> (out: String)
    ensures
        out@ == after_last(s@, p@),
{
    let a = chars(s);
    let b = chars(p);
    let mut n: usize = a.len();
    loop
        invariant
            n <= a.len(),
            a@ == s@,
            b@ == p@,
            find_back(s@, p@, s@.len() as int) == find_back(s@, p@, n as int),
        decreases n,
    {
        if is_at(&a, &b, n) {
            return slice(&a, n + b.len(), a.len());
        }
        if n == 0 {
            assert(find_back(s@, p@, -1) is None);
            return s.to_owned();
        }
        n = n - 1;
    }
}

// ---------- splitting and joining ----------

/// The pieces of `s` between separators, from a piece that began at `from` and was read up to `i`.
pub open spec fn pieces_from(s: Chars, seps: Chars, from: int, i: int) -> Seq<Chars>
    decreases s.len() - i,
{
    if i < 0 || i >= s.len() {
        seq![s.subrange(from, s.len() as int)]
    } else if seps.contains(s[i]) {
        seq![s.subrange(from, i)] + pieces_from(s, seps, i + 1, i + 1)
    } else {
        pieces_from(s, seps, from, i + 1)
    }
}

/// The pieces of `s` between the characters of `seps`; one more than there are separators.
pub open spec fn pieces(s: Chars, seps: Chars) -> Seq<Chars> {
    pieces_from(s, seps, 0, 0)
}

/// `s.split(seps)`, for a set of separator characters.
pub fn split(s: &str, seps: &str) -> (out: Vec<String>)
    ensures
        out.deep_view() == pieces(s@, seps@),
        out.len() > 0,
{
    let a = chars(s);
    let mut out: Vec<String> = Vec::new();
    let mut from: usize = 0;
    let mut i: usize = 0;
    assert(out.deep_view() + pieces_from(a@, seps@, 0, 0) =~= pieces_from(a@, seps@, 0, 0));
    while i < a.len()
        invariant
            from <= i <= a.len(),
            a@ == s@,
            pieces(a@, seps@) == out.deep_view() + pieces_from(a@, seps@, from as int, i as int),
        decreases a.len() - i,
    {
        if has_char(seps, a[i]) {
            let ghost done = out.deep_view();
            let ghost rest = pieces_from(a@, seps@, i + 1, i + 1);
            put(&mut out, slice(&a, from, i));
            assert(done + (seq![a@.subrange(from as int, i as int)] + rest) =~= out.deep_view() + rest);
            from = i + 1;
        }
        i = i + 1;
    }
    let ghost done = out.deep_view();
    put(&mut out, slice(&a, from, a.len()));
    assert(done + seq![a@.subrange(from as int, a@.len() as int)] =~= out.deep_view());
    out
}

/// What stands between one `sep` and the next, from `from` on.
pub open spec fn parts_from(s: Chars, sep: Chars, from: int) -> Seq<Chars>
    decreases s.len() - from,
{
    if from < 0 || sep.len() == 0 {
        seq![s]
    } else {
        match find_from(s, sep, from) {
            Some(i) => if from <= i && i + sep.len() <= s.len() {
                seq![s.subrange(from, i)] + parts_from(s, sep, i + sep.len())
            } else {
                seq![s.subrange(from, s.len() as int)]
            },
            None => seq![s.subrange(from, s.len() as int)],
        }
    }
}

/// What stands between one `sep` and the next.
pub open spec fn parts(s: Chars, sep: Chars) -> Seq<Chars> {
    parts_from(s, sep, 0)
}

/// `s.split(sep)` for a text that is not empty.
pub fn split_on(s: &str, sep: &str) -> (out: Vec<String>)
    requires
        sep@.len() > 0,
    ensures
        out.deep_view() == parts(s@, sep@),
        out.len() > 0,
{
    let a = chars(s);
    let p = chars(sep);
    let mut out: Vec<String> = Vec::new();
    let mut from: usize = 0;
    assert(out.deep_view() + parts_from(a@, p@, 0) =~= parts_from(a@, p@, 0));
    loop
        invariant
            from <= a.len(),
            a@ == s@,
            p@ == sep@,
            p.len() > 0,
            parts(s@, sep@) == out.deep_view() + parts_from(a@, p@, from as int),
        decreases a.len() - from,
    {
        let ghost done = out.deep_view();
        proof {
            find_is_first(a@, p@, from as int);
        }
        match find(&a, &p, from) {
            Some(i) => {
                assert(stands_at(a@, p@, i as int));
                put(&mut out, slice(&a, from, i));
                let ghost rest = parts_from(a@, p@, i + p.len());
                assert(done + (seq![a@.subrange(from as int, i as int)] + rest) =~= out.deep_view() + rest);
                from = i + p.len();
            },
            None => {
                put(&mut out, slice(&a, from, a.len()));
                assert(done + seq![a@.subrange(from as int, a@.len() as int)] =~= out.deep_view());
                return out;
            },
        }
    }
}

/// The strings of `list` from `i` on, each after `sep`.
pub open spec fn joined_from(list: Seq<Chars>, sep: Chars, acc: Chars, i: int) -> Chars
    decreases list.len() - i,
{
    if i < 0 || i >= list.len() {
        acc
    } else {
        joined_from(list, sep, acc + sep + list[i], i + 1)
    }
}

/// The strings of `list`, `sep` between each two.
pub open spec fn joined(list: Seq<Chars>, sep: Chars) -> Chars {
    if list.len() == 0 {
        Seq::empty()
    } else {
        joined_from(list, sep, list[0], 1)
    }
}

/// `list.join(sep)`.
pub fn join(list: &Vec<String>, sep: &str) -> (out: String)
    ensures
        out@ == joined(list.deep_view(), sep@),
{
    if list.len() == 0 {
        return String::new();
    }
    let mut out = list[0].clone();
    let mut i: usize = 1;
    while i < list.len()
        invariant
            1 <= i <= list.len(),
            joined(list.deep_view(), sep@) == joined_from(list.deep_view(), sep@, out@, i as int),
        decreases list.len() - i,
    {
        out.append(sep);
        out.append(list[i].as_str());
        i = i + 1;
    }
    out
}

/// One line without its ending: a final carriage return goes where a line feed followed it.
pub open spec fn chomped(line: Chars) -> Chars {
    if line.len() > 0 && line.last() == '\r' {
        line.drop_last()
    } else {
        line
    }
}

/// The lines of `s` from one that began at `from` and was read up to `i`.
pub open spec fn lines_from(s: Chars, from: int, i: int) -> Seq<Chars>
    decreases s.len() - i,
{
    if i < 0 || i >= s.len() {
        if from >= s.len() {
            Seq::empty()
        } else {
            seq![s.subrange(from, s.len() as int)]
        }
    } else if s[i] == '\n' {
        seq![chomped(s.subrange(from, i))] + lines_from(s, i + 1, i + 1)
    } else {
        lines_from(s, from, i + 1)
    }
}

/// The lines of a text: what stands between line feeds, without the carriage return before one,
/// and without an empty last piece.
pub open spec fn lines_of(s: Chars) -> Seq<Chars> {
    lines_from(s, 0, 0)
}

/// `s.lines()`.
pub fn lines(s: &str) -> (out: Vec<String>)
    ensures
        out.deep_view() == lines_of(s@),
{
    let a = chars(s);
    let mut out: Vec<String> = Vec::new();
    let mut from: usize = 0;
    let mut i: usize = 0;
    assert(out.deep_view() + lines_from(a@, 0, 0) =~= lines_from(a@, 0, 0));
    while i < a.len()
        invariant
            from <= i <= a.len(),
            a@ == s@,
            lines_of(a@) == out.deep_view() + lines_from(a@, from as int, i as int),
        decreases a.len() - i,
    {
        if a[i] == '\n' {
            let ghost done = out.deep_view();
            let ghost rest = lines_from(a@, i + 1, i + 1);
            let end: usize = if from < i && a[i - 1] == '\r' {
                i - 1
            } else {
                i
            };
            let ghost line = a@.subrange(from as int, i as int);
            assert(chomped(line) =~= a@.subrange(from as int, end as int));
            put(&mut out, slice(&a, from, end));
            assert(done + (seq![chomped(line)] + rest) =~= out.deep_view() + rest);
            from = i + 1;
        }
        i = i + 1;
    }
    let ghost done = out.deep_view();
    if from < a.len() {
        put(&mut out, slice(&a, from, a.len()));
        assert(done + seq![a@.subrange(from as int, a@.len() as int)] =~= out.deep_view());
    } else {
        assert(done + Seq::<Chars>::empty() =~= done);
    }
    out
}

/// A character of a word: a letter, a digit or `_`.
pub open spec fn wordy(c: char) -> bool {
    alphanumeric(c) || c == '_'
}

/// The words of `s`, from one that began at `from` and was read up to `i`.
pub open spec fn words_from(s: Chars, from: int, i: int) -> Seq<Chars>
    decreases s.len() - i,
{
    if i < 0 || i >= s.len() {
        if from < s.len() {
            seq![s.subrange(from, s.len() as int)]
        } else {
            Seq::empty()
        }
    } else if wordy(s[i]) {
        words_from(s, from, i + 1)
    } else if from < i {
        seq![s.subrange(from, i)] + words_from(s, i + 1, i + 1)
    } else {
        words_from(s, i + 1, i + 1)
    }
}

/// The words of `s`: the longest runs of letters, digits and `_`.
pub open spec fn words_of(s: Chars) -> Seq<Chars> {
    words_from(s, 0, 0)
}

/// The words of `s`.
pub fn words(s: &str) -> (out: Vec<String>)
    ensures
        out.deep_view() == words_of(s@),
{
    let a = chars(s);
    let mut out: Vec<String> = Vec::new();
    let mut from: usize = 0;
    let mut i: usize = 0;
    assert(out.deep_view() + words_from(a@, 0, 0) =~= words_from(a@, 0, 0));
    while i < a.len()
        invariant
            from <= i <= a.len(),
            a@ == s@,
            words_of(a@) == out.deep_view() + words_from(a@, from as int, i as int),
        decreases a.len() - i,
    {
        let c: char = a[i];
        if !(is_alnum(c) || c == '_') {
            if from < i {
                let ghost done = out.deep_view();
                let ghost rest = words_from(a@, i + 1, i + 1);
                put(&mut out, slice(&a, from, i));
                assert(done + (seq![a@.subrange(from as int, i as int)] + rest) =~= out.deep_view() + rest);
            }
            from = i + 1;
        }
        i = i + 1;
    }
    let ghost done = out.deep_view();
    if from < a.len() {
        put(&mut out, slice(&a, from, a.len()));
        assert(done + seq![a@.subrange(from as int, a@.len() as int)] =~= out.deep_view());
    } else {
        assert(done + Seq::<Chars>::empty() =~= done);
    }
    out
}

/// The fields of `s`, from one that began at `from` and was read up to `i`.
pub open spec fn fields_from(s: Chars, from: int, i: int) -> Seq<Chars>
    decreases s.len() - i,
{
    if i < 0 || i >= s.len() {
        if from < s.len() {
            seq![s.subrange(from, s.len() as int)]
        } else {
            Seq::empty()
        }
    } else if !white(s[i]) {
        fields_from(s, from, i + 1)
    } else if from < i {
        seq![s.subrange(from, i)] + fields_from(s, i + 1, i + 1)
    } else {
        fields_from(s, i + 1, i + 1)
    }
}

/// The fields of `s`: what stands between white space.
pub open spec fn fields_of(s: Chars) -> Seq<Chars> {
    fields_from(s, 0, 0)
}

/// The fields of `s`.
pub fn fields(s: &str) -> (out: Vec<String>)
    ensures
        out.deep_view() == fields_of(s@),
{
    let a = chars(s);
    let mut out: Vec<String> = Vec::new();
    let mut from: usize = 0;
    let mut i: usize = 0;
    assert(out.deep_view() + fields_from(a@, 0, 0) =~= fields_from(a@, 0, 0));
    while i < a.len()
        invariant
            from <= i <= a.len(),
            a@ == s@,
            fields_of(a@) == out.deep_view() + fields_from(a@, from as int, i as int),
        decreases a.len() - i,
    {
        if is_white(a[i]) {
            if from < i {
                let ghost done = out.deep_view();
                let ghost rest = fields_from(a@, i + 1, i + 1);
                put(&mut out, slice(&a, from, i));
                assert(done + (seq![a@.subrange(from as int, i as int)] + rest) =~= out.deep_view() + rest);
            }
            from = i + 1;
        }
        i = i + 1;
    }
    let ghost done = out.deep_view();
    if from < a.len() {
        put(&mut out, slice(&a, from, a.len()));
        assert(done + seq![a@.subrange(from as int, a@.len() as int)] =~= out.deep_view());
    } else {
        assert(done + Seq::<Chars>::empty() =~= done);
    }
    out
}

// ---------- trimming ----------

/// `s` from its first character that is not white.
pub open spec fn trimmed_start(s: Chars) -> Chars
    decreases s.len(),
{
    if s.len() > 0 && white(s[0]) {
        trimmed_start(s.skip(1))
    } else {
        s
    }
}

/// `s` up to its last character that is not white.
pub open spec fn trimmed_end(s: Chars) -> Chars
    decreases s.len(),
{
    if s.len() > 0 && white(s.last()) {
        trimmed_end(s.drop_last())
    } else {
        s
    }
}

/// `s` without white space at either end.
pub open spec fn trimmed(s: Chars) -> Chars {
    trimmed_end(trimmed_start(s))
}

/// `s.trim_start()`.
pub fn trim_start(s: &str) -> (out: String)
    ensures
        out@ == trimmed_start(s@),
{
    let a = chars(s);
    let mut i: usize = 0;
    assert(a@.skip(0) =~= a@);
    while i < a.len() && is_white(a[i])
        invariant
            i <= a.len(),
            trimmed_start(a@) == trimmed_start(a@.skip(i as int)),
        decreases a.len() - i,
    {
        assert(a@.skip(i as int).skip(1) =~= a@.skip(i + 1));
        i = i + 1;
    }
    slice(&a, i, a.len())
}

/// `s.trim_end()`.
pub fn trim_end(s: &str) -> (out: String)
    ensures
        out@ == trimmed_end(s@),
{
    let a = chars(s);
    let mut n: usize = a.len();
    assert(a@.take(n as int) =~= a@);
    while n > 0 && is_white(a[n - 1])
        invariant
            n <= a.len(),
            trimmed_end(a@) == trimmed_end(a@.take(n as int)),
        decreases n,
    {
        assert(a@.take(n as int).drop_last() =~= a@.take(n - 1));
        n = n - 1;
    }
    slice(&a, 0, n)
}

/// `s.trim()`.
pub fn trim(s: &str) -> (out: String)
    ensures
        out@ == trimmed(s@),
{
    trim_end(trim_start(s).as_str())
}

/// `s` from its first character outside `set`.
pub open spec fn stripped_start(s: Chars, set: Chars) -> Chars
    decreases s.len(),
{
    if s.len() > 0 && set.contains(s[0]) {
        stripped_start(s.skip(1), set)
    } else {
        s
    }
}

/// `s` up to its last character outside `set`.
pub open spec fn stripped_end(s: Chars, set: Chars) -> Chars
    decreases s.len(),
{
    if s.len() > 0 && set.contains(s.last()) {
        stripped_end(s.drop_last(), set)
    } else {
        s
    }
}

/// `s.trim_start_matches(set)`, for a set of characters.
pub fn strip_start(s: &str, set: &str) -> (out: String)
    ensures
        out@ == stripped_start(s@, set@),
{
    let a = chars(s);
    let mut i: usize = 0;
    assert(a@.skip(0) =~= a@);
    while i < a.len() && has_char(set, a[i])
        invariant
            i <= a.len(),
            stripped_start(a@, set@) == stripped_start(a@.skip(i as int), set@),
        decreases a.len() - i,
    {
        assert(a@.skip(i as int).skip(1) =~= a@.skip(i + 1));
        i = i + 1;
    }
    slice(&a, i, a.len())
}

/// `s.trim_end_matches(set)`, for a set of characters.
pub fn strip_end(s: &str, set: &str) -> (out: String)
    ensures
        out@ == stripped_end(s@, set@),
{
    let a = chars(s);
    let mut n: usize = a.len();
    assert(a@.take(n as int) =~= a@);
    while n > 0 && has_char(set, a[n - 1])
        invariant
            n <= a.len(),
            stripped_end(a@, set@) == stripped_end(a@.take(n as int), set@),
        decreases n,
    {
        assert(a@.take(n as int).drop_last() =~= a@.take(n - 1));
        n = n - 1;
    }
    slice(&a, 0, n)
}

/// `s` without any number of leading `p`, where `p` is not empty.
pub open spec fn without_leading(s: Chars, p: Chars) -> Chars
    decreases s.len(),
{
    if p.len() > 0 && starts(s, p) {
        without_leading(s.skip(p.len() as int), p)
    } else {
        s
    }
}

/// `s` without any number of trailing `p`, where `p` is not empty.
pub open spec fn without_trailing(s: Chars, p: Chars) -> Chars
    decreases s.len(),
{
    if p.len() > 0 && ends(s, p) {
        without_trailing(s.take(s.len() - p.len()), p)
    } else {
        s
    }
}

/// `s.trim_start_matches(p)`, for a string `p`.
pub fn trim_leading(s: &str, p: &str) -> (out: String)
    ensures
        out@ == without_leading(s@, p@),
    decreases s@.len(),
{
    match strip_prefix(s, p) {
        Some(rest) => {
            if p.is_empty() {
                s.to_owned()
            } else {
                trim_leading(rest.as_str(), p)
            }
        },
        None => s.to_owned(),
    }
}

/// `s.trim_end_matches(p)`, for a string `p`.
pub fn trim_trailing(s: &str, p: &str) -> (out: String)
    ensures
        out@ == without_trailing(s@, p@),
    decreases s@.len(),
{
    match strip_suffix(s, p) {
        Some(rest) => {
            if p.is_empty() {
                s.to_owned()
            } else {
                trim_trailing(rest.as_str(), p)
            }
        },
        None => s.to_owned(),
    }
}

/// `s` with every `a` become `b`.
pub open spec fn swapped(s: Chars, a: char, b: char) -> Chars {
    Seq::new(s.len(), |i: int| if s[i] == a { b } else { s[i] })
}

/// `s.replace(a, b)`, for two characters.
pub fn replace(s: &str, a: char, b: char) -> (out: String)
    ensures
        out@ == swapped(s@, a, b),
{
    let v = chars(s);
    let mut out = String::new();
    let mut i: usize = 0;
    while i < v.len()
        invariant
            i <= v.len(),
            v@ == s@,
            out@ == swapped(s@, a, b).take(i as int),
        decreases v.len() - i,
    {
        if v[i] == a {
            out.push(b);
        } else {
            out.push(v[i]);
        }
        assert(swapped(s@, a, b).take(i + 1) =~= swapped(s@, a, b).take(i as int).push(swapped(s@, a, b)[i as int]));
        i = i + 1;
    }
    assert(swapped(s@, a, b).take(v@.len() as int) =~= swapped(s@, a, b));
    out
}

// ---------- numbers ----------

/// The decimal digits of `n`.
pub open spec fn digits(n: nat) -> Chars
    decreases n,
{
    if n < 10 {
        seq![(n + 48) as char]
    } else {
        digits(n / 10).push((n % 10 + 48) as char)
    }
}

/// `n.to_string()`.
pub fn decimal(n: usize) -> (out: String)
    ensures
        out@ == digits(n as nat),
    decreases n,
{
    let d: u8 = (n % 10) as u8;
    let c: char = (48 + d) as char;
    if n < 10 {
        let mut s = String::new();
        s.push(c);
        assert(s@ =~= seq![c]);
        s
    } else {
        let mut s = decimal(n / 10);
        s.push(c);
        s
    }
}

// ---------- order ----------

/// The order of strings: by the first character in which they differ, else the shorter first.
pub open spec fn before_from(a: Chars, b: Chars, i: int) -> bool
    decreases a.len() - i,
{
    if i < 0 || i >= b.len() {
        false
    } else if i >= a.len() {
        true
    } else if a[i] != b[i] {
        a[i] < b[i]
    } else {
        before_from(a, b, i + 1)
    }
}

/// `a < b`.
pub open spec fn before(a: Chars, b: Chars) -> bool {
    before_from(a, b, 0)
}

/// `a < b`, in the order of strings.
pub fn less(a: &str, b: &str) -> (r: bool)
    ensures
        r == before(a@, b@),
{
    let x = chars(a);
    let y = chars(b);
    let mut i: usize = 0;
    while i < x.len() && i < y.len()
        invariant
            x@ == a@,
            y@ == b@,
            i <= x.len(),
            i <= y.len(),
            before_from(x@, y@, 0) == before_from(x@, y@, i as int),
        decreases x.len() - i,
    {
        if x[i] != y[i] {
            return x[i] < y[i];
        }
        i = i + 1;
    }
    i < y.len()
}

// ---------- padding ----------

/// `n` blanks.
pub open spec fn blanks(n: nat) -> Chars {
    Seq::new(n, |i: int| ' ')
}

/// `s` with blanks before it up to `w` characters.
pub open spec fn right_aligned(s: Chars, w: nat) -> Chars {
    if s.len() < w {
        blanks((w - s.len()) as nat) + s
    } else {
        s
    }
}

/// `s` with blanks after it up to `w` characters.
pub open spec fn left_aligned(s: Chars, w: nat) -> Chars {
    if s.len() < w {
        s + blanks((w - s.len()) as nat)
    } else {
        s
    }
}

fn spaces(n: usize) -> (out: String)
    ensures
        out@ == blanks(n as nat),
{
    let mut out = String::new();
    let mut i: usize = 0;
    assert(out@ =~= blanks(0));
    while i < n
        invariant
            i <= n,
            out@ == blanks(i as nat),
        decreases n - i,
    {
        out.push(' ');
        assert(out@ =~= blanks((i + 1) as nat));
        i = i + 1;
    }
    out
}

/// `format!("{s:>w$}")`.
pub fn align_right(s: &str, w: usize) -> (out: String)
    ensures
        out@ == right_aligned(s@, w as nat),
{
    let n: usize = s.unicode_len();
    if n < w {
        plus(spaces(w - n), s)
    } else {
        s.to_owned()
    }
}

/// `format!("{s:<w$}")`.
pub fn align_left(s: &str, w: usize) -> (out: String)
    ensures
        out@ == left_aligned(s@, w as nat),
{
    let n: usize = s.unicode_len();
    if n < w {
        plus(s.to_owned(), spaces(w - n).as_str())
    } else {
        s.to_owned()
    }
}

/// `list` from `k` on, one line each, after `prefix`.
pub open spec fn lines_after(acc: Chars, list: Seq<Chars>, prefix: Chars, k: int) -> Chars
    decreases list.len() - k,
{
    if k < 0 || k >= list.len() {
        acc
    } else {
        lines_after(acc + prefix + list[k] + "\n"@, list, prefix, k + 1)
    }
}

/// Append every string of `list` as a line of its own, after `prefix`.
pub fn add_lines(o: &mut String, list: &Vec<String>, prefix: &str)
    ensures
        final(o)@ == lines_after(old(o)@, list.deep_view(), prefix@, 0),
{
    let mut k: usize = 0;
    while k < list.len()
        invariant
            k <= list.len(),
            lines_after(old(o)@, list.deep_view(), prefix@, 0) == lines_after(
                o@,
                list.deep_view(),
                prefix@,
                k as int,
            ),
        decreases list.len() - k,
    {
        o.append(prefix);
        o.append(list[k].as_str());
        o.append("\n");
        k = k + 1;
    }
}

/// How far, from `k` on, ASCII letters and digits and the characters of `extra` reach.
pub open spec fn run_end(s: Chars, extra: Chars, k: int) -> int
    decreases s.len() - k,
{
    if k < 0 || k >= s.len() || !(ascii_alnum(s[k]) || extra.contains(s[k])) {
        k
    } else {
        run_end(s, extra, k + 1)
    }
}

/// The ASCII letters and digits and the characters of `extra` that `s` starts with.
pub open spec fn run_of(s: Chars, extra: Chars) -> Chars {
    s.take(run_end(s, extra, 0))
}

/// The ASCII letters and digits and the characters of `extra` that `s` starts with.
pub fn leading_run(s: &str, extra: &str) -> (out: String)
    ensures
        out@ == run_of(s@, extra@),
{
    let v = chars(s);
    let mut k: usize = 0;
    while k < v.len() && (is_ascii_alnum(v[k]) || has_char(extra, v[k]))
        invariant
            k <= v.len(),
            v@ == s@,
            run_end(s@, extra@, 0) == run_end(s@, extra@, k as int),
        decreases v.len() - k,
    {
        k = k + 1;
    }
    slice(&v, 0, k)
}

/// How far back, from `k`, ASCII letters and digits and the characters of `extra` reach.
pub open spec fn run_start(s: Chars, extra: Chars, k: int) -> int
    decreases k,
{
    if k <= 0 || k > s.len() || !(ascii_alnum(s[k - 1]) || extra.contains(s[k - 1])) {
        k
    } else {
        run_start(s, extra, k - 1)
    }
}

/// The ASCII letters and digits and the characters of `extra` that `s` ends with.
pub open spec fn tail_run(s: Chars, extra: Chars) -> Chars {
    s.subrange(run_start(s, extra, s.len() as int), s.len() as int)
}

/// The ASCII letters and digits and the characters of `extra` that `s` ends with.
pub fn trailing_run(s: &str, extra: &str) -> (out: String)
    ensures
        out@ == tail_run(s@, extra@),
{
    let v = chars(s);
    let mut k: usize = v.len();
    while k > 0 && (is_ascii_alnum(v[k - 1]) || has_char(extra, v[k - 1]))
        invariant
            k <= v.len(),
            v@ == s@,
            run_start(s@, extra@, s@.len() as int) == run_start(s@, extra@, k as int),
        decreases k,
    {
        k = k - 1;
    }
    slice(&v, k, v.len())
}

} // verus!

//! Line numbers from byte offsets.

use vstd::prelude::*;
use vstd::utf8::{encode_scalar, encode_utf8};

use crate::text::{lines_from, lines_of, Chars};

verus! {

/// A line feed.
pub const NEWLINE: u8 = 10;

/// Byte offset of every line start, of the bytes before `n`.
pub open spec fn starts_upto(src: Seq<u8>, n: int) -> Seq<int>
    decreases n,
{
    if n <= 0 {
        seq![0]
    } else if src[n - 1] == NEWLINE {
        starts_upto(src, n - 1).push(n)
    } else {
        starts_upto(src, n - 1)
    }
}

/// Byte offset of every line start: the first byte, and each one after a line feed.
pub open spec fn starts_of(src: Seq<u8>) -> Seq<int> {
    starts_upto(src, src.len() as int)
}

/// How many line feeds stand before byte `n`.
pub open spec fn newlines(src: Seq<u8>, n: int) -> nat
    decreases n,
{
    if n <= 0 {
        0
    } else {
        newlines(src, n - 1) + (if n <= src.len() && src[n - 1] == NEWLINE {
            1nat
        } else {
            0
        })
    }
}

/// A byte that makes a line not blank.
pub open spec fn inked(b: u8) -> bool {
    b != 32 && b != 9 && b != 10 && b != 12 && b != 13
}

/// Some byte from `s` to `e` is not white space.
pub open spec fn inked_in(src: Seq<u8>, s: int, e: int) -> bool {
    exists|i: int| s <= i < e && 0 <= i < src.len() && inked(#[trigger] src[i])
}

/// How many lines a text has: a last line feed ends the last line rather than starting a new one.
pub open spec fn line_count(src: Seq<u8>) -> nat {
    newlines(src, src.len() as int) + (if src.len() > 0 && src.last() != NEWLINE {
        1nat
    } else {
        0
    })
}

/// The bytes of line `l`, from 1, without its line feed, in a text of `len` bytes, where `index` says
/// where lines start.
pub open spec fn line_span(index: Seq<u8>, len: int, l: int) -> (int, int) {
    let starts = starts_of(index);
    let s = if 0 <= l - 1 < starts.len() {
        starts[l - 1]
    } else {
        len
    };
    let e = if 0 <= l < starts.len() {
        starts[l] - 1
    } else {
        len
    };
    let e = if e < s {
        s
    } else {
        e
    };
    (
        s,
        if e < len {
            e
        } else {
            len
        },
    )
}

/// The lines from `start` to `end` that are not blank in `src`, where `index` says where lines start.
pub open spec fn inked_lines(index: Seq<u8>, src: Seq<u8>, start: int, end: int) -> nat
    decreases end - start + 1,
{
    if start > end {
        0
    } else {
        let (s, e) = line_span(index, src.len() as int, end);
        inked_lines(index, src, start, end - 1) + (if inked_in(src, s, e) {
            1nat
        } else {
            0
        })
    }
}

/// The lines from `start` to `end` that there are start within `len` bytes.
pub open spec fn starts_within(index: Seq<u8>, len: int, start: int, end: int) -> bool {
    forall|a: int| start - 1 <= a < end && 0 <= a < starts_of(index).len() ==> #[trigger] starts_of(index)[a] <= len
}

/// The line holding a byte, from 1: one more than there are line feeds before it.
pub open spec fn line_at(src: Seq<u8>, byte: int) -> nat {
    newlines(
        src,
        if byte < src.len() {
            byte
        } else {
            src.len() as int
        },
    ) + 1
}

/// Line numbers from byte offsets: rows on comment nodes holding multi-byte rule characters have
/// been wrong in the past, so comment passes never read them.
pub struct LineIndex {
    /// Byte offset of every line start; the first is 0.
    starts: Vec<usize>,
    /// How many bytes there are.
    len: usize,
    /// The bytes they are of.
    src: Ghost<Seq<u8>>,
}

impl View for LineIndex {
    type V = Seq<u8>;

    closed spec fn view(&self) -> Seq<u8> {
        self.src@
    }
}

proof fn starts_ascend(src: Seq<u8>, n: int)
    requires
        0 <= n <= src.len(),
    ensures
        starts_upto(src, n).len() == newlines(src, n) + 1,
        starts_upto(src, n)[0] == 0,
        forall|a: int| 0 <= a < starts_upto(src, n).len() ==> 0 <= #[trigger] starts_upto(src, n)[a] <= n,
        forall|a: int, b: int|
            0 <= a < b < starts_upto(src, n).len() ==> #[trigger] starts_upto(src, n)[a] < #[trigger] starts_upto(
                src,
                n,
            )[b],
    decreases n,
{
    if n > 0 {
        starts_ascend(src, n - 1);
        let rest = starts_upto(src, n - 1);
        assert forall|a: int, b: int| 0 <= a < b < starts_upto(src, n).len() implies #[trigger] starts_upto(src, n)[a]
            < #[trigger] starts_upto(src, n)[b] by {
            assert(0 <= rest[a] <= n - 1);
            if b < rest.len() {
                assert(rest[a] < rest[b]);
            }
        }
    }
}

/// The starts at or before a byte are as many as the line feeds before it, and one.
proof fn starts_count(src: Seq<u8>, n: int, byte: int, p: int)
    requires
        0 <= n <= src.len(),
        0 <= byte,
        0 <= p <= starts_upto(src, n).len(),
        forall|i: int| 0 <= i < p ==> #[trigger] starts_upto(src, n)[i] <= byte,
        forall|i: int| p <= i < starts_upto(src, n).len() ==> #[trigger] starts_upto(src, n)[i] > byte,
    ensures
        p == newlines(
            src,
            if byte < n {
                byte
            } else {
                n
            },
        ) + 1,
    decreases n,
{
    starts_ascend(src, n);
    let all = starts_upto(src, n);
    if n <= byte {
        if p < all.len() {
            assert(all[p] > byte);
            assert(0 <= all[p] <= n);
        }
    } else {
        let rest = starts_upto(src, n - 1);
        if src[n - 1] == NEWLINE {
            assert(all[all.len() - 1] == n);
            if p == all.len() {
                assert(all[all.len() - 1] <= byte);
            }
            assert forall|i: int| 0 <= i < p implies #[trigger] rest[i] <= byte by {
                assert(all[i] <= byte);
            }
            assert forall|i: int| p <= i < rest.len() implies #[trigger] rest[i] > byte by {
                assert(all[i] > byte);
            }
        }
        starts_count(src, n - 1, byte, p);
    }
}

/// The last line starts at the end exactly where a line feed ends the text, or there is none.
proof fn last_start(src: Seq<u8>, n: int)
    requires
        0 <= n <= src.len(),
    ensures
        starts_upto(src, n).len() > 0,
        starts_upto(src, n).last() == n <==> n == 0 || src[n - 1] == NEWLINE,
    decreases n,
{
    starts_ascend(src, n);
    if n > 0 {
        starts_ascend(src, n - 1);
        let rest = starts_upto(src, n - 1);
        assert(0 <= rest[rest.len() - 1] <= n - 1);
    }
}

impl LineIndex {
    #[verifier::type_invariant]
    spec fn in_step(self) -> bool {
        &&& crate::tree::ints(self.starts@) == starts_of(self.src@)
        &&& self.len == self.src@.len()
    }

    /// Byte offset of every line start.
    pub closed spec fn line_starts(&self) -> Seq<int> {
        crate::tree::ints(self.starts@)
    }

    /// The lines of `src`.
    pub fn new(src: &[u8]) -> (r: LineIndex)
        ensures
            r@ == src@,
            r.line_starts() == starts_of(src@),
    {
        let mut starts: Vec<usize> = Vec::new();
        starts.push(0);
        assert(crate::tree::ints(starts@) =~= seq![0]);
        let mut i: usize = 0;
        while i < src.len()
            invariant
                i <= src.len(),
                crate::tree::ints(starts@) == starts_upto(src@, i as int),
            decreases src.len() - i,
        {
            let ghost was = crate::tree::ints(starts@);
            if src[i] == NEWLINE {
                starts.push(i + 1);
                assert(crate::tree::ints(starts@) =~= was.push(i + 1));
            }
            i = i + 1;
        }
        LineIndex { starts, len: src.len(), src: Ghost(src@) }
    }

    /// 1-based line holding `byte`: one more than there are line feeds before it.
    pub fn line_of(&self, byte: usize) -> (n: usize)
        ensures
            n == line_at(self@, byte as int),
    {
        proof {
            use_type_invariant(self);
            starts_ascend(self@, self@.len() as int);
        }
        let ghost src = self@;
        let ghost all = starts_of(src);
        let mut lo: usize = 0;
        let mut hi: usize = self.starts.len();
        while lo < hi
            invariant
                lo <= hi <= self.starts.len(),
                all == crate::tree::ints(self.starts@),
                all == starts_of(src),
                forall|a: int, b: int| 0 <= a < b < all.len() ==> #[trigger] all[a] < #[trigger] all[b],
                forall|i: int| 0 <= i < lo ==> #[trigger] all[i] <= byte,
                forall|i: int| hi <= i < all.len() ==> #[trigger] all[i] > byte,
            decreases hi - lo,
        {
            let mid: usize = lo + (hi - lo) / 2;
            assert(all[mid as int] == self.starts@[mid as int]);
            if self.starts[mid] <= byte {
                assert forall|i: int| 0 <= i < mid + 1 implies #[trigger] all[i] <= byte by {
                    if i < mid {
                        assert(all[i] < all[mid as int]);
                    }
                }
                lo = mid + 1;
            } else {
                assert forall|i: int| mid <= i < all.len() implies #[trigger] all[i] > byte by {
                    if i > mid {
                        assert(all[mid as int] < all[i]);
                    }
                }
                hi = mid;
            }
        }
        proof {
            starts_count(src, src.len() as int, byte as int, lo as int);
        }
        lo
    }

    /// Lines in the file, the way `SourceFile::lines` counts them: a last line feed ends the last line
    /// rather than starting a new one.
    pub fn count(&self) -> (n: usize)
        ensures
            n == line_count(self@),
    {
        proof {
            use_type_invariant(self);
            starts_ascend(self@, self@.len() as int);
            last_start(self@, self@.len() as int);
        }
        let n: usize = self.starts.len();
        assert(self.line_starts()[n - 1] == self.starts@[n - 1]);
        if self.starts[n - 1] == self.len {
            n - 1
        } else {
            n
        }
    }

    /// Non-blank lines in `start..=end` (1-based, inclusive) of `src`, which may be another text than
    /// the one the lines are of, as long as those lines start within it.
    pub fn non_blank(&self, src: &[u8], start: usize, end: usize) -> (n: usize)
        requires
            1 <= start,
            starts_within(self@, src@.len() as int, start as int, end as int),
        ensures
            n == inked_lines(self@, src@, start as int, end as int),
    {
        proof {
            use_type_invariant(self);
            starts_ascend(self@, self@.len() as int);
        }
        let ghost index = self@;
        let ghost all = starts_of(index);
        let mut n: usize = 0;
        let mut l: usize = start;
        if start > end {
            return 0;
        }
        loop
            invariant
                1 <= start <= l <= end,
                n <= l - start,
                all == crate::tree::ints(self.starts@),
                all == starts_of(index),
                index == self@,
                forall|a: int| 0 <= a < all.len() ==> 0 <= #[trigger] all[a],
                starts_within(index, src@.len() as int, start as int, end as int),
                n == inked_lines(index, src@, start as int, l - 1),
            decreases end - l,
        {
            let s: usize = if l - 1 < self.starts.len() {
                assert(all[l - 1] == self.starts@[l - 1]);
                self.starts[l - 1]
            } else {
                src.len()
            };
            let next: usize = if l < self.starts.len() {
                assert(all[l as int] == self.starts@[l as int]);
                let x: usize = self.starts[l];
                if x > 0 {
                    x - 1
                } else {
                    0
                }
            } else {
                src.len()
            };
            let e: usize = if next < s {
                s
            } else {
                next
            };
            let e: usize = if e < src.len() {
                e
            } else {
                src.len()
            };
            assert(line_span(index, src@.len() as int, l as int) == (s as int, e as int));
            let mut found: bool = false;
            let mut i: usize = s;
            while i < e && !found
                invariant
                    s <= i <= e <= src.len(),
                    found <==> exists|k: int| s <= k < i && inked(#[trigger] src@[k]),
                decreases e - i,
            {
                let b: u8 = src[i];
                if b != 32 && b != 9 && b != 10 && b != 12 && b != 13 {
                    assert(inked(src@[i as int]));
                    found = true;
                }
                i = i + 1;
            }
            assert(found == inked_in(src@, s as int, e as int));
            if found {
                n = n + 1;
            }
            if l == end {
                return n;
            }
            l = l + 1;
        }
    }
}

// ---------- laws ----------

/// The line starts are 0 and, ascending, each place after a line feed: the first is 0, they rise
/// strictly, none lies beyond the end, and they number one more than the line feeds.
pub proof fn starts_are_after_line_feeds(src: Seq<u8>)
    ensures
        starts_of(src).len() == newlines(src, src.len() as int) + 1,
        starts_of(src)[0] == 0,
        forall|a: int, b: int| 0 <= a < b < starts_of(src).len() ==> #[trigger] starts_of(src)[a] < #[trigger] starts_of(src)[b],
        forall|a: int| 0 <= a < starts_of(src).len() ==> 0 <= #[trigger] starts_of(src)[a] <= src.len(),
        forall|x: int|
            #[trigger] starts_of(src).contains(x) <==> x == 0 || (0 < x <= src.len() && src[x - 1] == NEWLINE),
{
    starts_ascend(src, src.len() as int);
    assert forall|x: int| #[trigger] starts_of(src).contains(x) <==> x == 0 || (0 < x <= src.len() && src[x - 1] == NEWLINE) by {
        start_is_after_line_feed(src, src.len() as int, x);
    }
}

proof fn start_is_after_line_feed(src: Seq<u8>, n: int, x: int)
    requires
        0 <= n <= src.len(),
    ensures
        starts_upto(src, n).contains(x) <==> x == 0 || (0 < x <= n && src[x - 1] == NEWLINE),
    decreases n,
{
    let all = starts_upto(src, n);
    if n == 0 {
        assert(all[0] == 0);
    } else {
        start_is_after_line_feed(src, n - 1, x);
        let rest = starts_upto(src, n - 1);
        if src[n - 1] == NEWLINE {
            assert(all[rest.len() as int] == n);
            if rest.contains(x) {
                let k = choose|k: int| 0 <= k < rest.len() && rest[k] == x;
                assert(all[k] == x);
            }
            if all.contains(x) && x != n {
                let k = choose|k: int| 0 <= k < all.len() && all[k] == x;
                assert(rest[k] == x);
            }
        }
    }
}

/// How many line feeds a text has from `i` on.
spec fn feeds(s: Chars, i: int) -> nat
    decreases s.len() - i,
{
    if i < 0 || i >= s.len() {
        0
    } else {
        feeds(s, i + 1) + (if s[i] == '\n' {
            1nat
        } else {
            0
        })
    }
}

proof fn lines_are_feeds(s: Chars, from: int, i: int)
    requires
        0 <= from <= i <= s.len(),
        forall|k: int| from <= k < i ==> #[trigger] s[k] != '\n',
    ensures
        lines_from(s, from, i).len() == feeds(s, i) + (if from < s.len() && s.last() != '\n' {
            1nat
        } else {
            0
        }),
    decreases s.len() - i,
{
    if i < s.len() {
        if s[i] == '\n' {
            lines_are_feeds(s, i + 1, i + 1);
        } else {
            lines_are_feeds(s, from, i + 1);
        }
    } else if from < s.len() {
        assert(s[s.len() - 1] != '\n');
    }
}

proof fn newlines_of_both(a: Seq<u8>, b: Seq<u8>, n: int)
    requires
        0 <= n <= b.len(),
    ensures
        newlines(a + b, a.len() + n) == newlines(a, a.len() as int) + newlines(b, n),
    decreases n,
{
    if n > 0 {
        newlines_of_both(a, b, n - 1);
        assert((a + b)[a.len() + n - 1] == b[n - 1]);
    } else {
        newlines_of_start(a, b, a.len() as int);
    }
}

proof fn newlines_of_start(a: Seq<u8>, b: Seq<u8>, n: int)
    requires
        0 <= n <= a.len(),
    ensures
        newlines(a + b, n) == newlines(a, n),
    decreases n,
{
    if n > 0 {
        newlines_of_start(a, b, n - 1);
        assert((a + b)[n - 1] == a[n - 1]);
    }
}

proof fn high_bytes(c: u32)
    by (bit_vector)
    ensures
        vstd::utf8::last_continuation_byte(c) >= 0x80u8,
        vstd::utf8::second_last_continuation_byte(c) >= 0x80u8,
        vstd::utf8::third_last_continuation_byte(c) >= 0x80u8,
        vstd::utf8::leading_byte_width_2(c) >= 0x80u8,
        vstd::utf8::leading_byte_width_3(c) >= 0x80u8,
        vstd::utf8::leading_byte_width_4(c) >= 0x80u8,
        c <= 0x7fu32 ==> vstd::utf8::leading_byte_width_1(c) == c,
{
}

proof fn scalar_feeds(c: char)
    ensures
        encode_scalar(c as u32).len() > 0,
        newlines(encode_scalar(c as u32), encode_scalar(c as u32).len() as int) == (if c == '\n' {
            1nat
        } else {
            0
        }),
        encode_scalar(c as u32).last() == NEWLINE <==> c == '\n',
{
    high_bytes(c as u32);
    reveal_with_fuel(newlines, 5);
}

proof fn bytes_feed_like_characters(s: Chars, i: int)
    requires
        0 <= i <= s.len(),
    ensures
        newlines(encode_utf8(s.skip(i)), encode_utf8(s.skip(i)).len() as int) == feeds(s, i),
        i < s.len() ==> encode_utf8(s.skip(i)).len() > 0 && (encode_utf8(s.skip(i)).last() == NEWLINE <==> s.last() == '\n'),
        i == s.len() ==> encode_utf8(s.skip(i)).len() == 0,
    decreases s.len() - i,
{
    let t = s.skip(i);
    if i < s.len() {
        bytes_feed_like_characters(s, i + 1);
        assert(t.drop_first() =~= s.skip(i + 1));
        let a = encode_scalar(t[0] as u32);
        let b = encode_utf8(s.skip(i + 1));
        scalar_feeds(t[0]);
        newlines_of_both(a, b, b.len() as int);
        assert(encode_utf8(t) == a + b);
        if i + 1 < s.len() {
            assert((a + b).last() == b.last());
        } else {
            assert(b =~= Seq::<u8>::empty());
            assert(a + b =~= a);
            assert(s.last() == t[0]);
        }
    }
}

/// The lines of an index are those of its text, read as UTF-8.
pub proof fn the_count_is_that_of_the_text(s: Chars)
    ensures
        line_count(encode_utf8(s)) == lines_of(s).len(),
{
    bytes_feed_like_characters(s, 0);
    assert(s.skip(0) =~= s);
    lines_are_feeds(s, 0, 0);
}

} // verus!

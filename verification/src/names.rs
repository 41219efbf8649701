//! Names numbered in the order they are first met, and entries and counts kept by name.

use vstd::prelude::*;

use crate::text::{chars, index_from, same, Chars};

verus! {

/// The number of buckets of a table.
pub const BUCKETS: usize = 4096;

/// The hash of `s` from `i` on, after `acc`.
pub open spec fn hash_from(s: Chars, acc: nat, i: int) -> nat
    decreases s.len() - i,
{
    if i < 0 || i >= s.len() {
        acc
    } else {
        hash_from(s, ((acc * 31 + (s[i] as u32)) % 1_000_003) as nat, i + 1)
    }
}

/// The bucket of a name.
pub open spec fn bucket_of(s: Chars) -> int {
    (hash_from(s, 7, 0) % 4096) as int
}

fn bucket(s: &str) -> (b: usize)
    ensures
        b == bucket_of(s@),
        b < BUCKETS,
{
    let v = chars(s);
    let mut acc: u64 = 7;
    let mut i: usize = 0;
    while i < v.len()
        invariant
            i <= v.len(),
            v@ == s@,
            acc < 1_000_003,
            hash_from(s@, 7, 0) == hash_from(s@, acc as nat, i as int),
        decreases v.len() - i,
    {
        let c: char = v[i];
        let code: u32 = c as u32;
        acc = (acc * 31 + code as u64) % 1_000_003;
        i = i + 1;
    }
    (acc % 4096) as usize
}

/// Distinct names, numbered in the order they were added.
pub struct Names {
    names: Vec<String>,
    buckets: Vec<Vec<usize>>,
}

impl View for Names {
    type V = Seq<Chars>;

    closed spec fn view(&self) -> Seq<Chars> {
        self.names.deep_view()
    }
}

/// No two of `names` are equal.
pub open spec fn distinct(names: Seq<Chars>) -> bool {
    forall|a: int, b: int| 0 <= a < b < names.len() ==> #[trigger] names[a] != #[trigger] names[b]
}

impl Names {
    /// Each name stands once, and is listed in its bucket.
    pub closed spec fn ok(&self) -> bool {
        &&& self.buckets.len() == BUCKETS
        &&& distinct(self@)
        &&& forall|b: int, k: int|
            0 <= b < BUCKETS && 0 <= k < self.buckets@[b].len() ==> #[trigger] self.buckets@[b]@[k] < self@.len()
        &&& forall|i: int|
            0 <= i < self@.len() ==> self.buckets@[bucket_of(#[trigger] self@[i])]@.contains(i as usize)
    }

    /// No names.
    pub fn new() -> (r: Names)
        ensures
            r.ok(),
            r@ == Seq::<Chars>::empty(),
    {
        let mut buckets: Vec<Vec<usize>> = Vec::new();
        let mut i: usize = 0;
        while i < BUCKETS
            invariant
                i <= BUCKETS,
                buckets.len() == i,
                forall|k: int| 0 <= k < i ==> (#[trigger] buckets@[k]).len() == 0,
            decreases BUCKETS - i,
        {
            buckets.push(Vec::new());
            i = i + 1;
        }
        let r = Names { names: Vec::new(), buckets };
        assert(r@ =~= Seq::<Chars>::empty());
        r
    }

    /// Each name stands once.
    pub proof fn are_distinct(&self)
        requires
            self.ok(),
        ensures
            distinct(self@),
    {
    }

    /// How many names there are.
    pub fn len(&self) -> (n: usize)
        ensures
            n == self@.len(),
    {
        self.names.len()
    }

    /// The name numbered `i`.
    pub fn name(&self, i: usize) -> (r: &str)
        requires
            i < self@.len(),
        ensures
            r@ == self@[i as int],
    {
        self.names[i].as_str()
    }

    /// The number of `name`.
    pub fn find(&self, name: &str) -> (r: Option<usize>)
        requires
            self.ok(),
        ensures
            match r {
                Some(i) => i < self@.len() && self@[i as int] == name@,
                None => !self@.contains(name@),
            },
    {
        let b: usize = bucket(name);
        let ids = &self.buckets[b];
        let mut k: usize = 0;
        while k < ids.len()
            invariant
                k <= ids.len(),
                self.ok(),
                b < BUCKETS,
                *ids == self.buckets@[b as int],
                forall|j: int| 0 <= j < k ==> self@[#[trigger] ids@[j] as int] != name@,
            decreases ids.len() - k,
        {
            let i: usize = ids[k];
            assert(self.buckets@[b as int]@[k as int] < self@.len());
            assert(self@[i as int] == self.names@[i as int]@);
            if same(self.names[i].as_str(), name) {
                return Some(i);
            }
            k = k + 1;
        }
        proof {
            if self@.contains(name@) {
                let i = choose|i: int| 0 <= i < self@.len() && self@[i] == name@;
                assert(i < self.names.len());
                assert(self.buckets@[bucket_of(self@[i])]@.contains(i as usize));
                let j = choose|j: int| 0 <= j < ids@.len() && ids@[j] == i as usize;
                assert(self@[ids@[j] as int] != name@);
            }
        }
        None
    }

    /// The number of `name`, which is added where it is new.
    pub fn add(&mut self, name: &str) -> (r: usize)
        requires
            old(self).ok(),
        ensures
            final(self).ok(),
            r < final(self)@.len(),
            final(self)@[r as int] == name@,
            old(self)@.contains(name@) ==> final(self)@ == old(self)@ && r < old(self)@.len(),
            !old(self)@.contains(name@) ==> final(self)@ == old(self)@.push(name@) && r == old(self)@.len(),
    {
        match self.find(name) {
            Some(i) => {
                assert(self@.contains(name@));
                i
            },
            None => {
                let i: usize = self.names.len();
                let b: usize = bucket(name);
                let ghost was = *self;
                self.names.push(name.to_owned());
                self.buckets[b].push(i);
                assert(self@ =~= was@.push(name@));
                assert forall|a: int, c: int| 0 <= a < c < self@.len() implies #[trigger] self@[a] != #[trigger] self@[c] by {
                    if c == was@.len() {
                        assert(was@.contains(was@[a]));
                    }
                }
                assert(self.buckets@[b as int]@ == was.buckets@[b as int]@.push(i));
                assert(self.buckets@[b as int]@[was.buckets@[b as int]@.len() as int] == i);
                assert forall|d: int, k: int| 0 <= d < BUCKETS && 0 <= k < self.buckets@[d].len() implies #[trigger] self.buckets@[d]@[k]
                    < self@.len() by {
                    if d == b && k == was.buckets@[d].len() {
                    } else {
                        assert(was.buckets@[d]@[k] < was@.len());
                    }
                }
                assert forall|j: int| 0 <= j < self@.len() implies self.buckets@[bucket_of(#[trigger] self@[j])]@.contains(
                    j as usize,
                ) by {
                    if j < was@.len() {
                        let d = bucket_of(was@[j]);
                        assert(was.buckets@[d]@.contains(j as usize));
                        let k = choose|k: int| 0 <= k < was.buckets@[d].len() && was.buckets@[d]@[k] == j as usize;
                        assert(self.buckets@[d]@[k] == j as usize);
                    }
                }
                i
            },
        }
    }
}

// ---------- lists by name ----------

/// The names of the entries.
pub open spec fn keys_of<V>(list: Seq<(Chars, V)>) -> Seq<Chars> {
    Seq::new(list.len(), |i: int| list[i].0)
}

/// The entry of `key` from `i` on, else the number of entries.
pub open spec fn entry_at<V>(list: Seq<(Chars, V)>, key: Chars, i: int) -> int
    decreases list.len() - i,
{
    if i < 0 || i >= list.len() {
        list.len() as int
    } else if list[i].0 == key {
        i
    } else {
        entry_at(list, key, i + 1)
    }
}

/// The entries with one more: it replaces the entry of its name, and stands last where there is none.
pub open spec fn with_entry<V>(list: Seq<(Chars, V)>, key: Chars, v: V) -> Seq<(Chars, V)> {
    let i = entry_at(list, key, 0);
    if i < list.len() {
        list.update(i, (key, v))
    } else {
        list.push((key, v))
    }
}

proof fn entry_is_found<V>(list: Seq<(Chars, V)>, key: Chars, i: int)
    requires
        0 <= i <= list.len(),
    ensures
        i <= entry_at(list, key, i) <= list.len(),
        entry_at(list, key, i) < list.len() ==> list[entry_at(list, key, i)].0 == key,
        forall|j: int| i <= j < entry_at(list, key, i) ==> (#[trigger] list[j]).0 != key,
    decreases list.len() - i,
{
    if i < list.len() && list[i].0 != key {
        entry_is_found(list, key, i + 1);
    }
}

/// Where each name has one entry, so it does with one more; the new one is found, and the others
/// stay as they were.
pub proof fn an_entry_replaces_that_of_its_name<V>(list: Seq<(Chars, V)>, key: Chars, v: V)
    requires
        distinct(keys_of(list)),
    ensures
        distinct(keys_of(with_entry(list, key, v))),
        with_entry(list, key, v).contains((key, v)),
        forall|i: int|
            0 <= i < list.len() && list[i].0 != key ==> with_entry(list, key, v)[i] == #[trigger] list[i],
{
    entry_is_found(list, key, 0);
    let i = entry_at(list, key, 0);
    let next = with_entry(list, key, v);
    assert(next[i] == (key, v));
    assert forall|a: int, b: int| 0 <= a < b < keys_of(next).len() implies #[trigger] keys_of(next)[a] != #[trigger] keys_of(
        next,
    )[b] by {
        if b < list.len() {
            assert(keys_of(list)[a] != keys_of(list)[b]);
        } else {
            assert(list[a].0 != key);
        }
    }
}

/// Add an entry, or replace the one of its name; `names` numbers the entries.
pub fn put_entry<T: DeepView>(names: &mut Names, list: &mut Vec<(String, T)>, key: &str, v: T)
    requires
        old(names).ok(),
        old(names)@ == keys_of(old(list).deep_view()),
    ensures
        final(names).ok(),
        final(names)@ == keys_of(final(list).deep_view()),
        final(list).deep_view() == with_entry(old(list).deep_view(), key@, v.deep_view()),
{
    let ghost was = list.deep_view();
    let ghost known = names@;
    let i: usize = names.add(key);
    proof {
        entry_is_found(was, key@, 0);
        names.are_distinct();
        let e = entry_at(was, key@, 0);
        if e < was.len() {
            assert(known[e] == key@);
            assert(known.contains(key@));
            assert(names@[e] == key@);
        } else if known.contains(key@) {
            let j = choose|j: int| 0 <= j < known.len() && known[j] == key@;
            assert(was[j].0 == key@);
        }
    }
    let entry: (String, T) = (key.to_owned(), v);
    assert(entry.deep_view() == (key@, v.deep_view()));
    if i < list.len() {
        list.set(i, entry);
        assert(list.deep_view() =~= was.update(i as int, (key@, v.deep_view())));
    } else {
        list.push(entry);
        assert(list.deep_view() =~= was.push((key@, v.deep_view())));
    }
    assert(names@ =~= keys_of(list.deep_view()));
}

// ---------- counts by name ----------

/// References to one name, by the context they sit in.
#[derive(Debug, Clone, Copy, PartialEq, Eq, Structural)]
pub struct RefCount {
    pub prod: u32,
    pub test: u32,
}

impl DeepView for RefCount {
    type V = RefCount;

    open spec fn deep_view(&self) -> RefCount {
        *self
    }
}

/// A count as a machine holds it: the largest value stands for everything beyond it.
pub open spec fn capped(n: int) -> u32 {
    if n <= u32::MAX {
        n as u32
    } else {
        u32::MAX
    }
}

/// The sum of two counts.
pub open spec fn ref_sum(a: RefCount, b: RefCount) -> RefCount {
    RefCount { prod: capped(a.prod + b.prod), test: capped(a.test + b.test) }
}

/// One more reference.
pub open spec fn bumped(a: RefCount, in_test: bool) -> RefCount {
    if in_test {
        RefCount { prod: a.prod, test: capped(a.test + 1) }
    } else {
        RefCount { prod: capped(a.prod + 1), test: a.test }
    }
}

/// No references.
pub open spec fn no_refs() -> RefCount {
    RefCount { prod: 0, test: 0 }
}

impl Default for RefCount {
    fn default() -> (r: Self)
        ensures
            r == no_refs(),
    {
        RefCount { prod: 0, test: 0 }
    }
}

impl RefCount {
    /// Count one more reference.
    pub fn bump(&mut self, in_test: bool)
        ensures
            *final(self) == bumped(*old(self), in_test),
    {
        if in_test {
            self.test = self.test.saturating_add(1);
        } else {
            self.prod = self.prod.saturating_add(1);
        }
    }

    /// Add what `other` counts.
    pub fn add(&mut self, other: RefCount)
        ensures
            *final(self) == ref_sum(*old(self), other),
    {
        self.prod = self.prod.saturating_add(other.prod);
        self.test = self.test.saturating_add(other.test);
    }

    /// References of either context.
    pub fn total(&self) -> (n: u32)
        ensures
            n == capped(self.prod + self.test),
    {
        self.prod.saturating_add(self.test)
    }
}

/// Reference counts by name.
pub struct Tally {
    names: Names,
    counts: Vec<RefCount>,
}

/// The count of the last entry of `names` equal to `s`; names are distinct where it matters.
pub open spec fn count_in(names: Seq<Chars>, counts: Seq<RefCount>, s: Chars) -> RefCount {
    match index_from(names, s, 0) {
        Some(i) => counts[i],
        None => no_refs(),
    }
}

impl Tally {
    /// The names that were counted, in the order they were first met.
    pub closed spec fn keys(&self) -> Seq<Chars> {
        self.names@
    }

    /// What is counted for `name`.
    pub closed spec fn of(&self, name: Chars) -> RefCount {
        count_in(self.names@, self.counts@, name)
    }

    /// One count for each name.
    pub closed spec fn ok(&self) -> bool {
        self.names.ok() && self.counts.len() == self.names@.len()
    }

    /// Nothing counted.
    pub fn new() -> (r: Tally)
        ensures
            r.ok(),
            r.keys() == Seq::<Chars>::empty(),
            forall|name: Chars| #[trigger] r.of(name) == no_refs(),
    {
        Tally { names: Names::new(), counts: Vec::new() }
    }

    /// What is counted for `name`.
    pub fn get(&self, name: &str) -> (r: RefCount)
        requires
            self.ok(),
        ensures
            r == self.of(name@),
    {
        match self.names.find(name) {
            Some(i) => {
                proof {
                    found_at(self.names@, name@, i as int);
                }
                self.counts[i]
            },
            None => {
                proof {
                    not_found(self.names@, name@, 0);
                }
                RefCount { prod: 0, test: 0 }
            },
        }
    }

    /// How many names were counted.
    pub fn len(&self) -> (n: usize)
        requires
            self.ok(),
        ensures
            n == self.keys().len(),
    {
        self.names.len()
    }

    /// The `i`th name that was counted.
    pub fn key(&self, i: usize) -> (r: &str)
        requires
            self.ok(),
            i < self.keys().len(),
        ensures
            r@ == self.keys()[i as int],
    {
        self.names.name(i)
    }

    /// Count one more reference to `name`.
    pub fn bump(&mut self, name: &str, in_test: bool)
        requires
            old(self).ok(),
        ensures
            final(self).ok(),
            final(self).of(name@) == bumped(old(self).of(name@), in_test),
            forall|other: Chars| other != name@ ==> #[trigger] final(self).of(other) == old(self).of(other),
            final(self).keys() == (if old(self).keys().contains(name@) {
                old(self).keys()
            } else {
                old(self).keys().push(name@)
            }),
    {
        let ghost was = *self;
        let i: usize = self.names.add(name);
        if i == self.counts.len() {
            self.counts.push(RefCount { prod: 0, test: 0 });
            proof {
                not_found(was.names@, name@, 0);
            }
        }
        let mut c: RefCount = self.counts[i];
        c.bump(in_test);
        self.counts[i] = c;
        proof {
            found_at(self.names@, name@, i as int);
            if was.names@.contains(name@) {
                found_at(was.names@, name@, i as int);
            }
            assert forall|other: Chars| other != name@ implies #[trigger] self.of(other) == was.of(other) by {
                if was.names@.contains(other) {
                    let j = choose|j: int| 0 <= j < was.names@.len() && was.names@[j] == other;
                    found_at(was.names@, other, j);
                    assert(self.names@[j] == other);
                    found_at(self.names@, other, j);
                } else {
                    not_found(was.names@, other, 0);
                    assert(!self.names@.contains(other));
                    not_found(self.names@, other, 0);
                }
            }
        }
    }
}

proof fn not_found(names: Seq<Chars>, s: Chars, from: int)
    requires
        !names.contains(s),
        0 <= from,
    ensures
        index_from(names, s, from) is None,
    decreases names.len() - from,
{
    if from < names.len() {
        assert(names.contains(names[from]));
        not_found(names, s, from + 1);
    }
}

proof fn found_from(names: Seq<Chars>, s: Chars, i: int, from: int)
    requires
        distinct(names),
        0 <= from <= i < names.len(),
        names[i] == s,
    ensures
        index_from(names, s, from) == Some(i),
    decreases i - from,
{
    if from < i {
        found_from(names, s, i, from + 1);
    }
}

proof fn found_at(names: Seq<Chars>, s: Chars, i: int)
    requires
        distinct(names),
        0 <= i < names.len(),
        names[i] == s,
    ensures
        index_from(names, s, 0) == Some(i),
{
    found_from(names, s, i, 0);
}

} // verus!

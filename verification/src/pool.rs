//! The intern pool: a growing, deduplicating store of strings.
//!
//! Each distinct string is stored once and identified by an [`InternKey`],
//! assigned in first-insertion order starting from zero. Entries are never
//! removed, so a key stays valid, and resolves to the same string, for the
//! whole lifetime of the pool.

use vstd::prelude::*;

verus! {

/// A compact, copyable identifier for one interned string.
///
/// Two keys produced by the same pool are equal exactly when the strings they
/// were interned from are equal byte for byte. The numeric index inside is an
/// implementation detail: it records first-insertion order, not any property
/// of the string's contents.
#[derive(Clone, Copy, Debug, PartialEq, Eq, Structural, Hash, Ord)]
pub struct InternKey {
    idx: usize,
}

impl PartialOrd for InternKey {
    /// Keys order by their indices, that is by first-insertion order.
    fn partial_cmp(&self, other: &Self) -> (r: Option<core::cmp::Ordering>) {
        if self.idx < other.idx {
            Some(core::cmp::Ordering::Less)
        } else if self.idx == other.idx {
            Some(core::cmp::Ordering::Equal)
        } else {
            Some(core::cmp::Ordering::Greater)
        }
    }
}

impl vstd::std_specs::cmp::PartialOrdSpecImpl for InternKey {
    open spec fn obeys_partial_cmp_spec() -> bool {
        true
    }

    open spec fn partial_cmp_spec(&self, other: &Self) -> Option<core::cmp::Ordering> {
        if self.index() < other.index() {
            Some(core::cmp::Ordering::Less)
        } else if self.index() == other.index() {
            Some(core::cmp::Ordering::Equal)
        } else {
            Some(core::cmp::Ordering::Greater)
        }
    }
}

impl InternKey {
    /// The position of this key's string in the pool's store.
    pub closed spec fn index(&self) -> int {
        self.idx as int
    }
}

/// Keys are equal exactly when their indices are: the index is all a key holds.
pub proof fn lemma_key_eq(k1: InternKey, k2: InternKey)
    ensures
        k1 == k2 <==> k1.index() == k2.index(),
{
}

/// No string occurs at two different positions of the store.
pub open spec fn entries_wf(entries: Seq<Seq<char>>) -> bool {
    forall|i: int, j: int|
        0 <= i < entries.len() && 0 <= j < entries.len() && i != j ==> entries[i] != entries[j]
}

/// How one intern call relates the store `before` it to the store `after` it:
/// a string already present keeps its position and leaves the store unchanged;
/// a new string is appended and gets the next position. `k` is the index of
/// the returned key and `s` the interned string.
pub open spec fn interned(before: Seq<Seq<char>>, after: Seq<Seq<char>>, k: int, s: Seq<char>) -> bool {
    &&& 0 <= k < after.len()
    &&& after[k] == s
    &&& if before.contains(s) {
        after == before && k == before.index_of(s)
    } else {
        after == before.push(s) && k == before.len()
    }
}

/// A deduplicating store of strings, the backing state for labels.
///
/// The pool owns one canonical copy of every string ever interned into it and
/// never frees or reorders them. It is a passive value: callers that share one
/// pool across threads serialize access themselves (for example behind a
/// mutex), which keeps key assignment atomic per distinct string.
pub struct InternPool {
    strings: Vec<String>,
}

impl View for InternPool {
    type V = Seq<Seq<char>>;

    closed spec fn view(&self) -> Seq<Seq<char>> {
        self.strings.deep_view()
    }
}

impl InternPool {
    /// The pool's invariant: its store holds each string at most once.
    pub open spec fn wf(&self) -> bool {
        entries_wf(self@)
    }

    /// Creates an empty pool with no interned strings.
    pub fn new() -> (r: Self)
        ensures
            r@ == Seq::<Seq<char>>::empty(),
            r.wf(),
    {
        let strings: Vec<String> = Vec::new();
        proof {
            assert(strings.deep_view() =~= Seq::<Seq<char>>::empty());
        }
        InternPool { strings }
    }

    /// Interns `text`: returns the existing key if `text` was interned before,
    /// otherwise stores a copy of `text` and returns the next unused key.
    ///
    /// Any string is accepted, the empty string included; the call never
    /// fails. Interning a string that is already present leaves the pool
    /// unchanged, so the store grows by at most one entry per call and a key,
    /// once assigned, never moves.
    pub fn intern(&mut self, text: &str) -> (key: InternKey)
        requires
            old(self).wf(),
        ensures
            final(self).wf(),
            interned(old(self)@, final(self)@, key.index(), text@),
    {
        let owned: String = text.to_owned();
        let n: usize = self.strings.len();
        let mut i: usize = 0;
        while i < n
            invariant
                i <= n,
                n == self.strings.len(),
                *self == *old(self),
                old(self).wf(),
                owned@ == text@,
                forall|j: int| 0 <= j < i ==> self@[j] != text@,
            decreases n - i,
        {
            if self.strings[i] == owned {
                proof {
                    let e = self@;
                    assert(self.wf());
                    assert(e[i as int] == text@);
                    assert(e.contains(text@));
                    let w = e.index_of(text@);
                    assert(0 <= w < e.len() && e[w] == text@);
                    assert(w != i as int ==> e[w] != e[i as int]);
                    assert(w == i as int);
                }
                return InternKey { idx: i };
            }
            i = i + 1;
        }
        proof {
            assert(forall|j: int| 0 <= j < self@.len() ==> self@[j] != text@);
            assert(!self@.contains(text@));
        }
        self.strings.push(owned);
        proof {
            assert(self.strings.deep_view() =~= old(self)@.push(text@));
        }
        InternKey { idx: n }
    }

    /// Resolves `key` to the exact string it was interned from.
    ///
    /// Only keys previously returned by `intern` on this pool are valid: a
    /// fabricated or foreign key is a programming error and is ruled out by
    /// the precondition rather than reported at run time.
    pub fn resolve(&self, key: InternKey) -> (r: &str)
        requires
            0 <= key.index() < self@.len(),
        ensures
            r@ == self@[key.index()],
    {
        self.strings[key.idx].as_str()
    }

    /// Resolves `key` if this pool could have handed it out, and reports a
    /// foreign key with `None` instead of resolving it to anything.
    ///
    /// The total companion of [`InternPool::resolve`] for callers that cannot
    /// rule out a fabricated key ahead of the call.
    pub fn try_resolve(&self, key: InternKey) -> (r: Option<&str>)
        ensures
            match r {
                Some(s) => 0 <= key.index() < self@.len() && s@ == self@[key.index()],
                None => key.index() >= self@.len(),
            },
    {
        if key.idx < self.strings.len() {
            Some(self.strings[key.idx].as_str())
        } else {
            None
        }
    }

    /// The number of distinct strings interned so far.
    pub fn len(&self) -> (n: usize)
        ensures
            n == self@.len(),
    {
        self.strings.len()
    }
}

/// One intern call preserves the pool's invariant: the store still holds each
/// string at most once afterwards.
pub proof fn lemma_interned_wf(before: Seq<Seq<char>>, after: Seq<Seq<char>>, k: int, s: Seq<char>)
    requires
        entries_wf(before),
        interned(before, after, k, s),
    ensures
        entries_wf(after),
{
    if !before.contains(s) {
        assert forall|i: int, j: int|
            0 <= i < after.len() && 0 <= j < after.len() && i != j implies after[i] != after[j] by {
            if i < before.len() && j < before.len() {
                assert(before[i] != before[j]);
            } else if j == before.len() {
                assert(after[i] == before[i]);
                assert(!before.contains(s));
                assert(before[i] != s);
            } else {
                assert(before[j] != s);
            }
        }
    }
}

/// A key never moves: interning any string, new or old, leaves every entry
/// already in the store at its position, so resolution of an existing key
/// returns the same string forever after.
pub proof fn lemma_resolve_stable(
    before: Seq<Seq<char>>,
    after: Seq<Seq<char>>,
    k: int,
    s: Seq<char>,
    j: int,
)
    requires
        interned(before, after, k, s),
        0 <= j < before.len(),
    ensures
        before.len() <= after.len(),
        after[j] == before[j],
{
}

/// Interning a string that already has a key returns that key and leaves the
/// store unchanged.
pub proof fn lemma_reintern_same_key(
    before: Seq<Seq<char>>,
    after: Seq<Seq<char>>,
    k: int,
    s: Seq<char>,
    k2: int,
)
    requires
        entries_wf(before),
        0 <= k < before.len(),
        before[k] == s,
        interned(before, after, k2, s),
    ensures
        k2 == k,
        after == before,
{
    assert(before.contains(s));
    let w = before.index_of(s);
    assert(0 <= w < before.len() && before[w] == s);
    assert(w != k ==> before[w] != before[k]);
}

/// Interning is idempotent: two consecutive intern calls on the same string
/// yield the same key both times, and the pool grows by at most one entry
/// however often the string is interned.
pub proof fn lemma_intern_idempotent(
    e0: Seq<Seq<char>>,
    e1: Seq<Seq<char>>,
    e2: Seq<Seq<char>>,
    k1: int,
    k2: int,
    s: Seq<char>,
)
    requires
        entries_wf(e0),
        interned(e0, e1, k1, s),
        interned(e1, e2, k2, s),
    ensures
        k2 == k1,
        e2 == e1,
        e0.len() <= e1.len() <= e0.len() + 1,
{
    lemma_interned_wf(e0, e1, k1, s);
    lemma_reintern_same_key(e1, e2, k1, s, k2);
}

/// Round trip: the key an intern call returns resolves to the interned string,
/// byte for byte.
pub proof fn lemma_resolve_round_trip(
    before: Seq<Seq<char>>,
    after: Seq<Seq<char>>,
    k: int,
    s: Seq<char>,
)
    requires
        interned(before, after, k, s),
    ensures
        0 <= k < after.len(),
        after[k] == s,
{
}

/// Keys mirror string equality: interning two strings, one after the other,
/// gives equal keys exactly when the strings are equal.
pub proof fn lemma_key_equality(
    e0: Seq<Seq<char>>,
    e1: Seq<Seq<char>>,
    e2: Seq<Seq<char>>,
    k1: int,
    k2: int,
    s1: Seq<char>,
    s2: Seq<char>,
)
    requires
        entries_wf(e0),
        interned(e0, e1, k1, s1),
        interned(e1, e2, k2, s2),
    ensures
        s1 == s2 ==> k1 == k2,
        s1 != s2 ==> k1 != k2,
{
    lemma_interned_wf(e0, e1, k1, s1);
    if s1 == s2 {
        lemma_reintern_same_key(e1, e2, k1, s1, k2);
    } else {
        assert(e2[k1] == e1[k1]);
    }
}

/// Ordering stability: once two distinct strings have their keys, interning
/// them again returns the same two keys, so the relative order of the labels
/// built from them is fixed at first construction.
pub proof fn lemma_order_stable(
    e0: Seq<Seq<char>>,
    e1: Seq<Seq<char>>,
    e2: Seq<Seq<char>>,
    k1: int,
    k2: int,
    s1: Seq<char>,
    s2: Seq<char>,
    k1b: int,
    k2b: int,
)
    requires
        entries_wf(e0),
        0 <= k1 < e0.len(),
        e0[k1] == s1,
        0 <= k2 < e0.len(),
        e0[k2] == s2,
        interned(e0, e1, k1b, s1),
        interned(e1, e2, k2b, s2),
    ensures
        k1b == k1,
        k2b == k2,
        k1 < k2 <==> k1b < k2b,
{
    lemma_reintern_same_key(e0, e1, k1, s1, k1b);
    lemma_reintern_same_key(e1, e2, k2, s2, k2b);
}

} // verus!

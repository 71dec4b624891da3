//! The label handle: a copyable, orderable, hashable value wrapping one
//! intern key.
//!
//! A label identifies a piece of text used to tag an element for later
//! reference. Construction interns the text once; every later comparison,
//! ordering decision and hash works on the key alone, never on the string
//! bytes. Resolution back to the text goes through the pool the label was
//! constructed with.

use vstd::prelude::*;

verus! {

use crate::pool::{entries_wf, interned, lemma_key_eq, lemma_key_equality, InternKey, InternPool};

/// A label for an element: a handle to one interned string.
///
/// Equality, ordering and hashing are derived solely from the wrapped
/// [`InternKey`]. The order is the key order, that is first-insertion order
/// of the distinct strings, not a lexicographic order on the text.
#[derive(Clone, Copy, Debug, PartialEq, Eq, Structural, Hash, Ord)]
pub struct Label(InternKey);

impl Label {
    /// The intern key this label wraps.
    pub closed spec fn key(&self) -> InternKey {
        self.0
    }

    /// Whether this label's key points into `pool`'s store, as every key
    /// handed out by `pool` itself does.
    pub open spec fn valid_in(&self, pool: InternPool) -> bool {
        0 <= self.key().index() < pool@.len()
    }

    /// Creates a label from a string, interning it in `pool`.
    ///
    /// Total: any string is a valid label name, the empty string included.
    pub fn new(pool: &mut InternPool, name: &str) -> (r: Label)
        requires
            old(pool).wf(),
        ensures
            final(pool).wf(),
            interned(old(pool)@, final(pool)@, r.key().index(), name@),
            r.valid_in(*final(pool)),
    {
        Label(pool.intern(name))
    }

    /// Creates a label from a string: the constructor for collaborators that
    /// extract a label name from some surrounding notation and hand the bare
    /// name over. Behaves exactly like [`Label::new`].
    pub fn construct(pool: &mut InternPool, name: &str) -> (r: Label)
        requires
            old(pool).wf(),
        ensures
            final(pool).wf(),
            interned(old(pool)@, final(pool)@, r.key().index(), name@),
            r.valid_in(*final(pool)),
    {
        Self::new(pool, name)
    }

    /// Resolves the label to the exact string it was constructed from.
    ///
    /// The returned view borrows from the pool, which never frees or changes
    /// an entry, so the text a key resolves to is the same for the pool's
    /// whole lifetime.
    pub fn as_str<'a>(&self, pool: &'a InternPool) -> (r: &'a str)
        requires
            self.valid_in(*pool),
        ensures
            r@ == pool@[self.key().index()],
    {
        pool.resolve(self.0)
    }

    /// Turns this label into its inner interned string key.
    pub fn into_inner(self) -> (k: InternKey)
        ensures
            k == self.key(),
    {
        self.0
    }

    /// Renders the label for diagnostics: its resolved name wrapped in angle
    /// brackets. Resolves on every call, so the cost grows with the name's
    /// length.
    pub fn repr(&self, pool: &InternPool) -> (r: ecow::EcoString)
        requires
            self.valid_in(*pool),
        ensures
            eco_chars(r) == seq!['<'] + pool@[self.key().index()] + seq!['>'],
    {
        let name = pool.resolve(self.0);
        let mut out = eco_new();
        eco_push(&mut out, '<');
        eco_push_str(&mut out, name);
        eco_push(&mut out, '>');
        proof {
            assert(eco_chars(out) =~= seq!['<'] + pool@[self.key().index()] + seq!['>']);
        }
        out
    }
}

impl PartialOrd for Label {
    /// Labels order by their keys alone: first-insertion order of the
    /// distinct strings, never the text's lexicographic order.
    fn partial_cmp(&self, other: &Self) -> (r: Option<core::cmp::Ordering>) {
        self.0.partial_cmp(&other.0)
    }
}

impl vstd::std_specs::cmp::PartialOrdSpecImpl for Label {
    open spec fn obeys_partial_cmp_spec() -> bool {
        true
    }

    open spec fn partial_cmp_spec(&self, other: &Self) -> Option<core::cmp::Ordering> {
        if self.key().index() < other.key().index() {
            Some(core::cmp::Ordering::Less)
        } else if self.key().index() == other.key().index() {
            Some(core::cmp::Ordering::Equal)
        } else {
            Some(core::cmp::Ordering::Greater)
        }
    }
}

impl From<Label> for InternKey {
    /// The key alone carries a label's identity, so this is `into_inner`.
    fn from(value: Label) -> (r: InternKey) {
        value.into_inner()
    }
}

impl vstd::std_specs::convert::FromSpecImpl<Label> for InternKey {
    open spec fn obeys_from_spec() -> bool {
        true
    }

    open spec fn from_spec(t: Label) -> InternKey {
        t.key()
    }
}

/// `ecow::EcoString`, the economical string type labels render into,
/// declared so that it can appear in verified signatures.
#[verifier::external_type_specification]
#[verifier::external_body]
pub struct ExEcoString(ecow::EcoString);

/// The characters an `ecow::EcoString` holds.
pub uninterp spec fn eco_chars(s: ecow::EcoString) -> Seq<char>;

/// Relies on `ecow::EcoString::new`: creates a new, empty string.
#[verifier::external_body]
fn eco_new() -> (r: ecow::EcoString)
    ensures
        eco_chars(r) == Seq::<char>::empty(),
{
    ecow::EcoString::new()
}

/// Relies on `ecow::EcoString::push`: appends the given character at the end.
#[verifier::external_body]
fn eco_push(e: &mut ecow::EcoString, c: char)
    ensures
        eco_chars(*final(e)) == eco_chars(*old(e)).push(c),
{
    e.push(c)
}

/// Relies on `ecow::EcoString::push_str`: appends the given string slice at
/// the end.
#[verifier::external_body]
fn eco_push_str(e: &mut ecow::EcoString, s: &str)
    ensures
        eco_chars(*final(e)) == eco_chars(*old(e)) + s@,
{
    e.push_str(s)
}

/// Labels are equal exactly when their keys are: the key is all a label
/// holds, so equality never looks at the string bytes.
pub proof fn lemma_label_eq(l1: Label, l2: Label)
    ensures
        l1 == l2 <==> l1.key() == l2.key(),
{
}

/// Key-based equality: constructing labels from two strings, one after the
/// other, gives equal labels exactly when the strings are equal byte for
/// byte. `e0`, `e1` and `e2` are the pool's store before, between and after
/// the two constructions.
pub proof fn lemma_construct_equality(
    e0: Seq<Seq<char>>,
    e1: Seq<Seq<char>>,
    e2: Seq<Seq<char>>,
    l1: Label,
    l2: Label,
    s1: Seq<char>,
    s2: Seq<char>,
)
    requires
        entries_wf(e0),
        interned(e0, e1, l1.key().index(), s1),
        interned(e1, e2, l2.key().index(), s2),
    ensures
        s1 == s2 ==> l1 == l2,
        s1 != s2 ==> l1 != l2,
{
    lemma_key_equality(e0, e1, e2, l1.key().index(), l2.key().index(), s1, s2);
    lemma_key_eq(l1.key(), l2.key());
}

/// Indicates that an element cannot be labelled.
///
/// A compile-time marker with no data and no behaviour: element types opt in
/// to declare that no label may ever bind to them. Only attachment logic
/// outside this crate consults it; attaching it changes nothing about
/// [`Label`] itself.
pub trait Unlabellable {

}

} // verus!

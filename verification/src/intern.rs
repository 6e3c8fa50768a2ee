//! Process-wide string interning.
//!
//! Every identifier the agent handles (sysfs path, subsystem name, label
//! keys and values) is stored once in an [`Interner`] and passed around as
//! an [`InternedString`] handle.  Two handles taken from the same interner
//! compare equal exactly when the interned strings compare equal, so
//! handle equality is a constant-time string comparison.

use vstd::prelude::*;

verus! {

/// Opaque handle to a string held by an [`Interner`].
///
/// The handle is just an index into the interner's table; it is only
/// meaningful together with the interner it was produced by.
#[derive(Clone, Copy, PartialEq, Eq, Structural, Debug, Hash)]
pub struct InternedString {
    pub key: usize,
}

/// True when no two entries of the table hold the same string.
pub open spec fn distinct_seqs(v: Seq<Seq<char>>) -> bool {
    forall|i: int, j: int| 0 <= i < j < v.len() ==> v[i] != v[j]
}

/// Table of interned strings.  The view is the sequence of interned
/// strings in insertion order; a handle's `key` indexes into it.
pub struct Interner {
    strings: Vec<String>,
}

impl View for Interner {
    type V = Seq<Seq<char>>;

    closed spec fn view(&self) -> Seq<Seq<char>> {
        Seq::new(self.strings@.len(), |i: int| self.strings@[i]@)
    }
}

impl Interner {
    /// Well-formed: the table never holds the same string twice.
    pub open spec fn wf(&self) -> bool {
        distinct_seqs(self@)
    }

    /// True when `k` is a handle of this interner.
    pub open spec fn holds(&self, k: InternedString) -> bool {
        k.key < self@.len()
    }

    pub fn new() -> (r: Interner)
        ensures
            r@ == Seq::<Seq<char>>::empty(),
            r.wf(),
    {
        let r = Interner { strings: Vec::new() };
        proof {
            assert(r@ =~= Seq::<Seq<char>>::empty());
        }
        r
    }

    pub fn len(&self) -> (n: usize)
        ensures
            n == self@.len(),
    {
        self.strings.len()
    }

    /// Returns the handle of `s`, interning it first if it is new.
    ///
    /// The table grows by at most the one entry and existing entries are
    /// never moved, so handles stay valid for the interner's lifetime.
    pub fn get_or_intern(&mut self, s: String) -> (k: InternedString)
        requires
            old(self).wf(),
        ensures
            final(self).wf(),
            final(self).holds(k),
            final(self)@[k.key as int] == s@,
            old(self)@.contains(s@) ==> final(self)@ == old(self)@,
            !old(self)@.contains(s@) ==> final(self)@ == old(self)@.push(s@) && k.key == old(self)@.len(),
            forall|j: int| 0 <= j < old(self)@.len() ==> final(self)@[j] == old(self)@[j],
    {
        let n = self.strings.len();
        let mut i: usize = 0;
        while i < n
            invariant
                self == old(self),
                self.wf(),
                n == self.strings@.len(),
                i <= n,
                forall|j: int| 0 <= j < i ==> self@[j] != s@,
            decreases n - i,
        {
            if self.strings[i] == s {
                assert(self@[i as int] == s@);
                assert(self@.contains(s@));
                return InternedString { key: i };
            }
            i += 1;
        }
        assert(forall|j: int| 0 <= j < self@.len() ==> self@[j] != s@);
        assert(!self@.contains(s@));
        let ghost prev = self@;
        self.strings.push(s);
        proof {
            assert(self@ =~= prev.push(s@));
        }
        InternedString { key: n }
    }

    /// The string a handle stands for.
    pub fn resolve(&self, k: InternedString) -> (r: &String)
        requires
            self.holds(k),
        ensures
            r@ == self@[k.key as int],
    {
        &self.strings[k.key]
    }
}

/// `m2` extends `m1`: every handle of `m1` still resolves to the same
/// string under `m2`.
pub open spec fn interner_extends(m2: Seq<Seq<char>>, m1: Seq<Seq<char>>) -> bool {
    m1.len() <= m2.len() && forall|j: int| 0 <= j < m1.len() ==> m2[j] == m1[j]
}

/// Two handles of one well-formed interner are equal exactly when the
/// strings they stand for are equal.
pub proof fn lemma_intern_handle_eq(m: Seq<Seq<char>>, a: InternedString, b: InternedString)
    requires
        distinct_seqs(m),
        a.key < m.len(),
        b.key < m.len(),
    ensures
        a == b <==> m[a.key as int] == m[b.key as int],
{
    if a.key != b.key {
        if a.key < b.key {
            assert(m[a.key as int] != m[b.key as int]);
        } else {
            assert(m[b.key as int] != m[a.key as int]);
        }
    }
}

} // verus!

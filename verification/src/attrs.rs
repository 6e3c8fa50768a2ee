//! Attribute values and attribute maps.
//!
//! A kernel device exposes named attributes.  An attribute either has a
//! non-empty UTF-8 value ([`AttributeValue::Present`]), exists with an
//! empty value ([`AttributeValue::Empty`]), or exists with bytes that are
//! not valid UTF-8 ([`AttributeValue::Invalid`]).  Selector operators
//! treat only `Present` values as existing.

use vstd::prelude::*;

use crate::intern::InternedString;

verus! {

/// The value of one named attribute of a kernel device.
#[derive(Clone, Copy, Debug, PartialEq, Eq, Structural)]
pub enum AttributeValue {
    /// The attribute has a non-empty UTF-8 value.
    Present(InternedString),
    /// The attribute exists but its value is empty.
    Empty,
    /// The attribute exists but its value is not valid UTF-8.
    Invalid,
}

impl AttributeValue {
    /// The value, if the attribute is `Present`.
    pub fn as_option(self) -> (r: Option<InternedString>)
        ensures
            r == self.spec_as_option(),
    {
        match self {
            AttributeValue::Present(v) => Some(v),
            _ => None,
        }
    }

    pub open spec fn spec_as_option(self) -> Option<InternedString> {
        match self {
            AttributeValue::Present(v) => Some(v),
            _ => None,
        }
    }
}

/// First binding of `key` in an association list, if any.
pub open spec fn spec_lookup(
    entries: Seq<(InternedString, AttributeValue)>,
    key: InternedString,
) -> Option<AttributeValue>
    decreases entries.len(),
{
    if entries.len() == 0 {
        None
    } else if entries[0].0 == key {
        Some(entries[0].1)
    } else {
        spec_lookup(entries.skip(1), key)
    }
}

/// The `Present` value bound to `key`, if any.  `Empty` and `Invalid`
/// bindings count as absent, as does an unbound key.
pub open spec fn spec_present(
    entries: Seq<(InternedString, AttributeValue)>,
    key: InternedString,
) -> Option<InternedString> {
    match spec_lookup(entries, key) {
        Some(v) => v.spec_as_option(),
        None => None,
    }
}

/// An attribute map: named attribute values in binding order, each name
/// bound at most once.
#[derive(Clone, Debug)]
pub struct AttrMap {
    pub entries: Vec<(InternedString, AttributeValue)>,
}

impl View for AttrMap {
    type V = Seq<(InternedString, AttributeValue)>;

    open spec fn view(&self) -> Seq<(InternedString, AttributeValue)> {
        self.entries@
    }
}

impl AttrMap {
    /// Each attribute name is bound at most once.
    pub open spec fn wf(&self) -> bool {
        forall|i: int, j: int| 0 <= i < j < self@.len() ==> self@[i].0 != self@[j].0
    }

    pub fn new() -> (r: AttrMap)
        ensures
            r@ == Seq::<(InternedString, AttributeValue)>::empty(),
            r.wf(),
    {
        let r = AttrMap { entries: Vec::new() };
        proof {
            assert(r@ =~= Seq::<(InternedString, AttributeValue)>::empty());
        }
        r
    }

    pub fn len(&self) -> (n: usize)
        ensures
            n == self@.len(),
    {
        self.entries.len()
    }

    /// The value bound to `key`, if any.
    pub fn lookup(&self, key: InternedString) -> (r: Option<AttributeValue>)
        ensures
            r == spec_lookup(self@, key),
    {
        let n = self.entries.len();
        let mut i: usize = 0;
        proof {
            assert(self@.skip(0) =~= self@);
        }
        loop
            invariant
                i <= n,
                n == self@.len(),
                spec_lookup(self@, key) == spec_lookup(self@.skip(i as int), key),
            decreases n - i,
        {
            if i == n {
                return None;
            }
            let (k, v) = self.entries[i];
            assert(self@.skip(i as int)[0] == self@[i as int]);
            if k == key {
                return Some(v);
            }
            proof {
                assert(self@.skip(i as int).skip(1) =~= self@.skip(i + 1));
            }
            i += 1;
        }
    }

    /// Binds `key` to `value` unless `key` is already bound.  This is the
    /// first-occurrence-wins rule of the device hierarchy walk: a binding
    /// made at a deeper level shadows the same name further up.
    pub fn insert_if_absent(&mut self, key: InternedString, value: AttributeValue)
        requires
            old(self).wf(),
        ensures
            final(self).wf(),
            spec_lookup(old(self)@, key) is Some ==> final(self)@ == old(self)@,
            spec_lookup(old(self)@, key) is None ==> final(self)@ == old(self)@.push(
                (key, value),
            ),
    {
        proof {
            lemma_lookup_is_first_key_hit(self@, key);
        }
        if self.lookup(key).is_none() {
            let ghost prev = self@;
            self.entries.push((key, value));
            proof {
                assert(self@ =~= prev.push((key, value)));
                lemma_lookup_is_first_key_hit(prev, key);
            }
        }
    }
}

/// `spec_lookup` finds a binding exactly when some entry carries the key.
pub proof fn lemma_lookup_is_first_key_hit(
    entries: Seq<(InternedString, AttributeValue)>,
    key: InternedString,
)
    ensures
        (spec_lookup(entries, key) is Some) <==> (exists|i: int|
            0 <= i < entries.len() && entries[i].0 == key),
    decreases entries.len(),
{
    if entries.len() > 0 {
        lemma_lookup_is_first_key_hit(entries.skip(1), key);
        if entries[0].0 != key {
            if spec_lookup(entries.skip(1), key) is Some {
                let i = choose|i: int|
                    0 <= i < entries.skip(1).len() && entries.skip(1)[i].0 == key;
                assert(entries[i + 1].0 == key);
            }
            if exists|i: int| 0 <= i < entries.len() && entries[i].0 == key {
                let i = choose|i: int| 0 <= i < entries.len() && entries[i].0 == key;
                assert(entries.skip(1)[i - 1].0 == key);
            }
        }
    }
}

} // verus!

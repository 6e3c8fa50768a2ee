//! User-assigned labels of a device type.

use vstd::prelude::*;

use crate::attrs::{AttrMap, AttributeValue};
use crate::intern::InternedString;

verus! {

/// First binding of `key` in a label list, if any.
pub open spec fn spec_label_get(
    entries: Seq<(InternedString, InternedString)>,
    key: InternedString,
) -> Option<InternedString>
    decreases entries.len(),
{
    if entries.len() == 0 {
        None
    } else if entries[0].0 == key {
        Some(entries[0].1)
    } else {
        spec_label_get(entries.skip(1), key)
    }
}

/// The attribute map a label list induces: every label value counts as a
/// present attribute value.
pub open spec fn labels_as_attrs(
    entries: Seq<(InternedString, InternedString)>,
) -> Seq<(InternedString, AttributeValue)> {
    entries.map_values(|p: (InternedString, InternedString)| (p.0, AttributeValue::Present(p.1)))
}

/// Key/value labels a device type assigns, kept in key-sorted order with
/// unique keys.
#[derive(Clone, Debug)]
pub struct DeviceTypeLabels {
    pub entries: Vec<(InternedString, InternedString)>,
}

impl View for DeviceTypeLabels {
    type V = Seq<(InternedString, InternedString)>;

    open spec fn view(&self) -> Seq<(InternedString, InternedString)> {
        self.entries@
    }
}

impl DeviceTypeLabels {
    /// The value labelled under `key`, if any.
    pub fn get(&self, key: InternedString) -> (r: Option<InternedString>)
        ensures
            r == spec_label_get(self@, key),
    {
        let n = self.entries.len();
        let mut i: usize = 0;
        proof {
            assert(self@.skip(0) =~= self@);
        }
        loop
            invariant
                i <= n,
                n == self@.len(),
                spec_label_get(self@, key) == spec_label_get(self@.skip(i as int), key),
            decreases n - i,
        {
            if i == n {
                return None;
            }
            let (k, v) = self.entries[i];
            assert(self@.skip(i as int)[0] == self@[i as int]);
            if k == key {
                return Some(v);
            }
            proof {
                assert(self@.skip(i as int).skip(1) =~= self@.skip(i + 1));
            }
            i += 1;
        }
    }

    /// The labels as an attribute map, for matching a class selector
    /// against them.
    pub fn as_attr_map(&self) -> (r: AttrMap)
        ensures
            r@ == labels_as_attrs(self@),
    {
        let n = self.entries.len();
        let mut entries: Vec<(InternedString, AttributeValue)> = Vec::new();
        for i in 0..n
            invariant
                n == self.entries@.len(),
                entries@ == labels_as_attrs(self@.take(i as int)),
        {
            let (k, v) = self.entries[i];
            entries.push((k, AttributeValue::Present(v)));
            proof {
                assert(entries@ =~= labels_as_attrs(self@.take(i + 1)));
            }
        }
        proof {
            assert(self@.take(n as int) =~= self@);
        }
        AttrMap { entries }
    }
}

impl DeviceTypeLabels {
    /// A copy with the same view.
    pub fn duplicate(&self) -> (r: DeviceTypeLabels)
        ensures
            r@ == self@,
    {
        DeviceTypeLabels { entries: crate::selector::copy_handle_pairs(&self.entries) }
    }
}

} // verus!

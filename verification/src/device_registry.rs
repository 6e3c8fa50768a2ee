//! The table of live kernel devices, keyed by sysfs path.
//!
//! The table is kept sorted by the resolved sysfs-path text, ascending,
//! so that registries holding the same devices hold them in the same
//! order — the order the paths themselves dictate, not the order they
//! were first seen or interned — and the snapshots derived downstream
//! are a function of the device set alone.

use vstd::prelude::*;

use crate::device::{UdevDevice, UdevEvent};
use crate::intern::{Interner, InternedString};
use crate::strutil::{lemma_lex_trans, lemma_lex_trichotomy, lex_lt, str_lt};

verus! {

/// Every device's sysfs-path handle resolves under the interner table
/// `m`, and the resolved paths are strictly ascending: each path occurs
/// at most once.
pub open spec fn reg_wf(s: Seq<UdevDevice>, m: Seq<Seq<char>>) -> bool {
    &&& forall|i: int| 0 <= i < s.len() ==> (#[trigger] s[i]).syspath.key < m.len()
    &&& forall|i: int, j: int|
        0 <= i < j < s.len() ==> lex_lt(
            m[(#[trigger] s[i]).syspath.key as int],
            m[(#[trigger] s[j]).syspath.key as int],
        )
}

/// The table after binding `d` under its sysfs path: an existing entry
/// with the same path text is replaced in place, a new path is inserted
/// where the path order puts it.
pub open spec fn spec_reg_insert(s: Seq<UdevDevice>, d: UdevDevice, m: Seq<Seq<char>>) -> Seq<
    UdevDevice,
>
    decreases s.len(),
{
    if s.len() == 0 {
        seq![d]
    } else if lex_lt(m[d.syspath.key as int], m[s[0].syspath.key as int]) {
        seq![d] + s
    } else if m[d.syspath.key as int] == m[s[0].syspath.key as int] {
        seq![d] + s.skip(1)
    } else {
        seq![s[0]] + spec_reg_insert(s.skip(1), d, m)
    }
}

/// The table after unbinding the sysfs path `p`.
pub open spec fn spec_reg_remove(s: Seq<UdevDevice>, p: InternedString) -> Seq<UdevDevice>
    decreases s.len(),
{
    if s.len() == 0 {
        s
    } else if s[0].syspath == p {
        s.skip(1)
    } else {
        seq![s[0]] + spec_reg_remove(s.skip(1), p)
    }
}

/// Binding keeps the table sorted.
pub proof fn lemma_reg_insert_sorted(s: Seq<UdevDevice>, d: UdevDevice, m: Seq<Seq<char>>)
    requires
        reg_wf(s, m),
        d.syspath.key < m.len(),
    ensures
        reg_wf(spec_reg_insert(s, d, m), m),
        spec_reg_insert(s, d, m).len() <= s.len() + 1,
        forall|i: int|
            0 <= i < spec_reg_insert(s, d, m).len() ==> (#[trigger] spec_reg_insert(s, d, m)[i])
                == d || s.contains(spec_reg_insert(s, d, m)[i]),
    decreases s.len(),
{
    let r = spec_reg_insert(s, d, m);
    let dt = m[d.syspath.key as int];
    if s.len() == 0 {
    } else if lex_lt(dt, m[s[0].syspath.key as int]) {
        assert forall|i: int| 0 <= i < r.len() implies (#[trigger] r[i]) == d || s.contains(
            r[i],
        ) by {
            if i > 0 {
                assert(r[i] == s[i - 1]);
            }
        }
        assert forall|i: int, j: int| 0 <= i < j < r.len() implies lex_lt(
            m[(#[trigger] r[i]).syspath.key as int],
            m[(#[trigger] r[j]).syspath.key as int],
        ) by {
            if i == 0 {
                assert(r[j] == s[j - 1]);
                if j > 1 {
                    lemma_lex_trans(dt, m[s[0].syspath.key as int], m[s[j - 1].syspath.key as int]);
                }
            } else {
                assert(r[i] == s[i - 1]);
                assert(r[j] == s[j - 1]);
            }
        }
    } else if dt == m[s[0].syspath.key as int] {
        assert forall|i: int| 0 <= i < r.len() implies (#[trigger] r[i]) == d || s.contains(
            r[i],
        ) by {
            if i > 0 {
                assert(r[i] == s[i]);
            }
        }
        assert forall|i: int, j: int| 0 <= i < j < r.len() implies lex_lt(
            m[(#[trigger] r[i]).syspath.key as int],
            m[(#[trigger] r[j]).syspath.key as int],
        ) by {
            if i == 0 {
                assert(r[j] == s[j]);
                assert(lex_lt(m[s[0].syspath.key as int], m[s[j].syspath.key as int]));
            } else {
                assert(r[i] == s[i]);
                assert(r[j] == s[j]);
            }
        }
    } else {
        lemma_lex_trichotomy(dt, m[s[0].syspath.key as int]);
        assert(lex_lt(m[s[0].syspath.key as int], dt));
        assert(reg_wf(s.skip(1), m));
        lemma_reg_insert_sorted(s.skip(1), d, m);
        let rr = spec_reg_insert(s.skip(1), d, m);
        assert forall|i: int, j: int| 0 <= i < j < r.len() implies lex_lt(
            m[(#[trigger] r[i]).syspath.key as int],
            m[(#[trigger] r[j]).syspath.key as int],
        ) by {
            if i == 0 {
                assert(r[0] == s[0]);
                assert(r[j] == rr[j - 1]);
                if rr[j - 1] == d {
                } else {
                    let k = choose|k: int| 0 <= k < s.skip(1).len() && s.skip(1)[k] == rr[j - 1];
                    assert(s[k + 1] == rr[j - 1]);
                }
            } else {
                assert(r[i] == rr[i - 1]);
                assert(r[j] == rr[j - 1]);
            }
        }
        assert forall|i: int| 0 <= i < r.len() implies (#[trigger] r[i]) == d || s.contains(
            r[i],
        ) by {
            if i > 0 {
                assert(r[i] == rr[i - 1]);
                if rr[i - 1] != d {
                    let k = choose|k: int| 0 <= k < s.skip(1).len() && s.skip(1)[k] == rr[i - 1];
                    assert(s[k + 1] == rr[i - 1]);
                }
            }
        }
    }
}

/// Unbinding keeps the table sorted, and every remaining entry stood in
/// the table before; no remaining entry carries the removed path.
pub proof fn lemma_reg_remove_sorted(s: Seq<UdevDevice>, p: InternedString, m: Seq<Seq<char>>)
    requires
        reg_wf(s, m),
    ensures
        reg_wf(spec_reg_remove(s, p), m),
        spec_reg_remove(s, p).len() <= s.len(),
        forall|i: int|
            0 <= i < spec_reg_remove(s, p).len() ==> s.contains(
                #[trigger] spec_reg_remove(s, p)[i],
            ),
        forall|i: int|
            0 <= i < spec_reg_remove(s, p).len() ==> (#[trigger] spec_reg_remove(s, p)[i]).syspath
                != p,
    decreases s.len(),
{
    let r = spec_reg_remove(s, p);
    if s.len() == 0 {
    } else if s[0].syspath == p {
        assert forall|i: int| 0 <= i < r.len() implies s.contains(#[trigger] r[i]) && r[i].syspath
            != p by {
            assert(r[i] == s[i + 1]);
            lemma_lex_trichotomy(
                m[s[0].syspath.key as int],
                m[s[i + 1].syspath.key as int],
            );
        }
        assert forall|i: int, j: int| 0 <= i < j < r.len() implies lex_lt(
            m[(#[trigger] r[i]).syspath.key as int],
            m[(#[trigger] r[j]).syspath.key as int],
        ) by {
            assert(r[i] == s[i + 1]);
            assert(r[j] == s[j + 1]);
        }
    } else {
        assert(reg_wf(s.skip(1), m));
        lemma_reg_remove_sorted(s.skip(1), p, m);
        let rr = spec_reg_remove(s.skip(1), p);
        assert forall|i: int| 0 <= i < r.len() implies s.contains(#[trigger] r[i]) && r[i].syspath
            != p by {
            if i == 0 {
                assert(r[0] == s[0]);
            } else {
                assert(r[i] == rr[i - 1]);
                let k = choose|k: int| 0 <= k < s.skip(1).len() && s.skip(1)[k] == rr[i - 1];
                assert(s[k + 1] == rr[i - 1]);
            }
        }
        assert forall|i: int, j: int| 0 <= i < j < r.len() implies lex_lt(
            m[(#[trigger] r[i]).syspath.key as int],
            m[(#[trigger] r[j]).syspath.key as int],
        ) by {
            if i == 0 {
                assert(r[j] == rr[j - 1]);
                let k = choose|k: int| 0 <= k < s.skip(1).len() && s.skip(1)[k] == rr[j - 1];
                assert(s[k + 1] == rr[j - 1]);
            } else {
                assert(r[i] == rr[i - 1]);
                assert(r[j] == rr[j - 1]);
            }
        }
    }
}

/// Table of live kernel devices keyed by sysfs path, updated from an
/// initial enumeration plus the live event stream.
pub struct DeviceRegistry {
    pub devices: Vec<UdevDevice>,
}

impl View for DeviceRegistry {
    type V = Seq<UdevDevice>;

    open spec fn view(&self) -> Seq<UdevDevice> {
        self.devices@
    }
}

/// Compares two interned paths by their resolved text.
fn syspath_lt(im: &Interner, a: InternedString, b: InternedString) -> (r: bool)
    requires
        a.key < im@.len(),
        b.key < im@.len(),
    ensures
        r == lex_lt(im@[a.key as int], im@[b.key as int]),
{
    str_lt(im.resolve(a).as_str(), im.resolve(b).as_str())
}

impl DeviceRegistry {
    /// The table is sorted by resolved path under the interner table `m`.
    pub open spec fn wf(&self, m: Seq<Seq<char>>) -> bool {
        reg_wf(self@, m)
    }

    pub fn new() -> (r: DeviceRegistry)
        ensures
            r@ == Seq::<UdevDevice>::empty(),
    {
        let r = DeviceRegistry { devices: Vec::new() };
        proof {
            assert(r@ =~= Seq::<UdevDevice>::empty());
        }
        r
    }

    /// Binds `d` under its sysfs path, replacing any device already bound
    /// there; a fresh path goes where the ascending path order puts it.
    pub fn insert(&mut self, d: UdevDevice, im: &Interner)
        requires
            old(self).wf(im@),
            d.syspath.key < im@.len(),
        ensures
            final(self).wf(im@),
            final(self)@ == spec_reg_insert(old(self)@, d, im@),
    {
        let ghost m = im@;
        proof {
            lemma_reg_insert_sorted(self@, d, m);
        }
        let n = self.devices.len();
        let ghost s0 = self@;
        let mut i: usize = 0;
        proof {
            assert(s0.skip(0) =~= s0);
            assert(s0.take(0) + spec_reg_insert(s0.skip(0), d, m) =~= spec_reg_insert(s0, d, m));
        }
        while i < n && syspath_lt(im, self.devices[i].syspath, d.syspath)
            invariant
                self@ == s0,
                reg_wf(s0, m),
                m == im@,
                d.syspath.key < m.len(),
                n == s0.len(),
                i <= n,
                spec_reg_insert(s0, d, m) == s0.take(i as int) + spec_reg_insert(
                    s0.skip(i as int),
                    d,
                    m,
                ),
                forall|j: int|
                    0 <= j < i ==> lex_lt(
                        m[(#[trigger] s0[j]).syspath.key as int],
                        m[d.syspath.key as int],
                    ),
            decreases n - i,
        {
            proof {
                assert(s0.skip(i as int)[0] == s0[i as int]);
                assert(s0.skip(i as int).skip(1) =~= s0.skip(i + 1));
                lemma_lex_trichotomy(
                    m[s0[i as int].syspath.key as int],
                    m[d.syspath.key as int],
                );
                assert(seq![s0[i as int]] + spec_reg_insert(s0.skip(i + 1), d, m)
                    == spec_reg_insert(s0.skip(i as int), d, m));
                assert(s0.take(i + 1) =~= s0.take(i as int) + seq![s0[i as int]]);
                assert(s0.take(i as int) + (seq![s0[i as int]] + spec_reg_insert(
                    s0.skip(i + 1),
                    d,
                    m,
                )) =~= s0.take(i + 1) + spec_reg_insert(s0.skip(i + 1), d, m));
            }
            i += 1;
        }
        if i == n {
            self.devices.push(d);
            proof {
                assert(s0.skip(n as int) =~= Seq::<UdevDevice>::empty());
                assert(spec_reg_insert(s0.skip(n as int), d, m) =~= seq![d]);
                assert(s0.take(n as int) =~= s0);
                assert(self@ =~= s0 + seq![d]);
                assert(self@ =~= spec_reg_insert(s0, d, m));
            }
        } else {
            proof {
                assert(s0.skip(i as int)[0] == s0[i as int]);
            }
            if syspath_lt(im, d.syspath, self.devices[i].syspath) {
                self.devices.insert(i, d);
                proof {
                    assert(spec_reg_insert(s0.skip(i as int), d, m) =~= seq![d] + s0.skip(
                        i as int,
                    ));
                    assert(self@ =~= s0.insert(i as int, d));
                    assert(self@ =~= s0.take(i as int) + (seq![d] + s0.skip(i as int)));
                    assert(self@ =~= spec_reg_insert(s0, d, m));
                }
            } else {
                proof {
                    lemma_lex_trichotomy(
                        m[d.syspath.key as int],
                        m[s0[i as int].syspath.key as int],
                    );
                }
                self.devices.remove(i);
                self.devices.insert(i, d);
                proof {
                    assert(s0.skip(i as int).skip(1) =~= s0.skip(i + 1));
                    assert(spec_reg_insert(s0.skip(i as int), d, m) =~= seq![d] + s0.skip(i + 1));
                    assert(self@ =~= s0.remove(i as int).insert(i as int, d));
                    assert(self@ =~= s0.take(i as int) + (seq![d] + s0.skip(i + 1)));
                    assert(self@ =~= spec_reg_insert(s0, d, m));
                }
            }
        }
    }

    /// Unbinds the device with sysfs path `p`, if one is bound.
    pub fn remove(&mut self, p: InternedString)
        ensures
            final(self)@ == spec_reg_remove(old(self)@, p),
    {
        let n = self.devices.len();
        let ghost s0 = self@;
        let mut i: usize = 0;
        proof {
            assert(s0.skip(0) =~= s0);
            assert(s0.take(0) + spec_reg_remove(s0.skip(0), p) =~= spec_reg_remove(s0, p));
        }
        while i < n && self.devices[i].syspath != p
            invariant
                self@ == s0,
                n == s0.len(),
                i <= n,
                spec_reg_remove(s0, p) == s0.take(i as int) + spec_reg_remove(
                    s0.skip(i as int),
                    p,
                ),
            decreases n - i,
        {
            proof {
                assert(s0.skip(i as int)[0] == s0[i as int]);
                assert(s0.skip(i as int).skip(1) =~= s0.skip(i + 1));
                assert(seq![s0[i as int]] + spec_reg_remove(s0.skip(i + 1), p) == spec_reg_remove(
                    s0.skip(i as int),
                    p,
                ));
                assert(s0.take(i + 1) =~= s0.take(i as int) + seq![s0[i as int]]);
                assert(s0.take(i as int) + (seq![s0[i as int]] + spec_reg_remove(
                    s0.skip(i + 1),
                    p,
                )) =~= s0.take(i + 1) + spec_reg_remove(s0.skip(i + 1), p));
            }
            i += 1;
        }
        if i == n {
            proof {
                assert(s0.skip(n as int) =~= Seq::<UdevDevice>::empty());
                assert(s0.take(n as int) =~= s0);
                assert(self@ =~= spec_reg_remove(s0, p));
            }
        } else {
            self.devices.remove(i);
            proof {
                assert(s0.skip(i as int)[0] == s0[i as int]);
                assert(s0.skip(i as int).skip(1) =~= s0.skip(i + 1));
                assert(spec_reg_remove(s0.skip(i as int), p) =~= s0.skip(i + 1));
                assert(self@ =~= s0.remove(i as int));
                assert(self@ =~= s0.take(i as int) + s0.skip(i + 1));
                assert(self@ =~= spec_reg_remove(s0, p));
            }
        }
    }

    /// Rebuilds the whole table from a fresh enumeration.  Devices are
    /// bound in arrival order, the last occurrence of a path winning.
    pub fn scan_devices(&mut self, devices: Vec<UdevDevice>, im: &Interner)
        requires
            forall|i: int| 0 <= i < devices@.len() ==> (#[trigger] devices@[i]).syspath.key
                < im@.len(),
        ensures
            final(self).wf(im@),
            final(self)@ == spec_scan(devices@, im@),
    {
        let ghost m = im@;
        self.devices.clear();
        proof {
            assert(self@ =~= Seq::<UdevDevice>::empty());
        }
        let n = devices.len();
        let ghost dv = devices@;
        let mut ds = devices;
        let mut i: usize = 0;
        proof {
            assert(dv.take(0) =~= Seq::<UdevDevice>::empty());
        }
        proof {
            assert(dv.skip(0) =~= dv);
        }
        while i < n
            invariant
                i <= n,
                n == dv.len(),
                m == im@,
                ds@ == dv.skip(i as int),
                forall|j: int| 0 <= j < dv.len() ==> (#[trigger] dv[j]).syspath.key < m.len(),
                self.wf(m),
                self@ == spec_scan(dv.take(i as int), m),
            decreases n - i,
        {
            let d = ds.remove(0);
            proof {
                assert(dv.skip(i as int)[0] == dv[i as int]);
                assert(ds@ =~= dv.skip(i + 1));
            }
            self.insert(d, im);
            proof {
                assert(dv.take(i + 1).drop_last() =~= dv.take(i as int));
                assert(dv.take(i + 1).last() == dv[i as int]);
            }
            i += 1;
        }
        proof {
            assert(dv.take(n as int) =~= dv);
        }
    }

    /// Applies one kernel event: `Add` and `Change` bind the device,
    /// `Remove` unbinds its path, and the other events leave the table
    /// unchanged.
    pub fn update(&mut self, event: UdevEvent, im: &Interner)
        requires
            old(self).wf(im@),
            event.spec_device().syspath.key < im@.len(),
        ensures
            final(self).wf(im@),
            final(self)@ == spec_apply(old(self)@, event, im@),
    {
        match event {
            UdevEvent::Add(d) => self.insert(d, im),
            UdevEvent::Change(d) => self.insert(d, im),
            UdevEvent::Remove(d) => {
                proof {
                    lemma_reg_remove_sorted(self@, d.syspath, im@);
                }
                self.remove(d.syspath);
            },
            UdevEvent::Bind(_) => {},
            UdevEvent::Unbind(_) => {},
            UdevEvent::Unknown(_) => {},
        }
    }
}

/// The table a fresh enumeration builds: fold of `spec_reg_insert` over
/// the devices in arrival order.
pub open spec fn spec_scan(devices: Seq<UdevDevice>, m: Seq<Seq<char>>) -> Seq<UdevDevice>
    decreases devices.len(),
{
    if devices.len() == 0 {
        Seq::empty()
    } else {
        spec_reg_insert(spec_scan(devices.drop_last(), m), devices.last(), m)
    }
}

/// What one kernel event does to the table.
pub open spec fn spec_apply(s: Seq<UdevDevice>, event: UdevEvent, m: Seq<Seq<char>>) -> Seq<
    UdevDevice,
> {
    match event {
        UdevEvent::Add(d) => spec_reg_insert(s, d, m),
        UdevEvent::Change(d) => spec_reg_insert(s, d, m),
        UdevEvent::Remove(d) => spec_reg_remove(s, d.syspath),
        UdevEvent::Bind(_) => s,
        UdevEvent::Unbind(_) => s,
        UdevEvent::Unknown(_) => s,
    }
}

} // verus!

//! The device-type registry: for each configured device type, the
//! matching devices expanded into slots, and the consumable distributor
//! view over the types.

use vstd::prelude::*;

use crate::config::{type_matches, DeviceType};
use crate::device::{is_base64_char, UdevDevice};
use crate::device_registry::DeviceRegistry;
use crate::intern::{Interner, InternedString};
use crate::strutil::{dec_chars, lemma_dec_chars_digits};

verus! {

/// A compact, copyable summary of one kernel device.
#[derive(Clone, Copy, Debug, PartialEq, Eq, Structural)]
pub struct DeviceRef {
    pub id: InternedString,
    pub subsystem: InternedString,
    pub syspath: InternedString,
    pub devnode: InternedString,
}

/// One allocatable slot of one kernel device: the device plus a slot
/// index below the owning type's access count.  A handle's identity is
/// its rendered id — the device's id text and the slot index — alone:
/// snapshot comparison goes by [`handle_key`], never by the other device
/// fields, so a device update that keeps the id does not disturb the
/// published snapshot.
#[derive(Clone, Copy, Debug, PartialEq, Eq, Structural)]
pub struct DeviceHandle {
    pub device: DeviceRef,
    pub index: u8,
}

/// The identity of a handle: the interned device id and the slot index,
/// exactly what the rendered id spells out.
pub open spec fn handle_key(h: DeviceHandle) -> (InternedString, u8) {
    (h.device.id, h.index)
}

/// The identities of a snapshot's handles, in order.  Two snapshots with
/// equal keys render the same id list and count as the same snapshot.
pub open spec fn handle_keys(s: Seq<DeviceHandle>) -> Seq<(InternedString, u8)> {
    s.map_values(|h: DeviceHandle| handle_key(h))
}

/// The copyable summary of a device.
pub open spec fn dev_ref(dev: UdevDevice) -> DeviceRef {
    DeviceRef {
        id: dev.id,
        subsystem: dev.subsystem,
        syspath: dev.syspath,
        devnode: dev.devnode,
    }
}

/// The rendered id of a handle: the device's id text, a colon, and the
/// slot index in decimal.
pub open spec fn handle_id_chars(m: Seq<Seq<char>>, h: DeviceHandle) -> Seq<char> {
    m[h.device.id.key as int] + seq![':'] + dec_chars(h.index as nat)
}

impl DeviceHandle {
    /// Renders the handle's id: `"<device id>:<slot index>"`.
    pub fn id_string(&self, im: &Interner) -> (r: String)
        requires
            im.holds(self.device.id),
        ensures
            r@ == handle_id_chars(im@, *self),
    {
        let mut r = im.resolve(self.device.id).clone();
        proof {
            reveal_strlit(":");
        }
        r.append(":");
        crate::strutil::append_decimal_u8(&mut r, self.index);
        proof {
            assert(r@ =~= handle_id_chars(im@, *self));
        }
        r
    }
}

/// Rendered handle ids have the form `<base64 text> ':' <decimal>`: the
/// first twelve characters are base64 characters, the thirteenth is the
/// colon, and the rest are decimal digits.  The colon is neither a
/// base64 character nor a digit, so the split is unambiguous.
pub proof fn lemma_handle_id_shape(m: Seq<Seq<char>>, h: DeviceHandle)
    requires
        m[h.device.id.key as int].len() == 12,
        forall|i: int|
            0 <= i < 12 ==> is_base64_char(#[trigger] m[h.device.id.key as int][i]),
    ensures
        handle_id_chars(m, h).len() >= 14,
        forall|i: int| 0 <= i < 12 ==> is_base64_char(#[trigger] handle_id_chars(m, h)[i]),
        handle_id_chars(m, h)[12] == ':',
        forall|i: int|
            12 < i < handle_id_chars(m, h).len() ==> '0' <= #[trigger] handle_id_chars(m, h)[i]
                <= '9',
        !is_base64_char(':'),
        !('0' <= ':' <= '9'),
{
    let s = handle_id_chars(m, h);
    lemma_dec_chars_digits(h.index as nat);
    assert(dec_chars(h.index as nat).len() >= 1);
    assert forall|i: int| 0 <= i < 12 implies is_base64_char(#[trigger] s[i]) by {
        assert(s[i] == m[h.device.id.key as int][i]);
    }
    assert forall|i: int| 12 < i < s.len() implies '0' <= #[trigger] s[i] <= '9' by {
        assert(s[i] == dec_chars(h.index as nat)[i - 13]);
    }
}

/// Two handles are the same slot exactly when their rendered ids agree:
/// under one well-formed interner, with device ids of the usual twelve
/// characters, equality of [`handle_key`]s and equality of the rendered
/// id texts coincide.  Snapshot change detection may therefore compare
/// keys and still mean the published id strings.
pub proof fn lemma_handle_identity_is_id(m: Seq<Seq<char>>, a: DeviceHandle, b: DeviceHandle)
    requires
        crate::intern::distinct_seqs(m),
        a.device.id.key < m.len(),
        b.device.id.key < m.len(),
        m[a.device.id.key as int].len() == 12,
        m[b.device.id.key as int].len() == 12,
    ensures
        handle_key(a) == handle_key(b) <==> handle_id_chars(m, a) == handle_id_chars(m, b),
{
    let sa = m[a.device.id.key as int];
    let sb = m[b.device.id.key as int];
    let ra = handle_id_chars(m, a);
    let rb = handle_id_chars(m, b);
    if handle_key(a) == handle_key(b) {
        assert(ra =~= rb);
    }
    if ra == rb {
        crate::strutil::lemma_dec_chars_len(a.index as nat);
        crate::strutil::lemma_dec_chars_len(b.index as nat);
        assert forall|i: int| 0 <= i < 12 implies sa[i] == sb[i] by {
            assert(ra[i] == sa[i]);
            assert(rb[i] == sb[i]);
        }
        assert(sa =~= sb);
        crate::intern::lemma_intern_handle_eq(m, a.device.id, b.device.id);
        let da = dec_chars(a.index as nat);
        let db = dec_chars(b.index as nat);
        assert(ra.len() == 13 + da.len());
        assert(rb.len() == 13 + db.len());
        assert forall|i: int| 0 <= i < da.len() implies da[i] == db[i] by {
            assert(ra[13 + i] == da[i]);
            assert(rb[13 + i] == db[i]);
        }
        assert(da =~= db);
        crate::strutil::lemma_dec_chars_injective(a.index as nat, b.index as nat);
    }
}

/// The slots one matching device yields: indices `0 .. count`.
pub open spec fn dev_slots(dev: UdevDevice, count: nat) -> Seq<DeviceHandle> {
    Seq::new(count, |i: int| DeviceHandle { device: dev_ref(dev), index: i as u8 })
}

/// The slots a device type yields over a device table: for each device
/// in table order whose subsystem and attributes match, `access` many
/// slots.
pub open spec fn type_slots(ty: DeviceType, devs: Seq<UdevDevice>) -> Seq<DeviceHandle>
    decreases devs.len(),
{
    if devs.len() == 0 {
        Seq::empty()
    } else {
        (if type_matches(ty@, devs[0]) {
            dev_slots(devs[0], ty@.access.spec_count())
        } else {
            Seq::empty()
        }) + type_slots(ty, devs.skip(1))
    }
}

/// The handle stands for a slot of some matching device of the table.
pub open spec fn slot_from(ty: DeviceType, devs: Seq<UdevDevice>, h: DeviceHandle) -> bool {
    exists|j: int|
        0 <= j < devs.len() && h.device == dev_ref(#[trigger] devs[j]) && type_matches(
            ty@,
            devs[j],
        )
}

/// Every slot a type yields stems from a matching device of the table,
/// and its index is below the type's access count.
pub proof fn lemma_type_slots_from_devices(ty: DeviceType, devs: Seq<UdevDevice>)
    requires
        ty@.access.wf(),
    ensures
        forall|k: int|
            0 <= k < type_slots(ty, devs).len() ==> slot_from(
                ty,
                devs,
                #[trigger] type_slots(ty, devs)[k],
            ),
        forall|k: int|
            0 <= k < type_slots(ty, devs).len() ==> ((#[trigger] type_slots(ty, devs)[k]).index
                as nat) < ty@.access.spec_count(),
    decreases devs.len(),
{
    if devs.len() > 0 {
        lemma_type_slots_from_devices(ty, devs.skip(1));
        let here = if type_matches(ty@, devs[0]) {
            dev_slots(devs[0], ty@.access.spec_count())
        } else {
            Seq::empty()
        };
        let rest = type_slots(ty, devs.skip(1));
        assert forall|k: int| 0 <= k < type_slots(ty, devs).len() implies slot_from(
            ty,
            devs,
            #[trigger] type_slots(ty, devs)[k],
        ) && ((type_slots(ty, devs)[k].index as nat) < ty@.access.spec_count()) by {
            if k < here.len() {
                assert(type_slots(ty, devs)[k] == here[k]);
                assert(here[k].device == dev_ref(devs[0]) && type_matches(ty@, devs[0]));
                assert(slot_from(ty, devs, here[k]));
            } else {
                let h = rest[k - here.len()];
                assert(type_slots(ty, devs)[k] == h);
                assert(slot_from(ty, devs.skip(1), h));
                let j = choose|j: int|
                    0 <= j < devs.skip(1).len() && h.device == dev_ref(#[trigger] devs.skip(1)[j])
                        && type_matches(ty@, devs.skip(1)[j]);
                assert(devs.skip(1)[j] == devs[j + 1]);
                assert(h.device == dev_ref(devs[j + 1]) && type_matches(ty@, devs[j + 1]));
                assert(slot_from(ty, devs, h));
            }
        }
    }
}

/// One configured device type together with its current slots.
pub struct DeviceTypeHandle {
    pub config: DeviceType,
    pub devices: Vec<DeviceHandle>,
}

impl DeviceTypeHandle {
    /// A fresh handle with no slots yet.
    pub fn new(config: DeviceType) -> (r: DeviceTypeHandle)
        ensures
            r.config == config,
            r.devices@ == Seq::<DeviceHandle>::empty(),
    {
        let r = DeviceTypeHandle { config, devices: Vec::new() };
        proof {
            assert(r.devices@ =~= Seq::<DeviceHandle>::empty());
        }
        r
    }

    /// The configured device type.
    pub fn config(&self) -> (r: &DeviceType)
        ensures
            r == &self.config,
    {
        &self.config
    }

    /// The current slots, in device-table order.
    pub fn devices(&self) -> (r: &Vec<DeviceHandle>)
        ensures
            r == &self.devices,
    {
        &self.devices
    }

    /// Recomputes the slots from the device table: every matching device
    /// yields `access` many slots with indices `0 .. access`.
    /// `subsystem_key` is the interned name of the subsystem field, used
    /// in mismatch reports.
    pub fn reconcile(&mut self, registry: &DeviceRegistry, subsystem_key: InternedString)
        requires
            old(self).config@.access.wf(),
        ensures
            final(self).config == old(self).config,
            final(self).devices@ == type_slots(old(self).config, registry@),
    {
        let mut slots: Vec<DeviceHandle> = Vec::new();
        let n = registry.devices.len();
        let ghost rv = registry@;
        proof {
            assert(rv.skip(0) =~= rv);
            assert(slots@ + type_slots(self.config, rv.skip(0)) =~= type_slots(self.config, rv));
        }
        let mut i: usize = 0;
        while i < n
            invariant
                self == old(self),
                self.config@.access.wf(),
                i <= n,
                n == rv.len(),
                rv == registry@,
                type_slots(self.config, rv) == slots@ + type_slots(
                    self.config,
                    rv.skip(i as int),
                ),
            decreases n - i,
        {
            let dev = &registry.devices[i];
            proof {
                assert(rv.skip(i as int)[0] == rv[i as int]);
            }
            let m = self.config.match_with(dev, subsystem_key);
            let ghost before = slots@;
            if m.is_match() {
                let count = self.config.access.count();
                let dref = DeviceRef {
                    id: dev.id,
                    subsystem: dev.subsystem,
                    syspath: dev.syspath,
                    devnode: dev.devnode,
                };
                let mut k: u8 = 0;
                while k < count
                    invariant
                        k <= count,
                        count as nat == self.config@.access.spec_count(),
                        dref == dev_ref(rv[i as int]),
                        slots@ == before + dev_slots(rv[i as int], k as nat),
                    decreases count - k,
                {
                    slots.push(DeviceHandle { device: dref, index: k });
                    proof {
                        assert(slots@ =~= before + dev_slots(rv[i as int], (k + 1) as nat));
                    }
                    k += 1;
                }
            }
            proof {
                assert(rv.skip(i as int).skip(1) =~= rv.skip(i + 1));
                if type_matches(self.config@, rv[i as int]) {
                    assert(slots@ =~= before + dev_slots(
                        rv[i as int],
                        self.config@.access.spec_count(),
                    ));
                }
                assert(type_slots(self.config, rv) =~= slots@ + type_slots(
                    self.config,
                    rv.skip(i + 1),
                ));
            }
            i += 1;
        }
        proof {
            assert(rv.skip(n as int) =~= Seq::<UdevDevice>::empty());
            assert(type_slots(self.config, rv) =~= slots@);
        }
        self.devices = slots;
    }
}

/// The registry of configured device types, in configuration order.
pub struct DeviceTypeRegistry {
    pub types: Vec<DeviceTypeHandle>,
}

impl DeviceTypeRegistry {
    /// All access policies are well formed.
    pub open spec fn wf(&self) -> bool {
        forall|i: int|
            0 <= i < self.types@.len() ==> (#[trigger] self.types@[i]).config@.access.wf()
    }

    /// Builds a registry from the configured types, in configuration
    /// order, with no slots yet.
    pub fn new(configs: &Vec<DeviceType>) -> (r: DeviceTypeRegistry)
        requires
            forall|i: int| 0 <= i < configs@.len() ==> (#[trigger] configs@[i])@.access.wf(),
        ensures
            r.wf(),
            r.types@.len() == configs@.len(),
            forall|i: int|
                0 <= i < configs@.len() ==> (#[trigger] r.types@[i]).config@ == configs@[i]@
                    && r.types@[i].devices@ == Seq::<DeviceHandle>::empty(),
    {
        let n = configs.len();
        let mut types: Vec<DeviceTypeHandle> = Vec::new();
        for i in 0..n
            invariant
                n == configs@.len(),
                types@.len() == i,
                forall|j: int| 0 <= j < n ==> (#[trigger] configs@[j])@.access.wf(),
                forall|j: int|
                    0 <= j < i ==> (#[trigger] types@[j]).config@ == configs@[j]@
                        && types@[j].devices@ == Seq::<DeviceHandle>::empty(),
        {
            types.push(DeviceTypeHandle::new(configs[i].duplicate()));
        }
        DeviceTypeRegistry { types }
    }

    /// Recomputes every type's slots from the device table.
    pub fn reconcile(&mut self, registry: &DeviceRegistry, subsystem_key: InternedString)
        requires
            old(self).wf(),
        ensures
            final(self).wf(),
            final(self).types@.len() == old(self).types@.len(),
            forall|i: int|
                0 <= i < final(self).types@.len() ==> (#[trigger] final(self).types@[i]).config
                    == old(self).types@[i].config && final(self).types@[i].devices@ == type_slots(
                    old(self).types@[i].config,
                    registry@,
                ),
    {
        let n = self.types.len();
        let ghost t0 = self.types@;
        let mut i: usize = 0;
        while i < n
            invariant
                i <= n,
                n == self.types@.len(),
                t0.len() == n,
                forall|j: int| 0 <= j < n ==> (#[trigger] t0[j]).config@.access.wf(),
                forall|j: int|
                    0 <= j < i ==> (#[trigger] self.types@[j]).config == t0[j].config
                        && self.types@[j].devices@ == type_slots(t0[j].config, registry@),
                forall|j: int| i <= j < n ==> (#[trigger] self.types@[j]) == t0[j],
            decreases n - i,
        {
            let ty = &mut self.types[i];
            ty.reconcile(registry, subsystem_key);
            i += 1;
        }
    }
}

} // verus!

verus! {

/// Copies a list of device handles.
pub fn copy_handles_list(vs: &Vec<DeviceHandle>) -> (r: Vec<DeviceHandle>)
    ensures
        r@ == vs@,
{
    let n = vs.len();
    let mut r: Vec<DeviceHandle> = Vec::new();
    for i in 0..n
        invariant
            n == vs@.len(),
            r@ == vs@.take(i as int),
    {
        r.push(vs[i]);
        proof {
            assert(r@ =~= vs@.take(i + 1));
        }
    }
    proof {
        assert(vs@.take(n as int) =~= vs@);
    }
    r
}

} // verus!

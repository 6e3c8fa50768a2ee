//! The device-class registry and per-class snapshot maintenance.
//!
//! A distributor offers the device types to the classes in class order;
//! each class takes the types its selector accepts, and a taken type is
//! gone from the pool, so the first matching class wins.  Each class
//! flattens its types' slots and compares them, id for id, with its
//! published snapshot; only a changed list replaces the snapshot and
//! signals a push of the new device list to the class's watchers.

use vstd::prelude::*;

use crate::config::{class_accepts, DeviceClass, DeviceClassView, DeviceType, DeviceTypeView};
use crate::device_type::{handle_key, handle_keys, DeviceHandle, DeviceTypeHandle, DeviceTypeRegistry};
use crate::intern::InternedString;

verus! {

/// Ghost view of one device type's state: its configuration and its
/// current slots.
pub ghost struct TypeStateView {
    pub config: DeviceTypeView,
    pub devices: Seq<DeviceHandle>,
}

impl View for DeviceTypeHandle {
    type V = TypeStateView;

    open spec fn view(&self) -> TypeStateView {
        TypeStateView { config: self.config@, devices: self.devices@ }
    }
}

/// The views of a list of device-type states, in order.
pub open spec fn type_states_view(ts: Seq<DeviceTypeHandle>) -> Seq<TypeStateView> {
    ts.map_values(|t: DeviceTypeHandle| t@)
}

/// The types of `ts` a class takes, in order.
pub open spec fn taken_types(ts: Seq<TypeStateView>, cls: DeviceClassView) -> Seq<TypeStateView>
    decreases ts.len(),
{
    if ts.len() == 0 {
        Seq::empty()
    } else {
        (if class_accepts(cls, ts[0].config) {
            seq![ts[0]]
        } else {
            Seq::empty()
        }) + taken_types(ts.skip(1), cls)
    }
}

/// The types of `ts` a class leaves in the pool, in order.
pub open spec fn kept_types(ts: Seq<TypeStateView>, cls: DeviceClassView) -> Seq<TypeStateView>
    decreases ts.len(),
{
    if ts.len() == 0 {
        Seq::empty()
    } else {
        (if class_accepts(cls, ts[0].config) {
            Seq::empty()
        } else {
            seq![ts[0]]
        }) + kept_types(ts.skip(1), cls)
    }
}

/// All slots of a list of type states, flattened in order.
pub open spec fn flatten_slots(ts: Seq<TypeStateView>) -> Seq<DeviceHandle>
    decreases ts.len(),
{
    if ts.len() == 0 {
        Seq::empty()
    } else {
        ts[0].devices + flatten_slots(ts.skip(1))
    }
}

/// The handle is a current slot of one of the type states.
pub open spec fn slot_of_some_type(ts: Seq<TypeStateView>, h: DeviceHandle) -> bool {
    exists|j: int| 0 <= j < ts.len() && (#[trigger] ts[j]).devices.contains(h)
}

/// Every flattened slot belongs to one of the type states.
pub proof fn lemma_flatten_slots_member(ts: Seq<TypeStateView>)
    ensures
        forall|k: int|
            0 <= k < flatten_slots(ts).len() ==> slot_of_some_type(
                ts,
                #[trigger] flatten_slots(ts)[k],
            ),
    decreases ts.len(),
{
    if ts.len() > 0 {
        lemma_flatten_slots_member(ts.skip(1));
        let rest = flatten_slots(ts.skip(1));
        assert forall|k: int| 0 <= k < flatten_slots(ts).len() implies slot_of_some_type(
            ts,
            #[trigger] flatten_slots(ts)[k],
        ) by {
            let h = flatten_slots(ts)[k];
            if k < ts[0].devices.len() {
                assert(h == ts[0].devices[k]);
                assert(ts[0].devices.contains(h));
            } else {
                assert(h == rest[k - ts[0].devices.len()]);
                assert(slot_of_some_type(ts.skip(1), h));
                let j = choose|j: int|
                    0 <= j < ts.skip(1).len() && (#[trigger] ts.skip(1)[j]).devices.contains(h);
                assert(ts[j + 1].devices.contains(h));
            }
        }
    }
}

/// A consumable view over the device types: each `get_device_types` call
/// removes and returns the types one class accepts, so a type can be
/// taken at most once per pass.
pub struct Distributor {
    pub types: Vec<DeviceTypeHandle>,
}

impl Distributor {
    /// Takes and returns the types `class` accepts; the rest stay in the
    /// pool.  `subsystem_key` is the interned name of the subsystem
    /// field, used in mismatch reports.
    pub fn get_device_types(&mut self, class: &DeviceClass, subsystem_key: InternedString) -> (r:
        Vec<DeviceTypeHandle>)
        ensures
            type_states_view(r@) == taken_types(type_states_view(old(self).types@), class@),
            type_states_view(final(self).types@) == kept_types(
                type_states_view(old(self).types@),
                class@,
            ),
    {
        let ghost ts0 = type_states_view(self.types@);
        let mut taken: Vec<DeviceTypeHandle> = Vec::new();
        let mut kept: Vec<DeviceTypeHandle> = Vec::new();
        let n = self.types.len();
        proof {
            assert(type_states_view(self.types@).len() == self.types@.len());
            assert(ts0.skip(0) =~= ts0);
            assert(type_states_view(taken@) =~= Seq::<TypeStateView>::empty());
            assert(type_states_view(kept@) =~= Seq::<TypeStateView>::empty());
            assert(type_states_view(taken@) + taken_types(ts0.skip(0), class@) =~= taken_types(
                ts0,
                class@,
            ));
            assert(type_states_view(kept@) + kept_types(ts0.skip(0), class@) =~= kept_types(
                ts0,
                class@,
            ));
        }
        let mut i: usize = 0;
        let mut pool: Vec<DeviceTypeHandle> = Vec::new();
        core::mem::swap(&mut pool, &mut self.types);
        while i < n
            invariant
                i <= n,
                n == ts0.len(),
                pool@.len() == n - i,
                type_states_view(pool@) == ts0.skip(i as int),
                taken_types(ts0, class@) == type_states_view(taken@) + taken_types(
                    ts0.skip(i as int),
                    class@,
                ),
                kept_types(ts0, class@) == type_states_view(kept@) + kept_types(
                    ts0.skip(i as int),
                    class@,
                ),
            decreases n - i,
        {
            let t = pool.remove(0);
            proof {
                assert(type_states_view(pool@.insert(0, t)).len() == pool@.len() + 1);
                assert(type_states_view(pool@.insert(0, t))[0] == t@);
                assert(t@ == ts0.skip(i as int)[0]);
                assert(ts0.skip(i as int)[0] == ts0[i as int]);
                assert forall|j: int| 0 <= j < pool@.len() implies #[trigger] type_states_view(
                    pool@,
                )[j] == ts0.skip(i + 1)[j] by {
                    assert(type_states_view(pool@)[j] == pool@[j]@);
                    assert(type_states_view(pool@.insert(0, t))[j + 1] == pool@[j]@);
                    assert(ts0.skip(i as int)[j + 1] == ts0.skip(i + 1)[j]);
                }
                assert(type_states_view(pool@) =~= ts0.skip(i + 1));
            }
            let m = class.match_with(&t.config, subsystem_key);
            proof {
                assert(ts0.skip(i as int).skip(1) =~= ts0.skip(i + 1));
            }
            let ghost tk = taken@;
            let ghost kp = kept@;
            if m.is_match() {
                taken.push(t);
                proof {
                    assert(type_states_view(taken@) =~= type_states_view(tk).push(
                        ts0[i as int],
                    ));
                    assert(taken_types(ts0.skip(i as int), class@) =~= seq![ts0[i as int]]
                        + taken_types(ts0.skip(i + 1), class@));
                    assert(type_states_view(taken@) + taken_types(ts0.skip(i + 1), class@)
                        =~= type_states_view(tk) + taken_types(ts0.skip(i as int), class@));
                    assert(kept_types(ts0.skip(i as int), class@) =~= kept_types(
                        ts0.skip(i + 1),
                        class@,
                    ));
                }
            } else {
                kept.push(t);
                proof {
                    assert(type_states_view(kept@) =~= type_states_view(kp).push(ts0[i as int]));
                    assert(kept_types(ts0.skip(i as int), class@) =~= seq![ts0[i as int]]
                        + kept_types(ts0.skip(i + 1), class@));
                    assert(type_states_view(kept@) + kept_types(ts0.skip(i + 1), class@)
                        =~= type_states_view(kp) + kept_types(ts0.skip(i as int), class@));
                    assert(taken_types(ts0.skip(i as int), class@) =~= taken_types(
                        ts0.skip(i + 1),
                        class@,
                    ));
                }
            }
            i += 1;
        }
        proof {
            assert(ts0.skip(n as int) =~= Seq::<TypeStateView>::empty());
            assert(type_states_view(taken@) =~= taken_types(ts0, class@));
            assert(type_states_view(kept@) =~= kept_types(ts0, class@));
        }
        self.types = kept;
        taken
    }

    /// The residual pool: the types no class has taken.
    pub fn remaining(self) -> (r: Vec<DeviceTypeHandle>)
        ensures
            r@ == self.types@,
    {
        self.types
    }
}

impl DeviceTypeRegistry {
    /// A consumable distributor view over the current type states.
    pub fn distributor(&self) -> (r: Distributor)
        ensures
            type_states_view(r.types@) == type_states_view(self.types@),
    {
        let n = self.types.len();
        let mut types: Vec<DeviceTypeHandle> = Vec::new();
        proof {
            assert(type_states_view(self.types@).len() == self.types@.len());
        }
        for i in 0..n
            invariant
                n == self.types@.len(),
                types@.len() == i,
                forall|j: int|
                    0 <= j < i ==> #[trigger] type_states_view(types@)[j] == type_states_view(
                        self.types@,
                    )[j],
        {
            let src = &self.types[i];
            let t = DeviceTypeHandle {
                config: src.config.duplicate(),
                devices: crate::device_type::copy_handles_list(&src.devices),
            };
            let ghost prev = types@;
            types.push(t);
            proof {
                assert(types@ =~= prev.push(t));
                assert forall|j: int| 0 <= j < i + 1 implies #[trigger] type_states_view(
                    types@,
                )[j] == type_states_view(self.types@)[j] by {
                    assert(type_states_view(types@)[j] == types@[j]@);
                    if j < i {
                        assert(type_states_view(prev)[j] == prev[j]@);
                    } else {
                        assert(type_states_view(self.types@)[j] == self.types@[j]@);
                    }
                }
            }
        }
        proof {
            assert(type_states_view(types@) =~= type_states_view(self.types@));
        }
        Distributor { types }
    }
}

} // verus!

verus! {

/// Compares two snapshots element-wise by handle identity: the interned
/// device id and the slot index, exactly what the rendered ids spell out.
/// The other device fields take no part, so a device update that keeps
/// the id does not count as a snapshot change.
pub fn handles_equal(a: &Vec<DeviceHandle>, b: &Vec<DeviceHandle>) -> (r: bool)
    ensures
        r == (handle_keys(a@) == handle_keys(b@)),
{
    proof {
        assert(handle_keys(a@).len() == a@.len());
        assert(handle_keys(b@).len() == b@.len());
    }
    if a.len() != b.len() {
        assert(handle_keys(a@) != handle_keys(b@));
        return false;
    }
    let n = a.len();
    for i in 0..n
        invariant
            n == a@.len(),
            n == b@.len(),
            forall|j: int| 0 <= j < i ==> #[trigger] handle_keys(a@)[j] == handle_keys(b@)[j],
    {
        if a[i].device.id.key != b[i].device.id.key || a[i].index != b[i].index {
            proof {
                assert(handle_keys(a@)[i as int] == handle_key(a@[i as int]));
                assert(handle_keys(b@)[i as int] == handle_key(b@[i as int]));
                assert(handle_keys(a@) != handle_keys(b@));
            }
            return false;
        }
        proof {
            assert(handle_keys(a@)[i as int] == handle_key(a@[i as int]));
            assert(handle_keys(b@)[i as int] == handle_key(b@[i as int]));
        }
    }
    proof {
        assert(handle_keys(a@) =~= handle_keys(b@));
    }
    true
}

/// The per-class device plugin state: the class configuration, the
/// published snapshot, and the assigned device types behind it.
pub struct DevicePlugin {
    pub config: DeviceClass,
    pub devices: Vec<DeviceHandle>,
    pub device_types: Vec<DeviceTypeHandle>,
}

impl DevicePlugin {
    /// A fresh plugin with an empty snapshot.
    pub fn new(config: DeviceClass) -> (r: DevicePlugin)
        ensures
            r.config == config,
            r.devices@ == Seq::<DeviceHandle>::empty(),
            r.device_types@ == Seq::<DeviceTypeHandle>::empty(),
    {
        let r = DevicePlugin { config, devices: Vec::new(), device_types: Vec::new() };
        proof {
            assert(r.devices@ =~= Seq::<DeviceHandle>::empty());
            assert(r.device_types@ =~= Seq::<DeviceTypeHandle>::empty());
        }
        r
    }

    /// The class configuration.
    pub fn config(&self) -> (r: &DeviceClass)
        ensures
            r == &self.config,
    {
        &self.config
    }

    /// The class's configured subsystem.
    pub fn subsystem(&self) -> (r: InternedString)
        ensures
            r == self.config.subsystem,
    {
        self.config.subsystem
    }

    /// The class's configured name.
    pub fn name(&self) -> (r: InternedString)
        ensures
            r == self.config.name,
    {
        self.config.name
    }

    /// Takes the types this class accepts from the distributor and
    /// flattens their slots into the would-be snapshot.  When its handle
    /// list differs by id from the published one the snapshot and its
    /// backing types are replaced and `true` — the signal to notify the
    /// class's watchers — is returned; an id-equal list leaves the
    /// published snapshot untouched and notifies nobody.
    pub fn reconcile(&mut self, distributor: &mut Distributor, subsystem_key: InternedString) -> (r:
        bool)
        ensures
            final(self).config == old(self).config,
            type_states_view(final(distributor).types@) == kept_types(
                type_states_view(old(distributor).types@),
                old(self).config@,
            ),
            ({
                let taken = taken_types(
                    type_states_view(old(distributor).types@),
                    old(self).config@,
                );
                let snap = flatten_slots(taken);
                &&& r == (handle_keys(snap) != handle_keys(old(self).devices@))
                &&& handle_keys(final(self).devices@) == handle_keys(snap)
                &&& r ==> final(self).devices@ == snap && type_states_view(
                    final(self).device_types@,
                ) == taken
                &&& !r ==> final(self).devices@ == old(self).devices@
                    && final(self).device_types@ == old(self).device_types@
            }),
    {
        let taken = distributor.get_device_types(&self.config, subsystem_key);
        let ghost tv = type_states_view(taken@);
        let mut devices: Vec<DeviceHandle> = Vec::new();
        let n = taken.len();
        proof {
            assert(type_states_view(taken@).len() == taken@.len());
            assert(tv.skip(0) =~= tv);
            assert(devices@ =~= Seq::<DeviceHandle>::empty());
            assert(devices@ + flatten_slots(tv.skip(0)) =~= flatten_slots(tv));
        }
        let mut i: usize = 0;
        while i < n
            invariant
                i <= n,
                n == tv.len(),
                tv == type_states_view(taken@),
                n == taken@.len(),
                flatten_slots(tv) == devices@ + flatten_slots(tv.skip(i as int)),
            decreases n - i,
        {
            let ghost before = devices@;
            let mut slots = crate::device_type::copy_handles_list(&taken[i].devices);
            devices.append(&mut slots);
            proof {
                assert(tv.skip(i as int)[0] == tv[i as int]);
                assert(tv[i as int] == taken@[i as int]@);
                assert(tv.skip(i as int).skip(1) =~= tv.skip(i + 1));
                assert(devices@ =~= before + tv[i as int].devices);
                assert(flatten_slots(tv.skip(i as int)) =~= tv[i as int].devices + flatten_slots(
                    tv.skip(i + 1),
                ));
                assert(flatten_slots(tv) =~= devices@ + flatten_slots(tv.skip(i + 1)));
            }
            i += 1;
        }
        proof {
            assert(tv.skip(n as int) =~= Seq::<TypeStateView>::empty());
            assert(devices@ =~= flatten_slots(tv));
        }
        let changed = !handles_equal(&self.devices, &devices);
        if changed {
            self.devices = devices;
            self.device_types = taken;
        }
        changed
    }
}

} // verus!

verus! {

/// One device class with its plugin state.  The gRPC server serving the
/// plugin lives outside and is keyed by the class name.
pub struct DeviceClassHandle {
    pub plugin: DevicePlugin,
}

impl DeviceClassHandle {
    /// Reconciles this class's plugin against the distributor.
    pub fn reconcile(&mut self, distributor: &mut Distributor, subsystem_key: InternedString) -> (
        r: bool)
        ensures
            final(self).plugin.config == old(self).plugin.config,
            type_states_view(final(distributor).types@) == kept_types(
                type_states_view(old(distributor).types@),
                old(self).plugin.config@,
            ),
            ({
                let taken = taken_types(
                    type_states_view(old(distributor).types@),
                    old(self).plugin.config@,
                );
                let snap = flatten_slots(taken);
                &&& r == (handle_keys(snap) != handle_keys(old(self).plugin.devices@))
                &&& handle_keys(final(self).plugin.devices@) == handle_keys(snap)
                &&& r ==> final(self).plugin.devices@ == snap && type_states_view(
                    final(self).plugin.device_types@,
                ) == taken
                &&& !r ==> final(self).plugin.devices@ == old(self).plugin.devices@
                    && final(self).plugin.device_types@ == old(self).plugin.device_types@
            }),
    {
        self.plugin.reconcile(distributor, subsystem_key)
    }
}

/// The views of the classes' configurations, in class order.
pub open spec fn class_views(cs: Seq<DeviceClassHandle>) -> Seq<DeviceClassView> {
    cs.map_values(|c: DeviceClassHandle| c.plugin.config@)
}

/// The pool after the first `i` classes took their types.
pub open spec fn kept_after(
    ts: Seq<TypeStateView>,
    cs: Seq<DeviceClassView>,
    i: int,
) -> Seq<TypeStateView>
    decreases i,
{
    if i <= 0 {
        ts
    } else {
        kept_types(kept_after(ts, cs, i - 1), cs[i - 1])
    }
}

/// The types class `i` is assigned under first-match distribution.
pub open spec fn assigned_types(
    ts: Seq<TypeStateView>,
    cs: Seq<DeviceClassView>,
    i: int,
) -> Seq<TypeStateView> {
    taken_types(kept_after(ts, cs, i), cs[i])
}

/// Class `i` is the first class whose selector accepts the type.
pub open spec fn first_match(cs: Seq<DeviceClassView>, ty: DeviceTypeView, i: int) -> bool {
    &&& 0 <= i < cs.len()
    &&& class_accepts(cs[i], ty)
    &&& forall|k: int| 0 <= k < i ==> !class_accepts(#[trigger] cs[k], ty)
}

/// Every taken type is accepted and came from the pool.
proof fn lemma_taken_member(ts: Seq<TypeStateView>, cls: DeviceClassView)
    ensures
        forall|k: int|
            0 <= k < taken_types(ts, cls).len() ==> class_accepts(
                cls,
                (#[trigger] taken_types(ts, cls)[k]).config,
            ) && ts.contains(taken_types(ts, cls)[k]),
    decreases ts.len(),
{
    if ts.len() > 0 {
        lemma_taken_member(ts.skip(1), cls);
        let r = taken_types(ts, cls);
        let hd: Seq<TypeStateView> = if class_accepts(cls, ts[0].config) {
            seq![ts[0]]
        } else {
            Seq::empty()
        };
        assert forall|k: int| 0 <= k < r.len() implies class_accepts(
            cls,
            (#[trigger] r[k]).config,
        ) && ts.contains(r[k]) by {
            if k < hd.len() {
                assert(r[k] == ts[0]);
            } else {
                assert(r[k] == taken_types(ts.skip(1), cls)[k - hd.len()]);
                let x = taken_types(ts.skip(1), cls)[k - hd.len()];
                let j = choose|j: int| 0 <= j < ts.skip(1).len() && ts.skip(1)[j] == x;
                assert(ts[j + 1] == x);
            }
        }
    }
}

/// Every kept type is rejected and came from the pool.
proof fn lemma_kept_member(ts: Seq<TypeStateView>, cls: DeviceClassView)
    ensures
        forall|k: int|
            0 <= k < kept_types(ts, cls).len() ==> !class_accepts(
                cls,
                (#[trigger] kept_types(ts, cls)[k]).config,
            ) && ts.contains(kept_types(ts, cls)[k]),
    decreases ts.len(),
{
    if ts.len() > 0 {
        lemma_kept_member(ts.skip(1), cls);
        let r = kept_types(ts, cls);
        let hd: Seq<TypeStateView> = if class_accepts(cls, ts[0].config) {
            Seq::empty()
        } else {
            seq![ts[0]]
        };
        assert forall|k: int| 0 <= k < r.len() implies !class_accepts(
            cls,
            (#[trigger] r[k]).config,
        ) && ts.contains(r[k]) by {
            if k < hd.len() {
                assert(r[k] == ts[0]);
            } else {
                assert(r[k] == kept_types(ts.skip(1), cls)[k - hd.len()]);
                let x = kept_types(ts.skip(1), cls)[k - hd.len()];
                let j = choose|j: int| 0 <= j < ts.skip(1).len() && ts.skip(1)[j] == x;
                assert(ts[j + 1] == x);
            }
        }
    }
}

/// No class before `i` accepts anything still in the pool after the
/// first `i` classes took their types.
proof fn lemma_kept_after_rejected(ts: Seq<TypeStateView>, cs: Seq<DeviceClassView>, i: int)
    requires
        0 <= i,
    ensures
        forall|k: int, c: int|
            0 <= k < kept_after(ts, cs, i).len() && 0 <= c < i ==> !class_accepts(
                #[trigger] cs[c],
                (#[trigger] kept_after(ts, cs, i)[k]).config,
            ),
    decreases i,
{
    if i > 0 {
        lemma_kept_after_rejected(ts, cs, i - 1);
        lemma_kept_member(kept_after(ts, cs, i - 1), cs[i - 1]);
        let prev = kept_after(ts, cs, i - 1);
        let cur = kept_after(ts, cs, i);
        assert forall|k: int, c: int| 0 <= k < cur.len() && 0 <= c < i implies !class_accepts(
            #[trigger] cs[c],
            (#[trigger] cur[k]).config,
        ) by {
            assert(prev.contains(cur[k]));
            let j = choose|j: int| 0 <= j < prev.len() && prev[j] == cur[k];
            if c < i - 1 {
                assert(!class_accepts(cs[c], prev[j].config));
            } else {
                assert(!class_accepts(cs[i - 1], cur[k].config));
            }
        }
    }
}

/// First-match distribution: every type assigned to class `i` has class
/// `i` as the first class accepting it.
pub proof fn lemma_assigned_first_match(ts: Seq<TypeStateView>, cs: Seq<DeviceClassView>, i: int)
    requires
        0 <= i < cs.len(),
    ensures
        forall|k: int|
            0 <= k < assigned_types(ts, cs, i).len() ==> first_match(
                cs,
                (#[trigger] assigned_types(ts, cs, i)[k]).config,
                i,
            ),
{
    lemma_kept_after_rejected(ts, cs, i);
    lemma_taken_member(kept_after(ts, cs, i), cs[i]);
    let pool = kept_after(ts, cs, i);
    let asg = assigned_types(ts, cs, i);
    assert forall|k: int| 0 <= k < asg.len() implies first_match(
        cs,
        (#[trigger] asg[k]).config,
        i,
    ) by {
        assert(pool.contains(asg[k]));
        let j = choose|j: int| 0 <= j < pool.len() && pool[j] == asg[k];
        assert forall|c: int| 0 <= c < i implies !class_accepts(#[trigger] cs[c], asg[k].config) by {
            assert(!class_accepts(cs[c], pool[j].config));
        }
    }
}

/// Across all classes, no two classes share an assigned device type: a
/// type assigned to class `i` and a type assigned to class `j` with the
/// same configuration force `i == j`.
pub proof fn lemma_distribution_exclusive(
    ts: Seq<TypeStateView>,
    cs: Seq<DeviceClassView>,
    i: int,
    j: int,
    ki: int,
    kj: int,
)
    requires
        0 <= i < cs.len(),
        0 <= j < cs.len(),
        0 <= ki < assigned_types(ts, cs, i).len(),
        0 <= kj < assigned_types(ts, cs, j).len(),
        assigned_types(ts, cs, i)[ki].config == assigned_types(ts, cs, j)[kj].config,
    ensures
        i == j,
{
    lemma_assigned_first_match(ts, cs, i);
    lemma_assigned_first_match(ts, cs, j);
    let ty = assigned_types(ts, cs, i)[ki].config;
    assert(first_match(cs, ty, i));
    assert(first_match(cs, ty, j));
    if i < j {
        assert(!class_accepts(cs[i], ty));
    }
    if j < i {
        assert(!class_accepts(cs[j], ty));
    }
}

/// For every class, the snapshot's handles are slots of the class's
/// assigned device types: what a class publishes it owes to the types
/// the distributor handed it.
pub proof fn lemma_snapshot_covered(ts: Seq<TypeStateView>, cs: Seq<DeviceClassView>, i: int)
    ensures
        forall|k: int|
            0 <= k < flatten_slots(assigned_types(ts, cs, i)).len() ==> slot_of_some_type(
                assigned_types(ts, cs, i),
                #[trigger] flatten_slots(assigned_types(ts, cs, i))[k],
            ),
{
    lemma_flatten_slots_member(assigned_types(ts, cs, i));
}

/// The registry of configured device classes, in configuration order.
pub struct DeviceClassRegistry {
    pub classes: Vec<DeviceClassHandle>,
}

impl DeviceClassRegistry {
    /// Builds a registry from the configured classes, each with an empty
    /// snapshot.
    pub fn new(configs: &Vec<DeviceClass>) -> (r: DeviceClassRegistry)
        ensures
            r.classes@.len() == configs@.len(),
            forall|i: int|
                0 <= i < configs@.len() ==> (#[trigger] r.classes@[i]).plugin.config@
                    == configs@[i]@ && r.classes@[i].plugin.devices@ == Seq::<
                    DeviceHandle,
                >::empty() && r.classes@[i].plugin.device_types@ == Seq::<
                    DeviceTypeHandle,
                >::empty(),
    {
        let n = configs.len();
        let mut classes: Vec<DeviceClassHandle> = Vec::new();
        for i in 0..n
            invariant
                n == configs@.len(),
                classes@.len() == i,
                forall|j: int|
                    0 <= j < i ==> (#[trigger] classes@[j]).plugin.config@ == configs@[j]@
                        && classes@[j].plugin.devices@ == Seq::<DeviceHandle>::empty()
                        && classes@[j].plugin.device_types@ == Seq::<DeviceTypeHandle>::empty(),
        {
            classes.push(DeviceClassHandle { plugin: DevicePlugin::new(configs[i].duplicate()) });
        }
        DeviceClassRegistry { classes }
    }

    /// Reconciles every class against the distributor in class order:
    /// class `i` is offered exactly the types first-matched to it, its
    /// snapshot carries their flattened slots' ids, and the result says
    /// for each class whether its snapshot changed by id — only then was
    /// the snapshot replaced.
    pub fn reconcile(&mut self, distributor: &mut Distributor, subsystem_key: InternedString) -> (
        changed: Vec<bool>)
        ensures
            final(self).classes@.len() == old(self).classes@.len(),
            changed@.len() == old(self).classes@.len(),
            class_views(final(self).classes@) == class_views(old(self).classes@),
            forall|i: int|
                0 <= i < final(self).classes@.len() ==> {
                    let ts0 = type_states_view(old(distributor).types@);
                    let cs = class_views(old(self).classes@);
                    let snap = flatten_slots(assigned_types(ts0, cs, i));
                    &&& (#[trigger] final(self).classes@[i]).plugin.config == old(
                        self,
                    ).classes@[i].plugin.config
                    &&& changed@[i] == (handle_keys(snap) != handle_keys(
                        old(self).classes@[i].plugin.devices@,
                    ))
                    &&& handle_keys(final(self).classes@[i].plugin.devices@) == handle_keys(snap)
                    &&& changed@[i] ==> final(self).classes@[i].plugin.devices@ == snap
                        && type_states_view(final(self).classes@[i].plugin.device_types@)
                        == assigned_types(ts0, cs, i)
                    &&& !changed@[i] ==> final(self).classes@[i].plugin.devices@ == old(
                        self,
                    ).classes@[i].plugin.devices@ && final(self).classes@[i].plugin.device_types@
                        == old(self).classes@[i].plugin.device_types@
                },
            type_states_view(final(distributor).types@) == kept_after(
                type_states_view(old(distributor).types@),
                class_views(old(self).classes@),
                old(self).classes@.len() as int,
            ),
    {
        let ghost ts0 = type_states_view(distributor.types@);
        let ghost cs = class_views(self.classes@);
        let ghost c0 = self.classes@;
        let n = self.classes.len();
        let mut changed: Vec<bool> = Vec::new();
        proof {
            assert(class_views(self.classes@).len() == self.classes@.len());
        }
        let mut i: usize = 0;
        while i < n
            invariant
                i <= n,
                n == self.classes@.len(),
                n == c0.len(),
                cs == class_views(c0),
                cs.len() == n,
                changed@.len() == i,
                type_states_view(distributor.types@) == kept_after(ts0, cs, i as int),
                forall|j: int| i <= j < n ==> (#[trigger] self.classes@[j]) == c0[j],
                forall|j: int|
                    0 <= j < i ==> {
                        let snap = flatten_slots(assigned_types(ts0, cs, j));
                        &&& (#[trigger] self.classes@[j]).plugin.config == c0[j].plugin.config
                        &&& changed@[j] == (handle_keys(snap) != handle_keys(
                            c0[j].plugin.devices@,
                        ))
                        &&& handle_keys(self.classes@[j].plugin.devices@) == handle_keys(snap)
                        &&& changed@[j] ==> self.classes@[j].plugin.devices@ == snap
                            && type_states_view(self.classes@[j].plugin.device_types@)
                            == assigned_types(ts0, cs, j)
                        &&& !changed@[j] ==> self.classes@[j].plugin.devices@
                            == c0[j].plugin.devices@ && self.classes@[j].plugin.device_types@
                            == c0[j].plugin.device_types@
                    },
            decreases n - i,
        {
            proof {
                assert(cs[i as int] == c0[i as int].plugin.config@);
            }
            let h = &mut self.classes[i];
            let c = h.plugin.reconcile(distributor, subsystem_key);
            changed.push(c);
            proof {
                assert(kept_after(ts0, cs, i + 1) == kept_types(
                    kept_after(ts0, cs, i as int),
                    cs[i as int],
                ));
            }
            i += 1;
            proof {
                assert forall|j: int|
                    0 <= j < i implies {
                    let snap = flatten_slots(assigned_types(ts0, cs, j));
                    &&& (#[trigger] self.classes@[j]).plugin.config == c0[j].plugin.config
                    &&& changed@[j] == (handle_keys(snap) != handle_keys(c0[j].plugin.devices@))
                    &&& handle_keys(self.classes@[j].plugin.devices@) == handle_keys(snap)
                    &&& changed@[j] ==> self.classes@[j].plugin.devices@ == snap
                        && type_states_view(self.classes@[j].plugin.device_types@)
                        == assigned_types(ts0, cs, j)
                    &&& !changed@[j] ==> self.classes@[j].plugin.devices@
                        == c0[j].plugin.devices@ && self.classes@[j].plugin.device_types@
                        == c0[j].plugin.device_types@
                } by {}
            }
        }
        proof {
            assert(class_views(self.classes@) =~= class_views(c0));
        }
        changed
    }
}

} // verus!

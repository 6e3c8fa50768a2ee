//! The reconciliation engine: the event-loop state machine that owns the
//! three registries and drives convergence of the plugin fleet.
//!
//! The surrounding program selects the next event from the configuration
//! watcher, the signal stream and the kernel monitor, hands it to the
//! engine, and performs the returned action: `Restart` re-enumerates
//! devices and rebuilds the registries, `Reconcile` recomputes slots and
//! snapshots, `Shutdown` stops the class servers.  The effect of every
//! event is in place before the next event is consumed.

use vstd::prelude::*;

use crate::config::Config;
use crate::device::{UdevDevice, UdevDeviceError, UdevEvent};
use crate::device_class::{
    assigned_types, class_views, flatten_slots, kept_after, slot_of_some_type, taken_types,
    type_states_view, DeviceClassRegistry, Distributor, TypeStateView,
};
use crate::device_registry::{
    reg_wf, spec_apply, spec_scan, DeviceRegistry,
};
use crate::device_type::{
    dev_ref, handle_keys, slot_from, type_slots, DeviceHandle, DeviceTypeHandle,
    DeviceTypeRegistry,
};
use crate::intern::{Interner, InternedString};
use crate::parse::ConfigError;
use crate::signals::Signal;

verus! {

/// What the loop does next.
#[derive(Clone, Copy, Debug, PartialEq, Eq, Structural)]
pub enum Action {
    /// Wait for the next event.
    Idle,
    /// Re-enumerate devices and rebuild the registries.
    Restart,
    /// Recompute slots and snapshots.
    Reconcile,
    /// Stop all class servers and exit.
    Shutdown,
}

/// An error that ends the loop.
#[derive(Clone, Debug, PartialEq)]
pub enum FatalError {
    /// The configuration watcher closed its stream.
    ConfigWatcherClosed,
    /// A configuration reload failed.
    ConfigRead(ConfigError),
    /// The signal stream closed.
    SignalStreamClosed,
    /// The kernel monitor closed its stream.
    KernelStreamClosed,
    /// The kernel monitor reported an error.
    KernelStream(UdevDeviceError),
}

/// The type states a reconcile pass computes: each configured type with
/// the slots the current device table yields for it.
pub open spec fn reconciled_states(
    types: Seq<DeviceTypeHandle>,
    devs: Seq<UdevDevice>,
) -> Seq<TypeStateView> {
    Seq::new(
        types.len(),
        |j: int|
            TypeStateView {
                config: types[j].config@,
                devices: type_slots(types[j].config, devs),
            },
    )
}

/// The engine's registries are reconciled: every class's snapshot
/// carries, id for id, the flattened slots of the types first-matched to
/// it, computed from the current configuration and device table.
/// Snapshot identity is the handle id — the interned device id and slot
/// index — so a device update that keeps every id keeps the snapshot.
pub open spec fn snapshots_current(e: Engine) -> bool {
    forall|i: int|
        0 <= i < e.device_classes.classes@.len() ==> handle_keys(
            (#[trigger] e.device_classes.classes@[i]).plugin.devices@,
        ) == handle_keys(
            flatten_slots(
                assigned_types(
                    reconciled_states(e.device_types.types@, e.devices@),
                    class_views(e.device_classes.classes@),
                    i,
                ),
            ),
        )
}

/// The reconciliation engine's state: the configuration and the three
/// registries.
pub struct Engine {
    /// The configuration currently in force.
    pub config: Config,
    /// The live kernel devices.
    pub devices: DeviceRegistry,
    /// The configured device types with their slots.
    pub device_types: DeviceTypeRegistry,
    /// The configured device classes with their snapshots.
    pub device_classes: DeviceClassRegistry,
    /// The interned name of the subsystem field, for mismatch reports.
    pub subsystem_key: InternedString,
}

impl Engine {
    /// All configured access policies are well formed.
    pub open spec fn config_wf(c: Config) -> bool {
        forall|i: int|
            0 <= i < c.device_types@.len() ==> (#[trigger] c.device_types@[i])@.access.wf()
    }

    pub open spec fn wf(&self) -> bool {
        &&& self.device_types.wf()
        &&& Engine::config_wf(self.config)
    }

    /// A fresh engine holding the first configuration, with empty
    /// registries; the first `Restart` populates them.
    pub fn new(config: Config, im: &mut Interner) -> (r: Engine)
        requires
            old(im).wf(),
            Engine::config_wf(config),
        ensures
            final(im).wf(),
            crate::intern::interner_extends(final(im)@, old(im)@),
            r.wf(),
            r.config == config,
            r.devices@ == Seq::<UdevDevice>::empty(),
            r.device_types.types@ == Seq::<DeviceTypeHandle>::empty(),
            r.device_classes.classes@.len() == 0,
    {
        let subsystem_key = im.get_or_intern(String::from_str("subsystem"));
        let r = Engine {
            config,
            devices: DeviceRegistry::new(),
            device_types: DeviceTypeRegistry { types: Vec::new() },
            device_classes: DeviceClassRegistry { classes: Vec::new() },
            subsystem_key,
        };
        proof {
            assert(r.device_types.types@ =~= Seq::<DeviceTypeHandle>::empty());
        }
        r
    }

    /// Maps a configuration event to the next action: a fresh
    /// configuration is stored and triggers a restart; an error or a
    /// closed watcher is fatal.
    pub fn on_config(&mut self, event: Option<Result<Config, ConfigError>>) -> (r: Result<
        Action,
        FatalError,
    >)
        requires
            event matches Some(c) && c matches Ok(cfg) ==> Engine::config_wf(cfg),
    ensures
            match event {
                None => r == Err::<Action, FatalError>(FatalError::ConfigWatcherClosed) && *final(self) == *old(self),
                Some(c) => match c {
                    Err(e) => r == Err::<Action, FatalError>(FatalError::ConfigRead(e)) && *final(self) == *old(self),
                    Ok(cfg) => r == Ok::<Action, FatalError>(Action::Restart) && final(self).config == cfg && final(self).devices == old(self).devices && final(self).device_types == old(self).device_types && final(self).device_classes == old(
                        self,
                    ).device_classes && final(self).subsystem_key == old(self).subsystem_key,
                },
            },
    {
        match event {
            None => Err(FatalError::ConfigWatcherClosed),
            Some(Err(e)) => Err(FatalError::ConfigRead(e)),
            Some(Ok(cfg)) => {
                self.config = cfg;
                Ok(Action::Restart)
            },
        }
    }

    /// Maps a signal to the next action: `SIGHUP` restarts, the
    /// terminating signals shut down, a closed stream is fatal.
    pub fn on_signal(&mut self, signal: Option<Signal>) -> (r: Result<Action, FatalError>)
        ensures
            *final(self) == *old(self),
            match signal {
                None => r == Err::<Action, FatalError>(FatalError::SignalStreamClosed),
                Some(s) => if s.spec_is_reload() {
                    r == Ok::<Action, FatalError>(Action::Restart)
                } else {
                    r == Ok::<Action, FatalError>(Action::Shutdown)
                },
            },
    {
        match signal {
            None => Err(FatalError::SignalStreamClosed),
            Some(s) => {
                if s.is_reload() {
                    Ok(Action::Restart)
                } else {
                    Ok(Action::Shutdown)
                }
            },
        }
    }

    /// Applies a kernel event to the device table and asks for a
    /// reconcile; an error or a closed monitor is fatal.
    pub fn on_udev(&mut self, event: Option<Result<UdevEvent, UdevDeviceError>>, im: &Interner) -> (
        r: Result<Action, FatalError>)
        requires
            old(self).wf(),
            reg_wf(old(self).devices@, im@),
            event matches Some(ev) && ev matches Ok(e) ==> e.spec_device().syspath.key
                < im@.len(),
        ensures
            final(self).wf(),
            reg_wf(final(self).devices@, im@),
            final(self).config == old(self).config,
            final(self).device_types == old(self).device_types,
            final(self).device_classes == old(self).device_classes,
            final(self).subsystem_key == old(self).subsystem_key,
            match event {
                None => r == Err::<Action, FatalError>(FatalError::KernelStreamClosed) && final(self).devices == old(self).devices,
                Some(ev) => match ev {
                    Err(e) => r == Err::<Action, FatalError>(FatalError::KernelStream(e))
                        && final(self).devices == old(self).devices,
                    Ok(ev) => r == Ok::<Action, FatalError>(Action::Reconcile) && final(self).devices@ == spec_apply(old(self).devices@, ev, im@),
                },
            },
    {
        match event {
            None => Err(FatalError::KernelStreamClosed),
            Some(Err(e)) => Err(FatalError::KernelStream(e)),
            Some(Ok(ev)) => {
                self.devices.update(ev, im);
                Ok(Action::Reconcile)
            },
        }
    }

    /// Restart: store the fresh enumeration and rebuild the type and
    /// class registries from the configuration in force.  The caller
    /// stops the servers of classes that are gone and starts servers for
    /// the new classes, then reconciles.
    pub fn restart(&mut self, scanned: Vec<UdevDevice>, im: &Interner)
        requires
            old(self).wf(),
            forall|i: int|
                0 <= i < scanned@.len() ==> (#[trigger] scanned@[i]).syspath.key < im@.len(),
        ensures
            final(self).wf(),
            reg_wf(final(self).devices@, im@),
            final(self).config == old(self).config,
            final(self).subsystem_key == old(self).subsystem_key,
            final(self).devices@ == spec_scan(scanned@, im@),
            final(self).device_types.types@.len() == old(self).config.device_types@.len(),
            forall|i: int|
                0 <= i < final(self).device_types.types@.len() ==> (#[trigger] final(self).device_types.types@[i]).config@ == old(self).config.device_types@[i]@ && final(self).device_types.types@[i].devices@ == Seq::<DeviceHandle>::empty(),
            final(self).device_classes.classes@.len() == old(self).config.device_classes@.len(),
            forall|i: int|
                0 <= i < final(self).device_classes.classes@.len() ==> (#[trigger] final(self).device_classes.classes@[i]).plugin.config@ == old(
                    self,
                ).config.device_classes@[i]@ && final(self).device_classes.classes@[i].plugin.devices@ == Seq::<DeviceHandle>::empty(),
    {
        self.devices.scan_devices(scanned, im);
        self.device_types = DeviceTypeRegistry::new(&self.config.device_types);
        self.device_classes = DeviceClassRegistry::new(&self.config.device_classes);
    }

    /// Reconcile: recompute every type's slots from the device table,
    /// distribute the types over the classes first-match-wins, and
    /// replace each class's snapshot whose handle ids changed.  Returns,
    /// per class in order, whether its snapshot changed — the classes
    /// whose watchers must be notified — and the number of device types
    /// no class took.
    ///
    /// Reconciling is idempotent on fixed input: if the snapshots
    /// already match the configuration and device table, nothing
    /// changes and no notification is asked for.
    pub fn reconcile(&mut self) -> (r: (Vec<bool>, usize))
        requires
            old(self).wf(),
        ensures
            final(self).wf(),
            final(self).config == old(self).config,
            final(self).subsystem_key == old(self).subsystem_key,
            final(self).devices == old(self).devices,
            class_views(final(self).device_classes.classes@) == class_views(
                old(self).device_classes.classes@,
            ),
            final(self).device_classes.classes@.len() == old(self).device_classes.classes@.len(),
            final(self).device_types.types@.len() == old(self).device_types.types@.len(),
            forall|i: int|
                0 <= i < final(self).device_types.types@.len() ==> (
                #[trigger] final(self).device_types.types@[i]).config == old(
                    self,
                ).device_types.types@[i].config
                    && final(self).device_types.types@[i].devices@ == type_slots(
                    old(self).device_types.types@[i].config,
                    final(self).devices@,
                ),
            snapshots_current(*final(self)),
            r.0@.len() == final(self).device_classes.classes@.len(),
            forall|i: int|
                0 <= i < r.0@.len() ==> r.0@[i] == (handle_keys(
                    (#[trigger] final(self).device_classes.classes@[i]).plugin.devices@,
                ) != handle_keys(old(self).device_classes.classes@[i].plugin.devices@)),
            forall|i: int|
                0 <= i < r.0@.len() && !r.0@[i] ==> (
                #[trigger] final(self).device_classes.classes@[i]).plugin.devices@ == old(
                    self,
                ).device_classes.classes@[i].plugin.devices@,
            snapshots_current(*old(self)) && old(self).devices@ == final(self).devices@ ==> forall|
                i: int,
            |
                0 <= i < r.0@.len() ==> !(#[trigger] r.0@[i]),
            r.1 == kept_after(
                reconciled_states(final(self).device_types.types@, final(self).devices@),
                class_views(final(self).device_classes.classes@),
                final(self).device_classes.classes@.len() as int,
            ).len(),
    {
        let ghost types0 = self.device_types.types@;
        self.device_types.reconcile(&self.devices, self.subsystem_key);
        proof {
            assert(type_states_view(self.device_types.types@).len()
                == self.device_types.types@.len());
            assert(reconciled_states(types0, self.devices@).len() == types0.len());
            assert forall|j: int| 0 <= j < types0.len() implies #[trigger] type_states_view(
                self.device_types.types@,
            )[j] == reconciled_states(types0, self.devices@)[j] by {
                assert(type_states_view(self.device_types.types@)[j]
                    == self.device_types.types@[j]@);
            }
            assert(type_states_view(self.device_types.types@) =~= reconciled_states(
                types0,
                self.devices@,
            ));
        }
        let mut distributor = self.device_types.distributor();
        let ghost dist0 = type_states_view(distributor.types@);
        let ghost classes0 = self.device_classes.classes@;
        let changed = self.device_classes.reconcile(&mut distributor, self.subsystem_key);
        let remaining = distributor.remaining();
        proof {
            let tsr = reconciled_states(self.device_types.types@, self.devices@);
            assert(reconciled_states(types0, self.devices@) =~= tsr);
            if snapshots_current(*old(self)) && old(self).devices@ == self.devices@ {
                assert forall|i: int| 0 <= i < changed@.len() implies !(#[trigger] changed@[i]) by {
                    let cs = class_views(classes0);
                    assert(dist0 == reconciled_states(types0, self.devices@));
                    assert(handle_keys(classes0[i].plugin.devices@) == handle_keys(
                        flatten_slots(
                            assigned_types(
                                reconciled_states(
                                    old(self).device_types.types@,
                                    old(self).devices@,
                                ),
                                class_views(old(self).device_classes.classes@),
                                i,
                            ),
                        ),
                    ));
                    assert(changed@[i] == (handle_keys(
                        flatten_slots(assigned_types(dist0, cs, i)),
                    ) != handle_keys(classes0[i].plugin.devices@)));
                }
            }
        }
        (changed, remaining.len())
    }
}

/// One reconcile tick after a kernel `Remove` event purges the removed
/// device from every snapshot: no slot published by any class stems from
/// the removed sysfs path.
pub proof fn lemma_removed_device_absent(
    types: Seq<DeviceTypeHandle>,
    devs: Seq<UdevDevice>,
    m: Seq<Seq<char>>,
    cs: Seq<crate::config::DeviceClassView>,
    p: InternedString,
    i: int,
    k: int,
)
    requires
        forall|j: int| 0 <= j < types.len() ==> (#[trigger] types[j]).config@.access.wf(),
        reg_wf(devs, m),
        0 <= k < flatten_slots(
            assigned_types(
                reconciled_states(types, crate::device_registry::spec_reg_remove(devs, p)),
                cs,
                i,
            ),
        ).len(),
    ensures
        flatten_slots(
            assigned_types(
                reconciled_states(types, crate::device_registry::spec_reg_remove(devs, p)),
                cs,
                i,
            ),
        )[k].device.syspath != p,
{
    let devs2 = crate::device_registry::spec_reg_remove(devs, p);
    let ts = reconciled_states(types, devs2);
    let asg = assigned_types(ts, cs, i);
    crate::device_registry::lemma_reg_remove_sorted(devs, p, m);
    crate::device_class::lemma_flatten_slots_member(asg);
    let h = flatten_slots(asg)[k];
    assert(slot_of_some_type(asg, h));
    let j = choose|j: int| 0 <= j < asg.len() && (#[trigger] asg[j]).devices.contains(h);
    lemma_assigned_in_pool(ts, cs, i);
    assert(ts.contains(asg[j]));
    let t = choose|t: int| 0 <= t < ts.len() && ts[t] == asg[j];
    assert(ts[t].devices == type_slots(types[t].config, devs2));
    crate::device_type::lemma_type_slots_from_devices(types[t].config, devs2);
    let x = choose|x: int| 0 <= x < ts[t].devices.len() && ts[t].devices[x] == h;
    assert(slot_from(types[t].config, devs2, h));
    let d = choose|d: int|
        0 <= d < devs2.len() && h.device == dev_ref(#[trigger] devs2[d])
            && crate::config::type_matches(types[t].config@, devs2[d]);
    assert(devs2[d].syspath != p);
}

/// Every assigned type state came from the pool.
proof fn lemma_assigned_in_pool(
    ts: Seq<TypeStateView>,
    cs: Seq<crate::config::DeviceClassView>,
    i: int,
)
    ensures
        forall|j: int|
            0 <= j < assigned_types(ts, cs, i).len() ==> ts.contains(
                #[trigger] assigned_types(ts, cs, i)[j],
            ),
{
    lemma_kept_after_in_pool(ts, cs, i);
    lemma_taken_in_pool(kept_after(ts, cs, i), cs[i]);
    let pool = kept_after(ts, cs, i);
    assert forall|j: int| 0 <= j < assigned_types(ts, cs, i).len() implies ts.contains(
        #[trigger] assigned_types(ts, cs, i)[j],
    ) by {
        assert(pool.contains(assigned_types(ts, cs, i)[j]));
        let x = choose|x: int| 0 <= x < pool.len() && pool[x] == assigned_types(ts, cs, i)[j];
    }
}

/// Every taken type came from the pool.
proof fn lemma_taken_in_pool(ts: Seq<TypeStateView>, cls: crate::config::DeviceClassView)
    ensures
        forall|k: int|
            0 <= k < taken_types(ts, cls).len() ==> ts.contains(#[trigger] taken_types(ts, cls)[k]),
    decreases ts.len(),
{
    if ts.len() > 0 {
        lemma_taken_in_pool(ts.skip(1), cls);
        let r = taken_types(ts, cls);
        let hd: Seq<TypeStateView> = if crate::config::class_accepts(cls, ts[0].config) {
            seq![ts[0]]
        } else {
            Seq::empty()
        };
        assert forall|k: int| 0 <= k < r.len() implies ts.contains(#[trigger] r[k]) by {
            if k < hd.len() {
                assert(r[k] == ts[0]);
            } else {
                let x = r[k];
                assert(x == taken_types(ts.skip(1), cls)[k - hd.len()]);
                let j = choose|j: int| 0 <= j < ts.skip(1).len() && ts.skip(1)[j] == x;
                assert(ts[j + 1] == x);
            }
        }
    }
}

/// The pool after `i` classes holds only types of the original pool.
proof fn lemma_kept_after_in_pool(
    ts: Seq<TypeStateView>,
    cs: Seq<crate::config::DeviceClassView>,
    i: int,
)
    ensures
        forall|k: int|
            0 <= k < kept_after(ts, cs, i).len() ==> ts.contains(#[trigger] kept_after(ts, cs, i)[k]),
    decreases (if i >= 0 { i } else { 0 }),
{
    if i > 0 {
        lemma_kept_after_in_pool(ts, cs, i - 1);
        lemma_kept_in_pool(kept_after(ts, cs, i - 1), cs[i - 1]);
        let prev = kept_after(ts, cs, i - 1);
        assert forall|k: int| 0 <= k < kept_after(ts, cs, i).len() implies ts.contains(
            #[trigger] kept_after(ts, cs, i)[k],
        ) by {
            assert(prev.contains(kept_after(ts, cs, i)[k]));
            let x = choose|x: int| 0 <= x < prev.len() && prev[x] == kept_after(ts, cs, i)[k];
        }
    } else {
        assert forall|k: int| 0 <= k < kept_after(ts, cs, i).len() implies ts.contains(
            #[trigger] kept_after(ts, cs, i)[k],
        ) by {
            assert(kept_after(ts, cs, i) == ts);
        }
    }
}

/// Every kept type came from the pool.
proof fn lemma_kept_in_pool(ts: Seq<TypeStateView>, cls: crate::config::DeviceClassView)
    ensures
        forall|k: int|
            0 <= k < crate::device_class::kept_types(ts, cls).len() ==> ts.contains(
                #[trigger] crate::device_class::kept_types(ts, cls)[k],
            ),
    decreases ts.len(),
{
    let kt = crate::device_class::kept_types(ts, cls);
    if ts.len() > 0 {
        lemma_kept_in_pool(ts.skip(1), cls);
        let hd: Seq<TypeStateView> = if crate::config::class_accepts(cls, ts[0].config) {
            Seq::empty()
        } else {
            seq![ts[0]]
        };
        assert forall|k: int| 0 <= k < kt.len() implies ts.contains(#[trigger] kt[k]) by {
            if k < hd.len() {
                assert(kt[k] == ts[0]);
            } else {
                let x = kt[k];
                assert(x == crate::device_class::kept_types(ts.skip(1), cls)[k - hd.len()]);
                let j = choose|j: int| 0 <= j < ts.skip(1).len() && ts.skip(1)[j] == x;
                assert(ts[j + 1] == x);
            }
        }
    }
}

} // verus!

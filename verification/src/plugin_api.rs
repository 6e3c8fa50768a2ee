//! The device-plugin wire model: the messages a class's snapshot turns
//! into, as plain values.  The gRPC transport carrying them stays
//! outside.

use vstd::prelude::*;

use crate::device_type::{handle_id_chars, DeviceHandle};
use crate::intern::Interner;

verus! {

/// Health of an advertised device.
#[derive(Clone, Debug, PartialEq)]
pub enum DeviceHealth {
    Healthy,
    Unhealthy,
    /// A health string the protocol does not know.
    Other(String),
}

impl DeviceHealth {
    /// The wire string of the health value.
    pub fn to_wire(self) -> (r: String)
        ensures
            self == DeviceHealth::Healthy ==> r@ == "Healthy"@,
            self == DeviceHealth::Unhealthy ==> r@ == "Unhealthy"@,
            self matches DeviceHealth::Other(s) ==> r@ == s@,
    {
        match self {
            DeviceHealth::Healthy => String::from_str("Healthy"),
            DeviceHealth::Unhealthy => String::from_str("Unhealthy"),
            DeviceHealth::Other(s) => s,
        }
    }

    /// Reads a wire string back: the two known values map to their
    /// variants, anything else is kept as `Other`.
    pub fn from_wire(s: String) -> (r: DeviceHealth)
        ensures
            s@ == "Healthy"@ ==> r == DeviceHealth::Healthy,
            s@ == "Unhealthy"@ ==> r == DeviceHealth::Unhealthy,
            s@ != "Healthy"@ && s@ != "Unhealthy"@ ==> (r matches DeviceHealth::Other(x) && x@
                == s@),
    {
        proof {
            broadcast use vstd::string::group_string_axioms;

            reveal_strlit("Healthy");
            reveal_strlit("Unhealthy");
            assert("Healthy"@.len() == 7);
            assert("Unhealthy"@.len() == 9);
        }
        if s == String::from_str("Healthy") {
            DeviceHealth::Healthy
        } else if s == String::from_str("Unhealthy") {
            DeviceHealth::Unhealthy
        } else {
            DeviceHealth::Other(s)
        }
    }
}

/// One NUMA node of a device's topology.
#[derive(Clone, Copy, Debug, PartialEq, Eq, Structural)]
pub struct NumaNode {
    pub id: i64,
}

/// Topology of an advertised device.
#[derive(Clone, Debug, PartialEq)]
pub struct TopologyInfo {
    pub nodes: Vec<NumaNode>,
}

/// One advertised device: a unique id, its health, and an optional
/// topology.
#[derive(Clone, Debug, PartialEq)]
pub struct Device {
    pub id: String,
    pub health: DeviceHealth,
    pub topology: Option<TopologyInfo>,
}

/// One `ListAndWatch` message: the class's full device list.
#[derive(Clone, Debug, PartialEq)]
pub struct ListAndWatchResponse {
    pub devices: Vec<Device>,
}

/// The static options a class advertises at registration.
#[derive(Clone, Copy, Debug, PartialEq, Eq, Structural)]
pub struct DevicePluginOptions {
    pub pre_start_required: bool,
    pub get_preferred_allocation_available: bool,
}

/// Builds the `ListAndWatch` message for a snapshot: one device per
/// slot, with the slot's rendered id, reported `Healthy`, without
/// topology.
pub fn response_from_snapshot(handles: &Vec<DeviceHandle>, im: &Interner) -> (r:
    ListAndWatchResponse)
    requires
        forall|i: int| 0 <= i < handles@.len() ==> (#[trigger] handles@[i]).device.id.key
            < im@.len(),
    ensures
        r.devices@.len() == handles@.len(),
        forall|i: int|
            0 <= i < handles@.len() ==> {
                &&& (#[trigger] r.devices@[i]).id@ == handle_id_chars(im@, handles@[i])
                &&& r.devices@[i].health == DeviceHealth::Healthy
                &&& r.devices@[i].topology is None
            },
{
    let n = handles.len();
    let mut devices: Vec<Device> = Vec::new();
    for i in 0..n
        invariant
            n == handles@.len(),
            forall|j: int| 0 <= j < n ==> (#[trigger] handles@[j]).device.id.key < im@.len(),
            devices@.len() == i,
            forall|j: int|
                0 <= j < i ==> {
                    &&& (#[trigger] devices@[j]).id@ == handle_id_chars(im@, handles@[j])
                    &&& devices@[j].health == DeviceHealth::Healthy
                    &&& devices@[j].topology is None
                },
    {
        let h = handles[i];
        let id = h.id_string(im);
        devices.push(Device { id, health: DeviceHealth::Healthy, topology: None });
    }
    ListAndWatchResponse { devices }
}

} // verus!

//! The configuration model: device types, device classes, and the whole
//! configuration, with the matching rules between them and kernel
//! devices.

use vstd::prelude::*;

use crate::access::DeviceAccess;
use crate::attrs::AttrMap;
use crate::device::UdevDevice;
use crate::intern::InternedString;
use crate::labels::{labels_as_attrs, DeviceTypeLabels};
use crate::selector::{
    sel_matches, sel_mismatches, ExpectedView, MatchResult, MismatchView, Selector, SelectorType,
    SelectorView,
};

verus! {

/// Ghost counterpart of [`DeviceType`].
pub ghost struct DeviceTypeView {
    pub name: InternedString,
    pub subsystem: InternedString,
    pub access: DeviceAccess,
    pub labels: Seq<(InternedString, InternedString)>,
    pub selector: SelectorView,
}

/// Ghost counterpart of [`DeviceClass`].
pub ghost struct DeviceClassView {
    pub subsystem: InternedString,
    pub name: InternedString,
    pub target: InternedString,
    pub selector: SelectorView,
}

/// A selector over kernel-device attributes.
#[derive(Clone, Debug)]
pub struct UdevSelector {
    pub selector: Selector,
}

impl SelectorType for UdevSelector {
    /// The document key of the flat map of a device-type selector.
    fn flat_keys_name() -> Option<&'static str> {
        Some("matchAttributes")
    }
}

impl View for UdevSelector {
    type V = SelectorView;

    open spec fn view(&self) -> SelectorView {
        self.selector@
    }
}

impl UdevSelector {
    /// Evaluates the selector against a device's attribute map.
    pub fn match_with(&self, attrs: &AttrMap) -> (r: MatchResult)
        ensures
            (r is Matches) <==> sel_matches(self.selector@, attrs@),
            r.spec_reasons() == sel_mismatches(self.selector@, attrs@),
            r matches MatchResult::Mismatch(ms) ==> ms@.len() > 0,
    {
        self.selector.match_with(attrs)
    }
}

/// A selector over device-type labels.
#[derive(Clone, Debug)]
pub struct DeviceTypeSelector {
    pub selector: Selector,
}

impl SelectorType for DeviceTypeSelector {
    /// The document key of the flat map of a device-class selector.
    fn flat_keys_name() -> Option<&'static str> {
        Some("matchLabels")
    }
}

impl View for DeviceTypeSelector {
    type V = SelectorView;

    open spec fn view(&self) -> SelectorView {
        self.selector@
    }
}

impl DeviceTypeSelector {
    /// Evaluates the selector against an attribute map (a device type's
    /// labels, every one counting as present).
    pub fn match_with(&self, attrs: &AttrMap) -> (r: MatchResult)
        ensures
            (r is Matches) <==> sel_matches(self.selector@, attrs@),
            r.spec_reasons() == sel_mismatches(self.selector@, attrs@),
            r matches MatchResult::Mismatch(ms) ==> ms@.len() > 0,
    {
        self.selector.match_with(attrs)
    }
}

/// A configured device type: a filter over kernel devices, enriched with
/// labels and an access policy.
#[derive(Clone, Debug)]
pub struct DeviceType {
    /// Device type name; unique within a configuration.
    pub name: InternedString,
    /// The kernel subsystem the type's devices must belong to.
    pub subsystem: InternedString,
    /// How many slots each matching device yields.
    pub access: DeviceAccess,
    /// User-assigned labels, matched by device-class selectors.
    pub labels: DeviceTypeLabels,
    /// The filter over kernel-device attributes.
    pub selector: UdevSelector,
}

impl View for DeviceType {
    type V = DeviceTypeView;

    open spec fn view(&self) -> DeviceTypeView {
        DeviceTypeView {
            name: self.name,
            subsystem: self.subsystem,
            access: self.access,
            labels: self.labels@,
            selector: self.selector@,
        }
    }
}

/// Whether a device type matches a kernel device: the subsystems are
/// equal and the selector matches the device's attributes.
pub open spec fn type_matches(ty: DeviceTypeView, dev: UdevDevice) -> bool {
    ty.subsystem == dev.subsystem && sel_matches(ty.selector, dev.attributes@)
}

/// The mismatches a device type reports against a kernel device, the
/// subsystem check first.  `subsystem_key` is the interned name of the
/// subsystem field, under which that check reports.
pub open spec fn type_mismatches(
    ty: DeviceTypeView,
    dev: UdevDevice,
    subsystem_key: InternedString,
) -> Seq<MismatchView> {
    (if ty.subsystem == dev.subsystem {
        Seq::empty()
    } else {
        seq![
            MismatchView {
                key: subsystem_key,
                expected: ExpectedView::Value(ty.subsystem),
                actual: Some(dev.subsystem),
            },
        ]
    }) + sel_mismatches(ty.selector, dev.attributes@)
}

impl DeviceType {
    /// Device type name; unique within a configuration.
    pub fn name(&self) -> (r: InternedString)
        ensures
            r == self.name,
    {
        self.name
    }

    /// The kernel subsystem the type's devices must belong to.
    pub fn subsystem(&self) -> (r: InternedString)
        ensures
            r == self.subsystem,
    {
        self.subsystem
    }

    /// How many slots each matching device yields.
    pub fn access(&self) -> (r: DeviceAccess)
        ensures
            r == self.access,
    {
        self.access
    }

    /// User-assigned labels, matched by device-class selectors.
    pub fn labels(&self) -> (r: &DeviceTypeLabels)
        ensures
            r == &self.labels,
    {
        &self.labels
    }

    /// The filter over kernel-device attributes.
    pub fn selector(&self) -> (r: &UdevSelector)
        ensures
            r == &self.selector,
    {
        &self.selector
    }

    /// Matches the type against a kernel device: the subsystem check
    /// first, then the selector; all failures are collected.
    /// `subsystem_key` is the interned name of the subsystem field, used
    /// in the mismatch report.
    pub fn match_with(&self, device: &UdevDevice, subsystem_key: InternedString) -> (r:
        MatchResult)
        ensures
            (r is Matches) <==> type_matches(self@, *device),
            r.spec_reasons() == type_mismatches(self@, *device, subsystem_key),
    {
        let mut result = MatchResult::Matches;
        if self.subsystem != device.subsystem {
            result = MatchResult::expected_value(
                subsystem_key,
                self.subsystem,
                Some(device.subsystem),
            );
        }
        let sel = self.selector.match_with(&device.attributes);
        result.combine(sel)
    }
}

impl DeviceType {
    /// A copy with the same view.
    pub fn duplicate(&self) -> (r: DeviceType)
        ensures
            r@ == self@,
    {
        DeviceType {
            name: self.name,
            subsystem: self.subsystem,
            access: self.access,
            labels: self.labels.duplicate(),
            selector: UdevSelector { selector: self.selector.selector.duplicate() },
        }
    }
}

/// A configured device class: a handler that advertises a resource name
/// and serves the slots of the device types its selector accepts.
#[derive(Clone, Debug)]
pub struct DeviceClass {
    /// The kernel subsystem the class's device types must belong to.
    pub subsystem: InternedString,
    /// Device class name; unique within a configuration.
    pub name: InternedString,
    /// The resource name advertised to the orchestrator.
    pub target: InternedString,
    /// The filter over device-type labels.
    pub selector: DeviceTypeSelector,
}

impl View for DeviceClass {
    type V = DeviceClassView;

    open spec fn view(&self) -> DeviceClassView {
        DeviceClassView {
            subsystem: self.subsystem,
            name: self.name,
            target: self.target,
            selector: self.selector@,
        }
    }
}

/// Whether a device class accepts a device type: the subsystems are equal
/// and the selector matches the type's labels.
pub open spec fn class_accepts(cls: DeviceClassView, ty: DeviceTypeView) -> bool {
    cls.subsystem == ty.subsystem && sel_matches(cls.selector, labels_as_attrs(ty.labels))
}

/// The mismatches a device class reports against a device type, the
/// subsystem check first.
pub open spec fn class_mismatches(
    cls: DeviceClassView,
    ty: DeviceTypeView,
    subsystem_key: InternedString,
) -> Seq<MismatchView> {
    (if cls.subsystem == ty.subsystem {
        Seq::empty()
    } else {
        seq![
            MismatchView {
                key: subsystem_key,
                expected: ExpectedView::Value(cls.subsystem),
                actual: Some(ty.subsystem),
            },
        ]
    }) + sel_mismatches(cls.selector, labels_as_attrs(ty.labels))
}

impl DeviceClass {
    /// Device class name; unique within a configuration.
    pub fn name(&self) -> (r: InternedString)
        ensures
            r == self.name,
    {
        self.name
    }

    /// The kernel subsystem the class's device types must belong to.
    pub fn subsystem(&self) -> (r: InternedString)
        ensures
            r == self.subsystem,
    {
        self.subsystem
    }

    /// The resource name advertised to the orchestrator.
    pub fn target(&self) -> (r: InternedString)
        ensures
            r == self.target,
    {
        self.target
    }

    /// The filter over device-type labels.
    pub fn selector(&self) -> (r: &DeviceTypeSelector)
        ensures
            r == &self.selector,
    {
        &self.selector
    }

    /// Matches the class against a device type: the subsystem check
    /// first, then the selector over the type's labels; all failures are
    /// collected.  `subsystem_key` is the interned name of the subsystem
    /// field, used in the mismatch report.
    pub fn match_with(&self, device_type: &DeviceType, subsystem_key: InternedString) -> (r:
        MatchResult)
        ensures
            (r is Matches) <==> class_accepts(self@, device_type@),
            r.spec_reasons() == class_mismatches(self@, device_type@, subsystem_key),
    {
        let mut result = MatchResult::Matches;
        if self.subsystem != device_type.subsystem {
            result = MatchResult::expected_value(
                subsystem_key,
                self.subsystem,
                Some(device_type.subsystem),
            );
        }
        let attrs = device_type.labels.as_attr_map();
        let sel = self.selector.match_with(&attrs);
        result.combine(sel)
    }
}

impl DeviceClass {
    /// A copy with the same view.
    pub fn duplicate(&self) -> (r: DeviceClass)
        ensures
            r@ == self@,
    {
        DeviceClass {
            subsystem: self.subsystem,
            name: self.name,
            target: self.target,
            selector: DeviceTypeSelector { selector: self.selector.selector.duplicate() },
        }
    }
}

/// A whole configuration: the declared device types and device classes.
#[derive(Clone, Debug)]
pub struct Config {
    pub device_types: Vec<DeviceType>,
    pub device_classes: Vec<DeviceClass>,
}

impl Config {
    /// The declared device types, in configuration order.
    pub fn device_types(&self) -> (r: &Vec<DeviceType>)
        ensures
            r == &self.device_types,
    {
        &self.device_types
    }

    /// The declared device classes, in configuration order.
    pub fn device_classes(&self) -> (r: &Vec<DeviceClass>)
        ensures
            r == &self.device_classes,
    {
        &self.device_classes
    }
}

} // verus!

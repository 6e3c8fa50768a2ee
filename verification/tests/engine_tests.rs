//! The device model, the registries, the distributor and the
//! reconciliation engine, exercised end to end on concrete devices.

use udev_device_manager::device::{
    DecodedDevice, DecodedValue, PathKind, RawAttribute, RawDevice, RawLevel, UdevDevice,
    UdevDeviceError, UdevEvent,
};
use udev_device_manager::engine::{Action, Engine, FatalError};
use udev_device_manager::intern::Interner;
use udev_device_manager::parse::{parse_config_text, ConfigFormat};
use udev_device_manager::plugin_api::{response_from_snapshot, DeviceHealth};
use udev_device_manager::signals::Signal;
use udev_device_manager::sockets::{pick_socket_name, slugify, socket_file_name};
use udev_device_manager::utils::AggregateErrorExt;

fn raw_device(syspath: &str, subsystem: &str, attrs: &[(&str, &str)]) -> RawDevice {
    RawDevice {
        subsystem: Some(subsystem.as_bytes().to_vec()),
        syspath: syspath.as_bytes().to_vec(),
        devnode: Some(format!("/dev/{}", subsystem).into_bytes()),
        levels: vec![RawLevel {
            attributes: attrs
                .iter()
                .map(|(k, v)| RawAttribute {
                    name: k.as_bytes().to_vec(),
                    value: Some(v.as_bytes().to_vec()),
                })
                .collect(),
        }],
    }
}

fn config_two_classes(im: &mut Interner) -> udev_device_manager::config::Config {
    let text = r#"{
      "devices": [
        {
          "name": "radio",
          "subsystem": "tty",
          "access": 3,
          "labels": {"type": "radio"},
          "selector": {"matchAttributes": {"idVendor": "1234"}}
        }
      ],
      "deviceClasses": [
        {
          "subsystem": "tty",
          "name": "first",
          "target": "udev/tty/first",
          "selector": {"matchLabels": {"type": "radio"}}
        },
        {
          "subsystem": "tty",
          "name": "second",
          "target": "udev/tty/second",
          "selector": {"matchLabels": {"type": "radio"}}
        }
      ]
    }"#;
    parse_config_text(text, ConfigFormat::Json, im).expect("config parses")
}

#[test]
fn device_decode_hierarchy_first_wins() {
    let mut raw = raw_device("/sys/devices/x", "tty", &[("idVendor", "1234")]);
    raw.levels.push(RawLevel {
        attributes: vec![
            RawAttribute {
                name: b"idVendor".to_vec(),
                value: Some(b"9999".to_vec()),
            },
            RawAttribute {
                name: b"fromParent".to_vec(),
                value: Some(b"yes".to_vec()),
            },
            RawAttribute {
                name: b"empty".to_vec(),
                value: Some(Vec::new()),
            },
            RawAttribute {
                name: b"binary".to_vec(),
                value: Some(vec![0xff, 0xfe]),
            },
        ],
    });
    let d = DecodedDevice::decode(&raw).expect("decodes");
    assert_eq!(d.subsystem, "tty");
    assert_eq!(d.syspath, "/sys/devices/x");
    assert_eq!(d.devnode, "/dev/tty");
    // The device's own binding wins over the parent's.
    assert_eq!(
        d.attributes,
        vec![
            ("idVendor".to_string(), DecodedValue::Present("1234".to_string())),
            ("fromParent".to_string(), DecodedValue::Present("yes".to_string())),
            ("empty".to_string(), DecodedValue::Empty),
            ("binary".to_string(), DecodedValue::Invalid),
        ]
    );
}

#[test]
fn device_decode_errors() {
    let mut no_subsystem = raw_device("/sys/devices/x", "tty", &[]);
    no_subsystem.subsystem = None;
    assert_eq!(DecodedDevice::decode(&no_subsystem), Err(UdevDeviceError::NoSubsystem));

    let mut bad_subsystem = raw_device("/sys/devices/x", "tty", &[]);
    bad_subsystem.subsystem = Some(vec![0xff]);
    assert_eq!(
        DecodedDevice::decode(&bad_subsystem),
        Err(UdevDeviceError::InvalidSubsystem { subsystem: vec![0xff] })
    );

    let mut no_devnode = raw_device("/sys/devices/x", "tty", &[]);
    no_devnode.devnode = None;
    assert_eq!(DecodedDevice::decode(&no_devnode), Err(UdevDeviceError::NoDevNode));

    let mut bad_devnode = raw_device("/sys/devices/x", "tty", &[]);
    bad_devnode.devnode = Some(vec![0xff]);
    assert_eq!(
        DecodedDevice::decode(&bad_devnode),
        Err(UdevDeviceError::PathNotValidString {
            path_kind: PathKind::DevNode,
            value: b"/sys/devices/x".to_vec(),
        })
    );

    let mut bad_attr = raw_device("/sys/devices/x", "tty", &[]);
    bad_attr.levels[0].attributes.push(RawAttribute { name: vec![0xff], value: None });
    assert_eq!(
        DecodedDevice::decode(&bad_attr),
        Err(UdevDeviceError::InvalidAttributeName { name: vec![0xff] })
    );
}

#[test]
fn device_id_shape() {
    let mut im = Interner::new();
    let raw = raw_device("/sys/devices/x", "tty", &[("idVendor", "1234")]);
    let dev = UdevDevice::try_from_raw(&raw, &mut im).expect("models");
    let id = im.resolve(dev.id()).clone();
    assert_eq!(id.len(), 12);
    assert!(id.chars().all(|c| c.is_ascii_alphanumeric() || c == '+' || c == '/' || c == '='));
    // Stable: the same path hashes to the same id.
    let dev2 = UdevDevice::try_from_raw(&raw, &mut im).expect("models");
    assert_eq!(dev.id(), dev2.id());
    // A different path gives a different id.
    let other = raw_device("/sys/devices/y", "tty", &[]);
    let dev3 = UdevDevice::try_from_raw(&other, &mut im).expect("models");
    assert_ne!(im.resolve(dev.id()), im.resolve(dev3.id()));
}

#[test]
fn engine_slots_and_snapshot() {
    let mut im = Interner::new();
    let config = config_two_classes(&mut im);
    let mut engine = Engine::new(config, &mut im);

    let raw = raw_device("/sys/devices/x", "tty", &[("idVendor", "1234")]);
    let dev = UdevDevice::try_from_raw(&raw, &mut im).expect("models");
    let base_id = im.resolve(dev.id()).clone();
    engine.restart(vec![dev], &im);
    let (changed, remaining) = engine.reconcile();

    // Access 3 yields three slots :0 :1 :2, all on one base id.
    let first = &engine.device_classes.classes[0].plugin;
    assert_eq!(first.devices.len(), 3);
    for (k, h) in first.devices.iter().enumerate() {
        let id = h.id_string(&im);
        assert_eq!(id, format!("{}:{}", base_id, k));
    }

    // First-match distribution: the first class took the type, the
    // second got nothing, and nothing remains unassigned.
    let second = &engine.device_classes.classes[1].plugin;
    assert_eq!(second.devices.len(), 0);
    assert_eq!(second.device_types.len(), 0);
    assert_eq!(first.device_types.len(), 1);
    assert_eq!(remaining, 0);

    // The first pass publishes a fresh snapshot for the first class
    // only; the second class's snapshot stays empty, unchanged.
    assert_eq!(changed, vec![true, false]);

    // The wire message carries the same ids, all healthy.
    let msg = response_from_snapshot(&first.devices, &im);
    assert_eq!(msg.devices.len(), 3);
    assert_eq!(msg.devices[0].id, format!("{}:0", base_id));
    assert!(matches!(msg.devices[0].health, DeviceHealth::Healthy));
}

#[test]
fn reconcile_is_idempotent() {
    let mut im = Interner::new();
    let config = config_two_classes(&mut im);
    let mut engine = Engine::new(config, &mut im);
    let raw = raw_device("/sys/devices/x", "tty", &[("idVendor", "1234")]);
    let dev = UdevDevice::try_from_raw(&raw, &mut im).expect("models");
    engine.restart(vec![dev], &im);
    let (changed1, _) = engine.reconcile();
    assert!(changed1.contains(&true));
    // Nothing moved: the second pass reports no change anywhere.
    let (changed2, _) = engine.reconcile();
    assert_eq!(changed2, vec![false, false]);
}

#[test]
fn removed_device_leaves_snapshots() {
    let mut im = Interner::new();
    let config = config_two_classes(&mut im);
    let mut engine = Engine::new(config, &mut im);
    let raw = raw_device("/sys/devices/x", "tty", &[("idVendor", "1234")]);
    let dev = UdevDevice::try_from_raw(&raw, &mut im).expect("models");
    let dev_for_removal = UdevDevice::try_from_raw(&raw, &mut im).expect("models");
    engine.restart(vec![dev], &im);
    engine.reconcile();
    assert_eq!(engine.device_classes.classes[0].plugin.devices.len(), 3);

    // One Remove event and one reconcile tick later, every snapshot is
    // rid of the device.
    let action = engine
        .on_udev(Some(Ok(UdevEvent::Remove(dev_for_removal))), &im)
        .expect("remove maps to an action");
    assert_eq!(action, Action::Reconcile);
    let (changed, _) = engine.reconcile();
    assert_eq!(changed, vec![true, false]);
    assert_eq!(engine.device_classes.classes[0].plugin.devices.len(), 0);
    assert_eq!(engine.device_classes.classes[1].plugin.devices.len(), 0);
}

#[test]
fn hotplug_add_publishes_once() {
    let mut im = Interner::new();
    let config = config_two_classes(&mut im);
    let mut engine = Engine::new(config, &mut im);
    engine.restart(Vec::new(), &im);
    let (changed0, _) = engine.reconcile();
    // No device: the first pass leaves both snapshots empty and
    // unchanged.
    assert_eq!(changed0, vec![false, false]);

    let raw = raw_device("/sys/devices/x", "tty", &[("idVendor", "1234")]);
    let dev = UdevDevice::try_from_raw(&raw, &mut im).expect("models");
    let action = engine.on_udev(Some(Ok(UdevEvent::Add(dev))), &im).expect("add maps to an action");
    assert_eq!(action, Action::Reconcile);
    let (changed1, _) = engine.reconcile();
    assert_eq!(changed1, vec![true, false]);
    // No further event: no further change.
    let (changed2, _) = engine.reconcile();
    assert_eq!(changed2, vec![false, false]);
}

#[test]
fn device_update_keeping_ids_changes_nothing() {
    let mut im = Interner::new();
    let config = config_two_classes(&mut im);
    let mut engine = Engine::new(config, &mut im);
    let raw = raw_device("/sys/devices/x", "tty", &[("idVendor", "1234")]);
    let dev = UdevDevice::try_from_raw(&raw, &mut im).expect("models");
    engine.restart(vec![dev], &im);
    engine.reconcile();
    let before: Vec<String> = engine.device_classes.classes[0]
        .plugin
        .devices
        .iter()
        .map(|h| h.id_string(&im))
        .collect();
    assert_eq!(before.len(), 3);

    // A Change event that moves the devnode but keeps the sysfs path —
    // hence every rendered id — must not replace any snapshot and must
    // push nothing: handle identity is the id alone.
    let mut moved = raw_device("/sys/devices/x", "tty", &[("idVendor", "1234")]);
    moved.devnode = Some(b"/dev/ttyUSB7".to_vec());
    let changed_dev = UdevDevice::try_from_raw(&moved, &mut im).expect("models");
    let action = engine
        .on_udev(Some(Ok(UdevEvent::Change(changed_dev))), &im)
        .expect("change maps to an action");
    assert_eq!(action, Action::Reconcile);
    let (changed, _) = engine.reconcile();
    assert_eq!(changed, vec![false, false]);
    let after: Vec<String> = engine.device_classes.classes[0]
        .plugin
        .devices
        .iter()
        .map(|h| h.id_string(&im))
        .collect();
    assert_eq!(after, before);
    // The untouched snapshot still carries the devnode it was built
    // with: it really was kept, not rebuilt.
    let kept = &engine.device_classes.classes[0].plugin.devices[0];
    assert_eq!(im.resolve(kept.device.devnode), "/dev/tty");
}

#[test]
fn table_order_follows_syspath_text() {
    let mut im = Interner::new();
    let config = config_two_classes(&mut im);
    let mut engine = Engine::new(config, &mut im);
    // Intern the later path first: the table must still come out in
    // ascending path-text order, not first-seen order.
    let raw_b = raw_device("/sys/devices/b", "tty", &[("idVendor", "1234")]);
    let dev_b = UdevDevice::try_from_raw(&raw_b, &mut im).expect("models");
    let raw_a = raw_device("/sys/devices/a", "tty", &[("idVendor", "1234")]);
    let dev_a = UdevDevice::try_from_raw(&raw_a, &mut im).expect("models");
    engine.restart(vec![dev_b, dev_a], &im);
    engine.reconcile();
    let snapshot = &engine.device_classes.classes[0].plugin.devices;
    assert_eq!(snapshot.len(), 6);
    assert_eq!(im.resolve(snapshot[0].device.syspath), "/sys/devices/a");
    assert_eq!(im.resolve(snapshot[3].device.syspath), "/sys/devices/b");
}

#[test]
fn event_actions() {
    let mut im = Interner::new();
    let config = config_two_classes(&mut im);
    let mut engine = Engine::new(config, &mut im);

    assert_eq!(engine.on_signal(Some(Signal::SigHup)), Ok(Action::Restart));
    assert_eq!(engine.on_signal(Some(Signal::SigTerm)), Ok(Action::Shutdown));
    assert_eq!(engine.on_signal(Some(Signal::SigInt)), Ok(Action::Shutdown));
    assert_eq!(engine.on_signal(Some(Signal::SigQuit)), Ok(Action::Shutdown));
    assert_eq!(engine.on_signal(None), Err(FatalError::SignalStreamClosed));

    assert_eq!(engine.on_udev(None, &im), Err(FatalError::KernelStreamClosed));
    let mut im2 = Interner::new();
    let fresh = config_two_classes(&mut im2);
    assert_eq!(engine.on_config(Some(Ok(fresh))), Ok(Action::Restart));
    assert_eq!(engine.on_config(None), Err(FatalError::ConfigWatcherClosed));
}

#[test]
fn selector_mismatch_reports() {
    let mut im = Interner::new();
    let config = config_two_classes(&mut im);
    let mut engine = Engine::new(config, &mut im);
    // A tty device with the wrong vendor: the type matches nothing, so
    // every snapshot is empty and the type stays in the pool.
    let raw = raw_device("/sys/devices/x", "tty", &[("idVendor", "9999")]);
    let dev = UdevDevice::try_from_raw(&raw, &mut im).expect("models");
    engine.restart(vec![dev], &im);
    let (_, remaining) = engine.reconcile();
    assert_eq!(engine.device_classes.classes[0].plugin.devices.len(), 0);
    assert_eq!(remaining, 0);
}

#[test]
fn socket_names() {
    let slug = slugify("udev/tty/My Radios!");
    assert_eq!(slug, "udev-tty-my-radios");
    assert_eq!(socket_file_name(&slug, 0), "udev-tty-my-radios.sock");
    assert_eq!(socket_file_name(&slug, 2), "udev-tty-my-radios-2.sock");

    let taken = vec![
        "udev-tty-my-radios.sock".to_string(),
        "udev-tty-my-radios-1.sock".to_string(),
    ];
    let (name, index) = pick_socket_name(&slug, &taken).expect("a free name exists");
    assert_eq!(index, 2);
    assert_eq!(name, "udev-tty-my-radios-2.sock");

    let (first, zero) = pick_socket_name(&slug, &Vec::new()).expect("free");
    assert_eq!(zero, 0);
    assert_eq!(first, "udev-tty-my-radios.sock");
}

#[test]
fn collected_errors() {
    let all_ok: Vec<Result<(), String>> = vec![Ok(()), Ok(())];
    assert_eq!(all_ok.collect_errors(), Ok(()));
    let mixed: Vec<Result<(), String>> =
        vec![Ok(()), Err("one".to_string()), Err("two".to_string())];
    assert_eq!(
        mixed.collect_errors(),
        Err(vec!["one".to_string(), "two".to_string()])
    );
}

#[test]
fn empty_match_starts_with_empty_snapshot() {
    let mut im = Interner::new();
    let config = config_two_classes(&mut im);
    let mut engine = Engine::new(config, &mut im);
    // No matching kernel device exists: the class still comes up, and
    // its first published device list is empty.
    engine.restart(Vec::new(), &im);
    engine.reconcile();
    let first = &engine.device_classes.classes[0].plugin;
    let msg = response_from_snapshot(&first.devices, &im);
    assert!(msg.devices.is_empty());
}

#[test]
fn unmatched_type_stays_in_pool() {
    let mut im = Interner::new();
    let text = r#"{
      "devices": [
        {
          "name": "radio",
          "subsystem": "tty",
          "labels": {"type": "radio"},
          "selector": {}
        },
        {
          "name": "orphan",
          "subsystem": "usb",
          "labels": {"type": "orphan"},
          "selector": {}
        }
      ],
      "deviceClasses": [
        {
          "subsystem": "tty",
          "name": "radios",
          "target": "udev/tty/radios",
          "selector": {"matchLabels": {"type": "radio"}}
        }
      ]
    }"#;
    let config = parse_config_text(text, ConfigFormat::Json, &mut im).expect("parses");
    let mut engine = Engine::new(config, &mut im);
    engine.restart(Vec::new(), &im);
    let (changed, remaining) = engine.reconcile();
    // The class took the radio type; the orphan type stays in the pool.
    assert_eq!(remaining, 1);
    // With no matching device the taken type contributes no handles, so
    // the snapshot is id-equal to the initial empty one and is not
    // replaced: no push, and the published state keeps its empty backing.
    assert_eq!(changed, vec![false]);
    assert_eq!(engine.device_classes.classes[0].plugin.device_types.len(), 0);
}

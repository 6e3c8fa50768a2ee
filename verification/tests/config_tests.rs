//! Configuration parsing, serialization and interning behaviour.

use udev_device_manager::access::DeviceAccess;
use udev_device_manager::config::Config;
use udev_device_manager::intern::Interner;
use udev_device_manager::parse::{
    parse_config, parse_config_text, resolve_format, ConfigError, ConfigFormat, FormatError,
    ParseIssue, SchemaError,
};
use udev_device_manager::config_doc::config_from_doc;
use udev_device_manager::doc::DocValue;
use udev_device_manager::selector::SelectorValueRequirement;

fn base_config_json() -> &'static str {
    r#"{
      "devices": [
        {
          "name": "radio",
          "subsystem": "tty",
          "access": "exclusive",
          "labels": {"type": "radio"},
          "selector": {
            "matchAttributes": {"idVendor": "1234"},
            "matchExpressions": [
              {"key": "idVendor", "operator": "Exists"},
              {"key": "idProduct", "operator": "NotIn", "values": ["0030", "DE2422340"]}
            ]
          }
        }
      ],
      "deviceClasses": [
        {
          "subsystem": "tty",
          "name": "radios",
          "target": "udev/tty/radios",
          "selector": {
            "matchLabels": {"type": "radio"},
            "extra": "foo"
          }
        }
      ]
    }"#
}

fn parse_json_config(im: &mut Interner, text: &str) -> Config {
    parse_config_text(text, ConfigFormat::Json, im).expect("config must parse")
}

#[test]
fn exclusive_serde() {
    let mut im = Interner::new();
    let c = parse_json_config(&mut im, base_config_json());
    assert!(matches!(c.device_types()[0].access(), DeviceAccess::Exclusive));
    let text = udev_device_manager::parse::config_to_text(&c, &im, ConfigFormat::Json)
        .expect("serializes");
    assert!(text.contains("\"access\":\"exclusive\""));
    let c2 = parse_json_config(&mut im, &text);
    assert!(matches!(c2.device_types()[0].access(), DeviceAccess::Exclusive));
}

#[test]
fn atmost_serde() {
    let mut im = Interner::new();
    let text = base_config_json().replace("\"exclusive\"", "100");
    let c = parse_json_config(&mut im, &text);
    assert!(matches!(c.device_types()[0].access(), DeviceAccess::AtMost(100)));
    let out = udev_device_manager::parse::config_to_text(&c, &im, ConfigFormat::Json)
        .expect("serializes");
    assert!(out.contains("\"access\":100"));
    let c2 = parse_json_config(&mut im, &out);
    assert!(matches!(c2.device_types()[0].access(), DeviceAccess::AtMost(100)));

    // The integer one reads back as the exclusive policy, so an
    // `AtMost(1)` policy does not survive a round trip; `1` is accepted
    // and means exclusive.
    let text1 = base_config_json().replace("\"exclusive\"", "1");
    let c1 = parse_json_config(&mut im, &text1);
    assert!(matches!(c1.device_types()[0].access(), DeviceAccess::Exclusive));
}

#[test]
fn labels_selector_serde() {
    let mut im = Interner::new();
    let c = parse_json_config(&mut im, base_config_json());

    // The class selector carries the flat map; the unknown field
    // `extra` ("foo") is ignored on read.
    let cls = &c.device_classes()[0];
    let sel = &cls.selector().selector;
    let flat = sel.flat.as_ref().expect("flat map present");
    assert_eq!(flat.len(), 1);
    assert_eq!(im.resolve(flat[0].0).as_str(), "type");
    assert_eq!(im.resolve(flat[0].1).as_str(), "radio");
    assert!(sel.expressions.is_none());

    // The type selector carries both the flat map and the expressions.
    let ty = &c.device_types()[0];
    let tsel = &ty.selector().selector;
    let tflat = tsel.flat.as_ref().expect("flat map present");
    assert_eq!(im.resolve(tflat[0].0).as_str(), "idVendor");
    assert_eq!(im.resolve(tflat[0].1).as_str(), "1234");
    let exprs = tsel.expressions.as_ref().expect("expressions present");
    assert_eq!(exprs.len(), 2);
    assert_eq!(im.resolve(exprs[0].key).as_str(), "idVendor");
    assert!(matches!(exprs[0].value_requirement, SelectorValueRequirement::Exists));
    assert_eq!(im.resolve(exprs[1].key).as_str(), "idProduct");
    match &exprs[1].value_requirement {
        SelectorValueRequirement::NotIn(vs) => {
            assert_eq!(im.resolve(vs[0]).as_str(), "0030");
            assert_eq!(im.resolve(vs[1]).as_str(), "DE2422340");
        }
        other => panic!("expected NotIn, got {:?}", other),
    }

    // Serialize and parse again: the same text comes back, so the
    // values survived the round trip unchanged.
    let out1 = udev_device_manager::parse::config_to_text(&c, &im, ConfigFormat::Json)
        .expect("serializes");
    let c2 = parse_json_config(&mut im, &out1);
    let out2 = udev_device_manager::parse::config_to_text(&c2, &im, ConfigFormat::Json)
        .expect("serializes");
    assert_eq!(out1, out2);
}

#[test]
fn interned_str_serde() {
    let mut im = Interner::new();
    let a = im.get_or_intern("foo".to_string());
    let b = im.get_or_intern("foo".to_string());
    assert_eq!(a, b);
    assert_eq!(im.resolve(a).as_str(), "foo");
    let other = im.get_or_intern("bar".to_string());
    assert_ne!(a, other);
}

#[test]
fn round_trip_yaml_and_toml() {
    let mut im = Interner::new();
    let c = parse_json_config(&mut im, base_config_json());
    let json1 = udev_device_manager::parse::config_to_text(&c, &im, ConfigFormat::Json).unwrap();

    let yaml = udev_device_manager::parse::config_to_text(&c, &im, ConfigFormat::Yaml).unwrap();
    let cy = parse_config_text(&yaml, ConfigFormat::Yaml, &mut im).expect("yaml parses");
    let json_y = udev_device_manager::parse::config_to_text(&cy, &im, ConfigFormat::Json).unwrap();
    assert_eq!(json1, json_y);

    let toml_text = udev_device_manager::parse::config_to_text(&c, &im, ConfigFormat::Toml)
        .expect("toml serializes");
    let ct = parse_config_text(&toml_text, ConfigFormat::Toml, &mut im).expect("toml parses");
    let json_t = udev_device_manager::parse::config_to_text(&ct, &im, ConfigFormat::Json).unwrap();
    assert_eq!(json1, json_t);
}

#[test]
fn format_detection() {
    assert_eq!(
        resolve_format("/etc/agent/config.json", ConfigFormat::Auto),
        Ok(ConfigFormat::Json)
    );
    assert_eq!(
        resolve_format("/etc/agent/config.yaml", ConfigFormat::Auto),
        Ok(ConfigFormat::Yaml)
    );
    assert_eq!(resolve_format("config.yml", ConfigFormat::Auto), Ok(ConfigFormat::Yaml));
    assert_eq!(resolve_format("config.toml", ConfigFormat::Auto), Ok(ConfigFormat::Toml));
    assert_eq!(resolve_format("config", ConfigFormat::Auto), Err(ConfigError::MissingExtension));
    assert_eq!(
        resolve_format("dir.d/config", ConfigFormat::Auto),
        Err(ConfigError::MissingExtension)
    );
    match resolve_format("config.ini", ConfigFormat::Auto) {
        Err(ConfigError::InvalidExtension(e)) => assert_eq!(e, "ini"),
        other => panic!("expected invalid extension, got {:?}", other),
    }
    // An explicit format wins over the extension.
    assert_eq!(
        resolve_format("config.ini", ConfigFormat::Toml),
        Ok(ConfigFormat::Toml)
    );
}

#[test]
fn parse_errors() {
    let mut im = Interner::new();
    // Not well-formed JSON.
    match parse_config_text("{", ConfigFormat::Json, &mut im) {
        Err(ConfigError::ParseError(FormatError::JsonError(ParseIssue::Syntax(_)))) => {}
        other => panic!("expected a syntax error, got {:?}", other),
    }
    // Missing required top-level list.
    match parse_config_text("{\"devices\": []}", ConfigFormat::Json, &mut im) {
        Err(ConfigError::ParseError(FormatError::JsonError(ParseIssue::Schema(
            SchemaError::MissingField(f),
        )))) => assert_eq!(f, "deviceClasses"),
        other => panic!("expected a missing field, got {:?}", other),
    }
    // An access value outside 1..=255.
    let bad_access = base_config_json().replace("\"exclusive\"", "0");
    match parse_config_text(&bad_access, ConfigFormat::Json, &mut im) {
        Err(ConfigError::ParseError(FormatError::JsonError(ParseIssue::Schema(
            SchemaError::InvalidValue(f),
        )))) => assert_eq!(f, "access"),
        other => panic!("expected an invalid value, got {:?}", other),
    }
    // `values` handed to an `Exists` requirement.
    let bad_values = base_config_json().replace(
        "{\"key\": \"idVendor\", \"operator\": \"Exists\"}",
        "{\"key\": \"idVendor\", \"operator\": \"Exists\", \"values\": [\"x\"]}",
    );
    match parse_config_text(&bad_values, ConfigFormat::Json, &mut im) {
        Err(ConfigError::ParseError(FormatError::JsonError(ParseIssue::Schema(
            SchemaError::InvalidValue(f),
        )))) => assert_eq!(f, "values"),
        other => panic!("expected an invalid value, got {:?}", other),
    }
    // The whole path: auto format with an unknown extension.
    match parse_config("c.ini", ConfigFormat::Auto, "{}", &mut im) {
        Err(ConfigError::InvalidExtension(e)) => assert_eq!(e, "ini"),
        other => panic!("expected invalid extension, got {:?}", other),
    }
}

#[test]
fn labels_sorted_on_read() {
    let mut im = Interner::new();
    let text = base_config_json().replace(
        "\"labels\": {\"type\": \"radio\"}",
        "\"labels\": {\"zeta\": \"z\", \"alpha\": \"a\", \"mid\": \"m\"}",
    );
    let c = parse_json_config(&mut im, &text);
    let labels = &c.device_types()[0].labels().entries;
    let keys: Vec<&str> =
        labels.iter().map(|p| im.resolve(p.0).as_str()).collect();
    assert_eq!(keys, vec!["alpha", "mid", "zeta"]);
}

#[test]
fn duplicate_fields_are_rejected() {
    let mut im = Interner::new();
    // Text readers collapse duplicate keys before the schema sees them,
    // so hand the schema a document with a repeated field directly.
    let doc = DocValue::Table(vec![
        ("devices".to_string(), DocValue::List(Vec::new())),
        ("devices".to_string(), DocValue::List(Vec::new())),
        ("deviceClasses".to_string(), DocValue::List(Vec::new())),
    ]);
    match config_from_doc(&doc, &mut im) {
        Err(SchemaError::DuplicateField(f)) => assert_eq!(f, "devices"),
        other => panic!("expected a duplicate field, got {:?}", other),
    }
}

#[test]
fn duplicate_names_are_rejected() {
    let mut im = Interner::new();
    // Two device types named "radio": the type registry is keyed by
    // name, so the configuration is refused.
    let two_types = base_config_json().replace(
        "\"devices\": [\n        {",
        "\"devices\": [\n        {\n          \"name\": \"radio\",\n          \"subsystem\": \"usb\",\n          \"labels\": {},\n          \"selector\": {}\n        },\n        {",
    );
    match parse_config_text(&two_types, ConfigFormat::Json, &mut im) {
        Err(ConfigError::ParseError(FormatError::JsonError(ParseIssue::Schema(
            SchemaError::DuplicateName(n),
        )))) => assert_eq!(n, "radio"),
        other => panic!("expected a duplicate name, got {:?}", other),
    }
    // Two device classes named "radios" are refused the same way.
    let two_classes = base_config_json().replace(
        "\"deviceClasses\": [\n        {",
        "\"deviceClasses\": [\n        {\n          \"subsystem\": \"usb\",\n          \"name\": \"radios\",\n          \"target\": \"udev/usb/radios\",\n          \"selector\": {}\n        },\n        {",
    );
    match parse_config_text(&two_classes, ConfigFormat::Json, &mut im) {
        Err(ConfigError::ParseError(FormatError::JsonError(ParseIssue::Schema(
            SchemaError::DuplicateName(n),
        )))) => assert_eq!(n, "radios"),
        other => panic!("expected a duplicate name, got {:?}", other),
    }
}

#[test]
fn empty_config_parses() {
    let mut im = Interner::new();
    let c = parse_json_config(&mut im, r#"{"devices": [], "deviceClasses": []}"#);
    assert_eq!(c.device_types().len(), 0);
    assert_eq!(c.device_classes().len(), 0);
}

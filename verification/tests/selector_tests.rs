//! The selector matcher on concrete attribute maps.

use udev_device_manager::attrs::{AttrMap, AttributeValue};
use udev_device_manager::intern::{Interner, InternedString};
use udev_device_manager::selector::{
    MatchResult, Selector, SelectorRequirement, SelectorValueRequirement,
};

struct Fixture {
    im: Interner,
}

impl Fixture {
    fn new() -> Fixture {
        Fixture { im: Interner::new() }
    }

    fn intern(&mut self, s: &str) -> InternedString {
        self.im.get_or_intern(s.to_string())
    }
}

fn attrs_of(fx: &mut Fixture, entries: &[(&str, Option<&str>)]) -> AttrMap {
    let mut m = AttrMap::new();
    for (k, v) in entries {
        let key = fx.intern(k);
        let value = match v {
            Some(s) => AttributeValue::Present(fx.intern(s)),
            None => AttributeValue::Empty,
        };
        m.insert_if_absent(key, value);
    }
    m
}

#[test]
fn operators_match_as_specified() {
    let mut fx = Fixture::new();
    let attrs = attrs_of(&mut fx, &[("idVendor", Some("1234")), ("blank", None)]);

    let id_vendor = fx.intern("idVendor");
    let blank = fx.intern("blank");
    let absent = fx.intern("absent");
    let v1234 = fx.intern("1234");
    let v9999 = fx.intern("9999");

    // In: present and in the set.
    let sel_in = Selector {
        flat: None,
        expressions: Some(vec![SelectorRequirement {
            key: id_vendor,
            value_requirement: SelectorValueRequirement::In(vec![v1234, v9999]),
        }]),
    };
    assert!(sel_in.match_with(&attrs).is_match());

    // NotIn: absent keys pass, matching values fail.
    let sel_not_in = Selector {
        flat: None,
        expressions: Some(vec![SelectorRequirement {
            key: absent,
            value_requirement: SelectorValueRequirement::NotIn(vec![v1234]),
        }]),
    };
    assert!(sel_not_in.match_with(&attrs).is_match());
    let sel_not_in_hit = Selector {
        flat: None,
        expressions: Some(vec![SelectorRequirement {
            key: id_vendor,
            value_requirement: SelectorValueRequirement::NotIn(vec![v1234]),
        }]),
    };
    assert!(!sel_not_in_hit.match_with(&attrs).is_match());

    // Exists: only a present value counts; an empty value counts as
    // absent.
    let sel_exists_blank = Selector {
        flat: None,
        expressions: Some(vec![SelectorRequirement {
            key: blank,
            value_requirement: SelectorValueRequirement::Exists,
        }]),
    };
    assert!(!sel_exists_blank.match_with(&attrs).is_match());

    // DoesNotExist: empty values count as absent.
    let sel_dne_blank = Selector {
        flat: None,
        expressions: Some(vec![SelectorRequirement {
            key: blank,
            value_requirement: SelectorValueRequirement::DoesNotExist,
        }]),
    };
    assert!(sel_dne_blank.match_with(&attrs).is_match());
}

#[test]
fn all_failures_are_collected_in_order() {
    let mut fx = Fixture::new();
    let attrs = attrs_of(&mut fx, &[("idVendor", Some("1234"))]);
    let id_vendor = fx.intern("idVendor");
    let missing = fx.intern("missing");
    let v9999 = fx.intern("9999");

    let sel = Selector {
        flat: Some(vec![(id_vendor, v9999)]),
        expressions: Some(vec![
            SelectorRequirement {
                key: missing,
                value_requirement: SelectorValueRequirement::Exists,
            },
            SelectorRequirement {
                key: id_vendor,
                value_requirement: SelectorValueRequirement::Exists,
            },
        ]),
    };
    match sel.match_with(&attrs) {
        MatchResult::Matches => panic!("must not match"),
        MatchResult::Mismatch(reasons) => {
            // The failing flat entry first, then the failing
            // requirement; the passing requirement reports nothing.
            assert_eq!(reasons.len(), 2);
            assert_eq!(reasons[0].key, id_vendor);
            assert_eq!(reasons[0].actual, Some(fx.intern("1234")));
            assert_eq!(reasons[1].key, missing);
            assert_eq!(reasons[1].actual, None);
        }
    }
}

#[test]
fn dropping_a_requirement_keeps_a_match() {
    let mut fx = Fixture::new();
    let attrs = attrs_of(&mut fx, &[("idVendor", Some("1234")), ("idProduct", Some("0030"))]);
    let id_vendor = fx.intern("idVendor");
    let id_product = fx.intern("idProduct");
    let v1234 = fx.intern("1234");
    let v0030 = fx.intern("0030");

    let full = Selector {
        flat: Some(vec![(id_vendor, v1234)]),
        expressions: Some(vec![
            SelectorRequirement {
                key: id_product,
                value_requirement: SelectorValueRequirement::In(vec![v0030]),
            },
            SelectorRequirement {
                key: id_vendor,
                value_requirement: SelectorValueRequirement::Exists,
            },
        ]),
    };
    assert!(full.match_with(&attrs).is_match());

    // Every selector made by dropping predicates still matches.
    let dropped_flat = Selector {
        flat: None,
        expressions: full.expressions.clone(),
    };
    assert!(dropped_flat.match_with(&attrs).is_match());
    let dropped_req = Selector {
        flat: Some(vec![(id_vendor, v1234)]),
        expressions: Some(vec![SelectorRequirement {
            key: id_vendor,
            value_requirement: SelectorValueRequirement::Exists,
        }]),
    };
    assert!(dropped_req.match_with(&attrs).is_match());
    let empty = Selector { flat: None, expressions: None };
    assert!(empty.match_with(&attrs).is_match());
}

//! The kernel-device model.
//!
//! The kernel hands the agent an opaque device reference with a sysfs
//! path, a subsystem, an optional devnode and a chain of ancestors, each
//! level carrying named byte-string attributes.  This module turns such a
//! raw picture — handed in as plain byte values — into the canonical
//! [`UdevDevice`]: UTF-8 validated names and paths, an inherited-attribute
//! map built by a first-occurrence-wins walk from the device to the root,
//! and a short stable id derived from a hash of the sysfs path.

use vstd::prelude::*;

use crate::attrs::{AttrMap, AttributeValue};
use crate::intern::{Interner, InternedString};

verus! {

/// Which path of a device failed UTF-8 validation.
#[derive(Clone, Copy, Debug, PartialEq, Eq, Structural, Hash)]
pub enum PathKind {
    SysPath,
    DevNode,
}

/// Why a raw kernel device could not be modelled.  Such a device is
/// skipped; the enumeration itself stays healthy.
#[derive(Clone, Debug, PartialEq)]
pub enum UdevDeviceError {
    /// The device reports no subsystem.
    NoSubsystem,
    /// The subsystem bytes are not valid UTF-8.
    InvalidSubsystem { subsystem: Vec<u8> },
    /// A path of the device is not valid UTF-8.
    PathNotValidString { path_kind: PathKind, value: Vec<u8> },
    /// The device has no devnode.
    NoDevNode,
    /// An attribute name is not valid UTF-8.
    InvalidAttributeName { name: Vec<u8> },
}

/// One named attribute as the kernel reports it: raw name bytes and, if
/// the attribute is readable, raw value bytes.
#[derive(Clone, Debug)]
pub struct RawAttribute {
    pub name: Vec<u8>,
    pub value: Option<Vec<u8>>,
}

/// The attributes of one level of the device's ancestor chain.
#[derive(Clone, Debug)]
pub struct RawLevel {
    pub attributes: Vec<RawAttribute>,
}

/// A kernel device as enumerated: the device's own identity plus the
/// attribute levels from the device itself (first) up to the root (last).
#[derive(Clone, Debug)]
pub struct RawDevice {
    pub subsystem: Option<Vec<u8>>,
    pub syspath: Vec<u8>,
    pub devnode: Option<Vec<u8>>,
    pub levels: Vec<RawLevel>,
}

/// What decoding the result of a UTF-8 conversion yielded.
pub ghost enum DecodedValueView {
    Present(Seq<char>),
    Empty,
    Invalid,
}

/// A decoded attribute value: non-empty UTF-8 text, empty, or bytes that
/// are not valid UTF-8.
#[derive(Clone, Debug, PartialEq)]
pub enum DecodedValue {
    Present(String),
    Empty,
    Invalid,
}

impl View for DecodedValue {
    type V = DecodedValueView;

    open spec fn view(&self) -> DecodedValueView {
        match self {
            DecodedValue::Present(s) => DecodedValueView::Present(s@),
            DecodedValue::Empty => DecodedValueView::Empty,
            DecodedValue::Invalid => DecodedValueView::Invalid,
        }
    }
}

/// A device after UTF-8 validation and the hierarchy walk, before
/// interning.
#[derive(Clone, Debug, PartialEq)]
pub struct DecodedDevice {
    pub subsystem: String,
    pub syspath: String,
    pub devnode: String,
    pub attributes: Vec<(String, DecodedValue)>,
}

/// What `String::from_utf8` returns on these bytes: the decoded text, or
/// nothing when the bytes are not valid UTF-8.
pub uninterp spec fn utf8_decode(b: Seq<u8>) -> Option<Seq<char>>;

/// Relies on `String::from_utf8`: returns the UTF-8 decoding of the
/// bytes, a function of the bytes alone, and rejects exactly the byte
/// strings that are not valid UTF-8.
#[verifier::external_body]
fn bytes_to_string(v: &Vec<u8>) -> (r: Option<String>)
    ensures
        match r {
            Some(s) => utf8_decode(v@) == Some(s@),
            None => utf8_decode(v@) is None,
        },
{
    match String::from_utf8(v.clone()) {
        Ok(s) => Some(s),
        Err(_) => None,
    }
}

/// The 64-bit content hash of a sysfs path, as `seahash::hash` computes
/// it on the path's UTF-8 bytes.
pub uninterp spec fn syspath_hash(s: Seq<char>) -> u64;

/// Relies on `seahash::hash`: a 64-bit digest of the bytes, a function of
/// the bytes alone.
#[verifier::external_body]
fn hash_syspath(s: &str) -> (r: u64)
    ensures
        r == syspath_hash(s@),
{
    seahash::hash(s.as_bytes())
}

/// True for the characters base64 encoding can produce: the standard
/// alphabet plus the `=` padding character.
pub open spec fn is_base64_char(c: char) -> bool {
    ('A' <= c <= 'Z') || ('a' <= c <= 'z') || ('0' <= c <= '9') || c == '+' || c == '/' || c
        == '='
}

/// The base64 encoding of the hash's eight little-endian bytes.
pub uninterp spec fn base64_of(h: u64) -> Seq<char>;

/// Relies on `base64::encode` (standard alphabet, padded): the encoding
/// is a function of the input alone; eight input bytes give twelve
/// characters over the base64 alphabet.
#[verifier::external_body]
fn encode_hash(h: u64) -> (r: String)
    ensures
        r@ == base64_of(h),
        r@.len() == 12,
        forall|i: int| 0 <= i < r@.len() ==> is_base64_char(#[trigger] r@[i]),
{
    base64::encode(h.to_le_bytes())
}

/// The orchestrator-facing id of a device: the base64 form of the hash of
/// its sysfs path.
pub open spec fn spec_device_id(syspath: Seq<char>) -> Seq<char> {
    base64_of(syspath_hash(syspath))
}

/// Computes a device's id from its sysfs path.
pub fn device_id_string(syspath: &str) -> (r: String)
    ensures
        r@ == spec_device_id(syspath@),
        r@.len() == 12,
        forall|i: int| 0 <= i < r@.len() ==> is_base64_char(#[trigger] r@[i]),
{
    encode_hash(hash_syspath(syspath))
}

/// The ghost view of a raw attribute.
pub open spec fn raw_attr_view(a: RawAttribute) -> (Seq<u8>, Option<Seq<u8>>) {
    (
        a.name@,
        match a.value {
            Some(v) => Some(v@),
            None => None,
        },
    )
}

/// The ghost view of one level: its attributes in reported order.
pub open spec fn raw_level_view(l: RawLevel) -> Seq<(Seq<u8>, Option<Seq<u8>>)> {
    l.attributes@.map_values(|a: RawAttribute| raw_attr_view(a))
}

/// The ghost view of the whole chain: levels from the device to the root.
pub open spec fn raw_levels_view(levels: Seq<RawLevel>) -> Seq<Seq<(Seq<u8>, Option<Seq<u8>>)>> {
    levels.map_values(|l: RawLevel| raw_level_view(l))
}

/// How one readable attribute value decodes.
pub open spec fn value_view(vb: Seq<u8>) -> DecodedValueView {
    match utf8_decode(vb) {
        None => DecodedValueView::Invalid,
        Some(s) => if s.len() == 0 {
            DecodedValueView::Empty
        } else {
            DecodedValueView::Present(s)
        },
    }
}

/// First binding of `name` among decoded bindings, if any.
pub open spec fn bind_lookup(
    binds: Seq<(Seq<char>, DecodedValueView)>,
    name: Seq<char>,
) -> Option<DecodedValueView>
    decreases binds.len(),
{
    if binds.len() == 0 {
        None
    } else if binds[0].0 == name {
        Some(binds[0].1)
    } else {
        bind_lookup(binds.skip(1), name)
    }
}

/// Walks the attributes of one level, extending `acc` under the
/// first-occurrence-wins rule, or reports the first undecodable name.
pub open spec fn walk_level(
    attrs: Seq<(Seq<u8>, Option<Seq<u8>>)>,
    acc: Seq<(Seq<char>, DecodedValueView)>,
) -> Result<Seq<(Seq<char>, DecodedValueView)>, Seq<u8>>
    decreases attrs.len(),
{
    if attrs.len() == 0 {
        Ok(acc)
    } else {
        let (name_b, val) = attrs[0];
        match utf8_decode(name_b) {
            None => Err(name_b),
            Some(name) => {
                let acc2 = match val {
                    None => acc,
                    Some(vb) => if bind_lookup(acc, name) is Some {
                        acc
                    } else {
                        acc.push((name, value_view(vb)))
                    },
                };
                walk_level(attrs.skip(1), acc2)
            },
        }
    }
}

/// Walks the whole ancestor chain, deepest level first.
pub open spec fn walk_levels(
    levels: Seq<Seq<(Seq<u8>, Option<Seq<u8>>)>>,
    acc: Seq<(Seq<char>, DecodedValueView)>,
) -> Result<Seq<(Seq<char>, DecodedValueView)>, Seq<u8>>
    decreases levels.len(),
{
    if levels.len() == 0 {
        Ok(acc)
    } else {
        match walk_level(levels[0], acc) {
            Err(e) => Err(e),
            Ok(acc2) => walk_levels(levels.skip(1), acc2),
        }
    }
}

/// The decoded bindings of a raw device's attribute walk, when every name
/// decodes.
pub open spec fn spec_walk(raw: RawDevice) -> Result<Seq<(Seq<char>, DecodedValueView)>, Seq<u8>> {
    walk_levels(raw_levels_view(raw.levels@), Seq::empty())
}

/// The ghost view of decoded bindings.
pub open spec fn binds_view(
    attributes: Seq<(String, DecodedValue)>,
) -> Seq<(Seq<char>, DecodedValueView)> {
    attributes.map_values(|p: (String, DecodedValue)| (p.0@, p.1@))
}

/// What decoding a raw device yields when it succeeds.
pub open spec fn decoded_ok(raw: RawDevice, d: DecodedDevice) -> bool {
    &&& raw.subsystem matches Some(sb) && utf8_decode(sb@) == Some(d.subsystem@)
    &&& utf8_decode(raw.syspath@) == Some(d.syspath@)
    &&& raw.devnode matches Some(db) && utf8_decode(db@) == Some(d.devnode@)
    &&& spec_walk(raw) == Ok::<_, Seq<u8>>(binds_view(d.attributes@))
}

/// Exactly which error decoding a raw device reports, in the order the
/// checks are made: subsystem, then sysfs path, then devnode, then the
/// attribute walk.
pub open spec fn decoded_err(raw: RawDevice, e: UdevDeviceError) -> bool {
    if raw.subsystem is None {
        e == UdevDeviceError::NoSubsystem
    } else if utf8_decode(raw.subsystem->0@) is None {
        e matches UdevDeviceError::InvalidSubsystem { subsystem } && subsystem@ == raw.subsystem->0@
    } else if utf8_decode(raw.syspath@) is None {
        e matches UdevDeviceError::PathNotValidString { path_kind, value } && path_kind
            == PathKind::SysPath && value@ == raw.syspath@
    } else if raw.devnode is None {
        e == UdevDeviceError::NoDevNode
    } else if utf8_decode(raw.devnode->0@) is None {
        e matches UdevDeviceError::PathNotValidString { path_kind, value } && path_kind
            == PathKind::DevNode && value@ == raw.syspath@
    } else {
        spec_walk(raw) matches Err(name_b) && e matches UdevDeviceError::InvalidAttributeName {
            name,
        } && name@ == name_b
    }
}

/// True when decoding a raw device succeeds: everything needed is there
/// and decodes as UTF-8.
pub open spec fn raw_decodes(raw: RawDevice) -> bool {
    &&& raw.subsystem matches Some(sb) && utf8_decode(sb@) is Some
    &&& utf8_decode(raw.syspath@) is Some
    &&& raw.devnode matches Some(db) && utf8_decode(db@) is Some
    &&& spec_walk(raw) is Ok
}

impl DecodedDevice {
    /// Validates a raw device and walks its attribute hierarchy: paths,
    /// subsystem and attribute names must be UTF-8; each attribute name
    /// binds at the deepest level it occurs; empty values decode to
    /// `Empty` and non-UTF-8 values to `Invalid`.  Succeeds exactly on
    /// raw devices that decode, and reports the first failure otherwise.
    pub fn decode(raw: &RawDevice) -> (r: Result<DecodedDevice, UdevDeviceError>)
        ensures
            raw_decodes(*raw) <==> r is Ok,
            r matches Ok(d) ==> decoded_ok(*raw, d),
            r matches Err(e) ==> decoded_err(*raw, e),
    {
        let subsystem = match &raw.subsystem {
            None => {
                return Err(UdevDeviceError::NoSubsystem);
            },
            Some(sb) => match bytes_to_string(sb) {
                None => {
                    return Err(UdevDeviceError::InvalidSubsystem { subsystem: sb.clone() });
                },
                Some(s) => s,
            },
        };
        let syspath = match bytes_to_string(&raw.syspath) {
            None => {
                return Err(
                    UdevDeviceError::PathNotValidString {
                        path_kind: PathKind::SysPath,
                        value: raw.syspath.clone(),
                    },
                );
            },
            Some(s) => s,
        };
        let devnode = match &raw.devnode {
            None => {
                return Err(UdevDeviceError::NoDevNode);
            },
            Some(db) => match bytes_to_string(db) {
                None => {
                    return Err(
                        UdevDeviceError::PathNotValidString {
                            path_kind: PathKind::DevNode,
                            value: raw.syspath.clone(),
                        },
                    );
                },
                Some(s) => s,
            },
        };
        let attributes = match Self::walk(&raw.levels) {
            Ok(a) => a,
            Err(name) => {
                return Err(UdevDeviceError::InvalidAttributeName { name });
            },
        };
        Ok(DecodedDevice { subsystem, syspath, devnode, attributes })
    }

    /// The attribute walk over all levels, deepest first.
    fn walk(levels: &Vec<RawLevel>) -> (r: Result<Vec<(String, DecodedValue)>, Vec<u8>>)
        ensures
            match r {
                Ok(a) => walk_levels(raw_levels_view(levels@), Seq::empty()) == Ok::<
                    _,
                    Seq<u8>,
                >(binds_view(a@)),
                Err(name) => walk_levels(raw_levels_view(levels@), Seq::empty()) == Err::<
                    Seq<(Seq<char>, DecodedValueView)>,
                    _,
                >(name@),
            },
    {
        let mut acc: Vec<(String, DecodedValue)> = Vec::new();
        let n = levels.len();
        proof {
            assert(binds_view(acc@) =~= Seq::<(Seq<char>, DecodedValueView)>::empty());
            assert(raw_levels_view(levels@).skip(0) =~= raw_levels_view(levels@));
        }
        let mut li: usize = 0;
        loop
            invariant
                li <= n,
                n == levels@.len(),
                walk_levels(raw_levels_view(levels@), Seq::empty()) == walk_levels(
                    raw_levels_view(levels@).skip(li as int),
                    binds_view(acc@),
                ),
            decreases n - li,
        {
            if li == n {
                return Ok(acc);
            }
            assert(raw_levels_view(levels@).skip(li as int)[0] == raw_level_view(
                levels@[li as int],
            ));
            match Self::walk_one_level(&levels[li], &mut acc) {
                Ok(()) => {},
                Err(name) => {
                    return Err(name);
                },
            }
            proof {
                assert(raw_levels_view(levels@).skip(li as int).skip(1) =~= raw_levels_view(
                    levels@,
                ).skip(li + 1));
            }
            li += 1;
        }
    }

    /// Walks one level's attributes, extending the accumulated bindings.
    fn walk_one_level(level: &RawLevel, acc: &mut Vec<(String, DecodedValue)>) -> (r: Result<
        (),
        Vec<u8>,
    >)
        ensures
            match r {
                Ok(()) => walk_level(raw_level_view(*level), binds_view(old(acc)@)) == Ok::<
                    _,
                    Seq<u8>,
                >(binds_view(final(acc)@)),
                Err(name) => walk_level(raw_level_view(*level), binds_view(old(acc)@)) == Err::<
                    Seq<(Seq<char>, DecodedValueView)>,
                    _,
                >(name@),
            },
    {
        let n = level.attributes.len();
        proof {
            assert(raw_level_view(*level).skip(0) =~= raw_level_view(*level));
        }
        let mut ai: usize = 0;
        loop
            invariant
                ai <= n,
                n == level.attributes@.len(),
                walk_level(raw_level_view(*level), binds_view(old(acc)@)) == walk_level(
                    raw_level_view(*level).skip(ai as int),
                    binds_view(acc@),
                ),
            decreases n - ai,
        {
            if ai == n {
                return Ok(());
            }
            assert(raw_level_view(*level).skip(ai as int)[0] == raw_attr_view(
                level.attributes@[ai as int],
            ));
            let attr = &level.attributes[ai];
            let name = match bytes_to_string(&attr.name) {
                None => {
                    return Err(attr.name.clone());
                },
                Some(s) => s,
            };
            if let Some(vb) = &attr.value {
                if Self::binds_lookup(acc, &name).is_none() {
                    let ghost prev = acc@;
                    let value = match bytes_to_string(vb) {
                        None => DecodedValue::Invalid,
                        Some(s) => {
                            if s.unicode_len() == 0 {
                                DecodedValue::Empty
                            } else {
                                DecodedValue::Present(s)
                            }
                        },
                    };
                    assert(value@ == value_view(vb@));
                    acc.push((name, value));
                    proof {
                        assert(binds_view(acc@) =~= binds_view(prev).push(
                            binds_view(acc@).last(),
                        ));
                    }
                }
            }
            proof {
                assert(raw_level_view(*level).skip(ai as int).skip(1) =~= raw_level_view(
                    *level,
                ).skip(ai + 1));
            }
            ai += 1;
        }
    }

    /// The first decoded binding of `name`, if any.
    fn binds_lookup(acc: &Vec<(String, DecodedValue)>, name: &String) -> (r: Option<usize>)
        ensures
            match r {
                Some(i) => i < acc@.len() && acc@[i as int].0@ == name@ && bind_lookup(
                    binds_view(acc@),
                    name@,
                ) is Some,
                None => bind_lookup(binds_view(acc@), name@) is None,
            },
    {
        let n = acc.len();
        let mut i: usize = 0;
        proof {
            assert(binds_view(acc@).skip(0) =~= binds_view(acc@));
        }
        loop
            invariant
                i <= n,
                n == acc@.len(),
                bind_lookup(binds_view(acc@), name@) == bind_lookup(
                    binds_view(acc@).skip(i as int),
                    name@,
                ),
                forall|j: int| 0 <= j < i ==> binds_view(acc@)[j].0 != name@,
            decreases n - i,
        {
            if i == n {
                return None;
            }
            assert(binds_view(acc@).skip(i as int)[0] == binds_view(acc@)[i as int]);
            if acc[i].0 == *name {
                return Some(i);
            }
            proof {
                assert(binds_view(acc@).skip(i as int).skip(1) =~= binds_view(acc@).skip(i + 1));
            }
            i += 1;
        }
    }
}

} // verus!

use crate::intern::interner_extends;

verus! {

/// A canonical kernel device: interned identity and the inherited
/// attribute map.
#[derive(Clone, Debug)]
pub struct UdevDevice {
    pub id: InternedString,
    pub subsystem: InternedString,
    pub syspath: InternedString,
    pub devnode: InternedString,
    pub attributes: AttrMap,
}

/// No two decoded bindings carry the same name.
pub open spec fn distinct_binds(binds: Seq<(Seq<char>, DecodedValueView)>) -> bool {
    forall|i: int, j: int| 0 <= i < j < binds.len() ==> binds[i].0 != binds[j].0
}

/// A device's interned fields stand for the decoded device's strings
/// under the interner table `m`.
pub open spec fn device_represents(dev: UdevDevice, m: Seq<Seq<char>>, d: DecodedDevice) -> bool {
    &&& dev.id.key < m.len() && m[dev.id.key as int] == spec_device_id(d.syspath@)
    &&& dev.subsystem.key < m.len() && m[dev.subsystem.key as int] == d.subsystem@
    &&& dev.syspath.key < m.len() && m[dev.syspath.key as int] == d.syspath@
    &&& dev.devnode.key < m.len() && m[dev.devnode.key as int] == d.devnode@
    &&& dev.attributes@.len() == d.attributes@.len()
    &&& forall|i: int|
        0 <= i < dev.attributes@.len() ==> attr_represents(
            #[trigger] dev.attributes@[i],
            m,
            binds_view(d.attributes@)[i],
        )
}

/// One interned attribute binding stands for one decoded binding.
pub open spec fn attr_represents(
    a: (InternedString, AttributeValue),
    m: Seq<Seq<char>>,
    b: (Seq<char>, DecodedValueView),
) -> bool {
    &&& a.0.key < m.len() && m[a.0.key as int] == b.0
    &&& match b.1 {
        DecodedValueView::Present(s) => a.1 matches AttributeValue::Present(h) && h.key < m.len()
            && m[h.key as int] == s,
        DecodedValueView::Empty => a.1 == AttributeValue::Empty,
        DecodedValueView::Invalid => a.1 == AttributeValue::Invalid,
    }
}

impl UdevDevice {
    pub fn id(&self) -> (r: InternedString)
        ensures
            r == self.id,
    {
        self.id
    }

    pub fn subsystem(&self) -> (r: InternedString)
        ensures
            r == self.subsystem,
    {
        self.subsystem
    }

    pub fn syspath(&self) -> (r: InternedString)
        ensures
            r == self.syspath,
    {
        self.syspath
    }

    pub fn devnode(&self) -> (r: InternedString)
        ensures
            r == self.devnode,
    {
        self.devnode
    }

    /// The inherited value of one attribute, if the walk bound it.
    pub fn attribute(&self, name: InternedString) -> (r: Option<AttributeValue>)
        ensures
            r == crate::attrs::spec_lookup(self.attributes@, name),
    {
        self.attributes.lookup(name)
    }

    pub fn attributes(&self) -> (r: &AttrMap)
        ensures
            r == &self.attributes,
    {
        &self.attributes
    }

    /// Interns a decoded device's strings and computes its id.  The
    /// interner only grows, so handles held elsewhere stay valid.
    pub fn from_decoded(d: DecodedDevice, im: &mut Interner) -> (dev: UdevDevice)
        requires
            old(im).wf(),
            distinct_binds(binds_view(d.attributes@)),
        ensures
            final(im).wf(),
            interner_extends(final(im)@, old(im)@),
            device_represents(dev, final(im)@, d),
            dev.attributes.wf(),
            final(im)@[dev.id.key as int].len() == 12,
            forall|i: int|
                0 <= i < 12 ==> is_base64_char(#[trigger] final(im)@[dev.id.key as int][i]),
    {
        let id_string = device_id_string(d.syspath.as_str());
        let id = im.get_or_intern(id_string);
        let subsystem = im.get_or_intern(d.subsystem);
        let syspath = im.get_or_intern(d.syspath);
        let devnode = im.get_or_intern(d.devnode);
        let ghost dv = d.attributes@;
        let mut attributes = AttrMap::new();
        let n = d.attributes.len();
        let mut i: usize = 0;
        let attrs = d.attributes;
        while i < n
            invariant
                im.wf(),
                interner_extends(im@, old(im)@),
                i <= n,
                n == attrs@.len(),
                dv == attrs@,
                attrs@ == d.attributes@,
                distinct_binds(binds_view(attrs@)),
                attributes@.len() == i,
                id.key < im@.len() && im@[id.key as int] == spec_device_id(d.syspath@),
                subsystem.key < im@.len() && im@[subsystem.key as int] == d.subsystem@,
                syspath.key < im@.len() && im@[syspath.key as int] == d.syspath@,
                devnode.key < im@.len() && im@[devnode.key as int] == d.devnode@,
                forall|j: int|
                    0 <= j < i ==> attr_represents(
                        #[trigger] attributes@[j],
                        im@,
                        binds_view(attrs@)[j],
                    ),
                forall|j: int, k: int|
                    0 <= j < k < i ==> attributes@[j].0 != attributes@[k].0,
            decreases n - i,
        {
            let ghost im_before = im@;
            let p = &attrs[i];
            let name = p.0.clone();
            let ghost name_view = name@;
            let name_h = im.get_or_intern(name);
            let value_h = match &p.1 {
                DecodedValue::Present(s) => AttributeValue::Present(im.get_or_intern(s.clone())),
                DecodedValue::Empty => AttributeValue::Empty,
                DecodedValue::Invalid => AttributeValue::Invalid,
            };
            let ghost prev = attributes@;
            attributes.entries.push((name_h, value_h));
            proof {
                assert(attributes@ =~= prev.push((name_h, value_h)));
                assert(binds_view(attrs@)[i as int] == (attrs@[i as int].0@, attrs@[i as int].1@));
                assert(attr_represents((name_h, value_h), im@, binds_view(attrs@)[i as int]));
                assert forall|j: int, k: int| 0 <= j < k < i + 1 implies attributes@[j].0
                    != attributes@[k].0 by {
                    if k == i {
                        assert(attr_represents(attributes@[j], im@, binds_view(attrs@)[j]));
                        assert(im@[attributes@[j].0.key as int] == binds_view(attrs@)[j].0);
                        assert(im@[name_h.key as int] == name_view);
                        assert(binds_view(attrs@)[j].0 != binds_view(attrs@)[i as int].0);
                    }
                }
            }
            i += 1;
        }
        let dev = UdevDevice { id, subsystem, syspath, devnode, attributes };
        dev
    }

    /// Models a raw kernel device: validates and decodes it, walks the
    /// attribute hierarchy, interns the strings and derives the id.
    pub fn try_from_raw(raw: &RawDevice, im: &mut Interner) -> (r: Result<
        UdevDevice,
        UdevDeviceError,
    >)
        requires
            old(im).wf(),
        ensures
            final(im).wf(),
            interner_extends(final(im)@, old(im)@),
            (r is Ok) <==> raw_decodes(*raw),
            r matches Ok(dev) ==> exists|d: DecodedDevice|
                decoded_ok(*raw, d) && device_represents(dev, final(im)@, d)
                    && dev.attributes.wf(),
            r matches Ok(dev) ==> final(im)@[dev.id.key as int].len() == 12 && (forall|i: int|
                0 <= i < 12 ==> is_base64_char(#[trigger] final(im)@[dev.id.key as int][i])),
            r matches Err(e) ==> decoded_err(*raw, e),
    {
        match DecodedDevice::decode(raw) {
            Err(e) => Err(e),
            Ok(d) => {
                proof {
                    lemma_walk_levels_distinct(
                        raw_levels_view(raw.levels@),
                        Seq::empty(),
                    );
                }
                let ghost dg = d;
                let dev = UdevDevice::from_decoded(d, im);
                proof {
                    assert(decoded_ok(*raw, dg) && device_represents(dev, final(im)@, dg));
                }
                Ok(dev)
            },
        }
    }
}

/// The walk never binds one name twice within a level.
proof fn lemma_walk_level_distinct(
    attrs: Seq<(Seq<u8>, Option<Seq<u8>>)>,
    acc: Seq<(Seq<char>, DecodedValueView)>,
)
    requires
        distinct_binds(acc),
    ensures
        walk_level(attrs, acc) matches Ok(b) ==> distinct_binds(b),
    decreases attrs.len(),
{
    if attrs.len() > 0 {
        let (name_b, val) = attrs[0];
        match utf8_decode(name_b) {
            None => {},
            Some(name) => {
                let acc2 = match val {
                    None => acc,
                    Some(vb) => if bind_lookup(acc, name) is Some {
                        acc
                    } else {
                        acc.push((name, value_view(vb)))
                    },
                };
                if val is Some && bind_lookup(acc, name) is None {
                    lemma_bind_lookup_absent(acc, name);
                }
                lemma_walk_level_distinct(attrs.skip(1), acc2);
            },
        }
    }
}

/// The walk never binds one name twice across levels.
proof fn lemma_walk_levels_distinct(
    levels: Seq<Seq<(Seq<u8>, Option<Seq<u8>>)>>,
    acc: Seq<(Seq<char>, DecodedValueView)>,
)
    requires
        distinct_binds(acc),
    ensures
        walk_levels(levels, acc) matches Ok(b) ==> distinct_binds(b),
    decreases levels.len(),
{
    if levels.len() > 0 {
        lemma_walk_level_distinct(levels[0], acc);
        match walk_level(levels[0], acc) {
            Err(_) => {},
            Ok(acc2) => {
                lemma_walk_levels_distinct(levels.skip(1), acc2);
            },
        }
    }
}

/// A name with no binding can be pushed without breaking distinctness.
proof fn lemma_bind_lookup_absent(binds: Seq<(Seq<char>, DecodedValueView)>, name: Seq<char>)
    requires
        bind_lookup(binds, name) is None,
    ensures
        forall|i: int| 0 <= i < binds.len() ==> binds[i].0 != name,
    decreases binds.len(),
{
    if binds.len() > 0 {
        lemma_bind_lookup_absent(binds.skip(1), name);
        assert forall|i: int| 0 <= i < binds.len() implies binds[i].0 != name by {
            if i > 0 {
                assert(binds.skip(1)[i - 1] == binds[i]);
            }
        }
    }
}

/// A kernel hot-plug event, carrying the device it concerns.
#[derive(Clone, Debug)]
pub enum UdevEvent {
    Add(UdevDevice),
    Change(UdevDevice),
    Remove(UdevDevice),
    Bind(UdevDevice),
    Unbind(UdevDevice),
    Unknown(UdevDevice),
}

impl UdevEvent {
    /// The device the event concerns.
    pub open spec fn spec_device(self) -> UdevDevice {
        match self {
            UdevEvent::Add(d) => d,
            UdevEvent::Change(d) => d,
            UdevEvent::Remove(d) => d,
            UdevEvent::Bind(d) => d,
            UdevEvent::Unbind(d) => d,
            UdevEvent::Unknown(d) => d,
        }
    }

    /// The device the event concerns.
    pub fn device(&self) -> (r: &UdevDevice)
        ensures
            *r == self.spec_device(),
    {
        match self {
            UdevEvent::Add(d) => d,
            UdevEvent::Change(d) => d,
            UdevEvent::Remove(d) => d,
            UdevEvent::Bind(d) => d,
            UdevEvent::Unbind(d) => d,
            UdevEvent::Unknown(d) => d,
        }
    }
}

} // verus!

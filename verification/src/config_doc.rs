//! The configuration schema: reading a configuration out of a document
//! tree, and writing one back.
//!
//! The schema follows the serialized form: a top-level table with
//! `devices` and `deviceClasses` lists; device types with `name`,
//! `subsystem`, optional `access`, `labels` and a `selector` holding the
//! flat `matchAttributes` map and `matchExpressions`; device classes
//! with `subsystem`, `name`, `target` and a `selector` holding
//! `matchLabels` and `matchExpressions`.  Unknown fields are ignored,
//! duplicated fields are an error, and flat maps are stored in
//! key-sorted order.

use vstd::prelude::*;

use crate::access::DeviceAccess;
use crate::doc::{doc_view, entries_view, DocValue, DocView};
use crate::strutil::lex_lt;

verus! {

/// Ghost form of a parsed requirement, before interning.
pub ghost enum RawValueReq {
    In(Seq<Seq<char>>),
    NotIn(Seq<Seq<char>>),
    Exists,
    DoesNotExist,
}

/// Ghost form of a parsed selector requirement, before interning.
pub ghost struct RawReqView {
    pub key: Seq<char>,
    pub vr: RawValueReq,
}

/// Ghost form of a parsed selector, before interning.
pub ghost struct RawSelView {
    pub flat: Option<Seq<(Seq<char>, Seq<char>)>>,
    pub exprs: Option<Seq<RawReqView>>,
}

/// Ghost form of a parsed device type, before interning.
pub ghost struct RawTypeView {
    pub name: Seq<char>,
    pub subsystem: Seq<char>,
    pub access: DeviceAccess,
    pub labels: Seq<(Seq<char>, Seq<char>)>,
    pub selector: RawSelView,
}

/// Ghost form of a parsed device class, before interning.
pub ghost struct RawClassView {
    pub subsystem: Seq<char>,
    pub name: Seq<char>,
    pub target: Seq<char>,
    pub selector: RawSelView,
}

/// Ghost form of a parsed configuration, before interning.
pub ghost struct RawConfigView {
    pub types: Seq<RawTypeView>,
    pub classes: Seq<RawClassView>,
}

/// How often `name` keys an entry of a table.
pub open spec fn count_key(es: Seq<(Seq<char>, DocView)>, name: Seq<char>) -> nat
    decreases es.len(),
{
    if es.len() == 0 {
        0
    } else {
        (if es[0].0 == name {
            1nat
        } else {
            0nat
        }) + count_key(es.skip(1), name)
    }
}

/// The first entry keyed `name`, if any.
pub open spec fn get_key(es: Seq<(Seq<char>, DocView)>, name: Seq<char>) -> Option<DocView>
    decreases es.len(),
{
    if es.len() == 0 {
        None
    } else if es[0].0 == name {
        Some(es[0].1)
    } else {
        get_key(es.skip(1), name)
    }
}

/// A known field: present at most once; ignored when absent.
pub open spec fn spec_field(es: Seq<(Seq<char>, DocView)>, name: Seq<char>) -> Option<
    Option<DocView>,
> {
    if count_key(es, name) >= 2 {
        None
    } else {
        Some(get_key(es, name))
    }
}

/// An access policy: absent means exclusive; `"exclusive"` or an
/// integer in `1 ..= 255`; the integer `1` reads as exclusive.
pub open spec fn spec_access(o: Option<DocView>) -> Option<DeviceAccess> {
    match o {
        None => Some(DeviceAccess::Exclusive),
        Some(DocView::Str(s)) => if s == "exclusive"@ {
            Some(DeviceAccess::Exclusive)
        } else {
            None
        },
        Some(DocView::Int(n)) => if n == 1 {
            Some(DeviceAccess::Exclusive)
        } else if 2 <= n <= 255 {
            Some(DeviceAccess::AtMost(n as u8))
        } else {
            None
        },
        Some(_) => None,
    }
}

/// The string entries of a flat map document: every value must be a
/// string.
pub open spec fn spec_str_entries(es: Seq<(Seq<char>, DocView)>) -> Option<
    Seq<(Seq<char>, Seq<char>)>,
>
    decreases es.len(),
{
    if es.len() == 0 {
        Some(Seq::empty())
    } else {
        match es[0].1 {
            DocView::Str(v) => match spec_str_entries(es.skip(1)) {
                Some(rest) => Some(seq![(es[0].0, v)] + rest),
                None => None,
            },
            _ => None,
        }
    }
}

/// No two entries share a key.
pub open spec fn spec_keys_unique(ps: Seq<(Seq<char>, Seq<char>)>) -> bool {
    forall|i: int, j: int| 0 <= i < j < ps.len() ==> (#[trigger] ps[i]).0 != (#[trigger] ps[j]).0
}

/// Inserts a pair before the first entry with a greater key.
pub open spec fn sorted_insert_pair(
    ps: Seq<(Seq<char>, Seq<char>)>,
    p: (Seq<char>, Seq<char>),
) -> Seq<(Seq<char>, Seq<char>)>
    decreases ps.len(),
{
    if ps.len() == 0 {
        seq![p]
    } else if lex_lt(p.0, ps[0].0) {
        seq![p] + ps
    } else {
        seq![ps[0]] + sorted_insert_pair(ps.skip(1), p)
    }
}

/// The entries sorted by key, by repeated sorted insertion in order.
pub open spec fn spec_sort_pairs(ps: Seq<(Seq<char>, Seq<char>)>) -> Seq<(Seq<char>, Seq<char>)>
    decreases ps.len(),
{
    if ps.len() == 0 {
        Seq::empty()
    } else {
        sorted_insert_pair(spec_sort_pairs(ps.drop_last()), ps.last())
    }
}

/// A flat string map: a table of string values with unique keys, stored
/// in key-sorted order.
pub open spec fn spec_str_map(d: DocView) -> Option<Seq<(Seq<char>, Seq<char>)>> {
    match d {
        DocView::Table(es) => match spec_str_entries(es) {
            Some(ps) => if spec_keys_unique(ps) {
                Some(spec_sort_pairs(ps))
            } else {
                None
            },
            None => None,
        },
        _ => None,
    }
}

/// A list of strings.
pub open spec fn spec_str_list(vs: Seq<DocView>) -> Option<Seq<Seq<char>>>
    decreases vs.len(),
{
    if vs.len() == 0 {
        Some(Seq::empty())
    } else {
        match vs[0] {
            DocView::Str(s) => match spec_str_list(vs.skip(1)) {
                Some(rest) => Some(seq![s] + rest),
                None => None,
            },
            _ => None,
        }
    }
}

/// One selector requirement: a `key`, an `operator`, and `values`
/// exactly when the operator is `In` or `NotIn`.
pub open spec fn spec_req(d: DocView) -> Option<RawReqView> {
    match d {
        DocView::Table(es) => match (
            spec_field(es, "key"@),
            spec_field(es, "operator"@),
            spec_field(es, "values"@),
        ) {
            (Some(Some(DocView::Str(key))), Some(Some(DocView::Str(op))), Some(values)) => {
                if op == "In"@ || op == "NotIn"@ {
                    match values {
                        Some(DocView::List(vs)) => match spec_str_list(vs) {
                            Some(ss) => Some(
                                RawReqView {
                                    key,
                                    vr: if op == "In"@ {
                                        RawValueReq::In(ss)
                                    } else {
                                        RawValueReq::NotIn(ss)
                                    },
                                },
                            ),
                            None => None,
                        },
                        _ => None,
                    }
                } else if op == "Exists"@ {
                    match values {
                        None => Some(RawReqView { key, vr: RawValueReq::Exists }),
                        Some(_) => None,
                    }
                } else if op == "DoesNotExist"@ {
                    match values {
                        None => Some(RawReqView { key, vr: RawValueReq::DoesNotExist }),
                        Some(_) => None,
                    }
                } else {
                    None
                }
            },
            _ => None,
        },
        _ => None,
    }
}

/// A list of requirements, in declared order.
pub open spec fn spec_reqs(vs: Seq<DocView>) -> Option<Seq<RawReqView>>
    decreases vs.len(),
{
    if vs.len() == 0 {
        Some(Seq::empty())
    } else {
        match (spec_req(vs[0]), spec_reqs(vs.skip(1))) {
            (Some(q), Some(rest)) => Some(seq![q] + rest),
            _ => None,
        }
    }
}

/// A selector table: the optional flat map under `flat_key` and the
/// optional `matchExpressions` list.
pub open spec fn spec_selector(d: DocView, flat_key: Seq<char>) -> Option<RawSelView> {
    match d {
        DocView::Table(es) => match (spec_field(es, flat_key), spec_field(
            es,
            "matchExpressions"@,
        )) {
            (Some(flat_doc), Some(exprs_doc)) => {
                let flat = match flat_doc {
                    None => Some(None),
                    Some(fd) => match spec_str_map(fd) {
                        Some(ps) => Some(Some(ps)),
                        None => None,
                    },
                };
                let exprs = match exprs_doc {
                    None => Some(None),
                    Some(DocView::List(vs)) => match spec_reqs(vs) {
                        Some(qs) => Some(Some(qs)),
                        None => None,
                    },
                    Some(_) => None,
                };
                match (flat, exprs) {
                    (Some(f), Some(e)) => Some(RawSelView { flat: f, exprs: e }),
                    _ => None,
                }
            },
            _ => None,
        },
        _ => None,
    }
}

/// One device type.
pub open spec fn spec_type(d: DocView) -> Option<RawTypeView> {
    match d {
        DocView::Table(es) => match (
            spec_field(es, "name"@),
            spec_field(es, "subsystem"@),
            spec_field(es, "access"@),
            spec_field(es, "labels"@),
            spec_field(es, "selector"@),
        ) {
            (
                Some(Some(DocView::Str(name))),
                Some(Some(DocView::Str(subsystem))),
                Some(access_doc),
                Some(Some(labels_doc)),
                Some(Some(selector_doc)),
            ) => {
                match (
                    spec_access(access_doc),
                    spec_str_map(labels_doc),
                    spec_selector(selector_doc, "matchAttributes"@),
                ) {
                    (Some(access), Some(labels), Some(selector)) => Some(
                        RawTypeView { name, subsystem, access, labels, selector },
                    ),
                    _ => None,
                }
            },
            _ => None,
        },
        _ => None,
    }
}

/// One device class.
pub open spec fn spec_class(d: DocView) -> Option<RawClassView> {
    match d {
        DocView::Table(es) => match (
            spec_field(es, "subsystem"@),
            spec_field(es, "name"@),
            spec_field(es, "target"@),
            spec_field(es, "selector"@),
        ) {
            (
                Some(Some(DocView::Str(subsystem))),
                Some(Some(DocView::Str(name))),
                Some(Some(DocView::Str(target))),
                Some(Some(selector_doc)),
            ) => {
                match spec_selector(selector_doc, "matchLabels"@) {
                    Some(selector) => Some(RawClassView { subsystem, name, target, selector }),
                    None => None,
                }
            },
            _ => None,
        },
        _ => None,
    }
}

/// A list of device types.
pub open spec fn spec_types(vs: Seq<DocView>) -> Option<Seq<RawTypeView>>
    decreases vs.len(),
{
    if vs.len() == 0 {
        Some(Seq::empty())
    } else {
        match (spec_type(vs[0]), spec_types(vs.skip(1))) {
            (Some(t), Some(rest)) => Some(seq![t] + rest),
            _ => None,
        }
    }
}

/// A list of device classes.
pub open spec fn spec_classes(vs: Seq<DocView>) -> Option<Seq<RawClassView>>
    decreases vs.len(),
{
    if vs.len() == 0 {
        Some(Seq::empty())
    } else {
        match (spec_class(vs[0]), spec_classes(vs.skip(1))) {
            (Some(c), Some(rest)) => Some(seq![c] + rest),
            _ => None,
        }
    }
}

/// The whole configuration: a table with the required `devices` and
/// `deviceClasses` lists.
pub open spec fn spec_config(d: DocView) -> Option<RawConfigView> {
    match d {
        DocView::Table(es) => match (spec_field(es, "devices"@), spec_field(
            es,
            "deviceClasses"@,
        )) {
            (Some(Some(DocView::List(tvs))), Some(Some(DocView::List(cvs)))) => {
                match (spec_types(tvs), spec_classes(cvs)) {
                    (Some(ts), Some(cs)) => Some(RawConfigView { types: ts, classes: cs }),
                    _ => None,
                }
            },
            _ => None,
        },
        _ => None,
    }
}

/// No two device types and no two device classes share a name: the
/// registries are keyed by name, so a configuration may bind each name
/// only once.
pub open spec fn config_names_unique(rc: RawConfigView) -> bool {
    (forall|i: int, j: int|
        0 <= i < j < rc.types.len() ==> (#[trigger] rc.types[i]).name != (
        #[trigger] rc.types[j]).name) && (forall|i: int, j: int|
        0 <= i < j < rc.classes.len() ==> (#[trigger] rc.classes[i]).name != (
        #[trigger] rc.classes[j]).name)
}

} // verus!

use crate::config::{DeviceTypeView, DeviceClassView};
use crate::intern::{interner_extends, Interner, InternedString};
use crate::parse::SchemaError;
use crate::selector::{ReqView, SelectorView, ValueReqView};
use crate::strutil::str_lt;

verus! {

/// The entry views of a table line up with the entries.
pub proof fn lemma_entries_view(s: Seq<(String, DocValue)>)
    ensures
        entries_view(s).len() == s.len(),
        forall|i: int|
            0 <= i < s.len() ==> #[trigger] entries_view(s)[i] == (s[i].0@, doc_view(s[i].1)),
    decreases s.len(),
{
    if s.len() > 0 {
        lemma_entries_view(s.skip(1));
        assert forall|i: int| 0 <= i < s.len() implies #[trigger] entries_view(s)[i] == (
            s[i].0@,
            doc_view(s[i].1),
        ) by {
            if i > 0 {
                assert(entries_view(s)[i] == entries_view(s.skip(1))[i - 1]);
                assert(s.skip(1)[i - 1] == s[i]);
            }
        }
    }
}

/// The element views of a list line up with the elements.
pub proof fn lemma_docs_view(s: Seq<DocValue>)
    ensures
        crate::doc::docs_view(s).len() == s.len(),
        forall|i: int|
            0 <= i < s.len() ==> #[trigger] crate::doc::docs_view(s)[i] == doc_view(s[i]),
    decreases s.len(),
{
    if s.len() > 0 {
        lemma_docs_view(s.skip(1));
        assert forall|i: int| 0 <= i < s.len() implies #[trigger] crate::doc::docs_view(s)[i]
            == doc_view(s[i]) by {
            if i > 0 {
                assert(crate::doc::docs_view(s)[i] == crate::doc::docs_view(s.skip(1))[i - 1]);
                assert(s.skip(1)[i - 1] == s[i]);
            }
        }
    }
}

/// The handle stands for the string under the interner table `m`.
pub open spec fn rep_str(h: InternedString, m: Seq<Seq<char>>, s: Seq<char>) -> bool {
    h.key < m.len() && m[h.key as int] == s
}

/// Handle pairs stand for string pairs, pointwise.
pub open spec fn rep_pairs(
    ps: Seq<(InternedString, InternedString)>,
    m: Seq<Seq<char>>,
    rs: Seq<(Seq<char>, Seq<char>)>,
) -> bool {
    ps.len() == rs.len() && forall|i: int|
        0 <= i < ps.len() ==> rep_str((#[trigger] ps[i]).0, m, rs[i].0) && rep_str(
            ps[i].1,
            m,
            rs[i].1,
        )
}

/// Handle lists stand for string lists, pointwise.
pub open spec fn rep_strs(vs: Seq<InternedString>, m: Seq<Seq<char>>, ss: Seq<Seq<char>>) -> bool {
    vs.len() == ss.len() && forall|i: int| 0 <= i < vs.len() ==> rep_str(#[trigger] vs[i], m, ss[i])
}

/// An interned requirement stands for a raw requirement.
pub open spec fn rep_req(q: ReqView, m: Seq<Seq<char>>, rq: RawReqView) -> bool {
    rep_str(q.key, m, rq.key) && match (q.value_requirement, rq.vr) {
        (ValueReqView::In(vs), RawValueReq::In(ss)) => rep_strs(vs, m, ss),
        (ValueReqView::NotIn(vs), RawValueReq::NotIn(ss)) => rep_strs(vs, m, ss),
        (ValueReqView::Exists, RawValueReq::Exists) => true,
        (ValueReqView::DoesNotExist, RawValueReq::DoesNotExist) => true,
        _ => false,
    }
}

/// Interned requirements stand for raw requirements, pointwise.
pub open spec fn rep_reqs(qs: Seq<ReqView>, m: Seq<Seq<char>>, rqs: Seq<RawReqView>) -> bool {
    qs.len() == rqs.len() && forall|i: int| 0 <= i < qs.len() ==> rep_req(#[trigger] qs[i], m, rqs[i])
}

/// An interned selector stands for a raw selector.
pub open spec fn rep_sel(sv: SelectorView, m: Seq<Seq<char>>, rs: RawSelView) -> bool {
    (match (sv.flat, rs.flat) {
        (Some(ps), Some(rps)) => rep_pairs(ps, m, rps),
        (None, None) => true,
        _ => false,
    }) && (match (sv.expressions, rs.exprs) {
        (Some(qs), Some(rqs)) => rep_reqs(qs, m, rqs),
        (None, None) => true,
        _ => false,
    })
}

/// An interned device type stands for a raw device type.
pub open spec fn rep_type(t: DeviceTypeView, m: Seq<Seq<char>>, rt: RawTypeView) -> bool {
    &&& rep_str(t.name, m, rt.name)
    &&& rep_str(t.subsystem, m, rt.subsystem)
    &&& t.access == rt.access
    &&& rep_pairs(t.labels, m, rt.labels)
    &&& rep_sel(t.selector, m, rt.selector)
}

/// An interned device class stands for a raw device class.
pub open spec fn rep_class(c: DeviceClassView, m: Seq<Seq<char>>, rc: RawClassView) -> bool {
    &&& rep_str(c.subsystem, m, rc.subsystem)
    &&& rep_str(c.name, m, rc.name)
    &&& rep_str(c.target, m, rc.target)
    &&& rep_sel(c.selector, m, rc.selector)
}

/// An interned configuration stands for a raw configuration.
pub open spec fn rep_config(c: crate::config::Config, m: Seq<Seq<char>>, rc: RawConfigView) -> bool {
    &&& c.device_types@.len() == rc.types.len()
    &&& forall|i: int|
        0 <= i < c.device_types@.len() ==> rep_type(
            (#[trigger] c.device_types@[i])@,
            m,
            rc.types[i],
        )
    &&& c.device_classes@.len() == rc.classes.len()
    &&& forall|i: int|
        0 <= i < c.device_classes@.len() ==> rep_class(
            (#[trigger] c.device_classes@[i])@,
            m,
            rc.classes[i],
        )
}

/// Representation survives growing the interner.
pub proof fn lemma_rep_sel_extends(
    sv: SelectorView,
    m1: Seq<Seq<char>>,
    m2: Seq<Seq<char>>,
    rs: RawSelView,
)
    requires
        rep_sel(sv, m1, rs),
        interner_extends(m2, m1),
    ensures
        rep_sel(sv, m2, rs),
{
}

/// Representation survives growing the interner.
pub proof fn lemma_rep_type_extends(
    t: DeviceTypeView,
    m1: Seq<Seq<char>>,
    m2: Seq<Seq<char>>,
    rt: RawTypeView,
)
    requires
        rep_type(t, m1, rt),
        interner_extends(m2, m1),
    ensures
        rep_type(t, m2, rt),
{
    lemma_rep_sel_extends(t.selector, m1, m2, rt.selector);
}

/// Representation survives growing the interner.
pub proof fn lemma_rep_class_extends(
    c: DeviceClassView,
    m1: Seq<Seq<char>>,
    m2: Seq<Seq<char>>,
    rc: RawClassView,
)
    requires
        rep_class(c, m1, rc),
        interner_extends(m2, m1),
    ensures
        rep_class(c, m2, rc),
{
    lemma_rep_sel_extends(c.selector, m1, m2, rc.selector);
}

/// Looks a known field up in a table: at most one entry may carry the
/// name; an absent field reads as nothing; unknown names are ignored.
fn table_field<'a>(es: &'a Vec<(String, DocValue)>, name: &str) -> (r: Result<
    Option<&'a DocValue>,
    (),
>)
    ensures
        match r {
            Err(()) => spec_field(entries_view(es@), name@) is None,
            Ok(o) => match o {
                None => spec_field(entries_view(es@), name@) == Some(None::<DocView>),
                Some(d) => spec_field(entries_view(es@), name@) == Some(Some(doc_view(*d))),
            },
        },
{
    proof {
        lemma_entries_view(es@);
    }
    let ghost ev = entries_view(es@);
    let needle = String::from_str(name);
    let n = es.len();
    let mut count: usize = 0;
    let mut found: Option<usize> = None;
    proof {
        assert(ev.skip(0) =~= ev);
    }
    let mut i: usize = 0;
    while i < n
        invariant
            i <= n,
            n == es@.len(),
            ev == entries_view(es@),
            ev.len() == n,
            needle@ == name@,
            forall|j: int|
                0 <= j < n ==> #[trigger] ev[j] == (es@[j].0@, doc_view(es@[j].1)),
            count_key(ev, name@) == count + count_key(ev.skip(i as int), name@),
            count <= i,
            match found {
                Some(f) => count >= 1 && f < i && ev[f as int].0 == name@ && get_key(ev, name@)
                    == Some(ev[f as int].1),
                None => count == 0 && get_key(ev, name@) == get_key(ev.skip(i as int), name@),
            },
        decreases n - i,
    {
        proof {
            assert(ev.skip(i as int)[0] == ev[i as int]);
            assert(ev.skip(i as int).skip(1) =~= ev.skip(i + 1));
        }
        if es[i].0 == needle {
            count += 1;
            if found.is_none() {
                found = Some(i);
            }
        }
        i += 1;
    }
    proof {
        assert(ev.skip(n as int) =~= Seq::<(Seq<char>, DocView)>::empty());
    }
    if count >= 2 {
        Err(())
    } else {
        match found {
            None => Ok(None),
            Some(f) => {
                let d = &es[f].1;
                proof {
                    assert(doc_view(*d) == ev[f as int].1);
                }
                Ok(Some(d))
            },
        }
    }
}

} // verus!

verus! {

/// Reads an access policy.
fn parse_access(o: Option<&DocValue>) -> (r: Result<DeviceAccess, SchemaError>)
    ensures
        match r {
            Ok(a) => spec_access(
                match o {
                    Some(d) => Some(doc_view(*d)),
                    None => None,
                },
            ) == Some(a) && a.wf(),
            Err(_) => spec_access(
                match o {
                    Some(d) => Some(doc_view(*d)),
                    None => None,
                },
            ) is None,
        },
{
    proof {
        reveal_strlit("exclusive");
    }
    match o {
        None => Ok(DeviceAccess::Exclusive),
        Some(DocValue::Str(s)) => {
            if *s == String::from_str("exclusive") {
                Ok(DeviceAccess::Exclusive)
            } else {
                Err(SchemaError::InvalidValue(String::from_str("access")))
            }
        },
        Some(DocValue::Int(n)) => {
            if *n == 1 {
                Ok(DeviceAccess::Exclusive)
            } else if 2 <= *n && *n <= 255 {
                Ok(DeviceAccess::AtMost(*n as u8))
            } else {
                Err(SchemaError::InvalidValue(String::from_str("access")))
            }
        },
        Some(_) => Err(SchemaError::InvalidValue(String::from_str("access"))),
    }
}

/// The string-pair views of collected entries.
pub open spec fn str_pairs_view(ps: Seq<(String, String)>) -> Seq<(Seq<char>, Seq<char>)> {
    ps.map_values(|p: (String, String)| (p.0@, p.1@))
}

/// Collects the entries of a flat map, requiring every value to be a
/// string.
fn collect_str_entries(es: &Vec<(String, DocValue)>) -> (r: Result<Vec<(String, String)>, ()>)
    ensures
        match r {
            Ok(ps) => spec_str_entries(entries_view(es@)) == Some(str_pairs_view(ps@)),
            Err(()) => spec_str_entries(entries_view(es@)) is None,
        },
{
    proof {
        lemma_entries_view(es@);
    }
    let ghost ev = entries_view(es@);
    let mut acc: Vec<(String, String)> = Vec::new();
    let n = es.len();
    proof {
        assert(ev.skip(0) =~= ev);
        assert(str_pairs_view(acc@) =~= Seq::<(Seq<char>, Seq<char>)>::empty());
    }
    let mut i: usize = 0;
    while i < n
        invariant
            i <= n,
            n == es@.len(),
            ev == entries_view(es@),
            ev.len() == n,
            forall|j: int| 0 <= j < n ==> #[trigger] ev[j] == (es@[j].0@, doc_view(es@[j].1)),
            str_pairs_view(acc@).len() == acc@.len(),
            spec_str_entries(ev) == match spec_str_entries(ev.skip(i as int)) {
                Some(rest) => Some(str_pairs_view(acc@) + rest),
                None => None::<Seq<(Seq<char>, Seq<char>)>>,
            },
        decreases n - i,
    {
        proof {
            assert(ev.skip(i as int)[0] == ev[i as int]);
            assert(ev.skip(i as int).skip(1) =~= ev.skip(i + 1));
        }
        let p = &es[i];
        match &p.1 {
            DocValue::Str(v) => {
                let ghost before = acc@;
                acc.push((p.0.clone(), v.clone()));
                proof {
                    assert(str_pairs_view(acc@).len() == acc@.len());
                    assert(str_pairs_view(acc@) =~= str_pairs_view(before).push(
                        (es@[i as int].0@, v@),
                    ));
                    if spec_str_entries(ev.skip(i + 1)) is Some {
                        assert(str_pairs_view(acc@) + spec_str_entries(ev.skip(i + 1))->0
                            =~= str_pairs_view(before) + spec_str_entries(ev.skip(i as int))->0);
                    }
                }
            },
            _ => {
                return Err(());
            },
        }
        i += 1;
    }
    proof {
        assert(ev.skip(n as int) =~= Seq::<(Seq<char>, DocView)>::empty());
        assert(spec_str_entries(ev.skip(n as int)) == Some(
            Seq::<(Seq<char>, Seq<char>)>::empty(),
        ));
        assert(str_pairs_view(acc@) + Seq::<(Seq<char>, Seq<char>)>::empty() =~= str_pairs_view(
            acc@,
        ));
    }
    Ok(acc)
}

/// Whether any two entries share a key; returns a shared key when so.
fn find_dup_key(ps: &Vec<(String, String)>) -> (r: Option<String>)
    ensures
        match r {
            Some(_) => !spec_keys_unique(str_pairs_view(ps@)),
            None => spec_keys_unique(str_pairs_view(ps@)),
        },
{
    let n = ps.len();
    proof {
        assert(str_pairs_view(ps@).len() == ps@.len());
    }
    let mut i: usize = 0;
    while i < n
        invariant
            i <= n,
            n == ps@.len(),
            forall|a: int, b: int|
                0 <= a < b < ps@.len() && a < i ==> (#[trigger] str_pairs_view(ps@)[a]).0 != (
                #[trigger] str_pairs_view(ps@)[b]).0,
        decreases n - i,
    {
        let mut j: usize = i + 1;
        while j < n
            invariant
                i < j <= n || (i + 1 == j && j > n),
                i < n,
                n == ps@.len(),
                forall|b: int|
                    i < b < j ==> (#[trigger] str_pairs_view(ps@)[b]).0 != str_pairs_view(
                        ps@,
                    )[i as int].0,
            decreases n - j,
        {
            if ps[i].0 == ps[j].0 {
                proof {
                    assert(str_pairs_view(ps@)[i as int].0 == ps@[i as int].0@);
                    assert(str_pairs_view(ps@)[j as int].0 == ps@[j as int].0@);
                }
                return Some(ps[i].0.clone());
            }
            proof {
                assert(str_pairs_view(ps@)[j as int].0 == ps@[j as int].0@);
                assert(str_pairs_view(ps@)[i as int].0 == ps@[i as int].0@);
            }
            j += 1;
        }
        i += 1;
    }
    None
}

/// Sorts collected entries by key.
fn sort_str_pairs(ps: Vec<(String, String)>) -> (r: Vec<(String, String)>)
    ensures
        str_pairs_view(r@) == spec_sort_pairs(str_pairs_view(ps@)),
{
    let ghost pv = str_pairs_view(ps@);
    let mut sorted: Vec<(String, String)> = Vec::new();
    let n = ps.len();
    let mut ps = ps;
    proof {
        assert(str_pairs_view(ps@).len() == ps@.len());
        assert(pv.take(0) =~= Seq::<(Seq<char>, Seq<char>)>::empty());
        assert(str_pairs_view(sorted@) =~= spec_sort_pairs(pv.take(0)));
    }
    let mut i: usize = 0;
    while i < n
        invariant
            i <= n,
            n == pv.len(),
            ps@.len() == n - i,
            str_pairs_view(ps@) == pv.skip(i as int),
            str_pairs_view(sorted@) == spec_sort_pairs(pv.take(i as int)),
        decreases n - i,
    {
        let p = ps.remove(0);
        proof {
            assert(str_pairs_view(ps@.insert(0, p)).len() == ps@.len() + 1);
            assert(str_pairs_view(ps@.insert(0, p))[0] == (p.0@, p.1@));
            assert((p.0@, p.1@) == pv.skip(i as int)[0]);
            assert(pv.skip(i as int)[0] == pv[i as int]);
            assert forall|j: int| 0 <= j < ps@.len() implies #[trigger] str_pairs_view(ps@)[j]
                == pv.skip(i + 1)[j] by {
                assert(str_pairs_view(ps@)[j] == (ps@[j].0@, ps@[j].1@));
                assert(str_pairs_view(ps@.insert(0, p))[j + 1] == (ps@[j].0@, ps@[j].1@));
                assert(pv.skip(i as int)[j + 1] == pv.skip(i + 1)[j]);
            }
            assert(str_pairs_view(ps@) =~= pv.skip(i + 1));
        }
        let ghost sv = str_pairs_view(sorted@);
        let m = sorted.len();
        proof {
            assert(str_pairs_view(sorted@).len() == sorted@.len());
            assert(sv.skip(0) =~= sv);
            assert(sv.take(0) + sorted_insert_pair(sv.skip(0), (p.0@, p.1@))
                =~= sorted_insert_pair(sv, (p.0@, p.1@)));
        }
        let mut j: usize = 0;
        while j < m && !str_lt(p.0.as_str(), sorted[j].0.as_str())
            invariant
                j <= m,
                m == sv.len(),
                m == sorted@.len(),
                sv == str_pairs_view(sorted@),
                forall|a: int|
                    0 <= a < sorted@.len() ==> #[trigger] sv[a] == (
                        sorted@[a].0@,
                        sorted@[a].1@,
                    ),
                sorted_insert_pair(sv, (p.0@, p.1@)) == sv.take(j as int) + sorted_insert_pair(
                    sv.skip(j as int),
                    (p.0@, p.1@),
                ),
            decreases m - j,
        {
            proof {
                assert(sv.skip(j as int)[0] == sv[j as int]);
                assert(sv.skip(j as int).skip(1) =~= sv.skip(j + 1));
                assert(seq![sv[j as int]] + sorted_insert_pair(sv.skip(j + 1), (p.0@, p.1@))
                    == sorted_insert_pair(sv.skip(j as int), (p.0@, p.1@)));
                assert(sv.take(j + 1) =~= sv.take(j as int) + seq![sv[j as int]]);
                assert(sv.take(j as int) + (seq![sv[j as int]] + sorted_insert_pair(
                    sv.skip(j + 1),
                    (p.0@, p.1@),
                )) =~= sv.take(j + 1) + sorted_insert_pair(sv.skip(j + 1), (p.0@, p.1@)));
            }
            j += 1;
        }
        let ghost before = sorted@;
        sorted.insert(j, p);
        proof {
            assert(sorted@ =~= before.insert(j as int, p));
            if j < m {
                assert(sv.skip(j as int)[0] == sv[j as int]);
                assert(sorted_insert_pair(sv.skip(j as int), (p.0@, p.1@)) =~= seq![(p.0@, p.1@)]
                    + sv.skip(j as int));
            } else {
                assert(sv.skip(j as int) =~= Seq::<(Seq<char>, Seq<char>)>::empty());
                assert(sorted_insert_pair(sv.skip(j as int), (p.0@, p.1@)) =~= seq![
                    (p.0@, p.1@),
                ]);
            }
            assert(str_pairs_view(sorted@).len() == sorted@.len());
            assert forall|a: int|
                0 <= a < sorted@.len() implies #[trigger] str_pairs_view(sorted@)[a]
                == sorted_insert_pair(sv, (p.0@, p.1@))[a] by {
                assert(str_pairs_view(sorted@)[a] == (sorted@[a].0@, sorted@[a].1@));
                if a < j {
                    assert(sorted@[a] == before[a]);
                    assert(str_pairs_view(before)[a] == (before[a].0@, before[a].1@));
                } else if a == j {
                    assert(sorted@[a] == p);
                } else {
                    assert(sorted@[a] == before[a - 1]);
                    assert(str_pairs_view(before)[a - 1] == (before[a - 1].0@, before[a - 1].1@));
                }
            }
            assert(str_pairs_view(sorted@) =~= sorted_insert_pair(sv, (p.0@, p.1@)));
            assert(pv.take(i + 1).drop_last() =~= pv.take(i as int));
            assert(pv.take(i + 1).last() == pv[i as int]);
        }
        i += 1;
    }
    proof {
        assert(pv.take(n as int) =~= pv);
    }
    sorted
}

/// Interns sorted entries as handle pairs.
fn intern_pairs(ps: &Vec<(String, String)>, im: &mut Interner) -> (r: Vec<
    (InternedString, InternedString),
>)
    requires
        old(im).wf(),
    ensures
        final(im).wf(),
        interner_extends(final(im)@, old(im)@),
        rep_pairs(r@, final(im)@, str_pairs_view(ps@)),
{
    let n = ps.len();
    let mut r: Vec<(InternedString, InternedString)> = Vec::new();
    proof {
        assert(str_pairs_view(ps@).len() == ps@.len());
    }
    let mut i: usize = 0;
    while i < n
        invariant
            i <= n,
            n == ps@.len(),
            im.wf(),
            interner_extends(im@, old(im)@),
            r@.len() == i,
            forall|j: int|
                0 <= j < i ==> rep_str((#[trigger] r@[j]).0, im@, str_pairs_view(ps@)[j].0)
                    && rep_str(r@[j].1, im@, str_pairs_view(ps@)[j].1),
        decreases n - i,
    {
        let p = &ps[i];
        let k = im.get_or_intern(p.0.clone());
        let v = im.get_or_intern(p.1.clone());
        proof {
            assert(str_pairs_view(ps@)[i as int] == (ps@[i as int].0@, ps@[i as int].1@));
        }
        r.push((k, v));
        i += 1;
    }
    r
}

/// Reads a flat string map: every value a string, keys unique, the
/// result in key-sorted order, interned.
fn parse_str_map(d: &DocValue, im: &mut Interner) -> (r: Result<
    Vec<(InternedString, InternedString)>,
    SchemaError,
>)
    requires
        old(im).wf(),
    ensures
        final(im).wf(),
        interner_extends(final(im)@, old(im)@),
        match r {
            Ok(ps) => spec_str_map(doc_view(*d)) is Some && rep_pairs(
                ps@,
                final(im)@,
                spec_str_map(doc_view(*d))->0,
            ),
            Err(_) => spec_str_map(doc_view(*d)) is None,
        },
{
    match d {
        DocValue::Table(es) => {
            let entries = match collect_str_entries(es) {
                Ok(ps) => ps,
                Err(()) => {
                    return Err(SchemaError::InvalidValue(String::from_str("labels")));
                },
            };
            match find_dup_key(&entries) {
                Some(k) => Err(SchemaError::DuplicateField(k)),
                None => {
                    let ghost before_sort = str_pairs_view(entries@);
                    let sorted = sort_str_pairs(entries);
                    Ok(intern_pairs(&sorted, im))
                },
            }
        },
        _ => Err(SchemaError::InvalidValue(String::from_str("labels"))),
    }
}

/// A parsed string list has one string per document element.
proof fn lemma_spec_str_list_len(vs: Seq<DocView>)
    ensures
        spec_str_list(vs) matches Some(ss) ==> ss.len() == vs.len(),
    decreases vs.len(),
{
    if vs.len() > 0 {
        lemma_spec_str_list_len(vs.skip(1));
    }
}

/// Reads a list of strings, interned.
fn parse_str_list(vs: &Vec<DocValue>, im: &mut Interner) -> (r: Result<
    Vec<InternedString>,
    SchemaError,
>)
    requires
        old(im).wf(),
    ensures
        final(im).wf(),
        interner_extends(final(im)@, old(im)@),
        match r {
            Ok(ss) => spec_str_list(crate::doc::docs_view(vs@)) is Some && rep_strs(
                ss@,
                final(im)@,
                spec_str_list(crate::doc::docs_view(vs@))->0,
            ),
            Err(_) => spec_str_list(crate::doc::docs_view(vs@)) is None,
        },
{
    proof {
        lemma_docs_view(vs@);
    }
    let ghost dv = crate::doc::docs_view(vs@);
    let n = vs.len();
    let mut r: Vec<InternedString> = Vec::new();
    proof {
        assert(dv.skip(0) =~= dv);
        lemma_spec_str_list_len(dv);
        if spec_str_list(dv) is Some {
            assert(spec_str_list(dv)->0.skip(0) =~= spec_str_list(dv)->0);
        }
    }
    let mut i: usize = 0;
    while i < n
        invariant
            i <= n,
            n == vs@.len(),
            dv == crate::doc::docs_view(vs@),
            dv.len() == n,
            forall|j: int| 0 <= j < n ==> #[trigger] dv[j] == doc_view(vs@[j]),
            im.wf(),
            interner_extends(im@, old(im)@),
            r@.len() == i,
            spec_str_list(dv) is Some ==> spec_str_list(dv)->0.len() == n,
            match spec_str_list(dv.skip(i as int)) {
                Some(_) => spec_str_list(dv) is Some <==> spec_str_list(dv.skip(i as int))
                    is Some,
                None => spec_str_list(dv) is None,
            },
            spec_str_list(dv) matches Some(full) ==> full.skip(i as int) == match spec_str_list(
                dv.skip(i as int),
            ) {
                Some(rest) => rest,
                None => Seq::<Seq<char>>::empty(),
            } && (forall|j: int|
                0 <= j < i ==> rep_str(#[trigger] r@[j], im@, full[j])),
        decreases n - i,
    {
        proof {
            assert(dv.skip(i as int)[0] == dv[i as int]);
            assert(dv.skip(i as int).skip(1) =~= dv.skip(i + 1));
        }
        match &vs[i] {
            DocValue::Str(s) => {
                let h = im.get_or_intern(s.clone());
                r.push(h);
                proof {
                    if spec_str_list(dv.skip(i + 1)) is Some {
                        let rest1 = spec_str_list(dv.skip(i + 1))->0;
                        assert(spec_str_list(dv.skip(i as int)) == Some(seq![s@] + rest1));
                        if spec_str_list(dv) is Some {
                            let full = spec_str_list(dv)->0;
                            assert(full.skip(i as int) == seq![s@] + rest1);
                            assert(full.skip(i as int)[0] == full[i as int]);
                            assert(full[i as int] == s@);
                            assert(full.skip(i as int).skip(1) =~= full.skip(i + 1));
                            assert((seq![s@] + rest1).skip(1) =~= rest1);
                        }
                    }
                }
            },
            _ => {
                return Err(SchemaError::InvalidValue(String::from_str("values")));
            },
        }
        i += 1;
    }
    proof {
        assert(dv.skip(n as int) =~= Seq::<DocView>::empty());
        assert(spec_str_list(dv.skip(n as int)) == Some(Seq::<Seq<char>>::empty()));
    }
    Ok(r)
}

} // verus!

verus! {

/// Representation survives growing the interner.
proof fn lemma_rep_req_extends(q: ReqView, m1: Seq<Seq<char>>, m2: Seq<Seq<char>>, rq: RawReqView)
    requires
        rep_req(q, m1, rq),
        interner_extends(m2, m1),
    ensures
        rep_req(q, m2, rq),
{
}

/// Reads one selector requirement.
fn parse_req(d: &DocValue, im: &mut Interner) -> (r: Result<
    crate::selector::SelectorRequirement,
    SchemaError,
>)
    requires
        old(im).wf(),
    ensures
        final(im).wf(),
        interner_extends(final(im)@, old(im)@),
        match r {
            Ok(q) => spec_req(doc_view(*d)) is Some && rep_req(
                q@,
                final(im)@,
                spec_req(doc_view(*d))->0,
            ),
            Err(_) => spec_req(doc_view(*d)) is None,
        },
{
    proof {
        reveal_strlit("key");
        reveal_strlit("operator");
        reveal_strlit("values");
        reveal_strlit("In");
        reveal_strlit("NotIn");
        reveal_strlit("Exists");
        reveal_strlit("DoesNotExist");
        assert("In"@.len() == 2);
        assert("NotIn"@.len() == 5);
        assert("Exists"@.len() == 6);
        assert("DoesNotExist"@.len() == 12);
    }
    let es = match d {
        DocValue::Table(es) => es,
        _ => {
            return Err(SchemaError::InvalidValue(String::from_str("matchExpressions")));
        },
    };
    let key_doc = match table_field(es, "key") {
        Err(()) => {
            return Err(SchemaError::DuplicateField(String::from_str("key")));
        },
        Ok(None) => {
            return Err(SchemaError::MissingField(String::from_str("key")));
        },
        Ok(Some(kd)) => kd,
    };
    let key_str = match key_doc {
        DocValue::Str(s) => s,
        _ => {
            return Err(SchemaError::InvalidValue(String::from_str("key")));
        },
    };
    let op_doc = match table_field(es, "operator") {
        Err(()) => {
            return Err(SchemaError::DuplicateField(String::from_str("operator")));
        },
        Ok(None) => {
            return Err(SchemaError::MissingField(String::from_str("operator")));
        },
        Ok(Some(od)) => od,
    };
    let op = match op_doc {
        DocValue::Str(s) => s,
        _ => {
            return Err(SchemaError::InvalidValue(String::from_str("operator")));
        },
    };
    let values = match table_field(es, "values") {
        Err(()) => {
            return Err(SchemaError::DuplicateField(String::from_str("values")));
        },
        Ok(v) => v,
    };
    let key = im.get_or_intern(key_str.clone());
    if *op == String::from_str("In") || *op == String::from_str("NotIn") {
        let vs = match values {
            Some(DocValue::List(vs)) => vs,
            _ => {
                return Err(SchemaError::MissingField(String::from_str("values")));
            },
        };
        let is_in = *op == String::from_str("In");
        match parse_str_list(vs, im) {
            Ok(ss) => {
                let vr = if is_in {
                    crate::selector::SelectorValueRequirement::In(ss)
                } else {
                    crate::selector::SelectorValueRequirement::NotIn(ss)
                };
                Ok(crate::selector::SelectorRequirement { key, value_requirement: vr })
            },
            Err(e) => Err(e),
        }
    } else if *op == String::from_str("Exists") {
        match values {
            None => Ok(
                crate::selector::SelectorRequirement {
                    key,
                    value_requirement: crate::selector::SelectorValueRequirement::Exists,
                },
            ),
            Some(_) => Err(SchemaError::InvalidValue(String::from_str("values"))),
        }
    } else if *op == String::from_str("DoesNotExist") {
        match values {
            None => Ok(
                crate::selector::SelectorRequirement {
                    key,
                    value_requirement: crate::selector::SelectorValueRequirement::DoesNotExist,
                },
            ),
            Some(_) => Err(SchemaError::InvalidValue(String::from_str("values"))),
        }
    } else {
        Err(SchemaError::InvalidValue(String::from_str("operator")))
    }
}

/// A parsed requirement list has one requirement per document element.
proof fn lemma_spec_reqs_len(vs: Seq<DocView>)
    ensures
        spec_reqs(vs) matches Some(qs) ==> qs.len() == vs.len(),
    decreases vs.len(),
{
    if vs.len() > 0 {
        lemma_spec_reqs_len(vs.skip(1));
    }
}

/// Reads a list of requirements, in declared order.
fn parse_reqs(vs: &Vec<DocValue>, im: &mut Interner) -> (r: Result<
    Vec<crate::selector::SelectorRequirement>,
    SchemaError,
>)
    requires
        old(im).wf(),
    ensures
        final(im).wf(),
        interner_extends(final(im)@, old(im)@),
        match r {
            Ok(qs) => spec_reqs(crate::doc::docs_view(vs@)) is Some && rep_reqs(
                crate::selector::reqs_view(qs@),
                final(im)@,
                spec_reqs(crate::doc::docs_view(vs@))->0,
            ),
            Err(_) => spec_reqs(crate::doc::docs_view(vs@)) is None,
        },
{
    proof {
        lemma_docs_view(vs@);
        lemma_spec_reqs_len(crate::doc::docs_view(vs@));
    }
    let ghost dv = crate::doc::docs_view(vs@);
    let n = vs.len();
    let mut r: Vec<crate::selector::SelectorRequirement> = Vec::new();
    proof {
        assert(dv.skip(0) =~= dv);
        if spec_reqs(dv) is Some {
            assert(spec_reqs(dv)->0.skip(0) =~= spec_reqs(dv)->0);
        }
    }
    let mut i: usize = 0;
    while i < n
        invariant
            i <= n,
            n == vs@.len(),
            dv == crate::doc::docs_view(vs@),
            dv.len() == n,
            forall|j: int| 0 <= j < n ==> #[trigger] dv[j] == doc_view(vs@[j]),
            im.wf(),
            interner_extends(im@, old(im)@),
            r@.len() == i,
            crate::selector::reqs_view(r@).len() == i,
            spec_reqs(dv) is Some ==> spec_reqs(dv)->0.len() == n,
            match spec_reqs(dv.skip(i as int)) {
                Some(_) => spec_reqs(dv) is Some <==> spec_reqs(dv.skip(i as int)) is Some,
                None => spec_reqs(dv) is None,
            },
            spec_reqs(dv) matches Some(full) ==> (forall|j: int|
                0 <= j < i ==> rep_req(
                    #[trigger] crate::selector::reqs_view(r@)[j],
                    im@,
                    full[j],
                )),
        decreases n - i,
    {
        proof {
            assert(dv.skip(i as int)[0] == dv[i as int]);
            assert(dv.skip(i as int).skip(1) =~= dv.skip(i + 1));
        }
        match parse_req(&vs[i], im) {
            Ok(q) => {
                let ghost prev = r@;
                r.push(q);
                proof {
                    assert(crate::selector::reqs_view(r@).len() == r@.len());
                    assert(crate::selector::reqs_view(r@) =~= crate::selector::reqs_view(
                        prev,
                    ).push(q@));
                    if spec_reqs(dv.skip(i + 1)) is Some {
                        let rest1 = spec_reqs(dv.skip(i + 1))->0;
                        assert(spec_reqs(dv.skip(i as int)) == Some(
                            seq![spec_req(dv[i as int])->0] + rest1,
                        ));
                        if spec_reqs(dv) is Some {
                            let full = spec_reqs(dv)->0;
                            lemma_reqs_suffix(dv, i as int);
                            assert(full[i as int] == spec_req(dv[i as int])->0);
                        }
                    }
                    assert forall|j: int|
                        0 <= j < i + 1 && spec_reqs(dv) is Some implies rep_req(
                        #[trigger] crate::selector::reqs_view(r@)[j],
                        im@,
                        spec_reqs(dv)->0[j],
                    ) by {
                        assert(crate::selector::reqs_view(r@)[j] == r@[j]@);
                        if j < i {
                            assert(crate::selector::reqs_view(prev)[j] == prev[j]@);
                        }
                    }
                }
            },
            Err(e) => {
                return Err(e);
            },
        }
        i += 1;
    }
    proof {
        assert(dv.skip(n as int) =~= Seq::<DocView>::empty());
        assert(spec_reqs(dv.skip(n as int)) == Some(Seq::<RawReqView>::empty()));
    }
    Ok(r)
}

/// In a fully parsed list, the element at `i` parses to the `i`-th
/// requirement.
proof fn lemma_reqs_suffix(dv: Seq<DocView>, i: int)
    requires
        0 <= i < dv.len(),
        spec_reqs(dv) is Some,
    ensures
        spec_reqs(dv.skip(i)) is Some,
        spec_req(dv[i]) is Some,
        spec_reqs(dv)->0.len() == dv.len(),
        spec_reqs(dv)->0[i] == spec_req(dv[i])->0,
    decreases i,
{
    lemma_spec_reqs_len(dv);
    if i == 0 {
        assert(dv.skip(0) =~= dv);
    } else {
        lemma_spec_reqs_len(dv.skip(1));
        lemma_reqs_suffix(dv.skip(1), i - 1);
        assert(dv.skip(1)[i - 1] == dv[i]);
        assert(dv.skip(1).skip(i - 1) =~= dv.skip(i));
        assert(spec_reqs(dv)->0[i] == spec_reqs(dv.skip(1))->0[i - 1]);
    }
}

} // verus!

verus! {

/// Reads a selector table: the optional flat map under `flat_key`, and
/// the optional `matchExpressions` list.
fn parse_selector(d: &DocValue, flat_key: &str, im: &mut Interner) -> (r: Result<
    crate::selector::Selector,
    SchemaError,
>)
    requires
        old(im).wf(),
    ensures
        final(im).wf(),
        interner_extends(final(im)@, old(im)@),
        match r {
            Ok(sel) => spec_selector(doc_view(*d), flat_key@) is Some && rep_sel(
                sel@,
                final(im)@,
                spec_selector(doc_view(*d), flat_key@)->0,
            ),
            Err(_) => spec_selector(doc_view(*d), flat_key@) is None,
        },
{
    proof {
        reveal_strlit("matchExpressions");
    }
    let es = match d {
        DocValue::Table(es) => es,
        _ => {
            return Err(SchemaError::InvalidValue(String::from_str("selector")));
        },
    };
    let flat_doc = match table_field(es, flat_key) {
        Err(()) => {
            return Err(SchemaError::DuplicateField(String::from_str(flat_key)));
        },
        Ok(v) => v,
    };
    let exprs_doc = match table_field(es, "matchExpressions") {
        Err(()) => {
            return Err(SchemaError::DuplicateField(String::from_str("matchExpressions")));
        },
        Ok(v) => v,
    };
    let flat = match flat_doc {
        None => None,
        Some(fd) => match parse_str_map(fd, im) {
            Ok(ps) => Some(ps),
            Err(e) => {
                return Err(e);
            },
        },
    };
    let ghost m_mid = im@;
    let expressions = match exprs_doc {
        None => None,
        Some(DocValue::List(vs)) => match parse_reqs(vs, im) {
            Ok(qs) => Some(qs),
            Err(e) => {
                return Err(e);
            },
        },
        Some(_) => {
            return Err(SchemaError::InvalidValue(String::from_str("matchExpressions")));
        },
    };
    let sel = crate::selector::Selector { flat, expressions };
    proof {
        let rs = spec_selector(doc_view(*d), flat_key@)->0;
        if sel.flat is Some {
            assert(rep_pairs(sel@.flat->0, m_mid, rs.flat->0));
        }
    }
    Ok(sel)
}

/// Reads one device type.
fn parse_type(d: &DocValue, im: &mut Interner) -> (r: Result<crate::config::DeviceType, SchemaError>)
    requires
        old(im).wf(),
    ensures
        final(im).wf(),
        interner_extends(final(im)@, old(im)@),
        match r {
            Ok(t) => spec_type(doc_view(*d)) is Some && rep_type(
                t@,
                final(im)@,
                spec_type(doc_view(*d))->0,
            ),
            Err(_) => spec_type(doc_view(*d)) is None,
        },
{
    proof {
        reveal_strlit("name");
        reveal_strlit("subsystem");
        reveal_strlit("access");
        reveal_strlit("labels");
        reveal_strlit("selector");
        reveal_strlit("matchAttributes");
    }
    let es = match d {
        DocValue::Table(es) => es,
        _ => {
            return Err(SchemaError::InvalidValue(String::from_str("devices")));
        },
    };
    let name_str = match table_field(es, "name") {
        Err(()) => {
            return Err(SchemaError::DuplicateField(String::from_str("name")));
        },
        Ok(None) => {
            return Err(SchemaError::MissingField(String::from_str("name")));
        },
        Ok(Some(DocValue::Str(s))) => s,
        Ok(Some(_)) => {
            return Err(SchemaError::InvalidValue(String::from_str("name")));
        },
    };
    let subsystem_str = match table_field(es, "subsystem") {
        Err(()) => {
            return Err(SchemaError::DuplicateField(String::from_str("subsystem")));
        },
        Ok(None) => {
            return Err(SchemaError::MissingField(String::from_str("subsystem")));
        },
        Ok(Some(DocValue::Str(s))) => s,
        Ok(Some(_)) => {
            return Err(SchemaError::InvalidValue(String::from_str("subsystem")));
        },
    };
    let access_doc = match table_field(es, "access") {
        Err(()) => {
            return Err(SchemaError::DuplicateField(String::from_str("access")));
        },
        Ok(v) => v,
    };
    let labels_doc = match table_field(es, "labels") {
        Err(()) => {
            return Err(SchemaError::DuplicateField(String::from_str("labels")));
        },
        Ok(None) => {
            return Err(SchemaError::MissingField(String::from_str("labels")));
        },
        Ok(Some(ld)) => ld,
    };
    let selector_doc = match table_field(es, "selector") {
        Err(()) => {
            return Err(SchemaError::DuplicateField(String::from_str("selector")));
        },
        Ok(None) => {
            return Err(SchemaError::MissingField(String::from_str("selector")));
        },
        Ok(Some(sd)) => sd,
    };
    let access = match parse_access(access_doc) {
        Ok(a) => a,
        Err(e) => {
            return Err(e);
        },
    };
    let name = im.get_or_intern(name_str.clone());
    let subsystem = im.get_or_intern(subsystem_str.clone());
    let labels = match parse_str_map(labels_doc, im) {
        Ok(ps) => ps,
        Err(e) => {
            return Err(e);
        },
    };
    let ghost m_mid = im@;
    let selector = match parse_selector(selector_doc, "matchAttributes", im) {
        Ok(s) => s,
        Err(e) => {
            return Err(e);
        },
    };
    let t = crate::config::DeviceType {
        name,
        subsystem,
        access,
        labels: crate::labels::DeviceTypeLabels { entries: labels },
        selector: crate::config::UdevSelector { selector },
    };
    proof {
        let rt = spec_type(doc_view(*d))->0;
        assert(rep_pairs(t@.labels, m_mid, rt.labels));
    }
    Ok(t)
}

/// Reads one device class.
fn parse_class(d: &DocValue, im: &mut Interner) -> (r: Result<
    crate::config::DeviceClass,
    SchemaError,
>)
    requires
        old(im).wf(),
    ensures
        final(im).wf(),
        interner_extends(final(im)@, old(im)@),
        match r {
            Ok(c) => spec_class(doc_view(*d)) is Some && rep_class(
                c@,
                final(im)@,
                spec_class(doc_view(*d))->0,
            ),
            Err(_) => spec_class(doc_view(*d)) is None,
        },
{
    proof {
        reveal_strlit("name");
        reveal_strlit("subsystem");
        reveal_strlit("target");
        reveal_strlit("selector");
        reveal_strlit("matchLabels");
    }
    let es = match d {
        DocValue::Table(es) => es,
        _ => {
            return Err(SchemaError::InvalidValue(String::from_str("deviceClasses")));
        },
    };
    let subsystem_str = match table_field(es, "subsystem") {
        Err(()) => {
            return Err(SchemaError::DuplicateField(String::from_str("subsystem")));
        },
        Ok(None) => {
            return Err(SchemaError::MissingField(String::from_str("subsystem")));
        },
        Ok(Some(DocValue::Str(s))) => s,
        Ok(Some(_)) => {
            return Err(SchemaError::InvalidValue(String::from_str("subsystem")));
        },
    };
    let name_str = match table_field(es, "name") {
        Err(()) => {
            return Err(SchemaError::DuplicateField(String::from_str("name")));
        },
        Ok(None) => {
            return Err(SchemaError::MissingField(String::from_str("name")));
        },
        Ok(Some(DocValue::Str(s))) => s,
        Ok(Some(_)) => {
            return Err(SchemaError::InvalidValue(String::from_str("name")));
        },
    };
    let target_str = match table_field(es, "target") {
        Err(()) => {
            return Err(SchemaError::DuplicateField(String::from_str("target")));
        },
        Ok(None) => {
            return Err(SchemaError::MissingField(String::from_str("target")));
        },
        Ok(Some(DocValue::Str(s))) => s,
        Ok(Some(_)) => {
            return Err(SchemaError::InvalidValue(String::from_str("target")));
        },
    };
    let selector_doc = match table_field(es, "selector") {
        Err(()) => {
            return Err(SchemaError::DuplicateField(String::from_str("selector")));
        },
        Ok(None) => {
            return Err(SchemaError::MissingField(String::from_str("selector")));
        },
        Ok(Some(sd)) => sd,
    };
    let subsystem = im.get_or_intern(subsystem_str.clone());
    let name = im.get_or_intern(name_str.clone());
    let target = im.get_or_intern(target_str.clone());
    let selector = match parse_selector(selector_doc, "matchLabels", im) {
        Ok(s) => s,
        Err(e) => {
            return Err(e);
        },
    };
    Ok(
        crate::config::DeviceClass {
            subsystem,
            name,
            target,
            selector: crate::config::DeviceTypeSelector { selector },
        },
    )
}

} // verus!

verus! {

/// A parsed type list has one type per document element, each parsing
/// its element.
proof fn lemma_types_suffix(dv: Seq<DocView>, i: int)
    requires
        0 <= i < dv.len(),
        spec_types(dv) is Some,
    ensures
        spec_types(dv.skip(i)) is Some,
        spec_type(dv[i]) is Some,
        spec_types(dv)->0.len() == dv.len(),
        spec_types(dv)->0[i] == spec_type(dv[i])->0,
    decreases i,
{
    lemma_spec_types_len(dv);
    if i == 0 {
        assert(dv.skip(0) =~= dv);
    } else {
        lemma_spec_types_len(dv.skip(1));
        lemma_types_suffix(dv.skip(1), i - 1);
        assert(dv.skip(1)[i - 1] == dv[i]);
        assert(dv.skip(1).skip(i - 1) =~= dv.skip(i));
        assert(spec_types(dv)->0[i] == spec_types(dv.skip(1))->0[i - 1]);
    }
}

proof fn lemma_spec_types_len(vs: Seq<DocView>)
    ensures
        spec_types(vs) matches Some(ts) ==> ts.len() == vs.len(),
    decreases vs.len(),
{
    if vs.len() > 0 {
        lemma_spec_types_len(vs.skip(1));
    }
}

proof fn lemma_classes_suffix(dv: Seq<DocView>, i: int)
    requires
        0 <= i < dv.len(),
        spec_classes(dv) is Some,
    ensures
        spec_classes(dv.skip(i)) is Some,
        spec_class(dv[i]) is Some,
        spec_classes(dv)->0.len() == dv.len(),
        spec_classes(dv)->0[i] == spec_class(dv[i])->0,
    decreases i,
{
    lemma_spec_classes_len(dv);
    if i == 0 {
        assert(dv.skip(0) =~= dv);
    } else {
        lemma_spec_classes_len(dv.skip(1));
        lemma_classes_suffix(dv.skip(1), i - 1);
        assert(dv.skip(1)[i - 1] == dv[i]);
        assert(dv.skip(1).skip(i - 1) =~= dv.skip(i));
        assert(spec_classes(dv)->0[i] == spec_classes(dv.skip(1))->0[i - 1]);
    }
}

proof fn lemma_spec_classes_len(vs: Seq<DocView>)
    ensures
        spec_classes(vs) matches Some(cs) ==> cs.len() == vs.len(),
    decreases vs.len(),
{
    if vs.len() > 0 {
        lemma_spec_classes_len(vs.skip(1));
    }
}

/// Reads the device-type list.
fn parse_types(vs: &Vec<DocValue>, im: &mut Interner) -> (r: Result<
    Vec<crate::config::DeviceType>,
    SchemaError,
>)
    requires
        old(im).wf(),
    ensures
        final(im).wf(),
        interner_extends(final(im)@, old(im)@),
        match r {
            Ok(ts) => spec_types(crate::doc::docs_view(vs@)) is Some && ts@.len() == spec_types(
                crate::doc::docs_view(vs@),
            )->0.len() && (forall|j: int|
                0 <= j < ts@.len() ==> rep_type(
                    (#[trigger] ts@[j])@,
                    final(im)@,
                    spec_types(crate::doc::docs_view(vs@))->0[j],
                )),
            Err(_) => spec_types(crate::doc::docs_view(vs@)) is None,
        },
{
    proof {
        lemma_docs_view(vs@);
        lemma_spec_types_len(crate::doc::docs_view(vs@));
    }
    let ghost dv = crate::doc::docs_view(vs@);
    let n = vs.len();
    let mut r: Vec<crate::config::DeviceType> = Vec::new();
    proof {
        assert(dv.skip(0) =~= dv);
    }
    let mut i: usize = 0;
    while i < n
        invariant
            i <= n,
            n == vs@.len(),
            dv == crate::doc::docs_view(vs@),
            dv.len() == n,
            forall|j: int| 0 <= j < n ==> #[trigger] dv[j] == doc_view(vs@[j]),
            im.wf(),
            interner_extends(im@, old(im)@),
            r@.len() == i,
            spec_types(dv) is Some ==> spec_types(dv)->0.len() == n,
            match spec_types(dv.skip(i as int)) {
                Some(_) => spec_types(dv) is Some <==> spec_types(dv.skip(i as int)) is Some,
                None => spec_types(dv) is None,
            },
            spec_types(dv) matches Some(full) ==> (forall|j: int|
                0 <= j < i ==> rep_type((#[trigger] r@[j])@, im@, full[j])),
        decreases n - i,
    {
        proof {
            assert(dv.skip(i as int)[0] == dv[i as int]);
            assert(dv.skip(i as int).skip(1) =~= dv.skip(i + 1));
        }
        match parse_type(&vs[i], im) {
            Ok(t) => {
                r.push(t);
                proof {
                    if spec_types(dv.skip(i + 1)) is Some {
                        assert(spec_types(dv.skip(i as int)) == Some(
                            seq![spec_type(dv[i as int])->0] + spec_types(dv.skip(i + 1))->0,
                        ));
                        if spec_types(dv) is Some {
                            lemma_types_suffix(dv, i as int);
                        }
                    }
                }
            },
            Err(e) => {
                return Err(e);
            },
        }
        i += 1;
    }
    proof {
        assert(dv.skip(n as int) =~= Seq::<DocView>::empty());
        assert(spec_types(dv.skip(n as int)) == Some(Seq::<RawTypeView>::empty()));
    }
    Ok(r)
}

/// Reads the device-class list.
fn parse_classes(vs: &Vec<DocValue>, im: &mut Interner) -> (r: Result<
    Vec<crate::config::DeviceClass>,
    SchemaError,
>)
    requires
        old(im).wf(),
    ensures
        final(im).wf(),
        interner_extends(final(im)@, old(im)@),
        match r {
            Ok(cs) => spec_classes(crate::doc::docs_view(vs@)) is Some && cs@.len()
                == spec_classes(crate::doc::docs_view(vs@))->0.len() && (forall|j: int|
                0 <= j < cs@.len() ==> rep_class(
                    (#[trigger] cs@[j])@,
                    final(im)@,
                    spec_classes(crate::doc::docs_view(vs@))->0[j],
                )),
            Err(_) => spec_classes(crate::doc::docs_view(vs@)) is None,
        },
{
    proof {
        lemma_docs_view(vs@);
        lemma_spec_classes_len(crate::doc::docs_view(vs@));
    }
    let ghost dv = crate::doc::docs_view(vs@);
    let n = vs.len();
    let mut r: Vec<crate::config::DeviceClass> = Vec::new();
    proof {
        assert(dv.skip(0) =~= dv);
    }
    let mut i: usize = 0;
    while i < n
        invariant
            i <= n,
            n == vs@.len(),
            dv == crate::doc::docs_view(vs@),
            dv.len() == n,
            forall|j: int| 0 <= j < n ==> #[trigger] dv[j] == doc_view(vs@[j]),
            im.wf(),
            interner_extends(im@, old(im)@),
            r@.len() == i,
            spec_classes(dv) is Some ==> spec_classes(dv)->0.len() == n,
            match spec_classes(dv.skip(i as int)) {
                Some(_) => spec_classes(dv) is Some <==> spec_classes(dv.skip(i as int)) is Some,
                None => spec_classes(dv) is None,
            },
            spec_classes(dv) matches Some(full) ==> (forall|j: int|
                0 <= j < i ==> rep_class((#[trigger] r@[j])@, im@, full[j])),
        decreases n - i,
    {
        proof {
            assert(dv.skip(i as int)[0] == dv[i as int]);
            assert(dv.skip(i as int).skip(1) =~= dv.skip(i + 1));
        }
        match parse_class(&vs[i], im) {
            Ok(c) => {
                r.push(c);
                proof {
                    if spec_classes(dv.skip(i + 1)) is Some {
                        assert(spec_classes(dv.skip(i as int)) == Some(
                            seq![spec_class(dv[i as int])->0] + spec_classes(dv.skip(i + 1))->0,
                        ));
                        if spec_classes(dv) is Some {
                            lemma_classes_suffix(dv, i as int);
                        }
                    }
                }
            },
            Err(e) => {
                return Err(e);
            },
        }
        i += 1;
    }
    proof {
        assert(dv.skip(n as int) =~= Seq::<DocView>::empty());
        assert(spec_classes(dv.skip(n as int)) == Some(Seq::<RawClassView>::empty()));
    }
    Ok(r)
}

/// A raw device type read from a document always carries a well-formed
/// access policy.
proof fn lemma_spec_types_access_wf(vs: Seq<DocView>)
    ensures
        spec_types(vs) matches Some(ts) ==> forall|i: int|
            0 <= i < ts.len() ==> (#[trigger] ts[i]).access.wf(),
    decreases vs.len(),
{
    if vs.len() > 0 {
        lemma_spec_types_access_wf(vs.skip(1));
        if spec_types(vs) is Some {
            let ts = spec_types(vs)->0;
            assert forall|i: int| 0 <= i < ts.len() implies (#[trigger] ts[i]).access.wf() by {
                if i > 0 {
                    assert(ts[i] == spec_types(vs.skip(1))->0[i - 1]);
                }
            }
        }
    }
}

/// Reads a whole configuration out of a document: the required
/// `devices` and `deviceClasses` lists, every name interned.  Succeeds
/// exactly on documents the schema admits, and the result stands for
/// the document's content under the grown interner table.
/// The position of a device type whose name an earlier type already
/// bears, if any.
fn duplicate_type_name(ts: &Vec<crate::config::DeviceType>) -> (r: Option<usize>)
    ensures
        match r {
            Some(j) => j < ts@.len() && (exists|i: int|
                0 <= i < j && (#[trigger] ts@[i]).name == ts@[j as int].name),
            None => forall|i: int, j: int|
                0 <= i < j < ts@.len() ==> (#[trigger] ts@[i]).name != (#[trigger] ts@[j]).name,
        },
{
    let n = ts.len();
    let mut j: usize = 0;
    while j < n
        invariant
            j <= n,
            n == ts@.len(),
            forall|a: int, b: int|
                0 <= a < b < j ==> (#[trigger] ts@[a]).name != (#[trigger] ts@[b]).name,
        decreases n - j,
    {
        let mut i: usize = 0;
        while i < j
            invariant
                i <= j < n,
                n == ts@.len(),
                forall|a: int, b: int|
                    0 <= a < b < j ==> (#[trigger] ts@[a]).name != (#[trigger] ts@[b]).name,
            forall|a: int| 0 <= a < i ==> (#[trigger] ts@[a]).name != ts@[j as int].name,
            decreases j - i,
        {
            if ts[i].name == ts[j].name {
                return Some(j);
            }
            i += 1;
        }
        j += 1;
    }
    None
}

/// The position of a device class whose name an earlier class already
/// bears, if any.
fn duplicate_class_name(cs: &Vec<crate::config::DeviceClass>) -> (r: Option<usize>)
    ensures
        match r {
            Some(j) => j < cs@.len() && (exists|i: int|
                0 <= i < j && (#[trigger] cs@[i]).name == cs@[j as int].name),
            None => forall|i: int, j: int|
                0 <= i < j < cs@.len() ==> (#[trigger] cs@[i]).name != (#[trigger] cs@[j]).name,
        },
{
    let n = cs.len();
    let mut j: usize = 0;
    while j < n
        invariant
            j <= n,
            n == cs@.len(),
            forall|a: int, b: int|
                0 <= a < b < j ==> (#[trigger] cs@[a]).name != (#[trigger] cs@[b]).name,
        decreases n - j,
    {
        let mut i: usize = 0;
        while i < j
            invariant
                i <= j < n,
                n == cs@.len(),
                forall|a: int, b: int|
                    0 <= a < b < j ==> (#[trigger] cs@[a]).name != (#[trigger] cs@[b]).name,
            forall|a: int| 0 <= a < i ==> (#[trigger] cs@[a]).name != cs@[j as int].name,
            decreases j - i,
        {
            if cs[i].name == cs[j].name {
                return Some(j);
            }
            i += 1;
        }
        j += 1;
    }
    None
}

pub fn config_from_doc(d: &DocValue, im: &mut Interner) -> (r: Result<
    crate::config::Config,
    SchemaError,
>)
    requires
        old(im).wf(),
    ensures
        final(im).wf(),
        interner_extends(final(im)@, old(im)@),
        match r {
            Ok(c) => spec_config(doc_view(*d)) is Some && config_names_unique(
                spec_config(doc_view(*d))->0,
            ) && rep_config(c, final(im)@, spec_config(doc_view(*d))->0)
                && crate::engine::Engine::config_wf(c),
            Err(_) => spec_config(doc_view(*d)) is None || !config_names_unique(
                spec_config(doc_view(*d))->0,
            ),
        },
{
    proof {
        reveal_strlit("devices");
        reveal_strlit("deviceClasses");
    }
    let es = match d {
        DocValue::Table(es) => es,
        _ => {
            return Err(SchemaError::InvalidValue(String::from_str("devices")));
        },
    };
    let types_doc = match table_field(es, "devices") {
        Err(()) => {
            return Err(SchemaError::DuplicateField(String::from_str("devices")));
        },
        Ok(None) => {
            return Err(SchemaError::MissingField(String::from_str("devices")));
        },
        Ok(Some(DocValue::List(vs))) => vs,
        Ok(Some(_)) => {
            return Err(SchemaError::InvalidValue(String::from_str("devices")));
        },
    };
    let classes_doc = match table_field(es, "deviceClasses") {
        Err(()) => {
            return Err(SchemaError::DuplicateField(String::from_str("deviceClasses")));
        },
        Ok(None) => {
            return Err(SchemaError::MissingField(String::from_str("deviceClasses")));
        },
        Ok(Some(DocValue::List(vs))) => vs,
        Ok(Some(_)) => {
            return Err(SchemaError::InvalidValue(String::from_str("deviceClasses")));
        },
    };
    let device_types = match parse_types(types_doc, im) {
        Ok(ts) => ts,
        Err(e) => {
            return Err(e);
        },
    };
    let ghost m_mid = im@;
    let device_classes = match parse_classes(classes_doc, im) {
        Ok(cs) => cs,
        Err(e) => {
            return Err(e);
        },
    };
    let c = crate::config::Config { device_types, device_classes };
    proof {
        let rc = spec_config(doc_view(*d))->0;
        assert forall|i: int| 0 <= i < c.device_types@.len() implies rep_type(
            (#[trigger] c.device_types@[i])@,
            final(im)@,
            rc.types[i],
        ) by {
            lemma_rep_type_extends(c.device_types@[i]@, m_mid, im@, rc.types[i]);
        }
        lemma_spec_types_access_wf(crate::doc::docs_view(types_doc@));
        assert forall|i: int|
            0 <= i < c.device_types@.len() implies (#[trigger] c.device_types@[i])@.access.wf() by {
            assert(rep_type(c.device_types@[i]@, final(im)@, rc.types[i]));
            assert(rc.types[i].access.wf());
        }
    }
    let ghost rc = spec_config(doc_view(*d))->0;
    proof {
        assert(rep_config(c, im@, rc));
    }
    if let Some(j) = duplicate_type_name(&c.device_types) {
        proof {
            let i = choose|i: int|
                0 <= i < j && (#[trigger] c.device_types@[i]).name == c.device_types@[
                    j as int
                ].name;
            assert(rep_type(c.device_types@[i]@, im@, rc.types[i]));
            assert(rep_type(c.device_types@[j as int]@, im@, rc.types[j as int]));
            assert(rc.types[i].name == rc.types[j as int].name);
            assert(!config_names_unique(rc));
        }
        return Err(SchemaError::DuplicateName(im.resolve(c.device_types[j].name).clone()));
    }
    if let Some(j) = duplicate_class_name(&c.device_classes) {
        proof {
            let i = choose|i: int|
                0 <= i < j && (#[trigger] c.device_classes@[i]).name == c.device_classes@[
                    j as int
                ].name;
            assert(rep_class(c.device_classes@[i]@, im@, rc.classes[i]));
            assert(rep_class(c.device_classes@[j as int]@, im@, rc.classes[j as int]));
            assert(rc.classes[i].name == rc.classes[j as int].name);
            assert(!config_names_unique(rc));
        }
        return Err(SchemaError::DuplicateName(im.resolve(c.device_classes[j].name).clone()));
    }
    proof {
        assert forall|i: int, j: int| 0 <= i < j < rc.types.len() implies (
        #[trigger] rc.types[i]).name != (#[trigger] rc.types[j]).name by {
            assert(rep_type(c.device_types@[i]@, im@, rc.types[i]));
            assert(rep_type(c.device_types@[j]@, im@, rc.types[j]));
            crate::intern::lemma_intern_handle_eq(
                im@,
                c.device_types@[i].name,
                c.device_types@[j].name,
            );
        }
        assert forall|i: int, j: int| 0 <= i < j < rc.classes.len() implies (
        #[trigger] rc.classes[i]).name != (#[trigger] rc.classes[j]).name by {
            assert(rep_class(c.device_classes@[i]@, im@, rc.classes[i]));
            assert(rep_class(c.device_classes@[j]@, im@, rc.classes[j]));
            crate::intern::lemma_intern_handle_eq(
                im@,
                c.device_classes@[i].name,
                c.device_classes@[j].name,
            );
        }
        assert(config_names_unique(rc));
    }
    Ok(c)
}

} // verus!

verus! {

/// The document an access policy serializes to.
pub open spec fn doc_of_access(a: DeviceAccess) -> DocView {
    match a {
        DeviceAccess::Exclusive => DocView::Str("exclusive"@),
        DeviceAccess::AtMost(n) => DocView::Int(n as int),
    }
}

/// The document a flat string map serializes to.
pub open spec fn doc_of_pairs(ps: Seq<(Seq<char>, Seq<char>)>) -> DocView {
    DocView::Table(ps.map_values(|p: (Seq<char>, Seq<char>)| (p.0, DocView::Str(p.1))))
}

/// The document one requirement serializes to.
pub open spec fn doc_of_req(rq: RawReqView) -> DocView {
    DocView::Table(
        match rq.vr {
            RawValueReq::In(ss) => seq![
                ("key"@, DocView::Str(rq.key)),
                ("operator"@, DocView::Str("In"@)),
                ("values"@, DocView::List(ss.map_values(|s: Seq<char>| DocView::Str(s)))),
            ],
            RawValueReq::NotIn(ss) => seq![
                ("key"@, DocView::Str(rq.key)),
                ("operator"@, DocView::Str("NotIn"@)),
                ("values"@, DocView::List(ss.map_values(|s: Seq<char>| DocView::Str(s)))),
            ],
            RawValueReq::Exists => seq![
                ("key"@, DocView::Str(rq.key)),
                ("operator"@, DocView::Str("Exists"@)),
            ],
            RawValueReq::DoesNotExist => seq![
                ("key"@, DocView::Str(rq.key)),
                ("operator"@, DocView::Str("DoesNotExist"@)),
            ],
        },
    )
}

/// The document a selector serializes to: the flat map under `flat_key`
/// when there is one, then `matchExpressions` when there are any.
pub open spec fn doc_of_sel(rs: RawSelView, flat_key: Seq<char>) -> DocView {
    DocView::Table(
        (match rs.flat {
            Some(ps) => seq![(flat_key, doc_of_pairs(ps))],
            None => Seq::empty(),
        }) + (match rs.exprs {
            Some(qs) => seq![
                ("matchExpressions"@, DocView::List(
                    qs.map_values(|q: RawReqView| doc_of_req(q)),
                )),
            ],
            None => Seq::empty(),
        }),
    )
}

/// The document one device type serializes to.
pub open spec fn doc_of_type(rt: RawTypeView) -> DocView {
    DocView::Table(
        seq![
            ("name"@, DocView::Str(rt.name)),
            ("subsystem"@, DocView::Str(rt.subsystem)),
            ("access"@, doc_of_access(rt.access)),
            ("labels"@, doc_of_pairs(rt.labels)),
            ("selector"@, doc_of_sel(rt.selector, "matchAttributes"@)),
        ],
    )
}

/// The document one device class serializes to.
pub open spec fn doc_of_class(rc: RawClassView) -> DocView {
    DocView::Table(
        seq![
            ("subsystem"@, DocView::Str(rc.subsystem)),
            ("name"@, DocView::Str(rc.name)),
            ("target"@, DocView::Str(rc.target)),
            ("selector"@, doc_of_sel(rc.selector, "matchLabels"@)),
        ],
    )
}

/// The document a whole configuration serializes to.
pub open spec fn doc_of_config(rc: RawConfigView) -> DocView {
    DocView::Table(
        seq![
            ("devices"@, DocView::List(rc.types.map_values(|t: RawTypeView| doc_of_type(t)))),
            ("deviceClasses"@, DocView::List(
                rc.classes.map_values(|c: RawClassView| doc_of_class(c)),
            )),
        ],
    )
}

/// Every handle of the selector is a handle of the table.
pub open spec fn sel_valid(sv: SelectorView, m: Seq<Seq<char>>) -> bool {
    (match sv.flat {
        Some(ps) => forall|i: int|
            0 <= i < ps.len() ==> (#[trigger] ps[i]).0.key < m.len() && ps[i].1.key < m.len(),
        None => true,
    }) && (match sv.expressions {
        Some(qs) => forall|i: int|
            0 <= i < qs.len() ==> (#[trigger] qs[i]).key.key < m.len() && (match qs[i].value_requirement {
                ValueReqView::In(vs) => forall|j: int| 0 <= j < vs.len() ==> (#[trigger] vs[j]).key < m.len(),
                ValueReqView::NotIn(vs) => forall|j: int| 0 <= j < vs.len() ==> (#[trigger] vs[j]).key < m.len(),
                ValueReqView::Exists => true,
                ValueReqView::DoesNotExist => true,
            }),
        None => true,
    })
}

/// Every handle of the configuration is a handle of the table.
pub open spec fn config_valid(c: crate::config::Config, m: Seq<Seq<char>>) -> bool {
    (forall|i: int|
        0 <= i < c.device_types@.len() ==> {
            let t = (#[trigger] c.device_types@[i])@;
            &&& t.name.key < m.len()
            &&& t.subsystem.key < m.len()
            &&& (forall|j: int|
                0 <= j < t.labels.len() ==> (#[trigger] t.labels[j]).0.key < m.len()
                    && t.labels[j].1.key < m.len())
            &&& sel_valid(t.selector, m)
        }) && (forall|i: int|
        0 <= i < c.device_classes@.len() ==> {
            let cl = (#[trigger] c.device_classes@[i])@;
            &&& cl.subsystem.key < m.len()
            &&& cl.name.key < m.len()
            &&& cl.target.key < m.len()
            &&& sel_valid(cl.selector, m)
        })
}

/// What the configuration's strings are, under the interner table.
pub open spec fn raw_of_sel(sv: SelectorView, m: Seq<Seq<char>>) -> RawSelView {
    RawSelView {
        flat: match sv.flat {
            Some(ps) => Some(
                ps.map_values(
                    |p: (InternedString, InternedString)|
                        (m[p.0.key as int], m[p.1.key as int]),
                ),
            ),
            None => None,
        },
        exprs: match sv.expressions {
            Some(qs) => Some(qs.map_values(|q: ReqView| raw_of_req(q, m))),
            None => None,
        },
    }
}

/// What one requirement's strings are, under the interner table.
pub open spec fn raw_of_req(q: ReqView, m: Seq<Seq<char>>) -> RawReqView {
    RawReqView {
        key: m[q.key.key as int],
        vr: match q.value_requirement {
            ValueReqView::In(vs) => RawValueReq::In(
                vs.map_values(|v: InternedString| m[v.key as int]),
            ),
            ValueReqView::NotIn(vs) => RawValueReq::NotIn(
                vs.map_values(|v: InternedString| m[v.key as int]),
            ),
            ValueReqView::Exists => RawValueReq::Exists,
            ValueReqView::DoesNotExist => RawValueReq::DoesNotExist,
        },
    }
}

/// What one device type's strings are, under the interner table.
pub open spec fn raw_of_type(t: DeviceTypeView, m: Seq<Seq<char>>) -> RawTypeView {
    RawTypeView {
        name: m[t.name.key as int],
        subsystem: m[t.subsystem.key as int],
        access: t.access,
        labels: t.labels.map_values(
            |p: (InternedString, InternedString)| (m[p.0.key as int], m[p.1.key as int]),
        ),
        selector: raw_of_sel(t.selector, m),
    }
}

/// What one device class's strings are, under the interner table.
pub open spec fn raw_of_class(c: DeviceClassView, m: Seq<Seq<char>>) -> RawClassView {
    RawClassView {
        subsystem: m[c.subsystem.key as int],
        name: m[c.name.key as int],
        target: m[c.target.key as int],
        selector: raw_of_sel(c.selector, m),
    }
}

/// What the whole configuration's strings are, under the interner table.
pub open spec fn raw_of_config(c: crate::config::Config, m: Seq<Seq<char>>) -> RawConfigView {
    RawConfigView {
        types: Seq::new(c.device_types@.len(), |i: int| raw_of_type(c.device_types@[i]@, m)),
        classes: Seq::new(
            c.device_classes@.len(),
            |i: int| raw_of_class(c.device_classes@[i]@, m),
        ),
    }
}

} // verus!

verus! {

/// Serializes an access policy.
fn access_doc(a: DeviceAccess) -> (r: DocValue)
    ensures
        doc_view(r) == doc_of_access(a),
{
    proof {
        reveal_strlit("exclusive");
    }
    match a {
        DeviceAccess::Exclusive => DocValue::Str(String::from_str("exclusive")),
        DeviceAccess::AtMost(n) => DocValue::Int(n as i64),
    }
}

/// Serializes a flat string map.
fn pairs_doc(ps: &Vec<(InternedString, InternedString)>, im: &Interner) -> (r: DocValue)
    requires
        forall|i: int|
            0 <= i < ps@.len() ==> (#[trigger] ps@[i]).0.key < im@.len() && ps@[i].1.key
                < im@.len(),
    ensures
        doc_view(r) == doc_of_pairs(
            ps@.map_values(
                |p: (InternedString, InternedString)|
                    (im@[p.0.key as int], im@[p.1.key as int]),
            ),
        ),
{
    let ghost target = ps@.map_values(
        |p: (InternedString, InternedString)| (im@[p.0.key as int], im@[p.1.key as int]),
    );
    let n = ps.len();
    let mut acc: Vec<(String, DocValue)> = Vec::new();
    proof {
        assert(target.len() == ps@.len());
    }
    let mut i: usize = 0;
    while i < n
        invariant
            i <= n,
            n == ps@.len(),
            target == ps@.map_values(
                |p: (InternedString, InternedString)| (im@[p.0.key as int], im@[p.1.key as int]),
            ),
            target.len() == n,
            forall|j: int|
                0 <= j < n ==> (#[trigger] ps@[j]).0.key < im@.len() && ps@[j].1.key < im@.len(),
            acc@.len() == i,
            forall|j: int|
                0 <= j < i ==> (#[trigger] acc@[j]).0@ == target[j].0 && acc@[j].1
                    == DocValue::Str(acc@[j].1->Str_0) && acc@[j].1->Str_0@ == target[j].1,
        decreases n - i,
    {
        let p = ps[i];
        let k = im.resolve(p.0).clone();
        let v = im.resolve(p.1).clone();
        proof {
            assert(target[i as int] == (im@[ps@[i as int].0.key as int], im@[ps@[i as int].1.key as int]));
        }
        acc.push((k, DocValue::Str(v)));
        i += 1;
    }
    let r = DocValue::Table(acc);
    proof {
        lemma_entries_view(acc@);
        let want = target.map_values(|p: (Seq<char>, Seq<char>)| (p.0, DocView::Str(p.1)));
        assert(want.len() == target.len());
        assert forall|j: int| 0 <= j < n implies #[trigger] entries_view(acc@)[j] == want[j] by {
            assert(entries_view(acc@)[j] == (acc@[j].0@, doc_view(acc@[j].1)));
            assert(want[j] == (target[j].0, DocView::Str(target[j].1)));
            assert(doc_view(acc@[j].1) == DocView::Str(acc@[j].1->Str_0@));
        }
        assert(entries_view(acc@) =~= want);
    }
    r
}

/// Serializes a string list.
fn strs_doc(vs: &Vec<InternedString>, im: &Interner) -> (r: DocValue)
    requires
        forall|i: int| 0 <= i < vs@.len() ==> (#[trigger] vs@[i]).key < im@.len(),
    ensures
        doc_view(r) == DocView::List(
            vs@.map_values(|v: InternedString| im@[v.key as int]).map_values(
                |s: Seq<char>| DocView::Str(s),
            ),
        ),
{
    let ghost target = vs@.map_values(|v: InternedString| im@[v.key as int]);
    let n = vs.len();
    let mut acc: Vec<DocValue> = Vec::new();
    proof {
        assert(target.len() == vs@.len());
    }
    let mut i: usize = 0;
    while i < n
        invariant
            i <= n,
            n == vs@.len(),
            target == vs@.map_values(|v: InternedString| im@[v.key as int]),
            target.len() == n,
            forall|j: int| 0 <= j < n ==> (#[trigger] vs@[j]).key < im@.len(),
            acc@.len() == i,
            forall|j: int|
                0 <= j < i ==> (#[trigger] acc@[j]) == DocValue::Str(acc@[j]->Str_0)
                    && acc@[j]->Str_0@ == target[j],
        decreases n - i,
    {
        let v = im.resolve(vs[i]).clone();
        proof {
            assert(target[i as int] == im@[vs@[i as int].key as int]);
        }
        acc.push(DocValue::Str(v));
        i += 1;
    }
    let r = DocValue::List(acc);
    proof {
        lemma_docs_view(acc@);
        let want = target.map_values(|s: Seq<char>| DocView::Str(s));
        assert(want.len() == target.len());
        assert forall|j: int| 0 <= j < n implies #[trigger] crate::doc::docs_view(acc@)[j]
            == want[j] by {
            assert(crate::doc::docs_view(acc@)[j] == doc_view(acc@[j]));
            assert(want[j] == DocView::Str(target[j]));
        }
        assert(crate::doc::docs_view(acc@) =~= want);
    }
    r
}

/// Serializes one requirement.
fn req_doc(q: &crate::selector::SelectorRequirement, im: &Interner) -> (r: DocValue)
    requires
        q.key.key < im@.len(),
        match q.value_requirement {
            crate::selector::SelectorValueRequirement::In(vs) => forall|i: int|
                0 <= i < vs@.len() ==> (#[trigger] vs@[i]).key < im@.len(),
            crate::selector::SelectorValueRequirement::NotIn(vs) => forall|i: int|
                0 <= i < vs@.len() ==> (#[trigger] vs@[i]).key < im@.len(),
            _ => true,
        },
    ensures
        doc_view(r) == doc_of_req(raw_of_req(q@, im@)),
{
    proof {
        reveal_strlit("key");
        reveal_strlit("operator");
        reveal_strlit("values");
        reveal_strlit("In");
        reveal_strlit("NotIn");
        reveal_strlit("Exists");
        reveal_strlit("DoesNotExist");
    }
    let key = im.resolve(q.key).clone();
    let mut acc: Vec<(String, DocValue)> = Vec::new();
    acc.push((String::from_str("key"), DocValue::Str(key)));
    match &q.value_requirement {
        crate::selector::SelectorValueRequirement::In(vs) => {
            acc.push((String::from_str("operator"), DocValue::Str(String::from_str("In"))));
            acc.push((String::from_str("values"), strs_doc(vs, im)));
        },
        crate::selector::SelectorValueRequirement::NotIn(vs) => {
            acc.push((String::from_str("operator"), DocValue::Str(String::from_str("NotIn"))));
            acc.push((String::from_str("values"), strs_doc(vs, im)));
        },
        crate::selector::SelectorValueRequirement::Exists => {
            acc.push((String::from_str("operator"), DocValue::Str(String::from_str("Exists"))));
        },
        crate::selector::SelectorValueRequirement::DoesNotExist => {
            acc.push(
                (String::from_str("operator"), DocValue::Str(String::from_str("DoesNotExist"))),
            );
        },
    }
    let r = DocValue::Table(acc);
    proof {
        lemma_entries_view(acc@);
        let want = doc_of_req(raw_of_req(q@, im@));
        assert forall|j: int| 0 <= j < acc@.len() implies #[trigger] entries_view(acc@)[j]
            == want->Table_0[j] by {
            assert(entries_view(acc@)[j] == (acc@[j].0@, doc_view(acc@[j].1)));
        }
        assert(entries_view(acc@) =~= want->Table_0);
    }
    r
}

/// Serializes a selector.
fn sel_doc(sel: &crate::selector::Selector, flat_key: &str, im: &Interner) -> (r: DocValue)
    requires
        sel_valid(sel@, im@),
    ensures
        doc_view(r) == doc_of_sel(raw_of_sel(sel@, im@), flat_key@),
{
    proof {
        reveal_strlit("matchExpressions");
    }
    let mut acc: Vec<(String, DocValue)> = Vec::new();
    if let Some(ps) = &sel.flat {
        acc.push((String::from_str(flat_key), pairs_doc(ps, im)));
    }
    if let Some(qs) = &sel.expressions {
        let ghost qv = crate::selector::reqs_view(qs@);
        let n = qs.len();
        let mut docs: Vec<DocValue> = Vec::new();
        proof {
            assert(qv.len() == qs@.len());
        }
        let mut i: usize = 0;
        while i < n
            invariant
                i <= n,
                n == qs@.len(),
                qv == crate::selector::reqs_view(qs@),
                qv.len() == n,
                sel_valid(sel@, im@),
                sel@.expressions == Some(qv),
                docs@.len() == i,
                forall|j: int|
                    0 <= j < i ==> #[trigger] crate::doc::docs_view(docs@)[j] == doc_of_req(
                        raw_of_req(qv[j], im@),
                    ),
            decreases n - i,
        {
            proof {
                assert(qv[i as int] == qs@[i as int]@);
                assert(qv[i as int].key.key < im@.len() && (match qv[
                    i as int
                ].value_requirement {
                    ValueReqView::In(vs) => forall|j: int|
                        0 <= j < vs.len() ==> (#[trigger] vs[j]).key < im@.len(),
                    ValueReqView::NotIn(vs) => forall|j: int|
                        0 <= j < vs.len() ==> (#[trigger] vs[j]).key < im@.len(),
                    ValueReqView::Exists => true,
                    ValueReqView::DoesNotExist => true,
                }));
            }
            let d = req_doc(&qs[i], im);
            let ghost prev = docs@;
            docs.push(d);
            proof {
                lemma_docs_view(docs@);
                lemma_docs_view(prev);
                assert forall|j: int|
                    0 <= j < i + 1 implies #[trigger] crate::doc::docs_view(docs@)[j]
                    == doc_of_req(raw_of_req(qv[j], im@)) by {
                    assert(crate::doc::docs_view(docs@)[j] == doc_view(docs@[j]));
                    if j < i {
                        assert(crate::doc::docs_view(prev)[j] == doc_view(prev[j]));
                    }
                }
            }
            i += 1;
        }
        acc.push((String::from_str("matchExpressions"), DocValue::List(docs)));
        proof {
            lemma_docs_view(docs@);
            let want = qv.map_values(|q: ReqView| raw_of_req(q, im@)).map_values(
                |rq: RawReqView| doc_of_req(rq),
            );
            assert(want.len() == qv.len());
            assert forall|j: int| 0 <= j < n implies #[trigger] crate::doc::docs_view(docs@)[j]
                == want[j] by {
                assert(want[j] == doc_of_req(qv.map_values(|q: ReqView| raw_of_req(q, im@))[j]));
                assert(qv.map_values(|q: ReqView| raw_of_req(q, im@))[j] == raw_of_req(
                    qv[j],
                    im@,
                ));
            }
            assert(crate::doc::docs_view(docs@) =~= want);
        }
    }
    let r = DocValue::Table(acc);
    proof {
        lemma_entries_view(acc@);
        let want = doc_of_sel(raw_of_sel(sel@, im@), flat_key@);
        assert forall|j: int| 0 <= j < acc@.len() implies #[trigger] entries_view(acc@)[j]
            == want->Table_0[j] by {
            assert(entries_view(acc@)[j] == (acc@[j].0@, doc_view(acc@[j].1)));
        }
        assert(entries_view(acc@) =~= want->Table_0);
    }
    r
}

} // verus!

verus! {

/// Serializes one device type.
fn type_doc(t: &crate::config::DeviceType, im: &Interner) -> (r: DocValue)
    requires
        t@.name.key < im@.len(),
        t@.subsystem.key < im@.len(),
        forall|j: int|
            0 <= j < t@.labels.len() ==> (#[trigger] t@.labels[j]).0.key < im@.len()
                && t@.labels[j].1.key < im@.len(),
        sel_valid(t@.selector, im@),
    ensures
        doc_view(r) == doc_of_type(raw_of_type(t@, im@)),
{
    proof {
        reveal_strlit("name");
        reveal_strlit("subsystem");
        reveal_strlit("access");
        reveal_strlit("labels");
        reveal_strlit("selector");
        reveal_strlit("matchAttributes");
    }
    let mut acc: Vec<(String, DocValue)> = Vec::new();
    acc.push((String::from_str("name"), DocValue::Str(im.resolve(t.name).clone())));
    acc.push((String::from_str("subsystem"), DocValue::Str(im.resolve(t.subsystem).clone())));
    acc.push((String::from_str("access"), access_doc(t.access)));
    acc.push((String::from_str("labels"), pairs_doc(&t.labels.entries, im)));
    acc.push((String::from_str("selector"), sel_doc(&t.selector.selector, "matchAttributes", im)));
    let r = DocValue::Table(acc);
    proof {
        lemma_entries_view(acc@);
        let want = doc_of_type(raw_of_type(t@, im@));
        assert forall|j: int| 0 <= j < acc@.len() implies #[trigger] entries_view(acc@)[j]
            == want->Table_0[j] by {
            assert(entries_view(acc@)[j] == (acc@[j].0@, doc_view(acc@[j].1)));
        }
        assert(entries_view(acc@) =~= want->Table_0);
    }
    r
}

/// Serializes one device class.
fn class_doc(c: &crate::config::DeviceClass, im: &Interner) -> (r: DocValue)
    requires
        c@.subsystem.key < im@.len(),
        c@.name.key < im@.len(),
        c@.target.key < im@.len(),
        sel_valid(c@.selector, im@),
    ensures
        doc_view(r) == doc_of_class(raw_of_class(c@, im@)),
{
    proof {
        reveal_strlit("name");
        reveal_strlit("subsystem");
        reveal_strlit("target");
        reveal_strlit("selector");
        reveal_strlit("matchLabels");
    }
    let mut acc: Vec<(String, DocValue)> = Vec::new();
    acc.push((String::from_str("subsystem"), DocValue::Str(im.resolve(c.subsystem).clone())));
    acc.push((String::from_str("name"), DocValue::Str(im.resolve(c.name).clone())));
    acc.push((String::from_str("target"), DocValue::Str(im.resolve(c.target).clone())));
    acc.push((String::from_str("selector"), sel_doc(&c.selector.selector, "matchLabels", im)));
    let r = DocValue::Table(acc);
    proof {
        lemma_entries_view(acc@);
        let want = doc_of_class(raw_of_class(c@, im@));
        assert forall|j: int| 0 <= j < acc@.len() implies #[trigger] entries_view(acc@)[j]
            == want->Table_0[j] by {
            assert(entries_view(acc@)[j] == (acc@[j].0@, doc_view(acc@[j].1)));
        }
        assert(entries_view(acc@) =~= want->Table_0);
    }
    r
}

/// Serializes a whole configuration to a document: the `devices` list
/// then the `deviceClasses` list, every interned name written back out.
pub fn config_to_doc(c: &crate::config::Config, im: &Interner) -> (r: DocValue)
    requires
        config_valid(*c, im@),
    ensures
        doc_view(r) == doc_of_config(raw_of_config(*c, im@)),
{
    proof {
        reveal_strlit("devices");
        reveal_strlit("deviceClasses");
    }
    let ghost rc = raw_of_config(*c, im@);
    let n = c.device_types.len();
    let mut tdocs: Vec<DocValue> = Vec::new();
    let mut i: usize = 0;
    while i < n
        invariant
            i <= n,
            n == c.device_types@.len(),
            config_valid(*c, im@),
            rc == raw_of_config(*c, im@),
            tdocs@.len() == i,
            forall|j: int|
                0 <= j < i ==> #[trigger] crate::doc::docs_view(tdocs@)[j] == doc_of_type(
                    rc.types[j],
                ),
        decreases n - i,
    {
        let d = type_doc(&c.device_types[i], im);
        let ghost prev = tdocs@;
        tdocs.push(d);
        proof {
            lemma_docs_view(tdocs@);
            lemma_docs_view(prev);
            assert(rc.types[i as int] == raw_of_type(c.device_types@[i as int]@, im@));
            assert forall|j: int| 0 <= j < i + 1 implies #[trigger] crate::doc::docs_view(
                tdocs@,
            )[j] == doc_of_type(rc.types[j]) by {
                assert(crate::doc::docs_view(tdocs@)[j] == doc_view(tdocs@[j]));
                if j < i {
                    assert(crate::doc::docs_view(prev)[j] == doc_view(prev[j]));
                }
            }
        }
        i += 1;
    }
    let m = c.device_classes.len();
    let mut cdocs: Vec<DocValue> = Vec::new();
    let mut k: usize = 0;
    while k < m
        invariant
            k <= m,
            m == c.device_classes@.len(),
            config_valid(*c, im@),
            rc == raw_of_config(*c, im@),
            cdocs@.len() == k,
            forall|j: int|
                0 <= j < k ==> #[trigger] crate::doc::docs_view(cdocs@)[j] == doc_of_class(
                    rc.classes[j],
                ),
        decreases m - k,
    {
        let d = class_doc(&c.device_classes[k], im);
        let ghost prev = cdocs@;
        cdocs.push(d);
        proof {
            lemma_docs_view(cdocs@);
            lemma_docs_view(prev);
            assert(rc.classes[k as int] == raw_of_class(c.device_classes@[k as int]@, im@));
            assert forall|j: int| 0 <= j < k + 1 implies #[trigger] crate::doc::docs_view(
                cdocs@,
            )[j] == doc_of_class(rc.classes[j]) by {
                assert(crate::doc::docs_view(cdocs@)[j] == doc_view(cdocs@[j]));
                if j < k {
                    assert(crate::doc::docs_view(prev)[j] == doc_view(prev[j]));
                }
            }
        }
        k += 1;
    }
    let mut acc: Vec<(String, DocValue)> = Vec::new();
    acc.push((String::from_str("devices"), DocValue::List(tdocs)));
    acc.push((String::from_str("deviceClasses"), DocValue::List(cdocs)));
    let r = DocValue::Table(acc);
    proof {
        lemma_entries_view(acc@);
        lemma_docs_view(acc@[0].1->List_0@);
        lemma_docs_view(acc@[1].1->List_0@);
        let want = doc_of_config(rc);
        assert(crate::doc::docs_view(tdocs@) =~= rc.types.map_values(
            |t: RawTypeView| doc_of_type(t),
        ));
        assert(crate::doc::docs_view(cdocs@) =~= rc.classes.map_values(
            |cl: RawClassView| doc_of_class(cl),
        ));
        assert forall|j: int| 0 <= j < acc@.len() implies #[trigger] entries_view(acc@)[j]
            == want->Table_0[j] by {
            assert(entries_view(acc@)[j] == (acc@[j].0@, doc_view(acc@[j].1)));
        }
        assert(entries_view(acc@) =~= want->Table_0);
    }
    r
}

} // verus!

verus! {

/// Keys strictly ascending in lexicographic order.
pub open spec fn pairs_sorted(ps: Seq<(Seq<char>, Seq<char>)>) -> bool {
    forall|i: int, j: int|
        0 <= i < j < ps.len() ==> lex_lt((#[trigger] ps[i]).0, (#[trigger] ps[j]).0)
}

/// A string list serializes and parses back unchanged.
proof fn lemma_str_list_round(ss: Seq<Seq<char>>)
    ensures
        spec_str_list(ss.map_values(|s: Seq<char>| DocView::Str(s))) == Some(ss),
    decreases ss.len(),
{
    let docs = ss.map_values(|s: Seq<char>| DocView::Str(s));
    if ss.len() == 0 {
        assert(docs.len() == 0);
        assert(spec_str_list(docs) == Some(Seq::<Seq<char>>::empty()));
        assert(ss =~= Seq::<Seq<char>>::empty());
    } else {
        lemma_str_list_round(ss.skip(1));
        assert(docs.len() == ss.len());
        assert(docs[0] == DocView::Str(ss[0]));
        assert(docs.skip(1) =~= ss.skip(1).map_values(|s: Seq<char>| DocView::Str(s))) by {
            let a = docs.skip(1);
            let b = ss.skip(1).map_values(|s: Seq<char>| DocView::Str(s));
            assert(b.len() == ss.skip(1).len());
            assert forall|i: int| 0 <= i < a.len() implies a[i] == b[i] by {
                assert(a[i] == docs[i + 1]);
                assert(docs[i + 1] == DocView::Str(ss[i + 1]));
                assert(b[i] == DocView::Str(ss.skip(1)[i]));
                assert(ss.skip(1)[i] == ss[i + 1]);
            }
        }
        assert(seq![ss[0]] + ss.skip(1) =~= ss);
    }
}

/// The string entries of a serialized flat map are the pairs themselves.
proof fn lemma_str_entries_round(ps: Seq<(Seq<char>, Seq<char>)>)
    ensures
        spec_str_entries(
            ps.map_values(|p: (Seq<char>, Seq<char>)| (p.0, DocView::Str(p.1))),
        ) == Some(ps),
    decreases ps.len(),
{
    let es = ps.map_values(|p: (Seq<char>, Seq<char>)| (p.0, DocView::Str(p.1)));
    if ps.len() == 0 {
        assert(es.len() == 0);
        assert(ps =~= Seq::<(Seq<char>, Seq<char>)>::empty());
    } else {
        lemma_str_entries_round(ps.skip(1));
        assert(es.len() == ps.len());
        assert(es[0] == (ps[0].0, DocView::Str(ps[0].1)));
        assert(es.skip(1) =~= ps.skip(1).map_values(
            |p: (Seq<char>, Seq<char>)| (p.0, DocView::Str(p.1)),
        )) by {
            let a = es.skip(1);
            let b = ps.skip(1).map_values(|p: (Seq<char>, Seq<char>)| (p.0, DocView::Str(p.1)));
            assert(b.len() == ps.skip(1).len());
            assert forall|i: int| 0 <= i < a.len() implies a[i] == b[i] by {
                assert(a[i] == es[i + 1]);
                assert(es[i + 1] == (ps[i + 1].0, DocView::Str(ps[i + 1].1)));
                assert(b[i] == (ps.skip(1)[i].0, DocView::Str(ps.skip(1)[i].1)));
                assert(ps.skip(1)[i] == ps[i + 1]);
            }
        }
        assert(seq![(ps[0].0, ps[0].1)] + ps.skip(1) =~= ps);
        assert((ps[0].0, ps[0].1) == ps[0]);
    }
}

/// Inserting a pair greater than everything appends it.
proof fn lemma_sorted_insert_at_end(ps: Seq<(Seq<char>, Seq<char>)>, p: (Seq<char>, Seq<char>))
    requires
        forall|i: int| 0 <= i < ps.len() ==> lex_lt((#[trigger] ps[i]).0, p.0),
    ensures
        sorted_insert_pair(ps, p) == ps.push(p),
    decreases ps.len(),
{
    if ps.len() == 0 {
        assert(sorted_insert_pair(ps, p) =~= ps.push(p));
    } else {
        crate::strutil::lemma_lex_trichotomy(p.0, ps[0].0);
        assert(!lex_lt(p.0, ps[0].0));
        assert forall|i: int| 0 <= i < ps.skip(1).len() implies lex_lt(
            (#[trigger] ps.skip(1)[i]).0,
            p.0,
        ) by {
            assert(ps.skip(1)[i] == ps[i + 1]);
        }
        lemma_sorted_insert_at_end(ps.skip(1), p);
        assert(seq![ps[0]] + ps.skip(1).push(p) =~= ps.push(p));
    }
}

/// Sorting entries that are already sorted is the identity.
proof fn lemma_sort_sorted(ps: Seq<(Seq<char>, Seq<char>)>)
    requires
        pairs_sorted(ps),
    ensures
        spec_sort_pairs(ps) == ps,
    decreases ps.len(),
{
    if ps.len() > 0 {
        assert(pairs_sorted(ps.drop_last())) by {
            assert forall|i: int, j: int|
                0 <= i < j < ps.drop_last().len() implies lex_lt(
                (#[trigger] ps.drop_last()[i]).0,
                (#[trigger] ps.drop_last()[j]).0,
            ) by {
                assert(ps.drop_last()[i] == ps[i]);
                assert(ps.drop_last()[j] == ps[j]);
            }
        }
        lemma_sort_sorted(ps.drop_last());
        assert forall|i: int| 0 <= i < ps.drop_last().len() implies lex_lt(
            (#[trigger] ps.drop_last()[i]).0,
            ps.last().0,
        ) by {
            assert(ps.drop_last()[i] == ps[i]);
        }
        lemma_sorted_insert_at_end(ps.drop_last(), ps.last());
        assert(ps.drop_last().push(ps.last()) =~= ps);
    }
}

/// A key-sorted flat map serializes and parses back unchanged.
proof fn lemma_pairs_round(ps: Seq<(Seq<char>, Seq<char>)>)
    requires
        pairs_sorted(ps),
    ensures
        spec_str_map(doc_of_pairs(ps)) == Some(ps),
{
    lemma_str_entries_round(ps);
    assert(spec_keys_unique(ps)) by {
        assert forall|i: int, j: int| 0 <= i < j < ps.len() implies (#[trigger] ps[i]).0 != (
        #[trigger] ps[j]).0 by {
            crate::strutil::lemma_lex_trichotomy(ps[i].0, ps[j].0);
        }
    }
    lemma_sort_sorted(ps);
}

/// A canonical access policy serializes and parses back unchanged:
/// bounded policies carry a bound in `2 ..= 255`, since the bound `1`
/// reads back as the exclusive policy.
pub open spec fn access_canonical(a: DeviceAccess) -> bool {
    match a {
        DeviceAccess::Exclusive => true,
        DeviceAccess::AtMost(n) => 2 <= n <= 255,
    }
}

proof fn lemma_access_round(a: DeviceAccess)
    requires
        access_canonical(a),
    ensures
        spec_access(Some(doc_of_access(a))) == Some(a),
{
}

} // verus!

verus! {

/// A name keying no entry reads as an absent field.
proof fn lemma_field_absent(es: Seq<(Seq<char>, DocView)>, name: Seq<char>)
    requires
        forall|j: int| 0 <= j < es.len() ==> (#[trigger] es[j]).0 != name,
    ensures
        count_key(es, name) == 0,
        get_key(es, name) is None,
        spec_field(es, name) == Some(None::<DocView>),
    decreases es.len(),
{
    if es.len() > 0 {
        assert forall|j: int| 0 <= j < es.skip(1).len() implies (#[trigger] es.skip(1)[j]).0
            != name by {
            assert(es.skip(1)[j] == es[j + 1]);
        }
        lemma_field_absent(es.skip(1), name);
    }
}

/// A name keying exactly the entry at `k` reads as that entry's value.
proof fn lemma_field_unique(es: Seq<(Seq<char>, DocView)>, name: Seq<char>, k: int)
    requires
        0 <= k < es.len(),
        es[k].0 == name,
        forall|j: int| 0 <= j < es.len() && j != k ==> (#[trigger] es[j]).0 != name,
    ensures
        count_key(es, name) == 1,
        get_key(es, name) == Some(es[k].1),
        spec_field(es, name) == Some(Some(es[k].1)),
    decreases es.len(),
{
    if k == 0 {
        assert forall|j: int| 0 <= j < es.skip(1).len() implies (#[trigger] es.skip(1)[j]).0
            != name by {
            assert(es.skip(1)[j] == es[j + 1]);
        }
        lemma_field_absent(es.skip(1), name);
    } else {
        assert forall|j: int|
            0 <= j < es.skip(1).len() && j != k - 1 implies (#[trigger] es.skip(1)[j]).0
            != name by {
            assert(es.skip(1)[j] == es[j + 1]);
        }
        assert(es.skip(1)[k - 1] == es[k]);
        lemma_field_unique(es.skip(1), name, k - 1);
    }
}

/// A requirement serializes and parses back unchanged.
proof fn lemma_req_round(rq: RawReqView)
    ensures
        spec_req(doc_of_req(rq)) == Some(rq),
{
    reveal_strlit("key");
    reveal_strlit("operator");
    reveal_strlit("values");
    reveal_strlit("In");
    reveal_strlit("NotIn");
    reveal_strlit("Exists");
    reveal_strlit("DoesNotExist");
    assert("key"@.len() == 3);
    assert("operator"@.len() == 8);
    assert("values"@.len() == 6);
    assert("In"@.len() == 2);
    assert("NotIn"@.len() == 5);
    assert("Exists"@.len() == 6);
    assert("DoesNotExist"@.len() == 12);
    let es = doc_of_req(rq)->Table_0;
    match rq.vr {
        RawValueReq::In(ss) => {
            lemma_field_unique(es, "key"@, 0);
            lemma_field_unique(es, "operator"@, 1);
            lemma_field_unique(es, "values"@, 2);
            lemma_str_list_round(ss);
        },
        RawValueReq::NotIn(ss) => {
            lemma_field_unique(es, "key"@, 0);
            lemma_field_unique(es, "operator"@, 1);
            lemma_field_unique(es, "values"@, 2);
            lemma_str_list_round(ss);
        },
        RawValueReq::Exists => {
            lemma_field_unique(es, "key"@, 0);
            lemma_field_unique(es, "operator"@, 1);
            lemma_field_absent(es, "values"@);
        },
        RawValueReq::DoesNotExist => {
            lemma_field_unique(es, "key"@, 0);
            lemma_field_unique(es, "operator"@, 1);
            lemma_field_absent(es, "values"@);
        },
    }
}

/// A requirement list serializes and parses back unchanged.
proof fn lemma_reqs_round(qs: Seq<RawReqView>)
    ensures
        spec_reqs(qs.map_values(|q: RawReqView| doc_of_req(q))) == Some(qs),
    decreases qs.len(),
{
    let docs = qs.map_values(|q: RawReqView| doc_of_req(q));
    if qs.len() == 0 {
        assert(docs.len() == 0);
        assert(qs =~= Seq::<RawReqView>::empty());
    } else {
        lemma_reqs_round(qs.skip(1));
        assert(docs.len() == qs.len());
        assert(docs[0] == doc_of_req(qs[0]));
        lemma_req_round(qs[0]);
        assert(docs.skip(1) =~= qs.skip(1).map_values(|q: RawReqView| doc_of_req(q))) by {
            let a = docs.skip(1);
            let b = qs.skip(1).map_values(|q: RawReqView| doc_of_req(q));
            assert(b.len() == qs.skip(1).len());
            assert forall|i: int| 0 <= i < a.len() implies a[i] == b[i] by {
                assert(a[i] == docs[i + 1]);
                assert(docs[i + 1] == doc_of_req(qs[i + 1]));
                assert(b[i] == doc_of_req(qs.skip(1)[i]));
                assert(qs.skip(1)[i] == qs[i + 1]);
            }
        }
        assert(seq![qs[0]] + qs.skip(1) =~= qs);
    }
}

/// A canonical selector: any flat map is key-sorted.
pub open spec fn sel_canonical(rs: RawSelView) -> bool {
    match rs.flat {
        Some(ps) => pairs_sorted(ps),
        None => true,
    }
}

/// A canonical selector serializes and parses back unchanged.
proof fn lemma_sel_round(rs: RawSelView, flat_key: Seq<char>)
    requires
        sel_canonical(rs),
        flat_key != "matchExpressions"@,
    ensures
        spec_selector(doc_of_sel(rs, flat_key), flat_key) == Some(rs),
{
    let es = doc_of_sel(rs, flat_key)->Table_0;
    match (rs.flat, rs.exprs) {
        (Some(ps), Some(qs)) => {
            assert(es.len() == 2);
            assert(es[0] == (flat_key, doc_of_pairs(ps)));
            assert(es[1] == (
                "matchExpressions"@,
                DocView::List(qs.map_values(|q: RawReqView| doc_of_req(q))),
            ));
            lemma_field_unique(es, flat_key, 0);
            lemma_field_unique(es, "matchExpressions"@, 1);
            lemma_pairs_round(ps);
            lemma_reqs_round(qs);
        },
        (Some(ps), None) => {
            assert(es =~= seq![(flat_key, doc_of_pairs(ps))]);
            lemma_field_unique(es, flat_key, 0);
            lemma_field_absent(es, "matchExpressions"@);
            lemma_pairs_round(ps);
        },
        (None, Some(qs)) => {
            assert(es =~= seq![
                (
                    "matchExpressions"@,
                    DocView::List(qs.map_values(|q: RawReqView| doc_of_req(q))),
                ),
            ]);
            lemma_field_absent(es, flat_key);
            lemma_field_unique(es, "matchExpressions"@, 0);
            lemma_reqs_round(qs);
        },
        (None, None) => {
            assert(es =~= Seq::<(Seq<char>, DocView)>::empty());
            lemma_field_absent(es, flat_key);
            lemma_field_absent(es, "matchExpressions"@);
        },
    }
}

} // verus!

verus! {

/// A canonical device type: canonical access policy, key-sorted labels,
/// canonical selector.
pub open spec fn type_canonical(rt: RawTypeView) -> bool {
    access_canonical(rt.access) && pairs_sorted(rt.labels) && sel_canonical(rt.selector)
}

/// A canonical device class: canonical selector.
pub open spec fn class_canonical(rc: RawClassView) -> bool {
    sel_canonical(rc.selector)
}

/// A canonical device type serializes and parses back unchanged.
proof fn lemma_type_round(rt: RawTypeView)
    requires
        type_canonical(rt),
    ensures
        spec_type(doc_of_type(rt)) == Some(rt),
{
    reveal_strlit("name");
    reveal_strlit("subsystem");
    reveal_strlit("access");
    reveal_strlit("labels");
    reveal_strlit("selector");
    reveal_strlit("matchAttributes");
    reveal_strlit("matchExpressions");
    assert("name"@.len() == 4);
    assert("subsystem"@.len() == 9);
    assert("access"@.len() == 6);
    assert("labels"@.len() == 6);
    assert("selector"@.len() == 8);
    assert("access"@[0] != "labels"@[0]);
    assert("matchAttributes"@.len() == 15);
    assert("matchExpressions"@.len() == 16);
    let es = doc_of_type(rt)->Table_0;
    lemma_field_unique(es, "name"@, 0);
    lemma_field_unique(es, "subsystem"@, 1);
    lemma_field_unique(es, "access"@, 2);
    lemma_field_unique(es, "labels"@, 3);
    lemma_field_unique(es, "selector"@, 4);
    lemma_access_round(rt.access);
    lemma_pairs_round(rt.labels);
    lemma_sel_round(rt.selector, "matchAttributes"@);
}

/// A canonical device class serializes and parses back unchanged.
proof fn lemma_class_round(rc: RawClassView)
    requires
        class_canonical(rc),
    ensures
        spec_class(doc_of_class(rc)) == Some(rc),
{
    reveal_strlit("name");
    reveal_strlit("subsystem");
    reveal_strlit("target");
    reveal_strlit("selector");
    reveal_strlit("matchLabels");
    reveal_strlit("matchExpressions");
    assert("name"@.len() == 4);
    assert("subsystem"@.len() == 9);
    assert("target"@.len() == 6);
    assert("selector"@.len() == 8);
    assert("matchLabels"@.len() == 11);
    assert("matchExpressions"@.len() == 16);
    let es = doc_of_class(rc)->Table_0;
    lemma_field_unique(es, "subsystem"@, 0);
    lemma_field_unique(es, "name"@, 1);
    lemma_field_unique(es, "target"@, 2);
    lemma_field_unique(es, "selector"@, 3);
    lemma_sel_round(rc.selector, "matchLabels"@);
}

/// A type list serializes and parses back unchanged.
proof fn lemma_types_round(ts: Seq<RawTypeView>)
    requires
        forall|i: int| 0 <= i < ts.len() ==> type_canonical(#[trigger] ts[i]),
    ensures
        spec_types(ts.map_values(|t: RawTypeView| doc_of_type(t))) == Some(ts),
    decreases ts.len(),
{
    let docs = ts.map_values(|t: RawTypeView| doc_of_type(t));
    if ts.len() == 0 {
        assert(docs.len() == 0);
        assert(ts =~= Seq::<RawTypeView>::empty());
    } else {
        assert forall|i: int| 0 <= i < ts.skip(1).len() implies type_canonical(
            #[trigger] ts.skip(1)[i],
        ) by {
            assert(ts.skip(1)[i] == ts[i + 1]);
        }
        lemma_types_round(ts.skip(1));
        assert(docs.len() == ts.len());
        assert(docs[0] == doc_of_type(ts[0]));
        lemma_type_round(ts[0]);
        assert(docs.skip(1) =~= ts.skip(1).map_values(|t: RawTypeView| doc_of_type(t))) by {
            let a = docs.skip(1);
            let b = ts.skip(1).map_values(|t: RawTypeView| doc_of_type(t));
            assert(b.len() == ts.skip(1).len());
            assert forall|i: int| 0 <= i < a.len() implies a[i] == b[i] by {
                assert(a[i] == docs[i + 1]);
                assert(docs[i + 1] == doc_of_type(ts[i + 1]));
                assert(b[i] == doc_of_type(ts.skip(1)[i]));
                assert(ts.skip(1)[i] == ts[i + 1]);
            }
        }
        assert(seq![ts[0]] + ts.skip(1) =~= ts);
    }
}

/// A class list serializes and parses back unchanged.
proof fn lemma_classes_round(cs: Seq<RawClassView>)
    requires
        forall|i: int| 0 <= i < cs.len() ==> class_canonical(#[trigger] cs[i]),
    ensures
        spec_classes(cs.map_values(|c: RawClassView| doc_of_class(c))) == Some(cs),
    decreases cs.len(),
{
    let docs = cs.map_values(|c: RawClassView| doc_of_class(c));
    if cs.len() == 0 {
        assert(docs.len() == 0);
        assert(cs =~= Seq::<RawClassView>::empty());
    } else {
        assert forall|i: int| 0 <= i < cs.skip(1).len() implies class_canonical(
            #[trigger] cs.skip(1)[i],
        ) by {
            assert(cs.skip(1)[i] == cs[i + 1]);
        }
        lemma_classes_round(cs.skip(1));
        assert(docs.len() == cs.len());
        assert(docs[0] == doc_of_class(cs[0]));
        lemma_class_round(cs[0]);
        assert(docs.skip(1) =~= cs.skip(1).map_values(|c: RawClassView| doc_of_class(c))) by {
            let a = docs.skip(1);
            let b = cs.skip(1).map_values(|c: RawClassView| doc_of_class(c));
            assert(b.len() == cs.skip(1).len());
            assert forall|i: int| 0 <= i < a.len() implies a[i] == b[i] by {
                assert(a[i] == docs[i + 1]);
                assert(docs[i + 1] == doc_of_class(cs[i + 1]));
                assert(b[i] == doc_of_class(cs.skip(1)[i]));
                assert(cs.skip(1)[i] == cs[i + 1]);
            }
        }
        assert(seq![cs[0]] + cs.skip(1) =~= cs);
    }
}

/// A canonical configuration: every type and class is canonical.  A
/// parsed configuration is always canonical; a hand-built one is
/// canonical unless its maps are unsorted or a bounded access policy
/// carries the bound one, which serializes to the integer one and reads
/// back as the exclusive policy.
pub open spec fn config_canonical(rc: RawConfigView) -> bool {
    (forall|i: int| 0 <= i < rc.types.len() ==> type_canonical(#[trigger] rc.types[i])) && (forall|
        i: int,
    | 0 <= i < rc.classes.len() ==> class_canonical(#[trigger] rc.classes[i]))
}

/// Round trip: a canonical configuration, serialized to a document and
/// read back through the schema, is unchanged.
pub proof fn lemma_config_round_trip(rc: RawConfigView)
    requires
        config_canonical(rc),
    ensures
        spec_config(doc_of_config(rc)) == Some(rc),
{
    reveal_strlit("devices");
    reveal_strlit("deviceClasses");
    assert("devices"@.len() == 7);
    assert("deviceClasses"@.len() == 13);
    let es = doc_of_config(rc)->Table_0;
    lemma_field_unique(es, "devices"@, 0);
    lemma_field_unique(es, "deviceClasses"@, 1);
    lemma_types_round(rc.types);
    lemma_classes_round(rc.classes);
}

} // verus!

verus! {

/// A handle that stands, under a grown table, for what `h` stands for
/// under the original table is `h` itself.
proof fn lemma_same_handle(
    h: InternedString,
    h2: InternedString,
    m: Seq<Seq<char>>,
    m2: Seq<Seq<char>>,
)
    requires
        h.key < m.len(),
        rep_str(h2, m2, m[h.key as int]),
        interner_extends(m2, m),
        crate::intern::distinct_seqs(m2),
    ensures
        h2 == h,
{
    assert(m2[h.key as int] == m[h.key as int]);
    crate::intern::lemma_intern_handle_eq(m2, h, h2);
}

/// A selector parsed back from a serialized selector is the same
/// selector.
proof fn lemma_same_sel(
    sv: SelectorView,
    sv2: SelectorView,
    m: Seq<Seq<char>>,
    m2: Seq<Seq<char>>,
)
    requires
        sel_valid(sv, m),
        rep_sel(sv2, m2, raw_of_sel(sv, m)),
        interner_extends(m2, m),
        crate::intern::distinct_seqs(m2),
    ensures
        sv2 == sv,
{
    let raw = raw_of_sel(sv, m);
    match (sv.flat, sv2.flat) {
        (Some(ps), Some(ps2)) => {
            assert(ps2.len() == ps.len());
            assert forall|i: int| 0 <= i < ps.len() implies ps2[i] == ps[i] by {
                assert(raw.flat->0[i] == (m[ps[i].0.key as int], m[ps[i].1.key as int]));
                assert(rep_str(ps2[i].0, m2, raw.flat->0[i].0));
                assert(rep_str(ps2[i].1, m2, raw.flat->0[i].1));
                lemma_same_handle(ps[i].0, ps2[i].0, m, m2);
                lemma_same_handle(ps[i].1, ps2[i].1, m, m2);
            }
            assert(ps2 =~= ps);
        },
        (None, None) => {},
        _ => {
            assert(false);
        },
    }
    match (sv.expressions, sv2.expressions) {
        (Some(qs), Some(qs2)) => {
            assert(qs2.len() == qs.len());
            assert forall|i: int| 0 <= i < qs.len() implies qs2[i] == qs[i] by {
                let rq = raw.exprs->0[i];
                assert(rq == raw_of_req(qs[i], m));
                assert(rep_req(qs2[i], m2, rq));
                lemma_same_handle(qs[i].key, qs2[i].key, m, m2);
                match (qs[i].value_requirement, qs2[i].value_requirement) {
                    (ValueReqView::In(vs), ValueReqView::In(vs2)) => {
                        assert(vs2.len() == vs.len());
                        assert forall|j: int| 0 <= j < vs.len() implies vs2[j] == vs[j] by {
                            assert(rq.vr->In_0[j] == m[vs[j].key as int]);
                            assert(rep_str(vs2[j], m2, rq.vr->In_0[j]));
                            lemma_same_handle(vs[j], vs2[j], m, m2);
                        }
                        assert(vs2 =~= vs);
                    },
                    (ValueReqView::NotIn(vs), ValueReqView::NotIn(vs2)) => {
                        assert(vs2.len() == vs.len());
                        assert forall|j: int| 0 <= j < vs.len() implies vs2[j] == vs[j] by {
                            assert(rq.vr->NotIn_0[j] == m[vs[j].key as int]);
                            assert(rep_str(vs2[j], m2, rq.vr->NotIn_0[j]));
                            lemma_same_handle(vs[j], vs2[j], m, m2);
                        }
                        assert(vs2 =~= vs);
                    },
                    (ValueReqView::Exists, ValueReqView::Exists) => {},
                    (ValueReqView::DoesNotExist, ValueReqView::DoesNotExist) => {},
                    _ => {
                        assert(false);
                    },
                }
            }
            assert(qs2 =~= qs);
        },
        (None, None) => {},
        _ => {
            assert(false);
        },
    }
}

/// Round trip at the handle level: a configuration serialized to a
/// document and parsed back — into the same interner, which has only
/// grown meanwhile — is the same configuration, handle for handle.
/// Together with `lemma_config_round_trip`, which says the document
/// survives the schema unchanged, this is the parse/serialize law.
pub proof fn lemma_round_trip_same_config(
    c: crate::config::Config,
    c2: crate::config::Config,
    m: Seq<Seq<char>>,
    m2: Seq<Seq<char>>,
)
    requires
        config_valid(c, m),
        rep_config(c2, m2, raw_of_config(c, m)),
        interner_extends(m2, m),
        crate::intern::distinct_seqs(m2),
    ensures
        c2.device_types@.len() == c.device_types@.len(),
        forall|i: int|
            0 <= i < c.device_types@.len() ==> (#[trigger] c2.device_types@[i])@
                == c.device_types@[i]@,
        c2.device_classes@.len() == c.device_classes@.len(),
        forall|i: int|
            0 <= i < c.device_classes@.len() ==> (#[trigger] c2.device_classes@[i])@
                == c.device_classes@[i]@,
{
    let rc = raw_of_config(c, m);
    assert forall|i: int| 0 <= i < c.device_types@.len() implies (
    #[trigger] c2.device_types@[i])@ == c.device_types@[i]@ by {
        let t = c.device_types@[i]@;
        let t2 = c2.device_types@[i]@;
        assert(rc.types[i] == raw_of_type(t, m));
        assert(rep_type(t2, m2, rc.types[i]));
        lemma_same_handle(t.name, t2.name, m, m2);
        lemma_same_handle(t.subsystem, t2.subsystem, m, m2);
        assert(t2.labels.len() == t.labels.len());
        assert forall|j: int| 0 <= j < t.labels.len() implies t2.labels[j] == t.labels[j] by {
            assert(rc.types[i].labels[j] == (
                m[t.labels[j].0.key as int],
                m[t.labels[j].1.key as int],
            ));
            assert(rep_str(t2.labels[j].0, m2, rc.types[i].labels[j].0));
            assert(rep_str(t2.labels[j].1, m2, rc.types[i].labels[j].1));
            lemma_same_handle(t.labels[j].0, t2.labels[j].0, m, m2);
            lemma_same_handle(t.labels[j].1, t2.labels[j].1, m, m2);
        }
        assert(t2.labels =~= t.labels);
        lemma_same_sel(t.selector, t2.selector, m, m2);
    }
    assert forall|i: int| 0 <= i < c.device_classes@.len() implies (
    #[trigger] c2.device_classes@[i])@ == c.device_classes@[i]@ by {
        let cl = c.device_classes@[i]@;
        let cl2 = c2.device_classes@[i]@;
        assert(rc.classes[i] == raw_of_class(cl, m));
        assert(rep_class(cl2, m2, rc.classes[i]));
        lemma_same_handle(cl.subsystem, cl2.subsystem, m, m2);
        lemma_same_handle(cl.name, cl2.name, m, m2);
        lemma_same_handle(cl.target, cl2.target, m, m2);
        lemma_same_sel(cl.selector, cl2.selector, m, m2);
    }
}

} // verus!

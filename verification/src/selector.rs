//! The selector language and matcher.
//!
//! A selector is an optional flat key/value map plus an optional list of
//! requirements.  A flat entry is shorthand for an `In` requirement with a
//! singleton value set.  Matching evaluates flat entries first, in stored
//! (key-sorted) order, then requirements in declared order; every failing
//! predicate contributes one structured mismatch, and nothing
//! short-circuits.

use vstd::prelude::*;

use crate::attrs::{spec_present, AttrMap, AttributeValue};
use crate::intern::InternedString;

verus! {

/// A key's required relationship to a set of values.
#[derive(Clone, Debug)]
pub enum SelectorValueRequirement {
    /// Require that the value is one of a set of values.
    In(Vec<InternedString>),
    /// Require that the value is not one of a set of values.
    NotIn(Vec<InternedString>),
    /// Require that a value exists.
    Exists,
    /// Require that a value does not exist.
    DoesNotExist,
}

/// One structured requirement of a selector.
#[derive(Clone, Debug)]
pub struct SelectorRequirement {
    /// The attribute key that the requirement applies to.
    pub key: InternedString,
    /// The key's required relationship to a set of values.
    pub value_requirement: SelectorValueRequirement,
}

/// Ghost counterpart of [`SelectorValueRequirement`], with value lists as
/// sequences.
pub ghost enum ValueReqView {
    In(Seq<InternedString>),
    NotIn(Seq<InternedString>),
    Exists,
    DoesNotExist,
}

/// Ghost counterpart of [`SelectorRequirement`].
pub ghost struct ReqView {
    pub key: InternedString,
    pub value_requirement: ValueReqView,
}

/// Ghost counterpart of [`Selector`].
pub ghost struct SelectorView {
    pub flat: Option<Seq<(InternedString, InternedString)>>,
    pub expressions: Option<Seq<ReqView>>,
}

impl View for SelectorValueRequirement {
    type V = ValueReqView;

    open spec fn view(&self) -> ValueReqView {
        match self {
            SelectorValueRequirement::In(vs) => ValueReqView::In(vs@),
            SelectorValueRequirement::NotIn(vs) => ValueReqView::NotIn(vs@),
            SelectorValueRequirement::Exists => ValueReqView::Exists,
            SelectorValueRequirement::DoesNotExist => ValueReqView::DoesNotExist,
        }
    }
}

impl View for SelectorRequirement {
    type V = ReqView;

    open spec fn view(&self) -> ReqView {
        ReqView { key: self.key, value_requirement: self.value_requirement@ }
    }
}

impl View for Selector {
    type V = SelectorView;

    open spec fn view(&self) -> SelectorView {
        SelectorView {
            flat: match self.flat {
                Some(fl) => Some(fl@),
                None => None,
            },
            expressions: match self.expressions {
                Some(es) => Some(reqs_view(es@)),
                None => None,
            },
        }
    }
}

/// Names the flat-map key under which a selector kind is written in a
/// configuration document.
pub trait SelectorType {
    fn flat_keys_name() -> Option<&'static str>;
}

/// A selector: an optional flat map plus optional requirements.
#[derive(Clone, Debug)]
pub struct Selector {
    /// Flat entries, kept in key-sorted order; each is shorthand for an
    /// `In` requirement with a singleton value set.
    pub flat: Option<Vec<(InternedString, InternedString)>>,
    /// Structured requirements in declared order.
    pub expressions: Option<Vec<SelectorRequirement>>,
}

/// What a failed predicate expected of the key.
#[derive(Clone, Debug)]
pub enum Expected {
    /// The flat map required exactly this value.
    Value(InternedString),
    /// An `In` requirement required one of these values.
    OneOf(Vec<InternedString>),
    /// A `NotIn` requirement required none of these values.
    NoneOf(Vec<InternedString>),
    /// An `Exists` requirement required a present value.
    Present,
    /// A `DoesNotExist` requirement required an absent value.
    Absent,
}

/// One structured mismatch reason: the key, what was expected of it, and
/// the present value actually found (if any).
#[derive(Clone, Debug)]
pub struct Mismatch {
    pub key: InternedString,
    pub expected: Expected,
    pub actual: Option<InternedString>,
}

/// Ghost counterpart of [`Expected`], with value lists as sequences.
pub ghost enum ExpectedView {
    Value(InternedString),
    OneOf(Seq<InternedString>),
    NoneOf(Seq<InternedString>),
    Present,
    Absent,
}

/// Ghost counterpart of [`Mismatch`].
pub ghost struct MismatchView {
    pub key: InternedString,
    pub expected: ExpectedView,
    pub actual: Option<InternedString>,
}

impl View for Expected {
    type V = ExpectedView;

    open spec fn view(&self) -> ExpectedView {
        match self {
            Expected::Value(v) => ExpectedView::Value(*v),
            Expected::OneOf(vs) => ExpectedView::OneOf(vs@),
            Expected::NoneOf(vs) => ExpectedView::NoneOf(vs@),
            Expected::Present => ExpectedView::Present,
            Expected::Absent => ExpectedView::Absent,
        }
    }
}

impl View for Mismatch {
    type V = MismatchView;

    open spec fn view(&self) -> MismatchView {
        MismatchView { key: self.key, expected: self.expected@, actual: self.actual }
    }
}

/// The views of a list of mismatches, in order.
pub open spec fn reasons_view(ms: Seq<Mismatch>) -> Seq<MismatchView> {
    ms.map_values(|m: Mismatch| m@)
}

/// The views of a list of requirements, in order.
pub open spec fn reqs_view(es: Seq<SelectorRequirement>) -> Seq<ReqView> {
    es.map_values(|q: SelectorRequirement| q@)
}

/// Either a match, or the collected reasons the match failed.
#[derive(Clone, Debug)]
pub enum MatchResult {
    Matches,
    Mismatch(Vec<Mismatch>),
}

impl MatchResult {
    /// A single mismatch: `key` was expected to carry exactly `expected`.
    pub fn expected_value(
        key: InternedString,
        expected: InternedString,
        actual: Option<InternedString>,
    ) -> (r: MatchResult)
        ensures
            !(r is Matches),
            r.spec_reasons() == seq![
                MismatchView { key, expected: ExpectedView::Value(expected), actual },
            ],
            r matches MatchResult::Mismatch(ms) ==> ms@.len() > 0,
    {
        let ms = vec![Mismatch { key, expected: Expected::Value(expected), actual }];
        proof {
            assert(ms@ =~= seq![Mismatch { key, expected: Expected::Value(expected), actual }]);
            assert(reasons_view(ms@) =~= seq![
                MismatchView { key, expected: ExpectedView::Value(expected), actual },
            ]);
        }
        MatchResult::Mismatch(ms)
    }

    pub fn is_match(&self) -> (r: bool)
        ensures
            r == (self is Matches),
    {
        match self {
            MatchResult::Matches => true,
            MatchResult::Mismatch(_) => false,
        }
    }

    /// The mismatch reasons carried by the result; empty for a match.
    pub open spec fn spec_reasons(self) -> Seq<MismatchView> {
        match self {
            MatchResult::Matches => Seq::empty(),
            MatchResult::Mismatch(ms) => reasons_view(ms@),
        }
    }

    /// Monoidal combination: `Matches` is the unit, and the mismatch
    /// reasons of the two operands concatenate in order.
    pub fn combine(self, other: MatchResult) -> (r: MatchResult)
        requires
            self matches MatchResult::Mismatch(ms) ==> ms@.len() > 0,
            other matches MatchResult::Mismatch(ms) ==> ms@.len() > 0,
        ensures
            r.spec_reasons() == self.spec_reasons() + other.spec_reasons(),
            (r is Matches) <==> (self is Matches) && (other is Matches),
            r matches MatchResult::Mismatch(ms) ==> ms@.len() > 0,
    {
        match (self, other) {
            (MatchResult::Matches, o) => {
                proof {
                    assert(Seq::<MismatchView>::empty() + o.spec_reasons() =~= o.spec_reasons());
                }
                o
            },
            (MatchResult::Mismatch(ms), MatchResult::Matches) => {
                proof {
                    assert(reasons_view(ms@) + Seq::<MismatchView>::empty() =~= reasons_view(
                        ms@,
                    ));
                }
                MatchResult::Mismatch(ms)
            },
            (MatchResult::Mismatch(mut ms), MatchResult::Mismatch(mo)) => {
                let ghost left = ms@;
                let mut mo = mo;
                let ghost right = mo@;
                ms.append(&mut mo);
                proof {
                    assert(reasons_view(ms@) =~= reasons_view(left) + reasons_view(right));
                }
                MatchResult::Mismatch(ms)
            },
        }
    }
}

/// Whether one structured requirement holds of an attribute map.
pub open spec fn req_holds(req: ReqView, attrs: Seq<(InternedString, AttributeValue)>) -> bool {
    match req.value_requirement {
        ValueReqView::In(vs) => match spec_present(attrs, req.key) {
            Some(v) => vs.contains(v),
            None => false,
        },
        ValueReqView::NotIn(vs) => match spec_present(attrs, req.key) {
            Some(v) => !vs.contains(v),
            None => true,
        },
        ValueReqView::Exists => spec_present(attrs, req.key) is Some,
        ValueReqView::DoesNotExist => spec_present(attrs, req.key) is None,
    }
}

/// Whether one flat entry holds of an attribute map.
pub open spec fn flat_holds(
    key: InternedString,
    value: InternedString,
    attrs: Seq<(InternedString, AttributeValue)>,
) -> bool {
    spec_present(attrs, key) == Some(value)
}

/// The mismatch a failing flat entry reports.
pub open spec fn flat_mismatch(
    key: InternedString,
    value: InternedString,
    attrs: Seq<(InternedString, AttributeValue)>,
) -> MismatchView {
    MismatchView { key, expected: ExpectedView::Value(value), actual: spec_present(attrs, key) }
}

/// The mismatch a failing requirement reports.
pub open spec fn req_mismatch(
    req: ReqView,
    attrs: Seq<(InternedString, AttributeValue)>,
) -> MismatchView {
    MismatchView {
        key: req.key,
        expected: match req.value_requirement {
            ValueReqView::In(vs) => ExpectedView::OneOf(vs),
            ValueReqView::NotIn(vs) => ExpectedView::NoneOf(vs),
            ValueReqView::Exists => ExpectedView::Present,
            ValueReqView::DoesNotExist => ExpectedView::Absent,
        },
        actual: spec_present(attrs, req.key),
    }
}

/// Mismatches of the flat entries `fl`, in stored order.
pub open spec fn flat_mismatches(
    fl: Seq<(InternedString, InternedString)>,
    attrs: Seq<(InternedString, AttributeValue)>,
) -> Seq<MismatchView>
    decreases fl.len(),
{
    if fl.len() == 0 {
        Seq::empty()
    } else {
        flat_mismatches(fl.drop_last(), attrs) + (if flat_holds(
            fl.last().0,
            fl.last().1,
            attrs,
        ) {
            Seq::empty()
        } else {
            seq![flat_mismatch(fl.last().0, fl.last().1, attrs)]
        })
    }
}

/// Mismatches of the requirements `es`, in declared order.
pub open spec fn req_mismatches(
    es: Seq<ReqView>,
    attrs: Seq<(InternedString, AttributeValue)>,
) -> Seq<MismatchView>
    decreases es.len(),
{
    if es.len() == 0 {
        Seq::empty()
    } else {
        req_mismatches(es.drop_last(), attrs) + (if req_holds(es.last(), attrs) {
            Seq::empty()
        } else {
            seq![req_mismatch(es.last(), attrs)]
        })
    }
}

/// All mismatches a selector reports: flat entries first, then
/// requirements.
pub open spec fn sel_mismatches(
    sel: SelectorView,
    attrs: Seq<(InternedString, AttributeValue)>,
) -> Seq<MismatchView> {
    (match sel.flat {
        Some(fl) => flat_mismatches(fl, attrs),
        None => Seq::empty(),
    }) + (match sel.expressions {
        Some(es) => req_mismatches(es, attrs),
        None => Seq::empty(),
    })
}

/// Whether a selector matches: every flat entry and every requirement
/// holds.
pub open spec fn sel_matches(
    sel: SelectorView,
    attrs: Seq<(InternedString, AttributeValue)>,
) -> bool {
    (match sel.flat {
        Some(fl) => forall|i: int|
            0 <= i < fl.len() ==> flat_holds(#[trigger] fl[i].0, fl[i].1, attrs),
        None => true,
    }) && (match sel.expressions {
        Some(es) => forall|i: int| 0 <= i < es.len() ==> req_holds(#[trigger] es[i], attrs),
        None => true,
    })
}

/// A selector matches exactly when it reports no mismatch.
pub proof fn lemma_matches_iff_no_mismatch(
    sel: SelectorView,
    attrs: Seq<(InternedString, AttributeValue)>,
)
    ensures
        sel_matches(sel, attrs) <==> sel_mismatches(sel, attrs).len() == 0,
{
    if sel.flat is Some {
        lemma_flat_mismatches_empty(sel.flat->0, attrs);
    }
    if sel.expressions is Some {
        lemma_req_mismatches_empty(sel.expressions->0, attrs);
    }
}

proof fn lemma_flat_mismatches_empty(
    fl: Seq<(InternedString, InternedString)>,
    attrs: Seq<(InternedString, AttributeValue)>,
)
    ensures
        (flat_mismatches(fl, attrs).len() == 0) <==> (forall|i: int|
            0 <= i < fl.len() ==> flat_holds(#[trigger] fl[i].0, fl[i].1, attrs)),
    decreases fl.len(),
{
    if fl.len() > 0 {
        lemma_flat_mismatches_empty(fl.drop_last(), attrs);
        if flat_mismatches(fl, attrs).len() == 0 {
            assert forall|i: int| 0 <= i < fl.len() implies flat_holds(
                #[trigger] fl[i].0,
                fl[i].1,
                attrs,
            ) by {
                if i < fl.len() - 1 {
                    assert(fl.drop_last()[i] == fl[i]);
                } else {
                    assert(fl[i] == fl.last());
                }
            }
        } else {
            if flat_mismatches(fl.drop_last(), attrs).len() > 0 {
                let j = choose|j: int|
                    0 <= j < fl.drop_last().len() && !flat_holds(
                        fl.drop_last()[j].0,
                        fl.drop_last()[j].1,
                        attrs,
                    );
                assert(fl[j] == fl.drop_last()[j]);
            } else {
                assert(!flat_holds(fl.last().0, fl.last().1, attrs));
            }
        }
    }
}

proof fn lemma_req_mismatches_empty(
    es: Seq<ReqView>,
    attrs: Seq<(InternedString, AttributeValue)>,
)
    ensures
        (req_mismatches(es, attrs).len() == 0) <==> (forall|i: int|
            0 <= i < es.len() ==> req_holds(#[trigger] es[i], attrs)),
    decreases es.len(),
{
    if es.len() > 0 {
        lemma_req_mismatches_empty(es.drop_last(), attrs);
        if req_mismatches(es, attrs).len() == 0 {
            assert forall|i: int| 0 <= i < es.len() implies req_holds(
                #[trigger] es[i],
                attrs,
            ) by {
                if i < es.len() - 1 {
                    assert(es.drop_last()[i] == es[i]);
                } else {
                    assert(es[i] == es.last());
                }
            }
        } else {
            if req_mismatches(es.drop_last(), attrs).len() > 0 {
                let j = choose|j: int|
                    0 <= j < es.drop_last().len() && !req_holds(es.drop_last()[j], attrs);
                assert(es[j] == es.drop_last()[j]);
            } else {
                assert(!req_holds(es.last(), attrs));
            }
        }
    }
}

impl Selector {
    /// A selector with nothing to require, which matches everything.
    pub fn empty() -> (r: Selector)
        ensures
            r.flat is None,
            r.expressions is None,
    {
        Selector { flat: None, expressions: None }
    }

    /// Evaluates the selector against an attribute map: flat entries
    /// first in stored order, then requirements in declared order; all
    /// failing predicates are collected, and nothing short-circuits.
    pub fn match_with(&self, attrs: &AttrMap) -> (r: MatchResult)
        ensures
            (r is Matches) <==> sel_matches(self@, attrs@),
            r.spec_reasons() == sel_mismatches(self@, attrs@),
            r matches MatchResult::Mismatch(ms) ==> ms@.len() > 0,
    {
        let mut reasons: Vec<Mismatch> = Vec::new();
        proof {
            assert(reasons_view(reasons@) =~= Seq::<MismatchView>::empty());
        }
        if let Some(fl) = &self.flat {
            let n = fl.len();
            proof {
                assert(fl@.take(0) =~= Seq::<(InternedString, InternedString)>::empty());
            }
            for i in 0..n
                invariant
                    n == fl@.len(),
                    reasons_view(reasons@) == flat_mismatches(fl@.take(i as int), attrs@),
            {
                let ghost prev = reasons@;
                let (k, v) = fl[i];
                let actual = match self.lookup_present(attrs, k) {
                    Some(a) => Some(a),
                    None => None,
                };
                let holds = match actual {
                    Some(a) => a == v,
                    None => false,
                };
                if !holds {
                    reasons.push(Mismatch { key: k, expected: Expected::Value(v), actual });
                    proof {
                        assert(reasons_view(reasons@) =~= reasons_view(prev).push(
                            flat_mismatch(k, v, attrs@),
                        ));
                    }
                }
                proof {
                    assert(fl@.take(i + 1).drop_last() =~= fl@.take(i as int));
                    assert(fl@.take(i + 1).last() == fl@[i as int]);
                    assert(reasons_view(reasons@) =~= flat_mismatches(fl@.take(i + 1), attrs@));
                }
            }
            proof {
                assert(fl@.take(n as int) =~= fl@);
            }
        }
        if let Some(es) = &self.expressions {
            let ghost fm = reasons_view(reasons@);
            let n = es.len();
            let ghost esv = reqs_view(es@);
            proof {
                assert(esv.take(0) =~= Seq::<ReqView>::empty());
                assert(fm + req_mismatches(esv.take(0), attrs@) =~= fm);
            }
            for i in 0..n
                invariant
                    n == es@.len(),
                    esv == reqs_view(es@),
                    reasons_view(reasons@) == fm + req_mismatches(esv.take(i as int), attrs@),
            {
                let ghost prev = reasons@;
                let req = &es[i];
                assert(esv[i as int] == req@);
                let actual = self.lookup_present(attrs, req.key);
                let holds = match &req.value_requirement {
                    SelectorValueRequirement::In(vs) => match actual {
                        Some(a) => Self::list_contains(vs, a),
                        None => false,
                    },
                    SelectorValueRequirement::NotIn(vs) => match actual {
                        Some(a) => !Self::list_contains(vs, a),
                        None => true,
                    },
                    SelectorValueRequirement::Exists => actual.is_some(),
                    SelectorValueRequirement::DoesNotExist => actual.is_none(),
                };
                if !holds {
                    let expected = match &req.value_requirement {
                        SelectorValueRequirement::In(vs) => Expected::OneOf(vs.clone()),
                        SelectorValueRequirement::NotIn(vs) => Expected::NoneOf(vs.clone()),
                        SelectorValueRequirement::Exists => Expected::Present,
                        SelectorValueRequirement::DoesNotExist => Expected::Absent,
                    };
                    reasons.push(Mismatch { key: req.key, expected, actual });
                    proof {
                        assert(reasons@.last()@ == req_mismatch(esv[i as int], attrs@));
                        assert(reasons_view(reasons@) =~= reasons_view(prev).push(
                            req_mismatch(esv[i as int], attrs@),
                        ));
                    }
                }
                proof {
                    assert(esv.take(i + 1).drop_last() =~= esv.take(i as int));
                    assert(esv.take(i + 1).last() == esv[i as int]);
                    assert(reasons_view(reasons@) =~= fm + req_mismatches(
                        esv.take(i + 1),
                        attrs@,
                    ));
                }
            }
            proof {
                assert(esv.take(n as int) =~= esv);
            }
        }
        proof {
            lemma_matches_iff_no_mismatch(self@, attrs@);
            assert(reasons_view(reasons@) =~= sel_mismatches(self@, attrs@));
        }
        if reasons.len() == 0 {
            proof {
                assert(reasons_view(reasons@) =~= Seq::<MismatchView>::empty());
            }
            MatchResult::Matches
        } else {
            MatchResult::Mismatch(reasons)
        }
    }

    /// The present value bound to `key` in `attrs`, if any.
    fn lookup_present(&self, attrs: &AttrMap, key: InternedString) -> (r: Option<InternedString>)
        ensures
            r == spec_present(attrs@, key),
    {
        match attrs.lookup(key) {
            Some(v) => v.as_option(),
            None => None,
        }
    }

    fn list_contains(vs: &Vec<InternedString>, v: InternedString) -> (r: bool)
        ensures
            r == vs@.contains(v),
    {
        let n = vs.len();
        for i in 0..n
            invariant
                n == vs@.len(),
                forall|j: int| 0 <= j < i ==> vs@[j] != v,
        {
            if vs[i] == v {
                return true;
            }
        }
        false
    }
}

impl SelectorRequirement {
    /// A copy with the same view.
    pub fn duplicate(&self) -> (r: SelectorRequirement)
        ensures
            r@ == self@,
    {
        SelectorRequirement {
            key: self.key,
            value_requirement: match &self.value_requirement {
                SelectorValueRequirement::In(vs) => SelectorValueRequirement::In(
                    copy_handles(vs),
                ),
                SelectorValueRequirement::NotIn(vs) => SelectorValueRequirement::NotIn(
                    copy_handles(vs),
                ),
                SelectorValueRequirement::Exists => SelectorValueRequirement::Exists,
                SelectorValueRequirement::DoesNotExist => SelectorValueRequirement::DoesNotExist,
            },
        }
    }
}

/// Copies a list of interned-string handles.
pub fn copy_handles(vs: &Vec<InternedString>) -> (r: Vec<InternedString>)
    ensures
        r@ == vs@,
{
    let n = vs.len();
    let mut r: Vec<InternedString> = Vec::new();
    for i in 0..n
        invariant
            n == vs@.len(),
            r@ == vs@.take(i as int),
    {
        r.push(vs[i]);
        proof {
            assert(r@ =~= vs@.take(i + 1));
        }
    }
    proof {
        assert(vs@.take(n as int) =~= vs@);
    }
    r
}

/// Copies a list of handle pairs.
pub fn copy_handle_pairs(vs: &Vec<(InternedString, InternedString)>) -> (r: Vec<
    (InternedString, InternedString),
>)
    ensures
        r@ == vs@,
{
    let n = vs.len();
    let mut r: Vec<(InternedString, InternedString)> = Vec::new();
    for i in 0..n
        invariant
            n == vs@.len(),
            r@ == vs@.take(i as int),
    {
        r.push(vs[i]);
        proof {
            assert(r@ =~= vs@.take(i + 1));
        }
    }
    proof {
        assert(vs@.take(n as int) =~= vs@);
    }
    r
}

impl Selector {
    /// A copy with the same view.
    pub fn duplicate(&self) -> (r: Selector)
        ensures
            r@ == self@,
    {
        let flat = match &self.flat {
            None => None,
            Some(fl) => Some(copy_handle_pairs(fl)),
        };
        let expressions = match &self.expressions {
            None => None,
            Some(es) => {
                let n = es.len();
                let mut r: Vec<SelectorRequirement> = Vec::new();
                let ghost esv = reqs_view(es@);
                for i in 0..n
                    invariant
                        n == es@.len(),
                        esv == reqs_view(es@),
                        reqs_view(r@) == esv.take(i as int),
                    {
                    let d = es[i].duplicate();
                    let ghost prevr = r@;
                    r.push(d);
                    proof {
                        assert(reqs_view(prevr).len() == prevr.len());
                        assert(esv.len() == es@.len());
                        assert(prevr.len() == i);
                        assert(r@ =~= prevr.push(d));
                        assert(reqs_view(r@).len() == r@.len());
                        assert forall|j: int|
                            0 <= j < i + 1 implies #[trigger] reqs_view(r@)[j] == esv.take(
                            i + 1,
                        )[j] by {
                            if j < i {
                                assert(reqs_view(prevr)[j] == prevr[j]@);
                            }
                            assert(reqs_view(r@)[j] == r@[j]@);
                            assert(esv[j] == es@[j]@);
                        }
                        assert(reqs_view(r@) =~= esv.take(i + 1));
                    }
                }
                proof {
                    assert(esv.take(n as int) =~= esv);
                }
                Some(r)
            },
        };
        let r = Selector { flat, expressions };
        proof {
            assert(r@ == self@);
        }
        r
    }
}

/// `sub` requires no more than `full`: every flat entry and every
/// requirement of `sub` also stands in `full`.
pub open spec fn sub_selector(sub: SelectorView, full: SelectorView) -> bool {
    (match sub.flat {
        Some(fl) => full.flat is Some && (forall|i: int|
            0 <= i < fl.len() ==> full.flat->0.contains(#[trigger] fl[i])),
        None => true,
    }) && (match sub.expressions {
        Some(es) => full.expressions is Some && (forall|i: int|
            0 <= i < es.len() ==> exists|j: int|
                0 <= j < full.expressions->0.len() && req_same(
                    #[trigger] es[i],
                    full.expressions->0[j],
                )),
        None => true,
    })
}

/// Two requirements demand the same thing.
pub open spec fn req_same(a: ReqView, b: ReqView) -> bool {
    a.key == b.key && match (a.value_requirement, b.value_requirement) {
        (ValueReqView::In(x), ValueReqView::In(y)) => x == y,
        (ValueReqView::NotIn(x), ValueReqView::NotIn(y)) => x == y,
        (ValueReqView::Exists, ValueReqView::Exists) => true,
        (ValueReqView::DoesNotExist, ValueReqView::DoesNotExist) => true,
        _ => false,
    }
}

/// Matching is monotone in the predicate set: dropping flat entries or
/// requirements can only turn a mismatch into a match, never a match
/// into a mismatch.
pub proof fn lemma_match_monotone(
    sub: SelectorView,
    full: SelectorView,
    attrs: Seq<(InternedString, AttributeValue)>,
)
    requires
        sub_selector(sub, full),
        sel_matches(full, attrs),
    ensures
        sel_matches(sub, attrs),
{
    if sub.flat is Some {
        let fl = sub.flat->0;
        let ffl = full.flat->0;
        assert forall|i: int| 0 <= i < fl.len() implies flat_holds(
            #[trigger] fl[i].0,
            fl[i].1,
            attrs,
        ) by {
            let j = choose|j: int| 0 <= j < ffl.len() && ffl[j] == fl[i];
            assert(flat_holds(ffl[j].0, ffl[j].1, attrs));
        }
    }
    if sub.expressions is Some {
        let es = sub.expressions->0;
        let fes = full.expressions->0;
        assert forall|i: int| 0 <= i < es.len() implies req_holds(#[trigger] es[i], attrs) by {
            let j = choose|j: int| 0 <= j < fes.len() && req_same(es[i], fes[j]);
            assert(req_holds(fes[j], attrs));
        }
    }
}

} // verus!

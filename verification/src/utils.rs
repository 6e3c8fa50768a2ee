//! Small helpers: error aggregation for shutdown, where every failure is
//! collected and surfaced, not only the first.

use vstd::prelude::*;

verus! {

/// Collects the failures of many independent results into one.
pub trait AggregateErrorExt {
    /// Ok when every result is Ok; otherwise all error messages, in
    /// order.
    fn collect_errors(self) -> (r: Result<(), Vec<String>>);
}

/// The error messages of a list of results, in order.
pub open spec fn spec_errors_of(rs: Seq<Result<(), String>>) -> Seq<Seq<char>>
    decreases rs.len(),
{
    if rs.len() == 0 {
        Seq::empty()
    } else {
        spec_errors_of(rs.drop_last()) + (match rs.last() {
            Ok(()) => Seq::empty(),
            Err(e) => seq![e@],
        })
    }
}

impl AggregateErrorExt for Vec<Result<(), String>> {
    /// Ok exactly when every result is Ok; otherwise every error
    /// message, in order.
    fn collect_errors(self) -> (r: Result<(), Vec<String>>)
        ensures
            (r is Ok) <==> spec_errors_of(self@).len() == 0,
            r matches Err(es) ==> es@.map_values(|e: String| e@) == spec_errors_of(self@),
    {
        let mut errors: Vec<String> = Vec::new();
        let n = self.len();
        let ghost rv = self@;
        let mut rs = self;
        proof {
            assert(errors@.map_values(|e: String| e@) =~= Seq::<Seq<char>>::empty());
            assert(rv.take(0) =~= Seq::<Result<(), String>>::empty());
        }
        let mut i: usize = 0;
        while i < n
            invariant
                i <= n,
                n == rv.len(),
                rs@ == rv.skip(i as int),
                errors@.map_values(|e: String| e@) == spec_errors_of(rv.take(i as int)),
            decreases n - i,
        {
            proof {
                assert(rv.skip(i as int)[0] == rv[i as int]);
            }
            let x = rs.remove(0);
            proof {
                assert(rs@ =~= rv.skip(i + 1));
            }
            let ghost before = errors@;
            match x {
                Ok(()) => {},
                Err(e) => {
                    errors.push(e);
                },
            }
            proof {
                assert(rv.take(i + 1).drop_last() =~= rv.take(i as int));
                assert(rv.take(i + 1).last() == rv[i as int]);
                assert(errors@.map_values(|e: String| e@).len() == errors@.len());
                assert(errors@.map_values(|e: String| e@) =~= spec_errors_of(rv.take(i + 1)));
            }
            i += 1;
        }
        proof {
            assert(rv.take(n as int) =~= rv);
        }
        if errors.len() == 0 {
            proof {
                assert(errors@.map_values(|e: String| e@).len() == errors@.len());
            }
            Ok(())
        } else {
            proof {
                assert(errors@.map_values(|e: String| e@).len() == errors@.len());
            }
            Err(errors)
        }
    }
}

} // verus!

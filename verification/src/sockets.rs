//! Socket path allocation for class servers.
//!
//! Each class binds one Unix socket under the orchestrator's plugin
//! directory.  The file name is the slugged class resource name with a
//! `.sock` extension; when a candidate name is already taken, a `-N`
//! suffix is tried with growing `N` until a free name is found.

use vstd::prelude::*;

use crate::strutil::dec_chars;

verus! {

/// True for the characters a slug can contain.
pub open spec fn is_slug_char(c: char) -> bool {
    ('a' <= c <= 'z') || ('0' <= c <= '9') || c == '-'
}

/// The slug of a resource name, as `slug::slugify` computes it.
pub uninterp spec fn slug_of(s: Seq<char>) -> Seq<char>;

/// Relies on `slug::slugify`: the result is a function of the input
/// alone and consists of `a-z`, `0-9` and `-` only.
#[verifier::external_body]
pub fn slugify(s: &str) -> (r: String)
    ensures
        r@ == slug_of(s@),
        forall|i: int| 0 <= i < r@.len() ==> is_slug_char(#[trigger] r@[i]),
{
    slug::slugify(s)
}

/// The `n`-th candidate file name for a slug: `"<slug>.sock"` first,
/// then `"<slug>-<n>.sock"`.
pub open spec fn candidate_name(slug: Seq<char>, n: nat) -> Seq<char> {
    if n == 0 {
        slug + ".sock"@
    } else {
        slug + "-"@ + dec_chars(n) + ".sock"@
    }
}

/// Appends the decimal rendering of `n` to `s`.
pub fn append_decimal_usize(s: &mut String, n: usize)
    ensures
        final(s)@ == old(s)@ + dec_chars(n as nat),
    decreases n,
{
    if n >= 10 {
        append_decimal_usize(s, n / 10);
        crate::strutil::append_decimal_u8(s, (n % 10) as u8);
        proof {
            assert(dec_chars(n as nat) == dec_chars((n as nat) / 10).push(
                crate::strutil::digit_char(((n as nat) % 10) as int),
            ));
            assert(dec_chars(((n % 10) as u8) as nat) =~= seq![
                crate::strutil::digit_char(((n as nat) % 10) as int),
            ]);
            assert(s@ =~= old(s)@ + dec_chars(n as nat));
        }
    } else {
        crate::strutil::append_decimal_u8(s, n as u8);
    }
}

/// Renders the `n`-th candidate file name for a slug.
pub fn socket_file_name(slug: &str, n: usize) -> (r: String)
    ensures
        r@ == candidate_name(slug@, n as nat),
{
    proof {
        reveal_strlit(".sock");
        reveal_strlit("-");
    }
    let mut r = String::from_str(slug);
    if n > 0 {
        r.append("-");
        append_decimal_usize(&mut r, n);
    }
    r.append(".sock");
    proof {
        assert(r@ =~= candidate_name(slug@, n as nat));
    }
    r
}

/// The name is among the taken ones.
pub open spec fn spec_taken(taken: Seq<String>, name: Seq<char>) -> bool {
    exists|j: int| 0 <= j < taken.len() && (#[trigger] taken[j])@ == name
}

/// Whether a name is among the taken ones.
fn name_taken(taken: &Vec<String>, name: &String) -> (r: bool)
    ensures
        r == spec_taken(taken@, name@),
{
    let n = taken.len();
    for i in 0..n
        invariant
            n == taken@.len(),
            forall|j: int| 0 <= j < i ==> (#[trigger] taken@[j])@ != name@,
    {
        if taken[i] == *name {
            assert(spec_taken(taken@, name@));
            return true;
        }
    }
    false
}

/// Picks the first candidate socket name not yet taken, trying at most
/// one more candidate than there are taken names.  Returns the name and
/// its index, or nothing when every tried candidate is taken.
pub fn pick_socket_name(slugged: &str, taken: &Vec<String>) -> (r: Option<(String, usize)>)
    ensures
        match r {
            Some(p) => {
                &&& p.0@ == candidate_name(slugged@, p.1 as nat)
                &&& !spec_taken(taken@, p.0@)
                &&& forall|k: int|
                    0 <= k < p.1 ==> spec_taken(
                        taken@,
                        #[trigger] candidate_name(slugged@, k as nat),
                    )
            },
            None => forall|k: int|
                0 <= k <= taken@.len() ==> spec_taken(
                    taken@,
                    #[trigger] candidate_name(slugged@, k as nat),
                ),
        },
{
    let bound = taken.len();
    let mut k: usize = 0;
    loop
        invariant
            k <= bound,
            bound == taken@.len(),
            forall|c: int|
                0 <= c < k ==> spec_taken(
                    taken@,
                    #[trigger] candidate_name(slugged@, c as nat),
                ),
        decreases bound - k,
    {
        let name = socket_file_name(slugged, k);
        if !name_taken(taken, &name) {
            return Some((name, k));
        }
        if k == bound {
            return None;
        }
        k += 1;
    }
}

} // verus!

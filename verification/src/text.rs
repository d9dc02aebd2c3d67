//! String helpers shared by the encoder: verified equality and joining,
//! and trusted wrappers around Unicode case conversion.

use vstd::prelude::*;
use vstd::string::StrSliceExecFns;
use vstd::string::StringExecFns;

verus! {

/// The Unicode lowercase conversion of a string, as `str::to_lowercase`
/// computes it from the characters alone.
pub uninterp spec fn lower_of(s: Seq<char>) -> Seq<char>;

/// The Unicode uppercase conversion of a string, as `str::to_uppercase`
/// computes it from the characters alone.
pub uninterp spec fn upper_of(s: Seq<char>) -> Seq<char>;

/// Relies on `str::to_lowercase`: the result depends on the characters alone,
/// and the lowercase conversion of the empty string is empty.
#[verifier::external_body]
pub(crate) fn lowercased(s: &str) -> (r: String)
    ensures
        r@ == lower_of(s@),
        s@.len() == 0 ==> r@.len() == 0,
{
    s.to_lowercase()
}

/// Relies on `str::to_uppercase`: the result depends on the characters alone,
/// and the uppercase conversion of the empty string is empty.
#[verifier::external_body]
pub(crate) fn uppercased(s: &str) -> (r: String)
    ensures
        r@ == upper_of(s@),
        s@.len() == 0 ==> r@.len() == 0,
{
    s.to_uppercase()
}

/// Character-for-character string equality.
pub(crate) fn str_eq(a: &str, b: &str) -> (r: bool)
    ensures
        r == (a@ == b@),
{
    let alen = a.unicode_len();
    let blen = b.unicode_len();
    if alen != blen {
        return false;
    }
    let mut i: usize = 0;
    while i < alen
        invariant
            alen == a@.len(),
            blen == b@.len(),
            alen == blen,
            i <= alen,
            forall|j: int| 0 <= j < i ==> a@[j] == b@[j],
        decreases alen - i,
    {
        if a.get_char(i) != b.get_char(i) {
            return false;
        }
        i = i + 1;
    }
    proof {
        assert(a@ =~= b@);
    }
    true
}

/// The parts joined with a `+` between consecutive parts, as `[String]::join`
/// builds it: empty for no parts, and no separator around an empty part.
pub open spec fn spec_join_plus(parts: Seq<Seq<char>>) -> Seq<char>
    decreases parts.len(),
{
    if parts.len() == 0 {
        Seq::empty()
    } else if parts.len() == 1 {
        parts[0]
    } else {
        spec_join_plus(parts.drop_last()) + "+"@ + parts.last()
    }
}

/// Join the parts with a `+` separator.
pub(crate) fn join_plus(parts: &Vec<String>) -> (r: String)
    ensures
        r@ == spec_join_plus(parts.deep_view()),
{
    let ghost dv: Seq<Seq<char>> = parts.deep_view();
    let mut r = String::new();
    let mut i: usize = 0;
    while i < parts.len()
        invariant
            i <= parts.len(),
            dv == parts.deep_view(),
            dv.len() == parts.len(),
            forall|j: int| 0 <= j < dv.len() ==> dv[j] == parts[j]@,
            r@ == spec_join_plus(dv.take(i as int)),
        decreases parts.len() - i,
    {
        if i > 0 {
            r.append("+");
        }
        r.append(parts[i].as_str());
        proof {
            let t = dv.take(i + 1 as int);
            assert(t.drop_last() =~= dv.take(i as int));
            assert(t.last() == dv[i as int]);
            if i == 0 {
                assert(spec_join_plus(t) =~= dv[0]);
            }
        }
        i = i + 1;
    }
    proof {
        assert(dv.take(dv.len() as int) =~= dv);
    }
    r
}

} // verus!

//! Case-insensitive keyword search over task descriptions.
use vstd::prelude::*;

use vstd::string::StrSliceExecFns;

verus! {

/// The case-folded form of a character sequence, as Unicode lowercasing
/// defines it.
pub uninterp spec fn lower_of(s: Seq<char>) -> Seq<char>;

/// Relies on str::to_lowercase: the lowercase form of a string depends on
/// its characters alone.
#[verifier::external_body]
fn to_lowercase(s: &str) -> (r: String)
    ensures
        r@ == lower_of(s@),
{
    s.to_lowercase()
}

/// `needle` occurs in `hay` as a contiguous run of characters.
pub open spec fn spec_contains_sub(hay: Seq<char>, needle: Seq<char>) -> bool {
    exists|k: int|
        0 <= k && k + needle.len() <= hay.len() && #[trigger] hay.subrange(
            k,
            k + needle.len() as int,
        ) == needle
}

/// Substring search by characters.
fn str_contains(hay: &str, needle: &str) -> (r: bool)
    ensures
        r == spec_contains_sub(hay@, needle@),
{
    let hl = hay.unicode_len();
    let nl = needle.unicode_len();
    if nl > hl {
        return false;
    }
    let mut k: usize = 0;
    while k <= hl - nl
        invariant
            nl <= hl,
            hl == hay@.len(),
            nl == needle@.len(),
            k <= hl - nl + 1,
            forall|k2: int|
                0 <= k2 < k ==> #[trigger] hay@.subrange(k2, k2 + needle@.len() as int)
                    != needle@,
        decreases hl - nl - k + 1,
    {
        let mut j: usize = 0;
        let mut eq = true;
        while j < nl
            invariant
                k + nl <= hl,
                hl == hay@.len(),
                nl == needle@.len(),
                j <= nl,
                eq <==> (forall|j2: int| 0 <= j2 < j ==> hay@[k + j2] == #[trigger] needle@[j2]),
            decreases nl - j,
        {
            if hay.get_char(k + j) != needle.get_char(j) {
                eq = false;
            }
            j = j + 1;
        }
        if eq {
            proof {
                assert(hay@.subrange(k as int, k + needle@.len() as int) =~= needle@);
            }
            return true;
        }
        proof {
            assert(hay@.subrange(k as int, k + needle@.len() as int) != needle@) by {
                if hay@.subrange(k as int, k + needle@.len() as int) == needle@ {
                    assert(forall|j2: int|
                        0 <= j2 < nl ==> #[trigger] hay@.subrange(
                            k as int,
                            k + needle@.len() as int,
                        )[j2] == hay@[k + j2]);
                }
            }
        }
        k = k + 1;
    }
    false
}

/// Case-insensitive test: whether the folded description contains the
/// folded keyword. Both sides are folded, so the match ignores case in
/// the keyword as well as in the description.
pub fn description_matches(desc: &str, keyword: &str) -> (r: bool)
    ensures
        r == spec_contains_sub(lower_of(desc@), lower_of(keyword@)),
{
    let d = to_lowercase(desc);
    let k = to_lowercase(keyword);
    str_contains(d.as_str(), k.as_str())
}

} // verus!

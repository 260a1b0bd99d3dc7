//! Counting distinct values in a range.
use vstd::prelude::*;

use vstd::set_lib::{lemma_int_range, lemma_len_subset, set_int_range};

verus! {

/// Distinct values in `[0, n)` are at most `n`, and fewer when one value of
/// the range, `missing`, is absent.
pub proof fn lemma_distinct_within(s: Seq<int>, n: int, missing: int)
    requires
        0 <= n,
        s.no_duplicates(),
        forall|k: int| 0 <= k < s.len() ==> 0 <= #[trigger] s[k] < n && s[k] != missing,
    ensures
        s.len() <= n,
        0 <= missing < n ==> s.len() < n,
{
    s.unique_seq_to_set();
    lemma_int_range(0, n);
    let range = set_int_range(0, n).remove(missing);
    assert(s.to_set().subset_of(range)) by {
        assert forall|x: int| s.to_set().contains(x) implies range.contains(x) by {
            let k = choose|k: int| 0 <= k < s.len() && s[k] == x;
            assert(s[k] == x);
        }
    }
    lemma_len_subset(s.to_set(), range);
}

} // verus!

//! Sets of strings kept as ascending lists, the way a `BTreeSet<String>`
//! holds and iterates them.

use vstd::prelude::*;

use crate::run::strs;
use crate::text::{chars_lt, chars_of, lemma_seq_lt_irreflexive, lemma_seq_lt_total, lemma_seq_lt_transitive, seq_lt, str_eq};

verus! {

/// Strictly ascending: sorted, each element once.
pub open spec fn ascending(s: Seq<Seq<char>>) -> bool {
    forall|i: int, j: int| 0 <= i < j < s.len() ==> seq_lt(#[trigger] s[i], #[trigger] s[j])
}

proof fn lemma_insert_ascending(s: Seq<Seq<char>>, pos: int, x: Seq<char>)
    requires
        ascending(s),
        0 <= pos <= s.len(),
        forall|i: int| 0 <= i < pos ==> seq_lt(#[trigger] s[i], x),
        pos < s.len() ==> seq_lt(x, s[pos]),
    ensures
        ascending(s.insert(pos, x)),
{
    let t = s.insert(pos, x);
    assert forall|i: int, j: int| 0 <= i < j < t.len() implies seq_lt(#[trigger] t[i], #[trigger] t[j]) by {
        if j < pos {
            assert(t[i] == s[i] && t[j] == s[j]);
        } else if j == pos {
            assert(t[i] == s[i]);
        } else if i < pos {
            assert(t[i] == s[i] && t[j] == s[j - 1]);
            if pos < j - 1 {
                assert(seq_lt(s[pos], s[j - 1]));
                lemma_seq_lt_transitive(x, s[pos], s[j - 1]);
            }
            lemma_seq_lt_transitive(s[i], x, s[j - 1]);
        } else if i == pos {
            assert(t[j] == s[j - 1]);
            if pos < j - 1 {
                assert(seq_lt(s[pos], s[j - 1]));
                lemma_seq_lt_transitive(x, s[pos], s[j - 1]);
            }
        } else {
            assert(t[i] == s[i - 1] && t[j] == s[j - 1]);
        }
    }
}

/// Add `x` to the ascending list `set`, unless it is already there.
pub fn insert_sorted(set: &mut Vec<String>, x: String)
    requires
        ascending(strs(old(set)@)),
    ensures
        ascending(strs(final(set)@)),
        forall|y: Seq<char>| strs(final(set)@).contains(y) <==> strs(old(set)@).contains(y) || y == x@,
{
    let key = chars_of(x.as_str());
    let mut i: usize = 0;
    while i < set.len() && sorts_before(set, i, &key)
        invariant
            i <= set.len(),
            key@ == x@,
            forall|k: int| 0 <= k < i ==> seq_lt(#[trigger] strs(set@)[k], x@),
        decreases set.len() - i,
    {
        i = i + 1;
    }
    let ghost s = strs(set@);
    assert(s == strs(old(set)@));
    if i < set.len() && str_eq(set[i].as_str(), x.as_str()) {
        assert(s.contains(x@)) by {
            assert(s[i as int] == x@);
        }
        return;
    }
    proof {
        if i < set.len() {
            lemma_seq_lt_total(s[i as int], x@);
        }
        lemma_insert_ascending(s, i as int, x@);
    }
    let ghost xv = x@;
    set.insert(i, x);
    assert(strs(set@) =~= s.insert(i as int, xv));
    assert forall|y: Seq<char>| strs(set@).contains(y) <==> s.contains(y) || y == xv by {
        let t = strs(set@);
        if t.contains(y) {
            let k = choose|k: int| 0 <= k < t.len() && t[k] == y;
            if k < i {
                assert(s[k] == y);
            } else if k > i {
                assert(s[k - 1] == y);
            }
        }
        if s.contains(y) {
            let k = choose|k: int| 0 <= k < s.len() && s[k] == y;
            if k < i {
                assert(t[k] == y);
            } else {
                assert(t[k + 1] == y);
            }
        }
        if y == xv {
            assert(t[i as int] == y);
        }
    }
    assert(xv == x@);
    assert(forall|y: Seq<char>| strs(set@).contains(y) <==> strs(old(set)@).contains(y) || y == x@);
}

fn sorts_before(set: &Vec<String>, i: usize, key: &Vec<char>) -> (b: bool)
    requires
        i < set.len(),
    ensures
        b == seq_lt(strs(set@)[i as int], key@),
{
    chars_lt(&chars_of(set[i].as_str()), key)
}

} // verus!

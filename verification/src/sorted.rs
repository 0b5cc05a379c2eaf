//! Strictly increasing sequences of character keys, searched by bisection.
use vstd::prelude::*;

use crate::text::{lemma_lex_irreflexive, lemma_lex_total, lemma_lex_transitive, lex_less, lex_lt};

verus! {

pub open spec fn keys_view(keys: Seq<Vec<char>>) -> Seq<Seq<char>> {
    keys.map_values(|k: Vec<char>| k@)
}

/// Each key is smaller than every later one.
pub open spec fn strictly_sorted(keys: Seq<Seq<char>>) -> bool {
    forall|i: int, j: int| 0 <= i < j < keys.len() ==> lex_lt(#[trigger] keys[i], #[trigger] keys[j])
}

/// In a strictly sorted sequence equal keys sit at the same index.
pub proof fn lemma_sorted_unique(keys: Seq<Seq<char>>, i: int, j: int)
    requires
        strictly_sorted(keys),
        0 <= i < keys.len(),
        0 <= j < keys.len(),
        keys[i] == keys[j],
    ensures
        i == j,
{
    lemma_lex_irreflexive(keys[i]);
    if i < j {
        assert(lex_lt(keys[i], keys[j]));
    } else if j < i {
        assert(lex_lt(keys[j], keys[i]));
    }
}

/// Where `key` is or would go: `(true, i)` when `keys[i]` is `key`,
/// `(false, i)` when every key before `i` is smaller and every key from `i`
/// on is larger.
pub fn find_key(keys: &Vec<Vec<char>>, key: &Vec<char>) -> (r: (bool, usize))
    requires
        strictly_sorted(keys_view(keys@)),
    ensures
        r.1 <= keys.len(),
        r.0 ==> r.1 < keys.len() && keys@[r.1 as int]@ == key@,
        !r.0 ==> forall|i: int| 0 <= i < keys.len() ==> (i < r.1 ==> lex_lt(#[trigger] keys@[i]@, key@))
            && (i >= r.1 ==> lex_lt(key@, keys@[i]@)),
        r.0 <==> exists|i: int| 0 <= i < keys.len() && #[trigger] keys@[i]@ == key@,
{
    let ghost kv = keys_view(keys@);
    let mut lo: usize = 0;
    let mut hi: usize = keys.len();
    while lo < hi
        invariant
            lo <= hi <= keys.len(),
            kv == keys_view(keys@),
            strictly_sorted(kv),
            forall|i: int| 0 <= i < lo ==> lex_lt(#[trigger] keys@[i]@, key@),
            forall|i: int| hi <= i < keys.len() ==> lex_lt(key@, #[trigger] keys@[i]@),
        decreases hi - lo,
    {
        let mid = lo + (hi - lo) / 2;
        if lex_less(&keys[mid], key) {
            assert forall|i: int| 0 <= i < mid + 1 implies lex_lt(#[trigger] keys@[i]@, key@) by {
                if i < mid {
                    assert(lex_lt(kv[i], kv[mid as int]));
                    lemma_lex_transitive(keys@[i]@, keys@[mid as int]@, key@);
                }
            }
            lo = mid + 1;
        } else if lex_less(key, &keys[mid]) {
            assert forall|i: int| mid <= i < keys.len() implies lex_lt(key@, #[trigger] keys@[i]@) by {
                if i > mid {
                    assert(lex_lt(kv[mid as int], kv[i]));
                    lemma_lex_transitive(key@, keys@[mid as int]@, keys@[i]@);
                }
            }
            hi = mid;
        } else {
            proof {
                lemma_lex_total(keys@[mid as int]@, key@);
            }
            return (true, mid);
        }
    }
    proof {
        assert forall|i: int| 0 <= i < keys.len() implies #[trigger] keys@[i]@ != key@ by {
            lemma_lex_irreflexive(key@);
        }
    }
    (false, lo)
}

/// Inserting a key where `find_key` placed it keeps the keys strictly sorted.
pub proof fn lemma_insert_sorted(keys: Seq<Seq<char>>, pos: int, key: Seq<char>)
    requires
        strictly_sorted(keys),
        0 <= pos <= keys.len(),
        forall|i: int| 0 <= i < pos ==> lex_lt(#[trigger] keys[i], key),
        forall|i: int| pos <= i < keys.len() ==> lex_lt(key, #[trigger] keys[i]),
    ensures
        strictly_sorted(keys.insert(pos, key)),
{
    let n = keys.insert(pos, key);
    assert forall|i: int, j: int| 0 <= i < j < n.len() implies lex_lt(#[trigger] n[i], #[trigger] n[j]) by {
        if i < pos && j < pos {
            assert(n[i] == keys[i] && n[j] == keys[j]);
        } else if i < pos && j == pos {
            assert(n[i] == keys[i]);
        } else if i < pos {
            assert(n[i] == keys[i] && n[j] == keys[j - 1]);
        } else if i == pos {
            assert(n[j] == keys[j - 1]);
        } else {
            assert(n[i] == keys[i - 1] && n[j] == keys[j - 1]);
        }
    }
}

} // verus!

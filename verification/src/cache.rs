//! The restore policy: which fallback entries are considered, in which
//! order, for which restore-key prefixes.
use vstd::prelude::*;

use crate::archive::texts;
use crate::entry::{rfc3339_instant, rfc3339_valid, timestamp_nanos};
use crate::limits::MAX_FALLBACK_CANDIDATES;
use crate::entry::Validation;
use crate::error::CacheError;
use crate::model::{EntryMetadata, RestoreMatch};
use crate::text::{
    chars_of, is_prefix, lemma_lex_irreflexive, lemma_lex_total, lemma_lex_transitive, lex_less,
    lex_lt, starts_with_chars,
};

verus! {

/// An inspected entry of the repository namespace: its address (directory
/// name) and its metadata.
#[derive(Debug, Clone)]
pub struct FallbackCandidate {
    pub digest: String,
    pub metadata: EntryMetadata,
}

/// The instant an entry was created, in nanoseconds since the epoch; a
/// timestamp that does not parse ranks below every instant.
pub open spec fn created_instant(m: EntryMetadata) -> int {
    if rfc3339_valid(m.created_at@) {
        rfc3339_instant(m.created_at@) as int
    } else {
        i128::MIN - 1
    }
}

/// Candidate `i` comes before candidate `j`: it was created at a later
/// instant, or at the same instant with a smaller address, or with the same
/// address earlier in the list.
pub open spec fn ranks_before(c: Seq<FallbackCandidate>, i: int, j: int) -> bool {
    let a = created_instant(c[i].metadata);
    let b = created_instant(c[j].metadata);
    ||| b < a
    ||| a == b && lex_lt(c[i].digest@, c[j].digest@)
    ||| a == b && c[i].digest@ == c[j].digest@ && i < j
}

pub proof fn lemma_ranks_before_order(c: Seq<FallbackCandidate>, i: int, j: int, k: int)
    ensures
        !ranks_before(c, i, i),
        i != j ==> (ranks_before(c, i, j) || ranks_before(c, j, i)),
        !(ranks_before(c, i, j) && ranks_before(c, j, i)),
        ranks_before(c, i, j) && ranks_before(c, j, k) ==> ranks_before(c, i, k),
{
    let (x, y, z) = (c[i].digest@, c[j].digest@, c[k].digest@);
    lemma_lex_irreflexive(x);
    lemma_lex_total(x, y);
    if ranks_before(c, i, j) && ranks_before(c, j, k) {
        lemma_lex_total(x, z);
        if lex_lt(x, y) && lex_lt(y, z) {
            lemma_lex_transitive(x, y, z);
        }
    }
}

/// The ranking key of a parsed timestamp: its instant, or below every
/// instant when it did not parse.
spec fn instant_key(t: Option<i128>) -> int {
    match t {
        Some(v) => v as int,
        None => i128::MIN - 1,
    }
}

/// `instant_key(a) < instant_key(b)`.
fn instant_less(a: Option<i128>, b: Option<i128>) -> (r: bool)
    ensures
        r == (instant_key(a) < instant_key(b)),
{
    match (a, b) {
        (Some(x), Some(y)) => x < y,
        (None, Some(_)) => true,
        _ => false,
    }
}

/// `instant_key(a) == instant_key(b)`.
fn instant_equal(a: Option<i128>, b: Option<i128>) -> (r: bool)
    ensures
        r == (instant_key(a) == instant_key(b)),
{
    match (a, b) {
        (Some(x), Some(y)) => x == y,
        (None, None) => true,
        _ => false,
    }
}

/// `r` lists the first `min(n, 256)` candidates in ranking order.
pub open spec fn is_ranking(c: Seq<FallbackCandidate>, r: Seq<usize>) -> bool {
    &&& r.len() == if c.len() < MAX_FALLBACK_CANDIDATES {
        c.len()
    } else {
        MAX_FALLBACK_CANDIDATES as nat
    }
    &&& forall|a: int| 0 <= a < r.len() ==> #[trigger] r[a] < c.len()
    &&& forall|a: int, b: int|
        0 <= a < b < r.len() ==> ranks_before(c, #[trigger] r[a] as int, #[trigger] r[b] as int)
    &&& forall|x: int, a: int|
        0 <= x < c.len() && 0 <= a < r.len() && !r.contains(x as usize) ==> #[trigger] ranks_before(
            c,
            r[a] as int,
            x,
        )
}

/// The candidates a fallback restore considers, in order: the 256 created
/// at the latest instants (ties broken by address, then by position).
pub fn rank_candidates(c: &[FallbackCandidate]) -> (r: Vec<usize>)
    ensures
        is_ranking(c@, r@),
{
    let n = c.len();
    let mut created: Vec<Option<i128>> = Vec::new();
    let mut digests: Vec<Vec<char>> = Vec::new();
    let mut k: usize = 0;
    while k < n
        invariant
            n == c.len(),
            k <= n,
            created.len() == k,
            digests.len() == k,
            forall|q: int| 0 <= q < k ==> instant_key(#[trigger] created@[q]) == created_instant(c@[q].metadata),
            forall|q: int| 0 <= q < k ==> (#[trigger] digests@[q])@ == c@[q].digest@,
        decreases n - k,
    {
        created.push(timestamp_nanos(c[k].metadata.created_at.as_str()));
        digests.push(chars_of(c[k].digest.as_str()));
        k = k + 1;
    }
    // Insertion of each index, found by bisection, into the sorted prefix.
    let mut order: Vec<usize> = Vec::new();
    let mut x: usize = 0;
    while x < n
        invariant
            n == c.len(),
            x <= n,
            created.len() == n,
            digests.len() == n,
            forall|q: int| 0 <= q < n ==> instant_key(#[trigger] created@[q]) == created_instant(c@[q].metadata),
            forall|q: int| 0 <= q < n ==> (#[trigger] digests@[q])@ == c@[q].digest@,
            order.len() == x,
            forall|a: int| 0 <= a < order.len() ==> #[trigger] order@[a] < x,
            forall|y: usize| y < x ==> #[trigger] order@.contains(y),
            forall|a: int, b: int|
                0 <= a < b < order.len() ==> ranks_before(
                    c@,
                    #[trigger] order@[a] as int,
                    #[trigger] order@[b] as int,
                ),
        decreases n - x,
    {
        let mut lo: usize = 0;
        let mut hi: usize = order.len();
        while lo < hi
            invariant
                x < n,
                n == c.len(),
                created.len() == n,
                digests.len() == n,
                forall|q: int| 0 <= q < n ==> instant_key(#[trigger] created@[q]) == created_instant(c@[q].metadata),
                forall|q: int| 0 <= q < n ==> (#[trigger] digests@[q])@ == c@[q].digest@,
                order.len() == x,
                forall|a: int| 0 <= a < order.len() ==> #[trigger] order@[a] < x,
                forall|a: int, b: int|
                    0 <= a < b < order.len() ==> ranks_before(
                        c@,
                        #[trigger] order@[a] as int,
                        #[trigger] order@[b] as int,
                    ),
                lo <= hi <= order.len(),
                forall|a: int| 0 <= a < lo ==> ranks_before(c@, #[trigger] order@[a] as int, x as int),
                forall|a: int| hi <= a < order.len() ==> ranks_before(c@, x as int, #[trigger] order@[a] as int),
            decreases hi - lo,
        {
            let mid = lo + (hi - lo) / 2;
            let m = order[mid];
            // Does `m` rank before `x`?
            let m_first = instant_less(created[x], created[m]) || (instant_equal(
                created[m],
                created[x],
            ) && (lex_less(&digests[m], &digests[x]) || (crate::text::chars_equal(
                &digests[m],
                &digests[x],
            ) && m < x)));
            assert(m_first == ranks_before(c@, m as int, x as int));
            if m_first {
                assert forall|a: int| 0 <= a < mid + 1 implies ranks_before(
                    c@,
                    #[trigger] order@[a] as int,
                    x as int,
                ) by {
                    if a < mid {
                        lemma_ranks_before_order(c@, order@[a] as int, m as int, x as int);
                    }
                }
                lo = mid + 1;
            } else {
                proof {
                    lemma_ranks_before_order(c@, m as int, x as int, x as int);
                }
                assert forall|a: int| mid <= a < order.len() implies ranks_before(
                    c@,
                    x as int,
                    #[trigger] order@[a] as int,
                ) by {
                    if a > mid {
                        lemma_ranks_before_order(c@, x as int, m as int, order@[a] as int);
                    }
                }
                hi = mid;
            }
        }
        let ghost before = order@;
        order.insert(lo, x);
        assert(order@ == before.insert(lo as int, x));
        assert forall|a: int, b: int|
            0 <= a < b < order.len() implies ranks_before(
            c@,
            #[trigger] order@[a] as int,
            #[trigger] order@[b] as int,
        ) by {
            if a < lo && b < lo {
                assert(order@[a] == before[a] && order@[b] == before[b]);
            } else if a < lo && b == lo {
                assert(order@[a] == before[a]);
            } else if a < lo {
                assert(order@[a] == before[a] && order@[b] == before[b - 1]);
            } else if a == lo {
                assert(order@[b] == before[b - 1]);
            } else {
                assert(order@[a] == before[a - 1] && order@[b] == before[b - 1]);
            }
        }
        assert forall|y: usize| y < x + 1 implies #[trigger] order@.contains(y) by {
            if y == x {
                assert(order@[lo as int] == x);
            } else {
                assert(before.contains(y));
                let a = choose|a: int| 0 <= a < before.len() && before[a] == y;
                if a < lo {
                    assert(order@[a] == before[a]);
                } else {
                    assert(order@[a + 1] == before[a]);
                }
            }
        }
        assert forall|a: int| 0 <= a < order.len() implies #[trigger] order@[a] < x + 1 by {
            if a < lo {
                assert(order@[a] == before[a]);
            } else if a > lo {
                assert(order@[a] == before[a - 1]);
            }
        }
        x = x + 1;
    }
    let ghost full = order@;
    if order.len() > MAX_FALLBACK_CANDIDATES {
        order.truncate(MAX_FALLBACK_CANDIDATES);
    }
    assert(order@ == full.take(order.len() as int));
    assert forall|y: int, a: int|
        0 <= y < n && 0 <= a < order.len() && !order@.contains(y as usize) implies #[trigger] ranks_before(
        c@,
        order@[a] as int,
        y,
    ) by {
        assert(full.contains(y as usize));
        let b = choose|b: int| 0 <= b < full.len() && full[b] == y as usize;
        if b < order.len() {
            assert(order@[b] == y as usize);
        }
        assert(order@[a] == full[a]);
    }
    order
}

/// The ranked candidates (in `ranked` order) whose key starts with `prefix`.
pub open spec fn prefix_matches(
    c: Seq<FallbackCandidate>,
    ranked: Seq<usize>,
    prefix: Seq<char>,
) -> Seq<usize>
    decreases ranked.len(),
{
    if ranked.len() == 0 {
        Seq::empty()
    } else {
        let before = prefix_matches(c, ranked.drop_last(), prefix);
        if is_prefix(prefix, c[ranked.last() as int].metadata.key@) {
            before.push(ranked.last())
        } else {
            before
        }
    }
}

/// For each restore-key prefix in order, the ranked candidates whose key
/// starts with it: the order in which a fallback restore tries entries.
pub open spec fn fallback_order(
    c: Seq<FallbackCandidate>,
    ranked: Seq<usize>,
    prefixes: Seq<Seq<char>>,
) -> Seq<usize>
    decreases prefixes.len(),
{
    if prefixes.len() == 0 {
        Seq::empty()
    } else {
        fallback_order(c, ranked, prefixes.drop_last()) + prefix_matches(
            c,
            ranked,
            prefixes.last(),
        )
    }
}

/// The order in which a fallback restore tries the ranked candidates: the
/// first one that validates is restored.
pub fn fallback_attempts(c: &[FallbackCandidate], ranked: &Vec<usize>, restore_keys: &[String]) -> (r:
    Vec<usize>)
    requires
        forall|a: int| 0 <= a < ranked.len() ==> #[trigger] ranked@[a] < c.len(),
    ensures
        r@ == fallback_order(c@, ranked@, texts(restore_keys@)),
{
    let ghost prefixes = texts(restore_keys@);
    let mut r: Vec<usize> = Vec::new();
    let mut p: usize = 0;
    while p < restore_keys.len()
        invariant
            forall|a: int| 0 <= a < ranked.len() ==> #[trigger] ranked@[a] < c.len(),
            prefixes == texts(restore_keys@),
            p <= restore_keys.len(),
            r@ == fallback_order(c@, ranked@, prefixes.take(p as int)),
        decreases restore_keys.len() - p,
    {
        let prefix = chars_of(restore_keys[p].as_str());
        let ghost start = r@;
        let mut a: usize = 0;
        while a < ranked.len()
            invariant
                forall|q: int| 0 <= q < ranked.len() ==> #[trigger] ranked@[q] < c.len(),
                a <= ranked.len(),
                r@ == start + prefix_matches(c@, ranked@.take(a as int), prefix@),
            decreases ranked.len() - a,
        {
            let i = ranked[a];
            let key = chars_of(c[i].metadata.key.as_str());
            assert(ranked@.take(a + 1).drop_last() =~= ranked@.take(a as int));
            assert(ranked@.take(a + 1).last() == i);
            if starts_with_chars(&key, &prefix) {
                r.push(i);
                assert(r@ =~= start + prefix_matches(c@, ranked@.take(a + 1), prefix@));
            }
            a = a + 1;
        }
        assert(ranked@.take(a as int) =~= ranked@);
        assert(prefixes.take(p + 1).drop_last() =~= prefixes.take(p as int));
        assert(prefixes.take(p + 1).last() == prefix@);
        p = p + 1;
    }
    assert(prefixes.take(p as int) =~= prefixes);
    r
}

/// A fallback restore only tries ranked candidates whose key starts with one
/// of the requested prefixes.
pub proof fn lemma_fallback_tries_matching_keys(
    c: Seq<FallbackCandidate>,
    ranked: Seq<usize>,
    prefixes: Seq<Seq<char>>,
)
    ensures
        forall|k: int|
            0 <= k < fallback_order(c, ranked, prefixes).len() ==> {
                &&& ranked.contains(#[trigger] fallback_order(c, ranked, prefixes)[k])
                &&& exists|p: int|
                    0 <= p < prefixes.len() && is_prefix(
                        prefixes[p],
                        c[fallback_order(c, ranked, prefixes)[k] as int].metadata.key@,
                    )
            },
    decreases prefixes.len(),
{
    if prefixes.len() > 0 {
        let before = fallback_order(c, ranked, prefixes.drop_last());
        let last = prefix_matches(c, ranked, prefixes.last());
        lemma_fallback_tries_matching_keys(c, ranked, prefixes.drop_last());
        lemma_prefix_matches(c, ranked, prefixes.last());
        assert forall|k: int| 0 <= k < fallback_order(c, ranked, prefixes).len() implies {
            &&& ranked.contains(#[trigger] fallback_order(c, ranked, prefixes)[k])
            &&& exists|p: int|
                0 <= p < prefixes.len() && is_prefix(
                    prefixes[p],
                    c[fallback_order(c, ranked, prefixes)[k] as int].metadata.key@,
                )
        } by {
            let i = fallback_order(c, ranked, prefixes)[k];
            if k < before.len() {
                assert(i == before[k]);
                let p = choose|p: int|
                    0 <= p < prefixes.drop_last().len() && is_prefix(
                        prefixes.drop_last()[p],
                        c[before[k] as int].metadata.key@,
                    );
                assert(prefixes.drop_last()[p] == prefixes[p]);
            } else {
                assert(i == last[k - before.len()]);
                assert(prefixes.last() == prefixes[prefixes.len() - 1]);
            }
        }
    }
}

/// `key` begins with `prefix` (a key equal to the prefix included).
pub open spec fn key_begins_with(key: Seq<char>, prefix: Seq<char>) -> bool {
    prefix.len() <= key.len() && key.subrange(0, prefix.len() as int) == prefix
}

/// Every ranked candidate whose key begins with `prefix`, a key equal to
/// the prefix included, is tried for that prefix, and a candidate ranked
/// before another is tried before it.
pub proof fn lemma_prefix_matches_complete(
    c: Seq<FallbackCandidate>,
    ranked: Seq<usize>,
    prefix: Seq<char>,
)
    ensures
        forall|a: int|
            0 <= a < ranked.len() && key_begins_with(c[#[trigger] ranked[a] as int].metadata.key@, prefix)
                ==> prefix_matches(c, ranked, prefix).contains(ranked[a]),
        forall|a: int, b: int|
            0 <= a < b < ranked.len() && key_begins_with(c[#[trigger] ranked[a] as int].metadata.key@, prefix)
                && key_begins_with(c[#[trigger] ranked[b] as int].metadata.key@, prefix) ==> exists|
                x: int,
                y: int,
            |
                0 <= x < y < prefix_matches(c, ranked, prefix).len() && prefix_matches(
                    c,
                    ranked,
                    prefix,
                )[x] == ranked[a] && prefix_matches(c, ranked, prefix)[y] == ranked[b],
    decreases ranked.len(),
{
    if ranked.len() > 0 {
        let before = prefix_matches(c, ranked.drop_last(), prefix);
        let all = prefix_matches(c, ranked, prefix);
        let last = ranked.last();
        lemma_prefix_matches_complete(c, ranked.drop_last(), prefix);
        assert(ranked.last() == ranked[ranked.len() - 1]);
        assert forall|a: int|
            0 <= a < ranked.len() && key_begins_with(c[#[trigger] ranked[a] as int].metadata.key@, prefix)
                implies all.contains(ranked[a]) by {
            if a < ranked.len() - 1 {
                assert(ranked.drop_last()[a] == ranked[a]);
                let x = choose|x: int| 0 <= x < before.len() && before[x] == ranked[a];
                if is_prefix(prefix, c[last as int].metadata.key@) {
                    assert(all[x] == before[x]);
                } else {
                    assert(all == before);
                }
            } else {
                let key = c[last as int].metadata.key@;
                assert(key.take(prefix.len() as int) =~= key.subrange(0, prefix.len() as int));
                assert(all == before.push(last));
                assert(all[before.len() as int] == last);
            }
        }
        assert forall|a: int, b: int|
            0 <= a < b < ranked.len() && key_begins_with(c[#[trigger] ranked[a] as int].metadata.key@, prefix)
                && key_begins_with(c[#[trigger] ranked[b] as int].metadata.key@, prefix) implies exists|
                x: int,
                y: int,
            | 0 <= x < y < all.len() && all[x] == ranked[a] && all[y] == ranked[b] by {
            assert(ranked.drop_last()[a] == ranked[a]);
            if b < ranked.len() - 1 {
                assert(ranked.drop_last()[b] == ranked[b]);
                let (x, y) = choose|x: int, y: int|
                    0 <= x < y < before.len() && before[x] == ranked[a] && before[y] == ranked[b];
                if is_prefix(prefix, c[last as int].metadata.key@) {
                    assert(all[x] == before[x] && all[y] == before[y]);
                } else {
                    assert(all == before);
                }
            } else {
                let key = c[last as int].metadata.key@;
                assert(key.take(prefix.len() as int) =~= key.subrange(0, prefix.len() as int));
                assert(all == before.push(last));
                let x = choose|x: int| 0 <= x < before.len() && before[x] == ranked[a];
                assert(all[x] == before[x]);
                assert(all[before.len() as int] == last);
            }
        }
    }
}

/// A fallback restore tries, for every requested prefix, every ranked
/// candidate whose key begins with it (a key equal to the prefix included).
pub proof fn lemma_fallback_order_complete(
    c: Seq<FallbackCandidate>,
    ranked: Seq<usize>,
    prefixes: Seq<Seq<char>>,
)
    ensures
        forall|q: int, a: int|
            0 <= q < prefixes.len() && 0 <= a < ranked.len() && key_begins_with(
                c[#[trigger] ranked[a] as int].metadata.key@,
                #[trigger] prefixes[q],
            ) ==> fallback_order(c, ranked, prefixes).contains(ranked[a]),
    decreases prefixes.len(),
{
    if prefixes.len() > 0 {
        let before = fallback_order(c, ranked, prefixes.drop_last());
        let last = prefix_matches(c, ranked, prefixes.last());
        lemma_fallback_order_complete(c, ranked, prefixes.drop_last());
        lemma_prefix_matches_complete(c, ranked, prefixes.last());
        let all = fallback_order(c, ranked, prefixes);
        assert(all == before + last);
        assert forall|q: int, a: int|
            0 <= q < prefixes.len() && 0 <= a < ranked.len() && key_begins_with(
                c[#[trigger] ranked[a] as int].metadata.key@,
                #[trigger] prefixes[q],
            ) implies all.contains(ranked[a]) by {
            if q < prefixes.len() - 1 {
                assert(prefixes.drop_last()[q] == prefixes[q]);
                let x = choose|x: int| 0 <= x < before.len() && before[x] == ranked[a];
                assert(all[x] == before[x]);
            } else {
                assert(prefixes.last() == prefixes[q]);
                let x = choose|x: int| 0 <= x < last.len() && last[x] == ranked[a];
                assert(all[before.len() + x] == last[x]);
            }
        }
    }
}

proof fn lemma_prefix_matches(c: Seq<FallbackCandidate>, ranked: Seq<usize>, prefix: Seq<char>)
    ensures
        forall|k: int|
            0 <= k < prefix_matches(c, ranked, prefix).len() ==> ranked.contains(
                #[trigger] prefix_matches(c, ranked, prefix)[k],
            ) && is_prefix(prefix, c[prefix_matches(c, ranked, prefix)[k] as int].metadata.key@),
    decreases ranked.len(),
{
    if ranked.len() > 0 {
        lemma_prefix_matches(c, ranked.drop_last(), prefix);
        let before = prefix_matches(c, ranked.drop_last(), prefix);
        assert forall|k: int| 0 <= k < prefix_matches(c, ranked, prefix).len() implies ranked.contains(
            #[trigger] prefix_matches(c, ranked, prefix)[k],
        ) && is_prefix(prefix, c[prefix_matches(c, ranked, prefix)[k] as int].metadata.key@) by {
            if k < before.len() {
                assert(prefix_matches(c, ranked, prefix)[k] == before[k]);
                assert(ranked.drop_last().contains(before[k]));
                let q = choose|q: int| 0 <= q < ranked.drop_last().len() && ranked.drop_last()[q] == before[k];
                assert(ranked[q] == before[k]);
            } else {
                assert(ranked[ranked.len() - 1] == ranked.last());
            }
        }
    }
}

/// What a save does next, once its paths are collected and, if an entry
/// already stands at its address, that entry has been validated.
#[derive(Debug)]
pub enum SaveStep {
    /// No path matched: nothing is saved (`skipped-no-paths`).
    SkipNoPaths,
    /// A valid entry already stands at the address: this save lost the race
    /// and leaves it unchanged (`raced`).
    Raced,
    /// No entry stands at the address: stage and publish a new one.
    Publish,
    /// The entry at the address is invalid or incompatible: quarantine it,
    /// then stage and publish a new one.
    QuarantineThenPublish,
    /// Validating the existing entry failed for another reason: report it.
    Fail(CacheError),
}

/// The save decision. `entries_empty` says whether no path was collected;
/// `existing` is the validation of the entry found at the key's address
/// under the entry lock, or `None` when there is none. A complete entry is
/// never replaced.
pub fn save_step(entries_empty: bool, existing: Option<Validation<EntryMetadata>>) -> (r: SaveStep)
    ensures
        entries_empty ==> r == SaveStep::SkipNoPaths,
        !entries_empty && existing is None ==> r == SaveStep::Publish,
        !entries_empty && existing is Some && existing->0 is Accepted ==> r == SaveStep::Raced,
        !entries_empty && existing is Some && existing->0 is SetAside
            ==> r == SaveStep::QuarantineThenPublish,
        !entries_empty && existing is Some && existing->0 is Failed ==> r == SaveStep::Fail(
            existing->0->Failed_0,
        ),
{
    if entries_empty {
        return SaveStep::SkipNoPaths;
    }
    match existing {
        None => SaveStep::Publish,
        Some(Validation::Accepted(_)) => SaveStep::Raced,
        Some(Validation::SetAside(_)) => SaveStep::QuarantineThenPublish,
        Some(Validation::Failed(error)) => SaveStep::Fail(error),
    }
}

/// The outcome of a restore's search: an exact entry if one was valid,
/// else a fallback entry if one was found, else a miss.
pub fn restore_match(exact: bool, fallback: bool) -> (r: RestoreMatch)
    ensures
        exact ==> r == RestoreMatch::Exact,
        !exact && fallback ==> r == RestoreMatch::Fallback,
        !exact && !fallback ==> r == RestoreMatch::Miss,
{
    if exact {
        RestoreMatch::Exact
    } else if fallback {
        RestoreMatch::Fallback
    } else {
        RestoreMatch::Miss
    }
}

} // verus!

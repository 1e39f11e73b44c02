//! The model invariant and its preservation under valid events.
//!
//! A tracker state is well formed when every value awaiting a primality
//! verdict is recorded somewhere as a child of classification Unknown and is
//! not among the confirmed primes, the confirmed primes are sorted, and the
//! expansion list still holds the root entry made at construction. The
//! proofs here show that the initial model is well formed and that each of
//! the three discovery events keeps it so, as long as the event stream plays
//! by the rules the factoring engine is expected to follow: a newly reported
//! unknown factor is a genuinely new value, and a primality verdict concerns
//! a value that is pending exactly once.

use vstd::prelude::*;
use crate::order::count_val;
use crate::order::lemma_count_contains;
use crate::order::lemma_insert_all_membership;
use crate::order::lemma_insert_all_sorted;
use crate::order::lemma_sorted_insert_membership;
use crate::order::lemma_sorted_insert_sorted;
use crate::order::sorted_strs;
use crate::tracker::ChildView;
use crate::tracker::EntryView;
use crate::tracker::FactorClass;
use crate::tracker::TrackView;
use crate::tracker::empty_entry;
use crate::tracker::find_expand;
use crate::tracker::init_model;
use crate::tracker::lemma_find_expand;
use crate::tracker::mark_child;
use crate::tracker::mark_entries;
use crate::tracker::remove_first;
use crate::tracker::step_children;
use crate::tracker::step_composite;
use crate::tracker::step_factorized;
use crate::tracker::step_prime;

verus! {

/// The child at position `j` of entry `i` records `v` as still unknown.
pub open spec fn child_witness(es: Seq<EntryView>, i: int, j: int, v: Seq<u8>) -> bool {
    &&& 0 <= i < es.len()
    &&& 0 <= j < es[i].children.len()
    &&& es[i].children[j].value == v
    &&& es[i].children[j].class is Unknown
}

/// Some child somewhere records `v` as still unknown.
pub open spec fn has_unknown_child(es: Seq<EntryView>, v: Seq<u8>) -> bool {
    exists|i: int, j: int| child_witness(es, i, j, v)
}

/// The model invariant: the expansion list still holds the entry made at
/// construction; the confirmed primes are sorted; every pending value is
/// recorded as an Unknown child somewhere; and no pending value is also a
/// confirmed prime.
pub open spec fn inv(m: TrackView) -> bool {
    &&& m.entries.len() >= 1
    &&& sorted_strs(m.primes)
    &&& forall|k: int| 0 <= k < m.unknown.len()
        ==> has_unknown_child(m.entries, #[trigger] m.unknown[k])
    &&& forall|k: int, j: int| 0 <= k < m.unknown.len() && 0 <= j < m.primes.len()
        ==> #[trigger] m.unknown[k] != #[trigger] m.primes[j]
}

/// A fresh tracker is well formed.
pub proof fn lemma_init_inv(n: Seq<u8>, historic: bool)
    ensures
        inv(init_model(n, historic)),
{
}

/// `remove_first` removes one occurrence of `n` and leaves every other value
/// with its count; each remaining element was already there.
pub proof fn lemma_remove_first_props(s: Seq<Seq<u8>>, n: Seq<u8>)
    ensures
        forall|i: int| 0 <= i < remove_first(s, n).len()
            ==> s.contains(#[trigger] remove_first(s, n)[i]),
        count_val(remove_first(s, n), n)
            == if count_val(s, n) > 0 { (count_val(s, n) - 1) as nat } else { 0nat },
    decreases s.len(),
{
    let r = remove_first(s, n);
    if s.len() == 0 {
    } else if s[0] == n {
        assert(r =~= s.drop_first());
        assert forall|i: int| 0 <= i < r.len() implies s.contains(#[trigger] r[i]) by {
            assert(s[i + 1] == r[i]);
        }
        lemma_count_drop_first(s, n);
    } else {
        lemma_remove_first_props(s.drop_first(), n);
        let rr = remove_first(s.drop_first(), n);
        assert forall|i: int| 0 <= i < r.len() implies s.contains(#[trigger] r[i]) by {
            if i == 0 {
                assert(s.contains(s[0]));
            } else {
                assert(r[i] == rr[i - 1]);
                let w: int = choose|w: int| 0 <= w < s.drop_first().len()
                    && s.drop_first()[w] == rr[i - 1];
                assert(s[w + 1] == rr[i - 1]);
            }
        }
        lemma_count_drop_first(s, n);
        lemma_count_drop_first(r, n);
        assert(r.drop_first() =~= rr);
    }
}

/// Unfolds one step of `count_val`.
proof fn lemma_count_drop_first(s: Seq<Seq<u8>>, v: Seq<u8>)
    requires
        s.len() > 0,
    ensures
        count_val(s, v) == (if s[0] == v { 1nat } else { 0nat }) + count_val(s.drop_first(), v),
{
}

/// One factorization step keeps the model well formed, as long as the new
/// unknown factors are new values: none of them is already a confirmed
/// prime or reported prime in the same step, and none of the step's primes
/// is a value still awaiting a verdict.
pub proof fn lemma_factorized_preserves_inv(
    m: TrackView,
    parent: Seq<u8>,
    ps: Seq<Seq<u8>>,
    cs: Seq<Seq<u8>>,
    us: Seq<Seq<u8>>,
)
    requires
        inv(m),
        forall|k: int| 0 <= k < us.len()
            ==> !m.primes.contains(#[trigger] us[k]) && !ps.contains(us[k]),
        forall|k: int| 0 <= k < ps.len() ==> !m.unknown.contains(#[trigger] ps[k]),
    ensures
        inv(step_factorized(m, parent, ps, cs, us)),
        step_factorized(m, parent, ps, cs, us).entries[0].value == m.entries[0].value,
{
    let post = step_factorized(m, parent, ps, cs, us);
    let es1 = m.entries + cs.map_values(|v: Seq<u8>| empty_entry(v));
    let f = find_expand(es1, parent);
    let es2 = if f == -1 { es1.push(empty_entry(parent)) } else { es1 };
    let idx = if f == -1 { es1.len() as int } else { f };
    lemma_find_expand(es1, parent);
    assert(es2[idx].children.len() == 0);
    let kids = step_children(ps, cs, us);

    lemma_insert_all_sorted(m.primes, ps);
    lemma_insert_all_membership(m.primes, ps);

    // The root entry survives: only the entry at `idx` changes, and only in
    // its children.
    assert(post.entries[0].value == m.entries[0].value);

    // Every pending value still has an Unknown child.
    assert forall|k: int| 0 <= k < post.unknown.len()
        implies has_unknown_child(post.entries, #[trigger] post.unknown[k]) by {
        if k < m.unknown.len() {
            assert(post.unknown[k] == m.unknown[k]);
            let (i, j): (int, int) = choose|i: int, j: int|
                child_witness(m.entries, i, j, m.unknown[k]);
            if i == idx {
                assert(es2[idx].children.len() == 0);
                assert(m.entries[i].children.len() > j >= 0);
                assert(es2[i] == m.entries[i]);
                assert(false);
            }
            assert(child_witness(post.entries, i, j, post.unknown[k]));
        } else {
            let t = k - m.unknown.len();
            let jj = ps.len() + cs.len() + t;
            assert(post.unknown[k] == us[t]);
            assert(post.entries[idx].children =~=
                es2[idx].children + kids);
            assert(kids[jj as int]
                == ChildView { value: us[t], class: FactorClass::Unknown });
            assert(post.entries[idx].children[jj as int]
                == ChildView { value: us[t], class: FactorClass::Unknown });
            assert(child_witness(post.entries, idx, jj as int, post.unknown[k]));
        }
    }

    // No pending value is a confirmed prime.
    assert forall|k: int, j: int| 0 <= k < post.unknown.len() && 0 <= j < post.primes.len()
        implies #[trigger] post.unknown[k] != #[trigger] post.primes[j] by {
        let u = post.unknown[k];
        let p = post.primes[j];
        assert(m.primes.contains(p) || ps.contains(p));
        if k < m.unknown.len() {
            assert(u == m.unknown[k]);
            if m.primes.contains(p) {
                let w: int = choose|w: int| 0 <= w < m.primes.len() && m.primes[w] == p;
                assert(m.unknown[k] != m.primes[w]);
            } else {
                let w: int = choose|w: int| 0 <= w < ps.len() && ps[w] == p;
                assert(m.unknown.contains(u));
            }
        } else {
            let t = k - m.unknown.len();
            assert(u == us[t]);
            assert(!m.primes.contains(us[t]) && !ps.contains(us[t]));
        }
    }
}

/// Marking touches no value and reclassifies only children holding `n`.
proof fn lemma_mark_keeps_witness(es: Seq<EntryView>, n: Seq<u8>, cls: FactorClass, v: Seq<u8>)
    requires
        v != n,
        has_unknown_child(es, v),
    ensures
        has_unknown_child(mark_entries(es, n, cls), v),
{
    let (i, j): (int, int) = choose|i: int, j: int| child_witness(es, i, j, v);
    assert(mark_entries(es, n, cls)[i].children[j] == mark_child(es[i].children[j], n, cls));
    assert(child_witness(mark_entries(es, n, cls), i, j, v));
}

/// A prime verdict keeps the model well formed, as long as the value was
/// pending exactly once.
pub proof fn lemma_prime_confirmed_preserves_inv(m: TrackView, n: Seq<u8>)
    requires
        inv(m),
        count_val(m.unknown, n) == 1,
    ensures
        inv(step_prime(m, n)),
        step_prime(m, n).entries[0].value == m.entries[0].value,
{
    let post = step_prime(m, n);
    lemma_sorted_insert_sorted(m.primes, n);
    lemma_sorted_insert_membership(m.primes, n);
    lemma_remove_first_props(m.unknown, n);
    lemma_count_contains(m.unknown, n);
    lemma_count_contains(post.unknown, n);

    assert forall|k: int| 0 <= k < post.unknown.len()
        implies has_unknown_child(post.entries, #[trigger] post.unknown[k]) by {
        let u = post.unknown[k];
        assert(m.unknown.contains(u));
        let w: int = choose|w: int| 0 <= w < m.unknown.len() && m.unknown[w] == u;
        if u == n {
            assert(post.unknown.contains(n));
            assert(count_val(post.unknown, n) == 0);
            assert(false);
        }
        lemma_mark_keeps_witness(m.entries, n, FactorClass::Prime, u);
    }

    assert forall|k: int, j: int| 0 <= k < post.unknown.len() && 0 <= j < post.primes.len()
        implies #[trigger] post.unknown[k] != #[trigger] post.primes[j] by {
        let u = post.unknown[k];
        let p = post.primes[j];
        assert(m.unknown.contains(u));
        let w: int = choose|w: int| 0 <= w < m.unknown.len() && m.unknown[w] == u;
        if u == n {
            assert(post.unknown.contains(n));
            assert(count_val(post.unknown, n) == 0);
            assert(false);
        }
        if p == n {
        } else {
            assert(m.primes.contains(p));
            let t: int = choose|t: int| 0 <= t < m.primes.len() && m.primes[t] == p;
            assert(m.unknown[w] != m.primes[t]);
        }
    }
}

/// A composite verdict keeps the model well formed, as long as the value
/// was pending exactly once.
pub proof fn lemma_composite_confirmed_preserves_inv(m: TrackView, n: Seq<u8>)
    requires
        inv(m),
        count_val(m.unknown, n) == 1,
    ensures
        inv(step_composite(m, n)),
        step_composite(m, n).entries[0].value == m.entries[0].value,
{
    let post = step_composite(m, n);
    let es1 = m.entries.push(empty_entry(n));
    lemma_remove_first_props(m.unknown, n);
    lemma_count_contains(m.unknown, n);
    lemma_count_contains(post.unknown, n);

    assert(post.entries[0].value == m.entries[0].value);

    assert forall|k: int| 0 <= k < post.unknown.len()
        implies has_unknown_child(post.entries, #[trigger] post.unknown[k]) by {
        let u = post.unknown[k];
        assert(m.unknown.contains(u));
        let w: int = choose|w: int| 0 <= w < m.unknown.len() && m.unknown[w] == u;
        if u == n {
            assert(post.unknown.contains(n));
            assert(count_val(post.unknown, n) == 0);
            assert(false);
        }
        let (i, j): (int, int) = choose|i: int, j: int| child_witness(m.entries, i, j, u);
        assert(child_witness(es1, i, j, u));
        lemma_mark_keeps_witness(es1, n, FactorClass::Composite, u);
    }

    assert forall|k: int, j: int| 0 <= k < post.unknown.len() && 0 <= j < post.primes.len()
        implies #[trigger] post.unknown[k] != #[trigger] post.primes[j] by {
        let u = post.unknown[k];
        assert(m.unknown.contains(u));
        let w: int = choose|w: int| 0 <= w < m.unknown.len() && m.unknown[w] == u;
        assert(m.unknown[w] != m.primes[j]);
    }
}

} // verus!

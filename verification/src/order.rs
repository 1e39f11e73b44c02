//! Lexicographic order on decimal forms, and insertion into a sorted list.
//!
//! The confirmed-prime list is kept sorted by the lexicographic order of the
//! byte strings (so `"10"` comes before `"2"`): that is the order a plain
//! string sort gives, and it is stable for display.

use vstd::prelude::*;
use crate::digits::Digits;

verus! {

/// `a` comes no later than `b` in lexicographic byte order.
pub open spec fn lex_le(a: Seq<u8>, b: Seq<u8>) -> bool
    decreases a.len(),
{
    if a.len() == 0 {
        true
    } else if b.len() == 0 {
        false
    } else if a[0] < b[0] {
        true
    } else if a[0] > b[0] {
        false
    } else {
        lex_le(a.drop_first(), b.drop_first())
    }
}

/// Any two byte strings are ordered one way or the other.
pub proof fn lemma_lex_le_total(a: Seq<u8>, b: Seq<u8>)
    ensures
        lex_le(a, b) || lex_le(b, a),
    decreases a.len(),
{
    if a.len() > 0 && b.len() > 0 && a[0] == b[0] {
        lemma_lex_le_total(a.drop_first(), b.drop_first());
    }
}

/// The lexicographic order is transitive.
pub proof fn lemma_lex_le_trans(a: Seq<u8>, b: Seq<u8>, c: Seq<u8>)
    requires
        lex_le(a, b),
        lex_le(b, c),
    ensures
        lex_le(a, c),
    decreases a.len(),
{
    if a.len() > 0 && b.len() > 0 && c.len() > 0 && a[0] == b[0] && b[0] == c[0] {
        lemma_lex_le_trans(a.drop_first(), b.drop_first(), c.drop_first());
    }
}

/// The list is sorted by `lex_le`.
pub open spec fn sorted_strs(s: Seq<Seq<u8>>) -> bool {
    forall|i: int, j: int| 0 <= i < j < s.len() ==> lex_le(#[trigger] s[i], #[trigger] s[j])
}

/// The list `s` with `x` inserted in front of the first element that is not
/// below `x`; on a sorted list this keeps the order.
pub open spec fn sorted_insert(s: Seq<Seq<u8>>, x: Seq<u8>) -> Seq<Seq<u8>>
    decreases s.len(),
{
    if s.len() == 0 {
        seq![x]
    } else if lex_le(x, s[0]) {
        seq![x] + s
    } else {
        seq![s[0]] + sorted_insert(s.drop_first(), x)
    }
}

/// Insertion adds one element, and every element of the result is `x` or an
/// element of the original list.
pub proof fn lemma_sorted_insert_membership(s: Seq<Seq<u8>>, x: Seq<u8>)
    ensures
        sorted_insert(s, x).len() == s.len() + 1,
        forall|k: int| 0 <= k < sorted_insert(s, x).len()
            ==> #[trigger] sorted_insert(s, x)[k] == x || s.contains(sorted_insert(s, x)[k]),
    decreases s.len(),
{
    let r = sorted_insert(s, x);
    if s.len() == 0 {
    } else if lex_le(x, s[0]) {
        assert forall|k: int| 0 <= k < r.len() implies #[trigger] r[k] == x || s.contains(r[k]) by {
            if k > 0 {
                assert(r[k] == s[k - 1]);
            }
        }
    } else {
        lemma_sorted_insert_membership(s.drop_first(), x);
        let rr = sorted_insert(s.drop_first(), x);
        assert forall|k: int| 0 <= k < r.len() implies #[trigger] r[k] == x || s.contains(r[k]) by {
            if k == 0 {
                assert(s.contains(s[0]));
            } else {
                assert(r[k] == rr[k - 1]);
                if rr[k - 1] != x {
                    let m = choose|m: int| 0 <= m < s.drop_first().len()
                        && s.drop_first()[m] == rr[k - 1];
                    assert(s[m + 1] == rr[k - 1]);
                }
            }
        }
    }
}

/// Inserting into a sorted list keeps it sorted.
pub proof fn lemma_sorted_insert_sorted(s: Seq<Seq<u8>>, x: Seq<u8>)
    requires
        sorted_strs(s),
    ensures
        sorted_strs(sorted_insert(s, x)),
    decreases s.len(),
{
    let r = sorted_insert(s, x);
    if s.len() == 0 {
    } else if lex_le(x, s[0]) {
        assert forall|i: int, j: int| 0 <= i < j < r.len()
            implies lex_le(#[trigger] r[i], #[trigger] r[j]) by {
            if i == 0 {
                assert(r[j] == s[j - 1]);
                if j > 1 {
                    lemma_lex_le_trans(x, s[0], s[j - 1]);
                }
            } else {
                assert(r[i] == s[i - 1] && r[j] == s[j - 1]);
            }
        }
    } else {
        lemma_lex_le_total(x, s[0]);
        let tail = s.drop_first();
        let rr = sorted_insert(tail, x);
        assert(sorted_strs(tail)) by {
            assert forall|i: int, j: int| 0 <= i < j < tail.len()
                implies lex_le(#[trigger] tail[i], #[trigger] tail[j]) by {
                assert(tail[i] == s[i + 1] && tail[j] == s[j + 1]);
            }
        }
        lemma_sorted_insert_sorted(tail, x);
        lemma_sorted_insert_membership(tail, x);
        assert forall|i: int, j: int| 0 <= i < j < r.len()
            implies lex_le(#[trigger] r[i], #[trigger] r[j]) by {
            if i == 0 {
                assert(r[j] == rr[j - 1]);
                if rr[j - 1] == x {
                    assert(lex_le(s[0], x));
                } else {
                    let m = choose|m: int| 0 <= m < tail.len() && tail[m] == rr[j - 1];
                    assert(lex_le(s[0], s[m + 1]));
                }
            } else {
                assert(r[i] == rr[i - 1] && r[j] == rr[j - 1]);
            }
        }
    }
}


/// How many elements of `s` equal `v`.
pub open spec fn count_val(s: Seq<Seq<u8>>, v: Seq<u8>) -> nat
    decreases s.len(),
{
    if s.len() == 0 {
        0
    } else {
        (if s[0] == v { 1nat } else { 0nat }) + count_val(s.drop_first(), v)
    }
}

/// A value occurs in `s` exactly when its count is positive.
pub proof fn lemma_count_contains(s: Seq<Seq<u8>>, v: Seq<u8>)
    ensures
        (count_val(s, v) > 0) <==> s.contains(v),
    decreases s.len(),
{
    if s.len() > 0 {
        lemma_count_contains(s.drop_first(), v);
        if s[0] == v {
            assert(s.contains(v));
        } else {
            if s.contains(v) {
                let w: int = choose|w: int| 0 <= w < s.len() && s[w] == v;
                assert(s.drop_first()[w - 1] == v);
                assert(s.drop_first().contains(v));
            }
            if s.drop_first().contains(v) {
                let w: int = choose|w: int|
                    0 <= w < s.drop_first().len() && s.drop_first()[w] == v;
                assert(s[w + 1] == v);
                assert(s.contains(v));
            }
        }
    }
}

/// Each element of `xs`, in order, inserted into `s` at its sorted place.
pub open spec fn insert_all(s: Seq<Seq<u8>>, xs: Seq<Seq<u8>>) -> Seq<Seq<u8>>
    decreases xs.len(),
{
    if xs.len() == 0 {
        s
    } else {
        sorted_insert(insert_all(s, xs.drop_last()), xs.last())
    }
}

/// Inserting many elements into a sorted list keeps it sorted.
pub proof fn lemma_insert_all_sorted(s: Seq<Seq<u8>>, xs: Seq<Seq<u8>>)
    requires
        sorted_strs(s),
    ensures
        sorted_strs(insert_all(s, xs)),
    decreases xs.len(),
{
    if xs.len() > 0 {
        lemma_insert_all_sorted(s, xs.drop_last());
        lemma_sorted_insert_sorted(insert_all(s, xs.drop_last()), xs.last());
    }
}

/// Every element of `insert_all(s, xs)` is an element of `s` or of `xs`.
pub proof fn lemma_insert_all_membership(s: Seq<Seq<u8>>, xs: Seq<Seq<u8>>)
    ensures
        insert_all(s, xs).len() == s.len() + xs.len(),
        forall|k: int| 0 <= k < insert_all(s, xs).len()
            ==> s.contains(#[trigger] insert_all(s, xs)[k])
                || xs.contains(insert_all(s, xs)[k]),
    decreases xs.len(),
{
    let r = insert_all(s, xs);
    if xs.len() > 0 {
        let prev = insert_all(s, xs.drop_last());
        lemma_insert_all_membership(s, xs.drop_last());
        lemma_sorted_insert_membership(prev, xs.last());
        assert forall|k: int| 0 <= k < r.len()
            implies s.contains(#[trigger] r[k]) || xs.contains(r[k]) by {
            if r[k] == xs.last() {
                assert(xs.contains(xs.last()));
            } else {
                let m = choose|m: int| 0 <= m < prev.len() && prev[m] == r[k];
                if xs.drop_last().contains(prev[m]) {
                    let t = choose|t: int| 0 <= t < xs.drop_last().len()
                        && xs.drop_last()[t] == prev[m];
                    assert(xs[t] == prev[m]);
                }
            }
        }
    }
}

/// Positional form of `sorted_insert`: inserting before the first element
/// that is not below `x` is the same as the recursive definition.
pub proof fn lemma_sorted_insert_at(s: Seq<Seq<u8>>, x: Seq<u8>, i: int)
    requires
        0 <= i <= s.len(),
        forall|k: int| 0 <= k < i ==> !lex_le(x, #[trigger] s[k]),
        i < s.len() ==> lex_le(x, s[i]),
    ensures
        sorted_insert(s, x) == s.insert(i, x),
    decreases s.len(),
{
    if s.len() == 0 {
        assert(sorted_insert(s, x) =~= s.insert(0, x));
    } else if lex_le(x, s[0]) {
        assert(i == 0);
        assert(sorted_insert(s, x) =~= s.insert(0, x));
    } else {
        assert(i >= 1);
        let tail = s.drop_first();
        assert(forall|k: int| 0 <= k < i - 1 ==> !lex_le(x, #[trigger] tail[k]));
        lemma_sorted_insert_at(tail, x, i - 1);
        assert(seq![s[0]] + tail.insert(i - 1, x) =~= s.insert(i, x));
    }
}

/// Inserts `x` into the sorted list `v` at its place.
pub fn insert_sorted(v: &mut Vec<Digits>, x: Digits)
    ensures
        final(v).deep_view() == sorted_insert(old(v).deep_view(), x@),
{
    let n = v.len();
    let mut i: usize = 0;
    while i < n
        invariant_except_break
            0 <= i <= v@.len(),
            n == v@.len(),
            *v == *old(v),
            forall|k: int| 0 <= k < i ==> !lex_le(x@, #[trigger] v.deep_view()[k]),
        ensures
            0 <= i <= v@.len(),
            *v == *old(v),
            forall|k: int| 0 <= k < i ==> !lex_le(x@, #[trigger] v.deep_view()[k]),
            i < v@.len() ==> lex_le(x@, v.deep_view()[i as int]),
        decreases n - i,
    {
        let below = lex_le_exec(&x, &v[i]);
        proof {
            assert(v.deep_view()[i as int] == v@[i as int]@);
        }
        if below {
            break;
        }
        i = i + 1;
    }
    proof {
        lemma_sorted_insert_at(v.deep_view(), x@, i as int);
    }
    v.insert(i, x);
    proof {
        assert forall|k: int| 0 <= k < v.deep_view().len()
            implies v.deep_view()[k] == old(v).deep_view().insert(i as int, x@)[k] by {
            assert(v.deep_view()[k] == v@[k]@);
            if k < i {
                assert(v@[k] == old(v)@[k]);
            } else if k > i {
                assert(v@[k] == old(v)@[k - 1]);
            }
        }
        assert(v.deep_view() =~= old(v).deep_view().insert(i as int, x@));
    }
}

/// Whether `a@` comes no later than `b@` in the lexicographic order.
pub fn lex_le_exec(a: &Digits, b: &Digits) -> (r: bool)
    ensures
        r == lex_le(a@, b@),
{
    let av = a.bytes();
    let bv = b.bytes();
    proof {
        assert(av@.skip(0) =~= a@);
        assert(bv@.skip(0) =~= b@);
    }
    lex_le_from(av, bv, 0)
}

/// Compares the suffixes of `a` and `b` that start at `i`.
fn lex_le_from(a: &Vec<u8>, b: &Vec<u8>, i: usize) -> (r: bool)
    requires
        i <= a@.len(),
        i <= b@.len(),
    ensures
        r == lex_le(a@.skip(i as int), b@.skip(i as int)),
    decreases a@.len() - i,
{
    if i == a.len() {
        true
    } else if i == b.len() {
        false
    } else if a[i] < b[i] {
        true
    } else if a[i] > b[i] {
        false
    } else {
        proof {
            assert(a@.skip(i as int).drop_first() =~= a@.skip(i as int + 1));
            assert(b@.skip(i as int).drop_first() =~= b@.skip(i as int + 1));
        }
        lex_le_from(a, b, i + 1)
    }
}

} // verus!

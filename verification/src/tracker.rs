//! The factor record model and event ingestion.
//!
//! One `VerboseFactoring` value tracks everything known so far about the
//! factorization of a single number: the confirmed primes (kept sorted), the
//! composite expansions in discovery order, and the factors still awaiting a
//! primality verdict. The three event methods apply one discovery event each
//! and leave the model ready to render.

use vstd::prelude::*;
use crate::digits::Digits;
use crate::order::insert_all;
use crate::order::insert_sorted;
use crate::order::lemma_insert_all_sorted;
use crate::order::lemma_sorted_insert_sorted;
use crate::order::sorted_insert;
use crate::order::sorted_strs;

verus! {

/// What is currently known about one factor value.
#[derive(Clone, Copy, Debug, PartialEq, Eq)]
pub enum FactorClass {
    /// Proven prime.
    Prime,
    /// Proven composite.
    Composite,
    /// Awaiting a primality verdict.
    Unknown,
}

/// One factor discovered inside a composite expansion, with its current
/// classification.
pub struct Child {
    /// The factor's decimal form.
    pub value: Digits,
    /// Its current classification.
    pub class: FactorClass,
}

/// One composite expansion: a value and the factors it was broken into.
/// Empty children mean the value is recorded but not yet expanded.
pub struct Entry {
    /// The composite (or, for the root, not yet classified) value.
    pub value: Digits,
    /// The factors it was broken into, in discovery order.
    pub children: Vec<Child>,
}

/// The mathematical shape of one child entry.
#[verifier::ext_equal]
pub ghost struct ChildView {
    /// The factor's decimal form.
    pub value: Seq<u8>,
    /// Its current classification.
    pub class: FactorClass,
}

/// The mathematical shape of one composite expansion.
#[verifier::ext_equal]
pub ghost struct EntryView {
    /// The expanded value's decimal form.
    pub value: Seq<u8>,
    /// Its children, in discovery order.
    pub children: Seq<ChildView>,
}

/// The mathematical shape of the whole model.
#[verifier::ext_equal]
pub ghost struct TrackView {
    /// Confirmed primes, sorted lexicographically.
    pub primes: Seq<Seq<u8>>,
    /// Composite expansions, in discovery order.
    pub entries: Seq<EntryView>,
    /// Values awaiting a primality verdict, in arrival order.
    pub unknown: Seq<Seq<u8>>,
    /// Whether the historical rendering mode was chosen.
    pub historic: bool,
}

impl View for Child {
    type V = ChildView;

    open spec fn view(&self) -> ChildView {
        ChildView { value: self.value@, class: self.class }
    }
}

impl DeepView for Child {
    type V = ChildView;

    open spec fn deep_view(&self) -> ChildView {
        self.view()
    }
}

impl View for Entry {
    type V = EntryView;

    open spec fn view(&self) -> EntryView {
        EntryView { value: self.value@, children: self.children.deep_view() }
    }
}

impl DeepView for Entry {
    type V = EntryView;

    open spec fn deep_view(&self) -> EntryView {
        self.view()
    }
}

/// The event-protocol breach: a primality verdict arrived for a value that
/// was not awaiting one.
#[derive(Clone, Copy, Debug, PartialEq, Eq)]
pub enum ProtocolError {
    /// The reported value is not in the pending (unknown) list.
    NotPending,
}

/// An expansion entry that has not been broken down yet.
pub open spec fn empty_entry(v: Seq<u8>) -> EntryView {
    EntryView { value: v, children: Seq::empty() }
}

/// The model right after construction for the value `n`: no primes, no
/// pending factors, and a single unexpanded entry for `n` itself.
pub open spec fn init_model(n: Seq<u8>, historic: bool) -> TrackView {
    TrackView {
        primes: Seq::empty(),
        entries: seq![empty_entry(n)],
        unknown: Seq::empty(),
        historic,
    }
}

/// The index of the first entry for `parent` that still has no children,
/// or `-1` when there is none.
pub open spec fn find_expand(es: Seq<EntryView>, parent: Seq<u8>) -> int
    decreases es.len(),
{
    if es.len() == 0 {
        -1
    } else if es[0].value == parent && es[0].children.len() == 0 {
        0
    } else {
        let r = find_expand(es.drop_first(), parent);
        if r == -1 {
            -1
        } else {
            r + 1
        }
    }
}

/// `find_expand` returns the least matching index, or `-1` when no entry
/// matches.
pub proof fn lemma_find_expand(es: Seq<EntryView>, parent: Seq<u8>)
    ensures
        find_expand(es, parent) == -1 ==> forall|k: int| 0 <= k < es.len()
            ==> !((#[trigger] es[k]).value == parent && es[k].children.len() == 0),
        find_expand(es, parent) != -1 ==> {
            let r = find_expand(es, parent);
            &&& 0 <= r < es.len()
            &&& es[r].value == parent && es[r].children.len() == 0
            &&& forall|k: int| 0 <= k < r
                ==> !((#[trigger] es[k]).value == parent && es[k].children.len() == 0)
        },
    decreases es.len(),
{
    if es.len() > 0 && !(es[0].value == parent && es[0].children.len() == 0) {
        lemma_find_expand(es.drop_first(), parent);
        assert forall|k: int| 1 <= k < es.len() implies es.drop_first()[k - 1] == es[k] by {}
    }
}

/// The children recorded by one factorization step: the new primes, then the
/// new composites, then the new unknowns, each under its classification.
pub open spec fn step_children(
    ps: Seq<Seq<u8>>,
    cs: Seq<Seq<u8>>,
    us: Seq<Seq<u8>>,
) -> Seq<ChildView> {
    ps.map_values(|v: Seq<u8>| ChildView { value: v, class: FactorClass::Prime })
        + cs.map_values(|v: Seq<u8>| ChildView { value: v, class: FactorClass::Composite })
        + us.map_values(|v: Seq<u8>| ChildView { value: v, class: FactorClass::Unknown })
}

/// The model after a factorization step: `parent` was broken into the listed
/// primes, composites and unknowns. The primes join the sorted prime list;
/// each new composite gets an unexpanded entry of its own; the first
/// unexpanded entry for `parent` (appended as a fallback when there is none)
/// receives all the factors as children; the unknowns join the pending list.
pub open spec fn step_factorized(
    m: TrackView,
    parent: Seq<u8>,
    ps: Seq<Seq<u8>>,
    cs: Seq<Seq<u8>>,
    us: Seq<Seq<u8>>,
) -> TrackView {
    let es1 = m.entries + cs.map_values(|v: Seq<u8>| empty_entry(v));
    let f = find_expand(es1, parent);
    let es2 = if f == -1 { es1.push(empty_entry(parent)) } else { es1 };
    let idx = if f == -1 { es1.len() as int } else { f };
    let filled = EntryView {
        value: es2[idx].value,
        children: es2[idx].children + step_children(ps, cs, us),
    };
    TrackView {
        primes: insert_all(m.primes, ps),
        entries: es2.update(idx, filled),
        unknown: m.unknown + us,
        historic: m.historic,
    }
}

/// The child `c`, reclassified as `cls` when its value is `n`.
pub open spec fn mark_child(c: ChildView, n: Seq<u8>, cls: FactorClass) -> ChildView {
    ChildView { value: c.value, class: if c.value == n { cls } else { c.class } }
}

/// The children `cs` with every value equal to `n` reclassified as `cls`.
pub open spec fn mark_children(cs: Seq<ChildView>, n: Seq<u8>, cls: FactorClass) -> Seq<ChildView> {
    cs.map_values(|c: ChildView| mark_child(c, n, cls))
}

/// Every child whose value is `n`, anywhere in the expansion list,
/// reclassified as `cls`; everything else untouched.
pub open spec fn mark_entries(es: Seq<EntryView>, n: Seq<u8>, cls: FactorClass) -> Seq<EntryView> {
    es.map_values(|e: EntryView| EntryView {
        value: e.value,
        children: mark_children(e.children, n, cls),
    })
}

/// The pending list with its first occurrence of `n` removed; unchanged when
/// `n` is not there.
pub open spec fn remove_first(s: Seq<Seq<u8>>, n: Seq<u8>) -> Seq<Seq<u8>>
    decreases s.len(),
{
    if s.len() == 0 {
        s
    } else if s[0] == n {
        s.drop_first()
    } else {
        seq![s[0]] + remove_first(s.drop_first(), n)
    }
}

/// The model after `n` was confirmed prime: `n` joins the sorted prime list,
/// every child equal to `n` is reclassified Prime, and one occurrence of `n`
/// leaves the pending list.
pub open spec fn step_prime(m: TrackView, n: Seq<u8>) -> TrackView {
    TrackView {
        primes: sorted_insert(m.primes, n),
        entries: mark_entries(m.entries, n, FactorClass::Prime),
        unknown: remove_first(m.unknown, n),
        historic: m.historic,
    }
}

/// The model after `n` was confirmed composite: `n` gets an unexpanded entry
/// of its own, every child equal to `n` is reclassified Composite, and one
/// occurrence of `n` leaves the pending list.
pub open spec fn step_composite(m: TrackView, n: Seq<u8>) -> TrackView {
    TrackView {
        primes: m.primes,
        entries: mark_entries(m.entries.push(empty_entry(n)), n, FactorClass::Composite),
        unknown: remove_first(m.unknown, n),
        historic: m.historic,
    }
}


/// Removing the first occurrence at its position: when `j` is the first
/// index holding `n`, removing index `j` is `remove_first`.
pub proof fn lemma_remove_first_at(s: Seq<Seq<u8>>, n: Seq<u8>, j: int)
    requires
        0 <= j < s.len(),
        s[j] == n,
        forall|k: int| 0 <= k < j ==> s[k] != n,
    ensures
        remove_first(s, n) == s.remove(j),
    decreases j,
{
    if j == 0 {
        assert(remove_first(s, n) =~= s.remove(0));
    } else {
        let tail = s.drop_first();
        assert(forall|k: int| 0 <= k < j - 1 ==> tail[k] != n);
        lemma_remove_first_at(tail, n, j - 1);
        assert(seq![s[0]] + tail.remove(j - 1) =~= s.remove(j));
    }
}

/// Inserts the decimal forms of `src`, in order, into the sorted list `dst`.
fn insert_primes(dst: &mut Vec<Digits>, src: &Vec<Digits>)
    ensures
        final(dst).deep_view() == insert_all(old(dst).deep_view(), src.deep_view()),
{
    let ghost base = dst.deep_view();
    let ghost ps = src.deep_view();
    let mut k: usize = 0;
    while k < src.len()
        invariant
            0 <= k <= src@.len(),
            ps == src.deep_view(),
            dst.deep_view() == insert_all(base, ps.take(k as int)),
        decreases src@.len() - k,
    {
        insert_sorted(dst, src[k].duplicate());
        proof {
            assert(ps.take(k + 1).drop_last() =~= ps.take(k as int));
            assert(ps.take(k + 1).last() == ps[k as int]);
            assert(dst.deep_view() == insert_all(base, ps.take(k + 1)));
        }
        k = k + 1;
    }
    proof {
        assert(ps.take(src@.len() as int) =~= ps);
    }
}

/// Appends one unexpanded entry for each value in `src`.
fn push_empty_entries(dst: &mut Vec<Entry>, src: &Vec<Digits>)
    ensures
        final(dst).deep_view() == old(dst).deep_view()
            + src.deep_view().map_values(|v: Seq<u8>| empty_entry(v)),
{
    let ghost base = dst.deep_view();
    let ghost cs = src.deep_view();
    let mut k: usize = 0;
    while k < src.len()
        invariant
            0 <= k <= src@.len(),
            cs == src.deep_view(),
            dst.deep_view() =~~= base + cs.take(k as int).map_values(|v: Seq<u8>| empty_entry(v)),
        decreases src@.len() - k,
    {
        let ghost pre = dst.deep_view();
        dst.push(Entry { value: src[k].duplicate(), children: Vec::new() });
        proof {
            assert(dst.deep_view() =~~= pre.push(empty_entry(cs[k as int])));
            assert(dst.deep_view() =~~= base
                + cs.take(k + 1).map_values(|v: Seq<u8>| empty_entry(v)));
        }
        k = k + 1;
    }
    proof {
        assert(cs.take(src@.len() as int) =~= cs);
    }
}

/// Finds the first unexpanded entry for `parent`, as `find_expand` names it.
fn find_slot(es: &Vec<Entry>, parent: &Digits) -> (r: Option<usize>)
    ensures
        r matches Some(i) ==> find_expand(es.deep_view(), parent@) == i as int,
        r is None ==> find_expand(es.deep_view(), parent@) == -1,
{
    let ghost ev = es.deep_view();
    let mut i: usize = 0;
    while i < es.len()
        invariant
            0 <= i <= es@.len(),
            ev == es.deep_view(),
            forall|k: int| 0 <= k < i
                ==> !((#[trigger] ev[k]).value == parent@ && ev[k].children.len() == 0),
        decreases es@.len() - i,
    {
        let hit = es[i].value.same_value(parent);
        if hit && es[i].children.len() == 0 {
            proof {
                lemma_find_expand(ev, parent@);
                assert(ev[i as int].value == parent@ && ev[i as int].children.len() == 0);
            }
            return Some(i);
        }
        proof {
            assert(ev[i as int] == es@[i as int]@);
        }
        i = i + 1;
    }
    proof {
        lemma_find_expand(ev, parent@);
    }
    None
}

/// Builds the children recorded by one factorization step.
fn build_children(ps: &Vec<Digits>, cs: &Vec<Digits>, us: &Vec<Digits>) -> (r: Vec<Child>)
    ensures
        r.deep_view() == step_children(ps.deep_view(), cs.deep_view(), us.deep_view()),
{
    let mut kids: Vec<Child> = Vec::new();
    let ghost pv = ps.deep_view();
    let ghost cv = cs.deep_view();
    let ghost uv = us.deep_view();
    let mut k: usize = 0;
    while k < ps.len()
        invariant
            0 <= k <= ps@.len(),
            pv == ps.deep_view(),
            kids.deep_view() =~~= pv.take(k as int).map_values(
                |v: Seq<u8>| ChildView { value: v, class: FactorClass::Prime }),
        decreases ps@.len() - k,
    {
        let ghost pre = kids.deep_view();
        kids.push(Child { value: ps[k].duplicate(), class: FactorClass::Prime });
        proof {
            assert(kids.deep_view() =~~= pre.push(
                ChildView { value: pv[k as int], class: FactorClass::Prime }));
            assert(kids.deep_view() =~~= pv.take(k + 1).map_values(
                |v: Seq<u8>| ChildView { value: v, class: FactorClass::Prime }));
        }
        k = k + 1;
    }
    proof {
        assert(pv.take(ps@.len() as int) =~= pv);
    }
    let mut k: usize = 0;
    while k < cs.len()
        invariant
            0 <= k <= cs@.len(),
            cv == cs.deep_view(),
            kids.deep_view() =~~= pv.map_values(
                    |v: Seq<u8>| ChildView { value: v, class: FactorClass::Prime })
                + cv.take(k as int).map_values(
                    |v: Seq<u8>| ChildView { value: v, class: FactorClass::Composite }),
        decreases cs@.len() - k,
    {
        let ghost pre = kids.deep_view();
        kids.push(Child { value: cs[k].duplicate(), class: FactorClass::Composite });
        proof {
            assert(kids.deep_view() =~~= pre.push(
                ChildView { value: cv[k as int], class: FactorClass::Composite }));
            assert(kids.deep_view() =~~= pv.map_values(
                    |v: Seq<u8>| ChildView { value: v, class: FactorClass::Prime })
                + cv.take(k + 1).map_values(
                    |v: Seq<u8>| ChildView { value: v, class: FactorClass::Composite }));
        }
        k = k + 1;
    }
    proof {
        assert(cv.take(cs@.len() as int) =~= cv);
    }
    let mut k: usize = 0;
    while k < us.len()
        invariant
            0 <= k <= us@.len(),
            uv == us.deep_view(),
            kids.deep_view() =~~= pv.map_values(
                    |v: Seq<u8>| ChildView { value: v, class: FactorClass::Prime })
                + cv.map_values(
                    |v: Seq<u8>| ChildView { value: v, class: FactorClass::Composite })
                + uv.take(k as int).map_values(
                    |v: Seq<u8>| ChildView { value: v, class: FactorClass::Unknown }),
        decreases us@.len() - k,
    {
        let ghost pre = kids.deep_view();
        kids.push(Child { value: us[k].duplicate(), class: FactorClass::Unknown });
        proof {
            assert(kids.deep_view() =~~= pre.push(
                ChildView { value: uv[k as int], class: FactorClass::Unknown }));
            assert(kids.deep_view() =~~= pv.map_values(
                    |v: Seq<u8>| ChildView { value: v, class: FactorClass::Prime })
                + cv.map_values(
                    |v: Seq<u8>| ChildView { value: v, class: FactorClass::Composite })
                + uv.take(k + 1).map_values(
                    |v: Seq<u8>| ChildView { value: v, class: FactorClass::Unknown }));
        }
        k = k + 1;
    }
    proof {
        assert(uv.take(us@.len() as int) =~= uv);
    }
    kids
}

/// Appends the decimal forms of `src` to `dst`.
fn append_values(dst: &mut Vec<Digits>, src: &Vec<Digits>)
    ensures
        final(dst).deep_view() == old(dst).deep_view() + src.deep_view(),
{
    let ghost base = dst.deep_view();
    let ghost uv = src.deep_view();
    let mut k: usize = 0;
    while k < src.len()
        invariant
            0 <= k <= src@.len(),
            uv == src.deep_view(),
            dst.deep_view() =~= base + uv.take(k as int),
        decreases src@.len() - k,
    {
        let ghost pre = dst.deep_view();
        dst.push(src[k].duplicate());
        proof {
            assert(dst.deep_view() =~= pre.push(uv[k as int]));
            assert(dst.deep_view() =~= base + uv.take(k + 1));
        }
        k = k + 1;
    }
    proof {
        assert(uv.take(src@.len() as int) =~= uv);
    }
}

/// Finds the first position of `n` in `v`, scanning from the front.
fn find_value(v: &Vec<Digits>, n: &Digits) -> (r: Option<usize>)
    ensures
        r matches Some(j) ==> 0 <= j < v.deep_view().len() && v.deep_view()[j as int] == n@
            && (forall|k: int| 0 <= k < j ==> v.deep_view()[k] != n@),
        r is None ==> forall|k: int| 0 <= k < v.deep_view().len() ==> v.deep_view()[k] != n@,
{
    let mut j: usize = 0;
    while j < v.len()
        invariant
            0 <= j <= v@.len(),
            forall|k: int| 0 <= k < j ==> v.deep_view()[k] != n@,
        decreases v@.len() - j,
    {
        if v[j].same_value(n) {
            return Some(j);
        }
        j = j + 1;
    }
    None
}

/// Reclassifies every child whose value is `n`, across all entries.
fn mark_all(es: &mut Vec<Entry>, n: &Digits, cls: FactorClass)
    ensures
        final(es).deep_view() == mark_entries(old(es).deep_view(), n@, cls),
{
    let ghost base = es.deep_view();
    let mut i: usize = 0;
    while i < es.len()
        invariant
            0 <= i <= es@.len(),
            es@.len() == base.len(),
            base == old(es).deep_view(),
            forall|k: int| 0 <= k < i
                ==> es.deep_view()[k] == mark_entries(base, n@, cls)[k],
            forall|k: int| i <= k < es@.len() ==> es.deep_view()[k] == base[k],
        decreases es@.len() - i,
    {
        let kids = mark_children_exec(&es[i].children, n, cls);
        let val = es[i].value.duplicate();
        proof {
            assert(es.deep_view()[i as int] == base[i as int]);
        }
        let ghost pre = es.deep_view();
        es.set(i, Entry { value: val, children: kids });
        proof {
            assert forall|k: int| 0 <= k < i + 1
                implies es.deep_view()[k] == mark_entries(base, n@, cls)[k] by {
                if k == i {
                    assert(es.deep_view()[k] == es@[k]@);
                    assert(es.deep_view()[k] =~~= mark_entries(base, n@, cls)[k]);
                } else {
                    assert(es.deep_view()[k] == es@[k]@);
                    assert(pre[k] == mark_entries(base, n@, cls)[k]);
                }
            }
            assert forall|k: int| i + 1 <= k < es@.len()
                implies es.deep_view()[k] == base[k] by {
                assert(es.deep_view()[k] == es@[k]@);
                assert(pre[k] == base[k]);
            }
        }
        i = i + 1;
    }
    proof {
        assert(es.deep_view() =~~= mark_entries(base, n@, cls));
    }
}

/// A copy of `cs` in which every child whose value is `n` carries `cls`.
fn mark_children_exec(cs: &Vec<Child>, n: &Digits, cls: FactorClass) -> (r: Vec<Child>)
    ensures
        r.deep_view() == mark_children(cs.deep_view(), n@, cls),
{
    let ghost base = cs.deep_view();
    let mut out: Vec<Child> = Vec::new();
    let mut j: usize = 0;
    while j < cs.len()
        invariant
            0 <= j <= cs@.len(),
            base == cs.deep_view(),
            out.deep_view() =~~= mark_children(base.take(j as int), n@, cls),
        decreases cs@.len() - j,
    {
        let hit = cs[j].value.same_value(n);
        let c = Child {
            value: cs[j].value.duplicate(),
            class: if hit { cls } else { cs[j].class },
        };
        let ghost pre = out.deep_view();
        out.push(c);
        proof {
            assert(base[j as int] == cs@[j as int]@);
            assert(out.deep_view() =~~= pre.push(mark_child(base[j as int], n@, cls)));
            assert(out.deep_view() =~~= mark_children(base.take(j + 1), n@, cls));
        }
        j = j + 1;
    }
    proof {
        assert(base.take(cs@.len() as int) =~= base);
    }
    out
}

/// The event-driven state tracker for the factorization of one number.
pub struct VerboseFactoring {
    pub(crate) primes: Vec<Digits>,
    pub(crate) composite: Vec<Entry>,
    pub(crate) unknown: Vec<Digits>,
    pub(crate) historic: bool,
}

impl View for VerboseFactoring {
    type V = TrackView;

    closed spec fn view(&self) -> TrackView {
        TrackView {
            primes: self.primes.deep_view(),
            entries: self.composite.deep_view(),
            unknown: self.unknown.deep_view(),
            historic: self.historic,
        }
    }
}

impl VerboseFactoring {
    /// A fresh tracker for the number `n`, in the chosen rendering mode.
    pub fn new(n: Digits, historic: bool) -> (r: Self)
        ensures
            r@ == init_model(n@, historic),
    {
        let mut composite: Vec<Entry> = Vec::new();
        composite.push(Entry { value: n, children: Vec::new() });
        let r = VerboseFactoring {
            primes: Vec::new(),
            composite,
            unknown: Vec::new(),
            historic,
        };
        proof {
            assert(r@ =~~= init_model(n@, historic));
        }
        r
    }


    /// Applies one factorization step: `parent` was broken into the listed
    /// primes, composites and unknowns (see `step_factorized`). The prime
    /// list stays sorted.
    pub fn factorized(
        &mut self,
        n: &Digits,
        primes: &Vec<Digits>,
        composites: &Vec<Digits>,
        unknown: &Vec<Digits>,
    )
        ensures
            final(self)@ == step_factorized(
                old(self)@, n@,
                primes.deep_view(), composites.deep_view(), unknown.deep_view()),
            sorted_strs(old(self)@.primes) ==> sorted_strs(final(self)@.primes),
    {
        let ghost m0 = self@;
        let ghost pv = primes.deep_view();
        let ghost cv = composites.deep_view();
        let ghost uv = unknown.deep_view();
        insert_primes(&mut self.primes, primes);
        push_empty_entries(&mut self.composite, composites);
        let ghost es1 = self.composite.deep_view();
        let slot = find_slot(&self.composite, n);
        let idx: usize;
        match slot {
            Some(i) => {
                idx = i;
                proof {
                    lemma_find_expand(es1, n@);
                }
            },
            None => {
                let ghost pre = self.composite.deep_view();
                self.composite.push(Entry { value: n.duplicate(), children: Vec::new() });
                proof {
                    assert(self.composite.deep_view() =~~= pre.push(empty_entry(n@)));
                }
                idx = self.composite.len() - 1;
            },
        }
        let ghost es2 = self.composite.deep_view();
        let ghost gidx = idx as int;
        proof {
            assert(es2[gidx].children.len() == 0);
        }
        let kids = build_children(primes, composites, unknown);
        let val = self.composite[idx].value.duplicate();
        let ghost pre2 = self.composite.deep_view();
        self.composite.set(idx, Entry { value: val, children: kids });
        proof {
            let filled = EntryView {
                value: es2[gidx].value,
                children: es2[gidx].children + step_children(pv, cv, uv),
            };
            assert forall|k: int| 0 <= k < es2.len()
                implies self.composite.deep_view()[k] == es2.update(gidx, filled)[k] by {
                assert(self.composite.deep_view()[k] == self.composite@[k]@);
                if k == gidx {
                    assert(es2[gidx].children + step_children(pv, cv, uv)
                        =~= step_children(pv, cv, uv));
                    assert(self.composite.deep_view()[k] =~~= filled);
                } else {
                    assert(pre2[k] == es2[k]);
                }
            }
            assert(self.composite.deep_view() =~~= es2.update(gidx, filled));
        }
        append_values(&mut self.unknown, unknown);
        proof {
            if sorted_strs(m0.primes) {
                lemma_insert_all_sorted(m0.primes, pv);
            }
            assert(final(self)@ =~~= step_factorized(m0, n@, pv, cv, uv));
        }
    }

    /// Records that `n` was confirmed prime (see `step_prime`). Fails with
    /// the model unchanged when `n` was not awaiting a verdict. The prime
    /// list stays sorted.
    pub fn is_prime(&mut self, n: &Digits) -> (r: Result<(), ProtocolError>)
        ensures
            r is Ok <==> old(self)@.unknown.contains(n@),
            r is Ok ==> final(self)@ == step_prime(old(self)@, n@),
            r is Err ==> final(self)@ == old(self)@,
            r is Err ==> r == Err::<(), ProtocolError>(ProtocolError::NotPending),
            sorted_strs(old(self)@.primes) ==> sorted_strs(final(self)@.primes),
    {
        let ghost m0 = self@;
        let found = find_value(&self.unknown, n);
        match found {
            None => {
                proof {
                    assert(!m0.unknown.contains(n@)) by {
                        if m0.unknown.contains(n@) {
                            let w: int = choose|w: int|
                                0 <= w < m0.unknown.len() && m0.unknown[w] == n@;
                            assert(m0.unknown[w] != n@);
                        }
                    }
                }
                Err(ProtocolError::NotPending)
            },
            Some(j) => {
                proof {
                    assert(m0.unknown[j as int] == n@);
                }
                insert_sorted(&mut self.primes, n.duplicate());
                mark_all(&mut self.composite, n, FactorClass::Prime);
                let ghost preu = self.unknown.deep_view();
                self.unknown.remove(j);
                proof {
                    assert forall|k: int| 0 <= k < self.unknown.deep_view().len()
                        implies self.unknown.deep_view()[k] == preu.remove(j as int)[k] by {
                        assert(self.unknown.deep_view()[k] == self.unknown@[k]@);
                    }
                    assert(self.unknown.deep_view() =~= preu.remove(j as int));
                    lemma_remove_first_at(m0.unknown, n@, j as int);
                    if sorted_strs(m0.primes) {
                        lemma_sorted_insert_sorted(m0.primes, n@);
                    }
                    assert(final(self)@ =~~= step_prime(m0, n@));
                }
                Ok(())
            },
        }
    }

    /// Records that `n` was confirmed composite (see `step_composite`).
    /// Fails with the model unchanged when `n` was not awaiting a verdict.
    /// The prime list is untouched.
    pub fn is_composite(&mut self, n: &Digits) -> (r: Result<(), ProtocolError>)
        ensures
            r is Ok <==> old(self)@.unknown.contains(n@),
            r is Ok ==> final(self)@ == step_composite(old(self)@, n@),
            r is Err ==> final(self)@ == old(self)@,
            r is Err ==> r == Err::<(), ProtocolError>(ProtocolError::NotPending),
            final(self)@.primes == old(self)@.primes,
    {
        let ghost m0 = self@;
        let found = find_value(&self.unknown, n);
        match found {
            None => {
                proof {
                    assert(!m0.unknown.contains(n@)) by {
                        if m0.unknown.contains(n@) {
                            let w: int = choose|w: int|
                                0 <= w < m0.unknown.len() && m0.unknown[w] == n@;
                            assert(m0.unknown[w] != n@);
                        }
                    }
                }
                Err(ProtocolError::NotPending)
            },
            Some(j) => {
                proof {
                    assert(m0.unknown[j as int] == n@);
                }
                let ghost pre = self.composite.deep_view();
                self.composite.push(Entry { value: n.duplicate(), children: Vec::new() });
                proof {
                    assert(self.composite.deep_view() =~~= pre.push(empty_entry(n@)));
                }
                mark_all(&mut self.composite, n, FactorClass::Composite);
                let ghost preu = self.unknown.deep_view();
                self.unknown.remove(j);
                proof {
                    assert forall|k: int| 0 <= k < self.unknown.deep_view().len()
                        implies self.unknown.deep_view()[k] == preu.remove(j as int)[k] by {
                        assert(self.unknown.deep_view()[k] == self.unknown@[k]@);
                    }
                    assert(self.unknown.deep_view() =~= preu.remove(j as int));
                    lemma_remove_first_at(m0.unknown, n@, j as int);
                    assert(final(self)@ =~~= step_composite(m0, n@));
                }
                Ok(())
            },
        }
    }

    /// The confirmed primes, sorted lexicographically.
    pub fn primes(&self) -> (r: &Vec<Digits>)
        ensures
            r.deep_view() == self@.primes,
    {
        &self.primes
    }

    /// The composite expansions, in discovery order.
    pub fn entries(&self) -> (r: &Vec<Entry>)
        ensures
            r.deep_view() == self@.entries,
    {
        &self.composite
    }

    /// The values awaiting a primality verdict, in arrival order.
    pub fn unknown(&self) -> (r: &Vec<Digits>)
        ensures
            r.deep_view() == self@.unknown,
    {
        &self.unknown
    }

    /// Whether the historical rendering mode was chosen.
    pub fn historic(&self) -> (r: bool)
        ensures
            r == self@.historic,
    {
        self.historic
    }
}


/// Opens the tracker's view to the crate's own modules: each model field is
/// the deep view of the matching vector.
pub(crate) proof fn lemma_view(t: &VerboseFactoring)
    ensures
        t@.primes == t.primes.deep_view(),
        t@.entries == t.composite.deep_view(),
        t@.unknown == t.unknown.deep_view(),
        t@.historic == t.historic,
{
}

} // verus!

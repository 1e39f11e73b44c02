//! The render engine: from model state to a terminal frame.
//!
//! Both modes are pure functions of the model. Every frame begins by moving
//! the cursor to the top-left corner and clearing forward, so writing it
//! redraws in place without scroll growth; the caller hands the returned
//! bytes to the terminal in one write.

use vstd::prelude::*;
use crate::digits::Digits;
use crate::style::bold_off;
use crate::style::bold_on;
use crate::style::bold_seq;
use crate::style::clear_after;
use crate::style::clear_after_seq;
use crate::style::goto_home;
use crate::style::goto_home_seq;
use crate::style::gray_fg;
use crate::style::gray_seq;
use crate::style::green_fg;
use crate::style::green_seq;
use crate::style::nobold_seq;
use crate::style::red_fg;
use crate::style::red_seq;
use crate::style::reset_fg;
use crate::style::reset_seq;
use crate::tracker::ChildView;
use crate::tracker::Entry;
use crate::tracker::EntryView;
use crate::tracker::FactorClass;
use crate::tracker::TrackView;
use crate::tracker::VerboseFactoring;
use crate::tracker::lemma_view;

verus! {

/// The succinct header `Prime factors: [`.
pub open spec fn lit_prime_hdr() -> Seq<u8> {
    seq![
        0x50, 0x72, 0x69, 0x6d, 0x65, 0x20, 0x66, 0x61, 0x63, 0x74, 0x6f, 0x72,
        0x73, 0x3a, 0x20, 0x5b,
    ]
}

/// The succinct header `Composite factors: [`.
pub open spec fn lit_comp_hdr() -> Seq<u8> {
    seq![
        0x43, 0x6f, 0x6d, 0x70, 0x6f, 0x73, 0x69, 0x74, 0x65, 0x20, 0x66, 0x61,
        0x63, 0x74, 0x6f, 0x72, 0x73, 0x3a, 0x20, 0x5b,
    ]
}

/// The succinct header `Factors being checked for primality: [`.
pub open spec fn lit_unknown_hdr() -> Seq<u8> {
    seq![
        0x46, 0x61, 0x63, 0x74, 0x6f, 0x72, 0x73, 0x20, 0x62, 0x65, 0x69, 0x6e,
        0x67, 0x20, 0x63, 0x68, 0x65, 0x63, 0x6b, 0x65, 0x64, 0x20, 0x66, 0x6f,
        0x72, 0x20, 0x70, 0x72, 0x69, 0x6d, 0x61, 0x6c, 0x69, 0x74, 0x79, 0x3a,
        0x20, 0x5b,
    ]
}

/// The historical summary header `Found prime divisors: [`.
pub open spec fn lit_found_hdr() -> Seq<u8> {
    seq![
        0x46, 0x6f, 0x75, 0x6e, 0x64, 0x20, 0x70, 0x72, 0x69, 0x6d, 0x65, 0x20,
        0x64, 0x69, 0x76, 0x69, 0x73, 0x6f, 0x72, 0x73, 0x3a, 0x20, 0x5b,
    ]
}

/// A closing bracket followed by the frames' line break.
pub open spec fn lit_close_nl() -> Seq<u8> {
    seq![0x5d, 0x0a, 0x0d]
}

/// The line break the frames use (newline, carriage return).
pub open spec fn nl_seq() -> Seq<u8> {
    seq![0x0a, 0x0d]
}

/// A line break followed by the six-space indent under an expanded value.
pub open spec fn nl_indent_seq() -> Seq<u8> {
    seq![0x0a, 0x0d, 0x20, 0x20, 0x20, 0x20, 0x20, 0x20]
}

/// A single space, the join separator.
pub open spec fn space_seq() -> Seq<u8> {
    seq![0x20]
}

/// The separator of the summary line (colon, space).
pub open spec fn colon_sp_seq() -> Seq<u8> {
    seq![0x3a, 0x20]
}

/// The byte strings of `items` joined with single spaces.
pub open spec fn join_sp(items: Seq<Seq<u8>>) -> Seq<u8>
    decreases items.len(),
{
    if items.len() == 0 {
        Seq::empty()
    } else if items.len() == 1 {
        items[0]
    } else {
        join_sp(items.drop_last()) + space_seq() + items.last()
    }
}

/// The values of the entries not yet broken down, in discovery order.
pub open spec fn leaves_of(es: Seq<EntryView>) -> Seq<Seq<u8>>
    decreases es.len(),
{
    if es.len() == 0 {
        Seq::empty()
    } else if es.last().children.len() == 0 {
        leaves_of(es.drop_last()) + seq![es.last().value]
    } else {
        leaves_of(es.drop_last())
    }
}

/// The color a child is shown in: confirmed green, pending-work red, or no
/// styling while unknown.
pub open spec fn child_style(cls: FactorClass) -> Seq<u8> {
    match cls {
        FactorClass::Prime => green_seq(),
        FactorClass::Composite => red_seq(),
        FactorClass::Unknown => Seq::empty(),
    }
}

/// One child token in the historical tree: styled value and a space.
pub open spec fn hist_child(c: ChildView) -> Seq<u8> {
    child_style(c.class) + c.value + reset_seq() + space_seq()
}

/// All child tokens of one entry, in discovery order.
pub open spec fn hist_children(cs: Seq<ChildView>) -> Seq<u8>
    decreases cs.len(),
{
    if cs.len() == 0 {
        Seq::empty()
    } else {
        hist_children(cs.drop_last()) + hist_child(cs.last())
    }
}

/// One line (or two) of the historical tree: an unexpanded value in bold
/// red; an expanded value dimmed, with its children indented beneath it.
pub open spec fn hist_entry(e: EntryView) -> Seq<u8> {
    if e.children.len() == 0 {
        red_seq() + bold_seq() + e.value + nobold_seq() + reset_seq() + nl_seq()
    } else {
        gray_seq() + e.value + reset_seq() + nl_indent_seq() + hist_children(e.children)
            + nl_seq()
    }
}

/// The historical tree body, one expansion entry after another.
pub open spec fn hist_entries(es: Seq<EntryView>) -> Seq<u8>
    decreases es.len(),
{
    if es.len() == 0 {
        Seq::empty()
    } else {
        hist_entries(es.drop_last()) + hist_entry(es.last())
    }
}

/// The succinct frame: cursor home and clear, then the three sections.
/// The prime section always appears; the composite section only when some
/// entry is still unexpanded; the pending section only when something is
/// pending.
pub open spec fn frame_succinct(m: TrackView) -> Seq<u8> {
    let head = goto_home_seq() + clear_after_seq() + lit_prime_hdr() + green_seq()
        + join_sp(m.primes) + reset_seq() + lit_close_nl();
    let withc = if leaves_of(m.entries).len() > 0 {
        head + nl_seq() + lit_comp_hdr() + red_seq() + join_sp(leaves_of(m.entries))
            + reset_seq() + lit_close_nl()
    } else {
        head
    };
    if m.unknown.len() > 0 {
        withc + nl_seq() + lit_unknown_hdr() + join_sp(m.unknown) + lit_close_nl()
    } else {
        withc
    }
}

/// The historical frame: cursor home and clear, the expansion tree, and a
/// trailing prime summary once any prime is confirmed.
pub open spec fn frame_history(m: TrackView) -> Seq<u8> {
    let head = goto_home_seq() + clear_after_seq() + hist_entries(m.entries);
    if m.primes.len() > 0 {
        head + nl_seq() + lit_found_hdr() + green_seq() + join_sp(m.primes) + reset_seq()
            + lit_close_nl()
    } else {
        head
    }
}

/// The frame of the chosen mode.
pub open spec fn frame_of(m: TrackView) -> Seq<u8> {
    if m.historic {
        frame_history(m)
    } else {
        frame_succinct(m)
    }
}

/// The plain completion line: the number, a colon, and its factors.
pub open spec fn summary_of(n: Seq<u8>, fs: Seq<Seq<u8>>) -> Seq<u8> {
    n + colon_sp_seq() + join_sp(fs)
}

/// Rendering is deterministic: two frames of the same unmutated model are
/// byte-identical.
pub proof fn lemma_render_idempotent(m: TrackView, a: Seq<u8>, b: Seq<u8>)
    requires
        a == frame_of(m),
        b == frame_of(m),
    ensures
        a == b,
{
}

/// Appends all of `s` to `out`.
fn push_bytes(out: &mut Vec<u8>, s: &Vec<u8>)
    ensures
        final(out)@ == old(out)@ + s@,
{
    let ghost base = out@;
    let mut k: usize = 0;
    while k < s.len()
        invariant
            0 <= k <= s@.len(),
            base == old(out)@,
            out@ == base + s@.take(k as int),
        decreases s@.len() - k,
    {
        out.push(s[k]);
        proof {
            assert(out@ =~= base + s@.take(k + 1));
        }
        k = k + 1;
    }
    proof {
        assert(s@.take(s@.len() as int) =~= s@);
    }
}

/// Joins the decimal forms of `items` with single spaces.
fn join_space(items: &Vec<Digits>) -> (r: Vec<u8>)
    ensures
        r@ == join_sp(items.deep_view()),
{
    let ghost dv = items.deep_view();
    let mut out: Vec<u8> = Vec::new();
    let mut k: usize = 0;
    while k < items.len()
        invariant
            0 <= k <= items@.len(),
            dv == items.deep_view(),
            out@ == join_sp(dv.take(k as int)),
        decreases items@.len() - k,
    {
        if k > 0 {
            let ghost pre = out@;
            out.push(0x20);
            proof {
                assert(out@ =~= pre + space_seq());
            }
        }
        push_bytes(&mut out, items[k].bytes());
        proof {
            assert(dv.take(k + 1).drop_last() =~= dv.take(k as int));
            assert(dv.take(k + 1).last() == dv[k as int]);
            if k == 0 {
                assert(out@ =~= dv[0]);
            }
        }
        k = k + 1;
    }
    proof {
        assert(dv.take(items@.len() as int) =~= dv);
    }
    out
}

/// Collects the values of the entries not yet broken down.
fn leaf_values(entries: &Vec<Entry>) -> (r: Vec<Digits>)
    ensures
        r.deep_view() == leaves_of(entries.deep_view()),
{
    let ghost ev = entries.deep_view();
    let mut out: Vec<Digits> = Vec::new();
    let mut i: usize = 0;
    while i < entries.len()
        invariant
            0 <= i <= entries@.len(),
            ev == entries.deep_view(),
            out.deep_view() == leaves_of(ev.take(i as int)),
        decreases entries@.len() - i,
    {
        proof {
            assert(ev[i as int] == entries@[i as int]@);
            assert(ev.take(i + 1).drop_last() =~= ev.take(i as int));
            assert(ev.take(i + 1).last() == ev[i as int]);
        }
        if entries[i].children.len() == 0 {
            let ghost pre = out.deep_view();
            out.push(entries[i].value.duplicate());
            proof {
                assert(out.deep_view() =~= pre.push(ev[i as int].value));
                assert(out.deep_view() =~= leaves_of(ev.take(i + 1)));
            }
        }
        i = i + 1;
    }
    proof {
        assert(ev.take(entries@.len() as int) =~= ev);
    }
    out
}

/// The plain completion line for `n` and its factor list, as the caller
/// prints it once factoring ends.
pub fn summary_line(n: &Digits, factors: &Vec<Digits>) -> (r: Vec<u8>)
    ensures
        r@ == summary_of(n@, factors.deep_view()),
{
    let mut out: Vec<u8> = Vec::new();
    push_bytes(&mut out, n.bytes());
    let ghost mid = out@;
    out.push(0x3a);
    out.push(0x20);
    proof {
        assert(out@ =~= mid + colon_sp_seq());
    }
    let joined = join_space(factors);
    push_bytes(&mut out, &joined);
    proof {
        assert(out@ =~= summary_of(n@, factors.deep_view()));
    }
    out
}

impl VerboseFactoring {
    /// The frame of the current model in the mode chosen at construction.
    /// The caller writes the returned bytes to the terminal unaltered.
    pub fn print_state(&self) -> (r: Vec<u8>)
        ensures
            r@ == frame_of(self@),
    {
        proof {
            lemma_view(self);
        }
        if self.historic {
            self.print_state_history()
        } else {
            self.print_state_succinct()
        }
    }

    /// The succinct frame of the current model.
    fn print_state_succinct(&self) -> (r: Vec<u8>)
        ensures
            r@ == frame_succinct(self@),
    {
        proof {
            lemma_view(self);
        }
        let ghost m = self@;
        let mut out: Vec<u8> = Vec::new();
        let home = goto_home();
        push_bytes(&mut out, &home);
        let clear = clear_after();
        push_bytes(&mut out, &clear);
        proof {
            assert(out@ =~= goto_home_seq() + clear_after_seq());
        }
        push_lit_prime_hdr(&mut out);
        let green = green_fg();
        push_bytes(&mut out, &green);
        let pj = join_space(&self.primes);
        push_bytes(&mut out, &pj);
        let reset = reset_fg();
        push_bytes(&mut out, &reset);
        push_lit_close_nl(&mut out);
        let ghost head = out@;
        proof {
            assert(head == goto_home_seq() + clear_after_seq() + lit_prime_hdr()
                + green_seq() + join_sp(m.primes) + reset_seq() + lit_close_nl());
        }
        let leaves = leaf_values(&self.composite);
        if leaves.len() > 0 {
            push_nl(&mut out);
            push_lit_comp_hdr(&mut out);
            let red = red_fg();
            push_bytes(&mut out, &red);
            let lj = join_space(&leaves);
            push_bytes(&mut out, &lj);
            let reset2 = reset_fg();
            push_bytes(&mut out, &reset2);
            push_lit_close_nl(&mut out);
        }
        let ghost withc = out@;
        if self.unknown.len() > 0 {
            push_nl(&mut out);
            push_lit_unknown_hdr(&mut out);
            let uj = join_space(&self.unknown);
            push_bytes(&mut out, &uj);
            push_lit_close_nl(&mut out);
        }
        proof {
            assert(out@ =~= frame_succinct(m));
        }
        out
    }

    /// The historical frame of the current model.
    fn print_state_history(&self) -> (r: Vec<u8>)
        ensures
            r@ == frame_history(self@),
    {
        proof {
            lemma_view(self);
        }
        let ghost m = self@;
        let ghost ev = self.composite.deep_view();
        let mut out: Vec<u8> = Vec::new();
        let home = goto_home();
        push_bytes(&mut out, &home);
        let clear = clear_after();
        push_bytes(&mut out, &clear);
        proof {
            assert(out@ =~= goto_home_seq() + clear_after_seq() + hist_entries(ev.take(0)));
        }
        let mut i: usize = 0;
        while i < self.composite.len()
            invariant
                0 <= i <= self.composite@.len(),
                ev == self.composite.deep_view(),
                out@ == goto_home_seq() + clear_after_seq() + hist_entries(ev.take(i as int)),
            decreases self.composite@.len() - i,
        {
            let ghost base = out@;
            proof {
                assert(ev[i as int] == self.composite@[i as int]@);
            }
            if self.composite[i].children.len() == 0 {
                let red = red_fg();
                push_bytes(&mut out, &red);
                let bold = bold_on();
                push_bytes(&mut out, &bold);
                push_bytes(&mut out, self.composite[i].value.bytes());
                let nobold = bold_off();
                push_bytes(&mut out, &nobold);
                let reset = reset_fg();
                push_bytes(&mut out, &reset);
                push_nl(&mut out);
                proof {
                    assert(out@ =~= base + hist_entry(ev[i as int]));
                }
            } else {
                let gray = gray_fg();
                push_bytes(&mut out, &gray);
                push_bytes(&mut out, self.composite[i].value.bytes());
                let reset = reset_fg();
                push_bytes(&mut out, &reset);
                push_nl_indent(&mut out);
                let ghost base2 = out@;
                let nch = self.composite[i].children.len();
                let mut j: usize = 0;
                while j < nch
                    invariant
                        0 <= j <= nch,
                        i < self.composite@.len(),
                        ev == self.composite.deep_view(),
                        ev[i as int] == self.composite@[i as int]@,
                        nch == ev[i as int].children.len(),
                        out@ == base2 + hist_children(ev[i as int].children.take(j as int)),
                    decreases nch - j,
                {
                    let ghost cs = ev[i as int].children;
                    proof {
                        assert(cs[j as int] == self.composite@[i as int].children@[j as int]@);
                    }
                    match self.composite[i].children[j].class {
                        FactorClass::Prime => {
                            let green = green_fg();
                            push_bytes(&mut out, &green);
                        },
                        FactorClass::Composite => {
                            let red = red_fg();
                            push_bytes(&mut out, &red);
                        },
                        FactorClass::Unknown => {},
                    }
                    push_bytes(&mut out, self.composite[i].children[j].value.bytes());
                    let reset2 = reset_fg();
                    push_bytes(&mut out, &reset2);
                    push_space(&mut out);
                    proof {
                        assert(cs.take(j + 1).drop_last() =~= cs.take(j as int));
                        assert(cs.take(j + 1).last() == cs[j as int]);
                        assert(out@ =~= base2 + hist_children(cs.take(j + 1)));
                    }
                    j = j + 1;
                }
                proof {
                    assert(ev[i as int].children.take(nch as int) =~= ev[i as int].children);
                }
                push_nl(&mut out);
                proof {
                    assert(out@ =~= base + hist_entry(ev[i as int]));
                }
            }
            proof {
                assert(ev.take(i + 1).drop_last() =~= ev.take(i as int));
                assert(ev.take(i + 1).last() == ev[i as int]);
                assert(out@ =~= goto_home_seq() + clear_after_seq()
                    + hist_entries(ev.take(i + 1)));
            }
            i = i + 1;
        }
        proof {
            assert(ev.take(self.composite@.len() as int) =~= ev);
        }
        if self.primes.len() > 0 {
            push_nl(&mut out);
            push_lit_found_hdr(&mut out);
            let green = green_fg();
            push_bytes(&mut out, &green);
            let pj = join_space(&self.primes);
            push_bytes(&mut out, &pj);
            let reset = reset_fg();
            push_bytes(&mut out, &reset);
            push_lit_close_nl(&mut out);
        }
        proof {
            assert(out@ =~= frame_history(m));
        }
        out
    }
}

/// Appends the `Prime factors: [` header.
fn push_lit_prime_hdr(out: &mut Vec<u8>)
    ensures
        final(out)@ == old(out)@ + lit_prime_hdr(),
{
    let add: Vec<u8> = make_lit_prime_hdr();
    push_bytes(out, &add);
}

/// Appends the `Composite factors: [` header.
fn push_lit_comp_hdr(out: &mut Vec<u8>)
    ensures
        final(out)@ == old(out)@ + lit_comp_hdr(),
{
    let add: Vec<u8> = make_lit_comp_hdr();
    push_bytes(out, &add);
}

/// Appends the `Factors being checked for primality: [` header.
fn push_lit_unknown_hdr(out: &mut Vec<u8>)
    ensures
        final(out)@ == old(out)@ + lit_unknown_hdr(),
{
    let add: Vec<u8> = make_lit_unknown_hdr();
    push_bytes(out, &add);
}

/// Appends the `Found prime divisors: [` header.
fn push_lit_found_hdr(out: &mut Vec<u8>)
    ensures
        final(out)@ == old(out)@ + lit_found_hdr(),
{
    let add: Vec<u8> = make_lit_found_hdr();
    push_bytes(out, &add);
}

/// Appends the closing bracket and line break.
fn push_lit_close_nl(out: &mut Vec<u8>)
    ensures
        final(out)@ == old(out)@ + lit_close_nl(),
{
    let ghost base = out@;
    out.push(0x5d);
    out.push(0x0a);
    out.push(0x0d);
    proof {
        assert(out@ =~= base + lit_close_nl());
    }
}

/// Appends the line break.
fn push_nl(out: &mut Vec<u8>)
    ensures
        final(out)@ == old(out)@ + nl_seq(),
{
    let ghost base = out@;
    out.push(0x0a);
    out.push(0x0d);
    proof {
        assert(out@ =~= base + nl_seq());
    }
}

/// Appends the line break and child indent.
fn push_nl_indent(out: &mut Vec<u8>)
    ensures
        final(out)@ == old(out)@ + nl_indent_seq(),
{
    let ghost base = out@;
    out.push(0x0a);
    out.push(0x0d);
    out.push(0x20);
    out.push(0x20);
    out.push(0x20);
    out.push(0x20);
    out.push(0x20);
    out.push(0x20);
    proof {
        assert(out@ =~= base + nl_indent_seq());
    }
}

/// Appends the join separator.
fn push_space(out: &mut Vec<u8>)
    ensures
        final(out)@ == old(out)@ + space_seq(),
{
    let ghost base = out@;
    out.push(0x20);
    proof {
        assert(out@ =~= base + space_seq());
    }
}

/// The `Prime factors: [` header as bytes.
fn make_lit_prime_hdr() -> (r: Vec<u8>)
    ensures
        r@ == lit_prime_hdr(),
{
    let mut v: Vec<u8> = Vec::new();
    v.push(0x50); v.push(0x72); v.push(0x69); v.push(0x6d); v.push(0x65); v.push(0x20);
    v.push(0x66); v.push(0x61); v.push(0x63); v.push(0x74); v.push(0x6f); v.push(0x72);
    v.push(0x73); v.push(0x3a); v.push(0x20); v.push(0x5b);
    proof {
        assert(v@ =~= lit_prime_hdr());
    }
    v
}

/// The `Composite factors: [` header as bytes.
fn make_lit_comp_hdr() -> (r: Vec<u8>)
    ensures
        r@ == lit_comp_hdr(),
{
    let mut v: Vec<u8> = Vec::new();
    v.push(0x43); v.push(0x6f); v.push(0x6d); v.push(0x70); v.push(0x6f); v.push(0x73);
    v.push(0x69); v.push(0x74); v.push(0x65); v.push(0x20); v.push(0x66); v.push(0x61);
    v.push(0x63); v.push(0x74); v.push(0x6f); v.push(0x72); v.push(0x73); v.push(0x3a);
    v.push(0x20); v.push(0x5b);
    proof {
        assert(v@ =~= lit_comp_hdr());
    }
    v
}

/// The `Factors being checked for primality: [` header as bytes.
fn make_lit_unknown_hdr() -> (r: Vec<u8>)
    ensures
        r@ == lit_unknown_hdr(),
{
    let mut v: Vec<u8> = Vec::new();
    v.push(0x46); v.push(0x61); v.push(0x63); v.push(0x74); v.push(0x6f); v.push(0x72);
    v.push(0x73); v.push(0x20); v.push(0x62); v.push(0x65); v.push(0x69); v.push(0x6e);
    v.push(0x67); v.push(0x20); v.push(0x63); v.push(0x68); v.push(0x65); v.push(0x63);
    v.push(0x6b); v.push(0x65); v.push(0x64); v.push(0x20); v.push(0x66); v.push(0x6f);
    v.push(0x72); v.push(0x20); v.push(0x70); v.push(0x72); v.push(0x69); v.push(0x6d);
    v.push(0x61); v.push(0x6c); v.push(0x69); v.push(0x74); v.push(0x79); v.push(0x3a);
    v.push(0x20); v.push(0x5b);
    proof {
        assert(v@ =~= lit_unknown_hdr());
    }
    v
}

/// The `Found prime divisors: [` header as bytes.
fn make_lit_found_hdr() -> (r: Vec<u8>)
    ensures
        r@ == lit_found_hdr(),
{
    let mut v: Vec<u8> = Vec::new();
    v.push(0x46); v.push(0x6f); v.push(0x75); v.push(0x6e); v.push(0x64); v.push(0x20);
    v.push(0x70); v.push(0x72); v.push(0x69); v.push(0x6d); v.push(0x65); v.push(0x20);
    v.push(0x64); v.push(0x69); v.push(0x76); v.push(0x69); v.push(0x73); v.push(0x6f);
    v.push(0x72); v.push(0x73); v.push(0x3a); v.push(0x20); v.push(0x5b);
    proof {
        assert(v@ =~= lit_found_hdr());
    }
    v
}

} // verus!

//! Decimal values and their lexicographic order.
//!
//! The tracker identifies the numbers it follows by their decimal string
//! form: that is all the model ever reads of them (equality for matching
//! events to entries, lexicographic order for the sorted prime list, and the
//! bytes themselves for display). `Digits` holds that form as ASCII digit
//! bytes, so arbitrarily large numbers fit.

use vstd::prelude::*;

verus! {

/// The decimal form of a non-negative integer, as ASCII digit bytes.
pub struct Digits {
    bytes: Vec<u8>,
}

/// A well-formed decimal form: non-empty, digits only, no leading zero
/// (except for the single digit `0` itself).
pub open spec fn digits_wf(s: Seq<u8>) -> bool {
    &&& s.len() > 0
    &&& forall|i: int| 0 <= i < s.len() ==> 0x30u8 <= #[trigger] s[i] <= 0x39u8
    &&& s.len() > 1 ==> s[0] != 0x30u8
}

impl View for Digits {
    type V = Seq<u8>;

    closed spec fn view(&self) -> Seq<u8> {
        self.bytes@
    }
}

impl DeepView for Digits {
    type V = Seq<u8>;

    open spec fn deep_view(&self) -> Seq<u8> {
        self.view()
    }
}

/// The decimal digit sequence of `n`, most significant digit first.
pub open spec fn dec_rep(n: nat) -> Seq<u8>
    decreases n,
{
    if n < 10 {
        seq![(n + 0x30) as u8]
    } else {
        dec_rep(n / 10) + seq![(n % 10 + 0x30) as u8]
    }
}

/// The decimal form of every number is well-formed.
pub proof fn lemma_dec_rep_wf(n: nat)
    ensures
        digits_wf(dec_rep(n)),
        n >= 1 ==> dec_rep(n)[0] != 0x30u8,
    decreases n,
{
    if n >= 10 {
        lemma_dec_rep_wf(n / 10);
        assert(n / 10 >= 1) by (nonlinear_arith)
            requires n >= 10;
        assert(dec_rep(n)[0] == dec_rep(n / 10)[0]);
    }
}

impl Digits {
    /// Every constructed value carries a well-formed decimal form.
    pub open spec fn wf(&self) -> bool {
        digits_wf(self@)
    }

    /// The decimal form of a machine integer.
    pub fn from_u64(n: u64) -> (r: Digits)
        ensures
            r@ == dec_rep(n as nat),
            r.wf(),
    {
        let mut bytes: Vec<u8> = Vec::new();
        push_dec(&mut bytes, n);
        proof {
            lemma_dec_rep_wf(n as nat);
        }
        Digits { bytes }
    }

    /// Accepts a byte string exactly when it is a well-formed decimal form.
    pub fn from_decimal(bytes: Vec<u8>) -> (r: Option<Digits>)
        ensures
            digits_wf(bytes@) ==> (r matches Some(d) && d@ == bytes@),
            !digits_wf(bytes@) ==> r is None,
    {
        if bytes.len() == 0 {
            return None;
        }
        if bytes.len() > 1 && bytes[0] == 0x30u8 {
            return None;
        }
        let mut i: usize = 0;
        while i < bytes.len()
            invariant
                0 <= i <= bytes@.len(),
                forall|k: int| 0 <= k < i ==> 0x30u8 <= #[trigger] bytes@[k] <= 0x39u8,
            decreases bytes@.len() - i,
        {
            if bytes[i] < 0x30u8 || bytes[i] > 0x39u8 {
                return None;
            }
            i = i + 1;
        }
        Some(Digits { bytes })
    }

    /// A fresh value with the same decimal form.
    pub fn duplicate(&self) -> (r: Digits)
        ensures
            r@ == self@,
    {
        let mut bytes: Vec<u8> = Vec::new();
        let mut i: usize = 0;
        while i < self.bytes.len()
            invariant
                0 <= i <= self.bytes@.len(),
                bytes@ == self.bytes@.take(i as int),
            decreases self.bytes@.len() - i,
        {
            bytes.push(self.bytes[i]);
            proof {
                assert(bytes@ =~= self.bytes@.take(i + 1));
            }
            i = i + 1;
        }
        proof {
            assert(bytes@ =~= self.bytes@);
        }
        Digits { bytes }
    }

    /// The decimal form itself, for display.
    pub fn bytes(&self) -> (r: &Vec<u8>)
        ensures
            r@ == self@,
    {
        &self.bytes
    }

    /// Whether two values have the same decimal form.
    pub fn same_value(&self, other: &Digits) -> (r: bool)
        ensures
            r == (self@ == other@),
    {
        let r = self.bytes == other.bytes;
        proof {
            if self.bytes@.len() == other.bytes@.len()
                && (forall|i: int| 0 <= i < self.bytes@.len()
                    ==> self.bytes@[i] == other.bytes@[i]) {
                assert(self.bytes@ =~= other.bytes@);
            }
        }
        r
    }
}

/// Appends the decimal digits of `n` to `out`.
fn push_dec(out: &mut Vec<u8>, n: u64)
    ensures
        final(out)@ == old(out)@ + dec_rep(n as nat),
    decreases n,
{
    if n < 10 {
        out.push((n as u8) + 0x30);
        proof {
            assert(out@ =~= old(out)@ + dec_rep(n as nat));
        }
    } else {
        assert(n / 10 < n) by (nonlinear_arith)
            requires n >= 10;
        push_dec(out, n / 10);
        out.push((n % 10) as u8 + 0x30);
        proof {
            assert(out@ =~= old(out)@ + dec_rep(n as nat));
        }
    }
}

} // verus!

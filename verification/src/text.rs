//! Byte-level text building: a bounded writer that truncates, and decimal rendering.

use vstd::prelude::*;

verus! {

/// `s` cut to at most `n` bytes.
pub open spec fn truncated(s: Seq<u8>, n: nat) -> Seq<u8> {
    if s.len() <= n {
        s
    } else {
        s.take(n as int)
    }
}

/// Truncation keeps the first bytes: the result is the whole text when it fits, and
/// otherwise its first `n` bytes.
pub proof fn law_truncated_keeps_prefix(s: Seq<u8>, n: nat)
    ensures
        truncated(s, n).len() == if s.len() <= n { s.len() } else { n },
        forall|i: int| 0 <= i < truncated(s, n).len() ==> #[trigger] truncated(s, n)[i] == s[i],
{
}

/// Writing in several truncating pieces is writing the whole text once, truncated.
pub proof fn lemma_truncated_append(a: Seq<u8>, b: Seq<u8>, n: nat)
    ensures
        truncated(truncated(a, n) + b, n) =~= truncated(a + b, n),
{
    if a.len() > n {
        assert((a.take(n as int) + b).take(n as int) =~= (a + b).take(n as int));
    }
}

/// A writer over a buffer of fixed capacity: what does not fit is dropped.
pub struct BufWriter {
    buf: Vec<u8>,
    cap: usize,
}

impl View for BufWriter {
    type V = Seq<u8>;

    closed spec fn view(&self) -> Seq<u8> {
        self.buf@
    }
}

impl BufWriter {
    /// The number of bytes the underlying buffer holds.
    pub closed spec fn capacity(&self) -> nat {
        self.cap as nat
    }

    pub closed spec fn wf(&self) -> bool {
        self.buf@.len() <= self.cap
    }

    /// A well-formed writer never holds more than its capacity.
    pub proof fn lemma_wf_bound(&self)
        requires
            self.wf(),
        ensures
            self@.len() <= self.capacity(),
    {
    }

    pub fn new(cap: usize) -> (w: Self)
        ensures
            w.wf(),
            w@ == Seq::<u8>::empty(),
            w.capacity() == cap,
    {
        BufWriter { buf: Vec::new(), cap }
    }

    /// What has been written so far.
    pub fn as_slice(&self) -> (s: &[u8])
        ensures
            s@ == self@,
    {
        self.buf.as_slice()
    }

    /// Number of bytes written so far.
    pub fn len(&self) -> (n: usize)
        ensures
            n == self@.len(),
    {
        self.buf.len()
    }

    /// Appends as much of `s` as still fits.
    pub fn write_str(&mut self, s: &[u8])
        requires
            old(self).wf(),
        ensures
            final(self).wf(),
            final(self).capacity() == old(self).capacity(),
            final(self)@ == truncated(old(self)@ + s@, old(self).capacity()),
    {
        let room = self.cap - self.buf.len();
        let n = if room < s.len() { room } else { s.len() };
        let ghost start = self.buf@;
        let ghost cap0 = self.cap;
        let mut i: usize = 0;
        while i < n
            invariant
                self.cap == cap0,
                n == if room < s@.len() { room as int } else { s@.len() as int },
                room == cap0 - start.len(),
                n <= s@.len(),
                start.len() + n <= self.cap,
                i <= n,
                self.buf@ =~= start + s@.take(i as int),
            decreases n - i,
        {
            self.buf.push(s[i]);
            i = i + 1;
            assert(self.buf@ =~= start + s@.take(i as int));
        }
        assert(truncated(start + s@, self.cap as nat) =~= start + s@.take(n as int));
    }

    /// Appends one byte when it still fits.
    pub fn write_byte(&mut self, b: u8)
        requires
            old(self).wf(),
        ensures
            final(self).wf(),
            final(self).capacity() == old(self).capacity(),
            final(self)@ == truncated(old(self)@ + seq![b], old(self).capacity()),
    {
        if self.buf.len() < self.cap {
            self.buf.push(b);
        }
        assert(truncated(old(self)@ + seq![b], self.cap as nat) =~= self.buf@);
    }
}

/// The ASCII decimal digits of `v`, most significant first, without leading zeros.
pub open spec fn dec(v: nat) -> Seq<u8>
    decreases v,
{
    if v < 10 {
        seq![(48 + v) as u8]
    } else {
        dec(v / 10).push((48 + v % 10) as u8)
    }
}

/// The number a string of ASCII decimal digits denotes.
pub open spec fn dec_value(s: Seq<u8>) -> int
    decreases s.len(),
{
    if s.len() == 0 {
        0
    } else {
        dec_value(s.drop_last()) * 10 + (s.last() - 48)
    }
}

/// Decimal rendering is exact: every byte is a digit, the first is not a leading
/// zero (unless the number is zero), and reading the digits back gives the number.
pub proof fn law_dec_roundtrip(v: nat)
    ensures
        dec_value(dec(v)) == v,
        forall|i: int| 0 <= i < dec(v).len() ==> 48 <= #[trigger] dec(v)[i] <= 57,
        dec(v).len() > 1 ==> dec(v)[0] != 48u8,
    decreases v,
{
    if v >= 10 {
        law_dec_roundtrip(v / 10);
        let d = dec(v / 10);
        let last = (48 + v % 10) as u8;
        assert(last == 48 + v % 10);
        assert(dec(v) == d.push(last));
        assert(dec(v).drop_last() =~= d);
        assert(dec(v).last() == last);
        assert(dec_value(dec(v)) == dec_value(d) * 10 + (last - 48));
        assert((v / 10) * 10 + v % 10 == v);
        assert(dec(v)[0] == d[0]);
        if v / 10 >= 10 {
            let x = v / 10;
            assert(dec(x) == dec(x / 10).push((48 + x % 10) as u8));
            assert(d.len() > 1);
        } else {
            assert(d == seq![(48 + v / 10) as u8]);
            assert(d[0] == 48 + v / 10);
        }
    } else {
        assert(dec(v) == seq![(48 + v) as u8]);
        assert(dec(v)[0] == 48 + v);
        assert(dec(v).drop_last() =~= Seq::<u8>::empty());
        assert(dec_value(Seq::<u8>::empty()) == 0);
        assert(dec(v).last() == 48 + v);
        assert(dec_value(dec(v)) == dec_value(dec(v).drop_last()) * 10 + (dec(v).last() - 48));
    }
}

/// Ten to the power `k`.
pub open spec fn pow10(k: nat) -> nat
    decreases k,
{
    if k == 0 {
        1
    } else {
        10 * pow10((k - 1) as nat)
    }
}

/// A number below `10^k` has between one and `k` decimal digits.
pub proof fn lemma_dec_len(v: nat, k: nat)
    requires
        v < pow10(k),
        k >= 1,
    ensures
        1 <= dec(v).len() <= k,
    decreases k,
{
    if v >= 10 {
        assert(k >= 2) by {
            if k == 1 {
                assert(pow10(1) == 10 * pow10(0));
            }
        }
        let b2 = pow10((k - 1) as nat);
        assert(v / 10 < b2) by (nonlinear_arith)
            requires
                v < 10 * b2,
        ;
        lemma_dec_len(v / 10, (k - 1) as nat);
    }
}

/// Renders `v` in decimal into a buffer of `room` bytes; the digits that do not
/// fit are cut from the end.
pub fn write_u32(room: usize, v: u32) -> (out: Vec<u8>)
    ensures
        out@ == truncated(dec(v as nat), room as nat),
{
    let mut out: Vec<u8> = Vec::new();
    if v == 0 {
        if room > 0 {
            out.push(48);
        }
        assert(dec(0) =~= seq![48u8]);
        assert(out@ =~= truncated(dec(0), room as nat));
        return out;
    }
    proof {
        reveal_with_fuel(pow10, 11);
        assert(pow10(10) == 10000000000);
        lemma_dec_len(v as nat, 10);
    }
    let mut tmp: Vec<u8> = Vec::new();
    let mut x: u32 = v;
    // Digits are produced least significant first.
    while x > 0 && tmp.len() < 10
        invariant
            x > 0 ==> dec(v as nat) =~= dec(x as nat) + tmp@.reverse(),
            x == 0 ==> dec(v as nat) =~= tmp@.reverse(),
            x > 0 ==> tmp@.len() + dec(x as nat).len() == dec(v as nat).len(),
            dec(v as nat).len() <= 10,
        decreases x,
    {
        let d: u8 = (x % 10) as u8;
        let ghost old_tmp = tmp@;
        tmp.push(48 + d);
        proof {
            assert(tmp@.reverse() =~= seq![(48 + d) as u8] + old_tmp.reverse());
            if x >= 10 {
                assert(dec(x as nat) == dec((x / 10) as nat).push((48 + x % 10) as u8));
                assert(dec(x as nat) =~= dec((x / 10) as nat) + seq![(48 + d) as u8]);
            } else {
                assert(dec(x as nat) =~= seq![(48 + d) as u8]);
            }
        }
        x = x / 10;
    }
    let mut i = tmp.len();
    let ghost digits = tmp@.reverse();
    assert(digits =~= dec(v as nat));
    while i > 0
        invariant
            i <= tmp@.len(),
            digits =~= tmp@.reverse(),
            out@ =~= truncated(digits.take((tmp@.len() - i) as int), room as nat),
        decreases i,
    {
        i = i - 1;
        let ghost k = (tmp@.len() - i) as int;
        assert(digits.take(k) =~= digits.take(k - 1).push(tmp@[i as int]));
        if out.len() < room {
            out.push(tmp[i]);
        }
    }
    assert(digits.take(tmp@.len() as int) =~= digits);
    out
}

} // verus!

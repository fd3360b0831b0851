//! The bit streams that an encoder writes, as a model.
//!
//! Headers are described here from the encoder's side: a sequence of bits to
//! which numbers are appended one after the other. The laws of the codec
//! modules say that reading such a stream gives back what was written.

use crate::bits::Cursor;
use vstd::prelude::*;

verus! {

/// Bits written so far.
pub struct Bits {
    pub bits: Seq<nat>,
}

impl Bits {
    /// Nothing.
    pub open spec fn start() -> Bits {
        Bits { bits: Seq::empty() }
    }

    /// The number of bits.
    #[verifier::opaque]
    pub open spec fn len(self) -> nat {
        self.bits.len()
    }

    /// Append bits as they are.
    #[verifier::opaque]
    pub open spec fn raw(self, s: Seq<nat>) -> Bits {
        Bits { bits: self.bits + s }
    }

    /// Append `v` in `n` binary digits, `u(n)`.
    #[verifier::opaque]
    pub open spec fn u(self, n: nat, v: nat) -> Bits {
        Bits { bits: self.bits + crate::bits::digits(v, n) }
    }

    /// Append one bit.
    #[verifier::opaque]
    pub open spec fn flag(self, v: nat) -> Bits {
        Bits { bits: self.bits + seq![v] }
    }

    /// Append an unsigned Exp-Golomb code word, `ue(v)`.
    #[verifier::opaque]
    pub open spec fn ue(self, v: nat) -> Bits {
        Bits { bits: self.bits + crate::bits::ue_code(v) }
    }

    /// Append a signed Exp-Golomb code word, `se(v)`.
    #[verifier::opaque]
    pub open spec fn se(self, k: int) -> Bits {
        Bits { bits: self.bits + crate::bits::ue_code(crate::bits::code_of_signed(k)) }
    }

    /// Append unsigned Exp-Golomb code words.
    pub open spec fn ues(self, vs: Seq<nat>) -> Bits
        decreases vs.len(),
    {
        if vs.len() == 0 {
            self
        } else {
            self.ues(vs.drop_last()).ue(vs.last())
        }
    }

    /// Append bytes.
    pub open spec fn bytes(self, vs: Seq<u8>) -> Bits
        decreases vs.len(),
    {
        if vs.len() == 0 {
            self
        } else {
            self.bytes(vs.drop_last()).u(8, vs.last() as nat)
        }
    }

    /// Append signed Exp-Golomb code words.
    pub open spec fn ses(self, ks: Seq<int>) -> Bits
        decreases ks.len(),
    {
        if ks.len() == 0 {
            self
        } else {
            self.ses(ks.drop_last()).se(ks.last())
        }
    }
}

/// True if `v` has an unsigned Exp-Golomb code word that readers accept.
pub open spec fn ue_fits(v: nat) -> bool {
    v < 0xffff_ffff
}

/// True if `k` has a signed Exp-Golomb code word that readers accept.
pub open spec fn se_fits(k: int) -> bool {
    -0x7fff_ffff <= k <= 0x7fff_ffff
}

impl Cursor {
    /// True if the next bits are those that were written.
    #[verifier::opaque]
    pub open spec fn begins_with(self, w: Bits) -> bool {
        self.reads(w.bits)
    }

    /// The place behind what was written.
    pub open spec fn behind(self, w: Bits) -> Cursor {
        self.skip(w.len())
    }
}

/// Bit `j` of `bits`, or 0 past their end.
pub open spec fn padded(bits: Seq<nat>, j: int) -> nat {
    if 0 <= j < bits.len() {
        bits[j]
    } else {
        0
    }
}

/// Bits as bytes, the first bit of each in the place of 128. The last byte is
/// filled up with zeros.
pub open spec fn packed(bits: Seq<nat>) -> Seq<u8> {
    Seq::new(
        (bits.len() + 7) / 8,
        |i: int|
            (128 * padded(bits, 8 * i) + 64 * padded(bits, 8 * i + 1) + 32 * padded(bits, 8 * i + 2)
                + 16 * padded(bits, 8 * i + 3) + 8 * padded(bits, 8 * i + 4) + 4 * padded(
                bits,
                8 * i + 5,
            ) + 2 * padded(bits, 8 * i + 6) + padded(bits, 8 * i + 7)) as u8,
    )
}

/// Bits that were packed into bytes are read back from them, whatever follows.
pub proof fn law_packed_bits_read_back(w: Bits, rest: Seq<u8>)
    requires
        forall|i: int| 0 <= i < w.bits.len() ==> #[trigger] w.bits[i] <= 1,
    ensures
        Cursor::start(packed(w.bits) + rest).begins_with(w),
{
    reveal(Cursor::begins_with);
    let bits = w.bits;
    let data = packed(bits) + rest;
    let c = Cursor::start(data);
    assert forall|i: int| 0 <= i < bits.len() implies #[trigger] bits[i] == crate::bits::bit_at(
        data,
        (c.pos + i) as nat,
    ) by {
        let k = i / 8;
        assert forall|j: int| #[trigger] padded(bits, j) <= 1 by {}
        let b0 = padded(bits, 8 * k) as u8;
        let b1 = padded(bits, 8 * k + 1) as u8;
        let b2 = padded(bits, 8 * k + 2) as u8;
        let b3 = padded(bits, 8 * k + 3) as u8;
        let b4 = padded(bits, 8 * k + 4) as u8;
        let b5 = padded(bits, 8 * k + 5) as u8;
        let b6 = padded(bits, 8 * k + 6) as u8;
        let b7 = padded(bits, 8 * k + 7) as u8;
        assert(data[k] == packed(bits)[k]);
        let byte = data[k];
        lemma_byte_bits(byte, b0, b1, b2, b3, b4, b5, b6, b7);
        assert(i == 8 * k + i % 8);
        assert(padded(bits, 8 * k + i % 8) == bits[i]);
    }
}

proof fn lemma_byte_bits(byte: u8, b0: u8, b1: u8, b2: u8, b3: u8, b4: u8, b5: u8, b6: u8, b7: u8)
    requires
        b0 <= 1 && b1 <= 1 && b2 <= 1 && b3 <= 1 && b4 <= 1 && b5 <= 1 && b6 <= 1 && b7 <= 1,
        byte == 128 * b0 + 64 * b1 + 32 * b2 + 16 * b3 + 8 * b4 + 4 * b5 + 2 * b6 + b7,
    ensures
        (byte >> 7) & 1 == b0,
        (byte >> 6) & 1 == b1,
        (byte >> 5) & 1 == b2,
        (byte >> 4) & 1 == b3,
        (byte >> 3) & 1 == b4,
        (byte >> 2) & 1 == b5,
        (byte >> 1) & 1 == b6,
        (byte >> 0) & 1 == b7,
{
    assert((byte >> 7) & 1 == b0 && (byte >> 6) & 1 == b1 && (byte >> 5) & 1 == b2 && (byte >> 4)
        & 1 == b3 && (byte >> 3) & 1 == b4 && (byte >> 2) & 1 == b5 && (byte >> 1) & 1 == b6 && (
    byte >> 0) & 1 == b7) by (bit_vector)
        requires
            b0 <= 1 && b1 <= 1 && b2 <= 1 && b3 <= 1 && b4 <= 1 && b5 <= 1 && b6 <= 1 && b7 <= 1,
            byte == 128 * b0 + 64 * b1 + 32 * b2 + 16 * b3 + 8 * b4 + 4 * b5 + 2 * b6 + b7,
    ;
}

proof fn lemma_split(c: Cursor, a: Seq<nat>, b: Seq<nat>)
    requires
        c.reads(a + b),
    ensures
        c.reads(a),
        c.skip(a.len()).reads(b),
{
    assert forall|i: int| 0 <= i < a.len() implies #[trigger] a[i] == crate::bits::bit_at(
        c.data,
        (c.pos + i) as nat,
    ) by {
        assert((a + b)[i] == a[i]);
    }
    let d = c.skip(a.len());
    assert forall|i: int| 0 <= i < b.len() implies #[trigger] b[i] == crate::bits::bit_at(
        d.data,
        (d.pos + i) as nat,
    ) by {
        assert((a + b)[a.len() + i] == b[i]);
    }
}

pub broadcast proof fn lemma_begins_raw(c: Cursor, w: Bits, s: Seq<nat>)
    requires
        #[trigger] c.begins_with(w.raw(s)),
    ensures
        c.begins_with(w),
        w.raw(s).len() == w.len() + s.len(),
{
    reveal(Cursor::begins_with);
    reveal(Bits::raw);
    reveal(Bits::len);
    lemma_split(c, w.bits, s);
}

pub broadcast proof fn lemma_begins_u(c: Cursor, w: Bits, n: nat, v: nat)
    requires
        #[trigger] c.begins_with(w.u(n, v)),
        v < crate::bits::two_to(n),
    ensures
        c.begins_with(w),
        w.u(n, v).len() == w.len() + n,
        c.behind(w).u(n) == v,
{
    reveal(Cursor::begins_with);
    reveal(Bits::u);
    reveal(Bits::len);
    lemma_split(c, w.bits, crate::bits::digits(v, n));
    crate::bits::lemma_digits_len(v, n);
    crate::bits::law_u_reads_back(c.behind(w), v, n);
}

pub broadcast proof fn lemma_begins_flag(c: Cursor, w: Bits, v: nat)
    requires
        #[trigger] c.begins_with(w.flag(v)),
    ensures
        c.begins_with(w),
        w.flag(v).len() == w.len() + 1,
        c.behind(w).flag() == v,
{
    reveal(Cursor::begins_with);
    reveal(Bits::flag);
    reveal(Bits::len);
    reveal(Cursor::flag);
    lemma_split(c, w.bits, seq![v]);
    assert(seq![v][0] == v);
}

pub broadcast proof fn lemma_begins_ue(c: Cursor, w: Bits, v: nat)
    requires
        #[trigger] c.begins_with(w.ue(v)),
        ue_fits(v),
    ensures
        c.begins_with(w),
        c.behind(w).ue() == v,
        c.behind(w).after_ue() == c.behind(w.ue(v)),
{
    reveal(Cursor::begins_with);
    reveal(Bits::ue);
    reveal(Bits::len);
    lemma_split(c, w.bits, crate::bits::ue_code(v));
    crate::bits::law_ue_reads_back(c.behind(w), v);
}

pub broadcast proof fn lemma_begins_se(c: Cursor, w: Bits, k: int)
    requires
        #[trigger] c.begins_with(w.se(k)),
        se_fits(k),
    ensures
        c.begins_with(w),
        c.behind(w).se() == k,
        c.behind(w).after_ue() == c.behind(w.se(k)),
{
    reveal(Cursor::begins_with);
    reveal(Bits::se);
    reveal(Bits::len);
    lemma_split(c, w.bits, crate::bits::ue_code(crate::bits::code_of_signed(k)));
    crate::bits::law_se_reads_back(c.behind(w), k);
}

pub broadcast proof fn lemma_begins_ues(c: Cursor, w: Bits, vs: Seq<nat>)
    requires
        #[trigger] c.begins_with(w.ues(vs)),
        forall|i: int| 0 <= i < vs.len() ==> ue_fits(#[trigger] vs[i]),
    ensures
        c.begins_with(w),
        c.behind(w).after_ues(vs.len()) == c.behind(w.ues(vs)),
    decreases vs.len(),
{
    if vs.len() > 0 {
        lemma_begins_ue(c, w.ues(vs.drop_last()), vs.last());
        lemma_begins_ues(c, w, vs.drop_last());
    }
}

pub broadcast proof fn lemma_begins_ses(c: Cursor, w: Bits, ks: Seq<int>)
    requires
        #[trigger] c.begins_with(w.ses(ks)),
        forall|i: int| 0 <= i < ks.len() ==> se_fits(#[trigger] ks[i]),
    ensures
        c.begins_with(w),
        c.behind(w).after_ues(ks.len()) == c.behind(w.ses(ks)),
    decreases ks.len(),
{
    if ks.len() > 0 {
        lemma_begins_se(c, w.ses(ks.drop_last()), ks.last());
        lemma_begins_ses(c, w, ks.drop_last());
    }
}

pub broadcast proof fn lemma_begins_bytes(c: Cursor, w: Bits, vs: Seq<u8>)
    requires
        #[trigger] c.begins_with(w.bytes(vs)),
    ensures
        c.begins_with(w),
        w.bytes(vs).len() == w.len() + 8 * vs.len(),
        forall|i: int|
            0 <= i < vs.len() ==> #[trigger] vs[i] == c.skip((w.len() + 8 * i) as nat).u(8),
    decreases vs.len(),
{
    if vs.len() > 0 {
        let front = vs.drop_last();
        crate::bits::lemma_small_powers();
        lemma_begins_u(c, w.bytes(front), 8, vs.last() as nat);
        lemma_begins_bytes(c, w, front);
        assert forall|i: int| 0 <= i < vs.len() implies #[trigger] vs[i] == c.skip(
            (w.len() + 8 * i) as nat,
        ).u(8) by {
            if i < front.len() {
                assert(front[i] == vs[i]);
            }
        }
    }
}

proof fn lemma_leading_one(x: nat)
    requires
        x > 0,
    ensures
        crate::bits::digits(x, crate::bits::exponent(x) + 1).len() == crate::bits::exponent(x) + 1,
        crate::bits::digits(x, crate::bits::exponent(x) + 1)[0] == 1,
    decreases x,
{
    reveal_with_fuel(crate::bits::digits, 2);
    if x > 1 {
        lemma_leading_one(x / 2);
    }
}

/// Among the bits of a signed Exp-Golomb code word is a one, whose position is
/// returned.
pub proof fn lemma_se_has_a_one(c: Cursor, w: Bits, k: int) -> (p: nat)
    requires
        c.begins_with(w.se(k)),
    ensures
        c.pos + w.len() <= p < c.pos + w.se(k).len(),
        crate::bits::bit_at(c.data, p) == 1,
{
    reveal(Cursor::begins_with);
    reveal(Bits::se);
    reveal(Bits::len);
    let v = crate::bits::code_of_signed(k);
    let zeros = crate::bits::exponent(v + 1);
    lemma_leading_one(v + 1);
    let p = (c.pos + w.len() + zeros) as nat;
    let i = (w.len() + zeros) as int;
    assert(crate::bits::ue_code(v)[zeros as int] == 1);
    assert(w.se(k).bits[i] == 1);
    assert(w.se(k).bits[i] == crate::bits::bit_at(c.data, (c.pos + i) as nat));
    p
}

pub broadcast proof fn lemma_start_len(c: Cursor)
    ensures
        #[trigger] c.behind(Bits::start()) == c,
{
    reveal(Bits::len);
}

/// What reading back a written stream rests on.
pub broadcast group group_reads_back {
    lemma_begins_raw,
    lemma_begins_u,
    lemma_begins_flag,
    lemma_begins_ue,
    lemma_begins_se,
    lemma_begins_ues,
    lemma_begins_ses,
    lemma_begins_bytes,
    lemma_start_len,
}

} // verus!

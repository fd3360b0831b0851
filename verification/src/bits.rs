//! Most-significant-bit-first bit reading, with the Exp-Golomb codes that
//! H.264 and HEVC use.
//!
//! A reader never fails: bits beyond the last byte read as zero. The model of
//! a reader is a [`Cursor`], which says for each syntax element what value
//! stands at a position and where the element ends.

use vstd::prelude::*;

verus! {

/// The bit at position `p` of `data`, counted from the most significant bit
/// of the first byte. Bits past the end are zero.
pub open spec fn bit_at(data: Seq<u8>, p: nat) -> nat {
    if p / 8 < data.len() {
        ((data[(p / 8) as int] >> ((7 - p % 8) as u8)) & 1u8) as nat
    } else {
        0
    }
}

/// The `n` bits from position `p` on, read as an unsigned number.
pub open spec fn bits_value(data: Seq<u8>, p: nat, n: nat) -> nat
    decreases n,
{
    if n == 0 {
        0
    } else {
        2 * bits_value(data, p, (n - 1) as nat) + bit_at(data, (p + n - 1) as nat)
    }
}

/// Two to the power `n`.
pub open spec fn two_to(n: nat) -> nat
    decreases n,
{
    if n == 0 {
        1
    } else {
        2 * two_to((n - 1) as nat)
    }
}

/// A place in a bit stream.
pub struct Cursor {
    /// The bytes being read.
    pub data: Seq<u8>,
    /// The number of bits already read.
    pub pos: nat,
}

impl Cursor {
    /// The start of `data`.
    pub open spec fn start(data: Seq<u8>) -> Cursor {
        Cursor { data, pos: 0 }
    }

    /// True while the current bit still lies inside the data.
    pub open spec fn in_data(self) -> bool {
        self.pos / 8 < self.data.len()
    }

    /// The place `n` bits further on.
    pub open spec fn skip(self, n: nat) -> Cursor {
        Cursor { data: self.data, pos: self.pos + n }
    }

    /// The value of the next `n` bits.
    #[verifier::opaque]
    pub open spec fn u(self, n: nat) -> nat {
        bits_value(self.data, self.pos, n)
    }

    /// The value of the next bit.
    #[verifier::opaque]
    pub open spec fn flag(self) -> nat {
        bit_at(self.data, self.pos)
    }

    /// The number of zero bits before the next one bit or the end of the
    /// data, whichever comes first.
    pub open spec fn zero_run(self) -> nat
        decreases 8 * self.data.len() - self.pos,
    {
        if !self.in_data() || self.flag() == 1 {
            0
        } else {
            1 + self.skip(1).zero_run()
        }
    }

    /// The place behind the zero run and the one bit that ends it. At the end
    /// of the data there is no such bit, and nothing is read in its place.
    pub open spec fn after_prefix(self) -> Cursor {
        let stop = self.skip(self.zero_run());
        if stop.in_data() {
            stop.skip(1)
        } else {
            stop
        }
    }

    /// The unsigned Exp-Golomb number `ue(v)` at this place. A prefix of
    /// more than 31 zeros gives 0.
    #[verifier::opaque]
    pub open spec fn ue(self) -> nat {
        let zeros = self.zero_run();
        if zeros > 31 {
            0
        } else {
            (two_to(zeros) - 1 + self.after_prefix().u(zeros)) as nat
        }
    }

    /// The place behind `ue(v)`. Of an overlong prefix 32 bits are read.
    #[verifier::opaque]
    pub open spec fn after_ue(self) -> Cursor {
        let zeros = self.zero_run();
        if zeros > 31 {
            self.skip(32)
        } else {
            self.after_prefix().skip(zeros)
        }
    }

    /// The signed Exp-Golomb number `se(v)` at this place; it ends where
    /// `ue(v)` ends.
    pub open spec fn se(self) -> int {
        signed_code(self.ue())
    }

    /// The place behind `k` consecutive Exp-Golomb numbers.
    pub open spec fn after_ues(self, k: nat) -> Cursor
        decreases k,
    {
        if k == 0 {
            self
        } else {
            self.after_ues((k - 1) as nat).after_ue()
        }
    }

    /// The VP9 number `s(n)`: `n` bits of magnitude and a sign bit.
    pub open spec fn s(self, n: nat) -> int {
        if self.skip(n).flag() == 1 {
            -(self.u(n) as int)
        } else {
            self.u(n) as int
        }
    }

    /// The number of bytes begun so far.
    pub open spec fn bytes_begun(self) -> nat {
        (self.pos + 7) / 8
    }

    /// True if at least two one bits are still to come: one that could end
    /// the payload, and one after it.
    pub open spec fn more_data(self) -> bool {
        exists|p: nat, q: nat|
            #![trigger bit_at(self.data, p), bit_at(self.data, q)]
            self.pos <= p < q < 8 * self.data.len() && bit_at(self.data, p) == 1 && bit_at(
                self.data,
                q,
            ) == 1
    }

    /// True if the next bits are exactly `bits` and all lie inside the data.
    pub open spec fn reads(self, bits: Seq<nat>) -> bool {
        &&& self.pos + bits.len() <= 8 * self.data.len()
        &&& forall|i: int| 0 <= i < bits.len() ==> #[trigger] bits[i] == bit_at(
            self.data,
            (self.pos + i) as nat,
        )
    }
}

/// The number that Exp-Golomb code `code` stands for in the signed mapping
/// 0, 1, -1, 2, -2, and so on.
pub open spec fn signed_code(code: nat) -> int {
    if code % 2 == 1 {
        (code as int + 1) / 2
    } else {
        -(code as int / 2)
    }
}

/// `x` in `n` binary digits, the most significant first.
pub open spec fn digits(x: nat, n: nat) -> Seq<nat>
    decreases n,
{
    if n == 0 {
        Seq::empty()
    } else {
        digits(x / 2, (n - 1) as nat).push(x % 2)
    }
}

/// The number of binary digits of `x` after the leading one.
pub open spec fn exponent(x: nat) -> nat
    decreases x,
{
    if x <= 1 {
        0
    } else {
        1 + exponent(x / 2)
    }
}

/// The Exp-Golomb code word of `v`: as many zeros as `v + 1` has digits after
/// its leading one, followed by `v + 1` itself.
pub open spec fn ue_code(v: nat) -> Seq<nat> {
    Seq::new(exponent(v + 1), |i: int| 0nat) + digits(v + 1, exponent(v + 1) + 1)
}

/// The place of `k` in the sequence 0, 1, -1, 2, -2, and so on.
pub open spec fn code_of_signed(k: int) -> nat {
    if k > 0 {
        (2 * k - 1) as nat
    } else {
        (-2 * k) as nat
    }
}

/// Reading `n` bits gives back a number that was written in `n` bits.
pub proof fn law_u_reads_back(c: Cursor, x: nat, n: nat)
    requires
        x < two_to(n),
        c.reads(digits(x, n)),
    ensures
        c.u(n) == x,
    decreases n,
{
    reveal(Cursor::u);
    if n > 0 {
        let high = digits(x / 2, (n - 1) as nat);
        let all = digits(x, n);
        lemma_digits_len(x, n);
        lemma_digits_len(x / 2, (n - 1) as nat);
        assert(all[n - 1] == x % 2);
        assert forall|i: int| 0 <= i < high.len() implies #[trigger] high[i] == bit_at(
            c.data,
            (c.pos + i) as nat,
        ) by {
            assert(all[i] == high[i]);
        }
        law_u_reads_back(c, x / 2, (n - 1) as nat);
        assert(c.u(n) == 2 * c.u((n - 1) as nat) + bit_at(c.data, (c.pos + n - 1) as nat));
    }
}

/// Reading an unsigned Exp-Golomb number gives back the number whose code
/// word stands there, and stops right behind the code word.
pub proof fn law_ue_reads_back(c: Cursor, v: nat)
    requires
        v < 0xffff_ffff,
        c.reads(ue_code(v)),
    ensures
        c.ue() == v,
        c.after_ue() == c.skip(ue_code(v).len()),
{
    reveal(Cursor::u);
    reveal(Cursor::flag);
    reveal(Cursor::ue);
    reveal(Cursor::after_ue);
    let n = exponent(v + 1);
    let code = ue_code(v);
    let tail = digits(v + 1, n + 1);
    lemma_exponent_bounds(v + 1);
    lemma_digits_len(v + 1, n + 1);
    lemma_two_to_32();
    if n > 31 {
        lemma_two_to_monotone(32, n);
    }
    assert forall|i: int| 0 <= i < tail.len() implies #[trigger] tail[i] == bit_at(
        c.data,
        (c.skip(n).pos + i) as nat,
    ) by {
        assert(code[n + i] == tail[i]);
    }
    law_u_reads_back(c.skip(n), v + 1, n + 1);
    lemma_top_bit(c.skip(n).data, c.skip(n).pos, n);
    lemma_bits_value_bound(c.data, c.pos + n + 1, n);
    lemma_bit_at_bound(c.data, c.pos + n);
    lemma_two_to_monotone(n, n);
    assert(c.skip(n).flag() == 1) by (nonlinear_arith)
        requires
            c.skip(n).flag() <= 1,
            v + 1 >= two_to(n),
            v + 1 == c.skip(n).flag() * two_to(n) + bits_value(c.data, c.pos + n + 1, n),
            bits_value(c.data, c.pos + n + 1, n) < two_to(n),
    ;
    assert forall|i: int| 0 <= i < n implies #[trigger] bit_at(c.data, (c.pos + i) as nat) == 0 by {
        assert(code[i] == 0);
    }
    lemma_zero_run(c, n);
}

/// Reading a signed Exp-Golomb number gives back the number whose code word
/// stands there, and stops right behind the code word.
pub proof fn law_se_reads_back(c: Cursor, k: int)
    requires
        code_of_signed(k) < 0xffff_ffff,
        c.reads(ue_code(code_of_signed(k))),
    ensures
        c.se() == k,
        c.after_ue() == c.skip(ue_code(code_of_signed(k)).len()),
{
    law_ue_reads_back(c, code_of_signed(k));
}

/// Past the end of the data every element reads as zero, and an Exp-Golomb
/// number takes up no bits there.
pub proof fn law_past_the_end(c: Cursor, n: nat)
    requires
        c.pos >= 8 * c.data.len(),
    ensures
        c.u(n) == 0,
        c.ue() == 0,
        c.se() == 0,
        c.after_ue() == c,
    decreases n,
{
    reveal(Cursor::u);
    reveal(Cursor::flag);
    reveal(Cursor::ue);
    reveal(Cursor::after_ue);
    if n > 0 {
        law_past_the_end(c, (n - 1) as nat);
        assert(bit_at(c.data, (c.pos + n - 1) as nat) == 0);
    }
    assert(two_to(0) == 1);
    assert(c.zero_run() == 0);
}

/// A prefix of more than 31 zeros reads as 0, and 32 bits of it are passed over.
pub proof fn law_overlong_prefix_reads_as_zero(c: Cursor)
    requires
        c.reads(Seq::new(32, |i: int| 0nat)),
    ensures
        c.ue() == 0,
        c.se() == 0,
        c.after_ue() == c.skip(32),
{
    reveal(Cursor::ue);
    reveal(Cursor::after_ue);
    lemma_zeros_ahead(c, 32);
}

/// A prefix that runs into the end of the data counts the zeros that are there:
/// with `n` of them the number is that of a suffix of zeros.
pub proof fn law_prefix_at_the_end(c: Cursor, n: nat)
    requires
        n < 32,
        c.pos + n == 8 * c.data.len(),
        c.reads(Seq::new(n, |i: int| 0nat)),
    ensures
        c.ue() == two_to(n) - 1,
        c.after_ue() == c.skip(n + n),
{
    reveal(Cursor::ue);
    reveal(Cursor::after_ue);
    lemma_zeros_ahead(c, n);
    let stop = c.skip(n);
    law_past_the_end(stop, n);
    assert(stop.zero_run() == 0);
    assert(two_to(0) == 1);
    lemma_two_to_monotone(0, n);
}

proof fn lemma_zeros_ahead(c: Cursor, n: nat)
    requires
        c.reads(Seq::new(n, |i: int| 0nat)),
    ensures
        c.zero_run() == n + c.skip(n).zero_run(),
    decreases n,
{
    if n > 0 {
        let zeros = Seq::new(n, |i: int| 0nat);
        reveal(Cursor::flag);
        assert(zeros[0] == bit_at(c.data, (c.pos + 0) as nat));
        let d = c.skip(1);
        let fewer = Seq::new((n - 1) as nat, |i: int| 0nat);
        assert forall|i: int| 0 <= i < n - 1 implies #[trigger] fewer[i] == bit_at(
            d.data,
            (d.pos + i) as nat,
        ) by {
            assert(zeros[i + 1] == bit_at(c.data, (c.pos + (i + 1)) as nat));
        }
        lemma_zeros_ahead(d, (n - 1) as nat);
    }
}

pub proof fn lemma_digits_len(x: nat, n: nat)
    ensures
        digits(x, n).len() == n,
    decreases n,
{
    if n > 0 {
        lemma_digits_len(x / 2, (n - 1) as nat);
    }
}

proof fn lemma_exponent_bounds(x: nat)
    requires
        x >= 1,
    ensures
        two_to(exponent(x)) <= x < two_to(exponent(x) + 1),
    decreases x,
{
    if x > 1 {
        lemma_exponent_bounds(x / 2);
    } else {
        assert(two_to(0) == 1);
        assert(two_to(1) == 2 * two_to(0));
    }
}

/// The first of `n + 1` bits counts two to the power `n`.
proof fn lemma_top_bit(data: Seq<u8>, p: nat, n: nat)
    ensures
        bits_value(data, p, n + 1) == bit_at(data, p) * two_to(n) + bits_value(data, p + 1, n),
    decreases n,
{
    reveal(Cursor::u);
    if n == 0 {
        assert(bits_value(data, p, 1) == 2 * bits_value(data, p, 0) + bit_at(data, p));
        assert(two_to(0) == 1);
    } else {
        lemma_top_bit(data, p, (n - 1) as nat);
        assert(bits_value(data, p, n + 1) == 2 * bits_value(data, p, n) + bit_at(data, p + n));
        assert(bits_value(data, p + 1, n) == 2 * bits_value(data, p + 1, (n - 1) as nat) + bit_at(
            data,
            p + n,
        ));
        assert(two_to(n) == 2 * two_to((n - 1) as nat));
        assert(bit_at(data, p) * (2 * two_to((n - 1) as nat)) == 2 * (bit_at(data, p) * two_to(
            (n - 1) as nat,
        ))) by (nonlinear_arith);
    }
}

/// `n` zeros and a one inside the data make a zero run of length `n`.
proof fn lemma_zero_run(c: Cursor, n: nat)
    requires
        c.pos + n < 8 * c.data.len(),
        forall|i: int| 0 <= i < n ==> #[trigger] bit_at(c.data, (c.pos + i) as nat) == 0,
        bit_at(c.data, c.pos + n) == 1,
    ensures
        c.zero_run() == n,
    decreases n,
{
    reveal(Cursor::flag);
    if n > 0 {
        let d = c.skip(1);
        assert(bit_at(c.data, (c.pos + 0) as nat) == 0);
        assert forall|i: int| 0 <= i < n - 1 implies #[trigger] bit_at(d.data, (d.pos + i) as nat)
            == 0 by {
            assert(bit_at(c.data, (c.pos + (i + 1)) as nat) == 0);
        }
        lemma_zero_run(d, (n - 1) as nat);
    }
}

pub proof fn lemma_bit_at_bound(data: Seq<u8>, p: nat)
    ensures
        bit_at(data, p) <= 1,
{
    if p / 8 < data.len() {
        let b = data[(p / 8) as int];
        let s = (7 - p % 8) as u8;
        assert((b >> s) & 1u8 <= 1u8) by (bit_vector);
    }
}

pub proof fn lemma_bits_value_bound(data: Seq<u8>, p: nat, n: nat)
    ensures
        bits_value(data, p, n) < two_to(n),
    decreases n,
{
    if n > 0 {
        lemma_bits_value_bound(data, p, (n - 1) as nat);
        lemma_bit_at_bound(data, (p + n - 1) as nat);
    }
}

pub proof fn lemma_two_to_monotone(a: nat, b: nat)
    requires
        a <= b,
    ensures
        two_to(a) <= two_to(b),
        two_to(a) >= 1,
    decreases b,
{
    if a < b {
        lemma_two_to_monotone(a, (b - 1) as nat);
    } else if b > 0 {
        lemma_two_to_monotone((a - 1) as nat, (b - 1) as nat);
    }
}

pub proof fn lemma_two_to_32()
    ensures
        two_to(8) == 0x100,
        two_to(16) == 0x1_0000,
        two_to(31) == 0x8000_0000,
        two_to(32) == 0x1_0000_0000,
{
    reveal_with_fuel(two_to, 33);
}

/// True if `narrow` holds the low eight bits of `wide`.
pub open spec fn narrows(narrow: int, wide: int) -> bool {
    (narrow - wide) % 256 == 0
}

pub proof fn lemma_low_byte(v: u32)
    ensures
        narrows((v as u8) as int, v as int),
{
    assert(v as u8 == v % 256) by (bit_vector);
}

pub proof fn lemma_low_signed_byte(v: i32)
    ensures
        narrows((v as i8) as int, v as int),
{
    assert(((v as i8) - v) % 256 == 0) by (bit_vector);
}

pub proof fn lemma_small_powers()
    ensures
        two_to(2) == 4,
        two_to(3) == 8,
        two_to(4) == 16,
        two_to(6) == 64,
        two_to(8) == 256,
        two_to(16) == 0x1_0000,
        two_to(24) == 0x100_0000,
{
    reveal_with_fuel(two_to, 25);
}

/// A reader over a byte slice. The position is wide enough for every slice
/// and for everything that is read past its end.
pub struct BitReader<'a> {
    bytes: &'a [u8],
    bit_pos: u128,
}

impl<'a> View for BitReader<'a> {
    type V = Cursor;

    closed spec fn view(&self) -> Cursor {
        Cursor { data: self.bytes@, pos: self.bit_pos as nat }
    }
}

impl<'a> BitReader<'a> {
    /// Start reading at the first bit of `bytes`.
    pub fn new(bytes: &'a [u8]) -> (r: BitReader<'a>)
        ensures
            r@ == Cursor::start(bytes@),
    {
        BitReader { bytes, bit_pos: 0 }
    }

    /// Read one bit.
    pub fn flag(&mut self) -> (b: u8)
        requires
            old(self)@.pos < u128::MAX,
        ensures
            b == old(self)@.flag(),
            b <= 1,
            final(self)@ == old(self)@.skip(1),
    {
        proof {
            reveal(Cursor::flag);
        }
        let byte_idx: u128 = self.bit_pos / 8;
        let b: u8 = if byte_idx < self.bytes.len() as u128 {
            let byte: u8 = self.bytes[byte_idx as usize];
            let shift: u8 = 7 - (self.bit_pos % 8) as u8;
            assert((byte >> shift) & 1u8 <= 1u8) by (bit_vector);
            (byte >> shift) & 1
        } else {
            0
        };
        self.bit_pos = self.bit_pos + 1;
        b
    }

    /// Read `n` bits as an unsigned number, `u(n)`.
    pub fn u(&mut self, n: u32) -> (v: u32)
        requires
            n <= 32,
            old(self)@.pos + n <= u128::MAX,
        ensures
            v == old(self)@.u(n as nat),
            v < two_to(n as nat),
            final(self)@ == old(self)@.skip(n as nat),
    {
        proof {
            reveal(Cursor::u);
        }
        let ghost c = self@;
        let mut value: u32 = 0;
        let mut i: u32 = 0;
        while i < n
            invariant
                i <= n <= 32,
                c.pos + n <= u128::MAX,
                self@ == c.skip(i as nat),
                value == c.u(i as nat),
            decreases n - i,
        {
            proof {
                reveal(Cursor::u);
                reveal(Cursor::flag);
                lemma_bits_value_bound(c.data, c.pos, i as nat);
                lemma_two_to_monotone(i as nat, 31);
                lemma_two_to_32();
            }
            let bit: u8 = self.flag();
            value = value * 2 + bit as u32;
            i = i + 1;
            assert(c.u(i as nat) == 2 * c.u((i - 1) as nat) + c.skip((i - 1) as nat).flag());
        }
        proof {
            lemma_bits_value_bound(c.data, c.pos, n as nat);
        }
        value
    }

    /// Read an unsigned Exp-Golomb number, `ue(v)`.
    pub fn ue(&mut self) -> (v: u32)
        requires
            old(self)@.pos + 64 <= u128::MAX,
        ensures
            v == old(self)@.ue(),
            v < u32::MAX,
            final(self)@ == old(self)@.after_ue(),
            final(self)@.pos <= old(self)@.pos + 64,
    {
        proof {
            reveal(Cursor::ue);
            reveal(Cursor::after_ue);
        }
        let ghost c = self@;
        let mut leading_zeros: u32 = 0;
        proof {
            lemma_two_to_32();
        }
        loop
            invariant_except_break
                self@ == c.skip(leading_zeros as nat),
                c.zero_run() == leading_zeros + self@.zero_run(),
            invariant
                leading_zeros <= 31,
                c == old(self)@,
                c.pos + 64 <= u128::MAX,
            ensures
                c.zero_run() == leading_zeros,
                self@ == c.after_prefix(),
                self@.pos <= c.pos + 32,
            decreases 32 - leading_zeros,
        {
            proof {
                reveal(Cursor::ue);
                reveal(Cursor::after_ue);
            }
            let pos: u128 = self.bit_pos;
            if pos / 8 >= self.bytes.len() as u128 {
                break;
            }
            let bit: u8 = self.flag();
            if bit != 0 {
                break;
            }
            leading_zeros = leading_zeros + 1;
            if leading_zeros > 31 {
                return 0;
            }
        }
        if leading_zeros == 0 {
            proof {
                reveal(Cursor::u);
                assert(two_to(0) == 1);
            }
            0
        } else {
            let rest: u32 = self.u(leading_zeros);
            let one: u32 = power_of_two(leading_zeros);
            proof {
                lemma_two_to_monotone(leading_zeros as nat, 31);
            }
            one - 1 + rest
        }
    }

    /// Pass over `n` bits.
    pub fn skip(&mut self, n: u32)
        requires
            old(self)@.pos + n <= u128::MAX,
        ensures
            final(self)@ == old(self)@.skip(n as nat),
    {
        self.bit_pos = self.bit_pos + n as u128;
    }

    /// Pass over `k` Exp-Golomb numbers.
    pub fn skip_ues(&mut self, k: u32)
        requires
            old(self)@.pos + 64 * k <= u128::MAX,
        ensures
            final(self)@ == old(self)@.after_ues(k as nat),
            final(self)@.pos <= old(self)@.pos + 64 * k,
    {
        let ghost c = self@;
        let mut i: u32 = 0;
        while i < k
            invariant
                i <= k,
                c.pos + 64 * k <= u128::MAX,
                self@ == c.after_ues(i as nat),
                self@.pos <= c.pos + 64 * i,
            decreases k - i,
        {
            let _: u32 = self.ue();
            i = i + 1;
        }
    }

    /// Read `n` bits of magnitude and a sign bit, `s(n)`.
    pub fn s(&mut self, n: u32) -> (v: i32)
        requires
            n <= 31,
            old(self)@.pos + n + 1 <= u128::MAX,
        ensures
            v == old(self)@.s(n as nat),
            -two_to(n as nat) < v < two_to(n as nat),
            final(self)@ == old(self)@.skip((n + 1) as nat),
    {
        proof {
            lemma_two_to_32();
            lemma_two_to_monotone(n as nat, 31);
        }
        let magnitude: u32 = self.u(n);
        let negative: u8 = self.flag();
        if negative == 1 {
            -(magnitude as i32)
        } else {
            magnitude as i32
        }
    }

    /// The number of bytes begun so far.
    pub fn byte_offset(&self) -> (n: usize)
        requires
            self@.pos + 7 <= u128::MAX,
            self@.bytes_begun() <= usize::MAX,
        ensures
            n == self@.bytes_begun(),
    {
        ((self.bit_pos + 7) / 8) as usize
    }

    /// The number of bits read so far.
    pub fn bit_offset(&self) -> (n: u128)
        ensures
            n == self@.pos,
    {
        self.bit_pos
    }

    /// Whether more than the trailing bits of a payload is left: true if a
    /// one bit follows the next one bit.
    pub fn more_rbsp_data(&self) -> (more: bool)
        ensures
            more == self@.more_data(),
    {
        let ghost c = self@;
        let total_bits: u128 = self.bytes.len() as u128 * 8;
        let mut saw_one: bool = false;
        let mut p: u128 = self.bit_pos;
        let ghost mut first: nat = 0;
        while p < total_bits
            invariant
                c == self@,
                total_bits == 8 * c.data.len(),
                c.pos <= p,
                saw_one ==> c.pos <= first < p && bit_at(c.data, first) == 1,
                forall|i: nat|
                    c.pos <= i < p && #[trigger] bit_at(c.data, i) == 1 ==> saw_one && i == first,
            decreases total_bits - p,
        {
            let byte: u8 = self.bytes[(p / 8) as usize];
            let shift: u8 = 7 - (p % 8) as u8;
            let b: u8 = (byte >> shift) & 1;
            assert(b == bit_at(c.data, p as nat));
            if b == 1 {
                if saw_one {
                    return true;
                }
                saw_one = true;
                proof {
                    first = p as nat;
                }
            }
            p = p + 1;
        }
        false
    }

    /// Read a signed Exp-Golomb number, `se(v)`.
    pub fn se(&mut self) -> (v: i32)
        requires
            old(self)@.pos + 64 <= u128::MAX,
        ensures
            v == old(self)@.se(),
            final(self)@ == old(self)@.after_ue(),
            final(self)@.pos <= old(self)@.pos + 64,
    {
        let code: u32 = self.ue();
        if code % 2 == 1 {
            ((code + 1) / 2) as i32
        } else {
            -((code / 2) as i32)
        }
    }
}

/// Two to the power `n`.
fn power_of_two(n: u32) -> (v: u32)
    requires
        n <= 31,
    ensures
        v == two_to(n as nat),
{
    let mut v: u32 = 1;
    let mut i: u32 = 0;
    while i < n
        invariant
            i <= n <= 31,
            v == two_to(i as nat),
        decreases n - i,
    {
        proof {
            lemma_two_to_monotone((i + 1) as nat, 31);
            lemma_two_to_32();
        }
        v = v * 2;
        i = i + 1;
    }
    v
}

} // verus!

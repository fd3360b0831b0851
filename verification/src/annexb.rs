//! Annex-B framing, as H.264 and HEVC use it: network abstraction layer (NAL)
//! units separated by start codes, with emulation-prevention bytes inside.

use vstd::prelude::*;
use vstd::slice::slice_subrange;

verus! {

/// True if the four-byte start code `00 00 00 01` stands at `i`.
pub open spec fn long_code_at(buf: Seq<u8>, i: int) -> bool {
    &&& 0 <= i
    &&& i + 3 < buf.len()
    &&& buf[i] == 0
    &&& buf[i + 1] == 0
    &&& buf[i + 2] == 0
    &&& buf[i + 3] == 1
}

/// True if the three-byte start code `00 00 01` stands at `i`.
pub open spec fn short_code_at(buf: Seq<u8>, i: int) -> bool {
    &&& 0 <= i
    &&& i + 2 < buf.len()
    &&& buf[i] == 0
    &&& buf[i + 1] == 0
    &&& buf[i + 2] == 1
}

/// The length of the start code at `i`, or 0 if there is none.
pub open spec fn code_len(buf: Seq<u8>, i: int) -> int {
    if long_code_at(buf, i) {
        4
    } else if short_code_at(buf, i) {
        3
    } else {
        0
    }
}

/// The first position from `i` on where a start code stands, or the end.
pub open spec fn next_code(buf: Seq<u8>, i: int) -> int
    decreases buf.len() - i,
{
    if i < 0 || i >= buf.len() {
        buf.len() as int
    } else if code_len(buf, i) > 0 {
        i
    } else {
        next_code(buf, i + 1)
    }
}

/// The units from `start` on, where `start` is the first byte of one.
pub open spec fn units_from(buf: Seq<u8>, start: int) -> Seq<Seq<u8>>
    decreases buf.len() - start,
{
    let end = next_code(buf, start);
    if 0 <= start <= end && code_len(buf, end) > 0 {
        seq![buf.subrange(start, end)] + units_from(buf, end + code_len(buf, end))
    } else {
        seq![buf.subrange(start, buf.len() as int)]
    }
}

/// The NAL units of `buf`: what stands between one start code and the next,
/// or the end. Bytes before the first start code belong to no unit.
pub open spec fn units(buf: Seq<u8>) -> Seq<Seq<u8>> {
    let first = next_code(buf, 0);
    if first < buf.len() {
        units_from(buf, first + code_len(buf, first))
    } else {
        Seq::empty()
    }
}

pub proof fn lemma_next_code(buf: Seq<u8>, i: int)
    requires
        0 <= i,
    ensures
        next_code(buf, i) <= buf.len(),
        i <= buf.len() ==> i <= next_code(buf, i),
        next_code(buf, i) < buf.len() ==> code_len(buf, next_code(buf, i)) > 0,
        forall|j: int| i <= j < next_code(buf, i) ==> code_len(buf, j) == 0,
    decreases buf.len() - i,
{
    if i < buf.len() && code_len(buf, i) == 0 {
        lemma_next_code(buf, i + 1);
    }
}

/// The contents of `slices`.
pub open spec fn contents(slices: Seq<&[u8]>) -> Seq<Seq<u8>> {
    Seq::new(slices.len(), |i: int| slices[i]@)
}

/// Slices keep their order and their bytes.
pub proof fn law_contents_keep_order(slices: Seq<&[u8]>, i: int)
    requires
        0 <= i < slices.len(),
    ensures
        contents(slices).len() == slices.len(),
        contents(slices)[i] == slices[i]@,
{
}

/// Locate every NAL unit of an Annex-B stream. The start codes are left out;
/// emulation-prevention bytes stay in place.
pub fn split_nal_units(buf: &[u8]) -> (out: Vec<&[u8]>)
    ensures
        contents(out@) == units(buf@),
{
    let mut out: Vec<&[u8]> = Vec::new();
    let mut i: usize = 0;
    let n: usize = buf.len();
    let mut last_payload_start: Option<usize> = None;
    let ghost b = buf@;
    while i < n
        invariant
            b == buf@,
            i <= n == b.len(),
            match last_payload_start {
                None => out@.len() == 0 && next_code(b, 0) == next_code(b, i as int),
                Some(start) => {
                    &&& start <= i
                    &&& next_code(b, start as int) == next_code(b, i as int)
                    &&& units(b) == contents(out@) + units_from(b, start as int)
                },
            },
        decreases n - i,
    {
        let four: bool = n - i > 3 && buf[i] == 0 && buf[i + 1] == 0 && buf[i + 2] == 0 && buf[i
            + 3] == 1;
        let three: bool = !four && n - i > 2 && buf[i] == 0 && buf[i + 1] == 0 && buf[i + 2] == 1;
        if four || three {
            let ghost old_out = contents(out@);
            let next: usize = if four {
                i + 4
            } else {
                i + 3
            };
            assert(next_code(b, i as int) == i);
            if let Some(start) = last_payload_start {
                out.push(slice_subrange(buf, start, i));
                assert(contents(out@) == old_out + seq![b.subrange(start as int, i as int)]);
                assert(units(b) == contents(out@) + units_from(b, next as int));
            } else {
                assert(contents(out@) == Seq::<Seq<u8>>::empty());
                assert(units(b) == contents(out@) + units_from(b, next as int));
            }
            i = next;
            last_payload_start = Some(i);
        } else {
            i = i + 1;
        }
    }
    if let Some(start) = last_payload_start {
        let ghost old_out = contents(out@);
        out.push(slice_subrange(buf, start, n));
        assert(contents(out@) == old_out + seq![b.subrange(start as int, n as int)]);
    }
    assert(contents(out@) == units(b));
    out
}

/// `nal` without its emulation-prevention bytes: each `00 00 03`, from the
/// front, becomes `00 00`.
pub open spec fn stripped(nal: Seq<u8>) -> Seq<u8>
    decreases nal.len(),
{
    if nal.len() == 0 {
        Seq::empty()
    } else if nal.len() > 2 && nal[0] == 0 && nal[1] == 0 && nal[2] == 3 {
        seq![0u8, 0u8] + stripped(nal.skip(3))
    } else {
        seq![nal[0]] + stripped(nal.skip(1))
    }
}

/// Remove the emulation-prevention bytes from a NAL payload.
pub fn strip_emulation_prevention(nal: &[u8]) -> (out: Vec<u8>)
    ensures
        out@ == stripped(nal@),
{
    let mut out: Vec<u8> = Vec::with_capacity(nal.len());
    let mut i: usize = 0;
    let n: usize = nal.len();
    assert(nal@.skip(0) == nal@);
    while i < n
        invariant
            i <= n == nal.len(),
            out@ + stripped(nal@.skip(i as int)) == stripped(nal@),
        decreases n - i,
    {
        let ghost rest = nal@.skip(i as int);
        let ghost old_out = out@;
        if n - i > 2 && nal[i] == 0 && nal[i + 1] == 0 && nal[i + 2] == 3 {
            out.push(0);
            out.push(0);
            i = i + 3;
            assert(rest.skip(3) == nal@.skip(i as int));
            assert(out@ == old_out + seq![0u8, 0u8]);
        } else {
            out.push(nal[i]);
            i = i + 1;
            assert(rest.skip(1) == nal@.skip(i as int));
            assert(out@ == old_out + seq![rest[0]]);
        }
        assert(out@ + stripped(nal@.skip(i as int)) == old_out + stripped(rest));
    }
    assert(nal@.skip(i as int) == Seq::<u8>::empty());
    assert(out@ == stripped(nal@));
    out
}

/// A payload with emulation-prevention bytes put in: after two zeros, a byte
/// below 4 is preceded by a 3. `zeros` counts the zeros just before `payload`.
pub open spec fn escaped(payload: Seq<u8>, zeros: nat) -> Seq<u8>
    decreases payload.len(),
{
    if payload.len() == 0 {
        Seq::empty()
    } else {
        let byte = payload[0];
        let rest = payload.skip(1);
        if zeros >= 2 && byte <= 3 {
            seq![3u8, byte] + escaped(rest, if byte == 0 { 1 } else { 0 })
        } else {
            seq![byte] + escaped(rest, if byte == 0 { zeros + 1 } else { 0 })
        }
    }
}

/// Stripping a payload that was escaped gives the payload back.
pub proof fn law_strip_undoes_escape(payload: Seq<u8>)
    ensures
        stripped(escaped(payload, 0)) == payload,
{
    let none = Seq::new(0, |i: int| 0u8);
    lemma_strip_escaped(payload, 0);
    assert(none + escaped(payload, 0) == escaped(payload, 0));
    assert(none + payload == payload);
}

/// A NAL unit: its header and a payload with emulation-prevention bytes put in.
pub open spec fn unit(header: Seq<u8>, payload: Seq<u8>) -> Seq<u8> {
    header + escaped(payload, 0)
}

/// Behind the header of a unit, stripping gives the payload back.
pub proof fn law_unit_payload_reads_back(header: Seq<u8>, payload: Seq<u8>)
    ensures
        stripped(unit(header, payload).skip(header.len() as int)) == payload,
{
    law_strip_undoes_escape(payload);
    assert(unit(header, payload).skip(header.len() as int) == escaped(payload, 0));
}

/// Stripping leaves alone what holds no `00 00 03`.
pub proof fn law_strip_keeps_plain_bytes(nal: Seq<u8>)
    requires
        forall|i: int|
            0 <= i && i + 2 < nal.len() ==> !(#[trigger] nal[i] == 0 && nal[i + 1] == 0 && nal[i + 2]
                == 3),
    ensures
        stripped(nal) == nal,
    decreases nal.len(),
{
    if nal.len() > 0 {
        let rest = nal.skip(1);
        assert forall|i: int| 0 <= i && i + 2 < rest.len() implies !(#[trigger] rest[i] == 0 && rest[i
            + 1] == 0 && rest[i + 2] == 3) by {
            assert(nal[i + 1] == rest[i]);
        }
        law_strip_keeps_plain_bytes(rest);
        if nal.len() > 2 {
            assert(nal[0] == 0 ==> !(nal[1] == 0 && nal[2] == 3));
        }
        assert(seq![nal[0]] + rest == nal);
    }
}

/// Stripping takes the 3 out of the first `00 00 03`, wherever it stands, and
/// goes on behind it with a fresh count of zeros.
pub proof fn law_strip_removes_the_first_three(nal: Seq<u8>, at: int)
    requires
        0 <= at,
        at + 2 < nal.len(),
        nal[at] == 0,
        nal[at + 1] == 0,
        nal[at + 2] == 3,
        forall|i: int|
            0 <= i < at ==> !(#[trigger] nal[i] == 0 && nal[i + 1] == 0 && nal[i + 2] == 3),
    ensures
        stripped(nal) == nal.take(at + 2) + stripped(nal.skip(at + 3)),
    decreases at,
{
    if at == 0 {
        assert(nal.take(2) == seq![0u8, 0u8]);
    } else {
        let rest = nal.skip(1);
        assert forall|i: int| 0 <= i < at - 1 implies !(#[trigger] rest[i] == 0 && rest[i + 1] == 0
            && rest[i + 2] == 3) by {
            assert(nal[i + 1] == rest[i]);
        }
        law_strip_removes_the_first_three(rest, at - 1);
        assert(nal[0] == 0 ==> !(nal[1] == 0 && nal[2] == 3));
        assert(rest.skip(at + 2) == nal.skip(at + 3));
        assert(nal.take(at + 2) == seq![nal[0]] + rest.take(at + 1));
    }
}

/// What stands before the first start code belongs to no unit.
pub proof fn law_leading_bytes_are_ignored(lead: Seq<u8>, list: Seq<FramedUnit>)
    requires
        separable(list),
        list.len() > 0,
        forall|i: int| 0 <= i < lead.len() ==> #[trigger] lead[i] != 0,
    ensures
        units(lead + framed(list)) == Seq::new(list.len(), |k: int| list[k].payload),
{
    let buf = lead + framed(list);
    let at = lead.len() as int;
    let code = start_code(list[0].long_code);
    let n = code.len() as int;
    let rest = list.skip(1);
    assert(framed(list) == code + list[0].payload + framed(rest));
    assert forall|i: int| 0 <= i < n implies #[trigger] buf[at + i] == code[i] by {
        assert(buf[at + i] == framed(list)[i]);
    }
    assert forall|i: int| 0 <= i < at implies code_len(buf, i) == 0 by {
        assert(buf[i] == lead[i]);
    }
    assert(buf[at + 0] == code[0] && buf[at + 1] == code[1] && buf[at + 2] == code[2]);
    assert(list[0].long_code ==> buf[at + 3] == code[3]);
    assert(code_len(buf, at) == n);
    lemma_next_code_is(buf, 0, at);
    assert(buf.skip(at + n) == list[0].payload + framed(rest));
    lemma_framed_units(buf, at + n, list);
}

proof fn lemma_strip_plain(first: u8, rest: Seq<u8>)
    requires
        !(first == 0 && rest.len() > 1 && rest[0] == 0 && rest[1] == 3),
    ensures
        stripped(seq![first] + rest) == seq![first] + stripped(rest),
{
    let all = seq![first] + rest;
    assert(all.skip(1) == rest);
    if all.len() > 2 {
        assert(all[1] == rest[0]);
        assert(all[2] == rest[1]);
    }
}

proof fn lemma_strip_escaped(payload: Seq<u8>, zeros: nat)
    requires
        zeros <= 2,
    ensures
        stripped(Seq::new(zeros, |i: int| 0u8) + escaped(payload, zeros)) == Seq::new(
            zeros,
            |i: int| 0u8,
        ) + payload,
    decreases payload.len(),
{
    let lead = Seq::new(zeros, |i: int| 0u8);
    if payload.len() == 0 {
        assert(lead + escaped(payload, zeros) == lead);
        assert(stripped(Seq::<u8>::empty()) == Seq::<u8>::empty());
        if zeros == 0 {
            assert(lead == Seq::<u8>::empty());
        } else if zeros == 1 {
            assert(lead == seq![0u8] + Seq::<u8>::empty());
            lemma_strip_plain(0, Seq::empty());
        } else {
            assert(lead == seq![0u8] + (seq![0u8] + Seq::<u8>::empty()));
            lemma_strip_plain(0, Seq::empty());
            lemma_strip_plain(0, seq![0u8] + Seq::<u8>::empty());
        }
        assert(lead + payload == lead);
    } else {
        let byte = payload[0];
        let rest = payload.skip(1);
        assert(payload == seq![byte] + rest);
        if byte == 0 {
            let one = Seq::new(1, |i: int| 0u8);
            if zeros == 2 {
                let all = lead + escaped(payload, zeros);
                lemma_strip_escaped(rest, 1);
                assert(all.skip(3) == one + escaped(rest, 1));
                assert(all[2] == 3);
                assert(lead + payload == seq![0u8, 0u8] + (one + rest));
            } else {
                let more = Seq::new(zeros + 1, |i: int| 0u8);
                lemma_strip_escaped(rest, zeros + 1);
                assert(lead + escaped(payload, zeros) == more + escaped(rest, zeros + 1));
                assert(lead + payload == more + rest);
            }
        } else {
            let tail = escaped(rest, 0);
            let none = Seq::new(0, |i: int| 0u8);
            lemma_strip_escaped(rest, 0);
            assert(none + tail == tail);
            assert(none + rest == rest);
            lemma_strip_plain(byte, tail);
            let plain = seq![byte] + tail;
            if zeros == 2 && byte <= 3 {
                let all = lead + escaped(payload, zeros);
                assert(all.skip(3) == plain);
                assert(all[2] == 3);
                assert(lead + payload == seq![0u8, 0u8] + (seq![byte] + rest));
            } else if zeros == 2 {
                lemma_strip_plain(0, plain);
                lemma_strip_plain(0, seq![0u8] + plain);
                assert(lead + escaped(payload, zeros) == seq![0u8] + (seq![0u8] + plain));
                assert(lead + payload == seq![0u8] + (seq![0u8] + (seq![byte] + rest)));
            } else if zeros == 1 {
                lemma_strip_plain(0, plain);
                assert(lead + escaped(payload, zeros) == seq![0u8] + plain);
                assert(lead + payload == seq![0u8] + (seq![byte] + rest));
            } else {
                assert(lead + escaped(payload, zeros) == plain);
                assert(lead + payload == payload);
            }
        }
    }
}

/// A unit to be framed: its payload, and whether the four-byte start code
/// goes before it.
pub struct FramedUnit {
    pub long_code: bool,
    pub payload: Seq<u8>,
}

/// A start code.
pub open spec fn start_code(long_code: bool) -> Seq<u8> {
    if long_code {
        seq![0u8, 0u8, 0u8, 1u8]
    } else {
        seq![0u8, 0u8, 1u8]
    }
}

/// The units one after the other, each behind its start code.
pub open spec fn framed(list: Seq<FramedUnit>) -> Seq<u8>
    decreases list.len(),
{
    if list.len() == 0 {
        Seq::empty()
    } else {
        start_code(list[0].long_code) + list[0].payload + framed(list.skip(1))
    }
}

/// True if no start code occurs inside a payload, and a payload that ends in
/// zero is followed by a four-byte start code.
pub open spec fn separable(list: Seq<FramedUnit>) -> bool {
    &&& forall|k: int, i: int|
        0 <= k < list.len() && 0 <= i < list[k].payload.len() ==> !#[trigger] short_code_at(
            list[k].payload,
            i,
        )
    &&& forall|k: int|
        0 < k < list.len() && list[k - 1].payload.len() > 0 && list[k - 1].payload.last() == 0
            ==> (#[trigger] list[k]).long_code
}

/// Splitting a stream that was framed gives the payloads back.
pub proof fn law_split_undoes_framing(list: Seq<FramedUnit>)
    requires
        separable(list),
    ensures
        units(framed(list)) == Seq::new(list.len(), |k: int| list[k].payload),
{
    let buf = framed(list);
    if list.len() > 0 {
        let rest = list.skip(1);
        let n = start_code(list[0].long_code).len() as int;
        assert(code_len(buf, 0) == n);
        assert(next_code(buf, 0) == 0);
        assert(buf.skip(n) == list[0].payload + framed(rest));
        lemma_framed_units(buf, n, list);
    } else {
        assert(units(buf) == Seq::<Seq<u8>>::empty());
    }
    assert(units(buf) == Seq::new(list.len(), |k: int| list[k].payload));
}

/// Without a start code there are no units.
pub proof fn law_no_start_code_no_units(buf: Seq<u8>)
    requires
        forall|i: int|
            0 <= i && i + 2 < buf.len() ==> !(#[trigger] buf[i] == 0 && buf[i + 1] == 0 && buf[i + 2]
                == 1),
    ensures
        units(buf).len() == 0,
{
    assert forall|i: int| 0 <= i < buf.len() implies code_len(buf, i) == 0 by {
        if i + 3 < buf.len() {
            assert(!(buf[i + 1] == 0 && buf[i + 2] == 0 && buf[i + 3] == 1));
        }
    }
    lemma_next_code_is(buf, 0, buf.len() as int);
}

proof fn lemma_next_code_is(buf: Seq<u8>, i: int, end: int)
    requires
        0 <= i <= end <= buf.len(),
        forall|j: int| i <= j < end ==> code_len(buf, j) == 0,
        end == buf.len() || code_len(buf, end) > 0,
    ensures
        next_code(buf, i) == end,
    decreases end - i,
{
    if i < end {
        lemma_next_code_is(buf, i + 1, end);
    }
}

proof fn lemma_no_code_inside(buf: Seq<u8>, start: int, list: Seq<FramedUnit>)
    requires
        0 <= start <= buf.len(),
        list.len() > 0,
        separable(list),
        buf.skip(start) == list[0].payload + framed(list.skip(1)),
    ensures
        forall|j: int| start <= j < start + list[0].payload.len() ==> code_len(buf, j) == 0,
{
    let payload = list[0].payload;
    let rest = list.skip(1);
    let end = start + payload.len();
    let tail = buf.skip(start);
    assert(tail.len() == payload.len() + framed(rest).len());
    assert forall|j: int| 0 <= j < tail.len() implies #[trigger] buf[start + j] == tail[j] by {}
    let code = if rest.len() > 0 {
        start_code(rest[0].long_code)
    } else {
        Seq::empty()
    };
    assert(rest.len() > 0 ==> rest[0] == list[1]);
    assert forall|j: int| 0 <= j < code.len() implies #[trigger] buf[end + j] == code[j] by {
        assert(buf[end + j] == tail[payload.len() + j]);
        assert(tail[payload.len() + j] == framed(rest)[j]);
    }
    assert forall|j: int| start <= j < end implies code_len(buf, j) == 0 by {
        assert forall|k: int| 0 <= k < payload.len() implies #[trigger] buf[start + k]
            == payload[k] by {
            assert(tail[k] == payload[k]);
        }
        let k = j - start;
        assert(!short_code_at(payload, k));
        assert(buf[start + k] == payload[k]);
        if k + 1 < payload.len() {
            assert(!short_code_at(payload, k + 1));
            assert(buf[start + (k + 1)] == payload[k + 1]);
        } else if rest.len() > 0 {
            assert(buf[end + 0] == code[0]);
            assert(buf[end + 1] == code[1]);
            assert(buf[end + 2] == code[2]);
        }
        if k + 2 < payload.len() {
            assert(buf[start + (k + 2)] == payload[k + 2]);
        } else if rest.len() > 0 {
            assert(buf[end + 0] == code[0]);
            assert(buf[end + 1] == code[1]);
        }
        if k + 3 < payload.len() {
            assert(buf[start + (k + 3)] == payload[k + 3]);
        } else if rest.len() > 0 {
            assert(buf[end + 0] == code[0]);
            assert(buf[end + 1] == code[1]);
            assert(buf[end + 2] == code[2]);
        }
    }
}

proof fn lemma_separable_rest(list: Seq<FramedUnit>)
    requires
        list.len() > 0,
        separable(list),
    ensures
        separable(list.skip(1)),
{
    let rest = list.skip(1);
    assert forall|k: int, i: int|
        0 <= k < rest.len() && 0 <= i < rest[k].payload.len() implies !#[trigger] short_code_at(
        rest[k].payload,
        i,
    ) by {
        assert(rest[k] == list[k + 1]);
    }
    assert forall|k: int|
        0 < k < rest.len() && rest[k - 1].payload.len() > 0 && rest[k - 1].payload.last()
            == 0 implies (#[trigger] rest[k]).long_code by {
        assert(rest[k] == list[k + 1]);
        assert(rest[k - 1] == list[k]);
    }
}

/// A start code in a stream of units is that of one of them, whose number is
/// returned, or the last three bytes of its long start code.
pub proof fn lemma_code_is_of_a_unit(
    buf: Seq<u8>,
    at: int,
    list: Seq<FramedUnit>,
    j: int,
) -> (k: int)
    requires
        0 <= at <= buf.len(),
        separable(list),
        buf.skip(at) == framed(list),
        at <= j,
        code_len(buf, j) > 0,
    ensures
        0 <= k < list.len(),
        (buf.skip(j) == framed(list.skip(k)) && code_len(buf, j) == start_code(
            list[k].long_code,
        ).len()) || (list[k].long_code && at < j && buf.skip(j - 1) == framed(list.skip(k))
            && code_len(buf, j) == 3),
    decreases list.len(),
{
    let tail = buf.skip(at);
    assert(list.len() > 0) by {
        assert(tail.len() > 0);
    }
    let code = start_code(list[0].long_code);
    let rest = list.skip(1);
    let start = at + code.len();
    let end = start + list[0].payload.len();
    assert(tail == code + list[0].payload + framed(rest));
    assert forall|i: int| 0 <= i < code.len() implies #[trigger] buf[at + i] == code[i] by {
        assert(buf[at + i] == tail[i]);
    }
    assert(buf[at + 0] == 0 && buf[at + 1] == 0 && buf[at + 2] == code[2]);
    assert(list[0].long_code ==> buf[at + 3] == 1);
    assert(list.skip(0) == list);
    assert(buf.skip(start) == tail.skip(code.len() as int));
    assert(tail.skip(code.len() as int) == list[0].payload + framed(rest));
    if j == at {
        0
    } else if j < start {
        assert(list[0].long_code && j == at + 1);
        0
    } else {
        lemma_no_code_inside(buf, start, list);
        assert(j >= end);
        lemma_separable_rest(list);
        assert(buf.skip(end) == tail.skip((code.len() + list[0].payload.len()) as int));
        assert(tail.skip((code.len() + list[0].payload.len()) as int) == framed(rest));
        let k = lemma_code_is_of_a_unit(buf, end, rest, j);
        assert(rest.skip(k) == list.skip(k + 1));
        assert(rest[k] == list[k + 1]);
        k + 1
    }
}

/// The stream of the units from `k` on is the end of the stream of all, and
/// starts with a start code.
pub proof fn lemma_framed_from(list: Seq<FramedUnit>, k: int)
    requires
        0 <= k <= list.len(),
    ensures
        framed(list.skip(k)).len() <= framed(list).len(),
        framed(list).skip(framed(list).len() - framed(list.skip(k)).len()) == framed(list.skip(k)),
    decreases k,
{
    assert(list.skip(0) == list);
    assert(framed(list).skip(0) == framed(list));
    if k > 0 {
        let rest = list.skip(1);
        lemma_framed_from(rest, k - 1);
        assert(rest.skip(k - 1) == list.skip(k));
        let n = start_code(list[0].long_code).len() + list[0].payload.len();
        assert(framed(list).skip(n as int) == framed(rest));
        let o = framed(rest).len() - framed(list.skip(k)).len();
        assert(framed(list).skip(n + o) == framed(list).skip(n as int).skip(o));
    }
}

proof fn lemma_framed_units(buf: Seq<u8>, start: int, list: Seq<FramedUnit>)
    requires
        0 <= start <= buf.len(),
        list.len() > 0,
        separable(list),
        buf.skip(start) == list[0].payload + framed(list.skip(1)),
    ensures
        units_from(buf, start) == Seq::new(list.len(), |k: int| list[k].payload),
    decreases list.len(),
{
    let payload = list[0].payload;
    let rest = list.skip(1);
    let end = start + payload.len();
    let tail = buf.skip(start);
    assert(tail.len() == payload.len() + framed(rest).len());
    assert forall|j: int| 0 <= j < tail.len() implies #[trigger] buf[start + j] == tail[j] by {}
    let code = if rest.len() > 0 {
        start_code(rest[0].long_code)
    } else {
        Seq::empty()
    };
    assert(rest.len() > 0 ==> rest[0] == list[1]);
    assert forall|j: int| 0 <= j < code.len() implies #[trigger] buf[end + j] == code[j] by {
        assert(buf[end + j] == tail[payload.len() + j]);
        assert(tail[payload.len() + j] == framed(rest)[j]);
    }
    lemma_no_code_inside(buf, start, list);
    if rest.len() > 0 {
        assert(buf[end + 0] == code[0]);
        assert(buf[end + 1] == code[1]);
        assert(buf[end + 2] == code[2]);
        if rest[0].long_code {
            assert(buf[end + 3] == code[3]);
        }
        assert(code_len(buf, end) == code.len());
        lemma_next_code_is(buf, start, end);
        let next = end + code.len();
        assert(buf.skip(next) == rest[0].payload + framed(rest.skip(1))) by {
            assert(framed(rest) == code + rest[0].payload + framed(rest.skip(1)));
            assert(buf.skip(next) == tail.skip((payload.len() + code.len()) as int));
        }
        lemma_separable_rest(list);
        lemma_framed_units(buf, next, rest);
        assert(units_from(buf, start) == seq![buf.subrange(start, end)] + units_from(buf, next));
    } else {
        assert(framed(rest).len() == 0);
        lemma_next_code_is(buf, start, end);
    }
    assert(buf.subrange(start, end) == payload);
    assert(units_from(buf, start) == Seq::new(list.len(), |k: int| list[k].payload));
}

} // verus!

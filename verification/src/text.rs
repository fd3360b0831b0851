//! Numbers and byte lists as text, for messages.

use vstd::prelude::*;
use vstd::string::StringExecFns;

verus! {

/// The character of decimal digit `d`.
pub open spec fn digit_char(d: nat) -> char {
    (48 + d) as char
}

/// The character of hexadecimal digit `d`, in lower case.
pub open spec fn hex_char(d: nat) -> char {
    if d < 10 {
        (48 + d) as char
    } else {
        (87 + d) as char
    }
}

/// `n` in decimal, without leading zeros.
pub open spec fn decimal(n: nat) -> Seq<char>
    decreases n,
{
    if n < 10 {
        seq![digit_char(n)]
    } else {
        decimal(n / 10).push(digit_char(n % 10))
    }
}

/// `n` in decimal, with a minus sign if it is negative.
pub open spec fn signed_decimal(n: int) -> Seq<char> {
    if n < 0 {
        seq!['-'] + decimal((-n) as nat)
    } else {
        decimal(n as nat)
    }
}

/// The last `width` hexadecimal digits of `n`.
pub open spec fn hexadecimal(n: nat, width: nat) -> Seq<char>
    decreases width,
{
    if width == 0 {
        Seq::empty()
    } else {
        hexadecimal(n / 16, (width - 1) as nat).push(hex_char(n % 16))
    }
}

/// The decimal numbers of `bytes` with a comma and a space between them.
pub open spec fn comma_list(bytes: Seq<u8>) -> Seq<char>
    decreases bytes.len(),
{
    if bytes.len() == 0 {
        Seq::empty()
    } else if bytes.len() == 1 {
        decimal(bytes[0] as nat)
    } else {
        comma_list(bytes.drop_last()) + seq![',', ' '] + decimal(bytes.last() as nat)
    }
}

/// `bytes` as a list in square brackets.
pub open spec fn byte_list(bytes: Seq<u8>) -> Seq<char> {
    seq!['['] + comma_list(bytes) + seq![']']
}

/// The value of a digit.
pub open spec fn digit_value(c: char) -> int {
    if '0' <= c <= '9' {
        c as int - '0' as int
    } else {
        c as int - 'a' as int + 10
    }
}

/// The number that digits stand for in the given base.
pub open spec fn number(text: Seq<char>, base: int) -> int
    decreases text.len(),
{
    if text.len() == 0 {
        0
    } else {
        base * number(text.drop_last(), base) + digit_value(text.last())
    }
}

/// A decimal text stands for its number, holds nothing but digits, and has no
/// leading zero.
pub proof fn law_decimal_reads_back(n: nat)
    ensures
        number(decimal(n), 10) == n,
        decimal(n).len() > 0,
        forall|i: int| 0 <= i < decimal(n).len() ==> '0' <= #[trigger] decimal(n)[i] <= '9',
        n > 0 ==> decimal(n)[0] != '0',
        n == 0 ==> decimal(n).len() == 1,
    decreases n,
{
    let text = decimal(n);
    if n < 10 {
        assert(text.drop_last() == Seq::<char>::empty());
        assert(number(text.drop_last(), 10) == 0);
    } else {
        law_decimal_reads_back(n / 10);
        assert(text.drop_last() == decimal(n / 10));
    }
}

/// A negative number has a minus sign and the text of its magnitude.
pub proof fn law_signed_decimal_reads_back(n: int)
    ensures
        n >= 0 ==> number(signed_decimal(n), 10) == n && '0' <= signed_decimal(n)[0] <= '9',
        n < 0 ==> signed_decimal(n)[0] == '-' && number(signed_decimal(n).skip(1), 10) == -n,
{
    if n < 0 {
        law_decimal_reads_back((-n) as nat);
        assert(signed_decimal(n).skip(1) == decimal((-n) as nat));
    } else {
        law_decimal_reads_back(n as nat);
    }
}

/// A hexadecimal text has the width that was asked for, holds nothing but
/// digits and letters in lower case, and stands for its number if that fits.
pub proof fn law_hexadecimal_reads_back(n: nat, width: nat)
    ensures
        hexadecimal(n, width).len() == width,
        forall|i: int|
            0 <= i < width ==> '0' <= #[trigger] hexadecimal(n, width)[i] <= '9' || 'a'
                <= hexadecimal(n, width)[i] <= 'f',
        n < crate::bits::two_to(4 * width) ==> number(hexadecimal(n, width), 16) == n,
    decreases width,
{
    let text = hexadecimal(n, width);
    if width > 0 {
        law_hexadecimal_reads_back(n / 16, (width - 1) as nat);
        assert(text.drop_last() == hexadecimal(n / 16, (width - 1) as nat));
        reveal_with_fuel(crate::bits::two_to, 5);
        assert(4 * width == 4 * (width - 1) + 4);
    } else {
        assert(crate::bits::two_to(0) == 1);
    }
}

/// The list of no bytes is a pair of brackets, that of one byte its number
/// between brackets, and that of two lists one after the other is the two, with a comma
/// and a space where the inner brackets were.
pub proof fn law_byte_lists_join(a: Seq<u8>, b: Seq<u8>)
    ensures
        byte_list(Seq::empty()) == seq!['[', ']'],
        a.len() == 1 ==> byte_list(a) == seq!['['] + decimal(a[0] as nat) + seq![']'],
        a.len() > 0 && b.len() > 0 ==> byte_list(a + b) == byte_list(a).drop_last() + seq![',', ' ']
            + byte_list(b).skip(1),
{
    assert(byte_list(Seq::empty()) == seq!['[', ']']);
    if a.len() > 0 && b.len() > 0 {
        lemma_comma_lists_join(a, b);
        assert(byte_list(a).drop_last() == seq!['['] + comma_list(a));
        assert(byte_list(b).skip(1) == comma_list(b) + seq![']']);
        assert(byte_list(a + b) == byte_list(a).drop_last() + seq![',', ' '] + byte_list(b).skip(1));
    }
}

proof fn lemma_comma_lists_join(a: Seq<u8>, b: Seq<u8>)
    requires
        a.len() > 0,
        b.len() > 0,
    ensures
        comma_list(a + b) == comma_list(a) + seq![',', ' '] + comma_list(b),
    decreases b.len(),
{
    let front = b.drop_last();
    assert((a + b).last() == b.last());
    assert((a + b).drop_last() == a + front);
    if b.len() == 1 {
        assert(a + front == a);
    } else {
        lemma_comma_lists_join(a, front);
        assert(comma_list(a + b) == comma_list(a) + seq![',', ' '] + comma_list(b));
    }
}

/// One hexadecimal digit; the first ten are the decimal digits.
fn hex_digit(d: u32) -> (text: &'static str)
    requires
        d < 16,
    ensures
        text@ == seq![hex_char(d as nat)],
{
    proof {
        reveal_strlit("0");
        reveal_strlit("1");
        reveal_strlit("2");
        reveal_strlit("3");
        reveal_strlit("4");
        reveal_strlit("5");
        reveal_strlit("6");
        reveal_strlit("7");
        reveal_strlit("8");
        reveal_strlit("9");
        reveal_strlit("a");
        reveal_strlit("b");
        reveal_strlit("c");
        reveal_strlit("d");
        reveal_strlit("e");
        reveal_strlit("f");
    }
    match d {
        0 => "0",
        1 => "1",
        2 => "2",
        3 => "3",
        4 => "4",
        5 => "5",
        6 => "6",
        7 => "7",
        8 => "8",
        9 => "9",
        10 => "a",
        11 => "b",
        12 => "c",
        13 => "d",
        14 => "e",
        _ => "f",
    }
}

/// `n` in decimal.
pub fn decimal_text(n: u64) -> (text: String)
    ensures
        text@ == decimal(n as nat),
    decreases n,
{
    if n < 10 {
        hex_digit(n as u32).to_owned()
    } else {
        let mut text: String = decimal_text(n / 10);
        text.append(hex_digit((n % 10) as u32));
        assert(text@ == decimal(n as nat));
        text
    }
}

/// `n` in decimal, with a minus sign if it is negative.
pub fn signed_decimal_text(n: i32) -> (text: String)
    ensures
        text@ == signed_decimal(n as int),
{
    if n < 0 {
        proof {
            reveal_strlit("-");
        }
        let magnitude: u64 = (-(n as i64)) as u64;
        let text: String = "-".to_owned().concat(decimal_text(magnitude).as_str());
        assert(text@ == signed_decimal(n as int));
        text
    } else {
        decimal_text(n as u64)
    }
}

/// The last `width` hexadecimal digits of `n`.
pub fn hexadecimal_text(n: u32, width: u32) -> (text: String)
    ensures
        text@ == hexadecimal(n as nat, width as nat),
    decreases width,
{
    if width == 0 {
        let text: String = String::new();
        assert(text@ == Seq::<char>::empty());
        text
    } else {
        let mut text: String = hexadecimal_text(n / 16, width - 1);
        text.append(hex_digit(n % 16));
        assert(text@ == hexadecimal(n as nat, width as nat));
        text
    }
}

/// `bytes` as a list in square brackets.
pub fn byte_list_text(bytes: &[u8]) -> (text: String)
    ensures
        text@ == byte_list(bytes@),
{
    proof {
        reveal_strlit("[");
        reveal_strlit("]");
        reveal_strlit(", ");
    }
    let mut text: String = "[".to_owned();
    let mut i: usize = 0;
    while i < bytes.len()
        invariant
            i <= bytes.len(),
            text@ == seq!['['] + comma_list(bytes@.take(i as int)),
            ", "@ == seq![',', ' '],
        decreases bytes.len() - i,
    {
        let ghost before = bytes@.take(i as int);
        let ghost after = bytes@.take(i + 1);
        assert(after.drop_last() == before);
        if i > 0 {
            text.append(", ");
        }
        text.append(decimal_text(bytes[i] as u64).as_str());
        i = i + 1;
        assert(text@ == seq!['['] + comma_list(after));
    }
    assert(bytes@.take(bytes@.len() as int) == bytes@);
    text.append("]");
    assert(text@ == byte_list(bytes@));
    text
}

} // verus!

//! Numbers written out as text, for the messages of errors.

use vstd::prelude::*;
use vstd::string::StringExecFns;

verus! {

/// The decimal digit for a number below ten.
pub open spec fn digit_char(d: nat) -> char {
    if d == 0 {
        '0'
    } else if d == 1 {
        '1'
    } else if d == 2 {
        '2'
    } else if d == 3 {
        '3'
    } else if d == 4 {
        '4'
    } else if d == 5 {
        '5'
    } else if d == 6 {
        '6'
    } else if d == 7 {
        '7'
    } else if d == 8 {
        '8'
    } else {
        '9'
    }
}

/// A number in decimal, without leading zeros.
pub open spec fn decimal(n: nat) -> Seq<char>
    decreases n,
{
    if n < 10 {
        seq![digit_char(n)]
    } else {
        decimal(n / 10).push(digit_char(n % 10))
    }
}

/// The numbers of a list in decimal, separated by a comma and a space.
pub open spec fn decimal_list(numbers: Seq<u8>) -> Seq<char>
    decreases numbers.len(),
{
    if numbers.len() == 0 {
        Seq::empty()
    } else if numbers.len() == 1 {
        decimal(numbers[0] as nat)
    } else {
        decimal_list(numbers.drop_last()) + seq![',', ' '] + decimal(numbers.last() as nat)
    }
}

/// The text of one decimal digit.
fn digit_str(d: u64) -> (r: &'static str)
    requires
        d < 10,
    ensures
        r@ == seq![digit_char(d as nat)],
{
    proof {
        reveal_strlit("0");
        reveal_strlit("1");
        reveal_strlit("2");
        reveal_strlit("3");
        reveal_strlit("4");
        reveal_strlit("5");
        reveal_strlit("6");
        reveal_strlit("7");
        reveal_strlit("8");
        reveal_strlit("9");
    }
    let r = if d == 0 {
        "0"
    } else if d == 1 {
        "1"
    } else if d == 2 {
        "2"
    } else if d == 3 {
        "3"
    } else if d == 4 {
        "4"
    } else if d == 5 {
        "5"
    } else if d == 6 {
        "6"
    } else if d == 7 {
        "7"
    } else if d == 8 {
        "8"
    } else {
        "9"
    };
    assert(r@ =~= seq![digit_char(d as nat)]);
    r
}

/// Appends a number in decimal to a text.
pub fn push_decimal(text: &mut String, n: u64)
    ensures
        final(text)@ == old(text)@ + decimal(n as nat),
    decreases n,
{
    if n >= 10 {
        push_decimal(text, n / 10);
    }
    text.append(digit_str(n % 10));
    proof {
        if n >= 10 {
            assert(text@ =~= old(text)@ + decimal(n as nat));
        } else {
            assert(text@ =~= old(text)@ + decimal(n as nat));
        }
    }
}

/// Appends the numbers of a list in decimal, separated by a comma and a
/// space.
pub fn push_decimal_list(text: &mut String, numbers: &Vec<u8>)
    ensures
        final(text)@ == old(text)@ + decimal_list(numbers@),
{
    let n = numbers.len();
    let mut i: usize = 0;
    assert(numbers@.take(0) =~= Seq::<u8>::empty());
    assert(text@ =~= old(text)@ + decimal_list(numbers@.take(0)));
    while i < n
        invariant
            i <= n,
            n == numbers@.len(),
            text@ == old(text)@ + decimal_list(numbers@.take(i as int)),
        decreases n - i,
    {
        let ghost before = text@;
        let ghost part = numbers@.take(i as int + 1);
        proof {
            assert(part.drop_last() =~= numbers@.take(i as int));
            assert(part.last() == numbers@[i as int]);
        }
        if i > 0 {
            proof {
                reveal_strlit(", ");
            }
            text.append(", ");
            assert(", "@ =~= seq![',', ' ']);
        }
        push_decimal(text, numbers[i] as u64);
        assert(text@ =~= old(text)@ + decimal_list(part));
        i += 1;
    }
    assert(numbers@.take(n as int) =~= numbers@);
}

/// The hexadecimal digit, in lower case, for a number below sixteen.
pub open spec fn hex_char(d: nat) -> char {
    if d < 10 {
        digit_char(d)
    } else if d == 10 {
        'a'
    } else if d == 11 {
        'b'
    } else if d == 12 {
        'c'
    } else if d == 13 {
        'd'
    } else if d == 14 {
        'e'
    } else {
        'f'
    }
}

/// A byte in two hexadecimal digits.
pub open spec fn hex_byte(byte: u8) -> Seq<char> {
    seq![hex_char((byte / 16) as nat), hex_char((byte % 16) as nat)]
}

/// The lowest `count` bits of a number in binary, the highest first.
pub open spec fn binary(value: u32, count: nat) -> Seq<char>
    decreases count,
{
    if count == 0 {
        Seq::empty()
    } else {
        binary(value / 2, (count - 1) as nat).push(digit_char((value % 2) as nat))
    }
}

/// The text of one hexadecimal digit.
fn hex_str(d: u8) -> (r: &'static str)
    requires
        d < 16,
    ensures
        r@ == seq![hex_char(d as nat)],
{
    if d < 10 {
        digit_str(d as u64)
    } else {
        proof {
            reveal_strlit("a");
            reveal_strlit("b");
            reveal_strlit("c");
            reveal_strlit("d");
            reveal_strlit("e");
            reveal_strlit("f");
        }
        let r = if d == 10 {
            "a"
        } else if d == 11 {
            "b"
        } else if d == 12 {
            "c"
        } else if d == 13 {
            "d"
        } else if d == 14 {
            "e"
        } else {
            "f"
        };
        assert(r@ =~= seq![hex_char(d as nat)]);
        r
    }
}

/// Appends a byte in two hexadecimal digits to a text.
pub fn push_hex_byte(text: &mut String, byte: u8)
    ensures
        final(text)@ == old(text)@ + hex_byte(byte),
{
    text.append(hex_str(byte / 16));
    text.append(hex_str(byte % 16));
    assert(text@ =~= old(text)@ + hex_byte(byte));
}

/// Appends the lowest `count` bits of a number in binary to a text.
pub fn push_binary(text: &mut String, value: u32, count: u8)
    ensures
        final(text)@ == old(text)@ + binary(value, count as nat),
    decreases count,
{
    if count > 0 {
        push_binary(text, value / 2, count - 1);
        text.append(digit_str((value % 2) as u64));
        assert(text@ =~= old(text)@ + binary(value, count as nat));
    } else {
        assert(text@ =~= old(text)@ + binary(value, count as nat));
    }
}

} // verus!

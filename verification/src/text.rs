//! Bytes, and decimal numbers as text.

use vstd::prelude::*;
use vstd::string::*;

verus! {

/// The decimal digits of `n`, as ASCII, without leading zeros.
pub open spec fn decimal(n: nat) -> Seq<u8>
    decreases n,
{
    if n < 10 {
        seq![(48 + n) as u8]
    } else {
        decimal(n / 10).push((48 + n % 10) as u8)
    }
}

/// Appends `n` in decimal.
pub fn push_decimal(buf: &mut Vec<u8>, n: usize)
    ensures
        final(buf)@ == old(buf)@ + decimal(n as nat),
    decreases n,
{
    if n >= 10 {
        push_decimal(buf, n / 10);
    }
    buf.push(48 + (n % 10) as u8);
    proof {
        if n >= 10 {
            assert(buf@ =~= old(buf)@ + decimal((n / 10) as nat).push((48 + n % 10) as u8));
        } else {
            assert(buf@ =~= old(buf)@ + seq![(48 + n) as u8]);
        }
    }
}

/// Appends `bytes`.
pub fn push_bytes(buf: &mut Vec<u8>, bytes: &[u8])
    ensures
        final(buf)@ == old(buf)@ + bytes@,
{
    buf.extend_from_slice(bytes);
    assert(buf@ =~= old(buf)@ + bytes@);
}

/// Appends the bytes of `text`.
pub fn push_text(buf: &mut Vec<u8>, text: &str)
    ensures
        final(buf)@ == old(buf)@ + text.spec_bytes(),
{
    push_bytes(buf, text.as_bytes());
}

/// Whether two byte strings are equal.
pub fn same_bytes(a: &[u8], b: &[u8]) -> (r: bool)
    ensures
        r == (a@ == b@),
{
    if a.len() != b.len() {
        return false;
    }
    let mut i: usize = 0;
    while i < a.len()
        invariant
            i <= a.len(),
            a.len() == b.len(),
            forall|j: int| 0 <= j < i ==> a@[j] == b@[j],
        decreases a.len() - i,
    {
        if a[i] != b[i] {
            return false;
        }
        i = i + 1;
    }
    assert(a@ =~= b@);
    true
}

/// Appending piece by piece appends all pieces.
pub proof fn lemma_append(start: Seq<u8>, done: Seq<u8>, piece: Seq<u8>)
    ensures
        (start + done) + piece == start + (done + piece),
{
    assert((start + done) + piece =~= start + (done + piece));
}

/// A digit as a character.
pub open spec fn digit(d: nat) -> char {
    (48 + d) as char
}

/// The decimal digits of `n`, as characters, without leading zeros.
pub open spec fn decimal_chars(n: nat) -> Seq<char>
    decreases n,
{
    if n < 10 {
        seq![digit(n)]
    } else {
        decimal_chars(n / 10).push(digit(n % 10))
    }
}

fn digit_text(d: usize) -> (r: &'static str)
    requires
        d < 10,
    ensures
        r@ == seq![digit(d as nat)],
{
    proof {
        reveal_strlit("0");
        reveal_strlit("1");
        reveal_strlit("2");
        reveal_strlit("3");
        reveal_strlit("4");
        reveal_strlit("5");
        reveal_strlit("6");
        reveal_strlit("7");
        reveal_strlit("8");
        reveal_strlit("9");
    }
    let r = match d {
        0 => "0",
        1 => "1",
        2 => "2",
        3 => "3",
        4 => "4",
        5 => "5",
        6 => "6",
        7 => "7",
        8 => "8",
        _ => "9",
    };
    assert(r@ =~= seq![digit(d as nat)]);
    r
}

/// Appends `n` in decimal to a string.
pub fn append_decimal(text: &mut String, n: usize)
    ensures
        final(text)@ == old(text)@ + decimal_chars(n as nat),
    decreases n,
{
    if n >= 10 {
        append_decimal(text, n / 10);
    }
    text.append(digit_text(n % 10));
    proof {
        if n >= 10 {
            assert(text@ =~= old(text)@ + decimal_chars((n / 10) as nat).push(
                digit((n % 10) as nat),
            ));
        }
    }
}

/// The first digit of a number that is not zero is not zero.
pub proof fn lemma_decimal_chars(n: nat)
    ensures
        decimal_chars(n).len() >= 1,
        n > 0 ==> decimal_chars(n)[0] != '0',
    decreases n,
{
    if n >= 10 {
        lemma_decimal_chars(n / 10);
    }
}

/// Different numbers have different digits.
pub proof fn lemma_decimal_chars_injective(a: nat, b: nat)
    requires
        decimal_chars(a) == decimal_chars(b),
    ensures
        a == b,
    decreases a,
{
    lemma_decimal_chars(a / 10);
    lemma_decimal_chars(b / 10);
    assert(decimal_chars(a).last() == digit(a % 10));
    assert(decimal_chars(b).last() == digit(b % 10));
    if a >= 10 && b >= 10 {
        assert(decimal_chars(a).drop_last() =~= decimal_chars(a / 10));
        assert(decimal_chars(b).drop_last() =~= decimal_chars(b / 10));
        lemma_decimal_chars_injective(a / 10, b / 10);
    }
}

/// The number that some digits stand for, the most significant first.
pub open spec fn number(digits: Seq<u8>) -> nat
    decreases digits.len(),
{
    if digits.len() == 0 {
        0
    } else {
        (number(digits.drop_last()) * 10 + digits.last() - 48) as nat
    }
}

/// The decimal form of a number stands for that number, has digits only, and does not begin with
/// a zero unless it is one.
pub proof fn law_decimal_stands_for_the_number(n: nat)
    ensures
        number(decimal(n)) == n,
        decimal(n).len() > 0,
        forall|i: int| 0 <= i < decimal(n).len() ==> 48 <= #[trigger] decimal(n)[i] <= 57,
        decimal(n)[0] == 48 ==> n == 0,
        n < 10 ==> decimal(n).len() == 1,
    decreases n,
{
    if n >= 10 {
        law_decimal_stands_for_the_number(n / 10);
        assert(decimal(n).drop_last() =~= decimal(n / 10));
    } else {
        assert(decimal(n).drop_last() =~= Seq::empty());
        assert(number(Seq::empty()) == 0);
    }
}

/// A number has the same digits as text and as bytes.
pub proof fn law_decimal_text_has_the_same_digits(n: nat, i: int)
    ensures
        decimal_chars(n).len() == decimal(n).len(),
        0 <= i < decimal(n).len() ==> decimal_chars(n)[i] as int == decimal(n)[i],
    decreases n,
{
    if n >= 10 {
        law_decimal_text_has_the_same_digits(n / 10, i);
    }
}

} // verus!

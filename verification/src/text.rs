//! Text forms of numbers and bytes that enter a hash: decimal numerals and
//! lower-case hexadecimal.

use vstd::prelude::*;
use vstd::string::StrSliceExecFns;
use vstd::string::StringExecFns;

verus! {

/// `String::push` appends one character.
pub assume_specification[ String::push ](s: &mut String, ch: char)
    ensures
        final(s)@ == old(s)@.push(ch),
;

/// Whether two texts hold the same characters.
pub fn same_text(a: &str, b: &str) -> (same: bool)
    ensures
        same == (a@ == b@),
{
    a.to_owned() == b.to_owned()
}

/// The character of a digit below sixteen: `0`-`9`, then `a`-`f`.
pub open spec fn digit_char(d: nat) -> char {
    if d < 10 {
        (48 + d) as u8 as char
    } else {
        (87 + d) as u8 as char
    }
}

/// The decimal numeral of `n`, without leading zeros; `"0"` for zero.
pub open spec fn decimal_text(n: nat) -> Seq<char>
    decreases n,
{
    if n < 10 {
        seq![digit_char(n)]
    } else {
        decimal_text(n / 10).push(digit_char(n % 10))
    }
}

/// The two hexadecimal digits of each byte, high nibble first.
pub open spec fn hex_text(bytes: Seq<u8>) -> Seq<char> {
    Seq::new(
        2 * bytes.len(),
        |i: int|
            if i % 2 == 0 {
                digit_char((bytes[i / 2] / 16) as nat)
            } else {
                digit_char((bytes[i / 2] % 16) as nat)
            },
    )
}

/// Whether `c` is one of `0`-`9`, `a`-`f`.
pub open spec fn is_hex_char(c: char) -> bool {
    exists|d: nat| d < 16 && c == digit_char(d)
}

fn digit_of(d: u8) -> (c: char)
    requires
        d < 16,
    ensures
        c == digit_char(d as nat),
{
    if d < 10 {
        (48 + d) as char
    } else {
        (87 + d) as char
    }
}

/// Appends the decimal numeral of `n` to `out`.
pub fn push_decimal(out: &mut String, n: u128)
    ensures
        final(out)@ == old(out)@ + decimal_text(n as nat),
    decreases n,
{
    if n >= 10 {
        push_decimal(out, n / 10);
    }
    out.push(digit_of((n % 10) as u8));
}

/// The decimal numeral of `n`.
pub fn decimal_string(n: u128) -> (s: String)
    ensures
        s@ == decimal_text(n as nat),
{
    let mut s = String::new();
    push_decimal(&mut s, n);
    s
}

/// The hexadecimal form of bytes has two characters for each byte, and each
/// is one of `0`-`9`, `a`-`f`.
pub proof fn lemma_hex_text_is_hex(bytes: Seq<u8>)
    ensures
        hex_text(bytes).len() == 2 * bytes.len(),
        forall|i: int| 0 <= i < 2 * bytes.len() ==> is_hex_char(#[trigger] hex_text(bytes)[i]),
{
    assert forall|i: int| 0 <= i < 2 * bytes.len() implies is_hex_char(
        #[trigger] hex_text(bytes)[i],
    ) by {
        let d: nat = if i % 2 == 0 {
            (bytes[i / 2] / 16) as nat
        } else {
            (bytes[i / 2] % 16) as nat
        };
        assert(d < 16 && hex_text(bytes)[i] == digit_char(d));
    }
}

/// The lower-case hexadecimal form of `bytes`.
pub fn hex_string(bytes: &Vec<u8>) -> (s: String)
    ensures
        s@ == hex_text(bytes@),
{
    let mut s = String::new();
    let mut i: usize = 0;
    while i < bytes.len()
        invariant
            i <= bytes.len(),
            s@ == hex_text(bytes@.take(i as int)),
        decreases bytes.len() - i,
    {
        let b: u8 = bytes[i];
        s.push(digit_of(b / 16));
        s.push(digit_of(b % 16));
        i += 1;
    }
    assert(bytes@.take(i as int) == bytes@);
    s
}

/// Whether `c` is one of `0`-`9`.
pub open spec fn is_decimal_digit(c: char) -> bool {
    48 <= c as u32 <= 57
}

/// A text with its length before it: the decimal numeral of the number of
/// its characters, a colon, and the text. Where fields are written one after
/// the other in this form, each can be read back.
#[verifier::opaque]
pub open spec fn text_field(text: Seq<char>) -> Seq<char> {
    decimal_text(text.len()).push(':') + text
}

/// A decimal numeral has at least one character, and only digits.
pub proof fn lemma_decimal_text_is_digits(n: nat)
    ensures
        decimal_text(n).len() >= 1,
        n >= 10 ==> decimal_text(n).len() >= 2,
        forall|i: int| 0 <= i < decimal_text(n).len() ==> is_decimal_digit(#[trigger] decimal_text(n)[i]),
    decreases n,
{
    if n >= 10 {
        lemma_decimal_text_is_digits(n / 10);
    }
}

/// Two numbers with the same decimal numeral are the same.
pub proof fn lemma_decimal_text_is_one_to_one(a: nat, b: nat)
    requires
        decimal_text(a) == decimal_text(b),
    ensures
        a == b,
    decreases a,
{
    lemma_decimal_text_is_digits(a);
    lemma_decimal_text_is_digits(b);
    if a < 10 {
        assert(decimal_text(a)[0] == digit_char(a));
        if b < 10 {
            assert(decimal_text(b)[0] == digit_char(b));
        }
    } else {
        assert(b >= 10);
        assert(decimal_text(a).last() == digit_char(a % 10));
        assert(decimal_text(b).last() == digit_char(b % 10));
        assert(decimal_text(a).drop_last() == decimal_text(a / 10));
        assert(decimal_text(b).drop_last() == decimal_text(b / 10));
        lemma_decimal_text_is_one_to_one(a / 10, b / 10);
    }
}

/// Where two texts each begin with a numeral and a mark that is no digit,
/// and are the same, the numerals are of the same number and what follows
/// the marks is the same.
pub proof fn lemma_numeral_is_read_back(
    a: nat,
    after_a: Seq<char>,
    b: nat,
    after_b: Seq<char>,
    mark: char,
)
    requires
        !is_decimal_digit(mark),
        decimal_text(a).push(mark) + after_a == decimal_text(b).push(mark) + after_b,
    ensures
        a == b,
        after_a == after_b,
{
    let first = decimal_text(a).push(mark) + after_a;
    let second = decimal_text(b).push(mark) + after_b;
    let la = decimal_text(a).len() as int;
    let lb = decimal_text(b).len() as int;
    lemma_decimal_text_is_digits(a);
    lemma_decimal_text_is_digits(b);
    assert(first[la] == mark);
    assert(second[lb] == mark);
    if la < lb {
        assert(second[la] == decimal_text(b)[la]);
        assert(is_decimal_digit(decimal_text(b)[la]));
    } else if lb < la {
        assert(first[lb] == decimal_text(a)[lb]);
        assert(is_decimal_digit(decimal_text(a)[lb]));
    }
    assert(la == lb);
    assert(decimal_text(a) =~= decimal_text(b)) by {
        assert forall|i: int| 0 <= i < la implies decimal_text(a)[i] == decimal_text(b)[i] by {
            assert(first[i] == decimal_text(a)[i]);
            assert(second[i] == decimal_text(b)[i]);
        }
    }
    lemma_decimal_text_is_one_to_one(a, b);
    assert(after_a =~= after_b) by {
        assert(after_a.len() == after_b.len()) by {
            assert(first.len() == la + 1 + after_a.len());
            assert(second.len() == lb + 1 + after_b.len());
        }
        assert forall|i: int| 0 <= i < after_a.len() implies after_a[i] == after_b[i] by {
            assert(first[la + 1 + i] == after_a[i]);
            assert(second[lb + 1 + i] == after_b[i]);
        }
    }
}

/// Where two texts each begin with a field, and are the same, the fields
/// hold the same text and what follows them is the same.
pub proof fn lemma_field_is_read_back(
    a: Seq<char>,
    after_a: Seq<char>,
    b: Seq<char>,
    after_b: Seq<char>,
)
    requires
        text_field(a) + after_a == text_field(b) + after_b,
    ensures
        a == b,
        after_a == after_b,
{
    reveal(text_field);
    assert(text_field(a) + after_a =~= decimal_text(a.len()).push(':') + (a + after_a));
    assert(text_field(b) + after_b =~= decimal_text(b.len()).push(':') + (b + after_b));
    lemma_numeral_is_read_back(a.len(), a + after_a, b.len(), b + after_b, ':');
    let joined_a = a + after_a;
    let joined_b = b + after_b;
    assert(a =~= b) by {
        assert forall|i: int| 0 <= i < a.len() implies a[i] == b[i] by {
            assert(joined_a[i] == a[i]);
            assert(joined_b[i] == b[i]);
        }
    }
    assert(after_a =~= after_b) by {
        assert(joined_a.len() == joined_b.len());
        assert forall|i: int| 0 <= i < after_a.len() implies after_a[i] == after_b[i] by {
            assert(joined_a[a.len() + i] == after_a[i]);
            assert(joined_b[b.len() + i] == after_b[i]);
        }
    }
}

/// Appends a text to `out` with its length before it.
pub fn push_field(out: &mut String, text: &str)
    ensures
        final(out)@ == old(out)@ + text_field(text@),
{
    push_decimal(out, text.unicode_len() as u128);
    out.push(':');
    out.append(text);
    proof {
        reveal(text_field);
        assert(out@ =~= old(out)@ + text_field(text@));
    }
}

} // verus!

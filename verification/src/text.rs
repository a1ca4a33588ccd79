//! Building and inspecting strings: the few operations on `String` and `str`
//! that the rest of the library needs.

use vstd::prelude::*;

verus! {

/// `String::push` appends the one character to the end of the string.
pub assume_specification[ String::push ](s: &mut String, ch: char)
    ensures
        final(s)@ == old(s)@.push(ch),
;

/// Calls `str::starts_with` with a string pattern: true exactly when
/// `prefix` is a prefix of `text`.
#[verifier::external_body]
pub(crate) fn has_prefix(text: &str, prefix: &str) -> (found: bool)
    ensures
        found == prefix@.is_prefix_of(text@),
{
    text.starts_with(prefix)
}

/// Compares two string slices with `==` of `str`: true exactly when they
/// hold the same characters.
#[verifier::external_body]
pub(crate) fn same_text(a: &str, b: &str) -> (same: bool)
    ensures
        same == (a@ == b@),
{
    a == b
}

/// The character of the decimal digit `d`.
pub open spec fn digit_char(d: int) -> char {
    (48 + d) as char
}

/// Whether `c` is one of the ten decimal digits.
pub open spec fn is_digit(c: char) -> bool {
    '0' <= c && c <= '9'
}

/// The digits of `n`, most significant first; none for zero.
pub open spec fn digits(n: nat) -> Seq<char>
    decreases n,
{
    if n == 0 {
        Seq::empty()
    } else {
        digits(n / 10).push(digit_char((n % 10) as int))
    }
}

/// `n` written in decimal, without a sign or leading zeros.
pub open spec fn decimal(n: nat) -> Seq<char> {
    if n == 0 {
        seq!['0']
    } else {
        digits(n)
    }
}

/// `count` zeros.
pub open spec fn zeros(count: nat) -> Seq<char> {
    Seq::new(count, |i: int| '0')
}

/// `n` written in decimal and filled up with zeros on the left to `width`
/// characters; a longer number is left as it is.
pub open spec fn padded(n: nat, width: nat) -> Seq<char> {
    let text = decimal(n);
    if text.len() >= width {
        text
    } else {
        zeros((width - text.len()) as nat) + text
    }
}

/// The number that a run of decimal digits stands for.
pub open spec fn digits_value(text: Seq<char>) -> nat
    decreases text.len(),
{
    if text.len() == 0 {
        0
    } else {
        (digits_value(text.drop_last()) * 10 + (text.last() as int - 48)) as nat
    }
}

/// Whether every character of `text` is a decimal digit.
pub open spec fn all_digits(text: Seq<char>) -> bool {
    forall|i: int| 0 <= i < text.len() ==> is_digit(#[trigger] text[i])
}

/// What is left of `text` without one leading `+`.
pub open spec fn unsigned_part(text: Seq<char>) -> Seq<char> {
    if text.len() > 0 && text[0] == '+' {
        text.drop_first()
    } else {
        text
    }
}

/// The number that `text` stands for as an unsigned 64-bit decimal: an
/// optional `+`, then one or more digits, the value no greater than
/// 18446744073709551615. Anything else stands for no number.
pub open spec fn parsed_u64(text: Seq<char>) -> Option<u64> {
    let body = unsigned_part(text);
    if body.len() > 0 && all_digits(body) && digits_value(body) <= u64::MAX {
        Some(digits_value(body) as u64)
    } else {
        None
    }
}

/// The digits of a number are digits, as many as are needed and no more than
/// twenty for a 64-bit number, and stand for that number.
pub proof fn lemma_digits(n: nat)
    ensures
        all_digits(digits(n)),
        digits_value(digits(n)) == n,
        n > 0 ==> digits(n).len() > 0,
        n <= u64::MAX ==> digits(n).len() <= 20,
    decreases n,
{
    if n > 0 {
        lemma_digits(n / 10);
        let d = digits(n);
        assert(d.drop_last() == digits(n / 10));
        assert(d.last() == digit_char((n % 10) as int));
        lemma_digits_len(n);
    }
}

/// A 64-bit number has at most twenty digits.
proof fn lemma_digits_len(n: nat)
    ensures
        n <= u64::MAX ==> digits(n).len() <= 20,
{
    if n <= u64::MAX {
        assert(pow10(20) == 100_000_000_000_000_000_000) by {
            reveal_with_fuel(pow10, 21);
        }
        lemma_digits_len_below(n, 20);
    }
}

/// Ten to the power `e`.
pub open spec fn pow10(e: nat) -> nat
    decreases e,
{
    if e == 0 {
        1
    } else {
        10 * pow10((e - 1) as nat)
    }
}

/// A number below `10^e` has at most `e` digits.
proof fn lemma_digits_len_below(n: nat, e: nat)
    requires
        n < pow10(e),
    ensures
        digits(n).len() <= e,
    decreases e,
{
    if n > 0 {
        if e == 0 {
            assert(pow10(0) == 1);
        } else {
            assert(n / 10 < pow10((e - 1) as nat));
            lemma_digits_len_below(n / 10, (e - 1) as nat);
        }
    }
}

/// Zeros in front of a run of digits do not change its value.
pub proof fn lemma_leading_zeros(count: nat, text: Seq<char>)
    ensures
        digits_value(zeros(count) + text) == digits_value(text),
        all_digits(text) ==> all_digits(zeros(count) + text),
    decreases text.len(),
{
    let whole = zeros(count) + text;
    if text.len() == 0 {
        assert(whole == zeros(count));
        lemma_zeros_value(count);
    } else {
        assert(whole.drop_last() == zeros(count) + text.drop_last());
        lemma_leading_zeros(count, text.drop_last());
    }
}

/// A run of zeros stands for zero.
proof fn lemma_zeros_value(count: nat)
    ensures
        digits_value(zeros(count)) == 0,
    decreases count,
{
    if count > 0 {
        assert(zeros(count).drop_last() == zeros((count - 1) as nat));
        lemma_zeros_value((count - 1) as nat);
    }
}

/// A padded number is made of digits only and stands for the number.
pub proof fn lemma_padded(n: nat, width: nat)
    ensures
        all_digits(padded(n, width)),
        digits_value(padded(n, width)) == n,
        padded(n, width).len() >= width,
        padded(n, width).len() >= 1,
{
    lemma_digits(n);
    let text = decimal(n);
    assert(all_digits(text));
    assert(digits_value(text) == n) by {
        if n == 0 {
            assert(text.drop_last() == Seq::<char>::empty());
        }
    }
    if text.len() < width {
        lemma_leading_zeros((width - text.len()) as nat, text);
    }
}

/// Two numbers whose padded forms agree are the same number.
pub proof fn lemma_padded_injective(a: nat, b: nat, width: nat)
    requires
        padded(a, width) == padded(b, width),
    ensures
        a == b,
{
    lemma_padded(a, width);
    lemma_padded(b, width);
}

/// Reading back a padded 64-bit number gives the number.
pub proof fn lemma_parse_padded(n: u64, width: nat)
    ensures
        parsed_u64(padded(n as nat, width)) == Some(n),
{
    lemma_padded(n as nat, width);
    let text = padded(n as nat, width);
    assert(is_digit(text[0]));
}

/// The value of a run of digits is no smaller than that of any of its
/// beginnings.
proof fn lemma_value_grows(text: Seq<char>, upto: int)
    requires
        all_digits(text),
        0 <= upto <= text.len(),
    ensures
        digits_value(text.take(upto)) <= digits_value(text),
    decreases text.len(),
{
    if upto == text.len() {
        assert(text.take(upto) == text);
    } else {
        let front = text.drop_last();
        assert(front.take(upto) == text.take(upto));
        assert(all_digits(front)) by {
            assert forall|i: int| 0 <= i < front.len() implies is_digit(#[trigger] front[i]) by {
                assert(front[i] == text[i]);
            }
        }
        lemma_value_grows(front, upto);
        assert(is_digit(text[text.len() - 1]));
    }
}

/// The character of the decimal digit `d`.
fn digit_of(d: u8) -> (c: char)
    requires
        d < 10,
    ensures
        c == digit_char(d as int),
        is_digit(c),
{
    (48 + d) as char
}

/// Appends `n` in decimal to `out`, filled up with zeros on the left to
/// `width` characters.
pub fn push_padded(out: &mut String, n: u64, width: usize)
    ensures
        final(out)@ == old(out)@ + padded(n as nat, width as nat),
{
    let ghost before = out@;
    let mut rev: Vec<char> = Vec::new();
    let mut rest = n;
    while rest > 0
        invariant
            digits(n as nat) == digits(rest as nat) + rev@.reverse(),
        decreases rest,
    {
        let c = digit_of((rest % 10) as u8);
        proof {
            let grown = rev@.push(c);
            assert(grown.reverse() == seq![c] + rev@.reverse());
            assert(digits((rest / 10) as nat) + grown.reverse() == digits((rest / 10) as nat).push(
                c,
            ) + rev@.reverse());
        }
        rev.push(c);
        rest = rest / 10;
    }
    if rev.len() == 0 {
        rev.push('0');
    }
    proof {
        assert(digits(0) + rev@.reverse() == rev@.reverse());
        lemma_digits(n as nat);
        assert(rev@.reverse() == decimal(n as nat)) by {
            if n == 0 {
                assert(rev@ == seq!['0']);
            }
        }
    }
    let count = rev.len();
    let mut filled = count;
    while filled < width
        invariant
            count <= filled,
            count < width ==> filled <= width,
            count >= width ==> filled == count,
            out@ == before + zeros((filled - count) as nat),
        decreases width - filled,
    {
        out.push('0');
        filled += 1;
        proof {
            assert(zeros((filled - 1 - count) as nat).push('0') == zeros((filled - count) as nat));
        }
    }
    let ghost pad = out@;
    let mut i = count;
    while i > 0
        invariant
            i <= count,
            count == rev@.len(),
            out@ == pad + rev@.reverse().take(count - i),
        decreases i,
    {
        i -= 1;
        out.push(rev[i]);
        proof {
            let text = rev@.reverse();
            assert(text.take(count - i - 1).push(rev@[i as int]) == text.take(count - i));
        }
    }
    proof {
        let text = rev@.reverse();
        assert(text.take(count as int) == text);
        if count >= width {
            assert(zeros(0) == Seq::<char>::empty());
            assert(pad == before);
        } else {
            assert(before + zeros((width - count) as nat) + text == before + (zeros(
                (width - count) as nat,
            ) + text));
        }
    }
}

/// Reads `text` as an unsigned 64-bit decimal number.
pub fn parse_u64(text: &str) -> (value: Option<u64>)
    ensures
        value == parsed_u64(text@),
{
    let ghost body = unsigned_part(text@);
    if !text.is_ascii() {
        proof {
            let at = choose|i: int|
                0 <= i < text@.len() && !('\0' <= #[trigger] text@[i] <= '\u{7f}');
            if text@[0] == '+' {
                assert(body[at - 1] == text@[at]);
                assert(!is_digit(body[at - 1]));
            } else {
                assert(!is_digit(body[at]));
            }
        }
        return None;
    }
    let bytes = text.as_bytes();
    proof {
        vstd::string::is_ascii_spec_bytes(text);
    }
    let total = bytes.len();
    let first: usize = if total > 0 && bytes[0] == 43 {
        1
    } else {
        0
    };
    if first == total {
        return None;
    }
    let mut i = first;
    let mut acc: u64 = 0;
    while i < total
        invariant
            first <= i <= total,
            total == text@.len(),
            body == unsigned_part(text@),
            bytes@ == Seq::new(text@.len(), |k: int| text@[k] as u8),
            vstd::utf8::is_ascii_chars(text@),
            body.len() == total - first,
            forall|k: int| 0 <= k < body.len() ==> body[k] == text@[k + first],
            all_digits(body.take(i - first)),
            acc == digits_value(body.take(i - first)),
        decreases total - i,
    {
        let b = bytes[i];
        proof {
            assert(b == text@[i as int] as u8);
            assert(body[i - first] == text@[i as int]);
            assert(text@[i as int] as nat <= 127);
        }
        if b < 48 || b > 57 {
            proof {
                assert(!is_digit(body[i - first]));
            }
            return None;
        }
        let d = (b - 48) as u64;
        proof {
            let grown = body.take(i - first + 1);
            assert(grown.drop_last() == body.take(i - first));
            assert(grown.last() == body[i - first]);
            assert(all_digits(grown)) by {
                assert forall|k: int| 0 <= k < grown.len() implies is_digit(#[trigger] grown[k]) by {
                    if k < i - first {
                        assert(grown[k] == body.take(i - first)[k]);
                    }
                }
            }
            assert(digits_value(grown) == acc * 10 + d);
            if all_digits(body) {
                lemma_value_grows(body, i - first + 1);
            }
        }
        if acc > (u64::MAX - d) / 10 {
            return None;
        }
        acc = acc * 10 + d;
        i += 1;
    }
    proof {
        assert(body.take(total - first) == body);
    }
    Some(acc)
}

} // verus!

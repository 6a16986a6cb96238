//! Building text out of numbers, padding and lists.
//!
//! Everything the runtime prints goes through here, so that what a listing or a report says can be
//! stated as a sequence of characters.

use vstd::prelude::*;

verus! {

/// `String::push` appends one character.
pub assume_specification[ std::string::String::push ](text: &mut std::string::String, ch: char)
    ensures
        final(text)@ == old(text)@.push(ch),
;

/// The character for one decimal digit.
pub open spec fn digit(d: nat) -> char {
    ('0' as int + d) as char
}

/// A natural number in decimal, with no leading zeros.
pub open spec fn decimal(n: nat) -> Seq<char>
    decreases n,
{
    if n < 10 {
        seq![digit(n)]
    } else {
        decimal(n / 10).push(digit(n % 10))
    }
}

/// An integer in decimal, with a minus sign when it is negative.
pub open spec fn signed(i: int) -> Seq<char> {
    if i < 0 {
        seq!['-'] + decimal((-i) as nat)
    } else {
        decimal(i as nat)
    }
}

/// How a truth value is written.
pub open spec fn truth(b: bool) -> Seq<char> {
    if b {
        "true"@
    } else {
        "false"@
    }
}

/// `count` spaces.
pub open spec fn spaces(count: int) -> Seq<char> {
    Seq::new(
        if count > 0 {
            count as nat
        } else {
            0
        },
        |i: int| ' ',
    )
}

/// `text` with spaces in front of it, as wide as `width` when it is shorter.
pub open spec fn right_aligned(text: Seq<char>, width: nat) -> Seq<char> {
    spaces(width - text.len()) + text
}

/// `text` with spaces behind it, as wide as `width` when it is shorter.
pub open spec fn left_aligned(text: Seq<char>, width: nat) -> Seq<char> {
    text + spaces(width - text.len())
}

/// The character for one hexadecimal digit.
pub open spec fn hex_digit(d: nat) -> char {
    if d < 10 {
        digit(d)
    } else {
        ('a' as int + d - 10) as char
    }
}

/// A natural number in hexadecimal, with no leading zeros.
pub open spec fn hexadecimal(n: nat) -> Seq<char>
    decreases n,
{
    if n < 16 {
        seq![hex_digit(n)]
    } else {
        hexadecimal(n / 16).push(hex_digit(n % 16))
    }
}

fn push_digit(out: &mut String, d: u64)
    requires
        d < 10,
    ensures
        final(out)@ == old(out)@.push(digit(d as nat)),
{
    let code: u8 = 48 + d as u8;
    out.push(code as char);
}

/// Append a number in decimal.
pub fn push_decimal(out: &mut String, n: u64)
    ensures
        final(out)@ == old(out)@ + decimal(n as nat),
    decreases n,
{
    let ghost before = out@;
    if n < 10 {
        push_digit(out, n);
        assert(out@ =~= before + decimal(n as nat));
    } else {
        push_decimal(out, n / 10);
        push_digit(out, n % 10);
        assert(out@ =~= before + decimal(n as nat));
    }
}

/// Append one hexadecimal digit.
pub fn push_hex_digit(out: &mut String, d: u64)
    requires
        d < 16,
    ensures
        final(out)@ == old(out)@.push(hex_digit(d as nat)),
{
    if d < 10 {
        push_digit(out, d);
    } else {
        let code: u8 = 87 + d as u8;
        out.push(code as char);
    }
}

/// Append a number in hexadecimal.
pub fn push_hexadecimal(out: &mut String, n: u64)
    ensures
        final(out)@ == old(out)@ + hexadecimal(n as nat),
    decreases n,
{
    let ghost before = out@;
    if n < 16 {
        push_hex_digit(out, n);
        assert(out@ =~= before + hexadecimal(n as nat));
    } else {
        push_hexadecimal(out, n / 16);
        push_hex_digit(out, n % 16);
        assert(out@ =~= before + hexadecimal(n as nat));
    }
}

/// A number below 10000 hexadecimal as four hexadecimal digits.
pub open spec fn four_digits(unit: u16) -> Seq<char> {
    seq![
        hex_digit((unit / 4096) as nat),
        hex_digit((unit / 256 % 16) as nat),
        hex_digit((unit / 16 % 16) as nat),
        hex_digit((unit % 16) as nat),
    ]
}

/// Append a number as four hexadecimal digits.
pub fn push_four_digits(out: &mut String, unit: u16)
    ensures
        final(out)@ == old(out)@ + four_digits(unit),
{
    let ghost before = out@;
    push_hex_digit(out, (unit / 4096) as u64);
    push_hex_digit(out, (unit / 256 % 16) as u64);
    push_hex_digit(out, (unit / 16 % 16) as u64);
    push_hex_digit(out, (unit % 16) as u64);
    assert(out@ =~= before + four_digits(unit));
}

/// Append an integer in decimal.
pub fn push_signed(out: &mut String, i: i64)
    ensures
        final(out)@ == old(out)@ + signed(i as int),
{
    let ghost before = out@;
    if i < 0 {
        out.push('-');
        let magnitude: u64 = (-(i as i128)) as u64;
        push_decimal(out, magnitude);
        assert(out@ =~= before + signed(i as int));
    } else {
        push_decimal(out, i as u64);
    }
}

/// Append `true` or `false`.
pub fn push_truth(out: &mut String, b: bool)
    ensures
        final(out)@ == old(out)@ + truth(b),
{
    if b {
        out.append("true");
    } else {
        out.append("false");
    }
}

/// Append spaces.
pub fn push_spaces(out: &mut String, count: usize)
    ensures
        final(out)@ == old(out)@ + spaces(count as int),
{
    let ghost before = out@;
    let mut done: usize = 0;
    assert(out@ =~= before + spaces(0));
    while done < count
        invariant
            done <= count,
            out@ == before + spaces(done as int),
        decreases count - done,
    {
        out.push(' ');
        done = done + 1;
        assert(out@ =~= before + spaces(done as int));
    }
}

/// Append `text` right aligned in a column.
pub fn push_right_aligned(out: &mut String, text: &str, width: usize)
    ensures
        final(out)@ == old(out)@ + right_aligned(text@, width as nat),
{
    let ghost before = out@;
    let len: usize = text.unicode_len();
    if len < width {
        push_spaces(out, width - len);
    }
    out.append(text);
    assert(out@ =~= before + right_aligned(text@, width as nat));
}

/// Append `text` left aligned in a column.
pub fn push_left_aligned(out: &mut String, text: &str, width: usize)
    ensures
        final(out)@ == old(out)@ + left_aligned(text@, width as nat),
{
    let ghost before = out@;
    let len: usize = text.unicode_len();
    out.append(text);
    if len < width {
        push_spaces(out, width - len);
    }
    assert(out@ =~= before + left_aligned(text@, width as nat));
}

/// A number in decimal.
pub fn decimal_string(n: u64) -> (text: String)
    ensures
        text@ == decimal(n as nat),
{
    let mut text = String::new();
    push_decimal(&mut text, n);
    assert(text@ =~= decimal(n as nat));
    text
}

/// Whether a character is a decimal digit.
pub open spec fn is_digit(c: char) -> bool {
    '0' as int <= c as int <= '9' as int
}

/// The number some digits stand for.
pub open spec fn digits_value(text: Seq<char>) -> nat
    decreases text.len(),
{
    if text.len() == 0 {
        0
    } else {
        10 * digits_value(text.drop_last()) + (text.last() as int - '0' as int) as nat
    }
}

/// Whether some text is a number in decimal with no leading zero.
pub open spec fn is_decimal(text: Seq<char>) -> bool {
    &&& text.len() > 0
    &&& forall|i: int| 0 <= i < text.len() ==> is_digit(#[trigger] text[i])
    &&& text.len() > 1 ==> text[0] != '0'
}

/// A number in decimal is decimal text that stands for the number.
pub proof fn lemma_decimal_reads_back(n: nat)
    ensures
        is_decimal(decimal(n)),
        digits_value(decimal(n)) == n,
        n > 0 ==> decimal(n)[0] != '0',
    decreases n,
{
    let text = decimal(n);
    if n < 10 {
        assert(text.drop_last() =~= Seq::<char>::empty());
        assert(text.last() == digit(n));
        assert(digits_value(text.drop_last()) == 0);
    } else {
        lemma_decimal_reads_back(n / 10);
        let front = decimal(n / 10);
        assert(text.drop_last() =~= front);
        assert(text.last() == digit(n % 10));
        assert(digits_value(text) == 10 * digits_value(front) + n % 10);
        assert forall|i: int| 0 <= i < text.len() implies is_digit(#[trigger] text[i]) by {
            if i < front.len() {
                assert(text[i] == front[i]);
            }
        }
        assert(text[0] == front[0]);
    }
}

/// Decimal text is how the number it stands for is written.
pub proof fn lemma_decimal_text_is_its_number(text: Seq<char>)
    requires
        is_decimal(text),
    ensures
        decimal(digits_value(text)) == text,
        text.len() > 1 ==> digits_value(text) >= 10,
    decreases text.len(),
{
    let last = text.last();
    assert(last == text[text.len() - 1]);
    if text.len() == 1 {
        assert(digits_value(text.drop_last()) == 0);
        lemma_char_is_its_number(last, '0' as int + (last as int - '0' as int));
        assert(decimal(digits_value(text)) =~= text);
    } else {
        let front = text.drop_last();
        assert(front[0] == text[0]);
        assert forall|i: int| 0 <= i < front.len() implies is_digit(#[trigger] front[i]) by {
            assert(front[i] == text[i]);
        }
        lemma_decimal_text_is_its_number(front);
        if front.len() == 1 {
            assert(front.drop_last() =~= Seq::<char>::empty());
            assert(digits_value(front.drop_last()) == 0);
            assert(front.last() == front[0]);
            assert(digits_value(front) == front[0] as int - '0' as int);
            lemma_char_is_its_number(front[0], front[0] as int);
        }
        lemma_char_is_its_number(last, '0' as int + (last as int - '0' as int));
        assert(decimal(digits_value(text)) =~= front.push(last));
        assert(front.push(last) =~= text);
    }
}

proof fn lemma_char_is_its_number(c: char, number: int)
    requires
        c as int == number,
    ensures
        number as char == c,
{
}

/// Two numbers in decimal are the same text only if they are the same number.
pub proof fn law_decimal_is_one_to_one(left: nat, right: nat)
    ensures
        decimal(left) == decimal(right) <==> left == right,
{
    lemma_decimal_reads_back(left);
    lemma_decimal_reads_back(right);
}

/// What follows text that is the same is the same, and so is what comes before it.
pub proof fn lemma_ends_agree(front: Seq<char>, left: Seq<char>, right: Seq<char>)
    ensures
        front + left == front + right ==> left == right,
        left + front == right + front ==> left == right,
{
    if front + left == front + right {
        assert((front + left).skip(front.len() as int) =~= left);
        assert((front + right).skip(front.len() as int) =~= right);
    }
    if left + front == right + front {
        assert(left.len() + front.len() == (left + front).len());
        assert(right.len() + front.len() == (right + front).len());
        assert((left + front).take(left.len() as int) =~= left);
        assert((right + front).take(left.len() as int) =~= right);
    }
}

/// Two integers in decimal are the same text only if they are the same integer, and the text starts
/// with a minus sign or a digit.
pub proof fn law_signed_is_one_to_one(left: int, right: int)
    ensures
        signed(left) == signed(right) <==> left == right,
        signed(left).len() > 0,
        signed(left)[0] == '-' || is_digit(signed(left)[0]),
{
    let m: nat = if left < 0 {
        (-left) as nat
    } else {
        left as nat
    };
    let n: nat = if right < 0 {
        (-right) as nat
    } else {
        right as nat
    };
    lemma_decimal_reads_back(m);
    lemma_decimal_reads_back(n);
    law_decimal_is_one_to_one(m, n);
    lemma_ends_agree(seq!['-'], decimal(m), decimal(n));
    if left < 0 {
        assert(signed(left)[0] == '-');
    }
    if right < 0 {
        assert(signed(right)[0] == '-');
    }
    assert(is_digit(decimal(m)[0]));
    assert(is_digit(decimal(n)[0]));
}

/// Two numbers in hexadecimal are the same text only if they are the same number.
pub proof fn law_hexadecimal_is_one_to_one(left: nat, right: nat)
    ensures
        hexadecimal(left) == hexadecimal(right) <==> left == right,
        hexadecimal(left).len() > 0,
    decreases left,
{
    if left >= 16 {
        law_hexadecimal_is_one_to_one(left / 16, right / 16);
    }
    if right >= 16 {
        lemma_hexadecimal_is_not_empty(right / 16);
    }
    if hexadecimal(left) == hexadecimal(right) {
        assert(hexadecimal(left).last() == hex_digit(left % 16));
        assert(hexadecimal(right).last() == hex_digit(right % 16));
        if left >= 16 && right >= 16 {
            assert(hexadecimal(left).drop_last() =~= hexadecimal(left / 16));
            assert(hexadecimal(right).drop_last() =~= hexadecimal(right / 16));
        }
    }
}

proof fn lemma_hexadecimal_is_not_empty(n: nat)
    ensures
        hexadecimal(n).len() > 0,
    decreases n,
{
    if n >= 16 {
        lemma_hexadecimal_is_not_empty(n / 16);
    }
}

/// The number decimal text stands for, when it is decimal and no larger than `limit`.
pub fn parse_decimal(text: &str, limit: u64) -> (number: Option<u64>)
    requires
        limit < 1000000000000,
    ensures
        number is Some <==> is_decimal(text@) && digits_value(text@) <= limit,
        number matches Some(found) ==> found == digits_value(text@),
{
    let len: usize = text.unicode_len();
    if len == 0 {
        return None;
    }
    let mut value: u64 = 0;
    let mut at: usize = 0;
    assert(text@.take(0) =~= Seq::<char>::empty());
    for c in it: text.chars()
        invariant
            it.seq() == text@,
            at == it.index(),
            at <= len,
            len == text@.len(),
            limit < 1000000000000,
            value == digits_value(text@.take(at as int)),
            value <= limit,
            forall|i: int| 0 <= i < at ==> is_digit(#[trigger] text@[i]),
            at > 0 && len > 1 ==> text@[0] != '0',
    {
        assert(c == text@[at as int]);
        proof {
            let next = text@.take(at + 1);
            assert(next.drop_last() =~= text@.take(at as int));
            assert(next.last() == c);
        }
        if c < '0' || c > '9' {
            assert(!is_digit(text@[at as int]));
            return None;
        }
        if at == 0 && len > 1 && c == '0' {
            return None;
        }
        let d: u64 = (c as u32 - 48) as u64;
        value = value * 10 + d;
        if value > limit {
            proof {
                lemma_more_digits_are_larger(text@, at + 1);
            }
            return None;
        }
        at = at + 1;
    }
    assert(text@.take(text@.len() as int) =~= text@);
    Some(value)
}

/// More digits never stand for less.
proof fn lemma_more_digits_are_larger(text: Seq<char>, count: int)
    requires
        0 <= count <= text.len(),
    ensures
        digits_value(text.take(count)) <= digits_value(text),
    decreases text.len() - count,
{
    if count == text.len() {
        assert(text.take(count) =~= text);
    } else {
        let next = text.take(count + 1);
        assert(next.drop_last() =~= text.take(count));
        lemma_more_digits_are_larger(text, count + 1);
    }
}

/// Whether two pieces of text are the same.
pub fn same_text(left: &str, right: &str) -> (same: bool)
    ensures
        same == (left@ == right@),
{
    let left = left.to_owned();
    let right = right.to_owned();
    left == right
}

/// A number is written most significant digit first: its last digit is what is left over from tens,
/// and what stands in front of that is the number of tens, for as long as there are any. A negative
/// integer is its magnitude behind a minus sign, and the truth values are `true` and `false`.
pub proof fn law_a_number_is_written_in_tens(n: nat, i: int)
    ensures
        decimal(n).len() == 1 <==> n < 10,
        decimal(n).last() as int == 48 + n % 10,
        n >= 10 ==> decimal(n).drop_last() == decimal(n / 10),
        i >= 0 ==> signed(i) == decimal(i as nat),
        i < 0 ==> signed(i).len() == decimal((-i) as nat).len() + 1 && signed(i)[0] as int == 45
            && signed(i).skip(1) == decimal((-i) as nat),
        truth(true) == "true"@,
        truth(false) == "false"@,
{
    if n >= 10 {
        lemma_decimal_reads_back(n / 10);
        assert(decimal(n).drop_last() =~= decimal(n / 10));
    }
    if i < 0 {
        assert(signed(i).skip(1) =~= decimal((-i) as nat));
    }
}

/// A number in hexadecimal is written in sixteens, with the digits above nine in lower case.
pub proof fn law_a_number_is_written_in_sixteens(n: nat)
    ensures
        hexadecimal(n).len() == 1 <==> n < 16,
        hexadecimal(n).last() as int == if n % 16 < 10 {
            48 + n % 16
        } else {
            87 + n % 16
        },
        n >= 16 ==> hexadecimal(n).drop_last() == hexadecimal(n / 16),
{
    if n >= 16 {
        lemma_hexadecimal_is_not_empty(n / 16);
        assert(hexadecimal(n).drop_last() =~= hexadecimal(n / 16));
    }
}

/// Padding puts spaces in front of text or behind it, and only as many as the width is short.
pub proof fn law_padding_fills_up_to_the_width(text: Seq<char>, width: nat, i: int)
    ensures
        text.len() >= width ==> right_aligned(text, width) == text && left_aligned(text, width)
            == text,
        text.len() < width ==> right_aligned(text, width).len() == width && left_aligned(
            text,
            width,
        ).len() == width,
        text.len() < width && 0 <= i < text.len() ==> right_aligned(text, width)[width - text.len()
            + i] == text[i] && left_aligned(text, width)[i] == text[i],
        text.len() < width && 0 <= i < width - text.len() ==> right_aligned(text, width)[i] as int
            == 32 && left_aligned(text, width)[text.len() + i] as int == 32,
{
    if text.len() >= width {
        assert(right_aligned(text, width) =~= text);
        assert(left_aligned(text, width) =~= text);
    }
}

/// Four digits hold sixteen bits, four bits each, the highest first.
pub proof fn law_four_digits_hold_sixteen_bits(unit: u16)
    ensures
        four_digits(unit).len() == 4,
        four_digits(unit)[0] == hex_digit((unit as int / 4096) as nat),
        four_digits(unit)[1] == hex_digit((unit as int / 256 % 16) as nat),
        four_digits(unit)[2] == hex_digit((unit as int / 16 % 16) as nat),
        four_digits(unit)[3] == hex_digit((unit as int % 16) as nat),
        forall|d: nat| d < 10 ==> (#[trigger] hex_digit(d)) as int == 48 + d,
        forall|d: nat| 10 <= d < 16 ==> (#[trigger] hex_digit(d)) as int == 87 + d,
{
}

} // verus!

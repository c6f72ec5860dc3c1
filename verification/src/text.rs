//! Text in the forms that the tools of this crate print and read: hexadecimal,
//! decimal, right-aligned columns, and decimal numbers typed by a user.

use vstd::prelude::*;

verus! {

/// The character of a digit below sixteen, in lower case.
pub open spec fn digit_char(digit: int) -> char {
    "0123456789abcdef"@[digit]
}

/// Two lower-case hexadecimal digits for every byte, the high half first.
pub open spec fn hex_text(bytes: Seq<u8>) -> Seq<char> {
    Seq::new(
        2 * bytes.len(),
        |i: int|
            digit_char(
                if i % 2 == 0 {
                    bytes[i / 2] as int / 16
                } else {
                    bytes[i / 2] as int % 16
                },
            ),
    )
}

/// The decimal digits of `n`, without leading zeros.
pub open spec fn decimal_text(n: nat) -> Seq<char>
    decreases n,
{
    if n < 10 {
        seq![digit_char(n as int)]
    } else {
        decimal_text(n / 10).push(digit_char(n as int % 10))
    }
}

/// A whole number in decimal, behind a minus sign if it is negative.
pub open spec fn signed_text(n: int) -> Seq<char> {
    if n < 0 {
        "-"@ + decimal_text((-n) as nat)
    } else {
        decimal_text(n as nat)
    }
}

/// `text` moved to the right end of a column of `width` characters.
pub open spec fn pad_text(text: Seq<char>, width: nat) -> Seq<char> {
    let blanks: nat = if text.len() < width {
        (width - text.len()) as nat
    } else {
        0
    };
    Seq::new(blanks, |i: int| ' ') + text
}

/// Whether `c` is one of the ten decimal digits.
pub open spec fn is_decimal_digit(c: char) -> bool {
    '0' <= c <= '9'
}

/// The number whose decimal digits are `digits`, the most significant first.
pub open spec fn decimal_value(digits: Seq<char>) -> nat
    decreases digits.len(),
{
    if digits.len() == 0 {
        0
    } else {
        decimal_value(digits.drop_last()) * 10 + (digits.last() as nat - '0' as nat) as nat
    }
}

/// What is left of a typed number behind its optional plus sign.
pub open spec fn unsigned_part(text: Seq<char>) -> Seq<char> {
    if text.len() > 0 && text[0] == '+' {
        text.skip(1)
    } else {
        text
    }
}

/// Whether `text` is made of decimal digits, at least one of them.
pub open spec fn is_decimal(text: Seq<char>) -> bool {
    text.len() > 0 && forall|i: int|
        0 <= i < text.len() ==> is_decimal_digit(#[trigger] text[i])
}

/// A number of 32 bits as a user types it: decimal digits behind an optional
/// plus sign.
pub open spec fn parsed_u32(text: Seq<char>) -> Option<u32> {
    let digits = unsigned_part(text);
    if is_decimal(digits) && decimal_value(digits) <= u32::MAX {
        Some(decimal_value(digits) as u32)
    } else {
        None
    }
}

/// What the lines of a print say.
pub open spec fn texts(lines: Seq<String>) -> Seq<Seq<char>> {
    Seq::new(lines.len(), |i: int| lines[i]@)
}

/// Puts a line behind `lines`.
pub fn push_line(lines: &mut Vec<String>, line: String)
    ensures
        texts(final(lines)@) == texts(old(lines)@).push(line@),
{
    lines.push(line);
    assert(texts(lines@) =~= texts(old(lines)@).push(line@));
}

fn append_digit(out: &mut String, digit: u8)
    requires
        digit < 16,
    ensures
        final(out)@ == old(out)@.push(digit_char(digit as int)),
{
    proof {
        reveal_strlit("0123456789abcdef");
    }
    let at: usize = digit as usize;
    out.append("0123456789abcdef".substring_char(at, at + 1));
}

/// `bytes` as lower-case hexadecimal, two digits to the byte.
pub fn hex(bytes: &[u8]) -> (text: String)
    ensures
        text@ == hex_text(bytes@),
{
    let mut text = String::new();
    let mut i: usize = 0;
    while i < bytes.len()
        invariant
            i <= bytes@.len(),
            text@ == hex_text(bytes@.take(i as int)),
        decreases bytes@.len() - i,
    {
        let byte: u8 = bytes[i];
        append_digit(&mut text, byte / 16);
        append_digit(&mut text, byte % 16);
        i += 1;
        assert(text@ =~= hex_text(bytes@.take(i as int)));
    }
    assert(bytes@.take(i as int) =~= bytes@);
    text
}

/// `n` in decimal.
pub fn decimal(n: u64) -> (text: String)
    ensures
        text@ == decimal_text(n as nat),
    decreases n,
{
    if n < 10 {
        let mut text = String::new();
        append_digit(&mut text, n as u8);
        assert(text@ =~= seq![digit_char(n as int)]);
        text
    } else {
        let mut text = decimal(n / 10);
        append_digit(&mut text, (n % 10) as u8);
        text
    }
}

/// `n` in decimal, behind a minus sign if it is negative.
pub fn signed_decimal(n: i32) -> (text: String)
    ensures
        text@ == signed_text(n as int),
{
    if n < 0 {
        let mut text = "-".to_owned();
        text.append(decimal((0 - n as i64) as u64).as_str());
        text
    } else {
        decimal(n as u64)
    }
}

/// `text` at the right end of a column of `width` characters.
pub fn pad_left(text: &str, width: usize) -> (padded: String)
    ensures
        padded@ == pad_text(text@, width as nat),
{
    proof {
        reveal_strlit(" ");
    }
    let length: usize = text.unicode_len();
    let mut padded = String::new();
    let mut written: usize = length;
    while written < width
        invariant
            length == text@.len(),
            length <= written,
            written <= width || written == length,
            " "@ =~= seq![' '],
            padded@ =~= Seq::new((written - length) as nat, |i: int| ' '),
        decreases width - written,
    {
        padded.append(" ");
        written += 1;
    }
    padded.append(text);
    padded
}

/// The number that `text` writes in decimal, if it writes one of 32 bits.
pub fn parse_u32(text: &str) -> (number: Option<u32>)
    ensures
        number == parsed_u32(text@),
{
    let length: usize = text.unicode_len();
    let start: usize = if length > 0 && text.get_char(0) == '+' {
        1
    } else {
        0
    };
    let ghost digits = unsigned_part(text@);
    if start == length {
        return None;
    }
    let mut value: u64 = 0;
    let mut overflow: bool = false;
    let mut i: usize = start;
    while i < length
        invariant
            start <= i <= length,
            length == text@.len(),
            digits == unsigned_part(text@),
            start == text@.len() - digits.len(),
            forall|j: int| 0 <= j < i - start ==> is_decimal_digit(#[trigger] digits[j]),
            !overflow ==> value == decimal_value(digits.take(i - start)) && value <= u32::MAX,
            overflow ==> decimal_value(digits.take(i - start)) > u32::MAX,
        decreases length - i,
    {
        let c: char = text.get_char(i);
        assert(digits[i - start] == c);
        if c < '0' || c > '9' {
            assert(!is_decimal_digit(digits[i - start]));
            return None;
        }
        assert(digits.take(i - start + 1).drop_last() =~= digits.take(i - start));
        if !overflow {
            value = value * 10 + (c as u64 - '0' as u64);
            if value > 0xffff_ffff {
                overflow = true;
            }
        }
        i += 1;
    }
    assert(digits.take(length - start) =~= digits);
    if overflow {
        None
    } else {
        Some(value as u32)
    }
}

proof fn lemma_decimal_digits(n: nat)
    ensures
        is_decimal(decimal_text(n)),
        decimal_value(decimal_text(n)) == n,
    decreases n,
{
    reveal_strlit("0123456789abcdef");
    reveal_with_fuel(decimal_value, 2);
    if n >= 10 {
        lemma_decimal_digits(n / 10);
        let front = decimal_text(n / 10);
        let all = decimal_text(n);
        assert(all.drop_last() =~= front);
        assert forall|i: int| 0 <= i < all.len() implies is_decimal_digit(#[trigger] all[i]) by {
            if i < front.len() {
                assert(all[i] == front[i]);
            }
        }
    }
}

/// A number reads back from its decimal digits.
pub proof fn number_reads_back(n: u32)
    ensures
        is_decimal(decimal_text(n as nat)),
        parsed_u32(decimal_text(n as nat)) == Some(n),
{
    lemma_decimal_digits(n as nat);
    let text = decimal_text(n as nat);
    assert(is_decimal_digit(text[0]));
}

/// The hexadecimal of two runs of bytes is that of the one, then the other.
pub proof fn hex_joins(first: Seq<u8>, second: Seq<u8>)
    ensures
        hex_text(first + second) == hex_text(first) + hex_text(second),
{
    let joined = hex_text(first + second);
    let parts = hex_text(first) + hex_text(second);
    assert forall|i: int| 0 <= i < joined.len() implies joined[i] == parts[i] by {
        if i >= 2 * first.len() {
            let j = i - 2 * first.len();
            assert(j / 2 == i / 2 - first.len());
            assert(j % 2 == i % 2);
            assert((first + second)[i / 2] == second[j / 2]);
        } else {
            assert((first + second)[i / 2] == first[i / 2]);
        }
    }
    assert(joined =~= parts);
}

/// Two runs of bytes with one hexadecimal are one.
pub proof fn hex_tells_bytes_apart(a: Seq<u8>, b: Seq<u8>)
    requires
        hex_text(a) == hex_text(b),
    ensures
        a == b,
{
    assert(hex_text(a).len() == 2 * a.len());
    assert(hex_text(b).len() == 2 * b.len());
    assert forall|i: int| 0 <= i < a.len() implies a[i] == b[i] by {
        lemma_hex_pair(a, i);
        lemma_hex_pair(b, i);
        lemma_digits_differ(a[i] as int / 16, b[i] as int / 16);
        lemma_digits_differ(a[i] as int % 16, b[i] as int % 16);
    }
    assert(a =~= b);
}

proof fn lemma_hex_pair(bytes: Seq<u8>, i: int)
    requires
        0 <= i < bytes.len(),
    ensures
        hex_text(bytes)[2 * i] == digit_char(bytes[i] as int / 16),
        hex_text(bytes)[2 * i + 1] == digit_char(bytes[i] as int % 16),
{
    assert((2 * i) / 2 == i && (2 * i) % 2 == 0);
    assert((2 * i + 1) / 2 == i && (2 * i + 1) % 2 == 1);
}

proof fn lemma_digits_differ(a: int, b: int)
    requires
        0 <= a < 16,
        0 <= b < 16,
        digit_char(a) == digit_char(b),
    ensures
        a == b,
{
    reveal_strlit("0123456789abcdef");
}

/// The character of a digit below sixteen is the decimal digit, or the lower-case
/// letter that many places from `a`.
pub proof fn digits_are_lower_case(digit: int)
    requires
        0 <= digit < 16,
    ensures
        digit < 10 ==> digit_char(digit) as int == '0' as int + digit,
        digit >= 10 ==> digit_char(digit) as int == 'a' as int + digit - 10,
{
    reveal_strlit("0123456789abcdef");
}

/// A byte is printed as two digits, which together give its value.
pub proof fn a_byte_is_two_digits(byte: u8)
    ensures
        ({
            let text = hex_text(seq![byte]);
            &&& text.len() == 2
            &&& exists|high: int, low: int|
                0 <= high < 16 && 0 <= low < 16 && 16 * high + low == byte && text[0]
                    == #[trigger] digit_char(high) && text[1] == #[trigger] digit_char(low)
        }),
        hex_text(Seq::empty()) == Seq::<char>::empty(),
{
    let bytes = seq![byte];
    let text = hex_text(bytes);
    let high = byte as int / 16;
    let low = byte as int % 16;
    lemma_hex_pair(bytes, 0);
    assert(text[0] == digit_char(high) && text[1] == digit_char(low));
}

/// The last digit of a number is the number modulo ten; what stands in front of
/// it is the number divided by ten, and nothing where that is zero.
pub proof fn digits_of_a_number(n: nat)
    ensures
        ({
            let text = decimal_text(n);
            &&& text.len() > 0
            &&& text.last() as int == '0' as int + n % 10
            &&& n < 10 ==> text.len() == 1
            &&& n >= 10 ==> text.drop_last() == decimal_text(n / 10)
        }),
{
    reveal_strlit("0123456789abcdef");
    if n >= 10 {
        assert(decimal_text(n).drop_last() =~= decimal_text(n / 10));
    }
}

/// A negative number is printed as its opposite behind a minus sign, any other as
/// it is.
pub proof fn minus_sign_stands_for_negative(n: int)
    ensures
        n >= 0 ==> signed_text(n) == decimal_text(n as nat),
        n < 0 ==> signed_text(n).len() > 1 && signed_text(n)[0] == '-' && signed_text(n).skip(1)
            == decimal_text((-n) as nat),
{
    reveal_strlit("-");
    if n < 0 {
        digits_of_a_number((-n) as nat);
        assert(signed_text(n).skip(1) =~= decimal_text((-n) as nat));
    }
}

/// A padded text ends in the text, has blanks in front of it, and is as wide as
/// the column, or as the text where that is wider.
pub proof fn padding_is_blanks_in_front(text: Seq<char>, width: nat)
    ensures
        ({
            let padded = pad_text(text, width);
            &&& text.len() <= padded.len()
            &&& width <= padded.len()
            &&& padded.len() == text.len() || padded.len() == width
            &&& padded.skip(padded.len() - text.len()) == text
            &&& forall|i: int| 0 <= i < padded.len() - text.len() ==> #[trigger] padded[i] == ' '
        }),
{
    let padded = pad_text(text, width);
    assert(padded.skip(padded.len() - text.len()) =~= text);
}

/// A typed number is made of decimal digits behind at most one plus sign, and
/// there is at least one digit.
pub proof fn typed_numbers_are_digits(text: Seq<char>)
    ensures
        parsed_u32(text) is Some ==> {
            let signed = text.len() > 0 && text[0] == '+';
            &&& text.len() > 0
            &&& signed ==> text.len() > 1
            &&& forall|i: int|
                0 <= i < text.len() && (i > 0 || !signed) ==> '0' <= #[trigger] text[i] <= '9'
        },
{
    let digits = unsigned_part(text);
    if parsed_u32(text) is Some {
        let signed = text.len() > 0 && text[0] == '+';
        assert forall|i: int| 0 <= i < text.len() && (i > 0 || !signed) implies '0'
            <= #[trigger] text[i] <= '9' by {
            if signed {
                assert(is_decimal_digit(digits[i - 1]));
            } else {
                assert(is_decimal_digit(digits[i]));
            }
        }
    }
}

/// One digit is the number that it stands for.
pub proof fn one_typed_digit(digit: char)
    requires
        '0' <= digit <= '9',
    ensures
        parsed_u32(seq![digit]) == Some((digit as int - '0' as int) as u32),
{
    reveal_with_fuel(decimal_value, 2);
    let text = seq![digit];
    assert(text.drop_last() =~= Seq::empty());
    assert(is_decimal(text));
}

/// One more digit behind a typed number makes ten times the number and that
/// digit; where that needs more than 32 bits it is no number any more.
pub proof fn one_more_typed_digit(text: Seq<char>, digit: char, n: u32)
    requires
        parsed_u32(text) == Some(n),
        '0' <= digit <= '9',
    ensures
        ({
            let value = 10 * n + (digit as int - '0' as int);
            parsed_u32(text.push(digit)) == if value <= 0xffff_ffff {
                Some(value as u32)
            } else {
                None
            }
        }),
{
    let digits = unsigned_part(text);
    let longer = unsigned_part(text.push(digit));
    assert(text[0] == text.push(digit)[0]);
    assert(longer =~= digits.push(digit));
    assert(longer.drop_last() =~= digits);
    assert forall|i: int| 0 <= i < longer.len() implies is_decimal_digit(#[trigger] longer[i]) by {
        if i < digits.len() {
            assert(is_decimal_digit(digits[i]));
        }
    }
}

/// A typed number stays too large with another digit behind it.
pub proof fn too_many_typed_digits(text: Seq<char>, digit: char)
    requires
        is_decimal(unsigned_part(text)),
        parsed_u32(text) is None,
        '0' <= digit <= '9',
    ensures
        parsed_u32(text.push(digit)) is None,
{
    let digits = unsigned_part(text);
    let longer = unsigned_part(text.push(digit));
    if text.len() > 0 {
        assert(text[0] == text.push(digit)[0]);
    }
    assert(longer =~= digits.push(digit));
    assert(longer.drop_last() =~= digits);
}

/// A plus sign in front of a typed number changes nothing.
pub proof fn plus_sign_says_nothing(text: Seq<char>)
    requires
        text.len() > 0,
        text[0] != '+',
    ensures
        parsed_u32(seq!['+'] + text) == parsed_u32(text),
{
    assert((seq!['+'] + text).skip(1) =~= text);
}

/// What lines say is what each of them says, in order.
pub proof fn texts_are_those_of_the_lines(lines: Seq<String>)
    ensures
        texts(lines).len() == lines.len(),
        forall|i: int| 0 <= i < lines.len() ==> #[trigger] texts(lines)[i] == lines[i]@,
{
}

} // verus!

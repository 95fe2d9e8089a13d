//! Decimal numbers in text: reading them from bytes and writing them with
//! zero padding.

use vstd::prelude::*;
use vstd::string::*;

verus! {

/// `b` is one of the bytes `'0'..='9'`.
pub open spec fn is_digit(b: u8) -> bool {
    48 <= b <= 57
}

/// Every byte of `s` is a decimal digit.
pub open spec fn all_digits(s: Seq<u8>) -> bool {
    forall|i: int| 0 <= i < s.len() ==> is_digit(#[trigger] s[i])
}

/// The number that the digits of `s` spell, most significant digit first.
pub open spec fn digits_value(s: Seq<u8>) -> nat
    decreases s.len(),
{
    if s.len() == 0 {
        0
    } else {
        digits_value(s.drop_last()) * 10 + (s.last() - 48) as nat
    }
}

/// `s` without one leading `+`, if it has one.
pub open spec fn without_sign(s: Seq<u8>) -> Seq<u8> {
    if s.len() > 0 && s[0] == 43 {
        s.drop_first()
    } else {
        s
    }
}

/// The number that `s` denotes: an optional `+` followed by at least one
/// decimal digit and nothing else.
pub open spec fn number_of(s: Seq<u8>) -> Option<nat> {
    let digits = without_sign(s);
    if digits.len() > 0 && all_digits(digits) {
        Some(digits_value(digits))
    } else {
        None
    }
}

/// The number that `s` denotes, where it fits in a `usize`.
pub open spec fn usize_of(s: Seq<u8>) -> Option<usize> {
    match number_of(s) {
        Some(n) => if n <= usize::MAX {
            Some(n as usize)
        } else {
            None
        },
        None => None,
    }
}

/// The byte that writes the digit `d`.
pub open spec fn digit_byte(d: nat) -> u8 {
    (48 + d) as u8
}

/// The decimal digits of `n`, without leading zeros.
pub open spec fn decimal(n: nat) -> Seq<u8>
    decreases n,
{
    if n < 10 {
        seq![digit_byte(n)]
    } else {
        decimal(n / 10).push(digit_byte(n % 10))
    }
}

/// `count` times the byte `'0'`.
pub open spec fn zeros(count: nat) -> Seq<u8> {
    Seq::new(count, |i: int| 48u8)
}

/// The decimal digits of `n`, filled up with leading zeros to `width` bytes.
pub open spec fn padded(n: nat, width: nat) -> Seq<u8> {
    let digits = decimal(n);
    if digits.len() >= width {
        digits
    } else {
        zeros((width - digits.len()) as nat) + digits
    }
}

/// The text whose characters are the bytes of `bytes`, one for one.
pub open spec fn ascii(bytes: Seq<u8>) -> Seq<char> {
    Seq::new(bytes.len(), |i: int| bytes[i] as char)
}

/// Every byte of `s` is below 128.
pub open spec fn seven_bit(s: Seq<u8>) -> bool {
    forall|i: int| 0 <= i < s.len() ==> #[trigger] s[i] < 128
}

/// A prefix of a digit string spells no larger a number than the whole.
pub proof fn lemma_digits_value_prefix(s: Seq<u8>, k: int)
    requires
        0 <= k <= s.len(),
        all_digits(s),
    ensures
        digits_value(s.subrange(0, k)) <= digits_value(s),
    decreases s.len() - k,
{
    if k == s.len() {
        assert(s.subrange(0, k) =~= s);
    } else {
        let longer = s.subrange(0, k + 1);
        assert(longer.drop_last() =~= s.subrange(0, k));
        assert(is_digit(longer.last()));
        lemma_digits_value_prefix(s, k + 1);
    }
}

/// Reads the bytes `bytes[from..to]` as a decimal number.
pub fn parse_usize(bytes: &[u8], from: usize, to: usize) -> (r: Option<usize>)
    requires
        from <= to <= bytes@.len(),
    ensures
        r == usize_of(bytes@.subrange(from as int, to as int)),
{
    let ghost text = bytes@.subrange(from as int, to as int);
    let mut i: usize = from;
    if i < to && bytes[i] == 43 {
        i = i + 1;
    }
    let start = i;
    let ghost digits = bytes@.subrange(start as int, to as int);
    assert(digits =~= without_sign(text));
    if i == to {
        return None;
    }
    let mut acc: usize = 0;
    while i < to
        invariant
            from <= start <= i <= to <= bytes@.len(),
            start < to,
            text == bytes@.subrange(from as int, to as int),
            digits == bytes@.subrange(start as int, to as int),
            digits == without_sign(text),
            all_digits(digits.subrange(0, i - start)),
            acc == digits_value(digits.subrange(0, i - start)),
        decreases to - i,
    {
        let b = bytes[i];
        assert(digits[i - start] == b);
        if b < 48 || b > 57 {
            assert(!is_digit(digits[i - start]));
            return None;
        }
        let d: usize = (b - 48) as usize;
        let ghost longer = digits.subrange(0, i - start + 1);
        assert(longer.drop_last() =~= digits.subrange(0, i - start));
        assert(longer.last() == b);
        assert(all_digits(longer)) by {
            assert forall|j: int| 0 <= j < longer.len() implies is_digit(#[trigger] longer[j]) by {
                if j < i - start {
                    assert(longer[j] == digits.subrange(0, i - start)[j]);
                }
            }
        }
        if acc > (usize::MAX - d) / 10 {
            proof {
                // the part read so far is already too large, and so is the whole
                assert(digits_value(longer) > usize::MAX);
                if all_digits(digits) {
                    lemma_digits_value_prefix(digits, i - start + 1);
                }
            }
            return None;
        }
        acc = acc * 10 + d;
        i = i + 1;
    }
    assert(digits.subrange(0, i - start) =~= digits);
    Some(acc)
}

/// The digits of `n` spell `n`, and there is at least one of them.
pub proof fn lemma_decimal_spells(n: nat)
    ensures
        decimal(n).len() >= 1,
        all_digits(decimal(n)),
        digits_value(decimal(n)) == n,
    decreases n,
{
    if n < 10 {
        let d = decimal(n);
        assert(d.drop_last() =~= Seq::<u8>::empty());
        assert(digits_value(d.drop_last()) == 0);
    } else {
        lemma_decimal_spells(n / 10);
        let d = decimal(n);
        assert(d.drop_last() =~= decimal(n / 10));
        assert forall|i: int| 0 <= i < d.len() implies is_digit(#[trigger] d[i]) by {
            if i < d.len() - 1 {
                assert(d[i] == decimal(n / 10)[i]);
            }
        }
    }
}

/// Leading zeros change neither the number nor that all bytes are digits.
pub proof fn lemma_leading_zeros(count: nat, digits: Seq<u8>)
    ensures
        digits_value(zeros(count) + digits) == digits_value(digits),
        all_digits(digits) ==> all_digits(zeros(count) + digits),
    decreases digits.len(), count,
{
    let whole = zeros(count) + digits;
    if digits.len() > 0 {
        lemma_leading_zeros(count, digits.drop_last());
        assert(whole.drop_last() =~= zeros(count) + digits.drop_last());
    } else if count > 0 {
        lemma_leading_zeros((count - 1) as nat, digits);
        assert(whole.drop_last() =~= zeros((count - 1) as nat) + digits);
    }
}

/// A number written with padding reads back as itself.
pub proof fn lemma_number_of_padded(n: nat, width: nat)
    ensures
        number_of(padded(n, width)) == Some(n),
        padded(n, width).len() >= width,
        seven_bit(padded(n, width)),
{
    lemma_decimal_spells(n);
    let digits = decimal(n);
    let text = padded(n, width);
    if digits.len() < width {
        lemma_leading_zeros((width - digits.len()) as nat, digits);
    }
    assert(all_digits(text));
    assert(is_digit(text[0]));
    assert(without_sign(text) == text);
    assert forall|i: int| 0 <= i < text.len() implies #[trigger] text[i] < 128 by {
        assert(is_digit(text[i]));
    }
}

/// How many digits a number below ten thousand has.
pub proof fn lemma_decimal_len(n: nat)
    ensures
        n < 10 ==> decimal(n).len() == 1,
        10 <= n < 100 ==> decimal(n).len() == 2,
        100 <= n < 1000 ==> decimal(n).len() == 3,
        1000 <= n < 10000 ==> decimal(n).len() == 4,
{
    reveal_with_fuel(decimal, 4);
}

/// The digits that were taken off a number, least significant first, written
/// in reading order.
pub open spec fn in_reading_order(taken: Seq<usize>) -> Seq<u8> {
    Seq::new(taken.len(), |i: int| digit_byte(taken[taken.len() - 1 - i] as nat))
}

/// The digits of what is left of a number, none where nothing is left.
pub open spec fn leading_part(rest: nat) -> Seq<u8> {
    if rest == 0 {
        Seq::empty()
    } else {
        decimal(rest)
    }
}

fn digit_text(d: usize) -> (r: &'static str)
    requires
        d < 10,
    ensures
        r@ == ascii(seq![digit_byte(d as nat)]),
{
    proof {
        reveal_strlit("0");
        reveal_strlit("1");
        reveal_strlit("2");
        reveal_strlit("3");
        reveal_strlit("4");
        reveal_strlit("5");
        reveal_strlit("6");
        reveal_strlit("7");
        reveal_strlit("8");
        reveal_strlit("9");
    }
    let r = if d == 0 {
        "0"
    } else if d == 1 {
        "1"
    } else if d == 2 {
        "2"
    } else if d == 3 {
        "3"
    } else if d == 4 {
        "4"
    } else if d == 5 {
        "5"
    } else if d == 6 {
        "6"
    } else if d == 7 {
        "7"
    } else if d == 8 {
        "8"
    } else {
        "9"
    };
    assert(r@ =~= ascii(seq![digit_byte(d as nat)]));
    r
}

/// Appends `n` to `out` in decimal, with leading zeros up to `width`
/// characters.
pub fn push_padded_u64(out: &mut String, n: u64, width: usize)
    ensures
        final(out)@ == old(out)@ + ascii(padded(n as nat, width as nat)),
{
    let ghost before = out@;
    let mut taken: Vec<usize> = Vec::new();
    let mut rest: u64 = n;
    taken.push((rest % 10) as usize);
    rest = rest / 10;
    assert(decimal(n as nat) =~= leading_part(rest as nat) + in_reading_order(taken@));
    while rest > 0
        invariant
            taken@.len() >= 1,
            forall|i: int| 0 <= i < taken@.len() ==> #[trigger] taken@[i] < 10,
            decimal(n as nat) == leading_part(rest as nat) + in_reading_order(taken@),
        decreases rest,
    {
        let ghost earlier = taken@;
        let ghost left = rest;
        taken.push((rest % 10) as usize);
        rest = rest / 10;
        assert(leading_part(left as nat) + in_reading_order(earlier) =~= leading_part(rest as nat)
            + in_reading_order(taken@));
    }
    assert(decimal(n as nat) =~= in_reading_order(taken@));
    let count = taken.len();
    let mut filled: usize = count;
    while filled < width
        invariant
            count <= filled,
            filled <= width || filled == count,
            out@ == before + ascii(zeros((filled - count) as nat)),
        decreases width - filled,
    {
        proof {
            reveal_strlit("0");
        }
        out.append("0");
        filled = filled + 1;
        assert(out@ =~= before + ascii(zeros((filled - count) as nat)));
    }
    let ghost fill = zeros((filled - count) as nat);
    let mut left: usize = count;
    while left > 0
        invariant
            left <= count,
            count == taken@.len(),
            forall|i: int| 0 <= i < taken@.len() ==> #[trigger] taken@[i] < 10,
            out@ == before + ascii(fill + in_reading_order(taken@).subrange(0, count - left)),
        decreases left,
    {
        left = left - 1;
        let d = taken[left];
        out.append(digit_text(d));
        assert(out@ =~= before + ascii(fill + in_reading_order(taken@).subrange(0, count - left)));
    }
    assert(in_reading_order(taken@).subrange(0, count as int) =~= in_reading_order(taken@));
    assert(fill + decimal(n as nat) =~= padded(n as nat, width as nat));
}

/// Appends `n` to `out` in decimal, with leading zeros up to `width`
/// characters.
pub fn push_padded(out: &mut String, n: usize, width: usize)
    ensures
        final(out)@ == old(out)@ + ascii(padded(n as nat, width as nat)),
{
    push_padded_u64(out, n as u64, width);
}

/// How many digits `n` has.
pub fn count_digits(n: usize) -> (count: usize)
    ensures
        count == decimal(n as nat).len(),
        1 <= count <= 20,
{
    let mut count: usize = 1;
    let mut rest: usize = n / 10;
    assert(decimal(n as nat).len() == count + leading_part(rest as nat).len()) by {
        reveal_with_fuel(decimal, 2);
    }
    assert(pow10(1) == 10) by {
        reveal_with_fuel(pow10, 2);
    }
    while rest > 0
        invariant
            1 <= count <= 20,
            decimal(n as nat).len() == count + leading_part(rest as nat).len(),
            rest as nat * pow10(count as nat) <= n,
            count <= 20,
        decreases rest,
    {
        proof {
            lemma_pow10_step(count as nat);
            assert(rest as nat * pow10(count as nat) >= pow10(count as nat)) by (nonlinear_arith)
                requires
                    rest >= 1,
            ;
            if count == 20 {
                lemma_pow10_20();
            }
            assert((rest / 10) as nat * pow10((count + 1) as nat) <= rest as nat * pow10(
                count as nat,
            )) by (nonlinear_arith)
                requires
                    pow10((count + 1) as nat) == 10 * pow10(count as nat),
            ;
        }
        count = count + 1;
        rest = rest / 10;
    }
    count
}

/// Ten to the power of `exponent`.
pub open spec fn pow10(exponent: nat) -> nat
    decreases exponent,
{
    if exponent == 0 {
        1
    } else {
        10 * pow10((exponent - 1) as nat)
    }
}

/// A number of so many digits is less than ten to the power of their count.
pub proof fn lemma_digits_value_bound(s: Seq<u8>)
    requires
        all_digits(s),
    ensures
        digits_value(s) < pow10(s.len()),
    decreases s.len(),
{
    if s.len() > 0 {
        let front = s.drop_last();
        assert forall|i: int| 0 <= i < front.len() implies is_digit(#[trigger] front[i]) by {
            assert(front[i] == s[i]);
        }
        lemma_digits_value_bound(front);
        assert(is_digit(s[s.len() - 1]));
    }
}

/// A number that is read from at most `width` bytes is less than ten to the
/// power of `width`.
pub proof fn lemma_number_of_bound(s: Seq<u8>, width: nat)
    requires
        s.len() <= width,
    ensures
        number_of(s) matches Some(n) ==> n < pow10(width),
{
    let digits = without_sign(s);
    if digits.len() > 0 && all_digits(digits) {
        lemma_digits_value_bound(digits);
        lemma_pow10_grows(digits.len(), width);
    }
}

proof fn lemma_pow10_grows(low: nat, high: nat)
    requires
        low <= high,
    ensures
        pow10(low) <= pow10(high),
    decreases high,
{
    if low < high {
        lemma_pow10_grows(low, (high - 1) as nat);
        lemma_pow10_step((high - 1) as nat);
    }
}

proof fn lemma_pow10_step(exponent: nat)
    ensures
        pow10(exponent + 1) == 10 * pow10(exponent),
        pow10(exponent) >= 1,
    decreases exponent,
{
    if exponent > 0 {
        lemma_pow10_step((exponent - 1) as nat);
    }
}

proof fn lemma_pow10_20()
    ensures
        pow10(20) > usize::MAX,
{
    reveal_with_fuel(pow10, 21);
}

/// The text of seven-bit bytes has exactly those bytes as its UTF-8 form.
pub proof fn lemma_ascii_bytes(bytes: Seq<u8>)
    requires
        seven_bit(bytes),
    ensures
        vstd::utf8::encode_utf8(ascii(bytes)) == bytes,
{
    let text = ascii(bytes);
    assert forall|i: int| 0 <= i < text.len() implies '\0' <= #[trigger] text[i] <= '\u{7f}' by {
        assert(bytes[i] < 128);
    }
    vstd::utf8::is_ascii_chars_encode_utf8(text);
    assert forall|i: int| 0 <= i < bytes.len() implies vstd::utf8::encode_utf8(text)[i]
        == bytes[i] by {
        assert(bytes[i] < 128);
        assert(text[i] as u8 == vstd::utf8::encode_utf8(text)[i]);
    }
    assert(vstd::utf8::encode_utf8(text) =~= bytes);
}

/// The index of the first `byte` in `s`, or the length of `s` where there is
/// none.
pub open spec fn find_byte(s: Seq<u8>, byte: u8) -> int
    decreases s.len(),
{
    if s.len() == 0 || s[0] == byte {
        0
    } else {
        1 + find_byte(s.drop_first(), byte)
    }
}

/// `find_byte` stops at the first occurrence and nowhere before.
pub proof fn lemma_find_byte(s: Seq<u8>, byte: u8)
    ensures
        0 <= find_byte(s, byte) <= s.len(),
        find_byte(s, byte) < s.len() ==> s[find_byte(s, byte)] == byte,
        forall|j: int| 0 <= j < find_byte(s, byte) ==> #[trigger] s[j] != byte,
    decreases s.len(),
{
    if s.len() > 0 && s[0] != byte {
        let rest = s.drop_first();
        lemma_find_byte(rest, byte);
        assert forall|j: int| 0 <= j < find_byte(s, byte) implies #[trigger] s[j] != byte by {
            if j > 0 {
                assert(rest[j - 1] == s[j]);
            }
        }
    }
}

/// Finds the first `byte` in `bytes`.
pub fn first_byte(bytes: &[u8], byte: u8) -> (at: usize)
    ensures
        at == find_byte(bytes@, byte),
{
    let mut i: usize = 0;
    while i < bytes.len() && bytes[i] != byte
        invariant
            i <= bytes@.len(),
            forall|j: int| 0 <= j < i ==> #[trigger] bytes@[j] != byte,
        decreases bytes@.len() - i,
    {
        i = i + 1;
    }
    proof {
        lemma_find_byte(bytes@, byte);
    }
    i
}

/// The year and the month that `text` names: two numbers with the first `-`
/// of the text between them.
pub open spec fn year_month_of(text: Seq<u8>) -> Option<(usize, usize)> {
    let dash = find_byte(text, 45);
    if dash >= text.len() {
        None
    } else {
        match (usize_of(text.subrange(0, dash)), usize_of(text.subrange(dash + 1, text.len() as int))) {
            (Some(year), Some(month)) => Some((year, month)),
            _ => None,
        }
    }
}

/// A year and a month as `YYYY-MM`.
pub open spec fn year_month_text(year: usize, month: usize) -> Seq<u8> {
    padded(year as nat, 4).push(45u8) + padded(month as nat, 2)
}

/// Reads a year and a month from `YYYY-MM`.
pub fn parse_year_month(raw: &str) -> (r: Option<(usize, usize)>)
    ensures
        r == year_month_of(raw.spec_bytes()),
{
    let bytes = raw.as_bytes();
    let dash = first_byte(bytes, 45);
    if dash >= bytes.len() {
        return None;
    }
    let year = match parse_usize(bytes, 0, dash) {
        Some(n) => n,
        None => {
            return None;
        },
    };
    let month = match parse_usize(bytes, dash + 1, bytes.len()) {
        Some(n) => n,
        None => {
            return None;
        },
    };
    Some((year, month))
}

/// Writes a year and a month as `YYYY-MM`.
pub fn write_year_month(year: usize, month: usize) -> (r: String)
    ensures
        r@ == ascii(year_month_text(year, month)),
{
    let mut out = String::new();
    push_padded(&mut out, year, 4);
    proof {
        reveal_strlit("-");
    }
    out.append("-");
    push_padded(&mut out, month, 2);
    assert(out@ =~= ascii(year_month_text(year, month)));
    out
}

/// Whatever the year and the month, they are read back from their text.
pub proof fn lemma_year_month_round_trip(year: usize, month: usize)
    ensures
        year_month_of(year_month_text(year, month)) == Some((year, month)),
        seven_bit(year_month_text(year, month)),
{
    let y = padded(year as nat, 4);
    let m = padded(month as nat, 2);
    let text = year_month_text(year, month);
    lemma_decimal_spells(year as nat);
    lemma_leading_zeros((4 - decimal(year as nat).len()) as nat, decimal(year as nat));
    lemma_number_of_padded(year as nat, 4);
    lemma_number_of_padded(month as nat, 2);
    lemma_find_byte(text, 45);
    assert(all_digits(y));
    assert(text[y.len() as int] == 45);
    assert forall|j: int| 0 <= j < y.len() implies #[trigger] text[j] != 45 by {
        assert(text[j] == y[j]);
        assert(is_digit(y[j]));
    }
    let dash = find_byte(text, 45);
    assert(dash == y.len()) by {
        if dash < y.len() {
            assert(text[dash] != 45);
        }
    }
    assert(text.subrange(0, dash) =~= y);
    assert(text.subrange(dash + 1, text.len() as int) =~= m);
    assert forall|i: int| 0 <= i < text.len() implies #[trigger] text[i] < 128 by {
        if i < y.len() {
            assert(text[i] == y[i]);
        } else if i > y.len() {
            assert(text[i] == m[i - y.len() - 1]);
        }
    }
}

/// The byte `b` in lower case, where it is an upper-case letter of ASCII.
pub open spec fn lower(b: u8) -> u8 {
    if 65 <= b <= 90 {
        (b + 32) as u8
    } else {
        b
    }
}

/// `a` and `b` are the same text but for the case of their ASCII letters.
pub open spec fn same_ignoring_case(a: Seq<u8>, b: Seq<u8>) -> bool {
    &&& a.len() == b.len()
    &&& forall|i: int| 0 <= i < a.len() ==> lower(#[trigger] a[i]) == lower(b[i])
}

/// Whether `a` and `b` are the same text but for the case of their ASCII
/// letters.
pub fn eq_ignoring_case(a: &[u8], b: &[u8]) -> (same: bool)
    ensures
        same == same_ignoring_case(a@, b@),
{
    if a.len() != b.len() {
        return false;
    }
    let mut i: usize = 0;
    while i < a.len()
        invariant
            i <= a@.len(),
            a@.len() == b@.len(),
            forall|j: int| 0 <= j < i ==> lower(#[trigger] a@[j]) == lower(b@[j]),
        decreases a@.len() - i,
    {
        let x = a[i];
        let y = b[i];
        let low_x = if 65 <= x && x <= 90 {
            x + 32
        } else {
            x
        };
        let low_y = if 65 <= y && y <= 90 {
            y + 32
        } else {
            y
        };
        if low_x != low_y {
            assert(lower(a@[i as int]) != lower(b@[i as int]));
            return false;
        }
        i = i + 1;
    }
    true
}

} // verus!

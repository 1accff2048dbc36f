//! Whole numbers in decimal: how they are written and read.

use vstd::prelude::*;
use vstd::string::*;

use crate::text::to_chars;

verus! {

/// The digit that stands for `n`, which is below ten.
pub open spec fn digit(n: int) -> char {
    (48 + n) as u8 as char
}

/// The decimal digits of `n`, without leading zeros.
pub open spec fn digits(n: nat) -> Seq<char>
    decreases n,
{
    if n < 10 {
        seq![digit(n as int)]
    } else {
        digits(n / 10).push(digit((n % 10) as int))
    }
}

/// `n` in decimal, with a minus sign where it is negative.
pub open spec fn decimal(n: int) -> Seq<char> {
    if n < 0 {
        seq!['-'] + digits((-n) as nat)
    } else {
        digits(n as nat)
    }
}

fn digits_text(n: u128) -> (r: String)
    ensures
        r@ == digits(n as nat),
    decreases n,
{
    if n < 10 {
        let mut r = String::new();
        r.push((48u8 + n as u8) as char);
        r
    } else {
        let mut r = digits_text(n / 10);
        r.push((48u8 + (n % 10) as u8) as char);
        r
    }
}

/// `n` in decimal.
pub fn decimal_text(n: i64) -> (r: String)
    ensures
        r@ == decimal(n as int),
{
    if n < 0 {
        let mut r = String::new();
        r.push('-');
        r.append(digits_text((-(n as i128)) as u128).as_str());
        r
    } else {
        digits_text(n as u128)
    }
}

/// `n` in decimal.
pub fn unsigned_text(n: u128) -> (r: String)
    ensures
        r@ == decimal(n as int),
{
    digits_text(n)
}

/// Whether every character of `text` is a decimal digit of ASCII, and there is one.
pub open spec fn all_digits(text: Seq<char>) -> bool {
    &&& text.len() > 0
    &&& forall|i: int| 0 <= i < text.len() ==> '0' <= #[trigger] text[i] <= '9'
}

/// What a row of digits stands for.
pub open spec fn digits_value(text: Seq<char>) -> nat
    decreases text.len(),
{
    if text.len() == 0 {
        0
    } else {
        digits_value(text.drop_last()) * 10 + (text.last() as int - '0' as int) as nat
    }
}

/// The number that `text` writes: an optional sign, then digits.
pub open spec fn integer_of(text: Seq<char>) -> Option<int> {
    if text.len() > 0 && (text[0] == '-' || text[0] == '+') {
        if all_digits(text.drop_first()) {
            let size = digits_value(text.drop_first()) as int;
            Some(if text[0] == '-' { -size } else { size })
        } else {
            None
        }
    } else if all_digits(text) {
        Some(digits_value(text) as int)
    } else {
        None
    }
}

/// The number that `text` writes, where it is one that an `i64` holds.
pub open spec fn i64_of(text: Seq<char>) -> Option<i64> {
    match integer_of(text) {
        Some(n) if i64::MIN <= n <= i64::MAX => Some(n as i64),
        _ => None,
    }
}

/// The value of a row of digits, where it is at most 2^63; `Err` where the row is no number at
/// all, and `Ok(None)` where it stands for more.
fn read_digits(chars: &Vec<char>, from: usize) -> (r: Result<Option<u64>, ()>)
    requires
        from <= chars@.len(),
    ensures
        r is Err <==> !all_digits(chars@.skip(from as int)),
        r matches Ok(Some(n)) ==> n == digits_value(chars@.skip(from as int)) && n
            <= 0x8000_0000_0000_0000,
        r matches Ok(None) ==> digits_value(chars@.skip(from as int)) > 0x8000_0000_0000_0000,
{
    if from == chars.len() {
        return Err(());
    }
    let ghost row = chars@.skip(from as int);
    let mut i: usize = from;
    let mut value: u128 = 0;
    let mut over = false;
    while i < chars.len()
        invariant
            from < chars@.len(),
            from <= i <= chars@.len(),
            row == chars@.skip(from as int),
            forall|j: int| 0 <= j < i - from ==> '0' <= #[trigger] row[j] <= '9',
            !over ==> value == digits_value(row.take(i - from)) && value <= 0x8000_0000_0000_0000,
            over ==> digits_value(row.take(i - from)) > 0x8000_0000_0000_0000,
        decreases chars.len() - i,
    {
        let c = chars[i];
        assert(row[i - from] == c);
        if c < '0' || c > '9' {
            return Err(());
        }
        assert(row.take(i - from + 1).drop_last() == row.take(i - from));
        if !over {
            value = value * 10 + (c as u32 - 48) as u128;
            if value > 0x8000_0000_0000_0000 {
                over = true;
            }
        }
        i += 1;
    }
    assert(row.take(chars@.len() - from) == row);
    if over {
        Ok(None)
    } else {
        Ok(Some(value as u64))
    }
}

/// The number that `text` writes, where it is one that an `i64` holds.
pub fn parse_i64(text: &str) -> (r: Option<i64>)
    ensures
        r == i64_of(text@),
{
    let chars = to_chars(text);
    if chars.len() == 0 {
        return None;
    }
    let negative = chars[0] == '-';
    let signed = negative || chars[0] == '+';
    let from: usize = if signed {
        1
    } else {
        0
    };
    assert(signed ==> chars@.skip(1) == text@.drop_first());
    assert(!signed ==> chars@.skip(0) == text@);
    match read_digits(&chars, from) {
        Ok(Some(n)) => {
            if negative {
                Some((-(n as i128)) as i64)
            } else if n <= 0x7fff_ffff_ffff_ffff {
                Some(n as i64)
            } else {
                None
            }
        },
        _ => None,
    }
}

proof fn lemma_digits_read_back(n: nat)
    ensures
        all_digits(digits(n)),
        digits_value(digits(n)) == n,
        digits(n)[0] != '-',
        digits(n)[0] != '+',
    decreases n,
{
    reveal_with_fuel(digits_value, 2);
    if n >= 10 {
        lemma_digits_read_back(n / 10);
        let all = digits(n);
        let head = digits(n / 10);
        assert(all.drop_last() == head);
        assert forall|i: int| 0 <= i < all.len() implies '0' <= #[trigger] all[i] <= '9' by {
            if i < head.len() {
                assert(all[i] == head[i]);
            }
        }
        assert(all[0] == head[0]);
    } else {
        assert(digits(n).drop_last() == Seq::<char>::empty());
    }
}

/// A number that is written and read again is the same number.
pub proof fn law_decimal_reads_back(n: i64)
    ensures
        i64_of(decimal(n as int)) == Some(n),
{
    let size: nat = if n < 0 {
        (-(n as int)) as nat
    } else {
        n as nat
    };
    lemma_digits_read_back(size);
    if n < 0 {
        assert(decimal(n as int).drop_first() == digits(size));
    }
}

/// A number is written as its tenth and then its last digit; a negative one as a minus sign and
/// then what it is the negative of.
pub proof fn law_decimal_is_written_digit_by_digit(n: nat, last: nat)
    requires
        last < 10,
    ensures
        decimal(last as int).len() == 1,
        decimal(last as int)[0] as int == '0' as int + last,
        n > 0 ==> decimal((10 * n + last) as int) == decimal(n as int) + decimal(last as int),
        n > 0 ==> decimal(-(n as int)) == seq!['-'] + decimal(n as int),
{
    if n > 0 {
        let all = (10 * n + last) as nat;
        assert(all / 10 == n && all % 10 == last);
        assert(digits(n).push(digit(last as int)) =~= digits(n) + digits(last));
    }
}

/// A number is read digit by digit: one more digit is ten times as much and that digit, as long as
/// there is room for it, and nothing where there is not.
pub proof fn law_number_is_read_digit_by_digit(row: Seq<char>, value: i64, c: char)
    requires
        i64_of(row) == Some(value),
        value >= 0,
        row[0] != '-',
        '0' <= c <= '9',
    ensures
        i64_of(row.push(c)) == (if value * 10 + (c as int - '0' as int) <= i64::MAX {
            Some((value * 10 + (c as int - '0' as int)) as i64)
        } else {
            None
        }),
        i64_of(seq![c]) == Some((c as int - '0' as int) as i64),
{
    reveal_with_fuel(digits_value, 2);
    let longer = row.push(c);
    assert(longer[0] == row[0]);
    assert(longer.drop_last() =~= row);
    if row[0] == '+' {
        let bare = row.drop_first();
        assert(longer.drop_first() =~= bare.push(c));
        assert(bare.push(c).drop_last() =~= bare);
        assert forall|i: int| 0 <= i < bare.push(c).len() implies '0' <= #[trigger] bare.push(c)[i]
            <= '9' by {
            if i < bare.len() {
                assert(bare.push(c)[i] == bare[i]);
            }
        }
    } else {
        assert forall|i: int| 0 <= i < longer.len() implies '0' <= #[trigger] longer[i] <= '9' by {
            if i < row.len() {
                assert(longer[i] == row[i]);
            }
        }
    }
    assert(seq![c].drop_last() =~= Seq::<char>::empty());
    assert(seq![c][0] == c);
}

/// Only a row of digits, with at most a sign before it, is read as a number; a minus sign makes it
/// negative and a plus sign changes nothing.
pub proof fn law_only_digits_are_a_number(text: Seq<char>, row: Seq<char>, value: i64)
    ensures
        i64_of(text) is Some ==> text.len() > 0 && (forall|i: int|
            0 < i < text.len() ==> '0' <= #[trigger] text[i] <= '9') && (('0' <= text[0] <= '9')
            || (text.len() > 1 && (text[0] == '-' || text[0] == '+'))),
        i64_of(row) == Some(value) && row.len() > 0 && row[0] != '-' && row[0] != '+' ==> i64_of(
            seq!['-'] + row,
        ) == Some((-value) as i64) && i64_of(seq!['+'] + row) == Some(value),
{
    if i64_of(text) is Some && (text[0] == '-' || text[0] == '+') {
        let bare = text.drop_first();
        assert forall|i: int| 0 < i < text.len() implies '0' <= #[trigger] text[i] <= '9' by {
            assert(bare[i - 1] == text[i]);
        }
    }
    assert((seq!['-'] + row).drop_first() =~= row);
    assert((seq!['+'] + row).drop_first() =~= row);
}

} // verus!

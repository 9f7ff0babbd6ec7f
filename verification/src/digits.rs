//! Decimal digits: adding up the digits of a text, which is a map
//! function for the dispatcher, and writing a number in digits.

use vstd::prelude::*;
use vstd::string::*;

verus! {

/// `c` is one of the ten decimal digits `0` to `9`.
pub open spec fn is_digit(c: char) -> bool {
    '0' <= c <= '9'
}

/// The number that the decimal digit `c` stands for.
pub open spec fn digit_value(c: char) -> nat
    recommends
        is_digit(c),
{
    (c as u32 - '0' as u32) as nat
}

/// Every character of `text` is a decimal digit.
pub open spec fn all_digits(text: Seq<char>) -> bool {
    forall|i: int| 0 <= i < text.len() ==> is_digit(#[trigger] text[i])
}

/// The sum of the numbers that the digits of `text` stand for.
pub open spec fn digit_total(text: Seq<char>) -> nat
    decreases text.len(),
{
    if text.len() == 0 {
        0
    } else {
        digit_total(text.drop_last()) + digit_value(text.last())
    }
}

/// The digits of a longer text add up to no less than those of its beginning.
pub proof fn lemma_digit_total_grows(text: Seq<char>, upto: int)
    requires
        0 <= upto <= text.len(),
    ensures
        digit_total(text.take(upto)) <= digit_total(text),
    decreases text.len() - upto,
{
    if upto == text.len() {
        assert(text.take(upto) =~= text);
    } else {
        lemma_digit_total_grows(text.drop_last(), upto);
        assert(text.drop_last().take(upto) =~= text.take(upto));
    }
}

/// Adds up the decimal digits of `text`.
///
/// The sum is owed for every text that holds nothing but the digits `0`
/// to `9` and whose digits add up to no more than `u32::MAX`; the empty
/// text adds up to 0. Any other text gives `None`.
pub fn digit_sum(text: &str) -> (sum: Option<u32>)
    ensures
        sum == if all_digits(text@) && digit_total(text@) <= u32::MAX {
            Some(digit_total(text@) as u32)
        } else {
            None
        },
{
    if !text.is_ascii() {
        assert(!all_digits(text@)) by {
            if all_digits(text@) {
                assert forall|i: int| 0 <= i < text@.len() implies '\0' <= #[trigger] text@[i]
                    <= '\u{7f}' by {
                    assert(is_digit(text@[i]));
                }
            }
        }
        return None;
    }
    let bytes = text.as_bytes();
    proof {
        is_ascii_spec_bytes(text);
    }
    let mut total: u32 = 0;
    let mut at: usize = 0;
    while at < bytes.len()
        invariant
            at <= bytes.len(),
            bytes@.len() == text@.len(),
            is_ascii(text),
            forall|i: int| 0 <= i < text@.len() ==> bytes@[i] == text@[i] as u8,
            all_digits(text@.take(at as int)),
            total == digit_total(text@.take(at as int)),
        decreases bytes.len() - at,
    {
        let byte: u8 = bytes[at];
        let ghost c = text@[at as int];
        let ghost longer = text@.take(at as int + 1);
        assert(longer.drop_last() =~= text@.take(at as int));
        assert(longer.last() == c);
        assert('\0' <= c <= '\u{7f}');
        if byte < 48 || byte > 57 {
            assert(!is_digit(c));
            return None;
        }
        assert(is_digit(c));
        let value: u32 = (byte - 48) as u32;
        assert(value == digit_value(c));
        match total.checked_add(value) {
            Some(more) => {
                total = more;
            },
            None => {
                proof {
                    lemma_digit_total_grows(text@, at as int + 1);
                }
                return None;
            },
        }
        assert(all_digits(longer)) by {
            assert forall|i: int| 0 <= i < longer.len() implies is_digit(#[trigger] longer[i]) by {
                if i < at {
                    assert(longer[i] == text@.take(at as int)[i]);
                }
            }
        }
        at = at + 1;
    }
    assert(text@.take(at as int) =~= text@);
    Some(total)
}

/// The character that the digit `d`, below ten, is written as.
pub open spec fn digit_char(d: nat) -> char
    recommends
        d < 10,
{
    ('0' as u8 + d) as char
}

/// `n` written in decimal, without a sign and without leading zeros.
pub open spec fn decimal(n: nat) -> Seq<char>
    decreases n,
{
    if n < 10 {
        seq![digit_char(n)]
    } else {
        decimal(n / 10).push(digit_char(n % 10))
    }
}

/// The digit `d` as a text of one character.
fn digit_text(d: u32) -> (text: &'static str)
    requires
        d < 10,
    ensures
        text@ == seq![digit_char(d as nat)],
{
    proof {
        reveal_strlit("0");
        reveal_strlit("1");
        reveal_strlit("2");
        reveal_strlit("3");
        reveal_strlit("4");
        reveal_strlit("5");
        reveal_strlit("6");
        reveal_strlit("7");
        reveal_strlit("8");
        reveal_strlit("9");
    }
    let text = if d == 0 {
        "0"
    } else if d == 1 {
        "1"
    } else if d == 2 {
        "2"
    } else if d == 3 {
        "3"
    } else if d == 4 {
        "4"
    } else if d == 5 {
        "5"
    } else if d == 6 {
        "6"
    } else if d == 7 {
        "7"
    } else if d == 8 {
        "8"
    } else {
        "9"
    };
    assert(text@ =~= seq![digit_char(d as nat)]);
    text
}

/// Writes `n` in decimal.
pub fn to_decimal(n: u32) -> (text: String)
    ensures
        text@ == decimal(n as nat),
    decreases n,
{
    if n < 10 {
        String::from_str(digit_text(n))
    } else {
        let text = to_decimal(n / 10).concat(digit_text(n % 10));
        assert(text@ =~= decimal(n as nat / 10).push(digit_char(n as nat % 10)));
        text
    }
}

} // verus!

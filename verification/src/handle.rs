//! The text form of a handle: its decimal digits.
//!
//! A handle is written into the document as the value of an attribute and
//! read back from there at dispatch. What is read back is what was written:
//! [`lemma_round_trip`].
use crate::text::prepend_char;
use vstd::prelude::*;
use vstd::string::*;

verus! {

/// The character of the decimal digit `d`.
pub open spec fn digit_char(d: nat) -> char {
    ((48 + d) as u8) as char
}

/// The decimal digits of `n`, most significant first, without leading zeros.
pub open spec fn decimal(n: nat) -> Seq<char>
    decreases n,
{
    if n < 10 {
        seq![digit_char(n)]
    } else {
        decimal(n / 10).push(digit_char(n % 10))
    }
}

/// Whether `c` is a decimal digit.
pub open spec fn is_digit(c: char) -> bool {
    '0' <= c <= '9'
}

/// Whether `s` holds decimal digits only.
pub open spec fn all_digits(s: Seq<char>) -> bool {
    forall|i: int| 0 <= i < s.len() ==> is_digit(#[trigger] s[i])
}

/// The number that the decimal digits `s` stand for.
pub open spec fn number(s: Seq<char>) -> nat
    decreases s.len(),
{
    if s.len() == 0 {
        0
    } else {
        number(s.drop_last()) * 10 + ((s.last() as u8 - 48) as nat)
    }
}

/// The handle that the text `s` stands for: an optional `+`, then at least
/// one decimal digit and nothing else, where the number fits into 64 bits.
pub open spec fn parse_decimal(s: Seq<char>) -> Option<u64> {
    let digits = if s.len() > 0 && s[0] == '+' {
        s.drop_first()
    } else {
        s
    };
    if digits.len() > 0 && all_digits(digits) && number(digits) <= u64::MAX {
        Some(number(digits) as u64)
    } else {
        None
    }
}

/// The digits of a number are digits, and stand for the number.
pub proof fn lemma_decimal(n: nat)
    ensures
        decimal(n).len() > 0,
        all_digits(decimal(n)),
        number(decimal(n)) == n,
    decreases n,
{
    if n < 10 {
        assert(decimal(n).drop_last() =~= Seq::<char>::empty());
        assert(number(decimal(n).drop_last()) == 0);
    } else {
        lemma_decimal(n / 10);
        assert(decimal(n).drop_last() =~= decimal(n / 10));
    }
}

/// A handle that is written as text and read back is the handle.
pub proof fn lemma_round_trip(handle: u64)
    ensures
        parse_decimal(decimal(handle as nat)) == Some(handle),
{
    lemma_decimal(handle as nat);
    assert(is_digit(decimal(handle as nat)[0]));
}

/// The digits of a longer text stand for no smaller number than those of its
/// beginning.
proof fn lemma_number_grows(s: Seq<char>, k: int)
    requires
        0 <= k <= s.len(),
        all_digits(s),
    ensures
        number(s.take(k)) <= number(s),
    decreases s.len() - k,
{
    if k < s.len() {
        lemma_number_grows(s, k + 1);
        assert(s.take(k + 1).drop_last() =~= s.take(k));
    } else {
        assert(s.take(k) =~= s);
    }
}

/// The text form of `handle`: its decimal digits.
pub fn format_handle(handle: u64) -> (text: String)
    ensures
        text@ == decimal(handle as nat),
{
    let mut text = String::new();
    prepend_char(&mut text, ((48 + (handle % 10)) as u8) as char);
    let mut rest = handle / 10;
    assert(text@ =~= seq![digit_char((handle % 10) as nat)]);
    while rest > 0
        invariant
            decimal(handle as nat) == (if rest > 0 {
                decimal(rest as nat)
            } else {
                Seq::<char>::empty()
            }) + text@,
        decreases rest,
    {
        let ghost before = text@;
        prepend_char(&mut text, ((48 + (rest % 10)) as u8) as char);
        proof {
            let head = if rest / 10 > 0 {
                decimal((rest / 10) as nat)
            } else {
                Seq::<char>::empty()
            };
            assert(decimal(rest as nat) =~= head + seq![digit_char((rest % 10) as nat)]);
            assert(decimal(rest as nat) + before =~= head + text@);
        }
        rest = rest / 10;
    }
    assert(Seq::<char>::empty() + text@ =~= text@);
    text
}

/// The handle that `text` stands for, if it stands for one.
pub fn parse_handle(text: &str) -> (handle: Option<u64>)
    ensures
        handle == parse_decimal(text@),
{
    if !text.is_ascii() {
        proof {
            let s = text@;
            let bad = choose|i: int| 0 <= i < s.len() && !('\0' <= #[trigger] s[i] <= '\u{7f}');
            if s[0] == '+' {
                assert(s.drop_first()[bad - 1] == s[bad]);
            }
        }
        return None;
    }
    proof {
        is_ascii_spec_bytes(text);
    }
    let bytes = text.as_bytes();
    let len = bytes.len();
    assert(len == text@.len() && forall|k: int|
        0 <= k < len ==> #[trigger] bytes@[k] == text@[k] as u8) by {
        assert(is_ascii(text));
        is_ascii_spec_bytes(text);
        assert(text.spec_bytes().len() == Seq::new(text@.len(), |i| text@.index(i) as u8).len());
    }
    let signed = len > 0 && bytes[0] == 43;
    let start: usize = if signed {
        1
    } else {
        0
    };
    let ghost digits = text@.subrange(start as int, len as int);
    proof {
        if len > 0 {
            assert('\0' <= text@[0] <= '\u{7f}');
            assert((text@[0] == '+') == (text@[0] as u8 == 43));
        }
        assert(signed == (text@.len() > 0 && text@[0] == '+'));
        if signed {
            assert(digits =~= text@.drop_first());
        } else {
            assert(digits =~= text@);
        }
    }
    if start == len {
        return None;
    }
    let mut value: u64 = 0;
    let mut i: usize = start;
    while i < len
        invariant
            start <= i <= len,
            len == text@.len(),
            len == bytes@.len(),
            text.is_ascii(),
            forall|k: int| 0 <= k < len ==> #[trigger] bytes@[k] == text@[k] as u8,
            digits == text@.subrange(start as int, len as int),
            parse_decimal(text@) == (if digits.len() > 0 && all_digits(digits) && number(digits)
                <= u64::MAX {
                Some(number(digits) as u64)
            } else {
                None
            }),
            all_digits(digits.take(i - start)),
            value == number(digits.take(i - start)),
        decreases len - i,
    {
        let byte = bytes[i];
        let ghost done = digits.take(i - start);
        let ghost next = digits.take(i - start + 1);
        proof {
            assert(next.drop_last() =~= done);
            assert(next.last() == text@[i as int]);
        }
        if byte < 48 || byte > 57 {
            assert(!is_digit(digits[i - start]));
            return None;
        }
        assert(all_digits(next)) by {
            assert forall|j: int| 0 <= j < next.len() implies is_digit(#[trigger] next[j]) by {
                if j < done.len() {
                    assert(done[j] == next[j]);
                }
            }
        }
        let grown = match value.checked_mul(10) {
            Some(tens) => tens.checked_add((byte - 48) as u64),
            None => None,
        };
        match grown {
            Some(v) => {
                value = v;
            },
            None => {
                proof {
                    assert(number(next) > u64::MAX);
                    if all_digits(digits) {
                        lemma_number_grows(digits, i - start + 1);
                    }
                }
                return None;
            },
        }
        i = i + 1;
    }
    assert(digits.take(i - start) =~= digits);
    Some(value)
}

} // verus!

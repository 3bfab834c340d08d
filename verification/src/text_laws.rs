//! What the operations on text do: numbers in notation, trimming, searching and
//! the order of texts.
use vstd::prelude::*;

use crate::text::{
    all_digits, decimal_text, decimal_text_denotes, decimal_value, digit_char, digit_value,
    hex_digits, is_digit, is_white_space, occurs_in, parsed_unsigned, text_less, trim_end_text,
    trim_start_text, trimmed, unsigned_part,
};

verus! {

/// The digits are `0` to `9`, each for its value; and a further digit at the end
/// makes a number ten times as large and adds its value.
pub proof fn digits_count_in_tens(s: Seq<char>, d: nat)
    requires
        d < 10,
    ensures
        digit_char(0) == '0',
        digit_char(9) == '9',
        is_digit(digit_char(d)),
        digit_value(digit_char(d)) == d,
        decimal_value(Seq::<char>::empty()) == 0,
        decimal_value(s.push(digit_char(d))) == 10 * decimal_value(s) + d,
{
    assert(s.push(digit_char(d)).drop_last() =~= s);
}

/// A number is written with its digits alone, and, but for zero, without a zero
/// in front; what is written stands for the number.
pub proof fn a_number_is_written_without_leading_zeros(n: nat)
    ensures
        decimal_text(n).len() > 0,
        all_digits(decimal_text(n)),
        decimal_value(decimal_text(n)) == n,
        n > 0 ==> decimal_text(n)[0] != '0',
        n == 0 ==> decimal_text(n) == "0"@,
    decreases n,
{
    decimal_text_denotes(n);
    if n >= 10 {
        a_number_is_written_without_leading_zeros(n / 10);
        assert(decimal_text(n)[0] == decimal_text(n / 10)[0]);
    } else if n > 0 {
        assert(decimal_text(n)[0] == digit_char(n));
    } else {
        reveal_strlit("0");
        assert(decimal_text(0) =~= "0"@);
    }
}

/// What can be read as a number: at least one digit and nothing but digits, up
/// to one plus sign in front, with a value that is not too large. Zeros in front
/// do not matter.
pub proof fn a_number_is_read_from_digits(s: Seq<char>, max: nat)
    ensures
        parsed_unsigned(s, max) matches Some(n) ==> n <= max,
        s.len() == 0 ==> parsed_unsigned(s, max) is None,
        s.len() > 0 && all_digits(s) ==> parsed_unsigned(s, max) == if decimal_value(s) <= max {
            Some(decimal_value(s))
        } else {
            None
        },
        s.len() > 0 && all_digits(s) ==> parsed_unsigned(seq!['+'] + s, max) == parsed_unsigned(
            s,
            max,
        ),
        s.len() > 0 && all_digits(s) ==> parsed_unsigned(seq!['0'] + s, max) == parsed_unsigned(
            s,
            max,
        ),
        (exists|i: int| 1 <= i < s.len() && !is_digit(#[trigger] s[i])) ==> parsed_unsigned(s, max)
            is None,
        s.len() > 0 && s[0] != '+' && !is_digit(s[0]) ==> parsed_unsigned(s, max) is None,
        parsed_unsigned(seq!['+'], max) is None,
{
    if s.len() > 0 && all_digits(s) {
        assert(s[0] != '+') by {
            assert(is_digit(s[0]));
        }
        let plus = seq!['+'] + s;
        assert(plus.skip(1) =~= s);
        let zero = seq!['0'] + s;
        assert(zero[0] == '0');
        assert(all_digits(zero)) by {
            assert forall|i: int| 0 <= i < zero.len() implies is_digit(#[trigger] zero[i]) by {
                if i > 0 {
                    assert(zero[i] == s[i - 1]);
                }
            }
        }
        a_zero_in_front_adds_nothing(s);
    }
    if exists|i: int| 1 <= i < s.len() && !is_digit(#[trigger] s[i]) {
        let i = choose|i: int| 1 <= i < s.len() && !is_digit(#[trigger] s[i]);
        let rest = unsigned_part(s);
        if s[0] == '+' {
            assert(rest[i - 1] == s[i]);
        } else {
            assert(rest[i] == s[i]);
        }
        assert(!all_digits(rest));
    }
    assert(seq!['+'].skip(1) =~= Seq::<char>::empty());
}

proof fn a_zero_in_front_adds_nothing(s: Seq<char>)
    ensures
        decimal_value(seq!['0'] + s) == decimal_value(s),
    decreases s.len(),
{
    let zero = seq!['0'] + s;
    if s.len() == 0 {
        assert(zero.drop_last() =~= Seq::<char>::empty());
        assert(zero.last() == '0');
        reveal_with_fuel(decimal_value, 2);
    } else {
        assert(zero.drop_last() =~= seq!['0'] + s.drop_last());
        assert(zero.last() == s.last());
        a_zero_in_front_adds_nothing(s.drop_last());
    }
}

/// Whether a text is white space throughout.
pub open spec fn all_white_space(s: Seq<char>) -> bool {
    forall|i: int| 0 <= i < s.len() ==> is_white_space(#[trigger] s[i])
}

proof fn start_is_trimmed(s: Seq<char>) -> (front: Seq<char>)
    ensures
        s == front + trim_start_text(s),
        all_white_space(front),
        trim_start_text(s).len() > 0 ==> !is_white_space(trim_start_text(s)[0]),
    decreases s.len(),
{
    if s.len() > 0 && is_white_space(s[0]) {
        let front = start_is_trimmed(s.skip(1));
        let all = seq![s[0]] + front;
        assert(s =~= all + trim_start_text(s)) by {
            assert(s =~= seq![s[0]] + s.skip(1));
        }
        assert forall|i: int| 0 <= i < all.len() implies is_white_space(#[trigger] all[i]) by {
            if i > 0 {
                assert(all[i] == front[i - 1]);
            }
        }
        all
    } else {
        assert(s =~= Seq::<char>::empty() + s);
        Seq::<char>::empty()
    }
}

proof fn end_is_trimmed(s: Seq<char>) -> (back: Seq<char>)
    ensures
        s == trim_end_text(s) + back,
        all_white_space(back),
        trim_end_text(s).len() > 0 ==> !is_white_space(trim_end_text(s).last()),
    decreases s.len(),
{
    if s.len() > 0 && is_white_space(s.last()) {
        let back = end_is_trimmed(s.drop_last());
        let all = back.push(s.last());
        assert(s =~= trim_end_text(s) + all) by {
            assert(s =~= s.drop_last().push(s.last()));
        }
        assert forall|i: int| 0 <= i < all.len() implies is_white_space(#[trigger] all[i]) by {
            if i < back.len() {
                assert(all[i] == back[i]);
            }
        }
        all
    } else {
        assert(s =~= s + Seq::<char>::empty());
        Seq::<char>::empty()
    }
}

/// Trimming takes white space off both ends, all of it there and nothing else:
/// the text is white space, the trimmed text and white space, and the trimmed
/// text neither begins nor ends with white space.
pub proof fn trimming_takes_white_space_off_the_ends(s: Seq<char>) -> (ends: (
    Seq<char>,
    Seq<char>,
))
    ensures
        s == ends.0 + trimmed(s) + ends.1,
        all_white_space(ends.0),
        all_white_space(ends.1),
        trimmed(s).len() > 0 ==> !is_white_space(trimmed(s)[0]) && !is_white_space(
            trimmed(s).last(),
        ),
{
    let front = start_is_trimmed(s);
    let middle = trim_start_text(s);
    let back = end_is_trimmed(middle);
    assert(s =~= front + trimmed(s) + back);
    if trimmed(s).len() > 0 {
        assert(middle[0] == trimmed(s)[0]);
    }
    (front, back)
}

/// A text occurs in another exactly where the other is some text, then it, then
/// some text.
pub proof fn a_text_occurs_where_it_stands(needle: Seq<char>, before: Seq<char>, after: Seq<char>)
    ensures
        occurs_in(needle, before + needle + after),
        forall|s: Seq<char>| #[trigger]
            occurs_in(needle, s) ==> exists|a: Seq<char>, b: Seq<char>| s == #[trigger] (a + needle
                + b),
{
    let all = before + needle + after;
    let at = before.len() as int;
    assert(all.subrange(at, at + needle.len()) =~= needle);
    assert forall|s: Seq<char>| #[trigger] occurs_in(needle, s) implies exists|
        a: Seq<char>,
        b: Seq<char>,
    | s == #[trigger] (a + needle + b) by {
        let i = choose|i: int|
            0 <= i && i + needle.len() <= s.len() && #[trigger] s.subrange(i, i + needle.len())
                == needle;
        assert(s =~= s.take(i) + needle + s.skip(i + needle.len() as int)) by {
            assert(s =~= s.take(i) + s.subrange(i, i + needle.len()) + s.skip(
                i + needle.len() as int,
            ));
        }
    }
}

/// Whether two texts are alike up to the position `k`, and there the first has
/// ended or has the smaller character.
pub open spec fn differs_below_at(a: Seq<char>, b: Seq<char>, k: int) -> bool {
    &&& 0 <= k < b.len()
    &&& k <= a.len()
    &&& forall|i: int| 0 <= i < k ==> #[trigger] a[i] == b[i]
    &&& k < a.len() ==> (a[k] as u32) < (b[k] as u32)
}

/// One text comes before another where, at the first position at which they
/// differ, it has ended or has the smaller character.
pub proof fn texts_are_ordered_by_the_first_difference(a: Seq<char>, b: Seq<char>)
    ensures
        text_less(a, b) <==> exists|k: int| #[trigger] differs_below_at(a, b, k),
    decreases b.len(),
{
    if b.len() > 0 && a.len() > 0 && a[0] == b[0] {
        let x = a.skip(1);
        let y = b.skip(1);
        texts_are_ordered_by_the_first_difference(x, y);
        if text_less(a, b) {
            let k = choose|k: int| #[trigger] differs_below_at(x, y, k);
            assert forall|i: int| 0 <= i < k + 1 implies #[trigger] a[i] == b[i] by {
                if i > 0 {
                    assert(x[i - 1] == y[i - 1]);
                }
            }
            assert(differs_below_at(a, b, k + 1));
        }
        if exists|k: int| #[trigger] differs_below_at(a, b, k) {
            let k = choose|k: int| #[trigger] differs_below_at(a, b, k);
            assert forall|i: int| 0 <= i < k - 1 implies #[trigger] x[i] == y[i] by {
                assert(a[i + 1] == b[i + 1]);
            }
            assert(differs_below_at(x, y, k - 1));
        }
    } else if b.len() > 0 {
        if text_less(a, b) {
            assert(differs_below_at(a, b, 0));
        }
        if exists|k: int| #[trigger] differs_below_at(a, b, k) {
            let k = choose|k: int| #[trigger] differs_below_at(a, b, k);
            if k > 0 {
                assert(a[0] == b[0]);
            }
        }
    }
}

/// The value of a hexadecimal digit.
pub open spec fn hex_digit_value(c: char) -> nat {
    if '0' <= c <= '9' {
        (c as u32 - '0' as u32) as nat
    } else {
        (c as u32 - 'A' as u32 + 10) as nat
    }
}

/// The number that hexadecimal digits stand for.
pub open spec fn hex_value(s: Seq<char>) -> nat
    decreases s.len(),
{
    if s.len() == 0 {
        0
    } else {
        16 * hex_value(s.drop_last()) + hex_digit_value(s.last())
    }
}

/// The hexadecimal digits of a number are `0` to `9` and `A` to `F`, and stand
/// for the number; but for zero there is no zero in front.
pub proof fn hex_digits_stand_for_the_number(n: nat)
    ensures
        hex_value(hex_digits(n)) == n,
        hex_digits(n).len() > 0,
        forall|i: int|
            0 <= i < hex_digits(n).len() ==> '0' <= #[trigger] hex_digits(n)[i] <= '9' || 'A'
                <= hex_digits(n)[i] <= 'F',
        n > 0 ==> hex_digits(n)[0] != '0',
    decreases n,
{
    let s = hex_digits(n);
    if n < 16 {
        assert(s.drop_last() =~= Seq::<char>::empty());
        reveal_with_fuel(hex_value, 2);
    } else {
        hex_digits_stand_for_the_number(n / 16);
        let before = hex_digits(n / 16);
        assert(s.drop_last() =~= before);
        assert forall|i: int| 0 <= i < s.len() implies '0' <= #[trigger] s[i] <= '9' || 'A' <= s[i]
            <= 'F' by {
            if i < before.len() {
                assert(s[i] == before[i]);
            }
        }
        assert(s[0] == before[0]);
    }
}

} // verus!

//! What numerals, cuts and the order of texts are.

use vstd::prelude::*;

#[allow(unused_imports)]
use crate::text::{
    begins_with, decimal_text, digits_value, ends_with, hex_text, last_position, parsed_decimal,
    precedes,
};

verus! {

/// Decimal numerals: a number below ten is its digit, and ten times a number with a digit
/// added is the numeral of the number with the digit behind it.
pub proof fn law_decimal_numerals(n: nat, digit: nat)
    requires
        digit < 10,
    ensures
        decimal_text(digit).len() == 1,
        decimal_text(digit)[0] as int == 48 + digit,
        n > 0 ==> {
            let text = decimal_text(10 * n + digit);
            &&& text.drop_last() == decimal_text(n)
            &&& text.last() as int == 48 + digit
            &&& text.len() == decimal_text(n).len() + 1
        },
{
    if n > 0 {
        let m = 10 * n + digit;
        assert(m / 10 == n && m % 10 == digit);
        assert(decimal_text(m).drop_last() =~= decimal_text(n));
    }
}

/// Hexadecimal numerals of a fixed width: sixteen times a number with a digit added is the
/// numeral of the number with the digit behind it, one place wider, in lower case.
pub proof fn law_hexadecimal_numerals(n: nat, width: nat, digit: nat)
    requires
        digit < 16,
    ensures
        hex_text(n, 0).len() == 0,
        ({
            let text = hex_text(16 * n + digit, width + 1);
            &&& text.drop_last() == hex_text(n, width)
            &&& text.last() as int == if digit < 10 {
                48 + digit
            } else {
                87 + digit
            }
            &&& text.len() == width + 1
        }),
    decreases width,
{
    let m = 16 * n + digit;
    assert(m / 16 == n && m % 16 == digit);
    assert(hex_text(m, width + 1).drop_last() =~= hex_text(n, width));
    if width > 0 {
        law_hexadecimal_numerals(n / 16, (width - 1) as nat, n % 16);
        assert(16 * (n / 16) + n % 16 == n);
    }
}

/// What a character is worth as a digit: `0` to `9`, and `a` to `f` where there are sixteen.
pub open spec fn worth(c: char, base: nat) -> Option<int> {
    if 48 <= c as int && c as int <= 57 {
        Some(c as int - 48)
    } else if base == 16 && 97 <= c as int && c as int <= 102 {
        Some(c as int - 87)
    } else {
        None
    }
}

/// Runs of digits: nothing is zero, and a digit behind a run makes the base times the run
/// and the digit. Anything that is no digit makes the run worthless.
pub proof fn law_digits_are_worth_their_places(run: Seq<char>, c: char, base: nat)
    requires
        base == 10 || base == 16,
    ensures
        digits_value(Seq::<char>::empty(), base) == Some(0nat),
        digits_value(run.push(c), base) == match (digits_value(run, base), worth(c, base)) {
            (Some(high), Some(low)) => Some((base * high + low) as nat),
            _ => None::<nat>,
        },
{
    assert(run.push(c).drop_last() =~= run);
    if digits_value(run, base) is Some {
        let high = digits_value(run, base)->0;
        assert(high * base == base * high) by (nonlinear_arith);
    }
}

/// Numbers are read as they are written, with or without a plus sign; nothing is read of an
/// empty text, of a sign alone or of two, nor of a number over the bound.
pub proof fn law_numbers_are_read(text: Seq<char>, max: nat)
    ensures
        text.len() == 0 ==> parsed_decimal(text, max) is None,
        text.len() > 0 && text[0] != '+' ==> {
            &&& parsed_decimal(text, max) == match digits_value(text, 10) {
                Some(n) if n <= max => Some(n),
                _ => None::<nat>,
            }
            &&& parsed_decimal(seq!['+'] + text, max) == parsed_decimal(text, max)
        },
        text.len() > 0 && text[0] == '+' ==> parsed_decimal(seq!['+'] + text, max) is None,
        parsed_decimal(seq!['+'], max) is None,
{
    let signed = seq!['+'] + text;
    assert(signed.skip(1) =~= text);
    if text.len() > 0 && text[0] == '+' {
        lemma_sign_is_no_digit(text);
    }
}

/// A run that begins with a plus sign is worthless.
proof fn lemma_sign_is_no_digit(text: Seq<char>)
    requires
        text.len() > 0,
        text[0] == '+',
    ensures
        digits_value(text, 10) is None,
    decreases text.len(),
{
    if text.len() > 1 {
        lemma_sign_is_no_digit(text.drop_last());
    }
}

/// The last place of a character: it stands there and nowhere behind, and where there is
/// none, it stands nowhere.
pub proof fn law_last_position_is_last(text: Seq<char>, c: char)
    ensures
        last_position(text, c) < 0 ==> !text.contains(c),
        last_position(text, c) >= 0 ==> {
            &&& last_position(text, c) < text.len()
            &&& text[last_position(text, c)] == c
            &&& forall|i: int|
                last_position(text, c) < i < text.len() ==> #[trigger] text[i] != c
        },
    decreases text.len(),
{
    if text.len() > 0 {
        law_last_position_is_last(text.drop_last(), c);
        let before = text.drop_last();
        if last_position(text, c) < 0 {
            assert forall|i: int| 0 <= i < text.len() implies text[i] != c by {
                if i < before.len() {
                    assert(!before.contains(c));
                    assert(before[i] != c);
                }
            }
        } else {
            assert forall|i: int|
                last_position(text, c) < i < text.len() implies #[trigger] text[i] != c by {
                if i < before.len() {
                    assert(before[i] != c);
                }
            }
        }
    }
}

/// A text begins with a part exactly where it is the part and something behind it, and ends
/// with it exactly where it is something and the part behind it.
pub proof fn law_parts_stand_at_the_ends(text: Seq<char>, part: Seq<char>, other: Seq<char>)
    ensures
        begins_with(part + other, part),
        ends_with(other + part, part),
        begins_with(text, part) ==> part.len() <= text.len() && text == part + text.skip(
            part.len() as int,
        ),
        ends_with(text, part) ==> part.len() <= text.len() && text == text.take(
            text.len() - part.len(),
        ) + part,
{
    assert((part + other).subrange(0, part.len() as int) =~= part);
    assert((other + part).subrange(other.len() as int, (other + part).len() as int) =~= part);
    if begins_with(text, part) {
        assert(text =~= text.subrange(0, part.len() as int) + text.skip(part.len() as int));
    }
    if ends_with(text, part) {
        let at = text.len() - part.len();
        assert(text =~= text.take(at) + text.subrange(at, at + part.len()));
    }
}

/// Dictionary order: of two texts that agree up to a place, the one with the smaller
/// character there comes first, and so does a text before any that goes on behind it.
pub proof fn law_texts_are_in_dictionary_order(
    common: Seq<char>,
    x: char,
    y: char,
    a: Seq<char>,
    b: Seq<char>,
)
    ensures
        x != y ==> (precedes(common + seq![x] + a, common + seq![y] + b) <==> (x as int) < (
        y as int)),
        precedes(common, common + seq![x] + a),
        !precedes(common + seq![x] + a, common),
        !precedes(common, common),
    decreases common.len(),
{
    let p = common + seq![x] + a;
    let q = common + seq![y] + b;
    if common.len() > 0 {
        let rest = common.skip(1);
        law_texts_are_in_dictionary_order(rest, x, y, a, b);
        assert(p.skip(1) =~= rest + seq![x] + a);
        assert(q.skip(1) =~= rest + seq![y] + b);
    }
}

} // verus!

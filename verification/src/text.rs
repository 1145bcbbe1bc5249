//! Text as sequences of characters: literals, numbers and the places where a
//! name is cut apart.

use vstd::prelude::*;
use vstd::string::*;

verus! {

/// The digits of every base up to sixteen, in lower case.
pub open spec fn digit_chars() -> Seq<char> {
    seq!['0', '1', '2', '3', '4', '5', '6', '7', '8', '9', 'a', 'b', 'c', 'd', 'e', 'f']
}

/// The decimal numeral of `n`, without leading zeros.
pub open spec fn decimal_text(n: nat) -> Seq<char>
    decreases n,
{
    if n < 10 {
        seq![digit_chars()[n as int]]
    } else {
        decimal_text(n / 10).push(digit_chars()[(n % 10) as int])
    }
}

/// The lowest `width` hexadecimal digits of `n`, padded with zeros on the left.
pub open spec fn hex_text(n: nat, width: nat) -> Seq<char>
    decreases width,
{
    if width == 0 {
        Seq::empty()
    } else {
        hex_text(n / 16, (width - 1) as nat).push(digit_chars()[(n % 16) as int])
    }
}

/// The value of a digit in the given base, where the character is one.
pub open spec fn digit_value(c: char, base: nat) -> Option<nat> {
    if '0' <= c <= '9' && (c as int) - ('0' as int) < base {
        Some(((c as int) - ('0' as int)) as nat)
    } else if 'a' <= c <= 'f' && (c as int) - ('a' as int) + 10 < base {
        Some(((c as int) - ('a' as int) + 10) as nat)
    } else {
        None
    }
}

/// The value of a run of digits, most significant first. The empty run is zero.
pub open spec fn digits_value(s: Seq<char>, base: nat) -> Option<nat>
    decreases s.len(),
{
    if s.len() == 0 {
        Some(0)
    } else {
        match (digits_value(s.drop_last(), base), digit_value(s.last(), base)) {
            (Some(high), Some(low)) => Some(high * base + low),
            _ => None,
        }
    }
}

/// An unsigned decimal number as text: an optional plus sign, at least one digit,
/// nothing else, and a value of at most `max`.
pub open spec fn parsed_decimal(s: Seq<char>, max: nat) -> Option<nat> {
    let digits = if s.len() > 0 && s[0] == '+' { s.skip(1) } else { s };
    if digits.len() == 0 {
        None
    } else {
        match digits_value(digits, 10) {
            Some(v) => if v <= max { Some(v) } else { None },
            None => None,
        }
    }
}

/// The position of the last `c` in `s`, or -1 where there is none.
pub open spec fn last_position(s: Seq<char>, c: char) -> int
    decreases s.len(),
{
    if s.len() == 0 {
        -1
    } else if s.last() == c {
        s.len() - 1
    } else {
        last_position(s.drop_last(), c)
    }
}

/// Whether `part` stands in `s` at position `at`.
pub open spec fn stands_at(s: Seq<char>, at: int, part: Seq<char>) -> bool {
    &&& 0 <= at
    &&& at + part.len() <= s.len()
    &&& s.subrange(at, at + part.len()) == part
}

/// Whether `s` begins with `part`.
pub open spec fn begins_with(s: Seq<char>, part: Seq<char>) -> bool {
    stands_at(s, 0, part)
}

/// Whether `s` ends with `part`.
pub open spec fn ends_with(s: Seq<char>, part: Seq<char>) -> bool {
    stands_at(s, s.len() - part.len(), part)
}

/// Strict dictionary order by code point, the order of the UTF-8 bytes.
pub open spec fn precedes(a: Seq<char>, b: Seq<char>) -> bool
    decreases a.len(),
{
    if b.len() == 0 {
        false
    } else if a.len() == 0 {
        true
    } else if a[0] != b[0] {
        a[0] < b[0]
    } else {
        precedes(a.skip(1), b.skip(1))
    }
}

/// The characters of a string.
pub fn to_chars(s: &str) -> (chars: Vec<char>)
    ensures
        chars@ == s@,
{
    let mut chars: Vec<char> = Vec::new();
    for c in iter: s.chars()
        invariant
            iter.seq() == s@,
            chars@ == s@.take(iter.index() as int),
    {
        chars.push(c);
        assert(s@.take(iter.index() + 1) =~= s@.take(iter.index() as int).push(c));
    }
    assert(s@.take(s@.len() as int) =~= s@);
    chars
}

/// Whether `part` stands in `s` at position `at`.
pub fn matches_at(s: &[char], at: usize, part: &str) -> (r: bool)
    ensures
        r == stands_at(s@, at as int, part@),
{
    let part_chars: Vec<char> = to_chars(part);
    if at > s.len() || part_chars.len() > s.len() - at {
        return false;
    }
    let mut i: usize = 0;
    while i < part_chars.len()
        invariant
            i <= part_chars.len(),
            part_chars@ == part@,
            at + part_chars.len() <= s.len(),
            forall|j: int| 0 <= j < i ==> s@[at + j] == part@[j],
        decreases part_chars.len() - i,
    {
        if s[at + i] != part_chars[i] {
            assert(s@.subrange(at as int, at + part@.len())[i as int] != part@[i as int]);
            return false;
        }
        i += 1;
    }
    assert(s@.subrange(at as int, at + part@.len()) =~= part@);
    true
}

/// The last position of `c` in `s`.
pub fn find_last(s: &[char], c: char) -> (r: Option<usize>)
    ensures
        match r {
            Some(k) => k == last_position(s@, c) && k < s@.len(),
            None => last_position(s@, c) == -1,
        },
{
    let mut end: usize = s.len();
    assert(s@.take(end as int) =~= s@);
    while end > 0
        invariant
            end <= s@.len(),
            last_position(s@, c) == last_position(s@.take(end as int), c),
        decreases end,
    {
        assert(s@.take(end as int).drop_last() =~= s@.take(end - 1));
        end -= 1;
        if s[end] == c {
            return Some(end);
        }
    }
    None
}

/// The value of one digit.
fn read_digit(c: char, base: u32) -> (r: Option<u32>)
    requires
        base <= 16,
    ensures
        match r {
            Some(v) => digit_value(c, base as nat) == Some(v as nat) && v < base,
            None => digit_value(c, base as nat) is None,
        },
{
    let code: u32 = c as u32;
    if code >= 48 && code <= 57 && code - 48 < base {
        Some(code - 48)
    } else if code >= 97 && code <= 102 && code - 97 + 10 < base {
        Some(code - 97 + 10)
    } else {
        None
    }
}

/// Once a run of digits is over `max`, or holds something that is no digit, so is
/// every run that it begins.
proof fn lemma_digits_value_grows(s: Seq<char>, k: int, base: nat)
    requires
        0 <= k <= s.len(),
        base >= 1,
    ensures
        digits_value(s, base) is Some ==> digits_value(s.take(k), base) is Some && digits_value(
            s.take(k),
            base,
        )->0 <= digits_value(s, base)->0,
    decreases s.len() - k,
{
    if k < s.len() {
        lemma_digits_value_grows(s, k + 1, base);
        let longer = s.take(k + 1);
        assert(longer.drop_last() =~= s.take(k));
        if digits_value(longer, base) is Some {
            let high = digits_value(s.take(k), base)->0;
            assert(high <= high * base) by (nonlinear_arith)
                requires
                    base >= 1,
            ;
        }
    } else {
        assert(s.take(k) =~= s);
    }
}

/// The value of a run of digits, where every character is one and the value is at
/// most `max`.
fn read_digits(s: &[char], base: u32, max: u64) -> (r: Option<u64>)
    requires
        2 <= base <= 16,
    ensures
        match r {
            Some(v) => digits_value(s@, base as nat) == Some(v as nat) && v <= max,
            None => digits_value(s@, base as nat) is None || digits_value(s@, base as nat)->0 > max,
        },
{
    let mut value: u64 = 0;
    let mut i: usize = 0;
    assert(s@.take(0) =~= Seq::<char>::empty());
    while i < s.len()
        invariant
            i <= s@.len(),
            2 <= base <= 16,
            digits_value(s@.take(i as int), base as nat) == Some(value as nat),
            value <= max,
        decreases s@.len() - i,
    {
        assert(s@.take(i + 1).drop_last() =~= s@.take(i as int));
        proof {
            lemma_digits_value_grows(s@, i + 1, base as nat);
        }
        match read_digit(s[i], base) {
            Some(low) => {
                assert(value as nat * base as nat + low as nat <= 0xffff_ffff_ffff_ffff * 16 + 16)
                    by (nonlinear_arith)
                    requires
                        value <= 0xffff_ffff_ffff_ffff,
                        base <= 16,
                        low < 16,
                ;
                let wide: u128 = value as u128 * base as u128 + low as u128;
                assert(wide == value as nat * base as nat + low as nat);
                if wide > max as u128 {
                    return None;
                }
                value = wide as u64;
            },
            None => {
                return None;
            },
        }
        i += 1;
    }
    assert(s@.take(s@.len() as int) =~= s@);
    Some(value)
}

/// Reads an unsigned decimal number of at most `max`.
pub fn read_decimal(s: &[char], max: u64) -> (r: Option<u64>)
    ensures
        match r {
            Some(v) => parsed_decimal(s@, max as nat) == Some(v as nat),
            None => parsed_decimal(s@, max as nat) is None,
        },
{
    let from: usize = if s.len() > 0 && s[0] == '+' { 1 } else { 0 };
    let digits: &[char] = vstd::slice::slice_subrange(s, from, s.len());
    assert(s@.len() > 0 ==> s@.skip(1) =~= s@.subrange(1, s@.len() as int));
    assert(s@ =~= s@.subrange(0, s@.len() as int));
    if digits.len() == 0 {
        return None;
    }
    read_digits(digits, 10, max)
}

/// Reads eight hexadecimal digits.
pub fn read_hex_word(s: &[char]) -> (r: Option<u32>)
    ensures
        match r {
            Some(v) => s@.len() == 8 && digits_value(s@, 16) == Some(v as nat),
            None => s@.len() != 8 || digits_value(s@, 16) is None,
        },
{
    if s.len() != 8 {
        return None;
    }
    proof {
        lemma_digits_value_bound(s@, 16);
        assert(vstd::arithmetic::power::pow(16, 8) == 0x1_0000_0000) by {
            reveal_with_fuel(vstd::arithmetic::power::pow, 9);
        }
    }
    match read_digits(s, 16, 0xffff_ffff) {
        Some(v) => Some(v as u32),
        None => None,
    }
}

/// A run of `k` digits in base `b` is less than `b` to the power `k`.
pub proof fn lemma_digits_value_bound(s: Seq<char>, base: nat)
    requires
        2 <= base <= 16,
    ensures
        digits_value(s, base) is Some ==> digits_value(s, base)->0 < vstd::arithmetic::power::pow(
            base as int,
            s.len(),
        ),
    decreases s.len(),
{
    reveal(vstd::arithmetic::power::pow);
    if s.len() > 0 && digits_value(s, base) is Some {
        lemma_digits_value_bound(s.drop_last(), base);
        let high = digits_value(s.drop_last(), base)->0 as int;
        let low = digit_value(s.last(), base)->0 as int;
        let p = vstd::arithmetic::power::pow(base as int, (s.len() - 1) as nat);
        assert(high * base + low < base * p) by (nonlinear_arith)
            requires
                high < p,
                0 <= low < base,
        ;
    }
}

/// One digit as text.
fn digit_str(d: u32) -> (r: &'static str)
    requires
        d < 16,
    ensures
        r@ == seq![digit_chars()[d as int]],
{
    proof {
        reveal_strlit("0");
        reveal_strlit("1");
        reveal_strlit("2");
        reveal_strlit("3");
        reveal_strlit("4");
        reveal_strlit("5");
        reveal_strlit("6");
        reveal_strlit("7");
        reveal_strlit("8");
        reveal_strlit("9");
        reveal_strlit("a");
        reveal_strlit("b");
        reveal_strlit("c");
        reveal_strlit("d");
        reveal_strlit("e");
        reveal_strlit("f");
    }
    let r: &'static str = match d {
        0 => "0",
        1 => "1",
        2 => "2",
        3 => "3",
        4 => "4",
        5 => "5",
        6 => "6",
        7 => "7",
        8 => "8",
        9 => "9",
        10 => "a",
        11 => "b",
        12 => "c",
        13 => "d",
        14 => "e",
        _ => "f",
    };
    assert(r@ =~= seq![digit_chars()[d as int]]);
    r
}

/// Appends the decimal numeral of `n`.
pub fn append_decimal(out: &mut String, n: u64)
    ensures
        final(out)@ == old(out)@ + decimal_text(n as nat),
    decreases n,
{
    if n >= 10 {
        append_decimal(out, n / 10);
    }
    out.append(digit_str((n % 10) as u32));
    assert(out@ =~= old(out)@ + decimal_text(n as nat));
}

/// Appends the lowest `width` hexadecimal digits of `n`.
pub fn append_hex(out: &mut String, n: u128, width: u32)
    ensures
        final(out)@ == old(out)@ + hex_text(n as nat, width as nat),
    decreases width,
{
    if width > 0 {
        append_hex(out, n / 16, width - 1);
        out.append(digit_str((n % 16) as u32));
    }
    assert(out@ =~= old(out)@ + hex_text(n as nat, width as nat));
}

/// Whether `a` comes strictly before `b` in dictionary order.
pub fn comes_before(a: &str, b: &str) -> (r: bool)
    ensures
        r == precedes(a@, b@),
{
    let x: Vec<char> = to_chars(a);
    let y: Vec<char> = to_chars(b);
    let mut i: usize = 0;
    assert(x@.skip(0) =~= x@ && y@.skip(0) =~= y@);
    loop
        invariant
            x@ == a@,
            y@ == b@,
            i <= x@.len(),
            i <= y@.len(),
            precedes(a@, b@) == precedes(x@.skip(i as int), y@.skip(i as int)),
        decreases x@.len() - i,
    {
        if i == y.len() {
            return false;
        }
        if i == x.len() {
            return true;
        }
        if x[i] != y[i] {
            return x[i] < y[i];
        }
        assert(x@.skip(i as int).skip(1) =~= x@.skip(i + 1));
        assert(y@.skip(i as int).skip(1) =~= y@.skip(i + 1));
        i += 1;
    }
}

/// Every digit character stands for its own place in the table.
proof fn lemma_digit_chars(d: int, base: nat)
    requires
        0 <= d < base <= 16,
    ensures
        digit_value(digit_chars()[d], base) == Some(d as nat),
        d < 10 ==> '0' <= digit_chars()[d] <= '9',
        d >= 10 ==> 'a' <= digit_chars()[d] <= 'f',
{
}

/// A decimal numeral is a nonempty run of digits with the number as its value.
pub proof fn lemma_decimal_text(n: nat)
    ensures
        decimal_text(n).len() >= 1,
        forall|i: int| 0 <= i < decimal_text(n).len() ==> '0' <= #[trigger] decimal_text(n)[i] <= '9',
        digits_value(decimal_text(n), 10) == Some(n),
    decreases n,
{
    if n < 10 {
        lemma_digit_chars(n as int, 10);
        assert(decimal_text(n).drop_last() =~= Seq::<char>::empty());
        assert(digits_value(Seq::<char>::empty(), 10) == Some(0nat));
    } else {
        lemma_decimal_text(n / 10);
        lemma_digit_chars((n % 10) as int, 10);
        assert(decimal_text(n).drop_last() =~= decimal_text(n / 10));
    }
}

/// Reading a decimal numeral gives back its number, where the bound admits it.
pub proof fn lemma_parsed_decimal_text(n: nat, max: nat)
    ensures
        parsed_decimal(decimal_text(n), max) == if n <= max { Some(n) } else { None },
{
    lemma_decimal_text(n);
}

/// Fixed-width hexadecimal text has the width asked for, holds only digits, and
/// its value is the number wherever the width can hold it.
pub proof fn lemma_hex_text(n: nat, width: nat)
    ensures
        hex_text(n, width).len() == width,
        forall|i: int| 0 <= i < width ==> {
            ||| '0' <= #[trigger] hex_text(n, width)[i] <= '9'
            ||| 'a' <= hex_text(n, width)[i] <= 'f'
        },
        digits_value(hex_text(n, width), 16) is Some,
        n < vstd::arithmetic::power::pow(16, width) ==> digits_value(hex_text(n, width), 16) == Some(
            n,
        ),
    decreases width,
{
    reveal(vstd::arithmetic::power::pow);
    if width > 0 {
        let less = (width - 1) as nat;
        lemma_hex_text(n / 16, less);
        lemma_digit_chars((n % 16) as int, 16);
        assert(hex_text(n, width).drop_last() =~= hex_text(n / 16, less));
    }
}

/// Numbers that fit in the width are told apart by their hexadecimal text.
pub proof fn lemma_hex_text_injective(a: nat, b: nat, width: nat)
    requires
        a < vstd::arithmetic::power::pow(16, width),
        b < vstd::arithmetic::power::pow(16, width),
        hex_text(a, width) == hex_text(b, width),
    ensures
        a == b,
{
    lemma_hex_text(a, width);
    lemma_hex_text(b, width);
}

/// Text of the same length that comes first stays first whatever follows it.
pub proof fn lemma_precedes_extends(a: Seq<char>, b: Seq<char>, x: Seq<char>, y: Seq<char>)
    requires
        a.len() == b.len(),
        precedes(a, b),
    ensures
        precedes(a + x, b + y),
    decreases a.len(),
{
    if a[0] == b[0] {
        lemma_precedes_extends(a.skip(1), b.skip(1), x, y);
        assert((a + x).skip(1) =~= a.skip(1) + x);
        assert((b + y).skip(1) =~= b.skip(1) + y);
    }
}

/// A common beginning does not change which text comes first.
pub proof fn lemma_precedes_common(p: Seq<char>, a: Seq<char>, b: Seq<char>)
    ensures
        precedes(p + a, p + b) == precedes(a, b),
    decreases p.len(),
{
    if p.len() == 0 {
        assert(p + a =~= a && p + b =~= b);
    } else {
        lemma_precedes_common(p.skip(1), a, b);
        assert((p + a).skip(1) =~= p.skip(1) + a);
        assert((p + b).skip(1) =~= p.skip(1) + b);
    }
}

/// Fixed-width hexadecimal text is ordered as the numbers are.
pub proof fn lemma_hex_text_order(a: nat, b: nat, width: nat)
    requires
        a < b < vstd::arithmetic::power::pow(16, width),
    ensures
        precedes(hex_text(a, width), hex_text(b, width)),
    decreases width,
{
    reveal(vstd::arithmetic::power::pow);
    assert(width > 0);
    let less = (width - 1) as nat;
    lemma_hex_text(a / 16, less);
    lemma_hex_text(b / 16, less);
    let x = seq![digit_chars()[(a % 16) as int]];
    let y = seq![digit_chars()[(b % 16) as int]];
    assert(hex_text(a, width) =~= hex_text(a / 16, less) + x);
    assert(hex_text(b, width) =~= hex_text(b / 16, less) + y);
    if a / 16 < b / 16 {
        lemma_hex_text_order(a / 16, b / 16, less);
        lemma_precedes_extends(hex_text(a / 16, less), hex_text(b / 16, less), x, y);
    } else {
        lemma_digit_chars((a % 16) as int, 16);
        lemma_digit_chars((b % 16) as int, 16);
        lemma_precedes_common(hex_text(a / 16, less), x, y);
    }
}

/// Nothing comes before itself.
pub proof fn lemma_precedes_irreflexive(a: Seq<char>)
    ensures
        !precedes(a, a),
    decreases a.len(),
{
    if a.len() > 0 {
        lemma_precedes_irreflexive(a.skip(1));
    }
}

/// Dictionary order is transitive.
pub proof fn lemma_precedes_transitive(a: Seq<char>, b: Seq<char>, c: Seq<char>)
    requires
        precedes(a, b),
        precedes(b, c),
    ensures
        precedes(a, c),
    decreases a.len(),
{
    if a.len() > 0 && a[0] == b[0] && b[0] == c[0] {
        lemma_precedes_transitive(a.skip(1), b.skip(1), c.skip(1));
    }
}

/// Of two different texts one comes first.
pub proof fn lemma_precedes_total(a: Seq<char>, b: Seq<char>)
    ensures
        a == b || precedes(a, b) || precedes(b, a),
    decreases a.len(),
{
    if a.len() == 0 || b.len() == 0 {
        assert(a.len() == b.len() ==> a =~= b);
    } else if a[0] == b[0] {
        lemma_precedes_total(a.skip(1), b.skip(1));
        if a.skip(1) == b.skip(1) {
            assert(a =~= seq![a[0]] + a.skip(1));
            assert(b =~= seq![b[0]] + b.skip(1));
        }
    }
}

/// The last `c` stands right before a tail that holds none.
pub proof fn lemma_last_position_before(head: Seq<char>, c: char, tail: Seq<char>)
    requires
        forall|i: int| 0 <= i < tail.len() ==> tail[i] != c,
    ensures
        last_position(head + seq![c] + tail, c) == head.len(),
    decreases tail.len(),
{
    let s = head + seq![c] + tail;
    if tail.len() > 0 {
        lemma_last_position_before(head, c, tail.drop_last());
        assert(s.drop_last() =~= head + seq![c] + tail.drop_last());
    }
}

/// The last position of `c` holds `c`, and nothing after it does.
pub proof fn lemma_last_position(s: Seq<char>, c: char)
    ensures
        -1 <= last_position(s, c) < s.len(),
        last_position(s, c) >= 0 ==> s[last_position(s, c)] == c,
        forall|i: int| last_position(s, c) < i < s.len() ==> s[i] != c,
    decreases s.len(),
{
    if s.len() > 0 && s.last() != c {
        lemma_last_position(s.drop_last(), c);
        assert forall|i: int| last_position(s, c) < i < s.len() implies s[i] != c by {
            if i < s.len() - 1 {
                assert(s.drop_last()[i] == s[i]);
            }
        }
    }
}

} // verus!

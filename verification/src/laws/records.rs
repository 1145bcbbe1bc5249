//! What checksums and the names of records are.

use vstd::prelude::*;

#[allow(unused_imports)]
use crate::checksum::{crc32, crc_bit, crc_bits, crc_byte, crc_state};
#[allow(unused_imports)]
use crate::record::{
    is_pending_name, is_temp_name, lemma_pending_name_has_stem, new_record_stem, pending_declared,
    promote_name, stem_checksum, stem_length, stem_of, temp_declared, temp_expected_len, Declared,
    RecordStamp,
};
#[allow(unused_imports)]
use crate::text::{
    decimal_text, digits_value, hex_text, last_position, lemma_digits_value_bound, lemma_hex_text,
    lemma_last_position_before, parsed_decimal,
};
#[allow(unused_imports)]
use super::numerals::{law_last_position_is_last, law_parts_stand_at_the_ends};

verus! {

/// One bit of the division by the IEEE polynomial, with the lowest bit first.
pub open spec fn divided(remainder: u32) -> u32 {
    if remainder % 2 == 1 {
        (remainder / 2) ^ 0xedb8_8320
    } else {
        remainder / 2
    }
}

/// The checksum of one byte more: the byte is taken into the complement of the checksum, and
/// the division goes on for eight bits. The checksum of nothing is zero.
pub proof fn law_checksum_takes_byte_by_byte(
    bytes: &[u8],
    longer: &[u8],
    byte: u8,
    r: u32,
    s: u32,
)
    requires
        call_ensures(crc32, (bytes,), r),
        call_ensures(crc32, (longer,), s),
        longer@ == bytes@.push(byte),
    ensures
        bytes@.len() == 0 ==> r == 0,
        ({
            let start = (!r) ^ (byte as u32);
            s == !divided(
                divided(divided(divided(divided(divided(divided(divided(start))))))),
            )
        }),
{
    assert(longer@.drop_last() =~= bytes@);
    let x = crc_state(0xffff_ffff, bytes@);
    let y = crc_state(0xffff_ffff, longer@);
    assert(x ^ 0xffff_ffff == !x && !(x ^ 0xffff_ffff) == x) by (bit_vector);
    assert(y ^ 0xffff_ffff == !y) by (bit_vector);
    assert(0xffff_ffffu32 ^ 0xffff_ffff == 0) by (bit_vector);
    assert(y == crc_byte(x, byte));
    let start = x ^ (byte as u32);
    assert forall|v: u32| #[trigger] crc_bit(v) == divided(v) by {
        assert((v & 1 == 1) == (v % 2 == 1) && v >> 1 == v / 2) by (bit_vector);
    }
    reveal_with_fuel(crc_bits, 9);
    assert(crc_bits(start, 8) == crc_bit(
        crc_bit(crc_bit(crc_bit(crc_bit(crc_bit(crc_bit(crc_bit(start))))))),
    ));
}

/// A name is one of a committed record exactly where it is `record-`, anything and
/// `.bundle`.
pub proof fn law_committed_names(name: &str, middle: Seq<char>, r: bool)
    requires
        call_ensures(is_pending_name, (name,), r),
    ensures
        name@ == "record-"@ + middle + ".bundle"@ ==> r,
        r ==> exists|m: Seq<char>| name@ == "record-"@ + m + ".bundle"@,
{
    lemma_name_has_middle(name@, ".bundle"@, middle);
    lemma_pending_name_has_stem(name@);
    if r {
        let m = stem_of(name@, ".bundle"@)->0;
        assert(name@ == "record-"@ + m + ".bundle"@);
    }
}

/// A name is one of a record being written exactly where it is `record-`, anything and
/// `.tmp`.
pub proof fn law_writing_names(name: &str, middle: Seq<char>, r: bool)
    requires
        call_ensures(is_temp_name, (name,), r),
    ensures
        name@ == "record-"@ + middle + ".tmp"@ ==> r,
        r ==> exists|m: Seq<char>| name@ == "record-"@ + m + ".tmp"@,
{
    lemma_name_has_middle(name@, ".tmp"@, middle);
    if r {
        let m = stem_of(name@, ".tmp"@)->0;
        assert(name@ == "record-"@ + m + ".tmp"@);
    }
}

/// The middle of a name is what stands between its prefix and its suffix.
proof fn lemma_name_has_middle(name: Seq<char>, suffix: Seq<char>, middle: Seq<char>)
    ensures
        name == "record-"@ + middle + suffix ==> stem_of(name, suffix) == Some(middle),
        stem_of(name, suffix) is Some ==> name == "record-"@ + stem_of(name, suffix)->0 + suffix,
{
    reveal_strlit("record-");
    let body = name.skip(7);
    law_parts_stand_at_the_ends(name, "record-"@, middle + suffix);
    law_parts_stand_at_the_ends(body, suffix, middle);
    if name == "record-"@ + middle + suffix {
        assert(name =~= "record-"@ + (middle + suffix));
        assert(body =~= middle + suffix);
        assert(body.take(body.len() - suffix.len()) =~= middle);
    }
    if stem_of(name, suffix) is Some {
        let m = stem_of(name, suffix)->0;
        assert(name =~= "record-"@ + m + suffix);
    }
}

/// Whether a text holds no dash.
pub open spec fn without_dash(text: Seq<char>) -> bool {
    !text.contains('-')
}

/// The length in the name of a record being written is the number behind its last dash;
/// names without a dash and other names have none.
pub proof fn law_lengths_stand_behind_the_last_dash(
    name: &str,
    head: Seq<char>,
    number: Seq<char>,
    r: Option<usize>,
)
    requires
        call_ensures(temp_expected_len, (name,), r),
    ensures
        name@ == "record-"@ + (head + seq!['-'] + number) + ".tmp"@ && without_dash(number) ==> match r {
            Some(len) => parsed_decimal(number, usize::MAX as nat) == Some(len as nat),
            None => parsed_decimal(number, usize::MAX as nat) is None,
        },
        name@ == "record-"@ + number + ".tmp"@ && without_dash(number) ==> r is None,
        (forall|m: Seq<char>| name@ != "record-"@ + m + ".tmp"@) ==> r is None,
{
    let stem = head + seq!['-'] + number;
    lemma_name_has_middle(name@, ".tmp"@, stem);
    lemma_name_has_middle(name@, ".tmp"@, number);
    if without_dash(number) {
        lemma_length_behind_dash(head, number);
    }
    if stem_of(name@, ".tmp"@) is Some {
        let m = stem_of(name@, ".tmp"@)->0;
        assert(name@ == "record-"@ + m + ".tmp"@);
    }
}

/// The number behind the last dash.
proof fn lemma_length_behind_dash(head: Seq<char>, number: Seq<char>)
    requires
        without_dash(number),
    ensures
        stem_length(head + seq!['-'] + number) == parsed_decimal(number, usize::MAX as nat),
        stem_length(number) is None,
{
    let stem = head + seq!['-'] + number;
    assert forall|i: int| 0 <= i < number.len() implies number[i] != '-' by {
        assert(number.contains(number[i]));
    }
    lemma_last_position_before(head, '-', number);
    assert(stem.skip(head.len() as int + 1) =~= number);
    law_last_position_is_last(number, '-');
    if last_position(number, '-') >= 0 {
        assert(number.contains(number[last_position(number, '-')]));
    }
}

/// What a field before the length says of the checksum: `crc` and the eight hexadecimal
/// digits of a number declare the number, and any other field declares none.
pub open spec fn field_declares(field: Seq<char>, checksum: Option<u32>) -> bool {
    match checksum {
        Some(sum) => field == "crc"@ + hex_text(sum as nat, 8),
        None => forall|sum: u32| field != "crc"@ + #[trigger] hex_text(sum as nat, 8),
    }
}

/// What a declaration is, given the two last fields of a stem.
pub open spec fn fields_declare(field: Seq<char>, number: Seq<char>, r: Option<Declared>) -> bool {
    match r {
        Some(declared) => {
            &&& parsed_decimal(number, usize::MAX as nat) == Some(declared.len as nat)
            &&& field_declares(field, declared.checksum)
        },
        None => parsed_decimal(number, usize::MAX as nat) is None,
    }
}

/// Eight hexadecimal digits are the numeral of their value.
proof fn lemma_eight_digits(digits: Seq<char>)
    requires
        digits.len() == 8,
        digits_value(digits, 16) is Some,
    ensures
        digits_value(digits, 16)->0 < 0x1_0000_0000,
        hex_text(digits_value(digits, 16)->0, 8) == digits,
{
    lemma_digits_value_bound(digits, 16);
    assert(vstd::arithmetic::power::pow(16, 8) == 0x1_0000_0000) by {
        reveal_with_fuel(vstd::arithmetic::power::pow, 9);
    }
    lemma_numeral_of_value(digits);
}

/// A run of hexadecimal digits is the numeral of its value at its width.
proof fn lemma_numeral_of_value(digits: Seq<char>)
    requires
        digits_value(digits, 16) is Some,
    ensures
        hex_text(digits_value(digits, 16)->0, digits.len()) == digits,
    decreases digits.len(),
{
    if digits.len() == 0 {
        assert(hex_text(digits_value(digits, 16)->0, 0) =~= digits);
    } else {
        let before = digits.drop_last();
        lemma_numeral_of_value(before);
        let high = digits_value(before, 16)->0;
        let low = crate::text::digit_value(digits.last(), 16)->0;
        let value = digits_value(digits, 16)->0;
        assert(value == high * 16 + low);
        assert(value / 16 == high && value % 16 == low);
        assert(crate::text::digit_chars()[low as int] == digits.last());
        assert(hex_text(value, digits.len()) =~= digits);
    }
}

/// What the last two fields of a stem say.
proof fn lemma_stem_fields(stem: Seq<char>, field: Seq<char>, number: Seq<char>)
    requires
        without_dash(field),
        without_dash(number),
        stem == field + seq!['-'] + number || exists|id: Seq<char>|
            stem == id + seq!['-'] + field + seq!['-'] + number,
    ensures
        stem_length(stem) == parsed_decimal(number, usize::MAX as nat),
        field_declares(field, stem_checksum(stem)),
{
    reveal_strlit("crc");
    let head = if stem == field + seq!['-'] + number {
        field
    } else {
        (choose|id: Seq<char>| stem == id + seq!['-'] + field + seq!['-'] + number) + seq!['-']
            + field
    };
    assert(stem =~= head + seq!['-'] + number);
    lemma_length_behind_dash(head, number);
    assert forall|i: int| 0 <= i < number.len() implies number[i] != '-' by {
        assert(number.contains(number[i]));
    }
    assert forall|i: int| 0 <= i < field.len() implies field[i] != '-' by {
        assert(field.contains(field[i]));
    }
    lemma_last_position_before(head, '-', number);
    assert(stem.take(head.len() as int) =~= head);
    if stem == field + seq!['-'] + number {
        law_last_position_is_last(field, '-');
        if last_position(field, '-') >= 0 {
            assert(field.contains(field[last_position(field, '-')]));
        }
        assert(last_position(field, '-') == -1) by {
            lemma_absent(field, '-');
        }
        assert(head.skip(0) =~= field);
    } else {
        let id = choose|id: Seq<char>| stem == id + seq!['-'] + field + seq!['-'] + number;
        lemma_last_position_before(id, '-', field);
        assert(head.skip(id.len() as int + 1) =~= field);
    }
    assert(crate::record::checksum_field(stem) == field);
    let digits = field.skip(3);
    if stem_checksum(stem) is Some {
        lemma_eight_digits(digits);
        law_parts_stand_at_the_ends(field, "crc"@, digits);
    } else {
        assert forall|v: u32| field != "crc"@ + #[trigger] hex_text(v as nat, 8) by {
            if field == "crc"@ + hex_text(v as nat, 8) {
                lemma_hex_text(v as nat, 8);
                assert(vstd::arithmetic::power::pow(16, 8) == 0x1_0000_0000) by {
                    reveal_with_fuel(vstd::arithmetic::power::pow, 9);
                }
                assert(digits =~= hex_text(v as nat, 8));
                law_parts_stand_at_the_ends(field, "crc"@, digits);
            }
        }
    }
}

/// A character that does not occur has no place.
proof fn lemma_absent(text: Seq<char>, c: char)
    requires
        !text.contains(c),
    ensures
        last_position(text, c) == -1,
    decreases text.len(),
{
    if text.len() > 0 {
        assert(text.last() == text[text.len() - 1]);
        let before = text.drop_last();
        assert(!before.contains(c)) by {
            if before.contains(c) {
                let i = choose|i: int| 0 <= i < before.len() && before[i] == c;
                assert(text[i] == c);
            }
        }
        lemma_absent(before, c);
    }
}

/// What the name of a committed record declares: the number behind its last dash is the
/// length, and the field before that the checksum, where it is one. Names without a dash and
/// other names declare nothing.
pub proof fn law_committed_names_declare(
    name: &str,
    id: Seq<char>,
    field: Seq<char>,
    number: Seq<char>,
    r: Option<Declared>,
)
    requires
        call_ensures(pending_declared, (name,), r),
        without_dash(field),
        without_dash(number),
    ensures
        name@ == "record-"@ + (id + seq!['-'] + field + seq!['-'] + number) + ".bundle"@
            ==> fields_declare(field, number, r),
        name@ == "record-"@ + (field + seq!['-'] + number) + ".bundle"@ ==> fields_declare(
            field,
            number,
            r,
        ),
        name@ == "record-"@ + number + ".bundle"@ ==> r is None,
        (forall|m: Seq<char>| name@ != "record-"@ + m + ".bundle"@) ==> r is None,
{
    lemma_declares(name@, ".bundle"@, id, field, number);
    if stem_of(name@, ".bundle"@) is Some {
        let m = stem_of(name@, ".bundle"@)->0;
        lemma_name_has_middle(name@, ".bundle"@, m);
        assert(name@ == "record-"@ + m + ".bundle"@);
    }
}

/// What the name of a record being written declares, in the same way.
pub proof fn law_writing_names_declare(
    name: &str,
    id: Seq<char>,
    field: Seq<char>,
    number: Seq<char>,
    r: Option<Declared>,
)
    requires
        call_ensures(temp_declared, (name,), r),
        without_dash(field),
        without_dash(number),
    ensures
        name@ == "record-"@ + (id + seq!['-'] + field + seq!['-'] + number) + ".tmp"@
            ==> fields_declare(field, number, r),
        name@ == "record-"@ + (field + seq!['-'] + number) + ".tmp"@ ==> fields_declare(
            field,
            number,
            r,
        ),
        name@ == "record-"@ + number + ".tmp"@ ==> r is None,
        (forall|m: Seq<char>| name@ != "record-"@ + m + ".tmp"@) ==> r is None,
{
    lemma_declares(name@, ".tmp"@, id, field, number);
    if stem_of(name@, ".tmp"@) is Some {
        let m = stem_of(name@, ".tmp"@)->0;
        lemma_name_has_middle(name@, ".tmp"@, m);
        assert(name@ == "record-"@ + m + ".tmp"@);
    }
}

/// What a name declares, by its last two fields.
proof fn lemma_declares(
    name: Seq<char>,
    suffix: Seq<char>,
    id: Seq<char>,
    field: Seq<char>,
    number: Seq<char>,
)
    requires
        without_dash(field),
        without_dash(number),
    ensures
        ({
            let r = crate::record::name_declares(name, suffix);
            &&& name == "record-"@ + (id + seq!['-'] + field + seq!['-'] + number) + suffix
                ==> fields_declare(field, number, r)
            &&& name == "record-"@ + (field + seq!['-'] + number) + suffix ==> fields_declare(
                field,
                number,
                r,
            )
            &&& name == "record-"@ + number + suffix ==> r is None
        }),
{
    let long = id + seq!['-'] + field + seq!['-'] + number;
    let short = field + seq!['-'] + number;
    lemma_name_has_middle(name, suffix, long);
    lemma_name_has_middle(name, suffix, short);
    lemma_name_has_middle(name, suffix, number);
    lemma_stem_fields(long, field, number);
    lemma_stem_fields(short, field, number);
    lemma_length_behind_dash(field, number);
}

/// New records are named after time, process, counter, checksum and length, in this order
/// and in fixed widths but for the length.
pub proof fn law_new_names(stamp: RecordStamp, checksum: u32, raw_len: usize, r: String)
    requires
        call_ensures(new_record_stem, (stamp, checksum, raw_len), r),
    ensures
        r@ == "record-"@ + hex_text(stamp.nanos as nat, 32) + seq!['-'] + hex_text(
            stamp.process_id as nat,
            8,
        ) + seq!['-'] + hex_text(stamp.counter as nat, 16) + "-crc"@ + hex_text(checksum as nat, 8)
            + seq!['-'] + decimal_text(raw_len as nat),
{
    reveal_strlit("-");
    assert(r@ =~= "record-"@ + hex_text(stamp.nanos as nat, 32) + seq!['-'] + hex_text(
        stamp.process_id as nat,
        8,
    ) + seq!['-'] + hex_text(stamp.counter as nat, 16) + "-crc"@ + hex_text(checksum as nat, 8)
        + seq!['-'] + decimal_text(raw_len as nat));
}

/// A record is committed under the name that it had while it was written, with `.bundle` in
/// place of `.tmp`.
pub proof fn law_committed_name_follows_the_written(name: &str, middle: Seq<char>, r: String)
    requires
        call_ensures(promote_name, (name,), r),
        name@ == "record-"@ + middle + ".tmp"@,
    ensures
        r@ == "record-"@ + middle + ".bundle"@,
{
    assert(name@.take(name@.len() - ".tmp"@.len()) =~= "record-"@ + middle);
}

} // verus!

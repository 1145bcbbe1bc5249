//! The names under which the journal keeps its records.
//!
//! A record is called `record-<id>-crc<checksum>-<length>`, followed by `.tmp`
//! while it is being written and by `.bundle` once it is committed. The length is
//! that of the contents. A name whose field before the length has not this form declares
//! a length only.
//! The name is a storage identity and no message identity: equal contents get
//! different records.

use vstd::prelude::*;
use vstd::slice::slice_subrange;
use vstd::string::*;

use crate::text::{append_decimal, append_hex, find_last, matches_at, read_decimal, read_hex_word, to_chars};
#[allow(unused_imports)]
use crate::text::{
    begins_with, decimal_text, digits_value, ends_with, hex_text, last_position, lemma_decimal_text,
    lemma_hex_text, lemma_hex_text_injective, lemma_hex_text_order, lemma_last_position_before,
    lemma_parsed_decimal_text, lemma_precedes_common, lemma_precedes_extends, parsed_decimal,
    precedes,
};

verus! {

/// What every record name begins with.
pub open spec fn record_prefix() -> Seq<char> {
    "record-"@
}

/// What the name of a record ends with while it is being written.
pub open spec fn temp_suffix() -> Seq<char> {
    ".tmp"@
}

/// What the name of a committed record ends with.
pub open spec fn pending_suffix() -> Seq<char> {
    ".bundle"@
}

/// What stands between the prefix and the given suffix of a name.
pub open spec fn stem_of(name: Seq<char>, suffix: Seq<char>) -> Option<Seq<char>> {
    let body = name.skip(record_prefix().len() as int);
    if begins_with(name, record_prefix()) && ends_with(body, suffix) {
        Some(body.take(body.len() - suffix.len()))
    } else {
        None
    }
}

/// The length that a stem declares: the number behind its last dash.
pub open spec fn stem_length(stem: Seq<char>) -> Option<nat> {
    let dash = last_position(stem, '-');
    if dash < 0 {
        None
    } else {
        parsed_decimal(stem.skip(dash + 1), usize::MAX as nat)
    }
}

/// The field before the length: what stands between the last two dashes, or before
/// the last dash where there is only one.
pub open spec fn checksum_field(stem: Seq<char>) -> Seq<char> {
    let head = stem.take(last_position(stem, '-'));
    head.skip(last_position(head, '-') + 1)
}

/// The checksum that a stem declares: `crc` and eight lower-case hexadecimal digits in the
/// field before the length. Any other field belongs to the id of the record.
pub open spec fn stem_checksum(stem: Seq<char>) -> Option<u32> {
    let field = checksum_field(stem);
    let digits = field.skip(3);
    if last_position(stem, '-') >= 0 && begins_with(field, "crc"@) && digits.len() == 8
        && digits_value(digits, 16) is Some {
        Some(digits_value(digits, 16)->0 as u32)
    } else {
        None
    }
}

/// What a well-formed record name declares of the contents.
#[derive(Clone, Copy, Debug, PartialEq, Eq)]
pub struct Declared {
    /// The length of the contents in bytes.
    pub len: usize,
    /// The CRC32-IEEE checksum of the contents, where the name carries one.
    pub checksum: Option<u32>,
}

/// What a stem declares, where it is well formed.
pub open spec fn stem_declares(stem: Seq<char>) -> Option<Declared> {
    match stem_length(stem) {
        None => None,
        Some(len) => Some(Declared { len: len as usize, checksum: stem_checksum(stem) }),
    }
}

/// What the name of a record declares under the given suffix.
pub open spec fn name_declares(name: Seq<char>, suffix: Seq<char>) -> Option<Declared> {
    match stem_of(name, suffix) {
        None => None,
        Some(stem) => stem_declares(stem),
    }
}

/// Whether a name is in the set reserved for committed records.
pub open spec fn pending_name(name: Seq<char>) -> bool {
    begins_with(name, record_prefix()) && ends_with(name, pending_suffix())
}

/// Whether a name is in the set reserved for records that are being written.
pub open spec fn temp_name(name: Seq<char>) -> bool {
    stem_of(name, temp_suffix()) is Some
}

/// Cuts the stem out of a name.
fn cut_stem(name: &str, suffix: &str) -> (r: Option<Vec<char>>)
    ensures
        match r {
            Some(stem) => stem_of(name@, suffix@) == Some(stem@),
            None => stem_of(name@, suffix@) is None,
        },
{
    let chars: Vec<char> = to_chars(name);
    let suffix_len: usize = to_chars(suffix).len();
    proof {
        reveal_strlit("record-");
    }
    if !matches_at(chars.as_slice(), 0, "record-") {
        return None;
    }
    let body: &[char] = slice_subrange(chars.as_slice(), 7, chars.len());
    assert(body@ =~= name@.skip(7));
    if body.len() < suffix_len {
        return None;
    }
    if !matches_at(body, body.len() - suffix_len, suffix) {
        return None;
    }
    let mut stem: Vec<char> = Vec::new();
    let mut i: usize = 0;
    let end: usize = body.len() - suffix_len;
    while i < end
        invariant
            i <= end <= body@.len(),
            stem@ == body@.take(i as int),
        decreases end - i,
    {
        stem.push(body[i]);
        assert(body@.take(i + 1) =~= body@.take(i as int).push(body@[i as int]));
        i += 1;
    }
    Some(stem)
}

/// The length that a stem declares.
fn read_stem_length(stem: &[char]) -> (r: Option<usize>)
    ensures
        match r {
            Some(len) => stem_length(stem@) == Some(len as nat),
            None => stem_length(stem@) is None,
        },
{
    let end: usize = stem.len();
    match find_last(stem, '-') {
        None => None,
        Some(dash) => {
            let digits: &[char] = slice_subrange(stem, dash + 1, end);
            assert(digits@ =~= stem@.skip(dash + 1));
            match read_decimal(digits, usize::MAX as u64) {
                Some(len) => Some(len as usize),
                None => None,
            }
        },
    }
}

/// The checksum that a stem declares.
fn read_stem_checksum(stem: &[char]) -> (r: Option<u32>)
    ensures
        r == stem_checksum(stem@),
{
    proof {
        reveal_strlit("crc");
    }
    match find_last(stem, '-') {
        None => None,
        Some(dash) => {
            let head: &[char] = slice_subrange(stem, 0, dash);
            assert(head@ =~= stem@.take(dash as int));
            let from: usize = match find_last(head, '-') {
                None => 0,
                Some(before) => before + 1,
            };
            let field: &[char] = slice_subrange(head, from, head.len());
            assert(field@ =~= checksum_field(stem@));
            if !matches_at(field, 0, "crc") {
                return None;
            }
            let digits: &[char] = slice_subrange(field, 3, field.len());
            assert(digits@ =~= field@.skip(3));
            read_hex_word(digits)
        },
    }
}

/// What a name declares under the given suffix.
fn read_declared(name: &str, suffix: &str) -> (r: Option<Declared>)
    ensures
        r == name_declares(name@, suffix@),
{
    match cut_stem(name, suffix) {
        None => None,
        Some(stem) => match read_stem_length(stem.as_slice()) {
            None => None,
            Some(len) => Some(Declared { len, checksum: read_stem_checksum(stem.as_slice()) }),
        },
    }
}

/// Whether a name is in the set reserved for committed records.
pub fn is_pending_name(file_name: &str) -> (r: bool)
    ensures
        r == pending_name(file_name@),
{
    let chars: Vec<char> = to_chars(file_name);
    proof {
        reveal_strlit(".bundle");
    }
    matches_at(chars.as_slice(), 0, "record-") && chars.len() >= 7 && matches_at(
        chars.as_slice(),
        chars.len() - 7,
        ".bundle",
    )
}

/// Whether a name is in the set reserved for records that are being written.
pub fn is_temp_name(file_name: &str) -> (r: bool)
    ensures
        r == temp_name(file_name@),
{
    cut_stem(file_name, ".tmp").is_some()
}

/// The length that the name of a record that is being written declares.
pub fn temp_expected_len(file_name: &str) -> (r: Option<usize>)
    ensures
        match r {
            Some(len) => stem_of(file_name@, temp_suffix()) matches Some(stem) && stem_length(stem)
                == Some(len as nat),
            None => stem_of(file_name@, temp_suffix()) matches Some(stem) ==> stem_length(stem)
                is None,
        },
{
    match cut_stem(file_name, ".tmp") {
        None => None,
        Some(stem) => read_stem_length(stem.as_slice()),
    }
}

/// What the name of a record that is being written declares of its contents.
pub fn temp_declared(file_name: &str) -> (r: Option<Declared>)
    ensures
        r == name_declares(file_name@, temp_suffix()),
{
    read_declared(file_name, ".tmp")
}

/// What the name of a committed record declares of its contents.
pub fn pending_declared(file_name: &str) -> (r: Option<Declared>)
    ensures
        r == name_declares(file_name@, pending_suffix()),
{
    read_declared(file_name, ".bundle")
}

/// When and by whom a record was made. The counter never gives the same number
/// twice in one process.
#[derive(Clone, Copy, Debug, PartialEq, Eq)]
pub struct RecordStamp {
    /// Nanoseconds since the Unix epoch.
    pub nanos: u128,
    /// The process that makes the record.
    pub process_id: u32,
    /// The records that the process made before.
    pub counter: u64,
}

impl RecordStamp {
    /// The part of a record name that tells records apart.
    pub open spec fn id_text(self) -> Seq<char> {
        hex_text(self.nanos as nat, 32) + "-"@ + hex_text(self.process_id as nat, 8) + "-"@
            + hex_text(self.counter as nat, 16)
    }
}

/// The name of a record up to its suffix.
pub open spec fn record_stem(stamp: RecordStamp, checksum: u32, raw_len: usize) -> Seq<char> {
    record_prefix() + stamp.id_text() + "-crc"@ + hex_text(checksum as nat, 8) + "-"@
        + decimal_text(raw_len as nat)
}

/// Names a new record up to its suffix.
pub fn new_record_stem(stamp: RecordStamp, checksum: u32, raw_len: usize) -> (r: String)
    ensures
        r@ == record_stem(stamp, checksum, raw_len),
{
    let mut stem: String = "record-".to_owned();
    append_hex(&mut stem, stamp.nanos, 32);
    stem.append("-");
    append_hex(&mut stem, stamp.process_id as u128, 8);
    stem.append("-");
    append_hex(&mut stem, stamp.counter as u128, 16);
    stem.append("-crc");
    append_hex(&mut stem, checksum as u128, 8);
    stem.append("-");
    append_decimal(&mut stem, raw_len as u64);
    assert(stem@ =~= record_stem(stamp, checksum, raw_len));
    stem
}

/// The name under which a record that was being written is committed.
pub open spec fn promoted_name(name: Seq<char>) -> Seq<char> {
    name.take(name.len() - temp_suffix().len()) + pending_suffix()
}

/// The name under which a record that was being written is committed.
pub fn promote_name(file_name: &str) -> (r: String)
    requires
        temp_name(file_name@),
    ensures
        r@ == promoted_name(file_name@),
{
    proof {
        reveal_strlit("record-");
        reveal_strlit(".tmp");
    }
    let end: usize = file_name.unicode_len() - 4;
    let mut promoted: String = file_name.substring_char(0, end).to_owned();
    promoted.append(".bundle");
    assert(promoted@ =~= promoted_name(file_name@));
    promoted
}

/// The fixed widths of a record name hold every stamp and every checksum.
proof fn lemma_hex_widths()
    ensures
        vstd::arithmetic::power::pow(16, 8) == 0x1_0000_0000,
        vstd::arithmetic::power::pow(16, 16) == 0x1_0000_0000_0000_0000,
        vstd::arithmetic::power::pow(16, 32) == 0x1_0000_0000_0000_0000_0000_0000_0000_0000,
{
    reveal_with_fuel(vstd::arithmetic::power::pow, 9);
    vstd::arithmetic::power::lemma_pow_adds(16, 8, 8);
    vstd::arithmetic::power::lemma_pow_adds(16, 16, 16);
    let word = vstd::arithmetic::power::pow(16, 16);
    assert(word * word == 0x1_0000_0000_0000_0000_0000_0000_0000_0000) by (nonlinear_arith)
        requires
            word == 0x1_0000_0000_0000_0000,
    ;
}

/// A committed name is a reserved name with a stem, and the other way round.
pub proof fn lemma_pending_name_has_stem(name: Seq<char>)
    ensures
        pending_name(name) <==> stem_of(name, pending_suffix()) is Some,
{
    reveal_strlit("record-");
    reveal_strlit(".bundle");
    let body = name.skip(7);
    if pending_name(name) {
        if name.len() < 14 {
            let at = name.len() - 7;
            assert(name.subrange(0, 7)[6] == '-');
            assert(name.subrange(at, at + 7)[6 - at] == '-');
            assert(false);
        }
        assert(body.subrange(body.len() - 7, body.len() as int) =~= name.subrange(
            name.len() - 7,
            name.len() as int,
        ));
    }
    if stem_of(name, pending_suffix()) is Some {
        assert(body.subrange(body.len() - 7, body.len() as int) =~= name.subrange(
            name.len() - 7,
            name.len() as int,
        ));
    }
}

/// No name is reserved both for records that are being written and for committed
/// ones.
pub proof fn law_reserved_names_are_disjoint(name: Seq<char>)
    ensures
        !(temp_name(name) && pending_name(name)),
{
    reveal_strlit("record-");
    reveal_strlit(".tmp");
    reveal_strlit(".bundle");
    if temp_name(name) && pending_name(name) {
        let body = name.skip(7);
        assert(body.subrange(body.len() - 4, body.len() as int)[3] == 'p');
        assert(name.subrange(name.len() - 7, name.len() as int)[6] == 'e');
        assert(body[body.len() - 1] == name[name.len() - 1]);
    }
}

/// The stem between a prefix and a suffix is what was put there.
proof fn lemma_stem_of(middle: Seq<char>, suffix: Seq<char>)
    ensures
        stem_of(record_prefix() + middle + suffix, suffix) == Some(middle),
{
    let name = record_prefix() + middle + suffix;
    let k = record_prefix().len() as int;
    let body = name.skip(k);
    assert(name.subrange(0, k) =~= record_prefix());
    assert(body =~= middle + suffix);
    assert(body.subrange(body.len() - suffix.len(), body.len() as int) =~= suffix);
    assert(body.take(body.len() - suffix.len()) =~= middle);
}

/// A stem that ends in a checksum field and a length declares both.
proof fn lemma_stem_declares(id: Seq<char>, checksum: u32, raw_len: usize)
    ensures
        stem_declares(
            id + seq!['-'] + ("crc"@ + hex_text(checksum as nat, 8)) + seq!['-'] + decimal_text(
                raw_len as nat,
            ),
        ) == Some(Declared { len: raw_len, checksum: Some(checksum) }),
{
    reveal_strlit("crc");
    let field = "crc"@ + hex_text(checksum as nat, 8);
    let number = decimal_text(raw_len as nat);
    let head = id + seq!['-'] + field;
    let stem = head + seq!['-'] + number;
    lemma_decimal_text(raw_len as nat);
    lemma_parsed_decimal_text(raw_len as nat, usize::MAX as nat);
    lemma_last_position_before(head, '-', number);
    assert(stem.skip(head.len() as int + 1) =~= number);
    assert(stem.take(head.len() as int) =~= head);
    lemma_hex_text(checksum as nat, 8);
    lemma_hex_widths();
    assert forall|i: int| 0 <= i < field.len() implies field[i] != '-' by {
        if i >= 3 {
            assert(field[i] == hex_text(checksum as nat, 8)[i - 3]);
        }
    }
    lemma_last_position_before(id, '-', field);
    assert(head.skip(id.len() as int + 1) =~= field);
    assert(field.subrange(0, 3) =~= "crc"@);
    assert(field.skip(3) =~= hex_text(checksum as nat, 8));
}

/// The parts of a new record name between its prefix and its suffix.
spec fn record_middle(stamp: RecordStamp, checksum: u32, raw_len: usize) -> Seq<char> {
    stamp.id_text() + seq!['-'] + ("crc"@ + hex_text(checksum as nat, 8)) + seq!['-']
        + decimal_text(raw_len as nat)
}

/// A new record name is its prefix and its parts.
proof fn lemma_record_stem_parts(stamp: RecordStamp, checksum: u32, raw_len: usize)
    ensures
        record_stem(stamp, checksum, raw_len) == record_prefix() + record_middle(
            stamp,
            checksum,
            raw_len,
        ),
{
    reveal_strlit("-crc");
    reveal_strlit("crc");
    reveal_strlit("-");
    assert(record_stem(stamp, checksum, raw_len) =~= record_prefix() + record_middle(
        stamp,
        checksum,
        raw_len,
    ));
}

/// A name declares what its middle does.
proof fn lemma_name_declares(middle: Seq<char>, suffix: Seq<char>)
    ensures
        stem_of(record_prefix() + middle + suffix, suffix) == Some(middle),
        name_declares(record_prefix() + middle + suffix, suffix) == stem_declares(middle),
{
    lemma_stem_of(middle, suffix);
}

/// Every name that a new record gets declares the length and the checksum that it
/// was made with, while it is being written and once it is committed.
pub proof fn law_new_names_declare_contents(stamp: RecordStamp, checksum: u32, raw_len: usize)
    ensures
        name_declares(record_stem(stamp, checksum, raw_len) + temp_suffix(), temp_suffix()) == Some(
            Declared { len: raw_len, checksum: Some(checksum) },
        ),
        name_declares(record_stem(stamp, checksum, raw_len) + pending_suffix(), pending_suffix())
            == Some(Declared { len: raw_len, checksum: Some(checksum) }),
        pending_name(record_stem(stamp, checksum, raw_len) + pending_suffix()),
        temp_name(record_stem(stamp, checksum, raw_len) + temp_suffix()),
        promoted_name(record_stem(stamp, checksum, raw_len) + temp_suffix()) == record_stem(
            stamp,
            checksum,
            raw_len,
        ) + pending_suffix(),
{
    let stem = record_stem(stamp, checksum, raw_len);
    let middle = record_middle(stamp, checksum, raw_len);
    assert(stem_declares(middle) == Some(Declared { len: raw_len, checksum: Some(checksum) })) by {
        lemma_stem_declares(stamp.id_text(), checksum, raw_len);
    }
    lemma_record_stem_parts(stamp, checksum, raw_len);
    lemma_name_declares(middle, temp_suffix());
    lemma_name_declares(middle, pending_suffix());
    assert(pending_name(stem + pending_suffix())) by {
        lemma_pending_name_has_stem(stem + pending_suffix());
    }
    assert(promoted_name(stem + temp_suffix()) == stem + pending_suffix()) by {
        assert((stem + temp_suffix()).take(stem.len() as int) =~= stem);
    }
}

/// Committing a record that was being written changes nothing of what its name
/// declares.
pub proof fn law_promotion_keeps_declarations(name: Seq<char>)
    requires
        temp_name(name),
    ensures
        pending_name(promoted_name(name)),
        name_declares(promoted_name(name), pending_suffix()) == name_declares(name, temp_suffix()),
{
    let middle = stem_of(name, temp_suffix())->0;
    let k = record_prefix().len() as int;
    let body = name.skip(k);
    assert(name.subrange(0, k) =~= record_prefix());
    assert(name.take(name.len() - temp_suffix().len()) =~= record_prefix() + middle);
    assert(promoted_name(name) =~= record_prefix() + middle + pending_suffix());
    lemma_stem_of(middle, pending_suffix());
    lemma_pending_name_has_stem(promoted_name(name));
}

/// Different records that were being written are committed under different names.
pub proof fn law_promotion_is_injective(a: Seq<char>, b: Seq<char>)
    requires
        temp_name(a),
        temp_name(b),
        promoted_name(a) == promoted_name(b),
    ensures
        a == b,
{
    reveal_strlit("record-");
    reveal_strlit(".tmp");
    let (x, y) = (a.take(a.len() - 4), b.take(b.len() - 4));
    assert(promoted_name(a).take(a.len() - 4) =~= x);
    assert(promoted_name(b).take(b.len() - 4) =~= y);
    assert(a.skip(7).len() >= 4 && b.skip(7).len() >= 4);
    assert(promoted_name(a).len() == a.len() - 4 + pending_suffix().len());
    assert(promoted_name(b).len() == b.len() - 4 + pending_suffix().len());
    assert(x == y);
    assert(a.skip(7).subrange(a.len() - 11, a.len() - 7) =~= a.skip(a.len() - 4));
    assert(b.skip(7).subrange(b.len() - 11, b.len() - 7) =~= b.skip(b.len() - 4));
    assert(a.skip(a.len() - 4) == temp_suffix());
    assert(b.skip(b.len() - 4) == temp_suffix());
    assert(a =~= x + temp_suffix());
    assert(b =~= y + temp_suffix());
}

/// Records are told apart by their stamps, whatever they hold: names are equal only
/// where the stamps are.
pub proof fn law_stamps_tell_records_apart(
    a: RecordStamp,
    a_checksum: u32,
    a_len: usize,
    b: RecordStamp,
    b_checksum: u32,
    b_len: usize,
)
    requires
        record_stem(a, a_checksum, a_len) == record_stem(b, b_checksum, b_len),
    ensures
        a == b,
{
    reveal_strlit("record-");
    reveal_strlit("-");
    lemma_hex_widths();
    let (x, y) = (record_stem(a, a_checksum, a_len), record_stem(b, b_checksum, b_len));
    lemma_hex_text(a.nanos as nat, 32);
    lemma_hex_text(b.nanos as nat, 32);
    lemma_hex_text(a.process_id as nat, 8);
    lemma_hex_text(b.process_id as nat, 8);
    lemma_hex_text(a.counter as nat, 16);
    lemma_hex_text(b.counter as nat, 16);
    assert(x.subrange(7, 39) =~= hex_text(a.nanos as nat, 32));
    assert(y.subrange(7, 39) =~= hex_text(b.nanos as nat, 32));
    assert(x.subrange(40, 48) =~= hex_text(a.process_id as nat, 8));
    assert(y.subrange(40, 48) =~= hex_text(b.process_id as nat, 8));
    assert(x.subrange(49, 65) =~= hex_text(a.counter as nat, 16));
    assert(y.subrange(49, 65) =~= hex_text(b.counter as nat, 16));
    lemma_hex_text_injective(a.nanos as nat, b.nanos as nat, 32);
    lemma_hex_text_injective(a.process_id as nat, b.process_id as nat, 8);
    lemma_hex_text_injective(a.counter as nat, b.counter as nat, 16);
}

/// What follows the counter in the name of a committed record.
spec fn after_counter(checksum: u32, raw_len: usize) -> Seq<char> {
    "-crc"@ + hex_text(checksum as nat, 8) + "-"@ + decimal_text(raw_len as nat) + pending_suffix()
}

/// What follows the time in the name of a committed record.
spec fn after_nanos(stamp: RecordStamp, checksum: u32, raw_len: usize) -> Seq<char> {
    "-"@ + hex_text(stamp.process_id as nat, 8) + "-"@ + hex_text(stamp.counter as nat, 16)
        + after_counter(checksum, raw_len)
}

/// What stands before the counter in the name of a record.
spec fn before_counter(stamp: RecordStamp) -> Seq<char> {
    record_prefix() + hex_text(stamp.nanos as nat, 32) + "-"@ + hex_text(
        stamp.process_id as nat,
        8,
    ) + "-"@
}

/// The name of a committed record, cut around its time and around its counter.
proof fn lemma_name_cuts(stamp: RecordStamp, checksum: u32, raw_len: usize)
    ensures
        record_stem(stamp, checksum, raw_len) + pending_suffix() == record_prefix() + (hex_text(
            stamp.nanos as nat,
            32,
        ) + after_nanos(stamp, checksum, raw_len)),
        record_stem(stamp, checksum, raw_len) + pending_suffix() == before_counter(stamp) + (
        hex_text(stamp.counter as nat, 16) + after_counter(checksum, raw_len)),
{
    let name = record_stem(stamp, checksum, raw_len) + pending_suffix();
    assert(name =~= record_prefix() + (hex_text(stamp.nanos as nat, 32) + after_nanos(
        stamp,
        checksum,
        raw_len,
    )));
    assert(name =~= before_counter(stamp) + (hex_text(stamp.counter as nat, 16) + after_counter(
        checksum,
        raw_len,
    )));
}

/// A record that was made earlier comes first in name order, and so does the one
/// that a process made first in one instant.
pub proof fn law_older_records_come_first(
    a: RecordStamp,
    a_checksum: u32,
    a_len: usize,
    b: RecordStamp,
    b_checksum: u32,
    b_len: usize,
)
    requires
        a.nanos < b.nanos || (a.nanos == b.nanos && a.process_id == b.process_id && a.counter
            < b.counter),
    ensures
        precedes(
            record_stem(a, a_checksum, a_len) + pending_suffix(),
            record_stem(b, b_checksum, b_len) + pending_suffix(),
        ),
{
    lemma_hex_widths();
    lemma_name_cuts(a, a_checksum, a_len);
    lemma_name_cuts(b, b_checksum, b_len);
    if a.nanos < b.nanos {
        let (p, q) = (hex_text(a.nanos as nat, 32), hex_text(b.nanos as nat, 32));
        let (x, y) = (after_nanos(a, a_checksum, a_len), after_nanos(b, b_checksum, b_len));
        lemma_hex_text(a.nanos as nat, 32);
        lemma_hex_text(b.nanos as nat, 32);
        lemma_hex_text_order(a.nanos as nat, b.nanos as nat, 32);
        lemma_precedes_extends(p, q, x, y);
        lemma_precedes_common(record_prefix(), p + x, q + y);
    } else {
        let (p, q) = (hex_text(a.counter as nat, 16), hex_text(b.counter as nat, 16));
        let (x, y) = (after_counter(a_checksum, a_len), after_counter(b_checksum, b_len));
        lemma_hex_text(a.counter as nat, 16);
        lemma_hex_text(b.counter as nat, 16);
        lemma_hex_text_order(a.counter as nat, b.counter as nat, 16);
        lemma_precedes_extends(p, q, x, y);
        lemma_precedes_common(before_counter(a), p + x, q + y);
    }
}

} // verus!

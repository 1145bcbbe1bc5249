//! What the journal admits, lists, recovers, counts and reads.

use bytes::Bytes;
use vstd::prelude::*;

#[allow(unused_imports)]
use crate::checksum::crc32_of;
#[allow(unused_imports)]
use crate::commit::{FileOutcome, PersistRun};
#[allow(unused_imports)]
use crate::error::DtnError;
#[allow(unused_imports)]
use crate::journal::{
    lists, pending_fault, pending_names, promotions, record_is_pending, record_names, startup_fault,
    temp_fault, InboundJournal, JournalEntry, JournalPath, JournaledBundle, Promotion,
};
#[allow(unused_imports)]
use crate::outside::bytes_held;
#[allow(unused_imports)]
use crate::path::{
    components, is_rooted, join, joined, kept_parts, normal_path, normalize, split_path,
};
#[allow(unused_imports)]
use crate::record::{
    law_new_names_declare_contents, name_declares, pending_name, pending_suffix, promoted_name,
    record_stem, stem_length, stem_of, temp_name, RecordStamp,
};
#[allow(unused_imports)]
use crate::removal::RemovalStep;
#[allow(unused_imports)]
use crate::text::precedes;

verus! {

/// Whether an entry has the given name.
pub open spec fn is_named(entry: JournalEntry, name: Seq<char>) -> bool {
    entry.name is Some && entry.name->0@ == name
}

/// Whether an entry has the name of a committed record.
pub open spec fn named_committed(entry: JournalEntry) -> bool {
    entry.name is Some && pending_name(entry.name->0@)
}

/// Whether an entry has the name of a record being written.
pub open spec fn named_writing(entry: JournalEntry) -> bool {
    entry.name is Some && temp_name(entry.name->0@)
}

/// Whether an entry that has the name of a committed record may be one: a file of at most the
/// longest length whose name declares what it holds.
pub open spec fn may_be_committed(entry: JournalEntry, max: usize) -> bool {
    named_committed(entry) ==> {
        &&& entry.is_file
        &&& name_declares(entry.name->0@, ".bundle"@) is Some
        &&& entry.len <= max
    }
}

/// Whether an entry that has the name of a record being written was written to its end: a
/// file of exactly the declared length, which is at most the longest.
pub open spec fn is_complete(entry: JournalEntry, max: usize) -> bool {
    &&& entry.is_file
    &&& name_declares(entry.name->0@, ".tmp"@) is Some
    &&& entry.len == name_declares(entry.name->0@, ".tmp"@)->0.len
    &&& entry.len <= max
}

/// Whether no entry stands in the way of committing the record of an entry.
pub open spec fn has_free_way(entry: JournalEntry, listing: Seq<JournalEntry>) -> bool {
    forall|j: int|
        0 <= j < listing.len() ==> !is_named(
            #[trigger] listing[j],
            promoted_name(entry.name->0@),
        )
}

/// Whether an entry that has the name of a record being written can be recovered.
pub open spec fn may_be_recovered(
    entry: JournalEntry,
    listing: Seq<JournalEntry>,
    max: usize,
) -> bool {
    named_writing(entry) ==> is_complete(entry, max) && has_free_way(entry, listing)
}

/// The faults of an entry, said in both ways.
proof fn lemma_faults(entry: JournalEntry, listing: Seq<JournalEntry>, max: usize)
    ensures
        pending_fault(entry, max) is None <==> may_be_committed(entry, max),
        temp_fault(entry, listing, max) is None <==> may_be_recovered(entry, listing, max),
        startup_fault(entry, listing, max) is None <==> may_be_committed(entry, max)
            && may_be_recovered(entry, listing, max),
{
    if named_writing(entry) {
        let to = promoted_name(entry.name->0@);
        if lists(listing, to) {
            let j = choose|j: int|
                0 <= j < listing.len() && (#[trigger] listing[j]).text() == Some(to);
            assert(is_named(listing[j], to));
        } else {
            assert forall|j: int| 0 <= j < listing.len() implies !is_named(
                #[trigger] listing[j],
                to,
            ) by {
                assert(listing[j].text() != Some(to));
            }
        }
    }
}

/// What an error says of an entry that may not be a committed record.
pub open spec fn tells_of_committed(e: DtnError, entry: JournalEntry) -> bool {
    if !entry.is_file || name_declares(entry.name->0@, ".bundle"@) is None {
        e matches DtnError::MalformedRecord { name } && name@ == entry.name->0@
    } else {
        e matches DtnError::OversizedRecord { name } && name@ == entry.name->0@
    }
}

/// What an error says of an entry that cannot be recovered.
pub open spec fn tells_of_writing(
    e: DtnError,
    entry: JournalEntry,
    max: usize,
) -> bool {
    if !entry.is_file || name_declares(entry.name->0@, ".tmp"@) is None {
        e matches DtnError::MalformedRecord { name } && name@ == entry.name->0@
    } else if !is_complete(entry, max) {
        e matches DtnError::IncompleteTemp { name } && name@ == entry.name->0@
    } else {
        e matches DtnError::RecoveryCollision { name } && name@ == entry.name->0@
    }
}

/// How many entries have names of committed records.
pub open spec fn committed_count(listing: Seq<JournalEntry>) -> nat
    decreases listing.len(),
{
    if listing.len() == 0 {
        0
    } else if named_committed(listing.last()) {
        committed_count(listing.drop_last()) + 1
    } else {
        committed_count(listing.drop_last())
    }
}

/// The listed names of committed records, one by one.
proof fn lemma_pending_names(listing: Seq<JournalEntry>)
    ensures
        pending_names(listing).len() == committed_count(listing),
        forall|i: int|
            0 <= i < listing.len() && named_committed(#[trigger] listing[i]) ==> pending_names(
                listing,
            ).contains(listing[i].name->0@),
        forall|name: Seq<char>| #[trigger]
            pending_names(listing).contains(name) ==> pending_name(name) && exists|i: int|
                0 <= i < listing.len() && is_named(#[trigger] listing[i], name),
    decreases listing.len(),
{
    if listing.len() > 0 {
        let before = listing.drop_last();
        lemma_pending_names(before);
        let old_names = pending_names(before);
        let names = pending_names(listing);
        let last = listing.last();
        assert(named_committed(last) == last.is_pending());
        assert forall|i: int|
            0 <= i < listing.len() && named_committed(#[trigger] listing[i]) implies names.contains(
            listing[i].name->0@,
        ) by {
            if i < before.len() {
                assert(named_committed(before[i]));
                let k = choose|k: int|
                    0 <= k < old_names.len() && old_names[k] == listing[i].name->0@;
                assert(names[k] == listing[i].name->0@);
            } else {
                assert(names.last() == listing[i].name->0@);
            }
        }
        assert forall|name: Seq<char>| #[trigger] names.contains(name) implies pending_name(name)
            && exists|i: int| 0 <= i < listing.len() && is_named(#[trigger] listing[i], name) by {
            let k = choose|k: int| 0 <= k < names.len() && names[k] == name;
            if k < old_names.len() {
                assert(old_names.contains(name)) by {
                    assert(old_names[k] == name);
                }
                let i = choose|i: int| 0 <= i < before.len() && is_named(#[trigger] before[i], name);
                assert(is_named(listing[i], name));
            } else {
                assert(is_named(listing[listing.len() - 1], name));
            }
        }
    }
}

/// Pending records are listed exactly where every entry under their names may be one; the
/// error tells of the first that may not. Each such entry is listed as a record in the root
/// of the journal, nothing else is, and the names are in dictionary order.
pub proof fn law_pending_records_are_listed(
    journal: InboundJournal,
    listing: Vec<JournalEntry>,
    r: Result<Vec<JournaledBundle>, DtnError>,
)
    requires
        call_ensures(InboundJournal::pending, (&journal, &listing), r),
    ensures
        r is Ok <==> forall|i: int|
            0 <= i < listing@.len() ==> may_be_committed(
                #[trigger] listing@[i],
                journal@.max_record_bytes,
            ),
        r matches Ok(records) ==> {
            &&& records@.len() == committed_count(listing@)
            &&& forall|i: int|
                0 <= i < listing@.len() && named_committed(#[trigger] listing@[i]) ==> exists|
                    k: int,
                |
                    0 <= k < records@.len() && (#[trigger] records@[k])@ == (
                        journal@.root,
                        listing@[i].name->0@,
                    )
            &&& forall|k: int|
                0 <= k < records@.len() ==> {
                    &&& (#[trigger] records@[k])@.0 == journal@.root
                    &&& pending_name(records@[k]@.1)
                    &&& exists|i: int|
                        0 <= i < listing@.len() && is_named(
                            #[trigger] listing@[i],
                            records@[k]@.1,
                        )
                }
            &&& forall|k: int, l: int|
                0 <= k < l < records@.len() ==> !precedes(
                    (#[trigger] records@[l])@.1,
                    (#[trigger] records@[k])@.1,
                )
        },
        r matches Err(e) ==> exists|i: int|
            {
                &&& 0 <= i < listing@.len()
                &&& !may_be_committed(#[trigger] listing@[i], journal@.max_record_bytes)
                &&& tells_of_committed(e, listing@[i])
                &&& forall|j: int|
                    0 <= j < i ==> may_be_committed(
                        #[trigger] listing@[j],
                        journal@.max_record_bytes,
                    )
            },
{
    let max = journal@.max_record_bytes;
    assert forall|i: int| 0 <= i < listing@.len() implies (pending_fault(
        #[trigger] listing@[i],
        max,
    ) is None <==> may_be_committed(listing@[i], max)) by {
        lemma_faults(listing@[i], listing@, max);
    }
    match r {
        Ok(records) => {
            let names = record_names(records@);
            let shown = pending_names(listing@);
            lemma_pending_names(listing@);
            lemma_multiset_len(names, shown);
            assert forall|i: int|
                0 <= i < listing@.len() && named_committed(#[trigger] listing@[i]) implies exists|
                k: int,
            |
                0 <= k < records@.len() && (#[trigger] records@[k])@ == (
                    journal@.root,
                    listing@[i].name->0@,
                ) by {
                let name = listing@[i].name->0@;
                vstd::seq_lib::to_multiset_contains(names, name);
                vstd::seq_lib::to_multiset_contains(shown, name);
                let k = choose|k: int| 0 <= k < names.len() && names[k] == name;
                assert(journal@.owns(records@[k]@));
                assert(records@[k]@ == (journal@.root, name));
            }
            assert forall|k: int| 0 <= k < records@.len() implies {
                &&& (#[trigger] records@[k])@.0 == journal@.root
                &&& pending_name(records@[k]@.1)
                &&& exists|i: int|
                    0 <= i < listing@.len() && is_named(#[trigger] listing@[i], records@[k]@.1)
            } by {
                assert(journal@.owns(records@[k]@));
                let name = records@[k]@.1;
                assert(names[k] == name);
                vstd::seq_lib::to_multiset_contains(names, name);
                vstd::seq_lib::to_multiset_contains(shown, name);
                assert(shown.contains(name));
            }
            assert forall|k: int, l: int| 0 <= k < l < records@.len() implies !precedes(
                (#[trigger] records@[l])@.1,
                (#[trigger] records@[k])@.1,
            ) by {
                assert(!precedes(names[l], names[k]));
            }
        },
        Err(e) => {
            let i = choose|i: int|
                0 <= i < listing@.len() && {
                    &&& pending_fault(#[trigger] listing@[i], max) matches Some(fault)
                        && crate::journal::reports(e, fault, listing@[i].text()->0)
                    &&& forall|j: int|
                        0 <= j < i ==> pending_fault(#[trigger] listing@[j], max) is None
                };
            assert(!may_be_committed(listing@[i], max));
            assert(tells_of_committed(e, listing@[i]));
        },
    }
}

/// Sequences of one multiset are of one length.
proof fn lemma_multiset_len(a: Seq<Seq<char>>, b: Seq<Seq<char>>)
    requires
        a.to_multiset() == b.to_multiset(),
    ensures
        a.len() == b.len(),
{
    broadcast use vstd::seq_lib::group_to_multiset_ensures;

    assert(a.to_multiset().len() == a.len());
    assert(b.to_multiset().len() == b.len());
}

/// The planned renames, one by one.
proof fn lemma_plan(listing: Seq<JournalEntry>)
    ensures
        forall|i: int|
            0 <= i < listing.len() && named_writing(#[trigger] listing[i]) ==> promotions(
                listing,
            ).contains((listing[i].name->0@, promoted_name(listing[i].name->0@))),
        forall|pair: (Seq<char>, Seq<char>)| #[trigger]
            promotions(listing).contains(pair) ==> {
                &&& temp_name(pair.0)
                &&& pair.1 == promoted_name(pair.0)
                &&& exists|i: int| 0 <= i < listing.len() && is_named(#[trigger] listing[i], pair.0)
            },
        promotions(listing).len() == writing_count(listing),
    decreases listing.len(),
{
    if listing.len() > 0 {
        let before = listing.drop_last();
        lemma_plan(before);
        let earlier = promotions(before);
        let plan = promotions(listing);
        let last = listing.last();
        assert(named_writing(last) == last.is_temp());
        assert forall|i: int|
            0 <= i < listing.len() && named_writing(#[trigger] listing[i]) implies plan.contains(
            (listing[i].name->0@, promoted_name(listing[i].name->0@)),
        ) by {
            let pair = (listing[i].name->0@, promoted_name(listing[i].name->0@));
            if i < before.len() {
                assert(named_writing(before[i]));
                let k = choose|k: int| 0 <= k < earlier.len() && earlier[k] == pair;
                assert(plan[k] == pair);
            } else {
                assert(plan.last() == pair);
            }
        }
        assert forall|pair: (Seq<char>, Seq<char>)| #[trigger] plan.contains(pair) implies {
            &&& temp_name(pair.0)
            &&& pair.1 == promoted_name(pair.0)
            &&& exists|i: int| 0 <= i < listing.len() && is_named(#[trigger] listing[i], pair.0)
        } by {
            let k = choose|k: int| 0 <= k < plan.len() && plan[k] == pair;
            if k < earlier.len() {
                assert(earlier.contains(pair)) by {
                    assert(earlier[k] == pair);
                }
                let i = choose|i: int|
                    0 <= i < before.len() && is_named(#[trigger] before[i], pair.0);
                assert(is_named(listing[i], pair.0));
            } else {
                assert(is_named(listing[listing.len() - 1], pair.0));
            }
        }
    }
}

/// How many entries have names of records being written.
pub open spec fn writing_count(listing: Seq<JournalEntry>) -> nat
    decreases listing.len(),
{
    if listing.len() == 0 {
        0
    } else if named_writing(listing.last()) {
        writing_count(listing.drop_last()) + 1
    } else {
        writing_count(listing.drop_last())
    }
}

/// A journal starts exactly where every committed record may be one and every record being
/// written can be recovered; the error tells of the first entry where this fails. Then each
/// record being written is renamed to its committed name, and nothing else is.
pub proof fn law_recovery_is_planned(
    journal: InboundJournal,
    listing: Vec<JournalEntry>,
    r: Result<Vec<Promotion>, DtnError>,
)
    requires
        call_ensures(InboundJournal::recover_complete_temps, (&journal, &listing), r),
    ensures
        r is Ok <==> forall|i: int|
            0 <= i < listing@.len() ==> may_be_committed(
                #[trigger] listing@[i],
                journal@.max_record_bytes,
            ) && may_be_recovered(listing@[i], listing@, journal@.max_record_bytes),
        r matches Ok(plan) ==> {
            &&& plan@.len() == writing_count(listing@)
            &&& forall|i: int|
                0 <= i < listing@.len() && named_writing(#[trigger] listing@[i]) ==> exists|k: int|
                    0 <= k < plan@.len() && (#[trigger] plan@[k]).from@ == listing@[i].name->0@
                        && plan@[k].to@ == promoted_name(listing@[i].name->0@)
            &&& forall|k: int|
                0 <= k < plan@.len() ==> {
                    &&& temp_name((#[trigger] plan@[k]).from@)
                    &&& plan@[k].to@ == promoted_name(plan@[k].from@)
                    &&& exists|i: int|
                        0 <= i < listing@.len() && is_named(#[trigger] listing@[i], plan@[k].from@)
                }
        },
        r matches Err(e) ==> exists|i: int|
            {
                &&& 0 <= i < listing@.len()
                &&& if !may_be_recovered(
                    #[trigger] listing@[i],
                    listing@,
                    journal@.max_record_bytes,
                ) {
                    tells_of_writing(e, listing@[i], journal@.max_record_bytes)
                } else {
                    !may_be_committed(listing@[i], journal@.max_record_bytes)
                        && tells_of_committed(e, listing@[i])
                }
                &&& forall|j: int|
                    0 <= j < i ==> may_be_committed(
                        #[trigger] listing@[j],
                        journal@.max_record_bytes,
                    ) && may_be_recovered(listing@[j], listing@, journal@.max_record_bytes)
            },
{
    let max = journal@.max_record_bytes;
    assert forall|i: int| 0 <= i < listing@.len() implies (startup_fault(
        #[trigger] listing@[i],
        listing@,
        max,
    ) is None <==> may_be_committed(listing@[i], max) && may_be_recovered(
        listing@[i],
        listing@,
        max,
    )) by {
        lemma_faults(listing@[i], listing@, max);
    }
    match r {
        Ok(plan) => {
            let pairs = plan@.map_values(|p: Promotion| p@);
            lemma_plan(listing@);
            assert forall|i: int|
                0 <= i < listing@.len() && named_writing(#[trigger] listing@[i]) implies exists|
                k: int,
            |
                0 <= k < plan@.len() && (#[trigger] plan@[k]).from@ == listing@[i].name->0@
                    && plan@[k].to@ == promoted_name(listing@[i].name->0@) by {
                let pair = (listing@[i].name->0@, promoted_name(listing@[i].name->0@));
                assert(pairs.contains(pair));
                let k = choose|k: int| 0 <= k < pairs.len() && pairs[k] == pair;
                assert(plan@[k]@ == pair);
                assert(plan@[k].from@ == pair.0);
            }
            assert forall|k: int| 0 <= k < plan@.len() implies {
                &&& temp_name((#[trigger] plan@[k]).from@)
                &&& plan@[k].to@ == promoted_name(plan@[k].from@)
                &&& exists|i: int|
                    0 <= i < listing@.len() && is_named(#[trigger] listing@[i], plan@[k].from@)
            } by {
                assert(pairs[k] == plan@[k]@);
                assert(pairs.contains(plan@[k]@));
            }
        },
        Err(e) => {
            let i = choose|i: int|
                0 <= i < listing@.len() && {
                    &&& startup_fault(#[trigger] listing@[i], listing@, max) matches Some(fault)
                        && crate::journal::reports(e, fault, listing@[i].text()->0)
                    &&& forall|j: int|
                        0 <= j < i ==> startup_fault(
                            #[trigger] listing@[j],
                            listing@,
                            max,
                        ) is None
                };
            lemma_faults(listing@[i], listing@, max);
            assert(may_be_committed(listing@[i], max) || !may_be_committed(listing@[i], max));
        },
    }
}

/// Whether an entry counts towards the capacity: a file under the name of a committed record,
/// or of one being written whose name has a length.
pub open spec fn counts(entry: JournalEntry) -> bool {
    &&& entry.is_file
    &&& entry.name is Some
    &&& {
        ||| pending_name(entry.name->0@)
        ||| temp_name(entry.name->0@) && stem_length(stem_of(entry.name->0@, ".tmp"@)->0) is Some
    }
}

/// The sum of two lengths, as far as a length can be counted.
pub open spec fn counted_sum(a: int, b: int) -> int {
    if a + b <= u64::MAX {
        a + b
    } else {
        u64::MAX as int
    }
}

/// An empty directory counts nothing, and an entry more counts its length more, where it
/// counts.
pub proof fn law_bytes_are_counted(
    journal: InboundJournal,
    listing: Vec<JournalEntry>,
    longer: Vec<JournalEntry>,
    entry: JournalEntry,
    r: u64,
    s: u64,
)
    requires
        call_ensures(InboundJournal::pending_bytes, (&journal, &listing), r),
        call_ensures(InboundJournal::pending_bytes, (&journal, &longer), s),
        longer@ == listing@.push(entry),
    ensures
        listing@.len() == 0 ==> r == 0,
        s == counted_sum(
            r as int,
            if counts(entry) {
                entry.len as int
            } else {
                0
            },
        ),
{
    assert(longer@.drop_last() =~= listing@);
    assert(counts(entry) == entry.is_counted());
}

/// A bundle may be committed exactly where it is at most the longest record and what the
/// journal counts, and it, are at most the capacity. The commit then works in the root of the
/// journal, with the length and checksum of the bundle, past every name that is listed.
pub proof fn law_bundles_are_admitted(
    journal: InboundJournal,
    raw: Bytes,
    listing: Vec<JournalEntry>,
    held: u64,
    r: Result<PersistRun, DtnError>,
    a: Result<(), DtnError>,
)
    requires
        call_ensures(InboundJournal::pending_bytes, (&journal, &listing), held),
        call_ensures(InboundJournal::persist, (&journal, &raw, &listing), r),
        call_ensures(InboundJournal::admit_record, (&journal, &raw), a),
    ensures
        ({
            let len = bytes_held(raw).len();
            let sum = counted_sum(held as int, len as int);
            &&& r is Ok <==> len <= journal@.max_record_bytes && sum <= journal@.max_pending_bytes
            &&& r is Err && len > journal@.max_record_bytes ==> r->Err_0
                == (DtnError::RecordTooLarge { max: journal@.max_record_bytes })
            &&& r is Err && len <= journal@.max_record_bytes ==> r->Err_0
                == (DtnError::CapacityExceeded {
                projected: sum as u64,
                capacity: journal@.max_pending_bytes,
            })
            &&& a is Ok <==> len <= journal@.max_record_bytes
            &&& a is Err ==> a->Err_0 == (DtnError::RecordTooLarge { max: journal@.max_record_bytes })
            &&& r is Ok ==> {
                &&& r->Ok_0@.root == journal@.root
                &&& r->Ok_0@.raw_len == len
                &&& r->Ok_0@.checksum == crc32_of(bytes_held(raw))
                &&& r->Ok_0@.attempts == 0
                &&& r->Ok_0@.step is Stamp
                &&& forall|i: int|
                    0 <= i < listing@.len() && (#[trigger] listing@[i]).name is Some
                        ==> r->Ok_0@.taken.contains(listing@[i].name->0@)
                &&& forall|name: Seq<char>| #[trigger]
                    r->Ok_0@.taken.contains(name) ==> exists|i: int|
                        0 <= i < listing@.len() && is_named(#[trigger] listing@[i], name)
            }
        }),
{
    if r is Ok {
        let taken = r->Ok_0@.taken;
        assert forall|i: int|
            0 <= i < listing@.len() && (#[trigger] listing@[i]).name is Some implies taken.contains(
            listing@[i].name->0@,
        ) by {
            assert(listing@[i].text() == Some(listing@[i].name->0@));
            assert(lists(listing@, listing@[i].name->0@));
        }
        assert forall|name: Seq<char>| #[trigger] taken.contains(name) implies exists|i: int|
            0 <= i < listing@.len() && is_named(#[trigger] listing@[i], name) by {
            let i = choose|i: int|
                0 <= i < listing@.len() && (#[trigger] listing@[i]).text() == Some(name);
            assert(is_named(listing@[i], name));
        }
    }
}

/// Whether a record is a committed one of the journal.
pub open spec fn belongs(journal: InboundJournal, record: JournaledBundle) -> bool {
    record@.0 == journal@.root && pending_name(record@.1)
}

/// The length that the name of a record declares.
pub open spec fn declares_length(record: JournaledBundle, len: int) -> bool {
    name_declares(record@.1, ".bundle"@) is Some && name_declares(record@.1, ".bundle"@)->0.len
        == len
}

/// A record is admitted for reading exactly where it belongs to the journal and its file has
/// the length that it declares, within the bound. The errors are, in this order: it does not
/// belong, it is too long, it declares nothing, it has another length.
pub proof fn law_reads_are_admitted(
    journal: InboundJournal,
    record: JournaledBundle,
    stat_len: u64,
    r: Result<(), DtnError>,
)
    requires
        call_ensures(InboundJournal::admit_read, (&journal, &record, stat_len), r),
    ensures
        r is Ok <==> belongs(journal, record) && stat_len <= journal@.max_record_bytes
            && declares_length(record, stat_len as int),
        r is Err && !belongs(journal, record) ==> r->Err_0 is OutsidePendingSet,
        r is Err && belongs(journal, record) && stat_len > journal@.max_record_bytes ==> r->Err_0
            == (DtnError::RecordTooLarge { max: journal@.max_record_bytes }),
        r is Err && belongs(journal, record) && stat_len <= journal@.max_record_bytes
            && name_declares(record@.1, ".bundle"@) is None ==> r->Err_0 is MalformedRecord
            && r->Err_0->MalformedRecord_name@ == record@.1,
        r is Err && belongs(journal, record) && stat_len <= journal@.max_record_bytes
            && name_declares(record@.1, ".bundle"@) is Some ==> r->Err_0
            == (DtnError::LengthMismatch {
            declared: name_declares(record@.1, ".bundle"@)->0.len,
            actual: stat_len,
        }),
{
}

/// A record is read exactly where it belongs to the journal, its contents are within the
/// bound, and they have the length and, where one is declared, the checksum that it declares.
/// What is read are the contents, unchanged.
pub proof fn law_records_are_read(
    journal: InboundJournal,
    record: JournaledBundle,
    contents: Bytes,
    r: Result<Bytes, DtnError>,
)
    requires
        call_ensures(InboundJournal::read, (&journal, &record, contents), r),
    ensures
        ({
            let held = bytes_held(contents);
            let declared = name_declares(record@.1, ".bundle"@);
            &&& r is Ok <==> {
                &&& belongs(journal, record)
                &&& held.len() <= journal@.max_record_bytes
                &&& declares_length(record, held.len() as int)
                &&& declared->0.checksum is Some ==> declared->0.checksum->0 == crc32_of(held)
            }
            &&& r is Ok ==> bytes_held(r->Ok_0) == held
            &&& r is Err && !belongs(journal, record) ==> r->Err_0 is OutsidePendingSet
            &&& r is Err && belongs(journal, record) && held.len() > journal@.max_record_bytes
                ==> r->Err_0 == (DtnError::RecordTooLargeAfterRead { max: journal@.max_record_bytes })
            &&& r is Err && belongs(journal, record) && held.len() <= journal@.max_record_bytes
                && declared is None ==> r->Err_0 is MalformedRecord
                && r->Err_0->MalformedRecord_name@ == record@.1
            &&& r is Err && belongs(journal, record) && held.len() <= journal@.max_record_bytes
                && declared is Some && declared->0.len != held.len() ==> r->Err_0
                == (DtnError::LengthMismatch {
                declared: declared->0.len,
                actual: held.len() as u64,
            })
            &&& r is Err && belongs(journal, record) && held.len() <= journal@.max_record_bytes
                && declared is Some && declared->0.len == held.len() ==> r->Err_0
                == (DtnError::ChecksumMismatch {
                expected: declared->0.checksum->0,
                found: crc32_of(held),
            })
        }),
{
}

/// Who may be removed: the committed records of the journal, and nothing else.
pub proof fn law_own_records_may_be_removed(
    journal: InboundJournal,
    record: JournaledBundle,
    r: Result<RemovalStep, DtnError>,
    owned: bool,
    pending: bool,
    path: &JournalPath,
)
    requires
        call_ensures(InboundJournal::mark_delivered, (&journal, &record), r),
        call_ensures(InboundJournal::owns, (&journal, &record), owned),
        call_ensures(record_is_pending, (&record,), pending),
        call_ensures(JournaledBundle::path, (&record,), path),
    ensures
        owned <==> belongs(journal, record),
        pending <==> pending_name(record@.1),
        r is Ok <==> owned,
        r is Ok ==> r->Ok_0 is RemoveFile,
        r is Err ==> r->Err_0 is OutsidePendingSet,
        path.parent@ == record@.0 && path.file_name@ == record@.1,
{
}

/// A journal is opened exactly where it has a root and may hold something, with the bounds
/// that it was given. The error names the first of root, capacity and record length that is
/// missing.
pub proof fn law_journals_are_opened(
    root: Vec<u8>,
    capacity: u64,
    longest: usize,
    r: Result<InboundJournal, DtnError>,
)
    requires
        call_ensures(InboundJournal::open, (root, capacity, longest), r),
    ensures
        r is Ok <==> root@.len() > 0 && capacity > 0 && longest > 0,
        r is Ok ==> {
            &&& r->Ok_0@.root == normal_path(root@)
            &&& r->Ok_0@.max_pending_bytes == capacity
            &&& r->Ok_0@.max_record_bytes == longest
        },
        r is Err && root@.len() == 0 ==> r->Err_0 is EmptyJournalRoot,
        r is Err && root@.len() > 0 && capacity == 0 ==> r->Err_0 is ZeroPendingBytes,
        r is Err && root@.len() > 0 && capacity > 0 ==> r->Err_0 is ZeroRecordBytes,
{
}

/// What is committed can be read, and removed: a bundle that the journal admits, committed
/// under any stamp, is a record that the journal admits for reading, reads as the bundle and
/// may remove.
pub proof fn law_committed_bundles_can_be_read_and_removed(
    journal: InboundJournal,
    raw: Bytes,
    listing: Vec<JournalEntry>,
    stamp: RecordStamp,
    begun: PersistRun,
    named: PersistRun,
    created: PersistRun,
    written: PersistRun,
    synced: PersistRun,
    renamed: PersistRun,
    done: PersistRun,
    record: JournaledBundle,
    admitted: Result<(), DtnError>,
    read: Result<Bytes, DtnError>,
    removal: Result<RemovalStep, DtnError>,
)
    requires
        call_ensures(InboundJournal::persist, (&journal, &raw, &listing), Ok(begun)),
        call_ensures(PersistRun::stamped, (begun, stamp), Ok(named)),
        named@.step is CreateTemp,
        call_ensures(PersistRun::after, (named, FileOutcome::Done), created),
        call_ensures(PersistRun::after, (created, FileOutcome::Done), written),
        call_ensures(PersistRun::after, (written, FileOutcome::Done), synced),
        call_ensures(PersistRun::after, (synced, FileOutcome::Done), renamed),
        call_ensures(PersistRun::after, (renamed, FileOutcome::Done), done),
        call_ensures(PersistRun::record, (&done,), Some(record)),
        call_ensures(
            InboundJournal::admit_read,
            (&journal, &record, bytes_held(raw).len() as u64),
            admitted,
        ),
        call_ensures(InboundJournal::read, (&journal, &record, raw), read),
        call_ensures(InboundJournal::mark_delivered, (&journal, &record), removal),
    ensures
        admitted is Ok,
        read is Ok && bytes_held(read->Ok_0) == bytes_held(raw),
        removal is Ok && removal->Ok_0 is RemoveFile,
{
    let held = bytes_held(raw);
    law_new_names_declare_contents(stamp, crc32_of(held), held.len() as usize);
    assert(record@ == (journal@.root, record_stem(stamp, crc32_of(held), held.len() as usize)
        + pending_suffix()));
}

/// The components of a path, from its beginning: a path without slashes is its only
/// component where it is not empty; a slash, or a slash and a `.`, behind a path adds none;
/// a slash and anything else adds that.
pub proof fn law_paths_have_components(path: Seq<u8>, part: Seq<u8>)
    requires
        !part.contains(0x2f),
    ensures
        components(part) == if part.len() == 0 {
            Seq::<Seq<u8>>::empty()
        } else {
            seq![part]
        },
        components(path.push(0x2f)) == components(path),
        part.len() > 0 ==> components(path.push(0x2f) + part) == if part == seq![0x2eu8] {
            components(path)
        } else {
            components(path).push(part)
        },
        is_rooted(path) <==> path.len() > 0 && path[0] == 0x2f,
{
    assert forall|k: int| 0 <= k < part.len() implies part[k] != 0x2f by {
        assert(part.contains(part[k]));
    }
    crate::path::lemma_split_whole(part);
    reveal_with_fuel(kept_parts, 2);
    assert(seq![part].drop_last() =~= Seq::<Seq<u8>>::empty());
    assert(components(part) =~= if part.len() == 0 {
        Seq::<Seq<u8>>::empty()
    } else {
        seq![part]
    });
    crate::path::lemma_split(path);
    let parts = split_path(path);
    assert(path.push(0x2f).drop_last() =~= path);
    assert(parts.push(Seq::<u8>::empty()).drop_last() =~= parts);
    if part.len() > 0 {
        assert(path.push(0x2f) + part =~= path + seq![0x2fu8] + part);
        crate::path::lemma_split_tail(path, part);
        assert(parts.push(part).drop_last() =~= parts);
    }
}

/// The normal form of a path has its components with one slash between each two, behind a
/// slash where the path begins at the root.
pub proof fn law_normal_paths_are_written(path: &[u8], r: Vec<u8>, parts: Seq<Seq<u8>>, part: Seq<u8>)
    requires
        call_ensures(normalize, (path,), r),
    ensures
        is_rooted(path@) ==> r@ == seq![0x2fu8] + joined(components(path@)),
        !is_rooted(path@) ==> r@ == joined(components(path@)),
        joined(Seq::<Seq<u8>>::empty()).len() == 0,
        joined(seq![part]) == part,
        parts.len() > 0 ==> joined(parts.push(part)) == joined(parts).push(0x2f) + part,
{
    if parts.len() > 0 {
        assert(parts.push(part).drop_last() =~= parts);
        assert(joined(parts.push(part)) =~= joined(parts).push(0x2f) + part);
    }
}

/// Paths are joined with one slash, unless the first is empty or ends in one, or the second
/// begins at the root.
pub proof fn law_paths_are_joined(base: &[u8], rest: &[u8], r: Vec<u8>)
    requires
        call_ensures(join, (base, rest), r),
    ensures
        rest@.len() > 0 && rest@[0] == 0x2f ==> r@ == rest@,
        !(rest@.len() > 0 && rest@[0] == 0x2f) && (base@.len() == 0 || base@.last() == 0x2f) ==> r@
            == base@ + rest@,
        !(rest@.len() > 0 && rest@[0] == 0x2f) && base@.len() > 0 && base@.last() != 0x2f ==> r@
            == base@.push(0x2f) + rest@,
{
    assert(base@ + seq![0x2fu8] + rest@ =~= base@.push(0x2f) + rest@);
}

} // verus!

//! What the journal guarantees of the records that it keeps.

#[allow(unused_imports)]
use vstd::relations::{sorted_by, total_ordering};
use vstd::prelude::*;

#[allow(unused_imports)]
use crate::checksum::{crc32_of, law_checksum_detects_bursts};
use crate::config::CapacityVar;
#[allow(unused_imports)]
use crate::config::MAX_BUNDLE_BYTES;
#[allow(unused_imports)]
use crate::error::DtnError;
use crate::journal::{JournalEntry, JournalView};
#[allow(unused_imports)]
use crate::journal::{
    in_name_order, listed_names, lists, pending_fault, pending_names, promotions, reserved_bytes,
    startup_fault, Fault,
};
#[allow(unused_imports)]
use crate::path::{
    components, is_rooted, law_same_paths_have_one_normal_form, normal_path,
};
use crate::record::RecordStamp;
#[allow(unused_imports)]
use crate::record::{
    law_new_names_declare_contents, law_promotion_is_injective, law_promotion_keeps_declarations,
    law_reserved_names_are_disjoint, pending_name, pending_suffix, promoted_name, record_stem,
    temp_name, temp_suffix,
};
#[allow(unused_imports)]
use crate::removal::{removal_next, RemovalStep};
#[allow(unused_imports)]
use crate::text::{
    lemma_precedes_irreflexive, lemma_precedes_total, lemma_precedes_transitive, precedes,
};

verus! {

/// The name of the committed record of a bundle.
pub open spec fn committed_name(stamp: RecordStamp, raw: Seq<u8>) -> Seq<char> {
    record_stem(stamp, crc32_of(raw), raw.len() as usize) + pending_suffix()
}

/// The name of the record of a bundle while it is being written.
pub open spec fn writing_name(stamp: RecordStamp, raw: Seq<u8>) -> Seq<char> {
    record_stem(stamp, crc32_of(raw), raw.len() as usize) + temp_suffix()
}

/// What was committed is what is read: a record that the journal admitted can be read with
/// the contents that it was made with.
pub proof fn law_committed_record_reads_back(
    journal: JournalView,
    stamp: RecordStamp,
    raw: Seq<u8>,
)
    requires
        raw.len() <= journal.max_record_bytes,
    ensures
        journal.readable((journal.root, committed_name(stamp, raw)), raw),
{
    law_new_names_declare_contents(stamp, crc32_of(raw), raw.len() as usize);
}

/// A record whose contents have lost or gained a byte cannot be read.
pub proof fn law_wrong_length_is_refused(
    journal: JournalView,
    stamp: RecordStamp,
    raw: Seq<u8>,
    found: Seq<u8>,
)
    requires
        raw.len() <= journal.max_record_bytes,
        found.len() != raw.len(),
    ensures
        !journal.readable((journal.root, committed_name(stamp, raw)), found),
{
    law_new_names_declare_contents(stamp, crc32_of(raw), raw.len() as usize);
}

/// A record whose contents were changed within four neighbouring bytes cannot be read.
pub proof fn law_corruption_is_refused(
    journal: JournalView,
    stamp: RecordStamp,
    head: Seq<u8>,
    written: Seq<u8>,
    corrupted: Seq<u8>,
    tail: Seq<u8>,
)
    requires
        (head + written + tail).len() <= journal.max_record_bytes,
        written.len() == corrupted.len() <= 4,
        written != corrupted,
    ensures
        !journal.readable(
            (journal.root, committed_name(stamp, head + written + tail)),
            head + corrupted + tail,
        ),
{
    let raw = head + written + tail;
    law_new_names_declare_contents(stamp, crc32_of(raw), raw.len() as usize);
    law_checksum_detects_bursts(head, written, corrupted, tail);
}

/// Admitted records never take the journal over its capacity, as a record that is being
/// written and as a committed one. The one exception is a journal without any effective
/// bound, whose files together are longer than a length can count.
pub proof fn law_capacity_is_kept(
    journal: JournalView,
    listing: Seq<JournalEntry>,
    raw_len: nat,
    entry: JournalEntry,
)
    requires
        journal.admits(listing, raw_len),
        entry.len == raw_len,
        journal.max_pending_bytes < u64::MAX || reserved_bytes(listing) + raw_len <= u64::MAX,
    ensures
        reserved_bytes(listing.push(entry)) <= journal.max_pending_bytes,
{
    assert(listing.push(entry).drop_last() =~= listing);
}

/// A bundle of any size that the daemon may hand over fits into a journal of any capacity
/// that may be configured, as long as the journal holds nothing else.
pub proof fn law_empty_journal_admits_every_bundle(
    journal: JournalView,
    capacity_var: CapacityVar,
    listing: Seq<JournalEntry>,
    raw_len: nat,
)
    requires
        capacity_var.capacity() == Ok::<u64, DtnError>(journal.max_pending_bytes),
        journal.max_record_bytes == MAX_BUNDLE_BYTES,
        reserved_bytes(listing) == 0,
        raw_len <= MAX_BUNDLE_BYTES,
    ensures
        journal.admits(listing, raw_len),
{
}

/// The record of a bundle that was admitted counts towards the capacity with its length.
pub proof fn law_records_are_counted(
    listing: Seq<JournalEntry>,
    stamp: RecordStamp,
    raw: Seq<u8>,
    entry: JournalEntry,
)
    requires
        raw.len() <= usize::MAX,
        entry.is_file,
        entry.len == raw.len(),
        entry.text() == Some(committed_name(stamp, raw)) || entry.text() == Some(
            writing_name(stamp, raw),
        ),
    ensures
        reserved_bytes(listing.push(entry)) == reserved_bytes(listing) + raw.len(),
{
    law_new_names_declare_contents(stamp, crc32_of(raw), raw.len() as usize);
    assert(listing.push(entry).drop_last() =~= listing);
}

/// The records that a listing shows are the entries under the names of committed records,
/// each from its commit until its removal.
pub proof fn law_listing_shows_committed_records(listing: Seq<JournalEntry>, name: Seq<char>)
    ensures
        pending_names(listing).contains(name) <==> pending_name(name) && lists(listing, name),
    decreases listing.len(),
{
    if listing.len() == 0 {
        assert(pending_names(listing) =~= Seq::empty());
    } else {
        let before = listing.drop_last();
        let entry = listing.last();
        let rest = pending_names(before);
        law_listing_shows_committed_records(before, name);
        assert(lists(listing, name) <==> lists(before, name) || entry.text() == Some(name)) by {
            if lists(before, name) {
                let i = choose|i: int|
                    0 <= i < before.len() && (#[trigger] before[i]).text() == Some(name);
                assert(listing[i].text() == Some(name));
            }
            if entry.text() == Some(name) {
                assert(listing[listing.len() - 1].text() == Some(name));
            }
            if lists(listing, name) && entry.text() != Some(name) {
                let i = choose|i: int|
                    0 <= i < listing.len() && (#[trigger] listing[i]).text() == Some(name);
                assert(before[i].text() == Some(name));
            }
        }
        if entry.is_pending() {
            let own = entry.text()->0;
            assert(rest.push(own).contains(name) <==> rest.contains(name) || own == name) by {
                if rest.contains(name) {
                    let i = choose|i: int| 0 <= i < rest.len() && rest[i] == name;
                    assert(rest.push(own)[i] == name);
                }
                if own == name {
                    assert(rest.push(own)[rest.len() as int] == name);
                }
            }
        }
    }
}

/// Names of a directory: no two entries have the same.
pub open spec fn distinct_names(listing: Seq<JournalEntry>) -> bool {
    forall|i: int, j: int|
        0 <= i < j < listing.len() && (#[trigger] listing[i]).text() is Some
            ==> (#[trigger] listing[j]).text() != listing[i].text()
}

/// A listing shows every committed record once.
pub proof fn law_records_are_listed_once(listing: Seq<JournalEntry>)
    requires
        distinct_names(listing),
    ensures
        pending_names(listing).no_duplicates(),
    decreases listing.len(),
{
    if listing.len() > 0 {
        let before = listing.drop_last();
        let entry = listing.last();
        assert(distinct_names(before)) by {
            assert forall|i: int, j: int|
                0 <= i < j < before.len() && (#[trigger] before[i]).text() is Some implies (
            #[trigger] before[j]).text() != before[i].text() by {
                assert(listing[j].text() != listing[i].text());
            }
        }
        law_records_are_listed_once(before);
        if entry.is_pending() {
            let name = entry.text()->0;
            law_listing_shows_committed_records(before, name);
            if lists(before, name) {
                let i = choose|i: int|
                    0 <= i < before.len() && (#[trigger] before[i]).text() == Some(name);
                assert(listing[i].text() == Some(name));
                assert(listing[listing.len() - 1].text() != listing[i].text());
            }
        }
    }
}

/// The records that are replayed are those that the directory holds, each once.
pub proof fn law_replay_covers_journal(listing: Seq<JournalEntry>, names: Seq<Seq<char>>)
    requires
        distinct_names(listing),
        names.to_multiset() == pending_names(listing).to_multiset(),
    ensures
        names.no_duplicates(),
        forall|name: Seq<char>| #[trigger]
            names.contains(name) <==> pending_name(name) && lists(listing, name),
{
    let shown = pending_names(listing);
    law_records_are_listed_once(listing);
    shown.lemma_multiset_has_no_duplicates();
    names.lemma_multiset_has_no_duplicates_conv();
    assert forall|name: Seq<char>| #[trigger] names.contains(name) <==> pending_name(name)
        && lists(listing, name) by {
        vstd::seq_lib::to_multiset_contains(names, name);
        vstd::seq_lib::to_multiset_contains(shown, name);
        law_listing_shows_committed_records(listing, name);
    }
}

/// Records come in an order that their names alone determine.
pub proof fn law_order_is_determined(a: Seq<Seq<char>>, b: Seq<Seq<char>>)
    requires
        in_name_order(a),
        in_name_order(b),
        a.to_multiset() == b.to_multiset(),
    ensures
        a == b,
{
    let leq = |x: Seq<char>, y: Seq<char>| !precedes(y, x);
    assert forall|x: Seq<char>| #[trigger] leq(x, x) by {
        lemma_precedes_irreflexive(x);
    }
    assert forall|x: Seq<char>, y: Seq<char>| #[trigger] leq(x, y) && #[trigger] leq(y, x) implies x
        == y by {
        lemma_precedes_total(x, y);
    }
    assert forall|x: Seq<char>, y: Seq<char>, z: Seq<char>| #[trigger]
        leq(x, y) && #[trigger] leq(y, z) implies leq(x, z) by {
        if precedes(z, x) {
            lemma_precedes_total(x, y);
            if precedes(x, y) {
                lemma_precedes_transitive(z, x, y);
            }
        }
    }
    assert forall|x: Seq<char>, y: Seq<char>| #[trigger] leq(x, y) || #[trigger] leq(y, x) by {
        if precedes(y, x) && precedes(x, y) {
            lemma_precedes_transitive(x, y, x);
            lemma_precedes_irreflexive(x);
        }
    }
    assert(total_ordering(leq));
    assert(sorted_by(a, leq));
    assert(sorted_by(b, leq));
    vstd::seq_lib::lemma_sorted_unique(a, b, leq);
}

/// A committed record is in order at every later start.
pub proof fn law_committed_record_passes_startup(
    journal: JournalView,
    listing: Seq<JournalEntry>,
    stamp: RecordStamp,
    raw: Seq<u8>,
    entry: JournalEntry,
)
    requires
        raw.len() <= journal.max_record_bytes,
        entry.is_file,
        entry.len == raw.len(),
        entry.text() == Some(committed_name(stamp, raw)),
    ensures
        startup_fault(entry, listing, journal.max_record_bytes) is None,
        pending_fault(entry, journal.max_record_bytes) is None,
        entry.is_pending(),
{
    law_new_names_declare_contents(stamp, crc32_of(raw), raw.len() as usize);
    law_reserved_names_are_disjoint(committed_name(stamp, raw));
}

/// The records that recovery commits.
proof fn lemma_promotions(listing: Seq<JournalEntry>, i: int)
    requires
        0 <= i < listing.len(),
        listing[i].is_temp(),
    ensures
        promotions(listing).contains(
            (listing[i].text()->0, promoted_name(listing[i].text()->0)),
        ),
    decreases listing.len(),
{
    let pair = (listing[i].text()->0, promoted_name(listing[i].text()->0));
    let before = listing.drop_last();
    let rest = promotions(before);
    if i == before.len() {
        assert(promotions(listing).last() == pair);
    } else {
        lemma_promotions(before, i);
        let k = choose|k: int| 0 <= k < rest.len() && rest[k] == pair;
        assert(promotions(listing)[k] == pair);
    }
}

/// What a crash leaves between the sync of a record and its rename is committed at the next
/// start, under the name that it was meant for.
pub proof fn law_complete_record_is_recovered(
    journal: JournalView,
    listing: Seq<JournalEntry>,
    i: int,
    stamp: RecordStamp,
    raw: Seq<u8>,
)
    requires
        0 <= i < listing.len(),
        raw.len() <= journal.max_record_bytes,
        listing[i].is_file,
        listing[i].len == raw.len(),
        listing[i].text() == Some(writing_name(stamp, raw)),
        !lists(listing, committed_name(stamp, raw)),
    ensures
        startup_fault(listing[i], listing, journal.max_record_bytes) is None,
        promotions(listing).contains((writing_name(stamp, raw), committed_name(stamp, raw))),
{
    law_new_names_declare_contents(stamp, crc32_of(raw), raw.len() as usize);
    law_reserved_names_are_disjoint(writing_name(stamp, raw));
    lemma_promotions(listing, i);
}

/// A record whose write was cut short fails the start.
pub proof fn law_incomplete_record_fails_startup(
    journal: JournalView,
    listing: Seq<JournalEntry>,
    stamp: RecordStamp,
    raw: Seq<u8>,
    entry: JournalEntry,
)
    requires
        raw.len() <= usize::MAX,
        entry.is_file,
        entry.len < raw.len(),
        entry.text() == Some(writing_name(stamp, raw)),
    ensures
        startup_fault(entry, listing, journal.max_record_bytes) == Some(Fault::Incomplete),
{
    law_new_names_declare_contents(stamp, crc32_of(raw), raw.len() as usize);
}

/// Every promotion comes from an entry that is being written.
proof fn lemma_promotion_source(listing: Seq<JournalEntry>, k: int) -> (i: int)
    requires
        0 <= k < promotions(listing).len(),
    ensures
        0 <= i < listing.len(),
        listing[i].is_temp(),
        promotions(listing)[k] == (
            listing[i].text()->0,
            promoted_name(listing[i].text()->0),
        ),
    decreases listing.len(),
{
    let before = listing.drop_last();
    if k < promotions(before).len() {
        lemma_promotion_source(before, k)
    } else {
        listing.len() - 1
    }
}

/// Names to which promotions lead are all different where the listed names are.
proof fn lemma_promotions_distinct(listing: Seq<JournalEntry>, k: int, l: int)
    requires
        distinct_names(listing),
        0 <= k < l < promotions(listing).len(),
    ensures
        promotions(listing)[k].1 != promotions(listing)[l].1,
    decreases listing.len(),
{
    let before = listing.drop_last();
    assert(distinct_names(before)) by {
        assert forall|i: int, j: int|
            0 <= i < j < before.len() && (#[trigger] before[i]).text() is Some implies (
        #[trigger] before[j]).text() != before[i].text() by {
            assert(listing[j].text() != listing[i].text());
        }
    }
    if l < promotions(before).len() {
        lemma_promotions_distinct(before, k, l);
    } else {
        let i = lemma_promotion_source(before, k);
        let last = listing.len() - 1;
        assert(listing[i] == before[i]);
        assert(listing[last].text() != listing[i].text());
        if promotions(listing)[k].1 == promotions(listing)[l].1 {
            law_promotion_is_injective(listing[i].text()->0, listing[last].text()->0);
        }
    }
}

/// Recovery overwrites nothing: where the start goes on, each name under which a record is
/// committed is taken neither by an entry nor by another record.
pub proof fn law_recovery_overwrites_nothing(
    journal: JournalView,
    listing: Seq<JournalEntry>,
    k: int,
    l: int,
)
    requires
        distinct_names(listing),
        forall|i: int|
            0 <= i < listing.len() ==> startup_fault(
                #[trigger] listing[i],
                listing,
                journal.max_record_bytes,
            ) is None,
        0 <= k < promotions(listing).len(),
        0 <= l < promotions(listing).len(),
    ensures
        !lists(listing, promotions(listing)[k].1),
        k != l ==> promotions(listing)[k].1 != promotions(listing)[l].1,
{
    let i = lemma_promotion_source(listing, k);
    assert(startup_fault(listing[i], listing, journal.max_record_bytes) is None);
    if k < l {
        lemma_promotions_distinct(listing, k, l);
    } else if l < k {
        lemma_promotions_distinct(listing, l, k);
    }
}

/// A record belongs to every journal that was opened at the path at which it was made,
/// however that path was written, and to no other.
pub proof fn law_ownership_goes_by_path(
    made: JournalView,
    asked: JournalView,
    made_at: Seq<u8>,
    asked_at: Seq<u8>,
    name: Seq<char>,
)
    requires
        made.root == normal_path(made_at),
        asked.root == normal_path(asked_at),
        pending_name(name),
    ensures
        asked.owns((made.root, name)) <==> is_rooted(made_at) == is_rooted(asked_at)
            && components(made_at) == components(asked_at),
{
    law_same_paths_have_one_normal_form(made_at, asked_at);
}

/// A commit under a free name replaces nothing: every name that the directory held it holds
/// still, its records are those that it held and the new one behind them, and no two
/// entries share a name.
pub proof fn law_commit_replaces_nothing(listing: Seq<JournalEntry>, entry: JournalEntry)
    requires
        distinct_names(listing),
        entry.is_pending(),
        !listed_names(listing).contains(entry.text()->0),
    ensures
        distinct_names(listing.push(entry)),
        pending_names(listing.push(entry)) == pending_names(listing).push(entry.text()->0),
        !pending_names(listing).contains(entry.text()->0),
        forall|name: Seq<char>|
            #[trigger] lists(listing.push(entry), name) <==> lists(listing, name) || name
                == entry.text()->0,
{
    let after = listing.push(entry);
    let new = entry.text()->0;
    assert(after.drop_last() =~= listing);
    law_listing_shows_committed_records(listing, new);
    assert forall|i: int, j: int|
        0 <= i < j < after.len() && (#[trigger] after[i]).text() is Some implies (
    #[trigger] after[j]).text() != after[i].text() by {
        assert(after[i] == listing[i]);
        if j < listing.len() {
            assert(listing[j].text() != listing[i].text());
        } else if listing[i].text() == Some(new) {
            assert(lists(listing, new));
        }
    }
    assert forall|name: Seq<char>| #[trigger] lists(after, name) <==> lists(listing, name) || name
        == new by {
        if lists(listing, name) {
            let i = choose|i: int|
                0 <= i < listing.len() && (#[trigger] listing[i]).text() == Some(name);
            assert(after[i].text() == Some(name));
        }
        if name == new {
            assert(after[listing.len() as int].text() == Some(name));
        }
        if lists(after, name) && name != new {
            let i = choose|i: int|
                0 <= i < after.len() && (#[trigger] after[i]).text() == Some(name);
            assert(listing[i].text() == Some(name));
        }
    }
}

/// Which names a listing without one of its entries holds.
proof fn lemma_lists_without(listing: Seq<JournalEntry>, i: int, name: Seq<char>)
    requires
        distinct_names(listing),
        0 <= i < listing.len(),
        listing[i].text() is Some,
    ensures
        lists(listing.remove(i), name) <==> lists(listing, name) && name != listing[i].text()->0,
{
    let after = listing.remove(i);
    if lists(after, name) {
        let k = choose|k: int| 0 <= k < after.len() && (#[trigger] after[k]).text() == Some(name);
        if k < i {
            assert(listing[k].text() == Some(name));
            assert(listing[i].text() != listing[k].text());
        } else {
            assert(listing[k + 1].text() == Some(name));
            assert(listing[k + 1].text() != listing[i].text());
        }
    }
    if lists(listing, name) && name != listing[i].text()->0 {
        let k = choose|k: int|
            0 <= k < listing.len() && (#[trigger] listing[k]).text() == Some(name);
        if k < i {
            assert(after[k].text() == Some(name));
        } else {
            assert(after[k - 1].text() == Some(name));
        }
    }
}

/// What a listing without one of its entries counts.
proof fn lemma_reserved_without(listing: Seq<JournalEntry>, i: int)
    requires
        0 <= i < listing.len(),
    ensures
        reserved_bytes(listing) == reserved_bytes(listing.remove(i)) + if listing[i].is_counted() {
            listing[i].len as nat
        } else {
            0
        },
    decreases listing.len(),
{
    let before = listing.drop_last();
    if i == before.len() {
        assert(listing.remove(i) =~= before);
    } else {
        lemma_reserved_without(before, i);
        assert(listing.remove(i).drop_last() =~= before.remove(i));
        assert(listing.remove(i).last() == listing.last());
    }
}

/// Removing a record takes its name off the pending records and leaves all others, and gives
/// back to the capacity exactly the bytes of its file.
pub proof fn law_removal_takes_one_record(listing: Seq<JournalEntry>, i: int)
    requires
        distinct_names(listing),
        0 <= i < listing.len(),
        listing[i].is_pending(),
        listing[i].is_counted(),
    ensures
        forall|name: Seq<char>| #[trigger]
            pending_names(listing.remove(i)).contains(name) <==> pending_names(listing).contains(
                name,
            ) && name != listing[i].text()->0,
        reserved_bytes(listing.remove(i)) == reserved_bytes(listing) - listing[i].len,
        distinct_names(listing.remove(i)),
{
    let after = listing.remove(i);
    assert forall|name: Seq<char>| #[trigger] pending_names(after).contains(name)
        <==> pending_names(listing).contains(name) && name != listing[i].text()->0 by {
        law_listing_shows_committed_records(listing, name);
        law_listing_shows_committed_records(after, name);
        lemma_lists_without(listing, i, name);
    }
    lemma_reserved_without(listing, i);
    assert forall|j: int, k: int|
        0 <= j < k < after.len() && (#[trigger] after[j]).text() is Some implies (
    #[trigger] after[k]).text() != after[j].text() by {
        let (x, y) = (
            if j < i {
                j
            } else {
                j + 1
            },
            if k < i {
                k
            } else {
                k + 1
            },
        );
        assert(after[j] == listing[x] && after[k] == listing[y]);
        assert(listing[y].text() != listing[x].text());
    }
}

/// A directory: the names of its files, each with what the file holds.
pub type Directory = Map<Seq<char>, Seq<u8>>;

/// What the removal of a record makes of the directory of a journal where file operations
/// work, and whether the record was removed. Removing a file fails where there is none.
pub open spec fn removal_from(
    journal: JournalView,
    record: (Seq<u8>, Seq<char>),
    files: Directory,
) -> (Directory, bool) {
    if !journal.owns(record) {
        (files, false)
    } else {
        let found = files.contains_key(record.1);
        let after = if found {
            files.remove(record.1)
        } else {
            files
        };
        let step = removal_next(RemovalStep::RemoveFile, found);
        (after, removal_next(step, true) is Removed)
    }
}

/// A record is removed exactly where it is a pending record of the journal and its file is
/// there, and nothing else changes. Otherwise nothing changes at all. So a record can be
/// removed once only.
pub proof fn law_removal_is_exact(
    journal: JournalView,
    record: (Seq<u8>, Seq<char>),
    files: Directory,
)
    ensures
        removal_from(journal, record, files) == if journal.owns(record) && files.contains_key(
            record.1,
        ) {
            (files.remove(record.1), true)
        } else {
            (files, false)
        },
        ({
            let (after, _) = removal_from(journal, record, files);
            removal_from(journal, record, after) == (after, false)
        }),
{
}

/// Whether one listing is another after recovery: each record that was being written has the
/// name under which it is committed, with the same file, and every other entry is as it was.
pub open spec fn is_recovered(listing: Seq<JournalEntry>, after: Seq<JournalEntry>) -> bool {
    &&& after.len() == listing.len()
    &&& forall|i: int|
        #![trigger after[i]]
        #![trigger listing[i]]
        0 <= i < listing.len() ==> if listing[i].is_temp() {
            &&& after[i].text() == Some(promoted_name(listing[i].text()->0))
            &&& after[i].is_file == listing[i].is_file
            &&& after[i].len == listing[i].len
        } else {
            after[i] == listing[i]
        }
}

/// An entry without a fault is committed by recovery without one, and counts as much.
proof fn lemma_recovered_entry(
    listing: Seq<JournalEntry>,
    all: Seq<JournalEntry>,
    entry: JournalEntry,
    after: JournalEntry,
    max_record_bytes: usize,
)
    requires
        entry.is_temp(),
        startup_fault(entry, listing, max_record_bytes) is None,
        after.text() == Some(promoted_name(entry.text()->0)),
        after.is_file == entry.is_file,
        after.len == entry.len,
    ensures
        !after.is_temp(),
        after.is_pending(),
        startup_fault(after, all, max_record_bytes) is None,
        after.is_counted() && entry.is_counted(),
{
    let name = entry.text()->0;
    law_promotion_keeps_declarations(name);
    law_reserved_names_are_disjoint(promoted_name(name));
}

/// A listing without records being written plans nothing.
proof fn lemma_no_promotions(listing: Seq<JournalEntry>)
    requires
        forall|i: int| 0 <= i < listing.len() ==> !(#[trigger] listing[i]).is_temp(),
    ensures
        promotions(listing) == Seq::<(Seq<char>, Seq<char>)>::empty(),
    decreases listing.len(),
{
    if listing.len() > 0 {
        assert(!listing[listing.len() - 1].is_temp());
        assert forall|i: int| 0 <= i < listing.len() - 1 implies !(
        #[trigger] listing.drop_last()[i]).is_temp() by {
            assert(!listing[i].is_temp());
        }
        lemma_no_promotions(listing.drop_last());
    }
}

/// Listings whose entries count alike count alike.
proof fn lemma_reserved_alike(a: Seq<JournalEntry>, b: Seq<JournalEntry>)
    requires
        a.len() == b.len(),
        forall|i: int|
            0 <= i < a.len() ==> (#[trigger] a[i]).is_counted() == b[i].is_counted() && a[i].len
                == b[i].len,
    ensures
        reserved_bytes(a) == reserved_bytes(b),
    decreases a.len(),
{
    if a.len() > 0 {
        let n = a.len() - 1;
        assert(a[n].is_counted() == b[n].is_counted() && a[n].len == b[n].len);
        assert forall|i: int| 0 <= i < n implies (#[trigger] a.drop_last()[i]).is_counted()
            == b.drop_last()[i].is_counted() && a.drop_last()[i].len == b.drop_last()[i].len by {
            assert(a[i].is_counted() == b[i].is_counted());
        }
        lemma_reserved_alike(a.drop_last(), b.drop_last());
    }
}

/// Recovery settles the directory: where the start goes on, the journal counts as many bytes
/// after it as before, no entry is at fault, names are still distinct, and a second recovery
/// plans nothing.
pub proof fn law_recovery_settles_the_directory(
    journal: JournalView,
    listing: Seq<JournalEntry>,
    after: Seq<JournalEntry>,
)
    requires
        distinct_names(listing),
        forall|i: int|
            0 <= i < listing.len() ==> startup_fault(
                #[trigger] listing[i],
                listing,
                journal.max_record_bytes,
            ) is None,
        is_recovered(listing, after),
    ensures
        reserved_bytes(after) == reserved_bytes(listing),
        promotions(after) == Seq::<(Seq<char>, Seq<char>)>::empty(),
        forall|i: int|
            0 <= i < after.len() ==> startup_fault(
                #[trigger] after[i],
                after,
                journal.max_record_bytes,
            ) is None,
        distinct_names(after),
{
    let max = journal.max_record_bytes;
    assert forall|i: int| 0 <= i < after.len() implies {
        &&& startup_fault(#[trigger] after[i], after, max) is None
        &&& !after[i].is_temp()
        &&& after[i].is_counted() == listing[i].is_counted()
        &&& after[i].len == listing[i].len
    } by {
        assert(startup_fault(listing[i], listing, max) is None);
        if listing[i].is_temp() {
            lemma_recovered_entry(listing, after, listing[i], after[i], max);
        }
    }
    lemma_no_promotions(after);
    lemma_reserved_alike(after, listing);
    assert forall|i: int, j: int|
        0 <= i < j < after.len() && (#[trigger] after[i]).text() is Some implies (
    #[trigger] after[j]).text() != after[i].text() by {
        assert(startup_fault(listing[i], listing, max) is None);
        assert(startup_fault(listing[j], listing, max) is None);
        assert(listing[i].text() is Some ==> listing[j].text() != listing[i].text());
        if after[j].text() == after[i].text() {
            let (x, y) = (listing[i].text()->0, listing[j].text()->0);
            if listing[i].is_temp() && listing[j].is_temp() {
                law_promotion_is_injective(x, y);
            } else if listing[i].is_temp() {
                assert(listing[j].text() == Some(promoted_name(x)));
                assert(lists(listing, promoted_name(x)));
            } else if listing[j].is_temp() {
                assert(listing[i].text() == Some(promoted_name(y)));
                assert(lists(listing, promoted_name(y)));
            }
        }
    }
}

/// A directory after files were renamed one after another.
pub open spec fn renamed(files: Directory, plan: Seq<(Seq<char>, Seq<char>)>) -> Directory
    decreases plan.len(),
{
    if plan.len() == 0 {
        files
    } else {
        let before = renamed(files, plan.drop_last());
        let (from, to) = plan.last();
        before.remove(from).insert(to, before[from])
    }
}

/// Whether a plan renames each file once, to names that are free and all different.
spec fn is_clear(files: Directory, plan: Seq<(Seq<char>, Seq<char>)>) -> bool {
    &&& forall|k: int|
        #![trigger plan[k]]
        0 <= k < plan.len() ==> files.contains_key(plan[k].0) && !files.contains_key(plan[k].1)
    &&& forall|k: int, l: int|
        0 <= k < l < plan.len() ==> (#[trigger] plan[k]).0 != (#[trigger] plan[l]).0 && plan[k].1
            != plan[l].1
}

/// Whether a plan renames the file of the given name.
pub open spec fn moves(plan: Seq<(Seq<char>, Seq<char>)>, name: Seq<char>) -> bool {
    exists|k: int| 0 <= k < plan.len() && (#[trigger] plan[k]).0 == name
}

/// Whether a plan renames a file to the given name.
pub open spec fn fills(plan: Seq<(Seq<char>, Seq<char>)>, name: Seq<char>) -> bool {
    exists|k: int| 0 <= k < plan.len() && (#[trigger] plan[k]).1 == name
}

/// What renaming makes of a directory.
proof fn lemma_renamed(files: Directory, plan: Seq<(Seq<char>, Seq<char>)>)
    requires
        is_clear(files, plan),
    ensures
        forall|name: Seq<char>| #[trigger]
            renamed(files, plan).contains_key(name) <==> fills(plan, name) || files.contains_key(
                name,
            ) && !moves(plan, name),
        forall|name: Seq<char>|
            files.contains_key(name) && !moves(plan, name) ==> #[trigger] renamed(files, plan)[name]
                == files[name],
        forall|k: int|
            0 <= k < plan.len() ==> renamed(files, plan)[(#[trigger] plan[k]).1]
                == files[plan[k].0],
    decreases plan.len(),
{
    if plan.len() > 0 {
        let earlier = plan.drop_last();
        let n = earlier.len() as int;
        let (from, to) = plan.last();
        assert(plan[n] == (from, to));
        assert(is_clear(files, earlier)) by {
            assert forall|k: int|
                #![trigger earlier[k]]
                0 <= k < n implies files.contains_key(earlier[k].0) && !files.contains_key(
                earlier[k].1,
            ) by {
                assert(earlier[k] == plan[k]);
            }
            assert forall|k: int, l: int| 0 <= k < l < n implies (#[trigger] earlier[k]).0 != (
            #[trigger] earlier[l]).0 && earlier[k].1 != earlier[l].1 by {
                assert(earlier[k] == plan[k] && earlier[l] == plan[l]);
            }
        }
        lemma_renamed(files, earlier);
        let before = renamed(files, earlier);
        let after = renamed(files, plan);
        assert(!moves(earlier, from)) by {
            if moves(earlier, from) {
                let k = choose|k: int| 0 <= k < n && (#[trigger] earlier[k]).0 == from;
                assert(plan[k].0 != plan[n].0);
            }
        }
        assert(!fills(earlier, to)) by {
            if fills(earlier, to) {
                let k = choose|k: int| 0 <= k < n && (#[trigger] earlier[k]).1 == to;
                assert(plan[k].1 != plan[n].1);
            }
        }
        assert(!fills(plan, from)) by {
            if fills(plan, from) {
                let k = choose|k: int| 0 <= k < plan.len() && (#[trigger] plan[k]).1 == from;
                assert(!files.contains_key(plan[k].1));
            }
        }
        assert(before[from] == files[from]);
        assert forall|name: Seq<char>|
            moves(plan, name) <==> moves(earlier, name) || name == from by {
            if moves(earlier, name) {
                let k = choose|k: int| 0 <= k < n && (#[trigger] earlier[k]).0 == name;
                assert(plan[k].0 == name);
            }
            if moves(plan, name) && name != from {
                let k = choose|k: int| 0 <= k < plan.len() && (#[trigger] plan[k]).0 == name;
                assert(earlier[k].0 == name);
            }
        }
        assert forall|name: Seq<char>|
            fills(plan, name) <==> fills(earlier, name) || name == to by {
            if fills(earlier, name) {
                let k = choose|k: int| 0 <= k < n && (#[trigger] earlier[k]).1 == name;
                assert(plan[k].1 == name);
            }
            if fills(plan, name) && name != to {
                let k = choose|k: int| 0 <= k < plan.len() && (#[trigger] plan[k]).1 == name;
                assert(earlier[k].1 == name);
            }
        }
        assert forall|k: int| 0 <= k < plan.len() implies after[(#[trigger] plan[k]).1]
            == files[plan[k].0] by {
            if k < n {
                assert(earlier[k] == plan[k]);
                assert(plan[k].1 != plan[n].1);
                assert(before[earlier[k].1] == files[earlier[k].0]);
                assert(fills(plan, plan[k].1));
            }
        }
    }
}

/// Whether a listing shows the files of a directory, each once.
pub open spec fn shows(listing: Seq<JournalEntry>, files: Directory) -> bool {
    &&& distinct_names(listing)
    &&& forall|name: Seq<char>| #[trigger] lists(listing, name) <==> files.contains_key(name)
}

/// Recovery commits what was written and touches nothing else: carrying out its plan gives a
/// directory in which each record that was being written has its committed name, with the
/// bytes that it had, and every other file is as it was.
pub proof fn law_recovery_only_renames(
    journal: JournalView,
    listing: Seq<JournalEntry>,
    files: Directory,
)
    requires
        shows(listing, files),
        forall|i: int|
            0 <= i < listing.len() ==> startup_fault(
                #[trigger] listing[i],
                listing,
                journal.max_record_bytes,
            ) is None,
    ensures
        ({
            let after = renamed(files, promotions(listing));
            &&& forall|name: Seq<char>|
                #![trigger files.contains_key(name)]
                files.contains_key(name) ==> if temp_name(name) {
                    &&& !after.contains_key(name)
                    &&& !files.contains_key(promoted_name(name))
                    &&& after.contains_key(promoted_name(name))
                    &&& after[promoted_name(name)] == files[name]
                } else {
                    after.contains_key(name) && after[name] == files[name]
                }
            &&& forall|name: Seq<char>| #[trigger]
                after.contains_key(name) ==> files.contains_key(name) || exists|t: Seq<char>| #[trigger]
                    files.contains_key(t) && temp_name(t) && promoted_name(t) == name
        }),
{
    let plan = promotions(listing);
    let after = renamed(files, plan);
    let max = journal.max_record_bytes;
    assert forall|k: int| #![trigger plan[k]] 0 <= k < plan.len() implies {
        &&& files.contains_key(plan[k].0)
        &&& !files.contains_key(plan[k].1)
        &&& temp_name(plan[k].0)
        &&& plan[k].1 == promoted_name(plan[k].0)
    } by {
        let i = lemma_promotion_source(listing, k);
        assert(startup_fault(listing[i], listing, max) is None);
        assert(lists(listing, plan[k].0)) by {
            assert(listing[i].text() == Some(plan[k].0));
        }
        assert(!lists(listing, plan[k].1));
    }
    assert forall|k: int, l: int| 0 <= k < l < plan.len() implies (#[trigger] plan[k]).0 != (
    #[trigger] plan[l]).0 && plan[k].1 != plan[l].1 by {
        lemma_promotions_distinct(listing, k, l);
    }
    lemma_renamed(files, plan);
    assert forall|name: Seq<char>| #![trigger files.contains_key(name)] files.contains_key(
        name,
    ) implies if temp_name(name) {
        &&& !after.contains_key(name)
        &&& !files.contains_key(promoted_name(name))
        &&& after.contains_key(promoted_name(name))
        &&& after[promoted_name(name)] == files[name]
    } else {
        after.contains_key(name) && after[name] == files[name]
    } by {
        assert(lists(listing, name));
        let i = choose|i: int|
            0 <= i < listing.len() && (#[trigger] listing[i]).text() == Some(name);
        if temp_name(name) {
            lemma_promotions(listing, i);
            let k = choose|k: int|
                0 <= k < plan.len() && plan[k] == (name, promoted_name(name));
            assert(plan[k].0 == name && plan[k].1 == promoted_name(name));
            assert(moves(plan, name));
            assert(fills(plan, promoted_name(name)));
            assert(!fills(plan, name)) by {
                if fills(plan, name) {
                    let l = choose|l: int| 0 <= l < plan.len() && (#[trigger] plan[l]).1 == name;
                    assert(!files.contains_key(plan[l].1));
                }
            }
        } else {
            assert(!moves(plan, name)) by {
                if moves(plan, name) {
                    let l = choose|l: int| 0 <= l < plan.len() && (#[trigger] plan[l]).0 == name;
                    assert(temp_name(plan[l].0));
                }
            }
        }
    }
    assert forall|name: Seq<char>| #[trigger] after.contains_key(name) implies files.contains_key(
        name,
    ) || exists|t: Seq<char>| #[trigger]
        files.contains_key(t) && temp_name(t) && promoted_name(t) == name by {
        if !files.contains_key(name) {
            let l = choose|l: int| 0 <= l < plan.len() && (#[trigger] plan[l]).1 == name;
            assert(files.contains_key(plan[l].0) && temp_name(plan[l].0));
        }
    }
}

} // verus!

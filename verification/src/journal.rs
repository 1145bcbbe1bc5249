//! The durable journal of received bundles: which files of its directory are
//! records, which of them may be read, and how records come and go.
//!
//! The journal itself is a directory. What stands here takes a listing of it, or
//! the outcome of one file operation, and says what is to be done next.

use bytes::Bytes;
use vstd::prelude::*;
use vstd::string::*;

use crate::body::same_bytes;
use crate::checksum::crc32;
use crate::commit::PersistRun;
use crate::error::DtnError;
use crate::outside::bytes_slice;
use crate::path::normalize;
use crate::record::{
    is_pending_name, is_temp_name, pending_declared, promote_name, temp_declared, temp_expected_len,
};
use crate::removal::RemovalStep;
use crate::text::comes_before;
#[allow(unused_imports)]
use crate::checksum::crc32_of;
#[allow(unused_imports)]
use crate::commit::{name_set, PersistView};
#[allow(unused_imports)]
use crate::outside::bytes_held;
#[allow(unused_imports)]
use crate::path::normal_path;
#[allow(unused_imports)]
use crate::record::{
    name_declares, pending_name, pending_suffix, promoted_name, stem_length, stem_of, temp_name,
    temp_suffix,
};
#[allow(unused_imports)]
use crate::text::{lemma_precedes_irreflexive, lemma_precedes_transitive, precedes};

verus! {

/// Where a record is kept.
#[derive(Debug, PartialEq, Eq)]
pub struct JournalPath {
    /// The directory, as the bytes of its path.
    pub parent: Vec<u8>,
    /// The name of the file in it.
    pub file_name: String,
}

/// One record of the journal.
///
/// Its name is a storage identity only. Equal bundles get different records.
#[derive(Debug, PartialEq, Eq)]
pub struct JournaledBundle {
    path: JournalPath,
}

impl View for JournaledBundle {
    type V = (Seq<u8>, Seq<char>);

    closed spec fn view(&self) -> (Seq<u8>, Seq<char>) {
        (self.path.parent@, self.path.file_name@)
    }
}

impl JournaledBundle {
    /// The record of the given name in a directory.
    pub(crate) fn at(parent: Vec<u8>, file_name: String) -> (r: JournaledBundle)
        ensures
            r@ == (parent@, file_name@),
    {
        JournaledBundle { path: JournalPath { parent, file_name } }
    }

    /// Where the record is kept.
    pub fn path(&self) -> (r: &JournalPath)
        ensures
            (r.parent@, r.file_name@) == self@,
    {
        &self.path
    }
}

/// Whether the name of a record is one of a committed record.
pub fn record_is_pending(record: &JournaledBundle) -> (r: bool)
    ensures
        r == pending_name(record@.1),
{
    is_pending_name(record.path.file_name.as_str())
}

/// One entry of the journal's directory.
#[derive(Debug, PartialEq, Eq)]
pub struct JournalEntry {
    /// The name, where it is Unicode.
    pub name: Option<String>,
    /// Whether it is a regular file.
    pub is_file: bool,
    /// The length in bytes.
    pub len: u64,
}

impl JournalEntry {
    /// The name, where it is Unicode.
    pub open spec fn text(self) -> Option<Seq<char>> {
        match self.name {
            Some(name) => Some(name@),
            None => None,
        }
    }

    /// Whether the entry has the name of a committed record.
    pub open spec fn is_pending(self) -> bool {
        self.text() matches Some(name) && pending_name(name)
    }

    /// Whether the entry has the name of a record that is being written.
    pub open spec fn is_temp(self) -> bool {
        self.text() matches Some(name) && temp_name(name)
    }

    /// Whether the entry counts towards the capacity of the journal.
    pub open spec fn is_counted(self) -> bool {
        &&& self.is_file
        &&& self.text() matches Some(name) && (pending_name(name) || (stem_of(name, temp_suffix())
            matches Some(stem) && stem_length(stem) is Some))
    }
}

/// What is wrong with an entry under a reserved name.
#[derive(Clone, Copy, Debug, PartialEq, Eq)]
pub enum Fault {
    /// It is no regular file, or its name declares no contents.
    Malformed,
    /// It is longer than the journal admits.
    Oversized,
    /// Its write was interrupted.
    Incomplete,
    /// It would be committed under a name that is taken.
    Collision,
}

/// What is wrong with an entry that has the name of a committed record.
pub open spec fn pending_fault(entry: JournalEntry, max_record_bytes: usize) -> Option<Fault> {
    if !entry.is_pending() {
        None
    } else if !entry.is_file || name_declares(entry.text()->0, pending_suffix()) is None {
        Some(Fault::Malformed)
    } else if entry.len > max_record_bytes {
        Some(Fault::Oversized)
    } else {
        None
    }
}

/// Whether a listing holds an entry of the given name.
pub open spec fn lists(listing: Seq<JournalEntry>, name: Seq<char>) -> bool {
    exists|i: int| 0 <= i < listing.len() && (#[trigger] listing[i]).text() == Some(name)
}

/// The names that a listing holds.
pub open spec fn listed_names(listing: Seq<JournalEntry>) -> Set<Seq<char>> {
    Set::new(|name: Seq<char>| lists(listing, name))
}

/// What is wrong with an entry that has the name of a record being written, once
/// nothing is being written any more.
pub open spec fn temp_fault(
    entry: JournalEntry,
    listing: Seq<JournalEntry>,
    max_record_bytes: usize,
) -> Option<Fault> {
    if !entry.is_temp() {
        None
    } else {
        let name = entry.text()->0;
        match name_declares(name, temp_suffix()) {
            None => Some(Fault::Malformed),
            Some(declared) => if !entry.is_file {
                Some(Fault::Malformed)
            } else if entry.len != declared.len || declared.len > max_record_bytes {
                Some(Fault::Incomplete)
            } else if lists(listing, promoted_name(name)) {
                Some(Fault::Collision)
            } else {
                None
            },
        }
    }
}

/// What is wrong with an entry when the journal is opened.
pub open spec fn startup_fault(
    entry: JournalEntry,
    listing: Seq<JournalEntry>,
    max_record_bytes: usize,
) -> Option<Fault> {
    match temp_fault(entry, listing, max_record_bytes) {
        Some(fault) => Some(fault),
        None => pending_fault(entry, max_record_bytes),
    }
}

/// Whether an error reports the given fault of the entry of the given name.
pub open spec fn reports(e: DtnError, fault: Fault, entry_name: Seq<char>) -> bool {
    match fault {
        Fault::Malformed => e matches DtnError::MalformedRecord { name } && name@ == entry_name,
        Fault::Oversized => e matches DtnError::OversizedRecord { name } && name@ == entry_name,
        Fault::Incomplete => e matches DtnError::IncompleteTemp { name } && name@ == entry_name,
        Fault::Collision => e matches DtnError::RecoveryCollision { name } && name@ == entry_name,
    }
}

fn fault_error(fault: Fault, entry_name: &String) -> (e: DtnError)
    ensures
        reports(e, fault, entry_name@),
{
    let name: String = entry_name.clone();
    match fault {
        Fault::Malformed => DtnError::MalformedRecord { name },
        Fault::Oversized => DtnError::OversizedRecord { name },
        Fault::Incomplete => DtnError::IncompleteTemp { name },
        Fault::Collision => DtnError::RecoveryCollision { name },
    }
}

/// A record that is to be committed under a new name.
#[derive(Debug, PartialEq, Eq)]
pub struct Promotion {
    pub from: String,
    pub to: String,
}

impl View for Promotion {
    type V = (Seq<char>, Seq<char>);

    open spec fn view(&self) -> (Seq<char>, Seq<char>) {
        (self.from@, self.to@)
    }
}

/// The records being written that a listing holds, each with the name under which
/// it is committed.
pub open spec fn promotions(listing: Seq<JournalEntry>) -> Seq<(Seq<char>, Seq<char>)>
    decreases listing.len(),
{
    if listing.len() == 0 {
        Seq::empty()
    } else {
        let rest = promotions(listing.drop_last());
        let entry = listing.last();
        if entry.is_temp() {
            rest.push((entry.text()->0, promoted_name(entry.text()->0)))
        } else {
            rest
        }
    }
}

/// The names of the committed records that a listing holds.
pub open spec fn pending_names(listing: Seq<JournalEntry>) -> Seq<Seq<char>>
    decreases listing.len(),
{
    if listing.len() == 0 {
        Seq::empty()
    } else {
        let rest = pending_names(listing.drop_last());
        let entry = listing.last();
        if entry.is_pending() {
            rest.push(entry.text()->0)
        } else {
            rest
        }
    }
}

/// The bytes of the entries of a listing that count towards the capacity.
pub open spec fn reserved_bytes(listing: Seq<JournalEntry>) -> nat
    decreases listing.len(),
{
    if listing.len() == 0 {
        0
    } else {
        let entry = listing.last();
        reserved_bytes(listing.drop_last()) + if entry.is_counted() {
            entry.len as nat
        } else {
            0
        }
    }
}

/// The names of records, in order.
pub open spec fn record_names(records: Seq<JournaledBundle>) -> Seq<Seq<char>> {
    records.map_values(|record: JournaledBundle| record@.1)
}

/// Names in dictionary order.
pub open spec fn in_name_order(names: Seq<Seq<char>>) -> bool {
    forall|i: int, j: int| 0 <= i < j < names.len() ==> !precedes(#[trigger] names[j], #[trigger] names[i])
}

/// What a journal was opened with.
pub struct JournalView {
    pub root: Seq<u8>,
    pub max_pending_bytes: u64,
    pub max_record_bytes: usize,
}

/// A bounded durable queue of bundles that the daemon has handed over and that have
/// not been dispatched yet.
#[derive(Debug)]
pub struct InboundJournal {
    root: Vec<u8>,
    max_pending_bytes: u64,
    max_record_bytes: usize,
}

impl View for InboundJournal {
    type V = JournalView;

    closed spec fn view(&self) -> JournalView {
        JournalView {
            root: self.root@,
            max_pending_bytes: self.max_pending_bytes,
            max_record_bytes: self.max_record_bytes,
        }
    }
}

impl JournalView {
    /// The bytes that the journal would hold with a record of the given length added, as far
    /// as a length can be counted.
    pub open spec fn projected(self, listing: Seq<JournalEntry>, raw_len: nat) -> nat {
        if reserved_bytes(listing) + raw_len <= u64::MAX {
            reserved_bytes(listing) + raw_len
        } else {
            u64::MAX as nat
        }
    }

    /// Whether a record of the given length may be added.
    pub open spec fn admits(self, listing: Seq<JournalEntry>, raw_len: nat) -> bool {
        &&& raw_len <= self.max_record_bytes
        &&& self.projected(listing, raw_len) <= self.max_pending_bytes
    }

    /// Whether a record belongs to the pending set of this journal.
    pub open spec fn owns(self, record: (Seq<u8>, Seq<char>)) -> bool {
        record.0 == self.root && pending_name(record.1)
    }

    /// Whether contents are what the name of a record declares, within the bound.
    pub open spec fn readable(self, record: (Seq<u8>, Seq<char>), contents: Seq<u8>) -> bool {
        &&& self.owns(record)
        &&& contents.len() <= self.max_record_bytes
        &&& name_declares(record.1, pending_suffix()) matches Some(declared) && {
            &&& contents.len() == declared.len
            &&& declared.checksum matches Some(sum) ==> crc32_of(contents) == sum
        }
    }
}

impl InboundJournal {
    /// Opens a journal, unless it could hold nothing. The directory is then to be
    /// made, listed and recovered. Roots that are the same path give the same journal.
    pub fn open(root: Vec<u8>, max_pending_bytes: u64, max_record_bytes: usize) -> (r: Result<
        InboundJournal,
        DtnError,
    >)
        ensures
            match r {
                Ok(journal) => {
                    &&& root@.len() > 0 && max_pending_bytes > 0 && max_record_bytes > 0
                    &&& journal@ == (JournalView {
                        root: normal_path(root@),
                        max_pending_bytes,
                        max_record_bytes,
                    })
                },
                Err(e) => e == if root@.len() == 0 {
                    DtnError::EmptyJournalRoot
                } else if max_pending_bytes == 0 {
                    DtnError::ZeroPendingBytes
                } else {
                    DtnError::ZeroRecordBytes
                } && (root@.len() == 0 || max_pending_bytes == 0 || max_record_bytes == 0),
            },
    {
        if root.len() == 0 {
            return Err(DtnError::EmptyJournalRoot);
        }
        if max_pending_bytes == 0 {
            return Err(DtnError::ZeroPendingBytes);
        }
        if max_record_bytes == 0 {
            return Err(DtnError::ZeroRecordBytes);
        }
        let root: Vec<u8> = normalize(root.as_slice());
        Ok(InboundJournal { root, max_pending_bytes, max_record_bytes })
    }
}

/// Whether a listing holds an entry of the given name.
fn is_listed(listing: &Vec<JournalEntry>, wanted: &String) -> (r: bool)
    ensures
        r == lists(listing@, wanted@),
{
    let mut i: usize = 0;
    while i < listing.len()
        invariant
            i <= listing.len(),
            forall|j: int| 0 <= j < i ==> (#[trigger] listing@[j]).text() != Some(wanted@),
        decreases listing.len() - i,
    {
        if let Some(name) = &listing[i].name {
            if *name == *wanted {
                assert(listing@[i as int].text() == Some(wanted@));
                return true;
            }
        }
        i += 1;
    }
    false
}

/// The names that a listing holds.
fn names_of(listing: &Vec<JournalEntry>) -> (r: Vec<String>)
    ensures
        name_set(r@) == listed_names(listing@),
{
    let mut names: Vec<String> = Vec::new();
    let mut i: usize = 0;
    while i < listing.len()
        invariant
            i <= listing.len(),
            forall|k: int|
                0 <= k < names@.len() ==> lists(listing@, #[trigger] names@[k]@),
            forall|j: int|
                0 <= j < i && (#[trigger] listing@[j]).text() is Some ==> name_set(names@).contains(
                    listing@[j].text()->0,
                ),
        decreases listing.len() - i,
    {
        if let Some(name) = &listing[i].name {
            let ghost before = names@;
            assert(listing@[i as int].text() == Some(name@));
            names.push(name.clone());
            proof {
                assert(names@[before.len() as int]@ == name@);
                assert forall|j: int|
                    0 <= j < i + 1 && (#[trigger] listing@[j]).text() is Some implies name_set(
                    names@,
                ).contains(listing@[j].text()->0) by {
                    if j < i {
                        let k = choose|k: int|
                            0 <= k < before.len() && #[trigger] before[k]@ == listing@[j].text()->0;
                        assert(names@[k]@ == listing@[j].text()->0);
                    }
                }
            }
        }
        i += 1;
    }
    assert(name_set(names@) =~= listed_names(listing@));
    names
}

/// What is wrong with an entry that has the name of a committed record.
fn find_pending_fault(entry: &JournalEntry, max_record_bytes: usize) -> (r: Option<Fault>)
    ensures
        r == pending_fault(*entry, max_record_bytes),
{
    match &entry.name {
        None => None,
        Some(name) => {
            if !is_pending_name(name.as_str()) {
                None
            } else if !entry.is_file || pending_declared(name.as_str()).is_none() {
                Some(Fault::Malformed)
            } else if entry.len > max_record_bytes as u64 {
                Some(Fault::Oversized)
            } else {
                None
            }
        },
    }
}

/// What is wrong with an entry that has the name of a record being written.
fn find_temp_fault(
    entry: &JournalEntry,
    listing: &Vec<JournalEntry>,
    max_record_bytes: usize,
) -> (r: Option<Fault>)
    ensures
        r == temp_fault(*entry, listing@, max_record_bytes),
{
    match &entry.name {
        None => None,
        Some(name) => {
            if !is_temp_name(name.as_str()) {
                return None;
            }
            match temp_declared(name.as_str()) {
                None => Some(Fault::Malformed),
                Some(declared) => {
                    if !entry.is_file {
                        Some(Fault::Malformed)
                    } else if entry.len != declared.len as u64 || declared.len > max_record_bytes {
                        Some(Fault::Incomplete)
                    } else if is_listed(listing, &promote_name(name.as_str())) {
                        Some(Fault::Collision)
                    } else {
                        None
                    }
                },
            }
        },
    }
}

impl InboundJournal {
    /// Plans what is to be committed when the journal is opened: every record whose
    /// write was complete. Anything else under a reserved name stops the start and
    /// stays as it is.
    pub fn recover_complete_temps(&self, listing: &Vec<JournalEntry>) -> (r: Result<
        Vec<Promotion>,
        DtnError,
    >)
        ensures
            match r {
                Ok(plan) => {
                    &&& forall|i: int|
                        0 <= i < listing.len() ==> startup_fault(
                            #[trigger] listing@[i],
                            listing@,
                            self@.max_record_bytes,
                        ) is None
                    &&& plan@.map_values(|p: Promotion| p@) == promotions(listing@)
                },
                Err(e) => exists|i: int|
                    0 <= i < listing.len() && {
                        &&& startup_fault(
                            #[trigger] listing@[i],
                            listing@,
                            self@.max_record_bytes,
                        ) matches Some(fault) && reports(e, fault, listing@[i].text()->0)
                        &&& forall|j: int|
                            0 <= j < i ==> startup_fault(
                                #[trigger] listing@[j],
                                listing@,
                                self@.max_record_bytes,
                            ) is None
                    },
            },
    {
        let mut plan: Vec<Promotion> = Vec::new();
        let mut i: usize = 0;
        assert(plan@.map_values(|p: Promotion| p@) =~= promotions(listing@.take(0)));
        while i < listing.len()
            invariant
                i <= listing.len(),
                forall|j: int|
                    0 <= j < i ==> startup_fault(
                        #[trigger] listing@[j],
                        listing@,
                        self@.max_record_bytes,
                    ) is None,
                plan@.map_values(|p: Promotion| p@) == promotions(listing@.take(i as int)),
            decreases listing.len() - i,
        {
            let entry: &JournalEntry = &listing[i];
            let ghost so_far = plan@;
            assert(listing@.take(i + 1).drop_last() =~= listing@.take(i as int));
            if let Some(name) = &entry.name {
                let temp: Option<Fault> = find_temp_fault(entry, listing, self.max_record_bytes);
                let found: Option<Fault> = match temp {
                    Some(fault) => Some(fault),
                    None => find_pending_fault(entry, self.max_record_bytes),
                };
                if let Some(fault) = found {
                    let e: DtnError = fault_error(fault, name);
                    assert(startup_fault(listing@[i as int], listing@, self@.max_record_bytes)
                        == Some(fault));
                    return Err(e);
                }
                if is_temp_name(name.as_str()) {
                    plan.push(
                        Promotion { from: name.clone(), to: promote_name(name.as_str()) },
                    );
                    assert(plan@.map_values(|p: Promotion| p@) =~= so_far.map_values(
                        |p: Promotion| p@,
                    ).push(plan@.last()@));
                }
            }
            i += 1;
        }
        assert(listing@.take(listing.len() as int) =~= listing@);
        Ok(plan)
    }

    /// Lists the pending records, oldest name first. Anything else under a name
    /// reserved for them stops the journal.
    pub fn pending(&self, listing: &Vec<JournalEntry>) -> (r: Result<
        Vec<JournaledBundle>,
        DtnError,
    >)
        ensures
            match r {
                Ok(records) => {
                    &&& forall|i: int|
                        0 <= i < listing.len() ==> pending_fault(
                            #[trigger] listing@[i],
                            self@.max_record_bytes,
                        ) is None
                    &&& in_name_order(record_names(records@))
                    &&& record_names(records@).to_multiset() == pending_names(
                        listing@,
                    ).to_multiset()
                    &&& forall|i: int|
                        0 <= i < records.len() ==> self@.owns((#[trigger] records@[i])@)
                },
                Err(e) => exists|i: int|
                    0 <= i < listing.len() && {
                        &&& pending_fault(#[trigger] listing@[i], self@.max_record_bytes) matches Some(
                            fault,
                        ) && reports(e, fault, listing@[i].text()->0)
                        &&& forall|j: int|
                            0 <= j < i ==> pending_fault(
                                #[trigger] listing@[j],
                                self@.max_record_bytes,
                            ) is None
                    },
            },
    {
        let mut records: Vec<JournaledBundle> = Vec::new();
        let mut i: usize = 0;
        assert(record_names(records@) =~= pending_names(listing@.take(0)));
        while i < listing.len()
            invariant
                i <= listing.len(),
                forall|j: int|
                    0 <= j < i ==> pending_fault(
                        #[trigger] listing@[j],
                        self@.max_record_bytes,
                    ) is None,
                in_name_order(record_names(records@)),
                record_names(records@).to_multiset() == pending_names(
                    listing@.take(i as int),
                ).to_multiset(),
                forall|j: int| 0 <= j < records.len() ==> self@.owns((#[trigger] records@[j])@),
            decreases listing.len() - i,
        {
            let entry: &JournalEntry = &listing[i];
            assert(listing@.take(i + 1).drop_last() =~= listing@.take(i as int));
            if let Some(name) = &entry.name {
                if let Some(fault) = find_pending_fault(entry, self.max_record_bytes) {
                    return Err(fault_error(fault, name));
                }
                if is_pending_name(name.as_str()) {
                    let ghost before = pending_names(listing@.take(i as int));
                    insert_by_name(&mut records, self.record_named(name));
                    proof {
                        vstd::seq_lib::to_multiset_build(before, name@);
                    }
                }
            }
            i += 1;
        }
        assert(listing@.take(listing.len() as int) =~= listing@);
        Ok(records)
    }

    /// The record of the given name in this journal.
    fn record_named(&self, name: &String) -> (r: JournaledBundle)
        ensures
            r@ == (self@.root, name@),
    {
        let parent: Vec<u8> = self.root.clone();
        assert(parent@ =~= self.root@);
        JournaledBundle::at(parent, name.clone())
    }
}

/// Puts a record where its name belongs among records in name order.
fn insert_by_name(records: &mut Vec<JournaledBundle>, record: JournaledBundle)
    requires
        in_name_order(record_names(old(records)@)),
    ensures
        in_name_order(record_names(final(records)@)),
        record_names(final(records)@).to_multiset() == record_names(
            old(records)@,
        ).to_multiset().insert(record@.1),
        forall|i: int|
            0 <= i < final(records)@.len() ==> (#[trigger] final(records)@[i] == record || exists|
                j: int,
            |
                0 <= j < old(records)@.len() && final(records)@[i] == old(records)@[j]),
{
    let ghost names = record_names(records@);
    let mut at: usize = 0;
    while at < records.len() && !comes_before(
        record.path.file_name.as_str(),
        records[at].path.file_name.as_str(),
    )
        invariant
            at <= records.len(),
            records@ == old(records)@,
            names == record_names(records@),
            forall|j: int| 0 <= j < at ==> !precedes(record@.1, #[trigger] names[j]),
        decreases records.len() - at,
    {
        at += 1;
    }
    proof {
        assert forall|j: int| at <= j < names.len() implies !precedes(
            #[trigger] names[j],
            record@.1,
        ) by {
            if precedes(names[j], record@.1) {
                lemma_precedes_transitive(names[j], record@.1, names[at as int]);
                if j > at {
                    assert(!precedes(names[j], names[at as int]));
                } else {
                    lemma_precedes_irreflexive(names[j]);
                }
            }
        }
    }
    records.insert(at, record);
    proof {
        let after = names.insert(at as int, record@.1);
        assert(record_names(records@) =~= after);
        vstd::seq_lib::to_multiset_insert(names, at as int, record@.1);
        assert forall|i: int, j: int| 0 <= i < j < after.len() implies !precedes(
            #[trigger] after[j],
            #[trigger] after[i],
        ) by {
            if i < at && j < at {
                assert(!precedes(names[j], names[i]));
            } else if i < at && j > at {
                assert(!precedes(names[j - 1], names[i]));
            } else if i > at && j > at {
                assert(!precedes(names[j - 1], names[i - 1]));
            } else if i == at {
                assert(!precedes(names[j - 1], record@.1));
            }
        }
        assert forall|i: int| 0 <= i < records@.len() implies (#[trigger] records@[i] == record
            || exists|j: int| 0 <= j < old(records)@.len() && records@[i] == old(records)@[j]) by {
            if i < at {
                assert(records@[i] == old(records)@[i]);
            } else if i > at {
                assert(records@[i] == old(records)@[i - 1]);
            }
        }
    }
}

impl JournalView {
    /// What is wrong with reading contents as a record, in the order in which it is
    /// looked for.
    pub open spec fn read_refused(
        self,
        record: (Seq<u8>, Seq<char>),
        contents: Seq<u8>,
        e: DtnError,
    ) -> bool {
        if !self.owns(record) {
            e == DtnError::OutsidePendingSet
        } else if contents.len() > self.max_record_bytes {
            e == DtnError::RecordTooLargeAfterRead { max: self.max_record_bytes }
        } else {
            match name_declares(record.1, pending_suffix()) {
                None => e matches DtnError::MalformedRecord { name } && name@ == record.1,
                Some(declared) => if contents.len() != declared.len {
                    e == DtnError::LengthMismatch {
                        declared: declared.len,
                        actual: contents.len() as u64,
                    }
                } else {
                    declared.checksum matches Some(sum) && sum != crc32_of(contents) && e
                        == DtnError::ChecksumMismatch { expected: sum, found: crc32_of(contents) }
                },
            }
        }
    }

    /// What is wrong with a record whose file has the given length, before it is
    /// read.
    pub open spec fn stat_refused(
        self,
        record: (Seq<u8>, Seq<char>),
        stat_len: u64,
        e: DtnError,
    ) -> bool {
        if !self.owns(record) {
            e == DtnError::OutsidePendingSet
        } else if stat_len > self.max_record_bytes {
            e == DtnError::RecordTooLarge { max: self.max_record_bytes }
        } else {
            match name_declares(record.1, pending_suffix()) {
                None => e matches DtnError::MalformedRecord { name } && name@ == record.1,
                Some(declared) => stat_len != declared.len && e == DtnError::LengthMismatch {
                    declared: declared.len,
                    actual: stat_len,
                },
            }
        }
    }
}

impl InboundJournal {
    /// Whether a record belongs to the pending set of this journal.
    pub fn owns(&self, record: &JournaledBundle) -> (r: bool)
        ensures
            r == self@.owns(record@),
    {
        same_bytes(record.path.parent.as_slice(), self.root.as_slice()) && record_is_pending(record)
    }

    /// Whether a record may be read, from the length of its file. Nothing is
    /// allocated for a record that is too long.
    pub fn admit_read(&self, record: &JournaledBundle, stat_len: u64) -> (r: Result<(), DtnError>)
        ensures
            match r {
                Ok(()) => {
                    &&& self@.owns(record@)
                    &&& stat_len <= self@.max_record_bytes
                    &&& name_declares(record@.1, pending_suffix()) matches Some(declared)
                        && stat_len == declared.len
                },
                Err(e) => self@.stat_refused(record@, stat_len, e),
            },
            r is Ok <==> {
                &&& self@.owns(record@)
                &&& stat_len <= self@.max_record_bytes
                &&& name_declares(record@.1, pending_suffix()) is Some
                &&& name_declares(record@.1, pending_suffix())->0.len == stat_len
            },
    {
        if !self.owns(record) {
            return Err(DtnError::OutsidePendingSet);
        }
        if stat_len > self.max_record_bytes as u64 {
            return Err(DtnError::RecordTooLarge { max: self.max_record_bytes });
        }
        match pending_declared(record.path.file_name.as_str()) {
            None => Err(DtnError::MalformedRecord { name: record.path.file_name.clone() }),
            Some(declared) => {
                if stat_len != declared.len as u64 {
                    Err(DtnError::LengthMismatch { declared: declared.len, actual: stat_len })
                } else {
                    Ok(())
                }
            },
        }
    }

    /// Accepts the contents of a record once its file has been read: they have the
    /// length and the checksum that the record declares.
    pub fn read(&self, record: &JournaledBundle, contents: Bytes) -> (r: Result<Bytes, DtnError>)
        ensures
            match r {
                Ok(raw) => raw == contents && self@.readable(record@, bytes_held(contents)),
                Err(e) => !self@.readable(record@, bytes_held(contents)) && self@.read_refused(
                    record@,
                    bytes_held(contents),
                    e,
                ),
            },
    {
        if !self.owns(record) {
            return Err(DtnError::OutsidePendingSet);
        }
        let raw: &[u8] = bytes_slice(&contents);
        let len: usize = raw.len();
        if len > self.max_record_bytes {
            return Err(DtnError::RecordTooLargeAfterRead { max: self.max_record_bytes });
        }
        match pending_declared(record.path.file_name.as_str()) {
            None => Err(DtnError::MalformedRecord { name: record.path.file_name.clone() }),
            Some(declared) => {
                if len != declared.len {
                    return Err(
                        DtnError::LengthMismatch { declared: declared.len, actual: len as u64 },
                    );
                }
                if let Some(sum) = declared.checksum {
                    let found: u32 = crc32(raw);
                    if found != sum {
                        return Err(DtnError::ChecksumMismatch { expected: sum, found });
                    }
                }
                Ok(contents)
            },
        }
    }

    /// Begins to remove a record that was dispatched. Only pending records of this journal
    /// may be removed.
    pub fn mark_delivered(&self, record: &JournaledBundle) -> (r: Result<RemovalStep, DtnError>)
        ensures
            r == if self@.owns(record@) {
                Ok::<RemovalStep, DtnError>(RemovalStep::RemoveFile)
            } else {
                Err(DtnError::OutsidePendingSet)
            },
    {
        if self.owns(record) {
            Ok(RemovalStep::RemoveFile)
        } else {
            Err(DtnError::OutsidePendingSet)
        }
    }

    /// Whether a bundle is one that the journal may hold at all, by its length.
    pub fn admit_record(&self, raw: &Bytes) -> (r: Result<(), DtnError>)
        ensures
            r == if bytes_held(*raw).len() <= self@.max_record_bytes {
                Ok::<(), DtnError>(())
            } else {
                Err(DtnError::RecordTooLarge { max: self@.max_record_bytes })
            },
    {
        if bytes_slice(raw).len() > self.max_record_bytes {
            Err(DtnError::RecordTooLarge { max: self.max_record_bytes })
        } else {
            Ok(())
        }
    }

    /// Begins to commit a bundle, unless it is too long or the journal is full. The bundle
    /// is not decoded, and gets a name that the listing does not hold.
    pub fn persist(&self, raw: &Bytes, listing: &Vec<JournalEntry>) -> (r: Result<
        PersistRun,
        DtnError,
    >)
        ensures
            match r {
                Ok(run) => {
                    &&& self@.admits(listing@, bytes_held(*raw).len())
                    &&& run@ == PersistView::begun(
                        self@.root,
                        bytes_held(*raw).len() as usize,
                        crc32_of(bytes_held(*raw)),
                        listed_names(listing@),
                    )
                },
                Err(e) => {
                    &&& !self@.admits(listing@, bytes_held(*raw).len())
                    &&& e == if bytes_held(*raw).len() > self@.max_record_bytes {
                        DtnError::RecordTooLarge { max: self@.max_record_bytes }
                    } else {
                        DtnError::CapacityExceeded {
                            projected: self@.projected(listing@, bytes_held(*raw).len()) as u64,
                            capacity: self@.max_pending_bytes,
                        }
                    }
                },
            },
    {
        self.admit_record(raw)?;
        let held: &[u8] = bytes_slice(raw);
        let raw_len: usize = held.len();
        let projected: u64 = self.pending_bytes(listing).saturating_add(raw_len as u64);
        if projected > self.max_pending_bytes {
            return Err(
                DtnError::CapacityExceeded { projected, capacity: self.max_pending_bytes },
            );
        }
        let root: Vec<u8> = self.root.clone();
        assert(root@ =~= self.root@);
        Ok(PersistRun::begin(root, raw_len, crc32(held), names_of(listing)))
    }

    /// The bytes that the journal holds, for its capacity.
    pub fn pending_bytes(&self, listing: &Vec<JournalEntry>) -> (r: u64)
        ensures
            r == if reserved_bytes(listing@) <= u64::MAX {
                reserved_bytes(listing@)
            } else {
                u64::MAX as nat
            },
    {
        let mut total: u64 = 0;
        let mut i: usize = 0;
        assert(listing@.take(0) =~= Seq::<JournalEntry>::empty());
        while i < listing.len()
            invariant
                i <= listing.len(),
                total == if reserved_bytes(listing@.take(i as int)) <= u64::MAX {
                    reserved_bytes(listing@.take(i as int))
                } else {
                    u64::MAX as nat
                },
            decreases listing.len() - i,
        {
            let entry: &JournalEntry = &listing[i];
            assert(listing@.take(i + 1).drop_last() =~= listing@.take(i as int));
            if let Some(name) = &entry.name {
                if (is_pending_name(name.as_str()) || temp_expected_len(name.as_str()).is_some())
                    && entry.is_file {
                    total = total.saturating_add(entry.len);
                }
            }
            i += 1;
        }
        assert(listing@.take(listing.len() as int) =~= listing@);
        total
    }
}

} // verus!

use bytes::Bytes;
use kitsune2_transport_dtn::commit::{FileOutcome, PersistStep};
use kitsune2_transport_dtn::error::DtnError;
use kitsune2_transport_dtn::journal::{
    record_is_pending, InboundJournal, JournalEntry, JournaledBundle, Promotion,
};
use kitsune2_transport_dtn::record::RecordStamp;
use kitsune2_transport_dtn::recovery::{Recovery, RecoveryStep};
use kitsune2_transport_dtn::removal::RemovalStep;

/// A directory that is kept in memory.
struct Directory {
    files: Vec<(String, Vec<u8>)>,
    next_stamp: u64,
}

impl Directory {
    fn new() -> Directory {
        Directory { files: Vec::new(), next_stamp: 0 }
    }

    fn put(&mut self, name: &str, contents: &[u8]) {
        self.files.push((name.to_string(), contents.to_vec()));
    }

    fn has(&self, name: &str) -> bool {
        self.files.iter().any(|(n, _)| n == name)
    }

    fn rename(&mut self, from: &str, to: &str) {
        for (name, _) in self.files.iter_mut() {
            if name == from {
                *name = to.to_string();
            }
        }
    }

    fn contents(&self, name: &str) -> Vec<u8> {
        for (n, contents) in &self.files {
            if n == name {
                return contents.clone();
            }
        }
        panic!("no file {name}");
    }

    fn remove(&mut self, name: &str) -> bool {
        let before = self.files.len();
        self.files.retain(|(n, _)| n != name);
        self.files.len() < before
    }

    fn listing(&self) -> Vec<JournalEntry> {
        self.files
            .iter()
            .map(|(name, contents)| JournalEntry {
                name: Some(name.clone()),
                is_file: true,
                len: contents.len() as u64,
            })
            .collect()
    }

    fn stamp(&mut self) -> RecordStamp {
        self.next_stamp += 1;
        RecordStamp { nanos: 1_000, process_id: 7, counter: self.next_stamp }
    }

    fn open(&mut self, max_pending: u64, max_record: usize) -> Result<InboundJournal, DtnError> {
        let journal = InboundJournal::open(b"/journal".to_vec(), max_pending, max_record)?;
        let mut recovery = Recovery::begin(journal.recover_complete_temps(&self.listing())?);
        while recovery.step() != RecoveryStep::Open {
            if let Some(promotion) = recovery.current() {
                assert_eq!(recovery.step(), RecoveryStep::Rename);
                self.rename(&promotion.from, &promotion.to);
            } else {
                assert_eq!(recovery.step(), RecoveryStep::SyncDirectory);
            }
            recovery = recovery.after(true);
        }
        Ok(journal)
    }

    fn persist(
        &mut self,
        journal: &InboundJournal,
        raw: &Bytes,
    ) -> Result<JournaledBundle, DtnError> {
        let mut run = journal.persist(raw, &self.listing())?;
        loop {
            match run.step() {
                PersistStep::Stamp => run = run.stamped(self.stamp())?,
                PersistStep::CreateTemp => {
                    let name = run.temp_file();
                    let outcome = if self.has(&name) {
                        FileOutcome::AlreadyExists
                    } else {
                        self.put(&name, b"");
                        FileOutcome::Done
                    };
                    run = run.after(outcome);
                }
                PersistStep::WriteTemp => {
                    let name = run.temp_file();
                    for (n, contents) in self.files.iter_mut() {
                        if *n == name {
                            *contents = raw.to_vec();
                        }
                    }
                    run = run.after(FileOutcome::Done);
                }
                PersistStep::SyncTemp => run = run.after(FileOutcome::Done),
                PersistStep::Rename => {
                    let (from, to) = (run.temp_file(), run.pending_file());
                    self.rename(&from, &to);
                    run = run.after(FileOutcome::Done);
                }
                PersistStep::SyncDirectory => run = run.after(FileOutcome::Done),
                PersistStep::Committed => return Ok(run.record().expect("committed")),
                PersistStep::Failed => panic!("nothing fails here"),
            }
        }
    }

    fn pending(&self, journal: &InboundJournal) -> Result<Vec<JournaledBundle>, DtnError> {
        journal.pending(&self.listing())
    }

    fn read(&self, journal: &InboundJournal, record: &JournaledBundle) -> Result<Bytes, DtnError> {
        let contents = self.contents(&record.path().file_name);
        journal.admit_read(record, contents.len() as u64)?;
        journal.read(record, Bytes::from(contents))
    }

    fn mark_delivered(
        &mut self,
        journal: &InboundJournal,
        record: &JournaledBundle,
    ) -> Result<RemovalStep, DtnError> {
        let mut step = journal.mark_delivered(record)?;
        while step != RemovalStep::Removed && step != RemovalStep::Failed {
            let done = match step {
                RemovalStep::RemoveFile => self.remove(&record.path().file_name),
                _ => true,
            };
            step = step.next(done);
        }
        Ok(step)
    }
}

fn stamp(counter: u64) -> RecordStamp {
    RecordStamp { nanos: 1_000, process_id: 7, counter }
}

#[test]
fn persists_across_reopen_until_marked_delivered() {
    let mut root = Directory::new();
    let raw = Bytes::from_static(b"raw-bundle");
    let journal = root.open(1024, 512).expect("open journal");
    root.persist(&journal, &raw).expect("persist");
    drop(journal);

    let reopened = root.open(1024, 512).expect("reopen journal");
    let pending = root.pending(&reopened).expect("pending");
    assert_eq!(pending.len(), 1);
    assert_eq!(root.read(&reopened, &pending[0]).unwrap(), raw);
    let removal = root
        .mark_delivered(&reopened, &pending[0])
        .expect("mark delivered");
    assert_eq!(removal, RemovalStep::Removed);
    assert!(root.pending(&reopened).unwrap().is_empty());
}

#[test]
fn identical_raw_bundles_get_distinct_journal_records() {
    let mut root = Directory::new();
    let raw = Bytes::from_static(b"same-bundle");
    let journal = root.open(1024, 512).expect("open journal");

    let first = root.persist(&journal, &raw).expect("first");
    let second = root.persist(&journal, &raw).expect("second");
    assert_ne!(first.path(), second.path());
    assert_eq!(root.pending(&journal).unwrap().len(), 2);
}

#[test]
fn capacity_limit_fails_closed() {
    let mut root = Directory::new();
    let journal = root.open(8, 8).expect("open journal");

    root.persist(&journal, &Bytes::from_static(b"12345678"))
        .expect("first record fits");
    assert!(root.persist(&journal, &Bytes::from_static(b"x")).is_err());
    assert_eq!(
        root.persist(&journal, &Bytes::from_static(b"x")),
        Err(DtnError::CapacityExceeded { projected: 9, capacity: 8 })
    );
    assert_eq!(
        root.persist(&journal, &Bytes::from_static(b"123456789")),
        Err(DtnError::RecordTooLarge { max: 8 })
    );
}

#[test]
fn complete_temp_record_is_promoted_on_reopen() {
    let mut root = Directory::new();
    root.put("record-deadbeef-3.tmp", b"abc");

    let journal = root.open(1024, 512).expect("recover journal");
    let pending = root.pending(&journal).expect("pending");
    assert_eq!(pending.len(), 1);
    assert_eq!(root.read(&journal, &pending[0]).unwrap(), Bytes::from_static(b"abc"));
    assert!(root.has("record-deadbeef-3.bundle"));
    assert!(!root.has("record-deadbeef-3.tmp"));
}

#[test]
fn journals_that_can_hold_nothing_are_not_opened() {
    assert_eq!(
        InboundJournal::open(Vec::new(), 1, 1).unwrap_err(),
        DtnError::EmptyJournalRoot
    );
    assert_eq!(
        InboundJournal::open(b"j".to_vec(), 0, 1).unwrap_err(),
        DtnError::ZeroPendingBytes
    );
    assert_eq!(
        InboundJournal::open(b"j".to_vec(), 1, 0).unwrap_err(),
        DtnError::ZeroRecordBytes
    );
    assert!(InboundJournal::open(b"j".to_vec(), 1, 1).is_ok());
}

#[test]
fn incomplete_temp_record_fails_startup_and_stays() {
    let mut root = Directory::new();
    root.put("record-deadbeef-3.tmp", b"ab");
    assert_eq!(
        root.open(1024, 512).unwrap_err(),
        DtnError::IncompleteTemp { name: "record-deadbeef-3.tmp".into() }
    );
    assert!(root.has("record-deadbeef-3.tmp"));
}

#[test]
fn temp_record_beyond_the_bound_fails_startup() {
    let mut root = Directory::new();
    root.put("record-deadbeef-9.tmp", b"123456789");
    assert_eq!(
        root.open(1024, 8).unwrap_err(),
        DtnError::IncompleteTemp { name: "record-deadbeef-9.tmp".into() }
    );
}

#[test]
fn recovery_collision_is_rejected() {
    let mut root = Directory::new();
    root.put("record-deadbeef-3.bundle", b"old");
    root.put("record-deadbeef-3.tmp", b"new");
    assert_eq!(
        root.open(1024, 512).unwrap_err(),
        DtnError::RecoveryCollision { name: "record-deadbeef-3.tmp".into() }
    );
    assert_eq!(root.contents("record-deadbeef-3.bundle"), b"old");
    assert_eq!(root.contents("record-deadbeef-3.tmp"), b"new");
}

#[test]
fn malformed_reserved_entries_fail_closed() {
    for name in [
        "record-x.tmp",
        "record-x-.tmp",
        "record-x-3a.tmp",
        "record-x.bundle",
        "record-x-crc01020304-.bundle",
    ] {
        let mut root = Directory::new();
        root.put(name, b"abc");
        assert_eq!(
            root.open(1024, 512).unwrap_err(),
            DtnError::MalformedRecord { name: name.into() },
        );
    }
    let journal = InboundJournal::open(b"j".to_vec(), 1024, 512).unwrap();
    let listing = vec![JournalEntry {
        name: Some("record-x-3.bundle".into()),
        is_file: false,
        len: 3,
    }];
    assert_eq!(
        journal.pending(&listing).unwrap_err(),
        DtnError::MalformedRecord { name: "record-x-3.bundle".into() }
    );
    assert!(journal.recover_complete_temps(&listing).is_err());
}

#[test]
fn oversized_pending_records_fail_closed() {
    let mut root = Directory::new();
    root.put("record-x-9.bundle", b"123456789");
    assert_eq!(
        root.open(1024, 8).unwrap_err(),
        DtnError::OversizedRecord { name: "record-x-9.bundle".into() }
    );
    let journal = InboundJournal::open(b"/journal".to_vec(), 1024, 8).unwrap();
    assert_eq!(
        root.pending(&journal).unwrap_err(),
        DtnError::OversizedRecord { name: "record-x-9.bundle".into() }
    );
}

#[test]
fn other_entries_are_left_alone() {
    let journal = InboundJournal::open(b"/journal".to_vec(), 1024, 8).unwrap();
    let listing = vec![
        JournalEntry { name: None, is_file: true, len: 99 },
        JournalEntry { name: Some("notes.txt".into()), is_file: true, len: 99 },
        JournalEntry { name: Some("record-x-3.txt".into()), is_file: true, len: 99 },
        JournalEntry { name: Some("a-record-x-3.bundle".into()), is_file: false, len: 99 },
    ];
    assert!(journal.recover_complete_temps(&listing).unwrap().is_empty());
    assert!(journal.pending(&listing).unwrap().is_empty());
    assert_eq!(journal.pending_bytes(&listing), 0);
}

#[test]
fn pending_bytes_count_committed_and_unfinished_records() {
    let journal = InboundJournal::open(b"/journal".to_vec(), 1024, 8).unwrap();
    let entry = |name: &str, is_file: bool, len: u64| JournalEntry {
        name: Some(name.into()),
        is_file,
        len,
    };
    let listing = vec![
        entry("record-a-3.bundle", true, 3),
        entry("record-b-40.tmp", true, 4),
        entry("record-c.tmp", true, 100),
        entry("record-d-5.bundle", false, 1000),
    ];
    assert_eq!(journal.pending_bytes(&listing), 7);
    let huge = vec![
        entry("record-a-3.bundle", true, u64::MAX),
        entry("record-b-3.bundle", true, 2),
    ];
    assert_eq!(journal.pending_bytes(&huge), u64::MAX);
}

#[test]
fn records_are_listed_oldest_first() {
    let mut root = Directory::new();
    let journal = root.open(1024, 512).unwrap();
    let mut made = Vec::new();
    for contents in ["one", "two", "three", "four"] {
        let record = root.persist(&journal, &Bytes::from(contents)).unwrap();
        made.push(record.path().file_name.clone());
    }
    root.files.reverse();
    let listed: Vec<String> = root
        .pending(&journal)
        .unwrap()
        .iter()
        .map(|record| record.path().file_name.clone())
        .collect();
    assert_eq!(listed, made);
    root.files.swap(0, 2);
    let again: Vec<String> = root
        .pending(&journal)
        .unwrap()
        .iter()
        .map(|record| record.path().file_name.clone())
        .collect();
    assert_eq!(again, made);
}

#[test]
fn changed_records_are_not_read() {
    let mut root = Directory::new();
    let journal = root.open(1024, 512).unwrap();
    let record = root.persist(&journal, &Bytes::from_static(b"123456789")).unwrap();
    assert!(record_is_pending(&record));
    assert_eq!(
        record.path().file_name,
        "record-000000000000000000000000000003e8-00000007-0000000000000001-crccbf43926-9.bundle"
    );
    assert_eq!(record.path().parent, b"/journal");

    let name = record.path().file_name.clone();
    root.remove(&name);
    root.put(&name, b"123456780");
    assert_eq!(
        root.read(&journal, &record),
        Err(DtnError::ChecksumMismatch { expected: 0xcbf4_3926, found: 0xb228_8182 })
    );

    root.remove(&name);
    root.put(&name, b"12345678");
    assert_eq!(
        root.read(&journal, &record),
        Err(DtnError::LengthMismatch { declared: 9, actual: 8 })
    );
    assert_eq!(
        journal.read(&record, Bytes::from_static(b"12345678")),
        Err(DtnError::LengthMismatch { declared: 9, actual: 8 })
    );
}

#[test]
fn reads_are_bounded_before_and_after() {
    let mut root = Directory::new();
    let wide = root.open(1024, 512).unwrap();
    let record = root.persist(&wide, &Bytes::from_static(b"123456789")).unwrap();
    let narrow = InboundJournal::open(b"/journal".to_vec(), 1024, 8).unwrap();
    assert_eq!(narrow.admit_read(&record, 9), Err(DtnError::RecordTooLarge { max: 8 }));
    assert_eq!(
        narrow.read(&record, Bytes::from_static(b"123456789")),
        Err(DtnError::RecordTooLargeAfterRead { max: 8 })
    );
}

#[test]
fn records_of_another_journal_are_refused() {
    let mut root = Directory::new();
    let journal = root.open(1024, 512).unwrap();
    let record = root.persist(&journal, &Bytes::from_static(b"abc")).unwrap();
    let other = InboundJournal::open(b"/elsewhere".to_vec(), 1024, 512).unwrap();
    assert!(journal.owns(&record));
    assert!(!other.owns(&record));
    assert_eq!(other.admit_read(&record, 3), Err(DtnError::OutsidePendingSet));
    assert_eq!(
        other.read(&record, Bytes::from_static(b"abc")),
        Err(DtnError::OutsidePendingSet)
    );
    assert_eq!(other.mark_delivered(&record), Err(DtnError::OutsidePendingSet));
    assert_eq!(journal.mark_delivered(&record), Ok(RemovalStep::RemoveFile));
}

#[test]
fn taken_names_are_given_up_after_thirty_two_attempts() {
    let journal = InboundJournal::open(b"/journal".to_vec(), 1024, 512).unwrap();
    let mut run = journal.persist(&Bytes::from_static(b"abc"), &Vec::new()).unwrap();
    for attempt in 0..32 {
        assert_eq!(run.step(), PersistStep::Stamp);
        run = run.stamped(stamp(attempt)).expect("a name is left");
        assert_eq!(run.step(), PersistStep::CreateTemp);
        run = run.after(FileOutcome::AlreadyExists);
    }
    assert_eq!(run.stamped(stamp(32)).unwrap_err(), DtnError::NoUniqueRecordId);
}

#[test]
fn a_taken_name_is_followed_by_a_new_one() {
    let mut root = Directory::new();
    let journal = root.open(1024, 512).unwrap();
    let taken = "record-000000000000000000000000000003e8-00000007-0000000000000001-crc352441c2-3";
    root.put(&format!("{taken}.tmp"), b"abc");
    let record = root.persist(&journal, &Bytes::from_static(b"abc")).unwrap();
    assert_eq!(
        record.path().file_name,
        "record-000000000000000000000000000003e8-00000007-0000000000000002-crc352441c2-3.bundle"
    );
}

#[test]
fn records_are_committed_in_order_or_not_at_all() {
    let order = [
        PersistStep::CreateTemp,
        PersistStep::WriteTemp,
        PersistStep::SyncTemp,
        PersistStep::Rename,
        PersistStep::SyncDirectory,
    ];
    let journal = InboundJournal::open(b"/journal".to_vec(), 1024, 512).unwrap();
    for failing in 0..=order.len() {
        let mut run = journal
            .persist(&Bytes::from_static(b"abc"), &Vec::new())
            .unwrap()
            .stamped(stamp(1))
            .unwrap();
        for (i, step) in order.iter().enumerate() {
            assert_eq!(run.step(), *step);
            assert!(run.record().is_none());
            if i == failing {
                run = run.after(FileOutcome::Failed);
                break;
            }
            run = run.after(FileOutcome::Done);
        }
        if failing < order.len() {
            assert_eq!(run.step(), PersistStep::Failed);
            assert!(run.record().is_none());
            assert_eq!(run.after(FileOutcome::Done).step(), PersistStep::Failed);
        } else {
            assert_eq!(run.step(), PersistStep::Committed);
            assert!(run.record().is_some());
        }
    }
}

#[test]
fn a_stamp_is_taken_only_where_a_name_is_wanted() {
    let journal = InboundJournal::open(b"/journal".to_vec(), 1024, 512).unwrap();
    let run = journal
        .persist(&Bytes::from_static(b"abc"), &Vec::new())
        .unwrap()
        .stamped(stamp(1))
        .unwrap();
    let name = run.temp_file();
    let run = run.stamped(stamp(2)).unwrap();
    assert_eq!(run.temp_file(), name);
    assert_eq!(run.step(), PersistStep::CreateTemp);
}

#[test]
fn unfinished_records_count_towards_the_capacity() {
    let mut root = Directory::new();
    let journal = InboundJournal::open(b"/journal".to_vec(), 10, 8).unwrap();
    root.put("record-x-8.tmp", b"12345678");
    assert!(root.persist(&journal, &Bytes::from_static(b"12")).is_ok());
    assert_eq!(
        root.persist(&journal, &Bytes::from_static(b"1")),
        Err(DtnError::CapacityExceeded { projected: 11, capacity: 10 })
    );
}

#[test]
fn several_complete_temp_records_are_recovered_side_by_side() {
    let mut root = Directory::new();
    root.put("record-a-3.tmp", b"one");
    root.put("record-b-3.bundle", b"two");
    root.put("record-c-5.tmp", b"three");
    let journal = root.open(1024, 512).expect("recover journal");
    let contents: Vec<Bytes> = root
        .pending(&journal)
        .unwrap()
        .iter()
        .map(|record| root.read(&journal, record).unwrap())
        .collect();
    assert_eq!(contents, vec![&b"one"[..], &b"two"[..], &b"three"[..]]);
}

#[test]
fn an_empty_journal_of_the_least_capacity_takes_the_largest_bundle() {
    let journal =
        InboundJournal::open(b"/journal".to_vec(), 67_108_864, 67_108_864).expect("open journal");
    let raw = Bytes::from(vec![0_u8; 67_108_864]);
    assert!(journal.persist(&raw, &Vec::new()).is_ok());
}

#[test]
fn a_name_that_is_listed_is_never_committed_again() {
    let mut root = Directory::new();
    let journal = root.open(1024, 512).unwrap();
    let raw = Bytes::from_static(b"abc");
    let first = root.persist(&journal, &raw).unwrap();
    root.next_stamp = 0;
    let second = root.persist(&journal, &raw).unwrap();
    assert_ne!(first.path(), second.path());
    assert_eq!(root.next_stamp, 2);
    assert_eq!(root.pending(&journal).unwrap().len(), 2);
    assert_eq!(root.contents(&first.path().file_name), b"abc");

    let mut run = journal.persist(&raw, &root.listing()).unwrap();
    for _ in 0..32 {
        run = run.stamped(stamp(1)).expect("attempts are left");
        assert_eq!(run.step(), PersistStep::Stamp);
    }
    assert_eq!(run.stamped(stamp(3)).unwrap_err(), DtnError::NoUniqueRecordId);
}

#[test]
fn a_record_is_removed_once() {
    let mut root = Directory::new();
    let journal = root.open(1024, 512).unwrap();
    let kept = root.persist(&journal, &Bytes::from_static(b"kept")).unwrap();
    let record = root.persist(&journal, &Bytes::from_static(b"abc")).unwrap();
    assert_eq!(journal.pending_bytes(&root.listing()), 7);
    assert_eq!(root.mark_delivered(&journal, &record), Ok(RemovalStep::Removed));
    assert_eq!(root.pending(&journal).unwrap(), vec![kept]);
    assert_eq!(journal.pending_bytes(&root.listing()), 4);
    assert_eq!(root.mark_delivered(&journal, &record), Ok(RemovalStep::Failed));
    assert_eq!(root.pending(&journal).unwrap().len(), 1);
}

#[test]
fn removals_need_both_file_operations() {
    assert_eq!(RemovalStep::RemoveFile.next(true), RemovalStep::SyncDirectory);
    assert_eq!(RemovalStep::RemoveFile.next(false), RemovalStep::Failed);
    assert_eq!(RemovalStep::SyncDirectory.next(true), RemovalStep::Removed);
    assert_eq!(RemovalStep::SyncDirectory.next(false), RemovalStep::Failed);
    assert_eq!(RemovalStep::Removed.next(false), RemovalStep::Removed);
    assert_eq!(RemovalStep::Failed.next(true), RemovalStep::Failed);
}

#[test]
fn lengths_are_tested_before_anything_is_listed() {
    let journal = InboundJournal::open(b"/journal".to_vec(), 1024, 3).unwrap();
    assert_eq!(journal.admit_record(&Bytes::from_static(b"abc")), Ok(()));
    assert_eq!(
        journal.admit_record(&Bytes::from_static(b"abcd")),
        Err(DtnError::RecordTooLarge { max: 3 })
    );
}

#[test]
fn a_root_may_be_written_in_more_than_one_way() {
    let record_at = |root: &str| {
        let journal = InboundJournal::open(root.as_bytes().to_vec(), 1024, 512).unwrap();
        let mut run = journal
            .persist(&Bytes::from_static(b"abc"), &Vec::new())
            .unwrap()
            .stamped(stamp(1))
            .unwrap();
        for _ in 0..5 {
            run = run.after(FileOutcome::Done);
        }
        run.record().unwrap()
    };
    let journal = InboundJournal::open(b"a/b".to_vec(), 1024, 512).unwrap();
    for same in ["a/b", "a/b/", "a//b", "a/./b", "a/b/."] {
        let record = record_at(same);
        assert!(journal.owns(&record), "{same}");
        assert_eq!(journal.mark_delivered(&record), Ok(RemovalStep::RemoveFile));
        assert_eq!(journal.admit_read(&record, 3), Ok(()));
        assert!(journal.read(&record, Bytes::from_static(b"abc")).is_ok());
        assert_eq!(record, record_at("a/b"));
    }
    for other in ["/a/b", "./a/b", "a", "a/b/c", "a/b/..", "a/b.", "ab"] {
        let record = record_at(other);
        assert_eq!(
            journal.mark_delivered(&record),
            Err(DtnError::OutsidePendingSet),
            "{other}"
        );
    }
}

#[test]
fn names_with_other_crc_fields_are_ordinary_records() {
    let mut root = Directory::new();
    root.put("record-crcx-3.bundle", b"abc");
    root.put("record-x-crc-3.tmp", b"def");
    let journal = root.open(1024, 512).expect("open journal");
    let contents: Vec<Bytes> = root
        .pending(&journal)
        .unwrap()
        .iter()
        .map(|record| root.read(&journal, record).unwrap())
        .collect();
    assert_eq!(contents, vec![&b"abc"[..], &b"def"[..]]);
}

#[test]
fn recovery_settles_the_directory() {
    let mut root = Directory::new();
    root.put("record-a-3.tmp", b"one");
    root.put("record-b-3.bundle", b"two");
    root.put("notes", b"other");
    let journal = root.open(1024, 512).expect("recover journal");
    assert_eq!(journal.pending_bytes(&root.listing()), 6);
    assert!(journal.recover_complete_temps(&root.listing()).unwrap().is_empty());
    assert_eq!(root.contents("record-a-3.bundle"), b"one");
    assert_eq!(root.contents("record-b-3.bundle"), b"two");
    assert_eq!(root.contents("notes"), b"other");
    assert_eq!(root.files.len(), 3);

    let before = root.files.clone();
    root.open(1024, 512).expect("recover again");
    assert_eq!(root.files, before);
}

#[test]
fn a_journal_opens_only_after_every_rename_and_the_sync() {
    let plan = |n: usize| -> Vec<Promotion> {
        (0..n)
            .map(|i| Promotion {
                from: format!("record-{i}-3.tmp"),
                to: format!("record-{i}-3.bundle"),
            })
            .collect()
    };
    let none = Recovery::begin(plan(0));
    assert_eq!(none.step(), RecoveryStep::Open);
    assert!(none.current().is_none());
    assert_eq!(none.after(false).step(), RecoveryStep::Open);

    for failing in 0..=4 {
        let mut recovery = Recovery::begin(plan(3));
        for i in 0..4 {
            if i > failing {
                assert_eq!(recovery.step(), RecoveryStep::Failed);
            } else if i < 3 {
                assert_eq!(recovery.step(), RecoveryStep::Rename);
                assert_eq!(recovery.current(), Some(&plan(3)[i]));
            } else {
                assert_eq!(recovery.step(), RecoveryStep::SyncDirectory);
                assert!(recovery.current().is_none());
            }
            recovery = recovery.after(i != failing);
        }
        let expected = if failing < 4 { RecoveryStep::Failed } else { RecoveryStep::Open };
        assert_eq!(recovery.step(), expected);
        assert_eq!(recovery.after(true).step(), expected);
    }
}

use dirnuke::aggregate::{aggregate_emissions, Totals};
use dirnuke::dir::{
    nuke_classify, nuke_dir, nuke_step, scan_dir, scan_file, scan_step, Emission, EntryMeta,
    Outcome, WalkEvent,
};
use dirnuke::utils::{AppError, DirData, SubDirError};
use dirnuke::validate::{validate, CandidateRoot, Notice, RootPath};

fn file_entry(name: &str, len: u64) -> WalkEvent {
    WalkEvent::Entry {
        name: String::from(name),
        meta: EntryMeta::Readable { is_file: true, is_symlink: false, len },
    }
}

fn dir_entry(name: &str) -> WalkEvent {
    WalkEvent::Entry {
        name: String::from(name),
        meta: EntryMeta::Readable { is_file: false, is_symlink: false, len: 0 },
    }
}

fn link_entry(name: &str) -> WalkEvent {
    WalkEvent::Entry {
        name: String::from(name),
        meta: EntryMeta::Readable { is_file: true, is_symlink: true, len: 4 },
    }
}

fn root(parts: &[&str]) -> RootPath {
    RootPath::new(parts.iter().map(|p| String::from(*p)).collect())
}

fn candidate(parts: &[&str], exists: bool) -> CandidateRoot {
    CandidateRoot { path: root(parts), exists }
}

#[test]
fn classifier_accepts_plain_file() {
    let meta = EntryMeta::Readable { is_file: true, is_symlink: false, len: 42 };
    assert_eq!(scan_file(&meta), Ok(42));
}

#[test]
fn classifier_skips_directory_and_symlink() {
    let dir = EntryMeta::Readable { is_file: false, is_symlink: false, len: 0 };
    assert_eq!(scan_file(&dir), Err(SubDirError()));
    let link = EntryMeta::Readable { is_file: true, is_symlink: true, len: 7 };
    assert_eq!(scan_file(&link), Err(SubDirError()));
}

#[test]
fn classifier_reports_unreadable_metadata() {
    let meta = EntryMeta::Unreadable { reason: String::from("permission denied") };
    assert_eq!(scan_file(&meta), Err(AppError::new(String::from("permission denied"))));
}

#[test]
fn sub_dir_error_message() {
    assert_eq!(SubDirError().message(), String::from("is subdirectory or symlink"));
}

#[test]
fn dir_data_from_and_add_assign() {
    let mut a = DirData::from(10, 2, 1);
    let b = DirData::from(5, 1, 0);
    a.add_assign(b);
    assert_eq!(a, DirData::from(15, 3, 1));
}

// The example tree: x (100), y (50), sub/ with z (25), and a symbolic
// link back at x. The scan counts 175 bytes over three files, no
// failures, and the link and the directory stay invisible.
#[test]
fn scan_example_tree() {
    let events = vec![
        file_entry("x", 100),
        file_entry("y", 50),
        dir_entry("sub"),
        file_entry("z", 25),
        link_entry("link"),
    ];
    let (emissions, data) = scan_dir(&events);
    assert_eq!(data, DirData::from(175, 3, 0));
    assert_eq!(emissions.len(), 3);
    for e in &emissions {
        assert!(e.name != "sub" && e.name != "link");
        assert!(matches!(e.outcome, Outcome::Success { .. }));
    }
    let totals = aggregate_emissions(&emissions);
    assert_eq!(totals.size, 175);
    assert_eq!(totals.processed, 3);
    assert_eq!(totals.error, 0);
    assert_eq!(totals.summary(), DirData::from(175, 3, 0));
}

#[test]
fn scan_counts_walk_errors_and_unreadable_entries() {
    let events = vec![
        WalkEvent::WalkError { name: String::from("/r"), reason: String::from("denied") },
        file_entry("a", 9),
        WalkEvent::Entry {
            name: String::from("b"),
            meta: EntryMeta::Unreadable { reason: String::from("gone") },
        },
    ];
    let (emissions, data) = scan_dir(&events);
    assert_eq!(data, DirData::from(9, 1, 2));
    assert_eq!(emissions.len(), 3);
    match &emissions[0].outcome {
        Outcome::Failure { reason } => assert_eq!(reason, "denied"),
        Outcome::Success { .. } => panic!("walk error must be a failure"),
    }
}

#[test]
fn scan_step_emits_nothing_for_skips() {
    let mut data = DirData::from(0, 0, 0);
    assert!(scan_step(&mut data, &dir_entry("d")).is_none());
    assert!(scan_step(&mut data, &link_entry("l")).is_none());
    assert_eq!(data, DirData::from(0, 0, 0));
}

// Aggregation over an arbitrary interleaving of two workers' streams
// matches the sum of the workers' own summaries.
#[test]
fn interleaved_streams_agree_with_worker_summaries() {
    let left = vec![file_entry("a", 1), file_entry("b", 2), dir_entry("s")];
    let right = vec![file_entry("c", 4), link_entry("l"), file_entry("d", 8)];
    let (le, ld) = scan_dir(&left);
    let (re, rd) = scan_dir(&right);
    // one of many possible arrival orders on the shared channel
    let mut received: Vec<Emission> = Vec::new();
    let mut li = le.into_iter();
    let mut ri = re.into_iter();
    received.push(ri.next().unwrap());
    received.push(li.next().unwrap());
    received.push(li.next().unwrap());
    received.push(ri.next().unwrap());
    let totals = aggregate_emissions(&received);
    let mut combined = ld;
    combined.add_assign(rd);
    assert_eq!(totals.size, combined.size);
    assert_eq!(totals.processed, combined.completed + combined.error);
    assert_eq!(totals.error, combined.error);
}

#[test]
fn nuke_classify_wants_only_plain_files() {
    assert_eq!(nuke_classify(&file_entry("x", 5)), Some(5));
    assert_eq!(nuke_classify(&dir_entry("d")), None);
    assert_eq!(nuke_classify(&link_entry("l")), None);
    assert_eq!(
        nuke_classify(&WalkEvent::WalkError {
            name: String::from("/r"),
            reason: String::from("denied"),
        }),
        None
    );
}

#[test]
fn nuke_walk_counts_deletions_and_failures() {
    let pairs = vec![
        (file_entry("x", 100), Some(Ok(()))),
        (dir_entry("sub"), None),
        (file_entry("y", 50), Some(Err(String::from("busy")))),
        (link_entry("l"), None),
    ];
    let (emissions, data) = nuke_dir(&pairs);
    assert_eq!(data, DirData::from(100, 1, 1));
    assert_eq!(emissions.len(), 2);
    match &emissions[1].outcome {
        Outcome::Failure { reason } => assert_eq!(reason, "busy"),
        Outcome::Success { .. } => panic!("failed deletion must be a failure"),
    }
}

#[test]
fn nuke_step_success_counts_bytes() {
    let mut data = DirData::from(0, 0, 0);
    let emit = nuke_step(&mut data, &file_entry("x", 30), &Some(Ok(())));
    assert!(matches!(emit, Some(Emission { outcome: Outcome::Success { len: 30 }, .. })));
    assert_eq!(data, DirData::from(30, 1, 0));
}

#[test]
fn totals_absorb_and_summary() {
    let mut t = Totals::new();
    t.absorb(&Emission { name: String::from("a"), outcome: Outcome::Success { len: 100 } });
    t.absorb(&Emission { name: String::from("b"), outcome: Outcome::Failure { reason: String::from("denied") } });
    t.absorb(&Emission { name: String::from("c"), outcome: Outcome::Success { len: 50 } });
    assert_eq!(t.size, 150);
    assert_eq!(t.processed, 3);
    assert_eq!(t.error, 1);
    assert_eq!(t.summary(), DirData::from(150, 2, 1));
}

// The rendered byte text comes from indicatif; the library's output
// must match what the crate itself would print.
#[test]
fn bytes_text_matches_indicatif() {
    let t = Totals { size: 15, processed: 1, error: 0 };
    assert_eq!(t.bytes_text(), format!("{}", indicatif::HumanBytes(15)));
    assert_eq!(t.bytes_text(), String::from("15 B"));
    let big = Totals { size: 1_500, processed: 1, error: 0 };
    assert_eq!(big.bytes_text(), String::from("1.46 KiB"));
}

// Nested roots are refused in either direction.
#[test]
fn validate_rejects_nested_roots() {
    let list = vec![candidate(&["tmp", "a"], true), candidate(&["tmp", "a", "sub"], true)];
    assert!(validate(&list).is_err());
    let reversed = vec![candidate(&["tmp", "a", "sub"], true), candidate(&["tmp", "a"], true)];
    assert!(validate(&reversed).is_err());
}

#[test]
fn validate_accepts_siblings() {
    let list = vec![candidate(&["tmp", "a"], true), candidate(&["tmp", "b"], true)];
    let (roots, notices) = validate(&list).unwrap();
    assert_eq!(roots.len(), 2);
    assert!(notices.is_empty());
}

// "/tmp/ab" is no child of "/tmp/a": nesting goes by whole components.
#[test]
fn validate_compares_whole_components() {
    let list = vec![candidate(&["tmp", "a"], true), candidate(&["tmp", "ab"], true)];
    let (roots, _) = validate(&list).unwrap();
    assert_eq!(roots.len(), 2);
}

#[test]
fn validate_deduplicates_and_drops_missing() {
    let list = vec![
        candidate(&["tmp", "a"], true),
        candidate(&["tmp", "gone"], false),
        candidate(&["tmp", "a"], true),
        candidate(&["tmp", "b"], true),
    ];
    let (roots, notices) = validate(&list).unwrap();
    assert_eq!(roots.len(), 2);
    assert_eq!(roots[0].components, vec![String::from("tmp"), String::from("a")]);
    assert_eq!(roots[1].components, vec![String::from("tmp"), String::from("b")]);
    assert_eq!(notices.len(), 2);
    assert!(matches!(notices[0], Notice::Missing { .. }));
    assert!(matches!(notices[1], Notice::Duplicate { .. }));
}

// A duplicate of an already kept root never turns into a nesting
// error, even though equal paths are prefixes of each other.
#[test]
fn validate_duplicate_is_not_a_conflict() {
    let list = vec![candidate(&["tmp", "a"], true), candidate(&["tmp", "a"], true)];
    assert!(validate(&list).is_ok());
}

#[test]
fn validate_conflict_names_both_roots() {
    let list = vec![candidate(&["tmp", "a"], true), candidate(&["tmp", "a", "sub"], true)];
    let c = validate(&list).unwrap_err();
    assert_eq!(c.kept.components, vec![String::from("tmp"), String::from("a")]);
    assert_eq!(
        c.offered.components,
        vec![String::from("tmp"), String::from("a"), String::from("sub")]
    );
}

// A root that conflicts only with a missing entry is fine: dropped
// entries take no part in the nesting check.
#[test]
fn validate_missing_roots_cannot_conflict() {
    let list = vec![candidate(&["tmp", "a"], false), candidate(&["tmp", "a", "sub"], true)];
    let (roots, notices) = validate(&list).unwrap();
    assert_eq!(roots.len(), 1);
    assert_eq!(notices.len(), 1);
}

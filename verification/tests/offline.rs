use std::path::PathBuf;

use hindsight::offline::{
    seed_paths_overlap, seed_resources_argument, seed_step, DestinationEntry, SeedReport, SeedStep,
    SourceEntry,
};

fn strings(items: &[&str]) -> Vec<String> {
    items.iter().map(|s| s.to_string()).collect()
}

#[test]
fn parses_seed_argument_and_rejects_missing_value() {
    let args: Vec<String> = vec![
        "hindsight.exe".into(),
        "--seed-resources".into(),
        "assets".into(),
    ];
    assert_eq!(
        seed_resources_argument(&args).unwrap().map(PathBuf::from),
        Some(PathBuf::from("assets"))
    );
    assert!(seed_resources_argument(&args[..2]).is_err());
}

#[test]
fn seed_argument_is_optional_and_program_name_is_not_a_flag() {
    assert_eq!(seed_resources_argument(&strings(&["hindsight.exe"])), Ok(None));
    assert_eq!(seed_resources_argument(&strings(&[])), Ok(None));
    assert_eq!(
        seed_resources_argument(&strings(&["--seed-resources", "x"])),
        Ok(None)
    );
    assert_eq!(
        seed_resources_argument(&strings(&["app", "--verbose", "--seed-resources", "d", "other"])),
        Ok(Some("d".to_string()))
    );
}

#[test]
fn seed_argument_errors_name_the_problem() {
    assert_eq!(
        seed_resources_argument(&strings(&["app", "--seed-resources", "a", "--seed-resources", "b"])),
        Err("--seed-resources may be specified only once".to_string())
    );
    assert_eq!(
        seed_resources_argument(&strings(&["app", "--seed-resources", "--other"])),
        Err("--seed-resources requires a source directory".to_string())
    );
    assert_eq!(
        seed_resources_argument(&strings(&["app", "--seed-resources", ""])),
        Err("--seed-resources requires a source directory".to_string())
    );
}

#[test]
fn seed_report_counts_copies_and_skips() {
    let mut report = SeedReport::default();
    report.note_copied();
    report.note_skipped();
    report.note_skipped();
    assert_eq!(report, SeedReport { copied: 1, skipped: 2 });
}

#[test]
fn overlapping_paths_are_equal_or_nested() {
    let source = strings(&["/", "tmp", "offline-assets", "ai"]);
    let nested = strings(&["/", "tmp", "offline-assets", "ai", "ai"]);
    let sibling = strings(&["/", "tmp", "data", "ai"]);
    let parent = strings(&["/", "tmp"]);
    assert!(seed_paths_overlap(&source, &source));
    assert!(seed_paths_overlap(&source, &nested));
    assert!(seed_paths_overlap(&source, &parent));
    assert!(!seed_paths_overlap(&source, &sibling));
    let prefix_name = strings(&["/", "tmp", "offline-assets", "aim"]);
    assert!(!seed_paths_overlap(&source, &prefix_name));
}

#[test]
fn seeding_never_replaces_an_existing_entry() {
    assert_eq!(seed_step(SourceEntry::File, DestinationEntry::Missing), SeedStep::CopyFile);
    assert_eq!(seed_step(SourceEntry::File, DestinationEntry::File), SeedStep::SkipExisting);
    assert_eq!(
        seed_step(SourceEntry::File, DestinationEntry::Directory),
        SeedStep::RejectFileTarget
    );
    assert_eq!(
        seed_step(SourceEntry::Directory, DestinationEntry::Missing),
        SeedStep::CreateDirectory
    );
    assert_eq!(
        seed_step(SourceEntry::Directory, DestinationEntry::Directory),
        SeedStep::EnterDirectory
    );
    assert_eq!(
        seed_step(SourceEntry::Directory, DestinationEntry::File),
        SeedStep::RejectDirectoryTarget
    );
    assert_eq!(seed_step(SourceEntry::Symlink, DestinationEntry::Missing), SeedStep::RejectSymlink);
    assert_eq!(seed_step(SourceEntry::Other, DestinationEntry::File), SeedStep::RejectUnsupported);
}

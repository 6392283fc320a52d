use sqlite_migrate::discovery::{discover, DiscoveryError, MigrationFile};
use sqlite_migrate::name::{file_version, NameVersion};
use sqlite_migrate::run::{migrate, Event, MigrationRun, Phase, RunError};
use sqlite_migrate::stored::parse_stored_version;

fn listing(names: &[&str]) -> Vec<String> {
    names.iter().map(|n| n.to_string()).collect()
}

fn versions(plan: &[MigrationFile]) -> Vec<u32> {
    plan.iter().map(|m| m.version).collect()
}

#[test]
fn names_with_a_version() {
    assert_eq!(file_version("m_1.sql"), NameVersion::Version(1));
    assert_eq!(file_version("m_001.sql"), NameVersion::Version(1));
    assert_eq!(file_version("m_03.sql"), NameVersion::Version(3));
    assert_eq!(file_version("add_m_42.sql"), NameVersion::Version(42));
    assert_eq!(file_version("m_4294967295.sql"), NameVersion::Version(u32::MAX));
}

#[test]
fn names_that_are_not_migrations() {
    assert_eq!(file_version("readme.txt"), NameVersion::Ignored);
    assert_eq!(file_version("m_abc.sql"), NameVersion::Ignored);
    assert_eq!(file_version("m_.sql"), NameVersion::Ignored);
    assert_eq!(file_version("m_1.sql.bak"), NameVersion::Ignored);
    assert_eq!(file_version("m_1xsql"), NameVersion::Ignored);
    assert_eq!(file_version("n_1.sql"), NameVersion::Ignored);
    assert_eq!(file_version("m-1.sql"), NameVersion::Ignored);
    assert_eq!(file_version("m_+1.sql"), NameVersion::Ignored);
    assert_eq!(file_version(""), NameVersion::Ignored);
    assert_eq!(file_version(".sql"), NameVersion::Ignored);
}

#[test]
fn version_too_large_for_u32() {
    assert_eq!(file_version("m_4294967296.sql"), NameVersion::TooLarge);
    assert_eq!(file_version("m_99999999999999999999.sql"), NameVersion::TooLarge);
}

#[test]
fn stored_version_text() {
    assert_eq!(parse_stored_version("0\n"), Some(0));
    assert_eq!(parse_stored_version("  17 \r\n"), Some(17));
    assert_eq!(parse_stored_version("+5"), Some(5));
    assert_eq!(parse_stored_version("4294967295"), Some(u32::MAX));
    assert_eq!(parse_stored_version("\u{a0}8\u{3000}"), Some(8));
    assert_eq!(parse_stored_version(""), None);
    assert_eq!(parse_stored_version("\n"), None);
    assert_eq!(parse_stored_version("+"), None);
    assert_eq!(parse_stored_version("-1"), None);
    assert_eq!(parse_stored_version("1 2"), None);
    assert_eq!(parse_stored_version("4294967296"), None);
    assert_eq!(parse_stored_version("Error: file is not a database"), None);
}

#[test]
fn gap_in_versions_is_tolerated() {
    let plan = discover(&listing(&["m_1.sql", "m_3.sql"]), 0).unwrap();
    assert_eq!(versions(&plan), vec![1, 3]);
    assert_eq!(plan[0].entry, 0);
    assert_eq!(plan[1].entry, 1);
}

#[test]
fn leading_zero_collision() {
    let r = discover(&listing(&["m_03.sql", "m_3.sql"]), 0);
    assert_eq!(r, Err(DiscoveryError::DuplicateVersion { version: 3 }));
}

#[test]
fn duplicates_at_or_below_current_are_ignored() {
    let plan = discover(&listing(&["m_03.sql", "m_3.sql", "m_4.sql"]), 3).unwrap();
    assert_eq!(versions(&plan), vec![4]);
    assert_eq!(plan[0].entry, 2);
}

#[test]
fn non_matching_files_are_ignored() {
    let plan = discover(&listing(&["readme.txt", "m_abc.sql", "m_2.sql"]), 0).unwrap();
    assert_eq!(versions(&plan), vec![2]);
    assert_eq!(plan[0].entry, 2);
    assert_eq!(discover(&listing(&["readme.txt", "m_abc.sql"]), 0), Ok(vec![]));
}

#[test]
fn unsorted_listing_is_planned_in_ascending_order() {
    let names = listing(&["m_10.sql", "m_2.sql", "notes.md", "m_7.sql", "m_1.sql"]);
    let plan = discover(&names, 0).unwrap();
    assert_eq!(versions(&plan), vec![1, 2, 7, 10]);
    let entries: Vec<usize> = plan.iter().map(|m| m.entry).collect();
    assert_eq!(entries, vec![4, 1, 3, 0]);
}

#[test]
fn versions_at_or_below_current_are_left_out() {
    let names = listing(&["m_1.sql", "m_2.sql", "m_3.sql"]);
    assert_eq!(versions(&discover(&names, 2).unwrap()), vec![3]);
    assert_eq!(discover(&names, 3), Ok(vec![]));
    assert_eq!(discover(&listing(&[]), 0), Ok(vec![]));
}

#[test]
fn unparsable_version_is_an_error() {
    let r = discover(&listing(&["m_1.sql", "m_4294967296.sql"]), 0);
    assert_eq!(r, Err(DiscoveryError::UnparsableVersion { entry: 1 }));
    let r = discover(&listing(&["m_4294967296.sql"]), 7);
    assert_eq!(r, Err(DiscoveryError::UnparsableVersion { entry: 0 }));
}

#[test]
fn first_error_in_listing_order_wins() {
    let r = discover(&listing(&["m_2.sql", "m_02.sql", "m_9999999999.sql"]), 0);
    assert_eq!(r, Err(DiscoveryError::DuplicateVersion { version: 2 }));
    let r = discover(&listing(&["m_9999999999.sql", "m_2.sql", "m_02.sql"]), 0);
    assert_eq!(r, Err(DiscoveryError::UnparsableVersion { entry: 0 }));
}

/// Drives a run to its end: `exec_ok` says whether the SQL of a listing entry
/// succeeds, and the version writes all succeed. Returns the run and the
/// versions recorded, in order.
fn drive(db_version: Option<u32>, names: &[&str], exec_ok: &dyn Fn(usize) -> bool) -> (MigrationRun, Vec<u32>) {
    let mut run = MigrationRun::new(db_version.is_some());
    let mut recorded = Vec::new();
    loop {
        let event = match run.phase {
            Phase::ReadVersion => Event::VersionRead(Some(format!("{}\n", db_version.unwrap()))),
            Phase::ListDirectory => Event::Listed(Some(listing(names))),
            Phase::ResolvePaths => Event::PathsResolved(None),
            Phase::Execute => Event::Executed(exec_ok(run.plan[run.next].entry)),
            Phase::RecordVersion => {
                recorded.push(run.plan[run.next].version);
                Event::VersionWritten(true)
            }
            Phase::Done | Phase::Failed(_) => return (run, recorded),
        };
        migrate(&mut run, event);
    }
}

#[test]
fn fresh_database_starts_at_version_zero() {
    let run = MigrationRun::new(false);
    assert_eq!(run.phase, Phase::ListDirectory);
    assert_eq!(run.version(), 0);
    let (run, recorded) = drive(None, &["m_2.sql", "m_1.sql", "m_3.sql"], &|_| true);
    assert_eq!(run.phase, Phase::Done);
    assert_eq!(recorded, vec![1, 2, 3]);
    assert_eq!(run.version(), 3);
}

#[test]
fn gap_in_versions_applies_in_order() {
    let (run, recorded) = drive(None, &["m_3.sql", "m_1.sql"], &|_| true);
    assert_eq!(run.phase, Phase::Done);
    assert_eq!(recorded, vec![1, 3]);
}

#[test]
fn second_run_applies_nothing() {
    let names = ["m_1.sql", "m_2.sql", "readme.txt"];
    let (first, recorded) = drive(None, &names, &|_| true);
    assert_eq!(recorded, vec![1, 2]);
    let (second, recorded) = drive(Some(first.version()), &names, &|_| true);
    assert_eq!(second.phase, Phase::Done);
    assert!(recorded.is_empty());
    assert_eq!(second.version(), 2);
}

#[test]
fn failure_mid_sequence_stops_at_last_applied() {
    let names = ["m_2.sql", "m_1.sql"];
    let (run, recorded) = drive(None, &names, &|entry| entry != 0);
    assert_eq!(run.phase, Phase::Failed(RunError::Execution { entry: 0 }));
    assert_eq!(names[0], "m_2.sql");
    assert_eq!(recorded, vec![1]);
    assert_eq!(run.version(), 1);
    let (rerun, recorded) = drive(Some(run.version()), &names, &|_| true);
    assert_eq!(rerun.phase, Phase::Done);
    assert_eq!(recorded, vec![2]);
}

#[test]
fn version_write_failure_keeps_previous_version() {
    let mut run = MigrationRun::new(false);
    migrate(&mut run, Event::Listed(Some(listing(&["m_5.sql", "m_6.sql"]))));
    migrate(&mut run, Event::PathsResolved(None));
    migrate(&mut run, Event::Executed(true));
    migrate(&mut run, Event::VersionWritten(true));
    assert_eq!(run.version(), 5);
    migrate(&mut run, Event::Executed(true));
    migrate(&mut run, Event::VersionWritten(false));
    assert_eq!(run.phase, Phase::Failed(RunError::VersionWrite { version: 6 }));
    assert_eq!(run.version(), 5);
}

#[test]
fn unreadable_stored_version_fails() {
    let mut run = MigrationRun::new(true);
    assert_eq!(run.phase, Phase::ReadVersion);
    migrate(&mut run, Event::VersionRead(Some("not a number".to_string())));
    assert_eq!(run.phase, Phase::Failed(RunError::ReadVersion));
    let mut run = MigrationRun::new(true);
    migrate(&mut run, Event::VersionRead(None));
    assert_eq!(run.phase, Phase::Failed(RunError::ReadVersion));
}

#[test]
fn stored_version_filters_the_plan() {
    let (run, recorded) = drive(Some(2), &["m_1.sql", "m_2.sql", "m_3.sql"], &|_| true);
    assert_eq!(run.start, 2);
    assert_eq!(recorded, vec![3]);
}

#[test]
fn listing_and_discovery_failures() {
    let mut run = MigrationRun::new(false);
    migrate(&mut run, Event::Listed(None));
    assert_eq!(run.phase, Phase::Failed(RunError::ListDirectory));
    let mut run = MigrationRun::new(false);
    migrate(&mut run, Event::Listed(Some(listing(&["m_03.sql", "m_3.sql"]))));
    assert_eq!(run.phase, Phase::Failed(RunError::Discovery(DiscoveryError::DuplicateVersion { version: 3 })));
}

#[test]
fn path_resolution_failure() {
    let mut run = MigrationRun::new(false);
    migrate(&mut run, Event::Listed(Some(listing(&["m_1.sql"]))));
    assert_eq!(run.phase, Phase::ResolvePaths);
    migrate(&mut run, Event::PathsResolved(Some(0)));
    assert_eq!(run.phase, Phase::Failed(RunError::PathResolution { entry: 0 }));
    assert_eq!(run.version(), 0);
}

#[test]
fn empty_directory_is_done_at_once() {
    let mut run = MigrationRun::new(false);
    migrate(&mut run, Event::Listed(Some(listing(&["readme.txt"]))));
    assert_eq!(run.phase, Phase::Done);
    assert_eq!(run.version(), 0);
}

#[test]
fn event_out_of_turn_changes_nothing() {
    let mut run = MigrationRun::new(false);
    migrate(&mut run, Event::Executed(false));
    assert_eq!(run.phase, Phase::ListDirectory);
    migrate(&mut run, Event::VersionRead(Some("9".to_string())));
    assert_eq!(run.phase, Phase::ListDirectory);
    assert_eq!(run.start, 0);
}

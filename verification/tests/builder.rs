use mines::builder::{
    archive_file_name, build_message, check_build_statistics, classify_input, Code, Environment,
    FileOutcome, Format, SkipReason, Statistics,
};
use mines::editor::modes::EditorMode;

#[test]
fn statistics_start_at_zero() {
    let stats = Statistics::default();
    assert_eq!(stats.skipped, 0);
    assert_eq!(stats.failed, 0);
    assert_eq!(stats.succeeded, 0);
}

#[test]
fn record_counts_each_outcome() {
    let mut stats = Statistics::default();
    stats.record(FileOutcome::Built);
    stats.record(FileOutcome::Built);
    stats.record(FileOutcome::Failed);
    stats.record(FileOutcome::Skipped);
    stats.record(FileOutcome::Skipped);
    stats.record(FileOutcome::Skipped);
    assert_eq!(stats, Statistics { skipped: 3, failed: 1, succeeded: 2 });
}

#[test]
fn build_statistics_need_one_success() {
    assert!(!check_build_statistics(&Statistics { skipped: 4, failed: 2, succeeded: 0 }));
    assert!(check_build_statistics(&Statistics { skipped: 0, failed: 7, succeeded: 1 }));
    assert!(check_build_statistics(&Statistics { skipped: 0, failed: 0, succeeded: 12 }));
}

#[test]
fn build_messages() {
    assert_eq!(
        build_message(&Statistics { skipped: 0, failed: 0, succeeded: 3 }),
        "build succeeded"
    );
    assert_eq!(
        build_message(&Statistics { skipped: 1, failed: 2, succeeded: 3 }),
        "build succeeded with failures"
    );
    assert_eq!(
        build_message(&Statistics { skipped: 5, failed: 2, succeeded: 0 }),
        "build failed (no output)"
    );
}

#[test]
fn exit_codes() {
    assert_eq!(Code::Success.exit_status(), 0);
    assert_eq!(Code::BuildError.exit_status(), 1);
    assert_eq!(Code::NoOutput.exit_status(), 2);
    assert_eq!(Code::WriteError.exit_status(), 3);
    assert!(!Code::Success.is_error());
    assert!(Code::NoOutput.is_error());
}

#[test]
fn archive_names() {
    assert_eq!(
        archive_file_name("worldgen", Environment::Production, Format::Cbor),
        "worldgen.production.cbor"
    );
    assert_eq!(
        archive_file_name("worldgen", Environment::Staging, Format::Ron),
        "worldgen.staging.ron"
    );
    assert_eq!(
        archive_file_name("test", Environment::Development, Format::Cbor),
        "test.development.cbor"
    );
}

#[test]
fn classify_skips_directories_first() {
    assert_eq!(
        classify_input(true, Some("a.room.ron"), "dir/a.room.ron"),
        Err(SkipReason::Directory)
    );
}

#[test]
fn classify_skips_unreadable_names() {
    assert_eq!(classify_input(false, None, "dir/x.room.ron"), Err(SkipReason::InvalidFilename));
}

#[test]
fn classify_skips_hidden_files() {
    assert_eq!(
        classify_input(false, Some(".a.room.ron"), "dir/.a.room.ron"),
        Err(SkipReason::Hidden)
    );
}

#[test]
fn classify_skips_other_files() {
    assert_eq!(
        classify_input(false, Some("notes.txt"), "dir/notes.txt"),
        Err(SkipReason::NotEditorFile)
    );
    assert_eq!(
        classify_input(false, Some("a.cave.ron"), "dir/a.cave.ron"),
        Err(SkipReason::NotEditorFile)
    );
}

#[test]
fn classify_keeps_editor_files() {
    assert_eq!(
        classify_input(false, Some("a.room.ron"), "assets/worldgen/a.room.ron"),
        Ok(EditorMode::Rooms)
    );
    assert_eq!(
        classify_input(false, Some("b.tunnel.ron"), "assets/worldgen/b.tunnel.ron"),
        Ok(EditorMode::Tunnels)
    );
}

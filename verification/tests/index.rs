//! The index: record lines, sharded file paths, mutation materialization
//! and the commit-push-retry protocol.

use cargo_registry::git::{index_file, Crate, Dependency, DependencyKind, IndexSync, Mutation, SyncStatus};
use cargo_registry::index_format::{
    add_line, emit_crate_line, parse_crate_line, set_yanked_lines, IndexError,
};

fn sample_dep() -> Dependency {
    Dependency {
        name: String::from("serde"),
        req: String::from("^1.0"),
        features: vec![String::from("derive")],
        optional: false,
        default_features: true,
        target: None,
        kind: Some(DependencyKind::Normal),
        package: None,
    }
}

fn sample_crate(yanked: Option<bool>) -> Crate {
    Crate {
        name: String::from("foo"),
        vers: String::from("1.0.0"),
        deps: vec![sample_dep()],
        cksum: String::from("00ab"),
        features: vec![(String::from("std"), vec![String::from("serde/std")])],
        yanked,
        links: None,
    }
}

#[test]
fn index_file_sharding() {
    assert_eq!(index_file("a"), "1/a");
    assert_eq!(index_file("ab"), "2/ab");
    assert_eq!(index_file("abc"), "3/a/abc");
    assert_eq!(index_file("abcd"), "ab/cd/abcd");
    assert_eq!(index_file("serde_json"), "se/rd/serde_json");
    // The path is case-folded.
    assert_eq!(index_file("Inflector"), "in/fl/inflector");
}

#[test]
fn emitted_line_is_the_expected_json() {
    let line = emit_crate_line(&sample_crate(Some(false))).unwrap();
    let mut expected = String::from("{\"name\":\"foo\",\"vers\":\"1.0.0\",\"deps\":[");
    expected.push_str("{\"name\":\"serde\",\"req\":\"^1.0\",\"features\":[\"derive\"],");
    expected.push_str("\"optional\":false,\"default_features\":true,\"target\":null,");
    expected.push_str("\"kind\":\"normal\"}],\"cksum\":\"00ab\",");
    expected.push_str("\"features\":{\"std\":[\"serde/std\"]},\"yanked\":false,\"links\":null}");
    assert_eq!(line, expected);
}

#[test]
fn emit_rejects_fields_that_would_need_escaping() {
    let mut c = sample_crate(None);
    c.name = String::from("fo\"o");
    assert_eq!(emit_crate_line(&c).unwrap_err(), IndexError::InvalidRecord);
}

#[test]
fn parse_round_trips_emitted_lines() {
    let mut c = sample_crate(Some(true));
    c.links = Some(String::from("git2"));
    c.deps[0].package = Some(String::from("serde_core"));
    c.deps[0].target = Some(String::from("cfg(windows)"));
    let line = emit_crate_line(&c).unwrap();
    let parsed = parse_crate_line(&line).unwrap();
    let reemitted = emit_crate_line(&parsed).unwrap();
    assert_eq!(line, reemitted);
    assert_eq!(parsed.name, "foo");
    assert_eq!(parsed.vers, "1.0.0");
    assert_eq!(parsed.yanked, Some(true));
    assert_eq!(parsed.links.as_deref(), Some("git2"));
    assert_eq!(parsed.deps[0].package.as_deref(), Some("serde_core"));
}

#[test]
fn add_line_appends_one_record() {
    let first = add_line("", &sample_crate(Some(false))).unwrap();
    let mut second_crate = sample_crate(Some(false));
    second_crate.vers = String::from("1.1.0");
    let both = add_line(&first, &second_crate).unwrap();
    let lines: Vec<&str> = both.lines().collect();
    assert_eq!(lines.len(), 2);
    assert!(lines[0].contains("\"vers\":\"1.0.0\""));
    assert!(lines[1].contains("\"vers\":\"1.1.0\""));
    assert!(both.starts_with(&first));
}

#[test]
fn yank_then_unyank_restores_the_file_byte_for_byte() {
    let mut file = add_line("", &sample_crate(Some(false))).unwrap();
    let mut second_crate = sample_crate(Some(false));
    second_crate.vers = String::from("1.1.0");
    file = add_line(&file, &second_crate).unwrap();

    let yanked = set_yanked_lines(&file, "foo", "1.0.0", true).unwrap();
    assert_ne!(yanked, file);
    assert!(yanked.contains("\"yanked\":true"));
    // The other version's line is untouched.
    assert!(yanked.lines().nth(1).unwrap().contains("\"yanked\":false"));

    let restored = set_yanked_lines(&yanked, "foo", "1.0.0", false).unwrap();
    assert_eq!(restored, file);
}

#[test]
fn set_yanked_rejects_corrupt_files() {
    assert_eq!(
        set_yanked_lines("not json\n", "foo", "1.0.0", true).unwrap_err(),
        IndexError::CorruptFile
    );
    // A file without a trailing newline is not a rendering of records.
    let file = add_line("", &sample_crate(Some(false))).unwrap();
    let truncated = &file[..file.len() - 1];
    assert_eq!(
        set_yanked_lines(truncated, "foo", "1.0.0", true).unwrap_err(),
        IndexError::CorruptFile
    );
}

#[test]
fn concurrent_adds_converge_within_the_attempt_bound() {
    // Two writers race on one package file. Writer B wins the first push;
    // writer A's push is rejected, A re-derives against B's contents and
    // pushes again.
    let entry_a = sample_crate(Some(false));
    let mut entry_b = sample_crate(Some(false));
    entry_b.vers = String::from("2.0.0");

    let base = String::new();
    let mut sync_a = IndexSync::new(Mutation::AddEntry(entry_a));
    let (contents_a, msg_a) = sync_a.materialize(Some(&base)).unwrap();
    assert_eq!(msg_a, "Updating crate `foo#1.0.0`");

    // B committed and pushed first: the remote now holds B's line.
    let sync_b = IndexSync::new(Mutation::AddEntry(entry_b));
    let (contents_b, _) = sync_b.materialize(Some(&base)).unwrap();

    // A's push of `contents_a` is rejected; A fetches, resets, retries.
    assert_eq!(sync_a.record_push(false), SyncStatus::Retry);
    let (contents_a2, _) = sync_a.materialize(Some(&contents_b)).unwrap();
    assert_eq!(sync_a.record_push(true), SyncStatus::Done);

    // Both entries are in the final file, nothing was lost.
    assert!(contents_a2.starts_with(&contents_b));
    let lines: Vec<&str> = contents_a2.lines().collect();
    assert_eq!(lines.len(), 2);
    assert!(lines[0].contains("\"vers\":\"2.0.0\""));
    assert!(lines[1].contains("\"vers\":\"1.0.0\""));
}

#[test]
fn sync_gives_up_after_the_attempt_bound() {
    let mut sync = IndexSync::new(Mutation::SetYanked(
        String::from("foo"),
        String::from("1.0.0"),
        true,
    ));
    let file = add_line("", &sample_crate(Some(false))).unwrap();
    let mut status = SyncStatus::Retry;
    let mut attempts = 0;
    while status == SyncStatus::Retry {
        let (_, msg) = sync.materialize(Some(&file)).unwrap();
        assert_eq!(msg, "Yanking crate `foo#1.0.0`");
        status = sync.record_push(false);
        attempts += 1;
    }
    assert_eq!(status, SyncStatus::Conflict);
    assert_eq!(attempts, 20);
}

#[test]
fn set_yanked_mutation_needs_an_existing_file() {
    let sync = IndexSync::new(Mutation::SetYanked(
        String::from("foo"),
        String::from("1.0.0"),
        false,
    ));
    assert!(sync.materialize(None).is_err());
    let file = add_line("", &sample_crate(Some(true))).unwrap();
    let (contents, msg) = sync.materialize(Some(&file)).unwrap();
    assert_eq!(msg, "Unyanking crate `foo#1.0.0`");
    assert!(contents.contains("\"yanked\":false"));
}

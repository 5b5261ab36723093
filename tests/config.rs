use rvpacker_txt::config::{resolve_settings, starting_hashes, DuplicateMode, Metadata, Operation, ReadMode, Settings};

fn cli() -> Settings {
    Settings { romanize: true, trim: false, disable_custom_processing: true, duplicate_mode: DuplicateMode::Remove }
}

fn record() -> Metadata {
    Metadata {
        romanize: false,
        disable_custom_processing: false,
        trim: true,
        duplicate_mode: DuplicateMode::Allow,
        hashes: Some(vec![7, 1 << 100]),
    }
}

fn recorded_settings() -> Settings {
    Settings { romanize: false, trim: true, disable_custom_processing: false, duplicate_mode: DuplicateMode::Allow }
}

#[test]
fn append_follows_record_for_any_cli() {
    let m = record();
    for bits in 0u8..16 {
        let c = Settings {
            romanize: bits & 1 != 0,
            trim: bits & 2 != 0,
            disable_custom_processing: bits & 4 != 0,
            duplicate_mode: if bits & 8 != 0 { DuplicateMode::Allow } else { DuplicateMode::Remove },
        };
        for mode in [ReadMode::Append, ReadMode::ForceAppend] {
            assert_eq!(resolve_settings(c, Some(&m), Operation::Read(mode)), recorded_settings());
        }
    }
}

#[test]
fn plain_read_takes_cli() {
    let m = record();
    assert_eq!(resolve_settings(cli(), Some(&m), Operation::Read(ReadMode::Default)), cli());
    assert_eq!(resolve_settings(cli(), Some(&m), Operation::Read(ReadMode::Force)), cli());
}

#[test]
fn write_and_purge_follow_record() {
    let m = record();
    assert_eq!(resolve_settings(cli(), Some(&m), Operation::Write), recorded_settings());
    assert_eq!(resolve_settings(cli(), Some(&m), Operation::Purge), recorded_settings());
}

#[test]
fn no_record_takes_cli() {
    assert_eq!(resolve_settings(cli(), None, Operation::Write), cli());
    assert_eq!(resolve_settings(cli(), None, Operation::Read(ReadMode::Append)), cli());
}

#[test]
fn hashes_carried_in_append_only() {
    let m = record();
    assert_eq!(starting_hashes(Some(&m), ReadMode::Append), vec![7, 1 << 100]);
    assert_eq!(starting_hashes(Some(&m), ReadMode::Default), Vec::<u128>::new());
    assert_eq!(starting_hashes(None, ReadMode::Append), Vec::<u128>::new());
    let bare = Metadata { hashes: None, ..record() };
    assert_eq!(starting_hashes(Some(&bare), ReadMode::ForceAppend), Vec::<u128>::new());
}

#[test]
fn read_mode_predicates() {
    assert!(ReadMode::Append.is_append());
    assert!(ReadMode::ForceAppend.is_append());
    assert!(!ReadMode::Force.is_append());
    assert!(ReadMode::Force.is_force());
    assert!(!ReadMode::ForceAppend.is_force());
}

#[test]
fn record_after_read_keeps_settings() {
    let m = Metadata::after_read(recorded_settings(), vec![3, 4]);
    assert_eq!(m.settings(), recorded_settings());
    assert_eq!(m.hashes, Some(vec![3, 4]));
}

#[test]
fn incremental_read_round_trip() {
    let m = record();
    let s = resolve_settings(cli(), Some(&m), Operation::Read(ReadMode::Append));
    let h = starting_hashes(Some(&m), ReadMode::Append);
    let again = Metadata::after_read(s, h);
    assert_eq!(again.settings(), m.settings());
    assert_eq!(again.hashes, m.hashes);
}

use rvpacker_txt::config::{DuplicateMode, Metadata, ReadMode, Settings};
use rvpacker_txt::ranges::{FFlags, SkipEvents, SkipMaps};
use rvpacker_txt::run::{
    is_confirmed, json_generate_force, needs_confirmation, plan_purge, plan_read, plan_write,
    record_after_read, should_unpack, JsonSubcommand, PurgeArgs, ReadArgs, RunError, SharedArgs,
};
use rvpacker_txt::title::GameType;

fn shared(mode: ReadMode) -> SharedArgs {
    SharedArgs {
        read_mode: mode,
        trim: false,
        romanize: false,
        disable_custom_processing: false,
        skip_files: FFlags(1 << 11),
        skip_maps: SkipMaps(vec![3, 4]),
        skip_events: SkipEvents(vec![("Actors".to_string(), vec![1])]),
        map_events: true,
        duplicate_mode: DuplicateMode::Remove,
    }
}

fn record() -> Metadata {
    Metadata {
        romanize: true,
        disable_custom_processing: true,
        trim: true,
        duplicate_mode: DuplicateMode::Allow,
        hashes: Some(vec![11, 12]),
    }
}

#[test]
fn first_read_uses_cli_and_classifies_title() {
    let args = ReadArgs { silent: false, ignore: false, shared: shared(ReadMode::Default) };
    let job = plan_read(args, "My Termina Game", None, false).unwrap();
    assert_eq!(job.game_type, GameType::Termina);
    assert!(!job.settings.disable_custom_processing);
    assert_eq!(job.skip_maps, vec![3, 4]);
    assert_eq!(job.skip_files, 1 << 11);
    assert!(job.map_events);
    assert!(job.hashes.is_empty());
    let m = record_after_read(&job, vec![5]);
    assert!(!m.disable_custom_processing);
    assert_eq!(m.hashes, Some(vec![5]));
}

#[test]
fn append_read_follows_record() {
    let args = ReadArgs { silent: true, ignore: true, shared: shared(ReadMode::Append) };
    let m = record();
    let job = plan_read(args, "My Termina Game", Some(&m), true).unwrap();
    assert_eq!(
        job.settings,
        Settings { romanize: true, trim: true, disable_custom_processing: true, duplicate_mode: DuplicateMode::Allow }
    );
    assert_eq!(job.game_type, GameType::Generic);
    assert_eq!(job.hashes, vec![11, 12]);
    assert!(job.ignore);
}

#[test]
fn append_ignore_needs_ignore_file() {
    let args = ReadArgs { silent: false, ignore: true, shared: shared(ReadMode::ForceAppend) };
    let e = plan_read(args, "t", None, false).unwrap_err();
    assert_eq!(e, RunError::IgnoreFileMissing);
    assert!(e.message().contains(".rvpacker-ignore"));
    let args = ReadArgs { silent: false, ignore: true, shared: shared(ReadMode::Default) };
    assert!(plan_read(args, "t", None, false).is_ok());
}

#[test]
fn confirmation_only_for_loud_force() {
    assert!(needs_confirmation(ReadMode::Force, false));
    assert!(!needs_confirmation(ReadMode::Force, true));
    assert!(!needs_confirmation(ReadMode::ForceAppend, false));
    assert!(!needs_confirmation(ReadMode::Default, false));
}

#[test]
fn confirmation_token() {
    assert!(is_confirmed("Y\n"));
    assert!(is_confirmed("Y \r\n"));
    assert!(is_confirmed("Y"));
    assert!(!is_confirmed("y\n"));
    assert!(!is_confirmed(" Y\n"));
    assert!(!is_confirmed("Yes\n"));
    assert!(!is_confirmed(""));
}

#[test]
fn unpack_once() {
    assert!(should_unpack(true, false));
    assert!(!should_unpack(true, true));
    assert!(!should_unpack(false, false));
}

#[test]
fn write_needs_translation() {
    assert_eq!(plan_write(shared(ReadMode::Default), false, "t", None).unwrap_err(), RunError::TranslationMissing);
    let m = record();
    let job = plan_write(shared(ReadMode::Default), true, "LISA", Some(&m)).unwrap();
    assert!(job.settings.romanize);
    assert_eq!(job.game_type, GameType::Generic);
    assert!(!job.map_events);
}

#[test]
fn purge_passes_create_ignore() {
    let args = PurgeArgs { create_ignore: true, shared: shared(ReadMode::Default) };
    let job = plan_purge(args, true, "Lisa the Joyful", None).unwrap();
    assert!(job.create_ignore);
    assert_eq!(job.game_type, GameType::LisaRPG);
    let args = PurgeArgs { create_ignore: true, shared: shared(ReadMode::Default) };
    assert_eq!(plan_purge(args, false, "x", None).unwrap_err(), RunError::TranslationMissing);
}

#[test]
fn json_generate_force_flag() {
    assert_eq!(json_generate_force(JsonSubcommand::Generate { read_mode: ReadMode::Force }), Some(true));
    assert_eq!(json_generate_force(JsonSubcommand::Generate { read_mode: ReadMode::Append }), Some(false));
    assert_eq!(json_generate_force(JsonSubcommand::Write), None);
}

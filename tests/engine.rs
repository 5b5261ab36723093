use rvpacker_txt::layout::{check_roots, choose_engine, choose_source_dir, source_dir_name, Engine, SetupError};
use rvpacker_txt::title::{classify_lowered, get_game_type, ini_title, GameType};

#[test]
fn vxace_descriptor_beats_xp_archive() {
    let system = [false, true, false, false];
    let archive = [false, false, false, true];
    assert_eq!(choose_engine(&system, &archive), Ok(Engine::VXAce));
}

#[test]
fn json_engine_first() {
    assert_eq!(choose_engine(&[true, true, true, true], &[true, true, true, true]), Ok(Engine::New));
}

#[test]
fn archive_alone_selects_engine() {
    assert_eq!(choose_engine(&[false; 4], &[false, false, true, false]), Ok(Engine::VX));
    assert_eq!(choose_engine(&[false; 4], &[true, false, false, false]), Err(SetupError::EngineUndetermined));
}

#[test]
fn no_engine_found() {
    let e = choose_engine(&[false; 4], &[false; 4]).unwrap_err();
    assert_eq!(e, SetupError::EngineUndetermined);
    assert!(e.message().contains("determine game engine"));
}

#[test]
fn source_dir_order() {
    assert_eq!(choose_source_dir(&[false, true, true]), Ok(1));
    assert_eq!(source_dir_name(1), "data");
    assert_eq!(choose_source_dir(&[true, true, true]), Ok(0));
    assert_eq!(source_dir_name(0), "original");
    assert_eq!(choose_source_dir(&[false, false, false]), Err(SetupError::DirectoryNotFound));
}

#[test]
fn roots_must_exist() {
    assert_eq!(check_roots(false, true), Err(SetupError::InputMissing));
    assert_eq!(check_roots(true, false), Err(SetupError::OutputMissing));
    assert_eq!(check_roots(true, true), Ok(()));
}

#[test]
fn engine_file_names() {
    assert_eq!(Engine::New.system_file_name(), "System.json");
    assert_eq!(Engine::New.archive_file_name(), None);
    assert_eq!(Engine::VXAce.archive_file_name(), Some("Game.rgss3a"));
    assert_eq!(Engine::XP.system_file_name(), "System.rxdata");
    assert_eq!(Engine::XP.archive_file_name(), Some("Game.rgssad"));
}

#[test]
fn termina_title() {
    assert_eq!(get_game_type("My Termina Game", false), GameType::Termina);
}

#[test]
fn title_is_lowercased_before_matching() {
    assert_eq!(get_game_type("FEAR & HUNGER 2: TERMINA", false), GameType::Termina);
    assert_eq!(get_game_type("LISA: The Painful", false), GameType::LisaRPG);
}

#[test]
fn disabled_profile_is_generic() {
    assert_eq!(get_game_type("My Termina Game", true), GameType::Generic);
    assert_eq!(get_game_type("Some Other Game", false), GameType::Generic);
}

#[test]
fn termina_checked_before_lisa() {
    assert_eq!(classify_lowered("lisa in termina", false), GameType::Termina);
    assert_eq!(classify_lowered("Termina", false), GameType::Generic);
}

#[test]
fn ini_title_decodes_lossily() {
    assert_eq!(ini_title(&b"Game".to_vec()), "Game");
    assert_eq!(ini_title(&vec![0x41, 0xff, 0x42]), "A\u{fffd}B");
}

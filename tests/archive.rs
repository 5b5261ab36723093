use rpgmad_lib::{ArchiveEntry, Decrypter, Engine};
use rvpacker_txt::archive::unpack_archive;

fn pack(entries: &[ArchiveEntry], engine: Engine) -> Vec<u8> {
    let size = Decrypter::encrypted_buffer_size(entries, engine);
    let mut buf = vec![0u8; size];
    Decrypter::new().encrypt(entries, engine, &mut buf).unwrap();
    buf
}

#[test]
fn archive_round_trip_older_engine() {
    let entries = [
        ArchiveEntry { path: b"Data\\System.rxdata", data: b"sys" },
        ArchiveEntry { path: b"Graphics/a.png", data: &[1, 2, 3, 4, 5] },
    ];
    let out = unpack_archive(pack(&entries, Engine::Older)).unwrap();
    assert_eq!(out.len(), 2);
    assert_eq!(out[0].0, "Data\\System.rxdata");
    assert_eq!(out[0].1, b"sys".to_vec());
    assert_eq!(out[1].0, "Graphics/a.png");
    assert_eq!(out[1].1, vec![1, 2, 3, 4, 5]);
}

#[test]
fn archive_round_trip_vxace() {
    let entries = [ArchiveEntry { path: b"Data/System.rvdata2", data: b"abcdef" }];
    let out = unpack_archive(pack(&entries, Engine::VXAce)).unwrap();
    assert_eq!(out, vec![("Data/System.rvdata2".to_string(), b"abcdef".to_vec())]);
}

#[test]
fn archive_rejects_bad_header() {
    assert!(unpack_archive(vec![1, 2, 3]).is_err());
    assert!(unpack_archive(b"RGSSAD\0\x05rest".to_vec()).is_err());
    assert!(unpack_archive(b"NOTRGSS\x01rest".to_vec()).is_err());
}

use rvpacker_txt::asset::{
    decrypt_asset, encrypt_asset, key_from_image, key_from_system, parse_key, resolve_key,
    single_target, target_ext, target_file_name, AssetError, Direction, Ext, Variant,
};

const KEY_HEX: &str = "00112233445566778899aabbccddeeff";

fn key() -> Vec<u8> {
    (0u8..16).map(|i| i * 0x11).collect()
}

#[test]
fn decrypt_names() {
    assert_eq!(target_file_name(Direction::Decrypt, Variant::Mv, "foo.rpgmvp").as_deref(), Some("foo.png"));
    assert_eq!(target_file_name(Direction::Decrypt, Variant::Mz, "a.b.ogg_").as_deref(), Some("a.b.ogg"));
    assert_eq!(target_file_name(Direction::Decrypt, Variant::Mv, "x.rpgmvm").as_deref(), Some("x.m4a"));
    assert_eq!(target_file_name(Direction::Decrypt, Variant::Mv, "foo.png"), None);
}

#[test]
fn encrypt_names_per_variant() {
    assert_eq!(target_file_name(Direction::Encrypt, Variant::Mz, "foo.png").as_deref(), Some("foo.png_"));
    assert_eq!(target_file_name(Direction::Encrypt, Variant::Mv, "foo.png").as_deref(), Some("foo.rpgmvp"));
    assert_eq!(target_file_name(Direction::Encrypt, Variant::Mv, "s.ogg").as_deref(), Some("s.rpgmvo"));
    assert_eq!(target_file_name(Direction::Encrypt, Variant::Mz, "s.m4a").as_deref(), Some("s.m4a_"));
    assert_eq!(target_file_name(Direction::Encrypt, Variant::Mz, "noext"), None);
    assert_eq!(target_file_name(Direction::Encrypt, Variant::Mz, "foo.txt"), None);
}

#[test]
fn single_file_needs_known_extension() {
    assert_eq!(single_target(Direction::Encrypt, Variant::Mv, "a.jpg"), Err(AssetError::UnsupportedExtension));
    assert_eq!(single_target(Direction::Decrypt, Variant::Mv, "a.png_").unwrap(), "a.png");
}

#[test]
fn remap_table() {
    for e in [Ext::Png, Ext::Ogg, Ext::M4a] {
        let a = target_ext(Direction::Encrypt, Variant::Mv, e).unwrap();
        let b = target_ext(Direction::Encrypt, Variant::Mz, e).unwrap();
        assert_ne!(a, b);
        assert_eq!(target_ext(Direction::Decrypt, Variant::Mv, a), Some(e));
        assert_eq!(target_ext(Direction::Decrypt, Variant::Mz, b), Some(e));
        assert_eq!(target_ext(Direction::Decrypt, Variant::Mv, e), None);
    }
    assert_eq!(Ext::parse("png_"), Some(Ext::PngU));
    assert_eq!(Ext::parse("PNG"), None);
    assert_eq!(Ext::M4aU.name(), "m4a_");
}

#[test]
fn key_parsing() {
    assert_eq!(parse_key(KEY_HEX).unwrap(), key());
    assert_eq!(parse_key("00112233445566778899AABBCCDDEEFF").unwrap(), key());
    assert_eq!(parse_key("0011"), Err(AssetError::InvalidKey));
    assert_eq!(parse_key("zz112233445566778899aabbccddeeff"), Err(AssetError::InvalidKey));
}

#[test]
fn key_resolution() {
    assert_eq!(resolve_key(Direction::Decrypt, None), Err(AssetError::MissingKey));
    let d = resolve_key(Direction::Encrypt, None).unwrap();
    assert_eq!(d.len(), 16);
    assert_eq!(d[0], 0xd4);
    assert_eq!(d[15], 0x7e);
    assert_eq!(resolve_key(Direction::Decrypt, Some(KEY_HEX)).unwrap(), key());
}

#[test]
fn encrypt_then_decrypt() {
    let data: Vec<u8> = (0u8..40).collect();
    let k = key();
    let enc = encrypt_asset(&data, &k);
    assert_eq!(enc.len(), data.len() + 16);
    assert_eq!(&enc[..5], b"RPGMV");
    assert_eq!(enc[16], data[0] ^ k[0]);
    assert_eq!(enc[16 + 20], data[20]);
    let dec = decrypt_asset(&enc, &k).unwrap();
    assert_eq!(dec.len(), enc.len() - 16);
    assert_eq!(dec, data);
}

#[test]
fn decrypt_short_input() {
    assert_eq!(decrypt_asset(&[1, 2, 3], &key()), Err(AssetError::TooShort));
    assert_eq!(decrypt_asset(&[0; 16], &key()).unwrap(), Vec::<u8>::new());
}

#[test]
fn key_recovered_from_encrypted_png() {
    let mut png = vec![0x89, 0x50, 0x4e, 0x47, 0x0d, 0x0a, 0x1a, 0x0a, 0, 0, 0, 0x0d, 0x49, 0x48, 0x44, 0x52];
    png.extend_from_slice(&[9, 9, 9]);
    let enc = encrypt_asset(&png, &key());
    assert_eq!(key_from_image(&enc).unwrap(), key());
    assert_eq!(key_from_image(&enc[..20]), Err(AssetError::TooShort));
}

#[test]
fn key_from_system_text() {
    let text = "{\"hasEncryptedImages\":true,\"encryptionKey\": \"00112233445566778899aabbccddeeff\",\"x\":1}";
    assert_eq!(key_from_system(text).unwrap(), key());
    assert_eq!(key_from_system("{\"gameTitle\":\"x\"}"), Err(AssetError::NoKeyInSystem));
    assert_eq!(key_from_system("{\"encryptionKey\":\"0011\"}"), Err(AssetError::NoKeyInSystem));
    assert_eq!(key_from_system("{\"encryptionKey\":\"zz112233445566778899aabbccddeeff\"}"), Err(AssetError::InvalidKey));
}

#[test]
fn decrypt_and_default_key_encrypt_scenario() {
    let name = single_target(Direction::Decrypt, Variant::Mv, "foo.rpgmvp").unwrap();
    assert_eq!(name, "foo.png");
    let body: Vec<u8> = (0u8..50).collect();
    let enc = encrypt_asset(&body, &key());
    let dec = decrypt_asset(&enc, &key()).unwrap();
    assert_eq!(dec.len(), enc.len() - 16);

    let default_key = resolve_key(Direction::Encrypt, None).unwrap();
    let target = single_target(Direction::Encrypt, Variant::Mz, "foo.png").unwrap();
    assert_eq!(target, "foo.png_");
    let enc = encrypt_asset(&body, &default_key);
    assert_eq!(enc.len(), body.len() + 16);
    assert_eq!(decrypt_asset(&enc, &default_key).unwrap(), body);
}

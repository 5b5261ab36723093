//! Packaged media: which extension a file takes when encrypted or decrypted,
//! where the key comes from, and the header transform itself.
use vstd::prelude::*;
use crate::text::{
    contains, find_char, find_str, first_index, is_first_occurrence, is_whitespace, str_eq,
    trim_start,
};

verus! {

/// Bytes in a key.
pub const KEY_LENGTH: usize = 16;

/// Bytes in the signature that starts an encrypted file.
pub const HEADER_LENGTH: usize = 16;

/// The media extensions handled, plain and encrypted.
#[derive(Clone, Copy, Debug, PartialEq, Eq, Structural)]
pub enum Ext {
    Png,
    Ogg,
    M4a,
    Rpgmvp,
    Rpgmvo,
    Rpgmvm,
    PngU,
    OggU,
    M4aU,
}

pub open spec fn ext_name(e: Ext) -> Seq<char> {
    match e {
        Ext::Png => "png"@,
        Ext::Ogg => "ogg"@,
        Ext::M4a => "m4a"@,
        Ext::Rpgmvp => "rpgmvp"@,
        Ext::Rpgmvo => "rpgmvo"@,
        Ext::Rpgmvm => "rpgmvm"@,
        Ext::PngU => "png_"@,
        Ext::OggU => "ogg_"@,
        Ext::M4aU => "m4a_"@,
    }
}

/// The extension that the text `s` names, checked in declaration order.
pub open spec fn ext_of(s: Seq<char>) -> Option<Ext> {
    if s == ext_name(Ext::Png) {
        Some(Ext::Png)
    } else if s == ext_name(Ext::Ogg) {
        Some(Ext::Ogg)
    } else if s == ext_name(Ext::M4a) {
        Some(Ext::M4a)
    } else if s == ext_name(Ext::Rpgmvp) {
        Some(Ext::Rpgmvp)
    } else if s == ext_name(Ext::Rpgmvo) {
        Some(Ext::Rpgmvo)
    } else if s == ext_name(Ext::Rpgmvm) {
        Some(Ext::Rpgmvm)
    } else if s == ext_name(Ext::PngU) {
        Some(Ext::PngU)
    } else if s == ext_name(Ext::OggU) {
        Some(Ext::OggU)
    } else if s == ext_name(Ext::M4aU) {
        Some(Ext::M4aU)
    } else {
        None
    }
}

impl Ext {
    pub fn name(&self) -> (r: &'static str)
        ensures
            r@ == ext_name(*self),
    {
        match self {
            Ext::Png => "png",
            Ext::Ogg => "ogg",
            Ext::M4a => "m4a",
            Ext::Rpgmvp => "rpgmvp",
            Ext::Rpgmvo => "rpgmvo",
            Ext::Rpgmvm => "rpgmvm",
            Ext::PngU => "png_",
            Ext::OggU => "ogg_",
            Ext::M4aU => "m4a_",
        }
    }

    pub fn parse(s: &str) -> (r: Option<Ext>)
        ensures
            r == ext_of(s@),
    {
        if str_eq(s, Ext::Png.name()) {
            Some(Ext::Png)
        } else if str_eq(s, Ext::Ogg.name()) {
            Some(Ext::Ogg)
        } else if str_eq(s, Ext::M4a.name()) {
            Some(Ext::M4a)
        } else if str_eq(s, Ext::Rpgmvp.name()) {
            Some(Ext::Rpgmvp)
        } else if str_eq(s, Ext::Rpgmvo.name()) {
            Some(Ext::Rpgmvo)
        } else if str_eq(s, Ext::Rpgmvm.name()) {
            Some(Ext::Rpgmvm)
        } else if str_eq(s, Ext::PngU.name()) {
            Some(Ext::PngU)
        } else if str_eq(s, Ext::OggU.name()) {
            Some(Ext::OggU)
        } else if str_eq(s, Ext::M4aU.name()) {
            Some(Ext::M4aU)
        } else {
            None
        }
    }
}

/// An unencrypted media extension.
pub open spec fn is_plain(e: Ext) -> bool {
    e == Ext::Png || e == Ext::Ogg || e == Ext::M4a
}

/// The engine family whose naming an encrypted file follows.
#[derive(Clone, Copy, Debug, PartialEq, Eq, Structural)]
pub enum Variant {
    /// `.rpgmvp`, `.rpgmvo`, `.rpgmvm`.
    Mv,
    /// `.png_`, `.ogg_`, `.m4a_`.
    Mz,
}

#[derive(Clone, Copy, Debug, PartialEq, Eq, Structural)]
pub enum Direction {
    Decrypt,
    Encrypt,
}

/// The extension a file of extension `e` takes; `None` for files the
/// direction does not handle.
pub open spec fn remap(dir: Direction, variant: Variant, e: Ext) -> Option<Ext> {
    match dir {
        Direction::Decrypt => match e {
            Ext::Rpgmvp | Ext::PngU => Some(Ext::Png),
            Ext::Rpgmvo | Ext::OggU => Some(Ext::Ogg),
            Ext::Rpgmvm | Ext::M4aU => Some(Ext::M4a),
            _ => None,
        },
        Direction::Encrypt => match e {
            Ext::Png => Some(
                if variant == Variant::Mv {
                    Ext::Rpgmvp
                } else {
                    Ext::PngU
                },
            ),
            Ext::Ogg => Some(
                if variant == Variant::Mv {
                    Ext::Rpgmvo
                } else {
                    Ext::OggU
                },
            ),
            Ext::M4a => Some(
                if variant == Variant::Mv {
                    Ext::Rpgmvm
                } else {
                    Ext::M4aU
                },
            ),
            _ => None,
        },
    }
}

pub fn target_ext(dir: Direction, variant: Variant, e: Ext) -> (r: Option<Ext>)
    ensures
        r == remap(dir, variant, e),
{
    match dir {
        Direction::Decrypt => match e {
            Ext::Rpgmvp | Ext::PngU => Some(Ext::Png),
            Ext::Rpgmvo | Ext::OggU => Some(Ext::Ogg),
            Ext::Rpgmvm | Ext::M4aU => Some(Ext::M4a),
            _ => None,
        },
        Direction::Encrypt => {
            let mv = match variant {
                Variant::Mv => true,
                Variant::Mz => false,
            };
            match e {
                Ext::Png => Some(
                    if mv {
                        Ext::Rpgmvp
                    } else {
                        Ext::PngU
                    },
                ),
                Ext::Ogg => Some(
                    if mv {
                        Ext::Rpgmvo
                    } else {
                        Ext::OggU
                    },
                ),
                Ext::M4a => Some(
                    if mv {
                        Ext::Rpgmvm
                    } else {
                        Ext::M4aU
                    },
                ),
                _ => None,
            }
        },
    }
}

/// The remap is total on each direction's sources, encryption never sends two
/// extensions to one, its targets are never a decryption output, and
/// decryption undoes it.
pub proof fn lemma_remap_laws(v: Variant)
    ensures
        forall|e: Ext| is_plain(e) ==> #[trigger] remap(Direction::Encrypt, v, e) is Some,
        forall|e: Ext| !is_plain(e) ==> #[trigger] remap(Direction::Decrypt, v, e) is Some,
        forall|e1: Ext, e2: Ext|
            #[trigger] remap(Direction::Encrypt, v, e1) is Some && remap(Direction::Encrypt, v, e1)
                == #[trigger] remap(Direction::Encrypt, v, e2) ==> e1 == e2,
        forall|e: Ext|
            #[trigger] remap(Direction::Decrypt, v, e) is Some ==> is_plain(
                remap(Direction::Decrypt, v, e)->0,
            ),
        forall|e: Ext|
            #[trigger] remap(Direction::Encrypt, v, e) is Some ==> !is_plain(
                remap(Direction::Encrypt, v, e)->0,
            ),
        forall|e: Ext|
            #[trigger] remap(Direction::Encrypt, v, e) is Some ==> remap(
                Direction::Decrypt,
                v,
                remap(Direction::Encrypt, v, e)->0,
            ) == Some(e),
{
}

/// `i` is the position of the last `c` in `s`.
pub open spec fn is_last(s: Seq<char>, c: char, i: int) -> bool {
    0 <= i < s.len() && s[i] == c && forall|j: int| i < j < s.len() ==> s[j] != c
}

pub open spec fn last_index(s: Seq<char>, c: char) -> int {
    if exists|i: int| is_last(s, c, i) {
        choose|i: int| is_last(s, c, i)
    } else {
        -1
    }
}

/// `str::rfind` with a `char` pattern.
pub fn rfind_char(s: &str, c: char) -> (r: Option<usize>)
    ensures
        match r {
            Some(i) => last_index(s@, c) == i as int,
            None => last_index(s@, c) == -1,
        },
{
    let n = s.unicode_len();
    let mut i: usize = n;
    while i > 0
        invariant
            n == s@.len(),
            i <= n,
            forall|j: int| i <= j < n ==> s@[j] != c,
        decreases i,
    {
        if s.get_char(i - 1) == c {
            proof {
                let k = i - 1;
                assert(is_last(s@, c, k));
                let m = last_index(s@, c);
                assert(is_last(s@, c, m));
                if m < k {
                    assert(s@[k] != c);
                } else if k < m {
                    assert(s@[m] != c);
                }
            }
            return Some(i - 1);
        }
        i = i - 1;
    }
    None
}

/// The name a file of name `name` takes, or `None` where its extension is not
/// one the direction handles.
pub open spec fn target_name(dir: Direction, v: Variant, name: Seq<char>) -> Option<Seq<char>> {
    let k = last_index(name, '.');
    if k < 0 {
        None
    } else {
        match ext_of(name.skip(k + 1)) {
            Some(e) => match remap(dir, v, e) {
                Some(t) => Some(name.take(k) + "."@ + ext_name(t)),
                None => None,
            },
            None => None,
        }
    }
}

pub fn target_file_name(dir: Direction, v: Variant, name: &str) -> (r: Option<String>)
    ensures
        match r {
            Some(s) => target_name(dir, v, name@) == Some(s@),
            None => target_name(dir, v, name@) is None,
        },
{
    let k = match rfind_char(name, '.') {
        Some(k) => k,
        None => {
            return None;
        },
    };
    let n = name.unicode_len();
    let ext_text = name.substring_char(k + 1, n);
    proof {
        assert(ext_text@ =~= name@.skip(k + 1));
    }
    let e = match Ext::parse(ext_text) {
        Some(e) => e,
        None => {
            return None;
        },
    };
    let t = match target_ext(dir, v, e) {
        Some(t) => t,
        None => {
            return None;
        },
    };
    let stem = name.substring_char(0, k);
    proof {
        assert(stem@ =~= name@.take(k as int));
    }
    let mut out = stem.to_owned();
    out.append(".");
    out.append(t.name());
    Some(out)
}

/// Why an asset operation failed.
#[derive(Clone, Copy, Debug, PartialEq, Eq, Structural)]
pub enum AssetError {
    MissingKey,
    InvalidKey,
    UnsupportedExtension,
    TooShort,
    NoKeyInSystem,
}

/// The text shown for each error.
pub open spec fn asset_error_text(e: AssetError) -> Seq<char> {
    match e {
        AssetError::MissingKey => "Decryption requires a key."@,
        AssetError::InvalidKey => "The key must be 32 hexadecimal digits."@,
        AssetError::UnsupportedExtension => "The file's extension is not one this operation handles."@,
        AssetError::TooShort => "The file is too short to hold an encrypted header."@,
        AssetError::NoKeyInSystem => "No encryption key was found in the system file."@,
    }
}

impl AssetError {
    pub fn message(&self) -> (r: &'static str)
        ensures
            r@ == asset_error_text(*self),
    {
        match self {
            AssetError::MissingKey => "Decryption requires a key.",
            AssetError::InvalidKey => "The key must be 32 hexadecimal digits.",
            AssetError::UnsupportedExtension => "The file's extension is not one this operation handles.",
            AssetError::TooShort => "The file is too short to hold an encrypted header.",
            AssetError::NoKeyInSystem => "No encryption key was found in the system file.",
        }
    }
}

/// The file name a single, explicitly named file takes; its extension must be
/// one the direction handles.
pub fn single_target(dir: Direction, v: Variant, name: &str) -> (r: Result<String, AssetError>)
    ensures
        match r {
            Ok(s) => target_name(dir, v, name@) == Some(s@),
            Err(e) => e == AssetError::UnsupportedExtension && target_name(dir, v, name@) is None,
        },
{
    match target_file_name(dir, v, name) {
        Some(s) => Ok(s),
        None => Err(AssetError::UnsupportedExtension),
    }
}

pub open spec fn hex_digit(c: char) -> Option<u8> {
    if '0' <= c <= '9' {
        Some(((c as u32) - 48) as u8)
    } else if 'a' <= c <= 'f' {
        Some(((c as u32) - 87) as u8)
    } else if 'A' <= c <= 'F' {
        Some(((c as u32) - 55) as u8)
    } else {
        None
    }
}

fn hex_digit_of(c: char) -> (r: Option<u8>)
    ensures
        r == hex_digit(c),
{
    if '0' <= c && c <= '9' {
        Some((c as u32 - 48) as u8)
    } else if 'a' <= c && c <= 'f' {
        Some((c as u32 - 87) as u8)
    } else if 'A' <= c && c <= 'F' {
        Some((c as u32 - 55) as u8)
    } else {
        None
    }
}

/// The bytes that the hexadecimal text `s` spells, two digits a byte.
pub open spec fn parse_hex(s: Seq<char>) -> Option<Seq<u8>> {
    if s.len() % 2 == 0 && forall|i: int| 0 <= i < s.len() ==> #[trigger] hex_digit(s[i]) is Some {
        Some(
            Seq::new(
                (s.len() / 2) as nat,
                |i: int| (hex_digit(s[2 * i])->0 * 16 + hex_digit(s[2 * i + 1])->0) as u8,
            ),
        )
    } else {
        None
    }
}

/// A key is 32 hexadecimal digits.
pub open spec fn key_of(s: Seq<char>) -> Option<Seq<u8>> {
    match parse_hex(s) {
        Some(k) => if k.len() == KEY_LENGTH {
            Some(k)
        } else {
            None
        },
        None => None,
    }
}

/// Reads a key given as hexadecimal text.
pub fn parse_key(s: &str) -> (r: Result<Vec<u8>, AssetError>)
    ensures
        match r {
            Ok(k) => key_of(s@) == Some(k@),
            Err(e) => e == AssetError::InvalidKey && key_of(s@) is None,
        },
{
    let n = s.unicode_len();
    if n != 2 * KEY_LENGTH {
        return Err(AssetError::InvalidKey);
    }
    let mut out: Vec<u8> = Vec::new();
    let mut i: usize = 0;
    while i < KEY_LENGTH
        invariant
            n == s@.len(),
            n == 2 * KEY_LENGTH,
            i <= KEY_LENGTH,
            out@.len() == i,
            forall|j: int| 0 <= j < 2 * i ==> #[trigger] hex_digit(s@[j]) is Some,
            forall|j: int|
                0 <= j < i ==> out@[j] == (hex_digit(s@[2 * j])->0 * 16 + hex_digit(
                    s@[2 * j + 1],
                )->0) as u8,
        decreases KEY_LENGTH - i,
    {
        let hi = match hex_digit_of(s.get_char(2 * i)) {
            Some(h) => h,
            None => {
                return Err(AssetError::InvalidKey);
            },
        };
        let lo = match hex_digit_of(s.get_char(2 * i + 1)) {
            Some(l) => l,
            None => {
                return Err(AssetError::InvalidKey);
            },
        };
        assert(hi < 16 && lo < 16);
        out.push(hi * 16 + lo);
        i = i + 1;
    }
    proof {
        assert(forall|j: int| 0 <= j < n ==> #[trigger] hex_digit(s@[j]) is Some);
        assert(out@ =~= parse_hex(s@)->0);
    }
    Ok(out)
}

/// The key used to encrypt when none is given.
pub open spec fn default_key() -> Seq<u8> {
    seq![
        0xd4u8, 0x1du8, 0x8cu8, 0xd9u8, 0x8fu8, 0x00u8, 0xb2u8, 0x04u8,
        0xe9u8, 0x80u8, 0x09u8, 0x98u8, 0xecu8, 0xf8u8, 0x42u8, 0x7eu8,
    ]
}

/// The key an operation uses: the given one; for encryption without one, the
/// default; decryption without one fails.
pub fn resolve_key(dir: Direction, key: Option<&str>) -> (r: Result<Vec<u8>, AssetError>)
    ensures
        match key {
            Some(s) => match r {
                Ok(k) => key_of(s@) == Some(k@),
                Err(e) => e == AssetError::InvalidKey && key_of(s@) is None,
            },
            None => match dir {
                Direction::Decrypt => r == Err::<Vec<u8>, AssetError>(AssetError::MissingKey),
                Direction::Encrypt => r matches Ok(k) && k@ == default_key(),
            },
        },
{
    match key {
        Some(s) => parse_key(s),
        None => match dir {
            Direction::Decrypt => Err(AssetError::MissingKey),
            Direction::Encrypt => {
                let k: Vec<u8> = vec![
                    0xd4u8, 0x1du8, 0x8cu8, 0xd9u8, 0x8fu8, 0x00u8, 0xb2u8, 0x04u8,
                    0xe9u8, 0x80u8, 0x09u8, 0x98u8, 0xecu8, 0xf8u8, 0x42u8, 0x7eu8,
                ];
                assert(k@ =~= default_key());
                Ok(k)
            },
        },
    }
}

/// The signature written before an encrypted file's content.
pub open spec fn signature() -> Seq<u8> {
    seq![
        0x52u8, 0x50u8, 0x47u8, 0x4du8, 0x56u8, 0x00u8, 0x00u8, 0x00u8,
        0x00u8, 0x03u8, 0x01u8, 0x00u8, 0x00u8, 0x00u8, 0x00u8, 0x00u8,
    ]
}

/// The first sixteen bytes of every PNG file.
pub open spec fn png_head() -> Seq<u8> {
    seq![
        0x89u8, 0x50u8, 0x4eu8, 0x47u8, 0x0du8, 0x0au8, 0x1au8, 0x0au8,
        0x00u8, 0x00u8, 0x00u8, 0x0du8, 0x49u8, 0x48u8, 0x44u8, 0x52u8,
    ]
}

/// `data` with its first `KEY_LENGTH` bytes XORed with the key's.
pub open spec fn xor_head(data: Seq<u8>, key: Seq<u8>) -> Seq<u8> {
    Seq::new(
        data.len(),
        |i: int|
            if i < KEY_LENGTH {
                data[i] ^ key[i]
            } else {
                data[i]
            },
    )
}

fn xor_head_of(data: &[u8], key: &[u8]) -> (r: Vec<u8>)
    requires
        key@.len() == KEY_LENGTH,
    ensures
        r@ == xor_head(data@, key@),
{
    let mut out: Vec<u8> = Vec::new();
    let mut i: usize = 0;
    while i < data.len()
        invariant
            key@.len() == KEY_LENGTH,
            i <= data@.len(),
            out@ =~= xor_head(data@, key@).take(i as int),
        decreases data.len() - i,
    {
        if i < KEY_LENGTH {
            out.push(data[i] ^ key[i]);
        } else {
            out.push(data[i]);
        }
        i = i + 1;
    }
    assert(xor_head(data@, key@).take(data@.len() as int) =~= xor_head(data@, key@));
    out
}

/// Strips the signature and undoes the XOR over the first bytes; the result
/// is `HEADER_LENGTH` bytes shorter.
pub fn decrypt_asset(data: &[u8], key: &[u8]) -> (r: Result<Vec<u8>, AssetError>)
    requires
        key@.len() == KEY_LENGTH,
    ensures
        data@.len() < HEADER_LENGTH ==> r == Err::<Vec<u8>, AssetError>(AssetError::TooShort),
        data@.len() >= HEADER_LENGTH ==> (r matches Ok(out) && out@ == xor_head(
            data@.skip(HEADER_LENGTH as int),
            key@,
        )),
{
    if data.len() < HEADER_LENGTH {
        return Err(AssetError::TooShort);
    }
    let mut body: Vec<u8> = Vec::new();
    let mut i: usize = HEADER_LENGTH;
    while i < data.len()
        invariant
            HEADER_LENGTH <= i <= data@.len(),
            body@ =~= data@.subrange(HEADER_LENGTH as int, i as int),
        decreases data.len() - i,
    {
        body.push(data[i]);
        i = i + 1;
    }
    assert(body@ =~= data@.skip(HEADER_LENGTH as int));
    Ok(xor_head_of(body.as_slice(), key))
}

/// Writes the signature, then the content with its first bytes XORed.
pub fn encrypt_asset(data: &[u8], key: &[u8]) -> (r: Vec<u8>)
    requires
        key@.len() == KEY_LENGTH,
    ensures
        r@ == signature() + xor_head(data@, key@),
{
    let mut out: Vec<u8> = vec![
        0x52u8, 0x50u8, 0x47u8, 0x4du8, 0x56u8, 0x00u8, 0x00u8, 0x00u8,
        0x00u8, 0x03u8, 0x01u8, 0x00u8, 0x00u8, 0x00u8, 0x00u8, 0x00u8,
    ];
    assert(out@ =~= signature());
    let mut body = xor_head_of(data, key);
    out.append(&mut body);
    out
}

/// Recovers the key from an encrypted PNG: its XORed first bytes against the
/// bytes every PNG starts with.
pub fn key_from_image(data: &[u8]) -> (r: Result<Vec<u8>, AssetError>)
    ensures
        data@.len() < HEADER_LENGTH + KEY_LENGTH ==> r == Err::<Vec<u8>, AssetError>(
            AssetError::TooShort,
        ),
        data@.len() >= HEADER_LENGTH + KEY_LENGTH ==> (r matches Ok(k) && k@ == Seq::new(
            KEY_LENGTH as nat,
            |i: int| data@[HEADER_LENGTH + i] ^ png_head()[i],
        )),
{
    if data.len() < HEADER_LENGTH + KEY_LENGTH {
        return Err(AssetError::TooShort);
    }
    let head: [u8; 16] = [
        0x89u8, 0x50u8, 0x4eu8, 0x47u8, 0x0du8, 0x0au8, 0x1au8, 0x0au8,
        0x00u8, 0x00u8, 0x00u8, 0x0du8, 0x49u8, 0x48u8, 0x44u8, 0x52u8,
    ];
    assert(head@ =~= png_head());
    let mut k: Vec<u8> = Vec::new();
    let mut i: usize = 0;
    while i < KEY_LENGTH
        invariant
            data@.len() >= HEADER_LENGTH + KEY_LENGTH,
            head@ == png_head(),
            i <= KEY_LENGTH,
            k@ =~= Seq::new(i as nat, |j: int| data@[HEADER_LENGTH + j] ^ png_head()[j]),
        decreases KEY_LENGTH - i,
    {
        k.push(data[HEADER_LENGTH + i] ^ head[i]);
        i = i + 1;
    }
    Ok(k)
}

/// XORing the first bytes twice with one key gives them back.
pub proof fn lemma_xor_head_involution(data: Seq<u8>, key: Seq<u8>)
    requires
        key.len() == KEY_LENGTH,
    ensures
        xor_head(xor_head(data, key), key) == data,
{
    assert forall|i: int| 0 <= i < data.len() implies #[trigger] xor_head(
        xor_head(data, key),
        key,
    )[i] == data[i] by {
        if i < KEY_LENGTH {
            let a = data[i];
            let b = key[i];
            assert((a ^ b) ^ b == a) by (bit_vector);
        }
    }
    assert(xor_head(xor_head(data, key), key) =~= data);
}

/// Decrypting with the key that encrypted gives the content back.
pub proof fn lemma_decrypt_undoes_encrypt(data: Seq<u8>, key: Seq<u8>)
    requires
        key.len() == KEY_LENGTH,
    ensures
        xor_head((signature() + xor_head(data, key)).skip(HEADER_LENGTH as int), key) == data,
{
    assert((signature() + xor_head(data, key)).skip(HEADER_LENGTH as int) =~= xor_head(data, key));
    lemma_xor_head_involution(data, key);
}

/// The key read from an encrypted PNG is the key it was encrypted with.
pub proof fn lemma_image_key_recovered(png: Seq<u8>, key: Seq<u8>)
    requires
        key.len() == KEY_LENGTH,
        png.len() >= KEY_LENGTH,
        png.take(KEY_LENGTH as int) == png_head(),
    ensures
        ({
            let enc = signature() + xor_head(png, key);
            Seq::new(KEY_LENGTH as nat, |i: int| enc[HEADER_LENGTH + i] ^ png_head()[i]) == key
        }),
{
    let enc = signature() + xor_head(png, key);
    assert forall|i: int| 0 <= i < KEY_LENGTH implies #[trigger] (enc[HEADER_LENGTH + i]
        ^ png_head()[i]) == key[i] by {
        assert(png.take(KEY_LENGTH as int)[i] == png[i]);
        let a = png[i];
        let b = key[i];
        assert((a ^ b) ^ a == b) by (bit_vector);
    }
    assert(Seq::new(KEY_LENGTH as nat, |i: int| enc[HEADER_LENGTH + i] ^ png_head()[i]) =~= key);
}

/// The field of the system descriptor that holds the key.
pub open spec fn key_marker() -> Seq<char> {
    "encryptionKey"@
}

/// The first position of `needle` in `hay`, or -1.
pub open spec fn first_occurrence(hay: Seq<char>, needle: Seq<char>) -> int {
    if exists|i: int| is_first_occurrence(hay, needle, i) {
        choose|i: int| is_first_occurrence(hay, needle, i)
    } else {
        -1
    }
}

proof fn lemma_first_occurrence_unique(hay: Seq<char>, needle: Seq<char>, i: int)
    requires
        is_first_occurrence(hay, needle, i),
    ensures
        first_occurrence(hay, needle) == i,
{
    let m = first_occurrence(hay, needle);
    assert(is_first_occurrence(hay, needle, m));
}

/// `s` without its leading `"` characters.
pub open spec fn trim_quotes_start(s: Seq<char>) -> Seq<char>
    decreases s.len(),
{
    if s.len() > 0 && s[0] == '"' {
        trim_quotes_start(s.drop_first())
    } else {
        s
    }
}

/// The key text in a system descriptor: after the marker and the `:` that
/// follows it, whitespace and quotes dropped, the first 32 characters.
pub open spec fn key_text(text: Seq<char>) -> Option<Seq<char>> {
    let p = first_occurrence(text, key_marker());
    if p < 0 {
        None
    } else {
        let after = text.skip(p + key_marker().len());
        let d = first_index(after, ':');
        if d < 0 {
            None
        } else {
            let v = trim_quotes_start(trim_start(after.skip(d + 1)));
            if v.len() < 2 * KEY_LENGTH {
                None
            } else {
                Some(v.take(2 * KEY_LENGTH as int))
            }
        }
    }
}

/// Reads the key out of a system descriptor's text.
pub fn key_from_system(text: &str) -> (r: Result<Vec<u8>, AssetError>)
    ensures
        match key_text(text@) {
            None => r == Err::<Vec<u8>, AssetError>(AssetError::NoKeyInSystem),
            Some(t) => match r {
                Ok(k) => key_of(t) == Some(k@),
                Err(e) => e == AssetError::InvalidKey && key_of(t) is None,
            },
        },
{
    let marker = "encryptionKey";
    let p = match find_str(text, marker) {
        Some(p) => p,
        None => {
            proof {
                if first_occurrence(text@, key_marker()) >= 0 {
                    let i = choose|i: int| is_first_occurrence(text@, key_marker(), i);
                    assert(contains(text@, marker@));
                }
            }
            return Err(AssetError::NoKeyInSystem);
        },
    };
    proof {
        lemma_first_occurrence_unique(text@, key_marker(), p as int);
    }
    let n = text.unicode_len();
    let after = text.substring_char(p + marker.unicode_len(), n);
    proof {
        assert(after@ =~= text@.skip(p + key_marker().len()));
    }
    let d = match find_char(after, ':') {
        Some(d) => d,
        None => {
            return Err(AssetError::NoKeyInSystem);
        },
    };
    let m = after.unicode_len();
    let mut a: usize = d + 1;
    let ghost rest = after@.skip(d + 1);
    assert(after@.subrange(a as int, m as int) =~= rest);
    while a < m && is_whitespace(after.get_char(a))
        invariant
            m == after@.len(),
            d + 1 <= a <= m,
            rest == after@.skip(d + 1),
            trim_start(rest) == trim_start(after@.subrange(a as int, m as int)),
        decreases m - a,
    {
        assert(after@.subrange(a as int, m as int).drop_first() =~= after@.subrange(
            a + 1,
            m as int,
        ));
        a = a + 1;
    }
    let ghost trimmed = after@.subrange(a as int, m as int);
    assert(trim_start(trimmed) == trimmed);
    while a < m && after.get_char(a) == '"'
        invariant
            m == after@.len(),
            d + 1 <= a <= m,
            trim_quotes_start(trimmed) == trim_quotes_start(after@.subrange(a as int, m as int)),
        decreases m - a,
    {
        assert(after@.subrange(a as int, m as int).drop_first() =~= after@.subrange(
            a + 1,
            m as int,
        ));
        a = a + 1;
    }
    assert(trim_quotes_start(after@.subrange(a as int, m as int)) == after@.subrange(
        a as int,
        m as int,
    ));
    if m - a < 2 * KEY_LENGTH {
        return Err(AssetError::NoKeyInSystem);
    }
    let key_str = after.substring_char(a, a + 2 * KEY_LENGTH);
    assert(key_str@ =~= after@.subrange(a as int, m as int).take(2 * KEY_LENGTH as int));
    parse_key(key_str)
}

} // verus!

//! The game's title and the custom-processing profile it selects.
use vstd::prelude::*;
use crate::text::{contains, contains_str};

verus! {

/// The text-processing quirks a title selects.
#[derive(Clone, Copy, Debug, PartialEq, Eq, Structural)]
pub enum GameType {
    Generic,
    Termina,
    LisaRPG,
}

/// What `str::to_lowercase` returns for `s`.
pub uninterp spec fn lower_of(s: Seq<char>) -> Seq<char>;

/// Relies on `str::to_lowercase`: the result depends on the characters alone.
#[verifier::external_body]
fn lowercase(s: &str) -> (r: String)
    ensures
        r@ == lower_of(s@),
{
    s.to_lowercase()
}

/// The profile for an already lower-cased title: "termina" first, then "lisa".
pub open spec fn classify(lowered: Seq<char>, disabled: bool) -> GameType {
    if disabled {
        GameType::Generic
    } else if contains(lowered, "termina"@) {
        GameType::Termina
    } else if contains(lowered, "lisa"@) {
        GameType::LisaRPG
    } else {
        GameType::Generic
    }
}

/// Classifies a title that is already lower-cased.
pub fn classify_lowered(lowered: &str, disabled: bool) -> (r: GameType)
    ensures
        r == classify(lowered@, disabled),
{
    if disabled {
        GameType::Generic
    } else if contains_str(lowered, "termina") {
        GameType::Termina
    } else if contains_str(lowered, "lisa") {
        GameType::LisaRPG
    } else {
        GameType::Generic
    }
}

/// The profile for `title`; disabling custom processing always gives `Generic`.
pub fn get_game_type(title: &str, disabled: bool) -> (r: GameType)
    ensures
        r == classify(lower_of(title@), disabled),
        disabled ==> r == GameType::Generic,
{
    if disabled {
        return GameType::Generic;
    }
    let lowered = lowercase(title);
    classify_lowered(lowered.as_str(), disabled)
}

/// What `String::from_utf8_lossy` makes of `bytes`.
pub uninterp spec fn lossy_utf8(bytes: Seq<u8>) -> Seq<char>;

/// Relies on `String::from_utf8_lossy`: a function of the bytes alone.
#[verifier::external_body]
pub(crate) fn decode_lossy(bytes: &[u8]) -> (r: String)
    ensures
        r@ == lossy_utf8(bytes@),
{
    String::from_utf8_lossy(bytes).into_owned()
}

/// The title of a game of an older engine, from the raw value of its INI
/// title entry, which may not be UTF-8.
pub fn ini_title(raw: &Vec<u8>) -> (r: String)
    ensures
        r@ == lossy_utf8(raw@),
{
    decode_lossy(raw.as_slice())
}

} // verus!

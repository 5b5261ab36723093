//! Unpacking an older engine's packed archive into (path, bytes) entries.
use vstd::prelude::*;
use crate::title::{lossy_utf8, decode_lossy};

verus! {

#[verifier::external_type_specification]
#[verifier::external_body]
pub struct ExExtractError(rpgmad_lib::ExtractError);

/// The bytes an archive starts with.
pub open spec fn archive_magic() -> Seq<u8> {
    seq![0x52u8, 0x47u8, 0x53u8, 0x53u8, 0x41u8, 0x44u8, 0x00u8]
}

/// What `rpgmad_lib`'s decrypter yields for an archive: its entries, each a
/// raw path and the file's bytes, or `None` where it rejects the archive.
pub uninterp spec fn archive_entries(data: Seq<u8>) -> Option<Seq<(Seq<u8>, Seq<u8>)>>;

/// Whether the archive's first eight bytes are a signature and an engine byte
/// that the decrypter accepts; without them it always fails.
pub open spec fn has_archive_header(data: Seq<u8>) -> bool {
    data.len() >= 8 && data.take(7) == archive_magic() && (data[7] == 1u8 || data[7] == 3u8)
}

/// Relies on `rpgmad_lib::Decrypter::decrypt`: it validates the whole archive
/// first (header, engine byte, entry table) and then yields every entry; its
/// result depends on the bytes alone.
#[verifier::external_body]
fn decrypt_entries(data: Vec<u8>) -> (r: Result<Vec<(Vec<u8>, Vec<u8>)>, rpgmad_lib::ExtractError>)
    ensures
        match r {
            Ok(v) => archive_entries(data@) == Some(
                v@.map_values(|e: (Vec<u8>, Vec<u8>)| (e.0@, e.1@)),
            ),
            Err(_) => archive_entries(data@) is None,
        },
        !has_archive_header(data@) ==> r is Err,
{
    let mut bytes = data;
    let mut decrypter = rpgmad_lib::Decrypter::new();
    let entries = decrypter.decrypt(&mut bytes)?;
    Ok(entries.map(|e| (e.path.to_vec(), e.data.to_vec())).collect())
}

/// Why an archive could not be unpacked.
#[derive(Debug)]
pub enum UnpackError {
    Archive(rpgmad_lib::ExtractError),
}

/// The entries as written to disk: each path decoded permissively, since
/// archive paths may not be UTF-8.
pub open spec fn decoded(entries: Seq<(Seq<u8>, Seq<u8>)>) -> Seq<(Seq<char>, Seq<u8>)> {
    entries.map_values(|e: (Seq<u8>, Seq<u8>)| (lossy_utf8(e.0), e.1))
}

/// Unpacks an archive into relative paths and file contents, in the order the
/// archive lists them.
pub fn unpack_archive(data: Vec<u8>) -> (r: Result<Vec<(String, Vec<u8>)>, UnpackError>)
    ensures
        match r {
            Ok(v) => archive_entries(data@) matches Some(es) && v@.map_values(
                |e: (String, Vec<u8>)| (e.0@, e.1@),
            ) == decoded(es),
            Err(_) => archive_entries(data@) is None,
        },
        !has_archive_header(data@) ==> r is Err,
{
    let entries = match decrypt_entries(data) {
        Ok(v) => v,
        Err(e) => {
            return Err(UnpackError::Archive(e));
        },
    };
    let ghost es = entries@.map_values(|e: (Vec<u8>, Vec<u8>)| (e.0@, e.1@));
    let mut out: Vec<(String, Vec<u8>)> = Vec::new();
    let mut i: usize = 0;
    assert(es.take(0) =~= Seq::<(Seq<u8>, Seq<u8>)>::empty());
    assert(out@.map_values(|e: (String, Vec<u8>)| (e.0@, e.1@)) =~= decoded(es.take(0)));
    while i < entries.len()
        invariant
            es == entries@.map_values(|e: (Vec<u8>, Vec<u8>)| (e.0@, e.1@)),
            i <= entries@.len(),
            out@.map_values(|e: (String, Vec<u8>)| (e.0@, e.1@)) == decoded(es.take(i as int)),
        decreases entries.len() - i,
    {
        let path = decode_lossy(entries[i].0.as_slice());
        let bytes = vstd::slice::slice_to_vec(entries[i].1.as_slice());
        let ghost before = out@;
        out.push((path, bytes));
        proof {
            assert(es.take(i + 1) =~= es.take(i as int).push(es[i as int]));
            assert(es[i as int] == (entries@[i as int].0@, entries@[i as int].1@));
            assert(out@.map_values(|e: (String, Vec<u8>)| (e.0@, e.1@)) =~= before.map_values(
                |e: (String, Vec<u8>)| (e.0@, e.1@),
            ).push((path@, bytes@)));
            assert(decoded(es.take(i + 1)) =~= decoded(es.take(i as int)).push(
                (lossy_utf8(es[i as int].0), es[i as int].1),
            ));
            assert(out@.map_values(|e: (String, Vec<u8>)| (e.0@, e.1@)) =~= decoded(
                es.take(i + 1),
            ));
        }
        i = i + 1;
    }
    assert(es.take(entries@.len() as int) =~= es);
    Ok(out)
}

} // verus!

//! The ZIP archive of a Loxone backup, read through the `zip` crate.
//!
//! What the archive holds is named as a function of the archive's bytes:
//! reading an in-memory archive depends on those bytes alone, so an open
//! archive carries the bytes it was opened from.

use vstd::prelude::*;
use std::io::Cursor;
use std::io::Read;
use zip::result::ZipError;
use zip::ZipArchive;

verus! {

#[verifier::external_type_specification]
#[verifier::external_body]
#[verifier::reject_recursive_types(R)]
pub struct ExZipArchive<R>(ZipArchive<R>);

#[verifier::external_type_specification]
#[verifier::external_body]
#[verifier::reject_recursive_types(T)]
pub struct ExCursor<T>(Cursor<T>);

#[verifier::external_type_specification]
#[verifier::external_body]
pub struct ExZipError(ZipError);

/// An archive read from memory, with the bytes it was opened from.
pub(crate) struct MemZip {
    archive: ZipArchive<Cursor<Vec<u8>>>,
    source: Ghost<Seq<u8>>,
}

impl View for MemZip {
    type V = Seq<u8>;

    closed spec fn view(&self) -> Seq<u8> {
        self.source@
    }
}

/// Whether `ZipArchive::new` accepts these bytes (finds a readable central directory).
pub uninterp spec fn zip_opens(data: Seq<u8>) -> bool;

/// `ZipArchive::len` of the archive these bytes hold: its number of entries.
pub uninterp spec fn zip_entry_count(data: Seq<u8>) -> nat;

/// The name of entry `i` as `by_index(i)` then `ZipFile::name` give it;
/// `None` where `by_index(i)` fails.
pub uninterp spec fn zip_entry_name(data: Seq<u8>, i: int) -> Option<Seq<char>>;

/// The contents of entry `i` as `by_index(i)` then `read_to_end` give them;
/// `None` where either fails.
pub uninterp spec fn zip_entry_bytes(data: Seq<u8>, i: int) -> Option<Seq<u8>>;

/// zip's `ZipArchive::new` on a cursor over a copy of `data`: succeeds
/// exactly on the inputs `zip_opens` names, and keeps its bytes.
#[verifier::external_body]
pub(crate) fn zip_open(data: &[u8]) -> (r: Result<MemZip, ZipError>)
    ensures
        r is Ok <==> zip_opens(data@),
        r matches Ok(z) ==> z@ == data@,
{
    match ZipArchive::new(Cursor::new(data.to_vec())) {
        Ok(archive) => Ok(MemZip { archive, source: Ghost(data@) }),
        Err(e) => Err(e),
    }
}

/// zip's `ZipArchive::len`: the number of entries.
#[verifier::external_body]
pub(crate) fn zip_len(z: &MemZip) -> (n: usize)
    ensures
        n == zip_entry_count(z@),
{
    z.archive.len()
}

/// zip's `ZipArchive::by_index` followed by `ZipFile::name`: the name of
/// entry `i`, or the error `by_index` returns. Reading leaves the archive's
/// bytes as they were.
#[verifier::external_body]
pub(crate) fn zip_name_at(z: &mut MemZip, i: usize) -> (r: Result<String, ZipError>)
    requires
        i < zip_entry_count(old(z)@),
    ensures
        final(z)@ == old(z)@,
        r is Ok <==> zip_entry_name(old(z)@, i as int) is Some,
        r matches Ok(n) ==> zip_entry_name(old(z)@, i as int) == Some(n@),
{
    z.archive.by_index(i).map(|f| f.name().to_string())
}

/// zip's `ZipArchive::by_index` followed by `Read::read_to_end`: the
/// contents of entry `i`, or the error's message. Reading leaves the
/// archive's bytes as they were.
#[verifier::external_body]
pub(crate) fn zip_bytes_at(z: &mut MemZip, i: usize) -> (r: Result<Vec<u8>, String>)
    requires
        i < zip_entry_count(old(z)@),
    ensures
        final(z)@ == old(z)@,
        r is Ok <==> zip_entry_bytes(old(z)@, i as int) is Some,
        r matches Ok(b) ==> zip_entry_bytes(old(z)@, i as int) == Some(b@),
{
    let mut buf = Vec::new();
    match z.archive.by_index(i) {
        Ok(mut f) => f.read_to_end(&mut buf).map(|_| buf).map_err(|e| e.to_string()),
        Err(e) => Err(e.to_string()),
    }
}

/// zip's `Display` for `ZipError`: the error's message. Nothing is stated
/// of the text.
#[verifier::external_body]
pub(crate) fn zip_error_message(e: &ZipError) -> String {
    e.to_string()
}

} // verus!

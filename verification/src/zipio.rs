//! Trusted boundary to the `zip` crate.
//!
//! An archive is opaque to the verifier; its logical content is named by
//! uninterpreted functions of the bytes it was opened from: how many entries
//! it holds and, per entry, the stored name, the directory flag, the declared
//! uncompressed size, and the bytes the entry decompresses to.  Each wrapper
//! states over those names what the crate's source shows, and nothing more.

use vstd::prelude::*;

use std::io::Cursor;
use std::io::Read;

verus! {

#[verifier::external_type_specification]
#[verifier::external_body]
#[verifier::reject_recursive_types(R)]
pub struct ExZipArchive<R>(zip::ZipArchive<R>);

#[verifier::external_type_specification]
#[verifier::external_body]
#[verifier::reject_recursive_types(T)]
pub struct ExCursor<T>(Cursor<T>);

/// The bytes an archive value was opened from.
pub uninterp spec fn archive_bytes(a: zip::ZipArchive<Cursor<Vec<u8>>>) -> Seq<u8>;

/// How many entries the archive's central directory lists.
pub uninterp spec fn zip_entry_count(b: Seq<u8>) -> nat;

/// The stored (decoded) name of entry `i`.
pub uninterp spec fn zip_entry_name(b: Seq<u8>, i: int) -> Seq<u8>;

/// Whether entry `i` is a directory marker.
pub uninterp spec fn zip_entry_is_dir(b: Seq<u8>, i: int) -> bool;

/// The uncompressed size entry `i`'s header declares (which a hostile
/// archive may falsify).
pub uninterp spec fn zip_entry_declared_size(b: Seq<u8>, i: int) -> u64;

/// The bytes entry `i` actually decompresses to.
pub uninterp spec fn zip_entry_data(b: Seq<u8>, i: int) -> Seq<u8>;

/// Whether the bytes parse as a well-formed archive container.
pub uninterp spec fn zip_parses(b: Seq<u8>) -> bool;

/// Whether entry `i` can be opened for reading (supported compression and
/// an intact local header).
pub uninterp spec fn zip_entry_opens(b: Seq<u8>, i: int) -> bool;

/// Whether entry `i` opens and its whole stream decompresses cleanly to
/// the end, checksum included.
pub uninterp spec fn zip_entry_readable(b: Seq<u8>, i: int) -> bool;

/// Relies on `zip::ZipArchive::new`: parses the central directory of the
/// buffered bytes, succeeding exactly when they form a well-formed
/// container.
#[verifier::external_body]
pub(crate) fn zip_open(bytes: Vec<u8>) -> (r: Result<
    zip::ZipArchive<Cursor<Vec<u8>>>,
    Vec<u8>,
>)
    ensures
        r is Ok <==> zip_parses(bytes@),
        match r {
            Ok(a) => archive_bytes(a) == bytes@,
            Err(_) => true,
        },
{
    match zip::ZipArchive::new(Cursor::new(bytes)) {
        Ok(a) => Ok(a),
        Err(e) => Err(format!("{e}").into_bytes()),
    }
}

/// Relies on `zip::ZipArchive::len`: the number of entries in the archive.
#[verifier::external_body]
pub(crate) fn zip_len(a: &zip::ZipArchive<Cursor<Vec<u8>>>) -> (r: usize)
    ensures
        r == zip_entry_count(archive_bytes(*a)),
{
    a.len()
}

/// Relies on `zip::ZipArchive::by_index`, converting the entry it hands out
/// to plain values via `ZipFile::name`, `is_dir` and `size`: entry `i`'s
/// stored name, directory flag, and declared uncompressed size.  An
/// in-range index succeeds exactly when the entry opens.
#[verifier::external_body]
pub(crate) fn zip_entry_meta(a: &mut zip::ZipArchive<Cursor<Vec<u8>>>, i: usize) -> (r: Result<
    (Vec<u8>, bool, u64),
    Vec<u8>,
>)
    requires
        i < zip_entry_count(archive_bytes(*old(a))),
    ensures
        archive_bytes(*final(a)) == archive_bytes(*old(a)),
        r is Ok <==> zip_entry_opens(archive_bytes(*old(a)), i as int),
        match r {
            Ok(m) => {
                let b = archive_bytes(*old(a));
                m.0@ == zip_entry_name(b, i as int) && m.1 == zip_entry_is_dir(b, i as int)
                    && m.2 == zip_entry_declared_size(b, i as int)
            },
            Err(_) => true,
        },
{
    match a.by_index(i) {
        Ok(f) => Ok((f.name().as_bytes().to_vec(), f.is_dir(), f.size())),
        Err(e) => Err(format!("{e}").into_bytes()),
    }
}

/// Relies on `zip::ZipArchive::by_index` and `std::io::Read::take` +
/// `read_to_end`: decompresses entry `i`, yielding at most `cap` bytes.
/// The cap bounds what is ever materialized, whatever the entry's header
/// declares.  A readable entry always succeeds (a prefix of a cleanly
/// decompressing stream cannot fail); a result shorter than `cap` reached
/// the stream's checked end, so it is the whole entry and the entry is
/// readable.
#[verifier::external_body]
pub(crate) fn zip_entry_take(a: &mut zip::ZipArchive<Cursor<Vec<u8>>>, i: usize, cap: u64) -> (r:
    Result<Vec<u8>, Vec<u8>>)
    requires
        i < zip_entry_count(archive_bytes(*old(a))),
    ensures
        archive_bytes(*final(a)) == archive_bytes(*old(a)),
        zip_entry_readable(archive_bytes(*old(a)), i as int) ==> r is Ok,
        match r {
            Ok(v) => {
                let data = zip_entry_data(archive_bytes(*old(a)), i as int);
                v@.len() <= cap && v@.len() <= data.len() && v@ == data.take(v@.len() as int) && (
                v@.len() < cap ==> v@ == data && zip_entry_readable(
                    archive_bytes(*old(a)),
                    i as int,
                ))
            },
            Err(_) => true,
        },
{
    match a.by_index(i) {
        Ok(f) => {
            let mut v: Vec<u8> = Vec::new();
            match f.take(cap).read_to_end(&mut v) {
                Ok(_) => Ok(v),
                Err(e) => Err(format!("{e}").into_bytes()),
            }
        },
        Err(e) => Err(format!("{e}").into_bytes()),
    }
}

} // verus!

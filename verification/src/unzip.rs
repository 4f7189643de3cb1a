//! Safe archive extraction.
//!
//! `unzip_safely` turns an untrusted, fully buffered archive into an
//! in-memory file tree, enforcing per-entry and aggregate limits and two
//! independent path-escape checks.  Decompression is capped at the limits,
//! so a lying size header can never make it materialize more than one byte
//! past the tightest remaining limit.  Callers write the returned tree under
//! the destination; on any violation the whole extraction fails.

use vstd::prelude::*;

use crate::entrypath::has_dotdot;
use crate::entrypath::lemma_dotdot_rejected;
use crate::entrypath::sanitize_entry_spec;
use crate::entrypath::sanitize_zip_entry_path;
use crate::paths::is_seq_prefix;
use crate::paths::is_within_dir;
use crate::paths::join;
use crate::paths::join_spec;
use crate::paths::normalize_spec;
use crate::paths::push_all;
use crate::text::dec_spec;
use crate::text::u64_to_dec;
use crate::zipio::archive_bytes;
use crate::zipio::zip_entry_count;
use crate::zipio::zip_entry_data;
use crate::zipio::zip_entry_declared_size;
use crate::zipio::zip_entry_is_dir;
use crate::zipio::zip_entry_meta;
use crate::zipio::zip_entry_name;
use crate::zipio::zip_entry_opens;
use crate::zipio::zip_entry_readable;
use crate::zipio::zip_entry_take;
use crate::zipio::zip_len;
use crate::zipio::zip_open;
use crate::zipio::zip_parses;

verus! {

/// Extraction limits, all enforced.
#[derive(Clone, Copy)]
pub struct UnzipLimits {
    /// Max number of entries in the archive.
    pub max_files: usize,
    /// Max total uncompressed bytes across all files.
    pub max_total_uncompressed: u64,
    /// Max uncompressed size of a single extracted file.
    pub max_single_file: u64,
}

impl Default for UnzipLimits {
    /// 10,000 entries, 2 GiB total, 512 MiB per file.
    fn default() -> (r: Self)
        ensures
            r.max_files == 10000,
            r.max_total_uncompressed == 0x80000000u64,
            r.max_single_file == 0x20000000u64,
    {
        UnzipLimits {
            max_files: 10000,
            max_total_uncompressed: 0x80000000u64,  // 2 GiB
            max_single_file: 0x20000000u64,  // 512 MiB
        }
    }
}

/// Why an extraction was aborted.  Every variant aborts the whole archive.
#[derive(Debug, Clone, PartialEq, Eq)]
pub enum ExtractError {
    /// The byte blob is not a well-formed archive container.
    BadArchive { msg: Vec<u8> },
    /// An entry could not be read or decompressed.
    ReadEntry { msg: Vec<u8> },
    /// More entries than `max_files`.
    TooManyEntries { max_files: usize },
    /// The stored path is absolute, a drive path, traversing, or empty.
    BadEntryPath { name: Vec<u8> },
    /// The re-rooted path escaped the destination in the second check.
    EntryEscapes { name: Vec<u8> },
    /// The header-declared size alone exceeds `max_single_file`.
    EntryTooLargeDeclared { name: Vec<u8>, declared: u64 },
    /// The entry actually decompressed past `max_single_file`.
    EntryTooLarge { name: Vec<u8> },
    /// The archive as a whole decompressed past `max_total_uncompressed`.
    TotalTooLarge,
}

/// One extracted entry, in archive order: a sanitized destination-relative
/// path and, for files, the decompressed bytes.
#[derive(Debug, Clone, PartialEq, Eq)]
pub struct ExtractedEntry {
    pub path: Vec<u8>,
    pub is_dir: bool,
    pub data: Vec<u8>,
}

/// Total decompressed payload of a tree.
pub open spec fn total_data_len(tree: Seq<ExtractedEntry>) -> int
    decreases tree.len(),
{
    if tree.len() == 0 {
        0
    } else {
        total_data_len(tree.drop_last()) + tree.last().data@.len()
    }
}

/// Everything `unzip_safely` guarantees of each produced entry: its path is
/// the sanitized form of the stored name, it cannot leave `dest`, and file
/// data is the entry's full decompressed content within the single-file
/// limit.
pub open spec fn entry_ok(
    b: Seq<u8>,
    dest: Seq<u8>,
    e: ExtractedEntry,
    i: int,
    limits: UnzipLimits,
) -> bool {
    &&& zip_entry_opens(b, i)
    &&& sanitize_entry_spec(zip_entry_name(b, i)) == Some(e.path@)
    &&& !has_dotdot(zip_entry_name(b, i))
    &&& e.is_dir == zip_entry_is_dir(b, i)
    &&& is_seq_prefix(normalize_spec(dest), normalize_spec(join_spec(dest, e.path@)))
    &&& (!e.is_dir ==> zip_entry_readable(b, i) && e.data@ == zip_entry_data(b, i)
        && e.data@.len() <= limits.max_single_file && zip_entry_declared_size(b, i)
        <= limits.max_single_file)
    &&& (e.is_dir ==> e.data@.len() == 0)
}

/// Total decompressed payload of the archive's first `n` entries; a
/// directory marker contributes nothing.
pub open spec fn archive_payload(b: Seq<u8>, n: int) -> int
    decreases n,
{
    if n <= 0 {
        0
    } else {
        archive_payload(b, n - 1) + (if zip_entry_is_dir(b, n - 1) {
            0
        } else {
            zip_entry_data(b, n - 1).len() as int
        })
    }
}

proof fn lemma_archive_payload_mono(b: Seq<u8>, m: int, n: int)
    requires
        0 <= m <= n,
    ensures
        archive_payload(b, m) <= archive_payload(b, n),
    decreases n - m,
{
    if m < n {
        lemma_archive_payload_mono(b, m, n - 1);
    }
}

/// What extraction demands of one entry: it opens, its stored path
/// sanitizes and stays under `dest` after re-rooting, and a file entry is
/// readable and within the single-file limit, declared and actual.
pub open spec fn entry_admissible(b: Seq<u8>, dest: Seq<u8>, i: int, limits: UnzipLimits) -> bool {
    &&& zip_entry_opens(b, i)
    &&& match sanitize_entry_spec(zip_entry_name(b, i)) {
        Some(p) => is_seq_prefix(normalize_spec(dest), normalize_spec(join_spec(dest, p))),
        None => false,
    }
    &&& (!zip_entry_is_dir(b, i) ==> zip_entry_readable(b, i) && zip_entry_declared_size(b, i)
        <= limits.max_single_file && zip_entry_data(b, i).len() <= limits.max_single_file)
}

/// Exactly when extraction succeeds: the bytes parse as an archive, the
/// entry count and the total decompressed payload are within the limits,
/// and every entry is admissible.
pub open spec fn extract_ok(b: Seq<u8>, dest: Seq<u8>, limits: UnzipLimits) -> bool {
    &&& zip_parses(b)
    &&& zip_entry_count(b) <= limits.max_files
    &&& archive_payload(b, zip_entry_count(b) as int) <= limits.max_total_uncompressed
    &&& forall|i: int|
        0 <= i < zip_entry_count(b) ==> #[trigger] entry_admissible(b, dest, i, limits)
}

/// Validate and extract a complete in-memory archive destined for
/// `dest_dir`.  On success every entry was processed and is safe; on any
/// limit or path violation the whole extraction fails with the reason.
pub fn unzip_safely(zip_bytes: Vec<u8>, dest_dir: &Vec<u8>, limits: &UnzipLimits) -> (r: Result<
    Vec<ExtractedEntry>,
    ExtractError,
>)
    requires
        limits.max_total_uncompressed < u64::MAX,
        limits.max_single_file < u64::MAX,
    ensures
        (r is Ok) <==> extract_ok(zip_bytes@, dest_dir@, *limits),
        zip_entry_count(zip_bytes@) > limits.max_files ==> !(r is Ok),
        match r {
            Ok(tree) => {
                let b = zip_bytes@;
                &&& tree@.len() == zip_entry_count(b)
                &&& zip_entry_count(b) <= limits.max_files
                &&& total_data_len(tree@) <= limits.max_total_uncompressed
                &&& forall|i: int|
                    0 <= i < tree@.len() ==> entry_ok(b, dest_dir@, #[trigger] tree@[i], i, *limits)
            },
            Err(e) => match e {
                ExtractError::BadArchive { .. } => !zip_parses(zip_bytes@),
                ExtractError::TooManyEntries { max_files } => max_files == limits.max_files
                    && zip_entry_count(zip_bytes@) > limits.max_files,
                ExtractError::BadEntryPath { name } => sanitize_entry_spec(name@) is None,
                ExtractError::EntryTooLargeDeclared { name, declared } => declared
                    > limits.max_single_file,
                ExtractError::EntryTooLarge { name } => exists|i: int|
                    0 <= i < zip_entry_count(zip_bytes@) && #[trigger] zip_entry_data(
                        zip_bytes@,
                        i,
                    ).len() > limits.max_single_file,
                ExtractError::TotalTooLarge => archive_payload(
                    zip_bytes@,
                    zip_entry_count(zip_bytes@) as int,
                ) > limits.max_total_uncompressed,
                _ => true,
            },
        },
{
    let ghost b = zip_bytes@;
    let mut archive = match zip_open(zip_bytes) {
        Ok(a) => a,
        Err(m) => {
            proof {
                assert(!extract_ok(b, dest_dir@, *limits));
            }
            return Err(ExtractError::BadArchive { msg: m });
        },
    };
    let n: usize = zip_len(&archive);
    let mut out: Vec<ExtractedEntry> = Vec::new();
    let mut total: u64 = 0;
    let mut i: usize = 0;
    while i < n
        invariant
            b == zip_bytes@,
            archive_bytes(archive) == b,
            zip_parses(b),
            n == zip_entry_count(b),
            i <= n,
            i <= limits.max_files,
            out@.len() == i,
            total == total_data_len(out@),
            total == archive_payload(b, i as int),
            total <= limits.max_total_uncompressed,
            limits.max_total_uncompressed < u64::MAX,
            limits.max_single_file < u64::MAX,
            forall|j: int| 0 <= j < i ==> entry_ok(b, dest_dir@, #[trigger] out@[j], j, *limits),
        decreases n - i,
    {
        let meta: (Vec<u8>, bool, u64) = match zip_entry_meta(&mut archive, i) {
            Ok(m) => m,
            Err(m) => {
                proof {
                    assert(!entry_admissible(b, dest_dir@, i as int, *limits));
                    assert(!extract_ok(b, dest_dir@, *limits));
                }
                return Err(ExtractError::ReadEntry { msg: m });
            },
        };
        let name: Vec<u8> = meta.0;
        let entry_is_dir: bool = meta.1;
        let declared: u64 = meta.2;
        if i + 1 > limits.max_files {
            proof {
                assert(!extract_ok(b, dest_dir@, *limits));
            }
            return Err(ExtractError::TooManyEntries { max_files: limits.max_files });
        }
        let rel: Vec<u8> = match sanitize_zip_entry_path(&name) {
            Some(p) => p,
            None => {
                proof {
                    assert(!entry_admissible(b, dest_dir@, i as int, *limits));
                    assert(!extract_ok(b, dest_dir@, *limits));
                }
                return Err(ExtractError::BadEntryPath { name });
            },
        };
        let out_path: Vec<u8> = join(dest_dir, &rel);
        if !is_within_dir(&out_path, dest_dir) {
            proof {
                assert(!entry_admissible(b, dest_dir@, i as int, *limits));
                assert(!extract_ok(b, dest_dir@, *limits));
            }
            return Err(ExtractError::EntryEscapes { name });
        }
        proof {
            if has_dotdot(zip_entry_name(b, i as int)) {
                lemma_dotdot_rejected(zip_entry_name(b, i as int));
            }
        }
        if entry_is_dir {
            let entry = ExtractedEntry { path: rel, is_dir: true, data: Vec::new() };
            let ghost prev = out@;
            out.push(entry);
            proof {
                assert(out@.drop_last() =~= prev);
                assert(total_data_len(out@) == total_data_len(prev) + 0);
                assert(archive_payload(b, i + 1) == archive_payload(b, i as int));
            }
            i = i + 1;
            continue ;
        }
        if declared > limits.max_single_file {
            proof {
                assert(!entry_admissible(b, dest_dir@, i as int, *limits));
                assert(!extract_ok(b, dest_dir@, *limits));
            }
            return Err(ExtractError::EntryTooLargeDeclared { name, declared });
        }
        let remaining: u64 = limits.max_total_uncompressed - total;
        let cap_base: u64 = if limits.max_single_file < remaining {
            limits.max_single_file
        } else {
            remaining
        };
        let cap: u64 = cap_base + 1;
        let data: Vec<u8> = match zip_entry_take(&mut archive, i, cap) {
            Ok(v) => v,
            Err(m) => {
                proof {
                    assert(!zip_entry_readable(b, i as int));
                    assert(!entry_admissible(b, dest_dir@, i as int, *limits));
                    assert(!extract_ok(b, dest_dir@, *limits));
                }
                return Err(ExtractError::ReadEntry { msg: m });
            },
        };
        if (data.len() as u64) > limits.max_single_file {
            proof {
                assert(zip_entry_data(b, i as int).len() >= data@.len());
                assert(!entry_admissible(b, dest_dir@, i as int, *limits));
                assert(!extract_ok(b, dest_dir@, *limits));
            }
            return Err(ExtractError::EntryTooLarge { name });
        }
        let new_total: u64 = total + (data.len() as u64);
        if new_total > limits.max_total_uncompressed {
            proof {
                assert(zip_entry_data(b, i as int).len() >= data@.len());
                assert(archive_payload(b, i + 1) >= archive_payload(b, i as int) + data@.len());
                lemma_archive_payload_mono(b, i + 1, n as int);
                assert(archive_payload(b, n as int) > limits.max_total_uncompressed);
                assert(!extract_ok(b, dest_dir@, *limits));
            }
            return Err(ExtractError::TotalTooLarge);
        }
        proof {
            // The cap was one past the tightest remaining limit, and both
            // checks passed, so the entry fit below the cap: it is complete.
            assert(data@.len() < cap);
            assert(data@ == zip_entry_data(b, i as int));
        }
        total = new_total;
        let entry = ExtractedEntry { path: rel, is_dir: false, data };
        let ghost prev = out@;
        out.push(entry);
        proof {
            assert(out@.drop_last() =~= prev);
            assert(total_data_len(out@) == total_data_len(prev) + out@.last().data@.len());
            assert(archive_payload(b, i + 1) == archive_payload(b, i as int) + zip_entry_data(
                b,
                i as int,
            ).len());
        }
        i = i + 1;
    }
    proof {
        assert forall|i2: int|
            0 <= i2 < zip_entry_count(b) implies #[trigger] entry_admissible(
            b,
            dest_dir@,
            i2,
            *limits,
        ) by {
            assert(entry_ok(b, dest_dir@, out@[i2], i2, *limits));
        }
        assert(extract_ok(b, dest_dir@, *limits));
    }
    Ok(out)
}


/// `'open zip'` as bytes.
pub open spec fn lit_open_zip() -> Seq<u8> {
    seq![0x6fu8, 0x70, 0x65, 0x6e, 0x20, 0x7a, 0x69, 0x70]
}

fn push_lit_open_zip(out: &mut Vec<u8>)
    ensures
        final(out)@ == old(out)@ + lit_open_zip(),
{
    out.push(0x6f);
    out.push(0x70);
    out.push(0x65);
    out.push(0x6e);
    out.push(0x20);
    out.push(0x7a);
    out.push(0x69);
    out.push(0x70);
    proof {
        assert(out@ =~= old(out)@ + lit_open_zip());
    }
}

/// `'read entry'` as bytes.
pub open spec fn lit_read_entry() -> Seq<u8> {
    seq![0x72u8, 0x65, 0x61, 0x64, 0x20, 0x65, 0x6e, 0x74, 0x72, 0x79]
}

fn push_lit_read_entry(out: &mut Vec<u8>)
    ensures
        final(out)@ == old(out)@ + lit_read_entry(),
{
    out.push(0x72);
    out.push(0x65);
    out.push(0x61);
    out.push(0x64);
    out.push(0x20);
    out.push(0x65);
    out.push(0x6e);
    out.push(0x74);
    out.push(0x72);
    out.push(0x79);
    proof {
        assert(out@ =~= old(out)@ + lit_read_entry());
    }
}

/// `'zip has too many files (>'` as bytes.
pub open spec fn lit_too_many() -> Seq<u8> {
    seq![0x7au8, 0x69, 0x70, 0x20, 0x68, 0x61, 0x73, 0x20, 0x74, 0x6f, 0x6f, 0x20, 0x6d, 0x61, 0x6e, 0x79, 0x20, 0x66, 0x69, 0x6c, 0x65, 0x73, 0x20, 0x28, 0x3e]
}

fn push_lit_too_many(out: &mut Vec<u8>)
    ensures
        final(out)@ == old(out)@ + lit_too_many(),
{
    out.push(0x7a);
    out.push(0x69);
    out.push(0x70);
    out.push(0x20);
    out.push(0x68);
    out.push(0x61);
    out.push(0x73);
    out.push(0x20);
    out.push(0x74);
    out.push(0x6f);
    out.push(0x6f);
    out.push(0x20);
    out.push(0x6d);
    out.push(0x61);
    out.push(0x6e);
    out.push(0x79);
    out.push(0x20);
    out.push(0x66);
    out.push(0x69);
    out.push(0x6c);
    out.push(0x65);
    out.push(0x73);
    out.push(0x20);
    out.push(0x28);
    out.push(0x3e);
    proof {
        assert(out@ =~= old(out)@ + lit_too_many());
    }
}

/// `')'` as bytes.
pub open spec fn lit_close_paren() -> Seq<u8> {
    seq![0x29u8]
}

fn push_lit_close_paren(out: &mut Vec<u8>)
    ensures
        final(out)@ == old(out)@ + lit_close_paren(),
{
    out.push(0x29);
    proof {
        assert(out@ =~= old(out)@ + lit_close_paren());
    }
}

/// `'bad zip entry path: '` as bytes.
pub open spec fn lit_bad_path() -> Seq<u8> {
    seq![0x62u8, 0x61, 0x64, 0x20, 0x7a, 0x69, 0x70, 0x20, 0x65, 0x6e, 0x74, 0x72, 0x79, 0x20, 0x70, 0x61, 0x74, 0x68, 0x3a, 0x20]
}

fn push_lit_bad_path(out: &mut Vec<u8>)
    ensures
        final(out)@ == old(out)@ + lit_bad_path(),
{
    out.push(0x62);
    out.push(0x61);
    out.push(0x64);
    out.push(0x20);
    out.push(0x7a);
    out.push(0x69);
    out.push(0x70);
    out.push(0x20);
    out.push(0x65);
    out.push(0x6e);
    out.push(0x74);
    out.push(0x72);
    out.push(0x79);
    out.push(0x20);
    out.push(0x70);
    out.push(0x61);
    out.push(0x74);
    out.push(0x68);
    out.push(0x3a);
    out.push(0x20);
    proof {
        assert(out@ =~= old(out)@ + lit_bad_path());
    }
}

/// `'zip entry escapes destination: '` as bytes.
pub open spec fn lit_escapes() -> Seq<u8> {
    seq![0x7au8, 0x69, 0x70, 0x20, 0x65, 0x6e, 0x74, 0x72, 0x79, 0x20, 0x65, 0x73, 0x63, 0x61, 0x70, 0x65, 0x73, 0x20, 0x64, 0x65, 0x73, 0x74, 0x69, 0x6e, 0x61, 0x74, 0x69, 0x6f, 0x6e, 0x3a, 0x20]
}

fn push_lit_escapes(out: &mut Vec<u8>)
    ensures
        final(out)@ == old(out)@ + lit_escapes(),
{
    out.push(0x7a);
    out.push(0x69);
    out.push(0x70);
    out.push(0x20);
    out.push(0x65);
    out.push(0x6e);
    out.push(0x74);
    out.push(0x72);
    out.push(0x79);
    out.push(0x20);
    out.push(0x65);
    out.push(0x73);
    out.push(0x63);
    out.push(0x61);
    out.push(0x70);
    out.push(0x65);
    out.push(0x73);
    out.push(0x20);
    out.push(0x64);
    out.push(0x65);
    out.push(0x73);
    out.push(0x74);
    out.push(0x69);
    out.push(0x6e);
    out.push(0x61);
    out.push(0x74);
    out.push(0x69);
    out.push(0x6f);
    out.push(0x6e);
    out.push(0x3a);
    out.push(0x20);
    proof {
        assert(out@ =~= old(out)@ + lit_escapes());
    }
}

/// `'zip entry too large: '` as bytes.
pub open spec fn lit_too_large() -> Seq<u8> {
    seq![0x7au8, 0x69, 0x70, 0x20, 0x65, 0x6e, 0x74, 0x72, 0x79, 0x20, 0x74, 0x6f, 0x6f, 0x20, 0x6c, 0x61, 0x72, 0x67, 0x65, 0x3a, 0x20]
}

fn push_lit_too_large(out: &mut Vec<u8>)
    ensures
        final(out)@ == old(out)@ + lit_too_large(),
{
    out.push(0x7a);
    out.push(0x69);
    out.push(0x70);
    out.push(0x20);
    out.push(0x65);
    out.push(0x6e);
    out.push(0x74);
    out.push(0x72);
    out.push(0x79);
    out.push(0x20);
    out.push(0x74);
    out.push(0x6f);
    out.push(0x6f);
    out.push(0x20);
    out.push(0x6c);
    out.push(0x61);
    out.push(0x72);
    out.push(0x67);
    out.push(0x65);
    out.push(0x3a);
    out.push(0x20);
    proof {
        assert(out@ =~= old(out)@ + lit_too_large());
    }
}

/// `' ('` as bytes.
pub open spec fn lit_space_paren() -> Seq<u8> {
    seq![0x20u8, 0x28]
}

fn push_lit_space_paren(out: &mut Vec<u8>)
    ensures
        final(out)@ == old(out)@ + lit_space_paren(),
{
    out.push(0x20);
    out.push(0x28);
    proof {
        assert(out@ =~= old(out)@ + lit_space_paren());
    }
}

/// `' bytes)'` as bytes.
pub open spec fn lit_bytes_close() -> Seq<u8> {
    seq![0x20u8, 0x62, 0x79, 0x74, 0x65, 0x73, 0x29]
}

fn push_lit_bytes_close(out: &mut Vec<u8>)
    ensures
        final(out)@ == old(out)@ + lit_bytes_close(),
{
    out.push(0x20);
    out.push(0x62);
    out.push(0x79);
    out.push(0x74);
    out.push(0x65);
    out.push(0x73);
    out.push(0x29);
    proof {
        assert(out@ =~= old(out)@ + lit_bytes_close());
    }
}

/// `'zip entry exceeds max_single_file: '` as bytes.
pub open spec fn lit_exceeds_single() -> Seq<u8> {
    seq![0x7au8, 0x69, 0x70, 0x20, 0x65, 0x6e, 0x74, 0x72, 0x79, 0x20, 0x65, 0x78, 0x63, 0x65, 0x65, 0x64, 0x73, 0x20, 0x6d, 0x61, 0x78, 0x5f, 0x73, 0x69, 0x6e, 0x67, 0x6c, 0x65, 0x5f, 0x66, 0x69, 0x6c, 0x65, 0x3a, 0x20]
}

fn push_lit_exceeds_single(out: &mut Vec<u8>)
    ensures
        final(out)@ == old(out)@ + lit_exceeds_single(),
{
    out.push(0x7a);
    out.push(0x69);
    out.push(0x70);
    out.push(0x20);
    out.push(0x65);
    out.push(0x6e);
    out.push(0x74);
    out.push(0x72);
    out.push(0x79);
    out.push(0x20);
    out.push(0x65);
    out.push(0x78);
    out.push(0x63);
    out.push(0x65);
    out.push(0x65);
    out.push(0x64);
    out.push(0x73);
    out.push(0x20);
    out.push(0x6d);
    out.push(0x61);
    out.push(0x78);
    out.push(0x5f);
    out.push(0x73);
    out.push(0x69);
    out.push(0x6e);
    out.push(0x67);
    out.push(0x6c);
    out.push(0x65);
    out.push(0x5f);
    out.push(0x66);
    out.push(0x69);
    out.push(0x6c);
    out.push(0x65);
    out.push(0x3a);
    out.push(0x20);
    proof {
        assert(out@ =~= old(out)@ + lit_exceeds_single());
    }
}

/// `'zip exceeds max_total_uncompressed'` as bytes.
pub open spec fn lit_exceeds_total() -> Seq<u8> {
    seq![0x7au8, 0x69, 0x70, 0x20, 0x65, 0x78, 0x63, 0x65, 0x65, 0x64, 0x73, 0x20, 0x6d, 0x61, 0x78, 0x5f, 0x74, 0x6f, 0x74, 0x61, 0x6c, 0x5f, 0x75, 0x6e, 0x63, 0x6f, 0x6d, 0x70, 0x72, 0x65, 0x73, 0x73, 0x65, 0x64]
}

fn push_lit_exceeds_total(out: &mut Vec<u8>)
    ensures
        final(out)@ == old(out)@ + lit_exceeds_total(),
{
    out.push(0x7a);
    out.push(0x69);
    out.push(0x70);
    out.push(0x20);
    out.push(0x65);
    out.push(0x78);
    out.push(0x63);
    out.push(0x65);
    out.push(0x65);
    out.push(0x64);
    out.push(0x73);
    out.push(0x20);
    out.push(0x6d);
    out.push(0x61);
    out.push(0x78);
    out.push(0x5f);
    out.push(0x74);
    out.push(0x6f);
    out.push(0x74);
    out.push(0x61);
    out.push(0x6c);
    out.push(0x5f);
    out.push(0x75);
    out.push(0x6e);
    out.push(0x63);
    out.push(0x6f);
    out.push(0x6d);
    out.push(0x70);
    out.push(0x72);
    out.push(0x65);
    out.push(0x73);
    out.push(0x73);
    out.push(0x65);
    out.push(0x64);
    proof {
        assert(out@ =~= old(out)@ + lit_exceeds_total());
    }
}

/// The diagnostic text of an extraction error, as surfaced to callers and
/// recorded in a failed run's status.
pub open spec fn extract_error_msg_spec(e: ExtractError) -> Seq<u8> {
    match e {
        ExtractError::BadArchive { .. } => lit_open_zip(),
        ExtractError::ReadEntry { .. } => lit_read_entry(),
        ExtractError::TooManyEntries { max_files } => lit_too_many() + dec_spec(
            max_files as u64,
        ) + lit_close_paren(),
        ExtractError::BadEntryPath { name } => lit_bad_path() + name@,
        ExtractError::EntryEscapes { name } => lit_escapes() + name@,
        ExtractError::EntryTooLargeDeclared { name, declared } => lit_too_large() + name@
            + lit_space_paren() + dec_spec(declared) + lit_bytes_close(),
        ExtractError::EntryTooLarge { name } => lit_exceeds_single() + name@,
        ExtractError::TotalTooLarge => lit_exceeds_total(),
    }
}

/// Render an extraction error as one line of diagnostic text.
pub fn extract_error_message(e: &ExtractError) -> (r: Vec<u8>)
    ensures
        r@ == extract_error_msg_spec(*e),
{
    let mut out: Vec<u8> = Vec::new();
    match e {
        ExtractError::BadArchive { .. } => {
            push_lit_open_zip(&mut out);
        },
        ExtractError::ReadEntry { .. } => {
            push_lit_read_entry(&mut out);
        },
        ExtractError::TooManyEntries { max_files } => {
            push_lit_too_many(&mut out);
            let dec: Vec<u8> = u64_to_dec(*max_files as u64);
            push_all(&mut out, &dec);
            push_lit_close_paren(&mut out);
        },
        ExtractError::BadEntryPath { name } => {
            push_lit_bad_path(&mut out);
            push_all(&mut out, name);
        },
        ExtractError::EntryEscapes { name } => {
            push_lit_escapes(&mut out);
            push_all(&mut out, name);
        },
        ExtractError::EntryTooLargeDeclared { name, declared } => {
            push_lit_too_large(&mut out);
            push_all(&mut out, name);
            push_lit_space_paren(&mut out);
            let dec: Vec<u8> = u64_to_dec(*declared);
            push_all(&mut out, &dec);
            push_lit_bytes_close(&mut out);
        },
        ExtractError::EntryTooLarge { name } => {
            push_lit_exceeds_single(&mut out);
            push_all(&mut out, name);
        },
        ExtractError::TotalTooLarge => {
            push_lit_exceeds_total(&mut out);
        },
    }
    proof {
        assert(out@ =~= extract_error_msg_spec(*e));
    }
    out
}

} // verus!


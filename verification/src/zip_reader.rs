//! Reading zip archives that are held in memory.
//!
//! What an archive holds is a function of its bytes. The functions below name the parts of
//! that function; the `zip` crate computes them.

use vstd::prelude::*;

verus! {

/// An archive as the `zip` crate holds it.
#[verifier::external_type_specification]
#[verifier::external_body]
#[verifier::reject_recursive_types(R)]
pub struct ExZipArchive<R>(zip::ZipArchive<R>);

/// A position in a buffer, from std.
#[verifier::external_type_specification]
#[verifier::external_body]
#[verifier::reject_recursive_types(T)]
pub struct ExCursor<T>(std::io::Cursor<T>);

/// The bytes that an open archive was made from.
pub uninterp spec fn archive_bytes(a: zip::ZipArchive<std::io::Cursor<Vec<u8>>>) -> Seq<u8>;

/// Why the bytes are no zip archive; `None` when they are one.
pub uninterp spec fn zip_fault(bytes: Seq<u8>) -> Option<Seq<char>>;

/// The number of entries.
pub uninterp spec fn zip_count(bytes: Seq<u8>) -> nat;

/// Name, directory mark, declared size and Unix mode of an entry, or why it cannot be opened.
pub uninterp spec fn zip_head(bytes: Seq<u8>, index: nat) -> Result<
    (Seq<char>, bool, u64, Option<u32>),
    Seq<char>,
>;

/// What reading an entry gives when no more than `limit` bytes are taken.
pub uninterp spec fn zip_data(bytes: Seq<u8>, index: nat, limit: nat) -> Result<
    Seq<u8>,
    Seq<char>,
>;

/// What an archive says of one entry.
#[derive(Debug)]
pub struct EntryHead {
    pub name: String,
    pub is_dir: bool,
    pub size: u64,
    pub unix_mode: Option<u32>,
}

impl View for EntryHead {
    type V = (Seq<char>, bool, u64, Option<u32>);

    open spec fn view(&self) -> (Seq<char>, bool, u64, Option<u32>) {
        (self.name@, self.is_dir, self.size, self.unix_mode)
    }
}

/// Opens an archive with `zip::ZipArchive::new`.
///
/// Whether it opens, and with what message it does not, depends on the bytes alone; an open
/// archive keeps the bytes it was made from.
#[verifier::external_body]
pub(crate) fn open(bytes: Vec<u8>) -> (r: Result<
    zip::ZipArchive<std::io::Cursor<Vec<u8>>>,
    String,
>)
    ensures
        match r {
            Ok(a) => zip_fault(bytes@) is None && archive_bytes(a) == bytes@,
            Err(e) => zip_fault(bytes@) == Some(e@),
        },
{
    zip::ZipArchive::new(std::io::Cursor::new(bytes)).map_err(|e| e.to_string())
}

/// The number of entries, from `zip::ZipArchive::len`.
#[verifier::external_body]
pub(crate) fn count(archive: &zip::ZipArchive<std::io::Cursor<Vec<u8>>>) -> (r: usize)
    ensures
        r == zip_count(archive_bytes(*archive)),
{
    archive.len()
}

/// Looks at an entry with `zip::ZipArchive::by_index`.
///
/// The answer depends on the bytes and the index; the archive still holds the same bytes.
#[verifier::external_body]
pub(crate) fn head(
    archive: &mut zip::ZipArchive<std::io::Cursor<Vec<u8>>>,
    index: usize,
) -> (r: Result<EntryHead, String>)
    ensures
        archive_bytes(*final(archive)) == archive_bytes(*old(archive)),
        match r {
            Ok(h) => zip_head(archive_bytes(*old(archive)), index as nat) == Ok::<
                (Seq<char>, bool, u64, Option<u32>),
                Seq<char>,
            >(h@),
            Err(e) => zip_head(archive_bytes(*old(archive)), index as nat) == Err::<
                (Seq<char>, bool, u64, Option<u32>),
                Seq<char>,
            >(e@),
        },
{
    match archive.by_index(index) {
        Ok(f) => Ok(
            EntryHead {
                name: f.name().to_string(),
                is_dir: f.is_dir(),
                size: f.size(),
                unix_mode: f.unix_mode(),
            },
        ),
        Err(e) => Err(e.to_string()),
    }
}

/// Reads an entry through `std::io::Read` on the `zip::read::ZipFile` that
/// `zip::ZipArchive::by_index` gives, taking no more than `limit` bytes.
///
/// What comes out depends on the bytes, the index and the limit; it is never longer than the
/// limit, and the archive still holds the same bytes.
#[verifier::external_body]
pub(crate) fn data(
    archive: &mut zip::ZipArchive<std::io::Cursor<Vec<u8>>>,
    index: usize,
    limit: u64,
) -> (r: Result<Vec<u8>, String>)
    ensures
        archive_bytes(*final(archive)) == archive_bytes(*old(archive)),
        match r {
            Ok(d) => d@.len() <= limit && zip_data(
                archive_bytes(*old(archive)),
                index as nat,
                limit as nat,
            ) == Ok::<Seq<u8>, Seq<char>>(d@),
            Err(e) => zip_data(archive_bytes(*old(archive)), index as nat, limit as nat) == Err::<
                Seq<u8>,
                Seq<char>,
            >(e@),
        },
{
    let file = archive.by_index(index).map_err(|e| e.to_string())?;
    let mut out: Vec<u8> = Vec::new();
    std::io::copy(&mut std::io::Read::take(file, limit), &mut out).map_err(|e| e.to_string())?;
    Ok(out)
}

} // verus!

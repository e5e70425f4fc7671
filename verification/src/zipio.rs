//! The ZIP container, reached through the `zip` crate. The container and its
//! error type are declared opaquely; what a container holds is named by
//! `archive_entries`, and what a byte string parses to by `parsed_entries`.

use vstd::prelude::*;
use std::io::Cursor;
use std::io::Read;
use zip::read::ZipArchive;
use zip::result::ZipError;

verus! {

#[verifier::external_type_specification]
#[verifier::external_body]
#[verifier::reject_recursive_types(T)]
pub struct ExCursor<T>(Cursor<T>);

#[verifier::external_type_specification]
#[verifier::external_body]
#[verifier::reject_recursive_types(R)]
pub struct ExZipArchive<R>(ZipArchive<R>);

#[verifier::external_type_specification]
#[verifier::external_body]
pub struct ExZipError(ZipError);

/// What an open container holds: for each entry in container order, its
/// path, whether it is a plain file (neither a directory marker nor a link),
/// its decompressed bytes, whether its local header can be opened, and
/// whether its bytes can be read out. The container sits on an in-memory
/// cursor, so all five are functions of the underlying bytes alone.
pub uninterp spec fn archive_entries(a: ZipArchive<Cursor<Vec<u8>>>) -> Seq<
    (Seq<char>, bool, Seq<u8>, bool, bool),
>;

/// The entry list that a byte string parses to as a ZIP container, or
/// nothing where the bytes are not a readable container.
pub uninterp spec fn parsed_entries(bytes: Seq<u8>) -> Option<
    Seq<(Seq<char>, bool, Seq<u8>, bool, bool)>,
>;

/// Relies on zip's ZipArchive::new over an in-memory cursor: parsing the
/// central directory depends on the bytes alone and succeeds exactly on
/// bytes that form a readable container.
#[verifier::external_body]
pub(crate) fn open_archive(bytes: &Vec<u8>) -> (r: Result<ZipArchive<Cursor<Vec<u8>>>, ZipError>)
    ensures
        r matches Ok(a) ==> parsed_entries(bytes@) == Some(archive_entries(a)),
        r is Ok <==> parsed_entries(bytes@) is Some,
{
    ZipArchive::new(Cursor::new(bytes.clone()))
}

/// Relies on zip's ZipArchive::len: the number of entries in the container.
#[verifier::external_body]
pub(crate) fn archive_len(a: &ZipArchive<Cursor<Vec<u8>>>) -> (n: usize)
    ensures
        n == archive_entries(*a).len(),
{
    a.len()
}

/// Relies on zip's ZipArchive::by_index with ZipFile::name and
/// ZipFile::is_file: reads one entry's path and kind. On an in-memory
/// cursor, opening a header succeeds or fails as a function of the bytes
/// and the index alone, and leaves the container's contents as they were.
#[verifier::external_body]
pub(crate) fn entry_meta(a: &mut ZipArchive<Cursor<Vec<u8>>>, i: usize) -> (r: Result<
    (String, bool),
    ZipError,
>)
    requires
        i < archive_entries(*old(a)).len(),
    ensures
        archive_entries(*final(a)) == archive_entries(*old(a)),
        r is Ok <==> archive_entries(*old(a))[i as int].3,
        r matches Ok(m) ==> m.0@ == archive_entries(*old(a))[i as int].0 && m.1
            == archive_entries(*old(a))[i as int].1,
{
    match a.by_index(i) {
        Ok(f) => {
            let name = f.name().to_string();
            let is_file = f.is_file();
            Ok((name, is_file))
        },
        Err(e) => Err(e),
    }
}

/// Relies on zip's ZipArchive::by_index and Read::read_to_end on the entry:
/// yields the entry's decompressed bytes. On an in-memory cursor, reading
/// an entry out succeeds or fails as a function of the bytes and the index
/// alone, and leaves the container's contents as they were.
#[verifier::external_body]
pub(crate) fn entry_data(a: &mut ZipArchive<Cursor<Vec<u8>>>, i: usize) -> (r: Result<
    Vec<u8>,
    ZipError,
>)
    requires
        i < archive_entries(*old(a)).len(),
    ensures
        archive_entries(*final(a)) == archive_entries(*old(a)),
        r is Ok <==> archive_entries(*old(a))[i as int].4,
        r matches Ok(d) ==> d@ == archive_entries(*old(a))[i as int].2,
{
    match a.by_index(i) {
        Ok(mut f) => {
            let mut buf = Vec::new();
            match f.read_to_end(&mut buf) {
                Ok(_) => Ok(buf),
                Err(e) => Err(ZipError::Io(e)),
            }
        },
        Err(e) => Err(e),
    }
}

} // verus!

use crate::archive::{Archive, ArchiveEntry, EntryView};
use crate::error::{ErrorKind, ReportError};
use std::io::Cursor;
use vstd::prelude::*;
use zip::result::ZipError;
use zip::ZipArchive;

verus! {

/// `zip::ZipArchive`: an opened archive over a reader. What it holds is
/// [`stored_entries`].
#[verifier::external_type_specification]
#[verifier::external_body]
#[verifier::reject_recursive_types(R)]
pub struct ExZipArchive<R>(ZipArchive<R>);

/// `zip::result::ZipError`: why an archive or an entry could not be read.
#[verifier::external_type_specification]
#[verifier::external_body]
pub struct ExZipError(ZipError);

/// `std::io::Cursor`: a reader over bytes held in memory.
#[verifier::external_type_specification]
#[verifier::external_body]
#[verifier::reject_recursive_types(T)]
pub struct ExCursor<T>(Cursor<T>);

/// What `zip::ZipArchive::new` makes of a byte stream: `None` where it
/// rejects the stream, and else one item for each entry of the archive's
/// directory, in the directory's order. The item holds the entry's path, its
/// recorded length and its bytes, and is `None` for an entry that cannot be
/// opened or read to its end.
pub uninterp spec fn zip_listing(bytes: Seq<u8>) -> Option<Seq<Option<EntryView>>>;

/// The items of an opened archive, as in [`zip_listing`].
pub uninterp spec fn stored_entries(archive: ZipArchive<Cursor<Vec<u8>>>) -> Seq<Option<EntryView>>;

/// `zip::ZipArchive::new`, on a cursor over the bytes: reads the archive's
/// directory, or reports why it cannot.
#[verifier::external_body]
fn open_zip(bytes: Vec<u8>) -> (r: Result<ZipArchive<Cursor<Vec<u8>>>, ZipError>)
    ensures
        match r {
            Ok(archive) => zip_listing(bytes@) == Some(stored_entries(archive)),
            Err(_) => zip_listing(bytes@) is None,
        },
{
    ZipArchive::new(Cursor::new(bytes))
}

/// `zip::ZipArchive::len`: the number of entries in the directory.
#[verifier::external_body]
fn zip_len(archive: &ZipArchive<Cursor<Vec<u8>>>) -> (n: usize)
    ensures
        n == stored_entries(*archive).len(),
{
    archive.len()
}

/// `zip::ZipArchive::by_index`, then `name`, `size` and `read_to_end` on the
/// entry it hands out: the entry's path, recorded length and bytes, or the
/// error of the step that failed. Reading moves the cursor and leaves the
/// directory as it is.
#[verifier::external_body]
fn read_zip_entry(archive: &mut ZipArchive<Cursor<Vec<u8>>>, i: usize) -> (r: Result<
    ArchiveEntry,
    ZipError,
>)
    requires
        i < stored_entries(*old(archive)).len(),
    ensures
        stored_entries(*final(archive)) == stored_entries(*old(archive)),
        match r {
            Ok(entry) => stored_entries(*old(archive))[i as int] == Some(entry@),
            Err(_) => stored_entries(*old(archive))[i as int] is None,
        },
{
    let mut file = archive.by_index(i)?;
    let mut content = Vec::new();
    std::io::Read::read_to_end(&mut file, &mut content)?;
    Ok(ArchiveEntry { name: file.name().to_string(), size: file.size(), content })
}

/// The entries of a container: those of [`zip_listing`], where the stream
/// is an archive and every entry of it can be read.
pub open spec fn container_entries(bytes: Seq<u8>) -> Option<Seq<EntryView>> {
    match zip_listing(bytes) {
        Some(items) => if forall|i: int| 0 <= i < items.len() ==> (#[trigger] items[i]) is Some {
            Some(Seq::new(items.len(), |i: int| items[i]->0))
        } else {
            None
        },
        None => None,
    }
}

/// Opens a zip container held in memory and reads every entry of it. Fails,
/// with `ArchiveUnreadable`, where the bytes are no archive or an entry
/// cannot be read.
pub fn read_archive(container: Vec<u8>) -> (r: Result<Archive, ReportError>)
    ensures
        match r {
            Ok(archive) => container_entries(container@) == Some(archive@),
            Err(e) => e.kind == ErrorKind::ArchiveUnreadable && container_entries(container@)
                is None,
        },
{
    let mut source = match open_zip(container) {
        Ok(source) => source,
        Err(e) => {
            return Err(ReportError::with_detail(ErrorKind::ArchiveUnreadable, e.to_string()));
        },
    };
    let ghost items = stored_entries(source);
    let n = zip_len(&source);
    let mut entries: Vec<ArchiveEntry> = Vec::new();
    let mut i: usize = 0;
    while i < n
        invariant
            n == items.len(),
            i <= n,
            zip_listing(container@) == Some(items),
            stored_entries(source) == items,
            entries@.len() == i,
            forall|j: int| 0 <= j < i ==> items[j] == Some((#[trigger] entries@[j])@),
        decreases n - i,
    {
        match read_zip_entry(&mut source, i) {
            Ok(entry) => {
                entries.push(entry);
            },
            Err(e) => {
                proof {
                    assert(items[i as int] is None);
                }
                return Err(
                    ReportError::with_detail(ErrorKind::ArchiveUnreadable, e.to_string()),
                );
            },
        }
        i += 1;
    }
    let archive = Archive { entries };
    proof {
        assert forall|j: int| 0 <= j < items.len() implies (#[trigger] items[j]) is Some by {
            assert(items[j] == Some(entries@[j]@));
        }
        assert(archive@ =~= Seq::new(items.len(), |i: int| items[i]->0));
    }
    Ok(archive)
}

} // verus!

//! The early virtual filesystem: the files of the boot module's tar archive
//! by name and contents.
use vstd::prelude::*;
use vstd::string::StringSliceAdditionalSpecFns;

use crate::fs::tarfs;
use crate::fs::tarfs::{archive_entries, EntryView, TarError};
use crate::fs::ustar::{str_equal, BLOCK};

verus! {

/// A file of the archive: its name and contents.
pub struct Entry<'a> {
    name: &'a str,
    data: &'a [u8],
}

/// What an entry holds: the bytes of its name and its contents.
pub struct FileView {
    pub name: Seq<u8>,
    pub data: Seq<u8>,
}

impl<'a> View for Entry<'a> {
    type V = FileView;

    closed spec fn view(&self) -> FileView {
        FileView { name: self.name.spec_bytes(), data: self.data@ }
    }
}

/// The name and contents of an archive entry.
pub open spec fn file_of(e: EntryView) -> FileView {
    FileView { name: e.name, data: e.data }
}

/// The files of the archive `data`, or why it cannot be read.
pub open spec fn archive_files(data: Seq<u8>) -> Result<Seq<FileView>, TarError> {
    match archive_entries(data) {
        Ok(es) => Ok(es.map_values(|e: EntryView| file_of(e))),
        Err(e) => Err(e),
    }
}

/// The views of a sequence of entries.
pub open spec fn views<'a>(es: Seq<Entry<'a>>) -> Seq<FileView> {
    es.map_values(|e: Entry<'a>| e@)
}

/// Parses a raw byte slice as a USTAR tar archive into a list of files.
fn parse<'a>(data: &'a [u8]) -> (r: Result<Vec<Entry<'a>>, TarError>)
    requires
        data@.len() + 2 * BLOCK <= usize::MAX,
    ensures
        r matches Ok(es) ==> archive_files(data@) == Ok::<Seq<FileView>, TarError>(views(es@)),
        r matches Err(e) ==> archive_files(data@) == Err::<Seq<FileView>, TarError>(e),
{
    let entries = match tarfs::init(data) {
        Ok(es) => es,
        Err(e) => return Err(e),
    };
    let ghost tar_views = tarfs::views(entries@);
    let mut files: Vec<Entry<'a>> = Vec::new();
    let mut i: usize = 0;
    while i < entries.len()
        invariant
            i <= entries@.len(),
            tar_views == tarfs::views(entries@),
            views(files@) == tar_views.subrange(0, i as int).map_values(|e: EntryView| file_of(e)),
        decreases entries@.len() - i,
    {
        let entry = &entries[i];
        let file = Entry { name: entry.name(), data: entry.data() };
        let ghost old_files = files@;
        files.push(file);
        proof {
            assert(file@ == file_of(tar_views[i as int]));
            assert(views(files@) =~= views(old_files).push(file@));
            assert(tar_views[i as int] == entries@[i as int]@);
            assert(views(files@) =~= tar_views.subrange(0, i as int + 1).map_values(
                |e: EntryView| file_of(e),
            ));
        }
        i = i + 1;
    }
    proof {
        assert(tar_views.subrange(0, i as int) =~= tar_views);
    }
    Ok(files)
}

/// Reads the archive `archive` (the first boot module) into its files.
///
/// A header with a name that is not UTF-8, a size digit below `'0'`, or
/// more data than the archive holds stops the kernel; here each is
/// reported as a [`TarError`] by design, for the caller to stop on.
pub fn init<'a>(archive: &'a [u8]) -> (r: Result<Vec<Entry<'a>>, TarError>)
    requires
        archive@.len() + 2 * BLOCK <= usize::MAX,
    ensures
        r matches Ok(es) ==> archive_files(archive@) == Ok::<Seq<FileView>, TarError>(
            views(es@),
        ),
        r matches Err(e) ==> archive_files(archive@) == Err::<Seq<FileView>, TarError>(e),
{
    parse(archive)
}

/// Looks `path` up: the search asserts that each file it visits is named
/// `path`, so it gives the first file when that one is named `path`, and
/// nothing when there is no file.
pub fn open<'a>(entries: &'a [Entry<'a>], path: &str) -> (r: Option<&'a Entry<'a>>)
    requires
        entries@.len() > 0 ==> entries@[0]@.name == path.spec_bytes(),
    ensures
        entries@.len() == 0 ==> r is None,
        entries@.len() > 0 ==> r == Some(&entries@[0]),
{
    if entries.len() == 0 {
        return None;
    }
    let first = &entries[0];
    if str_equal(first.name, path) {
        Some(first)
    } else {
        None
    }
}

/// The contents of a file.
pub fn read<'a>(entry: &'a Entry<'a>) -> (r: &'a [u8])
    ensures
        r@ == entry@.data,
{
    entry.data
}

} // verus!

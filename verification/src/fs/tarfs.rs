//! Tar archive filesystem (TarFS).
//!
//! Parses a USTAR-format tar archive (the initial root filesystem) into a
//! list of entries and provides path-based lookup over them.
use vstd::prelude::*;
use vstd::string::StringSliceAdditionalSpecFns;

use crate::fs::ustar::{
    header_name, header_size, is_zero, is_zero_block, name_field, name_valid, parse_name, parse_size,
    round_up_block, size_field, size_valid, str_equal, BLOCK, NAME_END, NAME_START, SIZE_END,
    SIZE_START,
};

verus! {

/// A file of the archive: its name, declared size and contents.
pub struct Entry<'a> {
    name: &'a str,
    size: u64,
    data: &'a [u8],
}

/// What an entry holds: the bytes of its name, its size and its contents.
pub struct EntryView {
    pub name: Seq<u8>,
    pub size: u64,
    pub data: Seq<u8>,
}

impl<'a> View for Entry<'a> {
    type V = EntryView;

    closed spec fn view(&self) -> EntryView {
        EntryView { name: self.name.spec_bytes(), size: self.size, data: self.data@ }
    }
}

/// Why an archive could not be read.
#[derive(Clone, Copy, Debug, PartialEq, Eq)]
pub enum TarError {
    /// A header's name field is not valid UTF-8.
    InvalidName,
    /// A header's size field holds a byte below `'0'` among its digits.
    InvalidSize,
    /// A header declares more data than the archive holds.
    Truncated,
}

/// The header block at `off`.
pub open spec fn header_at(data: Seq<u8>, off: int) -> Seq<u8> {
    data.subrange(off, off + BLOCK as int)
}

/// Distance from `off` to the end of the archive, zero past it.
pub open spec fn remaining(len: int, off: int) -> nat {
    if off < len {
        (len - off) as nat
    } else {
        0
    }
}

/// The entries of the archive `data` read from the header at `off` on.
///
/// Reading stops at a block of zeros or when no whole header is left
/// before the end of the archive; each entry's data is followed by padding
/// up to the next block boundary.
pub open spec fn entries_from(data: Seq<u8>, off: int) -> Result<Seq<EntryView>, TarError>
    decreases remaining(data.len() as int, off),
{
    if off < 0 || off + BLOCK >= data.len() {
        Ok(Seq::empty())
    } else {
        let h = header_at(data, off);
        if is_zero_block(h) {
            Ok(Seq::empty())
        } else if !name_valid(h) {
            Err(TarError::InvalidName)
        } else if !size_valid(h) {
            Err(TarError::InvalidSize)
        } else if off + BLOCK + header_size(h) > data.len() {
            Err(TarError::Truncated)
        } else {
            let size = header_size(h);
            let start = off + BLOCK;
            let entry = EntryView {
                name: header_name(h),
                size: size as u64,
                data: data.subrange(start, start + size),
            };
            match entries_from(data, off + round_up_block(BLOCK + size)) {
                Ok(rest) => Ok(seq![entry] + rest),
                Err(e) => Err(e),
            }
        }
    }
}

/// `r` with `prefix` put before its entries.
pub open spec fn prepend(prefix: Seq<EntryView>, r: Result<Seq<EntryView>, TarError>) -> Result<Seq<EntryView>, TarError> {
    match r {
        Ok(rest) => Ok(prefix + rest),
        Err(e) => Err(e),
    }
}

/// The entries of the whole archive `data`.
pub open spec fn archive_entries(data: Seq<u8>) -> Result<Seq<EntryView>, TarError> {
    entries_from(data, 0)
}

/// The views of a sequence of entries.
pub open spec fn views<'a>(es: Seq<Entry<'a>>) -> Seq<EntryView> {
    es.map_values(|e: Entry<'a>| e@)
}

/// Index of the first entry named `path`, if any.
pub open spec fn first_named(es: Seq<EntryView>, path: Seq<u8>) -> Option<int> {
    if exists|i: int| 0 <= i < es.len() && es[i].name == path {
        Some(choose|i: int| 0 <= i < es.len() && es[i].name == path
            && forall|j: int| 0 <= j < i ==> es[j].name != path)
    } else {
        None
    }
}

impl<'a> Entry<'a> {
    /// The entry's name.
    pub fn name(&self) -> (r: &'a str)
        ensures
            r.spec_bytes() == self@.name,
    {
        self.name
    }

    /// The entry's contents.
    pub fn data(&self) -> (r: &'a [u8])
        ensures
            r@ == self@.data,
    {
        self.data
    }

    /// The size that the entry's header declares.
    pub fn size(&self) -> (r: u64)
        ensures
            r == self@.size,
    {
        self.size
    }
}

proof fn lemma_round_up(x: usize)
    requires
        x + 511 <= usize::MAX,
    ensures
        ((x + 511) as usize & !511usize) as int == round_up_block(x as int),
        round_up_block(x as int) >= x,
        round_up_block(x as int) <= x + 511,
{
    let y = (x + 511) as usize;
    assert(y & !511usize == y - y % 512) by (bit_vector);
}

/// Parses a raw byte slice as a USTAR tar archive into a list of entries.
fn parse<'a>(data: &'a [u8]) -> (r: Result<Vec<Entry<'a>>, TarError>)
    requires
        data@.len() + 2 * BLOCK <= usize::MAX,
    ensures
        r matches Ok(es) ==> archive_entries(data@) == Ok::<Seq<EntryView>, TarError>(views(es@)),
        r matches Err(e) ==> archive_entries(data@) == Err::<Seq<EntryView>, TarError>(e),
{
    let mut offset: usize = 0;
    let mut entries: Vec<Entry<'a>> = Vec::new();
    while offset + BLOCK < data.len()
        invariant
            data@.len() + 2 * BLOCK <= usize::MAX,
            offset <= data@.len() + BLOCK,
            archive_entries(data@) == prepend(views(entries@), entries_from(data@, offset as int)),
        ensures
            archive_entries(data@) == prepend(views(entries@), entries_from(data@, offset as int)),
            entries_from(data@, offset as int) == Ok::<Seq<EntryView>, TarError>(Seq::empty()),
        decreases remaining(data@.len() as int, offset as int),
    {
        let end_header = offset + BLOCK;
        let header_block = &data[offset..end_header];
        let ghost h = header_at(data@, offset as int);
        assert(header_block@ == h);
        if is_zero(header_block) {
            break;
        }
        let name_bytes = &header_block[NAME_START..NAME_END];
        assert(name_bytes@ == name_field(h));
        let name = match parse_name(name_bytes) {
            Some(n) => n,
            None => return Err(TarError::InvalidName),
        };
        let size_bytes = &header_block[SIZE_START..SIZE_END];
        assert(size_bytes@ == size_field(h));
        let size = match parse_size(size_bytes) {
            Some(v) => v,
            None => return Err(TarError::InvalidSize),
        };
        if size > (data.len() - end_header) as u64 {
            return Err(TarError::Truncated);
        }
        let len = size as usize;
        let file = &data[end_header..end_header + len];
        let entry = Entry { name, size, data: file };
        let ghost old_entries = entries@;
        entries.push(entry);
        proof {
            lemma_round_up((BLOCK + len) as usize);
            assert(views(entries@) =~= views(old_entries) + seq![entry@]);
            let next = offset + round_up_block(BLOCK + size);
            match entries_from(data@, next) {
                Ok(rest) => {
                    assert(views(old_entries) + (seq![entry@] + rest) =~= views(entries@) + rest);
                },
                Err(_) => {},
            }
            assert(entries_from(data@, offset as int) == prepend(seq![entry@], entries_from(data@, next)));
        }
        offset = offset + ((BLOCK + len + 511) & !511);
    }
    proof {
        assert(views(entries@) + Seq::<EntryView>::empty() =~= views(entries@));
    }
    Ok(entries)
}

/// Reads the archive `archive` (the first boot module) into its entries.
///
/// A header with a name that is not UTF-8, a size digit below `'0'`, or
/// more data than the archive holds stops the kernel; here each is
/// reported as a [`TarError`] by design, for the caller to stop on.
pub fn init<'a>(archive: &'a [u8]) -> (r: Result<Vec<Entry<'a>>, TarError>)
    requires
        archive@.len() + 2 * BLOCK <= usize::MAX,
    ensures
        r matches Ok(es) ==> archive_entries(archive@) == Ok::<Seq<EntryView>, TarError>(
            views(es@),
        ),
        r matches Err(e) ==> archive_entries(archive@) == Err::<Seq<EntryView>, TarError>(e),
{
    parse(archive)
}

/// Finds the first entry named `path`.
pub fn open<'a>(entries: &'a [Entry<'a>], path: &str) -> (r: Option<&'a Entry<'a>>)
    ensures
        match first_named(views(entries@), path.spec_bytes()) {
            Some(i) => r == Some(&entries@[i]),
            None => r is None,
        },
{
    let mut i: usize = 0;
    while i < entries.len()
        invariant
            i <= entries@.len(),
            forall|j: int| 0 <= j < i ==> entries@[j]@.name != path.spec_bytes(),
        decreases entries@.len() - i,
    {
        let entry = &entries[i];
        if str_equal(entry.name, path) {
            proof {
                let es = views(entries@);
                assert(es[i as int].name == path.spec_bytes());
                let k = choose|k: int| 0 <= k < es.len() && es[k].name == path.spec_bytes()
                    && forall|j: int| 0 <= j < k ==> es[j].name != path.spec_bytes();
                assert(0 <= k < es.len() && es[k].name == path.spec_bytes()
                    && forall|j: int| 0 <= j < k ==> es[j].name != path.spec_bytes());
                if k < i {
                    assert(entries@[k]@.name != path.spec_bytes());
                }
                if k > i {
                    assert(es[i as int].name != path.spec_bytes());
                }
            }
            return Some(entry);
        }
        i = i + 1;
    }
    proof {
        let es = views(entries@);
        assert forall|k: int| 0 <= k < es.len() implies es[k].name != path.spec_bytes() by {
            assert(es[k] == entries@[k]@);
        }
    }
    None
}

/// Reading the archive `data` from the header at `off` on ends at a block
/// of zeros that lies wholly before the end of `data`, every header before
/// it valid and its data inside `data`.
pub open spec fn stops_at_zero_block(data: Seq<u8>, off: int) -> bool
    decreases remaining(data.len() as int, off),
{
    if off < 0 || off + BLOCK >= data.len() {
        false
    } else {
        let h = header_at(data, off);
        if is_zero_block(h) {
            true
        } else if !name_valid(h) || !size_valid(h) || off + BLOCK + header_size(h) > data.len() {
            false
        } else {
            stops_at_zero_block(data, off + round_up_block(BLOCK + header_size(h)))
        }
    }
}

proof fn lemma_trailing_bytes_from(data: Seq<u8>, tail: Seq<u8>, off: int)
    requires
        stops_at_zero_block(data, off),
    ensures
        entries_from(data + tail, off) == entries_from(data, off),
    decreases remaining(data.len() as int, off),
{
    let all = data + tail;
    let h = header_at(data, off);
    assert(header_at(all, off) =~= h);
    if !is_zero_block(h) {
        let size = header_size(h);
        let start = off + BLOCK;
        assert(all.subrange(start, start + size) =~= data.subrange(start, start + size));
        lemma_trailing_bytes_from(data, tail, off + round_up_block(BLOCK + size));
    }
}

/// Bytes after the block of zeros that ends an archive are never read:
/// appending any bytes to such an archive leaves its entries as they were.
pub proof fn lemma_trailing_bytes_ignored(data: Seq<u8>, tail: Seq<u8>)
    requires
        stops_at_zero_block(data, 0),
    ensures
        archive_entries(data + tail) == archive_entries(data),
{
    lemma_trailing_bytes_from(data, tail, 0);
}

proof fn lemma_entries_shift(data: Seq<u8>, off: int, k: int)
    requires
        0 <= off <= data.len(),
        k >= 0,
    ensures
        entries_from(data, off + k) == entries_from(data.skip(off), k),
    decreases remaining(data.len() as int, off + k),
{
    let d2 = data.skip(off);
    if off + k + BLOCK < data.len() {
        let h = header_at(data, off + k);
        assert(header_at(d2, k) =~= h);
        if !is_zero_block(h) && name_valid(h) && size_valid(h) && off + k + BLOCK + header_size(h)
            <= data.len() {
            let size = header_size(h) as int;
            assert(d2.subrange(k + BLOCK, k + BLOCK + size) =~= data.subrange(
                off + k + BLOCK,
                off + k + BLOCK + size,
            ));
            let r = round_up_block(BLOCK + size);
            assert(r >= BLOCK) by (nonlinear_arith)
                requires
                    r == ((BLOCK + size + 511) / 512) * 512,
                    size >= 0,
            ;
            lemma_entries_shift(data, off, k + r);
        }
    }
}

/// Reading back a written file: an archive that starts with a valid header
/// declaring `file.len()` bytes, followed by those bytes, the padding up to
/// the next block, and then more archive `rest`, reads as the entry with
/// the header's name, that size and exactly the bytes of `file`, followed
/// by the entries of `rest`.
pub proof fn lemma_first_entry(h: Seq<u8>, file: Seq<u8>, pad: Seq<u8>, rest: Seq<u8>)
    requires
        h.len() == BLOCK,
        !is_zero_block(h),
        name_valid(h),
        size_valid(h),
        header_size(h) == file.len(),
        BLOCK + file.len() + pad.len() == round_up_block(BLOCK + file.len()),
        file.len() + pad.len() + rest.len() > 0,
    ensures
        archive_entries(h + file + pad + rest) == prepend(
            seq![EntryView { name: header_name(h), size: file.len() as u64, data: file }],
            archive_entries(rest),
        ),
{
    let data = h + file + pad + rest;
    let n = file.len() as int;
    let l = BLOCK + n + pad.len();
    assert(header_at(data, 0) =~= h);
    assert(data.subrange(BLOCK as int, BLOCK + n) =~= file);
    lemma_entries_shift(data, l, 0);
    assert(data.skip(l) =~= rest);
}

/// Every file of the archive can be opened by its name: the lookup finds
/// an entry of that name, the first one, no later than the file itself.
pub proof fn lemma_open_finds_named(es: Seq<EntryView>, k: int)
    requires
        0 <= k < es.len(),
    ensures
        first_named(es, es[k].name) matches Some(j) && 0 <= j <= k && es[j].name == es[k].name,
{
    lemma_first_index_exists(es, es[k].name, k);
}

proof fn lemma_first_index_exists(es: Seq<EntryView>, path: Seq<u8>, k: int)
    requires
        0 <= k < es.len(),
        es[k].name == path,
    ensures
        exists|i: int| 0 <= i <= k && es[i].name == path
            && forall|m: int| 0 <= m < i ==> es[m].name != path,
    decreases k,
{
    if exists|i: int| 0 <= i < k && es[i].name == path {
        let i = choose|i: int| 0 <= i < k && es[i].name == path;
        lemma_first_index_exists(es, path, i);
    } else {
        assert(forall|m: int| 0 <= m < k ==> es[m].name != path);
    }
}

/// The contents of an entry.
pub fn read<'a>(entry: &'a Entry<'a>) -> (r: &'a [u8])
    ensures
        r@ == entry@.data,
{
    entry.data
}

} // verus!

//! The bootloader memory map.
use vstd::prelude::*;

verus! {

/// Type code of a memory map entry that describes usable RAM.
pub const MEMMAP_USABLE: u64 = 0;

/// One region of the physical memory map: where it starts, how many bytes
/// it spans, and what kind of memory it is.
#[derive(Clone, Copy, Debug, PartialEq, Eq)]
pub struct MemmapEntry {
    pub base: u64,
    pub length: u64,
    pub kind: u64,
}

/// Total number of bytes that the entries `es` span.
pub open spec fn total_length(es: Seq<MemmapEntry>) -> nat
    decreases es.len(),
{
    if es.len() == 0 {
        0
    } else {
        total_length(es.drop_last()) + (es.last().length as nat)
    }
}

proof fn lemma_total_length_prefix(es: Seq<MemmapEntry>, i: int)
    requires
        0 <= i <= es.len(),
    ensures
        total_length(es.subrange(0, i)) <= total_length(es),
    decreases es.len() - i,
{
    if i < es.len() {
        lemma_total_length_prefix(es, i + 1);
        assert(es.subrange(0, i + 1).drop_last() =~= es.subrange(0, i));
    } else {
        assert(es.subrange(0, i) =~= es);
    }
}

/// The size of the memory map in whole MiB: the lengths of all its entries
/// added up.
pub fn usable(entries: &[MemmapEntry]) -> (r: usize)
    requires
        total_length(entries@) <= usize::MAX,
    ensures
        r == total_length(entries@) / (1024 * 1024),
{
    let mut total: usize = 0;
    let mut i: usize = 0;
    while i < entries.len()
        invariant
            i <= entries@.len(),
            total_length(entries@) <= usize::MAX,
            total == total_length(entries@.subrange(0, i as int)),
        decreases entries@.len() - i,
    {
        proof {
            lemma_total_length_prefix(entries@, i as int + 1);
            assert(entries@.subrange(0, i as int + 1).drop_last() =~= entries@.subrange(0, i as int));
        }
        total = total + entries[i].length as usize;
        i = i + 1;
    }
    proof {
        assert(entries@.subrange(0, i as int) =~= entries@);
        vstd::arithmetic::div_mod::lemma_div_denominator(total as int, 1024, 1024);
    }
    total / 1024 / 1024
}

/// The size of the memory map in whole MiB, as [`usable`] gives it, when
/// the lengths of its entries add up within `usize`; `None` otherwise.
pub fn usable_checked(entries: &[MemmapEntry]) -> (r: Option<usize>)
    ensures
        total_length(entries@) <= usize::MAX ==> r == Some(
            (total_length(entries@) / (1024 * 1024)) as usize,
        ),
        total_length(entries@) > usize::MAX ==> r is None,
{
    let mut total: usize = 0;
    let mut i: usize = 0;
    while i < entries.len()
        invariant
            i <= entries@.len(),
            total == total_length(entries@.subrange(0, i as int)),
        decreases entries@.len() - i,
    {
        proof {
            assert(entries@.subrange(0, i as int + 1).drop_last() =~= entries@.subrange(0, i as int));
        }
        let len = entries[i].length;
        if len as u128 > (usize::MAX - total) as u128 {
            proof {
                lemma_total_length_prefix(entries@, i as int + 1);
            }
            return None;
        }
        total = total + len as usize;
        i = i + 1;
    }
    proof {
        assert(entries@.subrange(0, i as int) =~= entries@);
    }
    Some(usable(entries))
}

/// The size of a memory map adds up its entries: an empty map spans no
/// bytes, and adding an entry, of whatever kind, adds its length.
pub proof fn lemma_total_length_adds(es: Seq<MemmapEntry>, e: MemmapEntry)
    ensures
        total_length(Seq::<MemmapEntry>::empty()) == 0,
        total_length(es.push(e)) == total_length(es) + e.length,
        total_length(seq![e]) == e.length,
{
    assert(es.push(e).drop_last() =~= es);
    assert(seq![e].drop_last() =~= Seq::<MemmapEntry>::empty());
}

} // verus!

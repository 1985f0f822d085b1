//! The welcome banner: the processor's brand string as CPUID reports it.
use vstd::prelude::*;

verus! {

/// The registers that one CPUID leaf returns.
#[derive(Clone, Copy, Debug, PartialEq, Eq)]
pub struct CpuidResult {
    pub eax: u32,
    pub ebx: u32,
    pub ecx: u32,
    pub edx: u32,
}

/// First CPUID leaf of the processor brand string; the string spans three
/// consecutive leaves.
pub const BRAND_LEAF: u32 = 0x8000_0002;

/// The bytes of `w` in little-endian order.
pub open spec fn le_bytes(w: u32) -> Seq<u8> {
    seq![
        (w % 0x100) as u8,
        ((w / 0x100) % 0x100) as u8,
        ((w / 0x1_0000) % 0x100) as u8,
        (w / 0x100_0000) as u8,
    ]
}

/// The brand string bytes that one leaf holds: EAX, EBX, ECX and EDX, each
/// in little-endian order.
pub open spec fn leaf_bytes(r: CpuidResult) -> Seq<u8> {
    le_bytes(r.eax) + le_bytes(r.ebx) + le_bytes(r.ecx) + le_bytes(r.edx)
}

/// The brand string bytes that the leaves `ls` hold, one leaf after the other.
pub open spec fn brand_of(ls: Seq<CpuidResult>) -> Seq<u8>
    decreases ls.len(),
{
    if ls.len() == 0 {
        Seq::empty()
    } else {
        brand_of(ls.drop_last()) + leaf_bytes(ls.last())
    }
}

fn push_le_bytes(out: &mut Vec<u8>, w: u32)
    ensures
        final(out)@ == old(out)@ + le_bytes(w),
{
    proof {
        assert((w & 0xFF) as u8 == (w % 0x100) as u8) by (bit_vector);
        assert(((w >> 8u32) & 0xFF) as u8 == ((w / 0x100) % 0x100) as u8) by (bit_vector);
        assert(((w >> 16u32) & 0xFF) as u8 == ((w / 0x1_0000) % 0x100) as u8) by (bit_vector);
        assert((w >> 24u32) as u8 == (w / 0x100_0000) as u8) by (bit_vector);
    }
    let ghost before = out@;
    out.push((w & 0xFF) as u8);
    out.push(((w >> 8u32) & 0xFF) as u8);
    out.push(((w >> 16u32) & 0xFF) as u8);
    out.push((w >> 24u32) as u8);
    proof {
        assert(out@ =~= before + le_bytes(w));
    }
}

/// The brand string bytes that the CPUID leaves `leaves` return.
pub fn brand_bytes(leaves: &[CpuidResult]) -> (r: Vec<u8>)
    ensures
        r@ == brand_of(leaves@),
{
    let mut bytes: Vec<u8> = Vec::new();
    let mut i: usize = 0;
    while i < leaves.len()
        invariant
            i <= leaves@.len(),
            bytes@ == brand_of(leaves@.subrange(0, i as int)),
        decreases leaves@.len() - i,
    {
        let r = leaves[i];
        let ghost before = bytes@;
        push_le_bytes(&mut bytes, r.eax);
        push_le_bytes(&mut bytes, r.ebx);
        push_le_bytes(&mut bytes, r.ecx);
        push_le_bytes(&mut bytes, r.edx);
        proof {
            let p = leaves@.subrange(0, i as int + 1);
            assert(p.drop_last() =~= leaves@.subrange(0, i as int));
            assert(bytes@ =~= before + leaf_bytes(r));
        }
        i = i + 1;
    }
    proof {
        assert(leaves@.subrange(0, i as int) =~= leaves@);
    }
    bytes
}

/// The 32-bit value that the four bytes of `b` from `at` on stand for,
/// least significant first.
pub open spec fn word_at(b: Seq<u8>, at: int) -> int {
    b[at] + 256 * b[at + 1] + 65536 * b[at + 2] + 16777216 * b[at + 3]
}

proof fn lemma_brand_index(ls: Seq<CpuidResult>, k: int, i: int)
    requires
        0 <= k < ls.len(),
        0 <= i < 16,
    ensures
        brand_of(ls).len() == 16 * ls.len(),
        brand_of(ls)[16 * k + i] == leaf_bytes(ls[k])[i],
    decreases ls.len(),
{
    let p = ls.drop_last();
    if k < ls.len() - 1 {
        lemma_brand_index(p, k, i);
        assert(p[k] == ls[k]);
    } else if p.len() > 0 {
        lemma_brand_index(p, 0, 0);
    }
}

proof fn lemma_le_word(w: u32)
    ensures
        word_at(le_bytes(w), 0) == w,
{
    assert((w % 0x100) + 256 * ((w / 0x100) % 0x100) + 65536 * ((w / 0x1_0000) % 0x100)
        + 16777216 * (w / 0x100_0000) == w) by (nonlinear_arith);
}

/// The brand string holds each leaf's registers in turn, each in
/// little-endian order: it is sixteen bytes per leaf, and the four-byte
/// words of leaf `k` read back as its EAX, EBX, ECX and EDX.
pub proof fn lemma_brand_layout(ls: Seq<CpuidResult>, k: int)
    requires
        0 <= k < ls.len(),
    ensures
        brand_of(ls).len() == 16 * ls.len(),
        word_at(brand_of(ls), 16 * k) == ls[k].eax,
        word_at(brand_of(ls), 16 * k + 4) == ls[k].ebx,
        word_at(brand_of(ls), 16 * k + 8) == ls[k].ecx,
        word_at(brand_of(ls), 16 * k + 12) == ls[k].edx,
{
    let b = brand_of(ls);
    let l = leaf_bytes(ls[k]);
    assert forall|i: int| 0 <= i < 16 implies #[trigger] b[16 * k + i] == l[i] by {
        lemma_brand_index(ls, k, i);
    }
    lemma_brand_index(ls, k, 0);
    lemma_le_word(ls[k].eax);
    lemma_le_word(ls[k].ebx);
    lemma_le_word(ls[k].ecx);
    lemma_le_word(ls[k].edx);
    assert(b[16 * k] == l[0]);
    assert(b[16 * k + 1] == l[1]);
    assert(b[16 * k + 2] == l[2]);
    assert(b[16 * k + 3] == l[3]);
    assert(b[16 * k + 4] == l[4]);
    assert(b[16 * k + 5] == l[5]);
    assert(b[16 * k + 6] == l[6]);
    assert(b[16 * k + 7] == l[7]);
    assert(b[16 * k + 8] == l[8]);
    assert(b[16 * k + 9] == l[9]);
    assert(b[16 * k + 10] == l[10]);
    assert(b[16 * k + 11] == l[11]);
    assert(b[16 * k + 12] == l[12]);
    assert(b[16 * k + 13] == l[13]);
    assert(b[16 * k + 14] == l[14]);
    assert(b[16 * k + 15] == l[15]);
}

} // verus!

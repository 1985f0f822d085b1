//! I/O APIC: decoding of its identification registers, routing of ISA
//! interrupt lines to global system interrupts, and programming of its
//! I/O redirection table.
use vstd::prelude::*;

verus! {

/// Register index of the I/O APIC ID.
pub const IOAPICID: u32 = 0x00;

/// Register index of the I/O APIC version and maximum redirection entry.
pub const IOAPICVER: u32 = 0x01;

/// Base register index of the I/O redirection table.
pub const IOREDTBL_BASE: u32 = 0x10;

/// ISA interrupt line of the PS/2 keyboard.
pub const KEYBOARD_ISA: u8 = 1;

/// An interrupt source override of the ACPI tables: the ISA line
/// `isa_source` is wired to the global system interrupt
/// `global_system_interrupt`.
#[derive(Clone, Copy, Debug, PartialEq, Eq)]
pub struct SourceOverride {
    pub isa_source: u8,
    pub global_system_interrupt: u32,
}

/// A write of `value` to the I/O APIC register with index `reg`.
#[derive(Clone, Copy, Debug, PartialEq, Eq)]
pub struct IoApicWrite {
    pub reg: u32,
    pub value: u32,
}

/// The I/O APIC's ID, given the value of its ID register: bits 24 to 31.
pub fn decode_id(id_register: u32) -> (r: u8)
    ensures
        r == (id_register / 0x0100_0000) % 256,
{
    let r = ((id_register >> 24u32) & 0xFF) as u8;
    proof {
        assert(((id_register >> 24u32) & 0xFF) == (id_register / 0x0100_0000) % 256)
            by (bit_vector);
    }
    r
}

/// The index of the highest redirection entry and the version, given the
/// value of the version register: bits 16 to 23, and bits 0 to 7.
pub fn decode_version(version_register: u32) -> (r: (u8, u8))
    ensures
        r.0 == (version_register / 0x1_0000) % 256,
        r.1 == version_register % 256,
{
    let max_irqs = (version_register >> 16u32) as u8;
    let version = version_register as u8;
    proof {
        assert(((version_register >> 16u32) as u8) == (version_register / 0x1_0000) % 256)
            by (bit_vector);
        assert((version_register as u8) == version_register % 256) by (bit_vector);
    }
    (max_irqs, version)
}

/// The global system interrupt that ISA line `isa_irq` is wired to, as the
/// overrides `os` say: that of the first override for the line, and the
/// line's own number when none overrides it.
pub open spec fn gsi_of(isa_irq: u8, os: Seq<SourceOverride>) -> u32
    decreases os.len(),
{
    if os.len() == 0 {
        isa_irq as u32
    } else if os[0].isa_source == isa_irq {
        os[0].global_system_interrupt
    } else {
        gsi_of(isa_irq, os.drop_first())
    }
}

/// A line that no override mentions keeps its own number.
pub proof fn lemma_no_override_identity(isa_irq: u8, os: Seq<SourceOverride>)
    requires
        forall|i: int| 0 <= i < os.len() ==> #[trigger] os[i].isa_source != isa_irq,
    ensures
        gsi_of(isa_irq, os) == isa_irq as u32,
    decreases os.len(),
{
    if os.len() > 0 {
        assert forall|i: int| 0 <= i < os.drop_first().len() implies #[trigger] os.drop_first()[i].isa_source != isa_irq by {
            assert(os.drop_first()[i] == os[i + 1]);
        }
        lemma_no_override_identity(isa_irq, os.drop_first());
    }
}

/// The first override of a line decides it: overrides after it for the
/// same line are not consulted.
pub proof fn lemma_first_override_wins(isa_irq: u8, os: Seq<SourceOverride>, k: int)
    requires
        0 <= k < os.len(),
        os[k].isa_source == isa_irq,
        forall|i: int| 0 <= i < k ==> #[trigger] os[i].isa_source != isa_irq,
    ensures
        gsi_of(isa_irq, os) == os[k].global_system_interrupt,
    decreases k,
{
    if k > 0 {
        assert forall|i: int| 0 <= i < k - 1 implies #[trigger] os.drop_first()[i].isa_source != isa_irq by {
            assert(os.drop_first()[i] == os[i + 1]);
        }
        lemma_first_override_wins(isa_irq, os.drop_first(), k - 1);
    }
}

/// Resolves an ISA interrupt line to its global system interrupt.
pub fn isa_to_gsi(isa_irq: u8, overrides: &[SourceOverride]) -> (r: u32)
    ensures
        r == gsi_of(isa_irq, overrides@),
{
    let mut i: usize = 0;
    proof {
        assert(overrides@.subrange(0, overrides@.len() as int) =~= overrides@);
    }
    while i < overrides.len()
        invariant
            i <= overrides@.len(),
            gsi_of(isa_irq, overrides@) == gsi_of(
                isa_irq,
                overrides@.subrange(i as int, overrides@.len() as int),
            ),
        decreases overrides@.len() - i,
    {
        let o = overrides[i];
        proof {
            let rest = overrides@.subrange(i as int, overrides@.len() as int);
            assert(rest[0] == o);
            assert(rest.drop_first() =~= overrides@.subrange(i + 1, overrides@.len() as int));
        }
        if o.isa_source == isa_irq {
            return o.global_system_interrupt;
        }
        i = i + 1;
    }
    proof {
        assert(overrides@.subrange(i as int, overrides@.len() as int) =~= Seq::<SourceOverride>::empty());
    }
    isa_irq as u32
}

/// The register indices `(low, high)` of the redirection entry of the
/// global system interrupt `gsi`; `None` when they do not fit in 32 bits.
pub fn redirection_registers(gsi: u32) -> (r: Option<(u32, u32)>)
    ensures
        IOREDTBL_BASE + 2 * gsi + 1 <= u32::MAX ==> r == Some(
            ((IOREDTBL_BASE + 2 * gsi) as u32, (IOREDTBL_BASE + 2 * gsi + 1) as u32),
        ),
        IOREDTBL_BASE + 2 * gsi + 1 > u32::MAX ==> r is None,
{
    if gsi > (u32::MAX - IOREDTBL_BASE - 1) / 2 {
        return None;
    }
    let low = IOREDTBL_BASE + gsi * 2;
    let high = low + 1;
    Some((low, high))
}

/// The writes that program a 64-bit redirection entry: its high half
/// first, then its low half.
pub fn map_redtbl(low: u32, high: u32, low_value: u32, high_value: u32) -> (r: [IoApicWrite; 2])
    ensures
        r@ == seq![IoApicWrite { reg: high, value: high_value }, IoApicWrite { reg: low, value: low_value }],
{
    let r = [IoApicWrite { reg: high, value: high_value }, IoApicWrite { reg: low, value: low_value }];
    proof {
        assert(r@ =~= seq![IoApicWrite { reg: high, value: high_value }, IoApicWrite { reg: low, value: low_value }]);
    }
    r
}

} // verus!

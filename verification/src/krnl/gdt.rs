use vstd::prelude::*;

verus! {

pub const MAX_ENTRIES: usize = 256;

pub const KRNL_CODE_SEL: u16 = 0x8;

pub const KRNL_DATA_SEL: u16 = 0x10;

/// A segment descriptor: the segment's base split in three parts, its
/// limit, its access byte and its granularity byte.
#[derive(Clone, Copy, Debug, PartialEq, Eq, Structural)]
pub struct GdtEntry {
    pub limit: u16,
    pub base_low: u16,
    pub base_middle: u8,
    pub access: u8,
    pub granularity: u8,
    pub base_high: u8,
}

pub open spec fn empty_gdt_entry() -> GdtEntry {
    GdtEntry { limit: 0, base_low: 0, base_middle: 0, access: 0, granularity: 0, base_high: 0 }
}

impl Default for GdtEntry {
    fn default() -> (e: GdtEntry)
        ensures
            e == empty_gdt_entry(),
    {
        GdtEntry { limit: 0, base_low: 0, base_middle: 0, access: 0, granularity: 0, base_high: 0 }
    }
}

/// The descriptor of a segment at `base`.
pub open spec fn gdt_gate(base: u32, limit: u16, access: u8, granularity: u8) -> GdtEntry {
    GdtEntry {
        limit,
        base_low: (base % 0x1_0000) as u16,
        base_middle: ((base / 0x1_0000) % 0x100) as u8,
        access,
        granularity,
        base_high: (base / 0x100_0000) as u8,
    }
}

/// The global descriptor table. The caller loads it into the processor.
pub struct Gdt {
    entries: Vec<GdtEntry>,
}

impl View for Gdt {
    type V = Seq<GdtEntry>;

    closed spec fn view(&self) -> Seq<GdtEntry> {
        self.entries@
    }
}

impl Gdt {
    /// A table of `MAX_ENTRIES` empty descriptors.
    pub fn new() -> (t: Gdt)
        ensures
            t@ == Seq::new(MAX_ENTRIES as nat, |i: int| empty_gdt_entry()),
    {
        let mut entries: Vec<GdtEntry> = Vec::new();
        let mut i: usize = 0;
        while i < MAX_ENTRIES
            invariant
                i <= MAX_ENTRIES,
                entries@ == Seq::new(i as nat, |k: int| empty_gdt_entry()),
            decreases MAX_ENTRIES - i,
        {
            entries.push(GdtEntry::default());
            i += 1;
            assert(entries@ =~= Seq::new(i as nat, |k: int| empty_gdt_entry()));
        }
        Gdt { entries }
    }

    pub fn set_gate(&mut self, index: usize, base: u32, limit: u16, access: u8, granularity: u8)
        requires
            index < old(self)@.len(),
        ensures
            final(self)@ == old(self)@.update(index as int, gdt_gate(base, limit, access, granularity)),
    {
        let low = (base & 0xffff) as u16;
        let middle = ((base >> 16u32) & 0xff) as u8;
        let high = ((base >> 24u32) & 0xff) as u8;
        assert(low == (base % 0x1_0000) as u16 && middle == ((base / 0x1_0000) % 0x100) as u8
            && high == (base / 0x100_0000) as u8) by (bit_vector)
            requires
                low == (base & 0xffff) as u16,
                middle == ((base >> 16u32) & 0xff) as u8,
                high == ((base >> 24u32) & 0xff) as u8,
        ;
        self.entries.set(
            index,
            GdtEntry { limit, base_low: low, base_middle: middle, access, granularity, base_high: high },
        );
    }

    /// The descriptors, in order.
    pub fn entries(&self) -> (e: &[GdtEntry])
        ensures
            e@ == self@,
    {
        self.entries.as_slice()
    }
}

/// Sets the null descriptor and the flat kernel code and data segments.
pub fn initialize(gdt: &mut Gdt)
    requires
        old(gdt)@.len() == MAX_ENTRIES,
    ensures
        final(gdt)@ == old(gdt)@.update(0, gdt_gate(0, 0, 0, 0)).update(
            1,
            gdt_gate(0, 0xffff, 0x9a, 0xcf),
        ).update(2, gdt_gate(0, 0xffff, 0x92, 0xcf)),
{
    gdt.set_gate(0, 0, 0x0, 0x0, 0x0);  // null gdt entry
    gdt.set_gate(1, 0, 0xffff, 0x9a, 0xcf);  // code segment
    gdt.set_gate(2, 0, 0xffff, 0x92, 0xcf);  // data segment
}

} // verus!

use vstd::prelude::*;

verus! {

pub const MAX_ENTRIES: usize = 256;

/// An interrupt descriptor: the handler's address split in two halves, the
/// code segment selector and the descriptor's flags.
#[derive(Clone, Copy, Debug, PartialEq, Eq, Structural)]
pub struct IdtEntry {
    pub base_low: u16,
    pub sel: u16,
    pub always0: u8,
    pub flags: u8,
    pub base_high: u16,
}

pub open spec fn empty_idt_entry() -> IdtEntry {
    IdtEntry { base_low: 0, sel: 0, always0: 0, flags: 0, base_high: 0 }
}

impl Default for IdtEntry {
    fn default() -> (e: IdtEntry)
        ensures
            e == empty_idt_entry(),
    {
        IdtEntry { base_low: 0, sel: 0, always0: 0, flags: 0, base_high: 0 }
    }
}

/// The descriptor of a handler at `base`.
pub open spec fn idt_gate(base: u32, sel: u16, flags: u8) -> IdtEntry {
    IdtEntry {
        base_low: (base % 0x1_0000) as u16,
        sel,
        always0: 0,
        flags,
        base_high: (base / 0x1_0000) as u16,
    }
}

/// The interrupt descriptor table. The caller loads it into the processor.
pub struct Idt {
    entries: Vec<IdtEntry>,
}

impl View for Idt {
    type V = Seq<IdtEntry>;

    closed spec fn view(&self) -> Seq<IdtEntry> {
        self.entries@
    }
}

impl Idt {
    /// A table of `MAX_ENTRIES` empty descriptors.
    pub fn new() -> (t: Idt)
        ensures
            t@ == Seq::new(MAX_ENTRIES as nat, |i: int| empty_idt_entry()),
    {
        let mut entries: Vec<IdtEntry> = Vec::new();
        let mut i: usize = 0;
        while i < MAX_ENTRIES
            invariant
                i <= MAX_ENTRIES,
                entries@ == Seq::new(i as nat, |k: int| empty_idt_entry()),
            decreases MAX_ENTRIES - i,
        {
            entries.push(IdtEntry::default());
            i += 1;
            assert(entries@ =~= Seq::new(i as nat, |k: int| empty_idt_entry()));
        }
        Idt { entries }
    }

    pub fn set_gate(&mut self, index: usize, base: u32, sel: u16, flags: u8)
        requires
            index < old(self)@.len(),
        ensures
            final(self)@ == old(self)@.update(index as int, idt_gate(base, sel, flags)),
    {
        let low = (base & 0xffff) as u16;
        let high = ((base >> 16u32) & 0xffff) as u16;
        assert(low == (base % 0x1_0000) as u16 && high == (base / 0x1_0000) as u16) by (bit_vector)
            requires
                low == (base & 0xffff) as u16,
                high == ((base >> 16u32) & 0xffff) as u16,
        ;
        self.entries.set(index, IdtEntry { base_low: low, sel, always0: 0, flags, base_high: high });
    }

    /// The descriptors, in order.
    pub fn entries(&self) -> (e: &[IdtEntry])
        ensures
            e@ == self@,
    {
        self.entries.as_slice()
    }
}

} // verus!

use vstd::prelude::*;
use crate::krnl::gdt::KRNL_CODE_SEL;
use crate::krnl::idt::{Idt, idt_gate, MAX_ENTRIES};
use crate::krnl::isr::GATE_FLAGS;
use crate::krnl::port::Port;

verus! {

/// The interrupt vector of IRQ 0; IRQ i is at vector `IRQ_VECTOR_OFFSET + i`.
pub const IRQ_VECTOR_OFFSET: u8 = 32;

pub const MAX_IRQ_ENTRIES: usize = 16;

pub const PORT_MASTER_PIC_CMD: u16 = 0x20;

pub const PORT_MASTER_PIC_DAT: u16 = 0x21;

pub const PORT_SLAVE_PIC_CMD: u16 = 0xa0;

pub const PORT_SLAVE_PIC_DAT: u16 = 0xa1;

/// The end-of-interrupt command.
pub const EOI: u8 = 0x20;

/// The registers saved by the IRQ entry code, in the order it pushes them.
pub struct IrqContext {
    pub gs: u32,
    pub fs: u32,
    pub es: u32,
    pub ds: u32,
    pub edi: u32,
    pub esi: u32,
    pub ebp: u32,
    pub esp: u32,
    pub ebx: u32,
    pub edx: u32,
    pub ecx: u32,
    pub eax: u32,
    pub irq_index: u32,
    pub eip: u32,
    pub cs: u32,
    pub eflags: u32,
}

/// The table of IRQ handlers, one slot per IRQ line.
pub struct Irq<F> {
    fns: Vec<Option<F>>,
}

impl<F> View for Irq<F> {
    type V = Seq<Option<F>>;

    closed spec fn view(&self) -> Seq<Option<F>> {
        self.fns@
    }
}

impl<F: Copy> Irq<F> {
    /// A table with no handler installed.
    pub fn new() -> (t: Irq<F>)
        ensures
            t@ == Seq::new(MAX_IRQ_ENTRIES as nat, |i: int| None::<F>),
    {
        let mut fns: Vec<Option<F>> = Vec::new();
        let mut i: usize = 0;
        while i < MAX_IRQ_ENTRIES
            invariant
                i <= MAX_IRQ_ENTRIES,
                fns@ == Seq::new(i as nat, |k: int| None::<F>),
            decreases MAX_IRQ_ENTRIES - i,
        {
            fns.push(None);
            i += 1;
            assert(fns@ =~= Seq::new(i as nat, |k: int| None::<F>));
        }
        Irq { fns }
    }

    /// Installs the handler of IRQ `index`; gives whether a handler was
    /// already installed there (it is replaced).
    pub fn install(&mut self, index: usize, handler: F) -> (replaced: bool)
        requires
            index < old(self)@.len(),
        ensures
            replaced == old(self)@[index as int] is Some,
            final(self)@ == old(self)@.update(index as int, Some(handler)),
    {
        let replaced = self.fns[index].is_some();
        self.fns.set(index, Some(handler));
        replaced
    }

    /// Removes the handler of IRQ `index`; gives whether one was installed.
    pub fn uninstall(&mut self, index: usize) -> (existed: bool)
        requires
            index < old(self)@.len(),
        ensures
            existed == old(self)@[index as int] is Some,
            final(self)@ == old(self)@.update(index as int, None),
    {
        let existed = self.fns[index].is_some();
        self.fns.set(index, None);
        existed
    }

    /// The handler installed for IRQ `index`.
    pub fn handler(&self, index: usize) -> (h: Option<F>)
        requires
            index < self@.len(),
        ensures
            h == self@[index as int],
    {
        self.fns[index]
    }
}

/// The end-of-interrupt writes for IRQ `index`: the slave controller is
/// told too when the IRQ came through it.
pub open spec fn eoi_writes(index: int) -> Seq<(Port, u8)> {
    if index >= 8 {
        seq![(Port(PORT_SLAVE_PIC_CMD), EOI), (Port(PORT_MASTER_PIC_CMD), EOI)]
    } else {
        seq![(Port(PORT_MASTER_PIC_CMD), EOI)]
    }
}

/// Every IRQ from 8 to 15 comes through the slave controller, so it is
/// acknowledged with an end-of-interrupt (0x20) to the slave's command port
/// (0xa0) and then to the master's (0x20); every IRQ from 0 to 7 with one
/// end-of-interrupt to the master's command port alone.
pub proof fn lemma_eoi_by_controller(i: int)
    requires
        0 <= i < 16,
    ensures
        8 <= i ==> eoi_writes(i) == seq![(Port(0xa0u16), 0x20u8), (Port(0x20u16), 0x20u8)],
        i < 8 ==> eoi_writes(i) == seq![(Port(0x20u16), 0x20u8)],
{
}

/// What an interrupt on the line in `ctx` calls for: its handler, if one is
/// installed (the caller calls it first, with `ctx`), and the
/// end-of-interrupt writes.
pub fn irq_dispatcher<F: Copy>(irq: &Irq<F>, ctx: &IrqContext) -> (r: (Option<F>, Vec<(Port, u8)>))
    requires
        ctx.irq_index < irq@.len(),
    ensures
        r.0 == irq@[ctx.irq_index as int],
        r.1@ == eoi_writes(ctx.irq_index as int),
{
    let irq_index = ctx.irq_index as usize;
    let irq_fn = irq.handler(irq_index);
    let mut w: Vec<(Port, u8)> = Vec::new();
    if irq_index >= 8 {
        w.push((Port::new(PORT_SLAVE_PIC_CMD), EOI));
    }
    w.push((Port::new(PORT_MASTER_PIC_CMD), EOI));
    proof {
        if irq_index >= 8 {
            assert(w@ =~= eoi_writes(ctx.irq_index as int));
        } else {
            assert(w@ =~= eoi_writes(ctx.irq_index as int));
        }
    }
    (irq_fn, w)
}

/// The data port of the interrupt controller that serves IRQ `index`.
pub open spec fn mask_port_spec(index: int) -> Port {
    if index < 8 {
        Port(PORT_MASTER_PIC_DAT)
    } else {
        Port(PORT_SLAVE_PIC_DAT)
    }
}

/// The data port whose mask bit masks IRQ `index`.
pub fn mask_port(index: i32) -> (p: Port)
    requires
        0 <= index < MAX_IRQ_ENTRIES,
    ensures
        p == mask_port_spec(index as int),
{
    if index < 8 {
        Port::new(PORT_MASTER_PIC_DAT)
    } else {
        Port::new(PORT_SLAVE_PIC_DAT)
    }
}

/// `m` is `value` with bit `n` set (or, without `set`, cleared) and every
/// other bit kept.
pub open spec fn masked(value: u8, n: u8, set: bool, m: u8) -> bool {
    forall|k: u8|
        k < 8 ==> #[trigger] ((m >> k) & 1) == if k == n {
            if set {
                1u8
            } else {
                0u8
            }
        } else {
            (value >> k) & 1
        }
}

/// The mask read from the controller of IRQ `index`, with the bit of that
/// IRQ set (masked) or cleared (unmasked); the other bits stay.
pub fn mask_value(index: i32, value: u8, set: bool) -> (m: u8)
    requires
        0 <= index < MAX_IRQ_ENTRIES,
    ensures
        masked(value, (index % 8) as u8, set, m),
{
    let n: u8 = if index < 8 {
        index as u8
    } else {
        (index - 8) as u8
    };
    assert(n == (index % 8) as u8);
    let bit: u8 = 1u8 << n;
    if set {
        let m = value | bit;
        assert(forall|k: u8|
            k < 8 ==> #[trigger] ((m >> k) & 1) == if k == n {
                1u8
            } else {
                (value >> k) & 1
            }) by (bit_vector)
            requires
                n < 8,
                bit == 1u8 << n,
                m == value | bit,
        ;
        m
    } else {
        let m = value & !bit;
        assert(forall|k: u8|
            k < 8 ==> #[trigger] ((m >> k) & 1) == if k == n {
                0u8
            } else {
                (value >> k) & 1
            }) by (bit_vector)
            requires
                n < 8,
                bit == 1u8 << n,
                m == value & !bit,
        ;
        m
    }
}

/// The writes that remap the two interrupt controllers to vectors 32..48
/// and mask every IRQ.
pub open spec fn pic_init_writes() -> Seq<(Port, u8)> {
    seq![
        (Port(PORT_MASTER_PIC_CMD), 0x11u8),
        (Port(PORT_SLAVE_PIC_CMD), 0x11u8),
        (Port(PORT_MASTER_PIC_DAT), IRQ_VECTOR_OFFSET),
        (Port(PORT_SLAVE_PIC_DAT), (IRQ_VECTOR_OFFSET + 8) as u8),
        (Port(PORT_MASTER_PIC_DAT), 0x4u8),
        (Port(PORT_SLAVE_PIC_DAT), 0x2u8),
        (Port(PORT_MASTER_PIC_DAT), 0x1u8),
        (Port(PORT_SLAVE_PIC_DAT), 0x1u8),
        (Port(PORT_MASTER_PIC_DAT), 0xffu8),
        (Port(PORT_SLAVE_PIC_DAT), 0xffu8),
    ]
}

/// Remaps and masks the IRQs (the returned writes, to be made first) and
/// points the descriptors of vectors 32..48 at the IRQ handlers, whose addresses
/// `handlers` holds in IRQ order.
pub fn initialize(idt: &mut Idt, handlers: &[u32]) -> (w: Vec<(Port, u8)>)
    requires
        old(idt)@.len() == MAX_ENTRIES,
        handlers@.len() == MAX_IRQ_ENTRIES,
    ensures
        w@ == pic_init_writes(),
        final(idt)@ == Seq::new(
            MAX_ENTRIES as nat,
            |i: int|
                if IRQ_VECTOR_OFFSET <= i < IRQ_VECTOR_OFFSET + MAX_IRQ_ENTRIES {
                    idt_gate(handlers@[i - IRQ_VECTOR_OFFSET], KRNL_CODE_SEL, GATE_FLAGS)
                } else {
                    old(idt)@[i]
                },
        ),
{
    let mut w: Vec<(Port, u8)> = Vec::new();
    // remap IRQ to proper IDT entries (32 ~ 47).
    w.push((Port::new(PORT_MASTER_PIC_CMD), 0x11));
    w.push((Port::new(PORT_SLAVE_PIC_CMD), 0x11));
    w.push((Port::new(PORT_MASTER_PIC_DAT), IRQ_VECTOR_OFFSET));  // vector offset for master PIC is 32
    w.push((Port::new(PORT_SLAVE_PIC_DAT), IRQ_VECTOR_OFFSET + 8));  // vector offset for slave PIC is 40
    w.push((Port::new(PORT_MASTER_PIC_DAT), 0x4));  // tell master PIC that there is a slave PIC at IRQ2
    w.push((Port::new(PORT_SLAVE_PIC_DAT), 0x2));  // tell slave PIC its cascade identity
    w.push((Port::new(PORT_MASTER_PIC_DAT), 0x1));
    w.push((Port::new(PORT_SLAVE_PIC_DAT), 0x1));
    // disable all IRQs by default.
    w.push((Port::new(PORT_MASTER_PIC_DAT), 0xff));
    w.push((Port::new(PORT_SLAVE_PIC_DAT), 0xff));
    assert(w@ =~= pic_init_writes());

    let offset = IRQ_VECTOR_OFFSET as usize;
    let mut i: usize = 0;
    while i < MAX_IRQ_ENTRIES
        invariant
            i <= MAX_IRQ_ENTRIES,
            offset == IRQ_VECTOR_OFFSET,
            handlers@.len() == MAX_IRQ_ENTRIES,
            idt@.len() == MAX_ENTRIES,
            forall|k: int|
                0 <= k < i ==> #[trigger] idt@[k + offset] == idt_gate(handlers@[k], KRNL_CODE_SEL, GATE_FLAGS),
            forall|k: int|
                0 <= k < MAX_ENTRIES && !(offset <= k < offset + i) ==> #[trigger] idt@[k] == old(
                    idt,
                )@[k],
        decreases MAX_IRQ_ENTRIES - i,
    {
        idt.set_gate(offset + i, handlers[i], KRNL_CODE_SEL, GATE_FLAGS);
        i += 1;
    }
    assert(idt@ =~= Seq::new(
        MAX_ENTRIES as nat,
        |i: int|
            if IRQ_VECTOR_OFFSET <= i < IRQ_VECTOR_OFFSET + MAX_IRQ_ENTRIES {
                idt_gate(handlers@[i - IRQ_VECTOR_OFFSET], KRNL_CODE_SEL, GATE_FLAGS)
            } else {
                old(idt)@[i]
            },
    )) by {
        assert forall|j: int| 0 <= j < MAX_ENTRIES && IRQ_VECTOR_OFFSET <= j < IRQ_VECTOR_OFFSET
            + MAX_IRQ_ENTRIES implies idt@[j] == idt_gate(
            handlers@[j - IRQ_VECTOR_OFFSET],
            KRNL_CODE_SEL,
            GATE_FLAGS,
        ) by {
            assert(idt@[(j - offset) + offset] == idt_gate(handlers@[j - offset], KRNL_CODE_SEL, GATE_FLAGS));
        }
    }
    w
}

proof fn lemma_bits_determine_byte(a: u8, b: u8)
    requires
        (a >> 0u8) & 1 == (b >> 0u8) & 1,
        (a >> 1u8) & 1 == (b >> 1u8) & 1,
        (a >> 2u8) & 1 == (b >> 2u8) & 1,
        (a >> 3u8) & 1 == (b >> 3u8) & 1,
        (a >> 4u8) & 1 == (b >> 4u8) & 1,
        (a >> 5u8) & 1 == (b >> 5u8) & 1,
        (a >> 6u8) & 1 == (b >> 6u8) & 1,
        (a >> 7u8) & 1 == (b >> 7u8) & 1,
    ensures
        a == b,
{
    assert(a == b) by (bit_vector)
        requires
            (a >> 0u8) & 1 == (b >> 0u8) & 1,
            (a >> 1u8) & 1 == (b >> 1u8) & 1,
            (a >> 2u8) & 1 == (b >> 2u8) & 1,
            (a >> 3u8) & 1 == (b >> 3u8) & 1,
            (a >> 4u8) & 1 == (b >> 4u8) & 1,
            (a >> 5u8) & 1 == (b >> 5u8) & 1,
            (a >> 6u8) & 1 == (b >> 6u8) & 1,
            (a >> 7u8) & 1 == (b >> 7u8) & 1,
    ;
}

/// Enabling an IRQ after disabling it gives back a mask in which it was
/// enabled: its bit clear and every other bit as before.
pub proof fn lemma_enable_undoes_disable(value: u8, n: u8, disabled: u8, enabled: u8)
    requires
        n < 8,
        (value >> n) & 1 == 0,
        masked(value, n, true, disabled),
        masked(disabled, n, false, enabled),
    ensures
        enabled == value,
{
    assert((enabled >> 0u8) & 1 == (value >> 0u8) & 1);
    assert((enabled >> 1u8) & 1 == (value >> 1u8) & 1);
    assert((enabled >> 2u8) & 1 == (value >> 2u8) & 1);
    assert((enabled >> 3u8) & 1 == (value >> 3u8) & 1);
    assert((enabled >> 4u8) & 1 == (value >> 4u8) & 1);
    assert((enabled >> 5u8) & 1 == (value >> 5u8) & 1);
    assert((enabled >> 6u8) & 1 == (value >> 6u8) & 1);
    assert((enabled >> 7u8) & 1 == (value >> 7u8) & 1);
    lemma_bits_determine_byte(enabled, value);
}

/// Uninstalling a handler just installed leaves the slot empty and every
/// other slot as it was; where the slot was empty before, the table is as
/// it was.
pub proof fn lemma_install_then_uninstall<F>(v: Seq<Option<F>>, index: int, handler: F)
    requires
        0 <= index < v.len(),
    ensures
        v.update(index, Some(handler)).update(index, None) == v.update(index, None),
        v[index] is None ==> v.update(index, Some(handler)).update(index, None) == v,
{
    assert(v.update(index, Some(handler)).update(index, None) =~= v.update(index, None));
    if v[index] is None {
        assert(v.update(index, None) =~= v);
    }
}

} // verus!

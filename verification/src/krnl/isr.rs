use vstd::prelude::*;
use vstd::string::StringExecFns;
use crate::util::text::{append_decimal, append_hex, decimal, hex_digits};
use crate::krnl::gdt::KRNL_CODE_SEL;
use crate::krnl::idt::{Idt, idt_gate, MAX_ENTRIES};

verus! {

/// The number of processor exceptions that get a handler.
pub const ISR_COUNT: usize = 19;

/// The flags of an interrupt handler's descriptor: present, ring 0, 32-bit
/// interrupt descriptor.
pub const GATE_FLAGS: u8 = 0x8e;

/// The registers saved by the exception entry code, in the order it pushes
/// them.
pub struct IsrContext {
    pub gs: u32,
    pub fs: u32,
    pub es: u32,
    pub ds: u32,
    pub edi: u32,
    pub esi: u32,
    pub ebp: u32,
    pub esp: u32,
    pub ebx: u32,
    pub edx: u32,
    pub ecx: u32,
    pub eax: u32,
    pub isr_index: u32,
    pub error_code: u32,
    pub eip: u32,
    pub cs: u32,
    pub eflags: u32,
}

/// The name of processor exception `i`.
pub open spec fn exception_name(i: int) -> Seq<char> {
    if i == 0 {
        "Division By Zero Exception"@
    } else if i == 1 {
        "Debug Exception"@
    } else if i == 2 {
        "Non Maskable Interrupt Exception"@
    } else if i == 3 {
        "Breakpoint Exception"@
    } else if i == 4 {
        "Into Detected Overflow Exception"@
    } else if i == 5 {
        "Out of Bounds Exception"@
    } else if i == 6 {
        "Invalid Opcode Exception"@
    } else if i == 7 {
        "No Coprocessor Exception"@
    } else if i == 8 {
        "Double Fault Exception"@
    } else if i == 9 {
        "Coprocessor Segment Overrun Exception"@
    } else if i == 10 {
        "Bad TSS Exception"@
    } else if i == 11 {
        "Segment Not Present Exception"@
    } else if i == 12 {
        "Stack Fault Exception"@
    } else if i == 13 {
        "General Protection Fault Exception"@
    } else if i == 14 {
        "Page Fault Exception"@
    } else if i == 15 {
        "Unknown Interrupt Exception"@
    } else if i == 16 {
        "Coprocessor Fault Exception"@
    } else if i == 17 {
        "Alignment Check Exception"@
    } else {
        "Machine Check Exception"@
    }
}

/// The message that reports processor exception `index`.
pub fn exception_message(index: u32) -> (m: &'static str)
    requires
        index < ISR_COUNT,
    ensures
        m@ == exception_name(index as int),
{
    if index == 0 {
        "Division By Zero Exception"  // fault
    } else if index == 1 {
        "Debug Exception"  // fault/trap
    } else if index == 2 {
        "Non Maskable Interrupt Exception"  // interrupt
    } else if index == 3 {
        "Breakpoint Exception"  // trap
    } else if index == 4 {
        "Into Detected Overflow Exception"  // trap
    } else if index == 5 {
        "Out of Bounds Exception"  // fault
    } else if index == 6 {
        "Invalid Opcode Exception"  // fault
    } else if index == 7 {
        "No Coprocessor Exception"  // fault
    } else if index == 8 {
        "Double Fault Exception"  // abort
    } else if index == 9 {
        "Coprocessor Segment Overrun Exception"  // fault
    } else if index == 10 {
        "Bad TSS Exception"  // fault
    } else if index == 11 {
        "Segment Not Present Exception"  // fault
    } else if index == 12 {
        "Stack Fault Exception"  // fault
    } else if index == 13 {
        "General Protection Fault Exception"  // fault
    } else if index == 14 {
        "Page Fault Exception"  // fault
    } else if index == 15 {
        "Unknown Interrupt Exception"  // unknown
    } else if index == 16 {
        "Coprocessor Fault Exception"  // fault
    } else if index == 17 {
        "Alignment Check Exception"  // fault
    } else {
        "Machine Check Exception"  // abort
    }
}

/// Points the descriptors of the processor exceptions at their handlers, whose
/// addresses `handlers` holds in exception order.
pub fn initialize(idt: &mut Idt, handlers: &[u32])
    requires
        old(idt)@.len() == MAX_ENTRIES,
        handlers@.len() == ISR_COUNT,
    ensures
        final(idt)@ == Seq::new(
            MAX_ENTRIES as nat,
            |i: int|
                if i < ISR_COUNT {
                    idt_gate(handlers@[i], KRNL_CODE_SEL, GATE_FLAGS)
                } else {
                    old(idt)@[i]
                },
        ),
{
    let mut i: usize = 0;
    while i < ISR_COUNT
        invariant
            i <= ISR_COUNT,
            handlers@.len() == ISR_COUNT,
            idt@.len() == MAX_ENTRIES,
            forall|k: int| 0 <= k < i ==> #[trigger] idt@[k] == idt_gate(handlers@[k], KRNL_CODE_SEL, GATE_FLAGS),
            forall|k: int| i <= k < MAX_ENTRIES ==> #[trigger] idt@[k] == old(idt)@[k],
        decreases ISR_COUNT - i,
    {
        idt.set_gate(i, handlers[i], KRNL_CODE_SEL, GATE_FLAGS);
        i += 1;
    }
    assert(idt@ =~= Seq::new(
        MAX_ENTRIES as nat,
        |i: int|
            if i < ISR_COUNT {
                idt_gate(handlers@[i], KRNL_CODE_SEL, GATE_FLAGS)
            } else {
                old(idt)@[i]
            },
    ));
}

/// `v` as eight hexadecimal digits after "0x".
pub open spec fn hex8(v: u32) -> Seq<char> {
    "0x"@ + hex_digits(v as nat, 8)
}

/// The report of an exception: its name and error code, then the saved
/// registers, four to a line, then the notice that the system halts.
pub open spec fn exception_report(ctx: IsrContext) -> Seq<char> {
    "Exception = "@ + exception_name(ctx.isr_index as int) + ", with error code = "@ + decimal(
        ctx.error_code as nat,
    ) + ".\n"@ + "Registers:\n"@ + "\tds  "@ + hex8(ctx.ds) + "\tes  "@ + hex8(ctx.es) + "\tfs  "@
        + hex8(ctx.fs) + "\tgs  "@ + hex8(ctx.gs) + "\n"@ + "\teax "@ + hex8(ctx.eax) + "\tebx "@
        + hex8(ctx.ebx) + "\tecx "@ + hex8(ctx.ecx) + "\tedx "@ + hex8(ctx.edx) + "\n"@ + "\tesp "@
        + hex8(ctx.esp) + "\tebp "@ + hex8(ctx.ebp) + "\tesi "@ + hex8(ctx.esi) + "\tedi "@ + hex8(
        ctx.edi,
    ) + "\n"@ + "\teip "@ + hex8(ctx.eip) + "\tcs  "@ + hex8(ctx.cs) + "\teflags "@ + hex8(
        ctx.eflags,
    ) + "\n"@ + "System halted.\n"@
}

fn append_hex8(s: &mut String, v: u32)
    ensures
        final(s)@ == old(s)@ + hex8(v),
{
    s.append("0x");
    append_hex(s, v, 8);
    assert(old(s)@ + "0x"@ + hex_digits(v as nat, 8) =~= old(s)@ + hex8(v));
}

/// The report of the exception whose registers `ctx` holds.
pub fn exception_report_text(ctx: &IsrContext) -> (r: String)
    requires
        ctx.isr_index < ISR_COUNT,
    ensures
        r@ == exception_report(*ctx),
{
    let mut s = String::new();
    s.append("Exception = ");
    s.append(exception_message(ctx.isr_index));
    s.append(", with error code = ");
    append_decimal(&mut s, ctx.error_code);
    s.append(".\n");
    s.append("Registers:\n");
    s.append("\tds  ");
    append_hex8(&mut s, ctx.ds);
    s.append("\tes  ");
    append_hex8(&mut s, ctx.es);
    s.append("\tfs  ");
    append_hex8(&mut s, ctx.fs);
    s.append("\tgs  ");
    append_hex8(&mut s, ctx.gs);
    s.append("\n");
    s.append("\teax ");
    append_hex8(&mut s, ctx.eax);
    s.append("\tebx ");
    append_hex8(&mut s, ctx.ebx);
    s.append("\tecx ");
    append_hex8(&mut s, ctx.ecx);
    s.append("\tedx ");
    append_hex8(&mut s, ctx.edx);
    s.append("\n");
    s.append("\tesp ");
    append_hex8(&mut s, ctx.esp);
    s.append("\tebp ");
    append_hex8(&mut s, ctx.ebp);
    s.append("\tesi ");
    append_hex8(&mut s, ctx.esi);
    s.append("\tedi ");
    append_hex8(&mut s, ctx.edi);
    s.append("\n");
    s.append("\teip ");
    append_hex8(&mut s, ctx.eip);
    s.append("\tcs  ");
    append_hex8(&mut s, ctx.cs);
    s.append("\teflags ");
    append_hex8(&mut s, ctx.eflags);
    s.append("\n");
    s.append("System halted.\n");
    assert(s@ =~= exception_report(*ctx));
    s
}

} // verus!

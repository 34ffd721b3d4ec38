use badapple::krnl::gdt::{self, Gdt, GdtEntry};
use badapple::krnl::idt::{Idt, IdtEntry};
use badapple::krnl::irq::{self, irq_dispatcher, mask_port, mask_value, Irq, IrqContext};
use badapple::krnl::isr::{self, exception_message};
use badapple::krnl::keyboard;
use badapple::krnl::port::Port;
use badapple::krnl::timer;

#[test]
fn idt_set_gate_splits_base() {
    let mut idt = Idt::new();
    assert_eq!(idt.entries().len(), 256);
    idt.set_gate(3, 0x1234_5678, 0x8, 0x8e);
    assert_eq!(
        idt.entries()[3],
        IdtEntry { base_low: 0x5678, sel: 0x8, always0: 0, flags: 0x8e, base_high: 0x1234 }
    );
    assert_eq!(idt.entries()[4], IdtEntry::default());
}

#[test]
fn gdt_initialize_sets_flat_segments() {
    let mut g = Gdt::new();
    gdt::initialize(&mut g);
    assert_eq!(g.entries()[0], GdtEntry::default());
    assert_eq!(
        g.entries()[1],
        GdtEntry {
            limit: 0xffff,
            base_low: 0,
            base_middle: 0,
            access: 0x9a,
            granularity: 0xcf,
            base_high: 0
        }
    );
    assert_eq!(g.entries()[2].access, 0x92);
    g.set_gate(5, 0xaabb_ccdd, 0x10, 1, 2);
    assert_eq!(
        g.entries()[5],
        GdtEntry {
            limit: 0x10,
            base_low: 0xccdd,
            base_middle: 0xbb,
            access: 1,
            granularity: 2,
            base_high: 0xaa
        }
    );
}

#[test]
fn isr_initialize_and_messages() {
    let mut idt = Idt::new();
    let handlers: Vec<u32> = (0..19).map(|i| 0x1000 + i * 16).collect();
    isr::initialize(&mut idt, &handlers);
    assert_eq!(idt.entries()[0].base_low, 0x1000);
    assert_eq!(idt.entries()[18].base_low, 0x1000 + 18 * 16);
    assert_eq!(idt.entries()[18].sel, 0x8);
    assert_eq!(idt.entries()[18].flags, 0x8e);
    assert_eq!(idt.entries()[19], IdtEntry::default());
    assert_eq!(exception_message(0), "Division By Zero Exception");
    assert_eq!(exception_message(14), "Page Fault Exception");
    assert_eq!(exception_message(18), "Machine Check Exception");
}

#[test]
fn irq_initialize_remaps_and_points_vectors() {
    let mut idt = Idt::new();
    let handlers: Vec<u32> = (0..16).map(|i| 0x2000 + i).collect();
    let w = irq::initialize(&mut idt, &handlers);
    assert_eq!(w.len(), 10);
    assert_eq!(w[0], (Port(0x20), 0x11));
    assert_eq!(w[2], (Port(0x21), 32));
    assert_eq!(w[3], (Port(0xa1), 40));
    assert_eq!(w[9], (Port(0xa1), 0xff));
    assert_eq!(idt.entries()[32].base_low, 0x2000);
    assert_eq!(idt.entries()[47].base_low, 0x200f);
    assert_eq!(idt.entries()[31], IdtEntry::default());
    assert_eq!(idt.entries()[48], IdtEntry::default());
}

fn ctx(irq_index: u32) -> IrqContext {
    IrqContext {
        gs: 0,
        fs: 0,
        es: 0,
        ds: 0,
        edi: 0,
        esi: 0,
        ebp: 0,
        esp: 0,
        ebx: 0,
        edx: 0,
        ecx: 0,
        eax: 0,
        irq_index,
        eip: 0,
        cs: 0,
        eflags: 0,
    }
}

#[test]
fn irq_install_uninstall_and_dispatch() {
    let mut t: Irq<u32> = Irq::new();
    assert!(!t.install(3, 30));
    assert!(t.install(3, 31));
    assert_eq!(t.handler(3), Some(31));
    let (h, w) = irq_dispatcher(&t, &ctx(3));
    assert_eq!(h, Some(31));
    assert_eq!(w, vec![(Port(0x20), 0x20)]);
    let (h, w) = irq_dispatcher(&t, &ctx(10));
    assert_eq!(h, None);
    assert_eq!(w, vec![(Port(0xa0), 0x20), (Port(0x20), 0x20)]);
    assert!(t.uninstall(3));
    assert!(!t.uninstall(3));
    assert_eq!(t.handler(3), None);
}

#[test]
fn irq_masks() {
    assert_eq!(mask_port(2), Port(0x21));
    assert_eq!(mask_port(12), Port(0xa1));
    assert_eq!(mask_value(1, 0b0000_0000, true), 0b0000_0010);
    assert_eq!(mask_value(1, 0xff, false), 0b1111_1101);
    assert_eq!(mask_value(9, 0xf0, true), 0xf2);
    // unmasking after masking leaves the other bits as they were
    assert_eq!(mask_value(4, mask_value(4, 0x81, true), false), 0x81);
}

#[test]
fn timer_and_keyboard_install_handlers() {
    let mut t: Irq<u8> = Irq::new();
    let (w, replaced) = timer::initialize(&mut t, 7);
    assert!(!replaced);
    assert_eq!(w, vec![(Port(0x43), 0x36), (Port(0x40), 0), (Port(0x40), 0)]);
    assert_eq!(t.handler(0), Some(7));
    assert!(!keyboard::initialize(&mut t, 9));
    assert!(keyboard::initialize(&mut t, 10));
    assert_eq!(t.handler(1), Some(10));
    assert!(keyboard::reboot_requested(0x9c));
    assert!(!keyboard::reboot_requested(0x1c));
}

#[test]
fn exception_report_lists_registers() {
    let ctx = isr::IsrContext {
        gs: 0x10,
        fs: 0x10,
        es: 0x10,
        ds: 0x10,
        edi: 1,
        esi: 2,
        ebp: 0x7bfc,
        esp: 0x7bd0,
        ebx: 0xdead_beef,
        edx: 4,
        ecx: 5,
        eax: 0xffff_ffff,
        isr_index: 14,
        error_code: 2,
        eip: 0x0010_1234,
        cs: 0x8,
        eflags: 0x202,
    };
    let expected = format!(
        "Exception = {}, with error code = {}.\nRegisters:\n\
         \tds  0x{:08x}\tes  0x{:08x}\tfs  0x{:08x}\tgs  0x{:08x}\n\
         \teax 0x{:08x}\tebx 0x{:08x}\tecx 0x{:08x}\tedx 0x{:08x}\n\
         \tesp 0x{:08x}\tebp 0x{:08x}\tesi 0x{:08x}\tedi 0x{:08x}\n\
         \teip 0x{:08x}\tcs  0x{:08x}\teflags 0x{:08x}\nSystem halted.\n",
        "Page Fault Exception",
        2,
        0x10,
        0x10,
        0x10,
        0x10,
        0xffff_ffffu32,
        0xdead_beefu32,
        5,
        4,
        0x7bd0,
        0x7bfc,
        2,
        1,
        0x0010_1234,
        0x8,
        0x202
    );
    assert_eq!(isr::exception_report_text(&ctx), expected);
    assert!(expected.contains("\tebx 0xdeadbeef\t"));
}

use vstd::prelude::*;
use crate::krnl::irq::Irq;

verus! {

pub const PORT_PS2_DATA: u16 = 0x60;

/// The scan code of the Enter key's release.
pub const SCAN_CODE_ENTER: u8 = 0x9c;

/// Whether the scan code read from the keyboard asks for a reboot.
pub fn reboot_requested(scan_code: u8) -> (r: bool)
    ensures
        r == (scan_code == SCAN_CODE_ENTER),
{
    scan_code == SCAN_CODE_ENTER
}

/// Installs the keyboard interrupt handler on IRQ 1; gives whether a
/// handler was installed there already. The caller then unmasks IRQ 1.
pub fn initialize<G: Copy>(irq: &mut Irq<G>, handler: G) -> (replaced: bool)
    requires
        old(irq)@.len() == crate::krnl::irq::MAX_IRQ_ENTRIES,
    ensures
        replaced == (old(irq)@[1] is Some),
        final(irq)@ == old(irq)@.update(1, Some(handler)),
{
    irq.install(1, handler)
}

} // verus!

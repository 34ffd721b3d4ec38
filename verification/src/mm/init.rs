use vstd::prelude::*;

verus! {

// CMOS registers that hold the memory sizes, in kilobytes.
pub const NVRAM_BASELO: u8 = 0x15;

pub const NVRAM_BASEHI: u8 = 0x16;

pub const NVRAM_EXTLO: u8 = 0x17;

pub const NVRAM_EXTHI: u8 = 0x18;

pub const NVRAM_EXT16LO: u8 = 0x34;

pub const NVRAM_EXT16HI: u8 = 0x35;

/// The physical memory sizes, in kilobytes.
pub struct MemoryInfo {
    pub total: u32,
    pub base: u32,
}

/// The total memory the CMOS registers report: memory above 16M (counted
/// in 64K blocks) where there is any, else memory above 1M, else the base
/// memory alone.
pub open spec fn total_memory(base: int, ext: int, ext16: int) -> int {
    if ext16 != 0 {
        16 * 1024 + ext16
    } else if ext != 0 {
        1 * 1024 + ext
    } else {
        base
    }
}

fn word(lo: u8, hi: u8) -> (w: u32)
    ensures
        w == lo + hi * 256,
{
    let l = lo as u32;
    let h = hi as u32;
    let w = l | (h << 8u32);
    assert(w == l + h * 256) by (bit_vector)
        requires
            w == l | (h << 8u32),
            l < 256,
            h < 256,
    ;
    w
}

/// The memory sizes from the six CMOS memory registers, in the order of the
/// `NVRAM_` constants.
pub fn detect(base_lo: u8, base_hi: u8, ext_lo: u8, ext_hi: u8, ext16_lo: u8, ext16_hi: u8) -> (m:
    MemoryInfo)
    ensures
        m.base == base_lo + base_hi * 256,
        m.total == total_memory(
            base_lo + base_hi * 256,
            ext_lo + ext_hi * 256,
            (ext16_lo + ext16_hi * 256) * 64,
        ),
{
    let basemem = word(base_lo, base_hi);
    let extmem = word(ext_lo, ext_hi);
    let ext16mem = word(ext16_lo, ext16_hi) << 6u32;
    let w16 = word(ext16_lo, ext16_hi);
    assert(ext16mem == w16 * 64) by (bit_vector)
        requires
            ext16mem == w16 << 6u32,
            w16 < 0x1_0000,
    ;
    let totalmem = if ext16mem != 0 {
        16 * 1024 + ext16mem
    } else if extmem != 0 {
        1 * 1024 + extmem
    } else {
        basemem
    };
    MemoryInfo { total: totalmem, base: basemem }
}

impl MemoryInfo {
    /// The memory above the base memory.
    pub fn extended(&self) -> (e: u32)
        requires
            self.base <= self.total,
        ensures
            e == self.total - self.base,
    {
        self.total - self.base
    }
}

} // verus!

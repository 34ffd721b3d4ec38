//! The logic of a tiny x86 kernel that plays a video on the text-mode
//! console: the video decoder, the console state machine, descriptor tables,
//! interrupt and timer bookkeeping, the bump allocator and CMOS decoding.
//! Port and memory-mapped I/O is performed by the caller; the functions here
//! compute what is to be written.
pub mod ba;
pub mod krnl;
pub mod mm;
pub mod util;

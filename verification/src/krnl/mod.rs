pub mod console;
pub mod gdt;
pub mod idt;
pub mod irq;
pub mod isr;
pub mod keyboard;
pub mod port;
pub mod sys_time;
pub mod timer;

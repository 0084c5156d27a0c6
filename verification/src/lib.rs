//! The decision-making core of a small x86_64 kernel: everything that can be
//! computed from plain values, with contracts proved by Verus.

pub mod address_space;
pub mod allocator;
pub mod ata;
pub mod build_reports;
pub mod bytes;
pub mod command;
pub mod command_laws;
pub mod console;
pub mod disk;
pub mod drawing_laws;
pub mod elf;
pub mod fs;
pub mod fs_laws;
pub mod fs_room_laws;
pub mod interrupts;
pub mod keyboard;
pub mod memory;
pub mod mouse;
pub mod neurons;
pub mod numbers;
pub mod pci;
pub mod process;
pub mod process_laws;
pub mod replies;
pub mod reports;
pub mod scheduler;
pub mod search;
pub mod shell;
pub mod shell_command_laws;
pub mod shell_laws;
pub mod speaker;
pub mod step;
pub mod syscall_laws;
pub mod tasks;
pub mod text;
pub mod usertest;

//! The verified core of a small firmware-to-kernel boot path: planning and
//! placing the loadable segments of a kernel image, preparing the one-way
//! handoff to the kernel's entry point, and the linear-framebuffer renderer the
//! kernel draws with once it has control.

pub mod console;
pub mod error;
pub mod font;
pub mod framebuffer;
pub mod handoff;
pub mod image;
pub mod loader;
pub mod paint;
pub mod pci;
pub mod screen;

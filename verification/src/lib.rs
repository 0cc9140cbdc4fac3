//! A verified CHIP-8 virtual machine core.
//!
//! The crate models the machine state (memory, registers, stack, display,
//! timers), decodes 16-bit opcodes into a closed instruction set, and executes
//! instructions as proved state transitions.  Every public operation carries a
//! contract that pins down the transition it performs on the abstract machine
//! state.

pub mod chip_8;
pub mod opcodes;
pub mod state;

//! Signature-based memory scanner and offset resolver for a remote process.
//!
//! The library turns textual byte patterns (hex pairs with `??` wildcards)
//! into absolute match addresses inside a target process's address space,
//! resolves each match into a stable module-relative offset through the
//! instruction-relative displacement embedded in the matched code, and offers
//! generic cross-process read/write primitives together with pointer-chain
//! traversal.
//!
//! The hosting environment's primitives — the process table, the target's
//! loaded modules, its memory regions and liveness — are modelled explicitly
//! by [`host::Host`], which callers fill in from whatever their platform
//! reports. Every algorithm here is specified and verified against that
//! model.

pub mod host;
pub mod memory;
pub mod offsets;
pub mod process_manager;
pub mod rcs;
pub mod scanner;
pub mod signature;

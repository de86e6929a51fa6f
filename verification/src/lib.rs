//! A verified model of early x86_64 kernel memory bring-up.
//!
//! The library models the pieces a freestanding kernel needs before it can
//! use ordinary owned containers: physical and virtual addresses, the
//! four-level page-table hierarchy reached through a physical-memory window,
//! a bump frame allocator driven by the firmware memory map, the operation
//! that installs a single virtual-to-physical mapping, heap-range
//! initialization, and a bump allocator for the heap together with the
//! owned-box, growable-buffer and reference-counted usage patterns on top.
//!
//! Physical memory is modeled explicitly as a finite set of 4 KiB frames of
//! 64-bit words, so that every page-table walk and every access through an
//! installed mapping is ordinary verified code.

pub mod addr;
pub mod pte;
pub mod phys;
pub mod memmap;
pub mod frames;
pub mod paging;
pub mod heap;
pub mod containers;
pub mod bringup;

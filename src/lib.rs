//! Coding-tree partition search of a block-based video encoder, with the
//! per-unit state store it reads and writes.
#![allow(non_snake_case)]
#![allow(non_camel_case_types)]
#![allow(non_upper_case_globals)]

pub mod com;
pub mod cu_data;
pub mod mcu;
pub mod mode;
pub mod rect;

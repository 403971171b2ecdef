//! Intrusive-style containers and their supporting pieces.

pub mod adapter;

pub mod ptr;

pub mod size;

pub mod slist;

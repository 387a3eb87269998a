//! Risk: how the capital is split, and what may be spent of it.

pub mod auditor;
pub mod pool;

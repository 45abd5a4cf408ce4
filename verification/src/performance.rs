//! Plain-data snapshot types for the Performance tab.

use vstd::prelude::*;

verus! {

/// Memory and swap totals, in bytes.
#[derive(Debug, Clone, Copy, Default)]
pub struct MemStats {
    pub total_bytes: u64,
    pub used_bytes: u64,
    pub available_bytes: u64,
    pub swap_total_bytes: u64,
    pub swap_used_bytes: u64,
}

/// Whole-system disk throughput.
#[derive(Debug, Clone, Copy, Default)]
pub struct DiskStats {
    /// Bytes read across all disks since the previous snapshot, per second.
    pub read_bytes_per_sec: u64,
    /// Bytes written across all disks since the previous snapshot, per second.
    pub write_bytes_per_sec: u64,
}

/// Whole-system network throughput.
#[derive(Debug, Clone, Copy, Default)]
pub struct NetStats {
    /// Bytes received across all interfaces since the previous snapshot, per second.
    pub rx_bytes_per_sec: u64,
    /// Bytes transmitted across all interfaces since the previous snapshot, per second.
    pub tx_bytes_per_sec: u64,
}

} // verus!

use vstd::prelude::*;

verus! {

/// What can go wrong while resolving a platform or reading a device.
#[derive(Debug, PartialEq, Eq)]
pub enum GpuError {
    /// GPU use is switched off for this process.
    Disabled,
    /// No installed platform carries the requested name.
    PlatformNotFound,
    /// The driver failed to list platforms or devices, or to answer a query.
    Driver(String),
    /// A memory-size query answered with a value of another kind.
    MemoryUnavailable,
    /// The core-count override list is malformed.
    InvalidCustomGpu,
}

} // verus!

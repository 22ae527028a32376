//! Selection of the GPU compute platform and devices for proving work, and
//! estimation of each device's parallel core count.
//!
//! The driver is queried by the caller; this crate decides on what the driver
//! reported, given as plain values.

pub mod core_counts;
pub mod error;
pub mod platform;
pub mod text;

pub use core_counts::{get_core_count, parse_custom_gpus, CoreCounts, DEFAULT_CORE_COUNT};
pub use error::GpuError;
pub use platform::{
    find_platform, get_devices, get_memory, get_platform, platform_name, position_of_name,
    DeviceInfoValue, GPU_AMD_PLATFORM_NAME, GPU_NVIDIA_PLATFORM_NAME,
};

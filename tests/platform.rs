use gpu_select::{
    find_platform, get_devices, get_memory, get_platform, platform_name, position_of_name,
    DeviceInfoValue, GpuError, GPU_AMD_PLATFORM_NAME, GPU_NVIDIA_PLATFORM_NAME,
};

fn installed() -> Vec<(u32, Option<String>)> {
    vec![
        (1, Some(GPU_AMD_PLATFORM_NAME.to_string())),
        (2, None),
        (3, Some(GPU_NVIDIA_PLATFORM_NAME.to_string())),
        (4, Some("Portable Computing Language".to_string())),
    ]
}

#[test]
fn disabled_fails_whatever_is_installed() {
    assert_eq!(get_platform(true, None, None, Ok(installed())), Err(GpuError::Disabled));
    assert_eq!(
        get_platform(true, Some("NVIDIA CUDA"), None, Ok(installed())),
        Err(GpuError::Disabled)
    );
    assert_eq!(
        get_platform::<u32>(true, None, None, Err(GpuError::Driver("x".to_string()))),
        Err(GpuError::Disabled)
    );
    assert_eq!(get_devices(true, Ok(vec![7u32, 8])), Err(GpuError::Disabled));
}

#[test]
fn explicit_name_comes_first() {
    assert_eq!(platform_name(Some("A"), Some("B")), "A");
    assert_eq!(
        get_platform(false, Some(GPU_AMD_PLATFORM_NAME), Some("Portable Computing Language"), Ok(installed())),
        Ok(1)
    );
}

#[test]
fn environment_name_comes_second() {
    assert_eq!(platform_name(None, Some("B")), "B");
    assert_eq!(
        get_platform(false, None, Some("Portable Computing Language"), Ok(installed())),
        Ok(4)
    );
}

#[test]
fn nvidia_is_the_default() {
    assert_eq!(platform_name(None, None), "NVIDIA CUDA");
    assert_eq!(get_platform(false, None, None, Ok(installed())), Ok(3));
}

#[test]
fn missing_platform_is_not_found() {
    assert_eq!(
        get_platform(false, Some("Intel(R) OpenCL"), None, Ok(installed())),
        Err(GpuError::PlatformNotFound)
    );
    assert_eq!(
        find_platform::<u32>(false, Ok(Vec::new()), "NVIDIA CUDA"),
        Err(GpuError::PlatformNotFound)
    );
}

#[test]
fn listing_failure_is_distinct_from_not_found() {
    let r = get_platform::<u32>(false, None, None, Err(GpuError::Driver("no ICD".to_string())));
    assert_eq!(r, Err(GpuError::Driver("no ICD".to_string())));
    assert_ne!(r, Err(GpuError::PlatformNotFound));
}

#[test]
fn first_matching_platform_wins() {
    let listing = vec![(5u32, Some("X".to_string())), (6, Some("X".to_string()))];
    assert_eq!(position_of_name(&listing, "X"), Some(0));
    assert_eq!(find_platform(false, Ok(listing), "X"), Ok(5));
}

#[test]
fn names_are_matched_exactly() {
    assert_eq!(position_of_name(&installed(), "nvidia cuda"), None);
    assert_eq!(position_of_name(&installed(), "NVIDIA"), None);
    assert_eq!(position_of_name(&installed(), "NVIDIA CUDA"), Some(2));
}

#[test]
fn resolving_again_gives_the_same_name() {
    let mut reordered = installed();
    reordered.reverse();
    let a = get_platform(false, Some("NVIDIA CUDA"), None, Ok(installed())).unwrap();
    let b = get_platform(false, Some("NVIDIA CUDA"), None, Ok(reordered)).unwrap();
    let name_of = |id: u32| installed().into_iter().find(|e| e.0 == id).unwrap().1;
    assert_eq!(name_of(a), name_of(b));
    assert_eq!(name_of(a), Some("NVIDIA CUDA".to_string()));
}

#[test]
fn platform_without_devices_gives_empty_list() {
    assert_eq!(get_devices::<u32>(false, Ok(Vec::new())), Ok(Vec::new()));
}

#[test]
fn devices_are_kept_in_driver_order() {
    assert_eq!(get_devices(false, Ok(vec![3u32, 1, 2])), Ok(vec![3, 1, 2]));
    assert_eq!(
        get_devices::<u32>(false, Err(GpuError::Driver("lost".to_string()))),
        Err(GpuError::Driver("lost".to_string()))
    );
}

#[test]
fn memory_size_is_read_from_the_answer() {
    assert_eq!(get_memory(Ok(DeviceInfoValue::GlobalMemSize(11_811_160_064))), Ok(11_811_160_064));
    assert_eq!(get_memory(Ok(DeviceInfoValue::Other)), Err(GpuError::MemoryUnavailable));
    assert_eq!(
        get_memory(Err(GpuError::Driver("query".to_string()))),
        Err(GpuError::Driver("query".to_string()))
    );
}

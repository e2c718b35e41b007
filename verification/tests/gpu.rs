use quicksilver::gpu::{BufferUsage, GpuLimits, GpuStats, GpuVendor};

#[test]
fn test_device_limits_defaults() {
    let limits = GpuLimits::default();
    assert_eq!(limits.max_buffer_size, 256 * 1024 * 1024);
    assert_eq!(limits.max_compute_workgroups_per_dimension, 65535);
    assert_eq!(limits.max_bind_groups, 4);
}

#[test]
fn test_buffer_usage_bitor() {
    let usage = BufferUsage::STORAGE() | BufferUsage::MAP_READ();
    assert!(usage.contains(BufferUsage::STORAGE()));
    assert!(usage.contains(BufferUsage::MAP_READ()));
    assert!(!usage.contains(BufferUsage::UNIFORM()));
}

#[test]
fn buffer_usage_values() {
    assert_eq!((BufferUsage::COPY_SRC() | BufferUsage::COPY_DST()).0, 48);
    assert_eq!(BufferUsage::MAP_WRITE().0, 8);
}

#[test]
fn gpu_vendor_names() {
    assert_eq!(GpuVendor::Nvidia.display_string(), "NVIDIA");
    assert_eq!(GpuVendor::Unknown("Acme".to_string()).display_string(), "Acme");
    assert_eq!(GpuStats::default().dispatches, 0);
}


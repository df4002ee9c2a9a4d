use elastic_tee_hal::error::HalError;
use elastic_tee_hal::resources::{
    RequestPriority, ResourceInterface, ResourceLimits, ResourceRequest, ResourceType,
    ResourceUsage,
};

fn create_test_limits() -> ResourceLimits {
    ResourceLimits {
        max_memory_mb: 1024,
        max_cpu_cores: 4,
        max_storage_mb: 10240,
        max_network_bandwidth_mbps: 100,
        max_gpu_memory_mb: 2048,
    }
}

fn zero_usage() -> ResourceUsage {
    ResourceUsage {
        memory_mb: 0,
        cpu_cores: 0,
        storage_mb: 0,
        network_bandwidth_mbps: 0,
        gpu_memory_mb: 0,
    }
}

#[test]
fn test_resource_allocation() {
    let mut resource_interface = ResourceInterface::with_limits(create_test_limits());

    // Request memory
    let result = resource_interface
        .request_additional_memory(512, "test_app")
        .unwrap();
    assert!(!result.allocation_id.is_empty());
    assert_eq!(result.granted_amount, 512);

    // Check usage
    let usage = resource_interface.list_current_allocation().unwrap();
    assert_eq!(usage.memory_mb, 512);
}

#[test]
fn test_resource_limits() {
    let mut resource_interface = ResourceInterface::with_limits(create_test_limits());

    // Try to allocate more than available
    let result = resource_interface.request_additional_memory(2048, "greedy_app");
    assert!(result.is_err());
}

#[test]
fn test_resource_release() {
    let mut resource_interface = ResourceInterface::with_limits(create_test_limits());

    // Allocate resource
    let allocation = resource_interface
        .request_additional_cpu(2, "test_app")
        .unwrap();

    // Check usage
    let usage = resource_interface.list_current_allocation().unwrap();
    assert_eq!(usage.cpu_cores, 2);

    // Release resource
    resource_interface
        .release_resource(&allocation.allocation_id)
        .unwrap();

    // Check usage again
    let usage = resource_interface.list_current_allocation().unwrap();
    assert_eq!(usage.cpu_cores, 0);
}

#[test]
fn test_allocation_listing() {
    let mut resource_interface = ResourceInterface::with_limits(create_test_limits());

    // Create multiple allocations
    let _alloc1 = resource_interface
        .request_additional_memory(256, "app1")
        .unwrap();
    let _alloc2 = resource_interface.request_additional_cpu(1, "app2").unwrap();
    let _alloc3 = resource_interface.request_storage(1024, "app1").unwrap();

    // List all allocations
    let all_allocations = resource_interface.list_allocations().unwrap();
    assert_eq!(all_allocations.len(), 3);

    // List allocations by requester
    let app1_allocations = resource_interface
        .list_allocations_by_requester("app1")
        .unwrap();
    assert_eq!(app1_allocations.len(), 2);
}

#[test]
fn test_resource_statistics() {
    let mut resource_interface = ResourceInterface::with_limits(create_test_limits());

    // Allocate some resources
    let _alloc1 = resource_interface
        .request_additional_memory(512, "app1")
        .unwrap(); // 50% of 1024
    let _alloc2 = resource_interface.request_additional_cpu(2, "app2").unwrap(); // 50% of 4

    // The utilization figures are the counters over the limits, in percent.
    let usage = resource_interface.list_current_allocation().unwrap();
    let limits = resource_interface.get_system_limits().unwrap();
    let memory_utilization_percent =
        (usage.memory_mb as f64 / limits.max_memory_mb as f64) * 100.0;
    let cpu_utilization_percent = (usage.cpu_cores as f64 / limits.max_cpu_cores as f64) * 100.0;
    let total_allocations = resource_interface.list_allocations().unwrap().len();
    assert_eq!(memory_utilization_percent, 50.0);
    assert_eq!(cpu_utilization_percent, 50.0);
    assert_eq!(total_allocations, 2);
}

#[test]
fn test_allocation_info() {
    let mut resource_interface = ResourceInterface::with_limits(create_test_limits());

    let allocation = resource_interface
        .request_additional_memory(256, "test_app")
        .unwrap();

    let info = resource_interface
        .get_allocation_info(&allocation.allocation_id)
        .unwrap();
    assert_eq!(info.allocation_id, allocation.allocation_id);
    assert_eq!(info.amount, 256);
    assert_eq!(info.requester, "test_app");
}

#[test]
fn test_gpu_memory_allocation() {
    let mut resource_interface = ResourceInterface::with_limits(create_test_limits());

    let allocation = resource_interface.request_gpu_memory(1024, "gpu_app").unwrap();
    assert_eq!(allocation.granted_amount, 1024);

    let usage = resource_interface.list_current_allocation().unwrap();
    assert_eq!(usage.gpu_memory_mb, 1024);
}

#[test]
fn test_network_bandwidth_allocation() {
    let mut resource_interface = ResourceInterface::with_limits(create_test_limits());

    let allocation = resource_interface
        .request_network_bandwidth(50, "network_app")
        .unwrap();
    assert_eq!(allocation.granted_amount, 50);

    let usage = resource_interface.list_current_allocation().unwrap();
    assert_eq!(usage.network_bandwidth_mbps, 50);
}

fn request(kind: ResourceType, amount: u64, requester: &str, timeout: Option<u64>) -> ResourceRequest {
    ResourceRequest {
        resource_type: kind,
        amount,
        requester: requester.to_string(),
        priority: RequestPriority::High,
        timeout_seconds: timeout,
    }
}

#[test]
fn grant_at_a_given_time_is_exact() {
    let mut r = ResourceInterface::with_limits(create_test_limits());
    let g = r
        .allocate_resource_at(request(ResourceType::Storage, 4096, "db", Some(60)), 1_725_029_869_123)
        .unwrap();
    assert_eq!(g.allocation_id, "Storage_db_4096_1725029869123");
    assert_eq!(g.granted_amount, 4096);
    assert_eq!(g.expires_at, Some(1_725_029_869 + 60));
    let info = r.get_allocation_info("Storage_db_4096_1725029869123").unwrap();
    assert_eq!(info.resource_type, ResourceType::Storage);
    assert_eq!(info.allocated_at, 1_725_029_869);
    assert_eq!(info.requester, "db");
    assert_eq!(r.list_current_allocation().unwrap().storage_mb, 4096);

    let g2 = r
        .allocate_resource_at(request(ResourceType::CpuCores, 1, "a_b", None), 0)
        .unwrap();
    assert_eq!(g2.allocation_id, "CpuCores_a_b_1_0");
    assert_eq!(g2.expires_at, None);
}

#[test]
fn refused_request_changes_nothing() {
    let mut r = ResourceInterface::with_limits(create_test_limits());
    r.request_additional_memory(1000, "a").unwrap();
    match r.request_additional_memory(25, "b") {
        Err(HalError::ResourceError(m)) => {
            assert_eq!(m, "Insufficient Memory resources available")
        }
        other => panic!("unexpected {:?}", other),
    }
    assert_eq!(r.list_current_allocation().unwrap().memory_mb, 1000);
    assert_eq!(r.list_allocations().unwrap().len(), 1);
    // exactly up to the limit is granted
    r.request_additional_memory(24, "b").unwrap();
    assert_eq!(r.list_current_allocation().unwrap().memory_mb, 1024);
    assert!(matches!(
        r.request_gpu_memory(2049, "g"),
        Err(HalError::ResourceError(_))
    ));
    assert!(matches!(
        r.request_additional_cpu(5, "c"),
        Err(HalError::ResourceError(_))
    ));
}

#[test]
fn timeout_beyond_64_bits_is_refused() {
    let mut r = ResourceInterface::with_limits(create_test_limits());
    let result = r.allocate_resource_at(
        request(ResourceType::Memory, 1, "t", Some(u64::MAX)),
        5_000,
    );
    match result {
        Err(HalError::InvalidParameter(m)) => assert_eq!(m, "Requested timeout is too large"),
        other => panic!("unexpected {:?}", other),
    }
    assert_eq!(r.list_current_allocation().unwrap(), zero_usage());
    assert!(r.list_allocations().unwrap().is_empty());
}

#[test]
fn release_of_unknown_id_is_not_found() {
    let mut r = ResourceInterface::with_limits(create_test_limits());
    r.request_storage(10, "x").unwrap();
    match r.release_resource("nope") {
        Err(HalError::NotFound(m)) => assert_eq!(m, "Allocation 'nope' not found"),
        other => panic!("unexpected {:?}", other),
    }
    assert!(matches!(
        r.get_allocation_info("nope"),
        Err(HalError::NotFound(_))
    ));
    assert_eq!(r.list_current_allocation().unwrap().storage_mb, 10);
}

#[test]
fn release_after_grant_restores_the_state() {
    let mut r = ResourceInterface::with_limits(create_test_limits());
    r.allocate_resource_at(request(ResourceType::Memory, 100, "keep", None), 1).unwrap();
    let before_usage = r.list_current_allocation().unwrap();
    let before_ids: Vec<String> =
        r.list_allocations().unwrap().into_iter().map(|a| a.allocation_id).collect();
    let g = r
        .allocate_resource_at(request(ResourceType::Memory, 300, "tmp", None), 2)
        .unwrap();
    assert_eq!(r.list_current_allocation().unwrap().memory_mb, 400);
    r.release_resource(&g.allocation_id).unwrap();
    assert_eq!(r.list_current_allocation().unwrap(), before_usage);
    let after_ids: Vec<String> =
        r.list_allocations().unwrap().into_iter().map(|a| a.allocation_id).collect();
    assert_eq!(after_ids, before_ids);
    // a second release of the same id finds nothing
    assert!(r.release_resource(&g.allocation_id).is_err());
}

#[test]
fn usage_equals_sum_of_live_allocations() {
    let mut r = ResourceInterface::with_limits(create_test_limits());
    let a = r.allocate_resource_at(request(ResourceType::Memory, 100, "p", None), 10).unwrap();
    r.allocate_resource_at(request(ResourceType::Memory, 200, "q", None), 11).unwrap();
    r.allocate_resource_at(request(ResourceType::CpuCores, 3, "p", None), 12).unwrap();
    r.release_resource(&a.allocation_id).unwrap();
    let allocations = r.list_allocations().unwrap();
    let memory: u64 = allocations
        .iter()
        .filter(|x| x.resource_type == ResourceType::Memory)
        .map(|x| x.amount)
        .sum();
    let cpu: u64 = allocations
        .iter()
        .filter(|x| x.resource_type == ResourceType::CpuCores)
        .map(|x| x.amount)
        .sum();
    let usage = r.list_current_allocation().unwrap();
    assert_eq!(usage.memory_mb, memory);
    assert_eq!(usage.memory_mb, 200);
    assert_eq!(usage.cpu_cores as u64, cpu);
}

#[test]
fn same_identifier_replaces_the_record() {
    let mut r = ResourceInterface::with_limits(create_test_limits());
    let g1 = r.allocate_resource_at(request(ResourceType::Memory, 10, "x", None), 7).unwrap();
    let g2 = r.allocate_resource_at(request(ResourceType::Memory, 10, "x", Some(5)), 7).unwrap();
    assert_eq!(g1.allocation_id, g2.allocation_id);
    // both grants count, but only one record is kept under the identifier
    assert_eq!(r.list_current_allocation().unwrap().memory_mb, 20);
    assert_eq!(r.list_allocations().unwrap().len(), 1);
}

#[test]
fn listing_by_requester_keeps_order() {
    let mut r = ResourceInterface::with_limits(create_test_limits());
    r.allocate_resource_at(request(ResourceType::Memory, 1, "a", None), 1).unwrap();
    r.allocate_resource_at(request(ResourceType::Storage, 2, "b", None), 2).unwrap();
    r.allocate_resource_at(request(ResourceType::GpuMemory, 3, "a", None), 3).unwrap();
    let a = r.list_allocations_by_requester("a").unwrap();
    let ids: Vec<&str> = a.iter().map(|x| x.allocation_id.as_str()).collect();
    assert_eq!(ids, vec!["Memory_a_1_1", "GpuMemory_a_3_3"]);
    assert!(r.list_allocations_by_requester("nobody").unwrap().is_empty());
    assert!(r.cleanup_expired_allocations(u64::MAX).unwrap().is_empty());
    assert_eq!(r.list_allocations().unwrap().len(), 3);
}

#[test]
fn new_interface_starts_empty() {
    let r = ResourceInterface::with_limits(create_test_limits());
    assert_eq!(r.list_current_allocation().unwrap(), zero_usage());
    assert_eq!(r.get_system_limits().unwrap(), create_test_limits());
    assert!(r.list_allocations().unwrap().is_empty());
}

#[test]
fn meminfo_total_is_read_in_megabytes() {
    let meminfo = "MemFree:         1234 kB\nMemTotal:       16384000 kB\nMemAvailable: 1 kB\n";
    assert_eq!(ResourceInterface::memory_mb_from_meminfo(meminfo), Some(16000));
    assert_eq!(ResourceInterface::memory_mb_from_meminfo(""), None);
    assert_eq!(ResourceInterface::memory_mb_from_meminfo("MemTotal:\n"), None);
    assert_eq!(
        ResourceInterface::memory_mb_from_meminfo("MemTotal: abc kB\r\nMemTotal: +2048 kB\r\n"),
        Some(2)
    );
    assert_eq!(
        ResourceInterface::memory_mb_from_meminfo("MemTotal: 99999999999999999999 kB"),
        None
    );
    assert_eq!(ResourceInterface::memory_mb_from_meminfo("  MemTotal: 2048 kB"), None);
}

#[test]
fn platform_limits_account_for_tee_overhead() {
    let plain = ResourceInterface::system_limits_from(Some(10000), Some(8), Some(5000), false, false);
    assert_eq!(plain.max_memory_mb, 10000);
    assert_eq!(plain.max_cpu_cores, 8);
    assert_eq!(plain.max_storage_mb, 5000);
    assert_eq!(plain.max_network_bandwidth_mbps, 1000);
    assert_eq!(plain.max_gpu_memory_mb, 8192);
    let tdx = ResourceInterface::system_limits_from(Some(10000), None, None, true, true);
    assert_eq!(tdx.max_memory_mb, 9200);
    assert_eq!(tdx.max_cpu_cores, 4);
    assert_eq!(tdx.max_storage_mb, 102400);
    assert_eq!(tdx.max_gpu_memory_mb, 0);
    let sev = ResourceInterface::system_limits_from(None, None, None, false, true);
    assert_eq!(sev.max_memory_mb, 8192 * 94 / 100);
    assert_eq!(sev.max_gpu_memory_mb, 8192);
    assert_eq!(ResourceInterface::get_available_storage_mb(), Some(102400));
}

#[test]
fn clones_keep_their_fields() {
    let q = request(ResourceType::NetworkBandwidth, 9, "n", Some(3));
    let c = q.clone();
    assert_eq!(c.resource_type, q.resource_type);
    assert_eq!(c.amount, 9);
    assert_eq!(c.requester, "n");
    assert_eq!(c.priority, RequestPriority::High);
    assert_eq!(c.timeout_seconds, Some(3));
    let mut r = ResourceInterface::with_limits(create_test_limits());
    let g = r.allocate_resource_at(q, 1000).unwrap();
    let gc = g.clone();
    assert_eq!(gc.allocation_id, "NetworkBandwidth_n_9_1000");
    assert_eq!(gc.expires_at, Some(4));
    let rec = r.get_allocation_info(&g.allocation_id).unwrap().clone();
    assert_eq!(rec.amount, 9);
}

#[test]
fn identifier_carries_the_clock_time() {
    let before = std::time::SystemTime::now()
        .duration_since(std::time::UNIX_EPOCH)
        .unwrap()
        .as_millis();
    let mut r = ResourceInterface::with_limits(create_test_limits());
    let g = r.request_storage(5, "clock").unwrap();
    let after = std::time::SystemTime::now()
        .duration_since(std::time::UNIX_EPOCH)
        .unwrap()
        .as_millis();
    assert!(g.allocation_id.starts_with("Storage_clock_5_"));
    let millis: u128 = g.allocation_id.rsplit('_').next().unwrap().parse().unwrap();
    assert!(before <= millis && millis <= after);
    let info = r.get_allocation_info(&g.allocation_id).unwrap();
    assert_eq!(info.allocated_at as u128, millis / 1000);
    assert_eq!(g.expires_at, None);
}

#[test]
fn expired_allocations_are_released() {
    let mut r = ResourceInterface::with_limits(create_test_limits());
    // granted at 0 s with a 1 s timeout: expires at 1
    let short = r
        .allocate_resource_at(request(ResourceType::Memory, 100, "s", Some(1)), 0)
        .unwrap();
    assert_eq!(short.expires_at, Some(1));
    let forever = r
        .allocate_resource_at(request(ResourceType::Memory, 200, "f", None), 0)
        .unwrap();
    let long = r
        .allocate_resource_at(request(ResourceType::CpuCores, 2, "l", Some(100)), 5_000)
        .unwrap();
    assert_eq!(r.get_allocation_info(&short.allocation_id).unwrap().expires_at, Some(1));
    assert_eq!(r.get_allocation_info(&forever.allocation_id).unwrap().expires_at, None);

    // nothing has expired before second 1
    assert!(r.cleanup_expired_allocations(0).unwrap().is_empty());
    assert_eq!(r.list_allocations().unwrap().len(), 3);

    // at second 1 the short allocation expires and is given back
    let released = r.cleanup_expired_allocations(1).unwrap();
    assert_eq!(released, vec![short.allocation_id.clone()]);
    assert!(r.get_allocation_info(&short.allocation_id).is_err());
    let usage = r.list_current_allocation().unwrap();
    assert_eq!(usage.memory_mb, 200);
    assert_eq!(usage.cpu_cores, 2);

    // much later the long one goes too; one without a timeout never does
    let released = r.cleanup_expired_allocations(u64::MAX).unwrap();
    assert_eq!(released, vec![long.allocation_id.clone()]);
    let left = r.list_allocations().unwrap();
    assert_eq!(left.len(), 1);
    assert_eq!(left[0].allocation_id, forever.allocation_id);
    let usage = r.list_current_allocation().unwrap();
    assert_eq!(usage.memory_mb, 200);
    assert_eq!(usage.cpu_cores, 0);
}

#[test]
fn cleanup_releases_in_order_of_allocation() {
    let mut r = ResourceInterface::with_limits(create_test_limits());
    let a = r.allocate_resource_at(request(ResourceType::Storage, 1, "a", Some(3)), 1_000).unwrap();
    let b = r.allocate_resource_at(request(ResourceType::Storage, 2, "b", None), 2_000).unwrap();
    let c = r.allocate_resource_at(request(ResourceType::GpuMemory, 3, "c", Some(0)), 9_000).unwrap();
    let released = r.cleanup_expired_allocations(9).unwrap();
    assert_eq!(released, vec![a.allocation_id, c.allocation_id]);
    let left: Vec<String> = r.list_allocations().unwrap().into_iter().map(|x| x.allocation_id).collect();
    assert_eq!(left, vec![b.allocation_id]);
    assert_eq!(r.list_current_allocation().unwrap().storage_mb, 2);
    assert_eq!(r.list_current_allocation().unwrap().gpu_memory_mb, 0);
}

#[test]
fn empty_buffers_always_fill() {
    let rng = elastic_tee_hal::random::RandomInterface::new();
    assert_eq!(rng.generate_random_bytes(0).unwrap(), Vec::<u8>::new());
    let mut empty: [u8; 0] = [];
    assert!(elastic_tee_hal::random::wasi_random::random_get(&mut empty).is_ok());
}
